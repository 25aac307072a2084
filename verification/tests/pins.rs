use dip::pin::PinName;
use dip::pins::Pins;

#[test]
fn labels_are_kept_by_number() {
    let mut pins = Pins::new();
    assert!(!pins.contains(1));
    assert!(pins.get(1).is_none());
    pins.insert(1, PinName::from_str("VDD").unwrap());
    pins.insert(7, PinName::from_str("GND, VSS").unwrap());
    assert!(pins.contains(1));
    assert!(pins.contains(7));
    assert!(!pins.contains(2));
    assert_eq!(pins.get(7).unwrap().names(), vec!["GND", "VSS"]);
}

#[test]
fn a_later_label_takes_the_place_of_an_earlier_one() {
    let mut pins = Pins::new();
    pins.insert(3, PinName::from_str("old").unwrap());
    pins.insert(3, PinName::from_str("new").unwrap());
    assert_eq!(pins.get(3).unwrap().name(), "new");
}
