use dip::dip::{Dip, DipWidth};

#[test]
fn test_dip_decode() {
    let dip = Dip::from_str(
        r#"
        name = "ATtiny412"
        title = "ATtiny412-SS"
        dip = 4
        width = 300
        4 = "PA1"
        2 = "PA6"
        3 = "PA7"
        1 = "VDD""#,
    )
    .unwrap();
    assert_eq!("ATtiny412", dip.name);
    assert_eq!("ATtiny412-SS", dip.title);
    assert_eq!(4, dip.dip);
    assert_eq!(DipWidth::MIL300, dip.width);
    assert_eq!("VDD", dip.pin(1).name());
    assert_eq!("PA6", dip.pin(2).name());
    assert_eq!("PA7", dip.pin(3).name());
    assert_eq!("PA1", dip.pin(4).name());

    assert_eq!(
        "ATtiny412",
        Dip::from_str(
            r#"
        name = "ATtiny412"
        dip = 4
        width = 300
        4 = "PA1"
        2 = "PA6"
        3 = "PA7"
        1 = "VDD""#
        )
        .unwrap()
        .title
    );
}

#[test]
fn test_decode_error() {
    assert_eq!(Dip::from_str("# empty").err(), Some("no name".to_string()));
    assert_eq!(
        Dip::from_str("name = 7400").err(),
        Some("name must be string".to_string())
    );
    assert_eq!(
        Dip::from_str("name = \"SN7400\"").err(),
        Some("no dip package".to_string())
    );
    assert_eq!(
        Dip::from_str("name = \"SN7400\"\ntitle = 7400").err(),
        Some("title must be string".to_string())
    );
    assert_eq!(
        Dip::from_str("name = \"SN7400\"\ndip = \"14\"").err(),
        Some("dip package must be number".to_string())
    );
    assert_eq!(
        Dip::from_str("name = \"SN7400\"\ndip = -2").err(),
        Some("dip package -2 must be positive".to_string())
    );
    assert_eq!(
        Dip::from_str("name = \"SN7400\"\ndip = 50").err(),
        Some("dip package 50 must be less than 50".to_string())
    );
    assert_eq!(
        Dip::from_str("name = \"SN7400\"\ndip = 7").err(),
        Some("dip package 7 must be even".to_string())
    );
    assert_eq!(
        Dip::from_str("name = \"SN7400\"\ndip = 8").err(),
        Some("no width".to_string())
    );
    assert_eq!(
        Dip::from_str("name = \"SN7400\"\ndip = 8\nwidth = \"300\"").err(),
        Some("width must be number in mil".to_string())
    );
    assert_eq!(
        Dip::from_str("name = \"SN7400\"\ndip = 8\nwidth = 400").err(),
        Some("width 400 must be 300 or 600 mil".to_string())
    );
    assert_eq!(
        Dip::from_str(
            r#"
            name = "SN7400"
            dip = 8
            width = 300
            0 = "pin0"
         "#
        )
        .err(),
        Some("invalid pin number 0".to_string())
    );
    assert_eq!(
        Dip::from_str(
            r#"
            name = "SN7400"
            dip = 8
            width = 300
            9 = "pin9"
         "#
        )
        .err(),
        Some("pin number 9 must not be greater than dip 8".to_string())
    );
    assert_eq!(
        Dip::from_str(
            r#"
            name = "SN7400"
            dip = 8
            width = 300
            1 = true
         "#
        )
        .err(),
        Some("name for pin 1 must be string".to_string())
    );
    assert_eq!(
        Dip::from_str(
            r#"
            name = "SN7400"
            dip = 8
            width = 300
            1 = "pin1"
            1 = "pin2"
         "#
        )
        .err(),
        Some("duplicate key: `1` at line 1 column 1".to_string())
    );
    assert_eq!(
        Dip::from_str(
            r#"
            name = "SN7400"
            dip = 8
            width = 300
            1 = "pin1"
            2 = "pin2"
         "#
        )
        .err(),
        Some("missing pin 3 definition".to_string())
    );
}

fn described(dip: usize, pins: &[usize]) -> String {
    let mut text = format!("name = \"chip\"\ndip = {}\nwidth = 600\n", dip);
    for pin in pins {
        text.push_str(&format!("{} = \"P{}\"\n", pin, pin));
    }
    text
}

#[test]
fn every_even_size_below_fifty_is_read() {
    let mut dip = 2;
    while dip < 50 {
        let pins: Vec<usize> = (1..=dip).collect();
        let chip = Dip::from_str(&described(dip, &pins)).unwrap();
        assert_eq!(chip.dip, dip);
        assert_eq!(chip.width, DipWidth::MIL600);
        assert_eq!(chip.title, "chip");
        for pin in 1..=dip {
            assert_eq!(chip.pin(pin).name(), format!("P{}", pin));
        }
        assert!(chip.fits());
        dip += 2;
    }
}

#[test]
fn pins_may_come_in_any_order() {
    let chip = Dip::from_str(&described(6, &[6, 1, 4, 3, 2, 5])).unwrap();
    assert_eq!(chip.pin(1).name(), "P1");
    assert_eq!(chip.pin(6).name(), "P6");
}

#[test]
fn lowest_missing_pin_is_named() {
    assert_eq!(
        Dip::from_str(&described(8, &[1, 2])).err(),
        Some("missing pin 3 definition".to_string())
    );
    assert_eq!(
        Dip::from_str(&described(8, &[2, 3, 4, 5, 6, 7, 8])).err(),
        Some("missing pin 1 definition".to_string())
    );
    assert_eq!(
        Dip::from_str(&described(8, &[1, 2, 3, 4, 5, 6, 7])).err(),
        Some("missing pin 8 definition".to_string())
    );
    assert_eq!(
        Dip::from_str(&described(12, &[1, 2, 3, 4, 5, 6, 7, 8, 9, 11, 12])).err(),
        Some("missing pin 10 definition".to_string())
    );
}

#[test]
fn first_fault_is_the_one_reported() {
    assert_eq!(Dip::from_str("").err(), Some("no name".to_string()));
    assert_eq!(
        Dip::from_str("title = 1\ndip = 7\nwidth = 1\n0 = 1").err(),
        Some("no name".to_string())
    );
    assert_eq!(
        Dip::from_str("name = 1\ntitle = 1\ndip = 7\nwidth = 1").err(),
        Some("name must be string".to_string())
    );
    assert_eq!(
        Dip::from_str("name = \"n\"\ntitle = 1\ndip = 7\nwidth = 1").err(),
        Some("title must be string".to_string())
    );
    assert_eq!(
        Dip::from_str("name = \"n\"\ndip = 7\nwidth = 1\n0 = 1").err(),
        Some("dip package 7 must be even".to_string())
    );
    assert_eq!(
        Dip::from_str("name = \"n\"\ndip = 8\nwidth = 1\n0 = 1").err(),
        Some("width 1 must be 300 or 600 mil".to_string())
    );
    assert_eq!(
        Dip::from_str("name = \"n\"\ndip = 8\nwidth = 300\n0 = 1").err(),
        Some("invalid pin number 0".to_string())
    );
    assert_eq!(
        Dip::from_str("name = \"n\"\ndip = 8\nwidth = 300\n2 = 1").err(),
        Some("name for pin 2 must be string".to_string())
    );
}

#[test]
fn limits_of_the_number_of_pins() {
    assert_eq!(
        Dip::from_str("name = \"n\"\ndip = 0").err(),
        Some("dip package 0 must be positive".to_string())
    );
    assert_eq!(
        Dip::from_str("name = \"n\"\ndip = -9223372036854775808").err(),
        Some("dip package -9223372036854775808 must be positive".to_string())
    );
    assert_eq!(
        Dip::from_str("name = \"n\"\ndip = 9223372036854775807").err(),
        Some("dip package 9223372036854775807 must be less than 50".to_string())
    );
    assert_eq!(
        Dip::from_str("name = \"n\"\ndip = 49").err(),
        Some("dip package 49 must be even".to_string())
    );
    assert_eq!(
        Dip::from_str("name = \"n\"\ndip = 1").err(),
        Some("dip package 1 must be even".to_string())
    );
    assert_eq!(
        Dip::from_str("name = \"n\"\ndip = 48").err(),
        Some("no width".to_string())
    );
    assert_eq!(
        Dip::from_str("name = \"n\"\ndip = 2.0").err(),
        Some("dip package must be number".to_string())
    );
    assert_eq!(
        Dip::from_str("name = \"n\"\ndip = 2\nwidth = -300").err(),
        Some("width -300 must be 300 or 600 mil".to_string())
    );
    assert_eq!(
        Dip::from_str("name = \"n\"\ndip = 2\nwidth = true").err(),
        Some("width must be number in mil".to_string())
    );
}

#[test]
fn a_pin_above_the_last_is_refused() {
    assert_eq!(
        Dip::from_str("name = \"n\"\ndip = 8\nwidth = 300\n100 = \"x\"").err(),
        Some("pin number 100 must not be greater than dip 8".to_string())
    );
    assert_eq!(
        Dip::from_str("name = \"n\"\ndip = 8\nwidth = 300\n18446744073709551615 = \"x\"").err(),
        Some("pin number 18446744073709551615 must not be greater than dip 8".to_string())
    );
}

#[test]
fn keys_are_taken_in_the_order_of_the_table() {
    assert_eq!(
        Dip::from_str("name = \"n\"\ndip = 8\nwidth = 300\n9 = \"x\"\n0 = \"y\"").err(),
        Some("invalid pin number 0".to_string())
    );
    assert_eq!(
        Dip::from_str("name = \"n\"\ndip = 8\nwidth = 300\n9 = \"x\"\n10 = 3").err(),
        Some("pin number 10 must not be greater than dip 8".to_string())
    );
}

#[test]
fn keys_that_write_no_number_are_passed_over() {
    let chip = Dip::from_str(
        "name = \"n\"\ndip = 2\nwidth = 300\n1 = \"a\"\n2 = \"b\"\n\
         note = 5\n\"1x\" = 7\n\"-1\" = 7\n\"+\" = 7\n\"\u{663}\" = 7\n\
         \"99999999999999999999999999\" = 7\n",
    )
    .unwrap();
    assert_eq!(chip.dip, 2);
    assert_eq!(chip.pin(1).name(), "a");
    assert_eq!(chip.pin(2).name(), "b");
}

#[test]
fn a_key_may_write_its_number_with_a_sign_or_zeros() {
    let chip = Dip::from_str(
        "name = \"n\"\ndip = 2\nwidth = 300\n\"+1\" = \"a\"\n\"002\" = \"b\"\n",
    )
    .unwrap();
    assert_eq!(chip.pin(1).name(), "a");
    assert_eq!(chip.pin(2).name(), "b");
}

#[test]
fn of_two_keys_for_one_pin_the_later_counts() {
    let chip = Dip::from_str(
        "name = \"n\"\ndip = 2\nwidth = 300\n1 = \"late\"\n\"01\" = \"early\"\n2 = \"b\"\n",
    )
    .unwrap();
    assert_eq!(chip.pin(1).name(), "late");
}

#[test]
fn a_text_that_is_no_document_keeps_the_complaint() {
    assert_eq!(
        Dip::from_str("name = ").err(),
        Some("unexpected eof encountered at line 1 column 8".to_string())
    );
    assert!(Dip::from_str("name").is_err());
}

#[test]
fn title_stands_in_for_a_missing_title() {
    let chip = Dip::from_str("name = \"n\"\ndip = 2\nwidth = 600\n1 = \"a\"\n2 = \"b\"").unwrap();
    assert_eq!(chip.name, "n");
    assert_eq!(chip.title, "n");
    assert_eq!(chip.width, DipWidth::MIL600);
}
