use dip::pin::PinName;

fn label(text: &str) -> PinName {
    PinName::from_str(text).unwrap()
}

#[test]
fn names_are_split_at_commas_and_trimmed() {
    assert_eq!(label("VDD").names(), vec!["VDD"]);
    assert_eq!(label("VDD, VCC").names(), vec!["VDD", "VCC"]);
    assert_eq!(label("  PA0 ,AIN0\t,  ~RESET  ").names(), vec!["PA0", "AIN0", "~RESET"]);
    assert_eq!(label("A B , C").names(), vec!["A B", "C"]);
    assert_eq!(label("\u{a0}X\u{3000}").names(), vec!["X"]);
}

#[test]
fn empty_names_are_kept() {
    assert_eq!(label("").names(), vec![""]);
    assert_eq!(label(",").names(), vec!["", ""]);
    assert_eq!(label("a,").names(), vec!["a", ""]);
    assert_eq!(label(",a").names(), vec!["", "a"]);
    assert_eq!(label("a, ,b").names(), vec!["a", "", "b"]);
    assert_eq!(label("   ").names(), vec![""]);
}

#[test]
fn names_agree_with_the_standard_splitting() {
    for text in ["", ",", "a", " a , b ", "a,,b", ", ,", "x\t,\ny", "\u{2003}q\u{2003},r", "é, ü"] {
        let expected: Vec<&str> = text.split(',').map(str::trim).collect();
        assert_eq!(label(text).names(), expected, "{:?}", text);
    }
}

#[test]
fn the_first_name_is_the_name() {
    assert_eq!(label("VDD, VCC").name(), "VDD");
    assert_eq!(label(" PA6 ").name(), "PA6");
    assert_eq!(label("").name(), "");
}

#[test]
fn length_of_the_text() {
    assert_eq!(label("VDD, VCC").text_len(), 8);
    assert_eq!(label("").text_len(), 0);
    assert_eq!(label("é").text_len(), 1);
}

#[test]
fn a_line_towards_the_package() {
    let widths = vec![3, 4];
    assert_eq!(label("VDD, VCC").names_horizontal(&widths, true), " VCC VDD");
    assert_eq!(label("PA6").names_horizontal(&widths, true), "     PA6");
    assert_eq!(label("A, B, C").names_horizontal(&widths, true), "   B   A");
}

#[test]
fn a_line_away_from_the_package() {
    let widths = vec![3, 4];
    assert_eq!(label("VDD, VCC").names_horizontal(&widths, false), "VDD VCC ");
    assert_eq!(label("PA6").names_horizontal(&widths, false), "PA6 ");
    assert_eq!(label("A, B, C").names_horizontal(&widths, false), "A   B   ");
}

#[test]
fn a_line_without_columns() {
    assert_eq!(label("VDD").names_horizontal(&Vec::new(), true), "");
    assert_eq!(label("VDD").names_horizontal(&Vec::new(), false), "");
    assert!(label("VDD").names_vertical(&Vec::new(), true).is_empty());
}

#[test]
fn a_name_wider_than_its_column_is_kept_whole() {
    assert_eq!(label("RESET, X").names_horizontal(&vec![2, 1], true), "X RESET");
    assert_eq!(label("RESET, X").names_horizontal(&vec![2, 1], false), "RESET X");
}

#[test]
fn a_stack_down_towards_the_package() {
    assert_eq!(
        label("VDD, AB").names_vertical(&vec![3, 3], true),
        vec![" ", "A", "B", " ", "V", "D", "D"]
    );
    assert_eq!(
        label("PA").names_vertical(&vec![3, 2], true),
        vec![" ", " ", " ", " ", "P", "A"]
    );
}

#[test]
fn a_stack_down_away_from_the_package() {
    assert_eq!(
        label("VDD, AB").names_vertical(&vec![3, 3], false),
        vec!["V", "D", "D", " ", "A", "B", " "]
    );
    assert_eq!(
        label("PA").names_vertical(&vec![3, 2], false),
        vec!["P", "A", " ", " ", " ", " "]
    );
}
