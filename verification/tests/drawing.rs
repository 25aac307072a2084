use dip::cli::{AltNames, Direction, PinGap, Side};
use dip::dip::Dip;
use dip::orient::{pin_step, resolve, Edge, Traversal};

fn attiny(first_pin: &str) -> Dip {
    Dip::from_str(&format!(
        "name = \"ATtiny412\"\ntitle = \"ATtiny412-SS\"\ndip = 4\nwidth = 300\n\
         1 = \"{}\"\n2 = \"PA6\"\n3 = \"PA7\"\n4 = \"PA1\"\n",
        first_pin
    ))
    .unwrap()
}

fn sn7400() -> Dip {
    Dip::from_str(
        r#"
        name = "SN7400"
        title = "Quad NAND"
        dip = 14
        width = 600
        1 = "1A"
        2 = "1B"
        3 = "1Y"
        4 = "2A"
        5 = "2B"
        6 = "2Y"
        7 = "GND"
        8 = "3Y"
        9 = "3A"
        10 = "3B"
        11 = "4Y"
        12 = "4A, X, Y"
        13 = "4B"
        14 = "VCC""#,
    )
    .unwrap()
}

#[test]
fn north_top_plain() {
    let lines = attiny("VDD").print(Direction::NORTH, Side::TOP, PinGap::NONE, AltNames::NONE);
    assert_eq!(lines, vec!["    _____", "VDD|*    |PA1", "PA6|_____|PA7"]);
}

#[test]
fn first_alternate_makes_two_columns() {
    let lines = attiny("VDD, VCC").print(
        Direction::NORTH,
        Side::TOP,
        PinGap::NONE,
        AltNames::ALT1,
    );
    assert_eq!(
        lines,
        vec!["        _____", "VCC VDD|*    |PA1", "    PA6|_____|PA7"]
    );
}

#[test]
fn alternates_are_hidden_unless_asked_for() {
    let lines = attiny("VDD, VCC").print(
        Direction::NORTH,
        Side::TOP,
        PinGap::NONE,
        AltNames::NONE,
    );
    assert_eq!(lines, vec!["    _____", "VDD|*    |PA1", "PA6|_____|PA7"]);
}

#[test]
fn north_with_numbers_and_title() {
    let chip = attiny("VDD, VCC");
    assert_eq!(
        chip.print(Direction::NORTH, Side::TOP, PinGap::PIN1, AltNames::ALT1),
        vec![
            "          _____",
            "VCC VDD 1|*    |4 PA1",
            "    PA6 2|_____|3 PA7",
            "      ATtiny412-SS",
        ]
    );
    assert_eq!(
        chip.print(Direction::NORTH, Side::TOP, PinGap::PIN2, AltNames::ALL),
        vec![
            "           _____",
            "VCC VDD  1|*    |4  PA1",
            "    PA6  2|_____|3  PA7",
            "       ATtiny412-SS",
        ]
    );
}

#[test]
fn north_from_below_mirrors() {
    let chip = attiny("VDD, VCC");
    assert_eq!(
        chip.print(Direction::NORTH, Side::BOTTOM, PinGap::NONE, AltNames::NONE),
        vec!["    _____", "PA1|    *|VDD", "PA7|_____|PA6"]
    );
    assert_eq!(
        chip.print(Direction::NORTH, Side::BOTTOM, PinGap::PIN1, AltNames::ALT1),
        vec![
            "      _____",
            "PA1 4|    *|1 VDD VCC",
            "PA7 3|_____|2 PA6    ",
            "  ATtiny412-SS",
        ]
    );
}

#[test]
fn south_turns_the_package_half_round() {
    let chip = attiny("VDD, VCC");
    assert_eq!(
        chip.print(Direction::SOUTH, Side::TOP, PinGap::NONE, AltNames::NONE),
        vec!["    _____", "PA7|     |PA6", "PA1|____*|VDD"]
    );
    assert_eq!(
        chip.print(Direction::SOUTH, Side::BOTTOM, PinGap::PIN2, AltNames::ALL),
        vec![
            "           _____",
            "    PA6  2|     |3  PA7",
            "VCC VDD  1|*____|4  PA1",
            "       ATtiny412-SS",
        ]
    );
}

#[test]
fn name_runs_down_the_middle() {
    assert_eq!(
        sn7400().print(Direction::NORTH, Side::TOP, PinGap::NONE, AltNames::NONE),
        vec![
            "    _________",
            " 1A|*   S    |VCC",
            " 1B|    N    |4B ",
            " 1Y|    7    |4A ",
            " 2A|    4    |4Y ",
            " 2B|    0    |3B ",
            " 2Y|    0    |3A ",
            "GND|_________|3Y ",
        ]
    );
}

#[test]
fn two_digit_numbers_widen_their_column() {
    assert_eq!(
        sn7400().print(Direction::NORTH, Side::TOP, PinGap::PIN1, AltNames::ALT1),
        vec![
            "      _________",
            " 1A 1|*   S    |14 VCC  ",
            " 1B 2|    N    |13 4B   ",
            " 1Y 3|    7    |12 4A  X",
            " 2A 4|    4    |11 4Y   ",
            " 2B 5|    0    |10 3B   ",
            " 2Y 6|    0    |9  3A   ",
            "GND 7|_________|8  3Y   ",
            "      Quad NAND",
        ]
    );
    assert_eq!(
        sn7400().print(Direction::NORTH, Side::TOP, PinGap::PIN2, AltNames::ALL),
        vec![
            "       _________",
            " 1A  1|*   S    |14  VCC    ",
            " 1B  2|    N    |13  4B     ",
            " 1Y  3|    7    |12  4A  X Y",
            " 2A  4|    4    |11  4Y     ",
            " 2B  5|    0    |10  3B     ",
            " 2Y  6|    0    |9   3A     ",
            "GND  7|_________|8   3Y     ",
            "       Quad NAND",
        ]
    );
}

#[test]
fn second_alternate_shows_three_columns_at_most() {
    let chip = Dip::from_str(
        "name = \"X\"\ndip = 2\nwidth = 300\n1 = \"A, B, C, D\"\n2 = \"E\"\n",
    )
    .unwrap();
    assert_eq!(
        chip.print(Direction::NORTH, Side::TOP, PinGap::NONE, AltNames::ALT2),
        vec!["      _____", "C B A|*_X__|E"]
    );
    assert_eq!(
        chip.print(Direction::NORTH, Side::TOP, PinGap::NONE, AltNames::ALL),
        vec!["        _____", "D C B A|*_X__|E"]
    );
}

#[test]
fn west_from_below() {
    assert_eq!(
        sn7400().print(Direction::WEST, Side::BOTTOM, PinGap::NONE, AltNames::NONE),
        vec![
            "             G",
            " 1 1 1 2 2 2 N",
            " A B Y A B Y D",
            "+-------------+",
            "|*            |",
            "|             |",
            "|   SN7400    |",
            "|             |",
            "+-------------+",
            " V 4 4 4 3 3 3",
            " C B A Y B A Y",
            " C            ",
        ]
    );
}

#[test]
fn west_from_below_with_numbers_and_alternates() {
    assert_eq!(
        sn7400().print(Direction::WEST, Side::BOTTOM, PinGap::PIN2, AltNames::ALL),
        vec![
            "             G",
            " 1 1 1 2 2 2 N",
            " A B Y A B Y D",
            " ",
            " 1 2 3 4 5 6 7",
            "+-------------+",
            "|*            |",
            "|             |",
            "|   SN7400    |",
            "|             |",
            "+-------------+",
            " 1 1 1 1 1 9 8",
            " 4 3 2 1 0    ",
            " ",
            " V 4 4 4 3 3 3",
            " C B A Y B A Y",
            " C            ",
            "              ",
            "     X        ",
            "              ",
            "     Y        ",
            "   Quad NAND",
        ]
    );
}

#[test]
fn west_from_above() {
    assert_eq!(
        sn7400().print(Direction::WEST, Side::TOP, PinGap::PIN1, AltNames::ALT1),
        vec![
            "     X        ",
            "              ",
            " V            ",
            " C 4 4 4 3 3 3",
            " C B A Y B A Y",
            " ",
            " 1 1 1 1 1    ",
            " 4 3 2 1 0 9 8",
            "+-------------+",
            "|             |",
            "|             |",
            "|   SN7400    |",
            "|*            |",
            "+-------------+",
            " 1 2 3 4 5 6 7",
            " ",
            " 1 1 1 2 2 2 G",
            " A B Y A B Y N",
            "             D",
            "   Quad NAND",
        ]
    );
}

#[test]
fn east_on_a_narrow_package() {
    let chip = Dip::from_str(
        "name = \"NE555\"\ntitle = \"Timer\"\ndip = 8\nwidth = 300\n\
         1 = \"GND\"\n2 = \"TRIG\"\n3 = \"OUT\"\n4 = \"RESET\"\n\
         5 = \"CTRL\"\n6 = \"THR\"\n7 = \"DIS\"\n8 = \"VCC\"\n",
    )
    .unwrap();
    assert_eq!(
        chip.print(Direction::EAST, Side::TOP, PinGap::PIN1, AltNames::NONE),
        vec![
            " R      ",
            " E   T  ",
            " S O R G",
            " E U I N",
            " T T G D",
            " ",
            " 4 3 2 1",
            "+-------+",
            "|      *|",
            "|NE555  |",
            "+-------+",
            " 5 6 7 8",
            " ",
            " C T D V",
            " T H I C",
            " R R S C",
            " L      ",
            "  Timer",
        ]
    );
}

#[test]
fn mark_hides_a_letter_of_the_name_on_a_narrow_package() {
    let chip = Dip::from_str(
        "name = \"ABCD\"\ndip = 4\nwidth = 300\n1 = \"a\"\n2 = \"b\"\n3 = \"c\"\n4 = \"d\"\n",
    )
    .unwrap();
    assert_eq!(
        chip.print(Direction::WEST, Side::TOP, PinGap::NONE, AltNames::NONE),
        vec![" d c", "+---+", "|   |", "|*CD|", "+---+", " a b"]
    );
    assert_eq!(
        chip.print(Direction::EAST, Side::TOP, PinGap::NONE, AltNames::NONE),
        vec![" b a", "+---+", "|  *|", "|BCD|", "+---+", " c d"]
    );
}

#[test]
fn a_name_too_long_for_the_package_is_left_out() {
    let chip = attiny("VDD");
    assert_eq!(
        chip.print(Direction::EAST, Side::TOP, PinGap::NONE, AltNames::NONE),
        vec![" P V", " A D", " 6 D", "+---+", "|  *|", "|   |", "+---+", " P P", " A A", " 7 1"]
    );
    let tall = Dip::from_str(
        "name = \"LONG\"\ndip = 6\nwidth = 300\n1 = \"a\"\n2 = \"b\"\n3 = \"c\"\n4 = \"d\"\n5 = \"e\"\n6 = \"f\"\n",
    )
    .unwrap();
    assert_eq!(
        tall.print(Direction::NORTH, Side::TOP, PinGap::NONE, AltNames::NONE),
        vec!["  _____", "a|*    |f", "b|     |e", "c|_____|d"]
    );
}

#[test]
fn a_name_that_just_fits_is_drawn() {
    let chip = Dip::from_str(
        "name = \"AB\"\ndip = 4\nwidth = 600\n1 = \"a\"\n2 = \"b\"\n3 = \"c\"\n4 = \"d\"\n",
    )
    .unwrap();
    assert_eq!(
        chip.print(Direction::NORTH, Side::TOP, PinGap::NONE, AltNames::NONE),
        vec!["  _________", "a|*   A    |d", "b|____B____|c"]
    );
    let one = Dip::from_str(
        "name = \"Q\"\ndip = 6\nwidth = 300\n1 = \"a\"\n2 = \"b\"\n3 = \"c\"\n4 = \"d\"\n5 = \"e\"\n6 = \"f\"\n",
    )
    .unwrap();
    assert_eq!(
        one.print(Direction::NORTH, Side::TOP, PinGap::NONE, AltNames::NONE),
        vec!["  _____", "a|*    |f", "b|  Q  |e", "c|_____|d"]
    );
}

#[test]
fn the_mark_changes_sides_with_the_face() {
    let chip = sn7400();
    for direction in [Direction::NORTH, Direction::SOUTH] {
        let above = chip.print(direction, Side::TOP, PinGap::NONE, AltNames::NONE);
        let below = chip.print(direction, Side::BOTTOM, PinGap::NONE, AltNames::NONE);
        assert_eq!(above.len(), below.len());
        for row in 1..above.len() {
            let a: Vec<char> = above[row].chars().collect();
            let b: Vec<char> = below[row].chars().collect();
            let (a_left, a_right) = (a[4], a[12]);
            let (b_left, b_right) = (b[4], b[12]);
            assert_eq!(a_left == '*', b_right == '*');
            assert_eq!(a_right == '*', b_left == '*');
        }
        let marks = |lines: &Vec<String>| lines.iter().map(|l| l.matches('*').count()).sum::<usize>();
        assert_eq!(marks(&above), 1);
        assert_eq!(marks(&below), 1);
    }
    for direction in [Direction::EAST, Direction::WEST] {
        let above = chip.print(direction, Side::TOP, PinGap::NONE, AltNames::NONE);
        let below = chip.print(direction, Side::BOTTOM, PinGap::NONE, AltNames::NONE);
        let under_top = |lines: &Vec<String>| lines[4].find('*');
        let over_bottom = |lines: &Vec<String>| lines[7].find('*');
        assert_eq!(under_top(&above), over_bottom(&below));
        assert_eq!(over_bottom(&above), under_top(&below));
        assert!(under_top(&above).is_some() != over_bottom(&above).is_some());
    }
}

#[test]
fn edges_for_each_direction() {
    let edge = |start, end| Edge { start, end };
    assert_eq!(
        resolve(Side::TOP, Direction::NORTH, 14),
        Traversal { first: edge(1, 7), second: edge(14, 8) }
    );
    assert_eq!(
        resolve(Side::TOP, Direction::SOUTH, 14),
        Traversal { first: edge(8, 14), second: edge(7, 1) }
    );
    assert_eq!(
        resolve(Side::TOP, Direction::EAST, 14),
        Traversal { first: edge(7, 1), second: edge(8, 14) }
    );
    assert_eq!(
        resolve(Side::TOP, Direction::WEST, 14),
        Traversal { first: edge(14, 8), second: edge(1, 7) }
    );
}

#[test]
fn edges_change_places_from_below() {
    for direction in [Direction::NORTH, Direction::EAST, Direction::SOUTH, Direction::WEST] {
        for dip in [2usize, 4, 8, 14, 48] {
            let above = resolve(Side::TOP, direction, dip);
            let below = resolve(Side::BOTTOM, direction, dip);
            assert_eq!(below.first, above.second);
            assert_eq!(below.second, above.first);
        }
    }
}

#[test]
fn stepping_along_an_edge() {
    assert_eq!(pin_step(3, 1, 7), 4);
    assert_eq!(pin_step(12, 14, 8), 11);
    assert_eq!(pin_step(1, 1, 1), 0);
}

#[test]
fn smallest_package() {
    let chip = Dip::from_str("name = \"D\"\ndip = 2\nwidth = 300\n1 = \"A\"\n2 = \"K\"\n").unwrap();
    assert_eq!(
        chip.print(Direction::NORTH, Side::TOP, PinGap::PIN1, AltNames::NONE),
        vec!["    _____", "A 1|*_D__|2 K", "      D"]
    );
    assert_eq!(
        chip.print(Direction::EAST, Side::TOP, PinGap::NONE, AltNames::NONE),
        vec![" A", "+-+", "|*|", "| |", "+-+", " K"]
    );
}

#[test]
fn widths_of_label_columns() {
    let chip = sn7400();
    assert_eq!(chip.max_name_width(1, 7, AltNames::ALL), (3, vec![3]));
    assert_eq!(chip.max_name_width(14, 8, AltNames::NONE), (3, vec![3]));
    assert_eq!(chip.max_name_width(14, 8, AltNames::ALT1), (5, vec![3, 1]));
    assert_eq!(chip.max_name_width(8, 14, AltNames::ALT2), (7, vec![3, 1, 1]));
    assert_eq!(chip.max_name_width(12, 12, AltNames::ALL), (6, vec![2, 1, 1]));
}

#[test]
fn lines_for_the_pins_of_one_edge() {
    let chip = attiny("VDD, VCC");
    let mut out = vec![String::from("kept")];
    chip.print_pins_vertical(1, 2, PinGap::PIN1, AltNames::ALT1, true, &mut out);
    assert_eq!(
        out,
        vec!["kept", " V  ", " C  ", " C  ", "    ", " V P", " D A", " D 6", " ", " 1 2"]
    );
    let mut below = Vec::new();
    chip.print_pins_vertical(1, 2, PinGap::PIN1, AltNames::ALT1, false, &mut below);
    assert_eq!(
        below,
        vec![" 1 2", " ", " V P", " D A", " D 6", "    ", " V  ", " C  ", " C  "]
    );
}

#[test]
fn one_line_summary() {
    assert_eq!(
        attiny("VDD, VCC").to_string(),
        "[name=ATtiny412 title=ATtiny412-SS package=DIP4 withd=MIL300 pins=[VDD PA6 PA7 PA1]]"
    );
    assert_eq!(
        sn7400().to_string(),
        "[name=SN7400 title=Quad NAND package=DIP14 withd=MIL600 \
         pins=[1A 1B 1Y 2A 2B 2Y GND 3Y 3A 3B 4Y 4A 4B VCC]]"
    );
}

#[test]
fn a_chip_that_was_read_can_be_drawn() {
    assert!(attiny("VDD").fits());
    assert!(sn7400().fits());
}

#[test]
fn clusters_count_as_one_column() {
    let chip = Dip::from_str(
        "name = \"e\u{301}\"\ntitle = \"caf\u{e9}\"\ndip = 2\nwidth = 300\n\
         1 = \"a\u{308}b\"\n2 = \"\u{b5}C\"\n",
    )
    .unwrap();
    assert_eq!(
        chip.print(Direction::NORTH, Side::TOP, PinGap::PIN1, AltNames::NONE),
        vec!["     _____", "a\u{308}b 1|*_e\u{301}__|2 \u{b5}C", "     caf\u{e9}"]
    );
}

#[test]
fn drawing_with_edges_given() {
    let chip = attiny("VDD");
    let north = resolve(Side::TOP, Direction::NORTH, chip.dip);
    assert_eq!(
        chip.print_vertical(north, PinGap::NONE, AltNames::NONE),
        chip.print(Direction::NORTH, Side::TOP, PinGap::NONE, AltNames::NONE)
    );
    let east = resolve(Side::BOTTOM, Direction::EAST, chip.dip);
    assert_eq!(
        chip.print_horizontal(east, PinGap::PIN1, AltNames::NONE),
        vec![
            " P P",
            " A A",
            " 7 1",
            " ",
            " 3 4",
            "+---+",
            "|   |",
            "|  *|",
            "+---+",
            " 2 1",
            " ",
            " P V",
            " A D",
            " 6 D",
            "ATtiny412-SS",
        ]
    );
}
