use ripit::util::{answer_in, confirm_action};

#[test]
fn confirm_yes() {
    assert_eq!(confirm_action("y"), Some(true));
    assert_eq!(confirm_action("Y"), Some(true));
    assert_eq!(confirm_action("y\n"), Some(true));
    assert_eq!(confirm_action("  Y \r\n"), Some(true));
}

#[test]
fn confirm_no() {
    assert_eq!(confirm_action("n"), Some(false));
    assert_eq!(confirm_action("N\n"), Some(false));
    assert_eq!(confirm_action("\t n\t"), Some(false));
}

#[test]
fn confirm_nothing_that_counts() {
    assert_eq!(confirm_action(""), None);
    assert_eq!(confirm_action("\n"), None);
    assert_eq!(confirm_action("   "), None);
    assert_eq!(confirm_action("yes\n"), None);
    assert_eq!(confirm_action("no"), None);
    assert_eq!(confirm_action("y n"), None);
    assert_eq!(confirm_action("yy"), None);
    assert_eq!(confirm_action("o"), None);
    assert_eq!(confirm_action("é"), None);
}

#[test]
fn confirm_trims_unicode_white_space() {
    assert_eq!(confirm_action("\u{a0}y\u{2003}\n"), Some(true));
    assert_eq!(confirm_action("\u{3000}N"), Some(false));
    // a zero-width space is no white space
    assert_eq!(confirm_action("\u{200b}y"), None);
}

#[test]
fn confirm_agrees_with_trim() {
    for input in ["y", " y", "y ", "\ny\n", "n\r\n", " n y ", "", " ", "Y\u{85}", "x"] {
        let expected = match input.trim() {
            "y" | "Y" => Some(true),
            "n" | "N" => Some(false),
            _ => None,
        };
        assert_eq!(confirm_action(input), expected, "{:?}", input);
    }
}

#[test]
fn answer_in_reads_the_range() {
    let chars: Vec<char> = "xynN Y".chars().collect();
    assert_eq!(answer_in(&chars, 1, 2), Some(true));
    assert_eq!(answer_in(&chars, 2, 3), Some(false));
    assert_eq!(answer_in(&chars, 3, 4), Some(false));
    assert_eq!(answer_in(&chars, 5, 6), Some(true));
    assert_eq!(answer_in(&chars, 0, 1), None);
    assert_eq!(answer_in(&chars, 1, 3), None);
    assert_eq!(answer_in(&chars, 2, 2), None);
    assert_eq!(answer_in(&chars, 4, 5), None);
}

#[test]
fn white_space_is_the_listed_set() {
    let listed = |c: char| {
        let n = c as u32;
        (0x0009..=0x000d).contains(&n)
            || n == 0x0020
            || n == 0x0085
            || n == 0x00a0
            || n == 0x1680
            || (0x2000..=0x200a).contains(&n)
            || n == 0x2028
            || n == 0x2029
            || n == 0x202f
            || n == 0x205f
            || n == 0x3000
    };
    for n in 0u32..=0x10ffff {
        if let Some(c) = char::from_u32(n) {
            assert_eq!(c.is_whitespace(), listed(c), "U+{:04X}", n);
            // one character between two letters is trimmed exactly where it is white space
            if n < 0x3100 {
                let input = format!("{}y{}", c, c);
                let expected = if listed(c) { Some(true) } else { None };
                assert_eq!(confirm_action(&input), expected, "U+{:04X}", n);
            }
        }
    }
}
