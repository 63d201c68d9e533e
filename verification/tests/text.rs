use ripit::text::{chars_of, find_first, matches_at, string_of};

fn chars(s: &str) -> Vec<char> {
    s.chars().collect()
}

#[test]
fn chars_of_keeps_every_character() {
    assert_eq!(chars_of(""), Vec::<char>::new());
    assert_eq!(chars_of("aé\n€"), vec!['a', 'é', '\n', '€']);
}

#[test]
fn string_of_takes_the_range() {
    let text = chars("héllo wörld");
    assert_eq!(string_of(&text, 0, 5), "héllo");
    assert_eq!(string_of(&text, 6, 11), "wörld");
    assert_eq!(string_of(&text, 3, 3), "");
    assert_eq!(string_of(&text, 0, 11), "héllo wörld");
}

#[test]
fn matches_at_checks_position_and_bounds() {
    let hay = chars("abcabc");
    assert!(matches_at(&hay, &chars("abc"), 0));
    assert!(matches_at(&hay, &chars("abc"), 3));
    assert!(!matches_at(&hay, &chars("abc"), 1));
    assert!(!matches_at(&hay, &chars("abc"), 4));
    assert!(!matches_at(&hay, &chars("abc"), 7));
    assert!(matches_at(&hay, &chars(""), 6));
    assert!(!matches_at(&hay, &chars(""), 7));
    assert!(!matches_at(&chars("ab"), &chars("abc"), 0));
}

#[test]
fn find_first_gives_the_least_position() {
    assert_eq!(find_first(&chars("xxabxxab"), &chars("ab")), Some(2));
    assert_eq!(find_first(&chars("ab"), &chars("ab")), Some(0));
    assert_eq!(find_first(&chars("xab"), &chars("ab")), Some(1));
    assert_eq!(find_first(&chars("aab"), &chars("ab")), Some(1));
    assert_eq!(find_first(&chars("xxa"), &chars("ab")), None);
    assert_eq!(find_first(&chars("a"), &chars("ab")), None);
    assert_eq!(find_first(&chars(""), &chars("ab")), None);
    assert_eq!(find_first(&chars("abc"), &chars("")), Some(0));
    assert_eq!(find_first(&chars(""), &chars("")), Some(0));
}

#[test]
fn find_first_agrees_with_std() {
    let hays = ["", "r", "rip-it: ", "xrip-it: y", "rip-it:rip-it: ", "ééé rip-it: é", "rip-i"];
    for hay in hays {
        let expected = hay.find("rip-it: ").map(|at| hay[..at].chars().count());
        assert_eq!(find_first(&chars(hay), &chars("rip-it: ")), expected, "{:?}", hay);
    }
}
