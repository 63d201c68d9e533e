use ripit::oid::CommitId;

fn counting() -> CommitId {
    let mut bytes = [0u8; 20];
    for (i, b) in bytes.iter_mut().enumerate() {
        *b = (i as u8) * 13 + 1;
    }
    CommitId { bytes }
}

#[test]
fn hex_of_known_bytes() {
    assert_eq!(CommitId { bytes: [0; 20] }.to_hex(), "0".repeat(40));
    assert_eq!(CommitId { bytes: [0xff; 20] }.to_hex(), "f".repeat(40));
    assert_eq!(counting().to_hex(), "010e1b2835424f5c697683909daab7c4d1deebf8");
}

#[test]
fn hex_is_high_nibble_first() {
    let mut bytes = [0u8; 20];
    bytes[0] = 0x1a;
    bytes[19] = 0xa1;
    let hex = CommitId { bytes }.to_hex();
    assert!(hex.starts_with("1a00"));
    assert!(hex.ends_with("00a1"));
}

#[test]
fn line_is_hex_and_line_feed() {
    assert_eq!(CommitId { bytes: [0x42; 20] }.to_line(), format!("{}\n", "42".repeat(20)));
}

#[test]
fn from_hex_reads_both_cases() {
    let id = counting();
    assert_eq!(CommitId::from_hex("010e1b2835424f5c697683909daab7c4d1deebf8"), Some(id));
    assert_eq!(CommitId::from_hex("010E1B2835424F5C697683909DAAB7C4D1DEEBF8"), Some(id));
    assert_eq!(CommitId::from_hex("010e1B2835424f5C697683909dAaB7c4D1dEeBf8"), Some(id));
}

#[test]
fn from_hex_wants_forty_digits() {
    assert_eq!(CommitId::from_hex(""), None);
    assert_eq!(CommitId::from_hex(&"a".repeat(39)), None);
    assert_eq!(CommitId::from_hex(&"a".repeat(41)), None);
    assert_eq!(CommitId::from_hex(&"a".repeat(40)), Some(CommitId { bytes: [0xaa; 20] }));
}

#[test]
fn from_hex_refuses_other_characters() {
    for bad in ["g", "G", " ", "/", ":", "@", "`", "é", "\n"] {
        let text = format!("{}{}", "0".repeat(39), bad);
        assert_eq!(CommitId::from_hex(&text), None, "{:?}", bad);
        let text = format!("{}{}", bad, "0".repeat(39));
        assert_eq!(CommitId::from_hex(&text), None, "{:?}", bad);
    }
}

#[test]
fn from_hex_chars_agrees() {
    let chars: Vec<char> = "0123456789abcdefABCDEF0123456789abcdefAB".chars().collect();
    let id = CommitId::from_hex_chars(&chars).unwrap();
    assert_eq!(id.to_hex(), "0123456789abcdefabcdef0123456789abcdefab");
    assert_eq!(CommitId::from_hex_chars(&chars[1..].to_vec()), None);
}

#[test]
fn hex_round_trip() {
    for seed in 0u8..=255 {
        let mut bytes = [0u8; 20];
        for (i, b) in bytes.iter_mut().enumerate() {
            *b = seed.wrapping_mul(31).wrapping_add((i as u8).wrapping_mul(17));
        }
        let id = CommitId { bytes };
        assert_eq!(CommitId::from_hex(&id.to_hex()), Some(id));
    }
}

#[test]
fn same_compares_bytes() {
    let a = counting();
    let mut b = counting();
    assert!(a.same(&b));
    b.bytes[19] ^= 1;
    assert!(!a.same(&b));
    b.bytes[19] ^= 1;
    b.bytes[0] ^= 0x80;
    assert!(!a.same(&b));
}

#[test]
fn from_hex_agrees_with_the_repository() {
    let texts = [
        "0123456789abcdef0123456789abcdef01234567".to_owned(),
        "0123456789ABCDEF0123456789abcdef01234567".to_owned(),
        "g".repeat(40),
        format!("{} ", "a".repeat(39)),
        format!("{}é", "a".repeat(39)),
    ];
    for text in texts {
        let expected = git2::Oid::from_str(&text)
            .ok()
            .map(|oid| CommitId { bytes: oid.as_bytes().try_into().unwrap() });
        assert_eq!(CommitId::from_hex(&text), expected, "{:?}", text);
    }
}

#[test]
fn to_hex_agrees_with_the_repository() {
    for seed in [0u8, 1, 0x5a, 0xff] {
        let mut bytes = [seed; 20];
        bytes[3] = 0x0f;
        bytes[17] = 0xf0;
        let oid = git2::Oid::from_bytes(&bytes).unwrap();
        assert_eq!(CommitId { bytes }.to_hex(), oid.to_string());
    }
}
