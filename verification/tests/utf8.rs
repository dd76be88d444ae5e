use strcore::is_utf8;

#[test]
fn empty_is_utf8() {
    assert!(is_utf8(&[]));
}

#[test]
fn ascii_is_utf8() {
    assert!(is_utf8(&[0x41, 0x42]));
}

#[test]
fn every_ascii_byte_is_utf8() {
    for b in 0x00u8..=0x7F {
        assert!(is_utf8(&[b]), "byte {:#04x}", b);
    }
    let all: Vec<u8> = (0x00u8..=0x7F).collect();
    assert!(is_utf8(&all));
}

#[test]
fn bad_continuation_after_two_byte_lead() {
    assert!(!is_utf8(&[0xC3, 0x28]));
}

#[test]
fn surrogate_is_rejected() {
    assert!(!is_utf8(&[0xED, 0xA0, 0x80]));
}

#[test]
fn four_byte_emoji_is_utf8() {
    assert!(is_utf8(&[0xF0, 0x9F, 0x98, 0x80]));
}

#[test]
fn two_byte_sequences() {
    // U+00E9
    assert!(is_utf8(&[0xC3, 0xA9]));
    // the smallest and the largest: U+0080, U+07FF
    assert!(is_utf8(&[0xC2, 0x80]));
    assert!(is_utf8(&[0xDF, 0xBF]));
    // second byte just outside 80..BF
    assert!(!is_utf8(&[0xC2, 0x7F]));
    assert!(!is_utf8(&[0xC2, 0xC0]));
}

#[test]
fn three_byte_sequences() {
    // U+20AC
    assert!(is_utf8(&[0xE2, 0x82, 0xAC]));
    // the smallest and the largest: U+0800, U+FFFF
    assert!(is_utf8(&[0xE0, 0xA0, 0x80]));
    assert!(is_utf8(&[0xEF, 0xBF, 0xBF]));
    // third byte is no continuation byte
    assert!(!is_utf8(&[0xE2, 0x82, 0x2C]));
    assert!(!is_utf8(&[0xE2, 0x82, 0xC0]));
    // second byte is no continuation byte
    assert!(!is_utf8(&[0xE2, 0x28, 0xAC]));
}

#[test]
fn four_byte_sequences() {
    // the smallest and the largest: U+10000, U+10FFFF
    assert!(is_utf8(&[0xF0, 0x90, 0x80, 0x80]));
    assert!(is_utf8(&[0xF4, 0x8F, 0xBF, 0xBF]));
    // a byte that is no continuation byte, in each place
    assert!(!is_utf8(&[0xF0, 0x28, 0x98, 0x80]));
    assert!(!is_utf8(&[0xF0, 0x9F, 0x28, 0x80]));
    assert!(!is_utf8(&[0xF0, 0x9F, 0x98, 0x28]));
}

#[test]
fn overlong_forms_are_rejected() {
    // U+0000 and U+007F in two bytes
    assert!(!is_utf8(&[0xC0, 0x80]));
    assert!(!is_utf8(&[0xC1, 0xBF]));
    // U+0000 and U+07FF in three bytes
    assert!(!is_utf8(&[0xE0, 0x80, 0x80]));
    assert!(!is_utf8(&[0xE0, 0x9F, 0xBF]));
    // U+0000 and U+FFFF in four bytes
    assert!(!is_utf8(&[0xF0, 0x80, 0x80, 0x80]));
    assert!(!is_utf8(&[0xF0, 0x8F, 0xBF, 0xBF]));
}

#[test]
fn surrogate_range_edges() {
    // U+D7FF and U+E000 lie on either side of it
    assert!(is_utf8(&[0xED, 0x9F, 0xBF]));
    assert!(is_utf8(&[0xEE, 0x80, 0x80]));
    // U+D800 and U+DFFF are its ends
    assert!(!is_utf8(&[0xED, 0xA0, 0x80]));
    assert!(!is_utf8(&[0xED, 0xBF, 0xBF]));
}

#[test]
fn beyond_the_last_code_point() {
    // U+110000
    assert!(!is_utf8(&[0xF4, 0x90, 0x80, 0x80]));
    // leading bytes that would start past U+10FFFF
    assert!(!is_utf8(&[0xF5, 0x80, 0x80, 0x80]));
    assert!(!is_utf8(&[0xF7, 0xBF, 0xBF, 0xBF]));
}

#[test]
fn bytes_that_lead_nothing() {
    for b in 0x80u8..=0xBF {
        assert!(!is_utf8(&[b]), "byte {:#04x}", b);
    }
    for b in 0xF8u8..=0xFF {
        assert!(!is_utf8(&[b, 0x80, 0x80, 0x80, 0x80, 0x80]), "byte {:#04x}", b);
    }
}

#[test]
fn truncated_sequences_are_rejected() {
    assert!(!is_utf8(&[0xC3]));
    assert!(!is_utf8(&[0xE2]));
    assert!(!is_utf8(&[0xE2, 0x82]));
    assert!(!is_utf8(&[0xF0]));
    assert!(!is_utf8(&[0xF0, 0x9F]));
    assert!(!is_utf8(&[0xF0, 0x9F, 0x98]));
    // cut short behind well-formed text
    assert!(!is_utf8(&[0x41, 0x42, 0xE2, 0x82]));
}

#[test]
fn one_bad_byte_spoils_the_whole() {
    let good = "a\u{e9}\u{20ac}\u{1f600}z".as_bytes().to_vec();
    assert!(is_utf8(&good));
    for at in 0..=good.len() {
        let mut bad = good.clone();
        bad.insert(at, 0xFF);
        assert!(!is_utf8(&bad), "0xFF put in at {}", at);
    }
}

#[test]
fn mixed_widths() {
    let text = "na\u{ef}ve \u{20ac}5 \u{1f600}\u{10ffff}\u{0}";
    assert!(is_utf8(text.as_bytes()));
}

#[test]
fn joined_runs() {
    let a = "\u{e9}t\u{e9}".as_bytes();
    let b = "\u{1f600}".as_bytes();
    let mut both = a.to_vec();
    both.extend_from_slice(b);
    assert!(is_utf8(&both));
    // a run that stops inside a sequence, and one that starts inside it
    let (head, tail) = b.split_at(2);
    assert!(!is_utf8(head));
    assert!(!is_utf8(tail));
}

#[test]
fn every_char_encodes_to_utf8() {
    let mut buf = [0u8; 4];
    let mut c = 0u32;
    while c <= 0x10FFFF {
        if let Some(ch) = char::from_u32(c) {
            let bytes = ch.encode_utf8(&mut buf).as_bytes();
            assert!(is_utf8(bytes), "U+{:04X}", c);
        }
        c += 1;
    }
}

#[test]
fn agrees_with_std_on_one_and_two_bytes() {
    for a in 0u8..=0xFF {
        assert_eq!(is_utf8(&[a]), std::str::from_utf8(&[a]).is_ok(), "{:#04x}", a);
        for b in 0u8..=0xFF {
            let bytes = [a, b];
            assert_eq!(is_utf8(&bytes), std::str::from_utf8(&bytes).is_ok(), "{:02x?}", bytes);
        }
    }
}

#[test]
fn agrees_with_std_on_three_bytes() {
    let third = [0x00u8, 0x41, 0x7F, 0x80, 0x8F, 0x90, 0x9F, 0xA0, 0xBF, 0xC0, 0xC2, 0xED, 0xFF];
    for a in 0x80u8..=0xFF {
        for b in 0u8..=0xFF {
            for c in third {
                let bytes = [a, b, c];
                assert_eq!(is_utf8(&bytes), std::str::from_utf8(&bytes).is_ok(), "{:02x?}", bytes);
            }
        }
    }
}

#[test]
fn agrees_with_std_on_four_bytes() {
    let later = [0x00u8, 0x7F, 0x80, 0x8F, 0x90, 0xA0, 0xBF, 0xC0, 0xFF];
    for a in 0xE0u8..=0xFF {
        for b in 0u8..=0xFF {
            for c in later {
                for d in later {
                    let bytes = [a, b, c, d];
                    assert_eq!(
                        is_utf8(&bytes),
                        std::str::from_utf8(&bytes).is_ok(),
                        "{:02x?}",
                        bytes
                    );
                }
            }
        }
    }
}
