use failover::encoding::whitespace_width_at;
use failover::heartbeat::{
    decode_heartbeat, encode_heartbeat, MAX_HEARTBEAT_LEN, RENDEZVOUS_ADDRESS, SENDER_ADDRESS,
};

/// What the standard library makes of a payload: the text, trimmed, parsed.
fn reference(payload: &[u8]) -> Option<u64> {
    match std::str::from_utf8(payload) {
        Ok(text) => text.trim().parse::<u64>().ok(),
        Err(_) => None,
    }
}

#[test]
fn encodes_counter_as_decimal_text() {
    assert_eq!(encode_heartbeat(0), b"0".to_vec());
    assert_eq!(encode_heartbeat(1), b"1".to_vec());
    assert_eq!(encode_heartbeat(7), b"7".to_vec());
    assert_eq!(encode_heartbeat(9), b"9".to_vec());
    assert_eq!(encode_heartbeat(10), b"10".to_vec());
    assert_eq!(encode_heartbeat(42), b"42".to_vec());
    assert_eq!(encode_heartbeat(1000), b"1000".to_vec());
    assert_eq!(encode_heartbeat(9_007_199_254_740_993), b"9007199254740993".to_vec());
    assert_eq!(encode_heartbeat(u64::MAX), b"18446744073709551615".to_vec());
}

#[test]
fn encoding_agrees_with_display() {
    let mut value: u64 = 1;
    for _ in 0..200 {
        assert_eq!(encode_heartbeat(value), format!("{}", value).into_bytes());
        value = value.wrapping_mul(6364136223846793005).wrapping_add(1442695040888963407);
    }
}

#[test]
fn encoded_heartbeat_fits_the_buffer() {
    assert_eq!(MAX_HEARTBEAT_LEN, 32);
    assert_eq!(encode_heartbeat(u64::MAX).len(), 20);
    assert!(encode_heartbeat(u64::MAX).len() <= MAX_HEARTBEAT_LEN);
    assert_eq!(encode_heartbeat(0).len(), 1);
}

#[test]
fn channel_addresses_are_loopback() {
    assert_eq!(RENDEZVOUS_ADDRESS, "127.0.0.1:34254");
    assert_eq!(SENDER_ADDRESS, "127.0.0.1:0");
}

#[test]
fn decodes_plain_and_padded_numbers() {
    assert_eq!(decode_heartbeat(b"5"), Some(5));
    assert_eq!(decode_heartbeat(b" 7 "), Some(7));
    assert_eq!(decode_heartbeat(b"9"), Some(9));
    assert_eq!(decode_heartbeat(b"42"), Some(42));
    assert_eq!(decode_heartbeat(b"\t\n 12\r\n"), Some(12));
    assert_eq!(decode_heartbeat(b"\x0b\x0c100\x0b\x0c"), Some(100));
    assert_eq!(decode_heartbeat(b"0"), Some(0));
    assert_eq!(decode_heartbeat(b"007"), Some(7));
    assert_eq!(decode_heartbeat(b"00000000000000000000000000000001"), Some(1));
}

#[test]
fn decodes_leading_plus_sign() {
    assert_eq!(decode_heartbeat(b"+5"), Some(5));
    assert_eq!(decode_heartbeat(b"  +18446744073709551615  "), Some(u64::MAX));
    assert_eq!(decode_heartbeat(b"+"), None);
    assert_eq!(decode_heartbeat(b" + "), None);
    assert_eq!(decode_heartbeat(b"++5"), None);
    assert_eq!(decode_heartbeat(b"+ 5"), None);
    assert_eq!(decode_heartbeat(b"5+"), None);
    assert_eq!(decode_heartbeat(b"5+5"), None);
}

#[test]
fn rejects_what_is_no_number() {
    assert_eq!(decode_heartbeat(b""), None);
    assert_eq!(decode_heartbeat(b" "), None);
    assert_eq!(decode_heartbeat(b"   \t\n"), None);
    assert_eq!(decode_heartbeat(b"not-a-number"), None);
    assert_eq!(decode_heartbeat(b"-5"), None);
    assert_eq!(decode_heartbeat(b"-0"), None);
    assert_eq!(decode_heartbeat(b"5 5"), None);
    assert_eq!(decode_heartbeat(b"5a"), None);
    assert_eq!(decode_heartbeat(b"a5"), None);
    assert_eq!(decode_heartbeat(b"5.0"), None);
    assert_eq!(decode_heartbeat(b"1_000"), None);
    assert_eq!(decode_heartbeat(b"0x10"), None);
    assert_eq!(decode_heartbeat(b"1e3"), None);
    assert_eq!(decode_heartbeat(b"5\0"), None);
    assert_eq!(decode_heartbeat(b"\x005"), None);
}

#[test]
fn rejects_numbers_beyond_64_bits() {
    assert_eq!(decode_heartbeat(b"18446744073709551615"), Some(u64::MAX));
    assert_eq!(decode_heartbeat(b"18446744073709551616"), None);
    assert_eq!(decode_heartbeat(b"18446744073709551620"), None);
    assert_eq!(decode_heartbeat(b"99999999999999999999"), None);
    assert_eq!(decode_heartbeat(b"184467440737095516150"), None);
    assert_eq!(decode_heartbeat(b"100000000000000000000000000000"), None);
    assert_eq!(decode_heartbeat(b"18446744073709551616x"), None);
    assert_eq!(decode_heartbeat(b"018446744073709551615"), Some(u64::MAX));
}

#[test]
fn rejects_bytes_that_are_no_text() {
    assert_eq!(decode_heartbeat(&[0xFF]), None);
    assert_eq!(decode_heartbeat(&[0x35, 0xFF]), None);
    assert_eq!(decode_heartbeat(&[0xFF, 0x35]), None);
    assert_eq!(decode_heartbeat(&[0x35, 0x80]), None);
    assert_eq!(decode_heartbeat(&[0x35, 0xC2]), None);
    assert_eq!(decode_heartbeat(&[0x35, 0xE2, 0x80]), None);
    assert_eq!(decode_heartbeat(&[0xC0, 0xA0, 0x35]), None);
    assert_eq!(decode_heartbeat(&[0x35, 0xED, 0xA0, 0x80]), None);
    // whitespace first, then bytes that end in the middle of a character
    assert_eq!(decode_heartbeat(&[0x20, 0x35, 0x20, 0xE2, 0x80]), None);
}

#[test]
fn trims_every_unicode_whitespace() {
    let spaces: [&str; 25] = [
        "\u{9}", "\u{A}", "\u{B}", "\u{C}", "\u{D}", "\u{20}", "\u{85}", "\u{A0}", "\u{1680}",
        "\u{2000}", "\u{2001}", "\u{2002}", "\u{2003}", "\u{2004}", "\u{2005}", "\u{2006}",
        "\u{2007}", "\u{2008}", "\u{2009}", "\u{200A}", "\u{2028}", "\u{2029}", "\u{202F}",
        "\u{205F}", "\u{3000}",
    ];
    for space in spaces.iter() {
        let before = format!("{}31", space);
        let after = format!("31{}", space);
        let around = format!("{}{}31{}{}", space, space, space, space);
        let within = format!("3{}1", space);
        assert_eq!(decode_heartbeat(before.as_bytes()), Some(31));
        assert_eq!(decode_heartbeat(after.as_bytes()), Some(31));
        assert_eq!(decode_heartbeat(around.as_bytes()), Some(31));
        assert_eq!(decode_heartbeat(within.as_bytes()), None);
        assert_eq!(whitespace_width_at(before.as_bytes(), 0), space.len());
    }
}

#[test]
fn keeps_characters_that_only_look_like_whitespace() {
    let others: [&str; 8] = [
        "\u{200B}", "\u{200C}", "\u{180E}", "\u{FEFF}", "\u{2060}", "\u{1F}", "\u{7F}", "\u{84}",
    ];
    for other in others.iter() {
        let before = format!("{}31", other);
        let after = format!("31{}", other);
        assert_eq!(decode_heartbeat(before.as_bytes()), None);
        assert_eq!(decode_heartbeat(after.as_bytes()), None);
        assert_eq!(whitespace_width_at(before.as_bytes(), 0), 0);
    }
}

#[test]
fn rejects_digits_of_other_scripts() {
    assert_eq!(decode_heartbeat("\u{0663}".as_bytes()), None);
    assert_eq!(decode_heartbeat("\u{FF15}".as_bytes()), None);
    assert_eq!(decode_heartbeat("5\u{0663}".as_bytes()), None);
    assert_eq!(decode_heartbeat("\u{FF0B}5".as_bytes()), None);
}

#[test]
fn whitespace_width_at_reads_from_the_given_place() {
    let bytes: [u8; 7] = [0x35, 0x20, 0xC2, 0xA0, 0xE3, 0x80, 0x80];
    assert_eq!(whitespace_width_at(&bytes, 0), 0);
    assert_eq!(whitespace_width_at(&bytes, 1), 1);
    assert_eq!(whitespace_width_at(&bytes, 2), 2);
    assert_eq!(whitespace_width_at(&bytes, 3), 0);
    assert_eq!(whitespace_width_at(&bytes, 4), 3);
    assert_eq!(whitespace_width_at(&bytes, 5), 0);
    assert_eq!(whitespace_width_at(&bytes, 6), 0);
    assert_eq!(whitespace_width_at(&bytes, 7), 0);
    assert_eq!(whitespace_width_at(&bytes, 100), 0);
    // a pattern that the end of the bytes cuts short
    assert_eq!(whitespace_width_at(&[0xC2], 0), 0);
    assert_eq!(whitespace_width_at(&[0xE2, 0x80], 0), 0);
}

#[test]
fn decoding_reads_back_what_encoding_wrote() {
    let mut value: u64 = 0;
    for _ in 0..500 {
        assert_eq!(decode_heartbeat(&encode_heartbeat(value)), Some(value));
        value = value.wrapping_mul(6364136223846793005).wrapping_add(1442695040888963407);
    }
    for value in [0u64, 1, 9, 10, 99, 100, u64::MAX - 1, u64::MAX] {
        assert_eq!(decode_heartbeat(&encode_heartbeat(value)), Some(value));
    }
}

#[test]
fn agrees_with_the_standard_library_on_short_payloads() {
    assert_eq!(decode_heartbeat(&[]), reference(&[]));
    for a in 0..=255u8 {
        assert_eq!(decode_heartbeat(&[a]), reference(&[a]));
        for b in 0..=255u8 {
            assert_eq!(decode_heartbeat(&[a, b]), reference(&[a, b]), "{:?}", [a, b]);
        }
    }
}

#[test]
fn agrees_with_the_standard_library_on_three_bytes() {
    let firsts: [u8; 12] = [0x09, 0x20, 0x2B, 0x30, 0x39, 0xC2, 0xE1, 0xE2, 0xE3, 0xED, 0xF0, 0x80];
    for a in firsts.iter() {
        for b in 0..=255u8 {
            for c in 0..=255u8 {
                let payload = [*a, b, c];
                assert_eq!(decode_heartbeat(&payload), reference(&payload), "{:?}", payload);
            }
        }
    }
}

#[test]
fn agrees_with_the_standard_library_around_every_character() {
    for code in 0..=0x10FFFFu32 {
        if let Some(c) = char::from_u32(code) {
            let before = format!("{}7", c);
            let after = format!("7{}", c);
            assert_eq!(decode_heartbeat(before.as_bytes()), reference(before.as_bytes()), "{:x}", code);
            assert_eq!(decode_heartbeat(after.as_bytes()), reference(after.as_bytes()), "{:x}", code);
        }
    }
}

#[test]
fn agrees_with_the_standard_library_on_mixed_payloads() {
    let pieces: [&[u8]; 20] = [
        b" ", b"\t", b"\n", b"+", b"-", b"0", b"1", b"9", b"18446744073709551615", b"a",
        &[0xC2, 0xA0], &[0xC2, 0x85], &[0xE2, 0x80, 0x83], &[0xE3, 0x80, 0x80], &[0xE2, 0x80, 0x8B],
        &[0xC2], &[0xE2, 0x80], &[0xFF], &[0x80], &[0xF0, 0x9F, 0x98, 0x80],
    ];
    let mut seed: u64 = 0x2545F4914F6CDD1D;
    for _ in 0..200_000 {
        let mut payload: Vec<u8> = Vec::new();
        seed ^= seed << 13;
        seed ^= seed >> 7;
        seed ^= seed << 17;
        let count = (seed % 7) as usize;
        let mut pick = seed >> 8;
        for _ in 0..count {
            payload.extend_from_slice(pieces[(pick % 20) as usize]);
            pick /= 20;
        }
        assert_eq!(decode_heartbeat(&payload), reference(&payload), "{:?}", payload);
    }
}
