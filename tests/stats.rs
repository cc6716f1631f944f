use mini_wc::stats::{is_white_space, CountMode, FileStats};

fn std_stats(input: &[u8]) -> FileStats {
    let text = String::from_utf8_lossy(input);
    FileStats {
        lines: text.lines().count(),
        words: text.split_whitespace().count(),
        bytes: input.len(),
        chars: text.chars().count(),
    }
}

#[test]
fn stats_basic() {
    let input = b"hello rust\nrust world\n";
    let s = FileStats::from_bytes(input);
    assert_eq!(s.lines, 2);
    assert_eq!(s.words, 4);
    assert_eq!(s.bytes, input.len());
    assert_eq!(s.chars, String::from_utf8_lossy(input).chars().count());
}

#[test]
fn mode_is_copy() {
    let m1 = CountMode::Lines;
    let m2 = m1;
    assert_eq!(m1, m2);
}

#[test]
fn stats_basic_exact() {
    let s = FileStats::from_bytes(b"hello rust\nrust world\n");
    assert_eq!(s, FileStats { lines: 2, words: 4, bytes: 22, chars: 22 });
}

#[test]
fn stats_empty() {
    let s = FileStats::from_bytes(b"");
    assert_eq!(s, FileStats { lines: 0, words: 0, bytes: 0, chars: 0 });
}

#[test]
fn lines_without_final_newline() {
    assert_eq!(FileStats::from_bytes(b"a\nb").lines, 2);
    assert_eq!(FileStats::from_bytes(b"a\nb\n").lines, 2);
    assert_eq!(FileStats::from_bytes(b"\n").lines, 1);
    assert_eq!(FileStats::from_bytes(b"\n\n").lines, 2);
    assert_eq!(FileStats::from_bytes(b"x").lines, 1);
}

#[test]
fn words_ignore_repeated_whitespace() {
    let s = FileStats::from_bytes(b"  one\t\ttwo \r\n three  ");
    assert_eq!(s.words, 3);
    assert_eq!(FileStats::from_bytes(b" \t\n ").words, 0);
}

#[test]
fn unicode_whitespace_separates_words() {
    let s = FileStats::from_bytes("a\u{a0}b\u{3000}c".as_bytes());
    assert_eq!(s.words, 3);
    assert_eq!(s.chars, 5);
    assert_eq!(s.bytes, 8);
}

#[test]
fn multibyte_chars_count_once() {
    let s = FileStats::from_bytes("héllo wörld 🦀".as_bytes());
    assert_eq!(s.chars, 13);
    assert_eq!(s.bytes, 18);
    assert_eq!(s.words, 3);
}

#[test]
fn invalid_bytes_become_replacement_chars() {
    let s = FileStats::from_bytes(&[0xFF, 0x61, 0x80, 0x80]);
    assert_eq!(s.bytes, 4);
    assert_eq!(s.chars, 4);
    assert_eq!(s.words, 1);
    let s = FileStats::from_bytes(&[0xE2, 0x82]);
    assert_eq!(s.chars, 1);
    let s = FileStats::from_bytes(&[0xF0, 0x9F, 0xA6, 0x0A]);
    assert_eq!(s.chars, 2);
    assert_eq!(s.lines, 1);
}

#[test]
fn counting_twice_gives_same_stats() {
    let input = b"x y\nz \xC3\x28 w";
    assert_eq!(FileStats::from_bytes(input), FileStats::from_bytes(input));
}

#[test]
fn chars_never_exceed_bytes() {
    let inputs: [&[u8]; 5] = [b"", b"abc", "é€🦀".as_bytes(), &[0xFF, 0xFE, 0xFD], &[0xF4, 0x90, 0x80]];
    for input in inputs {
        let s = FileStats::from_bytes(input);
        assert_eq!(s.bytes, input.len());
        assert!(s.chars <= s.bytes);
    }
}

#[test]
fn all_modes_compare_equal_to_themselves() {
    let modes = [CountMode::All, CountMode::Lines, CountMode::Words, CountMode::Bytes, CountMode::Chars];
    for (i, a) in modes.iter().enumerate() {
        for (j, b) in modes.iter().enumerate() {
            assert_eq!(a == b, i == j);
        }
    }
}

#[test]
fn white_space_matches_char_is_whitespace() {
    for v in 0u32..=0x10FFFF {
        if let Some(c) = char::from_u32(v) {
            assert_eq!(is_white_space(v), c.is_whitespace(), "code point {:x}", v);
        }
    }
}

const SAMPLE: [u8; 29] = [
    0x00, 0x09, 0x0A, 0x20, 0x41, 0x7F, 0x80, 0x85, 0x8F, 0x90, 0x9F, 0xA0, 0xBF, 0xC0, 0xC1,
    0xC2, 0xDF, 0xE0, 0xE1, 0xEC, 0xED, 0xEE, 0xEF, 0xF0, 0xF1, 0xF3, 0xF4, 0xF5, 0xFF,
];

#[test]
fn matches_std_on_all_two_byte_inputs() {
    for a in 0..=255u8 {
        assert_eq!(FileStats::from_bytes(&[a]), std_stats(&[a]));
        for b in 0..=255u8 {
            let input = [a, b];
            assert_eq!(FileStats::from_bytes(&input), std_stats(&input), "{:x?}", input);
        }
    }
}

#[test]
fn matches_std_on_sampled_longer_inputs() {
    for &a in SAMPLE.iter() {
        for &b in SAMPLE.iter() {
            for &c in SAMPLE.iter() {
                let three = [a, b, c];
                assert_eq!(FileStats::from_bytes(&three), std_stats(&three), "{:x?}", three);
                for &d in SAMPLE.iter() {
                    let four = [a, b, c, d];
                    assert_eq!(FileStats::from_bytes(&four), std_stats(&four), "{:x?}", four);
                }
            }
        }
    }
}

#[test]
fn matches_std_on_every_scalar() {
    let mut buf = [0u8; 4];
    for v in (0u32..=0x10FFFF).step_by(7) {
        if let Some(c) = char::from_u32(v) {
            let bytes = c.encode_utf8(&mut buf).as_bytes();
            let s = FileStats::from_bytes(bytes);
            assert_eq!(s, std_stats(bytes));
            assert_eq!(s.chars, 1);
        }
    }
}
