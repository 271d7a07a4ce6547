use junk_core::text::{
    byte_len_capped, chars_of, find_seq, lower_ascii_vec, parse_u64, split_vec, trim_char_vec,
    trim_str,
};

fn samples() -> Vec<String> {
    let pieces = [
        "", " ", "a", "\t", "\r\n", "\u{85}", "\u{a0}", "\u{1680}", "\u{2000}", "\u{200a}",
        "\u{200b}", "\u{2028}", "\u{202f}", "\u{205f}", "\u{3000}", "\u{180e}", "x y", "é",
        "/", "'", "\"", "+", "1", "0", "9", ".", "%", "Z", "bytes",
    ];
    let mut out = Vec::new();
    for a in pieces.iter() {
        for b in pieces.iter() {
            for c in ["", " ", "q", "\u{3000}"] {
                out.push(format!("{a}{c}{b}"));
            }
        }
    }
    out
}

#[test]
fn trim_matches_std() {
    for s in samples() {
        assert_eq!(trim_str(&s), s.trim(), "input {:?}", s);
        let v = chars_of(&s);
        let t: String = trim_char_vec(&v, '"').into_iter().collect();
        assert_eq!(t, s.trim_matches('"'), "input {:?}", s);
    }
}

#[test]
fn parse_matches_std() {
    let extra = [
        "18446744073709551615", "18446744073709551616", "+0", "++1", "-0", "007", "1_000",
        "99999999999999999999",
    ];
    for s in samples().iter().map(|s| s.as_str()).chain(extra.iter().copied()) {
        assert_eq!(parse_u64(&chars_of(s)), s.parse::<u64>().ok(), "input {:?}", s);
    }
}

#[test]
fn split_and_find_match_std() {
    for s in samples() {
        let parts: Vec<String> = split_vec(&chars_of(&s), '/')
            .into_iter()
            .map(|p| p.into_iter().collect())
            .collect();
        let expected: Vec<String> = s.split('/').map(|p| p.to_string()).collect();
        assert_eq!(parts, expected, "input {:?}", s);
        for pat in ["''", "by", " "] {
            let found = find_seq(&chars_of(&s), &chars_of(pat));
            let expected = s.find(pat).map(|b| s[..b].chars().count());
            assert_eq!(found, expected, "input {:?} pattern {:?}", s, pat);
        }
        let lower: String = lower_ascii_vec(&chars_of(&s)).into_iter().collect();
        assert_eq!(lower, s.to_ascii_lowercase());
        assert_eq!(byte_len_capped(&chars_of(&s), 1000), s.len() as u64);
    }
}
