use bitflate_rs::align::{align_up, align_up_host};
use bitflate_rs::digits::{parse_usize, usize_to_string};
use bitflate_rs::lines::{crlf_to_lf_string, rejoin_lines_string};
use bitflate_rs::text::truncate_name;
use bitflate_rs::widths::{bits_to_bytes, parse_arbitrary_int_bits, parse_lit_usize};

#[test]
fn align_up_rounds_to_power_of_two() {
    assert_eq!(align_up(0, 4), 0);
    assert_eq!(align_up(1, 4), 4);
    assert_eq!(align_up(5, 4), 8);
    assert_eq!(align_up(8, 4), 8);
    assert_eq!(align_up(9, 16), 16);
    assert_eq!(align_up(3, 1), 3);
    assert_eq!(align_up(3, 0), 3);
    assert_eq!(align_up_host(13, 8), 16);
    assert_eq!(align_up_host(7, 2), 8);
}

#[test]
fn align_up_twice_is_align_up_once() {
    for value in 0..100usize {
        for align in [1usize, 2, 4, 8, 16] {
            let once = align_up(value, align);
            assert_eq!(align_up(once, align), once);
            assert_eq!(once % align, 0);
            assert!(value <= once && once < value + align);
        }
    }
}

#[test]
fn bits_to_bytes_picks_storage() {
    assert_eq!(bits_to_bytes(0), 1);
    assert_eq!(bits_to_bytes(1), 1);
    assert_eq!(bits_to_bytes(8), 1);
    assert_eq!(bits_to_bytes(9), 2);
    assert_eq!(bits_to_bytes(16), 2);
    assert_eq!(bits_to_bytes(17), 4);
    assert_eq!(bits_to_bytes(33), 8);
    assert_eq!(bits_to_bytes(64), 8);
    assert_eq!(bits_to_bytes(65), 16);
    assert_eq!(bits_to_bytes(500), 16);
}

#[test]
fn truncate_name_cuts_with_dots() {
    assert_eq!(truncate_name("abcdef", 4), "ab..");
    assert_eq!(truncate_name("abc", 3), "abc");
    assert_eq!(truncate_name("abcd", 3), "a..");
    assert_eq!(truncate_name("abcdef", 2), "ab");
    assert_eq!(truncate_name("a", 2), "a");
    assert_eq!(truncate_name("abc", 0), "");
    assert_eq!(truncate_name("a_very_long_field_name", 16), "a_very_long_fi..");
    assert_eq!(truncate_name("héllo_wörld_long", 8), "héllo_..");
    assert_eq!(truncate_name("SmallBits", 12), "SmallBits");
}

#[test]
fn parse_usize_reads_decimal() {
    assert_eq!(parse_usize("0"), Some(0));
    assert_eq!(parse_usize("42"), Some(42));
    assert_eq!(parse_usize("+7"), Some(7));
    assert_eq!(parse_usize("007"), Some(7));
    assert_eq!(parse_usize(""), None);
    assert_eq!(parse_usize("+"), None);
    assert_eq!(parse_usize("-1"), None);
    assert_eq!(parse_usize("1_000"), None);
    assert_eq!(parse_usize("12a"), None);
    let max = usize::MAX.to_string();
    assert_eq!(parse_usize(&max), Some(usize::MAX));
    let over = format!("{}0", usize::MAX);
    assert_eq!(parse_usize(&over), None);
    for s in ["", "1", "+3", "-3", "99", "x", "18446744073709551616"] {
        assert_eq!(parse_usize(s), s.parse::<usize>().ok());
    }
}

#[test]
fn decimal_text_round_trips() {
    for n in [0usize, 1, 9, 10, 99, 100, 12345, usize::MAX] {
        let s = usize_to_string(n);
        assert_eq!(s, n.to_string());
        assert_eq!(parse_usize(&s), Some(n));
    }
}

#[test]
fn arbitrary_int_names() {
    assert_eq!(parse_arbitrary_int_bits("u3"), Some(3));
    assert_eq!(parse_arbitrary_int_bits("i128"), Some(128));
    assert_eq!(parse_arbitrary_int_bits("u1"), Some(1));
    assert_eq!(parse_arbitrary_int_bits("u0"), None);
    assert_eq!(parse_arbitrary_int_bits("u129"), None);
    assert_eq!(parse_arbitrary_int_bits("x3"), None);
    assert_eq!(parse_arbitrary_int_bits("u"), None);
    assert_eq!(parse_arbitrary_int_bits(""), None);
    assert_eq!(parse_arbitrary_int_bits("u+5"), Some(5));
    assert_eq!(parse_arbitrary_int_bits("usize"), None);
    for bits in 1..=128usize {
        assert_eq!(parse_arbitrary_int_bits(&format!("u{}", bits)), Some(bits));
        assert_eq!(parse_arbitrary_int_bits(&format!("i{}", bits)), Some(bits));
    }
}

#[test]
fn literal_errors_carry_message() {
    assert_eq!(parse_lit_usize("12").ok(), Some(12));
    let err = parse_lit_usize("99999999999999999999999").err().unwrap();
    assert_eq!(err.message(), "invalid usize literal");
}

#[test]
fn lines_are_rejoined_like_str_lines() {
    for s in ["a\nb\n", "a\r\nb\r\n", "a\rb\n", "\n", "", "x\r\r\ny", "end\r", "a\n\n"] {
        let expected = s.lines().collect::<Vec<_>>().join("\n");
        assert_eq!(rejoin_lines_string(s), expected);
    }
    assert_eq!(crlf_to_lf_string("a\r\nb\r"), "a\nb\r");
}
