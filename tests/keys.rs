use win95_keygen::checksum::{check_mod7, get_nth_digit_from_end, numerical_overflow};
use win95_keygen::generate as keygen;
use win95_keygen::generate::{
    digit_sum_mod7, format_cd_long, format_cd_normal, format_oem, is_allowed_prefix,
    long_check_digit, render_digits,
};
use win95_keygen::text::parse_digits;
use win95_keygen::validate as keyvalid;

fn general_test(create_func: fn() -> String, check_func: fn(&String) -> bool, n_times: usize) {
    for iteration in 0..n_times {
        let key = create_func();

        if !check_func(&key) {
            panic!(
                "Test failed at {} out of {} iterations. The erroneous key was: {}",
                iteration, n_times, key
            )
        }
    }
}

#[test]
fn cd_normal() {
    general_test(keygen::cd_normal, keyvalid::cd_normal, 1000);
}

#[test]
fn cd_long() {
    general_test(keygen::cd_long, keyvalid::cd_long, 1000);
}

#[test]
fn oem() {
    general_test(keygen::oem, keyvalid::oem, 1000);
}

fn s(text: &str) -> String {
    text.to_string()
}

#[test]
fn normal_cd_accepts_a_plain_key() {
    assert!(keyvalid::cd_normal(&s("123-0000070")));
    assert!(keyvalid::cd_normal(&s("000-0000007")));
    assert!(keyvalid::cd_normal(&s("998-1111111")));
}

#[test]
fn normal_cd_rejects_excluded_prefixes() {
    for prefix in ["333", "444", "555", "666", "777", "888", "999"] {
        assert!(!keyvalid::cd_normal(&format!("{}-0000000", prefix)));
        assert!(!keyvalid::cd_normal(&format!("{}-0000007", prefix)));
    }
    assert!(keyvalid::cd_normal(&s("334-0000007")));
}

#[test]
fn wrong_lengths_are_rejected() {
    assert!(!keyvalid::cd_normal(&s("123-000007")));
    assert!(!keyvalid::cd_normal(&s("123-00000070")));
    assert!(!keyvalid::cd_normal(&s("")));
    assert!(!keyvalid::cd_long(&s("0120-000007")));
    assert!(!keyvalid::cd_long(&s("0120-00000070")));
    assert!(!keyvalid::oem(&s("00195-OEM-0000007-0000")));
    assert!(!keyvalid::oem(&s("00195-OEM-0000007-000000")));
}

#[test]
fn normal_cd_rejects_a_wrong_separator() {
    assert!(!keyvalid::cd_normal(&s("123X0000070")));
    assert!(!keyvalid::cd_long(&s("0120X0000070")));
}

#[test]
fn non_digit_fields_are_rejected() {
    assert!(!keyvalid::cd_normal(&s("+12-0000070")));
    assert!(!keyvalid::cd_normal(&s("12a-0000070")));
    assert!(!keyvalid::cd_normal(&s("123-000007a")));
    assert!(!keyvalid::cd_normal(&s("é23-000007")));
    assert!(!keyvalid::oem(&s("00195-OEM-0000007-0000a")));
}

#[test]
fn normal_cd_checksum_is_required() {
    assert!(!keyvalid::cd_normal(&s("123-0000071")));
    assert!(keyvalid::cd_normal(&s("123-1234560")));
    assert!(!keyvalid::cd_normal(&s("123-1234561")));
}

#[test]
fn oem_date_boundaries() {
    assert!(keyvalid::oem(&s("00195-OEM-0000007-00000")));
    assert!(keyvalid::oem(&s("36695-OEM-0000007-00000")));
    assert!(!keyvalid::oem(&s("00095-OEM-0000007-00000")));
    assert!(!keyvalid::oem(&s("36795-OEM-0000007-00000")));
}

#[test]
fn oem_year_ranges() {
    for year in ["95", "96", "97", "98", "99", "00", "01", "02"] {
        assert!(keyvalid::oem(&format!("100{}-OEM-0000007-12345", year)));
    }
    for year in ["03", "50", "94"] {
        assert!(!keyvalid::oem(&format!("100{}-OEM-0000007-12345", year)));
    }
}

#[test]
fn oem_checksum_covers_six_digits() {
    assert!(keyvalid::oem(&s("10095-OEM-0123456-99999")));
    assert!(!keyvalid::oem(&s("10095-OEM-0123455-99999")));
    // the seventh digit is the literal zero, not part of the checksum
    assert!(!keyvalid::oem(&s("10095-OEM-9000007-99999")));
    assert!(!keyvalid::oem(&s("00195-OEM-1000007-00000")));
}

#[test]
fn oem_character_between_last_fields_is_not_read() {
    assert!(keyvalid::oem(&s("10095-OEM-0000007x99999")));
}

#[test]
fn oem_literal_is_case_sensitive() {
    assert!(!keyvalid::oem(&s("00195-oem-0000007-00000")));
    assert!(!keyvalid::oem(&s("00195-Oem-0000007-00000")));
    assert!(!keyvalid::oem(&s("00195_OEM-0000007-00000")));
}

#[test]
fn long_cd_check_digit_wraps() {
    assert!(keyvalid::cd_long(&s("0090-0000007")));
    assert!(keyvalid::cd_long(&s("0091-0000007")));
    assert!(!keyvalid::cd_long(&s("0092-0000007")));
    assert!(keyvalid::cd_long(&s("1234-0000007")));
    assert!(keyvalid::cd_long(&s("1235-0000007")));
    assert!(!keyvalid::cd_long(&s("1233-0000007")));
    assert!(!keyvalid::cd_long(&s("1236-0000007")));
    assert!(!keyvalid::cd_long(&s("1234-0000008")));
}

#[test]
fn digit_positions() {
    assert_eq!(get_nth_digit_from_end(1234, 0), 4);
    assert_eq!(get_nth_digit_from_end(1234, 1), 3);
    assert_eq!(get_nth_digit_from_end(1234, 3), 1);
    assert_eq!(get_nth_digit_from_end(1234, 4), 0);
    assert_eq!(get_nth_digit_from_end(1234, 40), 0);
}

#[test]
fn mod7_check_counts_padding_zeros() {
    assert!(check_mod7(7, 7));
    assert!(check_mod7(16, 7));
    assert!(!check_mod7(17, 7));
    assert!(check_mod7(0, 7));
    assert!(check_mod7(1234560, 7));
    assert!(!check_mod7(1234561, 7));
    // digits beyond the width are not summed
    assert!(check_mod7(9000007, 6));
    assert!(!check_mod7(9000007, 7));
}

#[test]
fn wrapping_into_a_limit() {
    assert_eq!(numerical_overflow(10, 10), 0);
    assert_eq!(numerical_overflow(11, 10), 1);
    assert_eq!(numerical_overflow(7, 10), 7);
}

#[test]
fn parsing_digit_fields() {
    assert_eq!(parse_digits("ab0123", 2, 6), Some(123));
    assert_eq!(parse_digits("ab0123", 0, 2), None);
    assert_eq!(parse_digits("12+3", 0, 4), None);
    assert_eq!(parse_digits("-1", 0, 2), None);
    assert_eq!(parse_digits("abc", 1, 1), Some(0));
}

#[test]
fn allowed_prefixes() {
    assert!(is_allowed_prefix(0));
    assert!(is_allowed_prefix(332));
    assert!(!is_allowed_prefix(333));
    assert!(!is_allowed_prefix(888));
    assert!(!is_allowed_prefix(999));
    assert!(is_allowed_prefix(998));
}

#[test]
fn long_check_digits() {
    assert_eq!(long_check_digit(0), 1);
    assert_eq!(long_check_digit(123), 4);
    assert_eq!(long_check_digit(999), 0);
    assert_eq!(long_check_digit(58), 9);
}

#[test]
fn rendering_and_summing_digits() {
    let digits = vec![0, 1, 2, 3, 4, 5, 6];
    assert_eq!(render_digits(&digits), "0123456");
    assert_eq!(digit_sum_mod7(&digits), 0);
    assert_eq!(digit_sum_mod7(&vec![9, 9, 1]), 5);
    assert_eq!(render_digits(&vec![]), "");
}

#[test]
fn formatting_keys() {
    assert_eq!(format_cd_normal(7, "0000007"), "007-0000007");
    assert_eq!(format_cd_normal(998, "1111111"), "998-1111111");
    assert_eq!(format_cd_long(9, 0, "0000007"), "0090-0000007");
    assert_eq!(format_cd_long(123, 4, "1234560"), "1234-1234560");
    assert_eq!(format_oem(1, 0, "000007", 42), "00100-OEM-0000007-00042");
    assert_eq!(format_oem(366, 98, "123456", 99998), "36698-OEM-0123456-99998");
}

#[test]
fn generated_keys_have_their_shape() {
    let mut prefixes = std::collections::BTreeSet::new();
    for _ in 0..200 {
        let key = keygen::cd_normal();
        assert_eq!(key.len(), 11);
        assert_eq!(&key[3..4], "-");
        let prefix: usize = key[..3].parse().unwrap();
        assert!(prefix <= 998);
        prefixes.insert(prefix);
        let last = key.as_bytes()[10];
        assert!((b'1'..=b'6').contains(&last));
    }
    assert!(prefixes.len() > 1);
}

#[test]
fn generated_long_keys_use_plus_one() {
    for _ in 0..200 {
        let key = keygen::cd_long();
        let b = key.as_bytes();
        assert_eq!(b[3] - b'0', ((b[2] - b'0') + 1) % 10);
    }
}

#[test]
fn generated_oem_fields_stay_in_generator_ranges() {
    let mut years = std::collections::BTreeSet::new();
    for _ in 0..500 {
        let key = keygen::oem();
        assert_eq!(key.len(), 23);
        let date: usize = key[..3].parse().unwrap();
        assert!((1..=366).contains(&date));
        let year: usize = key[3..5].parse().unwrap();
        assert!((95..=98).contains(&year) || year <= 1);
        years.insert(year);
        assert_eq!(&key[5..11], "-OEM-0");
        assert_eq!(&key[17..18], "-");
        let tail: usize = key[18..].parse().unwrap();
        assert!(tail <= 99998);
    }
    assert!(years.len() > 1);
}
