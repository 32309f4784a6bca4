use pscm::numeral::{int_to_text, parse_i128, parse_i32};

#[test]
fn parse_i32_matches_std() {
    for s in ["0", "42", "-42", "+7", "007", "2147483647", "-2147483648", "2147483648", "", "-", "+", "1a", " 1", "--1"] {
        assert_eq!(parse_i32(s), s.parse::<i32>().ok(), "{}", s);
    }
}

#[test]
fn parse_i128_matches_std() {
    for s in ["0", "-170141183460469231731687303715884105728", "170141183460469231731687303715884105727",
              "170141183460469231731687303715884105728", "12x", "-0", "99999999999999999999999999999999999999999"] {
        assert_eq!(parse_i128(s), s.parse::<i128>().ok(), "{}", s);
    }
}

#[test]
fn int_to_text_matches_display() {
    for i in [0i128, 7, -7, 10, 1234567890, i128::MIN, i128::MAX] {
        assert_eq!(int_to_text(i), i.to_string());
    }
}
