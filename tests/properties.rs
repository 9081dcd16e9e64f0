use luhn::{luhn, luhn_check, luhn_digit, LuhnError};

#[test]
fn valid_numbers_pass() {
    assert_eq!(luhn_check("4263 9826 4026 9299"), Ok(()));
    assert_eq!(luhn_check("4539 3195 0343 6467"), Ok(()));
    assert_eq!(luhn_check("7992 7398 713"), Ok(()));
    assert!(luhn("79927398713"));
}

#[test]
fn bad_checksums_fail_the_check() {
    assert_eq!(luhn_check("4223 9826 4026 9299"), Err(LuhnError::CheckFailed));
    assert_eq!(luhn_check("4539 3195 0343 6465"), Err(LuhnError::CheckFailed));
    assert_eq!(luhn_check("8273 1232 7352 0563"), Err(LuhnError::CheckFailed));
    assert!(!luhn("8273 1232 7352 0563"));
}

#[test]
fn illegal_character_is_a_syntax_error_holding_the_input() {
    assert_eq!(
        luhn_check("7992-7398-713"),
        Err(LuhnError::SyntaxError("7992-7398-713".to_string()))
    );
    assert_eq!(
        luhn_digit("7992-7398-71"),
        Err(LuhnError::SyntaxError("7992-7398-71".to_string()))
    );
    assert_eq!(luhn_check("12a4"), Err(LuhnError::SyntaxError("12a4".to_string())));
    assert_eq!(luhn_check("x"), Err(LuhnError::SyntaxError("x".to_string())));
    assert!(!luhn("7992-7398-713"));
}

#[test]
fn non_ascii_digits_are_refused() {
    assert_eq!(
        luhn_check("\u{0661}\u{0668}"),
        Err(LuhnError::SyntaxError("\u{0661}\u{0668}".to_string()))
    );
    assert_eq!(luhn_check("18\t"), Err(LuhnError::SyntaxError("18\t".to_string())));
}

#[test]
fn completing_too_few_digits_is_a_syntax_error() {
    assert_eq!(luhn_digit(""), Err(LuhnError::SyntaxError("".to_string())));
    assert_eq!(luhn_digit("0"), Err(LuhnError::SyntaxError("0".to_string())));
    assert_eq!(luhn_digit("1"), Err(LuhnError::SyntaxError("1".to_string())));
    assert_eq!(luhn_digit(" 7  "), Err(LuhnError::SyntaxError(" 7  ".to_string())));
}

#[test]
fn checking_too_few_digits_fails_the_check() {
    assert_eq!(luhn_check(""), Err(LuhnError::CheckFailed));
    assert_eq!(luhn_check("0"), Err(LuhnError::CheckFailed));
    assert_eq!(luhn_check("   "), Err(LuhnError::CheckFailed));
}

#[test]
fn two_digits_are_enough_to_pass() {
    assert_eq!(luhn_check("18"), Ok(()));
    assert_eq!(luhn_check("00"), Ok(()));
    assert_eq!(luhn_check("19"), Err(LuhnError::CheckFailed));
}

#[test]
fn check_digits_have_exact_values() {
    assert_eq!(luhn_digit("4263 9826 4026 929"), Ok('9'));
    assert_eq!(luhn_digit("4223 9826 4026 929"), Ok('8'));
    assert_eq!(luhn_digit("8273 1232 7352 056"), Ok('2'));
    assert_eq!(luhn_digit("7992 7398 71"), Ok('3'));
    assert_eq!(luhn_digit("00"), Ok('0'));
    assert_eq!(luhn_digit("5 9"), Ok('6'));
}

#[test]
fn completed_number_passes() {
    for s in ["4263 9826 4026 929", "8273 1232 7352 056", "5 9", "123456789"] {
        let mut full = s.to_string();
        full.push(luhn_digit(s).unwrap());
        assert_eq!(luhn_check(&full), Ok(()));
    }
}

#[test]
fn round_trip_agrees_with_the_check() {
    for s in ["4263 9826 4026 9299", "4223 9826 4026 9299", "79927398713", "79927398710"] {
        let mut head = s.to_string();
        let last = head.pop().unwrap();
        assert_eq!(luhn_digit(&head) == Ok(last), luhn_check(s).is_ok());
    }
}

#[test]
fn failed_check_completes_with_another_digit() {
    let s = "4539 3195 0343 6465";
    assert_eq!(luhn_check(s), Err(LuhnError::CheckFailed));
    let d = luhn_digit("4539 3195 0343 646").unwrap();
    assert_ne!(d, '5');
    assert_eq!(d, '7');
}

#[test]
fn spaces_do_not_matter() {
    assert_eq!(luhn_check("7992 7398 713"), luhn_check("799273 98713"));
    assert_eq!(luhn_check("79927398713"), Ok(()));
    assert_eq!(luhn_check(" 7 9 9 2 7 3 9 8 7 1 3 "), Ok(()));
    assert_eq!(luhn_check("4223 9826 4026 9299"), luhn_check("42239826 40269299"));
    assert_eq!(luhn_digit("7992 7398 71"), luhn_digit("79927 39871"));
}

#[test]
fn repeated_calls_agree() {
    for s in ["7992 7398 713", "7992-7398-713", "4223 9826 4026 9299", "1"] {
        assert_eq!(luhn_check(s), luhn_check(s));
        assert_eq!(luhn_digit(s), luhn_digit(s));
        assert_eq!(luhn(s), luhn(s));
    }
}
