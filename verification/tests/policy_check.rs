use passwordkit::check;
use passwordkit::{PasswordPolicy, Requirement};

#[test]
fn test_min_length() {
    let policy = PasswordPolicy::new(vec![Requirement::MinLength(8)]);

    let result_too_short = check(&policy, "1234567");
    assert!(result_too_short.is_err());

    let result_short_enough = check(&policy, "12345678");
    assert!(result_short_enough.is_ok());
}

#[test]
fn test_max_length() {
    let policy = PasswordPolicy::new(vec![Requirement::MaxLength(12)]);

    let result_long_enough = check(&policy, "123456789012");
    assert!(result_long_enough.is_ok());

    let result_too_long = check(&policy, "1234567890123");
    assert!(result_too_long.is_err());
}

#[test]
fn test_min_lower_case_letter() {
    let policy = PasswordPolicy::new(vec![Requirement::MinLowerCaseLetter(3)]);

    let result_too_few = check(&policy, "ABcd");
    assert!(result_too_few.is_err());

    let result_enough = check(&policy, "ABCdef");
    assert!(result_enough.is_ok());
}

#[test]
fn test_max_lower_case_letter() {
    let policy = PasswordPolicy::new(vec![Requirement::MaxLowerCaseLetter(3)]);

    let result_ok = check(&policy, "ABCdef");
    assert!(result_ok.is_ok());

    let result_too_many = check(&policy, "ABCdefgh");
    assert!(result_too_many.is_err());
}

#[test]
fn test_min_lower_case_letters_unicode() {
    let policy = PasswordPolicy::new(vec![Requirement::MinLowerCaseLetter(8)]);

    let result_too_few = check(&policy, "привет");
    assert!(result_too_few.is_err());

    let result_enough = check(&policy, "привет, мир");
    assert!(result_enough.is_ok());
}

#[test]
fn test_max_lower_case_letters_unicode() {
    let policy = PasswordPolicy::new(vec![Requirement::MaxLowerCaseLetter(8)]);

    let result_too_many = check(&policy, "привет, мир");
    assert!(result_too_many.is_err());

    let result_enough = check(&policy, "привет");
    assert!(result_enough.is_ok());
}

#[test]
fn test_min_upper_case_letter() {
    let policy = PasswordPolicy::new(vec![Requirement::MinUpperCaseLetter(3)]);

    let result_too_few = check(&policy, "ABcd");
    assert!(result_too_few.is_err());

    let result_enough = check(&policy, "ABCdef");
    assert!(result_enough.is_ok());
}

#[test]
fn test_max_upper_case_letter() {
    let policy = PasswordPolicy::new(vec![Requirement::MaxUpperCaseLetter(3)]);

    let result_ok = check(&policy, "ABCdef");
    assert!(result_ok.is_ok());

    let result_too_many = check(&policy, "ABCDEFgh");
    assert!(result_too_many.is_err());
}

#[test]
fn test_min_upper_case_letters_unicode() {
    let policy = PasswordPolicy::new(vec![Requirement::MinUpperCaseLetter(2)]);

    let result_too_few = check(&policy, "Привет");
    assert!(result_too_few.is_err());

    let result_enough = check(&policy, "Привет, Мир");
    assert!(result_enough.is_ok());
}

#[test]
fn test_max_upper_case_letters_unicode() {
    let policy = PasswordPolicy::new(vec![Requirement::MaxUpperCaseLetter(1)]);

    let result_too_many = check(&policy, "Привет, Мир");
    assert!(result_too_many.is_err());

    let result_enough = check(&policy, "Привет");
    assert!(result_enough.is_ok());
}

#[test]
fn test_min_digits() {
    let policy = PasswordPolicy::new(vec![Requirement::MinDigits(3)]);

    let result_too_few = check(&policy, "abc12");
    assert!(result_too_few.is_err());

    let result_enough = check(&policy, "abc123");
    assert!(result_enough.is_ok());
}

#[test]
fn test_max_digits() {
    let policy = PasswordPolicy::new(vec![Requirement::MaxDigits(3)]);

    let result_ok = check(&policy, "abc123");
    assert!(result_ok.is_ok());

    let result_too_many = check(&policy, "abc1234");
    assert!(result_too_many.is_err());
}

#[test]
fn test_min_special_chars() {
    let policy = PasswordPolicy::new(vec![Requirement::MinSpecialChars(3)]);

    let result_too_few = check(&policy, "abc!@");
    assert!(result_too_few.is_err());

    let result_enough = check(&policy, "abc!@#");
    assert!(result_enough.is_ok());
}

#[test]
fn test_max_special_chars() {
    let policy = PasswordPolicy::new(vec![Requirement::MaxSpecialChars(3)]);

    let result_ok = check(&policy, "abc!@#");
    assert!(result_ok.is_ok());

    let result_too_many = check(&policy, "abc!@#$");
    assert!(result_too_many.is_err());
}

#[test]
fn test_custom_special_chars() {
    let policy = PasswordPolicy::new_with_special_chars(
        vec![Requirement::MinSpecialChars(2)],
        "!@#".to_string(),
    );

    let result_with_default_specials = check(&policy, "abc$%");
    assert!(result_with_default_specials.is_err());

    let result_with_custom_specials = check(&policy, "abc!@");
    assert!(result_with_custom_specials.is_ok());
}

#[test]
fn test_multiple_requirements() {
    let policy = PasswordPolicy::new(vec![
        Requirement::MinLength(8),
        Requirement::MinUpperCaseLetter(1),
        Requirement::MinLowerCaseLetter(1),
        Requirement::MinDigits(1),
        Requirement::MinSpecialChars(1),
    ]);

    let result_fail_all = check(&policy, "abc");
    assert!(result_fail_all.is_err());
    assert_eq!(result_fail_all.unwrap_err().len(), 4);

    let result_fail_some = check(&policy, "Abcdefgh");
    assert!(result_fail_some.is_err());
    assert_eq!(result_fail_some.unwrap_err().len(), 2);

    let result_pass = check(&policy, "Abcdef1!");
    assert!(result_pass.is_ok());
}

#[test]
fn failures_are_listed_in_policy_order() {
    let policy = PasswordPolicy::new(vec![
        Requirement::MinSpecialChars(1),
        Requirement::MaxLowerCaseLetter(5),
        Requirement::MinLength(8),
        Requirement::MaxLength(2),
    ]);
    assert_eq!(
        check(&policy, "abc"),
        Err(vec![
            Requirement::MinSpecialChars(1),
            Requirement::MinLength(8),
            Requirement::MaxLength(2),
        ])
    );
}

#[test]
fn the_same_requirement_can_fail_twice() {
    let policy = PasswordPolicy::new(vec![Requirement::MinDigits(1), Requirement::MinDigits(1)]);
    assert_eq!(
        check(&policy, "abc"),
        Err(vec![Requirement::MinDigits(1), Requirement::MinDigits(1)])
    );
}

#[test]
fn empty_policy_accepts_anything() {
    let policy = PasswordPolicy::new(vec![]);
    assert_eq!(check(&policy, ""), Ok(()));
    assert_eq!(check(&policy, "anything at all ÄÖÜ 123"), Ok(()));
}

#[test]
fn lengths_count_utf8_bytes() {
    // six characters, twelve bytes
    let at_least_twelve = PasswordPolicy::new(vec![Requirement::MinLength(12)]);
    assert_eq!(check(&at_least_twelve, "привет"), Ok(()));
    let at_most_eleven = PasswordPolicy::new(vec![Requirement::MaxLength(11)]);
    assert_eq!(check(&at_most_eleven, "привет"), Err(vec![Requirement::MaxLength(11)]));
}

#[test]
fn letters_and_digits_are_never_special() {
    // "a" and "1" are listed as special but count as a letter and a digit.
    let policy = PasswordPolicy::new_with_special_chars(
        vec![Requirement::MinSpecialChars(2), Requirement::MaxSpecialChars(1)],
        "a1!".to_string(),
    );
    assert_eq!(check(&policy, "a1!"), Err(vec![Requirement::MinSpecialChars(2)]));
}

#[test]
fn characters_outside_every_class_are_not_counted() {
    let policy = PasswordPolicy::new_with_special_chars(
        vec![
            Requirement::MaxLowerCaseLetter(0),
            Requirement::MaxUpperCaseLetter(0),
            Requirement::MaxDigits(0),
            Requirement::MaxSpecialChars(0),
        ],
        String::new(),
    );
    assert_eq!(check(&policy, "!? ~€"), Ok(()));
}

#[test]
fn unicode_digits_are_numeric() {
    let policy = PasswordPolicy::new(vec![Requirement::MinDigits(2), Requirement::MaxDigits(2)]);
    // ARABIC-INDIC DIGIT ONE and SUPERSCRIPT TWO
    assert_eq!(check(&policy, "a\u{0661}\u{00B2}"), Ok(()));
}

#[test]
fn default_special_characters_include_space() {
    let policy = PasswordPolicy::new(vec![Requirement::MinSpecialChars(2)]);
    assert_eq!(check(&policy, "a b c"), Ok(()));
}

#[test]
fn messages_name_the_bound() {
    assert_eq!(
        Requirement::MinLength(8).message(),
        "password should have a minimum length of 8"
    );
    assert_eq!(
        Requirement::MaxLength(128).message(),
        "password should have a maximum length of 128"
    );
    assert_eq!(
        Requirement::MinLowerCaseLetter(2).message(),
        "password should have at least 2 lower case letters"
    );
    assert_eq!(
        Requirement::MaxLowerCaseLetter(10).message(),
        "password should have at most 10 lower case letters"
    );
    assert_eq!(
        Requirement::MinUpperCaseLetter(1).message(),
        "password should have at least 1 upper case letters"
    );
    assert_eq!(
        Requirement::MaxUpperCaseLetter(65535).message(),
        "password should have at most 65535 upper case letters"
    );
    assert_eq!(Requirement::MinDigits(0).message(), "password should have at least 0 digits");
    assert_eq!(Requirement::MaxDigits(909).message(), "password should have at most 909 digits");
    assert_eq!(
        Requirement::MinSpecialChars(3).message(),
        "password should have at least 3 special characters"
    );
    assert_eq!(
        Requirement::MaxSpecialChars(40).message(),
        "password should have at most 40 special characters"
    );
}
