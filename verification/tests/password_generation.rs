use passwordkit::generate::{
    build_special_chars_set, generate_from_draws, pick_char, take_at, CHARS_DIGITS, CHARS_LOWER_CASE_LETTERS,
    CHARS_SPECIAL, CHARS_UPPER_CASE_LETTERS,
};
use passwordkit::{check, generate, Error, Options, PasswordPolicy, Requirement};

#[test]
fn test_generate() {
    let policy = PasswordPolicy::new_with_special_chars(
        vec![
            Requirement::MinLowerCaseLetter(2),
            Requirement::MinUpperCaseLetter(2),
            Requirement::MinDigits(2),
            Requirement::MinSpecialChars(2),
        ],
        CHARS_SPECIAL.to_string(),
    );

    // Generate 10.000 passwords and check if any error occurs
    for _ in 0..10000 {
        let password = generate(
            12,
            Options {
                min_lower_case: Some(2),
                min_upper_case: Some(2),
                min_digits: Some(2),
                min_special_chars: Some(2),
                ..Default::default()
            },
        );
        let password = match password {
            Ok(password) => password,
            Err(err) => panic!("Failed to generate: {:?}", err),
        };

        if let Err(err) = check(&policy, &password) {
            panic!("Password {} failed policy test {:?}", password, err);
        }
    }
}

#[test]
fn zero_length_is_refused() {
    assert_eq!(generate(0, Options::default()), Err(Error::PasswordLength));
}

#[test]
fn minimums_above_the_length_are_refused() {
    let options = Options { min_lower_case: Some(2), min_upper_case: Some(2), ..Default::default() };
    assert_eq!(generate(3, options), Err(Error::MinimumsTooHigh));
}

#[test]
fn minimums_of_switched_off_classes_are_ignored() {
    let options = Options {
        min_lower_case: Some(10),
        disable_lower_case: Some(true),
        ..Default::default()
    };
    let password = generate(4, options).unwrap();
    assert_eq!(password.chars().count(), 4);
    assert!(password.chars().all(|c| !c.is_ascii_lowercase()));
}

#[test]
fn minimums_equal_to_the_length_fill_it() {
    let options = Options {
        min_lower_case: Some(1),
        min_upper_case: Some(1),
        min_digits: Some(1),
        min_special_chars: Some(1),
        ..Default::default()
    };
    let password = generate(4, options).unwrap();
    let chars: Vec<char> = password.chars().collect();
    assert_eq!(chars.len(), 4);
    assert_eq!(chars.iter().filter(|c| CHARS_LOWER_CASE_LETTERS.contains(**c)).count(), 1);
    assert_eq!(chars.iter().filter(|c| CHARS_UPPER_CASE_LETTERS.contains(**c)).count(), 1);
    assert_eq!(chars.iter().filter(|c| CHARS_DIGITS.contains(**c)).count(), 1);
    assert_eq!(chars.iter().filter(|c| CHARS_SPECIAL.contains(**c)).count(), 1);
}

#[test]
fn default_options_give_the_requested_length() {
    let password = generate(20, Options::default()).unwrap();
    assert_eq!(password.chars().count(), 20);
    let all = format!(
        "{}{}{}{}",
        CHARS_LOWER_CASE_LETTERS, CHARS_UPPER_CASE_LETTERS, CHARS_DIGITS, CHARS_SPECIAL
    );
    assert!(password.chars().all(|c| all.contains(c)));
}

#[test]
fn only_digits_when_the_rest_is_switched_off() {
    let options = Options {
        disable_lower_case: Some(true),
        disable_upper_case: Some(true),
        disable_special_chars: Some(true),
        ..Default::default()
    };
    let password = generate(16, options).unwrap();
    assert_eq!(password.chars().count(), 16);
    assert!(password.chars().all(|c| c.is_ascii_digit()));
}

#[test]
fn custom_and_excluded_special_characters() {
    let options = Options {
        disable_lower_case: Some(true),
        disable_upper_case: Some(true),
        disable_digits: Some(true),
        special_chars: Some("ab".to_string()),
        exclude_chars: Some("a".to_string()),
        min_special_chars: Some(3),
        ..Default::default()
    };
    assert_eq!(generate(5, options).unwrap(), "bbbbb");
}

#[test]
fn explicitly_enabled_classes_stay_on() {
    let options = Options {
        disable_lower_case: Some(false),
        disable_upper_case: Some(true),
        disable_digits: Some(true),
        disable_special_chars: Some(true),
        ..Default::default()
    };
    let password = generate(8, options).unwrap();
    assert!(password.chars().all(|c| c.is_ascii_lowercase()));
}

#[test]
fn special_set_defaults_and_exclusions() {
    assert_eq!(build_special_chars_set(&Options::default()), CHARS_SPECIAL);
    let options = Options { exclude_chars: Some("!#%'~".to_string()), ..Default::default() };
    assert_eq!(build_special_chars_set(&options), "\"$&()*+,-./:;<=>?@[\\]^_`{|}");
    let options = Options {
        special_chars: Some("xyzzy".to_string()),
        exclude_chars: Some("y".to_string()),
        ..Default::default()
    };
    assert_eq!(build_special_chars_set(&options), "xzz");
}

#[test]
fn options_default_is_empty() {
    let options = Options::default();
    assert_eq!(options.min_lower_case, None);
    assert_eq!(options.disable_special_chars, None);
    assert!(options.special_chars.is_none());
    assert!(options.exclude_chars.is_none());
}

#[test]
fn draws_select_modulo_the_set_size() {
    let set = vec!['x', 'y', 'z'];
    assert_eq!(pick_char(&set, 0), 'x');
    assert_eq!(pick_char(&set, 4), 'y');
    assert_eq!(pick_char(&set, u32::MAX), 'x');
}

#[test]
fn taking_removes_the_selected_character() {
    let mut buffer = vec!['a', 'b', 'c'];
    assert_eq!(take_at(&mut buffer, 5), 'c');
    assert_eq!(buffer, vec!['a', 'b']);
    assert_eq!(take_at(&mut buffer, 1), 'b');
    assert_eq!(buffer, vec!['a']);
    assert_eq!(take_at(&mut buffer, u64::MAX), 'a');
    assert!(buffer.is_empty());
}

#[test]
fn default_special_characters_are_ascii_punctuation() {
    assert!(!CHARS_SPECIAL.is_empty());
    assert!(CHARS_SPECIAL.chars().all(|c| c.is_ascii_punctuation()));
    assert_eq!(CHARS_SPECIAL.chars().count(), 32);
    let set = build_special_chars_set(&Options::default());
    assert!(set.chars().all(|c| c.is_ascii_punctuation()));
}

#[test]
fn draws_fix_the_password() {
    let options = Options {
        min_lower_case: Some(1),
        min_digits: Some(1),
        disable_upper_case: Some(true),
        disable_special_chars: Some(true),
        ..Default::default()
    };
    // picks: 'a' for the lower case minimum, '3' for the digit minimum, then
    // 'b' (index 1 of the lower case letters and digits together) to fill;
    // shuffles take out '3', then 'b', then 'a'.
    let password = generate_from_draws(3, &options, &vec![0, 3, 1], &vec![1, 1, 0]);
    assert_eq!(password, Ok("3ba".to_string()));
}

#[test]
fn draws_beyond_the_length_are_ignored() {
    let options = Options {
        disable_lower_case: Some(true),
        disable_upper_case: Some(true),
        disable_special_chars: Some(true),
        ..Default::default()
    };
    let password = generate_from_draws(2, &options, &vec![7, 12, 5], &vec![0, 0, 9]);
    assert_eq!(password, Ok("72".to_string()));
}

#[test]
fn draws_do_not_change_the_errors() {
    let options = Options { min_digits: Some(3), ..Default::default() };
    assert_eq!(generate_from_draws(0, &options, &vec![], &vec![]), Err(Error::PasswordLength));
    assert_eq!(
        generate_from_draws(2, &options, &vec![0, 0], &vec![0, 0]),
        Err(Error::MinimumsTooHigh)
    );
}
