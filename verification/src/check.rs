//! Checking a password against a policy made of length and character-class rules.

use vstd::prelude::*;
use crate::text::{
    chars_of, contains_char, decimal, has_lowercase_property, has_numeric_property,
    has_uppercase_property, push_decimal,
};

verus! {

/// The characters that count as special when a policy does not name its own.
pub const DEFAULT_SPECIAL_CHARS: &'static str = " !\"#$%&'()*+,-./:;<=>?@[\\]^_`{|}~";

/// One rule of a password policy. Lengths are in bytes of the UTF-8 encoding;
/// the other rules bound how many characters of one class the password holds.
#[derive(Debug, Clone, Copy, PartialEq, Eq, Structural)]
pub enum Requirement {
    MinLength(u16),
    MaxLength(u16),
    MinLowerCaseLetter(u16),
    MaxLowerCaseLetter(u16),
    MinUpperCaseLetter(u16),
    MaxUpperCaseLetter(u16),
    MinDigits(u16),
    MaxDigits(u16),
    MinSpecialChars(u16),
    MaxSpecialChars(u16),
}

impl Requirement {
    /// The bound the requirement sets.
    pub open spec fn bound(self) -> u16 {
        match self {
            Requirement::MinLength(n) => n,
            Requirement::MaxLength(n) => n,
            Requirement::MinLowerCaseLetter(n) => n,
            Requirement::MaxLowerCaseLetter(n) => n,
            Requirement::MinUpperCaseLetter(n) => n,
            Requirement::MaxUpperCaseLetter(n) => n,
            Requirement::MinDigits(n) => n,
            Requirement::MaxDigits(n) => n,
            Requirement::MinSpecialChars(n) => n,
            Requirement::MaxSpecialChars(n) => n,
        }
    }

    /// The text that precedes the bound in the requirement's message.
    pub open spec fn message_prefix(self) -> Seq<char> {
        match self {
            Requirement::MinLength(_) => "password should have a minimum length of "@,
            Requirement::MaxLength(_) => "password should have a maximum length of "@,
            Requirement::MinLowerCaseLetter(_) => "password should have at least "@,
            Requirement::MaxLowerCaseLetter(_) => "password should have at most "@,
            Requirement::MinUpperCaseLetter(_) => "password should have at least "@,
            Requirement::MaxUpperCaseLetter(_) => "password should have at most "@,
            Requirement::MinDigits(_) => "password should have at least "@,
            Requirement::MaxDigits(_) => "password should have at most "@,
            Requirement::MinSpecialChars(_) => "password should have at least "@,
            Requirement::MaxSpecialChars(_) => "password should have at most "@,
        }
    }

    /// The text that follows the bound in the requirement's message.
    pub open spec fn message_suffix(self) -> Seq<char> {
        match self {
            Requirement::MinLength(_) => ""@,
            Requirement::MaxLength(_) => ""@,
            Requirement::MinLowerCaseLetter(_) => " lower case letters"@,
            Requirement::MaxLowerCaseLetter(_) => " lower case letters"@,
            Requirement::MinUpperCaseLetter(_) => " upper case letters"@,
            Requirement::MaxUpperCaseLetter(_) => " upper case letters"@,
            Requirement::MinDigits(_) => " digits"@,
            Requirement::MaxDigits(_) => " digits"@,
            Requirement::MinSpecialChars(_) => " special characters"@,
            Requirement::MaxSpecialChars(_) => " special characters"@,
        }
    }

    /// The short human-readable message describing the requirement.
    pub open spec fn spec_message(self) -> Seq<char> {
        self.message_prefix() + decimal(self.bound() as nat) + self.message_suffix()
    }

    /// The short human-readable message describing the requirement, such as
    /// `password should have at least 2 digits`.
    pub fn message(&self) -> (text: String)
        ensures
            text@ == self.spec_message(),
    {
        match *self {
            Requirement::MinLength(v) => compose("password should have a minimum length of ", v, ""),
            Requirement::MaxLength(v) => compose("password should have a maximum length of ", v, ""),
            Requirement::MinLowerCaseLetter(v) => compose(
                "password should have at least ",
                v,
                " lower case letters",
            ),
            Requirement::MaxLowerCaseLetter(v) => compose(
                "password should have at most ",
                v,
                " lower case letters",
            ),
            Requirement::MinUpperCaseLetter(v) => compose(
                "password should have at least ",
                v,
                " upper case letters",
            ),
            Requirement::MaxUpperCaseLetter(v) => compose(
                "password should have at most ",
                v,
                " upper case letters",
            ),
            Requirement::MinDigits(v) => compose("password should have at least ", v, " digits"),
            Requirement::MaxDigits(v) => compose("password should have at most ", v, " digits"),
            Requirement::MinSpecialChars(v) => compose(
                "password should have at least ",
                v,
                " special characters",
            ),
            Requirement::MaxSpecialChars(v) => compose(
                "password should have at most ",
                v,
                " special characters",
            ),
        }
    }
}

/// `prefix`, then the decimal notation of `v`, then `suffix`.
fn compose(prefix: &str, v: u16, suffix: &str) -> (text: String)
    ensures
        text@ == prefix@ + decimal(v as nat) + suffix@,
{
    let mut text = prefix.to_owned();
    push_decimal(&mut text, v);
    text.append(suffix);
    text
}

/// The class a password character is counted in. Each character falls in
/// exactly one class, tried in the order of the variants.
pub enum CharClass {
    Lower,
    Upper,
    Numeric,
    Special,
    Other,
}

/// The class of `c` when `special` lists the special characters.
pub open spec fn char_class(c: char, special: Seq<char>) -> CharClass {
    if has_lowercase_property(c) {
        CharClass::Lower
    } else if has_uppercase_property(c) {
        CharClass::Upper
    } else if has_numeric_property(c) {
        CharClass::Numeric
    } else if special.contains(c) {
        CharClass::Special
    } else {
        CharClass::Other
    }
}

/// How many characters of `s` fall in class `k`.
pub open spec fn class_count(s: Seq<char>, special: Seq<char>, k: CharClass) -> nat
    decreases s.len(),
{
    if s.len() == 0 {
        0
    } else {
        class_count(s.drop_last(), special, k) + if char_class(s.last(), special) == k {
            1nat
        } else {
            0nat
        }
    }
}

/// Whether a password of `byte_len` bytes with characters `password` meets `req`.
pub open spec fn requirement_met(
    req: Requirement,
    byte_len: int,
    password: Seq<char>,
    special: Seq<char>,
) -> bool {
    match req {
        Requirement::MinLength(n) => byte_len >= n,
        Requirement::MaxLength(n) => byte_len <= n,
        Requirement::MinLowerCaseLetter(n) => class_count(password, special, CharClass::Lower) >= n,
        Requirement::MaxLowerCaseLetter(n) => class_count(password, special, CharClass::Lower) <= n,
        Requirement::MinUpperCaseLetter(n) => class_count(password, special, CharClass::Upper) >= n,
        Requirement::MaxUpperCaseLetter(n) => class_count(password, special, CharClass::Upper) <= n,
        Requirement::MinDigits(n) => class_count(password, special, CharClass::Numeric) >= n,
        Requirement::MaxDigits(n) => class_count(password, special, CharClass::Numeric) <= n,
        Requirement::MinSpecialChars(n) => class_count(password, special, CharClass::Special) >= n,
        Requirement::MaxSpecialChars(n) => class_count(password, special, CharClass::Special) <= n,
    }
}

/// The requirements of `reqs` that the password does not meet, in their order in `reqs`.
pub open spec fn unmet_requirements(
    reqs: Seq<Requirement>,
    byte_len: int,
    password: Seq<char>,
    special: Seq<char>,
) -> Seq<Requirement>
    decreases reqs.len(),
{
    if reqs.len() == 0 {
        Seq::empty()
    } else {
        let earlier = unmet_requirements(reqs.drop_last(), byte_len, password, special);
        if requirement_met(reqs.last(), byte_len, password, special) {
            earlier
        } else {
            earlier.push(reqs.last())
        }
    }
}

/// A list of requirements together with the characters that count as special.
pub struct PasswordPolicy {
    requirements: Vec<Requirement>,
    special_chars: String,
}

impl PasswordPolicy {
    /// The policy's requirements, in order.
    pub closed spec fn spec_requirements(&self) -> Seq<Requirement> {
        self.requirements@
    }

    /// The characters the policy counts as special.
    pub closed spec fn spec_special_chars(&self) -> Seq<char> {
        self.special_chars@
    }

    /// A policy with the given requirements and the default special characters.
    pub fn new(requirements: Vec<Requirement>) -> (policy: Self)
        ensures
            policy.spec_requirements() == requirements@,
            policy.spec_special_chars() == DEFAULT_SPECIAL_CHARS@,
    {
        Self { requirements, special_chars: DEFAULT_SPECIAL_CHARS.to_owned() }
    }

    /// A policy with the given requirements, counting the characters of
    /// `special_chars` as special.
    pub fn new_with_special_chars(requirements: Vec<Requirement>, special_chars: String) -> (policy:
        Self)
        ensures
            policy.spec_requirements() == requirements@,
            policy.spec_special_chars() == special_chars@,
    {
        Self { requirements, special_chars }
    }
}

/// The requirements of `policy` that `password` fails.
pub open spec fn policy_failures(policy: &PasswordPolicy, password: &str) -> Seq<Requirement> {
    unmet_requirements(
        policy.spec_requirements(),
        password.len() as int,
        password@,
        policy.spec_special_chars(),
    )
}

/// The class of `c`, computed the way [`char_class`] defines it.
fn classify(c: char, special: &Vec<char>) -> (k: CharClass)
    ensures
        k == char_class(c, special@),
{
    if c.is_lowercase() {
        CharClass::Lower
    } else if c.is_uppercase() {
        CharClass::Upper
    } else if c.is_numeric() {
        CharClass::Numeric
    } else if contains_char(special, c) {
        CharClass::Special
    } else {
        CharClass::Other
    }
}

/// Checks `password` against every requirement of `policy`.
///
/// Returns `Ok(())` when every requirement is met, and otherwise the
/// requirements that are not met, in the order the policy lists them.
/// Lengths are counted in bytes, classes in characters; class counts are exact
/// however long the password is.
pub fn check(policy: &PasswordPolicy, password: &str) -> (result: Result<(), Vec<Requirement>>)
    ensures
        match result {
            Ok(()) => policy_failures(policy, password).len() == 0,
            Err(failed) => failed@ == policy_failures(policy, password) && failed@.len() > 0,
        },
{
    let special = chars_of(policy.special_chars.as_str());
    let chars = chars_of(password);
    let ghost sp = special@;
    let ghost pw = password@;

    let mut count_lower_case: usize = 0;
    let mut count_upper_case: usize = 0;
    let mut count_digits: usize = 0;
    let mut count_special_chars: usize = 0;

    let n = chars.len();
    let mut i: usize = 0;
    while i < n
        invariant
            n == chars@.len(),
            chars@ == pw,
            special@ == sp,
            i <= n,
            count_lower_case == class_count(pw.take(i as int), sp, CharClass::Lower),
            count_upper_case == class_count(pw.take(i as int), sp, CharClass::Upper),
            count_digits == class_count(pw.take(i as int), sp, CharClass::Numeric),
            count_special_chars == class_count(pw.take(i as int), sp, CharClass::Special),
            count_lower_case + count_upper_case + count_digits + count_special_chars <= i,
        decreases n - i,
    {
        let c = chars[i];
        assert(pw.take(i + 1).drop_last() =~= pw.take(i as int));
        assert(pw.take(i + 1).last() == c);
        match classify(c, &special) {
            CharClass::Lower => count_lower_case = count_lower_case + 1,
            CharClass::Upper => count_upper_case = count_upper_case + 1,
            CharClass::Numeric => count_digits = count_digits + 1,
            CharClass::Special => count_special_chars = count_special_chars + 1,
            CharClass::Other => {},
        }
        i = i + 1;
    }
    assert(pw.take(n as int) =~= pw);

    let byte_len = password.len();
    let mut failed_requirements: Vec<Requirement> = Vec::new();
    let reqs = &policy.requirements;
    let m = reqs.len();
    let mut j: usize = 0;
    while j < m
        invariant
            m == reqs@.len(),
            reqs@ == policy.spec_requirements(),
            j <= m,
            byte_len == password.len(),
            count_lower_case == class_count(pw, sp, CharClass::Lower),
            count_upper_case == class_count(pw, sp, CharClass::Upper),
            count_digits == class_count(pw, sp, CharClass::Numeric),
            count_special_chars == class_count(pw, sp, CharClass::Special),
            sp == policy.spec_special_chars(),
            pw == password@,
            failed_requirements@ == unmet_requirements(
                reqs@.take(j as int),
                byte_len as int,
                pw,
                sp,
            ),
        decreases m - j,
    {
        let req = reqs[j];
        let unmet = match req {
            Requirement::MinLength(v) => byte_len < v as usize,
            Requirement::MaxLength(v) => byte_len > v as usize,
            Requirement::MinLowerCaseLetter(v) => count_lower_case < v as usize,
            Requirement::MaxLowerCaseLetter(v) => count_lower_case > v as usize,
            Requirement::MinUpperCaseLetter(v) => count_upper_case < v as usize,
            Requirement::MaxUpperCaseLetter(v) => count_upper_case > v as usize,
            Requirement::MinDigits(v) => count_digits < v as usize,
            Requirement::MaxDigits(v) => count_digits > v as usize,
            Requirement::MinSpecialChars(v) => count_special_chars < v as usize,
            Requirement::MaxSpecialChars(v) => count_special_chars > v as usize,
        };
        assert(reqs@.take(j + 1).drop_last() =~= reqs@.take(j as int));
        assert(reqs@.take(j + 1).last() == req);
        if unmet {
            failed_requirements.push(req);
        }
        j = j + 1;
    }
    assert(reqs@.take(m as int) =~= reqs@);

    if failed_requirements.len() > 0 {
        return Err(failed_requirements);
    }
    Ok(())
}


/// Requirements are judged one by one: the failures of a list made of two
/// parts are the failures of the first part followed by those of the second.
pub proof fn law_failures_of_concatenation(
    first: Seq<Requirement>,
    second: Seq<Requirement>,
    byte_len: int,
    password: Seq<char>,
    special: Seq<char>,
)
    ensures
        unmet_requirements(first + second, byte_len, password, special) == unmet_requirements(
            first,
            byte_len,
            password,
            special,
        ) + unmet_requirements(second, byte_len, password, special),
    decreases second.len(),
{
    if second.len() == 0 {
        assert(first + second =~= first);
        assert(unmet_requirements(first, byte_len, password, special) + unmet_requirements(
            second,
            byte_len,
            password,
            special,
        ) =~= unmet_requirements(first, byte_len, password, special));
    } else {
        law_failures_of_concatenation(first, second.drop_last(), byte_len, password, special);
        assert((first + second).drop_last() =~= first + second.drop_last());
        assert((first + second).last() == second.last());
        let a = unmet_requirements(first, byte_len, password, special);
        let b = unmet_requirements(second.drop_last(), byte_len, password, special);
        assert((a + b).push(second.last()) =~= a + b.push(second.last()));
    }
}

/// A requirement is reported as failed exactly when it belongs to the policy
/// and the password does not meet it.
pub proof fn law_failures_are_the_unmet_requirements(
    reqs: Seq<Requirement>,
    byte_len: int,
    password: Seq<char>,
    special: Seq<char>,
)
    ensures
        forall|r: Requirement|
            #[trigger] unmet_requirements(reqs, byte_len, password, special).contains(r) <==> (
            reqs.contains(r) && !requirement_met(r, byte_len, password, special)),
        unmet_requirements(reqs, byte_len, password, special).len() <= reqs.len(),
    decreases reqs.len(),
{
    if reqs.len() > 0 {
        let rest = reqs.drop_last();
        let last = reqs.last();
        law_failures_are_the_unmet_requirements(rest, byte_len, password, special);
        assert(reqs =~= rest.push(last));
        let earlier = unmet_requirements(rest, byte_len, password, special);
        assert forall|r: Requirement|
            #[trigger] unmet_requirements(reqs, byte_len, password, special).contains(r) <==> (
            reqs.contains(r) && !requirement_met(r, byte_len, password, special)) by {
            if reqs.contains(r) && !requirement_met(r, byte_len, password, special) {
                let k = choose|k: int| 0 <= k < reqs.len() && reqs[k] == r;
                if k < rest.len() {
                    assert(rest[k] == r);
                    assert(earlier.contains(r));
                    let m = choose|m: int| 0 <= m < earlier.len() && earlier[m] == r;
                    assert(earlier.push(last)[m] == r);
                } else {
                    assert(earlier.push(last)[earlier.len() as int] == r);
                }
            }
            if unmet_requirements(reqs, byte_len, password, special).contains(r) {
                let found = unmet_requirements(reqs, byte_len, password, special);
                let m = choose|m: int| 0 <= m < found.len() && found[m] == r;
                if m < earlier.len() {
                    assert(earlier[m] == r);
                    assert(earlier.contains(r));
                    let k = choose|k: int| 0 <= k < rest.len() && rest[k] == r;
                    assert(reqs[k] == r);
                } else {
                    assert(r == last);
                    assert(reqs[reqs.len() - 1] == r);
                }
            }
        }
    }
}

/// A password passes exactly when it meets every requirement of the policy;
/// in particular it always passes a policy without requirements.
pub proof fn law_passes_iff_every_requirement_met(
    reqs: Seq<Requirement>,
    byte_len: int,
    password: Seq<char>,
    special: Seq<char>,
)
    ensures
        unmet_requirements(reqs, byte_len, password, special).len() == 0 <==> forall|i: int|
            0 <= i < reqs.len() ==> requirement_met(#[trigger] reqs[i], byte_len, password, special),
{
    law_failures_are_the_unmet_requirements(reqs, byte_len, password, special);
    let failed = unmet_requirements(reqs, byte_len, password, special);
    if failed.len() == 0 {
        assert forall|i: int| 0 <= i < reqs.len() implies requirement_met(
            #[trigger] reqs[i],
            byte_len,
            password,
            special,
        ) by {
            assert(reqs.contains(reqs[i]));
            if !requirement_met(reqs[i], byte_len, password, special) {
                assert(failed.contains(reqs[i]));
            }
        }
    } else {
        let r = failed[0];
        assert(failed.contains(r));
        let k = choose|k: int| 0 <= k < reqs.len() && reqs[k] == r;
        assert(!requirement_met(reqs[k], byte_len, password, special));
    }
}

/// Every character is counted in at most one class, so the four counted
/// classes together never exceed the number of characters.
pub proof fn law_class_counts_within_length(password: Seq<char>, special: Seq<char>)
    ensures
        class_count(password, special, CharClass::Lower) + class_count(
            password,
            special,
            CharClass::Upper,
        ) + class_count(password, special, CharClass::Numeric) + class_count(
            password,
            special,
            CharClass::Special,
        ) <= password.len(),
    decreases password.len(),
{
    if password.len() > 0 {
        law_class_counts_within_length(password.drop_last(), special);
    }
}


/// Each class counts exactly the characters its rule admits: lower case
/// letters are the characters with the Lowercase property; upper case letters
/// those with the Uppercase property and not the Lowercase one; digits the
/// numeric characters that are neither; special characters those listed as
/// special that are in none of the other three.
pub proof fn law_class_counts_by_property(password: Seq<char>, special: Seq<char>)
    ensures
        class_count(password, special, CharClass::Lower) == password.filter(
            |c: char| has_lowercase_property(c),
        ).len(),
        class_count(password, special, CharClass::Upper) == password.filter(
            |c: char| !has_lowercase_property(c) && has_uppercase_property(c),
        ).len(),
        class_count(password, special, CharClass::Numeric) == password.filter(
            |c: char|
                !has_lowercase_property(c) && !has_uppercase_property(c) && has_numeric_property(c),
        ).len(),
        class_count(password, special, CharClass::Special) == password.filter(
            |c: char|
                !has_lowercase_property(c) && !has_uppercase_property(c) && !has_numeric_property(c)
                    && special.contains(c),
        ).len(),
    decreases password.len(),
{
    reveal(Seq::filter);
    if password.len() > 0 {
        law_class_counts_by_property(password.drop_last(), special);
    }
}

/// What each requirement asks of a password: the lengths bound its size in
/// bytes, and the other requirements bound how many characters the rule of
/// their class admits.
pub proof fn law_what_each_requirement_asks(
    req: Requirement,
    byte_len: int,
    password: Seq<char>,
    special: Seq<char>,
)
    ensures
        requirement_met(req, byte_len, password, special) <==> match req {
            Requirement::MinLength(n) => byte_len >= n,
            Requirement::MaxLength(n) => byte_len <= n,
            Requirement::MinLowerCaseLetter(n) => password.filter(
                |c: char| has_lowercase_property(c),
            ).len() >= n,
            Requirement::MaxLowerCaseLetter(n) => password.filter(
                |c: char| has_lowercase_property(c),
            ).len() <= n,
            Requirement::MinUpperCaseLetter(n) => password.filter(
                |c: char| !has_lowercase_property(c) && has_uppercase_property(c),
            ).len() >= n,
            Requirement::MaxUpperCaseLetter(n) => password.filter(
                |c: char| !has_lowercase_property(c) && has_uppercase_property(c),
            ).len() <= n,
            Requirement::MinDigits(n) => password.filter(
                |c: char|
                    !has_lowercase_property(c) && !has_uppercase_property(c)
                        && has_numeric_property(c),
            ).len() >= n,
            Requirement::MaxDigits(n) => password.filter(
                |c: char|
                    !has_lowercase_property(c) && !has_uppercase_property(c)
                        && has_numeric_property(c),
            ).len() <= n,
            Requirement::MinSpecialChars(n) => password.filter(
                |c: char|
                    !has_lowercase_property(c) && !has_uppercase_property(c)
                        && !has_numeric_property(c) && special.contains(c),
            ).len() >= n,
            Requirement::MaxSpecialChars(n) => password.filter(
                |c: char|
                    !has_lowercase_property(c) && !has_uppercase_property(c)
                        && !has_numeric_property(c) && special.contains(c),
            ).len() <= n,
        },
{
    law_class_counts_by_property(password, special);
}

/// A class none of whose characters occur counts zero.
proof fn lemma_absent_class_counts_zero(password: Seq<char>, special: Seq<char>, k: CharClass)
    requires
        forall|i: int| 0 <= i < password.len() ==> char_class(#[trigger] password[i], special) != k,
    ensures
        class_count(password, special, k) == 0,
    decreases password.len(),
{
    if password.len() > 0 {
        assert(char_class(password[password.len() - 1], special) != k);
        lemma_absent_class_counts_zero(password.drop_last(), special, k);
    }
}

/// A password that lacks a class entirely fails every positive minimum of
/// that class that the policy holds: without a lower case letter, a numeric
/// character, an upper case letter or a listed special character,
/// `MinLowerCaseLetter(n)`, `MinDigits(n)`, `MinUpperCaseLetter(n)` or
/// `MinSpecialChars(n)` is reported.
pub proof fn law_missing_class_fails_its_minimum(
    reqs: Seq<Requirement>,
    byte_len: int,
    password: Seq<char>,
    special: Seq<char>,
    n: u16,
)
    requires
        n > 0,
    ensures
        (forall|i: int| 0 <= i < password.len() ==> !has_lowercase_property(#[trigger] password[i]))
            && reqs.contains(Requirement::MinLowerCaseLetter(n)) ==> unmet_requirements(
            reqs,
            byte_len,
            password,
            special,
        ).contains(Requirement::MinLowerCaseLetter(n)),
        (forall|i: int| 0 <= i < password.len() ==> !has_uppercase_property(#[trigger] password[i]))
            && reqs.contains(Requirement::MinUpperCaseLetter(n)) ==> unmet_requirements(
            reqs,
            byte_len,
            password,
            special,
        ).contains(Requirement::MinUpperCaseLetter(n)),
        (forall|i: int| 0 <= i < password.len() ==> !has_numeric_property(#[trigger] password[i]))
            && reqs.contains(Requirement::MinDigits(n)) ==> unmet_requirements(
            reqs,
            byte_len,
            password,
            special,
        ).contains(Requirement::MinDigits(n)),
        (forall|i: int| 0 <= i < password.len() ==> !special.contains(#[trigger] password[i]))
            && reqs.contains(Requirement::MinSpecialChars(n)) ==> unmet_requirements(
            reqs,
            byte_len,
            password,
            special,
        ).contains(Requirement::MinSpecialChars(n)),
{
    law_failures_are_the_unmet_requirements(reqs, byte_len, password, special);
    if forall|i: int| 0 <= i < password.len() ==> !has_lowercase_property(#[trigger] password[i]) {
        lemma_absent_class_counts_zero(password, special, CharClass::Lower);
    }
    if forall|i: int| 0 <= i < password.len() ==> !has_uppercase_property(#[trigger] password[i]) {
        lemma_absent_class_counts_zero(password, special, CharClass::Upper);
    }
    if forall|i: int| 0 <= i < password.len() ==> !has_numeric_property(#[trigger] password[i]) {
        lemma_absent_class_counts_zero(password, special, CharClass::Numeric);
    }
    if forall|i: int| 0 <= i < password.len() ==> !special.contains(#[trigger] password[i]) {
        lemma_absent_class_counts_zero(password, special, CharClass::Special);
    }
}

} // verus!
