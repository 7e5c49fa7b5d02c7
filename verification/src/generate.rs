//! Random password generation with per-class minimums.

use vstd::prelude::*;
use vstd::multiset::Multiset;
use crate::random::{next_u32, random_u64, thread_rng};
use crate::text::{
    chars_of, contains_char, has_lowercase_property, has_numeric_property, has_uppercase_property,
    string_from_chars,
};
use crate::check::{
    char_class, class_count, law_passes_iff_every_requirement_met, requirement_met,
    unmet_requirements, CharClass, Requirement,
};

verus! {

broadcast use vstd::seq_lib::group_to_multiset_ensures;

/// The lower case letters a generated password draws from.
pub const CHARS_LOWER_CASE_LETTERS: &'static str = "abcdefghijklmnopqrstuvwxyz";

/// The upper case letters a generated password draws from.
pub const CHARS_UPPER_CASE_LETTERS: &'static str = "ABCDEFGHIJKLMNOPQRSTUVWXYZ";

/// The digits a generated password draws from.
pub const CHARS_DIGITS: &'static str = "0123456789";

/// The special characters a generated password draws from unless the options
/// name their own.
pub const CHARS_SPECIAL: &'static str = "!\"#$%&'()*+,-./:;<=>?@[\\]^_`{|}~";

/// What to generate: per-class minimums, classes switched off, and the set
/// of special characters. Every field may be left `None`.
pub struct Options {
    pub disable_lower_case: Option<bool>,
    pub min_lower_case: Option<u16>,
    pub disable_upper_case: Option<bool>,
    pub min_upper_case: Option<u16>,
    pub disable_digits: Option<bool>,
    pub min_digits: Option<u16>,
    pub disable_special_chars: Option<bool>,
    pub min_special_chars: Option<u16>,
    pub special_chars: Option<String>,
    pub exclude_chars: Option<String>,
}

impl Default for Options {
    fn default() -> (options: Self)
        ensures
            options.disable_lower_case is None,
            options.min_lower_case is None,
            options.disable_upper_case is None,
            options.min_upper_case is None,
            options.disable_digits is None,
            options.min_digits is None,
            options.disable_special_chars is None,
            options.min_special_chars is None,
            options.special_chars is None,
            options.exclude_chars is None,
    {
        Options {
            disable_lower_case: None,
            min_lower_case: None,
            disable_upper_case: None,
            min_upper_case: None,
            disable_digits: None,
            min_digits: None,
            disable_special_chars: None,
            min_special_chars: None,
            special_chars: None,
            exclude_chars: None,
        }
    }
}

/// Why a password could not be generated.
#[derive(Debug, Clone, Copy, PartialEq, Eq, Structural)]
pub enum Error {
    PasswordLength,
    MinimumsTooHigh,
    EverythingDisabled,
}

/// A class is switched off only by an explicit `Some(true)`.
pub open spec fn switched_on(disable: Option<bool>) -> bool {
    disable != Some(true)
}

/// A missing minimum is zero.
pub open spec fn minimum(min: Option<u16>) -> nat {
    match min {
        Some(n) => n as nat,
        None => 0,
    }
}

/// The characters of `s` that do not occur in `exclude`, in order.
pub open spec fn without(s: Seq<char>, exclude: Seq<char>) -> Seq<char>
    decreases s.len(),
{
    if s.len() == 0 {
        Seq::empty()
    } else if exclude.contains(s.last()) {
        without(s.drop_last(), exclude)
    } else {
        without(s.drop_last(), exclude).push(s.last())
    }
}

/// How many characters of `s` occur in `set`.
pub open spec fn count_in(s: Seq<char>, set: Seq<char>) -> nat
    decreases s.len(),
{
    if s.len() == 0 {
        0
    } else {
        count_in(s.drop_last(), set) + if set.contains(s.last()) {
            1nat
        } else {
            0nat
        }
    }
}

/// Every character of `s` occurs in `set`.
pub open spec fn all_in(s: Seq<char>, set: Seq<char>) -> bool {
    forall|i: int| 0 <= i < s.len() ==> set.contains(#[trigger] s[i])
}

impl Options {
    /// Whether lower case letters are drawn.
    pub open spec fn lower_on(self) -> bool {
        switched_on(self.disable_lower_case)
    }

    /// Whether upper case letters are drawn.
    pub open spec fn upper_on(self) -> bool {
        switched_on(self.disable_upper_case)
    }

    /// Whether digits are drawn.
    pub open spec fn digits_on(self) -> bool {
        switched_on(self.disable_digits)
    }

    /// Whether special characters are drawn.
    pub open spec fn special_on(self) -> bool {
        switched_on(self.disable_special_chars)
    }

    /// The special characters drawn from: the options' own or the default
    /// set, less the excluded characters.
    pub open spec fn special_set(self) -> Seq<char> {
        let base = match self.special_chars {
            Some(s) => s@,
            None => CHARS_SPECIAL@,
        };
        match self.exclude_chars {
            Some(e) => without(base, e@),
            None => base,
        }
    }

    /// How many lower case letters are drawn for the minimum.
    pub open spec fn lower_draws(self) -> nat {
        if self.lower_on() { minimum(self.min_lower_case) } else { 0 }
    }

    /// How many upper case letters are drawn for the minimum.
    pub open spec fn upper_draws(self) -> nat {
        if self.upper_on() { minimum(self.min_upper_case) } else { 0 }
    }

    /// How many digits are drawn for the minimum.
    pub open spec fn digit_draws(self) -> nat {
        if self.digits_on() { minimum(self.min_digits) } else { 0 }
    }

    /// How many special characters are drawn for the minimum.
    pub open spec fn special_draws(self) -> nat {
        if self.special_on() { minimum(self.min_special_chars) } else { 0 }
    }

    /// The number of characters the minimums of the switched-on classes ask for.
    pub open spec fn total_minimum(self) -> nat {
        self.lower_draws() + self.upper_draws() + self.digit_draws() + self.special_draws()
    }

    /// The characters drawn, before they are put in order, when the draws
    /// `picks` are used one after the other: first the minimums of each
    /// switched-on class from that class, then the rest up to
    /// `password_length` from all switched-on classes together.
    pub open spec fn drawn_chars(self, password_length: u16, picks: Seq<u32>) -> Seq<char> {
        let a = self.lower_draws() as int;
        let b = a + self.upper_draws();
        let c = b + self.digit_draws();
        let d = c + self.special_draws();
        drawn_from(CHARS_LOWER_CASE_LETTERS@, picks.subrange(0, a)) + drawn_from(
            CHARS_UPPER_CASE_LETTERS@,
            picks.subrange(a, b),
        ) + drawn_from(CHARS_DIGITS@, picks.subrange(b, c)) + drawn_from(
            self.special_set(),
            picks.subrange(c, d),
        ) + drawn_from(self.fill_set(), picks.subrange(d, password_length as int))
    }

    /// The characters of the switched-on classes, in class order.
    pub open spec fn fill_set(self) -> Seq<char> {
        (if self.lower_on() { CHARS_LOWER_CASE_LETTERS@ } else { Seq::empty() }) + (
        if self.upper_on() {
            CHARS_UPPER_CASE_LETTERS@
        } else {
            Seq::empty()
        }) + (if self.digits_on() { CHARS_DIGITS@ } else { Seq::empty() }) + (
        if self.special_on() {
            self.special_set()
        } else {
            Seq::empty()
        })
    }

    /// Generation never draws from an empty set: a special minimum comes with
    /// special characters, and characters beyond the minimums come with at
    /// least one switched-on class that has characters.
    pub open spec fn draws_possible(self, password_length: u16) -> bool {
        password_length > 0 ==> {
            &&& (self.special_on() && minimum(self.min_special_chars) > 0) ==> self.special_set().len() > 0
            &&& self.total_minimum() < password_length ==> self.fill_set().len() > 0
        }
    }
}

/// The characters of `set` that the draws select, one for each draw: the one
/// at the draw modulo the number of characters.
pub open spec fn drawn_from(set: Seq<char>, draws: Seq<u32>) -> Seq<char> {
    Seq::new(draws.len(), |i: int| set[(draws[i] as int) % (set.len() as int)])
}

/// The order into which the draws put `buffer`: each draw takes out the
/// character at the draw (as a `usize`) modulo the number of characters left,
/// and the characters follow each other in the order they were taken out.
pub open spec fn arranged(buffer: Seq<char>, draws: Seq<u64>) -> Seq<char>
    decreases buffer.len(),
{
    if buffer.len() == 0 {
        Seq::empty()
    } else {
        let i = (draws[0] as usize as int) % (buffer.len() as int);
        seq![buffer[i]] + arranged(buffer.remove(i), draws.drop_first())
    }
}

/// What every password generated for `options` at `password_length` satisfies.
pub open spec fn fits_options(password: Seq<char>, password_length: u16, options: Options) -> bool {
    &&& password.len() == password_length
    &&& all_in(password, options.fill_set())
    &&& options.lower_on() ==> count_in(password, CHARS_LOWER_CASE_LETTERS@) >= minimum(options.min_lower_case)
    &&& options.upper_on() ==> count_in(password, CHARS_UPPER_CASE_LETTERS@) >= minimum(options.min_upper_case)
    &&& options.digits_on() ==> count_in(password, CHARS_DIGITS@) >= minimum(options.min_digits)
    &&& options.special_on() ==> count_in(password, options.special_set()) >= minimum(
        options.min_special_chars,
    )
}

/// Counting over a concatenation adds the counts of the parts.
pub proof fn lemma_count_in_append(a: Seq<char>, b: Seq<char>, set: Seq<char>)
    ensures
        count_in(a + b, set) == count_in(a, set) + count_in(b, set),
    decreases b.len(),
{
    if b.len() == 0 {
        assert(a + b =~= a);
    } else {
        lemma_count_in_append(a, b.drop_last(), set);
        assert((a + b).drop_last() =~= a + b.drop_last());
    }
}

/// When every character lies in `set`, all of them are counted.
pub proof fn lemma_count_in_all(s: Seq<char>, set: Seq<char>)
    requires
        all_in(s, set),
    ensures
        count_in(s, set) == s.len(),
    decreases s.len(),
{
    if s.len() > 0 {
        assert(set.contains(s[s.len() - 1]));
        lemma_count_in_all(s.drop_last(), set);
    }
}

/// Removing one character lowers the count by one exactly when that character lies in `set`.
pub proof fn lemma_count_in_remove(s: Seq<char>, i: int, set: Seq<char>)
    requires
        0 <= i < s.len(),
    ensures
        count_in(s, set) == count_in(s.remove(i), set) + if set.contains(s[i]) {
            1nat
        } else {
            0nat
        },
{
    let head = s.take(i);
    let tail = s.skip(i + 1);
    assert(s =~= head + seq![s[i]] + tail);
    assert(s.remove(i) =~= head + tail);
    lemma_count_in_append(head + seq![s[i]], tail, set);
    lemma_count_in_append(head, seq![s[i]], set);
    lemma_count_in_append(head, tail, set);
    let single = seq![s[i]];
    assert(single.drop_last() =~= Seq::<char>::empty());
    assert(count_in(single.drop_last(), set) == 0);
    assert(single.last() == s[i]);
}

/// Two arrangements of the same characters have the same counts.
pub proof fn lemma_count_in_permutation(a: Seq<char>, b: Seq<char>, set: Seq<char>)
    requires
        a.to_multiset() == b.to_multiset(),
    ensures
        count_in(a, set) == count_in(b, set),
    decreases a.len(),
{
    if a.len() == 0 {
        assert(b.to_multiset().len() == 0);
    } else {
        let x = a.last();
        assert(a.contains(x)) by {
            assert(a[a.len() - 1] == x);
        }
        assert(b.to_multiset().count(x) > 0);
        assert(b.contains(x));
        let j = choose|j: int| 0 <= j < b.len() && b[j] == x;
        assert(a.drop_last() =~= a.remove(a.len() - 1));
        assert(a.drop_last().to_multiset() =~= b.remove(j).to_multiset());
        lemma_count_in_permutation(a.drop_last(), b.remove(j), set);
        lemma_count_in_remove(b, j, set);
    }
}

/// The characters of `set` that do not occur in `exclude`, in order.
fn chars_without(set: &Vec<char>, exclude: &Vec<char>) -> (kept: Vec<char>)
    ensures
        kept@ == without(set@, exclude@),
{
    let mut kept: Vec<char> = Vec::new();
    let n = set.len();
    let mut i: usize = 0;
    while i < n
        invariant
            n == set@.len(),
            i <= n,
            kept@ == without(set@.take(i as int), exclude@),
        decreases n - i,
    {
        let c = set[i];
        assert(set@.take(i + 1).drop_last() =~= set@.take(i as int));
        assert(set@.take(i + 1).last() == c);
        if !contains_char(exclude, c) {
            kept.push(c);
        }
        i = i + 1;
    }
    assert(set@.take(n as int) =~= set@);
    kept
}

/// The special characters generation draws from for `options`.
pub fn build_special_chars_set(options: &Options) -> (set: String)
    ensures
        set@ == options.special_set(),
{
    let special_chars = match &options.special_chars {
        Some(special_chars) => special_chars.clone(),
        None => CHARS_SPECIAL.to_owned(),
    };
    if let Some(exclude) = &options.exclude_chars {
        let kept = chars_without(&chars_of(special_chars.as_str()), &chars_of(exclude.as_str()));
        return string_from_chars(&kept);
    }
    special_chars
}

/// The character of `chars` that the draw `draw` selects: the one at `draw`
/// modulo the number of characters.
pub fn pick_char(chars: &Vec<char>, draw: u32) -> (c: char)
    requires
        chars@.len() > 0,
    ensures
        c == chars@[(draw as int) % (chars@.len() as int)],
{
    let pos = draw as usize % chars.len();
    chars[pos]
}

/// Removes from `buffer` the character that the draw `draw` selects, the one
/// at `draw` (as a `usize`) modulo the buffer's length, and returns it.
pub fn take_at(buffer: &mut Vec<char>, draw: u64) -> (c: char)
    requires
        old(buffer)@.len() > 0,
    ensures
        c == old(buffer)@[(draw as usize as int) % (old(buffer)@.len() as int)],
        final(buffer)@ == old(buffer)@.remove((draw as usize as int) % (old(buffer)@.len() as int)),
{
    let pos: usize = draw as usize % buffer.len();
    buffer.remove(pos)
}

/// Every character drawn from a set lies in that set.
proof fn lemma_drawn_from_in_set(set: Seq<char>, draws: Seq<u32>)
    requires
        draws.len() > 0 ==> set.len() > 0,
    ensures
        all_in(drawn_from(set, draws), set),
{
    assert forall|i: int| 0 <= i < draws.len() implies set.contains(
        #[trigger] drawn_from(set, draws)[i],
    ) by {
        let k = (draws[i] as int) % (set.len() as int);
        assert(set[k] == drawn_from(set, draws)[i]);
    }
}

/// Appends to `buffer` the characters of `set` that the draws
/// `picks[start..start + count]` select.
fn push_drawn_chars(buffer: &mut Vec<char>, set: &str, picks: &Vec<u32>, start: usize, count: usize)
    requires
        start + count <= picks@.len(),
        count > 0 ==> set@.len() > 0,
    ensures
        final(buffer)@ == old(buffer)@ + drawn_from(
            set@,
            picks@.subrange(start as int, start + count),
        ),
{
    let ghost before = buffer@;
    let chars = chars_of(set);
    let total_picks = picks.len();
    let mut k: usize = 0;
    assert(buffer@ =~= before + drawn_from(set@, picks@.subrange(start as int, start as int)));
    while k < count
        invariant
            start + count <= total_picks,
            total_picks == picks@.len(),
            count > 0 ==> chars@.len() > 0,
            chars@ == set@,
            k <= count,
            buffer@ == before + drawn_from(set@, picks@.subrange(start as int, start + k)),
        decreases count - k,
    {
        let c = pick_char(&chars, picks[start + k]);
        buffer.push(c);
        assert(drawn_from(set@, picks@.subrange(start as int, start + k + 1)) =~= drawn_from(
            set@,
            picks@.subrange(start as int, start + k),
        ).push(c));
        assert(buffer@ =~= before + drawn_from(set@, picks@.subrange(start as int, start + k + 1)));
        k = k + 1;
    }
}

/// Arranging keeps the characters: only their order changes.
pub proof fn lemma_arranged_keeps_chars(buffer: Seq<char>, draws: Seq<u64>)
    ensures
        arranged(buffer, draws).to_multiset() == buffer.to_multiset(),
    decreases buffer.len(),
{
    if buffer.len() == 0 {
        assert(arranged(buffer, draws).to_multiset() =~= buffer.to_multiset());
    } else {
        let i = (draws[0] as usize as int) % (buffer.len() as int);
        let rest = arranged(buffer.remove(i), draws.drop_first());
        lemma_arranged_keeps_chars(buffer.remove(i), draws.drop_first());
        vstd::seq_lib::lemma_multiset_commutative(seq![buffer[i]], rest);
        assert(seq![buffer[i]] =~= Seq::<char>::empty().push(buffer[i]));
        assert(Seq::<char>::empty().to_multiset() =~= Multiset::empty());
        assert(buffer.to_multiset().count(buffer[i]) > 0) by {
            assert(buffer.contains(buffer[i]));
        }
        assert(arranged(buffer, draws).to_multiset() =~= buffer.to_multiset());
    }
}

/// Puts the characters of `buffer` in the order that the draws `draws` select.
fn shuffle(buffer: Vec<char>, draws: &Vec<u64>) -> (result: Vec<char>)
    requires
        draws@.len() >= buffer@.len(),
    ensures
        result@ == arranged(buffer@, draws@),
        result@.to_multiset() == buffer@.to_multiset(),
{
    let ghost all = buffer@;
    let n = buffer.len();
    let mut buffer = buffer;
    let mut result: Vec<char> = Vec::new();
    let mut k: usize = 0;
    assert(draws@.skip(0) =~= draws@);
    assert(result@ + arranged(buffer@, draws@.skip(0)) =~= arranged(all, draws@));
    while buffer.len() > 0
        invariant
            k + buffer@.len() == all.len(),
            n == all.len(),
            draws@.len() >= all.len(),
            result@ + arranged(buffer@, draws@.skip(k as int)) == arranged(all, draws@),
        decreases buffer@.len(),
    {
        let ghost before = buffer@;
        let ghost rest = draws@.skip(k as int);
        let ghost done = result@;
        let c = take_at(&mut buffer, draws[k]);
        assert(rest[0] == draws@[k as int]);
        assert(rest.drop_first() =~= draws@.skip(k + 1));
        let ghost tail = arranged(buffer@, draws@.skip(k + 1));
        assert(arranged(before, rest) == seq![c] + tail);
        result.push(c);
        assert(result@ + tail =~= done + (seq![c] + tail));
        k = k + 1;
    }
    assert(arranged(buffer@, draws@.skip(k as int)) =~= Seq::<char>::empty());
    assert(result@ =~= arranged(all, draws@));
    proof {
        lemma_arranged_keeps_chars(all, draws@);
    }
    result
}

/// Whether a class is switched on, as [`switched_on`] defines it.
fn is_switched_on(disable: Option<bool>) -> (on: bool)
    ensures
        on == switched_on(disable),
{
    match disable {
        Some(true) => false,
        _ => true,
    }
}

/// The minimum a field asks for, zero when it is missing.
fn minimum_of(min: Option<u16>) -> (n: u16)
    ensures
        n == minimum(min),
{
    match min {
        Some(n) => n,
        None => 0,
    }
}

/// Appending characters of `set` to a buffer of characters from `fill`, while
/// `set` is appended to `fill`, keeps every buffered character in `fill`,
/// never lowers a count, and counts all the new characters in `set`.
proof fn lemma_extend_class(
    before: Seq<char>,
    after: Seq<char>,
    fill_before: Seq<char>,
    set: Seq<char>,
)
    requires
        after.take(before.len() as int) == before,
        after.len() >= before.len(),
        all_in(after.skip(before.len() as int), set),
        all_in(before, fill_before),
    ensures
        all_in(after, fill_before + set),
        forall|other: Seq<char>| #[trigger] count_in(after, other) >= count_in(before, other),
        count_in(after, set) >= after.len() - before.len(),
{
    let added = after.skip(before.len() as int);
    assert(after =~= before + added);
    assert forall|other: Seq<char>| #[trigger] count_in(after, other) >= count_in(before, other) by {
        lemma_count_in_append(before, added, other);
    }
    lemma_count_in_append(before, added, set);
    lemma_count_in_all(added, set);
    let fill = fill_before + set;
    assert forall|i: int| 0 <= i < after.len() implies fill.contains(#[trigger] after[i]) by {
        if i < before.len() {
            assert(fill_before.contains(before[i]));
            let j = choose|j: int| 0 <= j < fill_before.len() && fill_before[j] == before[i];
            assert(fill[j] == after[i]);
        } else {
            assert(set.contains(added[i - before.len()]));
            let j = choose|j: int| 0 <= j < set.len() && set[j] == added[i - before.len()];
            assert(fill[fill_before.len() + j] == after[i]);
        }
    }
}

/// Rearranging the characters of a password that fits the options gives a
/// password that fits them too.
pub proof fn lemma_rearranged_fits(
    password: Seq<char>,
    rearranged: Seq<char>,
    password_length: u16,
    options: Options,
)
    requires
        fits_options(password, password_length, options),
        rearranged.to_multiset() == password.to_multiset(),
    ensures
        fits_options(rearranged, password_length, options),
{
    assert(rearranged.len() == rearranged.to_multiset().len());
    assert(password.len() == password.to_multiset().len());
    lemma_count_in_permutation(rearranged, password, CHARS_LOWER_CASE_LETTERS@);
    lemma_count_in_permutation(rearranged, password, CHARS_UPPER_CASE_LETTERS@);
    lemma_count_in_permutation(rearranged, password, CHARS_DIGITS@);
    lemma_count_in_permutation(rearranged, password, options.special_set());
    let fill = options.fill_set();
    assert forall|i: int| 0 <= i < rearranged.len() implies fill.contains(#[trigger] rearranged[i]) by {
        let c = rearranged[i];
        assert(rearranged.contains(c));
        assert(password.to_multiset().count(c) > 0);
        assert(password.contains(c));
        let j = choose|j: int| 0 <= j < password.len() && password[j] == c;
        assert(fill.contains(password[j]));
    }
}

/// Draws `count` characters of `set` into `buffer`, using the draws from
/// `picks[start]` on, and adds `set` to the characters drawn from afterwards.
fn add_class(
    buffer: &mut Vec<char>,
    chars_set: &mut String,
    set: &str,
    picks: &Vec<u32>,
    start: usize,
    count: u16,
)
    requires
        start + count <= picks@.len(),
        count > 0 ==> set@.len() > 0,
        all_in(old(buffer)@, old(chars_set)@),
    ensures
        final(chars_set)@ == old(chars_set)@ + set@,
        final(buffer)@ == old(buffer)@ + drawn_from(
            set@,
            picks@.subrange(start as int, start + count),
        ),
        all_in(final(buffer)@, final(chars_set)@),
        forall|other: Seq<char>| #[trigger] count_in(final(buffer)@, other) >= count_in(old(buffer)@, other),
        count_in(final(buffer)@, set@) >= count,
{
    let ghost b = buffer@;
    let ghost f = chars_set@;
    push_drawn_chars(buffer, set, picks, start, count as usize);
    chars_set.append(set);
    proof {
        let added = drawn_from(set@, picks@.subrange(start as int, start + count));
        lemma_drawn_from_in_set(set@, picks@.subrange(start as int, start + count));
        assert(buffer@.take(b.len() as int) =~= b);
        assert(buffer@.skip(b.len() as int) =~= added);
        lemma_extend_class(b, buffer@, f, set@);
    }
}

/// Appending characters of `fill` to a buffer of characters of `fill` keeps
/// every character in `fill` and never lowers a count.
proof fn lemma_extend_within(before: Seq<char>, added: Seq<char>, fill: Seq<char>)
    requires
        all_in(before, fill),
        all_in(added, fill),
    ensures
        all_in(before + added, fill),
        forall|other: Seq<char>| #[trigger] count_in(before + added, other) >= count_in(before, other),
{
    assert forall|i: int| 0 <= i < (before + added).len() implies fill.contains(
        #[trigger] (before + added)[i],
    ) by {
        if i < before.len() {
            assert(fill.contains(before[i]));
        } else {
            assert(fill.contains(added[i - before.len()]));
        }
    }
    assert forall|other: Seq<char>| #[trigger] count_in(before + added, other) >= count_in(before, other) by {
        lemma_count_in_append(before, added, other);
    }
}

/// The number of characters the minimums ask for, as [`Options::total_minimum`] defines it.
fn total_minimum_of(options: &Options) -> (n: usize)
    ensures
        n == options.total_minimum(),
{
    let mut n: usize = 0;
    if is_switched_on(options.disable_lower_case) {
        n = n + minimum_of(options.min_lower_case) as usize;
    }
    if is_switched_on(options.disable_upper_case) {
        n = n + minimum_of(options.min_upper_case) as usize;
    }
    if is_switched_on(options.disable_digits) {
        n = n + minimum_of(options.min_digits) as usize;
    }
    if is_switched_on(options.disable_special_chars) {
        n = n + minimum_of(options.min_special_chars) as usize;
    }
    n
}

/// The password of `password_length` characters that the draws select.
///
/// The draws `picks` are used one after the other: first for the minimums of
/// the switched-on classes, each from its class, then for the rest from all
/// switched-on classes together. The draws `shuffles` then put the characters
/// in order, as [`arranged`] describes.
#[verifier::rlimit(40)]
pub fn generate_from_draws(
    password_length: u16,
    options: &Options,
    picks: &Vec<u32>,
    shuffles: &Vec<u64>,
) -> (result: Result<String, Error>)
    requires
        options.draws_possible(password_length),
        picks@.len() >= password_length,
        shuffles@.len() >= password_length,
    ensures
        password_length == 0 ==> result == Err::<String, Error>(Error::PasswordLength),
        password_length > 0 && options.total_minimum() > password_length ==> result == Err::<
            String,
            Error,
        >(Error::MinimumsTooHigh),
        password_length > 0 && options.total_minimum() <= password_length ==> (result matches Ok(
            password,
        ) && password@ == arranged(options.drawn_chars(password_length, picks@), shuffles@)),
        result matches Ok(password) ==> fits_options(password@, password_length, *options),
{
    if password_length == 0 {
        return Err(Error::PasswordLength);
    }
    let total = total_minimum_of(options);
    if total > password_length as usize {
        return Err(Error::MinimumsTooHigh);
    }
    proof {
        reveal_strlit("abcdefghijklmnopqrstuvwxyz");
        reveal_strlit("ABCDEFGHIJKLMNOPQRSTUVWXYZ");
        reveal_strlit("0123456789");
    }
    let ghost a = options.lower_draws() as int;
    let ghost b = a + options.upper_draws();
    let ghost c = b + options.digit_draws();
    let ghost d = c + options.special_draws();

    let mut buffer: Vec<char> = Vec::new();
    let mut chars_set = String::new();
    let mut next: usize = 0;

    // Lower case letters
    if is_switched_on(options.disable_lower_case) {
        let min_lower_case = minimum_of(options.min_lower_case);
        add_class(&mut buffer, &mut chars_set, CHARS_LOWER_CASE_LETTERS, picks, next, min_lower_case);
        next = next + min_lower_case as usize;
    } else {
        assert(chars_set@ =~= Seq::<char>::empty() + Seq::<char>::empty());
    }
    let ghost b1 = buffer@;
    assert(b1 =~= drawn_from(CHARS_LOWER_CASE_LETTERS@, picks@.subrange(0, a)));

    // Upper case letters
    if is_switched_on(options.disable_upper_case) {
        let min_upper_case = minimum_of(options.min_upper_case);
        add_class(&mut buffer, &mut chars_set, CHARS_UPPER_CASE_LETTERS, picks, next, min_upper_case);
        next = next + min_upper_case as usize;
    }
    let ghost b2 = buffer@;
    assert(b2 =~= b1 + drawn_from(CHARS_UPPER_CASE_LETTERS@, picks@.subrange(a, b)));

    // Digits
    if is_switched_on(options.disable_digits) {
        let min_digits = minimum_of(options.min_digits);
        add_class(&mut buffer, &mut chars_set, CHARS_DIGITS, picks, next, min_digits);
        next = next + min_digits as usize;
    }
    let ghost b3 = buffer@;
    assert(b3 =~= b2 + drawn_from(CHARS_DIGITS@, picks@.subrange(b, c)));

    // Special chars
    if is_switched_on(options.disable_special_chars) {
        let special_chars_set = build_special_chars_set(options);
        let min_special_chars = minimum_of(options.min_special_chars);
        add_class(
            &mut buffer,
            &mut chars_set,
            special_chars_set.as_str(),
            picks,
            next,
            min_special_chars,
        );
        next = next + min_special_chars as usize;
    }
    let ghost b4 = buffer@;
    assert(b4 =~= b3 + drawn_from(options.special_set(), picks@.subrange(c, d)));
    assert(chars_set@ =~= options.fill_set());
    assert(options.lower_on() ==> count_in(b4, CHARS_LOWER_CASE_LETTERS@) >= minimum(
        options.min_lower_case,
    ));
    assert(options.upper_on() ==> count_in(b4, CHARS_UPPER_CASE_LETTERS@) >= minimum(
        options.min_upper_case,
    ));
    assert(options.digits_on() ==> count_in(b4, CHARS_DIGITS@) >= minimum(options.min_digits));
    assert(next == total);

    // Fill the buffer until the required password length is met
    let missing = password_length as usize - total;
    push_drawn_chars(&mut buffer, chars_set.as_str(), picks, total, missing);
    proof {
        let added = drawn_from(options.fill_set(), picks@.subrange(d, password_length as int));
        lemma_drawn_from_in_set(options.fill_set(), picks@.subrange(d, password_length as int));
        lemma_extend_within(b4, added, options.fill_set());
        assert(buffer@ == b4 + added);
        assert(buffer@ =~= options.drawn_chars(password_length, picks@));
        assert(fits_options(buffer@, password_length, *options));
    }

    // Put the characters in order and create a string
    let ghost drawn = buffer@;
    let result = shuffle(buffer, shuffles);
    proof {
        lemma_rearranged_fits(drawn, result@, password_length, *options);
    }
    Ok(string_from_chars(&result))
}

/// Generates a random password of `password_length` characters.
///
/// The minimums of the switched-on classes are drawn first, each from its
/// class; the rest is drawn from all switched-on classes together; the
/// characters are then put in a random order.
pub fn generate(password_length: u16, options: Options) -> (result: Result<String, Error>)
    requires
        options.draws_possible(password_length),
    ensures
        password_length == 0 ==> result == Err::<String, Error>(Error::PasswordLength),
        password_length > 0 && options.total_minimum() > password_length ==> result == Err::<
            String,
            Error,
        >(Error::MinimumsTooHigh),
        password_length > 0 && options.total_minimum() <= password_length ==> result is Ok,
        result matches Ok(password) ==> fits_options(password@, password_length, options),
        result matches Ok(password) ==> exists|picks: Seq<u32>, shuffles: Seq<u64>|
            #[trigger] arranged(options.drawn_chars(password_length, picks), shuffles)
                == password@,
{
    if password_length == 0 {
        return Err(Error::PasswordLength);
    }
    let mut rng = thread_rng();
    let mut picks: Vec<u32> = Vec::new();
    let mut shuffles: Vec<u64> = Vec::new();
    let mut k: u16 = 0;
    while k < password_length
        invariant
            k <= password_length,
            picks@.len() == k,
        decreases password_length - k,
    {
        picks.push(next_u32(&mut rng));
        k = k + 1;
    }
    k = 0;
    while k < password_length
        invariant
            k <= password_length,
            shuffles@.len() == k,
        decreases password_length - k,
    {
        shuffles.push(random_u64(&mut rng));
        k = k + 1;
    }
    let result = generate_from_draws(password_length, &options, &picks, &shuffles);
    proof {
        if options.total_minimum() <= password_length {
            let password = result->Ok_0;
            assert(arranged(options.drawn_chars(password_length, picks@), shuffles@) == password@);
        }
    }
    result
}

/// The class of each character of `set` is `k`, so a password holds at least
/// as many characters of class `k` as characters of `set`.
proof fn lemma_class_count_covers(s: Seq<char>, special: Seq<char>, set: Seq<char>, k: CharClass)
    requires
        forall|ch: char| #[trigger] set.contains(ch) ==> char_class(ch, special) == k,
    ensures
        class_count(s, special, k) >= count_in(s, set),
    decreases s.len(),
{
    if s.len() > 0 {
        lemma_class_count_covers(s.drop_last(), special, set, k);
    }
}

/// The bound a policy asks for when it matches a class's minimum: the
/// minimum of a switched-on class, zero for a class switched off.
pub open spec fn matching_minimum(on: bool, min: Option<u16>) -> u16 {
    if on {
        match min {
            Some(n) => n,
            None => 0,
        }
    } else {
        0
    }
}

/// A password with the guarantees of [`generate`] passes the policy that asks
/// for the same minimums, given the Unicode classes of the characters drawn:
/// the lower case letters are lower case; the upper case letters are upper
/// case and not lower case; the digits are numeric and in neither letter
/// class; the special characters are in none of those classes and are special
/// to the policy.
pub proof fn law_generated_password_meets_minimums(
    password: Seq<char>,
    password_length: u16,
    options: Options,
    special: Seq<char>,
    byte_len: int,
)
    requires
        fits_options(password, password_length, options),
        forall|ch: char| #[trigger]
            CHARS_LOWER_CASE_LETTERS@.contains(ch) ==> has_lowercase_property(ch),
        forall|ch: char| #[trigger]
            CHARS_UPPER_CASE_LETTERS@.contains(ch) ==> !has_lowercase_property(ch)
                && has_uppercase_property(ch),
        forall|ch: char| #[trigger]
            CHARS_DIGITS@.contains(ch) ==> !has_lowercase_property(ch) && !has_uppercase_property(
                ch,
            ) && has_numeric_property(ch),
        forall|ch: char| #[trigger]
            options.special_set().contains(ch) ==> !has_lowercase_property(ch)
                && !has_uppercase_property(ch) && !has_numeric_property(ch) && special.contains(ch),
    ensures
        unmet_requirements(
            seq![
                Requirement::MinLowerCaseLetter(matching_minimum(options.lower_on(), options.min_lower_case)),
                Requirement::MinUpperCaseLetter(matching_minimum(options.upper_on(), options.min_upper_case)),
                Requirement::MinDigits(matching_minimum(options.digits_on(), options.min_digits)),
                Requirement::MinSpecialChars(matching_minimum(options.special_on(), options.min_special_chars)),
            ],
            byte_len,
            password,
            special,
        ).len() == 0,
{
    lemma_class_count_covers(password, special, CHARS_LOWER_CASE_LETTERS@, CharClass::Lower);
    lemma_class_count_covers(password, special, CHARS_UPPER_CASE_LETTERS@, CharClass::Upper);
    lemma_class_count_covers(password, special, CHARS_DIGITS@, CharClass::Numeric);
    lemma_class_count_covers(password, special, options.special_set(), CharClass::Special);
    let reqs = seq![
        Requirement::MinLowerCaseLetter(matching_minimum(options.lower_on(), options.min_lower_case)),
        Requirement::MinUpperCaseLetter(matching_minimum(options.upper_on(), options.min_upper_case)),
        Requirement::MinDigits(matching_minimum(options.digits_on(), options.min_digits)),
        Requirement::MinSpecialChars(matching_minimum(options.special_on(), options.min_special_chars)),
    ];
    law_passes_iff_every_requirement_met(reqs, byte_len, password, special);
    assert forall|i: int| 0 <= i < reqs.len() implies requirement_met(
        #[trigger] reqs[i],
        byte_len,
        password,
        special,
    ) by {}
}


/// A minimum left as `None` asks for nothing: the characters the minimums ask
/// for are the given minimums of the switched-on classes added up, and
/// options without minimums ask for none.
pub proof fn law_missing_minimum_asks_nothing(options: Options)
    ensures
        options.total_minimum() == (if options.lower_on() && options.min_lower_case is Some {
            options.min_lower_case->Some_0 as int
        } else {
            0
        }) + (if options.upper_on() && options.min_upper_case is Some {
            options.min_upper_case->Some_0 as int
        } else {
            0
        }) + (if options.digits_on() && options.min_digits is Some {
            options.min_digits->Some_0 as int
        } else {
            0
        }) + (if options.special_on() && options.min_special_chars is Some {
            options.min_special_chars->Some_0 as int
        } else {
            0
        }),
        options.min_lower_case is None && options.min_upper_case is None
            && options.min_digits is None && options.min_special_chars is None
            ==> options.total_minimum() == 0,
{
}

/// A character occurs in a concatenation exactly when it occurs in one part.
proof fn lemma_concat_contains(a: Seq<char>, b: Seq<char>, c: char)
    ensures
        (a + b).contains(c) <==> a.contains(c) || b.contains(c),
{
    if a.contains(c) {
        let j = choose|j: int| 0 <= j < a.len() && a[j] == c;
        assert((a + b)[j] == c);
    }
    if b.contains(c) {
        let j = choose|j: int| 0 <= j < b.len() && b[j] == c;
        assert((a + b)[a.len() + j] == c);
    }
    if (a + b).contains(c) {
        let j = choose|j: int| 0 <= j < (a + b).len() && (a + b)[j] == c;
        if j < a.len() {
            assert(a[j] == c);
        } else {
            assert(b[j - a.len()] == c);
        }
    }
}

/// The characters beyond the minimums are drawn from every switched-on class
/// and from no other, whatever the minimums are: a character can fill the
/// password exactly when it belongs to a switched-on class.
pub proof fn law_fill_set_members(options: Options, c: char)
    ensures
        options.fill_set().contains(c) <==> (options.lower_on()
            && CHARS_LOWER_CASE_LETTERS@.contains(c)) || (options.upper_on()
            && CHARS_UPPER_CASE_LETTERS@.contains(c)) || (options.digits_on()
            && CHARS_DIGITS@.contains(c)) || (options.special_on() && options.special_set().contains(
            c,
        )),
{
    let l = if options.lower_on() { CHARS_LOWER_CASE_LETTERS@ } else { Seq::<char>::empty() };
    let u = if options.upper_on() { CHARS_UPPER_CASE_LETTERS@ } else { Seq::<char>::empty() };
    let d = if options.digits_on() { CHARS_DIGITS@ } else { Seq::<char>::empty() };
    let s = if options.special_on() { options.special_set() } else { Seq::<char>::empty() };
    lemma_concat_contains(l + u + d, s, c);
    lemma_concat_contains(l + u, d, c);
    lemma_concat_contains(l, u, c);
}

/// A character is kept from `s` exactly when it occurs in `s` and not in `exclude`.
proof fn lemma_without_members(s: Seq<char>, exclude: Seq<char>, c: char)
    ensures
        without(s, exclude).contains(c) <==> s.contains(c) && !exclude.contains(c),
    decreases s.len(),
{
    if s.len() > 0 {
        let rest = s.drop_last();
        lemma_without_members(rest, exclude, c);
        assert(s =~= rest.push(s.last()));
        lemma_concat_contains(rest, seq![s.last()], c);
        assert(rest.push(s.last()) =~= rest + seq![s.last()]);
        lemma_concat_contains(without(rest, exclude), seq![s.last()], c);
        assert(without(rest, exclude).push(s.last()) =~= without(rest, exclude) + seq![s.last()]);
        assert(seq![s.last()].contains(c) <==> c == s.last()) by {
            if c == s.last() {
                assert(seq![s.last()][0] == c);
            }
        }
    }
}

/// The special characters drawn from are the options' own, or the default
/// set when they name none, less the excluded ones: without exclusions they
/// are exactly that set, and with exclusions a character is kept exactly
/// when it is in that set and not excluded.
pub proof fn law_special_set_from_options(options: Options, c: char)
    ensures
        options.exclude_chars is None && options.special_chars is Some ==> options.special_set()
            == options.special_chars->Some_0@,
        options.exclude_chars is None && options.special_chars is None ==> options.special_set()
            == CHARS_SPECIAL@,
        options.special_set().contains(c) <==> (if options.special_chars is Some {
            options.special_chars->Some_0@.contains(c)
        } else {
            CHARS_SPECIAL@.contains(c)
        }) && !(options.exclude_chars is Some && options.exclude_chars->Some_0@.contains(c)),
{
    let base = match options.special_chars {
        Some(s) => s@,
        None => CHARS_SPECIAL@,
    };
    if let Some(e) = options.exclude_chars {
        lemma_without_members(base, e@, c);
    }
}

/// The arrangement takes out first the character that the first draw selects,
/// the one at that draw modulo the number of characters, and then arranges the
/// characters left with the draws left; it keeps every character.
pub proof fn law_arrangement_takes_selected_first(buffer: Seq<char>, draws: Seq<u64>)
    requires
        buffer.len() > 0,
    ensures
        arranged(buffer, draws).len() == buffer.len(),
        arranged(buffer, draws)[0] == buffer[(draws[0] as usize as int) % (buffer.len() as int)],
        arranged(buffer, draws).drop_first() == arranged(
            buffer.remove((draws[0] as usize as int) % (buffer.len() as int)),
            draws.drop_first(),
        ),
        arranged(buffer, draws).to_multiset() == buffer.to_multiset(),
{
    let i = (draws[0] as usize as int) % (buffer.len() as int);
    let rest = arranged(buffer.remove(i), draws.drop_first());
    lemma_arranged_keeps_chars(buffer, draws);
    lemma_arranged_keeps_chars(buffer.remove(i), draws.drop_first());
    assert(rest.len() == rest.to_multiset().len());
    assert(buffer.remove(i).len() == buffer.remove(i).to_multiset().len());
    assert((seq![buffer[i]] + rest).drop_first() =~= rest);
}


/// Where each drawn character comes from: the draw at position `j` selects,
/// modulo the size of the set, a lower case letter while the lower case
/// minimum lasts, then an upper case letter, a digit and a special character
/// for the following minimums, and a character of all switched-on classes
/// for every position after the minimums.
pub proof fn law_drawn_chars_positions(options: Options, password_length: u16, picks: Seq<u32>)
    requires
        options.total_minimum() <= password_length,
        picks.len() >= password_length,
    ensures
        options.drawn_chars(password_length, picks).len() == password_length,
        forall|j: int|
            0 <= j < password_length ==> #[trigger] options.drawn_chars(password_length, picks)[j]
                == ({
                let a = options.lower_draws();
                let b = a + options.upper_draws();
                let c = b + options.digit_draws();
                let d = c + options.special_draws();
                let set = if j < a {
                    CHARS_LOWER_CASE_LETTERS@
                } else if j < b {
                    CHARS_UPPER_CASE_LETTERS@
                } else if j < c {
                    CHARS_DIGITS@
                } else if j < d {
                    options.special_set()
                } else {
                    options.fill_set()
                };
                set[(picks[j] as int) % (set.len() as int)]
            }),
{
    let a = options.lower_draws() as int;
    let b = a + options.upper_draws();
    let c = b + options.digit_draws();
    let d = c + options.special_draws();
    let s1 = drawn_from(CHARS_LOWER_CASE_LETTERS@, picks.subrange(0, a));
    let s2 = drawn_from(CHARS_UPPER_CASE_LETTERS@, picks.subrange(a, b));
    let s3 = drawn_from(CHARS_DIGITS@, picks.subrange(b, c));
    let s4 = drawn_from(options.special_set(), picks.subrange(c, d));
    let s5 = drawn_from(options.fill_set(), picks.subrange(d, password_length as int));
    let all = options.drawn_chars(password_length, picks);
    assert(all == s1 + s2 + s3 + s4 + s5);
    assert forall|j: int| 0 <= j < password_length implies #[trigger] all[j] == ({
        let set = if j < a {
            CHARS_LOWER_CASE_LETTERS@
        } else if j < b {
            CHARS_UPPER_CASE_LETTERS@
        } else if j < c {
            CHARS_DIGITS@
        } else if j < d {
            options.special_set()
        } else {
            options.fill_set()
        };
        set[(picks[j] as int) % (set.len() as int)]
    }) by {
        if j < a {
            assert(all[j] == s1[j]);
        } else if j < b {
            assert(all[j] == s2[j - a]);
        } else if j < c {
            assert(all[j] == s3[j - b]);
        } else if j < d {
            assert(all[j] == s4[j - c]);
        } else {
            assert(all[j] == s5[j - d]);
        }
    }
}

} // verus!
