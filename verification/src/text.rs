//! Text: decimal numbers, trimming, and the way between text and characters.

use vstd::prelude::*;
use vstd::utf8::{decode_utf8, valid_utf8};

verus! {

/// `String::push` appends one character.
pub assume_specification[ String::push ](s: &mut String, ch: char)
    ensures
        final(s)@ == old(s)@.push(ch),
;

/// What `String::from_utf8_lossy` makes of `bytes`.
pub uninterp spec fn lossy_text(bytes: Seq<u8>) -> Seq<char>;

/// The text of `bytes` by `String::from_utf8_lossy`. Bytes that are UTF-8 give
/// the text they encode; of others the contract says only that equal bytes give
/// equal text, with replacement characters in it.
#[verifier::external_body]
pub(crate) fn lossy(bytes: &[u8]) -> (text: String)
    ensures
        text@ == lossy_text(bytes@),
        valid_utf8(bytes@) ==> text@ == decode_utf8(bytes@),
{
    String::from_utf8_lossy(bytes).into_owned()
}

pub open spec fn is_digit(c: char) -> bool {
    '0' <= c <= '9'
}

/// The character for one decimal digit.
pub open spec fn digit(n: nat) -> char {
    (('0' as int) + n) as char
}

/// The number `n` in decimal, without leading zeros.
pub open spec fn decimal(n: nat) -> Seq<char>
    decreases n,
{
    if n < 10 {
        seq![digit(n)]
    } else {
        decimal(n / 10).push(digit(n % 10))
    }
}

/// The number `n` in decimal, with a minus sign when it is negative.
pub open spec fn signed_decimal(n: int) -> Seq<char> {
    if n < 0 {
        seq!['-'] + decimal((-n) as nat)
    } else {
        decimal(n as nat)
    }
}

/// The number that a sequence of digits stands for.
pub open spec fn decimal_value(digits: Seq<char>) -> nat
    decreases digits.len(),
{
    if digits.len() == 0 {
        0
    } else {
        decimal_value(digits.drop_last()) * 10 + (digits.last() as nat - '0' as nat) as nat
    }
}

/// Whether every character of `s` is a decimal digit.
pub open spec fn all_digits(s: Seq<char>) -> bool {
    forall|i: int| 0 <= i < s.len() ==> is_digit(#[trigger] s[i])
}

/// Reading a number back from its decimal form gives the number.
pub proof fn decimal_value_of_decimal(n: nat)
    ensures
        decimal_value(decimal(n)) == n,
        all_digits(decimal(n)),
        decimal(n).len() > 0,
    decreases n,
{
    if n < 10 {
        assert(decimal(n).drop_last() =~= Seq::<char>::empty());
        assert(decimal_value(Seq::<char>::empty()) == 0);
    } else {
        decimal_value_of_decimal(n / 10);
        assert(decimal(n).drop_last() =~= decimal(n / 10));
    }
}

/// Appends `n` in decimal.
pub(crate) fn push_decimal(s: &mut String, n: u64)
    ensures
        final(s)@ == old(s)@ + decimal(n as nat),
    decreases n,
{
    if n >= 10 {
        push_decimal(s, n / 10);
    }
    let last: u8 = (n % 10) as u8;
    s.push((48u8 + last) as char);
    assert(s@ =~= old(s)@ + decimal(n as nat));
}

/// Appends `n` in decimal, with a minus sign when it is negative.
pub(crate) fn push_signed(s: &mut String, n: i32)
    ensures
        final(s)@ == old(s)@ + signed_decimal(n as int),
{
    if n < 0 {
        s.push('-');
        push_decimal(s, (-(n as i64)) as u64);
        assert(s@ =~= old(s)@ + signed_decimal(n as int));
    } else {
        push_decimal(s, n as u64);
    }
}

/// The characters of `s`, in order.
pub(crate) fn chars_of(s: &str) -> (chars: Vec<char>)
    ensures
        chars@ == s@,
{
    let mut chars: Vec<char> = Vec::new();
    for c in iter: s.chars()
        invariant
            iter.seq() == s@,
            chars@ == s@.take(iter.index() as int),
    {
        chars.push(c);
        assert(chars@ =~= s@.take(iter.index() + 1));
    }
    assert(s@.take(s@.len() as int) =~= s@);
    chars
}

/// The text made of the characters of `chars` from `start` to before `end`.
pub(crate) fn string_of(chars: &Vec<char>, start: usize, end: usize) -> (s: String)
    requires
        start <= end <= chars@.len(),
    ensures
        s@ == chars@.subrange(start as int, end as int),
{
    let mut s = String::new();
    let mut i: usize = start;
    assert(s@ =~= chars@.subrange(start as int, start as int));
    while i < end
        invariant
            start <= i <= end <= chars@.len(),
            s@ == chars@.subrange(start as int, i as int),
        decreases end - i,
    {
        s.push(chars[i]);
        i = i + 1;
        assert(s@ =~= chars@.subrange(start as int, i as int));
    }
    s
}

/// A longer run of digits stands for no smaller a number.
pub(crate) proof fn decimal_value_grows(digits: Seq<char>, n: int)
    requires
        0 <= n <= digits.len(),
    ensures
        decimal_value(digits.take(n)) <= decimal_value(digits),
    decreases digits.len(),
{
    if n == digits.len() {
        assert(digits.take(n) =~= digits);
    } else {
        decimal_value_grows(digits.drop_last(), n);
        assert(digits.drop_last().take(n) =~= digits.take(n));
    }
}

/// The number that the characters before `end` stand for, or `None` when it does
/// not fit.
pub(crate) fn parse_digits(chars: &Vec<char>, end: usize) -> (value: Option<u64>)
    requires
        end <= chars@.len(),
        all_digits(chars@.take(end as int)),
    ensures
        value == if decimal_value(chars@.take(end as int)) <= u64::MAX {
            Some(decimal_value(chars@.take(end as int)) as u64)
        } else {
            None
        },
{
    let ghost digits = chars@.take(end as int);
    let mut value: u64 = 0;
    let mut i: usize = 0;
    while i < end
        invariant
            i <= end <= chars@.len(),
            digits == chars@.take(end as int),
            all_digits(digits),
            value == decimal_value(digits.take(i as int)),
        decreases end - i,
    {
        assert(is_digit(digits[i as int]));
        let digit: u64 = (chars[i] as u64) - 48;
        proof {
            assert(digits.take(i + 1).drop_last() =~= digits.take(i as int));
            decimal_value_grows(digits, i + 1);
        }
        match value.checked_mul(10) {
            Some(tens) => match tens.checked_add(digit) {
                Some(sum) => {
                    value = sum;
                },
                None => {
                    return None;
                },
            },
            None => {
                return None;
            },
        }
        i = i + 1;
    }
    assert(digits.take(end as int) =~= digits);
    Some(value)
}

/// Whether the characters before `end` are all decimal digits.
pub(crate) fn are_digits(chars: &Vec<char>, end: usize) -> (digits: bool)
    requires
        end <= chars@.len(),
    ensures
        digits == all_digits(chars@.take(end as int)),
{
    let mut i: usize = 0;
    while i < end
        invariant
            i <= end <= chars@.len(),
            all_digits(chars@.take(i as int)),
        decreases end - i,
    {
        if !('0' <= chars[i] && chars[i] <= '9') {
            assert(!is_digit(chars@.take(end as int)[i as int]));
            return false;
        }
        i = i + 1;
        assert(all_digits(chars@.take(i as int))) by {
            assert forall|j: int| 0 <= j < i implies is_digit(
                #[trigger] chars@.take(i as int)[j],
            ) by {
                if j < i - 1 {
                    assert(is_digit(chars@.take(i - 1)[j]));
                }
            }
        }
    }
    true
}

/// `s` without the slashes in front.
pub open spec fn trim_start_slashes(s: Seq<char>) -> Seq<char>
    decreases s.len(),
{
    if s.len() > 0 && s[0] == '/' {
        trim_start_slashes(s.drop_first())
    } else {
        s
    }
}

/// `s` without the slashes at its end.
pub open spec fn trim_end_slashes(s: Seq<char>) -> Seq<char>
    decreases s.len(),
{
    if s.len() > 0 && s.last() == '/' {
        trim_end_slashes(s.drop_last())
    } else {
        s
    }
}

/// `s` without the `./` in front, however often it is written.
pub open spec fn trim_start_dot_slashes(s: Seq<char>) -> Seq<char>
    decreases s.len(),
{
    if s.len() >= 2 && s[0] == '.' && s[1] == '/' {
        trim_start_dot_slashes(s.skip(2))
    } else {
        s
    }
}

/// Whether `c` begins a wildcard of a glob.
pub open spec fn is_wildcard(c: char) -> bool {
    c == '*' || c == '?' || c == '[' || c == '{'
}

/// Whether `s` holds a wildcard.
pub open spec fn has_wildcard(s: Seq<char>) -> bool {
    exists|i: int| 0 <= i < s.len() && is_wildcard(#[trigger] s[i])
}

/// Whether `c` may stand for something else in a glob: it begins a wildcard or
/// escapes what follows.
pub open spec fn is_special(c: char) -> bool {
    is_wildcard(c) || c == '\\'
}

/// Whether `s` holds a wildcard or an escape.
pub open spec fn has_special(s: Seq<char>) -> bool {
    exists|i: int| 0 <= i < s.len() && is_special(#[trigger] s[i])
}

/// What stands before the first wildcard or escape of `s`.
pub open spec fn before_special(s: Seq<char>) -> Seq<char>
    decreases s.len(),
{
    if s.len() == 0 || is_special(s[0]) {
        Seq::empty()
    } else {
        seq![s[0]] + before_special(s.drop_first())
    }
}

/// Whether `s` ends in `suffix`.
pub open spec fn ends_with(s: Seq<char>, suffix: Seq<char>) -> bool {
    suffix.len() <= s.len() && s.skip(s.len() - suffix.len()) == suffix
}

/// Where the characters before `end` end when slashes at their end are left out.
pub(crate) fn end_without_slashes(chars: &Vec<char>, start: usize, end: usize) -> (trimmed: usize)
    requires
        start <= end <= chars@.len(),
    ensures
        start <= trimmed <= end,
        chars@.subrange(start as int, trimmed as int) == trim_end_slashes(
            chars@.subrange(start as int, end as int),
        ),
{
    let mut trimmed: usize = end;
    while trimmed > start && chars[trimmed - 1] == '/'
        invariant
            start <= trimmed <= end <= chars@.len(),
            trim_end_slashes(chars@.subrange(start as int, trimmed as int)) == trim_end_slashes(
                chars@.subrange(start as int, end as int),
            ),
        decreases trimmed,
    {
        assert(chars@.subrange(start as int, trimmed as int).drop_last() =~= chars@.subrange(
            start as int,
            trimmed - 1,
        ));
        trimmed = trimmed - 1;
    }
    trimmed
}

/// Where the characters from `start` on begin when slashes in front are left out.
pub(crate) fn start_without_slashes(chars: &Vec<char>, start: usize) -> (trimmed: usize)
    requires
        start <= chars@.len(),
    ensures
        start <= trimmed <= chars@.len(),
        chars@.skip(trimmed as int) == trim_start_slashes(chars@.skip(start as int)),
{
    let mut trimmed: usize = start;
    while trimmed < chars.len() && chars[trimmed] == '/'
        invariant
            start <= trimmed <= chars@.len(),
            trim_start_slashes(chars@.skip(trimmed as int)) == trim_start_slashes(
                chars@.skip(start as int),
            ),
        decreases chars@.len() - trimmed,
    {
        assert(chars@.skip(trimmed as int).drop_first() =~= chars@.skip(trimmed + 1));
        trimmed = trimmed + 1;
    }
    trimmed
}

/// Where the characters begin when `./` in front is left out.
pub(crate) fn start_without_dot_slashes(chars: &Vec<char>) -> (trimmed: usize)
    ensures
        trimmed <= chars@.len(),
        chars@.skip(trimmed as int) == trim_start_dot_slashes(chars@),
{
    let mut trimmed: usize = 0;
    assert(chars@.skip(0) =~= chars@);
    while chars.len() - trimmed >= 2 && chars[trimmed] == '.' && chars[trimmed + 1] == '/'
        invariant
            trimmed <= chars@.len(),
            trim_start_dot_slashes(chars@.skip(trimmed as int)) == trim_start_dot_slashes(chars@),
        decreases chars@.len() - trimmed,
    {
        assert(chars@.skip(trimmed as int).skip(2) =~= chars@.skip(trimmed + 2));
        trimmed = trimmed + 2;
    }
    trimmed
}

/// Whether a wildcard stands before `end`.
pub(crate) fn holds_wildcard(chars: &Vec<char>, end: usize) -> (holds: bool)
    requires
        end <= chars@.len(),
    ensures
        holds == has_wildcard(chars@.take(end as int)),
{
    let ghost all = chars@.take(end as int);
    let mut i: usize = 0;
    while i < end
        invariant
            i <= end <= chars@.len(),
            all == chars@.take(end as int),
            forall|j: int| 0 <= j < i ==> !is_wildcard(#[trigger] all[j]),
        decreases end - i,
    {
        let c = chars[i];
        assert(all[i as int] == c);
        if c == '*' || c == '?' || c == '[' || c == '{' {
            return true;
        }
        i = i + 1;
    }
    false
}

/// Where the first wildcard or escape stands, or `end` when there is none before
/// it.
pub(crate) fn first_special(chars: &Vec<char>, start: usize, end: usize) -> (at: usize)
    requires
        start <= end <= chars@.len(),
    ensures
        start <= at <= end,
        chars@.subrange(start as int, at as int) == before_special(
            chars@.subrange(start as int, end as int),
        ),
        at == end <==> !has_special(chars@.subrange(start as int, end as int)),
{
    let ghost all = chars@.subrange(start as int, end as int);
    let mut at: usize = start;
    assert(all.take(0) + before_special(all.skip(0)) =~= before_special(all)) by {
        assert(all.skip(0) =~= all);
    }
    while at < end && !(chars[at] == '*' || chars[at] == '?' || chars[at] == '[' || chars[at] == '{'
        || chars[at] == '\\')
        invariant
            start <= at <= end <= chars@.len(),
            all == chars@.subrange(start as int, end as int),
            all.take(at - start) + before_special(all.skip(at - start)) == before_special(all),
            forall|i: int| 0 <= i < at - start ==> !is_special(#[trigger] all[i]),
        decreases end - at,
    {
        proof {
            let k = at - start;
            assert(all[k] == chars@[at as int]);
            assert(all.skip(k).drop_first() =~= all.skip(k + 1));
            assert(all.take(k) + (seq![all[k]] + before_special(all.skip(k + 1))) =~= all.take(
                k + 1,
            ) + before_special(all.skip(k + 1)));
        }
        at = at + 1;
    }
    proof {
        let k = at - start;
        if at < end {
            assert(all[k] == chars@[at as int]);
            assert(is_special(all[k]));
            assert(all.skip(k)[0] == all[k]);
        }
        assert(before_special(all.skip(k)) =~= Seq::<char>::empty());
        assert(all.take(k) + Seq::<char>::empty() =~= all.take(k));
        assert(all.take(k) =~= chars@.subrange(start as int, at as int));
    }
    at
}

/// Whether `whole` begins with `start`.
pub(crate) fn begins_with(whole: &str, start: &str) -> (begins: bool)
    ensures
        begins == start@.is_prefix_of(whole@),
{
    let a = chars_of(start);
    let b = chars_of(whole);
    if a.len() > b.len() {
        return false;
    }
    let mut i: usize = 0;
    while i < a.len()
        invariant
            i <= a@.len() <= b@.len(),
            a@ == start@,
            b@ == whole@,
            forall|j: int| 0 <= j < i ==> a@[j] == b@[j],
        decreases a@.len() - i,
    {
        if a[i] != b[i] {
            assert(b@.subrange(0, a@.len() as int)[i as int] != a@[i as int]);
            return false;
        }
        i = i + 1;
    }
    assert(a@ =~= b@.subrange(0, a@.len() as int));
    true
}

/// The texts that a sequence of strings holds.
pub open spec fn strings_view(strings: Seq<String>) -> Seq<Seq<char>> {
    strings.map_values(|s: String| s@)
}

/// A copy of a vector of strings.
pub(crate) fn copy_strings(strings: &Vec<String>) -> (copy: Vec<String>)
    ensures
        strings_view(copy@) == strings_view(strings@),
{
    let mut copy: Vec<String> = Vec::new();
    let mut i: usize = 0;
    while i < strings.len()
        invariant
            i <= strings@.len(),
            copy@.len() == i,
            forall|j: int| 0 <= j < i ==> (#[trigger] copy@[j])@ == strings@[j]@,
        decreases strings@.len() - i,
    {
        copy.push(strings[i].clone());
        i = i + 1;
    }
    assert(strings_view(copy@) =~= strings_view(strings@));
    copy
}

/// Numbers are written without leading zeros, digit by digit.
pub proof fn decimals_have_no_leading_zeros(n: nat)
    ensures
        n > 0 ==> decimal(n)[0] != '0',
        n < 10 ==> decimal(n).len() == 1,
        n >= 10 ==> decimal(n).len() == decimal(n / 10).len() + 1,
    decreases n,
{
    if n >= 10 {
        decimals_have_no_leading_zeros(n / 10);
        decimal_value_of_decimal(n / 10);
        assert(decimal(n)[0] == decimal(n / 10)[0]);
    }
}

/// A digit behind others counts once and makes each of those before it count ten
/// times.
pub proof fn digits_count_by_their_place(digits: Seq<char>, c: char)
    requires
        '0' <= c <= '9',
    ensures
        decimal_value(Seq::empty()) == 0,
        decimal_value(digits.push(c)) == decimal_value(digits) * 10 + (c as int - '0' as int),
{
    assert(digits.push(c).drop_last() =~= digits);
}

/// Only the characters `0` to `9` are digits.
pub proof fn digits_are_zero_to_nine(s: Seq<char>)
    ensures
        all_digits(s) <==> forall|i: int| 0 <= i < s.len() ==> '0' <= #[trigger] s[i] <= '9',
{
}

/// Slashes at the end are trimmed, however many there are, and nothing else is.
pub proof fn trimming_takes_slashes_at_the_end(s: Seq<char>)
    ensures
        trim_end_slashes(s.push('/')) == trim_end_slashes(s),
        s.len() == 0 || s.last() != '/' ==> trim_end_slashes(s) == s,
{
    assert(s.push('/').drop_last() =~= s);
}

/// Slashes in front are trimmed, however many there are, and nothing else is; so
/// is a dot with a slash.
pub proof fn trimming_takes_slashes_in_front(s: Seq<char>)
    ensures
        trim_start_slashes(seq!['/'] + s) == trim_start_slashes(s),
        s.len() == 0 || s[0] != '/' ==> trim_start_slashes(s) == s,
        trim_start_dot_slashes(seq!['.', '/'] + s) == trim_start_dot_slashes(s),
        s.len() < 2 || s[0] != '.' || s[1] != '/' ==> trim_start_dot_slashes(s) == s,
{
    assert((seq!['/'] + s).drop_first() =~= s);
    assert((seq!['.', '/'] + s).skip(2) =~= s);
}

/// The wildcards of a glob begin with one of four characters; a backslash escapes.
pub proof fn wildcards_are_four(c: char)
    ensures
        is_wildcard(c) <==> c == '*' || c == '?' || c == '[' || c == '{',
        is_special(c) <==> c == '*' || c == '?' || c == '[' || c == '{' || c == '\\',
{
}

/// What stands before the first wildcard or escape is all up to there.
pub proof fn literals_end_at_the_first_wildcard(literal: Seq<char>, c: char, rest: Seq<char>)
    requires
        forall|i: int| 0 <= i < literal.len() ==> !is_special(#[trigger] literal[i]),
        is_special(c),
    ensures
        before_special(literal.push(c) + rest) == literal,
        before_special(literal) == literal,
        has_special(literal.push(c) + rest),
        !has_special(literal),
    decreases literal.len(),
{
    let all = literal.push(c) + rest;
    assert(all[literal.len() as int] == c);
    if literal.len() > 0 {
        let tail = literal.drop_first();
        assert(!is_special(literal[0]));
        assert forall|i: int| 0 <= i < tail.len() implies !is_special(#[trigger] tail[i]) by {
            assert(!is_special(literal[i + 1]));
        }
        literals_end_at_the_first_wildcard(tail, c, rest);
        assert(all[0] == literal[0]);
        assert(all.drop_first() =~= tail.push(c) + rest);
        assert(seq![literal[0]] + tail =~= literal);
    } else {
        assert(before_special(all) =~= literal);
        assert(before_special(literal) =~= literal);
    }
}

/// The model of a list of strings holds each of them.
pub proof fn every_string_is_seen(strings: Seq<String>, i: int)
    requires
        0 <= i < strings.len(),
    ensures
        strings_view(strings).len() == strings.len(),
        strings_view(strings)[i] == strings[i]@,
{
}

} // verus!
