//! Text as sequences of characters.
//!
//! Every function states its result over `Seq<char>`, the view of `str` and
//! `String`.
use vstd::prelude::*;
use vstd::string::StringExecFns;

verus! {

// ---------------------------------------------------------------------------
// std functions used on strings

/// `String::push` appends one character.
pub assume_specification[ String::push ](s: &mut String, c: char)
    ensures
        final(s)@ == old(s)@.push(c),
;

/// `==` on `str` compares the two strings character by character.
pub assume_specification[ <str as PartialEq>::eq ](a: &str, b: &str) -> (r: bool)
    ensures
        r == (a@ == b@),
;

/// `char::is_whitespace` holds of the characters with the Unicode property
/// White_Space.
pub assume_specification[ char::is_whitespace ](c: char) -> (r: bool)
    ensures
        r == is_white_space(c),
;

/// The Unicode property White_Space.
pub open spec fn is_white_space(c: char) -> bool {
    let n = c as int;
    ||| 0x9 <= n <= 0xd
    ||| n == 0x20
    ||| n == 0x85
    ||| n == 0xa0
    ||| n == 0x1680
    ||| 0x2000 <= n <= 0x200a
    ||| n == 0x2028
    ||| n == 0x2029
    ||| n == 0x202f
    ||| n == 0x205f
    ||| n == 0x3000
}

// ---------------------------------------------------------------------------
// characters and strings

/// The characters of a string.
pub fn chars_of(s: &str) -> (chars: Vec<char>)
    ensures
        chars@ == s@,
{
    let mut chars: Vec<char> = Vec::new();
    for c in it: s.chars()
        invariant
            it.seq() == s@,
            chars@ == it.seq().take(it.index()),
    {
        chars.push(c);
    }
    assert(s@.take(s@.len() as int) == s@);
    chars
}

/// The string made of the characters from `from` up to, but not including, `to`.
pub fn string_of(chars: &Vec<char>, from: usize, to: usize) -> (s: String)
    requires
        from <= to <= chars@.len(),
    ensures
        s@ == chars@.subrange(from as int, to as int),
{
    let mut s = String::new();
    let mut i: usize = from;
    while i < to
        invariant
            from <= i <= to <= chars@.len(),
            s@ == chars@.subrange(from as int, i as int),
        decreases to - i,
    {
        s.push(chars[i]);
        i = i + 1;
    }
    s
}

/// Whether `chars` holds `pattern` at position `at`.
pub open spec fn occurs_at(chars: Seq<char>, pattern: Seq<char>, at: int) -> bool {
    0 <= at && at + pattern.len() <= chars.len() && chars.subrange(at, at + pattern.len())
        == pattern
}

/// Tests whether `pattern` stands at position `at`.
pub fn matches_at(chars: &Vec<char>, pattern: &Vec<char>, at: usize) -> (r: bool)
    ensures
        r == occurs_at(chars@, pattern@, at as int),
{
    if at > chars.len() || pattern.len() > chars.len() - at {
        return false;
    }
    let mut i: usize = 0;
    while i < pattern.len()
        invariant
            i <= pattern@.len(),
            at + pattern.len() <= chars.len(),
            forall|k: int| 0 <= k < i ==> chars@[at + k] == pattern@[k],
        decreases pattern@.len() - i,
    {
        if chars[at + i] != pattern[i] {
            assert(chars@.subrange(at as int, at + pattern@.len())[i as int] != pattern@[i as int]);
            return false;
        }
        i = i + 1;
    }
    assert(chars@.subrange(at as int, at + pattern@.len()) =~= pattern@);
    true
}

/// Whether `text` begins with `prefix`.
pub open spec fn has_prefix(text: Seq<char>, prefix: Seq<char>) -> bool {
    occurs_at(text, prefix, 0)
}

/// Whether `text` begins with `prefix`.
pub fn starts_with(text: &str, prefix: &str) -> (r: bool)
    ensures
        r == has_prefix(text@, prefix@),
{
    let chars = chars_of(text);
    let pattern = chars_of(prefix);
    matches_at(&chars, &pattern, 0)
}

/// The position of the first character equal to `c` at or after `from`.
pub open spec fn index_of_char(chars: Seq<char>, c: char, from: int) -> Option<int>
    decreases chars.len() - from,
{
    if from < 0 || from >= chars.len() {
        None
    } else if chars[from] == c {
        Some(from)
    } else {
        index_of_char(chars, c, from + 1)
    }
}

/// Finds the first character equal to `c` at or after `from`.
pub fn find_char(chars: &Vec<char>, c: char, from: usize) -> (r: Option<usize>)
    ensures
        r matches Some(i) ==> from <= i < chars@.len() && index_of_char(chars@, c, from as int)
            == Some(i as int),
        r is None ==> index_of_char(chars@, c, from as int) is None,
{
    let mut i: usize = from;
    while i < chars.len()
        invariant
            from <= i,
            index_of_char(chars@, c, from as int) == index_of_char(chars@, c, i as int),
        decreases chars@.len() - i,
    {
        if chars[i] == c {
            return Some(i);
        }
        i = i + 1;
    }
    None
}

/// The position of the first occurrence of `pattern` at or after `from`.
pub open spec fn index_of_text(chars: Seq<char>, pattern: Seq<char>, from: int) -> Option<int>
    decreases chars.len() - from,
{
    if from < 0 || from >= chars.len() {
        None
    } else if occurs_at(chars, pattern, from) {
        Some(from)
    } else {
        index_of_text(chars, pattern, from + 1)
    }
}

/// Finds the first occurrence of `pattern` at or after `from`.
pub fn find_text(chars: &Vec<char>, pattern: &Vec<char>, from: usize) -> (r: Option<usize>)
    ensures
        r matches Some(i) ==> from <= i < chars@.len() && index_of_text(
            chars@,
            pattern@,
            from as int,
        ) == Some(i as int) && i + pattern@.len() <= chars@.len(),
        r is None ==> index_of_text(chars@, pattern@, from as int) is None,
{
    let mut i: usize = from;
    while i < chars.len()
        invariant
            from <= i,
            index_of_text(chars@, pattern@, from as int) == index_of_text(
                chars@,
                pattern@,
                i as int,
            ),
        decreases chars@.len() - i,
    {
        if matches_at(chars, pattern, i) {
            return Some(i);
        }
        i = i + 1;
    }
    None
}

// ---------------------------------------------------------------------------
// trimming

/// The text without the white space at its start.
pub open spec fn trim_start_spec(s: Seq<char>) -> Seq<char>
    decreases s.len(),
{
    if s.len() > 0 && is_white_space(s[0]) {
        trim_start_spec(s.subrange(1, s.len() as int))
    } else {
        s
    }
}

/// The text without the white space at its end.
pub open spec fn trim_end_spec(s: Seq<char>) -> Seq<char>
    decreases s.len(),
{
    if s.len() > 0 && is_white_space(s[s.len() - 1]) {
        trim_end_spec(s.subrange(0, s.len() - 1))
    } else {
        s
    }
}

/// The text without the white space at its two ends.
pub open spec fn trim_spec(s: Seq<char>) -> Seq<char> {
    trim_end_spec(trim_start_spec(s))
}

/// The text without the white space at its two ends.
pub fn trim(text: &str) -> (r: String)
    ensures
        r@ == trim_spec(text@),
{
    let chars = chars_of(text);
    let mut from: usize = 0;
    assert(chars@.subrange(0, chars@.len() as int) =~= chars@);
    while from < chars.len() && chars[from].is_whitespace()
        invariant
            from <= chars@.len(),
            trim_start_spec(chars@) == trim_start_spec(
                chars@.subrange(from as int, chars@.len() as int),
            ),
        decreases chars@.len() - from,
    {
        assert(chars@.subrange(from as int, chars@.len() as int).subrange(
            1,
            chars@.len() - from,
        ) =~= chars@.subrange(from + 1, chars@.len() as int));
        from = from + 1;
    }
    let ghost start = chars@.subrange(from as int, chars@.len() as int);
    assert(trim_start_spec(chars@) == start);
    let mut to: usize = chars.len();
    while to > from && chars[to - 1].is_whitespace()
        invariant
            from <= to <= chars@.len(),
            trim_end_spec(start) == trim_end_spec(chars@.subrange(from as int, to as int)),
        decreases to,
    {
        assert(chars@.subrange(from as int, to as int).subrange(0, to - from - 1)
            =~= chars@.subrange(from as int, to - 1));
        to = to - 1;
    }
    string_of(&chars, from, to)
}

/// Whether nothing but white space is in the text.
pub open spec fn is_blank_spec(s: Seq<char>) -> bool {
    forall|i: int| 0 <= i < s.len() ==> is_white_space(#[trigger] s[i])
}

/// Whether trimming the text leaves nothing.
pub fn is_blank(text: &str) -> (r: bool)
    ensures
        r == is_blank_spec(text@),
{
    let chars = chars_of(text);
    let mut i: usize = 0;
    while i < chars.len()
        invariant
            i <= chars@.len(),
            chars@ == text@,
            forall|k: int| 0 <= k < i ==> is_white_space(#[trigger] chars@[k]),
        decreases chars@.len() - i,
    {
        if !chars[i].is_whitespace() {
            return false;
        }
        i = i + 1;
    }
    true
}

/// A text is blank exactly when trimming it leaves nothing.
pub proof fn lemma_blank_is_empty_after_trim(s: Seq<char>)
    ensures
        is_blank_spec(s) == (trim_spec(s).len() == 0),
    decreases s.len(),
{
    if s.len() > 0 && is_white_space(s[0]) {
        let rest = s.subrange(1, s.len() as int);
        lemma_blank_is_empty_after_trim(rest);
        assert(is_blank_spec(s) == is_blank_spec(rest)) by {
            if is_blank_spec(rest) {
                assert forall|i: int| 0 <= i < s.len() implies is_white_space(
                    #[trigger] s[i],
                ) by {
                    if i > 0 {
                        assert(rest[i - 1] == s[i]);
                    }
                }
            }
            if is_blank_spec(s) {
                assert forall|i: int| 0 <= i < rest.len() implies is_white_space(
                    #[trigger] rest[i],
                ) by {
                    assert(rest[i] == s[i + 1]);
                }
            }
        }
    } else if s.len() > 0 {
        assert(!is_blank_spec(s)) by {
            assert(!is_white_space(s[0]));
        }
        lemma_trim_end_keeps_head(s);
    }
}

proof fn lemma_trim_end_keeps_head(s: Seq<char>)
    requires
        s.len() > 0,
        !is_white_space(s[0]),
    ensures
        trim_end_spec(s).len() > 0,
    decreases s.len(),
{
    if is_white_space(s[s.len() - 1]) {
        lemma_trim_end_keeps_head(s.subrange(0, s.len() - 1));
    }
}


// ---------------------------------------------------------------------------
// ASCII case

/// The lower-case form of an ASCII letter; any other character is kept.
pub open spec fn lower_char(c: char) -> char {
    if 'A' <= c <= 'Z' {
        (c as int + 32) as char
    } else {
        c
    }
}

/// The text with its ASCII letters in lower case.
pub open spec fn lower(s: Seq<char>) -> Seq<char> {
    s.map_values(|c: char| lower_char(c))
}

/// Whether two texts are equal up to the case of their ASCII letters.
pub open spec fn same_ignoring_case(a: Seq<char>, b: Seq<char>) -> bool {
    lower(a) == lower(b)
}

/// `char::to_ascii_lowercase` moves `A` to `Z` to lower case and keeps the rest.
pub assume_specification[ char::to_ascii_lowercase ](c: &char) -> (r: char)
    ensures
        r == lower_char(*c),
;

/// The text with its ASCII letters in lower case.
pub fn to_lower(text: &str) -> (r: String)
    ensures
        r@ == lower(text@),
{
    let chars = chars_of(text);
    let mut out = String::new();
    let mut i: usize = 0;
    while i < chars.len()
        invariant
            i <= chars@.len(),
            out@ == lower(chars@.take(i as int)),
        decreases chars@.len() - i,
    {
        out.push(chars[i].to_ascii_lowercase());
        assert(chars@.take(i + 1) =~= chars@.take(i as int).push(chars@[i as int]));
        assert(lower(chars@.take(i + 1)) =~= lower(chars@.take(i as int)).push(
            lower_char(chars@[i as int]),
        ));
        i = i + 1;
    }
    assert(chars@.take(chars@.len() as int) =~= chars@);
    out
}

/// Whether two texts are equal up to the case of their ASCII letters.
pub fn equal_ignoring_case(a: &str, b: &str) -> (r: bool)
    ensures
        r == same_ignoring_case(a@, b@),
{
    let left = to_lower(a);
    let right = to_lower(b);
    left == right
}

// ---------------------------------------------------------------------------
// numbers

/// The character of a decimal digit.
pub open spec fn digit_char(d: int) -> char {
    (48 + d) as char
}

/// The decimal digits of a natural number, without leading zeros.
pub open spec fn digits(n: nat) -> Seq<char>
    decreases n,
{
    if n < 10 {
        seq![digit_char(n as int)]
    } else {
        digits(n / 10).push(digit_char((n % 10) as int))
    }
}

/// The decimal form of an integer.
pub open spec fn decimal(n: int) -> Seq<char> {
    if n < 0 {
        seq!['-'] + digits((-n) as nat)
    } else {
        digits(n as nat)
    }
}

fn digit_of(d: u64) -> (c: char)
    requires
        d < 10,
    ensures
        c == digit_char(d as int),
{
    (48u8 + d as u8) as char
}

fn push_digits(s: &mut String, n: u64)
    ensures
        final(s)@ == old(s)@ + digits(n as nat),
    decreases n,
{
    if n >= 10 {
        push_digits(s, n / 10);
    }
    s.push(digit_of(n % 10));
    proof {
        if n < 10 {
            assert(old(s)@.push(digit_char(n as int)) =~= old(s)@ + seq![digit_char(n as int)]);
        } else {
            assert(digits(n as nat) == digits((n / 10) as nat).push(digit_char((n % 10) as int)));
        }
    }
}

/// The decimal form of an unsigned number.
pub fn u64_text(n: u64) -> (r: String)
    ensures
        r@ == decimal(n as int),
{
    let mut out = String::new();
    push_digits(&mut out, n);
    assert(Seq::<char>::empty() + digits(n as nat) =~= digits(n as nat));
    out
}

/// The decimal form of a signed number.
pub fn i64_text(n: i64) -> (r: String)
    ensures
        r@ == decimal(n as int),
{
    let mut out = String::new();
    if n < 0 {
        out.push('-');
        let magnitude: u64 = (-(n as i128)) as u64;
        push_digits(&mut out, magnitude);
        assert(out@ =~= seq!['-'] + digits((-n) as nat));
    } else {
        push_digits(&mut out, n as u64);
        assert(out@ =~= digits(n as nat));
    }
    out
}

/// Whether a character is a decimal digit.
pub open spec fn is_digit(c: char) -> bool {
    '0' <= c <= '9'
}

/// The number written by decimal digits.
pub open spec fn digits_value(s: Seq<char>) -> int
    decreases s.len(),
{
    if s.len() == 0 {
        0
    } else {
        digits_value(s.drop_last()) * 10 + (s.last() as int - 48)
    }
}

/// Whether a text is one decimal digit or more, and nothing else.
pub open spec fn all_digits(s: Seq<char>) -> bool {
    s.len() > 0 && forall|i: int| 0 <= i < s.len() ==> is_digit(#[trigger] s[i])
}

/// The text without a sign at its start.
pub open spec fn unsigned_part(s: Seq<char>) -> Seq<char> {
    if s.len() > 0 && (s[0] == '+' || s[0] == '-') {
        s.subrange(1, s.len() as int)
    } else {
        s
    }
}

/// The integer that a text writes: an optional sign, then decimal digits.
pub open spec fn integer_value(s: Seq<char>) -> Option<int> {
    if !all_digits(unsigned_part(s)) {
        None
    } else if s[0] == '-' {
        Some(-digits_value(unsigned_part(s)))
    } else {
        Some(digits_value(unsigned_part(s)))
    }
}

/// What reading a text as an `i64` gives.
pub open spec fn i64_value(s: Seq<char>) -> Option<i64> {
    match integer_value(s) {
        Some(n) => if i64::MIN <= n <= i64::MAX {
            Some(n as i64)
        } else {
            None
        },
        None => None,
    }
}

/// What reading a text as a `u64` gives: a minus sign is refused, even before zero.
pub open spec fn u64_value(s: Seq<char>) -> Option<u64> {
    match integer_value(s) {
        Some(n) => if s[0] != '-' && n <= u64::MAX {
            Some(n as u64)
        } else {
            None
        },
        None => None,
    }
}

proof fn lemma_digits_value_grows(s: Seq<char>, k: int)
    requires
        0 <= k <= s.len(),
        forall|i: int| 0 <= i < s.len() ==> is_digit(#[trigger] s[i]),
    ensures
        0 <= digits_value(s.take(k)) <= digits_value(s),
    decreases s.len(),
{
    if k == s.len() {
        assert(s.take(k) =~= s);
        if s.len() > 0 {
            let rest = s.drop_last();
            assert(rest.take(rest.len() as int) =~= rest);
            lemma_digits_value_grows(rest, rest.len() as int);
        }
    } else {
        let rest = s.drop_last();
        assert(rest.take(k) =~= s.take(k));
        lemma_digits_value_grows(rest, k);
        assert(is_digit(s[s.len() - 1]));
    }
}

/// Reads decimal digits from `from` on. `None` when the rest is empty, holds
/// another character, or writes a number above `u64::MAX`.
fn read_digits(chars: &Vec<char>, from: usize) -> (r: Option<u64>)
    requires
        from <= chars@.len(),
    ensures
        ({
            let part = chars@.subrange(from as int, chars@.len() as int);
            r == if all_digits(part) && digits_value(part) <= u64::MAX {
                Some(digits_value(part) as u64)
            } else {
                None::<u64>
            }
        }),
{
    let ghost part = chars@.subrange(from as int, chars@.len() as int);
    if from == chars.len() {
        return None;
    }
    let mut value: u64 = 0;
    let mut i: usize = from;
    let mut fits: bool = true;
    while i < chars.len()
        invariant
            from <= i <= chars@.len(),
            part == chars@.subrange(from as int, chars@.len() as int),
            forall|k: int| 0 <= k < i - from ==> is_digit(#[trigger] part[k]),
            fits ==> value == digits_value(part.take(i - from)),
            !fits ==> digits_value(part.take(i - from)) > u64::MAX,
        decreases chars@.len() - i,
    {
        let c = chars[i];
        assert(part[i - from] == c);
        if !('0' <= c && c <= '9') {
            assert(!is_digit(part[i - from]));
            return None;
        }
        let d: u64 = (c as u32 - 48) as u64;
        proof {
            assert(part.take(i - from + 1).drop_last() =~= part.take(i - from));
            assert(part.take(i - from + 1).last() == c);
        }
        if fits {
            if value > (u64::MAX - d) / 10 {
                fits = false;
            } else {
                value = value * 10 + d;
            }
        }
        i = i + 1;
    }
    assert(part.take(part.len() as int) =~= part);
    if fits {
        Some(value)
    } else {
        None
    }
}

/// Reads a text as an `i64`.
pub fn parse_i64(text: &str) -> (r: Option<i64>)
    ensures
        r == i64_value(text@),
{
    let chars = chars_of(text);
    if chars.len() == 0 {
        return None;
    }
    assert(chars@.subrange(0, chars@.len() as int) =~= chars@);
    let negative = chars[0] == '-';
    let from: usize = if negative || chars[0] == '+' {
        1
    } else {
        0
    };
    proof {
        let part = chars@.subrange(from as int, chars@.len() as int);
        assert(part == unsigned_part(text@));
        if all_digits(part) {
            lemma_digits_value_grows(part, 0);
        }
    }
    match read_digits(&chars, from) {
        None => None,
        Some(magnitude) => {
            if negative {
                if magnitude <= 9223372036854775808u64 {
                    Some((-(magnitude as i128)) as i64)
                } else {
                    None
                }
            } else if magnitude <= 9223372036854775807u64 {
                Some(magnitude as i64)
            } else {
                None
            }
        },
    }
}

/// Reads a text as a `u64`.
pub fn parse_u64(text: &str) -> (r: Option<u64>)
    ensures
        r == u64_value(text@),
{
    let chars = chars_of(text);
    if chars.len() == 0 {
        return None;
    }
    assert(chars@.subrange(0, chars@.len() as int) =~= chars@);
    if chars[0] == '-' {
        return None;
    }
    let from: usize = if chars[0] == '+' {
        1
    } else {
        0
    };
    assert(chars@.subrange(from as int, chars@.len() as int) == unsigned_part(text@));
    read_digits(&chars, from)
}


proof fn lemma_digits_read_back(n: nat)
    ensures
        all_digits(digits(n)),
        digits_value(digits(n)) == n,
    decreases n,
{
    if n < 10 {
        let s = digits(n);
        assert(s.drop_last() =~= Seq::<char>::empty());
        assert(digits_value(s) == digits_value(s.drop_last()) * 10 + (s.last() as int - 48));
    } else {
        lemma_digits_read_back(n / 10);
        let s = digits(n);
        assert(s.drop_last() =~= digits(n / 10));
    }
}

/// Reading the decimal form of an `i64` gives the number back.
pub proof fn law_decimal_reads_back(n: i64)
    ensures
        i64_value(decimal(n as int)) == Some(n),
{
    if n < 0 {
        lemma_digits_read_back((-n) as nat);
        assert(unsigned_part(decimal(n as int)) =~= digits((-n) as nat));
    } else {
        lemma_digits_read_back(n as nat);
        assert(is_digit(digits(n as nat)[0]));
    }
}

// ---------------------------------------------------------------------------
// replacing, splitting and joining

/// The text with each occurrence of `pattern`, taken from left to right and not
/// overlapping, replaced by `with`.
pub open spec fn replaced(s: Seq<char>, pattern: Seq<char>, with: Seq<char>) -> Seq<char>
    decreases s.len(),
{
    if s.len() == 0 || pattern.len() == 0 {
        s
    } else if has_prefix(s, pattern) {
        with + replaced(s.subrange(pattern.len() as int, s.len() as int), pattern, with)
    } else {
        seq![s[0]] + replaced(s.subrange(1, s.len() as int), pattern, with)
    }
}

/// The text with each occurrence of a pattern replaced.
pub fn replace(text: &str, pattern: &str, with: &str) -> (r: String)
    requires
        pattern@.len() > 0,
    ensures
        r@ == replaced(text@, pattern@, with@),
{
    let chars = chars_of(text);
    let needle = chars_of(pattern);
    let mut out = String::new();
    let mut i: usize = 0;
    assert(chars@.subrange(0, chars@.len() as int) =~= chars@);
    assert(out@ + replaced(chars@, needle@, with@) =~= replaced(chars@, needle@, with@));
    while i < chars.len()
        invariant
            i <= chars.len(),
            needle@.len() > 0,
            out@ + replaced(
                chars@.subrange(i as int, chars@.len() as int),
                needle@,
                with@,
            ) == replaced(chars@, needle@, with@),
        decreases chars@.len() - i,
    {
        let ghost rest = chars@.subrange(i as int, chars@.len() as int);
        let ghost before = out@;
        if matches_at(&chars, &needle, i) {
            proof {
                assert(rest.subrange(0, needle@.len() as int) =~= chars@.subrange(
                    i as int,
                    i + needle@.len(),
                ));
                assert(rest.subrange(needle@.len() as int, rest.len() as int) =~= chars@.subrange(
                    i + needle@.len(),
                    chars@.len() as int,
                ));
            }
            out.append(with);
            i = i + needle.len();
            assert(before + (with@ + replaced(
                chars@.subrange(i as int, chars@.len() as int),
                needle@,
                with@,
            )) =~= out@ + replaced(
                chars@.subrange(i as int, chars@.len() as int),
                needle@,
                with@,
            ));
        } else {
            proof {
                if has_prefix(rest, needle@) {
                    assert(rest.subrange(0, needle@.len() as int) =~= chars@.subrange(
                        i as int,
                        i + needle@.len(),
                    ));
                }
                assert(rest.subrange(1, rest.len() as int) =~= chars@.subrange(
                    i + 1,
                    chars@.len() as int,
                ));
            }
            out.push(chars[i]);
            i = i + 1;
            assert(before + (seq![rest[0]] + replaced(
                chars@.subrange(i as int, chars@.len() as int),
                needle@,
                with@,
            )) =~= out@ + replaced(
                chars@.subrange(i as int, chars@.len() as int),
                needle@,
                with@,
            ));
        }
    }
    assert(chars@.subrange(i as int, chars@.len() as int).len() == 0);
    assert(out@ + chars@.subrange(i as int, chars@.len() as int) =~= out@);
    out
}

/// The parts of the text between separators; a text without one is one part.
pub open spec fn split_spec(s: Seq<char>, sep: char) -> Seq<Seq<char>>
    decreases s.len(),
{
    match index_of_char(s, sep, 0) {
        None => seq![s],
        Some(i) => if 0 <= i < s.len() {
            seq![s.subrange(0, i)] + split_spec(s.subrange(i + 1, s.len() as int), sep)
        } else {
            seq![s]
        },
    }
}

/// Looking for a character in a suffix is looking for it from the suffix on.
pub proof fn lemma_index_of_char_suffix(s: Seq<char>, c: char, start: int, from: int)
    requires
        0 <= start <= s.len(),
        0 <= from,
    ensures
        index_of_char(s.subrange(start, s.len() as int), c, from) == (match index_of_char(
            s,
            c,
            start + from,
        ) {
            Some(i) => Some(i - start),
            None => None,
        }),
    decreases s.len() - start - from,
{
    let t = s.subrange(start, s.len() as int);
    if from < t.len() && t[from] != c {
        lemma_index_of_char_suffix(s, c, start, from + 1);
    }
}

/// A view of a vector of strings as a sequence of texts.
pub open spec fn texts(v: Seq<String>) -> Seq<Seq<char>> {
    v.map_values(|s: String| s@)
}

/// Splits a text at a separator.
pub fn split(text: &str, sep: char) -> (r: Vec<String>)
    ensures
        texts(r@) == split_spec(text@, sep),
{
    let chars = chars_of(text);
    let mut out: Vec<String> = Vec::new();
    let mut start: usize = 0;
    assert(chars@.subrange(0, chars@.len() as int) =~= chars@);
    assert(texts(out@) + split_spec(chars@, sep) =~= split_spec(chars@, sep));
    loop
        invariant
            start <= chars@.len(),
            chars@ == text@,
            texts(out@) + split_spec(chars@.subrange(start as int, chars@.len() as int), sep)
                == split_spec(text@, sep),
        decreases chars@.len() - start,
    {
        let ghost rest = chars@.subrange(start as int, chars@.len() as int);
        let ghost before = out@;
        proof {
            lemma_index_of_char_suffix(chars@, sep, start as int, 0);
        }
        let n: usize = chars.len();
        match find_char(&chars, sep, start) {
            Some(i) => {
                assert(i < n);
                out.push(string_of(&chars, start, i));
                proof {
                    assert(rest.subrange(0, i - start) =~= chars@.subrange(start as int, i as int));
                    assert(rest.subrange(i - start + 1, rest.len() as int) =~= chars@.subrange(
                        i + 1,
                        chars@.len() as int,
                    ));
                    assert(texts(out@) =~= texts(before).push(rest.subrange(0, i - start)));
                    let tail = split_spec(chars@.subrange(i + 1, chars@.len() as int), sep);
                    assert(texts(before) + (seq![rest.subrange(0, i - start)] + tail) =~= texts(
                        out@,
                    ) + tail);
                }
                start = i + 1;
            },
            None => {
                out.push(string_of(&chars, start, chars.len()));
                assert(texts(out@) =~= texts(before) + seq![rest]);
                return out;
            },
        }
    }
}

/// The texts one after another with `sep` between two of them.
pub open spec fn joined(parts: Seq<Seq<char>>, sep: Seq<char>) -> Seq<char>
    decreases parts.len(),
{
    if parts.len() == 0 {
        Seq::empty()
    } else if parts.len() == 1 {
        parts[0]
    } else {
        joined(parts.drop_last(), sep) + sep + parts.last()
    }
}

/// Joins texts with a separator.
pub fn join(parts: &Vec<String>, sep: &str) -> (r: String)
    ensures
        r@ == joined(texts(parts@), sep@),
{
    let mut out = String::new();
    let mut i: usize = 0;
    while i < parts.len()
        invariant
            i <= parts@.len(),
            out@ == joined(texts(parts@.take(i as int)), sep@),
        decreases parts@.len() - i,
    {
        let ghost before = texts(parts@.take(i as int));
        let ghost after = texts(parts@.take(i + 1));
        assert(after =~= before.push(parts@[i as int]@));
        assert(after.drop_last() =~= before);
        if i > 0 {
            out.append(sep);
        }
        out.append(parts[i].as_str());
        proof {
            if i == 0 {
                assert(out@ =~= parts@[0]@);
            }
        }
        i = i + 1;
    }
    assert(parts@.take(parts@.len() as int) =~= parts@);
    out
}

/// Whether two texts are equal.
pub fn same(a: &str, b: &str) -> (r: bool)
    ensures
        r == (a@ == b@),
{
    a.eq(b)
}

/// Whether a text is one of the texts in a list.
pub open spec fn lists(v: Seq<String>, text: Seq<char>) -> bool {
    exists|i: int| 0 <= i < v.len() && (#[trigger] v[i])@ == text
}

/// Tests whether a list holds a text.
pub fn contains_text(v: &Vec<String>, text: &str) -> (r: bool)
    ensures
        r == lists(v@, text@),
{
    let mut i: usize = 0;
    while i < v.len()
        invariant
            i <= v@.len(),
            forall|k: int| 0 <= k < i ==> (#[trigger] v@[k])@ != text@,
        decreases v@.len() - i,
    {
        if same(v[i].as_str(), text) {
            return true;
        }
        i = i + 1;
    }
    false
}

/// A copy of a list of texts.
pub fn copy_texts(v: &Vec<String>) -> (r: Vec<String>)
    ensures
        r@ == v@,
{
    let mut out: Vec<String> = Vec::new();
    let mut i: usize = 0;
    while i < v.len()
        invariant
            i <= v@.len(),
            out@ == v@.take(i as int),
        decreases v@.len() - i,
    {
        out.push(v[i].clone());
        i = i + 1;
    }
    out
}

/// A string holding the text.
pub fn owned(text: &str) -> (r: String)
    ensures
        r@ == text@,
{
    text.to_owned()
}


// ---------------------------------------------------------------------------
// lines

/// A line without the carriage return at its end.
pub open spec fn without_return(s: Seq<char>) -> Seq<char> {
    if s.len() > 0 && s.last() == '\r' {
        s.drop_last()
    } else {
        s
    }
}

/// The lines of a text. A line ends with a line feed, or a carriage return and a
/// line feed; the last line need not end.
pub open spec fn lines_spec(s: Seq<char>) -> Seq<Seq<char>>
    decreases s.len(),
{
    if s.len() == 0 {
        Seq::empty()
    } else {
        match index_of_char(s, '\n', 0) {
            None => seq![s],
            Some(i) => if 0 <= i < s.len() {
                seq![without_return(s.subrange(0, i))] + lines_spec(
                    s.subrange(i + 1, s.len() as int),
                )
            } else {
                seq![s]
            },
        }
    }
}

/// The lines of a text.
pub fn lines(text: &str) -> (r: Vec<String>)
    ensures
        texts(r@) == lines_spec(text@),
{
    let chars = chars_of(text);
    let n: usize = chars.len();
    let mut out: Vec<String> = Vec::new();
    let mut start: usize = 0;
    assert(chars@.subrange(0, chars@.len() as int) =~= chars@);
    assert(texts(out@) + lines_spec(chars@) =~= lines_spec(chars@));
    while start < n
        invariant
            start <= n,
            n == chars@.len(),
            texts(out@) + lines_spec(chars@.subrange(start as int, n as int)) == lines_spec(
                chars@,
            ),
        decreases n - start,
    {
        let ghost rest = chars@.subrange(start as int, n as int);
        let ghost before = out@;
        proof {
            lemma_index_of_char_suffix(chars@, '\n', start as int, 0);
        }
        match find_char(&chars, '\n', start) {
            Some(i) => {
                let end: usize = if i > start && chars[i - 1] == '\r' {
                    i - 1
                } else {
                    i
                };
                out.push(string_of(&chars, start, end));
                proof {
                    let line = rest.subrange(0, i - start);
                    assert(line =~= chars@.subrange(start as int, i as int));
                    assert(without_return(line) =~= chars@.subrange(start as int, end as int));
                    assert(rest.subrange(i - start + 1, rest.len() as int) =~= chars@.subrange(
                        i + 1,
                        n as int,
                    ));
                    assert(texts(out@) =~= texts(before).push(without_return(line)));
                    let tail = lines_spec(chars@.subrange(i + 1, n as int));
                    assert(texts(before) + (seq![without_return(line)] + tail) =~= texts(out@)
                        + tail);
                }
                start = i + 1;
            },
            None => {
                out.push(string_of(&chars, start, n));
                proof {
                    assert(texts(out@) =~= texts(before) + seq![rest]);
                    assert(chars@.subrange(n as int, n as int).len() == 0);
                    assert(texts(out@) + lines_spec(chars@.subrange(n as int, n as int))
                        =~= texts(out@));
                }
                start = n;
            },
        }
    }
    assert(chars@.subrange(n as int, n as int).len() == 0);
    assert(texts(out@) + lines_spec(chars@.subrange(n as int, n as int)) =~= texts(out@));
    out
}

/// The text without the line feeds at its end.
pub open spec fn without_final_feeds(s: Seq<char>) -> Seq<char>
    decreases s.len(),
{
    if s.len() > 0 && s.last() == '\n' {
        without_final_feeds(s.drop_last())
    } else {
        s
    }
}

/// The text without the line feeds at its end.
pub fn trim_final_feeds(text: &str) -> (r: String)
    ensures
        r@ == without_final_feeds(text@),
{
    let chars = chars_of(text);
    let mut to: usize = chars.len();
    assert(chars@.subrange(0, to as int) =~= chars@);
    while to > 0 && chars[to - 1] == '\n'
        invariant
            to <= chars@.len(),
            without_final_feeds(chars@) == without_final_feeds(chars@.subrange(0, to as int)),
        decreases to,
    {
        assert(chars@.subrange(0, to as int).drop_last() =~= chars@.subrange(0, to - 1));
        to = to - 1;
    }
    string_of(&chars, 0, to)
}

/// The decimal forms of some numbers.
pub open spec fn decimals(v: Seq<i64>) -> Seq<Seq<char>> {
    v.map_values(|n: i64| decimal(n as int))
}

/// Numbers in square brackets, with a comma and a space between two of them.
pub open spec fn int_list_text(v: Seq<i64>) -> Seq<char> {
    "["@ + joined(decimals(v), ", "@) + "]"@
}

/// Numbers in square brackets, with a comma and a space between two of them.
pub fn format_ints(v: &Vec<i64>) -> (r: String)
    ensures
        r@ == int_list_text(v@),
{
    let mut parts: Vec<String> = Vec::new();
    let mut i: usize = 0;
    while i < v.len()
        invariant
            i <= v@.len(),
            parts@.len() == i,
            forall|k: int| 0 <= k < i ==> (#[trigger] parts@[k])@ == decimal(v@[k] as int),
        decreases v@.len() - i,
    {
        parts.push(i64_text(v[i]));
        i = i + 1;
    }
    assert(texts(parts@) =~= decimals(v@));
    let mut out = owned("[");
    out.append(join(&parts, ", ").as_str());
    out.append("]");
    out
}

// ---------------------------------------------------------------------------
// what can be read out of a text

/// The decimal form of a number has digits only, but for the sign of a negative one, and
/// ends with a digit.
pub proof fn lemma_decimal_characters(n: int)
    ensures
        decimal(n).len() > 0,
        is_digit(decimal(n).last()),
        forall|i: int|
            0 <= i < decimal(n).len() ==> is_digit(#[trigger] decimal(n)[i]) || (i == 0 && n < 0
                && decimal(n)[i] == '-'),
{
    if n < 0 {
        lemma_digits_read_back((-n) as nat);
        let part = digits((-n) as nat);
        assert forall|i: int| 0 < i < decimal(n).len() implies is_digit(#[trigger] decimal(n)[i]) by {
            assert(decimal(n)[i] == part[i - 1]);
            assert(is_digit(part[i - 1]));
        }
        assert(decimal(n).last() == part[part.len() - 1]);
    } else {
        lemma_digits_read_back(n as nat);
    }
}

/// The decimal forms of two integers are the same just where the integers are.
pub proof fn law_decimals_tell_numbers_apart(a: int, b: int)
    ensures
        decimal(a) == decimal(b) <==> a == b,
{
    if decimal(a) == decimal(b) {
        lemma_decimal_characters(a);
        lemma_decimal_characters(b);
        if a < 0 {
            lemma_digits_read_back((-a) as nat);
            assert(decimal(a)[0] == '-');
            assert(b < 0) by {
                if b >= 0 {
                    assert(is_digit(decimal(b)[0]));
                }
            }
            lemma_digits_read_back((-b) as nat);
            assert(decimal(a).subrange(1, decimal(a).len() as int) =~= digits((-a) as nat));
            assert(decimal(b).subrange(1, decimal(b).len() as int) =~= digits((-b) as nat));
        } else {
            lemma_digits_read_back(a as nat);
            assert(is_digit(decimal(a)[0]));
            if b < 0 {
                assert(decimal(b)[0] == '-');
            }
            lemma_digits_read_back(b as nat);
        }
    }
}

/// The text between the start and a character that it does not hold can be read out.
pub proof fn lemma_split_at_first(p: Seq<char>, c: char, x: Seq<char>, q: Seq<char>, y: Seq<char>)
    requires
        p + seq![c] + x == q + seq![c] + y,
        !p.contains(c),
        !q.contains(c),
    ensures
        p == q,
        x == y,
{
    let one = p + seq![c] + x;
    let other = q + seq![c] + y;
    assert(one[p.len() as int] == c);
    assert(other[q.len() as int] == c);
    if p.len() < q.len() {
        assert(q[p.len() as int] == other[p.len() as int]);
        assert(q.contains(c));
    }
    if q.len() < p.len() {
        assert(p[q.len() as int] == one[q.len() as int]);
        assert(p.contains(c));
    }
    assert(p =~= one.take(p.len() as int));
    assert(q =~= other.take(q.len() as int));
    assert(x =~= one.skip((p.len() + 1) as int));
    assert(y =~= other.skip((q.len() + 1) as int));
}

/// The text between a character that it does not hold and the end can be read out.
pub proof fn lemma_split_at_last(x: Seq<char>, c: char, p: Seq<char>, y: Seq<char>, q: Seq<char>)
    requires
        x + seq![c] + p == y + seq![c] + q,
        !p.contains(c),
        !q.contains(c),
    ensures
        p == q,
        x == y,
{
    let one = x + seq![c] + p;
    let other = y + seq![c] + q;
    assert(one.len() == x.len() + 1 + p.len());
    assert(other.len() == y.len() + 1 + q.len());
    assert(one[x.len() as int] == c);
    assert(other[y.len() as int] == c);
    assert(p =~= one.skip((x.len() + 1) as int));
    assert(q =~= other.skip((y.len() + 1) as int));
    if x.len() < y.len() {
        let k = y.len() - x.len() - 1;
        assert(p[k] == one[x.len() + 1 + k]);
        assert(p[k] == c);
    }
    if y.len() < x.len() {
        let k = x.len() - y.len() - 1;
        assert(q[k] == other[y.len() + 1 + k]);
        assert(q[k] == c);
    }
    assert(x =~= one.take(x.len() as int));
    assert(y =~= other.take(y.len() as int));
}

/// What stands before the same end can be read out.
pub proof fn lemma_same_end(x: Seq<char>, y: Seq<char>, end: Seq<char>)
    requires
        x + end == y + end,
    ensures
        x == y,
{
    assert((x + end).len() == (y + end).len());
    assert(x =~= (x + end).take(x.len() as int));
    assert(y =~= (y + end).take(y.len() as int));
}

/// What stands behind the same start can be read out.
pub proof fn lemma_same_start(start: Seq<char>, x: Seq<char>, y: Seq<char>)
    requires
        start + x == start + y,
    ensures
        x == y,
{
    assert((start + x).len() == (start + y).len());
    assert(x =~= (start + x).skip(start.len() as int));
    assert(y =~= (start + y).skip(start.len() as int));
}

proof fn lemma_joined_decimals_hold(v: Seq<i64>, c: char)
    requires
        !is_digit(c),
        c != '-' && c != ',' && c != ' ',
    ensures
        !joined(decimals(v), ", "@).contains(c),
    decreases v.len(),
{
    reveal_strlit(", ");
    let text = joined(decimals(v), ", "@);
    if v.len() == 1 {
        lemma_decimal_characters(v[0] as int);
        assert(decimals(v)[0] == decimal(v[0] as int));
    } else if v.len() > 1 {
        let head = v.drop_last();
        assert(decimals(v).drop_last() =~= decimals(head));
        lemma_joined_decimals_hold(head, c);
        lemma_decimal_characters(v.last() as int);
        let before = joined(decimals(head), ", "@);
        let last = decimal(v.last() as int);
        assert(text == before + ", "@ + last);
        assert forall|i: int| 0 <= i < text.len() implies text[i] != c by {
            if i < before.len() {
                assert(before[i] == text[i]);
            } else if i < before.len() + 2 {
                assert(text[i] == ", "@[i - before.len()]);
            } else {
                assert(text[i] == last[i - before.len() - 2]);
            }
        }
    }
}

proof fn lemma_joined_decimals(a: Seq<i64>, b: Seq<i64>)
    requires
        joined(decimals(a), ", "@) == joined(decimals(b), ", "@),
    ensures
        a == b,
    decreases a.len(),
{
    reveal_strlit(", ");
    if a.len() > 0 {
        lemma_decimal_characters(a.last() as int);
    }
    if b.len() > 0 {
        lemma_decimal_characters(b.last() as int);
    }
    assert(decimals(a).len() == a.len() && decimals(b).len() == b.len());
    if a.len() == 0 || b.len() == 0 {
        assert(a.len() == 0 && b.len() == 0);
        assert(a =~= b);
    } else {
        let last_a = decimal(a.last() as int);
        let last_b = decimal(b.last() as int);
        assert(decimals(a).last() == last_a && decimals(b).last() == last_b);
        assert(!last_a.contains(' ') && !last_b.contains(' '));
        assert(decimals(a).drop_last() =~= decimals(a.drop_last()));
        assert(decimals(b).drop_last() =~= decimals(b.drop_last()));
        let head_a = joined(decimals(a.drop_last()), ", "@);
        let head_b = joined(decimals(b.drop_last()), ", "@);
        if a.len() > 1 {
            assert(head_a + ", "@ + last_a =~= head_a + seq![','] + seq![' '] + last_a);
        }
        if b.len() > 1 {
            assert(head_b + ", "@ + last_b =~= head_b + seq![','] + seq![' '] + last_b);
        }
        if a.len() == 1 && b.len() > 1 {
            let whole = head_b + seq![','] + seq![' '] + last_b;
            assert(whole[(head_b.len() + 1) as int] == ' ');
            assert(last_a[(head_b.len() + 1) as int] == ' ');
        } else if a.len() > 1 && b.len() == 1 {
            let whole = head_a + seq![','] + seq![' '] + last_a;
            assert(whole[(head_a.len() + 1) as int] == ' ');
            assert(last_b[(head_a.len() + 1) as int] == ' ');
        } else if a.len() > 1 {
            lemma_split_at_last(head_a + seq![','], ' ', last_a, head_b + seq![','], last_b);
            lemma_same_end(head_a, head_b, seq![',']);
            lemma_joined_decimals(a.drop_last(), b.drop_last());
        }
        law_decimals_tell_numbers_apart(a.last() as int, b.last() as int);
        assert(a =~= a.drop_last().push(a.last()));
        assert(b =~= b.drop_last().push(b.last()));
        if a.len() == 1 {
            assert(a.drop_last() =~= b.drop_last());
        }
    }
}

/// A list of numbers can be read out of its text, whatever follows it.
pub proof fn law_lists_of_numbers_read_back(
    a: Seq<i64>,
    rest_a: Seq<char>,
    b: Seq<i64>,
    rest_b: Seq<char>,
)
    requires
        int_list_text(a) + rest_a == int_list_text(b) + rest_b,
    ensures
        a == b,
        rest_a == rest_b,
{
    reveal_strlit("[");
    reveal_strlit("]");
    let inner_a = joined(decimals(a), ", "@);
    let inner_b = joined(decimals(b), ", "@);
    lemma_joined_decimals_hold(a, ']');
    lemma_joined_decimals_hold(b, ']');
    assert(int_list_text(a) + rest_a =~= seq!['['] + (inner_a + seq![']'] + rest_a));
    assert(int_list_text(b) + rest_b =~= seq!['['] + (inner_b + seq![']'] + rest_b));
    lemma_same_start(seq!['['], inner_a + seq![']'] + rest_a, inner_b + seq![']'] + rest_b);
    lemma_split_at_first(inner_a, ']', rest_a, inner_b, rest_b);
    lemma_joined_decimals(a, b);
}

/// A number can be read out at the end of a text, behind a mark that ends with a space.
pub proof fn lemma_number_at_the_end(
    x: Seq<char>,
    a: int,
    y: Seq<char>,
    b: int,
    mark: Seq<char>,
)
    requires
        x + mark + decimal(a) == y + mark + decimal(b),
        mark.len() > 0,
        mark.last() == ' ',
    ensures
        x == y,
        a == b,
{
    lemma_decimal_characters(a);
    lemma_decimal_characters(b);
    lemma_word_at_the_end(x, decimal(a), y, decimal(b), mark);
    law_decimals_tell_numbers_apart(a, b);
}

/// A word can be read out at the end of a text, behind a mark that ends with a space.
pub proof fn lemma_word_at_the_end(
    x: Seq<char>,
    a: Seq<char>,
    y: Seq<char>,
    b: Seq<char>,
    mark: Seq<char>,
)
    requires
        x + mark + a == y + mark + b,
        mark.len() > 0,
        mark.last() == ' ',
        !a.contains(' '),
        !b.contains(' '),
    ensures
        x == y,
        a == b,
{
    let head = mark.drop_last();
    assert(x + mark + a =~= (x + head) + seq![' '] + a);
    assert(y + mark + b =~= (y + head) + seq![' '] + b);
    lemma_split_at_last(x + head, ' ', a, y + head, b);
    lemma_same_end(x, y, head);
}

/// The decimal form of a number keeps its place under trimming: there is no white space
/// in it.
pub proof fn lemma_decimal_is_trimmed(n: int)
    ensures
        trim_spec(decimal(n)) == decimal(n),
{
    lemma_decimal_characters(n);
    let s = decimal(n);
    assert(is_digit(s[0]) || s[0] == '-');
    assert(is_digit(s[s.len() - 1]));
}

/// Whether a text holds another.
pub open spec fn holds(text: Seq<char>, part: Seq<char>) -> bool {
    exists|before: Seq<char>, after: Seq<char>| text == #[trigger] ((before + part) + after)
}

pub proof fn lemma_holds(before: Seq<char>, part: Seq<char>, after: Seq<char>)
    ensures
        holds(before + part + after, part),
{
}

pub proof fn lemma_holds_within(text: Seq<char>, part: Seq<char>, inner: Seq<char>)
    requires
        holds(text, part),
        holds(part, inner),
    ensures
        holds(text, inner),
{
    let (b1, a1) = choose|b1: Seq<char>, a1: Seq<char>| text == #[trigger] ((b1 + part) + a1);
    let (b2, a2) = choose|b2: Seq<char>, a2: Seq<char>| part == #[trigger] ((b2 + inner) + a2);
    assert(b1 + (b2 + inner + a2) + a1 =~= (b1 + b2) + inner + (a2 + a1));
}

/// A text with another behind it holds that one and all that it held before.
pub proof fn lemma_holds_on(text: Seq<char>, next: Seq<char>, parts: Seq<Seq<char>>)
    requires
        forall|i: int| 0 <= i < parts.len() ==> holds(text, #[trigger] parts[i]),
    ensures
        forall|i: int| 0 <= i < parts.len() + 1 ==> holds(text + next, #[trigger] parts.push(next)[i]),
{
    let none = Seq::<char>::empty();
    assert(text + next =~= text + next + none);
    assert(text + next =~= none + text + next);
    lemma_holds(text, next, none);
    lemma_holds(none, text, next);
    assert forall|i: int| 0 <= i < parts.len() + 1 implies holds(
        text + next,
        #[trigger] parts.push(next)[i],
    ) by {
        if i < parts.len() {
            assert(parts.push(next)[i] == parts[i]);
            lemma_holds_within(text + next, text, parts[i]);
        }
    }
}

// ---------------------------------------------------------------------------
// small letters of all scripts

/// A text in small letters, whatever its script.
pub uninterp spec fn lowercased(text: Seq<char>) -> Seq<char>;

/// `str::to_lowercase`: the text in small letters by the Unicode tables. The result
/// depends on the text alone; which letters the tables map is not stated.
#[verifier::external_body]
pub(crate) fn to_lowercase(text: &str) -> (r: String)
    ensures
        r@ == lowercased(text@),
{
    text.to_lowercase()
}

// ---------------------------------------------------------------------------
// laws

proof fn lemma_trim_start(s: Seq<char>) -> (from: int)
    ensures
        0 <= from <= s.len(),
        trim_start_spec(s) == s.subrange(from, s.len() as int),
        forall|i: int| 0 <= i < from ==> is_white_space(#[trigger] s[i]),
        from < s.len() ==> !is_white_space(s[from]),
    decreases s.len(),
{
    if s.len() > 0 && is_white_space(s[0]) {
        let rest = s.subrange(1, s.len() as int);
        let from = lemma_trim_start(rest);
        assert(rest.subrange(from, rest.len() as int) =~= s.subrange(from + 1, s.len() as int));
        assert forall|i: int| 0 <= i < from + 1 implies is_white_space(#[trigger] s[i]) by {
            if i > 0 {
                assert(s[i] == rest[i - 1]);
            }
        }
        if from < rest.len() {
            assert(s[from + 1] == rest[from]);
        }
        from + 1
    } else {
        assert(s.subrange(0, s.len() as int) =~= s);
        0
    }
}

proof fn lemma_trim_end(s: Seq<char>) -> (to: int)
    ensures
        0 <= to <= s.len(),
        trim_end_spec(s) == s.subrange(0, to),
        forall|i: int| to <= i < s.len() ==> is_white_space(#[trigger] s[i]),
        to > 0 ==> !is_white_space(s[to - 1]),
    decreases s.len(),
{
    if s.len() > 0 && is_white_space(s[s.len() - 1]) {
        let rest = s.subrange(0, s.len() - 1);
        let to = lemma_trim_end(rest);
        assert(rest.subrange(0, to) =~= s.subrange(0, to));
        assert forall|i: int| to <= i < s.len() implies is_white_space(#[trigger] s[i]) by {
            if i < rest.len() {
                assert(s[i] == rest[i]);
            }
        }
        if to > 0 {
            assert(s[to - 1] == rest[to - 1]);
        }
        to
    } else {
        assert(s.subrange(0, s.len() as int) =~= s);
        s.len() as int
    }
}

/// Trimming takes white space off the two ends and nothing else: what is left neither
/// begins nor ends with any.
pub proof fn law_trimming_takes_white_space_off_the_ends(s: Seq<char>) -> (ends: (int, int))
    ensures
        0 <= ends.0 <= ends.1 <= s.len(),
        trim_spec(s) == s.subrange(ends.0, ends.1),
        forall|i: int| 0 <= i < ends.0 || ends.1 <= i < s.len() ==> is_white_space(#[trigger] s[i]),
        ends.0 < ends.1 ==> !is_white_space(s[ends.0]) && !is_white_space(s[ends.1 - 1]),
{
    let from = lemma_trim_start(s);
    let start = trim_start_spec(s);
    let to = lemma_trim_end(start);
    assert(start.subrange(0, to) =~= s.subrange(from, from + to));
    assert forall|i: int| from + to <= i < s.len() implies is_white_space(#[trigger] s[i]) by {
        assert(s[i] == start[i - from]);
    }
    if to > 0 {
        assert(start[to - 1] == s[from + to - 1]);
        assert(start[0] == s[from]);
    }
    (from, from + to)
}

/// A text is blank just where trimming it leaves nothing.
pub proof fn law_blank_texts_are_trimmed_away(s: Seq<char>)
    ensures
        is_blank_spec(s) <==> trim_spec(s).len() == 0,
{
    let ends = law_trimming_takes_white_space_off_the_ends(s);
    if trim_spec(s).len() == 0 {
        assert forall|i: int| 0 <= i < s.len() implies is_white_space(#[trigger] s[i]) by {}
    } else {
        assert(!is_white_space(s[ends.0]));
    }
}

/// Small letters stay as they are, great ones become small, and the case of letters is
/// all in which equal texts may differ.
pub proof fn law_case_is_all_that_differs(a: Seq<char>, b: Seq<char>)
    ensures
        lower(lower(a)) == lower(a),
        lower(a).len() == a.len(),
        same_ignoring_case(a, b) ==> a.len() == b.len() && forall|i: int|
            0 <= i < a.len() ==> #[trigger] a[i] == b[i] || (('A' <= a[i] <= 'Z' || 'A' <= b[i]
                <= 'Z') && (a[i] as int - b[i] as int == 32 || b[i] as int - a[i] as int == 32)),
        same_ignoring_case(a, lower(a)),
{
    assert(lower(lower(a)) =~= lower(a));
    if same_ignoring_case(a, b) {
        assert(lower(a).len() == lower(b).len());
        assert forall|i: int| 0 <= i < a.len() implies #[trigger] a[i] == b[i] || (('A' <= a[i]
            <= 'Z' || 'A' <= b[i] <= 'Z') && (a[i] as int - b[i] as int == 32 || b[i] as int
            - a[i] as int == 32)) by {
            assert(lower(a)[i] == lower_char(a[i]));
            assert(lower(b)[i] == lower_char(b[i]));
        }
    }
}

proof fn lemma_joined_from_the_front(first: Seq<char>, rest: Seq<Seq<char>>, sep: Seq<char>)
    requires
        rest.len() > 0,
    ensures
        joined(seq![first] + rest, sep) == first + sep + joined(rest, sep),
    decreases rest.len(),
{
    let all = seq![first] + rest;
    if rest.len() == 1 {
        assert(all.drop_last() =~= seq![first]);
        assert(joined(seq![first], sep) == first);
    } else {
        lemma_joined_from_the_front(first, rest.drop_last(), sep);
        assert(all.drop_last() =~= seq![first] + rest.drop_last());
        assert(first + sep + joined(rest.drop_last(), sep) + sep + rest.last() =~= first + sep + (
        joined(rest.drop_last(), sep) + sep + rest.last()));
    }
}

proof fn lemma_first_index(s: Seq<char>, c: char, from: int)
    requires
        0 <= from,
    ensures
        match index_of_char(s, c, from) {
            Some(i) => from <= i < s.len() && s[i] == c && forall|k: int|
                from <= k < i ==> s[k] != c,
            None => forall|k: int| from <= k < s.len() ==> s[k] != c,
        },
    decreases s.len() - from,
{
    if from < s.len() && s[from] != c {
        lemma_first_index(s, c, from + 1);
    }
}

/// What is split is put together again, and no part holds the separator.
pub proof fn law_parts_make_up_the_text(s: Seq<char>, sep: char)
    ensures
        split_spec(s, sep).len() > 0,
        joined(split_spec(s, sep), seq![sep]) == s,
        forall|i: int| 0 <= i < split_spec(s, sep).len() ==> !(#[trigger] split_spec(s, sep)[i]).contains(sep),
    decreases s.len(),
{
    lemma_first_index(s, sep, 0);
    match index_of_char(s, sep, 0) {
        None => {
            assert(split_spec(s, sep) == seq![s]);
        },
        Some(i) => {
            let head = s.subrange(0, i);
            let tail = s.subrange(i + 1, s.len() as int);
            law_parts_make_up_the_text(tail, sep);
            let rest = split_spec(tail, sep);
            lemma_joined_from_the_front(head, rest, seq![sep]);
            assert(head + seq![sep] + tail =~= s);
            assert forall|k: int| 0 <= k < split_spec(s, sep).len() implies !(
            #[trigger] split_spec(s, sep)[k]).contains(sep) by {
                if k == 0 {
                    assert(split_spec(s, sep)[0] == head);
                } else {
                    assert(split_spec(s, sep)[k] == rest[k - 1]);
                }
            }
        },
    }
}

/// A line that ends is a line without its end, and the lines after it follow; no line
/// holds a line feed.
pub proof fn law_lines_end_at_line_feeds(line: Seq<char>, rest: Seq<char>)
    requires
        !line.contains('\n'),
        line.len() == 0 || line.last() != '\r',
    ensures
        lines_spec(line + seq!['\n'] + rest) == seq![line] + lines_spec(rest),
        lines_spec(line + seq!['\r', '\n'] + rest) == seq![line] + lines_spec(rest),
        line.len() > 0 ==> lines_spec(line) == seq![line],
{
    let one = line + seq!['\n'] + rest;
    lemma_first_index(one, '\n', 0);
    assert(one[line.len() as int] == '\n');
    assert forall|i: int| 0 <= i < line.len() implies one[i] != '\n' by {
        assert(one[i] == line[i]);
    }
    assert(index_of_char(one, '\n', 0) == Some(line.len() as int));
    assert(one.subrange(0, line.len() as int) =~= line);
    assert(one.subrange(line.len() as int + 1, one.len() as int) =~= rest);
    let two = line + seq!['\r', '\n'] + rest;
    lemma_first_index(two, '\n', 0);
    assert(two[line.len() as int + 1] == '\n' && two[line.len() as int] == '\r');
    assert forall|i: int| 0 <= i < line.len() + 1 implies two[i] != '\n' by {
        if i < line.len() {
            assert(two[i] == line[i]);
        }
    }
    assert(index_of_char(two, '\n', 0) == Some(line.len() as int + 1));
    let cut = two.subrange(0, line.len() as int + 1);
    assert(cut.last() == '\r');
    assert(cut.drop_last() =~= line);
    assert(two.subrange(line.len() as int + 2, two.len() as int) =~= rest);
    lemma_first_index(line, '\n', 0);
}

/// An occurrence is replaced, and what follows it is treated alike; a character that
/// begins none stays.
pub proof fn law_occurrences_are_replaced(
    pattern: Seq<char>,
    with: Seq<char>,
    rest: Seq<char>,
    c: char,
)
    requires
        pattern.len() > 0,
    ensures
        replaced(pattern + rest, pattern, with) == with + replaced(rest, pattern, with),
        c != pattern[0] ==> replaced(seq![c] + rest, pattern, with) == seq![c] + replaced(
            rest,
            pattern,
            with,
        ),
{
    let all = pattern + rest;
    assert(all.subrange(0, 0 + pattern.len() as int) =~= pattern);
    assert(all.subrange(pattern.len() as int, all.len() as int) =~= rest);
    let other = seq![c] + rest;
    assert(other.subrange(1, other.len() as int) =~= rest);
    if has_prefix(other, pattern) {
        assert(other.subrange(0, 0 + pattern.len() as int)[0] == pattern[0]);
    }
}

/// A number may have a plus sign or zeros before it, and reading it as one without a sign
/// refuses a minus sign.
pub proof fn law_signs_and_zeros_are_read(n: u64)
    ensures
        u64_value(decimal(n as int)) == Some(n),
        u64_value(seq!['+'] + decimal(n as int)) == Some(n),
        u64_value(seq!['-'] + decimal(n as int)) is None,
        n <= i64::MAX ==> i64_value(seq!['+'] + decimal(n as int)) == Some(n as i64),
        n <= i64::MAX ==> i64_value(seq!['-'] + decimal(n as int)) == Some((-n) as i64),
        n <= i64::MAX ==> i64_value(seq!['0'] + decimal(n as int)) == Some(n as i64),
        i64_value(Seq::empty()) is None,
{
    let s = decimal(n as int);
    lemma_digits_read_back(n as nat);
    assert(is_digit(s[0]));
    let plus = seq!['+'] + s;
    let minus = seq!['-'] + s;
    let zero = seq!['0'] + s;
    assert(unsigned_part(plus) =~= s);
    assert(unsigned_part(minus) =~= s);
    assert(plus[0] == '+' && minus[0] == '-' && zero[0] == '0');
    assert forall|i: int| 0 <= i < zero.len() implies is_digit(#[trigger] zero[i]) by {
        if i > 0 {
            assert(zero[i] == s[i - 1]);
        }
    }
    lemma_leading_zero(s);
    assert(!all_digits(unsigned_part(Seq::<char>::empty())));
}

proof fn lemma_leading_zero(s: Seq<char>)
    ensures
        digits_value(seq!['0'] + s) == digits_value(s),
    decreases s.len(),
{
    let zero = seq!['0'] + s;
    if s.len() == 0 {
        assert(zero.drop_last().len() == 0);
        assert(zero.last() == '0');
        assert(digits_value(zero.drop_last()) == 0);
        assert(digits_value(zero) == digits_value(zero.drop_last()) * 10 + (zero.last() as int
            - 48));
    } else {
        lemma_leading_zero(s.drop_last());
        assert(zero.drop_last() =~= seq!['0'] + s.drop_last());
        assert(zero.last() == s.last());
    }
}

} // verus!
