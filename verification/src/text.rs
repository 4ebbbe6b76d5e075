//! Text as sequences of characters: the string operations the rest of the library is
//! written with, each proved against a direct statement of what it returns.

use vstd::prelude::*;

verus! {

/// `String::push` appends the given character to the end of the string.
pub assume_specification[ String::push ](s: &mut String, c: char)
    ensures
        final(s)@ == old(s)@.push(c),
;

/// Bytes read as UTF-8 by `String::from_utf8_lossy`, which puts a replacement character in the
/// place of each sequence that is not valid.
pub uninterp spec fn lossy_text(bytes: Seq<u8>) -> Seq<char>;

/// `String::from_utf8_lossy` reads valid UTF-8 as what it encodes.
#[verifier::external_body]
pub(crate) fn read_lossy(bytes: &[u8]) -> (s: String)
    ensures
        s@ == lossy_text(bytes@),
        vstd::utf8::valid_utf8(bytes@) ==> s@ == vstd::utf8::decode_utf8(bytes@),
{
    String::from_utf8_lossy(bytes).into_owned()
}

/// The Unicode property `White_Space`.
pub open spec fn is_white_space(c: char) -> bool {
    let n = c as u32;
    ||| 0x9 <= n <= 0xd
    ||| n == 0x20
    ||| n == 0x85
    ||| n == 0xa0
    ||| n == 0x1680
    ||| 0x2000 <= n <= 0x200a
    ||| n == 0x2028
    ||| n == 0x2029
    ||| n == 0x202f
    ||| n == 0x205f
    ||| n == 0x3000
}

/// `s` without the white space it begins with.
pub open spec fn without_leading_space(s: Seq<char>) -> Seq<char>
    decreases s.len(),
{
    if s.len() > 0 && is_white_space(s[0]) {
        without_leading_space(s.drop_first())
    } else {
        s
    }
}

/// `s` without the white space it ends with.
pub open spec fn without_trailing_space(s: Seq<char>) -> Seq<char>
    decreases s.len(),
{
    if s.len() > 0 && is_white_space(s.last()) {
        without_trailing_space(s.drop_last())
    } else {
        s
    }
}

/// `s` without the white space at either end.
pub open spec fn trimmed(s: Seq<char>) -> Seq<char> {
    without_trailing_space(without_leading_space(s))
}

/// Whether the character is white space.
pub fn white_space(c: char) -> (found: bool)
    ensures
        found == is_white_space(c),
{
    let n: u32 = c as u32;
    (0x9 <= n && n <= 0xd) || n == 0x20 || n == 0x85 || n == 0xa0 || n == 0x1680 || (0x2000 <= n
        && n <= 0x200a) || n == 0x2028 || n == 0x2029 || n == 0x202f || n == 0x205f || n == 0x3000
}

/// The characters of a string.
pub fn chars_of(s: &str) -> (chars: Vec<char>)
    ensures
        chars@ == s@,
{
    let mut chars: Vec<char> = Vec::new();
    for c in it: s.chars()
        invariant
            it.seq() == s@,
            chars@ == s@.take(it.index() as int),
    {
        chars.push(c);
    }
    chars
}

/// The string of the characters from `from` up to `to`.
pub fn text_of(chars: &[char], from: usize, to: usize) -> (s: String)
    requires
        from <= to <= chars@.len(),
    ensures
        s@ == chars@.subrange(from as int, to as int),
{
    let mut s: String = String::new();
    let mut i: usize = from;
    while i < to
        invariant
            from <= i <= to <= chars@.len(),
            s@ == chars@.subrange(from as int, i as int),
        decreases to - i,
    {
        s.push(chars[i]);
        i = i + 1;
    }
    s
}

/// The text without the white space at either end.
pub fn trim(s: &str) -> (t: String)
    ensures
        t@ == trimmed(s@),
{
    let chars = chars_of(s);
    let mut from: usize = 0;
    assert(chars@.skip(0) == chars@);
    while from < chars.len() && white_space(chars[from])
        invariant
            from <= chars@.len(),
            without_leading_space(chars@) == without_leading_space(chars@.skip(from as int)),
        decreases chars@.len() - from,
    {
        assert(chars@.skip(from as int).drop_first() == chars@.skip(from + 1));
        from = from + 1;
    }
    let mut to: usize = chars.len();
    while from < to && white_space(chars[to - 1])
        invariant
            from <= to <= chars@.len(),
            without_trailing_space(chars@.skip(from as int)) == without_trailing_space(
                chars@.subrange(from as int, to as int),
            ),
        decreases to,
    {
        assert(chars@.subrange(from as int, to as int).drop_last() == chars@.subrange(
            from as int,
            to - 1,
        ));
        to = to - 1;
    }
    text_of(&chars, from, to)
}

/// The texts of a sequence of strings.
pub open spec fn texts(strings: Seq<String>) -> Seq<Seq<char>> {
    strings.map_values(|s: String| s@)
}

/// Whether `part` occurs somewhere in `whole`.
pub open spec fn occurs_in(part: Seq<char>, whole: Seq<char>) -> bool {
    exists|at: int| occurs_at(part, whole, at)
}

/// Whether `part` occurs in `whole` at position `at`.
pub open spec fn occurs_at(part: Seq<char>, whole: Seq<char>, at: int) -> bool {
    &&& 0 <= at <= whole.len() - part.len()
    &&& whole.subrange(at, at + part.len()) == part
}

/// The character in lower case, if it is an ASCII letter.
pub open spec fn ascii_lower_char(c: char) -> char {
    if 'A' <= c && c <= 'Z' {
        (c as u8 + 32) as u8 as char
    } else {
        c
    }
}

/// The text with its ASCII letters in lower case.
pub open spec fn ascii_lower(s: Seq<char>) -> Seq<char> {
    s.map_values(|c: char| ascii_lower_char(c))
}

/// The number of characters before the first `stop` in `s`, or its length if there is none.
pub open spec fn until(s: Seq<char>, stop: char) -> nat
    decreases s.len(),
{
    if s.len() == 0 || s[0] == stop {
        0
    } else {
        1 + until(s.drop_first(), stop)
    }
}

/// Whether two strings hold the same text.
pub fn same_text(a: &str, b: &str) -> (same: bool)
    ensures
        same == (a@ == b@),
{
    let left = a.as_bytes();
    let right = b.as_bytes();
    if left.len() != right.len() {
        return false;
    }
    let mut i: usize = 0;
    while i < left.len()
        invariant
            i <= left@.len(),
            left@.len() == right@.len(),
            left@ == vstd::utf8::encode_utf8(a@),
            right@ == vstd::utf8::encode_utf8(b@),
            forall|j: int| 0 <= j < i ==> left@[j] == right@[j],
        decreases left@.len() - i,
    {
        if left[i] != right[i] {
            return false;
        }
        i = i + 1;
    }
    proof {
        assert(left@ =~= right@);
        vstd::utf8::encode_utf8_decode_utf8(a@);
        vstd::utf8::encode_utf8_decode_utf8(b@);
    }
    true
}

/// Whether the characters `part` stand in `whole` at position `at`.
pub fn matches_at(part: &[char], whole: &[char], at: usize) -> (found: bool)
    ensures
        found == occurs_at(part@, whole@, at as int),
{
    if part.len() > whole.len() || at > whole.len() - part.len() {
        return false;
    }
    let len: usize = whole.len();
    let mut i: usize = 0;
    while i < part.len()
        invariant
            i <= part@.len(),
            at + part@.len() <= len == whole@.len(),
            forall|j: int| 0 <= j < i ==> whole@[at + j] == part@[j],
        decreases part@.len() - i,
    {
        if whole[at + i] != part[i] {
            assert(whole@.subrange(at as int, at + part@.len())[i as int] == whole@[at + i]);
            return false;
        }
        i = i + 1;
    }
    assert(whole@.subrange(at as int, at + part@.len()) =~= part@);
    true
}

/// Whether `part` occurs somewhere in `whole`.
pub fn contains(whole: &str, part: &str) -> (found: bool)
    ensures
        found == occurs_in(part@, whole@),
{
    let whole_chars = chars_of(whole);
    let part_chars = chars_of(part);
    if part_chars.len() > whole_chars.len() {
        return false;
    }
    let last: usize = whole_chars.len() - part_chars.len();
    let mut at: usize = 0;
    while at <= last
        invariant
            at <= last + 1,
            whole_chars@ == whole@,
            part_chars@ == part@,
            last == whole@.len() - part@.len(),
            forall|j: int| 0 <= j < at ==> !occurs_at(part@, whole@, j),
        decreases last + 1 - at,
    {
        if matches_at(&part_chars, &whole_chars, at) {
            return true;
        }
        if at == last {
            return false;
        }
        at = at + 1;
    }
    false
}

/// Whether the text begins with `prefix`.
pub fn starts_with(s: &str, prefix: &str) -> (found: bool)
    ensures
        found == prefix@.is_prefix_of(s@),
{
    matches_at(&chars_of(prefix), &chars_of(s), 0)
}

/// Whether the text ends with `suffix`.
pub fn ends_with(s: &str, suffix: &str) -> (found: bool)
    ensures
        found == suffix@.is_suffix_of(s@),
{
    let chars = chars_of(s);
    let tail = chars_of(suffix);
    if tail.len() > chars.len() {
        return false;
    }
    matches_at(&tail, &chars, chars.len() - tail.len())
}

/// The text with its ASCII letters in lower case.
pub fn to_ascii_lowercase(s: &str) -> (lower: String)
    ensures
        lower@ == ascii_lower(s@),
{
    let chars = chars_of(s);
    let mut lower: String = String::new();
    let mut i: usize = 0;
    while i < chars.len()
        invariant
            i <= chars@.len(),
            chars@ == s@,
            lower@ == ascii_lower(s@.take(i as int)),
        decreases chars@.len() - i,
    {
        let c = chars[i];
        if 'A' <= c && c <= 'Z' {
            lower.push((c as u8 + 32) as char);
        } else {
            lower.push(c);
        }
        assert(lower@ =~= ascii_lower(s@.take(i + 1)));
        i = i + 1;
    }
    assert(s@.take(i as int) == s@);
    lower
}

/// Whether two texts are equal up to the case of ASCII letters.
pub fn equal_ignoring_ascii_case(a: &str, b: &str) -> (same: bool)
    ensures
        same == (ascii_lower(a@) == ascii_lower(b@)),
{
    same_text(to_ascii_lowercase(a).as_str(), to_ascii_lowercase(b).as_str())
}

/// The position of the first `stop` at or after `from`, or the end of the text.
pub fn find_from(chars: &[char], from: usize, stop: char) -> (at: usize)
    requires
        from <= chars@.len(),
    ensures
        from <= at <= chars@.len(),
        at == from + until(chars@.skip(from as int), stop),
        at < chars@.len() ==> chars@[at as int] == stop,
{
    let mut at: usize = from;
    while at < chars.len() && chars[at] != stop
        invariant
            from <= at <= chars@.len(),
            from + until(chars@.skip(from as int), stop) == at + until(
                chars@.skip(at as int),
                stop,
            ),
        decreases chars@.len() - at,
    {
        assert(chars@.skip(at as int).drop_first() == chars@.skip(at + 1));
        at = at + 1;
    }
    at
}

/// A line without the carriage return it ends with.
pub open spec fn without_carriage_return(line: Seq<char>) -> Seq<char> {
    if line.len() > 0 && line.last() == '\r' {
        line.drop_last()
    } else {
        line
    }
}

/// The lines of a text. A line ends at a line feed, or at a carriage return and a line feed;
/// the end of the last line is optional.
pub open spec fn lines_of(s: Seq<char>) -> Seq<Seq<char>>
    decreases s.len(),
{
    if s.len() == 0 {
        seq![]
    } else {
        let n = until(s, '\n') as int;
        if n >= s.len() {
            seq![s]
        } else {
            seq![without_carriage_return(s.take(n))] + lines_of(s.skip(n + 1))
        }
    }
}

/// The number of characters before the first white space in `s`, or its length if there is
/// none.
pub open spec fn word_length(s: Seq<char>) -> nat
    decreases s.len(),
{
    if s.len() == 0 || is_white_space(s[0]) {
        0
    } else {
        1 + word_length(s.drop_first())
    }
}

/// The words of a text: its longest runs of characters that are not white space.
pub open spec fn words_of(s: Seq<char>) -> Seq<Seq<char>>
    decreases s.len(),
{
    let t = without_leading_space(s);
    if t.len() == 0 {
        seq![]
    } else {
        let n = word_length(t) as int;
        proof {
            lemma_without_leading_space(s);
            lemma_word_length(t);
        }
        seq![t.take(n)] + words_of(t.skip(n))
    }
}

/// The words, with a space between one and the next.
pub open spec fn joined_words(words: Seq<Seq<char>>) -> Seq<char>
    decreases words.len(),
{
    if words.len() == 0 {
        seq![]
    } else if words.len() == 1 {
        words[0]
    } else {
        joined_words(words.drop_last()) + " "@ + words.last()
    }
}

pub proof fn lemma_without_leading_space(s: Seq<char>)
    ensures
        without_leading_space(s).len() <= s.len(),
        without_leading_space(s).len() > 0 ==> !is_white_space(without_leading_space(s)[0]),
    decreases s.len(),
{
    if s.len() > 0 && is_white_space(s[0]) {
        lemma_without_leading_space(s.drop_first());
    }
}

pub proof fn lemma_word_length(s: Seq<char>)
    ensures
        word_length(s) <= s.len(),
    decreases s.len(),
{
    if s.len() > 0 && !is_white_space(s[0]) {
        lemma_word_length(s.drop_first());
    }
}

/// The lines of a text.
pub fn lines(s: &str) -> (found: Vec<String>)
    ensures
        texts(found@) == lines_of(s@),
{
    let chars = chars_of(s);
    let mut found: Vec<String> = Vec::new();
    let mut at: usize = 0;
    assert(chars@.skip(0) == chars@);
    assert(texts(found@) == Seq::<Seq<char>>::empty());
    while at < chars.len()
        invariant
            at <= chars@.len(),
            chars@ == s@,
            texts(found@) + lines_of(chars@.skip(at as int)) == lines_of(chars@),
        decreases chars@.len() - at,
    {
        let ghost rest = chars@.skip(at as int);
        let ghost before = texts(found@);
        let end: usize = find_from(&chars, at, '\n');
        if end == chars.len() {
            found.push(text_of(&chars, at, end));
            assert(texts(found@) =~= before.push(rest));
            assert(texts(found@) =~= lines_of(chars@));
            return found;
        }
        if end > at && chars[end - 1] == '\r' {
            found.push(text_of(&chars, at, end - 1));
        } else {
            found.push(text_of(&chars, at, end));
        }
        proof {
            let line = without_carriage_return(rest.take(end - at));
            assert(found@.last()@ =~= line);
            assert(texts(found@) =~= before.push(line));
            assert(rest.skip(end - at + 1) =~= chars@.skip(end + 1));
            assert(texts(found@) + lines_of(chars@.skip(end + 1)) =~= before + (seq![line]
                + lines_of(chars@.skip(end + 1))));
        }
        at = end + 1;
    }
    assert(chars@.skip(at as int) =~= Seq::<char>::empty());
    assert(texts(found@) =~= lines_of(chars@));
    found
}

/// The words of a text.
pub fn words(s: &str) -> (found: Vec<String>)
    ensures
        texts(found@) == words_of(s@),
{
    let chars = chars_of(s);
    let mut found: Vec<String> = Vec::new();
    let mut at: usize = 0;
    assert(chars@.skip(0) == chars@);
    assert(texts(found@) == Seq::<Seq<char>>::empty());
    while at < chars.len()
        invariant
            at <= chars@.len(),
            texts(found@) + words_of(chars@.skip(at as int)) == words_of(chars@),
        decreases chars@.len() - at,
    {
        let ghost rest = chars@.skip(at as int);
        let ghost before = texts(found@);
        if white_space(chars[at]) {
            assert(rest.drop_first() == chars@.skip(at + 1));
            at = at + 1;
        } else {
            let mut end: usize = at;
            while end < chars.len() && !white_space(chars[end])
                invariant
                    at <= end <= chars@.len(),
                    at + word_length(chars@.skip(at as int)) == end + word_length(
                        chars@.skip(end as int),
                    ),
                decreases chars@.len() - end,
            {
                assert(chars@.skip(end as int).drop_first() == chars@.skip(end + 1));
                end = end + 1;
            }
            found.push(text_of(&chars, at, end));
            proof {
                let word = rest.take(end - at);
                lemma_word_length(rest);
                assert(end - at == word_length(rest));
                assert(found@.last()@ =~= word);
                assert(texts(found@) =~= before.push(word));
                assert(rest.skip(end - at) =~= chars@.skip(end as int));
                assert(texts(found@) + words_of(chars@.skip(end as int)) =~= before + (seq![word]
                    + words_of(chars@.skip(end as int))));
            }
            at = end;
        }
    }
    assert(chars@.skip(at as int) =~= Seq::<char>::empty());
    assert(texts(found@) =~= words_of(chars@));
    found
}

/// `s` without every `c` it ends with.
pub open spec fn without_trailing(s: Seq<char>, c: char) -> Seq<char>
    decreases s.len(),
{
    if s.len() > 0 && s.last() == c {
        without_trailing(s.drop_last(), c)
    } else {
        s
    }
}

/// `s` without every repetition of `part` it begins with.
pub open spec fn without_leading(s: Seq<char>, part: Seq<char>) -> Seq<char>
    decreases s.len(),
{
    if part.len() > 0 && part.is_prefix_of(s) {
        without_leading(s.skip(part.len() as int), part)
    } else {
        s
    }
}

/// The text without every `c` it ends with.
pub fn trim_end_char(s: &str, c: char) -> (t: String)
    ensures
        t@ == without_trailing(s@, c),
{
    let chars = chars_of(s);
    let mut to: usize = chars.len();
    assert(chars@.take(to as int) == chars@);
    while to > 0 && chars[to - 1] == c
        invariant
            to <= chars@.len(),
            without_trailing(chars@, c) == without_trailing(chars@.take(to as int), c),
        decreases to,
    {
        assert(chars@.take(to as int).drop_last() == chars@.take(to - 1));
        to = to - 1;
    }
    text_of(&chars, 0, to)
}

/// The text without every repetition of `part` it begins with.
pub fn trim_start_text(s: &str, part: &str) -> (t: String)
    ensures
        t@ == without_leading(s@, part@),
{
    let chars = chars_of(s);
    let head = chars_of(part);
    let len: usize = chars.len();
    let mut from: usize = 0;
    assert(chars@.skip(0) == chars@);
    while head.len() > 0 && matches_at(&head, &chars, from)
        invariant
            from <= len == chars@.len(),
            head@ == part@,
            without_leading(chars@, part@) == without_leading(chars@.skip(from as int), part@),
        decreases chars@.len() - from,
    {
        assert(chars@.subrange(from as int, from + part@.len()) == chars@.skip(
            from as int,
        ).subrange(0, part@.len() as int));
        assert(chars@.skip(from as int).skip(part@.len() as int) == chars@.skip(
            from + part@.len(),
        ));
        from = from + head.len();
    }
    assert(from + part@.len() <= len ==> chars@.skip(from as int).subrange(0, part@.len() as int)
        == chars@.subrange(from as int, from + part@.len()));
    text_of(&chars, from, len)
}

/// The text before the first `stop`, or all of it if there is none.
pub fn before_first(s: &str, stop: char) -> (head: String)
    ensures
        head@ == s@.take(until(s@, stop) as int),
{
    let chars = chars_of(s);
    let at: usize = find_from(&chars, 0, stop);
    assert(chars@.skip(0) == chars@);
    text_of(&chars, 0, at)
}

/// The texts before and after the first `stop`, if there is one.
pub open spec fn split_at_first(s: Seq<char>, stop: char) -> Option<(Seq<char>, Seq<char>)> {
    let n = until(s, stop) as int;
    if n < s.len() {
        Some((s.take(n), s.skip(n + 1)))
    } else {
        None
    }
}

/// The texts before and after the first `stop`, if there is one.
pub fn split_once(s: &str, stop: char) -> (parts: Option<(String, String)>)
    ensures
        match parts {
            Some((head, tail)) => split_at_first(s@, stop) == Some((head@, tail@)),
            None => split_at_first(s@, stop) is None,
        },
{
    let chars = chars_of(s);
    let at: usize = find_from(&chars, 0, stop);
    assert(chars@.skip(0) == chars@);
    if at < chars.len() {
        Some((text_of(&chars, 0, at), text_of(&chars, at + 1, chars.len())))
    } else {
        None
    }
}

/// The decimal digit of a number below ten.
pub open spec fn digit_char(d: nat) -> char {
    (d + 48) as u8 as char
}

/// The decimal numeral of a number, without leading zeros.
pub open spec fn decimal(n: nat) -> Seq<char>
    decreases n,
{
    if n < 10 {
        seq![digit_char(n)]
    } else {
        decimal(n / 10).push(digit_char(n % 10))
    }
}

/// Whether the character is an ASCII digit.
pub open spec fn is_digit(c: char) -> bool {
    '0' <= c && c <= '9'
}

/// The number that a row of digits stands for.
pub open spec fn digits_value(s: Seq<char>) -> nat
    decreases s.len(),
{
    if s.len() == 0 {
        0
    } else {
        digits_value(s.drop_last()) * 10 + (s.last() as nat - 48) as nat
    }
}

/// Whether the text is digits throughout.
pub open spec fn all_digits(s: Seq<char>) -> bool {
    forall|i: int| 0 <= i < s.len() ==> is_digit(#[trigger] s[i])
}

/// `s` without the plus sign it may begin with.
pub open spec fn without_plus(s: Seq<char>) -> Seq<char> {
    if s.len() > 0 && s[0] == '+' {
        s.skip(1)
    } else {
        s
    }
}

/// The number that a text stands for: an optional plus sign and one or more digits, of a value
/// of at most `max`.
pub open spec fn parsed_number(s: Seq<char>, max: nat) -> Option<nat> {
    let digits = without_plus(s);
    if digits.len() > 0 && all_digits(digits) && digits_value(digits) <= max {
        Some(digits_value(digits))
    } else {
        None
    }
}

/// The decimal numeral of a number.
pub fn decimal_text(n: u64) -> (s: String)
    ensures
        s@ == decimal(n as nat),
    decreases n,
{
    let digit = (48 + (n % 10) as u8) as char;
    let mut s: String = if n < 10 {
        String::new()
    } else {
        decimal_text(n / 10)
    };
    s.push(digit);
    s
}

/// The number of at most `max` that a text stands for.
pub fn parse_number(s: &str, max: u64) -> (n: Option<u64>)
    ensures
        match n {
            Some(n) => parsed_number(s@, max as nat) == Some(n as nat),
            None => parsed_number(s@, max as nat) is None,
        },
{
    let chars = chars_of(s);
    let from: usize = if chars.len() > 0 && chars[0] == '+' {
        1
    } else {
        0
    };
    let ghost digits = chars@.skip(from as int);
    assert(chars@.skip(0) == chars@);
    if from == chars.len() {
        return None;
    }
    let mut value: u64 = 0;
    let mut too_large = false;
    let mut i: usize = from;
    while i < chars.len()
        invariant
            from <= i <= chars@.len(),
            from < chars@.len(),
            digits == chars@.skip(from as int),
            digits == without_plus(s@),
            forall|j: int| 0 <= j < i - from ==> is_digit(#[trigger] digits[j]),
            too_large == (digits_value(digits.take(i - from)) > max),
            !too_large ==> value == digits_value(digits.take(i - from)),
        decreases chars@.len() - i,
    {
        let c = chars[i];
        if c < '0' || '9' < c {
            assert(digits[i - from] == c && !is_digit(digits[i - from]));
            return None;
        }
        let digit: u64 = c as u64 - 48;
        assert(digits.take(i + 1 - from).drop_last() == digits.take(i - from));
        if !too_large {
            if digit > max || value > max / 10 || value * 10 > max - digit {
                too_large = true;
            } else {
                value = value * 10 + digit;
            }
        }
        i = i + 1;
    }
    assert(digits.take(i - from) == digits);
    if too_large {
        None
    } else {
        Some(value)
    }
}

proof fn lemma_digit(d: nat)
    requires
        d < 10,
    ensures
        digit_char(d) == "0123456789"@[d as int],
        is_digit(digit_char(d)),
        digit_char(d) as nat - 48 == d,
{
    reveal_strlit("0123456789");
    if d == 0 {
    } else if d == 1 {
    } else if d == 2 {
    } else if d == 3 {
    } else if d == 4 {
    } else if d == 5 {
    } else if d == 6 {
    } else if d == 7 {
    } else if d == 8 {
    } else {
    }
}

/// The numeral of a number is built up digit by digit, from the digits `0` to `9`.
pub proof fn law_numeral_is_built_of_digits(n: nat, d: nat)
    requires
        d < 10,
    ensures
        decimal(d) == seq!["0123456789"@[d as int]],
        n > 0 ==> decimal(10 * n + d) == decimal(n).push("0123456789"@[d as int]),
{
    lemma_digit(d);
    if n > 0 {
        assert((10 * n + d) / 10 == n);
        assert((10 * n + d) % 10 == d);
    }
}

proof fn lemma_numeral(n: nat)
    ensures
        decimal(n).len() > 0,
        all_digits(decimal(n)),
        digits_value(decimal(n)) == n,
    decreases n,
{
    if n < 10 {
        lemma_digit(n);
        assert(decimal(n).drop_last() =~= seq![]);
        reveal_with_fuel(digits_value, 2);
    } else {
        lemma_numeral(n / 10);
        lemma_digit(n % 10);
        assert(decimal(n).drop_last() =~= decimal(n / 10));
        assert forall|i: int| 0 <= i < decimal(n).len() implies is_digit(
            #[trigger] decimal(n)[i],
        ) by {
            if i < decimal(n / 10).len() {
                assert(decimal(n)[i] == decimal(n / 10)[i]);
            }
        }
    }
}

/// The numeral of a number is read as that number, with a plus sign before it or not, unless the
/// number is too large.
pub proof fn law_number_is_read_back(n: nat, max: nat)
    ensures
        parsed_number(decimal(n), max) == (if n <= max {
            Some(n)
        } else {
            None
        }),
        parsed_number("+"@ + decimal(n), max) == parsed_number(decimal(n), max),
{
    reveal_strlit("+");
    lemma_numeral(n);
    assert(is_digit(decimal(n)[0]));
    assert(("+"@ + decimal(n)).skip(1) =~= decimal(n));
}

/// A text that is read as a number is one or more digits, with a plus sign before them or not, and
/// each digit that follows makes ten times as much of the number.
pub proof fn law_numbers_are_digits(s: Seq<char>, d: nat, max: nat)
    requires
        d < 10,
    ensures
        parsed_number(s, max) matches Some(n) ==> {
            &&& n <= max
            &&& s.len() > 0
            &&& s != "+"@
            &&& forall|i: int|
                0 <= i < s.len() ==> ('0' <= #[trigger] s[i] && s[i] <= '9') || (i == 0 && s[0]
                    == '+')
        },
        parsed_number(s, max) matches Some(n) ==> parsed_number(
            s.push("0123456789"@[d as int]),
            max,
        ) == (if 10 * n + d <= max {
            Some(10 * n + d)
        } else {
            None
        }),
        parsed_number(seq!["0123456789"@[d as int]], max) == (if d <= max {
            Some(d)
        } else {
            None
        }),
{
    reveal_strlit("+");
    lemma_digit(d);
    let c = "0123456789"@[d as int];
    if parsed_number(s, max) is Some {
        let digits = without_plus(s);
        let more = without_plus(s.push(c));
        assert forall|i: int| 0 <= i < s.len() implies ('0' <= #[trigger] s[i] && s[i] <= '9') || (i
            == 0 && s[0] == '+') by {
            if s[0] == '+' {
                if i > 0 {
                    assert(is_digit(digits[i - 1]));
                }
            } else {
                assert(is_digit(digits[i]));
            }
        }
        assert(more =~= digits.push(c));
        assert(more.drop_last() =~= digits);
        assert forall|i: int| 0 <= i < more.len() implies is_digit(#[trigger] more[i]) by {
            if i < digits.len() {
                assert(more[i] == digits[i]);
            }
        }
    }
    lemma_numeral(d);
    law_number_is_read_back(d, max);
}

/// Whether a text is white space throughout.
pub open spec fn is_blank(s: Seq<char>) -> bool {
    forall|i: int| 0 <= i < s.len() ==> is_white_space(#[trigger] s[i])
}

/// Whether a text neither begins nor ends with white space.
pub open spec fn is_tight(s: Seq<char>) -> bool {
    s.len() > 0 ==> !is_white_space(s[0]) && !is_white_space(s.last())
}

proof fn lemma_blank_before(blank: Seq<char>, s: Seq<char>)
    requires
        is_blank(blank),
    ensures
        without_leading_space(blank + s) == without_leading_space(s),
    decreases blank.len(),
{
    if blank.len() > 0 {
        assert(is_white_space((blank + s)[0]));
        assert((blank + s).drop_first() =~= blank.drop_first() + s);
        lemma_blank_before(blank.drop_first(), s);
    } else {
        assert(blank + s =~= s);
    }
}

proof fn lemma_blank_after(s: Seq<char>, blank: Seq<char>)
    requires
        is_blank(blank),
    ensures
        without_trailing_space(s + blank) == without_trailing_space(s),
    decreases blank.len(),
{
    if blank.len() > 0 {
        assert((s + blank).last() == blank.last());
        assert((s + blank).drop_last() =~= s + blank.drop_last());
        lemma_blank_after(s, blank.drop_last());
    } else {
        assert(s + blank =~= s);
    }
}

/// Trimming a text takes the white space around it and nothing else.
pub proof fn law_trimming_takes_white_space(before: Seq<char>, s: Seq<char>, after: Seq<char>)
    requires
        is_blank(before),
        is_tight(s),
        is_blank(after),
    ensures
        trimmed(before + s + after) == s,
{
    assert(before + s + after =~= before + (s + after));
    lemma_blank_before(before, s + after);
    if s.len() == 0 {
        assert(s + after =~= after + seq![]);
        lemma_blank_before(after, seq![]);
    } else {
        assert((s + after)[0] == s[0]);
        lemma_blank_after(s, after);
    }
}

/// A text occurs in another one if and only if that is the text with something before it and
/// something behind it.
pub proof fn law_occurrence_splits_text(part: Seq<char>, whole: Seq<char>)
    ensures
        occurs_in(part, whole) <==> exists|before: Seq<char>, after: Seq<char>|
            #[trigger] (before + part + after) == whole,
{
    if occurs_in(part, whole) {
        let at = choose|at: int| occurs_at(part, whole, at);
        let before = whole.take(at);
        let after = whole.skip(at + part.len());
        assert(before + part + after =~= whole);
    }
    if exists|before: Seq<char>, after: Seq<char>| #[trigger] (before + part + after) == whole {
        let (before, after) = choose|before: Seq<char>, after: Seq<char>|
            #[trigger] (before + part + after) == whole;
        let at = before.len() as int;
        assert(whole.subrange(at, at + part.len()) =~= part);
        assert(occurs_at(part, whole, at));
    }
}

/// The letters `A` to `Z` become small, and every other character stays.
pub proof fn law_lower_case(s: Seq<char>, i: int)
    requires
        0 <= i < s.len(),
    ensures
        ascii_lower(s).len() == s.len(),
        'A' <= s[i] && s[i] <= 'Z' ==> ascii_lower(s)[i] as nat == s[i] as nat + 32,
        !('A' <= s[i] && s[i] <= 'Z') ==> ascii_lower(s)[i] == s[i],
        ascii_lower(ascii_lower(s)) == ascii_lower(s),
{
    assert forall|j: int| 0 <= j < s.len() implies ascii_lower_char(
        #[trigger] ascii_lower(s)[j],
    ) == ascii_lower(s)[j] by {}
    assert(ascii_lower(ascii_lower(s)) =~= ascii_lower(s));
}

proof fn lemma_until_stop(s: Seq<char>, stop: char, rest: Seq<char>)
    requires
        !s.contains(stop),
    ensures
        until(s, stop) == s.len(),
        until(s.push(stop) + rest, stop) == s.len(),
    decreases s.len(),
{
    if s.len() > 0 {
        assert(s.contains(s[0]));
        let tail = s.drop_first();
        assert(!tail.contains(stop)) by {
            if tail.contains(stop) {
                assert(s[tail.index_of(stop) + 1] == stop);
            }
        }
        lemma_until_stop(tail, stop, rest);
        assert((s.push(stop) + rest).drop_first() =~= tail.push(stop) + rest);
    }
}

/// A text splits at its first stop into what stands before and after it.
pub proof fn law_split_at_first_stop(before: Seq<char>, stop: char, after: Seq<char>)
    requires
        !before.contains(stop),
    ensures
        split_at_first(before.push(stop) + after, stop) == Some((before, after)),
        split_at_first(before, stop) is None,
{
    lemma_until_stop(before, stop, after);
    let whole = before.push(stop) + after;
    assert(whole.take(before.len() as int) =~= before);
    assert(whole.skip(before.len() as int + 1) =~= after);
}

/// A line ends at a line feed, or at a carriage return and a line feed, and the lines of what
/// follows come behind it. What stands behind the last line feed is a line if it is not empty.
pub proof fn law_lines(line: Seq<char>, rest: Seq<char>)
    requires
        !line.contains('\n'),
    ensures
        lines_of(line.push('\r').push('\n') + rest) == seq![line] + lines_of(rest),
        !(line.len() > 0 && line.last() == '\r') ==> lines_of(line.push('\n') + rest) == seq![line]
            + lines_of(rest),
        lines_of(line) == (if line.len() > 0 {
            seq![line]
        } else {
            seq![]
        }),
{
    lemma_until_stop(line, '\n', rest);
    let plain = line.push('\n') + rest;
    assert(plain.take(line.len() as int) =~= line);
    assert(plain.skip(line.len() as int + 1) =~= rest);
    let returned = line.push('\r');
    assert(!returned.contains('\n')) by {
        if returned.contains('\n') {
            let i = returned.index_of('\n');
            assert(i < line.len());
            assert(line[i] == '\n');
        }
    }
    lemma_until_stop(returned, '\n', rest);
    let whole = returned.push('\n') + rest;
    assert(whole.take(returned.len() as int) =~= returned);
    assert(whole.skip(returned.len() as int + 1) =~= rest);
    assert(returned.drop_last() =~= line);
}

/// Whether a text is one word.
pub open spec fn is_word(s: Seq<char>) -> bool {
    s.len() > 0 && forall|i: int| 0 <= i < s.len() ==> !is_white_space(#[trigger] s[i])
}

proof fn lemma_word_before(word: Seq<char>, rest: Seq<char>)
    requires
        forall|i: int| 0 <= i < word.len() ==> !is_white_space(#[trigger] word[i]),
        rest.len() > 0 ==> is_white_space(rest[0]),
    ensures
        word_length(word + rest) == word.len(),
    decreases word.len(),
{
    let whole = word + rest;
    if word.len() > 0 {
        assert(whole[0] == word[0]);
        assert(whole.drop_first() =~= word.drop_first() + rest);
        lemma_word_before(word.drop_first(), rest);
    } else {
        assert(whole =~= rest);
    }
}

/// A word stands between white space, and the words of what follows come behind it.
pub proof fn law_words(blank: Seq<char>, word: Seq<char>, rest: Seq<char>)
    requires
        is_blank(blank),
        is_word(word),
        rest.len() > 0 ==> is_white_space(rest[0]),
    ensures
        words_of(blank + word + rest) == seq![word] + words_of(rest),
        words_of(blank) == Seq::<Seq<char>>::empty(),
{
    let whole = blank + word + rest;
    assert(whole =~= blank + (word + rest));
    lemma_blank_before(blank, word + rest);
    assert((word + rest)[0] == word[0]);
    lemma_word_before(word, rest);
    assert((word + rest).take(word.len() as int) =~= word);
    assert((word + rest).skip(word.len() as int) =~= rest);
    lemma_blank_before(blank, seq![]);
    assert(blank + seq![] =~= blank);
}

/// Joined words stand in their order, with one space between one and the next.
pub proof fn law_joined_words(words: Seq<Seq<char>>, word: Seq<char>)
    ensures
        joined_words(Seq::<Seq<char>>::empty()) == Seq::<char>::empty(),
        joined_words(seq![word]) == word,
        words.len() > 0 ==> joined_words(words.push(word)) == joined_words(words).push(' ') + word,
{
    reveal_strlit(" ");
    assert(words.push(word).drop_last() =~= words);
    assert(joined_words(words) + " "@ =~= joined_words(words).push(' '));
}

/// What a text ends in is taken as often as it stands there.
pub proof fn law_trailing_is_taken(s: Seq<char>, c: char)
    ensures
        without_trailing(s.push(c), c) == without_trailing(s, c),
        !(s.len() > 0 && s.last() == c) ==> without_trailing(s, c) == s,
{
    assert(s.push(c).drop_last() =~= s);
}

/// What a text begins with is taken as often as it stands there.
pub proof fn law_leading_is_taken(part: Seq<char>, s: Seq<char>)
    requires
        part.len() > 0,
    ensures
        without_leading(part + s, part) == without_leading(s, part),
        !part.is_prefix_of(s) ==> without_leading(s, part) == s,
{
    assert((part + s).skip(part.len() as int) =~= s);
    assert(part.is_prefix_of(part + s));
}

/// The texts of strings stand in their order.
pub proof fn law_texts_are_kept(strings: Seq<String>, i: int)
    requires
        0 <= i < strings.len(),
    ensures
        texts(strings).len() == strings.len(),
        texts(strings)[i] == strings[i]@,
{
}

} // verus!
