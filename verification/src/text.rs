//! Text as sequences of characters: trimming, splitting, searching, numbers.

use vstd::prelude::*;
use vstd::string::*;

verus! {

/// The characters of a text.
pub fn chars_of(text: &str) -> (chars: Vec<char>)
    ensures
        chars@ == text@,
{
    let mut chars: Vec<char> = Vec::new();
    for c in it: text.chars()
        invariant
            it.seq() == text@,
            chars@ == text@.take(it.index()),
    {
        chars.push(c);
    }
    chars
}

/// The text of a run of characters.
pub fn text_of(chars: &Vec<char>, from: usize, to: usize) -> (text: String)
    requires
        from <= to <= chars@.len(),
    ensures
        text@ == chars@.subrange(from as int, to as int),
{
    let mut text = String::new();
    let mut i: usize = from;
    while i < to
        invariant
            from <= i <= to <= chars@.len(),
            text@ == chars@.subrange(from as int, i as int),
        decreases to - i,
    {
        text.push(chars[i]);
        i = i + 1;
    }
    text
}

/// Whether two texts hold the same characters.
pub fn same_text(a: &str, b: &str) -> (r: bool)
    ensures
        r == (a@ == b@),
{
    a.to_owned() == b.to_owned()
}

/// A class of characters that trimming takes off both ends.
pub enum Trim {
    /// Unicode white space.
    WhiteSpace,
    /// The path separator of a URL.
    Slash,
}

/// The characters with the Unicode property `White_Space`.
pub open spec fn white_space(c: char) -> bool {
    ||| '\u{9}' <= c <= '\u{d}'
    ||| c == ' '
    ||| c == '\u{85}'
    ||| c == '\u{a0}'
    ||| c == '\u{1680}'
    ||| '\u{2000}' <= c <= '\u{200a}'
    ||| c == '\u{2028}'
    ||| c == '\u{2029}'
    ||| c == '\u{202f}'
    ||| c == '\u{205f}'
    ||| c == '\u{3000}'
}

impl Trim {
    pub open spec fn takes(self, c: char) -> bool {
        match self {
            Trim::WhiteSpace => white_space(c),
            Trim::Slash => c == '/',
        }
    }

    pub fn test(&self, c: char) -> (r: bool)
        ensures
            r == self.takes(c),
    {
        match self {
            Trim::WhiteSpace => ('\u{9}' <= c && c <= '\u{d}') || c == ' ' || c == '\u{85}' || c
                == '\u{a0}' || c == '\u{1680}' || ('\u{2000}' <= c && c <= '\u{200a}') || c
                == '\u{2028}' || c == '\u{2029}' || c == '\u{202f}' || c == '\u{205f}' || c
                == '\u{3000}',
            Trim::Slash => c == '/',
        }
    }
}

/// `s` without the trimmed characters at its front.
pub open spec fn trimmed_front(s: Seq<char>, class: Trim) -> Seq<char>
    decreases s.len(),
{
    if s.len() > 0 && class.takes(s[0]) {
        trimmed_front(s.skip(1), class)
    } else {
        s
    }
}

/// `s` without the trimmed characters at its back.
pub open spec fn trimmed_back(s: Seq<char>, class: Trim) -> Seq<char>
    decreases s.len(),
{
    if s.len() > 0 && class.takes(s.last()) {
        trimmed_back(s.drop_last(), class)
    } else {
        s
    }
}

/// `s` without the trimmed characters at both ends.
pub open spec fn trimmed(s: Seq<char>, class: Trim) -> Seq<char> {
    trimmed_back(trimmed_front(s, class), class)
}

/// The text without the trimmed characters at both ends.
pub fn trim(text: &str, class: Trim) -> (r: String)
    ensures
        r@ == trimmed(text@, class),
{
    let chars = chars_of(text);
    let mut from: usize = 0;
    assert(text@.skip(0) == text@);
    while from < chars.len() && class.test(chars[from])
        invariant
            chars@ == text@,
            from <= text@.len(),
            trimmed_front(text@.skip(from as int), class) == trimmed_front(text@, class),
        decreases text@.len() - from,
    {
        assert(text@.skip(from as int).skip(1) == text@.skip(from + 1));
        from = from + 1;
    }
    let mut to: usize = chars.len();
    assert(text@.subrange(from as int, to as int) == text@.skip(from as int));
    while to > from && class.test(chars[to - 1])
        invariant
            chars@ == text@,
            from <= to <= text@.len(),
            trimmed_back(text@.subrange(from as int, to as int), class) == trimmed(text@, class),
        decreases to,
    {
        assert(text@.subrange(from as int, to as int).drop_last() == text@.subrange(
            from as int,
            to - 1,
        ));
        to = to - 1;
    }
    text_of(&chars, from, to)
}

/// Whether `t` stands in `s` at place `i`.
pub open spec fn occurs_at(s: Seq<char>, t: Seq<char>, i: int) -> bool {
    0 <= i && i + t.len() <= s.len() && s.subrange(i, i + t.len()) == t
}

/// Whether `t` stands somewhere in `s`.
pub open spec fn occurs_in(s: Seq<char>, t: Seq<char>) -> bool {
    exists|i: int| occurs_at(s, t, i)
}

/// Whether `needle` stands in `hay` at place `i`.
pub fn found_at(hay: &Vec<char>, needle: &Vec<char>, i: usize) -> (r: bool)
    ensures
        r == occurs_at(hay@, needle@, i as int),
{
    if needle.len() > hay.len() || i > hay.len() - needle.len() {
        return false;
    }
    let mut j: usize = 0;
    while j < needle.len()
        invariant
            i + needle@.len() <= hay@.len(),
            hay@.len() <= usize::MAX,
            j <= needle@.len(),
            forall|k: int| 0 <= k < j ==> hay@[i + k] == needle@[k],
        decreases needle@.len() - j,
    {
        if hay[i + j] != needle[j] {
            assert(hay@.subrange(i as int, i + needle@.len())[j as int] != needle@[j as int]);
            return false;
        }
        j = j + 1;
    }
    assert(hay@.subrange(i as int, i + needle@.len()) =~= needle@);
    true
}

/// Whether `needle` stands somewhere in the text.
pub fn contains(text: &str, needle: &str) -> (r: bool)
    ensures
        r == occurs_in(text@, needle@),
{
    let hay = chars_of(text);
    let pin = chars_of(needle);
    let mut i: usize = 0;
    while i < hay.len()
        invariant
            hay@ == text@,
            pin@ == needle@,
            i <= hay@.len(),
            forall|k: int| 0 <= k < i ==> !occurs_at(text@, needle@, k),
        decreases hay@.len() - i,
    {
        if found_at(&hay, &pin, i) {
            return true;
        }
        i = i + 1;
    }
    found_at(&hay, &pin, i)
}

/// Whether the text ends in `tail`.
pub fn ends_with(text: &str, tail: &str) -> (r: bool)
    ensures
        r == occurs_at(text@, tail@, text@.len() - tail@.len()),
{
    let hay = chars_of(text);
    let pin = chars_of(tail);
    pin.len() <= hay.len() && found_at(&hay, &pin, hay.len() - pin.len())
}

/// `s` with every `from`, taken from the left, replaced by `to`.
pub open spec fn replaced(s: Seq<char>, from: Seq<char>, to: Seq<char>) -> Seq<char>
    decreases s.len(),
{
    if from.len() == 0 || s.len() < from.len() {
        s
    } else if occurs_at(s, from, 0) {
        to + replaced(s.skip(from.len() as int), from, to)
    } else {
        seq![s[0]] + replaced(s.skip(1), from, to)
    }
}

/// The text with every `from` replaced by `to`.
pub fn replace(text: &str, from: &str, to: &str) -> (r: String)
    requires
        from@.len() > 0,
    ensures
        r@ == replaced(text@, from@, to@),
{
    let hay = chars_of(text);
    let pin = chars_of(from);
    let mut out = String::new();
    let mut i: usize = 0;
    assert(text@.skip(0) == text@);
    assert(out@ + replaced(text@.skip(0), from@, to@) == replaced(text@, from@, to@));
    while i < hay.len()
        invariant
            hay@ == text@,
            pin@ == from@,
            pin@.len() > 0,
            i <= hay@.len(),
            out@ + replaced(text@.skip(i as int), from@, to@) == replaced(text@, from@, to@),
        decreases hay@.len() - i,
    {
        let ghost rest = text@.skip(i as int);
        if found_at(&hay, &pin, i) {
            assert(rest.subrange(0, from@.len() as int) == text@.subrange(
                i as int,
                i + from@.len(),
            ));
            assert(occurs_at(rest, from@, 0));
            assert(rest.skip(from@.len() as int) == text@.skip(i + from@.len()));
            let ghost before = out@;
            out.append(to);
            assert(before + (to@ + replaced(text@.skip(i + from@.len()), from@, to@)) == out@
                + replaced(text@.skip(i + from@.len()), from@, to@));
            i = i + pin.len();
        } else {
            assert(rest.len() >= from@.len() ==> rest.subrange(0, from@.len() as int)
                == text@.subrange(i as int, i + from@.len()));
            assert(rest.skip(1) == text@.skip(i + 1));
            let ghost before = out@;
            out.push(hay[i]);
            proof {
                if rest.len() < from@.len() {
                    assert(rest == seq![rest[0]] + text@.skip(i + 1));
                }
            }
            assert(before + (seq![rest[0]] + replaced(text@.skip(i + 1), from@, to@)) == out@
                + replaced(text@.skip(i + 1), from@, to@));
            i = i + 1;
        }
    }
    assert(text@.skip(i as int) == Seq::<char>::empty());
    assert(out@ + Seq::<char>::empty() == out@);
    out
}

/// A character in lower case, where it is an ASCII letter.
pub open spec fn lower(c: char) -> char {
    if 'A' <= c <= 'Z' {
        ((c as u8) + 32) as char
    } else {
        c
    }
}

/// `s` with its ASCII letters in lower case.
pub open spec fn lowered(s: Seq<char>) -> Seq<char> {
    s.map_values(|c: char| lower(c))
}

/// The text with its ASCII letters in lower case.
pub fn lower_case(text: &str) -> (r: String)
    ensures
        r@ == lowered(text@),
{
    let chars = chars_of(text);
    let mut out = String::new();
    let mut i: usize = 0;
    while i < chars.len()
        invariant
            chars@ == text@,
            i <= chars@.len(),
            out@ == lowered(text@.take(i as int)),
        decreases chars@.len() - i,
    {
        let c = chars[i];
        assert(lowered(text@.take(i + 1)) == lowered(text@.take(i as int)).push(lower(c)));
        if 'A' <= c && c <= 'Z' {
            out.push((c as u8 + 32) as char);
        } else {
            out.push(c);
        }
        i = i + 1;
    }
    assert(text@.take(i as int) == text@);
    out
}

/// `line` without the carriage return that ends it, if one does.
pub open spec fn without_return(line: Seq<char>) -> Seq<char> {
    if line.len() > 0 && line.last() == '\r' {
        line.drop_last()
    } else {
        line
    }
}

/// How many characters stand before the first `mark`, or in all of `s` if there is none.
pub open spec fn length_before(s: Seq<char>, mark: char) -> nat
    decreases s.len(),
{
    if s.len() == 0 || s[0] == mark {
        0
    } else {
        1 + length_before(s.skip(1), mark)
    }
}

/// The length before a mark is the place of its first occurrence.
pub proof fn lemma_length_before(s: Seq<char>, mark: char, n: nat)
    requires
        n <= s.len(),
        forall|k: int| 0 <= k < n ==> s[k] != mark,
        n < s.len() ==> s[n as int] == mark,
    ensures
        length_before(s, mark) == n,
    decreases n,
{
    if n > 0 {
        assert(s[0] != mark);
        assert forall|k: int| 0 <= k < n - 1 implies s.skip(1)[k] != mark by {
            assert(s.skip(1)[k] == s[k + 1]);
        }
        lemma_length_before(s.skip(1), mark, (n - 1) as nat);
    }
}

/// The place of the first `mark` at or after `from`, or the end.
pub fn find_mark(chars: &Vec<char>, from: usize, mark: char) -> (end: usize)
    requires
        from <= chars@.len(),
    ensures
        from <= end <= chars@.len(),
        end - from == length_before(chars@.skip(from as int), mark),
        end < chars@.len() ==> chars@[end as int] == mark,
        forall|k: int| from <= k < end ==> chars@[k] != mark,
{
    let mut end: usize = from;
    while end < chars.len() && chars[end] != mark
        invariant
            from <= end <= chars@.len(),
            forall|k: int| from <= k < end ==> chars@[k] != mark,
        decreases chars@.len() - end,
    {
        end = end + 1;
    }
    proof {
        lemma_length_before(chars@.skip(from as int), mark, (end - from) as nat);
    }
    end
}

/// The lines of a text: each ends before `\n` or `\r\n`, the last may end with the text.
pub open spec fn lines_of(s: Seq<char>) -> Seq<Seq<char>>
    decreases s.len(),
{
    let end = length_before(s, '\n');
    if s.len() == 0 {
        seq![]
    } else if end < s.len() {
        seq![without_return(s.take(end as int))] + lines_of(s.skip(end as int + 1))
    } else {
        seq![s]
    }
}

/// The text of an optional string.
pub open spec fn text_option(text: Option<String>) -> Option<Seq<char>> {
    match text {
        Some(text) => Some(text@),
        None => None,
    }
}

/// The views of a list of texts.
pub open spec fn texts(list: Seq<String>) -> Seq<Seq<char>> {
    list.map_values(|text: String| text@)
}

/// The lines of a text.
pub fn lines(text: &str) -> (r: Vec<String>)
    ensures
        texts(r@) == lines_of(text@),
{
    let chars = chars_of(text);
    let mut out: Vec<String> = Vec::new();
    let mut from: usize = 0;
    assert(text@.skip(0) == text@);
    assert(texts(out@) + lines_of(text@) == lines_of(text@));
    while from < chars.len()
        invariant
            chars@ == text@,
            from <= text@.len(),
            texts(out@) + lines_of(text@.skip(from as int)) == lines_of(text@),
        decreases text@.len() - from,
    {
        let ghost rest = text@.skip(from as int);
        let ghost before = texts(out@);
        let end = find_mark(&chars, from, '\n');
        if end == chars.len() {
            let line = text_of(&chars, from, end);
            assert(line@ == rest);
            out.push(line);
            assert(texts(out@) == before + seq![rest]);
            return out;
        }
        let mut stop: usize = end;
        if end > from && chars[end - 1] == '\r' {
            stop = end - 1;
        }
        let line = text_of(&chars, from, stop);
        assert(line@ == without_return(rest.take(end - from)));
        assert(rest.skip(end - from + 1) == text@.skip(end + 1));
        out.push(line);
        assert(texts(out@) == before.push(line@));
        assert(before.push(line@) + lines_of(text@.skip(end + 1)) == before + (seq![line@]
            + lines_of(text@.skip(end + 1))));
        from = end + 1;
    }
    assert(texts(out@) + seq![] == texts(out@));
    out
}

/// The digit for a number below ten.
pub open spec fn digit(d: nat) -> char {
    (48 + d) as char
}

/// A number in decimal, without leading zeros.
pub open spec fn decimal(n: nat) -> Seq<char>
    decreases n,
{
    if n < 10 {
        seq![digit(n)]
    } else {
        decimal(n / 10).push(digit(n % 10))
    }
}

/// A number in decimal, without leading zeros.
pub fn decimal_text(n: u128) -> (r: String)
    ensures
        r@ == decimal(n as nat),
    decreases n,
{
    let last = (48u8 + (n % 10) as u8) as char;
    if n < 10 {
        let mut out = String::new();
        out.push(last);
        assert(out@ == seq![digit(n as nat)]);
        out
    } else {
        let mut out = decimal_text(n / 10);
        out.push(last);
        out
    }
}

/// Whether a character is a decimal digit.
pub open spec fn is_digit(c: char) -> bool {
    '0' <= c <= '9'
}

/// The number that a run of digits writes.
pub open spec fn number(s: Seq<char>) -> nat
    decreases s.len(),
{
    if s.len() == 0 {
        0
    } else {
        number(s.drop_last()) * 10 + (s.last() as nat - 48) as nat
    }
}

/// Whether `s` is one decimal digit or more.
pub open spec fn all_digits(s: Seq<char>) -> bool {
    s.len() > 0 && forall|i: int| 0 <= i < s.len() ==> is_digit(s[i])
}

/// `s` without the plus sign that it starts with, if it does.
pub open spec fn without_plus(s: Seq<char>) -> Seq<char> {
    if s.len() > 0 && s[0] == '+' {
        s.skip(1)
    } else {
        s
    }
}

/// The `u32` that `s` writes: decimal digits, at least one, with a `+` before them or not.
pub open spec fn parsed_u32(s: Seq<char>) -> Option<u32> {
    let digits = without_plus(s);
    if all_digits(digits) && number(digits) <= u32::MAX {
        Some(number(digits) as u32)
    } else {
        None
    }
}

/// A longer run of digits writes no smaller number.
proof fn lemma_number_grows(s: Seq<char>, n: int)
    requires
        0 <= n <= s.len(),
        forall|i: int| 0 <= i < s.len() ==> is_digit(s[i]),
    ensures
        number(s.take(n)) <= number(s),
    decreases s.len() - n,
{
    if n == s.len() {
        assert(s.take(n) == s);
    } else {
        assert(s.take(n + 1).drop_last() == s.take(n));
        lemma_number_grows(s, n + 1);
    }
}

/// The `u32` that the characters from `from` to `to` write, if they write one.
pub fn parse_u32(chars: &Vec<char>, from: usize, to: usize) -> (r: Option<u32>)
    requires
        from <= to <= chars@.len(),
    ensures
        r == parsed_u32(chars@.subrange(from as int, to as int)),
{
    let ghost s = chars@.subrange(from as int, to as int);
    let mut i: usize = from;
    if i < to && chars[i] == '+' {
        i = i + 1;
    }
    let ghost digits = without_plus(s);
    let ghost start = i;
    assert(digits == chars@.subrange(start as int, to as int));
    if i == to {
        return None;
    }
    let mut n: u64 = 0;
    while i < to
        invariant
            start <= i <= to <= chars@.len(),
            digits == chars@.subrange(start as int, to as int),
            n <= u32::MAX,
            n == number(digits.take(i - start)),
            forall|k: int| 0 <= k < i - start ==> is_digit(digits[k]),
            digits == without_plus(chars@.subrange(from as int, to as int)),
        decreases to - i,
    {
        let c = chars[i];
        assert(digits[i - start] == c);
        if c < '0' || c > '9' {
            return None;
        }
        assert(digits.take(i - start + 1).drop_last() == digits.take(i - start));
        n = n * 10 + (c as u64 - 48);
        if n > u32::MAX as u64 {
            proof {
                if all_digits(digits) {
                    lemma_number_grows(digits, i - start + 1);
                }
            }
            return None;
        }
        i = i + 1;
    }
    assert(digits.take(i - start) == digits);
    Some(n as u32)
}

/// A number in decimal is made of digits and reads back as itself.
pub proof fn law_decimal_reads_back(n: nat)
    ensures
        all_digits(decimal(n)),
        number(decimal(n)) == n,
    decreases n,
{
    if n < 10 {
        assert(decimal(n).drop_last() == Seq::<char>::empty());
        assert(number(decimal(n).drop_last()) == 0);
    } else {
        law_decimal_reads_back(n / 10);
        assert(decimal(n).drop_last() == decimal(n / 10));
        assert forall|i: int| 0 <= i < decimal(n).len() implies is_digit(decimal(n)[i]) by {
            if i < decimal(n / 10).len() {
                assert(decimal(n)[i] == decimal(n / 10)[i]);
            }
        }
    }
}

/// Digits behind a dash are told apart from what stands before it.
pub proof fn lemma_dash_parts(a: Seq<char>, d: Seq<char>, b: Seq<char>, e: Seq<char>)
    requires
        all_digits(d),
        all_digits(e),
        a + seq!['-'] + d == b + seq!['-'] + e,
    ensures
        a == b,
        d == e,
{
    let left = a + seq!['-'] + d;
    let right = b + seq!['-'] + e;
    assert(left.len() == a.len() + 1 + d.len());
    assert(right.len() == b.len() + 1 + e.len());
    assert(left[a.len() as int] == '-');
    assert(right[b.len() as int] == '-');
    if a.len() < b.len() {
        assert(left[b.len() as int] == d[b.len() - a.len() - 1]);
        assert(is_digit(d[b.len() - a.len() - 1]));
    }
    if b.len() < a.len() {
        assert(right[a.len() as int] == e[a.len() - b.len() - 1]);
        assert(is_digit(e[a.len() - b.len() - 1]));
    }
    assert(left.take(a.len() as int) == a);
    assert(right.take(b.len() as int) == b);
    assert(left.skip(a.len() as int + 1) == d);
    assert(right.skip(b.len() as int + 1) == e);
}

/// Trimming takes the characters of its class off both ends and nothing else.
pub proof fn law_trimming_takes_only_the_ends(s: Seq<char>, class: Trim)
    ensures
        exists|from: int, to: int|
            #![trigger s.subrange(from, to)]
            0 <= from <= to <= s.len() && trimmed(s, class) == s.subrange(from, to) && (forall|k: int|
                (0 <= k < from || to <= k < s.len()) ==> class.takes(#[trigger] s[k])) && (from < to
                ==> !class.takes(s[from]) && !class.takes(s[to - 1])),
{
    let from = lemma_trimmed_front(s, class);
    let rest = s.skip(from);
    let len = lemma_trimmed_back(rest, class);
    assert(rest.take(len) =~= s.subrange(from, from + len));
    assert forall|k: int| (0 <= k < from || from + len <= k < s.len()) implies class.takes(
        #[trigger] s[k],
    ) by {
        if k >= from {
            assert(s[k] == rest[k - from]);
        }
    }
    if len > 0 {
        assert(rest[0] == s[from]);
        assert(rest[len - 1] == s[from + len - 1]);
    }
}

proof fn lemma_trimmed_front(s: Seq<char>, class: Trim) -> (n: int)
    ensures
        0 <= n <= s.len(),
        trimmed_front(s, class) == s.skip(n),
        forall|k: int| 0 <= k < n ==> class.takes(#[trigger] s[k]),
        n < s.len() ==> !class.takes(s[n]),
    decreases s.len(),
{
    if s.len() > 0 && class.takes(s[0]) {
        let m = lemma_trimmed_front(s.skip(1), class);
        assert(s.skip(1).skip(m) =~= s.skip(m + 1));
        assert forall|k: int| 0 <= k < m + 1 implies class.takes(#[trigger] s[k]) by {
            if k > 0 {
                assert(s[k] == s.skip(1)[k - 1]);
            }
        }
        m + 1
    } else {
        assert(s.skip(0) =~= s);
        0
    }
}

proof fn lemma_trimmed_back(s: Seq<char>, class: Trim) -> (n: int)
    ensures
        0 <= n <= s.len(),
        trimmed_back(s, class) == s.take(n),
        forall|k: int| n <= k < s.len() ==> class.takes(#[trigger] s[k]),
        n > 0 ==> !class.takes(s[n - 1]),
        n > 0 && !class.takes(s[0]) ==> !class.takes(s.take(n)[0]),
    decreases s.len(),
{
    if s.len() > 0 && class.takes(s.last()) {
        let m = lemma_trimmed_back(s.drop_last(), class);
        assert(s.drop_last().take(m) =~= s.take(m));
        assert forall|k: int| m <= k < s.len() implies class.takes(#[trigger] s[k]) by {
            if k < s.len() - 1 {
                assert(s[k] == s.drop_last()[k]);
            }
        }
        m
    } else {
        assert(s.take(s.len() as int) =~= s);
        s.len() as int
    }
}

/// What does not hold the text to be replaced stays as it is.
pub proof fn law_nothing_to_replace(s: Seq<char>, from: Seq<char>, to: Seq<char>)
    requires
        from.len() > 0,
        !occurs_in(s, from),
    ensures
        replaced(s, from, to) == s,
    decreases s.len(),
{
    if s.len() >= from.len() {
        assert(!occurs_at(s, from, 0));
        let rest = s.skip(1);
        if occurs_in(rest, from) {
            let i = choose|i: int| occurs_at(rest, from, i);
            assert(rest.subrange(i, i + from.len()) =~= s.subrange(i + 1, i + 1 + from.len()));
            assert(occurs_at(s, from, i + 1));
        }
        law_nothing_to_replace(rest, from, to);
        assert(seq![s[0]] + rest =~= s);
    }
}

/// Replacing keeps what stands before the first occurrence, sets `to` in its place, and goes on
/// behind it.
pub proof fn law_replacing_goes_from_the_left(
    before: Seq<char>,
    from: Seq<char>,
    behind: Seq<char>,
    to: Seq<char>,
)
    requires
        from.len() > 0,
        forall|i: int| 0 <= i < before.len() ==> !occurs_at(before + from + behind, from, i),
    ensures
        replaced(before + from + behind, from, to) == before + to + replaced(behind, from, to),
    decreases before.len(),
{
    let whole = before + from + behind;
    if before.len() == 0 {
        assert(whole.subrange(0, from.len() as int) =~= from);
        assert(whole.skip(from.len() as int) =~= behind);
        assert(before + to + replaced(behind, from, to) =~= to + replaced(behind, from, to));
    } else {
        let rest = before.skip(1);
        assert(!occurs_at(whole, from, 0));
        assert(whole.skip(1) =~= rest + from + behind);
        assert forall|i: int| 0 <= i < rest.len() implies !occurs_at(rest + from + behind, from, i) by {
            assert(!occurs_at(whole, from, i + 1));
            let later = rest + from + behind;
            if occurs_at(later, from, i) {
                assert(later.subrange(i, i + from.len()) =~= whole.subrange(
                    i + 1,
                    i + 1 + from.len(),
                ));
            }
        }
        law_replacing_goes_from_the_left(rest, from, behind, to);
        assert(whole[0] == before[0]);
        assert(seq![before[0]] + (rest + to + replaced(behind, from, to)) =~= before + to
            + replaced(behind, from, to));
    }
}

/// Lower case changes the capital ASCII letters, each to its own small one, and nothing else.
pub proof fn law_lower_case_changes_only_capitals(s: Seq<char>, i: int)
    requires
        0 <= i < s.len(),
    ensures
        lowered(s).len() == s.len(),
        65 <= s[i] as nat <= 90 ==> lowered(s)[i] as nat == s[i] as nat + 32,
        !(65 <= s[i] as nat <= 90) ==> lowered(s)[i] == s[i],
{
}

/// A line ends at its line feed, and a carriage return before that belongs to the end.
pub proof fn law_lines_end_at_line_feeds(line: Seq<char>, rest: Seq<char>)
    requires
        !line.contains('\n'),
    ensures
        line.len() == 0 || line.last() != '\r' ==> lines_of(line + seq!['\n'] + rest) == seq![line]
            + lines_of(rest),
        lines_of(line + seq!['\r', '\n'] + rest) == seq![line] + lines_of(rest),
        line.len() > 0 ==> lines_of(line) == seq![line],
        lines_of(Seq::empty()).len() == 0,
{
    let whole = line + seq!['\n'] + rest;
    lemma_length_before(whole, '\n', line.len());
    assert(whole.take(line.len() as int) =~= line);
    assert(whole.skip(line.len() as int + 1) =~= rest);
    let other = line + seq!['\r', '\n'] + rest;
    assert(forall|k: int| 0 <= k < line.len() ==> other[k] == line[k]);
    assert(other[line.len() as int] == '\r');
    assert(other[line.len() as int + 1] == '\n');
    lemma_length_before(other, '\n', line.len() + 1);
    assert(other.take(line.len() as int + 1) =~= line.push('\r'));
    assert(line.push('\r').drop_last() =~= line);
    assert(other.skip(line.len() as int + 2) =~= rest);
    lemma_length_before(line, '\n', line.len());
}

/// A number in decimal has no zeros before it.
pub proof fn law_decimal_has_no_leading_zeros(n: nat)
    ensures
        n > 0 ==> decimal(n)[0] != '0',
        n == 0 ==> decimal(n) == seq!['0'],
    decreases n,
{
    if n >= 10 {
        law_decimal_has_no_leading_zeros(n / 10);
        law_decimal_reads_back(n / 10);
    }
}

/// Every number that fits is read from its decimal digits, with a plus sign or zeros before them or
/// not; one that does not fit is not read.
pub proof fn law_numbers_are_read(n: nat)
    ensures
        n <= u32::MAX ==> parsed_u32(decimal(n)) == Some(n as u32),
        n > u32::MAX ==> parsed_u32(decimal(n)) is None,
        parsed_u32(seq!['+'] + decimal(n)) == parsed_u32(decimal(n)),
        parsed_u32(seq!['0'] + decimal(n)) == parsed_u32(decimal(n)),
{
    let d = decimal(n);
    law_decimal_reads_back(n);
    assert(is_digit(d[0]));
    assert((seq!['+'] + d).skip(1) =~= d);
    assert(without_plus(d) == d);
    let z = seq!['0'] + d;
    lemma_leading_zero(d);
    assert forall|i: int| 0 <= i < z.len() implies is_digit(z[i]) by {
        if i > 0 {
            assert(z[i] == d[i - 1]);
        }
    }
}

proof fn lemma_leading_zero(s: Seq<char>)
    ensures
        number(seq!['0'] + s) == number(s),
    decreases s.len(),
{
    let z = seq!['0'] + s;
    if s.len() == 0 {
        assert(z.drop_last() =~= Seq::<char>::empty());
        assert(number(z.drop_last()) == 0);
        assert(z.last() == '0');
    } else {
        assert(z.drop_last() =~= seq!['0'] + s.drop_last());
        lemma_leading_zero(s.drop_last());
    }
}

/// What holds anything but digits, one plus sign before them apart, is no number.
pub proof fn law_other_texts_are_no_numbers(s: Seq<char>, i: int)
    requires
        0 <= i < s.len(),
        !('0' <= s[i] <= '9'),
        i > 0 || s[i] != '+' || s.len() == 1,
    ensures
        parsed_u32(s) is None,
{
    if s[0] == '+' {
        if i > 0 {
            assert(s.skip(1)[i - 1] == s[i]);
        }
    }
}

/// The length before a mark reaches to the mark, if there is one.
pub proof fn lemma_length_before_place(s: Seq<char>, mark: char)
    ensures
        length_before(s, mark) <= s.len(),
        length_before(s, mark) < s.len() ==> s[length_before(s, mark) as int] == mark,
    decreases s.len(),
{
    if s.len() > 0 && s[0] != mark {
        lemma_length_before_place(s.skip(1), mark);
    }
}

} // verus!
