//! Texts: their characters, and what the rest of the library asks of them.
use vstd::prelude::*;
use vstd::string::*;
use vstd::utf8::*;

verus! {

/// `String::push`: the character becomes the last one of the string.
pub assume_specification[ String::push ](s: &mut String, c: char)
    ensures
        final(s)@ == old(s)@.push(c),
;

/// A character of the Unicode property `White_Space`.
pub open spec fn white_space(c: char) -> bool {
    ||| '\u{9}' <= c <= '\u{d}'
    ||| c == '\u{20}'
    ||| c == '\u{85}'
    ||| c == '\u{a0}'
    ||| c == '\u{1680}'
    ||| '\u{2000}' <= c <= '\u{200a}'
    ||| c == '\u{2028}'
    ||| c == '\u{2029}'
    ||| c == '\u{202f}'
    ||| c == '\u{205f}'
    ||| c == '\u{3000}'
}

/// Whether a character has the Unicode property `White_Space`.
pub fn is_white_space(c: char) -> (white: bool)
    ensures
        white == white_space(c),
{
    ('\u{9}' <= c && c <= '\u{d}') || c == '\u{20}' || c == '\u{85}' || c == '\u{a0}' || c
        == '\u{1680}' || ('\u{2000}' <= c && c <= '\u{200a}') || c == '\u{2028}' || c == '\u{2029}' || c
        == '\u{202f}' || c == '\u{205f}' || c == '\u{3000}'
}

/// What the formatting `{:?}` writes for a text that may be missing.
pub uninterp spec fn debug_text(text: Option<Seq<char>>) -> Seq<char>;

/// `format!` with `{:?}` on an `Option<String>`: what it writes depends on the text alone, and is
/// known by that name.
#[verifier::external_body]
pub(crate) fn debug_of(text: &Option<String>) -> (written: String)
    ensures
        written@ == debug_text(opt_string(*text)),
{
    format!("{:?}", text)
}

/// A text that may be missing, as its characters.
pub open spec fn opt_text(text: Option<&str>) -> Option<Seq<char>> {
    match text {
        Some(t) => Some(t@),
        None => None,
    }
}

/// A string that may be missing, as its characters.
pub open spec fn opt_string(text: Option<String>) -> Option<Seq<char>> {
    match text {
        Some(t) => Some(t@),
        None => None,
    }
}

/// A text without the white space at its two ends.
pub open spec fn trimmed(s: Seq<char>) -> Seq<char>
    decreases s.len(),
{
    if s.len() > 0 && white_space(s[0]) {
        trimmed(s.drop_first())
    } else if s.len() > 0 && white_space(s.last()) {
        trimmed(s.drop_last())
    } else {
        s
    }
}

/// The pattern stands somewhere in the text.
pub open spec fn occurs(pattern: Seq<char>, s: Seq<char>) -> bool {
    exists|i: int| occurs_at(pattern, s, i)
}

/// The pattern stands in the text at this position.
pub open spec fn occurs_at(pattern: Seq<char>, s: Seq<char>, i: int) -> bool {
    0 <= i && i + pattern.len() <= s.len() && s.subrange(i, i + pattern.len()) == pattern
}

/// A text cut at the first such character: what stands before it, and what follows it, where it
/// stands in the text at all.
pub open spec fn cut_at(s: Seq<char>, c: char) -> (Seq<char>, Option<Seq<char>>) {
    match s.index_of_first(c) {
        Some(i) => (s.take(i), Some(s.skip(i + 1))),
        None => (s, None),
    }
}

/// The text begins with the pattern.
pub open spec fn begins_with(s: Seq<char>, pattern: Seq<char>) -> bool {
    pattern.len() <= s.len() && s.take(pattern.len() as int) == pattern
}

/// A text made of decimal digits, at least one.
pub open spec fn all_digits(s: Seq<char>) -> bool {
    s.len() > 0 && forall|i: int| 0 <= i < s.len() ==> '0' <= #[trigger] s[i] <= '9'
}

/// The number that decimal digits spell.
pub open spec fn number_of(digits: Seq<char>) -> nat
    decreases digits.len(),
{
    if digits.len() == 0 {
        0
    } else {
        (number_of(digits.drop_last()) * 10 + (digits.last() as int - '0' as int)) as nat
    }
}

/// The decimal digits of a number.
pub open spec fn decimal(n: nat) -> Seq<char>
    decreases n,
{
    if n < 10 {
        seq![((48 + n) as u8) as char]
    } else {
        decimal(n / 10).push(((48 + n % 10) as u8) as char)
    }
}

/// The decimal digits of a number, behind a minus sign where it is negative.
pub open spec fn signed_decimal(i: int) -> Seq<char> {
    if i < 0 {
        seq!['-'] + decimal((-i) as nat)
    } else {
        decimal(i as nat)
    }
}

/// The lower-case hexadecimal digit of a value below 16.
pub open spec fn hex_digit(value: int) -> char {
    ((if value < 10 {
        48 + value
    } else {
        87 + value
    }) as u8) as char
}

/// A byte in hexadecimal, behind `0x` and without leading zeros.
pub open spec fn hex(byte: u8) -> Seq<char> {
    if byte < 16 {
        seq!['0', 'x', hex_digit(byte as int)]
    } else {
        seq!['0', 'x', hex_digit(byte as int / 16), hex_digit(byte as int % 16)]
    }
}

/// The characters of a text.
pub fn chars_of(text: &str) -> (chars: Vec<char>)
    ensures
        chars@ == text@,
{
    let mut chars: Vec<char> = Vec::new();
    for c in it: text.chars()
        invariant
            it.seq() == text@,
            chars@ == it.seq().take(it.index()),
    {
        chars.push(c);
    }
    assert(chars@ == text@);
    chars
}

/// The text that the characters between two positions spell.
pub fn text_between(chars: &Vec<char>, from: usize, to: usize) -> (text: String)
    requires
        from <= to <= chars@.len(),
    ensures
        text@ == chars@.subrange(from as int, to as int),
{
    let mut text = String::new();
    for i in from..to
        invariant
            from <= to <= chars@.len(),
            text@ == chars@.subrange(from as int, i as int),
    {
        text.push(chars[i]);
    }
    text
}

/// Whether two texts are the same.
pub fn same_text(a: &str, b: &str) -> (same: bool)
    ensures
        same == (a@ == b@),
{
    let x = a.as_bytes();
    let y = b.as_bytes();
    proof {
        encode_utf8_decode_utf8(a@);
        encode_utf8_decode_utf8(b@);
    }
    if x.len() != y.len() {
        return false;
    }
    for i in 0..x.len()
        invariant
            x@.len() == y@.len(),
            x@ == encode_utf8(a@),
            y@ == encode_utf8(b@),
            forall|j: int| 0 <= j < i ==> x@[j] == y@[j],
    {
        if x[i] != y[i] {
            return false;
        }
    }
    assert(x@ == y@);
    true
}

/// A copy of a text that may be missing.
pub fn owned(text: Option<&str>) -> (copy: Option<String>)
    ensures
        opt_string(copy) == opt_text(text),
{
    match text {
        Some(t) => Some(t.to_string()),
        None => None,
    }
}

/// Whether a text that may be missing is this one.
pub fn is_text(text: Option<&str>, wanted: &str) -> (same: bool)
    ensures
        same == (opt_text(text) == Some(wanted@)),
{
    match text {
        Some(t) => same_text(t, wanted),
        None => false,
    }
}

/// The text without the white space at its two ends.
pub fn trim(text: &str) -> (rest: String)
    ensures
        rest@ == trimmed(text@),
{
    let chars = chars_of(text);
    let mut from: usize = 0;
    let mut to: usize = chars.len();
    assert(chars@.subrange(0, to as int) =~= text@);
    while from < to && is_white_space(chars[from])
        invariant
            from <= to == chars@.len(),
            trimmed(chars@.subrange(from as int, to as int)) == trimmed(text@),
        ensures
            from <= to == chars@.len(),
            trimmed(chars@.subrange(from as int, to as int)) == trimmed(text@),
            from < to ==> !white_space(chars@[from as int]),
        decreases to - from,
    {
        assert(chars@.subrange(from as int, to as int).drop_first() =~= chars@.subrange(
            from + 1,
            to as int,
        ));
        from = from + 1;
    }
    while from < to && is_white_space(chars[to - 1])
        invariant
            from <= to <= chars@.len(),
            from < to ==> !white_space(chars@[from as int]),
            trimmed(chars@.subrange(from as int, to as int)) == trimmed(text@),
        ensures
            from <= to <= chars@.len(),
            from < to ==> !white_space(chars@[from as int]) && !white_space(chars@[to - 1]),
            trimmed(chars@.subrange(from as int, to as int)) == trimmed(text@),
        decreases to - from,
    {
        assert(chars@.subrange(from as int, to as int).drop_last() =~= chars@.subrange(
            from as int,
            to - 1,
        ));
        to = to - 1;
    }
    text_between(&chars, from, to)
}

/// Whether a pattern stands somewhere in a text.
pub fn contains(text: &str, pattern: &str) -> (found: bool)
    ensures
        found == occurs(pattern@, text@),
{
    let chars = chars_of(text);
    let wanted = chars_of(pattern);
    if wanted.len() > chars.len() {
        return false;
    }
    let total: usize = chars.len();
    let last: usize = total - wanted.len();
    let mut i: usize = 0;
    while i <= last
        invariant
            chars@ == text@,
            wanted@ == pattern@,
            chars@.len() == total,
            last == total - wanted@.len(),
            i <= last + 1,
            forall|j: int| 0 <= j < i ==> !occurs_at(pattern@, text@, j),
        decreases last + 1 - i,
    {
        let mut k: usize = 0;
        while k < wanted.len() && chars[i + k] == wanted[k]
            invariant
                chars@ == text@,
                wanted@ == pattern@,
                chars@.len() == total,
                last == total - wanted@.len(),
                i <= last,
                k <= wanted@.len(),
                forall|j: int| 0 <= j < k ==> #[trigger] chars@[i + j] == wanted@[j],
            decreases wanted@.len() - k,
        {
            k = k + 1;
        }
        if k == wanted.len() {
            assert forall|j: int| 0 <= j < pattern@.len() implies text@.subrange(
                i as int,
                i + pattern@.len(),
            )[j] == pattern@[j] by {
                assert(chars@[i + j] == wanted@[j]);
            }
            assert(text@.subrange(i as int, i + pattern@.len()) =~= pattern@);
            assert(occurs_at(pattern@, text@, i as int));
            return true;
        }
        proof {
            if occurs_at(pattern@, text@, i as int) {
                assert(text@.subrange(i as int, i + pattern@.len())[k as int] == pattern@[k as int]);
            }
        }
        if i == last {
            return false;
        }
        i = i + 1;
    }
    false
}

/// Whether a character stands somewhere in a text.
pub fn contains_char(text: &str, wanted: char) -> (found: bool)
    ensures
        found == text@.contains(wanted),
{
    let chars = chars_of(text);
    for i in 0..chars.len()
        invariant
            chars@ == text@,
            forall|j: int| 0 <= j < i ==> chars@[j] != wanted,
    {
        if chars[i] == wanted {
            assert(text@[i as int] == wanted);
            return true;
        }
    }
    false
}

/// The position of the first `wanted` among some characters, from a position on; their number
/// where there is none.
pub fn find_char(chars: &Vec<char>, from: usize, wanted: char) -> (at: usize)
    requires
        from <= chars@.len(),
    ensures
        from <= at <= chars@.len(),
        at < chars@.len() ==> chars@[at as int] == wanted,
        forall|j: int| from <= j < at ==> chars@[j] != wanted,
{
    let mut at: usize = from;
    while at < chars.len() && chars[at] != wanted
        invariant
            from <= at <= chars@.len(),
            forall|j: int| from <= j < at ==> chars@[j] != wanted,
        decreases chars@.len() - at,
    {
        at = at + 1;
    }
    at
}

/// A text cut at the first such character.
pub fn cut(text: &str, c: char) -> (parts: (String, Option<String>))
    ensures
        parts.0@ == cut_at(text@, c).0,
        opt_string(parts.1) == cut_at(text@, c).1,
{
    let chars = chars_of(text);
    let at = find_char(&chars, 0, c);
    proof {
        text@.index_of_first_ensures(c);
        if at < chars@.len() {
            assert(text@.contains(c));
        }
        assert(chars@.subrange(0, at as int) =~= text@.take(at as int));
    }
    let head = text_between(&chars, 0, at);
    if at < chars.len() {
        assert(chars@.subrange(at + 1, chars@.len() as int) =~= text@.skip(at + 1));
        (head, Some(text_between(&chars, at + 1, chars.len())))
    } else {
        (head, None)
    }
}

/// What follows a pattern that a text begins with.
pub fn after(text: &str, pattern: &str) -> (rest: Option<String>)
    ensures
        opt_string(rest) == (if begins_with(text@, pattern@) {
            Some(text@.skip(pattern@.len() as int))
        } else {
            None
        }),
{
    let chars = chars_of(text);
    let wanted = chars_of(pattern);
    if wanted.len() > chars.len() {
        return None;
    }
    for i in 0..wanted.len()
        invariant
            chars@ == text@,
            wanted@ == pattern@,
            wanted@.len() <= chars@.len(),
            forall|j: int| 0 <= j < i ==> chars@[j] == wanted@[j],
    {
        if chars[i] != wanted[i] {
            assert(text@.take(pattern@.len() as int)[i as int] != pattern@[i as int]);
            return None;
        }
    }
    assert(text@.take(pattern@.len() as int) =~= pattern@);
    assert(chars@.subrange(wanted@.len() as int, chars@.len() as int) =~= text@.skip(
        pattern@.len() as int,
    ));
    Some(text_between(&chars, wanted.len(), chars.len()))
}

/// The first digits of a number spell no more than all of them.
proof fn lemma_number_of_prefix(digits: Seq<char>, i: int)
    requires
        all_digits(digits),
        0 <= i <= digits.len(),
    ensures
        number_of(digits.take(i)) <= number_of(digits),
    decreases digits.len() - i,
{
    if i == digits.len() {
        assert(digits.take(i) =~= digits);
    } else {
        lemma_number_of_prefix(digits, i + 1);
        assert(digits.take(i + 1).drop_last() =~= digits.take(i));
        assert('0' <= digits[i] <= '9');
    }
}

/// The number of at most 16 bits that decimal digits spell.
pub fn parse_u16(text: &str) -> (number: Option<u16>)
    ensures
        number == (if all_digits(text@) && number_of(text@) <= 65535 {
            Some(number_of(text@) as u16)
        } else {
            None
        }),
{
    let chars = chars_of(text);
    if chars.len() == 0 {
        return None;
    }
    for i in 0..chars.len()
        invariant
            chars@ == text@,
            forall|j: int| 0 <= j < i ==> '0' <= #[trigger] text@[j] <= '9',
    {
        let c = chars[i];
        if c < '0' || c > '9' {
            return None;
        }
    }
    assert(all_digits(text@));
    let mut n: u32 = 0;
    for i in 0..chars.len()
        invariant
            chars@ == text@,
            all_digits(text@),
            n <= 65535,
            n == number_of(text@.take(i as int)),
    {
        let c = chars[i];
        assert('0' <= text@[i as int] <= '9');
        n = n * 10 + (c as u32 - '0' as u32);
        proof {
            assert(text@.take(i + 1).drop_last() =~= text@.take(i as int));
            lemma_number_of_prefix(text@, i + 1);
        }
        if n > 65535 {
            return None;
        }
    }
    assert(text@.take(text@.len() as int) =~= text@);
    Some(n as u16)
}

/// The decimal digits of a number.
pub fn decimal_of(n: u64) -> (digits: String)
    ensures
        digits@ == decimal(n as nat),
    decreases n,
{
    if n < 10 {
        let mut digits = String::new();
        digits.push((48 + n as u8) as char);
        assert(digits@ =~= decimal(n as nat));
        digits
    } else {
        let mut digits = decimal_of(n / 10);
        digits.push((48 + (n % 10) as u8) as char);
        digits
    }
}

/// The decimal digits of a number, behind a minus sign where it is negative.
pub fn signed_decimal_of(i: i64) -> (digits: String)
    ensures
        digits@ == signed_decimal(i as int),
{
    if i < 0 {
        let size: u64 = (-(i + 1)) as u64 + 1;
        let mut digits = String::new();
        digits.push('-');
        digits.append(decimal_of(size).as_str());
        assert(digits@ =~= signed_decimal(i as int));
        digits
    } else {
        decimal_of(i as u64)
    }
}

/// A byte in hexadecimal, behind `0x` and without leading zeros.
pub fn hex_of(byte: u8) -> (digits: String)
    ensures
        digits@ == hex(byte),
{
    let mut digits = String::new();
    digits.push('0');
    digits.push('x');
    if byte >= 16 {
        digits.push(hex_digit_of(byte / 16));
    }
    digits.push(hex_digit_of(byte % 16));
    assert(digits@ =~= hex(byte));
    digits
}

fn hex_digit_of(value: u8) -> (digit: char)
    requires
        value < 16,
    ensures
        digit == hex_digit(value as int),
{
    if value < 10 {
        (48 + value) as char
    } else {
        (87 + value) as char
    }
}

/// A text is cut where the character first stands, and not at all where it does not stand.
pub proof fn lemma_cut_at(head: Seq<char>, c: char, tail: Seq<char>)
    requires
        !head.contains(c),
    ensures
        cut_at(head + seq![c] + tail, c) == (head, Some(tail)),
        cut_at(head, c) == (head, None::<Seq<char>>),
{
    let s = head + seq![c] + tail;
    head.index_of_first_ensures(c);
    s.index_of_first_ensures(c);
    assert(s[head.len() as int] == c);
    assert(s.contains(c));
    let i = s.index_of_first(c).unwrap();
    if i < head.len() {
        assert(head[i] == c);
        assert(head.contains(c));
    }
    assert(i == head.len());
    assert(s.take(i) =~= head);
    assert(s.skip(i + 1) =~= tail);
}

/// What stands in a text stands in every text that ends with it.
pub proof fn lemma_occurs_in_tail(pattern: Seq<char>, head: Seq<char>, tail: Seq<char>)
    requires
        occurs(pattern, tail),
    ensures
        occurs(pattern, head + tail),
{
    let i = choose|i: int| occurs_at(pattern, tail, i);
    let whole = head + tail;
    assert(whole.subrange(head.len() + i, head.len() + i + pattern.len()) =~= tail.subrange(
        i,
        i + pattern.len(),
    ));
    assert(occurs_at(pattern, whole, head.len() + i));
}

/// A text with no white space at its two ends is what trimming leaves of it with a line feed behind.
pub proof fn lemma_trimmed_line(s: Seq<char>)
    requires
        s.len() > 0,
        !white_space(s[0]),
        !white_space(s.last()),
    ensures
        trimmed(s.push('\n')) == s,
{
    let line = s.push('\n');
    assert(line[0] == s[0]);
    assert(line.drop_last() =~= s);
    reveal_with_fuel(trimmed, 2);
}

/// The decimal digits, one by one.
proof fn lemma_digit(v: int)
    requires
        0 <= v < 10,
    ensures
        "0123456789"@.len() == 10,
        "0123456789"@[v] == ((48 + v) as u8) as char,
{
    reveal_strlit("0123456789");
    let s = "0123456789"@;
    if v == 0 {
        assert(s[0] == '0');
    } else if v == 1 {
        assert(s[1] == '1');
    } else if v == 2 {
        assert(s[2] == '2');
    } else if v == 3 {
        assert(s[3] == '3');
    } else if v == 4 {
        assert(s[4] == '4');
    } else if v == 5 {
        assert(s[5] == '5');
    } else if v == 6 {
        assert(s[6] == '6');
    } else if v == 7 {
        assert(s[7] == '7');
    } else if v == 8 {
        assert(s[8] == '8');
    } else if v == 9 {
        assert(s[9] == '9');
    }
}

/// The hexadecimal digits, one by one.
proof fn lemma_hex_digit(v: int)
    requires
        0 <= v < 16,
    ensures
        "0123456789abcdef"@.len() == 16,
        "0123456789abcdef"@[v] == hex_digit(v),
{
    reveal_strlit("0123456789abcdef");
    let s = "0123456789abcdef"@;
    if v == 0 {
        assert(s[0] == '0');
    } else if v == 1 {
        assert(s[1] == '1');
    } else if v == 2 {
        assert(s[2] == '2');
    } else if v == 3 {
        assert(s[3] == '3');
    } else if v == 4 {
        assert(s[4] == '4');
    } else if v == 5 {
        assert(s[5] == '5');
    } else if v == 6 {
        assert(s[6] == '6');
    } else if v == 7 {
        assert(s[7] == '7');
    } else if v == 8 {
        assert(s[8] == '8');
    } else if v == 9 {
        assert(s[9] == '9');
    } else if v == 10 {
        assert(s[10] == 'a');
    } else if v == 11 {
        assert(s[11] == 'b');
    } else if v == 12 {
        assert(s[12] == 'c');
    } else if v == 13 {
        assert(s[13] == 'd');
    } else if v == 14 {
        assert(s[14] == 'e');
    } else if v == 15 {
        assert(s[15] == 'f');
    }
}

/// The hexadecimal digit of a value below 16 is the character at that place among all of them.
pub proof fn hex_digits_are_literal(value: int)
    requires
        0 <= value < 16,
    ensures
        hex_digit(value) == "0123456789abcdef"@[value],
{
    lemma_hex_digit(value);
}

/// A text that may be missing is its characters where it is there.
pub proof fn optional_texts_are_their_characters(t: &str, s: String)
    ensures
        opt_text(Some(t)) == Some(t@),
        opt_text(None) is None,
        opt_string(Some(s)) == Some(s@),
        opt_string(None) is None,
{
}

/// A text that has something else than white space at its two ends is what trimming leaves, whatever
/// white space stands around it.
pub proof fn trimming_undoes_padding(before: Seq<char>, s: Seq<char>, after: Seq<char>)
    requires
        forall|i: int| 0 <= i < before.len() ==> white_space(#[trigger] before[i]),
        forall|i: int| 0 <= i < after.len() ==> white_space(#[trigger] after[i]),
        s.len() > 0 ==> !white_space(s[0]) && !white_space(s.last()),
    ensures
        trimmed(before + s + after) == s,
    decreases before.len() + after.len(),
{
    let whole = before + s + after;
    if before.len() > 0 {
        assert(whole[0] == before[0]);
        let rest = before.drop_first();
        assert forall|i: int| 0 <= i < rest.len() implies white_space(#[trigger] rest[i]) by {
            assert(rest[i] == before[i + 1]);
        }
        assert(whole.drop_first() =~= rest + s + after);
        trimming_undoes_padding(rest, s, after);
    } else if after.len() > 0 {
        let rest = after.drop_last();
        assert(whole.last() == after.last());
        assert forall|i: int| 0 <= i < rest.len() implies white_space(#[trigger] rest[i]) by {
            assert(rest[i] == after[i]);
        }
        trimming_undoes_padding(before, s, rest);
        assert(whole.drop_last() =~= before + s + rest);
        if white_space(whole[0]) {
            assert(s.len() == 0);
            assert(whole =~= after);
            let tail = after.drop_first();
            assert forall|i: int| 0 <= i < tail.len() implies white_space(#[trigger] tail[i]) by {
                assert(tail[i] == after[i + 1]);
            }
            trimming_undoes_padding(before, s, tail);
            assert(whole.drop_first() =~= before + s + tail);
        }
    } else {
        assert(whole =~= s);
    }
}

/// A pattern occurs in a text exactly where the text is something, the pattern and something else.
pub proof fn occurrence_is_between_two_texts(
    pattern: Seq<char>,
    s: Seq<char>,
    before: Seq<char>,
    after: Seq<char>,
)
    ensures
        occurs(pattern, before + pattern + after),
        occurs(pattern, s) ==> exists|a: Seq<char>, b: Seq<char>| s == #[trigger] (a + pattern + b),
{
    let whole = before + pattern + after;
    assert(whole.subrange(before.len() as int, before.len() as int + pattern.len()) =~= pattern);
    assert(occurs_at(pattern, whole, before.len() as int));
    if occurs(pattern, s) {
        let i = choose|i: int| occurs_at(pattern, s, i);
        let (a, b) = (s.take(i), s.skip(i + pattern.len()));
        assert(s =~= a + s.subrange(i, i + pattern.len()) + b);
        assert(s == a + pattern + b);
    }
}

/// A text begins with a pattern exactly where it is the pattern and something else.
pub proof fn beginning_is_followed_by_the_rest(s: Seq<char>, pattern: Seq<char>, rest: Seq<char>)
    ensures
        begins_with(pattern + rest, pattern),
        begins_with(s, pattern) ==> s == pattern + s.skip(pattern.len() as int),
{
    assert((pattern + rest).take(pattern.len() as int) =~= pattern);
    if begins_with(s, pattern) {
        assert(s =~= s.take(pattern.len() as int) + s.skip(pattern.len() as int));
    }
}

/// A digit behind others adds itself to ten times their number, and no digits at all spell zero.
pub proof fn digits_count_by_tens(digits: Seq<char>, v: int)
    requires
        0 <= v < 10,
    ensures
        number_of(Seq::empty()) == 0,
        number_of(digits.push("0123456789"@[v])) == 10 * number_of(digits) + v,
{
    lemma_digit(v);
    assert(digits.push("0123456789"@[v]).drop_last() =~= digits);
}

/// Digits are the ten decimal ones, and at least one.
pub proof fn digits_are_decimal(s: Seq<char>)
    ensures
        all_digits(s) <==> s.len() > 0 && forall|i: int|
            0 <= i < s.len() ==> "0123456789"@.contains(#[trigger] s[i]),
{
    lemma_digit(0);
    let all = "0123456789"@;
    if all_digits(s) {
        assert forall|i: int| 0 <= i < s.len() implies all.contains(#[trigger] s[i]) by {
            let v = s[i] as int - 48;
            lemma_digit(v);
            assert(all[v] == s[i]);
        }
    }
    if s.len() > 0 && forall|i: int| 0 <= i < s.len() ==> all.contains(#[trigger] s[i]) {
        assert forall|i: int| 0 <= i < s.len() implies '0' <= #[trigger] s[i] <= '9' by {
            let v = choose|v: int| 0 <= v < all.len() && all[v] == s[i];
            lemma_digit(v);
        }
    }
}

/// The decimal digits of a number spell it, without leading zeros.
pub proof fn decimal_spells_its_number(n: nat)
    ensures
        all_digits(decimal(n)),
        number_of(decimal(n)) == n,
        decimal(n)[0] == '0' ==> decimal(n).len() == 1,
        n > 0 ==> decimal(n)[0] != '0',
    decreases n,
{
    if n < 10 {
        assert(decimal(n).drop_last() =~= Seq::empty());
        assert(number_of(Seq::<char>::empty()) == 0);
    } else {
        decimal_spells_its_number(n / 10);
        assert(decimal(n).drop_last() =~= decimal(n / 10));
        assert(decimal(n)[0] == decimal(n / 10)[0]);
    }
}

/// Digits without leading zeros are the decimal digits of the number that they spell.
pub proof fn digits_are_those_of_their_number(digits: Seq<char>)
    requires
        all_digits(digits),
        digits[0] == '0' ==> digits.len() == 1,
    ensures
        decimal(number_of(digits)) == digits,
        digits[0] != '0' ==> number_of(digits) > 0,
    decreases digits.len(),
{
    let front = digits.drop_last();
    let d = digits.last() as int - 48;
    assert('0' <= digits[digits.len() - 1] <= '9');
    if digits.len() == 1 {
        assert(number_of(front) == 0);
        assert(decimal(number_of(digits)) =~= digits);
    } else {
        assert forall|i: int| 0 <= i < front.len() implies '0' <= #[trigger] front[i] <= '9' by {
            assert(front[i] == digits[i]);
        }
        assert(front[0] == digits[0]);
        digits_are_those_of_their_number(front);
        let n = number_of(digits);
        assert(n == number_of(front) * 10 + d);
        assert(n / 10 == number_of(front) && n % 10 == d && n >= 10);
        assert(decimal(n) =~= digits);
    }
}

/// A negative number is a minus sign and the digits of its size, any other only its digits.
pub proof fn sign_is_written_for_negative_numbers(n: nat)
    ensures
        signed_decimal(n as int) == decimal(n),
        n > 0 ==> signed_decimal(-(n as int)) == "-"@ + decimal(n),
{
    reveal_strlit("-");
    assert("-"@ =~= seq!['-']);
}

/// A byte in hexadecimal is `0x` and its one or two digits.
pub proof fn hex_spells_its_byte(byte: u8)
    ensures
        byte < 16 ==> hex(byte) == "0x"@ + seq!["0123456789abcdef"@[byte as int]],
        byte >= 16 ==> hex(byte) == "0x"@ + seq![
            "0123456789abcdef"@[byte as int / 16],
            "0123456789abcdef"@[byte as int % 16],
        ],
{
    lemma_hex_digit(byte as int / 16);
    lemma_hex_digit(byte as int % 16);
    reveal_strlit("0x");
    assert("0x"@ =~= seq!['0', 'x']);
    if byte < 16 {
        assert(hex(byte) =~= "0x"@ + seq!["0123456789abcdef"@[byte as int]]);
    } else {
        assert(hex(byte) =~= "0x"@ + seq![
            "0123456789abcdef"@[byte as int / 16],
            "0123456789abcdef"@[byte as int % 16],
        ]);
    }
}

}
