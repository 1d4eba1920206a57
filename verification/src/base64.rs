//! Base64 text for the bytes that travel inside JSON messages.
use vstd::prelude::*;
use vstd::string::*;
use vstd::utf8::*;

use crate::text;

verus! {

/// The letter of a value below 64. The alphabet is `A` to `Z`, `a` to `z`, `0` to `9`, `+` and `/`.
pub open spec fn letter(value: int) -> u8 {
    (if value < 26 {
        value + 65
    } else if value < 52 {
        value + 71
    } else if value < 62 {
        value - 4
    } else if value == 62 {
        43int
    } else {
        47int
    }) as u8
}

/// The byte at a position, and zero past the end.
pub open spec fn byte_or_zero(data: Seq<u8>, i: int) -> int {
    if i < data.len() {
        data[i] as int
    } else {
        0
    }
}

/// The three bytes of a group as one number.
pub open spec fn group_of_bytes(data: Seq<u8>, group: int) -> int {
    byte_or_zero(data, 3 * group) * 65536 + byte_or_zero(data, 3 * group + 1) * 256 + byte_or_zero(
        data,
        3 * group + 2,
    )
}

/// The character at a position of the encoded text: the letter of six bits of its group, or the
/// padding where the group has no byte left for it.
pub open spec fn encoded_char(data: Seq<u8>, p: int) -> char {
    let group = p / 4;
    let number = group_of_bytes(data, group);
    (if p % 4 == 0 {
        letter(number / 262144)
    } else if p % 4 == 1 {
        letter(number / 4096 % 64)
    } else if p % 4 == 2 {
        if 3 * group + 1 < data.len() {
            letter(number / 64 % 64)
        } else {
            61
        }
    } else if 3 * group + 2 < data.len() {
        letter(number % 64)
    } else {
        61
    }) as char
}

/// The Base64 text of some bytes: four characters for each group of three, the last one padded.
pub open spec fn encoded(data: Seq<u8>) -> Seq<char> {
    Seq::new(((data.len() + 2) / 3 * 4) as nat, |p: int| encoded_char(data, p))
}

/// The letter of a value below 64.
fn letter_of(value: u32) -> (c: char)
    requires
        value < 64,
    ensures
        c == letter(value as int) as char,
{
    let byte: u8 = if value < 26 {
        value as u8 + 65
    } else if value < 52 {
        value as u8 + 71
    } else if value < 62 {
        value as u8 - 4
    } else if value == 62 {
        43
    } else {
        47
    };
    byte as char
}

/// Writes bytes as Base64 text.
pub fn base64_encode(data: &[u8]) -> (text: String)
    ensures
        text@ == encoded(data@),
{
    let mut out = String::new();
    let mut i: usize = 0;
    let ghost mut group: int = 0;
    while i < data.len()
        invariant
            0 <= group,
            i == 3 * group || i == data@.len(),
            3 * group - 3 < i <= 3 * group,
            i <= data@.len(),
            out@.len() == 4 * group,
            forall|p: int| 0 <= p < out@.len() ==> #[trigger] out@[p] == encoded_char(data@, p),
        decreases data@.len() - i,
    {
        let left = data.len() - i;
        let a: u8 = data[i];
        let b: u8 = if left > 1 { data[i + 1] } else { 0 };
        let c: u8 = if left > 2 { data[i + 2] } else { 0 };
        let n: u32 = ((a as u32) << 16) | ((b as u32) << 8) | (c as u32);
        proof {
            assert(n == a * 65536 + b * 256 + c && n < 16777216) by (bit_vector)
                requires
                    n == ((a as u32) << 16) | ((b as u32) << 8) | (c as u32),
            ;
            assert(n >> 18 == n / 262144 && (n >> 12) & 63 == n / 4096 % 64 && (n >> 6) & 63 == n / 64
                % 64 && n & 63 == n % 64) by (bit_vector);
            assert(n as int == group_of_bytes(data@, group));
            assert(n / 262144 < 64);
        }
        let ghost before = out@;
        out.push(letter_of(n >> 18));
        out.push(letter_of((n >> 12) & 63));
        out.push(if left > 1 { letter_of((n >> 6) & 63) } else { '=' });
        out.push(if left > 2 { letter_of(n & 63) } else { '=' });
        i = if left > 3 { i + 3 } else { data.len() };
        proof {
            let q = 4 * group;
            assert(q / 4 == group && q % 4 == 0);
            assert((q + 1) / 4 == group && (q + 1) % 4 == 1);
            assert((q + 2) / 4 == group && (q + 2) % 4 == 2);
            assert((q + 3) / 4 == group && (q + 3) % 4 == 3);
            assert(out@[q] == encoded_char(data@, q));
            assert(out@[q + 1] == encoded_char(data@, q + 1));
            assert(out@[q + 2] == encoded_char(data@, q + 2));
            assert(out@[q + 3] == encoded_char(data@, q + 3));
            assert forall|p: int| 0 <= p < q implies #[trigger] out@[p] == encoded_char(data@, p) by {
                assert(out@[p] == before[p]);
            }
            group = group + 1;
        }
    }
    assert(out@ =~= encoded(data@));
    out
}

/// Why a text is not Base64.
#[derive(Clone, Copy, Debug, PartialEq, Eq, Structural)]
pub enum DecodeError {
    /// A byte that is no letter of the alphabet.
    InvalidByte(u8),
    /// One letter is left over, which is too little for a byte.
    Truncated,
}

/// What is told of a text that is not Base64.
pub open spec fn decode_error_text(error: DecodeError) -> Seq<char> {
    match error {
        DecodeError::InvalidByte(byte) => "invalid base64 byte "@ + text::hex(byte),
        DecodeError::Truncated => "truncated base64"@,
    }
}

impl DecodeError {
    /// What is told of the error.
    pub fn text(&self) -> (told: String)
        ensures
            told@ == decode_error_text(*self),
    {
        match self {
            DecodeError::InvalidByte(byte) => {
                let mut told = "invalid base64 byte ".to_string();
                told.append(text::hex_of(*byte).as_str());
                told
            },
            DecodeError::Truncated => "truncated base64".to_string(),
        }
    }
}

/// A byte that is passed over: a space, a line feed, a carriage return or a tab.
pub open spec fn blank(byte: u8) -> bool {
    byte == 32 || byte == 10 || byte == 13 || byte == 9
}

/// The letters of a text: its bytes without the blank ones, up to the first padding.
pub open spec fn letters(bytes: Seq<u8>) -> Seq<u8> {
    let shown = bytes.filter(|b: u8| !blank(b));
    match shown.index_of_first(61) {
        Some(end) => shown.take(end),
        None => shown,
    }
}

/// The value of a letter, its place in the alphabet.
pub open spec fn value_of(byte: u8) -> Option<int> {
    if 65 <= byte <= 90 {
        Some(byte - 65)
    } else if 97 <= byte <= 122 {
        Some(byte - 71)
    } else if 48 <= byte <= 57 {
        Some(byte + 4)
    } else if byte == 43 {
        Some(62)
    } else if byte == 47 {
        Some(63)
    } else {
        None
    }
}

/// The first byte that is no letter.
pub open spec fn first_bad(bytes: Seq<u8>) -> Option<u8>
    decreases bytes.len(),
{
    if bytes.len() == 0 {
        None
    } else if value_of(bytes[0]) is None {
        Some(bytes[0])
    } else {
        first_bad(bytes.drop_first())
    }
}

/// The value of the letter at a position, and zero past the end.
pub open spec fn value_or_zero(letters: Seq<u8>, i: int) -> int {
    if i < letters.len() {
        value_of(letters[i]).unwrap_or(0)
    } else {
        0
    }
}

/// The four letters of a group as one number.
pub open spec fn group_of_letters(letters: Seq<u8>, group: int) -> int {
    value_or_zero(letters, 4 * group) * 262144 + value_or_zero(letters, 4 * group + 1) * 4096
        + value_or_zero(letters, 4 * group + 2) * 64 + value_or_zero(letters, 4 * group + 3)
}

/// The byte at a position of the decoded data: eight bits of its group.
pub open spec fn decoded_byte(letters: Seq<u8>, i: int) -> u8 {
    let number = group_of_letters(letters, i / 3);
    (if i % 3 == 0 {
        number / 65536
    } else if i % 3 == 1 {
        number / 256 % 256
    } else {
        number % 256
    }) as u8
}

/// How many bytes some letters spell: three for each group of four, one for two letters at the
/// end, two for three.
pub open spec fn decoded_len(letters: nat) -> nat {
    (letters / 4 * 3 + (if letters % 4 == 0 {
        0
    } else {
        letters % 4 - 1
    })) as nat
}

/// What a text decodes to. A single letter in the last group is an error, which counts only where
/// every byte before it is a letter.
pub open spec fn decoded(bytes: Seq<u8>) -> Result<Seq<u8>, DecodeError> {
    let c = letters(bytes);
    let single = c.len() % 4 == 1;
    match first_bad(if single {
        c.drop_last()
    } else {
        c
    }) {
        Some(byte) => Err(DecodeError::InvalidByte(byte)),
        None => if single {
            Err(DecodeError::Truncated)
        } else {
            Ok(Seq::new(decoded_len(c.len()), |i: int| decoded_byte(c, i)))
        },
    }
}

/// The value of a letter.
fn value_of_letter(byte: u8) -> (value: Option<u32>)
    ensures
        value_of(byte) == (match value {
            Some(v) => Some(v as int),
            None => None,
        }),
        value matches Some(v) ==> v < 64,
{
    if 65 <= byte && byte <= 90 {
        Some((byte - 65) as u32)
    } else if 97 <= byte && byte <= 122 {
        Some((byte - 71) as u32)
    } else if 48 <= byte && byte <= 57 {
        Some((byte + 4) as u32)
    } else if byte == 43 {
        Some(62)
    } else if byte == 47 {
        Some(63)
    } else {
        None
    }
}

/// The letters of a text.
fn letters_of(bytes: &[u8]) -> (clean: Vec<u8>)
    ensures
        clean@ == letters(bytes@),
{
    let ghost keep = |b: u8| !blank(b);
    let mut clean: Vec<u8> = Vec::new();
    let mut i: usize = 0;
    while i < bytes.len()
        invariant
            i <= bytes@.len(),
            keep == (|b: u8| !blank(b)),
            clean@ == bytes@.take(i as int).filter(keep),
        decreases bytes@.len() - i,
    {
        let b: u8 = bytes[i];
        proof {
            reveal(Seq::filter);
            assert(bytes@.take(i + 1).drop_last() =~= bytes@.take(i as int));
        }
        if !(b == 32 || b == 10 || b == 13 || b == 9) {
            clean.push(b);
        }
        i = i + 1;
    }
    proof {
        assert(bytes@.take(i as int) =~= bytes@);
        clean@.index_of_first_ensures(61u8);
    }
    let mut end: usize = 0;
    while end < clean.len() && clean[end] != 61
        invariant
            end <= clean@.len(),
            forall|j: int| 0 <= j < end ==> clean@[j] != 61u8,
        decreases clean@.len() - end,
    {
        end = end + 1;
    }
    proof {
        match clean@.index_of_first(61u8) {
            Some(first) => {
                assert(clean@[first] == 61u8);
                assert(end == first);
            },
            None => {
                if end < clean@.len() {
                    assert(clean@.contains(61u8));
                }
                assert(clean@.take(end as int) =~= clean@);
            },
        }
    }
    clean.truncate(end);
    clean
}

/// Where the bytes before a position are letters, the first bad byte comes from there on.
proof fn lemma_first_bad(bytes: Seq<u8>, i: int)
    requires
        0 <= i <= bytes.len(),
        forall|j: int| 0 <= j < i ==> value_of(#[trigger] bytes[j]) is Some,
    ensures
        first_bad(bytes) == first_bad(bytes.skip(i)),
        i < bytes.len() && value_of(bytes[i]) is None ==> first_bad(bytes) == Some(bytes[i]),
        i == bytes.len() ==> first_bad(bytes) is None,
    decreases i,
{
    if i == 0 {
        assert(bytes.skip(0) =~= bytes);
    } else {
        let rest = bytes.drop_first();
        assert forall|j: int| 0 <= j < i - 1 implies value_of(#[trigger] rest[j]) is Some by {
            assert(rest[j] == bytes[j + 1]);
        }
        lemma_first_bad(rest, i - 1);
        assert(rest.skip(i - 1) =~= bytes.skip(i));
        assert(value_of(bytes[0]) is Some);
    }
}

/// Reads Base64 text back into bytes. Blanks between the letters are passed over, and so is
/// everything from the first padding on.
pub fn base64_decode(s: &str) -> (data: Result<Vec<u8>, DecodeError>)
    ensures
        decoded(s.spec_bytes()) == (match data {
            Ok(d) => Ok::<Seq<u8>, DecodeError>(d@),
            Err(e) => Err::<Seq<u8>, DecodeError>(e),
        }),
{
    let clean = letters_of(s.as_bytes());
    let ghost c = clean@;
    let ghost single = c.len() % 4 == 1;
    let ghost whole = if single {
        c.drop_last()
    } else {
        c
    };
    let mut out: Vec<u8> = Vec::new();
    let mut i: usize = 0;
    let ghost mut group: int = 0;
    while i < clean.len()
        invariant
            c == clean@,
            c == letters(s.spec_bytes()),
            single == (c.len() % 4 == 1),
            whole == (if single {
                c.drop_last()
            } else {
                c
            }),
            0 <= group,
            i <= c.len(),
            i == 4 * group || i == c.len(),
            4 * group - 4 < i <= 4 * group,
            i == c.len() ==> !single,
            out@.len() == decoded_len(i as nat),
            forall|j: int| 0 <= j < i ==> value_of(#[trigger] c[j]) is Some,
            forall|p: int| 0 <= p < out@.len() ==> #[trigger] out@[p] == decoded_byte(c, p),
        decreases c.len() - i,
    {
        let left: usize = if clean.len() - i > 4 { 4 } else { clean.len() - i };
        if left < 2 {
            proof {
                assert(single && i == c.len() - 1);
                assert forall|j: int| 0 <= j < i implies value_of(#[trigger] whole[j]) is Some by {
                    assert(whole[j] == c[j]);
                }
                lemma_first_bad(whole, i as int);
            }
            return Err(DecodeError::Truncated);
        }
        let mut n: u32 = 0;
        let mut k: usize = 0;
        while k < left
            invariant
                c == clean@,
                c == letters(s.spec_bytes()),
                single == (c.len() % 4 == 1),
                whole == (if single {
                    c.drop_last()
                } else {
                    c
                }),
                2 <= left <= 4,
                k <= left,
                i + left <= c.len(),
                single ==> i + left < c.len(),
                forall|j: int| 0 <= j < i + k ==> value_of(#[trigger] c[j]) is Some,
                n as int == (if k > 0 {
                    value_or_zero(c, i as int) * 262144
                } else {
                    0
                }) + (if k > 1 {
                    value_or_zero(c, i + 1) * 4096
                } else {
                    0
                }) + (if k > 2 {
                    value_or_zero(c, i + 2) * 64
                } else {
                    0
                }) + (if k > 3 {
                    value_or_zero(c, i + 3)
                } else {
                    0
                }),
            decreases left - k,
        {
            match value_of_letter(clean[i + k]) {
                Some(v) => {
                    let ghost old_n = n;
                    let shift: u32 = 18 - 6 * (k as u32);
                    proof {
                        assert(value_or_zero(c, i + k) == v as int);
                        let a0 = value_or_zero(c, i as int) as u32;
                        let a1 = value_or_zero(c, i + 1) as u32;
                        let a2 = value_or_zero(c, i + 2) as u32;
                        if k == 0 {
                            assert(0u32 | (v << 18) == v * 262144) by (bit_vector)
                                requires
                                    v < 64,
                            ;
                        } else if k == 1 {
                            assert(old_n | (v << 12) == old_n + v * 4096) by (bit_vector)
                                requires
                                    v < 64,
                                    a0 < 64,
                                    old_n == a0 * 262144,
                            ;
                        } else if k == 2 {
                            assert(old_n | (v << 6) == old_n + v * 64) by (bit_vector)
                                requires
                                    v < 64,
                                    a0 < 64,
                                    a1 < 64,
                                    old_n == a0 * 262144 + a1 * 4096,
                            ;
                        } else {
                            assert(old_n | (v << 0) == old_n + v) by (bit_vector)
                                requires
                                    v < 64,
                                    a0 < 64,
                                    a1 < 64,
                                    a2 < 64,
                                    old_n == a0 * 262144 + a1 * 4096 + a2 * 64,
                            ;
                        }
                    }
                    n = n | (v << shift);
                },
                None => {
                    proof {
                        assert(whole[i + k] == c[i + k]);
                        assert forall|j: int| 0 <= j < i + k implies value_of(#[trigger] whole[j]) is Some by {
                            assert(whole[j] == c[j]);
                        }
                        lemma_first_bad(whole, i + k);
                    }
                    return Err(DecodeError::InvalidByte(clean[i + k]));
                },
            }
            k = k + 1;
        }
        proof {
            assert(n as int == group_of_letters(c, group));
            assert(n < 16777216);
            assert((n >> 16) as u8 == n / 65536 && (n >> 8) as u8 == n / 256 % 256 && n as u8 == n
                % 256) by (bit_vector)
                requires
                    n < 16777216,
            ;
        }
        let ghost before = out@;
        out.push((n >> 16) as u8);
        if left > 2 {
            out.push((n >> 8) as u8);
        }
        if left > 3 {
            out.push(n as u8);
        }
        i = i + left;
        proof {
            let q = 3 * group;
            assert(q / 3 == group && q % 3 == 0);
            assert((q + 1) / 3 == group && (q + 1) % 3 == 1);
            assert((q + 2) / 3 == group && (q + 2) % 3 == 2);
            assert(before.len() == q);
            assert forall|p: int| 0 <= p < out@.len() implies #[trigger] out@[p] == decoded_byte(
                c,
                p,
            ) by {
                if p < q {
                    assert(out@[p] == before[p]);
                } else {
                    assert(p == q || p == q + 1 || p == q + 2);
                }
            }
            group = group + 1;
        }
    }
    proof {
        lemma_first_bad(c, c.len() as int);
        assert(out@ =~= Seq::new(decoded_len(c.len()), |p: int| decoded_byte(c, p)));
    }
    Ok(out)
}

/// How many letters the Base64 text of so many bytes has before its padding.
spec fn letter_count(n: int) -> int {
    n / 3 * 4 + (if n % 3 == 0 {
        0
    } else {
        n % 3 + 1
    })
}

/// The encoded text is letters first, and padding after them.
proof fn lemma_encoded_char(data: Seq<u8>, p: int)
    requires
        0 <= p < encoded(data).len(),
    ensures
        '\0' <= encoded_char(data, p) <= '\u{7f}',
        !blank(encoded_char(data, p) as u8),
        p < letter_count(data.len() as int) ==> value_of(encoded_char(data, p) as u8) is Some
            && encoded_char(data, p) as u8 != 61,
        p >= letter_count(data.len() as int) ==> encoded_char(data, p) as u8 == 61,
{
    let number = group_of_bytes(data, p / 4);
    lemma_group_of_bytes(data, p / 4);
    lemma_letter(number / 262144);
    lemma_letter(number / 4096 % 64);
    lemma_letter(number / 64 % 64);
    lemma_letter(number % 64);
}

/// The letters of a text are what stands before its padding.
proof fn lemma_padded_letters(chars: Seq<char>, end: int)
    requires
        0 <= end <= chars.len(),
        forall|p: int| 0 <= p < chars.len() ==> '\0' <= #[trigger] chars[p] <= '\u{7f}',
        forall|p: int| 0 <= p < chars.len() ==> !blank((#[trigger] chars[p]) as u8),
        forall|p: int| 0 <= p < end ==> (#[trigger] chars[p]) as u8 != 61,
        forall|p: int| end <= p < chars.len() ==> (#[trigger] chars[p]) as u8 == 61,
    ensures
        letters(encode_utf8(chars)) == Seq::new(end as nat, |p: int| chars[p] as u8),
{
    is_ascii_chars_encode_utf8(chars);
    let bytes = encode_utf8(chars);
    assert(bytes =~= Seq::new(chars.len(), |p: int| chars[p] as u8));
    let keep = |b: u8| !blank(b);
    assert forall|p: int| 0 <= p < bytes.len() implies keep(#[trigger] bytes[p]) by {
        assert(bytes[p] == chars[p] as u8);
    }
    lemma_filter_all(bytes, keep);
    bytes.index_of_first_ensures(61u8);
    if end < chars.len() {
        assert(bytes[end] == chars[end] as u8);
        assert(bytes.contains(61u8));
    }
    if bytes.contains(61u8) {
        let first = bytes.index_of_first(61u8).unwrap();
        assert(bytes[first] == chars[first] as u8);
        assert(first == end);
    }
    assert(letters(bytes) =~= bytes.take(end));
    assert(bytes.take(end) =~= Seq::new(end as nat, |p: int| chars[p] as u8));
}

/// The four characters of a group.
proof fn lemma_encoded_group(data: Seq<u8>, group: int)
    requires
        0 <= group,
        3 * group < data.len(),
    ensures
        encoded_char(data, 4 * group) == letter(group_of_bytes(data, group) / 262144) as char,
        encoded_char(data, 4 * group + 1) == letter(group_of_bytes(data, group) / 4096 % 64) as char,
        3 * group + 1 < data.len() ==> encoded_char(data, 4 * group + 2) == letter(
            group_of_bytes(data, group) / 64 % 64,
        ) as char,
        3 * group + 2 < data.len() ==> encoded_char(data, 4 * group + 3) == letter(
            group_of_bytes(data, group) % 64,
        ) as char,
{
    let q = 4 * group;
    assert(q / 4 == group && q % 4 == 0);
    assert((q + 1) / 4 == group && (q + 1) % 4 == 1);
    assert((q + 2) / 4 == group && (q + 2) % 4 == 2);
    assert((q + 3) / 4 == group && (q + 3) % 4 == 3);
}

/// The parts of six bits make up the number.
proof fn lemma_sextets(a: int, b: int, c: int)
    requires
        0 <= a < 256,
        0 <= b < 256,
        0 <= c < 256,
    ensures
        ({
            let n = a * 65536 + b * 256 + c;
            &&& n / 262144 * 262144 + n / 4096 % 64 * 4096 + n / 64 % 64 * 64 + n % 64 == n
            &&& c == 0 ==> n % 64 == 0
            &&& b == 0 && c == 0 ==> n / 64 % 64 == 0
            &&& n / 65536 == a
            &&& n / 256 % 256 == b
            &&& n % 256 == c
        }),
{
    let (x, y, z) = (a as u32, b as u32, c as u32);
    let n = (a * 65536 + b * 256 + c) as u32;
    assert(n / 262144 * 262144 + n / 4096 % 64 * 4096 + n / 64 % 64 * 64 + n % 64 == n && (z == 0
        ==> n % 64 == 0) && (y == 0 && z == 0 ==> n / 64 % 64 == 0) && n / 65536 == x && n / 256
        % 256 == y && n % 256 == z) by (bit_vector)
        requires
            x < 256,
            y < 256,
            z < 256,
            n == x * 65536 + y * 256 + z,
    ;
}

/// A group of letters holds the same number as the group of bytes that it was made from.
proof fn lemma_same_group(data: Seq<u8>, c: Seq<u8>, group: int)
    requires
        c.len() == letter_count(data.len() as int),
        forall|p: int| 0 <= p < c.len() ==> #[trigger] c[p] == encoded_char(data, p) as u8,
        0 <= group,
        3 * group < data.len(),
    ensures
        group_of_letters(c, group) == group_of_bytes(data, group),
{
    let n = data.len() as int;
    let number = group_of_bytes(data, group);
    let q = 4 * group;
    lemma_sextets(
        byte_or_zero(data, 3 * group),
        byte_or_zero(data, 3 * group + 1),
        byte_or_zero(data, 3 * group + 2),
    );
    lemma_encoded_group(data, group);
    lemma_letter(number / 262144);
    lemma_letter(number / 4096 % 64);
    lemma_letter(number / 64 % 64);
    lemma_letter(number % 64);
    assert(q + 1 < c.len());
    assert(q + 2 < c.len() <==> 3 * group + 1 < n);
    assert(q + 3 < c.len() <==> 3 * group + 2 < n);
    assert(value_or_zero(c, q) == number / 262144);
    assert(value_or_zero(c, q + 1) == number / 4096 % 64);
    assert(value_or_zero(c, q + 2) == number / 64 % 64);
    assert(value_or_zero(c, q + 3) == number % 64);
}

/// What Base64 text decodes to is what it was made from.
pub proof fn decoding_undoes_encoding(data: Seq<u8>)
    ensures
        decoded(encode_utf8(encoded(data))) == Ok::<Seq<u8>, DecodeError>(data),
{
    let n = data.len() as int;
    let chars = encoded(data);
    let c = letters(encode_utf8(chars));
    assert forall|p: int| 0 <= p < chars.len() implies {
        &&& '\0' <= #[trigger] chars[p] <= '\u{7f}'
        &&& !blank(chars[p] as u8)
        &&& p < letter_count(n) ==> value_of(chars[p] as u8) is Some && chars[p] as u8 != 61
        &&& p >= letter_count(n) ==> chars[p] as u8 == 61
    } by {
        lemma_encoded_char(data, p);
    }
    lemma_padded_letters(chars, letter_count(n));
    assert forall|p: int| 0 <= p < c.len() implies #[trigger] c[p] == encoded_char(data, p) as u8
        && value_of(c[p]) is Some by {
        assert(c[p] == chars[p] as u8);
    }
    lemma_first_bad(c, c.len() as int);
    lemma_decoded_bytes(data, c);
    assert(c.len() % 4 != 1);
}

/// The bytes that the letters of an encoded text spell.
proof fn lemma_decoded_bytes(data: Seq<u8>, c: Seq<u8>)
    requires
        c.len() == letter_count(data.len() as int),
        forall|p: int| 0 <= p < c.len() ==> #[trigger] c[p] == encoded_char(data, p) as u8,
    ensures
        Seq::new(decoded_len(c.len()), |i: int| decoded_byte(c, i)) == data,
{
    assert(decoded_len(c.len()) == data.len());
    assert forall|i: int| 0 <= i < data.len() implies #[trigger] decoded_byte(c, i) == data[i] by {
        let group = i / 3;
        lemma_same_group(data, c, group);
        lemma_sextets(
            byte_or_zero(data, 3 * group),
            byte_or_zero(data, 3 * group + 1),
            byte_or_zero(data, 3 * group + 2),
        );
    }
    assert(Seq::new(decoded_len(c.len()), |i: int| decoded_byte(c, i)) =~= data);
}

/// A group of three bytes is a number of 24 bits.
proof fn lemma_group_of_bytes(data: Seq<u8>, group: int)
    requires
        0 <= group,
    ensures
        0 <= group_of_bytes(data, group) < 16777216,
{
}

/// Every value below 64 has a letter, whose value it is.
proof fn lemma_letter(value: int)
    requires
        0 <= value < 64,
    ensures
        value_of(letter(value)) == Some(value),
        letter(value) <= 127,
        !blank(letter(value)),
        letter(value) != 61,
        '\0' <= letter(value) as char <= '\u{7f}',
        (letter(value) as char) as u8 == letter(value),
{
}

/// A filter that every element passes keeps them all.
proof fn lemma_filter_all(bytes: Seq<u8>, keep: spec_fn(u8) -> bool)
    requires
        forall|p: int| 0 <= p < bytes.len() ==> keep(#[trigger] bytes[p]),
    ensures
        bytes.filter(keep) == bytes,
    decreases bytes.len(),
{
    reveal(Seq::filter);
    if bytes.len() > 0 {
        let front = bytes.drop_last();
        assert forall|p: int| 0 <= p < front.len() implies keep(#[trigger] front[p]) by {
            assert(front[p] == bytes[p]);
        }
        lemma_filter_all(front, keep);
        assert(keep(bytes[bytes.len() - 1]));
        assert(front.push(bytes.last()) =~= bytes);
    }
}

/// The letters of the alphabet, one by one.
proof fn lemma_alphabet(v: int)
    requires
        0 <= v < 64,
    ensures
        "ABCDEFGHIJKLMNOPQRSTUVWXYZabcdefghijklmnopqrstuvwxyz0123456789+/"@.len() == 64,
        "ABCDEFGHIJKLMNOPQRSTUVWXYZabcdefghijklmnopqrstuvwxyz0123456789+/"@[v] == letter(v) as char,
{
    reveal_strlit("ABCDEFGHIJKLMNOPQRSTUVWXYZabcdefghijklmnopqrstuvwxyz0123456789+/");
    let s = "ABCDEFGHIJKLMNOPQRSTUVWXYZabcdefghijklmnopqrstuvwxyz0123456789+/"@;
    if v == 0 {
        assert(s[0] == 'A');
    } else if v == 1 {
        assert(s[1] == 'B');
    } else if v == 2 {
        assert(s[2] == 'C');
    } else if v == 3 {
        assert(s[3] == 'D');
    } else if v == 4 {
        assert(s[4] == 'E');
    } else if v == 5 {
        assert(s[5] == 'F');
    } else if v == 6 {
        assert(s[6] == 'G');
    } else if v == 7 {
        assert(s[7] == 'H');
    } else if v == 8 {
        assert(s[8] == 'I');
    } else if v == 9 {
        assert(s[9] == 'J');
    } else if v == 10 {
        assert(s[10] == 'K');
    } else if v == 11 {
        assert(s[11] == 'L');
    } else if v == 12 {
        assert(s[12] == 'M');
    } else if v == 13 {
        assert(s[13] == 'N');
    } else if v == 14 {
        assert(s[14] == 'O');
    } else if v == 15 {
        assert(s[15] == 'P');
    } else if v == 16 {
        assert(s[16] == 'Q');
    } else if v == 17 {
        assert(s[17] == 'R');
    } else if v == 18 {
        assert(s[18] == 'S');
    } else if v == 19 {
        assert(s[19] == 'T');
    } else if v == 20 {
        assert(s[20] == 'U');
    } else if v == 21 {
        assert(s[21] == 'V');
    } else if v == 22 {
        assert(s[22] == 'W');
    } else if v == 23 {
        assert(s[23] == 'X');
    } else if v == 24 {
        assert(s[24] == 'Y');
    } else if v == 25 {
        assert(s[25] == 'Z');
    } else if v == 26 {
        assert(s[26] == 'a');
    } else if v == 27 {
        assert(s[27] == 'b');
    } else if v == 28 {
        assert(s[28] == 'c');
    } else if v == 29 {
        assert(s[29] == 'd');
    } else if v == 30 {
        assert(s[30] == 'e');
    } else if v == 31 {
        assert(s[31] == 'f');
    } else if v == 32 {
        assert(s[32] == 'g');
    } else if v == 33 {
        assert(s[33] == 'h');
    } else if v == 34 {
        assert(s[34] == 'i');
    } else if v == 35 {
        assert(s[35] == 'j');
    } else if v == 36 {
        assert(s[36] == 'k');
    } else if v == 37 {
        assert(s[37] == 'l');
    } else if v == 38 {
        assert(s[38] == 'm');
    } else if v == 39 {
        assert(s[39] == 'n');
    } else if v == 40 {
        assert(s[40] == 'o');
    } else if v == 41 {
        assert(s[41] == 'p');
    } else if v == 42 {
        assert(s[42] == 'q');
    } else if v == 43 {
        assert(s[43] == 'r');
    } else if v == 44 {
        assert(s[44] == 's');
    } else if v == 45 {
        assert(s[45] == 't');
    } else if v == 46 {
        assert(s[46] == 'u');
    } else if v == 47 {
        assert(s[47] == 'v');
    } else if v == 48 {
        assert(s[48] == 'w');
    } else if v == 49 {
        assert(s[49] == 'x');
    } else if v == 50 {
        assert(s[50] == 'y');
    } else if v == 51 {
        assert(s[51] == 'z');
    } else if v == 52 {
        assert(s[52] == '0');
    } else if v == 53 {
        assert(s[53] == '1');
    } else if v == 54 {
        assert(s[54] == '2');
    } else if v == 55 {
        assert(s[55] == '3');
    } else if v == 56 {
        assert(s[56] == '4');
    } else if v == 57 {
        assert(s[57] == '5');
    } else if v == 58 {
        assert(s[58] == '6');
    } else if v == 59 {
        assert(s[59] == '7');
    } else if v == 60 {
        assert(s[60] == '8');
    } else if v == 61 {
        assert(s[61] == '9');
    } else if v == 62 {
        assert(s[62] == '+');
    } else if v == 63 {
        assert(s[63] == '/');
    }
}

/// The letter of a value below 64 is the character at that place of the alphabet, and the value of that
/// character is its place.
pub proof fn letters_stand_in_the_alphabet(v: int)
    requires
        0 <= v < 64,
    ensures
        letter(v) as char == "ABCDEFGHIJKLMNOPQRSTUVWXYZabcdefghijklmnopqrstuvwxyz0123456789+/"@[v],
        value_of("ABCDEFGHIJKLMNOPQRSTUVWXYZabcdefghijklmnopqrstuvwxyz0123456789+/"@[v] as u8) == Some(v),
{
    lemma_alphabet(v);
    lemma_letter(v);
}

/// A byte that has a value is the character at that place of the alphabet, so a byte that is none of
/// the 64 characters has no value.
pub proof fn values_are_places_in_the_alphabet(byte: u8)
    ensures
        value_of(byte) matches Some(v) ==> 0 <= v < 64 && "ABCDEFGHIJKLMNOPQRSTUVWXYZabcdefghijklmnopqrstuvwxyz0123456789+/"@[v] as u8 == byte,
        value_of(byte) is None ==> forall|v: int|
            0 <= v < 64 ==> (#[trigger] "ABCDEFGHIJKLMNOPQRSTUVWXYZabcdefghijklmnopqrstuvwxyz0123456789+/"@[v]) as u8 != byte,
{
    match value_of(byte) {
        Some(v) => {
            lemma_alphabet(v);
            lemma_letter(v);
        },
        None => {
            assert forall|v: int| 0 <= v < 64 implies (#[trigger] "ABCDEFGHIJKLMNOPQRSTUVWXYZabcdefghijklmnopqrstuvwxyz0123456789+/"@[v]) as u8 != byte by {
                lemma_alphabet(v);
                lemma_letter(v);
            }
        },
    }
}

/// Three bytes are 24 bits, and four characters of six bits each, the first bits first: of the group
/// of the bytes from `3 * group` on. Where a byte is missing its bits are zero, and where all the bits
/// of a character are missing it is the padding.
pub proof fn groups_are_four_characters(data: Seq<u8>, group: int, a: int, b: int, c: int)
    requires
        0 <= group,
        3 * group < data.len(),
        a == data[3 * group],
        b == (if 3 * group + 1 < data.len() {
            data[3 * group + 1] as int
        } else {
            0
        }),
        c == (if 3 * group + 2 < data.len() {
            data[3 * group + 2] as int
        } else {
            0
        }),
    ensures
        ({
            let letters = "ABCDEFGHIJKLMNOPQRSTUVWXYZabcdefghijklmnopqrstuvwxyz0123456789+/"@;
            let text = encoded(data);
            &&& 4 * group + 3 < text.len()
            &&& text[4 * group] == letters[a / 4]
            &&& text[4 * group + 1] == letters[a % 4 * 16 + b / 16]
            &&& text[4 * group + 2] == (if 3 * group + 1 < data.len() {
                letters[b % 16 * 4 + c / 64]
            } else {
                '='
            })
            &&& text[4 * group + 3] == (if 3 * group + 2 < data.len() {
                letters[c % 64]
            } else {
                '='
            })
        }),
{
    let (x, y, z) = (a as u32, b as u32, c as u32);
    let n = (a * 65536 + b * 256 + c) as u32;
    assert(n / 262144 == x / 4 && n / 4096 % 64 == x % 4 * 16 + y / 16 && n / 64 % 64 == y % 16 * 4 + z
        / 64 && n % 64 == z % 64) by (bit_vector)
        requires
            x < 256,
            y < 256,
            z < 256,
            n == x * 65536 + y * 256 + z,
    ;
    assert(group_of_bytes(data, group) == n as int);
    lemma_encoded_group(data, group);
    letters_stand_in_the_alphabet(a / 4);
    letters_stand_in_the_alphabet(a % 4 * 16 + b / 16);
    letters_stand_in_the_alphabet(b % 16 * 4 + c / 64);
    letters_stand_in_the_alphabet(c % 64);
    let q = 4 * group;
    assert((q + 2) / 4 == group && (q + 2) % 4 == 2);
    assert((q + 3) / 4 == group && (q + 3) % 4 == 3);
    assert(61u8 as char == '=');
}

/// There are four characters for every three bytes, the last group counting in full.
pub proof fn encoded_text_has_whole_groups(data: Seq<u8>)
    ensures
        encoded(data).len() % 4 == 0,
        3 * (encoded(data).len() / 4) >= data.len(),
        3 * (encoded(data).len() / 4) < data.len() + 3,
{
}

/// Bytes that are all in the alphabet are all letters.
proof fn lemma_all_letters(values: Seq<int>, bytes: Seq<u8>)
    requires
        bytes.len() == values.len(),
        forall|i: int|
            0 <= i < values.len() ==> 0 <= #[trigger] values[i] < 64 && bytes[i]
                == "ABCDEFGHIJKLMNOPQRSTUVWXYZabcdefghijklmnopqrstuvwxyz0123456789+/"@[values[i]] as u8,
    ensures
        letters(bytes) == bytes,
        forall|i: int| 0 <= i < bytes.len() ==> value_of(#[trigger] bytes[i]) == Some(values[i]),
        first_bad(bytes) is None,
        bytes.len() > 0 ==> first_bad(bytes.drop_last()) is None,
{
    let keep = |b: u8| !blank(b);
    assert forall|i: int| 0 <= i < bytes.len() implies value_of(#[trigger] bytes[i]) == Some(values[i])
        && keep(bytes[i]) && bytes[i] != 61 by {
        letters_stand_in_the_alphabet(values[i]);
        lemma_letter(values[i]);
    }
    lemma_filter_all(bytes, keep);
    bytes.index_of_first_ensures(61u8);
    lemma_first_bad(bytes, bytes.len() as int);
    if bytes.len() > 0 {
        lemma_first_bad(bytes.drop_last(), bytes.len() - 1);
    }
}

/// Letters spell bytes: each has six bits, the first bits first, and a byte has eight. Bits that are
/// left over at the end are passed over.
pub proof fn letters_spell_their_bits(values: Seq<int>, bytes: Seq<u8>, group: int)
    requires
        bytes.len() == values.len(),
        values.len() % 4 != 1,
        forall|i: int|
            0 <= i < values.len() ==> 0 <= #[trigger] values[i] < 64 && bytes[i]
                == "ABCDEFGHIJKLMNOPQRSTUVWXYZabcdefghijklmnopqrstuvwxyz0123456789+/"@[values[i]] as u8,
        0 <= group,
    ensures
        decoded(bytes) matches Ok(data) && {
            let q = 4 * group;
            &&& data.len() == 6 * values.len() / 8
            &&& q + 1 < values.len() ==> data[3 * group] == values[q] * 4 + values[q + 1] / 16
            &&& q + 2 < values.len() ==> data[3 * group + 1] == values[q + 1] % 16 * 16 + values[q + 2]
                / 4
            &&& q + 3 < values.len() ==> data[3 * group + 2] == values[q + 2] % 4 * 64 + values[q + 3]
        },
{
    lemma_all_letters(values, bytes);
    let q = 4 * group;
    let v0 = value_or_zero(bytes, q);
    let v1 = value_or_zero(bytes, q + 1);
    let v2 = value_or_zero(bytes, q + 2);
    let v3 = value_or_zero(bytes, q + 3);
    assert(0 <= v0 < 64 && 0 <= v1 < 64 && 0 <= v2 < 64 && 0 <= v3 < 64);
    let (a, b, c, d) = (v0 as u32, v1 as u32, v2 as u32, v3 as u32);
    let n = (v0 * 262144 + v1 * 4096 + v2 * 64 + v3) as u32;
    assert(n / 65536 == a * 4 + b / 16 && n / 256 % 256 == b % 16 * 16 + c / 4 && n % 256 == c % 4 * 64
        + d) by (bit_vector)
        requires
            a < 64,
            b < 64,
            c < 64,
            d < 64,
            n == a * 262144 + b * 4096 + c * 64 + d,
    ;
    assert(group_of_letters(bytes, group) == n as int);
    let p = 3 * group;
    assert(p / 3 == group && p % 3 == 0);
    assert((p + 1) / 3 == group && (p + 1) % 3 == 1);
    assert((p + 2) / 3 == group && (p + 2) % 3 == 2);
    let len = values.len() as int;
    assert(decoded_len(values.len()) == 6 * len / 8);
}

/// A single letter behind whole groups is too little for a byte.
pub proof fn single_letter_is_truncated(values: Seq<int>, bytes: Seq<u8>)
    requires
        bytes.len() == values.len(),
        values.len() % 4 == 1,
        forall|i: int|
            0 <= i < values.len() ==> 0 <= #[trigger] values[i] < 64 && bytes[i]
                == "ABCDEFGHIJKLMNOPQRSTUVWXYZabcdefghijklmnopqrstuvwxyz0123456789+/"@[values[i]] as u8,
    ensures
        decoded(bytes) == Err::<Seq<u8>, DecodeError>(DecodeError::Truncated),
{
    lemma_all_letters(values, bytes);
}

/// The first byte that is no letter, no blank and no padding is the one that is told of, unless it is
/// the first of its group and the last of all: then the text is cut off there.
pub proof fn first_bad_byte_is_told(values: Seq<int>, good: Seq<u8>, bad: u8, rest: Seq<u8>)
    requires
        good.len() == values.len(),
        forall|i: int|
            0 <= i < values.len() ==> 0 <= #[trigger] values[i] < 64 && good[i]
                == "ABCDEFGHIJKLMNOPQRSTUVWXYZabcdefghijklmnopqrstuvwxyz0123456789+/"@[values[i]] as u8,
        forall|v: int| 0 <= v < 64 ==> (#[trigger] "ABCDEFGHIJKLMNOPQRSTUVWXYZabcdefghijklmnopqrstuvwxyz0123456789+/"@[v]) as u8 != bad,
        bad != 32 && bad != 10 && bad != 13 && bad != 9 && bad != 61,
        forall|i: int|
            0 <= i < rest.len() ==> #[trigger] rest[i] != 32 && rest[i] != 10 && rest[i] != 13 && rest[i]
                != 9 && rest[i] != 61,
    ensures
        decoded(good + seq![bad] + rest) == Err::<Seq<u8>, DecodeError>(
            if rest.len() == 0 && good.len() % 4 == 0 {
                DecodeError::Truncated
            } else {
                DecodeError::InvalidByte(bad)
            },
        ),
{
    let bytes = good + seq![bad] + rest;
    let n = good.len() as int;
    assert forall|i: int| 0 <= i < n implies value_of(#[trigger] bytes[i]) is Some && !blank(bytes[i])
        && bytes[i] != 61 by {
        assert(bytes[i] == good[i]);
        letters_stand_in_the_alphabet(values[i]);
        lemma_letter(values[i]);
    }
    values_are_places_in_the_alphabet(bad);
    assert(bytes[n] == bad);
    assert forall|i: int| n < i < bytes.len() implies !blank(#[trigger] bytes[i]) && bytes[i] != 61 by {
        assert(bytes[i] == rest[i - n - 1]);
    }
    lemma_bad_at(bytes, n);
}

/// What is told where the first byte that is no letter stands at this position.
proof fn lemma_bad_at(bytes: Seq<u8>, n: int)
    requires
        0 <= n < bytes.len(),
        forall|i: int| 0 <= i < n ==> value_of(#[trigger] bytes[i]) is Some,
        value_of(bytes[n]) is None,
        forall|i: int| 0 <= i < bytes.len() ==> !blank(#[trigger] bytes[i]) && bytes[i] != 61,
    ensures
        decoded(bytes) == Err::<Seq<u8>, DecodeError>(
            if n == bytes.len() - 1 && n % 4 == 0 {
                DecodeError::Truncated
            } else {
                DecodeError::InvalidByte(bytes[n])
            },
        ),
{
    let keep = |b: u8| !blank(b);
    lemma_filter_all(bytes, keep);
    bytes.index_of_first_ensures(61u8);
    assert(letters(bytes) == bytes);
    lemma_first_bad(bytes, n);
    let front = bytes.drop_last();
    assert forall|i: int| 0 <= i < n implies value_of(#[trigger] front[i]) is Some by {
        assert(front[i] == bytes[i]);
    }
    lemma_first_bad(front, n);
    if n < front.len() {
        assert(front[n] == bytes[n]);
    }
}

/// A blank changes nothing, wherever it stands: a space, a line feed, a carriage return or a tab.
pub proof fn blanks_change_nothing(before: Seq<u8>, gap: u8, after: Seq<u8>)
    requires
        gap == 32 || gap == 10 || gap == 13 || gap == 9,
    ensures
        decoded(before + seq![gap] + after) == decoded(before + after),
{
    let keep = |b: u8| !blank(b);
    Seq::filter_distributes_over_add(before + seq![gap], after, keep);
    Seq::filter_distributes_over_add(before, seq![gap], keep);
    Seq::filter_distributes_over_add(before, after, keep);
    reveal_with_fuel(Seq::filter, 2);
    assert(seq![gap].drop_last() =~= Seq::<u8>::empty());
    assert(seq![gap].filter(keep) =~= Seq::<u8>::empty());
    assert((before + seq![gap]).filter(keep) =~= before.filter(keep));
}

/// Nothing counts from the first padding on.
pub proof fn padding_ends_the_text(before: Seq<u8>, after: Seq<u8>)
    ensures
        decoded(before + seq![61u8] + after) == decoded(before),
{
    let keep = |b: u8| !blank(b);
    let bytes = before + seq![61u8] + after;
    Seq::filter_distributes_over_add(before + seq![61u8], after, keep);
    Seq::filter_distributes_over_add(before, seq![61u8], keep);
    reveal_with_fuel(Seq::filter, 2);
    assert(seq![61u8].drop_last() =~= Seq::<u8>::empty());
    assert(seq![61u8].filter(keep) =~= seq![61u8]);
    let head = before.filter(keep);
    let shown = bytes.filter(keep);
    assert(shown == head + seq![61u8] + after.filter(keep));
    assert(shown[head.len() as int] == 61);
    shown.index_of_first_ensures(61u8);
    head.index_of_first_ensures(61u8);
    let end = shown.index_of_first(61u8).unwrap();
    assert(end <= head.len());
    if end < head.len() {
        assert(head[end] == 61);
        assert(head.contains(61u8));
        let first = head.index_of_first(61u8).unwrap();
        assert(shown[first] == 61);
        assert(first == end);
        assert(shown.take(end) =~= head.take(end));
    } else {
        if head.contains(61u8) {
            let first = head.index_of_first(61u8).unwrap();
            assert(shown[first] == 61);
        }
        assert(shown.take(end) =~= head);
    }
    assert(letters(bytes) == letters(before));
}

/// What is told of a bad byte ends with the byte in hexadecimal.
pub proof fn bad_byte_is_spelled(byte: u8)
    ensures
        byte >= 16 ==> decode_error_text(DecodeError::InvalidByte(byte)) == "invalid base64 byte 0x"@
            + seq!["0123456789abcdef"@[byte as int / 16], "0123456789abcdef"@[byte as int % 16]],
        byte < 16 ==> decode_error_text(DecodeError::InvalidByte(byte)) == "invalid base64 byte 0x"@
            + seq!["0123456789abcdef"@[byte as int]],
        decode_error_text(DecodeError::Truncated) == "truncated base64"@,
{
    text::hex_digits_are_literal(byte as int / 16);
    text::hex_digits_are_literal(byte as int % 16);
    reveal_strlit("invalid base64 byte 0x");
    reveal_strlit("invalid base64 byte ");
    assert("invalid base64 byte 0x"@ =~= "invalid base64 byte "@ + seq!['0', 'x']);
    assert(decode_error_text(DecodeError::InvalidByte(byte)) =~= "invalid base64 byte 0x"@
        + text::hex(byte).skip(2));
    if byte >= 16 {
        assert(text::hex(byte).skip(2) =~= seq![
            "0123456789abcdef"@[byte as int / 16],
            "0123456789abcdef"@[byte as int % 16],
        ]);
    } else {
        assert(text::hex(byte).skip(2) =~= seq!["0123456789abcdef"@[byte as int]]);
    }
}

}
