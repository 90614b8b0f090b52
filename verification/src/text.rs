//! Character and byte level helpers shared by the parsers and encoders:
//! characters of a string, UTF-8 bytes of a string and back, and decimal
//! numerals as Rust's `FromStr` and `Display` for unsigned integers read and
//! write them.

use vstd::prelude::*;
use vstd::std_specs::iter::IteratorSpec;
use vstd::utf8::*;

verus! {

broadcast use vstd::string::group_string_axioms;

/// The characters of a string slice, in order.
pub fn str_chars(s: &str) -> (v: Vec<char>)
    ensures
        v@ == s@,
{
    let mut v: Vec<char> = Vec::new();
    for c in it: s.chars()
        invariant
            v@ == it.seq().take(it.index() as int),
            it.seq() == s@,
    {
        v.push(c);
    }
    v
}

/// Whether two character vectors are equal.
pub fn chars_eq(a: &Vec<char>, b: &Vec<char>) -> (r: bool)
    ensures
        r == (a@ == b@),
{
    if a.len() != b.len() {
        return false;
    }
    let mut i: usize = 0;
    while i < a.len()
        invariant
            a.len() == b.len(),
            0 <= i <= a.len(),
            forall|j: int| 0 <= j < i ==> a@[j] == b@[j],
        decreases a.len() - i,
    {
        if a[i] != b[i] {
            return false;
        }
        i += 1;
    }
    assert(a@ =~= b@);
    true
}

/// Whether two string slices hold the same characters.
pub fn str_eq(a: &str, b: &str) -> (r: bool)
    ensures
        r == (a@ == b@),
{
    let ca = str_chars(a);
    let cb = str_chars(b);
    chars_eq(&ca, &cb)
}

/// Whether a character occurs in a string slice.
pub fn str_contains_char(s: &str, c: char) -> (r: bool)
    ensures
        r == s@.contains(c),
{
    let cs = str_chars(s);
    let mut i: usize = 0;
    while i < cs.len()
        invariant
            cs@ == s@,
            0 <= i <= cs.len(),
            forall|j: int| 0 <= j < i ==> cs@[j] != c,
        decreases cs.len() - i,
    {
        if cs[i] == c {
            assert(s@[i as int] == c);
            return true;
        }
        i += 1;
    }
    false
}

/// The UTF-8 bytes of a string slice.
pub fn str_bytes(s: &str) -> (b: Vec<u8>)
    ensures
        b@ == encode_utf8(s@),
{
    vstd::slice::slice_to_vec(s.as_bytes())
}

/// `String::from_utf8`: a vector of bytes that is valid UTF-8 becomes the
/// string it encodes; any other vector is refused.
#[verifier::external_body]
pub(crate) fn string_from_utf8(bytes: Vec<u8>) -> (r: Option<String>)
    ensures
        r.is_some() == valid_utf8(bytes@),
        r matches Some(s) ==> s@ == decode_utf8(bytes@),
{
    String::from_utf8(bytes).ok()
}

/// What `String::from_utf8_lossy` makes of a byte sequence.
pub uninterp spec fn utf8_lossy(b: Seq<u8>) -> Seq<char>;

/// `String::from_utf8_lossy`, made an owned string: bytes that are valid
/// UTF-8 are decoded as they are; in other bytes every invalid sequence
/// becomes U+FFFD. The result is named by `utf8_lossy`.
#[verifier::external_body]
pub(crate) fn string_from_utf8_lossy(bytes: &[u8]) -> (s: String)
    ensures
        s@ == utf8_lossy(bytes@),
        valid_utf8(bytes@) ==> s@ == decode_utf8(bytes@),
{
    String::from_utf8_lossy(bytes).into_owned()
}

/// The string whose UTF-8 encoding is `bytes`, for bytes that are known to be
/// an encoding.
pub(crate) fn string_from_encoding(bytes: Vec<u8>, Ghost(cs): Ghost<Seq<char>>) -> (s: String)
    requires
        bytes@ == encode_utf8(cs),
    ensures
        s@ == cs,
{
    proof {
        encode_utf8_valid_utf8(cs);
        encode_utf8_decode_utf8(cs);
    }
    match string_from_utf8(bytes) {
        Some(s) => s,
        None => {
            proof {
                assert(false);
            }
            String::new()
        },
    }
}

/// Encoding distributes over concatenation.
pub proof fn lemma_encode_utf8_concat(a: Seq<char>, b: Seq<char>)
    ensures
        encode_utf8(a + b) == encode_utf8(a) + encode_utf8(b),
    decreases a.len(),
{
    if a.len() == 0 {
        assert(a + b =~= b);
        assert(encode_utf8(a) =~= Seq::<u8>::empty());
        assert(encode_utf8(a) + encode_utf8(b) =~= encode_utf8(b));
    } else {
        lemma_encode_utf8_concat(a.drop_first(), b);
        assert((a + b).drop_first() =~= a.drop_first() + b);
        assert((a + b)[0] == a[0]);
        let e0 = encode_scalar(a[0] as u32);
        assert(encode_utf8(a + b) == e0 + encode_utf8(a.drop_first() + b));
        assert(encode_utf8(a) == e0 + encode_utf8(a.drop_first()));
        assert(encode_utf8(a + b) =~= encode_utf8(a) + encode_utf8(b));
    }
}

/// The encoding of a one-character sequence is the encoding of the character.
pub proof fn lemma_encode_utf8_single(c: char)
    ensures
        encode_utf8(seq![c]) == encode_scalar(c as u32),
{
    assert(seq![c].drop_first() =~= Seq::<char>::empty());
    assert(encode_utf8(Seq::<char>::empty()) =~= Seq::<u8>::empty());
    assert(encode_scalar(c as u32) + Seq::<u8>::empty() =~= encode_scalar(c as u32));
}

proof fn lemma_ascii_scalar_bits(x: u32)
    by (bit_vector)
    requires
        x < 0x80,
    ensures
        (x & 0x7F) as u8 == x as u8,
        (x & 0x7F) == x,
{
}

proof fn lemma_wide_scalar_bytes_high(x: u32)
    by (bit_vector)
    ensures
        0xC0 | ((x >> 6) & 0x1F) as u8 >= 0x80,
        0xE0 | ((x >> 12) & 0x0F) as u8 >= 0x80,
        0xF0 | ((x >> 18) & 0x7) as u8 >= 0x80,
        0x80 | (x & 0x3F) as u8 >= 0x80,
        0x80 | ((x >> 6) & 0x3F) as u8 >= 0x80,
        0x80 | ((x >> 12) & 0x3F) as u8 >= 0x80,
{
}

/// An ASCII character is encoded as the one byte of the same value.
pub proof fn lemma_encode_ascii_char(c: char)
    requires
        (c as u32) < 0x80,
    ensures
        encode_utf8(seq![c]) == seq![(c as u32) as u8],
        encode_scalar(c as u32) == seq![(c as u32) as u8],
{
    lemma_encode_utf8_single(c);
    lemma_ascii_scalar_bits(c as u32);
}

/// A byte below 0x80 occurs in the encoding of a scalar exactly when the
/// scalar is that byte's value.
pub proof fn lemma_encode_scalar_ascii_byte(x: u32, b: u8)
    requires
        is_scalar(x),
        b < 0x80,
    ensures
        encode_scalar(x).contains(b) <==> x == b as u32,
{
    lemma_wide_scalar_bytes_high(x);
    if has_width_1_encoding(x) {
        lemma_ascii_scalar_bits(x);
        if x == b as u32 {
            assert(encode_scalar(x)[0] == b);
        }
    } else {
        let e = encode_scalar(x);
        assert forall|i: int| 0 <= i < e.len() implies e[i] >= 0x80 by {}
    }
}

/// A byte below 0x80 occurs in the encoding of a character sequence exactly
/// when the character of that value occurs in the sequence.
pub proof fn lemma_encode_utf8_ascii_byte(cs: Seq<char>, b: u8)
    requires
        b < 0x80,
    ensures
        encode_utf8(cs).contains(b) <==> cs.contains(b as char),
    decreases cs.len(),
{
    if cs.len() > 0 {
        let rest = cs.drop_first();
        lemma_encode_utf8_ascii_byte(rest, b);
        char_is_scalar(cs[0]);
        lemma_encode_scalar_ascii_byte(cs[0] as u32, b);
        let e0 = encode_scalar(cs[0] as u32);
        let er = encode_utf8(rest);
        assert(encode_utf8(cs) == e0 + er);
        if cs.contains(b as char) {
            let k = choose|k: int| 0 <= k < cs.len() && cs[k] == b as char;
            if k == 0 {
                assert(cs[0] as u32 == b as u32);
                let j = choose|j: int| 0 <= j < e0.len() && e0[j] == b;
                assert((e0 + er)[j] == b);
            } else {
                assert(rest[k - 1] == b as char);
                let j = choose|j: int| 0 <= j < er.len() && er[j] == b;
                assert((e0 + er)[e0.len() + j] == b);
            }
        }
        if encode_utf8(cs).contains(b) {
            let j = choose|j: int| 0 <= j < (e0 + er).len() && (e0 + er)[j] == b;
            if j < e0.len() {
                assert(e0[j] == b);
                assert(cs[0] as u32 == b as u32);
                char_u32_cast(cs[0], cs[0] as u32);
                assert(cs[0] == b as char);
            } else {
                assert(er[j - e0.len()] == b);
                let k = choose|k: int| 0 <= k < rest.len() && rest[k] == b as char;
                assert(cs[k + 1] == b as char);
            }
        }
    }
}

/// An encoding has at least as many bytes as the sequence has characters.
pub proof fn lemma_encode_utf8_len(cs: Seq<char>)
    ensures
        encode_utf8(cs).len() >= cs.len(),
    decreases cs.len(),
{
    if cs.len() > 0 {
        lemma_encode_utf8_len(cs.drop_first());
    }
}

// ---------------------------------------------------------------------
// Decimal numerals
// ---------------------------------------------------------------------
/// Whether a character is an ASCII decimal digit.
pub open spec fn is_digit(c: char) -> bool {
    '0' <= c && c <= '9'
}

/// The value of a decimal digit.
pub open spec fn digit_value(c: char) -> nat {
    ((c as u32) - ('0' as u32)) as nat
}

/// The digit character for a value below ten.
pub open spec fn digit_char(d: nat) -> char {
    (('0' as u32) + d) as char
}

/// Whether every character of a sequence is a decimal digit.
pub open spec fn all_digits(cs: Seq<char>) -> bool {
    forall|i: int| 0 <= i < cs.len() ==> is_digit(#[trigger] cs[i])
}

/// The value of a sequence of decimal digits, most significant first.
pub open spec fn digits_value(cs: Seq<char>) -> nat
    decreases cs.len(),
{
    if cs.len() == 0 {
        0
    } else {
        digits_value(cs.drop_last()) * 10 + digit_value(cs.last())
    }
}

/// The number that Rust's `FromStr` for an unsigned integer type reads from
/// `cs` before its range check: an optional `+` followed by one or more
/// decimal digits.
pub open spec fn unsigned_numeral_value(cs: Seq<char>) -> Option<nat> {
    let ds = if cs.len() > 0 && cs[0] == '+' {
        cs.drop_first()
    } else {
        cs
    };
    if ds.len() > 0 && all_digits(ds) {
        Some(digits_value(ds))
    } else {
        None
    }
}

/// What `str::parse::<u64>` gives for `cs`.
pub open spec fn spec_parse_u64(cs: Seq<char>) -> Option<u64> {
    match unsigned_numeral_value(cs) {
        Some(v) => if v <= u64::MAX {
            Some(v as u64)
        } else {
            None
        },
        None => None,
    }
}

/// What `str::parse::<u32>` gives for `cs`.
pub open spec fn spec_parse_u32(cs: Seq<char>) -> Option<u32> {
    match unsigned_numeral_value(cs) {
        Some(v) => if v <= u32::MAX {
            Some(v as u32)
        } else {
            None
        },
        None => None,
    }
}

/// The decimal numeral of `n` without leading zeros, as `Display` writes it.
pub open spec fn decimal_numeral(n: nat) -> Seq<char>
    decreases n,
{
    if n < 10 {
        seq![digit_char(n)]
    } else {
        decimal_numeral(n / 10).push(digit_char(n % 10))
    }
}

/// A value of a digit prefix never exceeds the value of the whole digit
/// sequence.
pub proof fn lemma_digits_value_prefix(cs: Seq<char>, k: int)
    requires
        0 <= k <= cs.len(),
    ensures
        digits_value(cs.take(k)) <= digits_value(cs),
    decreases cs.len(),
{
    if k < cs.len() {
        lemma_digits_value_prefix(cs.drop_last(), k);
        assert(cs.drop_last().take(k) =~= cs.take(k));
    } else {
        assert(cs.take(k) =~= cs);
    }
}

proof fn lemma_digit_char_value(d: nat)
    requires
        d < 10,
    ensures
        is_digit(digit_char(d)),
        digit_value(digit_char(d)) == d,
        (digit_char(d) as u32) < 0x80,
{
}

/// The decimal numeral is a nonempty digit sequence whose value is `n`.
pub proof fn lemma_decimal_numeral(n: nat)
    ensures
        decimal_numeral(n).len() > 0,
        all_digits(decimal_numeral(n)),
        digits_value(decimal_numeral(n)) == n,
        decimal_numeral(n)[0] != '+',
        is_ascii_chars(decimal_numeral(n)),
    decreases n,
{
    if n < 10 {
        lemma_digit_char_value(n);
        assert(decimal_numeral(n).drop_last() =~= Seq::<char>::empty());
        assert(digits_value(Seq::<char>::empty()) == 0);
    } else {
        lemma_decimal_numeral(n / 10);
        lemma_digit_char_value(n % 10);
        let s = decimal_numeral(n);
        assert(s.drop_last() =~= decimal_numeral(n / 10));
        assert(s[0] == decimal_numeral(n / 10)[0]);
        assert(n == (n / 10) * 10 + n % 10) by (nonlinear_arith);
        assert(forall|i: int| 0 <= i < s.len() - 1 ==> s[i] == decimal_numeral(n / 10)[i]);
    }
    let s = decimal_numeral(n);
    assert forall|i: int| 0 <= i < s.len() implies (s[i] as u32) < 0x80 by {
        assert(is_digit(s[i]));
    }
}

/// Reading the numeral that `Display` writes gives back the number.
pub proof fn lemma_parse_decimal_numeral(n: u64)
    ensures
        spec_parse_u64(decimal_numeral(n as nat)) == Some(n),
{
    lemma_decimal_numeral(n as nat);
}

/// Reads an unsigned numeral as `str::parse::<u64>` does.
pub fn parse_u64(s: &str) -> (r: Option<u64>)
    ensures
        r == spec_parse_u64(s@),
{
    let cs = str_chars(s);
    let start: usize = if cs.len() > 0 && cs[0] == '+' {
        1
    } else {
        0
    };
    let ghost ds = if cs@.len() > 0 && cs@[0] == '+' {
        cs@.drop_first()
    } else {
        cs@
    };
    assert(ds =~= cs@.skip(start as int));
    if start == cs.len() {
        return None;
    }
    let mut v: u64 = 0;
    let mut i: usize = start;
    while i < cs.len()
        invariant
            cs@ == s@,
            start <= i <= cs.len(),
            start < cs.len(),
            ds == cs@.skip(start as int),
            ds.len() > 0,
            unsigned_numeral_value(s@) == (if all_digits(ds) {
                Some(digits_value(ds))
            } else {
                None::<nat>
            }),
            all_digits(ds.take(i - start)),
            v as nat == digits_value(ds.take(i - start)),
        decreases cs.len() - i,
    {
        let c = cs[i];
        let ghost k = i - start;
        assert(ds[k] == c);
        if !('0' <= c && c <= '9') {
            assert(!is_digit(ds[k]));
            assert(!all_digits(ds));
            return None;
        }
        let d: u64 = ((c as u32) - ('0' as u32)) as u64;
        assert(ds.take(k + 1).drop_last() =~= ds.take(k));
        assert(ds.take(k + 1).last() == c);
        assert(digits_value(ds.take(k + 1)) == digits_value(ds.take(k)) * 10 + digit_value(c));
        match v.checked_mul(10) {
            Some(m) => match m.checked_add(d) {
                Some(nv) => {
                    v = nv;
                },
                None => {
                    proof {
                        if all_digits(ds) {
                            lemma_digits_value_prefix(ds, k + 1);
                        }
                    }
                    return None;
                },
            },
            None => {
                proof {
                    if all_digits(ds) {
                        lemma_digits_value_prefix(ds, k + 1);
                    }
                }
                return None;
            },
        }
        i += 1;
        assert forall|j: int| 0 <= j < ds.take(i - start).len() implies is_digit(
            #[trigger] ds.take(i - start)[j],
        ) by {
            if j < k {
                assert(ds.take(k)[j] == ds.take(i - start)[j]);
            }
        }
    }
    assert(ds.take(i - start) =~= ds);
    Some(v)
}

/// Reads an unsigned numeral as `str::parse::<u32>` does.
pub fn parse_u32(s: &str) -> (r: Option<u32>)
    ensures
        r == spec_parse_u32(s@),
{
    match parse_u64(s) {
        Some(v) => if v <= 0xFFFF_FFFFu64 {
            Some(v as u32)
        } else {
            None
        },
        None => {
            assert(spec_parse_u32(s@) is None);
            None
        },
    }
}

fn push_decimal(n: u64, out: &mut Vec<u8>)
    ensures
        final(out)@ == old(out)@ + encode_utf8(decimal_numeral(n as nat)),
    decreases n,
{
    proof {
        lemma_decimal_numeral(n as nat);
    }
    let ghost before = out@;
    if n >= 10 {
        push_decimal(n / 10, out);
    }
    let d: u64 = n % 10;
    let c: u8 = 48u8 + (d as u8);
    out.push(c);
    proof {
        lemma_digit_char_value(d as nat);
        let dc = digit_char(d as nat);
        lemma_encode_ascii_char(dc);
        assert((dc as u32) as u8 == c);
        if n >= 10 {
            let prev = decimal_numeral((n / 10) as nat);
            assert(decimal_numeral(n as nat) == prev.push(dc));
            assert(prev.push(dc) =~= prev + seq![dc]);
            lemma_encode_utf8_concat(prev, seq![dc]);
        } else {
            assert(decimal_numeral(n as nat) == seq![dc]);
        }
        assert(final(out)@ =~= before + encode_utf8(decimal_numeral(n as nat)));
    }
}

/// The decimal numeral of `n`, as `u64::to_string` writes it.
pub fn u64_to_decimal(n: u64) -> (s: String)
    ensures
        s@ == decimal_numeral(n as nat),
{
    let mut bytes: Vec<u8> = Vec::new();
    push_decimal(n, &mut bytes);
    assert(bytes@ =~= encode_utf8(decimal_numeral(n as nat)));
    string_from_encoding(bytes, Ghost(decimal_numeral(n as nat)))
}

// ---------------------------------------------------------------------
// Words separated by white space
// ---------------------------------------------------------------------
/// Unicode `White_Space`, as `char::is_whitespace` tests it.
pub open spec fn is_whitespace(c: char) -> bool {
    ||| c == '\t'
    ||| c == '\n'
    ||| c == '\u{0B}'
    ||| c == '\u{0C}'
    ||| c == '\r'
    ||| c == ' '
    ||| c == '\u{85}'
    ||| c == '\u{A0}'
    ||| c == '\u{1680}'
    ||| ('\u{2000}' <= c && c <= '\u{200A}')
    ||| c == '\u{2028}'
    ||| c == '\u{2029}'
    ||| c == '\u{202F}'
    ||| c == '\u{205F}'
    ||| c == '\u{3000}'
}

/// Tests `is_whitespace`.
pub fn char_is_whitespace(c: char) -> (r: bool)
    ensures
        r == is_whitespace(c),
{
    c == '\t' || c == '\n' || c == '\u{0B}' || c == '\u{0C}' || c == '\r' || c == ' ' || c
        == '\u{85}' || c == '\u{A0}' || c == '\u{1680}' || ('\u{2000}' <= c && c <= '\u{200A}')
        || c == '\u{2028}' || c == '\u{2029}' || c == '\u{202F}' || c == '\u{205F}' || c
        == '\u{3000}'
}

/// The number of leading characters that are not white space.
pub open spec fn word_len(cs: Seq<char>) -> nat
    decreases cs.len(),
{
    if cs.len() == 0 || is_whitespace(cs[0]) {
        0
    } else {
        1 + word_len(cs.drop_first())
    }
}

/// `word_len` counts exactly the leading run of characters that are not
/// white space.
pub proof fn lemma_word_len(cs: Seq<char>, k: int)
    requires
        0 <= k <= cs.len(),
        forall|j: int| 0 <= j < k ==> !is_whitespace(#[trigger] cs[j]),
        k == cs.len() || is_whitespace(cs[k]),
    ensures
        word_len(cs) == k,
    decreases k,
{
    if k > 0 {
        assert(!is_whitespace(cs[0]));
        let rest = cs.drop_first();
        assert forall|j: int| 0 <= j < k - 1 implies !is_whitespace(#[trigger] rest[j]) by {
            assert(rest[j] == cs[j + 1]);
        }
        lemma_word_len(rest, k - 1);
    }
}

/// `word_len` never runs past the end.
pub proof fn lemma_word_len_bound(cs: Seq<char>)
    ensures
        word_len(cs) <= cs.len(),
        cs.len() > 0 && !is_whitespace(cs[0]) ==> word_len(cs) >= 1,
    decreases cs.len(),
{
    if cs.len() > 0 {
        lemma_word_len_bound(cs.drop_first());
    }
}

/// The maximal runs of characters that are not white space, in order, as
/// `str::split_whitespace` yields them.
pub open spec fn split_words(cs: Seq<char>) -> Seq<Seq<char>>
    decreases cs.len(),
{
    if cs.len() == 0 {
        seq![]
    } else if is_whitespace(cs[0]) {
        split_words(cs.drop_first())
    } else {
        proof {
            lemma_word_len_bound(cs);
        }
        let n: nat = word_len(cs);
        seq![cs.take(n as int)] + split_words(cs.skip(n as int))
    }
}

/// The words of a string slice, as `str::split_whitespace` yields them.
pub fn split_whitespace(s: &str) -> (r: Vec<Vec<char>>)
    ensures
        r@.map_values(|w: Vec<char>| w@) == split_words(s@),
{
    let cs = str_chars(s);
    let mut words: Vec<Vec<char>> = Vec::new();
    let mut i: usize = 0;
    assert(cs@.skip(0) =~= cs@);
    assert(words@.map_values(|w: Vec<char>| w@) =~= Seq::<Seq<char>>::empty());
    while i < cs.len()
        invariant
            cs@ == s@,
            0 <= i <= cs@.len(),
            split_words(cs@) == words@.map_values(|w: Vec<char>| w@) + split_words(cs@.skip(i as int)),
        decreases cs@.len() - i,
    {
        let ghost rest = cs@.skip(i as int);
        if char_is_whitespace(cs[i]) {
            proof {
                assert(rest[0] == cs@[i as int]);
                assert(rest.drop_first() =~= cs@.skip(i + 1));
            }
            i += 1;
        } else {
            let mut j: usize = i;
            let mut w: Vec<char> = Vec::new();
            while j < cs.len() && !char_is_whitespace(cs[j])
                invariant
                    i <= j <= cs@.len(),
                    forall|k: int| i <= k < j ==> !is_whitespace(#[trigger] cs@[k]),
                    w@ == cs@.subrange(i as int, j as int),
                decreases cs@.len() - j,
            {
                w.push(cs[j]);
                j += 1;
            }
            proof {
                assert(rest[0] == cs@[i as int]);
                assert forall|k: int| 0 <= k < j - i implies !is_whitespace(#[trigger] rest[k]) by {
                    assert(rest[k] == cs@[i + k]);
                }
                if j < cs@.len() {
                    assert(rest[j - i] == cs@[j as int]);
                }
                lemma_word_len(rest, j - i);
                assert(rest.take(j - i) =~= w@);
                assert(rest.skip(j - i) =~= cs@.skip(j as int));
            }
            let ghost old_words = words@;
            words.push(w);
            proof {
                assert(words@.map_values(|x: Vec<char>| x@) =~= old_words.map_values(
                    |x: Vec<char>| x@,
                ).push(w@));
                assert(split_words(cs@) =~= words@.map_values(|x: Vec<char>| x@) + split_words(
                    cs@.skip(j as int),
                ));
            }
            i = j;
        }
    }
    proof {
        assert(cs@.skip(i as int) =~= Seq::<char>::empty());
        assert(split_words(Seq::<char>::empty()) =~= Seq::<Seq<char>>::empty());
        assert(words@.map_values(|w: Vec<char>| w@) + Seq::<Seq<char>>::empty() =~= words@.map_values(
            |w: Vec<char>| w@,
        ));
    }
    words
}

/// The UTF-8 encoding of one character.
pub fn char_utf8_bytes(c: char) -> (r: Vec<u8>)
    ensures
        r@ == encode_scalar(c as u32),
{
    proof {
        char_is_scalar(c);
    }
    let x: u32 = c as u32;
    let mut r: Vec<u8> = Vec::new();
    if x <= 0x7F {
        r.push((x & 0x7F) as u8);
    } else if x <= 0x7FF {
        r.push(0xC0 | ((x >> 6) & 0x1F) as u8);
        r.push(0x80 | (x & 0x3F) as u8);
    } else if x <= 0xFFFF {
        r.push(0xE0 | ((x >> 12) & 0x0F) as u8);
        r.push(0x80 | ((x >> 6) & 0x3F) as u8);
        r.push(0x80 | (x & 0x3F) as u8);
    } else {
        r.push(0xF0 | ((x >> 18) & 0x7) as u8);
        r.push(0x80 | ((x >> 12) & 0x3F) as u8);
        r.push(0x80 | ((x >> 6) & 0x3F) as u8);
        r.push(0x80 | (x & 0x3F) as u8);
    }
    assert(r@ =~= encode_scalar(x));
    r
}

/// A string built from characters.
pub fn string_from_chars(cs: &Vec<char>) -> (s: String)
    ensures
        s@ == cs@,
{
    let mut bytes: Vec<u8> = Vec::new();
    let mut i: usize = 0;
    assert(encode_utf8(cs@.take(0)) =~= Seq::<u8>::empty()) by {
        assert(cs@.take(0) =~= Seq::<char>::empty());
    }
    while i < cs.len()
        invariant
            0 <= i <= cs@.len(),
            bytes@ == encode_utf8(cs@.take(i as int)),
        decreases cs@.len() - i,
    {
        let mut b = char_utf8_bytes(cs[i]);
        proof {
            assert(cs@.take(i + 1) =~= cs@.take(i as int) + seq![cs@[i as int]]);
            lemma_encode_utf8_concat(cs@.take(i as int), seq![cs@[i as int]]);
            lemma_encode_utf8_single(cs@[i as int]);
        }
        bytes.append(&mut b);
        i += 1;
    }
    assert(cs@.take(i as int) =~= cs@);
    string_from_encoding(bytes, Ghost(cs@))
}

} // verus!
