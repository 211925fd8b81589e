//! Helpers on text: comparison byte by byte, decimal rendering, slicing at
//! byte offsets, hashing, and what the UTF-8 encoding does with the
//! delimiter of resource names.
use std::collections::hash_map::DefaultHasher;
use std::hash::Hasher;
use vstd::prelude::*;
use vstd::std_specs::hash::DefaultHasherAdditionalSpecFns;
use vstd::string::StringSliceAdditionalSpecFns;
use vstd::utf8::{decode_utf8, encode_utf8, is_char_boundary, valid_utf8};

verus! {

/// The UTF-8 bytes of a text.
pub open spec fn bytes_of(s: Seq<char>) -> Seq<u8> {
    encode_utf8(s)
}

/// The character that writes the decimal digit `d`.
pub open spec fn digit_char(d: int) -> char {
    if d == 0 {
        '0'
    } else if d == 1 {
        '1'
    } else if d == 2 {
        '2'
    } else if d == 3 {
        '3'
    } else if d == 4 {
        '4'
    } else if d == 5 {
        '5'
    } else if d == 6 {
        '6'
    } else if d == 7 {
        '7'
    } else if d == 8 {
        '8'
    } else {
        '9'
    }
}

/// The decimal numeral of `n`, without sign or leading zeros.
pub open spec fn decimal(n: nat) -> Seq<char>
    decreases n,
{
    if n < 10 {
        seq![digit_char(n as int)]
    } else {
        decimal(n / 10).push(digit_char((n % 10) as int))
    }
}

fn digit_text(d: u64) -> (res: &'static str)
    requires
        d < 10,
    ensures
        res@ == seq![digit_char(d as int)],
{
    proof {
        reveal_strlit("0");
        reveal_strlit("1");
        reveal_strlit("2");
        reveal_strlit("3");
        reveal_strlit("4");
        reveal_strlit("5");
        reveal_strlit("6");
        reveal_strlit("7");
        reveal_strlit("8");
        reveal_strlit("9");
    }
    let res = if d == 0 {
        "0"
    } else if d == 1 {
        "1"
    } else if d == 2 {
        "2"
    } else if d == 3 {
        "3"
    } else if d == 4 {
        "4"
    } else if d == 5 {
        "5"
    } else if d == 6 {
        "6"
    } else if d == 7 {
        "7"
    } else if d == 8 {
        "8"
    } else {
        "9"
    };
    assert(res@ =~= seq![digit_char(d as int)]);
    res
}

/// Renders `n` in decimal.
pub fn decimal_text(n: u64) -> (res: String)
    ensures
        res@ == decimal(n as nat),
    decreases n,
{
    if n < 10 {
        digit_text(n).to_owned()
    } else {
        let mut head = decimal_text(n / 10);
        head.append(digit_text(n % 10));
        assert(head@ =~= decimal(n as nat));
        head
    }
}

/// Whether two texts hold the same characters.
pub fn text_eq(a: &str, b: &str) -> (res: bool)
    ensures
        res == (a@ == b@),
{
    broadcast use vstd::utf8::encode_utf8_decode_utf8;

    let x = a.as_bytes();
    let y = b.as_bytes();
    if x.len() != y.len() {
        return false;
    }
    let mut i: usize = 0;
    while i < x.len()
        invariant
            i <= x.len(),
            x.len() == y.len(),
            x@ == a.spec_bytes(),
            y@ == b.spec_bytes(),
            forall|k: int| 0 <= k < i ==> x@[k] == y@[k],
        decreases x.len() - i,
    {
        if x[i] != y[i] {
            assert(x@ != y@);
            return false;
        }
        i += 1;
    }
    assert(x@ =~= y@);
    assert(decode_utf8(encode_utf8(a@)) == a@);
    assert(decode_utf8(encode_utf8(b@)) == b@);
    true
}

/// `std::string::FromUtf8Error`, the error for bytes that are not UTF-8.
/// Nothing inside it is seen here.
#[verifier::external_type_specification]
#[verifier::external_body]
pub struct ExFromUtf8Error(std::string::FromUtf8Error);

/// Turns bytes into text with `String::from_utf8`.
///
/// Taken on trust, from the documentation of the standard library: the
/// conversion succeeds exactly on valid UTF-8, and the text then holds the
/// characters that the bytes encode.
#[verifier::external_body]
pub(crate) fn string_from_utf8(bytes: Vec<u8>) -> (res: Result<String, std::string::FromUtf8Error>)
    ensures
        res is Ok <==> valid_utf8(bytes@),
        res matches Ok(s) ==> s@ == decode_utf8(bytes@),
{
    String::from_utf8(bytes)
}

/// In valid UTF-8, an offset is a character boundary if it is the end or if
/// the byte there does not continue a character.
pub proof fn lemma_boundary_by_byte(bytes: Seq<u8>, index: int)
    requires
        valid_utf8(bytes),
        0 <= index <= bytes.len(),
        index < bytes.len() ==> !vstd::utf8::is_continuation_byte(bytes[index]),
    ensures
        is_char_boundary(bytes, index),
{
    if index < bytes.len() {
        vstd::utf8::is_char_boundary_iff_not_is_continuation_byte(bytes, index);
    } else {
        vstd::utf8::is_char_boundary_start_end_of_seq(bytes);
    }
}

/// Where two valid UTF-8 sequences are joined is a character boundary of the
/// whole.
pub proof fn lemma_boundary_at_join(a: Seq<u8>, b: Seq<u8>)
    requires
        valid_utf8(a),
        valid_utf8(b),
    ensures
        valid_utf8(a + b),
        is_char_boundary(a + b, a.len() as int),
{
    vstd::utf8::valid_utf8_concat(a, b);
    if b.len() > 0 {
        vstd::utf8::is_char_boundary_start_end_of_seq(b);
        vstd::utf8::is_char_boundary_iff_not_is_continuation_byte(b, 0);
        assert((a + b)[a.len() as int] == b[0]);
    }
    lemma_boundary_by_byte(a + b, a.len() as int);
}

/// Whether two byte offsets, in order, lie inside `bytes` and on character
/// boundaries.
pub open spec fn is_slice(bytes: Seq<u8>, start: int, end: int) -> bool {
    &&& 0 <= start <= end <= bytes.len()
    &&& is_char_boundary(bytes, start)
    &&& is_char_boundary(bytes, end)
}

/// The text between two byte offsets, if they are in order, inside the text
/// and on character boundaries.
pub fn slice_text(text: &str, start: usize, end: usize) -> (res: Option<&str>)
    ensures
        res is Some <==> is_slice(bytes_of(text@), start as int, end as int),
        res matches Some(s) ==> bytes_of(s@) == bytes_of(text@).subrange(start as int, end as int)
            && s@ == decode_utf8(bytes_of(text@).subrange(start as int, end as int)),
{
    broadcast use vstd::utf8::encode_utf8_valid_utf8;
    broadcast use vstd::utf8::encode_utf8_decode_utf8;

    if start > end || end > text.as_bytes().len() {
        return None;
    }
    let starts = text.is_char_boundary(start);
    let ends = text.is_char_boundary(end);
    if !starts || !ends {
        return None;
    }
    let ghost bytes = text.spec_bytes();
    let (head, _) = text.split_at(end);
    proof {
        vstd::utf8::valid_utf8_split(bytes, end as int);
        if start < end {
            vstd::utf8::is_char_boundary_iff_not_is_continuation_byte(bytes, start as int);
            assert(head.spec_bytes()[start as int] == bytes[start as int]);
        }
        lemma_boundary_by_byte(head.spec_bytes(), start as int);
    }
    let (_, tail) = head.split_at(start);
    assert(tail.spec_bytes() =~= bytes.subrange(start as int, end as int));
    assert(decode_utf8(encode_utf8(tail@)) == tail@);
    Some(tail)
}

/// The 64-bit hash of a text: what the standard library's default hasher
/// gives for the text's UTF-8 bytes, written at once.
pub open spec fn text_hash(s: Seq<char>) -> u64 {
    DefaultHasher::spec_finish(seq![encode_utf8(s)])
}

/// The 64-bit hash of a text.
pub fn hash_text(s: &str) -> (res: u64)
    ensures
        res == text_hash(s@),
{
    let mut hasher = DefaultHasher::new();
    hasher.write(s.as_bytes());
    assert(hasher@ =~= seq![encode_utf8(s@)]);
    hasher.finish()
}

/// The texts of `parts` with `.` between them.
pub open spec fn dotted(parts: Seq<Seq<char>>) -> Seq<char>
    decreases parts.len(),
{
    if parts.len() == 0 {
        Seq::empty()
    } else if parts.len() == 1 {
        parts[0]
    } else {
        dotted(parts.drop_last()) + "."@ + parts.last()
    }
}

/// The texts of `parts` with `.` between them.
pub fn join_dotted(parts: &Vec<String>) -> (res: String)
    ensures
        res@ == dotted(Seq::new(parts@.len(), |i: int| parts@[i]@)),
{
    let ghost views = Seq::new(parts@.len(), |i: int| parts@[i]@);
    let mut out = String::new();
    let mut i: usize = 0;
    proof {
        assert(views.take(0) =~= Seq::<Seq<char>>::empty());
    }
    while i < parts.len()
        invariant
            i <= parts.len(),
            views == Seq::new(parts@.len(), |i: int| parts@[i]@),
            out@ == dotted(views.take(i as int)),
        decreases parts.len() - i,
    {
        proof {
            let next = views.take(i + 1);
            assert(next.last() == parts@[i as int]@);
            assert(next.drop_last() =~= views.take(i as int));
            if i == 0 {
                assert(next.len() == 1);
                assert(next[0] == parts@[0]@);
            }
        }
        if i > 0 {
            out.append(".");
        }
        out.append(parts[i].as_str());
        proof {
            if i == 0 {
                assert(out@ =~= parts@[0]@);
            }
        }
        i += 1;
    }
    proof {
        assert(views.take(views.len() as int) =~= views);
    }
    out
}

/// A score in thousandths as a decimal fraction with three places, such as
/// `0.850`.
pub open spec fn score_decimal(score: u32) -> Seq<char> {
    decimal((score / 1000) as nat) + "."@ + seq![
        digit_char(((score / 100) % 10) as int),
        digit_char(((score / 10) % 10) as int),
        digit_char((score % 10) as int),
    ]
}

/// A score in thousandths as a decimal fraction with three places.
pub fn score_text(score: u32) -> (res: String)
    ensures
        res@ == score_decimal(score),
{
    let mut out = decimal_text((score / 1000) as u64);
    out.append(".");
    out.append(digit_text(((score / 100) % 10) as u64));
    out.append(digit_text(((score / 10) % 10) as u64));
    out.append(digit_text((score % 10) as u64));
    assert(out@ =~= score_decimal(score));
    out
}

/// A copy of a list of texts.
pub fn clone_texts(texts: &Vec<String>) -> (res: Vec<String>)
    ensures
        res@.len() == texts@.len(),
        forall|i: int| 0 <= i < res@.len() ==> (#[trigger] res@[i])@ == texts@[i]@,
{
    let mut out: Vec<String> = Vec::new();
    let mut i: usize = 0;
    while i < texts.len()
        invariant
            i <= texts.len(),
            out@.len() == i,
            forall|k: int| 0 <= k < i ==> (#[trigger] out@[k])@ == texts@[k]@,
        decreases texts.len() - i,
    {
        out.push(texts[i].clone());
        i += 1;
    }
    out
}

/// The encoding of a concatenation is the concatenation of the encodings.
pub proof fn lemma_encode_concat(a: Seq<char>, b: Seq<char>)
    ensures
        encode_utf8(a + b) == encode_utf8(a) + encode_utf8(b),
    decreases a.len(),
{
    if a.len() == 0 {
        assert(a + b =~= b);
        assert(encode_utf8(a) + encode_utf8(b) =~= encode_utf8(b));
    } else {
        lemma_encode_concat(a.drop_first(), b);
        assert((a + b).drop_first() =~= a.drop_first() + b);
        assert((a + b)[0] == a[0]);
        assert(encode_utf8(a + b) =~= encode_utf8(a) + encode_utf8(b));
    }
}

/// The byte that encodes `_`.
pub const UNDERSCORE: u8 = 0x5f;

/// The encoding of `_` is the single byte `0x5f`.
pub proof fn lemma_underscore_encoding()
    ensures
        encode_utf8(seq!['_']) == seq![UNDERSCORE],
        bytes_of("_"@) == seq![UNDERSCORE],
{
    reveal_strlit("_");
    assert("_"@ =~= seq!['_']);
    let s = '_' as u32;
    assert(s == 0x5f);
    assert((s & 0x7F) as u8 == 0x5fu8) by (bit_vector)
        requires
            s == 0x5f,
    ;
    assert(seq!['_'].drop_first() =~= Seq::<char>::empty());
    reveal_with_fuel(encode_utf8, 2);
    assert(encode_utf8(seq!['_']) =~= seq![UNDERSCORE]);
}

/// A text that holds `_` has the byte `0x5f` in its encoding.
pub proof fn lemma_underscore_in_bytes(chars: Seq<char>)
    requires
        chars.contains('_'),
    ensures
        encode_utf8(chars).contains(UNDERSCORE),
    decreases chars.len(),
{
    let k = choose|k: int| 0 <= k < chars.len() && chars[k] == '_';
    let head = vstd::utf8::encode_scalar(chars[0] as u32);
    let tail = encode_utf8(chars.drop_first());
    if k == 0 {
        let s = chars[0] as u32;
        assert(s == 0x5f);
        assert((s & 0x7F) as u8 == 0x5fu8) by (bit_vector)
            requires
                s == 0x5f,
        ;
        assert(head[0] == UNDERSCORE);
        assert((head + tail)[0] == UNDERSCORE);
    } else {
        assert(chars.drop_first()[k - 1] == '_');
        lemma_underscore_in_bytes(chars.drop_first());
        let j = choose|j: int| 0 <= j < tail.len() && tail[j] == UNDERSCORE;
        assert((head + tail)[head.len() + j] == UNDERSCORE);
    }
}

/// Whether `a` comes before `b` in the order of dictionaries, byte by byte.
pub open spec fn lex_less(a: Seq<u8>, b: Seq<u8>) -> bool
    decreases a.len(),
{
    if b.len() == 0 {
        false
    } else if a.len() == 0 {
        true
    } else if a[0] != b[0] {
        a[0] < b[0]
    } else {
        lex_less(a.drop_first(), b.drop_first())
    }
}

/// Whether the text `a` comes before the text `b` in the order of
/// dictionaries, byte by byte.
pub fn text_less(a: &str, b: &str) -> (res: bool)
    ensures
        res == lex_less(bytes_of(a@), bytes_of(b@)),
{
    let x = a.as_bytes();
    let y = b.as_bytes();
    let mut i: usize = 0;
    proof {
        assert(x@.subrange(0, x@.len() as int) =~= x@);
        assert(y@.subrange(0, y@.len() as int) =~= y@);
    }
    while i < x.len() && i < y.len()
        invariant
            i <= x@.len(),
            i <= y@.len(),
            lex_less(x@, y@) == lex_less(
                x@.subrange(i as int, x@.len() as int),
                y@.subrange(i as int, y@.len() as int),
            ),
        decreases x@.len() - i,
    {
        let ghost xs = x@.subrange(i as int, x@.len() as int);
        let ghost ys = y@.subrange(i as int, y@.len() as int);
        proof {
            assert(xs[0] == x@[i as int]);
            assert(ys[0] == y@[i as int]);
            assert(xs.drop_first() =~= x@.subrange(i + 1, x@.len() as int));
            assert(ys.drop_first() =~= y@.subrange(i + 1, y@.len() as int));
        }
        if x[i] != y[i] {
            return x[i] < y[i];
        }
        i += 1;
    }
    i < y.len()
}

} // verus!
