//! Common functions of the library that mainly relate to byte converting:
//! values with a fixed-width binary form, fixed-width names, and the rule
//! for allowed names.

use vstd::prelude::*;
use vstd::slice::slice_subrange;
use vstd::utf8::{decode_utf8, encode_utf8, is_ascii_chars, valid_utf8};
use regex::Regex;
use crate::error::Error;
use crate::le::{
    le_bytes_u32, le_bytes_u64, le_value_u32, le_value_u64, lemma_le_u32_round_trip,
    lemma_le_u64_round_trip, u32_from_le, u32_to_le, u64_from_le, u64_to_le,
};

verus! {

/// Pattern for allowed names of feeds and columns.
pub const ALLOWED_NAME_PATTERN: &'static str =
    r"^[a-zA-Z_][a-zA-Z_0-9]*(\.[a-zA-Z_][a-zA-Z_0-9]*)*$";

// ---------------------------------------------------------------------------
// Values with a fixed-width binary form
// ---------------------------------------------------------------------------

/// A value that is stored as a block of bytes of a fixed width.
pub trait Pod: Sized {
    /// The number of bytes of a stored value.
    spec fn spec_width() -> nat;

    /// The stored form of the value.
    spec fn spec_encode(&self) -> Seq<u8>;

    /// The value that a block of `spec_width()` bytes stands for, if any.
    spec fn spec_decode(block: Seq<u8>) -> Option<Self>;

    /// The stored form has the fixed width and decodes to the value.
    proof fn lemma_round_trip(v: Self)
        ensures
            v.spec_encode().len() == Self::spec_width(),
            Self::spec_decode(v.spec_encode()) == Some(v),
    ;

    /// The number of bytes of a stored value.
    fn width() -> (n: usize)
        ensures
            n == Self::spec_width(),
    ;

    /// The stored form of the value.
    fn encode(&self) -> (block: Vec<u8>)
        ensures
            block@ == self.spec_encode(),
    ;

    /// The value that `block` stands for, if any.
    fn decode(block: &[u8]) -> (v: Option<Self>)
        requires
            block@.len() == Self::spec_width(),
        ensures
            v == Self::spec_decode(block@),
    ;
}

impl Pod for u64 {
    open spec fn spec_width() -> nat {
        8
    }

    open spec fn spec_encode(&self) -> Seq<u8> {
        le_bytes_u64(*self)
    }

    open spec fn spec_decode(block: Seq<u8>) -> Option<u64> {
        Some(le_value_u64(block))
    }

    proof fn lemma_round_trip(v: u64) {
        lemma_le_u64_round_trip(v);
    }

    fn width() -> usize {
        8
    }

    fn encode(&self) -> Vec<u8> {
        u64_to_le(*self)
    }

    fn decode(block: &[u8]) -> Option<u64> {
        Some(u64_from_le(block))
    }
}

impl Pod for i64 {
    open spec fn spec_width() -> nat {
        8
    }

    open spec fn spec_encode(&self) -> Seq<u8> {
        le_bytes_u64(*self as u64)
    }

    open spec fn spec_decode(block: Seq<u8>) -> Option<i64> {
        Some(le_value_u64(block) as i64)
    }

    proof fn lemma_round_trip(v: i64) {
        lemma_le_u64_round_trip(v as u64);
        assert((v as u64) as i64 == v) by (bit_vector);
    }

    fn width() -> usize {
        8
    }

    fn encode(&self) -> Vec<u8> {
        u64_to_le(*self as u64)
    }

    fn decode(block: &[u8]) -> Option<i64> {
        Some(u64_from_le(block) as i64)
    }
}

impl Pod for u32 {
    open spec fn spec_width() -> nat {
        4
    }

    open spec fn spec_encode(&self) -> Seq<u8> {
        le_bytes_u32(*self)
    }

    open spec fn spec_decode(block: Seq<u8>) -> Option<u32> {
        Some(le_value_u32(block))
    }

    proof fn lemma_round_trip(v: u32) {
        lemma_le_u32_round_trip(v);
    }

    fn width() -> usize {
        4
    }

    fn encode(&self) -> Vec<u8> {
        u32_to_le(*self)
    }

    fn decode(block: &[u8]) -> Option<u32> {
        Some(u32_from_le(block))
    }
}

impl Pod for i32 {
    open spec fn spec_width() -> nat {
        4
    }

    open spec fn spec_encode(&self) -> Seq<u8> {
        le_bytes_u32(*self as u32)
    }

    open spec fn spec_decode(block: Seq<u8>) -> Option<i32> {
        Some(le_value_u32(block) as i32)
    }

    proof fn lemma_round_trip(v: i32) {
        lemma_le_u32_round_trip(v as u32);
        assert((v as u32) as i32 == v) by (bit_vector);
    }

    fn width() -> usize {
        4
    }

    fn encode(&self) -> Vec<u8> {
        u32_to_le(*self as u32)
    }

    fn decode(block: &[u8]) -> Option<i32> {
        Some(u32_from_le(block) as i32)
    }
}

/// The stored forms of the values of `xs`, one after the other.
pub open spec fn spec_to_bytes_many<T: Pod>(xs: Seq<T>) -> Seq<u8>
    decreases xs.len(),
{
    if xs.len() == 0 {
        Seq::empty()
    } else {
        spec_to_bytes_many(xs.drop_last()) + xs.last().spec_encode()
    }
}

/// The `i`-th block of `width` bytes of `block`.
pub open spec fn chunk(block: Seq<u8>, width: nat, i: int) -> Seq<u8> {
    block.subrange(i * width, i * width + width)
}

/// The values that the whole blocks of `block` stand for, if each of them
/// stands for one. Bytes after the last whole block are not looked at.
pub open spec fn spec_from_bytes_many<T: Pod>(block: Seq<u8>) -> Option<Seq<T>> {
    let count = block.len() / T::spec_width();
    if forall|i: int| 0 <= i < count ==> (#[trigger] T::spec_decode(
        chunk(block, T::spec_width(), i),
    )) is Some {
        Some(Seq::new(count, |i: int| T::spec_decode(chunk(block, T::spec_width(), i))->0))
    } else {
        None
    }
}

/// Represent `x` as its bytes.
pub fn to_bytes<T: Pod>(x: &T) -> (block: Vec<u8>)
    ensures
        block@ == x.spec_encode(),
        block@.len() == T::spec_width(),
{
    proof {
        T::lemma_round_trip(*x);
    }
    x.encode()
}

/// Represent the first bytes of `block` as the data of `T`. The result is
/// `None` where those bytes stand for no value of `T`.
pub fn from_bytes<T: Pod>(block: &[u8]) -> (x: Option<T>)
    requires
        block@.len() >= T::spec_width(),
    ensures
        x == T::spec_decode(block@.take(T::spec_width() as int)),
{
    let head = slice_subrange(block, 0, T::width());
    T::decode(head)
}

/// The stored form of `xs` has one block for each value.
pub proof fn lemma_to_bytes_many_len<T: Pod>(xs: Seq<T>)
    ensures
        spec_to_bytes_many(xs).len() == xs.len() * T::spec_width(),
    decreases xs.len(),
{
    if xs.len() > 0 {
        lemma_to_bytes_many_len(xs.drop_last());
        T::lemma_round_trip(xs.last());
        assert((xs.len() - 1) * T::spec_width() + T::spec_width() == xs.len() * T::spec_width())
            by (nonlinear_arith);
    }
}

/// The `i`-th block of the stored form of `xs` is the stored form of `xs[i]`.
pub proof fn lemma_to_bytes_many_chunk<T: Pod>(xs: Seq<T>, i: int)
    requires
        0 <= i < xs.len(),
    ensures
        chunk(spec_to_bytes_many(xs), T::spec_width(), i) == xs[i].spec_encode(),
    decreases xs.len(),
{
    let w = T::spec_width();
    let front = spec_to_bytes_many(xs.drop_last());
    let back = xs.last().spec_encode();
    lemma_to_bytes_many_len(xs.drop_last());
    T::lemma_round_trip(xs.last());
    assert(front.len() == (xs.len() - 1) * w);
    if i == xs.len() - 1 {
        assert(chunk(front + back, w, i) =~= back);
    } else {
        lemma_to_bytes_many_chunk(xs.drop_last(), i);
        assert(i * w + w <= (xs.len() - 1) * w) by (nonlinear_arith)
            requires
                0 <= i < xs.len() - 1,
        ;
        assert(chunk(front + back, w, i) =~= chunk(front, w, i));
    }
}

/// Values written one after the other and read back are the values that
/// were written.
pub proof fn lemma_many_round_trip<T: Pod>(xs: Seq<T>)
    requires
        T::spec_width() > 0,
    ensures
        spec_from_bytes_many::<T>(spec_to_bytes_many(xs)) == Some(xs),
{
    let w = T::spec_width();
    let block = spec_to_bytes_many(xs);
    lemma_to_bytes_many_len(xs);
    assert((xs.len() * w) / w == xs.len()) by (nonlinear_arith)
        requires
            w > 0,
    ;
    assert forall|i: int| 0 <= i < xs.len() implies (#[trigger] T::spec_decode(chunk(block, w, i)))
        == Some(xs[i]) by {
        lemma_to_bytes_many_chunk(xs, i);
        T::lemma_round_trip(xs[i]);
    }
    assert(spec_from_bytes_many::<T>(block)->0 =~= xs);
}

/// Represent the slice `x` as its bytes.
pub fn to_bytes_many<T: Pod>(x: &[T]) -> (block: Vec<u8>)
    ensures
        block@ == spec_to_bytes_many(x@),
        block@.len() == x@.len() * T::spec_width(),
{
    let mut block: Vec<u8> = Vec::new();
    let mut i: usize = 0;
    while i < x.len()
        invariant
            i <= x@.len(),
            block@ == spec_to_bytes_many(x@.take(i as int)),
        decreases x@.len() - i,
    {
        let mut piece = x[i].encode();
        block.append(&mut piece);
        assert(x@.take(i + 1).drop_last() =~= x@.take(i as int));
        i = i + 1;
    }
    assert(x@.take(x@.len() as int) =~= x@);
    proof {
        lemma_to_bytes_many_len(x@);
    }
    block
}

/// Represent the whole blocks of `block` as values of `T`. The result is
/// `None` where one of them stands for no value of `T`.
pub fn from_bytes_many<T: Pod>(block: &[u8]) -> (xs: Option<Vec<T>>)
    requires
        T::spec_width() > 0,
    ensures
        xs is Some <==> spec_from_bytes_many::<T>(block@) is Some,
        xs is Some ==> xs->0@ == spec_from_bytes_many::<T>(block@)->0,
{
    let w = T::width();
    let count = block.len() / w;
    let mut xs: Vec<T> = Vec::new();
    let mut i: usize = 0;
    while i < count
        invariant
            w == T::spec_width(),
            w > 0,
            count == block@.len() / (w as nat),
            block@.len() <= usize::MAX,
            i <= count,
            xs@.len() == i,
            forall|j: int|
                0 <= j < i ==> (#[trigger] T::spec_decode(chunk(block@, w as nat, j))) == Some(
                    xs@[j],
                ),
        decreases count - i,
    {
        assert(0 <= i * w && i * w + w <= block@.len()) by (nonlinear_arith)
            requires
                0 <= i < count,
                count == block@.len() / (w as nat),
                w > 0,
        ;
        let piece = slice_subrange(block, i * w, i * w + w);
        match T::decode(piece) {
            Some(x) => {
                xs.push(x);
            },
            None => {
                assert(T::spec_decode(chunk(block@, w as nat, i as int)) is None);
                return None;
            },
        }
        i = i + 1;
    }
    assert(xs@ =~= spec_from_bytes_many::<T>(block@)->0);
    Some(xs)
}

// ---------------------------------------------------------------------------
// Fixed-width texts
// ---------------------------------------------------------------------------

/// `b` cut or filled with zeros to `n` bytes.
pub open spec fn pad_to(b: Seq<u8>, n: nat) -> Seq<u8> {
    Seq::new(n, |i: int| if i < b.len() { b[i] } else { 0u8 })
}

/// The length of `b` without its trailing zeros.
pub open spec fn trimmed_len(b: Seq<u8>) -> nat
    decreases b.len(),
{
    if b.len() > 0 && b.last() == 0 {
        trimmed_len(b.drop_last())
    } else {
        b.len()
    }
}

/// `b` without its trailing zeros.
pub open spec fn trim_zeros(b: Seq<u8>) -> Seq<u8> {
    b.take(trimmed_len(b) as int)
}

/// The text that a buffer holds: the bytes before the trailing zeros, read
/// as UTF-8.
pub open spec fn spec_bytes_to_str(b: Seq<u8>) -> Seq<char> {
    decode_utf8(trim_zeros(b))
}

/// The length of `s` without its trailing NUL characters.
pub open spec fn nul_trimmed_len(s: Seq<char>) -> nat
    decreases s.len(),
{
    if s.len() > 0 && s.last() == '\0' {
        nul_trimmed_len(s.drop_last())
    } else {
        s.len()
    }
}

/// `s` without its trailing NUL characters.
pub open spec fn trim_nuls(s: Seq<char>) -> Seq<char> {
    s.take(nul_trimmed_len(s) as int)
}

/// The trimmed length is where the trailing zeros of the bytes begin.
pub proof fn lemma_trimmed_len_bound(b: Seq<u8>)
    ensures
        trimmed_len(b) <= b.len(),
        trimmed_len(b) > 0 ==> b[trimmed_len(b) - 1] != 0,
        forall|i: int| trimmed_len(b) <= i < b.len() ==> b[i] == 0,
    decreases b.len(),
{
    if b.len() > 0 && b.last() == 0 {
        lemma_trimmed_len_bound(b.drop_last());
        assert forall|i: int| trimmed_len(b) <= i < b.len() implies b[i] == 0 by {
            if i < b.len() - 1 {
                assert(b.drop_last()[i] == b[i]);
            }
        }
    }
}

/// The trailing zeros are all that trimming looks at: a prefix that ends
/// where the zeros begin has the same trimmed length.
pub proof fn lemma_trimmed_len_prefix(b: Seq<u8>, k: int)
    requires
        0 <= k <= b.len(),
        forall|i: int| k <= i < b.len() ==> b[i] == 0,
    ensures
        trimmed_len(b) == trimmed_len(b.take(k)),
    decreases b.len() - k,
{
    if k < b.len() {
        assert(b.drop_last().take(k) =~= b.take(k));
        lemma_trimmed_len_prefix(b.drop_last(), k);
    } else {
        assert(b.take(k) =~= b);
    }
}

/// The trimmed length of a text is no more than its length.
pub proof fn lemma_nul_trimmed_len_bound(s: Seq<char>)
    ensures
        nul_trimmed_len(s) <= s.len(),
    decreases s.len(),
{
    if s.len() > 0 && s.last() == '\0' {
        lemma_nul_trimmed_len_bound(s.drop_last());
    }
}

/// The length of `bytes` without its trailing zeros.
pub fn trimmed_length(bytes: &[u8]) -> (n: usize)
    ensures
        n == trimmed_len(bytes@),
{
    let mut n: usize = bytes.len();
    assert(bytes@.take(n as int) =~= bytes@);
    while n > 0 && bytes[n - 1] == 0
        invariant
            n <= bytes@.len(),
            trimmed_len(bytes@) == trimmed_len(bytes@.take(n as int)),
        decreases n,
    {
        assert(bytes@.take(n as int).drop_last() =~= bytes@.take(n - 1));
        n = n - 1;
    }
    n
}

/// Represent a text as a byte array with a fixed size: the bytes of the
/// text, cut at `N` or filled with zeros up to `N`.
pub fn str_to_bytes<const N: usize>(s: &str) -> (buffer: [u8; N])
    ensures
        buffer@ == pad_to(encode_utf8(s@), N as nat),
{
    let bytes = s.as_bytes();
    let mut buffer = [0u8;N];
    let mut i: usize = 0;
    while i < N && i < bytes.len()
        invariant
            i <= N,
            i <= bytes@.len(),
            bytes@ == encode_utf8(s@),
            forall|j: int| 0 <= j < i ==> buffer@[j] == bytes@[j],
            forall|j: int| i <= j < N ==> buffer@[j] == 0u8,
        decreases N - i,
    {
        buffer[i] = bytes[i];
        i = i + 1;
    }
    assert(buffer@ =~= pad_to(encode_utf8(s@), N as nat));
    buffer
}

/// Calls `core::str::from_utf8`: the text that `bytes` hold. It is there
/// exactly when the bytes are valid UTF-8, and it is then made of the
/// characters that they encode.
#[verifier::external_body]
fn utf8_text(bytes: &[u8]) -> (text: Option<&str>)
    ensures
        text is Some <==> valid_utf8(bytes@),
        text is Some ==> text->0@ == decode_utf8(bytes@),
{
    core::str::from_utf8(bytes).ok()
}

/// Represent bytes as a text without the trailing zeros, where what is
/// left of the bytes is valid UTF-8.
pub fn try_bytes_to_str(bytes: &[u8]) -> (text: Option<&str>)
    ensures
        text is Some <==> valid_utf8(trim_zeros(bytes@)),
        text is Some ==> text->0@ == spec_bytes_to_str(bytes@),
{
    let n = trimmed_length(bytes);
    proof {
        lemma_trimmed_len_bound(bytes@);
    }
    utf8_text(slice_subrange(bytes, 0, n))
}

/// Represent bytes as a text without the trailing zeros.
pub fn bytes_to_str(bytes: &[u8]) -> (text: &str)
    requires
        valid_utf8(trim_zeros(bytes@)),
    ensures
        text@ == spec_bytes_to_str(bytes@),
{
    match try_bytes_to_str(bytes) {
        Some(text) => text,
        None => "",
    }
}

/// A text of ASCII characters that is written to a buffer of `n` bytes and
/// read back is the text cut at `n` characters, without the NUL characters
/// at its end.
pub proof fn lemma_ascii_text_round_trip(s: Seq<char>, n: nat)
    requires
        is_ascii_chars(s),
    ensures
        valid_utf8(trim_zeros(pad_to(encode_utf8(s), n))),
        spec_bytes_to_str(pad_to(encode_utf8(s), n)) == trim_nuls(
            s.take(if s.len() <= n { s.len() as int } else { n as int }),
        ),
{
    let m: int = if s.len() <= n { s.len() as int } else { n as int };
    let t = s.take(m);
    let stored = pad_to(encode_utf8(s), n);
    vstd::utf8::is_ascii_chars_encode_utf8(s);
    assert(is_ascii_chars(t));
    lemma_trimmed_len_prefix(stored, m);
    lemma_ascii_trimmed_len(t, stored.take(m));
    lemma_nul_trimmed_len_bound(t);
    let k = nul_trimmed_len(t) as int;
    let u = t.take(k);
    assert(is_ascii_chars(u));
    vstd::utf8::is_ascii_chars_encode_utf8(u);
    assert(trim_zeros(stored) =~= encode_utf8(u));
    vstd::utf8::encode_utf8_valid_utf8(u);
    vstd::utf8::encode_utf8_decode_utf8(u);
}

/// The UTF-8 form of a text that does not end in a NUL character does not
/// end in a zero.
proof fn lemma_encoded_text_ends(s: Seq<char>)
    requires
        s.len() > 0,
        s.last() != '\0',
    ensures
        encode_utf8(s).len() > 0,
        encode_utf8(s).last() != 0,
    decreases s.len(),
{
    let c = s[0] as u32;
    let first = vstd::utf8::encode_scalar(c);
    let rest = encode_utf8(s.drop_first());
    assert(encode_utf8(s) == first + rest);
    if s.len() == 1 {
        assert(rest.len() == 0);
        assert(first + rest =~= first);
        vstd::utf8::char_is_scalar(s[0]);
        assert(s[0] == s.last());
        assert(c != 0) by {
            vstd::utf8::char_u32_cast(s[0], c);
            vstd::utf8::char_u32_cast('\0', 0u32);
        }
        if c <= 0x7f {
            assert((c & 0x7f) as u8 != 0) by (bit_vector)
                requires
                    0 < c <= 0x7f,
            ;
        }
        assert((0x80u8 | (c & 0x3f) as u8) != 0) by (bit_vector);
    } else {
        assert(s.drop_first().last() == s.last());
        lemma_encoded_text_ends(s.drop_first());
        assert((first + rest).last() == rest.last());
    }
}

/// A text whose UTF-8 form fits a buffer of `n` bytes, and which does not
/// end in a NUL character, is read back from the buffer unchanged.
pub proof fn lemma_text_round_trip(s: Seq<char>, n: nat)
    requires
        encode_utf8(s).len() <= n,
        s.len() > 0 ==> s.last() != '\0',
    ensures
        valid_utf8(trim_zeros(pad_to(encode_utf8(s), n))),
        spec_bytes_to_str(pad_to(encode_utf8(s), n)) == s,
{
    let b = encode_utf8(s);
    let stored = pad_to(b, n);
    lemma_trimmed_len_prefix(stored, b.len() as int);
    assert(stored.take(b.len() as int) =~= b);
    if s.len() > 0 {
        lemma_encoded_text_ends(s);
    } else {
        assert(b.len() == 0);
    }
    assert(trimmed_len(b) == b.len());
    assert(trim_zeros(stored) =~= b);
    vstd::utf8::encode_utf8_valid_utf8(s);
    vstd::utf8::encode_utf8_decode_utf8(s);
}

/// Bytes that are the codes of ASCII characters have as many trailing
/// zeros as the characters have trailing NULs.
proof fn lemma_ascii_trimmed_len(s: Seq<char>, b: Seq<u8>)
    requires
        is_ascii_chars(s),
        b.len() == s.len(),
        forall|i: int| 0 <= i < s.len() ==> b[i] == s[i] as u8,
    ensures
        trimmed_len(b) == nul_trimmed_len(s),
    decreases s.len(),
{
    if s.len() > 0 {
        let c = s.last();
        assert(b.last() == c as u8);
        assert(c == '\0' <==> c as u8 == 0u8);
        if c == '\0' {
            lemma_ascii_trimmed_len(s.drop_last(), b.drop_last());
        }
    }
}

// ---------------------------------------------------------------------------
// Allowed names
// ---------------------------------------------------------------------------

/// A character that may begin a segment of a name.
pub open spec fn is_name_start(c: char) -> bool {
    ('a' <= c <= 'z') || ('A' <= c <= 'Z') || c == '_'
}

/// A character that may stand in a segment of a name.
pub open spec fn is_name_char(c: char) -> bool {
    is_name_start(c) || ('0' <= c <= '9')
}

/// Whether `s` is an allowed name: one or more segments with a dot between
/// them, each segment made of letters, digits and underscores and not
/// beginning with a digit.
pub open spec fn is_allowed_name(s: Seq<char>) -> bool {
    &&& s.len() > 0
    &&& s.last() != '.'
    &&& forall|i: int| 0 <= i < s.len() ==> (#[trigger] s[i]) == '.' || is_name_char(s[i])
    &&& forall|i: int|
        0 <= i < s.len() && (i == 0 || s[i - 1] == '.') ==> is_name_start(#[trigger] s[i])
}

/// An allowed name is made of ASCII characters, none of them NUL.
pub proof fn lemma_allowed_name_is_ascii(s: Seq<char>)
    requires
        is_allowed_name(s),
    ensures
        is_ascii_chars(s),
        forall|i: int| 0 <= i < s.len() ==> s[i] != '\0',
        trim_nuls(s) == s,
{
    assert forall|i: int| 0 <= i < s.len() implies '\0' < #[trigger] s[i] <= '\u{7f}' by {
        assert(s[i] == '.' || is_name_char(s[i]));
    }
    assert(s.take(s.len() as int) =~= s);
}

/// Calls `regex::Regex::new` and then `regex::Regex::is_match`: whether
/// `text` matches `pattern`. Nothing comes back for a pattern that does not
/// compile. For the pattern of the allowed names, which compiles, the
/// answer is whether `text` is an allowed name: the pattern is anchored at
/// both ends and spells out that grammar.
#[verifier::external_body]
fn regex_is_match(pattern: &str, text: &str) -> (found: Option<bool>)
    ensures
        pattern@ == ALLOWED_NAME_PATTERN@ ==> found == Some(is_allowed_name(text@)),
{
    match Regex::new(pattern) {
        Ok(re) => Some(re.is_match(text)),
        Err(_) => None,
    }
}

/// Validates whether a given name is suitable for use as a feed or column
/// name.
///
/// A valid name consists of one or more non-empty segments separated by
/// dots. Each segment may include letters, digits and underscores, and must
/// not start with a digit.
pub fn validate_allowed_name(name: &str) -> (res: Result<(), Error>)
    ensures
        res is Ok <==> is_allowed_name(name@),
        res is Err ==> res == Err::<(), Error>(Error::InvalidInput),
{
    match regex_is_match(ALLOWED_NAME_PATTERN, name) {
        Some(true) => Ok(()),
        _ => Err(Error::InvalidInput),
    }
}

} // verus!
