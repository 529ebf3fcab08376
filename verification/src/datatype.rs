//! Converting between datatypes for different purposes: into bytes and back,
//! from and into strings and so on.

use vstd::prelude::*;
use vstd::slice::slice_subrange;
use vstd::string::{StrSliceExecFns, StringExecFns};
use vstd::utf8::{decode_utf8, encode_utf8, valid_utf8};
use base64::Engine;
use crate::error::Error;
use crate::ieee::{is_nan, lemma_narrow_widen, narrow, spec_narrow, spec_widen, widen};
use crate::le::{
    le_bytes_u32, le_bytes_u64, le_value_u32, le_value_u64, lemma_le_u32_round_trip,
    lemma_le_u64_round_trip, u32_from_le, u32_to_le, u64_from_le, u64_to_le,
};
use crate::utils::{lemma_trimmed_len_bound, pad_to, trim_zeros, trimmed_length};

verus! {

/// A dataunit for convenient integration. It supports integers, real
/// numbers and strings. A string stands for a text or, in Base64, for bytes.
#[derive(Debug, Clone, PartialEq)]
pub enum Dataunit {
    /// Integer
    I(i64),
    /// Real number, as the bits of its IEEE 754 double precision form
    F(u64),
    /// String
    S(String),
}

/// What a [`Dataunit`] holds.
pub enum DataunitView {
    I(i64),
    F(u64),
    S(Seq<char>),
}

impl View for Dataunit {
    type V = DataunitView;

    open spec fn view(&self) -> DataunitView {
        match self {
            Dataunit::I(x) => DataunitView::I(*x),
            Dataunit::F(x) => DataunitView::F(*x),
            Dataunit::S(x) => DataunitView::S(x@),
        }
    }
}

/// Allowed datatypes for the stored data. It manages the converting between
/// basic datatypes and bytes in the file. Integers and real numbers convert
/// to their little-endian forms, bytes convert to strings and back according
/// to the Base64 algorithm.
#[derive(Debug, Clone, Copy, PartialEq, Eq, Structural)]
pub enum Datatype {
    /// 64-bit integer.
    Int64,
    /// 64-bit real number.
    Float64,
    /// 32-bit integer.
    Int32,
    /// 32-bit real number.
    Float32,
    /// Bytes with the fixed size.
    Bytes(usize),
    /// String with the size limit.
    String(usize),
    /// Arbitrary size bytes.
    Blob,
    /// Arbitrary size string.
    Text,
}

/// The Base64 text that `base64::Engine::encode` of the standard engine
/// gives for `bytes`.
pub uninterp spec fn base64_encode(bytes: Seq<u8>) -> Seq<char>;

/// The bytes that `base64::Engine::decode` of the standard engine gives for
/// `text`, where it accepts the text.
pub uninterp spec fn base64_decode(text: Seq<char>) -> Option<Seq<u8>>;

/// The text that `String::from_utf8_lossy` gives for `bytes`.
pub uninterp spec fn utf8_lossy(bytes: Seq<u8>) -> Seq<char>;

/// Calls `base64::Engine::encode` on the standard engine: the Base64 text
/// of `bytes`. The engine decodes the text that it gave back to the same
/// bytes.
#[verifier::external_body]
fn encode_base64(bytes: &[u8]) -> (text: String)
    ensures
        text@ == base64_encode(bytes@),
        base64_decode(text@) == Some(bytes@),
{
    base64::prelude::BASE64_STANDARD.encode(bytes)
}

/// Calls `base64::Engine::decode` on the standard engine: the bytes that
/// `text` stands for, or nothing where the engine refuses the text.
#[verifier::external_body]
fn decode_base64(text: &str) -> (bytes: Option<Vec<u8>>)
    ensures
        bytes is Some <==> base64_decode(text@) is Some,
        bytes is Some ==> bytes->0@ == base64_decode(text@)->0,
{
    base64::prelude::BASE64_STANDARD.decode(text).ok()
}

/// Calls `String::from_utf8_lossy`: the text of `bytes`, which is the text
/// they encode where they are valid UTF-8.
#[verifier::external_body]
fn lossy_text(bytes: &[u8]) -> (text: String)
    ensures
        text@ == utf8_lossy(bytes@),
        valid_utf8(bytes@) ==> text@ == decode_utf8(bytes@),
{
    String::from_utf8_lossy(bytes).into_owned()
}

/// The text of `bytes`: the characters that they encode where they are
/// valid UTF-8, and else what `String::from_utf8_lossy` makes of them.
pub open spec fn text_of(bytes: Seq<u8>) -> Seq<char> {
    if valid_utf8(bytes) {
        decode_utf8(bytes)
    } else {
        utf8_lossy(bytes)
    }
}

/// `block` cut or filled with zeros to `len` bytes.
pub fn fit(block: Vec<u8>, len: usize) -> (fitted: Vec<u8>)
    ensures
        fitted@ == pad_to(block@, len as nat),
{
    let mut fitted = block;
    fitted.truncate(len);
    while fitted.len() < len
        invariant
            fitted@.len() <= len,
            block@.len() <= fitted@.len() || len <= fitted@.len(),
            forall|i: int| 0 <= i < fitted@.len() ==> fitted@[i] == pad_to(block@, len as nat)[i],
        decreases len - fitted@.len(),
    {
        fitted.push(0u8);
    }
    assert(fitted@ =~= pad_to(block@, len as nat));
    fitted
}

impl Datatype {
    /// Size in bytes.
    pub open spec fn spec_size(&self) -> nat {
        match self {
            Datatype::Int64 => 8,
            Datatype::Float64 => 8,
            Datatype::Int32 => 4,
            Datatype::Float32 => 4,
            Datatype::Bytes(len) => *len as nat,
            Datatype::String(len) => *len as nat,
            Datatype::Blob => 0,
            Datatype::Text => 0,
        }
    }

    /// Whether a unit has the tag that the datatype stores.
    pub open spec fn accepts(&self, x: DataunitView) -> bool {
        match self {
            Datatype::Int64 | Datatype::Int32 => x is I,
            Datatype::Float64 | Datatype::Float32 => x is F,
            _ => x is S,
        }
    }

    /// Whether a unit holds Base64 that the datatype has to decode and that
    /// does not decode.
    pub open spec fn undecodable(&self, x: DataunitView) -> bool {
        (*self is Bytes || *self is Blob) && x is S && base64_decode(x->S_0) is None
    }

    /// The stored form of a unit, or nothing for a unit of another tag.
    pub open spec fn spec_to_bytes(&self, x: DataunitView) -> Option<Seq<u8>> {
        match (*self, x) {
            (Datatype::Int64, DataunitView::I(v)) => Some(le_bytes_u64(v as u64)),
            (Datatype::Int32, DataunitView::I(v)) => Some(le_bytes_u32(v as u32)),
            (Datatype::Float64, DataunitView::F(v)) => Some(le_bytes_u64(v)),
            (Datatype::Float32, DataunitView::F(v)) => Some(le_bytes_u32(spec_narrow(v))),
            (Datatype::Bytes(len), DataunitView::S(s)) => Some(
                pad_to(base64_decode(s)->0, len as nat),
            ),
            (Datatype::String(len), DataunitView::S(s)) => Some(
                pad_to(encode_utf8(s), len as nat),
            ),
            (Datatype::Blob, DataunitView::S(s)) => Some(base64_decode(s)->0),
            (Datatype::Text, DataunitView::S(s)) => Some(encode_utf8(s)),
            _ => None,
        }
    }

    /// The unit that the first bytes of a block stand for.
    pub open spec fn spec_from_bytes(&self, block: Seq<u8>) -> DataunitView {
        match self {
            Datatype::Int64 => DataunitView::I(le_value_u64(block) as i64),
            Datatype::Int32 => DataunitView::I((le_value_u32(block) as i32) as i64),
            Datatype::Float64 => DataunitView::F(le_value_u64(block)),
            Datatype::Float32 => DataunitView::F(spec_widen(le_value_u32(block))),
            Datatype::Bytes(len) => DataunitView::S(base64_encode(block.take(*len as int))),
            Datatype::String(len) => DataunitView::S(
                text_of(trim_zeros(block.take(*len as int))),
            ),
            Datatype::Blob => DataunitView::S(base64_encode(block)),
            Datatype::Text => DataunitView::S(text_of(trim_zeros(block))),
        }
    }

    /// Whether a unit comes back unchanged when it is written and read:
    /// an integer that the width holds, a real number that the precision
    /// holds, the Base64 text of a block of the size.
    pub open spec fn keeps(&self, x: DataunitView) -> bool {
        match (*self, x) {
            (Datatype::Int64, DataunitView::I(v)) => true,
            (Datatype::Int32, DataunitView::I(v)) => i32::MIN <= v <= i32::MAX,
            (Datatype::Float64, DataunitView::F(v)) => true,
            (Datatype::Float32, DataunitView::F(v)) => spec_widen(spec_narrow(v)) == v,
            (Datatype::Bytes(len), DataunitView::S(s)) => {
                &&& base64_decode(s) is Some
                &&& base64_decode(s)->0.len() == len
                &&& base64_encode(base64_decode(s)->0) == s
            },
            (Datatype::Blob, DataunitView::S(s)) => {
                &&& base64_decode(s) is Some
                &&& base64_encode(base64_decode(s)->0) == s
            },
            _ => false,
        }
    }

    /// Size in bytes.
    pub fn size(&self) -> (n: usize)
        ensures
            n == self.spec_size(),
    {
        match self {
            Datatype::Int64 => 8,
            Datatype::Float64 => 8,
            Datatype::Int32 => 4,
            Datatype::Float32 => 4,
            Datatype::Bytes(len) => *len,
            Datatype::String(len) => *len,
            Datatype::Blob => 0,
            Datatype::Text => 0,
        }
    }

    /// Represent `x` as its bytes. In case of mismatch `None` will be
    /// returned.
    pub fn to_bytes(&self, x: &Dataunit) -> (block: Option<Vec<u8>>)
        requires
            !self.undecodable(x@),
        ensures
            block is Some <==> self.accepts(x@),
            block is Some ==> Some(block->0@) == self.spec_to_bytes(x@),
            block is Some && !(*self is Blob) && !(*self is Text) ==> block->0@.len()
                == self.spec_size(),
    {
        match self {
            Datatype::Int64 => {
                if let Dataunit::I(v) = x {
                    Some(u64_to_le(*v as u64))
                } else {
                    None
                }
            },
            Datatype::Int32 => {
                if let Dataunit::I(v) = x {
                    Some(u32_to_le(*v as u32))
                } else {
                    None
                }
            },
            Datatype::Float64 => {
                if let Dataunit::F(v) = x {
                    Some(u64_to_le(*v))
                } else {
                    None
                }
            },
            Datatype::Float32 => {
                if let Dataunit::F(v) = x {
                    Some(u32_to_le(narrow(*v)))
                } else {
                    None
                }
            },
            Datatype::Bytes(len) => {
                if let Dataunit::S(s) = x {
                    match decode_base64(s.as_str()) {
                        Some(block) => Some(fit(block, *len)),
                        None => None,
                    }
                } else {
                    None
                }
            },
            Datatype::String(len) => {
                if let Dataunit::S(s) = x {
                    Some(fit(s.as_str().as_bytes_vec(), *len))
                } else {
                    None
                }
            },
            Datatype::Blob => {
                if let Dataunit::S(s) = x {
                    decode_base64(s.as_str())
                } else {
                    None
                }
            },
            Datatype::Text => {
                if let Dataunit::S(s) = x {
                    Some(s.as_str().as_bytes_vec())
                } else {
                    None
                }
            },
        }
    }

    /// Represent `x` as its bytes, or say why it has none: the unit has
    /// another tag than the datatype stores, or its Base64 does not decode.
    pub fn try_to_bytes(&self, x: &Dataunit) -> (block: Result<Vec<u8>, Error>)
        ensures
            block is Ok <==> self.accepts(x@) && !self.undecodable(x@),
            block is Ok ==> Some(block->Ok_0@) == self.spec_to_bytes(x@),
            block is Ok && !(*self is Blob) && !(*self is Text) ==> block->Ok_0@.len()
                == self.spec_size(),
            block is Err ==> block->Err_0 == Error::InvalidData,
    {
        let decodes = match (self, x) {
            (Datatype::Bytes(_), Dataunit::S(s)) => decode_base64(s.as_str()).is_some(),
            (Datatype::Blob, Dataunit::S(s)) => decode_base64(s.as_str()).is_some(),
            _ => true,
        };
        if !decodes {
            return Err(Error::InvalidData);
        }
        match self.to_bytes(x) {
            Some(block) => Ok(block),
            None => Err(Error::InvalidData),
        }
    }

    /// Converts a byte slice into a data unit. A unit that was read from
    /// bytes of a datatype of fixed binary form is one that the datatype
    /// keeps, unless it is a NaN of single precision.
    pub fn from_bytes(&self, block: &[u8]) -> (x: Dataunit)
        requires
            block@.len() >= self.spec_size(),
        ensures
            x@ == self.spec_from_bytes(block@),
            self.accepts(x@),
            !self.undecodable(x@),
            !(*self is String) && !(*self is Text) && !(*self is Float32 && is_nan(
                le_value_u32(block@),
            )) ==> self.keeps(x@),
    {
        match self {
            Datatype::Int64 => Dataunit::I(u64_from_le(block) as i64),
            Datatype::Int32 => {
                let v: i32 = u32_from_le(block) as i32;
                Dataunit::I(v as i64)
            },
            Datatype::Float64 => Dataunit::F(u64_from_le(block)),
            Datatype::Float32 => {
                proof {
                    if !is_nan(le_value_u32(block@)) {
                        lemma_narrow_widen(le_value_u32(block@));
                    }
                }
                Dataunit::F(widen(u32_from_le(block)))
            },
            Datatype::Bytes(len) => {
                let head = slice_subrange(block, 0, *len);
                Dataunit::S(encode_base64(head))
            },
            Datatype::String(len) => {
                let head = slice_subrange(block, 0, *len);
                let n = trimmed_length(head);
                proof {
                    lemma_trimmed_len_bound(head@);
                }
                Dataunit::S(lossy_text(slice_subrange(head, 0, n)))
            },
            Datatype::Blob => Dataunit::S(encode_base64(block)),
            Datatype::Text => {
                let n = trimmed_length(block);
                proof {
                    lemma_trimmed_len_bound(block@);
                }
                Dataunit::S(lossy_text(slice_subrange(block, 0, n)))
            },
        }
    }
}

/// A unit that a datatype keeps comes back unchanged when it is written
/// and read.
pub proof fn lemma_keeps_round_trip(dt: Datatype, x: DataunitView)
    requires
        dt.keeps(x),
    ensures
        dt.accepts(x),
        dt.spec_to_bytes(x) is Some,
        dt.spec_from_bytes(dt.spec_to_bytes(x)->0) == x,
{
    match (dt, x) {
        (Datatype::Int64, DataunitView::I(v)) => {
            lemma_le_u64_round_trip(v as u64);
            assert((v as u64) as i64 == v) by (bit_vector);
        },
        (Datatype::Int32, DataunitView::I(v)) => {
            lemma_le_u32_round_trip(v as u32);
            assert(((v as u32) as i32) as i64 == v) by (bit_vector)
                requires
                    -0x8000_0000 <= v <= 0x7fff_ffff,
            ;
        },
        (Datatype::Float64, DataunitView::F(v)) => {
            lemma_le_u64_round_trip(v);
        },
        (Datatype::Float32, DataunitView::F(v)) => {
            lemma_le_u32_round_trip(spec_narrow(v));
        },
        (Datatype::Bytes(len), DataunitView::S(t)) => {
            let b = base64_decode(t)->0;
            assert(pad_to(b, len as nat).take(len as int) =~= b);
        },
        (Datatype::Blob, DataunitView::S(t)) => {},
        _ => {},
    }
}

// ---------------------------------------------------------------------------
// The textual form of a datatype
// ---------------------------------------------------------------------------

/// Whether `c` is a decimal digit.
pub open spec fn is_digit(c: char) -> bool {
    '0' <= c <= '9'
}

/// Whether `s` is made of decimal digits.
pub open spec fn all_digits(s: Seq<char>) -> bool {
    forall|i: int| 0 <= i < s.len() ==> is_digit(#[trigger] s[i])
}

/// The number that the decimal digits `s` stand for.
pub open spec fn digits_value(s: Seq<char>) -> nat
    decreases s.len(),
{
    if s.len() == 0 {
        0
    } else {
        digits_value(s.drop_last()) * 10 + ((s.last() as u32 - '0' as u32) as nat)
    }
}

/// The length that `d` stands for: one or more decimal digits of a number
/// that a `usize` holds.
pub open spec fn spec_parse_digits(d: Seq<char>) -> Option<usize> {
    if d.len() > 0 && all_digits(d) && digits_value(d) <= usize::MAX {
        Some(digits_value(d) as usize)
    } else {
        None
    }
}

/// The length that `s` stands for: a plus sign or none, and then one or
/// more decimal digits of a number that a `usize` holds.
pub open spec fn spec_parse_len(s: Seq<char>) -> Option<usize> {
    if s.len() > 0 && s[0] == '+' {
        spec_parse_digits(s.drop_first())
    } else {
        spec_parse_digits(s)
    }
}

/// What stands between `pre` and `suf` in `s`, where `s` begins with the
/// one and what follows ends with the other.
pub open spec fn framed(s: Seq<char>, pre: Seq<char>, suf: Seq<char>) -> Option<Seq<char>> {
    if s.len() >= pre.len() + suf.len() && s.take(pre.len() as int) == pre && s.skip(
        s.len() - suf.len(),
    ) == suf {
        Some(s.subrange(pre.len() as int, s.len() - suf.len()))
    } else {
        None
    }
}

/// The positive length that `s` stands for.
pub open spec fn spec_parse_size(s: Seq<char>) -> Option<usize> {
    match spec_parse_len(s) {
        Some(n) => if n > 0 {
            Some(n)
        } else {
            None
        },
        None => None,
    }
}

/// The decimal digit of `d`.
pub open spec fn digit_char(d: nat) -> char {
    (('0' as u32 + d) as u32) as char
}

/// The decimal form of `n`.
pub open spec fn spec_decimal(n: nat) -> Seq<char>
    decreases n,
{
    if n < 10 {
        seq![digit_char(n)]
    } else {
        spec_decimal(n / 10).push(digit_char(n % 10))
    }
}

/// The digits of a sequence stand for no less than those of a prefix.
proof fn lemma_digits_prefix(s: Seq<char>, k: int)
    requires
        0 <= k <= s.len(),
    ensures
        digits_value(s.take(k)) <= digits_value(s),
    decreases s.len(),
{
    if k < s.len() {
        assert(s.drop_last().take(k) =~= s.take(k));
        lemma_digits_prefix(s.drop_last(), k);
    } else {
        assert(s.take(k) =~= s);
    }
}

/// Whether two texts are the same.
fn same_text(a: &str, b: &str) -> (same: bool)
    ensures
        same == (a@ == b@),
{
    let n = a.unicode_len();
    if n != b.unicode_len() {
        return false;
    }
    let mut i: usize = 0;
    while i < n
        invariant
            n == a@.len(),
            n == b@.len(),
            i <= n,
            forall|j: int| 0 <= j < i ==> a@[j] == b@[j],
        decreases n - i,
    {
        if a.get_char(i) != b.get_char(i) {
            return false;
        }
        i = i + 1;
    }
    assert(a@ =~= b@);
    true
}

/// Where in `s` the text between `pre` and `suf` begins and ends.
fn unframe(s: &str, pre: &str, suf: &str) -> (inner: Option<(usize, usize)>)
    ensures
        inner is Some <==> framed(s@, pre@, suf@) is Some,
        inner matches Some(range) ==> range.0 <= range.1 <= s@.len() && s@.subrange(
            range.0 as int,
            range.1 as int,
        ) == framed(s@, pre@, suf@)->0,
{
    let n = s.unicode_len();
    let p = pre.unicode_len();
    let q = suf.unicode_len();
    if n < p || n - p < q {
        return None;
    }
    let mut i: usize = 0;
    while i < p
        invariant
            p == pre@.len(),
            n == s@.len(),
            p <= n,
            i <= p,
            forall|j: int| 0 <= j < i ==> s@[j] == pre@[j],
        decreases p - i,
    {
        if s.get_char(i) != pre.get_char(i) {
            assert(s@.take(p as int)[i as int] != pre@[i as int]);
            return None;
        }
        i = i + 1;
    }
    assert(s@.take(p as int) =~= pre@);
    let mut k: usize = 0;
    while k < q
        invariant
            q == suf@.len(),
            n == s@.len(),
            q <= n,
            k <= q,
            forall|j: int| 0 <= j < k ==> s@[n - q + j] == suf@[j],
        decreases q - k,
    {
        if s.get_char(n - q + k) != suf.get_char(k) {
            assert(s@.skip(n - q)[k as int] != suf@[k as int]);
            return None;
        }
        k = k + 1;
    }
    assert(s@.skip(n - q) =~= suf@);
    Some((p, n - q))
}

/// The length that the characters of `s` from `from` up to `to` stand for.
fn parse_len(s: &str, from: usize, to: usize) -> (len: Option<usize>)
    requires
        from <= to <= s@.len(),
    ensures
        len == spec_parse_len(s@.subrange(from as int, to as int)),
{
    let ghost whole = s@.subrange(from as int, to as int);
    let mut i: usize = from;
    if i < to && s.get_char(i) == '+' {
        i = i + 1;
    }
    let start = i;
    let ghost d = s@.subrange(start as int, to as int);
    assert(d =~= if whole.len() > 0 && whole[0] == '+' {
        whole.drop_first()
    } else {
        whole
    });
    assert(spec_parse_len(whole) == spec_parse_digits(d));
    if i == to {
        return None;
    }
    let mut acc: usize = 0;
    assert(d.take(0) =~= Seq::<char>::empty());
    while i < to
        invariant
            start <= i <= to <= s@.len(),
            d == s@.subrange(start as int, to as int),
            d.len() > 0,
            spec_parse_len(s@.subrange(from as int, to as int)) == spec_parse_digits(d),
            all_digits(d.take(i - start)),
            acc == digits_value(d.take(i - start)),
        decreases to - i,
    {
        let c: u32 = s.get_char(i) as u32;
        if c < 48 || c > 57 {
            assert(!is_digit(d[i - start]));
            return None;
        }
        let digit: usize = (c - 48) as usize;
        assert(d.take(i - start + 1).drop_last() =~= d.take(i - start));
        assert(digits_value(d.take(i - start + 1)) == acc * 10 + digit);
        if acc > (usize::MAX - digit) / 10 {
            proof {
                lemma_digits_prefix(d, i - start + 1);
            }
            return None;
        }
        acc = acc * 10 + digit;
        i = i + 1;
    }
    assert(d.take(to - start) =~= d);
    Some(acc)
}

/// Calls `ToString::to_string` on a `usize`: its decimal form, with no
/// sign and no leading zero.
#[verifier::external_body]
fn decimal(n: usize) -> (text: String)
    ensures
        text@ == spec_decimal(n as nat),
{
    n.to_string()
}

impl Datatype {
    /// The datatype that `s` names, if it names one: `Int64`, `Int32`,
    /// `Float64`, `Float32`, `Blob`, `Text`, or `Bytes[N]` or `String[N]`
    /// with a positive length `N`.
    pub open spec fn spec_parse(s: Seq<char>) -> Option<Datatype> {
        if s == "Int64"@ {
            Some(Datatype::Int64)
        } else if s == "Float64"@ {
            Some(Datatype::Float64)
        } else if s == "Int32"@ {
            Some(Datatype::Int32)
        } else if s == "Float32"@ {
            Some(Datatype::Float32)
        } else if s == "Blob"@ {
            Some(Datatype::Blob)
        } else if s == "Text"@ {
            Some(Datatype::Text)
        } else if framed(s, "Bytes["@, "]"@) is Some {
            match spec_parse_size(framed(s, "Bytes["@, "]"@)->0) {
                Some(len) => Some(Datatype::Bytes(len)),
                None => None,
            }
        } else if framed(s, "String["@, "]"@) is Some {
            match spec_parse_size(framed(s, "String["@, "]"@)->0) {
                Some(len) => Some(Datatype::String(len)),
                None => None,
            }
        } else {
            None
        }
    }

    /// The name of the datatype.
    pub open spec fn spec_to_string(&self) -> Seq<char> {
        match self {
            Datatype::Int64 => "Int64"@,
            Datatype::Float64 => "Float64"@,
            Datatype::Int32 => "Int32"@,
            Datatype::Float32 => "Float32"@,
            Datatype::Bytes(len) => "Bytes["@ + spec_decimal(*len as nat) + "]"@,
            Datatype::String(len) => "String["@ + spec_decimal(*len as nat) + "]"@,
            Datatype::Blob => "Blob"@,
            Datatype::Text => "Text"@,
        }
    }

    /// The positive length that stands in `s` from `range.0` up to
    /// `range.1`.
    fn parse_size(s: &str, range: (usize, usize)) -> (len: Option<usize>)
        requires
            range.0 <= range.1 <= s@.len(),
        ensures
            len == spec_parse_size(s@.subrange(range.0 as int, range.1 as int)),
    {
        match parse_len(s, range.0, range.1) {
            Some(n) => if n > 0 {
                Some(n)
            } else {
                None
            },
            None => None,
        }
    }

    /// Read the name of a datatype. Any other text is refused with the
    /// message `Unknown datatype`.
    pub fn parse(s: &str) -> (res: Result<Datatype, String>)
        ensures
            res is Ok <==> Self::spec_parse(s@) is Some,
            res is Ok ==> res->Ok_0 == Self::spec_parse(s@)->0,
            res is Err ==> res->Err_0@ == "Unknown datatype"@,
    {
        let known = if same_text(s, "Int64") {
            Some(Datatype::Int64)
        } else if same_text(s, "Float64") {
            Some(Datatype::Float64)
        } else if same_text(s, "Int32") {
            Some(Datatype::Int32)
        } else if same_text(s, "Float32") {
            Some(Datatype::Float32)
        } else if same_text(s, "Blob") {
            Some(Datatype::Blob)
        } else if same_text(s, "Text") {
            Some(Datatype::Text)
        } else if let Some(range) = unframe(s, "Bytes[", "]") {
            match Self::parse_size(s, range) {
                Some(len) => Some(Datatype::Bytes(len)),
                None => None,
            }
        } else if let Some(range) = unframe(s, "String[", "]") {
            match Self::parse_size(s, range) {
                Some(len) => Some(Datatype::String(len)),
                None => None,
            }
        } else {
            None
        };
        match known {
            Some(datatype) => Ok(datatype),
            None => Err(String::from_str("Unknown datatype")),
        }
    }

    /// The name of the datatype.
    pub fn to_string(&self) -> (text: String)
        ensures
            text@ == self.spec_to_string(),
    {
        match self {
            Datatype::Int64 => String::from_str("Int64"),
            Datatype::Float64 => String::from_str("Float64"),
            Datatype::Int32 => String::from_str("Int32"),
            Datatype::Float32 => String::from_str("Float32"),
            Datatype::Bytes(len) => {
                let text = String::from_str("Bytes[").concat(decimal(*len).as_str());
                text.concat("]")
            },
            Datatype::String(len) => {
                let text = String::from_str("String[").concat(decimal(*len).as_str());
                text.concat("]")
            },
            Datatype::Blob => String::from_str("Blob"),
            Datatype::Text => String::from_str("Text"),
        }
    }
}

impl core::str::FromStr for Datatype {
    type Err = String;

    /// Read the name of a datatype: see [`Datatype::parse`].
    fn from_str(s: &str) -> (res: Result<Self, Self::Err>)
        ensures
            res is Ok <==> Datatype::spec_parse(s@) is Some,
            res is Ok ==> res->Ok_0 == Datatype::spec_parse(s@)->0,
            res is Err ==> res->Err_0@ == "Unknown datatype"@,
    {
        Datatype::parse(s)
    }
}

/// The decimal form of a number is made of digits that stand for the
/// number.
pub proof fn lemma_decimal(n: nat)
    ensures
        spec_decimal(n).len() > 0,
        all_digits(spec_decimal(n)),
        digits_value(spec_decimal(n)) == n,
        spec_decimal(n)[0] != '+',
    decreases n,
{
    let d = spec_decimal(n);
    let last = digit_char(n % 10);
    assert(is_digit(last) && last as u32 - '0' as u32 == n % 10 && last != '+');
    if n < 10 {
        assert(d.drop_last() =~= Seq::<char>::empty());
        assert(d.last() == last);
        assert(digits_value(d.drop_last()) == 0);
        assert(digits_value(d) == 0 * 10 + n);
    } else {
        lemma_decimal(n / 10);
        let front = spec_decimal(n / 10);
        assert(d.drop_last() =~= front);
        assert(d.last() == last);
        assert(digits_value(d) == digits_value(front) * 10 + n % 10);
        assert(d[0] == front[0]);
        assert forall|i: int| 0 <= i < d.len() implies is_digit(#[trigger] d[i]) by {
            if i < front.len() {
                assert(d[i] == front[i]);
            }
        }
    }
}

/// The name of a datatype reads back as the datatype, unless the datatype
/// has the length 0.
pub proof fn lemma_parse_to_string(datatype: Datatype)
    requires
        datatype matches Datatype::Bytes(len) ==> len > 0,
        datatype matches Datatype::String(len) ==> len > 0,
    ensures
        Datatype::spec_parse(datatype.spec_to_string()) == Some(datatype),
{
    reveal_strlit("Int64");
    reveal_strlit("Float64");
    reveal_strlit("Int32");
    reveal_strlit("Float32");
    reveal_strlit("Blob");
    reveal_strlit("Text");
    reveal_strlit("Bytes[");
    reveal_strlit("String[");
    reveal_strlit("]");
    let s = datatype.spec_to_string();
    match datatype {
        Datatype::Int64 => {},
        Datatype::Float64 => {
            assert("Float64"@.len() != "Int64"@.len());
        },
        Datatype::Int32 => {
            assert("Int32"@[3] != "Int64"@[3]);
        },
        Datatype::Float32 => {
            assert("Float32"@.len() != "Int64"@.len());
            assert("Float32"@[5] != "Float64"@[5]);
        },
        Datatype::Blob => {
            assert("Blob"@.len() == 4);
        },
        Datatype::Text => {
            assert("Text"@.len() == 4);
            assert("Text"@[0] != "Blob"@[0]);
        },
        Datatype::Bytes(len) => {
            let d = spec_decimal(len as nat);
            lemma_decimal(len as nat);
            assert(s[0] == 'B' && s[1] == 'y');
            assert(s != "Blob"@) by {
                assert("Blob"@[1] == 'l');
            }
            assert(s.take(6) =~= "Bytes["@);
            assert(s.skip(s.len() - 1) =~= "]"@);
            assert(s.subrange(6, s.len() - 1) =~= d);
        },
        Datatype::String(len) => {
            let d = spec_decimal(len as nat);
            lemma_decimal(len as nat);
            assert(s[0] == 'S');
            assert(s.take(6)[0] != "Bytes["@[0]);
            assert(s.take(7) =~= "String["@);
            assert(s.skip(s.len() - 1) =~= "]"@);
            assert(s.subrange(7, s.len() - 1) =~= d);
        },
    }
}

} // verus!
