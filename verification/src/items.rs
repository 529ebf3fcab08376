//! `FeedItem` and `ColItem` are the basic entities of the DBMS that are
//! responsible for the options of feeds (like tables or collections) and
//! cols (like columns of fields).

use vstd::prelude::*;
use vstd::slice::slice_subrange;
use vstd::string::StringExecFns;
use vstd::utf8::{encode_utf8, valid_utf8};
use crate::datatype::Datatype;
use crate::error::Error;
use crate::le::{le_bytes_u64, le_value_u64, lemma_le_u64_round_trip, u64_from_le, u64_to_le};
use crate::list::ListKeyTrait;
use crate::utils::{
    bytes_to_str, is_allowed_name, lemma_allowed_name_is_ascii, lemma_ascii_text_round_trip,
    pad_to, spec_bytes_to_str, str_to_bytes, trim_zeros, try_bytes_to_str,
    validate_allowed_name, Pod,
};

verus! {

broadcast use vstd::array::group_array_axioms;

/// Maximum size for the stored names
pub const MAX_NAME_SIZE: usize = 256;

/// Type for the names as a static byte array.
pub type NameType = [u8; 256];

/// The buffer that holds the bytes `s`.
pub open spec fn name_buffer(s: Seq<u8>) -> NameType {
    choose|a: NameType| a@ == s
}

/// The name as it is stored: its first `MAX_NAME_SIZE` characters.
pub open spec fn stored_name(s: Seq<char>) -> Seq<char> {
    s.take(if s.len() <= MAX_NAME_SIZE { s.len() as int } else { MAX_NAME_SIZE as int })
}

/// The buffer of an allowed name reads back as the stored name.
pub proof fn lemma_name_round_trip(s: Seq<char>)
    requires
        is_allowed_name(s),
    ensures
        valid_utf8(trim_zeros(pad_to(encode_utf8(s), MAX_NAME_SIZE as nat))),
        spec_bytes_to_str(pad_to(encode_utf8(s), MAX_NAME_SIZE as nat)) == stored_name(s),
        s.len() <= MAX_NAME_SIZE ==> stored_name(s) == s,
{
    lemma_allowed_name_is_ascii(s);
    lemma_ascii_text_round_trip(s, MAX_NAME_SIZE as nat);
    let t = stored_name(s);
    assert(crate::utils::nul_trimmed_len(t) == t.len()) by {
        if t.len() > 0 {
            assert(t.last() == s[t.len() - 1]);
        }
    }
    assert(t.take(t.len() as int) =~= t);
    if s.len() <= MAX_NAME_SIZE {
        assert(s.take(s.len() as int) =~= s);
    }
}

/// Copy the first `MAX_NAME_SIZE` bytes of `block` into a buffer.
fn name_from(block: &[u8]) -> (name: NameType)
    requires
        block@.len() >= MAX_NAME_SIZE,
    ensures
        name@ == block@.take(MAX_NAME_SIZE as int),
{
    let mut name = [0u8;256];
    let mut i: usize = 0;
    while i < 256
        invariant
            i <= 256,
            block@.len() >= 256,
            forall|j: int| 0 <= j < i ==> name@[j] == block@[j],
        decreases 256 - i,
    {
        name[i] = block[i];
        i = i + 1;
    }
    assert(name@ =~= block@.take(256));
    name
}

/// The bytes of a buffer.
fn name_bytes(name: &NameType) -> (bytes: Vec<u8>)
    ensures
        bytes@ == name@,
{
    let mut bytes: Vec<u8> = Vec::new();
    let mut i: usize = 0;
    while i < 256
        invariant
            i <= 256,
            bytes@.len() == i,
            forall|j: int| 0 <= j < i ==> bytes@[j] == name@[j],
        decreases 256 - i,
    {
        bytes.push(name[i]);
        i = i + 1;
    }
    assert(bytes@ =~= name@);
    bytes
}

/// Feed structure.
#[derive(Clone, Copy, Debug, PartialEq, Eq)]
pub struct FeedItem {
    /// Name of the feed.
    pub name: NameType,
    /// Size of the feed.
    pub size: usize,
}

impl FeedItem {
    /// Whether the buffer of the name holds a text.
    pub open spec fn wf(&self) -> bool {
        valid_utf8(trim_zeros(self.name@))
    }

    /// The name of the feed.
    pub open spec fn spec_name(&self) -> Seq<char> {
        spec_bytes_to_str(self.name@)
    }

    /// Create a feed object by name given as string.
    pub fn new(name: &str) -> (res: Result<Self, Error>)
        ensures
            res is Ok <==> is_allowed_name(name@),
            res is Err ==> res->Err_0 == Error::InvalidInput,
            res matches Ok(item) ==> {
                &&& item.name@ == pad_to(encode_utf8(name@), MAX_NAME_SIZE as nat)
                &&& item.size == 0
                &&& item.wf()
                &&& item.spec_name() == stored_name(name@)
            },
    {
        match validate_allowed_name(name) {
            Ok(()) => {
                proof {
                    lemma_name_round_trip(name@);
                }
                Ok(Self { name: str_to_bytes::<256>(name), size: 0 })
            },
            Err(e) => Err(e),
        }
    }

    /// Get name as string.
    pub fn get_name(&self) -> (name: String)
        requires
            self.wf(),
        ensures
            name@ == self.spec_name(),
    {
        String::from_str(bytes_to_str(self.name.as_slice()))
    }

    /// Rename the feed. A name that is not allowed is refused and leaves
    /// the feed as it is.
    pub fn rename(&mut self, name: &str) -> (res: Result<(), Error>)
        ensures
            res is Ok <==> is_allowed_name(name@),
            res is Err ==> res->Err_0 == Error::InvalidInput && *final(self) == *old(self),
            res is Ok ==> {
                &&& final(self).name@ == pad_to(encode_utf8(name@), MAX_NAME_SIZE as nat)
                &&& final(self).size == old(self).size
                &&& final(self).wf()
                &&& final(self).spec_name() == stored_name(name@)
            },
    {
        match validate_allowed_name(name) {
            Ok(()) => {
                proof {
                    lemma_name_round_trip(name@);
                }
                self.name = str_to_bytes::<256>(name);
                Ok(())
            },
            Err(e) => Err(e),
        }
    }
}

impl ListKeyTrait<String> for FeedItem {
    open spec fn keyed(&self) -> bool {
        self.wf()
    }

    open spec fn spec_key(&self) -> Seq<char> {
        self.spec_name()
    }

    fn has_key(&self) -> bool {
        try_bytes_to_str(self.name.as_slice()).is_some()
    }

    fn key(&self) -> String {
        self.get_name()
    }
}

impl Pod for FeedItem {
    open spec fn spec_width() -> nat {
        264
    }

    open spec fn spec_encode(&self) -> Seq<u8> {
        self.name@ + le_bytes_u64(self.size as u64)
    }

    open spec fn spec_decode(block: Seq<u8>) -> Option<FeedItem> {
        let size = le_value_u64(block.skip(256));
        if size <= usize::MAX {
            Some(FeedItem { name: name_buffer(block.take(256)), size: size as usize })
        } else {
            None
        }
    }

    proof fn lemma_round_trip(v: FeedItem) {
        let block = v.spec_encode();
        lemma_le_u64_round_trip(v.size as u64);
        assert(block.skip(256) =~= le_bytes_u64(v.size as u64));
        assert(block.take(256) =~= v.name@);
        assert(name_buffer(v.name@)@ == v.name@);
        assert(name_buffer(v.name@) =~= v.name);
    }

    fn width() -> usize {
        264
    }

    fn encode(&self) -> Vec<u8> {
        let mut block = name_bytes(&self.name);
        let mut tail = u64_to_le(self.size as u64);
        block.append(&mut tail);
        block
    }

    fn decode(block: &[u8]) -> Option<FeedItem> {
        let size = u64_from_le(slice_subrange(block, 256, 264));
        assert(block@.subrange(256, 264) =~= block@.skip(256));
        if size <= usize::MAX as u64 {
            let name = name_from(block);
            assert(name_buffer(block@.take(256))@ == name@);
            assert(name_buffer(block@.take(256)) =~= name);
            Some(FeedItem { name, size: size as usize })
        } else {
            None
        }
    }
}

/// The number that stands for the kind of a datatype in a stored record.
pub open spec fn datatype_tag(datatype: Datatype) -> u64 {
    match datatype {
        Datatype::Int64 => 0,
        Datatype::Float64 => 1,
        Datatype::Int32 => 2,
        Datatype::Float32 => 3,
        Datatype::Bytes(_) => 4,
        Datatype::String(_) => 5,
        Datatype::Blob => 6,
        Datatype::Text => 7,
    }
}

/// The length that a stored record holds beside the kind of a datatype.
pub open spec fn datatype_len(datatype: Datatype) -> usize {
    match datatype {
        Datatype::Bytes(len) => len,
        Datatype::String(len) => len,
        _ => 0,
    }
}

/// The datatype of a kind and a length, where the kind is one.
pub open spec fn datatype_of(tag: u64, len: u64) -> Option<Datatype> {
    if len > usize::MAX {
        None
    } else if tag == 0 {
        Some(Datatype::Int64)
    } else if tag == 1 {
        Some(Datatype::Float64)
    } else if tag == 2 {
        Some(Datatype::Int32)
    } else if tag == 3 {
        Some(Datatype::Float32)
    } else if tag == 4 {
        Some(Datatype::Bytes(len as usize))
    } else if tag == 5 {
        Some(Datatype::String(len as usize))
    } else if tag == 6 {
        Some(Datatype::Blob)
    } else if tag == 7 {
        Some(Datatype::Text)
    } else {
        None
    }
}

/// Column structure.
#[derive(Clone, Copy, Debug, PartialEq, Eq)]
pub struct ColItem {
    /// Name of the column,
    pub name: NameType,
    /// Datatype of the column.
    pub datatype: Datatype,
}

impl ColItem {
    /// Whether the buffer of the name holds a text.
    pub open spec fn wf(&self) -> bool {
        valid_utf8(trim_zeros(self.name@))
    }

    /// The name of the column.
    pub open spec fn spec_name(&self) -> Seq<char> {
        spec_bytes_to_str(self.name@)
    }

    /// Create a column object by the name as string and the datatype. A
    /// name that is not allowed and a datatype that does not parse are
    /// refused.
    pub fn new(name: &str, datatype: &str) -> (res: Result<Self, Error>)
        ensures
            res is Ok <==> is_allowed_name(name@) && Datatype::spec_parse(datatype@) is Some,
            res is Err ==> res->Err_0 == Error::InvalidInput,
            res matches Ok(item) ==> {
                &&& item.name@ == pad_to(encode_utf8(name@), MAX_NAME_SIZE as nat)
                &&& item.datatype == Datatype::spec_parse(datatype@)->0
                &&& item.wf()
                &&& item.spec_name() == stored_name(name@)
            },
    {
        match validate_allowed_name(name) {
            Ok(()) => {},
            Err(e) => {
                return Err(e);
            },
        }
        match Datatype::parse(datatype) {
            Ok(datatype) => {
                proof {
                    lemma_name_round_trip(name@);
                }
                Ok(Self { name: str_to_bytes::<256>(name), datatype })
            },
            Err(_) => Err(Error::InvalidInput),
        }
    }

    /// Get name as string.
    pub fn get_name(&self) -> (name: String)
        requires
            self.wf(),
        ensures
            name@ == self.spec_name(),
    {
        String::from_str(bytes_to_str(self.name.as_slice()))
    }

    /// Get datatype as string.
    pub fn get_datatype(&self) -> (text: String)
        ensures
            text@ == self.datatype.spec_to_string(),
    {
        self.datatype.to_string()
    }

    /// Rename the column. A name that is not allowed is refused and leaves
    /// the column as it is.
    pub fn rename(&mut self, name: &str) -> (res: Result<(), Error>)
        ensures
            res is Ok <==> is_allowed_name(name@),
            res is Err ==> res->Err_0 == Error::InvalidInput && *final(self) == *old(self),
            res is Ok ==> {
                &&& final(self).name@ == pad_to(encode_utf8(name@), MAX_NAME_SIZE as nat)
                &&& final(self).datatype == old(self).datatype
                &&& final(self).wf()
                &&& final(self).spec_name() == stored_name(name@)
            },
    {
        match validate_allowed_name(name) {
            Ok(()) => {
                proof {
                    lemma_name_round_trip(name@);
                }
                self.name = str_to_bytes::<256>(name);
                Ok(())
            },
            Err(e) => Err(e),
        }
    }
}

impl ListKeyTrait<String> for ColItem {
    open spec fn keyed(&self) -> bool {
        self.wf()
    }

    open spec fn spec_key(&self) -> Seq<char> {
        self.spec_name()
    }

    fn has_key(&self) -> bool {
        try_bytes_to_str(self.name.as_slice()).is_some()
    }

    fn key(&self) -> String {
        self.get_name()
    }
}

impl Pod for ColItem {
    open spec fn spec_width() -> nat {
        272
    }

    open spec fn spec_encode(&self) -> Seq<u8> {
        self.name@ + le_bytes_u64(datatype_tag(self.datatype)) + le_bytes_u64(
            datatype_len(self.datatype) as u64,
        )
    }

    open spec fn spec_decode(block: Seq<u8>) -> Option<ColItem> {
        match datatype_of(
            le_value_u64(block.subrange(256, 264)),
            le_value_u64(block.subrange(264, 272)),
        ) {
            Some(datatype) => Some(ColItem { name: name_buffer(block.take(256)), datatype }),
            None => None,
        }
    }

    proof fn lemma_round_trip(v: ColItem) {
        let block = v.spec_encode();
        lemma_le_u64_round_trip(datatype_tag(v.datatype));
        lemma_le_u64_round_trip(datatype_len(v.datatype) as u64);
        assert(block.subrange(256, 264) =~= le_bytes_u64(datatype_tag(v.datatype)));
        assert(block.subrange(264, 272) =~= le_bytes_u64(datatype_len(v.datatype) as u64));
        assert(block.take(256) =~= v.name@);
        assert(name_buffer(v.name@)@ == v.name@);
        assert(name_buffer(v.name@) =~= v.name);
    }

    fn width() -> usize {
        272
    }

    fn encode(&self) -> Vec<u8> {
        let (tag, len): (u64, usize) = match self.datatype {
            Datatype::Int64 => (0, 0),
            Datatype::Float64 => (1, 0),
            Datatype::Int32 => (2, 0),
            Datatype::Float32 => (3, 0),
            Datatype::Bytes(len) => (4, len),
            Datatype::String(len) => (5, len),
            Datatype::Blob => (6, 0),
            Datatype::Text => (7, 0),
        };
        let mut block = name_bytes(&self.name);
        let mut kind = u64_to_le(tag);
        let mut size = u64_to_le(len as u64);
        block.append(&mut kind);
        block.append(&mut size);
        block
    }

    fn decode(block: &[u8]) -> Option<ColItem> {
        let tag = u64_from_le(slice_subrange(block, 256, 264));
        let len = u64_from_le(slice_subrange(block, 264, 272));
        if len > usize::MAX as u64 {
            return None;
        }
        let len = len as usize;
        let datatype = match tag {
            0 => Datatype::Int64,
            1 => Datatype::Float64,
            2 => Datatype::Int32,
            3 => Datatype::Float32,
            4 => Datatype::Bytes(len),
            5 => Datatype::String(len),
            6 => Datatype::Blob,
            7 => Datatype::Text,
            _ => {
                return None;
            },
        };
        let name = name_from(block);
        assert(name_buffer(block@.take(256))@ == name@);
        assert(name_buffer(block@.take(256)) =~= name);
        Some(ColItem { name, datatype })
    }
}

} // verus!
