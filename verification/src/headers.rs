//! The header that stands in front of every object of the runtime's heap,
//! and the list of the types that it can name.

use vstd::prelude::*;
use vstd::bytes::{
    lemma_auto_spec_u64_to_from_le_bytes, spec_u64_from_le_bytes, spec_u64_to_le_bytes,
    u64_from_le_bytes, u64_to_le_bytes,
};
use crate::allocator::{AllocHeader, AllocObject, AllocTypeId, ArraySize, Mark, SizeClass};
use crate::pointerops::{spec_untag, PTR_MASK};
use crate::rawptr::RawPtr;
use crate::taggedptr::{fat_ptr_of_type, FatPtr};

verus! {

/// The types of object that the heap holds: every type of the runtime but
/// the values that a tagged pointer holds inline.
#[derive(Debug, Copy, Clone, PartialEq, Eq, Structural)]
pub enum TypeList {
    ArrayBackingBytes,
    ArrayOpcode,
    ArrayU8,
    ArrayU16,
    ArrayU32,
    ByteCode,
    CallFrameList,
    Dict,
    Function,
    InstructionStream,
    List,
    NumberObject,
    Pair,
    Partial,
    Symbol,
    Text,
    Thread,
    Upvalue,
}

impl AllocTypeId for TypeList {

}

/// The number that a header stores for a type.
pub open spec fn type_code(type_id: TypeList) -> u64 {
    match type_id {
        TypeList::ArrayBackingBytes => 0,
        TypeList::ArrayOpcode => 1,
        TypeList::ArrayU8 => 2,
        TypeList::ArrayU16 => 3,
        TypeList::ArrayU32 => 4,
        TypeList::ByteCode => 5,
        TypeList::CallFrameList => 6,
        TypeList::Dict => 7,
        TypeList::Function => 8,
        TypeList::InstructionStream => 9,
        TypeList::List => 10,
        TypeList::NumberObject => 11,
        TypeList::Pair => 12,
        TypeList::Partial => 13,
        TypeList::Symbol => 14,
        TypeList::Text => 15,
        TypeList::Thread => 16,
        TypeList::Upvalue => 17,
    }
}

/// The type that a number stands for, if it stands for one.
pub open spec fn type_of_code(code: u64) -> Option<TypeList> {
    if code == 0 {
        Some(TypeList::ArrayBackingBytes)
    } else if code == 1 {
        Some(TypeList::ArrayOpcode)
    } else if code == 2 {
        Some(TypeList::ArrayU8)
    } else if code == 3 {
        Some(TypeList::ArrayU16)
    } else if code == 4 {
        Some(TypeList::ArrayU32)
    } else if code == 5 {
        Some(TypeList::ByteCode)
    } else if code == 6 {
        Some(TypeList::CallFrameList)
    } else if code == 7 {
        Some(TypeList::Dict)
    } else if code == 8 {
        Some(TypeList::Function)
    } else if code == 9 {
        Some(TypeList::InstructionStream)
    } else if code == 10 {
        Some(TypeList::List)
    } else if code == 11 {
        Some(TypeList::NumberObject)
    } else if code == 12 {
        Some(TypeList::Pair)
    } else if code == 13 {
        Some(TypeList::Partial)
    } else if code == 14 {
        Some(TypeList::Symbol)
    } else if code == 15 {
        Some(TypeList::Text)
    } else if code == 16 {
        Some(TypeList::Thread)
    } else if code == 17 {
        Some(TypeList::Upvalue)
    } else {
        None
    }
}

/// The number that a header stores for a mark state.
pub open spec fn mark_code(mark: Mark) -> u64 {
    match mark {
        Mark::Allocated => 0,
        Mark::Unmarked => 1,
        Mark::Marked => 2,
    }
}

/// The mark state that a number stands for, if it stands for one.
pub open spec fn mark_of_code(code: u64) -> Option<Mark> {
    if code == 0 {
        Some(Mark::Allocated)
    } else if code == 1 {
        Some(Mark::Unmarked)
    } else if code == 2 {
        Some(Mark::Marked)
    } else {
        None
    }
}

/// The number that a header stores for a size class.
pub open spec fn size_class_code(size_class: SizeClass) -> u64 {
    match size_class {
        SizeClass::Small => 0,
        SizeClass::Medium => 1,
        SizeClass::Large => 2,
    }
}

/// The size class that a number stands for, if it stands for one.
pub open spec fn size_class_of_code(code: u64) -> Option<SizeClass> {
    if code == 0 {
        Some(SizeClass::Small)
    } else if code == 1 {
        Some(SizeClass::Medium)
    } else if code == 2 {
        Some(SizeClass::Large)
    } else {
        None
    }
}

impl TypeList {
    /// The number that a header stores for this type.
    pub fn code(self) -> (code: u64)
        ensures
            code == type_code(self),
            type_of_code(code) == Some(self),
    {
        match self {
            TypeList::ArrayBackingBytes => 0,
            TypeList::ArrayOpcode => 1,
            TypeList::ArrayU8 => 2,
            TypeList::ArrayU16 => 3,
            TypeList::ArrayU32 => 4,
            TypeList::ByteCode => 5,
            TypeList::CallFrameList => 6,
            TypeList::Dict => 7,
            TypeList::Function => 8,
            TypeList::InstructionStream => 9,
            TypeList::List => 10,
            TypeList::NumberObject => 11,
            TypeList::Pair => 12,
            TypeList::Partial => 13,
            TypeList::Symbol => 14,
            TypeList::Text => 15,
            TypeList::Thread => 16,
            TypeList::Upvalue => 17,
        }
    }

    /// The type that `code` stands for, if it stands for one.
    pub fn from_code(code: u64) -> (type_id: Option<TypeList>)
        ensures
            type_id == type_of_code(code),
    {
        if code == 0 {
            Some(TypeList::ArrayBackingBytes)
        } else if code == 1 {
            Some(TypeList::ArrayOpcode)
        } else if code == 2 {
            Some(TypeList::ArrayU8)
        } else if code == 3 {
            Some(TypeList::ArrayU16)
        } else if code == 4 {
            Some(TypeList::ArrayU32)
        } else if code == 5 {
            Some(TypeList::ByteCode)
        } else if code == 6 {
            Some(TypeList::CallFrameList)
        } else if code == 7 {
            Some(TypeList::Dict)
        } else if code == 8 {
            Some(TypeList::Function)
        } else if code == 9 {
            Some(TypeList::InstructionStream)
        } else if code == 10 {
            Some(TypeList::List)
        } else if code == 11 {
            Some(TypeList::NumberObject)
        } else if code == 12 {
            Some(TypeList::Pair)
        } else if code == 13 {
            Some(TypeList::Partial)
        } else if code == 14 {
            Some(TypeList::Symbol)
        } else if code == 15 {
            Some(TypeList::Text)
        } else if code == 16 {
            Some(TypeList::Thread)
        } else if code == 17 {
            Some(TypeList::Upvalue)
        } else {
            None
        }
    }
}

/// The header of an object of the heap.
pub struct ObjectHeader {
    mark: Mark,
    size_class: SizeClass,
    type_id: TypeList,
    size_bytes: u32,
}

/// The bytes that a header takes in memory.
pub const HEADER_SIZE: usize = 8;

/// The word that stands for a header with the given fields: the mark in its
/// lowest byte, the size class in the next, the type in the two bytes above,
/// and the size in its upper half.
pub open spec fn header_word(mark: Mark, size_class: SizeClass, type_id: TypeList, size: u32)
    -> u64 {
    (mark_code(mark) + 0x100 * size_class_code(size_class) + 0x1_0000 * type_code(type_id)
        + 0x1_0000_0000 * size) as u64
}

impl ObjectHeader {
    /// The header with the given fields.
    pub closed spec fn of(mark: Mark, size_class: SizeClass, type_id: TypeList, size: u32)
        -> ObjectHeader {
        ObjectHeader { mark, size_class, type_id, size_bytes: size }
    }

    /// The mark state.
    pub closed spec fn spec_mark_state(&self) -> Mark {
        self.mark
    }

    /// A header is made of its four fields.
    pub proof fn lemma_fields(&self)
        ensures
            *self == Self::of(
                self.spec_mark_state(),
                self.spec_size_class(),
                self.spec_type_id(),
                self.spec_size(),
            ),
    {
    }

    /// The fields of a header are those that it was made of.
    pub broadcast proof fn lemma_of(mark: Mark, size_class: SizeClass, type_id: TypeList, size: u32)
        ensures
            (#[trigger] Self::of(mark, size_class, type_id, size)).spec_mark_state() == mark,
            Self::of(mark, size_class, type_id, size).spec_size_class() == size_class,
            Self::of(mark, size_class, type_id, size).spec_type_id() == type_id,
            Self::of(mark, size_class, type_id, size).spec_size() == size,
    {
    }

    /// The word that stands for this header.
    pub open spec fn spec_word(&self) -> u64 {
        header_word(
            self.spec_mark_state(),
            self.spec_size_class(),
            self.spec_type_id(),
            self.spec_size(),
        )
    }

    /// The header that a word stands for, if its fields are all in range.
    pub open spec fn spec_from_word(word: u64) -> Option<ObjectHeader> {
        let mark = mark_of_code(word % 0x100);
        let size_class = size_class_of_code((word / 0x100) % 0x100);
        let type_id = type_of_code((word / 0x1_0000) % 0x1_0000);
        let size = (word / 0x1_0000_0000) as u32;
        if mark is Some && size_class is Some && type_id is Some {
            Some(Self::of(mark->0, size_class->0, type_id->0, size))
        } else {
            None
        }
    }

    /// The word of a header stands for that header.
    pub proof fn lemma_word_round_trip(&self)
        ensures
            Self::spec_from_word(self.spec_word()) == Some(*self),
    {
        self.lemma_fields();
        let word = self.spec_word();
        let m = mark_code(self.spec_mark_state());
        let c = size_class_code(self.spec_size_class());
        let t = type_code(self.spec_type_id());
        let s = self.spec_size();
        assert(word == m + 0x100 * c + 0x1_0000 * t + 0x1_0000_0000 * s);
        assert(word % 0x100 == m);
        assert((word / 0x100) % 0x100 == c);
        assert((word / 0x1_0000) % 0x1_0000 == t);
        assert(word / 0x1_0000_0000 == s);
    }

    /// The word that stands for this header.
    pub fn to_word(&self) -> (word: u64)
        ensures
            word == self.spec_word(),
    {
        let mark: u64 = match self.mark {
            Mark::Allocated => 0,
            Mark::Unmarked => 1,
            Mark::Marked => 2,
        };
        let size_class: u64 = match self.size_class {
            SizeClass::Small => 0,
            SizeClass::Medium => 1,
            SizeClass::Large => 2,
        };
        mark + 0x100 * size_class + 0x1_0000 * self.type_id.code() + 0x1_0000_0000 * (
        self.size_bytes as u64)
    }

    /// The header that `word` stands for, if its fields are all in range.
    pub fn from_word(word: u64) -> (header: Option<ObjectHeader>)
        ensures
            header == Self::spec_from_word(word),
    {
        let mark_code: u64 = word % 0x100;
        let mark = if mark_code == 0 {
            Mark::Allocated
        } else if mark_code == 1 {
            Mark::Unmarked
        } else if mark_code == 2 {
            Mark::Marked
        } else {
            return None;
        };
        let class_code: u64 = (word / 0x100) % 0x100;
        let size_class = if class_code == 0 {
            SizeClass::Small
        } else if class_code == 1 {
            SizeClass::Medium
        } else if class_code == 2 {
            SizeClass::Large
        } else {
            return None;
        };
        let type_id = match TypeList::from_code((word / 0x1_0000) % 0x1_0000) {
            Some(type_id) => type_id,
            None => { return None; },
        };
        let size_bytes: u32 = (word / 0x1_0000_0000) as u32;
        Some(ObjectHeader { mark, size_class, type_id, size_bytes })
    }
}

impl ObjectHeader {
    /// The pointer to the object behind this header, which lies at
    /// `object_addr`: a `FatPtr` of the variant for the type that the header
    /// names. The header must name a type that `FatPtr` has a variant for.
    pub fn get_object_fatptr(&self, object_addr: usize) -> (ptr: FatPtr)
        requires
            fat_ptr_of_type(self.spec_type_id(), spec_untag(object_addr)) is Some,
        ensures
            Some(ptr) == fat_ptr_of_type(self.spec_type_id(), spec_untag(object_addr)),
    {
        let raw: RawPtr<u8> = RawPtr::new(untagged(object_addr));
        FatPtr::of_type(self.type_id, raw.as_word()).unwrap()
    }
}

/// `word` with its tag bits cleared.
pub fn untagged(word: usize) -> (addr: usize)
    ensures
        addr == spec_untag(word),
{
    assert(word & !3usize == word - word % 4) by (bit_vector);
    word & PTR_MASK
}

impl AllocHeader for ObjectHeader {
    type TypeId = TypeList;

    open spec fn spec_new(type_id: TypeList, size: u32, size_class: SizeClass, mark: Mark)
        -> ObjectHeader {
        ObjectHeader::of(mark, size_class, type_id, size)
    }

    fn new<O: AllocObject<TypeList>>(size: u32, size_class: SizeClass, mark: Mark) -> (header:
        ObjectHeader) {
        ObjectHeader { mark, size_class, type_id: O::type_id(), size_bytes: size }
    }

    open spec fn spec_new_array(size: ArraySize, size_class: SizeClass, mark: Mark)
        -> ObjectHeader {
        ObjectHeader::of(mark, size_class, TypeList::ArrayBackingBytes, size)
    }

    fn new_array(size: ArraySize, size_class: SizeClass, mark: Mark) -> (header: ObjectHeader) {
        ObjectHeader { mark, size_class, type_id: TypeList::ArrayBackingBytes, size_bytes: size }
    }

    open spec fn spec_mark(&self) -> ObjectHeader {
        ObjectHeader::of(
            Mark::Marked,
            self.spec_size_class(),
            self.spec_type_id(),
            self.spec_size(),
        )
    }

    fn mark(&mut self) {
        self.mark = Mark::Marked;
    }

    open spec fn spec_is_marked(&self) -> bool {
        self.spec_mark_state() == Mark::Marked
    }

    fn is_marked(&self) -> (marked: bool) {
        match self.mark {
            Mark::Marked => true,
            _ => false,
        }
    }

    closed spec fn spec_size_class(&self) -> SizeClass {
        self.size_class
    }

    fn size_class(&self) -> (size_class: SizeClass) {
        self.size_class
    }

    closed spec fn spec_size(&self) -> u32 {
        self.size_bytes
    }

    fn size(&self) -> (size: u32) {
        self.size_bytes
    }

    closed spec fn spec_type_id(&self) -> TypeList {
        self.type_id
    }

    fn type_id(&self) -> (type_id: TypeList) {
        self.type_id
    }

    open spec fn spec_header_size() -> nat {
        HEADER_SIZE as nat
    }

    fn header_size() -> (size: usize) {
        HEADER_SIZE
    }

    open spec fn spec_encode(&self) -> Seq<u8> {
        spec_u64_to_le_bytes(self.spec_word())
    }

    fn encode(&self) -> (bytes: Vec<u8>) {
        u64_to_le_bytes(self.to_word())
    }

    open spec fn spec_decode(bytes: Seq<u8>) -> Option<ObjectHeader> {
        ObjectHeader::spec_from_word(spec_u64_from_le_bytes(bytes))
    }

    fn decode(bytes: &[u8]) -> (header: Option<ObjectHeader>) {
        ObjectHeader::from_word(u64_from_le_bytes(bytes))
    }

    proof fn lemma_decode_encode(&self) {
        lemma_auto_spec_u64_to_from_le_bytes();
        self.lemma_word_round_trip();
    }
}

/// A header whose mark was set is marked, and is otherwise as it was.
pub proof fn lemma_marked_header_is_marked(header: ObjectHeader)
    ensures
        header.spec_mark().spec_is_marked(),
        header.spec_mark().spec_size() == header.spec_size(),
        header.spec_mark().spec_size_class() == header.spec_size_class(),
        header.spec_mark().spec_type_id() == header.spec_type_id(),
{
    ObjectHeader::lemma_of(
        Mark::Marked,
        header.spec_size_class(),
        header.spec_type_id(),
        header.spec_size(),
    );
}

} // verus!
