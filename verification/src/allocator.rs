//! The vocabulary shared by heaps and the objects they hold: errors, size
//! classes, mark states, and the traits that a header type and an object type
//! implement.

use vstd::prelude::*;
use vstd::std_specs::convert::FromSpecImpl;
use crate::blockalloc::BlockError;
use crate::layout::{bytes_to_words, lemma_bytes_to_words_of_words, words_to_bytes};
use crate::constants::{
    LARGE_OBJECT_MAX, LARGE_OBJECT_MIN, MEDIUM_OBJECT_MAX, MEDIUM_OBJECT_MIN, SMALL_OBJECT_MAX,
    SMALL_OBJECT_MIN,
};

verus! {

/// Why an allocation failed.
#[derive(Copy, Clone, Debug, PartialEq, Eq, Structural)]
pub enum AllocError {
    /// The request cannot be served whatever the state of the heap: a size of
    /// zero, or one beyond what a block can hold.
    BadRequest,
    /// The address space has no room for another block.
    OOM,
}

/// The error of a heap that stands for a refused block.
pub open spec fn alloc_error_of(error: BlockError) -> AllocError {
    match error {
        BlockError::BadRequest => AllocError::BadRequest,
        BlockError::OOM => AllocError::OOM,
    }
}

impl From<BlockError> for AllocError {
    fn from(error: BlockError) -> (r: AllocError) {
        match error {
            BlockError::BadRequest => AllocError::BadRequest,
            BlockError::OOM => AllocError::OOM,
        }
    }
}

impl FromSpecImpl<BlockError> for AllocError {
    open spec fn obeys_from_spec() -> bool {
        true
    }

    open spec fn from_spec(error: BlockError) -> AllocError {
        alloc_error_of(error)
    }
}

/// The count of bytes of an array, and the largest size a header records.
pub type ArraySize = u32;

/// Size class of an object, by the bytes that it and its header take
/// together.
#[derive(Copy, Clone, Debug, PartialEq, Eq, Structural)]
pub enum SizeClass {
    /// The object fits inside a line.
    Small,
    /// The object spans more than one line and fits inside a block.
    Medium,
    /// The object is larger than a block.
    Large,
}

/// The size class of an allocation of `object_size` bytes: small up to a
/// line, medium up to the capacity of a block, large up to the largest size
/// that a header records, and none for zero or anything beyond.
pub open spec fn size_class_for(object_size: int) -> Result<SizeClass, AllocError> {
    if SMALL_OBJECT_MIN <= object_size <= SMALL_OBJECT_MAX {
        Ok(SizeClass::Small)
    } else if MEDIUM_OBJECT_MIN <= object_size <= MEDIUM_OBJECT_MAX {
        Ok(SizeClass::Medium)
    } else if LARGE_OBJECT_MIN <= object_size <= LARGE_OBJECT_MAX {
        Ok(SizeClass::Large)
    } else {
        Err(AllocError::BadRequest)
    }
}

impl SizeClass {
    /// Classifies an allocation by its size in bytes.
    pub fn get_for_size(object_size: usize) -> (r: Result<SizeClass, AllocError>)
        ensures
            r == size_class_for(object_size as int),
    {
        if SMALL_OBJECT_MIN <= object_size && object_size <= SMALL_OBJECT_MAX {
            Ok(SizeClass::Small)
        } else if MEDIUM_OBJECT_MIN <= object_size && object_size <= MEDIUM_OBJECT_MAX {
            Ok(SizeClass::Medium)
        } else if LARGE_OBJECT_MIN <= object_size && object_size <= LARGE_OBJECT_MAX {
            Ok(SizeClass::Large)
        } else {
            Err(AllocError::BadRequest)
        }
    }
}

/// Mark state of an object. Every object is `Allocated` when it is made.
#[derive(Copy, Clone, Debug, PartialEq, Eq, Structural)]
pub enum Mark {
    Allocated,
    Unmarked,
    Marked,
}

/// A type whose values identify the types of managed objects.
pub trait AllocTypeId: Copy + Clone {
}

/// A type of managed object: it has a type identifier and a layout, the row
/// of words that stands for an object of the type in the heap.
pub trait AllocObject<T: AllocTypeId>: Sized {
    /// The identifier that a header records for objects of this type.
    spec fn spec_type_id() -> T;

    fn type_id() -> (id: T)
        ensures
            id == Self::spec_type_id(),
    ;

    /// The number of words that every object of this type takes in the heap.
    spec fn spec_word_count() -> nat;

    fn word_count() -> (count: usize)
        ensures
            count == Self::spec_word_count(),
    ;

    /// The words that stand for this object.
    spec fn spec_words(&self) -> Seq<u64>;

    fn to_words(&self) -> (words: Vec<u64>)
        ensures
            words@ == self.spec_words(),
            words@.len() == Self::spec_word_count(),
    ;

    /// The object that `words` stand for.
    spec fn spec_from_words(words: Seq<u64>) -> Self;

    fn from_words(words: &[u64]) -> (object: Self)
        requires
            words@.len() == Self::spec_word_count(),
        ensures
            object == Self::spec_from_words(words@),
    ;

    /// The words of an object stand for that object.
    proof fn lemma_words_round_trip(&self)
        ensures
            self.spec_words().len() == Self::spec_word_count(),
            Self::spec_from_words(self.spec_words()) == *self,
    ;
}

/// The bytes that an object of type `O` takes in the heap.
pub open spec fn object_size<T: AllocTypeId, O: AllocObject<T>>() -> nat {
    8 * O::spec_word_count()
}

/// The bytes that stand for `object` in the heap.
pub open spec fn object_bytes<T: AllocTypeId, O: AllocObject<T>>(object: O) -> Seq<u8> {
    words_to_bytes(object.spec_words())
}

/// The object of type `O` that `bytes` stand for.
pub open spec fn object_of_bytes<T: AllocTypeId, O: AllocObject<T>>(bytes: Seq<u8>) -> O {
    O::spec_from_words(bytes_to_words(bytes, O::spec_word_count()))
}

/// The bytes of an object stand for that object, and they are as many as the
/// type takes.
pub proof fn lemma_object_bytes_round_trip<T: AllocTypeId, O: AllocObject<T>>(object: O)
    ensures
        object_bytes::<T, O>(object).len() == object_size::<T, O>(),
        object_of_bytes::<T, O>(object_bytes::<T, O>(object)) == object,
{
    object.lemma_words_round_trip();
    lemma_bytes_to_words_of_words(object.spec_words());
}

/// A type of object header. The heap writes one in front of every object.
pub trait AllocHeader: Sized {
    /// The type that identifies the type of the object behind the header.
    type TypeId: AllocTypeId;

    /// The header of an object of the type that `type_id` names.
    spec fn spec_new(type_id: Self::TypeId, size: u32, size_class: SizeClass, mark: Mark) -> Self;

    /// A new header for an object of type `O`.
    fn new<O: AllocObject<Self::TypeId>>(size: u32, size_class: SizeClass, mark: Mark) -> (header:
        Self)
        ensures
            header == Self::spec_new(O::spec_type_id(), size, size_class, mark),
    ;

    /// The header of an array of bytes.
    spec fn spec_new_array(size: ArraySize, size_class: SizeClass, mark: Mark) -> Self;

    /// A new header for an array of bytes.
    fn new_array(size: ArraySize, size_class: SizeClass, mark: Mark) -> (header: Self)
        ensures
            header == Self::spec_new_array(size, size_class, mark),
    ;

    /// This header with its mark set to "marked".
    spec fn spec_mark(&self) -> Self;

    /// Sets the mark to "marked".
    fn mark(&mut self)
        ensures
            *final(self) == old(self).spec_mark(),
    ;

    spec fn spec_is_marked(&self) -> bool;

    /// Whether the mark is "marked".
    fn is_marked(&self) -> (marked: bool)
        ensures
            marked == self.spec_is_marked(),
    ;

    spec fn spec_size_class(&self) -> SizeClass;

    /// The size class of the object.
    fn size_class(&self) -> (size_class: SizeClass)
        ensures
            size_class == self.spec_size_class(),
    ;

    spec fn spec_size(&self) -> u32;

    /// The size of the object in bytes.
    fn size(&self) -> (size: u32)
        ensures
            size == self.spec_size(),
    ;

    spec fn spec_type_id(&self) -> Self::TypeId;

    /// The type of the object.
    fn type_id(&self) -> (type_id: Self::TypeId)
        ensures
            type_id == self.spec_type_id(),
    ;

    /// The bytes that a header takes in front of its object.
    spec fn spec_header_size() -> nat;

    fn header_size() -> (size: usize)
        ensures
            size == Self::spec_header_size(),
    ;

    /// The bytes that stand for this header.
    spec fn spec_encode(&self) -> Seq<u8>;

    fn encode(&self) -> (bytes: Vec<u8>)
        ensures
            bytes@ == self.spec_encode(),
            bytes@.len() == Self::spec_header_size(),
    ;

    /// The header that `bytes` stand for, if they stand for one.
    spec fn spec_decode(bytes: Seq<u8>) -> Option<Self>;

    fn decode(bytes: &[u8]) -> (header: Option<Self>)
        requires
            bytes@.len() == Self::spec_header_size(),
        ensures
            header == Self::spec_decode(bytes@),
    ;

    /// Decoding the bytes of a header gives the header back.
    proof fn lemma_decode_encode(&self)
        ensures
            self.spec_encode().len() == Self::spec_header_size(),
            Self::spec_decode(self.spec_encode()) == Some(*self),
    ;
}

/// The bytes that an object of `object_size` bytes is given: the size rounded
/// up to a multiple of the machine word.
pub open spec fn spec_alloc_size_of(object_size: int) -> int {
    ((object_size + 7) / 8) * 8
}

/// Rounds a size in bytes up to a multiple of the machine word.
pub fn alloc_size_of(object_size: usize) -> (size: usize)
    requires
        object_size <= usize::MAX - 7,
    ensures
        size == spec_alloc_size_of(object_size as int),
{
    let padded: usize = object_size + 7;
    assert(padded & !7usize == (padded / 8) * 8) by (bit_vector);
    padded & !7usize
}

} // verus!
