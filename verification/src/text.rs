//! Texts: strings kept in the heap.

use vstd::prelude::*;
use vstd::string::StringSliceAdditionalSpecFns;
use vstd::utf8::{decode_utf8, valid_utf8};
use crate::allocator::{AllocObject, ArraySize};
use crate::error::{kind_of_alloc_error, ErrorKind, RuntimeError};
use crate::memory::{Heap, MutatorView};
use crate::strings::string_from_bytes;
use crate::headers::TypeList;
use crate::rawarray::RawArray;

verus! {

/// A text: a run of bytes in the heap that is never changed.
#[derive(Copy, Clone)]
pub struct Text {
    content: RawArray<u8>,
}

impl Text {
    /// The bytes of the text.
    pub closed spec fn spec_content(&self) -> RawArray<u8> {
        self.content
    }

    /// The text whose bytes are `content`.
    pub closed spec fn spec_of(content: RawArray<u8>) -> Text {
        Text { content }
    }

    /// A text is made of its bytes.
    pub broadcast proof fn lemma_spec_of(content: RawArray<u8>)
        ensures
            (#[trigger] Self::spec_of(content)).spec_content() == content,
    {
    }

    /// A text is made of its bytes.
    pub proof fn lemma_is_spec_of(self)
        ensures
            self == Self::spec_of(self.spec_content()),
    {
    }

    /// A text without content.
    pub fn new_empty() -> (text: Text)
        ensures
            text == Self::spec_of(RawArray::spec_of(0, None)),
    {
        Text { content: RawArray::new() }
    }

    /// The text whose bytes are `content`.
    pub fn from_content(content: RawArray<u8>) -> (text: Text)
        ensures
            text == Self::spec_of(content),
    {
        Text { content }
    }

    /// The bytes of the text.
    pub fn content(&self) -> (content: RawArray<u8>)
        ensures
            content == self.spec_content(),
    {
        self.content
    }
}

/// Whether the bytes of `text` lie in the heap: a text with content has an
/// array of as many bytes as it has capacity.
pub open spec fn text_is_held(heap: Heap, text: Text) -> bool {
    match text.spec_content().spec_ptr() {
        Some(ptr) => heap.spec_storage().holds(ptr.spec_word() as int)
            && heap.spec_storage().spec_objects()[ptr.spec_word() as int].1
            == text.spec_content().spec_capacity(),
        None => true,
    }
}

/// The bytes of `text`.
pub open spec fn text_bytes(heap: Heap, text: Text) -> Seq<u8> {
    match text.spec_content().spec_ptr() {
        Some(ptr) => heap.spec_storage().payload(ptr.spec_word() as int),
        None => Seq::empty(),
    }
}

impl Text {
    /// A text with a copy of the bytes of `from_str` in the heap.
    pub fn new_from_str<'guard>(mem: &mut MutatorView<'guard>, from_str: &str) -> (r: Result<
        Text,
        RuntimeError,
    >)
        ensures
            final(mem).extends(*old(mem)),
            final(mem).spec_heap().spec_syms() == old(mem).spec_heap().spec_syms(),
            forall|other: int|
                old(mem).spec_heap().spec_storage().holds(other) ==> #[trigger] final(mem).spec_heap().spec_storage().payload(other) == old(mem).spec_heap().spec_storage().payload(other),
            match r {
                Ok(text) => {
                    &&& text_is_held(final(mem).spec_heap(), text)
                    &&& text_bytes(final(mem).spec_heap(), text) == from_str.spec_bytes()
                    &&& text.spec_content().spec_ptr() matches Some(ptr) && !old(mem).spec_heap().spec_storage().holds(ptr.spec_word() as int)
                        && final(mem).spec_heap().holds_object(
                        ptr.spec_word(),
                        TypeList::ArrayBackingBytes,
                        from_str.spec_bytes().len(),
                    )
                },
                Err(e) => {
                    &&& e.spec_pos() is None
                    &&& if from_str.spec_bytes().len() > ArraySize::MAX {
                        e.spec_kind() == ErrorKind::BadAllocationRequest
                    } else {
                        old(mem).spec_heap().spec_storage().alloc_outcome(
                            from_str.spec_bytes().len(),
                        ) matches Err(error) && e.spec_kind() == kind_of_alloc_error(error)
                    }
                },
            },
    {
        let bytes = from_str.as_bytes();
        let len: usize = bytes.len();
        if len > ArraySize::MAX as usize {
            proof {
                use_type_invariant(&*mem);
                crate::memory::lemma_extends_itself(mem.spec_heap());
            }
            return Err(RuntimeError::new(ErrorKind::BadAllocationRequest));
        }
        let content: RawArray<u8> = RawArray::with_capacity(mem, len as ArraySize)?;
        match content.as_ptr() {
            Some(to_ptr) => {
                let ghost grown = *mem;
                proof {
                    use_type_invariant(&*mem);
                    content.lemma_is_spec_of();
                }
                mem.write_array(to_ptr, 0, bytes);
                proof {
                    use_type_invariant(&*mem);
                    let at = to_ptr.spec_word() as int;
                    assert(mem.spec_heap().spec_storage().payload(at) =~= bytes@);
                    assert forall|addr: int| #[trigger]
                        old(mem).spec_heap().spec_storage().holds(addr) implies mem.spec_heap().spec_storage().holds(
                        addr,
                    ) && mem.spec_heap().spec_storage().spec_objects()[addr] == old(mem).spec_heap().spec_storage().spec_objects()[addr] by {
                        assert(grown.spec_heap().spec_storage().holds(addr));
                    }
                    crate::symbolmap::lemma_extends_chain(
                        old(mem).spec_heap().spec_syms(),
                        grown.spec_heap().spec_syms(),
                        mem.spec_heap().spec_syms(),
                    );
                    Text::lemma_spec_of(content);
                }
                Ok(Text { content })
            },
            None => vstd::pervasive::unreached(),
        }
    }

    /// The text as a string. Where the bytes of the text are not valid
    /// UTF-8, a replacement character stands for what is invalid.
    pub fn as_str<'guard>(&self, mem: &MutatorView<'guard>) -> (text: String)
        requires
            text_is_held(mem.spec_heap(), *self),
        ensures
            valid_utf8(text_bytes(mem.spec_heap(), *self)) ==> text@ == decode_utf8(
                text_bytes(mem.spec_heap(), *self),
            ),
    {
        match self.content.as_ptr() {
            Some(ptr) => {
                let bytes = mem.read_array(ptr, 0, self.content.capacity() as usize);
                assert(bytes@ =~= text_bytes(mem.spec_heap(), *self));
                string_from_bytes(bytes.as_slice())
            },
            None => {
                let bytes: Vec<u8> = Vec::new();
                assert(bytes@ =~= text_bytes(mem.spec_heap(), *self));
                string_from_bytes(bytes.as_slice())
            },
        }
    }
}

impl AllocObject<TypeList> for Text {
    open spec fn spec_type_id() -> TypeList {
        TypeList::Text
    }

    fn type_id() -> (id: TypeList) {
        TypeList::Text
    }

    open spec fn spec_word_count() -> nat {
        3
    }

    fn word_count() -> (count: usize) {
        3
    }

    open spec fn spec_words(&self) -> Seq<u64> {
        self.spec_content().spec_words()
    }

    fn to_words(&self) -> (words: Vec<u64>) {
        let mut words: Vec<u64> = Vec::new();
        self.content.push_words(&mut words);
        proof {
            self.spec_content().lemma_words_round_trip();
            assert(words@ =~= self.spec_words());
        }
        words
    }

    open spec fn spec_from_words(words: Seq<u64>) -> Text {
        Text::spec_of(RawArray::spec_from_words(words))
    }

    fn from_words(words: &[u64]) -> (object: Text) {
        assert(words@.subrange(0, 3) =~= words@);
        Text { content: RawArray::from_words(words, 0) }
    }

    proof fn lemma_words_round_trip(&self) {
        self.lemma_is_spec_of();
        self.spec_content().lemma_words_round_trip();
    }
}

} // verus!
