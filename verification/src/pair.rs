//! Pairs: the cons cells that lists are made of.

use vstd::prelude::*;
use crate::allocator::{
    lemma_object_bytes_round_trip, object_of_bytes, object_size, AllocHeader, AllocObject,
};
use crate::error::{err_eval, kind_of_alloc_error, ErrorKind, RuntimeError};
use crate::memory::{lemma_extends_keeps_valid, Heap, MutatorView};
use crate::strings::{decimal, push_decimal, push_text};
use crate::taggedptr::{addr_of_fat_ptr, FatPtr, TaggedPtr, Value};
use crate::error::SourcePos;
use crate::headers::TypeList;
use crate::layout::{spec_u32_of_word, spec_word_of_bool, u32_of_word};
use crate::safeptr::{TaggedCellPtr, TaggedScopedPtr};

verus! {

/// A pair of pointers, with the source positions of what they point at, where
/// these are known.
#[derive(Copy, Clone)]
pub struct Pair {
    pub first: TaggedCellPtr,
    pub second: TaggedCellPtr,
    pub first_pos: Option<SourcePos>,
    pub second_pos: Option<SourcePos>,
}

/// The word that says whether a source position is known.
pub open spec fn spec_pos_flag(pos: Option<SourcePos>) -> u64 {
    spec_word_of_bool(pos is Some)
}

/// The word that holds a source position: the line in its lower half, the
/// column in its upper half, and zero where no position is known.
pub open spec fn spec_pos_word(pos: Option<SourcePos>) -> u64 {
    match pos {
        Some(pos) => (pos.line + 0x1_0000_0000 * pos.column) as u64,
        None => 0,
    }
}

/// The source position that a flag word and a position word stand for.
pub open spec fn spec_pos_of_words(flag: u64, word: u64) -> Option<SourcePos> {
    if flag == 0 {
        None
    } else {
        Some(
            SourcePos {
                line: spec_u32_of_word(word),
                column: spec_u32_of_word(word / 0x1_0000_0000),
            },
        )
    }
}

/// The flag word and the position word of a source position.
pub fn pos_words(pos: Option<SourcePos>) -> (words: (u64, u64))
    ensures
        words.0 == spec_pos_flag(pos),
        words.1 == spec_pos_word(pos),
        spec_pos_of_words(words.0, words.1) == pos,
{
    match pos {
        Some(pos) => {
            let line: u64 = pos.line as u64;
            let column: u64 = pos.column as u64;
            (1, line + 0x1_0000_0000 * column)
        },
        None => (0, 0),
    }
}

/// The source position that a flag word and a position word stand for.
pub fn pos_of_words(flag: u64, word: u64) -> (pos: Option<SourcePos>)
    ensures
        pos == spec_pos_of_words(flag, word),
{
    if flag == 0 {
        None
    } else {
        Some(SourcePos { line: u32_of_word(word), column: u32_of_word(word / 0x1_0000_0000) })
    }
}

impl Pair {
    /// A pair of two nil pointers, without source positions.
    pub fn new() -> (pair: Pair)
        ensures
            pair.first.spec_ptr().spec_word() == 0,
            pair.second.spec_ptr().spec_word() == 0,
            pair.first_pos is None,
            pair.second_pos is None,
    {
        Pair {
            first: TaggedCellPtr::new_nil(),
            second: TaggedCellPtr::new_nil(),
            first_pos: None,
            second_pos: None,
        }
    }

    /// Makes the second pointer point at `value`.
    pub fn dot<'guard>(&mut self, value: TaggedScopedPtr<'guard>)
        ensures
            final(self).second.spec_ptr() == value.spec_ptr(),
            final(self).first == old(self).first,
            final(self).first_pos == old(self).first_pos,
            final(self).second_pos == old(self).second_pos,
    {
        self.second.set(value);
    }

    /// Records the source position of what the first pointer points at.
    pub fn set_first_source_code_pos(&mut self, pos: SourcePos)
        ensures
            final(self).first_pos == Some(pos),
            final(self).first == old(self).first,
            final(self).second == old(self).second,
            final(self).second_pos == old(self).second_pos,
    {
        self.first_pos = Some(pos);
    }

    /// Records the source position of what the second pointer points at.
    pub fn set_second_source_code_pos(&mut self, pos: SourcePos)
        ensures
            final(self).second_pos == Some(pos),
            final(self).first == old(self).first,
            final(self).second == old(self).second,
            final(self).first_pos == old(self).first_pos,
    {
        self.second_pos = Some(pos);
    }
}

impl AllocObject<TypeList> for Pair {
    open spec fn spec_type_id() -> TypeList {
        TypeList::Pair
    }

    fn type_id() -> (id: TypeList) {
        TypeList::Pair
    }

    open spec fn spec_word_count() -> nat {
        6
    }

    fn word_count() -> (count: usize) {
        6
    }

    open spec fn spec_words(&self) -> Seq<u64> {
        seq![
            self.first.spec_to_word(),
            self.second.spec_to_word(),
            spec_pos_flag(self.first_pos),
            spec_pos_word(self.first_pos),
            spec_pos_flag(self.second_pos),
            spec_pos_word(self.second_pos),
        ]
    }

    fn to_words(&self) -> (words: Vec<u64>) {
        let first_pos = pos_words(self.first_pos);
        let second_pos = pos_words(self.second_pos);
        let mut words: Vec<u64> = Vec::new();
        words.push(self.first.to_word());
        words.push(self.second.to_word());
        words.push(first_pos.0);
        words.push(first_pos.1);
        words.push(second_pos.0);
        words.push(second_pos.1);
        assert(words@ =~= self.spec_words());
        words
    }

    open spec fn spec_from_words(words: Seq<u64>) -> Pair {
        Pair {
            first: TaggedCellPtr::spec_from_word(words[0]),
            second: TaggedCellPtr::spec_from_word(words[1]),
            first_pos: spec_pos_of_words(words[2], words[3]),
            second_pos: spec_pos_of_words(words[4], words[5]),
        }
    }

    fn from_words(words: &[u64]) -> (object: Pair) {
        Pair {
            first: TaggedCellPtr::from_word(words[0]),
            second: TaggedCellPtr::from_word(words[1]),
            first_pos: pos_of_words(words[2], words[3]),
            second_pos: pos_of_words(words[4], words[5]),
        }
    }

    proof fn lemma_words_round_trip(&self) {
        self.first.lemma_word_round_trip();
        self.second.lemma_word_round_trip();
    }
}

/// The pair that the heap holds at address `addr`.
pub open spec fn pair_at(heap: Heap, addr: usize) -> Pair {
    object_of_bytes::<TypeList, Pair>(heap.spec_storage().payload(addr as int))
}

/// The pair that a pointer to a pair points at.
pub open spec fn pair_of(heap: Heap, ptr: TaggedPtr) -> Pair {
    pair_at(heap, addr_of_fat_ptr(heap.unpack(ptr)->0)->0)
}

/// Whether `ptr` points at a pair.
pub open spec fn is_pair(heap: Heap, ptr: TaggedPtr) -> bool {
    heap.unpack(ptr) matches Some(FatPtr::Pair(raw))
}

/// Whether `ptr` is the head of a list of pairs whose first pointers are
/// `items`, in this order, and whose last second pointer is `end`, which
/// points at no pair. With no items, the list is `end` itself.
pub open spec fn is_list(heap: Heap, ptr: TaggedPtr, items: Seq<TaggedPtr>, end: TaggedPtr) -> bool
    decreases items.len(),
{
    &&& heap.valid(ptr)
    &&& if items.len() == 0 {
        ptr == end && !is_pair(heap, ptr)
    } else {
        &&& is_pair(heap, ptr)
        &&& heap.valid(items[0])
        &&& pair_of(heap, ptr).first.spec_ptr() == items[0]
        &&& is_list(heap, pair_of(heap, ptr).second.spec_ptr(), items.drop_first(), end)
    }
}

/// A pointer is the head of at most one list.
pub proof fn lemma_list_is_unique(
    heap: Heap,
    ptr: TaggedPtr,
    items: Seq<TaggedPtr>,
    end: TaggedPtr,
    other_items: Seq<TaggedPtr>,
    other_end: TaggedPtr,
)
    requires
        is_list(heap, ptr, items, end),
        is_list(heap, ptr, other_items, other_end),
    ensures
        items == other_items,
        end == other_end,
    decreases items.len(),
{
    if items.len() > 0 {
        lemma_list_is_unique(
            heap,
            pair_of(heap, ptr).second.spec_ptr(),
            items.drop_first(),
            end,
            other_items.drop_first(),
            other_end,
        );
        assert(items =~= seq![items[0]] + items.drop_first());
        assert(other_items =~= seq![other_items[0]] + other_items.drop_first());
    } else {
        assert(items =~= other_items);
    }
}

/// The head of a list is a pointer into the memory.
pub proof fn lemma_list_head_is_valid(
    heap: Heap,
    ptr: TaggedPtr,
    items: Seq<TaggedPtr>,
    end: TaggedPtr,
)
    requires
        is_list(heap, ptr, items, end),
    ensures
        heap.valid(ptr),
{
}

/// A list stays a list, with the same items, when the memory grows and
/// the objects that were there keep their bytes.
pub proof fn lemma_list_is_stable(
    before: Heap,
    after: Heap,
    ptr: TaggedPtr,
    items: Seq<TaggedPtr>,
    end: TaggedPtr,
)
    requires
        before.wf(),
        after.wf(),
        after.extends(before),
        forall|other: int|
            before.spec_storage().holds(other) ==> #[trigger] after.spec_storage().payload(other)
                == before.spec_storage().payload(other),
        is_list(before, ptr, items, end),
    ensures
        is_list(after, ptr, items, end),
    decreases items.len(),
{
    lemma_extends_keeps_valid(before, after, ptr);
    if items.len() > 0 {
        lemma_extends_keeps_valid(before, after, items[0]);
        lemma_pair_is_held(before, ptr);
        lemma_list_is_stable(
            before,
            after,
            pair_of(before, ptr).second.spec_ptr(),
            items.drop_first(),
            end,
        );
    }
}

/// A list stays a list, with the same items, when the memory grows and
/// the objects that were there keep their bytes, but for one that is not a
/// pair.
pub proof fn lemma_list_is_stable_beside(
    before: Heap,
    after: Heap,
    ptr: TaggedPtr,
    items: Seq<TaggedPtr>,
    end: TaggedPtr,
    changed: int,
)
    requires
        before.wf(),
        after.wf(),
        after.extends(before),
        forall|other: int|
            before.spec_storage().holds(other) && other != changed
                ==> #[trigger] after.spec_storage().payload(other)
                == before.spec_storage().payload(other),
        before.spec_storage().holds(changed) ==> before.spec_storage().spec_objects()[changed].0.spec_type_id()
            != TypeList::Pair,
        is_list(before, ptr, items, end),
    ensures
        is_list(after, ptr, items, end),
    decreases items.len(),
{
    lemma_extends_keeps_valid(before, after, ptr);
    if items.len() > 0 {
        lemma_extends_keeps_valid(before, after, items[0]);
        lemma_pair_is_held(before, ptr);
        lemma_list_is_stable_beside(
            before,
            after,
            pair_of(before, ptr).second.spec_ptr(),
            items.drop_first(),
            end,
            changed,
        );
    }
}

/// A pair whose second pointer is the head of a list is the head of the
/// list with the first pointer of the pair in front.
pub proof fn lemma_cons_is_list(
    heap: Heap,
    ptr: TaggedPtr,
    items: Seq<TaggedPtr>,
    end: TaggedPtr,
)
    requires
        heap.valid(ptr),
        is_pair(heap, ptr),
        heap.valid(pair_of(heap, ptr).first.spec_ptr()),
        is_list(heap, pair_of(heap, ptr).second.spec_ptr(), items, end),
    ensures
        is_list(heap, ptr, seq![pair_of(heap, ptr).first.spec_ptr()] + items, end),
{
    let all = seq![pair_of(heap, ptr).first.spec_ptr()] + items;
    assert(all.drop_first() =~= items);
}

/// The tagged pointers of a row of scoped pointers.
pub open spec fn ptrs_of(values: Seq<TaggedScopedPtr>) -> Seq<TaggedPtr> {
    values.map_values(|v: TaggedScopedPtr| v.spec_ptr())
}

/// A pointer into the memory that points at a pair points at one that the
/// heap holds.
pub proof fn lemma_pair_is_held(heap: Heap, ptr: TaggedPtr)
    requires
        heap.valid(ptr),
        is_pair(heap, ptr),
    ensures
        heap.unpack(ptr) matches Some(FatPtr::Pair(raw)) && heap.spec_storage().holds_a(raw),
{
}

impl Pair {
    /// Makes the second pointer of this pair point at a new pair in the
    /// heap, whose first pointer points at `value`, and returns a pointer to
    /// the new pair. This pair is not written back to where it came from.
    pub fn append<'guard>(
        &mut self,
        mem: &mut MutatorView<'guard>,
        value: TaggedScopedPtr<'guard>,
    ) -> (r: Result<TaggedScopedPtr<'guard>, RuntimeError>)
        ensures
            final(mem).extends(*old(mem)),
            final(mem).spec_heap().spec_syms() == old(mem).spec_heap().spec_syms(),
            final(self).first == old(self).first,
            final(self).first_pos == old(self).first_pos,
            final(self).second_pos == old(self).second_pos,
            forall|other: int|
                old(mem).spec_heap().spec_storage().holds(other) ==> #[trigger] final(mem).spec_heap().spec_storage().payload(other) == old(mem).spec_heap().spec_storage().payload(other),
            match r {
                Ok(ptr) => {
                    &&& final(mem).holds(ptr)
                    &&& final(self).second.spec_ptr() == ptr.spec_ptr()
                    &&& is_pair(final(mem).spec_heap(), ptr.spec_ptr())
                    &&& !old(mem).spec_heap().spec_storage().holds(
                        addr_of_fat_ptr(ptr.spec_value().spec_fat_ptr())->0 as int,
                    )
                    &&& pair_of(final(mem).spec_heap(), ptr.spec_ptr()).first.spec_ptr()
                        == value.spec_ptr()
                    &&& pair_of(final(mem).spec_heap(), ptr.spec_ptr()).second.spec_ptr().spec_word()
                        == 0
                    &&& pair_of(final(mem).spec_heap(), ptr.spec_ptr()).first_pos is None
                    &&& pair_of(final(mem).spec_heap(), ptr.spec_ptr()).second_pos is None
                },
                Err(e) => {
                    &&& old(mem).spec_heap().spec_storage().alloc_outcome(
                        object_size::<TypeList, Pair>(),
                    ) matches Err(error) && e.spec_kind() == kind_of_alloc_error(error)
                    &&& e.spec_pos() is None
                    &&& final(self).second == old(self).second
                },
            },
    {
        let mut pair = Pair::new();
        pair.first.set(value);
        proof {
            lemma_object_bytes_round_trip::<TypeList, Pair>(pair);
        }
        let pair = mem.alloc_tagged(pair)?;
        self.second.set(pair);
        Ok(pair)
    }
}

/// Links `head` and `rest` into a new pair in the heap.
pub fn cons<'guard>(
    mem: &mut MutatorView<'guard>,
    head: TaggedScopedPtr<'guard>,
    rest: TaggedScopedPtr<'guard>,
) -> (r: Result<TaggedScopedPtr<'guard>, RuntimeError>)
    ensures
        final(mem).extends(*old(mem)),
        final(mem).spec_heap().spec_syms() == old(mem).spec_heap().spec_syms(),
        forall|other: int|
            old(mem).spec_heap().spec_storage().holds(other) ==> #[trigger] final(mem).spec_heap().spec_storage().payload(other) == old(mem).spec_heap().spec_storage().payload(other),
        match r {
            Ok(ptr) => {
                &&& final(mem).holds(ptr)
                &&& is_pair(final(mem).spec_heap(), ptr.spec_ptr())
                &&& !old(mem).spec_heap().spec_storage().holds(
                    addr_of_fat_ptr(ptr.spec_value().spec_fat_ptr())->0 as int,
                )
                &&& pair_of(final(mem).spec_heap(), ptr.spec_ptr()).first.spec_ptr()
                    == head.spec_ptr()
                &&& pair_of(final(mem).spec_heap(), ptr.spec_ptr()).second.spec_ptr()
                    == rest.spec_ptr()
            },
            Err(e) => {
                &&& old(mem).spec_heap().spec_storage().alloc_outcome(
                    object_size::<TypeList, Pair>(),
                ) matches Err(error) && e.spec_kind() == kind_of_alloc_error(error)
                &&& e.spec_pos() is None
            },
        },
{
    let mut pair = Pair::new();
    pair.first.set(head);
    pair.second.set(rest);
    proof {
        lemma_object_bytes_round_trip::<TypeList, Pair>(pair);
    }
    mem.alloc_tagged(pair)
}

/// The message of the error for a list that does not end in nil.
pub open spec fn bad_end_message(items: Seq<TaggedPtr>) -> Seq<char> {
    if items.len() == 0 {
        "Expected a Pair"@
    } else {
        "Incorrectly terminated Pair list"@
    }
}

/// Whether `ptr` is the head of a list that ends in nil and whose items are
/// `items`.
pub open spec fn unpacks_to(heap: Heap, ptr: TaggedPtr, items: Seq<TaggedPtr>) -> bool {
    exists|end: TaggedPtr| end.spec_word() == 0 && is_list(heap, ptr, items, end)
}

/// Whether `ptr` is the head of a list that does not end in nil, and `e` is
/// the error that says so.
pub open spec fn ends_badly(heap: Heap, ptr: TaggedPtr, e: RuntimeError) -> bool {
    &&& exists|items: Seq<TaggedPtr>, end: TaggedPtr|
        is_list(heap, ptr, items, end) && end.spec_word() != 0 && (e.spec_kind() matches ErrorKind::EvalError(
            text,
        ) && text@ == bad_end_message(items))
    &&& e.spec_pos() is None
}

/// The message of the error for a list of `found` items where `expected`
/// were expected.
pub open spec fn count_message(found: nat, expected: nat) -> Seq<char> {
    "Pair list has "@ + decimal(found) + " items, expected "@ + decimal(expected)
}

/// Whether `ptr` is the head of a list that ends in nil and does not have
/// `expected` items, and `e` is the error that says so.
pub open spec fn miscounts(heap: Heap, ptr: TaggedPtr, expected: nat, e: RuntimeError) -> bool {
    &&& exists|items: Seq<TaggedPtr>|
        unpacks_to(heap, ptr, items) && items.len() != expected && (e.spec_kind() matches ErrorKind::EvalError(
            text,
        ) && text@ == count_message(items.len(), expected))
    &&& e.spec_pos() is None
}

/// The error for a list of `found` items where `expected` were expected.
pub fn count_error(found: usize, expected: usize) -> (e: RuntimeError)
    ensures
        e.spec_kind() matches ErrorKind::EvalError(text) && text@ == count_message(
            found as nat,
            expected as nat,
        ),
        e.spec_pos() is None,
{
    let mut text = String::new();
    push_text(&mut text, "Pair list has ");
    push_decimal(&mut text, found);
    push_text(&mut text, " items, expected ");
    push_decimal(&mut text, expected);
    assert(text@ =~= count_message(found as nat, expected as nat));
    err_eval(text.as_str())
}

/// Unpacks a list of pairs into a vector of the first pointers of the
/// pairs. The list must end in nil; nil alone is the empty list.
pub fn vec_from_pairs<'guard>(mem: &MutatorView<'guard>, pair_list: TaggedScopedPtr<'guard>) -> (r:
    Result<Vec<TaggedScopedPtr<'guard>>, RuntimeError>)
    requires
        mem.holds(pair_list),
        exists|items: Seq<TaggedPtr>, end: TaggedPtr|
            is_list(mem.spec_heap(), pair_list.spec_ptr(), items, end),
    ensures
        match r {
            Ok(values) => {
                &&& unpacks_to(mem.spec_heap(), pair_list.spec_ptr(), ptrs_of(values@))
                &&& forall|i: int| 0 <= i < values@.len() ==> mem.holds(#[trigger] values@[i])
            },
            Err(e) => ends_badly(mem.spec_heap(), pair_list.spec_ptr(), e),
        },
{
    proof {
        use_type_invariant(mem);
    }
    let ghost heap = mem.spec_heap();
    let ghost (items, end) = choose|items: Seq<TaggedPtr>, end: TaggedPtr|
        is_list(heap, pair_list.spec_ptr(), items, end);
    let mut result: Vec<TaggedScopedPtr<'guard>> = Vec::new();
    let mut next = pair_list;
    assert(items.subrange(0, items.len() as int) =~= items);
    assert(ptrs_of(result@) =~= items.subrange(0, 0));
    loop
        invariant
            heap == mem.spec_heap(),
            heap.wf(),
            mem.holds(next),
            result@.len() <= items.len(),
            is_list(heap, pair_list.spec_ptr(), items, end),
            is_list(
                heap,
                next.spec_ptr(),
                items.subrange(result@.len() as int, items.len() as int),
                end,
            ),
            ptrs_of(result@) == items.subrange(0, result@.len() as int),
            forall|i: int| 0 <= i < result@.len() ==> mem.holds(#[trigger] result@[i]),
        decreases items.len() - result@.len(),
    {
        let ghost rest = items.subrange(result@.len() as int, items.len() as int);
        match next.value() {
            Value::Pair(pair_ptr) => {
                let pair = mem.get(pair_ptr);
                proof {
                    lemma_list_head_is_valid(heap, pair.second.spec_ptr(), rest.drop_first(), end);
                }
                let first = pair.first.get(mem);
                let second = pair.second.get(mem);
                proof {
                    let count = result@.len() as int;
                    assert(rest.drop_first() =~= items.subrange(count + 1, items.len() as int));
                    assert(ptrs_of(result@.push(first)) =~= items.subrange(0, count + 1));
                }
                result.push(first);
                next = second;
            },
            Value::Nil => {
                proof {
                    assert(rest.len() == 0);
                    assert(ptrs_of(result@) =~= items);
                }
                return Ok(result);
            },
            _ => {
                proof {
                    assert(rest.len() == 0);
                    assert(result@.len() == items.len());
                }
                if result.len() == 0 {
                    return Err(err_eval("Expected a Pair"));
                } else {
                    return Err(err_eval("Incorrectly terminated Pair list"));
                }
            },
        }
    }
}

/// Unpacks a list of pairs that must have `expect_length` items.
pub fn vec_from_n_pairs<'guard>(
    mem: &MutatorView<'guard>,
    pair_list: TaggedScopedPtr<'guard>,
    expect_length: usize,
) -> (r: Result<Vec<TaggedScopedPtr<'guard>>, RuntimeError>)
    requires
        mem.holds(pair_list),
        exists|items: Seq<TaggedPtr>, end: TaggedPtr|
            is_list(mem.spec_heap(), pair_list.spec_ptr(), items, end),
    ensures
        match r {
            Ok(values) => {
                &&& unpacks_to(mem.spec_heap(), pair_list.spec_ptr(), ptrs_of(values@))
                &&& values@.len() == expect_length
                &&& forall|i: int| 0 <= i < values@.len() ==> mem.holds(#[trigger] values@[i])
            },
            Err(e) => ends_badly(mem.spec_heap(), pair_list.spec_ptr(), e) || miscounts(
                mem.spec_heap(),
                pair_list.spec_ptr(),
                expect_length as nat,
                e,
            ),
        },
{
    let result = match vec_from_pairs(mem, pair_list) {
        Ok(result) => result,
        Err(e) => { return Err(e); },
    };
    if result.len() != expect_length {
        let e = count_error(result.len(), expect_length);
        assert(miscounts(mem.spec_heap(), pair_list.spec_ptr(), expect_length as nat, e)) by {
            assert(unpacks_to(mem.spec_heap(), pair_list.spec_ptr(), ptrs_of(result@)));
        }
        return Err(e);
    }
    Ok(result)
}

/// Unpacks a list of pairs that must have one item.
pub fn value_from_1_pair<'guard>(mem: &MutatorView<'guard>, pair_list: TaggedScopedPtr<'guard>) -> (r:
    Result<TaggedScopedPtr<'guard>, RuntimeError>)
    requires
        mem.holds(pair_list),
        exists|items: Seq<TaggedPtr>, end: TaggedPtr|
            is_list(mem.spec_heap(), pair_list.spec_ptr(), items, end),
    ensures
        match r {
            Ok(first) => {
                &&& unpacks_to(mem.spec_heap(), pair_list.spec_ptr(), seq![first.spec_ptr()])
                &&& mem.holds(first)
            },
            Err(e) => ends_badly(mem.spec_heap(), pair_list.spec_ptr(), e) || miscounts(
                mem.spec_heap(),
                pair_list.spec_ptr(),
                1,
                e,
            ),
        },
{
    let result = vec_from_n_pairs(mem, pair_list, 1)?;
    assert(ptrs_of(result@) =~= seq![result@[0].spec_ptr()]);
    Ok(result[0])
}

/// Unpacks a list of pairs that must have two items.
pub fn values_from_2_pairs<'guard>(
    mem: &MutatorView<'guard>,
    pair_list: TaggedScopedPtr<'guard>,
) -> (r: Result<(TaggedScopedPtr<'guard>, TaggedScopedPtr<'guard>), RuntimeError>)
    requires
        mem.holds(pair_list),
        exists|items: Seq<TaggedPtr>, end: TaggedPtr|
            is_list(mem.spec_heap(), pair_list.spec_ptr(), items, end),
    ensures
        match r {
            Ok((first, second)) => {
                &&& unpacks_to(
                    mem.spec_heap(),
                    pair_list.spec_ptr(),
                    seq![first.spec_ptr(), second.spec_ptr()],
                )
                &&& mem.holds(first)
                &&& mem.holds(second)
            },
            Err(e) => ends_badly(mem.spec_heap(), pair_list.spec_ptr(), e) || miscounts(
                mem.spec_heap(),
                pair_list.spec_ptr(),
                2,
                e,
            ),
        },
{
    let result = vec_from_n_pairs(mem, pair_list, 2)?;
    assert(ptrs_of(result@) =~= seq![result@[0].spec_ptr(), result@[1].spec_ptr()]);
    Ok((result[0], result[1]))
}

/// Unpacks a list of pairs that must have three items.
pub fn values_from_3_pairs<'guard>(
    mem: &MutatorView<'guard>,
    pair_list: TaggedScopedPtr<'guard>,
) -> (r: Result<
    (TaggedScopedPtr<'guard>, TaggedScopedPtr<'guard>, TaggedScopedPtr<'guard>),
    RuntimeError,
>)
    requires
        mem.holds(pair_list),
        exists|items: Seq<TaggedPtr>, end: TaggedPtr|
            is_list(mem.spec_heap(), pair_list.spec_ptr(), items, end),
    ensures
        match r {
            Ok((first, second, third)) => {
                &&& unpacks_to(
                    mem.spec_heap(),
                    pair_list.spec_ptr(),
                    seq![first.spec_ptr(), second.spec_ptr(), third.spec_ptr()],
                )
                &&& mem.holds(first)
                &&& mem.holds(second)
                &&& mem.holds(third)
            },
            Err(e) => ends_badly(mem.spec_heap(), pair_list.spec_ptr(), e) || miscounts(
                mem.spec_heap(),
                pair_list.spec_ptr(),
                3,
                e,
            ),
        },
{
    let result = vec_from_n_pairs(mem, pair_list, 3)?;
    assert(ptrs_of(result@) =~= seq![
        result@[0].spec_ptr(),
        result@[1].spec_ptr(),
        result@[2].spec_ptr(),
    ]);
    Ok((result[0], result[1], result[2]))
}

} // verus!
