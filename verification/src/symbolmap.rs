//! Interning of symbol names: one symbol for each name, for good.

use vstd::prelude::*;
use vstd::string::StringSliceAdditionalSpecFns;
use vstd::utf8::encode_utf8;
use crate::allocator::{
    lemma_object_bytes_round_trip, object_bytes, AllocError, AllocObject, ArraySize,
};
use crate::arena::{Arena, ArenaHeader};
use crate::heap::StickyImmixHeap;
use crate::headers::TypeList;
use crate::layout::{decode_words, encode_words};
use crate::rawptr::RawPtr;
use crate::strings::string_from_bytes;
use crate::symbol::Symbol;

verus! {

/// The bytes that the record of a symbol takes, in front of its name.
pub const SYMBOL_BYTES: usize = 16;

/// The index of the first item of `items` that is `item`, or the length of
/// `items` if there is none.
pub open spec fn first_index<A>(items: Seq<A>, item: A) -> int
    decreases items.len(),
{
    if items.len() == 0 {
        0
    } else if items[0] == item {
        0
    } else {
        1 + first_index(items.drop_first(), item)
    }
}

/// The first index of an item lies within the sequence, or just behind it;
/// the item stands there, and nowhere before.
pub proof fn lemma_first_index<A>(items: Seq<A>, item: A)
    ensures
        0 <= first_index(items, item) <= items.len(),
        first_index(items, item) < items.len() ==> items[first_index(items, item)] == item,
        forall|k: int| 0 <= k < first_index(items, item) ==> items[k] != item,
    decreases items.len(),
{
    if items.len() > 0 && items[0] != item {
        let rest = items.drop_first();
        lemma_first_index(rest, item);
        assert forall|k: int| 0 <= k < first_index(items, item) implies items[k] != item by {
            if k > 0 {
                assert(items[k] == rest[k - 1]);
            }
        }
    }
}

/// The bytes that stand for a symbol and its name in the arena, where the
/// symbol lies at address `at`: the record of the symbol, which points at
/// the byte behind itself, and the bytes of the name.
pub open spec fn symbol_bytes(at: int, name: Seq<u8>) -> Seq<u8> {
    object_bytes::<TypeList, Symbol>(
        Symbol::spec_of((at + SYMBOL_BYTES) as usize, name.len() as usize),
    ) + name
}

/// A name and the symbol that stands for it.
pub struct SymbolEntry {
    name: String,
    ptr: RawPtr<Symbol>,
}

/// The symbols made so far and their names. A symbol lies in the arena of
/// the map, with a copy of its name behind it, and is never removed or
/// changed.
pub struct SymbolMap {
    map: Vec<SymbolEntry>,
    arena: Arena,
}

impl SymbolMap {
    /// The names, in the order in which their symbols were made.
    pub closed spec fn spec_names(&self) -> Seq<Seq<char>> {
        Seq::new(self.map@.len(), |i: int| self.map@[i].name@)
    }

    /// The addresses of the symbols, in the order in which they were made.
    pub closed spec fn spec_ptrs(&self) -> Seq<usize> {
        Seq::new(self.map@.len(), |i: int| self.map@[i].ptr.spec_word())
    }

    /// The arena that holds the symbols.
    pub closed spec fn spec_arena(&self) -> Arena {
        self.arena
    }

    /// The symbol at index `i` lies in the arena with its name behind it.
    pub open spec fn entry_ok(&self, i: int) -> bool {
        let heap = self.spec_arena().spec_heap();
        let at = self.spec_ptrs()[i] as int;
        let name = encode_utf8(self.spec_names()[i]);
        &&& heap.holds(at)
        &&& heap.spec_objects()[at].1 == SYMBOL_BYTES + name.len()
        &&& heap.payload(at) == symbol_bytes(at, name)
    }

    /// The arena is well-formed, every symbol lies in it with its name, and
    /// no name and no symbol occurs twice.
    pub open spec fn wf(&self) -> bool {
        &&& self.spec_arena().wf()
        &&& self.spec_names().len() == self.spec_ptrs().len()
        &&& forall|i: int| 0 <= i < self.spec_names().len() ==> #[trigger] self.entry_ok(i)
        &&& forall|i: int, j: int|
            0 <= i < j < self.spec_names().len() ==> #[trigger] self.spec_names()[i]
                != #[trigger] self.spec_names()[j]
        &&& forall|i: int, j: int|
            0 <= i < j < self.spec_ptrs().len() ==> #[trigger] self.spec_ptrs()[i]
                != #[trigger] self.spec_ptrs()[j]
    }

    /// The address of the symbol that stands for `name`, if there is one.
    pub open spec fn spec_lookup(&self, name: Seq<char>) -> Option<usize> {
        let i = first_index(self.spec_names(), name);
        if i < self.spec_names().len() {
            Some(self.spec_ptrs()[i])
        } else {
            None
        }
    }

    /// The name of the symbol at address `ptr`, if there is a symbol.
    pub open spec fn spec_name_of(&self, ptr: usize) -> Option<Seq<char>> {
        let i = first_index(self.spec_ptrs(), ptr);
        if i < self.spec_ptrs().len() {
            Some(self.spec_names()[i])
        } else {
            None
        }
    }

    /// What the making of a symbol for `name` ends in: the address of the
    /// new symbol, or the error of the arena.
    pub open spec fn intern_outcome(&self, name: Seq<char>) -> Result<int, AllocError> {
        self.spec_arena().spec_heap().alloc_outcome(SYMBOL_BYTES as nat + encode_utf8(name).len())
    }

    /// `self` has every symbol of `before`, each with its name and at its
    /// address.
    pub open spec fn extends(&self, before: SymbolMap) -> bool {
        &&& before.spec_names().len() <= self.spec_names().len()
        &&& self.spec_names().subrange(0, before.spec_names().len() as int)
            == before.spec_names()
        &&& self.spec_ptrs().subrange(0, before.spec_ptrs().len() as int) == before.spec_ptrs()
    }

    /// Every symbol lies at a non-null address that is a multiple of the
    /// allocation alignment, so that a tag fits into its lowest bits.
    pub proof fn lemma_symbols_are_aligned(&self, ptr: usize)
        requires
            self.wf(),
            self.spec_name_of(ptr) is Some,
        ensures
            ptr != 0,
            ptr % 4 == 0,
    {
        let heap = self.spec_arena().spec_heap();
        assert(heap.wf() && heap.holds(ptr as int)) by {
            lemma_first_index(self.spec_ptrs(), ptr);
            let i = first_index(self.spec_ptrs(), ptr);
            assert(self.entry_ok(i));
        }
        assert(ptr >= crate::constants::BLOCK_SIZE && ptr as int % 16 == 0) by {
            lemma_held_in_arena_is_aligned(heap, ptr as int);
        }
    }

    /// A map without symbols.
    pub fn new() -> (map: SymbolMap)
        ensures
            map.wf(),
            map.spec_names().len() == 0,
    {
        SymbolMap { map: Vec::new(), arena: Arena::new() }
    }

    /// The symbol that stands for `name`: the one made for it before, or a
    /// new one, if the arena has room for it.
    pub fn lookup(&mut self, name: &str) -> (r: Result<RawPtr<Symbol>, AllocError>)
        requires
            old(self).wf(),
        ensures
            final(self).wf(),
            final(self).extends(*old(self)),
            match r {
                Ok(ptr) => {
                    &&& final(self).spec_lookup(name@) == Some(ptr.spec_word())
                    &&& match old(self).spec_lookup(name@) {
                        Some(found) => {
                            &&& ptr.spec_word() == found
                            &&& final(self).spec_names() == old(self).spec_names()
                            &&& final(self).spec_ptrs() == old(self).spec_ptrs()
                        },
                        None => {
                            &&& old(self).intern_outcome(name@) == Ok::<int, AllocError>(
                                ptr.spec_word() as int,
                            )
                            &&& final(self).spec_names() == old(self).spec_names().push(name@)
                            &&& final(self).spec_ptrs() == old(self).spec_ptrs().push(
                                ptr.spec_word(),
                            )
                        },
                    }
                },
                Err(e) => {
                    &&& old(self).spec_lookup(name@) is None
                    &&& old(self).intern_outcome(name@) == Err::<int, AllocError>(e)
                    &&& final(self).spec_names() == old(self).spec_names()
                    &&& final(self).spec_ptrs() == old(self).spec_ptrs()
                },
            },
    {
        let key = name.to_owned();
        let mut i: usize = 0;
        proof {
            lemma_first_index(self.spec_names(), name@);
        }
        while i < self.map.len()
            invariant
                *self == *old(self),
                self.wf(),
                i <= self.map@.len(),
                key@ == name@,
                forall|k: int| 0 <= k < i ==> self.spec_names()[k] != name@,
            decreases self.map@.len() - i,
        {
            if self.map[i].name == key {
                proof {
                    lemma_first_index(self.spec_names(), name@);
                    assert(self.spec_names()[i as int] == name@);
                    assert(self.spec_names().subrange(0, self.spec_names().len() as int)
                        =~= self.spec_names());
                    assert(self.spec_ptrs().subrange(0, self.spec_ptrs().len() as int)
                        =~= self.spec_ptrs());
                }
                return Ok(self.map[i].ptr);
            }
            i = i + 1;
        }
        proof {
            lemma_first_index(old(self).spec_names(), name@);
            assert(old(self).spec_lookup(name@) is None);
        }
        let bytes = name.as_bytes();
        let len: usize = bytes.len();
        if len > (ArraySize::MAX as usize) - SYMBOL_BYTES {
            proof {
                assert(self.spec_names().subrange(0, self.spec_names().len() as int)
                    =~= self.spec_names());
                assert(self.spec_ptrs().subrange(0, self.spec_ptrs().len() as int)
                    =~= self.spec_ptrs());
            }
            return Err(AllocError::BadRequest);
        }
        let ghost before = self.arena.spec_heap();
        let space = match self.arena.alloc_array((SYMBOL_BYTES + len) as ArraySize) {
            Ok(space) => space,
            Err(e) => {
                proof {
                    assert(self.spec_names().subrange(0, self.spec_names().len() as int)
                        =~= self.spec_names());
                    assert(self.spec_ptrs().subrange(0, self.spec_ptrs().len() as int)
                        =~= self.spec_ptrs());
                    assert forall|k: int| 0 <= k < self.spec_names().len() implies #[trigger] self.entry_ok(k) by {
                        assert(old(self).entry_ok(k));
                        before.lemma_unchanged_keeps_payloads(self.arena.spec_heap());
                    }
                }
                return Err(e);
            },
        };
        let ghost zeroed = self.arena.spec_heap();
        let at: usize = space.as_word();
        proof {
            before.lemma_allocated_keeps_payloads(
                zeroed,
                at as int,
                ArenaHeader {  },
                Seq::new((SYMBOL_BYTES + len) as nat, |i: int| 0u8),
            );
            zeroed.lemma_object_region(at as int);
        }
        let symbol = Symbol::new(RawPtr::new(at + SYMBOL_BYTES), len);
        let words = symbol.to_words();
        let record = encode_words(words.as_slice());
        self.arena.write_bytes(space, 0, record.as_slice());
        self.arena.write_bytes(space, SYMBOL_BYTES, bytes);
        let ptr: RawPtr<Symbol> = RawPtr::new(at);
        self.map.push(SymbolEntry { name: key, ptr });
        proof {
            let heap = self.arena.spec_heap();
            let count = old(self).spec_names().len() as int;
            assert(self.spec_names() =~= old(self).spec_names().push(name@));
            assert(self.spec_ptrs() =~= old(self).spec_ptrs().push(at));
            assert(self.spec_names().subrange(0, count) =~= old(self).spec_names());
            assert(self.spec_ptrs().subrange(0, count) =~= old(self).spec_ptrs());
            assert(heap.payload(at as int) =~= symbol_bytes(at as int, bytes@));
            assert forall|k: int| 0 <= k < self.spec_names().len() implies #[trigger] self.entry_ok(
                k,
            ) by {
                if k < count {
                    assert(old(self).entry_ok(k));
                    assert(self.spec_ptrs()[k] == old(self).spec_ptrs()[k]);
                    assert(self.spec_names()[k] == old(self).spec_names()[k]);
                }
            }
            assert forall|k: int, j: int| 0 <= k < j < self.spec_ptrs().len() implies (
            #[trigger] self.spec_ptrs()[k]) != (#[trigger] self.spec_ptrs()[j]) by {
                if j == count {
                    assert(old(self).entry_ok(k));
                    assert(self.spec_ptrs()[k] == old(self).spec_ptrs()[k]);
                } else {
                    assert(self.spec_ptrs()[k] == old(self).spec_ptrs()[k]);
                    assert(self.spec_ptrs()[j] == old(self).spec_ptrs()[j]);
                }
            }
            assert forall|k: int, j: int| 0 <= k < j < self.spec_names().len() implies (
            #[trigger] self.spec_names()[k]) != (#[trigger] self.spec_names()[j]) by {
                assert(self.spec_names()[k] == old(self).spec_names()[k]);
                if j < count {
                    assert(self.spec_names()[j] == old(self).spec_names()[j]);
                }
            }
            lemma_first_index(self.spec_names(), name@);
            assert(self.spec_names()[count] == name@);
            assert forall|k: int| 0 <= k < count implies self.spec_names()[k] != name@ by {
                assert(self.spec_names()[k] == old(self).spec_names()[k]);
            }
            assert(first_index(self.spec_names(), name@) == count);
            assert(self.spec_ptrs()[count] == at);
            assert(bytes@ == encode_utf8(name@));
        }
        Ok(ptr)
    }

    /// The name of the symbol that `ptr` points at, read from the arena.
    pub fn name_of(&self, ptr: RawPtr<Symbol>) -> (name: String)
        requires
            self.wf(),
            self.spec_name_of(ptr.spec_word()) is Some,
        ensures
            Some(name@) == self.spec_name_of(ptr.spec_word()),
    {
        let at: usize = ptr.as_word();
        let space: RawPtr<u8> = RawPtr::new(at);
        proof {
            lemma_first_index(self.spec_ptrs(), at);
            let i = first_index(self.spec_ptrs(), at);
            assert(self.entry_ok(i));
            let name = encode_utf8(self.spec_names()[i]);
            self.spec_arena().spec_heap().lemma_object_region(at as int);
            let symbol = Symbol::spec_of((at + SYMBOL_BYTES) as usize, name.len() as usize);
            Symbol::lemma_spec_of((at + SYMBOL_BYTES) as usize, name.len() as usize);
            lemma_object_bytes_round_trip::<TypeList, Symbol>(symbol);
            assert(symbol_bytes(at as int, name).subrange(0, SYMBOL_BYTES as int)
                =~= object_bytes::<TypeList, Symbol>(symbol));
            assert(symbol_bytes(at as int, name).subrange(
                SYMBOL_BYTES as int,
                SYMBOL_BYTES + name.len(),
            ) =~= name);
            vstd::utf8::encode_utf8_valid_utf8(self.spec_names()[i]);
            vstd::utf8::encode_utf8_decode_utf8(self.spec_names()[i]);
        }
        let record = self.arena.read_bytes(space, 0, SYMBOL_BYTES);
        let words = decode_words(record.as_slice(), 2);
        let symbol = Symbol::from_words(words.as_slice());
        let bytes = self.arena.read_bytes(space, SYMBOL_BYTES, symbol.name_len());
        string_from_bytes(bytes.as_slice())
    }
}

/// Two names have the same symbol if and only if they are the same name.
pub proof fn lemma_symbols_are_unique(map: SymbolMap, name: Seq<char>, other: Seq<char>)
    requires
        map.wf(),
        map.spec_lookup(name) is Some,
        map.spec_lookup(other) is Some,
    ensures
        map.spec_lookup(name) == map.spec_lookup(other) <==> name == other,
{
    lemma_first_index(map.spec_names(), name);
    lemma_first_index(map.spec_names(), other);
    let i = first_index(map.spec_names(), name);
    let j = first_index(map.spec_names(), other);
    if i < j {
        assert(map.spec_ptrs()[i] != map.spec_ptrs()[j]);
    } else if j < i {
        assert(map.spec_ptrs()[j] != map.spec_ptrs()[i]);
    }
}

/// A name keeps its symbol for good: whatever symbols are made later, a
/// lookup of the name gives the same address.
pub proof fn lemma_symbol_is_stable(before: SymbolMap, after: SymbolMap, name: Seq<char>)
    requires
        before.wf(),
        after.wf(),
        after.extends(before),
        before.spec_lookup(name) is Some,
    ensures
        after.spec_lookup(name) == before.spec_lookup(name),
{
    lemma_first_index(before.spec_names(), name);
    lemma_first_index(after.spec_names(), name);
    let i = first_index(before.spec_names(), name);
    let j = first_index(after.spec_names(), name);
    let count = before.spec_names().len() as int;
    assert(after.spec_names().subrange(0, count)[i] == after.spec_names()[i]);
    assert(after.spec_ptrs().subrange(0, count)[i] == after.spec_ptrs()[i]);
    if j < i {
        assert(after.spec_names().subrange(0, count)[j] == after.spec_names()[j]);
    } else if i < j {
        assert(after.spec_names()[i] == name);
    }
}

/// An object of an arena lies at a non-null address that is a multiple of
/// the allocation alignment.
pub proof fn lemma_held_in_arena_is_aligned(heap: StickyImmixHeap<ArenaHeader>, at: int)
    requires
        heap.wf(),
        heap.holds(at),
    ensures
        at >= crate::constants::BLOCK_SIZE,
        at % 16 == 0,
{
    heap.lemma_object_region(at);
    heap.lemma_objects_are_aligned(at);
    assert(heap.object_ok(at));
    assert(heap.spec_blocks().mapped(at));
    heap.spec_blocks().lemma_no_block_at_null(at);
}

/// A map extends itself.
pub proof fn lemma_extends_itself(map: SymbolMap)
    ensures
        map.extends(map),
{
    assert(map.spec_names().subrange(0, map.spec_names().len() as int) =~= map.spec_names());
    assert(map.spec_ptrs().subrange(0, map.spec_ptrs().len() as int) =~= map.spec_ptrs());
}

/// A map that extends one that extends a third extends the third.
pub proof fn lemma_extends_chain(first: SymbolMap, second: SymbolMap, third: SymbolMap)
    requires
        second.extends(first),
        third.extends(second),
    ensures
        third.extends(first),
{
    let count = first.spec_names().len() as int;
    let middle = second.spec_names().len() as int;
    assert(third.spec_names().subrange(0, count) =~= third.spec_names().subrange(
        0,
        middle,
    ).subrange(0, count));
    assert(third.spec_ptrs().subrange(0, count) =~= third.spec_ptrs().subrange(0, middle).subrange(
        0,
        count,
    ));
}

/// A symbol keeps its name for good.
pub proof fn lemma_name_is_stable(before: SymbolMap, after: SymbolMap, ptr: usize)
    requires
        before.wf(),
        after.wf(),
        after.extends(before),
        before.spec_name_of(ptr) is Some,
    ensures
        after.spec_name_of(ptr) == before.spec_name_of(ptr),
{
    lemma_first_index(before.spec_ptrs(), ptr);
    lemma_first_index(after.spec_ptrs(), ptr);
    let i = first_index(before.spec_ptrs(), ptr);
    let j = first_index(after.spec_ptrs(), ptr);
    let count = before.spec_ptrs().len() as int;
    assert(after.spec_ptrs().subrange(0, count)[i] == after.spec_ptrs()[i]);
    assert(after.spec_names().subrange(0, count)[i] == after.spec_names()[i]);
    if j < i {
        assert(after.spec_ptrs().subrange(0, count)[j] == after.spec_ptrs()[j]);
    } else if i < j {
        assert(after.spec_ptrs()[i] == ptr);
    }
}

/// The symbol of a name has that name, and the name of a symbol has that
/// symbol.
pub proof fn lemma_name_of_symbol(map: SymbolMap, name: Seq<char>)
    requires
        map.wf(),
        map.spec_lookup(name) is Some,
    ensures
        map.spec_name_of(map.spec_lookup(name)->0) == Some(name),
{
    lemma_first_index(map.spec_names(), name);
    let i = first_index(map.spec_names(), name);
    lemma_first_index(map.spec_ptrs(), map.spec_ptrs()[i]);
    let j = first_index(map.spec_ptrs(), map.spec_ptrs()[i]);
    if j < i {
        assert(map.spec_ptrs()[j] != map.spec_ptrs()[i]);
    }
}

} // verus!
