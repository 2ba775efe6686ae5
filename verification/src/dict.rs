//! Dicts: the record that stands for a hash table in the heap, and the
//! entries of its table.

use vstd::prelude::*;
use vstd::string::StringSliceAdditionalSpecFns;
use vstd::utf8::encode_utf8;
use std::hash::Hasher;
use fnv::FnvHasher;
use crate::allocator::{AllocObject, ArraySize};
use crate::array::ArrayItem;
use crate::layout::{
    bytes_to_words, decode_words, encode_words, lemma_bytes_to_words_of_words, words_to_bytes,
};
use crate::containers::{changed_at_most, is_growth_failure, HashIndexedAnyContainer};
use crate::rawarray::{default_array_growth, raw_is_held, raw_item, spec_array_growth, RawArray};
use crate::error::{ErrorKind, RuntimeError};
use crate::headers::TypeList;
use crate::memory::{Heap, MutatorView};
use crate::safeptr::{ScopedPtr, TaggedScopedPtr};
use crate::taggedptr::{FatPtr, TaggedPtr, Value};

use crate::layout::{spec_u32_of_word, u32_of_word, word_of_u32};
use crate::safeptr::TaggedCellPtr;

verus! {

/// The offset basis of the FNV hash: the state that a hash begins with.
pub const FNV_OFFSET_BASIS: u64 = 0xcbf29ce484222325;

/// The prime of the FNV hash.
pub const FNV_PRIME: u64 = 0x100000001b3;

/// The state of an FNV-1a hash after one more byte: the byte is mixed into
/// the lowest bits of the state, and the state is multiplied by the prime,
/// in 64 bits.
pub open spec fn fnv_step(hash: u64, byte: u8) -> u64 {
    (((hash ^ (byte as u64)) * FNV_PRIME) % 0x1_0000_0000_0000_0000) as u64
}

/// The state of an FNV-1a hash after the bytes `bytes`, from the state
/// `hash`.
pub open spec fn fnv1a(hash: u64, bytes: Seq<u8>) -> u64
    decreases bytes.len(),
{
    if bytes.len() == 0 {
        hash
    } else {
        fnv1a(fnv_step(hash, bytes[0]), bytes.drop_first())
    }
}

/// Feeds bytes to an FNV hasher: `FnvHasher::with_key`, `Hasher::write` and
/// `Hasher::finish` of the crate `fnv`. The hasher begins with the state
/// `hash`; for each byte in turn it takes the exclusive or of the state and
/// the byte and multiplies it by the FNV prime, wrapping at 64 bits; the
/// result is the state at the end.
#[verifier::external_body]
fn fnv_write(hash: u64, bytes: &[u8]) -> (state: u64)
    ensures
        state == fnv1a(hash, bytes@),
{
    let mut hasher = FnvHasher::with_key(hash);
    hasher.write(bytes);
    hasher.finish()
}

/// The hash of the name of a symbol: the FNV-1a hash of the bytes of the
/// name and of one byte `0xff` behind them.
pub open spec fn symbol_hash(name: Seq<char>) -> u64 {
    fnv1a(fnv1a(FNV_OFFSET_BASIS, encode_utf8(name)), seq![0xffu8])
}

/// The hash of an inline number: the number as 64 bits.
pub open spec fn number_hash(value: int) -> u64 {
    if value >= 0 {
        value as u64
    } else {
        (value + 0x1_0000_0000_0000_0000) as u64
    }
}

/// The hash of a key of a dict: a symbol hashes by its name and a number by
/// its value; nothing else is a key.
pub open spec fn spec_hash_key(heap: Heap, key: FatPtr) -> Option<u64> {
    match key {
        FatPtr::Symbol(raw) => match heap.spec_syms().spec_name_of(raw.spec_word()) {
            Some(name) => Some(symbol_hash(name)),
            None => None,
        },
        FatPtr::Number(value) => Some(number_hash(value as int)),
        _ => None,
    }
}

/// The hash of a key of a dict.
pub fn hash_key<'guard>(mem: &MutatorView<'guard>, key: TaggedScopedPtr<'guard>) -> (r: Result<
    u64,
    RuntimeError,
>)
    requires
        mem.holds(key),
    ensures
        match r {
            Ok(hash) => spec_hash_key(mem.spec_heap(), key.spec_value().spec_fat_ptr()) == Some(
                hash,
            ),
            Err(e) => spec_hash_key(mem.spec_heap(), key.spec_value().spec_fat_ptr()) is None
                && e.spec_kind() == ErrorKind::UnhashableError && e.spec_pos() is None,
        },
{
    match key.value() {
        Value::Symbol(symbol) => {
            let name = mem.symbol_name(symbol);
            let state = fnv_write(FNV_OFFSET_BASIS, name.as_str().as_bytes());
            let mut end: Vec<u8> = Vec::new();
            end.push(0xff);
            assert(end@ =~= seq![0xffu8]);
            Ok(fnv_write(state, end.as_slice()))
        },
        Value::Number(n) => {
            if n >= 0 {
                Ok(n as u64)
            } else {
                let below: u64 = (-(n + 1)) as u64;
                Ok(u64::MAX - below)
            }
        },
        _ => Err(RuntimeError::new(ErrorKind::UnhashableError)),
    }
}

/// An entry of the table of a dict: a key, a value, and the hash of the key.
#[derive(Copy, Clone)]
pub struct DictItem {
    pub key: TaggedCellPtr,
    pub value: TaggedCellPtr,
    pub hash: u64,
}

impl DictItem {
    /// An entry that holds nothing: nil for the key and the value, and a
    /// hash of zero.
    pub fn blank() -> (item: DictItem)
        ensures
            item.key.spec_ptr().spec_word() == 0,
            item.value.spec_ptr().spec_word() == 0,
            item.hash == 0,
    {
        DictItem { key: TaggedCellPtr::new_nil(), value: TaggedCellPtr::new_nil(), hash: 0 }
    }
}

/// The hash of an entry that held an item that was removed.
pub const TOMBSTONE: u64 = 1;

impl ArrayItem for DictItem {
    open spec fn spec_item_size() -> nat {
        24
    }

    fn item_size() -> (size: ArraySize) {
        24
    }

    open spec fn spec_item_bytes(self) -> Seq<u8> {
        words_to_bytes(seq![self.key.spec_to_word(), self.value.spec_to_word(), self.hash])
    }

    fn item_bytes(&self) -> (bytes: Vec<u8>) {
        let mut words: Vec<u64> = Vec::new();
        words.push(self.key.to_word());
        words.push(self.value.to_word());
        words.push(self.hash);
        assert(words@ =~= seq![self.key.spec_to_word(), self.value.spec_to_word(), self.hash]);
        encode_words(words.as_slice())
    }

    open spec fn spec_item_of(bytes: Seq<u8>) -> DictItem {
        let words = bytes_to_words(bytes, 3);
        DictItem {
            key: TaggedCellPtr::spec_from_word(words[0]),
            value: TaggedCellPtr::spec_from_word(words[1]),
            hash: words[2],
        }
    }

    fn item_of(bytes: &[u8]) -> (item: DictItem) {
        let words = decode_words(bytes, 3);
        DictItem {
            key: TaggedCellPtr::from_word(words[0]),
            value: TaggedCellPtr::from_word(words[1]),
            hash: words[2],
        }
    }

    proof fn lemma_item_round_trip(self) {
        lemma_bytes_to_words_of_words(
            seq![self.key.spec_to_word(), self.value.spec_to_word(), self.hash],
        );
        self.key.lemma_word_round_trip();
        self.value.lemma_word_round_trip();
    }
}

/// Whether an entry has never held an item: it is as `blank` makes it.
pub open spec fn is_blank(entry: DictItem) -> bool {
    entry.key.spec_ptr().spec_word() == 0 && entry.hash == 0
}

/// Whether an entry held an item that was removed.
pub open spec fn is_tombstone(entry: DictItem) -> bool {
    entry.key.spec_ptr().spec_word() == 0 && entry.hash == TOMBSTONE
}

/// Whether an entry is without a key and was in use before: a tombstone is
/// such an entry.
pub open spec fn is_spent(entry: DictItem) -> bool {
    entry.key.spec_ptr().spec_word() == 0 && entry.hash != 0
}

/// Whether an entry holds an item.
pub open spec fn is_live(entry: DictItem) -> bool {
    entry.key.spec_ptr().spec_word() != 0
}

/// The index behind `index` in a table of `len` entries, which is the
/// first index behind the last.
pub open spec fn next_index(index: int, len: int) -> int {
    if index + 1 >= len {
        0
    } else {
        index + 1
    }
}

/// The index of the entry that a search for `hash` ends at, if it ends
/// within `steps` steps: the search goes from entry to entry, beginning at
/// `index`. It passes over an entry that held an item that was removed, and
/// remembers the first such entry as `tombstone`. It ends at an entry with
/// the hash searched for. At an entry without a key it ends too, and gives
/// the entry remembered in its place, if it has remembered one. It passes
/// over any other entry.
pub open spec fn probe_from(
    table: Seq<DictItem>,
    hash: u64,
    index: int,
    tombstone: Option<int>,
    steps: nat,
) -> Option<int>
    decreases steps,
{
    if steps == 0 {
        None
    } else {
        let entry = table[index];
        if is_tombstone(entry) {
            probe_from(
                table,
                hash,
                next_index(index, table.len() as int),
                if tombstone is None {
                    Some(index)
                } else {
                    tombstone
                },
                (steps - 1) as nat,
            )
        } else if entry.hash == hash {
            Some(index)
        } else if !is_live(entry) {
            match tombstone {
                Some(earlier) => Some(earlier),
                None => Some(index),
            }
        } else {
            probe_from(
                table,
                hash,
                next_index(index, table.len() as int),
                tombstone,
                (steps - 1) as nat,
            )
        }
    }
}

/// The index of the entry that a search of the whole table for `hash` ends
/// at, if it ends at all: the search begins at the entry whose index is the
/// hash cut to the size of the table.
pub open spec fn slot_for(table: Seq<DictItem>, hash: u64) -> Option<int> {
    if table.len() == 0 {
        None
    } else {
        probe_from(table, hash, hash as int % table.len() as int, None, table.len())
    }
}

/// The steps from `index` forward to `target` in a table of `len` entries.
pub open spec fn steps_to(index: int, target: int, len: int) -> int {
    if target >= index {
        target - index
    } else {
        target + len - index
    }
}

/// A search ends within as many steps as it takes to reach an entry without
/// a key that is no tombstone, and one step more.
pub proof fn lemma_probe_ends(
    table: Seq<DictItem>,
    hash: u64,
    index: int,
    tombstone: Option<int>,
    steps: nat,
    free: int,
)
    requires
        0 <= index < table.len(),
        0 <= free < table.len(),
        !is_live(table[free]),
        !is_tombstone(table[free]),
        steps > steps_to(index, free, table.len() as int),
        tombstone matches Some(t) ==> 0 <= t < table.len(),
    ensures
        probe_from(table, hash, index, tombstone, steps) matches Some(slot) && 0 <= slot
            < table.len(),
    decreases steps_to(index, free, table.len() as int),
{
    if index != free {
        let entry = table[index];
        let next = next_index(index, table.len() as int);
        if is_tombstone(entry) {
            lemma_probe_ends(
                table,
                hash,
                next,
                if tombstone is None {
                    Some(index)
                } else {
                    tombstone
                },
                (steps - 1) as nat,
                free,
            );
        } else if entry.hash != hash && is_live(entry) {
            lemma_probe_ends(table, hash, next, tombstone, (steps - 1) as nat, free);
        }
    }
}

/// The entries of the table of `dict`, in order.
pub open spec fn dict_table(heap: Heap, dict: Dict) -> Seq<DictItem> {
    Seq::new(dict.data.spec_capacity() as nat, |i: int| raw_item(heap, dict.data, i))
}

/// Finds the entry that a search of `data` for `hash` ends at, and returns
/// its index.
pub fn find_entry<'guard>(mem: &MutatorView<'guard>, data: &RawArray<DictItem>, hash: u64) -> (r:
    Result<ArraySize, RuntimeError>)
    requires
        raw_is_held(mem.spec_heap(), *data),
        data.spec_ptr() is Some ==> slot_for(table_of(mem.spec_heap(), *data), hash) is Some,
    ensures
        match r {
            Ok(slot) => data.spec_ptr() is Some && slot_for(
                table_of(mem.spec_heap(), *data),
                hash,
            ) == Some(slot as int) && slot < data.spec_capacity(),
            Err(e) => data.spec_ptr() is None && e.spec_kind() == ErrorKind::BoundsError
                && e.spec_pos() is None,
        },
{
    if data.as_ptr().is_none() {
        return Err(RuntimeError::new(ErrorKind::BoundsError));
    }
    let ghost table = table_of(mem.spec_heap(), *data);
    let capacity = data.capacity();
    let mut index: ArraySize = (hash % (capacity as u64)) as ArraySize;
    let mut tombstone: Option<ArraySize> = None;
    let mut steps: ArraySize = capacity;
    loop
        invariant
            raw_is_held(mem.spec_heap(), *data),
            table == table_of(mem.spec_heap(), *data),
            capacity == data.spec_capacity() == table.len(),
            0 <= index < capacity,
            tombstone matches Some(t) ==> t < capacity,
            slot_for(table, hash) is Some,
            slot_for(table, hash) == probe_from(
                table,
                hash,
                index as int,
                match tombstone {
                    Some(t) => Some(t as int),
                    None => None,
                },
                steps as nat,
            ),
        decreases steps,
    {
        if steps == 0 {
            proof {
                assert(false);
            }
            return Err(RuntimeError::new(ErrorKind::BoundsError));
        }
        let entry = data.read_item(mem, index);
        assert(entry == table[index as int]);
        if entry.hash == TOMBSTONE && entry.key.is_nil() {
            if tombstone.is_none() {
                tombstone = Some(index);
            }
        } else if entry.hash == hash {
            return Ok(index);
        } else if entry.key.is_nil() {
            match tombstone {
                Some(earlier) => { return Ok(earlier); },
                None => { return Ok(index); },
            }
        }
        index = if index + 1 >= capacity {
            0
        } else {
            index + 1
        };
        steps = steps - 1;
    }
}

/// The entries of the array `data`, in order.
pub open spec fn table_of(heap: Heap, data: RawArray<DictItem>) -> Seq<DictItem> {
    Seq::new(data.spec_capacity() as nat, |i: int| raw_item(heap, data, i))
}

/// The count of live entries among `table`.
pub open spec fn count_live(table: Seq<DictItem>) -> nat
    decreases table.len(),
{
    if table.len() == 0 {
        0
    } else {
        count_live(table.drop_last()) + if is_live(table.last()) {
            1nat
        } else {
            0nat
        }
    }
}

/// The count of the entries of `table` that are without a key and were in
/// use before.
pub open spec fn count_spent(table: Seq<DictItem>) -> nat
    decreases table.len(),
{
    if table.len() == 0 {
        0
    } else {
        count_spent(table.drop_last()) + if is_spent(table.last()) {
            1nat
        } else {
            0nat
        }
    }
}

/// A table with fewer entries that are live or were in use before than
/// entries has a blank entry.
pub proof fn lemma_free_entry_exists(table: Seq<DictItem>)
    requires
        count_live(table) + count_spent(table) < table.len(),
    ensures
        exists|free: int|
            0 <= free < table.len() && !is_live(#[trigger] table[free]) && !is_spent(
                table[free],
            ),
    decreases table.len(),
{
    if table.len() > 0 {
        let last = table.len() - 1;
        if is_live(table[last]) || is_spent(table[last]) {
            lemma_free_entry_exists(table.drop_last());
            let free = choose|free: int|
                0 <= free < table.drop_last().len() && !is_live(
                    #[trigger] table.drop_last()[free],
                ) && !is_spent(table.drop_last()[free]);
            assert(table[free] == table.drop_last()[free]);
        } else {
            assert(!is_live(table[last]) && !is_spent(table[last]));
        }
    }
}

/// Replacing one entry of a table changes the counts by what the entry
/// replaced counted and what the new entry counts.
pub proof fn lemma_counts_of_update(table: Seq<DictItem>, index: int, entry: DictItem)
    requires
        0 <= index < table.len(),
    ensures
        count_live(table.update(index, entry)) + (if is_live(table[index]) {
            1nat
        } else {
            0nat
        }) == count_live(table) + (if is_live(entry) {
            1nat
        } else {
            0nat
        }),
        count_spent(table.update(index, entry)) + (if is_spent(table[index]) {
            1nat
        } else {
            0nat
        }) == count_spent(table) + (if is_spent(entry) {
            1nat
        } else {
            0nat
        }),
    decreases table.len(),
{
    let updated = table.update(index, entry);
    if index == table.len() - 1 {
        assert(updated.drop_last() =~= table.drop_last());
    } else {
        lemma_counts_of_update(table.drop_last(), index, entry);
        assert(updated.drop_last() =~= table.drop_last().update(index, entry));
    }
}

/// A table holds no more live entries and tombstones than it has entries,
/// and a table with a live entry counts at least one.
pub proof fn lemma_counts_are_bounded(table: Seq<DictItem>)
    ensures
        count_live(table) + count_spent(table) <= table.len(),
        forall|i: int| 0 <= i < table.len() && is_live(#[trigger] table[i]) ==> count_live(table)
            >= 1,
    decreases table.len(),
{
    if table.len() > 0 {
        lemma_counts_are_bounded(table.drop_last());
        assert forall|i: int| 0 <= i < table.len() && is_live(#[trigger] table[i]) implies count_live(
            table,
        ) >= 1 by {
            if i < table.len() - 1 {
                assert(table.drop_last()[i] == table[i]);
            }
        }
    }
}

/// A table of blank entries counts nothing.
pub proof fn lemma_counts_of_blank(table: Seq<DictItem>)
    requires
        forall|i: int| 0 <= i < table.len() ==> is_blank(#[trigger] table[i]),
    ensures
        count_live(table) == 0,
        count_spent(table) == 0,
    decreases table.len(),
{
    if table.len() > 0 {
        assert forall|i: int| 0 <= i < table.drop_last().len() implies is_blank(
            #[trigger] table.drop_last()[i],
        ) by {
            assert(table.drop_last()[i] == table[i]);
        }
        lemma_counts_of_blank(table.drop_last());
        assert(is_blank(table[table.len() - 1]));
    }
}

/// Whether `dict` is in order: its table lies in the heap and is not one of
/// a single entry; its length is at least the count of its live entries;
/// its count of entries in use is at least its length and the count of its
/// tombstones together, and less than the size of its table, if it has one.
pub open spec fn dict_is_sound(heap: Heap, dict: Dict) -> bool {
    let table = dict_table(heap, dict);
    &&& raw_is_held(heap, dict.data)
    &&& dict.data.spec_capacity() != 1
    &&& count_live(table) <= dict.length
    &&& dict.length + count_spent(table) <= dict.used_entries
    &&& dict.data.spec_capacity() > 0 ==> dict.used_entries < dict.data.spec_capacity()
    &&& dict.data.spec_capacity() == 0 ==> dict.used_entries == 0
}

/// Whether every value of `dict` is a pointer into the memory.
pub open spec fn dict_values_are_valid(heap: Heap, dict: Dict) -> bool {
    forall|i: int|
        0 <= i < dict.data.spec_capacity() ==> heap.valid(
            (#[trigger] dict_table(heap, dict)[i]).value.spec_ptr(),
        )
}

/// A search of the table of a dict that is in order ends.
pub proof fn lemma_search_ends(heap: Heap, dict: Dict, hash: u64)
    requires
        dict_is_sound(heap, dict),
        dict.data.spec_capacity() > 0,
    ensures
        slot_for(dict_table(heap, dict), hash) matches Some(slot) && 0 <= slot
            < dict.data.spec_capacity(),
{
    let table = dict_table(heap, dict);
    lemma_free_entry_exists(table);
    let free = choose|free: int|
        0 <= free < table.len() && !is_live(#[trigger] table[free]) && !is_spent(table[free]);
    lemma_probe_ends(table, hash, hash as int % table.len() as int, None, table.len(), free);
}

/// A dict: the count of items held, the count of entries in use, which
/// counts the entries of removed items too, and the table.
#[derive(Copy, Clone)]
pub struct Dict {
    pub length: ArraySize,
    pub used_entries: ArraySize,
    pub data: RawArray<DictItem>,
}

impl Dict {
    /// A dict without items and without a table.
    pub fn new() -> (dict: Dict)
        ensures
            dict.length == 0,
            dict.used_entries == 0,
            dict.data == RawArray::<DictItem>::spec_of(0, None),
    {
        Dict { length: 0, used_entries: 0, data: RawArray::new() }
    }
}

/// Whether a table of `capacity` entries of which `used_entries` are in use
/// is due to grow: more than four fifths of its entries are in use.
pub open spec fn spec_needs_to_grow(used_entries: ArraySize, capacity: ArraySize) -> bool {
    5 * used_entries > 4 * capacity
}

/// Whether a table of `capacity` entries of which `used_entries` are in use
/// is due to grow.
pub fn needs_to_grow(used_entries: ArraySize, capacity: ArraySize) -> (grow: bool)
    ensures
        grow == spec_needs_to_grow(used_entries, capacity),
{
    5 * (used_entries as u64) > 4 * (capacity as u64)
}

/// The table that the entries of `old` below `upto` are moved into, from
/// the table `fresh`: each live entry in turn goes where a search of the
/// new table for its hash ends.
pub open spec fn rehashed(old: Seq<DictItem>, upto: int, fresh: Seq<DictItem>) -> Seq<DictItem>
    decreases upto,
{
    if upto <= 0 {
        fresh
    } else {
        let moved = rehashed(old, upto - 1, fresh);
        let entry = old[upto - 1];
        if is_live(entry) && slot_for(moved, entry.hash) is Some {
            moved.update(slot_for(moved, entry.hash)->0, entry)
        } else {
            moved
        }
    }
}

/// The table of `count` blank entries.
pub open spec fn blank_table(count: nat) -> Seq<DictItem> {
    Seq::new(count, |i: int| DictItem::spec_item_of(Seq::new(24, |k: int| 0u8)))
}

/// The entry that stands in zeroed memory is blank.
pub proof fn lemma_zeroed_entry_is_blank()
    ensures
        is_blank(DictItem::spec_item_of(Seq::new(24, |k: int| 0u8))),
        DictItem::spec_item_of(Seq::new(24, |k: int| 0u8)).value.spec_ptr().spec_word() == 0,
{
    let zeros = Seq::new(24, |k: int| 0u8);
    let eight = Seq::new(8, |k: int| 0u8);
    vstd::bytes::lemma_auto_spec_u64_to_from_le_bytes();
    vstd::bytes::spec_u64_to_le_bytes_to_open(0u64);
    assert(0u64 & 0xff == 0 && (0u64 >> 8) & 0xff == 0 && (0u64 >> 16) & 0xff == 0 && (0u64 >> 24)
        & 0xff == 0 && (0u64 >> 32) & 0xff == 0 && (0u64 >> 40) & 0xff == 0 && (0u64 >> 48) & 0xff
        == 0 && (0u64 >> 56) & 0xff == 0) by (bit_vector);
    assert(vstd::bytes::spec_u64_to_le_bytes(0u64) =~= eight);
    assert(vstd::bytes::spec_u64_from_le_bytes(eight) == 0);
    assert(zeros.subrange(0, 8) =~= eight);
    assert(zeros.subrange(8, 16) =~= eight);
    assert(zeros.subrange(16, 24) =~= eight);
    let words = bytes_to_words(zeros, 3);
    assert(words[0] == 0 && words[1] == 0 && words[2] == 0);
    crate::layout::lemma_word_value_of_zero();
    TaggedPtr::lemma_spec_of(0);
    TaggedCellPtr::lemma_spec_of(TaggedPtr::spec_of(0));
}

/// Putting a live entry with the hash searched for where the search ends
/// makes the search end there.
pub proof fn lemma_probe_finds_what_was_put(
    table: Seq<DictItem>,
    hash: u64,
    index: int,
    tombstone: Option<int>,
    steps: nat,
    entry: DictItem,
)
    requires
        probe_from(table, hash, index, tombstone, steps) matches Some(slot) && 0 <= slot
            < table.len(),
        0 <= index < table.len(),
        is_live(entry),
        entry.hash == hash,
    ensures
        probe_from(
            table.update(probe_from(table, hash, index, tombstone, steps)->0, entry),
            hash,
            index,
            tombstone,
            steps,
        ) == probe_from(table, hash, index, tombstone, steps),
    decreases steps,
{
    let slot = probe_from(table, hash, index, tombstone, steps)->0;
    let updated = table.update(slot, entry);
    if steps > 0 && index != slot {
        let here = table[index];
        let next = next_index(index, table.len() as int);
        if is_tombstone(here) {
            lemma_probe_finds_what_was_put(
                table,
                hash,
                next,
                if tombstone is None {
                    Some(index)
                } else {
                    tombstone
                },
                (steps - 1) as nat,
                entry,
            );
        } else if here.hash != hash && is_live(here) {
            lemma_probe_finds_what_was_put(
                table,
                hash,
                next,
                tombstone,
                (steps - 1) as nat,
                entry,
            );
        }
    }
}

/// What a lookup of `key` in `dict` gives: the value of the live entry
/// that a search for the hash of the key ends at; an error for a key that
/// has no hash, for a dict without a table, and for a search that ends at
/// an entry that is not live.
pub open spec fn spec_lookup(heap: Heap, dict: Dict, key: FatPtr) -> Result<TaggedPtr, ErrorKind> {
    match spec_hash_key(heap, key) {
        None => Err(ErrorKind::UnhashableError),
        Some(hash) => if dict.data.spec_ptr() is None {
            Err(ErrorKind::BoundsError)
        } else {
            let entry = dict_table(heap, dict)[slot_for(dict_table(heap, dict), hash)->0];
            if is_live(entry) {
                Ok(entry.value.spec_ptr())
            } else {
                Err(ErrorKind::KeyError)
            }
        },
    }
}

/// Whether the table of `dict`, if it has one, has an entry.
pub open spec fn dict_can_be_searched(dict: Dict) -> bool {
    dict.data.spec_ptr() is Some ==> dict.data.spec_capacity() > 0
}

/// Writes a blank entry into every entry of `data`.
pub fn fill_with_blank_entries<'guard>(mem: &mut MutatorView<'guard>, data: &RawArray<DictItem>) -> (r:
    Result<(), RuntimeError>)
    requires
        raw_is_held(old(mem).spec_heap(), *data),
    ensures
        changed_at_most(final(mem).spec_heap(), old(mem).spec_heap(), data.spec_at()),
        raw_is_held(final(mem).spec_heap(), *data),
        match r {
            Ok(()) => data.spec_ptr() is Some && (forall|i: int|
                0 <= i < data.spec_capacity() ==> is_blank(
                    #[trigger] table_of(final(mem).spec_heap(), *data)[i],
                ) && table_of(final(mem).spec_heap(), *data)[i].value.spec_ptr().spec_word()
                    == 0),
            Err(e) => data.spec_ptr() is None && e.spec_kind() == ErrorKind::BoundsError
                && e.spec_pos() is None,
        },
{
    proof {
        use_type_invariant(&*mem);
        crate::memory::lemma_extends_itself(mem.spec_heap());
    }
    if data.as_ptr().is_none() {
        return Err(RuntimeError::new(ErrorKind::BoundsError));
    }
    let blank_entry = DictItem::blank();
    let ghost first = mem.spec_heap();
    let mut index: ArraySize = 0;
    while index < data.capacity()
        invariant
            index <= data.spec_capacity(),
            mem.spec_heap().wf(),
            raw_is_held(mem.spec_heap(), *data),
            changed_at_most(mem.spec_heap(), first, data.spec_at()),
            is_blank(blank_entry),
            blank_entry.value.spec_ptr().spec_word() == 0,
            forall|i: int| 0 <= i < index ==> raw_item(mem.spec_heap(), *data, i) == blank_entry,
        decreases data.spec_capacity() - index,
    {
        let ghost before = mem.spec_heap();
        data.write_item(mem, index, blank_entry);
        proof {
            use_type_invariant(&*mem);
            crate::memory::lemma_extends_chain(first, before, mem.spec_heap());
            assert forall|other: int|
                first.spec_storage().holds(other) && data.spec_at() != Some(
                    other,
                ) implies #[trigger] mem.spec_heap().spec_storage().payload(other)
                == first.spec_storage().payload(other) by {
                assert(before.spec_storage().holds(other));
            }
        }
        index = index + 1;
    }
    Ok(())
}

impl Dict {
    /// A dict without items, with a table of `capacity` blank entries.
    pub fn with_capacity<'guard>(mem: &mut MutatorView<'guard>, capacity: ArraySize) -> (r: Result<
        Dict,
        RuntimeError,
    >)
        requires
            capacity != 1,
        ensures
            final(mem).spec_heap().grown_from(old(mem).spec_heap()),
            match r {
                Ok(dict) => {
                    &&& dict_is_sound(final(mem).spec_heap(), dict)
                    &&& dict_values_are_valid(final(mem).spec_heap(), dict)
                    &&& dict.length == 0
                    &&& dict.used_entries == 0
                    &&& dict.data.spec_capacity() == capacity
                    &&& dict.data.spec_at() matches Some(at) && !old(mem).spec_heap().spec_storage().holds(at)
                    &&& forall|i: int|
                        0 <= i < capacity ==> is_blank(
                            #[trigger] dict_table(final(mem).spec_heap(), dict)[i],
                        )
                },
                Err(e) => is_growth_failure(e),
            },
    {
        proof {
            use_type_invariant(&*mem);
        }
        let ghost first = mem.spec_heap();
        let data: RawArray<DictItem> = RawArray::with_capacity(mem, capacity)?;
        let ghost made = mem.spec_heap();
        proof {
            use_type_invariant(&*mem);
            data.lemma_is_spec_of();
        }
        match fill_with_blank_entries(mem, &data) {
            Ok(()) => {},
            Err(e) => {
                return Err(RuntimeError::new(ErrorKind::BadAllocationRequest));
            },
        }
        let dict = Dict { length: 0, used_entries: 0, data };
        proof {
            use_type_invariant(&*mem);
            let heap = mem.spec_heap();
            crate::array::lemma_grown_beside(first, made, heap, data.spec_at()->0);
            let table = dict_table(heap, dict);
            assert(table =~= table_of(heap, data));
            lemma_counts_of_blank(table);
            assert forall|i: int| 0 <= i < capacity implies heap.valid(
                (#[trigger] table[i]).value.spec_ptr(),
            ) by {
                lemma_nil_is_valid(heap, table[i].value.spec_ptr());
            }
        }
        Ok(dict)
    }

    /// Removes every item: every entry of the table becomes blank.
    pub fn clear<'guard>(&mut self, mem: &mut MutatorView<'guard>) -> (r: Result<(), RuntimeError>)
        requires
            dict_is_sound(old(mem).spec_heap(), *old(self)),
        ensures
            changed_at_most(final(mem).spec_heap(), old(mem).spec_heap(), old(self).data.spec_at()),
            final(self).data == old(self).data,
            match r {
                Ok(()) => {
                    &&& dict_is_sound(final(mem).spec_heap(), *final(self))
                    &&& dict_values_are_valid(final(mem).spec_heap(), *final(self))
                    &&& final(self).length == 0
                    &&& final(self).used_entries == 0
                    &&& forall|i: int|
                        0 <= i < final(self).data.spec_capacity() ==> is_blank(
                            #[trigger] dict_table(final(mem).spec_heap(), *final(self))[i],
                        )
                },
                Err(e) => *final(self) == *old(self) && old(self).data.spec_ptr() is None
                    && e.spec_kind() == ErrorKind::BoundsError && e.spec_pos() is None,
            },
    {
        let data = self.data;
        match fill_with_blank_entries(mem, &data) {
            Ok(()) => {},
            Err(e) => { return Err(e); },
        }
        self.length = 0;
        self.used_entries = 0;
        proof {
            use_type_invariant(&*mem);
            let heap = mem.spec_heap();
            let table = dict_table(heap, *self);
            assert(table =~= table_of(heap, data));
            lemma_counts_of_blank(table);
            assert forall|i: int| 0 <= i < data.spec_capacity() implies heap.valid(
                (#[trigger] table[i]).value.spec_ptr(),
            ) by {
                lemma_nil_is_valid(heap, table[i].value.spec_ptr());
            }
        }
        Ok(())
    }

    /// The count of items in the dict.
    pub fn length(&self) -> (length: ArraySize)
        ensures
            length == self.length,
    {
        self.length
    }

    /// The value that `key` stands for in the dict.
    pub fn lookup<'guard>(&self, mem: &MutatorView<'guard>, key: TaggedScopedPtr) -> (r: Result<
        TaggedScopedPtr<'guard>,
        RuntimeError,
    >)
        requires
            dict_is_sound(mem.spec_heap(), *self),
            dict_values_are_valid(mem.spec_heap(), *self),
            dict_can_be_searched(*self),
            mem.holds(key),
        ensures
            match r {
                Ok(value) => spec_lookup(mem.spec_heap(), *self, key.spec_value().spec_fat_ptr())
                    == Ok::<TaggedPtr, ErrorKind>(value.spec_ptr()) && mem.holds(value),
                Err(e) => spec_lookup(mem.spec_heap(), *self, key.spec_value().spec_fat_ptr())
                    == Err::<TaggedPtr, ErrorKind>(e.spec_kind()) && e.spec_pos() is None,
            },
    {
        let hash = hash_key(mem, key)?;
        let data = self.data;
        proof {
            if data.spec_ptr() is Some {
                lemma_search_ends(mem.spec_heap(), *self, hash);
            }
            assert(dict_table(mem.spec_heap(), *self) =~= table_of(mem.spec_heap(), data));
        }
        let slot = find_entry(mem, &data, hash)?;
        let entry = data.read_item(mem, slot);
        assert(entry == dict_table(mem.spec_heap(), *self)[slot as int]);
        if !entry.key.is_nil() {
            Ok(entry.value.get(mem))
        } else {
            Err(RuntimeError::new(ErrorKind::KeyError))
        }
    }

    /// Whether `key` stands for a value in the dict.
    pub fn has_key<'guard>(&self, mem: &MutatorView<'guard>, key: TaggedScopedPtr) -> (r: Result<
        bool,
        RuntimeError,
    >)
        requires
            dict_is_sound(mem.spec_heap(), *self),
            dict_can_be_searched(*self),
            mem.holds(key),
        ensures
            match r {
                Ok(found) => found == (spec_lookup(
                    mem.spec_heap(),
                    *self,
                    key.spec_value().spec_fat_ptr(),
                ) is Ok) && spec_lookup(mem.spec_heap(), *self, key.spec_value().spec_fat_ptr())
                    != Err::<TaggedPtr, ErrorKind>(ErrorKind::UnhashableError) && spec_lookup(
                    mem.spec_heap(),
                    *self,
                    key.spec_value().spec_fat_ptr(),
                ) != Err::<TaggedPtr, ErrorKind>(ErrorKind::BoundsError),
                Err(e) => spec_lookup(mem.spec_heap(), *self, key.spec_value().spec_fat_ptr())
                    == Err::<TaggedPtr, ErrorKind>(e.spec_kind()) && e.spec_kind()
                    != ErrorKind::KeyError && e.spec_pos() is None,
            },
    {
        let hash = hash_key(mem, key)?;
        let data = self.data;
        proof {
            if data.spec_ptr() is Some {
                lemma_search_ends(mem.spec_heap(), *self, hash);
            }
            assert(dict_table(mem.spec_heap(), *self) =~= table_of(mem.spec_heap(), data));
        }
        let slot = find_entry(mem, &data, hash)?;
        let entry = data.read_item(mem, slot);
        assert(entry == dict_table(mem.spec_heap(), *self)[slot as int]);
        Ok(!entry.key.is_nil())
    }
}

/// Whether every entry of `table` is blank, with nil for its value, or a
/// live entry of `old`.
pub open spec fn moved_from(table: Seq<DictItem>, old: Seq<DictItem>) -> bool {
    forall|i: int|
        0 <= i < table.len() ==> {
            ||| is_blank(#[trigger] table[i]) && table[i].value.spec_ptr().spec_word() == 0
            ||| is_live(table[i]) && exists|j: int| 0 <= j < old.len() && old[j] == table[i]
        }
}

/// A table whose entries are blank or live has no tombstone.
pub proof fn lemma_moved_has_no_tombstone(table: Seq<DictItem>, old: Seq<DictItem>)
    requires
        moved_from(table, old),
    ensures
        count_spent(table) == 0,
    decreases table.len(),
{
    if table.len() > 0 {
        let front = table.drop_last();
        assert forall|i: int| 0 <= i < front.len() implies {
            ||| is_blank(#[trigger] front[i]) && front[i].value.spec_ptr().spec_word() == 0
            ||| is_live(front[i]) && exists|j: int| 0 <= j < old.len() && old[j] == front[i]
        } by {
            assert(front[i] == table[i]);
        }
        lemma_moved_has_no_tombstone(front, old);
        assert(!is_spent(table[table.len() - 1]));
    }
}

/// The first entries of a table count no more live entries than the table.
pub proof fn lemma_live_in_prefix(table: Seq<DictItem>, upto: int)
    requires
        0 <= upto <= table.len(),
    ensures
        count_live(table.subrange(0, upto)) <= count_live(table),
        upto < table.len() ==> count_live(table.subrange(0, upto + 1)) == count_live(
            table.subrange(0, upto),
        ) + (if is_live(table[upto]) {
            1nat
        } else {
            0nat
        }),
    decreases table.len() - upto,
{
    if upto < table.len() {
        lemma_live_in_prefix(table, upto + 1);
        assert(table.subrange(0, upto + 1).drop_last() =~= table.subrange(0, upto));
    } else {
        assert(table.subrange(0, upto) =~= table);
    }
}

impl Dict {
    /// Moves the items of the dict into a table of the next larger size.
    /// The tombstones are left behind.
    pub fn grow_capacity<'guard>(&mut self, mem: &mut MutatorView<'guard>) -> (r: Result<
        (),
        RuntimeError,
    >)
        requires
            dict_is_sound(old(mem).spec_heap(), *old(self)),
            dict_values_are_valid(old(mem).spec_heap(), *old(self)),
        ensures
            final(mem).spec_heap().grown_from(old(mem).spec_heap()),
            final(mem).spec_heap().spec_syms() == old(mem).spec_heap().spec_syms(),
            match r {
                Ok(()) => {
                    &&& final(self).length == old(self).length
                    &&& final(self).used_entries == old(self).used_entries
                    &&& Some(final(self).data.spec_capacity()) == spec_array_growth(
                        old(self).data.spec_capacity(),
                    )
                    &&& final(self).data.spec_at() matches Some(at) && !old(mem).spec_heap().spec_storage().holds(at)
                    &&& dict_table(final(mem).spec_heap(), *final(self)) == rehashed(
                        dict_table(old(mem).spec_heap(), *old(self)),
                        old(self).data.spec_capacity() as int,
                        blank_table(final(self).data.spec_capacity() as nat),
                    )
                    &&& dict_is_sound(final(mem).spec_heap(), *final(self))
                    &&& dict_values_are_valid(final(mem).spec_heap(), *final(self))
                },
                Err(e) => *final(self) == *old(self) && is_growth_failure(e),
            },
    {
        proof {
            use_type_invariant(&*mem);
            crate::memory::lemma_grown_from_itself(mem.spec_heap());
        }
        let data = self.data;
        let capacity = data.capacity();
        let ghost first = mem.spec_heap();
        let ghost old_table = dict_table(first, *self);
        let new_capacity = default_array_growth(capacity)?;
        let new_data: RawArray<DictItem> = RawArray::with_capacity(mem, new_capacity)?;
        let ghost made = mem.spec_heap();
        let ghost storage = new_data.spec_at()->0;
        let ghost blank = blank_table(new_capacity as nat);
        proof {
            use_type_invariant(&*mem);
            new_data.lemma_is_spec_of();
            lemma_zeroed_entry_is_blank();
            let zeros = made.spec_storage().payload(storage);
            assert forall|i: int| 0 <= i < new_capacity implies raw_item(made, new_data, i)
                == blank[i] by {
                crate::rawarray::lemma_item_ranges(i, 0, new_capacity as int, 24);
                assert(crate::rawarray::item_bytes_at::<DictItem>(zeros, i) =~= Seq::new(
                    24,
                    |k: int| 0u8,
                ));
            }
            assert(table_of(made, new_data) =~= blank);
            assert(table_of(made, data) =~= old_table);
            lemma_counts_of_blank(blank);
            assert(old_table.subrange(0, 0) =~= Seq::<DictItem>::empty());
            lemma_counts_are_bounded(old_table);
        }
        let mut index: ArraySize = 0;
        while index < capacity
            invariant
                index <= capacity == data.spec_capacity() == old_table.len(),
                new_capacity == new_data.spec_capacity(),
                Some(new_capacity) == spec_array_growth(capacity),
                capacity != 1,
                count_live(old_table) <= self.length,
                self.length <= self.used_entries,
                capacity > 0 ==> self.used_entries < capacity,
                new_data.spec_at() == Some(storage),
                !first.spec_storage().holds(storage),
                data.spec_at() != Some(storage),
                mem.spec_heap().wf(),
                first.wf(),
                mem.spec_heap().grown_from(first),
                mem.spec_heap().spec_syms() == first.spec_syms(),
                raw_is_held(mem.spec_heap(), new_data),
                raw_is_held(mem.spec_heap(), data),
                table_of(mem.spec_heap(), data) == old_table,
                table_of(mem.spec_heap(), new_data) == rehashed(old_table, index as int, blank),
                moved_from(table_of(mem.spec_heap(), new_data), old_table),
                count_live(table_of(mem.spec_heap(), new_data)) <= count_live(
                    old_table.subrange(0, index as int),
                ),
            decreases capacity - index,
        {
            let ghost before = mem.spec_heap();
            let ghost table = table_of(before, new_data);
            let entry = data.read_item(mem, index);
            proof {
                assert(entry == old_table[index as int]);
                lemma_live_in_prefix(old_table, index as int);
                lemma_live_in_prefix(old_table, index as int + 1);
                lemma_moved_has_no_tombstone(table, old_table);
            }
            if !entry.key.is_nil() {
                proof {
                    lemma_free_entry_exists(table);
                    let free = choose|free: int|
                        0 <= free < table.len() && !is_live(#[trigger] table[free])
                            && !is_spent(table[free]);
                    lemma_probe_ends(
                        table,
                        entry.hash,
                        entry.hash as int % table.len() as int,
                        None,
                        table.len(),
                        free,
                    );
                }
                let slot = match find_entry(mem, &new_data, entry.hash) {
                    Ok(slot) => slot,
                    Err(e) => {
                        proof {
                            assert(false);
                        }
                        return Err(RuntimeError::new(ErrorKind::BadAllocationRequest));
                    },
                };
                new_data.write_item(mem, slot, entry);
                proof {
                    use_type_invariant(&*mem);
                    let heap = mem.spec_heap();
                    crate::array::lemma_grown_beside(first, before, heap, storage);
                    let after = table_of(heap, new_data);
                    assert(after =~= table.update(slot as int, entry));
                    assert(table_of(heap, data) =~= old_table) by {
                        assert(heap.spec_storage().payload(data.spec_at()->0)
                            == before.spec_storage().payload(data.spec_at()->0));
                    }
                    lemma_counts_of_update(table, slot as int, entry);
                    assert forall|i: int| 0 <= i < after.len() implies {
                        ||| is_blank(#[trigger] after[i]) && after[i].value.spec_ptr().spec_word()
                            == 0
                        ||| is_live(after[i]) && exists|j: int|
                            0 <= j < old_table.len() && old_table[j] == after[i]
                    } by {
                        if i == slot {
                            assert(old_table[index as int] == after[i]);
                        } else {
                            assert(after[i] == table[i]);
                        }
                    }
                }
            }
            index = index + 1;
        }
        self.data = new_data;
        proof {
            let heap = mem.spec_heap();
            let table = dict_table(heap, *self);
            assert(table =~= table_of(heap, new_data));
            assert(old_table.subrange(0, capacity as int) =~= old_table);
            lemma_moved_has_no_tombstone(table, old_table);
            assert forall|i: int| 0 <= i < new_capacity implies heap.valid(
                (#[trigger] table[i]).value.spec_ptr(),
            ) by {
                if is_live(table[i]) {
                    let j = choose|j: int| 0 <= j < old_table.len() && old_table[j] == table[i];
                    assert(first.valid(old_table[j].value.spec_ptr()));
                    crate::memory::lemma_extends_keeps_valid(
                        first,
                        heap,
                        old_table[j].value.spec_ptr(),
                    );
                } else {
                    lemma_nil_is_valid(heap, table[i].value.spec_ptr());
                }
            }
        }
        Ok(())
    }
}

/// A dict that is in order stays in order, with its table, while the
/// memory grows.
pub proof fn lemma_dict_is_stable(before: Heap, after: Heap, dict: Dict)
    requires
        before.wf(),
        after.wf(),
        after.grown_from(before),
        dict_is_sound(before, dict),
        dict_values_are_valid(before, dict),
    ensures
        dict_table(after, dict) == dict_table(before, dict),
        dict_is_sound(after, dict),
        dict_values_are_valid(after, dict),
{
    assert(dict_table(after, dict) =~= dict_table(before, dict));
    assert forall|i: int| 0 <= i < dict.data.spec_capacity() implies after.valid(
        (#[trigger] dict_table(after, dict)[i]).value.spec_ptr(),
    ) by {
        crate::memory::lemma_extends_keeps_valid(
            before,
            after,
            dict_table(before, dict)[i].value.spec_ptr(),
        );
    }
}

/// The entry that the item of `key` and `value` with the hash `hash` is
/// kept in.
pub open spec fn entry_of(key: TaggedScopedPtr, value: TaggedScopedPtr, hash: u64) -> DictItem {
    DictItem {
        key: TaggedCellPtr::spec_of(key.spec_ptr()),
        value: TaggedCellPtr::spec_of(value.spec_ptr()),
        hash,
    }
}

/// The tombstone that is left of `entry` once its item is removed.
pub open spec fn tombstone_of(entry: DictItem) -> DictItem {
    DictItem {
        key: TaggedCellPtr::spec_of(TaggedPtr::spec_of(0)),
        value: entry.value,
        hash: TOMBSTONE,
    }
}

/// The table that an item is put into: the table of the dict, or the table
/// that it grows into if it is due to grow.
pub open spec fn table_to_put_into(heap: Heap, dict: Dict) -> Seq<DictItem> {
    if spec_needs_to_grow((dict.used_entries + 1) as ArraySize, dict.data.spec_capacity()) {
        rehashed(
            dict_table(heap, dict),
            dict.data.spec_capacity() as int,
            blank_table(spec_array_growth(dict.data.spec_capacity())->0 as nat),
        )
    } else {
        dict_table(heap, dict)
    }
}

impl Dict {
    /// Makes `key` stand for `value` in the dict. A dict that is due to
    /// grow grows first.
    pub fn assoc<'guard>(
        &mut self,
        mem: &mut MutatorView<'guard>,
        key: TaggedScopedPtr<'guard>,
        value: TaggedScopedPtr<'guard>,
    ) -> (r: Result<(), RuntimeError>)
        requires
            dict_is_sound(old(mem).spec_heap(), *old(self)),
            dict_values_are_valid(old(mem).spec_heap(), *old(self)),
            old(mem).holds(key),
            old(mem).holds(value),
        ensures
            changed_at_most(final(mem).spec_heap(), old(mem).spec_heap(), old(self).data.spec_at()),
            dict_is_sound(final(mem).spec_heap(), *final(self)),
            dict_values_are_valid(final(mem).spec_heap(), *final(self)),
            match r {
                Ok(()) => {
                    let hash = spec_hash_key(
                        old(mem).spec_heap(),
                        key.spec_value().spec_fat_ptr(),
                    )->0;
                    let table = table_to_put_into(old(mem).spec_heap(), *old(self));
                    &&& spec_hash_key(old(mem).spec_heap(), key.spec_value().spec_fat_ptr())
                        is Some
                    &&& slot_for(table, hash) is Some
                    &&& dict_table(final(mem).spec_heap(), *final(self)) == table.update(
                        slot_for(table, hash)->0,
                        entry_of(key, value, hash),
                    )
                    &&& dict_can_be_searched(*final(self))
                    &&& spec_lookup(
                        final(mem).spec_heap(),
                        *final(self),
                        key.spec_value().spec_fat_ptr(),
                    ) == Ok::<TaggedPtr, ErrorKind>(value.spec_ptr())
                },
                Err(e) => {
                    &&& *final(self) == *old(self)
                    &&& final(mem).spec_heap().grown_from(old(mem).spec_heap())
                    &&& e.spec_pos() is None
                    &&& if spec_hash_key(old(mem).spec_heap(), key.spec_value().spec_fat_ptr())
                        is None {
                        e.spec_kind() == ErrorKind::UnhashableError
                    } else {
                        is_growth_failure(e)
                    }
                },
            },
    {
        let ghost first = mem.spec_heap();
        let ghost fat = key.spec_value().spec_fat_ptr();
        proof {
            use_type_invariant(&*mem);
            crate::memory::lemma_grown_from_itself(first);
        }
        let hash = hash_key(mem, key)?;
        if needs_to_grow(self.used_entries + 1, self.data.capacity()) {
            match self.grow_capacity(mem) {
                Ok(()) => {},
                Err(e) => {
                    proof {
                        use_type_invariant(&*mem);
                        lemma_dict_is_stable(first, mem.spec_heap(), *self);
                    }
                    return Err(e);
                },
            }
        }
        let data = self.data;
        let ghost grown = mem.spec_heap();
        let ghost table = dict_table(grown, *self);
        proof {
            use_type_invariant(&*mem);
            assert(table =~= table_of(grown, data));
            lemma_search_ends(grown, *self, hash);
            crate::memory::lemma_extends_keeps_valid(first, grown, key.spec_ptr());
            crate::memory::lemma_extends_keeps_valid(first, grown, value.spec_ptr());
        }
        let slot = match find_entry(mem, &data, hash) {
            Ok(slot) => slot,
            Err(e) => {
                proof {
                    assert(false);
                }
                return Err(e);
            },
        };
        let mut entry = data.read_item(mem, slot);
        let ghost found = entry;
        proof {
            assert(found == table[slot as int]);
            lemma_counts_are_bounded(table);
        }
        if entry.key.is_nil() {
            self.length = self.length + 1;
            if entry.hash == 0 {
                self.used_entries = self.used_entries + 1;
            }
        }
        entry.key.set(key);
        entry.value.set(value);
        entry.hash = hash;
        proof {
            entry.key.lemma_is_spec_of();
            entry.value.lemma_is_spec_of();
            assert(entry == entry_of(key, value, hash));
        }
        data.write_item(mem, slot, entry);
        proof {
            use_type_invariant(&*mem);
            let heap = mem.spec_heap();
            let after = dict_table(heap, *self);
            assert(after =~= table.update(slot as int, entry));
            lemma_counts_of_update(table, slot as int, entry);
            TaggedCellPtr::lemma_spec_of(key.spec_ptr());
            TaggedCellPtr::lemma_spec_of(value.spec_ptr());
            assert(is_live(entry));
            crate::memory::lemma_extends_chain(first, grown, heap);
            assert forall|other: int|
                first.spec_storage().holds(other) && old(self).data.spec_at() != Some(
                    other,
                ) implies #[trigger] heap.spec_storage().payload(other) == first.spec_storage().payload(
                other,
            ) by {
                assert(grown.spec_storage().holds(other));
                assert(grown.spec_storage().payload(other) == first.spec_storage().payload(other));
                assert(data.spec_at() != Some(other));
            }
            crate::memory::lemma_extends_keeps_valid(grown, heap, value.spec_ptr());
            assert forall|i: int| 0 <= i < data.spec_capacity() implies heap.valid(
                (#[trigger] after[i]).value.spec_ptr(),
            ) by {
                if i != slot {
                    assert(after[i] == table[i]);
                    assert(grown.valid(table[i].value.spec_ptr()));
                    crate::memory::lemma_extends_keeps_valid(
                        grown,
                        heap,
                        table[i].value.spec_ptr(),
                    );
                }
            }
            lemma_probe_finds_what_was_put(
                table,
                hash,
                hash as int % table.len() as int,
                None,
                table.len(),
                entry,
            );
        }
        Ok(())
    }

    /// Removes the item of `key` from the dict and returns its value. The
    /// entry of the item becomes a tombstone.
    pub fn dissoc<'guard>(&mut self, mem: &mut MutatorView<'guard>, key: TaggedScopedPtr) -> (r:
        Result<TaggedScopedPtr<'guard>, RuntimeError>)
        requires
            dict_is_sound(old(mem).spec_heap(), *old(self)),
            dict_values_are_valid(old(mem).spec_heap(), *old(self)),
            dict_can_be_searched(*old(self)),
            old(mem).holds(key),
        ensures
            changed_at_most(final(mem).spec_heap(), old(mem).spec_heap(), old(self).data.spec_at()),
            final(self).data == old(self).data,
            final(self).used_entries == old(self).used_entries,
            dict_is_sound(final(mem).spec_heap(), *final(self)),
            dict_values_are_valid(final(mem).spec_heap(), *final(self)),
            match r {
                Ok(value) => {
                    let hash = spec_hash_key(
                        old(mem).spec_heap(),
                        key.spec_value().spec_fat_ptr(),
                    )->0;
                    let table = dict_table(old(mem).spec_heap(), *old(self));
                    &&& spec_lookup(
                        old(mem).spec_heap(),
                        *old(self),
                        key.spec_value().spec_fat_ptr(),
                    ) == Ok::<TaggedPtr, ErrorKind>(value.spec_ptr())
                    &&& final(mem).holds(value)
                    &&& final(self).length == old(self).length - 1
                    &&& dict_table(final(mem).spec_heap(), *final(self)) == table.update(
                        slot_for(table, hash)->0,
                        tombstone_of(table[slot_for(table, hash)->0]),
                    )
                },
                Err(e) => {
                    &&& *final(self) == *old(self)
                    &&& final(mem).spec_heap().grown_from(old(mem).spec_heap())
                    &&& spec_lookup(
                        old(mem).spec_heap(),
                        *old(self),
                        key.spec_value().spec_fat_ptr(),
                    ) == Err::<TaggedPtr, ErrorKind>(e.spec_kind())
                    &&& e.spec_pos() is None
                },
            },
    {
        let ghost first = mem.spec_heap();
        let ghost table = dict_table(first, *self);
        proof {
            use_type_invariant(&*mem);
            crate::memory::lemma_grown_from_itself(first);
        }
        let hash = hash_key(mem, key)?;
        let data = self.data;
        proof {
            if data.spec_ptr() is Some {
                lemma_search_ends(first, *self, hash);
            }
            assert(table =~= table_of(first, data));
        }
        let slot = find_entry(mem, &data, hash)?;
        let mut entry = data.read_item(mem, slot);
        let ghost found = entry;
        if entry.key.is_nil() {
            return Err(RuntimeError::new(ErrorKind::KeyError));
        }
        proof {
            assert(found == table[slot as int]);
            lemma_counts_are_bounded(table);
        }
        self.length = self.length - 1;
        entry.key.set_to_nil();
        entry.hash = TOMBSTONE;
        proof {
            entry.key.lemma_is_spec_of();
            entry.key.spec_ptr().lemma_is_spec_of();
            assert(entry == tombstone_of(found));
        }
        data.write_item(mem, slot, entry);
        proof {
            use_type_invariant(&*mem);
            let heap = mem.spec_heap();
            let after = dict_table(heap, *self);
            assert(after =~= table.update(slot as int, entry));
            lemma_counts_of_update(table, slot as int, entry);
            TaggedCellPtr::lemma_spec_of(TaggedPtr::spec_of(0));
            TaggedPtr::lemma_spec_of(0);
            assert forall|i: int| 0 <= i < data.spec_capacity() implies heap.valid(
                (#[trigger] after[i]).value.spec_ptr(),
            ) by {
                assert(first.valid(table[i].value.spec_ptr()));
                crate::memory::lemma_extends_keeps_valid(first, heap, table[i].value.spec_ptr());
            }
            crate::memory::lemma_extends_keeps_valid(first, heap, found.value.spec_ptr());
        }
        Ok(entry.value.get(mem))
    }

    /// A new dict in the heap, without items and without a table.
    pub fn allocate<'guard>(mem: &mut MutatorView<'guard>) -> (r: Result<
        ScopedPtr<'guard, Dict>,
        RuntimeError,
    >)
        ensures
            final(mem).spec_heap().grown_from(old(mem).spec_heap()),
            match r {
                Ok(ptr) => final(mem).holds_a(ptr) && !old(mem).spec_heap().spec_storage().holds(
                    ptr.spec_raw().spec_word() as int,
                ) && final(mem).object_at(ptr.spec_raw()).length == 0 && final(mem).object_at(
                    ptr.spec_raw(),
                ).used_entries == 0 && final(mem).object_at(ptr.spec_raw()).data == RawArray::<
                    DictItem,
                >::spec_of(0, None),
                Err(e) => is_growth_failure(e),
            },
    {
        let dict = Dict::new();
        proof {
            crate::allocator::lemma_object_bytes_round_trip::<TypeList, Dict>(dict);
        }
        match mem.allocate(dict) {
            Ok(ptr) => Ok(ptr),
            Err(e) => Err(e),
        }
    }

    /// A new dict in the heap, without items, with a table of `capacity`
    /// blank entries.
    pub fn alloc_with_capacity<'guard>(mem: &mut MutatorView<'guard>, capacity: ArraySize) -> (r:
        Result<ScopedPtr<'guard, Dict>, RuntimeError>)
        requires
            capacity != 1,
        ensures
            final(mem).spec_heap().grown_from(old(mem).spec_heap()),
            match r {
                Ok(ptr) => {
                    let dict = final(mem).object_at(ptr.spec_raw());
                    &&& final(mem).holds_a(ptr)
                    &&& !old(mem).spec_heap().spec_storage().holds(
                        ptr.spec_raw().spec_word() as int,
                    )
                    &&& dict.length == 0
                    &&& dict.used_entries == 0
                    &&& dict.data.spec_capacity() == capacity
                    &&& raw_is_held(final(mem).spec_heap(), dict.data)
                },
                Err(e) => is_growth_failure(e),
            },
    {
        let ghost first = mem.spec_heap();
        proof {
            use_type_invariant(&*mem);
        }
        let dict = Dict::with_capacity(mem, capacity)?;
        let ghost made = mem.spec_heap();
        proof {
            use_type_invariant(&*mem);
            crate::allocator::lemma_object_bytes_round_trip::<TypeList, Dict>(dict);
        }
        let r = mem.allocate(dict);
        proof {
            crate::memory::lemma_grown_chain(first, made, mem.spec_heap());
        }
        match r {
            Ok(ptr) => Ok(ptr),
            Err(e) => Err(e),
        }
    }
}

impl HashIndexedAnyContainer for Dict {
    open spec fn in_order(&self, heap: Heap) -> bool {
        dict_is_sound(heap, *self) && dict_values_are_valid(heap, *self)
    }

    open spec fn searchable(&self) -> bool {
        dict_can_be_searched(*self)
    }

    open spec fn found(&self, heap: Heap, key: FatPtr) -> Result<TaggedPtr, ErrorKind> {
        spec_lookup(heap, *self, key)
    }

    fn lookup<'guard>(&self, mem: &MutatorView<'guard>, key: TaggedScopedPtr) -> (r: Result<
        TaggedScopedPtr<'guard>,
        RuntimeError,
    >) {
        Dict::lookup(self, mem, key)
    }

    fn assoc<'guard>(
        &mut self,
        mem: &mut MutatorView<'guard>,
        key: TaggedScopedPtr<'guard>,
        value: TaggedScopedPtr<'guard>,
    ) -> (r: Result<(), RuntimeError>) {
        Dict::assoc(self, mem, key, value)
    }

    fn dissoc<'guard>(&mut self, mem: &mut MutatorView<'guard>, key: TaggedScopedPtr) -> (r:
        Result<TaggedScopedPtr<'guard>, RuntimeError>) {
        Dict::dissoc(self, mem, key)
    }

    fn has_key<'guard>(&self, mem: &MutatorView<'guard>, key: TaggedScopedPtr) -> (r: Result<
        bool,
        RuntimeError,
    >) {
        Dict::has_key(self, mem, key)
    }
}

/// The nil pointer is a pointer into every memory.
pub proof fn lemma_nil_is_valid(heap: Heap, ptr: TaggedPtr)
    requires
        ptr.spec_word() == 0,
    ensures
        heap.valid(ptr),
        heap.unpack(ptr) == Some(FatPtr::Nil),
{
}

impl AllocObject<TypeList> for Dict {
    open spec fn spec_type_id() -> TypeList {
        TypeList::Dict
    }

    fn type_id() -> (id: TypeList) {
        TypeList::Dict
    }

    open spec fn spec_word_count() -> nat {
        5
    }

    fn word_count() -> (count: usize) {
        5
    }

    open spec fn spec_words(&self) -> Seq<u64> {
        seq![self.length as u64, self.used_entries as u64] + self.data.spec_words()
    }

    fn to_words(&self) -> (words: Vec<u64>) {
        let mut words: Vec<u64> = Vec::new();
        words.push(word_of_u32(self.length));
        words.push(word_of_u32(self.used_entries));
        self.data.push_words(&mut words);
        proof {
            self.data.lemma_words_round_trip();
            assert(words@ =~= self.spec_words());
        }
        words
    }

    open spec fn spec_from_words(words: Seq<u64>) -> Dict {
        Dict {
            length: spec_u32_of_word(words[0]),
            used_entries: spec_u32_of_word(words[1]),
            data: RawArray::spec_from_words(words.subrange(2, 5)),
        }
    }

    fn from_words(words: &[u64]) -> (object: Dict) {
        Dict {
            length: u32_of_word(words[0]),
            used_entries: u32_of_word(words[1]),
            data: RawArray::from_words(words, 2),
        }
    }

    proof fn lemma_words_round_trip(&self) {
        self.data.lemma_words_round_trip();
        assert(self.spec_words().subrange(2, 5) =~= self.data.spec_words());
    }
}

} // verus!
