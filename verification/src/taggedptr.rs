//! Three forms of a pointer to a value of the runtime, from the packed to
//! the safe: `TaggedPtr`, a word whose lowest two bits say what it holds;
//! `FatPtr`, the same unpacked into an enum; `Value`, a `FatPtr` whose
//! pointers are bound to a mutator scope.

use vstd::prelude::*;
use vstd::std_specs::cmp::PartialEqSpecImpl;
use crate::allocator::{object_size, AllocObject};
use crate::array::{ArrayU16, ArrayU32, ArrayU8};
use crate::dict::Dict;
use crate::function::{Function, Partial};
use crate::headers::TypeList;
use crate::list::List;
use crate::number::NumberObject;
use crate::pair::Pair;
use crate::pointerops::{
    get_tag, lemma_tag_untag, spec_get_tag, spec_untag, Tagged, TAG_NUMBER, TAG_OBJECT, TAG_PAIR,
    TAG_SYMBOL,
};
use crate::rawptr::RawPtr;
use crate::safeptr::{MutatorScope, ScopedPtr};
use crate::symbol::Symbol;
use crate::text::Text;
use crate::vm::Upvalue;

verus! {

/// A value of the runtime, with every pointer bound to the mutator scope
/// `'guard`.
#[derive(Copy, Clone)]
pub enum Value<'guard> {
    ArrayU8(ScopedPtr<'guard, ArrayU8>),
    ArrayU16(ScopedPtr<'guard, ArrayU16>),
    ArrayU32(ScopedPtr<'guard, ArrayU32>),
    Dict(ScopedPtr<'guard, Dict>),
    Function(ScopedPtr<'guard, Function>),
    List(ScopedPtr<'guard, List>),
    Nil,
    Number(isize),
    NumberObject(ScopedPtr<'guard, NumberObject>),
    Pair(ScopedPtr<'guard, Pair>),
    Partial(ScopedPtr<'guard, Partial>),
    Symbol(ScopedPtr<'guard, Symbol>),
    Text(ScopedPtr<'guard, Text>),
    Upvalue(ScopedPtr<'guard, Upvalue>),
}

impl<'guard> MutatorScope for Value<'guard> {

}

/// A pointer unpacked into an enum: one variant for each type of object, one
/// for nil and one for an inline number.
#[derive(Copy, Clone)]
pub enum FatPtr {
    ArrayU8(RawPtr<ArrayU8>),
    ArrayU16(RawPtr<ArrayU16>),
    ArrayU32(RawPtr<ArrayU32>),
    Dict(RawPtr<Dict>),
    Function(RawPtr<Function>),
    List(RawPtr<List>),
    Nil,
    Number(isize),
    NumberObject(RawPtr<NumberObject>),
    Pair(RawPtr<Pair>),
    Partial(RawPtr<Partial>),
    Symbol(RawPtr<Symbol>),
    Text(RawPtr<Text>),
    Upvalue(RawPtr<Upvalue>),
}

impl<'guard> Value<'guard> {
    /// The pointer that the value holds, without the scope.
    pub open spec fn spec_fat_ptr(self) -> FatPtr {
        match self {
            Value::ArrayU8(p) => FatPtr::ArrayU8(p.spec_raw()),
            Value::ArrayU16(p) => FatPtr::ArrayU16(p.spec_raw()),
            Value::ArrayU32(p) => FatPtr::ArrayU32(p.spec_raw()),
            Value::Dict(p) => FatPtr::Dict(p.spec_raw()),
            Value::Function(p) => FatPtr::Function(p.spec_raw()),
            Value::List(p) => FatPtr::List(p.spec_raw()),
            Value::Nil => FatPtr::Nil,
            Value::Number(n) => FatPtr::Number(n),
            Value::NumberObject(p) => FatPtr::NumberObject(p.spec_raw()),
            Value::Pair(p) => FatPtr::Pair(p.spec_raw()),
            Value::Partial(p) => FatPtr::Partial(p.spec_raw()),
            Value::Symbol(p) => FatPtr::Symbol(p.spec_raw()),
            Value::Text(p) => FatPtr::Text(p.spec_raw()),
            Value::Upvalue(p) => FatPtr::Upvalue(p.spec_raw()),
        }
    }

    /// The pointer that the value holds, without the scope.
    pub fn fat_ptr(&self) -> (fat: FatPtr)
        ensures
            fat == self.spec_fat_ptr(),
    {
        match self {
            Value::ArrayU8(p) => FatPtr::ArrayU8(p.as_raw()),
            Value::ArrayU16(p) => FatPtr::ArrayU16(p.as_raw()),
            Value::ArrayU32(p) => FatPtr::ArrayU32(p.as_raw()),
            Value::Dict(p) => FatPtr::Dict(p.as_raw()),
            Value::Function(p) => FatPtr::Function(p.as_raw()),
            Value::List(p) => FatPtr::List(p.as_raw()),
            Value::Nil => FatPtr::Nil,
            Value::Number(n) => FatPtr::Number(*n),
            Value::NumberObject(p) => FatPtr::NumberObject(p.as_raw()),
            Value::Pair(p) => FatPtr::Pair(p.as_raw()),
            Value::Partial(p) => FatPtr::Partial(p.as_raw()),
            Value::Symbol(p) => FatPtr::Symbol(p.as_raw()),
            Value::Text(p) => FatPtr::Text(p.as_raw()),
            Value::Upvalue(p) => FatPtr::Upvalue(p.as_raw()),
        }
    }
}

/// The word that stands for the inline number `value`: four times the
/// value, cut to the width of a machine word. Its tag bits are zero.
pub open spec fn number_word(value: int) -> int {
    (value * 4) % (usize::MAX + 1)
}

/// The number that a word with the number tag stands for: the word read as
/// a signed number and shifted right by two bits, the sign kept.
pub open spec fn number_value(word: int) -> int {
    if word <= isize::MAX {
        word / 4
    } else {
        (word - usize::MAX - 1) / 4
    }
}

/// Whether `value` is a number that a tagged pointer holds without loss: four
/// times the value is a signed machine word.
pub open spec fn fits_inline(value: int) -> bool {
    isize::MIN <= value * 4 <= isize::MAX
}

/// The word of a number in terms of the quarter of the word range.
pub proof fn lemma_number_word(value: int)
    ensures
        0 <= number_word(value) <= usize::MAX,
        number_word(value) % 4 == 0,
        value >= 0 ==> number_word(value) == (value % (usize::MAX / 4 + 1)) * 4,
        value < 0 && (-value) % (usize::MAX / 4 + 1) == 0 ==> number_word(value) == 0,
        value < 0 && (-value) % (usize::MAX / 4 + 1) != 0 ==> number_word(value) == (usize::MAX / 4
            + 1 - (-value) % (usize::MAX / 4 + 1)) * 4,
{
    if usize::MAX == 0xffff_ffff {
        lemma_number_word_of_width(value, 0x4000_0000);
    } else {
        assert(usize::MAX == 0xffff_ffff_ffff_ffff);
        lemma_number_word_of_width(value, 0x4000_0000_0000_0000);
    }
}

/// Four times a number, cut to a range of four times `quarter`, in terms
/// of the number cut to `quarter`.
proof fn lemma_number_word_of_width(value: int, quarter: int)
    requires
        quarter > 0,
    ensures
        0 <= (value * 4) % (4 * quarter) < 4 * quarter,
        ((value * 4) % (4 * quarter)) % 4 == 0,
        value >= 0 ==> (value * 4) % (4 * quarter) == (value % quarter) * 4,
        value < 0 && (-value) % quarter == 0 ==> (value * 4) % (4 * quarter) == 0,
        value < 0 && (-value) % quarter != 0 ==> (value * 4) % (4 * quarter) == (quarter - (
        -value) % quarter) * 4,
{
    let q = value / quarter;
    let r = value % quarter;
    vstd::arithmetic::div_mod::lemma_fundamental_div_mod(value, quarter);
    vstd::arithmetic::div_mod::lemma_mod_bound(value, quarter);
    assert(value * 4 == (4 * quarter) * q + 4 * r) by (nonlinear_arith)
        requires
            value == quarter * q + r,
    ;
    assert(0 <= 4 * r < 4 * quarter);
    vstd::arithmetic::div_mod::lemma_fundamental_div_mod_converse(
        value * 4,
        4 * quarter,
        q,
        4 * r,
    );
    assert((value * 4) % (4 * quarter) == 4 * r);
    if value < 0 {
        let nq = (-value) / quarter;
        let nr = (-value) % quarter;
        vstd::arithmetic::div_mod::lemma_fundamental_div_mod(-value, quarter);
        vstd::arithmetic::div_mod::lemma_mod_bound(-value, quarter);
        if nr == 0 {
            assert(value == quarter * (-nq) + 0) by (nonlinear_arith)
                requires
                    -value == quarter * nq + nr,
                    nr == 0,
            ;
            vstd::arithmetic::div_mod::lemma_fundamental_div_mod_converse(
                value,
                quarter,
                -nq,
                0,
            );
        } else {
            assert(value == quarter * (-nq - 1) + (quarter - nr)) by (nonlinear_arith)
                requires
                    -value == quarter * nq + nr,
            ;
            vstd::arithmetic::div_mod::lemma_fundamental_div_mod_converse(
                value,
                quarter,
                -nq - 1,
                quarter - nr,
            );
        }
    }
}

/// A number that fits comes back from its word, and only zero has the word
/// zero, which is nil.
pub proof fn lemma_number_round_trip(value: int)
    requires
        fits_inline(value),
    ensures
        number_value(number_word(value)) == value,
        number_word(value) == 0 <==> value == 0,
        number_word(value) % 4 == 0,
{
    let quarter = usize::MAX / 4 + 1;
    lemma_number_word_of_width(value, quarter);
    assert(4 * quarter == usize::MAX + 1);
    assert(isize::MAX * 2 + 1 == usize::MAX);
    if value >= 0 {
        vstd::arithmetic::div_mod::lemma_small_mod(value as nat, quarter as nat);
    } else {
        vstd::arithmetic::div_mod::lemma_small_mod((-value) as nat, quarter as nat);
    }
}

/// The pointer to an object of the type that `type_id` names at address
/// `addr`, if a `FatPtr` has a variant for the type.
pub open spec fn fat_ptr_of_type(type_id: TypeList, addr: usize) -> Option<FatPtr> {
    match type_id {
        TypeList::ArrayU8 => Some(FatPtr::ArrayU8(RawPtr::spec_new(addr))),
        TypeList::ArrayU16 => Some(FatPtr::ArrayU16(RawPtr::spec_new(addr))),
        TypeList::ArrayU32 => Some(FatPtr::ArrayU32(RawPtr::spec_new(addr))),
        TypeList::Dict => Some(FatPtr::Dict(RawPtr::spec_new(addr))),
        TypeList::Function => Some(FatPtr::Function(RawPtr::spec_new(addr))),
        TypeList::List => Some(FatPtr::List(RawPtr::spec_new(addr))),
        TypeList::NumberObject => Some(FatPtr::NumberObject(RawPtr::spec_new(addr))),
        TypeList::Pair => Some(FatPtr::Pair(RawPtr::spec_new(addr))),
        TypeList::Partial => Some(FatPtr::Partial(RawPtr::spec_new(addr))),
        TypeList::Symbol => Some(FatPtr::Symbol(RawPtr::spec_new(addr))),
        TypeList::Text => Some(FatPtr::Text(RawPtr::spec_new(addr))),
        TypeList::Upvalue => Some(FatPtr::Upvalue(RawPtr::spec_new(addr))),
        _ => None,
    }
}

/// The pointer that a word stands for, where `type_id` is the type that the
/// header names of the object that a word with the object tag points at.
/// There is none where the tag bits are followed by a null address, or where
/// the header names a type that `FatPtr` has no variant for.
pub open spec fn fat_ptr_of_word(word: usize, type_id: TypeList) -> Option<FatPtr> {
    if word == 0 {
        Some(FatPtr::Nil)
    } else if spec_get_tag(word) == TAG_NUMBER {
        Some(FatPtr::Number(number_value(word as int) as isize))
    } else if spec_untag(word) == 0 {
        None
    } else if spec_get_tag(word) == TAG_SYMBOL {
        Some(FatPtr::Symbol(RawPtr::spec_new(spec_untag(word))))
    } else if spec_get_tag(word) == TAG_PAIR {
        Some(FatPtr::Pair(RawPtr::spec_new(spec_untag(word))))
    } else {
        fat_ptr_of_type(type_id, spec_untag(word))
    }
}

/// The word that stands for a pointer: zero for nil, the number's word for a
/// number, and for a pointer to an object its address with the tag of a
/// symbol, of a pair, or of any other object.
pub open spec fn word_of_fat_ptr(ptr: FatPtr) -> usize {
    match ptr {
        FatPtr::ArrayU8(raw) => raw.spec_word() | TAG_OBJECT,
        FatPtr::ArrayU16(raw) => raw.spec_word() | TAG_OBJECT,
        FatPtr::ArrayU32(raw) => raw.spec_word() | TAG_OBJECT,
        FatPtr::Dict(raw) => raw.spec_word() | TAG_OBJECT,
        FatPtr::Function(raw) => raw.spec_word() | TAG_OBJECT,
        FatPtr::List(raw) => raw.spec_word() | TAG_OBJECT,
        FatPtr::Nil => 0,
        FatPtr::Number(value) => number_word(value as int) as usize,
        FatPtr::NumberObject(raw) => raw.spec_word() | TAG_OBJECT,
        FatPtr::Pair(raw) => raw.spec_word() | TAG_PAIR,
        FatPtr::Partial(raw) => raw.spec_word() | TAG_OBJECT,
        FatPtr::Text(raw) => raw.spec_word() | TAG_OBJECT,
        FatPtr::Symbol(raw) => raw.spec_word() | TAG_SYMBOL,
        FatPtr::Upvalue(raw) => raw.spec_word() | TAG_OBJECT,
    }
}

/// The address that a pointer holds, if it points at an object.
pub open spec fn addr_of_fat_ptr(ptr: FatPtr) -> Option<usize> {
    match ptr {
        FatPtr::ArrayU8(raw) => Some(raw.spec_word()),
        FatPtr::ArrayU16(raw) => Some(raw.spec_word()),
        FatPtr::ArrayU32(raw) => Some(raw.spec_word()),
        FatPtr::Dict(raw) => Some(raw.spec_word()),
        FatPtr::Function(raw) => Some(raw.spec_word()),
        FatPtr::List(raw) => Some(raw.spec_word()),
        FatPtr::Nil => None,
        FatPtr::Number(value) => None,
        FatPtr::NumberObject(raw) => Some(raw.spec_word()),
        FatPtr::Pair(raw) => Some(raw.spec_word()),
        FatPtr::Partial(raw) => Some(raw.spec_word()),
        FatPtr::Text(raw) => Some(raw.spec_word()),
        FatPtr::Symbol(raw) => Some(raw.spec_word()),
        FatPtr::Upvalue(raw) => Some(raw.spec_word()),
    }
}

/// The type that a header names for the object that a pointer points at, if
/// it points at one.
pub open spec fn type_of_fat_ptr(ptr: FatPtr) -> Option<TypeList> {
    match ptr {
        FatPtr::ArrayU8(raw) => Some(TypeList::ArrayU8),
        FatPtr::ArrayU16(raw) => Some(TypeList::ArrayU16),
        FatPtr::ArrayU32(raw) => Some(TypeList::ArrayU32),
        FatPtr::Dict(raw) => Some(TypeList::Dict),
        FatPtr::Function(raw) => Some(TypeList::Function),
        FatPtr::List(raw) => Some(TypeList::List),
        FatPtr::Nil => None,
        FatPtr::Number(value) => None,
        FatPtr::NumberObject(raw) => Some(TypeList::NumberObject),
        FatPtr::Pair(raw) => Some(TypeList::Pair),
        FatPtr::Partial(raw) => Some(TypeList::Partial),
        FatPtr::Text(raw) => Some(TypeList::Text),
        FatPtr::Symbol(raw) => Some(TypeList::Symbol),
        FatPtr::Upvalue(raw) => Some(TypeList::Upvalue),
    }
}

/// Packing a pointer into a word and unpacking the word gives the pointer
/// back, for a number that fits and is not zero, and for a pointer to an
/// object at a non-null address that is a multiple of four, where the header
/// of the object names the type of the pointer.
pub proof fn lemma_fat_ptr_round_trip(ptr: FatPtr)
    requires
        ptr matches FatPtr::Number(value) ==> fits_inline(value as int) && value != 0,
        addr_of_fat_ptr(ptr) matches Some(addr) ==> addr != 0 && addr % 4 == 0,
    ensures
        fat_ptr_of_word(
            word_of_fat_ptr(ptr),
            match type_of_fat_ptr(ptr) {
                Some(type_id) => type_id,
                None => TypeList::Pair,
            },
        ) == Some(ptr),
{
    match ptr {
        FatPtr::Nil => {},
        FatPtr::Number(value) => {
            lemma_number_round_trip(value as int);
            lemma_number_word(value as int);
        },
        _ => {
            let addr = addr_of_fat_ptr(ptr)->0;
            lemma_tag_untag(addr, TAG_OBJECT);
            lemma_tag_untag(addr, TAG_PAIR);
            lemma_tag_untag(addr, TAG_SYMBOL);
            match ptr {
                FatPtr::ArrayU8(raw) => raw.lemma_is_spec_new(),
                FatPtr::ArrayU16(raw) => raw.lemma_is_spec_new(),
                FatPtr::ArrayU32(raw) => raw.lemma_is_spec_new(),
                FatPtr::Dict(raw) => raw.lemma_is_spec_new(),
                FatPtr::Function(raw) => raw.lemma_is_spec_new(),
                FatPtr::List(raw) => raw.lemma_is_spec_new(),
                FatPtr::NumberObject(raw) => raw.lemma_is_spec_new(),
                FatPtr::Pair(raw) => raw.lemma_is_spec_new(),
                FatPtr::Partial(raw) => raw.lemma_is_spec_new(),
                FatPtr::Text(raw) => raw.lemma_is_spec_new(),
                FatPtr::Symbol(raw) => raw.lemma_is_spec_new(),
                FatPtr::Upvalue(raw) => raw.lemma_is_spec_new(),
                _ => {},
            }
        },
    }
}

impl FatPtr {
    /// The same pointer, bound to the scope of `guard`.
    pub fn as_value<'guard>(&self, guard: &'guard dyn MutatorScope) -> (value: Value<'guard>)
        ensures
            value.spec_fat_ptr() == *self,
    {
        match self {
            FatPtr::ArrayU8(raw) => Value::ArrayU8(ScopedPtr::new(guard, *raw)),
            FatPtr::ArrayU16(raw) => Value::ArrayU16(ScopedPtr::new(guard, *raw)),
            FatPtr::ArrayU32(raw) => Value::ArrayU32(ScopedPtr::new(guard, *raw)),
            FatPtr::Dict(raw) => Value::Dict(ScopedPtr::new(guard, *raw)),
            FatPtr::Function(raw) => Value::Function(ScopedPtr::new(guard, *raw)),
            FatPtr::List(raw) => Value::List(ScopedPtr::new(guard, *raw)),
            FatPtr::Nil => Value::Nil,
            FatPtr::Number(num) => Value::Number(*num),
            FatPtr::NumberObject(raw) => Value::NumberObject(ScopedPtr::new(guard, *raw)),
            FatPtr::Pair(raw) => Value::Pair(ScopedPtr::new(guard, *raw)),
            FatPtr::Partial(raw) => Value::Partial(ScopedPtr::new(guard, *raw)),
            FatPtr::Symbol(raw) => Value::Symbol(ScopedPtr::new(guard, *raw)),
            FatPtr::Text(raw) => Value::Text(ScopedPtr::new(guard, *raw)),
            FatPtr::Upvalue(raw) => Value::Upvalue(ScopedPtr::new(guard, *raw)),
        }
    }

    /// The pointer to an object of the type that `type_id` names at address
    /// `addr`, if there is a variant for the type.
    pub fn of_type(type_id: TypeList, addr: usize) -> (ptr: Option<FatPtr>)
        ensures
            ptr == fat_ptr_of_type(type_id, addr),
    {
        match type_id {
            TypeList::ArrayU8 => Some(FatPtr::ArrayU8(RawPtr::new(addr))),
            TypeList::ArrayU16 => Some(FatPtr::ArrayU16(RawPtr::new(addr))),
            TypeList::ArrayU32 => Some(FatPtr::ArrayU32(RawPtr::new(addr))),
            TypeList::Dict => Some(FatPtr::Dict(RawPtr::new(addr))),
            TypeList::Function => Some(FatPtr::Function(RawPtr::new(addr))),
            TypeList::List => Some(FatPtr::List(RawPtr::new(addr))),
            TypeList::NumberObject => Some(FatPtr::NumberObject(RawPtr::new(addr))),
            TypeList::Pair => Some(FatPtr::Pair(RawPtr::new(addr))),
            TypeList::Partial => Some(FatPtr::Partial(RawPtr::new(addr))),
            TypeList::Symbol => Some(FatPtr::Symbol(RawPtr::new(addr))),
            TypeList::Text => Some(FatPtr::Text(RawPtr::new(addr))),
            TypeList::Upvalue => Some(FatPtr::Upvalue(RawPtr::new(addr))),
            _ => None,
        }
    }
}

impl PartialEq for FatPtr {
    /// Identity of what is pointed at. Only nil, pairs, symbols, numbers and
    /// number objects are ever equal.
    fn eq(&self, other: &FatPtr) -> (equal: bool) {
        match (*self, *other) {
            (FatPtr::Nil, FatPtr::Nil) => true,
            (FatPtr::Pair(p), FatPtr::Pair(q)) => p.as_word() == q.as_word(),
            (FatPtr::Symbol(p), FatPtr::Symbol(q)) => p.as_word() == q.as_word(),
            (FatPtr::Number(i), FatPtr::Number(j)) => i == j,
            (FatPtr::NumberObject(p), FatPtr::NumberObject(q)) => p.as_word() == q.as_word(),
            _ => false,
        }
    }
}

impl PartialEqSpecImpl for FatPtr {
    open spec fn obeys_eq_spec() -> bool {
        true
    }

    open spec fn eq_spec(&self, other: &FatPtr) -> bool {
        match (*self, *other) {
            (FatPtr::Nil, FatPtr::Nil) => true,
            (FatPtr::Pair(p), FatPtr::Pair(q)) => p.spec_word() == q.spec_word(),
            (FatPtr::Symbol(p), FatPtr::Symbol(q)) => p.spec_word() == q.spec_word(),
            (FatPtr::Number(i), FatPtr::Number(j)) => i == j,
            (FatPtr::NumberObject(p), FatPtr::NumberObject(q)) => p.spec_word() == q.spec_word(),
            _ => false,
        }
    }
}

/// A pointer packed into a word, the type of what it points at in its lowest
/// two bits.
#[derive(Copy, Clone, Debug, PartialEq, Eq, Structural)]
pub struct TaggedPtr {
    tag: usize,
}

impl TaggedPtr {
    /// The word.
    pub closed spec fn spec_word(&self) -> usize {
        self.tag
    }

    /// The tagged pointer that is the word `word`.
    pub closed spec fn spec_of(word: usize) -> TaggedPtr {
        TaggedPtr { tag: word }
    }

    /// A tagged pointer is its word.
    pub broadcast proof fn lemma_spec_of(word: usize)
        ensures
            (#[trigger] Self::spec_of(word)).spec_word() == word,
    {
    }

    /// A tagged pointer is made of its word.
    pub proof fn lemma_is_spec_of(self)
        ensures
            self == Self::spec_of(self.spec_word()),
    {
    }

    /// Two tagged pointers with the same word are the same.
    pub proof fn lemma_same_word(self, other: TaggedPtr)
        requires
            self.spec_word() == other.spec_word(),
        ensures
            self == other,
    {
    }

    /// The nil pointer: the word zero.
    pub fn nil() -> (ptr: TaggedPtr)
        ensures
            ptr.spec_word() == 0,
    {
        TaggedPtr { tag: 0 }
    }

    /// Whether the pointer is nil.
    pub fn is_nil(&self) -> (nil: bool)
        ensures
            nil == (self.spec_word() == 0),
    {
        self.tag == 0
    }

    /// The word.
    pub fn as_word(&self) -> (word: usize)
        ensures
            word == self.spec_word(),
    {
        self.tag
    }

    /// The tagged pointer that is the word `word`.
    pub fn from_word(word: usize) -> (ptr: TaggedPtr)
        ensures
            ptr.spec_word() == word,
            ptr == Self::spec_of(word),
    {
        TaggedPtr { tag: word }
    }

    /// A pointer to an object that is neither a pair nor a symbol.
    pub fn object<T>(ptr: RawPtr<T>) -> (tagged: TaggedPtr)
        ensures
            tagged.spec_word() == ptr.spec_word() | TAG_OBJECT,
    {
        TaggedPtr { tag: ptr.tag(TAG_OBJECT) }
    }

    /// A pointer to a pair.
    pub fn pair(ptr: RawPtr<Pair>) -> (tagged: TaggedPtr)
        ensures
            tagged.spec_word() == ptr.spec_word() | TAG_PAIR,
    {
        TaggedPtr { tag: ptr.tag(TAG_PAIR) }
    }

    /// A pointer to a symbol.
    pub fn symbol(ptr: RawPtr<Symbol>) -> (tagged: TaggedPtr)
        ensures
            tagged.spec_word() == ptr.spec_word() | TAG_SYMBOL,
    {
        TaggedPtr { tag: ptr.tag(TAG_SYMBOL) }
    }

    /// An inline number.
    pub fn number(value: isize) -> (tagged: TaggedPtr)
        ensures
            tagged.spec_word() == number_word(value as int),
    {
        let quarter: usize = usize::MAX / 4 + 1;
        proof {
            lemma_number_word(value as int);
        }
        let word: usize = if value >= 0 {
            ((value as usize) % quarter) * 4
        } else {
            let negated: usize = ((-(value + 1)) as usize) + 1;
            let rest: usize = negated % quarter;
            if rest == 0 {
                0
            } else {
                (quarter - rest) * 4
            }
        };
        TaggedPtr { tag: word }
    }

    /// An inline number from a literal of 16 bits.
    pub fn literal_integer(value: i16) -> (tagged: TaggedPtr)
        ensures
            tagged.spec_word() == number_word(value as int),
            fits_inline(value as int),
    {
        TaggedPtr::number(value as isize)
    }

    /// The number that a word with the number tag stands for.
    pub fn number_of_word(word: usize) -> (value: isize)
        ensures
            value == number_value(word as int),
    {
        if word <= isize::MAX as usize {
            (word / 4) as isize
        } else {
            let below: usize = usize::MAX - word;
            -((below / 4) as isize) - 1
        }
    }

    /// The unpacked form of the pointer, where `type_id` is the type that the
    /// header names of the object that a pointer with the object tag points
    /// at.
    pub fn into_fat_ptr(&self, type_id: TypeList) -> (ptr: FatPtr)
        requires
            fat_ptr_of_word(self.spec_word(), type_id) is Some,
        ensures
            Some(ptr) == fat_ptr_of_word(self.spec_word(), type_id),
    {
        if self.tag == 0 {
            FatPtr::Nil
        } else {
            let tag = get_tag(self.tag);
            if tag == TAG_NUMBER {
                FatPtr::Number(TaggedPtr::number_of_word(self.tag))
            } else if tag == TAG_SYMBOL {
                FatPtr::Symbol(RawPtr::untag(self.tag))
            } else if tag == TAG_PAIR {
                FatPtr::Pair(RawPtr::untag(self.tag))
            } else {
                let raw: RawPtr<u8> = RawPtr::untag(self.tag);
                FatPtr::of_type(type_id, raw.as_word()).unwrap()
            }
        }
    }
}

impl From<FatPtr> for TaggedPtr {
    fn from(ptr: FatPtr) -> (tagged: TaggedPtr) {
        match ptr {
            FatPtr::ArrayU8(raw) => TaggedPtr::object(raw),
            FatPtr::ArrayU16(raw) => TaggedPtr::object(raw),
            FatPtr::ArrayU32(raw) => TaggedPtr::object(raw),
            FatPtr::Dict(raw) => TaggedPtr::object(raw),
            FatPtr::Function(raw) => TaggedPtr::object(raw),
            FatPtr::List(raw) => TaggedPtr::object(raw),
            FatPtr::Nil => TaggedPtr::nil(),
            FatPtr::Number(value) => TaggedPtr::number(value),
            FatPtr::NumberObject(raw) => TaggedPtr::object(raw),
            FatPtr::Pair(raw) => TaggedPtr::pair(raw),
            FatPtr::Partial(raw) => TaggedPtr::object(raw),
            FatPtr::Text(raw) => TaggedPtr::object(raw),
            FatPtr::Symbol(raw) => TaggedPtr::symbol(raw),
            FatPtr::Upvalue(raw) => TaggedPtr::object(raw),
        }
    }
}

impl vstd::std_specs::convert::FromSpecImpl<FatPtr> for TaggedPtr {
    open spec fn obeys_from_spec() -> bool {
        true
    }

    open spec fn from_spec(ptr: FatPtr) -> TaggedPtr {
        TaggedPtr::spec_of(word_of_fat_ptr(ptr))
    }
}

/// The bytes that an object takes whose type a `FatPtr` has a variant for.
pub open spec fn type_size(type_id: TypeList) -> nat {
    match type_id {
        TypeList::Pair => 48,
        TypeList::Symbol => 16,
        TypeList::Text => 24,
        TypeList::Upvalue => 24,
        _ => 40,
    }
}

/// A type of object that a `FatPtr` has a variant for.
pub trait Managed: AllocObject<TypeList> {
    /// The `FatPtr` that points at the object of this type that `ptr` points
    /// at.
    spec fn spec_fat_ptr(ptr: RawPtr<Self>) -> FatPtr;

    fn fat_ptr(ptr: RawPtr<Self>) -> (fat: FatPtr)
        ensures
            fat == Self::spec_fat_ptr(ptr),
            addr_of_fat_ptr(fat) == Some(ptr.spec_word()),
            type_of_fat_ptr(fat) == Some(Self::spec_type_id()),
    ;

    /// An object of this type takes the bytes that objects of its type take.
    proof fn lemma_type_size()
        ensures
            object_size::<TypeList, Self>() == type_size(Self::spec_type_id()),
    ;
}

impl Managed for ArrayU8 {
    open spec fn spec_fat_ptr(ptr: RawPtr<ArrayU8>) -> FatPtr {
        FatPtr::ArrayU8(ptr)
    }

    fn fat_ptr(ptr: RawPtr<ArrayU8>) -> (fat: FatPtr) {
        FatPtr::ArrayU8(ptr)
    }

    proof fn lemma_type_size() {
    }
}

impl Managed for ArrayU16 {
    open spec fn spec_fat_ptr(ptr: RawPtr<ArrayU16>) -> FatPtr {
        FatPtr::ArrayU16(ptr)
    }

    fn fat_ptr(ptr: RawPtr<ArrayU16>) -> (fat: FatPtr) {
        FatPtr::ArrayU16(ptr)
    }

    proof fn lemma_type_size() {
    }
}

impl Managed for ArrayU32 {
    open spec fn spec_fat_ptr(ptr: RawPtr<ArrayU32>) -> FatPtr {
        FatPtr::ArrayU32(ptr)
    }

    fn fat_ptr(ptr: RawPtr<ArrayU32>) -> (fat: FatPtr) {
        FatPtr::ArrayU32(ptr)
    }

    proof fn lemma_type_size() {
    }
}

impl Managed for Dict {
    open spec fn spec_fat_ptr(ptr: RawPtr<Dict>) -> FatPtr {
        FatPtr::Dict(ptr)
    }

    fn fat_ptr(ptr: RawPtr<Dict>) -> (fat: FatPtr) {
        FatPtr::Dict(ptr)
    }

    proof fn lemma_type_size() {
    }
}

impl Managed for Function {
    open spec fn spec_fat_ptr(ptr: RawPtr<Function>) -> FatPtr {
        FatPtr::Function(ptr)
    }

    fn fat_ptr(ptr: RawPtr<Function>) -> (fat: FatPtr) {
        FatPtr::Function(ptr)
    }

    proof fn lemma_type_size() {
    }
}

impl Managed for List {
    open spec fn spec_fat_ptr(ptr: RawPtr<List>) -> FatPtr {
        FatPtr::List(ptr)
    }

    fn fat_ptr(ptr: RawPtr<List>) -> (fat: FatPtr) {
        FatPtr::List(ptr)
    }

    proof fn lemma_type_size() {
    }
}

impl Managed for NumberObject {
    open spec fn spec_fat_ptr(ptr: RawPtr<NumberObject>) -> FatPtr {
        FatPtr::NumberObject(ptr)
    }

    fn fat_ptr(ptr: RawPtr<NumberObject>) -> (fat: FatPtr) {
        FatPtr::NumberObject(ptr)
    }

    proof fn lemma_type_size() {
    }
}

impl Managed for Pair {
    open spec fn spec_fat_ptr(ptr: RawPtr<Pair>) -> FatPtr {
        FatPtr::Pair(ptr)
    }

    fn fat_ptr(ptr: RawPtr<Pair>) -> (fat: FatPtr) {
        FatPtr::Pair(ptr)
    }

    proof fn lemma_type_size() {
    }
}

impl Managed for Partial {
    open spec fn spec_fat_ptr(ptr: RawPtr<Partial>) -> FatPtr {
        FatPtr::Partial(ptr)
    }

    fn fat_ptr(ptr: RawPtr<Partial>) -> (fat: FatPtr) {
        FatPtr::Partial(ptr)
    }

    proof fn lemma_type_size() {
    }
}

impl Managed for Symbol {
    open spec fn spec_fat_ptr(ptr: RawPtr<Symbol>) -> FatPtr {
        FatPtr::Symbol(ptr)
    }

    fn fat_ptr(ptr: RawPtr<Symbol>) -> (fat: FatPtr) {
        FatPtr::Symbol(ptr)
    }

    proof fn lemma_type_size() {
    }
}

impl Managed for Text {
    open spec fn spec_fat_ptr(ptr: RawPtr<Text>) -> FatPtr {
        FatPtr::Text(ptr)
    }

    fn fat_ptr(ptr: RawPtr<Text>) -> (fat: FatPtr) {
        FatPtr::Text(ptr)
    }

    proof fn lemma_type_size() {
    }
}

impl Managed for Upvalue {
    open spec fn spec_fat_ptr(ptr: RawPtr<Upvalue>) -> FatPtr {
        FatPtr::Upvalue(ptr)
    }

    fn fat_ptr(ptr: RawPtr<Upvalue>) -> (fat: FatPtr) {
        FatPtr::Upvalue(ptr)
    }

    proof fn lemma_type_size() {
    }
}

} // verus!
