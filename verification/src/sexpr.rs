//! S-expressions as trees, and what it means for a pointer into the memory
//! to stand for one.

use vstd::prelude::*;
use vstd::utf8::encode_utf8;
use crate::allocator::AllocObject;
use crate::array::{array_is_held, array_items, lemma_array_is_kept};
use crate::bytecode::{opcode_text, ByteCode, Opcode};
use crate::strings::joined;
use crate::error::SourcePos;
use crate::function::{Function, Partial};
use crate::headers::TypeList;
use crate::list::List;
use crate::memory::{lemma_extends_keeps_valid, Heap};

use crate::pair::{pair_at, pair_of};
use crate::symbolmap::lemma_name_is_stable;
use crate::taggedptr::{addr_of_fat_ptr, type_of_fat_ptr, FatPtr, TaggedPtr};
use crate::text::{text_bytes, text_is_held, Text};
use crate::allocator::object_of_bytes;

verus! {

/// An s-expression.
pub enum Sexpr {
    Nil,
    Number(int),
    Symbol(Seq<char>),
    Text(Seq<char>),
    Pair {
        first: Box<Sexpr>,
        second: Box<Sexpr>,
        first_pos: Option<SourcePos>,
        second_pos: Option<SourcePos>,
    },
    /// A list of values.
    List(Seq<Sexpr>),
    /// A function: its name, if it has one, its parameters and its
    /// instructions.
    Function { name: Option<Seq<char>>, params: Seq<Sexpr>, code: Seq<Opcode> },
    /// A partial application: the name, the parameters and the instructions
    /// of the function, and the count of the arguments applied.
    Partial { name: Option<Seq<char>>, params: Seq<Sexpr>, code: Seq<Opcode>, used: nat },
    /// An object of another type.
    Object(TypeList),
}

/// The object of type `T` that the heap holds at address `addr`.
pub open spec fn object_in<T: AllocObject<TypeList>>(heap: Heap, addr: usize) -> T {
    object_of_bytes::<TypeList, T>(heap.spec_storage().payload(addr as int))
}

/// The name of the symbol that `ptr` points at, if it points at one.
pub open spec fn symbol_name_of(heap: Heap, ptr: TaggedPtr) -> Option<Seq<char>> {
    match heap.unpack(ptr) {
        Some(FatPtr::Symbol(raw)) => heap.spec_syms().spec_name_of(raw.spec_word()),
        _ => None,
    }
}

/// Whether the heap holds the list of parameters and the byte code of
/// `function`, the name of `function` is a pointer into the memory, and the
/// instructions of `function` are `code`.
pub open spec fn function_is_held(heap: Heap, function: Function, code: Seq<Opcode>) -> bool {
    let bytecode = object_in::<ByteCode>(heap, function.code.spec_raw().spec_word());
    &&& heap.valid(function.name.spec_ptr())
    &&& heap.holds_a(function.param_names.spec_raw())
    &&& heap.holds_a(function.code.spec_raw())
    &&& array_is_held(heap, params_of(heap, function))
    &&& array_is_held(heap, bytecode.code)
    &&& array_items(heap, bytecode.code) == code
}

/// The list of the parameters of `function`.
pub open spec fn params_of(heap: Heap, function: Function) -> List {
    object_in::<List>(heap, function.param_names.spec_raw().spec_word())
}

/// The text that the heap holds at address `addr`.
pub open spec fn text_at(heap: Heap, addr: usize) -> Text {
    object_of_bytes::<TypeList, Text>(heap.spec_storage().payload(addr as int))
}

/// Whether an object of the type `type_id` is printed without regard to
/// what it holds.
pub open spec fn is_plain_object(type_id: TypeList) -> bool {
    type_id == TypeList::ArrayU8 || type_id == TypeList::ArrayU16 || type_id == TypeList::ArrayU32
        || type_id == TypeList::Dict || type_id == TypeList::NumberObject || type_id
        == TypeList::Upvalue
}

/// Whether `ptr` stands for `sexpr` in `heap`: it is a pointer into the
/// memory, and what it unpacks to shows `sexpr`.
pub open spec fn represents(heap: Heap, ptr: TaggedPtr, sexpr: Sexpr) -> bool
    decreases sexpr, 1nat,
{
    &&& heap.valid(ptr)
    &&& heap.unpack(ptr) matches Some(fat) && shows(heap, fat, sexpr)
}

/// Whether `fat` shows `sexpr` in `heap`: nil for nil; an inline number for
/// a number; a pointer to the symbol of that name for a symbol; a pointer
/// to a text with those characters for a text; a pointer to a pair whose
/// pointers stand for the two parts, with the same source positions, for a
/// pair; a pointer to a list whose items stand for the items, in order, for
/// a list; a pointer to a function with that name, with parameters that
/// stand for the parameters and with those instructions for a function; a
/// pointer to a partial application of such a function, with that count of
/// arguments applied, for a partial application; and a pointer to an object
/// of that type for an object of another type that is printed without
/// regard to what it holds.
pub open spec fn shows(heap: Heap, fat: FatPtr, sexpr: Sexpr) -> bool
    decreases sexpr, 0nat,
{
    match sexpr {
        Sexpr::Nil => fat == FatPtr::Nil,
        Sexpr::Number(value) => fat matches FatPtr::Number(n) && n == value,
        Sexpr::Symbol(name) => fat matches FatPtr::Symbol(raw) && heap.spec_syms().spec_name_of(
            raw.spec_word(),
        ) == Some(name),
        Sexpr::Text(chars) => fat matches FatPtr::Text(raw) && {
            let text = text_at(heap, raw.spec_word());
            &&& text_is_held(heap, text)
            &&& text_bytes(heap, text) == encode_utf8(chars)
        },
        Sexpr::Pair { first, second, first_pos, second_pos } => fat matches FatPtr::Pair(raw) && {
            let pair = pair_at(heap, raw.spec_word());
            &&& pair.first_pos == first_pos
            &&& pair.second_pos == second_pos
            &&& represents(heap, pair.first.spec_ptr(), *first)
            &&& represents(heap, pair.second.spec_ptr(), *second)
        },
        Sexpr::List(items) => fat matches FatPtr::List(raw) && {
            let list = object_in::<List>(heap, raw.spec_word());
            &&& array_is_held(heap, list)
            &&& list.spec_length() == items.len()
            &&& forall|i: int|
                0 <= i < items.len() ==> represents(
                    heap,
                    array_items(heap, list)[i].spec_ptr(),
                    #[trigger] items[i],
                )
        },
        Sexpr::Function { name, params, code } => fat matches FatPtr::Function(raw) && {
            let function = object_in::<Function>(heap, raw.spec_word());
            let list = params_of(heap, function);
            &&& function_is_held(heap, function, code)
            &&& name == symbol_name_of(heap, function.name.spec_ptr())
            &&& list.spec_length() == params.len()
            &&& forall|i: int|
                0 <= i < params.len() ==> represents(
                    heap,
                    array_items(heap, list)[i].spec_ptr(),
                    #[trigger] params[i],
                )
        },
        Sexpr::Partial { name, params, code, used } => fat matches FatPtr::Partial(raw) && {
            let partial = object_in::<Partial>(heap, raw.spec_word());
            let function = object_in::<Function>(heap, partial.func.spec_raw().spec_word());
            let list = params_of(heap, function);
            &&& heap.holds_a(partial.func.spec_raw())
            &&& function_is_held(heap, function, code)
            &&& name == symbol_name_of(heap, function.name.spec_ptr())
            &&& used == partial.used
            &&& used <= params.len()
            &&& list.spec_length() == params.len()
            &&& forall|i: int|
                0 <= i < params.len() ==> represents(
                    heap,
                    array_items(heap, list)[i].spec_ptr(),
                    #[trigger] params[i],
                )
        },
        Sexpr::Object(type_id) => type_of_fat_ptr(fat) == Some(type_id) && is_plain_object(
            type_id,
        ),
    }
}

/// A function that the heap holds goes on to be held, with its name, its
/// parameters and its instructions, when the memory grows and the objects
/// that were there keep their bytes.
pub proof fn lemma_function_is_stable(
    before: Heap,
    after: Heap,
    function: Function,
    code: Seq<Opcode>,
)
    requires
        before.wf(),
        after.wf(),
        after.extends(before),
        forall|other: int|
            before.spec_storage().holds(other) ==> #[trigger] after.spec_storage().payload(other)
                == before.spec_storage().payload(other),
        function_is_held(before, function, code),
    ensures
        function_is_held(after, function, code),
        symbol_name_of(after, function.name.spec_ptr()) == symbol_name_of(
            before,
            function.name.spec_ptr(),
        ),
        params_of(after, function) == params_of(before, function),
        array_items(after, params_of(after, function)) == array_items(
            before,
            params_of(before, function),
        ),
{
    lemma_extends_keeps_valid(before, after, function.name.spec_ptr());
    match before.unpack(function.name.spec_ptr()) {
        Some(FatPtr::Symbol(raw)) => {
            lemma_name_is_stable(before.spec_syms(), after.spec_syms(), raw.spec_word());
        },
        _ => {},
    }
    assert(before.spec_storage().holds(function.param_names.spec_raw().spec_word() as int));
    assert(before.spec_storage().holds(function.code.spec_raw().spec_word() as int));
    let bytecode = object_in::<ByteCode>(before, function.code.spec_raw().spec_word());
    lemma_array_is_kept(before, after, params_of(before, function));
    lemma_array_is_kept(before, after, bytecode.code);
}

/// A pointer that stands for an s-expression goes on to do so when the
/// memory grows and the objects that were there keep their bytes.
pub proof fn lemma_represents_is_stable(before: Heap, after: Heap, ptr: TaggedPtr, sexpr: Sexpr)
    requires
        before.wf(),
        after.wf(),
        after.extends(before),
        forall|other: int|
            before.spec_storage().holds(other) ==> #[trigger] after.spec_storage().payload(other)
                == before.spec_storage().payload(other),
        represents(before, ptr, sexpr),
    ensures
        represents(after, ptr, sexpr),
    decreases sexpr,
{
    lemma_extends_keeps_valid(before, after, ptr);
    match sexpr {
        Sexpr::Symbol(name) => {
            let raw = addr_of_fat_ptr(before.unpack(ptr)->0)->0;
            lemma_name_is_stable(before.spec_syms(), after.spec_syms(), raw);
        },
        Sexpr::Text(chars) => {
            let raw = addr_of_fat_ptr(before.unpack(ptr)->0)->0;
            assert(before.spec_storage().holds(raw as int));
            let text = text_at(before, raw);
            assert(text_at(after, raw) == text);
            match text.spec_content().spec_ptr() {
                Some(content) => {
                    assert(before.spec_storage().holds(content.spec_word() as int));
                },
                None => {},
            }
        },
        Sexpr::Pair { first, second, first_pos, second_pos } => {
            let raw = addr_of_fat_ptr(before.unpack(ptr)->0)->0;
            assert(before.spec_storage().holds(raw as int));
            lemma_represents_is_stable(
                before,
                after,
                pair_of(before, ptr).first.spec_ptr(),
                *first,
            );
            lemma_represents_is_stable(
                before,
                after,
                pair_of(before, ptr).second.spec_ptr(),
                *second,
            );
        },
        Sexpr::List(items) => {
            let raw = addr_of_fat_ptr(before.unpack(ptr)->0)->0;
            assert(before.spec_storage().holds(raw as int));
            let list = object_in::<List>(before, raw);
            lemma_array_is_kept(before, after, list);
            assert forall|i: int| 0 <= i < items.len() implies represents(
                after,
                array_items(after, list)[i].spec_ptr(),
                #[trigger] items[i],
            ) by {
                lemma_represents_is_stable(
                    before,
                    after,
                    array_items(before, list)[i].spec_ptr(),
                    items[i],
                );
            }
        },
        Sexpr::Function { name, params, code } => {
            let raw = addr_of_fat_ptr(before.unpack(ptr)->0)->0;
            assert(before.spec_storage().holds(raw as int));
            let function = object_in::<Function>(before, raw);
            lemma_function_is_stable(before, after, function, code);
            let list = params_of(before, function);
            assert forall|i: int| 0 <= i < params.len() implies represents(
                after,
                array_items(after, list)[i].spec_ptr(),
                #[trigger] params[i],
            ) by {
                lemma_represents_is_stable(
                    before,
                    after,
                    array_items(before, list)[i].spec_ptr(),
                    params[i],
                );
            }
        },
        Sexpr::Partial { name, params, code, used } => {
            let raw = addr_of_fat_ptr(before.unpack(ptr)->0)->0;
            assert(before.spec_storage().holds(raw as int));
            let partial = object_in::<Partial>(before, raw);
            assert(before.spec_storage().holds(partial.func.spec_raw().spec_word() as int));
            let function = object_in::<Function>(before, partial.func.spec_raw().spec_word());
            lemma_function_is_stable(before, after, function, code);
            let list = params_of(before, function);
            assert forall|i: int| 0 <= i < params.len() implies represents(
                after,
                array_items(after, list)[i].spec_ptr(),
                #[trigger] params[i],
            ) by {
                lemma_represents_is_stable(
                    before,
                    after,
                    array_items(before, list)[i].spec_ptr(),
                    params[i],
                );
            }
        },
        _ => {},
    }
}

/// A pointer stands for at most one s-expression.
pub proof fn lemma_represents_is_unique(heap: Heap, ptr: TaggedPtr, sexpr: Sexpr, other: Sexpr)
    requires
        heap.wf(),
        represents(heap, ptr, sexpr),
        represents(heap, ptr, other),
    ensures
        sexpr == other,
    decreases sexpr, 1nat,
{
    lemma_shows_is_unique(heap, heap.unpack(ptr)->0, sexpr, other);
}

/// A pointer shows at most one s-expression.
pub proof fn lemma_shows_is_unique(heap: Heap, fat: FatPtr, sexpr: Sexpr, other: Sexpr)
    requires
        heap.wf(),
        shows(heap, fat, sexpr),
        shows(heap, fat, other),
    ensures
        sexpr == other,
    decreases sexpr, 0nat,
{
    match sexpr {
        Sexpr::Text(chars) => {
            vstd::utf8::encode_utf8_decode_utf8(chars);
            match other {
                Sexpr::Text(other_chars) => {
                    vstd::utf8::encode_utf8_decode_utf8(other_chars);
                },
                _ => {},
            }
        },
        Sexpr::Pair { first, second, first_pos, second_pos } => {
            let pair = pair_at(heap, addr_of_fat_ptr(fat)->0);
            match other {
                Sexpr::Pair {
                    first: other_first,
                    second: other_second,
                    first_pos: other_first_pos,
                    second_pos: other_second_pos,
                } => {
                    lemma_represents_is_unique(heap, pair.first.spec_ptr(), *first, *other_first);
                    lemma_represents_is_unique(
                        heap,
                        pair.second.spec_ptr(),
                        *second,
                        *other_second,
                    );
                },
                _ => {},
            }
        },
        Sexpr::List(items) => {
            let list = object_in::<List>(heap, addr_of_fat_ptr(fat)->0);
            match other {
                Sexpr::List(other_items) => {
                    assert forall|i: int| 0 <= i < items.len() implies items[i]
                        == other_items[i] by {
                        lemma_represents_is_unique(
                            heap,
                            array_items(heap, list)[i].spec_ptr(),
                            items[i],
                            other_items[i],
                        );
                    }
                    assert(items =~= other_items);
                },
                _ => {},
            }
        },
        Sexpr::Function { name, params, code } => {
            let function = object_in::<Function>(heap, addr_of_fat_ptr(fat)->0);
            let list = params_of(heap, function);
            match other {
                Sexpr::Function { name: other_name, params: other_params, code: other_code } => {
                    assert forall|i: int| 0 <= i < params.len() implies params[i]
                        == other_params[i] by {
                        lemma_represents_is_unique(
                            heap,
                            array_items(heap, list)[i].spec_ptr(),
                            params[i],
                            other_params[i],
                        );
                    }
                    assert(params =~= other_params);
                },
                _ => {},
            }
        },
        Sexpr::Partial { name, params, code, used } => {
            let partial = object_in::<Partial>(heap, addr_of_fat_ptr(fat)->0);
            let function = object_in::<Function>(heap, partial.func.spec_raw().spec_word());
            let list = params_of(heap, function);
            match other {
                Sexpr::Partial {
                    name: other_name,
                    params: other_params,
                    code: other_code,
                    used: other_used,
                } => {
                    assert forall|i: int| 0 <= i < params.len() implies params[i]
                        == other_params[i] by {
                        lemma_represents_is_unique(
                            heap,
                            array_items(heap, list)[i].spec_ptr(),
                            params[i],
                            other_params[i],
                        );
                    }
                    assert(params =~= other_params);
                },
                _ => {},
            }
        },
        _ => {},
    }
}

/// The text that an s-expression is printed as: `nil`; a number in decimal;
/// the name of a symbol; a text between double quotes; a pair as a list in
/// parentheses, its items parted by spaces, with a dot in front of a last
/// item that is not nil; a list of values in square brackets; a function
/// and a partial application in parentheses, with the name and, in
/// parentheses of their own, the parameters that are still to be given.
pub open spec fn render(sexpr: Sexpr) -> Seq<char>
    decreases sexpr, 0nat,
{
    match sexpr {
        Sexpr::Nil => "nil"@,
        Sexpr::Number(value) => crate::strings::signed_decimal(value),
        Sexpr::Symbol(name) => name,
        Sexpr::Text(chars) => "\""@ + chars + "\""@,
        Sexpr::Pair { first, second, first_pos, second_pos } => "("@ + render(*first)
            + render_tail(*second) + ")"@,
        Sexpr::List(items) => "["@ + render_items(items, items.len()) + "]"@,
        Sexpr::Function { name, params, code } => "(Function "@ + render_name(name) + "("@
            + render_joined(params, 0, params.len()) + "))"@,
        Sexpr::Partial { name, params, code, used } => "(Partial "@ + render_name(name) + "("@
            + render_joined(params, used, params.len()) + "))"@,
        Sexpr::Object(type_id) => render_object(type_id),
    }
}

/// The text that the name of a function is printed as, with the space
/// behind it: nothing for a function without a name.
pub open spec fn render_name(name: Option<Seq<char>>) -> Seq<char> {
    match name {
        Some(name) => name + " "@,
        None => Seq::empty(),
    }
}

/// The text that the first `n` items of a list of values are printed as:
/// a comma and a space stand in front of every item but the first two.
pub open spec fn render_items(items: Seq<Sexpr>, n: nat) -> Seq<char>
    decreases items, n,
{
    if n == 0 || n > items.len() {
        Seq::empty()
    } else {
        render_items(items, (n - 1) as nat) + (if n > 2 {
            ", "@
        } else {
            Seq::empty()
        }) + render(items[n - 1])
    }
}

/// The texts that the items from `from` up to `to` are printed as, with a
/// space between each two.
pub open spec fn render_joined(items: Seq<Sexpr>, from: nat, to: nat) -> Seq<char>
    decreases items, to,
{
    if to <= from || to > items.len() {
        Seq::empty()
    } else if to == from + 1 {
        render(items[to - 1])
    } else {
        render_joined(items, from, (to - 1) as nat) + " "@ + render(items[to - 1])
    }
}

/// The texts of the items from `from` up to `to`, joined by spaces, are the
/// text that `render_joined` gives.
pub proof fn lemma_joined_texts(items: Seq<Sexpr>, from: nat, to: nat)
    requires
        from <= to <= items.len(),
    ensures
        joined(Seq::new((to - from) as nat, |k: int| render(items[from + k])), " "@)
            == render_joined(items, from, to),
    decreases to,
{
    let texts = Seq::new((to - from) as nat, |k: int| render(items[from + k]));
    if to == from {
    } else if to == from + 1 {
        assert(texts[0] == render(items[from as int]));
    } else {
        lemma_joined_texts(items, from, (to - 1) as nat);
        assert(texts.drop_last() =~= Seq::new(
            (to - 1 - from) as nat,
            |k: int| render(items[from + k]),
        ));
        assert(texts.last() == render(items[to - 1]));
    }
}

/// The text that the rest of a list is printed as.
pub open spec fn render_tail(sexpr: Sexpr) -> Seq<char>
    decreases sexpr, 1nat,
{
    match sexpr {
        Sexpr::Nil => Seq::empty(),
        Sexpr::Pair { first, second, first_pos, second_pos } => " "@ + render(*first)
            + render_tail(*second),
        _ => " . "@ + render(sexpr),
    }
}

/// The text that an object of another type is printed as.
pub open spec fn render_object(type_id: TypeList) -> Seq<char> {
    match type_id {
        TypeList::ArrayU8 => "ArrayU8[...]"@,
        TypeList::ArrayU16 => "ArrayU16[...]"@,
        TypeList::ArrayU32 => "ArrayU32[...]"@,
        TypeList::Dict => "Dict[...]"@,
        TypeList::Upvalue => "Upvalue"@,
        _ => "<unidentified-object-type>"@,
    }
}

/// The text that an s-expression is printed as for debugging: as `render`
/// prints it, but with every pair in dot notation, and with the
/// instructions behind a function and behind a partial application.
pub open spec fn render_debug(sexpr: Sexpr) -> Seq<char>
    decreases sexpr,
{
    match sexpr {
        Sexpr::Pair { first, second, first_pos, second_pos } => "("@ + render_debug(*first)
            + " . "@ + render_debug(*second) + ")"@,
        Sexpr::Function { name, params, code } => render(sexpr) + "\nbytecode follows:\n"@
            + render_code(code),
        Sexpr::Partial { name, params, code, used } => render(sexpr) + "\nbytecode follows:\n"@
            + render_code(code),
        _ => render(sexpr),
    }
}

/// The text that instructions are printed as: one instruction to a line.
pub open spec fn render_code(code: Seq<Opcode>) -> Seq<char> {
    joined(code.map_values(|op: Opcode| opcode_text(op)), "\n"@)
}

} // verus!
