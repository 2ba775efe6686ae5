//! Printing of values.

use vstd::prelude::*;
use crate::allocator::ArraySize;
use crate::array::{array_is_held, array_items};
use crate::function::{Function, Partial};
use crate::list::List;
use crate::memory::MutatorView;
use crate::sexpr::{
    lemma_joined_texts, params_of, render, render_debug, render_items, render_joined, render_name,
    render_tail, represents, shows, symbol_name_of, Sexpr,
};
use crate::strings::{join_texts, push_signed_decimal, push_text, texts_of};
use crate::taggedptr::{Managed, Value};

verus! {

/// Appends the text that `value` is printed as to `out`, where `value` shows
/// `sexpr`.
fn print_into<'guard>(
    mem: &MutatorView<'guard>,
    value: Value<'guard>,
    out: &mut String,
    Ghost(sexpr): Ghost<Sexpr>,
)
    requires
        mem.spec_heap().holds_fat(value.spec_fat_ptr()),
        shows(mem.spec_heap(), value.spec_fat_ptr(), sexpr),
    ensures
        final(out)@ == old(out)@ + render(sexpr),
    decreases sexpr, 0nat,
{
    proof {
        use_type_invariant(mem);
    }
    match value {
        Value::Nil => {
            push_text(out, "nil");
        },
        Value::Number(n) => {
            push_signed_decimal(out, n);
        },
        Value::Symbol(symbol) => {
            let name = mem.symbol_name(symbol);
            push_text(out, name.as_str());
        },
        Value::Text(text) => {
            let text = mem.get(text);
            proof {
                let chars = sexpr->Text_0;
                vstd::utf8::encode_utf8_valid_utf8(chars);
                vstd::utf8::encode_utf8_decode_utf8(chars);
            }
            let content = text.as_str(mem);
            push_text(out, "\"");
            push_text(out, content.as_str());
            push_text(out, "\"");
            assert(out@ =~= old(out)@ + render(sexpr));
        },
        Value::Pair(pair) => {
            let pair = mem.get(pair);
            let first = pair.first.get(mem);
            let second = pair.second.get(mem);
            push_text(out, "(");
            print_into(mem, first.value(), out, Ghost(*sexpr->Pair_first));
            print_tail(mem, second.value(), out, Ghost(*sexpr->Pair_second));
            push_text(out, ")");
            assert(out@ =~= old(out)@ + render(sexpr));
        },
        Value::List(list) => {
            let ghost items = sexpr->List_0;
            proof {
                List::lemma_type_size();
            }
            let list = mem.get(list);
            push_text(out, "[");
            let length = list.length();
            let mut index: ArraySize = 0;
            while index < length
                invariant
                    index <= length == items.len(),
                    sexpr == Sexpr::List(items),
                    mem.spec_heap().wf(),
                    array_is_held(mem.spec_heap(), list),
                    list.spec_length() == length,
                    forall|i: int|
                        0 <= i < items.len() ==> represents(
                            mem.spec_heap(),
                            array_items(mem.spec_heap(), list)[i].spec_ptr(),
                            #[trigger] items[i],
                        ),
                    out@ == old(out)@ + "["@ + render_items(items, index as nat),
                decreases length - index,
            {
                if index > 1 {
                    push_text(out, ", ");
                }
                match list.get(mem, index) {
                    Ok(cell) => {
                        assert(represents(
                            mem.spec_heap(),
                            array_items(mem.spec_heap(), list)[index as int].spec_ptr(),
                            items[index as int],
                        ));
                        let item = cell.get(mem);
                        proof {
                            assert(sexpr->List_0 == items);
                            assert(decreases_to!(sexpr => items[index as int]));
                        }
                        print_into(mem, item.value(), out, Ghost(items[index as int]));
                    },
                    Err(_) => {},
                }
                index = index + 1;
                assert(out@ =~= old(out)@ + "["@ + render_items(items, index as nat));
            }
            push_text(out, "]");
            assert(out@ =~= old(out)@ + render(sexpr));
        },
        Value::Function(function) => {
            proof {
                Function::lemma_type_size();
            }
            let function = mem.get(function);
            push_text(out, "(Function ");
            print_name(mem, &function, out);
            push_text(out, "(");
            print_params(mem, &function, 0, out, Ghost(sexpr->Function_params));
            push_text(out, "))");
            assert(out@ =~= old(out)@ + render(sexpr));
        },
        Value::Partial(partial) => {
            proof {
                Partial::lemma_type_size();
            }
            let partial = mem.get(partial);
            let function = mem.get(partial.function(mem.guard()));
            push_text(out, "(Partial ");
            print_name(mem, &function, out);
            push_text(out, "(");
            let used: ArraySize = partial.used() as ArraySize;
            print_params(mem, &function, used, out, Ghost(sexpr->Partial_params));
            push_text(out, "))");
            assert(out@ =~= old(out)@ + render(sexpr));
        },
        Value::ArrayU8(_) => {
            push_text(out, "ArrayU8[...]");
        },
        Value::ArrayU16(_) => {
            push_text(out, "ArrayU16[...]");
        },
        Value::ArrayU32(_) => {
            push_text(out, "ArrayU32[...]");
        },
        Value::Dict(_) => {
            push_text(out, "Dict[...]");
        },
        Value::Upvalue(_) => {
            push_text(out, "Upvalue");
        },
        _ => {
            push_text(out, "<unidentified-object-type>");
        },
    }
}

/// Appends the name of `function` to `out`, with a space behind it, if the
/// function has a name.
fn print_name<'guard>(mem: &MutatorView<'guard>, function: &Function, out: &mut String)
    requires
        mem.spec_heap().valid(function.name.spec_ptr()),
    ensures
        final(out)@ == old(out)@ + render_name(
            symbol_name_of(mem.spec_heap(), function.name.spec_ptr()),
        ),
{
    match function.name.get(mem).value() {
        Value::Symbol(symbol) => {
            let name = mem.symbol_name(symbol);
            push_text(out, name.as_str());
            push_text(out, " ");
            assert(out@ =~= old(out)@ + render_name(
                symbol_name_of(mem.spec_heap(), function.name.spec_ptr()),
            ));
        },
        _ => {
            assert(out@ =~= old(out)@ + render_name(
                symbol_name_of(mem.spec_heap(), function.name.spec_ptr()),
            ));
        },
    }
}

/// Appends the texts that the parameters of `function` from `from` on are
/// printed as to `out`, with a space between each two, where the
/// parameters show `params`.
fn print_params<'guard>(
    mem: &MutatorView<'guard>,
    function: &Function,
    from: ArraySize,
    out: &mut String,
    Ghost(params): Ghost<Seq<Sexpr>>,
)
    requires
        mem.spec_heap().holds_a(function.param_names.spec_raw()),
        array_is_held(mem.spec_heap(), params_of(mem.spec_heap(), *function)),
        params_of(mem.spec_heap(), *function).spec_length() == params.len(),
        forall|i: int|
            0 <= i < params.len() ==> represents(
                mem.spec_heap(),
                array_items(mem.spec_heap(), params_of(mem.spec_heap(), *function))[i].spec_ptr(),
                #[trigger] params[i],
            ),
        from <= params.len(),
    ensures
        final(out)@ == old(out)@ + render_joined(params, from as nat, params.len()),
    decreases params, 0nat,
{
    proof {
        use_type_invariant(mem);
    }
    let list = mem.get(function.param_names(mem.guard()));
    let length = list.length();
    let mut texts: Vec<String> = Vec::new();
    let mut index: ArraySize = from;
    while index < length
        invariant
            from <= index <= length == params.len(),
            list == params_of(mem.spec_heap(), *function),
            mem.spec_heap().wf(),
            array_is_held(mem.spec_heap(), list),
            list.spec_length() == length,
            forall|i: int|
                0 <= i < params.len() ==> represents(
                    mem.spec_heap(),
                    array_items(mem.spec_heap(), list)[i].spec_ptr(),
                    #[trigger] params[i],
                ),
            texts_of(texts@) == Seq::new((index - from) as nat, |k: int| render(params[from + k])),
        decreases length - index,
    {
        let mut text = String::new();
        match list.get(mem, index) {
            Ok(cell) => {
                assert(represents(
                    mem.spec_heap(),
                    array_items(mem.spec_heap(), list)[index as int].spec_ptr(),
                    params[index as int],
                ));
                let item = cell.get(mem);
                print_into(mem, item.value(), &mut text, Ghost(params[index as int]));
            },
            Err(_) => {},
        }
        let ghost before = texts@;
        let ghost printed = text@;
        texts.push(text);
        index = index + 1;
        proof {
            assert(printed =~= render(params[index - 1]));
            assert(texts_of(texts@) =~= texts_of(before).push(printed));
            assert(texts_of(texts@) =~= Seq::new(
                (index - from) as nat,
                |k: int| render(params[from + k]),
            ));
        }
    }
    let joined = join_texts(&texts, " ");
    proof {
        lemma_joined_texts(params, from as nat, params.len());
    }
    push_text(out, joined.as_str());
}

/// Appends the text that `value` is printed as at the end of a list to
/// `out`, where `value` shows `sexpr`.
fn print_tail<'guard>(
    mem: &MutatorView<'guard>,
    value: Value<'guard>,
    out: &mut String,
    Ghost(sexpr): Ghost<Sexpr>,
)
    requires
        mem.spec_heap().holds_fat(value.spec_fat_ptr()),
        shows(mem.spec_heap(), value.spec_fat_ptr(), sexpr),
    ensures
        final(out)@ == old(out)@ + render_tail(sexpr),
    decreases sexpr, 1nat,
{
    proof {
        use_type_invariant(mem);
    }
    match value {
        Value::Nil => {
            assert(out@ =~= old(out)@ + render_tail(sexpr));
        },
        Value::Pair(pair) => {
            let pair = mem.get(pair);
            let first = pair.first.get(mem);
            let second = pair.second.get(mem);
            push_text(out, " ");
            print_into(mem, first.value(), out, Ghost(*sexpr->Pair_first));
            print_tail(mem, second.value(), out, Ghost(*sexpr->Pair_second));
            assert(out@ =~= old(out)@ + render_tail(sexpr));
        },
        _ => {
            push_text(out, " . ");
            print_into(mem, value, out, Ghost(sexpr));
            assert(out@ =~= old(out)@ + render_tail(sexpr));
        },
    }
}

/// Appends the text that `value` is printed as for debugging to `out`,
/// where `value` shows `sexpr`.
fn debug_into<'guard>(
    mem: &MutatorView<'guard>,
    value: Value<'guard>,
    out: &mut String,
    Ghost(sexpr): Ghost<Sexpr>,
)
    requires
        mem.spec_heap().holds_fat(value.spec_fat_ptr()),
        shows(mem.spec_heap(), value.spec_fat_ptr(), sexpr),
    ensures
        final(out)@ == old(out)@ + render_debug(sexpr),
    decreases sexpr, 2nat,
{
    proof {
        use_type_invariant(mem);
    }
    match value {
        Value::Pair(pair) => {
            let pair = mem.get(pair);
            let first = pair.first.get(mem);
            let second = pair.second.get(mem);
            push_text(out, "(");
            debug_into(mem, first.value(), out, Ghost(*sexpr->Pair_first));
            push_text(out, " . ");
            debug_into(mem, second.value(), out, Ghost(*sexpr->Pair_second));
            push_text(out, ")");
            assert(out@ =~= old(out)@ + render_debug(sexpr));
        },
        Value::Function(function) => {
            proof {
                Function::lemma_type_size();
            }
            print_into(mem, value, out, Ghost(sexpr));
            push_text(out, "\nbytecode follows:\n");
            let code = mem.get(mem.get(function).code(mem.guard())).print(mem);
            push_text(out, code.as_str());
            assert(out@ =~= old(out)@ + render_debug(sexpr));
        },
        Value::Partial(partial) => {
            proof {
                Partial::lemma_type_size();
            }
            print_into(mem, value, out, Ghost(sexpr));
            push_text(out, "\nbytecode follows:\n");
            let function = mem.get(mem.get(partial).function(mem.guard()));
            let code = mem.get(function.code(mem.guard())).print(mem);
            push_text(out, code.as_str());
            assert(out@ =~= old(out)@ + render_debug(sexpr));
        },
        _ => {
            print_into(mem, value, out, Ghost(sexpr));
        },
    }
}

/// Whether `value` shows an s-expression in the memory of `mem`: what it
/// points at is held there, and so is everything that is reached from it,
/// without end in a circle.
pub open spec fn printable(mem: &MutatorView, value: Value) -> bool {
    &&& mem.spec_heap().holds_fat(value.spec_fat_ptr())
    &&& exists|sexpr: Sexpr| shows(mem.spec_heap(), value.spec_fat_ptr(), sexpr)
}

/// The text that `value` is printed as.
pub fn print<'guard>(mem: &MutatorView<'guard>, value: Value<'guard>) -> (text: String)
    requires
        printable(mem, value),
    ensures
        forall|sexpr: Sexpr|
            shows(mem.spec_heap(), value.spec_fat_ptr(), sexpr) ==> text@ == render(sexpr),
{
    let ghost sexpr = choose|sexpr: Sexpr| shows(mem.spec_heap(), value.spec_fat_ptr(), sexpr);
    let mut text = String::new();
    print_into(mem, value, &mut text, Ghost(sexpr));
    proof {
        use_type_invariant(mem);
        assert(text@ =~= render(sexpr));
        assert forall|other: Sexpr|
            shows(mem.spec_heap(), value.spec_fat_ptr(), other) implies text@ == render(other) by {
            crate::sexpr::lemma_shows_is_unique(
                mem.spec_heap(),
                value.spec_fat_ptr(),
                sexpr,
                other,
            );
        }
    }
    text
}

/// The text that `value` is printed as for debugging.
pub fn debug<'guard>(mem: &MutatorView<'guard>, value: Value<'guard>) -> (text: String)
    requires
        printable(mem, value),
    ensures
        forall|sexpr: Sexpr|
            shows(mem.spec_heap(), value.spec_fat_ptr(), sexpr) ==> text@ == render_debug(sexpr),
{
    let ghost sexpr = choose|sexpr: Sexpr| shows(mem.spec_heap(), value.spec_fat_ptr(), sexpr);
    let mut text = String::new();
    debug_into(mem, value, &mut text, Ghost(sexpr));
    proof {
        use_type_invariant(mem);
        assert(text@ =~= render_debug(sexpr));
        assert forall|other: Sexpr|
            shows(mem.spec_heap(), value.spec_fat_ptr(), other) implies text@ == render_debug(
            other,
        ) by {
            crate::sexpr::lemma_shows_is_unique(
                mem.spec_heap(),
                value.spec_fat_ptr(),
                sexpr,
                other,
            );
        }
    }
    text
}

} // verus!
