//! The parser: from tokens to s-expressions in the heap.

use vstd::prelude::*;
use vstd::string::StringExecFns;
use crate::allocator::lemma_object_bytes_round_trip;
use crate::error::{err_parser, err_parser_wpos, ErrorKind, RuntimeError, SourcePos};
use crate::headers::TypeList;
use crate::lexer::{
    fault_message, spec_tokenize, token_views, tokenize, LexError, Token, TokenKind, TokenType,
    TokenView,
};
use crate::memory::{lemma_grown_chain, lemma_grown_from_itself, Heap, MutatorView};
use crate::pair::Pair;
use crate::safeptr::TaggedScopedPtr;
use crate::sexpr::{lemma_represents_is_stable, represents, Sexpr};
use crate::text::Text;

verus! {

/// Why the parser refuses a row of tokens.
pub enum ParseFault {
    /// A dot stands where an expression must begin.
    InvalidDot,
    /// A close parenthesis stands where an expression must begin.
    UnmatchedClose,
    /// A dot follows an open parenthesis.
    DotAfterOpen,
    /// Something other than a close parenthesis follows the expression
    /// behind a dot.
    DottedNotClosed,
    /// The tokens end within a list.
    EndOfStream,
}

/// A refusal of the parser: the fault, and the position of the token that
/// it was found at, where it was found at one.
pub struct ParseError {
    pub pos: Option<SourcePos>,
    pub fault: ParseFault,
}

/// The message that the parser gives for a fault.
pub open spec fn parse_fault_message(fault: ParseFault) -> Seq<char> {
    match fault {
        ParseFault::InvalidDot => "Invalid symbol '.'"@,
        ParseFault::UnmatchedClose => "Unmatched close parenthesis"@,
        ParseFault::DotAfterOpen => "Unexpected '.' dot after open-parenthesis"@,
        ParseFault::DottedNotClosed => "Dotted pair must be closed by a ')' close-parenthesis"@,
        ParseFault::EndOfStream => "Unexpected end of code stream"@,
    }
}

/// The position of a token.
pub open spec fn pos_of(token: TokenView) -> SourcePos {
    SourcePos { line: token.line as u32, column: token.column as u32 }
}

/// The list of `items`, each with the position of its first token, that
/// ends in the expression behind the dot, if there is one, and in nil if
/// there is none. Each pair of the list has the position of its item, and
/// the position of what follows the item.
pub open spec fn list_of(items: Seq<(Sexpr, SourcePos)>, dotted: Option<(Sexpr, SourcePos)>)
    -> Sexpr
    decreases items.len(),
{
    if items.len() == 0 {
        match dotted {
            Some((sexpr, pos)) => sexpr,
            None => Sexpr::Nil,
        }
    } else {
        Sexpr::Pair {
            first: Box::new(items[0].0),
            second: Box::new(list_of(items.drop_first(), dotted)),
            first_pos: Some(items[0].1),
            second_pos: if items.len() > 1 {
                Some(items[1].1)
            } else {
                match dotted {
                    Some((sexpr, pos)) => Some(pos),
                    None => None,
                }
            },
        }
    }
}

/// The symbol or nil that a name stands for.
pub open spec fn symbol_or_nil(name: Seq<char>) -> Sexpr {
    if name == "nil"@ {
        Sexpr::Nil
    } else {
        Sexpr::Symbol(name)
    }
}

/// The expression that begins at token `at`, and the index of the token
/// behind it. No token at all is nil. A symbol named `nil` is nil. A quote
/// in front of an expression is the list of the symbol `quote` and the
/// expression.
pub open spec fn parse_sexpr_at(tokens: Seq<TokenView>, at: int) -> Result<(Sexpr, int), ParseError>
    decreases tokens.len() - at, 0nat,
{
    if at < 0 || at >= tokens.len() {
        Ok((Sexpr::Nil, at))
    } else {
        let token = tokens[at];
        match token.kind {
            TokenKind::OpenParen => parse_list_at(tokens, at + 1),
            TokenKind::Symbol(name) => Ok((symbol_or_nil(name), at + 1)),
            TokenKind::Text(chars) => Ok((Sexpr::Text(chars), at + 1)),
            TokenKind::Quote => match parse_sexpr_at(tokens, at + 1) {
                Ok((quoted, next)) => Ok(
                    (
                        list_of(
                            seq![
                                (Sexpr::Symbol("quote"@), pos_of(token)),
                                (quoted, pos_of(token)),
                            ],
                            None,
                        ),
                        next,
                    ),
                ),
                Err(e) => Err(e),
            },
            TokenKind::Dot => Err(
                ParseError { pos: Some(pos_of(token)), fault: ParseFault::InvalidDot },
            ),
            TokenKind::CloseParen => Err(
                ParseError { pos: Some(pos_of(token)), fault: ParseFault::UnmatchedClose },
            ),
        }
    }
}

/// The list whose open parenthesis stands in front of token `at`, and the
/// index of the token behind its close parenthesis.
pub open spec fn parse_list_at(tokens: Seq<TokenView>, at: int) -> Result<(Sexpr, int), ParseError>
    decreases tokens.len() - at, 2nat,
{
    if 0 <= at < tokens.len() && tokens[at].kind is CloseParen {
        Ok((Sexpr::Nil, at + 1))
    } else if 0 <= at < tokens.len() && tokens[at].kind is Dot {
        Err(ParseError { pos: Some(pos_of(tokens[at])), fault: ParseFault::DotAfterOpen })
    } else {
        match parse_items_at(tokens, at) {
            Ok((items, dotted, next)) => Ok((list_of(items, dotted), next)),
            Err(e) => Err(e),
        }
    }
}

/// The items of a list from token `at` on, up to the close parenthesis of
/// the list, with the expression behind a dot if there is one, and the
/// index of the token behind the close parenthesis.
pub open spec fn parse_items_at(tokens: Seq<TokenView>, at: int) -> Result<
    (Seq<(Sexpr, SourcePos)>, Option<(Sexpr, SourcePos)>, int),
    ParseError,
>
    decreases tokens.len() - at, 1nat,
{
    if at < 0 || at >= tokens.len() {
        Err(ParseError { pos: None, fault: ParseFault::EndOfStream })
    } else {
        let token = tokens[at];
        match token.kind {
            TokenKind::CloseParen => Ok((Seq::empty(), None, at + 1)),
            TokenKind::Dot => match parse_sexpr_at(tokens, at + 1) {
                Err(e) => Err(e),
                Ok((dotted, next)) => if next < 0 || next >= tokens.len() {
                    Err(ParseError { pos: None, fault: ParseFault::EndOfStream })
                } else if tokens[next].kind is CloseParen {
                    Ok((Seq::empty(), Some((dotted, pos_of(token))), next + 1))
                } else {
                    Err(
                        ParseError {
                            pos: Some(pos_of(tokens[next])),
                            fault: ParseFault::DottedNotClosed,
                        },
                    )
                },
            },
            _ => match parse_sexpr_at(tokens, at) {
                Err(e) => Err(e),
                Ok((item, next)) => if next <= at || next > tokens.len() {
                    Err(ParseError { pos: None, fault: ParseFault::EndOfStream })
                } else {
                    match parse_items_at(tokens, next) {
                        Err(e) => Err(e),
                        Ok((items, dotted, end)) => Ok(
                            (seq![(item, pos_of(token))] + items, dotted, end),
                        ),
                    }
                },
            },
        }
    }
}

/// The expression that a row of tokens stands for: the one that begins at
/// its first token. What follows it is not looked at.
pub open spec fn spec_parse_tokens(tokens: Seq<TokenView>) -> Result<Sexpr, ParseError> {
    match parse_sexpr_at(tokens, 0) {
        Ok((sexpr, next)) => Ok(sexpr),
        Err(e) => Err(e),
    }
}

/// An expression that begins at a token ends behind it, within the row of
/// tokens.
pub proof fn lemma_parse_advances(tokens: Seq<TokenView>, at: int)
    requires
        0 <= at,
    ensures
        parse_sexpr_at(tokens, at) matches Ok((sexpr, next)) ==> (if at < tokens.len() {
            at < next <= tokens.len()
        } else {
            next == at
        }),
        parse_list_at(tokens, at) matches Ok((sexpr, next)) ==> at < next <= tokens.len(),
        parse_items_at(tokens, at) matches Ok((items, dotted, next)) ==> at < next
            <= tokens.len(),
    decreases tokens.len() - at,
{
    if at < tokens.len() {
        lemma_parse_advances(tokens, at + 1);
        match parse_sexpr_at(tokens, at) {
            Ok((item, next)) => {
                if next > at {
                    lemma_parse_advances(tokens, next);
                }
            },
            Err(_) => {},
        }
    }
}

/// Whether `e` says that the heap could not make room.
pub open spec fn is_alloc_failure(e: RuntimeError) -> bool {
    &&& e.spec_pos() is None
    &&& e.spec_kind() == ErrorKind::OutOfMemory || e.spec_kind()
        == ErrorKind::BadAllocationRequest
}

/// Whether `e` is the error that the parser gives for `fault`.
pub open spec fn is_parse_failure(e: RuntimeError, fault: ParseError) -> bool {
    &&& e.spec_pos() == fault.pos
    &&& e.spec_kind() matches ErrorKind::ParseError(text) && text@ == parse_fault_message(
        fault.fault,
    )
}

/// Whether `e` is an error that parsing with the given outcome can end in:
/// the error for the fault of the outcome, or, whatever the outcome, the
/// error of a heap that could not make room.
pub open spec fn parse_failed<A>(e: RuntimeError, outcome: Result<A, ParseError>) -> bool {
    is_alloc_failure(e) || (outcome matches Err(fault) && is_parse_failure(e, fault))
}

/// Whether the pointers of `items` stand for the expressions of `exprs`,
/// each with the same position.
pub open spec fn items_represent(
    heap: Heap,
    items: Seq<(TaggedScopedPtr, SourcePos)>,
    exprs: Seq<(Sexpr, SourcePos)>,
) -> bool {
    &&& items.len() == exprs.len()
    &&& forall|k: int|
        0 <= k < items.len() ==> (#[trigger] items[k]).1 == exprs[k].1 && heap.holds_scoped(
            items[k].0,
        ) && represents(heap, items[k].0.spec_ptr(), exprs[k].0)
}

/// Whether the pointer of `dotted`, if there is one, stands for the
/// expression of `expr`, with the same position.
pub open spec fn dotted_represents(
    heap: Heap,
    dotted: Option<(TaggedScopedPtr, SourcePos)>,
    expr: Option<(Sexpr, SourcePos)>,
) -> bool {
    match (dotted, expr) {
        (Some((ptr, pos)), Some((sexpr, expr_pos))) => pos == expr_pos && heap.holds_scoped(ptr)
            && represents(heap, ptr.spec_ptr(), sexpr),
        (None, None) => true,
        _ => false,
    }
}

/// Items that stand for expressions go on to do so when the memory grows.
pub proof fn lemma_items_are_stable(
    before: Heap,
    after: Heap,
    items: Seq<(TaggedScopedPtr, SourcePos)>,
    exprs: Seq<(Sexpr, SourcePos)>,
)
    requires
        before.wf(),
        after.wf(),
        after.grown_from(before),
        items_represent(before, items, exprs),
    ensures
        items_represent(after, items, exprs),
{
    assert forall|k: int| 0 <= k < items.len() implies (#[trigger] items[k]).1 == exprs[k].1
        && after.holds_scoped(items[k].0) && represents(
        after,
        items[k].0.spec_ptr(),
        exprs[k].0,
    ) by {
        lemma_represents_is_stable(before, after, items[k].0.spec_ptr(), exprs[k].0);
        crate::memory::lemma_extends_keeps_valid(before, after, items[k].0.spec_ptr());
    }
}

/// The error of the parser for `fault`, found at `pos`.
fn fault_at(pos: SourcePos, fault: ParseFault) -> (e: RuntimeError)
    ensures
        is_parse_failure(e, ParseError { pos: Some(pos), fault }),
{
    match fault {
        ParseFault::InvalidDot => err_parser_wpos(pos, "Invalid symbol '.'"),
        ParseFault::UnmatchedClose => err_parser_wpos(pos, "Unmatched close parenthesis"),
        ParseFault::DotAfterOpen => err_parser_wpos(
            pos,
            "Unexpected '.' dot after open-parenthesis",
        ),
        ParseFault::DottedNotClosed => err_parser_wpos(
            pos,
            "Dotted pair must be closed by a ')' close-parenthesis",
        ),
        ParseFault::EndOfStream => err_parser_wpos(pos, "Unexpected end of code stream"),
    }
}

/// Builds the list of `items` in the heap, from its last pair to its first.
/// It ends in the pointer of `dotted`, or in nil if there is none.
fn build_list<'guard>(
    mem: &mut MutatorView<'guard>,
    items: &Vec<(TaggedScopedPtr<'guard>, SourcePos)>,
    dotted: Option<(TaggedScopedPtr<'guard>, SourcePos)>,
    Ghost(exprs): Ghost<Seq<(Sexpr, SourcePos)>>,
    Ghost(dotted_expr): Ghost<Option<(Sexpr, SourcePos)>>,
) -> (r: Result<TaggedScopedPtr<'guard>, RuntimeError>)
    requires
        items_represent(old(mem).spec_heap(), items@, exprs),
        dotted_represents(old(mem).spec_heap(), dotted, dotted_expr),
    ensures
        final(mem).spec_heap().grown_from(old(mem).spec_heap()),
        match r {
            Ok(ptr) => final(mem).holds(ptr) && represents(
                final(mem).spec_heap(),
                ptr.spec_ptr(),
                list_of(exprs, dotted_expr),
            ),
            Err(e) => is_alloc_failure(e),
        },
{
    proof {
        use_type_invariant(&*mem);
        lemma_grown_from_itself(mem.spec_heap());
    }
    let count: usize = items.len();
    let mut second_pos: Option<SourcePos> = None;
    let mut list = match dotted {
        Some((ptr, pos)) => {
            second_pos = Some(pos);
            ptr
        },
        None => mem.nil(),
    };
    let mut i: usize = count;
    proof {
        assert(exprs.subrange(count as int, count as int) =~= Seq::<(Sexpr, SourcePos)>::empty());
    }
    while i > 0
        invariant
            i <= count == items@.len(),
            mem.spec_heap().wf(),
            mem.spec_heap().grown_from(old(mem).spec_heap()),
            items_represent(mem.spec_heap(), items@, exprs),
            mem.holds(list),
            represents(
                mem.spec_heap(),
                list.spec_ptr(),
                list_of(exprs.subrange(i as int, count as int), dotted_expr),
            ),
            second_pos == (if i < count {
                Some(exprs[i as int].1)
            } else {
                match dotted_expr {
                    Some((sexpr, pos)) => Some(pos),
                    None => None,
                }
            }),
        decreases i,
    {
        i = i - 1;
        let ghost before = mem.spec_heap();
        let ghost rest = list_of(exprs.subrange(i + 1, count as int), dotted_expr);
        let item = items[i];
        let mut pair = Pair::new();
        pair.first.set(item.0);
        pair.second.set(list);
        pair.set_first_source_code_pos(item.1);
        pair.first_pos = Some(item.1);
        pair.second_pos = second_pos;
        proof {
            lemma_object_bytes_round_trip::<TypeList, Pair>(pair);
        }
        let made = mem.alloc_tagged(pair);
        proof {
            use_type_invariant(&*mem);
            assert(mem.spec_heap().grown_from(before));
            lemma_grown_chain(old(mem).spec_heap(), before, mem.spec_heap());
            lemma_items_are_stable(before, mem.spec_heap(), items@, exprs);
        }
        match made {
            Ok(ptr) => {
                proof {
                    let heap = mem.spec_heap();
                    let part = exprs.subrange(i as int, count as int);
                    lemma_represents_is_stable(before, heap, list.spec_ptr(), rest);
                    crate::memory::lemma_extends_keeps_valid(before, heap, list.spec_ptr());
                    assert(part.drop_first() =~= exprs.subrange(i + 1, count as int));
                    assert(part[0] == exprs[i as int]);
                    assert(items@[i as int].1 == exprs[i as int].1);
                    assert(represents(heap, items@[i as int].0.spec_ptr(), exprs[i as int].0));
                    assert(represents(heap, ptr.spec_ptr(), list_of(part, dotted_expr)));
                }
                list = ptr;
                second_pos = Some(item.1);
            },
            Err(e) => {
                return Err(e);
            },
        }
    }
    proof {
        assert(exprs.subrange(0, count as int) =~= exprs);
    }
    Ok(list)
}

/// The items `front` in front of the items of the rest, or the refusal of
/// the rest.
pub open spec fn items_then(
    front: Seq<(Sexpr, SourcePos)>,
    rest: Result<(Seq<(Sexpr, SourcePos)>, Option<(Sexpr, SourcePos)>, int), ParseError>,
) -> Result<(Seq<(Sexpr, SourcePos)>, Option<(Sexpr, SourcePos)>, int), ParseError> {
    match rest {
        Ok((items, dotted, end)) => Ok((front + items, dotted, end)),
        Err(e) => Err(e),
    }
}

/// An item put behind the items in front is an item put in front of the
/// rest.
pub proof fn lemma_item_joins(
    front: Seq<(Sexpr, SourcePos)>,
    item: (Sexpr, SourcePos),
    rest: Result<(Seq<(Sexpr, SourcePos)>, Option<(Sexpr, SourcePos)>, int), ParseError>,
)
    ensures
        items_then(front, items_then(seq![item], rest)) == items_then(front.push(item), rest),
{
    match rest {
        Ok((items, dotted, end)) => {
            assert(front + (seq![item] + items) =~= front.push(item) + items);
        },
        Err(_) => {},
    }
}

/// Parses the expression that begins at token `at`, and returns a pointer
/// to it with the index of the token behind it.
fn parse_sexpr<'guard>(mem: &mut MutatorView<'guard>, tokens: &Vec<Token>, at: usize) -> (r:
    Result<(TaggedScopedPtr<'guard>, usize), RuntimeError>)
    requires
        at <= tokens@.len(),
    ensures
        final(mem).spec_heap().grown_from(old(mem).spec_heap()),
        match r {
            Ok((ptr, next)) => parse_sexpr_at(token_views(tokens@), at as int) matches Ok(
                (sexpr, end),
            ) && end == next && next <= tokens@.len() && final(mem).holds(ptr) && represents(
                final(mem).spec_heap(),
                ptr.spec_ptr(),
                sexpr,
            ),
            Err(e) => parse_failed(e, parse_sexpr_at(token_views(tokens@), at as int)),
        },
    decreases tokens@.len() - at, 0nat,
{
    let ghost views = token_views(tokens@);
    let ghost before = mem.spec_heap();
    proof {
        use_type_invariant(&*mem);
        lemma_grown_from_itself(before);
        lemma_parse_advances(views, at as int);
    }
    if at >= tokens.len() {
        return Ok((mem.nil(), at));
    }
    let pos = tokens[at].pos;
    assert(views[at as int] == tokens@[at as int]@);
    match &tokens[at].token {
        TokenType::OpenParen => parse_list(mem, tokens, at + 1),
        TokenType::Symbol(name) => {
            let nil_name = String::from_str("nil");
            if *name == nil_name {
                Ok((mem.nil(), at + 1))
            } else {
                match mem.lookup_sym(name.as_str()) {
                    Ok(symbol) => {
                        proof {
                            use_type_invariant(&*mem);
                            crate::symbolmap::lemma_name_of_symbol(
                                mem.spec_heap().spec_syms(),
                                name@,
                            );
                            crate::rawptr::RawPtr::<crate::symbol::Symbol>::lemma_spec_new(
                                mem.spec_heap().spec_syms().spec_lookup(name@)->0,
                            );
                        }
                        Ok((symbol, at + 1))
                    },
                    Err(e) => Err(e),
                }
            }
        },
        TokenType::Text(string) => {
            let text = match Text::new_from_str(mem, string.as_str()) {
                Ok(text) => text,
                Err(e) => { return Err(e); },
            };
            let ghost written = mem.spec_heap();
            proof {
                use_type_invariant(&*mem);
                lemma_object_bytes_round_trip::<TypeList, Text>(text);
                assert(written.grown_from(before));
            }
            match mem.alloc_tagged(text) {
                Ok(ptr) => {
                    proof {
                        lemma_grown_chain(before, written, mem.spec_heap());
                        text.lemma_is_spec_of();
                    }
                    Ok((ptr, at + 1))
                },
                Err(e) => {
                    proof {
                        lemma_grown_chain(before, written, mem.spec_heap());
                    }
                    Err(e)
                },
            }
        },
        TokenType::Quote => {
            let symbol = match mem.lookup_sym("quote") {
                Ok(symbol) => symbol,
                Err(e) => { return Err(e); },
            };
            let ghost interned = mem.spec_heap();
            proof {
                use_type_invariant(&*mem);
                crate::symbolmap::lemma_name_of_symbol(interned.spec_syms(), "quote"@);
                crate::rawptr::RawPtr::<crate::symbol::Symbol>::lemma_spec_new(
                    interned.spec_syms().spec_lookup("quote"@)->0,
                );
                assert(represents(interned, symbol.spec_ptr(), Sexpr::Symbol("quote"@)));
            }
            let parsed = parse_sexpr(mem, tokens, at + 1);
            let ghost grown = mem.spec_heap();
            proof {
                use_type_invariant(&*mem);
                lemma_grown_chain(before, interned, grown);
            }
            let (quoted, next) = match parsed {
                Ok(parsed) => parsed,
                Err(e) => { return Err(e); },
            };
            let ghost quoted_expr = parse_sexpr_at(views, at + 1)->Ok_0.0;
            let ghost exprs = seq![(Sexpr::Symbol("quote"@), pos), (quoted_expr, pos)];
            let mut items: Vec<(TaggedScopedPtr<'guard>, SourcePos)> = Vec::new();
            items.push((symbol, pos));
            items.push((quoted, pos));
            proof {
                lemma_represents_is_stable(
                    interned,
                    grown,
                    symbol.spec_ptr(),
                    Sexpr::Symbol("quote"@),
                );
                crate::memory::lemma_extends_keeps_valid(interned, grown, symbol.spec_ptr());
            }
            let built = build_list(mem, &items, None, Ghost(exprs), Ghost(None));
            proof {
                lemma_grown_chain(before, grown, mem.spec_heap());
            }
            match built {
                Ok(list) => Ok((list, next)),
                Err(e) => Err(e),
            }
        },
        TokenType::Dot => Err(fault_at(pos, ParseFault::InvalidDot)),
        TokenType::CloseParen => Err(fault_at(pos, ParseFault::UnmatchedClose)),
    }
}

/// Parses the list whose open parenthesis stands in front of token `at`,
/// and returns a pointer to it with the index of the token behind its
/// close parenthesis.
fn parse_list<'guard>(mem: &mut MutatorView<'guard>, tokens: &Vec<Token>, at: usize) -> (r:
    Result<(TaggedScopedPtr<'guard>, usize), RuntimeError>)
    requires
        at <= tokens@.len(),
    ensures
        final(mem).spec_heap().grown_from(old(mem).spec_heap()),
        match r {
            Ok((ptr, next)) => parse_list_at(token_views(tokens@), at as int) matches Ok(
                (sexpr, end),
            ) && end == next && next <= tokens@.len() && final(mem).holds(ptr) && represents(
                final(mem).spec_heap(),
                ptr.spec_ptr(),
                sexpr,
            ),
            Err(e) => parse_failed(e, parse_list_at(token_views(tokens@), at as int)),
        },
    decreases tokens@.len() - at, 2nat,
{
    let ghost views = token_views(tokens@);
    let ghost before = mem.spec_heap();
    proof {
        use_type_invariant(&*mem);
        lemma_grown_from_itself(before);
    }
    if at < tokens.len() {
        assert(views[at as int] == tokens@[at as int]@);
        match &tokens[at].token {
            TokenType::CloseParen => {
                return Ok((mem.nil(), at + 1));
            },
            TokenType::Dot => {
                return Err(fault_at(tokens[at].pos, ParseFault::DotAfterOpen));
            },
            _ => {},
        }
    }
    let parsed = parse_items(mem, tokens, at);
    let ghost grown = mem.spec_heap();
    let (items, dotted, next) = match parsed {
        Ok(parsed) => parsed,
        Err(e) => { return Err(e); },
    };
    let ghost exprs = parse_items_at(views, at as int)->Ok_0.0;
    let ghost dotted_expr = parse_items_at(views, at as int)->Ok_0.1;
    let built = build_list(mem, &items, dotted, Ghost(exprs), Ghost(dotted_expr));
    proof {
        lemma_grown_chain(before, grown, mem.spec_heap());
    }
    match built {
        Ok(list) => Ok((list, next)),
        Err(e) => Err(e),
    }
}

/// Parses the items of a list from token `at` on, up to the close
/// parenthesis of the list, and returns pointers to them, with a pointer to
/// the expression behind a dot if there is one, and the index of the token
/// behind the close parenthesis.
fn parse_items<'guard>(mem: &mut MutatorView<'guard>, tokens: &Vec<Token>, start: usize) -> (r:
    Result<
        (
            Vec<(TaggedScopedPtr<'guard>, SourcePos)>,
            Option<(TaggedScopedPtr<'guard>, SourcePos)>,
            usize,
        ),
        RuntimeError,
    >)
    requires
        start <= tokens@.len(),
    ensures
        final(mem).spec_heap().grown_from(old(mem).spec_heap()),
        match r {
            Ok((items, dotted, next)) => parse_items_at(token_views(tokens@), start as int)
                matches Ok((exprs, dotted_expr, end)) && end == next && next <= tokens@.len()
                && items_represent(final(mem).spec_heap(), items@, exprs) && dotted_represents(
                final(mem).spec_heap(),
                dotted,
                dotted_expr,
            ),
            Err(e) => parse_failed(e, parse_items_at(token_views(tokens@), start as int)),
        },
    decreases tokens@.len() - start, 1nat,
{
    let ghost views = token_views(tokens@);
    let ghost first = mem.spec_heap();
    let ghost outcome = parse_items_at(views, start as int);
    let mut items: Vec<(TaggedScopedPtr<'guard>, SourcePos)> = Vec::new();
    let ghost mut exprs: Seq<(Sexpr, SourcePos)> = Seq::empty();
    let mut at: usize = start;
    proof {
        use_type_invariant(&*mem);
        lemma_grown_from_itself(first);
        match parse_items_at(views, at as int) {
            Ok((rest, dotted, end)) => {
                assert(exprs + rest =~= rest);
            },
            Err(_) => {},
        }
    }
    loop
        invariant
            views == token_views(tokens@),
            first == old(mem).spec_heap(),
            outcome == parse_items_at(views, start as int),
            start <= at <= tokens@.len(),
            mem.spec_heap().wf(),
            mem.spec_heap().grown_from(first),
            items_represent(mem.spec_heap(), items@, exprs),
            outcome == items_then(exprs, parse_items_at(views, at as int)),
        decreases tokens@.len() - at,
    {
        let ghost before = mem.spec_heap();
        if at >= tokens.len() {
            return Err(err_parser("Unexpected end of code stream"));
        }
        let pos = tokens[at].pos;
        assert(views[at as int] == tokens@[at as int]@);
        proof {
            lemma_parse_advances(views, at as int);
            lemma_parse_advances(views, at as int + 1);
        }
        let parsed = match &tokens[at].token {
            TokenType::CloseParen => {
                proof {
                    assert(exprs + Seq::<(Sexpr, SourcePos)>::empty() =~= exprs);
                }
                return Ok((items, None, at + 1));
            },
            TokenType::Dot => {
                let parsed = parse_sexpr(mem, tokens, at + 1);
                proof {
                    use_type_invariant(&*mem);
                    lemma_grown_chain(first, before, mem.spec_heap());
                    lemma_items_are_stable(before, mem.spec_heap(), items@, exprs);
                }
                let (dotted, next) = match parsed {
                    Ok(parsed) => parsed,
                    Err(e) => { return Err(e); },
                };
                if next >= tokens.len() {
                    return Err(err_parser("Unexpected end of code stream"));
                }
                assert(views[next as int] == tokens@[next as int]@);
                match &tokens[next].token {
                    TokenType::CloseParen => {
                        proof {
                            assert(exprs + Seq::<(Sexpr, SourcePos)>::empty() =~= exprs);
                        }
                        return Ok((items, Some((dotted, pos)), next + 1));
                    },
                    _ => {
                        return Err(fault_at(tokens[next].pos, ParseFault::DottedNotClosed));
                    },
                }
            },
            TokenType::OpenParen => parse_list(mem, tokens, at + 1),
            _ => parse_sexpr(mem, tokens, at),
        };
        proof {
            use_type_invariant(&*mem);
            lemma_grown_chain(first, before, mem.spec_heap());
            lemma_items_are_stable(before, mem.spec_heap(), items@, exprs);
        }
        let (item, next) = match parsed {
            Ok(parsed) => parsed,
            Err(e) => { return Err(e); },
        };
        proof {
            let item_expr = parse_sexpr_at(views, at as int)->Ok_0.0;
            lemma_item_joins(exprs, (item_expr, pos), parse_items_at(views, next as int));
            exprs = exprs.push((item_expr, pos));
        }
        items.push((item, pos));
        at = next;
    }
}

/// Parses the expression that a row of tokens begins with, and returns a
/// pointer to it.
fn parse_tokens<'guard>(mem: &mut MutatorView<'guard>, tokens: Vec<Token>) -> (r: Result<
    TaggedScopedPtr<'guard>,
    RuntimeError,
>)
    ensures
        final(mem).spec_heap().grown_from(old(mem).spec_heap()),
        match r {
            Ok(ptr) => spec_parse_tokens(token_views(tokens@)) matches Ok(sexpr) && final(mem).holds(ptr) && represents(final(mem).spec_heap(), ptr.spec_ptr(), sexpr),
            Err(e) => parse_failed(e, spec_parse_tokens(token_views(tokens@))),
        },
{
    match parse_sexpr(mem, &tokens, 0) {
        Ok((ptr, next)) => Ok(ptr),
        Err(e) => Err(e),
    }
}

/// What the parsing of a source text gives: the expression that it begins
/// with, or the refusal of the lexer or of the parser.
pub enum SyntaxError {
    Lexer(LexError),
    Parser(ParseError),
}

/// The expression that a source text begins with.
pub open spec fn spec_parse(input: Seq<char>) -> Result<Sexpr, SyntaxError> {
    match spec_tokenize(input) {
        Err(e) => Err(SyntaxError::Lexer(e)),
        Ok(tokens) => match spec_parse_tokens(tokens) {
            Err(e) => Err(SyntaxError::Parser(e)),
            Ok(sexpr) => Ok(sexpr),
        },
    }
}

/// Whether `e` is the error for the refusal `fault` of a source text.
pub open spec fn is_syntax_failure(e: RuntimeError, fault: SyntaxError) -> bool {
    match fault {
        SyntaxError::Lexer(fault) => e.spec_pos() == Some(
            SourcePos { line: fault.line as u32, column: fault.column as u32 },
        ) && (e.spec_kind() matches ErrorKind::LexerError(text) && text@ == fault_message(
            fault.fault,
        )),
        SyntaxError::Parser(fault) => is_parse_failure(e, fault),
    }
}

/// Parses the expression that a source text begins with into the heap, and
/// returns a pointer to it. A text of more than `u32::MAX - 1` characters
/// has positions that a token cannot hold.
pub fn parse<'guard>(mem: &mut MutatorView<'guard>, input: &str) -> (r: Result<
    TaggedScopedPtr<'guard>,
    RuntimeError,
>)
    requires
        input@.len() < u32::MAX,
    ensures
        final(mem).spec_heap().grown_from(old(mem).spec_heap()),
        match r {
            Ok(ptr) => spec_parse(input@) matches Ok(sexpr) && final(mem).holds(ptr)
                && represents(final(mem).spec_heap(), ptr.spec_ptr(), sexpr),
            Err(e) => is_alloc_failure(e) || (spec_parse(input@) matches Err(fault)
                && is_syntax_failure(e, fault)),
        },
{
    proof {
        use_type_invariant(&*mem);
        lemma_grown_from_itself(mem.spec_heap());
    }
    let tokens = match tokenize(input) {
        Ok(tokens) => tokens,
        Err(e) => { return Err(e); },
    };
    parse_tokens(mem, tokens)
}

} // verus!
