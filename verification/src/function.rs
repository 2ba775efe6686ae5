//! Functions and partial applications: the records that stand for them in
//! the heap.

use vstd::prelude::*;
use crate::allocator::{AllocObject, ArraySize};
use crate::array::{array_is_held, array_items, lemma_array_is_stable, ArrayU16};
use crate::bytecode::ByteCode;
use crate::containers::{is_growth_failure, ContainerFromSlice};
use crate::error::RuntimeError;
use crate::headers::TypeList;
use crate::layout::{spec_u8_of_word, u8_of_word};
use crate::list::List;
use crate::memory::{Heap, MutatorView};
use crate::safeptr::{CellPtr, MutatorScope, ScopedPtr, TaggedCellPtr, TaggedScopedPtr};
use crate::taggedptr::{word_of_fat_ptr, FatPtr, Value};

verus! {

/// A function.
pub struct Function {
    /// A symbol, or nil for a function without a name.
    pub name: TaggedCellPtr,
    /// The number of arguments that the function takes.
    pub arity: u8,
    /// The instructions.
    pub code: CellPtr<ByteCode>,
    /// The names of the parameters.
    pub param_names: CellPtr<List>,
    /// Where the variables are found that the function refers to and does not
    /// define, or nil if there are none.
    pub nonlocal_refs: TaggedCellPtr,
}

impl Function {
    /// The number of arguments that the function takes.
    pub fn arity(&self) -> (arity: u8)
        ensures
            arity == self.arity,
    {
        self.arity
    }

    /// The names of the parameters.
    pub fn param_names<'guard>(&self, guard: &'guard dyn MutatorScope) -> (names: ScopedPtr<
        'guard,
        List,
    >)
        ensures
            names.spec_raw() == self.param_names.spec_raw(),
    {
        self.param_names.get(guard)
    }

    /// The instructions.
    pub fn code<'guard>(&self, guard: &'guard dyn MutatorScope) -> (code: ScopedPtr<
        'guard,
        ByteCode,
    >)
        ensures
            code.spec_raw() == self.code.spec_raw(),
    {
        self.code.get(guard)
    }

    /// Whether the function refers to variables that it does not define.
    pub fn is_closure(&self) -> (closure: bool)
        ensures
            closure == (self.nonlocal_refs.spec_ptr().spec_word() != 0),
    {
        !self.nonlocal_refs.is_nil()
    }
}

/// The name of `function`: the name of the symbol that it holds as its
/// name, and `<lambda>` if it holds anything else.
pub open spec fn function_name(heap: Heap, function: Function) -> Seq<char> {
    match heap.unpack(function.name.spec_ptr()) {
        Some(FatPtr::Symbol(raw)) => heap.spec_syms().spec_name_of(raw.spec_word())->0,
        _ => "<lambda>"@,
    }
}

/// The word of the tagged pointer that stands for an optional pointer to an
/// object of the heap: nil where there is none.
pub open spec fn word_of_optional(fat: Option<FatPtr>) -> usize {
    match fat {
        Some(fat) => word_of_fat_ptr(fat),
        None => 0,
    }
}

impl Function {
    /// A new function in the heap. Its arity is the count of its
    /// parameters, as far as 8 bits hold it.
    pub fn allocate<'guard>(
        mem: &mut MutatorView<'guard>,
        name: TaggedScopedPtr<'guard>,
        param_names: ScopedPtr<'guard, List>,
        code: ScopedPtr<'guard, ByteCode>,
        nonlocal_refs: Option<ScopedPtr<'guard, ArrayU16>>,
    ) -> (r: Result<ScopedPtr<'guard, Function>, RuntimeError>)
        requires
            old(mem).holds_a(param_names),
        ensures
            final(mem).spec_heap().grown_from(old(mem).spec_heap()),
            match r {
                Ok(ptr) => {
                    let function = final(mem).object_at(ptr.spec_raw());
                    &&& final(mem).holds_a(ptr)
                    &&& !old(mem).spec_heap().spec_storage().holds(
                        ptr.spec_raw().spec_word() as int,
                    )
                    &&& function.name.spec_ptr() == name.spec_ptr()
                    &&& function.arity == old(mem).object_at(param_names.spec_raw()).spec_length()
                        % 256
                    &&& function.code.spec_raw() == code.spec_raw()
                    &&& function.param_names.spec_raw() == param_names.spec_raw()
                    &&& function.nonlocal_refs.spec_ptr().spec_word() == word_of_optional(
                        match nonlocal_refs {
                            Some(refs) => Some(FatPtr::ArrayU16(refs.spec_raw())),
                            None => None,
                        },
                    )
                },
                Err(e) => is_growth_failure(e),
            },
    {
        let nonlocal_refs = match nonlocal_refs {
            Some(refs) => TaggedCellPtr::new_with(refs.as_tagged(mem.guard())),
            None => TaggedCellPtr::new_nil(),
        };
        let arity: u8 = (mem.get(param_names).length() % 256) as u8;
        let function = Function {
            name: TaggedCellPtr::new_with(name),
            arity,
            code: CellPtr::new_with(code),
            param_names: CellPtr::new_with(param_names),
            nonlocal_refs,
        };
        proof {
            crate::allocator::lemma_object_bytes_round_trip::<TypeList, Function>(function);
        }
        match mem.allocate(function) {
            Ok(ptr) => Ok(ptr),
            Err(e) => Err(e),
        }
    }

    /// The name of the function.
    pub fn name<'guard>(&self, mem: &MutatorView<'guard>) -> (name: String)
        requires
            mem.spec_heap().valid(self.name.spec_ptr()),
        ensures
            name@ == function_name(mem.spec_heap(), *self),
    {
        match self.name.get(mem).value() {
            Value::Symbol(symbol) => mem.symbol_name(symbol),
            _ => {
                let name = String::from_str("<lambda>");
                name
            },
        }
    }

    /// The places of the variables that the function refers to and does
    /// not define.
    pub fn nonlocals<'guard>(&self, mem: &MutatorView<'guard>) -> (refs: ScopedPtr<
        'guard,
        ArrayU16,
    >)
        requires
            mem.spec_heap().valid(self.nonlocal_refs.spec_ptr()),
            mem.spec_heap().unpack(self.nonlocal_refs.spec_ptr()) matches Some(
                FatPtr::ArrayU16(_),
            ),
        ensures
            mem.spec_heap().unpack(self.nonlocal_refs.spec_ptr()) == Some(
                FatPtr::ArrayU16(refs.spec_raw()),
            ),
            mem.holds_a(refs),
    {
        match self.nonlocal_refs.get(mem).value() {
            Value::ArrayU16(refs) => {
                proof {
                    <ArrayU16 as crate::taggedptr::Managed>::lemma_type_size();
                }
                refs
            },
            _ => {
                proof {
                    assert(false);
                }
                vstd::pervasive::unreached()
            },
        }
    }
}

impl AllocObject<TypeList> for Function {
    open spec fn spec_type_id() -> TypeList {
        TypeList::Function
    }

    fn type_id() -> (id: TypeList) {
        TypeList::Function
    }

    open spec fn spec_word_count() -> nat {
        5
    }

    fn word_count() -> (count: usize) {
        5
    }

    open spec fn spec_words(&self) -> Seq<u64> {
        seq![
            self.name.spec_to_word(),
            self.arity as u64,
            self.code.spec_to_word(),
            self.param_names.spec_to_word(),
            self.nonlocal_refs.spec_to_word(),
        ]
    }

    fn to_words(&self) -> (words: Vec<u64>) {
        let mut words: Vec<u64> = Vec::new();
        words.push(self.name.to_word());
        words.push(self.arity as u64);
        words.push(self.code.to_word());
        words.push(self.param_names.to_word());
        words.push(self.nonlocal_refs.to_word());
        assert(words@ =~= self.spec_words());
        words
    }

    open spec fn spec_from_words(words: Seq<u64>) -> Function {
        Function {
            name: TaggedCellPtr::spec_from_word(words[0]),
            arity: spec_u8_of_word(words[1]),
            code: CellPtr::spec_from_word(words[2]),
            param_names: CellPtr::spec_from_word(words[3]),
            nonlocal_refs: TaggedCellPtr::spec_from_word(words[4]),
        }
    }

    fn from_words(words: &[u64]) -> (object: Function) {
        Function {
            name: TaggedCellPtr::from_word(words[0]),
            arity: u8_of_word(words[1]),
            code: CellPtr::from_word(words[2]),
            param_names: CellPtr::from_word(words[3]),
            nonlocal_refs: TaggedCellPtr::from_word(words[4]),
        }
    }

    proof fn lemma_words_round_trip(&self) {
        self.name.lemma_word_round_trip();
        self.code.lemma_word_round_trip();
        self.param_names.lemma_word_round_trip();
        self.nonlocal_refs.lemma_word_round_trip();
    }
}

/// A function with some of its arguments applied.
pub struct Partial {
    /// The number of arguments still to come.
    pub arity: u8,
    /// The number of arguments applied.
    pub used: u8,
    /// The arguments applied.
    pub args: CellPtr<List>,
    /// The environment of a closure: nil, or a list of upvalues.
    pub env: TaggedCellPtr,
    /// The function that is called once every argument is applied.
    pub func: CellPtr<Function>,
}

impl Partial {
    /// The number of arguments still to come.
    pub fn arity(&self) -> (arity: u8)
        ensures
            arity == self.arity,
    {
        self.arity
    }

    /// The number of arguments applied.
    pub fn used(&self) -> (used: u8)
        ensures
            used == self.used,
    {
        self.used
    }

    /// The arguments applied.
    pub fn args<'guard>(&self, guard: &'guard dyn MutatorScope) -> (args: ScopedPtr<'guard, List>)
        ensures
            args.spec_raw() == self.args.spec_raw(),
    {
        self.args.get(guard)
    }

    /// The function that is called once every argument is applied.
    pub fn function<'guard>(&self, guard: &'guard dyn MutatorScope) -> (function: ScopedPtr<
        'guard,
        Function,
    >)
        ensures
            function.spec_raw() == self.func.spec_raw(),
    {
        self.func.get(guard)
    }
}

/// The arguments applied of the partial application `partial`.
pub open spec fn partial_args(heap: Heap, partial: Partial) -> Seq<TaggedCellPtr> {
    array_items(heap, args_list(heap, partial))
}

/// The list that holds the arguments applied of `partial`.
pub open spec fn args_list(heap: Heap, partial: Partial) -> List {
    crate::allocator::object_of_bytes::<TypeList, List>(
        heap.spec_storage().payload(partial.args.spec_raw().spec_word() as int),
    )
}

/// Whether the list of the arguments applied of `partial` lies in `heap`.
pub open spec fn partial_is_held(heap: Heap, partial: Partial) -> bool {
    &&& heap.holds_a(partial.args.spec_raw())
    &&& array_is_held(heap, args_list(heap, partial))
}

impl Partial {
    /// A new partial application of `function` to `args` in the heap,
    /// with a list of its own for the arguments. The count of arguments
    /// is taken as far as 8 bits hold it.
    pub fn allocate<'guard>(
        mem: &mut MutatorView<'guard>,
        function: ScopedPtr<'guard, Function>,
        env: Option<ScopedPtr<'guard, List>>,
        args: &[TaggedCellPtr],
    ) -> (r: Result<ScopedPtr<'guard, Partial>, RuntimeError>)
        requires
            old(mem).holds_a(function),
            args@.len() <= ArraySize::MAX,
            args@.len() % 256 <= old(mem).object_at(function.spec_raw()).arity,
        ensures
            final(mem).spec_heap().grown_from(old(mem).spec_heap()),
            match r {
                Ok(ptr) => {
                    let partial = final(mem).object_at(ptr.spec_raw());
                    &&& final(mem).holds_a(ptr)
                    &&& !old(mem).spec_heap().spec_storage().holds(
                        ptr.spec_raw().spec_word() as int,
                    )
                    &&& partial.used == args@.len() % 256
                    &&& partial.arity == old(mem).object_at(function.spec_raw()).arity
                        - partial.used
                    &&& partial.func.spec_raw() == function.spec_raw()
                    &&& partial.env.spec_ptr().spec_word() == word_of_optional(
                        match env {
                            Some(list) => Some(FatPtr::List(list.spec_raw())),
                            None => None,
                        },
                    )
                    &&& partial_is_held(final(mem).spec_heap(), partial)
                    &&& !old(mem).spec_heap().spec_storage().holds(
                        partial.args.spec_raw().spec_word() as int,
                    )
                    &&& partial_args(final(mem).spec_heap(), partial) == args@
                },
                Err(e) => is_growth_failure(e),
            },
    {
        let ghost first = mem.spec_heap();
        proof {
            use_type_invariant(&*mem);
        }
        let used: u8 = (args.len() % 256) as u8;
        let arity: u8 = mem.get(function).arity() - used;
        let env = match env {
            Some(list) => TaggedCellPtr::new_with(list.as_tagged(mem.guard())),
            None => TaggedCellPtr::new_nil(),
        };
        let args_list: ScopedPtr<'guard, List> = ContainerFromSlice::from_slice(mem, args)?;
        let ghost made = mem.spec_heap();
        let ghost list = mem.object_at(args_list.spec_raw());
        let partial = Partial {
            arity,
            used,
            args: CellPtr::new_with(args_list),
            env,
            func: CellPtr::new_with(function),
        };
        proof {
            use_type_invariant(&*mem);
            crate::allocator::lemma_object_bytes_round_trip::<TypeList, Partial>(partial);
        }
        let r = mem.allocate(partial);
        proof {
            use_type_invariant(&*mem);
            crate::memory::lemma_grown_chain(first, made, mem.spec_heap());
            if r is Ok {
                lemma_array_is_stable(made, mem.spec_heap(), list, None);
            }
        }
        match r {
            Ok(ptr) => Ok(ptr),
            Err(e) => Err(e),
        }
    }

    /// A new partial application in the heap that is `partial` with
    /// `new_args` applied as well, with a list of its own for the
    /// arguments.
    pub fn alloc_clone<'guard>(
        mem: &mut MutatorView<'guard>,
        partial: ScopedPtr<'guard, Partial>,
        new_args: &[TaggedCellPtr],
    ) -> (r: Result<ScopedPtr<'guard, Partial>, RuntimeError>)
        requires
            old(mem).holds_a(partial),
            partial_is_held(old(mem).spec_heap(), old(mem).object_at(partial.spec_raw())),
            old(mem).object_at(partial.spec_raw()).used + new_args@.len() % 256 <= u8::MAX,
            new_args@.len() % 256 <= old(mem).object_at(partial.spec_raw()).arity,
            !(partial_args(old(mem).spec_heap(), old(mem).object_at(partial.spec_raw())).len() == 1
                && new_args@.len() > 0),
        ensures
            final(mem).spec_heap().grown_from(old(mem).spec_heap()),
            match r {
                Ok(ptr) => {
                    let source = old(mem).object_at(partial.spec_raw());
                    let made = final(mem).object_at(ptr.spec_raw());
                    &&& final(mem).holds_a(ptr)
                    &&& !old(mem).spec_heap().spec_storage().holds(
                        ptr.spec_raw().spec_word() as int,
                    )
                    &&& made.used == source.used + new_args@.len() % 256
                    &&& made.arity == source.arity - new_args@.len() % 256
                    &&& made.env == source.env
                    &&& made.func.spec_raw() == source.func.spec_raw()
                    &&& partial_is_held(final(mem).spec_heap(), made)
                    &&& !old(mem).spec_heap().spec_storage().holds(
                        made.args.spec_raw().spec_word() as int,
                    )
                    &&& partial_args(final(mem).spec_heap(), made) == partial_args(
                        old(mem).spec_heap(),
                        source,
                    ) + new_args@
                },
                Err(e) => is_growth_failure(e),
            },
    {
        let ghost first = mem.spec_heap();
        proof {
            use_type_invariant(&*mem);
        }
        let source = mem.get(partial);
        let ghost applied = partial_args(first, source);
        let count: u8 = (new_args.len() % 256) as u8;
        let used: u8 = source.used() + count;
        let arity: u8 = source.arity() - count;
        let list_ptr = List::alloc_clone(mem, source.args(mem.guard()))?;
        let mut list = mem.get(list_ptr);
        let mut index: usize = 0;
        proof {
            use_type_invariant(&*mem);
        }
        while index < new_args.len()
            invariant
                index <= new_args@.len(),
                first == old(mem).spec_heap(),
                mem.spec_heap().wf(),
                mem.spec_heap().grown_from(first),
                mem.holds_a(list_ptr),
                !first.spec_storage().holds(list_ptr.spec_raw().spec_word() as int),
                array_is_held(mem.spec_heap(), list),
                !list.spec_borrow(),
                new_args@.len() > 0 ==> list.spec_data().spec_capacity() != 1,
                list.spec_data().spec_at() matches Some(at) && !first.spec_storage().holds(at),
                array_items(mem.spec_heap(), list) == applied + new_args@.subrange(
                    0,
                    index as int,
                ),
            decreases new_args@.len() - index,
        {
            let ghost before = mem.spec_heap();
            let ghost storage = list.spec_data().spec_at()->0;
            match list.push(mem, new_args[index]) {
                Ok(()) => {},
                Err(e) => {
                    proof {
                        crate::memory::lemma_grown_chain(first, before, mem.spec_heap());
                    }
                    return Err(e);
                },
            }
            proof {
                use_type_invariant(&*mem);
                crate::array::lemma_grown_beside(first, before, mem.spec_heap(), storage);
                assert(applied + new_args@.subrange(0, index + 1) =~= (applied
                    + new_args@.subrange(0, index as int)).push(new_args@[index as int]));
            }
            index = index + 1;
        }
        let ghost filled = mem.spec_heap();
        proof {
            assert(new_args@.subrange(0, index as int) =~= new_args@);
        }
        proof {
            assert(list.spec_data().spec_at() != Some(list_ptr.spec_raw().spec_word() as int));
        }
        mem.put(list_ptr, &list);
        let ghost stored = mem.spec_heap();
        let made = Partial {
            arity,
            used,
            args: CellPtr::new_with(list_ptr),
            env: source.env,
            func: CellPtr::new_with(source.func.get(mem.guard())),
        };
        proof {
            use_type_invariant(&*mem);
            assert(stored.grown_from(first)) by {
                crate::memory::lemma_extends_chain(first, filled, stored);
                assert forall|other: int|
                    first.spec_storage().holds(other) implies #[trigger] stored.spec_storage().payload(
                    other,
                ) == first.spec_storage().payload(other) by {
                    assert(filled.spec_storage().holds(other));
                }
            }
            crate::allocator::lemma_object_bytes_round_trip::<TypeList, Partial>(made);
        }
        let r = mem.allocate(made);
        proof {
            use_type_invariant(&*mem);
            crate::memory::lemma_grown_chain(first, stored, mem.spec_heap());
        }
        match r {
            Ok(ptr) => Ok(ptr),
            Err(e) => Err(e),
        }
    }

    /// The environment of a closure: nil, or a list of upvalues.
    pub fn closure_env(&self) -> (env: TaggedCellPtr)
        ensures
            env == self.env,
    {
        self.env
    }
}

impl AllocObject<TypeList> for Partial {
    open spec fn spec_type_id() -> TypeList {
        TypeList::Partial
    }

    fn type_id() -> (id: TypeList) {
        TypeList::Partial
    }

    open spec fn spec_word_count() -> nat {
        5
    }

    fn word_count() -> (count: usize) {
        5
    }

    open spec fn spec_words(&self) -> Seq<u64> {
        seq![
            self.arity as u64,
            self.used as u64,
            self.args.spec_to_word(),
            self.env.spec_to_word(),
            self.func.spec_to_word(),
        ]
    }

    fn to_words(&self) -> (words: Vec<u64>) {
        let mut words: Vec<u64> = Vec::new();
        words.push(self.arity as u64);
        words.push(self.used as u64);
        words.push(self.args.to_word());
        words.push(self.env.to_word());
        words.push(self.func.to_word());
        assert(words@ =~= self.spec_words());
        words
    }

    open spec fn spec_from_words(words: Seq<u64>) -> Partial {
        Partial {
            arity: spec_u8_of_word(words[0]),
            used: spec_u8_of_word(words[1]),
            args: CellPtr::spec_from_word(words[2]),
            env: TaggedCellPtr::spec_from_word(words[3]),
            func: CellPtr::spec_from_word(words[4]),
        }
    }

    fn from_words(words: &[u64]) -> (object: Partial) {
        Partial {
            arity: u8_of_word(words[0]),
            used: u8_of_word(words[1]),
            args: CellPtr::from_word(words[2]),
            env: TaggedCellPtr::from_word(words[3]),
            func: CellPtr::from_word(words[4]),
        }
    }

    proof fn lemma_words_round_trip(&self) {
        self.args.lemma_word_round_trip();
        self.env.lemma_word_round_trip();
        self.func.lemma_word_round_trip();
    }
}

} // verus!
