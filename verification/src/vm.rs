//! The records of the virtual machine: call frames, upvalues, and the
//! thread that holds what the running of byte code needs.

use vstd::prelude::*;
use crate::allocator::{AllocObject, ArraySize};
use crate::array::{array_is_held, array_items, lemma_array_is_kept, Array, ArrayItem, ArrayType};
use crate::bytecode::{ArrayOpcode, ByteCode, InstructionStream, Literals};
use crate::containers::{changed_at_most, is_bounds_error, is_growth_failure, FillAnyContainer};
use crate::dict::{Dict, DictItem};
use crate::error::RuntimeError;
use crate::rawarray::RawArray;
use crate::function::Function;
use crate::headers::TypeList;
use crate::layout::{
    bytes_to_words, decode_words, encode_words, lemma_bytes_to_words_of_words, spec_u32_of_word,
    spec_word_of_bool, u32_of_word, word_of_bool, word_of_u32, words_to_bytes,
};
use crate::list::List;
use crate::memory::{Heap, MutatorView};
use crate::safeptr::{CellPtr, ScopedPtr, TaggedCellPtr, TaggedScopedPtr};
use crate::taggedptr::{FatPtr, Managed, TaggedPtr, Value};

verus! {

/// The register that holds the value that a function returns.
pub const RETURN_REG: usize = 0;

/// The register that holds the environment of a closure.
pub const ENV_REG: usize = 1;

/// The register that holds the first argument of a call.
pub const FIRST_ARG_REG: usize = 2;

/// Where the running of instructions stands.
#[derive(PartialEq)]
pub enum EvalStatus<'guard> {
    /// There is no result yet: more instructions have to run.
    Pending,
    /// The running is over, with this result.
    Return(TaggedScopedPtr<'guard>),
}

/// The frame of a call: the function that runs, where to go on when a
/// call that it makes returns, and where its registers begin on the stack.
#[derive(Copy, Clone)]
pub struct CallFrame {
    pub function: CellPtr<Function>,
    pub ip: ArraySize,
    pub base: ArraySize,
}

impl CallFrame {
    /// The outermost frame: it runs `main_fn` from its first instruction,
    /// with its registers at the bottom of the stack.
    pub fn new_main<'guard>(main_fn: ScopedPtr<'guard, Function>) -> (frame: CallFrame)
        ensures
            frame.function.spec_raw() == main_fn.spec_raw(),
            frame.ip == 0,
            frame.base == 0,
    {
        CallFrame { function: CellPtr::new_with(main_fn), ip: 0, base: 0 }
    }

    /// A frame that runs `function` from the instruction at `ip`, with its
    /// registers from `base` on.
    pub fn new<'guard>(function: ScopedPtr<'guard, Function>, ip: ArraySize, base: ArraySize) -> (frame:
        CallFrame)
        ensures
            frame.function.spec_raw() == function.spec_raw(),
            frame.ip == ip,
            frame.base == base,
    {
        CallFrame { function: CellPtr::new_with(function), ip, base }
    }
}

impl ArrayItem for CallFrame {
    open spec fn spec_item_size() -> nat {
        24
    }

    fn item_size() -> (size: ArraySize) {
        24
    }

    open spec fn spec_item_bytes(self) -> Seq<u8> {
        words_to_bytes(seq![self.function.spec_to_word(), self.ip as u64, self.base as u64])
    }

    fn item_bytes(&self) -> (bytes: Vec<u8>) {
        let mut words: Vec<u64> = Vec::new();
        words.push(self.function.to_word());
        words.push(word_of_u32(self.ip));
        words.push(word_of_u32(self.base));
        assert(words@ =~= seq![self.function.spec_to_word(), self.ip as u64, self.base as u64]);
        encode_words(words.as_slice())
    }

    open spec fn spec_item_of(bytes: Seq<u8>) -> CallFrame {
        let words = bytes_to_words(bytes, 3);
        CallFrame {
            function: CellPtr::spec_from_word(words[0]),
            ip: spec_u32_of_word(words[1]),
            base: spec_u32_of_word(words[2]),
        }
    }

    fn item_of(bytes: &[u8]) -> (item: CallFrame) {
        let words = decode_words(bytes, 3);
        CallFrame {
            function: CellPtr::from_word(words[0]),
            ip: u32_of_word(words[1]),
            base: u32_of_word(words[2]),
        }
    }

    proof fn lemma_item_round_trip(self) {
        lemma_bytes_to_words_of_words(
            seq![self.function.spec_to_word(), self.ip as u64, self.base as u64],
        );
        self.function.lemma_word_round_trip();
    }
}

impl ArrayType for CallFrame {
    open spec fn spec_array_type() -> TypeList {
        TypeList::CallFrameList
    }

    fn array_type() -> (type_id: TypeList) {
        TypeList::CallFrameList
    }
}

/// The frames of the calls that are under way, the outermost first.
pub type CallFrameList = Array<CallFrame>;

/// A variable that a closure has captured. While it is open, the variable
/// lives on the stack at `location`; once it is closed, its value is kept
/// here.
#[derive(Copy, Clone)]
pub struct Upvalue {
    pub value: TaggedCellPtr,
    pub closed: bool,
    pub location: ArraySize,
}

impl Upvalue {
    /// An open upvalue for the variable at `location` on the stack.
    pub fn new(location: ArraySize) -> (upvalue: Upvalue)
        ensures
            upvalue.value.spec_ptr().spec_word() == 0,
            !upvalue.closed,
            upvalue.location == location,
    {
        Upvalue { value: TaggedCellPtr::new_nil(), closed: false, location }
    }
}

/// The list that `stack` points at.
pub open spec fn list_at(heap: Heap, stack: ScopedPtr<List>) -> List {
    crate::allocator::object_of_bytes::<TypeList, List>(
        heap.spec_storage().payload(stack.spec_raw().spec_word() as int),
    )
}

/// Whether `stack` points at a list whose items lie in `heap`.
pub open spec fn stack_is_held(heap: Heap, stack: ScopedPtr<List>) -> bool {
    heap.holds_a(stack.spec_raw()) && array_is_held(heap, list_at(heap, stack))
}

/// The items of the list that `stack` points at.
pub open spec fn stack_items(heap: Heap, stack: ScopedPtr<List>) -> Seq<TaggedCellPtr> {
    array_items(heap, list_at(heap, stack))
}

/// The pointer that `upvalue` refers to: the one that it holds, if it is
/// closed, and the one on the stack at its location, if it is open and the
/// stack is as high.
pub open spec fn upvalue_target(heap: Heap, upvalue: Upvalue, stack: ScopedPtr<List>) -> Option<
    TaggedPtr,
> {
    if upvalue.closed {
        Some(upvalue.value.spec_ptr())
    } else if upvalue.location < stack_items(heap, stack).len() {
        Some(stack_items(heap, stack)[upvalue.location as int].spec_ptr())
    } else {
        None
    }
}

impl Upvalue {
    /// A new open upvalue in the heap for the variable at `location` on
    /// the stack.
    pub fn allocate<'guard>(mem: &mut MutatorView<'guard>, location: ArraySize) -> (r: Result<
        ScopedPtr<'guard, Upvalue>,
        RuntimeError,
    >)
        ensures
            final(mem).spec_heap().grown_from(old(mem).spec_heap()),
            match r {
                Ok(ptr) => {
                    let upvalue = final(mem).object_at(ptr.spec_raw());
                    &&& final(mem).holds_a(ptr)
                    &&& !old(mem).spec_heap().spec_storage().holds(
                        ptr.spec_raw().spec_word() as int,
                    )
                    &&& upvalue.value.spec_ptr().spec_word() == 0
                    &&& !upvalue.closed
                    &&& upvalue.location == location
                },
                Err(e) => is_growth_failure(e),
            },
    {
        let upvalue = Upvalue::new(location);
        proof {
            crate::allocator::lemma_object_bytes_round_trip::<TypeList, Upvalue>(upvalue);
        }
        match mem.allocate(upvalue) {
            Ok(ptr) => Ok(ptr),
            Err(e) => Err(e),
        }
    }

    /// The pointer that the upvalue refers to.
    pub fn get<'guard>(&self, mem: &MutatorView<'guard>, stack: ScopedPtr<'guard, List>) -> (r:
        Result<TaggedPtr, RuntimeError>)
        requires
            !self.closed ==> stack_is_held(mem.spec_heap(), stack),
        ensures
            match r {
                Ok(ptr) => upvalue_target(mem.spec_heap(), *self, stack) == Some(ptr),
                Err(e) => upvalue_target(mem.spec_heap(), *self, stack) is None && is_bounds_error(
                    e,
                ),
            },
    {
        if self.closed {
            Ok(self.value.get_ptr())
        } else {
            let cell = mem.get(stack).get(mem, self.location)?;
            Ok(cell.get_ptr())
        }
    }

    /// Makes the upvalue refer to `ptr`: a closed upvalue holds the pointer
    /// itself, and an open one has it put on the stack at its location.
    pub fn set<'guard>(
        &mut self,
        mem: &mut MutatorView<'guard>,
        stack: ScopedPtr<'guard, List>,
        ptr: TaggedPtr,
    ) -> (r: Result<(), RuntimeError>)
        requires
            !old(self).closed ==> stack_is_held(old(mem).spec_heap(), stack),
        ensures
            final(self).closed == old(self).closed,
            final(self).location == old(self).location,
            if old(self).closed {
                &&& r is Ok
                &&& final(self).value.spec_ptr() == ptr
                &&& final(mem).spec_heap() == old(mem).spec_heap()
            } else {
                &&& *final(self) == *old(self)
                &&& changed_at_most(
                    final(mem).spec_heap(),
                    old(mem).spec_heap(),
                    list_at(old(mem).spec_heap(), stack).spec_data().spec_at(),
                )
                &&& stack_is_held(final(mem).spec_heap(), stack)
                &&& list_at(final(mem).spec_heap(), stack) == list_at(old(mem).spec_heap(), stack)
                &&& match r {
                    Ok(()) => old(self).location < stack_items(old(mem).spec_heap(), stack).len()
                        && stack_items(final(mem).spec_heap(), stack) == stack_items(
                        old(mem).spec_heap(),
                        stack,
                    ).update(old(self).location as int, TaggedCellPtr::spec_of(ptr)),
                    Err(e) => old(self).location >= stack_items(old(mem).spec_heap(), stack).len()
                        && is_bounds_error(e) && stack_items(final(mem).spec_heap(), stack)
                        == stack_items(old(mem).spec_heap(), stack),
                }
            },
    {
        if self.closed {
            self.value.set_to_ptr(ptr);
            Ok(())
        } else {
            proof {
                use_type_invariant(&*mem);
            }
            let list = mem.get(stack);
            let r = list.set(mem, self.location, TaggedCellPtr::new_ptr(ptr));
            proof {
                use_type_invariant(&*mem);
            }
            r
        }
    }

    /// Closes the upvalue: it takes the pointer that the stack holds at its
    /// location, and holds it from now on.
    pub fn close<'guard>(&mut self, mem: &MutatorView<'guard>, stack: ScopedPtr<'guard, List>) -> (r:
        Result<(), RuntimeError>)
        requires
            stack_is_held(mem.spec_heap(), stack),
        ensures
            final(self).location == old(self).location,
            match r {
                Ok(()) => {
                    &&& old(self).location < stack_items(mem.spec_heap(), stack).len()
                    &&& final(self).value.spec_ptr() == stack_items(
                        mem.spec_heap(),
                        stack,
                    )[old(self).location as int].spec_ptr()
                    &&& final(self).closed
                },
                Err(e) => {
                    &&& old(self).location >= stack_items(mem.spec_heap(), stack).len()
                    &&& is_bounds_error(e)
                    &&& *final(self) == *old(self)
                },
            },
    {
        let cell = mem.get(stack).get(mem, self.location)?;
        self.value.set_to_ptr(cell.get_ptr());
        self.closed = true;
        Ok(())
    }
}

/// The upvalue at the index `upvalue_id` of the environment of a closure.
pub fn env_upvalue_lookup<'guard>(
    mem: &MutatorView<'guard>,
    closure_env: TaggedScopedPtr<'guard>,
    upvalue_id: u8,
) -> (r: Result<ScopedPtr<'guard, Upvalue>, RuntimeError>)
    requires
        mem.holds(closure_env),
        closure_env.spec_value() matches Value::List(env) && {
            &&& array_is_held(mem.spec_heap(), list_at(mem.spec_heap(), env))
            &&& upvalue_id < stack_items(mem.spec_heap(), env).len() ==> {
                let ptr = stack_items(mem.spec_heap(), env)[upvalue_id as int].spec_ptr();
                &&& mem.spec_heap().valid(ptr)
                &&& mem.spec_heap().unpack(ptr) matches Some(FatPtr::Upvalue(_))
            }
        },
    ensures
        match r {
            Ok(upvalue) => {
                let env = closure_env.spec_value()->List_0;
                &&& upvalue_id < stack_items(mem.spec_heap(), env).len()
                &&& mem.spec_heap().unpack(
                    stack_items(mem.spec_heap(), env)[upvalue_id as int].spec_ptr(),
                ) == Some(FatPtr::Upvalue(upvalue.spec_raw()))
                &&& mem.holds_a(upvalue)
            },
            Err(e) => {
                let env = closure_env.spec_value()->List_0;
                &&& upvalue_id >= stack_items(mem.spec_heap(), env).len()
                &&& is_bounds_error(e)
            },
        },
{
    proof {
        use_type_invariant(mem);
        List::lemma_type_size();
        Upvalue::lemma_type_size();
    }
    match closure_env.value() {
        Value::List(env) => {
            let list = mem.get(env);
            let cell = list.get(mem, upvalue_id as ArraySize)?;
            match cell.get(mem).value() {
                Value::Upvalue(upvalue) => Ok(upvalue),
                _ => {
                    proof {
                        assert(false);
                    }
                    vstd::pervasive::unreached()
                },
            }
        },
        _ => {
            proof {
                assert(false);
            }
            vstd::pervasive::unreached()
        },
    }
}

impl AllocObject<TypeList> for Upvalue {
    open spec fn spec_type_id() -> TypeList {
        TypeList::Upvalue
    }

    fn type_id() -> (id: TypeList) {
        TypeList::Upvalue
    }

    open spec fn spec_word_count() -> nat {
        3
    }

    fn word_count() -> (count: usize) {
        3
    }

    open spec fn spec_words(&self) -> Seq<u64> {
        seq![self.value.spec_to_word(), spec_word_of_bool(self.closed), self.location as u64]
    }

    fn to_words(&self) -> (words: Vec<u64>) {
        let mut words: Vec<u64> = Vec::new();
        words.push(self.value.to_word());
        words.push(word_of_bool(self.closed));
        words.push(word_of_u32(self.location));
        assert(words@ =~= self.spec_words());
        words
    }

    open spec fn spec_from_words(words: Seq<u64>) -> Upvalue {
        Upvalue {
            value: TaggedCellPtr::spec_from_word(words[0]),
            closed: words[1] != 0,
            location: spec_u32_of_word(words[2]),
        }
    }

    fn from_words(words: &[u64]) -> (object: Upvalue) {
        Upvalue {
            value: TaggedCellPtr::from_word(words[0]),
            closed: words[1] != 0,
            location: u32_of_word(words[2]),
        }
    }

    proof fn lemma_words_round_trip(&self) {
        self.value.lemma_word_round_trip();
    }
}

/// The count of registers that a new thread has on its stack.
pub const STACK_SIZE: ArraySize = 256;

/// The count of frames that a new thread has room for.
pub const FRAMES_CAPACITY: ArraySize = 16;

/// A new list in the heap that holds `STACK_SIZE` cells with nil: the
/// stack of a new thread.
pub fn alloc_stack<'guard>(mem: &mut MutatorView<'guard>) -> (r: Result<
    ScopedPtr<'guard, List>,
    RuntimeError,
>)
    ensures
        final(mem).spec_heap().grown_from(old(mem).spec_heap()),
        match r {
            Ok(stack) => {
                &&& stack_is_held(final(mem).spec_heap(), stack)
                &&& !old(mem).spec_heap().spec_storage().holds(
                    stack.spec_raw().spec_word() as int,
                )
                &&& stack_items(final(mem).spec_heap(), stack) == Seq::new(
                    STACK_SIZE as nat,
                    |i: int| TaggedCellPtr::spec_of(TaggedPtr::spec_of(0)),
                )
            },
            Err(e) => is_growth_failure(e),
        },
{
    let ghost first = mem.spec_heap();
    proof {
        use_type_invariant(&*mem);
    }
    let stack = List::alloc_with_capacity(mem, STACK_SIZE)?;
    let ghost made = mem.spec_heap();
    let mut list = mem.get(stack);
    let ghost storage = list.spec_data().spec_at()->0;
    let nil = mem.nil();
    proof {
        use_type_invariant(&*mem);
    }
    match FillAnyContainer::fill(&mut list, mem, STACK_SIZE, nil) {
        Ok(()) => {},
        Err(e) => {
            return Err(e);
        },
    }
    let ghost filled_heap = mem.spec_heap();
    proof {
        use_type_invariant(&*mem);
        crate::array::lemma_grown_beside(first, made, filled_heap, storage);
        assert(nil.spec_ptr() == TaggedPtr::spec_of(0)) by {
            nil.spec_ptr().lemma_is_spec_of();
        }
        assert(array_items(filled_heap, list) =~= Seq::new(
            STACK_SIZE as nat,
            |i: int| TaggedCellPtr::spec_of(TaggedPtr::spec_of(0)),
        ));
    }
    mem.put(stack, &list);
    proof {
        use_type_invariant(&*mem);
        let heap = mem.spec_heap();
        crate::memory::lemma_extends_chain(first, filled_heap, heap);
        assert forall|other: int|
            first.spec_storage().holds(other) implies #[trigger] heap.spec_storage().payload(other)
            == first.spec_storage().payload(other) by {
            assert(filled_heap.spec_storage().holds(other));
        }
        assert(array_items(heap, list) =~= array_items(filled_heap, list));
    }
    Ok(stack)
}

/// A thread: what the running of byte code needs. It holds the frames of
/// the calls under way, the stack of registers, where the registers of the
/// current call begin, the upvalues by the place on the stack that each
/// stands for, the globals by name, and the stream of instructions.
#[derive(Copy, Clone)]
pub struct Thread {
    pub frames: CellPtr<CallFrameList>,
    pub stack: CellPtr<List>,
    pub stack_base: ArraySize,
    pub upvalues: CellPtr<Dict>,
    pub globals: CellPtr<Dict>,
    pub instr: CellPtr<InstructionStream>,
}

/// Whether `thread` is as a new thread is: its frames, its stack, its two
/// dicts and its stream of instructions lie in `heap`; it has no frame and
/// room for `FRAMES_CAPACITY` of them; its stack holds `STACK_SIZE` cells
/// with nil; its dicts are empty; and its stream stands at the start of
/// byte code without instructions.
pub open spec fn is_new_thread(heap: Heap, thread: Thread) -> bool {
    let frames = crate::sexpr::object_in::<CallFrameList>(
        heap,
        thread.frames.spec_raw().spec_word(),
    );
    let upvalues = crate::sexpr::object_in::<Dict>(heap, thread.upvalues.spec_raw().spec_word());
    let globals = crate::sexpr::object_in::<Dict>(heap, thread.globals.spec_raw().spec_word());
    let instr = crate::sexpr::object_in::<InstructionStream>(
        heap,
        thread.instr.spec_raw().spec_word(),
    );
    let code = crate::sexpr::object_in::<ByteCode>(heap, instr.instructions.spec_raw().spec_word());
    &&& thread.stack_base == 0
    &&& heap.holds_a(thread.frames.spec_raw())
    &&& array_is_held(heap, frames)
    &&& frames.spec_length() == 0
    &&& frames.spec_data().spec_capacity() == FRAMES_CAPACITY
    &&& heap.holds_a(thread.stack.spec_raw())
    &&& array_is_held(heap, crate::sexpr::object_in::<List>(heap, thread.stack.spec_raw().spec_word()))
    &&& array_items(
        heap,
        crate::sexpr::object_in::<List>(heap, thread.stack.spec_raw().spec_word()),
    ) == Seq::new(STACK_SIZE as nat, |i: int| TaggedCellPtr::spec_of(TaggedPtr::spec_of(0)))
    &&& heap.holds_a(thread.upvalues.spec_raw())
    &&& upvalues.length == 0
    &&& upvalues.used_entries == 0
    &&& upvalues.data == RawArray::<DictItem>::spec_of(0, None)
    &&& heap.holds_a(thread.globals.spec_raw())
    &&& globals.length == 0
    &&& globals.used_entries == 0
    &&& globals.data == RawArray::<DictItem>::spec_of(0, None)
    &&& heap.holds_a(thread.instr.spec_raw())
    &&& instr.ip == 0
    &&& heap.holds_a(instr.instructions.spec_raw())
    &&& code.code == ArrayOpcode::new_spec()
    &&& code.literals == Literals::new_spec()
}

impl Thread {
    /// A new thread in the heap, with a stack and without byte code to
    /// run.
    pub fn allocate<'guard>(mem: &mut MutatorView<'guard>) -> (r: Result<
        ScopedPtr<'guard, Thread>,
        RuntimeError,
    >)
        ensures
            final(mem).spec_heap().grown_from(old(mem).spec_heap()),
            match r {
                Ok(ptr) => {
                    &&& final(mem).holds_a(ptr)
                    &&& !old(mem).spec_heap().spec_storage().holds(
                        ptr.spec_raw().spec_word() as int,
                    )
                    &&& is_new_thread(final(mem).spec_heap(), final(mem).object_at(ptr.spec_raw()))
                },
                Err(e) => is_growth_failure(e),
            },
    {
        let ghost h0 = mem.spec_heap();
        proof {
            use_type_invariant(&*mem);
        }
        let frames = CallFrameList::alloc_with_capacity(mem, FRAMES_CAPACITY)?;
        let ghost h1 = mem.spec_heap();
        let ghost frame_list = mem.object_at(frames.spec_raw());
        proof {
            use_type_invariant(&*mem);
        }
        let stack = match alloc_stack(mem) {
            Ok(stack) => stack,
            Err(e) => {
                proof {
                    crate::memory::lemma_grown_chain(h0, h1, mem.spec_heap());
                }
                return Err(e);
            },
        };
        let ghost h2 = mem.spec_heap();
        let ghost stack_list = mem.object_at(stack.spec_raw());
        proof {
            use_type_invariant(&*mem);
            crate::memory::lemma_grown_chain(h0, h1, h2);
        }
        let upvalues = match Dict::allocate(mem) {
            Ok(dict) => dict,
            Err(e) => {
                proof {
                    crate::memory::lemma_grown_chain(h0, h2, mem.spec_heap());
                }
                return Err(e);
            },
        };
        let ghost h3 = mem.spec_heap();
        proof {
            use_type_invariant(&*mem);
            crate::memory::lemma_grown_chain(h0, h2, h3);
            crate::memory::lemma_grown_chain(h1, h2, h3);
        }
        let globals = match Dict::allocate(mem) {
            Ok(dict) => dict,
            Err(e) => {
                proof {
                    crate::memory::lemma_grown_chain(h0, h3, mem.spec_heap());
                }
                return Err(e);
            },
        };
        let ghost h4 = mem.spec_heap();
        proof {
            use_type_invariant(&*mem);
            crate::memory::lemma_grown_chain(h0, h3, h4);
            crate::memory::lemma_grown_chain(h1, h3, h4);
            crate::memory::lemma_grown_chain(h2, h3, h4);
        }
        let blank_code = match ByteCode::allocate(mem) {
            Ok(code) => code,
            Err(e) => {
                proof {
                    crate::memory::lemma_grown_chain(h0, h4, mem.spec_heap());
                }
                return Err(e);
            },
        };
        let ghost h5 = mem.spec_heap();
        proof {
            use_type_invariant(&*mem);
            crate::memory::lemma_grown_chain(h0, h4, h5);
            crate::memory::lemma_grown_chain(h1, h4, h5);
            crate::memory::lemma_grown_chain(h2, h4, h5);
            crate::memory::lemma_grown_chain(h3, h4, h5);
        }
        let instr = match InstructionStream::allocate(mem, blank_code) {
            Ok(instr) => instr,
            Err(e) => {
                proof {
                    crate::memory::lemma_grown_chain(h0, h5, mem.spec_heap());
                }
                return Err(e);
            },
        };
        let ghost h6 = mem.spec_heap();
        proof {
            use_type_invariant(&*mem);
            crate::memory::lemma_grown_chain(h0, h5, h6);
            crate::memory::lemma_grown_chain(h1, h5, h6);
            crate::memory::lemma_grown_chain(h2, h5, h6);
            crate::memory::lemma_grown_chain(h3, h5, h6);
            crate::memory::lemma_grown_chain(h4, h5, h6);
        }
        let thread = Thread {
            frames: CellPtr::new_with(frames),
            stack: CellPtr::new_with(stack),
            stack_base: 0,
            upvalues: CellPtr::new_with(upvalues),
            globals: CellPtr::new_with(globals),
            instr: CellPtr::new_with(instr),
        };
        proof {
            crate::allocator::lemma_object_bytes_round_trip::<TypeList, Thread>(thread);
        }
        let r = mem.allocate(thread);
        proof {
            use_type_invariant(&*mem);
            let h7 = mem.spec_heap();
            crate::memory::lemma_grown_chain(h0, h6, h7);
            if r is Ok {
                crate::memory::lemma_grown_chain(h1, h6, h7);
                crate::memory::lemma_grown_chain(h2, h6, h7);
                crate::memory::lemma_grown_chain(h3, h6, h7);
                crate::memory::lemma_grown_chain(h4, h6, h7);
                crate::memory::lemma_grown_chain(h5, h6, h7);
                lemma_array_is_kept(h1, h7, frame_list);
                lemma_array_is_kept(h2, h7, stack_list);
            }
        }
        match r {
            Ok(ptr) => Ok(ptr),
            Err(e) => Err(e),
        }
    }
}

impl AllocObject<TypeList> for Thread {
    open spec fn spec_type_id() -> TypeList {
        TypeList::Thread
    }

    fn type_id() -> (id: TypeList) {
        TypeList::Thread
    }

    open spec fn spec_word_count() -> nat {
        6
    }

    fn word_count() -> (count: usize) {
        6
    }

    open spec fn spec_words(&self) -> Seq<u64> {
        seq![
            self.frames.spec_to_word(),
            self.stack.spec_to_word(),
            self.stack_base as u64,
            self.upvalues.spec_to_word(),
            self.globals.spec_to_word(),
            self.instr.spec_to_word(),
        ]
    }

    fn to_words(&self) -> (words: Vec<u64>) {
        let mut words: Vec<u64> = Vec::new();
        words.push(self.frames.to_word());
        words.push(self.stack.to_word());
        words.push(word_of_u32(self.stack_base));
        words.push(self.upvalues.to_word());
        words.push(self.globals.to_word());
        words.push(self.instr.to_word());
        assert(words@ =~= self.spec_words());
        words
    }

    open spec fn spec_from_words(words: Seq<u64>) -> Thread {
        Thread {
            frames: CellPtr::spec_from_word(words[0]),
            stack: CellPtr::spec_from_word(words[1]),
            stack_base: spec_u32_of_word(words[2]),
            upvalues: CellPtr::spec_from_word(words[3]),
            globals: CellPtr::spec_from_word(words[4]),
            instr: CellPtr::spec_from_word(words[5]),
        }
    }

    fn from_words(words: &[u64]) -> (object: Thread) {
        Thread {
            frames: CellPtr::from_word(words[0]),
            stack: CellPtr::from_word(words[1]),
            stack_base: u32_of_word(words[2]),
            upvalues: CellPtr::from_word(words[3]),
            globals: CellPtr::from_word(words[4]),
            instr: CellPtr::from_word(words[5]),
        }
    }

    proof fn lemma_words_round_trip(&self) {
        self.frames.lemma_word_round_trip();
        self.stack.lemma_word_round_trip();
        self.upvalues.lemma_word_round_trip();
        self.globals.lemma_word_round_trip();
        self.instr.lemma_word_round_trip();
    }
}

} // verus!
