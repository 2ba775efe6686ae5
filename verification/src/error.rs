//! Errors of the runtime, with the source position they refer to.

use vstd::prelude::*;
use vstd::std_specs::convert::FromSpecImpl;
use vstd::string::StringExecFns;
use crate::allocator::AllocError;
use crate::blockalloc::BlockError;

verus! {

/// A position in source code: lines count from 1, columns from 0.
#[derive(Copy, Clone, Debug, PartialEq, Eq, Structural)]
pub struct SourcePos {
    pub line: u32,
    pub column: u32,
}

impl SourcePos {
    /// The position at `line` and `column`.
    pub fn new(line: u32, column: u32) -> (pos: SourcePos)
        ensures
            pos == (SourcePos { line, column }),
    {
        SourcePos { line, column }
    }
}

/// The kinds of error, some with the reason in words.
#[derive(Debug, PartialEq)]
pub enum ErrorKind {
    IOError(String),
    LexerError(String),
    ParseError(String),
    EvalError(String),
    BadAllocationRequest,
    OutOfMemory,
    BoundsError,
    KeyError,
    UnhashableError,
    MutableBorrowError,
}

/// An error of the runtime.
#[derive(Debug, PartialEq)]
pub struct RuntimeError {
    kind: ErrorKind,
    pos: Option<SourcePos>,
}

/// The text that describes an error of the given kind.
pub open spec fn message_of(kind: ErrorKind) -> Seq<char> {
    match kind {
        ErrorKind::IOError(reason) => "IO Error: "@ + reason@,
        ErrorKind::LexerError(reason) => "Parse error: "@ + reason@,
        ErrorKind::ParseError(reason) => "Parse error: "@ + reason@,
        ErrorKind::EvalError(reason) => "Evaluation error: "@ + reason@,
        ErrorKind::OutOfMemory => "Out of memory!"@,
        ErrorKind::BadAllocationRequest => "An invalid memory size allocation was requested!"@,
        ErrorKind::BoundsError => "Indexing bounds error"@,
        ErrorKind::KeyError => "Key does not exist in Dict"@,
        ErrorKind::UnhashableError => "Attempt to access Dict with unhashable key"@,
        ErrorKind::MutableBorrowError => "Attempt to modify a container that is already mutably borrowed"@,
    }
}

/// The kind of error of the runtime that stands for an allocation error.
pub open spec fn kind_of_alloc_error(error: AllocError) -> ErrorKind {
    match error {
        AllocError::OOM => ErrorKind::OutOfMemory,
        AllocError::BadRequest => ErrorKind::BadAllocationRequest,
    }
}

/// The kind of error of the runtime that stands for a refused block.
pub open spec fn kind_of_block_error(error: BlockError) -> ErrorKind {
    match error {
        BlockError::OOM => ErrorKind::OutOfMemory,
        BlockError::BadRequest => ErrorKind::BadAllocationRequest,
    }
}

impl RuntimeError {
    /// The kind of the error.
    pub closed spec fn spec_kind(&self) -> ErrorKind {
        self.kind
    }

    /// The source position of the error, if it has one.
    pub closed spec fn spec_pos(&self) -> Option<SourcePos> {
        self.pos
    }

    /// An error without a source position.
    pub fn new(kind: ErrorKind) -> (error: RuntimeError)
        ensures
            error.spec_kind() == kind,
            error.spec_pos() is None,
            error == Self::spec_of(kind),
    {
        RuntimeError { kind, pos: None }
    }

    /// An error at a source position.
    pub fn with_pos(kind: ErrorKind, pos: SourcePos) -> (error: RuntimeError)
        ensures
            error.spec_kind() == kind,
            error.spec_pos() == Some(pos),
    {
        RuntimeError { kind, pos: Some(pos) }
    }

    /// The kind of the error.
    pub fn error_kind(&self) -> (kind: &ErrorKind)
        ensures
            *kind == self.spec_kind(),
    {
        &self.kind
    }

    /// The source position of the error, if it has one.
    pub fn error_pos(&self) -> (pos: Option<SourcePos>)
        ensures
            pos == self.spec_pos(),
    {
        self.pos
    }

    /// The text that describes the error.
    pub fn message(&self) -> (text: String)
        ensures
            text@ == message_of(self.spec_kind()),
    {
        match &self.kind {
            ErrorKind::IOError(reason) => String::from_str("IO Error: ").concat(reason.as_str()),
            ErrorKind::LexerError(reason) => String::from_str("Parse error: ").concat(
                reason.as_str(),
            ),
            ErrorKind::ParseError(reason) => String::from_str("Parse error: ").concat(
                reason.as_str(),
            ),
            ErrorKind::EvalError(reason) => String::from_str("Evaluation error: ").concat(
                reason.as_str(),
            ),
            ErrorKind::OutOfMemory => String::from_str("Out of memory!"),
            ErrorKind::BadAllocationRequest => String::from_str(
                "An invalid memory size allocation was requested!",
            ),
            ErrorKind::BoundsError => String::from_str("Indexing bounds error"),
            ErrorKind::KeyError => String::from_str("Key does not exist in Dict"),
            ErrorKind::UnhashableError => String::from_str(
                "Attempt to access Dict with unhashable key",
            ),
            ErrorKind::MutableBorrowError => String::from_str(
                "Attempt to modify a container that is already mutably borrowed",
            ),
        }
    }
}

impl From<BlockError> for RuntimeError {
    fn from(other: BlockError) -> (error: RuntimeError) {
        match other {
            BlockError::OOM => RuntimeError::new(ErrorKind::OutOfMemory),
            BlockError::BadRequest => RuntimeError::new(ErrorKind::BadAllocationRequest),
        }
    }
}

impl FromSpecImpl<BlockError> for RuntimeError {
    open spec fn obeys_from_spec() -> bool {
        true
    }

    open spec fn from_spec(other: BlockError) -> RuntimeError {
        RuntimeError::spec_of(kind_of_block_error(other))
    }
}

impl From<AllocError> for RuntimeError {
    fn from(other: AllocError) -> (error: RuntimeError) {
        match other {
            AllocError::OOM => RuntimeError::new(ErrorKind::OutOfMemory),
            AllocError::BadRequest => RuntimeError::new(ErrorKind::BadAllocationRequest),
        }
    }
}

impl FromSpecImpl<AllocError> for RuntimeError {
    open spec fn obeys_from_spec() -> bool {
        true
    }

    open spec fn from_spec(other: AllocError) -> RuntimeError {
        RuntimeError::spec_of(kind_of_alloc_error(other))
    }
}

impl RuntimeError {
    /// The error of the given kind without a source position.
    pub closed spec fn spec_of(kind: ErrorKind) -> RuntimeError {
        RuntimeError { kind, pos: None }
    }

    /// An error made of a kind alone has that kind and no position.
    pub broadcast proof fn lemma_spec_of(kind: ErrorKind)
        ensures
            (#[trigger] Self::spec_of(kind)).spec_kind() == kind,
            Self::spec_of(kind).spec_pos() is None,
    {
    }
}

/// The error of the runtime that stands for an allocation error.
pub fn alloc_failure(error: AllocError) -> (e: RuntimeError)
    ensures
        e.spec_kind() == kind_of_alloc_error(error),
        e.spec_pos() is None,
        e == RuntimeError::spec_of(kind_of_alloc_error(error)),
{
    match error {
        AllocError::OOM => RuntimeError::new(ErrorKind::OutOfMemory),
        AllocError::BadRequest => RuntimeError::new(ErrorKind::BadAllocationRequest),
    }
}

/// The position at `line` and `column`.
pub fn spos(line: u32, column: u32) -> (pos: SourcePos)
    ensures
        pos == (SourcePos { line, column }),
{
    SourcePos::new(line, column)
}

/// An error of the lexer at `pos`.
pub fn err_lexer(pos: SourcePos, reason: &str) -> (error: RuntimeError)
    ensures
        error.spec_kind() matches ErrorKind::LexerError(text) && text@ == reason@,
        error.spec_pos() == Some(pos),
{
    RuntimeError::with_pos(ErrorKind::LexerError(String::from_str(reason)), pos)
}

/// An error of the parser without a position.
pub fn err_parser(reason: &str) -> (error: RuntimeError)
    ensures
        error.spec_kind() matches ErrorKind::ParseError(text) && text@ == reason@,
        error.spec_pos() is None,
{
    RuntimeError::new(ErrorKind::ParseError(String::from_str(reason)))
}

/// An error of the parser at `pos`.
pub fn err_parser_wpos(pos: SourcePos, reason: &str) -> (error: RuntimeError)
    ensures
        error.spec_kind() matches ErrorKind::ParseError(text) && text@ == reason@,
        error.spec_pos() == Some(pos),
{
    RuntimeError::with_pos(ErrorKind::ParseError(String::from_str(reason)), pos)
}

/// An error of evaluation.
pub fn err_eval(reason: &str) -> (error: RuntimeError)
    ensures
        error.spec_kind() matches ErrorKind::EvalError(text) && text@ == reason@,
        error.spec_pos() is None,
{
    RuntimeError::new(ErrorKind::EvalError(String::from_str(reason)))
}

} // verus!
