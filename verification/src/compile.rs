//! The compiler: a single pass over the tokens that writes bytecode, with a
//! Pratt parser for expressions and one compiler state per function being
//! compiled.

use vstd::prelude::*;
use vstd::string::{StrSliceExecFns, StringSliceAdditionalSpecFns};
use crate::chunk::{Chunk, OpCode};
use crate::obj::{
    bytes_equal, copy_bytes, extends, heap_ok, interned, lemma_heap_ok_extends, lemma_interned_extends, plain, Function,
    Obj, ObjList, ObjString,
};
use crate::scanner::{listed_at, number_spans, ScanError, Scanner, TokenKind};
pub use crate::scanner::Token;
use crate::scheme;
use crate::scheme::{CompilerView, LocalView, State};
use crate::table::Table;
use crate::value::Value;

verus! {

/// The most locals a function can have, the slot of the function itself
/// included.
pub const MAX_LOCALS: usize = 256;

/// The most variables a function can capture.
pub const MAX_UPVALUES: usize = 256;

/// The most constants a chunk can hold.
pub const MAX_CONSTANTS: usize = 256;

/// The most parameters a function can have, and the most arguments a call.
pub const MAX_ARITY: usize = 255;

/// The longest distance a jump can cover.
pub const MAX_JUMP: usize = 65535;

/// What the compiler can complain about.
#[derive(Clone, Copy, Debug, PartialEq, Eq, Structural)]
pub enum Message {
    UnexpectedCharacter,
    UnterminatedString,
    ExpectExpression,
    ExpectParenAfterExpression,
    ExpectSemicolonAfterValue,
    ExpectSemicolonAfterExpression,
    ExpectSemicolonAfterDeclaration,
    ExpectSemicolonAfterReturn,
    ExpectSemicolonAfterCondition,
    ExpectVariableName,
    ExpectFunctionName,
    ExpectParameterName,
    ExpectBraceAfterBlock,
    ExpectBraceBeforeBody,
    ExpectParenAfterIf,
    ExpectParenAfterWhile,
    ExpectParenAfterFor,
    ExpectParenAfterCondition,
    ExpectParenAfterClauses,
    ExpectParenAfterName,
    ExpectParenAfterParameters,
    ExpectParenAfterArguments,
    InvalidAssignmentTarget,
    TooManyConstants,
    TooManyLocals,
    TooManyUpvalues,
    TooManyParameters,
    TooManyArguments,
    TooManyStrings,
    AlreadyDeclared,
    OwnInitializer,
    ReturnFromScript,
    JumpTooLong,
    LoopTooLong,
    NumberWithoutValue,
}

/// Where in the source a complaint points.
#[derive(Clone, Copy, Debug, PartialEq, Eq, Structural)]
pub enum Place {
    /// At the end of the source.
    End,
    /// At the token that starts at the first position and has the second as
    /// its length.
    At(usize, usize),
    /// At text that is no token.
    Unplaced,
}

/// One complaint of the compiler.
#[derive(Clone, Copy, Debug, PartialEq, Eq, Structural)]
pub struct Diagnostic {
    pub line: u32,
    pub place: Place,
    pub message: Message,
}

/// How tightly an operator binds, from loosest to tightest.
#[derive(Clone, Copy, Debug, PartialEq, Eq, Structural)]
pub enum Precedence {
    Lowest,
    Assignment,
    Or,
    And,
    Equality,
    Comparison,
    Term,
    Factor,
    Unary,
    Call,
    Primary,
}

/// The parsing routines that a token can start or continue an expression with.
#[derive(Clone, Copy, Debug, PartialEq, Eq, Structural)]
pub enum Rule {
    Grouping,
    Call,
    Unary,
    Binary,
    Variable,
    String,
    Number,
    Literal,
    And,
    Or,
}

/// What the parser does with a token kind: how an expression starts with it,
/// how one continues with it, and how tightly it binds as an operator.
#[derive(Clone, Copy, Debug, PartialEq, Eq, Structural)]
pub struct ParseRule {
    pub prefix: Option<Rule>,
    pub infix: Option<Rule>,
    pub precedence: Precedence,
}

/// The place of a precedence in the order.
pub open spec fn rank(p: Precedence) -> nat {
    match p {
        Precedence::Lowest => 0,
        Precedence::Assignment => 1,
        Precedence::Or => 2,
        Precedence::And => 3,
        Precedence::Equality => 4,
        Precedence::Comparison => 5,
        Precedence::Term => 6,
        Precedence::Factor => 7,
        Precedence::Unary => 8,
        Precedence::Call => 9,
        Precedence::Primary => 10,
    }
}

/// The precedence one step tighter; the tightest stays.
pub open spec fn tighter(p: Precedence) -> Precedence {
    match p {
        Precedence::Lowest => Precedence::Assignment,
        Precedence::Assignment => Precedence::Or,
        Precedence::Or => Precedence::And,
        Precedence::And => Precedence::Equality,
        Precedence::Equality => Precedence::Comparison,
        Precedence::Comparison => Precedence::Term,
        Precedence::Term => Precedence::Factor,
        Precedence::Factor => Precedence::Unary,
        Precedence::Unary => Precedence::Call,
        Precedence::Call => Precedence::Primary,
        Precedence::Primary => Precedence::Primary,
    }
}

/// The table of parse rules.
pub open spec fn rule_of(kind: TokenKind) -> ParseRule {
    match kind {
        TokenKind::LeftParen => ParseRule {
            prefix: Some(Rule::Grouping),
            infix: Some(Rule::Call),
            precedence: Precedence::Call,
        },
        TokenKind::Minus => ParseRule {
            prefix: Some(Rule::Unary),
            infix: Some(Rule::Binary),
            precedence: Precedence::Term,
        },
        TokenKind::Plus => ParseRule { prefix: None, infix: Some(Rule::Binary), precedence: Precedence::Term },
        TokenKind::Slash => ParseRule { prefix: None, infix: Some(Rule::Binary), precedence: Precedence::Factor },
        TokenKind::Star => ParseRule { prefix: None, infix: Some(Rule::Binary), precedence: Precedence::Factor },
        TokenKind::Bang => ParseRule { prefix: Some(Rule::Unary), infix: None, precedence: Precedence::Lowest },
        TokenKind::BangEqual => ParseRule {
            prefix: None,
            infix: Some(Rule::Binary),
            precedence: Precedence::Equality,
        },
        TokenKind::EqualEqual => ParseRule {
            prefix: None,
            infix: Some(Rule::Binary),
            precedence: Precedence::Equality,
        },
        TokenKind::Greater => ParseRule {
            prefix: None,
            infix: Some(Rule::Binary),
            precedence: Precedence::Comparison,
        },
        TokenKind::GreaterEqual => ParseRule {
            prefix: None,
            infix: Some(Rule::Binary),
            precedence: Precedence::Comparison,
        },
        TokenKind::Less => ParseRule {
            prefix: None,
            infix: Some(Rule::Binary),
            precedence: Precedence::Comparison,
        },
        TokenKind::LessEqual => ParseRule {
            prefix: None,
            infix: Some(Rule::Binary),
            precedence: Precedence::Comparison,
        },
        TokenKind::Identifier => ParseRule { prefix: Some(Rule::Variable), infix: None, precedence: Precedence::Lowest },
        TokenKind::String => ParseRule { prefix: Some(Rule::String), infix: None, precedence: Precedence::Lowest },
        TokenKind::Number => ParseRule { prefix: Some(Rule::Number), infix: None, precedence: Precedence::Lowest },
        TokenKind::And => ParseRule { prefix: None, infix: Some(Rule::And), precedence: Precedence::And },
        TokenKind::Or => ParseRule { prefix: None, infix: Some(Rule::Or), precedence: Precedence::Or },
        TokenKind::False => ParseRule { prefix: Some(Rule::Literal), infix: None, precedence: Precedence::Lowest },
        TokenKind::Nil => ParseRule { prefix: Some(Rule::Literal), infix: None, precedence: Precedence::Lowest },
        TokenKind::True => ParseRule { prefix: Some(Rule::Literal), infix: None, precedence: Precedence::Lowest },
        _ => ParseRule { prefix: None, infix: None, precedence: Precedence::Lowest },
    }
}

impl Precedence {
    /// The place of the precedence in the order, from 0 for the loosest.
    pub fn level(self) -> (n: u8)
        ensures
            n == rank(self),
    {
        match self {
            Precedence::Lowest => 0,
            Precedence::Assignment => 1,
            Precedence::Or => 2,
            Precedence::And => 3,
            Precedence::Equality => 4,
            Precedence::Comparison => 5,
            Precedence::Term => 6,
            Precedence::Factor => 7,
            Precedence::Unary => 8,
            Precedence::Call => 9,
            Precedence::Primary => 10,
        }
    }

    /// The precedence one step tighter.
    pub fn next(self) -> (p: Precedence)
        ensures
            p == tighter(self),
    {
        match self {
            Precedence::Lowest => Precedence::Assignment,
            Precedence::Assignment => Precedence::Or,
            Precedence::Or => Precedence::And,
            Precedence::And => Precedence::Equality,
            Precedence::Equality => Precedence::Comparison,
            Precedence::Comparison => Precedence::Term,
            Precedence::Term => Precedence::Factor,
            Precedence::Factor => Precedence::Unary,
            Precedence::Unary => Precedence::Call,
            Precedence::Call => Precedence::Primary,
            Precedence::Primary => Precedence::Primary,
        }
    }
}

/// The parse rule of a token kind.
pub fn rule_for(kind: TokenKind) -> (r: ParseRule)
    ensures
        r == rule_of(kind),
{
    match kind {
        TokenKind::LeftParen => ParseRule {
            prefix: Some(Rule::Grouping),
            infix: Some(Rule::Call),
            precedence: Precedence::Call,
        },
        TokenKind::Minus => ParseRule {
            prefix: Some(Rule::Unary),
            infix: Some(Rule::Binary),
            precedence: Precedence::Term,
        },
        TokenKind::Plus => ParseRule { prefix: None, infix: Some(Rule::Binary), precedence: Precedence::Term },
        TokenKind::Slash => ParseRule { prefix: None, infix: Some(Rule::Binary), precedence: Precedence::Factor },
        TokenKind::Star => ParseRule { prefix: None, infix: Some(Rule::Binary), precedence: Precedence::Factor },
        TokenKind::Bang => ParseRule { prefix: Some(Rule::Unary), infix: None, precedence: Precedence::Lowest },
        TokenKind::BangEqual => ParseRule {
            prefix: None,
            infix: Some(Rule::Binary),
            precedence: Precedence::Equality,
        },
        TokenKind::EqualEqual => ParseRule {
            prefix: None,
            infix: Some(Rule::Binary),
            precedence: Precedence::Equality,
        },
        TokenKind::Greater => ParseRule {
            prefix: None,
            infix: Some(Rule::Binary),
            precedence: Precedence::Comparison,
        },
        TokenKind::GreaterEqual => ParseRule {
            prefix: None,
            infix: Some(Rule::Binary),
            precedence: Precedence::Comparison,
        },
        TokenKind::Less => ParseRule {
            prefix: None,
            infix: Some(Rule::Binary),
            precedence: Precedence::Comparison,
        },
        TokenKind::LessEqual => ParseRule {
            prefix: None,
            infix: Some(Rule::Binary),
            precedence: Precedence::Comparison,
        },
        TokenKind::Identifier => ParseRule { prefix: Some(Rule::Variable), infix: None, precedence: Precedence::Lowest },
        TokenKind::String => ParseRule { prefix: Some(Rule::String), infix: None, precedence: Precedence::Lowest },
        TokenKind::Number => ParseRule { prefix: Some(Rule::Number), infix: None, precedence: Precedence::Lowest },
        TokenKind::And => ParseRule { prefix: None, infix: Some(Rule::And), precedence: Precedence::And },
        TokenKind::Or => ParseRule { prefix: None, infix: Some(Rule::Or), precedence: Precedence::Or },
        TokenKind::False => ParseRule { prefix: Some(Rule::Literal), infix: None, precedence: Precedence::Lowest },
        TokenKind::Nil => ParseRule { prefix: Some(Rule::Literal), infix: None, precedence: Precedence::Lowest },
        TokenKind::True => ParseRule { prefix: Some(Rule::Literal), infix: None, precedence: Precedence::Lowest },
        _ => ParseRule { prefix: None, infix: None, precedence: Precedence::Lowest },
    }
}

/// The end of the source starts no expression and continues none, and only a
/// token that continues an expression binds at all.
pub proof fn rule_table_shape(kind: TokenKind)
    ensures
        rule_of(TokenKind::Eof).prefix is None,
        rank(rule_of(TokenKind::Eof).precedence) == 0,
        rank(rule_of(kind).precedence) > 0 <==> rule_of(kind).infix is Some,
{
}

/// A local variable: its name, the depth of the scope that declared it (none
/// while its initializer is still being compiled), and whether a closure
/// captures it.
#[derive(Debug)]
pub struct Local {
    pub name: Vec<u8>,
    pub depth: Option<usize>,
    pub is_captured: bool,
}

/// A captured variable as the compiler records it: a slot of the enclosing
/// function's locals, or an index into the enclosing function's own captures.
#[derive(Clone, Copy, Debug, PartialEq, Eq, Structural)]
pub struct UpvalueRef {
    pub index: u8,
    pub is_local: bool,
}

/// Whether the code being compiled is a function's body or the script.
#[derive(Clone, Copy, Debug, PartialEq, Eq, Structural)]
pub enum FunctionType {
    Function,
    Script,
}

/// The state of compiling one function.
#[derive(Debug)]
pub struct Compiler {
    pub function: Function,
    pub kind: FunctionType,
    pub locals: Vec<Local>,
    pub upvalues: Vec<UpvalueRef>,
    pub scope_depth: usize,
}

impl Compiler {
    /// The chunk has a line for every byte, slot 0 is taken, and the limits on
    /// locals and captures hold.
    pub open spec fn wf(&self) -> bool {
        &&& self.function.chunk.wf()
        &&& self.function.chunk.constants@.len() <= MAX_CONSTANTS
        &&& 1 <= self.locals@.len() <= MAX_LOCALS
        &&& self.upvalues@.len() <= MAX_UPVALUES
        &&& self.function.upvalue_count == self.upvalues@.len()
        &&& self.function.arity <= MAX_ARITY
    }

    /// A fresh state for a function of the given kind and name. Slot 0 of its
    /// locals belongs to the function itself and has no name.
    pub fn new(kind: FunctionType, name: Option<usize>) -> (c: Compiler)
        ensures
            c.wf(),
            c.kind == kind,
            c.scope_depth == 0,
            c.function.name == name,
            c.function.arity == 0,
            c.locals@.len() == 1,
            c.upvalues@.len() == 0,
            c.function.chunk.code@.len() == 0,
            c@ == scheme::fresh(kind, name),
    {
        let mut locals: Vec<Local> = Vec::new();
        locals.push(Local { name: Vec::new(), depth: Some(0), is_captured: false });
        proof {
            assert(plain_locals(locals@) =~= seq![
                LocalView { name: Seq::<u8>::empty(), depth: Some(0usize), is_captured: false },
            ]);
        }
        Compiler {
            function: Function { arity: 0, upvalue_count: 0, chunk: Chunk::new(), name },
            kind,
            locals,
            upvalues: Vec::new(),
            scope_depth: 0,
        }
    }
}

impl View for Local {
    type V = LocalView;

    open spec fn view(&self) -> LocalView {
        LocalView { name: self.name@, depth: self.depth, is_captured: self.is_captured }
    }
}

/// The locals as plain values.
pub open spec fn plain_locals(locals: Seq<Local>) -> Seq<LocalView> {
    Seq::new(locals.len(), |i: int| locals[i]@)
}

impl View for Compiler {
    type V = CompilerView;

    open spec fn view(&self) -> CompilerView {
        CompilerView {
            function: self.function@,
            kind: self.kind,
            locals: plain_locals(self.locals@),
            upvalues: self.upvalues@,
            scope_depth: self.scope_depth,
        }
    }
}

/// The compilers as plain values.
#[verifier::opaque]
pub open spec fn plain_compilers(compilers: Seq<Compiler>) -> Seq<CompilerView> {
    Seq::new(compilers.len(), |i: int| compilers[i]@)
}

/// Whether the token lies within the source and has the least length of its
/// kind.
pub open spec fn token_ok(src: Seq<u8>, t: Token) -> bool {
    &&& t.start + t.length <= src.len()
    &&& t.kind == TokenKind::String ==> t.length >= 2
    &&& t.kind != TokenKind::Eof ==> t.length > 0 || t.start == 0
}

/// Whether a statement can start with a token of this kind; the recovery from
/// an error stops before such a token.
pub open spec fn starts_statement(kind: TokenKind) -> bool {
    kind == TokenKind::Class || kind == TokenKind::Fun || kind == TokenKind::Var || kind == TokenKind::For || kind
        == TokenKind::If || kind == TokenKind::While || kind == TokenKind::Print || kind == TokenKind::Return
}

/// How the parser names what the scanner could not read.
pub open spec fn message_of(fault: ScanError) -> Message {
    match fault {
        ScanError::UnexpectedCharacter => Message::UnexpectedCharacter,
        ScanError::UnterminatedString => Message::UnterminatedString,
    }
}

/// The parser: the scanner and its two tokens of context, the complaints so
/// far, the compilers of the functions being compiled (the innermost last),
/// the interner and heap that the compiled code refers to, and the values of
/// the program's number literals in the order of the source.
pub struct Parser {
    pub scanner: Scanner,
    pub current: Token,
    pub previous: Token,
    pub had_error: bool,
    pub panic_mode: bool,
    pub diagnostics: Vec<Diagnostic>,
    pub compilers: Vec<Compiler>,
    pub strings: Table,
    pub heap: ObjList,
    pub numbers: Vec<u64>,
}

impl View for Parser {
    type V = State;

    open spec fn view(&self) -> State {
        State {
            src: self.scanner.source@,
            pos: self.scanner.current,
            seen: self.scanner.numbers,
            current: self.current,
            previous: self.previous,
            had_error: self.had_error,
            panic_mode: self.panic_mode,
            diagnostics: self.diagnostics@,
            compilers: plain_compilers(self.compilers@),
            strings: self.strings@,
            capacity: self.strings.capacity(),
            size: self.strings.size(),
            heap: plain(self.heap@),
            numbers: self.numbers@,
        }
    }
}

/// The plain values of compilers of which one has changed.
pub proof fn lemma_plain_update(before: Seq<Compiler>, after: Seq<Compiler>, at: int)
    requires
        after.len() == before.len(),
        0 <= at < before.len(),
        forall|i: int| 0 <= i < before.len() && i != at ==> after[i] == before[i],
    ensures
        plain_compilers(after) == plain_compilers(before).update(at, after[at]@),
{
    reveal(plain_compilers);
    assert(plain_compilers(after) =~= plain_compilers(before).update(at, after[at]@));
}

/// The plain values of compilers are as many as the compilers, and each is
/// the plain value of its compiler.
pub proof fn lemma_plain_compilers(compilers: Seq<Compiler>)
    ensures
        plain_compilers(compilers).len() == compilers.len(),
        forall|i: int| 0 <= i < compilers.len() ==> #[trigger] plain_compilers(compilers)[i] == compilers[i]@,
{
    reveal(plain_compilers);
}

/// What interning does to the plain values of the heap: a string that the
/// interner knows is found there too, under the same key; a new one is put
/// at the end.
proof fn lemma_plain_interning(
    strings: Map<crate::table::Key, Value>,
    heap: Seq<Obj>,
    bytes: Seq<u8>,
    key: crate::table::Key,
    strings_after: Map<crate::table::Key, Value>,
    heap_after: Seq<Obj>,
)
    requires
        interned(strings, heap),
        crate::obj::interning(strings, heap, bytes, key, strings_after, heap_after),
    ensures
        plain(heap).len() == heap.len(),
        scheme::knows(strings, plain(heap), bytes) == crate::obj::known(strings, heap, bytes),
        crate::obj::known(strings, heap, bytes) ==> scheme::key_for(strings, plain(heap), bytes) == key,
        !crate::obj::known(strings, heap, bytes) ==> plain(heap_after) == plain(heap).push(
            crate::obj::ObjView::String(bytes, crate::obj::fnv1a(bytes)),
        ) && key == (crate::table::Key { index: heap.len() as usize, hash: crate::obj::fnv1a(bytes) }),
{
    reveal(plain);
    assert forall|i: int| scheme::text_in(plain(heap), i) == crate::obj::text_at(heap, i) by {}
    if crate::obj::known(strings, heap, bytes) {
        let k = crate::obj::key_of(strings, heap, bytes);
        assert(strings.contains_key(k) && scheme::text_in(plain(heap), k.index as int) == Some(bytes));
        let chosen = scheme::key_for(strings, plain(heap), bytes);
        assert(strings.contains_key(chosen));
        assert(crate::obj::text_at(heap, chosen.index as int) == crate::obj::text_at(heap, k.index as int));
    } else {
        if scheme::knows(strings, plain(heap), bytes) {
            let chosen = scheme::key_for(strings, plain(heap), bytes);
            assert(strings.contains_key(chosen) && crate::obj::text_at(heap, chosen.index as int) == Some(bytes));
        }
        assert forall|i: int| 0 <= i < heap.len() implies heap_after[i] == heap[i] by {
            assert(heap_after.take(heap.len() as int)[i] == heap_after[i]);
        }
        assert(crate::obj::text_at(heap_after, heap.len() as int) == Some(bytes));
        assert(plain(heap_after) =~= plain(heap).push(
            crate::obj::ObjView::String(bytes, crate::obj::fnv1a(bytes)),
        ));
    }
}

impl Parser {
    /// What holds of the parser whatever its next token is: the scanner
    /// stands where that token ends, the compilers keep their limits, the
    /// interner serves the heap and has deleted nothing, and an error was
    /// recorded exactly when there is a complaint.
    pub open spec fn sound(&self) -> bool {
        &&& self.scanner.wf()
        &&& self.scanner.settled()
        &&& token_ok(self.scanner.source@, self.previous)
        &&& token_ok(self.scanner.source@, self.current)
        &&& listed_at(self.scanner.source@, self.previous)
        &&& self.current.start + self.current.length == self.scanner.current
        &&& self.compilers@.len() >= 1
        &&& forall|i: int|
            0 <= i < self.compilers@.len() ==> (#[trigger] self.compilers@[i]).wf() && self.compilers@[i].scope_depth
                <= self.current.start
        &&& self.strings.wf()
        &&& self.strings.graves() == 0
        &&& interned(self.strings@, self.heap@)
        &&& heap_ok(self.heap@)
        &&& self.had_error == (self.diagnostics@.len() > 0)
        &&& self.panic_mode ==> self.had_error
    }

    /// The parser is sound and stands before a token that is no error.
    pub open spec fn wf(&self) -> bool {
        &&& self.sound()
        &&& listed_at(self.scanner.source@, self.current)
        &&& self.current.kind != TokenKind::Eof ==> self.current.length > 0
        &&& self.current.kind == TokenKind::Eof ==> self.current.start == self.scanner.source@.len()
        &&& !(self.current.kind is Error)
    }

    /// The plain value of the parser has the plain value of each compiler.
    pub(crate) proof fn lemma_view(&self)
        requires
            self.compilers@.len() >= 1,
        ensures
            self@.compilers.len() == self.compilers@.len(),
            self@.compiler() == self.top()@,
            self@.code() == self.code(),
            forall|i: int| 0 <= i < self.compilers@.len() ==> #[trigger] self@.compilers[i] == self.compilers@[i]@,
    {
        lemma_plain_compilers(self.compilers@);
    }

    /// The bytes of the source that the parser has not passed.
    pub open spec fn remaining(&self) -> int {
        self.scanner.source@.len() - self.current.start
    }

    /// The compiler of the innermost function.
    pub open spec fn top(&self) -> Compiler {
        self.compilers@.last()
    }

    /// The code written so far for the innermost function.
    pub open spec fn code(&self) -> Seq<u8> {
        self.top().function.chunk.code@
    }

    /// What every step of the parser keeps: the source and the number values,
    /// the nesting of functions and each function's kind, name and scope depth; it
    /// never goes back in the source, and an error once recorded stays.
    pub open spec fn follows(&self, before: &Parser) -> bool {
        &&& self.scanner.source == before.scanner.source
        &&& self.numbers == before.numbers
        &&& self.current.start >= before.current.start
        &&& self.compilers@.len() == before.compilers@.len()
        &&& forall|i: int|
            0 <= i < self.compilers@.len() ==> (#[trigger] self.compilers@[i]).scope_depth
                == before.compilers@[i].scope_depth && self.compilers@[i].kind == before.compilers@[i].kind
                && self.compilers@[i].function.name == before.compilers@[i].function.name
        &&& before.had_error ==> self.had_error
    }

    /// Whether the parser has passed at least one token since `before`, unless
    /// it stood at the end of the source.
    pub open spec fn advanced(&self, before: &Parser) -> bool {
        before.current.kind != TokenKind::Eof ==> self.current.start > before.current.start
    }

    /// Whether only the code and constants of the innermost function, the
    /// heap, the interner and the complaints may differ from `before`.
    pub open spec fn same_position(&self, before: &Parser) -> bool {
        &&& self.scanner == before.scanner
        &&& self.current == before.current
        &&& self.previous == before.previous
    }

    /// A parser that has read the first token of the source and is about to
    /// compile the script. The interner is rid of its tombstones first, so
    /// that when it grows depends on its entries alone.
    pub fn new(source: &str, numbers: &[u64], strings: Table, heap: ObjList) -> (p: Parser)
        requires
            strings.wf(),
            interned(strings@, heap@),
            heap_ok(heap@),
        ensures
            p.wf(),
            p@ == scheme::start_with(
                source.spec_bytes(),
                numbers@,
                strings@,
                strings.capacity(),
                strings.size(),
                plain(heap@),
            ),
            p.scanner.source@ == source.spec_bytes(),
            p.numbers@ == numbers@,
            p.strings@ == strings@,
            p.strings.size() == strings.size(),
            p.strings.capacity() == strings.capacity(),
            p.heap == heap,
            p.compilers@.len() == 1,
            p.top().function.name is None,
            p.top().function.arity == 0,
    {
        let mut strings = strings;
        strings.settle();
        let scanner = Scanner::new(source.as_bytes_vec());
        let blank = Token { kind: TokenKind::Eof, start: 0, length: 0, line: 1, ordinal: 0 };
        let mut compilers: Vec<Compiler> = Vec::new();
        compilers.push(Compiler::new(FunctionType::Script, None));
        let mut values: Vec<u64> = Vec::new();
        let mut i: usize = 0;
        while i < numbers.len()
            invariant
                i <= numbers@.len(),
                values@ == numbers@.take(i as int),
            decreases numbers@.len() - i,
        {
            values.push(numbers[i]);
            proof {
                assert(numbers@.take(i as int + 1) =~= numbers@.take(i as int).push(numbers@[i as int]));
            }
            i = i + 1;
        }
        proof {
            assert(numbers@.take(i as int) =~= numbers@);
        }
        let mut parser = Parser {
            scanner,
            current: blank,
            previous: blank,
            had_error: false,
            panic_mode: false,
            diagnostics: Vec::new(),
            compilers,
            strings,
            heap,
            numbers: values,
        };
        proof {
            reveal(plain_compilers);
            assert(plain_compilers(parser.compilers@) =~= seq![scheme::fresh(FunctionType::Script, None)]);
        }
        parser.read_token();
        parser
    }

    /// Reads tokens until one is no error, and records a complaint for the
    /// first stretch of the source that is no token, unless a recovery is
    /// already under way.
    pub(crate) fn read_token(&mut self)
        requires
            old(self).sound(),
        ensures
            final(self).wf(),
            final(self)@ == scheme::read(old(self)@),
            final(self).scanner.source == old(self).scanner.source,
            final(self).numbers == old(self).numbers,
            final(self).previous == old(self).previous,
            final(self).compilers == old(self).compilers,
            final(self).strings == old(self).strings,
            final(self).heap == old(self).heap,
            final(self).current.start >= old(self).scanner.current,
            old(self).had_error ==> final(self).had_error,
    {
        loop
            invariant_except_break
                scheme::read(self@) == scheme::read(old(self)@),
            invariant
                self.sound(),
                self.scanner.source == old(self).scanner.source,
                self.scanner.current >= old(self).scanner.current,
                self.numbers == old(self).numbers,
                self.previous == old(self).previous,
                self.compilers == old(self).compilers,
                self.strings == old(self).strings,
                self.heap == old(self).heap,
                self.current.start >= old(self).current.start,
                old(self).had_error ==> self.had_error,
            ensures
                self.wf(),
                self@ == scheme::read(old(self)@),
                self.current.start >= old(self).scanner.current,
            decreases self.scanner.source@.len() - self.scanner.current,
        {
            let ghost before = self@;
            proof {
                reveal(scheme::read);
                reveal(scheme::scan);
                reveal(scheme::complain_next);
                reveal(scheme::complain_at);
            }
            let token: Token = self.scanner.scan_token();
            self.current = token;
            assert(token == scheme::scan(before.src, before.pos, before.seen));
            match token.kind {
                TokenKind::Error(fault) => {
                    if !self.panic_mode {
                        self.panic_mode = true;
                        let message: Message = match fault {
                            ScanError::UnexpectedCharacter => Message::UnexpectedCharacter,
                            ScanError::UnterminatedString => Message::UnterminatedString,
                        };
                        self.diagnostics.push(Diagnostic { line: token.line, place: Place::Unplaced, message });
                        self.had_error = true;
                    }
                },
                _ => {
                    break;
                },
            }
        }
    }

    /// Records a complaint at the given token, unless the parser is already
    /// recovering from an earlier one.
    pub(crate) fn error_at(&mut self, token: Token, message: Message)
        requires
            old(self).wf(),
        ensures
            final(self)@ == scheme::complain_at(old(self)@, token, message),
            final(self).wf(),
            final(self).follows(old(self)),
            final(self).same_position(old(self)),
            final(self).compilers == old(self).compilers,
            final(self).strings == old(self).strings,
            final(self).heap == old(self).heap,
            final(self).panic_mode,
            old(self).panic_mode ==> final(self).diagnostics@ == old(self).diagnostics@ && final(self).had_error
                == old(self).had_error,
            !old(self).panic_mode ==> final(self).had_error && final(self).diagnostics@ == old(self).diagnostics@.push(
                Diagnostic {
                    line: token.line,
                    place: match token.kind {
                        TokenKind::Eof => Place::End,
                        TokenKind::Error(_) => Place::Unplaced,
                        _ => Place::At(token.start, token.length),
                    },
                    message,
                },
            ),
    {
        proof {
            reveal(scheme::complain_at);
        }
        if self.panic_mode {
            return;
        }
        self.panic_mode = true;
        let place: Place = match token.kind {
            TokenKind::Eof => Place::End,
            TokenKind::Error(_) => Place::Unplaced,
            _ => Place::At(token.start, token.length),
        };
        self.diagnostics.push(Diagnostic { line: token.line, place, message });
        self.had_error = true;
    }

    /// Records a complaint at the token just passed.
    pub(crate) fn error(&mut self, message: Message)
        requires
            old(self).wf(),
        ensures
            final(self)@ == scheme::complain(old(self)@, message),
            final(self).wf(),
            final(self).follows(old(self)),
            final(self).same_position(old(self)),
            final(self).compilers == old(self).compilers,
            final(self).strings == old(self).strings,
            final(self).heap == old(self).heap,
            final(self).had_error,
    {
        proof {
            reveal(scheme::complain);
        }
        let token: Token = self.previous;
        self.error_at(token, message);
    }

    /// Records a complaint at the token that comes next.
    pub(crate) fn error_at_current(&mut self, message: Message)
        requires
            old(self).wf(),
        ensures
            final(self)@ == scheme::complain_next(old(self)@, message),
            final(self).wf(),
            final(self).follows(old(self)),
            final(self).same_position(old(self)),
            final(self).compilers == old(self).compilers,
            final(self).strings == old(self).strings,
            final(self).heap == old(self).heap,
            final(self).had_error,
    {
        proof {
            reveal(scheme::complain_next);
        }
        let token: Token = self.current;
        self.error_at(token, message);
    }

    /// Moves to the next token, complaining about every stretch of the source
    /// that is no token on the way.
    pub(crate) fn advance(&mut self)
        requires
            old(self).wf(),
        ensures
            final(self).wf(),
            final(self)@ == scheme::advance(old(self)@),
            final(self).follows(old(self)),
            final(self).advanced(old(self)),
            final(self).previous == old(self).current,
            final(self).current.start >= old(self).current.start + old(self).current.length,
            final(self).compilers == old(self).compilers,
            final(self).strings == old(self).strings,
            final(self).heap == old(self).heap,
    {
        proof {
            reveal(scheme::advance);
        }
        self.previous = self.current;
        self.read_token();
    }

    /// Whether the next token is of the given kind.
    pub(crate) fn check(&self, kind: TokenKind) -> (r: bool)
        ensures
            r == (self.current.kind == kind),
    {
        self.current.kind == kind
    }

    /// Passes the current token if it is of the given kind.
    pub(crate) fn match_token(&mut self, kind: TokenKind) -> (r: bool)
        requires
            old(self).wf(),
        ensures
            final(self)@ == scheme::accept(old(self)@, kind),
            final(self).wf(),
            final(self).follows(old(self)),
            r == (old(self).current.kind == kind),
            !r ==> *final(self) == *old(self),
            r ==> final(self).advanced(old(self)) && final(self).previous == old(self).current,
            final(self).compilers == old(self).compilers,
            final(self).strings == old(self).strings,
            final(self).heap == old(self).heap,
    {
        proof {
            reveal(scheme::accept);
        }
        if !self.check(kind) {
            return false;
        }
        self.advance();
        true
    }

    /// Passes the current token if it is of the given kind, and complains
    /// otherwise.
    pub(crate) fn consume(&mut self, kind: TokenKind, message: Message)
        requires
            old(self).wf(),
        ensures
            final(self)@ == scheme::expect(old(self)@, kind, message),
            final(self).wf(),
            final(self).follows(old(self)),
            old(self).current.kind == kind ==> final(self).advanced(old(self)),
            final(self).compilers == old(self).compilers,
            final(self).strings == old(self).strings,
            final(self).heap == old(self).heap,
    {
        proof {
            reveal(scheme::expect);
        }
        if self.current.kind == kind {
            self.advance();
            return;
        }
        self.error_at_current(message);
    }

    /// Appends a byte to the code of the innermost function, with the line of
    /// the token just passed.
    pub(crate) fn emit_byte(&mut self, byte: u8)
        requires
            old(self).wf(),
        ensures
            final(self)@ == scheme::write_byte(old(self)@, byte),
            final(self).wf(),
            final(self).follows(old(self)),
            final(self).same_position(old(self)),
            final(self).had_error == old(self).had_error,
            final(self).strings == old(self).strings,
            final(self).heap == old(self).heap,
            final(self).code() == old(self).code().push(byte),
            final(self).top().function.chunk.lines@ == old(self).top().function.chunk.lines@.push(
                old(self).previous.line,
            ),
            final(self).top().function.chunk.constants@ == old(self).top().function.chunk.constants@,
            final(self).top().locals == old(self).top().locals,
            final(self).top().upvalues == old(self).top().upvalues,
            forall|i: int|
                0 <= i < old(self).compilers@.len() - 1 ==> final(self).compilers@[i] == old(self).compilers@[i],
    {
        proof {
            self.lemma_view();
        }
        let top: usize = self.compilers.len() - 1;
        let line: u32 = self.previous.line;
        self.compilers[top].function.chunk.write(byte, line);
        proof {
            reveal(scheme::write_byte);
            lemma_plain_update(old(self).compilers@, self.compilers@, top as int);
            self.lemma_view();
        }
    }

    /// Appends an instruction that has no operand.
    pub(crate) fn emit_op(&mut self, op: OpCode)
        requires
            old(self).wf(),
        ensures
            final(self)@ == scheme::write_op(old(self)@, op),
            final(self).wf(),
            final(self).follows(old(self)),
            final(self).same_position(old(self)),
            final(self).had_error == old(self).had_error,
            final(self).strings == old(self).strings,
            final(self).heap == old(self).heap,
            final(self).code() == old(self).code().push(crate::chunk::byte_of(op)),
            final(self).top().function.chunk.constants@ == old(self).top().function.chunk.constants@,
            final(self).top().locals == old(self).top().locals,
            final(self).top().upvalues == old(self).top().upvalues,
            forall|i: int|
                0 <= i < old(self).compilers@.len() - 1 ==> final(self).compilers@[i] == old(self).compilers@[i],
    {
        proof {
            reveal(scheme::write_op);
        }
        self.emit_byte(op.to_byte());
    }

    /// Appends an instruction and its one operand.
    pub(crate) fn emit_bytes(&mut self, op: OpCode, operand: u8)
        requires
            old(self).wf(),
        ensures
            final(self)@ == scheme::write_pair(old(self)@, op, operand),
            final(self).wf(),
            final(self).follows(old(self)),
            final(self).same_position(old(self)),
            final(self).had_error == old(self).had_error,
            final(self).strings == old(self).strings,
            final(self).heap == old(self).heap,
            final(self).code() == old(self).code().push(crate::chunk::byte_of(op)).push(operand),
            final(self).top().function.chunk.constants@ == old(self).top().function.chunk.constants@,
            final(self).top().locals == old(self).top().locals,
            final(self).top().upvalues == old(self).top().upvalues,
    {
        proof {
            reveal(scheme::write_pair);
        }
        self.emit_byte(op.to_byte());
        self.emit_byte(operand);
    }

    /// Writes a jump back to `loop_start`, or complains if that is too far.
    pub(crate) fn emit_loop(&mut self, loop_start: usize)
        requires
            old(self).wf(),
        ensures
            final(self)@ == scheme::write_loop(old(self)@, loop_start),
            final(self).wf(),
            final(self).follows(old(self)),
            final(self).same_position(old(self)),
            final(self).strings == old(self).strings,
            final(self).heap == old(self).heap,
            final(self).code().len() == old(self).code().len() + 3,
            final(self).code().take(old(self).code().len() as int) == old(self).code(),
            final(self).code()[old(self).code().len() as int] == crate::chunk::byte_of(OpCode::Loop),
            ({
                let distance = old(self).code().len() + 3 - loop_start;
                if loop_start <= old(self).code().len() && distance <= MAX_JUMP {
                    &&& final(self).code()[old(self).code().len() as int + 1] == distance / 256
                    &&& final(self).code()[old(self).code().len() as int + 2] == distance % 256
                    &&& final(self).had_error == old(self).had_error
                } else {
                    final(self).had_error
                }
            }),
    {
        proof {
            self.lemma_view();
            reveal(scheme::write_loop);
        }
        self.emit_op(OpCode::Loop);
        proof {
            self.lemma_view();
        }
        let top: usize = self.compilers.len() - 1;
        let length: usize = self.compilers[top].function.chunk.code.len();
        let mut high: u8 = 255;
        let mut low: u8 = 255;
        if loop_start >= length || length - loop_start > MAX_JUMP - 2 {
            self.error(Message::LoopTooLong);
        } else {
            let distance: usize = length - loop_start + 2;
            high = (distance / 256) as u8;
            low = (distance % 256) as u8;
        }
        self.emit_byte(high);
        self.emit_byte(low);
        proof {
            let before = old(self).code();
            assert(self.code() == before.push(crate::chunk::byte_of(OpCode::Loop)).push(high).push(low));
            assert(self.code().take(before.len() as int) =~= before);
            assert(self.code()[before.len() as int + 1] == high);
            assert(self.code()[before.len() as int + 2] == low);
        }
    }

    /// Writes a jump whose distance is not known yet, and returns where the
    /// distance has to be written.
    pub(crate) fn emit_jump(&mut self, op: OpCode) -> (offset: usize)
        requires
            old(self).wf(),
        ensures
            final(self)@ == scheme::write_jump(old(self)@, op).0,
            offset == scheme::write_jump(old(self)@, op).1,
            final(self).wf(),
            final(self).follows(old(self)),
            final(self).same_position(old(self)),
            final(self).had_error == old(self).had_error,
            final(self).strings == old(self).strings,
            final(self).heap == old(self).heap,
            offset == old(self).code().len() + 1,
            final(self).code() == old(self).code().push(crate::chunk::byte_of(op)).push(255u8).push(255u8),
    {
        proof {
            self.lemma_view();
            reveal(scheme::write_jump);
        }
        self.emit_op(op);
        self.emit_byte(255);
        self.emit_byte(255);
        proof {
            self.lemma_view();
        }
        let top: usize = self.compilers.len() - 1;
        self.compilers[top].function.chunk.code.len() - 2
    }

    /// Writes the return of nil that ends every function.
    pub(crate) fn emit_return(&mut self)
        requires
            old(self).wf(),
        ensures
            final(self)@ == scheme::write_return(old(self)@),
            final(self).wf(),
            final(self).follows(old(self)),
            final(self).same_position(old(self)),
            final(self).had_error == old(self).had_error,
            final(self).strings == old(self).strings,
            final(self).heap == old(self).heap,
            final(self).code() == old(self).code().push(crate::chunk::byte_of(OpCode::Nil)).push(
                crate::chunk::byte_of(OpCode::Return),
            ),
    {
        proof {
            reveal(scheme::write_return);
        }
        self.emit_op(OpCode::Nil);
        self.emit_op(OpCode::Return);
    }

    /// Adds a constant to the innermost function and returns its index, or
    /// complains and returns 0 if the chunk is full.
    pub(crate) fn make_constant(&mut self, value: Value) -> (index: u8)
        requires
            old(self).wf(),
        ensures
            final(self)@ == scheme::add_constant(old(self)@, value).0,
            index == scheme::add_constant(old(self)@, value).1,
            final(self).wf(),
            final(self).follows(old(self)),
            final(self).same_position(old(self)),
            final(self).strings == old(self).strings,
            final(self).heap == old(self).heap,
            final(self).code() == old(self).code(),
            old(self).top().function.chunk.constants@.len() < MAX_CONSTANTS ==> {
                &&& index == old(self).top().function.chunk.constants@.len()
                &&& final(self).top().function.chunk.constants@ == old(self).top().function.chunk.constants@.push(
                    value,
                )
                &&& final(self).had_error == old(self).had_error
            },
            old(self).top().function.chunk.constants@.len() >= MAX_CONSTANTS ==> {
                &&& index == 0
                &&& final(self).top().function.chunk.constants@ == old(self).top().function.chunk.constants@
                &&& final(self).had_error
            },
    {
        proof {
            self.lemma_view();
            reveal(scheme::add_constant);
        }
        let top: usize = self.compilers.len() - 1;
        if self.compilers[top].function.chunk.constants.len() >= MAX_CONSTANTS {
            self.error(Message::TooManyConstants);
            return 0;
        }
        let index: usize = self.compilers[top].function.chunk.add_constant(value);
        proof {
            lemma_plain_update(old(self).compilers@, self.compilers@, top as int);
        }
        index as u8
    }

    /// Makes the value a constant and writes the instruction that loads it.
    pub(crate) fn emit_constant(&mut self, value: Value)
        requires
            old(self).wf(),
        ensures
            final(self)@ == scheme::load_constant(old(self)@, value),
            final(self).wf(),
            final(self).follows(old(self)),
            final(self).same_position(old(self)),
            final(self).strings == old(self).strings,
            final(self).heap == old(self).heap,
            old(self).top().function.chunk.constants@.len() < MAX_CONSTANTS ==> {
                &&& final(self).top().function.chunk.constants@ == old(self).top().function.chunk.constants@.push(
                    value,
                )
                &&& final(self).code() == old(self).code().push(crate::chunk::byte_of(OpCode::Constant)).push(
                    old(self).top().function.chunk.constants@.len() as u8,
                )
                &&& final(self).had_error == old(self).had_error
            },
            old(self).top().function.chunk.constants@.len() >= MAX_CONSTANTS ==> final(self).had_error,
    {
        proof {
            reveal(scheme::load_constant);
        }
        let index: u8 = self.make_constant(value);
        self.emit_bytes(OpCode::Constant, index);
    }

    /// Writes into the jump at `offset` the distance from there to the end of
    /// the code, or complains if that is too far.
    pub(crate) fn patch_jump(&mut self, offset: usize)
        requires
            old(self).wf(),
        ensures
            final(self)@ == scheme::patch(old(self)@, offset),
            final(self).wf(),
            final(self).follows(old(self)),
            final(self).same_position(old(self)),
            final(self).strings == old(self).strings,
            final(self).heap == old(self).heap,
            final(self).code().len() == old(self).code().len(),
            ({
                let distance = old(self).code().len() - offset - 2;
                if 0 <= distance <= MAX_JUMP {
                    &&& final(self).code() == old(self).code().update(offset as int, (distance / 256) as u8).update(
                        offset + 1,
                        (distance % 256) as u8,
                    )
                    &&& final(self).had_error == old(self).had_error
                } else {
                    final(self).code() == old(self).code()
                }
            }),
            old(self).code().len() - offset - 2 > MAX_JUMP ==> final(self).had_error,
    {
        proof {
            self.lemma_view();
            reveal(scheme::patch);
        }
        let top: usize = self.compilers.len() - 1;
        let length: usize = self.compilers[top].function.chunk.code.len();
        if length < 2 || offset > length - 2 {
            return;
        }
        let distance: usize = length - offset - 2;
        if distance > MAX_JUMP {
            self.error(Message::JumpTooLong);
            return;
        }
        self.compilers[top].function.chunk.code[offset] = (distance / 256) as u8;
        self.compilers[top].function.chunk.code[offset + 1] = (distance % 256) as u8;
        proof {
            lemma_plain_update(old(self).compilers@, self.compilers@, top as int);
        }
    }

    /// Enters a scope.
    pub(crate) fn begin_scope(&mut self)
        requires
            old(self).wf(),
            old(self).top().scope_depth < old(self).current.start,
        ensures
            final(self)@ == scheme::enter_scope(old(self)@),
            final(self).wf(),
            final(self).same_position(old(self)),
            final(self).scanner.source == old(self).scanner.source,
            final(self).numbers == old(self).numbers,
            final(self).had_error == old(self).had_error,
            final(self).compilers@.len() == old(self).compilers@.len(),
            final(self).top().scope_depth == old(self).top().scope_depth + 1,
            final(self).top().kind == old(self).top().kind,
            final(self).top().function.name == old(self).top().function.name,
            forall|i: int|
                0 <= i < old(self).compilers@.len() - 1 ==> final(self).compilers@[i] == old(self).compilers@[i],
    {
        proof {
            self.lemma_view();
            reveal(scheme::enter_scope);
        }
        let top: usize = self.compilers.len() - 1;
        self.compilers[top].scope_depth = self.compilers[top].scope_depth + 1;
        proof {
            lemma_plain_update(old(self).compilers@, self.compilers@, top as int);
        }
    }

    /// Leaves a scope: every local of the scope is taken off the stack, moved
    /// into its upvalue if a closure captured it.
    pub(crate) fn end_scope(&mut self)
        requires
            old(self).wf(),
            old(self).top().scope_depth > 0,
        ensures
            final(self).wf(),
            final(self)@ == scheme::leave_scope(old(self)@),
            final(self).same_position(old(self)),
            final(self).scanner.source == old(self).scanner.source,
            final(self).numbers == old(self).numbers,
            final(self).had_error == old(self).had_error,
            final(self).compilers@.len() == old(self).compilers@.len(),
            final(self).top().scope_depth == old(self).top().scope_depth - 1,
            final(self).top().kind == old(self).top().kind,
            final(self).top().function.name == old(self).top().function.name,
            forall|i: int|
                0 <= i < old(self).compilers@.len() - 1 ==> final(self).compilers@[i] == old(self).compilers@[i],
    {
        proof {
            self.lemma_view();
        }
        let top: usize = self.compilers.len() - 1;
        self.compilers[top].scope_depth = self.compilers[top].scope_depth - 1;
        let depth: usize = self.compilers[top].scope_depth;
        proof {
            reveal(scheme::leave_scope);
            lemma_plain_update(old(self).compilers@, self.compilers@, top as int);
            self.lemma_view();
        }
        let ghost lowered = self@;
        loop
            invariant_except_break
                scheme::pop_locals(self@, self.top().locals@.len()) == scheme::pop_locals(
                    lowered,
                    old(self).top().locals@.len(),
                ),
            invariant
                self.wf(),
                self.same_position(old(self)),
                self.scanner.source == old(self).scanner.source,
                self.numbers == old(self).numbers,
                self.had_error == old(self).had_error,
                self.compilers@.len() == old(self).compilers@.len(),
                top == self.compilers@.len() - 1,
                self.top().scope_depth == depth,
                depth == old(self).top().scope_depth - 1,
                self.top().kind == old(self).top().kind,
                self.top().function.name == old(self).top().function.name,
                forall|i: int|
                    0 <= i < old(self).compilers@.len() - 1 ==> self.compilers@[i] == old(self).compilers@[i],
            ensures
                self@ == scheme::pop_locals(lowered, old(self).top().locals@.len()),
            decreases self.top().locals@.len(),
        {
            proof {
                reveal_with_fuel(scheme::pop_locals, 2);
                self.lemma_view();
            }
            let count: usize = self.compilers[top].locals.len();
            if count <= 1 {
                break;
            }
            let inside: bool = match self.compilers[top].locals[count - 1].depth {
                Some(d) => d > depth,
                None => false,
            };
            if !inside {
                break;
            }
            if self.compilers[top].locals[count - 1].is_captured {
                self.emit_op(OpCode::CloseUpvalue);
            } else {
                self.emit_op(OpCode::Pop);
            }
            let ghost written = self.compilers@;
            proof {
                self.lemma_view();
            }
            self.compilers[top].locals.pop();
            proof {
                self.lemma_view();
                lemma_plain_update(written, self.compilers@, top as int);
                assert(plain_locals(self.top().locals@) =~= plain_locals(written[top as int].locals@).drop_last());
            }
        }
    }
}

impl Parser {
    /// A copy of the token's text.
    pub(crate) fn lexeme(&self, token: Token) -> (bytes: Vec<u8>)
        requires
            token_ok(self.scanner.source@, token),
        ensures
            bytes@ == self@.lexeme(token),
    {
        assert(self.scanner.source@.len() == self.scanner.source.len());
        copy_bytes(self.scanner.source.as_slice(), token.start, token.start + token.length)
    }

    /// The heap position of the interned string with these bytes; complains
    /// and returns nothing if the interner cannot take another string.
    pub(crate) fn intern(&mut self, bytes: &Vec<u8>) -> (r: Option<usize>)
        requires
            old(self).wf(),
        ensures
            final(self).wf(),
            final(self)@ == scheme::intern(old(self)@, bytes@).0,
            r == scheme::intern(old(self)@, bytes@).1,
            final(self).follows(old(self)),
            final(self).same_position(old(self)),
            final(self).compilers == old(self).compilers,
            extends(old(self).heap@, final(self).heap@),
            r is None ==> final(self).had_error,
            r is Some ==> crate::obj::text_at(final(self).heap@, r->Some_0 as int) == Some(bytes@),
    {
        proof {
            reveal(scheme::intern);
        }
        if !self.strings.has_room() {
            self.error(Message::TooManyStrings);
            return None;
        }
        let key = ObjString::intern(&mut self.strings, &mut self.heap, bytes.as_slice());
        proof {
            lemma_plain_interning(
                old(self).strings@,
                old(self).heap@,
                bytes@,
                key,
                self.strings@,
                self.heap@,
            );
            if !crate::obj::known(old(self).strings@, old(self).heap@, bytes@) {
                let before = old(self).heap@;
                let after = self.heap@;
                assert forall|i: int| 0 <= i < before.len() implies after[i] == #[trigger] before[i] by {
                    assert(after.take(before.len() as int)[i] == after[i]);
                }
                assert(after[before.len() as int] is String);
            }
            lemma_heap_ok_extends(old(self).heap@, self.heap@);
            let s0 = old(self)@;
            if crate::obj::known(old(self).strings@, old(self).heap@, bytes@) {
                assert(self@ == s0);
            } else {
                assert(self@.heap == s0.heap.push(crate::obj::ObjView::String(bytes@, crate::obj::fnv1a(bytes@))));
                assert(self@.strings == s0.strings.insert(key, Value::Nil));
                assert(self@.size == s0.size + 1);
                assert(self@.capacity == scheme::grown(s0.size, s0.capacity));
            }
        }
        Some(key.index)
    }

    /// Makes the name a constant of the innermost function: the interned
    /// string with the name's bytes.
    pub(crate) fn identifier_constant(&mut self, name: &Vec<u8>) -> (index: u8)
        requires
            old(self).wf(),
        ensures
            final(self).wf(),
            final(self)@ == scheme::name_constant(old(self)@, name@).0,
            index == scheme::name_constant(old(self)@, name@).1,
            final(self).follows(old(self)),
            final(self).same_position(old(self)),
    {
        proof {
            reveal(scheme::name_constant);
        }
        match self.intern(name) {
            Some(at) => self.make_constant(Value::Obj(at)),
            None => 0,
        }
    }

    /// The slot of the topmost local of the function at `level` that has the
    /// given name. Complains if that local's initializer is still being
    /// compiled.
    pub(crate) fn resolve_local(&mut self, level: usize, name: &Vec<u8>) -> (r: Option<usize>)
        requires
            old(self).wf(),
            level < old(self).compilers@.len(),
        ensures
            final(self).wf(),
            final(self)@ == scheme::resolve_local(old(self)@, level as int, name@).0,
            r == scheme::resolve_local(old(self)@, level as int, name@).1,
            final(self).follows(old(self)),
            final(self).same_position(old(self)),
            final(self).compilers == old(self).compilers,
            final(self).strings == old(self).strings,
            final(self).heap == old(self).heap,
            r is Some ==> r->Some_0 < old(self).compilers@[level as int].locals@.len(),
    {
        proof {
            self.lemma_view();
            reveal(scheme::resolve_local);
        }
        let ghost locals = plain_locals(self.compilers@[level as int].locals@);
        let mut i: usize = self.compilers[level].locals.len();
        while i > 0
            invariant
                *self == *old(self),
                self.wf(),
                level < self.compilers@.len(),
                locals == plain_locals(self.compilers@[level as int].locals@),
                i <= locals.len(),
                scheme::find_local(locals, name@, i as int) == scheme::find_local(locals, name@, locals.len() as int),
            decreases i,
        {
            i = i - 1;
            if bytes_equal(self.compilers[level].locals[i].name.as_slice(), name.as_slice()) {
                proof {
                    reveal(scheme::resolve_local);
                    self.lemma_view();
                    assert(locals[i as int].name == name@);
                }
                if self.compilers[level].locals[i].depth.is_none() {
                    self.error(Message::OwnInitializer);
                }
                return Some(i);
            }
        }
        None
    }

    /// Records that the function at `level` captures the given variable, and
    /// returns the index of the capture. A variable captured before keeps its
    /// index. Complains and returns 0 if the function captures too many.
    pub(crate) fn add_upvalue(&mut self, level: usize, index: u8, is_local: bool) -> (r: u8)
        requires
            old(self).wf(),
            level < old(self).compilers@.len(),
        ensures
            final(self).wf(),
            final(self)@ == scheme::add_upvalue(old(self)@, level as int, index, is_local).0,
            r == scheme::add_upvalue(old(self)@, level as int, index, is_local).1,
            final(self).follows(old(self)),
            final(self).same_position(old(self)),
            final(self).strings == old(self).strings,
            final(self).heap == old(self).heap,
    {
        proof {
            self.lemma_view();
            reveal(scheme::add_upvalue);
        }
        let wanted = UpvalueRef { index, is_local };
        let count: usize = self.compilers[level].upvalues.len();
        let mut i: usize = 0;
        while i < count
            invariant
                *self == *old(self),
                self.wf(),
                level < self.compilers@.len(),
                count == self.compilers@[level as int].upvalues@.len(),
                wanted == (UpvalueRef { index, is_local }),
                i <= count,
                scheme::find_capture(self.compilers@[level as int].upvalues@, wanted, i as int)
                    == scheme::find_capture(self.compilers@[level as int].upvalues@, wanted, 0),
            decreases count - i,
        {
            if self.compilers[level].upvalues[i] == wanted {
                proof {
                    reveal(scheme::add_upvalue);
                    self.lemma_view();
                }
                return i as u8;
            }
            i = i + 1;
        }
        if count >= MAX_UPVALUES {
            self.error(Message::TooManyUpvalues);
            return 0;
        }
        self.compilers[level].upvalues.push(wanted);
        self.compilers[level].function.upvalue_count = count + 1;
        proof {
            lemma_plain_update(old(self).compilers@, self.compilers@, level as int);
        }
        count as u8
    }

    /// Looks for the name among the variables of the functions around the one
    /// at `level`, and makes every function on the way capture it.
    pub(crate) fn resolve_upvalue(&mut self, level: usize, name: &Vec<u8>) -> (r: Option<u8>)
        requires
            old(self).wf(),
            level < old(self).compilers@.len(),
        ensures
            final(self).wf(),
            final(self)@ == scheme::resolve_upvalue(old(self)@, level as int, name@).0,
            r == scheme::resolve_upvalue(old(self)@, level as int, name@).1,
            final(self).follows(old(self)),
            final(self).same_position(old(self)),
            final(self).strings == old(self).strings,
            final(self).heap == old(self).heap,
        decreases level,
    {
        proof {
            self.lemma_view();
            reveal(scheme::resolve_upvalue);
        }
        if level == 0 {
            return None;
        }
        match self.resolve_local(level - 1, name) {
            Some(slot) => {
                let ghost found = self.compilers@;
                self.compilers[level - 1].locals[slot].is_captured = true;
                proof {
                    lemma_plain_update(found, self.compilers@, level - 1);
                    assert(plain_locals(self.compilers@[level - 1].locals@) =~= plain_locals(
                        found[level - 1].locals@,
                    ).update(
                        slot as int,
                        LocalView { is_captured: true, ..plain_locals(found[level - 1].locals@)[slot as int] },
                    ));
                }
                return Some(self.add_upvalue(level, slot as u8, true));
            },
            None => {},
        }
        match self.resolve_upvalue(level - 1, name) {
            Some(index) => Some(self.add_upvalue(level, index, false)),
            None => None,
        }
    }

    /// Adds a local with the given name, not yet initialized, to the innermost
    /// function; complains if the function has too many.
    pub(crate) fn add_local(&mut self, name: Vec<u8>)
        requires
            old(self).wf(),
        ensures
            final(self).wf(),
            final(self)@ == scheme::add_local(old(self)@, name@),
            final(self).follows(old(self)),
            final(self).same_position(old(self)),
            final(self).strings == old(self).strings,
            final(self).heap == old(self).heap,
    {
        proof {
            self.lemma_view();
            reveal(scheme::add_local);
        }
        let top: usize = self.compilers.len() - 1;
        if self.compilers[top].locals.len() >= MAX_LOCALS {
            self.error(Message::TooManyLocals);
            return;
        }
        self.compilers[top].locals.push(Local { name, depth: None, is_captured: false });
        proof {
            lemma_plain_update(old(self).compilers@, self.compilers@, top as int);
            assert(plain_locals(self.top().locals@) =~= plain_locals(old(self).top().locals@).push(
                LocalView { name: name@, depth: None, is_captured: false },
            ));
        }
    }

    /// Declares the variable named by the token just passed: in a scope, a new
    /// local; complains if the scope already has a variable of that name.
    pub(crate) fn declare_variable(&mut self)
        requires
            old(self).wf(),
        ensures
            final(self).wf(),
            final(self)@ == scheme::declare_variable(old(self)@),
            final(self).follows(old(self)),
            final(self).same_position(old(self)),
            final(self).strings == old(self).strings,
            final(self).heap == old(self).heap,
    {
        proof {
            self.lemma_view();
            reveal(scheme::declare_variable);
        }
        let top: usize = self.compilers.len() - 1;
        let depth: usize = self.compilers[top].scope_depth;
        if depth == 0 {
            return;
        }
        let name: Vec<u8> = self.lexeme(self.previous);
        let ghost locals = plain_locals(self.top().locals@);
        let mut i: usize = self.compilers[top].locals.len();
        let mut clash: bool = false;
        while i > 0
            invariant_except_break
                !clash,
                scheme::clashes(locals, depth, name@, i as int) == scheme::clashes(
                    locals,
                    depth,
                    name@,
                    locals.len() as int,
                ),
            invariant
                *self == *old(self),
                self.wf(),
                top == self.compilers@.len() - 1,
                depth == self.top().scope_depth,
                locals == plain_locals(self.top().locals@),
                i <= locals.len(),
            ensures
                clash == scheme::clashes(locals, depth, name@, locals.len() as int),
            decreases i,
        {
            i = i - 1;
            let beyond: bool = match self.compilers[top].locals[i].depth {
                Some(d) => d < depth,
                None => false,
            };
            if beyond {
                break;
            }
            if bytes_equal(self.compilers[top].locals[i].name.as_slice(), name.as_slice()) {
                clash = true;
                break;
            }
        }
        if clash {
            self.error(Message::AlreadyDeclared);
        }
        self.add_local(name);
    }

    /// Passes a variable's name and declares it. Returns the constant that
    /// holds the name where the variable is global, and 0 where it is local.
    pub(crate) fn parse_variable(&mut self, message: Message) -> (index: u8)
        requires
            old(self).wf(),
        ensures
            final(self).wf(),
            final(self)@ == scheme::parse_variable(old(self)@, message).0,
            index == scheme::parse_variable(old(self)@, message).1,
            final(self).follows(old(self)),
            old(self).current.kind == TokenKind::Identifier ==> final(self).advanced(old(self)),
    {
        proof {
            self.lemma_view();
            reveal(scheme::parse_variable);
        }
        self.consume(TokenKind::Identifier, message);
        self.declare_variable();
        proof {
            self.lemma_view();
        }
        let top: usize = self.compilers.len() - 1;
        if self.compilers[top].scope_depth > 0 {
            return 0;
        }
        let name: Vec<u8> = self.lexeme(self.previous);
        self.identifier_constant(&name)
    }

    /// Marks the newest local as initialized: from now on it can be read.
    pub(crate) fn mark_initialized(&mut self)
        requires
            old(self).wf(),
        ensures
            final(self).wf(),
            final(self)@ == scheme::mark_initialized(old(self)@),
            final(self).follows(old(self)),
            final(self).same_position(old(self)),
            final(self).had_error == old(self).had_error,
            final(self).strings == old(self).strings,
            final(self).heap == old(self).heap,
    {
        proof {
            self.lemma_view();
            reveal(scheme::mark_initialized);
        }
        let top: usize = self.compilers.len() - 1;
        let depth: usize = self.compilers[top].scope_depth;
        if depth == 0 {
            return;
        }
        let last: usize = self.compilers[top].locals.len() - 1;
        self.compilers[top].locals[last].depth = Some(depth);
        proof {
            lemma_plain_update(old(self).compilers@, self.compilers@, top as int);
            assert(plain_locals(self.top().locals@) =~= plain_locals(old(self).top().locals@).update(
                last as int,
                LocalView { depth: Some(depth), ..plain_locals(old(self).top().locals@)[last as int] },
            ));
        }
    }

    /// Ends a variable's declaration: a local becomes readable, a global is
    /// defined by an instruction.
    pub(crate) fn define_variable(&mut self, global: u8)
        requires
            old(self).wf(),
        ensures
            final(self).wf(),
            final(self)@ == scheme::define_variable(old(self)@, global),
            final(self).follows(old(self)),
            final(self).same_position(old(self)),
            final(self).had_error == old(self).had_error,
            final(self).strings == old(self).strings,
            final(self).heap == old(self).heap,
    {
        proof {
            self.lemma_view();
            reveal(scheme::define_variable);
        }
        let top: usize = self.compilers.len() - 1;
        if self.compilers[top].scope_depth > 0 {
            self.mark_initialized();
            return;
        }
        self.emit_bytes(OpCode::DefineGlobal, global);
    }
}

} // verus!
