//! The compilation scheme: what the compiler makes of a source text, written
//! as functions on plain values. A `State` holds what the parser holds; each
//! function here says what one routine of the parser does to it. Where a
//! routine goes on after another has run, it does so only if that one did not
//! go back in the source; no routine does, so the condition only serves to
//! show that the scheme is well defined.

use vstd::prelude::*;
use crate::chunk::{byte_of, ChunkView, OpCode};
use crate::compile::{
    message_of, rank, rule_of, starts_statement, tighter, Diagnostic, FunctionType, Message, Place, Precedence, Rule,
    UpvalueRef, MAX_ARITY, MAX_CONSTANTS, MAX_JUMP, MAX_LOCALS, MAX_UPVALUES,
};
use crate::obj::{fnv1a, FunctionView, ObjView};
use crate::scanner::{line_no, skip_trivia, token_at, Token, TokenKind};
use crate::table::Key;
use crate::value::Value;

verus! {

/// A local variable as a plain value.
pub struct LocalView {
    pub name: Seq<u8>,
    pub depth: Option<usize>,
    pub is_captured: bool,
}

/// The state of compiling one function as a plain value.
pub struct CompilerView {
    pub function: FunctionView,
    pub kind: FunctionType,
    pub locals: Seq<LocalView>,
    pub upvalues: Seq<UpvalueRef>,
    pub scope_depth: usize,
}

/// What the parser holds, as a plain value: the source and the scanner's
/// place in it, the two tokens of context, the complaints, the compilers, the
/// interner with its number of slots and entries, the heap, and the values of
/// the number literals.
pub struct State {
    pub src: Seq<u8>,
    pub pos: usize,
    pub seen: usize,
    pub current: Token,
    pub previous: Token,
    pub had_error: bool,
    pub panic_mode: bool,
    pub diagnostics: Seq<Diagnostic>,
    pub compilers: Seq<CompilerView>,
    pub strings: Map<Key, Value>,
    pub capacity: nat,
    pub size: nat,
    pub heap: Seq<ObjView>,
    pub numbers: Seq<u64>,
}

/// The bytes of the string at position `i` of the heap, if a string lies
/// there.
pub open spec fn text_in(heap: Seq<ObjView>, i: int) -> Option<Seq<u8>> {
    if 0 <= i < heap.len() && heap[i] is String {
        Some(heap[i]->String_0)
    } else {
        None
    }
}

/// Whether the interner knows a string with these bytes.
pub open spec fn knows(strings: Map<Key, Value>, heap: Seq<ObjView>, bytes: Seq<u8>) -> bool {
    exists|k: Key| #[trigger] strings.contains_key(k) && text_in(heap, k.index as int) == Some(bytes)
}

/// The key of the interned string with these bytes.
pub open spec fn key_for(strings: Map<Key, Value>, heap: Seq<ObjView>, bytes: Seq<u8>) -> Key {
    choose|k: Key| #[trigger] strings.contains_key(k) && text_in(heap, k.index as int) == Some(bytes)
}

/// The number of slots of a table without tombstones after one more entry.
pub open spec fn grown(size: nat, capacity: nat) -> nat {
    if (size + 1) * 4 > capacity * 3 {
        if capacity < 8 {
            8
        } else {
            capacity * 2
        }
    } else {
        capacity
    }
}

/// A compiler that has not compiled anything yet.
pub open spec fn fresh(kind: FunctionType, name: Option<usize>) -> CompilerView {
    CompilerView {
        function: FunctionView {
            arity: 0,
            upvalue_count: 0,
            chunk: ChunkView { code: Seq::empty(), constants: Seq::empty(), lines: Seq::empty() },
            name,
        },
        kind,
        locals: seq![LocalView { name: Seq::empty(), depth: Some(0usize), is_captured: false }],
        upvalues: Seq::empty(),
        scope_depth: 0,
    }
}

impl State {
    /// The compiler of the innermost function.
    pub open spec fn compiler(self) -> CompilerView {
        self.compilers.last()
    }

    /// The code of the innermost function.
    pub open spec fn code(self) -> Seq<u8> {
        self.compiler().function.chunk.code
    }

    /// The state with another compiler of the innermost function.
    pub open spec fn with_compiler(self, c: CompilerView) -> State {
        State { compilers: self.compilers.update(self.compilers.len() - 1, c), ..self }
    }

    /// The state with another chunk of the innermost function.
    pub open spec fn with_chunk(self, chunk: ChunkView) -> State {
        self.with_compiler(
            CompilerView { function: FunctionView { chunk, ..self.compiler().function }, ..self.compiler() },
        )
    }

    /// The bytes of the source that the parser has not passed.
    pub open spec fn remaining(self) -> nat {
        if self.src.len() >= self.current.start {
            (self.src.len() - self.current.start) as nat
        } else {
            0
        }
    }

    /// The text of a token.
    pub open spec fn lexeme(self, t: Token) -> Seq<u8> {
        self.src.subrange(t.start as int, t.start + t.length)
    }

    /// Whether the next token is of the given kind.
    pub open spec fn check(self, kind: TokenKind) -> bool {
        self.current.kind == kind
    }
}

/// Whether the parser has not gone back from `s` to `next`.
pub open spec fn within(next: State, s: State) -> bool {
    next.remaining() <= s.remaining()
}

/// Whether the parser has gone on from `s` to `next`.
pub open spec fn beyond(next: State, s: State) -> bool {
    next.remaining() < s.remaining()
}

// ---- complaints ----

/// Where a complaint about the token points.
pub open spec fn place_of(t: Token) -> Place {
    match t.kind {
        TokenKind::Eof => Place::End,
        TokenKind::Error(_) => Place::Unplaced,
        _ => Place::At(t.start, t.length),
    }
}

/// A complaint at the token; none while the parser recovers from another.
pub open spec fn noted(s: State, t: Token, message: Message) -> State {
    if s.panic_mode {
        s
    } else {
        State {
            panic_mode: true,
            had_error: true,
            diagnostics: s.diagnostics.push(Diagnostic { line: t.line, place: place_of(t), message }),
            ..s
        }
    }
}

/// A complaint at the token; none while the parser recovers from another.
#[verifier::opaque]
pub open spec fn complain_at(s: State, t: Token, message: Message) -> State {
    noted(s, t, message)
}

/// A complaint at the token just passed.
#[verifier::opaque]
pub open spec fn complain(s: State, message: Message) -> State {
    complain_at(s, s.previous, message)
}

/// A complaint at the token that comes next.
#[verifier::opaque]
pub open spec fn complain_next(s: State, message: Message) -> State {
    complain_at(s, s.current, message)
}

// ---- tokens ----

/// The token that the scanner cuts at `pos`.
#[verifier::opaque]
pub open spec fn scan(src: Seq<u8>, pos: usize, seen: usize) -> Token {
    let start = skip_trivia(src, pos as int, false);
    let end = token_at(src, start).1;
    Token {
        kind: token_at(src, start).0,
        start: start as usize,
        length: (end - start) as usize,
        line: line_no(src, end),
        ordinal: seen,
    }
}

/// Reads tokens until one is no error, complaining about the first that is.
#[verifier::opaque]
pub open spec fn read(s: State) -> State
    decreases s.src.len() - s.pos,
{
    let t = scan(s.src, s.pos, s.seen);
    let after = State {
        pos: (t.start + t.length) as usize,
        seen: (if t.kind == TokenKind::Number { s.seen + 1 } else { s.seen as int }) as usize,
        current: t,
        ..s
    };
    match t.kind {
        TokenKind::Error(fault) => if s.pos < after.pos <= s.src.len() {
            read(noted(after, t, message_of(fault)))
        } else {
            after
        },
        _ => after,
    }
}

/// Moves to the next token.
#[verifier::opaque]
pub open spec fn advance(s: State) -> State {
    read(State { previous: s.current, ..s })
}

/// Passes the next token if it is of the given kind.
#[verifier::opaque]
pub open spec fn accept(s: State, kind: TokenKind) -> State {
    if s.check(kind) {
        advance(s)
    } else {
        s
    }
}

/// Passes the next token if it is of the given kind, and complains otherwise.
#[verifier::opaque]
pub open spec fn expect(s: State, kind: TokenKind, message: Message) -> State {
    if s.check(kind) {
        advance(s)
    } else {
        complain_next(s, message)
    }
}

// ---- code ----

/// Appends a byte to the code, with the line of the token just passed.
#[verifier::opaque]
pub open spec fn write_byte(s: State, byte: u8) -> State {
    let chunk = s.compiler().function.chunk;
    s.with_chunk(ChunkView { code: chunk.code.push(byte), lines: chunk.lines.push(s.previous.line), ..chunk })
}

/// Appends an instruction without operand.
#[verifier::opaque]
pub open spec fn write_op(s: State, op: OpCode) -> State {
    write_byte(s, byte_of(op))
}

/// Appends an instruction with its operand.
#[verifier::opaque]
pub open spec fn write_pair(s: State, op: OpCode, operand: u8) -> State {
    write_byte(write_byte(s, byte_of(op)), operand)
}

/// Appends a jump back to `loop_start`; complains if that is too far.
#[verifier::opaque]
pub open spec fn write_loop(s: State, loop_start: usize) -> State {
    let s1 = write_op(s, OpCode::Loop);
    let length = s1.code().len();
    if loop_start >= length || length - loop_start > MAX_JUMP - 2 {
        write_byte(write_byte(complain(s1, Message::LoopTooLong), 255), 255)
    } else {
        let distance = length - loop_start + 2;
        write_byte(write_byte(s1, (distance / 256) as u8), (distance % 256) as u8)
    }
}

/// Appends a jump whose distance is written later; gives the place where.
#[verifier::opaque]
pub open spec fn write_jump(s: State, op: OpCode) -> (State, usize) {
    let s1 = write_byte(write_byte(write_op(s, op), 255), 255);
    (s1, (s1.code().len() - 2) as usize)
}

/// Appends the return of nil.
#[verifier::opaque]
pub open spec fn write_return(s: State) -> State {
    write_op(write_op(s, OpCode::Nil), OpCode::Return)
}

/// Adds a constant and gives its index; complains if the chunk is full.
#[verifier::opaque]
pub open spec fn add_constant(s: State, value: Value) -> (State, u8) {
    let chunk = s.compiler().function.chunk;
    if chunk.constants.len() >= MAX_CONSTANTS {
        (complain(s, Message::TooManyConstants), 0)
    } else {
        (s.with_chunk(ChunkView { constants: chunk.constants.push(value), ..chunk }), chunk.constants.len() as u8)
    }
}

/// Adds a constant and appends the instruction that loads it.
#[verifier::opaque]
pub open spec fn load_constant(s: State, value: Value) -> State {
    write_pair(add_constant(s, value).0, OpCode::Constant, add_constant(s, value).1)
}

/// Writes into the jump at `offset` the distance to the end of the code;
/// complains if that is too far.
#[verifier::opaque]
pub open spec fn patch(s: State, offset: usize) -> State {
    let chunk = s.compiler().function.chunk;
    let length = chunk.code.len();
    if length < 2 || offset > length - 2 {
        s
    } else if length - offset - 2 > MAX_JUMP {
        complain(s, Message::JumpTooLong)
    } else {
        let distance = length - offset - 2;
        s.with_chunk(
            ChunkView {
                code: chunk.code.update(offset as int, (distance / 256) as u8).update(
                    offset + 1,
                    (distance % 256) as u8,
                ),
                ..chunk
            },
        )
    }
}

// ---- scopes ----

/// Enters a scope.
#[verifier::opaque]
pub open spec fn enter_scope(s: State) -> State {
    s.with_compiler(CompilerView { scope_depth: (s.compiler().scope_depth + 1) as usize, ..s.compiler() })
}

/// Whether the local was declared in a scope deeper than `depth`.
pub open spec fn inside(local: LocalView, depth: usize) -> bool {
    local.depth is Some && local.depth->Some_0 > depth
}

/// Takes the locals of the scopes deeper than the current one off the stack,
/// the topmost first: a captured one is closed, any other popped. `count` is
/// the number of locals there are.
#[verifier::opaque]
pub open spec fn pop_locals(s: State, count: nat) -> State
    decreases count,
{
    let c = s.compiler();
    if count <= 1 || c.locals.len() != count || !inside(c.locals.last(), c.scope_depth) {
        s
    } else {
        let s1 = write_op(s, if c.locals.last().is_captured { OpCode::CloseUpvalue } else { OpCode::Pop });
        pop_locals(
            s1.with_compiler(CompilerView { locals: s1.compiler().locals.drop_last(), ..s1.compiler() }),
            (count - 1) as nat,
        )
    }
}

/// Leaves a scope.
#[verifier::opaque]
pub open spec fn leave_scope(s: State) -> State {
    pop_locals(
        s.with_compiler(CompilerView { scope_depth: (s.compiler().scope_depth - 1) as usize, ..s.compiler() }),
        s.compiler().locals.len(),
    )
}

// ---- names ----

/// Interns the bytes; gives the heap position of the string, or complains
/// and gives nothing if the interner cannot grow.
#[verifier::opaque]
pub open spec fn intern(s: State, bytes: Seq<u8>) -> (State, Option<usize>) {
    if s.capacity * 2 > usize::MAX {
        (complain(s, Message::TooManyStrings), None)
    } else if knows(s.strings, s.heap, bytes) {
        (s, Some(key_for(s.strings, s.heap, bytes).index))
    } else {
        let key = Key { index: s.heap.len() as usize, hash: fnv1a(bytes) };
        (
            State {
                heap: s.heap.push(ObjView::String(bytes, fnv1a(bytes))),
                strings: s.strings.insert(key, Value::Nil),
                size: s.size + 1,
                capacity: grown(s.size, s.capacity),
                ..s
            },
            Some(key.index),
        )
    }
}

/// Makes the name a constant: the interned string with its bytes.
#[verifier::opaque]
pub open spec fn name_constant(s: State, name: Seq<u8>) -> (State, u8) {
    match intern(s, name).1 {
        Some(at) => add_constant(intern(s, name).0, Value::Obj(at)),
        None => (intern(s, name).0, 0),
    }
}

/// The topmost local below place `i` that has the name.
pub open spec fn find_local(locals: Seq<LocalView>, name: Seq<u8>, i: int) -> Option<int>
    decreases i,
{
    if i <= 0 || i > locals.len() {
        None
    } else if locals[i - 1].name == name {
        Some(i - 1)
    } else {
        find_local(locals, name, i - 1)
    }
}

/// Looks the name up among the locals of the function at `level`; complains
/// if the local found is still being initialized.
#[verifier::opaque]
pub open spec fn resolve_local(s: State, level: int, name: Seq<u8>) -> (State, Option<usize>) {
    let locals = s.compilers[level].locals;
    match find_local(locals, name, locals.len() as int) {
        Some(slot) => (
            if locals[slot].depth is None {
                complain(s, Message::OwnInitializer)
            } else {
                s
            },
            Some(slot as usize),
        ),
        None => (s, None),
    }
}

/// The first capture from place `i` on that equals the wanted one.
pub open spec fn find_capture(upvalues: Seq<UpvalueRef>, wanted: UpvalueRef, i: int) -> Option<int>
    decreases upvalues.len() - i,
{
    if i < 0 || i >= upvalues.len() {
        None
    } else if upvalues[i] == wanted {
        Some(i)
    } else {
        find_capture(upvalues, wanted, i + 1)
    }
}

/// Makes the function at `level` capture the variable, unless it does
/// already; gives the index of the capture.
#[verifier::opaque]
pub open spec fn add_upvalue(s: State, level: int, index: u8, is_local: bool) -> (State, u8) {
    let c = s.compilers[level];
    let wanted = UpvalueRef { index, is_local };
    match find_capture(c.upvalues, wanted, 0) {
        Some(i) => (s, i as u8),
        None => if c.upvalues.len() >= MAX_UPVALUES {
            (complain(s, Message::TooManyUpvalues), 0)
        } else {
            (
                State {
                    compilers: s.compilers.update(
                        level,
                        CompilerView {
                            upvalues: c.upvalues.push(wanted),
                            function: FunctionView { upvalue_count: (c.upvalues.len() + 1) as usize, ..c.function },
                            ..c
                        },
                    ),
                    ..s
                },
                c.upvalues.len() as u8,
            )
        },
    }
}

/// Looks the name up among the variables of the functions around the one at
/// `level`; every function on the way captures it.
#[verifier::opaque]
pub open spec fn resolve_upvalue(s: State, level: int, name: Seq<u8>) -> (State, Option<u8>)
    decreases level,
{
    if level <= 0 {
        (s, None)
    } else {
        let found = resolve_local(s, level - 1, name);
        match found.1 {
            Some(slot) => {
                let outer = found.0.compilers[level - 1];
                let marked = State {
                    compilers: found.0.compilers.update(
                        level - 1,
                        CompilerView {
                            locals: outer.locals.update(
                                slot as int,
                                LocalView { is_captured: true, ..outer.locals[slot as int] },
                            ),
                            ..outer
                        },
                    ),
                    ..found.0
                };
                (add_upvalue(marked, level, slot as u8, true).0, Some(add_upvalue(marked, level, slot as u8, true).1))
            },
            None => {
                let up = resolve_upvalue(found.0, level - 1, name);
                match up.1 {
                    Some(index) => (
                        add_upvalue(up.0, level, index, false).0,
                        Some(add_upvalue(up.0, level, index, false).1),
                    ),
                    None => (up.0, None),
                }
            },
        }
    }
}

/// Adds a local that is not initialized yet; complains if there are too many.
#[verifier::opaque]
pub open spec fn add_local(s: State, name: Seq<u8>) -> State {
    let c = s.compiler();
    if c.locals.len() >= MAX_LOCALS {
        complain(s, Message::TooManyLocals)
    } else {
        s.with_compiler(
            CompilerView { locals: c.locals.push(LocalView { name, depth: None, is_captured: false }), ..c },
        )
    }
}

/// Whether the local belongs to a scope around the one of depth `depth`.
pub open spec fn outside(local: LocalView, depth: usize) -> bool {
    local.depth is Some && local.depth->Some_0 < depth
}

/// Whether the innermost scope, of depth `depth`, has a local of the name
/// below place `i`: one that no local of an outer scope lies above.
pub open spec fn clashes(locals: Seq<LocalView>, depth: usize, name: Seq<u8>, i: int) -> bool
    decreases i,
{
    if i <= 0 || i > locals.len() || outside(locals[i - 1], depth) {
        false
    } else if locals[i - 1].name == name {
        true
    } else {
        clashes(locals, depth, name, i - 1)
    }
}

/// Declares the variable that the token just passed names.
#[verifier::opaque]
pub open spec fn declare_variable(s: State) -> State {
    let c = s.compiler();
    if c.scope_depth == 0 {
        s
    } else {
        let name = s.lexeme(s.previous);
        add_local(
            if clashes(c.locals, c.scope_depth, name, c.locals.len() as int) {
                complain(s, Message::AlreadyDeclared)
            } else {
                s
            },
            name,
        )
    }
}

/// Passes a variable's name and declares it; gives the constant that holds
/// the name of a global, and 0 for a local.
#[verifier::opaque]
pub open spec fn parse_variable(s: State, message: Message) -> (State, u8) {
    let s1 = declare_variable(expect(s, TokenKind::Identifier, message));
    if s1.compiler().scope_depth > 0 {
        (s1, 0)
    } else {
        name_constant(s1, s1.lexeme(s1.previous))
    }
}

/// Marks the newest local as initialized.
#[verifier::opaque]
pub open spec fn mark_initialized(s: State) -> State {
    let c = s.compiler();
    if c.scope_depth == 0 {
        s
    } else {
        s.with_compiler(
            CompilerView {
                locals: c.locals.update(
                    c.locals.len() - 1,
                    LocalView { depth: Some(c.scope_depth), ..c.locals.last() },
                ),
                ..c
            },
        )
    }
}

/// Ends a variable's declaration.
#[verifier::opaque]
pub open spec fn define_variable(s: State, global: u8) -> State {
    if s.compiler().scope_depth > 0 {
        mark_initialized(s)
    } else {
        write_pair(s, OpCode::DefineGlobal, global)
    }
}

// ---- expressions ----

/// `false`, `nil` or `true`.
#[verifier::opaque]
pub open spec fn literal(s: State) -> State {
    match s.previous.kind {
        TokenKind::False => write_op(s, OpCode::False),
        TokenKind::Nil => write_op(s, OpCode::Nil),
        TokenKind::True => write_op(s, OpCode::True),
        _ => s,
    }
}

/// A number literal: the constant is the value given for the token's place
/// among the number tokens.
#[verifier::opaque]
pub open spec fn number(s: State) -> State {
    if s.previous.ordinal < s.numbers.len() {
        load_constant(s, Value::Number(s.numbers[s.previous.ordinal as int]))
    } else {
        complain(s, Message::NumberWithoutValue)
    }
}

/// A string literal: the constant is the interned text between the quotes.
#[verifier::opaque]
pub open spec fn string(s: State) -> State {
    if s.previous.kind != TokenKind::String {
        s
    } else {
        let text = s.src.subrange(s.previous.start + 1, s.previous.start + s.previous.length - 1);
        match intern(s, text).1 {
            Some(at) => load_constant(intern(s, text).0, Value::Obj(at)),
            None => intern(s, text).0,
        }
    }
}

/// The instructions of a binary operator.
#[verifier::opaque]
pub open spec fn binary_code(s: State, kind: TokenKind) -> State {
    match kind {
        TokenKind::BangEqual => write_op(write_op(s, OpCode::Equal), OpCode::Not),
        TokenKind::EqualEqual => write_op(s, OpCode::Equal),
        TokenKind::Greater => write_op(s, OpCode::Greater),
        TokenKind::GreaterEqual => write_op(write_op(s, OpCode::Less), OpCode::Not),
        TokenKind::Less => write_op(s, OpCode::Less),
        TokenKind::LessEqual => write_op(write_op(s, OpCode::Greater), OpCode::Not),
        TokenKind::Plus => write_op(s, OpCode::Add),
        TokenKind::Minus => write_op(s, OpCode::Subtract),
        TokenKind::Star => write_op(s, OpCode::Multiply),
        TokenKind::Slash => write_op(s, OpCode::Divide),
        _ => s,
    }
}

/// The instruction of a unary operator.
#[verifier::opaque]
pub open spec fn unary_code(s: State, kind: TokenKind) -> State {
    match kind {
        TokenKind::Bang => write_op(s, OpCode::Not),
        TokenKind::Minus => write_op(s, OpCode::Negate),
        _ => s,
    }
}

/// An expression whose operators bind at least as tightly as `p`: a prefix
/// expression, then every infix operator that binds tightly enough with its
/// right side. An equals sign left over where an assignment was allowed has
/// no target.
#[verifier::opaque]
pub open spec fn precedence(s: State, p: Precedence) -> State
    decreases s.remaining(), 2nat,
{
    let s1 = advance(s);
    let can_assign = rank(p) <= rank(Precedence::Assignment);
    match rule_of(s1.previous.kind).prefix {
        None => complain(s1, Message::ExpectExpression),
        Some(rule) => {
            let s2 = if beyond(s1, s) {
                apply(s1, rule, can_assign)
            } else {
                s1
            };
            let s3 = if within(s2, s) {
                infixes(s2, p, can_assign)
            } else {
                s2
            };
            if can_assign && s3.check(TokenKind::Equal) {
                complain(advance(s3), Message::InvalidAssignmentTarget)
            } else {
                s3
            }
        },
    }
}

/// The infix operators that bind at least as tightly as `p`, each with its
/// right side.
#[verifier::opaque]
pub open spec fn infixes(s: State, p: Precedence, can_assign: bool) -> State
    decreases s.remaining(), 1nat,
{
    if rank(p) > rank(rule_of(s.current.kind).precedence) {
        s
    } else {
        let s1 = advance(s);
        let s2 = match rule_of(s1.previous.kind).infix {
            Some(rule) => if beyond(s1, s) {
                apply(s1, rule, can_assign)
            } else {
                s1
            },
            None => s1,
        };
        if beyond(s2, s) {
            infixes(s2, p, can_assign)
        } else {
            s2
        }
    }
}

/// The parsing routine that a rule names.
#[verifier::opaque]
pub open spec fn apply(s: State, rule: Rule, can_assign: bool) -> State
    decreases s.remaining(), 12nat,
{
    match rule {
        Rule::Grouping => grouping(s),
        Rule::Call => call(s),
        Rule::Unary => unary(s),
        Rule::Binary => binary(s),
        Rule::Variable => variable(s, can_assign),
        Rule::String => string(s),
        Rule::Number => number(s),
        Rule::Literal => literal(s),
        Rule::And => and_(s),
        Rule::Or => or_(s),
    }
}

/// An expression in parentheses.
#[verifier::opaque]
pub open spec fn grouping(s: State) -> State
    decreases s.remaining(), 11nat,
{
    expect(expression(s), TokenKind::RightParen, Message::ExpectParenAfterExpression)
}

/// The operand of a unary operator, then the operator.
#[verifier::opaque]
pub open spec fn unary(s: State) -> State
    decreases s.remaining(), 11nat,
{
    unary_code(precedence(s, Precedence::Unary), s.previous.kind)
}

/// The right operand of a binary operator, then the operator.
#[verifier::opaque]
pub open spec fn binary(s: State) -> State
    decreases s.remaining(), 11nat,
{
    binary_code(precedence(s, tighter(rule_of(s.previous.kind).precedence)), s.previous.kind)
}

/// A call: the arguments, then the instruction with their number.
#[verifier::opaque]
pub open spec fn call(s: State) -> State
    decreases s.remaining(), 11nat,
{
    write_pair(arguments(s).0, OpCode::Call, arguments(s).1)
}

/// The arguments of a call up to the closing parenthesis, and their number.
#[verifier::opaque]
pub open spec fn arguments(s: State) -> (State, u8)
    decreases s.remaining(), 10nat,
{
    if s.check(TokenKind::RightParen) {
        (expect(s, TokenKind::RightParen, Message::ExpectParenAfterArguments), 0)
    } else {
        (
            expect(argument_loop(s, 0).0, TokenKind::RightParen, Message::ExpectParenAfterArguments),
            argument_loop(s, 0).1,
        )
    }
}

/// The arguments from one of them on; `count` is the number of those before.
#[verifier::opaque]
pub open spec fn argument_loop(s: State, count: u8) -> (State, u8)
    decreases s.remaining(), 9nat,
{
    let s1 = expression(s);
    let s2 = if count == 255 {
        complain(s1, Message::TooManyArguments)
    } else {
        s1
    };
    let counted = if count == 255 {
        count
    } else {
        (count + 1) as u8
    };
    if s2.check(TokenKind::Comma) {
        let s3 = advance(s2);
        if beyond(s3, s) {
            argument_loop(s3, counted)
        } else {
            (s3, counted)
        }
    } else {
        (s2, counted)
    }
}

/// How a variable is reached: the instructions that read and write it, and
/// their operand.
pub struct Access {
    pub get: OpCode,
    pub set: OpCode,
    pub operand: u8,
}

/// Resolves a name: a local of the function, a variable of a function around
/// it, or else a global.
#[verifier::opaque]
pub open spec fn resolve(s: State, name: Seq<u8>) -> (State, Access) {
    let level = s.compilers.len() - 1;
    let local = resolve_local(s, level, name);
    match local.1 {
        Some(slot) => (local.0, Access { get: OpCode::GetLocal, set: OpCode::SetLocal, operand: slot as u8 }),
        None => {
            let up = resolve_upvalue(local.0, level, name);
            match up.1 {
                Some(index) => (up.0, Access { get: OpCode::GetUpvalue, set: OpCode::SetUpvalue, operand: index }),
                None => (
                    name_constant(up.0, name).0,
                    Access { get: OpCode::GetGlobal, set: OpCode::SetGlobal, operand: name_constant(up.0, name).1 },
                ),
            }
        },
    }
}

/// A use of the variable of the given name: a write where an assignment is
/// allowed and an equals sign follows, else a read.
#[verifier::opaque]
pub open spec fn named(s: State, name: Seq<u8>, can_assign: bool) -> State
    decreases s.remaining(), 10nat,
{
    let s1 = resolve(s, name).0;
    let access = resolve(s, name).1;
    if can_assign && s1.check(TokenKind::Equal) {
        let s2 = advance(s1);
        write_pair(if within(s2, s) { expression(s2) } else { s2 }, access.set, access.operand)
    } else {
        write_pair(s1, access.get, access.operand)
    }
}

/// A use of the variable that the token just passed names.
#[verifier::opaque]
pub open spec fn variable(s: State, can_assign: bool) -> State
    decreases s.remaining(), 11nat,
{
    named(s, s.lexeme(s.previous), can_assign)
}

/// The right side of `and`: skipped when the left side is falsey.
#[verifier::opaque]
pub open spec fn and_(s: State) -> State
    decreases s.remaining(), 11nat,
{
    let jump = write_jump(s, OpCode::JumpIfFalse);
    let s1 = write_op(jump.0, OpCode::Pop);
    patch(if within(s1, s) { precedence(s1, Precedence::And) } else { s1 }, jump.1)
}

/// The right side of `or`: skipped when the left side is truthy.
#[verifier::opaque]
pub open spec fn or_(s: State) -> State
    decreases s.remaining(), 11nat,
{
    let else_jump = write_jump(s, OpCode::JumpIfFalse);
    let end_jump = write_jump(else_jump.0, OpCode::Jump);
    let s1 = write_op(patch(end_jump.0, else_jump.1), OpCode::Pop);
    patch(if within(s1, s) { precedence(s1, Precedence::Or) } else { s1 }, end_jump.1)
}

/// An expression.
#[verifier::opaque]
pub open spec fn expression(s: State) -> State
    decreases s.remaining(), 3nat,
{
    precedence(s, Precedence::Assignment)
}

// ---- statements ----

/// The declarations of a block up to its closing brace.
#[verifier::opaque]
pub open spec fn block_loop(s: State) -> State
    decreases s.remaining(), 7nat,
{
    if s.check(TokenKind::RightBrace) || s.check(TokenKind::Eof) {
        s
    } else {
        let s1 = declaration(s);
        if beyond(s1, s) {
            block_loop(s1)
        } else {
            s1
        }
    }
}

/// A block: its declarations and the closing brace.
#[verifier::opaque]
pub open spec fn block(s: State) -> State
    decreases s.remaining(), 8nat,
{
    expect(block_loop(s), TokenKind::RightBrace, Message::ExpectBraceAfterBlock)
}

/// The parameters of a function from one of them on: each is a local of the
/// function and counts towards its arity.
#[verifier::opaque]
pub open spec fn parameters(s: State) -> State
    decreases s.remaining(),
{
    let c = s.compiler();
    let s1 = if c.function.arity >= MAX_ARITY {
        complain_next(s, Message::TooManyParameters)
    } else {
        s.with_compiler(
            CompilerView { function: FunctionView { arity: (c.function.arity + 1) as usize, ..c.function }, ..c },
        )
    };
    let declared = parse_variable(s1, Message::ExpectParameterName);
    let s2 = define_variable(declared.0, declared.1);
    if s2.check(TokenKind::Comma) {
        let s3 = advance(s2);
        if beyond(s3, s) {
            parameters(s3)
        } else {
            s3
        }
    } else {
        s2
    }
}

/// The pairs of bytes that tell the machine what a closure captures, from
/// capture `i` on.
#[verifier::opaque]
pub open spec fn write_captures(s: State, upvalues: Seq<UpvalueRef>, i: int) -> State
    decreases upvalues.len() - i,
{
    if i < 0 || i >= upvalues.len() {
        s
    } else {
        write_captures(
            write_byte(write_byte(s, if upvalues[i].is_local { 1u8 } else { 0u8 }), upvalues[i].index),
            upvalues,
            i + 1,
        )
    }
}

/// A function: its parameters and body are compiled by a compiler of its
/// own; the function goes on the heap, and the enclosing function gets the
/// instruction that makes the closure.
#[verifier::opaque]
pub open spec fn function(s: State) -> State
    decreases s.remaining(), 9nat,
{
    let named = intern(s, s.lexeme(s.previous));
    let s1 = State { compilers: named.0.compilers.push(fresh(FunctionType::Function, named.1)), ..named.0 };
    let s2 = expect(enter_scope(s1), TokenKind::LeftParen, Message::ExpectParenAfterName);
    let s3 = if s2.check(TokenKind::RightParen) {
        s2
    } else {
        parameters(s2)
    };
    let s4 = expect(
        expect(s3, TokenKind::RightParen, Message::ExpectParenAfterParameters),
        TokenKind::LeftBrace,
        Message::ExpectBraceBeforeBody,
    );
    let s5 = write_return(if within(s4, s) { block(s4) } else { s4 });
    let finished = s5.compiler();
    let s6 = State {
        compilers: s5.compilers.drop_last(),
        heap: s5.heap.push(ObjView::Function(finished.function)),
        ..s5
    };
    let made = add_constant(s6, Value::Obj(s5.heap.len() as usize));
    write_captures(write_pair(made.0, OpCode::Closure, made.1), finished.upvalues, 0)
}

/// A function declaration.
#[verifier::opaque]
pub open spec fn fun_declaration(s: State) -> State
    decreases s.remaining(), 10nat,
{
    let declared = parse_variable(s, Message::ExpectFunctionName);
    let s1 = mark_initialized(declared.0);
    define_variable(if within(s1, s) { function(s1) } else { s1 }, declared.1)
}

/// A variable declaration.
#[verifier::opaque]
pub open spec fn var_declaration(s: State) -> State
    decreases s.remaining(), 8nat,
{
    let declared = parse_variable(s, Message::ExpectVariableName);
    let s1 = declared.0;
    let s2 = if s1.check(TokenKind::Equal) {
        let s3 = advance(s1);
        if within(s3, s) {
            expression(s3)
        } else {
            s3
        }
    } else {
        write_op(s1, OpCode::Nil)
    };
    define_variable(expect(s2, TokenKind::Semicolon, Message::ExpectSemicolonAfterDeclaration), declared.1)
}

/// An expression whose value is thrown away.
#[verifier::opaque]
pub open spec fn expression_statement(s: State) -> State
    decreases s.remaining(), 4nat,
{
    write_op(expect(expression(s), TokenKind::Semicolon, Message::ExpectSemicolonAfterExpression), OpCode::Pop)
}

/// The first clause of a `for` loop.
#[verifier::opaque]
pub open spec fn for_initializer(s: State) -> State
    decreases s.remaining(), 7nat,
{
    let s1 = expect(s, TokenKind::LeftParen, Message::ExpectParenAfterFor);
    if s1.check(TokenKind::Semicolon) {
        advance(s1)
    } else if s1.check(TokenKind::Var) {
        let s2 = advance(s1);
        if beyond(s2, s) {
            var_declaration(s2)
        } else {
            s2
        }
    } else if within(s1, s) {
        expression_statement(s1)
    } else {
        s1
    }
}

/// The second clause of a `for` loop, and the jump that leaves the loop.
#[verifier::opaque]
pub open spec fn for_condition(s: State) -> (State, Option<usize>)
    decreases s.remaining(), 7nat,
{
    if s.check(TokenKind::Semicolon) {
        (advance(s), None)
    } else {
        let jump = write_jump(
            expect(expression(s), TokenKind::Semicolon, Message::ExpectSemicolonAfterCondition),
            OpCode::JumpIfFalse,
        );
        (write_op(jump.0, OpCode::Pop), Some(jump.1))
    }
}

/// The third clause of a `for` loop, and where the body jumps back to.
#[verifier::opaque]
pub open spec fn for_increment(s: State, loop_start: usize) -> (State, usize)
    decreases s.remaining(), 7nat,
{
    if s.check(TokenKind::RightParen) {
        (advance(s), loop_start)
    } else {
        let jump = write_jump(s, OpCode::Jump);
        let s1 = jump.0;
        let s2 = expect(
            write_op(if within(s1, s) { expression(s1) } else { s1 }, OpCode::Pop),
            TokenKind::RightParen,
            Message::ExpectParenAfterClauses,
        );
        (patch(write_loop(s2, loop_start), jump.1), s1.code().len() as usize)
    }
}

/// The end of a `for` loop: the jump back, the way out of the loop, and the
/// end of the loop's scope.
#[verifier::opaque]
pub open spec fn for_end(s: State, back: usize, exit: Option<usize>) -> State {
    let s1 = write_loop(s, back);
    leave_scope(
        match exit {
            Some(offset) => write_op(patch(s1, offset), OpCode::Pop),
            None => s1,
        },
    )
}

/// A `for` loop.
#[verifier::opaque]
pub open spec fn for_statement(s: State) -> State
    decreases s.remaining(), 8nat,
{
    let s0 = enter_scope(s);
    if !within(s0, s) {
        s0
    } else {
        let s1 = for_initializer(s0);
        if !within(s1, s) {
            s1
        } else {
            let condition = for_condition(s1);
            if !within(condition.0, s) {
                condition.0
            } else {
                let increment = for_increment(condition.0, s1.code().len() as usize);
                if !within(increment.0, s) {
                    increment.0
                } else {
                    for_end(statement(increment.0), increment.1, condition.1)
                }
            }
        }
    }
}

/// The jump over the first branch of an `if`, and the pop of the condition
/// before that branch.
#[verifier::opaque]
pub open spec fn if_then(s: State) -> (State, usize) {
    let jump = write_jump(expect(s, TokenKind::RightParen, Message::ExpectParenAfterCondition), OpCode::JumpIfFalse);
    (write_op(jump.0, OpCode::Pop), jump.1)
}

/// The jump over the second branch of an `if`, and the pop of the condition
/// before that branch, where the jump over the first one lands.
#[verifier::opaque]
pub open spec fn if_else(s: State, then_jump: usize) -> (State, usize) {
    let jump = write_jump(s, OpCode::Jump);
    (write_op(patch(jump.0, then_jump), OpCode::Pop), jump.1)
}

/// An `if` with its optional `else`.
#[verifier::opaque]
pub open spec fn if_statement(s: State) -> State
    decreases s.remaining(), 8nat,
{
    let s1 = expect(s, TokenKind::LeftParen, Message::ExpectParenAfterIf);
    if !within(s1, s) {
        s1
    } else {
        let first = if_then(expression(s1));
        if !within(first.0, s) {
            first.0
        } else {
            let second = if_else(statement(first.0), first.1);
            if !second.0.check(TokenKind::Else) {
                patch(second.0, second.1)
            } else {
                let s2 = advance(second.0);
                if !within(s2, s) {
                    s2
                } else {
                    patch(statement(s2), second.1)
                }
            }
        }
    }
}

/// A `print`.
#[verifier::opaque]
pub open spec fn print_statement(s: State) -> State
    decreases s.remaining(), 8nat,
{
    write_op(expect(expression(s), TokenKind::Semicolon, Message::ExpectSemicolonAfterValue), OpCode::Print)
}

/// A `return`.
#[verifier::opaque]
pub open spec fn return_statement(s: State) -> State
    decreases s.remaining(), 8nat,
{
    let s1 = if s.compiler().kind == FunctionType::Script {
        complain(s, Message::ReturnFromScript)
    } else {
        s
    };
    if s1.check(TokenKind::Semicolon) {
        write_return(advance(s1))
    } else {
        write_op(
            expect(
                if within(s1, s) { expression(s1) } else { s1 },
                TokenKind::Semicolon,
                Message::ExpectSemicolonAfterReturn,
            ),
            OpCode::Return,
        )
    }
}

/// A `while` loop.
#[verifier::opaque]
pub open spec fn while_statement(s: State) -> State
    decreases s.remaining(), 8nat,
{
    let s1 = expect(s, TokenKind::LeftParen, Message::ExpectParenAfterWhile);
    let s2 = expect(
        if within(s1, s) { expression(s1) } else { s1 },
        TokenKind::RightParen,
        Message::ExpectParenAfterCondition,
    );
    let exit_jump = write_jump(s2, OpCode::JumpIfFalse);
    let s3 = write_op(exit_jump.0, OpCode::Pop);
    let s4 = write_loop(if within(s3, s) { statement(s3) } else { s3 }, s.code().len() as usize);
    write_op(patch(s4, exit_jump.1), OpCode::Pop)
}

/// The tokens skipped to recover from an error: up to the end of a statement
/// or the start of one.
#[verifier::opaque]
pub open spec fn sync_loop(s: State) -> State
    decreases s.remaining(),
{
    if s.check(TokenKind::Eof) || s.previous.kind == TokenKind::Semicolon || starts_statement(s.current.kind) {
        s
    } else {
        let s1 = State { panic_mode: false, ..advance(s) };
        if beyond(s1, s) {
            sync_loop(s1)
        } else {
            s1
        }
    }
}

/// The recovery from an error.
#[verifier::opaque]
pub open spec fn synchronize(s: State) -> State {
    sync_loop(State { panic_mode: false, ..s })
}

/// A statement.
#[verifier::opaque]
pub open spec fn statement(s: State) -> State
    decreases s.remaining(), 5nat,
{
    let s1 = advance(s);
    if s.check(TokenKind::Print) {
        if beyond(s1, s) { print_statement(s1) } else { s1 }
    } else if s.check(TokenKind::For) {
        if beyond(s1, s) { for_statement(s1) } else { s1 }
    } else if s.check(TokenKind::If) {
        if beyond(s1, s) { if_statement(s1) } else { s1 }
    } else if s.check(TokenKind::Return) {
        if beyond(s1, s) { return_statement(s1) } else { s1 }
    } else if s.check(TokenKind::While) {
        if beyond(s1, s) { while_statement(s1) } else { s1 }
    } else if s.check(TokenKind::LeftBrace) {
        let s2 = enter_scope(s1);
        leave_scope(if beyond(s2, s) { block(s2) } else { s2 })
    } else {
        expression_statement(s)
    }
}

/// A declaration or a statement, and the recovery if it was wrong.
#[verifier::opaque]
pub open spec fn declaration(s: State) -> State
    decreases s.remaining(), 6nat,
{
    let s1 = advance(s);
    let s2 = if s.check(TokenKind::Fun) {
        if beyond(s1, s) { fun_declaration(s1) } else { s1 }
    } else if s.check(TokenKind::Var) {
        if beyond(s1, s) { var_declaration(s1) } else { s1 }
    } else {
        statement(s)
    };
    if s2.panic_mode {
        synchronize(s2)
    } else {
        s2
    }
}

/// The declarations of a program up to the end of the source.
#[verifier::opaque]
pub open spec fn declarations(s: State) -> State
    decreases s.remaining(), 13nat,
{
    if s.check(TokenKind::Eof) {
        advance(s)
    } else {
        let s1 = declaration(s);
        if beyond(s1, s) {
            declarations(s1)
        } else {
            s1
        }
    }
}

/// A program: its declarations, and the return that ends the script.
#[verifier::opaque]
pub open spec fn program(s: State) -> State {
    write_return(declarations(s))
}

/// The state in which a compilation starts: the first token is read, and
/// the script's compiler has compiled nothing.
pub open spec fn start_with(
    src: Seq<u8>,
    numbers: Seq<u64>,
    strings: Map<Key, Value>,
    capacity: nat,
    size: nat,
    heap: Seq<ObjView>,
) -> State {
    let blank = Token { kind: TokenKind::Eof, start: 0, length: 0, line: 1, ordinal: 0 };
    read(
        State {
            src,
            pos: 0,
            seen: 0,
            current: blank,
            previous: blank,
            had_error: false,
            panic_mode: false,
            diagnostics: Seq::empty(),
            compilers: seq![fresh(FunctionType::Script, None)],
            strings,
            capacity,
            size,
            heap,
            numbers,
        },
    )
}

/// The state in which the compilation of a source starts with an empty heap
/// and an empty interner.
pub open spec fn start(src: Seq<u8>, numbers: Seq<u64>) -> State {
    start_with(src, numbers, Map::empty(), 0, 0, Seq::empty())
}

/// What compiling a source gives.
pub open spec fn compiled(src: Seq<u8>, numbers: Seq<u64>) -> State {
    program(start(src, numbers))
}

} // verus!
