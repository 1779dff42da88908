//! The grammar of statements and declarations: the parser's routines for
//! them, each of which does what the compilation scheme says.

use vstd::prelude::*;
use crate::chunk::OpCode;
use crate::compile::{
    rank, rule_for, starts_statement, Compiler, FunctionType, Message, ParseRule, Parser, Precedence, Rule,
    UpvalueRef, MAX_ARITY, MAX_CONSTANTS,
};
use crate::compile::{lemma_plain_update, plain_compilers};
use crate::obj::{
    copy_bytes, extends, heap_ok, interned, lemma_heap_ok_extends, lemma_interned_extends, plain, Function, Obj,
    ObjList,
};
use crate::scanner::{number_spans, Token, TokenKind};
use crate::scheme;
use crate::scheme::State;
use crate::table::Table;
use crate::value::Value;

verus! {

impl Parser {
    /// Compiles the declarations of a block up to its closing brace.
    pub(crate) fn block(&mut self)
        requires
            old(self).wf(),
        ensures
            final(self).wf(),
            final(self)@ == scheme::block(old(self)@),
            final(self).follows(old(self)),
        decreases old(self).remaining(), 8nat,
    {
        proof {
            reveal_with_fuel(scheme::block, 1);
            reveal_with_fuel(scheme::block_loop, 1);
        }
        loop
            invariant_except_break
                scheme::block_loop(self@) == scheme::block_loop(old(self)@),
            invariant
                self.wf(),
                self.follows(old(self)),
            ensures
                self@ == scheme::block_loop(old(self)@),
            decreases self.remaining(),
        {
            proof {
                    reveal_with_fuel(scheme::block_loop, 2);
                reveal_with_fuel(scheme::declaration, 1);
            }
            if self.check(TokenKind::RightBrace) || self.check(TokenKind::Eof) {
                break;
            }
            self.declaration();
        }
        self.consume(TokenKind::RightBrace, Message::ExpectBraceAfterBlock);
    }

    /// Compiles the parameters of a function: each is a local of the function
    /// and counts towards its arity.
    pub(crate) fn parameters(&mut self)
        requires
            old(self).wf(),
        ensures
            final(self).wf(),
            final(self)@ == scheme::parameters(old(self)@),
            final(self).follows(old(self)),
    {
        proof {
            reveal(scheme::accept);
            self.lemma_view();
        }
        loop
            invariant_except_break
                scheme::parameters(self@) == scheme::parameters(old(self)@),
            invariant
                self.wf(),
                self.follows(old(self)),
            ensures
                self@ == scheme::parameters(old(self)@),
            decreases self.remaining(),
        {
            proof {
                reveal(scheme::accept);
                reveal_with_fuel(scheme::parameters, 2);
                self.lemma_view();
            }
            let ghost before = self.compilers@;
            let top: usize = self.compilers.len() - 1;
            if self.compilers[top].function.arity >= MAX_ARITY {
                self.error_at_current(Message::TooManyParameters);
            } else {
                self.compilers[top].function.arity = self.compilers[top].function.arity + 1;
                proof {
                    lemma_plain_update(before, self.compilers@, top as int);
                    self.lemma_view();
                }
            }
            let constant: u8 = self.parse_variable(Message::ExpectParameterName);
            self.define_variable(constant);
            if !self.match_token(TokenKind::Comma) {
                break;
            }
        }
    }

    /// Writes the pairs of bytes that tell the machine what a closure
    /// captures.
    pub(crate) fn write_captures(&mut self, upvalues: &Vec<UpvalueRef>)
        requires
            old(self).wf(),
        ensures
            final(self).wf(),
            final(self)@ == scheme::write_captures(old(self)@, upvalues@, 0),
            final(self).follows(old(self)),
    {
        let mut i: usize = 0;
        while i < upvalues.len()
            invariant
                self.wf(),
                self.follows(old(self)),
                i <= upvalues@.len(),
                scheme::write_captures(self@, upvalues@, i as int) == scheme::write_captures(
                    old(self)@,
                    upvalues@,
                    0,
                ),
            decreases upvalues@.len() - i,
        {
            proof {
                    reveal_with_fuel(scheme::write_captures, 2);
            }
            let captured: UpvalueRef = upvalues[i];
            self.emit_byte(if captured.is_local { 1 } else { 0 });
            self.emit_byte(captured.index);
            i = i + 1;
        }
        proof {
                reveal_with_fuel(scheme::write_captures, 2);
        }
    }

    /// Starts the compilation of a function of the given name: from now on
    /// the code goes into the function.
    pub(crate) fn begin_function(&mut self, name: Option<usize>)
        requires
            old(self).wf(),
        ensures
            final(self).wf(),
            final(self)@ == (State {
                compilers: old(self)@.compilers.push(scheme::fresh(FunctionType::Function, name)),
                ..old(self)@
            }),
            final(self).same_position(old(self)),
            final(self).scanner.source == old(self).scanner.source,
            final(self).numbers == old(self).numbers,
            final(self).had_error == old(self).had_error,
            final(self).compilers@.len() == old(self).compilers@.len() + 1,
            final(self).top().scope_depth == 0,
            final(self).top().kind == FunctionType::Function,
            forall|i: int| 0 <= i < old(self).compilers@.len() ==> final(self).compilers@[i] == old(self).compilers@[i],
    {
        proof {
            self.lemma_view();
        }
        self.compilers.push(Compiler::new(FunctionType::Function, name));
        proof {
            reveal(plain_compilers);
            assert(plain_compilers(self.compilers@) =~= plain_compilers(old(self).compilers@).push(
                scheme::fresh(FunctionType::Function, name),
            ));
        }
    }

    /// Ends the compilation of a function: the function goes on the heap, and
    /// the code goes into the enclosing function again. Returns the heap
    /// position of the function and what it captures.
    pub(crate) fn end_function(&mut self) -> (r: (usize, Vec<UpvalueRef>))
        requires
            old(self).wf(),
            old(self).compilers@.len() >= 2,
        ensures
            final(self).wf(),
            final(self)@ == (State {
                compilers: old(self)@.compilers.drop_last(),
                heap: old(self)@.heap.push(crate::obj::ObjView::Function(old(self)@.compiler().function)),
                ..old(self)@
            }),
            r.0 == old(self)@.heap.len(),
            r.1@ == old(self)@.compiler().upvalues,
            final(self).same_position(old(self)),
            final(self).scanner.source == old(self).scanner.source,
            final(self).numbers == old(self).numbers,
            final(self).had_error == old(self).had_error,
            final(self).compilers@.len() == old(self).compilers@.len() - 1,
            forall|i: int| 0 <= i < final(self).compilers@.len() ==> final(self).compilers@[i] == old(self).compilers@[i],
    {
        proof {
            self.lemma_view();
        }
        let finished: Compiler = self.compilers.pop().unwrap();
        let upvalues: Vec<UpvalueRef> = finished.upvalues;
        let ghost before = self.heap@;
        let at: usize = self.heap.push(Obj::Function(finished.function));
        proof {
            assert(extends(before, self.heap@));
            lemma_interned_extends(self.strings@, before, self.heap@);
            lemma_heap_ok_extends(before, self.heap@);
            reveal(plain_compilers);
            reveal(plain);
            assert(plain_compilers(self.compilers@) =~= plain_compilers(old(self).compilers@).drop_last());
            assert(plain(self.heap@) =~= plain(before).push(
                crate::obj::ObjView::Function(old(self)@.compiler().function),
            ));
        }
        (at, upvalues)
    }

    /// Compiles a function's parameters and body with a compiler of its own,
    /// and writes the instruction that makes the closure.
    pub(crate) fn function(&mut self)
        requires
            old(self).wf(),
            old(self).current.start > 0,
        ensures
            final(self).wf(),
            final(self)@ == scheme::function(old(self)@),
            final(self).follows(old(self)),
        decreases old(self).remaining(), 9nat,
    {
        proof {
            self.lemma_view();
            reveal_with_fuel(scheme::function, 1);
            reveal_with_fuel(scheme::block, 1);
        }
        let name_bytes: Vec<u8> = self.lexeme(self.previous);
        let name: Option<usize> = self.intern(&name_bytes);
        self.begin_function(name);
        let ghost pushed = *self;
        self.begin_scope();
        let ghost inside = *self;
        self.consume(TokenKind::LeftParen, Message::ExpectParenAfterName);
        if !self.check(TokenKind::RightParen) {
            self.parameters();
        }
        self.consume(TokenKind::RightParen, Message::ExpectParenAfterParameters);
        self.consume(TokenKind::LeftBrace, Message::ExpectBraceBeforeBody);
        self.block();
        self.emit_return();
        assert(self.follows(&inside));
        let made: (usize, Vec<UpvalueRef>) = self.end_function();
        let constant: u8 = self.make_constant(Value::Obj(made.0));
        self.emit_bytes(OpCode::Closure, constant);
        self.write_captures(&made.1);
    }

    /// Compiles a function declaration: the function may call itself, so its name is initialized before its body is compiled.
    pub(crate) fn fun_declaration(&mut self)
        requires
            old(self).wf(),
            old(self).current.start > 0,
        ensures
            final(self)@ == scheme::fun_declaration(old(self)@),
            final(self).wf(),
            final(self).follows(old(self)),
        decreases old(self).remaining(), 10nat,
    {
        proof {
            reveal_with_fuel(scheme::fun_declaration, 1);
            reveal_with_fuel(scheme::function, 1);
        }
        let global: u8 = self.parse_variable(Message::ExpectFunctionName);
        self.mark_initialized();
        self.function();
        self.define_variable(global);
    }

    /// Compiles a variable declaration; a variable without an initializer is nil.
    pub(crate) fn var_declaration(&mut self)
        requires
            old(self).wf(),
        ensures
            final(self)@ == scheme::var_declaration(old(self)@),
            final(self).wf(),
            final(self).follows(old(self)),
        decreases old(self).remaining(), 8nat,
    {
        proof {
            reveal(scheme::accept);
            reveal_with_fuel(scheme::var_declaration, 1);
            reveal_with_fuel(scheme::expression, 1);
        }
        let global: u8 = self.parse_variable(Message::ExpectVariableName);
        if self.match_token(TokenKind::Equal) {
            self.expression();
        } else {
            self.emit_op(OpCode::Nil);
        }
        self.consume(TokenKind::Semicolon, Message::ExpectSemicolonAfterDeclaration);
        self.define_variable(global);
    }

    /// Compiles an expression whose value is thrown away.
    pub(crate) fn expression_statement(&mut self)
        requires
            old(self).wf(),
        ensures
            final(self)@ == scheme::expression_statement(old(self)@),
            final(self).wf(),
            final(self).follows(old(self)),
            final(self).advanced(old(self)),
        decreases old(self).remaining(), 4nat,
    {
        proof {
            reveal_with_fuel(scheme::expression_statement, 1);
            reveal_with_fuel(scheme::expression, 1);
        }
        self.expression();
        self.consume(TokenKind::Semicolon, Message::ExpectSemicolonAfterExpression);
        self.emit_op(OpCode::Pop);
    }

    /// Compiles the first clause of a `for` loop: nothing, a variable
    /// declaration, or an expression.
    pub(crate) fn for_initializer(&mut self)
        requires
            old(self).wf(),
        ensures
            final(self)@ == scheme::for_initializer(old(self)@),
            final(self).wf(),
            final(self).follows(old(self)),
        decreases old(self).remaining(), 7nat,
    {
        proof {
            reveal(scheme::accept);
            reveal_with_fuel(scheme::for_initializer, 1);
            reveal_with_fuel(scheme::var_declaration, 1);
            reveal_with_fuel(scheme::expression_statement, 1);
        }
        self.consume(TokenKind::LeftParen, Message::ExpectParenAfterFor);
        if self.match_token(TokenKind::Semicolon) {
        } else if self.match_token(TokenKind::Var) {
            self.var_declaration();
        } else {
            self.expression_statement();
        }
    }

    /// Compiles the second clause of a `for` loop. Where there is a condition,
    /// returns the jump that leaves the loop when it is false.
    pub(crate) fn for_condition(&mut self) -> (exit_jump: Option<usize>)
        requires
            old(self).wf(),
        ensures
            final(self)@ == scheme::for_condition(old(self)@).0,
            exit_jump == scheme::for_condition(old(self)@).1,
            final(self).wf(),
            final(self).follows(old(self)),
        decreases old(self).remaining(), 7nat,
    {
        proof {
            reveal(scheme::accept);
            reveal_with_fuel(scheme::for_condition, 1);
            reveal_with_fuel(scheme::expression, 1);
        }
        if self.match_token(TokenKind::Semicolon) {
            return None;
        }
        self.expression();
        self.consume(TokenKind::Semicolon, Message::ExpectSemicolonAfterCondition);
        let exit_jump: usize = self.emit_jump(OpCode::JumpIfFalse);
        self.emit_op(OpCode::Pop);
        Some(exit_jump)
    }

    /// Compiles the third clause of a `for` loop, which runs after the body:
    /// the body jumps back to it, and it jumps back to the condition at
    /// `loop_start`. Returns where the body has to jump back to.
    pub(crate) fn for_increment(&mut self, loop_start: usize) -> (back: usize)
        requires
            old(self).wf(),
        ensures
            final(self)@ == scheme::for_increment(old(self)@, loop_start).0,
            back == scheme::for_increment(old(self)@, loop_start).1,
            final(self).wf(),
            final(self).follows(old(self)),
        decreases old(self).remaining(), 7nat,
    {
        proof {
            reveal(scheme::accept);
            self.lemma_view();
            reveal_with_fuel(scheme::for_increment, 1);
            reveal_with_fuel(scheme::expression, 1);
        }
        if self.match_token(TokenKind::RightParen) {
            return loop_start;
        }
        let body_jump: usize = self.emit_jump(OpCode::Jump);
        proof {
            self.lemma_view();
        }
        let increment_start: usize = self.code_len();
        self.expression();
        self.emit_op(OpCode::Pop);
        self.consume(TokenKind::RightParen, Message::ExpectParenAfterClauses);
        self.emit_loop(loop_start);
        self.patch_jump(body_jump);
        increment_start
    }

    /// Compiles a `for` loop as a `while` loop in a scope of its own; the
    /// increment is compiled before the body and jumped over on the way in.
    pub(crate) fn for_statement(&mut self)
        requires
            old(self).wf(),
            old(self).top().scope_depth < old(self).current.start,
        ensures
            final(self)@ == scheme::for_statement(old(self)@),
            final(self).wf(),
            final(self).follows(old(self)),
        decreases old(self).remaining(), 8nat,
    {
        proof {
            self.lemma_view();
            reveal_with_fuel(scheme::for_statement, 1);
            reveal_with_fuel(scheme::for_initializer, 1);
            reveal_with_fuel(scheme::for_condition, 1);
            reveal_with_fuel(scheme::for_increment, 1);
            reveal_with_fuel(scheme::statement, 1);
            reveal(scheme::for_end);
        }
        self.begin_scope();
        let ghost inside = *self;
        self.for_initializer();
        proof {
            self.lemma_view();
        }
        let condition_start: usize = self.code_len();
        let exit_jump: Option<usize> = self.for_condition();
        let loop_start: usize = self.for_increment(condition_start);
        self.statement();
        self.emit_loop(loop_start);
        match exit_jump {
            Some(offset) => {
                self.patch_jump(offset);
                self.emit_op(OpCode::Pop);
            },
            None => {},
        }
        assert(self.follows(&inside));
        self.end_scope();
    }

    /// Compiles an `if` with its optional `else`; both branches pop the condition.
    pub(crate) fn if_statement(&mut self)
        requires
            old(self).wf(),
        ensures
            final(self)@ == scheme::if_statement(old(self)@),
            final(self).wf(),
            final(self).follows(old(self)),
        decreases old(self).remaining(), 8nat,
    {
        proof {
            reveal(scheme::accept);
            reveal_with_fuel(scheme::if_statement, 1);
            reveal_with_fuel(scheme::expression, 1);
            reveal_with_fuel(scheme::statement, 1);
            reveal(scheme::if_then);
            reveal(scheme::if_else);
        }
        self.consume(TokenKind::LeftParen, Message::ExpectParenAfterIf);
        self.expression();
        self.consume(TokenKind::RightParen, Message::ExpectParenAfterCondition);
        let then_jump: usize = self.emit_jump(OpCode::JumpIfFalse);
        self.emit_op(OpCode::Pop);
        self.statement();
        let else_jump: usize = self.emit_jump(OpCode::Jump);
        self.patch_jump(then_jump);
        self.emit_op(OpCode::Pop);
        if self.match_token(TokenKind::Else) {
            self.statement();
        }
        self.patch_jump(else_jump);
    }

    /// Compiles a `print`.
    pub(crate) fn print_statement(&mut self)
        requires
            old(self).wf(),
        ensures
            final(self)@ == scheme::print_statement(old(self)@),
            final(self).wf(),
            final(self).follows(old(self)),
        decreases old(self).remaining(), 8nat,
    {
        proof {
            reveal_with_fuel(scheme::print_statement, 1);
            reveal_with_fuel(scheme::expression, 1);
        }
        self.expression();
        self.consume(TokenKind::Semicolon, Message::ExpectSemicolonAfterValue);
        self.emit_op(OpCode::Print);
    }

    /// Compiles a `return`; the script has nothing to return from.
    pub(crate) fn return_statement(&mut self)
        requires
            old(self).wf(),
        ensures
            final(self)@ == scheme::return_statement(old(self)@),
            final(self).wf(),
            final(self).follows(old(self)),
            old(self).top().kind == FunctionType::Script ==> final(self).had_error,
        decreases old(self).remaining(), 8nat,
    {
        proof {
            reveal(scheme::accept);
            self.lemma_view();
            reveal_with_fuel(scheme::return_statement, 1);
            reveal_with_fuel(scheme::expression, 1);
        }
        let top: usize = self.compilers.len() - 1;
        if self.compilers[top].kind == FunctionType::Script {
            self.error(Message::ReturnFromScript);
        }
        if self.match_token(TokenKind::Semicolon) {
            self.emit_return();
        } else {
            self.expression();
            self.consume(TokenKind::Semicolon, Message::ExpectSemicolonAfterReturn);
            self.emit_op(OpCode::Return);
        }
    }

    /// Compiles a `while` loop.
    pub(crate) fn while_statement(&mut self)
        requires
            old(self).wf(),
        ensures
            final(self)@ == scheme::while_statement(old(self)@),
            final(self).wf(),
            final(self).follows(old(self)),
        decreases old(self).remaining(), 8nat,
    {
        proof {
            self.lemma_view();
            reveal_with_fuel(scheme::while_statement, 1);
            reveal_with_fuel(scheme::expression, 1);
            reveal_with_fuel(scheme::statement, 1);
        }
        let loop_start: usize = self.code_len();
        self.consume(TokenKind::LeftParen, Message::ExpectParenAfterWhile);
        self.expression();
        self.consume(TokenKind::RightParen, Message::ExpectParenAfterCondition);
        let exit_jump: usize = self.emit_jump(OpCode::JumpIfFalse);
        self.emit_op(OpCode::Pop);
        self.statement();
        self.emit_loop(loop_start);
        self.patch_jump(exit_jump);
        self.emit_op(OpCode::Pop);
    }

    /// The length of the code written so far for the innermost function.
    pub(crate) fn code_len(&self) -> (n: usize)
        requires
            self.wf(),
        ensures
            n == self.code().len(),
    {
        let top: usize = self.compilers.len() - 1;
        self.compilers[top].function.chunk.code.len()
    }

    /// Ends the recovery from an error: skips tokens up to the next point
    /// where a statement ends or starts.
    pub(crate) fn synchronize(&mut self)
        requires
            old(self).wf(),
        ensures
            final(self).wf(),
            final(self)@ == scheme::synchronize(old(self)@),
            final(self).follows(old(self)),
            !final(self).panic_mode,
            final(self).compilers == old(self).compilers,
            final(self).strings == old(self).strings,
            final(self).heap == old(self).heap,
            final(self).current.kind == TokenKind::Eof || final(self).previous.kind == TokenKind::Semicolon
                || starts_statement(final(self).current.kind),
    {
        proof {
            reveal(scheme::synchronize);
        }
        self.panic_mode = false;
        let ghost calm = self@;
        loop
            invariant_except_break
                scheme::sync_loop(self@) == scheme::sync_loop(calm),
            invariant
                self.wf(),
                self.follows(old(self)),
                !self.panic_mode,
                self.compilers == old(self).compilers,
                self.strings == old(self).strings,
                self.heap == old(self).heap,
            ensures
                self@ == scheme::sync_loop(calm),
                self.current.kind == TokenKind::Eof || self.previous.kind == TokenKind::Semicolon
                    || starts_statement(self.current.kind),
            decreases self.remaining(),
        {
            proof {
                    reveal_with_fuel(scheme::sync_loop, 2);
            }
            if self.current.kind == TokenKind::Eof {
                break;
            }
            if self.previous.kind == TokenKind::Semicolon {
                break;
            }
            let stop: bool = match self.current.kind {
                TokenKind::Class
                | TokenKind::Fun
                | TokenKind::Var
                | TokenKind::For
                | TokenKind::If
                | TokenKind::While
                | TokenKind::Print
                | TokenKind::Return => true,
                _ => false,
            };
            if stop {
                break;
            }
            self.advance();
            self.panic_mode = false;
        }
    }

    /// Compiles a declaration or a statement, and recovers if it was wrong.
    pub(crate) fn declaration(&mut self)
        requires
            old(self).wf(),
        ensures
            final(self)@ == scheme::declaration(old(self)@),
            final(self).wf(),
            final(self).follows(old(self)),
            final(self).advanced(old(self)),
        decreases old(self).remaining(), 6nat,
    {
        proof {
            reveal(scheme::accept);
            reveal_with_fuel(scheme::declaration, 1);
            reveal_with_fuel(scheme::fun_declaration, 1);
            reveal_with_fuel(scheme::var_declaration, 1);
            reveal_with_fuel(scheme::statement, 1);
        }
        if self.match_token(TokenKind::Fun) {
            self.fun_declaration();
        } else if self.match_token(TokenKind::Var) {
            self.var_declaration();
        } else {
            self.statement();
        }
        if self.panic_mode {
            self.synchronize();
        }
    }

    /// Compiles a statement.
    pub(crate) fn statement(&mut self)
        requires
            old(self).wf(),
        ensures
            final(self)@ == scheme::statement(old(self)@),
            final(self).wf(),
            final(self).follows(old(self)),
            final(self).advanced(old(self)),
        decreases old(self).remaining(), 5nat,
    {
        proof {
            reveal(scheme::accept);
            reveal_with_fuel(scheme::statement, 1);
            reveal_with_fuel(scheme::block, 1);
            reveal_with_fuel(scheme::expression_statement, 1);
            reveal_with_fuel(scheme::for_statement, 1);
            reveal_with_fuel(scheme::if_statement, 1);
            reveal_with_fuel(scheme::print_statement, 1);
            reveal_with_fuel(scheme::return_statement, 1);
            reveal_with_fuel(scheme::while_statement, 1);
        }
        if self.match_token(TokenKind::Print) {
            self.print_statement();
        } else if self.match_token(TokenKind::For) {
            self.for_statement();
        } else if self.match_token(TokenKind::If) {
            self.if_statement();
        } else if self.match_token(TokenKind::Return) {
            self.return_statement();
        } else if self.match_token(TokenKind::While) {
            self.while_statement();
        } else if self.match_token(TokenKind::LeftBrace) {
            self.begin_scope();
            let ghost inside = *self;
            self.block();
            assert(self.follows(&inside));
            self.end_scope();
        } else {
            self.expression_statement();
        }
    }

    /// Compiles the declarations of a program up to the end of the source.
    fn declarations(&mut self)
        requires
            old(self).wf(),
        ensures
            final(self).wf(),
            final(self)@ == scheme::declarations(old(self)@),
            final(self).follows(old(self)),
            final(self).current.kind == TokenKind::Eof,
    {
        loop
            invariant_except_break
                scheme::declarations(self@) == scheme::declarations(old(self)@),
            invariant
                self.wf(),
                self.follows(old(self)),
            ensures
                self@ == scheme::declarations(old(self)@),
                self.current.kind == TokenKind::Eof,
            decreases self.remaining(),
        {
            let ghost before = self@;
            if self.check(TokenKind::Eof) {
                self.advance();
                proof {
                    reveal_with_fuel(scheme::declarations, 1);
                }
                break;
            }
            self.declaration();
            proof {
                reveal_with_fuel(scheme::declarations, 2);
                reveal_with_fuel(scheme::declaration, 1);
                assert(scheme::beyond(self@, before));
                assert(scheme::declarations(before) == scheme::declarations(self@));
            }
        }
    }

    /// Compiles the whole source into the script's function. Returns whether
    /// the source compiled without a complaint.
    pub fn compile(&mut self) -> (ok: bool)
        requires
            old(self).wf(),
        ensures
            final(self).wf(),
            final(self)@ == scheme::program(old(self)@),
            ok == !final(self).had_error,
            ok == (final(self).diagnostics@.len() == 0),
            final(self).follows(old(self)),
            final(self).current.kind == TokenKind::Eof,
    {
        proof {
            reveal(scheme::program);
        }
        self.declarations();
        self.emit_return();
        !self.had_error
    }

    /// Ends the compilation and hands out the script's function, the heap and
    /// the interner.
    pub fn finish(self) -> (r: (Function, ObjList, Table))
        requires
            self.wf(),
        ensures
            r.0 == self.top().function,
            r.1 == self.heap,
            r.2 == self.strings,
            r.0.chunk.wf(),
            r.0.chunk.constants@.len() <= MAX_CONSTANTS,
            r.0.arity <= MAX_ARITY,
            r.2.wf(),
            interned(r.2@, r.1@),
            heap_ok(r.1@),
    {
        let mut compilers = self.compilers;
        let script: Compiler = compilers.pop().unwrap();
        (script.function, self.heap, self.strings)
    }
}

} // verus!
