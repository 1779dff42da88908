//! The grammar of expressions: the parser's routines for them, each of which
//! does what the compilation scheme says.

use vstd::prelude::*;
use crate::chunk::OpCode;
use crate::compile::{
    rank, rule_for, starts_statement, Compiler, FunctionType, Message, ParseRule, Parser, Precedence, Rule,
    UpvalueRef, MAX_ARITY, MAX_CONSTANTS,
};
use crate::compile::{lemma_plain_update, plain_compilers};
use crate::obj::{
    copy_bytes, extends, heap_ok, interned, lemma_heap_ok_extends, lemma_interned_extends, plain, Function, Obj,
    ObjList,
};
use crate::scanner::{number_spans, Token, TokenKind};
use crate::scheme;
use crate::scheme::State;
use crate::table::Table;
use crate::value::Value;

verus! {

impl Parser {
    /// Compiles the arguments of a call and returns how many there are.
    pub(crate) fn argument_list(&mut self) -> (count: u8)
        requires
            old(self).wf(),
        ensures
            final(self).wf(),
            final(self)@ == scheme::arguments(old(self)@).0,
            count == scheme::arguments(old(self)@).1,
            final(self).follows(old(self)),
        decreases old(self).remaining(), 10nat,
    {
        proof {
            reveal(scheme::accept);
            reveal_with_fuel(scheme::arguments, 1);
            reveal_with_fuel(scheme::argument_loop, 1);
        }
        let mut count: u8 = 0;
        if !self.check(TokenKind::RightParen) {
            loop
                invariant_except_break
                    scheme::argument_loop(self@, count) == scheme::argument_loop(old(self)@, 0),
                invariant
                    self.wf(),
                    self.follows(old(self)),
                ensures
                    self@ == scheme::argument_loop(old(self)@, 0).0,
                    count == scheme::argument_loop(old(self)@, 0).1,
                decreases self.remaining(),
            {
                proof {
                    reveal(scheme::accept);
                    reveal_with_fuel(scheme::argument_loop, 2);
                    reveal_with_fuel(scheme::expression, 1);
                }
                self.expression();
                if count == 255 {
                    self.error(Message::TooManyArguments);
                } else {
                    count = count + 1;
                }
                if !self.match_token(TokenKind::Comma) {
                    break;
                }
            }
        }
        self.consume(TokenKind::RightParen, Message::ExpectParenAfterArguments);
        count
    }

    /// Compiles the right side of `and`, which is skipped when the left side is falsey.
    pub(crate) fn and_(&mut self)
        requires
            old(self).wf(),
        ensures
            final(self)@ == scheme::and_(old(self)@),
            final(self).wf(),
            final(self).follows(old(self)),
        decreases old(self).remaining(), 11nat,
    {
        proof {
            reveal_with_fuel(scheme::and_, 1);
            reveal_with_fuel(scheme::precedence, 1);
        }
        let end_jump: usize = self.emit_jump(OpCode::JumpIfFalse);
        self.emit_op(OpCode::Pop);
        self.parse_precedence(Precedence::And);
        self.patch_jump(end_jump);
    }

    /// Compiles the right side of `or`, which is skipped when the left side is truthy.
    pub(crate) fn or_(&mut self)
        requires
            old(self).wf(),
        ensures
            final(self)@ == scheme::or_(old(self)@),
            final(self).wf(),
            final(self).follows(old(self)),
        decreases old(self).remaining(), 11nat,
    {
        proof {
            reveal_with_fuel(scheme::or_, 1);
            reveal_with_fuel(scheme::precedence, 1);
        }
        let else_jump: usize = self.emit_jump(OpCode::JumpIfFalse);
        let end_jump: usize = self.emit_jump(OpCode::Jump);
        self.patch_jump(else_jump);
        self.emit_op(OpCode::Pop);
        self.parse_precedence(Precedence::Or);
        self.patch_jump(end_jump);
    }

    /// Compiles the right operand of a binary operator and then the operator itself.
    pub(crate) fn binary(&mut self)
        requires
            old(self).wf(),
        ensures
            final(self)@ == scheme::binary(old(self)@),
            final(self).wf(),
            final(self).follows(old(self)),
        decreases old(self).remaining(), 11nat,
    {
        proof {
            reveal_with_fuel(scheme::binary, 1);
            reveal_with_fuel(scheme::precedence, 1);
            reveal(scheme::binary_code);
        }
        let kind: TokenKind = self.previous.kind;
        let rule: ParseRule = rule_for(kind);
        self.parse_precedence(rule.precedence.next());
        match kind {
            TokenKind::BangEqual => {
                self.emit_op(OpCode::Equal);
                self.emit_op(OpCode::Not);
            },
            TokenKind::EqualEqual => {
                self.emit_op(OpCode::Equal);
            },
            TokenKind::Greater => {
                self.emit_op(OpCode::Greater);
            },
            TokenKind::GreaterEqual => {
                self.emit_op(OpCode::Less);
                self.emit_op(OpCode::Not);
            },
            TokenKind::Less => {
                self.emit_op(OpCode::Less);
            },
            TokenKind::LessEqual => {
                self.emit_op(OpCode::Greater);
                self.emit_op(OpCode::Not);
            },
            TokenKind::Plus => {
                self.emit_op(OpCode::Add);
            },
            TokenKind::Minus => {
                self.emit_op(OpCode::Subtract);
            },
            TokenKind::Star => {
                self.emit_op(OpCode::Multiply);
            },
            TokenKind::Slash => {
                self.emit_op(OpCode::Divide);
            },
            _ => {},
        }
    }

    /// Compiles a call: the arguments, then the instruction with their number.
    pub(crate) fn call(&mut self)
        requires
            old(self).wf(),
        ensures
            final(self)@ == scheme::call(old(self)@),
            final(self).wf(),
            final(self).follows(old(self)),
        decreases old(self).remaining(), 11nat,
    {
        proof {
            reveal_with_fuel(scheme::call, 1);
            reveal_with_fuel(scheme::arguments, 1);
        }
        let count: u8 = self.argument_list();
        self.emit_bytes(OpCode::Call, count);
    }

    /// Compiles `false`, `nil` or `true`.
    pub(crate) fn literal(&mut self)
        requires
            old(self).wf(),
        ensures
            final(self)@ == scheme::literal(old(self)@),
            final(self).wf(),
            final(self).follows(old(self)),
            final(self).same_position(old(self)),
    {
        proof {
            reveal(scheme::literal);
        }
        match self.previous.kind {
            TokenKind::False => {
                self.emit_op(OpCode::False);
            },
            TokenKind::Nil => {
                self.emit_op(OpCode::Nil);
            },
            TokenKind::True => {
                self.emit_op(OpCode::True);
            },
            _ => {},
        }
    }

    /// Compiles an expression in parentheses.
    pub(crate) fn grouping(&mut self)
        requires
            old(self).wf(),
        ensures
            final(self)@ == scheme::grouping(old(self)@),
            final(self).wf(),
            final(self).follows(old(self)),
        decreases old(self).remaining(), 11nat,
    {
        proof {
            reveal_with_fuel(scheme::grouping, 1);
            reveal_with_fuel(scheme::expression, 1);
        }
        self.expression();
        self.consume(TokenKind::RightParen, Message::ExpectParenAfterExpression);
    }

    /// Compiles a number literal: its value is the one given for the token's
    /// place among the number tokens of the source.
    pub(crate) fn number(&mut self)
        requires
            old(self).wf(),
        ensures
            final(self)@ == scheme::number(old(self)@),
            final(self).wf(),
            final(self).follows(old(self)),
            final(self).same_position(old(self)),
            old(self).previous.ordinal >= old(self).numbers@.len() ==> final(self).had_error,
            old(self).previous.ordinal < old(self).numbers@.len() && old(self).top().function.chunk.constants@.len()
                < MAX_CONSTANTS ==> {
                &&& final(self).top().function.chunk.constants@ == old(self).top().function.chunk.constants@.push(
                    Value::Number(old(self).numbers@[old(self).previous.ordinal as int]),
                )
                &&& final(self).code() == old(self).code().push(crate::chunk::byte_of(OpCode::Constant)).push(
                    old(self).top().function.chunk.constants@.len() as u8,
                )
                &&& final(self).had_error == old(self).had_error
            },
            old(self).previous.kind == TokenKind::Number ==> old(self).previous.ordinal < number_spans(
                old(self).scanner.source@,
                0,
            ).len() && number_spans(old(self).scanner.source@, 0)[old(self).previous.ordinal as int] == (
                old(self).previous.start,
                old(self).previous.length,
            ),
    {
        proof {
            self.lemma_view();
            reveal(scheme::number);
        }
        let place: usize = self.previous.ordinal;
        if place < self.numbers.len() {
            let bits: u64 = self.numbers[place];
            self.emit_constant(Value::Number(bits));
        } else {
            self.error(Message::NumberWithoutValue);
        }
    }

    /// Compiles a string literal: the text between the quotes, interned.
    pub(crate) fn string(&mut self)
        requires
            old(self).wf(),
        ensures
            final(self)@ == scheme::string(old(self)@),
            final(self).wf(),
            final(self).follows(old(self)),
            final(self).same_position(old(self)),
    {
        proof {
            self.lemma_view();
            reveal(scheme::string);
        }
        let token: Token = self.previous;
        if token.kind != TokenKind::String {
            return;
        }
        assert(self.scanner.source@.len() == self.scanner.source.len());
        let text: Vec<u8> = copy_bytes(
            self.scanner.source.as_slice(),
            token.start + 1,
            token.start + token.length - 1,
        );
        match self.intern(&text) {
            Some(at) => {
                self.emit_constant(Value::Obj(at));
            },
            None => {},
        }
    }

    /// Compiles a use of the variable with the given name: a read, or, where
    /// an assignment is allowed and an equals sign follows, a write.
    pub(crate) fn named_variable(&mut self, name: Vec<u8>, can_assign: bool)
        requires
            old(self).wf(),
        ensures
            final(self)@ == scheme::named(old(self)@, name@, can_assign),
            final(self).wf(),
            final(self).follows(old(self)),
        decreases old(self).remaining(), 10nat,
    {
        proof {
            reveal(scheme::accept);
            self.lemma_view();
            reveal_with_fuel(scheme::named, 1);
            reveal_with_fuel(scheme::expression, 1);
            reveal(scheme::resolve);
        }
        let top: usize = self.compilers.len() - 1;
        let get_op: OpCode;
        let set_op: OpCode;
        let operand: u8;
        match self.resolve_local(top, &name) {
            Some(slot) => {
                get_op = OpCode::GetLocal;
                set_op = OpCode::SetLocal;
                operand = slot as u8;
            },
            None => {
                match self.resolve_upvalue(top, &name) {
                    Some(index) => {
                        get_op = OpCode::GetUpvalue;
                        set_op = OpCode::SetUpvalue;
                        operand = index;
                    },
                    None => {
                        get_op = OpCode::GetGlobal;
                        set_op = OpCode::SetGlobal;
                        operand = self.identifier_constant(&name);
                    },
                }
            },
        }
        if can_assign && self.match_token(TokenKind::Equal) {
            self.expression();
            self.emit_bytes(set_op, operand);
        } else {
            self.emit_bytes(get_op, operand);
        }
    }

    /// Compiles a use of the variable that the token just passed names.
    pub(crate) fn variable(&mut self, can_assign: bool)
        requires
            old(self).wf(),
        ensures
            final(self)@ == scheme::variable(old(self)@, can_assign),
            final(self).wf(),
            final(self).follows(old(self)),
        decreases old(self).remaining(), 11nat,
    {
        proof {
            reveal_with_fuel(scheme::variable, 1);
            reveal_with_fuel(scheme::named, 1);
        }
        let name: Vec<u8> = self.lexeme(self.previous);
        self.named_variable(name, can_assign);
    }

    /// Compiles the operand of `!` or `-` and then the operator.
    pub(crate) fn unary(&mut self)
        requires
            old(self).wf(),
        ensures
            final(self)@ == scheme::unary(old(self)@),
            final(self).wf(),
            final(self).follows(old(self)),
        decreases old(self).remaining(), 11nat,
    {
        proof {
            reveal_with_fuel(scheme::unary, 1);
            reveal_with_fuel(scheme::precedence, 1);
            reveal(scheme::unary_code);
        }
        let kind: TokenKind = self.previous.kind;
        self.parse_precedence(Precedence::Unary);
        match kind {
            TokenKind::Bang => {
                self.emit_op(OpCode::Not);
            },
            TokenKind::Minus => {
                self.emit_op(OpCode::Negate);
            },
            _ => {},
        }
    }

    /// Runs the parsing routine that a rule names.
    pub(crate) fn apply(&mut self, rule: Rule, can_assign: bool)
        requires
            old(self).wf(),
        ensures
            final(self)@ == scheme::apply(old(self)@, rule, can_assign),
            final(self).wf(),
            final(self).follows(old(self)),
        decreases old(self).remaining(), 12nat,
    {
        proof {
            reveal_with_fuel(scheme::apply, 1);
            reveal_with_fuel(scheme::grouping, 1);
            reveal_with_fuel(scheme::unary, 1);
            reveal_with_fuel(scheme::binary, 1);
            reveal_with_fuel(scheme::call, 1);
            reveal_with_fuel(scheme::variable, 1);
            reveal_with_fuel(scheme::and_, 1);
            reveal_with_fuel(scheme::or_, 1);
        }
        match rule {
            Rule::Grouping => self.grouping(),
            Rule::Call => self.call(),
            Rule::Unary => self.unary(),
            Rule::Binary => self.binary(),
            Rule::Variable => self.variable(can_assign),
            Rule::String => self.string(),
            Rule::Number => self.number(),
            Rule::Literal => self.literal(),
            Rule::And => self.and_(),
            Rule::Or => self.or_(),
        }
    }

    /// Compiles an expression whose operators bind at least as tightly as
    /// `precedence`.
    pub(crate) fn parse_precedence(&mut self, precedence: Precedence)
        requires
            old(self).wf(),
            rank(precedence) >= 1,
        ensures
            final(self).wf(),
            final(self)@ == scheme::precedence(old(self)@, precedence),
            final(self).follows(old(self)),
            final(self).advanced(old(self)),
        decreases old(self).remaining(), 2nat,
    {
        proof {
            reveal(scheme::accept);
            reveal_with_fuel(scheme::precedence, 1);
            reveal_with_fuel(scheme::infixes, 1);
            reveal_with_fuel(scheme::apply, 1);
        }
        self.advance();
        let can_assign: bool = precedence.level() <= Precedence::Assignment.level();
        match rule_for(self.previous.kind).prefix {
            None => {
                self.error(Message::ExpectExpression);
                return;
            },
            Some(rule) => {
                self.apply(rule, can_assign);
            },
        }
        let ghost begun = self@;
        loop
            invariant_except_break
                scheme::infixes(self@, precedence, can_assign) == scheme::infixes(begun, precedence, can_assign),
            invariant
                self.wf(),
                self.follows(old(self)),
                self.advanced(old(self)),
                old(self).current.kind != TokenKind::Eof,
                rank(precedence) >= 1,
            ensures
                self@ == scheme::infixes(begun, precedence, can_assign),
            decreases self.remaining(),
        {
            proof {
                reveal(scheme::accept);
                reveal_with_fuel(scheme::infixes, 2);
                reveal_with_fuel(scheme::apply, 1);
            }
            if precedence.level() > rule_for(self.current.kind).precedence.level() {
                break;
            }
            self.advance();
            match rule_for(self.previous.kind).infix {
                Some(rule) => {
                    self.apply(rule, can_assign);
                },
                None => {},
            }
        }
        if can_assign && self.match_token(TokenKind::Equal) {
            self.error(Message::InvalidAssignmentTarget);
        }
    }

    /// Compiles an expression.
    pub(crate) fn expression(&mut self)
        requires
            old(self).wf(),
        ensures
            final(self)@ == scheme::expression(old(self)@),
            final(self).wf(),
            final(self).follows(old(self)),
            final(self).advanced(old(self)),
        decreases old(self).remaining(), 3nat,
    {
        proof {
            reveal_with_fuel(scheme::expression, 1);
            reveal_with_fuel(scheme::precedence, 1);
        }
        self.parse_precedence(Precedence::Assignment);
    }
}

} // verus!
