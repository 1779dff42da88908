//! The run of a program: the machine takes one turn after another until the
//! script has returned, the program is stopped, or the turns allowed are used
//! up. What the program prints is collected; the arithmetic that rounds is
//! asked of a function of the host.

use vstd::prelude::*;
use crate::value::Value;
use crate::vm::{performed, shown, ArithOp, Effect, InterpretError, Output, Shown, Signal, VM};

verus! {

/// One turn of a run: the machine before it, the host's answer where the
/// instruction asked for arithmetic, the machine after it, and what the turn
/// told the host.
pub struct Turn {
    pub before: VM,
    pub answer: u64,
    pub after: VM,
    pub result: Result<Signal, InterpretError>,
}

/// What a turn carries out: the effect of the next instruction, and where
/// that is a question of arithmetic, the answer in place of the operands.
pub open spec fn turn_effect(pre: VM, answer: u64) -> Effect {
    match pre.effect() {
        Effect::Ask { op, lhs, rhs } => Effect::Replace { width: 1, dropped: 2, pushed: Some(Value::Number(answer)) },
        e => e,
    }
}

/// Whether the answer is one that the host's function gives to the question
/// of the next instruction, if that asks one.
pub open spec fn answers<A: Fn(ArithOp, u64, u64) -> u64>(arith: A, pre: VM, answer: u64) -> bool {
    pre.effect() matches Effect::Ask { op, lhs, rhs } ==> arith.ensures((op, lhs, rhs), answer)
}

/// Whether the turn is one that the machine can take with this host.
pub open spec fn turn_ok<A: Fn(ArithOp, u64, u64) -> u64>(t: Turn, arith: A) -> bool {
    &&& answers(arith, t.before, t.answer)
    &&& performed(t.before, turn_effect(t.before, t.answer), t.after, t.result)
}

/// Whether a run goes on after a turn with this result: the instruction is
/// done, or it printed.
pub open spec fn goes_on(r: Result<Signal, InterpretError>) -> bool {
    r is Ok && (r->Ok_0 is Continue || r->Ok_0 is Print)
}

/// Whether the turns are a run from `start`: each is a turn that the machine
/// can take, the first from `start` and every other from where the one
/// before it ended, and the run goes on after every turn but the last.
pub open spec fn ran<A: Fn(ArithOp, u64, u64) -> u64>(start: VM, turns: Seq<Turn>, arith: A) -> bool {
    &&& forall|i: int| 0 <= i < turns.len() ==> turn_ok(#[trigger] turns[i], arith)
    &&& forall|i: int|
        0 <= i < turns.len() ==> (#[trigger] turns[i]).before == (if i == 0 {
            start
        } else {
            turns[i - 1].after
        })
    &&& forall|i: int| 0 <= i < turns.len() - 1 ==> goes_on((#[trigger] turns[i]).result)
}

/// The machine at the end of a run.
pub open spec fn end_of(start: VM, turns: Seq<Turn>) -> VM {
    if turns.len() == 0 {
        start
    } else {
        turns.last().after
    }
}

/// What the turns print, in their order.
pub open spec fn printed_by(turns: Seq<Turn>) -> Seq<Shown>
    decreases turns.len(),
{
    if turns.len() == 0 {
        Seq::empty()
    } else {
        match turn_effect(turns.last().before, turns.last().answer) {
            Effect::Show { value } => printed_by(turns.drop_last()).push(shown(turns.last().before.heap@, value)),
            _ => printed_by(turns.drop_last()),
        }
    }
}

/// What was printed, as plain values.
pub open spec fn shows(printed: Seq<Output>) -> Seq<Shown> {
    Seq::new(printed.len(), |i: int| printed[i]@)
}

/// How a run of at most `budget` turns ends: with what its last turn told
/// the host, if the run does not go on after that; and else with all its
/// turns taken and the machine ready for more.
pub open spec fn ended(turns: Seq<Turn>, budget: u64, r: Result<Signal, InterpretError>) -> bool {
    &&& turns.len() <= budget
    &&& if turns.len() > 0 && !goes_on(turns.last().result) {
        r == turns.last().result
    } else {
        turns.len() == budget && r is Ok && r->Ok_0 is Continue
    }
}

/// What a turn tells the host goes by what it carries out: only a question
/// of arithmetic is passed on as one, only `print` prints, and the script has
/// returned only when no frame is left.
pub proof fn lemma_told(pre: VM, post: VM, r: Result<Signal, InterpretError>)
    requires
        performed(pre, pre.effect(), post, r),
    ensures
        pre.effect() is Ask <==> (r is Ok && r->Ok_0 is Arith),
        pre.effect() is Show <==> (r is Ok && r->Ok_0 is Print),
        pre.effect() is AskNative <==> (r is Ok && r->Ok_0 is Native),
        pre.effect() is Fault <==> r is Err,
        r matches Ok(Signal::Arith(op, lhs, rhs)) ==> pre.effect() == (Effect::Ask { op, lhs, rhs }) && post == pre,
        r matches Ok(Signal::Print(out)) ==> out@ == shown(pre.heap@, pre.effect()->Show_value),
        r matches Ok(Signal::Done) ==> post.frames@.len() == 0,
{
}

impl VM {
    /// Runs the program for at most `budget` turns. A turn is one
    /// instruction; where the instruction asks for arithmetic, `arith` is
    /// called and its answer completes the instruction. What is printed is
    /// put at the end of `printed`. The run ends with `Done` when the script
    /// has returned, with the fault when the program is stopped, with
    /// `Native` when the program calls a function of the host, which is then
    /// to answer with `resume`, and with `Continue` when the turns are used
    /// up.
    pub fn run<A: Fn(ArithOp, u64, u64) -> u64>(&mut self, arith: A, budget: u64, printed: &mut Vec<Output>) -> (r:
        Result<Signal, InterpretError>)
        requires
            old(self).wf(),
            forall|op: ArithOp, a: u64, b: u64| arith.requires((op, a, b)),
        ensures
            final(self).wf(),
            exists|turns: Seq<Turn>| #[trigger]
                ran(*old(self), turns, arith) && end_of(*old(self), turns) == *final(self) && ended(turns, budget, r)
                    && shows(final(printed)@) == shows(old(printed)@) + printed_by(turns),
            r is Ok ==> r->Ok_0 is Continue || r->Ok_0 is Done || r->Ok_0 is Native,
            r matches Ok(Signal::Done) ==> final(self).frames@.len() == 0,
    {
        let ghost start = *self;
        let ghost mut turns: Seq<Turn> = Seq::empty();
        let mut left: u64 = budget;
        proof {
            assert(shows(printed@) + printed_by(turns) =~= shows(printed@));
        }
        while left > 0
            invariant
                self.wf(),
                forall|op: ArithOp, a: u64, b: u64| arith.requires((op, a, b)),
                start == *old(self),
                left <= budget,
                turns.len() == budget - left,
                ran(start, turns, arith),
                end_of(start, turns) == *self,
                forall|i: int| 0 <= i < turns.len() ==> goes_on((#[trigger] turns[i]).result),
                shows(printed@) == shows(old(printed)@) + printed_by(turns),
            decreases left,
        {
            let ghost before = *self;
            let ghost earlier = turns;
            let ghost shown_before = shows(printed@);
            let stepped = self.step();
            let ghost first = stepped;
            proof {
                lemma_told(before, *self, first);
            }
            match stepped {
                Ok(Signal::Arith(op, lhs, rhs)) => {
                    let answer: u64 = arith(op, lhs, rhs);
                    let resumed = self.resume(Value::Number(answer));
                    let ghost turn = Turn { before, answer, after: *self, result: resumed };
                    proof {
                        turns = earlier.push(turn);
                        assert(turn_ok(turn, arith));
                        lemma_run_on(start, earlier, turn, arith);
                        assert(printed_by(turns) == printed_by(earlier)) by {
                            assert(turns.drop_last() =~= earlier);
                        }
                    }
                    match resumed {
                        Ok(_) => {},
                        Err(e) => {
                            return Err(e);
                        },
                    }
                },
                Ok(Signal::Continue) => {
                    proof {
                        let turn = Turn { before, answer: 0, after: *self, result: first };
                        turns = earlier.push(turn);
                        lemma_run_on(start, earlier, turn, arith);
                        assert(printed_by(turns) == printed_by(earlier)) by {
                            assert(turns.drop_last() =~= earlier);
                        }
                    }
                },
                Ok(Signal::Print(out)) => {
                    printed.push(out);
                    proof {
                        let turn = Turn { before, answer: 0, after: *self, result: first };
                        turns = earlier.push(turn);
                        lemma_run_on(start, earlier, turn, arith);
                        assert(printed_by(turns) == printed_by(earlier).push(out@)) by {
                            assert(turns.drop_last() =~= earlier);
                        }
                        assert(shows(printed@) =~= shown_before.push(out@));
                        assert(shows(printed@) =~= shows(old(printed)@) + printed_by(turns));
                    }
                },
                other => {
                    proof {
                        let turn = Turn { before, answer: 0, after: *self, result: first };
                        turns = earlier.push(turn);
                        lemma_run_on(start, earlier, turn, arith);
                        assert(printed_by(turns) == printed_by(earlier)) by {
                            assert(turns.drop_last() =~= earlier);
                        }
                        assert(ran(start, turns, arith) && end_of(start, turns) == *self && ended(turns, budget, other)
                            && shows(printed@) == shows(old(printed)@) + printed_by(turns));
                    }
                    return other;
                },
            }
            left = left - 1;
        }
        proof {
            assert(ran(start, turns, arith) && end_of(start, turns) == *self && ended(
                turns,
                budget,
                Ok::<Signal, InterpretError>(Signal::Continue),
            ) && shows(printed@) == shows(old(printed)@) + printed_by(turns));
        }
        Ok(Signal::Continue)
    }
}

/// A run that goes on after each of its turns is a run still with one more
/// turn from where it ended.
proof fn lemma_run_on<A: Fn(ArithOp, u64, u64) -> u64>(start: VM, turns: Seq<Turn>, turn: Turn, arith: A)
    requires
        ran(start, turns, arith),
        forall|i: int| 0 <= i < turns.len() ==> goes_on((#[trigger] turns[i]).result),
        turn.before == end_of(start, turns),
        turn_ok(turn, arith),
    ensures
        ran(start, turns.push(turn), arith),
        end_of(start, turns.push(turn)) == turn.after,
{
    let more = turns.push(turn);
    assert forall|i: int| 0 <= i < more.len() implies turn_ok(#[trigger] more[i], arith) by {
        if i < turns.len() {
            assert(more[i] == turns[i]);
        }
    }
    assert forall|i: int| 0 <= i < more.len() implies (#[trigger] more[i]).before == (if i == 0 {
        start
    } else {
        more[i - 1].after
    }) by {
        if i < turns.len() {
            assert(more[i] == turns[i]);
            if i > 0 {
                assert(more[i - 1] == turns[i - 1]);
            }
        }
    }
    assert forall|i: int| 0 <= i < more.len() - 1 implies goes_on((#[trigger] more[i]).result) by {
        assert(more[i] == turns[i]);
    }
}

} // verus!
