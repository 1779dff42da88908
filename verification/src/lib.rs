//! An interpreter for a small, dynamically typed scripting language of the Lox
//! family: a scanner, a single-pass compiler to bytecode, and a stack machine
//! with closures.
//!
//! Numbers are carried as IEEE-754 binary64 bit patterns. The library reads
//! and compares them; it leaves to its host what needs rounding or input and
//! output: the value of each number literal and the four arithmetic
//! operations, which the host hands to `interpret`, the calls of the host's
//! own functions, and the writing of what a program prints, which
//! `interpret` collects.

pub mod chunk;
pub mod compile;
pub mod expressions;
pub mod native_fn;
pub mod obj;
pub mod run;
pub mod scanner;
pub mod scheme;
pub mod statements;
pub mod table;
pub mod value;
pub mod vm;

use vstd::prelude::*;
use vstd::string::StringSliceAdditionalSpecFns;
use crate::compile::Parser;
use crate::obj::ObjList;
use crate::run::{ended, end_of, goes_on, lemma_told, printed_by, ran, shows, Turn};
use crate::scheme::{compiled, State};
use crate::table::{Key, Table};
use crate::value::Value;
use crate::vm::{built_in, ArithOp, InterpretError, InterpretResult, Output, Signal, VM};

verus! {

/// What the machine that is about to run a compiled script is: one frame at
/// the start of the script's code, the script's closure alone on the stack,
/// no open upvalue; the script has no name and captures nothing, and its
/// chunk is the one that the scheme gives; the heap starts
/// with the objects of the compilation, the interner knows every string of
/// the compilation, and the built-in native function is the one global.
pub open spec fn begins(script: State, vm: VM) -> bool {
    &&& vm.wf()
    &&& vm.frames@.len() == 1
    &&& vm.frame().ip == 0
    &&& vm.frame().base == 0
    &&& vm.stack@ == seq![Value::Obj(vm.frame().closure)]
    &&& vm.open_upvalues@.len() == 0
    &&& vm.closure().upvalues@.len() == 0
    &&& vm.function().name is None
    &&& vm.function().upvalue_count == 0
    &&& vm.code() == script.compiler().function.chunk.code
    &&& vm.constants() == script.compiler().function.chunk.constants
    &&& vm.function().chunk.lines@ == script.compiler().function.chunk.lines
    &&& script.heap.len() <= vm.heap@.len()
    &&& forall|i: int| 0 <= i < script.heap.len() ==> (#[trigger] vm.heap@[i])@ == script.heap[i]
    &&& forall|k: Key| script.strings.contains_key(k) ==> vm.strings@.contains_key(k)
    &&& if script.capacity * 2 <= usize::MAX {
        built_in(vm)
    } else {
        vm.globals@ == Map::<Key, Value>::empty()
    }
}

/// Compiles a program and sets up the machine that is about to run it.
/// `numbers` gives the value of each number literal of the source, in the
/// order in which `scanner::number_literals` lists them. The source compiles
/// exactly when the compilation scheme records no error for it; otherwise
/// the error holds the complaints that the scheme gives.
pub fn load(src: &str, numbers: &[u64]) -> (r: InterpretResult<VM>)
    ensures
        match r {
            Ok(vm) => {
                let script = compiled(src.spec_bytes(), numbers@);
                !script.had_error && begins(script, vm)
            },
            Err(e) => {
                let script = compiled(src.spec_bytes(), numbers@);
                &&& script.had_error
                &&& e matches InterpretError::CompileError(complaints) && complaints@ == script.diagnostics
                    && complaints@.len() > 0
            },
        },
{
    let heap = ObjList::new();
    let strings = Table::new();
    proof {
        reveal(crate::obj::plain);
        assert(crate::obj::plain(heap@) =~= Seq::<crate::obj::ObjView>::empty());
        assert(crate::obj::interned(strings@, heap@));
        assert(crate::obj::heap_ok(heap@));
    }
    let mut parser = Parser::new(src, numbers, strings, heap);
    let ok: bool = parser.compile();
    proof {
        parser.lemma_view();
    }
    if !ok {
        return Err(InterpretError::CompileError(parser.diagnostics));
    }
    let ghost compiled_heap = parser.heap@;
    let ghost script = parser@;
    let (function, heap, strings) = parser.finish();
    let vm = VM::new(function, heap, strings);
    proof {
        reveal(crate::obj::plain);
        assert(script == compiled(src.spec_bytes(), numbers@));
        assert(function@ == script.compiler().function);
        assert(script.heap.len() == compiled_heap.len());
        assert forall|i: int| 0 <= i < compiled_heap.len() implies (#[trigger] vm.heap@[i])@ == compiled_heap[i]@ by {
            assert(vm.heap@[i] == compiled_heap[i]);
        }
    }
    Ok(vm)
}

/// How the interpretation of a script that compiled ends, given the run of
/// its machine: with the machine, when the script has returned; with the
/// fault, when the program was stopped; and with no result when the turns
/// were used up or the program called for a host.
pub open spec fn outcome(turns: Seq<Turn>, budget: u64, r: InterpretResult<VM>) -> bool {
    match r {
        Ok(vm) => {
            &&& turns.len() > 0
            &&& turns.last().result matches Ok(Signal::Done)
            &&& vm == turns.last().after
            &&& vm.frames@.len() == 0
        },
        Err(InterpretError::RuntimeError(fault, trace)) => {
            &&& turns.len() > 0
            &&& turns.last().result == Err::<Signal, InterpretError>(InterpretError::RuntimeError(fault, trace))
        },
        Err(InterpretError::NoHost(id)) => {
            &&& turns.len() > 0
            &&& turns.last().result is Ok
            &&& turns.last().result->Ok_0 matches Signal::Native(asked, _) && asked == id
        },
        Err(InterpretError::OutOfSteps) => {
            &&& turns.len() == budget
            &&& turns.len() > 0 ==> goes_on(turns.last().result)
        },
        Err(InterpretError::CompileError(_)) => false,
    }
}

/// Interprets a program from its source to its end: compiles it, sets up the
/// machine and runs it for at most `budget` instructions. `numbers` gives the
/// value of each number literal of the source, in the order in which
/// `scanner::number_literals` lists them; `arith` does the arithmetic that
/// rounds; what the program prints is put at the end of `printed`.
///
/// A source that does not compile gives the complaints of the compilation
/// scheme, and nothing is run. Otherwise the machine takes its turns from the
/// start that `begins` describes. The result is the machine when the script
/// has returned, it is the fault and the trace when a turn stops the program,
/// it is `OutOfSteps` when the program has not come to its end after `budget`
/// turns, and it is `NoHost` when the program calls a function of a host,
/// which a machine set up here does not have.
pub fn interpret<A: Fn(ArithOp, u64, u64) -> u64>(
    src: &str,
    numbers: &[u64],
    arith: A,
    budget: u64,
    printed: &mut Vec<Output>,
) -> (r: InterpretResult<VM>)
    requires
        forall|op: ArithOp, a: u64, b: u64| arith.requires((op, a, b)),
    ensures
        ({
            let script = compiled(src.spec_bytes(), numbers@);
            if script.had_error {
                &&& r matches Err(InterpretError::CompileError(complaints)) && complaints@ == script.diagnostics
                    && complaints@.len() > 0
                &&& final(printed)@ == old(printed)@
            } else {
                exists|start: VM, turns: Seq<Turn>| #[trigger]
                    ran(start, turns, arith) && begins(script, start) && outcome(turns, budget, r) && shows(
                        final(printed)@,
                    ) == shows(old(printed)@) + printed_by(turns)
            }
        }),
        r matches Ok(vm) ==> vm.wf(),
{
    let mut vm = match load(src, numbers) {
        Ok(vm) => vm,
        Err(e) => {
            return Err(e);
        },
    };
    let ghost start = vm;
    let ended_with = vm.run(arith, budget, printed);
    let ghost turns = choose|turns: Seq<Turn>| #[trigger]
        ran(start, turns, arith) && end_of(start, turns) == vm && ended(turns, budget, ended_with) && shows(printed@)
            == shows(old(printed)@) + printed_by(turns);
    let r = match ended_with {
        Ok(Signal::Done) => Ok(vm),
        Ok(Signal::Native(id, _)) => Err(InterpretError::NoHost(id)),
        Ok(_) => Err(InterpretError::OutOfSteps),
        Err(e) => Err(e),
    };
    proof {
        let script = compiled(src.spec_bytes(), numbers@);
        assert(ran(start, turns, arith) && begins(script, start) && outcome(turns, budget, r) && shows(printed@)
            == shows(old(printed)@) + printed_by(turns));
    }
    r
}

/// The answer, whatever the question.
pub fn _f(_a: i32, _b: i32) -> (r: i32)
    ensures
        r == 420,
{
    420
}

/// Asks three questions for one answer.
pub fn _noob() {
    let _noob: i32 = _f(_f(1, 2), _f(3, 4));
}

} // verus!
