//! The virtual machine: a stack of values, a stack of call frames, the
//! globals, and the list of open upvalues, kept in the order of their slots. It runs one instruction at a time.
//! What it cannot do itself, writing output and the arithmetic that rounds, it
//! asks of its host with a signal, and the host answers with `resume`.

use vstd::prelude::*;
use vstd::string::StringSliceAdditionalSpecFns;
use crate::chunk::{op_of, OpCode};
use crate::compile::Diagnostic;
use crate::native_fn::NativeFn;
use crate::obj::{closure_ok, extends, heap_ok, interned, key_at, text_at, Closure, Function, Obj, ObjList, ObjString, Upvalue};
use crate::table::{Key, Table};
use crate::value::{falsey, negated, number_less, values_equal, Value};

verus! {

/// The most call frames that can be active.
pub const FRAMES_MAX: usize = 64;

/// The most values the stack can hold: 256 for each frame.
pub const STACK_MAX: usize = 16384;

/// One activation of a closure: the closure and its function, the position of
/// the next instruction in the function's code, and the stack slot that holds
/// the closure itself, from which the activation's locals are counted.
#[derive(Clone, Copy, Debug, PartialEq, Eq, Structural)]
pub struct CallFrame {
    pub closure: usize,
    pub function: usize,
    pub ip: usize,
    pub base: usize,
}

/// Why a program was stopped.
#[derive(Clone, Copy, Debug, PartialEq, Eq, Structural)]
pub enum Fault {
    /// The operand of a negation is no number.
    OperandMustBeNumber,
    /// An operand of `-`, `*`, `/`, `<` or `>` is no number.
    OperandsMustBeNumbers,
    /// The operands of `+` are neither two numbers nor two strings.
    OperandsMustBeNumbersOrStrings,
    /// No global has the name that the string at this heap position spells.
    UndefinedVariable(usize),
    /// What was called is neither a closure nor a native function.
    NotCallable,
    /// A closure was called with the wrong number of arguments.
    WrongArity { expected: usize, got: usize },
    /// Too many frames or too many values.
    StackOverflow,
    /// A table cannot grow any further.
    OutOfMemory,
    /// The code is not code that the compiler writes.
    BadCode,
    /// The host answered a question that was not asked.
    BadResume,
}

/// One line of a stack trace: the source line that the frame was executing,
/// and the heap position of the function's name (none for the script).
#[derive(Clone, Copy, Debug, PartialEq, Eq, Structural)]
pub struct TraceLine {
    pub line: u32,
    pub function: Option<usize>,
}

/// The ways in which interpreting a program does not come to a good end.
#[derive(Debug)]
pub enum InterpretError {
    /// The source did not compile; the complaints, in the order they arose.
    CompileError(Vec<Diagnostic>),
    /// The program was stopped; why, and the frames that were active, the
    /// innermost first.
    RuntimeError(Fault, Vec<TraceLine>),
    /// The program had not come to its end when the steps allowed for it
    /// were used up.
    OutOfSteps,
    /// The program called the function of this number of a host, and there
    /// was no host to answer.
    NoHost(u32),
}

/// What interpreting gives: a value, or the way it failed.
pub type InterpretResult<T> = Result<T, InterpretError>;

/// The arithmetic that the machine leaves to its host.
#[derive(Clone, Copy, Debug, PartialEq, Eq, Structural)]
pub enum ArithOp {
    Add,
    Subtract,
    Multiply,
    Divide,
}

/// What a `print` writes: a number, which the host formats, or text.
#[derive(Debug)]
pub enum Output {
    Number(u64),
    Text(Vec<u8>),
}

/// What a `print` writes, as a plain value.
pub enum Shown {
    Number(u64),
    Text(Seq<u8>),
}

impl View for Output {
    type V = Shown;

    open spec fn view(&self) -> Shown {
        match self {
            Output::Number(bits) => Shown::Number(*bits),
            Output::Text(bytes) => Shown::Text(bytes@),
        }
    }
}

/// What a step of the machine tells its host.
#[derive(Debug)]
pub enum Signal {
    /// The instruction is done; the machine is ready for the next.
    Continue,
    /// The script has returned; nothing is left to run.
    Done,
    /// The host is to write this, followed by a line break.
    Print(Output),
    /// The host is to compute this on two numbers and answer with the result.
    Arith(ArithOp, u64, u64),
    /// The host is to call its function of this number on these arguments and
    /// answer with the result.
    Native(u32, Vec<Value>),
}

/// What the next instruction does, decided from the state alone.
#[derive(Clone, Copy, Debug, PartialEq, Eq, Structural)]
pub enum Effect {
    /// No frame is active.
    Halt,
    /// The instruction stops the program.
    Fault(Fault),
    /// The instruction takes `dropped` values off the stack, pushes one if
    /// `pushed` holds one, and is `width` bytes long.
    Replace { width: usize, dropped: usize, pushed: Option<Value> },
    /// `print`: takes the value off the stack and has the host write it.
    Show { value: Value },
    /// Writes the value into a stack slot.
    Store { slot: usize, value: Value },
    /// Writes the value into a closed upvalue.
    StoreClosed { upvalue: usize, value: Value },
    /// Defines a global and takes the value off the stack.
    Define { key: Key, value: Value },
    /// Assigns to an existing global.
    Assign { key: Key, value: Value },
    /// Continues at another position in the code.
    Goto { ip: usize },
    /// Has the host compute on two numbers.
    Ask { op: ArithOp, lhs: u64, rhs: u64 },
    /// Has the host call one of its functions with the top `argc` values.
    AskNative { id: u32, argc: usize },
    /// Joins the strings at two heap positions.
    Concat { left: usize, right: usize },
    /// Calls a closure with the top `argc` values.
    Enter { closure: usize, function: usize, argc: usize },
    /// Makes a closure of the function at a heap position, capturing `count`
    /// variables.
    MakeClosure { function: usize, count: usize },
    /// Closes the upvalue of the top slot and takes the value off the stack.
    CloseTop,
    /// Returns the value from the active frame.
    Leave { value: Value },
}

/// The machine.
pub struct VM {
    pub stack: Vec<Value>,
    pub frames: Vec<CallFrame>,
    pub globals: Table,
    pub strings: Table,
    pub heap: ObjList,
    pub open_upvalues: Vec<usize>,
}

/// A frame refers to a closure of the heap and to that closure's function.
pub open spec fn frame_ok(heap: Seq<Obj>, f: CallFrame) -> bool {
    &&& f.closure < heap.len()
    &&& heap[f.closure as int] is Closure
    &&& heap[f.closure as int]->Closure_0.function == f.function
}

/// The stack slot of the open upvalue at a heap position.
pub open spec fn slot_of(heap: Seq<Obj>, at: usize) -> int {
    heap[at as int]->Upvalue_0->Open_0 as int
}

/// Whether an open upvalue lies at the heap position.
pub open spec fn is_open(heap: Seq<Obj>, at: usize) -> bool {
    at < heap.len() && heap[at as int] is Upvalue && heap[at as int]->Upvalue_0 is Open
}

/// The list of open upvalues holds open upvalues of slots below `height`, in
/// strictly ascending order of their slots, so that the highest slot stands
/// last and no slot has two.
pub open spec fn open_ok(heap: Seq<Obj>, open: Seq<usize>, height: int) -> bool {
    &&& forall|i: int| 0 <= i < open.len() ==> is_open(heap, #[trigger] open[i]) && slot_of(heap, open[i]) < height
    &&& forall|i: int, j: int|
        0 <= i < j < open.len() ==> slot_of(heap, #[trigger] open[i]) < slot_of(heap, #[trigger] open[j])
}

/// The source line of the byte at position `at` of a function's code, or 0.
pub open spec fn line_in(heap: Seq<Obj>, function: usize, at: int) -> u32 {
    if function < heap.len() && heap[function as int] is Function && 0 <= at
        < heap[function as int]->Function_0.chunk.lines@.len() {
        heap[function as int]->Function_0.chunk.lines@[at]
    } else {
        0
    }
}

/// The heap position of a function's name, if it has one.
pub open spec fn name_in(heap: Seq<Obj>, function: usize) -> Option<usize> {
    if function < heap.len() && heap[function as int] is Function {
        heap[function as int]->Function_0.name
    } else {
        None
    }
}

/// The trace line of a frame. The innermost frame stands at the instruction
/// that failed, every other frame behind the call it is waiting for.
pub open spec fn trace_line(heap: Seq<Obj>, f: CallFrame, innermost: bool) -> TraceLine {
    TraceLine {
        line: line_in(heap, f.function, if innermost { f.ip as int } else { f.ip - 1 }),
        function: name_in(heap, f.function),
    }
}

/// The stack trace of the frames, the innermost first.
pub open spec fn trace_of(heap: Seq<Obj>, frames: Seq<CallFrame>) -> Seq<TraceLine> {
    Seq::new(frames.len(), |i: int| trace_line(heap, frames[frames.len() - 1 - i], i == 0))
}

/// The text that stands for a value that is no number.
pub open spec fn text_of(heap: Seq<Obj>, v: Value) -> Seq<u8> {
    match v {
        Value::Nil => seq![110u8, 105u8, 108u8] /* nil */,
        Value::Bool(true) => seq![116u8, 114u8, 117u8, 101u8] /* true */,
        Value::Bool(false) => seq![102u8, 97u8, 108u8, 115u8, 101u8] /* false */,
        Value::Number(_) => Seq::empty(),
        Value::Obj(at) => if at < heap.len() {
            object_text(heap, at)
        } else {
            Seq::empty()
        },
    }
}

/// The text that stands for a function: `<script>`, or `<fn ` and the name
/// and `>`.
pub open spec fn function_text(heap: Seq<Obj>, function: usize) -> Seq<u8> {
    if function < heap.len() && heap[function as int] is Function {
        match heap[function as int]->Function_0.name {
            None => seq![60u8, 115u8, 99u8, 114u8, 105u8, 112u8, 116u8, 62u8] /* <script> */,
            Some(name) => seq![60u8, 102u8, 110u8, 32u8] /* <fn  */ + (match text_at(heap, name as int) {
                Some(bytes) => bytes,
                None => Seq::empty(),
            }) + seq![62u8] /* > */,
        }
    } else {
        Seq::empty()
    }
}

/// The text that stands for the object at a heap position.
pub open spec fn object_text(heap: Seq<Obj>, at: usize) -> Seq<u8> {
    match heap[at as int] {
        Obj::String(s) => s.bytes@,
        Obj::Function(_) => function_text(heap, at),
        Obj::Closure(c) => function_text(heap, c.function),
        Obj::Native(_) => seq![
            60u8,
            110u8,
            97u8,
            116u8,
            105u8,
            118u8,
            101u8,
            32u8,
            102u8,
            110u8,
            62u8,
        ] /* <native fn> */,
        Obj::Upvalue(_) => seq![117u8, 112u8, 118u8, 97u8, 108u8, 117u8, 101u8] /* upvalue */,
    }
}

/// What `print` writes for a value.
pub open spec fn shown(heap: Seq<Obj>, v: Value) -> Shown {
    match v {
        Value::Number(bits) => Shown::Number(bits),
        _ => Shown::Text(text_of(heap, v)),
    }
}

/// The built-in native function is the machine's one global: the global's
/// name is the interned string `__dummy`, and its value refers to the native
/// function on the heap.
pub open spec fn built_in(vm: VM) -> bool {
    exists|key: Key| #[trigger]
        vm.strings@.contains_key(key) && text_at(vm.heap@, key.index as int) == Some(crate::native_fn::dummy_name())
            && vm.globals@.dom() == set![key] && vm.globals@[key] is Obj && vm.globals@[key]->Obj_0 < vm.heap@.len()
            && vm.heap@[vm.globals@[key]->Obj_0 as int] == Obj::Native(NativeFn::Dummy)
}

impl VM {
    /// What holds of the machine between any two steps.
    pub open spec fn wf(&self) -> bool {
        &&& self.globals.wf()
        &&& self.strings.wf()
        &&& interned(self.strings@, self.heap@)
        &&& self.stack@.len() <= STACK_MAX
        &&& self.frames@.len() <= FRAMES_MAX
        &&& heap_ok(self.heap@)
        &&& forall|i: int| 0 <= i < self.frames@.len() ==> frame_ok(self.heap@, #[trigger] self.frames@[i])
        &&& open_ok(self.heap@, self.open_upvalues@, self.stack@.len() as int)
    }

    /// The active frame.
    pub open spec fn frame(&self) -> CallFrame {
        self.frames@.last()
    }

    /// The function of the active frame.
    pub open spec fn function(&self) -> Function {
        self.heap@[self.frame().function as int]->Function_0
    }

    /// The closure of the active frame.
    pub open spec fn closure(&self) -> Closure {
        self.heap@[self.frame().closure as int]->Closure_0
    }

    /// The code of the active frame.
    pub open spec fn code(&self) -> Seq<u8> {
        self.function().chunk.code@
    }

    /// The constants of the active frame.
    pub open spec fn constants(&self) -> Seq<Value> {
        self.function().chunk.constants@
    }

    /// Whether the code holds `n` bytes from the next instruction on.
    pub open spec fn has_bytes(&self, n: int) -> bool {
        self.frame().ip + n <= self.code().len()
    }

    /// The byte `k` places after the start of the next instruction.
    pub open spec fn byte(&self, k: int) -> u8 {
        self.code()[self.frame().ip + k]
    }

    /// The number of values on the stack.
    pub open spec fn height(&self) -> int {
        self.stack@.len() as int
    }

    /// The value `d` places below the top of the stack.
    pub open spec fn peek(&self, d: int) -> Value {
        self.stack@[self.stack@.len() - 1 - d]
    }

    /// The highest slot that has an open upvalue, or -1.
    pub open spec fn top_slot(&self) -> int {
        if self.open_upvalues@.len() == 0 {
            -1
        } else {
            slot_of(self.heap@, self.open_upvalues@.last())
        }
    }

    /// Whether `n` values can be taken off the stack: it holds that many, and
    /// none of them has an open upvalue.
    pub open spec fn can_drop(&self, n: int) -> bool {
        0 <= n <= self.height() && self.top_slot() < self.height() - n
    }

    /// The jump distance that the two bytes after the instruction spell.
    pub open spec fn distance(&self) -> int {
        self.byte(1) * 256 + self.byte(2)
    }

    /// The frames with the active one moved to another position in its code.
    pub open spec fn moved_to(&self, ip: int) -> Seq<CallFrame> {
        self.frames@.update(
            self.frames@.len() - 1,
            CallFrame { closure: self.frame().closure, function: self.frame().function, ip: ip as usize, base: self.frame().base },
        )
    }

    /// The frames with the active one moved `width` bytes on.
    pub open spec fn moved(&self, width: int) -> Seq<CallFrame> {
        self.moved_to(self.frame().ip + width)
    }

    /// The key of the global that constant `k` names, if it names one.
    pub open spec fn global_key(&self, k: int) -> Option<Key> {
        if 0 <= k < self.constants().len() && self.constants()[k] is Obj && text_at(
            self.heap@,
            self.constants()[k]->Obj_0 as int,
        ) is Some {
            Some(key_at(self.heap@, self.constants()[k]->Obj_0 as int))
        } else {
            None
        }
    }

    /// The effect of an instruction that takes `dropped` values off the stack
    /// and then pushes one, if `pushed` holds one.
    pub open spec fn replace(&self, width: int, dropped: int, pushed: Option<Value>) -> Effect {
        if !self.can_drop(dropped) {
            Effect::Fault(Fault::BadCode)
        } else if pushed is Some && self.height() - dropped >= STACK_MAX {
            Effect::Fault(Fault::StackOverflow)
        } else {
            Effect::Replace { width: width as usize, dropped: dropped as usize, pushed }
        }
    }

    /// The effect of an instruction that compares two numbers.
    pub open spec fn compare(&self, greater: bool) -> Effect {
        if self.height() < 2 {
            Effect::Fault(Fault::BadCode)
        } else if !(self.peek(0) is Number) || !(self.peek(1) is Number) {
            Effect::Fault(Fault::OperandsMustBeNumbers)
        } else {
            let a = self.peek(1)->Number_0;
            let b = self.peek(0)->Number_0;
            self.replace(1, 2, Some(Value::Bool(if greater { number_less(b, a) } else { number_less(a, b) })))
        }
    }

    /// The effect of an instruction that the host computes on two numbers.
    pub open spec fn arithmetic(&self, op: ArithOp) -> Effect {
        if self.height() < 2 {
            Effect::Fault(Fault::BadCode)
        } else if self.peek(0) is Number && self.peek(1) is Number {
            if self.can_drop(2) {
                Effect::Ask { op, lhs: self.peek(1)->Number_0, rhs: self.peek(0)->Number_0 }
            } else {
                Effect::Fault(Fault::BadCode)
            }
        } else if op == ArithOp::Add && self.peek(0) is Obj && self.peek(1) is Obj && text_at(
            self.heap@,
            self.peek(0)->Obj_0 as int,
        ) is Some && text_at(self.heap@, self.peek(1)->Obj_0 as int) is Some {
            if !self.can_drop(2) {
                Effect::Fault(Fault::BadCode)
            } else if !self.strings.roomy() {
                Effect::Fault(Fault::OutOfMemory)
            } else {
                Effect::Concat { left: self.peek(1)->Obj_0, right: self.peek(0)->Obj_0 }
            }
        } else if op == ArithOp::Add {
            Effect::Fault(Fault::OperandsMustBeNumbersOrStrings)
        } else {
            Effect::Fault(Fault::OperandsMustBeNumbers)
        }
    }

    /// The effect of a jump of the given kind.
    pub open spec fn jump(&self, op: OpCode) -> Effect {
        if !self.has_bytes(3) {
            Effect::Fault(Fault::BadCode)
        } else if op == OpCode::Loop {
            if self.distance() > self.frame().ip + 3 {
                Effect::Fault(Fault::BadCode)
            } else {
                Effect::Goto { ip: (self.frame().ip + 3 - self.distance()) as usize }
            }
        } else if op == OpCode::JumpIfFalse && self.height() < 1 {
            Effect::Fault(Fault::BadCode)
        } else if op == OpCode::JumpIfFalse && !falsey(self.peek(0)) {
            Effect::Goto { ip: (self.frame().ip + 3) as usize }
        } else if self.frame().ip + 3 + self.distance() > self.code().len() {
            Effect::Fault(Fault::BadCode)
        } else {
            Effect::Goto { ip: (self.frame().ip + 3 + self.distance()) as usize }
        }
    }

    /// The effect of reading or writing the captured variable `i`.
    pub open spec fn through_upvalue(&self, write: bool) -> Effect {
        if !self.has_bytes(2) || self.byte(1) >= self.closure().upvalues@.len() {
            Effect::Fault(Fault::BadCode)
        } else {
            let at = self.closure().upvalues@[self.byte(1) as int];
            if write && self.height() < 1 {
                Effect::Fault(Fault::BadCode)
            } else {
                match self.heap@[at as int]->Upvalue_0 {
                    Upvalue::Open(slot) => if slot >= self.height() {
                        Effect::Fault(Fault::BadCode)
                    } else if write {
                        Effect::Store { slot, value: self.peek(0) }
                    } else {
                        self.replace(2, 0, Some(self.stack@[slot as int]))
                    },
                    Upvalue::Closed(value) => if write {
                        Effect::StoreClosed { upvalue: at, value: self.peek(0) }
                    } else {
                        self.replace(2, 0, Some(value))
                    },
                }
            }
        }
    }

    /// The effect of reading, defining or assigning the global that the
    /// instruction's constant names.
    pub open spec fn through_global(&self, op: OpCode) -> Effect {
        if !self.has_bytes(2) {
            Effect::Fault(Fault::BadCode)
        } else {
            match self.global_key(self.byte(1) as int) {
                None => Effect::Fault(Fault::BadCode),
                Some(key) => if op == OpCode::GetGlobal {
                    if self.globals@.contains_key(key) {
                        self.replace(2, 0, Some(self.globals@[key]))
                    } else {
                        Effect::Fault(Fault::UndefinedVariable(key.index))
                    }
                } else if self.height() < 1 {
                    Effect::Fault(Fault::BadCode)
                } else if op == OpCode::SetGlobal && !self.globals@.contains_key(key) {
                    Effect::Fault(Fault::UndefinedVariable(key.index))
                } else if !self.globals.roomy() {
                    Effect::Fault(Fault::OutOfMemory)
                } else if op == OpCode::SetGlobal {
                    Effect::Assign { key, value: self.peek(0) }
                } else if !self.can_drop(1) {
                    Effect::Fault(Fault::BadCode)
                } else {
                    Effect::Define { key, value: self.peek(0) }
                },
            }
        }
    }

    /// The effect of a call with the instruction's number of arguments.
    pub open spec fn call(&self) -> Effect {
        if !self.has_bytes(2) || self.height() < self.byte(1) + 1 {
            Effect::Fault(Fault::BadCode)
        } else {
            let argc = self.byte(1) as usize;
            match self.peek(argc as int) {
                Value::Obj(at) => if at >= self.heap@.len() {
                    Effect::Fault(Fault::NotCallable)
                } else {
                    match self.heap@[at as int] {
                        Obj::Closure(c) => if self.heap@[c.function as int]->Function_0.arity != argc {
                            Effect::Fault(
                                Fault::WrongArity {
                                    expected: self.heap@[c.function as int]->Function_0.arity,
                                    got: argc,
                                },
                            )
                        } else if self.frames@.len() >= FRAMES_MAX {
                            Effect::Fault(Fault::StackOverflow)
                        } else {
                            Effect::Enter { closure: at, function: c.function, argc }
                        },
                        Obj::Native(native) => match native.answer() {
                            Some(value) => self.replace(2, argc + 1, Some(value)),
                            None => if self.can_drop(argc + 1) {
                                Effect::AskNative { id: native->Host_0, argc }
                            } else {
                                Effect::Fault(Fault::BadCode)
                            },
                        },
                        _ => Effect::Fault(Fault::NotCallable),
                    }
                },
                _ => Effect::Fault(Fault::NotCallable),
            }
        }
    }

    /// Whether capture `j` of the closure being made is a local: the first
    /// byte of its pair says so.
    pub open spec fn captures_local(&self, j: int) -> bool {
        self.byte(2 + 2 * j) != 0
    }

    /// What capture `j` of the closure being made refers to: a slot of the
    /// active frame, or an upvalue of the active closure.
    pub open spec fn capture_index(&self, j: int) -> int {
        self.byte(3 + 2 * j) as int
    }

    /// Whether capture `j` refers to something that exists.
    pub open spec fn capture_ok(&self, j: int) -> bool {
        if self.captures_local(j) {
            self.frame().base + self.capture_index(j) < self.height()
        } else {
            self.capture_index(j) < self.closure().upvalues@.len()
        }
    }

    /// Whether the first `count` captures refer to something that exists.
    pub open spec fn captures_ok(&self, count: int) -> bool {
        forall|j: int| 0 <= j < count ==> self.capture_ok(j)
    }

    /// The effect of making a closure of the function that the instruction's
    /// constant holds.
    pub open spec fn make_closure(&self) -> Effect {
        if !self.has_bytes(2) || self.byte(1) >= self.constants().len() {
            Effect::Fault(Fault::BadCode)
        } else {
            match self.constants()[self.byte(1) as int] {
                Value::Obj(at) => if at < self.heap@.len() && self.heap@[at as int] is Function {
                    let count = self.heap@[at as int]->Function_0.upvalue_count;
                    if !self.has_bytes(2 + 2 * count) {
                        Effect::Fault(Fault::BadCode)
                    } else if !self.captures_ok(count as int) {
                        Effect::Fault(Fault::BadCode)
                    } else if self.height() >= STACK_MAX {
                        Effect::Fault(Fault::StackOverflow)
                    } else {
                        Effect::MakeClosure { function: at, count }
                    }
                } else {
                    Effect::Fault(Fault::BadCode)
                },
                _ => Effect::Fault(Fault::BadCode),
            }
        }
    }

    /// What the machine's state has to offer for an effect to be carried out.
    /// Every effect that `effect` decides on is admitted.
    pub open spec fn admits(&self, e: Effect) -> bool {
        match e {
            Effect::Halt => self.frames@.len() == 0,
            Effect::Fault(_) => true,
            Effect::Replace { width, dropped, pushed } => {
                &&& self.frames@.len() > 0
                &&& self.has_bytes(width as int)
                &&& self.can_drop(dropped as int)
                &&& pushed is Some ==> self.height() - dropped < STACK_MAX
            },
            Effect::Show { value } => self.frames@.len() > 0 && self.has_bytes(1) && self.can_drop(1),
            Effect::Store { slot, value } => self.frames@.len() > 0 && self.has_bytes(2) && slot < self.height(),
            Effect::StoreClosed { upvalue, value } => {
                &&& self.frames@.len() > 0
                &&& self.has_bytes(2)
                &&& upvalue < self.heap@.len()
                &&& self.heap@[upvalue as int] is Upvalue
                &&& self.heap@[upvalue as int]->Upvalue_0 is Closed
            },
            Effect::Define { key, value } => {
                &&& self.frames@.len() > 0
                &&& self.has_bytes(2)
                &&& self.can_drop(1)
                &&& self.globals.roomy()
            },
            Effect::Assign { key, value } => self.frames@.len() > 0 && self.has_bytes(2) && self.globals.roomy(),
            Effect::Goto { ip } => self.frames@.len() > 0,
            Effect::Ask { op, lhs, rhs } => self.frames@.len() > 0 && self.has_bytes(1) && self.can_drop(2),
            Effect::AskNative { id, argc } => self.frames@.len() > 0 && self.has_bytes(2) && self.can_drop(argc + 1),
            Effect::Concat { left, right } => {
                &&& self.frames@.len() > 0
                &&& self.has_bytes(1)
                &&& self.can_drop(2)
                &&& self.strings.roomy()
                &&& text_at(self.heap@, left as int) is Some
                &&& text_at(self.heap@, right as int) is Some
            },
            Effect::Enter { closure, function, argc } => {
                &&& self.frames@.len() > 0
                &&& self.frames@.len() < FRAMES_MAX
                &&& self.has_bytes(2)
                &&& argc + 1 <= self.height()
                &&& frame_ok(self.heap@, CallFrame { closure, function, ip: 0, base: 0 })
            },
            Effect::MakeClosure { function, count } => {
                &&& self.frames@.len() > 0
                &&& function < self.heap@.len()
                &&& self.heap@[function as int] is Function
                &&& self.heap@[function as int]->Function_0.upvalue_count == count
                &&& self.has_bytes(2 + 2 * count)
                &&& self.captures_ok(count as int)
                &&& self.height() < STACK_MAX
            },
            Effect::CloseTop => self.frames@.len() > 0 && self.has_bytes(1) && self.height() >= 1,
            Effect::Leave { value } => self.frames@.len() > 0 && self.height() >= 1 && self.frame().base
                < self.height(),
        }
    }

    /// What the next instruction does.
    pub open spec fn effect(&self) -> Effect {
        if self.frames@.len() == 0 {
            Effect::Halt
        } else if !self.has_bytes(1) {
            Effect::Fault(Fault::BadCode)
        } else {
            match op_of(self.byte(0)) {
                None => Effect::Fault(Fault::BadCode),
                Some(op) => match op {
                    OpCode::Constant => if !self.has_bytes(2) || self.byte(1) >= self.constants().len() {
                        Effect::Fault(Fault::BadCode)
                    } else {
                        self.replace(2, 0, Some(self.constants()[self.byte(1) as int]))
                    },
                    OpCode::Nil => self.replace(1, 0, Some(Value::Nil)),
                    OpCode::True => self.replace(1, 0, Some(Value::Bool(true))),
                    OpCode::False => self.replace(1, 0, Some(Value::Bool(false))),
                    OpCode::Pop => self.replace(1, 1, None),
                    OpCode::GetLocal => if !self.has_bytes(2) || self.frame().base + self.byte(1)
                        >= self.height() {
                        Effect::Fault(Fault::BadCode)
                    } else {
                        self.replace(2, 0, Some(self.stack@[self.frame().base + self.byte(1)]))
                    },
                    OpCode::SetLocal => if !self.has_bytes(2) || self.frame().base + self.byte(1)
                        >= self.height() {
                        Effect::Fault(Fault::BadCode)
                    } else {
                        Effect::Store { slot: (self.frame().base + self.byte(1)) as usize, value: self.peek(0) }
                    },
                    OpCode::GetGlobal => self.through_global(op),
                    OpCode::DefineGlobal => self.through_global(op),
                    OpCode::SetGlobal => self.through_global(op),
                    OpCode::GetUpvalue => self.through_upvalue(false),
                    OpCode::SetUpvalue => self.through_upvalue(true),
                    OpCode::Equal => if self.height() < 2 {
                        Effect::Fault(Fault::BadCode)
                    } else {
                        self.replace(1, 2, Some(Value::Bool(values_equal(self.peek(1), self.peek(0)))))
                    },
                    OpCode::Greater => self.compare(true),
                    OpCode::Less => self.compare(false),
                    OpCode::Add => self.arithmetic(ArithOp::Add),
                    OpCode::Subtract => self.arithmetic(ArithOp::Subtract),
                    OpCode::Multiply => self.arithmetic(ArithOp::Multiply),
                    OpCode::Divide => self.arithmetic(ArithOp::Divide),
                    OpCode::Not => if self.height() < 1 {
                        Effect::Fault(Fault::BadCode)
                    } else {
                        self.replace(1, 1, Some(Value::Bool(falsey(self.peek(0)))))
                    },
                    OpCode::Negate => if self.height() < 1 {
                        Effect::Fault(Fault::BadCode)
                    } else if !(self.peek(0) is Number) {
                        Effect::Fault(Fault::OperandMustBeNumber)
                    } else {
                        self.replace(1, 1, Some(Value::Number(negated(self.peek(0)->Number_0))))
                    },
                    OpCode::Print => if !self.can_drop(1) {
                        Effect::Fault(Fault::BadCode)
                    } else {
                        Effect::Show { value: self.peek(0) }
                    },
                    OpCode::Jump => self.jump(op),
                    OpCode::JumpIfFalse => self.jump(op),
                    OpCode::Loop => self.jump(op),
                    OpCode::Call => self.call(),
                    OpCode::Closure => self.make_closure(),
                    OpCode::CloseUpvalue => if self.height() < 1 {
                        Effect::Fault(Fault::BadCode)
                    } else {
                        Effect::CloseTop
                    },
                    OpCode::Return => if self.height() < 1 || self.frame().base >= self.height() {
                        Effect::Fault(Fault::BadCode)
                    } else {
                        Effect::Leave { value: self.peek(0) }
                    },
                },
            }
        }
    }
}

/// The tables, the heap and the open upvalues are what they were.
pub open spec fn kept(pre: VM, post: VM) -> bool {
    &&& post.globals == pre.globals
    &&& post.strings == pre.strings
    &&& post.heap == pre.heap
    &&& post.open_upvalues == pre.open_upvalues
}

/// The program was stopped for `fault`: the error carries the fault and the
/// stack trace, the stacks are reset, and nothing else has changed.
pub open spec fn faulted(pre: VM, post: VM, r: Result<Signal, InterpretError>, fault: Fault) -> bool {
    &&& r matches Err(InterpretError::RuntimeError(f, trace)) && f == fault && trace@ == trace_of(
        pre.heap@,
        pre.frames@,
    )
    &&& post.stack@.len() == 0
    &&& post.frames@.len() == 0
    &&& post.open_upvalues@.len() == 0
    &&& post.globals == pre.globals
    &&& post.strings == pre.strings
    &&& post.heap == pre.heap
}

/// How many upvalues at the end of the list have a slot at or above `from`.
pub open spec fn closing(heap: Seq<Obj>, open: Seq<usize>, from: int) -> nat
    decreases open.len(),
{
    if open.len() == 0 || slot_of(heap, open.last()) < from {
        0
    } else {
        1 + closing(heap, open.drop_last(), from)
    }
}

/// Every open upvalue of a slot at or above `from` was closed: it left the
/// list and holds the value that its slot held. Nothing else on the heap has
/// changed.
pub open spec fn closed_from(pre: VM, post: VM, from: int) -> bool {
    let open = pre.open_upvalues@;
    let k = closing(pre.heap@, open, from);
    &&& post.open_upvalues@ == open.take(open.len() - k)
    &&& post.heap@.len() == pre.heap@.len()
    &&& forall|i: int|
        open.len() - k <= i < open.len() ==> post.heap@[(#[trigger] open[i]) as int] == Obj::Upvalue(
            Upvalue::Closed(pre.stack@[slot_of(pre.heap@, open[i])]),
        )
    &&& forall|a: int|
        0 <= a < pre.heap@.len() && !(is_open(pre.heap@, a as usize) && slot_of(pre.heap@, a as usize) >= from)
            ==> #[trigger] post.heap@[a] == pre.heap@[a]
    &&& forall|a: int|
        0 <= a < pre.heap@.len() && !open.contains(a as usize) ==> #[trigger] post.heap@[a] == pre.heap@[a]
}

/// The two strings were joined: the result is the interned string with the
/// bytes of both, made if the interner did not know it, and it replaces the
/// two on the stack.
pub open spec fn joined(pre: VM, post: VM, lhs: usize, rhs: usize) -> bool {
    let bytes = text_at(pre.heap@, lhs as int)->Some_0 + text_at(pre.heap@, rhs as int)->Some_0;
    let h = pre.stack@.len() as int;
    &&& post.frames@ == pre.moved(1)
    &&& post.globals == pre.globals
    &&& post.open_upvalues == pre.open_upvalues
    &&& post.stack@.len() == h - 1
    &&& post.stack@.take(h - 2) == pre.stack@.take(h - 2)
    &&& post.stack@.last() is Obj
    &&& text_at(post.heap@, post.stack@.last()->Obj_0 as int) == Some(bytes)
    &&& post.strings@.contains_key(key_at(post.heap@, post.stack@.last()->Obj_0 as int))
    &&& if crate::obj::known(pre.strings@, pre.heap@, bytes) {
        &&& post.heap@ == pre.heap@
        &&& post.strings@ == pre.strings@
        &&& post.stack@.last()->Obj_0 == crate::obj::key_of(pre.strings@, pre.heap@, bytes).index
    } else {
        &&& post.heap@.len() == pre.heap@.len() + 1
        &&& post.heap@.take(pre.heap@.len() as int) == pre.heap@
        &&& post.stack@.last()->Obj_0 == pre.heap@.len()
        &&& post.strings@ == pre.strings@.insert(key_at(post.heap@, pre.heap@.len() as int), Value::Nil)
    }
}

/// A closure of `function` was made and pushed. Each of its `count` captures
/// is the open upvalue of the slot it names, which is in the list of open
/// upvalues, or the upvalue of the active closure it names. The heap has
/// grown by the closure and by the upvalues that had to be made; what was
/// open stays open.
pub open spec fn made_closure(pre: VM, post: VM, function: usize, count: usize) -> bool {
    let at = post.heap@.len() - 1;
    &&& post.globals == pre.globals
    &&& post.strings == pre.strings
    &&& post.frames@ == pre.moved(2 + 2 * count)
    &&& post.heap@.len() > pre.heap@.len()
    &&& post.heap@.take(pre.heap@.len() as int) == pre.heap@
    &&& post.heap@[at] is Closure
    &&& post.heap@[at]->Closure_0.function == function
    &&& post.heap@[at]->Closure_0.upvalues@.len() == count
    &&& post.stack@ == pre.stack@.push(Value::Obj(at as usize))
    &&& forall|a: usize|
        pre.heap@.len() <= a < at ==> (#[trigger] is_open(post.heap@, a)) && post.open_upvalues@.contains(a)
    &&& forall|j: int|
        0 <= j < count ==> {
            let u = #[trigger] post.heap@[at]->Closure_0.upvalues@[j];
            if pre.captures_local(j) {
                &&& is_open(post.heap@, u)
                &&& slot_of(post.heap@, u) == pre.frame().base + pre.capture_index(j)
                &&& post.open_upvalues@.contains(u)
            } else {
                u == pre.closure().upvalues@[pre.capture_index(j)]
            }
        }
    &&& forall|x: usize| pre.open_upvalues@.contains(x) ==> post.open_upvalues@.contains(x)
    &&& forall|x: usize| post.open_upvalues@.contains(x) ==> pre.open_upvalues@.contains(x) || x >= pre.heap@.len()
}

/// Whether `post` and `r` are what carrying out the effect in `pre` gives.
pub open spec fn performed(pre: VM, e: Effect, post: VM, r: Result<Signal, InterpretError>) -> bool {
    let h = pre.stack@.len() as int;
    match e {
        Effect::Halt => post == pre && r matches Ok(Signal::Done),
        Effect::Fault(fault) => faulted(pre, post, r, fault),
        Effect::Replace { width, dropped, pushed } => {
            &&& r matches Ok(Signal::Continue)
            &&& kept(pre, post)
            &&& post.frames@ == pre.moved(width as int)
            &&& post.stack@ == (match pushed {
                Some(v) => pre.stack@.take(h - dropped).push(v),
                None => pre.stack@.take(h - dropped),
            })
        },
        Effect::Show { value } => {
            &&& r matches Ok(Signal::Print(out)) && out@ == shown(pre.heap@, value)
            &&& kept(pre, post)
            &&& post.frames@ == pre.moved(1)
            &&& post.stack@ == pre.stack@.take(h - 1)
        },
        Effect::Store { slot, value } => {
            &&& r matches Ok(Signal::Continue)
            &&& kept(pre, post)
            &&& post.frames@ == pre.moved(2)
            &&& post.stack@ == pre.stack@.update(slot as int, value)
        },
        Effect::StoreClosed { upvalue, value } => {
            &&& r matches Ok(Signal::Continue)
            &&& post.globals == pre.globals
            &&& post.strings == pre.strings
            &&& post.open_upvalues == pre.open_upvalues
            &&& post.frames@ == pre.moved(2)
            &&& post.stack@ == pre.stack@
            &&& post.heap@ == pre.heap@.update(upvalue as int, Obj::Upvalue(Upvalue::Closed(value)))
        },
        Effect::Define { key, value } => {
            &&& r matches Ok(Signal::Continue)
            &&& post.strings == pre.strings
            &&& post.heap == pre.heap
            &&& post.open_upvalues == pre.open_upvalues
            &&& post.frames@ == pre.moved(2)
            &&& post.stack@ == pre.stack@.take(h - 1)
            &&& post.globals@ == pre.globals@.insert(key, value)
        },
        Effect::Assign { key, value } => {
            &&& r matches Ok(Signal::Continue)
            &&& post.strings == pre.strings
            &&& post.heap == pre.heap
            &&& post.open_upvalues == pre.open_upvalues
            &&& post.frames@ == pre.moved(2)
            &&& post.stack@ == pre.stack@
            &&& post.globals@ == pre.globals@.insert(key, value)
        },
        Effect::Goto { ip } => {
            &&& r matches Ok(Signal::Continue)
            &&& kept(pre, post)
            &&& post.frames@ == pre.moved_to(ip as int)
            &&& post.stack@ == pre.stack@
        },
        Effect::Ask { op, lhs, rhs } => {
            &&& r matches Ok(Signal::Arith(o, a, b)) && o == op && a == lhs && b == rhs
            &&& post == pre
        },
        Effect::AskNative { id, argc } => {
            &&& r matches Ok(Signal::Native(i, args)) && i == id && args@ == pre.stack@.subrange(h - argc, h)
            &&& post == pre
        },
        Effect::Concat { left, right } => r matches Ok(Signal::Continue) && joined(pre, post, left, right),
        Effect::Enter { closure, function, argc } => {
            &&& r matches Ok(Signal::Continue)
            &&& kept(pre, post)
            &&& post.stack@ == pre.stack@
            &&& post.frames@ == pre.moved(2).push(
                CallFrame { closure, function, ip: 0, base: (h - 1 - argc) as usize },
            )
        },
        Effect::MakeClosure { function, count } => r matches Ok(Signal::Continue) && made_closure(
            pre,
            post,
            function,
            count,
        ),
        Effect::CloseTop => {
            &&& r matches Ok(Signal::Continue)
            &&& post.globals == pre.globals
            &&& post.strings == pre.strings
            &&& post.frames@ == pre.moved(1)
            &&& post.stack@ == pre.stack@.take(h - 1)
            &&& closed_from(pre, post, h - 1)
        },
        Effect::Leave { value } => {
            &&& post.globals == pre.globals
            &&& post.strings == pre.strings
            &&& closed_from(pre, post, pre.frame().base as int)
            &&& post.frames@ == pre.frames@.drop_last()
            &&& if pre.frames@.len() == 1 {
                r matches Ok(Signal::Done) && post.stack@ == pre.stack@.take(pre.frame().base as int)
            } else {
                r matches Ok(Signal::Continue) && post.stack@ == pre.stack@.take(pre.frame().base as int).push(
                    value,
                )
            }
        },
    }
}

/// Whether one of the upvalues of the list from place `first` on lies at heap
/// position `a`.
pub open spec fn touched(open: Seq<usize>, first: int, a: int) -> bool {
    exists|i: int| first <= i < open.len() && #[trigger] open[i] == a
}

/// What the host's answer does to a machine that waits for one: the answer
/// replaces the operands of the arithmetic, or the native function and its
/// arguments. An answer that was not asked for, or one to arithmetic that is
/// no number, stops the program.
pub open spec fn answer_effect(pre: VM, value: Value) -> Effect {
    match pre.effect() {
        Effect::Ask { op, lhs, rhs } => if value is Number {
            Effect::Replace { width: 1, dropped: 2, pushed: Some(value) }
        } else {
            Effect::Fault(Fault::BadResume)
        },
        Effect::AskNative { id, argc } => Effect::Replace { width: 2, dropped: (argc + 1) as usize, pushed: Some(value) },
        _ => Effect::Fault(Fault::BadResume),
    }
}

/// The last `closing` upvalues of the list are those of a slot at or above
/// `from`.
proof fn lemma_closing(heap: Seq<Obj>, open: Seq<usize>, height: int, from: int)
    requires
        open_ok(heap, open, height),
    ensures
        closing(heap, open, from) <= open.len(),
        forall|i: int|
            open.len() - closing(heap, open, from) <= i < open.len() ==> slot_of(heap, #[trigger] open[i]) >= from,
        forall|i: int|
            0 <= i < open.len() - closing(heap, open, from) ==> slot_of(heap, #[trigger] open[i]) < from,
    decreases open.len(),
{
    if open.len() == 0 {
    } else if slot_of(heap, open.last()) < from {
        assert forall|i: int| 0 <= i < open.len() implies slot_of(heap, #[trigger] open[i]) < from by {
            if i < open.len() - 1 {
                assert(slot_of(heap, open[i]) < slot_of(heap, open[open.len() - 1]));
            }
        }
    } else {
        let rest = open.drop_last();
        assert(open_ok(heap, rest, height)) by {
            assert forall|i: int| 0 <= i < rest.len() implies is_open(heap, #[trigger] rest[i]) && slot_of(
                heap,
                rest[i],
            ) < height by {
                assert(rest[i] == open[i]);
            }
            assert forall|i: int, j: int| 0 <= i < j < rest.len() implies slot_of(heap, #[trigger] rest[i])
                < slot_of(heap, #[trigger] rest[j]) by {
                assert(rest[i] == open[i] && rest[j] == open[j]);
            }
        }
        lemma_closing(heap, rest, height, from);
        assert forall|i: int| open.len() - closing(heap, open, from) <= i < open.len() implies slot_of(
            heap,
            #[trigger] open[i],
        ) >= from by {
            if i < open.len() - 1 {
                assert(rest[i] == open[i]);
            }
        }
        assert forall|i: int| 0 <= i < open.len() - closing(heap, open, from) implies slot_of(
            heap,
            #[trigger] open[i],
        ) < from by {
            assert(rest[i] == open[i]);
        }
    }
}

/// A list of open upvalues that is in order stays so when the stack is cut
/// down to a height above its highest slot.
proof fn lemma_open_lower(heap: Seq<Obj>, open: Seq<usize>, height: int, lower: int)
    requires
        open_ok(heap, open, height),
        open.len() == 0 || slot_of(heap, open.last()) < lower,
    ensures
        open_ok(heap, open, lower),
{
    assert forall|i: int| 0 <= i < open.len() implies is_open(heap, #[trigger] open[i]) && slot_of(heap, open[i])
        < lower by {
        if i < open.len() - 1 {
            assert(slot_of(heap, open[i]) < slot_of(heap, open[open.len() - 1]));
        }
    }
}

impl VM {
    /// The byte `k` places after the start of the next instruction, if the
    /// code reaches that far.
    fn op_byte(&self, k: usize) -> (r: Option<u8>)
        requires
            self.wf(),
            self.frames@.len() > 0,
        ensures
            r == (if self.has_bytes(k + 1) { Some(self.byte(k as int)) } else { None::<u8> }),
    {
        let f: CallFrame = self.frames[self.frames.len() - 1];
        assert(frame_ok(self.heap@, f));
        assert(closure_ok(self.heap@, self.heap@[f.closure as int]->Closure_0));
        match &self.heap.objects[f.function] {
            Obj::Function(function) => {
                let length: usize = function.chunk.code.len();
                if f.ip < length && k < length - f.ip {
                    Some(function.chunk.code[f.ip + k])
                } else {
                    None
                }
            },
            _ => None,
        }
    }

    /// The constant with the given index, if there is one.
    fn constant(&self, k: u8) -> (r: Option<Value>)
        requires
            self.wf(),
            self.frames@.len() > 0,
        ensures
            r == (if k < self.constants().len() { Some(self.constants()[k as int]) } else { None::<Value> }),
    {
        let f: CallFrame = self.frames[self.frames.len() - 1];
        assert(frame_ok(self.heap@, f));
        assert(closure_ok(self.heap@, self.heap@[f.closure as int]->Closure_0));
        match &self.heap.objects[f.function] {
            Obj::Function(function) => {
                if (k as usize) < function.chunk.constants.len() {
                    Some(function.chunk.constants[k as usize])
                } else {
                    None
                }
            },
            _ => None,
        }
    }

    /// Whether `n` values can be taken off the stack.
    fn droppable(&self, n: usize) -> (r: bool)
        requires
            self.wf(),
        ensures
            r == self.can_drop(n as int),
    {
        if n > self.stack.len() {
            return false;
        }
        if self.open_upvalues.len() == 0 {
            return true;
        }
        let at: usize = self.open_upvalues[self.open_upvalues.len() - 1];
        assert(is_open(self.heap@, self.open_upvalues@[self.open_upvalues@.len() - 1]));
        match &self.heap.objects[at] {
            Obj::Upvalue(Upvalue::Open(slot)) => *slot < self.stack.len() - n,
            _ => false,
        }
    }

    /// Decides on an instruction that takes values off the stack and pushes one.
    fn decide_replace(&self, width: usize, dropped: usize, pushed: Option<Value>) -> (e: Effect)
        requires
            self.wf(),
            self.frames@.len() > 0,
            self.has_bytes(width as int),
        ensures
            e == self.replace(width as int, dropped as int, pushed),
            self.admits(e),
    {
        if !self.droppable(dropped) {
            Effect::Fault(Fault::BadCode)
        } else if pushed.is_some() && self.stack.len() - dropped >= STACK_MAX {
            Effect::Fault(Fault::StackOverflow)
        } else {
            Effect::Replace { width, dropped, pushed }
        }
    }

    /// Decides on `<` or `>`.
    fn decide_compare(&self, greater: bool) -> (e: Effect)
        requires
            self.wf(),
            self.frames@.len() > 0,
            self.has_bytes(1),
        ensures
            e == self.compare(greater),
            self.admits(e),
    {
        let height: usize = self.stack.len();
        if height < 2 {
            return Effect::Fault(Fault::BadCode);
        }
        match (self.stack[height - 2], self.stack[height - 1]) {
            (Value::Number(a), Value::Number(b)) => {
                let result: bool = if greater {
                    crate::value::number_lt(b, a)
                } else {
                    crate::value::number_lt(a, b)
                };
                self.decide_replace(1, 2, Some(Value::Bool(result)))
            },
            _ => Effect::Fault(Fault::OperandsMustBeNumbers),
        }
    }

    /// Decides on `+`, `-`, `*` or `/`.
    fn decide_arithmetic(&self, op: ArithOp) -> (e: Effect)
        requires
            self.wf(),
            self.frames@.len() > 0,
            self.has_bytes(1),
        ensures
            e == self.arithmetic(op),
            self.admits(e),
    {
        let height: usize = self.stack.len();
        if height < 2 {
            return Effect::Fault(Fault::BadCode);
        }
        let wrong: Effect = if op == ArithOp::Add {
            Effect::Fault(Fault::OperandsMustBeNumbersOrStrings)
        } else {
            Effect::Fault(Fault::OperandsMustBeNumbers)
        };
        match (self.stack[height - 2], self.stack[height - 1]) {
            (Value::Number(a), Value::Number(b)) => {
                if self.droppable(2) {
                    Effect::Ask { op, lhs: a, rhs: b }
                } else {
                    Effect::Fault(Fault::BadCode)
                }
            },
            (Value::Obj(a), Value::Obj(b)) => {
                if op == ArithOp::Add && self.heap.text(a).is_some() && self.heap.text(b).is_some() {
                    if !self.droppable(2) {
                        Effect::Fault(Fault::BadCode)
                    } else if !self.strings.has_room() {
                        Effect::Fault(Fault::OutOfMemory)
                    } else {
                        Effect::Concat { left: a, right: b }
                    }
                } else {
                    wrong
                }
            },
            _ => wrong,
        }
    }

    /// Decides on a jump.
    fn decide_jump(&self, op: OpCode) -> (e: Effect)
        requires
            self.wf(),
            self.frames@.len() > 0,
        ensures
            e == self.jump(op),
            self.admits(e),
    {
        let high: u8 = match self.op_byte(1) {
            Some(b) => b,
            None => {
                return Effect::Fault(Fault::BadCode);
            },
        };
        let low: u8 = match self.op_byte(2) {
            Some(b) => b,
            None => {
                return Effect::Fault(Fault::BadCode);
            },
        };
        let distance: usize = (high as usize) * 256 + (low as usize);
        let f: CallFrame = self.frames[self.frames.len() - 1];
        assert(frame_ok(self.heap@, f));
        assert(closure_ok(self.heap@, self.heap@[f.closure as int]->Closure_0));
        let length: usize = match &self.heap.objects[f.function] {
            Obj::Function(function) => function.chunk.code.len(),
            _ => 0,
        };
        let next: usize = f.ip + 3;
        if op == OpCode::Loop {
            if distance > next {
                Effect::Fault(Fault::BadCode)
            } else {
                Effect::Goto { ip: next - distance }
            }
        } else if op == OpCode::JumpIfFalse && self.stack.len() < 1 {
            Effect::Fault(Fault::BadCode)
        } else if op == OpCode::JumpIfFalse && !self.stack[self.stack.len() - 1].is_falsey() {
            Effect::Goto { ip: next }
        } else if distance > length - next {
            Effect::Fault(Fault::BadCode)
        } else {
            Effect::Goto { ip: next + distance }
        }
    }

    /// Decides on a read or write of a captured variable.
    fn decide_upvalue(&self, write: bool) -> (e: Effect)
        requires
            self.wf(),
            self.frames@.len() > 0,
        ensures
            e == self.through_upvalue(write),
            self.admits(e),
    {
        let index: u8 = match self.op_byte(1) {
            Some(b) => b,
            None => {
                return Effect::Fault(Fault::BadCode);
            },
        };
        let f: CallFrame = self.frames[self.frames.len() - 1];
        assert(frame_ok(self.heap@, f));
        assert(closure_ok(self.heap@, self.heap@[f.closure as int]->Closure_0));
        let at: usize = match &self.heap.objects[f.closure] {
            Obj::Closure(c) => {
                if (index as usize) < c.upvalues.len() {
                    c.upvalues[index as usize]
                } else {
                    return Effect::Fault(Fault::BadCode);
                }
            },
            _ => {
                return Effect::Fault(Fault::BadCode);
            },
        };
        let height: usize = self.stack.len();
        if write && height < 1 {
            return Effect::Fault(Fault::BadCode);
        }
        assert(self.closure().upvalues@[index as int] == at);
        match &self.heap.objects[at] {
            Obj::Upvalue(Upvalue::Open(slot)) => {
                if *slot >= height {
                    Effect::Fault(Fault::BadCode)
                } else if write {
                    Effect::Store { slot: *slot, value: self.stack[height - 1] }
                } else {
                    self.decide_replace(2, 0, Some(self.stack[*slot]))
                }
            },
            Obj::Upvalue(Upvalue::Closed(value)) => {
                if write {
                    Effect::StoreClosed { upvalue: at, value: self.stack[height - 1] }
                } else {
                    self.decide_replace(2, 0, Some(*value))
                }
            },
            _ => Effect::Fault(Fault::BadCode),
        }
    }

    /// Decides on a read, definition or assignment of a global.
    fn decide_global(&self, op: OpCode) -> (e: Effect)
        requires
            self.wf(),
            self.frames@.len() > 0,
        ensures
            e == self.through_global(op),
            self.admits(e),
    {
        let index: u8 = match self.op_byte(1) {
            Some(b) => b,
            None => {
                return Effect::Fault(Fault::BadCode);
            },
        };
        let key: Key = match self.constant(index) {
            Some(Value::Obj(at)) => match self.heap.key(at) {
                Some(key) => key,
                None => {
                    return Effect::Fault(Fault::BadCode);
                },
            },
            _ => {
                return Effect::Fault(Fault::BadCode);
            },
        };
        let height: usize = self.stack.len();
        let found: Option<Value> = self.globals.get(key);
        if op == OpCode::GetGlobal {
            match found {
                Some(value) => self.decide_replace(2, 0, Some(value)),
                None => Effect::Fault(Fault::UndefinedVariable(key.index)),
            }
        } else if height < 1 {
            Effect::Fault(Fault::BadCode)
        } else if op == OpCode::SetGlobal && found.is_none() {
            Effect::Fault(Fault::UndefinedVariable(key.index))
        } else if !self.globals.has_room() {
            Effect::Fault(Fault::OutOfMemory)
        } else if op == OpCode::SetGlobal {
            Effect::Assign { key, value: self.stack[height - 1] }
        } else if !self.droppable(1) {
            Effect::Fault(Fault::BadCode)
        } else {
            Effect::Define { key, value: self.stack[height - 1] }
        }
    }

    /// Decides on a call.
    fn decide_call(&self) -> (e: Effect)
        requires
            self.wf(),
            self.frames@.len() > 0,
        ensures
            e == self.call(),
            self.admits(e),
    {
        let count: u8 = match self.op_byte(1) {
            Some(b) => b,
            None => {
                return Effect::Fault(Fault::BadCode);
            },
        };
        let argc: usize = count as usize;
        let height: usize = self.stack.len();
        if height < argc + 1 {
            return Effect::Fault(Fault::BadCode);
        }
        match self.stack[height - 1 - argc] {
            Value::Obj(at) => {
                if at >= self.heap.objects.len() {
                    return Effect::Fault(Fault::NotCallable);
                }
                match &self.heap.objects[at] {
                    Obj::Closure(c) => {
                        assert(closure_ok(self.heap@, self.heap@[at as int]->Closure_0));
                        let arity: usize = match &self.heap.objects[c.function] {
                            Obj::Function(function) => function.arity,
                            _ => 0,
                        };
                        if arity != argc {
                            Effect::Fault(Fault::WrongArity { expected: arity, got: argc })
                        } else if self.frames.len() >= FRAMES_MAX {
                            Effect::Fault(Fault::StackOverflow)
                        } else {
                            Effect::Enter { closure: at, function: c.function, argc }
                        }
                    },
                    Obj::Native(native) => match native.call() {
                        Some(value) => self.decide_replace(2, argc + 1, Some(value)),
                        None => match native {
                            NativeFn::Host(id) => {
                                if self.droppable(argc + 1) {
                                    Effect::AskNative { id: *id, argc }
                                } else {
                                    Effect::Fault(Fault::BadCode)
                                }
                            },
                            NativeFn::Dummy => Effect::Fault(Fault::BadCode),
                        },
                    },
                    _ => Effect::Fault(Fault::NotCallable),
                }
            },
            _ => Effect::Fault(Fault::NotCallable),
        }
    }
}

/// Conditions go by truthiness: `!` gives true exactly for nil and false, and
/// a conditional jump is taken exactly when the value tested is nil or false.
/// Every other value, zero and the empty string included, counts as true.
pub proof fn conditions_go_by_truthiness(vm: VM)
    requires
        vm.wf(),
        vm.frames@.len() > 0,
        vm.height() >= 1,
    ensures
        falsey(vm.peek(0)) <==> (vm.peek(0) is Nil || vm.peek(0) == Value::Bool(false)),
        vm.has_bytes(1) && op_of(vm.byte(0)) == Some(OpCode::Not) && vm.can_drop(1) ==> vm.effect()
            == (Effect::Replace { width: 1, dropped: 1, pushed: Some(Value::Bool(falsey(vm.peek(0)))) }),
        vm.has_bytes(3) && op_of(vm.byte(0)) == Some(OpCode::JumpIfFalse) && vm.frame().ip + 3 + vm.distance()
            <= vm.code().len() ==> vm.effect() == (Effect::Goto {
            ip: (if falsey(vm.peek(0)) {
                vm.frame().ip + 3 + vm.distance()
            } else {
                vm.frame().ip + 3
            }) as usize,
        }),
{
}

/// An operand that is no number stops `-`, `*`, `/`, `<`, `>` and the
/// negation with a fault, and the instruction changes nothing but the stacks,
/// which the fault resets: the globals, the heap and the interner are as they
/// were.
pub proof fn arithmetic_needs_numbers(vm: VM, post: VM, r: Result<Signal, InterpretError>)
    requires
        vm.wf(),
        vm.frames@.len() > 0,
        vm.has_bytes(1),
        performed(vm, vm.effect(), post, r),
        ({
            let op = op_of(vm.byte(0));
            ||| op == Some(OpCode::Negate) && vm.height() >= 1 && !(vm.peek(0) is Number)
            ||| (op == Some(OpCode::Subtract) || op == Some(OpCode::Multiply) || op == Some(OpCode::Divide) || op
                == Some(OpCode::Less) || op == Some(OpCode::Greater)) && vm.height() >= 2 && (!(vm.peek(0)
                is Number) || !(vm.peek(1) is Number))
        }),
    ensures
        r matches Err(InterpretError::RuntimeError(fault, _)) && fault == (if op_of(vm.byte(0)) == Some(
            OpCode::Negate,
        ) {
            Fault::OperandMustBeNumber
        } else {
            Fault::OperandsMustBeNumbers
        }),
        post.globals == vm.globals,
        post.heap == vm.heap,
        post.strings == vm.strings,
{
}

/// While a captured variable is on the stack, its upvalue is the variable's
/// slot: a read through the upvalue gives what the slot holds, and a write
/// through it goes into the slot. So reads through the upvalue see writes to
/// the local and the other way round.
pub proof fn open_upvalue_is_its_slot(vm: VM)
    requires
        vm.wf(),
        vm.frames@.len() > 0,
        vm.has_bytes(2),
        vm.byte(1) < vm.closure().upvalues@.len(),
        vm.open_upvalues@.contains(vm.closure().upvalues@[vm.byte(1) as int]),
    ensures
        ({
            let at = vm.closure().upvalues@[vm.byte(1) as int];
            let slot = slot_of(vm.heap@, at);
            &&& is_open(vm.heap@, at)
            &&& 0 <= slot < vm.height()
            &&& op_of(vm.byte(0)) == Some(OpCode::GetUpvalue) && vm.height() < STACK_MAX ==> vm.effect()
                == (Effect::Replace { width: 2, dropped: 0, pushed: Some(vm.stack@[slot]) })
            &&& op_of(vm.byte(0)) == Some(OpCode::SetUpvalue) ==> vm.effect() == (Effect::Store {
                slot: slot as usize,
                value: vm.peek(0),
            })
        }),
{
    let at = vm.closure().upvalues@[vm.byte(1) as int];
    let i = choose|i: int| 0 <= i < vm.open_upvalues@.len() && vm.open_upvalues@[i] == at;
    assert(is_open(vm.heap@, vm.open_upvalues@[i]));
}

/// When the variable leaves the stack, its upvalue keeps the value that the
/// slot held last, and is open no more; what is read through a closed upvalue
/// is the value it holds, and a write goes into the upvalue.
pub proof fn closed_upvalue_keeps_value(pre: VM, post: VM, from: int, at: usize)
    requires
        pre.wf(),
        closed_from(pre, post, from),
        pre.open_upvalues@.contains(at),
        slot_of(pre.heap@, at) >= from,
    ensures
        post.heap@[at as int] == Obj::Upvalue(Upvalue::Closed(pre.stack@[slot_of(pre.heap@, at)])),
        !post.open_upvalues@.contains(at),
{
    let open = pre.open_upvalues@;
    let k = closing(pre.heap@, open, from);
    lemma_closing(pre.heap@, open, pre.stack@.len() as int, from);
    let i = choose|i: int| 0 <= i < open.len() && open[i] == at;
    assert(slot_of(pre.heap@, open[i]) >= from);
    assert(i >= open.len() - k);
    if post.open_upvalues@.contains(at) {
        let j = choose|j: int| 0 <= j < post.open_upvalues@.len() && post.open_upvalues@[j] == at;
        assert(open[j] == at);
        assert(slot_of(pre.heap@, open[j]) < from);
    }
}

/// What a closed upvalue holds is what a read through it gives.
pub proof fn closed_upvalue_is_read(vm: VM)
    requires
        vm.wf(),
        vm.frames@.len() > 0,
        vm.has_bytes(2),
        vm.byte(1) < vm.closure().upvalues@.len(),
        vm.heap@[vm.closure().upvalues@[vm.byte(1) as int] as int]->Upvalue_0 is Closed,
    ensures
        ({
            let at = vm.closure().upvalues@[vm.byte(1) as int];
            &&& op_of(vm.byte(0)) == Some(OpCode::GetUpvalue) && vm.height() < STACK_MAX ==> vm.effect()
                == (Effect::Replace {
                width: 2,
                dropped: 0,
                pushed: Some(vm.heap@[at as int]->Upvalue_0->Closed_0),
            })
            &&& op_of(vm.byte(0)) == Some(OpCode::SetUpvalue) && vm.height() >= 1 ==> vm.effect()
                == (Effect::StoreClosed { upvalue: at, value: vm.peek(0) })
        }),
{
}

/// A closure that captures a local shares the local's open upvalue with every
/// closure that captured it while it was on the stack; when the local has no
/// open upvalue, as in a new call of the enclosing function, the closure gets
/// an upvalue of its own, which no closure made before refers to.
pub proof fn captures_are_independent(pre: VM, post: VM, function: usize, count: usize, j: int)
    requires
        pre.wf(),
        post.wf(),
        pre.frames@.len() > 0,
        made_closure(pre, post, function, count),
        0 <= j < count,
        pre.captures_local(j),
    ensures
        ({
            let made = post.heap@[post.heap@.len() - 1]->Closure_0.upvalues@[j];
            let slot = pre.frame().base + pre.capture_index(j);
            &&& forall|i: int|
                0 <= i < pre.open_upvalues@.len() && slot_of(pre.heap@, #[trigger] pre.open_upvalues@[i]) == slot
                    ==> made == pre.open_upvalues@[i]
            &&& (forall|i: int|
                0 <= i < pre.open_upvalues@.len() ==> slot_of(pre.heap@, #[trigger] pre.open_upvalues@[i]) != slot)
                ==> made >= pre.heap@.len()
        }),
{
    let made = post.heap@[post.heap@.len() - 1]->Closure_0.upvalues@[j];
    let slot = pre.frame().base + pre.capture_index(j);
    assert(post.open_upvalues@.contains(made));
    let m = choose|m: int| 0 <= m < post.open_upvalues@.len() && post.open_upvalues@[m] == made;
    assert forall|i: int|
        0 <= i < pre.open_upvalues@.len() && slot_of(pre.heap@, #[trigger] pre.open_upvalues@[i]) == slot implies made
        == pre.open_upvalues@[i] by {
        let w = pre.open_upvalues@[i];
        assert(is_open(pre.heap@, w));
        assert(post.heap@.take(pre.heap@.len() as int)[w as int] == post.heap@[w as int]);
        assert(pre.open_upvalues@.contains(w));
        assert(post.open_upvalues@.contains(w));
        let n = choose|n: int| 0 <= n < post.open_upvalues@.len() && post.open_upvalues@[n] == w;
        if n < m {
            assert(slot_of(post.heap@, post.open_upvalues@[n]) < slot_of(post.heap@, post.open_upvalues@[m]));
        } else if m < n {
            assert(slot_of(post.heap@, post.open_upvalues@[m]) < slot_of(post.heap@, post.open_upvalues@[n]));
        }
    }
    if forall|i: int|
        0 <= i < pre.open_upvalues@.len() ==> slot_of(pre.heap@, #[trigger] pre.open_upvalues@[i]) != slot {
        if made < pre.heap@.len() {
            assert(pre.open_upvalues@.contains(made));
            let i = choose|i: int| 0 <= i < pre.open_upvalues@.len() && pre.open_upvalues@[i] == made;
            assert(post.heap@.take(pre.heap@.len() as int)[made as int] == post.heap@[made as int]);
            assert(slot_of(pre.heap@, pre.open_upvalues@[i]) == slot);
        }
    }
}

/// Appends the bytes of `more` to `text`.
fn append(text: &mut Vec<u8>, more: &[u8])
    ensures
        final(text)@ == old(text)@ + more@,
{
    let mut i: usize = 0;
    while i < more.len()
        invariant
            i <= more@.len(),
            text@ == old(text)@ + more@.take(i as int),
        decreases more@.len() - i,
    {
        text.push(more[i]);
        proof {
            assert(more@.take(i as int + 1) =~= more@.take(i as int).push(more@[i as int]));
            assert(text@ =~= old(text)@ + more@.take(i as int + 1));
        }
        i = i + 1;
    }
    proof {
        assert(more@.take(i as int) =~= more@);
    }
}

impl VM {
    /// The length of the active frame's code.
    fn code_len(&self) -> (n: usize)
        requires
            self.wf(),
            self.frames@.len() > 0,
        ensures
            n == self.code().len(),
    {
        let f: CallFrame = self.frames[self.frames.len() - 1];
        assert(frame_ok(self.heap@, f));
        assert(closure_ok(self.heap@, self.heap@[f.closure as int]->Closure_0));
        match &self.heap.objects[f.function] {
            Obj::Function(function) => function.chunk.code.len(),
            _ => 0,
        }
    }

    /// Moves the active frame to another position in its code.
    fn go(&mut self, ip: usize)
        requires
            old(self).wf(),
            old(self).frames@.len() > 0,
        ensures
            final(self).wf(),
            final(self).frames@ == old(self).moved_to(ip as int),
            final(self).stack == old(self).stack,
            kept(*old(self), *final(self)),
    {
        let last: usize = self.frames.len() - 1;
        self.frames[last].ip = ip;
        proof {
            assert(self.frames@ =~= old(self).moved_to(ip as int));
            assert forall|i: int| 0 <= i < self.frames@.len() implies frame_ok(
                self.heap@,
                #[trigger] self.frames@[i],
            ) by {
                assert(frame_ok(old(self).heap@, old(self).frames@[i]));
            }
        }
    }

    /// Moves the active frame `width` bytes on.
    fn advance(&mut self, width: usize)
        requires
            old(self).wf(),
            old(self).frames@.len() > 0,
            old(self).has_bytes(width as int),
        ensures
            final(self).wf(),
            final(self).frames@ == old(self).moved(width as int),
            final(self).stack == old(self).stack,
            kept(*old(self), *final(self)),
    {
        let limit: usize = self.code_len();
        let ip: usize = self.frames[self.frames.len() - 1].ip;
        assert(ip + width <= limit);
        self.go(ip + width);
    }

    /// The stack trace of the active frames, the innermost first.
    fn trace(&self) -> (lines: Vec<TraceLine>)
        ensures
            lines@ == trace_of(self.heap@, self.frames@),
    {
        let mut lines: Vec<TraceLine> = Vec::new();
        let count: usize = self.frames.len();
        let mut i: usize = 0;
        while i < count
            invariant
                count == self.frames@.len(),
                i <= count,
                lines@.len() == i,
                forall|j: int|
                    0 <= j < i ==> lines@[j] == trace_line(self.heap@, self.frames@[count - 1 - j], j == 0),
            decreases count - i,
        {
            let f: CallFrame = self.frames[count - 1 - i];
            let mut line: u32 = 0;
            let mut function: Option<usize> = None;
            if f.function < self.heap.objects.len() {
                match &self.heap.objects[f.function] {
                    Obj::Function(found) => {
                        function = found.name;
                        if i == 0 {
                            line = found.chunk.line_at(f.ip);
                        } else if f.ip > 0 {
                            line = found.chunk.line_at(f.ip - 1);
                        }
                    },
                    _ => {},
                }
            }
            lines.push(TraceLine { line, function });
            i = i + 1;
        }
        proof {
            assert(lines@ =~= trace_of(self.heap@, self.frames@));
        }
        lines
    }

    /// Stops the program: resets the stacks and reports the fault with the
    /// stack trace.
    fn fail(&mut self, fault: Fault) -> (r: Result<Signal, InterpretError>)
        requires
            old(self).wf(),
        ensures
            final(self).wf(),
            faulted(*old(self), *final(self), r, fault),
    {
        let lines: Vec<TraceLine> = self.trace();
        self.stack = Vec::new();
        self.frames = Vec::new();
        self.open_upvalues = Vec::new();
        Err(InterpretError::RuntimeError(fault, lines))
    }

    /// Takes `dropped` values off the stack.
    fn drop_values(&mut self, dropped: usize)
        requires
            old(self).wf(),
            old(self).can_drop(dropped as int),
        ensures
            final(self).wf(),
            final(self).stack@ == old(self).stack@.take(old(self).stack@.len() - dropped),
            final(self).frames == old(self).frames,
            kept(*old(self), *final(self)),
    {
        let height: usize = self.stack.len();
        proof {
            lemma_open_lower(self.heap@, self.open_upvalues@, height as int, height - dropped);
        }
        self.stack.truncate(height - dropped);
    }

    /// Takes values off the stack, pushes one, and moves on.
    fn do_replace(&mut self, width: usize, dropped: usize, pushed: Option<Value>) -> (r: Result<
        Signal,
        InterpretError,
    >)
        requires
            old(self).wf(),
            old(self).admits(Effect::Replace { width, dropped, pushed }),
        ensures
            final(self).wf(),
            performed(*old(self), Effect::Replace { width, dropped, pushed }, *final(self), r),
    {
        self.advance(width);
        self.drop_values(dropped);
        match pushed {
            Some(v) => {
                self.stack.push(v);
            },
            None => {},
        }
        Ok(Signal::Continue)
    }

    /// What `print` writes for a function.
    fn describe_function(&self, function: usize) -> (text: Vec<u8>)
        ensures
            text@ == function_text(self.heap@, function),
    {
        let mut text: Vec<u8> = Vec::new();
        if function >= self.heap.objects.len() {
            return text;
        }
        match &self.heap.objects[function] {
            Obj::Function(found) => match found.name {
                None => {
                    let word: [u8; 8] = [60u8, 115u8, 99u8, 114u8, 105u8, 112u8, 116u8, 62u8];
                    assert(word@ =~= seq![60u8, 115u8, 99u8, 114u8, 105u8, 112u8, 116u8, 62u8]);
                    append(&mut text, word.as_slice());
                    assert(text@ =~= word@);
                },
                Some(name) => {
                    let open: [u8; 4] = [60u8, 102u8, 110u8, 32u8];
                    assert(open@ =~= seq![60u8, 102u8, 110u8, 32u8]);
                    append(&mut text, open.as_slice());
                    match self.heap.text(name) {
                        Some(bytes) => {
                            append(&mut text, bytes);
                        },
                        None => {},
                    }
                    text.push(62u8);
                    assert(text@ =~= function_text(self.heap@, function));
                },
            },
            _ => {},
        }
        text
    }

    /// What `print` writes for a value.
    pub fn describe(&self, value: Value) -> (out: Output)
        ensures
            out@ == shown(self.heap@, value),
    {
        let mut text: Vec<u8> = Vec::new();
        match value {
            Value::Number(bits) => {
                return Output::Number(bits);
            },
            Value::Nil => {
                let word: [u8; 3] = [110u8, 105u8, 108u8];
                assert(word@ =~= seq![110u8, 105u8, 108u8]);
                append(&mut text, word.as_slice());
                assert(text@ =~= word@);
            },
            Value::Bool(true) => {
                let word: [u8; 4] = [116u8, 114u8, 117u8, 101u8];
                assert(word@ =~= seq![116u8, 114u8, 117u8, 101u8]);
                append(&mut text, word.as_slice());
                assert(text@ =~= word@);
            },
            Value::Bool(false) => {
                let word: [u8; 5] = [102u8, 97u8, 108u8, 115u8, 101u8];
                assert(word@ =~= seq![102u8, 97u8, 108u8, 115u8, 101u8]);
                append(&mut text, word.as_slice());
                assert(text@ =~= word@);
            },
            Value::Obj(at) => {
                if at < self.heap.objects.len() {
                    match &self.heap.objects[at] {
                        Obj::String(s) => {
                            append(&mut text, s.bytes.as_slice());
                            assert(text@ =~= s.bytes@);
                        },
                        Obj::Function(_) => {
                            text = self.describe_function(at);
                        },
                        Obj::Closure(c) => {
                            text = self.describe_function(c.function);
                        },
                        Obj::Native(_) => {
                            let word: [u8; 11] = [
                                60u8,
                                110u8,
                                97u8,
                                116u8,
                                105u8,
                                118u8,
                                101u8,
                                32u8,
                                102u8,
                                110u8,
                                62u8,
                            ];
                            assert(word@ =~= seq![
                                60u8,
                                110u8,
                                97u8,
                                116u8,
                                105u8,
                                118u8,
                                101u8,
                                32u8,
                                102u8,
                                110u8,
                                62u8,
                            ]);
                            append(&mut text, word.as_slice());
                            assert(text@ =~= word@);
                        },
                        Obj::Upvalue(_) => {
                            let word: [u8; 7] = [117u8, 112u8, 118u8, 97u8, 108u8, 117u8, 101u8];
                            assert(word@ =~= seq![117u8, 112u8, 118u8, 97u8, 108u8, 117u8, 101u8]);
                            append(&mut text, word.as_slice());
                            assert(text@ =~= word@);
                        },
                    }
                }
            },
        }
        Output::Text(text)
    }

    /// Takes the value off the stack and has the host write it.
    fn do_show(&mut self, value: Value) -> (r: Result<Signal, InterpretError>)
        requires
            old(self).wf(),
            old(self).admits(Effect::Show { value }),
        ensures
            final(self).wf(),
            performed(*old(self), Effect::Show { value }, *final(self), r),
    {
        let out: Output = self.describe(value);
        self.advance(1);
        self.drop_values(1);
        Ok(Signal::Print(out))
    }

    /// Writes the value into a stack slot.
    fn do_store(&mut self, slot: usize, value: Value) -> (r: Result<Signal, InterpretError>)
        requires
            old(self).wf(),
            old(self).admits(Effect::Store { slot, value }),
        ensures
            final(self).wf(),
            performed(*old(self), Effect::Store { slot, value }, *final(self), r),
    {
        self.advance(2);
        self.stack[slot] = value;
        Ok(Signal::Continue)
    }

    /// Writes the value into a closed upvalue.
    fn do_store_closed(&mut self, upvalue: usize, value: Value) -> (r: Result<Signal, InterpretError>)
        requires
            old(self).wf(),
            old(self).admits(Effect::StoreClosed { upvalue, value }),
        ensures
            final(self).wf(),
            performed(*old(self), Effect::StoreClosed { upvalue, value }, *final(self), r),
    {
        self.advance(2);
        let ghost before = self.heap@;
        self.heap.objects[upvalue] = Obj::Upvalue(Upvalue::Closed(value));
        proof {
            self.lemma_heap_changed(before);
            crate::obj::lemma_interned_extends(self.strings@, before, self.heap@);
            assert forall|i: int| 0 <= i < self.open_upvalues@.len() implies self.heap@[(
            #[trigger] self.open_upvalues@[i]) as int] == before[self.open_upvalues@[i] as int] by {
                assert(is_open(before, self.open_upvalues@[i]));
            }
        }
        Ok(Signal::Continue)
    }

    /// After a change of the heap that `extends` allows, the closures and the
    /// frames still refer to what they referred to, if every closure made
    /// since is well formed.
    proof fn lemma_heap_changed(&self, before: Seq<Obj>)
        requires
            heap_ok(before),
            extends(before, self.heap@),
            forall|i: int| 0 <= i < self.frames@.len() ==> frame_ok(before, #[trigger] self.frames@[i]),
            forall|i: int|
                before.len() <= i < self.heap@.len() && (#[trigger] self.heap@[i]) is Closure ==> closure_ok(
                    self.heap@,
                    self.heap@[i]->Closure_0,
                ),
        ensures
            heap_ok(self.heap@),
            forall|i: int| 0 <= i < self.frames@.len() ==> frame_ok(self.heap@, #[trigger] self.frames@[i]),
    {
        let after = self.heap@;
        assert forall|i: int| 0 <= i < after.len() && (#[trigger] after[i]) is Closure implies closure_ok(
            after,
            after[i]->Closure_0,
        ) by {
            if i < before.len() {
                assert(!(before[i] is Upvalue));
                assert(after[i] == before[i]);
                let c = before[i]->Closure_0;
                assert(closure_ok(before, c));
                assert(after[c.function as int] == before[c.function as int]);
                assert forall|j: int| 0 <= j < c.upvalues@.len() implies (#[trigger] c.upvalues@[j]) < after.len()
                    && after[c.upvalues@[j] as int] is Upvalue by {
                    assert(before[c.upvalues@[j] as int] is Upvalue);
                }
            }
        }
        assert forall|i: int| 0 <= i < self.frames@.len() implies frame_ok(after, #[trigger] self.frames@[i]) by {
            let f = self.frames@[i];
            assert(frame_ok(before, f));
            assert(after[f.closure as int] == before[f.closure as int]);
        }
    }

    /// Defines a global with the value on top of the stack.
    fn do_define(&mut self, key: Key, value: Value) -> (r: Result<Signal, InterpretError>)
        requires
            old(self).wf(),
            old(self).admits(Effect::Define { key, value }),
        ensures
            final(self).wf(),
            performed(*old(self), Effect::Define { key, value }, *final(self), r),
    {
        self.advance(2);
        self.drop_values(1);
        self.globals.set(key, value);
        Ok(Signal::Continue)
    }

    /// Assigns the value on top of the stack to a global.
    fn do_assign(&mut self, key: Key, value: Value) -> (r: Result<Signal, InterpretError>)
        requires
            old(self).wf(),
            old(self).admits(Effect::Assign { key, value }),
        ensures
            final(self).wf(),
            performed(*old(self), Effect::Assign { key, value }, *final(self), r),
    {
        self.advance(2);
        self.globals.set(key, value);
        Ok(Signal::Continue)
    }

    /// Continues at another position of the code.
    fn do_goto(&mut self, ip: usize) -> (r: Result<Signal, InterpretError>)
        requires
            old(self).wf(),
            old(self).admits(Effect::Goto { ip }),
        ensures
            final(self).wf(),
            performed(*old(self), Effect::Goto { ip }, *final(self), r),
    {
        self.go(ip);
        Ok(Signal::Continue)
    }

    /// Hands the arguments of a call to the host.
    fn do_ask_native(&self, id: u32, argc: usize) -> (r: Result<Signal, InterpretError>)
        requires
            self.wf(),
            self.admits(Effect::AskNative { id, argc }),
        ensures
            performed(*self, Effect::AskNative { id, argc }, *self, r),
    {
        let height: usize = self.stack.len();
        let mut args: Vec<Value> = Vec::new();
        let mut i: usize = height - argc;
        while i < height
            invariant
                height == self.stack@.len(),
                argc <= height,
                height - argc <= i <= height,
                args@ == self.stack@.subrange(height - argc, i as int),
            decreases height - i,
        {
            args.push(self.stack[i]);
            proof {
                assert(self.stack@.subrange(height - argc, i as int + 1) =~= self.stack@.subrange(
                    height - argc,
                    i as int,
                ).push(self.stack@[i as int]));
            }
            i = i + 1;
        }
        Ok(Signal::Native(id, args))
    }

    /// Pushes the frame of a called closure.
    fn do_enter(&mut self, closure: usize, function: usize, argc: usize) -> (r: Result<Signal, InterpretError>)
        requires
            old(self).wf(),
            old(self).admits(Effect::Enter { closure, function, argc }),
        ensures
            final(self).wf(),
            performed(*old(self), Effect::Enter { closure, function, argc }, *final(self), r),
    {
        self.advance(2);
        let base: usize = self.stack.len() - 1 - argc;
        self.frames.push(CallFrame { closure, function, ip: 0, base });
        proof {
            assert forall|i: int| 0 <= i < self.frames@.len() implies frame_ok(
                self.heap@,
                #[trigger] self.frames@[i],
            ) by {
                if i < self.frames@.len() - 1 {
                    assert(self.frames@[i] == old(self).moved(2)[i]);
                }
            }
        }
        Ok(Signal::Continue)
    }

    /// Replaces two strings on the stack by the string that joins them.
    fn do_concat(&mut self, lhs: usize, rhs: usize) -> (r: Result<Signal, InterpretError>)
        requires
            old(self).wf(),
            old(self).admits(Effect::Concat { left: lhs, right: rhs }),
        ensures
            final(self).wf(),
            performed(*old(self), Effect::Concat { left: lhs, right: rhs }, *final(self), r),
    {
        let mut bytes: Vec<u8> = Vec::new();
        match self.heap.text(lhs) {
            Some(text) => {
                append(&mut bytes, text);
            },
            None => {},
        }
        match self.heap.text(rhs) {
            Some(text) => {
                append(&mut bytes, text);
            },
            None => {},
        }
        assert(bytes@ =~= text_at(self.heap@, lhs as int)->Some_0 + text_at(self.heap@, rhs as int)->Some_0);
        self.advance(1);
        self.drop_values(2);
        let ghost before = self.heap@;
        let ghost middle = *self;
        let key: Key = ObjString::intern(&mut self.strings, &mut self.heap, bytes.as_slice());
        proof {
            if !crate::obj::known(middle.strings@, before, bytes@) {
                assert forall|i: int| 0 <= i < before.len() implies self.heap@[i] == #[trigger] before[i] by {
                    assert(self.heap@.take(before.len() as int)[i] == self.heap@[i]);
                }
            }
            assert(extends(before, self.heap@));
            self.lemma_heap_changed(before);
            assert forall|i: int| 0 <= i < self.open_upvalues@.len() implies is_open(
                self.heap@,
                #[trigger] self.open_upvalues@[i],
            ) && slot_of(self.heap@, self.open_upvalues@[i]) == slot_of(before, self.open_upvalues@[i]) by {
                assert(is_open(before, self.open_upvalues@[i]));
                if !crate::obj::known(middle.strings@, before, bytes@) {
                    assert(self.heap@[self.open_upvalues@[i] as int] == before[self.open_upvalues@[i] as int]);
                }
            }
        }
        self.stack.push(Value::Obj(key.index));
        proof {
            let h = old(self).stack@.len() as int;
            assert(self.stack@.take(h - 2) =~= old(self).stack@.take(h - 2));
        }
        Ok(Signal::Continue)
    }
}

impl VM {
    /// The slot of the `i`-th open upvalue of the list.
    fn open_slot(&self, i: usize) -> (slot: usize)
        requires
            self.wf(),
            i < self.open_upvalues@.len(),
        ensures
            slot == slot_of(self.heap@, self.open_upvalues@[i as int]),
            slot < self.stack@.len(),
    {
        let at: usize = self.open_upvalues[i];
        assert(is_open(self.heap@, self.open_upvalues@[i as int]));
        match &self.heap.objects[at] {
            Obj::Upvalue(Upvalue::Open(slot)) => *slot,
            _ => 0,
        }
    }

    /// Closes every open upvalue of a slot at or above `from`: moves the
    /// slot's value into the upvalue and takes the upvalue off the list.
    fn close_upvalues(&mut self, from: usize)
        requires
            old(self).wf(),
        ensures
            final(self).wf(),
            final(self).stack == old(self).stack,
            final(self).frames == old(self).frames,
            final(self).globals == old(self).globals,
            final(self).strings == old(self).strings,
            closed_from(*old(self), *final(self), from as int),
            final(self).top_slot() < from,
            extends(old(self).heap@, final(self).heap@),
    {
        let ghost pre = *self;
        let ghost open = self.open_upvalues@;
        let ghost n = open.len() as int;
        let ghost mut j: int = 0;
        proof {
            assert(open.take(n) =~= open);
        }
        loop
            invariant
                pre == *old(self),
                pre.wf(),
                open == pre.open_upvalues@,
                n == open.len(),
                self.stack == pre.stack,
                self.frames == pre.frames,
                self.globals == pre.globals,
                self.strings == pre.strings,
                self.heap@.len() == pre.heap@.len(),
                0 <= j <= n,
                self.open_upvalues@ == open.take(n - j),
                closing(pre.heap@, open, from as int) == j + closing(pre.heap@, self.open_upvalues@, from as int),
                forall|i: int|
                    n - j <= i < n ==> self.heap@[(#[trigger] open[i]) as int] == Obj::Upvalue(
                        Upvalue::Closed(pre.stack@[slot_of(pre.heap@, open[i])]),
                    ),
                forall|a: int|
                    0 <= a < pre.heap@.len() && !touched(open, n - j, a) ==> #[trigger] self.heap@[a]
                        == pre.heap@[a],
            ensures
                self.top_slot() < from,
                closing(pre.heap@, open, from as int) == j,
            decreases n - j,
        {
            let count: usize = self.open_upvalues.len();
            if count == 0 {
                break;
            }
            let at: usize = self.open_upvalues[count - 1];
            proof {
                assert(at == open[n - j - 1]);
                assert(is_open(pre.heap@, open[n - j - 1]));
                assert(!touched(open, n - j, at as int)) by {
                    if touched(open, n - j, at as int) {
                        let i = choose|i: int| n - j <= i < open.len() && #[trigger] open[i] == at as int;
                        assert(slot_of(pre.heap@, open[n - j - 1]) < slot_of(pre.heap@, open[i]));
                    }
                }
                assert(self.heap@[at as int] == pre.heap@[at as int]);
            }
            let slot: usize = match &self.heap.objects[at] {
                Obj::Upvalue(Upvalue::Open(slot)) => *slot,
                _ => 0,
            };
            if slot < from {
                proof {
                    assert(self.open_upvalues@.last() == at);
                }
                break;
            }
            let value: Value = self.stack[slot];
            let ghost before = self.heap@;
            self.heap.objects[at] = Obj::Upvalue(Upvalue::Closed(value));
            self.open_upvalues.pop();
            proof {
                assert(self.open_upvalues@ =~= open.take(n - j - 1));
                assert(open.take(n - j).drop_last() =~= open.take(n - j - 1));
                assert forall|i: int| n - j - 1 <= i < n implies self.heap@[(#[trigger] open[i]) as int]
                    == Obj::Upvalue(Upvalue::Closed(pre.stack@[slot_of(pre.heap@, open[i])])) by {
                    if i > n - j - 1 {
                        assert(slot_of(pre.heap@, open[n - j - 1]) < slot_of(pre.heap@, open[i]));
                        assert(open[i] != at);
                        assert(before[open[i] as int] == Obj::Upvalue(
                            Upvalue::Closed(pre.stack@[slot_of(pre.heap@, open[i])]),
                        ));
                    }
                }
                assert forall|a: int| 0 <= a < pre.heap@.len() && !touched(open, n - j - 1, a) implies (
                #[trigger] self.heap@[a]) == pre.heap@[a] by {
                    assert(open[n - j - 1] != a);
                    assert(!touched(open, n - j, a)) by {
                        if touched(open, n - j, a) {
                            let i = choose|i: int| n - j <= i < open.len() && #[trigger] open[i] == a;
                            assert(n - j - 1 <= i < open.len() && open[i] == a);
                        }
                    }
                    assert(before[a] == pre.heap@[a]);
                }
                j = j + 1;
            }
        }
        proof {
            let k = closing(pre.heap@, open, from as int);
            lemma_closing(pre.heap@, open, pre.stack@.len() as int, from as int);
            assert(extends(pre.heap@, self.heap@)) by {
                assert forall|i: int| 0 <= i < pre.heap@.len() implies if (#[trigger] pre.heap@[i]) is Upvalue {
                    self.heap@[i] is Upvalue
                } else {
                    self.heap@[i] == pre.heap@[i]
                } by {
                    if touched(open, n - k, i) {
                        let w = choose|w: int| n - k <= w < open.len() && #[trigger] open[w] == i;
                        assert(is_open(pre.heap@, open[w]));
                        assert(self.heap@[open[w] as int] is Upvalue);
                    }
                }
            }
            self.lemma_heap_changed(pre.heap@);
            crate::obj::lemma_interned_extends(self.strings@, pre.heap@, self.heap@);
            assert forall|a: int|
                0 <= a < pre.heap@.len() && !(is_open(pre.heap@, a as usize) && slot_of(pre.heap@, a as usize)
                    >= from) implies #[trigger] self.heap@[a] == pre.heap@[a] by {
                if touched(open, n - k, a) {
                    let w = choose|w: int| n - k <= w < open.len() && #[trigger] open[w] == a;
                    assert(is_open(pre.heap@, open[w]));
                    assert(slot_of(pre.heap@, open[w]) >= from);
                }
            }
            assert forall|a: int| 0 <= a < pre.heap@.len() && !open.contains(a as usize) implies (
            #[trigger] self.heap@[a]) == pre.heap@[a] by {
                if touched(open, n - k, a) {
                    let w = choose|w: int| n - k <= w < open.len() && #[trigger] open[w] == a;
                    assert(open[w] == a as usize);
                }
            }
            assert(open_ok(self.heap@, self.open_upvalues@, self.stack@.len() as int)) by {
                let now = self.open_upvalues@;
                assert forall|i: int| 0 <= i < now.len() implies self.heap@[(#[trigger] now[i]) as int]
                    == pre.heap@[now[i] as int] by {
                    assert(now[i] == open[i]);
                    assert(is_open(pre.heap@, open[i]));
                    if touched(open, n - k, now[i] as int) {
                        let w = choose|w: int| n - k <= w < open.len() && #[trigger] open[w] == now[i] as int;
                        assert(slot_of(pre.heap@, open[i]) < slot_of(pre.heap@, open[w]));
                    }
                }
                assert forall|i: int| 0 <= i < now.len() implies is_open(self.heap@, #[trigger] now[i])
                    && slot_of(self.heap@, now[i]) < self.stack@.len() by {
                    assert(now[i] == open[i]);
                    assert(is_open(pre.heap@, open[i]));
                }
                assert forall|i: int, l: int| 0 <= i < l < now.len() implies slot_of(self.heap@, #[trigger] now[i])
                    < slot_of(self.heap@, #[trigger] now[l]) by {
                    assert(now[i] == open[i] && now[l] == open[l]);
                    assert(slot_of(pre.heap@, open[i]) < slot_of(pre.heap@, open[l]));
                }
            }
        }
    }

    /// Closes the upvalue of the top slot and takes the value off the stack.
    fn do_close_top(&mut self) -> (r: Result<Signal, InterpretError>)
        requires
            old(self).wf(),
            old(self).admits(Effect::CloseTop),
        ensures
            final(self).wf(),
            performed(*old(self), Effect::CloseTop, *final(self), r),
    {
        self.advance(1);
        let height: usize = self.stack.len();
        self.close_upvalues(height - 1);
        self.drop_values(1);
        Ok(Signal::Continue)
    }

    /// Returns from the active frame.
    fn do_leave(&mut self, value: Value) -> (r: Result<Signal, InterpretError>)
        requires
            old(self).wf(),
            old(self).admits(Effect::Leave { value }),
        ensures
            final(self).wf(),
            performed(*old(self), Effect::Leave { value }, *final(self), r),
    {
        let base: usize = self.frames[self.frames.len() - 1].base;
        self.close_upvalues(base);
        let height: usize = self.stack.len();
        self.drop_values(height - base);
        self.frames.pop();
        proof {
            assert(self.frames@ =~= old(self).frames@.drop_last());
            assert forall|i: int| 0 <= i < self.frames@.len() implies frame_ok(
                self.heap@,
                #[trigger] self.frames@[i],
            ) by {
                assert(self.frames@[i] == old(self).frames@[i]);
            }
        }
        if self.frames.len() == 0 {
            Ok(Signal::Done)
        } else {
            self.stack.push(value);
            Ok(Signal::Continue)
        }
    }

    /// The open upvalue of the slot: the one of the list, or a new one, put
    /// into the list at its place.
    fn capture_upvalue(&mut self, slot: usize) -> (at: usize)
        requires
            old(self).wf(),
            slot < old(self).stack@.len(),
        ensures
            final(self).wf(),
            final(self).stack == old(self).stack,
            final(self).frames == old(self).frames,
            final(self).globals == old(self).globals,
            final(self).strings == old(self).strings,
            is_open(final(self).heap@, at),
            slot_of(final(self).heap@, at) == slot,
            final(self).open_upvalues@.contains(at),
            old(self).heap@.len() <= final(self).heap@.len() <= old(self).heap@.len() + 1,
            final(self).heap@.take(old(self).heap@.len() as int) == old(self).heap@,
            final(self).heap@.len() > old(self).heap@.len() ==> at == old(self).heap@.len(),
            final(self).heap@.len() == old(self).heap@.len() ==> final(self).open_upvalues == old(self).open_upvalues,
            forall|x: usize| old(self).open_upvalues@.contains(x) ==> final(self).open_upvalues@.contains(x),
            forall|x: usize|
                final(self).open_upvalues@.contains(x) ==> old(self).open_upvalues@.contains(x) || x == at,
            (exists|i: int|
                0 <= i < old(self).open_upvalues@.len() && slot_of(
                    old(self).heap@,
                    #[trigger] old(self).open_upvalues@[i],
                ) == slot) ==> final(self).heap@.len() == old(self).heap@.len(),
    {
        let count: usize = self.open_upvalues.len();
        let mut i: usize = count;
        while i > 0
            invariant
                *self == *old(self),
                self.wf(),
                count == self.open_upvalues@.len(),
                i <= count,
                forall|j: int| i <= j < count ==> slot_of(self.heap@, #[trigger] self.open_upvalues@[j]) > slot,
            ensures
                i == 0 || slot_of(self.heap@, self.open_upvalues@[i - 1]) < slot,
            decreases i,
        {
            let found: usize = self.open_slot(i - 1);
            if found == slot {
                return self.open_upvalues[i - 1];
            }
            if found < slot {
                break;
            }
            i = i - 1;
        }
        let ghost before = self.heap@;
        let ghost open = self.open_upvalues@;
        proof {
            assert forall|j: int| 0 <= j < i implies slot_of(before, #[trigger] open[j]) < slot by {
                if j < i - 1 {
                    assert(slot_of(before, open[j]) < slot_of(before, open[i - 1]));
                }
            }
            assert forall|j: int| 0 <= j < count implies slot_of(before, #[trigger] open[j]) != slot by {
                if j >= i {
                    assert(slot_of(before, open[j]) > slot);
                }
            }
        }
        let at: usize = self.heap.push(Obj::Upvalue(Upvalue::Open(slot)));
        self.open_upvalues.insert(i, at);
        proof {
            let after = self.heap@;
            let now = self.open_upvalues@;
            assert(after.take(before.len() as int) =~= before);
            assert(extends(before, after));
            self.lemma_heap_changed(before);
            crate::obj::lemma_interned_extends(self.strings@, before, after);
            assert(now.len() == count + 1);
            assert(now[i as int] == at);
            assert forall|j: int| 0 <= j < i implies now[j] == open[j] by {}
            assert forall|j: int| i < j < now.len() implies now[j] == open[j - 1] by {}
            assert forall|j: int| 0 <= j < now.len() implies is_open(after, #[trigger] now[j]) && slot_of(
                after,
                now[j],
            ) < self.stack@.len() by {
                if j < i {
                    assert(is_open(before, open[j]));
                } else if j > i {
                    assert(is_open(before, open[j - 1]));
                }
            }
            assert forall|j: int, l: int| 0 <= j < l < now.len() implies slot_of(after, #[trigger] now[j])
                < slot_of(after, #[trigger] now[l]) by {
                if j < i {
                    assert(is_open(before, open[j]));
                } else if j > i {
                    assert(is_open(before, open[j - 1]));
                }
                if l < i {
                    assert(is_open(before, open[l]));
                } else if l > i {
                    assert(is_open(before, open[l - 1]));
                }
            }
            assert forall|x: usize| open.contains(x) implies now.contains(x) by {
                let w = choose|w: int| 0 <= w < open.len() && open[w] == x;
                if w < i {
                    assert(now[w] == x);
                } else {
                    assert(now[w + 1] == x);
                }
            }
            assert forall|x: usize| now.contains(x) implies open.contains(x) || x == at by {
                let w = choose|w: int| 0 <= w < now.len() && now[w] == x;
                if w < i {
                    assert(open[w] == x);
                } else if w > i {
                    assert(open[w - 1] == x);
                }
            }
        }
        at
    }
}

impl VM {
    /// Decides on the making of a closure.
    #[verifier::loop_isolation(false)]
    fn decide_closure(&self) -> (e: Effect)
        requires
            self.wf(),
            self.frames@.len() > 0,
        ensures
            e == self.make_closure(),
            self.admits(e),
    {
        let index: u8 = match self.op_byte(1) {
            Some(b) => b,
            None => {
                return Effect::Fault(Fault::BadCode);
            },
        };
        let function: usize = match self.constant(index) {
            Some(Value::Obj(at)) => at,
            _ => {
                return Effect::Fault(Fault::BadCode);
            },
        };
        if function >= self.heap.objects.len() {
            return Effect::Fault(Fault::BadCode);
        }
        let count: usize = match &self.heap.objects[function] {
            Obj::Function(found) => found.upvalue_count,
            _ => {
                return Effect::Fault(Fault::BadCode);
            },
        };
        let f: CallFrame = self.frames[self.frames.len() - 1];
        let length: usize = self.code_len();
        if (length - f.ip - 2) / 2 < count {
            return Effect::Fault(Fault::BadCode);
        }
        assert(f.ip + 2 + 2 * count <= length);
        assert(frame_ok(self.heap@, f));
        let known: usize = match &self.heap.objects[f.closure] {
            Obj::Closure(c) => c.upvalues.len(),
            _ => 0,
        };
        let height: usize = self.stack.len();
        let mut j: usize = 0;
        while j < count
            invariant
                self.wf(),
                self.frames@.len() > 0,
                f == self.frame(),
                known == self.closure().upvalues@.len(),
                height == self.stack@.len(),
                j <= count,
                self.has_bytes(2 + 2 * count),
                forall|i: int| 0 <= i < j ==> self.capture_ok(i),
            decreases count - j,
        {
            let local: u8 = match self.op_byte(2 + 2 * j) {
                Some(b) => b,
                None => 0,
            };
            let place: usize = match self.op_byte(3 + 2 * j) {
                Some(b) => b as usize,
                None => 0,
            };
            let fine: bool = if local != 0 {
                place < height && f.base < height - place
            } else {
                place < known
            };
            if !fine {
                assert(!self.capture_ok(j as int));
                return Effect::Fault(Fault::BadCode);
            }
            j = j + 1;
        }
        if height >= STACK_MAX {
            Effect::Fault(Fault::StackOverflow)
        } else {
            Effect::MakeClosure { function, count }
        }
    }

    /// Decides what the next instruction does.
    pub fn decide(&self) -> (e: Effect)
        requires
            self.wf(),
        ensures
            e == self.effect(),
            self.admits(e),
    {
        if self.frames.len() == 0 {
            return Effect::Halt;
        }
        let first: u8 = match self.op_byte(0) {
            Some(b) => b,
            None => {
                return Effect::Fault(Fault::BadCode);
            },
        };
        let op: OpCode = match OpCode::from_byte(first) {
            Some(op) => op,
            None => {
                return Effect::Fault(Fault::BadCode);
            },
        };
        let height: usize = self.stack.len();
        let f: CallFrame = self.frames[self.frames.len() - 1];
        match op {
            OpCode::Constant => match self.op_byte(1) {
                Some(index) => match self.constant(index) {
                    Some(value) => self.decide_replace(2, 0, Some(value)),
                    None => Effect::Fault(Fault::BadCode),
                },
                None => Effect::Fault(Fault::BadCode),
            },
            OpCode::Nil => self.decide_replace(1, 0, Some(Value::Nil)),
            OpCode::True => self.decide_replace(1, 0, Some(Value::Bool(true))),
            OpCode::False => self.decide_replace(1, 0, Some(Value::Bool(false))),
            OpCode::Pop => self.decide_replace(1, 1, None),
            OpCode::GetLocal => match self.op_byte(1) {
                Some(slot) => {
                    if (slot as usize) < height && f.base < height - slot as usize {
                        self.decide_replace(2, 0, Some(self.stack[f.base + slot as usize]))
                    } else {
                        Effect::Fault(Fault::BadCode)
                    }
                },
                None => Effect::Fault(Fault::BadCode),
            },
            OpCode::SetLocal => match self.op_byte(1) {
                Some(slot) => {
                    if (slot as usize) < height && f.base < height - slot as usize {
                        Effect::Store { slot: f.base + slot as usize, value: self.stack[height - 1] }
                    } else {
                        Effect::Fault(Fault::BadCode)
                    }
                },
                None => Effect::Fault(Fault::BadCode),
            },
            OpCode::GetGlobal => self.decide_global(op),
            OpCode::DefineGlobal => self.decide_global(op),
            OpCode::SetGlobal => self.decide_global(op),
            OpCode::GetUpvalue => self.decide_upvalue(false),
            OpCode::SetUpvalue => self.decide_upvalue(true),
            OpCode::Equal => {
                if height < 2 {
                    Effect::Fault(Fault::BadCode)
                } else {
                    let same: bool = self.stack[height - 2].equals(&self.stack[height - 1]);
                    self.decide_replace(1, 2, Some(Value::Bool(same)))
                }
            },
            OpCode::Greater => self.decide_compare(true),
            OpCode::Less => self.decide_compare(false),
            OpCode::Add => self.decide_arithmetic(ArithOp::Add),
            OpCode::Subtract => self.decide_arithmetic(ArithOp::Subtract),
            OpCode::Multiply => self.decide_arithmetic(ArithOp::Multiply),
            OpCode::Divide => self.decide_arithmetic(ArithOp::Divide),
            OpCode::Not => {
                if height < 1 {
                    Effect::Fault(Fault::BadCode)
                } else {
                    self.decide_replace(1, 1, Some(Value::Bool(self.stack[height - 1].is_falsey())))
                }
            },
            OpCode::Negate => {
                if height < 1 {
                    Effect::Fault(Fault::BadCode)
                } else {
                    match self.stack[height - 1] {
                        Value::Number(bits) => self.decide_replace(
                            1,
                            1,
                            Some(Value::Number(crate::value::number_neg(bits))),
                        ),
                        _ => Effect::Fault(Fault::OperandMustBeNumber),
                    }
                }
            },
            OpCode::Print => {
                if !self.droppable(1) {
                    Effect::Fault(Fault::BadCode)
                } else {
                    Effect::Show { value: self.stack[height - 1] }
                }
            },
            OpCode::Jump => self.decide_jump(op),
            OpCode::JumpIfFalse => self.decide_jump(op),
            OpCode::Loop => self.decide_jump(op),
            OpCode::Call => self.decide_call(),
            OpCode::Closure => self.decide_closure(),
            OpCode::CloseUpvalue => {
                if height < 1 {
                    Effect::Fault(Fault::BadCode)
                } else {
                    Effect::CloseTop
                }
            },
            OpCode::Return => {
                if height < 1 || f.base >= height {
                    Effect::Fault(Fault::BadCode)
                } else {
                    Effect::Leave { value: self.stack[height - 1] }
                }
            },
        }
    }

    /// Makes a closure, capturing what the instruction names, and pushes it.
    fn do_make_closure(&mut self, function: usize, count: usize) -> (r: Result<Signal, InterpretError>)
        requires
            old(self).wf(),
            old(self).admits(Effect::MakeClosure { function, count }),
        ensures
            final(self).wf(),
            performed(*old(self), Effect::MakeClosure { function, count }, *final(self), r),
    {
        let ghost pre = *self;
        let f: CallFrame = self.frames[self.frames.len() - 1];
        let limit: usize = self.code_len();
        assert(f.ip + 2 + 2 * count <= limit);
        let mut upvalues: Vec<usize> = Vec::new();
        let mut j: usize = 0;
        proof {
            assert(self.heap@.take(pre.heap@.len() as int) =~= pre.heap@);
            assert(frame_ok(pre.heap@, pre.frame()));
            assert(closure_ok(pre.heap@, pre.closure()));
        }
        while j < count
            invariant
                pre == *old(self),
                pre.wf(),
                pre.admits(Effect::MakeClosure { function, count }),
                self.wf(),
                self.frames == pre.frames,
                self.stack == pre.stack,
                self.globals == pre.globals,
                self.strings == pre.strings,
                f == pre.frame(),
                self.heap@.len() >= pre.heap@.len(),
                self.heap@.take(pre.heap@.len() as int) == pre.heap@,
                j <= count,
                upvalues@.len() == j,
                2 + 2 * count <= usize::MAX,
                forall|a: usize|
                    pre.heap@.len() <= a < self.heap@.len() ==> (#[trigger] is_open(self.heap@, a))
                        && self.open_upvalues@.contains(a),
                forall|i: int|
                    0 <= i < j ==> (#[trigger] upvalues@[i]) < self.heap@.len() && self.heap@[upvalues@[i] as int]
                        is Upvalue,
                forall|i: int|
                    0 <= i < j ==> {
                        let u = #[trigger] upvalues@[i];
                        if pre.captures_local(i) {
                            &&& is_open(self.heap@, u)
                            &&& slot_of(self.heap@, u) == pre.frame().base + pre.capture_index(i)
                            &&& self.open_upvalues@.contains(u)
                        } else {
                            u == pre.closure().upvalues@[pre.capture_index(i)]
                        }
                    },
                forall|x: usize| pre.open_upvalues@.contains(x) ==> self.open_upvalues@.contains(x),
                forall|x: usize|
                    self.open_upvalues@.contains(x) ==> pre.open_upvalues@.contains(x) || x >= pre.heap@.len(),
            decreases count - j,
        {
            proof {
                assert(self.heap@[f.function as int] == pre.heap@[f.function as int]) by {
                    assert(self.heap@.take(pre.heap@.len() as int)[f.function as int] == self.heap@[f.function as int]);
                }
                assert(self.heap@[f.closure as int] == pre.heap@[f.closure as int]) by {
                    assert(self.heap@.take(pre.heap@.len() as int)[f.closure as int] == self.heap@[f.closure as int]);
                }
                assert(self.code() == pre.code());
                assert(pre.capture_ok(j as int));
            }
            let local: u8 = match self.op_byte(2 + 2 * j) {
                Some(b) => b,
                None => 0,
            };
            let place: usize = match self.op_byte(3 + 2 * j) {
                Some(b) => b as usize,
                None => 0,
            };
            let ghost before = self.heap@;
            let ghost was_open = self.open_upvalues@;
            let ghost earlier = upvalues@;
            assert(forall|a: usize|
                pre.heap@.len() <= a < before.len() ==> (#[trigger] is_open(before, a)) && was_open.contains(a));
            if local != 0 {
                let at: usize = self.capture_upvalue(f.base + place);
                upvalues.push(at);
                proof {
                    assert forall|i: int| 0 <= i < before.len() implies self.heap@[i] == #[trigger] before[i] by {
                        assert(self.heap@.take(before.len() as int)[i] == self.heap@[i]);
                    }
                }
            } else {
                let at: usize = match &self.heap.objects[f.closure] {
                    Obj::Closure(c) => c.upvalues[place],
                    _ => 0,
                };
                proof {
                    assert(pre.closure().upvalues@[place as int] == at);
                    assert(before[at as int] == pre.heap@[at as int]) by {
                        assert(before.take(pre.heap@.len() as int)[at as int] == before[at as int]);
                    }
                }
                upvalues.push(at);
            }
            proof {
                let after = self.heap@;
                assert(after.take(pre.heap@.len() as int) =~= pre.heap@) by {
                    assert forall|i: int| 0 <= i < pre.heap@.len() implies after[i] == pre.heap@[i] by {
                        assert(before.take(pre.heap@.len() as int)[i] == before[i]);
                    }
                }
                assert forall|a: usize| pre.heap@.len() <= a < after.len() implies (#[trigger] is_open(after, a))
                    && self.open_upvalues@.contains(a) by {
                    if a < before.len() {
                        assert(is_open(before, a));
                        assert(was_open.contains(a));
                        assert(after[a as int] == before[a as int]);
                    }
                }
                assert forall|i: int| 0 <= i < j + 1 implies (#[trigger] upvalues@[i]) < after.len()
                    && after[upvalues@[i] as int] is Upvalue by {
                    if i < j {
                        assert(upvalues@[i] == earlier[i]);
                    }
                }
                assert forall|i: int| 0 <= i < j + 1 implies {
                    let u = #[trigger] upvalues@[i];
                    if pre.captures_local(i) {
                        &&& is_open(after, u)
                        &&& slot_of(after, u) == pre.frame().base + pre.capture_index(i)
                        &&& self.open_upvalues@.contains(u)
                    } else {
                        u == pre.closure().upvalues@[pre.capture_index(i)]
                    }
                } by {
                    if i < j {
                        assert(upvalues@[i] == earlier[i]);
                        if pre.captures_local(i) {
                            assert(is_open(before, earlier[i]));
                            assert(was_open.contains(earlier[i]));
                        }
                    }
                }
            }
            j = j + 1;
        }
        let ghost before = self.heap@;
        let ghost captured = upvalues@;
        let at: usize = self.heap.push(Obj::Closure(Closure { function, upvalues }));
        proof {
            let after = self.heap@;
            assert(extends(before, after));
            assert forall|i: int| 0 <= i < before.len() implies after[i] == #[trigger] before[i] by {}
            assert(after[function as int] == pre.heap@[function as int]) by {
                assert(before.take(pre.heap@.len() as int)[function as int] == before[function as int]);
            }
            assert(closure_ok(after, after[at as int]->Closure_0));
            self.lemma_heap_changed(before);
            crate::obj::lemma_interned_extends(self.strings@, before, after);
            assert forall|i: int| 0 <= i < self.open_upvalues@.len() implies self.heap@[(
            #[trigger] self.open_upvalues@[i]) as int] == before[self.open_upvalues@[i] as int] by {
                assert(is_open(before, self.open_upvalues@[i]));
            }
            assert(after.take(pre.heap@.len() as int) =~= pre.heap@) by {
                assert forall|i: int| 0 <= i < pre.heap@.len() implies after[i] == pre.heap@[i] by {
                    assert(before.take(pre.heap@.len() as int)[i] == before[i]);
                }
            }
        }
        self.stack.push(Value::Obj(at));
        proof {
            assert(self.heap@[f.function as int] == pre.heap@[f.function as int]);
            assert(self.code() == pre.code());
        }
        let ghost opened = self.open_upvalues@;
        self.advance(2 + 2 * count);
        proof {
            let after = self.heap@;
            assert(self.frames@ == pre.moved(2 + 2 * count));
            assert(after.len() - 1 == at);
            assert(after[at as int]->Closure_0.upvalues@ == captured);
            assert forall|a: usize| pre.heap@.len() <= a < at implies (#[trigger] is_open(after, a))
                && self.open_upvalues@.contains(a) by {
                assert(is_open(before, a));
                assert(opened.contains(a));
                assert(after[a as int] == before[a as int]);
            }
            assert forall|j: int| 0 <= j < count implies {
                let u = #[trigger] after[at as int]->Closure_0.upvalues@[j];
                if pre.captures_local(j) {
                    &&& is_open(after, u)
                    &&& slot_of(after, u) == pre.frame().base + pre.capture_index(j)
                    &&& self.open_upvalues@.contains(u)
                } else {
                    u == pre.closure().upvalues@[pre.capture_index(j)]
                }
            } by {
                let u = captured[j];
                if pre.captures_local(j) {
                    assert(is_open(before, u));
                    assert(after[u as int] == before[u as int]);
                }
            }
            assert(made_closure(pre, *self, function, count));
        }
        Ok(Signal::Continue)
    }

    /// Carries out an effect that the state admits.
    fn perform(&mut self, e: Effect) -> (r: Result<Signal, InterpretError>)
        requires
            old(self).wf(),
            old(self).admits(e),
        ensures
            final(self).wf(),
            performed(*old(self), e, *final(self), r),
    {
        match e {
            Effect::Halt => Ok(Signal::Done),
            Effect::Fault(fault) => self.fail(fault),
            Effect::Replace { width, dropped, pushed } => self.do_replace(width, dropped, pushed),
            Effect::Show { value } => self.do_show(value),
            Effect::Store { slot, value } => self.do_store(slot, value),
            Effect::StoreClosed { upvalue, value } => self.do_store_closed(upvalue, value),
            Effect::Define { key, value } => self.do_define(key, value),
            Effect::Assign { key, value } => self.do_assign(key, value),
            Effect::Goto { ip } => self.do_goto(ip),
            Effect::Ask { op, lhs, rhs } => Ok(Signal::Arith(op, lhs, rhs)),
            Effect::AskNative { id, argc } => self.do_ask_native(id, argc),
            Effect::Concat { left, right } => self.do_concat(left, right),
            Effect::Enter { closure, function, argc } => self.do_enter(closure, function, argc),
            Effect::MakeClosure { function, count } => self.do_make_closure(function, count),
            Effect::CloseTop => self.do_close_top(),
            Effect::Leave { value } => self.do_leave(value),
        }
    }

    /// Runs the next instruction. An instruction that needs the host leaves
    /// the machine as it is and says what it needs; `resume` then completes
    /// it. A machine without an active frame is done.
    pub fn step(&mut self) -> (r: Result<Signal, InterpretError>)
        requires
            old(self).wf(),
        ensures
            final(self).wf(),
            performed(*old(self), old(self).effect(), *final(self), r),
    {
        let e: Effect = self.decide();
        self.perform(e)
    }

    /// Completes the instruction that asked the host for `value`.
    pub fn resume(&mut self, value: Value) -> (r: Result<Signal, InterpretError>)
        requires
            old(self).wf(),
        ensures
            final(self).wf(),
            performed(*old(self), answer_effect(*old(self), value), *final(self), r),
    {
        let e: Effect = self.decide();
        match e {
            Effect::Ask { op, lhs, rhs } => match value {
                Value::Number(_) => self.do_replace(1, 2, Some(value)),
                _ => self.fail(Fault::BadResume),
            },
            Effect::AskNative { id, argc } => self.do_replace(2, argc + 1, Some(value)),
            _ => self.fail(Fault::BadResume),
        }
    }

    /// Installs a native function as a global of the given name. Returns
    /// whether it did; it does not where a table cannot grow any further.
    fn install(&mut self, name: &[u8], native: NativeFn) -> (done: bool)
        requires
            old(self).wf(),
        ensures
            final(self).wf(),
            final(self).stack == old(self).stack,
            final(self).frames == old(self).frames,
            final(self).open_upvalues == old(self).open_upvalues,
            done == (old(self).strings.roomy() && old(self).globals.roomy()),
            !done ==> *final(self) == *old(self),
            forall|k: Key| old(self).strings@.contains_key(k) ==> final(self).strings@.contains_key(k),
            done ==> {
                let at = final(self).heap@.len() - 1;
                &&& extends(old(self).heap@, final(self).heap@)
                &&& forall|i: int| 0 <= i < old(self).heap@.len() ==> final(self).heap@[i] == old(self).heap@[i]
                &&& final(self).heap@[at] == Obj::Native(native)
                &&& exists|key: Key| #[trigger]
                    final(self).strings@.contains_key(key) && text_at(final(self).heap@, key.index as int) == Some(
                        name@,
                    ) && final(self).globals@ == old(self).globals@.insert(key, Value::Obj(at as usize))
            },
    {
        if !self.strings.has_room() || !self.globals.has_room() {
            return false;
        }
        let ghost before = self.heap@;
        let key: Key = ObjString::intern(&mut self.strings, &mut self.heap, name);
        let ghost middle = self.heap@;
        proof {
            if !crate::obj::known(old(self).strings@, before, name@) {
                assert forall|i: int| 0 <= i < before.len() implies middle[i] == #[trigger] before[i] by {
                    assert(middle.take(before.len() as int)[i] == middle[i]);
                }
            }
            assert(extends(before, middle));
            assert forall|i: int| 0 <= i < before.len() implies middle[i] == before[i] by {
                if !crate::obj::known(old(self).strings@, before, name@) {
                    assert(middle.take(before.len() as int)[i] == middle[i]);
                }
            }
        }
        let at: usize = self.heap.push(Obj::Native(native));
        proof {
            let after = self.heap@;
            assert(extends(middle, after));
            assert(extends(before, after));
            self.lemma_heap_changed(before);
            crate::obj::lemma_interned_extends(self.strings@, middle, after);
            assert forall|i: int| 0 <= i < self.open_upvalues@.len() implies self.heap@[(
            #[trigger] self.open_upvalues@[i]) as int] == before[self.open_upvalues@[i] as int] by {
                assert(is_open(before, self.open_upvalues@[i]));
            }
            assert(text_at(after, key.index as int) == Some(name@));
        }
        self.globals.set(key, Value::Obj(at));
        proof {
            assert(self.strings@.contains_key(key) && text_at(self.heap@, key.index as int) == Some(name@)
                && self.globals@ == old(self).globals@.insert(key, Value::Obj(at)));
        }
        true
    }

    /// Installs a function of the host as a global of the given name. A call
    /// of it makes `step` signal `Native` with the number given here. Returns
    /// whether it did; it does not where a table cannot grow any further.
    pub fn define_native(&mut self, name: &str, id: u32) -> (done: bool)
        requires
            old(self).wf(),
        ensures
            final(self).wf(),
            final(self).stack == old(self).stack,
            final(self).frames == old(self).frames,
            final(self).open_upvalues == old(self).open_upvalues,
            done == (old(self).strings.roomy() && old(self).globals.roomy()),
            !done ==> *final(self) == *old(self),
            forall|k: Key| old(self).strings@.contains_key(k) ==> final(self).strings@.contains_key(k),
            done ==> {
                let at = final(self).heap@.len() - 1;
                &&& extends(old(self).heap@, final(self).heap@)
                &&& forall|i: int| 0 <= i < old(self).heap@.len() ==> final(self).heap@[i] == old(self).heap@[i]
                &&& final(self).heap@[at] == Obj::Native(NativeFn::Host(id))
                &&& exists|key: Key| #[trigger]
                    final(self).strings@.contains_key(key) && text_at(final(self).heap@, key.index as int) == Some(
                        name.spec_bytes(),
                    ) && final(self).globals@ == old(self).globals@.insert(key, Value::Obj(at as usize))
            },
    {
        self.install(name.as_bytes(), NativeFn::Host(id))
    }

    /// A machine that is about to run the script: the function is put on the
    /// heap and wrapped in a closure, which lies in slot 0 of the stack under
    /// the one frame. The built-in native function is installed as a global.
    /// The script captures nothing, whatever the function says.
    pub fn new(function: Function, heap: ObjList, strings: Table) -> (vm: VM)
        requires
            strings.wf(),
            interned(strings@, heap@),
            heap_ok(heap@),
        ensures
            vm.wf(),
            extends(heap@, vm.heap@),
            forall|i: int| 0 <= i < heap@.len() ==> vm.heap@[i] == heap@[i],
            vm.frames@.len() == 1,
            vm.frame().ip == 0,
            vm.frame().base == 0,
            vm.stack@ == seq![Value::Obj(vm.frame().closure)],
            vm.open_upvalues@.len() == 0,
            vm.code() == function.chunk.code@,
            vm.constants() == function.chunk.constants@,
            vm.function().chunk == function.chunk,
            vm.function().name == function.name,
            vm.function().arity == function.arity,
            vm.function().upvalue_count == 0,
            vm.closure().upvalues@.len() == 0,
            forall|k: Key| strings@.contains_key(k) ==> vm.strings@.contains_key(k),
            !strings.roomy() ==> vm.globals@ == Map::<Key, Value>::empty() && vm.strings == strings,
            strings.roomy() ==> built_in(vm),
    {
        let mut script = function;
        script.upvalue_count = 0;
        let mut vm = VM {
            stack: Vec::new(),
            frames: Vec::new(),
            globals: Table::new(),
            strings,
            heap,
            open_upvalues: Vec::new(),
        };
        let name: Vec<u8> = crate::native_fn::dummy_name_bytes();
        let done: bool = vm.install(name.as_slice(), NativeFn::Dummy);
        let ghost before = vm.heap@;
        let ghost installed = vm.globals@;
        let ghost named = vm.strings@;
        let at: usize = vm.heap.push(Obj::Function(script));
        let closure: usize = vm.heap.push(Obj::Closure(Closure { function: at, upvalues: Vec::new() }));
        proof {
            let after = vm.heap@;
            assert(extends(before, after));
            assert(closure_ok(after, after[closure as int]->Closure_0));
            vm.lemma_heap_changed(before);
            crate::obj::lemma_interned_extends(vm.strings@, before, after);
        }
        vm.stack.push(Value::Obj(closure));
        vm.frames.push(CallFrame { closure, function: at, ip: 0, base: 0 });
        proof {
            assert(vm.stack@ =~= seq![Value::Obj(closure)]);
            assert(extends(heap@, vm.heap@));
            if done {
                let key = choose|key: Key| #[trigger]
                    named.contains_key(key) && text_at(before, key.index as int) == Some(name@) && installed
                        == Map::<Key, Value>::empty().insert(key, Value::Obj((before.len() - 1) as usize));
                assert(vm.heap@[key.index as int] == before[key.index as int]);
                assert(vm.heap@[before.len() - 1] == before[before.len() - 1]);
                assert(vm.globals@.dom() =~= set![key]);
                assert(vm.strings@.contains_key(key) && text_at(vm.heap@, key.index as int) == Some(
                    crate::native_fn::dummy_name(),
                ) && vm.globals@.dom() == set![key] && vm.globals@[key] is Obj && vm.globals@[key]->Obj_0
                    < vm.heap@.len() && vm.heap@[vm.globals@[key]->Obj_0 as int] == Obj::Native(NativeFn::Dummy));
                assert(built_in(vm));
            }
        }
        vm
    }

    /// The key of the interned string with the text's bytes; the string is
    /// made if the interner does not know it.
    pub fn get_string(&mut self, text: &str) -> (key: Key)
        requires
            old(self).wf(),
            old(self).strings.roomy(),
        ensures
            final(self).wf(),
            final(self).stack == old(self).stack,
            final(self).frames == old(self).frames,
            final(self).globals == old(self).globals,
            final(self).open_upvalues == old(self).open_upvalues,
            crate::obj::interning(
                old(self).strings@,
                old(self).heap@,
                text.spec_bytes(),
                key,
                final(self).strings@,
                final(self).heap@,
            ),
            final(self).strings.size() == old(self).strings.size() + (if crate::obj::known(
                old(self).strings@,
                old(self).heap@,
                text.spec_bytes(),
            ) {
                0int
            } else {
                1int
            }),
            final(self).strings.capacity() == crate::obj::slots_after(
                old(self).strings,
                crate::obj::known(old(self).strings@, old(self).heap@, text.spec_bytes()),
            ),
    {
        let ghost before = self.heap@;
        let key: Key = ObjString::copy_string(&mut self.strings, &mut self.heap, text);
        proof {
            let after = self.heap@;
            if !crate::obj::known(old(self).strings@, before, text.spec_bytes()) {
                assert forall|i: int| 0 <= i < before.len() implies after[i] == #[trigger] before[i] by {
                    assert(after.take(before.len() as int)[i] == after[i]);
                }
                assert(after[before.len() as int] is String);
            }
            assert(extends(before, after));
            self.lemma_heap_changed(before);
            assert forall|i: int| 0 <= i < self.open_upvalues@.len() implies self.heap@[(
            #[trigger] self.open_upvalues@[i]) as int] == before[self.open_upvalues@[i] as int] by {
                assert(is_open(before, self.open_upvalues@[i]));
            }
        }
        key
    }
}

impl Value {
    /// The bytes of the string that the value refers to, if it refers to one.
    pub fn as_bytes<'a>(&self, heap: &'a ObjList) -> (r: Option<&'a [u8]>)
        ensures
            match r {
                Some(bytes) => *self is Obj && text_at(heap@, self->Obj_0 as int) == Some(bytes@),
                None => !(*self is Obj) || text_at(heap@, self->Obj_0 as int) is None,
            },
    {
        match self {
            Value::Obj(at) => heap.text(*at),
            _ => None,
        }
    }
}

} // verus!
