//! Functions of the host that programs can call.

use vstd::prelude::*;
use crate::value::Value;

verus! {

/// The pattern of the number 420.
pub const DUMMY_ANSWER: u64 = 0x407a_4000_0000_0000;

/// The name under which the built-in function is installed.
pub open spec fn dummy_name() -> Seq<u8> {
    seq![95u8, 95u8, 100u8, 117u8, 109u8, 109u8, 121u8]
}

/// A native function: the one that is built in, or one of the host's, known
/// to the machine by the number the host gave it.
#[derive(Clone, Copy, Debug, PartialEq, Eq, Structural)]
pub enum NativeFn {
    Dummy,
    Host(u32),
}

impl NativeFn {
    /// What a call of the function returns, where the machine itself knows:
    /// the built-in function takes anything and answers 420.
    pub open spec fn answer(self) -> Option<Value> {
        match self {
            NativeFn::Dummy => Some(Value::Number(DUMMY_ANSWER)),
            NativeFn::Host(_) => None,
        }
    }

    /// Calls the function if it is built in; `None` says that the host has to
    /// make the call.
    pub fn call(self) -> (r: Option<Value>)
        ensures
            r == self.answer(),
    {
        match self {
            NativeFn::Dummy => Some(Value::Number(DUMMY_ANSWER)),
            NativeFn::Host(_) => None,
        }
    }
}

/// The bytes of the built-in function's name, `__dummy`.
pub fn dummy_name_bytes() -> (name: Vec<u8>)
    ensures
        name@ == dummy_name(),
{
    let mut name: Vec<u8> = Vec::new();
    name.push(95u8);
    name.push(95u8);
    name.push(100u8);
    name.push(117u8);
    name.push(109u8);
    name.push(109u8);
    name.push(121u8);
    assert(name@ =~= dummy_name());
    name
}

} // verus!
