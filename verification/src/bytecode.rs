//! The instruction set: fixed-shape operations addressing registers and
//! constant-pool slots by 8-bit index.

use vstd::prelude::*;

verus! {

/// One instruction of a compiled program.
#[derive(Clone, Copy, Debug, PartialEq, Eq, Structural)]
pub enum ByteCode {
    /// stack[dst] = Nil
    LoadNil(u8),
    /// stack[dst] = Boolean(b)
    LoadBool(u8, bool),
    /// stack[dst] = Integer(i), sign-extended
    LoadInt(u8, i16),
    /// stack[dst] = constants[k]
    LoadConst(u8, u8),
    /// stack[dst] = stack[src]
    Move(u8, u8),
    /// stack[dst] = globals[constants[k] as name], or Nil if absent
    GetGlobal(u8, u8),
    /// globals[constants[k_name] as name] = constants[k_val]
    SetGlobalConst(u8, u8),
    /// globals[constants[k_name] as name] = stack[src]
    SetGlobal(u8, u8),
    /// globals[constants[k_name] as name] = globals[constants[k_src] as name], or Nil
    SetGlobalGlobal(u8, u8),
    /// stack[base] must be callable; its arguments start at base + 1
    Call(u8, u8),
}

} // verus!
