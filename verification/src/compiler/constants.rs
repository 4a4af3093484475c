use vstd::prelude::*;

verus! {

/// Data pointer register, any scratch register will do.
/// But this register can **NOT** be clobbered inside the function.
pub const DP: &'static str = "r10";

/// Register used to return values.
pub const RET_REG: &'static str = "rax";

/// First function parameter, the start of the memory.
pub const P1_REG: &'static str = "rdi";

/// Scratch register used for byte manipulation: the low 8 bits of `rax`.
/// Any scratch register is fine, except `DP`.
pub const TMP_REG: &'static str = "al";

} // verus!
