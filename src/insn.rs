use vstd::prelude::*;

verus! {

/// The operations whose control flow the analysis distinguishes;
/// every other operation is `Other`.
#[derive(Debug, Clone, Copy, PartialEq, Eq, Structural)]
pub enum Mnemonic {
    Call,
    Jmp,
    Ret,
    Iret,
    Iretd,
    Iretq,
    Int3,
    Int,
    Jb,
    Jbe,
    Jcxz,
    Jecxz,
    Jknzd,
    Jkzd,
    Jl,
    Jle,
    Jnb,
    Jnbe,
    Jnl,
    Jnle,
    Jno,
    Jnp,
    Jns,
    Jnz,
    Jo,
    Jp,
    Jrcxz,
    Js,
    Jz,
    Cmovb,
    Cmovbe,
    Cmovl,
    Cmovle,
    Cmovnb,
    Cmovnbe,
    Cmovnl,
    Cmovnle,
    Cmovno,
    Cmovnp,
    Cmovns,
    Cmovnz,
    Cmovo,
    Cmovp,
    Cmovs,
    Cmovz,
    Other,
}

impl Mnemonic {
    pub open spec fn is_return(self) -> bool {
        self is Ret || self is Iret || self is Iretd || self is Iretq
    }

    pub open spec fn is_conditional_jump(self) -> bool {
        self is Jb || self is Jbe || self is Jcxz || self is Jecxz || self is Jknzd || self is Jkzd
            || self is Jl || self is Jle || self is Jnb || self is Jnbe || self is Jnl
            || self is Jnle || self is Jno || self is Jnp || self is Jns || self is Jnz
            || self is Jo || self is Jp || self is Jrcxz || self is Js || self is Jz
    }

    pub open spec fn is_conditional_move(self) -> bool {
        self is Cmovb || self is Cmovbe || self is Cmovl || self is Cmovle || self is Cmovnb
            || self is Cmovnbe || self is Cmovnl || self is Cmovnle || self is Cmovno
            || self is Cmovnp || self is Cmovns || self is Cmovnz || self is Cmovo
            || self is Cmovp || self is Cmovs || self is Cmovz
    }
}

/// A register as far as operand resolution cares: absent, the instruction
/// pointer, or any other register.
#[derive(Debug, Clone, Copy, PartialEq, Eq, Structural)]
pub enum Register {
    Absent,
    Rip,
    Other,
}

#[derive(Debug, Clone, Copy, PartialEq, Eq, Structural)]
pub enum OperandType {
    Unused,
    Register,
    Memory,
    Pointer,
    Immediate,
}

#[derive(Debug, Clone, Copy, PartialEq, Eq, Structural)]
pub enum OperandVisibility {
    Explicit,
    Implicit,
    Hidden,
}

#[derive(Debug, Clone, Copy, PartialEq, Eq, Structural)]
pub struct Displacement {
    pub has_displacement: bool,
    pub displacement: i64,
}

#[derive(Debug, Clone, Copy, PartialEq, Eq, Structural)]
pub struct MemoryInfo {
    pub base: Register,
    pub index: Register,
    pub scale: u8,
    pub disp: Displacement,
}

#[derive(Debug, Clone, Copy, PartialEq, Eq, Structural)]
pub struct PointerInfo {
    pub segment: u16,
    pub offset: u32,
}

#[derive(Debug, Clone, Copy, PartialEq, Eq, Structural)]
pub struct ImmediateInfo {
    pub is_signed: bool,
    pub is_relative: bool,
    pub value: u64,
}

/// One decoded operand. Only the part selected by `ty` is meaningful.
#[derive(Debug, Clone, Copy, PartialEq, Eq, Structural)]
pub struct Operand {
    pub ty: OperandType,
    pub visibility: OperandVisibility,
    pub mem: MemoryInfo,
    pub ptr: PointerInfo,
    pub imm: ImmediateInfo,
}

/// One decoded instruction: its operation, encoded length and operands.
#[derive(Debug, Clone)]
pub struct Instruction {
    pub mnemonic: Mnemonic,
    pub length: u8,
    pub operands: Vec<Operand>,
}

/// The first operand that is written out in the instruction text.
pub open spec fn first_explicit(ops: Seq<Operand>) -> Option<Operand>
    decreases ops.len(),
{
    if ops.len() == 0 {
        None
    } else if ops[0].visibility is Explicit {
        Some(ops[0])
    } else {
        first_explicit(ops.drop_first())
    }
}

/// Fetch the first explicit operand of an instruction; implicit operands
/// play no part in the analysis.
pub fn get_first_operand(insn: &Instruction) -> (r: Option<&Operand>)
    ensures
        match r {
            Some(op) => first_explicit(insn.operands@) == Some(*op),
            None => first_explicit(insn.operands@) is None,
        },
{
    let n = insn.operands.len();
    let mut i: usize = 0;
    assert(insn.operands@.subrange(0, n as int) =~= insn.operands@);
    while i < n
        invariant
            n == insn.operands@.len(),
            i <= n,
            first_explicit(insn.operands@) == first_explicit(insn.operands@.subrange(i as int, n as int)),
        decreases n - i,
    {
        let ghost rest = insn.operands@.subrange(i as int, n as int);
        assert(rest.drop_first() =~= insn.operands@.subrange(i + 1, n as int));
        if insn.operands[i].visibility == OperandVisibility::Explicit {
            return Some(&insn.operands[i]);
        }
        i = i + 1;
    }
    None
}

} // verus!
