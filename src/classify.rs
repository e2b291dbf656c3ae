use vstd::prelude::*;

use crate::flow::Flow;
use crate::image::Module;
use crate::insn::{first_explicit, get_first_operand, Instruction, Mnemonic, Operand, OperandType, Register};
use crate::resolve::{get_operand_xref, operand_xref};
use crate::smallflows::Flows;
use crate::VA;

verus! {

/// Software interrupt vector of the fast-fail dispatch, which never returns.
pub const INT_FAST_FAIL: u64 = 0x29;

/// Software interrupt vector of the assertion dispatch, which never returns.
pub const INT_ASSERTION: u64 = 0x2C;

/// Does control continue at the next instruction once this one is done?
pub open spec fn falls_through(insn: Instruction) -> bool {
    match insn.mnemonic {
        Mnemonic::Jmp => false,
        Mnemonic::Int3 => false,
        Mnemonic::Int => !(insn.operands@.len() > 0 && (insn.operands@[0].imm.value == INT_FAST_FAIL
            || insn.operands@[0].imm.value == INT_ASSERTION)),
        m => !m.is_return(),
    }
}

/// A memory operand shaped like a switch-table dispatch, `[table + reg * scale]`.
pub open spec fn is_table_dispatch(op: Operand) -> bool {
    op.ty is Memory && op.mem.scale != 0 && op.mem.base is Absent && op.mem.disp.has_displacement
}

/// The resolved destination of the first explicit operand, if any.
pub open spec fn target_of(m: Module, va: VA, insn: Instruction) -> Option<VA> {
    match first_explicit(insn.operands@) {
        Some(op) => operand_xref(m, va, insn.length, op),
        None => None,
    }
}

pub open spec fn call_flows(m: Module, va: VA, insn: Instruction) -> Seq<Flow> {
    match target_of(m, va, insn) {
        Some(d) => seq![Flow::Call(d)],
        None => seq![],
    }
}

pub open spec fn jmp_flows(m: Module, va: VA, insn: Instruction) -> Seq<Flow> {
    match first_explicit(insn.operands@) {
        Some(op) => if is_table_dispatch(op) {
            seq![]
        } else {
            match operand_xref(m, va, insn.length, op) {
                Some(d) => seq![Flow::UnconditionalJump(d)],
                None => seq![],
            }
        },
        None => seq![],
    }
}

pub open spec fn cjmp_flows(m: Module, va: VA, insn: Instruction) -> Seq<Flow> {
    match target_of(m, va, insn) {
        Some(d) => seq![Flow::ConditionalJump(d)],
        None => seq![],
    }
}

pub open spec fn cmov_flows(va: VA, insn: Instruction) -> Seq<Flow> {
    seq![Flow::ConditionalMove((va + insn.length) as VA)]
}

/// The edges an instruction gets from its operation, before the fallthrough.
pub open spec fn branch_flows(m: Module, va: VA, insn: Instruction) -> Seq<Flow> {
    let mn = insn.mnemonic;
    if mn is Call {
        call_flows(m, va, insn)
    } else if mn is Jmp {
        jmp_flows(m, va, insn)
    } else if mn.is_conditional_jump() {
        cjmp_flows(m, va, insn)
    } else if mn.is_conditional_move() {
        cmov_flows(va, insn)
    } else {
        seq![]
    }
}

/// All outgoing edges of the instruction at `va`.
pub open spec fn insn_flows(m: Module, va: VA, insn: Instruction) -> Seq<Flow> {
    if falls_through(insn) {
        branch_flows(m, va, insn).push(Flow::Fallthrough((va + insn.length) as VA))
    } else {
        branch_flows(m, va, insn)
    }
}

fn single(f: Flow) -> (r: Flows)
    ensures
        r@ == seq![f],
{
    let mut r = Flows::new();
    r.push(f);
    assert(r@ =~= seq![f]);
    r
}

/// Does the given instruction have a fallthrough flow?
///
/// A breakpoint is taken not to fall through: compilers place one after a
/// call that never returns.
pub fn does_insn_fallthrough(insn: &Instruction) -> (r: bool)
    ensures
        r == falls_through(*insn),
{
    match insn.mnemonic {
        Mnemonic::Jmp => false,
        Mnemonic::Ret => false,
        Mnemonic::Iret => false,
        Mnemonic::Iretd => false,
        Mnemonic::Iretq => false,
        Mnemonic::Int3 => false,
        Mnemonic::Int => {
            if insn.operands.len() == 0 {
                true
            } else {
                let v = insn.operands[0].imm.value;
                !(v == INT_FAST_FAIL || v == INT_ASSERTION)
            }
        },
        _ => true,
    }
}

/// Edges of a call: a `Call` edge to its resolved target.
pub fn get_call_insn_flow(module: &Module, va: VA, insn: &Instruction) -> (r: Flows)
    requires
        va + insn.length <= u64::MAX,
    ensures
        r@ == call_flows(*module, va, *insn),
{
    let op = match get_first_operand(insn) {
        Some(op) => op,
        None => return Flows::new(),
    };
    match get_operand_xref(module, va, insn, op) {
        Some(dst) => single(Flow::Call(dst)),
        None => Flows::new(),
    }
}

/// Edges of an unconditional jump: an `UnconditionalJump` edge to its
/// resolved target; none for a switch-table dispatch.
pub fn get_jmp_insn_flow(module: &Module, va: VA, insn: &Instruction) -> (r: Flows)
    requires
        va + insn.length <= u64::MAX,
    ensures
        r@ == jmp_flows(*module, va, *insn),
{
    let op = match get_first_operand(insn) {
        Some(op) => op,
        None => return Flows::new(),
    };
    if op.ty == OperandType::Memory && op.mem.scale != 0 && op.mem.base == Register::Absent
        && op.mem.disp.has_displacement {
        Flows::new()
    } else {
        match get_operand_xref(module, va, insn, op) {
            Some(dst) => single(Flow::UnconditionalJump(dst)),
            None => Flows::new(),
        }
    }
}

/// Edges of a conditional jump: a `ConditionalJump` edge to its resolved
/// target.
pub fn get_cjmp_insn_flow(module: &Module, va: VA, insn: &Instruction) -> (r: Flows)
    requires
        va + insn.length <= u64::MAX,
    ensures
        r@ == cjmp_flows(*module, va, *insn),
{
    let op = match get_first_operand(insn) {
        Some(op) => op,
        None => return Flows::new(),
    };
    match get_operand_xref(module, va, insn, op) {
        Some(dst) => single(Flow::ConditionalJump(dst)),
        None => Flows::new(),
    }
}

/// Edges of a conditional move: a `ConditionalMove` edge to the next
/// instruction.
pub fn get_cmov_insn_flow(va: VA, insn: &Instruction) -> (r: Flows)
    requires
        va + insn.length <= u64::MAX,
    ensures
        r@ == cmov_flows(va, *insn),
{
    let next = va + insn.length as u64;
    single(Flow::ConditionalMove(next))
}

/// All outgoing edges of the instruction at `va`, the fallthrough last.
pub fn get_insn_flow(module: &Module, va: VA, insn: &Instruction) -> (r: Flows)
    requires
        va + insn.length <= u64::MAX,
    ensures
        r@ == insn_flows(*module, va, *insn),
{
    let mut flows = match insn.mnemonic {
        Mnemonic::Call => get_call_insn_flow(module, va, insn),
        Mnemonic::Jmp => get_jmp_insn_flow(module, va, insn),
        Mnemonic::Ret | Mnemonic::Iret | Mnemonic::Iretd | Mnemonic::Iretq => Flows::new(),
        Mnemonic::Jb | Mnemonic::Jbe | Mnemonic::Jcxz | Mnemonic::Jecxz | Mnemonic::Jknzd
        | Mnemonic::Jkzd | Mnemonic::Jl | Mnemonic::Jle | Mnemonic::Jnb | Mnemonic::Jnbe
        | Mnemonic::Jnl | Mnemonic::Jnle | Mnemonic::Jno | Mnemonic::Jnp | Mnemonic::Jns
        | Mnemonic::Jnz | Mnemonic::Jo | Mnemonic::Jp | Mnemonic::Jrcxz | Mnemonic::Js
        | Mnemonic::Jz => get_cjmp_insn_flow(module, va, insn),
        Mnemonic::Cmovb | Mnemonic::Cmovbe | Mnemonic::Cmovl | Mnemonic::Cmovle
        | Mnemonic::Cmovnb | Mnemonic::Cmovnbe | Mnemonic::Cmovnl | Mnemonic::Cmovnle
        | Mnemonic::Cmovno | Mnemonic::Cmovnp | Mnemonic::Cmovns | Mnemonic::Cmovnz
        | Mnemonic::Cmovo | Mnemonic::Cmovp | Mnemonic::Cmovs | Mnemonic::Cmovz => get_cmov_insn_flow(
            va,
            insn,
        ),
        _ => Flows::new(),
    };
    if does_insn_fallthrough(insn) {
        flows.push(Flow::Fallthrough(va + insn.length as u64));
    }
    flows
}

} // verus!

verus! {

/// An instruction that does not fall through gets no fallthrough edge; any
/// other gets exactly one, as its last edge, to the address just past it.
pub proof fn lemma_fallthrough_edge(m: Module, va: VA, insn: Instruction)
    requires
        va + insn.length <= u64::MAX,
    ensures
        !falls_through(insn) ==> forall|i: int|
            0 <= i < insn_flows(m, va, insn).len() ==> !(insn_flows(m, va, insn)[i] is Fallthrough),
        falls_through(insn) ==> {
            let f = insn_flows(m, va, insn);
            &&& f.len() >= 1
            &&& f.last() == Flow::Fallthrough((va + insn.length) as VA)
            &&& forall|i: int| 0 <= i < f.len() - 1 ==> !(f[i] is Fallthrough)
        },
{
    let b = branch_flows(m, va, insn);
    assert(forall|i: int| 0 <= i < b.len() ==> !(b[i] is Fallthrough));
}

} // verus!
