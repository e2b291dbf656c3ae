use vstd::prelude::*;

use crate::image::{Module, Permissions};
use crate::insn::{Instruction, Operand, OperandType, Register};
use crate::VA;

verus! {

/// `va + off`, when that lies within the address space.
pub open spec fn offset_va(va: int, off: int) -> Option<VA> {
    if 0 <= va + off <= u64::MAX {
        Some((va + off) as VA)
    } else {
        None
    }
}

pub open spec fn exec_perms() -> Permissions {
    Permissions { read: false, write: false, execute: true }
}

/// `dst`, if it is mapped executable.
pub open spec fn exec_target(m: Module, dst: Option<VA>) -> Option<VA> {
    match dst {
        Some(d) => if m.allows(d as int, exec_perms()) {
            Some(d)
        } else {
            None
        },
        None => None,
    }
}

/// The pointer stored at `ptr`, if it can be read and points at executable memory.
pub open spec fn deref_exec(m: Module, ptr: Option<VA>) -> Option<VA> {
    match ptr {
        Some(p) => exec_target(m, m.pointer_at(p as int)),
        None => None,
    }
}

/// The address just past an instruction of `len` bytes at `va`.
pub open spec fn next_va(va: VA, len: u8) -> int {
    va + len
}

/// Destination named by a memory operand.
pub open spec fn memory_xref(m: Module, va: VA, len: u8, op: Operand) -> Option<VA> {
    let mem = op.mem;
    if mem.base is Absent && mem.index is Absent && mem.scale == 0 && mem.disp.has_displacement {
        if mem.disp.displacement < 0 {
            None
        } else {
            deref_exec(m, Some(mem.disp.displacement as VA))
        }
    } else if mem.base is Rip && mem.index is Absent && mem.scale == 0
        && mem.disp.has_displacement {
        deref_exec(m, offset_va(next_va(va, len), mem.disp.displacement as int))
    } else {
        None
    }
}

/// Destination named by a far pointer: its offset; the segment is not modeled.
pub open spec fn pointer_xref(op: Operand) -> Option<VA> {
    Some(op.ptr.offset as VA)
}

/// Destination named by an immediate operand.
pub open spec fn immediate_xref(m: Module, va: VA, len: u8, op: Operand) -> Option<VA> {
    if op.imm.is_relative {
        let off: int = if op.imm.is_signed {
            op.imm.value as i64 as int
        } else {
            op.imm.value as int
        };
        exec_target(m, offset_va(next_va(va, len), off))
    } else {
        None
    }
}

/// Destination named by any operand.
pub open spec fn operand_xref(m: Module, va: VA, len: u8, op: Operand) -> Option<VA> {
    match op.ty {
        OperandType::Memory => memory_xref(m, va, len, op),
        OperandType::Pointer => pointer_xref(op),
        OperandType::Immediate => immediate_xref(m, va, len, op),
        OperandType::Register => None,
        OperandType::Unused => None,
    }
}

/// Add a signed offset to an address; `None` when the result would fall
/// below zero or past the top of the address space.
pub fn va_add_signed(va: VA, rva: i64) -> (r: Option<VA>)
    ensures
        r == offset_va(va as int, rva as int),
{
    if rva >= 0 {
        va.checked_add(rva as u64)
    } else {
        let magnitude: u64 = (-(rva + 1)) as u64 + 1;
        if magnitude > va {
            None
        } else {
            Some(va - magnitude)
        }
    }
}

fn exec_or_none(module: &Module, dst: Option<VA>) -> (r: Option<VA>)
    ensures
        r == exec_target(*module, dst),
{
    match dst {
        Some(d) => if module.probe_va(d, Permissions::execute_only()) {
            Some(d)
        } else {
            None
        },
        None => None,
    }
}

/// Resolve a memory operand: a plain dereference `[disp]` or an
/// instruction-pointer-relative dereference `[rip + disp]` whose target is
/// executable. Other shapes need emulation and give `None`.
pub fn get_memory_operand_xref(module: &Module, va: VA, insn: &Instruction, op: &Operand) -> (r:
    Option<VA>)
    requires
        va + insn.length <= u64::MAX,
    ensures
        r == memory_xref(*module, va, insn.length, *op),
{
    let mem = op.mem;
    if mem.base == Register::Absent && mem.index == Register::Absent && mem.scale == 0
        && mem.disp.has_displacement {
        if mem.disp.displacement < 0 {
            return None;
        }
        let ptr: VA = mem.disp.displacement as u64;
        match module.read_va_at_va(ptr) {
            Some(dst) => exec_or_none(module, Some(dst)),
            None => None,
        }
    } else if mem.base == Register::Rip && mem.index == Register::Absent && mem.scale == 0
        && mem.disp.has_displacement {
        let ptr = match va_add_signed(va + insn.length as u64, mem.disp.displacement) {
            Some(ptr) => ptr,
            None => return None,
        };
        match module.read_va_at_va(ptr) {
            Some(dst) => exec_or_none(module, Some(dst)),
            None => None,
        }
    } else {
        None
    }
}

/// Resolve a far pointer operand to its offset.
pub fn get_pointer_operand_xref(op: &Operand) -> (r: Option<VA>)
    ensures
        r == pointer_xref(*op),
{
    Some(op.ptr.offset as u64)
}

/// Resolve a relative immediate operand: the address past the instruction
/// plus the immediate, if that is executable. Absolute immediates give `None`.
pub fn get_immediate_operand_xref(module: &Module, va: VA, insn: &Instruction, op: &Operand) -> (r:
    Option<VA>)
    requires
        va + insn.length <= u64::MAX,
    ensures
        r == immediate_xref(*module, va, insn.length, *op),
{
    if op.imm.is_relative {
        let next: VA = va + insn.length as u64;
        let dst = if op.imm.is_signed {
            va_add_signed(next, op.imm.value as i64)
        } else {
            next.checked_add(op.imm.value)
        };
        exec_or_none(module, dst)
    } else {
        None
    }
}

/// Resolve any operand to the destination it names, if it can be known
/// without emulation.
pub fn get_operand_xref(module: &Module, va: VA, insn: &Instruction, op: &Operand) -> (r: Option<VA>)
    requires
        va + insn.length <= u64::MAX,
    ensures
        r == operand_xref(*module, va, insn.length, *op),
{
    match op.ty {
        OperandType::Memory => get_memory_operand_xref(module, va, insn, op),
        OperandType::Pointer => get_pointer_operand_xref(op),
        OperandType::Immediate => get_immediate_operand_xref(module, va, insn, op),
        OperandType::Register => None,
        OperandType::Unused => None,
    }
}

} // verus!

verus! {

/// A plain dereference with a negative displacement names no destination,
/// whatever the image holds.
pub proof fn lemma_negative_displacement(m: Module, va: VA, len: u8, op: Operand)
    requires
        op.mem.base is Absent,
        op.mem.index is Absent,
        op.mem.scale == 0,
        op.mem.disp.has_displacement,
        op.mem.disp.displacement < 0,
    ensures
        memory_xref(m, va, len, op) is None,
{
}

/// An instruction-pointer-relative operand whose pointer would lie below
/// address zero names no destination.
pub proof fn lemma_rip_relative_underflow(m: Module, va: VA, len: u8, op: Operand)
    requires
        op.mem.base is Rip,
        op.mem.index is Absent,
        op.mem.scale == 0,
        op.mem.disp.has_displacement,
        va + len + op.mem.disp.displacement < 0,
    ensures
        memory_xref(m, va, len, op) is None,
{
}

} // verus!
