use lancelot::classify::{
    does_insn_fallthrough, get_call_insn_flow, get_cjmp_insn_flow, get_cmov_insn_flow,
    get_insn_flow, get_jmp_insn_flow,
};
use lancelot::edges::{compute_predecessors, compute_successors};
use lancelot::explore::{Explorer, InstructionDescriptor, InstructionTable};
use lancelot::flow::Flow;
use lancelot::graph::{cfg_from_instructions, compute_basic_blocks, CFG};
use lancelot::image::{Arch, Module, Permissions, Section};
use lancelot::insn::{
    get_first_operand, Displacement, ImmediateInfo, Instruction, MemoryInfo, Mnemonic, Operand,
    OperandType, OperandVisibility, PointerInfo, Register,
};
use lancelot::smallflows::Flows;
use lancelot::resolve::{
    get_immediate_operand_xref, get_memory_operand_xref, get_operand_xref,
    get_pointer_operand_xref, va_add_signed,
};

fn blank(ty: OperandType) -> Operand {
    Operand {
        ty,
        visibility: OperandVisibility::Explicit,
        mem: MemoryInfo {
            base: Register::Absent,
            index: Register::Absent,
            scale: 0,
            disp: Displacement { has_displacement: false, displacement: 0 },
        },
        ptr: PointerInfo { segment: 0, offset: 0 },
        imm: ImmediateInfo { is_signed: false, is_relative: false, value: 0 },
    }
}

fn rel(value: i64) -> Operand {
    let mut op = blank(OperandType::Immediate);
    op.imm = ImmediateInfo { is_signed: true, is_relative: true, value: value as u64 };
    op
}

fn imm(value: u64) -> Operand {
    let mut op = blank(OperandType::Immediate);
    op.imm = ImmediateInfo { is_signed: false, is_relative: false, value };
    op
}

fn mem(base: Register, disp: i64) -> Operand {
    let mut op = blank(OperandType::Memory);
    op.mem.base = base;
    op.mem.disp = Displacement { has_displacement: true, displacement: disp };
    op
}

fn insn(mnemonic: Mnemonic, length: u8, operands: Vec<Operand>) -> Instruction {
    Instruction { mnemonic, length, operands }
}

/// Decodes the handful of encodings these tests use.
fn decode(b: &[u8]) -> Option<Instruction> {
    let rel8 = |i: usize| b[i] as i8 as i64;
    let rel32 = |i: usize| i32::from_le_bytes([b[i], b[i + 1], b[i + 2], b[i + 3]]) as i64;
    match b[0] {
        0x90 => Some(insn(Mnemonic::Other, 1, vec![])),
        0xC3 => Some(insn(Mnemonic::Ret, 1, vec![])),
        0xCC => Some(insn(Mnemonic::Int3, 1, vec![])),
        0xCD => Some(insn(Mnemonic::Int, 2, vec![imm(b[1] as u64)])),
        0xEB => Some(insn(Mnemonic::Jmp, 2, vec![rel(rel8(1))])),
        0xE9 => Some(insn(Mnemonic::Jmp, 5, vec![rel(rel32(1))])),
        0xE8 => Some(insn(Mnemonic::Call, 5, vec![rel(rel32(1))])),
        0x75 => Some(insn(Mnemonic::Jnz, 2, vec![rel(rel8(1))])),
        0x74 => Some(insn(Mnemonic::Jz, 2, vec![rel(rel8(1))])),
        0x0F if b[1] == 0x44 => {
            Some(insn(Mnemonic::Cmovz, 3, vec![blank(OperandType::Register), blank(OperandType::Register)]))
        }
        0x00 if b[1] == 0x00 => Some(insn(Mnemonic::Other, 2, vec![])),
        _ => None,
    }
}

fn shellcode32(code: &[u8]) -> Module {
    Module::from_shellcode(Arch::X32, code.to_vec())
}

/// Code followed by enough padding that every instruction window can be read.
fn padded32(code: &[u8]) -> Module {
    let mut v = code.to_vec();
    v.extend_from_slice(&[0xCC; 0x20]);
    Module::from_shellcode(Arch::X32, v)
}

fn build(module: &Module, entry: u64) -> CFG {
    let mut ex = Explorer::new(entry);
    while let Some((va, window)) = ex.next_window(module) {
        if let Some(i) = decode(&window) {
            ex.record(module, va, &i);
        }
    }
    cfg_from_instructions(&ex.into_table())
}

fn first_flows(module: &Module, code_insn: &Instruction) -> Vec<Flow> {
    get_insn_flow(module, 0, code_insn).to_vec()
}

#[test]
fn flow_destination_and_swap() {
    let f = Flow::ConditionalJump(0x401000);
    assert_eq!(f.va(), 0x401000);
    assert_eq!(f.swap(0x10), Flow::ConditionalJump(0x10));
    assert_eq!(Flow::Call(7).swap(9), Flow::Call(9));
    assert_eq!(Flow::Fallthrough(1).swap(2).va(), 2);
    assert_eq!(Flow::ConditionalMove(3).swap(4), Flow::ConditionalMove(4));
    assert_eq!(Flow::UnconditionalJump(5).swap(6), Flow::UnconditionalJump(6));
}

#[test]
fn signed_address_arithmetic() {
    assert_eq!(va_add_signed(5, 3), Some(8));
    assert_eq!(va_add_signed(0x10, -0x10), Some(0));
    assert_eq!(va_add_signed(0x10, -0x11), None);
    assert_eq!(va_add_signed(u64::MAX, 1), None);
    assert_eq!(va_add_signed(u64::MAX, -1), Some(u64::MAX - 1));
    assert_eq!(va_add_signed(0, i64::MIN), None);
    assert_eq!(va_add_signed(u64::MAX, i64::MIN), Some(u64::MAX - (1u64 << 63)));
}

#[test]
fn image_reads_and_probes() {
    let m = Module {
        arch: Arch::X64,
        sections: vec![
            Section {
                start: 0x1000,
                bytes: vec![1, 2, 3, 4, 5, 6, 7, 8],
                perms: Permissions { read: true, write: false, execute: false },
            },
            Section { start: 0x2000, bytes: vec![0x90; 4], perms: Permissions { read: true, write: false, execute: true } },
        ],
    };
    assert_eq!(m.read(0x1002, 3), Some(vec![3, 4, 5]));
    assert_eq!(m.read(0x1006, 3), None);
    assert_eq!(m.read(0x3000, 1), None);
    assert_eq!(m.read_va_at_va(0x1000), Some(0x0807060504030201));
    assert!(m.probe_va(0x2003, Permissions::execute_only()));
    assert!(!m.probe_va(0x1000, Permissions::execute_only()));
    assert!(!m.probe_va(0x2004, Permissions::execute_only()));
    let m32 = shellcode32(&[1, 2, 3, 4, 5]);
    assert_eq!(m32.read_va_at_va(1), Some(0x05040302));
    assert_eq!(m32.read_va_at_va(2), None);
}

#[test]
fn first_operand_skips_implicit() {
    let mut hidden = imm(1);
    hidden.visibility = OperandVisibility::Implicit;
    let i = insn(Mnemonic::Other, 1, vec![hidden, imm(2)]);
    assert_eq!(get_first_operand(&i).map(|op| op.imm.value), Some(2));
    let none = insn(Mnemonic::Other, 1, vec![hidden]);
    assert!(get_first_operand(&none).is_none());
}

#[test]
fn memory_pointer_operand() {
    // jmp dword ptr ds:0x6, with a zero pointer stored at 6
    let m = shellcode32(b"\xFF\x25\x06\x00\x00\x00\x00\x00\x00\x00");
    let i = insn(Mnemonic::Jmp, 6, vec![mem(Register::Absent, 6)]);
    let op = get_first_operand(&i).unwrap();
    assert_eq!(get_memory_operand_xref(&m, 0, &i, op), Some(0));
}

#[test]
fn memory_pointer_to_non_executable() {
    let mut m = shellcode32(b"\xFF\x25\x06\x00\x00\x00\x00\x10\x00\x00");
    m.sections[0].perms.execute = true;
    let i = insn(Mnemonic::Jmp, 6, vec![mem(Register::Absent, 6)]);
    // the pointer read is 0x1000, which is unmapped
    assert_eq!(get_memory_operand_xref(&m, 0, &i, &i.operands[0]), None);
}

#[test]
fn rip_relative_operand() {
    // call [rip+0], with a zero pointer just past the instruction
    let m = Module::from_shellcode(Arch::X64, b"\xFF\x15\x00\x00\x00\x00\x00\x00\x00\x00\x00\x00\x00\x00".to_vec());
    let i = insn(Mnemonic::Call, 6, vec![mem(Register::Rip, 0)]);
    assert_eq!(get_memory_operand_xref(&m, 0, &i, &i.operands[0]), Some(0));
}

#[test]
fn negative_displacement_has_no_destination() {
    let m = shellcode32(&[0u8; 0x20]);
    let i = insn(Mnemonic::Jmp, 6, vec![mem(Register::Absent, -4)]);
    assert_eq!(get_memory_operand_xref(&m, 0x10, &i, &i.operands[0]), None);
    assert_eq!(get_operand_xref(&m, 0x10, &i, &i.operands[0]), None);
}

#[test]
fn rip_relative_underflow_has_no_destination() {
    let m = Module::from_shellcode(Arch::X64, vec![0u8; 0x20]);
    let i = insn(Mnemonic::Call, 6, vec![mem(Register::Rip, -7)]);
    assert_eq!(get_memory_operand_xref(&m, 0, &i, &i.operands[0]), None);
    let j = insn(Mnemonic::Call, 6, vec![mem(Register::Rip, i64::MIN)]);
    assert_eq!(get_memory_operand_xref(&m, 0x10, &j, &j.operands[0]), None);
}

#[test]
fn other_memory_shapes_have_no_destination() {
    let m = shellcode32(&[0u8; 0x20]);
    let i = insn(Mnemonic::Call, 3, vec![mem(Register::Other, 4)]);
    assert_eq!(get_memory_operand_xref(&m, 0, &i, &i.operands[0]), None);
    let mut table = mem(Register::Absent, 0x10);
    table.mem.index = Register::Other;
    table.mem.scale = 4;
    let j = insn(Mnemonic::Jmp, 7, vec![table]);
    assert_eq!(get_memory_operand_xref(&m, 0, &j, &j.operands[0]), None);
    assert_eq!(get_jmp_insn_flow(&m, 0, &j).to_vec(), vec![]);
}

#[test]
fn far_pointer_operand() {
    let mut op = blank(OperandType::Pointer);
    op.ptr = PointerInfo { segment: 0x4080, offset: 0x60B9D233 };
    assert_eq!(get_pointer_operand_xref(&op), Some(0x60B9D233));
    let m = shellcode32(b"\xEA\x00\x00\x00\x00\x00\x00");
    let i = insn(Mnemonic::Jmp, 7, vec![blank(OperandType::Pointer)]);
    assert_eq!(get_operand_xref(&m, 0, &i, &i.operands[0]), Some(0));
}

#[test]
fn relative_immediate_operand() {
    // jmp $+0
    let m = shellcode32(b"\xEB\xFE");
    let i = decode(b"\xEB\xFE").unwrap();
    assert_eq!(get_immediate_operand_xref(&m, 0, &i, &i.operands[0]), Some(0));
    // jmp $-1, which is unmapped
    let j = decode(b"\xEB\xFD").unwrap();
    assert_eq!(get_immediate_operand_xref(&m, 0, &j, &j.operands[0]), None);
    // an unsigned relative immediate is not sign-extended
    let mut big = rel(0);
    big.imm = ImmediateInfo { is_signed: false, is_relative: true, value: u64::MAX };
    let k = insn(Mnemonic::Jmp, 2, vec![big]);
    assert_eq!(get_immediate_operand_xref(&m, 0, &k, &k.operands[0]), None);
    // an absolute immediate is not followed
    let a = insn(Mnemonic::Jmp, 2, vec![imm(0)]);
    assert_eq!(get_immediate_operand_xref(&m, 0, &a, &a.operands[0]), None);
}

#[test]
fn register_operand_has_no_destination() {
    let m = shellcode32(&[0u8; 4]);
    let i = insn(Mnemonic::Call, 2, vec![blank(OperandType::Register)]);
    assert_eq!(get_operand_xref(&m, 0, &i, &i.operands[0]), None);
    assert_eq!(get_call_insn_flow(&m, 0, &i).to_vec(), vec![]);
}

#[test]
fn jump_to_self() {
    let m = shellcode32(b"\xEB\xFE");
    let i = decode(b"\xEB\xFE").unwrap();
    assert_eq!(get_jmp_insn_flow(&m, 0, &i).to_vec(), vec![Flow::UnconditionalJump(0)]);
    assert_eq!(get_insn_flow(&m, 0, &i).to_vec(), vec![Flow::UnconditionalJump(0)]);
}

#[test]
fn call_flow() {
    // call $+5; nop
    let m = shellcode32(b"\xE8\x00\x00\x00\x00\x90");
    let i = decode(b"\xE8\x00\x00\x00\x00").unwrap();
    let flows = get_call_insn_flow(&m, 0, &i).to_vec();
    assert_eq!(flows[0].va(), 0x5);
    assert_eq!(get_insn_flow(&m, 0, &i).to_vec(), vec![Flow::Call(5), Flow::Fallthrough(5)]);
}

#[test]
fn jmp_flow() {
    // jmp $+5; nop
    let m = shellcode32(b"\xE9\x00\x00\x00\x00\x90");
    let i = decode(b"\xE9\x00\x00\x00\x00").unwrap();
    let flows = get_jmp_insn_flow(&m, 0, &i).to_vec();
    assert_eq!(flows[0].va(), 0x5);
    assert_eq!(get_insn_flow(&m, 0, &i).to_vec(), vec![Flow::UnconditionalJump(5)]);
}

#[test]
fn cjmp_flow() {
    // jnz $+1; int3; nop
    let m = shellcode32(b"\x75\x01\xCC\x90");
    let i = decode(b"\x75\x01").unwrap();
    let flows = get_cjmp_insn_flow(&m, 0, &i).to_vec();
    assert_eq!(flows[0].va(), 0x3);
    assert_eq!(get_insn_flow(&m, 0, &i).to_vec(), vec![Flow::ConditionalJump(3), Flow::Fallthrough(2)]);
}

#[test]
fn cmov_flow() {
    // cmovz eax, ebx; nop
    let m = shellcode32(b"\x0F\x44\xC3\x90");
    let i = decode(b"\x0F\x44\xC3").unwrap();
    let flows = get_cmov_insn_flow(0, &i).to_vec();
    assert_eq!(flows[0].va(), 0x3);
    assert_eq!(get_insn_flow(&m, 0, &i).to_vec(), vec![Flow::ConditionalMove(3), Flow::Fallthrough(3)]);
}

#[test]
fn fallthrough_by_class() {
    let m = shellcode32(&[0u8; 0x10]);
    for (i, falls) in [
        (insn(Mnemonic::Ret, 1, vec![]), false),
        (insn(Mnemonic::Iretq, 2, vec![]), false),
        (insn(Mnemonic::Int3, 1, vec![]), false),
        (insn(Mnemonic::Int, 2, vec![imm(0x29)]), false),
        (insn(Mnemonic::Int, 2, vec![imm(0x2C)]), false),
        (insn(Mnemonic::Int, 2, vec![imm(0x80)]), true),
        (insn(Mnemonic::Jmp, 2, vec![blank(OperandType::Register)]), false),
        (insn(Mnemonic::Call, 2, vec![blank(OperandType::Register)]), true),
        (insn(Mnemonic::Other, 1, vec![]), true),
    ] {
        assert_eq!(does_insn_fallthrough(&i), falls);
        let flows = first_flows(&m, &i);
        let fts: Vec<&Flow> = flows.iter().filter(|f| matches!(f, Flow::Fallthrough(_))).collect();
        if falls {
            assert_eq!(fts, vec![&Flow::Fallthrough(i.length as u64)]);
        } else {
            assert!(fts.is_empty());
        }
    }
}

fn table(entries: Vec<(u64, u64, Vec<Flow>)>) -> InstructionTable {
    InstructionTable {
        entries: entries
            .into_iter()
            .map(|(va, length, successors)| InstructionDescriptor {
                va,
                length,
                successors: Flows::from_vec(&successors),
            })
            .collect(),
    }
}

#[test]
fn edge_tables_are_inverse_and_complete() {
    // 0: jnz 4; 2: nop; 3: ret; 4: jmp 0
    let t = table(vec![
        (0, 2, vec![Flow::ConditionalJump(4), Flow::Fallthrough(2)]),
        (2, 1, vec![Flow::Fallthrough(3)]),
        (3, 1, vec![]),
        (4, 2, vec![Flow::UnconditionalJump(0)]),
    ]);
    let succ = compute_successors(&t);
    let pred = compute_predecessors(&t);
    for va in [0u64, 2, 3, 4] {
        assert!(succ.contains_key(&va));
        assert!(pred.contains_key(&va));
    }
    assert_eq!(succ.len(), 4);
    assert_eq!(pred.len(), 4);
    assert_eq!(pred[&0].to_vec(), vec![Flow::UnconditionalJump(4)]);
    assert_eq!(pred[&2].to_vec(), vec![Flow::Fallthrough(0)]);
    assert_eq!(pred[&3].to_vec(), vec![Flow::Fallthrough(2)]);
    assert_eq!(pred[&4].to_vec(), vec![Flow::ConditionalJump(0)]);
    for (a, flows) in succ.iter() {
        for f in flows.to_vec() {
            assert!(pred[&f.va()].to_vec().contains(&f.swap(*a)));
        }
    }
    let bbs = compute_basic_blocks(&t, &pred, &succ);
    let starts: Vec<u64> = bbs.keys().cloned().collect();
    assert_eq!(starts, vec![0, 2, 4]);
    assert_eq!(bbs[&2].length, 2);
    assert_eq!(bbs[&2].predecessors.to_vec(), vec![Flow::Fallthrough(0)]);
    assert_eq!(bbs[&4].predecessors.to_vec(), vec![Flow::ConditionalJump(0)]);
    assert_eq!(bbs[&0].predecessors.to_vec(), vec![Flow::UnconditionalJump(4)]);
}

#[test]
fn explorer_skips_known_and_unreadable() {
    let m = padded32(b"\x90\xC3");
    let mut ex = Explorer::new(0);
    ex.queue.push(0x1000);
    // the unreadable address is skipped
    let (va, w) = ex.next_window(&m).unwrap();
    assert_eq!(va, 0);
    assert_eq!(w.len(), 16);
    ex.record(&m, 0, &decode(&w).unwrap());
    assert_eq!(ex.queue, vec![1]);
    // recording the same address again changes nothing
    ex.record(&m, 0, &decode(&w).unwrap());
    assert_eq!(ex.queue, vec![1]);
    assert_eq!(ex.table.entries.len(), 1);
    ex.queue.push(0);
    let (va, _) = ex.next_window(&m).unwrap();
    assert_eq!(va, 1);
    ex.record(&m, 1, &insn(Mnemonic::Ret, 1, vec![]));
    assert!(ex.next_window(&m).is_none());
    let t = ex.into_table();
    assert_eq!(t.entries.iter().map(|d| d.va).collect::<Vec<_>>(), vec![0, 1]);
}

#[test]
fn explorer_drops_call_edges() {
    // call 6; ret; ret
    let m = padded32(b"\xE8\x01\x00\x00\x00\xC3\xC3");
    let mut ex = Explorer::new(0);
    let (va, w) = ex.next_window(&m).unwrap();
    ex.record(&m, va, &decode(&w).unwrap());
    assert_eq!(ex.queue, vec![5]);
    assert_eq!(ex.table.entries[0].successors.to_vec(), vec![Flow::Fallthrough(5)]);
}

#[test]
fn cmov_starts_a_block() {
    // cmovz eax, ebx; nop; ret
    let m = padded32(b"\x0F\x44\xC3\x90\xC3");
    let cfg = build(&m, 0);
    let starts: Vec<u64> = cfg.basic_blocks.keys().cloned().collect();
    assert_eq!(starts, vec![0, 3]);
    assert_eq!(cfg.basic_blocks[&0].length, 3);
    assert_eq!(cfg.basic_blocks[&3].length, 2);
    assert_eq!(
        cfg.basic_blocks[&3].predecessors.to_vec(),
        vec![Flow::ConditionalMove(0), Flow::Fallthrough(0)]
    );
}

#[test]
fn call_does_not_split_block() {
    // call $+5; nop; ret
    let m = padded32(b"\xE8\x00\x00\x00\x00\x90\xC3");
    let cfg = build(&m, 0);
    assert_eq!(cfg.basic_blocks.len(), 1);
    let bb = &cfg.basic_blocks[&0];
    assert_eq!(bb.length, 7);
    assert!(bb.successors.to_vec().is_empty());
    assert!(bb.predecessors.to_vec().is_empty());
}

#[test]
fn conditional_jump_then_breakpoint() {
    // jnz $+1; int3; nop; ret
    let m = padded32(b"\x75\x01\xCC\x90\xC3");
    let cfg = build(&m, 0);
    let starts: Vec<u64> = cfg.basic_blocks.keys().cloned().collect();
    assert_eq!(starts, vec![0, 2, 3]);
    let head = &cfg.basic_blocks[&0];
    assert_eq!(head.length, 2);
    assert_eq!(head.successors.to_vec(), vec![Flow::ConditionalJump(3), Flow::Fallthrough(2)]);
    let brk = &cfg.basic_blocks[&2];
    assert_eq!(brk.length, 1);
    assert!(brk.successors.to_vec().is_empty());
    assert_eq!(brk.predecessors.to_vec(), vec![Flow::Fallthrough(0)]);
    let tail = &cfg.basic_blocks[&3];
    assert_eq!(tail.length, 2);
    assert_eq!(tail.predecessors.to_vec(), vec![Flow::ConditionalJump(0)]);
}

#[test]
fn loop_block_points_at_itself() {
    // 0: nop; 1: jz 0; 3: ret
    let m = padded32(b"\x90\x74\xFD\xC3");
    let cfg = build(&m, 0);
    let starts: Vec<u64> = cfg.basic_blocks.keys().cloned().collect();
    assert_eq!(starts, vec![0, 3]);
    assert_eq!(cfg.basic_blocks[&0].length, 3);
    assert_eq!(cfg.basic_blocks[&0].predecessors.to_vec(), vec![Flow::ConditionalJump(0)]);
    assert_eq!(cfg.basic_blocks[&3].predecessors.to_vec(), vec![Flow::Fallthrough(0)]);
}

#[test]
fn fast_fail_interrupt_ends_block() {
    // int 0x29; nop
    let m = padded32(b"\xCD\x29\x90");
    let cfg = build(&m, 0);
    assert_eq!(cfg.basic_blocks.len(), 1);
    assert_eq!(cfg.basic_blocks[&0].length, 2);
    // int 0x80 falls through
    let m = padded32(b"\xCD\x80\xC3");
    let cfg = build(&m, 0);
    assert_eq!(cfg.basic_blocks[&0].length, 3);
}

#[test]
fn unreadable_entry_gives_empty_graph() {
    let m = shellcode32(b"\x90");
    let cfg = build(&m, 0);
    assert!(cfg.basic_blocks.is_empty());
}

#[test]
fn blocks_cover_decoded_instructions() {
    // 0: nop; 1: jz 6; 3: nop; 4: jmp 7; 6: nop; 7: ret
    let m = padded32(b"\x90\x74\x03\x90\xEB\x01\x90\xC3");
    let mut ex = Explorer::new(0);
    while let Some((va, window)) = ex.next_window(&m) {
        if let Some(i) = decode(&window) {
            ex.record(&m, va, &i);
        }
    }
    let t = ex.into_table();
    let addrs: Vec<u64> = t.entries.iter().map(|d| d.va).collect();
    assert_eq!(addrs, vec![0, 1, 3, 4, 6, 7]);
    let cfg = cfg_from_instructions(&t);
    let spans: Vec<(u64, u64)> = cfg.basic_blocks.values().map(|b| (b.address, b.length)).collect();
    assert_eq!(spans, vec![(0, 3), (3, 3), (6, 1), (7, 1)]);
    for d in &t.entries {
        let holders = spans.iter().filter(|(s, l)| *s <= d.va && d.va < s + l).count();
        assert_eq!(holders, 1);
    }
    let total: u64 = spans.iter().map(|(_, l)| l).sum();
    let insn_total: u64 = t.entries.iter().map(|d| d.length).sum();
    assert_eq!(total, insn_total);
}
