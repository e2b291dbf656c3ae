use vstd::prelude::*;

use std::collections::BTreeMap;

use crate::edges::{compute_predecessors, compute_successors, flows_at, preds_in, FlowMap};
use crate::explore::{fallthrough_is_next, has_va, table_wf, InsnInfo, InstructionTable};
use crate::flow::Flow;
use crate::smallflows::Flows;
use crate::VA;

verus! {

/// A straight-line run of instructions with one entry and one exit.
#[derive(Debug)]
pub struct BasicBlock {
    /// Address of the first instruction.
    pub address: VA,
    /// Length of the block in bytes.
    pub length: u64,
    /// Edges from the blocks that flow here, each pointing at that block's start.
    pub predecessors: Flows,
    /// Edges leaving the block's last instruction.
    pub successors: Flows,
}

/// The control-flow graph of one function: its basic blocks by start address.
#[derive(Debug)]
pub struct CFG {
    pub basic_blocks: BTreeMap<VA, BasicBlock>,
}

/// The edges of a flow table, as sequences.
pub open spec fn edge_view(m: Map<VA, Flows>) -> Map<VA, Seq<Flow>> {
    m.map_values(|v: Flows| v@)
}

/// The edges a table holds at `va`; none where it holds nothing.
pub open spec fn edges_at(m: Map<VA, Seq<Flow>>, va: VA) -> Seq<Flow> {
    if m.contains_key(va) {
        m[va]
    } else {
        seq![]
    }
}

pub open spec fn has_fallthrough(s: Seq<Flow>) -> bool {
    exists|i: int| 0 <= i < s.len() && s[i] is Fallthrough
}

/// Some edge of `s` is not a fallthrough (a conditional move counts as one).
pub open spec fn has_branch(s: Seq<Flow>) -> bool {
    exists|i: int| 0 <= i < s.len() && !(s[i] is Fallthrough)
}

/// A block starts at `va` when nothing flows there, when a branch arrives
/// there, or when an instruction that falls through to it also branches
/// elsewhere.
pub open spec fn is_block_start(p: Map<VA, Seq<Flow>>, s: Map<VA, Seq<Flow>>, va: VA) -> bool {
    let ps = edges_at(p, va);
    ||| ps.len() == 0
    ||| has_branch(ps)
    ||| exists|i: int| 0 <= i < ps.len() && ps[i] is Fallthrough && has_branch(edges_at(s, ps[i].dest()))
}

/// Position in the table of the instruction at `va`.
pub open spec fn index_of(t: Seq<InsnInfo>, va: VA) -> int {
    choose|i: int| 0 <= i < t.len() && t[i].va == va
}

pub open spec fn length_at(t: Seq<InsnInfo>, va: VA) -> int {
    t[index_of(t, va)].length as int
}

/// The instruction at `va` and the next one in memory belong to one block.
pub open spec fn continues(t: Seq<InsnInfo>, p: Map<VA, Seq<Flow>>, s: Map<VA, Seq<Flow>>, va: VA) -> bool {
    let out = edges_at(s, va);
    let next = va + length_at(t, va);
    &&& has_fallthrough(out)
    &&& !has_branch(out)
    &&& va < next <= u64::MAX
    &&& has_va(t, next as VA)
    &&& !has_branch(edges_at(p, next as VA))
}

/// The last instruction of the block that runs on from `va`.
pub open spec fn last_insn(t: Seq<InsnInfo>, p: Map<VA, Seq<Flow>>, s: Map<VA, Seq<Flow>>, va: VA) -> VA
    decreases u64::MAX - va,
{
    if continues(t, p, s, va) {
        last_insn(t, p, s, (va + length_at(t, va)) as VA)
    } else {
        va
    }
}

/// The summed lengths of the instructions from `va` to the end of its block.
pub open spec fn block_length(t: Seq<InsnInfo>, p: Map<VA, Seq<Flow>>, s: Map<VA, Seq<Flow>>, va: VA) -> int
    decreases u64::MAX - va,
{
    if continues(t, p, s, va) {
        length_at(t, va) + block_length(t, p, s, (va + length_at(t, va)) as VA)
    } else {
        length_at(t, va)
    }
}

/// The block starts, in table order.
pub open spec fn block_starts(t: Seq<InsnInfo>, p: Map<VA, Seq<Flow>>, s: Map<VA, Seq<Flow>>) -> Seq<VA>
    decreases t.len(),
{
    if t.len() == 0 {
        seq![]
    } else if is_block_start(p, s, t.last().va) {
        block_starts(t.drop_last(), p, s).push(t.last().va)
    } else {
        block_starts(t.drop_last(), p, s)
    }
}

/// For each block's last instruction, the block's start; where two blocks
/// end at one instruction, the later start.
pub open spec fn last_index(
    t: Seq<InsnInfo>,
    p: Map<VA, Seq<Flow>>,
    s: Map<VA, Seq<Flow>>,
    starts: Seq<VA>,
) -> Map<VA, VA>
    decreases starts.len(),
{
    if starts.len() == 0 {
        Map::empty()
    } else {
        last_index(t, p, s, starts.drop_last()).insert(last_insn(t, p, s, starts.last()), starts.last())
    }
}

/// The predecessor edges whose source ends a block, each pointed at that
/// block's start instead.
pub open spec fn rebase(ps: Seq<Flow>, index: Map<VA, VA>) -> Seq<Flow>
    decreases ps.len(),
{
    if ps.len() == 0 {
        seq![]
    } else if index.contains_key(ps.last().dest()) {
        rebase(ps.drop_last(), index).push(ps.last().retarget(index[ps.last().dest()]))
    } else {
        rebase(ps.drop_last(), index)
    }
}

/// `b` is the block that starts at `va`.
pub open spec fn is_block(
    b: BasicBlock,
    t: Seq<InsnInfo>,
    p: Map<VA, Seq<Flow>>,
    s: Map<VA, Seq<Flow>>,
    va: VA,
) -> bool {
    &&& b.address == va
    &&& b.length == block_length(t, p, s, va)
    &&& b.successors@ == edges_at(s, last_insn(t, p, s, va))
    &&& b.predecessors@ == rebase(edges_at(p, va), last_index(t, p, s, block_starts(t, p, s)))
}

/// `m` holds exactly the blocks of the table.
pub open spec fn blocks_of(
    m: Map<VA, BasicBlock>,
    t: Seq<InsnInfo>,
    p: Map<VA, Seq<Flow>>,
    s: Map<VA, Seq<Flow>>,
) -> bool {
    &&& forall|va: VA| m.contains_key(va) <==> block_starts(t, p, s).contains(va)
    &&& forall|va: VA| #[trigger] m.contains_key(va) ==> is_block(m[va], t, p, s, va)
}

proof fn lemma_index_of(t: Seq<InsnInfo>, i: int)
    requires
        table_wf(t),
        0 <= i < t.len(),
    ensures
        index_of(t, t[i].va) == i,
        length_at(t, t[i].va) == t[i].length,
{
    let j = index_of(t, t[i].va);
    assert(0 <= j < t.len() && t[j].va == t[i].va);
    if j < i {
        assert(t[j].va < t[i].va);
    } else if i < j {
        assert(t[i].va < t[j].va);
    }
}

fn any_branch(v: &Flows) -> (r: bool)
    ensures
        r == has_branch(v@),
{
    let mut i: usize = 0;
    while i < v.len()
        invariant
            i <= v@.len(),
            forall|j: int| 0 <= j < i ==> v@[j] is Fallthrough,
        decreases v@.len() - i,
    {
        match v.get(i) {
            Flow::Fallthrough(_) => {},
            _ => return true,
        }
        i = i + 1;
    }
    false
}

fn any_fallthrough(v: &Flows) -> (r: bool)
    ensures
        r == has_fallthrough(v@),
{
    let mut i: usize = 0;
    while i < v.len()
        invariant
            i <= v@.len(),
            forall|j: int| 0 <= j < i ==> !(v@[j] is Fallthrough),
        decreases v@.len() - i,
    {
        match v.get(i) {
            Flow::Fallthrough(_) => return true,
            _ => {},
        }
        i = i + 1;
    }
    false
}

/// Does the table hold a non-fallthrough edge at `va`?
fn branch_at(m: &FlowMap, va: VA) -> (r: bool)
    ensures
        r == has_branch(edges_at(edge_view(m@), va)),
{
    match m.get(&va) {
        Some(v) => any_branch(v),
        None => false,
    }
}

fn starts_block(predecessors: &FlowMap, successors: &FlowMap, va: VA) -> (r: bool)
    ensures
        r == is_block_start(edge_view(predecessors@), edge_view(successors@), va),
{
    let ghost p = edge_view(predecessors@);
    let ghost s = edge_view(successors@);
    let ps = match predecessors.get(&va) {
        Some(ps) => ps,
        None => return true,
    };
    assert(edges_at(p, va) == ps@);
    if ps.len() == 0 {
        return true;
    }
    if any_branch(ps) {
        return true;
    }
    let mut i: usize = 0;
    while i < ps.len()
        invariant
            i <= ps@.len(),
            forall|j: int| 0 <= j < i ==> !(ps@[j] is Fallthrough && has_branch(edges_at(s, ps@[j].dest()))),
            s == edge_view(successors@),
            p == edge_view(predecessors@),
            edges_at(p, va) == ps@,
            ps@.len() > 0,
            !has_branch(ps@),
        decreases ps@.len() - i,
    {
        let f = ps.get(i);
        match f {
            Flow::Fallthrough(src) => {
                if branch_at(successors, src) {
                    assert(ps@[i as int] is Fallthrough && has_branch(edges_at(s, ps@[i as int].dest())));
                    return true;
                }
            },
            _ => {},
        }
        i = i + 1;
    }
    false
}

} // verus!

verus! {

/// The block starts in table order, with their positions in the table.
fn find_starts(insns: &InstructionTable, predecessors: &FlowMap, successors: &FlowMap) -> (r: (
    Vec<VA>,
    Vec<usize>,
))
    ensures
        r.0@ == block_starts(insns@, edge_view(predecessors@), edge_view(successors@)),
        r.1@.len() == r.0@.len(),
        forall|k: int| 0 <= k < r.0@.len() ==> #[trigger] r.1@[k] < insns@.len() && insns@[r.1@[k] as int].va == r.0@[k],
{
    let ghost t = insns@;
    let ghost p = edge_view(predecessors@);
    let ghost s = edge_view(successors@);
    let n = insns.entries.len();
    let mut starts: Vec<VA> = Vec::new();
    let mut positions: Vec<usize> = Vec::new();
    let mut i: usize = 0;
    while i < n
        invariant
            t == insns@,
            p == edge_view(predecessors@),
            s == edge_view(successors@),
            n == t.len(),
            i <= n,
            starts@ == block_starts(t.take(i as int), p, s),
            positions@.len() == starts@.len(),
            forall|k: int| 0 <= k < starts@.len() ==> #[trigger] positions@[k] < n && t[positions@[k] as int].va == starts@[k],
        decreases n - i,
    {
        assert(t.take(i + 1).drop_last() =~= t.take(i as int));
        let va = insns.entries[i].va;
        if starts_block(predecessors, successors, va) {
            starts.push(va);
            positions.push(i);
        }
        i = i + 1;
    }
    assert(t.take(n as int) =~= t);
    (starts, positions)
}

/// Run on from the block start at position `i` to the block's last
/// instruction; return that instruction's position and the block's length.
fn extend_block(insns: &InstructionTable, predecessors: &FlowMap, successors: &FlowMap, i: usize) -> (r: (
    usize,
    u64,
))
    requires
        insns.wf(),
        i < insns@.len(),
    ensures
        r.0 < insns@.len(),
        insns@[r.0 as int].va == last_insn(insns@, edge_view(predecessors@), edge_view(successors@), insns@[i as int].va),
        r.1 == block_length(insns@, edge_view(predecessors@), edge_view(successors@), insns@[i as int].va),
{
    let ghost t = insns@;
    let ghost p = edge_view(predecessors@);
    let ghost s = edge_view(successors@);
    let ghost start = t[i as int].va;
    let n = insns.entries.len();
    let mut cur: usize = i;
    let mut len: u64 = 0;
    loop
        invariant
            t == insns@,
            table_wf(t),
            p == edge_view(predecessors@),
            s == edge_view(successors@),
            n == t.len(),
            cur < n,
            start <= t[cur as int].va,
            len == t[cur as int].va - start,
            len + block_length(t, p, s, t[cur as int].va) == block_length(t, p, s, start),
            last_insn(t, p, s, t[cur as int].va) == last_insn(t, p, s, start),
        ensures
            cur < n,
            len == t[cur as int].va - start,
            len + block_length(t, p, s, t[cur as int].va) == block_length(t, p, s, start),
            last_insn(t, p, s, t[cur as int].va) == last_insn(t, p, s, start),
            !continues(t, p, s, t[cur as int].va),
        decreases u64::MAX - t[cur as int].va,
    {
        let va = insns.entries[cur].va;
        let l = insns.entries[cur].length;
        proof {
            lemma_index_of(t, cur as int);
        }
        assert(1 <= t[cur as int].length && va + l <= u64::MAX);
        let (ft, br) = match successors.get(&va) {
            Some(out) => (any_fallthrough(out), any_branch(out)),
            None => (false, false),
        };
        if !ft || br {
            break;
        }
        let next = va + l;
        let j = match insns.find(next) {
            Some(j) => j,
            None => break,
        };
        if branch_at(predecessors, next) {
            break;
        }
        assert(continues(t, p, s, va));
        len = len + l;
        cur = j;
    }
    let l = insns.entries[cur].length;
    proof {
        lemma_index_of(t, cur as int);
    }
    assert(t[cur as int].va + l <= u64::MAX);
    (cur, len + l)
}

/// The predecessor edges whose source ends a block, pointed at that block's start.
fn rebase_preds(ps: &Flows, index: &BTreeMap<VA, VA>) -> (r: Flows)
    ensures
        r@ == rebase(ps@, index@),
{
    let mut r = Flows::new();
    let mut i: usize = 0;
    while i < ps.len()
        invariant
            i <= ps@.len(),
            r@ == rebase(ps@.take(i as int), index@),
        decreases ps@.len() - i,
    {
        assert(ps@.take(i + 1).drop_last() =~= ps@.take(i as int));
        let f = ps.get(i);
        match index.get(&f.va()) {
            Some(start) => r.push(f.swap(*start)),
            None => {},
        }
        i = i + 1;
    }
    assert(ps@.take(ps@.len() as int) =~= ps@);
    r
}

} // verus!

verus! {

/// Split the instructions into basic blocks.
///
/// A block runs on from its start while the current instruction falls
/// through, does not branch, and the next instruction is decoded and is not
/// the target of a branch. Its successors are those of its last
/// instruction; its predecessors are those of its first, each pointed at the
/// start of the block that its source ends.
pub fn compute_basic_blocks(insns: &InstructionTable, predecessors: &FlowMap, successors: &FlowMap) -> (r:
    BTreeMap<VA, BasicBlock>)
    requires
        insns.wf(),
    ensures
        blocks_of(r@, insns@, edge_view(predecessors@), edge_view(successors@)),
{
    let ghost t = insns@;
    let ghost p = edge_view(predecessors@);
    let ghost s = edge_view(successors@);
    let (starts, positions) = find_starts(insns, predecessors, successors);
    let nb = starts.len();
    let mut lasts: Vec<VA> = Vec::new();
    let mut lengths: Vec<u64> = Vec::new();
    let mut index: BTreeMap<VA, VA> = BTreeMap::new();
    let mut k: usize = 0;
    while k < nb
        invariant
            t == insns@,
            table_wf(t),
            p == edge_view(predecessors@),
            s == edge_view(successors@),
            nb == starts@.len(),
            positions@.len() == nb,
            forall|m: int| 0 <= m < nb ==> #[trigger] positions@[m] < t.len() && t[positions@[m] as int].va == starts@[m],
            k <= nb,
            lasts@.len() == k,
            lengths@.len() == k,
            forall|m: int| 0 <= m < k ==> #[trigger] lasts@[m] == last_insn(t, p, s, starts@[m]),
            forall|m: int| 0 <= m < k ==> #[trigger] lengths@[m] == block_length(t, p, s, starts@[m]),
            index@ == last_index(t, p, s, starts@.take(k as int)),
        decreases nb - k,
    {
        assert(positions@[k as int] < t.len());
        let (li, len) = extend_block(insns, predecessors, successors, positions[k]);
        let last = insns.entries[li].va;
        lasts.push(last);
        lengths.push(len);
        index.insert(last, starts[k]);
        assert(starts@.take(k + 1).drop_last() =~= starts@.take(k as int));
        k = k + 1;
    }
    assert(starts@.take(nb as int) =~= starts@);
    let mut blocks: BTreeMap<VA, BasicBlock> = BTreeMap::new();
    let mut k: usize = 0;
    while k < nb
        invariant
            t == insns@,
            p == edge_view(predecessors@),
            s == edge_view(successors@),
            starts@ == block_starts(t, p, s),
            nb == starts@.len(),
            lasts@.len() == nb,
            lengths@.len() == nb,
            forall|m: int| 0 <= m < nb ==> #[trigger] lasts@[m] == last_insn(t, p, s, starts@[m]),
            forall|m: int| 0 <= m < nb ==> #[trigger] lengths@[m] == block_length(t, p, s, starts@[m]),
            index@ == last_index(t, p, s, starts@),
            k <= nb,
            forall|va: VA| blocks@.contains_key(va) <==> exists|m: int| 0 <= m < k && starts@[m] == va,
            forall|va: VA| #[trigger] blocks@.contains_key(va) ==> is_block(blocks@[va], t, p, s, va),
        decreases nb - k,
    {
        let start = starts[k];
        let last = lasts[k];
        let succs = match successors.get(&last) {
            Some(v) => v.copy(),
            None => Flows::new(),
        };
        let preds = match predecessors.get(&start) {
            Some(v) => rebase_preds(v, &index),
            None => Flows::new(),
        };
        assert(preds@ == rebase(edges_at(p, start), index@)) by {
            if !p.contains_key(start) {
                assert(rebase(seq![], index@) == Seq::<Flow>::empty());
            }
        }
        let b = BasicBlock { address: start, length: lengths[k], predecessors: preds, successors: succs };
        assert(is_block(b, t, p, s, start));
        let ghost b0 = blocks@;
        blocks.insert(start, b);
        assert forall|va: VA| #[trigger] blocks@.contains_key(va) implies is_block(blocks@[va], t, p, s, va) by {
            if va != start {
                assert(b0.contains_key(va));
            }
        }
        assert forall|va: VA| blocks@.contains_key(va) <==> exists|m: int| 0 <= m < k + 1 && starts@[m] == va by {
            if blocks@.contains_key(va) && va != start {
                assert(b0.contains_key(va));
            }
            if exists|m: int| 0 <= m < k + 1 && starts@[m] == va {
                if va != start {
                    let m = choose|m: int| 0 <= m < k + 1 && starts@[m] == va;
                    assert(m < k);
                }
            }
        }
        k = k + 1;
    }
    assert forall|va: VA| blocks@.contains_key(va) <==> block_starts(t, p, s).contains(va) by {
        if block_starts(t, p, s).contains(va) {
            let m = choose|m: int| 0 <= m < nb && starts@[m] == va;
        }
    }
    blocks
}

} // verus!

verus! {

/// The successor table of `t`, as sequences.
pub open spec fn succ_map(t: Seq<InsnInfo>) -> Map<VA, Seq<Flow>> {
    Map::new(|va: VA| has_va(t, va), |va: VA| t[index_of(t, va)].successors)
}

/// The predecessor table of `t`, as sequences.
pub open spec fn pred_map(t: Seq<InsnInfo>) -> Map<VA, Seq<Flow>> {
    Map::new(|va: VA| has_va(t, va), |va: VA| preds_in(t, va))
}

/// Build the control-flow graph of the decoded instructions: derive the
/// successor and predecessor tables, then split into basic blocks.
pub fn cfg_from_instructions(insns: &InstructionTable) -> (r: CFG)
    requires
        insns.wf(),
    ensures
        blocks_of(r.basic_blocks@, insns@, pred_map(insns@), succ_map(insns@)),
{
    let ghost t = insns@;
    let successors = compute_successors(insns);
    let predecessors = compute_predecessors(insns);
    assert(edge_view(successors@) =~= succ_map(t)) by {
        assert forall|va: VA| #[trigger] successors@.contains_key(va) implies edge_view(successors@)[va] == succ_map(t)[va] by {
            assert(has_va(t, va));
            let i = index_of(t, va);
            lemma_index_of(t, i);
            assert(flows_at(successors@, t[i].va) == t[i].successors);
        }
    }
    assert(edge_view(predecessors@) =~= pred_map(t)) by {
        assert forall|va: VA| #[trigger] predecessors@.contains_key(va) implies edge_view(predecessors@)[va] == pred_map(t)[va] by {
            assert(has_va(t, va));
            let i = index_of(t, va);
            lemma_index_of(t, i);
            assert(flows_at(predecessors@, t[i].va) == preds_in(t, t[i].va));
        }
    }
    let bbs = compute_basic_blocks(insns, &predecessors, &successors);
    CFG { basic_blocks: bbs }
}

proof fn lemma_block_span(t: Seq<InsnInfo>, p: Map<VA, Seq<Flow>>, s: Map<VA, Seq<Flow>>, va: VA)
    ensures
        block_length(t, p, s, va) == last_insn(t, p, s, va) + length_at(t, last_insn(t, p, s, va)) - va,
    decreases u64::MAX - va,
{
    if continues(t, p, s, va) {
        lemma_block_span(t, p, s, (va + length_at(t, va)) as VA);
    }
}

/// A block's length is the sum of its instructions' lengths, and those
/// instructions lie end to end: the block spans from its start to the end
/// of its last instruction.
pub proof fn lemma_block_length_is_span(t: Seq<InsnInfo>, va: VA)
    requires
        table_wf(t),
    ensures
        block_length(t, pred_map(t), succ_map(t), va) == length_at(t, va) + if continues(t, pred_map(t), succ_map(t), va) {
            block_length(t, pred_map(t), succ_map(t), (va + length_at(t, va)) as VA)
        } else {
            0
        },
        block_length(t, pred_map(t), succ_map(t), va) == last_insn(t, pred_map(t), succ_map(t), va)
            + length_at(t, last_insn(t, pred_map(t), succ_map(t), va)) - va,
{
    lemma_block_span(t, pred_map(t), succ_map(t), va);
}

/// A conditional move at `x` makes the instruction just past it start a
/// block, even with no other edge into it.
pub proof fn lemma_cmov_splits_block(t: Seq<InsnInfo>, i: int, j: int)
    requires
        table_wf(t),
        0 <= i < t.len(),
        0 <= j < t[i].successors.len(),
        t[i].successors[j] == Flow::ConditionalMove((t[i].va + t[i].length) as VA),
        has_va(t, (t[i].va + t[i].length) as VA),
    ensures
        is_block_start(pred_map(t), succ_map(t), (t[i].va + t[i].length) as VA),
{
    let next = (t[i].va + t[i].length) as VA;
    crate::edges::lemma_edge_tables_inverse(t);
    let f = t[i].successors[j];
    assert(preds_in(t, f.dest()).contains(f.retarget(t[i].va)));
    assert(edges_at(pred_map(t), next) == preds_in(t, next));
    let ps = preds_in(t, next);
    let k = choose|k: int| 0 <= k < ps.len() && ps[k] == f.retarget(t[i].va);
    assert(!(ps[k] is Fallthrough));
}

} // verus!

verus! {

/// `va` lies in the block that starts at some block start.
pub open spec fn in_some_block(t: Seq<InsnInfo>, va: VA) -> bool {
    exists|start: VA|
        block_starts(t, pred_map(t), succ_map(t)).contains(start) && #[trigger] on_run(
            t,
            pred_map(t),
            succ_map(t),
            start,
            va,
        )
}

/// `va` is reached from `from` by running on within one block.
pub open spec fn on_run(t: Seq<InsnInfo>, p: Map<VA, Seq<Flow>>, s: Map<VA, Seq<Flow>>, from: VA, va: VA) -> bool
    decreases u64::MAX - from,
{
    from == va || (continues(t, p, s, from) && on_run(t, p, s, (from + length_at(t, from)) as VA, va))
}

proof fn lemma_run_extends(t: Seq<InsnInfo>, p: Map<VA, Seq<Flow>>, s: Map<VA, Seq<Flow>>, from: VA, x: VA)
    requires
        on_run(t, p, s, from, x),
        continues(t, p, s, x),
    ensures
        on_run(t, p, s, from, (x + length_at(t, x)) as VA),
    decreases u64::MAX - from,
{
    let next = (x + length_at(t, x)) as VA;
    assert(on_run(t, p, s, next, next));
    if from != x {
        lemma_run_extends(t, p, s, (from + length_at(t, from)) as VA, x);
    }
}

proof fn lemma_starts_has(t: Seq<InsnInfo>, p: Map<VA, Seq<Flow>>, s: Map<VA, Seq<Flow>>, i: int)
    requires
        0 <= i < t.len(),
        is_block_start(p, s, t[i].va),
    ensures
        block_starts(t, p, s).contains(t[i].va),
    decreases t.len(),
{
    let b = block_starts(t, p, s);
    if i == t.len() - 1 {
        assert(b.last() == t[i].va);
    } else {
        assert(t.drop_last()[i] == t[i]);
        lemma_starts_has(t.drop_last(), p, s, i);
        let b0 = block_starts(t.drop_last(), p, s);
        let k = choose|k: int| 0 <= k < b0.len() && b0[k] == t[i].va;
        assert(b[k] == b0[k]);
    }
}

proof fn lemma_covered(t: Seq<InsnInfo>, i: int)
    requires
        table_wf(t),
        fallthrough_is_next(t),
        0 <= i < t.len(),
    ensures
        in_some_block(t, t[i].va),
    decreases t[i].va,
{
    let p = pred_map(t);
    let s = succ_map(t);
    let va = t[i].va;
    assert(has_va(t, va));
    if is_block_start(p, s, va) {
        lemma_starts_has(t, p, s, i);
        assert(on_run(t, p, s, va, va));
    } else {
        let ps = edges_at(p, va);
        assert(ps == preds_in(t, va));
        assert(ps.len() > 0);
        assert(ps[0] is Fallthrough);
        crate::edges::lemma_edge_tables_inverse(t);
        let (a, jj) = choose|a: int, jj: int|
            0 <= a < t.len() && 0 <= jj < t[a].successors.len() && t[a].successors[jj].dest() == va
                && t[a].successors[jj].retarget(t[a].va) == #[trigger] preds_in(t, va)[0];
        let f = t[a].successors[jj];
        assert(f is Fallthrough);
        assert(f.dest() == t[a].va + t[a].length);
        let src = t[a].va;
        assert(ps[0].dest() == src);
        lemma_index_of(t, a);
        assert(has_va(t, src));
        assert(edges_at(s, src) == t[a].successors);
        assert(has_fallthrough(edges_at(s, src)));
        assert(!has_branch(edges_at(s, src)));
        assert(continues(t, p, s, src));
        lemma_covered(t, a);
        let start = choose|start: VA|
            block_starts(t, p, s).contains(start) && #[trigger] on_run(t, p, s, start, src);
        lemma_run_extends(t, p, s, start, src);
    }
}

/// Every decoded instruction belongs to a block: it is reached from some
/// block start by running on within that block, so it lies within the
/// block's span.
pub proof fn lemma_blocks_cover_instructions(t: Seq<InsnInfo>)
    requires
        table_wf(t),
        fallthrough_is_next(t),
    ensures
        forall|i: int| 0 <= i < t.len() ==> #[trigger] in_some_block(t, t[i].va),
{
    assert forall|i: int| 0 <= i < t.len() implies #[trigger] in_some_block(t, t[i].va) by {
        lemma_covered(t, i);
    }
}

} // verus!

verus! {

/// No two decoded instructions share a byte.
pub open spec fn no_overlap(t: Seq<InsnInfo>) -> bool {
    forall|i: int, j: int| 0 <= i < j < t.len() ==> #[trigger] t[i].va + t[i].length <= #[trigger] t[j].va
}

proof fn lemma_starts_from(t: Seq<InsnInfo>, p: Map<VA, Seq<Flow>>, s: Map<VA, Seq<Flow>>, k: int)
    requires
        0 <= k < block_starts(t, p, s).len(),
    ensures
        has_va(t, block_starts(t, p, s)[k]),
        is_block_start(p, s, block_starts(t, p, s)[k]),
    decreases t.len(),
{
    let b0 = block_starts(t.drop_last(), p, s);
    if k < b0.len() {
        lemma_starts_from(t.drop_last(), p, s, k);
        let i = choose|i: int| 0 <= i < t.drop_last().len() && t.drop_last()[i].va == b0[k];
        assert(t[i].va == b0[k]);
    } else {
        assert(t[t.len() - 1].va == block_starts(t, p, s)[k]);
    }
}

proof fn lemma_run_stops_before(t: Seq<InsnInfo>, x: VA, next_start: VA)
    requires
        table_wf(t),
        fallthrough_is_next(t),
        no_overlap(t),
        has_va(t, x),
        has_va(t, next_start),
        is_block_start(pred_map(t), succ_map(t), next_start),
        x < next_start,
    ensures
        x + block_length(t, pred_map(t), succ_map(t), x) <= next_start,
    decreases u64::MAX - x,
{
    let p = pred_map(t);
    let s = succ_map(t);
    let i = choose|i: int| 0 <= i < t.len() && t[i].va == x;
    let k = choose|k: int| 0 <= k < t.len() && t[k].va == next_start;
    lemma_index_of(t, i);
    assert(i < k) by {
        if k < i {
            assert(t[k].va < t[i].va);
        }
    }
    assert(x + t[i].length <= next_start);
    if continues(t, p, s, x) {
        let next = (x + t[i].length) as VA;
        if next < next_start {
            lemma_run_stops_before(t, next, next_start);
        } else {
            // the instruction at `x` would run on into a block start
            assert(next == next_start);
            assert(edges_at(s, x) == t[i].successors);
            let out = t[i].successors;
            let jf = choose|jf: int| 0 <= jf < out.len() && out[jf] is Fallthrough;
            crate::edges::lemma_edge_tables_inverse(t);
            assert(out[jf].dest() == next_start);
            assert(preds_in(t, next_start).contains(out[jf].retarget(x)));
            let ps = edges_at(p, next_start);
            assert(ps == preds_in(t, next_start));
            assert(ps.len() > 0);
            assert(!has_branch(ps));
            let q = choose|q: int| 0 <= q < ps.len() && ps[q] is Fallthrough && has_branch(edges_at(s, ps[q].dest()));
            let (a, ja) = choose|a: int, ja: int|
                0 <= a < t.len() && 0 <= ja < t[a].successors.len() && t[a].successors[ja].dest() == next_start
                    && t[a].successors[ja].retarget(t[a].va) == #[trigger] preds_in(t, next_start)[q];
            assert(t[a].successors[ja] is Fallthrough);
            assert(t[a].va + t[a].length == next_start);
            assert(a == i) by {
                if a < i {
                    assert(t[a].va + t[a].length <= t[i].va);
                } else if i < a {
                    assert(t[i].va + t[i].length <= t[a].va);
                }
            }
            assert(ps[q].dest() == x);
        }
    }
}

/// Blocks do not overlap where the decoded instructions do not: a block
/// ends at or before the start of any later block.
pub proof fn lemma_blocks_disjoint(t: Seq<InsnInfo>, first: VA, second: VA)
    requires
        table_wf(t),
        fallthrough_is_next(t),
        no_overlap(t),
        block_starts(t, pred_map(t), succ_map(t)).contains(first),
        block_starts(t, pred_map(t), succ_map(t)).contains(second),
        first < second,
    ensures
        first + block_length(t, pred_map(t), succ_map(t), first) <= second,
{
    let b = block_starts(t, pred_map(t), succ_map(t));
    let k1 = choose|k: int| 0 <= k < b.len() && b[k] == first;
    let k2 = choose|k: int| 0 <= k < b.len() && b[k] == second;
    lemma_starts_from(t, pred_map(t), succ_map(t), k1);
    lemma_starts_from(t, pred_map(t), succ_map(t), k2);
    lemma_run_stops_before(t, first, second);
}

} // verus!
