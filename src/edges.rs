use vstd::prelude::*;

use std::collections::BTreeMap;

use crate::explore::{has_va, table_wf, InsnInfo, InstructionTable};
use crate::flow::Flow;
use crate::smallflows::Flows;
use crate::VA;

verus! {

/// Edges of the table, keyed by instruction address.
pub type FlowMap = BTreeMap<VA, Flows>;

/// The edges that a map holds at `va`; none where it holds nothing.
pub open spec fn flows_at(m: Map<VA, Flows>, va: VA) -> Seq<Flow> {
    if m.contains_key(va) {
        m[va]@
    } else {
        seq![]
    }
}

/// The edges of `s` (leaving `src`) that arrive at `b`, each turned around to
/// point back at `src`.
pub open spec fn incoming(s: Seq<Flow>, src: VA, b: VA) -> Seq<Flow>
    decreases s.len(),
{
    if s.len() == 0 {
        seq![]
    } else if s.last().dest() == b {
        incoming(s.drop_last(), src, b).push(s.last().retarget(src))
    } else {
        incoming(s.drop_last(), src, b)
    }
}

/// The predecessor edges of `b`: every edge of the table that arrives at
/// `b`, turned around to point at its source, in table order.
pub open spec fn preds_in(t: Seq<InsnInfo>, b: VA) -> Seq<Flow>
    decreases t.len(),
{
    if t.len() == 0 {
        seq![]
    } else {
        preds_in(t.drop_last(), b) + incoming(t.last().successors, t.last().va, b)
    }
}

/// `m` holds an entry for exactly the addresses of the table.
pub open spec fn keyed_by(m: Map<VA, Flows>, t: Seq<InsnInfo>) -> bool {
    forall|va: VA| m.contains_key(va) <==> has_va(t, va)
}

/// The successor edges of every instruction, keyed by its address.
pub fn compute_successors(insns: &InstructionTable) -> (r: FlowMap)
    requires
        insns.wf(),
    ensures
        keyed_by(r@, insns@),
        forall|i: int| 0 <= i < insns@.len() ==> #[trigger] flows_at(r@, insns@[i].va) == insns@[i].successors,
{
    let t = Ghost(insns@);
    let mut r: FlowMap = BTreeMap::new();
    let n = insns.entries.len();
    let mut i: usize = 0;
    while i < n
        invariant
            t@ == insns@,
            table_wf(t@),
            n == t@.len(),
            i <= n,
            forall|va: VA| r@.contains_key(va) <==> exists|j: int| 0 <= j < i && t@[j].va == va,
            forall|j: int| 0 <= j < i ==> #[trigger] flows_at(r@, t@[j].va) == t@[j].successors,
        decreases n - i,
    {
        let d = &insns.entries[i];
        let s = d.successors.copy();
        assert(t@[i as int].va == d.va && t@[i as int].successors == d.successors@);
        let ghost r0 = r@;
        r.insert(d.va, s);
        assert(r@ == r0.insert(d.va, s));
        assert forall|j: int| 0 <= j < i + 1 implies #[trigger] flows_at(r@, t@[j].va) == t@[j].successors by {
            if j < i {
                assert(t@[j].va < t@[i as int].va);
                assert(flows_at(r0, t@[j].va) == t@[j].successors);
            }
        }
        i = i + 1;
    }
    r
}

/// The edges of `s` that arrive at `b`, turned around to point at `src`.
fn incoming_edges(s: &Flows, src: VA, b: VA, out: &mut Flows)
    ensures
        final(out)@ == old(out)@ + incoming(s@, src, b),
{
    let ghost base = out@;
    let mut j: usize = 0;
    while j < s.len()
        invariant
            j <= s@.len(),
            out@ == base + incoming(s@.take(j as int), src, b),
        decreases s@.len() - j,
    {
        assert(s@.take(j + 1).drop_last() =~= s@.take(j as int));
        let f = s.get(j);
        if f.va() == b {
            out.push(f.swap(src));
        }
        assert(out@ =~= base + incoming(s@.take(j + 1), src, b));
        j = j + 1;
    }
    assert(s@.take(s@.len() as int) =~= s@);
}

fn preds_of(insns: &InstructionTable, b: VA) -> (v: Flows)
    ensures
        v@ == preds_in(insns@, b),
{
    let n = insns.entries.len();
    let mut v = Flows::new();
    let mut a: usize = 0;
    while a < n
        invariant
            n == insns@.len(),
            a <= n,
            v@ == preds_in(insns@.take(a as int), b),
        decreases n - a,
    {
        assert(insns@.take(a + 1).drop_last() =~= insns@.take(a as int));
        let e = &insns.entries[a];
        incoming_edges(&e.successors, e.va, b, &mut v);
        a = a + 1;
    }
    assert(insns@.take(n as int) =~= insns@);
    v
}

/// The predecessor edges of every instruction, keyed by its address: for
/// each edge from A to B, B gets the same kind of edge pointing back at A.
pub fn compute_predecessors(insns: &InstructionTable) -> (r: FlowMap)
    requires
        insns.wf(),
    ensures
        keyed_by(r@, insns@),
        forall|i: int| 0 <= i < insns@.len() ==> #[trigger] flows_at(r@, insns@[i].va) == preds_in(insns@, insns@[i].va),
{
    let t = Ghost(insns@);
    let mut r: FlowMap = BTreeMap::new();
    let n = insns.entries.len();
    let mut i: usize = 0;
    while i < n
        invariant
            t@ == insns@,
            table_wf(t@),
            n == t@.len(),
            i <= n,
            forall|va: VA| r@.contains_key(va) <==> exists|j: int| 0 <= j < i && t@[j].va == va,
            forall|j: int| 0 <= j < i ==> #[trigger] flows_at(r@, t@[j].va) == preds_in(t@, t@[j].va),
        decreases n - i,
    {
        let b = insns.entries[i].va;
        assert(t@[i as int].va == b);
        let v = preds_of(insns, b);
        let ghost r0 = r@;
        r.insert(b, v);
        assert(r@ == r0.insert(b, v));
        assert forall|j: int| 0 <= j < i + 1 implies #[trigger] flows_at(r@, t@[j].va) == preds_in(t@, t@[j].va) by {
            if j < i {
                assert(t@[j].va < t@[i as int].va);
                assert(flows_at(r0, t@[j].va) == preds_in(t@, t@[j].va));
            }
        }
        i = i + 1;
    }
    r
}

} // verus!

verus! {

proof fn lemma_incoming_has(s: Seq<Flow>, src: VA, b: VA, j: int)
    requires
        0 <= j < s.len(),
        s[j].dest() == b,
    ensures
        incoming(s, src, b).contains(s[j].retarget(src)),
    decreases s.len(),
{
    let r = incoming(s, src, b);
    if j == s.len() - 1 {
        assert(r.last() == s[j].retarget(src));
    } else {
        lemma_incoming_has(s.drop_last(), src, b, j);
        let r0 = incoming(s.drop_last(), src, b);
        let k = choose|k: int| 0 <= k < r0.len() && r0[k] == s[j].retarget(src);
        assert(r[k] == r0[k]);
    }
}

proof fn lemma_incoming_from(s: Seq<Flow>, src: VA, b: VA, k: int)
    requires
        0 <= k < incoming(s, src, b).len(),
    ensures
        exists|j: int| 0 <= j < s.len() && s[j].dest() == b && #[trigger] s[j].retarget(src) == incoming(s, src, b)[k],
    decreases s.len(),
{
    let r0 = incoming(s.drop_last(), src, b);
    if k < r0.len() {
        lemma_incoming_from(s.drop_last(), src, b, k);
        let j = choose|j: int| 0 <= j < s.drop_last().len() && s.drop_last()[j].dest() == b && #[trigger] s.drop_last()[j].retarget(src) == r0[k];
        assert(s[j] == s.drop_last()[j]);
    } else {
        assert(s[s.len() - 1].retarget(src) == incoming(s, src, b)[k]);
    }
}

proof fn lemma_preds_has(t: Seq<InsnInfo>, i: int, j: int)
    requires
        0 <= i < t.len(),
        0 <= j < t[i].successors.len(),
    ensures
        preds_in(t, t[i].successors[j].dest()).contains(t[i].successors[j].retarget(t[i].va)),
    decreases t.len(),
{
    let f = t[i].successors[j];
    let b = f.dest();
    let earlier = preds_in(t.drop_last(), b);
    let inc = incoming(t.last().successors, t.last().va, b);
    if i == t.len() - 1 {
        lemma_incoming_has(t[i].successors, t[i].va, b, j);
        let k = choose|k: int| 0 <= k < inc.len() && inc[k] == f.retarget(t[i].va);
        assert(preds_in(t, b)[earlier.len() + k] == inc[k]);
    } else {
        assert(t.drop_last()[i] == t[i]);
        lemma_preds_has(t.drop_last(), i, j);
        let k = choose|k: int| 0 <= k < earlier.len() && earlier[k] == f.retarget(t[i].va);
        assert(preds_in(t, b)[k] == earlier[k]);
    }
}

proof fn lemma_preds_from(t: Seq<InsnInfo>, b: VA, k: int)
    requires
        0 <= k < preds_in(t, b).len(),
    ensures
        exists|i: int, j: int|
            0 <= i < t.len() && 0 <= j < t[i].successors.len() && t[i].successors[j].dest() == b
                && #[trigger] t[i].successors[j].retarget(t[i].va) == preds_in(t, b)[k],
    decreases t.len(),
{
    let earlier = preds_in(t.drop_last(), b);
    let n = t.len() - 1;
    if k < earlier.len() {
        lemma_preds_from(t.drop_last(), b, k);
        let (i, j) = choose|i: int, j: int|
            0 <= i < t.drop_last().len() && 0 <= j < t.drop_last()[i].successors.len()
                && t.drop_last()[i].successors[j].dest() == b
                && #[trigger] t.drop_last()[i].successors[j].retarget(t.drop_last()[i].va) == earlier[k];
        assert(t[i] == t.drop_last()[i]);
        assert(t[i].successors[j].retarget(t[i].va) == preds_in(t, b)[k]);
    } else {
        lemma_incoming_from(t[n].successors, t[n].va, b, k - earlier.len());
        let j = choose|j: int|
            0 <= j < t[n].successors.len() && t[n].successors[j].dest() == b
                && #[trigger] t[n].successors[j].retarget(t[n].va) == incoming(t[n].successors, t[n].va, b)[k - earlier.len()];
        assert(t[n].successors[j].retarget(t[n].va) == preds_in(t, b)[k]);
    }
}

/// The predecessor table is the successor table turned around: each edge
/// from A to B appears among B's predecessors as the same kind of edge to A,
/// and each predecessor edge of B comes from such an edge.
pub proof fn lemma_edge_tables_inverse(t: Seq<InsnInfo>)
    ensures
        forall|i: int, j: int|
            0 <= i < t.len() && 0 <= j < t[i].successors.len() ==> preds_in(t, t[i].successors[j].dest()).contains(
                #[trigger] t[i].successors[j].retarget(t[i].va),
            ),
        forall|b: VA, k: int|
            0 <= k < preds_in(t, b).len() ==> exists|i: int, j: int|
                0 <= i < t.len() && 0 <= j < t[i].successors.len() && t[i].successors[j].dest() == b
                    && t[i].successors[j].retarget(t[i].va) == #[trigger] preds_in(t, b)[k],
{
    assert forall|i: int, j: int|
        0 <= i < t.len() && 0 <= j < t[i].successors.len() implies preds_in(t, t[i].successors[j].dest()).contains(
            #[trigger] t[i].successors[j].retarget(t[i].va),
        ) by {
        lemma_preds_has(t, i, j);
    }
    assert forall|b: VA, k: int| 0 <= k < preds_in(t, b).len() implies exists|i: int, j: int|
        0 <= i < t.len() && 0 <= j < t[i].successors.len() && t[i].successors[j].dest() == b
            && t[i].successors[j].retarget(t[i].va) == #[trigger] preds_in(t, b)[k] by {
        lemma_preds_from(t, b, k);
    }
}

} // verus!
