use vstd::prelude::*;

use crate::classify::{get_insn_flow, insn_flows, lemma_fallthrough_edge};
use crate::flow::Flow;
use crate::image::Module;
use crate::insn::Instruction;
use crate::smallflows::Flows;
use crate::VA;

verus! {

/// Number of bytes handed to the decoder for one instruction.
pub const WINDOW: usize = 16;

/// What the analysis keeps of one decoded instruction.
pub struct InsnInfo {
    pub va: VA,
    pub length: u64,
    pub successors: Seq<Flow>,
}

/// One decoded instruction: its address, length and outgoing edges, call
/// edges excluded.
#[derive(Debug)]
pub struct InstructionDescriptor {
    pub va: VA,
    pub length: u64,
    pub successors: Flows,
}

impl InstructionDescriptor {
    pub open spec fn view(&self) -> InsnInfo {
        InsnInfo { va: self.va, length: self.length, successors: self.successors@ }
    }
}

/// The decoded instructions, in ascending address order.
#[derive(Debug)]
pub struct InstructionTable {
    pub entries: Vec<InstructionDescriptor>,
}

/// Addresses ascend strictly, and each instruction has a length and ends
/// within the address space.
pub open spec fn table_wf(t: Seq<InsnInfo>) -> bool {
    &&& forall|i: int, j: int| 0 <= i < j < t.len() ==> t[i].va < t[j].va
    &&& forall|i: int| 0 <= i < t.len() ==> 1 <= #[trigger] t[i].length && t[i].va + t[i].length <= u64::MAX
}

/// Every fallthrough edge of the table goes to the address just past its
/// instruction, as the classifier makes them.
pub open spec fn fallthrough_is_next(t: Seq<InsnInfo>) -> bool {
    forall|i: int, j: int|
        0 <= i < t.len() && 0 <= j < t[i].successors.len() && #[trigger] t[i].successors[j] is Fallthrough
            ==> t[i].successors[j].dest() == t[i].va + t[i].length
}

/// Some instruction of the table starts at `va`.
pub open spec fn has_va(t: Seq<InsnInfo>, va: VA) -> bool {
    exists|i: int| 0 <= i < t.len() && t[i].va == va
}

/// The edges of a sequence other than call edges, in order.
pub open spec fn non_calls(s: Seq<Flow>) -> Seq<Flow>
    decreases s.len(),
{
    if s.len() == 0 {
        seq![]
    } else if s.last() is Call {
        non_calls(s.drop_last())
    } else {
        non_calls(s.drop_last()).push(s.last())
    }
}

proof fn lemma_non_calls_from(s: Seq<Flow>, k: int)
    requires
        0 <= k < non_calls(s).len(),
    ensures
        exists|j: int| 0 <= j < s.len() && s[j] == non_calls(s)[k],
    decreases s.len(),
{
    let r0 = non_calls(s.drop_last());
    if k < r0.len() {
        lemma_non_calls_from(s.drop_last(), k);
        let j = choose|j: int| 0 <= j < s.drop_last().len() && s.drop_last()[j] == r0[k];
        assert(s[j] == non_calls(s)[k]);
    } else {
        assert(s[s.len() - 1] == non_calls(s)[k]);
    }
}

/// The destinations of a sequence of edges, in order.
pub open spec fn dests(s: Seq<Flow>) -> Seq<VA> {
    s.map_values(|f: Flow| f.dest())
}

/// What the table records of `insn` decoded at `va`.
pub open spec fn descriptor_of(m: Module, va: VA, insn: Instruction) -> InsnInfo {
    InsnInfo { va, length: insn.length as u64, successors: non_calls(insn_flows(m, va, insn)) }
}

/// An instruction the table can take: it has a length and ends within the
/// address space.
pub open spec fn insn_fits(va: VA, insn: Instruction) -> bool {
    1 <= insn.length && va + insn.length <= u64::MAX
}

impl InstructionTable {
    pub open spec fn view(&self) -> Seq<InsnInfo> {
        self.entries@.map_values(|d: InstructionDescriptor| d.view())
    }

    pub open spec fn wf(&self) -> bool {
        table_wf(self@)
    }

    pub fn new() -> (r: InstructionTable)
        ensures
            r@ == Seq::<InsnInfo>::empty(),
    {
        let r = InstructionTable { entries: Vec::new() };
        assert(r@ =~= Seq::<InsnInfo>::empty());
        r
    }

    /// Position of the instruction at `va`.
    pub fn find(&self, va: VA) -> (r: Option<usize>)
        ensures
            match r {
                Some(i) => i < self@.len() && self@[i as int].va == va,
                None => !has_va(self@, va),
            },
    {
        let n = self.entries.len();
        let mut i: usize = 0;
        while i < n
            invariant
                n == self@.len(),
                i <= n,
                forall|j: int| 0 <= j < i ==> self@[j].va != va,
            decreases n - i,
        {
            if self.entries[i].va == va {
                return Some(i);
            }
            i = i + 1;
        }
        None
    }

    /// Add an instruction at an address the table does not hold yet, keeping
    /// addresses in order.
    pub fn insert(&mut self, d: InstructionDescriptor)
        requires
            old(self).wf(),
            !has_va(old(self)@, d.va),
            1 <= d.length,
            d.va + d.length <= u64::MAX,
        ensures
            final(self).wf(),
            exists|pos: int| 0 <= pos <= old(self)@.len() && final(self)@ == old(self)@.insert(pos, d.view()),
    {
        let n = self.entries.len();
        let mut pos: usize = 0;
        while pos < n && self.entries[pos].va < d.va
            invariant
                n == self@.len(),
                pos <= n,
                forall|j: int| 0 <= j < pos ==> self@[j].va < d.va,
            decreases n - pos,
        {
            pos = pos + 1;
        }
        let ghost before = self@;
        let ghost dv = d.view();
        self.entries.insert(pos, d);
        assert(self@ =~= before.insert(pos as int, dv));
        assert forall|i: int, j: int| 0 <= i < j < self@.len() implies self@[i].va < self@[j].va by {
            if pos < n {
                assert(before[pos as int].va != dv.va);
            }
        }
    }
}

/// The exploration of one function: addresses waiting to be decoded, and
/// the instructions decoded so far.
///
/// A driver asks `next_window` for an address and the bytes there, decodes
/// them, and hands the instruction back to `record`, until `next_window`
/// has nothing left.
#[derive(Debug)]
pub struct Explorer {
    pub queue: Vec<VA>,
    pub table: InstructionTable,
}

/// Each address of `s` is decoded already or cannot be read.
pub open spec fn settled(m: Module, t: Seq<InsnInfo>, s: Seq<VA>) -> bool {
    forall|k: int| 0 <= k < s.len() ==> has_va(t, #[trigger] s[k]) || m.bytes_at(s[k] as int, WINDOW as nat) is None
}

impl Explorer {
    pub open spec fn wf(&self) -> bool {
        &&& self.table.wf()
        &&& fallthrough_is_next(self.table@)
    }

    /// Start exploring at `entry`.
    pub fn new(entry: VA) -> (r: Explorer)
        ensures
            r.wf(),
            r.queue@ == seq![entry],
            r.table@ == Seq::<InsnInfo>::empty(),
    {
        Explorer { queue: vec![entry], table: InstructionTable::new() }
    }

    /// Take addresses off the queue, most recent first, skipping those
    /// decoded already and those that cannot be read, until one remains;
    /// return it with the bytes there.
    pub fn next_window(&mut self, m: &Module) -> (r: Option<(VA, Vec<u8>)>)
        ensures
            final(self).table@ == old(self).table@,
            final(self).queue@.len() <= old(self).queue@.len(),
            final(self).queue@ == old(self).queue@.take(final(self).queue@.len() as int),
            match r {
                None => {
                    &&& final(self).queue@.len() == 0
                    &&& settled(*m, old(self).table@, old(self).queue@)
                },
                Some((va, w)) => {
                    let n = final(self).queue@.len() as int;
                    &&& n < old(self).queue@.len()
                    &&& va == old(self).queue@[n]
                    &&& !has_va(old(self).table@, va)
                    &&& m.bytes_at(va as int, WINDOW as nat) == Some(w@)
                    &&& settled(*m, old(self).table@, old(self).queue@.subrange(n + 1, old(self).queue@.len() as int))
                },
            },
    {
        let ghost q0 = self.queue@;
        loop
            invariant
                self.table@ == old(self).table@,
                q0 == old(self).queue@,
                self.queue@.len() <= q0.len(),
                self.queue@ == q0.take(self.queue@.len() as int),
                settled(*m, self.table@, q0.subrange(self.queue@.len() as int, q0.len() as int)),
            decreases self.queue@.len(),
        {
            let ghost before = self.queue@.len() as int;
            let va = match self.queue.pop() {
                None => {
                    assert(q0.subrange(0, q0.len() as int) =~= q0);
                    return None;
                },
                Some(va) => va,
            };
            let ghost n = self.queue@.len() as int;
            assert(self.queue@ =~= q0.take(n));
            assert(va == q0[n]);
            let ghost tail_before = q0.subrange(before, q0.len() as int);
            match self.table.find(va) {
                Some(_) => {
                    assert(q0.subrange(n, q0.len() as int) =~= seq![va] + tail_before);
                    continue;
                },
                None => {},
            }
            match m.read(va, WINDOW) {
                Some(w) => {
                    return Some((va, w));
                },
                None => {
                    assert(q0.subrange(n, q0.len() as int) =~= seq![va] + tail_before);
                },
            }
        }
    }

    /// Record the instruction decoded at `va`: store its edges other than
    /// calls, and queue their destinations. An address decoded already, or
    /// an instruction that does not fit, changes nothing.
    pub fn record(&mut self, m: &Module, va: VA, insn: &Instruction)
        requires
            old(self).wf(),
        ensures
            final(self).wf(),
            if insn_fits(va, *insn) && !has_va(old(self).table@, va) {
                let d = descriptor_of(*m, va, *insn);
                &&& exists|pos: int|
                    0 <= pos <= old(self).table@.len() && final(self).table@ == old(self).table@.insert(pos, d)
                &&& final(self).queue@ == old(self).queue@ + dests(d.successors)
            } else {
                &&& final(self).table@ == old(self).table@
                &&& final(self).queue@ == old(self).queue@
            },
    {
        if insn.length == 0 || va > u64::MAX - insn.length as u64 {
            return;
        }
        match self.table.find(va) {
            Some(_) => return,
            None => {},
        }
        let flows = get_insn_flow(m, va, insn);
        let ghost all = flows@;
        let mut successors = Flows::new();
        let ghost q0 = self.queue@;
        let mut i: usize = 0;
        while i < flows.len()
            invariant
                all == flows@,
                i <= flows@.len(),
                successors@ == non_calls(all.take(i as int)),
                self.queue@ == q0 + dests(successors@),
                self.table@ == old(self).table@,
            decreases flows@.len() - i,
        {
            assert(all.take(i + 1).drop_last() =~= all.take(i as int));
            let f = flows.get(i);
            match f {
                Flow::Call(_) => {},
                _ => {
                    successors.push(f);
                    self.queue.push(f.va());
                    assert(dests(successors@) =~= dests(successors@.drop_last()).push(f.dest()));
                    assert(self.queue@ =~= q0 + dests(successors@));
                },
            }
            i = i + 1;
        }
        assert(all.take(all.len() as int) =~= all);
        let d = InstructionDescriptor { va, length: insn.length as u64, successors };
        assert(d.view() == descriptor_of(*m, va, *insn));
        let ghost dv = d.view();
        let ghost t0 = self.table@;
        proof {
            lemma_fallthrough_edge(*m, va, *insn);
            assert forall|j: int| 0 <= j < dv.successors.len() && #[trigger] dv.successors[j] is Fallthrough
                implies dv.successors[j].dest() == va + insn.length by {
                lemma_non_calls_from(all, j);
            }
        }
        self.table.insert(d);
        proof {
            let pos = choose|pos: int| 0 <= pos <= t0.len() && self.table@ == t0.insert(pos, dv);
            assert forall|i: int, j: int|
                0 <= i < self.table@.len() && 0 <= j < self.table@[i].successors.len()
                    && #[trigger] self.table@[i].successors[j] is Fallthrough
                implies self.table@[i].successors[j].dest() == self.table@[i].va + self.table@[i].length by {
                if i < pos {
                    assert(self.table@[i] == t0[i]);
                } else if i > pos {
                    assert(self.table@[i] == t0[i - 1]);
                }
            }
        }
    }

    /// The instructions decoded so far.
    pub fn into_table(self) -> (r: InstructionTable)
        ensures
            r@ == self.table@,
    {
        self.table
    }
}

} // verus!
