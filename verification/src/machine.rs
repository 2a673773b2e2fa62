//! The macro-expansion machine: a definition table seeded with one
//! bootstrap definition, and a stack-of-frames interpreter for resolved
//! elements.
//!
//! Execution feeds the active activation's remaining code one element at a
//! time: instructions execute, expressions are pushed onto the activation's
//! value frame. When the code is exhausted the last value (the redex) is
//! inspected: a list with an atom head is a macro call, an atom or empty
//! list is implicitly returned as the activation's sole value, and anything
//! else faults. The active frame is always re-derived as the top of the
//! stack, so no dangling frame reference can exist.

use vstd::prelude::*;

use crate::element::{full_views, ElemV, MetaElement};
use crate::minst::{MacroInstruction, ReturnInstData};
use crate::sym::{SymAtom, SymItem, SymList, SymListItem};

verus! {

/// A terminal, unrecoverable runtime condition.
#[derive(Debug, Clone, PartialEq, Eq)]
pub enum RuntimeFault {
    /// A call named a macro the definition table does not hold.
    UnknownDefinition(String),
    /// A macro name, or a definition's name slot, is not a plain atom.
    NonAtomMacroHead,
    /// A frame position or stack depth outside what exists was read, or a
    /// frame held too few elements for the instruction consuming it.
    IndexOutOfRange,
    /// A return found no sole value to deliver: zero values, or several.
    EmptyOrAmbiguousReturn,
    /// The reserved `Expand` instruction was executed.
    UnimplementedInstruction,
}

/// The mathematical shape of a fault.
pub ghost enum FaultV {
    UnknownDefinition(Seq<char>),
    NonAtomMacroHead,
    IndexOutOfRange,
    EmptyOrAmbiguousReturn,
    UnimplementedInstruction,
}

impl RuntimeFault {
    /// The shape of this fault.
    pub open spec fn view(&self) -> FaultV {
        match self {
            RuntimeFault::UnknownDefinition(n) => FaultV::UnknownDefinition(n@),
            RuntimeFault::NonAtomMacroHead => FaultV::NonAtomMacroHead,
            RuntimeFault::IndexOutOfRange => FaultV::IndexOutOfRange,
            RuntimeFault::EmptyOrAmbiguousReturn => FaultV::EmptyOrAmbiguousReturn,
            RuntimeFault::UnimplementedInstruction => FaultV::UnimplementedInstruction,
        }
    }
}

/// A registered `(name, parameter list, body)` macro definition.
#[derive(Debug)]
pub struct MetaDef {
    pub name: MetaElement,
    pub params: MetaElement,
    pub body: MetaElement,
}

/// The shape of a definition.
pub ghost struct DefV {
    pub name: ElemV,
    pub params: ElemV,
    pub body: ElemV,
}

impl MetaDef {
    /// The shape of this definition.
    pub open spec fn view(&self) -> DefV {
        DefV { name: self.name@, params: self.params@, body: self.body@ }
    }

    /// Every element of the definition is fully resolved.
    pub open spec fn wf(&self) -> bool {
        self.name.wf() && self.params.wf() && self.body.wf()
    }
}

/// One activation: its value frame, the code it is executing, and how far
/// that code has been fed.
#[derive(Debug)]
pub struct Frame {
    pub values: Vec<MetaElement>,
    pub code: Vec<MetaElement>,
    pub ip: usize,
}

/// The shape of an activation.
pub ghost struct FrameV {
    pub values: Seq<ElemV>,
    pub code: Seq<ElemV>,
    pub ip: int,
}

/// The shapes of a sequence of elements.
pub open spec fn elem_views(vs: Seq<MetaElement>) -> Seq<ElemV> {
    Seq::new(vs.len(), |i: int| {
        if 0 <= i < vs.len() {
            vs[i]@
        } else {
            ElemV::Atom(Seq::empty())
        }
    })
}

/// Every element of a sequence is fully resolved.
pub open spec fn elems_wf(vs: Seq<MetaElement>) -> bool {
    forall|i: int| 0 <= i < vs.len() ==> (#[trigger] vs[i]).wf()
}

impl Frame {
    /// The shape of this activation.
    pub open spec fn view(&self) -> FrameV {
        FrameV {
            values: elem_views(self.values@),
            code: elem_views(self.code@),
            ip: self.ip as int,
        }
    }

    /// The activation's elements are resolved and its pointer in bounds.
    pub open spec fn wf(&self) -> bool {
        elems_wf(self.values@) && elems_wf(self.code@) && self.ip <= self.code@.len()
    }
}

/// The machine: the call stack, whose top is always the active frame, and
/// the append-only definition table.
#[derive(Debug)]
pub struct MetaMachine {
    pub stack: Vec<Frame>,
    pub defs: Vec<MetaDef>,
}

/// The shape of the whole machine.
pub ghost struct MachineV {
    pub stack: Seq<FrameV>,
    pub defs: Seq<DefV>,
}

impl MetaMachine {
    /// The shape of this machine.
    pub open spec fn view(&self) -> MachineV {
        MachineV {
            stack: Seq::new(self.stack@.len(), |i: int| {
                if 0 <= i < self.stack@.len() {
                    self.stack@[i]@
                } else {
                    FrameV { values: Seq::empty(), code: Seq::empty(), ip: 0 }
                }
            }),
            defs: Seq::new(self.defs@.len(), |i: int| {
                if 0 <= i < self.defs@.len() {
                    self.defs@[i]@
                } else {
                    DefV {
                        name: ElemV::Atom(Seq::empty()),
                        params: ElemV::Atom(Seq::empty()),
                        body: ElemV::Atom(Seq::empty()),
                    }
                }
            }),
        }
    }

    /// All frames and definitions are well formed.
    pub open spec fn wf(&self) -> bool {
        &&& forall|i: int| 0 <= i < self.stack@.len() ==> (#[trigger] self.stack@[i]).wf()
        &&& forall|i: int| 0 <= i < self.defs@.len() ==> (#[trigger] self.defs@[i]).wf()
    }
}

/// The index of the first definition carrying `name`, scanning in original
/// registration order from `i`: a later definition under a colliding name is
/// unreachable, by fixed policy.
pub open spec fn spec_find(defs: Seq<DefV>, name: Seq<char>, i: int) -> Option<int>
    decreases defs.len() - i,
{
    if i < 0 || i >= defs.len() {
        None
    } else if defs[i].name == ElemV::Atom(name) {
        Some(i)
    } else {
        spec_find(defs, name, i + 1)
    }
}

/// Lookup resolves to the first registered match: whatever index the scan
/// returns matches the name, and no earlier definition does.
pub proof fn lemma_find_first_match(defs: Seq<DefV>, name: Seq<char>, i: int)
    requires
        0 <= i,
    ensures
        match spec_find(defs, name, i) {
            Some(d) => {
                &&& i <= d < defs.len()
                &&& defs[d].name == ElemV::Atom(name)
                &&& forall|j: int| i <= j < d ==> (#[trigger] defs[j].name) != ElemV::Atom(name)
            },
            None => forall|j: int|
                i <= j < defs.len() ==> (#[trigger] defs[j].name) != ElemV::Atom(name),
        },
    decreases defs.len() - i,
{
    if i < defs.len() && defs[i].name != ElemV::Atom(name) {
        lemma_find_first_match(defs, name, i + 1);
    }
}

/// The number of parameters a definition declares.
pub open spec fn param_count(d: DefV) -> int {
    match d.params {
        ElemV::List(ps) => ps.len() as int,
        _ => 0,
    }
}

/// The code sequence a definition's body stands for: the members of a list
/// body, or the body itself as a single element.
pub open spec fn body_code(b: ElemV) -> Seq<ElemV> {
    match b {
        ElemV::List(es) => es,
        _ => seq![b],
    }
}

/// What one step of the machine yields.
pub ghost enum StepResult {
    Next(MachineV),
    Halted(ElemV),
    Faulted(FaultV),
}

/// Pop the active frame and deliver `val` to the caller, or halt with it
/// when the stack empties.
pub open spec fn spec_deliver(m: MachineV, val: ElemV) -> StepResult {
    if m.stack.len() == 1 {
        StepResult::Halted(val)
    } else {
        let caller = m.stack[m.stack.len() - 2];
        StepResult::Next(
            MachineV {
                stack: m.stack.take(m.stack.len() - 2).push(
                    FrameV { values: caller.values.push(val), ..caller },
                ),
                defs: m.defs,
            },
        )
    }
}

/// Return with no range: the active frame must hold exactly one value.
pub open spec fn spec_return_sole(m: MachineV) -> StepResult {
    let f = m.stack.last();
    if f.values.len() != 1 {
        StepResult::Faulted(FaultV::EmptyOrAmbiguousReturn)
    } else {
        spec_deliver(m, f.values[0])
    }
}

/// A position given as an offset, negative values counted from the final
/// position (`-1` is the last).
pub open spec fn resolve_pos(n: int, len: int) -> int {
    if n < 0 {
        len + n
    } else {
        n
    }
}

/// Execute one primitive instruction against the machine; the active
/// frame's code pointer has already moved past it.
pub open spec fn spec_exec_inst(m: MachineV, inst: MacroInstruction) -> StepResult {
    let f = m.stack.last();
    let vals = f.values;
    match inst {
        MacroInstruction::Define => {
            if vals.len() < 3 {
                StepResult::Faulted(FaultV::IndexOutOfRange)
            } else {
                let name = vals[vals.len() - 3];
                let params = vals[vals.len() - 2];
                let body = vals[vals.len() - 1];
                let rest = vals.take(vals.len() - 3);
                match name {
                    ElemV::Atom(_) => {
                        if params matches ElemV::List(_) {
                            StepResult::Next(
                                MachineV {
                                    stack: m.stack.take(m.stack.len() - 1).push(
                                        FrameV { values: rest, ..f },
                                    ),
                                    defs: m.defs.push(DefV { name, params, body }),
                                },
                            )
                        } else {
                            StepResult::Faulted(FaultV::NonAtomMacroHead)
                        }
                    },
                    ElemV::List(nl) => {
                        if nl.len() > 0 && nl[0] matches ElemV::Atom(_) {
                            StepResult::Next(
                                MachineV {
                                    stack: m.stack.take(m.stack.len() - 1).push(
                                        FrameV { values: rest, ..f },
                                    ),
                                    defs: m.defs.push(
                                        DefV {
                                            name: nl[0],
                                            params: ElemV::List(nl.drop_first()),
                                            body,
                                        },
                                    ),
                                },
                            )
                        } else {
                            StepResult::Faulted(FaultV::NonAtomMacroHead)
                        }
                    },
                    ElemV::Instr(_) => StepResult::Faulted(FaultV::NonAtomMacroHead),
                }
            }
        },
        MacroInstruction::Expand => StepResult::Faulted(FaultV::UnimplementedInstruction),
        MacroInstruction::Index { frame, narg } => {
            if frame < 0 || frame >= m.stack.len() {
                StepResult::Faulted(FaultV::IndexOutOfRange)
            } else {
                let target = m.stack[m.stack.len() - 1 - frame];
                match narg {
                    Some(nn) => {
                        if nn < 0 || nn >= target.values.len() {
                            StepResult::Faulted(FaultV::IndexOutOfRange)
                        } else {
                            StepResult::Next(
                                MachineV {
                                    stack: m.stack.take(m.stack.len() - 1).push(
                                        FrameV { values: vals.push(target.values[nn as int]), ..f },
                                    ),
                                    defs: m.defs,
                                },
                            )
                        }
                    },
                    None => StepResult::Next(
                        MachineV {
                            stack: m.stack.take(m.stack.len() - 1).push(
                                FrameV { values: vals.push(ElemV::List(target.values)), ..f },
                            ),
                            defs: m.defs,
                        },
                    ),
                }
            }
        },
        MacroInstruction::Context { range } => {
            match range {
                None => StepResult::Next(
                    MachineV {
                        stack: m.stack.take(m.stack.len() - 1).push(
                            FrameV { values: seq![ElemV::List(vals)], ..f },
                        ),
                        defs: m.defs,
                    },
                ),
                Some((a, b)) => {
                    let lo = resolve_pos(a as int, vals.len() as int);
                    let hi = resolve_pos(b as int, vals.len() as int);
                    if 0 <= lo <= hi < vals.len() {
                        StepResult::Next(
                            MachineV {
                                stack: m.stack.take(m.stack.len() - 1).push(
                                    FrameV {
                                        values: vals.take(lo) + seq![
                                            ElemV::List(vals.subrange(lo, hi + 1)),
                                        ] + vals.skip(hi + 1),
                                        ..f
                                    },
                                ),
                                defs: m.defs,
                            },
                        )
                    } else {
                        StepResult::Faulted(FaultV::IndexOutOfRange)
                    }
                },
            }
        },
        MacroInstruction::Return { range } => {
            match range {
                None => spec_return_sole(m),
                Some(ReturnInstData::Arg(n)) => {
                    let p = resolve_pos(n as int, vals.len() as int);
                    if 0 <= p < vals.len() {
                        spec_deliver(m, vals[p])
                    } else {
                        StepResult::Faulted(FaultV::IndexOutOfRange)
                    }
                },
                Some(ReturnInstData::Range(a, b)) => {
                    let lo = resolve_pos(a as int, vals.len() as int);
                    let hi = resolve_pos(b as int, vals.len() as int);
                    if 0 <= lo <= hi < vals.len() {
                        spec_deliver(m, ElemV::List(vals.subrange(lo, hi + 1)))
                    } else {
                        StepResult::Faulted(FaultV::IndexOutOfRange)
                    }
                },
            }
        },
    }
}

/// One step of the machine: feed the next code element, or reduce the redex
/// at the top of the active frame.
pub open spec fn spec_step(m: MachineV) -> StepResult {
    let f = m.stack.last();
    if f.ip < f.code.len() {
        let e = f.code[f.ip];
        let fed = MachineV {
            stack: m.stack.take(m.stack.len() - 1).push(FrameV { ip: f.ip + 1, ..f }),
            defs: m.defs,
        };
        match e {
            ElemV::Instr(i) => spec_exec_inst(fed, i),
            _ => StepResult::Next(
                MachineV {
                    stack: m.stack.take(m.stack.len() - 1).push(
                        FrameV { values: f.values.push(e), ip: f.ip + 1, ..f },
                    ),
                    defs: m.defs,
                },
            ),
        }
    } else if f.values.len() == 0 {
        StepResult::Faulted(FaultV::EmptyOrAmbiguousReturn)
    } else {
        let red = f.values.last();
        match red {
            ElemV::List(ls) => {
                if ls.len() == 0 {
                    spec_return_sole(m)
                } else {
                    match ls[0] {
                        ElemV::Atom(name) => {
                            match spec_find(m.defs, name, 0) {
                                None => StepResult::Faulted(FaultV::UnknownDefinition(name)),
                                Some(d) => {
                                    let k = param_count(m.defs[d]);
                                    if f.values.len() - 1 < k {
                                        StepResult::Faulted(FaultV::IndexOutOfRange)
                                    } else {
                                        let caller = FrameV {
                                            values: f.values.take(f.values.len() - 1 - k),
                                            ..f
                                        };
                                        let callee = FrameV {
                                            values: f.values.subrange(
                                                f.values.len() - 1 - k,
                                                f.values.len() - 1,
                                            ),
                                            code: body_code(m.defs[d].body),
                                            ip: 0,
                                        };
                                        StepResult::Next(
                                            MachineV {
                                                stack: m.stack.take(m.stack.len() - 1).push(
                                                    caller,
                                                ).push(callee),
                                                defs: m.defs,
                                            },
                                        )
                                    }
                                },
                            }
                        },
                        _ => StepResult::Faulted(FaultV::NonAtomMacroHead),
                    }
                }
            },
            ElemV::Atom(_) => spec_return_sole(m),
            ElemV::Instr(i) => {
                let trimmed = MachineV {
                    stack: m.stack.take(m.stack.len() - 1).push(
                        FrameV { values: f.values.drop_last(), ..f },
                    ),
                    defs: m.defs,
                };
                spec_exec_inst(trimmed, i)
            },
        }
    }
}

/// The machine after `n` steps, from a starting shape.
pub ghost enum RunState {
    Running(MachineV),
    Halted(ElemV),
    Faulted(FaultV),
}

/// Iterate `spec_step` for `n` steps from `m`.
pub open spec fn spec_run(m: MachineV, n: nat) -> RunState
    decreases n,
{
    if n == 0 {
        RunState::Running(m)
    } else {
        match spec_run(m, (n - 1) as nat) {
            RunState::Running(mm) => {
                if mm.stack.len() == 0 {
                    RunState::Faulted(FaultV::EmptyOrAmbiguousReturn)
                } else {
                    match spec_step(mm) {
                        StepResult::Next(m2) => RunState::Running(m2),
                        StepResult::Halted(v) => RunState::Halted(v),
                        StepResult::Faulted(ft) => RunState::Faulted(ft),
                    }
                }
            },
            done => done,
        }
    }
}

/// The starting shape for a program: one root frame whose code is the
/// program's members (or the program itself, for an atom), over the
/// machine's current definitions.
pub open spec fn spec_init(defs: Seq<DefV>, program: ElemV) -> MachineV {
    MachineV {
        stack: seq![FrameV { values: Seq::empty(), code: body_code(program), ip: 0 }],
        defs,
    }
}


/// Wrap a whole value sequence, consuming it, into one list element.
#[verifier::loop_isolation(false)]
fn wrap_values(vals: Vec<MetaElement>) -> (r: MetaElement)
    requires
        elems_wf(vals@),
    ensures
        r.wf(),
        r@ == ElemV::List(elem_views(vals@)),
{
    let ghost orig = vals@;
    let mut vals = vals;
    let mut slots: Vec<SymListItem> = Vec::new();
    while vals.len() > 0
        invariant
            slots@.len() + vals@.len() == orig.len(),
            vals@ =~= orig.skip(slots@.len() as int),
            forall|m: int|
                0 <= m < slots@.len() ==> (#[trigger] slots@[m]).full_slot_wf()
                    && slots@[m].full_view() == orig[m]@,
            elems_wf(orig),
        decreases vals@.len(),
    {
        let ghost k = slots@.len() as int;
        let e = vals.remove(0);
        proof {
            assert(e == orig[k]);
            assert(orig[k].wf());
        }
        slots.push(SymListItem::Full(e));
    }
    let r = MetaElement::Expr(SymItem::SymList(SymList { items: slots }));
    proof {
        assert(r@ matches ElemV::List(es) && es =~= elem_views(orig));
        assert(forall|m: int| 0 <= m < slots@.len() ==> (#[trigger] slots@[m]).full_slot_wf());
    }
    r
}

/// Copy a whole value sequence into one list element, leaving it in place.
#[verifier::loop_isolation(false)]
fn copy_values_as_list(vals: &Vec<MetaElement>) -> (r: MetaElement)
    requires
        elems_wf(vals@),
    ensures
        r.wf(),
        r@ == ElemV::List(elem_views(vals@)),
{
    let mut slots: Vec<SymListItem> = Vec::new();
    let n = vals.len();
    let mut idx: usize = 0;
    while idx < n
        invariant
            idx <= n,
            n == vals@.len(),
            elems_wf(vals@),
            slots@.len() == idx,
            forall|m: int|
                0 <= m < idx ==> (#[trigger] slots@[m]).full_slot_wf() && slots@[m].full_view()
                    == vals@[m]@,
        decreases n - idx,
    {
        proof {
            assert(vals@[idx as int].wf());
        }
        let copy = vals[idx].duplicate();
        slots.push(SymListItem::Full(copy));
        idx = idx + 1;
    }
    let r = MetaElement::Expr(SymItem::SymList(SymList { items: slots }));
    proof {
        assert(r@ matches ElemV::List(es) && es =~= elem_views(vals@));
    }
    r
}

/// Take the elements at positions `lo..=hi` out of a value sequence,
/// leaving the remainder closed up.
#[verifier::loop_isolation(false)]
fn extract_range(vals: &mut Vec<MetaElement>, lo: usize, hi: usize) -> (r: Vec<MetaElement>)
    requires
        lo <= hi < old(vals)@.len(),
        elems_wf(old(vals)@),
    ensures
        r@.len() == hi + 1 - lo,
        elems_wf(r@),
        elems_wf(final(vals)@),
        elem_views(r@) =~= elem_views(old(vals)@).subrange(lo as int, hi + 1),
        elem_views(final(vals)@) =~= elem_views(old(vals)@).take(lo as int) + elem_views(
            old(vals)@,
        ).skip(hi + 1),
{
    let ghost orig = vals@;
    let n = vals.len();
    let count = hi - lo + 1;
    let mut out: Vec<MetaElement> = Vec::new();
    let mut t: usize = 0;
    while t < count
        invariant
            t <= count,
            count == hi + 1 - lo,
            lo <= hi < orig.len(),
            elems_wf(orig),
            out@.len() == t,
            vals@ =~= orig.take(lo as int) + orig.skip(lo + t),
            forall|m: int| 0 <= m < t ==> (#[trigger] out@[m]) == orig[lo + m],
        decreases count - t,
    {
        proof {
            assert(vals@[lo as int] == orig[lo + t]);
        }
        let e = vals.remove(lo);
        out.push(e);
        t = t + 1;
    }
    proof {
        assert(forall|m: int| 0 <= m < out@.len() ==> (#[trigger] out@[m]).wf()) by {
            assert(forall|m: int|
                0 <= m < out@.len() ==> (#[trigger] out@[m]) == orig[lo + m] && orig[lo + m].wf());
        }
        assert(forall|m: int| 0 <= m < vals@.len() ==> (#[trigger] vals@[m]).wf()) by {
            assert(forall|m: int|
                0 <= m < vals@.len() ==> (#[trigger] vals@[m]) == (orig.take(lo as int) + orig.skip(
                    hi + 1,
                ))[m]);
        }
    }
    out
}

/// Resolve a possibly negative position against a frame of `len` values.
fn resolve_pos_exec(n: i32, len: usize) -> (r: Option<usize>)
    ensures
        match r {
            Some(p) => p == resolve_pos(n as int, len as int) && p < len,
            None => !(0 <= resolve_pos(n as int, len as int) < len),
        },
{
    let p: i128 = if n < 0 {
        len as i128 + n as i128
    } else {
        n as i128
    };
    if 0 <= p && p < len as i128 {
        Some(p as usize)
    } else {
        None
    }
}



proof fn lemma_views_insert(pre: Seq<MetaElement>, w: MetaElement, lo: int, a: Seq<ElemV>, b: Seq<
    ElemV,
>)
    requires
        0 <= lo <= pre.len(),
        elem_views(pre) == a + b,
        a.len() == lo,
    ensures
        elem_views(pre.insert(lo, w)) =~= a + seq![w@] + b,
{
    let ins = pre.subrange(0, lo).push(w) + pre.subrange(lo, pre.len() as int);
    assert(pre.insert(lo, w) == ins);
    assert(ins.len() == pre.len() + 1);
    assert(elem_views(pre).len() == pre.len());
    assert((a + b).len() == a.len() + b.len());
    assert(b.len() == pre.len() - lo);
    assert forall|m: int| 0 <= m < pre.len() + 1 implies #[trigger] elem_views(ins)[m] == (a + seq![
        w@,
    ] + b)[m] by {
        assert(elem_views(ins)[m] == ins[m]@);
        if m < lo {
            assert(ins[m] == pre.subrange(0, lo).push(w)[m]);
            assert(ins[m] == pre.subrange(0, lo)[m]);
            assert(ins[m] == pre[m]);
            assert(elem_views(pre)[m] == pre[m]@);
            assert((a + b)[m] == a[m]);
            assert(((a + seq![w@]) + b)[m] == (a + seq![w@])[m]);
            assert((a + seq![w@])[m] == a[m]);
        } else if m == lo {
            assert(ins[m] == pre.subrange(0, lo).push(w)[m]);
            assert(ins[m] == w);
            assert(((a + seq![w@]) + b)[m] == (a + seq![w@])[m]);
            assert((a + seq![w@])[m] == seq![w@][0]);
        } else {
            assert(ins[m] == pre.subrange(lo, pre.len() as int)[m - (lo + 1)]);
            assert(ins[m] == pre[m - 1]);
            assert(elem_views(pre)[m - 1] == pre[m - 1]@);
            assert((a + b)[m - 1] == b[m - 1 - lo]);
            assert(((a + seq![w@]) + b)[m] == b[m - (lo + 1)]);
        }
    }
    assert(elem_views(pre.insert(lo, w)) =~= a + seq![w@] + b);
}

proof fn lemma_deliver_link(m0: MachineV, m1: MachineV, val: ElemV, fin: MachineV)
    requires
        m0.stack.len() >= 2,
        m1.stack == m0.stack.take(m0.stack.len() - 1),
        m1.defs == m0.defs,
        fin == (MachineV {
            stack: m1.stack.take(m1.stack.len() - 1).push(
                FrameV { values: m1.stack.last().values.push(val), ..m1.stack.last() },
            ),
            defs: m1.defs,
        }),
    ensures
        spec_deliver(m0, val) == StepResult::Next(fin),
{
    assert(m1.stack.take(m1.stack.len() - 1) =~= m0.stack.take(m0.stack.len() - 2));
    assert(m1.stack.last() == m0.stack[m0.stack.len() - 2]);
}

/// What one executed step reports back to the driving loop.
pub enum StepExec {
    /// The machine took a transition and keeps evaluating.
    Continue,
    /// The call stack emptied: the program halted with this value.
    Done(MetaElement),
    /// A terminal fault.
    Fault(RuntimeFault),
}

impl MetaMachine {
    /// Pop the active frame's worth of delivery: hand `val` to the caller
    /// frame, or report the halt when the popped frame was the last.
    fn deliver(&mut self, val: MetaElement) -> (r: StepExec)
        requires
            old(self).wf(),
            val.wf(),
        ensures
            final(self).wf(),
            match r {
                StepExec::Continue => old(self)@.stack.len() > 0 && final(self)@ == (MachineV {
                    stack: old(self)@.stack.take(old(self)@.stack.len() - 1).push(
                        FrameV {
                            values: old(self)@.stack.last().values.push(val@),
                            ..old(self)@.stack.last()
                        },
                    ),
                    defs: old(self)@.defs,
                }),
                StepExec::Done(v) => old(self)@.stack.len() == 0 && v == val && final(self)@ == old(
                    self,
                )@,
                StepExec::Fault(_) => false,
            },
    {
        if self.stack.len() == 0 {
            return StepExec::Done(val);
        }
        let ghost m0 = self@;
        let mut c = self.stack.pop().unwrap();
        c.values.push(val);
        proof {
            assert(c@.values =~= m0.stack.last().values.push(val@));
        }
        self.stack.push(c);
        proof {
            assert(self@.stack =~= m0.stack.take(m0.stack.len() - 1).push(
                FrameV { values: m0.stack.last().values.push(val@), ..m0.stack.last() },
            ));
            assert(self@.defs =~= m0.defs);
        }
        StepExec::Continue
    }

    /// Execute one primitive instruction, after its code pointer has moved.
    fn exec_inst(&mut self, inst: MacroInstruction) -> (r: StepExec)
        requires
            old(self).wf(),
            old(self)@.stack.len() > 0,
        ensures
            final(self).wf(),
            match r {
                StepExec::Continue => spec_exec_inst(old(self)@, inst) == StepResult::Next(
                    final(self)@,
                ),
                StepExec::Done(v) => v.wf() && spec_exec_inst(old(self)@, inst)
                    == StepResult::Halted(v@),
                StepExec::Fault(ft) => spec_exec_inst(old(self)@, inst) == StepResult::Faulted(ft@),
            },
    {
        let ghost m0 = self@;
        match inst {
            MacroInstruction::Expand => {
                proof {
                    assert(spec_exec_inst(m0, inst) == StepResult::Faulted(
                        FaultV::UnimplementedInstruction,
                    ));
                }
                StepExec::Fault(RuntimeFault::UnimplementedInstruction)
            },
            MacroInstruction::Define => {
                let mut f = self.stack.pop().unwrap();
                let ghost fv = f@;
                proof {
                    assert(fv == m0.stack.last());
                }
                if f.values.len() < 3 {
                    self.stack.push(f);
                    return StepExec::Fault(RuntimeFault::IndexOutOfRange);
                }
                let body = f.values.pop().unwrap();
                let params = f.values.pop().unwrap();
                let name = f.values.pop().unwrap();
                let ghost name_v = name@;
                let ghost params_v = params@;
                proof {
                    assert(name@ == fv.values[fv.values.len() - 3]);
                    assert(params@ == fv.values[fv.values.len() - 2]);
                    assert(body@ == fv.values[fv.values.len() - 1]);
                    assert(f@.values =~= fv.values.take(fv.values.len() - 3));
                    assert(name.wf() && params.wf() && body.wf());
                }
                let def = match name {
                    MetaElement::Expr(SymItem::SymAtom(a)) => {
                        proof {
                            assert(name_v == ElemV::Atom(a.symbol@));
                        }
                        match &params {
                            MetaElement::Expr(SymItem::SymList(_)) => {
                                proof {
                                    assert(params_v matches ElemV::List(_));
                                }
                            },
                            _ => {
                                proof {
                                    assert(!(params_v matches ElemV::List(_)));
                                }
                                self.stack.push(f);
                                return StepExec::Fault(RuntimeFault::NonAtomMacroHead);
                            },
                        }
                        MetaDef { name: MetaElement::Expr(SymItem::SymAtom(a)), params, body }
                    },
                    MetaElement::Expr(SymItem::SymList(sl)) => {
                        let mut slots = sl.items;
                        if slots.len() == 0 {
                            self.stack.push(f);
                            return StepExec::Fault(RuntimeFault::NonAtomMacroHead);
                        }
                        let ghost slots0 = slots@;
                        proof {
                            assert(name_v matches ElemV::List(nl) && nl =~= full_views(slots0));
                        }
                        let head_slot = slots.remove(0);
                        proof {
                            assert(head_slot == slots0[0]);
                        }
                        match head_slot {
                            SymListItem::Full(h) => {
                                let ghost hv = h@;
                                proof {
                                    assert(full_views(slots0)[0] == hv);
                                }
                                match h {
                                MetaElement::Expr(SymItem::SymAtom(ha)) => {
                                    let new_params = MetaElement::Expr(
                                        SymItem::SymList(SymList { items: slots }),
                                    );
                                    proof {
                                        let nl = full_views(slots0);
                                        assert(new_params@ matches ElemV::List(ps) && ps
                                            =~= nl.drop_first());
                                        assert(new_params.wf());
                                    }
                                    proof {
                                        assert(hv == ElemV::Atom(ha.symbol@));
                                    }
                                    MetaDef {
                                        name: MetaElement::Expr(SymItem::SymAtom(ha)),
                                        params: new_params,
                                        body,
                                    }
                                },
                                _ => {
                                    proof {
                                        assert(!(hv matches ElemV::Atom(_)));
                                    }
                                    self.stack.push(f);
                                    return StepExec::Fault(RuntimeFault::NonAtomMacroHead);
                                },
                            }
                            },
                            SymListItem::Early(_) => {
                                proof {
                                    assert(slots0[0].full_slot_wf());
                                    assert(false);
                                }
                                self.stack.push(f);
                                return StepExec::Fault(RuntimeFault::NonAtomMacroHead);
                            },
                        }
                    },
                    MetaElement::Instr(_) => {
                        self.stack.push(f);
                        return StepExec::Fault(RuntimeFault::NonAtomMacroHead);
                    },
                };
                self.stack.push(f);
                self.defs.push(def);
                proof {
                    assert(self@.stack =~= m0.stack.take(m0.stack.len() - 1).push(
                        FrameV { values: fv.values.take(fv.values.len() - 3), ..fv },
                    ));
                    assert(self@.defs =~= m0.defs.push(def@));
                }
                StepExec::Continue
            },
            MacroInstruction::Index { frame, narg } => {
                if frame < 0 || frame as usize >= self.stack.len() {
                    return StepExec::Fault(RuntimeFault::IndexOutOfRange);
                }
                let tidx = self.stack.len() - 1 - frame as usize;
                proof {
                    assert(self.stack@[tidx as int].wf());
                    assert(self.stack@[tidx as int]@ == m0.stack[m0.stack.len() - 1 - frame]);
                }
                let val = match narg {
                    Some(nn) => {
                        if nn < 0 || nn as usize >= self.stack[tidx].values.len() {
                            return StepExec::Fault(RuntimeFault::IndexOutOfRange);
                        }
                        let p = nn as usize;
                        proof {
                            assert(self.stack@[tidx as int].values@[p as int].wf());
                        }
                        self.stack[tidx].values[p].duplicate()
                    },
                    None => copy_values_as_list(&self.stack[tidx].values),
                };
                let mut f = self.stack.pop().unwrap();
                let ghost fv = f@;
                f.values.push(val);
                proof {
                    assert(f@.values =~= fv.values.push(val@));
                    assert(f@ == (FrameV { values: fv.values.push(val@), ..fv }));
                }
                self.stack.push(f);
                proof {
                    assert(self@.stack =~= m0.stack.take(m0.stack.len() - 1).push(
                        FrameV { values: fv.values.push(val@), ..fv },
                    ));
                    assert(self@.defs =~= m0.defs);
                }
                StepExec::Continue
            },
            MacroInstruction::Context { range } => {
                let mut f = self.stack.pop().unwrap();
                let ghost fv = f@;
                match range {
                    None => {
                        let Frame { values, code, ip } = f;
                        let wrapped = wrap_values(values);
                        let newf = Frame { values: vec![wrapped], code, ip };
                        proof {
                            assert(newf@.values =~= seq![ElemV::List(fv.values)]);
                            assert(newf@.code =~= fv.code);
                        }
                        self.stack.push(newf);
                        proof {
                            assert(self@.stack =~= m0.stack.take(m0.stack.len() - 1).push(
                                FrameV { values: seq![ElemV::List(fv.values)], ..fv },
                            ));
                            assert(self@.defs =~= m0.defs);
                        }
                        StepExec::Continue
                    },
                    Some((a, b)) => {
                        let len = f.values.len();
                        let lo = match resolve_pos_exec(a, len) {
                            Some(p) => p,
                            None => {
                                self.stack.push(f);
                                return StepExec::Fault(RuntimeFault::IndexOutOfRange);
                            },
                        };
                        let hi = match resolve_pos_exec(b, len) {
                            Some(p) => p,
                            None => {
                                self.stack.push(f);
                                return StepExec::Fault(RuntimeFault::IndexOutOfRange);
                            },
                        };
                        if lo > hi {
                            self.stack.push(f);
                            return StepExec::Fault(RuntimeFault::IndexOutOfRange);
                        }
                        let mid = extract_range(&mut f.values, lo, hi);
                        let wrapped = wrap_values(mid);
                        proof {
                            assert(wrapped@ == ElemV::List(
                                fv.values.subrange(lo as int, hi + 1),
                            ));
                        }
                        let ghost after_ex = f.values@;
                        proof {
                            assert(elem_views(after_ex) =~= fv.values.take(lo as int)
                                + fv.values.skip(hi + 1));
                            lemma_views_insert(
                                after_ex,
                                wrapped,
                                lo as int,
                                fv.values.take(lo as int),
                                fv.values.skip(hi + 1),
                            );
                        }
                        f.values.insert(lo, wrapped);
                        proof {
                            assert(f.values@ == after_ex.insert(lo as int, wrapped));
                            assert(f@.values =~= fv.values.take(lo as int) + seq![
                                ElemV::List(fv.values.subrange(lo as int, hi + 1)),
                            ] + fv.values.skip(hi + 1));
                        }
                        self.stack.push(f);
                        proof {
                            assert(self@.stack =~= m0.stack.take(m0.stack.len() - 1).push(
                                FrameV {
                                    values: fv.values.take(lo as int) + seq![
                                        ElemV::List(fv.values.subrange(lo as int, hi + 1)),
                                    ] + fv.values.skip(hi + 1),
                                    ..fv
                                },
                            ));
                            assert(self@.defs =~= m0.defs);
                        }
                        StepExec::Continue
                    },
                }
            },
            MacroInstruction::Return { range } => {
                let mut f = self.stack.pop().unwrap();
                let ghost fv = f@;
                match range {
                    None => {
                        if f.values.len() != 1 {
                            self.stack.push(f);
                            return StepExec::Fault(RuntimeFault::EmptyOrAmbiguousReturn);
                        }
                        let val = f.values.pop().unwrap();
                        proof {
                            assert(val@ == fv.values[0]);
                            assert(self@.stack =~= m0.stack.take(m0.stack.len() - 1));
                            assert(self@.defs =~= m0.defs);
                        }
                        let ghost m1 = self@;
                        let res = self.deliver(val);
                        proof {
                            if m0.stack.len() >= 2 {
                                lemma_deliver_link(m0, m1, val@, self@);
                            }
                        }
                        res
                    },
                    Some(ReturnInstData::Arg(n)) => {
                        let p = match resolve_pos_exec(n, f.values.len()) {
                            Some(p) => p,
                            None => {
                                self.stack.push(f);
                                return StepExec::Fault(RuntimeFault::IndexOutOfRange);
                            },
                        };
                        let val = f.values.remove(p);
                        proof {
                            assert(val@ == fv.values[p as int]);
                            assert(self@.stack =~= m0.stack.take(m0.stack.len() - 1));
                            assert(self@.defs =~= m0.defs);
                        }
                        let ghost m1 = self@;
                        let res = self.deliver(val);
                        proof {
                            if m0.stack.len() >= 2 {
                                lemma_deliver_link(m0, m1, val@, self@);
                            }
                        }
                        res
                    },
                    Some(ReturnInstData::Range(a, b)) => {
                        let len = f.values.len();
                        let lo = match resolve_pos_exec(a, len) {
                            Some(p) => p,
                            None => {
                                self.stack.push(f);
                                return StepExec::Fault(RuntimeFault::IndexOutOfRange);
                            },
                        };
                        let hi = match resolve_pos_exec(b, len) {
                            Some(p) => p,
                            None => {
                                self.stack.push(f);
                                return StepExec::Fault(RuntimeFault::IndexOutOfRange);
                            },
                        };
                        if lo > hi {
                            self.stack.push(f);
                            return StepExec::Fault(RuntimeFault::IndexOutOfRange);
                        }
                        let mid = extract_range(&mut f.values, lo, hi);
                        let wrapped = wrap_values(mid);
                        proof {
                            assert(wrapped@ == ElemV::List(
                                fv.values.subrange(lo as int, hi + 1),
                            ));
                            assert(self@.stack =~= m0.stack.take(m0.stack.len() - 1));
                            assert(self@.defs =~= m0.defs);
                        }
                        let ghost m1 = self@;
                        let res = self.deliver(wrapped);
                        proof {
                            if m0.stack.len() >= 2 {
                                lemma_deliver_link(m0, m1, wrapped@, self@);
                            }
                        }
                        res
                    },
                }
            },
        }
    }
}


/// The code sequence a body element stands for, as fresh elements.
#[verifier::loop_isolation(false)]
fn body_to_code(b: &MetaElement) -> (r: Vec<MetaElement>)
    requires
        b.wf(),
    ensures
        elems_wf(r@),
        elem_views(r@) =~= body_code(b@),
{
    match b {
        MetaElement::Expr(SymItem::SymList(l)) => {
            let n = l.items.len();
            let mut out: Vec<MetaElement> = Vec::new();
            let mut idx: usize = 0;
            while idx < n
                invariant
                    idx <= n,
                    n == l.items@.len(),
                    b.wf(),
                    *b == MetaElement::Expr(SymItem::SymList(*l)),
                    out@.len() == idx,
                    forall|m: int|
                        0 <= m < idx ==> (#[trigger] out@[m]).wf() && out@[m]@ == full_views(
                            l.items@,
                        )[m],
                decreases n - idx,
            {
                proof {
                    assert(l.items@[idx as int].full_slot_wf());
                }
                match &l.items[idx] {
                    SymListItem::Full(e) => {
                        let copy = e.duplicate();
                        out.push(copy);
                    },
                    SymListItem::Early(_) => {
                        proof {
                            assert(false);
                        }
                    },
                }
                idx = idx + 1;
            }
            proof {
                assert(b@ matches ElemV::List(es) && es =~= full_views(l.items@));
                assert(elem_views(out@) =~= full_views(l.items@));
            }
            out
        },
        _ => {
            let mut out: Vec<MetaElement> = Vec::new();
            out.push(b.duplicate());
            proof {
                assert(elem_views(out@) =~= seq![b@]);
            }
            out
        },
    }
}

impl MetaMachine {
    /// A machine holding only the bootstrap definition and no program.
    pub fn new() -> (r: MetaMachine)
        ensures
            r.wf(),
            r@.stack =~= Seq::<FrameV>::empty(),
            r@.defs =~= seq![bootstrap_def()],
    {
        let name = MetaElement::Expr(SymItem::SymAtom(SymAtom { symbol: "start".to_owned() }));
        let mut pslots: Vec<SymListItem> = Vec::new();
        pslots.push(
            SymListItem::Full(
                MetaElement::Expr(SymItem::SymAtom(SymAtom { symbol: "def-form".to_owned() })),
            ),
        );
        pslots.push(
            SymListItem::Full(
                MetaElement::Expr(SymItem::SymAtom(SymAtom { symbol: "def-body".to_owned() })),
            ),
        );
        proof {
            assert(pslots@.len() == 2);
            assert(pslots@[0].full_view() == ElemV::Atom("def-form"@));
            assert(pslots@[1].full_view() == ElemV::Atom("def-body"@));
            assert(forall|m: int| 0 <= m < 2 ==> (#[trigger] pslots@[m]).full_slot_wf());
        }
        let params = MetaElement::Expr(SymItem::SymList(SymList { items: pslots }));
        let mut bslots: Vec<SymListItem> = Vec::new();
        bslots.push(
            SymListItem::Full(
                MetaElement::Instr(MacroInstruction::Index { frame: 0, narg: Some(1) }),
            ),
        );
        bslots.push(SymListItem::Full(MetaElement::Instr(MacroInstruction::Define)));
        bslots.push(SymListItem::Full(MetaElement::Instr(MacroInstruction::Context { range: None })));
        bslots.push(
            SymListItem::Full(
                MetaElement::Instr(
                    MacroInstruction::Return { range: Some(ReturnInstData::Arg(0)) },
                ),
            ),
        );
        proof {
            assert(bslots@.len() == 4);
            assert(bslots@[0].full_view() == ElemV::Instr(
                MacroInstruction::Index { frame: 0, narg: Some(1) },
            ));
            assert(bslots@[1].full_view() == ElemV::Instr(MacroInstruction::Define));
            assert(bslots@[2].full_view() == ElemV::Instr(
                MacroInstruction::Context { range: None },
            ));
            assert(bslots@[3].full_view() == ElemV::Instr(
                MacroInstruction::Return { range: Some(ReturnInstData::Arg(0)) },
            ));
            assert(forall|m: int| 0 <= m < 4 ==> (#[trigger] bslots@[m]).full_slot_wf());
        }
        let body = MetaElement::Expr(SymItem::SymList(SymList { items: bslots }));
        let mut defs: Vec<MetaDef> = Vec::new();
        proof {
            assert(params@ matches ElemV::List(ps) && ps =~= seq![
                ElemV::Atom("def-form"@),
                ElemV::Atom("def-body"@),
            ]);
            assert(body@ matches ElemV::List(bs) && bs =~= seq![
                ElemV::Instr(MacroInstruction::Index { frame: 0, narg: Some(1) }),
                ElemV::Instr(MacroInstruction::Define),
                ElemV::Instr(MacroInstruction::Context { range: None }),
                ElemV::Instr(MacroInstruction::Return { range: Some(ReturnInstData::Arg(0)) }),
            ]);
        }
        defs.push(MetaDef { name, params, body });
        let r = MetaMachine { stack: Vec::new(), defs };
        proof {
            assert(r@.defs =~= seq![bootstrap_def()]);
            assert(r@.stack =~= Seq::<FrameV>::empty());
        }
        r
    }

    /// The definitions registered so far, in registration order.
    pub fn get_defs(&self) -> (r: &Vec<MetaDef>)
        ensures
            r@ == self.defs@,
    {
        &self.defs
    }

    /// The index of the first definition registered under `name`.
    #[verifier::loop_isolation(false)]
    pub fn find_def(&self, name: &str) -> (r: Option<usize>)
        ensures
            match r {
                Some(d) => spec_find(self@.defs, name@, 0) == Some(d as int) && d
                    < self.defs@.len(),
                None => spec_find(self@.defs, name@, 0) is None,
            },
    {
        let n = self.defs.len();
        let mut i: usize = 0;
        while i < n
            invariant
                i <= n,
                n == self.defs@.len(),
                spec_find(self@.defs, name@, 0) == spec_find(self@.defs, name@, i as int),
            decreases n - i,
        {
            let matches_here = match self.defs[i].name.as_str() {
                Some(dn) => crate::minst::str_is(dn, name),
                None => false,
            };
            if matches_here {
                proof {
                    assert(self@.defs[i as int].name == ElemV::Atom(name@));
                }
                return Some(i);
            }
            proof {
                assert(self@.defs[i as int].name != ElemV::Atom(name@));
            }
            i = i + 1;
        }
        None
    }
}

/// The bootstrap definition: `start` takes a call form and a body, copies
/// the body behind them, and issues `Define`, whose call-form destructuring
/// extracts the new macro's name and parameter pattern; the empty grouping
/// and the return leave the caller a quiet empty list.
pub open spec fn bootstrap_def() -> DefV {
    DefV {
        name: ElemV::Atom("start"@),
        params: ElemV::List(seq![ElemV::Atom("def-form"@), ElemV::Atom("def-body"@)]),
        body: ElemV::List(
            seq![
                ElemV::Instr(MacroInstruction::Index { frame: 0, narg: Some(1) }),
                ElemV::Instr(MacroInstruction::Define),
                ElemV::Instr(MacroInstruction::Context { range: None }),
                ElemV::Instr(MacroInstruction::Return { range: Some(ReturnInstData::Arg(0)) }),
            ],
        ),
    }
}


/// What inspecting the redex decided, computed under a shared borrow.
enum RedexPlan {
    ImplicitReturn,
    Call(usize, usize),
    RunInstr(MacroInstruction),
    Fail(RuntimeFault),
}

impl MetaMachine {
    /// Return the active frame's sole value to the caller, as a bare
    /// `Return` does.
    fn return_sole(&mut self) -> (r: StepExec)
        requires
            old(self).wf(),
            old(self)@.stack.len() > 0,
        ensures
            final(self).wf(),
            match r {
                StepExec::Continue => spec_return_sole(old(self)@) == StepResult::Next(
                    final(self)@,
                ) && final(self)@.stack.len() > 0,
                StepExec::Done(v) => v.wf() && spec_return_sole(old(self)@) == StepResult::Halted(
                    v@,
                ),
                StepExec::Fault(ft) => spec_return_sole(old(self)@) == StepResult::Faulted(ft@),
            },
    {
        let ghost m0 = self@;
        let mut f = self.stack.pop().unwrap();
        let ghost fv = f@;
        if f.values.len() != 1 {
            self.stack.push(f);
            return StepExec::Fault(RuntimeFault::EmptyOrAmbiguousReturn);
        }
        let val = f.values.pop().unwrap();
        proof {
            assert(val@ == fv.values[0]);
            assert(self@.stack =~= m0.stack.take(m0.stack.len() - 1));
            assert(self@.defs =~= m0.defs);
        }
        let ghost m1 = self@;
        let res = self.deliver(val);
        proof {
            if m0.stack.len() >= 2 {
                lemma_deliver_link(m0, m1, val@, self@);
            }
        }
        res
    }

    /// Take one step: feed the next code element, or reduce the redex.
    #[verifier::rlimit(100)]
    pub fn step(&mut self) -> (r: StepExec)
        requires
            old(self).wf(),
            old(self)@.stack.len() > 0,
        ensures
            final(self).wf(),
            match r {
                StepExec::Continue => spec_step(old(self)@) == StepResult::Next(final(self)@)
                    && final(self)@.stack.len() > 0,
                StepExec::Done(v) => v.wf() && spec_step(old(self)@) == StepResult::Halted(v@),
                StepExec::Fault(ft) => spec_step(old(self)@) == StepResult::Faulted(ft@),
            },
    {
        let ghost m0 = self@;
        let top = self.stack.len() - 1;
        proof {
            assert(self.stack@[top as int].wf());
            assert(self.stack@[top as int]@ == m0.stack.last());
        }
        if self.stack[top].ip < self.stack[top].code.len() {
            let ip = self.stack[top].ip;
            let feed: Option<MacroInstruction> = match &self.stack[top].code[ip] {
                MetaElement::Instr(i) => Some(*i),
                _ => None,
            };
            match feed {
                Some(inst) => {
                    let mut f = self.stack.pop().unwrap();
                    let ghost fv = f@;
                    f.ip = f.ip + 1;
                    proof {
                        assert(f@ == (FrameV { ip: fv.ip + 1, ..fv }));
                    }
                    self.stack.push(f);
                    proof {
                        assert(self@.stack =~= m0.stack.take(m0.stack.len() - 1).push(
                            FrameV { ip: fv.ip + 1, ..fv },
                        ));
                        assert(self@.defs =~= m0.defs);
                        assert(fv.code[fv.ip] == ElemV::Instr(inst));
                        assert(self@.stack.len() > 0);
                    }
                    let ghost fed = (MachineV {
                        stack: m0.stack.take(m0.stack.len() - 1).push(FrameV { ip: fv.ip + 1, ..fv }),
                        defs: m0.defs,
                    });
                    proof {
                        assert(spec_step(m0) == spec_exec_inst(fed, inst));
                        assert(self@ == fed);
                    }
                    let rr = self.exec_inst(inst);
                    proof {
                        match rr {
                            StepExec::Continue => {
                                assert(spec_exec_inst(fed, inst) == StepResult::Next(self@));
                            },
                            _ => {},
                        }
                    }
                    rr
                },
                None => {
                    let copy = self.stack[top].code[ip].duplicate();
                    let mut f = self.stack.pop().unwrap();
                    let ghost fv = f@;
                    f.ip = f.ip + 1;
                    f.values.push(copy);
                    proof {
                        assert(f@.values =~= fv.values.push(fv.code[fv.ip]));
                        assert(f@ == (FrameV {
                            values: fv.values.push(fv.code[fv.ip]),
                            ip: fv.ip + 1,
                            ..fv
                        }));
                    }
                    self.stack.push(f);
                    proof {
                        assert(self@.stack =~= m0.stack.take(m0.stack.len() - 1).push(
                            FrameV { values: fv.values.push(fv.code[fv.ip]), ip: fv.ip + 1, ..fv },
                        ));
                        assert(self@.defs =~= m0.defs);
                        assert(!(fv.code[fv.ip] matches ElemV::Instr(_)));
                        assert(spec_step(m0) == StepResult::Next(self@));
                    }
                    StepExec::Continue
                },
            }
        } else {
            if self.stack[top].values.len() == 0 {
                return StepExec::Fault(RuntimeFault::EmptyOrAmbiguousReturn);
            }
            let last = self.stack[top].values.len() - 1;
            let plan: RedexPlan = match &self.stack[top].values[last] {
                MetaElement::Instr(i) => RedexPlan::RunInstr(*i),
                MetaElement::Expr(SymItem::SymAtom(_)) => RedexPlan::ImplicitReturn,
                MetaElement::Expr(SymItem::SymList(l)) => {
                    if l.items.len() == 0 {
                        RedexPlan::ImplicitReturn
                    } else {
                        proof {
                            assert(self.stack@[top as int].values@[last as int].wf());
                            assert(l.items@[0].full_slot_wf());
                        }
                        match &l.items[0] {
                            SymListItem::Full(MetaElement::Expr(SymItem::SymAtom(a))) => {
                                match self.find_def(a.symbol.as_str()) {
                                    None => RedexPlan::Fail(
                                        RuntimeFault::UnknownDefinition(a.symbol.clone()),
                                    ),
                                    Some(d) => {
                                        let k = match self.defs[d].params.as_list() {
                                            Some(op) => op.len(),
                                            None => 0,
                                        };
                                        proof {
                                            assert(self@.defs[d as int] == self.defs@[d as int]@);
                                            assert(k == param_count(self@.defs[d as int]));
                                            assert(m0.stack.last().values[last as int]
                                                matches ElemV::List(ls) && ls =~= full_views(
                                                l.items@,
                                            ));
                                            assert(full_views(l.items@)[0] == ElemV::Atom(
                                                a.symbol@,
                                            ));
                                            assert(spec_find(m0.defs, a.symbol@, 0) == Some(
                                                d as int,
                                            ));
                                        }
                                        if last < k {
                                            RedexPlan::Fail(RuntimeFault::IndexOutOfRange)
                                        } else {
                                            RedexPlan::Call(d, k)
                                        }
                                    },
                                }
                            },
                            _ => RedexPlan::Fail(RuntimeFault::NonAtomMacroHead),
                        }
                    }
                },
            };
            match plan {
                RedexPlan::ImplicitReturn => self.return_sole(),
                RedexPlan::Fail(ft) => StepExec::Fault(ft),
                RedexPlan::RunInstr(inst) => {
                    let mut f = self.stack.pop().unwrap();
                    let ghost fv = f@;
                    let _ = f.values.pop().unwrap();
                    proof {
                        assert(f@.values =~= fv.values.drop_last());
                        assert(f@ == (FrameV { values: fv.values.drop_last(), ..fv }));
                    }
                    self.stack.push(f);
                    let ghost trimmed = (MachineV {
                        stack: m0.stack.take(m0.stack.len() - 1).push(
                            FrameV { values: fv.values.drop_last(), ..fv },
                        ),
                        defs: m0.defs,
                    });
                    proof {
                        assert(self@.stack =~= trimmed.stack);
                        assert(self@.defs =~= m0.defs);
                        assert(self@ == trimmed);
                        assert(spec_step(m0) == spec_exec_inst(trimmed, inst));
                    }
                    let rr = self.exec_inst(inst);
                    rr
                },
                RedexPlan::Call(d, k) => {
                    proof {
                        assert(self.defs@[d as int].wf());
                    }
                    let code = body_to_code(&self.defs[d].body);
                    let mut f = self.stack.pop().unwrap();
                    let ghost fv = f@;
                    let _call = f.values.pop().unwrap();
                    proof {
                        assert(f.values@.len() == fv.values.len() - 1);
                    }
                    let args = f.values.split_off(f.values.len() - k);
                    proof {
                        assert(elem_views(args@) =~= fv.values.subrange(
                            fv.values.len() - 1 - k,
                            fv.values.len() - 1,
                        ));
                        assert(f@.values =~= fv.values.take(fv.values.len() - 1 - k));
                    }
                    self.stack.push(f);
                    let callee = Frame { values: args, code, ip: 0 };
                    proof {
                        assert(callee@ == (FrameV {
                            values: fv.values.subrange(fv.values.len() - 1 - k, fv.values.len() - 1),
                            code: body_code(m0.defs[d as int].body),
                            ip: 0,
                        }));
                    }
                    self.stack.push(callee);
                    proof {
                        assert(self@.stack =~= m0.stack.take(m0.stack.len() - 1).push(
                            FrameV { values: fv.values.take(fv.values.len() - 1 - k), ..fv },
                        ).push(
                            FrameV {
                                values: fv.values.subrange(
                                    fv.values.len() - 1 - k,
                                    fv.values.len() - 1,
                                ),
                                code: body_code(m0.defs[d as int].body),
                                ip: 0,
                            },
                        ));
                        assert(self@.defs =~= m0.defs);
                        assert(spec_step(m0) == StepResult::Next(self@));
                    }
                    StepExec::Continue
                },
            }
        }
    }
}


/// The machine after some number of steps reached this outcome.
pub open spec fn run_reaches(init: MachineV, out: RunState) -> bool {
    exists|n: nat| spec_run(init, n) == out
}

/// How a bounded run ended.
pub enum RunOutcome {
    /// The call stack emptied: this value is the program's result.
    Halted(MetaElement),
    /// A terminal fault.
    Faulted(RuntimeFault),
    /// The step budget ran out with the machine still evaluating: unbounded
    /// recursion grows without bound by design, so the caller chooses how
    /// much work to allow.
    OutOfFuel,
}

impl MetaMachine {
    /// Run a program: seed one root frame with the program's members and
    /// step until the machine halts with a value, faults, or exhausts the
    /// caller's step budget.
    #[verifier::loop_isolation(false)]
    pub fn run(&mut self, program: &MetaElement, max_steps: u64) -> (r: RunOutcome)
        requires
            old(self).wf(),
            program.wf(),
        ensures
            final(self).wf(),
            match r {
                RunOutcome::Halted(v) => v.wf() && run_reaches(
                    spec_init(old(self)@.defs, program@),
                    RunState::Halted(v@),
                ),
                RunOutcome::Faulted(ft) => run_reaches(
                    spec_init(old(self)@.defs, program@),
                    RunState::Faulted(ft@),
                ),
                RunOutcome::OutOfFuel => spec_run(
                    spec_init(old(self)@.defs, program@),
                    max_steps as nat,
                ) matches RunState::Running(_),
            },
    {
        let ghost init = spec_init(old(self)@.defs, program@);
        let code = body_to_code(program);
        let root = Frame { values: Vec::new(), code, ip: 0 };
        proof {
            assert(root@ == (FrameV { values: Seq::empty(), code: body_code(program@), ip: 0 }))
                by {
                assert(elem_views(root.values@) =~= Seq::<ElemV>::empty());
                assert(elem_views(root.code@) =~= body_code(program@));
            }
        }
        let mut stack: Vec<Frame> = Vec::new();
        stack.push(root);
        self.stack = stack;
        proof {
            assert(self@.stack =~= init.stack);
            assert(self@.defs == init.defs);
            assert(self@ == init);
            assert(spec_run(init, 0) == RunState::Running(self@));
        }
        let mut used: u64 = 0;
        while used < max_steps
            invariant
                self.wf(),
                self@.stack.len() > 0,
                used <= max_steps,
                spec_run(init, used as nat) == RunState::Running(self@),
            decreases max_steps - used,
        {
            match self.step() {
                StepExec::Continue => {
                    proof {
                        assert(spec_run(init, (used + 1) as nat) == RunState::Running(self@));
                    }
                },
                StepExec::Done(v) => {
                    proof {
                        assert(spec_run(init, (used + 1) as nat) == RunState::Halted(v@));
                    }
                    return RunOutcome::Halted(v);
                },
                StepExec::Fault(ft) => {
                    proof {
                        assert(spec_run(init, (used + 1) as nat) == RunState::Faulted(ft@));
                    }
                    return RunOutcome::Faulted(ft);
                },
            }
            used = used + 1;
        }
        RunOutcome::OutOfFuel
    }
}

} // verus!
