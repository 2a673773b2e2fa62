//! Resolved elements: each node of a parse tree promoted into either a
//! recognized primitive instruction or a plain expression.
//!
//! Resolution consumes an unresolved tree bottom-up and produces a fresh
//! resolved tree, so every list slot is promoted exactly once and no reader
//! can observe a half-promoted slot.

use vstd::prelude::*;

use crate::minst::{InstOutcome, MacroInstruction, MinstSymItemError};
use crate::sym::{SymAtom, SymItem, SymList, SymListItem, SymV};

verus! {

/// Why a parse tree could not be resolved into an element.
#[derive(Debug)]
pub enum MetaElementError {
    /// The text was not a well-formed symbolic expression.
    ParseError(crate::sym::SymParseError),
    /// A list carried the instruction marker but its head or argument shape
    /// names no valid instruction.
    InvalidInstr(SymItem),
    /// A deeper instruction-decoding failure, carried as it was reported.
    UnknownMinstError(MinstSymItemError),
}

/// A resolved node: a primitive instruction, or a plain expression whose
/// list slots are all resolved in turn.
#[derive(Debug)]
pub enum MetaElement {
    Instr(MacroInstruction),
    Expr(SymItem),
}

/// The mathematical shape of a resolved element tree.
pub ghost enum ElemV {
    Instr(MacroInstruction),
    Atom(Seq<char>),
    List(Seq<ElemV>),
}

impl MetaElement {
    /// The resolved tree this element stands for; meaningful on elements
    /// whose expression slots are all resolved (see [`MetaElement::wf`]).
    pub open spec fn view(&self) -> ElemV
        decreases *self,
    {
        match self {
            MetaElement::Instr(i) => ElemV::Instr(*i),
            MetaElement::Expr(s) => match s {
                SymItem::SymAtom(a) => ElemV::Atom(a.symbol@),
                SymItem::SymList(l) => ElemV::List(
                    Seq::new(l.items@.len(), |i: int| {
                        if 0 <= i < l.items@.len() {
                            l.items@[i].full_view()
                        } else {
                            ElemV::Atom(Seq::empty())
                        }
                    }),
                ),
            },
        }
    }

    /// Every slot under this element has been promoted to resolved.
    pub open spec fn wf(&self) -> bool
        decreases *self,
    {
        match self {
            MetaElement::Instr(_) => true,
            MetaElement::Expr(s) => match s {
                SymItem::SymAtom(_) => true,
                SymItem::SymList(l) => forall|i: int|
                    0 <= i < l.items@.len() ==> (#[trigger] l.items@[i]).full_slot_wf(),
            },
        }
    }
}

impl SymListItem {
    /// The element a resolved slot holds; an unresolved slot has no full
    /// view.
    pub open spec fn full_view(&self) -> ElemV
        decreases *self,
    {
        match self {
            SymListItem::Full(e) => e@,
            SymListItem::Early(_) => ElemV::Atom(Seq::empty()),
        }
    }

    /// The slot is resolved and its element's slots are resolved in turn.
    pub open spec fn full_slot_wf(&self) -> bool
        decreases *self,
    {
        match self {
            SymListItem::Full(e) => e.wf(),
            SymListItem::Early(_) => false,
        }
    }
}

/// The elements held by a sequence of resolved slots.
pub open spec fn full_views(items: Seq<SymListItem>) -> Seq<ElemV> {
    Seq::new(items.len(), |i: int| {
        if 0 <= i < items.len() {
            items[i].full_view()
        } else {
            ElemV::Atom(Seq::empty())
        }
    })
}

/// How resolving one tree can fail: the offending subtree, with the reason.
pub ghost enum ResolveFail {
    /// The subtree carries the instruction marker but names no valid
    /// instruction or argument shape.
    BadInstr(SymV),
    /// An argument of the subtree is not a decimal signed integer.
    BadArgs(SymV),
}

/// Resolution of one tree: an atom stays an atom, an empty list an empty
/// expression; a non-empty list is decoded as an instruction when it carries
/// the marker, aborts resolution when the decoding fails for any other
/// reason, and otherwise resolves every member depth-first, left to right.
pub open spec fn spec_resolve(v: SymV) -> Result<ElemV, ResolveFail>
    decreases v, 0int,
{
    match v {
        SymV::Atom(a) => Ok(ElemV::Atom(a)),
        SymV::List(items) => {
            if items.len() == 0 {
                Ok(ElemV::List(Seq::empty()))
            } else {
                match crate::minst::spec_inst_of(v) {
                    InstOutcome::Inst(i) => Ok(ElemV::Instr(i)),
                    InstOutcome::BadInstr => Err(ResolveFail::BadInstr(v)),
                    InstOutcome::BadArgs => Err(ResolveFail::BadArgs(v)),
                    InstOutcome::NotInstruction => match spec_resolve_items(items, 0) {
                        Ok(es) => Ok(ElemV::List(es)),
                        Err(f) => Err(f),
                    },
                }
            }
        },
    }
}

/// Resolution of the members of a list from `idx` on, aborting on the first
/// failure.
pub open spec fn spec_resolve_items(items: Seq<SymV>, idx: int) -> Result<Seq<ElemV>, ResolveFail>
    decreases items, items.len() - idx, 1int,
{
    if idx < 0 || idx >= items.len() {
        Ok(Seq::empty())
    } else {
        match spec_resolve(items[idx]) {
            Ok(e) => match spec_resolve_items(items, idx + 1) {
                Ok(es) => Ok(seq![e] + es),
                Err(f) => Err(f),
            },
            Err(f) => Err(f),
        }
    }
}

proof fn lemma_resolve_items_join(items: Seq<SymV>, res: Seq<ElemV>, idx: int)
    requires
        0 <= idx <= items.len(),
        res.len() == items.len(),
        forall|m: int| idx <= m < items.len() ==> spec_resolve(#[trigger] items[m]) == Ok::<
            ElemV,
            ResolveFail,
        >(res[m]),
    ensures
        spec_resolve_items(items, idx) == Ok::<Seq<ElemV>, ResolveFail>(
            res.subrange(idx, items.len() as int),
        ),
    decreases items.len() - idx,
{
    if idx == items.len() {
        assert(res.subrange(idx, items.len() as int) =~= Seq::<ElemV>::empty());
    } else {
        lemma_resolve_items_join(items, res, idx + 1);
        assert(seq![res[idx]] + res.subrange(idx + 1, items.len() as int) =~= res.subrange(
            idx,
            items.len() as int,
        ));
    }
}

proof fn lemma_resolve_items_err(items: Seq<SymV>, res: Seq<ElemV>, idx: int, k: int, f: ResolveFail)
    requires
        0 <= idx <= k < items.len(),
        forall|m: int| idx <= m < k ==> spec_resolve(#[trigger] items[m]) == Ok::<
            ElemV,
            ResolveFail,
        >(res[m]),
        res.len() == items.len(),
        spec_resolve(items[k]) == Err::<ElemV, ResolveFail>(f),
    ensures
        spec_resolve_items(items, idx) == Err::<Seq<ElemV>, ResolveFail>(f),
    decreases k - idx,
{
    if idx < k {
        lemma_resolve_items_err(items, res, idx + 1, k, f);
    }
}

impl MetaElement {
    /// Resolve an unresolved tree into a fresh element tree, or report the
    /// offending subtree of the first failure in depth-first order.
    #[verifier::loop_isolation(false)]
    pub fn resolve(sym: &SymItem) -> (r: Result<MetaElement, MetaElementError>)
        requires
            sym.early_wf(),
        ensures
            match r {
                Ok(e) => e.wf() && spec_resolve(sym@) == Ok::<ElemV, ResolveFail>(e@),
                Err(err) => match err {
                    MetaElementError::InvalidInstr(n) => spec_resolve(sym@) == Err::<
                        ElemV,
                        ResolveFail,
                    >(ResolveFail::BadInstr(n@)),
                    MetaElementError::UnknownMinstError(MinstSymItemError::InvalidArgs(n)) => {
                        spec_resolve(sym@) == Err::<ElemV, ResolveFail>(ResolveFail::BadArgs(n@))
                    },
                    _ => false,
                },
            },
        decreases *sym, 0int,
    {
        let l = match sym {
            SymItem::SymAtom(_) => {
                let e = MetaElement::Expr(sym.duplicate());
                proof {
                    assert(e@ == ElemV::Atom(sym->SymAtom_0.symbol@));
                }
                return Ok(e);
            },
            SymItem::SymList(l) => l,
        };
        let ghost views = crate::sym::early_views(l.items@);
        proof {
            assert(sym@ matches SymV::List(vs) && vs == views);
        }
        let n = l.items.len();
        if n == 0 {
            let e = MetaElement::Expr(sym.duplicate());
            proof {
                assert(e@ matches ElemV::List(es) && es =~= Seq::<ElemV>::empty());
            }
            return Ok(e);
        }
        match MacroInstruction::parse_sym(sym) {
            Ok(inst) => {
                return Ok(MetaElement::Instr(inst));
            },
            Err(MinstSymItemError::InvalidInstr(bad)) => {
                return Err(MetaElementError::InvalidInstr(bad));
            },
            Err(MinstSymItemError::InvalidArgs(bad)) => {
                return Err(
                    MetaElementError::UnknownMinstError(MinstSymItemError::InvalidArgs(bad)),
                );
            },
            Err(MinstSymItemError::NotAnInstruction(_)) => {},
        }
        let mut out: Vec<SymListItem> = Vec::new();
        let mut idx: usize = 0;
        while idx < n
            invariant
                idx <= n,
                out@.len() == idx,
                forall|m: int|
                    0 <= m < idx ==> (#[trigger] out@[m]).full_slot_wf() && spec_resolve(views[m])
                        == Ok::<ElemV, ResolveFail>(out@[m].full_view()),
            decreases n - idx,
        {
            proof {
                assert(l.items@[idx as int].early_slot_wf());
            }
            match &l.items[idx] {
                SymListItem::Full(_) => {
                    proof {
                        assert(false);
                    }
                },
                SymListItem::Early(sub) => {
                    proof {
                        broadcast use vstd::std_specs::vec::axiom_vec_index_decreases;

                        assert(decreases_to!(*l => l.items));
                        assert(decreases_to!(l.items => l.items[idx as int]));
                        assert(decreases_to!(l.items[idx as int] => *sub));
                        assert(decreases_to!(*sym => *sub));
                    }
                    match MetaElement::resolve(sub) {
                        Ok(e) => {
                            out.push(SymListItem::Full(e));
                        },
                        Err(err) => {
                            proof {
                                let f = match &err {
                                    MetaElementError::InvalidInstr(b) => ResolveFail::BadInstr(b@),
                                    MetaElementError::UnknownMinstError(
                                        MinstSymItemError::InvalidArgs(b),
                                    ) => ResolveFail::BadArgs(b@),
                                    _ => ResolveFail::BadInstr(sub@),
                                };
                                lemma_resolve_items_err(
                                    views,
                                    full_views(out@).add(
                                        Seq::new(
                                            (n - idx) as nat,
                                            |i: int| ElemV::Atom(Seq::empty()),
                                        ),
                                    ),
                                    0,
                                    idx as int,
                                    f,
                                );
                            }
                            return Err(err);
                        },
                    }
                },
            }
            idx = idx + 1;
        }
        let e = MetaElement::Expr(SymItem::SymList(SymList { items: out }));
        proof {
            lemma_resolve_items_join(views, full_views(out@), 0);
            assert(full_views(out@).subrange(0, views.len() as int) =~= full_views(out@));
            assert(e@ matches ElemV::List(es) && es =~= full_views(out@));
        }
        Ok(e)
    }
}


impl MetaElement {
    /// A structurally equal copy of a resolved element.
    #[verifier::loop_isolation(false)]
    pub fn duplicate(&self) -> (r: MetaElement)
        requires
            self.wf(),
        ensures
            r@ == self@,
            r.wf(),
        decreases *self,
    {
        match self {
            MetaElement::Instr(i) => MetaElement::Instr(*i),
            MetaElement::Expr(s) => match s {
                SymItem::SymAtom(a) => {
                    let copy = a.symbol.clone();
                    proof {
                        assert(copy@ == a.symbol@);
                    }
                    let rr = MetaElement::Expr(SymItem::SymAtom(SymAtom { symbol: copy }));
                    proof {
                        assert(rr@ == self@);
                    }
                    rr
                },
                SymItem::SymList(l) => {
                    let n = l.items.len();
                    let mut out: Vec<SymListItem> = Vec::new();
                    let mut idx: usize = 0;
                    while idx < n
                        invariant
                            n == l.items@.len(),
                            idx <= n,
                            *self == MetaElement::Expr(SymItem::SymList(*l)),
                            self.wf(),
                            out@.len() == idx,
                            forall|m: int|
                                0 <= m < idx ==> (#[trigger] out@[m]).full_slot_wf()
                                    && out@[m].full_view() == l.items@[m].full_view(),
                        decreases n - idx,
                    {
                        proof {
                            assert(l.items@[idx as int].full_slot_wf());
                        }
                        match &l.items[idx] {
                            SymListItem::Full(sub) => {
                                proof {
                                    broadcast use vstd::std_specs::vec::axiom_vec_index_decreases;

                                    assert(decreases_to!(*s => *l));
                                    assert(decreases_to!(*l => l.items));
                                    assert(decreases_to!(l.items => l.items[idx as int]));
                                    assert(decreases_to!(l.items[idx as int] => *sub));
                                    assert(decreases_to!(*self => *sub));
                                }
                                let copy = sub.duplicate();
                                out.push(SymListItem::Full(copy));
                            },
                            SymListItem::Early(_) => {
                                proof {
                                    assert(false);
                                }
                            },
                        }
                        idx = idx + 1;
                    }
                    let rr = MetaElement::Expr(SymItem::SymList(SymList { items: out }));
                    proof {
                        assert(rr@ matches ElemV::List(vs) && vs =~= full_views(l.items@));
                        assert(self@ matches ElemV::List(ws) && ws =~= full_views(l.items@));
                        assert(rr@ == self@);
                        assert(forall|m: int|
                            0 <= m < out@.len() ==> (#[trigger] out@[m]).full_slot_wf());
                    }
                    rr
                },
            },
        }
    }

    /// Parse a whole input and resolve it: the one entry point that takes a
    /// program from text to a resolved element tree.
    pub fn parse(s: &str) -> (r: Result<MetaElement, MetaElementError>)
        ensures
            match r {
                Ok(e) => {
                    &&& e.wf()
                    &&& crate::sym::spec_parse(s@) matches Ok(v) && spec_resolve(v) == Ok::<
                        ElemV,
                        ResolveFail,
                    >(e@)
                },
                Err(err) => match err {
                    MetaElementError::ParseError(pe) => crate::sym::spec_parse(s@) == Err::<
                        SymV,
                        crate::sym::SymParseError,
                    >(pe),
                    MetaElementError::InvalidInstr(n) => crate::sym::spec_parse(s@) matches Ok(v)
                        && spec_resolve(v) == Err::<ElemV, ResolveFail>(ResolveFail::BadInstr(n@)),
                    MetaElementError::UnknownMinstError(MinstSymItemError::InvalidArgs(n)) => {
                        crate::sym::spec_parse(s@) matches Ok(v) && spec_resolve(v) == Err::<
                            ElemV,
                            ResolveFail,
                        >(ResolveFail::BadArgs(n@))
                    },
                    _ => false,
                },
            },
    {
        match SymItem::parse(s) {
            Err(pe) => Err(MetaElementError::ParseError(pe)),
            Ok(tree) => MetaElement::resolve(&tree),
        }
    }

    /// The atom text of a plain atom expression, or `None` otherwise.
    pub fn as_str(&self) -> (r: Option<&str>)
        ensures
            match r {
                Some(t) => self@ == ElemV::Atom(t@),
                None => !(self@ matches ElemV::Atom(_)),
            },
    {
        match self {
            MetaElement::Expr(SymItem::SymAtom(a)) => Some(a.symbol.as_str()),
            _ => None,
        }
    }

    /// The resolved list behind a list expression, or `None` otherwise.
    pub fn as_list(&self) -> (r: Option<MetaElementListOperator>)
        ensures
            match r {
                Some(op) => self@ == ElemV::List(full_views(op.list.items@)),
                None => !(self@ matches ElemV::List(_)),
            },
    {
        match self {
            MetaElement::Expr(SymItem::SymList(l)) => {
                let op = MetaElementListOperator::new(l);
                proof {
                    assert(self@ matches ElemV::List(vs) && vs =~= full_views(l.items@));
                }
                Some(op)
            },
            _ => None,
        }
    }
}

/// A read-only window over the resolved members of a list expression.
pub struct MetaElementListOperator<'a> {
    pub list: &'a SymList,
}

impl<'a> MetaElementListOperator<'a> {
    /// Wrap a resolved list for member access.
    pub fn new(list: &'a SymList) -> (r: Self)
        ensures
            r.list == list,
    {
        MetaElementListOperator { list }
    }

    /// How many members the list holds.
    pub fn len(&self) -> (r: usize)
        ensures
            r == full_views(self.list.items@).len(),
    {
        self.list.items.len()
    }

    /// The resolved member at `idx`, or `None` on an index out of range or
    /// an unresolved slot.
    pub fn get(&self, idx: usize) -> (r: Option<&'a MetaElement>)
        ensures
            match r {
                Some(e) => idx < self.list.items@.len() && e@ == full_views(self.list.items@)[idx as int],
                None => idx >= self.list.items@.len() || !(self.list.items@[idx as int]
                    matches SymListItem::Full(_)),
            },
    {
        if idx >= self.list.items.len() {
            return None;
        }
        match &self.list.items[idx] {
            SymListItem::Full(e) => Some(e),
            SymListItem::Early(_) => None,
        }
    }
}

impl SymListItem {
    /// The unresolved tree of an `Early` slot, or `None` on a resolved one.
    pub fn into_inner_early(&self) -> (r: Option<&SymItem>)
        ensures
            match r {
                Some(s) => *self == SymListItem::Early(*s),
                None => self matches SymListItem::Full(_),
            },
    {
        if let SymListItem::Early(x) = self {
            Some(x)
        } else {
            None
        }
    }

    /// The resolved element of a `Full` slot, or `None` on an early one.
    pub fn into_inner(&self) -> (r: Option<&MetaElement>)
        ensures
            match r {
                Some(e) => *self == SymListItem::Full(*e),
                None => self matches SymListItem::Early(_),
            },
    {
        if let SymListItem::Full(x) = self {
            Some(x)
        } else {
            None
        }
    }
}

impl SymItem {
    /// The unresolved member at `idx` of a list still in its early stage.
    pub fn index_early(&self, idx: usize) -> (r: Option<&SymItem>)
        ensures
            match r {
                Some(s) => self matches SymItem::SymList(l) && idx < l.items@.len()
                    && l.items@[idx as int] == SymListItem::Early(*s),
                None => true,
            },
    {
        match self {
            SymItem::SymList(l) => {
                if idx >= l.items.len() {
                    return None;
                }
                match &l.items[idx] {
                    SymListItem::Early(s) => Some(s),
                    SymListItem::Full(_) => None,
                }
            },
            SymItem::SymAtom(_) => None,
        }
    }

    /// The resolved member at `idx` of a list whose slots are promoted.
    pub fn index(&self, idx: usize) -> (r: Option<&MetaElement>)
        ensures
            match r {
                Some(e) => self matches SymItem::SymList(l) && idx < l.items@.len()
                    && l.items@[idx as int] == SymListItem::Full(*e),
                None => true,
            },
    {
        match self {
            SymItem::SymList(l) => {
                if idx >= l.items.len() {
                    return None;
                }
                match &l.items[idx] {
                    SymListItem::Full(e) => Some(e),
                    SymListItem::Early(_) => None,
                }
            },
            SymItem::SymAtom(_) => None,
        }
    }
}


/// The canonical text of a resolved element: instruction forms rendered
/// exactly, atoms verbatim, lists parenthesised with single spaces.
pub open spec fn spec_render_elem(e: ElemV) -> Seq<char>
    decreases e,
{
    match e {
        ElemV::Instr(i) => crate::minst::spec_render_inst(i),
        ElemV::Atom(a) => a,
        ElemV::List(es) => seq!['('] + spec_render_elems(es, 0) + seq![')'],
    }
}

/// The text of resolved list members from position `i` on, space-separated.
pub open spec fn spec_render_elems(es: Seq<ElemV>, i: int) -> Seq<char>
    decreases es, es.len() - i,
{
    if i < 0 || i >= es.len() {
        Seq::empty()
    } else if i == es.len() - 1 {
        spec_render_elem(es[i])
    } else {
        spec_render_elem(es[i]) + seq![' '] + spec_render_elems(es, i + 1)
    }
}

impl MetaElement {
    /// The faithful textual rendering of a resolved element tree.
    #[verifier::loop_isolation(false)]
    pub fn render(&self) -> (r: String)
        requires
            self.wf(),
        ensures
            r@ == spec_render_elem(self@),
        decreases *self,
    {
        match self {
            MetaElement::Instr(i) => i.render(),
            MetaElement::Expr(s) => match s {
                SymItem::SymAtom(a) => {
                    let r = a.symbol.clone();
                    proof {
                        assert(r@ =~= spec_render_elem(self@));
                    }
                    r
                },
                SymItem::SymList(l) => {
                    let ghost vs = full_views(l.items@);
                    proof {
                        assert(self@ matches ElemV::List(ws) && ws =~= vs);
                    }
                    let mut out: String = "(".to_owned();
                    proof {
                        reveal_strlit("(");
                        assert(out@ =~= seq!['(']);
                    }
                    let n = l.items.len();
                    let mut idx: usize = 0;
                    while idx < n
                        invariant
                            n == l.items@.len(),
                            idx <= n,
                            *self == MetaElement::Expr(SymItem::SymList(*l)),
                            self.wf(),
                            vs == full_views(l.items@),
                            idx == 0 ==> out@ =~= seq!['('],
                            0 < idx < n ==> out@ + seq![' '] + spec_render_elems(vs, idx as int)
                                =~= seq!['('] + spec_render_elems(vs, 0),
                            idx == n && n > 0 ==> out@ =~= seq!['('] + spec_render_elems(vs, 0),
                        decreases n - idx,
                    {
                        proof {
                            assert(l.items@[idx as int].full_slot_wf());
                        }
                        let ghost out_pre = out@;
                        if idx > 0 {
                            out.append(" ");
                            proof {
                                reveal_strlit(" ");
                                assert(out@ =~= out_pre + seq![' ']);
                            }
                        }
                        let ghost out_sep = out@;
                        match &l.items[idx] {
                            SymListItem::Full(sub) => {
                                proof {
                                    broadcast use vstd::std_specs::vec::axiom_vec_index_decreases;

                                    assert(sub@ == vs[idx as int]);
                                    assert(decreases_to!(*s => *l));
                                    assert(decreases_to!(*l => l.items));
                                    assert(decreases_to!(l.items => l.items[idx as int]));
                                    assert(decreases_to!(l.items[idx as int] => *sub));
                                    assert(decreases_to!(*self => *sub));
                                }
                                let piece = sub.render();
                                out.append(piece.as_str());
                                proof {
                                    assert(out@ == out_sep + spec_render_elem(vs[idx as int]));
                                    if idx == 0 {
                                        if n == 1 {
                                            assert(out@ =~= seq!['('] + spec_render_elems(vs, 0));
                                        } else {
                                            assert(spec_render_elems(vs, 0) == spec_render_elem(
                                                vs[0],
                                            ) + seq![' '] + spec_render_elems(vs, 1));
                                            assert(out@ + seq![' '] + spec_render_elems(vs, 1)
                                                =~= seq!['('] + spec_render_elems(vs, 0));
                                        }
                                    } else {
                                        if idx + 1 == n {
                                            assert(spec_render_elems(vs, idx as int)
                                                == spec_render_elem(vs[idx as int]));
                                            assert(out@ =~= seq!['('] + spec_render_elems(vs, 0));
                                        } else {
                                            assert(spec_render_elems(vs, idx as int)
                                                == spec_render_elem(vs[idx as int]) + seq![' ']
                                                + spec_render_elems(vs, idx + 1));
                                            assert(out@ + seq![' '] + spec_render_elems(
                                                vs,
                                                idx + 1,
                                            ) =~= seq!['('] + spec_render_elems(vs, 0));
                                        }
                                    }
                                }
                            },
                            SymListItem::Early(_) => {
                                proof {
                                    assert(false);
                                }
                            },
                        }
                        idx = idx + 1;
                    }
                    out.append(")");
                    proof {
                        reveal_strlit(")");
                        if n == 0 {
                            assert(spec_render_elems(vs, 0) =~= Seq::<char>::empty());
                        }
                        assert(out@ =~= seq!['('] + spec_render_elems(vs, 0) + seq![')']);
                    }
                    out
                },
            },
        }
    }
}

} // verus!
