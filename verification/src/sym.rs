//! Symbolic-expression trees and their recursive-descent parser.
//!
//! The grammar is `item := atom | list`, `list := '(' item* ')'`, where an
//! atom is a maximal run of characters other than `'('`, `')'` and space.
//! Whitespace between items is insignificant.

use vstd::prelude::*;

use crate::element::MetaElement;

verus! {

/// Why parsing a symbolic expression failed.
#[derive(Debug, Clone, PartialEq, Eq, Structural)]
pub enum SymParseError {
    /// The input held nothing but whitespace.
    EmptyInput,
    /// The input began with `)`.
    UnexpectedListStart,
    /// The input ended before a list's matching `)`.
    UnterminatedList,
    /// Non-whitespace content followed the single top-level item.
    ExtraTrailingInput,
}

/// A raw, pre-semantic parse tree: an opaque atom or a list of items.
#[derive(Debug)]
pub enum SymItem {
    SymList(SymList),
    SymAtom(SymAtom),
}

/// One slot of a list: unresolved (`Early`, holding a parse tree) until the
/// resolver promotes it, exactly once, to resolved (`Full`).
#[derive(Debug)]
pub enum SymListItem {
    Early(SymItem),
    Full(MetaElement),
}

/// An ordered sequence of list slots.
#[derive(Debug)]
pub struct SymList {
    pub items: Vec<SymListItem>,
}

/// An opaque text token, the sole terminal of the grammar.
#[derive(Debug)]
pub struct SymAtom {
    pub symbol: String,
}

/// The mathematical shape of a symbolic-expression tree.
pub ghost enum SymV {
    Atom(Seq<char>),
    List(Seq<SymV>),
}

impl SymItem {
    /// The tree a parse result stands for; meaningful on trees whose slots
    /// are all unresolved (see [`SymItem::early_wf`]).
    pub open spec fn view(&self) -> SymV
        decreases *self,
    {
        match self {
            SymItem::SymAtom(a) => SymV::Atom(a.symbol@),
            SymItem::SymList(l) => SymV::List(
                Seq::new(l.items@.len(), |i: int| {
                    if 0 <= i < l.items@.len() {
                        l.items@[i].early_view()
                    } else {
                        SymV::Atom(Seq::empty())
                    }
                }),
            ),
        }
    }

    /// All slots of the tree are still unresolved.
    pub open spec fn early_wf(&self) -> bool
        decreases *self,
    {
        match self {
            SymItem::SymAtom(_) => true,
            SymItem::SymList(l) => forall|i: int|
                0 <= i < l.items@.len() ==> (#[trigger] l.items@[i]).early_slot_wf(),
        }
    }
}

impl SymListItem {
    /// The tree an unresolved slot holds; a resolved slot has no early view.
    pub open spec fn early_view(&self) -> SymV
        decreases *self,
    {
        match self {
            SymListItem::Early(s) => s@,
            SymListItem::Full(_) => SymV::Atom(Seq::empty()),
        }
    }

    /// The slot is unresolved and its tree's slots are unresolved in turn.
    pub open spec fn early_slot_wf(&self) -> bool
        decreases *self,
    {
        match self {
            SymListItem::Early(s) => s.early_wf(),
            SymListItem::Full(_) => false,
        }
    }
}

/// Whitespace between items: space or newline.
pub open spec fn is_ws(c: char) -> bool {
    c == ' ' || c == '\n'
}

/// A character that ends an atom run: parenthesis or space.
pub open spec fn is_delim(c: char) -> bool {
    c == '(' || c == ')' || c == ' '
}

/// The first position at or after `i` holding a non-whitespace character,
/// or the end of the input.
pub open spec fn spec_skip_ws(s: Seq<char>, i: nat) -> nat
    decreases s.len() - i,
{
    if i < s.len() && is_ws(s[i as int]) {
        spec_skip_ws(s, i + 1)
    } else {
        i
    }
}

/// The end of the atom run starting at `i`: the first position at or after
/// `i` holding a delimiter, or the end of the input.
pub open spec fn spec_atom_end(s: Seq<char>, i: nat) -> nat
    decreases s.len() - i,
{
    if i < s.len() && !is_delim(s[i as int]) {
        spec_atom_end(s, i + 1)
    } else {
        i
    }
}

/// Parse one item starting exactly at position `i`: the parsed tree and the
/// position just past it.
pub open spec fn spec_parse_item(s: Seq<char>, i: nat) -> Result<(SymV, nat), SymParseError>
    decreases s.len() - i, 0int,
{
    if i >= s.len() {
        Err(SymParseError::EmptyInput)
    } else if s[i as int] == ')' {
        Err(SymParseError::UnexpectedListStart)
    } else if s[i as int] == '(' {
        match spec_parse_items(s, i + 1) {
            Ok((items, j)) => Ok((SymV::List(items), j)),
            Err(e) => Err(e),
        }
    } else {
        Ok((SymV::Atom(s.subrange(i as int, spec_atom_end(s, i) as int)), spec_atom_end(s, i)))
    }
}

/// Parse list members from position `i` up to the closing parenthesis: the
/// member trees and the position just past the `)`.
pub open spec fn spec_parse_items(s: Seq<char>, i: nat) -> Result<(Seq<SymV>, nat), SymParseError>
    decreases s.len() - i, 1int,
{
    let k0 = spec_skip_ws(s, i);
    let k = if k0 < i {
        i
    } else {
        k0
    };
    if k >= s.len() {
        Err(SymParseError::UnterminatedList)
    } else if s[k as int] == ')' {
        Ok((Seq::empty(), k + 1))
    } else {
        match spec_parse_item(s, k) {
            Ok((v, j0)) => {
                let j1 = if j0 > k {
                    j0
                } else {
                    (k + 1) as nat
                };
                let j = if j1 > s.len() {
                    s.len()
                } else {
                    j1
                };
                match spec_parse_items(s, j) {
                    Ok((rest, m)) => Ok((seq![v] + rest, m)),
                    Err(e) => Err(e),
                }
            },
            Err(e) => Err(e),
        }
    }
}

/// Parse a whole input: exactly one item surrounded by whitespace.
pub open spec fn spec_parse(s: Seq<char>) -> Result<SymV, SymParseError> {
    let k = spec_skip_ws(s, 0);
    if k >= s.len() {
        Err(SymParseError::EmptyInput)
    } else {
        match spec_parse_item(s, k) {
            Ok((v, j)) => {
                if spec_skip_ws(s, j) >= s.len() {
                    Ok(v)
                } else {
                    Err(SymParseError::ExtraTrailingInput)
                }
            },
            Err(e) => Err(e),
        }
    }
}

/// The canonical text of a tree: atoms verbatim, lists parenthesised with a
/// single space between members.
pub open spec fn spec_render(v: SymV) -> Seq<char>
    decreases v,
{
    match v {
        SymV::Atom(a) => a,
        SymV::List(items) => seq!['('] + spec_render_seq(items, 0) + seq![')'],
    }
}

/// The text of the members of a list from position `i` on, space-separated.
pub open spec fn spec_render_seq(items: Seq<SymV>, i: int) -> Seq<char>
    decreases items, items.len() - i,
{
    if i < 0 || i >= items.len() {
        Seq::empty()
    } else if i == items.len() - 1 {
        spec_render(items[i])
    } else {
        spec_render(items[i]) + seq![' '] + spec_render_seq(items, i + 1)
    }
}

/// An atom whose rendering parses back to itself: non-empty, free of
/// delimiters, and not opening with a newline the parser would skip.
pub open spec fn valid_atom(a: Seq<char>) -> bool {
    &&& a.len() > 0
    &&& a[0] != '\n'
    &&& forall|i: int| 0 <= i < a.len() ==> !is_delim(#[trigger] a[i])
}

/// A tree whose rendering parses back to itself structurally.
pub open spec fn valid_tree(v: SymV) -> bool
    decreases v,
{
    match v {
        SymV::Atom(a) => valid_atom(a),
        SymV::List(items) => forall|i: int|
            0 <= i < items.len() ==> valid_tree(#[trigger] items[i]),
    }
}

proof fn lemma_skip_ws_bounds(s: Seq<char>, i: nat)
    requires
        i <= s.len(),
    ensures
        i <= spec_skip_ws(s, i) <= s.len(),
    decreases s.len() - i,
{
    if i < s.len() && is_ws(s[i as int]) {
        lemma_skip_ws_bounds(s, i + 1);
    }
}

proof fn lemma_atom_end_run(s: Seq<char>, i: nat, j: nat)
    requires
        i <= j <= s.len(),
        forall|m: int| i <= m < j ==> !is_delim(#[trigger] s[m]),
        j == s.len() || is_delim(s[j as int]),
    ensures
        spec_atom_end(s, i) == j,
    decreases j - i,
{
    if i < j {
        lemma_atom_end_run(s, i + 1, j);
    }
}

proof fn lemma_render_first(v: SymV)
    requires
        valid_tree(v),
    ensures
        spec_render(v).len() >= 1,
        !is_ws(spec_render(v)[0]),
        spec_render(v)[0] != ')',
{
    match v {
        SymV::Atom(a) => {
            assert(!is_delim(a[0]));
        },
        SymV::List(items) => {
            assert(spec_render(v)[0] == '(');
        },
    }
}

proof fn lemma_render_seq_first(items: Seq<SymV>, idx: int)
    requires
        0 <= idx < items.len(),
        valid_tree(items[idx]),
    ensures
        spec_render_seq(items, idx).len() >= spec_render(items[idx]).len(),
        forall|n: int|
            0 <= n < spec_render(items[idx]).len() ==> #[trigger] spec_render_seq(items, idx)[n]
                == spec_render(items[idx])[n],
        idx < items.len() - 1 ==> spec_render_seq(items, idx).len() > spec_render(
            items[idx],
        ).len() && spec_render_seq(items, idx)[spec_render(items[idx]).len() as int] == ' ',
        idx == items.len() - 1 ==> spec_render_seq(items, idx) == spec_render(items[idx]),
        spec_render_seq(items, idx).len() >= 1,
        !is_ws(spec_render_seq(items, idx)[0]),
        spec_render_seq(items, idx)[0] != ')',
{
    lemma_render_first(items[idx]);
}

/// Parsing the rendering of one valid tree, embedded in a larger input at
/// position `i`, yields that tree back and stops just past it.
proof fn lemma_parse_of_render(s: Seq<char>, i: nat, v: SymV)
    requires
        valid_tree(v),
        i + spec_render(v).len() <= s.len(),
        s.subrange(i as int, (i + spec_render(v).len()) as int) == spec_render(v),
        (v matches SymV::Atom(_)) ==> (i + spec_render(v).len() == s.len() || is_delim(
            s[(i + spec_render(v).len()) as int],
        )),
    ensures
        spec_parse_item(s, i) == Ok::<(SymV, nat), SymParseError>(
            (v, (i + spec_render(v).len()) as nat),
        ),
    decreases v, 0nat, 0nat,
{
    let rv = spec_render(v);
    let ln = rv.len();
    lemma_render_first(v);
    assert(s[i as int] == rv[0]);
    match v {
        SymV::Atom(a) => {
            assert(forall|m: int| i <= m < i + ln ==> !is_delim(#[trigger] s[m])) by {
                assert(forall|m: int|
                    i <= m < i + ln ==> #[trigger] s[m] == rv[m - i] && !is_delim(rv[m - i]));
            }
            lemma_atom_end_run(s, i, (i + ln) as nat);
            assert(s.subrange(i as int, (i + ln) as int) == a);
        },
        SymV::List(items) => {
            let rs = spec_render_seq(items, 0);
            let rsl = rs.len();
            assert(rv =~= seq!['('] + rs + seq![')']);
            assert(ln == rsl + 2);
            assert(s[i as int] == '(');
            assert(forall|n: int| 0 <= n < rsl ==> #[trigger] s[i + 1 + n] == rs[n]) by {
                assert(forall|n: int|
                    0 <= n < rsl ==> #[trigger] s[i + 1 + n] == rv[n + 1] && rv[n + 1] == rs[n]);
            }
            assert(s[(i + 1 + rsl) as int] == ')') by {
                assert(s[(i + 1 + rsl) as int] == rv[(1 + rsl) as int]);
            }
            // The position after the opening parenthesis starts a member or
            // the closing parenthesis; neither is whitespace.
            if items.len() == 0 {
                assert(spec_skip_ws(s, (i + 1) as nat) == i + 1);
            } else {
                lemma_render_seq_first(items, 0);
                assert(s[i as int + 1 + 0] == rs[0]);
                assert(s[(i + 1) as int] == rs[0]);
                assert(spec_skip_ws(s, (i + 1) as nat) == i + 1);
            }
            let start = spec_skip_ws(s, (i + 1) as nat);
            assert(start == i + 1);
            assert(s.subrange((i + 1) as int, (i + 1 + rsl) as int) =~= rs) by {
                assert(forall|n: int|
                    0 <= n < rsl ==> #[trigger] s.subrange((i + 1) as int, (i + 1 + rsl) as int)[n]
                        == s[i + 1 + n]);
            }
            assert(s.subrange(start as int, (start + rsl) as int) =~= rs);
            lemma_parse_of_render_seq(s, (i + 1) as nat, items, 0);
            assert(items.subrange(0, items.len() as int) =~= items);
            assert(spec_parse_items(s, (i + 1) as nat) == Ok::<(Seq<SymV>, nat), SymParseError>(
                (items, (i + ln) as nat),
            ));
        },
    }
}

/// Parsing the rendering of the members of a valid list from member `idx`
/// on, followed by the closing parenthesis, yields exactly those members.
proof fn lemma_parse_of_render_seq(s: Seq<char>, i: nat, items: Seq<SymV>, idx: int)
    requires
        0 <= idx <= items.len(),
        forall|m: int| 0 <= m < items.len() ==> valid_tree(#[trigger] items[m]),
        i <= s.len(),
        spec_skip_ws(s, i) + spec_render_seq(items, idx).len() + 1 <= s.len(),
        s.subrange(
            spec_skip_ws(s, i) as int,
            (spec_skip_ws(s, i) + spec_render_seq(items, idx).len()) as int,
        ) == spec_render_seq(items, idx),
        s[(spec_skip_ws(s, i) + spec_render_seq(items, idx).len()) as int] == ')',
    ensures
        spec_parse_items(s, i) == Ok::<(Seq<SymV>, nat), SymParseError>(
            (
                items.subrange(idx, items.len() as int),
                (spec_skip_ws(s, i) + spec_render_seq(items, idx).len() + 1) as nat,
            ),
        ),
    decreases items, items.len() - idx, 1nat,
{
    lemma_skip_ws_bounds(s, i);
    let start = spec_skip_ws(s, i);
    let rs = spec_render_seq(items, idx);
    let rsl = rs.len();
    if idx == items.len() {
        assert(rsl == 0);
        assert(items.subrange(idx, items.len() as int) =~= Seq::<SymV>::empty());
        assert(s[start as int] == ')');
    } else {
        lemma_render_seq_first(items, idx);
        assert(forall|n: int| 0 <= n < rsl ==> s[start + n] == #[trigger] rs[n]) by {
            assert(forall|n: int|
                0 <= n < rsl ==> #[trigger] rs[n] == s.subrange(
                    start as int,
                    (start + rsl) as int,
                )[n]);
        }
        assert(s[start as int + 0] == rs[0]);
        assert(s[start as int] == rs[0]);
        let rl = spec_render(items[idx]).len();
        assert(s.subrange(start as int, (start + rl) as int) =~= spec_render(items[idx])) by {
            assert(forall|n: int|
                0 <= n < rl ==> #[trigger] s.subrange(start as int, (start + rl) as int)[n] == s[
                    start as int + n
                ] && s[start as int + n] == rs[n] && rs[n] == spec_render(items[idx])[n]);
        }
        if idx + 1 == items.len() {
            assert(rsl == rl);
        } else {
            assert(s[(start + rl) as int] == rs[rl as int]);
            assert(is_delim(s[(start + rl) as int]));
        }
        lemma_parse_of_render(s, start, items[idx]);
        let j0 = (start + rl) as nat;
        assert(spec_parse_item(s, start) == Ok::<(SymV, nat), SymParseError>((items[idx], j0)));
        // The recursion continues just past this member's text.
        let rest = spec_render_seq(items, idx + 1);
        if idx + 1 == items.len() {
            assert(s[j0 as int] == ')');
            assert(spec_skip_ws(s, j0) == j0);
            assert(rest.len() == 0);
            assert(s.subrange(j0 as int, j0 as int) =~= rest);
            lemma_parse_of_render_seq(s, j0, items, idx + 1);
        } else {
            assert(rs =~= spec_render(items[idx]) + seq![' '] + rest);
            assert(forall|n: int| 0 <= n < rest.len() ==> #[trigger] rest[n] == rs[rl as int + 1 + n]);
            assert(s[start as int + rl as int] == rs[rl as int]);
            assert(s[j0 as int] == ' ');
            lemma_render_seq_first(items, idx + 1);
            assert(s[start as int + (rl as int + 1)] == rs[rl as int + 1]);
            assert(s[(j0 + 1) as int] == rest[0]);
            assert(spec_skip_ws(s, j0) == spec_skip_ws(s, (j0 + 1) as nat));
            assert(spec_skip_ws(s, (j0 + 1) as nat) == j0 + 1);
            assert(s.subrange((j0 + 1) as int, (j0 + 1 + rest.len()) as int) =~= rest) by {
                assert(forall|n: int|
                    0 <= n < rest.len() ==> #[trigger] s.subrange(
                        (j0 + 1) as int,
                        (j0 + 1 + rest.len()) as int,
                    )[n] == s[start as int + (rl as int + 1 + n)] && s[start as int + (rl as int + 1
                        + n)] == rs[rl as int + 1 + n]);
            }
            assert(s[(j0 + 1 + rest.len()) as int] == ')') by {
                assert(j0 + 1 + rest.len() == start + rsl);
            }
            lemma_parse_of_render_seq(s, j0, items, idx + 1);
        }
        assert(seq![items[idx]] + items.subrange(idx + 1, items.len() as int) =~= items.subrange(
            idx,
            items.len() as int,
        ));
    }
}

/// Parser round trip: rendering any valid tree and parsing the text back
/// yields a structurally equal tree.
pub proof fn lemma_parse_render_round_trip(v: SymV)
    requires
        valid_tree(v),
    ensures
        spec_parse(spec_render(v)) == Ok::<SymV, SymParseError>(v),
{
    let s = spec_render(v);
    lemma_render_first(v);
    assert(spec_skip_ws(s, 0) == 0);
    assert(s.subrange(0, s.len() as int) =~= s);
    lemma_parse_of_render(s, 0, v);
    assert(spec_skip_ws(s, s.len()) == s.len());
}

/// The trees held by a sequence of unresolved slots.
pub open spec fn early_views(items: Seq<SymListItem>) -> Seq<SymV> {
    Seq::new(items.len(), |i: int| {
        if 0 <= i < items.len() {
            items[i].early_view()
        } else {
            SymV::Atom(Seq::empty())
        }
    })
}

/// All slots of a sequence are unresolved well-formed trees.
pub open spec fn early_slots_wf(items: Seq<SymListItem>) -> bool {
    forall|i: int| 0 <= i < items.len() ==> (#[trigger] items[i]).early_slot_wf()
}

/// Advance over whitespace from position `i`.
fn skip_ws_at(s: &str, i: usize) -> (r: usize)
    requires
        i <= s@.len(),
    ensures
        r as nat == spec_skip_ws(s@, i as nat),
        i <= r <= s@.len(),
{
    let n = s.unicode_len();
    let mut k = i;
    loop
        invariant
            i <= k <= n,
            n == s@.len(),
            spec_skip_ws(s@, i as nat) == spec_skip_ws(s@, k as nat),
        decreases n - k,
    {
        if k >= n {
            return k;
        }
        let c = s.get_char(k);
        if c != ' ' && c != '\n' {
            return k;
        }
        k = k + 1;
    }
}

/// Advance to the end of the atom run starting at `i`.
fn atom_end_at(s: &str, i: usize) -> (r: usize)
    requires
        i <= s@.len(),
    ensures
        r as nat == spec_atom_end(s@, i as nat),
        i <= r <= s@.len(),
{
    let n = s.unicode_len();
    let mut k = i;
    loop
        invariant
            i <= k <= n,
            n == s@.len(),
            spec_atom_end(s@, i as nat) == spec_atom_end(s@, k as nat),
        decreases n - k,
    {
        if k >= n {
            return k;
        }
        let c = s.get_char(k);
        if c == '(' || c == ')' || c == ' ' {
            return k;
        }
        k = k + 1;
    }
}

/// Parse one item starting exactly at position `i`.
fn parse_item_at(s: &str, i: usize) -> (r: Result<(SymItem, usize), SymParseError>)
    requires
        i <= s@.len(),
    ensures
        match r {
            Ok(p) => {
                &&& p.0.early_wf()
                &&& spec_parse_item(s@, i as nat) == Ok::<(SymV, nat), SymParseError>(
                    (p.0@, p.1 as nat),
                )
                &&& i <= p.1 <= s@.len()
            },
            Err(e) => spec_parse_item(s@, i as nat) == Err::<(SymV, nat), SymParseError>(e),
        },
    decreases s@.len() - i, 0int,
{
    let n = s.unicode_len();
    if i >= n {
        return Err(SymParseError::EmptyInput);
    }
    let c = s.get_char(i);
    if c == ')' {
        Err(SymParseError::UnexpectedListStart)
    } else if c == '(' {
        match parse_items_at(s, i + 1) {
            Ok((items, j)) => {
                let item = SymItem::SymList(SymList { items });
                proof {
                    assert(item@ matches SymV::List(vs) && vs =~= early_views(
                        item->SymList_0.items@,
                    ));
                }
                Ok((item, j))
            },
            Err(e) => Err(e),
        }
    } else {
        let j = atom_end_at(s, i);
        let text = s.substring_char(i, j);
        let item = SymItem::SymAtom(SymAtom { symbol: text.to_owned() });
        Ok((item, j))
    }
}

/// Parse list members from position `i` up to the closing parenthesis.
fn parse_items_at(s: &str, i: usize) -> (r: Result<(Vec<SymListItem>, usize), SymParseError>)
    requires
        i <= s@.len(),
    ensures
        match r {
            Ok(p) => {
                &&& early_slots_wf(p.0@)
                &&& spec_parse_items(s@, i as nat) == Ok::<(Seq<SymV>, nat), SymParseError>(
                    (early_views(p.0@), p.1 as nat),
                )
                &&& i <= p.1 <= s@.len()
            },
            Err(e) => spec_parse_items(s@, i as nat) == Err::<(Seq<SymV>, nat), SymParseError>(e),
        },
    decreases s@.len() - i, 1int,
{
    let n = s.unicode_len();
    let k = skip_ws_at(s, i);
    if k >= n {
        return Err(SymParseError::UnterminatedList);
    }
    let c = s.get_char(k);
    if c == ')' {
        let out: Vec<SymListItem> = Vec::new();
        proof {
            assert(early_views(out@) =~= Seq::<SymV>::empty());
        }
        return Ok((out, k + 1));
    }
    match parse_item_at(s, k) {
        Err(e) => Err(e),
        Ok((item, j0)) => {
            let j1 = if j0 > k {
                j0
            } else {
                k + 1
            };
            let j = if j1 > n {
                n
            } else {
                j1
            };
            match parse_items_at(s, j) {
                Err(e) => Err(e),
                Ok((rest, m)) => {
                    let ghost rest_snap = rest@;
                    let mut out = rest;
                    out.insert(0, SymListItem::Early(item));
                    proof {
                        assert(early_views(out@) =~= seq![item@] + early_views(rest_snap));
                    }
                    Ok((out, m))
                },
            }
        },
    }
}

impl SymItem {
    /// Parse a whole input: exactly one item, surrounded only by whitespace.
    pub fn parse(s: &str) -> (r: Result<SymItem, SymParseError>)
        ensures
            match r {
                Ok(item) => {
                    &&& item.early_wf()
                    &&& spec_parse(s@) == Ok::<SymV, SymParseError>(item@)
                },
                Err(e) => spec_parse(s@) == Err::<SymV, SymParseError>(e),
            },
    {
        let n = s.unicode_len();
        let k = skip_ws_at(s, 0);
        if k >= n {
            return Err(SymParseError::EmptyInput);
        }
        match parse_item_at(s, k) {
            Err(e) => Err(e),
            Ok((item, j)) => {
                let m = skip_ws_at(s, j);
                if m >= n {
                    Ok(item)
                } else {
                    Err(SymParseError::ExtraTrailingInput)
                }
            },
        }
    }
}

impl SymItem {
    /// The canonical text of an unresolved tree.
    #[verifier::loop_isolation(false)]
    pub fn render(&self) -> (r: String)
        requires
            self.early_wf(),
        ensures
            r@ == spec_render(self@),
        decreases *self,
    {
        match self {
            SymItem::SymAtom(a) => {
                let r = a.symbol.clone();
                proof {
                    assert(r@ =~= spec_render(self@));
                }
                r
            },
            SymItem::SymList(l) => {
                let ghost vs = early_views(l.items@);
                proof {
                    assert(self@ matches SymV::List(ws) && ws =~= vs);
                }
                let mut out: String = "(".to_owned();
                proof {
                    reveal_strlit("(");
                    assert(out@ =~= seq!['(']);
                }
                let n = l.items.len();
                let mut idx: usize = 0;
                while idx < n
                    invariant
                        n == l.items@.len(),
                        idx <= n,
                        *self == SymItem::SymList(*l),
                        self.early_wf(),
                        vs == early_views(l.items@),
                        idx == 0 ==> out@ =~= seq!['('],
                        0 < idx < n ==> out@ + seq![' '] + spec_render_seq(vs, idx as int) =~= seq![
                            '(',
                        ] + spec_render_seq(vs, 0),
                        idx == n && n > 0 ==> out@ =~= seq!['('] + spec_render_seq(vs, 0),
                    decreases n - idx,
                {
                    proof {
                        assert(l.items@[idx as int].early_slot_wf());
                    }
                    let ghost out_pre = out@;
                    if idx > 0 {
                        out.append(" ");
                        proof {
                            reveal_strlit(" ");
                            assert(out@ =~= out_pre + seq![' ']);
                        }
                    }
                    let ghost out_sep = out@;
                    match &l.items[idx] {
                        SymListItem::Early(sub) => {
                            proof {
                                broadcast use vstd::std_specs::vec::axiom_vec_index_decreases;

                                assert(sub@ == vs[idx as int]);
                                assert(decreases_to!(*self => *l));
                                assert(decreases_to!(*l => l.items));
                                assert(decreases_to!(l.items => l.items[idx as int]));
                                assert(decreases_to!(l.items[idx as int] => *sub));
                                assert(decreases_to!(*self => *sub));
                            }
                            let piece = sub.render();
                            out.append(piece.as_str());
                            proof {
                                assert(out@ == out_sep + spec_render(vs[idx as int]));
                                if idx == 0 {
                                    if n == 1 {
                                        assert(out@ =~= seq!['('] + spec_render_seq(vs, 0));
                                    } else {
                                        assert(spec_render_seq(vs, 0) == spec_render(vs[0]) + seq![
                                            ' ',
                                        ] + spec_render_seq(vs, 1));
                                        assert(out@ + seq![' '] + spec_render_seq(vs, 1) =~= seq![
                                            '(',
                                        ] + spec_render_seq(vs, 0));
                                    }
                                } else {
                                    if idx + 1 == n {
                                        assert(spec_render_seq(vs, idx as int) == spec_render(
                                            vs[idx as int],
                                        ));
                                        assert(out@ =~= seq!['('] + spec_render_seq(vs, 0));
                                    } else {
                                        assert(spec_render_seq(vs, idx as int) == spec_render(
                                            vs[idx as int],
                                        ) + seq![' '] + spec_render_seq(vs, idx + 1));
                                        assert(out@ + seq![' '] + spec_render_seq(vs, idx + 1) =~=
                                        seq!['('] + spec_render_seq(vs, 0));
                                    }
                                }
                            }
                        },
                        SymListItem::Full(_) => {
                            proof {
                                assert(false);
                            }
                        },
                    }
                    idx = idx + 1;
                }
                let ghost out_body = out@;
                out.append(")");
                proof {
                    reveal_strlit(")");
                    if n == 0 {
                        assert(spec_render_seq(vs, 0) =~= Seq::<char>::empty());
                    }
                    assert(out@ =~= seq!['('] + spec_render_seq(vs, 0) + seq![')']);
                }
                out
            },
        }
    }

    /// A structurally equal copy of an unresolved tree.
    #[verifier::loop_isolation(false)]
    pub fn duplicate(&self) -> (r: SymItem)
        requires
            self.early_wf(),
        ensures
            r@ == self@,
            r.early_wf(),
        decreases *self,
    {
        match self {
            SymItem::SymAtom(a) => {
                let copy = a.symbol.clone();
                proof {
                    assert(copy@ == a.symbol@);
                }
                let r = SymItem::SymAtom(SymAtom { symbol: copy });
                proof {
                    assert(r@ == self@);
                }
                r
            },
            SymItem::SymList(l) => {
                let n = l.items.len();
                let mut out: Vec<SymListItem> = Vec::new();
                let mut idx: usize = 0;
                while idx < n
                    invariant
                        n == l.items@.len(),
                        idx <= n,
                        *self == SymItem::SymList(*l),
                        self.early_wf(),
                        out@.len() == idx,
                        forall|m: int|
                            0 <= m < idx ==> (#[trigger] out@[m]).early_slot_wf()
                                && out@[m].early_view() == l.items@[m].early_view(),
                    decreases n - idx,
                {
                    proof {
                        assert(l.items@[idx as int].early_slot_wf());
                    }
                    match &l.items[idx] {
                        SymListItem::Early(sub) => {
                            proof {
                                broadcast use vstd::std_specs::vec::axiom_vec_index_decreases;

                                assert(decreases_to!(*self => *l));
                                assert(decreases_to!(*l => l.items));
                                assert(decreases_to!(l.items => l.items[idx as int]));
                                assert(decreases_to!(l.items[idx as int] => *sub));
                                assert(decreases_to!(*self => *sub));
                            }
                            let copy = sub.duplicate();
                            out.push(SymListItem::Early(copy));
                        },
                        SymListItem::Full(_) => {
                            proof {
                                assert(false);
                            }
                        },
                    }
                    idx = idx + 1;
                }
                let rr = SymItem::SymList(SymList { items: out });
                proof {
                    assert(rr@ matches SymV::List(vs) && vs =~= early_views(l.items@));
                    assert(self@ matches SymV::List(ws) && ws =~= early_views(l.items@));
                    assert(rr@ == self@);
                    assert(forall|m: int|
                        0 <= m < out@.len() ==> (#[trigger] out@[m]).early_slot_wf());
                    assert(rr.early_wf());
                }
                rr
            },
        }
    }

    /// Whether this item is an atom.
    pub fn is_atom(&self) -> (r: bool)
        ensures
            r == (self@ matches SymV::Atom(_)),
    {
        match self {
            SymItem::SymAtom(_) => true,
            _ => false,
        }
    }

    /// Whether this item is a list.
    pub fn is_list(&self) -> (r: bool)
        ensures
            r == (self@ matches SymV::List(_)),
    {
        match self {
            SymItem::SymList(_) => true,
            _ => false,
        }
    }

    /// The atom's text, or `None` on a list.
    pub fn as_str(&self) -> (r: Option<&str>)
        ensures
            match r {
                Some(s) => self@ == SymV::Atom(s@),
                None => self@ matches SymV::List(_),
            },
    {
        if let SymItem::SymAtom(atom) = self {
            Some(atom.symbol.as_str())
        } else {
            None
        }
    }

    /// The list behind this item, or `None` on an atom.
    pub fn as_list(&self) -> (r: Option<&SymList>)
        ensures
            match r {
                Some(l) => *self == SymItem::SymList(*l),
                None => self@ matches SymV::Atom(_),
            },
    {
        if let SymItem::SymList(list) = self {
            Some(list)
        } else {
            None
        }
    }
}

} // verus!
