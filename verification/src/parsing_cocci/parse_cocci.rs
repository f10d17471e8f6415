//! Parsing of a semantic patch: rules, their dependencies, metavariable
//! declarations and the `+`/`-` code, into `Rule`s.
use vstd::prelude::*;
use crate::commons::syntax_kind::Tag;
use crate::commons::text::{
    chars_eq, chars_eq_str, chars_of, decimal, decimal_text, lines, lines_of, push_all, push_str, skip_chars, spec_lines,
    spec_split, spec_trim, split_at, split_state, split_at_any, str_eq, string_of, trim,
};
use crate::commons::util::{
    braces_removed, getstmtlist, removestmtbracesaddpluses, stmtlist_of,
    attachback, attachfront, attached_back, attached_front, back_attachable, first_leaf_mcode,
    front_attachable, last_leaf_mcode, with_back_pluses, with_front_pluses,
};
use crate::parsing_cocci::visitor_ast0::{cocci_tree, wrap_root};
use crate::parsing_cocci::ast0::{
    can_attach, mcodekind_of, minfo_of, preorder, preorder_seq, snode_string, with_minfo, KeepBinding, snodes_v, MetaVar, MetaVarV, MetavarName,
    MetavarNameV, MODKIND, Snode, SnodeV, WrapV,
};

verus! {

type Name = String;

/// When a rule applies, in terms of the rules before it.
pub enum Dep {
    NoDep,
    FailDep,
    Dep(Name),
    AndDep(Box<(Dep, Dep)>),
    OrDep(Box<(Dep, Dep)>),
    AntiDep(Box<Dep>),
}

/// What a line of the code part of a rule adds to the `+` buffer.
pub open spec fn plus_line(l: Seq<char>) -> Seq<char> {
    if l.len() > 0 && l[0] == '+' {
        "/*+*/"@ + l.drop_first() + "\n"@
    } else if l.len() > 0 && l[0] == '-' {
        "\n"@
    } else if l.len() > 0 && l[0] == '(' {
        "if COCCIVAR {\n"@
    } else if l.len() > 0 && l[0] == '|' {
        "} else if COCCIVAR {\n"@
    } else if l.len() > 0 && l[0] == ')' {
        "}\n"@
    } else {
        l + "\n"@
    }
}

/// What a line of the code part of a rule adds to the `-` buffer.
pub open spec fn minus_line(l: Seq<char>) -> Seq<char> {
    if l.len() > 0 && l[0] == '+' {
        "\n"@
    } else if l.len() > 0 && l[0] == '-' {
        "/*-*/"@ + l.drop_first() + "\n"@
    } else if l.len() > 0 && l[0] == '(' {
        "if COCCIVAR {\n"@
    } else if l.len() > 0 && l[0] == '|' {
        "} else if COCCIVAR {\n"@
    } else if l.len() > 0 && l[0] == ')' {
        "}\n"@
    } else {
        l + "\n"@
    }
}

/// The `+` buffer of the first `k` lines.
pub open spec fn plus_buf(lines: Seq<Seq<char>>, k: int) -> Seq<char>
    decreases k,
{
    if k <= 0 || k > lines.len() {
        Seq::empty()
    } else {
        plus_buf(lines, k - 1) + plus_line(lines[k - 1])
    }
}

/// The `-` buffer of the first `k` lines.
pub open spec fn minus_buf(lines: Seq<Seq<char>>, k: int) -> Seq<char>
    decreases k,
{
    if k <= 0 || k > lines.len() {
        Seq::empty()
    } else {
        minus_buf(lines, k - 1) + minus_line(lines[k - 1])
    }
}

/// The views of a sequence of string slices.
pub open spec fn strs_v(v: Seq<&str>) -> Seq<Seq<char>> {
    Seq::new(v.len(), |i: int| v[i]@)
}

/// Splits the code part of a rule into the code that the rule matches with
/// `-` lines kept (the `-` buffer) and the code it produces with `+` lines
/// kept (the `+` buffer).  Each line of the block gives one line in each
/// buffer, so that line numbers are kept; the modifier becomes a comment
/// `/*+*/` or `/*-*/` in front of its line, and a disjunction `(`, `|`, `)`
/// becomes an `if COCCIVAR {` ... `} else if COCCIVAR {` ... `}` chain.
pub fn handlemods(block: &Vec<&str>) -> (r: (String, String))
    ensures
        r.0@ == plus_buf(strs_v(block@), block@.len() as int),
        r.1@ == minus_buf(strs_v(block@), block@.len() as int),
{
    let mut plusbuf: Vec<char> = Vec::new();
    let mut minusbuf: Vec<char> = Vec::new();
    let ghost lines = strs_v(block@);
    for i in 0..block.len()
        invariant
            lines == strs_v(block@),
            plusbuf@ == plus_buf(lines, i as int),
            minusbuf@ == minus_buf(lines, i as int),
    {
        let line = chars_of(block[i]);
        proof {
            assert(line@ == lines[i as int]);
        }
        if line.len() > 0 && line[0] == '+' {
            push_str(&mut plusbuf, "/*+*/");
            push_all(&mut plusbuf, &skip_chars(&line, 1));
            plusbuf.push('\n');
            minusbuf.push('\n');
            proof {
                reveal_strlit("\n");
                assert(line@.skip(1) == line@.drop_first());
                assert(plus_line(line@) == "/*+*/"@ + line@.drop_first() + "\n"@);
            }
        } else if line.len() > 0 && line[0] == '-' {
            push_str(&mut minusbuf, "/*-*/");
            push_all(&mut minusbuf, &skip_chars(&line, 1));
            minusbuf.push('\n');
            plusbuf.push('\n');
            proof {
                reveal_strlit("\n");
                assert(line@.skip(1) == line@.drop_first());
            }
        } else if line.len() > 0 && line[0] == '(' {
            push_str(&mut plusbuf, "if COCCIVAR {\n");
            push_str(&mut minusbuf, "if COCCIVAR {\n");
        } else if line.len() > 0 && line[0] == '|' {
            push_str(&mut plusbuf, "} else if COCCIVAR {\n");
            push_str(&mut minusbuf, "} else if COCCIVAR {\n");
        } else if line.len() > 0 && line[0] == ')' {
            push_str(&mut plusbuf, "}\n");
            push_str(&mut minusbuf, "}\n");
        } else {
            push_all(&mut plusbuf, &line);
            plusbuf.push('\n');
            push_all(&mut minusbuf, &line);
            minusbuf.push('\n');
            proof {
                reveal_strlit("\n");
            }
        }
        proof {
            assert(plus_buf(lines, i + 1) == plus_buf(lines, i as int) + plus_line(lines[i as int]));
            assert(minus_buf(lines, i + 1) == minus_buf(lines, i as int) + minus_line(lines[i as int]));
        }
    }
    (string_of(&plusbuf), string_of(&minusbuf))
}

// ---------------------------------------------------------------------
// Metavariables in the code of a rule

/// The models of a list of metavariables.
pub open spec fn mvars_v(v: Seq<MetaVar>) -> Seq<MetaVarV> {
    Seq::new(v.len(), |i: int| v[i]@)
}

/// The name of a metavariable (empty for plain code).
pub open spec fn var_name(m: MetaVarV) -> Seq<char> {
    match m {
        MetaVarV::NoMeta => Seq::empty(),
        _ => minfo_of(m).0.varname,
    }
}

/// The rule of a metavariable (empty for plain code).
pub open spec fn var_rule(m: MetaVarV) -> Seq<char> {
    match m {
        MetaVarV::NoMeta => Seq::empty(),
        _ => minfo_of(m).0.rulename,
    }
}

/// The first index from `i` on of a metavariable of `ms` named `name`.
pub open spec fn first_named(ms: Seq<MetaVarV>, name: Seq<char>, i: int) -> Option<int>
    decreases ms.len() - i,
{
    if i < 0 || i >= ms.len() {
        None
    } else if var_name(ms[i]) == name {
        Some(i)
    } else {
        first_named(ms, name, i + 1)
    }
}

proof fn lemma_first_named_bounds(ms: Seq<MetaVarV>, name: Seq<char>, i: int)
    ensures
        first_named(ms, name, i) matches Some(k) ==> i <= k < ms.len() && var_name(ms[k]) == name,
    decreases ms.len() - i,
{
    if 0 <= i < ms.len() && var_name(ms[i]) != name {
        lemma_first_named_bounds(ms, name, i + 1);
    }
}

/// The name of a metavariable, empty for plain code.
pub fn name_chars(m: &MetaVar) -> (r: Vec<char>)
    ensures
        r@ == var_name(m@),
{
    match m {
        MetaVar::NoMeta => Vec::new(),
        MetaVar::Exp(i) | MetaVar::Id(i) | MetaVar::Type(i) | MetaVar::Struct(_, i) | MetaVar::Enum(_, i) => chars_of(
            i.0.varname.as_str(),
        ),
    }
}

/// The rule of a metavariable, empty for plain code.
pub fn rule_chars(m: &MetaVar) -> (r: Vec<char>)
    ensures
        r@ == var_rule(m@),
{
    match m {
        MetaVar::NoMeta => Vec::new(),
        MetaVar::Exp(i) | MetaVar::Id(i) | MetaVar::Type(i) | MetaVar::Struct(_, i) | MetaVar::Enum(_, i) => chars_of(
            i.0.rulename.as_str(),
        ),
    }
}

/// The index of the first metavariable of `ms` named `name`.
pub fn find_named(ms: &Vec<MetaVar>, name: &Vec<char>) -> (r: Option<usize>)
    ensures
        match first_named(mvars_v(ms@), name@, 0) {
            Some(k) => r matches Some(x) && x as int == k,
            None => r is None,
        },
{
    let ghost mv = mvars_v(ms@);
    let mut i: usize = 0;
    while i < ms.len()
        invariant
            mv == mvars_v(ms@),
            i <= ms@.len(),
            first_named(mv, name@, 0) == first_named(mv, name@, i as int),
        decreases ms@.len() - i,
    {
        let n = name_chars(&ms[i]);
        if chars_eq(&n, name) {
            return Some(i);
        }
        i = i + 1;
    }
    None
}

/// Whether a node of this kind can stand for a metavariable.
pub open spec fn names_metavar(t: Tag) -> bool {
    t == Tag::PathExpr || t == Tag::IdentPat || t == Tag::NameRef
}

/// `n` with the metavariable that its text names, among `ms`, if it is a
/// node that can stand for one.
pub open spec fn node_metavar_set(n: SnodeV, ms: Seq<MetaVarV>) -> SnodeV {
    if names_metavar(n.kind) && first_named(ms, snode_string(n), 0) is Some {
        SnodeV {
            wrapper: WrapV { metavar: ms[first_named(ms, snode_string(n), 0)->0], ..n.wrapper },
            ..n
        }
    } else {
        n
    }
}

/// A tree with each node that names a metavariable of `ms` marked with it.
pub open spec fn metavars_set(n: SnodeV, ms: Seq<MetaVarV>) -> SnodeV
    decreases n, 1int,
{
    SnodeV {
        children: metavars_set_seq(n.children, ms, n.children.len() as int),
        ..node_metavar_set(n, ms)
    }
}

pub open spec fn metavars_set_seq(s: Seq<SnodeV>, ms: Seq<MetaVarV>, k: int) -> Seq<SnodeV>
    decreases s, k,
{
    if k <= 0 || k > s.len() {
        Seq::empty()
    } else {
        metavars_set_seq(s, ms, k - 1).push(metavars_set(s[k - 1], ms))
    }
}

// ---------------------------------------------------------------------
// Modifiers of lines

/// The state carried through the nodes in preorder while the modifier of a
/// line is spread over the nodes on that line: the line and its modifier.
pub type ModState = (usize, Option<MODKIND>);

/// `n` with modifier `k` and nothing attached.
pub open spec fn with_mod(n: SnodeV, k: Option<MODKIND>) -> SnodeV {
    SnodeV { wrapper: WrapV { modkind: k, mcodekind: mcodekind_of(k), ..n.wrapper }, ..n }
}

/// One step: a node with a modifier starts its line's modifier (and keeps
/// it only if it lies on one line); a node without one that lies on the
/// current modified line gets its modifier.
pub open spec fn tagmods(n: SnodeV, st: ModState) -> (SnodeV, ModState) {
    let start = n.wrapper.info.pos_info.line_start;
    let end = n.wrapper.info.pos_info.line_end;
    match n.wrapper.modkind {
        Some(mk) => (
            if start == end {
                n
            } else {
                with_mod(n, None)
            },
            (start, Some(mk)),
        ),
        None => if st.0 == 0 {
            (n, (0, None))
        } else if start == st.0 && start == end {
            (with_mod(n, st.1), st)
        } else if start == st.0 && start != end {
            (n, st)
        } else {
            (n, (0, None))
        },
    }
}

/// A tree with the modifiers of lines spread, and the state after it.
pub open spec fn mods_set(n: SnodeV, st: ModState) -> (SnodeV, ModState)
    decreases n, 1int,
{
    let (n1, st1) = tagmods(n, st);
    let (cs, st2) = mods_set_seq(n.children, st1, n.children.len() as int);
    (SnodeV { children: cs, ..n1 }, st2)
}

pub open spec fn mods_set_seq(s: Seq<SnodeV>, st: ModState, k: int) -> (Seq<SnodeV>, ModState)
    decreases s, k,
{
    if k <= 0 || k > s.len() {
        (Seq::empty(), st)
    } else {
        let (p, st1) = mods_set_seq(s, st, k - 1);
        let (x, st2) = mods_set(s[k - 1], st1);
        (p.push(x), st2)
    }
}

// ---------------------------------------------------------------------
// Attaching `+` code to the `-` tree

/// `n` with `p` attached before its first token; `None` when `p` is not
/// empty and that token cannot carry code.
pub open spec fn front_attached(n: SnodeV, p: Seq<SnodeV>) -> Option<SnodeV> {
    if p.len() == 0 {
        Some(n)
    } else if can_attach(first_leaf_mcode(n)) {
        Some(attached_front(n, p))
    } else {
        None
    }
}

/// `n` with `p` attached before it: to the node itself for a disjunction,
/// else before its first token.
pub open spec fn front_attached_disj(n: SnodeV, p: Seq<SnodeV>) -> Option<SnodeV> {
    if p.len() == 0 {
        Some(n)
    } else if n.wrapper.isdisj {
        if can_attach(n.wrapper.mcodekind) {
            Some(SnodeV { wrapper: WrapV { mcodekind: with_front_pluses(n.wrapper.mcodekind, p), ..n.wrapper }, ..n })
        } else {
            None
        }
    } else {
        front_attached(n, p)
    }
}

/// `n` with `p` attached after it: to the node itself for a disjunction,
/// else after its last token.
pub open spec fn back_attached_disj(n: SnodeV, p: Seq<SnodeV>) -> Option<SnodeV> {
    if p.len() == 0 {
        Some(n)
    } else if n.wrapper.isdisj {
        if can_attach(n.wrapper.mcodekind) {
            Some(SnodeV { wrapper: WrapV { mcodekind: with_back_pluses(n.wrapper.mcodekind, p), ..n.wrapper }, ..n })
        } else {
            None
        }
    } else if can_attach(last_leaf_mcode(n)) {
        Some(attached_back(n, p))
    } else {
        None
    }
}

/// The `-` tree `a` with the `+` code of the `+` tree `b` attached: `+`
/// nodes are attached before the next `-` or context node of `a` on the
/// same level, or after the last node of `a` when nothing follows them.
/// `None` where the trees do not line up (a `-` node in the `+` tree, a `+`
/// node in the `-` tree, `+` code with no context, code attached where it
/// cannot be) or the nesting exceeds `fuel`.
pub open spec fn tagplus_node(a: SnodeV, b: SnodeV, fuel: nat) -> Option<SnodeV>
    decreases fuel, a.children.len() + b.children.len() + 2,
{
    match tagplus_kids(a.children, b.children, 0, 0, Seq::empty(), fuel) {
        None => None,
        Some((cs, pend)) => if pend.len() == 0 {
            Some(SnodeV { children: cs, ..a })
        } else if cs.len() == 0 {
            None
        } else {
            match back_attached_disj(cs.last(), pend) {
                Some(l) => Some(SnodeV { children: cs.update(cs.len() - 1, l), ..a }),
                None => None,
            }
        },
    }
}

/// The children `as_` from index `i` on, with the `+` code of `bs` from
/// index `j` on attached, when `pvec` is the `+` code met and not yet
/// attached; with the `+` code still pending at the end.
pub open spec fn tagplus_kids(
    as_: Seq<SnodeV>,
    bs: Seq<SnodeV>,
    i: int,
    j: int,
    pvec: Seq<SnodeV>,
    fuel: nat,
) -> Option<(Seq<SnodeV>, Seq<SnodeV>)>
    decreases fuel, (as_.len() - i) + (bs.len() - j) + 1,
{
    if i < 0 || j < 0 || i > as_.len() || j > bs.len() {
        None
    } else if i < as_.len() && j < bs.len() {
        let ak = as_[i];
        let bk = bs[j];
        if bk.wrapper.modkind == Some(MODKIND::PLUS) {
            tagplus_kids(as_, bs, i, j + 1, pvec.push(bk), fuel)
        } else if ak.wrapper.modkind == Some(MODKIND::MINUS) {
            match front_attached(ak, pvec) {
                None => None,
                Some(ak2) => match tagplus_kids(as_, bs, i + 1, j, Seq::empty(), fuel) {
                    None => None,
                    Some((rest, pend)) => Some((seq![ak2] + rest, pend)),
                },
            }
        } else if ak.wrapper.modkind is None && bk.wrapper.modkind is None {
            if fuel == 0 {
                None
            } else {
                match front_attached_disj(ak, pvec) {
                    None => None,
                    Some(ak2) => match tagplus_node(ak2, bk, (fuel - 1) as nat) {
                        None => None,
                        Some(ak3) => match tagplus_kids(as_, bs, i + 1, j + 1, Seq::empty(), fuel) {
                            None => None,
                            Some((rest, pend)) => Some((seq![ak3] + rest, pend)),
                        },
                    },
                }
            }
        } else {
            None
        }
    } else if i >= as_.len() && j < bs.len() && bs[j].wrapper.modkind == Some(MODKIND::PLUS) {
        tagplus_kids(as_, bs, i, j + 1, pvec.push(bs[j]), fuel)
    } else {
        Some((as_.subrange(i, as_.len() as int), pvec))
    }
}

/// `n` with `p` attached before its first token, when `p` is empty or that
/// token can carry code; `false` and `n` unchanged otherwise.
fn attach_front_checked(n: &mut Snode, p: Vec<Snode>) -> (r: bool)
    ensures
        r == (front_attached(old(n)@, snodes_v(p)) is Some),
        r ==> final(n)@ == front_attached(old(n)@, snodes_v(p))->0,
        !r ==> final(n)@ == old(n)@,
{
    if p.len() == 0 {
        return true;
    }
    if !front_attachable(n) {
        return false;
    }
    attachfront(n, p);
    true
}

/// `n` with `p` attached before it (to the node itself for a disjunction).
fn attach_front_disj(n: &mut Snode, p: Vec<Snode>) -> (r: bool)
    ensures
        r == (front_attached_disj(old(n)@, snodes_v(p)) is Some),
        r ==> final(n)@ == front_attached_disj(old(n)@, snodes_v(p))->0,
        !r ==> final(n)@ == old(n)@,
{
    if p.len() == 0 {
        return true;
    }
    if n.wrapper.isdisj {
        if n.wrapper.mcodekind.is_context() || n.wrapper.mcodekind.is_minus() {
            n.wrapper.mcodekind.push_pluses_front(p);
            true
        } else {
            false
        }
    } else {
        attach_front_checked(n, p)
    }
}

/// `n` with `p` attached after it (to the node itself for a disjunction).
fn attach_back_disj(n: &mut Snode, p: Vec<Snode>) -> (r: bool)
    ensures
        r == (back_attached_disj(old(n)@, snodes_v(p)) is Some),
        r ==> final(n)@ == back_attached_disj(old(n)@, snodes_v(p))->0,
        !r ==> final(n)@ == old(n)@,
{
    if p.len() == 0 {
        return true;
    }
    if n.wrapper.isdisj {
        if n.wrapper.mcodekind.is_context() || n.wrapper.mcodekind.is_minus() {
            n.wrapper.mcodekind.push_pluses_back(p);
            true
        } else {
            false
        }
    } else if back_attachable(n) {
        attachback(n, p);
        true
    } else {
        false
    }
}

/// The two trees of a rule: the code it matches (with `-` lines) and the
/// code it produces (with `+` lines).
pub struct Patch {
    pub minus: Snode,
    pub plus: Snode,
}

impl Patch {
    /// Marks each node of `node` that names a metavariable of `metavars`.
    pub fn setmetavars_aux(node: &mut Snode, metavars: &Vec<MetaVar>)
        ensures
            final(node)@ == metavars_set(old(node)@, mvars_v(metavars@)),
        decreases *old(node),
    {
        let ghost ms = mvars_v(metavars@);
        let ghost n0 = node@;
        if node.kind == Tag::PathExpr || node.kind == Tag::IdentPat || node.kind == Tag::NameRef {
            let name = chars_of(node.getstring().as_str());
            proof {
                assert(name@ == snode_string(n0));
            }
            match find_named(metavars, &name) {
                Some(k) => {
                    proof {
                        lemma_first_named_bounds(ms, name@, 0);
                        assert(ms[k as int] == metavars@[k as int]@);
                    }
                    let m = metavars[k].copy();
                    node.wrapper.metavar = m;
                    proof {
                        assert(node@.wrapper == (WrapV { metavar: ms[k as int], ..n0.wrapper }));
                        assert(first_named(ms, snode_string(n0), 0) == Some(k as int));
                        assert(names_metavar(n0.kind));
                        assert(node@.children == n0.children);
                        assert(node@ == node_metavar_set(n0, ms));
                    }
                },
                None => {},
            }
        }
        proof {
            assert(node@ == node_metavar_set(n0, ms));
        }
        let mut rest: Vec<Snode> = Vec::new();
        std::mem::swap(&mut rest, &mut node.children);
        let ghost r0 = rest@;
        proof {
            assert(r0.len() == rest.len());
        }
        let mut done: Vec<Snode> = Vec::new();
        let mut i: usize = 0;
        proof {
            assert(rest@ =~= r0.subrange(0, r0.len() as int));
            assert(snodes_v(done) =~= Seq::<SnodeV>::empty());
            assert(r0 == old(node).children@);
        }
        while rest.len() > 0
            invariant
                r0 == old(node).children@,
                n0 == old(node)@,
                ms == mvars_v(metavars@),
                i <= r0.len(),
                r0.len() <= usize::MAX,
                rest@ == r0.subrange(i as int, r0.len() as int),
                snodes_v(done) == metavars_set_seq(n0.children, ms, i as int),
                n0.children.len() == r0.len(),
            decreases rest@.len(),
        {
            let mut c = rest.remove(0);
            proof {
                assert(c == r0[i as int]);
                assert(n0.children[i as int] == c@);
                assert(decreases_to!(*old(node) => r0[i as int]));
            }
            Self::setmetavars_aux(&mut c, metavars);
            let ghost o = snodes_v(done);
            done.push(c);
            proof {
                assert(snodes_v(done) =~= o.push(c@));
                assert(rest@ =~= r0.subrange(i + 1, r0.len() as int));
            }
            i = i + 1;
        }
        node.children = done;
    }

    /// Marks the nodes that name a metavariable, in both trees.
    pub fn setmetavars(&mut self, metavars: &Vec<MetaVar>)
        ensures
            final(self).plus@ == metavars_set(old(self).plus@, mvars_v(metavars@)),
            final(self).minus@ == metavars_set(old(self).minus@, mvars_v(metavars@)),
    {
        Patch::setmetavars_aux(&mut self.plus, metavars);
        Patch::setmetavars_aux(&mut self.minus, metavars);
    }

    /// Spreads the modifiers of lines over `node`, in preorder from state
    /// `st`; the state after the tree.
    fn setmods_aux(node: &mut Snode, st: ModState) -> (r: ModState)
        ensures
            (final(node)@, r) == mods_set(old(node)@, st),
        decreases *old(node),
    {
        let ghost n0 = node@;
        let start = node.wrapper.info.pos_info.line_start;
        let end = node.wrapper.info.pos_info.line_end;
        let st1: ModState = match node.wrapper.modkind {
            Some(mk) => {
                if start != end {
                    node.wrapper.setmod(None);
                }
                (start, Some(mk))
            },
            None => {
                if st.0 == 0 {
                    (0, None)
                } else if start == st.0 && start == end {
                    node.wrapper.setmod(st.1);
                    st
                } else if start == st.0 && start != end {
                    st
                } else {
                    (0, None)
                }
            },
        };
        proof {
            assert((node@, st1) == tagmods(n0, st));
        }
        let ghost n1 = node@;
        let mut rest: Vec<Snode> = Vec::new();
        std::mem::swap(&mut rest, &mut node.children);
        let ghost r0 = rest@;
        proof {
            assert(r0.len() == rest.len());
        }
        let mut done: Vec<Snode> = Vec::new();
        let mut i: usize = 0;
        let mut cur = st1;
        proof {
            assert(rest@ =~= r0.subrange(0, r0.len() as int));
            assert(snodes_v(done) =~= Seq::<SnodeV>::empty());
        }
        while rest.len() > 0
            invariant
                r0 == old(node).children@,
                n0 == old(node)@,
                i <= r0.len(),
                r0.len() <= usize::MAX,
                rest@ == r0.subrange(i as int, r0.len() as int),
                (snodes_v(done), cur) == mods_set_seq(n0.children, st1, i as int),
                n0.children.len() == r0.len(),
            decreases rest@.len(),
        {
            let mut c = rest.remove(0);
            proof {
                assert(c == r0[i as int]);
                assert(n0.children[i as int] == c@);
                assert(decreases_to!(*old(node) => r0[i as int]));
            }
            cur = Self::setmods_aux(&mut c, cur);
            let ghost o = snodes_v(done);
            done.push(c);
            proof {
                assert(snodes_v(done) =~= o.push(c@));
                assert(rest@ =~= r0.subrange(i + 1, r0.len() as int));
            }
            i = i + 1;
        }
        node.children = done;
        proof {
            assert(node@ == (SnodeV { children: snodes_v(done), ..n1 }));
        }
        cur
    }

    /// Spreads the modifier of each modified line over the nodes on it, in
    /// both trees.
    pub fn setmods(&mut self)
        ensures
            final(self).plus@ == mods_set(old(self).plus@, (0, None)).0,
            final(self).minus@ == mods_set(old(self).minus@, (0, None)).0,
    {
        let _ = Patch::setmods_aux(&mut self.plus, (0, None));
        let _ = Patch::setmods_aux(&mut self.minus, (0, None));
    }

    /// Attaches the `+` code of `node2` to `node1`; `false` where the trees
    /// do not line up.
    pub fn tagplus_aux(node1: &mut Snode, node2: &Snode, fuel: usize) -> (r: bool)
        ensures
            r == (tagplus_node(old(node1)@, node2@, fuel as nat) is Some),
            r ==> final(node1)@ == tagplus_node(old(node1)@, node2@, fuel as nat)->0,
        decreases fuel,
    {
        let ghost a0 = node1@;
        let ghost bs = node2@.children;
        let mut rest: Vec<Snode> = Vec::new();
        std::mem::swap(&mut rest, &mut node1.children);
        let ghost r0 = rest@;
        let ghost as0 = a0.children;
        proof {
            assert(r0.len() == rest.len());
        }
        let mut done: Vec<Snode> = Vec::new();
        let mut pvec: Vec<Snode> = Vec::new();
        let mut i: usize = 0;
        let mut j: usize = 0;
        proof {
            assert(rest@ =~= r0.subrange(0, r0.len() as int));
            assert(snodes_v(done) =~= Seq::<SnodeV>::empty());
            assert(snodes_v(pvec) =~= Seq::<SnodeV>::empty());
            assert(bs == snodes_v(node2.children));
            assert(as0 == snodes_v(rest));
        }
        loop
            invariant_except_break
                r0 == old(node1).children@,
                as0 == snodes_v(old(node1).children),
                bs == snodes_v(node2.children),
                i <= r0.len(),
                j <= bs.len(),
                r0.len() <= usize::MAX,
                rest@ == r0.subrange(i as int, r0.len() as int),
                tagplus_kids(as0, bs, 0, 0, Seq::empty(), fuel as nat) == match tagplus_kids(
                    as0,
                    bs,
                    i as int,
                    j as int,
                    snodes_v(pvec),
                    fuel as nat,
                ) {
                    None => None,
                    Some((rr, pp)) => Some((snodes_v(done) + rr, pp)),
                },
            ensures
                tagplus_kids(as0, bs, 0, 0, Seq::empty(), fuel as nat) == Some(
                    (snodes_v(done), snodes_v(pvec)),
                ),
            decreases (r0.len() - i) + (bs.len() - j),
        {
            if rest.len() > 0 && j < node2.children.len() {
                proof {
                    assert(as0[i as int] == r0[i as int]@);
                    assert(bs[j as int] == node2.children@[j as int]@);
                }
                let bk = &node2.children[j];
                if bk.wrapper.modkind == Some(MODKIND::PLUS) {
                    let ghost pv = snodes_v(pvec);
                    pvec.push(bk.copy());
                    proof {
                        assert(snodes_v(pvec) =~= pv.push(bs[j as int]));
                    }
                    j = j + 1;
                } else if rest[0].wrapper.modkind == Some(MODKIND::MINUS) {
                    let mut ak = rest.remove(0);
                    let ghost pv = snodes_v(pvec);
                    let mut p: Vec<Snode> = Vec::new();
                    std::mem::swap(&mut p, &mut pvec);
                    if !attach_front_checked(&mut ak, p) {
                        return false;
                    }
                    let ghost o = snodes_v(done);
                    done.push(ak);
                    proof {
                        assert(snodes_v(pvec) =~= Seq::<SnodeV>::empty());
                        assert(snodes_v(done) =~= o.push(ak@));
                        assert(rest@ =~= r0.subrange(i + 1, r0.len() as int));
                        match tagplus_kids(as0, bs, i + 1, j as int, Seq::empty(), fuel as nat) {
                            None => {},
                            Some((rr, pp)) => {
                                assert(o + (seq![ak@] + rr) =~= snodes_v(done) + rr);
                            },
                        }
                    }
                    i = i + 1;
                } else if rest[0].wrapper.modkind.is_none() && bk.wrapper.modkind.is_none() {
                    if fuel == 0 {
                        return false;
                    }
                    let mut ak = rest.remove(0);
                    let mut p: Vec<Snode> = Vec::new();
                    std::mem::swap(&mut p, &mut pvec);
                    if !attach_front_disj(&mut ak, p) {
                        return false;
                    }
                    if !Patch::tagplus_aux(&mut ak, bk, fuel - 1) {
                        return false;
                    }
                    let ghost o = snodes_v(done);
                    done.push(ak);
                    proof {
                        assert(snodes_v(pvec) =~= Seq::<SnodeV>::empty());
                        assert(snodes_v(done) =~= o.push(ak@));
                        assert(rest@ =~= r0.subrange(i + 1, r0.len() as int));
                        match tagplus_kids(as0, bs, i + 1, j + 1, Seq::empty(), fuel as nat) {
                            None => {},
                            Some((rr, pp)) => {
                                assert(o + (seq![ak@] + rr) =~= snodes_v(done) + rr);
                            },
                        }
                    }
                    i = i + 1;
                    j = j + 1;
                } else {
                    return false;
                }
            } else if rest.len() == 0 && j < node2.children.len() && node2.children[j].wrapper.modkind == Some(
                MODKIND::PLUS,
            ) {
                proof {
                    assert(bs[j as int] == node2.children@[j as int]@);
                }
                let ghost pv = snodes_v(pvec);
                pvec.push(node2.children[j].copy());
                proof {
                    assert(snodes_v(pvec) =~= pv.push(bs[j as int]));
                }
                j = j + 1;
            } else {
                let ghost o = snodes_v(done);
                let ghost rv = snodes_v(rest);
                done.append(&mut rest);
                proof {
                    assert(rv =~= as0.subrange(i as int, as0.len() as int));
                    assert(snodes_v(done) =~= o + rv);
                }
                break;
            }
        }
        let ghost cs = snodes_v(done);
        if pvec.len() != 0 {
            let len = done.len();
            if len == 0 {
                return false;
            }
            match done.pop() {
                Some(mut last) => {
                    proof {
                        assert(cs.last() == last@);
                    }
                    if !attach_back_disj(&mut last, pvec) {
                        return false;
                    }
                    done.push(last);
                    proof {
                        assert(snodes_v(done) =~= cs.update(cs.len() - 1, last@));
                    }
                },
                None => {
                    return false;
                },
            }
        }
        node1.children = done;
        true
    }

    /// Attaches the `+` code of the `+` tree to the `-` tree; `false` where
    /// the trees do not line up.
    pub fn tagplus(&mut self) -> (r: bool)
        ensures
            r == (tagplus_node(old(self).minus@, old(self).plus@, usize::MAX as nat) is Some),
            r ==> final(self).minus@ == tagplus_node(old(self).minus@, old(self).plus@, usize::MAX as nat)->0,
            final(self).plus@ == old(self).plus@,
    {
        Patch::tagplus_aux(&mut self.minus, &self.plus, usize::MAX)
    }
}

// ---------------------------------------------------------------------
// Unused metavariables

/// `bs` without the first metavariable named like the one of node `n`.
pub open spec fn drop_named(bs: Seq<MetaVarV>, n: SnodeV) -> Seq<MetaVarV> {
    match n.wrapper.metavar {
        MetaVarV::NoMeta => bs,
        m => match first_named(bs, var_name(m), 0) {
            Some(k) => bs.remove(k),
            None => bs,
        },
    }
}

/// `bs` without the metavariables that the nodes of `nodes` use, each use
/// taking one off.
pub open spec fn drop_used(bs: Seq<MetaVarV>, nodes: Seq<SnodeV>) -> Seq<MetaVarV>
    decreases nodes.len(),
{
    if nodes.len() == 0 {
        bs
    } else {
        drop_named(drop_used(bs, nodes.drop_last()), nodes.last())
    }
}

proof fn lemma_drop_used_concat(bs: Seq<MetaVarV>, x: Seq<SnodeV>, y: Seq<SnodeV>)
    ensures
        drop_used(bs, x + y) == drop_used(drop_used(bs, x), y),
    decreases y.len(),
{
    if y.len() == 0 {
        assert(x + y =~= x);
    } else {
        lemma_drop_used_concat(bs, x, y.drop_last());
        assert((x + y).drop_last() =~= x + y.drop_last());
        assert((x + y).last() == y.last());
    }
}

/// Takes off `acc` the metavariables that the nodes of `node` use.
fn drop_used_in(node: &Snode, acc: &mut Vec<MetaVar>)
    ensures
        mvars_v(final(acc)@) == drop_used(mvars_v(old(acc)@), preorder(node@)),
    decreases node,
{
    let ghost b0 = mvars_v(acc@);
    let ghost n = node@;
    if !node.wrapper.metavar.isnotmeta() {
        let name = name_chars(&node.wrapper.metavar);
        match find_named(acc, &name) {
            Some(k) => {
                proof {
                    lemma_first_named_bounds(b0, name@, 0);
                }
                let _ = acc.remove(k);
                proof {
                    assert(mvars_v(acc@) =~= b0.remove(k as int));
                }
            },
            None => {},
        }
    }
    proof {
        assert(seq![n].drop_last() =~= Seq::<SnodeV>::empty());
        assert(drop_used(b0, Seq::<SnodeV>::empty()) == b0);
        assert(drop_used(b0, seq![n]) == drop_named(b0, n));
        assert(mvars_v(acc@) == drop_named(b0, n));
        assert(mvars_v(acc@) == drop_used(b0, seq![n]));
        assert(preorder_seq(n.children, 0) =~= Seq::<SnodeV>::empty());
        assert(seq![n] + preorder_seq(n.children, 0) =~= seq![n]);
    }
    let mut i: usize = 0;
    while i < node.children.len()
        invariant
            n == node@,
            i <= node.children@.len(),
            n.children.len() == node.children@.len(),
            mvars_v(acc@) == drop_used(b0, seq![n] + preorder_seq(n.children, i as int)),
        decreases node.children@.len() - i,
    {
        proof {
            assert(decreases_to!(node => node.children@[i as int]));
            assert(n.children[i as int] == node.children@[i as int]@);
        }
        let ghost before = mvars_v(acc@);
        drop_used_in(&node.children[i], acc);
        proof {
            lemma_drop_used_concat(b0, seq![n] + preorder_seq(n.children, i as int), preorder(n.children[i as int]));
            assert(seq![n] + preorder_seq(n.children, i + 1) =~= (seq![n] + preorder_seq(n.children, i as int))
                + preorder(n.children[i as int]));
        }
        i = i + 1;
    }
}

impl Patch {
    /// The metavariables of `bindings` that the two trees of the patch do not
    /// use: each use takes off the first one with that name.
    pub fn getunusedmetavars(&self, bindings: Vec<MetaVar>) -> (r: Vec<MetaVar>)
        ensures
            mvars_v(r@) == drop_used(drop_used(mvars_v(bindings@), preorder(self.minus@)), preorder(self.plus@)),
    {
        let mut bindings = bindings;
        drop_used_in(&self.minus, &mut bindings);
        drop_used_in(&self.plus, &mut bindings);
        bindings
    }
}

// ---------------------------------------------------------------------
// Rules

/// A rule of a semantic patch.
pub struct Rule {
    pub name: Name,
    pub dependson: Dep,
    pub metavars: Vec<MetaVar>,
    /// Declared metavariables that the rule's code does not use.
    pub unusedmetavars: Vec<MetaVar>,
    pub patch: Patch,
    /// The metavariables that the rule inherits from rules before it.
    pub freevars: Vec<MetaVar>,
    /// The inherited metavariables that rules after this one use; no name
    /// occurs twice.
    pub usedafter: Vec<MetavarName>,
}

/// Model of a rule.
pub ghost struct RuleV {
    pub name: Seq<char>,
    pub dependson: DepV,
    pub metavars: Seq<MetaVarV>,
    pub unusedmetavars: Seq<MetaVarV>,
    pub minus: SnodeV,
    pub plus: SnodeV,
    pub freevars: Seq<MetaVarV>,
    pub usedafter: Seq<MetavarNameV>,
}

pub open spec fn rule_v(r: Rule) -> RuleV {
    RuleV {
        name: r.name@,
        dependson: r.dependson@,
        metavars: mvars_v(r.metavars@),
        unusedmetavars: mvars_v(r.unusedmetavars@),
        minus: r.patch.minus@,
        plus: r.patch.plus@,
        freevars: mvars_v(r.freevars@),
        usedafter: Seq::new(r.usedafter@.len(), |i: int| r.usedafter@[i]@),
    }
}

impl View for Rule {
    type V = RuleV;

    open spec fn view(&self) -> RuleV {
        rule_v(*self)
    }
}

/// The models of a list of rules.
pub open spec fn rules_v(rs: Seq<Rule>) -> Seq<RuleV> {
    Seq::new(rs.len(), |i: int| rs[i]@)
}

/// The names of a list of rules.
pub open spec fn rule_names(rs: Seq<RuleV>) -> Seq<Seq<char>> {
    Seq::new(rs.len(), |i: int| rs[i].name)
}

// ---------------------------------------------------------------------
// Errors in a semantic patch

/// A syntax error `msg` at line `lino`.
pub open spec fn err_at(lino: nat, msg: Seq<char>) -> Seq<char> {
    msg + " at line: "@ + decimal(lino)
}

/// A syntax error `msg` about `name` at line `lino`.
pub open spec fn err_named_at(lino: nat, msg: Seq<char>, name: Seq<char>) -> Seq<char> {
    name + ": "@ + msg + " at line: "@ + decimal(lino)
}

fn error_at(lino: usize, msg: &str) -> (r: String)
    ensures
        r@ == err_at(lino as nat, msg@),
{
    let mut v = chars_of(msg);
    push_str(&mut v, " at line: ");
    push_all(&mut v, &decimal_text(lino));
    string_of(&v)
}

fn error_named_at(lino: usize, msg: &Vec<char>, name: &Vec<char>) -> (r: String)
    ensures
        r@ == err_named_at(lino as nat, msg@, name@),
{
    let mut v = name.clone();
    push_str(&mut v, ": ");
    push_all(&mut v, msg);
    push_str(&mut v, " at line: ");
    push_all(&mut v, &decimal_text(lino));
    string_of(&v)
}

// ---------------------------------------------------------------------
// Dependencies

/// Model of a dependency.
pub ghost enum DepV {
    NoDep,
    FailDep,
    Dep(Seq<char>),
    AndDep(Box<DepV>, Box<DepV>),
    OrDep(Box<DepV>, Box<DepV>),
    AntiDep(Box<DepV>),
}

pub open spec fn dep_v(d: Dep) -> DepV
    decreases d,
{
    match d {
        Dep::NoDep => DepV::NoDep,
        Dep::FailDep => DepV::FailDep,
        Dep::Dep(n) => DepV::Dep(n@),
        Dep::AndDep(b) => DepV::AndDep(Box::new(dep_v(b.0)), Box::new(dep_v(b.1))),
        Dep::OrDep(b) => DepV::OrDep(Box::new(dep_v(b.0)), Box::new(dep_v(b.1))),
        Dep::AntiDep(b) => DepV::AntiDep(Box::new(dep_v(*b))),
    }
}

impl View for Dep {
    type V = DepV;

    open spec fn view(&self) -> DepV {
        dep_v(*self)
    }
}

/// The dependency that the expression `n` of a `depends on` clause states,
/// given the names of the rules before.
pub open spec fn dep_of(names: Seq<Seq<char>>, lino: nat, n: SnodeV) -> Result<DepV, Seq<char>>
    decreases n,
{
    if n.kind == Tag::PrefixExpr {
        if n.children.len() >= 2 && n.children[0].kind == Tag::Bang {
            match dep_of(names, lino, n.children[1]) {
                Ok(d) => Ok(DepV::AntiDep(Box::new(d))),
                Err(e) => Err(e),
            }
        } else {
            Err(err_at(lino, "Dependance must be a boolean expression"@))
        }
    } else if n.kind == Tag::BinExpr {
        if n.children.len() == 3 && (n.children[1].kind == Tag::Amp2 || n.children[1].kind == Tag::Pipe2) {
            match dep_of(names, lino, n.children[0]) {
                Err(e) => Err(e),
                Ok(l) => match dep_of(names, lino, n.children[2]) {
                    Err(e) => Err(e),
                    Ok(r) => if n.children[1].kind == Tag::Amp2 {
                        Ok(DepV::AndDep(Box::new(l), Box::new(r)))
                    } else {
                        Ok(DepV::OrDep(Box::new(l), Box::new(r)))
                    },
                },
            }
        } else {
            Err(err_at(lino, "Dependance must be a boolean expression"@))
        }
    } else if n.kind == Tag::PathExpr {
        if names.contains(snode_string(n)) {
            Ok(DepV::Dep(snode_string(n)))
        } else {
            Err(err_named_at(lino, "no such Rule"@, snode_string(n)))
        }
    } else if n.kind == Tag::ParenExpr && n.children.len() >= 2 {
        dep_of(names, lino, n.children[1])
    } else {
        Err(err_named_at(lino, "malformed Rule"@, snode_string(n)))
    }
}

/// Whether a rule named `name` is among `rules`.
fn has_rule(rules: &Vec<Rule>, name: &Vec<char>) -> (r: bool)
    ensures
        r == rule_names(rules_v(rules@)).contains(name@),
{
    let mut i: usize = 0;
    while i < rules.len()
        invariant
            i <= rules@.len(),
            forall|j: int| 0 <= j < i ==> rules@[j].name@ != name@,
        decreases rules@.len() - i,
    {
        if chars_eq(&chars_of(rules[i].name.as_str()), name) {
            proof {
                assert(rule_names(rules_v(rules@))[i as int] == name@);
            }
            return true;
        }
        i = i + 1;
    }
    proof {
        if rule_names(rules_v(rules@)).contains(name@) {
            let k = choose|k: int| 0 <= k < rule_names(rules_v(rules@)).len() && rule_names(rules_v(rules@))[k] == name@;
            assert(rules@[k].name@ == name@);
        }
    }
    false
}

/// Turns the expression of a `depends on` clause into a dependency.
pub fn getdep(rules: &Vec<Rule>, lino: usize, dep: &Snode) -> (r: Result<Dep, String>)
    ensures
        match dep_of(rule_names(rules_v(rules@)), lino as nat, dep@) {
            Ok(d) => r matches Ok(x) && x@ == d,
            Err(e) => r matches Err(m) && m@ == e,
        },
    decreases dep,
{
    let n = dep;
    if n.kind == Tag::PrefixExpr {
        if n.children.len() >= 2 && n.children[0].kind == Tag::Bang {
            proof {
                assert(n@.children[0] == n.children@[0]@);
                assert(n@.children[1] == n.children@[1]@);
            }
            match getdep(rules, lino, &n.children[1]) {
                Ok(d) => Ok(Dep::AntiDep(Box::new(d))),
                Err(e) => Err(e),
            }
        } else {
            proof {
                if n.children.len() >= 2 {
                    assert(n@.children[0] == n.children@[0]@);
                }
            }
            Err(error_at(lino, "Dependance must be a boolean expression"))
        }
    } else if n.kind == Tag::BinExpr {
        if n.children.len() == 3 && (n.children[1].kind == Tag::Amp2 || n.children[1].kind == Tag::Pipe2) {
            proof {
                assert(n@.children[0] == n.children@[0]@);
                assert(n@.children[1] == n.children@[1]@);
                assert(n@.children[2] == n.children@[2]@);
            }
            let l = match getdep(rules, lino, &n.children[0]) {
                Ok(l) => l,
                Err(e) => {
                    return Err(e);
                },
            };
            let r = match getdep(rules, lino, &n.children[2]) {
                Ok(r) => r,
                Err(e) => {
                    return Err(e);
                },
            };
            if n.children[1].kind == Tag::Amp2 {
                Ok(Dep::AndDep(Box::new((l, r))))
            } else {
                Ok(Dep::OrDep(Box::new((l, r))))
            }
        } else {
            proof {
                if n.children.len() == 3 {
                    assert(n@.children[1] == n.children@[1]@);
                }
            }
            Err(error_at(lino, "Dependance must be a boolean expression"))
        }
    } else if n.kind == Tag::PathExpr {
        let name = chars_of(n.getstring().as_str());
        if has_rule(rules, &name) {
            Ok(Dep::Dep(string_of(&name)))
        } else {
            Err(error_named_at(lino, &chars_of("no such Rule"), &name))
        }
    } else if n.kind == Tag::ParenExpr && n.children.len() >= 2 {
        proof {
            assert(n@.children[1] == n.children@[1]@);
        }
        getdep(rules, lino, &n.children[1])
    } else {
        let name = chars_of(n.getstring().as_str());
        Err(error_named_at(lino, &chars_of("malformed Rule"), &name))
    }
}

// ---------------------------------------------------------------------
// Metavariable declarations

/// The metavariable that a declaration of type `ty` makes for `name` in rule
/// `rulename`, for the types that can be declared.
pub open spec fn declared(rulename: Seq<char>, name: Seq<char>, ty: Seq<char>) -> Option<MetaVarV> {
    let mi = (MetavarNameV { rulename, varname: name }, KeepBinding::UNITARY, false);
    if ty == "expression"@ {
        Some(MetaVarV::Exp(mi))
    } else if ty == "identifier"@ {
        Some(MetaVarV::Id(mi))
    } else if ty == "type"@ {
        Some(MetaVarV::Type(mi))
    } else {
        None
    }
}

/// A metavariable as inherited by a later rule.
pub open spec fn inherited(m: MetaVarV) -> MetaVarV {
    with_minfo(m, (minfo_of(m).0, minfo_of(m).1, true))
}

/// The index of the first rule of `rs` from `i` on named `name`.
pub open spec fn find_rule(rs: Seq<RuleV>, name: Seq<char>, i: int) -> Option<int>
    decreases rs.len() - i,
{
    if i < 0 || i >= rs.len() {
        None
    } else if rs[i].name == name {
        Some(i)
    } else {
        find_rule(rs, name, i + 1)
    }
}

proof fn lemma_find_rule_bounds(rs: Seq<RuleV>, name: Seq<char>, i: int)
    ensures
        find_rule(rs, name, i) matches Some(k) ==> i <= k < rs.len() && rs[k].name == name,
    decreases rs.len() - i,
{
    if 0 <= i < rs.len() && rs[i].name != name {
        lemma_find_rule_bounds(rs, name, i + 1);
    }
}

/// The metavariable declared as `varname` of type `ty` in rule `rulename`:
/// a plain name declares a new one; `rule.name` inherits metavariable
/// `name` of an earlier rule, which must use it.
pub open spec fn spec_makemetavar(
    rs: Seq<RuleV>,
    rulename: Seq<char>,
    varname: Seq<char>,
    ty: Seq<char>,
    lino: nat,
) -> Result<MetaVarV, Seq<char>> {
    let parts = spec_split(varname, seq!['.']);
    if parts.len() == 1 {
        match declared(rulename, varname, ty) {
            Some(m) => Ok(m),
            None => Err(err_named_at(lino, "Unexpected Type"@, ty)),
        }
    } else if parts.len() == 2 {
        match find_rule(rs, parts[0], 0) {
            None => Err(err_named_at(lino, "no such rule"@, parts[0])),
            Some(k) => match first_named(rs[k].metavars, parts[1], 0) {
                None => Err(err_named_at(lino, "No such metavariable in rule "@ + rs[k].name, varname)),
                Some(m) => if first_named(rs[k].unusedmetavars, parts[1], 0) is Some {
                    Err(
                        err_named_at(
                            lino,
                            "Metavariable "@ + parts[1] + " is unused in rule "@ + rs[k].name,
                            varname,
                        ),
                    )
                } else {
                    Ok(inherited(rs[k].metavars[m]))
                },
            },
        }
    } else {
        Err(err_named_at(lino, "Invalid meta-variable name"@, varname))
    }
}

proof fn lemma_split_without_separator(s: Seq<char>, seps: Seq<char>)
    requires
        forall|i: int| 0 <= i < s.len() ==> !seps.contains(#[trigger] s[i]),
    ensures
        split_state(s, seps) == (Seq::<Seq<char>>::empty(), s),
    decreases s.len(),
{
    if s.len() > 0 {
        assert forall|i: int| 0 <= i < s.drop_last().len() implies !seps.contains(#[trigger] s.drop_last()[i]) by {
            assert(s.drop_last()[i] == s[i]);
        }
        lemma_split_without_separator(s.drop_last(), seps);
        assert(!seps.contains(s[s.len() - 1]));
        assert(s.drop_last().push(s.last()) =~= s);
    }
}

/// A metavariable declared with a plain name (no `.`) is a new metavariable
/// of the rule, of the kind that the type word names: `expression` makes an
/// expression metavariable, `identifier` an identifier metavariable and
/// `type` a type metavariable; it is not inherited and needs no binding
/// kept.
pub proof fn law_declared_kinds(rs: Seq<RuleV>, rulename: Seq<char>, varname: Seq<char>, lino: nat)
    requires
        !varname.contains('.'),
    ensures
        spec_makemetavar(rs, rulename, varname, "expression"@, lino) == Ok::<MetaVarV, Seq<char>>(
            MetaVarV::Exp((MetavarNameV { rulename, varname }, KeepBinding::UNITARY, false)),
        ),
        spec_makemetavar(rs, rulename, varname, "identifier"@, lino) == Ok::<MetaVarV, Seq<char>>(
            MetaVarV::Id((MetavarNameV { rulename, varname }, KeepBinding::UNITARY, false)),
        ),
        spec_makemetavar(rs, rulename, varname, "type"@, lino) == Ok::<MetaVarV, Seq<char>>(
            MetaVarV::Type((MetavarNameV { rulename, varname }, KeepBinding::UNITARY, false)),
        ),
{
    reveal_strlit("expression");
    reveal_strlit("identifier");
    reveal_strlit("type");
    assert forall|i: int| 0 <= i < varname.len() implies !seq!['.'].contains(#[trigger] varname[i]) by {
        if seq!['.'].contains(varname[i]) {
            assert(seq!['.'][0] == '.');
            assert(varname[i] == '.');
            assert(varname.contains('.'));
        }
    }
    lemma_split_without_separator(varname, seq!['.']);
    assert(spec_split(varname, seq!['.']).len() == 1);
    assert("identifier"@[0] != "expression"@[0]);
    assert("identifier"@ != "expression"@);
    assert("type"@ != "expression"@);
    assert("type"@ != "identifier"@);
}

fn find_rule_index(rules: &Vec<Rule>, name: &Vec<char>) -> (r: Option<usize>)
    ensures
        match find_rule(rules_v(rules@), name@, 0) {
            Some(k) => r matches Some(x) && x as int == k,
            None => r is None,
        },
{
    let mut i: usize = 0;
    while i < rules.len()
        invariant
            i <= rules@.len(),
            find_rule(rules_v(rules@), name@, 0) == find_rule(rules_v(rules@), name@, i as int),
        decreases rules@.len() - i,
    {
        if chars_eq(&chars_of(rules[i].name.as_str()), name) {
            return Some(i);
        }
        i = i + 1;
    }
    None
}

/// Builds the metavariable declared as `varname` of type `metatype` in rule
/// `rulename`.
fn makemetavar(
    rules: &Vec<Rule>,
    rulename: &Vec<char>,
    varname: &Vec<char>,
    metatype: &Vec<char>,
    lino: usize,
) -> (r: Result<MetaVar, String>)
    ensures
        match spec_makemetavar(rules_v(rules@), rulename@, varname@, metatype@, lino as nat) {
            Ok(m) => r matches Ok(x) && x@ == m,
            Err(e) => r matches Err(x) && x@ == e,
        },
{
    let parts = split_at(varname, '.');
    if parts.len() == 1 {
        let mi = (
            MetavarName { rulename: string_of(rulename), varname: string_of(varname) },
            KeepBinding::UNITARY,
            false,
        );
        if chars_eq_str(metatype, "expression") {
            Ok(MetaVar::Exp(mi))
        } else if chars_eq_str(metatype, "identifier") {
            Ok(MetaVar::Id(mi))
        } else if chars_eq_str(metatype, "type") {
            Ok(MetaVar::Type(mi))
        } else {
            Err(error_named_at(lino, &chars_of("Unexpected Type"), metatype))
        }
    } else if parts.len() == 2 {
        match find_rule_index(rules, &parts[0]) {
            None => Err(error_named_at(lino, &chars_of("no such rule"), &parts[0])),
            Some(k) => {
                proof {
                    lemma_find_rule_bounds(rules_v(rules@), parts@[0]@, 0);
                }
                let rule = &rules[k];
                match find_named(&rule.metavars, &parts[1]) {
                    None => {
                        let mut msg = chars_of("No such metavariable in rule ");
                        push_str(&mut msg, rule.name.as_str());
                        Err(error_named_at(lino, &msg, varname))
                    },
                    Some(m) => {
                        proof {
                            lemma_first_named_bounds(mvars_v(rule.metavars@), parts@[1]@, 0);
                        }
                        if find_named(&rule.unusedmetavars, &parts[1]).is_some() {
                            let mut msg = chars_of("Metavariable ");
                            push_all(&mut msg, &parts[1]);
                            push_str(&mut msg, " is unused in rule ");
                            push_str(&mut msg, rule.name.as_str());
                            Err(error_named_at(lino, &msg, varname))
                        } else {
                            proof {
                                assert(mvars_v(rule.metavars@)[m as int] == rule.metavars@[m as int]@);
                            }
                            Ok(rule.metavars[m].makeinherited())
                        }
                    },
                }
            },
        }
    } else {
        Err(error_named_at(lino, &chars_of("Invalid meta-variable name"), varname))
    }
}

/// The metavariables declared by the tokens `toks` of a declaration line
/// from index `j` on, added to `ms`; the line is line `lineno` of the file.
pub open spec fn decl_vars(
    rs: Seq<RuleV>,
    ms: Seq<MetaVarV>,
    toks: Seq<Seq<char>>,
    j: int,
    rulename: Seq<char>,
    ty: Seq<char>,
    lino: nat,
    lineno: nat,
) -> Result<Seq<MetaVarV>, Seq<char>>
    decreases toks.len() - j,
{
    if j < 1 || j >= toks.len() {
        Ok(ms)
    } else {
        let v = spec_trim(toks[j]);
        if v.len() == 0 {
            decl_vars(rs, ms, toks, j + 1, rulename, ty, lino, lineno)
        } else if first_named(ms, v, 0) is Some {
            Err(err_at(lineno, "Redefining "@ + ty + " metavariable "@ + v))
        } else {
            match spec_makemetavar(rs, rulename, v, ty, lino) {
                Err(e) => Err(e),
                Ok(m) => decl_vars(rs, ms.push(m), toks, j + 1, rulename, ty, lino, lineno),
            }
        }
    }
}

/// The metavariables declared by the first `k` lines of a declaration
/// block, and the number of those lines that are not blank.
pub open spec fn decl_lines(
    rs: Seq<RuleV>,
    block: Seq<Seq<char>>,
    rulename: Seq<char>,
    lino: nat,
    k: int,
) -> Result<(Seq<MetaVarV>, nat), Seq<char>>
    decreases k,
{
    if k <= 0 || k > block.len() {
        Ok((Seq::empty(), 0))
    } else {
        match decl_lines(rs, block, rulename, lino, k - 1) {
            Err(e) => Err(e),
            Ok((ms, blanks)) => {
                let line = spec_trim(block[k - 1]);
                if line.len() == 0 {
                    Ok((ms, blanks))
                } else {
                    let toks = spec_split(line, seq![',', ' ', ';']);
                    match decl_vars(rs, ms, toks, 1, rulename, spec_trim(toks[0]), lino, (k + lino) as nat) {
                        Err(e) => Err(e),
                        Ok(ms2) => Ok((ms2, blanks + 1)),
                    }
                }
            },
        }
    }
}

proof fn lemma_decl_lines_err_stays(
    rs: Seq<RuleV>,
    block: Seq<Seq<char>>,
    rulename: Seq<char>,
    lino: nat,
    k: int,
    n: int,
)
    requires
        0 <= k <= n <= block.len(),
        decl_lines(rs, block, rulename, lino, k) is Err,
    ensures
        decl_lines(rs, block, rulename, lino, n) == decl_lines(rs, block, rulename, lino, k),
    decreases n - k,
{
    if k < n {
        lemma_decl_lines_err_stays(rs, block, rulename, lino, k, n - 1);
    }
}

fn error_at_chars(lino: usize, msg: &Vec<char>) -> (r: String)
    ensures
        r@ == err_at(lino as nat, msg@),
{
    let mut v = msg.clone();
    push_str(&mut v, " at line: ");
    push_all(&mut v, &decimal_text(lino));
    string_of(&v)
}

/// Parses the metavariable declarations of rule `rulename`, which start at
/// line `lino`: the metavariables and the number of lines that declare some.
pub fn handle_metavar_decl(rules: &Vec<Rule>, block: &Vec<&str>, rulename: &Name, lino: usize) -> (r: Result<
    (Vec<MetaVar>, usize),
    String,
>)
    requires
        lino + block@.len() <= usize::MAX,
    ensures
        match decl_lines(rules_v(rules@), strs_v(block@), rulename@, lino as nat, block@.len() as int) {
            Ok((ms, blanks)) => r matches Ok((v, b)) && mvars_v(v@) == ms && b == blanks,
            Err(e) => r matches Err(m) && m@ == e,
        },
{
    let mut metavars: Vec<MetaVar> = Vec::new();
    let mut blanks: usize = 0;
    let ghost lines = strs_v(block@);
    let rname = chars_of(rulename.as_str());
    proof {
        assert(mvars_v(metavars@) =~= Seq::<MetaVarV>::empty());
    }
    let mut k: usize = 0;
    while k < block.len()
        invariant
            lines == strs_v(block@),
            k <= block@.len(),
            lino + block@.len() <= usize::MAX,
            rname@ == rulename@,
            blanks <= k,
            decl_lines(rules_v(rules@), lines, rulename@, lino as nat, k as int) == Ok::<(Seq<MetaVarV>, nat), Seq<char>>(
                (mvars_v(metavars@), blanks as nat),
            ),
        decreases block@.len() - k,
    {
        let line = trim(&chars_of(block[k]));
        proof {
            assert(line@ == spec_trim(lines[k as int]));
        }
        if line.len() != 0 {
            let seps = vec![',', ' ', ';'];
            proof {
                assert(seps@ == seq![',', ' ', ';']);
            }
            let toks = split_at_any(&line, &seps);
            let ty = trim(&toks[0]);
            let ghost tv = spec_split(line@, seq![',', ' ', ';']);
            let lineno = k + 1 + lino;
            let ghost ms0 = mvars_v(metavars@);
            let ghost target = decl_vars(rules_v(rules@), ms0, tv, 1, rulename@, ty@, lino as nat, lineno as nat);
            proof {
                assert(ty@ == spec_trim(tv[0]));
            }
            let mut j: usize = 1;
            while j < toks.len()
                invariant
                    1 <= j <= toks@.len(),
                    tv == spec_split(line@, seq![',', ' ', ';']),
                    tv.len() == toks@.len(),
                    forall|i: int| 0 <= i < toks@.len() ==> #[trigger] toks@[i]@ == tv[i],
                    rname@ == rulename@,
                    decl_vars(rules_v(rules@), mvars_v(metavars@), tv, j as int, rulename@, ty@, lino as nat, lineno as nat)
                        == target,
                    decl_lines(rules_v(rules@), lines, rulename@, lino as nat, k as int) == Ok::<
                        (Seq<MetaVarV>, nat),
                        Seq<char>,
                    >((ms0, blanks as nat)),
                    lines == strs_v(block@),
                    k < block@.len(),
                    line@ == spec_trim(lines[k as int]),
                    line@.len() > 0,
                    lineno == k + 1 + lino,
                    ty@ == spec_trim(tv[0]),
                    target == decl_vars(rules_v(rules@), ms0, tv, 1, rulename@, ty@, lino as nat, lineno as nat),
                    lino + block@.len() <= usize::MAX,
                    blanks <= k,
                decreases toks@.len() - j,
            {
                let v = trim(&toks[j]);
                proof {
                    assert(toks@[j as int]@ == tv[j as int]);
                    assert(v@ == spec_trim(tv[j as int]));
                }
                if v.len() != 0 {
                    if find_named(&metavars, &v).is_some() {
                        let mut msg = chars_of("Redefining ");
                        push_all(&mut msg, &ty);
                        push_str(&mut msg, " metavariable ");
                        push_all(&mut msg, &v);
                        let r = error_at_chars(lineno, &msg);
                        proof {
                            assert(decl_vars(rules_v(rules@), mvars_v(metavars@), tv, j as int, rulename@, ty@, lino as nat, lineno as nat)
                                == Err::<Seq<MetaVarV>, Seq<char>>(r@));
                            assert(decl_lines(rules_v(rules@), lines, rulename@, lino as nat, k + 1) is Err);
                            lemma_decl_lines_err_stays(rules_v(rules@), lines, rulename@, lino as nat, k + 1, lines.len() as int);
                        }
                        return Err(r);
                    }
                    match makemetavar(rules, &rname, &v, &ty, lino) {
                        Err(e) => {
                            proof {
                                assert(decl_lines(rules_v(rules@), lines, rulename@, lino as nat, k + 1) is Err);
                                lemma_decl_lines_err_stays(
                                    rules_v(rules@),
                                    lines,
                                    rulename@,
                                    lino as nat,
                                    k + 1,
                                    lines.len() as int,
                                );
                            }
                            return Err(e);
                        },
                        Ok(m) => {
                            let ghost before = mvars_v(metavars@);
                            metavars.push(m);
                            proof {
                                assert(mvars_v(metavars@) =~= before.push(m@));
                            }
                        },
                    }
                }
                j = j + 1;
            }
            blanks = blanks + 1;
        }
        k = k + 1;
    }
    Ok((metavars, blanks))
}

// ---------------------------------------------------------------------
// Rule headers

/// The lines `ls` joined with newlines.
pub open spec fn join_nl(ls: Seq<Seq<char>>) -> Seq<char>
    decreases ls.len(),
{
    if ls.len() == 0 {
        Seq::empty()
    } else if ls.len() == 1 {
        ls[0]
    } else {
        join_nl(ls.drop_last()) + "\n"@ + ls.last()
    }
}

/// The pieces `ps` put together.
pub open spec fn concat_all(ps: Seq<Seq<char>>) -> Seq<char>
    decreases ps.len(),
{
    if ps.len() == 0 {
        Seq::empty()
    } else {
        concat_all(ps.drop_last()) + ps.last()
    }
}

/// The expression of the function that wraps a `depends on` clause.
pub open spec fn dep_expr(root: SnodeV) -> Option<SnodeV> {
    match stmtlist_of(root) {
        Some(sl) => if sl.children.len() > 1 {
            Some(sl.children[1])
        } else {
            None
        },
        None => None,
    }
}

/// The code that a `depends on` clause is parsed in.
pub open spec fn dep_code(text: Seq<char>) -> Seq<char> {
    "fn coccifn() { "@ + text + " }"@
}

/// The dependency that the `depends on` clause `text` states.
pub open spec fn spec_dependson(rs: Seq<RuleV>, text: Seq<char>, lino: nat) -> Result<DepV, Seq<char>> {
    match cocci_tree(dep_code(text)) {
        Err(e) => Err(e),
        Ok(root) => match dep_expr(root) {
            None => Err(err_named_at(lino, "malformed Rule"@, text)),
            Some(x) => dep_of(rule_names(rs), lino, x),
        },
    }
}

/// Parses the `depends on` clause `rule`.
fn getdependson(rules: &Vec<Rule>, rule: &Vec<char>, lino: usize) -> (r: Result<Dep, String>)
    ensures
        match spec_dependson(rules_v(rules@), rule@, lino as nat) {
            Ok(d) => r matches Ok(x) && x@ == d,
            Err(e) => r matches Err(m) && m@ == e,
        },
{
    let mut code = chars_of("fn coccifn() { ");
    push_all(&mut code, rule);
    push_str(&mut code, " }");
    let code = string_of(&code);
    proof {
        assert(code@ =~= dep_code(rule@));
    }
    let root = match wrap_root(code.as_str()) {
        Ok(root) => root,
        Err(e) => {
            return Err(e);
        },
    };
    match getstmtlist(&root) {
        Some(sl) => {
            if sl.children.len() > 1 {
                proof {
                    assert(sl@.children[1] == sl.children@[1]@);
                }
                getdep(rules, lino, &sl.children[1])
            } else {
                Err(error_named_at(lino, &chars_of("malformed Rule"), rule))
            }
        },
        None => Err(error_named_at(lino, &chars_of("malformed Rule"), rule)),
    }
}

/// The name and dependency that the header lines `decl` of a rule give.
pub open spec fn rule_header(rs: Seq<RuleV>, decl: Seq<Seq<char>>, lino: nat) -> Result<
    (Seq<char>, DepV),
    Seq<char>,
> {
    let toks = spec_split(spec_trim(join_nl(decl)), seq![' ', '\n']);
    if toks.len() >= 3 && toks[1] == "depends"@ && toks[2] == "on"@ {
        match spec_dependson(rs, concat_all(toks.subrange(3, toks.len() as int)), lino) {
            Ok(d) => Ok((toks[0], d)),
            Err(e) => Err(e),
        }
    } else if toks.len() == 1 {
        Ok((toks[0], DepV::NoDep))
    } else {
        Err(err_at(lino, Seq::empty()))
    }
}

/// Parses the header of a rule: its name, then optionally `depends on` and
/// a boolean expression over the names of earlier rules.
pub fn handlerules(rules: &Vec<Rule>, decl: Vec<&str>, lino: usize) -> (r: Result<(Name, Dep), String>)
    ensures
        match rule_header(rules_v(rules@), strs_v(decl@), lino as nat) {
            Ok((n, d)) => r matches Ok((x, y)) && x@ == n && y@ == d,
            Err(e) => r matches Err(m) && m@ == e,
        },
{
    let ghost ls = strs_v(decl@);
    let mut joined: Vec<char> = Vec::new();
    let mut i: usize = 0;
    while i < decl.len()
        invariant
            ls == strs_v(decl@),
            i <= decl@.len(),
            joined@ == join_nl(ls.take(i as int)),
        decreases decl@.len() - i,
    {
        if i > 0 {
            joined.push('\n');
        }
        push_str(&mut joined, decl[i]);
        proof {
            reveal_strlit("\n");
            assert(ls.take(i + 1).drop_last() =~= ls.take(i as int));
            assert(ls.take(i + 1).last() == ls[i as int]);
            if i == 0 {
                assert(ls.take(1) =~= seq![ls[0]]);
            }
        }
        i = i + 1;
    }
    proof {
        assert(ls.take(decl@.len() as int) =~= ls);
    }
    let seps = vec![' ', '\n'];
    proof {
        assert(seps@ == seq![' ', '\n']);
    }
    let toks = split_at_any(&trim(&joined), &seps);
    let ghost tv = spec_split(spec_trim(join_nl(ls)), seq![' ', '\n']);
    proof {
        assert(toks@[0]@ == tv[0]);
    }
    if toks.len() >= 3 && chars_eq_str(&toks[1], "depends") && chars_eq_str(&toks[2], "on") {
        proof {
            assert(toks@[1]@ == tv[1]);
            assert(toks@[2]@ == tv[2]);
        }
        let mut rest: Vec<char> = Vec::new();
        let mut j: usize = 3;
        proof {
            assert(tv.subrange(3, 3) =~= Seq::<Seq<char>>::empty());
        }
        while j < toks.len()
            invariant
                3 <= j <= toks@.len(),
                tv.len() == toks@.len(),
                forall|k: int| 0 <= k < toks@.len() ==> #[trigger] toks@[k]@ == tv[k],
                rest@ == concat_all(tv.subrange(3, j as int)),
            decreases toks@.len() - j,
        {
            push_all(&mut rest, &toks[j]);
            proof {
                assert(tv.subrange(3, j + 1).drop_last() =~= tv.subrange(3, j as int));
                assert(toks@[j as int]@ == tv[j as int]);
            }
            j = j + 1;
        }
        match getdependson(rules, &rest, lino) {
            Ok(d) => Ok((string_of(&toks[0]), d)),
            Err(e) => Err(e),
        }
    } else if toks.len() == 1 {
        Ok((string_of(&toks[0]), Dep::NoDep))
    } else {
        proof {
            if toks.len() >= 3 {
                assert(toks@[1]@ == tv[1]);
                assert(toks@[2]@ == tv[2]);
            }
            reveal_strlit("");
            assert(""@ =~= Seq::<char>::empty());
        }
        Err(error_at(lino, ""))
    }
}

// ---------------------------------------------------------------------
// Building rules

/// `n` newlines.
pub open spec fn newlines(n: nat) -> Seq<char> {
    Seq::new(n, |i: int| '\n')
}

fn push_newlines(v: &mut Vec<char>, n: usize)
    ensures
        final(v)@ == old(v)@ + newlines(n as nat),
{
    let ghost v0 = v@;
    let mut i: usize = 0;
    while i < n
        invariant
            i <= n,
            v@ == v0 + newlines(i as nat),
        decreases n - i,
    {
        v.push('\n');
        proof {
            assert(v0 + newlines((i + 1) as nat) =~= (v0 + newlines(i as nat)).push('\n'));
        }
        i = i + 1;
    }
}

/// The two trees of a rule whose `+` and `-` buffers are `plusbuf` and
/// `minusbuf`, placed `llino` lines down, with metavariables `ms`: the
/// metavariables marked, the modifiers of lines spread, the braces of the
/// wrapping function taken off, and the `+` code attached to the `-` tree.
pub open spec fn spec_getpatch(plusbuf: Seq<char>, minusbuf: Seq<char>, llino: nat, ms: Seq<MetaVarV>) -> Result<
    (SnodeV, SnodeV),
    Seq<char>,
> {
    match cocci_tree(newlines(llino) + plusbuf) {
        Err(e) => Err(e),
        Ok(p0) => match cocci_tree(newlines(llino) + minusbuf) {
            Err(e) => Err(e),
            Ok(m0) => {
                let p1 = mods_set(metavars_set(p0, ms), (0, None)).0;
                let m1 = mods_set(metavars_set(m0, ms), (0, None)).0;
                match braces_removed(m1) {
                    None => Err("rule without code"@),
                    Some(m2) => match braces_removed(p1) {
                        None => Err("rule without code"@),
                        Some(p2) => match tagplus_node(m2, p2, usize::MAX as nat) {
                            None => Err("There are plusses in the minus buffer, or minuses in the plus buffer."@),
                            Some(m3) => Ok((m3, p2)),
                        },
                    },
                }
            },
        },
    }
}

/// Builds the two trees of a rule from its `+` and `-` buffers.
fn getpatch(plusbuf: &Vec<char>, minusbuf: &Vec<char>, llino: usize, metavars: &Vec<MetaVar>) -> (r: Result<
    Patch,
    String,
>)
    ensures
        match spec_getpatch(plusbuf@, minusbuf@, llino as nat, mvars_v(metavars@)) {
            Ok((m, p)) => r matches Ok(x) && x.minus@ == m && x.plus@ == p,
            Err(e) => r matches Err(x) && x@ == e,
        },
{
    let mut pb: Vec<char> = Vec::new();
    push_newlines(&mut pb, llino);
    push_all(&mut pb, plusbuf);
    let mut mb: Vec<char> = Vec::new();
    push_newlines(&mut mb, llino);
    push_all(&mut mb, minusbuf);
    let ps = string_of(&pb);
    let ms = string_of(&mb);
    let plus = match wrap_root(ps.as_str()) {
        Ok(t) => t,
        Err(e) => {
            return Err(e);
        },
    };
    let minus = match wrap_root(ms.as_str()) {
        Ok(t) => t,
        Err(e) => {
            return Err(e);
        },
    };
    let mut p = Patch { plus, minus };
    p.setmetavars(metavars);
    p.setmods();
    if !removestmtbracesaddpluses(&mut p.minus) {
        return Err(string_of(&chars_of("rule without code")));
    }
    if !removestmtbracesaddpluses(&mut p.plus) {
        return Err(string_of(&chars_of("rule without code")));
    }
    if !p.tagplus() {
        return Err(
            string_of(&chars_of("There are plusses in the minus buffer, or minuses in the plus buffer.")),
        );
    }
    Ok(p)
}

/// `ms` with, for each metavariable of `us` in turn, the first one of the
/// same name taken off.
pub open spec fn without_named(ms: Seq<MetaVarV>, us: Seq<MetaVarV>) -> Seq<MetaVarV>
    decreases us.len(),
{
    if us.len() == 0 {
        ms
    } else {
        let prev = without_named(ms, us.drop_last());
        match first_named(prev, var_name(us.last()), 0) {
            Some(k) => prev.remove(k),
            None => prev,
        }
    }
}

/// The metavariables of `ms` that belong to another rule than `name`.
pub open spec fn foreign(ms: Seq<MetaVarV>, name: Seq<char>) -> Seq<MetaVarV>
    decreases ms.len(),
{
    if ms.len() == 0 {
        Seq::empty()
    } else {
        let prev = foreign(ms.drop_last(), name);
        if var_rule(ms.last()) != name {
            prev.push(ms.last())
        } else {
            prev
        }
    }
}

/// The code buffer of a rule named `name` for one side (`suffix`): the
/// wrapping function, `blanks` empty lines, and the code.
pub open spec fn rule_buf(name: Seq<char>, suffix: Seq<char>, blanks: nat, body: Seq<char>) -> Seq<char> {
    "fn "@ + name + suffix + "() {\n"@ + newlines(blanks) + body + "}"@
}

/// The rule that a header, declarations and code make: its trees, its
/// unused metavariables (dropped from its metavariables), and the
/// metavariables it inherits.
pub open spec fn spec_buildrule(
    name: Seq<char>,
    dep: DepV,
    ms: Seq<MetaVarV>,
    blanks: nat,
    pbufmod: Seq<char>,
    mbufmod: Seq<char>,
    lastruleline: nat,
) -> Result<RuleV, Seq<char>> {
    match spec_getpatch(
        rule_buf(name, "_plus"@, blanks, pbufmod),
        rule_buf(name, "_minus"@, blanks, mbufmod),
        lastruleline,
        ms,
    ) {
        Err(e) => Err(e),
        Ok((m, p)) => {
            let unused = drop_used(drop_used(ms, preorder(m)), preorder(p));
            let ms2 = without_named(ms, unused);
            Ok(
                RuleV {
                    name,
                    dependson: dep,
                    metavars: ms2,
                    unusedmetavars: unused,
                    minus: m,
                    plus: p,
                    freevars: foreign(ms2, name),
                    usedafter: Seq::empty(),
                },
            )
        },
    }
}

/// Takes off `metavars`, for each metavariable of `unused` in turn, the
/// first one of the same name.
fn remove_unused(metavars: &mut Vec<MetaVar>, unused: &Vec<MetaVar>)
    ensures
        mvars_v(final(metavars)@) == without_named(mvars_v(old(metavars)@), mvars_v(unused@)),
{
    let ghost ms0 = mvars_v(metavars@);
    let ghost uv = mvars_v(unused@);
    let mut i: usize = 0;
    proof {
        assert(uv.take(0) =~= Seq::<MetaVarV>::empty());
    }
    while i < unused.len()
        invariant
            i <= unused@.len(),
            uv == mvars_v(unused@),
            mvars_v(metavars@) == without_named(ms0, uv.take(i as int)),
        decreases unused@.len() - i,
    {
        let name = name_chars(&unused[i]);
        proof {
            assert(uv.take(i + 1).drop_last() =~= uv.take(i as int));
            assert(uv.take(i + 1).last() == unused@[i as int]@);
        }
        match find_named(metavars, &name) {
            Some(k) => {
                proof {
                    lemma_first_named_bounds(mvars_v(metavars@), name@, 0);
                }
                let ghost before = mvars_v(metavars@);
                let _ = metavars.remove(k);
                proof {
                    assert(mvars_v(metavars@) =~= before.remove(k as int));
                }
            },
            None => {},
        }
        i = i + 1;
    }
    proof {
        assert(uv.take(unused@.len() as int) =~= uv);
    }
}

/// Copies of the metavariables of `metavars` that belong to another rule
/// than `cname`.
fn foreign_vars(metavars: &Vec<MetaVar>, cname: &Vec<char>) -> (r: Vec<MetaVar>)
    ensures
        mvars_v(r@) == foreign(mvars_v(metavars@), cname@),
{
    let mut freevars: Vec<MetaVar> = Vec::new();
    let mut j: usize = 0;
    let ghost ms2 = mvars_v(metavars@);
    proof {
        assert(ms2.take(0) =~= Seq::<MetaVarV>::empty());
        assert(mvars_v(freevars@) =~= Seq::<MetaVarV>::empty());
    }
    while j < metavars.len()
        invariant
            j <= metavars@.len(),
            ms2 == mvars_v(metavars@),
            mvars_v(freevars@) == foreign(ms2.take(j as int), cname@),
        decreases metavars@.len() - j,
    {
        let rn = rule_chars(&metavars[j]);
        proof {
            assert(ms2.take(j + 1).drop_last() =~= ms2.take(j as int));
            assert(ms2.take(j + 1).last() == metavars@[j as int]@);
        }
        if !chars_eq(&rn, cname) {
            let ghost before = mvars_v(freevars@);
            freevars.push(metavars[j].copy());
            proof {
                assert(mvars_v(freevars@) =~= before.push(metavars@[j as int]@));
            }
        }
        j = j + 1;
    }
    proof {
        assert(ms2.take(metavars@.len() as int) =~= ms2);
    }
    freevars
}

/// Builds a rule from its name, dependency, metavariables and code.
#[verifier::rlimit(40)]
#[verifier::spinoff_prover]
fn buildrule(
    currrulename: &Name,
    currdepends: Dep,
    metavars: Vec<MetaVar>,
    blanks: usize,
    pbufmod: &String,
    mbufmod: &String,
    lastruleline: usize,
) -> (r: Result<Rule, String>)
    ensures
        match spec_buildrule(
            currrulename@,
            currdepends@,
            mvars_v(metavars@),
            blanks as nat,
            pbufmod@,
            mbufmod@,
            lastruleline as nat,
        ) {
            Ok(rv) => r matches Ok(x) && x@ == rv,
            Err(e) => r matches Err(x) && x@ == e,
        },
{
    let mut plusbuf = chars_of("fn ");
    push_str(&mut plusbuf, currrulename.as_str());
    push_str(&mut plusbuf, "_plus() {\n");
    push_newlines(&mut plusbuf, blanks);
    push_str(&mut plusbuf, pbufmod.as_str());
    push_str(&mut plusbuf, "}");
    let mut minusbuf = chars_of("fn ");
    push_str(&mut minusbuf, currrulename.as_str());
    push_str(&mut minusbuf, "_minus() {\n");
    push_newlines(&mut minusbuf, blanks);
    push_str(&mut minusbuf, mbufmod.as_str());
    push_str(&mut minusbuf, "}");
    proof {
        assert(plusbuf@ =~= rule_buf(currrulename@, "_plus"@, blanks as nat, pbufmod@)) by {
            reveal_strlit("_plus() {\n");
            reveal_strlit("_plus");
            reveal_strlit("() {\n");
        }
        assert(minusbuf@ =~= rule_buf(currrulename@, "_minus"@, blanks as nat, mbufmod@)) by {
            reveal_strlit("_minus() {\n");
            reveal_strlit("_minus");
            reveal_strlit("() {\n");
        }
    }
    let currpatch = match getpatch(&plusbuf, &minusbuf, lastruleline, &metavars) {
        Ok(p) => p,
        Err(e) => {
            return Err(e);
        },
    };
    let copies = copy_mvars(&metavars);
    let unusedmetavars = currpatch.getunusedmetavars(copies);
    let mut metavars = metavars;
    remove_unused(&mut metavars, &unusedmetavars);
    let cname = chars_of(currrulename.as_str());
    let freevars = foreign_vars(&metavars, &cname);
    let usedafter: Vec<MetavarName> = Vec::new();
    let rule = Rule {
        name: string_of(&cname),
        dependson: currdepends,
        metavars,
        unusedmetavars,
        patch: currpatch,
        freevars,
        usedafter,
    };
    proof {
        assert(rule@.usedafter =~= Seq::<MetavarNameV>::empty());
    }
    Ok(rule)
}

/// Copies of a list of metavariables.
pub fn copy_mvars(v: &Vec<MetaVar>) -> (r: Vec<MetaVar>)
    ensures
        mvars_v(r@) == mvars_v(v@),
{
    let mut r: Vec<MetaVar> = Vec::new();
    let mut i: usize = 0;
    while i < v.len()
        invariant
            i <= v@.len(),
            mvars_v(r@) == mvars_v(v@).take(i as int),
        decreases v@.len() - i,
    {
        let ghost before = mvars_v(r@);
        r.push(v[i].copy());
        proof {
            assert(mvars_v(r@) =~= before.push(v@[i as int]@));
            assert(mvars_v(v@).take(i + 1) =~= mvars_v(v@).take(i as int).push(v@[i as int]@));
        }
        i = i + 1;
    }
    proof {
        assert(mvars_v(v@).take(v@.len() as int) =~= mvars_v(v@));
    }
    r
}

// ---------------------------------------------------------------------
// Whole semantic patches

/// Text before the first rule must be blank.
pub fn handleprepatch(contents: &str) -> (r: Result<(), String>)
    ensures
        spec_trim(contents@).len() == 0 ==> r is Ok,
        spec_trim(contents@).len() != 0 ==> (r matches Err(m) && m@ == err_at(0, "SyntaxError"@)),
{
    if trim(&chars_of(contents)).len() != 0 {
        Err(error_at(0, "SyntaxError"))
    } else {
        Ok(())
    }
}

/// The name of a metavariable, with its rule.
pub open spec fn mv_name(m: MetaVarV) -> MetavarNameV {
    MetavarNameV { rulename: var_rule(m), varname: var_name(m) }
}

/// `acc` with the names of the metavariables `fvs` added in order, each name
/// once.
pub open spec fn add_names(acc: Seq<MetavarNameV>, fvs: Seq<MetaVarV>) -> Seq<MetavarNameV>
    decreases fvs.len(),
{
    if fvs.len() == 0 {
        acc
    } else {
        let a = add_names(acc, fvs.drop_last());
        if a.contains(mv_name(fvs.last())) {
            a
        } else {
            a.push(mv_name(fvs.last()))
        }
    }
}

/// The names of the metavariables that the rules of `rs` from index `i` on
/// inherit, gathered from the last rule back, each name once.
pub open spec fn names_after(rs: Seq<RuleV>, i: int) -> Seq<MetavarNameV>
    decreases rs.len() - i,
{
    if i < 0 || i >= rs.len() {
        Seq::empty()
    } else {
        add_names(names_after(rs, i + 1), rs[i].freevars)
    }
}

/// `after` is `before` with the names of the metavariables that later rules
/// inherit recorded in each rule.
pub open spec fn usedafter_set(before: Seq<RuleV>, after: Seq<RuleV>) -> bool {
    &&& after.len() == before.len()
    &&& forall|i: int|
        0 <= i < after.len() ==> #[trigger] after[i] == (RuleV { usedafter: names_after(before, i + 1), ..before[i] })
}

proof fn lemma_add_names_distinct(acc: Seq<MetavarNameV>, fvs: Seq<MetaVarV>)
    requires
        acc.no_duplicates(),
    ensures
        add_names(acc, fvs).no_duplicates(),
    decreases fvs.len(),
{
    if fvs.len() > 0 {
        lemma_add_names_distinct(acc, fvs.drop_last());
        let a = add_names(acc, fvs.drop_last());
        let x = mv_name(fvs.last());
        if !a.contains(x) {
            assert forall|i: int, j: int| 0 <= i < j < a.push(x).len() implies a.push(x)[i] != a.push(x)[j] by {
                if j == a.len() {
                    assert(a.push(x)[i] == a[i]);
                }
            }
        }
    }
}

proof fn lemma_names_after_distinct(rs: Seq<RuleV>, i: int)
    ensures
        names_after(rs, i).no_duplicates(),
    decreases rs.len() - i,
{
    if 0 <= i < rs.len() {
        lemma_names_after_distinct(rs, i + 1);
        lemma_add_names_distinct(names_after(rs, i + 1), rs[i].freevars);
    }
}

/// After the names used later are recorded, no rule records a name twice,
/// and the last rule records none.
pub proof fn law_usedafter_distinct(before: Seq<RuleV>, after: Seq<RuleV>)
    requires
        usedafter_set(before, after),
    ensures
        forall|i: int| 0 <= i < after.len() ==> (#[trigger] after[i]).usedafter.no_duplicates(),
        after.len() > 0 ==> after.last().usedafter.len() == 0,
{
    assert forall|i: int| 0 <= i < after.len() implies (#[trigger] after[i]).usedafter.no_duplicates() by {
        lemma_names_after_distinct(before, i + 1);
    }
}

fn name_eq(a: &MetavarName, b: &MetavarName) -> (r: bool)
    ensures
        r == (a@ == b@),
{
    str_eq(a.rulename.as_str(), b.rulename.as_str()) && str_eq(a.varname.as_str(), b.varname.as_str())
}

fn names_contain(v: &Vec<MetavarName>, n: &MetavarName) -> (r: bool)
    ensures
        r == names_v(v@).contains(n@),
{
    let mut i: usize = 0;
    while i < v.len()
        invariant
            i <= v@.len(),
            forall|j: int| 0 <= j < i ==> v@[j]@ != n@,
        decreases v@.len() - i,
    {
        if name_eq(&v[i], n) {
            proof {
                assert(names_v(v@)[i as int] == n@);
            }
            return true;
        }
        i = i + 1;
    }
    proof {
        if names_v(v@).contains(n@) {
            let k = choose|k: int| 0 <= k < names_v(v@).len() && names_v(v@)[k] == n@;
            assert(v@[k]@ == n@);
        }
    }
    false
}

/// The models of a list of metavariable names.
pub open spec fn names_v(v: Seq<MetavarName>) -> Seq<MetavarNameV> {
    Seq::new(v.len(), |i: int| v[i]@)
}

fn copy_names(v: &Vec<MetavarName>) -> (r: Vec<MetavarName>)
    ensures
        names_v(r@) == names_v(v@),
{
    let mut r: Vec<MetavarName> = Vec::new();
    let mut i: usize = 0;
    while i < v.len()
        invariant
            i <= v@.len(),
            names_v(r@) == names_v(v@).take(i as int),
        decreases v@.len() - i,
    {
        let ghost before = names_v(r@);
        let c = v[i].copy();
        r.push(c);
        proof {
            assert(names_v(r@) =~= before.push(c@));
            assert(names_v(v@).take(i + 1) =~= names_v(v@).take(i as int).push(v@[i as int]@));
        }
        i = i + 1;
    }
    proof {
        assert(names_v(v@).take(v@.len() as int) =~= names_v(v@));
    }
    r
}

/// Adds to `tmp` the names of the metavariables `fvs` that it lacks.
fn add_rule_names(tmp: &mut Vec<MetavarName>, fvs: &Vec<MetaVar>)
    ensures
        names_v(final(tmp)@) == add_names(names_v(old(tmp)@), mvars_v(fvs@)),
{
    let ghost t0 = names_v(tmp@);
    let ghost fv = mvars_v(fvs@);
    let mut f: usize = 0;
    proof {
        assert(fv.take(0) =~= Seq::<MetaVarV>::empty());
    }
    while f < fvs.len()
        invariant
            f <= fvs@.len(),
            fv == mvars_v(fvs@),
            names_v(tmp@) == add_names(t0, fv.take(f as int)),
        decreases fvs@.len() - f,
    {
        let m = &fvs[f];
        let n = MetavarName { rulename: string_of(&rule_chars(m)), varname: string_of(&name_chars(m)) };
        proof {
            assert(fv[f as int] == m@);
            assert(n@ == mv_name(fv[f as int]));
            assert(fv.take(f + 1).drop_last() =~= fv.take(f as int));
            assert(fv.take(f + 1).last() == fv[f as int]);
        }
        if !names_contain(tmp, &n) {
            let ghost before = names_v(tmp@);
            tmp.push(n);
            proof {
                assert(names_v(tmp@) =~= before.push(n@));
            }
        }
        f = f + 1;
    }
    proof {
        assert(fv.take(fv.len() as int) =~= fv);
    }
}

/// Records in each rule the inherited metavariables that later rules use.
#[verifier::rlimit(50)]
pub fn setusedafter(rules: &mut Vec<Rule>)
    ensures
        usedafter_set(rules_v(old(rules)@), rules_v(final(rules)@)),
{
    let ghost before = rules_v(rules@);
    let mut tmp: Vec<MetavarName> = Vec::new();
    let mut i: usize = rules.len();
    proof {
        assert(names_v(tmp@) =~= names_after(before, i as int));
    }
    while i > 0
        invariant
            i <= rules@.len(),
            rules@.len() == before.len(),
            before == rules_v(old(rules)@),
            names_v(tmp@) == names_after(before, i as int),
            forall|k: int| 0 <= k < i ==> #[trigger] rules@[k]@ == before[k],
            forall|k: int|
                i <= k < rules@.len() ==> #[trigger] rules@[k]@ == (RuleV {
                    usedafter: names_after(before, k + 1),
                    ..before[k]
                }),
        decreases i,
    {
        i = i - 1;
        let copy = copy_names(&tmp);
        proof {
            assert(rules@[i as int]@ == before[i as int]);
        }
        let ghost r_before = rules@;
        {
            let r = &mut rules[i];
            r.usedafter = copy;
        }
        proof {
            assert(rules@[i as int]@.usedafter =~= names_after(before, i + 1));
            assert(rules@[i as int]@ == (RuleV { usedafter: names_after(before, i + 1), ..before[i as int] }));
            assert forall|k: int| 0 <= k < rules@.len() && k != i implies rules@[k] == r_before[k] by {}
        }
        proof {
            assert(mvars_v(rules@[i as int].freevars@) == before[i as int].freevars);
        }
        add_rule_names(&mut tmp, &rules[i].freevars);
    }
}

/// The blocks of a semantic patch: the pieces between `@` signs.
pub open spec fn cocci_blocks(contents: Seq<char>) -> Seq<Seq<char>> {
    spec_split(contents, seq!['@'])
}

/// The rule that the blocks of one rule make (header, declarations, the
/// piece between `@@`, code) when the rules before are `rs`, the rule starts
/// at line `lino` and the code of the rule before ended at line `last`;
/// with the line where the rule ends.
#[verifier::opaque]
pub open spec fn rule_step(
    rs: Seq<RuleV>,
    blk1: Seq<char>,
    blk2: Seq<char>,
    blk3: Seq<char>,
    blk4: Seq<char>,
    lino: nat,
    last: nat,
) -> Result<(RuleV, nat), Seq<char>> {
    let b1 = spec_lines(spec_trim(blk1));
    let b2 = spec_lines(blk2);
    let b3 = spec_lines(blk3);
    let b4 = spec_lines(blk4);
    match rule_header(rs, b1, lino) {
        Err(e) => Err(e),
        Ok((name, dep)) => if lino + 1 + b2.len() + b4.len() > usize::MAX {
            Err("semantic patch too long"@)
        } else {
            let lino1 = lino + 1;
            match decl_lines(rs, b2, name, lino1, b2.len() as int) {
                Err(e) => Err(e),
                Ok((ms, blanks)) => {
                    let lino2 = lino1 + b2.len();
                    if b3.len() != 0 {
                        Err(err_at(lino2, "Syntax Error"@))
                    } else {
                        let lino3 = (lino2 + b4.len() - 1) as nat;
                        match spec_buildrule(
                            name,
                            dep,
                            ms,
                            blanks,
                            plus_buf(b4, b4.len() as int),
                            minus_buf(b4, b4.len() as int),
                            last,
                        ) {
                            Err(e) => Err(e),
                            Ok(r) => Ok((r, lino3)),
                        }
                    }
                },
            }
        },
    }
}

/// The rules made by the first `n` groups of four blocks after the first
/// block, with the line reached and the line where the last rule ends.
pub open spec fn rules_upto(bl: Seq<Seq<char>>, n: int) -> Result<(Seq<RuleV>, nat, nat), Seq<char>>
    decreases n,
{
    if n <= 0 || 4 * n + 1 > bl.len() {
        Ok((Seq::empty(), 0, 0))
    } else {
        match rules_upto(bl, n - 1) {
            Err(e) => Err(e),
            Ok((rs, lino, last)) => {
                let i = n - 1;
                match rule_step(rs, bl[1 + 4 * i], bl[2 + 4 * i], bl[3 + 4 * i], bl[4 + 4 * i], lino, last) {
                    Err(e) => Err(e),
                    Ok((r, l3)) => Ok((rs.push(r), l3, l3)),
                }
            },
        }
    }
}

/// The rules of the semantic patch `contents` (before the names of the
/// inherited metavariables used later are recorded), or the first error.
pub open spec fn cocci_rules(contents: Seq<char>) -> Result<Seq<RuleV>, Seq<char>> {
    let bl = cocci_blocks(contents);
    if spec_trim(bl[0]).len() != 0 {
        Err(err_at(0, "SyntaxError"@))
    } else {
        match rules_upto(bl, (bl.len() - 1) / 4) {
            Ok((rs, _, _)) => Ok(rs),
            Err(e) => Err(e),
        }
    }
}

/// `String`s with the given characters.
fn strings_of(v: &Vec<Vec<char>>) -> (r: Vec<String>)
    ensures
        r@.len() == v@.len(),
        forall|i: int| 0 <= i < v@.len() ==> #[trigger] r@[i]@ == v@[i]@,
{
    let mut r: Vec<String> = Vec::new();
    let mut i: usize = 0;
    while i < v.len()
        invariant
            i <= v@.len(),
            r@.len() == i,
            forall|j: int| 0 <= j < i ==> #[trigger] r@[j]@ == v@[j]@,
        decreases v@.len() - i,
    {
        r.push(string_of(&v[i]));
        i = i + 1;
    }
    r
}

/// Slices of the given strings.
fn strs_of<'a>(v: &'a Vec<String>) -> (r: Vec<&'a str>)
    ensures
        r@.len() == v@.len(),
        forall|i: int| 0 <= i < v@.len() ==> #[trigger] strs_v(r@)[i] == v@[i]@,
{
    let mut r: Vec<&str> = Vec::new();
    let mut i: usize = 0;
    while i < v.len()
        invariant
            i <= v@.len(),
            r@.len() == i,
            forall|j: int| 0 <= j < i ==> #[trigger] r@[j]@ == v@[j]@,
        decreases v@.len() - i,
    {
        r.push(v[i].as_str());
        i = i + 1;
    }
    r
}

/// The lines of a text, as strings.
fn line_strings(s: &Vec<char>) -> (r: Vec<String>)
    ensures
        r@.len() == spec_lines(s@).len(),
        forall|i: int| 0 <= i < r@.len() ==> #[trigger] r@[i]@ == spec_lines(s@)[i],
{
    let ls = lines_of(s);
    strings_of(&ls)
}

proof fn lemma_rules_upto_err_stays(bl: Seq<Seq<char>>, k: int, n: int)
    requires
        0 <= k <= n,
        4 * n + 1 <= bl.len(),
        rules_upto(bl, k) is Err,
    ensures
        rules_upto(bl, n) == rules_upto(bl, k),
    decreases n - k,
{
    if k < n {
        lemma_rules_upto_err_stays(bl, k, n - 1);
    }
}

/// Parses the blocks of one rule.
#[verifier::rlimit(50)]
fn parse_rule(
    rules: &Vec<Rule>,
    blk1: &Vec<char>,
    blk2: &Vec<char>,
    blk3: &Vec<char>,
    blk4: &Vec<char>,
    lino: usize,
    lastruleline: usize,
) -> (r: Result<(Rule, usize), String>)
    ensures
        match rule_step(rules_v(rules@), blk1@, blk2@, blk3@, blk4@, lino as nat, lastruleline as nat) {
            Ok((rv, l3)) => r matches Ok((x, y)) && x@ == rv && y == l3,
            Err(e) => r matches Err(m) && m@ == e,
        },
{
    proof {
        reveal(rule_step);
    }
    let s1 = line_strings(&trim(blk1));
    let s2 = line_strings(blk2);
    let s3 = line_strings(blk3);
    let s4 = line_strings(blk4);
    let block1 = strs_of(&s1);
    let block2 = strs_of(&s2);
    let block4 = strs_of(&s4);
    let ghost b1 = spec_lines(spec_trim(blk1@));
    let ghost b2 = spec_lines(blk2@);
    let ghost b4 = spec_lines(blk4@);
    proof {
        assert(strs_v(block1@) =~= b1);
        assert(strs_v(block2@) =~= b2);
        assert(strs_v(block4@) =~= b4);
    }
    let (currrulename, currdepends) = match handlerules(rules, block1, lino) {
        Ok(x) => x,
        Err(e) => {
            return Err(e);
        },
    };
    if lino >= usize::MAX - block2.len() || lino + 1 + block2.len() > usize::MAX - block4.len() {
        return Err(string_of(&chars_of("semantic patch too long")));
    }
    let lino1 = lino + 1;
    let (metavars, blanks) = match handle_metavar_decl(rules, &block2, &currrulename, lino1) {
        Ok(x) => x,
        Err(e) => {
            return Err(e);
        },
    };
    let lino2 = lino1 + block2.len();
    if s3.len() != 0 {
        return Err(error_at(lino2, "Syntax Error"));
    }
    let lino3 = lino2 + block4.len() - 1;
    let (pbufmod, mbufmod) = handlemods(&block4);
    match buildrule(&currrulename, currdepends, metavars, blanks, &pbufmod, &mbufmod, lastruleline) {
        Ok(r) => Ok((r, lino3)),
        Err(e) => Err(e),
    }
}

/// Parses a semantic patch into its rules.  Each rule is
/// `@ name (depends on dep)? @`, its metavariable declarations, `@@`, and
/// its code with `+`/`-` lines; the rules record the inherited
/// metavariables that later rules use.
pub fn processcocci(contents: &str) -> (r: Result<Vec<Rule>, String>)
    ensures
        match cocci_rules(contents@) {
            Ok(rs) => r matches Ok(v) && usedafter_set(rs, rules_v(v@)),
            Err(e) => r matches Err(m) && m@ == e,
        },
{
    let cs = chars_of(contents);
    let blocks = split_at(&cs, '@');
    let ghost bl = cocci_blocks(contents@);
    proof {
        assert(blocks@[0]@ == bl[0]);
    }
    if trim(&blocks[0]).len() != 0 {
        return Err(error_at(0, "SyntaxError"));
    }
    let bl_len = blocks.len();
    let nrules = (bl_len - 1) / 4;
    proof {
        assert(blocks@.len() >= 1);
    }
    let mut rules: Vec<Rule> = Vec::new();
    let mut lino: usize = 0;
    let mut lastruleline: usize = 0;
    let mut i: usize = 0;
    proof {
        assert(rules_v(rules@) =~= Seq::<RuleV>::empty());
    }
    while i < nrules
        invariant
            bl == cocci_blocks(contents@),
            blocks@.len() == bl.len(),
            blocks@.len() >= 1,
            bl_len == blocks@.len(),
            spec_trim(bl[0]).len() == 0,
            forall|k: int| 0 <= k < blocks@.len() ==> #[trigger] blocks@[k]@ == bl[k],
            nrules == (blocks@.len() - 1) / 4,
            i <= nrules,
            rules_upto(bl, i as int) == Ok::<(Seq<RuleV>, nat, nat), Seq<char>>(
                (rules_v(rules@), lino as nat, lastruleline as nat),
            ),
        decreases nrules - i,
    {
        proof {
            assert(4 * i + 4 <= blocks@.len() - 1) by (nonlinear_arith)
                requires
                    i < nrules,
                    nrules == (blocks@.len() - 1) / 4,
                    blocks@.len() >= 1,
            ;
            assert(4 * nrules + 1 <= blocks@.len()) by (nonlinear_arith)
                requires
                    nrules == (blocks@.len() - 1) / 4,
                    blocks@.len() >= 1,
            ;
            assert(blocks@[1 + 4 * i]@ == bl[1 + 4 * i]);
            assert(blocks@[2 + 4 * i]@ == bl[2 + 4 * i]);
            assert(blocks@[3 + 4 * i]@ == bl[3 + 4 * i]);
            assert(blocks@[4 + 4 * i]@ == bl[4 + 4 * i]);
        }
        let k = 4 * i;
        let (rule, l3) = match parse_rule(&rules, &blocks[k + 1], &blocks[k + 2], &blocks[k + 3], &blocks[k + 4], lino, lastruleline) {
            Ok(x) => x,
            Err(e) => {
                proof {
                    lemma_rules_upto_err_stays(bl, i + 1, nrules as int);
                }
                return Err(e);
            },
        };
        lino = l3;
        let ghost before = rules_v(rules@);
        rules.push(rule);
        proof {
            assert(rules_v(rules@) =~= before.push(rule@));
        }
        lastruleline = lino;
        i = i + 1;
    }
    let ghost built = rules_v(rules@);
    setusedafter(&mut rules);
    Ok(rules)
}

} // verus!
