//! Which metavariables each rule uses, and how: once or several times in
//! its `-` code, in its `+` code, and which are used by later rules.
use vstd::prelude::*;
use crate::commons::syntax_kind::Tag;
use crate::commons::text::str_eq;
use crate::parsing_cocci::ast0::{
    mcodekind_v, pluses_of, preorder, preorder_seq, snodes_v, Mcodekind, MetaVar, MetaVarV, Snode, SnodeV,
};
use crate::parsing_cocci::parse_cocci::{mvars_v, rule_chars, rules_v, var_rule, Rule};

verus! {

// ---------------------------------------------------------------------
// References to metavariables

/// The metavariable that node `n` names, if it is a name reference to one.
pub open spec fn ref_of(n: SnodeV) -> Seq<MetaVarV> {
    if n.kind == Tag::NameRef && !(n.wrapper.metavar is NoMeta) {
        seq![n.wrapper.metavar]
    } else {
        Seq::empty()
    }
}

/// The metavariables named by the nodes `s`, in order, with repetitions.
pub open spec fn name_refs(s: Seq<SnodeV>) -> Seq<MetaVarV>
    decreases s.len(),
{
    if s.len() == 0 {
        Seq::empty()
    } else {
        name_refs(s.drop_last()) + ref_of(s.last())
    }
}

/// The metavariables named within the trees `ts`, tree after tree.
pub open spec fn trees_refs(ts: Seq<SnodeV>) -> Seq<MetaVarV>
    decreases ts.len(),
{
    if ts.len() == 0 {
        Seq::empty()
    } else {
        trees_refs(ts.drop_last()) + name_refs(preorder(ts.last()))
    }
}

/// The `+` code attached to node `n`: before, then after.
pub open spec fn plus_trees(n: SnodeV) -> Seq<SnodeV> {
    pluses_of(n.wrapper.mcodekind).0 + pluses_of(n.wrapper.mcodekind).1
}

/// The metavariables named within the `+` code attached to the nodes `s`.
pub open spec fn plus_refs(s: Seq<SnodeV>) -> Seq<MetaVarV>
    decreases s.len(),
{
    if s.len() == 0 {
        Seq::empty()
    } else {
        plus_refs(s.drop_last()) + trees_refs(plus_trees(s.last()))
    }
}

proof fn lemma_name_refs_concat(x: Seq<SnodeV>, y: Seq<SnodeV>)
    ensures
        name_refs(x + y) == name_refs(x) + name_refs(y),
    decreases y.len(),
{
    if y.len() == 0 {
        assert(x + y =~= x);
        assert(name_refs(x) + name_refs(y) =~= name_refs(x));
    } else {
        lemma_name_refs_concat(x, y.drop_last());
        assert((x + y).drop_last() =~= x + y.drop_last());
        assert((x + y).last() == y.last());
        assert(name_refs(x) + name_refs(y.drop_last()) + ref_of(y.last()) =~= name_refs(x) + (name_refs(
            y.drop_last(),
        ) + ref_of(y.last())));
    }
}

proof fn lemma_plus_refs_concat(x: Seq<SnodeV>, y: Seq<SnodeV>)
    ensures
        plus_refs(x + y) == plus_refs(x) + plus_refs(y),
    decreases y.len(),
{
    if y.len() == 0 {
        assert(x + y =~= x);
        assert(plus_refs(x) + plus_refs(y) =~= plus_refs(x));
    } else {
        lemma_plus_refs_concat(x, y.drop_last());
        assert((x + y).drop_last() =~= x + y.drop_last());
        assert((x + y).last() == y.last());
        assert(plus_refs(x) + plus_refs(y.drop_last()) + trees_refs(plus_trees(y.last())) =~= plus_refs(x) + (
        plus_refs(y.drop_last()) + trees_refs(plus_trees(y.last()))));
    }
}

proof fn lemma_trees_refs_concat(x: Seq<SnodeV>, y: Seq<SnodeV>)
    ensures
        trees_refs(x + y) == trees_refs(x) + trees_refs(y),
    decreases y.len(),
{
    if y.len() == 0 {
        assert(x + y =~= x);
        assert(trees_refs(x) + trees_refs(y) =~= trees_refs(x));
    } else {
        lemma_trees_refs_concat(x, y.drop_last());
        assert((x + y).drop_last() =~= x + y.drop_last());
        assert((x + y).last() == y.last());
        assert(trees_refs(x) + trees_refs(y.drop_last()) + name_refs(preorder(y.last())) =~= trees_refs(x) + (
        trees_refs(y.drop_last()) + name_refs(preorder(y.last()))));
    }
}

/// Appends to `acc` the metavariables named within `node`.
fn collect_refs(node: &Snode, acc: &mut Vec<MetaVar>)
    ensures
        mvars_v(final(acc)@) == mvars_v(old(acc)@) + name_refs(preorder(node@)),
    decreases node,
{
    let ghost b0 = mvars_v(acc@);
    let ghost n = node@;
    if node.kind == Tag::NameRef && !node.wrapper.metavar.isnotmeta() {
        acc.push(node.wrapper.metavar.copy());
    }
    proof {
        assert(seq![n].drop_last() =~= Seq::<SnodeV>::empty());
        assert(name_refs(Seq::<SnodeV>::empty()) == Seq::<MetaVarV>::empty());
        assert(seq![n].last() == n);
        assert(name_refs(seq![n]) =~= ref_of(n));
        assert(mvars_v(acc@) =~= b0 + ref_of(n));
        assert(preorder_seq(n.children, 0) =~= Seq::<SnodeV>::empty());
        assert(seq![n] + preorder_seq(n.children, 0) =~= seq![n]);
    }
    let mut i: usize = 0;
    while i < node.children.len()
        invariant
            n == node@,
            i <= node.children@.len(),
            n.children.len() == node.children@.len(),
            mvars_v(acc@) == b0 + name_refs(seq![n] + preorder_seq(n.children, i as int)),
        decreases node.children@.len() - i,
    {
        proof {
            assert(decreases_to!(node => node.children@[i as int]));
            assert(n.children[i as int] == node.children@[i as int]@);
        }
        collect_refs(&node.children[i], acc);
        proof {
            lemma_name_refs_concat(seq![n] + preorder_seq(n.children, i as int), preorder(n.children[i as int]));
            assert(seq![n] + preorder_seq(n.children, i + 1) =~= (seq![n] + preorder_seq(n.children, i as int))
                + preorder(n.children[i as int]));
        }
        i = i + 1;
    }
    proof {
        assert(preorder(n) == seq![n] + preorder_seq(n.children, n.children.len() as int));
    }
}

/// Appends to `acc` the metavariables named within the trees `ts`.
fn collect_trees(ts: &Vec<Snode>, acc: &mut Vec<MetaVar>)
    ensures
        mvars_v(final(acc)@) == mvars_v(old(acc)@) + trees_refs(snodes_v(*ts)),
{
    let ghost b0 = mvars_v(acc@);
    let ghost tv = snodes_v(*ts);
    let mut i: usize = 0;
    proof {
        assert(tv.take(0) =~= Seq::<SnodeV>::empty());
        assert(mvars_v(acc@) =~= b0 + trees_refs(tv.take(0)));
    }
    while i < ts.len()
        invariant
            i <= ts@.len(),
            tv == snodes_v(*ts),
            mvars_v(acc@) == b0 + trees_refs(tv.take(i as int)),
        decreases ts@.len() - i,
    {
        proof {
            assert(tv.take(i + 1).drop_last() =~= tv.take(i as int));
            assert(tv.take(i + 1).last() == ts@[i as int]@);
        }
        let ghost before = mvars_v(acc@);
        collect_refs(&ts[i], acc);
        proof {
            assert(mvars_v(acc@) =~= b0 + trees_refs(tv.take(i + 1)));
        }
        i = i + 1;
    }
    proof {
        assert(tv.take(ts@.len() as int) =~= tv);
    }
}

/// Appends to `acc` the metavariables named within the `+` code attached
/// to the nodes of `node`.
fn collect_plus(node: &Snode, acc: &mut Vec<MetaVar>)
    ensures
        mvars_v(final(acc)@) == mvars_v(old(acc)@) + plus_refs(preorder(node@)),
    decreases node,
{
    let ghost b0 = mvars_v(acc@);
    let ghost n = node@;
    proof {
        assert(n.wrapper.mcodekind == mcodekind_v(node.wrapper.mcodekind));
    }
    match &node.wrapper.mcodekind {
        Mcodekind::Context(a, b) => {
            collect_trees(a, acc);
            collect_trees(b, acc);
            proof {
                lemma_trees_refs_concat(snodes_v(*a), snodes_v(*b));
            }
        },
        Mcodekind::Minus(a) => {
            collect_trees(a, acc);
            proof {
                assert(snodes_v(*a) + Seq::<SnodeV>::empty() =~= snodes_v(*a));
            }
        },
        _ => {
            proof {
                assert(plus_trees(n) =~= Seq::<SnodeV>::empty());
                assert(mvars_v(acc@) =~= b0 + trees_refs(plus_trees(n)));
            }
        },
    }
    proof {
        assert(seq![n].drop_last() =~= Seq::<SnodeV>::empty());
        assert(plus_refs(Seq::<SnodeV>::empty()) == Seq::<MetaVarV>::empty());
        assert(seq![n].last() == n);
        assert(plus_refs(seq![n]) =~= trees_refs(plus_trees(n)));
        assert(mvars_v(acc@) =~= b0 + plus_refs(seq![n]));
        assert(preorder_seq(n.children, 0) =~= Seq::<SnodeV>::empty());
        assert(seq![n] + preorder_seq(n.children, 0) =~= seq![n]);
    }
    let mut i: usize = 0;
    while i < node.children.len()
        invariant
            n == node@,
            i <= node.children@.len(),
            n.children.len() == node.children@.len(),
            mvars_v(acc@) == b0 + plus_refs(seq![n] + preorder_seq(n.children, i as int)),
        decreases node.children@.len() - i,
    {
        proof {
            assert(decreases_to!(node => node.children@[i as int]));
            assert(n.children[i as int] == node.children@[i as int]@);
        }
        collect_plus(&node.children[i], acc);
        proof {
            lemma_plus_refs_concat(seq![n] + preorder_seq(n.children, i as int), preorder(n.children[i as int]));
            assert(seq![n] + preorder_seq(n.children, i + 1) =~= (seq![n] + preorder_seq(n.children, i as int))
                + preorder(n.children[i as int]));
        }
        i = i + 1;
    }
    proof {
        assert(preorder(n) == seq![n] + preorder_seq(n.children, n.children.len() as int));
    }
}

// ---------------------------------------------------------------------
// Sets of metavariables, kept in the order of insertion

/// `s` with `x` added at the end unless it is there.
pub open spec fn set_add(s: Seq<MetaVarV>, x: MetaVarV) -> Seq<MetaVarV> {
    if s.contains(x) {
        s
    } else {
        s.push(x)
    }
}

/// `s` without `x`.
pub open spec fn without(s: Seq<MetaVarV>, x: MetaVarV) -> Seq<MetaVarV>
    decreases s.len(),
{
    if s.len() == 0 {
        Seq::empty()
    } else if s.last() == x {
        without(s.drop_last(), x)
    } else {
        without(s.drop_last(), x).push(s.last())
    }
}

/// The distinct elements of `s`, in the order they first occur.
pub open spec fn dedup_f(s: Seq<MetaVarV>) -> Seq<MetaVarV>
    decreases s.len(),
{
    if s.len() == 0 {
        Seq::empty()
    } else {
        set_add(dedup_f(s.drop_last()), s.last())
    }
}

/// The metavariables of `ids` used once, and those used more than once.
pub open spec fn unitary_split(ids: Seq<MetaVarV>) -> (Seq<MetaVarV>, Seq<MetaVarV>)
    decreases ids.len(),
{
    if ids.len() == 0 {
        (Seq::empty(), Seq::empty())
    } else {
        let (u, n) = unitary_split(ids.drop_last());
        let id = ids.last();
        if u.contains(id) {
            (without(u, id), set_add(n, id))
        } else if !n.contains(id) {
            (u.push(id), n)
        } else {
            (u, n)
        }
    }
}

fn mv_same(a: &MetaVar, b: &MetaVar) -> (r: bool)
    ensures
        r == (a@ == b@),
{
    let ta = match a {
        MetaVar::NoMeta => 0u8,
        MetaVar::Exp(_) => 1,
        MetaVar::Id(_) => 2,
        MetaVar::Type(_) => 3,
        MetaVar::Struct(_, _) => 4,
        MetaVar::Enum(_, _) => 5,
    };
    let tb = match b {
        MetaVar::NoMeta => 0u8,
        MetaVar::Exp(_) => 1,
        MetaVar::Id(_) => 2,
        MetaVar::Type(_) => 3,
        MetaVar::Struct(_, _) => 4,
        MetaVar::Enum(_, _) => 5,
    };
    if ta != tb {
        return false;
    }
    match (a, b) {
        (MetaVar::NoMeta, MetaVar::NoMeta) => true,
        (MetaVar::Exp(x), MetaVar::Exp(y)) | (MetaVar::Id(x), MetaVar::Id(y)) | (MetaVar::Type(x), MetaVar::Type(y)) => {
            minfo_same(x, y)
        },
        (MetaVar::Struct(s, x), MetaVar::Struct(t, y)) | (MetaVar::Enum(s, x), MetaVar::Enum(t, y)) => {
            str_eq(s.as_str(), t.as_str()) && minfo_same(x, y)
        },
        _ => false,
    }
}

fn minfo_same(
    x: &(crate::parsing_cocci::ast0::MetavarName, crate::parsing_cocci::ast0::KeepBinding, bool),
    y: &(crate::parsing_cocci::ast0::MetavarName, crate::parsing_cocci::ast0::KeepBinding, bool),
) -> (r: bool)
    ensures
        r == (crate::parsing_cocci::ast0::minfo_v(*x) == crate::parsing_cocci::ast0::minfo_v(*y)),
{
    str_eq(x.0.rulename.as_str(), y.0.rulename.as_str()) && str_eq(x.0.varname.as_str(), y.0.varname.as_str())
        && x.1 == y.1 && x.2 == y.2
}

fn contains_mv(s: &Vec<MetaVar>, x: &MetaVar) -> (r: bool)
    ensures
        r == mvars_v(s@).contains(x@),
{
    let mut i: usize = 0;
    while i < s.len()
        invariant
            i <= s@.len(),
            forall|j: int| 0 <= j < i ==> s@[j]@ != x@,
        decreases s@.len() - i,
    {
        if mv_same(&s[i], x) {
            proof {
                assert(mvars_v(s@)[i as int] == x@);
            }
            return true;
        }
        i = i + 1;
    }
    proof {
        if mvars_v(s@).contains(x@) {
            let j = choose|j: int| 0 <= j < mvars_v(s@).len() && mvars_v(s@)[j] == x@;
            assert(s@[j]@ == x@);
        }
    }
    false
}

fn set_add_exec(s: &mut Vec<MetaVar>, x: &MetaVar)
    ensures
        mvars_v(final(s)@) == set_add(mvars_v(old(s)@), x@),
{
    if !contains_mv(s, x) {
        let ghost b = mvars_v(s@);
        s.push(x.copy());
        proof {
            assert(mvars_v(s@) =~= b.push(x@));
        }
    }
}

fn without_exec(s: &Vec<MetaVar>, x: &MetaVar) -> (r: Vec<MetaVar>)
    ensures
        mvars_v(r@) == without(mvars_v(s@), x@),
{
    let ghost sv = mvars_v(s@);
    let mut r: Vec<MetaVar> = Vec::new();
    let mut i: usize = 0;
    proof {
        assert(sv.take(0) =~= Seq::<MetaVarV>::empty());
        assert(mvars_v(r@) =~= Seq::<MetaVarV>::empty());
    }
    while i < s.len()
        invariant
            i <= s@.len(),
            sv == mvars_v(s@),
            mvars_v(r@) == without(sv.take(i as int), x@),
        decreases s@.len() - i,
    {
        proof {
            assert(sv.take(i + 1).drop_last() =~= sv.take(i as int));
            assert(sv.take(i + 1).last() == s@[i as int]@);
        }
        if !mv_same(&s[i], x) {
            let ghost b = mvars_v(r@);
            r.push(s[i].copy());
            proof {
                assert(mvars_v(r@) =~= b.push(s@[i as int]@));
            }
        }
        i = i + 1;
    }
    proof {
        assert(sv.take(s@.len() as int) =~= sv);
    }
    r
}

/// The metavariables of `free_usage` used once, and those used more than
/// once, each in the order it first occurs.
pub fn collect_unitary_nonunitary(free_usage: &Vec<MetaVar>) -> (r: (Vec<MetaVar>, Vec<MetaVar>))
    ensures
        (mvars_v(r.0@), mvars_v(r.1@)) == unitary_split(mvars_v(free_usage@)),
{
    let ghost fv = mvars_v(free_usage@);
    let mut unitary: Vec<MetaVar> = Vec::new();
    let mut nonunitary: Vec<MetaVar> = Vec::new();
    let mut i: usize = 0;
    proof {
        assert(fv.take(0) =~= Seq::<MetaVarV>::empty());
        assert(mvars_v(unitary@) =~= Seq::<MetaVarV>::empty());
        assert(mvars_v(nonunitary@) =~= Seq::<MetaVarV>::empty());
    }
    while i < free_usage.len()
        invariant
            i <= free_usage@.len(),
            fv == mvars_v(free_usage@),
            (mvars_v(unitary@), mvars_v(nonunitary@)) == unitary_split(fv.take(i as int)),
        decreases free_usage@.len() - i,
    {
        proof {
            assert(fv.take(i + 1).drop_last() =~= fv.take(i as int));
            assert(fv.take(i + 1).last() == free_usage@[i as int]@);
        }
        let id = &free_usage[i];
        if contains_mv(&unitary, id) {
            unitary = without_exec(&unitary, id);
            set_add_exec(&mut nonunitary, id);
        } else if !contains_mv(&nonunitary, id) {
            let ghost b = mvars_v(unitary@);
            unitary.push(id.copy());
            proof {
                assert(mvars_v(unitary@) =~= b.push(id@));
            }
        }
        i = i + 1;
    }
    proof {
        assert(fv.take(free_usage@.len() as int) =~= fv);
    }
    (unitary, nonunitary)
}

// ---------------------------------------------------------------------
// Classification

/// The metavariables kept as witnesses and those kept in the environment,
/// after classifying the first `k` of `rs`: with `check`, each is kept as a
/// witness when a later rule uses it and in the environment otherwise;
/// without, a metavariable of the rule `cur` that is not in the `+` code
/// and not used later needs no keeping.
pub open spec fn keep_vars(
    rs: Seq<MetaVarV>,
    cur: Seq<char>,
    inplus: Seq<MetaVarV>,
    ua: Seq<MetaVarV>,
    check: bool,
    start: (Seq<MetaVarV>, Seq<MetaVarV>),
    k: int,
) -> (Seq<MetaVarV>, Seq<MetaVarV>)
    decreases k,
{
    if k <= 0 || k > rs.len() {
        start
    } else {
        let (saved, non) = keep_vars(rs, cur, inplus, ua, check, start, k - 1);
        let r = rs[k - 1];
        if !check && var_rule(r) == cur && !inplus.contains(r) && !ua.contains(r) {
            (saved, non)
        } else if ua.contains(r) {
            (set_add(saved, r), non)
        } else {
            (saved, set_add(non, r))
        }
    }
}

/// `ua` without its first metavariable of the rule `cur`.
pub open spec fn drop_local(ua: Seq<MetaVarV>, cur: Seq<char>, i: int) -> Seq<MetaVarV>
    decreases ua.len() - i,
{
    if i < 0 || i >= ua.len() {
        ua
    } else if var_rule(ua[i]) == cur {
        ua.remove(i)
    } else {
        drop_local(ua, cur, i + 1)
    }
}

/// `ua` followed by the metavariables of `vs` that are not of rule `cur`.
pub open spec fn push_nonlocal(ua: Seq<MetaVarV>, vs: Seq<MetaVarV>, cur: Seq<char>) -> Seq<MetaVarV>
    decreases vs.len(),
{
    if vs.len() == 0 {
        ua
    } else {
        let p = push_nonlocal(ua, vs.drop_last(), cur);
        if var_rule(vs.last()) != cur {
            p.push(vs.last())
        } else {
            p
        }
    }
}

/// The metavariables used after the rule before the rule named `cur` with
/// `-` code `minus`, given those used after it: its own first one goes,
/// the inherited ones it keeps come in.
pub open spec fn classify_f(ua: Seq<MetaVarV>, cur: Seq<char>, minus: SnodeV) -> Seq<MetaVarV> {
    let (un, nn) = unitary_split(name_refs(preorder(minus)));
    let inplus = dedup_f(plus_refs(preorder(minus)));
    let s1 = keep_vars(un, cur, inplus, ua, false, (inplus, Seq::empty()), un.len() as int);
    let (saved, non) = keep_vars(nn, cur, inplus, ua, true, s1, nn.len() as int);
    push_nonlocal(push_nonlocal(drop_local(ua, cur, 0), saved, cur), non, cur)
}

fn keep_exec(
    rs: &Vec<MetaVar>,
    cur: &str,
    inplus: &Vec<MetaVar>,
    ua: &Vec<MetaVar>,
    check: bool,
    saved: &mut Vec<MetaVar>,
    non: &mut Vec<MetaVar>,
)
    ensures
        (mvars_v(final(saved)@), mvars_v(final(non)@)) == keep_vars(
            mvars_v(rs@),
            cur@,
            mvars_v(inplus@),
            mvars_v(ua@),
            check,
            (mvars_v(old(saved)@), mvars_v(old(non)@)),
            rs@.len() as int,
        ),
{
    let ghost rv = mvars_v(rs@);
    let ghost st = (mvars_v(saved@), mvars_v(non@));
    let mut i: usize = 0;
    while i < rs.len()
        invariant
            i <= rs@.len(),
            rv == mvars_v(rs@),
            st == (mvars_v(old(saved)@), mvars_v(old(non)@)),
            (mvars_v(saved@), mvars_v(non@)) == keep_vars(rv, cur@, mvars_v(inplus@), mvars_v(ua@), check, st, i as int),
        decreases rs@.len() - i,
    {
        let r = &rs[i];
        proof {
            assert(rv[i as int] == r@);
        }
        let unit = !check && str_eq(crate::commons::text::string_of(&rule_chars(r)).as_str(), cur)
            && !contains_mv(inplus, r) && !contains_mv(ua, r);
        if !unit {
            if contains_mv(ua, r) {
                set_add_exec(saved, r);
            } else {
                set_add_exec(non, r);
            }
        }
        i = i + 1;
    }
}

fn drop_local_exec(ua: &mut Vec<MetaVar>, cur: &str)
    ensures
        mvars_v(final(ua)@) == drop_local(mvars_v(old(ua)@), cur@, 0),
{
    let ghost uv = mvars_v(ua@);
    let mut i: usize = 0;
    while i < ua.len()
        invariant
            i <= ua@.len(),
            uv == mvars_v(ua@),
            uv == mvars_v(old(ua)@),
            drop_local(uv, cur@, 0) == drop_local(uv, cur@, i as int),
        decreases ua@.len() - i,
    {
        proof {
            assert(uv[i as int] == ua@[i as int]@);
        }
        if str_eq(crate::commons::text::string_of(&rule_chars(&ua[i])).as_str(), cur) {
            let _ = ua.remove(i);
            proof {
                assert(mvars_v(ua@) =~= uv.remove(i as int));
            }
            return;
        }
        i = i + 1;
    }
}

fn push_nonlocal_exec(ua: &mut Vec<MetaVar>, vs: &Vec<MetaVar>, cur: &str)
    ensures
        mvars_v(final(ua)@) == push_nonlocal(mvars_v(old(ua)@), mvars_v(vs@), cur@),
{
    let ghost u0 = mvars_v(ua@);
    let ghost vv = mvars_v(vs@);
    let mut i: usize = 0;
    proof {
        assert(vv.take(0) =~= Seq::<MetaVarV>::empty());
    }
    while i < vs.len()
        invariant
            i <= vs@.len(),
            vv == mvars_v(vs@),
            u0 == mvars_v(old(ua)@),
            mvars_v(ua@) == push_nonlocal(u0, vv.take(i as int), cur@),
        decreases vs@.len() - i,
    {
        proof {
            assert(vv.take(i + 1).drop_last() =~= vv.take(i as int));
            assert(vv.take(i + 1).last() == vs@[i as int]@);
        }
        if !str_eq(crate::commons::text::string_of(&rule_chars(&vs[i])).as_str(), cur) {
            let ghost b = mvars_v(ua@);
            ua.push(vs[i].copy());
            proof {
                assert(mvars_v(ua@) =~= b.push(vs@[i as int]@));
            }
        }
        i = i + 1;
    }
    proof {
        assert(vv.take(vs@.len() as int) =~= vv);
    }
}

fn dedup_exec(s: &Vec<MetaVar>) -> (r: Vec<MetaVar>)
    ensures
        mvars_v(r@) == dedup_f(mvars_v(s@)),
{
    let ghost sv = mvars_v(s@);
    let mut r: Vec<MetaVar> = Vec::new();
    let mut i: usize = 0;
    proof {
        assert(sv.take(0) =~= Seq::<MetaVarV>::empty());
        assert(mvars_v(r@) =~= Seq::<MetaVarV>::empty());
    }
    while i < s.len()
        invariant
            i <= s@.len(),
            sv == mvars_v(s@),
            mvars_v(r@) == dedup_f(sv.take(i as int)),
        decreases s@.len() - i,
    {
        proof {
            assert(sv.take(i + 1).drop_last() =~= sv.take(i as int));
            assert(sv.take(i + 1).last() == s@[i as int]@);
        }
        set_add_exec(&mut r, &s[i]);
        i = i + 1;
    }
    proof {
        assert(sv.take(s@.len() as int) =~= sv);
    }
    r
}

/// Classifies the metavariables of `rule` as needing no binding, a binding
/// in the environment, or a witness, and updates `used_after`, the
/// metavariables used after the rule, to those used after the rule before
/// it, as `classify_f` says.
pub fn classify_rule_variables(rule: &Rule, used_after: &mut Vec<MetaVar>)
    ensures
        mvars_v(final(used_after)@) == classify_f(mvars_v(old(used_after)@), rule@.name, rule@.minus),
{
    let curname = rule.name.as_str();
    let mut refs: Vec<MetaVar> = Vec::new();
    collect_refs(&rule.patch.minus, &mut refs);
    proof {
        assert(Seq::<MetaVarV>::empty() + name_refs(preorder(rule.patch.minus@)) =~= name_refs(preorder(rule.patch.minus@)));
    }
    let (unitarynames, nonunitarynames) = collect_unitary_nonunitary(&refs);
    let mut pl: Vec<MetaVar> = Vec::new();
    collect_plus(&rule.patch.minus, &mut pl);
    proof {
        assert(Seq::<MetaVarV>::empty() + plus_refs(preorder(rule.patch.minus@)) =~= plus_refs(preorder(rule.patch.minus@)));
    }
    let inplus = dedup_exec(&pl);
    let mut saved = dedup_exec(&inplus);
    let mut nonunitary: Vec<MetaVar> = Vec::new();
    proof {
        lemma_dedup_idem(mvars_v(pl@));
        assert(mvars_v(nonunitary@) =~= Seq::<MetaVarV>::empty());
    }
    keep_exec(&unitarynames, curname, &inplus, used_after, false, &mut saved, &mut nonunitary);
    keep_exec(&nonunitarynames, curname, &inplus, used_after, true, &mut saved, &mut nonunitary);
    drop_local_exec(used_after, curname);
    push_nonlocal_exec(used_after, &saved, curname);
    push_nonlocal_exec(used_after, &nonunitary, curname);
}

proof fn lemma_dedup_idem(s: Seq<MetaVarV>)
    ensures
        dedup_f(dedup_f(s)) == dedup_f(s),
{
    lemma_dedup_distinct(s);
    lemma_dedup_of_distinct(dedup_f(s));
}

proof fn lemma_dedup_distinct(s: Seq<MetaVarV>)
    ensures
        dedup_f(s).no_duplicates(),
    decreases s.len(),
{
    if s.len() > 0 {
        lemma_dedup_distinct(s.drop_last());
    }
}

proof fn lemma_dedup_of_distinct(s: Seq<MetaVarV>)
    requires
        s.no_duplicates(),
    ensures
        dedup_f(s) == s,
    decreases s.len(),
{
    if s.len() > 0 {
        assert(s.drop_last().no_duplicates());
        lemma_dedup_of_distinct(s.drop_last());
        assert(!s.drop_last().contains(s.last())) by {
            if s.drop_last().contains(s.last()) {
                let j = choose|j: int| 0 <= j < s.drop_last().len() && s.drop_last()[j] == s.last();
                assert(s[j] == s[s.len() - 1]);
            }
        }
        assert(s.drop_last().push(s.last()) =~= s);
    }
}

/// The metavariables used after each rule, from the last rule back; the
/// rules themselves are left as they are.
pub fn free_vars(rules: &mut Vec<Rule>)
    ensures
        rules_v(final(rules)@) == rules_v(old(rules)@),
{
    let mut used_after: Vec<MetaVar> = Vec::new();
    let mut i: usize = rules.len();
    while i > 0
        invariant
            i <= rules@.len(),
        decreases i,
    {
        i = i - 1;
        classify_rule_variables(&rules[i], &mut used_after);
    }
}

} // verus!
