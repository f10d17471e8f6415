//! Applying the rules of a semantic patch to Rust code: the matches of each
//! rule mark the code they remove and carry the code they add, and the
//! transformed code is reparsed before the next rule.
use vstd::prelude::*;
use crate::commons::info::{ParseError, ParseErrorV};
use crate::commons::text::{chars_of, str_eq, string_from, string_of};
use crate::commons::util::{getstmtlist, stmtlist_of};
use crate::engine::cocci_vs_rs::{
    binding_for, bindings_v, copy_bindings, envs_v, find_binding, visit_envs, visitrnode, BindingV,
    branches_v, EnvV, Environment, Looper, MetavarBinding,
};
use crate::engine::disjunctions::{expand_disjs, expand_fuel_bound, getdisjunctions, Disjunction};
use crate::parsing_cocci::ast0::{copy_snodes, snode_string, snodes_v, MetaVar, MetaVarV, MetavarName, MetavarNameV, Snode, SnodeV};
use crate::parsing_cocci::parse_cocci::{mv_name, mvars_v, name_chars, names_v, rule_chars, rules_v, Rule, RuleV};
use crate::parsing_rs::parse_rs::processrs;
use crate::parsing_rs::visitor_ast::rs_parse;
use crate::parsing_rs::ast_rs::{rnode_unformatted, dummy_wrap, rnode_equals, rnodes_v, RWrapV, Rnode, RnodeV, Wrap};

verus! {

/// The Rust code that node `s` of the `+` code of a rule stands for, with
/// the metavariables replaced by their bindings in `bs`; `None` when a
/// metavariable has no binding.
pub open spec fn to_rnode(s: SnodeV, bs: Seq<BindingV>) -> Option<RnodeV>
    decreases s, 1int,
{
    if !(s.wrapper.metavar is NoMeta) {
        match binding_for(bs, snode_string(s), 0) {
            Some(k) => Some(bs[k].rnode),
            None => None,
        }
    } else {
        match to_rnodes(s.children, bs, s.children.len() as int) {
            None => None,
            Some(cs) => Some(
                RnodeV { wrapper: dummy_wrap(s.children.len()), astnode: s.asttoken, kind: s.kind, children: cs },
            ),
        }
    }
}

/// The Rust code for the first `k` nodes of `ss`.
pub open spec fn to_rnodes(ss: Seq<SnodeV>, bs: Seq<BindingV>, k: int) -> Option<Seq<RnodeV>>
    decreases ss, k,
{
    if k <= 0 || k > ss.len() {
        Some(Seq::empty())
    } else {
        match to_rnodes(ss, bs, k - 1) {
            None => None,
            Some(prev) => match to_rnode(ss[k - 1], bs) {
                None => None,
                Some(r) => Some(prev.push(r)),
            },
        }
    }
}

/// Builds the Rust code that node `snode` of the `+` code of a rule stands
/// for.
pub fn copytornodewithenv(snode: &Snode, env: &Environment) -> (r: Option<Rnode>)
    ensures
        match to_rnode(snode@, env@.bindings) {
            Some(x) => r matches Some(y) && y@ == x,
            None => r is None,
        },
    decreases snode,
{
    proof {
        assert(snode@.wrapper.metavar == snode.wrapper.metavar@);
    }
    if !snode.wrapper.metavar.isnotmeta() {
        let name = chars_of(snode.getstring().as_str());
        proof {
            assert(name@ == snode_string(snode@));
        }
        match find_binding(&env.bindings, &name) {
            Some(k) => {
                proof {
                    crate::engine::cocci_vs_rs::lemma_binding_for_bounds(env@.bindings, name@, 0);
                    assert(env@.bindings[k as int] == env.bindings@[k as int]@);
                }
                return Some(env.bindings[k].rnode.copy());
            },
            None => {
                proof {
                    assert(to_rnode(snode@, env@.bindings) is None);
                }
                return None;
            },
        }
    }
    let ghost sv = snode@;
    let mut children: Vec<Rnode> = Vec::new();
    let mut i: usize = 0;
    proof {
        assert(rnodes_v(children) =~= Seq::<RnodeV>::empty());
    }
    while i < snode.children.len()
        invariant
            sv == snode@,
            sv.wrapper.metavar is NoMeta,
            i <= snode.children@.len(),
            sv.children.len() == snode.children@.len(),
            to_rnodes(sv.children, env@.bindings, i as int) == Some(rnodes_v(children)),
        decreases snode.children@.len() - i,
    {
        proof {
            assert(decreases_to!(snode => snode.children@[i as int]));
            assert(sv.children[i as int] == snode.children@[i as int]@);
        }
        match copytornodewithenv(&snode.children[i], env) {
            None => {
                proof {
                    lemma_to_rnodes_none_stays(sv.children, env@.bindings, i + 1, sv.children.len() as int);
                }
                return None;
            },
            Some(c) => {
                let ghost before = rnodes_v(children);
                children.push(c);
                proof {
                    assert(rnodes_v(children) =~= before.push(c@));
                }
            },
        }
        i = i + 1;
    }
    let astnode = match &snode.asttoken {
        Some(t) => Some(t.clone()),
        None => None,
    };
    let r = Rnode::new(Wrap::dummy(snode.children.len()), astnode, snode.kind, children);
    proof {
        assert(r@.astnode == sv.asttoken);
    }
    Some(r)
}

proof fn lemma_to_rnodes_none_stays(ss: Seq<SnodeV>, bs: Seq<BindingV>, k: int, n: int)
    requires
        0 <= k <= n <= ss.len(),
        to_rnodes(ss, bs, k) is None,
    ensures
        to_rnodes(ss, bs, n) is None,
    decreases n - k,
{
    if k < n {
        lemma_to_rnodes_none_stays(ss, bs, k, n - 1);
    }
}

/// Builds the Rust code for the nodes `snodes` of the `+` code of a rule.
pub fn snodetornode(snodes: &Vec<Snode>, env: &Environment) -> (r: Option<Vec<Rnode>>)
    ensures
        match to_rnodes(snodes_v(*snodes), env@.bindings, snodes@.len() as int) {
            Some(x) => r matches Some(y) && rnodes_v(y) == x,
            None => r is None,
        },
{
    let ghost sv = snodes_v(*snodes);
    let mut out: Vec<Rnode> = Vec::new();
    let mut i: usize = 0;
    proof {
        assert(rnodes_v(out) =~= Seq::<RnodeV>::empty());
    }
    while i < snodes.len()
        invariant
            sv == snodes_v(*snodes),
            i <= snodes@.len(),
            to_rnodes(sv, env@.bindings, i as int) == Some(rnodes_v(out)),
        decreases snodes@.len() - i,
    {
        proof {
            assert(sv[i as int] == snodes@[i as int]@);
        }
        match copytornodewithenv(&snodes[i], env) {
            None => {
                proof {
                    lemma_to_rnodes_none_stays(sv, env@.bindings, i + 1, sv.len() as int);
                }
                return None;
            },
            Some(c) => {
                let ghost before = rnodes_v(out);
                out.push(c);
                proof {
                    assert(rnodes_v(out) =~= before.push(c@));
                }
            },
        }
        i = i + 1;
    }
    Some(out)
}

// ---------------------------------------------------------------------
// Applying one match

/// A node at `pos` lies within the removed code `m`.
pub open spec fn covers(pos: (usize, usize), m: (usize, usize)) -> bool {
    pos == m || (pos.0 >= m.0 && pos.1 <= m.1)
}

/// A node at `pos` overlaps the code `m`.
pub open spec fn overlaps(pos: (usize, usize), m: (usize, usize)) -> bool {
    (if pos.0 >= m.0 {
        pos.0
    } else {
        m.0
    }) <= (if pos.1 <= m.1 {
        pos.1
    } else {
        m.1
    })
}

/// The position of a node.
pub open spec fn pos_of(x: RnodeV) -> (usize, usize) {
    (x.wrapper.info.charstart, x.wrapper.info.charend)
}

/// Node `x` after the first `k` removals of `ms`, and whether a removal
/// reaches into it.
pub open spec fn apply_minuses(x: RnodeV, ms: Seq<(usize, usize)>, k: int) -> (RnodeV, bool)
    decreases k,
{
    if k <= 0 || k > ms.len() {
        (x, false)
    } else {
        let (y, d) = apply_minuses(x, ms, k - 1);
        if covers(pos_of(x), ms[k - 1]) {
            (RnodeV { wrapper: RWrapV { isremoved: true, ..y.wrapper }, ..y }, true)
        } else if overlaps(pos_of(x), ms[k - 1]) {
            (y, true)
        } else {
            (y, d)
        }
    }
}

/// Node `x` after the first `k` additions of `ps` (code added before a
/// token that starts where it goes, or after one that ends there; a later
/// addition at the same place replaces an earlier one), and whether an
/// addition lies within it; `None` when the added code names a metavariable
/// with no binding in `bs`.
pub open spec fn apply_pluses(x: RnodeV, ps: Seq<(usize, bool, Seq<SnodeV>)>, bs: Seq<BindingV>, k: int) -> Option<
    (RnodeV, bool),
>
    decreases k,
{
    if k <= 0 || k > ps.len() {
        Some((x, false))
    } else {
        match apply_pluses(x, ps, bs, k - 1) {
            None => None,
            Some((y, d)) => {
                let (pp, isbef, pls) = ps[k - 1];
                let pos = pos_of(x);
                if pos.0 == pp && x.children.len() == 0 && isbef {
                    match to_rnodes(pls, bs, pls.len() as int) {
                        None => None,
                        Some(rs) => Some(
                            (RnodeV { wrapper: RWrapV { plussed: (rs, y.wrapper.plussed.1), ..y.wrapper }, ..y }, d),
                        ),
                    }
                } else if pos.1 == pp && x.children.len() == 0 && !isbef {
                    match to_rnodes(pls, bs, pls.len() as int) {
                        None => None,
                        Some(rs) => Some(
                            (RnodeV { wrapper: RWrapV { plussed: (y.wrapper.plussed.0, rs), ..y.wrapper }, ..y }, d),
                        ),
                    }
                } else if pp >= pos.0 && pp <= pos.1 {
                    Some((y, true))
                } else {
                    Some((y, d))
                }
            },
        }
    }
}

/// The tree `x` with the modifications of the match `env` applied: nodes
/// within removed code are removed, added code is attached to the tokens
/// where it goes; the children of a node are visited only where a
/// modification reaches into it.
pub open spec fn transformed(x: RnodeV, env: EnvV) -> Option<RnodeV>
    decreases x, 1int,
{
    let (y, d1) = apply_minuses(x, env.minuses, env.minuses.len() as int);
    match apply_pluses(y, env.pluses, env.bindings, env.pluses.len() as int) {
        None => None,
        Some((z, d2)) => if !(d1 || d2) {
            Some(z)
        } else {
            match transformed_seq(x.children, env, x.children.len() as int) {
                None => None,
                Some(cs) => Some(RnodeV { children: cs, ..z }),
            }
        },
    }
}

/// The first `k` trees of `s` with the modifications of `env` applied.
pub open spec fn transformed_seq(s: Seq<RnodeV>, env: EnvV, k: int) -> Option<Seq<RnodeV>>
    decreases s, k,
{
    if k <= 0 || k > s.len() {
        Some(Seq::empty())
    } else {
        match transformed_seq(s, env, k - 1) {
            None => None,
            Some(prev) => match transformed(s[k - 1], env) {
                None => None,
                Some(t) => Some(prev.push(t)),
            },
        }
    }
}

proof fn lemma_transformed_seq_none_stays(s: Seq<RnodeV>, env: EnvV, k: int, n: int)
    requires
        0 <= k <= n <= s.len(),
        transformed_seq(s, env, k) is None,
    ensures
        transformed_seq(s, env, n) is None,
    decreases n - k,
{
    if k < n {
        lemma_transformed_seq_none_stays(s, env, k, n - 1);
    }
}

proof fn lemma_apply_pluses_keeps(x: RnodeV, ps: Seq<(usize, bool, Seq<SnodeV>)>, bs: Seq<BindingV>, k: int)
    ensures
        apply_pluses(x, ps, bs, k) matches Some((y, _)) ==> y.children == x.children && pos_of(y) == pos_of(x),
    decreases k,
{
    if 0 < k <= ps.len() {
        lemma_apply_pluses_keeps(x, ps, bs, k - 1);
    }
}

proof fn lemma_apply_minuses_keeps(x: RnodeV, ms: Seq<(usize, usize)>, k: int)
    ensures
        apply_minuses(x, ms, k).0.children == x.children,
        pos_of(apply_minuses(x, ms, k).0) == pos_of(x),
    decreases k,
{
    if 0 < k <= ms.len() {
        lemma_apply_minuses_keeps(x, ms, k - 1);
    }
}

/// Applies the modifications of the match `env` to the node `x` itself.
fn transform_here(x: &mut Rnode, env: &Environment) -> (r: Option<bool>)
    ensures
        match apply_minuses(old(x)@, env@.minuses, env@.minuses.len() as int) {
            (y, d1) => match apply_pluses(y, env@.pluses, env@.bindings, env@.pluses.len() as int) {
                None => r is None,
                Some((z, d2)) => r == Some(d1 || d2) && final(x)@ == z,
            },
        },
        final(x).children == old(x).children,
{
    let ghost x0 = x@;
    let pos = x.getpos();
    let mut deeper = false;
    let mut k: usize = 0;
    let ms = &env.modifiers.minuses;
    while k < ms.len()
        invariant
            x0 == old(x)@,
            x.children == old(x).children,
            k <= ms@.len(),
            ms@ == env@.minuses,
            pos == pos_of(x0),
            (x@, deeper) == apply_minuses(x0, ms@, k as int),
        decreases ms@.len() - k,
    {
        let m = ms[k];
        let lo = if pos.0 >= m.0 { pos.0 } else { m.0 };
        let hi = if pos.1 <= m.1 { pos.1 } else { m.1 };
        if (pos.0 == m.0 && pos.1 == m.1) || (pos.0 >= m.0 && pos.1 <= m.1) {
            x.wrapper.isremoved = true;
            deeper = true;
        } else if lo <= hi {
            deeper = true;
        }
        k = k + 1;
    }
    let ghost y = x@;
    let d1 = deeper;
    proof {
        lemma_apply_minuses_keeps(x0, ms@, ms@.len() as int);
    }
    let ps = &env.modifiers.pluses;
    let leaf = x.children.len() == 0;
    let mut d2 = false;
    let mut j: usize = 0;
    proof {
        assert(y.children.len() == x0.children.len());
    }
    while j < ps.len()
        invariant
            x0 == old(x)@,
            (y, d1) == apply_minuses(x0, env@.minuses, env@.minuses.len() as int),
            x.children == old(x).children,
            j <= ps@.len(),
            crate::engine::cocci_vs_rs::pluses_v(ps@) == env@.pluses,
            pos == pos_of(y),
            leaf == (y.children.len() == 0),
            apply_pluses(y, env@.pluses, env@.bindings, j as int) == Some((x@, d2)),
        decreases ps@.len() - j,
    {
        let pp = ps[j].0;
        let isbef = ps[j].1;
        proof {
            assert(env@.pluses[j as int] == (ps@[j as int].0, ps@[j as int].1, snodes_v(ps@[j as int].2)));
        }
        if pos.0 == pp && leaf && isbef {
            match snodetornode(&ps[j].2, env) {
                None => {
                    proof {
                        lemma_apply_pluses_none_stays(y, env@.pluses, env@.bindings, j + 1, env@.pluses.len() as int);
                    }
                    return None;
                },
                Some(rs) => {
                    x.wrapper.plussed.0 = rs;
                },
            }
        } else if pos.1 == pp && leaf && !isbef {
            match snodetornode(&ps[j].2, env) {
                None => {
                    proof {
                        lemma_apply_pluses_none_stays(y, env@.pluses, env@.bindings, j + 1, env@.pluses.len() as int);
                    }
                    return None;
                },
                Some(rs) => {
                    x.wrapper.plussed.1 = rs;
                },
            }
        } else if pp >= pos.0 && pp <= pos.1 {
            d2 = true;
        }
        j = j + 1;
    }
    Some(d1 || d2)
}

proof fn lemma_apply_pluses_none_stays(
    x: RnodeV,
    ps: Seq<(usize, bool, Seq<SnodeV>)>,
    bs: Seq<BindingV>,
    k: int,
    n: int,
)
    requires
        0 <= k <= n <= ps.len(),
        apply_pluses(x, ps, bs, k) is None,
    ensures
        apply_pluses(x, ps, bs, n) is None,
    decreases n - k,
{
    if k < n {
        lemma_apply_pluses_none_stays(x, ps, bs, k, n - 1);
    }
}

/// Applies the modifications of the match `env` to the tree `node`;
/// `false` (with the tree partly changed) when added code names a
/// metavariable with no binding.
pub fn transform(node: &mut Rnode, env: &Environment) -> (r: bool)
    ensures
        r == (transformed(old(node)@, env@) is Some),
        r ==> final(node)@ == transformed(old(node)@, env@)->0,
    decreases *old(node),
{
    let ghost x0 = node@;
    let deeper = match transform_here(node, env) {
        None => {
            return false;
        },
        Some(d) => d,
    };
    if !deeper {
        return true;
    }
    proof {
        lemma_apply_minuses_keeps(x0, env@.minuses, env@.minuses.len() as int);
        let y = apply_minuses(x0, env@.minuses, env@.minuses.len() as int).0;
        lemma_apply_pluses_keeps(y, env@.pluses, env@.bindings, env@.pluses.len() as int);
        assert(node@.children == x0.children);
    }
    let ghost z = node@;
    let mut rest: Vec<Rnode> = Vec::new();
    std::mem::swap(&mut rest, &mut node.children);
    let ghost r0 = rest@;
    let mut done: Vec<Rnode> = Vec::new();
    let mut i: usize = 0;
    proof {
        assert(r0.len() == rest.len());
        assert(rest@ =~= r0.subrange(0, r0.len() as int));
        assert(rnodes_v(done) =~= Seq::<RnodeV>::empty());
        assert(r0 == old(node).children@);
    }
    while rest.len() > 0
        invariant
            r0 == old(node).children@,
            x0 == old(node)@,
            i <= r0.len(),
            r0.len() <= usize::MAX,
            rest@ == r0.subrange(i as int, r0.len() as int),
            transformed_seq(x0.children, env@, i as int) == Some(rnodes_v(done)),
            x0.children.len() == r0.len(),
            match apply_minuses(x0, env@.minuses, env@.minuses.len() as int) {
                (y, d1) => match apply_pluses(y, env@.pluses, env@.bindings, env@.pluses.len() as int) {
                    Some((z2, d2)) => z2 == z && (d1 || d2),
                    None => false,
                },
            },
        decreases rest@.len(),
    {
        let mut c = rest.remove(0);
        proof {
            assert(c == r0[i as int]);
            assert(x0.children[i as int] == c@);
            assert(decreases_to!(*old(node) => r0[i as int]));
        }
        if !transform(&mut c, env) {
            proof {
                lemma_transformed_seq_none_stays(x0.children, env@, i + 1, x0.children.len() as int);
            }
            return false;
        }
        let ghost o = rnodes_v(done);
        done.push(c);
        proof {
            assert(rnodes_v(done) =~= o.push(c@));
            assert(rest@ =~= r0.subrange(i + 1, r0.len() as int));
        }
        i = i + 1;
    }
    node.children = done;
    proof {
        assert(node@ == (RnodeV { children: rnodes_v(done), ..z }));
    }
    true
}

// ---------------------------------------------------------------------
// Bindings carried from rule to rule

/// The models of a list of lists of bindings.
pub open spec fn binds_v(v: Seq<Vec<MetavarBinding>>) -> Seq<Seq<BindingV>> {
    Seq::new(v.len(), |i: int| bindings_v(v[i]@))
}

/// Each of `ob` extended with each binding of `tm` in turn.
pub open spec fn with_each(ob: Seq<Seq<BindingV>>, tm: Seq<BindingV>, k: int) -> Seq<Seq<BindingV>>
    decreases k,
{
    if k <= 0 || k > tm.len() {
        Seq::empty()
    } else {
        with_each(ob, tm, k - 1) + Seq::new(ob.len(), |j: int| ob[j].push(tm[k - 1]))
    }
}

/// Every combination of one binding from each list of `bs`.
pub open spec fn expanded(bs: Seq<Seq<BindingV>>) -> Seq<Seq<BindingV>>
    decreases bs.len(),
{
    if bs.len() == 0 {
        seq![Seq::empty()]
    } else {
        with_each(expanded(bs.drop_last()), bs.last(), bs.last().len() as int)
    }
}

fn copy_binds(v: &Vec<Vec<MetavarBinding>>) -> (r: Vec<Vec<MetavarBinding>>)
    ensures
        binds_v(r@) == binds_v(v@),
{
    let mut r: Vec<Vec<MetavarBinding>> = Vec::new();
    let mut i: usize = 0;
    while i < v.len()
        invariant
            i <= v@.len(),
            binds_v(r@) == binds_v(v@).take(i as int),
        decreases v@.len() - i,
    {
        let ghost before = binds_v(r@);
        let c = copy_bindings(&v[i]);
        r.push(c);
        proof {
            assert(binds_v(r@) =~= before.push(bindings_v(c@)));
            assert(binds_v(v@).take(i + 1) =~= binds_v(v@).take(i as int).push(bindings_v(v@[i as int]@)));
        }
        i = i + 1;
    }
    proof {
        assert(binds_v(v@).take(v@.len() as int) =~= binds_v(v@));
    }
    r
}

/// Every combination of one binding from each list of `bindings`, the
/// last list varying slowest.
pub fn getexpandedbindings(bindings: Vec<Vec<MetavarBinding>>) -> (r: Vec<Vec<MetavarBinding>>)
    ensures
        binds_v(r@) == expanded(binds_v(bindings@)),
{
    let ghost bv = binds_v(bindings@);
    let mut acc: Vec<Vec<MetavarBinding>> = Vec::new();
    acc.push(Vec::new());
    proof {
        assert(binds_v(acc@) =~= seq![Seq::<BindingV>::empty()]) by {
            assert(bindings_v(acc@[0]@) =~= Seq::<BindingV>::empty());
        }
        assert(bv.take(0) =~= Seq::<Seq<BindingV>>::empty());
    }
    let mut i: usize = 0;
    while i < bindings.len()
        invariant
            i <= bindings@.len(),
            bv == binds_v(bindings@),
            binds_v(acc@) == expanded(bv.take(i as int)),
        decreases bindings@.len() - i,
    {
        let ghost ob = binds_v(acc@);
        let tm = &bindings[i];
        let ghost tv = bindings_v(tm@);
        let mut next: Vec<Vec<MetavarBinding>> = Vec::new();
        let mut k: usize = 0;
        proof {
            assert(binds_v(next@) =~= Seq::<Seq<BindingV>>::empty());
        }
        while k < tm.len()
            invariant
                k <= tm@.len(),
                ob == binds_v(acc@),
                tv == bindings_v(tm@),
                binds_v(next@) == with_each(ob, tv, k as int),
            decreases tm@.len() - k,
        {
            let ghost base = binds_v(next@);
            let mut j: usize = 0;
            while j < acc.len()
                invariant
                    j <= acc@.len(),
                    k < tm@.len(),
                    ob == binds_v(acc@),
                    tv == bindings_v(tm@),
                    binds_v(next@) == base + Seq::new(j as nat, |q: int| ob[q].push(tv[k as int])),
                decreases acc@.len() - j,
            {
                let mut c = copy_bindings(&acc[j]);
                let ghost c0 = bindings_v(c@);
                let b = tm[k].copy();
                c.push(b);
                proof {
                    assert(bindings_v(c@) =~= c0.push(b@));
                    assert(tv[k as int] == tm@[k as int]@);
                }
                let ghost before = binds_v(next@);
                next.push(c);
                proof {
                    assert(binds_v(next@) =~= before.push(bindings_v(c@)));
                    assert(binds_v(next@) =~= base + Seq::new((j + 1) as nat, |q: int| ob[q].push(tv[k as int])));
                }
                j = j + 1;
            }
            proof {
                assert(Seq::new(acc@.len() as nat, |q: int| ob[q].push(tv[k as int])) =~= Seq::new(
                    ob.len(),
                    |q: int| ob[q].push(tv[k as int]),
                ));
            }
            k = k + 1;
        }
        proof {
            assert(bv.take(i + 1).drop_last() =~= bv.take(i as int));
            assert(bv.take(i + 1).last() == tv);
        }
        acc = next;
        i = i + 1;
    }
    proof {
        assert(bv.take(bindings@.len() as int) =~= bv);
    }
    acc
}

/// Two bindings are the same: same metavariable, and code of the same place,
/// shape and tokens.
pub open spec fn same_binding(a: BindingV, b: BindingV) -> bool {
    a.name == b.name && pos_of(a.rnode) == pos_of(b.rnode) && rnode_equals(a.rnode, b.rnode)
}

/// Whether `s` holds a binding that is the same as `b`.
pub open spec fn has_same(s: Seq<BindingV>, b: BindingV) -> bool {
    exists|i: int| 0 <= i < s.len() && same_binding(#[trigger] s[i], b)
}

fn same_binding_exec(a: &MetavarBinding, b: &MetavarBinding) -> (r: bool)
    ensures
        r == same_binding(a@, b@),
{
    str_eq(a.metavarinfo.rulename.as_str(), b.metavarinfo.rulename.as_str()) && str_eq(
        a.metavarinfo.varname.as_str(),
        b.metavarinfo.varname.as_str(),
    ) && {
        let pa = a.rnode.getpos();
        let pb = b.rnode.getpos();
        pa.0 == pb.0 && pa.1 == pb.1
    } && a.rnode.equals(&b.rnode)
}

fn has_same_exec(s: &Vec<MetavarBinding>, b: &MetavarBinding) -> (r: bool)
    ensures
        r == has_same(bindings_v(s@), b@),
{
    let mut i: usize = 0;
    while i < s.len()
        invariant
            i <= s@.len(),
            forall|j: int| 0 <= j < i ==> !same_binding(#[trigger] bindings_v(s@)[j], b@),
        decreases s@.len() - i,
    {
        if same_binding_exec(&s[i], b) {
            proof {
                assert(bindings_v(s@)[i as int] == s@[i as int]@);
            }
            return true;
        }
        proof {
            assert(bindings_v(s@)[i as int] == s@[i as int]@);
        }
        i = i + 1;
    }
    false
}

/// The first binding of `bs` from index `i` on for the metavariable `name`.
pub open spec fn binding_named(bs: Seq<BindingV>, name: MetavarNameV, i: int) -> Option<int>
    decreases bs.len() - i,
{
    if i < 0 || i >= bs.len() {
        None
    } else if bs[i].name == name {
        Some(i)
    } else {
        binding_named(bs, name, i + 1)
    }
}

proof fn lemma_binding_named_bounds(bs: Seq<BindingV>, name: MetavarNameV, i: int)
    ensures
        binding_named(bs, name, i) matches Some(k) ==> i <= k < bs.len() && bs[k].name == name,
    decreases bs.len() - i,
{
    if 0 <= i < bs.len() && bs[i].name != name {
        lemma_binding_named_bounds(bs, name, i + 1);
    }
}

/// The distinct bindings of the metavariable `name` in the first `k` lists
/// of `bss` (the first binding of it in each list), in the order met.
pub open spec fn collect_var(bss: Seq<Seq<BindingV>>, name: MetavarNameV, k: int) -> Seq<BindingV>
    decreases k,
{
    if k <= 0 || k > bss.len() {
        Seq::empty()
    } else {
        let prev = collect_var(bss, name, k - 1);
        match binding_named(bss[k - 1], name, 0) {
            Some(j) => if has_same(prev, bss[k - 1][j]) {
                prev
            } else {
                prev.push(bss[k - 1][j])
            },
            None => prev,
        }
    }
}

/// For each of the first `k` metavariables of `fvs` with some binding in
/// `bss`, its distinct bindings.
pub open spec fn filtered(fvs: Seq<MetaVarV>, bss: Seq<Seq<BindingV>>, k: int) -> Seq<Seq<BindingV>>
    decreases k,
{
    if k <= 0 || k > fvs.len() {
        Seq::empty()
    } else {
        let prev = filtered(fvs, bss, k - 1);
        let c = collect_var(bss, mv_name(fvs[k - 1]), bss.len() as int);
        if c.len() == 0 {
            prev
        } else {
            prev.push(c)
        }
    }
}

fn find_binding_named(bs: &Vec<MetavarBinding>, name: &MetavarName) -> (r: Option<usize>)
    ensures
        match binding_named(bindings_v(bs@), name@, 0) {
            Some(k) => r matches Some(x) && x as int == k,
            None => r is None,
        },
{
    let ghost bv = bindings_v(bs@);
    let mut i: usize = 0;
    while i < bs.len()
        invariant
            bv == bindings_v(bs@),
            i <= bs@.len(),
            binding_named(bv, name@, 0) == binding_named(bv, name@, i as int),
        decreases bs@.len() - i,
    {
        if str_eq(bs[i].metavarinfo.rulename.as_str(), name.rulename.as_str()) && str_eq(
            bs[i].metavarinfo.varname.as_str(),
            name.varname.as_str(),
        ) {
            return Some(i);
        }
        i = i + 1;
    }
    None
}

/// For each metavariable of `freevars` that some list of `bindings` binds,
/// the distinct bindings of it.
pub fn getfiltered(freevars: &Vec<MetaVar>, bindings: &Vec<Vec<MetavarBinding>>) -> (r: Vec<Vec<MetavarBinding>>)
    ensures
        binds_v(r@) == filtered(mvars_v(freevars@), binds_v(bindings@), freevars@.len() as int),
{
    let ghost fv = mvars_v(freevars@);
    let ghost bss = binds_v(bindings@);
    let mut toret: Vec<Vec<MetavarBinding>> = Vec::new();
    let mut v: usize = 0;
    proof {
        assert(binds_v(toret@) =~= Seq::<Seq<BindingV>>::empty());
    }
    while v < freevars.len()
        invariant
            v <= freevars@.len(),
            fv == mvars_v(freevars@),
            bss == binds_v(bindings@),
            binds_v(toret@) == filtered(fv, bss, v as int),
        decreases freevars@.len() - v,
    {
        let name = MetavarName {
            rulename: string_of(&rule_chars(&freevars[v])),
            varname: string_of(&name_chars(&freevars[v])),
        };
        proof {
            assert(fv[v as int] == freevars@[v as int]@);
            assert(name@ == mv_name(fv[v as int]));
        }
        let mut set: Vec<MetavarBinding> = Vec::new();
        let mut k: usize = 0;
        proof {
            assert(bindings_v(set@) =~= Seq::<BindingV>::empty());
        }
        while k < bindings.len()
            invariant
                k <= bindings@.len(),
                bss == binds_v(bindings@),
                bindings_v(set@) == collect_var(bss, name@, k as int),
            decreases bindings@.len() - k,
        {
            proof {
                assert(bss[k as int] == bindings_v(bindings@[k as int]@));
            }
            match find_binding_named(&bindings[k], &name) {
                Some(j) => {
                    proof {
                        lemma_binding_named_bounds(bss[k as int], name@, 0);
                        assert(bss[k as int][j as int] == bindings@[k as int]@[j as int]@);
                    }
                    if !has_same_exec(&set, &bindings[k][j]) {
                        let ghost before = bindings_v(set@);
                        let b = bindings[k][j].copy();
                        set.push(b);
                        proof {
                            assert(bindings_v(set@) =~= before.push(b@));
                        }
                    }
                },
                None => {},
            }
            k = k + 1;
        }
        if set.len() != 0 {
            let ghost before = binds_v(toret@);
            let ghost sv = bindings_v(set@);
            toret.push(set);
            proof {
                assert(binds_v(toret@) =~= before.push(sv));
            }
        }
        v = v + 1;
    }
    toret
}

/// The bindings of `bs` for metavariables named in `ua`.
pub open spec fn retained(bs: Seq<BindingV>, ua: Seq<MetavarNameV>) -> Seq<BindingV>
    decreases bs.len(),
{
    if bs.len() == 0 {
        Seq::empty()
    } else {
        let prev = retained(bs.drop_last(), ua);
        if ua.contains(bs.last().name) {
            prev.push(bs.last())
        } else {
            prev
        }
    }
}

/// Two lists of bindings are the same, binding by binding.
pub open spec fn same_list(a: Seq<BindingV>, b: Seq<BindingV>) -> bool {
    a.len() == b.len() && forall|i: int| 0 <= i < a.len() ==> same_binding(#[trigger] a[i], b[i])
}

/// The first `k` lists of `ls`, each kept only where no list before it is
/// the same.
pub open spec fn dedup_lists(ls: Seq<Seq<BindingV>>, k: int) -> Seq<Seq<BindingV>>
    decreases k,
{
    if k <= 0 || k > ls.len() {
        Seq::empty()
    } else {
        let prev = dedup_lists(ls, k - 1);
        if exists|j: int| 0 <= j < prev.len() && same_list(#[trigger] prev[j], ls[k - 1]) {
            prev
        } else {
            prev.push(ls[k - 1])
        }
    }
}

/// The lists `pbs` with only the bindings of metavariables that later rules
/// use, each list kept once.
pub open spec fn trimmed(pbs: Seq<Seq<BindingV>>, ua: Seq<MetavarNameV>) -> Seq<Seq<BindingV>> {
    dedup_lists(Seq::new(pbs.len(), |i: int| retained(pbs[i], ua)), pbs.len() as int)
}

fn names_have(ua: &Vec<MetavarName>, n: &MetavarName) -> (r: bool)
    ensures
        r == names_v(ua@).contains(n@),
{
    let mut i: usize = 0;
    while i < ua.len()
        invariant
            i <= ua@.len(),
            forall|j: int| 0 <= j < i ==> ua@[j]@ != n@,
        decreases ua@.len() - i,
    {
        if str_eq(ua[i].rulename.as_str(), n.rulename.as_str()) && str_eq(ua[i].varname.as_str(), n.varname.as_str()) {
            proof {
                assert(names_v(ua@)[i as int] == n@);
            }
            return true;
        }
        i = i + 1;
    }
    proof {
        if names_v(ua@).contains(n@) {
            let k = choose|k: int| 0 <= k < names_v(ua@).len() && names_v(ua@)[k] == n@;
            assert(ua@[k]@ == n@);
        }
    }
    false
}

fn same_list_exec(a: &Vec<MetavarBinding>, b: &Vec<MetavarBinding>) -> (r: bool)
    ensures
        r == same_list(bindings_v(a@), bindings_v(b@)),
{
    if a.len() != b.len() {
        return false;
    }
    let mut i: usize = 0;
    while i < a.len()
        invariant
            i <= a@.len(),
            a@.len() == b@.len(),
            forall|j: int| 0 <= j < i ==> same_binding(#[trigger] bindings_v(a@)[j], bindings_v(b@)[j]),
        decreases a@.len() - i,
    {
        proof {
            assert(bindings_v(a@)[i as int] == a@[i as int]@);
            assert(bindings_v(b@)[i as int] == b@[i as int]@);
        }
        if !same_binding_exec(&a[i], &b[i]) {
            return false;
        }
        i = i + 1;
    }
    true
}

/// Keeps in each list only the bindings of metavariables that later rules
/// use, then keeps each list once.
pub fn trimpatchbindings(patchbindings: &mut Vec<Vec<MetavarBinding>>, usedafter: &Vec<MetavarName>)
    ensures
        binds_v(final(patchbindings)@) == trimmed(binds_v(old(patchbindings)@), names_v(usedafter@)),
{
    let ghost p0 = binds_v(patchbindings@);
    let ghost ua = names_v(usedafter@);
    let ghost rl = Seq::new(p0.len(), |i: int| retained(p0[i], ua));
    let mut out: Vec<Vec<MetavarBinding>> = Vec::new();
    let mut i: usize = 0;
    proof {
        assert(binds_v(out@) =~= Seq::<Seq<BindingV>>::empty());
    }
    while i < patchbindings.len()
        invariant
            i <= patchbindings@.len(),
            p0 == binds_v(patchbindings@),
            ua == names_v(usedafter@),
            rl == Seq::new(p0.len(), |i: int| retained(p0[i], ua)),
            binds_v(out@) == dedup_lists(rl, i as int),
        decreases patchbindings@.len() - i,
    {
        let src = &patchbindings[i];
        let ghost sv = bindings_v(src@);
        proof {
            assert(p0[i as int] == sv);
        }
        let mut kept: Vec<MetavarBinding> = Vec::new();
        let mut k: usize = 0;
        proof {
            assert(sv.take(0) =~= Seq::<BindingV>::empty());
            assert(bindings_v(kept@) =~= Seq::<BindingV>::empty());
        }
        while k < src.len()
            invariant
                k <= src@.len(),
                sv == bindings_v(src@),
                ua == names_v(usedafter@),
                bindings_v(kept@) == retained(sv.take(k as int), ua),
            decreases src@.len() - k,
        {
            proof {
                assert(sv.take(k + 1).drop_last() =~= sv.take(k as int));
                assert(sv.take(k + 1).last() == src@[k as int]@);
            }
            if names_have(usedafter, &src[k].metavarinfo) {
                let ghost before = bindings_v(kept@);
                let b = src[k].copy();
                kept.push(b);
                proof {
                    assert(bindings_v(kept@) =~= before.push(b@));
                }
            }
            k = k + 1;
        }
        proof {
            assert(sv.take(src@.len() as int) =~= sv);
            assert(bindings_v(kept@) == rl[i as int]);
        }
        let ghost ov = binds_v(out@);
        let mut dup = false;
        let mut j: usize = 0;
        while j < out.len()
            invariant_except_break
                !dup,
                forall|q: int| 0 <= q < j ==> !same_list(#[trigger] ov[q], bindings_v(kept@)),
            invariant
                j <= out@.len(),
                ov == binds_v(out@),
            ensures
                dup ==> exists|q: int| 0 <= q < ov.len() && same_list(#[trigger] ov[q], bindings_v(kept@)),
                !dup ==> forall|q: int| 0 <= q < ov.len() ==> !same_list(#[trigger] ov[q], bindings_v(kept@)),
            decreases out@.len() - j,
        {
            proof {
                assert(ov[j as int] == bindings_v(out@[j as int]@));
            }
            if same_list_exec(&out[j], &kept) {
                dup = true;
                break;
            }
            j = j + 1;
        }
        proof {
            assert(rl[i as int] == bindings_v(kept@));
            assert(dedup_lists(rl, i + 1) == (if exists|q: int| 0 <= q < ov.len() && same_list(#[trigger] ov[q], rl[i as int]) {
                ov
            } else {
                ov.push(rl[i as int])
            }));
        }
        if !dup {
            let ghost kv = bindings_v(kept@);
            out.push(kept);
            proof {
                assert(binds_v(out@) =~= ov.push(kv));
            }
        }
        i = i + 1;
    }
    *patchbindings = out;
}

// ---------------------------------------------------------------------
// Applying the rules

/// The tree `code` with the first `k` matches of `envs` applied one after
/// another; `None` when one of them adds code naming an unbound
/// metavariable.
pub open spec fn apply_envs(code: RnodeV, envs: Seq<EnvV>, k: int) -> Option<RnodeV>
    decreases k,
{
    if k <= 0 || k > envs.len() {
        Some(code)
    } else {
        match apply_envs(code, envs, k - 1) {
            None => None,
            Some(c) => transformed(c, envs[k - 1]),
        }
    }
}

/// The bindings of `bs` made by the rule named `rule`.
pub open spec fn own_bindings(bs: Seq<BindingV>, rule: Seq<char>) -> Seq<BindingV>
    decreases bs.len(),
{
    if bs.len() == 0 {
        Seq::empty()
    } else {
        let prev = own_bindings(bs.drop_last(), rule);
        if bs.last().name.rulename == rule {
            prev.push(bs.last())
        } else {
            prev
        }
    }
}

/// The own bindings of each match of `envs`.
pub open spec fn own_lists(envs: Seq<EnvV>, rule: Seq<char>) -> Seq<Seq<BindingV>> {
    Seq::new(envs.len(), |i: int| own_bindings(envs[i].bindings, rule))
}

/// The rule with alternatives `alts` run once for each of the first `k`
/// lists of inherited bindings `gbs`: each run matches the code as the
/// runs before it left it, and applies all its matches.  The code, and the
/// own bindings of every match; `None` as for `apply_envs`.
pub open spec fn run_inherited(
    alts: Seq<Seq<SnodeV>>,
    code: RnodeV,
    gbs: Seq<Seq<BindingV>>,
    rule: Seq<char>,
    k: int,
) -> Option<(RnodeV, Seq<Seq<BindingV>>)>
    decreases k,
{
    if k <= 0 || k > gbs.len() {
        Some((code, Seq::empty()))
    } else {
        match run_inherited(alts, code, gbs, rule, k - 1) {
            None => None,
            Some((c, tmp)) => {
                let envs = visit_envs(alts, c, gbs[k - 1]);
                match apply_envs(c, envs, envs.len() as int) {
                    None => None,
                    Some(c2) => Some((c2, tmp + own_lists(envs, rule))),
                }
            },
        }
    }
}

/// The alternatives of the `-` code of a rule: its statement list with
/// the disjunctions expanded.
pub open spec fn rule_alts(minus: SnodeV) -> Option<Seq<Seq<SnodeV>>> {
    match stmtlist_of(minus) {
        None => None,
        Some(sl) => expand_disjs(seq![sl.children], expand_fuel_bound(), 1),
    }
}

/// One rule applied to `code` with the bindings `saved` of the rules
/// before it: the code reparsed, and the bindings kept for later rules.
#[verifier::opaque]
pub open spec fn rule_applied(code: RnodeV, saved: Seq<Seq<BindingV>>, r: RuleV) -> Result<
    (RnodeV, Seq<Seq<BindingV>>),
    ParseErrorV,
> {
    match rule_alts(r.minus) {
        None => Err(ParseErrorV::RuleError(r.name, "the rule has no code or a malformed disjunction"@, rnode_unformatted(code))),
        Some(alts) => {
            let gbs = expanded(filtered(r.freevars, saved, r.freevars.len() as int));
            match run_inherited(alts, code, gbs, r.name, gbs.len() as int) {
                None => Err(ParseErrorV::RuleError(r.name, "added code uses an unbound metavariable"@, rnode_unformatted(code))),
                Some((c, tmp)) => {
                    let text = rnode_unformatted(c);
                    match rs_parse(text) {
                        Ok(n) => Ok((n, trimmed(saved + tmp, r.usedafter))),
                        Err(m) => Err(ParseErrorV::RuleError(r.name, m, text)),
                    }
                },
            }
        },
    }
}

/// The first `k` rules of `rs` applied in turn to `code`, starting with a
/// single empty list of bindings.
pub open spec fn rules_applied(rs: Seq<RuleV>, code: RnodeV, k: int) -> Result<(RnodeV, Seq<Seq<BindingV>>), ParseErrorV>
    decreases k,
{
    if k <= 0 || k > rs.len() {
        Ok((code, seq![Seq::empty()]))
    } else {
        match rules_applied(rs, code, k - 1) {
            Err(e) => Err(e),
            Ok((c, saved)) => rule_applied(c, saved, rs[k - 1]),
        }
    }
}

fn own_of(bs: &Vec<MetavarBinding>, rule: &String) -> (r: Vec<MetavarBinding>)
    ensures
        bindings_v(r@) == own_bindings(bindings_v(bs@), rule@),
{
    let ghost bv = bindings_v(bs@);
    let mut r: Vec<MetavarBinding> = Vec::new();
    let mut i: usize = 0;
    proof {
        assert(bv.take(0) =~= Seq::<BindingV>::empty());
        assert(bindings_v(r@) =~= Seq::<BindingV>::empty());
    }
    while i < bs.len()
        invariant
            i <= bs@.len(),
            bv == bindings_v(bs@),
            bindings_v(r@) == own_bindings(bv.take(i as int), rule@),
        decreases bs@.len() - i,
    {
        proof {
            assert(bv.take(i + 1).drop_last() =~= bv.take(i as int));
            assert(bv.take(i + 1).last() == bs@[i as int]@);
        }
        if str_eq(bs[i].metavarinfo.rulename.as_str(), rule.as_str()) {
            let ghost before = bindings_v(r@);
            let b = bs[i].copy();
            r.push(b);
            proof {
                assert(bindings_v(r@) =~= before.push(b@));
            }
        }
        i = i + 1;
    }
    proof {
        assert(bv.take(bs@.len() as int) =~= bv);
    }
    r
}

/// The alternatives of the `-` code of `rule`.
fn rule_disjunction(rule: &Rule) -> (r: Option<Disjunction>)
    ensures
        match rule_alts(rule@.minus) {
            Some(alts) => r matches Some(d) && d@ == alts,
            None => r is None,
        },
{
    let sl = match getstmtlist(&rule.patch.minus) {
        Some(sl) => sl,
        None => {
            return None;
        },
    };
    let children = copy_snodes(&sl.children);
    let d = Disjunction(vec![children]);
    proof {
        assert(d@ =~= seq![sl@.children]);
    }
    getdisjunctions(d)
}

/// Matches the alternatives `a` against `code` starting from the inherited
/// bindings `gb`, and applies every match in turn; the own bindings of the
/// rule named `name` in each match, or `None` as for `apply_envs`.
fn run_one(a: &Disjunction, code: &mut Rnode, gb: &Vec<MetavarBinding>, name: &String, looper: &Looper) -> (r: Option<
    Vec<Vec<MetavarBinding>>,
>)
    ensures
        ({
            let envs = visit_envs(a@, old(code)@, bindings_v(gb@));
            match apply_envs(old(code)@, envs, envs.len() as int) {
                None => r is None,
                Some(c2) => r matches Some(t) && final(code)@ == c2 && binds_v(t@) == own_lists(envs, name@),
            }
        }),
{
    proof {
        assert(branches_v(a.0@) =~= a@);
    }
    let envs = visitrnode(&a.0, code, looper, gb);
    let ghost ev = envs_v(envs@);
    let ghost cg = code@;
    let mut tmp: Vec<Vec<MetavarBinding>> = Vec::new();
    let mut e: usize = 0;
    proof {
        assert(binds_v(tmp@) =~= own_lists(ev.take(0), name@));
    }
    while e < envs.len()
        invariant
            e <= envs@.len(),
            ev == envs_v(envs@),
            cg == old(code)@,
            ev == visit_envs(a@, cg, bindings_v(gb@)),
            apply_envs(cg, ev, e as int) == Some(code@),
            binds_v(tmp@) == own_lists(ev.take(e as int), name@),
        decreases envs@.len() - e,
    {
        proof {
            assert(ev[e as int] == envs@[e as int]@);
        }
        let ghost cur = code@;
        if !transform(code, &envs[e]) {
            proof {
                assert(transformed(cur, ev[e as int]) is None);
                assert(apply_envs(cg, ev, e + 1) is None);
                lemma_apply_envs_none_stays(cg, ev, e + 1, ev.len() as int);
            }
            return None;
        }
        let own = own_of(&envs[e].bindings, name);
        let ghost t1 = binds_v(tmp@);
        let ghost ov = bindings_v(own@);
        tmp.push(own);
        proof {
            assert(binds_v(tmp@) =~= t1.push(ov));
            assert(own_lists(ev.take(e + 1), name@) =~= own_lists(ev.take(e as int), name@).push(ov));
        }
        e = e + 1;
    }
    proof {
        assert(ev.take(ev.len() as int) =~= ev);
    }
    Some(tmp)
}

/// Runs the rule with alternatives `a` once for each list of inherited
/// bindings of `gbs`, as `run_inherited` says.
fn run_all(a: &Disjunction, code: Rnode, gbs: &Vec<Vec<MetavarBinding>>, name: &String) -> (r: Option<
    (Rnode, Vec<Vec<MetavarBinding>>),
>)
    ensures
        match run_inherited(a@, code@, binds_v(gbs@), name@, gbs@.len() as int) {
            None => r is None,
            Some((c, t)) => r matches Some((n, tv)) && n@ == c && binds_v(tv@) == t,
        },
{
    let ghost c0 = code@;
    let ghost gv = binds_v(gbs@);
    let looper = Looper::new();
    let mut cur = code;
    let mut tmp: Vec<Vec<MetavarBinding>> = Vec::new();
    let mut g: usize = 0;
    proof {
        assert(binds_v(tmp@) =~= Seq::<Seq<BindingV>>::empty());
    }
    while g < gbs.len()
        invariant
            g <= gbs@.len(),
            gv == binds_v(gbs@),
            c0 == code@,
            run_inherited(a@, c0, gv, name@, g as int) == Some((cur@, binds_v(tmp@))),
        decreases gbs@.len() - g,
    {
        proof {
            assert(gv[g as int] == bindings_v(gbs@[g as int]@));
        }
        let ghost t0 = binds_v(tmp@);
        let ghost cg = cur@;
        match run_one(a, &mut cur, &gbs[g], name, &looper) {
            None => {
                proof {
                    let envs = visit_envs(a@, cg, gv[g as int]);
                    assert(apply_envs(cg, envs, envs.len() as int) is None);
                    assert(run_inherited(a@, c0, gv, name@, g + 1) is None);
                    assert(gv.len() == gbs@.len());
                    lemma_run_inherited_none_stays(a@, c0, gv, name@, g + 1, gv.len() as int);
                    assert(run_inherited(a@, c0, binds_v(gbs@), name@, gbs@.len() as int) is None);
                }
                return None;
            },
            Some(t) => {
                let ghost tv = binds_v(t@);
                let mut t = t;
                tmp.append(&mut t);
                proof {
                    assert(binds_v(tmp@) =~= t0 + tv);
                }
            },
        }
        g = g + 1;
    }
    Some((cur, tmp))
}

/// Applies one rule to `code`, with `saved` the bindings of the rules
/// before it, which become the bindings kept for the rules after it.
fn apply_rule(rule: &Rule, code: Rnode, saved: &mut Vec<Vec<MetavarBinding>>) -> (r: Result<Rnode, ParseError>)
    ensures
        match rule_applied(code@, binds_v(old(saved)@), rule@) {
            Ok((c, s)) => r matches Ok(n) && n@ == c && binds_v(final(saved)@) == s,
            Err(e) => r matches Err(x) && x@ == e,
        },
{
    let ghost s0 = binds_v(saved@);
    let ghost rv = rule@;
    proof {
        reveal(rule_applied);
    }
    let before = code.getunformatted();
    let a = match rule_disjunction(rule) {
        Some(a) => a,
        None => {
            return Err(ParseError::RULEERROR(
                rule.name.clone(),
                string_from("the rule has no code or a malformed disjunction"),
                before,
            ));
        },
    };
    let filtered_bindings = getfiltered(&rule.freevars, saved);
    let expandedbindings = getexpandedbindings(filtered_bindings);
    let (code, tmp) = match run_all(&a, code, &expandedbindings, &rule.name) {
        Some(p) => p,
        None => {
            return Err(ParseError::RULEERROR(
                rule.name.clone(),
                string_from("added code uses an unbound metavariable"),
                before,
            ));
        },
    };
    let ghost tv = binds_v(tmp@);
    let ghost sv = binds_v(saved@);
    let mut tmp = tmp;
    saved.append(&mut tmp);
    proof {
        assert(binds_v(saved@) =~= sv + tv);
        assert(names_v(rule.usedafter@) =~= rv.usedafter);
    }
    trimpatchbindings(saved, &rule.usedafter);
    let text = code.getunformatted();
    match processrs(text.as_str()) {
        Ok(n) => Ok(n),
        Err(errors) => Err(ParseError::RULEERROR(rule.name.clone(), errors, text)),
    }
}

proof fn lemma_apply_envs_none_stays(code: RnodeV, envs: Seq<EnvV>, k: int, n: int)
    requires
        0 < k <= n <= envs.len(),
        apply_envs(code, envs, k) is None,
    ensures
        apply_envs(code, envs, n) is None,
    decreases n - k,
{
    if k < n {
        lemma_apply_envs_none_stays(code, envs, k, n - 1);
    }
}

proof fn lemma_run_inherited_none_stays(
    alts: Seq<Seq<SnodeV>>,
    code: RnodeV,
    gbs: Seq<Seq<BindingV>>,
    rule: Seq<char>,
    k: int,
    n: int,
)
    requires
        0 < k <= n <= gbs.len(),
        run_inherited(alts, code, gbs, rule, k) is None,
    ensures
        run_inherited(alts, code, gbs, rule, n) is None,
    decreases n - k,
{
    if k < n {
        lemma_run_inherited_none_stays(alts, code, gbs, rule, k, n - 1);
    }
}

/// Applies the rules in turn to the parsed code `rnode`; the code after
/// each rule is printed and parsed again.  A `RULEERROR` names the rule
/// whose code could not be applied or whose result does not parse.
pub fn transformrnode(rules: &Vec<Rule>, rnode: Rnode) -> (r: Result<Rnode, ParseError>)
    ensures
        match rules_applied(rules_v(rules@), rnode@, rules@.len() as int) {
            Ok((c, _)) => r matches Ok(n) && n@ == c,
            Err(e) => r matches Err(x) && x@ == e,
        },
{
    let ghost rs = rules_v(rules@);
    let ghost c0 = rnode@;
    let mut transformedcode = rnode;
    let mut savedbindings: Vec<Vec<MetavarBinding>> = Vec::new();
    let first: Vec<MetavarBinding> = Vec::new();
    proof {
        assert(bindings_v(first@) =~= Seq::<BindingV>::empty());
    }
    savedbindings.push(first);
    proof {
        assert(binds_v(savedbindings@) =~= seq![Seq::<BindingV>::empty()]);
    }
    let mut i: usize = 0;
    while i < rules.len()
        invariant
            i <= rules@.len(),
            rs == rules_v(rules@),
            c0 == rnode@,
            rules_applied(rs, c0, i as int) == Ok::<(RnodeV, Seq<Seq<BindingV>>), ParseErrorV>(
                (transformedcode@, binds_v(savedbindings@)),
            ),
        decreases rules@.len() - i,
    {
        proof {
            assert(rs[i as int] == rules@[i as int]@);
        }
        let ghost cb = transformedcode@;
        let ghost sb = binds_v(savedbindings@);
        proof {
            assert(rules_applied(rs, c0, i + 1) == rule_applied(cb, sb, rs[i as int]));
        }
        transformedcode = match apply_rule(&rules[i], transformedcode, &mut savedbindings) {
            Ok(n) => n,
            Err(e) => {
                proof {
                    assert(rs.len() == rules@.len());
                    lemma_rules_err_stays(rs, c0, i + 1, rs.len() as int);
                    assert(rules_applied(rules_v(rules@), c0, rules@.len() as int) == rule_applied(cb, sb, rs[i as int]));
                }
                return Err(e);
            },
        };
        i = i + 1;
    }
    Ok(transformedcode)
}

proof fn lemma_rules_err_stays(rs: Seq<RuleV>, code: RnodeV, k: int, n: int)
    requires
        0 < k <= n <= rs.len(),
        rules_applied(rs, code, k) is Err,
    ensures
        rules_applied(rs, code, n) == rules_applied(rs, code, k),
    decreases n - k,
{
    if k < n {
        lemma_rules_err_stays(rs, code, k, n - 1);
    }
}

/// Parses the Rust code `rustcode` and applies the rules to it; a
/// `TARGETERROR` when the code does not parse.
pub fn transformfile(rules: &Vec<Rule>, rustcode: String) -> (r: Result<Rnode, ParseError>)
    ensures
        match rs_parse(rustcode@) {
            Err(m) => r matches Err(x) && x@ == ParseErrorV::TargetError(m, rustcode@),
            Ok(t) => match rules_applied(rules_v(rules@), t, rules@.len() as int) {
                Ok((c, _)) => r matches Ok(n) && n@ == c,
                Err(e) => r matches Err(x) && x@ == e,
            },
        },
{
    let transformedcode = match processrs(rustcode.as_str()) {
        Ok(node) => node,
        Err(errors) => {
            return Err(ParseError::TARGETERROR(errors, rustcode));
        },
    };
    transformrnode(rules, transformedcode)
}

// ---------------------------------------------------------------------
// Laws

/// A match that neither removes nor adds code leaves the tree as it is.
pub proof fn law_transform_without_modifiers(x: RnodeV, env: EnvV)
    requires
        env.minuses.len() == 0,
        env.pluses.len() == 0,
    ensures
        transformed(x, env) == Some(x),
{
}

proof fn lemma_minuses_mark(x: RnodeV, ms: Seq<(usize, usize)>, k: int, j: int)
    requires
        0 <= j < k <= ms.len(),
        covers(pos_of(x), ms[j]),
    ensures
        apply_minuses(x, ms, k).0.wrapper.isremoved,
    decreases k,
{
    if j < k - 1 {
        lemma_minuses_mark(x, ms, k - 1, j);
    }
}

proof fn lemma_pluses_keep_removed(x: RnodeV, ps: Seq<(usize, bool, Seq<SnodeV>)>, bs: Seq<BindingV>, k: int)
    requires
        x.wrapper.isremoved,
        apply_pluses(x, ps, bs, k) is Some,
    ensures
        apply_pluses(x, ps, bs, k) matches Some((z, _)) && z.wrapper.isremoved,
    decreases k,
{
    if 0 < k <= ps.len() {
        lemma_pluses_keep_removed(x, ps, bs, k - 1);
    }
}

/// A node that lies within code that a match removes is marked removed.
pub proof fn law_covered_is_removed(x: RnodeV, env: EnvV, j: int)
    requires
        0 <= j < env.minuses.len(),
        covers(pos_of(x), env.minuses[j]),
        transformed(x, env) is Some,
    ensures
        transformed(x, env)->0.wrapper.isremoved,
{
    let (y, d1) = apply_minuses(x, env.minuses, env.minuses.len() as int);
    lemma_minuses_mark(x, env.minuses, env.minuses.len() as int, j);
    lemma_apply_minuses_keeps(x, env.minuses, env.minuses.len() as int);
    assert(pos_of(y) == pos_of(x));
    assert(apply_pluses(y, env.pluses, env.bindings, env.pluses.len() as int) is Some);
    lemma_pluses_keep_removed(y, env.pluses, env.bindings, env.pluses.len() as int);
}

/// Without rules, the code comes back as it was parsed, with the single
/// empty list of bindings.
pub proof fn law_no_rules(rs: Seq<RuleV>, code: RnodeV)
    requires
        rs.len() == 0,
    ensures
        rules_applied(rs, code, rs.len() as int) == Ok::<(RnodeV, Seq<Seq<BindingV>>), ParseErrorV>(
            (code, seq![Seq::<BindingV>::empty()]),
        ),
{
}

proof fn lemma_dedup_distinct(ls: Seq<Seq<BindingV>>, k: int)
    ensures
        forall|a: int, b: int|
            0 <= a < b < dedup_lists(ls, k).len() ==> !same_list(
                #[trigger] dedup_lists(ls, k)[a],
                #[trigger] dedup_lists(ls, k)[b],
            ),
    decreases k,
{
    if 0 < k <= ls.len() {
        lemma_dedup_distinct(ls, k - 1);
        let prev = dedup_lists(ls, k - 1);
        if !(exists|j: int| 0 <= j < prev.len() && same_list(#[trigger] prev[j], ls[k - 1])) {
            let cur = prev.push(ls[k - 1]);
            assert forall|a: int, b: int| 0 <= a < b < cur.len() implies !same_list(
                #[trigger] cur[a],
                #[trigger] cur[b],
            ) by {
                if b == cur.len() - 1 {
                    assert(cur[b] == ls[k - 1]);
                    assert(cur[a] == prev[a]);
                } else {
                    assert(cur[a] == prev[a]);
                    assert(cur[b] == prev[b]);
                }
            }
        }
    }
}

/// After trimming, no two lists of bindings are the same.
pub proof fn law_trimmed_distinct(pbs: Seq<Seq<BindingV>>, ua: Seq<MetavarNameV>)
    ensures
        forall|a: int, b: int|
            0 <= a < b < trimmed(pbs, ua).len() ==> !same_list(
                #[trigger] trimmed(pbs, ua)[a],
                #[trigger] trimmed(pbs, ua)[b],
            ),
{
    lemma_dedup_distinct(Seq::new(pbs.len(), |i: int| retained(pbs[i], ua)), pbs.len() as int);
}

/// The product of the lengths of the lists of `bs`.
pub open spec fn product_of_lens(bs: Seq<Seq<BindingV>>) -> nat
    decreases bs.len(),
{
    if bs.len() == 0 {
        1
    } else {
        product_of_lens(bs.drop_last()) * bs.last().len()
    }
}

proof fn lemma_with_each_len(ob: Seq<Seq<BindingV>>, tm: Seq<BindingV>, k: int)
    requires
        0 <= k <= tm.len(),
    ensures
        with_each(ob, tm, k).len() == ob.len() * k,
    decreases k,
{
    if k > 0 {
        lemma_with_each_len(ob, tm, k - 1);
        let n = ob.len() as int;
        assert(n * k == n * (k - 1) + n) by (nonlinear_arith);
        assert(with_each(ob, tm, k).len() == with_each(ob, tm, k - 1).len() + n);
    } else {
        let n = ob.len() as int;
        assert(n * 0 == 0) by (nonlinear_arith);
    }
}

/// There are as many combinations of bindings as the product of the
/// numbers of bindings in each list.
pub proof fn law_expanded_count(bs: Seq<Seq<BindingV>>)
    ensures
        expanded(bs).len() == product_of_lens(bs),
    decreases bs.len(),
{
    if bs.len() > 0 {
        law_expanded_count(bs.drop_last());
        lemma_with_each_len(expanded(bs.drop_last()), bs.last(), bs.last().len() as int);
    }
}

/// Each list of distinct bindings that filtering keeps holds at least one
/// binding.
pub proof fn law_filtered_nonempty(fvs: Seq<MetaVarV>, bss: Seq<Seq<BindingV>>, k: int)
    ensures
        forall|i: int| 0 <= i < filtered(fvs, bss, k).len() ==> #[trigger] filtered(fvs, bss, k)[i].len() > 0,
    decreases k,
{
    if 0 < k <= fvs.len() {
        law_filtered_nonempty(fvs, bss, k - 1);
        let prev = filtered(fvs, bss, k - 1);
        let c = collect_var(bss, mv_name(fvs[k - 1]), bss.len() as int);
        if c.len() != 0 {
            assert forall|i: int| 0 <= i < prev.push(c).len() implies #[trigger] prev.push(c)[i].len() > 0 by {
                if i < prev.len() {
                    assert(prev.push(c)[i] == prev[i]);
                }
            }
        }
    }
}

} // verus!
