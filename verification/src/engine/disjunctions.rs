//! Expanding the disjunctions of a rule: each disjunction is replaced by one
//! of its branches, in every combination, giving the list of alternative
//! node sequences that the matcher tries.
use vstd::prelude::*;
use crate::commons::util::{
    attachback, attachfront, attached_back, attached_front, back_attachable, first_leaf_mcode, front_attachable,
    last_leaf_mcode,
};
use crate::parsing_cocci::ast0::{
    can_attach, copy_snodes, Mcodekind, disj_branches, disj_wf, pluses_of, snodes_v, Pluses, Snode, SnodeV,
};
use crate::parsing_cocci::parse_cocci::front_attached;

verus! {

/// Alternative sequences of nodes.
pub struct Disjunction(pub Vec<Vec<Snode>>);

/// The models of the alternatives of a disjunction.
pub open spec fn alts_v(v: Seq<Vec<Snode>>) -> Seq<Seq<SnodeV>> {
    Seq::new(v.len(), |i: int| snodes_v(v[i]))
}

impl View for Disjunction {
    type V = Seq<Seq<SnodeV>>;

    open spec fn view(&self) -> Seq<Seq<SnodeV>> {
        alts_v(self.0@)
    }
}

/// `n` with `p` attached after its last token; `None` when `p` is not
/// empty and that token cannot carry code.
pub open spec fn back_attached(n: SnodeV, p: Seq<SnodeV>) -> Option<SnodeV> {
    if p.len() == 0 {
        Some(n)
    } else if can_attach(last_leaf_mcode(n)) {
        Some(attached_back(n, p))
    } else {
        None
    }
}

/// An alternative with the code attached around a disjunction attached
/// before its first node and after its last one; `None` for an empty
/// alternative, or where the code cannot be attached.
pub open spec fn alt_attached(b: Seq<SnodeV>, p: (Seq<SnodeV>, Seq<SnodeV>)) -> Option<Seq<SnodeV>> {
    if b.len() == 0 {
        None
    } else {
        match front_attached(b[0], p.0) {
            None => None,
            Some(f) => {
                let b1 = b.update(0, f);
                match back_attached(b1.last(), p.1) {
                    None => None,
                    Some(l) => Some(b1.update(b1.len() - 1, l)),
                }
            },
        }
    }
}

/// The alternatives `alts` from index `k` on with the code `p` attached.
pub open spec fn alts_attached(alts: Seq<Seq<SnodeV>>, p: (Seq<SnodeV>, Seq<SnodeV>), k: int) -> Option<
    Seq<Seq<SnodeV>>,
>
    decreases k,
{
    if k <= 0 || k > alts.len() {
        Some(Seq::empty())
    } else {
        match alts_attached(alts, p, k - 1) {
            None => None,
            Some(prev) => match alt_attached(alts[k - 1], p) {
                None => None,
                Some(a) => Some(prev.push(a)),
            },
        }
    }
}

/// Each of `vs` followed by each of `es`, in that order.
pub open spec fn cross(vs: Seq<Seq<SnodeV>>, es: Seq<Seq<SnodeV>>, k: int) -> Seq<Seq<SnodeV>>
    decreases k,
{
    if k <= 0 || k > vs.len() {
        Seq::empty()
    } else {
        cross(vs, es, k - 1) + Seq::new(es.len(), |j: int| vs[k - 1] + es[j])
    }
}

/// Each of `vs` followed by `node` with each of `cs` as its children.
pub open spec fn cross_node(vs: Seq<Seq<SnodeV>>, node: SnodeV, cs: Seq<Seq<SnodeV>>, k: int) -> Seq<Seq<SnodeV>>
    decreases k,
{
    if k <= 0 || k > vs.len() {
        Seq::empty()
    } else {
        cross_node(vs, node, cs, k - 1) + Seq::new(
            cs.len(),
            |j: int| vs[k - 1].push(SnodeV { children: cs[j], ..node }),
        )
    }
}

/// The branches of a disjunction node, each as its list of nodes.
pub open spec fn branch_lists(n: SnodeV) -> Seq<Seq<SnodeV>> {
    Seq::new(disj_branches(n).len(), |i: int| disj_branches(n)[i].children)
}

/// The expansions of the alternatives `ds`: each alternative gives the node
/// sequences with each disjunction in it replaced by one of its branches
/// (with the code attached around the disjunction), in every combination;
/// `None` where a disjunction is malformed or its code cannot be attached,
/// or the nesting exceeds `fuel`.
pub open spec fn expand_disjs(ds: Seq<Seq<SnodeV>>, fuel: nat, k: int) -> Option<Seq<Seq<SnodeV>>>
    decreases fuel, 1int, k,
{
    if k <= 0 || k > ds.len() {
        Some(Seq::empty())
    } else {
        match expand_disjs(ds, fuel, k - 1) {
            None => None,
            Some(prev) => match expand_alt(ds[k - 1], fuel, ds[k - 1].len() as int) {
                None => None,
                Some(e) => Some(prev + e),
            },
        }
    }
}

/// The expansions of the first `k` nodes of the alternative `d`.
pub open spec fn expand_alt(d: Seq<SnodeV>, fuel: nat, k: int) -> Option<Seq<Seq<SnodeV>>>
    decreases fuel, 0int, k,
{
    if k <= 0 || k > d.len() {
        Some(seq![Seq::empty()])
    } else {
        match expand_alt(d, fuel, k - 1) {
            None => None,
            Some(prev) => {
                let node = d[k - 1];
                if node.wrapper.isdisj {
                    if !disj_wf(node) || !can_attach(node.wrapper.mcodekind) || fuel == 0 {
                        None
                    } else {
                        match alts_attached(
                            branch_lists(node),
                            pluses_of(node.wrapper.mcodekind),
                            branch_lists(node).len() as int,
                        ) {
                            None => None,
                            Some(bs) => match expand_disjs(bs, (fuel - 1) as nat, bs.len() as int) {
                                None => None,
                                Some(ex) => Some(cross(prev, ex, prev.len() as int)),
                            },
                        }
                    }
                } else if node.children.len() == 0 {
                    Some(Seq::new(prev.len(), |j: int| prev[j].push(node)))
                } else if fuel == 0 {
                    None
                } else {
                    match expand_disjs(seq![node.children], (fuel - 1) as nat, 1) {
                        None => None,
                        Some(cs) => Some(cross_node(prev, node, cs, prev.len() as int)),
                    }
                }
            },
        }
    }
}

proof fn lemma_alts_none_stays(alts: Seq<Seq<SnodeV>>, p: (Seq<SnodeV>, Seq<SnodeV>), k: int, n: int)
    requires
        0 <= k <= n <= alts.len(),
        alts_attached(alts, p, k) is None,
    ensures
        alts_attached(alts, p, n) is None,
    decreases n - k,
{
    if k < n {
        lemma_alts_none_stays(alts, p, k, n - 1);
    }
}

impl Disjunction {
    pub fn new() -> (r: Disjunction)
        ensures
            r@ == Seq::<Seq<SnodeV>>::empty(),
    {
        let r = Disjunction(Vec::new());
        proof {
            assert(r@ =~= Seq::<Seq<SnodeV>>::empty());
        }
        r
    }

    /// Attaches `pluses` before the first node and after the last node of
    /// each alternative; `false` (with the alternatives partly changed) where
    /// an alternative is empty or the code cannot be attached.
    pub fn attachpluses(&mut self, pluses: Pluses) -> (r: bool)
        ensures
            r == (alts_attached(old(self)@, (snodes_v(pluses.0), snodes_v(pluses.1)), old(self)@.len() as int) is Some),
            r ==> final(self)@ == alts_attached(
                old(self)@,
                (snodes_v(pluses.0), snodes_v(pluses.1)),
                old(self)@.len() as int,
            )->0,
    {
        let ghost p = (snodes_v(pluses.0), snodes_v(pluses.1));
        let ghost a0 = self@;
        let mut rest: Vec<Vec<Snode>> = Vec::new();
        std::mem::swap(&mut rest, &mut self.0);
        let ghost r0 = rest@;
        let mut done: Vec<Vec<Snode>> = Vec::new();
        let mut i: usize = 0;
        proof {
            assert(r0.len() == rest.len());
            assert(rest@ =~= r0.subrange(0, r0.len() as int));
            assert(alts_v(done@) =~= Seq::<Seq<SnodeV>>::empty());
        }
        while rest.len() > 0
            invariant
                a0 == alts_v(r0),
                a0 == old(self)@,
                i <= r0.len(),
                r0.len() <= usize::MAX,
                rest@ == r0.subrange(i as int, r0.len() as int),
                p == (snodes_v(pluses.0), snodes_v(pluses.1)),
                alts_attached(a0, p, i as int) == Some(alts_v(done@)),
            decreases rest@.len(),
        {
            let mut alt = rest.remove(0);
            proof {
                assert(alt == r0[i as int]);
                assert(a0[i as int] == snodes_v(alt));
            }
            if alt.len() == 0 {
                proof {
                    assert(alts_attached(a0, p, i + 1) is None);
                    lemma_alts_none_stays(a0, p, i + 1, a0.len() as int);
                }
                return false;
            }
            let ghost av = snodes_v(alt);
            proof {
                assert(av[0] == alt@[0]@);
            }
            let front = copy_snodes(&pluses.0);
            if front.len() != 0 {
                if !front_attachable(&alt[0]) {
                    proof {
                        assert(snodes_v(front).len() == front@.len());
                        assert(alt_attached(a0[i as int], p) is None);
                        assert(alts_attached(a0, p, i + 1) is None);
                        lemma_alts_none_stays(a0, p, i + 1, a0.len() as int);
                    }
                    return false;
                }
                attachfront(&mut alt[0], front);
                proof {
                    assert(snodes_v(alt) =~= av.update(0, attached_front(av[0], p.0)));
                }
            }
            let ghost av1 = snodes_v(alt);
            proof {
                assert(snodes_v(front).len() == front@.len());
                assert(front_attached(av[0], p.0) == Some(av1[0]));
                assert(av.update(0, av1[0]) =~= av1);
            }
            let back = copy_snodes(&pluses.1);
            let last = alt.len() - 1;
            proof {
                assert(av1[last as int] == alt@[last as int]@);
            }
            if back.len() != 0 {
                if !back_attachable(&alt[last]) {
                    proof {
                        assert(snodes_v(back).len() == back@.len());
                        assert(alt_attached(a0[i as int], p) is None);
                        assert(alts_attached(a0, p, i + 1) is None);
                        lemma_alts_none_stays(a0, p, i + 1, a0.len() as int);
                    }
                    return false;
                }
                attachback(&mut alt[last], back);
                proof {
                    assert(snodes_v(alt) =~= av1.update(last as int, attached_back(av1[last as int], p.1)));
                }
            }
            let ghost d0 = alts_v(done@);
            let ghost altv = snodes_v(alt);
            proof {
                assert(snodes_v(back).len() == back@.len());
                assert(back_attached(av1.last(), p.1) == Some(altv[last as int]));
                assert(av1.update(last as int, altv[last as int]) =~= altv);
                assert(alt_attached(a0[i as int], p) == Some(altv));
            }
            done.push(alt);
            proof {
                assert(alts_v(done@) =~= d0.push(altv));
                assert(rest@ =~= r0.subrange(i + 1, r0.len() as int));
            }
            i = i + 1;
        }
        self.0 = done;
        true
    }
}

/// Whether a disjunction node and the disjunctions chained in its `else`
/// branches have the expected shape.
pub fn is_disj_wf(n: &Snode) -> (r: bool)
    ensures
        r == disj_wf(n@),
    decreases n,
{
    if !n.wrapper.isdisj {
        return true;
    }
    if n.children.len() < 3 {
        return false;
    }
    proof {
        assert(n@.children[2] == n.children@[2]@);
    }
    if n.children[2].children.len() < 1 {
        return false;
    }
    if n.children.len() == 5 {
        proof {
            assert(decreases_to!(n => n.children@[4]));
            assert(n@.children[4] == n.children@[4]@);
        }
        is_disj_wf(&n.children[4])
    } else {
        true
    }
}

/// Copies of a list of alternatives.
fn copy_alts(v: &Vec<Vec<Snode>>) -> (r: Vec<Vec<Snode>>)
    ensures
        alts_v(r@) == alts_v(v@),
{
    let mut r: Vec<Vec<Snode>> = Vec::new();
    let mut i: usize = 0;
    while i < v.len()
        invariant
            i <= v@.len(),
            alts_v(r@) == alts_v(v@).take(i as int),
        decreases v@.len() - i,
    {
        let ghost before = alts_v(r@);
        let c = copy_snodes(&v[i]);
        r.push(c);
        proof {
            assert(alts_v(r@) =~= before.push(snodes_v(c)));
            assert(alts_v(v@).take(i + 1) =~= alts_v(v@).take(i as int).push(snodes_v(v@[i as int])));
        }
        i = i + 1;
    }
    proof {
        assert(alts_v(v@).take(v@.len() as int) =~= alts_v(v@));
    }
    r
}

/// Each of `vs` followed by each of `es`.
fn cross_exec(vs: &Vec<Vec<Snode>>, es: &Vec<Vec<Snode>>) -> (r: Vec<Vec<Snode>>)
    ensures
        alts_v(r@) == cross(alts_v(vs@), alts_v(es@), vs@.len() as int),
{
    let ghost vv = alts_v(vs@);
    let ghost ev = alts_v(es@);
    let mut r: Vec<Vec<Snode>> = Vec::new();
    let mut k: usize = 0;
    proof {
        assert(alts_v(r@) =~= Seq::<Seq<SnodeV>>::empty());
    }
    while k < vs.len()
        invariant
            k <= vs@.len(),
            vv == alts_v(vs@),
            ev == alts_v(es@),
            alts_v(r@) == cross(vv, ev, k as int),
        decreases vs@.len() - k,
    {
        let ghost base = alts_v(r@);
        let mut j: usize = 0;
        while j < es.len()
            invariant
                j <= es@.len(),
                k < vs@.len(),
                vv == alts_v(vs@),
                ev == alts_v(es@),
                alts_v(r@) == base + Seq::new(j as nat, |q: int| vv[k as int] + ev[q]),
            decreases es@.len() - j,
        {
            let mut c = copy_snodes(&vs[k]);
            let mut e = copy_snodes(&es[j]);
            let ghost cv = snodes_v(c);
            let ghost e0 = snodes_v(e);
            let ghost c0 = c@;
            let ghost ee = e@;
            c.append(&mut e);
            proof {
                assert(c@ == c0 + ee);
                assert(snodes_v(c) =~= cv + e0);
            }
            let ghost before = alts_v(r@);
            r.push(c);
            proof {
                assert(alts_v(r@) =~= before.push(snodes_v(c)));
                assert(alts_v(r@) =~= base + Seq::new((j + 1) as nat, |q: int| vv[k as int] + ev[q]));
            }
            j = j + 1;
        }
        proof {
            assert(Seq::new(es@.len() as nat, |q: int| vv[k as int] + ev[q]) =~= Seq::new(
                ev.len(),
                |q: int| vv[k as int] + ev[q],
            ));
        }
        k = k + 1;
    }
    r
}

/// Each of `vs` followed by `node` with each of `cs` as its children.
fn cross_node_exec(vs: &Vec<Vec<Snode>>, node: &Snode, cs: &Vec<Vec<Snode>>) -> (r: Vec<Vec<Snode>>)
    ensures
        alts_v(r@) == cross_node(alts_v(vs@), node@, alts_v(cs@), vs@.len() as int),
{
    let ghost vv = alts_v(vs@);
    let ghost cv = alts_v(cs@);
    let mut r: Vec<Vec<Snode>> = Vec::new();
    let mut k: usize = 0;
    proof {
        assert(alts_v(r@) =~= Seq::<Seq<SnodeV>>::empty());
    }
    while k < vs.len()
        invariant
            k <= vs@.len(),
            vv == alts_v(vs@),
            cv == alts_v(cs@),
            alts_v(r@) == cross_node(vv, node@, cv, k as int),
        decreases vs@.len() - k,
    {
        let ghost base = alts_v(r@);
        let mut j: usize = 0;
        while j < cs.len()
            invariant
                j <= cs@.len(),
                k < vs@.len(),
                vv == alts_v(vs@),
                cv == alts_v(cs@),
                alts_v(r@) == base + Seq::new(
                    j as nat,
                    |q: int| vv[k as int].push(SnodeV { children: cv[q], ..node@ }),
                ),
            decreases cs@.len() - j,
        {
            let mut c = copy_snodes(&vs[k]);
            let mut n = node.copy();
            n.set_children(copy_snodes(&cs[j]));
            let ghost c0 = snodes_v(c);
            c.push(n);
            proof {
                assert(snodes_v(c) =~= c0.push(n@));
            }
            let ghost before = alts_v(r@);
            r.push(c);
            proof {
                assert(alts_v(r@) =~= before.push(snodes_v(c)));
                assert(alts_v(r@) =~= base + Seq::new(
                    (j + 1) as nat,
                    |q: int| vv[k as int].push(SnodeV { children: cv[q], ..node@ }),
                ));
            }
            j = j + 1;
        }
        proof {
            assert(Seq::new(cs@.len() as nat, |q: int| vv[k as int].push(SnodeV { children: cv[q], ..node@ }))
                =~= Seq::new(cv.len(), |q: int| vv[k as int].push(SnodeV { children: cv[q], ..node@ })));
        }
        k = k + 1;
    }
    r
}

proof fn lemma_expand_alt_none_stays(d: Seq<SnodeV>, fuel: nat, k: int, n: int)
    requires
        0 <= k <= n <= d.len(),
        expand_alt(d, fuel, k) is None,
    ensures
        expand_alt(d, fuel, n) is None,
    decreases n - k,
{
    if k < n {
        lemma_expand_alt_none_stays(d, fuel, k, n - 1);
    }
}

proof fn lemma_expand_disjs_none_stays(ds: Seq<Seq<SnodeV>>, fuel: nat, k: int, n: int)
    requires
        0 <= k <= n <= ds.len(),
        expand_disjs(ds, fuel, k) is None,
    ensures
        expand_disjs(ds, fuel, n) is None,
    decreases n - k,
{
    if k < n {
        lemma_expand_disjs_none_stays(ds, fuel, k, n - 1);
    }
}

/// Expands the disjunctions of the alternatives `ds`.
fn expand_fuel(ds: &Vec<Vec<Snode>>, fuel: usize) -> (r: Option<Vec<Vec<Snode>>>)
    ensures
        match expand_disjs(alts_v(ds@), fuel as nat, ds@.len() as int) {
            Some(e) => r matches Some(v) && alts_v(v@) == e,
            None => r is None,
        },
    decreases fuel, 1int,
{
    let ghost dv = alts_v(ds@);
    let mut acc: Vec<Vec<Snode>> = Vec::new();
    let mut k: usize = 0;
    proof {
        assert(alts_v(acc@) =~= Seq::<Seq<SnodeV>>::empty());
    }
    while k < ds.len()
        invariant
            k <= ds@.len(),
            dv == alts_v(ds@),
            expand_disjs(dv, fuel as nat, k as int) == Some(alts_v(acc@)),
        decreases ds@.len() - k,
    {
        proof {
            assert(dv[k as int] == snodes_v(ds@[k as int]));
        }
        match expand_alt_exec(&ds[k], fuel) {
            None => {
                proof {
                    lemma_expand_disjs_none_stays(dv, fuel as nat, k + 1, dv.len() as int);
                }
                return None;
            },
            Some(e) => {
                let mut e = e;
                let ghost before = alts_v(acc@);
                let ghost ev = alts_v(e@);
                let ghost a0 = acc@;
                let ghost e0 = e@;
                acc.append(&mut e);
                proof {
                    assert(acc@ == a0 + e0);
                    assert(alts_v(acc@) =~= before + ev);
                }
            },
        }
        k = k + 1;
    }
    Some(acc)
}

/// Expands the disjunctions of the alternative `d`.
fn expand_alt_exec(d: &Vec<Snode>, fuel: usize) -> (r: Option<Vec<Vec<Snode>>>)
    ensures
        match expand_alt(snodes_v(*d), fuel as nat, d@.len() as int) {
            Some(e) => r matches Some(v) && alts_v(v@) == e,
            None => r is None,
        },
    decreases fuel, 0int,
{
    let ghost dv = snodes_v(*d);
    let mut newvec: Vec<Vec<Snode>> = Vec::new();
    newvec.push(Vec::new());
    proof {
        assert(alts_v(newvec@) =~= seq![Seq::<SnodeV>::empty()]) by {
            assert(snodes_v(newvec@[0]) =~= Seq::<SnodeV>::empty());
        }
    }
    let mut k: usize = 0;
    while k < d.len()
        invariant
            k <= d@.len(),
            dv == snodes_v(*d),
            expand_alt(dv, fuel as nat, k as int) == Some(alts_v(newvec@)),
        decreases d@.len() - k,
    {
        let node = &d[k];
        proof {
            assert(dv[k as int] == node@);
        }
        if node.wrapper.isdisj {
            let attachable = match &node.wrapper.mcodekind {
                Mcodekind::Context(_, _) | Mcodekind::Minus(_) => true,
                _ => false,
            };
            proof {
                assert(node@.wrapper.mcodekind == crate::parsing_cocci::ast0::mcodekind_v(node.wrapper.mcodekind));
            }
            if !is_disj_wf(node) || !attachable || fuel == 0 {
                proof {
                    lemma_expand_alt_none_stays(dv, fuel as nat, k + 1, dv.len() as int);
                }
                return None;
            }
            let (branches, pluses) = node.getdisjs();
            let mut lists: Vec<Vec<Snode>> = Vec::new();
            let mut b: usize = 0;
            proof {
                assert(alts_v(lists@) =~= Seq::<Seq<SnodeV>>::empty());
            }
            while b < branches.len()
                invariant
                    b <= branches@.len(),
                    branches@.len() == disj_branches(node@).len(),
                    forall|i: int| 0 <= i < branches@.len() ==> (#[trigger] branches@[i])@ == disj_branches(node@)[i],
                    alts_v(lists@) == branch_lists(node@).take(b as int),
                decreases branches@.len() - b,
            {
                let ghost before = alts_v(lists@);
                let c = copy_snodes(&branches[b].children);
                lists.push(c);
                proof {
                    assert(branches@[b as int]@.children == snodes_v(branches@[b as int].children));
                    assert(alts_v(lists@) =~= before.push(snodes_v(c)));
                    assert(branch_lists(node@).take(b + 1) =~= branch_lists(node@).take(b as int).push(
                        disj_branches(node@)[b as int].children,
                    ));
                }
                b = b + 1;
            }
            proof {
                assert(branch_lists(node@).take(branches@.len() as int) =~= branch_lists(node@));
            }
            let mut disjchildren = Disjunction(lists);
            if !disjchildren.attachpluses(pluses) {
                proof {
                    lemma_expand_alt_none_stays(dv, fuel as nat, k + 1, dv.len() as int);
                }
                return None;
            }
            match expand_fuel(&disjchildren.0, fuel - 1) {
                None => {
                    proof {
                        lemma_expand_alt_none_stays(dv, fuel as nat, k + 1, dv.len() as int);
                    }
                    return None;
                },
                Some(ex) => {
                    newvec = cross_exec(&newvec, &ex);
                },
            }
        } else if node.children.len() == 0 {
            let ghost nv = alts_v(newvec@);
            let mut out: Vec<Vec<Snode>> = Vec::new();
            let mut j: usize = 0;
            proof {
                assert(alts_v(out@) =~= Seq::<Seq<SnodeV>>::empty());
            }
            while j < newvec.len()
                invariant
                    j <= newvec@.len(),
                    nv == alts_v(newvec@),
                    alts_v(out@) == Seq::new(j as nat, |q: int| nv[q].push(node@)),
                decreases newvec@.len() - j,
            {
                let mut c = copy_snodes(&newvec[j]);
                let ghost c0 = snodes_v(c);
                c.push(node.copy());
                proof {
                    assert(snodes_v(c) =~= c0.push(node@));
                }
                let ghost before = alts_v(out@);
                out.push(c);
                proof {
                    assert(alts_v(out@) =~= before.push(snodes_v(c)));
                    assert(alts_v(out@) =~= Seq::new((j + 1) as nat, |q: int| nv[q].push(node@)));
                }
                j = j + 1;
            }
            proof {
                assert(alts_v(out@) =~= Seq::new(nv.len(), |q: int| nv[q].push(node@)));
            }
            newvec = out;
        } else {
            if fuel == 0 {
                proof {
                    lemma_expand_alt_none_stays(dv, fuel as nat, k + 1, dv.len() as int);
                }
                return None;
            }
            let mut one: Vec<Vec<Snode>> = Vec::new();
            one.push(copy_snodes(&node.children));
            proof {
                assert(alts_v(one@) =~= seq![node@.children]);
            }
            match expand_fuel(&one, fuel - 1) {
                None => {
                    proof {
                        lemma_expand_alt_none_stays(dv, fuel as nat, k + 1, dv.len() as int);
                    }
                    return None;
                },
                Some(cs) => {
                    newvec = cross_node_exec(&newvec, node, &cs);
                },
            }
        }
        k = k + 1;
    }
    Some(newvec)
}

/// The alternative `alt` with the children of its node `j` replaced by
/// `kids`.
pub open spec fn with_kids(alt: Seq<SnodeV>, j: int, kids: Seq<SnodeV>) -> Seq<SnodeV> {
    alt.update(j, SnodeV { children: kids, ..alt[j] })
}

/// The alternatives `d` with alternative `i` replaced by one copy of it
/// for each list of children of `nodes`, put in place of the children of
/// its node `j`; `d` itself when `nodes` has fewer than two lists.
pub open spec fn children_set(d: Seq<Seq<SnodeV>>, i: int, j: int, nodes: Seq<Seq<SnodeV>>) -> Seq<Seq<SnodeV>> {
    if nodes.len() <= 1 {
        d
    } else {
        d.take(i) + Seq::new(nodes.len(), |k: int| with_kids(d[i], j, nodes[k])) + d.skip(i + 1)
    }
}

impl Disjunction {
    /// Splits alternative `i` on the lists of children `nodes` for its node
    /// `j`, as `children_set` says.
    pub fn setchildren(&mut self, i: usize, j: usize, nodes: Disjunction)
        requires
            nodes@.len() <= 1 || (i < old(self)@.len() && j < old(self)@[i as int].len()),
        ensures
            final(self)@ == children_set(old(self)@, i as int, j as int, nodes@),
    {
        if nodes.0.len() <= 1 {
            return;
        }
        let ghost d = self@;
        let ghost nv = nodes@;
        let tmp = copy_snodes(&self.0[i]);
        let mut out: Vec<Vec<Snode>> = Vec::new();
        let mut k: usize = 0;
        proof {
            assert(alts_v(out@) =~= d.take(0));
        }
        while k < i
            invariant
                k <= i,
                i < self.0@.len(),
                d == alts_v(self.0@),
                alts_v(out@) == d.take(k as int),
            decreases i - k,
        {
            let ghost ob = alts_v(out@);
            let c = copy_snodes(&self.0[k]);
            out.push(c);
            proof {
                assert(alts_v(out@) =~= ob.push(d[k as int]));
                assert(d.take(k + 1) =~= d.take(k as int).push(d[k as int]));
            }
            k = k + 1;
        }
        let mut q: usize = 0;
        while q < nodes.0.len()
            invariant
                q <= nodes.0@.len(),
                i < self.0@.len(),
                j < snodes_v(tmp).len(),
                d == alts_v(self.0@),
                nv == alts_v(nodes.0@),
                snodes_v(tmp) == d[i as int],
                alts_v(out@) == d.take(i as int) + Seq::new(q as nat, |k: int| with_kids(d[i as int], j as int, nv[k])),
            decreases nodes.0@.len() - q,
        {
            let mut alt = copy_snodes(&tmp);
            let mut nd = tmp[j].copy();
            nd.set_children(copy_snodes(&nodes.0[q]));
            let ghost a0 = snodes_v(alt);
            alt.set(j, nd);
            proof {
                assert(snodes_v(alt) =~= a0.update(j as int, nd@));
                assert(nd@ == SnodeV { children: nv[q as int], ..d[i as int][j as int] });
            }
            let ghost ob = alts_v(out@);
            out.push(alt);
            proof {
                assert(alts_v(out@) =~= ob.push(snodes_v(alt)));
                assert(alts_v(out@) =~= d.take(i as int) + Seq::new(
                    (q + 1) as nat,
                    |k: int| with_kids(d[i as int], j as int, nv[k]),
                ));
            }
            q = q + 1;
        }
        let total = self.0.len();
        let mut k: usize = i + 1;
        let ghost mid = alts_v(out@);
        proof {
            assert(mid + d.subrange(i + 1, i + 1) =~= mid);
        }
        while k < self.0.len()
            invariant
                i < k <= self.0@.len(),
                d == alts_v(self.0@),
                alts_v(out@) == mid + d.subrange(i + 1, k as int),
            decreases self.0@.len() - k,
        {
            let ghost ob = alts_v(out@);
            let c = copy_snodes(&self.0[k]);
            out.push(c);
            proof {
                assert(alts_v(out@) =~= ob.push(d[k as int]));
                assert(d.subrange(i + 1, k + 1) =~= d.subrange(i + 1, k as int).push(d[k as int]));
            }
            k = k + 1;
        }
        proof {
            assert(d.subrange(i + 1, d.len() as int) =~= d.skip(i + 1));
            assert(Seq::new(nv.len(), |k: int| with_kids(d[i as int], j as int, nv[k])) =~= Seq::new(
                nodes.0@.len() as nat,
                |k: int| with_kids(d[i as int], j as int, nv[k]),
            ));
        }
        self.0 = out;
    }
}

/// The depth bound used for expansion: larger than any tree.
pub open spec fn expand_fuel_bound() -> nat {
    usize::MAX as nat
}

/// Expands the disjunctions of the alternatives `nodes`: each disjunction
/// is replaced by each of its branches in turn, with the code attached
/// around the disjunction attached to the branch.  `None` where a
/// disjunction is malformed or its code cannot be attached.
pub fn getdisjunctions(nodes: Disjunction) -> (r: Option<Disjunction>)
    ensures
        match expand_disjs(nodes@, expand_fuel_bound(), nodes@.len() as int) {
            Some(e) => r matches Some(d) && d@ == e,
            None => r is None,
        },
{
    match expand_fuel(&nodes.0, usize::MAX) {
        Some(v) => Some(Disjunction(v)),
        None => None,
    }
}

// ---------------------------------------------------------------------
// Laws

/// Whether the tree `n` holds no disjunction and its lists of children
/// nest at most `fuel` deep.
pub open spec fn disj_free(n: SnodeV, fuel: nat) -> bool
    decreases n, 1nat,
{
    !n.wrapper.isdisj && (n.children.len() == 0 || (fuel > 0 && disj_free_seq(
        n.children,
        (fuel - 1) as nat,
        n.children.len() as int,
    )))
}

/// `disj_free` for each of the first `k` trees of `s`.
pub open spec fn disj_free_seq(s: Seq<SnodeV>, fuel: nat, k: int) -> bool
    decreases s, k,
{
    if k <= 0 || k > s.len() {
        true
    } else {
        disj_free_seq(s, fuel, k - 1) && disj_free(s[k - 1], fuel)
    }
}

proof fn lemma_expand_alt_free(d: Seq<SnodeV>, fuel: nat, k: int)
    requires
        0 <= k <= d.len(),
        disj_free_seq(d, fuel, k),
    ensures
        expand_alt(d, fuel, k) == Some(seq![d.take(k)]),
    decreases fuel, 0int, k,
{
    if k == 0 {
        assert(d.take(0) =~= Seq::<SnodeV>::empty());
    } else {
        assert(disj_free_seq(d, fuel, k - 1));
        lemma_expand_alt_free(d, fuel, k - 1);
        let prev = seq![d.take(k - 1)];
        let node = d[k - 1];
        assert(disj_free(node, fuel));
        assert(!node.wrapper.isdisj);
        assert(d.take(k) =~= d.take(k - 1).push(node));
        if node.children.len() == 0 {
            assert(Seq::new(prev.len(), |j: int| prev[j].push(node)) =~= seq![d.take(k)]);
            assert(expand_alt(d, fuel, k) == Some(Seq::new(prev.len(), |j: int| prev[j].push(node))));
        } else {
            assert(disj_free(node, fuel));
            assert(fuel > 0);
            lemma_expand_one_free(node.children, (fuel - 1) as nat);
            let cs = seq![node.children];
            assert(cross_node(prev, node, cs, 0) =~= Seq::<Seq<SnodeV>>::empty());
            assert(SnodeV { children: node.children, ..node } == node);
            assert(cross_node(prev, node, cs, 1) =~= seq![d.take(k)]);
            assert(expand_alt(d, fuel, k) == Some(cross_node(prev, node, cs, prev.len() as int)));
        }
    }
}

proof fn lemma_expand_one_free(cs: Seq<SnodeV>, fuel: nat)
    requires
        disj_free_seq(cs, fuel, cs.len() as int),
    ensures
        expand_disjs(seq![cs], fuel, 1) == Some(seq![cs]),
    decreases fuel, 1int, cs.len() + 1,
{
    let ds = seq![cs];
    assert(ds[0] == cs);
    assert(expand_disjs(ds, fuel, 0) == Some(Seq::<Seq<SnodeV>>::empty()));
    lemma_expand_alt_free(cs, fuel, cs.len() as int);
    assert(cs.take(cs.len() as int) =~= cs);
    assert(Seq::<Seq<SnodeV>>::empty() + seq![cs] =~= seq![cs]);
    assert(expand_disjs(ds, fuel, 1) == Some(Seq::<Seq<SnodeV>>::empty() + seq![cs]));
}

/// Expanding alternatives that hold no disjunction gives them back.
pub proof fn law_expand_without_disjunctions(ds: Seq<Seq<SnodeV>>, fuel: nat, k: int)
    requires
        0 <= k <= ds.len(),
        forall|i: int| 0 <= i < ds.len() ==> disj_free_seq(#[trigger] ds[i], fuel, ds[i].len() as int),
    ensures
        expand_disjs(ds, fuel, k) == Some(ds.take(k)),
    decreases k,
{
    if k == 0 {
        assert(ds.take(0) =~= Seq::<Seq<SnodeV>>::empty());
    } else {
        law_expand_without_disjunctions(ds, fuel, k - 1);
        lemma_expand_alt_free(ds[k - 1], fuel, ds[k - 1].len() as int);
        assert(ds[k - 1].take(ds[k - 1].len() as int) =~= ds[k - 1]);
        assert(ds.take(k) =~= ds.take(k - 1) + seq![ds[k - 1]]);
    }
}

} // verus!
