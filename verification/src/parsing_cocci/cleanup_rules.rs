//! Dropping the rules that cannot apply: those whose dependency fails
//! given the rules dropped before them, and those that use a
//! metavariable of a dropped rule.
use vstd::prelude::*;
use crate::commons::syntax_kind::Tag;
use crate::commons::text::str_eq;
use crate::parsing_cocci::ast0::{Snode, SnodeV};
use crate::parsing_cocci::parse_cocci::{rule_chars, rules_v, var_rule, Dep, DepV, Rule, RuleV};

verus! {

/// Whether a rule with dependency `d` can apply when the rules named in
/// `dropped` are gone.
pub open spec fn executable_f(dropped: Seq<Seq<char>>, d: DepV) -> bool
    decreases d,
{
    match d {
        DepV::NoDep => true,
        DepV::FailDep => false,
        DepV::Dep(name) => !dropped.contains(name),
        DepV::AndDep(a, b) => executable_f(dropped, *a) && executable_f(dropped, *b),
        DepV::OrDep(a, b) => executable_f(dropped, *a) || executable_f(dropped, *b),
        DepV::AntiDep(_) => true,
    }
}

/// Whether no path of the tree `n` is a metavariable of a rule named in
/// `dropped`.
pub open spec fn bindable_tree(dropped: Seq<Seq<char>>, n: SnodeV) -> bool
    decreases n, 1nat,
{
    !(n.kind == Tag::PathExpr && !(n.wrapper.metavar is NoMeta) && dropped.contains(var_rule(n.wrapper.metavar)))
        && bindable_seq(dropped, n.children, n.children.len() as int)
}

/// `bindable_tree` for each of the first `k` trees of `cs`.
pub open spec fn bindable_seq(dropped: Seq<Seq<char>>, cs: Seq<SnodeV>, k: int) -> bool
    decreases cs, k,
{
    if k <= 0 || k > cs.len() {
        true
    } else {
        bindable_seq(dropped, cs, k - 1) && bindable_tree(dropped, cs[k - 1])
    }
}

/// The rules among the first `k` of `rs` that are kept, and the names of
/// those dropped.
pub open spec fn cleanup_f(rs: Seq<RuleV>, k: int) -> (Seq<RuleV>, Seq<Seq<char>>)
    decreases k,
{
    if k <= 0 || k > rs.len() {
        (Seq::empty(), Seq::empty())
    } else {
        let (kept, dropped) = cleanup_f(rs, k - 1);
        let r = rs[k - 1];
        if !executable_f(dropped, r.dependson) || !bindable_tree(dropped, r.minus) {
            (kept, dropped.push(r.name))
        } else {
            (kept.push(r), dropped)
        }
    }
}

fn names_contain(v: &Vec<String>, x: &str) -> (r: bool)
    ensures
        r == Seq::new(v@.len(), |i: int| v@[i]@).contains(x@),
{
    let ghost vv = Seq::new(v@.len(), |i: int| v@[i]@);
    let mut i: usize = 0;
    while i < v.len()
        invariant
            i <= v@.len(),
            vv == Seq::new(v@.len(), |i: int| v@[i]@),
            forall|j: int| 0 <= j < i ==> vv[j] != x@,
        decreases v@.len() - i,
    {
        if str_eq(v[i].as_str(), x) {
            proof {
                assert(vv[i as int] == x@);
            }
            return true;
        }
        i = i + 1;
    }
    false
}

/// Whether a rule with dependency `dep` can apply when the rules named in
/// `dropped` are gone.
pub fn executable(dropped: &Vec<String>, dep: &Dep) -> (r: bool)
    ensures
        r == executable_f(Seq::new(dropped@.len(), |i: int| dropped@[i]@), dep@),
    decreases dep,
{
    match dep {
        Dep::NoDep => true,
        Dep::FailDep => false,
        Dep::Dep(name) => !names_contain(dropped, name.as_str()),
        Dep::AndDep(d) => executable(dropped, &d.0) && executable(dropped, &d.1),
        Dep::OrDep(d) => executable(dropped, &d.0) || executable(dropped, &d.1),
        Dep::AntiDep(_) => true,
    }
}

/// Whether no path of `minus` is a metavariable of a rule named in
/// `dropped`.
pub fn bindable(dropped: &Vec<String>, minus: &Snode) -> (r: bool)
    ensures
        r == bindable_tree(Seq::new(dropped@.len(), |i: int| dropped@[i]@), minus@),
    decreases minus,
{
    let ghost dv = Seq::new(dropped@.len(), |i: int| dropped@[i]@);
    if minus.kind == Tag::PathExpr && !minus.wrapper.metavar.isnotmeta() {
        let rn = rule_chars(&minus.wrapper.metavar);
        let rs = crate::commons::text::string_of(&rn);
        if names_contain(dropped, rs.as_str()) {
            return false;
        }
    }
    let ghost cs = minus@.children;
    let mut i: usize = 0;
    while i < minus.children.len()
        invariant
            i <= minus.children@.len(),
            cs == minus@.children,
            cs.len() == minus.children@.len(),
            dv == Seq::new(dropped@.len(), |i: int| dropped@[i]@),
            bindable_seq(dv, cs, i as int),
        decreases minus.children@.len() - i,
    {
        proof {
            assert(decreases_to!(minus => minus.children@[i as int]));
            assert(cs[i as int] == minus.children@[i as int]@);
        }
        if !bindable(dropped, &minus.children[i]) {
            proof {
                lemma_bindable_false(dv, cs, i + 1, cs.len() as int);
            }
            return false;
        }
        i = i + 1;
    }
    true
}

proof fn lemma_bindable_false(d: Seq<Seq<char>>, cs: Seq<SnodeV>, k: int, n: int)
    requires
        0 < k <= n <= cs.len(),
        !bindable_seq(d, cs, k),
    ensures
        !bindable_seq(d, cs, n),
    decreases n - k,
{
    if k < n {
        lemma_bindable_false(d, cs, k, n - 1);
    }
}

/// Drops, in order, each rule whose dependency fails once the rules
/// dropped before it are gone, or that uses a metavariable of such a rule.
pub fn cleanup_rules(rules: &mut Vec<Rule>)
    ensures
        rules_v(final(rules)@) == cleanup_f(rules_v(old(rules)@), old(rules)@.len() as int).0,
{
    let ghost rs = rules_v(rules@);
    let mut rest: Vec<Rule> = Vec::new();
    std::mem::swap(&mut rest, rules);
    let ghost r0 = rest@;
    proof {
        assert(r0.len() == rest.len());
    }
    let mut kept: Vec<Rule> = Vec::new();
    let mut dropped: Vec<String> = Vec::new();
    let mut i: usize = 0;
    proof {
        assert(rules_v(kept@) =~= Seq::<RuleV>::empty());
        assert(Seq::new(dropped@.len(), |i: int| dropped@[i]@) =~= Seq::<Seq<char>>::empty());
        assert(rest@ =~= r0.subrange(0, r0.len() as int));
    }
    while rest.len() > 0
        invariant
            rs == rules_v(r0),
            i <= r0.len(),
            r0.len() <= usize::MAX,
            rest@ == r0.subrange(i as int, r0.len() as int),
            (rules_v(kept@), Seq::new(dropped@.len(), |i: int| dropped@[i]@)) == cleanup_f(rs, i as int),
        decreases rest@.len(),
    {
        let rule = rest.remove(0);
        proof {
            assert(rule == r0[i as int]);
            assert(rs[i as int] == rule@);
            assert(rest@ =~= r0.subrange(i + 1, r0.len() as int));
        }
        let ghost dv = Seq::new(dropped@.len(), |i: int| dropped@[i]@);
        if !executable(&dropped, &rule.dependson) || !bindable(&dropped, &rule.patch.minus) {
            let name = rule.name.clone();
            dropped.push(name);
            proof {
                assert(Seq::new(dropped@.len(), |i: int| dropped@[i]@) =~= dv.push(rule@.name));
            }
        } else {
            let ghost kb = rules_v(kept@);
            kept.push(rule);
            proof {
                assert(rules_v(kept@) =~= kb.push(rule@));
            }
        }
        i = i + 1;
    }
    *rules = kept;
}

// ---------------------------------------------------------------------
// Laws

proof fn lemma_executable_without_drops(dropped: Seq<Seq<char>>, d: DepV)
    requires
        executable_f(dropped, d),
    ensures
        executable_f(Seq::empty(), d),
    decreases d,
{
    match d {
        DepV::AndDep(a, b) => {
            lemma_executable_without_drops(dropped, *a);
            lemma_executable_without_drops(dropped, *b);
        },
        DepV::OrDep(a, b) => {
            if executable_f(dropped, *a) {
                lemma_executable_without_drops(dropped, *a);
            } else {
                lemma_executable_without_drops(dropped, *b);
            }
        },
        _ => {},
    }
}

proof fn lemma_bindable_without_drops(n: SnodeV)
    ensures
        bindable_tree(Seq::empty(), n),
    decreases n, 1nat,
{
    lemma_bindable_seq_without_drops(n.children, n.children.len() as int);
}

proof fn lemma_bindable_seq_without_drops(cs: Seq<SnodeV>, k: int)
    ensures
        bindable_seq(Seq::empty(), cs, k),
    decreases cs, k,
{
    if 0 < k <= cs.len() {
        lemma_bindable_seq_without_drops(cs, k - 1);
        lemma_bindable_without_drops(cs[k - 1]);
    }
}

proof fn lemma_kept_executable(rs: Seq<RuleV>, k: int)
    ensures
        forall|i: int|
            0 <= i < cleanup_f(rs, k).0.len() ==> executable_f(Seq::empty(), (#[trigger] cleanup_f(rs, k).0[i]).dependson),
    decreases k,
{
    if 0 < k <= rs.len() {
        lemma_kept_executable(rs, k - 1);
        let (kept, dropped) = cleanup_f(rs, k - 1);
        let r = rs[k - 1];
        if executable_f(dropped, r.dependson) && bindable_tree(dropped, r.minus) {
            lemma_executable_without_drops(dropped, r.dependson);
            assert forall|i: int| 0 <= i < kept.push(r).len() implies executable_f(
                Seq::empty(),
                (#[trigger] kept.push(r)[i]).dependson,
            ) by {
                if i < kept.len() {
                    assert(kept.push(r)[i] == kept[i]);
                }
            }
        }
    }
}

proof fn lemma_cleanup_keeps_all(rs: Seq<RuleV>, k: int)
    requires
        0 <= k <= rs.len(),
        forall|i: int| 0 <= i < rs.len() ==> executable_f(Seq::empty(), (#[trigger] rs[i]).dependson),
    ensures
        cleanup_f(rs, k) == (rs.take(k), Seq::<Seq<char>>::empty()),
    decreases k,
{
    if k == 0 {
        assert(rs.take(0) =~= Seq::<RuleV>::empty());
    } else {
        lemma_cleanup_keeps_all(rs, k - 1);
        lemma_bindable_without_drops(rs[k - 1].minus);
        assert(rs.take(k) =~= rs.take(k - 1).push(rs[k - 1]));
    }
}

/// Cleaning up rules a second time drops nothing more.
pub proof fn law_cleanup_idempotent(rs: Seq<RuleV>)
    ensures
        cleanup_f(cleanup_f(rs, rs.len() as int).0, cleanup_f(rs, rs.len() as int).0.len() as int).0 == cleanup_f(
            rs,
            rs.len() as int,
        ).0,
{
    let kept = cleanup_f(rs, rs.len() as int).0;
    lemma_kept_executable(rs, rs.len() as int);
    lemma_cleanup_keeps_all(kept, kept.len() as int);
    assert(kept.take(kept.len() as int) =~= kept);
}

/// Whether a dependency is built from rule names with `!`, `&&` and `||`
/// only (no dependency at all counts too): it never names the failing
/// dependency.
pub open spec fn from_names(d: DepV) -> bool
    decreases d,
{
    match d {
        DepV::NoDep => true,
        DepV::FailDep => false,
        DepV::Dep(_) => true,
        DepV::AndDep(a, b) => from_names(*a) && from_names(*b),
        DepV::OrDep(a, b) => from_names(*a) && from_names(*b),
        DepV::AntiDep(a) => from_names(*a),
    }
}

/// While no rule has been dropped, every dependency built from rule names
/// with `!`, `&&` and `||` can be met: in particular a rule that depends on
/// another rule not applying (`!r`) is kept.
pub proof fn law_executable_without_drops(d: DepV)
    requires
        from_names(d),
    ensures
        executable_f(Seq::empty(), d),
    decreases d,
{
    match d {
        DepV::AndDep(a, b) => {
            law_executable_without_drops(*a);
            law_executable_without_drops(*b);
        },
        DepV::OrDep(a, b) => {
            law_executable_without_drops(*a);
        },
        _ => {},
    }
}

/// A rule that depends on another rule not applying can always apply,
/// whatever was dropped before it.
pub proof fn law_antidependency_executable(dropped: Seq<Seq<char>>, x: DepV)
    ensures
        executable_f(dropped, DepV::AntiDep(Box::new(x))),
{
}

/// A rule whose dependency fails is dropped, whatever was dropped before.
pub proof fn law_failed_dependency_not_executable(dropped: Seq<Seq<char>>)
    ensures
        !executable_f(dropped, DepV::FailDep),
{
}

} // verus!
