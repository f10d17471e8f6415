//! Marking the expressions that a semantic patch uses as conditions: the
//! condition of an `if` or `while`, and the operands of `&&`, `||` and `!`,
//! through parentheses.
use vstd::prelude::*;
use crate::commons::syntax_kind::Tag;
use crate::commons::util::{tuple_of_2, tuple_of_3};
use crate::parsing_cocci::ast0::{snodes_v, Snode, SnodeV, Wrap, WrapV};

verus! {

/// `w` marked as a condition.
pub open spec fn test_marked(w: WrapV) -> WrapV {
    WrapV { true_if_test: true, true_if_test_exp: true, ..w }
}

impl Wrap {
    /// Marks the node as a condition.
    pub fn set_test_exps(&mut self)
        ensures
            final(self)@ == test_marked(old(self)@),
    {
        self.true_if_test = true;
        self.true_if_test_exp = true;
    }
}

/// Whether a node is the operator `&&`, `||` or `!`.
pub open spec fn relational(n: SnodeV) -> bool {
    n.kind == Tag::Amp2 || n.kind == Tag::Pipe2 || n.kind == Tag::Bang
}

/// The expression `e` marked as a condition, and so on into the expression
/// within parentheses.
pub open spec fn processed(e: SnodeV) -> SnodeV
    decreases e,
{
    let m = SnodeV { wrapper: test_marked(e.wrapper), ..e };
    if e.kind == Tag::ParenExpr && e.children.len() == 3 {
        SnodeV { children: e.children.update(1, processed(e.children[1])), ..m }
    } else {
        m
    }
}

/// Node `n` with the conditions among its children marked.
pub open spec fn marked_here(n: SnodeV) -> SnodeV {
    let c = n.children;
    if (n.kind == Tag::IfExpr || n.kind == Tag::WhileExpr) && c.len() >= 2 {
        SnodeV { children: c.update(1, processed(c[1])), ..n }
    } else if n.kind == Tag::BinExpr && c.len() == 3 && relational(c[1]) {
        SnodeV { children: c.update(0, processed(c[0])).update(2, processed(c[2])), ..n }
    } else if n.kind == Tag::PrefixExpr && c.len() >= 2 && relational(c[0]) {
        SnodeV { children: c.update(1, processed(c[1])), ..n }
    } else {
        n
    }
}

/// The tree `n` with every condition within it marked.
pub open spec fn tests_marked(n: SnodeV) -> SnodeV
    decreases n, 1nat,
{
    marked_here(SnodeV { children: tests_marked_seq(n.children, n.children.len() as int), ..n })
}

/// The first `k` trees of `cs` with every condition within them marked.
pub open spec fn tests_marked_seq(cs: Seq<SnodeV>, k: int) -> Seq<SnodeV>
    decreases cs, k,
{
    if k <= 0 || k > cs.len() {
        Seq::empty()
    } else {
        tests_marked_seq(cs, k - 1).push(tests_marked(cs[k - 1]))
    }
}

fn is_relational(node: &Snode) -> (r: bool)
    ensures
        r == relational(node@),
{
    node.kind == Tag::Amp2 || node.kind == Tag::Pipe2 || node.kind == Tag::Bang
}

/// Marks `exp` as a condition, and the expression within it when it is in
/// parentheses.
pub fn process_exp(exp: &mut Snode)
    ensures
        final(exp)@ == processed(old(exp)@),
    decreases old(exp)@,
{
    let ghost e0 = exp@;
    exp.wrapper.set_test_exps();
    if exp.kind == Tag::ParenExpr && exp.children.len() == 3 {
        let ghost c0 = exp.children@;
        proof {
            assert(decreases_to!(e0 => e0.children[1]));
            assert(e0.children[1] == c0[1]@);
        }
        let (_lp, inner, _rp) = tuple_of_3(&mut exp.children);
        process_exp(inner);
        proof {
            assert(snodes_v(exp.children) =~= e0.children.update(1, processed(e0.children[1])));
        }
    }
}

fn set_test_exps_aux(node: &mut Snode)
    ensures
        final(node)@ == marked_here(old(node)@),
{
    let ghost n0 = node@;
    if (node.kind == Tag::IfExpr || node.kind == Tag::WhileExpr) && node.children.len() >= 2 {
        let (_kw, cond) = tuple_of_2(&mut node.children);
        process_exp(cond);
        proof {
            assert(snodes_v(node.children) =~= n0.children.update(1, processed(n0.children[1])));
        }
    } else if node.kind == Tag::BinExpr && node.children.len() == 3 && is_relational(&node.children[1]) {
        let (lhs, _op, rhs) = tuple_of_3(&mut node.children);
        process_exp(lhs);
        process_exp(rhs);
        proof {
            assert(snodes_v(node.children) =~= n0.children.update(0, processed(n0.children[0])).update(
                2,
                processed(n0.children[2]),
            ));
        }
    } else if node.kind == Tag::PrefixExpr && node.children.len() >= 2 && is_relational(&node.children[0]) {
        let (_op, exp) = tuple_of_2(&mut node.children);
        process_exp(exp);
        proof {
            assert(snodes_v(node.children) =~= n0.children.update(1, processed(n0.children[1])));
        }
    }
}

/// Marks every condition within the tree `root`.
pub fn set_test_exps(root: &mut Snode)
    ensures
        final(root)@ == tests_marked(old(root)@),
    decreases old(root)@,
{
    let ghost n0 = root@;
    let mut rest: Vec<Snode> = Vec::new();
    std::mem::swap(&mut rest, &mut root.children);
    let ghost r0 = rest@;
    let mut done: Vec<Snode> = Vec::new();
    let mut i: usize = 0;
    proof {
        assert(r0.len() == rest.len());
        assert(rest@ =~= r0.subrange(0, r0.len() as int));
        assert(snodes_v(done) =~= Seq::<SnodeV>::empty());
    }
    while rest.len() > 0
        invariant
            n0 == old(root)@,
            r0 == old(root).children@,
            i <= r0.len(),
            r0.len() <= usize::MAX,
            rest@ == r0.subrange(i as int, r0.len() as int),
            snodes_v(done) == tests_marked_seq(n0.children, i as int),
            n0.children.len() == r0.len(),
        decreases rest@.len(),
    {
        let mut c = rest.remove(0);
        proof {
            assert(c == r0[i as int]);
            assert(n0.children[i as int] == c@);
            assert(decreases_to!(n0 => n0.children[i as int]));
        }
        set_test_exps(&mut c);
        let ghost o = snodes_v(done);
        done.push(c);
        proof {
            assert(snodes_v(done) =~= o.push(c@));

            assert(rest@ =~= r0.subrange(i + 1, r0.len() as int));
        }
        i = i + 1;
    }
    root.children = done;
    proof {
        assert(root@ == SnodeV { children: snodes_v(done), ..n0 });
        assert(tests_marked(n0) == marked_here(root@));
    }
    set_test_exps_aux(root);
}

// ---------------------------------------------------------------------
// Laws

/// Whether a node is marked as a condition.
pub open spec fn is_condition(n: SnodeV) -> bool {
    n.wrapper.true_if_test && n.wrapper.true_if_test_exp
}

/// Whether, in the tree `t`, the condition (second child) of every `if` and
/// `while` is marked.
pub open spec fn conditions_marked(t: SnodeV) -> bool
    decreases t, 1nat,
{
    ((t.kind == Tag::IfExpr || t.kind == Tag::WhileExpr) && t.children.len() >= 2 ==> is_condition(t.children[1]))
        && conditions_marked_seq(t.children, t.children.len() as int)
}

/// `conditions_marked` for each of the first `k` trees of `cs`.
pub open spec fn conditions_marked_seq(cs: Seq<SnodeV>, k: int) -> bool
    decreases cs, k,
{
    if k <= 0 || k > cs.len() {
        true
    } else {
        conditions_marked_seq(cs, k - 1) && conditions_marked(cs[k - 1])
    }
}

proof fn lemma_marked_seq_all(cs: Seq<SnodeV>, k: int)
    requires
        0 <= k <= cs.len(),
    ensures
        conditions_marked_seq(cs, k) <==> forall|i: int| 0 <= i < k ==> conditions_marked(#[trigger] cs[i]),
    decreases k,
{
    if k > 0 {
        lemma_marked_seq_all(cs, k - 1);
    }
}

proof fn lemma_marked_seq_update(cs: Seq<SnodeV>, j: int, x: SnodeV)
    requires
        0 <= j < cs.len(),
        conditions_marked_seq(cs, cs.len() as int),
        conditions_marked(x),
    ensures
        conditions_marked_seq(cs.update(j, x), cs.len() as int),
{
    lemma_marked_seq_all(cs, cs.len() as int);
    let u = cs.update(j, x);
    assert forall|i: int| 0 <= i < u.len() implies conditions_marked(#[trigger] u[i]) by {
        if i != j {
            assert(u[i] == cs[i]);
        }
    }
    lemma_marked_seq_all(u, u.len() as int);
}

proof fn lemma_processed_keeps(x: SnodeV)
    requires
        conditions_marked(x),
    ensures
        conditions_marked(processed(x)),
        processed(x).kind == x.kind,
        processed(x).children.len() == x.children.len(),
        is_condition(processed(x)),
    decreases x,
{
    if x.kind == Tag::ParenExpr && x.children.len() == 3 {
        lemma_marked_seq_all(x.children, 3);
        lemma_processed_keeps(x.children[1]);
        lemma_marked_seq_update(x.children, 1, processed(x.children[1]));
    }
}

proof fn lemma_tests_marked_seq(cs: Seq<SnodeV>, k: int)
    requires
        0 <= k <= cs.len(),
    ensures
        tests_marked_seq(cs, k).len() == k,
        forall|i: int| 0 <= i < k ==> #[trigger] tests_marked_seq(cs, k)[i] == tests_marked(cs[i]),
        conditions_marked_seq(tests_marked_seq(cs, k), k),
    decreases cs, k,
{
    if k > 0 {
        lemma_tests_marked_seq(cs, k - 1);
        law_conditions_marked(cs[k - 1]);
        let t = tests_marked_seq(cs, k);
        let p = tests_marked_seq(cs, k - 1);
        assert(t == p.push(tests_marked(cs[k - 1])));
        lemma_marked_seq_all(p, k - 1);
        assert forall|i: int| 0 <= i < k implies conditions_marked(#[trigger] t[i]) by {
            if i < k - 1 {
                assert(t[i] == p[i]);
            }
        }
        lemma_marked_seq_all(t, k);
    }
}

/// After marking, the condition of every `if` and every `while` in the
/// tree is marked as a condition.
pub proof fn law_conditions_marked(n: SnodeV)
    ensures
        conditions_marked(tests_marked(n)),
    decreases n, 2nat,
{
    let kids = tests_marked_seq(n.children, n.children.len() as int);
    lemma_tests_marked_seq(n.children, n.children.len() as int);
    let m = SnodeV { children: kids, ..n };
    let c = kids;
    lemma_marked_seq_all(c, c.len() as int);
    if (n.kind == Tag::IfExpr || n.kind == Tag::WhileExpr) && c.len() >= 2 {
        lemma_processed_keeps(c[1]);
        lemma_marked_seq_update(c, 1, processed(c[1]));
        assert(c.update(1, processed(c[1]))[1] == processed(c[1]));
    } else if n.kind == Tag::BinExpr && c.len() == 3 && relational(c[1]) {
        lemma_processed_keeps(c[0]);
        lemma_processed_keeps(c[2]);
        lemma_marked_seq_update(c, 0, processed(c[0]));
        lemma_marked_seq_update(c.update(0, processed(c[0])), 2, processed(c[2]));
    } else if n.kind == Tag::PrefixExpr && c.len() >= 2 && relational(c[0]) {
        lemma_processed_keeps(c[1]);
        lemma_marked_seq_update(c, 1, processed(c[1]));
    }
    assert(tests_marked(n) == marked_here(m));
}

} // verus!
