//! Logical line numbers of the `-` code of the rules: lines counted
//! without the blank lines that the code of the rules leaves.
use vstd::prelude::*;
use crate::parsing_cocci::ast0::{snodes_v, InfoV, PositionInfo, Snode, SnodeV, WrapV};
use crate::parsing_cocci::parse_cocci::{rules_v, Rule, RuleV};

verus! {

/// `n` with its first logical line set to `v`.
pub open spec fn with_logical_start(n: SnodeV, v: usize) -> SnodeV {
    SnodeV {
        wrapper: WrapV {
            info: InfoV { pos_info: PositionInfo { logical_start: v, ..n.wrapper.info.pos_info }, ..n.wrapper.info },
            ..n.wrapper
        },
        ..n
    }
}

/// `n` with its last logical line set to `v`.
pub open spec fn with_logical_end(n: SnodeV, v: usize) -> SnodeV {
    SnodeV {
        wrapper: WrapV {
            info: InfoV { pos_info: PositionInfo { logical_end: v, ..n.wrapper.info.pos_info }, ..n.wrapper.info },
            ..n.wrapper
        },
        ..n
    }
}

/// The tree `n` with logical lines set, the previous logical line being
/// `prev` and `bnos` blank lines seen so far; with the blank lines seen
/// after it.  A leaf ends on its line less the blank lines, one more when
/// blank lines separate it from the previous line; a node starts on the
/// previous line and ends where its last child ends.  The first line of a
/// leaf is set by its parent (`top` for a tree without one).  `None` when
/// a line number would go below zero or past the largest `usize`.
pub open spec fn logi_node(prev: usize, n: SnodeV, bnos: usize, top: bool) -> Option<(SnodeV, usize)>
    decreases n, 1nat,
{
    if n.children.len() == 0 {
        logi_leaf_f(prev, n, bnos, top)
    } else {
        let m = with_logical_start(n, prev);
        match logi_kids(prev, n.children, bnos, n.children.len() as int) {
            None => None,
            Some((cs, p, b)) => Some((with_logical_end(SnodeV { children: cs, ..m }, p), b)),
        }
    }
}

/// A leaf with its logical lines set, as `logi_node` says.
pub open spec fn logi_leaf_f(prev: usize, n: SnodeV, bnos: usize, top: bool) -> Option<(SnodeV, usize)> {
    let m = if top {
        n
    } else {
        with_logical_start(n, prev)
    };
    let ls = n.wrapper.info.pos_info.line_start;
    if ls < bnos {
        None
    } else if ls - bnos > prev {
        if ls + 1 > usize::MAX || bnos + (ls - bnos - prev - 1) > usize::MAX {
            None
        } else {
            Some((with_logical_end(m, (ls + 1) as usize), (bnos + (ls - bnos - prev - 1)) as usize))
        }
    } else {
        Some((with_logical_end(m, ls), bnos))
    }
}

/// The first `k` trees of `cs` with logical lines set, each starting where
/// the one before ends; with the last line and the blank lines seen.
pub open spec fn logi_kids(prev: usize, cs: Seq<SnodeV>, bnos: usize, k: int) -> Option<(Seq<SnodeV>, usize, usize)>
    decreases cs, k,
{
    if k <= 0 || k > cs.len() {
        Some((Seq::empty(), prev, bnos))
    } else {
        match logi_kids(prev, cs, bnos, k - 1) {
            None => None,
            Some((done, p, b)) => match logi_node(p, cs[k - 1], b, false) {
                None => None,
                Some((c, b2)) => Some((done.push(c), c.wrapper.info.pos_info.logical_end, b2)),
            },
        }
    }
}

fn logi_leaf(prevline: usize, node: &mut Snode, bnos: usize, top: bool) -> (r: Option<usize>)
    requires
        old(node).children@.len() == 0,
    ensures
        match logi_leaf_f(prevline, old(node)@, bnos, top) {
            Some((m, b)) => r == Some(b) && final(node)@ == m,
            None => r is None,
        },
{
    let ghost n0 = node@;
    if !top {
        node.wrapper.set_logilines_start(prevline);
        proof {
            assert(node@ == with_logical_start(n0, prevline));
        }
    }
    let ghost m = node@;
    let ls = node.wrapper.getlinenos().0;
    if ls < bnos {
        return None;
    }
    let blanks = ls - bnos;
    if blanks > prevline {
        if ls == usize::MAX || bnos > usize::MAX - (blanks - prevline - 1) {
            return None;
        }
        node.wrapper.set_logilines_end(ls + 1);
        proof {
            assert(node@ == with_logical_end(m, (ls + 1) as usize));
        }
        return Some(bnos + (blanks - prevline - 1));
    }
    node.wrapper.set_logilines_end(ls);
    proof {
        assert(node@ == with_logical_end(m, ls));
    }
    Some(bnos)
}

fn logi_exec(prevline: usize, node: &mut Snode, bnos: usize, top: bool) -> (r: Option<usize>)
    ensures
        match logi_node(prevline, old(node)@, bnos, top) {
            Some((m, b)) => r == Some(b) && final(node)@ == m,
            None => r is None,
        },
    decreases old(node)@,
{
    let ghost n0 = node@;
    if node.children.len() == 0 {
        return logi_leaf(prevline, node, bnos, top);
    }
    node.wrapper.set_logilines_start(prevline);
    let ghost m = node@;
    let mut rest: Vec<Snode> = Vec::new();
    std::mem::swap(&mut rest, &mut node.children);
    let ghost r0 = rest@;
    let mut done: Vec<Snode> = Vec::new();
    let mut prev = prevline;
    let mut b = bnos;
    let mut i: usize = 0;
    proof {
        assert(r0.len() == rest.len());
        assert(rest@ =~= r0.subrange(0, r0.len() as int));
        assert(snodes_v(done) =~= Seq::<SnodeV>::empty());
        assert(m.children == n0.children);
    }
    while rest.len() > 0
        invariant
            n0 == old(node)@,
            r0 == old(node).children@,
            i <= r0.len(),
            r0.len() <= usize::MAX,
            rest@ == r0.subrange(i as int, r0.len() as int),
            n0.children.len() == r0.len(),
            logi_kids(prevline, n0.children, bnos, i as int) == Some((snodes_v(done), prev, b)),
        decreases rest@.len(),
    {
        let mut c = rest.remove(0);
        proof {
            assert(c == r0[i as int]);
            assert(n0.children[i as int] == c@);
            assert(decreases_to!(n0 => n0.children[i as int]));
        }
        match logi_exec(prev, &mut c, b, false) {
            None => {
                proof {
                    lemma_logi_kids_none(prevline, n0.children, bnos, i + 1, n0.children.len() as int);
                }
                return None;
            },
            Some(b2) => {
                b = b2;
            },
        }
        prev = c.wrapper.getlogilinenos().1;
        let ghost o = snodes_v(done);
        done.push(c);
        proof {
            assert(snodes_v(done) =~= o.push(c@));
            assert(rest@ =~= r0.subrange(i + 1, r0.len() as int));
        }
        i = i + 1;
    }
    node.children = done;
    node.wrapper.set_logilines_end(prev);
    Some(b)
}

proof fn lemma_logi_kids_none(prev: usize, cs: Seq<SnodeV>, bnos: usize, k: int, n: int)
    requires
        0 < k <= n <= cs.len(),
        logi_kids(prev, cs, bnos, k) is None,
    ensures
        logi_kids(prev, cs, bnos, n) is None,
    decreases n - k,
{
    if k < n {
        lemma_logi_kids_none(prev, cs, bnos, k, n - 1);
    }
}

/// Sets the logical lines of the tree `node` as `logi_node` says, the
/// previous logical line being `prevline` and `bnos` blank lines seen; the
/// blank lines seen after it, or `None` when a line number would go below
/// zero or overflow.
pub fn set_logilines_aux(prevline: usize, node: &mut Snode, bnos: usize) -> (r: Option<usize>)
    ensures
        match logi_node(prevline, old(node)@, bnos, true) {
            Some((m, b)) => r == Some(b) && final(node)@ == m,
            None => r is None,
        },
{
    logi_exec(prevline, node, bnos, true)
}

/// The `-` code of the first `k` rules with logical lines set, each rule
/// starting one line before the previous one ends; with the line where the
/// next rule starts.  `None` as for `logi_node`, or when a rule ends on
/// logical line 0.
pub open spec fn logilines_f(rs: Seq<RuleV>, k: int) -> Option<(Seq<SnodeV>, usize)>
    decreases k,
{
    if k <= 0 || k > rs.len() {
        Some((Seq::empty(), 0))
    } else {
        match logilines_f(rs, k - 1) {
            None => None,
            Some((ms, off)) => match logi_node(off, rs[k - 1].minus, 0, true) {
                None => None,
                Some((m, _)) => if m.wrapper.info.pos_info.logical_end == 0 {
                    None
                } else {
                    Some((ms.push(m), (m.wrapper.info.pos_info.logical_end - 1) as usize))
                },
            },
        }
    }
}

/// The `-` code of the rules as `logilines_f` sets it.
pub open spec fn logi_minuses(rs: Seq<RuleV>, k: int) -> Seq<SnodeV> {
    match logilines_f(rs, k) {
        Some((ms, _)) => ms,
        None => Seq::empty(),
    }
}

/// Sets the logical lines of the `-` code of each rule in turn, as
/// `logilines_f` says; `false` when that is `None`, with the rules partly
/// changed.
pub fn set_logilines(rules: &mut Vec<Rule>) -> (r: bool)
    ensures
        r == (logilines_f(rules_v(old(rules)@), old(rules)@.len() as int) is Some),
        r ==> final(rules)@.len() == old(rules)@.len() && forall|i: int|
            0 <= i < final(rules)@.len() ==> (#[trigger] final(rules)@[i]).patch.minus@ == logi_minuses(
                rules_v(old(rules)@),
                old(rules)@.len() as int,
            )[i] && final(rules)@[i].name == old(rules)@[i].name,
{
    let ghost rs = rules_v(rules@);
    let ghost n = rules@.len();
    let mut offsetline: usize = 0;
    let mut i: usize = 0;
    while i < rules.len()
        invariant
            i <= rules@.len(),
            rules@.len() == n,
            rs == rules_v(old(rules)@),
            n == old(rules)@.len(),
            logilines_f(rs, i as int) matches Some((ms, off)) && off == offsetline && ms.len() == i && forall|j: int|
                0 <= j < i ==> (#[trigger] rules@[j]).patch.minus@ == ms[j],
            forall|j: int| i <= j < n ==> #[trigger] rules@[j] == old(rules)@[j],
            forall|j: int| 0 <= j < n ==> (#[trigger] rules@[j]).name == old(rules)@[j].name,
        decreases rules@.len() - i,
    {
        proof {
            assert(rs[i as int] == old(rules)@[i as int]@);
        }
        let ghost before = rules@;
        let r = set_logilines_aux(offsetline, &mut rules[i].patch.minus, 0);
        if r.is_none() {
            proof {
                lemma_logilines_none(rs, i + 1, n as int);
            }
            return false;
        }
        let e = rules[i].patch.minus.wrapper.getlogilinenos().1;
        if e == 0 {
            proof {
                lemma_logilines_none(rs, i + 1, n as int);
            }
            return false;
        }
        offsetline = e - 1;
        i = i + 1;
    }
    true
}

proof fn lemma_logilines_none(rs: Seq<RuleV>, k: int, n: int)
    requires
        0 < k <= n <= rs.len(),
        logilines_f(rs, k) is None,
    ensures
        logilines_f(rs, n) is None,
    decreases n - k,
{
    if k < n {
        lemma_logilines_none(rs, k, n - 1);
    }
}

} // verus!
