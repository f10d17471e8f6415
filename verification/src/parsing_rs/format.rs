//! Giving transformed code the layout that a formatter chose: the
//! whitespace of code added by a rule, and of the code on the same line
//! after it, is taken from the formatted tree.
use vstd::prelude::*;
use crate::commons::text::{chars_contains, chars_of, spec_contains};
use crate::parsing_rs::ast_rs::{rnodes_v, Rnode, RnodeV, RWrapV};

verus! {

/// The marker that introduces code added by a rule.
pub open spec fn added_mark() -> Seq<char> {
    "/*COCCIVAR*/"@
}

/// Tree `n1`, whose whitespace is `ws`, with the whitespace of the
/// formatted tree `n2` where `n1` starts with added code, and in its
/// children as `adjust_kids` says; with the line of the added code whose
/// layout is being followed, if any.
pub open spec fn adjusted_w(n1: RnodeV, ws: (Seq<char>, Seq<char>), n2: RnodeV, line: Option<usize>) -> (
    RnodeV,
    Option<usize>,
)
    decreases n1, 1nat,
{
    let marked = spec_contains(ws.0, added_mark());
    let ws1 = if marked {
        n2.wrapper.wspaces
    } else {
        ws
    };
    let l0 = if marked {
        Some(n1.wrapper.info.sline)
    } else {
        line
    };
    let k = if n1.children.len() <= n2.children.len() {
        n1.children.len()
    } else {
        n2.children.len()
    };
    let (cs, l1) = adjust_kids(n1.children, n2.children, l0, k as int);
    (
        RnodeV {
            wrapper: RWrapV { wspaces: ws1, ..n1.wrapper },
            children: cs + n1.children.skip(k as int),
            ..n1
        },
        l1,
    )
}

/// The first `k` children `a` paired with the children `b` of the
/// formatted tree: while a line is followed, a child that ends on it takes
/// the whitespace of its formatted pair, and a child that does not ends
/// the following.
pub open spec fn adjust_kids(a: Seq<RnodeV>, b: Seq<RnodeV>, line: Option<usize>, k: int) -> (
    Seq<RnodeV>,
    Option<usize>,
)
    decreases a, k,
{
    if k <= 0 || k > a.len() || k > b.len() {
        (Seq::empty(), line)
    } else {
        let (done, l) = adjust_kids(a, b, line, k - 1);
        let x = a[k - 1];
        let y = b[k - 1];
        let (ws, l2) = match l {
            Some(s) => if x.wrapper.info.eline == s {
                (y.wrapper.wspaces, l)
            } else {
                (x.wrapper.wspaces, None)
            },
            None => (x.wrapper.wspaces, None),
        };
        let (x2, l3) = adjusted_w(x, ws, y, l2);
        (done.push(x2), l3)
    }
}

fn ws_copy(w: &(String, String)) -> (r: (String, String))
    ensures
        r.0@ == w.0@,
        r.1@ == w.1@,
{
    (w.0.clone(), w.1.clone())
}

fn adjust_exec(node1: &mut Rnode, ws: (String, String), node2: &Rnode, line: Option<usize>) -> (r: Option<usize>)
    ensures
        (final(node1)@, r) == adjusted_w(old(node1)@, (ws.0@, ws.1@), node2@, line),
    decreases old(node1)@,
{
    let ghost n0 = node1@;
    let ghost wsv = (ws.0@, ws.1@);
    let mut line = line;
    let marked = chars_contains(&chars_of(ws.0.as_str()), &chars_of("/*COCCIVAR*/"));
    let ws1 = if marked {
        ws_copy(&node2.wrapper.wspaces)
    } else {
        ws
    };
    if marked {
        line = Some(node1.wrapper.info.sline);
    }
    let ghost l0 = line;
    let k = if node1.children.len() <= node2.children.len() {
        node1.children.len()
    } else {
        node2.children.len()
    };
    let mut rest: Vec<Rnode> = Vec::new();
    std::mem::swap(&mut rest, &mut node1.children);
    let ghost r0 = rest@;
    let mut done: Vec<Rnode> = Vec::new();
    let mut i: usize = 0;
    proof {
        assert(r0.len() == rest.len());
        assert(rest@ =~= r0.subrange(0, r0.len() as int));
        assert(rnodes_v(done) =~= Seq::<RnodeV>::empty());
    }
    while i < k
        invariant
            n0 == old(node1)@,
            r0 == old(node1).children@,
            n0.children.len() == r0.len(),
            k <= r0.len(),
            k <= node2.children@.len(),
            i <= k,
            rest@ == r0.subrange(i as int, r0.len() as int),
            adjust_kids(n0.children, node2@.children, l0, i as int) == (rnodes_v(done), line),
        decreases k - i,
    {
        let mut c = rest.remove(0);
        let other = &node2.children[i];
        proof {
            assert(c == r0[i as int]);
            assert(n0.children[i as int] == c@);
            assert(node2@.children[i as int] == other@);
            assert(decreases_to!(n0 => n0.children[i as int]));
            assert(rest@ =~= r0.subrange(i + 1, r0.len() as int));
        }
        let cws = match line {
            Some(s) => {
                if c.wrapper.info.eline == s {
                    ws_copy(&other.wrapper.wspaces)
                } else {
                    line = None;
                    ws_copy(&c.wrapper.wspaces)
                }
            },
            None => ws_copy(&c.wrapper.wspaces),
        };
        line = adjust_exec(&mut c, cws, other, line);
        let ghost o = rnodes_v(done);
        done.push(c);
        proof {
            assert(rnodes_v(done) =~= o.push(c@));
        }
        i = i + 1;
    }
    let mut tail = rest;
    proof {
        assert(tail@ == r0.subrange(k as int, r0.len() as int));
    }
    let ghost dv = rnodes_v(done);
    let ghost tv = rnodes_v(tail);
    done.append(&mut tail);
    proof {
        assert(tv =~= n0.children.skip(k as int));
        assert(rnodes_v(done) =~= dv + tv);
    }
    node1.children = done;
    node1.wrapper.wspaces = ws1;
    line
}

/// Gives `node1`, transformed code, the whitespace of the formatted code
/// `node2` where code was added, as `adjusted_w` says; the line still
/// followed.
pub fn adjustformat(node1: &mut Rnode, node2: &Rnode, line: Option<usize>) -> (r: Option<usize>)
    ensures
        (final(node1)@, r) == adjusted_w(old(node1)@, old(node1)@.wrapper.wspaces, node2@, line),
{
    let ws = ws_copy(&node1.wrapper.wspaces);
    adjust_exec(node1, ws, node2, line)
}

} // verus!
