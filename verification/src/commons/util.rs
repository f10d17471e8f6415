//! Helpers on trees of semantic patches: splitting node lists into their
//! parts, and attaching `+` code to the first or last token of a node.
use vstd::prelude::*;
use crate::parsing_cocci::ast0::{can_attach, mcodekind_v, pluses_of, snodes_v, McodekindV, Mcodekind, Snode, SnodeV, WrapV};

verus! {

/// Mutable access to the first two elements of `v`.
pub fn tuple_of_2<T>(v: &mut Vec<T>) -> (r: (&mut T, &mut T))
    requires
        old(v)@.len() >= 2,
    ensures
        *r.0 == old(v)@[0],
        *r.1 == old(v)@[1],
        final(v)@ == old(v)@.update(0, *final(r.0)).update(1, *final(r.1)),
{
    let s = v.as_mut_slice();
    let (a, rest) = s.split_at_mut(1);
    let (b, _tail) = rest.split_at_mut(1);
    let x = match a.first_mut() {
        Some(x) => x,
        None => unreached(),
    };
    let y = match b.first_mut() {
        Some(y) => y,
        None => unreached(),
    };
    (x, y)
}

/// Mutable access to the three elements of `v`, which has exactly three.
pub fn tuple_of_3<T>(v: &mut Vec<T>) -> (r: (&mut T, &mut T, &mut T))
    requires
        old(v)@.len() == 3,
    ensures
        *r.0 == old(v)@[0],
        *r.1 == old(v)@[1],
        *r.2 == old(v)@[2],
        final(v)@ == old(v)@.update(0, *final(r.0)).update(1, *final(r.1)).update(2, *final(r.2)),
{
    tuple_of_maybe_3(v)
}

/// Mutable access to the first three elements of `v`.
pub fn tuple_of_maybe_3<T>(v: &mut Vec<T>) -> (r: (&mut T, &mut T, &mut T))
    requires
        old(v)@.len() >= 3,
    ensures
        *r.0 == old(v)@[0],
        *r.1 == old(v)@[1],
        *r.2 == old(v)@[2],
        final(v)@ == old(v)@.update(0, *final(r.0)).update(1, *final(r.1)).update(2, *final(r.2)),
{
    let s = v.as_mut_slice();
    let (a, rest) = s.split_at_mut(1);
    let (b, rest2) = rest.split_at_mut(1);
    let (c, _tail) = rest2.split_at_mut(1);
    let x = match a.first_mut() {
        Some(x) => x,
        None => unreached(),
    };
    let y = match b.first_mut() {
        Some(y) => y,
        None => unreached(),
    };
    let z = match c.first_mut() {
        Some(z) => z,
        None => unreached(),
    };
    (x, y, z)
}

/// The modifier of the first token of a tree.
pub open spec fn first_leaf_mcode(n: SnodeV) -> McodekindV
    decreases n,
{
    if n.children.len() == 0 {
        n.wrapper.mcodekind
    } else {
        first_leaf_mcode(n.children[0])
    }
}

/// The modifier of the last token of a tree.
pub open spec fn last_leaf_mcode(n: SnodeV) -> McodekindV
    decreases n,
{
    if n.children.len() == 0 {
        n.wrapper.mcodekind
    } else {
        last_leaf_mcode(n.children[n.children.len() - 1])
    }
}

/// A modifier with `p` added to the code attached before its node (to the
/// replacing code of a removed node).
pub open spec fn with_front_pluses(m: McodekindV, p: Seq<SnodeV>) -> McodekindV {
    match m {
        McodekindV::Context(a, b) => McodekindV::Context(a + p, b),
        McodekindV::Minus(a) => McodekindV::Minus(a + p),
        m => m,
    }
}

/// A modifier with `p` added to the code attached after its node (to the
/// replacing code of a removed node).
pub open spec fn with_back_pluses(m: McodekindV, p: Seq<SnodeV>) -> McodekindV {
    match m {
        McodekindV::Context(a, b) => McodekindV::Context(a, b + p),
        McodekindV::Minus(a) => McodekindV::Minus(a + p),
        m => m,
    }
}

/// A tree with `p` attached before its first token.
pub open spec fn attached_front(n: SnodeV, p: Seq<SnodeV>) -> SnodeV
    decreases n,
{
    if n.children.len() == 0 {
        SnodeV { wrapper: WrapV { mcodekind: with_front_pluses(n.wrapper.mcodekind, p), ..n.wrapper }, ..n }
    } else {
        SnodeV { children: n.children.update(0, attached_front(n.children[0], p)), ..n }
    }
}

/// A tree with `p` attached after its last token.
pub open spec fn attached_back(n: SnodeV, p: Seq<SnodeV>) -> SnodeV
    decreases n,
{
    if n.children.len() == 0 {
        SnodeV { wrapper: WrapV { mcodekind: with_back_pluses(n.wrapper.mcodekind, p), ..n.wrapper }, ..n }
    } else {
        SnodeV {
            children: n.children.update(
                n.children.len() - 1,
                attached_back(n.children[n.children.len() - 1], p),
            ),
            ..n
        }
    }
}

/// Whether `+` code can be attached before the first token of `node`.
pub fn front_attachable(node: &Snode) -> (r: bool)
    ensures
        r == can_attach(first_leaf_mcode(node@)),
    decreases node,
{
    if node.children.len() == 0 {
        proof {
            assert(node@.wrapper.mcodekind == mcodekind_v(node.wrapper.mcodekind));
        }
        match &node.wrapper.mcodekind {
            Mcodekind::Context(_, _) | Mcodekind::Minus(_) => true,
            _ => false,
        }
    } else {
        proof {
            assert(node@.children[0] == node.children@[0]@);
        }
        front_attachable(&node.children[0])
    }
}

/// Whether `+` code can be attached after the last token of `node`.
pub fn back_attachable(node: &Snode) -> (r: bool)
    ensures
        r == can_attach(last_leaf_mcode(node@)),
    decreases node,
{
    let len = node.children.len();
    if len == 0 {
        proof {
            assert(node@.wrapper.mcodekind == mcodekind_v(node.wrapper.mcodekind));
        }
        match &node.wrapper.mcodekind {
            Mcodekind::Context(_, _) | Mcodekind::Minus(_) => true,
            _ => false,
        }
    } else {
        proof {
            assert(node@.children[len - 1] == node.children@[len - 1]@);
        }
        back_attachable(&node.children[len - 1])
    }
}

/// Attaches `plus` before the first token of `node`.
pub fn attachfront(node: &mut Snode, plus: Vec<Snode>)
    requires
        can_attach(first_leaf_mcode(old(node)@)),
    ensures
        final(node)@ == attached_front(old(node)@, snodes_v(plus)),
    decreases *old(node),
{
    if node.children.len() == 0 {
        node.wrapper.mcodekind.push_pluses_front(plus);
    } else {
        proof {
            assert(node@.children[0] == node.children@[0]@);
        }
        let ghost n0 = node@;
        attachfront(&mut node.children[0], plus);
        proof {
            assert(snodes_v(node.children) =~= n0.children.update(0, attached_front(n0.children[0], snodes_v(plus))));
        }
    }
}

/// Attaches `plus` after the last token of `node`.
pub fn attachback(node: &mut Snode, plus: Vec<Snode>)
    requires
        can_attach(last_leaf_mcode(old(node)@)),
    ensures
        final(node)@ == attached_back(old(node)@, snodes_v(plus)),
    decreases *old(node),
{
    let len = node.children.len();
    if len == 0 {
        node.wrapper.mcodekind.push_pluses_back(plus);
    } else {
        proof {
            assert(node@.children[len - 1] == node.children@[len - 1]@);
        }
        let ghost n0 = node@;
        attachback(&mut node.children[len - 1], plus);
        proof {
            assert(snodes_v(node.children) =~= n0.children.update(
                len - 1,
                attached_back(n0.children[len - 1], snodes_v(plus)),
            ));
        }
    }
}

/// The statement list of the function that wraps the code of a rule:
/// the list in the block of the first item.
pub open spec fn stmtlist_of(n: SnodeV) -> Option<SnodeV> {
    if n.children.len() > 0 && n.children[0].children.len() > 3 && n.children[0].children[3].children.len() > 0 {
        Some(n.children[0].children[3].children[0])
    } else {
        None
    }
}

/// `n` with its statement list replaced by `sl`.
pub open spec fn with_stmtlist(n: SnodeV, sl: SnodeV) -> SnodeV {
    let f = n.children[0];
    let blk = f.children[3];
    SnodeV {
        children: n.children.update(
            0,
            SnodeV {
                children: f.children.update(3, SnodeV { children: blk.children.update(0, sl), ..blk }),
                ..f
            },
        ),
        ..n
    }
}

/// `n` with the braces of its statement list removed, the code attached
/// before the closing brace moving after the last statement; `None` when
/// `n` has no statement list with a statement in it, or that code cannot be
/// attached there.
pub open spec fn braces_removed(n: SnodeV) -> Option<SnodeV> {
    match stmtlist_of(n) {
        None => None,
        Some(sl) => if sl.children.len() >= 3 {
            let inner = sl.children.subrange(1, sl.children.len() - 1);
            let p = pluses_of(sl.children.last().wrapper.mcodekind).0;
            if p.len() == 0 {
                Some(with_stmtlist(n, SnodeV { children: inner, ..sl }))
            } else if can_attach(last_leaf_mcode(inner.last())) {
                Some(
                    with_stmtlist(
                        n,
                        SnodeV { children: inner.update(inner.len() - 1, attached_back(inner.last(), p)), ..sl },
                    ),
                )
            } else {
                None
            }
        } else {
            None
        },
    }
}

/// Takes the braces off the statement list of the function that wraps the
/// code of a rule, moving the code attached before the closing brace after
/// the last statement; `false` (and `node` unchanged) when that cannot be
/// done.
pub fn removestmtbracesaddpluses(node: &mut Snode) -> (r: bool)
    ensures
        r == (braces_removed(old(node)@) is Some),
        r ==> final(node)@ == braces_removed(old(node)@)->0,
        !r ==> final(node)@ == old(node)@,
{
    let ghost n0 = node@;
    if node.children.len() == 0 || node.children[0].children.len() <= 3
        || node.children[0].children[3].children.len() == 0 {
        proof {
            if node.children.len() > 0 {
                assert(n0.children[0] == node.children@[0]@);
                if node.children@[0].children.len() > 3 {
                    assert(n0.children[0].children[3] == node.children@[0].children@[3]@);
                }
            }
        }
        return false;
    }
    proof {
        assert(n0.children[0] == node.children@[0]@);
        assert(n0.children[0].children[3] == node.children@[0].children@[3]@);
        assert(n0.children[0].children[3].children[0] == node.children@[0].children@[3].children@[0]@);
    }
    let sl_len = node.children[0].children[3].children[0].children.len();
    if sl_len < 3 {
        return false;
    }
    proof {
        let slv = n0.children[0].children[3].children[0];
        let slx = node.children@[0].children@[3].children@[0];
        assert(slv.children[sl_len - 1] == slx.children@[sl_len - 1]@);
        assert(slv.children[sl_len - 2] == slx.children@[sl_len - 2]@);
    }
    let pl = node.children[0].children[3].children[0].children[sl_len - 1].wrapper.mcodekind.getpluses_or_none();
    if pl.len() != 0 && !back_attachable(&node.children[0].children[3].children[0].children[sl_len - 2]) {
        return false;
    }
    let mut f = node.children.remove(0);
    let ghost fv = f@;
    let mut blk = f.children.remove(3);
    let ghost bv = blk@;
    let mut sl = blk.children.remove(0);
    let ghost sv = sl@;
    let _open = sl.children.remove(0);
    let _close = sl.children.pop();
    proof {
        assert(snodes_v(sl.children) =~= sv.children.subrange(1, sv.children.len() - 1));
    }
    let last = sl.children.len() - 1;
    if pl.len() != 0 {
        proof {
            assert(snodes_v(sl.children)[last as int] == sl.children@[last as int]@);
        }
        let ghost before = snodes_v(sl.children);
        attachback(&mut sl.children[last], pl);
        proof {
            assert(snodes_v(sl.children) =~= before.update(
                last as int,
                attached_back(before[last as int], pluses_of(sv.children.last().wrapper.mcodekind).0),
            ));
        }
    }
    blk.children.insert(0, sl);
    f.children.insert(3, blk);
    node.children.insert(0, f);
    proof {
        assert(snodes_v(blk.children) =~= bv.children.update(0, sl@));
        assert(snodes_v(f.children) =~= fv.children.update(3, blk@));
        assert(snodes_v(node.children) =~= n0.children.update(0, f@));
        assert(node@ == braces_removed(n0)->0);
    }
    true
}

/// The statement list of the function that wraps the code of a rule.
pub fn getstmtlist(node: &Snode) -> (r: Option<&Snode>)
    ensures
        match stmtlist_of(node@) {
            Some(sl) => r matches Some(x) && x@ == sl,
            None => r is None,
        },
{
    if node.children.len() == 0 || node.children[0].children.len() <= 3
        || node.children[0].children[3].children.len() == 0 {
        proof {
            if node.children.len() > 0 {
                assert(node@.children[0] == node.children@[0]@);
                if node.children@[0].children.len() > 3 {
                    assert(node@.children[0].children[3] == node.children@[0].children@[3]@);
                }
            }
        }
        return None;
    }
    proof {
        assert(node@.children[0] == node.children@[0]@);
        assert(node@.children[0].children[3] == node.children@[0].children@[3]@);
        assert(node@.children[0].children[3].children[0] == node.children@[0].children@[3].children@[0]@);
    }
    Some(&node.children[0].children[3].children[0])
}

} // verus!
