//! Turning the parsed tree of Rust code into an `Rnode` tree: whitespace
//! and comments become the spacing around the nodes, and the token tree of
//! a macro call is reparsed as the expressions that it holds.
use vstd::prelude::*;
use crate::commons::info;
use crate::commons::info::ParseInfoV;
use crate::commons::syntax::{
    parse_tree, spec_error_report, spec_parse_source, walk_tree, LineIndex, RawTree, RawTreeV, SyntaxElemV,
};
use crate::commons::syntax_kind::Tag;
use crate::commons::text::{
    chars_contains, chars_of, chars_replace, push_all, push_str, spec_contains, spec_replace, string_of,
};
use crate::parsing_rs::ast_rs::{coccivar_mark, rnodes_v, RWrapV, Rnode, RnodeV};
use crate::parsing_rs::parse_rs::{fill_wrap, rs_wrap};

verus! {

/// `n` with leading whitespace `w`.
pub open spec fn with_ws0(n: RnodeV, w: Seq<char>) -> RnodeV {
    RnodeV { wrapper: RWrapV { wspaces: (w, n.wrapper.wspaces.1), ..n.wrapper }, ..n }
}

/// `n` with trailing whitespace `w`.
pub open spec fn with_ws1(n: RnodeV, w: Seq<char>) -> RnodeV {
    RnodeV { wrapper: RWrapV { wspaces: (n.wrapper.wspaces.0, w), ..n.wrapper }, ..n }
}

/// `a` moved forward (or back) by `d`, kept within the range of `usize`.
pub open spec fn shift_num(a: usize, d: usize, forward: bool) -> usize {
    if forward {
        if a + d <= usize::MAX {
            (a + d) as usize
        } else {
            usize::MAX
        }
    } else if a >= d {
        (a - d) as usize
    } else {
        0
    }
}

/// A position moved forward (or back) by the start of `by`.
pub open spec fn shift_info(p: ParseInfoV, by: ParseInfoV, forward: bool) -> ParseInfoV {
    ParseInfoV {
        charstart: shift_num(p.charstart, by.charstart, forward),
        charend: shift_num(p.charend, by.charstart, forward),
        sline: shift_num(p.sline, by.sline, forward),
        eline: shift_num(p.eline, by.sline, forward),
        ..p
    }
}

/// A tree with the position of each node moved by the start of `by`.
pub open spec fn shift_tree(n: RnodeV, by: ParseInfoV, forward: bool) -> RnodeV
    decreases n, 1int,
{
    RnodeV {
        wrapper: RWrapV { info: shift_info(n.wrapper.info, by, forward), ..n.wrapper },
        children: shift_trees(n.children, by, forward, n.children.len() as int),
        ..n
    }
}

/// The first `k` trees of `s`, moved by the start of `by`.
pub open spec fn shift_trees(s: Seq<RnodeV>, by: ParseInfoV, forward: bool, k: int) -> Seq<RnodeV>
    decreases s, k,
{
    if k <= 0 || k > s.len() {
        Seq::empty()
    } else {
        shift_trees(s, by, forward, k - 1).push(shift_tree(s[k - 1], by, forward))
    }
}

/// The code that the token tree `tt` of a macro call is parsed in: the
/// argument list of a call.
pub open spec fn wrapped_tt(tt: Seq<char>) -> Seq<char> {
    "fn func() {\n            fcall("@ + tt + ")\n        }"@
}

/// The arguments of the call in the tree of `wrapped_tt`, without the
/// surrounding parentheses; `None` when the tree has another shape.
pub open spec fn tt_args(root: RnodeV) -> Option<Seq<RnodeV>> {
    if root.children.len() > 0 && root.children[0].children.len() > 3
        && root.children[0].children[3].children.len() > 0
        && root.children[0].children[3].children[0].children.len() > 1
        && root.children[0].children[3].children[0].children[1].children.len() > 1
        && root.children[0].children[3].children[0].children[1].children[1].children.len() >= 3 {
        let args = root.children[0].children[3].children[0].children[1].children[1].children;
        Some(args.subrange(1, args.len() - 1))
    } else {
        None
    }
}

/// A tree with no element, used as a placeholder in termination measures.
pub open spec fn no_tree() -> RawTreeV {
    RawTreeV {
        elem: SyntaxElemV { code: 0, name: Seq::empty(), keyword: false, start: 0, end: 0, text: Seq::empty() },
        tag: Tag::SourceFile,
        children: Seq::empty(),
    }
}

/// The expressions that the token tree `tt` holds, placed as if they began
/// the code; `fuel` bounds the nesting of macro calls.
pub open spec fn tt_exprs(tt: Seq<char>, fuel: nat) -> Result<Seq<RnodeV>, Seq<char>>
    decreases fuel, 2int, no_tree(), 0int,
{
    match rs_tree(wrapped_tt(tt), fuel) {
        Err(e) => Err(e),
        Ok(root) => match tt_args(root) {
            Some(args) => Ok(shift_trees(args, args[0].wrapper.info, false, args.len() as int)),
            None => Err("macro arguments of unexpected shape"@),
        },
    }
}

/// The tree of the Rust code `text`, with fuel enough for every nesting of
/// macro calls in it: one for each of its bytes.
pub open spec fn rs_parse(text: Seq<char>) -> Result<RnodeV, Seq<char>> {
    rs_tree(text, vstd::utf8::encode_utf8(text).len() as usize as nat)
}

/// The tree of the Rust code `text`, or the report of its parse errors.
pub open spec fn rs_tree(text: Seq<char>, fuel: nat) -> Result<RnodeV, Seq<char>>
    decreases fuel, 1int, no_tree(), 0int,
{
    let p = spec_parse_source(text);
    if p.errors.len() == 0 && walk_tree(p.events) is Some {
        rs_node(vstd::utf8::encode_utf8(text), walk_tree(p.events)->0, fuel)
    } else {
        Err(spec_error_report(text, p.errors))
    }
}

/// The node for tree `t` of the text with bytes `b`.  Whitespace left over
/// after the last child becomes the last child's trailing whitespace.
pub open spec fn rs_node(b: Seq<u8>, t: RawTreeV, fuel: nat) -> Result<RnodeV, Seq<char>>
    decreases fuel, 0int, t, t.children.len() + 1,
{
    match rs_kids(b, t, t.children.len() as int, fuel) {
        Err(e) => Err(e),
        Ok((kids, ws)) => {
            let kids2 = if ws.len() != 0 && kids.len() > 0 {
                kids.update(kids.len() - 1, with_ws1(kids.last(), ws))
            } else {
                kids
            };
            Ok(
                RnodeV {
                    wrapper: rs_wrap(b, t.elem),
                    astnode: if kids2.len() == 0 {
                        Some(t.elem.text)
                    } else {
                        None
                    },
                    kind: t.tag,
                    children: kids2,
                },
            )
        },
    }
}

/// The children built from the first `i` children of `t`, with the
/// whitespace seen since the last of them.  Whitespace before a node is the
/// previous node's trailing whitespace (or, before the first node, that
/// node's leading whitespace); an added-code marker in it becomes the next
/// node's leading whitespace instead.
pub open spec fn rs_kids(b: Seq<u8>, t: RawTreeV, i: int, fuel: nat) -> Result<
    (Seq<RnodeV>, Seq<char>),
    Seq<char>,
>
    decreases fuel, 0int, t, i,
{
    if i <= 0 || i > t.children.len() {
        Ok((Seq::empty(), Seq::empty()))
    } else {
        match rs_kids(b, t, i - 1, fuel) {
            Err(e) => Err(e),
            Ok((kids, ws)) => {
                let c = t.children[i - 1];
                if c.tag == Tag::Whitespace || c.tag == Tag::Comment {
                    Ok((kids, ws + c.elem.text))
                } else if c.tag == Tag::TokenTree {
                    if fuel == 0 {
                        Err("macro calls nested too deeply"@)
                    } else {
                        match tt_exprs(c.elem.text, (fuel - 1) as nat) {
                            Err(e) => Err(e),
                            Ok(es) => Ok(
                                (kids + shift_trees(es, rs_wrap(b, c.elem).info, true, es.len() as int), ws),
                            ),
                        }
                    }
                } else {
                    match rs_node(b, c, fuel) {
                        Err(e) => Err(e),
                        Ok(nn) => if kids.len() != 0 {
                            let marked = spec_contains(ws, coccivar_mark());
                            let nn2 = if marked {
                                with_ws0(nn, coccivar_mark())
                            } else {
                                nn
                            };
                            let ws2 = if marked {
                                spec_replace(ws, coccivar_mark(), Seq::empty())
                            } else {
                                ws
                            };
                            Ok(
                                (
                                    kids.update(kids.len() - 1, with_ws1(kids.last(), ws2)).push(nn2),
                                    Seq::empty(),
                                ),
                            )
                        } else {
                            Ok((kids.push(with_ws0(nn, ws)), Seq::empty()))
                        },
                    }
                }
            },
        }
    }
}

proof fn lemma_kids_error_stays(b: Seq<u8>, t: RawTreeV, i: int, j: int, fuel: nat)
    requires
        0 <= i <= j <= t.children.len(),
        rs_kids(b, t, i, fuel) is Err,
    ensures
        rs_kids(b, t, j, fuel) == rs_kids(b, t, i, fuel),
    decreases j - i,
{
    if i < j {
        lemma_kids_error_stays(b, t, i, j - 1, fuel);
    }
}

/// Moves the position of every node of `n` by the start of `by`.
fn shift_node(n: &mut Rnode, by: &info::ParseInfo, forward: bool)
    ensures
        final(n)@ == shift_tree(old(n)@, by@, forward),
    decreases *old(n),
{
    let ghost n0 = n@;
    let p = &n.wrapper.info;
    let cs = if forward {
        if p.charstart <= usize::MAX - by.charstart { p.charstart + by.charstart } else { usize::MAX }
    } else if p.charstart >= by.charstart {
        p.charstart - by.charstart
    } else {
        0
    };
    let ce = if forward {
        if p.charend <= usize::MAX - by.charstart { p.charend + by.charstart } else { usize::MAX }
    } else if p.charend >= by.charstart {
        p.charend - by.charstart
    } else {
        0
    };
    let sl = if forward {
        if p.sline <= usize::MAX - by.sline { p.sline + by.sline } else { usize::MAX }
    } else if p.sline >= by.sline {
        p.sline - by.sline
    } else {
        0
    };
    let el = if forward {
        if p.eline <= usize::MAX - by.sline { p.eline + by.sline } else { usize::MAX }
    } else if p.eline >= by.sline {
        p.eline - by.sline
    } else {
        0
    };
    n.wrapper.info.charstart = cs;
    n.wrapper.info.charend = ce;
    n.wrapper.info.sline = sl;
    n.wrapper.info.eline = el;
    shift_nodes(&mut n.children, by, forward);
    proof {
        assert(n@.children == shift_trees(n0.children, by@, forward, n0.children.len() as int));
        assert(n@ == shift_tree(n0, by@, forward));
    }
}

/// Moves the position of every node of the trees of `v` by the start of
/// `by`.
fn shift_nodes(v: &mut Vec<Rnode>, by: &info::ParseInfo, forward: bool)
    ensures
        rnodes_v(*final(v)) == shift_trees(rnodes_v(*old(v)), by@, forward, old(v)@.len() as int),
    decreases *old(v),
{
    let ghost v0 = rnodes_v(*v);
    let mut out: Vec<Rnode> = Vec::new();
    let mut rest: Vec<Rnode> = Vec::new();
    std::mem::swap(&mut rest, v);
    let ghost r0 = rest@;
    let mut i: usize = 0;
    proof {
        assert(r0.len() == rest.len());
        assert(rest@ =~= r0.subrange(0, r0.len() as int));
        assert(rnodes_v(out) =~= Seq::<RnodeV>::empty());
    }
    while rest.len() > 0
        invariant
            v0 == rnodes_v(*old(v)),
            r0 == old(v)@,
            i <= r0.len(),
            rest@ == r0.subrange(i as int, r0.len() as int),
            rnodes_v(out) == shift_trees(v0, by@, forward, i as int),
            v0.len() == r0.len(),
            r0.len() <= usize::MAX,
        decreases rest@.len(),
    {
        let mut c = rest.remove(0);
        proof {
            assert(c == r0[i as int]);
            assert(v0[i as int] == c@);
            assert(decreases_to!(*old(v) => r0[i as int]));
        }
        shift_node(&mut c, by, forward);
        let ghost o = rnodes_v(out);
        out.push(c);
        proof {
            assert(rnodes_v(out) =~= o.push(c@));
            assert(rest@ =~= r0.subrange(i + 1, r0.len() as int));
        }
        i = i + 1;
    }
    *v = out;
}

/// The expressions that the token tree `tt` of a macro call holds, placed
/// as if they began the code.
fn ttree_to_expr_list(tt: &String, fuel: usize) -> (r: Result<Vec<Rnode>, String>)
    ensures
        match tt_exprs(tt@, fuel as nat) {
            Ok(es) => r matches Ok(v) && rnodes_v(v) == es,
            Err(e) => r matches Err(m) && m@ == e,
        },
    decreases fuel, 2int, no_tree(), 0int,
{
    let mut w = chars_of("fn func() {\n            fcall(");
    push_str(&mut w, tt.as_str());
    push_str(&mut w, ")\n        }");
    let wrapped = string_of(&w);
    proof {
        assert(wrapped@ =~= wrapped_tt(tt@)) by {
            reveal_strlit("fn func() {\n            fcall(");
            reveal_strlit(")\n        }");
            reveal_strlit("fn func() {\n            fcall(");
        }
    }
    let root = match parse_with_fuel(wrapped.as_str(), fuel) {
        Ok(root) => root,
        Err(e) => {
            return Err(e);
        },
    };
    let ghost rv = root@;
    let mut root = root;
    let bad = string_of(&chars_of("macro arguments of unexpected shape"));
    proof {
        assert(rv.children == rnodes_v(root.children));
    }
    if root.children.len() == 0 {
        return Err(bad);
    }
    proof {
        assert(rv.children[0] == root.children@[0]@);
    }
    let mut f = root.children.remove(0);
    let ghost fv = f@;
    if f.children.len() <= 3 {
        return Err(bad);
    }
    proof {
        assert(fv.children[3] == f.children@[3]@);
    }
    let mut blk = f.children.remove(3);
    let ghost bv = blk@;
    if blk.children.len() == 0 {
        return Err(bad);
    }
    proof {
        assert(bv.children[0] == blk.children@[0]@);
    }
    let mut sl = blk.children.remove(0);
    let ghost sv = sl@;
    if sl.children.len() <= 1 {
        return Err(bad);
    }
    proof {
        assert(sv.children[1] == sl.children@[1]@);
    }
    let mut call = sl.children.remove(1);
    let ghost cv = call@;
    if call.children.len() <= 1 {
        return Err(bad);
    }
    proof {
        assert(cv.children[1] == call.children@[1]@);
    }
    let mut args = call.children.remove(1);
    let ghost av = args@;
    if args.children.len() < 3 {
        return Err(bad);
    }
    let _open = args.children.remove(0);
    let _close = args.children.pop();
    proof {
        assert(rnodes_v(args.children) =~= av.children.subrange(1, av.children.len() - 1));
        assert(tt_args(rv) == Some(rnodes_v(args.children)));
        assert(rnodes_v(args.children)[0] == args.children@[0]@);
    }
    let by = args.children[0].wrapper.info.copy();
    let mut kids = args.children;
    shift_nodes(&mut kids, &by, false);
    Ok(kids)
}

/// Parses `text` into its tree, with `fuel` bounding the nesting of macro
/// calls whose arguments are reparsed.
pub fn parse_with_fuel(text: &str, fuel: usize) -> (r: Result<Rnode, String>)
    ensures
        match rs_tree(text@, fuel as nat) {
            Ok(t) => r matches Ok(n) && n@ == t,
            Err(m) => r matches Err(e) && e@ == m,
        },
    decreases fuel, 1int, no_tree(), 0int,
{
    let src = text.as_bytes();
    let idx = LineIndex::new(src);
    match parse_tree(text) {
        Ok(t) => work_node(src, &idx, &t, fuel),
        Err(m) => Err(string_of(&m)),
    }
}

/// `n` with trailing whitespace `w`.
fn set_trailing(n: &mut Rnode, w: &Vec<char>)
    ensures
        final(n)@ == with_ws1(old(n)@, w@),
{
    n.wrapper.wspaces.1 = string_of(w);
}

/// `n` with leading whitespace `w`.
fn set_leading(n: &mut Rnode, w: &Vec<char>)
    ensures
        final(n)@ == with_ws0(old(n)@, w@),
{
    n.wrapper.wspaces.0 = string_of(w);
}

/// Sets the trailing whitespace of the last node of `v` to `w`.
fn set_last_trailing(v: &mut Vec<Rnode>, w: &Vec<char>)
    requires
        old(v)@.len() > 0,
    ensures
        rnodes_v(*final(v)) == rnodes_v(*old(v)).update(
            old(v)@.len() - 1,
            with_ws1(rnodes_v(*old(v)).last(), w@),
        ),
{
    let ghost v0 = rnodes_v(*v);
    match v.pop() {
        Some(mut last) => {
            proof {
                assert(v0.last() == last@);
            }
            set_trailing(&mut last, w);
            v.push(last);
            proof {
                assert(rnodes_v(*v) =~= v0.update(v0.len() - 1, with_ws1(v0.last(), w@)));
            }
        },
        None => {},
    }
}

/// Builds the node for tree `t` of the text with bytes `src`.
pub fn work_node(src: &[u8], idx: &LineIndex, t: &RawTree, fuel: usize) -> (r: Result<Rnode, String>)
    requires
        idx.describes(src@),
    ensures
        match rs_node(src@, t@, fuel as nat) {
            Ok(n) => r matches Ok(x) && x@ == n,
            Err(e) => r matches Err(m) && m@ == e,
        },
    decreases fuel, 0int, t@, t.children@.len() + 1,
{
    let ghost tv = t@;
    let ghost b = src@;
    let mut children: Vec<Rnode> = Vec::new();
    let mut ws: Vec<char> = Vec::new();
    let mut i: usize = 0;
    proof {
        assert(rnodes_v(children) =~= Seq::<RnodeV>::empty());
    }
    while i < t.children.len()
        invariant
            tv == t@,
            b == src@,
            i <= t.children@.len(),
            tv.children.len() == t.children@.len(),
            idx.describes(src@),
            rs_kids(b, tv, i as int, fuel as nat) == Ok::<(Seq<RnodeV>, Seq<char>), Seq<char>>(
                (rnodes_v(children), ws@),
            ),
        decreases t.children@.len() - i,
    {
        let c = &t.children[i];
        proof {
            assert(tv.children[i as int] == c@);
        }
        if c.tag == Tag::Whitespace || c.tag == Tag::Comment {
            push_str(&mut ws, c.elem.text.as_str());
        } else if c.tag == Tag::TokenTree {
            if fuel == 0 {
                proof {
                    lemma_kids_error_stays(b, tv, i + 1, tv.children.len() as int, fuel as nat);
                }
                return Err(string_of(&chars_of("macro calls nested too deeply")));
            }
            match ttree_to_expr_list(&c.elem.text, fuel - 1) {
                Err(e) => {
                    proof {
                        lemma_kids_error_stays(b, tv, i + 1, tv.children.len() as int, fuel as nat);
                    }
                    return Err(e);
                },
                Ok(es) => {
                    let mut es = es;
                    let w = fill_wrap(src, idx, &c.elem);
                    let ghost e0 = rnodes_v(es);
                    shift_nodes(&mut es, &w.info, true);
                    let ghost before = rnodes_v(children);
                    let ghost ev = rnodes_v(es);
                    children.append(&mut es);
                    proof {
                        assert(rnodes_v(children) =~= before + ev);
                    }
                },
            }
        } else {
            match work_node(src, idx, c, fuel) {
                Err(e) => {
                    proof {
                        lemma_kids_error_stays(b, tv, i + 1, tv.children.len() as int, fuel as nat);
                    }
                    return Err(e);
                },
                Ok(nn) => {
                    let mut nn = nn;
                    if children.len() != 0 {
                        let mark = chars_of("/*COCCIVAR*/");
                        if chars_contains(&ws, &mark) {
                            set_leading(&mut nn, &mark);
                            let empty: Vec<char> = Vec::new();
                            ws = chars_replace(&ws, &mark, &empty);
                            proof {
                                assert(empty@ =~= Seq::<char>::empty());
                            }
                        }
                        set_last_trailing(&mut children, &ws);
                        let ghost before = rnodes_v(children);
                        children.push(nn);
                        proof {
                            assert(rnodes_v(children) =~= before.push(nn@));
                        }
                    } else {
                        set_leading(&mut nn, &ws);
                        let ghost before = rnodes_v(children);
                        children.push(nn);
                        proof {
                            assert(rnodes_v(children) =~= before.push(nn@));
                        }
                    }
                    ws = Vec::new();
                    proof {
                        assert(ws@ =~= Seq::<char>::empty());
                    }
                },
            }
        }
        i = i + 1;
    }
    if ws.len() != 0 && children.len() > 0 {
        set_last_trailing(&mut children, &ws);
    }
    let w = fill_wrap(src, idx, &t.elem);
    let astnode = if children.len() == 0 {
        Some(t.elem.text.clone())
    } else {
        None
    };
    let n = Rnode { wrapper: w, astnode, kind: t.tag, children };
    proof {
        assert(n@.astnode == (if n@.children.len() == 0 {
            Some(tv.elem.text)
        } else {
            None::<Seq<char>>
        }));
    }
    Ok(n)
}

} // verus!
