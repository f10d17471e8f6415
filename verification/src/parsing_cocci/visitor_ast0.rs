//! Building the tree of a semantic patch from the parsed code that holds it:
//! whitespace is dropped, a `/*+*/`, `/*-*/` or `/**/`-style modifier
//! comment at the start of a line gives its modifier to the next element,
//! and `if COCCIVAR { .. }` blocks become disjunctions.
use vstd::prelude::*;
use crate::commons::syntax::{
    line_col_at, line_col_in, parse_tree, spec_error_report, spec_parse_source, walk_tree, LineIndex,
    RawTree, RawTreeV, SyntaxElem, SyntaxElemV,
};
use crate::commons::syntax_kind::Tag;
use crate::commons::text::{str_eq, string_of};
use crate::parsing_cocci::ast0::{
    mcodekind_of, snode_string, snodes_v, Dummy, Info, InfoV, MetaVar, MetaVarV, McodekindV, MODKIND,
    PositionInfo, Snode, SnodeV, Wrap, WrapV,
};

verus! {

/// The modifier that a byte names: `+`, `-` or `*`.
pub open spec fn byte_modkind(c: u8) -> Option<MODKIND> {
    if c == 43u8 {
        Some(MODKIND::PLUS)
    } else if c == 45u8 {
        Some(MODKIND::MINUS)
    } else if c == 42u8 {
        Some(MODKIND::STAR)
    } else {
        None
    }
}

/// For a comment element `e` of the text with bytes `b`: `Some(k)` when it
/// is a modifier comment (five bytes long, at the start of a line), with the
/// modifier that its third byte names; `None` for any other comment.
pub open spec fn comment_modkind(b: Seq<u8>, e: SyntaxElemV) -> Option<Option<MODKIND>> {
    let tb = vstd::utf8::encode_utf8(e.text);
    if e.end - e.start == 5 && line_col_in(b, e.start as int).1 == 0 && tb.len() > 2 {
        Some(byte_modkind(tb[2]))
    } else {
        None
    }
}

/// The position of element `e` of the text with bytes `b`.
pub open spec fn cocci_pos(b: Seq<u8>, e: SyntaxElemV) -> PositionInfo {
    PositionInfo {
        line_start: line_col_in(b, e.start as int).0 as usize,
        line_end: line_col_in(b, e.end as int).0 as usize,
        logical_start: 0,
        logical_end: 0,
        column: line_col_in(b, e.start as int).1 as usize,
        cstart: e.start,
        cend: e.end,
        offset: e.start,
    }
}

/// The information of a fresh node for element `e` with modifier `k`.
pub open spec fn cocci_wrap(b: Seq<u8>, e: SyntaxElemV, k: Option<MODKIND>) -> WrapV {
    WrapV {
        info: InfoV {
            pos_info: cocci_pos(b, e),
            attachable_start: false,
            attachable_end: false,
            strings_before: Seq::empty(),
            strings_after: Seq::empty(),
            is_symbol_ident: false,
        },
        index: 0,
        exp_ty: None,
        metavar: MetaVarV::NoMeta,
        true_if_arg: false,
        true_if_test: false,
        true_if_test_exp: false,
        iso_info: Seq::empty(),
        isdisj: false,
        modkind: k,
        mcodekind: mcodekind_of(k),
    }
}

/// Whether `n` is `if COCCIVAR { .. }` with a statement list in its block:
/// the form that a disjunction takes in the parsed semantic patch.
pub open spec fn is_disj_form(n: SnodeV) -> bool {
    &&& n.kind == Tag::IfExpr
    &&& n.children.len() > 2
    &&& n.children[1].kind == Tag::PathExpr
    &&& snode_string(n.children[1]) == "COCCIVAR"@
    &&& n.children[2].children.len() > 0
    &&& n.children[2].children[0].children.len() >= 2
}

/// `n` with a disjunction marked: its braces dropped from the statement list
/// of the first branch, and the node flagged as a disjunction.
pub open spec fn disj_marked(n: SnodeV) -> SnodeV {
    if is_disj_form(n) {
        let blk = n.children[2];
        let sl = blk.children[0];
        let sl2 = SnodeV { children: sl.children.subrange(1, sl.children.len() - 1), ..sl };
        let blk2 = SnodeV { children: blk.children.update(0, sl2), ..blk };
        SnodeV { wrapper: WrapV { isdisj: true, ..n.wrapper }, children: n.children.update(2, blk2), ..n }
    } else {
        n
    }
}

/// The semantic patch node for tree `t` of the text with bytes `b`, with
/// modifier `k`.  An expression statement with a single child (one without
/// `;`) stands for that child.
pub open spec fn cocci_node(b: Seq<u8>, t: RawTreeV, k: Option<MODKIND>) -> SnodeV
    decreases t, t.children.len() + 1,
{
    let cs = cocci_children(b, t, 0, None);
    let n = SnodeV {
        wrapper: cocci_wrap(b, t.elem, k),
        asttoken: if cs.len() == 0 {
            Some(t.elem.text)
        } else {
            None
        },
        kind: t.tag,
        iskeyword: t.elem.keyword,
        children: cs,
    };
    let d = disj_marked(n);
    if d.kind == Tag::ExprStmt && d.children.len() == 1 {
        d.children[0]
    } else {
        d
    }
}

/// The nodes for the children of `t` from index `i` on, when the modifier
/// pending for the next element is `k`.
pub open spec fn cocci_children(b: Seq<u8>, t: RawTreeV, i: int, k: Option<MODKIND>) -> Seq<SnodeV>
    decreases t, t.children.len() - i,
{
    if 0 <= i < t.children.len() {
        let c = t.children[i];
        if c.tag == Tag::Whitespace {
            cocci_children(b, t, i + 1, k)
        } else if c.tag == Tag::Comment {
            cocci_children(
                b,
                t,
                i + 1,
                match comment_modkind(b, c.elem) {
                    Some(m) => m,
                    None => k,
                },
            )
        } else {
            seq![cocci_node(b, c, k)] + cocci_children(b, t, i + 1, None)
        }
    } else {
        Seq::empty()
    }
}

/// The information of a fresh semantic patch node for element `node` of the
/// text with bytes `src`: its lines, column and offsets, plain context code.
pub fn fill_wrap(src: &[u8], lindex: &LineIndex, node: &SyntaxElem) -> (r: Wrap)
    requires
        lindex.describes(src@),
    ensures
        r@ == cocci_wrap(src@, node@, None),
{
    let (sline, scol) = line_col_at(lindex, node.start, Ghost(src@));
    let (eline, _ecol) = line_col_at(lindex, node.end, Ghost(src@));
    let pos_info = PositionInfo::new(sline, eline, 0, 0, scol, node.start, node.end, node.start);
    let b: Vec<(Dummy, PositionInfo)> = Vec::new();
    let a: Vec<(Dummy, PositionInfo)> = Vec::new();
    let info = Info::new(pos_info, false, false, b, a, false);
    let iso: Vec<(String, Dummy)> = Vec::new();
    let r = Wrap::new(info, 0, None, MetaVar::NoMeta, false, false, false, iso, false);
    proof {
        assert(r@.info.strings_before =~= Seq::<(Dummy, PositionInfo)>::empty());
        assert(r@.info.strings_after =~= Seq::<(Dummy, PositionInfo)>::empty());
        assert(r@.iso_info =~= Seq::<(Seq<char>, Dummy)>::empty());
    }
    r
}

/// The modifier set by a comment element, if it is a modifier comment.
fn comment_mod(src: &[u8], lindex: &LineIndex, e: &SyntaxElem) -> (r: Option<Option<MODKIND>>)
    requires
        lindex.describes(src@),
    ensures
        r == comment_modkind(src@, e@),
{
    let tb = e.text.as_str().as_bytes();
    let (_line, col) = line_col_at(lindex, e.start, Ghost(src@));
    if e.end >= e.start && e.end - e.start == 5 && col == 0 && tb.len() > 2 {
        let c = tb[2];
        Some(
            if c == 43u8 {
                Some(MODKIND::PLUS)
            } else if c == 45u8 {
                Some(MODKIND::MINUS)
            } else if c == 42u8 {
                Some(MODKIND::STAR)
            } else {
                None
            },
        )
    } else {
        None
    }
}

/// Marks `node` as a disjunction when it is one: `if COCCIVAR { .. }`, whose
/// first branch then loses its braces.
pub fn parsedisjs(node: &mut Snode)
    ensures
        final(node)@ == disj_marked(old(node)@),
{
    if node.kind == Tag::IfExpr && node.children.len() > 2 {
        proof {
            assert(node@.children[1] == node.children@[1]@);
            assert(node@.children[2] == node.children@[2]@);
        }
        let cond = node.children[1].kind == Tag::PathExpr && str_eq(
            node.children[1].getstring().as_str(),
            "COCCIVAR",
        );
        if cond && node.children[2].children.len() > 0 && node.children[2].children[0].children.len() >= 2 {
            proof {
                assert(node@.children[1] == node.children@[1]@);
                assert(node@.children[2] == node.children@[2]@);
                assert(node@.children[2].children[0] == node.children@[2].children@[0]@);
                assert(is_disj_form(node@));
            }
            let ghost n0 = node@;
            let mut kids: Vec<Snode> = Vec::new();
            std::mem::swap(&mut kids, &mut node.children);
            let ghost k0 = kids@;
            let mut blk = kids.remove(2);
            let ghost b0 = blk@;
            let mut sl = blk.children.remove(0);
            let ghost s0 = sl@;
            let _open = sl.children.remove(0);
            let _close = sl.children.pop();
            proof {
                assert(snodes_v(sl.children) =~= s0.children.subrange(1, s0.children.len() - 1));
            }
            blk.children.insert(0, sl);
            proof {
                assert(snodes_v(blk.children) =~= b0.children.update(0, sl@));
            }
            kids.insert(2, blk);
            proof {
                assert(snodes_v(kids) =~= n0.children.update(2, blk@));
            }
            node.children = kids;
            node.wrapper.isdisj = true;
        }
    }
}

/// Builds the semantic patch node for tree `t` of the text with bytes
/// `src`, with modifier `k`.
fn build_snode(src: &[u8], lindex: &LineIndex, t: &RawTree, k: Option<MODKIND>) -> (r: Snode)
    requires
        lindex.describes(src@),
    ensures
        r@ == cocci_node(src@, t@, k),
    decreases t,
{
    let ghost tv = t@;
    let mut children: Vec<Snode> = Vec::new();
    let mut m: Option<MODKIND> = None;
    let mut i: usize = 0;
    proof {
        assert(snodes_v(children) =~= Seq::<SnodeV>::empty());
        assert(snodes_v(children) + cocci_children(src@, tv, 0, None) =~= cocci_children(src@, tv, 0, None));
    }
    while i < t.children.len()
        invariant
            tv == t@,
            i <= t.children@.len(),
            lindex.describes(src@),
            snodes_v(children) + cocci_children(src@, tv, i as int, m) == cocci_children(src@, tv, 0, None),
        decreases t.children@.len() - i,
    {
        let c = &t.children[i];
        proof {
            assert(tv.children[i as int] == c@);
        }
        if c.tag == Tag::Whitespace {
        } else if c.tag == Tag::Comment {
            match comment_mod(src, lindex, &c.elem) {
                Some(mm) => {
                    m = mm;
                },
                None => {},
            }
        } else {
            let n = build_snode(src, lindex, c, m);
            let ghost before = snodes_v(children);
            children.push(n);
            proof {
                assert(snodes_v(children) =~= before.push(n@));
                assert(seq![n@] + cocci_children(src@, tv, i + 1, None) == cocci_children(src@, tv, i as int, m));
                assert(before + (seq![n@] + cocci_children(src@, tv, i + 1, None)) =~= snodes_v(children)
                    + cocci_children(src@, tv, i + 1, None));
            }
            m = None;
        }
        i = i + 1;
    }
    proof {
        assert(cocci_children(src@, tv, i as int, m) =~= Seq::<SnodeV>::empty());
        assert(snodes_v(children) =~= cocci_children(src@, tv, 0, None));
    }
    let mut w = fill_wrap(src, lindex, &t.elem);
    w.setmod(k);
    let asttoken = if children.len() == 0 {
        Some(t.elem.text.clone())
    } else {
        None
    };
    let mut n = Snode { wrapper: w, asttoken, kind: t.tag, iskeyword: t.elem.keyword, children };
    proof {
        assert(n@.wrapper == cocci_wrap(src@, tv.elem, k));
    }
    parsedisjs(&mut n);
    if n.kind == Tag::ExprStmt && n.children.len() == 1 {
        let ghost nv = n@;
        match n.children.pop() {
            Some(c) => {
                proof {
                    assert(c@ == nv.children[0]);
                }
                c
            },
            None => n,
        }
    } else {
        n
    }
}

/// The tree of the semantic patch code `text`, or the report of its parse
/// errors.
pub open spec fn cocci_tree(text: Seq<char>) -> Result<SnodeV, Seq<char>> {
    let p = spec_parse_source(text);
    if p.errors.len() == 0 && walk_tree(p.events) is Some {
        Ok(cocci_node(vstd::utf8::encode_utf8(text), walk_tree(p.events)->0, None))
    } else {
        Err(spec_error_report(text, p.errors))
    }
}

/// The tree of the semantic patch code `contents`, or the report of its
/// parse errors.
pub fn wrap_root(contents: &str) -> (r: Result<Snode, String>)
    ensures
        match cocci_tree(contents@) {
            Ok(t) => r matches Ok(n) && n@ == t,
            Err(e) => r matches Err(m) && m@ == e,
        },
{
    let src = contents.as_bytes();
    let lindex = LineIndex::new(src);
    match parse_tree(contents) {
        Ok(t) => Ok(build_snode(src, &lindex, &t, None)),
        Err(m) => Err(string_of(&m)),
    }
}

} // verus!
