//! Parsing Rust code into `Rnode` trees.
use vstd::prelude::*;
use crate::commons::info;
use crate::commons::info::ParseInfoV;
use crate::commons::syntax::{line_col_at, line_col_in, LineIndex, SyntaxElem, SyntaxElemV};
use crate::parsing_rs::ast_rs::{Danger, RWrapV, Rnode, RnodeV, Wrap};
use crate::parsing_rs::visitor_ast::{parse_with_fuel, rs_parse};

verus! {

/// The position record of element `e` of the text with bytes `b`.
pub open spec fn rs_info(b: Seq<u8>, e: SyntaxElemV) -> ParseInfoV {
    ParseInfoV {
        str: Seq::empty(),
        charstart: e.start,
        charend: e.end,
        sline: line_col_in(b, e.start as int).0 as usize,
        eline: line_col_in(b, e.end as int).0 as usize,
        column: line_col_in(b, e.start as int).1 as usize,
        file: Seq::empty(),
    }
}

/// The record of a fresh node for element `e`.
pub open spec fn rs_wrap(b: Seq<u8>, e: SyntaxElemV) -> RWrapV {
    RWrapV {
        info: rs_info(b, e),
        index: 0,
        danger: Danger::NoDanger,
        wspaces: (Seq::empty(), Seq::empty()),
        isremoved: false,
        plussed: (Seq::empty(), Seq::empty()),
        exp_ty: None,
    }
}

/// The record of a fresh node for element `node` of the text with bytes
/// `src`: its offsets, lines and column.
pub fn fill_wrap(src: &[u8], lindex: &LineIndex, node: &SyntaxElem) -> (r: Wrap)
    requires
        lindex.describes(src@),
    ensures
        r@ == rs_wrap(src@, node@),
{
    let (sline, scol) = line_col_at(lindex, node.start, Ghost(src@));
    let (eline, _ecol) = line_col_at(lindex, node.end, Ghost(src@));
    let parse_info = info::ParseInfo::new(String::new(), node.start, node.end, sline, eline, scol, String::new());
    Wrap::new(parse_info, 0, Danger::NoDanger)
}

/// The tree of the Rust code `contents`, or the report of its parse errors.
/// Each node keeps the whitespace and comments around it; the token tree of
/// a macro call stands as the expressions that it holds.
pub fn processrs(contents: &str) -> (r: Result<Rnode, String>)
    ensures
        match rs_parse(contents@) {
            Ok(t) => r matches Ok(n) && n@ == t,
            Err(m) => r matches Err(e) && e@ == m,
        },
{
    let n = contents.len();
    parse_with_fuel(contents, n)
}

} // verus!
