//! Blanking out the parts of a semantic patch that are not Rust code.
use vstd::prelude::*;
use crate::commons::text::{lines, push_all, spec_lines, string_of};

verus! {

/// How a line is treated: kept as code, or recorded as a patch line (a
/// modifier line, a `@@` line, or a line inside `@@ ... @@`).
pub enum LineClass {
    Code,
    Patch,
    OpenMeta,
    CloseMeta,
    Error,
}

pub open spec fn first2(l: Seq<char>) -> (Option<char>, Option<char>) {
    (if l.len() > 0 { Some(l[0]) } else { None }, if l.len() > 1 { Some(l[1]) } else { None })
}

/// The class of line `l`, inside (`inmeta`) or outside a `@@` block.
pub open spec fn classify(l: Seq<char>, inmeta: bool) -> LineClass {
    let (c0, c1) = first2(l);
    if (c0 == Some('+') || c0 == Some('-')) {
        if !inmeta { LineClass::Patch } else { LineClass::Error }
    } else if c0 == Some('@') && c1 == Some('@') {
        if !inmeta { LineClass::OpenMeta } else { LineClass::CloseMeta }
    } else if c0 == Some('@') && inmeta {
        LineClass::Error
    } else if inmeta {
        LineClass::Patch
    } else {
        LineClass::Code
    }
}

/// After the first `k` lines: the kept code, the recorded line numbers,
/// whether a `@@` block is open, and whether all lines were well formed.
pub open spec fn parsable_state(ls: Seq<Seq<char>>, k: int) -> (Seq<char>, Seq<usize>, bool, bool)
    decreases k,
{
    if k <= 0 || k > ls.len() {
        (Seq::empty(), Seq::empty(), false, true)
    } else {
        let (code, pl, inmeta, ok) = parsable_state(ls, k - 1);
        let lino = (k - 1) as usize;
        match classify(ls[k - 1], inmeta) {
            LineClass::Code => (code + ls[k - 1], pl, inmeta, ok),
            LineClass::Patch => (code, pl.push(lino), inmeta, ok),
            LineClass::OpenMeta => (code, pl.push(lino), true, ok),
            LineClass::CloseMeta => (code, pl.push(lino), false, ok),
            LineClass::Error => (code, pl, inmeta, false),
        }
    }
}

/// No modifier line and no line starting with a single `@` lies inside a
/// `@@` block.
pub open spec fn parsable(contents: Seq<char>) -> bool {
    let ls = spec_lines(contents);
    forall|k: int| 0 <= k <= ls.len() ==> #[trigger] parsable_state(ls, k).3
}

/// The Rust code of a semantic patch, with the lines that belong to the
/// patch notation removed, and the numbers (from 0) of those lines.
pub fn make_parsable(contents: &str) -> (r: (String, Vec<usize>))
    requires
        parsable(contents@),
    ensures
        r.0@ == parsable_state(spec_lines(contents@), spec_lines(contents@).len() as int).0,
        r.1@ == parsable_state(spec_lines(contents@), spec_lines(contents@).len() as int).1,
{
    let ls = lines(contents);
    let ghost lv = spec_lines(contents@);
    let mut cleaned: Vec<char> = Vec::new();
    let mut smpllines: Vec<usize> = Vec::new();
    let mut inmdec: bool = false;
    for lino in 0..ls.len()
        invariant
            lv == spec_lines(contents@),
            parsable(contents@),
            ls@.len() == lv.len(),
            forall|j: int| 0 <= j < ls@.len() ==> #[trigger] ls@[j]@ == lv[j],
            parsable_state(lv, lino as int) == (cleaned@, smpllines@, inmdec, true),
    {
        let line = &ls[lino];
        proof {
            assert(line@ == lv[lino as int]);
            assert(parsable_state(lv, lino + 1).3);
        }
        let c0 = if line.len() > 0 { Some(line[0]) } else { None };
        let c1 = if line.len() > 1 { Some(line[1]) } else { None };
        if c0 == Some('+') || c0 == Some('-') {
            smpllines.push(lino);
        } else if c0 == Some('@') && c1 == Some('@') {
            smpllines.push(lino);
            inmdec = !inmdec;
        } else if inmdec {
            smpllines.push(lino);
        } else {
            push_all(&mut cleaned, line);
        }
    }
    (string_of(&cleaned), smpllines)
}

} // verus!
