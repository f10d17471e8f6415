//! The Rust parser's view of a piece of code, as plain records: the
//! preorder walk of the syntax tree, the tree rebuilt from it, and line and
//! column positions.
use vstd::prelude::*;
use ra_ap_syntax::{Edition, SourceFile, WalkEvent};
use crate::commons::syntax_kind::{spec_tag_of, tag_of, Tag};
use crate::commons::text::{chars_of, decimal, decimal_text, push_all, push_str};

verus! {

/// One element (node or token) of a syntax tree.
pub struct SyntaxElem {
    /// The parser's number for the element's kind.
    pub code: u16,
    /// The name of the element's kind, as the parser prints it.
    pub name: String,
    /// Whether the kind is a keyword.
    pub keyword: bool,
    /// Byte offset of the element's first byte.
    pub start: usize,
    /// Byte offset just past the element's last byte.
    pub end: usize,
    /// The element's text.
    pub text: String,
}

/// A step of the preorder walk of a syntax tree.
pub enum SyntaxEvent {
    Enter(SyntaxElem),
    Leave,
}

/// A parsed piece of code: the walk of its tree and the parse errors, each
/// with its byte offset.
pub struct ParsedSource {
    pub events: Vec<SyntaxEvent>,
    pub errors: Vec<(String, usize)>,
}

pub ghost struct SyntaxElemV {
    pub code: u16,
    pub name: Seq<char>,
    pub keyword: bool,
    pub start: usize,
    pub end: usize,
    pub text: Seq<char>,
}

pub ghost enum SyntaxEventV {
    Enter(SyntaxElemV),
    Leave,
}

pub ghost struct ParsedSourceV {
    pub events: Seq<SyntaxEventV>,
    pub errors: Seq<(Seq<char>, usize)>,
}

impl View for SyntaxElem {
    type V = SyntaxElemV;

    open spec fn view(&self) -> SyntaxElemV {
        SyntaxElemV {
            code: self.code,
            name: self.name@,
            keyword: self.keyword,
            start: self.start,
            end: self.end,
            text: self.text@,
        }
    }
}

impl View for SyntaxEvent {
    type V = SyntaxEventV;

    open spec fn view(&self) -> SyntaxEventV {
        match self {
            SyntaxEvent::Enter(e) => SyntaxEventV::Enter(e@),
            SyntaxEvent::Leave => SyntaxEventV::Leave,
        }
    }
}

impl View for ParsedSource {
    type V = ParsedSourceV;

    open spec fn view(&self) -> ParsedSourceV {
        ParsedSourceV {
            events: Seq::new(self.events@.len(), |i: int| self.events@[i]@),
            errors: errors_v(self.errors@),
        }
    }
}

/// What the Rust parser makes of a source file: the walk of its syntax tree
/// and its errors.
pub uninterp spec fn spec_parse_source(text: Seq<char>) -> ParsedSourceV;

/// Parses `text` as a Rust source file with `SourceFile::parse` of
/// `ra_ap_syntax` (current edition) and reports the events of the preorder
/// walk with tokens of the syntax tree (`preorder_with_tokens`), each
/// entered element with its kind's number and name, whether the kind is a
/// keyword, its byte range and its text, together with the parser's errors
/// and their byte offsets.  The contract names the result and says nothing
/// more of it: the parser is a function of the text alone.
#[verifier::external_body]
pub(crate) fn parse_source(text: &str) -> (r: ParsedSource)
    ensures
        r@ == spec_parse_source(text@),
{
    let ed = Edition::CURRENT;
    let parse = SourceFile::parse(text, ed);
    let errors = parse.errors().iter().map(|e| (e.to_string(), e.range().start().into())).collect();
    let events = parse.syntax_node().preorder_with_tokens().map(|ev| match ev {
        WalkEvent::Enter(el) => SyntaxEvent::Enter(SyntaxElem {
            code: el.kind().into(),
            name: format!("{:?}", el.kind()),
            keyword: el.kind().is_keyword(ed),
            start: el.text_range().start().into(),
            end: el.text_range().end().into(),
            text: el.to_string(),
        }),
        _ => SyntaxEvent::Leave,
    }).collect();
    ParsedSource { events, errors }
}

// ---------------------------------------------------------------------
// Trees

/// An element of a syntax tree with its children.
pub struct RawTree {
    pub elem: SyntaxElem,
    /// The element's kind.
    pub tag: Tag,
    pub children: Vec<RawTree>,
}

pub ghost struct RawTreeV {
    pub elem: SyntaxElemV,
    pub tag: Tag,
    pub children: Seq<RawTreeV>,
}

pub open spec fn raw_v(t: RawTree) -> RawTreeV
    decreases t,
{
    RawTreeV {
        elem: t.elem@,
        tag: t.tag,
        children: Seq::new(
            t.children@.len(),
            |i: int|
                if 0 <= i < t.children@.len() {
                    raw_v(t.children@[i])
                } else {
                    arbitrary()
                },
        ),
    }
}

impl View for RawTree {
    type V = RawTreeV;

    open spec fn view(&self) -> RawTreeV {
        raw_v(*self)
    }
}

/// The tree whose walk starts at event `pos`, and the position after the
/// walk; `None` when the events there do not describe a tree.
pub open spec fn tree_at(ev: Seq<SyntaxEventV>, pos: int) -> Option<(RawTreeV, int)>
    decreases ev.len() - pos, 0int,
{
    if 0 <= pos < ev.len() {
        match ev[pos] {
            SyntaxEventV::Enter(e) => match trees_from(ev, pos + 1) {
                Some((cs, p)) => Some((RawTreeV { elem: e, tag: spec_tag_of(e.code, e.name), children: cs }, p)),
                None => None,
            },
            SyntaxEventV::Leave => None,
        }
    } else {
        None
    }
}

/// The trees whose walks follow one another from event `pos` up to a
/// `Leave` event, and the position after that event.
pub open spec fn trees_from(ev: Seq<SyntaxEventV>, pos: int) -> Option<(Seq<RawTreeV>, int)>
    decreases ev.len() - pos, 1int,
{
    if 0 <= pos < ev.len() {
        match ev[pos] {
            SyntaxEventV::Leave => Some((Seq::empty(), pos + 1)),
            SyntaxEventV::Enter(_) => match tree_at(ev, pos) {
                Some((t, p)) => if pos < p <= ev.len() {
                    match trees_from(ev, p) {
                        Some((ts, q)) => Some((seq![t] + ts, q)),
                        None => None,
                    }
                } else {
                    None
                },
                None => None,
            },
        }
    } else {
        None
    }
}

/// The tree that a walk describes, when the walk is exactly that of one
/// tree.
pub open spec fn walk_tree(ev: Seq<SyntaxEventV>) -> Option<RawTreeV> {
    match tree_at(ev, 0) {
        Some((t, p)) => if p == ev.len() {
            Some(t)
        } else {
            None
        },
        None => None,
    }
}

fn copy_elem(e: &SyntaxElem) -> (r: SyntaxElem)
    ensures
        r@ == e@,
{
    SyntaxElem {
        code: e.code,
        name: e.name.clone(),
        keyword: e.keyword,
        start: e.start,
        end: e.end,
        text: e.text.clone(),
    }
}

proof fn lemma_tree_at_advances(ev: Seq<SyntaxEventV>, pos: int)
    ensures
        tree_at(ev, pos) matches Some((_, p)) ==> pos < p <= ev.len(),
        trees_from(ev, pos) matches Some((_, p)) ==> pos < p <= ev.len(),
    decreases ev.len() - pos,
{
    if 0 <= pos < ev.len() {
        lemma_tree_at_advances(ev, pos + 1);
        if let Some((_, p)) = tree_at(ev, pos) {
            if pos < p <= ev.len() {
                lemma_tree_at_advances(ev, p);
            }
        }
    }
}

/// The models of a sequence of events.
pub open spec fn events_v(ev: Seq<SyntaxEvent>) -> Seq<SyntaxEventV> {
    ev.map_values(|x: SyntaxEvent| x@)
}

/// `acc` followed by the trees of `o`, when there are any.
pub open spec fn after_trees(acc: Seq<RawTreeV>, o: Option<(Seq<RawTreeV>, int)>) -> Option<(Seq<RawTreeV>, int)> {
    match o {
        Some((rest, q)) => Some((acc + rest, q)),
        None => None,
    }
}

/// Rebuilds the tree whose walk starts at event `pos`, with the position
/// just after its walk.
pub fn read_tree(ev: &Vec<SyntaxEvent>, pos: usize) -> (r: Option<(RawTree, usize)>)
    ensures
        match tree_at(events_v(ev@), pos as int) {
            Some((t, p)) => r matches Some((u, q)) && u@ == t && q == p,
            None => r is None,
        },
    decreases ev@.len() - pos,
{
    let ghost evv = events_v(ev@);
    if pos >= ev.len() {
        return None;
    }
    proof {
        assert(evv[pos as int] == ev@[pos as int]@);
    }
    let e = match &ev[pos] {
        SyntaxEvent::Enter(e) => e,
        SyntaxEvent::Leave => {
            return None;
        },
    };
    let mut cs: Vec<RawTree> = Vec::new();
    let mut p = pos + 1;
    let ghost mut acc: Seq<RawTreeV> = Seq::empty();
    proof {
        assert(after_trees(acc, trees_from(evv, p as int)) == trees_from(evv, p as int)) by {
            match trees_from(evv, p as int) {
                Some((rest, q)) => {
                    assert(acc + rest =~= rest);
                },
                None => {},
            }
        }
    }
    loop
        invariant
            evv == events_v(ev@),
            pos < p <= ev@.len(),
            pos < ev@.len(),
            evv[pos as int] == SyntaxEventV::Enter(e@),
            cs@.len() == acc.len(),
            forall|i: int| 0 <= i < acc.len() ==> (#[trigger] cs@[i])@ == acc[i],
            trees_from(evv, pos + 1) == after_trees(acc, trees_from(evv, p as int)),
        decreases ev@.len() - p,
    {
        if p >= ev.len() {
            return None;
        }
        proof {
            assert(evv[p as int] == ev@[p as int]@);
        }
        match &ev[p] {
            SyntaxEvent::Leave => {
                let tag = tag_of(e.code, &chars_of(e.name.as_str()));
                let t = RawTree { elem: copy_elem(e), tag, children: cs };
                proof {
                    assert(acc + Seq::<RawTreeV>::empty() =~= acc);
                    assert(t@.children =~= acc);
                }
                return Some((t, p + 1));
            },
            SyntaxEvent::Enter(_) => {
                proof {
                    lemma_tree_at_advances(evv, p as int);
                }
                match read_tree(ev, p) {
                    Some((t, q)) => {
                        proof {
                            let tv = t@;
                            let old_acc = acc;
                            acc = acc.push(tv);
                            match trees_from(evv, q as int) {
                                Some((rest, q2)) => {
                                    assert(old_acc + (seq![tv] + rest) =~= acc + rest);
                                },
                                None => {},
                            }
                        }
                        cs.push(t);
                        p = q;
                    },
                    None => {
                        return None;
                    },
                }
            },
        }
    }
}

// ---------------------------------------------------------------------
// Lines and columns

/// The number of newline bytes among the first `k` bytes of `b`.
pub open spec fn newlines_before(b: Seq<u8>, k: int) -> int
    decreases k,
{
    if k <= 0 {
        0
    } else {
        newlines_before(b, k - 1) + if b[k - 1] == 10u8 {
            1int
        } else {
            0int
        }
    }
}

/// The offset where the line holding offset `k` begins: just after the last
/// newline byte before `k`, or 0.
pub open spec fn line_begin(b: Seq<u8>, k: int) -> int
    decreases k,
{
    if k <= 0 {
        0
    } else if b[k - 1] == 10u8 {
        k
    } else {
        line_begin(b, k - 1)
    }
}

/// Zero-based line and byte column of offset `k` in `b`.
pub open spec fn spec_line_col(b: Seq<u8>, k: int) -> (int, int) {
    (newlines_before(b, k), k - line_begin(b, k))
}

proof fn lemma_line_bounds(b: Seq<u8>, k: int)
    requires
        0 <= k,
    ensures
        0 <= newlines_before(b, k) <= k,
        0 <= line_begin(b, k) <= k,
    decreases k,
{
    if k > 0 {
        lemma_line_bounds(b, k - 1);
    }
}

/// For each offset of a text, its line and column.
pub struct LineIndex {
    pub lines: Vec<usize>,
    pub cols: Vec<usize>,
}

impl LineIndex {
    /// The index describes the text with bytes `b`.
    pub open spec fn describes(&self, b: Seq<u8>) -> bool {
        &&& self.lines@.len() == b.len() + 1
        &&& self.cols@.len() == b.len() + 1
        &&& forall|k: int|
            0 <= k <= b.len() ==> #[trigger] self.lines@[k] == newlines_before(b, k) && self.cols@[k] == k
                - line_begin(b, k)
    }

    /// Indexes the lines of the text with bytes `b`.
    pub fn new(b: &[u8]) -> (r: LineIndex)
        ensures
            r.describes(b@),
    {
        let mut lines: Vec<usize> = Vec::new();
        let mut cols: Vec<usize> = Vec::new();
        let mut line: usize = 0;
        let mut begin: usize = 0;
        let mut k: usize = 0;
        proof {
            lemma_line_bounds(b@, 0);
        }
        while k < b.len()
            invariant
                k <= b@.len(),
                lines@.len() == k,
                cols@.len() == k,
                line == newlines_before(b@, k as int),
                begin == line_begin(b@, k as int),
                forall|j: int|
                    0 <= j < k ==> #[trigger] lines@[j] == newlines_before(b@, j) && cols@[j] == j
                        - line_begin(b@, j),
            decreases b@.len() - k,
        {
            proof {
                lemma_line_bounds(b@, k as int);
            }
            lines.push(line);
            cols.push(k - begin);
            if b[k] == 10u8 {
                line = line + 1;
                begin = k + 1;
            }
            k = k + 1;
            proof {
                lemma_line_bounds(b@, k as int);
            }
        }
        proof {
            lemma_line_bounds(b@, k as int);
        }
        let ghost l0 = lines@;
        let ghost c0 = cols@;
        lines.push(line);
        cols.push(k - begin);
        let r = LineIndex { lines, cols };
        proof {
            assert forall|j: int| 0 <= j <= b@.len() implies #[trigger] r.lines@[j] == newlines_before(b@, j)
                && r.cols@[j] == j - line_begin(b@, j) by {
                if j < k {
                    assert(r.lines@[j] == l0[j]);
                    assert(r.cols@[j] == c0[j]);
                } else {
                    assert(j == k);
                }
            }
            assert(k == b@.len());
            assert(r.lines@.len() == b@.len() + 1);
            assert(r.cols@.len() == b@.len() + 1);
            assert(r.describes(b@));
        }
        r
    }

    /// Line and column of offset `k`.
    pub fn line_col(&self, k: usize) -> (r: (usize, usize))
        requires
            k < self.lines@.len(),
            k < self.cols@.len(),
        ensures
            r == (self.lines@[k as int], self.cols@[k as int]),
    {
        (self.lines[k], self.cols[k])
    }
}

/// Line and column of offset `k` of the text with bytes `b`, where it lies
/// in the text; (0, 0) past its end.
pub open spec fn line_col_in(b: Seq<u8>, k: int) -> (int, int) {
    if 0 <= k <= b.len() {
        spec_line_col(b, k)
    } else {
        (0, 0)
    }
}

/// Line and column of offset `k` of the text that `idx` describes.
pub fn line_col_at(idx: &LineIndex, k: usize, Ghost(b): Ghost<Seq<u8>>) -> (r: (usize, usize))
    requires
        idx.describes(b),
    ensures
        r.0 == line_col_in(b, k as int).0,
        r.1 == line_col_in(b, k as int).1,
{
    if k < idx.lines.len() {
        idx.line_col(k)
    } else {
        (0, 0)
    }
}

/// One line of a parse-error report.
pub open spec fn error_line(b: Seq<u8>, e: (Seq<char>, usize)) -> Seq<char> {
    "Error : "@ + e.0 + " at line: "@ + decimal(line_col_in(b, e.1 as int).0 as nat) + ", col "@ + decimal(
        line_col_in(b, e.1 as int).1 as nat,
    ) + "\n"@
}

/// The report lines of the errors `es`.
pub open spec fn error_lines(b: Seq<u8>, es: Seq<(Seq<char>, usize)>) -> Seq<char>
    decreases es.len(),
{
    if es.len() == 0 {
        Seq::empty()
    } else {
        error_lines(b, es.drop_last()) + error_line(b, es.last())
    }
}

/// The report of a text that does not parse: the text, a newline, and a line
/// for each error with its message, line and column.
pub open spec fn spec_error_report(text: Seq<char>, es: Seq<(Seq<char>, usize)>) -> Seq<char> {
    text + "\n"@ + error_lines(vstd::utf8::encode_utf8(text), es)
}

/// Reports the parse errors `errors` of `text`.
pub fn error_report(text: &str, idx: &LineIndex, errors: &Vec<(String, usize)>) -> (r: Vec<char>)
    requires
        idx.describes(vstd::utf8::encode_utf8(text@)),
    ensures
        r@ == spec_error_report(text@, errors_v(errors@)),
{
    let ghost b = vstd::utf8::encode_utf8(text@);
    let mut r = chars_of(text);
    r.push('\n');
    let mut i: usize = 0;
    proof {
        reveal_strlit("\n");
        assert(errors_v(errors@).take(0) =~= Seq::<(Seq<char>, usize)>::empty());
        assert(r@ =~= text@ + "\n"@ + error_lines(b, errors_v(errors@).take(0)));
    }
    while i < errors.len()
        invariant
            i <= errors@.len(),
            idx.describes(b),
            b == vstd::utf8::encode_utf8(text@),
            r@ == text@ + "\n"@ + error_lines(b, errors_v(errors@).take(i as int)),
        decreases errors@.len() - i,
    {
        let (lc0, lc1) = line_col_at(idx, errors[i].1, Ghost(b));
        let ghost before = r@;
        push_str(&mut r, "Error : ");
        push_str(&mut r, errors[i].0.as_str());
        push_str(&mut r, " at line: ");
        push_all(&mut r, &decimal_text(lc0));
        push_str(&mut r, ", col ");
        push_all(&mut r, &decimal_text(lc1));
        r.push('\n');
        proof {
            reveal_strlit("Error : ");
            reveal_strlit(" at line: ");
            reveal_strlit(", col ");
            reveal_strlit("\n");
            let es = errors_v(errors@);
            assert(es.take(i + 1).drop_last() =~= es.take(i as int));
            assert(es.take(i + 1).last() == es[i as int]);
            assert(r@ =~= before + error_line(b, es[i as int]));
        }
        i = i + 1;
    }
    proof {
        assert(errors_v(errors@).take(errors@.len() as int) =~= errors_v(errors@));
    }
    r
}

/// The models of a list of errors.
pub open spec fn errors_v(es: Seq<(String, usize)>) -> Seq<(Seq<char>, usize)> {
    Seq::new(es.len(), |i: int| (es[i].0@, es[i].1))
}

/// Parses `text` as a Rust source file into its tree; when the parser
/// reports errors, the report of them.
pub fn parse_tree(text: &str) -> (r: Result<RawTree, Vec<char>>)
    ensures
        match r {
            Ok(t) => spec_parse_source(text@).errors.len() == 0 && walk_tree(spec_parse_source(text@).events)
                == Some(t@),
            Err(m) => m@ == spec_error_report(text@, spec_parse_source(text@).errors) && (spec_parse_source(
                text@,
            ).errors.len() != 0 || walk_tree(spec_parse_source(text@).events) is None),
        },
{
    let parsed = parse_source(text);
    let bytes = text.as_bytes();
    let idx = LineIndex::new(bytes);
    proof {
        assert(parsed@.errors =~= errors_v(parsed.errors@));
        assert(events_v(parsed.events@) =~= parsed@.events);
    }
    if parsed.errors.len() == 0 {
        match read_tree(&parsed.events, 0) {
            Some((t, p)) => {
                if p == parsed.events.len() {
                    return Ok(t);
                }
            },
            None => {},
        }
    }
    Err(error_report(text, &idx, &parsed.errors))
}

} // verus!
