//! Position records of parsed code.
use vstd::prelude::*;

verus! {

/// Line and column extent of a piece of code.
#[derive(Clone, PartialEq, Eq, Structural, Debug)]
pub struct PositionInfo {
    pub line_start: usize,
    pub line_end: usize,
    pub logical_start: usize,
    pub logical_end: usize,
    pub column: usize,
    pub offset: usize,
}

impl PositionInfo {
    pub fn new(
        line_start: usize,
        line_end: usize,
        logical_start: usize,
        logical_end: usize,
        column: usize,
        offset: usize,
    ) -> (r: PositionInfo)
        ensures
            r == (PositionInfo { line_start, line_end, logical_start, logical_end, column, offset }),
    {
        PositionInfo { line_start, line_end, logical_start, logical_end, column, offset }
    }
}

/// Where a node of parsed Rust code lies: its characters (as byte offsets)
/// and lines.
#[derive(Clone, Debug)]
pub struct ParseInfo {
    pub str: String,
    pub charstart: usize,
    pub charend: usize,
    pub sline: usize,
    pub eline: usize,
    pub column: usize,
    pub file: String,
}

impl ParseInfo {
    pub fn new(
        str: String,
        charstart: usize,
        charend: usize,
        sline: usize,
        eline: usize,
        col: usize,
        file: String,
    ) -> (r: ParseInfo)
        ensures
            r == (ParseInfo { str, charstart, charend, sline, eline, column: col, file }),
    {
        ParseInfo { str, charstart, charend, sline, eline, column: col, file }
    }

    pub fn getempty() -> (r: ParseInfo)
        ensures
            r.str@ == Seq::<char>::empty(),
            r.file@ == Seq::<char>::empty(),
            r.charstart == 0 && r.charend == 0 && r.sline == 0 && r.eline == 0 && r.column == 0,
    {
        ParseInfo {
            str: String::new(),
            charstart: 0,
            charend: 0,
            sline: 0,
            eline: 0,
            column: 0,
            file: String::new(),
        }
    }

    /// Shifts this position back by the start of `info`.
    pub fn subtract(&mut self, info: &Self)
        requires
            old(self).charstart >= info.charstart,
            old(self).charend >= info.charstart,
            old(self).sline >= info.sline,
            old(self).eline >= info.sline,
        ensures
            final(self).charstart == old(self).charstart - info.charstart,
            final(self).charend == old(self).charend - info.charstart,
            final(self).sline == old(self).sline - info.sline,
            final(self).eline == old(self).eline - info.sline,
            final(self).column == old(self).column,
            final(self).str == old(self).str,
            final(self).file == old(self).file,
    {
        self.charstart = self.charstart - info.charstart;
        self.charend = self.charend - info.charstart;
        self.sline = self.sline - info.sline;
        self.eline = self.eline - info.sline;
    }

    /// Shifts this position forward by the start of `info`.
    pub fn add(&mut self, info: &Self)
        requires
            old(self).charstart + info.charstart <= usize::MAX,
            old(self).charend + info.charstart <= usize::MAX,
            old(self).sline + info.sline <= usize::MAX,
            old(self).eline + info.sline <= usize::MAX,
        ensures
            final(self).charstart == old(self).charstart + info.charstart,
            final(self).charend == old(self).charend + info.charstart,
            final(self).sline == old(self).sline + info.sline,
            final(self).eline == old(self).eline + info.sline,
            final(self).column == old(self).column,
            final(self).str == old(self).str,
            final(self).file == old(self).file,
    {
        self.charstart = self.charstart + info.charstart;
        self.charend = self.charend + info.charstart;
        self.sline = self.sline + info.sline;
        self.eline = self.eline + info.sline;
    }
}

/// Why a file could not be transformed.
#[derive(Debug)]
pub enum ParseError {
    /// The target file did not parse: the errors, and the file.
    TARGETERROR(String, String),
    /// The code produced by a rule did not parse: the rule, the errors, and
    /// the code.
    RULEERROR(String, String, String),
}

/// Model of a `ParseInfo`.
pub ghost struct ParseInfoV {
    pub str: Seq<char>,
    pub charstart: usize,
    pub charend: usize,
    pub sline: usize,
    pub eline: usize,
    pub column: usize,
    pub file: Seq<char>,
}

impl View for ParseInfo {
    type V = ParseInfoV;

    open spec fn view(&self) -> ParseInfoV {
        ParseInfoV {
            str: self.str@,
            charstart: self.charstart,
            charend: self.charend,
            sline: self.sline,
            eline: self.eline,
            column: self.column,
            file: self.file@,
        }
    }
}

impl ParseInfo {
    /// A copy of this record.
    pub fn copy(&self) -> (r: ParseInfo)
        ensures
            r@ == self@,
    {
        ParseInfo {
            str: self.str.clone(),
            charstart: self.charstart,
            charend: self.charend,
            sline: self.sline,
            eline: self.eline,
            column: self.column,
            file: self.file.clone(),
        }
    }
}

/// Model of a `ParseError`.
pub ghost enum ParseErrorV {
    TargetError(Seq<char>, Seq<char>),
    RuleError(Seq<char>, Seq<char>, Seq<char>),
}

impl View for ParseError {
    type V = ParseErrorV;

    open spec fn view(&self) -> ParseErrorV {
        match self {
            ParseError::TARGETERROR(a, b) => ParseErrorV::TargetError(a@, b@),
            ParseError::RULEERROR(a, b, c) => ParseErrorV::RuleError(a@, b@, c@),
        }
    }
}

} // verus!
