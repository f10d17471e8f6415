//! The tree of a semantic patch (`Snode`) and the information that each of
//! its nodes carries: positions, modifiers, attached `+` code and
//! metavariables.
use vstd::prelude::*;
use crate::commons::syntax_kind::Tag;
use crate::commons::text::{chars_eq_str, chars_of, push_all, spec_trim, str_eq, string_from, string_of, trim};

verus! {

/// A node of a semantic patch.
pub struct Snode {
    pub wrapper: Wrap,
    /// The text of a leaf; `None` for a node with children.
    pub asttoken: Option<String>,
    pub kind: Tag,
    /// Whether the element is a keyword of the language.
    pub iskeyword: bool,
    pub children: Vec<Snode>,
}

/// The `+` code attached before and after a node.
pub type Pluses = (Vec<Snode>, Vec<Snode>);

/// A metavariable's name: the rule that declares it and its own name.
#[derive(Debug)]
pub struct MetavarName {
    pub rulename: String,
    pub varname: String,
}

#[derive(Clone, Copy, PartialEq, Eq, Structural, Debug)]
pub struct Dummy {}

/// A modifier written in the first column of a semantic patch line.
#[derive(PartialEq, Eq, Structural, Debug, Clone, Copy)]
pub enum MODKIND {
    PLUS,
    MINUS,
    STAR,
}

#[derive(Clone, Copy, PartialEq, Eq, Structural, Debug)]
pub struct TokenInfo {
    pub tline_start: usize,
    pub tline_end: usize,
    pub left_offset: usize,
    pub right_offset: usize,
}

/// Lines, logical lines, column and character offsets of a node.
#[derive(Clone, Copy, PartialEq, Eq, Structural, Debug)]
pub struct PositionInfo {
    pub line_start: usize,
    pub line_end: usize,
    pub logical_start: usize,
    pub logical_end: usize,
    pub column: usize,
    pub cstart: usize,
    pub cend: usize,
    pub offset: usize,
}

impl PositionInfo {
    pub fn new(
        line_start: usize,
        line_end: usize,
        logical_start: usize,
        logical_end: usize,
        column: usize,
        cstart: usize,
        cend: usize,
        offset: usize,
    ) -> (r: PositionInfo)
        ensures
            r == (PositionInfo {
                line_start,
                line_end,
                logical_start,
                logical_end,
                column,
                cstart,
                cend,
                offset,
            }),
    {
        PositionInfo {
            line_start,
            line_end,
            logical_start,
            logical_end,
            column,
            cstart,
            cend,
            offset,
        }
    }
}

pub struct Info {
    pub pos_info: PositionInfo,
    pub attachable_start: bool,
    pub attachable_end: bool,
    pub strings_before: Vec<(Dummy, PositionInfo)>,
    pub strings_after: Vec<(Dummy, PositionInfo)>,
    pub is_symbol_ident: bool,
}

impl Info {
    pub fn new(
        pos_info: PositionInfo,
        attachable_start: bool,
        attachable_end: bool,
        strings_before: Vec<(Dummy, PositionInfo)>,
        strings_after: Vec<(Dummy, PositionInfo)>,
        is_symbol_ident: bool,
    ) -> (r: Info)
        ensures
            r == (Info {
                pos_info,
                attachable_start,
                attachable_end,
                strings_before,
                strings_after,
                is_symbol_ident,
            }),
    {
        Info {
            pos_info,
            attachable_start,
            attachable_end,
            strings_before,
            strings_after,
            is_symbol_ident,
        }
    }
}

/// How the bindings of a metavariable must be kept.
#[derive(Clone, Copy, Hash, Debug, PartialEq, Eq, Structural)]
pub enum KeepBinding {
    /// Needs no information.
    UNITARY,
    /// Needs an environment entry.
    NONUNITARY,
    /// Needs a witness.
    SAVED,
}

/// A metavariable's name, how its binding is kept, and whether it is
/// inherited from another rule.
pub type Minfo = (MetavarName, KeepBinding, bool);

/// What a node does to the code it matches, with the `+` code attached to
/// it: before the match of a removed node, or before and after the match of
/// a kept one.
pub enum Mcodekind {
    Minus(Vec<Snode>),
    Plus,
    Context(Vec<Snode>, Vec<Snode>),
    Star,
}

/// A metavariable declared in a rule, or `NoMeta` for plain code.
pub enum MetaVar {
    NoMeta,
    Exp(Minfo),
    Id(Minfo),
    Type(Minfo),
    Struct(String, Minfo),
    Enum(String, Minfo),
}

/// The type named in a metavariable declaration.
#[derive(Debug)]
pub enum MetavarType {
    Expression,
    Identifier,
    Type,
    Struct(String),
    Enum(String),
}

/// What a semantic patch node carries besides its syntax.
pub struct Wrap {
    pub info: Info,
    pub index: usize,
    pub exp_ty: Option<String>,
    pub metavar: MetaVar,
    pub true_if_arg: bool,
    pub true_if_test: bool,
    pub true_if_test_exp: bool,
    pub iso_info: Vec<(String, Dummy)>,
    pub isdisj: bool,
    /// The modifier of the line that the node lies on, when the node lies on
    /// one line.
    pub modkind: Option<MODKIND>,
    pub mcodekind: Mcodekind,
}


// ---------------------------------------------------------------------
// Models

/// Model of a metavariable name.
pub ghost struct MetavarNameV {
    pub rulename: Seq<char>,
    pub varname: Seq<char>,
}

/// Model of the information carried by a metavariable.
pub type MinfoV = (MetavarNameV, KeepBinding, bool);

/// Model of a metavariable.
pub ghost enum MetaVarV {
    NoMeta,
    Exp(MinfoV),
    Id(MinfoV),
    Type(MinfoV),
    Struct(Seq<char>, MinfoV),
    Enum(Seq<char>, MinfoV),
}

/// Model of the position and attachment information of a node.
pub ghost struct InfoV {
    pub pos_info: PositionInfo,
    pub attachable_start: bool,
    pub attachable_end: bool,
    pub strings_before: Seq<(Dummy, PositionInfo)>,
    pub strings_after: Seq<(Dummy, PositionInfo)>,
    pub is_symbol_ident: bool,
}

/// Model of a modifier with its attached `+` code.
pub ghost enum McodekindV {
    Minus(Seq<SnodeV>),
    Plus,
    Context(Seq<SnodeV>, Seq<SnodeV>),
    Star,
}

/// Model of the information of a semantic patch node.
pub ghost struct WrapV {
    pub info: InfoV,
    pub index: usize,
    pub exp_ty: Option<Seq<char>>,
    pub metavar: MetaVarV,
    pub true_if_arg: bool,
    pub true_if_test: bool,
    pub true_if_test_exp: bool,
    pub iso_info: Seq<(Seq<char>, Dummy)>,
    pub isdisj: bool,
    pub modkind: Option<MODKIND>,
    pub mcodekind: McodekindV,
}

/// Model of a semantic patch node.
pub ghost struct SnodeV {
    pub wrapper: WrapV,
    pub asttoken: Option<Seq<char>>,
    pub kind: Tag,
    pub iskeyword: bool,
    pub children: Seq<SnodeV>,
}

pub open spec fn name_v(n: MetavarName) -> MetavarNameV {
    MetavarNameV { rulename: n.rulename@, varname: n.varname@ }
}

pub open spec fn minfo_v(m: Minfo) -> MinfoV {
    (name_v(m.0), m.1, m.2)
}

pub open spec fn metavar_v(m: MetaVar) -> MetaVarV {
    match m {
        MetaVar::NoMeta => MetaVarV::NoMeta,
        MetaVar::Exp(i) => MetaVarV::Exp(minfo_v(i)),
        MetaVar::Id(i) => MetaVarV::Id(minfo_v(i)),
        MetaVar::Type(i) => MetaVarV::Type(minfo_v(i)),
        MetaVar::Struct(t, i) => MetaVarV::Struct(t@, minfo_v(i)),
        MetaVar::Enum(t, i) => MetaVarV::Enum(t@, minfo_v(i)),
    }
}

pub open spec fn info_v(i: Info) -> InfoV {
    InfoV {
        pos_info: i.pos_info,
        attachable_start: i.attachable_start,
        attachable_end: i.attachable_end,
        strings_before: i.strings_before@,
        strings_after: i.strings_after@,
        is_symbol_ident: i.is_symbol_ident,
    }
}

pub open spec fn opt_str_v(o: Option<String>) -> Option<Seq<char>> {
    match o {
        Some(s) => Some(s@),
        None => None,
    }
}

pub open spec fn iso_v(v: Vec<(String, Dummy)>) -> Seq<(Seq<char>, Dummy)> {
    Seq::new(v@.len(), |i: int| (v@[i].0@, v@[i].1))
}

/// Models of a sequence of nodes.
pub open spec fn snodes_v(v: Vec<Snode>) -> Seq<SnodeV>
    decreases v,
{
    Seq::new(
        v@.len(),
        |i: int|
            if 0 <= i < v@.len() {
                snode_v(v@[i])
            } else {
                arbitrary()
            },
    )
}

pub open spec fn mcodekind_v(m: Mcodekind) -> McodekindV
    decreases m,
{
    match m {
        Mcodekind::Minus(a) => McodekindV::Minus(snodes_v(a)),
        Mcodekind::Plus => McodekindV::Plus,
        Mcodekind::Context(a, b) => McodekindV::Context(snodes_v(a), snodes_v(b)),
        Mcodekind::Star => McodekindV::Star,
    }
}

pub open spec fn wrap_v(w: Wrap) -> WrapV
    decreases w,
{
    WrapV {
        info: info_v(w.info),
        index: w.index,
        exp_ty: opt_str_v(w.exp_ty),
        metavar: metavar_v(w.metavar),
        true_if_arg: w.true_if_arg,
        true_if_test: w.true_if_test,
        true_if_test_exp: w.true_if_test_exp,
        iso_info: iso_v(w.iso_info),
        isdisj: w.isdisj,
        modkind: w.modkind,
        mcodekind: mcodekind_v(w.mcodekind),
    }
}

pub open spec fn snode_v(n: Snode) -> SnodeV
    decreases n,
{
    SnodeV {
        wrapper: wrap_v(n.wrapper),
        asttoken: opt_str_v(n.asttoken),
        kind: n.kind,
        iskeyword: n.iskeyword,
        children: snodes_v(n.children),
    }
}

impl View for Snode {
    type V = SnodeV;

    open spec fn view(&self) -> SnodeV {
        snode_v(*self)
    }
}

impl View for Wrap {
    type V = WrapV;

    open spec fn view(&self) -> WrapV {
        wrap_v(*self)
    }
}

impl View for Mcodekind {
    type V = McodekindV;

    open spec fn view(&self) -> McodekindV {
        mcodekind_v(*self)
    }
}

impl View for MetaVar {
    type V = MetaVarV;

    open spec fn view(&self) -> MetaVarV {
        metavar_v(*self)
    }
}

impl View for MetavarName {
    type V = MetavarNameV;

    open spec fn view(&self) -> MetavarNameV {
        name_v(*self)
    }
}

impl View for Info {
    type V = InfoV;

    open spec fn view(&self) -> InfoV {
        info_v(*self)
    }
}

// ---------------------------------------------------------------------
// Copies

impl MetavarName {
    pub fn copy(&self) -> (r: MetavarName)
        ensures
            r@ == self@,
    {
        MetavarName { rulename: self.rulename.clone(), varname: self.varname.clone() }
    }
}

fn copy_minfo(m: &Minfo) -> (r: Minfo)
    ensures
        minfo_v(r) == minfo_v(*m),
{
    (m.0.copy(), m.1, m.2)
}

impl MetaVar {
    pub fn copy(&self) -> (r: MetaVar)
        ensures
            r@ == self@,
    {
        match self {
            MetaVar::NoMeta => MetaVar::NoMeta,
            MetaVar::Exp(i) => MetaVar::Exp(copy_minfo(i)),
            MetaVar::Id(i) => MetaVar::Id(copy_minfo(i)),
            MetaVar::Type(i) => MetaVar::Type(copy_minfo(i)),
            MetaVar::Struct(t, i) => MetaVar::Struct(t.clone(), copy_minfo(i)),
            MetaVar::Enum(t, i) => MetaVar::Enum(t.clone(), copy_minfo(i)),
        }
    }
}

fn copy_strings(v: &Vec<(Dummy, PositionInfo)>) -> (r: Vec<(Dummy, PositionInfo)>)
    ensures
        r@ == v@,
{
    let mut r: Vec<(Dummy, PositionInfo)> = Vec::new();
    for i in 0..v.len()
        invariant
            r@ == v@.take(i as int),
    {
        let (d, p) = v[i];
        r.push((d, p));
        proof {
            assert(v@.take(i + 1) == v@.take(i as int).push(v@[i as int]));
        }
    }
    proof {
        assert(v@.take(v.len() as int) == v@);
    }
    r
}

fn copy_iso(v: &Vec<(String, Dummy)>) -> (r: Vec<(String, Dummy)>)
    ensures
        iso_v(r) == iso_v(*v),
{
    let mut r: Vec<(String, Dummy)> = Vec::new();
    for i in 0..v.len()
        invariant
            r@.len() == i,
            forall|j: int| 0 <= j < i ==> (#[trigger] r@[j]).0@ == v@[j].0@ && r@[j].1 == v@[j].1,
    {
        r.push((v[i].0.clone(), v[i].1));
    }
    proof {
        assert(iso_v(r) =~= iso_v(*v));
    }
    r
}

impl Info {
    pub fn copy(&self) -> (r: Info)
        ensures
            r@ == self@,
    {
        Info {
            pos_info: self.pos_info,
            attachable_start: self.attachable_start,
            attachable_end: self.attachable_end,
            strings_before: copy_strings(&self.strings_before),
            strings_after: copy_strings(&self.strings_after),
            is_symbol_ident: self.is_symbol_ident,
        }
    }
}

fn copy_opt_string(o: &Option<String>) -> (r: Option<String>)
    ensures
        opt_str_v(r) == opt_str_v(*o),
{
    match o {
        Some(s) => Some(s.clone()),
        None => None,
    }
}

/// A copy of a sequence of nodes.
pub fn copy_snodes(v: &Vec<Snode>) -> (r: Vec<Snode>)
    ensures
        snodes_v(r) == snodes_v(*v),
    decreases v,
{
    let mut r: Vec<Snode> = Vec::new();
    for i in 0..v.len()
        invariant
            r@.len() == i,
            i <= v@.len(),
            forall|j: int| 0 <= j < i ==> snode_v(#[trigger] r@[j]) == snode_v(v@[j]),
    {
        proof {
            assert(decreases_to!(v => v@[i as int]));
        }
        let c = v[i].copy();
        r.push(c);
    }
    proof {
        assert(snodes_v(r) =~= snodes_v(*v));
    }
    r
}

impl Mcodekind {
    pub fn copy(&self) -> (r: Mcodekind)
        ensures
            r@ == self@,
        decreases self,
    {
        match self {
            Mcodekind::Minus(a) => Mcodekind::Minus(copy_snodes(a)),
            Mcodekind::Plus => Mcodekind::Plus,
            Mcodekind::Context(a, b) => Mcodekind::Context(copy_snodes(a), copy_snodes(b)),
            Mcodekind::Star => Mcodekind::Star,
        }
    }
}

impl Wrap {
    pub fn copy(&self) -> (r: Wrap)
        ensures
            r@ == self@,
        decreases self,
    {
        Wrap {
            info: self.info.copy(),
            index: self.index,
            exp_ty: copy_opt_string(&self.exp_ty),
            metavar: self.metavar.copy(),
            true_if_arg: self.true_if_arg,
            true_if_test: self.true_if_test,
            true_if_test_exp: self.true_if_test_exp,
            iso_info: copy_iso(&self.iso_info),
            isdisj: self.isdisj,
            modkind: self.modkind,
            mcodekind: self.mcodekind.copy(),
        }
    }
}

impl Snode {
    /// A copy of this node and everything under and attached to it.
    pub fn copy(&self) -> (r: Snode)
        ensures
            r@ == self@,
        decreases self,
    {
        Snode {
            wrapper: self.wrapper.copy(),
            asttoken: copy_opt_string(&self.asttoken),
            kind: self.kind,
            iskeyword: self.iskeyword,
            children: copy_snodes(&self.children),
        }
    }
}


// ---------------------------------------------------------------------
// Kinds

/// Kinds of type nodes.
pub open spec fn is_type_tag(t: Tag) -> bool {
    matches!(t, Tag::ArrayType | Tag::DynTraitType | Tag::FnPtrType | Tag::ForType
        | Tag::ImplTraitType | Tag::InferType | Tag::MacroType | Tag::NeverType | Tag::ParenType
        | Tag::PathType | Tag::PtrType | Tag::RefType | Tag::SliceType | Tag::TupleType)
}

/// Kinds of pattern nodes.
pub open spec fn is_pat_tag(t: Tag) -> bool {
    matches!(t, Tag::IdentPat | Tag::BoxPat | Tag::RestPat | Tag::LiteralPat | Tag::MacroPat
        | Tag::OrPat | Tag::ParenPat | Tag::PathPat | Tag::WildcardPat | Tag::RangePat
        | Tag::RecordPat | Tag::RefPat | Tag::SlicePat | Tag::TuplePat | Tag::TupleStructPat
        | Tag::ConstBlockPat)
}

/// Kinds of expression nodes, name references included.
pub open spec fn is_expr_tag(t: Tag) -> bool {
    matches!(t, Tag::TupleExpr | Tag::ArrayExpr | Tag::ParenExpr | Tag::PathExpr
        | Tag::ClosureExpr | Tag::IfExpr | Tag::WhileExpr | Tag::LoopExpr | Tag::ForExpr
        | Tag::ContinueExpr | Tag::BreakExpr | Tag::ReturnExpr | Tag::YieldExpr | Tag::LetExpr
        | Tag::UnderscoreExpr | Tag::MacroExpr | Tag::MatchExpr | Tag::RecordExpr
        | Tag::RecordExprFieldList | Tag::RecordExprField | Tag::BoxExpr | Tag::CallExpr
        | Tag::IndexExpr | Tag::MethodCallExpr | Tag::FieldExpr | Tag::AwaitExpr | Tag::TryExpr
        | Tag::CastExpr | Tag::RefExpr | Tag::PrefixExpr | Tag::RangeExpr | Tag::BinExpr
        | Tag::ExprStmt | Tag::Literal | Tag::NameRef)
}

pub fn tag_is_type(t: Tag) -> (r: bool)
    ensures
        r == is_type_tag(t),
{
    match t {
        Tag::ArrayType | Tag::DynTraitType | Tag::FnPtrType | Tag::ForType | Tag::ImplTraitType
        | Tag::InferType | Tag::MacroType | Tag::NeverType | Tag::ParenType | Tag::PathType
        | Tag::PtrType | Tag::RefType | Tag::SliceType | Tag::TupleType => true,
        _ => false,
    }
}

pub fn tag_is_pat(t: Tag) -> (r: bool)
    ensures
        r == is_pat_tag(t),
{
    match t {
        Tag::IdentPat | Tag::BoxPat | Tag::RestPat | Tag::LiteralPat | Tag::MacroPat | Tag::OrPat
        | Tag::ParenPat | Tag::PathPat | Tag::WildcardPat | Tag::RangePat | Tag::RecordPat
        | Tag::RefPat | Tag::SlicePat | Tag::TuplePat | Tag::TupleStructPat
        | Tag::ConstBlockPat => true,
        _ => false,
    }
}

pub fn tag_is_expr(t: Tag) -> (r: bool)
    ensures
        r == is_expr_tag(t),
{
    match t {
        Tag::TupleExpr | Tag::ArrayExpr | Tag::ParenExpr | Tag::PathExpr | Tag::ClosureExpr
        | Tag::IfExpr | Tag::WhileExpr | Tag::LoopExpr | Tag::ForExpr | Tag::ContinueExpr
        | Tag::BreakExpr | Tag::ReturnExpr | Tag::YieldExpr | Tag::LetExpr | Tag::UnderscoreExpr
        | Tag::MacroExpr | Tag::MatchExpr | Tag::RecordExpr | Tag::RecordExprFieldList
        | Tag::RecordExprField | Tag::BoxExpr | Tag::CallExpr | Tag::IndexExpr
        | Tag::MethodCallExpr | Tag::FieldExpr | Tag::AwaitExpr | Tag::TryExpr | Tag::CastExpr
        | Tag::RefExpr | Tag::PrefixExpr | Tag::RangeExpr | Tag::BinExpr | Tag::ExprStmt
        | Tag::Literal | Tag::NameRef => true,
        _ => false,
    }
}

// ---------------------------------------------------------------------
// Node text

/// The text of a node: a leaf's token, or the texts of the children each
/// preceded by a space, trimmed.
pub open spec fn snode_string(n: SnodeV) -> Seq<char>
    decreases n,
{
    if n.children.len() == 0 {
        match n.asttoken {
            Some(t) => t,
            None => Seq::empty(),
        }
    } else {
        spec_trim(joined_strings(n.children, n.children.len() as int))
    }
}

/// The texts of the first `k` nodes of `s`, each preceded by a space.
pub open spec fn joined_strings(s: Seq<SnodeV>, k: int) -> Seq<char>
    decreases s, k,
{
    if k <= 0 || k > s.len() {
        Seq::empty()
    } else {
        joined_strings(s, k - 1) + seq![' '] + snode_string(s[k - 1])
    }
}

/// Whether a disjunction node and the disjunctions chained in its `else`
/// branches have the shape that the parser gives them: a condition, a block
/// holding a statement list, and optionally `else` and a further branch.
pub open spec fn disj_wf(n: SnodeV) -> bool
    decreases n,
{
    n.wrapper.isdisj ==> {
        &&& n.children.len() >= 3
        &&& n.children[2].children.len() >= 1
        &&& n.children.len() == 5 ==> disj_wf(n.children[4])
    }
}

/// The statement lists of the branches of a disjunction, in order.
pub open spec fn disj_branches(n: SnodeV) -> Seq<SnodeV>
    decreases n,
{
    if n.wrapper.isdisj && n.children.len() >= 3 && n.children[2].children.len() >= 1 {
        seq![n.children[2].children[0]] + if n.children.len() == 5 {
            disj_branches(n.children[4])
        } else {
            Seq::empty()
        }
    } else {
        Seq::empty()
    }
}

/// The `+` code that a modifier carries: before and after (a removed node
/// carries only code that replaces it).
pub open spec fn pluses_of(m: McodekindV) -> (Seq<SnodeV>, Seq<SnodeV>) {
    match m {
        McodekindV::Context(a, b) => (a, b),
        McodekindV::Minus(a) => (a, Seq::empty()),
        _ => (Seq::empty(), Seq::empty()),
    }
}

/// Whether `+` code can be attached to a node with this modifier.
pub open spec fn can_attach(m: McodekindV) -> bool {
    m is Context || m is Minus
}

/// All nodes of a tree, in preorder.
pub open spec fn preorder(n: SnodeV) -> Seq<SnodeV>
    decreases n,
{
    seq![n] + preorder_seq(n.children, n.children.len() as int)
}

pub open spec fn preorder_seq(s: Seq<SnodeV>, k: int) -> Seq<SnodeV>
    decreases s, k,
{
    if k <= 0 || k > s.len() {
        Seq::empty()
    } else {
        preorder_seq(s, k - 1) + preorder(s[k - 1])
    }
}

impl Snode {
    pub fn set_children(&mut self, children: Vec<Snode>)
        ensures
            final(self)@ == (SnodeV { children: snodes_v(children), ..old(self)@ }),
    {
        self.children = children
    }

    /// The text of a leaf.
    pub fn totoken(&self) -> (r: String)
        requires
            self.asttoken is Some,
        ensures
            r@ == self.asttoken->0@,
    {
        match &self.asttoken {
            Some(t) => t.clone(),
            None => String::new(),
        }
    }

    pub fn kind(&self) -> (r: Tag)
        ensures
            r == self.kind,
    {
        self.kind
    }

    /// The tokens under this node, separated by spaces.
    pub fn getstring(&self) -> (r: String)
        ensures
            r@ == snode_string(self@),
        decreases self,
    {
        let v = self.getstring_chars();
        string_of(&v)
    }

    fn getstring_chars(&self) -> (r: Vec<char>)
        ensures
            r@ == snode_string(self@),
        decreases self,
    {
        if self.children.len() == 0 {
            match &self.asttoken {
                Some(t) => chars_of(t.as_str()),
                None => Vec::new(),
            }
        } else {
            let mut tokens: Vec<char> = Vec::new();
            let ghost cv = snodes_v(self.children);
            for i in 0..self.children.len()
                invariant
                    cv == snodes_v(self.children),
                    cv.len() == self.children@.len(),
                    tokens@ == joined_strings(cv, i as int),
            {
                proof {
                    assert(decreases_to!(self => self.children@[i as int]));
                }
                let c = self.children[i].getstring_chars();
                tokens.push(' ');
                push_all(&mut tokens, &c);
                proof {
                    assert(cv[i as int] == self.children@[i as int]@);
                }
            }
            proof {
                assert(self@.children == cv);
            }
            trim(&tokens)
        }
    }

    pub fn istype(&self) -> (r: bool)
        ensures
            r == is_type_tag(self.kind),
    {
        tag_is_type(self.kind)
    }

    pub fn isid(&self) -> (r: bool)
        ensures
            r == (self.kind == Tag::Name || self.kind == Tag::NameRef || is_pat_tag(self.kind)),
    {
        self.kind == Tag::Name || self.kind == Tag::NameRef || self.ispat()
    }

    pub fn ispat(&self) -> (r: bool)
        ensures
            r == is_pat_tag(self.kind),
    {
        tag_is_pat(self.kind)
    }

    pub fn isexpr(&self) -> (r: bool)
        ensures
            r == is_expr_tag(self.kind),
    {
        tag_is_expr(self.kind)
    }

    /// The branches of a disjunction and the `+` code attached to it; no
    /// branches when this node is no disjunction.
    pub fn getdisjs<'a>(&'a self) -> (r: (Vec<&'a Snode>, Pluses))
        requires
            disj_wf(self@),
            self@.wrapper.isdisj ==> can_attach(self@.wrapper.mcodekind),
        ensures
            r.0@.len() == disj_branches(self@).len(),
            forall|i: int| 0 <= i < r.0@.len() ==> (#[trigger] r.0@[i])@ == disj_branches(self@)[i],
            self@.wrapper.isdisj ==> snodes_v(r.1.0) == pluses_of(self@.wrapper.mcodekind).0,
            self@.wrapper.isdisj ==> snodes_v(r.1.1) == pluses_of(self@.wrapper.mcodekind).1,
            !self@.wrapper.isdisj ==> r.1.0@.len() == 0 && r.1.1@.len() == 0,
    {
        if !self.wrapper.isdisj {
            return (vec![], (vec![], vec![]));
        }
        let disjs = collectdisjs(self);
        (disjs, self.wrapper.mcodekind.getpluses())
    }

    /// The texts of the keywords under this node, each once.
    pub fn get_constants(&self) -> (r: Vec<String>)
        ensures
            forall|i: int, j: int| 0 <= i < j < r@.len() ==> r@[i]@ != r@[j]@,
            forall|x: Seq<char>| #![trigger has_string(r@, x)] has_string(r@, x) <==> keyword_texts(self@).contains(x),
    {
        let mut acc: Vec<String> = Vec::new();
        collect_keywords(self, &mut acc);
        acc
    }
}

/// Some string of `v` holds the characters `x`.
pub open spec fn has_string(v: Seq<String>, x: Seq<char>) -> bool {
    exists|i: int| 0 <= i < v.len() && #[trigger] v[i]@ == x
}

/// The texts of the keyword leaves of a tree.
pub open spec fn keyword_texts(n: SnodeV) -> Set<Seq<char>>
    decreases n,
{
    (if is_keyword_leaf(n) {
        set![n.asttoken->0]
    } else {
        Set::empty()
    }) + keyword_texts_seq(n.children, n.children.len() as int)
}

pub open spec fn keyword_texts_seq(s: Seq<SnodeV>, k: int) -> Set<Seq<char>>
    decreases s, k,
{
    if k <= 0 || k > s.len() {
        Set::empty()
    } else {
        keyword_texts_seq(s, k - 1) + keyword_texts(s[k - 1])
    }
}

/// A leaf that is a keyword.
pub open spec fn is_keyword_leaf(n: SnodeV) -> bool {
    n.iskeyword && n.asttoken is Some
}

fn collectdisjs<'b>(node: &'b Snode) -> (r: Vec<&'b Snode>)
    requires
        disj_wf(node@),
    ensures
        r@.len() == disj_branches(node@).len(),
        forall|i: int| 0 <= i < r@.len() ==> (#[trigger] r@[i])@ == disj_branches(node@)[i],
    decreases node,
{
    let mut disjs: Vec<&Snode> = Vec::new();
    if node.wrapper.isdisj {
        proof {
            assert(node@.children[2] == node.children@[2]@);
            assert(node.children@[2]@.children[0] == node.children@[2].children@[0]@);
        }
        disjs.push(&node.children[2].children[0]);
        if node.children.len() == 5 {
            proof {
                assert(decreases_to!(node => node.children@[4]));
                assert(node@.children[4] == node.children@[4]@);
            }
            let mut more = collectdisjs(&node.children[4]);
            disjs.append(&mut more);
        }
    }
    disjs
}

fn contains_string(v: &Vec<String>, s: &String) -> (r: bool)
    ensures
        r == exists|i: int| 0 <= i < v@.len() && v@[i]@ == s@,
{
    for i in 0..v.len()
        invariant
            forall|j: int| 0 <= j < i ==> v@[j]@ != s@,
    {
        if v[i] == *s {
            return true;
        }
    }
    false
}

fn push_new_string(acc: &mut Vec<String>, t: String)
    requires
        forall|i: int, j: int| 0 <= i < j < old(acc)@.len() ==> old(acc)@[i]@ != old(acc)@[j]@,
    ensures
        forall|i: int, j: int| 0 <= i < j < final(acc)@.len() ==> final(acc)@[i]@ != final(acc)@[j]@,
        forall|x: Seq<char>| #![trigger has_string(final(acc)@, x)] has_string(final(acc)@, x) <==> (has_string(old(acc)@, x) || x == t@),
{
    if !contains_string(acc, &t) {
        let ghost old_acc = acc@;
        acc.push(t);
        proof {
            assert forall|x: Seq<char>| has_string(acc@, x) implies (has_string(old_acc, x) || x == t@) by {
                let i = choose|i: int| 0 <= i < acc@.len() && #[trigger] acc@[i]@ == x;
                if i < old_acc.len() {
                    assert(old_acc[i]@ == x);
                }
            }
            assert forall|x: Seq<char>| (has_string(old_acc, x) || x == t@) implies has_string(acc@, x) by {
                if x == t@ {
                    assert(acc@[old_acc.len() as int]@ == x);
                } else {
                    let i = choose|i: int| 0 <= i < old_acc.len() && #[trigger] old_acc[i]@ == x;
                    assert(acc@[i]@ == x);
                }
            }
        }
    } else {
        proof {
            assert forall|x: Seq<char>| (has_string(acc@, x) || x == t@) implies has_string(acc@, x) by {
                if x == t@ {
                    let i = choose|i: int| 0 <= i < acc@.len() && acc@[i]@ == t@;
                    assert(acc@[i]@ == x);
                }
            }
        }
    }
}

fn collect_keywords(node: &Snode, acc: &mut Vec<String>)
    requires
        forall|i: int, j: int| 0 <= i < j < old(acc)@.len() ==> old(acc)@[i]@ != old(acc)@[j]@,
    ensures
        forall|i: int, j: int| 0 <= i < j < final(acc)@.len() ==> final(acc)@[i]@ != final(acc)@[j]@,
        forall|x: Seq<char>| #![trigger has_string(final(acc)@, x)] has_string(final(acc)@, x) <==> (has_string(old(acc)@, x) || keyword_texts(node@).contains(x)),
    decreases node,
{
    let ghost a0 = (*acc)@;
    if node.iskeyword {
        match &node.asttoken {
            Some(t) => {
                push_new_string(acc, t.clone());
            },
            None => {},
        }
    }
    let ghost a1 = (*acc)@;
    let ghost cv = snodes_v(node.children);
    for i in 0..node.children.len()
        invariant
            cv == snodes_v(node.children),
            cv.len() == node.children@.len(),
            forall|i: int, j: int| 0 <= i < j < (*acc)@.len() ==> (*acc)@[i]@ != (*acc)@[j]@,
            forall|x: Seq<char>| #![trigger has_string((*acc)@, x)] has_string((*acc)@, x) <==> (has_string(a1, x) || keyword_texts_seq(cv, i as int).contains(x)),
    {
        proof {
            assert(decreases_to!(node => node.children@[i as int]));
            assert(cv[i as int] == node.children@[i as int]@);
        }
        let ghost mid = (*acc)@;
        collect_keywords(&node.children[i], acc);
        proof {
            assert(keyword_texts_seq(cv, i + 1) == keyword_texts_seq(cv, i as int) + keyword_texts(cv[i as int]));
            assert forall|x: Seq<char>| #![trigger has_string((*acc)@, x)] has_string((*acc)@, x) <==> (has_string(a1, x) || keyword_texts_seq(cv, i + 1).contains(x)) by {
                assert(has_string((*acc)@, x) <==> (has_string(mid, x) || keyword_texts(cv[i as int]).contains(x)));
                assert(has_string(mid, x) <==> (has_string(a1, x) || keyword_texts_seq(cv, i as int).contains(x)));
            }
        }
    }
    proof {
        assert(node@.children == cv);
        assert(keyword_texts(node@) == (if is_keyword_leaf(node@) {
            set![node@.asttoken->0]
        } else {
            Set::empty()
        }) + keyword_texts_seq(cv, cv.len() as int));
        assert forall|x: Seq<char>| #![trigger has_string((*acc)@, x)] has_string((*acc)@, x) <==> (has_string(a0, x) || keyword_texts(node@).contains(x)) by {
            assert(has_string((*acc)@, x) <==> (has_string(a1, x) || keyword_texts_seq(cv, cv.len() as int).contains(x)));
            if is_keyword_leaf(node@) {
                assert(node@.asttoken->0 == node.asttoken->0@);
                assert(has_string(a1, x) <==> (has_string(a0, x) || x == node.asttoken->0@));
            } else {
                assert(a1 == a0);
            }
        }
    }
}

// ---------------------------------------------------------------------
// Modifiers

impl Mcodekind {
    pub fn is_context(&self) -> (r: bool)
        ensures
            r == (self@ is Context),
    {
        match self {
            Mcodekind::Context(_, _) => true,
            _ => false,
        }
    }

    /// The code attached before a node (the replacing code of a removed
    /// one); none for other nodes.
    pub fn getpluses_or_none(&self) -> (r: Vec<Snode>)
        ensures
            snodes_v(r) == pluses_of(self@).0,
    {
        match self {
            Mcodekind::Context(a, _) => copy_snodes(a),
            Mcodekind::Minus(a) => copy_snodes(a),
            _ => {
                let r: Vec<Snode> = Vec::new();
                proof {
                    assert(snodes_v(r) =~= Seq::<SnodeV>::empty());
                }
                r
            },
        }
    }

    /// Whether the node is removed.
    pub fn is_minus(&self) -> (r: bool)
        ensures
            r == (self@ is Minus),
    {
        match self {
            Mcodekind::Minus(_) => true,
            _ => false,
        }
    }

    /// The code attached before a kept node, or the code replacing a removed
    /// one.
    pub fn get_plusesbef_ref_mut<'a>(&'a mut self) -> (r: &'a mut Vec<Snode>)
        requires
            can_attach(old(self)@),
        ensures
            snodes_v(*r) == pluses_of(old(self)@).0,
            final(self)@ == match old(self)@ {
                McodekindV::Context(_, b) => McodekindV::Context(snodes_v(*final(r)), b),
                _ => McodekindV::Minus(snodes_v(*final(r))),
            },
    {
        match self {
            Mcodekind::Context(a, _) => a,
            Mcodekind::Minus(a) => a,
            _ => unreached(),
        }
    }

    /// The code attached after a kept node, or the code replacing a removed
    /// one.
    pub fn get_plusesaft_ref_mut<'a>(&'a mut self) -> (r: &'a mut Vec<Snode>)
        requires
            can_attach(old(self)@),
        ensures
            snodes_v(*r) == match old(self)@ {
                McodekindV::Context(_, b) => b,
                McodekindV::Minus(a) => a,
                _ => Seq::empty(),
            },
            final(self)@ == match old(self)@ {
                McodekindV::Context(a, _) => McodekindV::Context(a, snodes_v(*final(r))),
                _ => McodekindV::Minus(snodes_v(*final(r))),
            },
    {
        match self {
            Mcodekind::Context(_, a) => a,
            Mcodekind::Minus(a) => a,
            _ => unreached(),
        }
    }

    pub fn get_plusesbef_ref<'a>(&'a self) -> (r: &'a Vec<Snode>)
        requires
            can_attach(self@),
        ensures
            snodes_v(*r) == pluses_of(self@).0,
    {
        match self {
            Mcodekind::Context(a, _) => a,
            Mcodekind::Minus(a) => a,
            _ => unreached(),
        }
    }

    pub fn get_plusesaft_ref<'a>(&'a self) -> (r: &'a Vec<Snode>)
        requires
            can_attach(self@),
        ensures
            snodes_v(*r) == match self@ {
                McodekindV::Context(_, b) => b,
                McodekindV::Minus(a) => a,
                _ => Seq::empty(),
            },
    {
        match self {
            Mcodekind::Context(_, a) => a,
            Mcodekind::Minus(a) => a,
            _ => unreached(),
        }
    }

    /// Copies of the code attached before and after.
    pub fn getpluses(&self) -> (r: (Vec<Snode>, Vec<Snode>))
        requires
            can_attach(self@),
        ensures
            snodes_v(r.0) == pluses_of(self@).0,
            snodes_v(r.1) == pluses_of(self@).1,
    {
        match self {
            Mcodekind::Context(a, b) => (copy_snodes(a), copy_snodes(b)),
            Mcodekind::Minus(a) => (copy_snodes(a), vec![]),
            _ => (vec![], vec![]),
        }
    }

    /// Attaches `pluses` after the code already attached before a kept node,
    /// or after the replacement of a removed one.
    pub fn push_pluses_front(&mut self, pluses: Vec<Snode>)
        requires
            can_attach(old(self)@),
        ensures
            final(self)@ == match old(self)@ {
                McodekindV::Context(a, b) => McodekindV::Context(a + snodes_v(pluses), b),
                McodekindV::Minus(a) => McodekindV::Minus(a + snodes_v(pluses)),
                m => m,
            },
    {
        match self {
            Mcodekind::Context(a, _) => {
                extend_snodes(a, pluses);
            },
            Mcodekind::Minus(a) => extend_snodes(a, pluses),
            _ => {},
        }
    }

    /// Attaches `pluses` after the code already attached after a kept node,
    /// or after the replacement of a removed one.
    pub fn push_pluses_back(&mut self, pluses: Vec<Snode>)
        requires
            can_attach(old(self)@),
        ensures
            final(self)@ == match old(self)@ {
                McodekindV::Context(a, b) => McodekindV::Context(a, b + snodes_v(pluses)),
                McodekindV::Minus(a) => McodekindV::Minus(a + snodes_v(pluses)),
                m => m,
            },
    {
        match self {
            Mcodekind::Context(_, a) => {
                extend_snodes(a, pluses);
            },
            Mcodekind::Minus(a) => extend_snodes(a, pluses),
            _ => {},
        }
    }
}

/// Moves the nodes of `more` to the end of `v`.
pub fn extend_snodes(v: &mut Vec<Snode>, more: Vec<Snode>)
    ensures
        snodes_v(*final(v)) == snodes_v(*old(v)) + snodes_v(more),
{
    let ghost v0 = v@;
    let ghost mv = snodes_v(more);
    let ghost m0 = more@;
    let mut m = more;
    v.append(&mut m);
    proof {
        assert(v@ == v0 + m0);
        assert(snodes_v(*v) =~= snodes_v(*old(v)) + mv);
    }
}

// ---------------------------------------------------------------------
// Metavariables

/// The name, binding and inheritance of a metavariable model.
pub open spec fn minfo_of(m: MetaVarV) -> MinfoV {
    match m {
        MetaVarV::Exp(i) => i,
        MetaVarV::Id(i) => i,
        MetaVarV::Type(i) => i,
        MetaVarV::Struct(_, i) => i,
        MetaVarV::Enum(_, i) => i,
        MetaVarV::NoMeta => arbitrary(),
    }
}

/// The same metavariable with other name information.
pub open spec fn with_minfo(m: MetaVarV, i: MinfoV) -> MetaVarV {
    match m {
        MetaVarV::Exp(_) => MetaVarV::Exp(i),
        MetaVarV::Id(_) => MetaVarV::Id(i),
        MetaVarV::Type(_) => MetaVarV::Type(i),
        MetaVarV::Struct(t, _) => MetaVarV::Struct(t, i),
        MetaVarV::Enum(t, _) => MetaVarV::Enum(t, i),
        MetaVarV::NoMeta => MetaVarV::NoMeta,
    }
}

/// The name of the type of a metavariable, as written in declarations.
pub open spec fn metavar_type_name(m: MetaVarV) -> Seq<char> {
    match m {
        MetaVarV::NoMeta => "None"@,
        MetaVarV::Id(_) => "identifier"@,
        MetaVarV::Exp(_) => "expression"@,
        MetaVarV::Type(_) => "type"@,
        MetaVarV::Struct(_, _) => "struct"@,
        MetaVarV::Enum(_, _) => "enum"@,
    }
}

impl MetaVar {
    pub fn getname(&self) -> (r: &str)
        requires
            !(self@ is NoMeta),
        ensures
            r@ == minfo_of(self@).0.varname,
    {
        match self {
            Self::NoMeta => "",
            Self::Id(minfo) => minfo.0.varname.as_str(),
            Self::Exp(minfo) => minfo.0.varname.as_str(),
            Self::Type(minfo) => minfo.0.varname.as_str(),
            Self::Struct(_, minfo) => minfo.0.varname.as_str(),
            Self::Enum(_, minfo) => minfo.0.varname.as_str(),
        }
    }

    pub fn gettype(&self) -> (r: &str)
        ensures
            r@ == metavar_type_name(self@),
    {
        match self {
            Self::NoMeta => "None",
            Self::Id(_minfo) => "identifier",
            Self::Exp(_minfo) => "expression",
            Self::Type(_minfo) => "type",
            Self::Struct(_, _minfo) => "struct",
            Self::Enum(_, _minfo) => "enum",
        }
    }

    pub fn setbinding(&mut self, binding: KeepBinding)
        requires
            !(old(self)@ is NoMeta),
        ensures
            final(self)@ == with_minfo(old(self)@, (minfo_of(old(self)@).0, binding, minfo_of(old(self)@).2)),
    {
        match self {
            Self::NoMeta => {},
            Self::Exp(minfo) => {
                minfo.1 = binding;
            },
            Self::Id(minfo) => {
                minfo.1 = binding;
            },
            Self::Type(minfo) => {
                minfo.1 = binding;
            },
            Self::Struct(_, minfo) => {
                minfo.1 = binding;
            },
            Self::Enum(_, minfo) => {
                minfo.1 = binding;
            },
        }
    }

    pub fn getminfo(&self) -> (r: &Minfo)
        requires
            !(self@ is NoMeta),
        ensures
            minfo_v(*r) == minfo_of(self@),
    {
        match self {
            Self::Exp(minfo) => minfo,
            Self::Id(minfo) => minfo,
            Self::Type(minfo) => minfo,
            Self::Struct(_, minfo) => minfo,
            Self::Enum(_, minfo) => minfo,
            Self::NoMeta => unreached(),
        }
    }

    pub fn getrulename(&self) -> (r: &str)
        requires
            !(self@ is NoMeta),
        ensures
            r@ == minfo_of(self@).0.rulename,
    {
        match self {
            Self::NoMeta => "",
            Self::Exp(minfo) => minfo.0.rulename.as_str(),
            Self::Id(minfo) => minfo.0.rulename.as_str(),
            Self::Type(minfo) => minfo.0.rulename.as_str(),
            Self::Struct(_, minfo) => minfo.0.rulename.as_str(),
            Self::Enum(_, minfo) => minfo.0.rulename.as_str(),
        }
    }

    /// A new metavariable of rule `rulename`, named `name`, of type `ty`, kept
    /// as unitary until classified.
    pub fn new(rulename: &str, name: &str, ty: &MetavarType, isinherited: bool) -> (r: Option<MetaVar>)
        ensures
            r is Some,
            minfo_of(r->0@) == (MetavarNameV { rulename: rulename@, varname: name@ }, KeepBinding::UNITARY, isinherited),
            match *ty {
                MetavarType::Expression => r->0@ is Exp,
                MetavarType::Identifier => r->0@ is Id,
                MetavarType::Type => r->0@ is Type,
                MetavarType::Struct(t) => r->0@ matches MetaVarV::Struct(u, _) && u == t@,
                MetavarType::Enum(t) => r->0@ matches MetaVarV::Enum(u, _) && u == t@,
            },
    {
        let minfo = (
            MetavarName { rulename: string_from(rulename), varname: string_from(name) },
            KeepBinding::UNITARY,
            isinherited,
        );
        match ty {
            MetavarType::Expression => Some(Self::Exp(minfo)),
            MetavarType::Identifier => Some(Self::Id(minfo)),
            MetavarType::Type => Some(Self::Type(minfo)),
            MetavarType::Struct(tyname) => Some(Self::Struct(tyname.clone(), minfo)),
            MetavarType::Enum(tyname) => Some(Self::Enum(tyname.clone(), minfo)),
        }
    }

    pub fn isnotmeta(&self) -> (r: bool)
        ensures
            r == (self@ is NoMeta),
    {
        match self {
            MetaVar::NoMeta => true,
            _ => false,
        }
    }

    /// A copy of this metavariable, marked as inherited.
    pub fn makeinherited(&self) -> (r: MetaVar)
        ensures
            r@ == with_minfo(self@, (minfo_of(self@).0, minfo_of(self@).1, true)),
    {
        let mut inherited = self.copy();
        match &mut inherited {
            MetaVar::NoMeta => {},
            MetaVar::Exp(minfo) => {
                minfo.2 = true;
            },
            MetaVar::Id(minfo) => {
                minfo.2 = true;
            },
            MetaVar::Type(minfo) => {
                minfo.2 = true;
            },
            MetaVar::Struct(_, minfo) => {
                minfo.2 = true;
            },
            MetaVar::Enum(_, minfo) => {
                minfo.2 = true;
            },
        }
        inherited
    }

    pub fn isinherited(&self) -> (r: bool)
        ensures
            r == (!(self@ is NoMeta) && minfo_of(self@).2),
    {
        match self {
            MetaVar::NoMeta => false,
            MetaVar::Exp(minfo) => minfo.2,
            MetaVar::Id(minfo) => minfo.2,
            MetaVar::Type(minfo) => minfo.2,
            MetaVar::Struct(_, minfo) => minfo.2,
            MetaVar::Enum(_, minfo) => minfo.2,
        }
    }
}

/// The metavariable types that a declaration may name: `expression`,
/// `identifier` and `type` alone, `struct` and `enum` with a type name.
pub open spec fn valid_metavar_type(ty: Seq<char>, tyname: Option<Seq<char>>) -> bool {
    match tyname {
        None => ty == "expression"@ || ty == "identifier"@ || ty == "type"@,
        Some(_) => ty == "struct"@ || ty == "enum"@,
    }
}

impl MetavarType {
    pub fn build(ty: &str, tyname: Option<&str>) -> (r: MetavarType)
        requires
            valid_metavar_type(ty@, match tyname { Some(t) => Some(t@), None => None }),
        ensures
            match tyname {
                None => if ty@ == "expression"@ {
                    r is Expression
                } else if ty@ == "identifier"@ {
                    r is Identifier
                } else {
                    r is Type
                },
                Some(t) => if ty@ == "struct"@ {
                    r matches MetavarType::Struct(n) && n@ == t@
                } else {
                    r matches MetavarType::Enum(n) && n@ == t@
                },
            },
    {
        match tyname {
            None => if str_eq(ty, "expression") {
                MetavarType::Expression
            } else if str_eq(ty, "identifier") {
                MetavarType::Identifier
            } else {
                MetavarType::Type
            },
            Some(tyname) => if str_eq(ty, "struct") {
                MetavarType::Struct(string_from(tyname))
            } else {
                MetavarType::Enum(string_from(tyname))
            },
        }
    }
}

// ---------------------------------------------------------------------
// Node information

impl Wrap {
    /// The information of a node that is plain context code until the patch
    /// says otherwise.
    pub fn new(
        info: Info,
        index: usize,
        exp_ty: Option<String>,
        metavar: MetaVar,
        true_if_arg: bool,
        true_if_test: bool,
        true_if_test_exp: bool,
        iso_info: Vec<(String, Dummy)>,
        isdisj: bool,
    ) -> (r: Wrap)
        ensures
            r@ == (WrapV {
                info: info@,
                index,
                exp_ty: opt_str_v(exp_ty),
                metavar: metavar@,
                true_if_arg,
                true_if_test,
                true_if_test_exp,
                iso_info: iso_v(iso_info),
                isdisj,
                modkind: None,
                mcodekind: McodekindV::Context(Seq::empty(), Seq::empty()),
            }),
    {
        let a: Vec<Snode> = Vec::new();
        let b: Vec<Snode> = Vec::new();
        proof {
            assert(snodes_v(a) =~= Seq::<SnodeV>::empty());
            assert(snodes_v(b) =~= Seq::<SnodeV>::empty());
        }
        let r = Wrap {
            info,
            index,
            exp_ty,
            metavar,
            true_if_arg,
            true_if_test,
            true_if_test_exp,
            iso_info,
            isdisj,
            modkind: None,
            mcodekind: Mcodekind::Context(a, b),
        };
        r
    }

    pub fn is_ident(&self) -> (r: bool)
        ensures
            r == self.info.is_symbol_ident,
    {
        self.info.is_symbol_ident
    }

    pub fn getlinenos(&self) -> (r: (usize, usize))
        ensures
            r == (self.info.pos_info.line_start, self.info.pos_info.line_end),
    {
        (self.info.pos_info.line_start, self.info.pos_info.line_end)
    }

    pub fn set_logilines_start(&mut self, lino: usize)
        ensures
            final(self)@ == (WrapV {
                info: InfoV { pos_info: PositionInfo { logical_start: lino, ..old(self)@.info.pos_info }, ..old(self)@.info },
                ..old(self)@
            }),
    {
        self.info.pos_info.logical_start = lino;
    }

    pub fn set_logilines_end(&mut self, lino: usize)
        ensures
            final(self)@ == (WrapV {
                info: InfoV { pos_info: PositionInfo { logical_end: lino, ..old(self)@.info.pos_info }, ..old(self)@.info },
                ..old(self)@
            }),
    {
        self.info.pos_info.logical_end = lino;
    }

    pub fn getlogilinenos(&self) -> (r: (usize, usize))
        ensures
            r == (self.info.pos_info.logical_start, self.info.pos_info.logical_end),
    {
        (self.info.pos_info.logical_start, self.info.pos_info.logical_end)
    }

    /// Sets the modifier from the text of a modifier comment: `+`, `-` or
    /// `*`; anything else makes the node context code.
    pub fn setmodkind(&mut self, modkind: String)
        ensures
            final(self)@ == (WrapV {
                modkind: modkind_of(modkind@),
                mcodekind: mcodekind_of(modkind_of(modkind@)),
                ..old(self)@
            }),
    {
        let m = chars_of(modkind.as_str());
        let k = if chars_eq_str(&m, "+") {
            Some(MODKIND::PLUS)
        } else if chars_eq_str(&m, "-") {
            Some(MODKIND::MINUS)
        } else if chars_eq_str(&m, "*") {
            Some(MODKIND::STAR)
        } else {
            None
        };
        self.setmod(k);
    }

    /// Sets the modifier, with no `+` code attached yet.
    pub fn setmod(&mut self, k: Option<MODKIND>)
        ensures
            final(self)@ == (WrapV { modkind: k, mcodekind: mcodekind_of(k), ..old(self)@ }),
    {
        let a: Vec<Snode> = Vec::new();
        let b: Vec<Snode> = Vec::new();
        proof {
            assert(snodes_v(a) =~= Seq::<SnodeV>::empty());
            assert(snodes_v(b) =~= Seq::<SnodeV>::empty());
        }
        self.modkind = k;
        self.mcodekind = match k {
            Some(MODKIND::PLUS) => Mcodekind::Plus,
            Some(MODKIND::MINUS) => Mcodekind::Minus(a),
            Some(MODKIND::STAR) => Mcodekind::Star,
            None => Mcodekind::Context(a, b),
        };
    }
}

/// The modifier written as `s`.
pub open spec fn modkind_of(s: Seq<char>) -> Option<MODKIND> {
    if s == "+"@ {
        Some(MODKIND::PLUS)
    } else if s == "-"@ {
        Some(MODKIND::MINUS)
    } else if s == "*"@ {
        Some(MODKIND::STAR)
    } else {
        None
    }
}

/// A modifier with no `+` code attached.
pub open spec fn mcodekind_of(k: Option<MODKIND>) -> McodekindV {
    match k {
        Some(MODKIND::PLUS) => McodekindV::Plus,
        Some(MODKIND::MINUS) => McodekindV::Minus(Seq::empty()),
        Some(MODKIND::STAR) => McodekindV::Star,
        None => McodekindV::Context(Seq::empty(), Seq::empty()),
    }
}

} // verus!
