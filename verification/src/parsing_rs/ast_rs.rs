//! The tree of parsed Rust code (`Rnode`): every node keeps the whitespace
//! around it, whether it is removed, and the code added before and after
//! it, so that the transformed code can be printed back.
use vstd::prelude::*;
use crate::commons::info;
use crate::commons::info::ParseInfoV;
use crate::commons::syntax_kind::Tag;
use crate::commons::text::{chars_contains, chars_of, push_all, push_str, spec_contains, string_of};
use crate::parsing_cocci::ast0::{is_expr_tag, is_pat_tag, is_type_tag, tag_is_expr, tag_is_pat, tag_is_type};

verus! {

/// Where a token comes from: the parsed code, or code made up after parsing
/// at a virtual place.
pub enum ParseInfo {
    OriginTok(info::ParseInfo),
    FakeTok(String, (info::ParseInfo, usize)),
}

#[derive(Clone, Copy, PartialEq, Eq, Structural, Hash, Debug)]
pub enum Danger {
    DangerStart,
    DangerEnd,
    Danger,
    NoDanger,
}

/// What a node of Rust code carries besides its syntax.
pub struct Wrap {
    pub info: info::ParseInfo,
    pub index: usize,
    pub danger: Danger,
    /// Whitespace and comments before and after the node.
    pub wspaces: (String, String),
    /// Whether the node is removed from the code.
    pub isremoved: bool,
    /// Code added before and after the node.
    pub plussed: (Vec<Rnode>, Vec<Rnode>),
    pub exp_ty: Option<String>,
}

/// A node of parsed Rust code.
pub struct Rnode {
    pub wrapper: Wrap,
    /// The text of a leaf; `None` for a node with children.
    pub astnode: Option<String>,
    pub kind: Tag,
    pub children: Vec<Rnode>,
}

pub ghost struct RWrapV {
    pub info: ParseInfoV,
    pub index: usize,
    pub danger: Danger,
    pub wspaces: (Seq<char>, Seq<char>),
    pub isremoved: bool,
    pub plussed: (Seq<RnodeV>, Seq<RnodeV>),
    pub exp_ty: Option<Seq<char>>,
}

pub ghost struct RnodeV {
    pub wrapper: RWrapV,
    pub astnode: Option<Seq<char>>,
    pub kind: Tag,
    pub children: Seq<RnodeV>,
}

pub open spec fn rnodes_v(v: Vec<Rnode>) -> Seq<RnodeV>
    decreases v,
{
    Seq::new(
        v@.len(),
        |i: int|
            if 0 <= i < v@.len() {
                rnode_v(v@[i])
            } else {
                arbitrary()
            },
    )
}

pub open spec fn rwrap_v(w: Wrap) -> RWrapV
    decreases w,
{
    RWrapV {
        info: w.info@,
        index: w.index,
        danger: w.danger,
        wspaces: (w.wspaces.0@, w.wspaces.1@),
        isremoved: w.isremoved,
        plussed: (rnodes_v(w.plussed.0), rnodes_v(w.plussed.1)),
        exp_ty: match w.exp_ty {
            Some(s) => Some(s@),
            None => None,
        },
    }
}

pub open spec fn rnode_v(n: Rnode) -> RnodeV
    decreases n,
{
    RnodeV {
        wrapper: rwrap_v(n.wrapper),
        astnode: match n.astnode {
            Some(s) => Some(s@),
            None => None,
        },
        kind: n.kind,
        children: rnodes_v(n.children),
    }
}

impl View for Rnode {
    type V = RnodeV;

    open spec fn view(&self) -> RnodeV {
        rnode_v(*self)
    }
}

impl View for Wrap {
    type V = RWrapV;

    open spec fn view(&self) -> RWrapV {
        rwrap_v(*self)
    }
}

/// A leaf's text (empty for a node that has none).
pub open spec fn token_of(n: RnodeV) -> Seq<char> {
    match n.astnode {
        Some(t) => t,
        None => Seq::empty(),
    }
}

/// The marker that stands for `+` code in unformatted output.
pub open spec fn coccivar_mark() -> Seq<char> {
    "/*COCCIVAR*/"@
}

// ---------------------------------------------------------------------
// Printing

/// The code of a node as it is printed: added code before it (each followed
/// by a space), its leading whitespace (a single space where the added-code
/// marker stands, none when removed), its token or its children, its
/// trailing whitespace (none when removed), and added code after it.
pub open spec fn rnode_string(n: RnodeV) -> Seq<char>
    decreases n, 1int,
{
    rnode_strings(n.wrapper.plussed.0, n.wrapper.plussed.0.len() as int, true) + (if spec_contains(
        n.wrapper.wspaces.0,
        coccivar_mark(),
    ) {
        seq![' ']
    } else if !n.wrapper.isremoved {
        n.wrapper.wspaces.0
    } else {
        Seq::empty()
    }) + (if n.children.len() == 0 && !n.wrapper.isremoved {
        token_of(n)
    } else {
        rnode_strings(n.children, n.children.len() as int, false)
    }) + (if !n.wrapper.isremoved {
        n.wrapper.wspaces.1
    } else {
        Seq::empty()
    }) + rnode_strings(n.wrapper.plussed.1, n.wrapper.plussed.1.len() as int, false)
}

/// The printed code of the first `k` nodes of `s`, each followed by a space
/// when `sep` holds.
pub open spec fn rnode_strings(s: Seq<RnodeV>, k: int, sep: bool) -> Seq<char>
    decreases s, k,
{
    if k <= 0 || k > s.len() {
        Seq::empty()
    } else {
        rnode_strings(s, k - 1, sep) + rnode_string(s[k - 1]) + if sep {
            seq![' ']
        } else {
            Seq::empty()
        }
    }
}

/// The code of a node for reparsing: like its printed code, but added code
/// is introduced by the marker comment, and leading whitespace is kept.
pub open spec fn rnode_unformatted(n: RnodeV) -> Seq<char>
    decreases n, 1int,
{
    (if n.wrapper.plussed.0.len() != 0 {
        coccivar_mark() + rnode_unformatteds(n.wrapper.plussed.0, n.wrapper.plussed.0.len() as int, true)
    } else {
        Seq::empty()
    }) + (if !n.wrapper.isremoved {
        n.wrapper.wspaces.0
    } else {
        Seq::empty()
    }) + (if n.children.len() == 0 && !n.wrapper.isremoved {
        token_of(n)
    } else {
        rnode_unformatteds(n.children, n.children.len() as int, false)
    }) + (if !n.wrapper.isremoved {
        n.wrapper.wspaces.1
    } else {
        Seq::empty()
    }) + (if n.wrapper.plussed.1.len() != 0 {
        coccivar_mark() + rnode_unformatteds(n.wrapper.plussed.1, n.wrapper.plussed.1.len() as int, false)
    } else {
        Seq::empty()
    })
}

/// The unformatted code of the first `k` nodes of `s`, each followed by a
/// space when `sep` holds.
pub open spec fn rnode_unformatteds(s: Seq<RnodeV>, k: int, sep: bool) -> Seq<char>
    decreases s, k,
{
    if k <= 0 || k > s.len() {
        Seq::empty()
    } else {
        rnode_unformatteds(s, k - 1, sep) + rnode_unformatted(s[k - 1]) + if sep {
            seq![' ']
        } else {
            Seq::empty()
        }
    }
}

/// Two trees have the same shape and the same tokens at their leaves.
pub open spec fn rnode_equals(a: RnodeV, b: RnodeV) -> bool
    decreases a, 1int,
{
    if a.children.len() != b.children.len() {
        false
    } else if a.children.len() == 0 {
        token_of(a) == token_of(b)
    } else {
        children_equal(a.children, b.children, a.children.len() as int)
    }
}

/// The first `k` trees of `a` equal those of `b`, one by one.
pub open spec fn children_equal(a: Seq<RnodeV>, b: Seq<RnodeV>, k: int) -> bool
    decreases a, k,
{
    if k <= 0 || k > a.len() || k > b.len() {
        true
    } else {
        children_equal(a, b, k - 1) && rnode_equals(a[k - 1], b[k - 1])
    }
}

/// Every tree equals itself.
pub proof fn law_equals_reflexive(a: RnodeV)
    ensures
        rnode_equals(a, a),
    decreases a, 1int,
{
    lemma_children_equal_reflexive(a.children, a.children.len() as int);
}

proof fn lemma_children_equal_reflexive(a: Seq<RnodeV>, k: int)
    ensures
        children_equal(a, a, k),
    decreases a, k,
{
    if 0 < k <= a.len() {
        lemma_children_equal_reflexive(a, k - 1);
        law_equals_reflexive(a[k - 1]);
    }
}

/// Equality of trees is symmetric.
pub proof fn law_equals_symmetric(a: RnodeV, b: RnodeV)
    requires
        rnode_equals(a, b),
    ensures
        rnode_equals(b, a),
    decreases a, 1int,
{
    if a.children.len() > 0 {
        lemma_children_equal_symmetric(a.children, b.children, a.children.len() as int);
    }
}

proof fn lemma_children_equal_symmetric(a: Seq<RnodeV>, b: Seq<RnodeV>, k: int)
    requires
        children_equal(a, b, k),
        a.len() == b.len(),
    ensures
        children_equal(b, a, k),
    decreases a, k,
{
    if 0 < k <= a.len() {
        lemma_children_equal_symmetric(a, b, k - 1);
        law_equals_symmetric(a[k - 1], b[k - 1]);
    }
}

proof fn lemma_children_equal_prefix(a: Seq<RnodeV>, b: Seq<RnodeV>, k: int, j: int)
    requires
        0 <= j <= k,
        children_equal(a, b, k),
        k <= a.len(),
        k <= b.len(),
    ensures
        children_equal(a, b, j),
    decreases k - j,
{
    if j < k {
        lemma_children_equal_prefix(a, b, k - 1, j);
    }
}

/// The trailing whitespace of the last leaf of a tree.
pub open spec fn spaces_right(n: RnodeV) -> Seq<char>
    decreases n,
{
    if n.children.len() == 0 {
        n.wrapper.wspaces.1
    } else {
        spaces_right(n.children[n.children.len() - 1])
    }
}

/// Kinds of identifier nodes of Rust code (patterns included).
pub open spec fn is_rs_id_tag(t: Tag) -> bool {
    matches!(t, Tag::Path | Tag::PathSegment | Tag::Name | Tag::NameRef) || is_pat_tag(t)
}

/// Kinds of item nodes.
pub open spec fn is_item_tag(t: Tag) -> bool {
    matches!(t, Tag::Const | Tag::Enum | Tag::ExternBlock | Tag::ExternCrate | Tag::Fn | Tag::Impl
        | Tag::MacroCall | Tag::MacroRules | Tag::MacroDef | Tag::Module | Tag::Static | Tag::Struct
        | Tag::Trait | Tag::TraitAlias | Tag::TypeAlias | Tag::Union | Tag::Use)
}

/// The record of a node made up from the semantic patch with `nc`
/// children: a leaf is preceded by a space.
pub open spec fn dummy_wrap(nc: nat) -> RWrapV {
    RWrapV {
        info: ParseInfoV {
            str: Seq::empty(),
            charstart: 0,
            charend: 0,
            sline: 0,
            eline: 0,
            column: 0,
            file: Seq::empty(),
        },
        index: 0,
        danger: Danger::NoDanger,
        wspaces: (
            if nc == 0 {
                seq![' ']
            } else {
                Seq::empty()
            },
            Seq::empty(),
        ),
        isremoved: false,
        plussed: (Seq::empty(), Seq::empty()),
        exp_ty: None,
    }
}

// ---------------------------------------------------------------------
// Copies

fn copy_string_pair(p: &(String, String)) -> (r: (String, String))
    ensures
        r.0@ == p.0@,
        r.1@ == p.1@,
{
    (p.0.clone(), p.1.clone())
}

fn copy_opt(o: &Option<String>) -> (r: Option<String>)
    ensures
        match (r, *o) {
            (Some(a), Some(b)) => a@ == b@,
            (None, None) => true,
            _ => false,
        },
{
    match o {
        Some(s) => Some(s.clone()),
        None => None,
    }
}

/// Copies of the trees of `v`.
pub fn copy_rnodes(v: &Vec<Rnode>) -> (r: Vec<Rnode>)
    ensures
        rnodes_v(r) == rnodes_v(*v),
    decreases v,
{
    let mut r: Vec<Rnode> = Vec::new();
    for i in 0..v.len()
        invariant
            r@.len() == i,
            i <= v@.len(),
            forall|j: int| 0 <= j < i ==> rnode_v(#[trigger] r@[j]) == rnode_v(v@[j]),
    {
        proof {
            assert(decreases_to!(v => v@[i as int]));
        }
        let c = v[i].copy();
        r.push(c);
    }
    proof {
        assert(rnodes_v(r) =~= rnodes_v(*v));
    }
    r
}

impl Wrap {
    /// A copy of this record and of the code added around its node.
    pub fn copy(&self) -> (r: Wrap)
        ensures
            r@ == self@,
        decreases self,
    {
        let w = Wrap {
            info: self.info.copy(),
            index: self.index,
            danger: self.danger,
            wspaces: copy_string_pair(&self.wspaces),
            isremoved: self.isremoved,
            plussed: (copy_rnodes(&self.plussed.0), copy_rnodes(&self.plussed.1)),
            exp_ty: copy_opt(&self.exp_ty),
        };
        proof {
            assert(w@.exp_ty == self@.exp_ty);
        }
        w
    }

    /// The record of a node at `info`, with no whitespace, nothing removed
    /// and nothing added.
    pub fn new(info: info::ParseInfo, index: usize, danger: Danger) -> (r: Wrap)
        ensures
            r@ == (RWrapV {
                info: info@,
                index,
                danger,
                wspaces: (Seq::empty(), Seq::empty()),
                isremoved: false,
                plussed: (Seq::empty(), Seq::empty()),
                exp_ty: None,
            }),
    {
        let a: Vec<Rnode> = Vec::new();
        let b: Vec<Rnode> = Vec::new();
        let r = Wrap {
            info,
            index,
            danger,
            wspaces: (String::new(), String::new()),
            isremoved: false,
            plussed: (a, b),
            exp_ty: None,
        };
        proof {
            assert(r@.plussed.0 =~= Seq::<RnodeV>::empty());
            assert(r@.plussed.1 =~= Seq::<RnodeV>::empty());
        }
        r
    }

    pub fn set_type(&mut self, ty: Option<String>)
        ensures
            final(self)@ == (RWrapV {
                exp_ty: match ty {
                    Some(s) => Some(s@),
                    None => None,
                },
                ..old(self)@
            }),
    {
        self.exp_ty = ty;
    }

    pub fn get_type(&self) -> (r: Option<&String>)
        ensures
            match (r, self.exp_ty) {
                (Some(a), Some(b)) => a@ == b@,
                (None, None) => true,
                _ => false,
            },
    {
        match &self.exp_ty {
            Some(s) => Some(s),
            None => None,
        }
    }

    /// The record of a node made up from the semantic patch with `nc`
    /// children: a leaf is preceded by a space.
    pub fn dummy(nc: usize) -> (r: Wrap)
        ensures
            r@ == dummy_wrap(nc as nat),
    {
        let wp = if nc == 0 {
            let mut s = String::new();
            crate::commons::text::string_push(&mut s, ' ');
            (s, String::new())
        } else {
            (String::new(), String::new())
        };
        let mut w = Wrap::new(
            info::ParseInfo::new(String::new(), 0, 0, 0, 0, 0, String::new()),
            0,
            Danger::NoDanger,
        );
        w.wspaces = wp;
        w
    }
}

impl Rnode {
    /// A copy of this tree.
    pub fn copy(&self) -> (r: Rnode)
        ensures
            r@ == self@,
        decreases self,
    {
        let n = Rnode {
            wrapper: self.wrapper.copy(),
            astnode: copy_opt(&self.astnode),
            kind: self.kind,
            children: copy_rnodes(&self.children),
        };
        proof {
            assert(n@.astnode == self@.astnode);
        }
        n
    }

    pub fn new(wrapper: Wrap, astnode: Option<String>, kind: Tag, children: Vec<Rnode>) -> (r: Rnode)
        ensures
            r@ == (RnodeV {
                wrapper: wrapper@,
                astnode: match astnode {
                    Some(s) => Some(s@),
                    None => None,
                },
                kind,
                children: rnodes_v(children),
            }),
    {
        Rnode { wrapper, astnode, kind, children }
    }

    /// The text of a leaf.
    pub fn totoken(&self) -> (r: String)
        requires
            self.astnode is Some,
        ensures
            r@ == token_of(self@),
    {
        match &self.astnode {
            Some(t) => t.clone(),
            None => String::new(),
        }
    }

    fn token_chars(&self) -> (r: Vec<char>)
        ensures
            r@ == token_of(self@),
    {
        match &self.astnode {
            Some(t) => chars_of(t.as_str()),
            None => Vec::new(),
        }
    }

    pub fn kind(&self) -> (r: Tag)
        ensures
            r == self.kind,
    {
        self.kind
    }

    /// The node's kind and its children.
    pub fn unwrap(&self) -> (r: (Tag, &[Rnode]))
        ensures
            r.0 == self.kind,
            r.1@ == self.children@,
    {
        (self.kind, self.children.as_slice())
    }

    /// The code of this node as printed.
    pub fn getstring(&self) -> (r: String)
        ensures
            r@ == rnode_string(self@),
    {
        string_of(&self.string_chars())
    }

    fn seq_chars(v: &Vec<Rnode>, sep: bool, unformatted: bool) -> (r: Vec<char>)
        ensures
            unformatted ==> r@ == rnode_unformatteds(rnodes_v(*v), v@.len() as int, sep),
            !unformatted ==> r@ == rnode_strings(rnodes_v(*v), v@.len() as int, sep),
        decreases v,
    {
        let ghost sv = rnodes_v(*v);
        let mut r: Vec<char> = Vec::new();
        for i in 0..v.len()
            invariant
                sv == rnodes_v(*v),
                sv.len() == v@.len(),
                unformatted ==> r@ == rnode_unformatteds(sv, i as int, sep),
                !unformatted ==> r@ == rnode_strings(sv, i as int, sep),
        {
            proof {
                assert(decreases_to!(v => v@[i as int]));
                assert(sv[i as int] == v@[i as int]@);
            }
            let c = if unformatted {
                v[i].unformatted_chars()
            } else {
                v[i].string_chars()
            };
            push_all(&mut r, &c);
            if sep {
                r.push(' ');
            }
        }
        r
    }

    fn string_chars(&self) -> (r: Vec<char>)
        ensures
            r@ == rnode_string(self@),
        decreases self,
    {
        let ghost n = self@;
        let mut data: Vec<char> = Self::seq_chars(&self.wrapper.plussed.0, true, false);
        let ws0 = chars_of(self.wrapper.wspaces.0.as_str());
        if chars_contains(&ws0, &chars_of("/*COCCIVAR*/")) {
            data.push(' ');
        } else if !self.wrapper.isremoved {
            push_all(&mut data, &ws0);
        }
        if self.children.len() == 0 && !self.wrapper.isremoved {
            push_all(&mut data, &self.token_chars());
        } else {
            push_all(&mut data, &Self::seq_chars(&self.children, false, false));
        }
        if !self.wrapper.isremoved {
            push_all(&mut data, &chars_of(self.wrapper.wspaces.1.as_str()));
        }
        push_all(&mut data, &Self::seq_chars(&self.wrapper.plussed.1, false, false));
        proof {
            reveal_strlit("/*COCCIVAR*/");
            assert(data@ =~= rnode_string(n));
        }
        data
    }

    /// The code of this node for reparsing: added code is introduced by the
    /// marker comment.
    pub fn getunformatted(&self) -> (r: String)
        ensures
            r@ == rnode_unformatted(self@),
    {
        string_of(&self.unformatted_chars())
    }

    fn unformatted_chars(&self) -> (r: Vec<char>)
        ensures
            r@ == rnode_unformatted(self@),
        decreases self,
    {
        let ghost n = self@;
        proof {
            assert(n.wrapper.plussed.0 == rnodes_v(self.wrapper.plussed.0));
            assert(n.wrapper.plussed.1 == rnodes_v(self.wrapper.plussed.1));
            assert(n.wrapper.plussed.0.len() == self.wrapper.plussed.0@.len());
            assert(n.wrapper.plussed.1.len() == self.wrapper.plussed.1@.len());
        }
        let mut p1: Vec<char> = Vec::new();
        if self.wrapper.plussed.0.len() != 0 {
            p1 = chars_of("/*COCCIVAR*/");
            push_all(&mut p1, &Self::seq_chars(&self.wrapper.plussed.0, true, true));
        }
        proof {
            assert(p1@ =~= (if n.wrapper.plussed.0.len() != 0 {
                coccivar_mark() + rnode_unformatteds(n.wrapper.plussed.0, n.wrapper.plussed.0.len() as int, true)
            } else {
                Seq::empty()
            }));
        }
        let mut p2: Vec<char> = Vec::new();
        if !self.wrapper.isremoved {
            p2 = chars_of(self.wrapper.wspaces.0.as_str());
        }
        let p3 = if self.children.len() == 0 && !self.wrapper.isremoved {
            self.token_chars()
        } else {
            Self::seq_chars(&self.children, false, true)
        };
        let mut p4: Vec<char> = Vec::new();
        if !self.wrapper.isremoved {
            p4 = chars_of(self.wrapper.wspaces.1.as_str());
        }
        let mut p5: Vec<char> = Vec::new();
        if self.wrapper.plussed.1.len() != 0 {
            p5 = chars_of("/*COCCIVAR*/");
            push_all(&mut p5, &Self::seq_chars(&self.wrapper.plussed.1, false, true));
        }
        proof {
            assert(p5@ =~= (if n.wrapper.plussed.1.len() != 0 {
                coccivar_mark() + rnode_unformatteds(n.wrapper.plussed.1, n.wrapper.plussed.1.len() as int, false)
            } else {
                Seq::empty()
            }));
        }
        let mut data = p1;
        push_all(&mut data, &p2);
        push_all(&mut data, &p3);
        push_all(&mut data, &p4);
        push_all(&mut data, &p5);
        proof {
            assert(data@ =~= rnode_unformatted(n));
        }
        data
    }

    pub fn isid(&self) -> (r: bool)
        ensures
            r == is_rs_id_tag(self.kind),
    {
        match self.kind {
            Tag::Path | Tag::PathSegment | Tag::Name | Tag::NameRef => true,
            _ => self.ispat(),
        }
    }

    pub fn islifetime(&self) -> (r: bool)
        ensures
            r == (self.kind == Tag::LifetimeArg),
    {
        self.kind == Tag::LifetimeArg
    }

    pub fn isitem(&self) -> (r: bool)
        ensures
            r == is_item_tag(self.kind),
    {
        match self.kind {
            Tag::Const | Tag::Enum | Tag::ExternBlock | Tag::ExternCrate | Tag::Fn | Tag::Impl
            | Tag::MacroCall | Tag::MacroRules | Tag::MacroDef | Tag::Module | Tag::Static
            | Tag::Struct | Tag::Trait | Tag::TraitAlias | Tag::TypeAlias | Tag::Union
            | Tag::Use => true,
            _ => false,
        }
    }

    pub fn isparam(&self) -> (r: bool)
        ensures
            r == (self.kind == Tag::Param || self.kind == Tag::SelfParam),
    {
        self.kind == Tag::Param || self.kind == Tag::SelfParam
    }

    pub fn ispat(&self) -> (r: bool)
        ensures
            r == is_pat_tag(self.kind),
    {
        tag_is_pat(self.kind)
    }

    pub fn istype(&self) -> (r: bool)
        ensures
            r == is_type_tag(self.kind),
    {
        tag_is_type(self.kind)
    }

    pub fn isexpr(&self) -> (r: bool)
        ensures
            r == is_expr_tag(self.kind),
    {
        tag_is_expr(self.kind)
    }

    /// Whether `node` has the same shape as this tree and the same tokens.
    pub fn equals(&self, node: &Rnode) -> (r: bool)
        ensures
            r == rnode_equals(self@, node@),
        decreases self,
    {
        if self.children.len() != node.children.len() {
            return false;
        } else if self.children.len() == 0 {
            let a = self.token_chars();
            let b = node.token_chars();
            return crate::commons::text::chars_eq(&a, &b);
        }
        let ghost av = self@.children;
        let ghost bv = node@.children;
        let mut i: usize = 0;
        while i < self.children.len()
            invariant
                i <= self.children@.len(),
                self.children@.len() == node.children@.len(),
                av == rnodes_v(self.children),
                bv == rnodes_v(node.children),
                children_equal(av, bv, i as int),
            decreases self.children@.len() - i,
        {
            proof {
                assert(decreases_to!(self => self.children@[i as int]));
                assert(av[i as int] == self.children@[i as int]@);
                assert(bv[i as int] == node.children@[i as int]@);
            }
            if !self.children[i].equals(&node.children[i]) {
                proof {
                    if children_equal(av, bv, av.len() as int) {
                        lemma_children_equal_prefix(av, bv, av.len() as int, i + 1);
                    }
                }
                return false;
            }
            i = i + 1;
        }
        true
    }

    /// The node's start and end offsets.
    pub fn getpos(&self) -> (r: (usize, usize))
        ensures
            r == (self.wrapper.info.charstart, self.wrapper.info.charend),
    {
        (self.wrapper.info.charstart, self.wrapper.info.charend)
    }

    /// The trailing whitespace of the last leaf of this tree.
    pub fn get_spaces_right(&self) -> (r: String)
        ensures
            r@ == spaces_right(self@),
        decreases self,
    {
        let len = self.children.len();
        if len == 0 {
            self.wrapper.wspaces.1.clone()
        } else {
            proof {
                assert(decreases_to!(self => self.children@[len - 1]));
                assert(self@.children[len - 1] == self.children@[len - 1]@);
            }
            self.children[len - 1].get_spaces_right()
        }
    }
}

} // verus!
