//! Matching the code of a rule against Rust code: which nodes match, which
//! metavariables bind to what, and which code is removed or added.
use vstd::prelude::*;
use crate::commons::pattern::{regex_is_match, spec_regex_match};
use crate::commons::syntax_kind::Tag;
use crate::commons::text::{chars_eq, chars_of, str_eq};
use crate::parsing_cocci::ast0::{
    copy_snodes, mcodekind_v, is_expr_tag, is_type_tag, minfo_of, snodes_v, McodekindV, MetaVar, MetaVarV, MetavarName,
    MetavarNameV, Mcodekind, Snode, SnodeV,
};
use crate::parsing_cocci::parse_cocci::{var_name, mv_name};
use crate::parsing_rs::ast_rs::{is_rs_id_tag, rnode_equals, token_of, Rnode, RnodeV};

verus! {

/// A metavariable bound to a piece of Rust code.
pub struct MetavarBinding {
    pub metavarinfo: MetavarName,
    pub rnode: Rnode,
}

/// The code a match removes (start and end offsets) and the code it adds
/// (offset, whether before the node there, and the added nodes).
pub struct Modifiers {
    pub minuses: Vec<(usize, usize)>,
    pub pluses: Vec<(usize, bool, Vec<Snode>)>,
}

/// The outcome of matching: whether it failed, the bindings made, and the
/// modifications found.
pub struct Environment {
    pub failed: bool,
    pub bindings: Vec<MetavarBinding>,
    pub modifiers: Modifiers,
}

pub ghost struct BindingV {
    pub name: MetavarNameV,
    pub rnode: RnodeV,
}

pub ghost struct EnvV {
    pub failed: bool,
    pub bindings: Seq<BindingV>,
    pub minuses: Seq<(usize, usize)>,
    pub pluses: Seq<(usize, bool, Seq<SnodeV>)>,
}

impl View for MetavarBinding {
    type V = BindingV;

    open spec fn view(&self) -> BindingV {
        BindingV { name: self.metavarinfo@, rnode: self.rnode@ }
    }
}

pub open spec fn bindings_v(v: Seq<MetavarBinding>) -> Seq<BindingV> {
    Seq::new(v.len(), |i: int| v[i]@)
}

pub open spec fn pluses_v(v: Seq<(usize, bool, Vec<Snode>)>) -> Seq<(usize, bool, Seq<SnodeV>)> {
    Seq::new(v.len(), |i: int| (v[i].0, v[i].1, snodes_v(v[i].2)))
}

impl View for Environment {
    type V = EnvV;

    open spec fn view(&self) -> EnvV {
        EnvV {
            failed: self.failed,
            bindings: bindings_v(self.bindings@),
            minuses: self.modifiers.minuses@,
            pluses: pluses_v(self.modifiers.pluses@),
        }
    }
}

/// A failed match.
pub open spec fn failed_env() -> EnvV {
    EnvV { failed: true, bindings: Seq::empty(), minuses: Seq::empty(), pluses: Seq::empty() }
}

/// The first binding of `bs` from index `i` on for the metavariable named
/// `name`.
pub open spec fn binding_for(bs: Seq<BindingV>, name: Seq<char>, i: int) -> Option<int>
    decreases bs.len() - i,
{
    if i < 0 || i >= bs.len() {
        None
    } else if bs[i].name.varname == name {
        Some(i)
    } else {
        binding_for(bs, name, i + 1)
    }
}

pub proof fn lemma_binding_for_bounds(bs: Seq<BindingV>, name: Seq<char>, i: int)
    ensures
        binding_for(bs, name, i) matches Some(k) ==> i <= k < bs.len() && bs[k].name.varname == name,
    decreases bs.len() - i,
{
    if 0 <= i < bs.len() && bs[i].name.varname != name {
        lemma_binding_for_bounds(bs, name, i + 1);
    }
}

/// `bs` with the bindings of `more` for metavariables it has no binding for.
pub open spec fn add_bindings(bs: Seq<BindingV>, more: Seq<BindingV>) -> Seq<BindingV>
    decreases more.len(),
{
    if more.len() == 0 {
        bs
    } else {
        let prev = add_bindings(bs, more.drop_last());
        if binding_for(prev, more.last().name.varname, 0) is Some {
            prev
        } else {
            prev.push(more.last())
        }
    }
}

/// `e` with what the match `r` found added.
pub open spec fn env_add(e: EnvV, r: EnvV) -> EnvV {
    EnvV {
        failed: e.failed,
        bindings: add_bindings(e.bindings, r.bindings),
        minuses: e.minuses + r.minuses,
        pluses: e.pluses + r.pluses,
    }
}

/// A fresh match that keeps the bindings of `e`.
pub open spec fn with_bindings_of(e: EnvV) -> EnvV {
    EnvV { failed: false, bindings: e.bindings, minuses: Seq::empty(), pluses: Seq::empty() }
}

/// `e` with the code attached to the semantic patch node `a` recorded at
/// the place of the matched node `b`: code before `a` at the start of `b`,
/// code after it at the end.
pub open spec fn env_addplus(e: EnvV, a: SnodeV, b: RnodeV) -> EnvV {
    match a.wrapper.mcodekind {
        McodekindV::Context(av, bv) => {
            let p1 = if av.len() != 0 {
                seq![(b.wrapper.info.charstart, true, av)]
            } else {
                Seq::empty()
            };
            let p2 = if bv.len() != 0 {
                seq![(b.wrapper.info.charend, false, bv)]
            } else {
                Seq::empty()
            };
            EnvV { pluses: e.pluses + p1 + p2, ..e }
        },
        McodekindV::Minus(pv) => if pv.len() != 0 {
            EnvV { pluses: e.pluses.push((b.wrapper.info.charstart, true, pv)), ..e }
        } else {
            e
        },
        _ => e,
    }
}

/// `e` with the code of `b` recorded as removed when `a` is removed.
pub open spec fn env_minus(e: EnvV, a: SnodeV, b: RnodeV) -> EnvV {
    match a.wrapper.mcodekind {
        McodekindV::Minus(_) | McodekindV::Star => EnvV {
            minuses: e.minuses.push((b.wrapper.info.charstart, b.wrapper.info.charend)),
            ..e
        },
        _ => e,
    }
}

/// What comparing two nodes without looking into them gives.
#[derive(PartialEq, Eq, Structural, Clone, Copy, Debug)]
pub enum MetavarMatch {
    /// They cannot match.
    Fail,
    /// They may match: their children decide.
    Maybe,
    /// The metavariable of the first binds to the second.
    Match,
    /// They match, with nothing to bind.
    Exists,
}

/// Whether the pattern `tyname` of a metavariable of a named type matches
/// the type `ty` (a pattern that is not a valid expression matches nothing).
pub open spec fn spec_types_equal(tyname: Seq<char>, ty: Seq<char>) -> bool {
    spec_regex_match(tyname, ty) == Some(true)
}

/// Compares node `a` of a rule with node `b` of Rust code of the same kind
/// (or with a metavariable `a`), given the bindings made so far.
pub open spec fn spec_workon(a: SnodeV, b: RnodeV, bs: Seq<BindingV>) -> MetavarMatch {
    match a.wrapper.metavar {
        MetaVarV::NoMeta => if b.children.len() == 0 {
            if (match a.asttoken {
                Some(t) => t,
                None => Seq::empty(),
            }) != token_of(b) {
                MetavarMatch::Fail
            } else {
                MetavarMatch::Exists
            }
        } else {
            MetavarMatch::Maybe
        },
        m => match binding_for(bs, var_name(m), 0) {
            Some(k) => if rnode_equals(bs[k].rnode, b) {
                MetavarMatch::Exists
            } else {
                MetavarMatch::Fail
            },
            None => if minfo_of(m).2 {
                MetavarMatch::Fail
            } else {
                match m {
                    MetaVarV::Exp(_) => if is_expr_tag(b.kind) {
                        MetavarMatch::Match
                    } else {
                        MetavarMatch::Maybe
                    },
                    MetaVarV::Id(_) => if is_rs_id_tag(b.kind) {
                        MetavarMatch::Match
                    } else {
                        MetavarMatch::Maybe
                    },
                    MetaVarV::Type(_) => if is_type_tag(b.kind) {
                        MetavarMatch::Match
                    } else {
                        MetavarMatch::Maybe
                    },
                    MetaVarV::Struct(t, _) | MetaVarV::Enum(t, _) => match b.wrapper.exp_ty {
                        Some(ty) => if spec_types_equal(t, ty) {
                            MetavarMatch::Match
                        } else {
                            MetavarMatch::Maybe
                        },
                        None => MetavarMatch::Maybe,
                    },
                    MetaVarV::NoMeta => MetavarMatch::Maybe,
                }
            },
        },
    }
}

/// The name reference at the end of the path of a path type.
pub open spec fn nameref_of_pathtype(n: SnodeV) -> Option<SnodeV> {
    if n.children.len() > 0 && n.children[0].children.len() > 0 {
        let path = n.children[0];
        let seg = path.children[path.children.len() - 1];
        if seg.children.len() > 0 {
            Some(seg.children[0])
        } else {
            None
        }
    } else {
        None
    }
}

/// The name reference at the end of the path of a path type of Rust code.
pub open spec fn nameref_of_pathtype_r(n: RnodeV) -> Option<RnodeV> {
    if n.children.len() > 0 && n.children[0].children.len() > 0 {
        let path = n.children[0];
        let seg = path.children[path.children.len() - 1];
        if seg.children.len() > 0 {
            Some(seg.children[0])
        } else {
            None
        }
    } else {
        None
    }
}

/// For a path type of a rule against a path segment of Rust code, the nodes
/// to compare instead: the name references, so that `Foo<A, B>` matches
/// `Foo`.  `None` for shapes that cannot be compared.
pub open spec fn spec_exceptional(a: SnodeV, b: RnodeV) -> Option<(SnodeV, RnodeV)> {
    match nameref_of_pathtype(a) {
        None => None,
        Some(n1) => {
            let cs = b.children;
            if cs.len() == 2 && cs[0].kind == Tag::Colon2 && cs[1].kind == Tag::NameRef {
                Some((n1, cs[1]))
            } else if 1 <= cs.len() <= 3 && cs[0].kind == Tag::NameRef {
                Some((n1, cs[0]))
            } else if cs.len() == 3 && cs[0].kind == Tag::LAngle && cs[1].kind == Tag::PathType && cs[2].kind
                == Tag::RAngle {
                match nameref_of_pathtype_r(cs[1]) {
                    Some(n2) => Some((n1, n2)),
                    None => None,
                }
            } else if cs.len() == 5 && cs[0].kind == Tag::LAngle && cs[2].kind == Tag::AsKw && cs[4].kind
                == Tag::RAngle {
                Some((n1, b))
            } else {
                None
            }
        },
    }
}

/// Matching the nodes `as_` of a rule from index `i` on against the nodes
/// `bs` of Rust code, one for one, in environment `env`: every node of the
/// rule must match the node of code at the same place (code nodes left over
/// are ignored).  `fuel` bounds the depth.
pub open spec fn match_seq(as_: Seq<SnodeV>, bs: Seq<RnodeV>, i: int, env: EnvV, fuel: nat) -> EnvV
    decreases fuel, as_.len() - i + 1,
{
    if i < 0 || i >= as_.len() {
        env
    } else if i >= bs.len() {
        failed_env()
    } else {
        match match_one(as_[i], bs[i], env, fuel) {
            None => failed_env(),
            Some(e) => match_seq(as_, bs, i + 1, e, fuel),
        }
    }
}

/// Matching node `a0` of a rule against node `b0` of Rust code in
/// environment `env`: the environment after, or `None` when they do not
/// match.
pub open spec fn match_one(a0: SnodeV, b0: RnodeV, env: EnvV, fuel: nat) -> Option<EnvV>
    decreases fuel, 0int,
{
    let pair = if a0.kind == Tag::PathType && b0.kind == Tag::PathSegment {
        spec_exceptional(a0, b0)
    } else if a0.kind != b0.kind && a0.wrapper.metavar is NoMeta {
        None
    } else {
        Some((a0, b0))
    };
    match pair {
        None => None,
        Some((a, b)) => match spec_workon(a, b, env.bindings) {
            MetavarMatch::Fail => None,
            MetavarMatch::Maybe => if fuel == 0 {
                None
            } else {
                let renv = match_seq(a.children, b.children, 0, with_bindings_of(env), (fuel - 1) as nat);
                if !renv.failed {
                    Some(env_add(env_addplus(env, a, b), renv))
                } else {
                    None
                }
            },
            MetavarMatch::Match => {
                let e1 = env_addplus(env_minus(env, a, b), a, b);
                Some(
                    EnvV {
                        bindings: e1.bindings.push(BindingV { name: minfo_of(a.wrapper.metavar).0, rnode: b }),
                        ..e1
                    },
                )
            },
            MetavarMatch::Exists => Some(env_minus(env_addplus(env, a, b), a, b)),
        },
    }
}

// ---------------------------------------------------------------------
// Environments

impl MetavarBinding {
    fn new(rname: String, varname: String, rnode: Rnode) -> (r: MetavarBinding)
        ensures
            r@ == (BindingV { name: MetavarNameV { rulename: rname@, varname: varname@ }, rnode: rnode@ }),
    {
        MetavarBinding { metavarinfo: MetavarName { rulename: rname, varname }, rnode }
    }

    /// A copy of this binding.
    pub fn copy(&self) -> (r: MetavarBinding)
        ensures
            r@ == self@,
    {
        MetavarBinding { metavarinfo: self.metavarinfo.copy(), rnode: self.rnode.copy() }
    }
}

/// Copies of a list of bindings.
pub fn copy_bindings(v: &Vec<MetavarBinding>) -> (r: Vec<MetavarBinding>)
    ensures
        bindings_v(r@) == bindings_v(v@),
{
    let mut r: Vec<MetavarBinding> = Vec::new();
    let mut i: usize = 0;
    while i < v.len()
        invariant
            i <= v@.len(),
            bindings_v(r@) == bindings_v(v@).take(i as int),
        decreases v@.len() - i,
    {
        let ghost before = bindings_v(r@);
        let c = v[i].copy();
        r.push(c);
        proof {
            assert(bindings_v(r@) =~= before.push(c@));
            assert(bindings_v(v@).take(i + 1) =~= bindings_v(v@).take(i as int).push(v@[i as int]@));
        }
        i = i + 1;
    }
    proof {
        assert(bindings_v(v@).take(v@.len() as int) =~= bindings_v(v@));
    }
    r
}

/// The index of the first binding of `bs` for the metavariable named `name`.
pub fn find_binding(bs: &Vec<MetavarBinding>, name: &Vec<char>) -> (r: Option<usize>)
    ensures
        match binding_for(bindings_v(bs@), name@, 0) {
            Some(k) => r matches Some(x) && x as int == k,
            None => r is None,
        },
{
    let ghost bv = bindings_v(bs@);
    let mut i: usize = 0;
    while i < bs.len()
        invariant
            bv == bindings_v(bs@),
            i <= bs@.len(),
            binding_for(bv, name@, 0) == binding_for(bv, name@, i as int),
        decreases bs@.len() - i,
    {
        if chars_eq(&chars_of(bs[i].metavarinfo.varname.as_str()), name) {
            return Some(i);
        }
        i = i + 1;
    }
    None
}

fn copy_positions(v: &Vec<(usize, usize)>) -> (r: Vec<(usize, usize)>)
    ensures
        r@ == v@,
{
    let mut r: Vec<(usize, usize)> = Vec::new();
    let mut i: usize = 0;
    while i < v.len()
        invariant
            i <= v@.len(),
            r@ == v@.take(i as int),
        decreases v@.len() - i,
    {
        r.push((v[i].0, v[i].1));
        proof {
            assert(v@.take(i + 1) =~= v@.take(i as int).push(v@[i as int]));
        }
        i = i + 1;
    }
    proof {
        assert(v@.take(v@.len() as int) =~= v@);
    }
    r
}

fn copy_pluses(v: &Vec<(usize, bool, Vec<Snode>)>) -> (r: Vec<(usize, bool, Vec<Snode>)>)
    ensures
        pluses_v(r@) == pluses_v(v@),
{
    let mut r: Vec<(usize, bool, Vec<Snode>)> = Vec::new();
    let mut i: usize = 0;
    while i < v.len()
        invariant
            i <= v@.len(),
            pluses_v(r@) == pluses_v(v@).take(i as int),
        decreases v@.len() - i,
    {
        let ghost before = pluses_v(r@);
        let c = (v[i].0, v[i].1, copy_snodes(&v[i].2));
        r.push(c);
        proof {
            assert(pluses_v(r@) =~= before.push((c.0, c.1, snodes_v(c.2))));
            assert(pluses_v(v@).take(i + 1) =~= pluses_v(v@).take(i as int).push(pluses_v(v@)[i as int]));
        }
        i = i + 1;
    }
    proof {
        assert(pluses_v(v@).take(v@.len() as int) =~= pluses_v(v@));
    }
    r
}

impl Environment {
    /// Adds what the match `env` found: its bindings for metavariables not
    /// bound yet, and its modifications.
    pub fn add(&mut self, env: Self)
        ensures
            final(self)@ == env_add(old(self)@, env@),
    {
        let ghost e0 = self@;
        let ghost rb = bindings_v(env.bindings@);
        let Environment { failed: _, bindings, modifiers } = env;
        let mut i: usize = 0;
        proof {
            assert(rb.take(0) =~= Seq::<BindingV>::empty());
        }
        while i < bindings.len()
            invariant
                i <= bindings@.len(),
                rb == bindings_v(bindings@),
                self.failed == e0.failed,
                self.modifiers.minuses@ == e0.minuses,
                pluses_v(self.modifiers.pluses@) == e0.pluses,
                bindings_v(self.bindings@) == add_bindings(e0.bindings, rb.take(i as int)),
            decreases bindings@.len() - i,
        {
            let name = chars_of(bindings[i].metavarinfo.varname.as_str());
            proof {
                assert(rb.take(i + 1).drop_last() =~= rb.take(i as int));
                assert(rb.take(i + 1).last() == bindings@[i as int]@);
            }
            if find_binding(&self.bindings, &name).is_none() {
                let ghost before = bindings_v(self.bindings@);
                let b = bindings[i].copy();
                self.bindings.push(b);
                proof {
                    assert(bindings_v(self.bindings@) =~= before.push(b@));
                }
            }
            i = i + 1;
        }
        proof {
            assert(rb.take(rb.len() as int) =~= rb);
        }
        let Modifiers { minuses, pluses } = modifiers;
        let mut minuses = minuses;
        let mut pluses = pluses;
        let ghost pv = pluses_v(pluses@);
        let ghost p0 = pluses_v(self.modifiers.pluses@);
        let ghost pl0 = pluses@;
        let ghost sp0 = self.modifiers.pluses@;
        self.modifiers.minuses.append(&mut minuses);
        self.modifiers.pluses.append(&mut pluses);
        proof {
            assert(self.modifiers.pluses@ == sp0 + pl0);
            assert(pluses_v(self.modifiers.pluses@) =~= p0 + pv);
        }
    }

    pub fn addbinding(&mut self, binding: MetavarBinding)
        ensures
            final(self)@ == (EnvV { bindings: old(self)@.bindings.push(binding@), ..old(self)@ }),
    {
        let ghost before = bindings_v(self.bindings@);
        self.bindings.push(binding);
        proof {
            assert(bindings_v(self.bindings@) =~= before.push(binding@));
        }
    }

    pub fn addbindings(&mut self, bindings: &Vec<MetavarBinding>)
        ensures
            final(self)@ == (EnvV { bindings: old(self)@.bindings + bindings_v(bindings@), ..old(self)@ }),
    {
        let ghost b0 = bindings_v(self.bindings@);
        let mut i: usize = 0;
        while i < bindings.len()
            invariant
                i <= bindings@.len(),
                self.failed == old(self).failed,
                self.modifiers.minuses@ == old(self).modifiers.minuses@,
                self.modifiers.pluses@ == old(self).modifiers.pluses@,
                b0 == bindings_v(old(self).bindings@),
                bindings_v(self.bindings@) == b0 + bindings_v(bindings@).take(i as int),
            decreases bindings@.len() - i,
        {
            let ghost before = bindings_v(self.bindings@);
            let b = bindings[i].copy();
            self.bindings.push(b);
            proof {
                assert(bindings_v(self.bindings@) =~= before.push(b@));
                assert(bindings_v(bindings@).take(i + 1) =~= bindings_v(bindings@).take(i as int).push(
                    bindings@[i as int]@,
                ));
            }
            i = i + 1;
        }
        proof {
            assert(bindings_v(bindings@).take(bindings@.len() as int) =~= bindings_v(bindings@));
        }
    }

    /// A match with nothing found yet.
    pub fn new() -> (r: Environment)
        ensures
            r@ == (EnvV { failed: false, bindings: Seq::empty(), minuses: Seq::empty(), pluses: Seq::empty() }),
    {
        let r = Environment {
            failed: false,
            bindings: Vec::new(),
            modifiers: Modifiers { minuses: Vec::new(), pluses: Vec::new() },
        };
        proof {
            assert(r@.bindings =~= Seq::<BindingV>::empty());
            assert(r@.pluses =~= Seq::<(usize, bool, Seq<SnodeV>)>::empty());
        }
        r
    }

    /// A failed match.
    pub fn failed() -> (r: Environment)
        ensures
            r@ == failed_env(),
    {
        let r = Environment {
            failed: true,
            bindings: Vec::new(),
            modifiers: Modifiers { minuses: Vec::new(), pluses: Vec::new() },
        };
        proof {
            assert(r@.bindings =~= Seq::<BindingV>::empty());
            assert(r@.pluses =~= Seq::<(usize, bool, Seq<SnodeV>)>::empty());
        }
        r
    }

    /// A fresh match that keeps the bindings of this one.
    pub fn clonebindings(&self) -> (r: Environment)
        ensures
            r@ == with_bindings_of(self@),
    {
        let r = Environment {
            failed: false,
            bindings: copy_bindings(&self.bindings),
            modifiers: Modifiers { minuses: Vec::new(), pluses: Vec::new() },
        };
        proof {
            assert(r@.pluses =~= Seq::<(usize, bool, Seq<SnodeV>)>::empty());
        }
        r
    }

    /// A copy of this environment.
    pub fn copy(&self) -> (r: Environment)
        ensures
            r@ == self@,
    {
        Environment {
            failed: self.failed,
            bindings: copy_bindings(&self.bindings),
            modifiers: Modifiers {
                minuses: copy_positions(&self.modifiers.minuses),
                pluses: copy_pluses(&self.modifiers.pluses),
            },
        }
    }
}

/// Records the code attached to the semantic patch node `a` at the place of
/// the matched node `b`.
fn addplustoenv(a: &Snode, b: &Rnode, env: &mut Environment)
    ensures
        final(env)@ == env_addplus(old(env)@, a@, b@),
{
    let ghost e0 = env@;
    proof {
        assert(a@.wrapper.mcodekind == mcodekind_v(a.wrapper.mcodekind));
        assert(b@.wrapper.info.charstart == b.wrapper.info.charstart);
        assert(b@.wrapper.info.charend == b.wrapper.info.charend);
    }
    match &a.wrapper.mcodekind {
        Mcodekind::Context(avec, bvec) => {
            proof {
                assert(a@.wrapper.mcodekind == McodekindV::Context(snodes_v(*avec), snodes_v(*bvec)));
                assert(snodes_v(*avec).len() == avec@.len());
                assert(snodes_v(*bvec).len() == bvec@.len());
            }
            if avec.len() != 0 {
                let ghost before = pluses_v(env.modifiers.pluses@);
                let c = (b.wrapper.info.charstart, true, copy_snodes(avec));
                env.modifiers.pluses.push(c);
                proof {
                    assert(pluses_v(env.modifiers.pluses@) =~= before.push((c.0, c.1, snodes_v(c.2))));
                }
            }
            if bvec.len() != 0 {
                let ghost before = pluses_v(env.modifiers.pluses@);
                let c = (b.wrapper.info.charend, false, copy_snodes(bvec));
                env.modifiers.pluses.push(c);
                proof {
                    assert(pluses_v(env.modifiers.pluses@) =~= before.push((c.0, c.1, snodes_v(c.2))));
                }
            }
            proof {
                assert(env@.pluses =~= env_addplus(e0, a@, b@).pluses);
            }
        },
        Mcodekind::Minus(pluses) => {
            proof {
                assert(a@.wrapper.mcodekind == McodekindV::Minus(snodes_v(*pluses)));
                assert(snodes_v(*pluses).len() == pluses@.len());
            }
            if pluses.len() != 0 {
                let ghost before = pluses_v(env.modifiers.pluses@);
                let c = (b.wrapper.info.charstart, true, copy_snodes(pluses));
                env.modifiers.pluses.push(c);
                proof {
                    assert(pluses_v(env.modifiers.pluses@) =~= before.push((c.0, c.1, snodes_v(c.2))));
                }
            }
        },
        _ => {},
    }
}

/// Records the code of `b` as removed when `a` is removed.
fn addminustoenv(a: &Snode, b: &Rnode, env: &mut Environment)
    ensures
        final(env)@ == env_minus(old(env)@, a@, b@),
{
    proof {
        assert(a@.wrapper.mcodekind == mcodekind_v(a.wrapper.mcodekind));
    }
    match &a.wrapper.mcodekind {
        Mcodekind::Minus(_) | Mcodekind::Star => {
            env.modifiers.minuses.push(b.getpos());
        },
        _ => {},
    }
}

/// Whether the pattern `ty1` matches the type `ty2`.
pub fn types_equal(ty1: &str, ty2: &str) -> (r: bool)
    ensures
        r == spec_types_equal(ty1@, ty2@),
{
    match regex_is_match(ty1, ty2) {
        Some(b) => b,
        None => false,
    }
}

// ---------------------------------------------------------------------
// Matching

/// The models of a list of references to semantic patch nodes.
pub open spec fn srefs_v(v: Seq<&Snode>) -> Seq<SnodeV> {
    Seq::new(v.len(), |i: int| v[i]@)
}

/// The models of a list of references to nodes of Rust code.
pub open spec fn rrefs_v(v: Seq<&Rnode>) -> Seq<RnodeV> {
    Seq::new(v.len(), |i: int| v[i]@)
}

/// References to the nodes of `v`.
pub fn snode_refs(v: &Vec<Snode>) -> (r: Vec<&Snode>)
    ensures
        srefs_v(r@) == snodes_v(*v),
{
    let mut r: Vec<&Snode> = Vec::new();
    let mut i: usize = 0;
    while i < v.len()
        invariant
            i <= v@.len(),
            r@.len() == i,
            forall|j: int| 0 <= j < i ==> #[trigger] r@[j]@ == v@[j]@,
        decreases v@.len() - i,
    {
        r.push(&v[i]);
        i = i + 1;
    }
    proof {
        assert(srefs_v(r@) =~= snodes_v(*v));
    }
    r
}

/// References to the nodes of `v`.
pub fn rnode_refs(v: &Vec<Rnode>) -> (r: Vec<&Rnode>)
    ensures
        rrefs_v(r@) == crate::parsing_rs::ast_rs::rnodes_v(*v),
{
    let mut r: Vec<&Rnode> = Vec::new();
    let mut i: usize = 0;
    while i < v.len()
        invariant
            i <= v@.len(),
            r@.len() == i,
            forall|j: int| 0 <= j < i ==> #[trigger] r@[j]@ == v@[j]@,
        decreases v@.len() - i,
    {
        r.push(&v[i]);
        i = i + 1;
    }
    proof {
        assert(rrefs_v(r@) =~= crate::parsing_rs::ast_rs::rnodes_v(*v));
    }
    r
}

/// The depth bound used for matching: larger than any tree.
pub open spec fn match_fuel() -> nat {
    usize::MAX as nat
}

/// The matcher of the code of a rule against Rust code.
pub struct Looper {}

impl Looper {
    pub fn new() -> (r: Looper) {
        Looper {  }
    }

    /// Matches the nodes `nodevec1` of a rule against the nodes `nodevec2`
    /// of Rust code, one for one, starting from `env`.
    pub fn matchnodes(&self, nodevec1: &Vec<&Snode>, nodevec2: &Vec<&Rnode>, env: Environment) -> (r: Environment)
        ensures
            r@ == match_seq(srefs_v(nodevec1@), rrefs_v(nodevec2@), 0, env@, match_fuel()),
    {
        self.match_fuel(nodevec1, nodevec2, env, usize::MAX)
    }

    fn match_fuel(&self, nodevec1: &Vec<&Snode>, nodevec2: &Vec<&Rnode>, env: Environment, fuel: usize) -> (r: Environment)
        ensures
            r@ == match_seq(srefs_v(nodevec1@), rrefs_v(nodevec2@), 0, env@, fuel as nat),
        decreases fuel, 1int,
    {
        let ghost as_ = srefs_v(nodevec1@);
        let ghost bs = rrefs_v(nodevec2@);
        let ghost target = match_seq(as_, bs, 0, env@, fuel as nat);
        let mut cur = env;
        let mut i: usize = 0;
        while i < nodevec1.len()
            invariant
                as_ == srefs_v(nodevec1@),
                bs == rrefs_v(nodevec2@),
                as_.len() == nodevec1@.len(),
                bs.len() == nodevec2@.len(),
                i <= nodevec1@.len(),
                match_seq(as_, bs, i as int, cur@, fuel as nat) == target,
                target == match_seq(srefs_v(nodevec1@), rrefs_v(nodevec2@), 0, env@, fuel as nat),
            decreases nodevec1@.len() - i,
        {
            if i >= nodevec2.len() {
                proof {
                    assert(match_seq(as_, bs, i as int, cur@, fuel as nat) == failed_env());
                    assert(target == failed_env());
                }
                let f = Environment::failed();
                proof {
                    assert(f@ == target);
                }
                return f;
            }
            proof {
                assert(as_[i as int] == nodevec1@[i as int]@);
                assert(bs[i as int] == nodevec2@[i as int]@);
            }
            let ghost e0 = cur@;
            match self.match_pair(nodevec1[i], nodevec2[i], cur, fuel) {
                Some(e) => {
                    cur = e;
                },
                None => {
                    proof {
                        assert(match_seq(as_, bs, i as int, e0, fuel as nat) == failed_env());
                        assert(target == failed_env());
                    }
                    let f = Environment::failed();
                    proof {
                        assert(f@ == target);
                    }
                    return f;
                },
            }
            i = i + 1;
        }
        cur
    }

    /// Matches node `a0` of a rule against node `b0` of Rust code.
    fn match_pair(&self, a0: &Snode, b0: &Rnode, env: Environment, fuel: usize) -> (r: Option<Environment>)
        ensures
            match match_one(a0@, b0@, env@, fuel as nat) {
                Some(e) => r matches Some(x) && x@ == e,
                None => r is None,
            },
        decreases fuel, 0int,
    {
        let mut env = env;
        proof {
            assert(a0.kind == a0@.kind);
            assert(a0@.wrapper.metavar == a0.wrapper.metavar@);
        }
        let pair: (&Snode, &Rnode) = if a0.kind == Tag::PathType && b0.kind == Tag::PathSegment {
            match self.exceptional_workon(a0, b0) {
                Some(p) => p,
                None => {
                    return None;
                },
            }
        } else if a0.kind != b0.kind && a0.wrapper.metavar.isnotmeta() {
            return None;
        } else {
            (a0, b0)
        };
        let a = pair.0;
        let b = pair.1;
        let w = self.workon(a, b, &env.bindings);
        match w {
            MetavarMatch::Fail => None,
            MetavarMatch::Maybe => {
                if fuel == 0 {
                    return None;
                }
                let ac = snode_refs(&a.children);
                let bc = rnode_refs(&b.children);
                let renv = self.match_fuel(&ac, &bc, env.clonebindings(), fuel - 1);
                if !renv.failed {
                    addplustoenv(a, b, &mut env);
                    env.add(renv);
                    Some(env)
                } else {
                    None
                }
            },
            MetavarMatch::Match => {
                let minfo = a.wrapper.metavar.getminfo();
                let binding = MetavarBinding::new(minfo.0.rulename.clone(), minfo.0.varname.clone(), b.copy());
                addminustoenv(a, b, &mut env);
                addplustoenv(a, b, &mut env);
                env.addbinding(binding);
                Some(env)
            },
            MetavarMatch::Exists => {
                addplustoenv(a, b, &mut env);
                addminustoenv(a, b, &mut env);
                Some(env)
            },
        }
    }

    /// For a path type against a path segment, the nodes to compare
    /// instead: their name references.
    fn exceptional_workon<'a, 'b>(&self, node1: &'b Snode, node2: &'a Rnode) -> (r: Option<(&'b Snode, &'a Rnode)>)
        ensures
            match spec_exceptional(node1@, node2@) {
                Some((x, y)) => r matches Some((u, v)) && u@ == x && v@ == y,
                None => r is None,
            },
    {
        let n1: &Snode = if node1.children.len() > 0 && node1.children[0].children.len() > 0 {
            let path = &node1.children[0];
            let seg = &path.children[path.children.len() - 1];
            proof {
                assert(node1@.children[0] == path@);
                assert(path@.children[path.children.len() - 1] == seg@);
            }
            if seg.children.len() > 0 {
                proof {
                    assert(seg@.children[0] == seg.children@[0]@);
                    assert(nameref_of_pathtype(node1@) == Some(seg.children@[0]@));
                }
                &seg.children[0]
            } else {
                proof {
                    assert(nameref_of_pathtype(node1@) is None);
                }
                return None;
            }
        } else {
            proof {
                if node1.children.len() > 0 {
                    assert(node1@.children[0] == node1.children@[0]@);
                }
            }
            return None;
        };
        let cs = &node2.children;
        proof {
            assert(forall|k: int| 0 <= k < cs@.len() ==> node2@.children[k] == #[trigger] cs@[k]@);
            assert(node2@.children.len() == cs@.len());
            if cs@.len() > 0 {
                assert(node2@.children[0] == cs@[0]@);
            }
            if cs@.len() > 1 {
                assert(node2@.children[1] == cs@[1]@);
            }
            if cs@.len() > 2 {
                assert(node2@.children[2] == cs@[2]@);
            }
            if cs@.len() > 4 {
                assert(node2@.children[4] == cs@[4]@);
            }
            assert(nameref_of_pathtype(node1@) == Some(n1@));
        }
        if cs.len() == 2 && cs[0].kind == Tag::Colon2 && cs[1].kind == Tag::NameRef {
            Some((n1, &cs[1]))
        } else if 1 <= cs.len() && cs.len() <= 3 && cs[0].kind == Tag::NameRef {
            Some((n1, &cs[0]))
        } else if cs.len() == 3 && cs[0].kind == Tag::LAngle && cs[1].kind == Tag::PathType && cs[2].kind
            == Tag::RAngle {
            let pt = &cs[1];
            if pt.children.len() > 0 && pt.children[0].children.len() > 0 {
                let path = &pt.children[0];
                let seg = &path.children[path.children.len() - 1];
                proof {
                    assert(pt@.children[0] == path@);
                    assert(path@.children[path.children.len() - 1] == seg@);
                }
                if seg.children.len() > 0 {
                    proof {
                        assert(seg@.children[0] == seg.children@[0]@);
                        assert(nameref_of_pathtype_r(pt@) == Some(seg.children@[0]@));
                    }
                    Some((n1, &seg.children[0]))
                } else {
                    proof {
                        assert(nameref_of_pathtype_r(pt@) is None);
                    }
                    None
                }
            } else {
                proof {
                    if pt.children.len() > 0 {
                        assert(pt@.children[0] == pt.children@[0]@);
                    }
                    assert(nameref_of_pathtype_r(pt@) is None);
                }
                None
            }
        } else if cs.len() == 5 && cs[0].kind == Tag::LAngle && cs[2].kind == Tag::AsKw && cs[4].kind
            == Tag::RAngle {
            Some((n1, node2))
        } else {
            None
        }
    }

    /// Compares node `node1` of a rule with node `node2` of Rust code
    /// without looking into them.
    pub fn workon(&self, node1: &Snode, node2: &Rnode, bindings: &Vec<MetavarBinding>) -> (r: MetavarMatch)
        ensures
            r == spec_workon(node1@, node2@, bindings_v(bindings@)),
    {
        let ghost bv = bindings_v(bindings@);
        proof {
            assert(node1@.wrapper.metavar == node1.wrapper.metavar@);
        }
        match &node1.wrapper.metavar {
            MetaVar::NoMeta => {
                if node2.children.len() == 0 {
                    let t1 = match &node1.asttoken {
                        Some(t) => chars_of(t.as_str()),
                        None => Vec::new(),
                    };
                    let t2 = match &node2.astnode {
                        Some(t) => chars_of(t.as_str()),
                        None => Vec::new(),
                    };
                    if !chars_eq(&t1, &t2) {
                        MetavarMatch::Fail
                    } else {
                        MetavarMatch::Exists
                    }
                } else {
                    MetavarMatch::Maybe
                }
            },
            metavar => {
                let name = chars_of(metavar.getname());
                match find_binding(bindings, &name) {
                    Some(k) => {
                        proof {
                            lemma_binding_for_bounds(bv, name@, 0);
                            assert(bv[k as int] == bindings@[k as int]@);
                        }
                        if bindings[k].rnode.equals(node2) {
                            MetavarMatch::Exists
                        } else {
                            MetavarMatch::Fail
                        }
                    },
                    None => {
                        if metavar.isinherited() {
                            return MetavarMatch::Fail;
                        }
                        match metavar {
                            MetaVar::Exp(_) => if node2.isexpr() {
                                MetavarMatch::Match
                            } else {
                                MetavarMatch::Maybe
                            },
                            MetaVar::Id(_) => if node2.isid() {
                                MetavarMatch::Match
                            } else {
                                MetavarMatch::Maybe
                            },
                            MetaVar::Type(_) => if node2.istype() {
                                MetavarMatch::Match
                            } else {
                                MetavarMatch::Maybe
                            },
                            MetaVar::Struct(tyname, _) | MetaVar::Enum(tyname, _) => {
                                match node2.wrapper.get_type() {
                                    Some(tyname2) => {
                                        if types_equal(tyname.as_str(), tyname2.as_str()) {
                                            MetavarMatch::Match
                                        } else {
                                            MetavarMatch::Maybe
                                        }
                                    },
                                    None => MetavarMatch::Maybe,
                                }
                            },
                            MetaVar::NoMeta => MetavarMatch::Maybe,
                        }
                    },
                }
            },
        }
    }
}

// ---------------------------------------------------------------------
// Disjunctions and traversal

/// A match that starts from the inherited bindings `ib`.
pub open spec fn inherited_env(ib: Seq<BindingV>) -> EnvV {
    EnvV { failed: false, bindings: ib, minuses: Seq::empty(), pluses: Seq::empty() }
}

/// The branches of a disjunction, as sequences of node models.
pub open spec fn branches_v(ds: Seq<Vec<Snode>>) -> Seq<Seq<SnodeV>> {
    Seq::new(ds.len(), |i: int| snodes_v(ds[i]))
}

/// Whether a branch before `din` matches the code `bs`.
pub open spec fn earlier_matches(ds: Seq<Seq<SnodeV>>, din: int, bs: Seq<RnodeV>, ib: Seq<BindingV>) -> bool {
    exists|p: int| 0 <= p < din && !(#[trigger] match_seq(ds[p], bs, 0, inherited_env(ib), match_fuel())).failed
}

/// The matches of the first `k` branches of a disjunction against the code
/// `bs`: a branch counts only where no branch before it matches (so that
/// `a | b` means `a`, or `b` and not `a`); and whether any matched.
pub open spec fn disj_envs(ds: Seq<Seq<SnodeV>>, bs: Seq<RnodeV>, ib: Seq<BindingV>, k: int) -> (Seq<EnvV>, bool)
    decreases k,
{
    if k <= 0 || k > ds.len() {
        (Seq::empty(), false)
    } else {
        let (es, m) = disj_envs(ds, bs, ib, k - 1);
        let din = k - 1;
        if earlier_matches(ds, din, bs, ib) {
            (es, m)
        } else {
            let e = match_seq(ds[din], bs, 0, inherited_env(ib), match_fuel());
            (
                if !e.failed {
                    es.push(e)
                } else {
                    es
                },
                m || !e.failed,
            )
        }
    }
}

/// The matches of a disjunction against every suffix of every list of
/// children in the tree `b`, in preorder.
pub open spec fn visit_envs(ds: Seq<Seq<SnodeV>>, b: RnodeV, ib: Seq<BindingV>) -> Seq<EnvV>
    decreases b, b.children.len() + 2,
{
    visit_from(ds, b, 0, ib)
}

/// The matches against the children of `b` from index `i` on, and within
/// them.
pub open spec fn visit_from(ds: Seq<Seq<SnodeV>>, b: RnodeV, i: int, ib: Seq<BindingV>) -> Seq<EnvV>
    decreases b, b.children.len() - i + 1,
{
    if i < 0 || i > b.children.len() {
        Seq::empty()
    } else {
        let (es, m) = disj_envs(ds, b.children.skip(i), ib, ds.len() as int);
        let here = if m {
            es
        } else {
            Seq::empty()
        };
        if i < b.children.len() {
            here + visit_envs(ds, b.children[i], ib) + visit_from(ds, b, i + 1, ib)
        } else {
            here
        }
    }
}

/// The models of a list of environments.
pub open spec fn envs_v(v: Seq<Environment>) -> Seq<EnvV> {
    Seq::new(v.len(), |i: int| v[i]@)
}

impl Looper {
    /// Matches the branches `disjs` of a disjunction against the code
    /// `node2`, starting from the inherited bindings: a branch is tried only
    /// where no branch before it matches.  The matches, and whether there is
    /// any.
    pub fn handledisjunctions(
        &self,
        disjs: &Vec<Vec<Snode>>,
        node2: &Vec<&Rnode>,
        inheritedbindings: &Vec<MetavarBinding>,
    ) -> (r: (Vec<Environment>, bool))
        ensures
            (envs_v(r.0@), r.1) == disj_envs(
                branches_v(disjs@),
                rrefs_v(node2@),
                bindings_v(inheritedbindings@),
                disjs@.len() as int,
            ),
    {
        let ghost ds = branches_v(disjs@);
        let ghost bs = rrefs_v(node2@);
        let ghost ib = bindings_v(inheritedbindings@);
        let mut environments: Vec<Environment> = Vec::new();
        let mut matched = false;
        let mut din: usize = 0;
        proof {
            assert(envs_v(environments@) =~= Seq::<EnvV>::empty());
        }
        while din < disjs.len()
            invariant
                ds == branches_v(disjs@),
                bs == rrefs_v(node2@),
                ib == bindings_v(inheritedbindings@),
                din <= disjs@.len(),
                (envs_v(environments@), matched) == disj_envs(ds, bs, ib, din as int),
            decreases disjs@.len() - din,
        {
            let mut inheritedenv = Environment::new();
            inheritedenv.addbindings(inheritedbindings);
            proof {
                assert(inheritedenv@ == inherited_env(ib)) by {
                    assert(Seq::<BindingV>::empty() + ib =~= ib);
                }
            }
            let mut skip = false;
            let mut p: usize = 0;
            while p < din
                invariant_except_break
                    !skip,
                    forall|q: int| 0 <= q < p ==> (#[trigger] match_seq(ds[q], bs, 0, inherited_env(ib), match_fuel())).failed,
                invariant
                    ds == branches_v(disjs@),
                    bs == rrefs_v(node2@),
                    ib == bindings_v(inheritedbindings@),
                    din < disjs@.len(),
                    p <= din,
                    inheritedenv@ == inherited_env(ib),
                ensures
                    skip ==> earlier_matches(ds, din as int, bs, ib),
                    !skip ==> forall|q: int|
                        0 <= q < din ==> (#[trigger] match_seq(ds[q], bs, 0, inherited_env(ib), match_fuel())).failed,
                decreases din - p,
            {
                let prev = snode_refs(&disjs[p]);
                proof {
                    assert(srefs_v(prev@) == ds[p as int]);
                }
                let penv = self.matchnodes(&prev, node2, inheritedenv.copy());
                if !penv.failed {
                    proof {
                        assert(!match_seq(ds[p as int], bs, 0, inherited_env(ib), match_fuel()).failed);
                        assert(earlier_matches(ds, din as int, bs, ib));
                    }
                    skip = true;
                    break;
                }
                p = p + 1;
            }
            let ghost prefix = disj_envs(ds, bs, ib, din as int);
            if skip {
                proof {
                    assert(earlier_matches(ds, din as int, bs, ib));
                }
            } else {
                proof {
                    assert(!earlier_matches(ds, din as int, bs, ib));
                }
                let cur = snode_refs(&disjs[din]);
                proof {
                    assert(srefs_v(cur@) == ds[din as int]);
                }
                let env = self.matchnodes(&cur, node2, inheritedenv);
                matched = matched || !env.failed;
                if !env.failed {
                    let ghost before = envs_v(environments@);
                    environments.push(env);
                    proof {
                        assert(envs_v(environments@) =~= before.push(env@));
                    }
                }
            }
            din = din + 1;
        }
        (environments, matched)
    }
}

/// The matches of the disjunction `nodea` against every suffix of every list
/// of children in the tree `nodeb`, in preorder, starting from the inherited
/// bindings `inherited`.
pub fn visitrnode(
    nodea: &Vec<Vec<Snode>>,
    nodeb: &Rnode,
    looper: &Looper,
    inherited: &Vec<MetavarBinding>,
) -> (r: Vec<Environment>)
    ensures
        envs_v(r@) == visit_envs(branches_v(nodea@), nodeb@, bindings_v(inherited@)),
    decreases nodeb,
{
    let ghost ds = branches_v(nodea@);
    let ghost ib = bindings_v(inherited@);
    let ghost bv = nodeb@;
    let mut environments: Vec<Environment> = Vec::new();
    let mut i: usize = 0;
    proof {
        assert(envs_v(environments@) =~= Seq::<EnvV>::empty());
        assert(visit_envs(ds, bv, ib) == visit_from(ds, bv, 0, ib));
    }
    loop
        invariant_except_break
            envs_v(environments@) + visit_from(ds, bv, i as int, ib) == visit_envs(ds, bv, ib),
        invariant
            ds == branches_v(nodea@),
            ib == bindings_v(inherited@),
            bv == nodeb@,
            i <= nodeb.children@.len(),
            bv.children.len() == nodeb.children@.len(),
        ensures
            envs_v(environments@) == visit_envs(ds, bv, ib),
        decreases nodeb.children@.len() - i,
    {
        let mut rest: Vec<&Rnode> = Vec::new();
        let mut k: usize = i;
        while k < nodeb.children.len()
            invariant
                i <= k <= nodeb.children@.len(),
                rest@.len() == k - i,
                forall|q: int| 0 <= q < rest@.len() ==> #[trigger] rest@[q]@ == nodeb.children@[i + q]@,
            decreases nodeb.children@.len() - k,
        {
            rest.push(&nodeb.children[k]);
            k = k + 1;
        }
        proof {
            assert(rrefs_v(rest@) =~= bv.children.skip(i as int));
        }
        let (envs, m) = looper.handledisjunctions(nodea, &rest, inherited);
        let ghost here = if m {
            envs_v(envs@)
        } else {
            Seq::<EnvV>::empty()
        };
        let ghost before = envs_v(environments@);
        if m {
            let mut envs = envs;
            let ghost ev = envs@;
            let ghost e0 = environments@;
            environments.append(&mut envs);
            proof {
                assert(envs_v(environments@) =~= before + envs_v(ev));
            }
        }
        if i < nodeb.children.len() {
            proof {
                assert(decreases_to!(nodeb => nodeb.children@[i as int]));
                assert(bv.children[i as int] == nodeb.children@[i as int]@);
            }
            let mut sub = visitrnode(nodea, &nodeb.children[i], looper, inherited);
            let ghost b2 = envs_v(environments@);
            let ghost sv = sub@;
            environments.append(&mut sub);
            proof {
                assert(envs_v(environments@) =~= b2 + envs_v(sv));
                assert(visit_from(ds, bv, i as int, ib) == here + visit_envs(ds, bv.children[i as int], ib)
                    + visit_from(ds, bv, i + 1, ib));
                assert(envs_v(environments@) + visit_from(ds, bv, i + 1, ib) =~= before + visit_from(
                    ds,
                    bv,
                    i as int,
                    ib,
                ));
            }
            i = i + 1;
        } else {
            proof {
                assert(visit_from(ds, bv, i as int, ib) == here);
                assert(envs_v(environments@) =~= before + here);
                assert(envs_v(environments@) =~= visit_envs(ds, bv, ib));
            }
            break;
        }
    }
    environments
}

// ---------------------------------------------------------------------
// Laws

/// Whether branch `i` of the disjunction `ds` matches the code `bs`.
pub open spec fn branch_matches(ds: Seq<Seq<SnodeV>>, i: int, bs: Seq<RnodeV>, ib: Seq<BindingV>) -> bool {
    !match_seq(ds[i], bs, 0, inherited_env(ib), match_fuel()).failed
}

proof fn lemma_first_branch(ds: Seq<Seq<SnodeV>>, bs: Seq<RnodeV>, ib: Seq<BindingV>, k: int)
    requires
        0 <= k <= ds.len(),
    ensures
        disj_envs(ds, bs, ib, k).1 <==> exists|i: int| 0 <= i < k && #[trigger] branch_matches(ds, i, bs, ib),
        !disj_envs(ds, bs, ib, k).1 ==> disj_envs(ds, bs, ib, k).0.len() == 0,
        disj_envs(ds, bs, ib, k).1 ==> disj_envs(ds, bs, ib, k).0.len() == 1 && exists|i: int|
            0 <= i < k && #[trigger] branch_matches(ds, i, bs, ib) && disj_envs(ds, bs, ib, k).0[0] == match_seq(
                ds[i],
                bs,
                0,
                inherited_env(ib),
                match_fuel(),
            ) && forall|p: int| 0 <= p < i ==> !branch_matches(ds, p, bs, ib),
    decreases k,
{
    if k > 0 {
        lemma_first_branch(ds, bs, ib, k - 1);
        let din = k - 1;
        if earlier_matches(ds, din, bs, ib) {
            let p = choose|p: int|
                0 <= p < din && !(#[trigger] match_seq(ds[p], bs, 0, inherited_env(ib), match_fuel())).failed;
            assert(branch_matches(ds, p, bs, ib));
        } else {
            assert forall|p: int| 0 <= p < din implies !branch_matches(ds, p, bs, ib) by {
                if branch_matches(ds, p, bs, ib) {
                    assert(!match_seq(ds[p], bs, 0, inherited_env(ib), match_fuel()).failed);
                }
            }
            if branch_matches(ds, din, bs, ib) {
                assert(disj_envs(ds, bs, ib, k).0 =~= seq![match_seq(ds[din], bs, 0, inherited_env(ib), match_fuel())]);
            } else {
                assert(forall|i: int| 0 <= i < k && #[trigger] branch_matches(ds, i, bs, ib) ==> i < din);
            }
        }
    }
}

/// A disjunction `( A | B | ... )` matches code as its first matching
/// branch and as no other (`A | B` is `A`, or `B` and not `A`): it gives no
/// match when no branch matches, and otherwise exactly one, that of a
/// branch that matches while no branch before it does.
pub proof fn law_disjunction_first_branch(ds: Seq<Seq<SnodeV>>, bs: Seq<RnodeV>, ib: Seq<BindingV>)
    ensures
        disj_envs(ds, bs, ib, ds.len() as int).1 <==> exists|i: int|
            0 <= i < ds.len() && #[trigger] branch_matches(ds, i, bs, ib),
        disj_envs(ds, bs, ib, ds.len() as int).0.len() <= 1,
        !disj_envs(ds, bs, ib, ds.len() as int).1 ==> disj_envs(ds, bs, ib, ds.len() as int).0.len() == 0,
        disj_envs(ds, bs, ib, ds.len() as int).1 ==> exists|i: int|
            0 <= i < ds.len() && #[trigger] branch_matches(ds, i, bs, ib) && (forall|p: int|
                0 <= p < i ==> !branch_matches(ds, p, bs, ib)) && disj_envs(ds, bs, ib, ds.len() as int).0
                == seq![match_seq(ds[i], bs, 0, inherited_env(ib), match_fuel())],
{
    let n = ds.len() as int;
    lemma_first_branch(ds, bs, ib, n);
    let es = disj_envs(ds, bs, ib, n).0;
    if disj_envs(ds, bs, ib, n).1 {
        let i0 = choose|i: int|
            0 <= i < n && #[trigger] branch_matches(ds, i, bs, ib) && es[0] == match_seq(
                ds[i],
                bs,
                0,
                inherited_env(ib),
                match_fuel(),
            ) && forall|p: int| 0 <= p < i ==> !branch_matches(ds, p, bs, ib);
        assert(es =~= seq![match_seq(ds[i0], bs, 0, inherited_env(ib), match_fuel())]);
    }
}

/// A metavariable that already has a binding, made earlier in the rule or
/// inherited, matches a node of code exactly when that node is the same
/// code as the binding.
pub proof fn law_bound_metavariable_matches_equal_code(a: SnodeV, b: RnodeV, env: EnvV, fuel: nat)
    requires
        !(a.wrapper.metavar is NoMeta),
        !(a.kind == Tag::PathType && b.kind == Tag::PathSegment),
        binding_for(env.bindings, var_name(a.wrapper.metavar), 0) is Some,
    ensures
        match_one(a, b, env, fuel) is Some <==> rnode_equals(
            env.bindings[binding_for(env.bindings, var_name(a.wrapper.metavar), 0)->0].rnode,
            b,
        ),
{
}

} // verus!
