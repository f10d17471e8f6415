//! The words that a file must contain for the rules of a semantic patch to
//! apply to it, as a formula, and the queries that searching tools take
//! from that formula.
//!
//! A conjunction or disjunction holds its operands as an ordered set: a
//! sequence kept in the order of `comb_order`, which is the order of the
//! variants, then of the words, then of the operand sequences.
use vstd::prelude::*;
use crate::commons::pattern::{regex_is_match, spec_regex_match};
use crate::commons::syntax_kind::Tag;
use crate::commons::text::{chars_of, push_str, str_eq, string_from, string_of};
use crate::parsing_cocci::ast0::{mcodekind_v, snode_string, snodes_v, McodekindV, Mcodekind, Snode, SnodeV};
use crate::parsing_cocci::parse_cocci::{rule_chars, rules_v, var_rule, Dep, DepV, Rule, RuleV};

verus! {

/// A formula over words.  `True` means that nothing is required; `False`
/// never reaches the top of a result for a patch with code.
#[derive(Debug)]
pub enum Combine {
    True,
    False,
    Elem(String),
    And(Vec<Combine>),
    Or(Vec<Combine>),
    Not(Box<Combine>),
}

/// Model of a formula.
pub ghost enum CombV {
    True,
    False,
    Elem(Seq<char>),
    And(Seq<CombV>),
    Or(Seq<CombV>),
    Not(Box<CombV>),
}

pub open spec fn comb_v(c: Combine) -> CombV
    decreases c,
{
    match c {
        Combine::True => CombV::True,
        Combine::False => CombV::False,
        Combine::Elem(s) => CombV::Elem(s@),
        Combine::And(l) => CombV::And(combs_v(l)),
        Combine::Or(l) => CombV::Or(combs_v(l)),
        Combine::Not(b) => CombV::Not(Box::new(comb_v(*b))),
    }
}

/// Models of a sequence of formulas.
pub open spec fn combs_v(v: Vec<Combine>) -> Seq<CombV>
    decreases v,
{
    Seq::new(
        v@.len(),
        |i: int|
            if 0 <= i < v@.len() {
                comb_v(v@[i])
            } else {
                arbitrary()
            },
    )
}

impl View for Combine {
    type V = CombV;

    open spec fn view(&self) -> CombV {
        comb_v(*self)
    }
}

// ---------------------------------------------------------------------
// Order

/// The position of a variant in the declaration.
pub open spec fn rank(x: CombV) -> int {
    match x {
        CombV::True => 0,
        CombV::False => 1,
        CombV::Elem(_) => 2,
        CombV::And(_) => 3,
        CombV::Or(_) => 4,
        CombV::Not(_) => 5,
    }
}

/// Lexicographic order of texts by character code: negative, zero or
/// positive.
pub open spec fn text_order(a: Seq<char>, b: Seq<char>) -> int
    decreases a.len(),
{
    if a.len() == 0 {
        if b.len() == 0 {
            0
        } else {
            -1
        }
    } else if b.len() == 0 {
        1
    } else if (a[0] as u32) < (b[0] as u32) {
        -1
    } else if (a[0] as u32) > (b[0] as u32) {
        1
    } else {
        text_order(a.skip(1), b.skip(1))
    }
}

/// The order of formulas: by variant, then by word, operand sequence or
/// negated formula.
pub open spec fn comb_order(x: CombV, y: CombV) -> int
    decreases x,
{
    if rank(x) != rank(y) {
        if rank(x) < rank(y) {
            -1
        } else {
            1
        }
    } else {
        match x {
            CombV::Elem(a) => match y {
                CombV::Elem(b) => text_order(a, b),
                _ => 0,
            },
            CombV::And(l1) => match y {
                CombV::And(l2) => list_order(l1, l2),
                _ => 0,
            },
            CombV::Or(l1) => match y {
                CombV::Or(l2) => list_order(l1, l2),
                _ => 0,
            },
            CombV::Not(a) => match y {
                CombV::Not(b) => comb_order(*a, *b),
                _ => 0,
            },
            _ => 0,
        }
    }
}

/// Lexicographic order of sequences of formulas, a prefix first.
pub open spec fn list_order(a: Seq<CombV>, b: Seq<CombV>) -> int
    decreases a,
{
    if a.len() == 0 {
        if b.len() == 0 {
            0
        } else {
            -1
        }
    } else if b.len() == 0 {
        1
    } else {
        let c = comb_order(a[0], b[0]);
        if c != 0 {
            c
        } else {
            list_order(a.skip(1), b.skip(1))
        }
    }
}

fn compare_text(a: &Vec<char>, b: &Vec<char>) -> (r: i8)
    ensures
        r == text_order(a@, b@),
{
    let mut i: usize = 0;
    proof {
        assert(a@.skip(0) =~= a@);
        assert(b@.skip(0) =~= b@);
    }
    while i < a.len() && i < b.len()
        invariant
            i <= a@.len(),
            i <= b@.len(),
            text_order(a@, b@) == text_order(a@.skip(i as int), b@.skip(i as int)),
        decreases a@.len() - i,
    {
        let x = a[i] as u32;
        let y = b[i] as u32;
        proof {
            assert(a@.skip(i as int)[0] == a@[i as int]);
            assert(b@.skip(i as int)[0] == b@[i as int]);
        }
        if x < y {
            return -1;
        }
        if x > y {
            return 1;
        }
        proof {
            assert(a@.skip(i as int).skip(1) =~= a@.skip(i + 1));
            assert(b@.skip(i as int).skip(1) =~= b@.skip(i + 1));
        }
        i = i + 1;
    }
    if i == a.len() {
        if i == b.len() {
            0
        } else {
            -1
        }
    } else {
        1
    }
}

/// Compares two formulas in the order of `comb_order`.
pub fn compare_comb(x: &Combine, y: &Combine) -> (r: i8)
    ensures
        r == comb_order(x@, y@),
    decreases x,
{
    let rx = rank_of(x);
    let ry = rank_of(y);
    if rx != ry {
        return if rx < ry {
            -1
        } else {
            1
        };
    }
    match x {
        Combine::Elem(a) => match y {
            Combine::Elem(b) => compare_text(&chars_of(a.as_str()), &chars_of(b.as_str())),
            _ => 0,
        },
        Combine::And(l1) => match y {
            Combine::And(l2) => compare_list(l1, l2),
            _ => 0,
        },
        Combine::Or(l1) => match y {
            Combine::Or(l2) => compare_list(l1, l2),
            _ => 0,
        },
        Combine::Not(a) => match y {
            Combine::Not(b) => compare_comb(a, b),
            _ => 0,
        },
        _ => 0,
    }
}

fn rank_of(x: &Combine) -> (r: u8)
    ensures
        r == rank(x@),
{
    match x {
        Combine::True => 0,
        Combine::False => 1,
        Combine::Elem(_) => 2,
        Combine::And(_) => 3,
        Combine::Or(_) => 4,
        Combine::Not(_) => 5,
    }
}

fn compare_list(a: &Vec<Combine>, b: &Vec<Combine>) -> (r: i8)
    ensures
        r == list_order(combs_v(*a), combs_v(*b)),
    decreases a,
{
    let ghost av = combs_v(*a);
    let ghost bv = combs_v(*b);
    let mut i: usize = 0;
    proof {
        assert(av.skip(0) =~= av);
        assert(bv.skip(0) =~= bv);
    }
    while i < a.len() && i < b.len()
        invariant
            i <= a@.len(),
            i <= b@.len(),
            av == combs_v(*a),
            bv == combs_v(*b),
            list_order(av, bv) == list_order(av.skip(i as int), bv.skip(i as int)),
        decreases a@.len() - i,
    {
        proof {
            assert(decreases_to!(a => a@[i as int]));
            assert(av.skip(i as int)[0] == a@[i as int]@);
            assert(bv.skip(i as int)[0] == b@[i as int]@);
        }
        let c = compare_comb(&a[i], &b[i]);
        if c != 0 {
            return c;
        }
        proof {
            assert(av.skip(i as int).skip(1) =~= av.skip(i + 1));
            assert(bv.skip(i as int).skip(1) =~= bv.skip(i + 1));
        }
        i = i + 1;
    }
    if i == a.len() {
        if i == b.len() {
            0
        } else {
            -1
        }
    } else {
        1
    }
}

impl Combine {
    /// A copy of this formula.
    pub fn copy(&self) -> (r: Combine)
        ensures
            r@ == self@,
        decreases self,
    {
        match self {
            Combine::True => Combine::True,
            Combine::False => Combine::False,
            Combine::Elem(s) => Combine::Elem(string_of(&chars_of(s.as_str()))),
            Combine::And(l) => Combine::And(copy_combs(l)),
            Combine::Or(l) => Combine::Or(copy_combs(l)),
            Combine::Not(b) => Combine::Not(Box::new((**b).copy())),
        }
    }

    /// Whether two formulas are the same.
    pub fn equals(&self, other: &Combine) -> (r: bool)
        ensures
            r == (self@ == other@),
        decreases self,
    {
        match self {
            Combine::True => matches!(other, Combine::True),
            Combine::False => matches!(other, Combine::False),
            Combine::Elem(a) => match other {
                Combine::Elem(b) => str_eq(a.as_str(), b.as_str()),
                _ => false,
            },
            Combine::And(l1) => match other {
                Combine::And(l2) => list_equals(l1, l2),
                _ => false,
            },
            Combine::Or(l1) => match other {
                Combine::Or(l2) => list_equals(l1, l2),
                _ => false,
            },
            Combine::Not(a) => match other {
                Combine::Not(b) => (**a).equals(b),
                _ => false,
            },
        }
    }
}

fn list_equals(a: &Vec<Combine>, b: &Vec<Combine>) -> (r: bool)
    ensures
        r == (combs_v(*a) == combs_v(*b)),
    decreases a,
{
    if a.len() != b.len() {
        proof {
            assert(combs_v(*a).len() != combs_v(*b).len());
        }
        return false;
    }
    let mut i: usize = 0;
    while i < a.len()
        invariant
            i <= a@.len(),
            a@.len() == b@.len(),
            forall|j: int| 0 <= j < i ==> comb_v(#[trigger] a@[j]) == comb_v(b@[j]),
        decreases a@.len() - i,
    {
        proof {
            assert(decreases_to!(a => a@[i as int]));
        }
        if !a[i].equals(&b[i]) {
            proof {
                assert(combs_v(*a)[i as int] != combs_v(*b)[i as int]);
            }
            return false;
        }
        i = i + 1;
    }
    proof {
        assert(combs_v(*a) =~= combs_v(*b));
    }
    true
}

/// A copy of a sequence of formulas.
pub fn copy_combs(v: &Vec<Combine>) -> (r: Vec<Combine>)
    ensures
        combs_v(r) == combs_v(*v),
    decreases v,
{
    let mut r: Vec<Combine> = Vec::new();
    for i in 0..v.len()
        invariant
            r@.len() == i,
            i <= v@.len(),
            forall|j: int| 0 <= j < i ==> comb_v(#[trigger] r@[j]) == comb_v(v@[j]),
    {
        proof {
            assert(decreases_to!(v => v@[i as int]));
        }
        let c = v[i].copy();
        r.push(c);
    }
    proof {
        assert(combs_v(r) =~= combs_v(*v));
    }
    r
}

// ---------------------------------------------------------------------
// Ordered sets of formulas

/// Whether `s` holds an element that the order puts level with `x`.
pub open spec fn in_set(s: Seq<CombV>, x: CombV) -> bool {
    exists|j: int| 0 <= j < s.len() && comb_order(#[trigger] s[j], x) == 0
}

/// `s` with `x` inserted where the order puts it, unless an element level
/// with `x` is there already.
pub open spec fn set_insert(s: Seq<CombV>, x: CombV) -> Seq<CombV>
    decreases s.len(),
{
    if s.len() == 0 {
        seq![x]
    } else {
        let c = comb_order(s[0], x);
        if c == 0 {
            s
        } else if c > 0 {
            seq![x] + s
        } else {
            seq![s[0]] + set_insert(s.skip(1), x)
        }
    }
}

/// The elements of `b`, in turn, inserted into `a`.
pub open spec fn set_union(a: Seq<CombV>, b: Seq<CombV>) -> Seq<CombV>
    decreases b.len(),
{
    if b.len() == 0 {
        a
    } else {
        set_insert(set_union(a, b.drop_last()), b.last())
    }
}

/// The elements of `a` that are in `b` (when `keep`), or that are not.
pub open spec fn set_select(a: Seq<CombV>, b: Seq<CombV>, keep: bool) -> Seq<CombV>
    decreases a.len(),
{
    if a.len() == 0 {
        Seq::empty()
    } else {
        let p = set_select(a.drop_last(), b, keep);
        if in_set(b, a.last()) == keep {
            p.push(a.last())
        } else {
            p
        }
    }
}

/// Whether `s` holds an element level with `x`.
pub fn set_contains(s: &Vec<Combine>, x: &Combine) -> (r: bool)
    ensures
        r == in_set(combs_v(*s), x@),
{
    let ghost sv = combs_v(*s);
    let mut i: usize = 0;
    while i < s.len()
        invariant
            i <= s@.len(),
            sv == combs_v(*s),
            forall|j: int| 0 <= j < i ==> comb_order(#[trigger] sv[j], x@) != 0,
        decreases s@.len() - i,
    {
        proof {
            assert(sv[i as int] == s@[i as int]@);
        }
        if compare_comb(&s[i], x) == 0 {
            return true;
        }
        i = i + 1;
    }
    false
}

/// `s` with `x` inserted where the order puts it.
pub fn set_insert_exec(s: &Vec<Combine>, x: &Combine) -> (r: Vec<Combine>)
    ensures
        combs_v(r) == set_insert(combs_v(*s), x@),
{
    let ghost sv = combs_v(*s);
    let mut r: Vec<Combine> = Vec::new();
    let mut i: usize = 0;
    proof {
        assert(sv.skip(0) =~= sv);
        assert(combs_v(r) =~= sv.take(0));
    }
    while i < s.len()
        invariant
            i <= s@.len(),
            sv == combs_v(*s),
            combs_v(r) == sv.take(i as int),
            set_insert(sv, x@) == sv.take(i as int) + set_insert(sv.skip(i as int), x@),
        decreases s@.len() - i,
    {
        proof {
            assert(sv.skip(i as int)[0] == s@[i as int]@);
            assert(sv.skip(i as int).skip(1) =~= sv.skip(i + 1));
        }
        let c = compare_comb(&s[i], x);
        if c == 0 {
            proof {
                assert(sv.take(i as int) + sv.skip(i as int) =~= sv);
            }
            return copy_combs(s);
        }
        if c > 0 {
            let ghost r0 = combs_v(r);
            r.push(x.copy());
            let mut j: usize = i;
            while j < s.len()
                invariant
                    i <= j <= s@.len(),
                    sv == combs_v(*s),
                    combs_v(r) == r0.push(x@) + sv.subrange(i as int, j as int),
                decreases s@.len() - j,
            {
                let ghost rb = combs_v(r);
                r.push(s[j].copy());
                proof {
                    assert(combs_v(r) =~= rb.push(sv[j as int]));
                    assert(sv.subrange(i as int, j + 1) =~= sv.subrange(i as int, j as int).push(sv[j as int]));
                }
                j = j + 1;
            }
            proof {
                assert(combs_v(r) =~= sv.take(i as int) + (seq![x@] + sv.skip(i as int)));
            }
            return r;
        }
        let ghost rb = combs_v(r);
        r.push(s[i].copy());
        proof {
            assert(combs_v(r) =~= rb.push(sv[i as int]));
            assert(sv.take(i + 1) =~= sv.take(i as int).push(sv[i as int]));
            assert(sv.take(i as int) + (seq![sv[i as int]] + set_insert(sv.skip(i + 1), x@)) =~= sv.take(i + 1)
                + set_insert(sv.skip(i + 1), x@));
        }
        i = i + 1;
    }
    let ghost rb = combs_v(r);
    r.push(x.copy());
    proof {
        assert(combs_v(r) =~= rb.push(x@));
        assert(sv.take(i as int) =~= sv);
        assert(sv.skip(i as int) =~= Seq::<CombV>::empty());
    }
    r
}

/// The elements of `b`, in turn, inserted into `a`.
pub fn set_union_exec(a: &Vec<Combine>, b: &Vec<Combine>) -> (r: Vec<Combine>)
    ensures
        combs_v(r) == set_union(combs_v(*a), combs_v(*b)),
{
    let ghost av = combs_v(*a);
    let ghost bv = combs_v(*b);
    let mut r = copy_combs(a);
    let mut i: usize = 0;
    proof {
        assert(bv.take(0) =~= Seq::<CombV>::empty());
    }
    while i < b.len()
        invariant
            i <= b@.len(),
            av == combs_v(*a),
            bv == combs_v(*b),
            combs_v(r) == set_union(av, bv.take(i as int)),
        decreases b@.len() - i,
    {
        proof {
            assert(bv.take(i + 1).drop_last() =~= bv.take(i as int));
            assert(bv.take(i + 1).last() == b@[i as int]@);
        }
        r = set_insert_exec(&r, &b[i]);
        i = i + 1;
    }
    proof {
        assert(bv.take(b@.len() as int) =~= bv);
    }
    r
}

/// The elements of `a` that are in `b` (when `keep`), or that are not.
pub fn set_select_exec(a: &Vec<Combine>, b: &Vec<Combine>, keep: bool) -> (r: Vec<Combine>)
    ensures
        combs_v(r) == set_select(combs_v(*a), combs_v(*b), keep),
{
    let ghost av = combs_v(*a);
    let ghost bv = combs_v(*b);
    let mut r: Vec<Combine> = Vec::new();
    let mut i: usize = 0;
    proof {
        assert(av.take(0) =~= Seq::<CombV>::empty());
        assert(combs_v(r) =~= Seq::<CombV>::empty());
    }
    while i < a.len()
        invariant
            i <= a@.len(),
            av == combs_v(*a),
            bv == combs_v(*b),
            combs_v(r) == set_select(av.take(i as int), bv, keep),
        decreases a@.len() - i,
    {
        proof {
            assert(av.take(i + 1).drop_last() =~= av.take(i as int));
            assert(av.take(i + 1).last() == a@[i as int]@);
        }
        if set_contains(b, &a[i]) == keep {
            let ghost rb = combs_v(r);
            r.push(a[i].copy());
            proof {
                assert(combs_v(r) =~= rb.push(a@[i as int]@));
            }
        }
        i = i + 1;
    }
    proof {
        assert(av.take(a@.len() as int) =~= av);
    }
    r
}

// ---------------------------------------------------------------------
// Conjunction and disjunction

/// Whether `c` is a conjunction (`conj`) or a disjunction (otherwise).
pub open spec fn is_op(conj: bool, c: CombV) -> bool {
    if conj {
        c is And
    } else {
        c is Or
    }
}

/// The operands of a conjunction or disjunction.
pub open spec fn ops(c: CombV) -> Seq<CombV> {
    match c {
        CombV::And(l) => l,
        CombV::Or(l) => l,
        _ => Seq::empty(),
    }
}

/// The conjunction (`conj`) or disjunction of the set `l`.
pub open spec fn mk(conj: bool, l: Seq<CombV>) -> CombV {
    if conj {
        CombV::And(l)
    } else {
        CombV::Or(l)
    }
}

/// The neutral element: `True` for a conjunction, `False` for a
/// disjunction.
pub open spec fn unit(conj: bool) -> CombV {
    if conj {
        CombV::True
    } else {
        CombV::False
    }
}

/// The conjunction (`conj`) or disjunction of exactly `x` and `y`.
pub open spec fn pair_of(conj: bool, x: CombV, y: CombV) -> CombV {
    mk(conj, set_insert(set_insert(Seq::empty(), x), y))
}

/// The operands of `l` other than those of the dual kind that contain `x`.
pub open spec fn unrelated(conj: bool, l: Seq<CombV>, x: CombV) -> Seq<CombV>
    decreases l.len(),
{
    if l.len() == 0 {
        Seq::empty()
    } else {
        let p = unrelated(conj, l.drop_last(), x);
        if is_op(!conj, l.last()) && in_set(ops(l.last()), x) {
            p
        } else {
            p.push(l.last())
        }
    }
}

/// `x` joined to the operands `l` of a formula of the same kind: `l` when
/// it holds `x` already; else `l` without the operands that `x` makes
/// redundant, and with `x`.
pub open spec fn absorb(conj: bool, x: CombV, l: Seq<CombV>) -> CombV {
    if in_set(l, x) {
        mk(conj, l)
    } else {
        mk(conj, set_insert(set_union(Seq::empty(), unrelated(conj, l, x)), x))
    }
}

/// The bound on the depth of recursion of `build_and` and `build_or`.
pub open spec fn comb_fuel() -> nat {
    usize::MAX as nat
}

/// The conjunction (`conj`) or disjunction of `x` and `y`, simplified: a
/// neutral operand disappears, an absorbing one absorbs, operands of the
/// same kind merge, and a common part of two operands of the dual kind is
/// factored out.  `fuel` bounds the depth of the factoring.
pub open spec fn join_f(conj: bool, x: CombV, y: CombV, fuel: nat) -> CombV
    decreases fuel, 0nat,
{
    if x == y {
        x
    } else if conj && x is True {
        y
    } else if conj && y is True {
        x
    } else if conj && (x is False || y is False) {
        CombV::False
    } else if !conj && (x is True || y is True) {
        CombV::True
    } else if !conj && x is False {
        y
    } else if !conj && y is False {
        x
    } else if is_op(conj, x) && is_op(conj, y) {
        mk(conj, set_union(ops(x), ops(y)))
    } else if is_op(!conj, y) && in_set(ops(y), x) {
        x
    } else if is_op(!conj, x) && in_set(ops(x), y) {
        y
    } else if is_op(!conj, x) && is_op(!conj, y) && set_select(ops(x), ops(y), true).len() > 0 {
        if fuel == 0 {
            pair_of(conj, x, y)
        } else {
            let l1 = ops(x);
            let l2 = ops(y);
            let a1 = fold_comb(!conj, unit(!conj), set_select(l1, l2, false), (fuel - 1) as nat);
            let a2 = fold_comb(!conj, unit(!conj), set_select(l2, l1, false), (fuel - 1) as nat);
            let inner = join_f(conj, a1, a2, (fuel - 1) as nat);
            fold_comb(!conj, inner, set_select(l1, l2, true), (fuel - 1) as nat)
        }
    } else if is_op(conj, y) {
        absorb(conj, x, ops(y))
    } else if is_op(conj, x) {
        absorb(conj, y, ops(x))
    } else {
        pair_of(conj, x, y)
    }
}

/// `acc` joined (`conj`: by conjunction) with each formula of `l` in turn.
pub open spec fn fold_comb(conj: bool, acc: CombV, l: Seq<CombV>, fuel: nat) -> CombV
    decreases fuel, l.len() + 1,
{
    if l.len() == 0 {
        acc
    } else {
        join_f(conj, fold_comb(conj, acc, l.drop_last(), fuel), l.last(), fuel)
    }
}

fn mk_exec(conj: bool, l: Vec<Combine>) -> (r: Combine)
    ensures
        r@ == mk(conj, combs_v(l)),
{
    if conj {
        Combine::And(l)
    } else {
        Combine::Or(l)
    }
}

fn is_op_exec(conj: bool, c: &Combine) -> (r: bool)
    ensures
        r == is_op(conj, c@),
{
    match c {
        Combine::And(_) => conj,
        Combine::Or(_) => !conj,
        _ => false,
    }
}

fn ops_exec(c: &Combine) -> (r: Vec<Combine>)
    ensures
        combs_v(r) == ops(c@),
{
    match c {
        Combine::And(l) => copy_combs(l),
        Combine::Or(l) => copy_combs(l),
        _ => {
            let r: Vec<Combine> = Vec::new();
            proof {
                assert(combs_v(r) =~= Seq::<CombV>::empty());
            }
            r
        },
    }
}

fn pair_exec(conj: bool, x: &Combine, y: &Combine) -> (r: Combine)
    ensures
        r@ == pair_of(conj, x@, y@),
{
    let e: Vec<Combine> = Vec::new();
    proof {
        assert(combs_v(e) =~= Seq::<CombV>::empty());
    }
    let s1 = set_insert_exec(&e, x);
    let s2 = set_insert_exec(&s1, y);
    mk_exec(conj, s2)
}

fn unrelated_exec(conj: bool, l: &Vec<Combine>, x: &Combine) -> (r: Vec<Combine>)
    ensures
        combs_v(r) == unrelated(conj, combs_v(*l), x@),
{
    let ghost lv = combs_v(*l);
    let mut r: Vec<Combine> = Vec::new();
    let mut i: usize = 0;
    proof {
        assert(lv.take(0) =~= Seq::<CombV>::empty());
        assert(combs_v(r) =~= Seq::<CombV>::empty());
    }
    while i < l.len()
        invariant
            i <= l@.len(),
            lv == combs_v(*l),
            combs_v(r) == unrelated(conj, lv.take(i as int), x@),
        decreases l@.len() - i,
    {
        proof {
            assert(lv.take(i + 1).drop_last() =~= lv.take(i as int));
            assert(lv.take(i + 1).last() == l@[i as int]@);
        }
        let related = is_op_exec(!conj, &l[i]) && set_contains(&ops_exec(&l[i]), x);
        if !related {
            let ghost rb = combs_v(r);
            r.push(l[i].copy());
            proof {
                assert(combs_v(r) =~= rb.push(l@[i as int]@));
            }
        }
        i = i + 1;
    }
    proof {
        assert(lv.take(l@.len() as int) =~= lv);
    }
    r
}

fn absorb_exec(conj: bool, x: &Combine, l: &Vec<Combine>) -> (r: Combine)
    ensures
        r@ == absorb(conj, x@, combs_v(*l)),
{
    if set_contains(l, x) {
        return mk_exec(conj, copy_combs(l));
    }
    let e: Vec<Combine> = Vec::new();
    proof {
        assert(combs_v(e) =~= Seq::<CombV>::empty());
    }
    let others = set_union_exec(&e, &unrelated_exec(conj, l, x));
    mk_exec(conj, set_insert_exec(&others, x))
}

fn unit_exec(conj: bool) -> (r: Combine)
    ensures
        r@ == unit(conj),
{
    if conj {
        Combine::True
    } else {
        Combine::False
    }
}

fn fold_exec(conj: bool, acc: Combine, l: &Vec<Combine>, fuel: usize) -> (r: Combine)
    ensures
        r@ == fold_comb(conj, acc@, combs_v(*l), fuel as nat),
    decreases fuel, 1usize,
{
    let ghost lv = combs_v(*l);
    let ghost a0 = acc@;
    let mut acc = acc;
    let mut i: usize = 0;
    proof {
        assert(lv.take(0) =~= Seq::<CombV>::empty());
    }
    while i < l.len()
        invariant
            i <= l@.len(),
            lv == combs_v(*l),
            acc@ == fold_comb(conj, a0, lv.take(i as int), fuel as nat),
        decreases l@.len() - i,
    {
        proof {
            assert(lv.take(i + 1).drop_last() =~= lv.take(i as int));
            assert(lv.take(i + 1).last() == l@[i as int]@);
        }
        acc = join(conj, &acc, &l[i], fuel);
        i = i + 1;
    }
    proof {
        assert(lv.take(l@.len() as int) =~= lv);
    }
    acc
}

fn join(conj: bool, x: &Combine, y: &Combine, fuel: usize) -> (r: Combine)
    ensures
        r@ == join_f(conj, x@, y@, fuel as nat),
    decreases fuel, 0usize,
{
    if x.equals(y) {
        return x.copy();
    }
    let xt = matches!(x, Combine::True);
    let yt = matches!(y, Combine::True);
    let xf = matches!(x, Combine::False);
    let yf = matches!(y, Combine::False);
    if conj {
        if xt {
            return y.copy();
        }
        if yt {
            return x.copy();
        }
        if xf || yf {
            return Combine::False;
        }
    } else {
        if xt || yt {
            return Combine::True;
        }
        if xf {
            return y.copy();
        }
        if yf {
            return x.copy();
        }
    }
    if is_op_exec(conj, x) && is_op_exec(conj, y) {
        return mk_exec(conj, set_union_exec(&ops_exec(x), &ops_exec(y)));
    }
    if is_op_exec(!conj, y) && set_contains(&ops_exec(y), x) {
        return x.copy();
    }
    if is_op_exec(!conj, x) && set_contains(&ops_exec(x), y) {
        return y.copy();
    }
    if is_op_exec(!conj, x) && is_op_exec(!conj, y) {
        let l1 = ops_exec(x);
        let l2 = ops_exec(y);
        let common = set_select_exec(&l1, &l2, true);
        if common.len() > 0 {
            if fuel == 0 {
                return pair_exec(conj, x, y);
            }
            let a1 = fold_exec(!conj, unit_exec(!conj), &set_select_exec(&l1, &l2, false), fuel - 1);
            let a2 = fold_exec(!conj, unit_exec(!conj), &set_select_exec(&l2, &l1, false), fuel - 1);
            let inner = join(conj, &a1, &a2, fuel - 1);
            return fold_exec(!conj, inner, &common, fuel - 1);
        }
    }
    if is_op_exec(conj, y) {
        return absorb_exec(conj, x, &ops_exec(y));
    }
    if is_op_exec(conj, x) {
        return absorb_exec(conj, y, &ops_exec(x));
    }
    pair_exec(conj, x, y)
}

/// The conjunction of `x` and `y`, simplified as `join_f` says.
pub fn build_and(x: &Combine, y: &Combine) -> (r: Combine)
    ensures
        r@ == join_f(true, x@, y@, comb_fuel()),
{
    join(true, x, y, usize::MAX)
}

/// The disjunction of `x` and `y`, simplified as `join_f` says.
pub fn build_or(x: &Combine, y: &Combine) -> (r: Combine)
    ensures
        r@ == join_f(false, x@, y@, comb_fuel()),
{
    join(false, x, y, usize::MAX)
}

// ---------------------------------------------------------------------
// Walking a formula

/// The formulas that a formula is made of, in the order they are pushed
/// when walking.
pub open spec fn kids(x: CombV) -> Seq<CombV> {
    match x {
        CombV::And(l) => l,
        CombV::Or(l) => l,
        CombV::Not(b) => seq![*b],
        _ => Seq::empty(),
    }
}

/// The number of formulas within a formula, itself included.
pub open spec fn csize(x: CombV) -> nat
    decreases x, 1nat,
{
    1 + match x {
        CombV::And(l) => lsize(l),
        CombV::Or(l) => lsize(l),
        CombV::Not(b) => csize(*b),
        _ => 0,
    }
}

/// The number of formulas within the formulas of `l`.
pub open spec fn lsize(l: Seq<CombV>) -> nat
    decreases l, 0nat,
{
    if l.len() == 0 {
        0
    } else {
        lsize(l.drop_last()) + csize(l.last())
    }
}

pub proof fn lemma_lsize_append(a: Seq<CombV>, b: Seq<CombV>)
    ensures
        lsize(a + b) == lsize(a) + lsize(b),
    decreases b.len(),
{
    if b.len() == 0 {
        assert(a + b =~= a);
    } else {
        assert((a + b).drop_last() =~= a + b.drop_last());
        assert((a + b).last() == b.last());
        lemma_lsize_append(a, b.drop_last());
    }
}

pub proof fn lemma_walk_step(st: Seq<CombV>)
    requires
        st.len() > 0,
    ensures
        lsize(st.drop_last() + kids(st.last())) < lsize(st),
{
    let x = st.last();
    lemma_lsize_append(st.drop_last(), kids(x));
    assert(lsize(st) == lsize(st.drop_last()) + csize(x));
    match x {
        CombV::Not(b) => {
            let one = seq![*b];
            assert(one.drop_last() =~= Seq::<CombV>::empty());
            assert(lsize(Seq::<CombV>::empty()) == 0);
            assert(one.last() == *b);
            assert(lsize(one) == lsize(one.drop_last()) + csize(one.last()));
            assert(lsize(one) == csize(*b));
            assert(kids(x) == one);
            assert(csize(x) == 1 + csize(*b));
            assert(lsize(st) == lsize(st.drop_last()) + csize(x));
        },
        _ => {},
    }
}

/// The formulas in the order that a walk from the stack `st` visits them:
/// the top of the stack first, then what its operands add.
pub open spec fn walk(st: Seq<CombV>) -> Seq<CombV>
    decreases lsize(st),
{
    if st.len() == 0 {
        Seq::empty()
    } else {
        proof {
            lemma_walk_step(st);
        }
        seq![st.last()] + walk(st.drop_last() + kids(st.last()))
    }
}

/// A walk over the formulas within a formula: each formula, then the
/// operands it holds, the last operand first.
pub struct CombineIterator<'c> {
    stack: Vec<&'c Combine>,
}

impl<'c> CombineIterator<'c> {
    /// The formulas waiting on the stack, the next one last.
    pub closed spec fn stack_v(&self) -> Seq<CombV> {
        Seq::new(self.stack@.len(), |i: int| self.stack@[i]@)
    }

    /// A walk over `c`.
    pub fn new(c: &'c Combine) -> (r: Self)
        ensures
            r.stack_v() == seq![c@],
    {
        let mut stack: Vec<&'c Combine> = Vec::new();
        stack.push(c);
        let r = CombineIterator { stack };
        proof {
            assert(r.stack_v() =~= seq![c@]);
        }
        r
    }

    /// The next formula of the walk, whose operands take its place.
    pub fn next(&mut self) -> (r: Option<&'c Combine>)
        ensures
            old(self).stack_v().len() == 0 ==> r is None && final(self).stack_v() == old(self).stack_v(),
            old(self).stack_v().len() > 0 ==> (r matches Some(c) && c@ == old(self).stack_v().last()
                && final(self).stack_v() == old(self).stack_v().drop_last() + kids(c@)),
    {
        let ghost s0 = self.stack_v();
        match self.stack.pop() {
            None => None,
            Some(item) => {
                proof {
                    assert(self.stack_v() =~= s0.drop_last());
                }
                match item {
                    Combine::And(l) | Combine::Or(l) => {
                        let mut i: usize = 0;
                        while i < l.len()
                            invariant
                                i <= l@.len(),
                                self.stack_v() == s0.drop_last() + combs_v(*l).take(i as int),
                            decreases l@.len() - i,
                        {
                            let ghost sb = self.stack_v();
                            self.stack.push(&l[i]);
                            proof {
                                assert(self.stack_v() =~= sb.push(l@[i as int]@));
                                assert(combs_v(*l).take(i + 1) =~= combs_v(*l).take(i as int).push(l@[i as int]@));
                            }
                            i = i + 1;
                        }
                        proof {
                            assert(combs_v(*l).take(l@.len() as int) =~= combs_v(*l));
                        }
                    },
                    Combine::Not(e) => {
                        let ghost sb = self.stack_v();
                        self.stack.push(&**e);
                        proof {
                            assert(self.stack_v() =~= sb + seq![(**e)@]);
                        }
                    },
                    _ => {
                        proof {
                            assert(self.stack_v() =~= s0.drop_last() + Seq::<CombV>::empty());
                        }
                    },
                }
                Some(item)
            },
        }
    }

    /// The formulas that the rest of the walk visits.
    pub closed spec fn rest(&self) -> Seq<CombV> {
        walk(self.stack_v())
    }

    /// The size of what the rest of the walk visits.
    pub closed spec fn remaining(&self) -> nat {
        lsize(self.stack_v())
    }

    /// A step of the walk: the next formula, then the rest.
    pub proof fn lemma_step(a: &Self, b: &Self, c: CombV)
        requires
            a.stack_v().len() > 0,
            c == a.stack_v().last(),
            b.stack_v() == a.stack_v().drop_last() + kids(c),
        ensures
            a.rest() == seq![c] + b.rest(),
            b.remaining() < a.remaining(),
    {
        lemma_walk_step(a.stack_v());
    }

    /// The walk is over when the stack is empty.
    pub proof fn lemma_done(a: &Self)
        requires
            a.stack_v().len() == 0,
        ensures
            a.rest() == Seq::<CombV>::empty(),
    {
    }
}

// ---------------------------------------------------------------------
// Words for grep

/// The models of a list of strings.
pub open spec fn texts_v(v: Seq<String>) -> Seq<Seq<char>> {
    Seq::new(v.len(), |i: int| v[i]@)
}

/// The error when no rule contributes to the result.
pub open spec fn false_on_top() -> Seq<char> {
    "No rules apply.  Perhaps your semantic patch doesn't contain any +/-/* code, or you have a failed dependency."@
}

/// The words of a set of `Elem` formulas.
pub open spec fn words_of(ws: Seq<CombV>) -> Seq<Seq<char>> {
    Seq::new(
        ws.len(),
        |i: int|
            match ws[i] {
                CombV::Elem(s) => s,
                _ => Seq::empty(),
            },
    )
}

/// One formula met in a walk that collects words: for grep (`grep`) or
/// for the atoms of a formula.  Words go into the set `acc`; a negation is
/// an error, and so are `True` and `False` for a strict grep.
pub open spec fn scan_step(acc: Seq<CombV>, x: CombV, grep: bool, strict: bool) -> Result<Seq<CombV>, Seq<char>> {
    match x {
        CombV::Elem(_) => Ok(set_insert(acc, x)),
        CombV::Not(_) => Err(
            if grep {
                "Not unexpected in grep arg"@
            } else {
                "Not unexpected in atoms"@
            },
        ),
        CombV::True => if !grep {
            Ok(acc)
        } else if strict {
            Err("True should not be in the final result"@)
        } else {
            Ok(set_insert(acc, CombV::Elem("True"@)))
        },
        CombV::False => if !grep {
            Ok(acc)
        } else if strict {
            Err(false_on_top())
        } else {
            Ok(set_insert(acc, CombV::Elem("False"@)))
        },
        _ => Ok(acc),
    }
}

/// The words collected from the formulas `w`, in turn; the first error
/// met otherwise.
pub open spec fn scan(w: Seq<CombV>, grep: bool, strict: bool) -> Result<Seq<CombV>, Seq<char>>
    decreases w.len(),
{
    if w.len() == 0 {
        Ok(Seq::empty())
    } else {
        match scan(w.drop_last(), grep, strict) {
            Err(e) => Err(e),
            Ok(acc) => scan_step(acc, w.last(), grep, strict),
        }
    }
}

proof fn lemma_scan_err(a: Seq<CombV>, b: Seq<CombV>, grep: bool, strict: bool)
    requires
        scan(a, grep, strict) is Err,
    ensures
        scan(a + b, grep, strict) == scan(a, grep, strict),
    decreases b.len(),
{
    if b.len() == 0 {
        assert(a + b =~= a);
    } else {
        lemma_scan_err(a, b.drop_last(), grep, strict);
        assert((a + b).drop_last() =~= a + b.drop_last());
    }
}

fn scan_exec(x: &Combine, grep: bool, strict: bool) -> (r: Result<Vec<Combine>, String>)
    ensures
        match scan(walk(seq![x@]), grep, strict) {
            Ok(ws) => r matches Ok(v) && combs_v(v) == ws,
            Err(e) => r matches Err(m) && m@ == e,
        },
{
    let ghost full = walk(seq![x@]);
    let mut it = CombineIterator::new(x);
    let mut acc: Vec<Combine> = Vec::new();
    let ghost mut done: Seq<CombV> = Seq::empty();
    proof {
        assert(combs_v(acc) =~= Seq::<CombV>::empty());
        assert(full =~= done + it.rest());
    }
    loop
        invariant
            full == walk(seq![x@]),
            full == done + it.rest(),
            scan(done, grep, strict) == Ok::<Seq<CombV>, Seq<char>>(combs_v(acc)),
        decreases it.remaining(),
    {
        let ghost before = it;
        match it.next() {
            None => {
                proof {
                    CombineIterator::lemma_done(&before);
                    assert(done =~= full);
                }
                return Ok(acc);
            },
            Some(c) => {
                proof {
                    CombineIterator::lemma_step(&before, &it, c@);
                    assert((done + seq![c@]).drop_last() =~= done);
                }
                match c {
                    Combine::Elem(_) => {
                        acc = set_insert_exec(&acc, c);
                    },
                    Combine::Not(_) => {
                        proof {
                            lemma_scan_err(done + seq![c@], it.rest(), grep, strict);
                            assert(full =~= (done + seq![c@]) + it.rest());
                        }
                        return Err(
                            if grep {
                                string_from("Not unexpected in grep arg")
                            } else {
                                string_from("Not unexpected in atoms")
                            },
                        );
                    },
                    Combine::True => {
                        if grep {
                            if strict {
                                proof {
                                    lemma_scan_err(done + seq![c@], it.rest(), grep, strict);
                                    assert(full =~= (done + seq![c@]) + it.rest());
                                }
                                return Err(string_from("True should not be in the final result"));
                            }
                            acc = set_insert_exec(&acc, &Combine::Elem(string_from("True")));
                        }
                    },
                    Combine::False => {
                        if grep {
                            if strict {
                                proof {
                                    lemma_scan_err(done + seq![c@], it.rest(), grep, strict);
                                    assert(full =~= (done + seq![c@]) + it.rest());
                                }
                                return Err(string_from(
                                    "No rules apply.  Perhaps your semantic patch doesn't contain any +/-/* code, or you have a failed dependency.",
                                ));
                            }
                            acc = set_insert_exec(&acc, &Combine::Elem(string_from("False")));
                        }
                    },
                    _ => {},
                }
                proof {
                    done = done + seq![c@];
                    assert(full =~= done + it.rest());
                }
            },
        }
    }
}

/// The words of a set of `Elem` formulas.
fn words_exec(v: &Vec<Combine>) -> (r: Vec<String>)
    ensures
        texts_v(r@) == words_of(combs_v(*v)),
{
    let mut r: Vec<String> = Vec::new();
    let mut i: usize = 0;
    while i < v.len()
        invariant
            i <= v@.len(),
            texts_v(r@) == words_of(combs_v(*v)).take(i as int),
        decreases v@.len() - i,
    {
        let w = match &v[i] {
            Combine::Elem(s) => string_of(&chars_of(s.as_str())),
            _ => String::new(),
        };
        let ghost rb = texts_v(r@);
        r.push(w);
        proof {
            assert(texts_v(r@) =~= rb.push(w@));
            assert(words_of(combs_v(*v)).take(i + 1) =~= words_of(combs_v(*v)).take(i as int).push(w@));
        }
        i = i + 1;
    }
    proof {
        assert(words_of(combs_v(*v)).take(v@.len() as int) =~= words_of(combs_v(*v)));
    }
    r
}

/// The words that a file must contain for grep, in order and each once:
/// `None` when nothing is required.
pub open spec fn grep_words(strict: bool, x: CombV) -> Result<Option<Seq<Seq<char>>>, Seq<char>> {
    if x is True {
        Ok(None)
    } else {
        match scan(walk(seq![x]), true, strict) {
            Err(e) => Err(e),
            Ok(ws) => Ok(Some(words_of(ws))),
        }
    }
}

/// The words of `x` for grep, in order and each once; `None` when `x` is
/// `True`.  A negation in `x` is an error; so are `True` and `False` within
/// it when `strict`, else they count as the words `True` and `False`.
pub fn interpret_grep(strict: bool, x: &Combine) -> (r: Result<Option<Vec<String>>, String>)
    ensures
        match grep_words(strict, x@) {
            Ok(None) => r matches Ok(None),
            Ok(Some(ws)) => r matches Ok(Some(v)) && texts_v(v@) == ws,
            Err(e) => r matches Err(m) && m@ == e,
        },
{
    if matches!(x, Combine::True) {
        return Ok(None);
    }
    match scan_exec(x, true, strict) {
        Ok(v) => Ok(Some(words_exec(&v))),
        Err(e) => Err(e),
    }
}

/// The words of `x`, as a set of `Elem` formulas; a negation in `x` is an
/// error.
pub fn atoms(dep: &Combine) -> (r: Result<Vec<Combine>, String>)
    ensures
        match scan(walk(seq![dep@]), false, false) {
            Ok(ws) => r matches Ok(v) && combs_v(v) == ws,
            Err(e) => r matches Err(m) && m@ == e,
        },
{
    scan_exec(dep, false, false)
}

// ---------------------------------------------------------------------
// Conjunctive normal form
//
// A formula in conjunctive normal form is an ordered set of clauses, each
// a disjunction (`Or`) of an ordered set of words (`Elem`).

/// Whether every element of `a` is in `b`.
pub open spec fn subset(a: Seq<CombV>, b: Seq<CombV>) -> bool {
    forall|i: int| 0 <= i < a.len() ==> in_set(b, #[trigger] a[i])
}

/// The formula with one empty clause, which nothing satisfies.
pub open spec fn false_cnf() -> Seq<CombV> {
    seq![CombV::Or(Seq::empty())]
}

/// The clauses of `cl` gathered in turn into a set, a clause left out when
/// it is a subset of one gathered already.
pub open spec fn big_and_f(cl: Seq<CombV>) -> Seq<CombV>
    decreases cl.len(),
{
    if cl.len() == 0 {
        Seq::empty()
    } else {
        let r = big_and_f(cl.drop_last());
        let x = cl.last();
        if exists|j: int| 0 <= j < r.len() && subset(ops(x), ops(#[trigger] r[j])) {
            r
        } else {
            set_insert(r, x)
        }
    }
}

/// The clauses of each of the formulas `cs`, in turn.
pub open spec fn flatten(cs: Seq<Seq<CombV>>) -> Seq<CombV>
    decreases cs.len(),
{
    if cs.len() == 0 {
        Seq::empty()
    } else {
        flatten(cs.drop_last()) + cs.last()
    }
}

/// The number of the formulas `cs` with more than one clause.
pub open spec fn count_big(cs: Seq<Seq<CombV>>) -> nat
    decreases cs.len(),
{
    if cs.len() == 0 {
        0
    } else {
        count_big(cs.drop_last()) + if cs.last().len() > 1 {
            1nat
        } else {
            0nat
        }
    }
}

/// The union of each clause of `cur` with each clause of `acc`, the clause
/// of `cur` varying slowest.
pub open spec fn cross_clauses(cur: Seq<CombV>, acc: Seq<CombV>) -> Seq<CombV>
    decreases cur.len(),
{
    if cur.len() == 0 {
        Seq::empty()
    } else {
        cross_clauses(cur.drop_last(), acc) + Seq::new(
            acc.len(),
            |j: int| CombV::Or(set_union(ops(cur.last()), ops(acc[j]))),
        )
    }
}

/// The disjunction of the formulas `cs`, distributed over their clauses.
pub open spec fn reduce_or(cs: Seq<Seq<CombV>>) -> Seq<CombV>
    decreases cs.len(),
{
    if cs.len() == 0 {
        false_cnf()
    } else if cs.len() == 1 {
        cs[0]
    } else {
        big_and_f(cross_clauses(cs.last(), reduce_or(cs.drop_last())))
    }
}

/// The most operands of a disjunction that may have more than one clause.
pub open spec fn max_cnf() -> nat {
    5
}

/// The conjunctive normal form of `dep`: `Ok(None)` when it would be too
/// large; an error for a negation, an empty conjunction or disjunction, or
/// `False` when `strict`.
pub open spec fn cnf_of(strict: bool, dep: CombV) -> Result<Option<Seq<CombV>>, Seq<char>>
    decreases dep, 0nat,
{
    match dep {
        CombV::Elem(_) => Ok(Some(seq![CombV::Or(seq![dep])])),
        CombV::Not(_) => Err("not unexpected in coccigrep arg"@),
        CombV::And(l) => if l.len() == 0 {
            Err("and should not be empty"@)
        } else {
            match cnf_list(strict, l, l.len() as int) {
                Err(e) => Err(e),
                Ok(None) => Ok(None),
                Ok(Some(cs)) => Ok(Some(big_and_f(flatten(cs)))),
            }
        },
        CombV::Or(l) => if l.len() == 0 {
            Err("or should not be empty"@)
        } else {
            match cnf_list(strict, l, l.len() as int) {
                Err(e) => Err(e),
                Ok(None) => Ok(None),
                Ok(Some(cs)) => if count_big(cs) > max_cnf() {
                    Ok(None)
                } else {
                    Ok(Some(reduce_or(cs)))
                },
            }
        },
        CombV::True => Ok(Some(Seq::empty())),
        CombV::False => if strict {
            Err(false_on_top())
        } else {
            Ok(Some(false_cnf()))
        },
    }
}

/// The forms of the first `k` formulas of `l`, stopping at the first that
/// is too large or an error.
pub open spec fn cnf_list(strict: bool, l: Seq<CombV>, k: int) -> Result<Option<Seq<Seq<CombV>>>, Seq<char>>
    decreases l, k,
{
    if k <= 0 || k > l.len() {
        Ok(Some(Seq::empty()))
    } else {
        match cnf_list(strict, l, k - 1) {
            Err(e) => Err(e),
            Ok(None) => Ok(None),
            Ok(Some(cs)) => match cnf_of(strict, l[k - 1]) {
                Err(e) => Err(e),
                Ok(None) => Ok(None),
                Ok(Some(c)) => Ok(Some(cs.push(c))),
            },
        }
    }
}

/// The formula with one empty clause.
pub fn mk_false() -> (r: Vec<Combine>)
    ensures
        combs_v(r) == false_cnf(),
{
    let e: Vec<Combine> = Vec::new();
    let mut r: Vec<Combine> = Vec::new();
    r.push(Combine::Or(e));
    proof {
        assert(combs_v(e) =~= Seq::<CombV>::empty());
        assert(combs_v(r) =~= false_cnf());
    }
    r
}

/// Whether every element of `a` is in `b`.
fn is_subset(a: &Vec<Combine>, b: &Vec<Combine>) -> (r: bool)
    ensures
        r == subset(combs_v(*a), combs_v(*b)),
{
    let ghost av = combs_v(*a);
    let mut i: usize = 0;
    while i < a.len()
        invariant
            i <= a@.len(),
            av == combs_v(*a),
            forall|j: int| 0 <= j < i ==> in_set(combs_v(*b), #[trigger] av[j]),
        decreases a@.len() - i,
    {
        proof {
            assert(av[i as int] == a@[i as int]@);
        }
        if !set_contains(b, &a[i]) {
            return false;
        }
        i = i + 1;
    }
    true
}

/// The clauses of `iter` gathered into a set, each left out when it is a
/// subset of one gathered already.
pub fn big_and(iter: &Vec<Combine>) -> (r: Vec<Combine>)
    ensures
        combs_v(r) == big_and_f(combs_v(*iter)),
{
    let ghost cv = combs_v(*iter);
    let mut res: Vec<Combine> = Vec::new();
    let mut i: usize = 0;
    proof {
        assert(cv.take(0) =~= Seq::<CombV>::empty());
        assert(combs_v(res) =~= Seq::<CombV>::empty());
    }
    while i < iter.len()
        invariant
            i <= iter@.len(),
            cv == combs_v(*iter),
            combs_v(res) == big_and_f(cv.take(i as int)),
        decreases iter@.len() - i,
    {
        proof {
            assert(cv.take(i + 1).drop_last() =~= cv.take(i as int));
            assert(cv.take(i + 1).last() == iter@[i as int]@);
        }
        let ghost rv = combs_v(res);
        let x = ops_exec(&iter[i]);
        let mut covered = false;
        let mut j: usize = 0;
        while j < res.len()
            invariant_except_break
                !covered,
                forall|q: int| 0 <= q < j ==> !subset(combs_v(x), ops(#[trigger] rv[q])),
            invariant
                j <= res@.len(),
                rv == combs_v(res),
            ensures
                covered == exists|q: int| 0 <= q < rv.len() && subset(combs_v(x), ops(#[trigger] rv[q])),
            decreases res@.len() - j,
        {
            proof {
                assert(rv[j as int] == res@[j as int]@);
            }
            if is_subset(&x, &ops_exec(&res[j])) {
                covered = true;
                break;
            }
            j = j + 1;
        }
        if !covered {
            res = set_insert_exec(&res, &iter[i]);
        }
        i = i + 1;
    }
    proof {
        assert(cv.take(iter@.len() as int) =~= cv);
    }
    res
}

fn flatten_exec(cs: &Vec<Vec<Combine>>) -> (r: Vec<Combine>)
    ensures
        combs_v(r) == flatten(Seq::new(cs@.len(), |i: int| combs_v(cs@[i]))),
{
    let ghost csv = Seq::new(cs@.len(), |i: int| combs_v(cs@[i]));
    let mut r: Vec<Combine> = Vec::new();
    let mut i: usize = 0;
    proof {
        assert(csv.take(0) =~= Seq::<Seq<CombV>>::empty());
        assert(combs_v(r) =~= Seq::<CombV>::empty());
    }
    while i < cs.len()
        invariant
            i <= cs@.len(),
            csv == Seq::new(cs@.len(), |i: int| combs_v(cs@[i])),
            combs_v(r) == flatten(csv.take(i as int)),
        decreases cs@.len() - i,
    {
        proof {
            assert(csv.take(i + 1).drop_last() =~= csv.take(i as int));
            assert(csv.take(i + 1).last() == combs_v(cs@[i as int]));
        }
        let ghost rb = combs_v(r);
        let mut c = copy_combs(&cs[i]);
        let ghost c0 = combs_v(c);
        r.append(&mut c);
        proof {
            assert(combs_v(r) =~= rb + c0);
        }
        i = i + 1;
    }
    proof {
        assert(csv.take(cs@.len() as int) =~= csv);
    }
    r
}

fn cross_exec(cur: &Vec<Combine>, acc: &Vec<Combine>) -> (r: Vec<Combine>)
    ensures
        combs_v(r) == cross_clauses(combs_v(*cur), combs_v(*acc)),
{
    let ghost cv = combs_v(*cur);
    let ghost av = combs_v(*acc);
    let mut r: Vec<Combine> = Vec::new();
    let mut i: usize = 0;
    proof {
        assert(cv.take(0) =~= Seq::<CombV>::empty());
        assert(combs_v(r) =~= Seq::<CombV>::empty());
    }
    while i < cur.len()
        invariant
            i <= cur@.len(),
            cv == combs_v(*cur),
            av == combs_v(*acc),
            combs_v(r) == cross_clauses(cv.take(i as int), av),
        decreases cur@.len() - i,
    {
        proof {
            assert(cv.take(i + 1).drop_last() =~= cv.take(i as int));
            assert(cv.take(i + 1).last() == cur@[i as int]@);
        }
        let ghost base = combs_v(r);
        let xs = ops_exec(&cur[i]);
        let mut j: usize = 0;
        while j < acc.len()
            invariant
                j <= acc@.len(),
                i < cur@.len(),
                cv == combs_v(*cur),
                av == combs_v(*acc),
                combs_v(xs) == ops(cv[i as int]),
                combs_v(r) == base + Seq::new(
                    j as nat,
                    |q: int| CombV::Or(set_union(ops(cv[i as int]), ops(av[q]))),
                ),
            decreases acc@.len() - j,
        {
            proof {
                assert(av[j as int] == acc@[j as int]@);
            }
            let u = set_union_exec(&xs, &ops_exec(&acc[j]));
            let ghost rb = combs_v(r);
            let item = Combine::Or(u);
            proof {
                assert(item@ == CombV::Or(set_union(ops(cv[i as int]), ops(av[j as int]))));
            }
            r.push(item);
            proof {
                assert(combs_v(r) =~= rb.push(item@));
                assert(combs_v(r) =~= base + Seq::new(
                    (j + 1) as nat,
                    |q: int| CombV::Or(set_union(ops(cv[i as int]), ops(av[q]))),
                ));
            }
            j = j + 1;
        }
        proof {
            assert(Seq::new(acc@.len() as nat, |q: int| CombV::Or(set_union(ops(cv[i as int]), ops(av[q]))))
                =~= Seq::new(av.len(), |q: int| CombV::Or(set_union(ops(cv.take(i + 1).last()), ops(av[q])))));
        }
        i = i + 1;
    }
    proof {
        assert(cv.take(cur@.len() as int) =~= cv);
    }
    r
}

/// The models of a list of formulas in normal form.
pub open spec fn cnfs_v(v: Seq<Vec<Combine>>) -> Seq<Seq<CombV>> {
    Seq::new(v.len(), |i: int| combs_v(v[i]))
}

proof fn lemma_cnf_list_stops(strict: bool, l: Seq<CombV>, k: int, n: int)
    requires
        0 < k <= n <= l.len(),
        !(cnf_list(strict, l, k) is Ok && cnf_list(strict, l, k)->Ok_0 is Some),
    ensures
        cnf_list(strict, l, n) == cnf_list(strict, l, k),
    decreases n - k,
{
    if k < n {
        lemma_cnf_list_stops(strict, l, k, n - 1);
    }
}

fn count_big_exec(cs: &Vec<Vec<Combine>>) -> (r: usize)
    ensures
        r == count_big(cnfs_v(cs@)),
{
    let ghost cv = cnfs_v(cs@);
    let mut n: usize = 0;
    let mut i: usize = 0;
    proof {
        assert(cv.take(0) =~= Seq::<Seq<CombV>>::empty());
    }
    while i < cs.len()
        invariant
            i <= cs@.len(),
            cv == cnfs_v(cs@),
            n == count_big(cv.take(i as int)),
            n <= i,
        decreases cs@.len() - i,
    {
        proof {
            assert(cv.take(i + 1).drop_last() =~= cv.take(i as int));
            assert(cv.take(i + 1).last() == combs_v(cs@[i as int]));
        }
        if cs[i].len() > 1 {
            n = n + 1;
        }
        i = i + 1;
    }
    proof {
        assert(cv.take(cs@.len() as int) =~= cv);
    }
    n
}

fn reduce_or_exec(cs: &Vec<Vec<Combine>>) -> (r: Vec<Combine>)
    ensures
        combs_v(r) == reduce_or(cnfs_v(cs@)),
{
    let ghost cv = cnfs_v(cs@);
    if cs.len() == 0 {
        return mk_false();
    }
    let mut acc = copy_combs(&cs[0]);
    let mut k: usize = 1;
    proof {
        assert(cv.take(1).len() == 1);
        assert(cv.take(1)[0] == combs_v(cs@[0]));
    }
    while k < cs.len()
        invariant
            1 <= k <= cs@.len(),
            cv == cnfs_v(cs@),
            combs_v(acc) == reduce_or(cv.take(k as int)),
        decreases cs@.len() - k,
    {
        proof {
            assert(cv.take(k + 1).drop_last() =~= cv.take(k as int));
            assert(cv.take(k + 1).last() == combs_v(cs@[k as int]));
        }
        acc = big_and(&cross_exec(&cs[k], &acc));
        k = k + 1;
    }
    proof {
        assert(cv.take(cs@.len() as int) =~= cv);
    }
    acc
}

/// The conjunctive normal form of `dep`, as `cnf_of` says.
pub fn cnf(strict: bool, dep: &Combine) -> (r: Result<Option<Vec<Combine>>, String>)
    ensures
        match cnf_of(strict, dep@) {
            Ok(None) => r matches Ok(None),
            Ok(Some(c)) => r matches Ok(Some(v)) && combs_v(v) == c,
            Err(e) => r matches Err(m) && m@ == e,
        },
    decreases dep,
{
    match dep {
        Combine::Elem(_) => {
            let mut clause: Vec<Combine> = Vec::new();
            clause.push(dep.copy());
            let mut v: Vec<Combine> = Vec::new();
            v.push(Combine::Or(clause));
            proof {
                assert(combs_v(clause) =~= seq![dep@]);
                assert(combs_v(v) =~= seq![CombV::Or(seq![dep@])]);
            }
            Ok(Some(v))
        },
        Combine::Not(_) => Err(string_from("not unexpected in coccigrep arg")),
        Combine::True => {
            let v: Vec<Combine> = Vec::new();
            proof {
                assert(combs_v(v) =~= Seq::<CombV>::empty());
            }
            Ok(Some(v))
        },
        Combine::False => {
            if strict {
                Err(string_from(
                    "No rules apply.  Perhaps your semantic patch doesn't contain any +/-/* code, or you have a failed dependency.",
                ))
            } else {
                Ok(Some(mk_false()))
            }
        },
        Combine::And(l) => {
            if l.len() == 0 {
                proof {
                    assert(combs_v(*l).len() == 0);
                }
                return Err(string_from("and should not be empty"));
            }
            match cnf_children(strict, l) {
                Err(e) => Err(e),
                Ok(None) => Ok(None),
                Ok(Some(cs)) => Ok(Some(big_and(&flatten_exec(&cs)))),
            }
        },
        Combine::Or(l) => {
            if l.len() == 0 {
                proof {
                    assert(combs_v(*l).len() == 0);
                }
                return Err(string_from("or should not be empty"));
            }
            match cnf_children(strict, l) {
                Err(e) => Err(e),
                Ok(None) => Ok(None),
                Ok(Some(cs)) => {
                    if count_big_exec(&cs) > 5 {
                        Ok(None)
                    } else {
                        Ok(Some(reduce_or_exec(&cs)))
                    }
                },
            }
        },
    }
}

fn cnf_children(strict: bool, l: &Vec<Combine>) -> (r: Result<Option<Vec<Vec<Combine>>>, String>)
    ensures
        match cnf_list(strict, combs_v(*l), l@.len() as int) {
            Ok(None) => r matches Ok(None),
            Ok(Some(c)) => r matches Ok(Some(v)) && cnfs_v(v@) == c,
            Err(e) => r matches Err(m) && m@ == e,
        },
    decreases l,
{
    let ghost lv = combs_v(*l);
    let mut cs: Vec<Vec<Combine>> = Vec::new();
    let mut i: usize = 0;
    proof {
        assert(cnfs_v(cs@) =~= Seq::<Seq<CombV>>::empty());
    }
    while i < l.len()
        invariant
            i <= l@.len(),
            lv == combs_v(*l),
            cnf_list(strict, lv, i as int) == Ok::<Option<Seq<Seq<CombV>>>, Seq<char>>(Some(cnfs_v(cs@))),
        decreases l@.len() - i,
    {
        proof {
            assert(decreases_to!(l => l@[i as int]));
            assert(lv[i as int] == l@[i as int]@);
        }
        match cnf(strict, &l[i]) {
            Err(e) => {
                proof {
                    lemma_cnf_list_stops(strict, lv, i + 1, lv.len() as int);
                }
                return Err(e);
            },
            Ok(None) => {
                proof {
                    lemma_cnf_list_stops(strict, lv, i + 1, lv.len() as int);
                }
                return Ok(None);
            },
            Ok(Some(c)) => {
                let ghost before = cnfs_v(cs@);
                cs.push(c);
                proof {
                    assert(cnfs_v(cs@) =~= before.push(combs_v(c)));
                }
            },
        }
        i = i + 1;
    }
    Ok(Some(cs))
}

// ---------------------------------------------------------------------
// Ordering and splitting the clauses

/// Whether clause `a` goes before clause `b` when clauses are ordered by
/// decreasing size, then decreasing order.
pub open spec fn key_before(a: CombV, b: CombV) -> bool {
    ops(a).len() > ops(b).len() || (ops(a).len() == ops(b).len() && comb_order(a, b) > 0)
}

/// `s` with `x` inserted before the first clause that it goes before.
pub open spec fn desc_insert(s: Seq<CombV>, x: CombV) -> Seq<CombV>
    decreases s.len(),
{
    if s.len() == 0 {
        seq![x]
    } else if key_before(x, s[0]) {
        seq![x] + s
    } else {
        seq![s[0]] + desc_insert(s.skip(1), x)
    }
}

/// The clauses of `s` ordered by decreasing size, then decreasing order.
pub open spec fn sort_desc(s: Seq<CombV>) -> Seq<CombV>
    decreases s.len(),
{
    if s.len() == 0 {
        Seq::empty()
    } else {
        desc_insert(sort_desc(s.drop_last()), s.last())
    }
}

/// The clauses of `l`, largest first, each left out when a subset of a
/// clause kept before it.
pub open spec fn optimize_f(l: Seq<CombV>) -> Seq<CombV> {
    big_and_f(sort_desc(l))
}

fn key_before_exec(a: &Combine, b: &Combine) -> (r: bool)
    ensures
        r == key_before(a@, b@),
{
    let la = ops_exec(a).len();
    let lb = ops_exec(b).len();
    la > lb || (la == lb && compare_comb(a, b) > 0)
}

fn desc_insert_exec(s: &Vec<Combine>, x: &Combine) -> (r: Vec<Combine>)
    ensures
        combs_v(r) == desc_insert(combs_v(*s), x@),
{
    let ghost sv = combs_v(*s);
    let mut r: Vec<Combine> = Vec::new();
    let mut i: usize = 0;
    proof {
        assert(sv.skip(0) =~= sv);
        assert(combs_v(r) =~= sv.take(0));
    }
    while i < s.len()
        invariant
            i <= s@.len(),
            sv == combs_v(*s),
            combs_v(r) == sv.take(i as int),
            desc_insert(sv, x@) == sv.take(i as int) + desc_insert(sv.skip(i as int), x@),
        decreases s@.len() - i,
    {
        proof {
            assert(sv.skip(i as int)[0] == s@[i as int]@);
            assert(sv.skip(i as int).skip(1) =~= sv.skip(i + 1));
        }
        if key_before_exec(x, &s[i]) {
            let ghost r0 = combs_v(r);
            r.push(x.copy());
            let mut j: usize = i;
            while j < s.len()
                invariant
                    i <= j <= s@.len(),
                    sv == combs_v(*s),
                    combs_v(r) == r0.push(x@) + sv.subrange(i as int, j as int),
                decreases s@.len() - j,
            {
                let ghost rb = combs_v(r);
                r.push(s[j].copy());
                proof {
                    assert(combs_v(r) =~= rb.push(sv[j as int]));
                    assert(sv.subrange(i as int, j + 1) =~= sv.subrange(i as int, j as int).push(sv[j as int]));
                }
                j = j + 1;
            }
            proof {
                assert(combs_v(r) =~= sv.take(i as int) + (seq![x@] + sv.skip(i as int)));
            }
            return r;
        }
        let ghost rb = combs_v(r);
        r.push(s[i].copy());
        proof {
            assert(combs_v(r) =~= rb.push(sv[i as int]));
            assert(sv.take(i + 1) =~= sv.take(i as int).push(sv[i as int]));
            assert(sv.take(i as int) + (seq![sv[i as int]] + desc_insert(sv.skip(i + 1), x@)) =~= sv.take(i + 1)
                + desc_insert(sv.skip(i + 1), x@));
        }
        i = i + 1;
    }
    let ghost rb = combs_v(r);
    r.push(x.copy());
    proof {
        assert(combs_v(r) =~= rb.push(x@));
        assert(sv.take(i as int) =~= sv);
        assert(sv.skip(i as int) =~= Seq::<CombV>::empty());
    }
    r
}

/// The clauses of `l`, largest first, each left out when it is a subset of
/// a clause kept before it.
pub fn optimize(l: &Vec<Combine>) -> (r: Vec<Combine>)
    ensures
        combs_v(r) == optimize_f(combs_v(*l)),
{
    let ghost lv = combs_v(*l);
    let mut sorted: Vec<Combine> = Vec::new();
    let mut i: usize = 0;
    proof {
        assert(lv.take(0) =~= Seq::<CombV>::empty());
        assert(combs_v(sorted) =~= Seq::<CombV>::empty());
    }
    while i < l.len()
        invariant
            i <= l@.len(),
            lv == combs_v(*l),
            combs_v(sorted) == sort_desc(lv.take(i as int)),
        decreases l@.len() - i,
    {
        proof {
            assert(lv.take(i + 1).drop_last() =~= lv.take(i as int));
            assert(lv.take(i + 1).last() == l@[i as int]@);
        }
        sorted = desc_insert_exec(&sorted, &l[i]);
        i = i + 1;
    }
    proof {
        assert(lv.take(l@.len() as int) =~= lv);
    }
    big_and(&sorted)
}

/// The words of the clauses of `l`, clause after clause.
pub open spec fn clause_words(l: Seq<CombV>) -> Seq<CombV> {
    flatten(Seq::new(l.len(), |i: int| ops(l[i])))
}

/// The first index from `i` on of a pair of `t` for the word `w`.
pub open spec fn tally_index(t: Seq<(CombV, nat)>, w: CombV, i: int) -> Option<int>
    decreases t.len() - i,
{
    if i < 0 || i >= t.len() {
        None
    } else if t[i].0 == w {
        Some(i)
    } else {
        tally_index(t, w, i + 1)
    }
}

/// The count of each word of `ws`, in the order the words first occur.
pub open spec fn tally(ws: Seq<CombV>) -> Seq<(CombV, nat)>
    decreases ws.len(),
{
    if ws.len() == 0 {
        Seq::empty()
    } else {
        let t = tally(ws.drop_last());
        let w = ws.last();
        match tally_index(t, w, 0) {
            Some(i) => t.update(i, (w, t[i].1 + 1)),
            None => t.push((w, 1)),
        }
    }
}

/// `s` with `p` inserted after every pair whose count is not larger.
pub open spec fn count_insert(s: Seq<(CombV, nat)>, p: (CombV, nat)) -> Seq<(CombV, nat)>
    decreases s.len(),
{
    if s.len() == 0 {
        seq![p]
    } else if s[0].1 > p.1 {
        seq![p] + s
    } else {
        seq![s[0]] + count_insert(s.skip(1), p)
    }
}

/// The pairs of `t` ordered by count, pairs of equal count in their order.
pub open spec fn count_sort(t: Seq<(CombV, nat)>) -> Seq<(CombV, nat)>
    decreases t.len(),
{
    if t.len() == 0 {
        Seq::empty()
    } else {
        count_insert(count_sort(t.drop_last()), t.last())
    }
}

/// The words of the clauses `l` with the number of clauses holding each,
/// fewest first; words of equal count in the order they first occur.
pub open spec fn count_atoms_f(l: Seq<CombV>) -> Seq<(CombV, nat)> {
    count_sort(tally(clause_words(l)))
}

/// The models of a list of words with counts.
pub open spec fn tally_v(v: Seq<(Combine, usize)>) -> Seq<(CombV, nat)> {
    Seq::new(v.len(), |i: int| (v[i].0@, v[i].1 as nat))
}

fn clause_words_exec(l: &Vec<Combine>) -> (r: Vec<Combine>)
    ensures
        combs_v(r) == clause_words(combs_v(*l)),
{
    let ghost lv = combs_v(*l);
    let ghost cs = Seq::new(lv.len(), |i: int| ops(lv[i]));
    let mut r: Vec<Combine> = Vec::new();
    let mut i: usize = 0;
    proof {
        assert(cs.take(0) =~= Seq::<Seq<CombV>>::empty());
        assert(combs_v(r) =~= Seq::<CombV>::empty());
    }
    while i < l.len()
        invariant
            i <= l@.len(),
            lv == combs_v(*l),
            cs == Seq::new(lv.len(), |i: int| ops(lv[i])),
            combs_v(r) == flatten(cs.take(i as int)),
        decreases l@.len() - i,
    {
        proof {
            assert(cs.take(i + 1).drop_last() =~= cs.take(i as int));
            assert(cs.take(i + 1).last() == ops(l@[i as int]@));
        }
        let ghost rb = combs_v(r);
        let mut w = ops_exec(&l[i]);
        let ghost wv = combs_v(w);
        r.append(&mut w);
        proof {
            assert(combs_v(r) =~= rb + wv);
        }
        i = i + 1;
    }
    proof {
        assert(cs.take(l@.len() as int) =~= cs);
    }
    r
}

proof fn lemma_tally_index(t: Seq<(CombV, nat)>, w: CombV, i: int)
    requires
        0 <= i,
    ensures
        tally_index(t, w, i) matches Some(k) ==> i <= k < t.len() && t[k].0 == w,
        tally_index(t, w, i) is None ==> forall|k: int| i <= k < t.len() ==> t[k].0 != w,
    decreases t.len() - i,
{
    if 0 <= i < t.len() && t[i].0 != w {
        lemma_tally_index(t, w, i + 1);
    }
}

fn count_insert_exec(s: &Vec<(Combine, usize)>, p: (Combine, usize)) -> (r: Vec<(Combine, usize)>)
    ensures
        tally_v(r@) == count_insert(tally_v(s@), (p.0@, p.1 as nat)),
{
    let ghost sv = tally_v(s@);
    let ghost pv = (p.0@, p.1 as nat);
    let mut r: Vec<(Combine, usize)> = Vec::new();
    let mut i: usize = 0;
    proof {
        assert(sv.skip(0) =~= sv);
        assert(tally_v(r@) =~= sv.take(0));
    }
    while i < s.len()
        invariant
            i <= s@.len(),
            sv == tally_v(s@),
            pv == (p.0@, p.1 as nat),
            tally_v(r@) == sv.take(i as int),
            count_insert(sv, pv) == sv.take(i as int) + count_insert(sv.skip(i as int), pv),
        decreases s@.len() - i,
    {
        proof {
            assert(sv.skip(i as int)[0] == sv[i as int]);
            assert(sv.skip(i as int).skip(1) =~= sv.skip(i + 1));
        }
        if s[i].1 > p.1 {
            let ghost r0 = tally_v(r@);
            r.push(p);
            let mut j: usize = i;
            while j < s.len()
                invariant
                    i <= j <= s@.len(),
                    sv == tally_v(s@),
                    tally_v(r@) == r0.push(pv) + sv.subrange(i as int, j as int),
                decreases s@.len() - j,
            {
                let ghost rb = tally_v(r@);
                r.push((s[j].0.copy(), s[j].1));
                proof {
                    assert(tally_v(r@) =~= rb.push(sv[j as int]));
                    assert(sv.subrange(i as int, j + 1) =~= sv.subrange(i as int, j as int).push(sv[j as int]));
                }
                j = j + 1;
            }
            proof {
                assert(tally_v(r@) =~= sv.take(i as int) + (seq![pv] + sv.skip(i as int)));
            }
            return r;
        }
        let ghost rb = tally_v(r@);
        r.push((s[i].0.copy(), s[i].1));
        proof {
            assert(tally_v(r@) =~= rb.push(sv[i as int]));
            assert(sv.take(i + 1) =~= sv.take(i as int).push(sv[i as int]));
            assert(sv.take(i as int) + (seq![sv[i as int]] + count_insert(sv.skip(i + 1), pv)) =~= sv.take(i + 1)
                + count_insert(sv.skip(i + 1), pv));
        }
        i = i + 1;
    }
    let ghost rb = tally_v(r@);
    r.push(p);
    proof {
        assert(tally_v(r@) =~= rb.push(pv));
        assert(sv.take(i as int) =~= sv);
        assert(sv.skip(i as int) =~= Seq::<(CombV, nat)>::empty());
    }
    r
}

/// The words of the clauses `l` with the number of occurrences of each,
/// fewest first, words of equal count in the order they first occur.
pub fn count_atoms(l: &Vec<Combine>) -> (r: Vec<(Combine, usize)>)
    ensures
        tally_v(r@) == count_atoms_f(combs_v(*l)),
{
    let words = clause_words_exec(l);
    let ghost wv = combs_v(words);
    let mut t: Vec<(Combine, usize)> = Vec::new();
    let mut i: usize = 0;
    proof {
        assert(wv.take(0) =~= Seq::<CombV>::empty());
        assert(tally_v(t@) =~= Seq::<(CombV, nat)>::empty());
    }
    while i < words.len()
        invariant
            i <= words@.len(),
            wv == combs_v(words),
            tally_v(t@) == tally(wv.take(i as int)),
            forall|j: int| 0 <= j < t@.len() ==> #[trigger] t@[j].1 <= i,
        decreases words@.len() - i,
    {
        proof {
            assert(wv.take(i + 1).drop_last() =~= wv.take(i as int));
            assert(wv.take(i + 1).last() == words@[i as int]@);
        }
        let ghost tv = tally_v(t@);
        let mut k: usize = 0;
        while k < t.len()
            invariant_except_break
                forall|q: int| 0 <= q < k ==> tv[q].0 != words@[i as int]@,
            invariant
                k <= t@.len(),
                tv == tally_v(t@),
                i < words@.len(),
            ensures
                k < t@.len() ==> tv[k as int].0 == words@[i as int]@ && forall|q: int|
                    0 <= q < k ==> tv[q].0 != words@[i as int]@,
                k == t@.len() ==> forall|q: int| 0 <= q < t@.len() ==> tv[q].0 != words@[i as int]@,
            decreases t@.len() - k,
        {
            if t[k].0.equals(&words[i]) {
                break;
            }
            k = k + 1;
        }
        proof {
            lemma_tally_index(tv, words@[i as int]@, 0);
            if k < t@.len() {
                assert(tally_index(tv, words@[i as int]@, 0) == Some(k as int)) by {
                    lemma_first_index(tv, words@[i as int]@, k as int);
                }
            }
        }
        if k < t.len() {
            let c = t[k].1;
            let w = t[k].0.copy();
            t.set(k, (w, c + 1));
            proof {
                assert(tally_v(t@) =~= tv.update(k as int, (words@[i as int]@, tv[k as int].1 + 1)));
            }
        } else {
            t.push((words[i].copy(), 1));
            proof {
                assert(tally_v(t@) =~= tv.push((words@[i as int]@, 1)));
            }
        }
        i = i + 1;
    }
    proof {
        assert(wv.take(words@.len() as int) =~= wv);
    }
    let ghost tv = tally_v(t@);
    let mut sorted: Vec<(Combine, usize)> = Vec::new();
    let mut j: usize = 0;
    proof {
        assert(tv.take(0) =~= Seq::<(CombV, nat)>::empty());
        assert(tally_v(sorted@) =~= Seq::<(CombV, nat)>::empty());
    }
    while j < t.len()
        invariant
            j <= t@.len(),
            tv == tally_v(t@),
            tally_v(sorted@) == count_sort(tv.take(j as int)),
        decreases t@.len() - j,
    {
        proof {
            assert(tv.take(j + 1).drop_last() =~= tv.take(j as int));
            assert(tv.take(j + 1).last() == tv[j as int]);
        }
        sorted = count_insert_exec(&sorted, (t[j].0.copy(), t[j].1));
        j = j + 1;
    }
    proof {
        assert(tv.take(t@.len() as int) =~= tv);
    }
    sorted
}

proof fn lemma_first_index(t: Seq<(CombV, nat)>, w: CombV, k: int)
    requires
        0 <= k < t.len(),
        t[k].0 == w,
        forall|q: int| 0 <= q < k ==> t[q].0 != w,
    ensures
        tally_index(t, w, 0) == Some(k),
{
    lemma_first_index_from(t, w, k, 0);
}

proof fn lemma_first_index_from(t: Seq<(CombV, nat)>, w: CombV, k: int, i: int)
    requires
        0 <= i <= k < t.len(),
        t[k].0 == w,
        forall|q: int| i <= q < k ==> t[q].0 != w,
    ensures
        tally_index(t, w, i) == Some(k),
    decreases k - i,
{
    if i < k {
        lemma_first_index_from(t, w, k, i + 1);
    }
}

/// The clauses of `avail` that hold the word `e`, their words gathered
/// into a set; and the other clauses, in order.
pub open spec fn gather(e: CombV, avail: Seq<CombV>) -> (Seq<CombV>, Seq<CombV>)
    decreases avail.len(),
{
    if avail.len() == 0 {
        (Seq::empty(), Seq::empty())
    } else {
        let (added, kept) = gather(e, avail.drop_last());
        let l = avail.last();
        if in_set(ops(l), e) {
            (set_union(added, ops(l)), kept)
        } else {
            (added, kept.push(l))
        }
    }
}

/// The clauses of `avail` that are not subsets of `added`, in order.
pub open spec fn not_within(avail: Seq<CombV>, added: Seq<CombV>) -> Seq<CombV>
    decreases avail.len(),
{
    if avail.len() == 0 {
        Seq::empty()
    } else {
        let p = not_within(avail.drop_last(), added);
        if subset(ops(avail.last()), added) {
            p
        } else {
            p.push(avail.last())
        }
    }
}

/// The clause `res` extended by the words of every clause of `avail` that
/// holds `e`; and the clauses of `avail` left: those without `e` that are
/// not subsets of the words added.
pub open spec fn extend_f(e: CombV, res: Seq<CombV>, avail: Seq<CombV>) -> (Seq<CombV>, Seq<CombV>) {
    let (added, kept) = gather(e, avail);
    (set_union(res, added), not_within(kept, added))
}

/// Extends the clause `res` by the words of every clause of `available`
/// that holds `element`, and drops from `available` those clauses and the
/// clauses that the words added cover.
pub fn extend(element: &Combine, res: &mut Vec<Combine>, available: &mut Vec<Combine>)
    ensures
        (combs_v(*final(res)), combs_v(*final(available))) == extend_f(element@, combs_v(*old(res)), combs_v(*old(available))),
{
    let ghost av = combs_v(*available);
    let mut added: Vec<Combine> = Vec::new();
    let mut kept: Vec<Combine> = Vec::new();
    let mut i: usize = 0;
    proof {
        assert(av.take(0) =~= Seq::<CombV>::empty());
        assert(combs_v(added) =~= Seq::<CombV>::empty());
        assert(combs_v(kept) =~= Seq::<CombV>::empty());
    }
    while i < available.len()
        invariant
            i <= available@.len(),
            av == combs_v(*available),
            (combs_v(added), combs_v(kept)) == gather(element@, av.take(i as int)),
        decreases available@.len() - i,
    {
        proof {
            assert(av.take(i + 1).drop_last() =~= av.take(i as int));
            assert(av.take(i + 1).last() == available@[i as int]@);
        }
        let l = ops_exec(&available[i]);
        if set_contains(&l, element) {
            added = set_union_exec(&added, &l);
        } else {
            let ghost kb = combs_v(kept);
            kept.push(available[i].copy());
            proof {
                assert(combs_v(kept) =~= kb.push(available@[i as int]@));
            }
        }
        i = i + 1;
    }
    proof {
        assert(av.take(available@.len() as int) =~= av);
    }
    let ghost kv = combs_v(kept);
    let mut left: Vec<Combine> = Vec::new();
    let mut j: usize = 0;
    proof {
        assert(kv.take(0) =~= Seq::<CombV>::empty());
        assert(combs_v(left) =~= Seq::<CombV>::empty());
    }
    while j < kept.len()
        invariant
            j <= kept@.len(),
            kv == combs_v(kept),
            combs_v(left) == not_within(kv.take(j as int), combs_v(added)),
        decreases kept@.len() - j,
    {
        proof {
            assert(kv.take(j + 1).drop_last() =~= kv.take(j as int));
            assert(kv.take(j + 1).last() == kept@[j as int]@);
        }
        if !is_subset(&ops_exec(&kept[j]), &added) {
            let ghost lb = combs_v(left);
            left.push(kept[j].copy());
            proof {
                assert(combs_v(left) =~= lb.push(kept@[j as int]@));
            }
        }
        j = j + 1;
    }
    proof {
        assert(kv.take(kept@.len() as int) =~= kv);
    }
    *res = set_union_exec(res, &added);
    *available = left;
}

/// Clauses gathered from both ends of the words `tbl[lo..hi]` in turn: the
/// clauses of the first word left extend the left clause, those of the
/// last word the right clause, while clauses are left; a single word left
/// in the middle adds every word left to the left clause.  The two
/// clauses, and the clauses left.
pub open spec fn lr_f(tbl: Seq<CombV>, lo: int, hi: int, left: Seq<CombV>, right: Seq<CombV>, avail: Seq<CombV>) -> (
    Seq<CombV>,
    Seq<CombV>,
    Seq<CombV>,
)
    decreases hi - lo,
{
    if avail.len() == 0 || lo >= hi {
        (left, right, avail)
    } else if lo + 1 < hi {
        let (l2, a2) = extend_f(tbl[lo], left, avail);
        let (r2, a3) = extend_f(tbl[hi - 1], right, a2);
        lr_f(tbl, lo + 1, hi - 1, l2, r2, a3)
    } else {
        (set_union(left, clause_words(avail)), right, avail)
    }
}

/// The left and right clauses gathered from the words `tbl`, as `lr_f`
/// says; `available` becomes the clauses left.
pub fn leftres_rightres(tbl: &Vec<Combine>, available: &mut Vec<Combine>) -> (r: (Vec<Combine>, Vec<Combine>))
    ensures
        (combs_v(r.0), combs_v(r.1), combs_v(*final(available))) == lr_f(
            combs_v(*tbl),
            0,
            tbl@.len() as int,
            Seq::empty(),
            Seq::empty(),
            combs_v(*old(available)),
        ),
{
    let ghost tv = combs_v(*tbl);
    let mut leftres: Vec<Combine> = Vec::new();
    let mut rightres: Vec<Combine> = Vec::new();
    let mut lo: usize = 0;
    let mut hi: usize = tbl.len();
    proof {
        assert(combs_v(leftres) =~= Seq::<CombV>::empty());
        assert(combs_v(rightres) =~= Seq::<CombV>::empty());
    }
    let ghost goal = lr_f(tv, 0, tbl@.len() as int, Seq::empty(), Seq::empty(), combs_v(*available));
    while available.len() > 0 && lo < hi
        invariant
            lo <= hi <= tbl@.len(),
            tv == combs_v(*tbl),
            lr_f(tv, lo as int, hi as int, combs_v(leftres), combs_v(rightres), combs_v(*available)) == goal,
        decreases hi - lo,
    {
        proof {
            assert(tv[lo as int] == tbl@[lo as int]@);
        }
        if lo + 1 < hi {
            proof {
                assert(tv[hi - 1] == tbl@[hi - 1]@);
            }
            extend(&tbl[lo], &mut leftres, available);
            extend(&tbl[hi - 1], &mut rightres, available);
            lo = lo + 1;
            hi = hi - 1;
        } else {
            leftres = set_union_exec(&leftres, &clause_words_exec(available));
            lo = lo + 1;
            proof {
                assert(lr_f(tv, lo as int, hi as int, combs_v(leftres), combs_v(rightres), combs_v(*available)) == (
                    combs_v(leftres),
                    combs_v(rightres),
                    combs_v(*available),
                ));
            }
        }
    }
    (leftres, rightres)
}

/// The words kept for both ends, the clauses left, and the clauses made so
/// far after the first `k` words with counts of `tbl`: a word held by one
/// clause only makes its own clause.
pub open spec fn split_scan(tbl: Seq<(CombV, nat)>, l: Seq<CombV>, k: int) -> (Seq<CombV>, Seq<CombV>, Seq<CombV>)
    decreases k,
{
    if k <= 0 || k > tbl.len() {
        (Seq::empty(), l, Seq::empty())
    } else {
        let (kept, avail, pre) = split_scan(tbl, l, k - 1);
        let (f, ct) = tbl[k - 1];
        if ct > 1 {
            (kept.push(f), avail, pre)
        } else {
            let (res, a2) = extend_f(f, Seq::empty(), avail);
            (
                kept,
                a2,
                if res.len() > 0 {
                    set_insert(pre, CombV::Or(res))
                } else {
                    pre
                },
            )
        }
    }
}

/// The clauses `l` regrouped into fewer clauses for searching.
pub open spec fn split_f(l: Seq<CombV>) -> Seq<CombV> {
    let tbl = count_atoms_f(l);
    let (kept, avail, pre) = split_scan(tbl, l, tbl.len() as int);
    let (left, right, _) = lr_f(kept, 0, kept.len() as int, Seq::empty(), Seq::empty(), avail);
    let p1 = if left.len() > 0 {
        set_insert(pre, CombV::Or(left))
    } else {
        pre
    };
    if right.len() > 0 {
        set_insert(p1, CombV::Or(right))
    } else {
        p1
    }
}

/// The clauses `l` regrouped as `split_f` says.
pub fn split(l: &Vec<Combine>) -> (r: Vec<Combine>)
    ensures
        combs_v(r) == split_f(combs_v(*l)),
{
    let ghost lv = combs_v(*l);
    let tbl = count_atoms(l);
    let ghost tv = tally_v(tbl@);
    let mut available = copy_combs(l);
    let mut preres: Vec<Combine> = Vec::new();
    let mut kept: Vec<Combine> = Vec::new();
    let mut k: usize = 0;
    proof {
        assert(combs_v(preres) =~= Seq::<CombV>::empty());
        assert(combs_v(kept) =~= Seq::<CombV>::empty());
    }
    while k < tbl.len()
        invariant
            k <= tbl@.len(),
            lv == combs_v(*l),
            tv == tally_v(tbl@),
            (combs_v(kept), combs_v(available), combs_v(preres)) == split_scan(tv, lv, k as int),
        decreases tbl@.len() - k,
    {
        proof {
            assert(tv[k as int] == (tbl@[k as int].0@, tbl@[k as int].1 as nat));
        }
        if tbl[k].1 > 1 {
            let ghost kb = combs_v(kept);
            kept.push(tbl[k].0.copy());
            proof {
                assert(combs_v(kept) =~= kb.push(tbl@[k as int].0@));
            }
        } else {
            let mut res: Vec<Combine> = Vec::new();
            proof {
                assert(combs_v(res) =~= Seq::<CombV>::empty());
            }
            extend(&tbl[k].0, &mut res, &mut available);
            if res.len() > 0 {
                preres = set_insert_exec(&preres, &Combine::Or(res));
            }
        }
        k = k + 1;
    }
    let (leftres, rightres) = leftres_rightres(&kept, &mut available);
    if leftres.len() > 0 {
        preres = set_insert_exec(&preres, &Combine::Or(leftres));
    }
    if rightres.len() > 0 {
        preres = set_insert_exec(&preres, &Combine::Or(rightres));
    }
    preres
}

// ---------------------------------------------------------------------
// Queries

/// The texts `parts` with `sep` between each two.
pub open spec fn sep_join(parts: Seq<Seq<char>>, sep: Seq<char>) -> Seq<char>
    decreases parts.len(),
{
    if parts.len() == 0 {
        Seq::empty()
    } else if parts.len() == 1 {
        parts[0]
    } else {
        sep_join(parts.drop_last(), sep) + sep + parts.last()
    }
}

/// The strings `iterable` with `sep` between each two.
pub fn separated_list(sep: &str, iterable: &Vec<String>) -> (r: String)
    ensures
        r@ == sep_join(texts_v(iterable@), sep@),
{
    let ghost tv = texts_v(iterable@);
    let mut out: Vec<char> = Vec::new();
    let mut i: usize = 0;
    proof {
        assert(tv.take(0) =~= Seq::<Seq<char>>::empty());
    }
    while i < iterable.len()
        invariant
            i <= iterable@.len(),
            tv == texts_v(iterable@),
            out@ == sep_join(tv.take(i as int), sep@),
        decreases iterable@.len() - i,
    {
        proof {
            assert(tv.take(i + 1).drop_last() =~= tv.take(i as int));
            assert(tv.take(i + 1).last() == iterable@[i as int]@);
        }
        if i > 0 {
            push_str(&mut out, sep);
        }
        push_str(&mut out, iterable[i].as_str());
        proof {
            if i == 0 {
                assert(out@ =~= tv.take(1)[0]);
            }
        }
        i = i + 1;
    }
    proof {
        assert(tv.take(iterable@.len() as int) =~= tv);
    }
    string_of(&out)
}

/// The pattern that matches `w` as a whole word.
pub open spec fn word_pattern(w: Seq<char>) -> Seq<char> {
    "\\b"@ + w + "\\b"@
}

/// The pattern that matches the word `x` as a whole word.
pub fn wordify(x: &str) -> (r: String)
    ensures
        r@ == word_pattern(x@),
{
    let mut v: Vec<char> = Vec::new();
    push_str(&mut v, "\\b");
    push_str(&mut v, x);
    push_str(&mut v, "\\b");
    proof {
        assert(v@ =~= word_pattern(x@));
    }
    string_of(&v)
}

/// The pattern that matches a line with any of the words `ws` (`Elem`
/// formulas) as a whole word.
pub open spec fn orify_f(ws: Seq<CombV>) -> Seq<char> {
    sep_join(Seq::new(ws.len(), |i: int| word_pattern(words_of(ws)[i])), " \\| "@)
}

/// The pattern for the words `l`, as `orify_f` says.
pub fn orify(l: &Vec<Combine>) -> (r: String)
    ensures
        r@ == orify_f(combs_v(*l)),
{
    let ws = words_exec(l);
    let mut list: Vec<String> = Vec::new();
    let mut i: usize = 0;
    proof {
        assert(texts_v(ws@).len() == ws@.len());
        assert(words_of(combs_v(*l)).len() == combs_v(*l).len());
        assert(texts_v(list@) =~= Seq::new(0 as nat, |q: int| word_pattern(words_of(combs_v(*l))[q])));
    }
    while i < ws.len()
        invariant
            i <= ws@.len(),
            texts_v(ws@) == words_of(combs_v(*l)),
            ws@.len() == combs_v(*l).len(),
            texts_v(list@) == Seq::new(i as nat, |q: int| word_pattern(words_of(combs_v(*l))[q])),
        decreases ws@.len() - i,
    {
        let w = wordify(ws[i].as_str());
        let ghost lb = texts_v(list@);
        list.push(w);
        proof {
            assert(texts_v(ws@)[i as int] == ws@[i as int]@);
            assert(w@ == word_pattern(words_of(combs_v(*l))[i as int]));
            assert(texts_v(list@) =~= lb.push(w@));
            assert(texts_v(list@) =~= Seq::new((i + 1) as nat, |q: int| word_pattern(words_of(combs_v(*l))[q])));
        }
        i = i + 1;
    }
    proof {
        assert(Seq::new(ws@.len() as nat, |q: int| word_pattern(words_of(combs_v(*l))[q])) =~= Seq::new(
            combs_v(*l).len(),
            |i: int| word_pattern(words_of(combs_v(*l))[i]),
        ));
    }
    separated_list(" \\| ", &list)
}

/// The arguments of `git grep` for the words of a clause.
pub open spec fn egrep_clause(ws: Seq<CombV>) -> Seq<char> {
    "\\( -e "@ + sep_join(words_of(ws), " -e "@) + " \\)"@
}

fn egrep_clause_exec(ws: &Vec<Combine>) -> (r: String)
    ensures
        r@ == egrep_clause(combs_v(*ws)),
{
    let words = words_exec(ws);
    let mut v: Vec<char> = Vec::new();
    push_str(&mut v, "\\( -e ");
    let inner = separated_list(" -e ", &words);
    push_str(&mut v, inner.as_str());
    push_str(&mut v, " \\)");
    proof {
        assert(v@ =~= egrep_clause(combs_v(*ws)));
    }
    string_of(&v)
}

/// The queries for a formula: the pattern for all its words, the pattern
/// for each clause of its regrouped normal form, and the `git grep`
/// arguments for each such clause; `None` when nothing is required or the
/// normal form would be too large.
pub open spec fn git_grep_f(strict: bool, x: CombV) -> Result<
    Option<(Seq<char>, Seq<Seq<char>>, Seq<Seq<char>>)>,
    Seq<char>,
> {
    if x is True {
        Ok(None)
    } else if x is False && strict {
        Err(false_on_top())
    } else {
        match scan(walk(seq![x]), false, false) {
            Err(e) => Err(e),
            Ok(at) => match cnf_of(strict, x) {
                Err(e) => Err(e),
                Ok(None) => Ok(None),
                Ok(Some(c)) => {
                    let sp = split_f(optimize_f(c));
                    Ok(
                        Some(
                            (
                                orify_f(at),
                                Seq::new(sp.len(), |i: int| orify_f(ops(sp[i]))),
                                Seq::new(sp.len(), |i: int| egrep_clause(ops(sp[i]))),
                            ),
                        ),
                    )
                },
            },
        }
    }
}

/// The queries for `x`, as `git_grep_f` says.
pub fn interpret_cocci_git_grep(strict: bool, x: &Combine) -> (r: Result<Option<(String, Vec<String>, Vec<String>)>, String>)
    ensures
        match git_grep_f(strict, x@) {
            Ok(None) => r matches Ok(None),
            Ok(Some((a, b, c))) => r matches Ok(Some((ra, rb, rc))) && ra@ == a && texts_v(rb@) == b && texts_v(rc@) == c,
            Err(e) => r matches Err(m) && m@ == e,
        },
{
    if matches!(x, Combine::True) {
        return Ok(None);
    }
    if strict && matches!(x, Combine::False) {
        return Err(string_from(
            "No rules apply.  Perhaps your semantic patch doesn't contain any +/-/* code, or you have a failed dependency.",
        ));
    }
    let at = match atoms(x) {
        Ok(a) => a,
        Err(e) => {
            return Err(e);
        },
    };
    let res1 = orify(&at);
    let c = match cnf(strict, x) {
        Err(e) => {
            return Err(e);
        },
        Ok(None) => {
            return Ok(None);
        },
        Ok(Some(c)) => c,
    };
    let res = split(&optimize(&c));
    let ghost sp = combs_v(res);
    let mut res2: Vec<String> = Vec::new();
    let mut res3: Vec<String> = Vec::new();
    let mut i: usize = 0;
    while i < res.len()
        invariant
            i <= res@.len(),
            sp == combs_v(res),
            texts_v(res2@) == Seq::new(i as nat, |q: int| orify_f(ops(sp[q]))),
            texts_v(res3@) == Seq::new(i as nat, |q: int| egrep_clause(ops(sp[q]))),
        decreases res@.len() - i,
    {
        let ws = ops_exec(&res[i]);
        proof {
            assert(sp[i as int] == res@[i as int]@);
        }
        let a = orify(&ws);
        let b = egrep_clause_exec(&ws);
        let ghost r2 = texts_v(res2@);
        let ghost r3 = texts_v(res3@);
        res2.push(a);
        res3.push(b);
        proof {
            assert(combs_v(ws) == ops(sp[i as int]));
            assert(texts_v(res2@) =~= r2.push(a@));
            assert(texts_v(res3@) =~= r3.push(b@));
            assert(texts_v(res2@) =~= Seq::new((i + 1) as nat, |q: int| orify_f(ops(sp[q]))));
            assert(texts_v(res3@) =~= Seq::new((i + 1) as nat, |q: int| egrep_clause(ops(sp[q]))));
        }
        i = i + 1;
    }
    proof {
        assert(texts_v(res2@) =~= Seq::new(sp.len(), |q: int| orify_f(ops(sp[q]))));
        assert(texts_v(res3@) =~= Seq::new(sp.len(), |q: int| egrep_clause(ops(sp[q]))));
    }
    Ok(Some((res1, res2, res3)))
}

/// The formula for `id-utils`: `None` when nothing is required.
pub fn interpret_idutils(dep: Combine) -> (r: Option<Combine>)
    ensures
        dep@ is True ==> r is None,
        !(dep@ is True) ==> (r matches Some(c) && c@ == dep@),
{
    match dep {
        Combine::True => None,
        x => Some(x),
    }
}

// ---------------------------------------------------------------------
// The words required by the rules

/// The models of an association list from rule names to formulas.
pub open spec fn env_v(v: Seq<(String, Combine)>) -> Seq<(Seq<char>, CombV)> {
    Seq::new(v.len(), |i: int| (v[i].0@, v[i].1@))
}

/// The first index from `i` on of the entry of `env` for `k`.
pub open spec fn env_find(env: Seq<(Seq<char>, CombV)>, k: Seq<char>, i: int) -> Option<int>
    decreases env.len() - i,
{
    if i < 0 || i >= env.len() {
        None
    } else if env[i].0 == k {
        Some(i)
    } else {
        env_find(env, k, i + 1)
    }
}

/// The formula that `env` holds for `k`.
pub open spec fn env_get(env: Seq<(Seq<char>, CombV)>, k: Seq<char>) -> Option<CombV> {
    match env_find(env, k, 0) {
        Some(i) => Some(env[i].1),
        None => None,
    }
}

/// `env` with the formula for `k` set to `v`.
pub open spec fn env_set(env: Seq<(Seq<char>, CombV)>, k: Seq<char>, v: CombV) -> Seq<(Seq<char>, CombV)> {
    match env_find(env, k, 0) {
        Some(i) => env.update(i, (k, v)),
        None => env.push((k, v)),
    }
}

proof fn lemma_env_find(env: Seq<(Seq<char>, CombV)>, k: Seq<char>, i: int)
    requires
        0 <= i,
    ensures
        env_find(env, k, i) matches Some(j) ==> i <= j < env.len() && env[j].0 == k,
    decreases env.len() - i,
{
    if 0 <= i < env.len() && env[i].0 != k {
        lemma_env_find(env, k, i + 1);
    }
}

fn env_lookup(env: &Vec<(String, Combine)>, k: &str) -> (r: Option<usize>)
    ensures
        match env_find(env_v(env@), k@, 0) {
            Some(j) => r matches Some(x) && x as int == j,
            None => r is None,
        },
{
    let ghost ev = env_v(env@);
    let mut i: usize = 0;
    while i < env.len()
        invariant
            i <= env@.len(),
            ev == env_v(env@),
            env_find(ev, k@, 0) == env_find(ev, k@, i as int),
        decreases env@.len() - i,
    {
        if str_eq(env[i].0.as_str(), k) {
            return Some(i);
        }
        i = i + 1;
    }
    None
}

fn env_put(env: &mut Vec<(String, Combine)>, k: &String, v: Combine)
    ensures
        env_v(final(env)@) == env_set(env_v(old(env)@), k@, v@),
{
    let ghost ev = env_v(env@);
    match env_lookup(env, k.as_str()) {
        Some(i) => {
            proof {
                lemma_env_find(ev, k@, 0);
            }
            let key = k.clone();
            let ghost vv = v@;
            env.set(i, (key, v));
            proof {
                assert(env_v(env@) =~= ev.update(i as int, (k@, vv)));
            }
        },
        None => {
            let key = k.clone();
            let ghost vv = v@;
            env.push((key, v));
            proof {
                assert(env_v(env@) =~= ev.push((k@, vv)));
            }
        },
    }
}

fn env_value(env: &Vec<(String, Combine)>, k: &str) -> (r: Option<Combine>)
    ensures
        match env_get(env_v(env@), k@) {
            Some(c) => r matches Some(x) && x@ == c,
            None => r is None,
        },
{
    match env_lookup(env, k) {
        Some(i) => {
            proof {
                lemma_env_find(env_v(env@), k@, 0);
            }
            Some(env[i].1.copy())
        },
        None => None,
    }
}

/// The words that code `n` of a rule requires: with `kwds`, its keywords;
/// without, its paths.  A metavariable path stands for the formula of the
/// rule that binds it (`False` when that rule has none); a disjunction
/// takes the disjunction of its branches, other code the conjunction of
/// its parts, each starting from `False`.
pub open spec fn consts_of(n: SnodeV, kwds: bool, env: Seq<(Seq<char>, CombV)>) -> CombV
    decreases n, 1nat,
{
    if kwds && n.iskeyword {
        CombV::Elem(snode_string(n))
    } else if n.kind == Tag::PathExpr {
        if !(n.wrapper.metavar is NoMeta) {
            match env_get(env, var_rule(n.wrapper.metavar)) {
                Some(c) => c,
                None => CombV::False,
            }
        } else if !kwds {
            CombV::Elem(snode_string(n))
        } else {
            CombV::True
        }
    } else {
        fold_consts(!n.wrapper.isdisj, n.children, kwds, env, n.children.len() as int)
    }
}

/// `False` joined (`conj`: by conjunction) with the words required by each
/// of the first `k` nodes of `cs`.
pub open spec fn fold_consts(conj: bool, cs: Seq<SnodeV>, kwds: bool, env: Seq<(Seq<char>, CombV)>, k: int) -> CombV
    decreases cs, k,
{
    if k <= 0 || k > cs.len() {
        CombV::False
    } else {
        join_f(conj, fold_consts(conj, cs, kwds, env, k - 1), consts_of(cs[k - 1], kwds, env), comb_fuel())
    }
}

/// The words that `node` requires, as `consts_of` says.
pub fn do_get_constants(node: &Snode, kwds: bool, env: &Vec<(String, Combine)>) -> (r: Combine)
    ensures
        r@ == consts_of(node@, kwds, env_v(env@)),
    decreases node,
{
    if kwds && node.iskeyword {
        return Combine::Elem(node.getstring());
    }
    if node.kind == Tag::PathExpr {
        if !node.wrapper.metavar.isnotmeta() {
            let rn = rule_chars(&node.wrapper.metavar);
            let rs = string_of(&rn);
            return match env_value(env, rs.as_str()) {
                Some(c) => c,
                None => Combine::False,
            };
        } else if !kwds {
            return Combine::Elem(node.getstring());
        } else {
            return Combine::True;
        }
    }
    let conj = !node.wrapper.isdisj;
    let ghost cs = node@.children;
    let mut acc = Combine::False;
    let mut i: usize = 0;
    while i < node.children.len()
        invariant
            i <= node.children@.len(),
            cs == node@.children,
            cs.len() == node.children@.len(),
            acc@ == fold_consts(conj, cs, kwds, env_v(env@), i as int),
        decreases node.children@.len() - i,
    {
        proof {
            assert(decreases_to!(node => node.children@[i as int]));
            assert(cs[i as int] == node.children@[i as int]@);
        }
        let c = do_get_constants(&node.children[i], kwds, env);
        acc = build_and_or(conj, &acc, &c);
        i = i + 1;
    }
    acc
}

fn build_and_or(conj: bool, x: &Combine, y: &Combine) -> (r: Combine)
    ensures
        r@ == join_f(conj, x@, y@, comb_fuel()),
{
    join(conj, x, y, usize::MAX)
}

/// The words that the `-` code of `rule` requires, as `consts_of` says.
pub fn find_constants(rule: &Rule, kwds: bool, env: &Vec<(String, Combine)>) -> (r: Combine)
    ensures
        r@ == consts_of(rule@.minus, kwds, env_v(env@)),
{
    do_get_constants(&rule.patch.minus, kwds, env)
}

/// Whether every node of `n` is context code with no code attached.
pub open spec fn context_tree(n: SnodeV) -> bool
    decreases n, 1nat,
{
    (match n.wrapper.mcodekind {
        McodekindV::Context(bef, aft) => bef.len() == 0 && aft.len() == 0,
        _ => false,
    }) && context_seq(n.children, n.children.len() as int)
}

/// Whether every node of the first `k` trees of `cs` is context code with
/// no code attached.
pub open spec fn context_seq(cs: Seq<SnodeV>, k: int) -> bool
    decreases cs, k,
{
    if k <= 0 || k > cs.len() {
        true
    } else {
        context_seq(cs, k - 1) && context_tree(cs[k - 1])
    }
}

fn context_exec(n: &Snode) -> (r: bool)
    ensures
        r == context_tree(n@),
    decreases n,
{
    let here = match &n.wrapper.mcodekind {
        Mcodekind::Context(bef, aft) => bef.len() == 0 && aft.len() == 0,
        _ => false,
    };
    let ghost h = match n@.wrapper.mcodekind {
        McodekindV::Context(bef, aft) => bef.len() == 0 && aft.len() == 0,
        _ => false,
    };
    proof {
        assert(n@.wrapper.mcodekind == mcodekind_v(n.wrapper.mcodekind));
        match &n.wrapper.mcodekind {
            Mcodekind::Context(bef, aft) => {
                assert(n@.wrapper.mcodekind == McodekindV::Context(snodes_v(*bef), snodes_v(*aft)));
                assert(snodes_v(*bef).len() == bef@.len());
                assert(snodes_v(*aft).len() == aft@.len());
            },
            _ => {},
        }
        assert(here == h);
    }
    if !here {
        return false;
    }
    let ghost cs = n@.children;
    let mut i: usize = 0;
    while i < n.children.len()
        invariant
            i <= n.children@.len(),
            cs == n@.children,
            cs.len() == n.children@.len(),
            h,
            h == match n@.wrapper.mcodekind {
                McodekindV::Context(bef, aft) => bef.len() == 0 && aft.len() == 0,
                _ => false,
            },
            context_seq(cs, i as int),
        decreases n.children@.len() - i,
    {
        proof {
            assert(decreases_to!(n => n.children@[i as int]));
            assert(cs[i as int] == n.children@[i as int]@);
        }
        if !context_exec(&n.children[i]) {
            proof {
                lemma_context_seq_false(cs, i + 1, cs.len() as int);
            }
            return false;
        }
        i = i + 1;
    }
    true
}

proof fn lemma_context_seq_false(cs: Seq<SnodeV>, k: int, n: int)
    requires
        0 < k <= n <= cs.len(),
        !context_seq(cs, k),
    ensures
        !context_seq(cs, n),
    decreases n - k,
{
    if k < n {
        lemma_context_seq_false(cs, k, n - 1);
    }
}

/// Whether the `-` code of `rule` is all context code, with nothing
/// removed or added.
pub fn all_context(rule: &Rule) -> (r: bool)
    ensures
        r == context_tree(rule@.minus),
{
    context_exec(&rule.patch.minus)
}

/// The words that `rule` requires: those of its paths, or of its keywords
/// when the paths require nothing.
pub open spec fn rule_fn_f(r: RuleV, env: Seq<(Seq<char>, CombV)>) -> CombV {
    let m = consts_of(r.minus, false, env);
    if m is True {
        consts_of(r.minus, true, env)
    } else {
        m
    }
}

/// The words that `rule` requires, as `rule_fn_f` says.
pub fn rule_fn(rule: &Rule, env: &Vec<(String, Combine)>) -> (r: Combine)
    ensures
        r@ == rule_fn_f(rule@, env_v(env@)),
{
    let minuses = find_constants(rule, false, env);
    match minuses {
        Combine::True => find_constants(rule, true, env),
        x => x,
    }
}

/// The words that a dependency requires, given the formulas of the rules
/// before: a rule without a formula requires the impossible.
pub open spec fn deps_f(env: Seq<(Seq<char>, CombV)>, dep: DepV) -> CombV
    decreases dep,
{
    match dep {
        DepV::NoDep => CombV::True,
        DepV::FailDep => CombV::False,
        DepV::Dep(nm) => match env_get(env, nm) {
            Some(c) => c,
            None => CombV::False,
        },
        DepV::AndDep(a, b) => join_f(true, deps_f(env, *a), deps_f(env, *b), comb_fuel()),
        DepV::OrDep(a, b) => join_f(false, deps_f(env, *a), deps_f(env, *b), comb_fuel()),
        DepV::AntiDep(_) => CombV::True,
    }
}

/// The words that the dependency `dep` requires, as `deps_f` says.
pub fn dependencies(env: &Vec<(String, Combine)>, dep: &Dep) -> (r: Combine)
    ensures
        r@ == deps_f(env_v(env@), dep@),
    decreases dep,
{
    match dep {
        Dep::NoDep => Combine::True,
        Dep::FailDep => Combine::False,
        Dep::Dep(nm) => match env_value(env, nm.as_str()) {
            Some(c) => c,
            None => Combine::False,
        },
        Dep::AndDep(args) => build_and(&dependencies(env, &args.0), &dependencies(env, &args.1)),
        Dep::OrDep(args) => build_or(&dependencies(env, &args.0), &dependencies(env, &args.1)),
        Dep::AntiDep(_) => Combine::True,
    }
}

/// The formulas of the first `k` rules of `rs`, and the disjunction of the
/// requirements of those that change code.  A rule whose dependency
/// requires the impossible is skipped; a rule of context code only
/// contributes through the rules that depend on it.
pub open spec fn run_f(rs: Seq<RuleV>, k: int) -> (Seq<(Seq<char>, CombV)>, CombV)
    decreases k,
{
    if k <= 0 || k > rs.len() {
        (Seq::empty(), CombV::False)
    } else {
        let (env, res) = run_f(rs, k - 1);
        let r = rs[k - 1];
        let d = deps_f(env, r.dependson);
        if d is False {
            (env, res)
        } else {
            let env1 = env_set(env, r.name, CombV::True);
            let cur = rule_fn_f(r, env1);
            let re = join_f(true, d, cur, comb_fuel());
            if context_tree(r.minus) {
                (env_set(env1, r.name, re), res)
            } else {
                (env_set(env1, r.name, cur), join_f(false, re, res, comb_fuel()))
            }
        }
    }
}

/// The words that a file must hold for some rule of `rules` to change it.
pub fn run(rules: &Vec<Rule>) -> (r: Combine)
    ensures
        r@ == run_f(rules_v(rules@), rules@.len() as int).1,
{
    let ghost rs = rules_v(rules@);
    let mut env: Vec<(String, Combine)> = Vec::new();
    let mut res = Combine::False;
    let mut i: usize = 0;
    proof {
        assert(env_v(env@) =~= Seq::<(Seq<char>, CombV)>::empty());
    }
    while i < rules.len()
        invariant
            i <= rules@.len(),
            rs == rules_v(rules@),
            (env_v(env@), res@) == run_f(rs, i as int),
        decreases rules@.len() - i,
    {
        let r = &rules[i];
        proof {
            assert(rs[i as int] == r@);
        }
        let d = dependencies(&env, &r.dependson);
        if !matches!(d, Combine::False) {
            env_put(&mut env, &r.name, Combine::True);
            let cur_info = rule_fn(r, &env);
            let re_cur_info = build_and(&d, &cur_info);
            if all_context(r) {
                env_put(&mut env, &r.name, re_cur_info);
            } else {
                res = build_or(&re_cur_info, &res);
                env_put(&mut env, &r.name, cur_info);
            }
        }
        i = i + 1;
    }
    res
}

/// How files that a patch cannot change are left out before parsing.
#[derive(PartialEq, Eq, Structural, Clone, Copy, Debug)]
pub enum Scanner {
    NoScanner,
    Grep,
    GitGrep,
    CocciGrep,
}

// ---------------------------------------------------------------------
// Searching with grep and git grep

/// Whether the regular expression `p` matches in `x`.
pub open spec fn re_matches(p: Seq<char>, x: Seq<char>) -> bool {
    spec_regex_match(p, x) == Some(true)
}

/// A word of a query for `egrep`: marked as starting or ending a word
/// where it starts or ends with a letter or underscore.
pub open spec fn egrep_word(x: Seq<char>) -> Seq<char> {
    if re_matches("^[A-Za-z_][A-Za-z_0-9]*$"@, x) {
        "\\b"@ + x + "\\b"@
    } else if re_matches("^[A-Za-z_]"@, x) {
        "\\b"@ + x
    } else if re_matches(".*[A-Za-z_]$"@, x) {
        x + "\\b"@
    } else {
        x
    }
}

/// The `egrep` argument that matches a line with any of the words `q`.
pub open spec fn grep_query_f(q: Seq<Seq<char>>) -> Seq<char> {
    "'("@ + sep_join(Seq::new(q.len(), |i: int| egrep_word(q[i])), " | "@) + ")'"@
}

fn egrep_word_exec(x: &str) -> (r: String)
    ensures
        r@ == egrep_word(x@),
{
    let mut v: Vec<char> = Vec::new();
    if regex_is_match("^[A-Za-z_][A-Za-z_0-9]*$", x) == Some(true) {
        push_str(&mut v, "\\b");
        push_str(&mut v, x);
        push_str(&mut v, "\\b");
    } else if regex_is_match("^[A-Za-z_]", x) == Some(true) {
        push_str(&mut v, "\\b");
        push_str(&mut v, x);
    } else if regex_is_match(".*[A-Za-z_]$", x) == Some(true) {
        push_str(&mut v, x);
        push_str(&mut v, "\\b");
    } else {
        push_str(&mut v, x);
    }
    proof {
        assert(v@ =~= egrep_word(x@));
    }
    string_of(&v)
}

/// The `egrep` argument for the words `query`, as `grep_query_f` says.
pub fn grep_query(query: &Vec<String>) -> (r: String)
    ensures
        r@ == grep_query_f(texts_v(query@)),
{
    let ghost qv = texts_v(query@);
    let mut words: Vec<String> = Vec::new();
    let mut i: usize = 0;
    while i < query.len()
        invariant
            i <= query@.len(),
            qv == texts_v(query@),
            texts_v(words@) == Seq::new(i as nat, |k: int| egrep_word(qv[k])),
        decreases query@.len() - i,
    {
        let w = egrep_word_exec(query[i].as_str());
        let ghost wb = texts_v(words@);
        words.push(w);
        proof {
            assert(texts_v(words@) =~= wb.push(w@));
            assert(texts_v(words@) =~= Seq::new((i + 1) as nat, |k: int| egrep_word(qv[k])));
        }
        i = i + 1;
    }
    proof {
        assert(texts_v(words@) =~= Seq::new(qv.len(), |k: int| egrep_word(qv[k])));
    }
    let mut v: Vec<char> = Vec::new();
    push_str(&mut v, "'(");
    let inner = separated_list(" | ", &words);
    push_str(&mut v, inner.as_str());
    push_str(&mut v, ")'");
    proof {
        assert(v@ =~= grep_query_f(qv));
    }
    string_of(&v)
}

/// Whether the text `x` is one of `v`.
pub open spec fn has_text(v: Seq<Seq<char>>, x: Seq<char>) -> bool {
    exists|j: int| 0 <= j < v.len() && v[j] == x
}

/// The files of the last list that every other list holds too, each
/// once, in the order of the last list.
pub open spec fn common_f(last: Seq<Seq<char>>, others: Seq<Seq<Seq<char>>>, k: int) -> Seq<Seq<char>>
    decreases k,
{
    if k <= 0 || k > last.len() {
        Seq::empty()
    } else {
        let p = common_f(last, others, k - 1);
        let x = last[k - 1];
        if !has_text(p, x) && forall|j: int| 0 <= j < others.len() ==> has_text(#[trigger] others[j], x) {
            p.push(x)
        } else {
            p
        }
    }
}

fn has_text_exec(v: &Vec<String>, x: &str) -> (r: bool)
    ensures
        r == has_text(texts_v(v@), x@),
{
    let mut i: usize = 0;
    while i < v.len()
        invariant
            i <= v@.len(),
            forall|j: int| 0 <= j < i ==> v@[j]@ != x@,
        decreases v@.len() - i,
    {
        if str_eq(v[i].as_str(), x) {
            proof {
                assert(texts_v(v@)[i as int] == x@);
            }
            return true;
        }
        i = i + 1;
    }
    proof {
        if has_text(texts_v(v@), x@) {
            let j = choose|j: int| 0 <= j < texts_v(v@).len() && texts_v(v@)[j] == x@;
            assert(v@[j]@ == x@);
        }
    }
    false
}

/// The files that every list of `file_matches` holds, in the order of the
/// last list, each once; `None` when there is no list.
pub fn common_files(file_matches: &Vec<Vec<String>>) -> (r: Option<Vec<String>>)
    ensures
        file_matches@.len() == 0 ==> r is None,
        file_matches@.len() > 0 ==> (r matches Some(v) && texts_v(v@) == common_f(
            texts_v(file_matches@.last()@),
            Seq::new((file_matches@.len() - 1) as nat, |j: int| texts_v(file_matches@[j]@)),
            file_matches@.last()@.len() as int,
        )),
{
    if file_matches.len() == 0 {
        return None;
    }
    let n = file_matches.len() - 1;
    let last = &file_matches[n];
    let ghost lv = texts_v(last@);
    let ghost ov = Seq::new(n as nat, |j: int| texts_v(file_matches@[j]@));
    let mut out: Vec<String> = Vec::new();
    let mut i: usize = 0;
    proof {
        assert(texts_v(out@) =~= Seq::<Seq<char>>::empty());
    }
    while i < last.len()
        invariant
            i <= last@.len(),
            n + 1 == file_matches@.len(),
            *last == file_matches@[n as int],
            lv == texts_v(last@),
            ov == Seq::new(n as nat, |j: int| texts_v(file_matches@[j]@)),
            texts_v(out@) == common_f(lv, ov, i as int),
        decreases last@.len() - i,
    {
        let x = last[i].as_str();
        proof {
            assert(lv[i as int] == x@);
        }
        let mut all = true;
        let mut j: usize = 0;
        while j < n
            invariant_except_break
                all,
                forall|q: int| 0 <= q < j ==> has_text(#[trigger] ov[q], x@),
            invariant
                j <= n,
                n + 1 == file_matches@.len(),
                ov == Seq::new(n as nat, |j: int| texts_v(file_matches@[j]@)),
            ensures
                all == forall|q: int| 0 <= q < ov.len() ==> has_text(#[trigger] ov[q], x@),
            decreases n - j,
        {
            if !has_text_exec(&file_matches[j], x) {
                proof {
                    assert(ov[j as int] == texts_v(file_matches@[j as int]@));
                }
                all = false;
                break;
            }
            proof {
                assert(ov[j as int] == texts_v(file_matches@[j as int]@));
            }
            j = j + 1;
        }
        if all && !has_text_exec(&out, x) {
            let ghost ob = texts_v(out@);
            out.push(string_from(x));
            proof {
                assert(texts_v(out@) =~= ob.push(x@));
            }
        }
        i = i + 1;
    }
    Some(out)
}

// ---------------------------------------------------------------------
// Laws

/// Joining a formula with itself gives it back.
pub proof fn law_join_idempotent(conj: bool, x: CombV)
    ensures
        join_f(conj, x, x, comb_fuel()) == x,
{
}

/// `True` is neutral for conjunction and absorbs a disjunction; `False` is
/// neutral for disjunction and absorbs a conjunction.
pub proof fn law_join_units(x: CombV)
    ensures
        join_f(true, CombV::True, x, comb_fuel()) == x,
        join_f(true, x, CombV::True, comb_fuel()) == x,
        join_f(true, CombV::False, x, comb_fuel()) == CombV::False,
        join_f(true, x, CombV::False, comb_fuel()) == CombV::False,
        join_f(false, CombV::False, x, comb_fuel()) == x,
        join_f(false, x, CombV::False, comb_fuel()) == x,
        join_f(false, CombV::True, x, comb_fuel()) == CombV::True,
        join_f(false, x, CombV::True, comb_fuel()) == CombV::True,
{
}

proof fn lemma_csize_kids(x: CombV)
    ensures
        csize(x) == 1 + lsize(kids(x)),
{
    match x {
        CombV::Not(b) => {
            let one = seq![*b];
            assert(one.drop_last() =~= Seq::<CombV>::empty());
            assert(lsize(Seq::<CombV>::empty()) == 0);
            assert(one.last() == *b);
            assert(lsize(one) == lsize(one.drop_last()) + csize(one.last()));
            assert(kids(x) == one);
        },
        CombV::And(l) => {},
        CombV::Or(l) => {},
        _ => {
            assert(lsize(Seq::<CombV>::empty()) == 0);
        },
    }
}

proof fn lemma_walk_len(st: Seq<CombV>)
    ensures
        walk(st).len() == lsize(st),
    decreases lsize(st),
{
    if st.len() > 0 {
        let x = st.last();
        lemma_walk_step(st);
        lemma_walk_len(st.drop_last() + kids(x));
        lemma_lsize_append(st.drop_last(), kids(x));
        lemma_csize_kids(x);
        assert(lsize(st) == lsize(st.drop_last()) + csize(x));
    }
}

/// A walk over a formula visits as many formulas as there are within it,
/// itself included.
pub proof fn law_walk_visits_all(x: CombV)
    ensures
        walk(seq![x]).len() == csize(x),
{
    lemma_walk_len(seq![x]);
    let one = seq![x];
    assert(one.drop_last() =~= Seq::<CombV>::empty());
    assert(lsize(Seq::<CombV>::empty()) == 0);
    assert(one.last() == x);
    assert(lsize(one) == lsize(one.drop_last()) + csize(one.last()));
}

// ---------------------------------------------------------------------
// Printing

/// The text of a formula: operands in parentheses, separated by ` & ` or
/// ` | `; a negation as `!(..)`.
pub open spec fn comb_text(x: CombV) -> Seq<char>
    decreases x, 1nat,
{
    match x {
        CombV::True => "true"@,
        CombV::False => "false"@,
        CombV::Elem(s) => s,
        CombV::And(l) => "("@ + joined_text(l, " & "@, l.len() as int) + ")"@,
        CombV::Or(l) => "("@ + joined_text(l, " | "@, l.len() as int) + ")"@,
        CombV::Not(b) => "!("@ + comb_text(*b) + ")"@,
    }
}

/// The texts of the first `k` formulas of `l` with `sep` between each two.
pub open spec fn joined_text(l: Seq<CombV>, sep: Seq<char>, k: int) -> Seq<char>
    decreases l, k,
{
    if k <= 0 || k > l.len() {
        Seq::empty()
    } else if k == 1 {
        comb_text(l[0])
    } else {
        joined_text(l, sep, k - 1) + sep + comb_text(l[k - 1])
    }
}

fn text_chars(x: &Combine, out: &mut Vec<char>)
    ensures
        final(out)@ == old(out)@ + comb_text(x@),
    decreases x,
{
    match x {
        Combine::True => push_str(out, "true"),
        Combine::False => push_str(out, "false"),
        Combine::Elem(s) => push_str(out, s.as_str()),
        Combine::And(l) | Combine::Or(l) => {
            let conj = matches!(x, Combine::And(_));
            let ghost o0 = out@;
            push_str(out, "(");
            joined_chars(l, if conj {
                " & "
            } else {
                " | "
            }, out);
            push_str(out, ")");
            proof {
                if conj {
                    assert(out@ =~= o0 + comb_text(x@));
                } else {
                    assert(out@ =~= o0 + comb_text(x@));
                }
            }
        },
        Combine::Not(b) => {
            let ghost o0 = out@;
            push_str(out, "!(");
            text_chars(b, out);
            push_str(out, ")");
            proof {
                assert(out@ =~= o0 + comb_text(x@));
            }
        },
    }
}

fn joined_chars(l: &Vec<Combine>, sep: &str, out: &mut Vec<char>)
    ensures
        final(out)@ == old(out)@ + joined_text(combs_v(*l), sep@, l@.len() as int),
    decreases l,
{
    let ghost o0 = out@;
    let ghost lv = combs_v(*l);
    let mut i: usize = 0;
    proof {
        assert(out@ =~= o0 + joined_text(lv, sep@, 0));
    }
    while i < l.len()
        invariant
            i <= l@.len(),
            lv == combs_v(*l),
            out@ == o0 + joined_text(lv, sep@, i as int),
        decreases l@.len() - i,
    {
        proof {
            assert(decreases_to!(l => l@[i as int]));
            assert(lv[i as int] == l@[i as int]@);
        }
        if i > 0 {
            push_str(out, sep);
        }
        text_chars(&l[i], out);
        proof {
            assert(out@ =~= o0 + joined_text(lv, sep@, i + 1));
        }
        i = i + 1;
    }
}

impl Combine {
    /// The text of this formula, as `comb_text` says.
    pub fn to_text(&self) -> (r: String)
        ensures
            r@ == comb_text(self@),
    {
        let mut out: Vec<char> = Vec::new();
        text_chars(self, &mut out);
        proof {
            assert(out@ =~= Seq::<char>::empty() + comb_text(self@));
        }
        string_of(&out)
    }
}

} // verus!
