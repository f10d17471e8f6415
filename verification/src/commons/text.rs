//! Character-level text helpers: the library works on `Vec<char>` views of
//! its input strings and rebuilds `String`s at its edges.
use vstd::prelude::*;

verus! {

/// Appends one character to a `String` (`String::push`).
#[verifier::external_body]
pub(crate) fn string_push(s: &mut String, c: char)
    ensures
        final(s)@ == old(s)@.push(c),
{
    s.push(c)
}

/// The characters of a string slice, in order.
pub fn chars_of(s: &str) -> (r: Vec<char>)
    ensures
        r@ == s@,
{
    broadcast use vstd::string::group_string_axioms;
    let mut r: Vec<char> = Vec::new();
    for c in it: s.chars()
        invariant
            it.seq() == s@,
            r@ == s@.take(it.index() as int),
    {
        r.push(c);
    }
    proof {
        assert(s@.take(s@.len() as int) == s@);
    }
    r
}

/// A `String` made of the given characters.
pub fn string_of(v: &Vec<char>) -> (r: String)
    ensures
        r@ == v@,
{
    let mut r = String::new();
    for i in 0..v.len()
        invariant
            r@ == v@.take(i as int),
    {
        string_push(&mut r, v[i]);
        proof {
            assert(v@.take(i + 1) == v@.take(i as int).push(v@[i as int]));
        }
    }
    proof {
        assert(v@.take(v.len() as int) == v@);
    }
    r
}

/// A `String` made of the characters of a string slice.
pub fn string_from(s: &str) -> (r: String)
    ensures
        r@ == s@,
{
    let v = chars_of(s);
    string_of(&v)
}

/// Whether two string slices hold the same characters.
pub fn str_eq(a: &str, b: &str) -> (r: bool)
    ensures
        r == (a@ == b@),
{
    let x = string_from(a);
    let y = string_from(b);
    x == y
}

/// Whether two character vectors are equal.
pub fn chars_eq(a: &Vec<char>, b: &Vec<char>) -> (r: bool)
    ensures
        r == (a@ == b@),
{
    if a.len() != b.len() {
        return false;
    }
    let mut i: usize = 0;
    while i < a.len()
        invariant
            a.len() == b.len(),
            i <= a.len(),
            forall|j: int| 0 <= j < i ==> a@[j] == b@[j],
        decreases a.len() - i,
    {
        if a[i] != b[i] {
            return false;
        }
        i = i + 1;
    }
    proof {
        assert(a@ == b@);
    }
    true
}

/// Whether a character vector equals the characters of a string slice.
pub fn chars_eq_str(a: &Vec<char>, b: &str) -> (r: bool)
    ensures
        r == (a@ == b@),
{
    let bv = chars_of(b);
    chars_eq(a, &bv)
}

/// Concatenation of two character vectors.
pub fn concat(a: &Vec<char>, b: &Vec<char>) -> (r: Vec<char>)
    ensures
        r@ == a@ + b@,
{
    let mut r = a.clone();
    for i in 0..b.len()
        invariant
            r@ == a@ + b@.take(i as int),
    {
        r.push(b[i]);
        proof {
            assert(b@.take(i + 1) == b@.take(i as int).push(b@[i as int]));
        }
    }
    proof {
        assert(b@.take(b.len() as int) == b@);
    }
    r
}

/// Appends the characters of `b` to `a`.
pub fn push_all(a: &mut Vec<char>, b: &Vec<char>)
    ensures
        final(a)@ == old(a)@ + b@,
{
    let ghost a0 = a@;
    for i in 0..b.len()
        invariant
            a@ == a0 + b@.take(i as int),
    {
        a.push(b[i]);
        proof {
            assert(b@.take(i + 1) == b@.take(i as int).push(b@[i as int]));
        }
    }
    proof {
        assert(b@.take(b.len() as int) == b@);
    }
}

/// Appends the characters of a string slice to `a`.
pub fn push_str(a: &mut Vec<char>, b: &str)
    ensures
        final(a)@ == old(a)@ + b@,
{
    let bv = chars_of(b);
    push_all(a, &bv);
}

/// The characters of `s` from index `from` on.
pub fn skip_chars(s: &Vec<char>, from: usize) -> (r: Vec<char>)
    requires
        from <= s.len(),
    ensures
        r@ == s@.skip(from as int),
{
    let mut r: Vec<char> = Vec::new();
    let mut i = from;
    while i < s.len()
        invariant
            from <= i <= s.len(),
            r@ == s@.subrange(from as int, i as int),
        decreases s.len() - i,
    {
        r.push(s[i]);
        i = i + 1;
    }
    r
}

/// `c` is one of the characters in `seps`.
pub open spec fn is_sep(seps: Seq<char>, c: char) -> bool {
    seps.contains(c)
}

/// Left-to-right splitting state of `s` at the characters in `seps`: the
/// finished pieces and the piece being read.
pub open spec fn split_state(s: Seq<char>, seps: Seq<char>) -> (Seq<Seq<char>>, Seq<char>)
    decreases s.len(),
{
    if s.len() == 0 {
        (Seq::empty(), Seq::empty())
    } else {
        let (parts, cur) = split_state(s.drop_last(), seps);
        if is_sep(seps, s.last()) {
            (parts.push(cur), Seq::empty())
        } else {
            (parts, cur.push(s.last()))
        }
    }
}

/// The pieces of `s` between occurrences of any character of `seps`
/// (`str::split` with a set of characters): there is always one more piece
/// than there are separators, and pieces may be empty.
pub open spec fn spec_split(s: Seq<char>, seps: Seq<char>) -> Seq<Seq<char>> {
    let (parts, cur) = split_state(s, seps);
    parts.push(cur)
}

fn contains_char(seps: &Vec<char>, c: char) -> (r: bool)
    ensures
        r == seps@.contains(c),
{
    for i in 0..seps.len()
        invariant
            forall|j: int| 0 <= j < i ==> seps@[j] != c,
    {
        if seps[i] == c {
            return true;
        }
    }
    false
}

/// Splits `s` at every character that occurs in `seps`.
pub fn split_at_any(s: &Vec<char>, seps: &Vec<char>) -> (r: Vec<Vec<char>>)
    ensures
        r@.len() == spec_split(s@, seps@).len(),
        forall|i: int| 0 <= i < r@.len() ==> #[trigger] r@[i]@ == spec_split(s@, seps@)[i],
{
    let mut parts: Vec<Vec<char>> = Vec::new();
    let mut cur: Vec<char> = Vec::new();
    for i in 0..s.len()
        invariant
            parts@.len() == split_state(s@.take(i as int), seps@).0.len(),
            forall|j: int| 0 <= j < parts@.len() ==> #[trigger] parts@[j]@ == split_state(s@.take(i as int), seps@).0[j],
            cur@ == split_state(s@.take(i as int), seps@).1,
    {
        proof {
            assert(s@.take(i + 1).drop_last() == s@.take(i as int));
        }
        if contains_char(seps, s[i]) {
            parts.push(cur);
            cur = Vec::new();
        } else {
            cur.push(s[i]);
        }
    }
    proof {
        assert(s@.take(s.len() as int) == s@);
    }
    parts.push(cur);
    parts
}

/// Splits `s` at every occurrence of the character `c`.
pub fn split_at(s: &Vec<char>, c: char) -> (r: Vec<Vec<char>>)
    ensures
        r@.len() == spec_split(s@, seq![c]).len(),
        forall|i: int| 0 <= i < r@.len() ==> #[trigger] r@[i]@ == spec_split(s@, seq![c])[i],
{
    let seps = vec![c];
    proof {
        assert(seps@ == seq![c]);
    }
    split_at_any(s, &seps)
}

/// A line that was ended by `\n` loses a final `\r` too.
pub open spec fn strip_cr(l: Seq<char>) -> Seq<char> {
    if l.len() > 0 && l.last() == '\r' {
        l.drop_last()
    } else {
        l
    }
}

/// The lines of `s` (`str::lines`): pieces between `\n`, a final empty piece
/// dropped, and a `\r` before a `\n` removed.
pub open spec fn spec_lines(s: Seq<char>) -> Seq<Seq<char>> {
    let parts = spec_split(s, seq!['\n']);
    let n: int = if s.len() == 0 {
        0
    } else if parts.last().len() == 0 {
        parts.len() - 1
    } else {
        parts.len() as int
    };
    Seq::new(
        n as nat,
        |i: int|
            if i < parts.len() - 1 {
                strip_cr(parts[i])
            } else {
                parts[i]
            },
    )
}

/// The lines of `s`.
pub fn lines_of(s: &Vec<char>) -> (r: Vec<Vec<char>>)
    ensures
        r@.len() == spec_lines(s@).len(),
        forall|i: int| 0 <= i < r@.len() ==> #[trigger] r@[i]@ == spec_lines(s@)[i],
{
    let parts = split_at(s, '\n');
    let ghost sp = spec_split(s@, seq!['\n']);
    let n: usize = if s.len() == 0 {
        0
    } else if parts[parts.len() - 1].len() == 0 {
        parts.len() - 1
    } else {
        parts.len()
    };
    let mut r: Vec<Vec<char>> = Vec::new();
    for i in 0..n
        invariant
            n <= parts.len(),
            sp == spec_split(s@, seq!['\n']),
            parts@.len() == sp.len(),
            forall|j: int| 0 <= j < parts@.len() ==> #[trigger] parts@[j]@ == sp[j],
            n == spec_lines(s@).len(),
            r@.len() == i,
            forall|j: int| 0 <= j < i ==> #[trigger] r@[j]@ == spec_lines(s@)[j],
    {
        let p = &parts[i];
        proof {
            assert(spec_lines(s@)[i as int] == if (i as int) < sp.len() - 1 {
                strip_cr(sp[i as int])
            } else {
                sp[i as int]
            });
        }
        if i + 1 < parts.len() && p.len() > 0 && p[p.len() - 1] == '\r' {
            let mut q = p.clone();
            q.pop();
            proof {
                assert(q@ == p@.drop_last());
            }
            r.push(q);
        } else {
            r.push(p.clone());
        }
    }
    r
}

/// The lines of a string slice.
pub fn lines(s: &str) -> (r: Vec<Vec<char>>)
    ensures
        r@.len() == spec_lines(s@).len(),
        forall|i: int| 0 <= i < r@.len() ==> #[trigger] r@[i]@ == spec_lines(s@)[i],
{
    let v = chars_of(s);
    lines_of(&v)
}

/// Unicode white space (`char::is_whitespace`).
pub open spec fn is_ws(c: char) -> bool {
    ||| c == ' '
    ||| ('\t' <= c && c <= '\r')
    ||| c == '\u{85}'
    ||| c == '\u{A0}'
    ||| c == '\u{1680}'
    ||| ('\u{2000}' <= c && c <= '\u{200A}')
    ||| c == '\u{2028}'
    ||| c == '\u{2029}'
    ||| c == '\u{202F}'
    ||| c == '\u{205F}'
    ||| c == '\u{3000}'
}

/// Whether `c` is white space.
pub fn char_is_ws(c: char) -> (r: bool)
    ensures
        r == is_ws(c),
{
    c == ' ' || ('\t' <= c && c <= '\r') || c == '\u{85}' || c == '\u{A0}' || c == '\u{1680}'
        || ('\u{2000}' <= c && c <= '\u{200A}') || c == '\u{2028}' || c == '\u{2029}'
        || c == '\u{202F}' || c == '\u{205F}' || c == '\u{3000}'
}

/// Index of the first character of `s` that is not white space (`s.len()`
/// when there is none).
pub open spec fn first_non_ws(s: Seq<char>) -> int
    decreases s.len(),
{
    if s.len() == 0 {
        0
    } else if is_ws(s[0]) {
        1 + first_non_ws(s.drop_first())
    } else {
        0
    }
}

/// One past the index of the last character of `s` that is not white space
/// (0 when there is none).
pub open spec fn end_non_ws(s: Seq<char>) -> int
    decreases s.len(),
{
    if s.len() == 0 {
        0
    } else if is_ws(s.last()) {
        end_non_ws(s.drop_last())
    } else {
        s.len() as int
    }
}

/// `s` without leading and trailing white space (`str::trim`).
pub open spec fn spec_trim(s: Seq<char>) -> Seq<char> {
    if end_non_ws(s) == 0 {
        Seq::empty()
    } else {
        s.subrange(first_non_ws(s), end_non_ws(s))
    }
}

proof fn lemma_first_non_ws(s: Seq<char>)
    ensures
        0 <= first_non_ws(s) <= s.len(),
        forall|j: int| 0 <= j < first_non_ws(s) ==> is_ws(#[trigger] s[j]),
        first_non_ws(s) < s.len() ==> !is_ws(s[first_non_ws(s)]),
    decreases s.len(),
{
    if s.len() > 0 && is_ws(s[0]) {
        lemma_first_non_ws(s.drop_first());
        assert forall|j: int| 0 <= j < first_non_ws(s) implies is_ws(#[trigger] s[j]) by {
            if j > 0 {
                assert(s[j] == s.drop_first()[j - 1]);
            }
        }
    }
}

proof fn lemma_end_non_ws(s: Seq<char>)
    ensures
        0 <= end_non_ws(s) <= s.len(),
        forall|j: int| end_non_ws(s) <= j < s.len() ==> is_ws(#[trigger] s[j]),
        end_non_ws(s) > 0 ==> !is_ws(s[end_non_ws(s) - 1]),
    decreases s.len(),
{
    if s.len() > 0 && is_ws(s.last()) {
        lemma_end_non_ws(s.drop_last());
        assert forall|j: int| end_non_ws(s) <= j < s.len() implies is_ws(#[trigger] s[j]) by {
            if j < s.len() - 1 {
                assert(s[j] == s.drop_last()[j]);
            }
        }
    }
}

/// When `s` has a non-space character, the first one comes no later than
/// the last one.
proof fn lemma_trim_bounds(s: Seq<char>)
    ensures
        end_non_ws(s) > 0 ==> first_non_ws(s) < end_non_ws(s),
{
    lemma_first_non_ws(s);
    lemma_end_non_ws(s);
    if end_non_ws(s) > 0 && first_non_ws(s) >= end_non_ws(s) {
        assert(is_ws(s[end_non_ws(s) - 1]));
    }
}

/// `s` without leading and trailing white space.
pub fn trim(s: &Vec<char>) -> (r: Vec<char>)
    ensures
        r@ == spec_trim(s@),
{
    proof {
        lemma_first_non_ws(s@);
        lemma_end_non_ws(s@);
        lemma_trim_bounds(s@);
    }
    let mut e: usize = s.len();
    assert(s@.take(e as int) == s@);
    while e > 0 && char_is_ws(s[e - 1])
        invariant
            e <= s.len(),
            end_non_ws(s@) == end_non_ws(s@.take(e as int)),
        decreases e,
    {
        proof {
            assert(s@.take(e as int).drop_last() == s@.take(e - 1));
        }
        e = e - 1;
    }
    proof {
        lemma_end_non_ws(s@.take(e as int));
        if e > 0 {
            assert(s@.take(e as int).last() == s@[e - 1]);
        }
        assert(end_non_ws(s@) == e);
    }
    if e == 0 {
        return Vec::new();
    }
    let mut b: usize = 0;
    assert(s@.skip(0) == s@);
    while char_is_ws(s[b])
        invariant
            b < e,
            first_non_ws(s@) < e,
            e <= s.len(),
            e == end_non_ws(s@),
            first_non_ws(s@) == b + first_non_ws(s@.skip(b as int)),
        decreases e - b,
    {
        proof {
            assert(s@.skip(b as int)[0] == s@[b as int]);
            assert(s@.skip(b as int).drop_first() == s@.skip(b + 1));
            lemma_first_non_ws(s@);
            lemma_first_non_ws(s@.skip(b as int));
        }
        b = b + 1;
    }
    proof {
        assert(s@.skip(b as int)[0] == s@[b as int]);
        lemma_first_non_ws(s@);
    }
    let mut r: Vec<char> = Vec::new();
    let mut i = b;
    while i < e
        invariant
            b <= i <= e,
            e <= s.len(),
            r@ == s@.subrange(b as int, i as int),
        decreases e - i,
    {
        r.push(s[i]);
        i = i + 1;
    }
    r
}

/// Trims a string slice.
pub fn trim_str(s: &str) -> (r: Vec<char>)
    ensures
        r@ == spec_trim(s@),
{
    let v = chars_of(s);
    trim(&v)
}

/// The decimal digit for `d` (below ten).
pub open spec fn digit_char(d: nat) -> char {
    if d == 0 {
        '0'
    } else if d == 1 {
        '1'
    } else if d == 2 {
        '2'
    } else if d == 3 {
        '3'
    } else if d == 4 {
        '4'
    } else if d == 5 {
        '5'
    } else if d == 6 {
        '6'
    } else if d == 7 {
        '7'
    } else if d == 8 {
        '8'
    } else {
        '9'
    }
}

/// The decimal notation of `n`.
pub open spec fn decimal(n: nat) -> Seq<char>
    decreases n,
{
    if n < 10 {
        seq![digit_char(n)]
    } else {
        decimal(n / 10).push(digit_char(n % 10))
    }
}

fn digit(d: usize) -> (r: char)
    requires
        d < 10,
    ensures
        r == digit_char(d as nat),
{
    if d == 0 {
        '0'
    } else if d == 1 {
        '1'
    } else if d == 2 {
        '2'
    } else if d == 3 {
        '3'
    } else if d == 4 {
        '4'
    } else if d == 5 {
        '5'
    } else if d == 6 {
        '6'
    } else if d == 7 {
        '7'
    } else if d == 8 {
        '8'
    } else {
        '9'
    }
}

/// The decimal notation of `n`.
pub fn decimal_text(n: usize) -> (r: Vec<char>)
    ensures
        r@ == decimal(n as nat),
    decreases n,
{
    if n < 10 {
        vec![digit(n)]
    } else {
        let mut r = decimal_text(n / 10);
        r.push(digit(n % 10));
        r
    }
}

/// Whether `pat` occurs in `s` at offset `i`.
pub open spec fn occurs_at(s: Seq<char>, pat: Seq<char>, i: int) -> bool {
    0 <= i && i + pat.len() <= s.len() && s.subrange(i, i + pat.len()) == pat
}

/// Whether `pat` occurs in `s`.
pub open spec fn spec_contains(s: Seq<char>, pat: Seq<char>) -> bool {
    exists|i: int| occurs_at(s, pat, i)
}

/// Whether `pat` occurs in `s`.
pub fn chars_contains(s: &Vec<char>, pat: &Vec<char>) -> (r: bool)
    ensures
        r == spec_contains(s@, pat@),
{
    if pat.len() > s.len() {
        proof {
            assert forall|i: int| !occurs_at(s@, pat@, i) by {}
        }
        return false;
    }
    let mut i: usize = 0;
    while i <= s.len() - pat.len()
        invariant
            pat@.len() <= s@.len(),
            i <= s@.len() - pat@.len() + 1,
            forall|j: int| 0 <= j < i ==> !occurs_at(s@, pat@, j),
        decreases s@.len() - i,
    {
        let mut same = true;
        let mut k: usize = 0;
        while k < pat.len()
            invariant
                i + pat@.len() <= s@.len(),
                i + pat.len() <= s.len(),
                k <= pat@.len(),
                same == (forall|m: int| 0 <= m < k ==> s@[i + m] == pat@[m]),
            decreases pat@.len() - k,
        {
            if s[i + k] != pat[k] {
                same = false;
            }
            k = k + 1;
        }
        if same {
            proof {
                assert(s@.subrange(i as int, i + pat@.len()) =~= pat@);
                assert(occurs_at(s@, pat@, i as int));
            }
            return true;
        }
        proof {
            if occurs_at(s@, pat@, i as int) {
                let m = choose|m: int| 0 <= m < pat@.len() && s@[i + m] != pat@[m];
                assert(s@.subrange(i as int, i + pat@.len())[m] == s@[i + m]);
            }
        }
        i = i + 1;
    }
    proof {
        assert forall|j: int| !occurs_at(s@, pat@, j) by {
            if j >= i {
                assert(j + pat@.len() > s@.len());
            }
        }
    }
    false
}

/// `s` with each occurrence of the non-empty `pat` replaced by `rep`, the
/// occurrences taken from left to right without overlap.
pub open spec fn spec_replace(s: Seq<char>, pat: Seq<char>, rep: Seq<char>) -> Seq<char>
    decreases s.len(),
{
    if pat.len() == 0 || s.len() < pat.len() {
        s
    } else if s.take(pat.len() as int) == pat {
        rep + spec_replace(s.skip(pat.len() as int), pat, rep)
    } else {
        seq![s[0]] + spec_replace(s.skip(1), pat, rep)
    }
}

/// `s` with each occurrence of the non-empty `pat` replaced by `rep`, as
/// `str::replace` does.
pub fn chars_replace(s: &Vec<char>, pat: &Vec<char>, rep: &Vec<char>) -> (r: Vec<char>)
    ensures
        r@ == spec_replace(s@, pat@, rep@),
{
    let mut out: Vec<char> = Vec::new();
    let mut i: usize = 0;
    if pat.len() == 0 {
        return s.clone();
    }
    proof {
        assert(s@.skip(0) =~= s@);
        assert(out@ + spec_replace(s@.skip(0), pat@, rep@) =~= spec_replace(s@, pat@, rep@));
    }
    while i < s.len()
        invariant
            pat@.len() > 0,
            i <= s@.len(),
            out@ + spec_replace(s@.skip(i as int), pat@, rep@) == spec_replace(s@, pat@, rep@),
        decreases s@.len() - i,
    {
        let ghost rest = s@.skip(i as int);
        if s.len() - i < pat.len() {
            proof {
                assert(spec_replace(rest, pat@, rep@) == rest);
            }
            while i < s.len()
                invariant
                    i <= s@.len(),
                    out@ + s@.skip(i as int) == spec_replace(s@, pat@, rep@),
                decreases s@.len() - i,
            {
                let ghost o = out@;
                out.push(s[i]);
                proof {
                    assert(o + s@.skip(i as int) =~= out@ + s@.skip(i + 1));
                }
                i = i + 1;
            }
            proof {
                assert(s@.skip(i as int) =~= Seq::<char>::empty());
                assert(out@ =~= out@ + s@.skip(i as int));
            }
            return out;
        }
        let mut same = true;
        let mut k: usize = 0;
        while k < pat.len()
            invariant
                i + pat@.len() <= s@.len(),
                i + pat.len() <= s.len(),
                k <= pat@.len(),
                same == (forall|m: int| 0 <= m < k ==> s@[i + m] == pat@[m]),
            decreases pat@.len() - k,
        {
            if s[i + k] != pat[k] {
                same = false;
            }
            k = k + 1;
        }
        let ghost o = out@;
        if same {
            proof {
                assert(rest.take(pat@.len() as int) =~= pat@);
                assert(rest.skip(pat@.len() as int) =~= s@.skip(i + pat@.len()));
            }
            for j in 0..rep.len()
                invariant
                    out@ == o + rep@.take(j as int),
            {
                out.push(rep[j]);
                proof {
                    assert(rep@.take(j + 1) =~= rep@.take(j as int).push(rep@[j as int]));
                }
            }
            proof {
                assert(rep@.take(rep@.len() as int) =~= rep@);
                assert(o + (rep@ + spec_replace(s@.skip(i + pat@.len()), pat@, rep@)) =~= out@ + spec_replace(
                    s@.skip(i + pat@.len()),
                    pat@,
                    rep@,
                ));
            }
            i = i + pat.len();
        } else {
            proof {
                let m = choose|m: int| 0 <= m < pat@.len() && s@[i + m] != pat@[m];
                assert(rest.take(pat@.len() as int)[m] == s@[i + m]);
                assert(rest.take(pat@.len() as int) != pat@);
                assert(rest.skip(1) =~= s@.skip(i + 1));
            }
            out.push(s[i]);
            proof {
                assert(o + (seq![s@[i as int]] + spec_replace(s@.skip(i + 1), pat@, rep@)) =~= out@ + spec_replace(
                    s@.skip(i + 1),
                    pat@,
                    rep@,
                ));
            }
            i = i + 1;
        }
    }
    proof {
        assert(s@.skip(i as int) =~= Seq::<char>::empty());
        assert(out@ =~= out@ + spec_replace(s@.skip(i as int), pat@, rep@));
    }
    out
}

} // verus!
