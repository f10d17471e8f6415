//! Whether the lines of a file may satisfy a formula in conjunctive normal
//! form: a pattern for any of its words, and a pattern for each clause.
use vstd::prelude::*;
use crate::commons::pattern::regex_is_match;
use crate::parsing_cocci::get_constants::{re_matches, texts_v};

verus! {

/// The patterns of `rs` that do not match in `l`, in order.
pub open spec fn unmatched(rs: Seq<Seq<char>>, l: Seq<char>) -> Seq<Seq<char>>
    decreases rs.len(),
{
    if rs.len() == 0 {
        Seq::empty()
    } else {
        let p = unmatched(rs.drop_last(), l);
        if re_matches(rs.last(), l) {
            p
        } else {
            p.push(rs.last())
        }
    }
}

/// The clause patterns still unmatched after the first `k` lines, and
/// whether the file was found to match: a single clause pattern left that
/// matches a line settles it; a line where some word occurs removes the
/// clause patterns that match it, and settles it when none is left.
pub open spec fn scan_lines(big: Seq<char>, rs: Seq<Seq<char>>, lines: Seq<Seq<char>>, k: int) -> (Seq<Seq<char>>, bool)
    decreases k,
{
    if k <= 0 || k > lines.len() {
        (rs, false)
    } else {
        let (cur, found) = scan_lines(big, rs, lines, k - 1);
        let l = lines[k - 1];
        if found {
            (cur, true)
        } else if cur.len() == 1 && re_matches(cur[0], l) {
            (cur, true)
        } else if re_matches(big, l) {
            let rest = unmatched(cur, l);
            (rest, rest.len() == 0)
        } else {
            (cur, false)
        }
    }
}

/// Whether the lines of a file may satisfy the formula whose words the
/// pattern `big_regexp` matches and whose clauses the patterns `regexps`
/// match, as `scan_lines` says.  A pattern that does not compile matches
/// nothing.
pub fn interpret(big_regexp: &str, regexps: &Vec<String>, lines: &Vec<String>) -> (r: bool)
    ensures
        r == scan_lines(big_regexp@, texts_v(regexps@), texts_v(lines@), lines@.len() as int).1,
{
    let ghost lv = texts_v(lines@);
    let ghost r0 = texts_v(regexps@);
    let mut cur: Vec<String> = Vec::new();
    let mut k: usize = 0;
    while k < regexps.len()
        invariant
            k <= regexps@.len(),
            r0 == texts_v(regexps@),
            texts_v(cur@) == r0.take(k as int),
        decreases regexps@.len() - k,
    {
        let ghost cb = texts_v(cur@);
        cur.push(regexps[k].clone());
        proof {
            assert(texts_v(cur@) =~= cb.push(regexps@[k as int]@));
            assert(r0.take(k + 1) =~= r0.take(k as int).push(regexps@[k as int]@));
        }
        k = k + 1;
    }
    proof {
        assert(r0.take(regexps@.len() as int) =~= r0);
    }
    let mut i: usize = 0;
    while i < lines.len()
        invariant
            i <= lines@.len(),
            lv == texts_v(lines@),
            r0 == texts_v(regexps@),
            scan_lines(big_regexp@, r0, lv, i as int) == (texts_v(cur@), false),
        decreases lines@.len() - i,
    {
        let l = lines[i].as_str();
        proof {
            assert(lv[i as int] == l@);
        }
        if cur.len() == 1 && regex_is_match(cur[0].as_str(), l) == Some(true) {
            proof {
                assert(texts_v(cur@)[0] == cur@[0]@);
                assert(lv.len() == lines@.len());
                lemma_found_stays(big_regexp@, r0, lv, i + 1, lv.len() as int);
                assert(scan_lines(big_regexp@, texts_v(regexps@), texts_v(lines@), lines@.len() as int).1);
            }
            return true;
        }
        proof {
            if cur.len() == 1 {
                assert(texts_v(cur@)[0] == cur@[0]@);
            }
        }
        if regex_is_match(big_regexp, l) == Some(true) {
            let ghost cv = texts_v(cur@);
            let mut rest: Vec<String> = Vec::new();
            let mut j: usize = 0;
            proof {
                assert(cv.take(0) =~= Seq::<Seq<char>>::empty());
                assert(texts_v(rest@) =~= Seq::<Seq<char>>::empty());
            }
            while j < cur.len()
                invariant
                    j <= cur@.len(),
                    cv == texts_v(cur@),
                    texts_v(rest@) == unmatched(cv.take(j as int), l@),
                decreases cur@.len() - j,
            {
                proof {
                    assert(cv.take(j + 1).drop_last() =~= cv.take(j as int));
                    assert(cv.take(j + 1).last() == cur@[j as int]@);
                }
                if regex_is_match(cur[j].as_str(), l) != Some(true) {
                    let ghost rb = texts_v(rest@);
                    rest.push(cur[j].clone());
                    proof {
                        assert(texts_v(rest@) =~= rb.push(cur@[j as int]@));
                    }
                }
                j = j + 1;
            }
            proof {
                assert(cv.take(cur@.len() as int) =~= cv);
            }
            cur = rest;
            if cur.len() == 0 {
                proof {
                    assert(lv.len() == lines@.len());
                lemma_found_stays(big_regexp@, r0, lv, i + 1, lv.len() as int);
                assert(scan_lines(big_regexp@, texts_v(regexps@), texts_v(lines@), lines@.len() as int).1);
                }
                return true;
            }
        }
        i = i + 1;
    }
    false
}

proof fn lemma_found_stays(big: Seq<char>, rs: Seq<Seq<char>>, lines: Seq<Seq<char>>, k: int, n: int)
    requires
        0 < k <= n <= lines.len(),
        scan_lines(big, rs, lines, k).1,
    ensures
        scan_lines(big, rs, lines, n).1,
    decreases n - k,
{
    if k < n {
        lemma_found_stays(big, rs, lines, k, n - 1);
    }
}

} // verus!
