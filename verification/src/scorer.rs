//! The dynamic-programming scorer and its match-position recovery.
//!
//! For a needle of length `q` and a haystack of length `c` the scorer fills
//! two `q x c` matrices. `D[i][j]` is the best score achievable when needle
//! character `i` is matched exactly at haystack position `j`; `M[i][j]` is
//! the best score achievable matching the needle up to `i` using the
//! haystack up to `j`, allowing skipped haystack characters. The final score
//! is the last entry of `M`.

use vstd::prelude::*;
use crate::bonus;
use crate::bonus::{bonus_at, lemma_bonus_range};
use crate::consts::{
    SCORE_GAP_INNER,
    SCORE_GAP_LEADING,
    SCORE_GAP_TRAILING,
    SCORE_MATCH_CONSECUTIVE,
    CANDIDATE_MAX_CHARS,
};
use crate::mat::Mat;
use crate::matcher::{char_eq, chars_of, eq, vec_char_eq};
use crate::score_value::{s_add, s_fin, s_is_fin, s_max, ScoreValue, SpecScore};

verus! {

/// The gap penalty in force on needle row `i`.
pub open spec fn gap_at(nlen: int, i: int) -> int {
    if i == nlen - 1 {
        SCORE_GAP_TRAILING as int
    } else {
        SCORE_GAP_INNER as int
    }
}

/// Best score with needle character `i` matched exactly at haystack
/// position `j`.
pub open spec fn d_val(n: Seq<char>, h: Seq<char>, i: int, j: int) -> SpecScore
    decreases i, j, 0int,
{
    if i < 0 || j < 0 {
        SpecScore::MinusInf
    } else if !char_eq(n[i], h[j]) {
        SpecScore::MinusInf
    } else if i == 0 {
        SpecScore::Fin(j * (SCORE_GAP_LEADING as int) + bonus_at(h, j))
    } else if j > 0 {
        s_max(
            s_add(m_val(n, h, i - 1, j - 1), bonus_at(h, j)),
            s_add(d_val(n, h, i - 1, j - 1), SCORE_MATCH_CONSECUTIVE as int),
        )
    } else {
        SpecScore::MinusInf
    }
}

/// Best score matching the needle up to `i` within the haystack up to `j`,
/// gaps allowed.
pub open spec fn m_val(n: Seq<char>, h: Seq<char>, i: int, j: int) -> SpecScore
    decreases i, j, 1int,
{
    if i < 0 || j < 0 {
        SpecScore::MinusInf
    } else {
        let prev = if j == 0 {
            SpecScore::MinusInf
        } else {
            m_val(n, h, i, j - 1)
        };
        let gapped = s_add(prev, gap_at(n.len() as int, i));
        if char_eq(n[i], h[j]) {
            s_max(d_val(n, h, i, j), gapped)
        } else {
            gapped
        }
    }
}

/// The score of `n` against `h`: minus infinity for an empty needle or an
/// oversized haystack, plus infinity for identical strings, and the last
/// `M` entry otherwise.
pub open spec fn score_spec(n: Seq<char>, h: Seq<char>) -> SpecScore {
    if n.len() == 0 {
        SpecScore::MinusInf
    } else if n == h {
        SpecScore::PlusInf
    } else if h.len() > CANDIDATE_MAX_CHARS as int {
        SpecScore::MinusInf
    } else {
        m_val(n, h, n.len() - 1, h.len() - 1)
    }
}

/// Finite matrix entries stay within a bound linear in their indices.
proof fn lemma_dp_bounded(n: Seq<char>, h: Seq<char>, i: int, j: int)
    requires
        0 <= i,
        0 <= j < h.len(),
        h.len() <= CANDIDATE_MAX_CHARS as int,
    ensures
        s_is_fin(d_val(n, h, i, j)) ==> -2500 * (i + 1) <= s_fin(d_val(n, h, i, j)) <= 2500 * (i
            + 1),
        s_is_fin(m_val(n, h, i, j)) ==> -(2500 * (i + 1) + 2 * (j + 1)) <= s_fin(m_val(n, h, i, j))
            <= 2500 * (i + 1) + 2 * (j + 1),
    decreases i, j,
{
    lemma_bonus_range(h, j);
    if i > 0 && j > 0 {
        lemma_dp_bounded(n, h, i - 1, j - 1);
    }
    if j > 0 {
        lemma_dp_bounded(n, h, i, j - 1);
    }
}

/// With fewer haystack than needle characters available, no alignment
/// exists: below the diagonal both matrices hold minus infinity.
proof fn lemma_dp_below_diagonal(n: Seq<char>, h: Seq<char>, i: int, j: int)
    requires
        j < i,
    ensures
        d_val(n, h, i, j) == SpecScore::MinusInf,
        m_val(n, h, i, j) == SpecScore::MinusInf,
    decreases i, j, 1int,
{
    if 0 <= j {
        if j > 0 {
            lemma_dp_below_diagonal(n, h, i - 1, j - 1);
            lemma_dp_below_diagonal(n, h, i, j - 1);
        }
    }
}

/// In a row-major layout an in-range pair of coordinates stays inside the
/// buffer.
proof fn lemma_rowmajor_in_range(a: int, b: int, rows: int, cols: int)
    by (nonlinear_arith)
    requires
        0 <= a < rows,
        0 <= b < cols,
    ensures
        0 <= a * cols + b < rows * cols,
{
}

/// Row-major indices are injective: distinct coordinate pairs occupy
/// distinct buffer slots.
proof fn lemma_rowmajor_injective(a1: int, b1: int, a2: int, b2: int, cols: int)
    by (nonlinear_arith)
    requires
        0 <= b1 < cols,
        0 <= b2 < cols,
        0 <= a1,
        0 <= a2,
        a1 * cols + b1 == a2 * cols + b2,
    ensures
        a1 == a2 && b1 == b2,
{
}

/// Rows `0 .. i` of both matrices, and columns `0 .. j` of row `i`, hold
/// the corresponding `d_val` / `m_val` entries.
pub open spec fn dm_filled(
    d: &Mat,
    m: &Mat,
    n: Seq<char>,
    h: Seq<char>,
    i: int,
    j: int,
) -> bool {
    &&& forall|ii: int, jj: int|
        0 <= ii && 0 <= jj < h.len() && (ii < i || (ii == i && jj < j)) ==> #[trigger] d.entry(
            ii,
            jj,
        ) == d_val(n, h, ii, jj)
    &&& forall|ii: int, jj: int|
        0 <= ii && 0 <= jj < h.len() && (ii < i || (ii == i && jj < j)) ==> #[trigger] m.entry(
            ii,
            jj,
        ) == m_val(n, h, ii, jj)
}

/// Well-shaped `D` and `M` matrices for `n` against `h`.
pub open spec fn dm_shaped(d: &Mat, m: &Mat, n: Seq<char>, h: Seq<char>) -> bool {
    &&& d.spec_cols() == h.len()
    &&& m.spec_cols() == h.len()
    &&& d.spec_contents().len() == n.len() * h.len()
    &&& m.spec_contents().len() == n.len() * h.len()
}

/// Fills the two score matrices for `n` against `h`.
fn calculate_score(n: &Vec<char>, h: &Vec<char>) -> (r: (Mat, Mat))
    requires
        1 <= n@.len() <= h@.len(),
        h@.len() <= CANDIDATE_MAX_CHARS,
    ensures
        dm_shaped(&r.0, &r.1, n@, h@),
        dm_filled(&r.0, &r.1, n@, h@, n@.len() as int, 0),
        dm_filled(&r.0, &r.1, n@, h@, n@.len() - 1, h@.len() as int),
{
    let nl = n.len();
    let hl = h.len();
    let bonus_vec = bonus::compute(h);
    proof {
        lemma_rowmajor_in_range(nl - 1, hl - 1, nl as int, hl as int);
        assert((nl as int) * (hl as int) <= 1024 * 1024) by (nonlinear_arith)
            requires
                0 <= nl as int <= 1024,
                0 <= hl as int <= 1024,
        ;
    }
    let mut d = Mat::new(nl, hl);
    let mut m = Mat::new(nl, hl);
    let mut i: usize = 0;
    while i < nl
        invariant
            1 <= nl == n@.len(),
            1 <= hl == h@.len() <= CANDIDATE_MAX_CHARS,
            bonus_vec@.len() == hl,
            forall|k: int| 0 <= k < hl ==> #[trigger] bonus_vec@[k] == bonus_at(h@, k),
            i <= nl,
            (nl as int) * (hl as int) <= usize::MAX,
            dm_shaped(&d, &m, n@, h@),
            dm_filled(&d, &m, n@, h@, i as int, 0),
        decreases nl - i,
    {
        let gap: i128 = if i == nl - 1 {
            SCORE_GAP_TRAILING
        } else {
            SCORE_GAP_INNER
        };
        let mut prev = ScoreValue::MinusInf;
        let mut j: usize = 0;
        while j < hl
            invariant
                1 <= nl == n@.len(),
                1 <= hl == h@.len() <= CANDIDATE_MAX_CHARS,
                bonus_vec@.len() == hl,
                forall|k: int| 0 <= k < hl ==> #[trigger] bonus_vec@[k] == bonus_at(h@, k),
                i < nl,
                j <= hl,
                (nl as int) * (hl as int) <= usize::MAX,
                gap == gap_at(nl as int, i as int),
                dm_shaped(&d, &m, n@, h@),
                dm_filled(&d, &m, n@, h@, i as int, j as int),
                prev@ == if j == 0 {
                    SpecScore::MinusInf
                } else {
                    m_val(n@, h@, i as int, j - 1)
                },
            decreases hl - j,
        {
            proof {
                lemma_rowmajor_in_range(i as int, j as int, nl as int, hl as int);
                if j > 0 {
                    lemma_dp_bounded(n@, h@, i as int, j - 1);
                }
                if i > 0 && j > 0 {
                    lemma_rowmajor_in_range(i - 1, j - 1, nl as int, hl as int);
                    lemma_dp_bounded(n@, h@, i - 1, j - 1);
                }
                lemma_bonus_range(h@, j as int);
            }
            let matched = eq(n[i], h[j]);
            let score: ScoreValue = if matched {
                if i == 0 {
                    ScoreValue::Fin(-(j as i128) + bonus_vec[j])
                } else if j > 0 {
                    let md = match m.get(i - 1, j - 1) {
                        Some(v) => v,
                        None => ScoreValue::MinusInf,
                    };
                    let dd = match d.get(i - 1, j - 1) {
                        Some(v) => v,
                        None => ScoreValue::MinusInf,
                    };
                    md.add_const(bonus_vec[j]).max_of(dd.add_const(SCORE_MATCH_CONSECUTIVE))
                } else {
                    ScoreValue::MinusInf
                }
            } else {
                ScoreValue::MinusInf
            };
            proof {
                assert(score@ == d_val(n@, h@, i as int, j as int));
            }
            if matched {
                prev = score.max_of(prev.add_const(gap));
            } else {
                prev = prev.add_const(gap);
            }
            proof {
                assert(prev@ == m_val(n@, h@, i as int, j as int));
            }
            let ghost old_d = d;
            let ghost old_m = m;
            d.set(i, j, score);
            m.set(i, j, prev);
            proof {
                assert forall|ii: int, jj: int|
                    0 <= ii && 0 <= jj < h@.len() && (ii < i as int || (ii == i as int && jj < j
                        + 1)) implies #[trigger] d.entry(ii, jj) == d_val(n@, h@, ii, jj) by {
                    lemma_rowmajor_in_range(ii, jj, nl as int, hl as int);
                    if ii * hl + jj == i as int * hl + j as int {
                        lemma_rowmajor_injective(ii, jj, i as int, j as int, hl as int);
                    } else {
                        assert(d.entry(ii, jj) == old_d.entry(ii, jj));
                    }
                }
                assert forall|ii: int, jj: int|
                    0 <= ii && 0 <= jj < h@.len() && (ii < i as int || (ii == i as int && jj < j
                        + 1)) implies #[trigger] m.entry(ii, jj) == m_val(n@, h@, ii, jj) by {
                    lemma_rowmajor_in_range(ii, jj, nl as int, hl as int);
                    if ii * hl + jj == i as int * hl + j as int {
                        lemma_rowmajor_injective(ii, jj, i as int, j as int, hl as int);
                    } else {
                        assert(m.entry(ii, jj) == old_m.entry(ii, jj));
                    }
                }
            }
            j += 1;
        }
        i += 1;
    }
    (d, m)
}

/// Scoring sentinel laws: an empty needle scores minus infinity against
/// any haystack, and every non-empty string scores plus infinity against
/// itself.
pub proof fn lemma_score_sentinels(n: Seq<char>, h: Seq<char>)
    ensures
        n.len() == 0 ==> score_spec(n, h) == SpecScore::MinusInf,
        h.len() > 0 ==> score_spec(h, h) == SpecScore::PlusInf,
{
}

/// Oversized-candidate guard: against a haystack longer than the safety
/// ceiling, every needle not identical to it scores minus infinity.
pub proof fn lemma_oversized_candidate(n: Seq<char>, h: Seq<char>)
    requires
        h.len() > CANDIDATE_MAX_CHARS as int,
        n != h,
    ensures
        score_spec(n, h) == SpecScore::MinusInf,
{
}

/// Calculates the vector of match bonuses for the characters of `haystack`.
pub fn compute_bonus(haystack: &str) -> (r: Vec<i128>)
    ensures
        r@.len() == haystack@.len(),
        forall|j: int| 0 <= j < r@.len() ==> #[trigger] r@[j] == bonus_at(haystack@, j),
{
    let h = chars_of(haystack);
    bonus::compute(&h)
}

/// Scores `needle` against `haystack`.
pub fn score(needle: &str, haystack: &str) -> (r: ScoreValue)
    ensures
        r@ == score_spec(needle@, haystack@),
{
    let n = chars_of(needle);
    let h = chars_of(haystack);
    score_chars(&n, &h)
}

/// The scorer over already-collected character vectors.
pub fn score_chars(n: &Vec<char>, h: &Vec<char>) -> (r: ScoreValue)
    ensures
        r@ == score_spec(n@, h@),
{
    let nl = n.len();
    let hl = h.len();
    if nl == 0 {
        return ScoreValue::MinusInf;
    }
    if vec_char_eq(n, h) {
        return ScoreValue::PlusInf;
    }
    if hl > CANDIDATE_MAX_CHARS {
        return ScoreValue::MinusInf;
    }
    if nl > hl {
        proof {
            lemma_dp_below_diagonal(n@, h@, nl - 1, hl - 1);
        }
        return ScoreValue::MinusInf;
    }
    let (d, m) = calculate_score(n, h);
    proof {
        lemma_rowmajor_in_range(nl - 1, hl - 1, nl as int, hl as int);
        assert((nl as int) * (hl as int) <= 1024 * 1024) by (nonlinear_arith)
            requires
                0 <= nl as int <= 1024,
                0 <= hl as int <= 1024,
        ;
    }
    match m.get(nl - 1, hl - 1) {
        Some(v) => v,
        None => ScoreValue::MinusInf,
    }
}

/// One step of position recovery: scanning down from haystack index `j`
/// for the position needle row `i` owns. Yields the chosen position (or
/// zero when the scan runs out), the index the next row's scan starts
/// from, and whether that row is forced to extend a consecutive run.
pub open spec fn bt_find(n: Seq<char>, h: Seq<char>, i: int, j: int, req: bool) -> (
    int,
    int,
    bool,
)
    decreases j,
{
    if j <= 0 {
        (0int, 0int, req)
    } else {
        let dd = d_val(n, h, i, j);
        let mm = m_val(n, h, i, j);
        if dd != SpecScore::MinusInf && (req || dd == mm) {
            let last = if i > 0 {
                d_val(n, h, i - 1, j - 1)
            } else {
                SpecScore::Fin(0)
            };
            (j, j, req || (i > 0 && mm == s_add(last, SCORE_MATCH_CONSECUTIVE as int)))
        } else {
            bt_find(n, h, i, j - 1, req)
        }
    }
}

/// The positions needle rows `0 ..= i` own, recovered from row `i`
/// downward with the scan starting at haystack index `j`.
pub open spec fn bt_positions(n: Seq<char>, h: Seq<char>, i: int, j: int, req: bool) -> Seq<usize>
    decreases i + 1,
{
    if i < 0 {
        Seq::<usize>::empty()
    } else {
        let (p, j2, req2) = bt_find(n, h, i, j, req);
        bt_positions(n, h, i - 1, j2, req2).push(p as usize)
    }
}

/// The positions a scoring call returns: empty for an empty needle or an
/// oversized haystack, the identity for identical strings, and the
/// backtrack over the score matrices otherwise.
pub open spec fn positions_spec(n: Seq<char>, h: Seq<char>) -> Seq<usize> {
    if n.len() == 0 {
        Seq::<usize>::empty()
    } else if n == h {
        Seq::new(n.len(), |k: int| k as usize)
    } else if h.len() > CANDIDATE_MAX_CHARS as int {
        Seq::<usize>::empty()
    } else {
        bt_positions(n, h, n.len() - 1, h.len() - 1, false)
    }
}

/// Below the diagonal the scan finds nothing and falls through to zero.
proof fn lemma_bt_find_below_diagonal(n: Seq<char>, h: Seq<char>, i: int, j: int, req: bool)
    requires
        j < i,
    ensures
        bt_find(n, h, i, j, req) == (0int, 0int, req),
    decreases j,
{
    if j > 0 {
        lemma_dp_below_diagonal(n, h, i, j);
        lemma_bt_find_below_diagonal(n, h, i, j - 1, req);
    }
}

/// With more needle rows than scannable haystack positions, every
/// recovered position is zero.
proof fn lemma_bt_positions_zero(n: Seq<char>, h: Seq<char>, i: int, j: int, req: bool)
    requires
        j < i || j <= 0,
    ensures
        bt_positions(n, h, i, j, req) =~= Seq::new(
            if i < 0 {
                0
            } else {
                (i + 1) as nat
            },
            |k: int| 0usize,
        ),
    decreases i + 1,
{
    if i >= 0 {
        if j < i {
            lemma_bt_find_below_diagonal(n, h, i, j, req);
        }
        let (p, j2, req2) = bt_find(n, h, i, j, req);
        lemma_bt_positions_zero(n, h, i - 1, j2, req2);
    }
}

/// The backtrack recovers one position per processed needle row.
proof fn lemma_bt_positions_len(n: Seq<char>, h: Seq<char>, i: int, j: int, req: bool)
    ensures
        bt_positions(n, h, i, j, req).len() == if i < 0 {
            0int
        } else {
            i + 1
        },
    decreases i + 1,
{
    if i >= 0 {
        let (p, j2, req2) = bt_find(n, h, i, j, req);
        lemma_bt_positions_len(n, h, i - 1, j2, req2);
    }
}

/// The shape of the positions a scoring call returns: one haystack index
/// per needle character, in non-decreasing order, except in the degenerate
/// cases, which yield an empty or identity sequence.
pub open spec fn positions_shape(n: Seq<char>, h: Seq<char>, p: Seq<usize>) -> bool {
    if n.len() == 0 {
        p.len() == 0
    } else if n == h {
        p == Seq::new(n.len(), |k: int| k as usize)
    } else if h.len() > CANDIDATE_MAX_CHARS as int {
        p.len() == 0
    } else {
        &&& p.len() == n.len()
        &&& h.len() > 0 ==> forall|k: int| 0 <= k < p.len() ==> (#[trigger] p[k]) < h.len()
        &&& h.len() == 0 ==> forall|k: int| 0 <= k < p.len() ==> (#[trigger] p[k]) == 0
        &&& forall|k: int| 0 <= k < p.len() - 1 ==> (#[trigger] p[k]) <= p[k + 1]
    }
}

/// Scores `needle` against `haystack` and recovers, for each needle
/// character, the haystack position it matched in the optimal alignment.
pub fn score_with_positions(needle: &str, haystack: &str) -> (r: (ScoreValue, Vec<usize>))
    ensures
        r.0@ == score_spec(needle@, haystack@),
        r.1@ == positions_spec(needle@, haystack@),
        positions_shape(needle@, haystack@, r.1@),
{
    let n = chars_of(needle);
    let h = chars_of(haystack);
    score_with_positions_chars(&n, &h)
}

/// Position recovery over already-collected character vectors.
pub fn score_with_positions_chars(n: &Vec<char>, h: &Vec<char>) -> (r: (ScoreValue, Vec<usize>))
    ensures
        r.0@ == score_spec(n@, h@),
        r.1@ == positions_spec(n@, h@),
        positions_shape(n@, h@, r.1@),
{
    let nl = n.len();
    let hl = h.len();
    if nl == 0 {
        return (ScoreValue::MinusInf, Vec::new());
    }
    if vec_char_eq(n, h) {
        let mut p: Vec<usize> = Vec::new();
        let mut k: usize = 0;
        while k < nl
            invariant
                k <= nl,
                p@.len() == k,
                forall|t: int| 0 <= t < k ==> #[trigger] p@[t] == t as usize,
            decreases nl - k,
        {
            p.push(k);
            k += 1;
        }
        proof {
            assert(p@ =~= Seq::new(n@.len(), |t: int| t as usize));
        }
        return (ScoreValue::PlusInf, p);
    }
    if hl > CANDIDATE_MAX_CHARS {
        return (ScoreValue::MinusInf, Vec::new());
    }
    let mut positions: Vec<usize> = Vec::new();
    let mut k: usize = 0;
    while k < nl
        invariant
            k <= nl,
            positions@.len() == k,
            forall|t: int| 0 <= t < k ==> #[trigger] positions@[t] == 0,
        decreases nl - k,
    {
        positions.push(0);
        k += 1;
    }
    if nl > hl {
        proof {
            lemma_dp_below_diagonal(n@, h@, nl - 1, hl - 1);
            lemma_bt_positions_zero(n@, h@, nl - 1, hl - 1, false);
            assert(positions@ =~= Seq::new(nl as nat, |k: int| 0usize));
            assert(positions@ =~= positions_spec(n@, h@));
        }
        return (ScoreValue::MinusInf, positions);
    }
    let (d, m) = calculate_score(n, h);
    proof {
        assert((nl as int) * (hl as int) <= 1024 * 1024) by (nonlinear_arith)
            requires
                0 <= nl as int <= 1024,
                0 <= hl as int <= 1024,
        ;
    }
    let mut match_required = false;
    let mut j: usize = hl - 1;
    let mut i: usize = nl;
    let ghost full = bt_positions(n@, h@, nl - 1, hl - 1, false);
    proof {
        lemma_bt_positions_len(n@, h@, nl - 1, hl - 1, false);
        assert(full.take(nl as int) =~= full);
    }
    while i > 0
        invariant
            1 <= nl == n@.len(),
            1 <= hl == h@.len() <= CANDIDATE_MAX_CHARS,
            (nl as int) * (hl as int) <= usize::MAX,
            nl <= hl,
            i <= nl,
            j < hl,
            dm_shaped(&d, &m, n@, h@),
            dm_filled(&d, &m, n@, h@, nl as int, 0),
            positions@.len() == nl,
            full == bt_positions(n@, h@, nl - 1, hl - 1, false),
            full.len() == nl,
            bt_positions(n@, h@, i - 1, j as int, match_required) == full.take(i as int),
            forall|t: int| i <= t < nl ==> #[trigger] positions@[t] == full[t],
            forall|t: int| 0 <= t < i ==> #[trigger] positions@[t] == 0,
            forall|t: int| i <= t < nl ==> j <= #[trigger] positions@[t] < hl,
            forall|t: int| i <= t < nl - 1 ==> #[trigger] positions@[t] <= positions@[t + 1],
        decreases i,
    {
        i -= 1;
        let ghost j0 = j as int;
        let ghost req0 = match_required;
        let mut recorded = false;
        while j > 0
            invariant_except_break
                !recorded,
                match_required == req0,
            invariant
                1 <= nl == n@.len(),
                1 <= hl == h@.len() <= CANDIDATE_MAX_CHARS,
                (nl as int) * (hl as int) <= usize::MAX,
                i < nl,
                j < hl,
                j as int <= j0 < hl,
                dm_shaped(&d, &m, n@, h@),
                dm_filled(&d, &m, n@, h@, nl as int, 0),
                positions@.len() == nl,
                !recorded ==> bt_find(n@, h@, i as int, j as int, req0) == bt_find(
                    n@,
                    h@,
                    i as int,
                    j0,
                    req0,
                ),
                recorded ==> bt_find(n@, h@, i as int, j0, req0) == (
                    j as int,
                    j as int,
                    match_required,
                ),
                !recorded ==> forall|t: int| 0 <= t <= i ==> #[trigger] positions@[t] == 0,
                recorded ==> j > 0 && positions@[i as int] == j && forall|t: int|
                    0 <= t < i ==> #[trigger] positions@[t] == 0,
                forall|t: int| i < t < nl ==> #[trigger] positions@[t] == full[t],
                full.len() == nl,
                forall|t: int| i < t < nl ==> j <= #[trigger] positions@[t] < hl,
                forall|t: int| i < t < nl - 1 ==> #[trigger] positions@[t] <= positions@[t + 1],
            ensures
                recorded || j == 0,
                bt_find(n@, h@, i as int, j0, req0) == (
                    positions@[i as int] as int,
                    j as int,
                    match_required,
                ),
            decreases j,
        {
            proof {
                lemma_rowmajor_in_range(i as int, j as int, nl as int, hl as int);
                if i > 0 {
                    lemma_rowmajor_in_range(i - 1, j - 1, nl as int, hl as int);
                    lemma_dp_bounded(n@, h@, i - 1, j - 1);
                }
            }
            let last: ScoreValue = if i > 0 && j > 0 {
                match d.get(i - 1, j - 1) {
                    Some(v) => v,
                    None => ScoreValue::MinusInf,
                }
            } else {
                ScoreValue::Fin(0)
            };
            let dd: ScoreValue = match d.get(i, j) {
                Some(v) => v,
                None => ScoreValue::MinusInf,
            };
            let mm: ScoreValue = match m.get(i, j) {
                Some(v) => v,
                None => ScoreValue::MinusInf,
            };
            if dd != ScoreValue::MinusInf && (match_required || dd == mm) {
                if i > 0 && j > 0 && mm == last.add_const(SCORE_MATCH_CONSECUTIVE) {
                    match_required = true;
                }
                positions.set(i, j);
                recorded = true;
                proof {
                    assert(bt_find(n@, h@, i as int, j as int, req0) == (
                        j as int,
                        j as int,
                        match_required,
                    ));
                }
                break;
            }
            proof {
                assert(bt_find(n@, h@, i as int, j as int, req0) == bt_find(
                    n@,
                    h@,
                    i as int,
                    j - 1,
                    req0,
                ));
            }
            j -= 1;
        }
        proof {
            let step = bt_find(n@, h@, i as int, j0, req0);
            assert(bt_positions(n@, h@, i as int, j0, req0) == bt_positions(
                n@,
                h@,
                i as int - 1,
                step.1,
                step.2,
            ).push(step.0 as usize));
            assert(full.take(i + 1) =~= full.take(i as int).push(full[i as int]));
            assert(bt_positions(n@, h@, i as int - 1, step.1, step.2).push(step.0 as usize)
                == full.take(i as int).push(full[i as int]));
            assert(bt_positions(n@, h@, i as int - 1, step.1, step.2) =~= full.take(
                i + 1,
            ).drop_last());
            assert(full.take(i as int) =~= full.take(i + 1).drop_last());
            assert(step.0 as usize == full.take(i + 1).last());
            assert(full[i as int] == full.take(i + 1).last());
            assert(positions@[i as int] == full[i as int]);
        }
    }
    proof {
        lemma_rowmajor_in_range(nl - 1, hl - 1, nl as int, hl as int);
        assert(positions@ =~= full);
        assert(positions@ =~= positions_spec(n@, h@));
    }
    let value = match m.get(nl - 1, hl - 1) {
        Some(v) => v,
        None => ScoreValue::MinusInf,
    };
    (value, positions)
}

} // verus!
