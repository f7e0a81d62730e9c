//! Case-insensitive character comparison and the subsequence matcher.

use vstd::prelude::*;

verus! {

/// The sequence of characters that Unicode lowercasing yields for `c`.
pub uninterp spec fn lower_of(c: char) -> Seq<char>;

/// Relies on char::to_lowercase: the lowercase expansion of a character
/// depends on that character alone.
#[verifier::external_body]
fn char_lower(c: char) -> (r: Vec<char>)
    ensures
        r@ == lower_of(c),
{
    c.to_lowercase().collect()
}

/// Whether `c` is an ASCII character.
pub open spec fn is_ascii_char(c: char) -> bool {
    (c as u32) < 128
}

/// The code point of `c` with an ASCII capital letter folded to lower case.
pub open spec fn ascii_fold(c: char) -> u32 {
    if 65 <= c as u32 && c as u32 <= 90 {
        (c as u32 + 32) as u32
    } else {
        c as u32
    }
}

/// Case-insensitive character equality: exact equality first, ASCII folding
/// when either side is ASCII, full Unicode lowercasing otherwise.
pub open spec fn char_eq(a: char, b: char) -> bool {
    if a == b {
        true
    } else if is_ascii_char(a) || is_ascii_char(b) {
        ascii_fold(a) == ascii_fold(b)
    } else {
        lower_of(a) == lower_of(b)
    }
}

/// Character-for-character equality of two vectors.
pub fn vec_char_eq(x: &Vec<char>, y: &Vec<char>) -> (r: bool)
    ensures
        r == (x@ == y@),
{
    if x.len() != y.len() {
        assert(x@ != y@);
        return false;
    }
    let mut i: usize = 0;
    while i < x.len()
        invariant
            i <= x.len(),
            x.len() == y.len(),
            forall|k: int| 0 <= k < i ==> x@[k] == y@[k],
        decreases x.len() - i,
    {
        if x[i] != y[i] {
            assert(x@ != y@);
            return false;
        }
        i += 1;
    }
    proof {
        assert(x@ =~= y@);
    }
    true
}

/// Compares two characters case-insensitively.
pub fn eq(a: char, b: char) -> (r: bool)
    ensures
        r == char_eq(a, b),
{
    if a == b {
        true
    } else if (a as u32) < 128 || (b as u32) < 128 {
        let fa: u32 = if 65 <= a as u32 && a as u32 <= 90 {
            a as u32 + 32
        } else {
            a as u32
        };
        let fb: u32 = if 65 <= b as u32 && b as u32 <= 90 {
            b as u32 + 32
        } else {
            b as u32
        };
        fa == fb
    } else {
        let la = char_lower(a);
        let lb = char_lower(b);
        vec_char_eq(&la, &lb)
    }
}

/// Collects the characters of `s` into a vector.
pub fn chars_of(s: &str) -> (v: Vec<char>)
    ensures
        v@ == s@,
{
    let n = s.unicode_len();
    let mut v: Vec<char> = Vec::new();
    let mut i: usize = 0;
    while i < n
        invariant
            i <= n,
            n == s@.len(),
            v@ == s@.take(i as int),
        decreases n - i,
    {
        let c = s.get_char(i);
        v.push(c);
        proof {
            assert(v@ =~= s@.take(i + 1 as int));
        }
        i += 1;
    }
    proof {
        assert(v@ =~= s@);
    }
    v
}

/// `w` lists, for each needle character, the haystack position it matches:
/// positions are in range, strictly increasing, and each pair of characters
/// is case-insensitively equal.
pub open spec fn is_match_witness(n: Seq<char>, h: Seq<char>, w: Seq<int>) -> bool {
    &&& w.len() == n.len()
    &&& forall|k: int| 0 <= k < w.len() ==> 0 <= #[trigger] w[k] < h.len()
    &&& forall|k: int| 0 <= k < w.len() - 1 ==> #[trigger] w[k] < w[k + 1]
    &&& forall|k: int| 0 <= k < w.len() ==> char_eq(n[k], #[trigger] h[w[k]])
}

/// Every needle character appears in the haystack, in order, under
/// case-insensitive comparison.
pub open spec fn matches_spec(n: Seq<char>, h: Seq<char>) -> bool {
    exists|w: Seq<int>| is_match_witness(n, h, w)
}

/// Forward-only greedy scanning, as the executable matcher performs it.
pub open spec fn greedy_match(n: Seq<char>, h: Seq<char>) -> bool
    decreases n.len() + h.len(),
{
    if n.len() == 0 {
        true
    } else if h.len() == 0 {
        false
    } else if char_eq(n[0], h[0]) {
        greedy_match(n.drop_first(), h.drop_first())
    } else {
        greedy_match(n, h.drop_first())
    }
}

/// Greedy scanning is sound: when it succeeds, a witness exists.
#[verifier::rlimit(100)]
proof fn lemma_greedy_sound(n: Seq<char>, h: Seq<char>)
    requires
        greedy_match(n, h),
    ensures
        matches_spec(n, h),
    decreases n.len() + h.len(),
{
    if n.len() == 0 {
        let w = Seq::<int>::empty();
        assert(is_match_witness(n, h, w));
    } else if char_eq(n[0], h[0]) {
        lemma_greedy_sound(n.drop_first(), h.drop_first());
        let w0 = choose|w0: Seq<int>| is_match_witness(n.drop_first(), h.drop_first(), w0);
        let w = Seq::<int>::new(
            (w0.len() + 1) as nat,
            |k: int| if k == 0 { 0int } else { w0[k - 1] + 1 },
        );
        assert forall|k: int| 0 <= k < w.len() implies 0 <= #[trigger] w[k] < h.len() by {
            if k > 0 {
                assert(0 <= w0[k - 1] < h.drop_first().len());
            }
        }
        assert forall|k: int| 0 <= k < w.len() - 1 implies #[trigger] w[k] < w[k + 1] by {
            if k > 0 {
                assert(w0[k - 1] < w0[k]);
            } else {
                assert(0 <= w0[0]);
            }
        }
        assert forall|k: int| 0 <= k < w.len() implies char_eq(n[k], #[trigger] h[w[k]]) by {
            if k > 0 {
                assert(char_eq(n.drop_first()[k - 1], h.drop_first()[w0[k - 1]]));
                assert(n.drop_first()[k - 1] == n[k]);
                assert(h.drop_first()[w0[k - 1]] == h[w0[k - 1] + 1]);
            }
        }
        assert(is_match_witness(n, h, w));
    } else {
        lemma_greedy_sound(n, h.drop_first());
        let w0 = choose|w0: Seq<int>| is_match_witness(n, h.drop_first(), w0);
        let w = Seq::<int>::new(w0.len(), |k: int| w0[k] + 1);
        assert forall|k: int| 0 <= k < w.len() implies char_eq(n[k], #[trigger] h[w[k]]) by {
            assert(char_eq(n[k], h.drop_first()[w0[k]]));
            assert(h.drop_first()[w0[k]] == h[w0[k] + 1]);
        }
        assert(is_match_witness(n, h, w));
    }
}

/// Greedy scanning is complete: when a witness exists, it succeeds.
proof fn lemma_greedy_complete(n: Seq<char>, h: Seq<char>)
    requires
        matches_spec(n, h),
    ensures
        greedy_match(n, h),
    decreases n.len() + h.len(),
{
    let w = choose|w: Seq<int>| is_match_witness(n, h, w);
    if n.len() == 0 {
    } else if h.len() == 0 {
        assert(0 <= w[0] < h.len());
    } else if char_eq(n[0], h[0]) {
        let w2 = Seq::<int>::new((w.len() - 1) as nat, |k: int| w[k + 1] - 1);
        assert forall|k: int| 0 <= k < w2.len() implies 0 <= #[trigger] w2[k]
            < h.drop_first().len() by {
            if k > 0 {
                assert(w[k] < w[k + 1]);
            } else {
                assert(w[0] < w[1]);
            }
        }
        assert forall|k: int| 0 <= k < w2.len() implies char_eq(
            n.drop_first()[k],
            #[trigger] h.drop_first()[w2[k]],
        ) by {
            assert(char_eq(n[k + 1], h[w[k + 1]]));
        }
        assert(is_match_witness(n.drop_first(), h.drop_first(), w2));
        lemma_greedy_complete(n.drop_first(), h.drop_first());
    } else {
        assert(w[0] != 0) by {
            assert(char_eq(n[0], h[w[0]]));
        }
        let w2 = Seq::<int>::new(w.len(), |k: int| w[k] - 1);
        assert forall|k: int| 0 <= k < w2.len() implies 0 <= #[trigger] w2[k]
            < h.drop_first().len() by {
            if k > 0 {
                assert(w[k - 1] < w[k]);
                assert(w[0] <= w[k]) by {
                    lemma_witness_increasing(w, 0, k);
                }
            }
        }
        assert forall|k: int| 0 <= k < w2.len() implies char_eq(
            n[k],
            #[trigger] h.drop_first()[w2[k]],
        ) by {
            assert(char_eq(n[k], h[w[k]]));
            assert(w[0] <= w[k]) by {
                lemma_witness_increasing(w, 0, k);
            }
        }
        assert(is_match_witness(n, h.drop_first(), w2));
        lemma_greedy_complete(n, h.drop_first());
    }
}

/// A strictly increasing sequence of positions grows with its index.
proof fn lemma_witness_increasing(w: Seq<int>, a: int, b: int)
    requires
        forall|k: int| 0 <= k < w.len() - 1 ==> #[trigger] w[k] < w[k + 1],
        0 <= a <= b < w.len(),
    ensures
        w[a] <= w[b],
    decreases b - a,
{
    if a < b {
        lemma_witness_increasing(w, a + 1, b);
        assert(w[a] < w[a + 1]);
    }
}

/// An empty needle always matches, and every string matches itself.
pub proof fn lemma_matches_empty_or_equal(q: Seq<char>, h: Seq<char>)
    ensures
        q.len() == 0 ==> matches_spec(q, h),
        q == h ==> matches_spec(q, h),
{
    if q.len() == 0 {
        assert(is_match_witness(q, h, Seq::<int>::empty()));
    }
    if q == h {
        let w = Seq::<int>::new(q.len() as nat, |k: int| k);
        assert(is_match_witness(q, h, w));
    }
}

/// Appending a character to the needle can only narrow the set of matching
/// haystacks: whatever matches the longer needle matches the shorter one.
pub proof fn lemma_append_narrows(q: Seq<char>, c: char, h: Seq<char>)
    ensures
        matches_spec(q.push(c), h) ==> matches_spec(q, h),
{
    if matches_spec(q.push(c), h) {
        let w = choose|w: Seq<int>| is_match_witness(q.push(c), h, w);
        let w2 = w.take(w.len() - 1);
        assert forall|k: int| 0 <= k < w2.len() implies char_eq(q[k], #[trigger] h[w2[k]]) by {
            assert(char_eq(q.push(c)[k], h[w[k]]));
        }
        assert(is_match_witness(q, h, w2));
    }
}

/// Returns true when the characters of `needle` occur in `haystack`, in the
/// same order, compared case-insensitively.
pub fn matches(needle: &str, haystack: &str) -> (r: bool)
    ensures
        r == matches_spec(needle@, haystack@),
{
    let n = chars_of(needle);
    let h = chars_of(haystack);
    matches_chars(&n, &h)
}

/// The matcher over already-collected character vectors.
pub fn matches_chars(n: &Vec<char>, h: &Vec<char>) -> (r: bool)
    ensures
        r == matches_spec(n@, h@),
{
    let mut i: usize = 0;
    let mut j: usize = 0;
    proof {
        assert(n@.skip(0) =~= n@);
        assert(h@.skip(0) =~= h@);
    }
    while i < n.len()
        invariant
            i <= n.len(),
            j <= h.len(),
            greedy_match(n@.skip(i as int), h@.skip(j as int)) == greedy_match(n@, h@),
        decreases n.len() - i,
    {
        let mut found = false;
        while j < h.len() && !found
            invariant
                i < n.len(),
                j <= h.len(),
                !found ==> greedy_match(n@.skip(i as int), h@.skip(j as int)) == greedy_match(
                    n@,
                    h@,
                ),
                found ==> j > 0 && char_eq(n@[i as int], h@[j - 1]) && greedy_match(
                    n@.skip(i + 1),
                    h@.skip(j as int),
                ) == greedy_match(n@, h@),
            decreases h.len() - j,
        {
            if eq(n[i], h[j]) {
                found = true;
                proof {
                    let ns = n@.skip(i as int);
                    let hs = h@.skip(j as int);
                    assert(ns[0] == n@[i as int]);
                    assert(hs[0] == h@[j as int]);
                    assert(ns.drop_first() =~= n@.skip(i + 1));
                    assert(hs.drop_first() =~= h@.skip(j + 1));
                    assert(ns.len() > 0 && hs.len() > 0);
                    assert(greedy_match(ns, hs) == greedy_match(
                        n@.skip(i + 1),
                        h@.skip(j + 1),
                    ));
                }
            } else {
                proof {
                    let ns = n@.skip(i as int);
                    let hs = h@.skip(j as int);
                    assert(ns[0] == n@[i as int]);
                    assert(hs[0] == h@[j as int]);
                    assert(hs.drop_first() =~= h@.skip(j + 1));
                    assert(ns.len() > 0 && hs.len() > 0);
                    assert(greedy_match(ns, hs) == greedy_match(ns, h@.skip(j + 1)));
                }
            }
            j += 1;
        }
        if !found {
            proof {
                assert(h@.skip(j as int).len() == 0);
                assert(n@.skip(i as int).len() > 0);
                lemma_match_iff_greedy(n@, h@);
            }
            return false;
        }
        i += 1;
    }
    proof {
        assert(n@.skip(i as int).len() == 0);
        lemma_match_iff_greedy(n@, h@);
    }
    true
}

/// Greedy forward scanning decides exactly the subsequence-match relation.
pub proof fn lemma_match_iff_greedy(n: Seq<char>, h: Seq<char>)
    ensures
        greedy_match(n, h) == matches_spec(n, h),
{
    if greedy_match(n, h) {
        lemma_greedy_sound(n, h);
    }
    if matches_spec(n, h) {
        lemma_greedy_complete(n, h);
    }
}

} // verus!
