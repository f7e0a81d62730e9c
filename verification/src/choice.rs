//! A candidate line paired with its derived score, and the ranking engine
//! that applies matcher and scorer across a whole candidate set.

use vstd::prelude::*;
use vstd::seq_lib::group_to_multiset_ensures;
use crate::matcher;
use crate::matcher::matches_spec;
use crate::score::Score;
use crate::score_value::{s_le, s_lt};
use crate::scorer::{positions_shape, score_spec};

verus! {

/// A candidate string together with its score against a query.
#[derive(Debug, Clone)]
pub struct Choice {
    /// The candidate line.
    pub text: String,
    /// The score the candidate earned, with its match positions when they
    /// were requested.
    pub score: Score,
}

/// A well-formed choice for query `q`: its text matches `q` and carries the
/// score and positions the scorer derives for it.
pub open spec fn choice_wf(q: Seq<char>, c: Choice) -> bool {
    &&& matches_spec(q, c.text@)
    &&& c.score.value@ == score_spec(q, c.text@)
    &&& c.score.positions matches Some(p) && positions_shape(q, c.text@, p@)
}

impl Choice {
    /// Creates a new choice when the needle matches the haystack.
    pub fn new(needle: &str, haystack: &str) -> (r: Option<Choice>)
        ensures
            match r {
                Some(c) => matches_spec(needle@, haystack@) && c.text@ == haystack@
                    && c.score.value@ == score_spec(needle@, haystack@) && c.score.positions
                    is None,
                None => !matches_spec(needle@, haystack@),
            },
    {
        if matcher::matches(needle, haystack) {
            let score = Score::new(needle, haystack);
            Some(Choice { text: haystack.to_owned(), score })
        } else {
            None
        }
    }

    /// Creates a new choice with derived match positions.
    pub fn with_positions(needle: &str, haystack: &str) -> (r: Option<Choice>)
        ensures
            match r {
                Some(c) => matches_spec(needle@, haystack@) && c.text@ == haystack@ && choice_wf(
                    needle@,
                    c,
                ),
                None => !matches_spec(needle@, haystack@),
            },
    {
        if matcher::matches(needle, haystack) {
            let score = Score::with_positions(needle, haystack);
            Some(Choice { text: haystack.to_owned(), score })
        } else {
            None
        }
    }

    /// The candidate line.
    pub fn text(&self) -> (r: &str)
        ensures
            r@ == self.text@,
    {
        self.text.as_str()
    }

    /// The choice's match positions, when they were derived.
    pub fn positions(&self) -> (r: Option<&Vec<usize>>)
        ensures
            match r {
                Some(p) => self.score.positions matches Some(q) && p@ == q@,
                None => self.score.positions is None,
            },
    {
        self.score.positions.as_ref()
    }
}

impl PartialEq for Choice {
    fn eq(&self, other: &Choice) -> (r: bool) {
        self.score.value == other.score.value
    }
}

impl vstd::std_specs::cmp::PartialEqSpecImpl for Choice {
    open spec fn obeys_eq_spec() -> bool {
        true
    }

    open spec fn eq_spec(&self, other: &Choice) -> bool {
        self.score.value@ == other.score.value@
    }
}

impl PartialOrd for Choice {
    fn partial_cmp(&self, other: &Choice) -> (r: Option<core::cmp::Ordering>) {
        if self.score.value.lt(&other.score.value) {
            Some(core::cmp::Ordering::Less)
        } else if other.score.value.lt(&self.score.value) {
            Some(core::cmp::Ordering::Greater)
        } else {
            Some(core::cmp::Ordering::Equal)
        }
    }
}

impl vstd::std_specs::cmp::PartialOrdSpecImpl for Choice {
    open spec fn obeys_partial_cmp_spec() -> bool {
        true
    }

    open spec fn partial_cmp_spec(&self, other: &Choice) -> Option<core::cmp::Ordering> {
        if s_lt(self.score.value@, other.score.value@) {
            Some(core::cmp::Ordering::Less)
        } else if s_lt(other.score.value@, self.score.value@) {
            Some(core::cmp::Ordering::Greater)
        } else {
            Some(core::cmp::Ordering::Equal)
        }
    }
}

/// The texts of a sequence of choices.
pub open spec fn texts_of(cs: Seq<Choice>) -> Seq<Seq<char>> {
    cs.map_values(|c: Choice| c.text@)
}

/// The character sequences of a sequence of strings.
pub open spec fn strs_of(ss: Seq<String>) -> Seq<Seq<char>> {
    ss.map_values(|s: String| s@)
}

/// The candidate texts that match query `q`, in their original order.
pub open spec fn filtered_texts(q: Seq<char>, cs: Seq<Seq<char>>) -> Seq<Seq<char>> {
    cs.filter(|h: Seq<char>| matches_spec(q, h))
}

/// Choices in descending score order.
pub open spec fn choices_sorted(r: Seq<Choice>) -> bool {
    forall|a: int, b: int|
        0 <= a < b < r.len() ==> s_le(#[trigger] r[b].score.value@, #[trigger] r[a].score.value@)
}

/// Appending a candidate extends the filtered texts exactly when it
/// matches.
proof fn lemma_filtered_texts_push(q: Seq<char>, s: Seq<Seq<char>>, x: Seq<char>)
    ensures
        filtered_texts(q, s.push(x)) == if matches_spec(q, x) {
            filtered_texts(q, s).push(x)
        } else {
            filtered_texts(q, s)
        },
{
    reveal(Seq::filter);
    assert(s.push(x).drop_last() =~= s);
}

/// Sequences holding the same texts the same number of times keep doing so
/// after filtering.
proof fn lemma_filter_permutation(a: Seq<Seq<char>>, b: Seq<Seq<char>>, pred: spec_fn(Seq<char>) -> bool)
    requires
        a.to_multiset() == b.to_multiset(),
    ensures
        a.filter(pred).to_multiset() == b.filter(pred).to_multiset(),
    decreases a.len(),
{
    broadcast use group_to_multiset_ensures;

    reveal(Seq::filter);
    if a.len() == 0 {
        assert(b.to_multiset().len() == 0);
        assert(b.len() == 0);
    } else {
        let x = a.last();
        let a2 = a.drop_last();
        assert(a.to_multiset().count(x) > 0) by {
            assert(a.contains(x));
        }
        assert(b.contains(x));
        let idx = choose|i: int| 0 <= i < b.len() && b[i] == x;
        let b2 = b.remove(idx);
        assert(a2.push(x) =~= a);
        assert(a.to_multiset() =~= a2.to_multiset().insert(x));
        assert(b2.to_multiset() =~= b.to_multiset().remove(x));
        assert(a2.to_multiset() =~= b2.to_multiset());
        lemma_filter_permutation(a2, b2, pred);
        let front = b.take(idx);
        let back = b.skip(idx + 1);
        assert(b =~= front + (seq![x] + back));
        assert(b2 =~= front + back);
        Seq::filter_distributes_over_add(front, seq![x] + back, pred);
        Seq::filter_distributes_over_add(seq![x], back, pred);
        Seq::filter_distributes_over_add(front, back, pred);
        assert(seq![x].drop_last() =~= Seq::<Seq<char>>::empty());
        assert(Seq::<Seq<char>>::empty().filter(pred) =~= Seq::<Seq<char>>::empty());
        assert(seq![x].filter(pred) == Seq::<Seq<char>>::empty().filter(pred).push(x) || seq![
            x,
        ].filter(pred) == Seq::<Seq<char>>::empty().filter(pred));
        if pred(x) {
            assert(seq![x].filter(pred) =~= seq![x]);
        } else {
            assert(seq![x].filter(pred) =~= Seq::<Seq<char>>::empty());
        }
        vstd::seq_lib::lemma_multiset_commutative(front.filter(pred), (seq![x] + back).filter(pred));
        vstd::seq_lib::lemma_multiset_commutative(seq![x].filter(pred), back.filter(pred));
        vstd::seq_lib::lemma_multiset_commutative(front.filter(pred), back.filter(pred));
        assert(a.filter(pred) =~= a2.filter(pred) + if pred(x) {
            seq![x]
        } else {
            Seq::<Seq<char>>::empty()
        });
        vstd::seq_lib::lemma_multiset_commutative(a2.filter(pred), if pred(x) {
            seq![x]
        } else {
            Seq::<Seq<char>>::empty()
        });
        assert(a.filter(pred).to_multiset() =~= b.filter(pred).to_multiset());
    }
}

/// Filtering by a stricter predicate ignores an earlier pass with a weaker
/// one.
proof fn lemma_filter_subsumed(
    s: Seq<Seq<char>>,
    strong: spec_fn(Seq<char>) -> bool,
    weak: spec_fn(Seq<char>) -> bool,
)
    requires
        forall|x: Seq<char>| #[trigger] strong(x) ==> weak(x),
    ensures
        s.filter(weak).filter(strong) == s.filter(strong),
    decreases s.len(),
{
    reveal(Seq::filter);
    if s.len() == 0 {
    } else {
        let x = s.last();
        let s2 = s.drop_last();
        lemma_filter_subsumed(s2, strong, weak);
        if weak(x) {
            assert(s.filter(weak) == s2.filter(weak).push(x));
            assert(s.filter(weak).drop_last() =~= s2.filter(weak));
        } else {
            assert(!strong(x));
        }
    }
}

/// Appending a character to the query keeps every remaining match a match
/// of the shorter query: re-filtering the previous result set equals a
/// fresh filter of the full set.
pub proof fn lemma_incremental_filter(
    q: Seq<char>,
    c: char,
    prior: Seq<Seq<char>>,
    full: Seq<Seq<char>>,
)
    requires
        prior.to_multiset() == filtered_texts(q, full).to_multiset(),
    ensures
        filtered_texts(q.push(c), prior).to_multiset() == filtered_texts(
            q.push(c),
            full,
        ).to_multiset(),
{
    let weak = |h: Seq<char>| matches_spec(q, h);
    let strong = |h: Seq<char>| matches_spec(q.push(c), h);
    assert forall|x: Seq<char>| #[trigger] strong(x) implies weak(x) by {
        crate::matcher::lemma_append_narrows(q, c, x);
    }
    lemma_filter_permutation(prior, full.filter(weak), strong);
    lemma_filter_subsumed(full, strong, weak);
}

/// No more candidates match than exist.
pub proof fn lemma_filtered_len(q: Seq<char>, cs: Seq<Seq<char>>)
    ensures
        filtered_texts(q, cs).len() <= cs.len(),
{
    Seq::lemma_filter_len(cs, |h: Seq<char>| matches_spec(q, h));
}

/// Typing one more character never increases the number of matching
/// candidates.
pub proof fn lemma_typing_narrows(q: Seq<char>, c: char, cs: Seq<Seq<char>>)
    ensures
        filtered_texts(q.push(c), cs).len() <= filtered_texts(q, cs).len(),
    decreases cs.len(),
{
    reveal(Seq::filter);
    if cs.len() == 0 {
    } else {
        let x = cs.last();
        lemma_typing_narrows(q, c, cs.drop_last());
        if matches_spec(q.push(c), x) {
            crate::matcher::lemma_append_narrows(q, c, x);
        }
    }
}

/// Scores every matching candidate, keeping the candidates' order.
fn matching_choices(query: &str, candidates: &Vec<String>) -> (r: Vec<Choice>)
    ensures
        forall|k: int| 0 <= k < r@.len() ==> choice_wf(query@, #[trigger] r@[k]),
        texts_of(r@) == filtered_texts(query@, strs_of(candidates@)),
{
    let mut acc: Vec<Choice> = Vec::new();
    let mut i: usize = 0;
    proof {
        assert(candidates@.take(0int) =~= Seq::<String>::empty());
        assert(strs_of(candidates@.take(0int)) =~= Seq::<Seq<char>>::empty());
        reveal(Seq::filter);
        assert(texts_of(acc@) =~= filtered_texts(query@, strs_of(candidates@.take(0int))));
    }
    while i < candidates.len()
        invariant
            i <= candidates@.len(),
            forall|k: int| 0 <= k < acc@.len() ==> choice_wf(query@, #[trigger] acc@[k]),
            texts_of(acc@) == filtered_texts(query@, strs_of(candidates@.take(i as int))),
        decreases candidates@.len() - i,
    {
        let ghost prior = acc@;
        let hay: &String = &candidates[i];
        match Choice::with_positions(query, hay.as_str()) {
            Some(c) => {
                acc.push(c);
                proof {
                    assert(texts_of(acc@) =~= texts_of(prior).push(hay@));
                }
            },
            None => {},
        }
        proof {
            let ghost cur = candidates@[i as int];
            assert(candidates@.take(i + 1) =~= candidates@.take(i as int).push(cur));
            assert(strs_of(candidates@.take(i + 1)) =~= strs_of(candidates@.take(i as int)).push(
                hay@,
            ));
            lemma_filtered_texts_push(query@, strs_of(candidates@.take(i as int)), hay@);
        }
        i += 1;
    }
    proof {
        assert(candidates@.take(candidates@.len() as int) =~= candidates@);
    }
    acc
}

/// Sorts choices into descending score order, preserving which choices, and
/// which texts, occur how often.
fn sort_choices(v: Vec<Choice>) -> (r: Vec<Choice>)
    ensures
        choices_sorted(r@),
        r@.to_multiset() == v@.to_multiset(),
        texts_of(r@).to_multiset() == texts_of(v@).to_multiset(),
{
    broadcast use group_to_multiset_ensures;

    let mut input = v;
    let mut out: Vec<Choice> = Vec::new();
    proof {
        assert(out@.to_multiset().add(input@.to_multiset()) =~= v@.to_multiset());
        assert(texts_of(out@) =~= Seq::<Seq<char>>::empty());
        assert(texts_of(out@).to_multiset().add(texts_of(input@).to_multiset()) =~= texts_of(
            v@,
        ).to_multiset());
    }
    while input.len() > 0
        invariant
            choices_sorted(out@),
            out@.to_multiset().add(input@.to_multiset()) == v@.to_multiset(),
            texts_of(out@).to_multiset().add(texts_of(input@).to_multiset()) == texts_of(
                v@,
            ).to_multiset(),
            forall|a: int, b: int|
                0 <= a < out@.len() && 0 <= b < input@.len() ==> s_le(
                    #[trigger] input@[b].score.value@,
                    #[trigger] out@[a].score.value@,
                ),
        decreases input.len(),
    {
        let mut best: usize = 0;
        let mut k: usize = 1;
        while k < input.len()
            invariant
                0 < input@.len(),
                best < k,
                k <= input@.len(),
                forall|t: int|
                    0 <= t < k ==> s_le(
                        #[trigger] input@[t].score.value@,
                        input@[best as int].score.value@,
                    ),
            decreases input@.len() - k,
        {
            if input[best].score.value.lt(&input[k].score.value) {
                best = k;
            }
            k += 1;
        }
        let ghost old_input = input@;
        let ghost old_out = out@;
        let c = input.remove(best);
        out.push(c);
        proof {
            broadcast use group_to_multiset_ensures;

            assert(texts_of(input@) =~= texts_of(old_input).remove(best as int));
            assert(texts_of(out@) =~= texts_of(old_out).push(c.text@));
            assert(old_input.to_multiset().count(c) > 0) by {
                assert(old_input.contains(c));
            }
            assert(texts_of(old_input).to_multiset().count(c.text@) > 0) by {
                assert(texts_of(old_input)[best as int] == c.text@);
                assert(texts_of(old_input).contains(c.text@));
            }
            assert(out@.to_multiset().add(input@.to_multiset()) =~= v@.to_multiset());
            assert(texts_of(out@).to_multiset().add(texts_of(input@).to_multiset()) =~= texts_of(
                v@,
            ).to_multiset());
        }
    }
    out
}

/// Ranks the candidates against the query: candidates that fail the
/// matcher are dropped, the rest are scored with positions and sorted into
/// descending score order.
pub fn rank(query: &str, candidates: &Vec<String>) -> (r: Vec<Choice>)
    ensures
        choices_sorted(r@),
        forall|k: int| 0 <= k < r@.len() ==> choice_wf(query@, #[trigger] r@[k]),
        texts_of(r@).to_multiset() == filtered_texts(query@, strs_of(candidates@)).to_multiset(),
{
    let unsorted = matching_choices(query, candidates);
    let ghost u = unsorted@;
    let r = sort_choices(unsorted);
    proof {
        broadcast use group_to_multiset_ensures;

        assert forall|k: int| 0 <= k < r@.len() implies choice_wf(query@, #[trigger] r@[k]) by {
            assert(r@.contains(r@[k]));
            assert(u.to_multiset().count(r@[k]) > 0);
            assert(u.contains(r@[k]));
            let t = choose|t: int| 0 <= t < u.len() && u[t] == r@[k];
            assert(choice_wf(query@, u[t]));
        }
    }
    r
}

} // verus!
