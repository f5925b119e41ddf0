//! Selection of descriptor matches between two frames: Lowe's ratio test and
//! an absolute distance gate over each descriptor's two nearest neighbours.
use vstd::prelude::*;

verus! {

/// A pairing of descriptor `query` of the first frame with descriptor `train`
/// of the second, at Hamming distance `distance` (lower is better).
#[derive(Clone, Copy, Debug, PartialEq, Eq, Structural)]
pub struct Correspondence {
    pub query: usize,
    pub train: usize,
    pub distance: u32,
}

/// The ratio `num / den` of the ratio test. A zero numerator, or a zero
/// denominator, accepts no match.
#[derive(Clone, Copy, Debug, PartialEq, Eq, Structural)]
pub struct Ratio {
    pub num: u32,
    pub den: u32,
}

/// Whether the nearest of a descriptor's candidates, listed nearest first, is
/// accepted: there are at least two candidates, the nearest distance is below
/// `ratio` times the second nearest, and below `max_distance`.
pub open spec fn passes(candidates: Seq<Correspondence>, ratio: Ratio, max_distance: u32) -> bool {
    &&& candidates.len() >= 2
    &&& ratio.den > 0
    &&& candidates[0].distance * ratio.den < ratio.num * candidates[1].distance
    &&& candidates[0].distance < max_distance
}

/// The match, if any, that a descriptor's candidate list yields.
pub open spec fn pick(ratio: Ratio, max_distance: u32) -> spec_fn(Vec<Correspondence>) -> Option<
    Correspondence,
> {
    |candidates: Vec<Correspondence>|
        if passes(candidates@, ratio, max_distance) {
            Some(candidates@[0])
        } else {
            None
        }
}

/// The accepted matches, in the order of the first frame's descriptors; none
/// when the first frame has fewer than two descriptors.
pub open spec fn selected(knn: Seq<Vec<Correspondence>>, ratio: Ratio, max_distance: u32) -> Seq<
    Correspondence,
> {
    if knn.len() < 2 {
        Seq::empty()
    } else {
        knn.filter_map(pick(ratio, max_distance))
    }
}

fn passes_exec(candidates: &Vec<Correspondence>, ratio: Ratio, max_distance: u32) -> (r: bool)
    ensures
        r == passes(candidates@, ratio, max_distance),
{
    if candidates.len() < 2 || ratio.den == 0 {
        return false;
    }
    let nearest = candidates[0].distance;
    let second = candidates[1].distance;
    proof {
        assert((nearest as u64) * (ratio.den as u64) <= u32::MAX * u32::MAX) by (nonlinear_arith);
        assert((ratio.num as u64) * (second as u64) <= u32::MAX * u32::MAX) by (nonlinear_arith);
    }
    (nearest as u64) * (ratio.den as u64) < (ratio.num as u64) * (second as u64) && nearest
        < max_distance
}

/// Selects matches from each first-frame descriptor's candidates in the
/// second frame (nearest first, as a two-nearest-neighbour search lists them):
/// the nearest is kept when there are two candidates, it is below `ratio`
/// times the second nearest, and below `max_distance`. The result follows the
/// first frame's order. A first frame with fewer than two descriptors gives
/// no match.
pub fn select_matches(knn: &Vec<Vec<Correspondence>>, ratio: Ratio, max_distance: u32) -> (r: Vec<
    Correspondence,
>)
    ensures
        r@ == selected(knn@, ratio, max_distance),
        knn@.len() < 2 ==> r@.len() == 0,
{
    if knn.len() < 2 {
        return Vec::new();
    }
    let ghost f = pick(ratio, max_distance);
    let mut out: Vec<Correspondence> = Vec::new();
    let mut i: usize = 0;
    while i < knn.len()
        invariant
            i <= knn.len(),
            f == pick(ratio, max_distance),
            out@ == knn@.take(i as int).filter_map(f),
        decreases knn.len() - i,
    {
        proof {
            knn@.lemma_filter_map_take_succ(f, i as int);
        }
        if passes_exec(&knn[i], ratio, max_distance) {
            out.push(knn[i][0]);
        }
        i = i + 1;
    }
    proof {
        assert(knn@.take(knn@.len() as int) == knn@);
    }
    out
}

/// Whether `c` is the nearest candidate of some descriptor, with a second
/// candidate, below the distance gate and below `ratio` times the second.
pub open spec fn justified(
    knn: Seq<Vec<Correspondence>>,
    c: Correspondence,
    ratio: Ratio,
    max_distance: u32,
) -> bool {
    exists|i: int|
        0 <= i < knn.len() && #[trigger] knn[i]@.len() >= 2 && c == knn[i]@[0] && c.distance
            < max_distance && c.distance * ratio.den < ratio.num * knn[i]@[1].distance
}

/// No accepted match is at or above the distance gate, or fails the ratio
/// test against the second nearest candidate of its descriptor.
pub proof fn lemma_selected_pass_both_tests(
    knn: Seq<Vec<Correspondence>>,
    ratio: Ratio,
    max_distance: u32,
)
    ensures
        forall|j: int|
            0 <= j < selected(knn, ratio, max_distance).len() ==> justified(
                knn,
                #[trigger] selected(knn, ratio, max_distance)[j],
                ratio,
                max_distance,
            ),
{
    if knn.len() >= 2 {
        lemma_picked_justified(knn, ratio, max_distance);
    }
}

proof fn lemma_picked_justified(knn: Seq<Vec<Correspondence>>, ratio: Ratio, max_distance: u32)
    ensures
        forall|j: int|
            0 <= j < knn.filter_map(pick(ratio, max_distance)).len() ==> justified(
                knn,
                #[trigger] knn.filter_map(pick(ratio, max_distance))[j],
                ratio,
                max_distance,
            ),
    decreases knn.len(),
{
    if knn.len() > 0 {
        let rest = knn.drop_last();
        lemma_picked_justified(rest, ratio, max_distance);
        let s = knn.filter_map(pick(ratio, max_distance));
        let sr = rest.filter_map(pick(ratio, max_distance));
        assert forall|j: int| 0 <= j < s.len() implies justified(knn, #[trigger] s[j], ratio, max_distance) by {
            if j < sr.len() {
                assert(s[j] == sr[j]);
                assert(justified(rest, sr[j], ratio, max_distance));
                let i = choose|i: int|
                    0 <= i < rest.len() && #[trigger] rest[i]@.len() >= 2 && sr[j] == rest[i]@[0]
                        && sr[j].distance < max_distance && sr[j].distance * ratio.den
                        < ratio.num * rest[i]@[1].distance;
                assert(knn[i] == rest[i]);
            } else {
                let i = knn.len() - 1;
                assert(knn[i] == knn.last());
                assert(knn[i]@.len() >= 2);
            }
        }
    }
}

/// When either frame has fewer than two descriptors (fewer than two
/// candidate lists, or no list with two candidates), no match is selected.
pub proof fn lemma_too_few_candidates_no_match(
    knn: Seq<Vec<Correspondence>>,
    ratio: Ratio,
    max_distance: u32,
)
    requires
        knn.len() < 2 || forall|i: int| 0 <= i < knn.len() ==> (#[trigger] knn[i])@.len() < 2,
    ensures
        selected(knn, ratio, max_distance) == Seq::<Correspondence>::empty(),
{
    if knn.len() >= 2 {
        lemma_no_pair_nothing_picked(knn, ratio, max_distance);
    }
}

proof fn lemma_no_pair_nothing_picked(knn: Seq<Vec<Correspondence>>, ratio: Ratio, max_distance: u32)
    requires
        forall|i: int| 0 <= i < knn.len() ==> (#[trigger] knn[i])@.len() < 2,
    ensures
        knn.filter_map(pick(ratio, max_distance)) == Seq::<Correspondence>::empty(),
    decreases knn.len(),
{
    if knn.len() > 0 {
        let rest = knn.drop_last();
        assert forall|i: int| 0 <= i < rest.len() implies (#[trigger] rest[i])@.len() < 2 by {
            assert(rest[i] == knn[i]);
        }
        lemma_no_pair_nothing_picked(rest, ratio, max_distance);
        assert(knn.last() == knn[knn.len() - 1]);
    }
}

} // verus!
