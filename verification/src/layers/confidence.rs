//! Confidence: which experts are too unsure of what they generated.

use crate::score::Score;
use vstd::prelude::*;
use vstd::string::*;

verus! {

/// Flags the experts whose score falls below `threshold`, in the given order.
pub fn check_confidence(scores: &[(String, Score)], threshold: Score) -> (r: Vec<String>)
    ensures
        r@ == scores@.filter(|p: (String, Score)| p.1.less(threshold)).map_values(
            |p: (String, Score)| p.0,
        ),
{
    let ghost low = |p: (String, Score)| p.1.less(threshold);
    let ghost name = |p: (String, Score)| p.0;
    let n: usize = scores.len();
    let mut r: Vec<String> = Vec::new();
    let mut i: usize = 0;
    assert(r@ =~= scores@.take(0).filter(low).map_values(name)) by {
        reveal(Seq::filter);
    }
    while i < n
        invariant
            i <= n,
            n == scores@.len(),
            low == (|p: (String, Score)| p.1.less(threshold)),
            name == (|p: (String, Score)| p.0),
            r@ == scores@.take(i as int).filter(low).map_values(name),
        decreases n - i,
    {
        let ghost before = scores@.take(i as int);
        proof {
            before.lemma_filter_push(scores@[i as int], low);
            assert(before.push(scores@[i as int]) =~= scores@.take(i + 1));
        }
        if scores[i].1.lt(threshold) {
            r.push(scores[i].0.clone());
        }
        assert(r@ =~= scores@.take(i + 1).filter(low).map_values(name));
        i = i + 1;
    }
    assert(scores@.take(n as int) =~= scores@);
    r
}

}
