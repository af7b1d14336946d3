use vstd::prelude::*;
use crate::error::DataError;

verus! {

/// The sign bit of an IEEE-754 binary64 bit pattern.
pub const SIGN_BIT: u64 = 0x8000_0000_0000_0000;

/// The ranking key of the binary64 value with bit pattern `bits`.
pub open spec fn score_key_of(bits: u64) -> u64 {
    if bits == SIGN_BIT {
        SIGN_BIT
    } else if bits > SIGN_BIT {
        (u64::MAX - bits) as u64
    } else {
        (bits + SIGN_BIT) as u64
    }
}

/// Maps the bit pattern of a binary64 score to an integer key that orders as
/// the scores do: non-negative values keep their order above `SIGN_BIT`,
/// negative values are mirrored below it, and negative zero gets the key of
/// positive zero.
pub fn score_key(bits: u64) -> (r: u64)
    ensures
        r == score_key_of(bits),
{
    if bits == SIGN_BIT {
        SIGN_BIT
    } else if bits > SIGN_BIT {
        u64::MAX - bits
    } else {
        bits + SIGN_BIT
    }
}

/// The sign-magnitude value of a binary64 bit pattern: the magnitude bits,
/// negated when the sign bit is set. Among non-NaN patterns it orders as the
/// floating-point values do, and both zeros have the value 0.
pub open spec fn sign_magnitude(bits: u64) -> int {
    if bits >= SIGN_BIT {
        -(bits - SIGN_BIT)
    } else {
        bits as int
    }
}

/// Keys order exactly as the sign-magnitude values of the bit patterns do:
/// a smaller value gets a smaller key, equal values (negative and positive
/// zero among them) get equal keys.
pub proof fn lemma_score_key_orders_as_sign_magnitude(a: u64, b: u64)
    ensures
        sign_magnitude(a) < sign_magnitude(b) <==> score_key_of(a) < score_key_of(b),
        sign_magnitude(a) == sign_magnitude(b) <==> score_key_of(a) == score_key_of(b),
        score_key_of(SIGN_BIT) == score_key_of(0),
{
}

/// Whether class `a` ranks ahead of class `b`: a higher score first, and
/// among equal scores the lower index first.
pub open spec fn ranks_before(s: Seq<u64>, a: int, b: int) -> bool {
    s[a] > s[b] || (s[a] == s[b] && a < b)
}

/// `r` is the first index holding the largest score.
pub open spec fn is_best_label(s: Seq<u64>, r: int) -> bool {
    &&& 0 <= r < s.len()
    &&& forall|j: int| 0 <= j < r ==> s[j] < s[r]
    &&& forall|j: int| 0 <= j < s.len() ==> s[j] <= s[r]
}

/// `out` is the first `k` entries of the classes of `s` in ranking order,
/// each with its unmodified score.
pub open spec fn is_top_k(s: Seq<u64>, k: int, out: Seq<(usize, u64)>) -> bool {
    &&& out.len() == k
    &&& forall|i: int| 0 <= i < k ==> (#[trigger] out[i]).0 < s.len() && out[i].1 == s[out[i].0 as int]
    &&& forall|i: int, j: int|
        0 <= i < j < k ==> ranks_before(s, (#[trigger] out[i]).0 as int, (#[trigger] out[j]).0 as int)
    &&& forall|i: int, m: int|
        0 <= i < k && 0 <= m < s.len() && !lists_class(out, m) ==> #[trigger] ranks_before(
            s,
            out[i].0 as int,
            m,
        )
}

/// Whether class `m` is among the entries of `out`.
pub open spec fn lists_class(out: Seq<(usize, u64)>, m: int) -> bool {
    exists|t: int| 0 <= t < out.len() && (#[trigger] out[t]).0 == m
}

/// The index of the largest score; on equal scores the lowest index wins.
pub fn best_label(scores: &[u64]) -> (r: usize)
    requires
        scores@.len() > 0,
    ensures
        is_best_label(scores@, r as int),
{
    let mut best: usize = 0;
    let mut idx: usize = 1;
    while idx < scores.len()
        invariant
            1 <= idx <= scores@.len(),
            is_best_label(scores@.subrange(0, idx as int), best as int),
        decreases scores@.len() - idx,
    {
        if scores[idx] > scores[best] {
            best = idx;
        }
        idx = idx + 1;
        assert(scores@.subrange(0, idx as int) =~= scores@.subrange(0, idx - 1).push(scores@[idx - 1]));
    }
    assert(scores@.subrange(0, idx as int) =~= scores@);
    best
}

fn ranks_before_exec(scores: &[u64], a: usize, b: usize) -> (r: bool)
    requires
        a < scores@.len(),
        b < scores@.len(),
    ensures
        r == ranks_before(scores@, a as int, b as int),
{
    scores[a] > scores[b] || (scores[a] == scores[b] && a < b)
}

spec fn holds_index(r: Seq<usize>, m: int) -> bool {
    exists|p: int| 0 <= p < r.len() && r[p] == m
}

/// Every class index in ranking order (a stable sort by descending score).
fn ranking(scores: &[u64]) -> (r: Vec<usize>)
    ensures
        r@.len() == scores@.len(),
        forall|p: int| 0 <= p < r@.len() ==> r@[p] < scores@.len(),
        forall|p: int, q: int|
            0 <= p < q < r@.len() ==> ranks_before(scores@, r@[p] as int, r@[q] as int),
        forall|m: int| 0 <= m < scores@.len() ==> #[trigger] holds_index(r@, m),
{
    let n = scores.len();
    let mut sorted: Vec<usize> = Vec::new();
    let ghost mut pos_of: Seq<int> = Seq::empty();
    let mut i: usize = 0;
    while i < n
        invariant
            n == scores@.len(),
            i <= n,
            sorted@.len() == i,
            pos_of.len() == i,
            forall|p: int| 0 <= p < i ==> sorted@[p] < i,
            forall|p: int, q: int|
                0 <= p < q < i ==> ranks_before(scores@, sorted@[p] as int, sorted@[q] as int),
            forall|m: int| 0 <= m < i ==> 0 <= #[trigger] pos_of[m] < i && sorted@[pos_of[m]] == m,
        decreases n - i,
    {
        let mut pos: usize = 0;
        while pos < sorted.len() && ranks_before_exec(scores, sorted[pos], i)
            invariant
                n == scores@.len(),
                i < n,
                sorted@.len() == i,
                pos <= i,
                forall|p: int| 0 <= p < i ==> sorted@[p] < i,
                forall|p: int| 0 <= p < pos ==> ranks_before(scores@, sorted@[p] as int, i as int),
            decreases i - pos,
        {
            pos = pos + 1;
        }
        let ghost old_sorted = sorted@;
        proof {
            if pos < i {
                assert(!ranks_before(scores@, old_sorted[pos as int] as int, i as int));
                assert forall|q: int| pos <= q < i implies ranks_before(scores@, i as int, old_sorted[q] as int) by {
                    if q > pos {
                        assert(ranks_before(scores@, old_sorted[pos as int] as int, old_sorted[q] as int));
                    }
                }
            }
            old_sorted.insert_ensures(pos as int, i);
        }
        sorted.insert(pos, i);
        proof {
            let new_sorted = sorted@;
            assert forall|q: int| 0 <= q < i + 1 implies new_sorted[q] == (if q < pos {
                old_sorted[q]
            } else if q == pos {
                i
            } else {
                old_sorted[q - 1]
            }) by {
                if q > pos {
                    assert(new_sorted[(q - 1) + 1] == old_sorted[q - 1]);
                }
            }
            let new_pos = Seq::new(
                (i + 1) as nat,
                |m: int|
                    if m == i {
                        pos as int
                    } else if pos_of[m] >= pos {
                        pos_of[m] + 1
                    } else {
                        pos_of[m]
                    },
            );
            assert forall|m: int| 0 <= m < i + 1 implies 0 <= #[trigger] new_pos[m] < i + 1
                && new_sorted[new_pos[m]] == m by {
                if m < i {
                    assert(0 <= pos_of[m] < i);
                }
            }
            pos_of = new_pos;
        }
        i = i + 1;
    }
    proof {
        assert forall|m: int| 0 <= m < n implies #[trigger] holds_index(sorted@, m) by {
            assert(0 <= pos_of[m] < n);
            assert(sorted@[pos_of[m]] == m);
        }
    }
    sorted
}

/// The `k` best classes with their scores, best first; among equal scores the
/// lower index comes first. Fails when fewer than `k` scores are given.
pub fn top_k_guesses(scores: &[u64], k: usize) -> (r: Result<Vec<(usize, u64)>, DataError>)
    ensures
        scores@.len() < k ==> r == Err::<Vec<(usize, u64)>, DataError>(
            DataError::InsufficientClasses { requested: k, available: scores@.len() as usize },
        ),
        scores@.len() >= k ==> r is Ok && is_top_k(scores@, k as int, r->Ok_0@),
{
    if scores.len() < k {
        return Err(DataError::InsufficientClasses { requested: k, available: scores.len() });
    }
    let order = ranking(scores);
    let mut out: Vec<(usize, u64)> = Vec::new();
    let mut i: usize = 0;
    while i < k
        invariant
            k <= order@.len(),
            i <= k,
            out@.len() == i,
            forall|t: int| 0 <= t < i ==> (#[trigger] out@[t]).0 == order@[t] && out@[t].1 == scores@[order@[t] as int],
            forall|p: int| 0 <= p < order@.len() ==> order@[p] < scores@.len(),
        decreases k - i,
    {
        let c = order[i];
        out.push((c, scores[c]));
        i = i + 1;
    }
    proof {
        let s = scores@;
        let o = out@;
        assert forall|t: int, m: int|
            0 <= t < k && 0 <= m < s.len() && !lists_class(o, m) implies #[trigger] ranks_before(
            s,
            o[t].0 as int,
            m,
        ) by {
            assert(holds_index(order@, m));
            let p = choose|p: int| 0 <= p < order@.len() && order@[p] == m;
            if p < k {
                assert(o[p].0 == m);
            }
            assert(o[t].0 == order@[t]);
        }
    }
    Ok(out)
}

/// The first of the ranked guesses is the best label: ranking and picking the
/// best label break ties the same way.
pub proof fn lemma_first_guess_is_best_label(s: Seq<u64>, k: int, out: Seq<(usize, u64)>, r: int)
    requires
        1 <= k,
        is_top_k(s, k, out),
        is_best_label(s, r),
    ensures
        out[0].0 == r,
{
    let a = out[0].0 as int;
    if a != r {
        if lists_class(out, r) {
            let t = choose|t: int| 0 <= t < out.len() && (#[trigger] out[t]).0 == r;
            assert(t != 0);
            assert(ranks_before(s, out[0].0 as int, out[t].0 as int));
        } else {
            assert(ranks_before(s, out[0].0 as int, r));
        }
    }
}

} // verus!
