//! Extracting n-grams from a sequence.
//!
//! For every start position, the grams are emitted longest first, from the
//! longest length that still fits (at most `n_max`) down to `n_min`; start
//! positions advance left to right. [`ngrams_from`] is that order, written
//! as a spec, and the extractor is pinned to it exactly.

use vstd::prelude::*;

verus! {

/// The grams starting at `start`, longest (`len`) first, shortest
/// (`n_min`) last.
pub open spec fn ngram_row<T>(s: Seq<T>, start: int, len: int, n_min: int) -> Seq<Seq<T>>
    decreases len,
{
    if len < n_min || n_min <= 0 || start < 0 || start + len > s.len() {
        seq![]
    } else {
        seq![s.subrange(start, start + len)] + ngram_row(s, start, len - 1, n_min)
    }
}

/// All grams of lengths `n_min..=n_max` from start position `start` on,
/// grouped by start position.
pub open spec fn ngrams_from<T>(s: Seq<T>, start: int, n_min: int, n_max: int) -> Seq<Seq<T>>
    decreases s.len() - start,
{
    if n_min <= 0 || start < 0 || s.len() - start < n_min {
        seq![]
    } else {
        let upper = if n_max <= s.len() - start {
            n_max
        } else {
            s.len() - start
        };
        ngram_row(s, start, upper, n_min) + ngrams_from(s, start + 1, n_min, n_max)
    }
}

/// Extract n-grams for lengths [n_min, n_max].
///
/// Grams are borrowed subslices of the input; for each start position the
/// longest gram comes first.
pub fn ngrams<'a, T>(seq: &'a [T], n_min: usize, n_max: usize) -> (r: Vec<&'a [T]>)
    requires
        n_min >= 1,
        n_max >= n_min,
        (n_max - n_min + 1) * seq@.len() <= usize::MAX,
    ensures
        r@.map_values(|g: &[T]| g@) == ngrams_from(seq@, 0, n_min as int, n_max as int),
{
    let ghost s = seq@;
    let ghost goal = ngrams_from(s, 0, n_min as int, n_max as int);
    let cap_approx = (n_max - n_min + 1) * seq.len();
    let mut out: Vec<&'a [T]> = Vec::with_capacity(cap_approx);
    let mut rest = seq;
    let ghost mut start: int = 0;

    proof {
        assert(rest@ =~= s.skip(0));
    }
    while rest.len() >= n_min
        invariant
            n_min >= 1,
            n_max >= n_min,
            0 <= start <= s.len(),
            rest@ == s.skip(start),
            out@.map_values(|g: &[T]| g@) + ngrams_from(s, start, n_min as int, n_max as int)
                == goal,
        decreases rest@.len(),
    {
        let upper = if n_max <= rest.len() {
            n_max
        } else {
            rest.len()
        };
        let mut len = upper;
        let mut gram = vstd::slice::slice_subrange(rest, 0, upper);
        proof {
            assert(gram@ =~= s.subrange(start, start + upper as int));
        }
        while len >= n_min
            invariant
                n_min >= 1,
                n_min <= len + 1,
                len <= upper,
                upper as int + start <= s.len(),
                n_min <= upper,
                upper <= n_max,
                upper == n_max || upper as int == s.len() - start,
                0 <= start,
                gram@ == s.subrange(start, start + len as int),
                out@.map_values(|g: &[T]| g@) + ngram_row(s, start, len as int, n_min as int)
                    + ngrams_from(s, start + 1, n_min as int, n_max as int) == goal,
            decreases len,
        {
            let ghost before = out@.map_values(|g: &[T]| g@);
            out.push(gram);
            proof {
                assert(out@.drop_last() == out@.subrange(0, out@.len() - 1));
                assert(out@.map_values(|g: &[T]| g@) =~= before + seq![s.subrange(
                    start,
                    start + len as int,
                )]);
                assert(before + ngram_row(s, start, len as int, n_min as int) + ngrams_from(
                    s,
                    start + 1,
                    n_min as int,
                    n_max as int,
                ) =~= before + seq![s.subrange(start, start + len as int)] + ngram_row(
                    s,
                    start,
                    len as int - 1,
                    n_min as int,
                ) + ngrams_from(s, start + 1, n_min as int, n_max as int));
            }
            let next = gram.len() - 1;
            gram = vstd::slice::slice_subrange(gram, 0, next);
            proof {
                assert(gram@ =~= s.subrange(start, start + (len - 1) as int));
            }
            len = len - 1;
        }
        proof {
            assert(ngram_row(s, start, len as int, n_min as int) =~= Seq::<Seq<T>>::empty());
            assert(out@.map_values(|g: &[T]| g@) + ngrams_from(
                s,
                start + 1,
                n_min as int,
                n_max as int,
            ) =~= out@.map_values(|g: &[T]| g@) + ngram_row(s, start, len as int, n_min as int)
                + ngrams_from(s, start + 1, n_min as int, n_max as int));
        }
        let m = rest.len();
        rest = vstd::slice::slice_subrange(rest, 1, m);
        proof {
            start = start + 1;
            assert(rest@ =~= s.skip(start));
        }
    }
    proof {
        assert(ngrams_from(s, start, n_min as int, n_max as int) =~= Seq::<Seq<T>>::empty());
        assert(out@.map_values(|g: &[T]| g@) =~= out@.map_values(|g: &[T]| g@) + ngrams_from(
            s,
            start,
            n_min as int,
            n_max as int,
        ));
    }
    out
}

/// Extract character n-grams for lengths [n_min, n_max].
pub fn char_ngrams<'a>(seq: &'a [char], n_min: usize, n_max: usize) -> (r: Vec<&'a [char]>)
    requires
        n_min >= 1,
        n_max >= n_min,
        (n_max - n_min + 1) * seq@.len() <= usize::MAX,
    ensures
        r@.map_values(|g: &[char]| g@) == ngrams_from(seq@, 0, n_min as int, n_max as int),
{
    ngrams(seq, n_min, n_max)
}

} // verus!
