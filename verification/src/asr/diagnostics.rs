//! What the recogniser's output looks like, for finding out why a text was not
//! recognised.
use crate::asr::logits::Logits;
use crate::single;
use vstd::prelude::*;

verus! {

/// How many classes are shown of a frame.
pub const SHOWN_CLASSES: usize = 5;

/// Whether class `a` comes before class `b`: it has the higher score, or the
/// same and the lower number.
pub open spec fn ranks_before(frame: Seq<u32>, a: int, b: int) -> bool {
    ||| single::order_key(frame[a]) > single::order_key(frame[b])
    ||| single::order_key(frame[a]) == single::order_key(frame[b]) && a < b
}

/// Whether every score of the frame is a number.
pub open spec fn all_numbers(frame: Seq<u32>) -> bool {
    forall|j: int| 0 <= j < frame.len() ==> !single::is_nan(#[trigger] frame[j])
}

/// The best class that is not taken, from class `from` on.
fn best_untaken(frame: &Vec<u32>, taken: &Vec<bool>, from: usize) -> (r: usize)
    requires
        taken@.len() == frame@.len(),
        from < frame@.len(),
        !taken@[from as int],
        forall|j: int| 0 <= j < from ==> #[trigger] taken@[j],
    ensures
        r < frame@.len(),
        !taken@[r as int],
        all_numbers(frame@) ==> forall|j: int|
            0 <= j < frame@.len() && !(#[trigger] taken@[j]) && j != r ==> ranks_before(
                frame@,
                r as int,
                j,
            ),
{
    let n: usize = frame.len();
    let mut best: usize = from;
    let mut j: usize = from + 1;
    while j < n
        invariant
            n == frame@.len(),
            taken@.len() == frame@.len(),
            from < j <= frame@.len(),
            best < j,
            !taken@[best as int],
            forall|k: int| 0 <= k < from ==> #[trigger] taken@[k],
            all_numbers(frame@) ==> forall|k: int|
                0 <= k < j && !(#[trigger] taken@[k]) && k != best ==> ranks_before(
                    frame@,
                    best as int,
                    k,
                ),
        decreases frame@.len() - j,
    {
        if !taken[j] && single::greater(frame[j], frame[best]) {
            best = j;
        }
        j = j + 1;
    }
    best
}

/// The classes of a frame with the highest scores, at most `k` of them, the
/// highest first. Of equal scores the lower class comes first.
///
/// Where a score is no number, nothing is said of which classes come out.
pub fn top_classes(frame: &Vec<u32>, k: usize) -> (r: Vec<usize>)
    ensures
        r@.len() == (if k < frame@.len() {
            k as nat
        } else {
            frame@.len()
        }),
        forall|i: int| 0 <= i < r@.len() ==> (#[trigger] r@[i]) < frame@.len(),
        r@.no_duplicates(),
        all_numbers(frame@) ==> {
            &&& forall|i: int, j: int|
                #![trigger r@[i], r@[j]]
                0 <= i < j < r@.len() ==> ranks_before(frame@, r@[i] as int, r@[j] as int)
            &&& forall|i: int, c: usize|
                #![trigger r@[i], r@.contains(c)]
                0 <= i < r@.len() && c < frame@.len() && !r@.contains(c) ==> ranks_before(
                    frame@,
                    r@[i] as int,
                    c as int,
                )
        },
{
    let mut taken: Vec<bool> = Vec::new();
    let mut n: usize = 0;
    while n < frame.len()
        invariant
            n <= frame@.len(),
            taken@.len() == n,
            forall|j: int| 0 <= j < n ==> !(#[trigger] taken@[j]),
        decreases frame@.len() - n,
    {
        taken.push(false);
        n = n + 1;
    }
    let mut out: Vec<usize> = Vec::new();
    let mut from: usize = 0;
    while out.len() < k && from < frame.len()
        invariant
            taken@.len() == frame@.len(),
            from <= frame@.len(),
            out@.len() <= k,
            from < frame@.len() ==> !taken@[from as int],
            forall|j: int| 0 <= j < from ==> #[trigger] taken@[j],
            forall|i: int|
                0 <= i < out@.len() ==> (#[trigger] out@[i]) < frame@.len()
                    && taken@[out@[i] as int],
            forall|j: int|
                0 <= j < frame@.len() && #[trigger] taken@[j] ==> out@.contains(j as usize),
            out@.no_duplicates(),
            all_numbers(frame@) ==> {
                &&& forall|i: int, j: int|
                    #![trigger out@[i], out@[j]]
                    0 <= i < j < out@.len() ==> ranks_before(
                        frame@,
                        out@[i] as int,
                        out@[j] as int,
                    )
                &&& forall|i: int, c: int|
                    #![trigger out@[i], taken@[c]]
                    0 <= i < out@.len() && 0 <= c < frame@.len() && !taken@[c] ==> ranks_before(
                        frame@,
                        out@[i] as int,
                        c,
                    )
            },
        decreases k - out@.len(),
    {
        let best: usize = best_untaken(frame, &taken, from);
        let ghost before = out@;
        let ghost was = taken@;
        out.push(best);
        taken.set(best, true);
        assert(out@[before.len() as int] == best);
        assert forall|j: int| 0 <= j < frame@.len() && #[trigger] taken@[j] implies out@.contains(
            j as usize,
        ) by {
            if j != best {
                assert(was[j]);
                let i = choose|i: int| 0 <= i < before.len() && before[i] == j as usize;
                assert(out@[i] == j as usize);
            }
        }
        while from < frame.len() && taken[from]
            invariant
                taken@.len() == frame@.len(),
                from <= frame@.len(),
                forall|j: int| 0 <= j < from ==> #[trigger] taken@[j],
            decreases frame@.len() - from,
        {
            from = from + 1;
        }
    }
    proof {
        lemma_taken_count(out@, taken@, frame@.len(), from as nat, k as nat);
        assert forall|i: int, c: usize|
            #![trigger out@[i], out@.contains(c)]
            0 <= i < out@.len() && c < frame@.len() && !out@.contains(c) && all_numbers(
                frame@,
            ) implies ranks_before(frame@, out@[i] as int, c as int) by {
            assert(!taken@[c as int]);
        }
    }
    out
}

/// Where every class is taken, as many were taken as there are.
proof fn lemma_taken_count(out: Seq<usize>, taken: Seq<bool>, classes: nat, from: nat, k: nat)
    requires
        taken.len() == classes,
        classes <= usize::MAX,
        from <= classes,
        out.no_duplicates(),
        out.len() <= k,
        out.len() == k || from == classes,
        forall|j: int| 0 <= j < from ==> #[trigger] taken[j],
        forall|i: int| 0 <= i < out.len() ==> (#[trigger] out[i]) < classes,
        forall|j: int| 0 <= j < classes && #[trigger] taken[j] ==> out.contains(j as usize),
    ensures
        out.len() <= classes,
        out.len() < k ==> out.len() == classes,
{
    let all = Set::new(|c: usize| c < classes);
    let ints = vstd::set_lib::set_int_range(0, classes as int);
    vstd::set_lib::lemma_int_range(0, classes as int);
    let f = |x: int| x as usize;
    assert(ints.map(f) =~= all) by {
        assert forall|c: usize| all.contains(c) implies #[trigger] ints.map(f).contains(c) by {
            assert(ints.contains(c as int) && f(c as int) == c);
        }
    }
    vstd::set_lib::lemma_map_size(ints, all, f);
    out.unique_seq_to_set();
    assert(out.to_set().subset_of(all));
    vstd::set_lib::lemma_len_subset(out.to_set(), all);
    if out.len() < k {
        assert forall|c: usize| all.contains(c) implies out.to_set().contains(c) by {
            assert(taken[c as int]);
        }
        assert(out.to_set() =~= all);
    }
}

/// The frames that are shown: the first, the middle and the last.
pub fn shown_frames(logits: &Logits) -> (r: Vec<usize>)
    ensures
        r@ == (if logits.frames().len() == 0 {
            seq![]
        } else {
            seq![
                0usize,
                (logits.frames().len() / 2) as usize,
                (logits.frames().len() - 1) as usize,
            ]
        }),
{
    let n: usize = logits.rows.len();
    if n == 0 {
        return Vec::new();
    }
    vec![0, n / 2, n - 1]
}

// ── Laws ─────────────────────────────────────────────────────────────────────

/// Of two classes with numbers for scores, the one with the greater score comes
/// first, and of equal scores the one with the lower number.
pub proof fn law_classes_rank_by_score(frame: Seq<u32>, a: int, b: int)
    requires
        0 <= a < frame.len(),
        0 <= b < frame.len(),
        !single::is_nan(frame[a]),
        !single::is_nan(frame[b]),
    ensures
        single::is_greater(frame[a], frame[b]) ==> ranks_before(frame, a, b),
        single::is_greater(frame[b], frame[a]) ==> !ranks_before(frame, a, b),
        !single::is_greater(frame[a], frame[b]) && !single::is_greater(frame[b], frame[a]) ==> (
        ranks_before(frame, a, b) <==> a < b),
{
}

/// A frame is all numbers exactly if none of its scores is no number.
pub proof fn law_frames_of_numbers(frame: Seq<u32>)
    ensures
        all_numbers(frame) <==> forall|j: int|
            0 <= j < frame.len() ==> !single::is_nan(#[trigger] frame[j]),
{
}

}
