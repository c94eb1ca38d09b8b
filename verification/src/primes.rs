//! Prime counting, split across threads by striding: thread `k` of `m`
//! tests exactly the numbers whose remainder modulo `m` is `k`. The
//! per-thread computation and the merge of the per-thread results live
//! here; the spawning and joining around them do not.

use vstd::prelude::*;

verus! {

/// What it means for a number to be prime: at least two, and divisible by
/// nothing strictly between one and itself.
pub open spec fn is_prime(n: int) -> bool {
    n >= 2 && forall|d: int| 2 <= d < n ==> #[trigger] (n % d) != 0
}

/// Trial division, for any number a caller may hand in; anything below
/// two is composite by convention.
pub fn check_if_prime(number: i32) -> (r: bool)
    ensures
        r == is_prime(number as int),
{
    if number < 2 {
        return false;
    }
    let mut i: i32 = 2;
    while i < number
        invariant
            2 <= i <= number,
            forall|d: int| 2 <= d < i ==> #[trigger] ((number as int) % d) != 0,
        decreases number - i,
    {
        if number % i == 0 {
            assert((number as int) % (i as int) == 0);
            return false;
        }
        i = i + 1;
    }
    true
}

/// One thread's share of the search: the primes in `from ..= to` whose
/// remainder modulo `num_threads` is `thread_index`, in increasing order.
/// The result is pinned down completely: it is strictly increasing, every
/// element is such a prime, and every such prime is an element.
pub fn stride_primes(from: i32, to: i32, num_threads: i32, thread_index: i32) -> (r: Vec<i32>)
    requires
        num_threads >= 1,
    ensures
        forall|k1: int, k2: int| 0 <= k1 < k2 < r@.len() ==> r@[k1] < r@[k2],
        forall|k: int|
            0 <= k < r@.len() ==> from <= #[trigger] r@[k] <= to && is_prime(r@[k] as int) && (
            r@[k] as int) % (num_threads as int) == thread_index as int,
        forall|j: i32|
            from <= j <= to && is_prime(j as int) && (j as int) % (num_threads as int)
                == thread_index as int ==> r@.contains(j),
{
    let mut r: Vec<i32> = Vec::new();
    let mut j: i64 = from as i64;
    while j <= to as i64
        invariant
            num_threads >= 1,
            from as i64 <= j <= to as i64 + 1 || (j == from as i64 && to < from),
            forall|k1: int, k2: int| 0 <= k1 < k2 < r@.len() ==> r@[k1] < r@[k2],
            forall|k: int|
                0 <= k < r@.len() ==> from <= #[trigger] r@[k] <= to && r@[k] < j && is_prime(
                    r@[k] as int,
                ) && (r@[k] as int) % (num_threads as int) == thread_index as int,
            forall|i: i32|
                from <= i <= to && i < j && is_prime(i as int) && (i as int) % (
                num_threads as int) == thread_index as int ==> r@.contains(i),
        decreases to as i64 - j + 1,
    {
        let n: i32 = j as i32;
        proof {
            assert(i32::MIN as i64 <= j <= i32::MAX as i64);
            assert(n as int == j as int);
        }
        if n % num_threads == thread_index {
            if check_if_prime(n) {
                let ghost r0 = r@;
                r.push(n);
                proof {
                    assert(r@[r0.len() as int] == n);
                    assert(r@.contains(n));
                    assert(forall|i: i32| r0.contains(i) ==> #[trigger] r@.contains(i)) by {
                        assert(forall|k: int| 0 <= k < r0.len() ==> r@[k] == #[trigger] r0[k]);
                    }
                }
            } else {
                proof {
                    assert(!is_prime(n as int));
                }
            }
        } else {
            proof {
                assert(n < 2 ==> !is_prime(n as int));
            }
        }
        j = j + 1;
    }
    r
}

/// The merge a joining thread performs: the per-thread result vectors,
/// one after another, in the order the threads were spawned.
pub fn concat_parts(parts: Vec<Vec<i32>>) -> (r: Vec<i32>)
    ensures
        r@ == parts@.map_values(|part: Vec<i32>| part@).flatten(),
{
    let ghost views = parts@.map_values(|part: Vec<i32>| part@);
    let mut r: Vec<i32> = Vec::new();
    let mut idx: usize = 0;
    proof {
        assert(views.subrange(0, 0) =~= Seq::<Seq<i32>>::empty());
        assert(views.subrange(0, 0).flatten() =~= Seq::<i32>::empty());
    }
    while idx < parts.len()
        invariant
            0 <= idx <= parts.len(),
            views == parts@.map_values(|part: Vec<i32>| part@),
            r@ == views.subrange(0, idx as int).flatten(),
        decreases parts.len() - idx,
    {
        let part = &parts[idx];
        let mut inner: usize = 0;
        while inner < part.len()
            invariant
                0 <= inner <= part.len(),
                0 <= idx < parts.len(),
                part == &parts[idx as int],
                views == parts@.map_values(|part: Vec<i32>| part@),
                r@ == views.subrange(0, idx as int).flatten() + part@.subrange(0, inner as int),
            decreases part.len() - inner,
        {
            r.push(part[inner]);
            proof {
                assert(part@.subrange(0, inner + 1) =~= part@.subrange(0, inner as int).push(
                    part@[inner as int],
                ));
                assert(r@ =~= views.subrange(0, idx as int).flatten() + part@.subrange(
                    0,
                    inner + 1,
                ));
            }
            inner = inner + 1;
        }
        proof {
            assert(part@.subrange(0, part@.len() as int) =~= part@);
            assert(views.subrange(0, idx + 1) =~= views.subrange(0, idx as int).push(
                views[idx as int],
            ));
            views.subrange(0, idx as int).lemma_flatten_push(views[idx as int]);
            assert(views[idx as int] == part@);
            assert(r@ =~= views.subrange(0, idx + 1).flatten());
        }
        idx = idx + 1;
    }
    proof {
        assert(views.subrange(0, views.len() as int) =~= views);
    }
    r
}

} // verus!
