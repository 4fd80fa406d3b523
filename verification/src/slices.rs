use vstd::prelude::*;

verus! {

/// The sum of the elements of `s`.
pub open spec fn seq_sum(s: Seq<i32>) -> int
    decreases s.len(),
{
    if s.len() == 0 {
        0
    } else {
        seq_sum(s.drop_last()) + s.last()
    }
}

/// Computes the sum of all elements in the input i32 slice named `slice`.
/// Every running sum along the way must fit `i32`, as it does at run time.
#[verifier::loop_isolation(false)]
pub fn sum(slice: &[i32]) -> (r: i32)
    requires
        forall|k: int|
            0 <= k <= slice@.len() ==> i32::MIN <= seq_sum(#[trigger] slice@.take(k)) <= i32::MAX,
    ensures
        r == seq_sum(slice@),
{
    let n = slice.len();
    let mut result: i32 = 0;
    let mut i: usize = 0;
    proof {
        assert(slice@.take(0) =~= Seq::<i32>::empty());
    }
    while i < n
        invariant
            i <= n,
            result == seq_sum(slice@.take(i as int)),
        decreases n - i,
    {
        proof {
            assert(slice@.take(i as int + 1).drop_last() =~= slice@.take(i as int));
            assert(slice@.take(i as int + 1).last() == slice@[i as int]);
        }
        result = result + slice[i];
        i += 1;
    }
    proof {
        assert(slice@.take(n as int) =~= slice@);
    }
    result
}

/// `s` with every element that already occurred earlier removed: the first
/// instance of each distinct element survives, in its original position.
pub open spec fn dedup_seq(s: Seq<i32>) -> Seq<i32>
    decreases s.len(),
{
    if s.len() == 0 {
        Seq::empty()
    } else {
        let prior = dedup_seq(s.drop_last());
        if s.drop_last().contains(s.last()) {
            prior
        } else {
            prior.push(s.last())
        }
    }
}

fn vec_contains(v: &Vec<i32>, x: i32) -> (r: bool)
    ensures
        r == v@.contains(x),
{
    let n = v.len();
    let mut i: usize = 0;
    while i < n
        invariant
            i <= n,
            n == v@.len(),
            forall|k: int| 0 <= k < i ==> v@[k] != x,
        decreases n - i,
    {
        if v[i] == x {
            return true;
        }
        i += 1;
    }
    false
}

/// Deduplicates items in the input vector `vs`. Produces a vector containing
/// the first instance of each distinct element of `vs`, preserving the
/// original order.
#[verifier::loop_isolation(false)]
pub fn dedup(vs: &Vec<i32>) -> (r: Vec<i32>)
    ensures
        r@ == dedup_seq(vs@),
{
    let n = vs.len();
    let mut result: Vec<i32> = Vec::new();
    let mut i: usize = 0;
    proof {
        assert(vs@.take(0) =~= Seq::<i32>::empty());
        assert(result@ =~= dedup_seq(vs@.take(0)));
    }
    while i < n
        invariant
            i <= n,
            result@ == dedup_seq(vs@.take(i as int)),
            forall|x: i32| result@.contains(x) == vs@.take(i as int).contains(x),
        decreases n - i,
    {
        let v = vs[i];
        proof {
            assert(vs@.take(i as int + 1).drop_last() =~= vs@.take(i as int));
            assert(vs@.take(i as int + 1).last() == vs@[i as int]);
        }
        let ghost prev = result@;
        if !vec_contains(&result, v) {
            result.push(v);
        }
        proof {
            assert forall|x: i32| result@.contains(x) == vs@.take(i as int + 1).contains(
                x,
            ) by {
                let p = vs@.take(i as int);
                let q = vs@.take(i as int + 1);
                assert(q.drop_last() =~= p);
                if x == v {
                    assert(q.last() == x);
                    assert(q.contains(x)) by {
                        assert(q[q.len() - 1] == x);
                    }
                    if prev.contains(x) {
                        assert(result@.contains(x));
                    } else {
                        assert(result@.last() == x);
                        assert(result@.contains(x)) by {
                            assert(result@[result@.len() - 1] == x);
                        }
                    }
                } else {
                    assert(result@.contains(x) == prev.contains(x)) by {
                        if prev.contains(x) {
                            let w = choose|w: int| 0 <= w < prev.len() && prev[w] == x;
                            assert(result@[w] == x);
                        } else if result@.contains(x) {
                            let w = choose|w: int|
                                0 <= w < result@.len() && result@[w] == x;
                            assert(prev[w] == x);
                        }
                    }
                    assert(q.contains(x) == p.contains(x)) by {
                        if p.contains(x) {
                            let w = choose|w: int| 0 <= w < p.len() && p[w] == x;
                            assert(q[w] == x);
                        } else if q.contains(x) {
                            let w = choose|w: int| 0 <= w < q.len() && q[w] == x;
                            assert(w < p.len());
                            assert(p[w] == x);
                        }
                    }
                }
            }
        }
        i += 1;
    }
    proof {
        assert(vs@.take(n as int) =~= vs@);
    }
    result
}

/// `s` restricted by the mask `keep`: the elements whose flag is set, in
/// their original order.
pub open spec fn mask_filter(s: Seq<i32>, keep: Seq<bool>) -> Seq<i32>
    decreases s.len(),
{
    if s.len() == 0 {
        Seq::empty()
    } else {
        mask_filter(s.drop_last(), keep.drop_last()) + (if keep.len() > 0 && keep.last() {
            seq![s.last()]
        } else {
            Seq::empty()
        })
    }
}

/// Filters a vector `vs` using a predicate `pred` (a function from `i32` to
/// `bool`). Returns a new vector containing only elements that satisfy
/// `pred`: there is a mask, pointwise justified by the predicate's
/// postcondition, that carves the result out of the input.
#[verifier::loop_isolation(false)]
pub fn filter<F: Fn(i32) -> bool>(vs: &Vec<i32>, pred: &F) -> (r: Vec<i32>)
    requires
        forall|k: int| 0 <= k < vs@.len() ==> call_requires(*pred, (#[trigger] vs@[k],)),
    ensures
        exists|keep: Seq<bool>|
            {
                &&& keep.len() == vs@.len()
                &&& (forall|k: int|
                    0 <= k < vs@.len() ==> call_ensures(*pred, (vs@[k],), #[trigger] keep[k]))
                &&& r@ == mask_filter(vs@, keep)
            },
{
    let n = vs.len();
    let mut result: Vec<i32> = Vec::new();
    let ghost mut keep = Seq::<bool>::empty();
    let mut i: usize = 0;
    proof {
        assert(vs@.take(0) =~= Seq::<i32>::empty());
        assert(result@ =~= mask_filter(vs@.take(0), keep));
    }
    while i < n
        invariant
            i <= n,
            keep.len() == i,
            forall|k: int| 0 <= k < i ==> call_ensures(*pred, (vs@[k],), #[trigger] keep[k]),
            result@ == mask_filter(vs@.take(i as int), keep),
        decreases n - i,
    {
        let v = vs[i];
        let b = pred(v);
        let ghost oldk = keep;
        proof {
            keep = keep.push(b);
            assert(keep.drop_last() =~= oldk);
            assert(vs@.take(i as int + 1).drop_last() =~= vs@.take(i as int));
            assert(vs@.take(i as int + 1).last() == vs@[i as int]);
        }
        if b {
            result.push(v);
        }
        proof {
            assert(result@ =~= mask_filter(vs@.take(i as int + 1), keep));
        }
        i += 1;
    }
    proof {
        assert(vs@.take(n as int) =~= vs@);
    }
    result
}

} // verus!
