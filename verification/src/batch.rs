//! Montgomery batch inversion: every inverse of a sequence of field
//! elements out of a single field inversion and a linear number of
//! multiplications.

use crate::arith::{fp_mul, lemma_fp_mul_associative, p};
use crate::field::{FieldError, Fr};
use vstd::arithmetic::div_mod::lemma_small_mod;
use vstd::pervasive::VecAdditionalExecFns;
use vstd::prelude::*;

verus! {

/// The product of the first `k` residues of a sequence, reduced modulo
/// the field order.
pub open spec fn prefix_prod(vs: Seq<nat>, k: int) -> int
    decreases k,
{
    if k <= 0 {
        1
    } else {
        fp_mul(prefix_prod(vs, k - 1), vs[k - 1] as int)
    }
}

/// Montgomery batch inversion. On success, `out[i]` holds the
/// multiplicative inverse of `vals[i]` for every index. When any
/// element of `vals` is zero the whole call fails, telling the caller
/// no more than that some element had no inverse, and leaves `out`
/// untouched.
///
/// The two sequences must come with equal lengths: that is a caller
/// obligation, not a data-dependent failure.
pub fn batch_inverse(vals: &Vec<Fr>, out: &mut Vec<Fr>) -> (r: Result<(), FieldError>)
    requires
        vals@.len() == old(out)@.len(),
    ensures
        match r {
            Ok(()) => final(out)@.len() == vals@.len() && (forall|i: int|
                0 <= i < vals@.len() ==> vals@[i]@ != 0 && fp_mul(
                    (#[trigger] final(out)@[i]@) as int,
                    vals@[i]@ as int,
                ) == 1),
            Err(e) => (exists|i: int| 0 <= i < vals@.len() && vals@[i]@ == 0) && final(out)@
                == old(out)@ && e is NonInvertible,
        },
{
    let n = vals.len();
    let ghost vs: Seq<nat> = vals@.map_values(|x: Fr| x@);

    // A zero element poisons the whole product, so the batch is
    // refused before anything is written.
    let mut z: usize = 0;
    while z < n
        invariant
            z <= n,
            n == vals@.len(),
            forall|i: int| 0 <= i < z ==> (#[trigger] vals@[i]@) != 0,
        decreases n - z,
    {
        if vals[z].is_zero() {
            return Err(FieldError::NonInvertible);
        }
        z += 1;
    }
    if n == 0 {
        return Ok(());
    }
    proof {
        assert(vs.len() == n);
        assert(forall|i: int| 0 <= i < n ==> (#[trigger] vs[i]) == vals@[i]@);
    }

    // The running prefix products of the inputs.
    let first = vals[0];
    let mut prefix: Vec<Fr> = Vec::new();
    prefix.push(first);
    proof {
        use_type_invariant(first);
        lemma_small_mod(first@, p());
        assert(prefix@[0] == first);
        assert(prefix_prod(vs, 0) == 1);
        assert(prefix_prod(vs, 1) == fp_mul(1, vs[0] as int));
        assert(fp_mul(1, vs[0] as int) == (vs[0] as int) % (p() as int));
        assert(prefix@[0]@ as int == prefix_prod(vs, 1));
    }
    let mut i: usize = 1;
    while i < n
        invariant
            1 <= i <= n,
            n == vals@.len(),
            n == vs.len(),
            forall|k: int| 0 <= k < n ==> (#[trigger] vs[k]) == vals@[k]@,
            prefix@.len() == i,
            forall|k: int| 0 <= k < i ==> (#[trigger] prefix@[k]@) as int == prefix_prod(vs, k + 1),
        decreases n - i,
    {
        let q = prefix[i - 1].mul(vals[i]);
        prefix.push(q);
        i += 1;
    }

    // One inversion of the total product pays for every inverse.
    match prefix[n - 1].inverse() {
        Some(acc0) => {
            let mut acc = acc0;
            let mut idx: usize = n - 1;
            proof {
                assert(fp_mul(acc@ as int, prefix_prod(vs, n as int)) == 1);
            }
            while idx >= 1
                invariant
                    idx <= n - 1,
                    n >= 1,
                    n == vals@.len(),
                    n == vs.len(),
                    n == out@.len(),
                    prefix@.len() == n,
                    forall|k: int| 0 <= k < n ==> (#[trigger] vs[k]) == vals@[k]@,
                    forall|k: int|
                        0 <= k < n ==> (#[trigger] prefix@[k]@) as int == prefix_prod(vs, k + 1),
                    fp_mul(acc@ as int, prefix_prod(vs, idx as int + 1)) == 1,
                    forall|k: int|
                        idx < k < n ==> fp_mul((#[trigger] out@[k]@) as int, vs[k] as int) == 1,
                decreases idx,
            {
                let ghost acc_old = acc@ as int;
                let o = acc.mul(prefix[idx - 1]);
                out.set(idx, o);
                acc = acc.mul(vals[idx]);
                proof {
                    let pv = prefix_prod(vs, idx as int);
                    let c = vs[idx as int] as int;
                    assert(prefix_prod(vs, idx as int + 1) == fp_mul(pv, c));
                    lemma_fp_mul_associative(acc_old, pv, c);
                    assert(fp_mul(o@ as int, c) == 1);
                    lemma_fp_mul_associative(acc_old, c, pv);
                    assert(fp_mul(acc@ as int, pv) == 1);
                }
                idx -= 1;
            }
            let first0 = vals[0];
            let o0 = acc;
            out.set(0, o0);
            proof {
                use_type_invariant(first0);
                assert(prefix_prod(vs, 0) == 1);
                assert(prefix_prod(vs, 1) == fp_mul(1, vs[0] as int));
                assert(fp_mul(1, vs[0] as int) == (vs[0] as int) % (p() as int));
                lemma_small_mod(first0@, p());
                assert(fp_mul(o0@ as int, vs[0] as int) == 1);
            }
            Ok(())
        },
        None => {
            // The inverse of the total product is absent only when the
            // product is the zero residue, which non-zero factors never
            // yield in a prime field; that fact stands outside the
            // engine's stated contract, so each element is inverted on
            // its own here instead of trusting it.
            let mut j: usize = 0;
            while j < n
                invariant
                    j <= n,
                    n == vals@.len(),
                    n == vs.len(),
                    n == out@.len(),
                    forall|k: int| 0 <= k < n ==> (#[trigger] vs[k]) == vals@[k]@,
                    forall|k: int| 0 <= k < n ==> (#[trigger] vals@[k]@) != 0,
                    forall|k: int|
                        0 <= k < j ==> fp_mul((#[trigger] out@[k]@) as int, vs[k] as int) == 1,
                decreases n - j,
            {
                match vals[j].inverse() {
                    Some(y) => {
                        out.set(j, y);
                    },
                    None => {
                        // never reached: an element checked non-zero
                        // has an inverse, by the contract of `inverse`
                        proof {
                            assert(false);
                        }
                    },
                }
                j += 1;
            }
            Ok(())
        },
    }
}

} // verus!
