use vstd::prelude::*;

use crate::accumulator::{Accumulator, Additive};
use crate::bignum::BigNumber;
use crate::modarith::{is_unit, lemma_unit_mul, lemma_unit_mod};
use super::accumulator::{CLRSABAccumulator, vals, ref_vals, prod_mod, value_root, copy_all, extend_copies};
use super::update::CLRSABUpdate;
use super::witness::witness_u;

verus! {

/// Every value of `s` is invertible modulo `m`, so is their reduced product.
pub proof fn lemma_prod_mod_unit(s: Seq<int>, m: int)
    requires
        m > 1,
        forall|k: int| 0 <= k < s.len() ==> is_unit(#[trigger] s[k], m),
    ensures
        is_unit(prod_mod(s, m), m),
    decreases s.len(),
{
    if s.len() == 0 {
        vstd::arithmetic::div_mod::lemma_small_mod(1, m as nat);
        assert((1int * 1int) % m == 1);
    } else {
        let t = s.drop_last();
        assert forall|k: int| 0 <= k < t.len() implies is_unit(#[trigger] t[k], m) by {
            assert(t[k] == s[k]);
        }
        lemma_prod_mod_unit(t, m);
        assert(is_unit(s[s.len() - 1], m));
        lemma_unit_mul(prod_mod(t, m), s.last(), m);
        lemma_unit_mod(prod_mod(t, m) * s.last(), m);
    }
}

impl Additive for CLRSABAccumulator {
    /// Insertion computes the element's witness, which needs the trapdoor.
    open spec fn insert_ok(&self, item: &BigNumber, aux: Option<&BigNumber>) -> bool {
        aux matches Some(phi) && is_unit(item@, phi@)
    }

    /// Batch insertion multiplies modulo the trapdoor.
    open spec fn insert_batch_ok(&self, aux: Option<&BigNumber>) -> bool {
        aux matches Some(phi) && phi@ > 1
    }

    /// Insertion keeps the modulus and the value, and appends `item` to the
    /// list of all elements.
    open spec fn inserted(
        before: (CLRSABAccumulator, Seq<BigNumber>),
        item: BigNumber,
        aux: Option<&BigNumber>,
        after: (CLRSABAccumulator, Seq<BigNumber>),
    ) -> bool {
        &&& after.0.n() == before.0.n()
        &&& after.0.v() == before.0.v()
        &&& vals(after.1) == vals(before.1).push(item@)
    }

    /// Records `item` and returns its witness; the accumulator value does not
    /// change, so no other witness needs an update.
    fn insert(
        &mut self,
        item: &BigNumber,
        aux: Option<&BigNumber>,
        all_elements: &mut Vec<BigNumber>,
    ) -> (r: (Option<super::witness::CLRSABWitness>, Option<CLRSABUpdate>))
        ensures
            final(self).n() == old(self).n(),
            final(self).v() == old(self).v(),
            vals(final(all_elements)@) == vals(old(all_elements)@).push(item@),
            r.0 matches Some(w) && witness_u(&w) == value_root(
                old(self).n(),
                old(self).v(),
                item@,
                aux.unwrap()@,
            ),
            r.1 matches Some(CLRSABUpdate::Insertion),
    {
        all_elements.push(item.copy());
        assert(vals(all_elements@) == vals(old(all_elements)@).push(item@));
        let witness = self.witness_mem(item, aux, all_elements.as_slice());
        (Some(witness), Some(CLRSABUpdate::Insertion))
    }

    /// Records every item and inserts their product modulo the trapdoor.
    fn insert_batch(
        &mut self,
        items: Vec<&BigNumber>,
        aux: Option<&BigNumber>,
        all_elements: &mut Vec<BigNumber>,
    ) -> (r: Option<CLRSABUpdate>)
        ensures
            final(self).n() == old(self).n(),
            final(self).v() == old(self).v(),
            vals(final(all_elements)@) == vals(old(all_elements)@) + ref_vals(items@),
            r matches Some(CLRSABUpdate::Insertion),
    {
        let phi = aux.unwrap();
        let mut batch = BigNumber::one();
        let n = items.len();
        for k in 0..n
            invariant
                n == items.len(),
                phi@ > 1,
                batch@ == prod_mod(ref_vals(items@).take(k as int), phi@),
        {
            assert(ref_vals(items@).take(k + 1).drop_last() == ref_vals(items@).take(k as int));
            batch = batch.modmul(items[k], phi);
        }
        assert(ref_vals(items@).take(n as int) == ref_vals(items@));
        proof {
            assert forall|k: int| 0 <= k < ref_vals(items@).len() implies is_unit(
                #[trigger] ref_vals(items@)[k],
                phi@,
            ) by {
                assert(self.insert_ok(items@[k], aux));
            }
            lemma_prod_mod_unit(ref_vals(items@), phi@);
        }
        let mut elems = copy_all(all_elements);
        extend_copies(all_elements, &items);
        self.insert(&batch, aux, &mut elems).1
    }
}

} // verus!
