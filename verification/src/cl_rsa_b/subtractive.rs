use vstd::prelude::*;

use crate::accumulator::{Accumulator, Subtractive};
use crate::bignum::BigNumber;
use crate::modarith::{is_unit, lemma_unit_mul};
use super::accumulator::{CLRSABAccumulator, vals, ref_vals, prod, value_root, remove_value, remove_values, copy_all, retain_other, retain_others};
use super::update::CLRSABUpdate;

verus! {

/// Every value of `s` is invertible modulo `m`, so is their product.
pub proof fn lemma_prod_unit(s: Seq<int>, m: int)
    requires
        m > 1,
        forall|k: int| 0 <= k < s.len() ==> is_unit(#[trigger] s[k], m),
    ensures
        is_unit(prod(s), m),
    decreases s.len(),
{
    if s.len() == 0 {
        vstd::arithmetic::div_mod::lemma_small_mod(1, m as nat);
        assert((1int * 1int) % m == 1);
    } else {
        let t = s.drop_last();
        assert forall|k: int| 0 <= k < t.len() implies is_unit(#[trigger] t[k], m) by {
            assert(t[k] == s[k]);
        }
        lemma_prod_unit(t, m);
        assert(is_unit(s[s.len() - 1], m));
        lemma_unit_mul(prod(t), s.last(), m);
    }
}

/// The raw product of the items (not reduced modulo the trapdoor: a reduced
/// product would reveal a multiple of the trapdoor to anyone who knows the
/// elements).
fn raw_product(items: &Vec<&BigNumber>) -> (r: BigNumber)
    ensures
        r@ == prod(ref_vals(items@)),
{
    let mut batch = BigNumber::one();
    let n = items.len();
    for k in 0..n
        invariant
            n == items.len(),
            batch@ == prod(ref_vals(items@).take(k as int)),
    {
        assert(ref_vals(items@).take(k + 1).drop_last() == ref_vals(items@).take(k as int));
        batch = batch.times(items[k]);
    }
    assert(ref_vals(items@).take(n as int) == ref_vals(items@));
    batch
}

impl Subtractive for CLRSABAccumulator {
    /// Removal needs the trapdoor and an element invertible modulo it.
    open spec fn remove_ok(&self, item: &BigNumber, aux: Option<&BigNumber>) -> bool {
        aux matches Some(phi) && is_unit(item@, phi@)
    }

    /// Batch removal needs the trapdoor.
    open spec fn remove_batch_ok(&self, aux: Option<&BigNumber>) -> bool {
        aux matches Some(phi) && phi@ > 1
    }

    /// Removal keeps the modulus, replaces the value by its `item`-th root,
    /// and drops `item` from the list of all elements.
    open spec fn removed(
        before: (CLRSABAccumulator, Seq<BigNumber>),
        item: BigNumber,
        aux: Option<&BigNumber>,
        after: (CLRSABAccumulator, Seq<BigNumber>),
    ) -> bool {
        &&& after.0.n() == before.0.n()
        &&& after.0.v() == value_root(before.0.n(), before.0.v(), item@, aux.unwrap()@)
        &&& vals(after.1) == remove_value(vals(before.1), item@)
    }

    /// Replaces the value by its `item`-th root and forgets `item`.
    fn remove(
        &mut self,
        item: &BigNumber,
        aux: Option<&BigNumber>,
        all_elements: &mut Vec<BigNumber>,
    ) -> (r: (Option<super::witness::CLRSABWitness>, Option<CLRSABUpdate>))
        ensures
            final(self).n() == old(self).n(),
            final(self).v() == value_root(old(self).n(), old(self).v(), item@, aux.unwrap()@),
            vals(final(all_elements)@) == remove_value(vals(old(all_elements)@), item@),
            r.0 is None,
            r.1 matches Some(CLRSABUpdate::Removal { x }) && x@ == item@,
    {
        let phi = aux.unwrap();
        self.take_root(item, phi);
        retain_other(all_elements, item);
        (None, Some(CLRSABUpdate::Removal { x: item.copy() }))
    }

    /// Same as `remove`, returning only the update.
    fn update_after_remove(
        &mut self,
        item: &BigNumber,
        aux: Option<&BigNumber>,
        all_elements: &mut Vec<BigNumber>,
    ) -> (r: Option<CLRSABUpdate>)
        ensures
            final(self).n() == old(self).n(),
            final(self).v() == value_root(old(self).n(), old(self).v(), item@, aux.unwrap()@),
            vals(final(all_elements)@) == remove_value(vals(old(all_elements)@), item@),
            r matches Some(CLRSABUpdate::Removal { x }) && x@ == item@,
    {
        let phi = aux.unwrap();
        self.take_root(item, phi);
        retain_other(all_elements, item);
        Some(CLRSABUpdate::Removal { x: item.copy() })
    }

    /// Forgets every item and removes their product at once.
    fn remove_batch(
        &mut self,
        items: Vec<&BigNumber>,
        aux: Option<&BigNumber>,
        all_elements: &mut Vec<BigNumber>,
    ) -> (r: Option<CLRSABUpdate>)
        ensures
            final(self).n() == old(self).n(),
            final(self).v() == value_root(
                old(self).n(),
                old(self).v(),
                prod(ref_vals(items@)),
                aux.unwrap()@,
            ),
            vals(final(all_elements)@) == remove_values(vals(old(all_elements)@), ref_vals(items@)),
            r matches Some(CLRSABUpdate::Removal { x }) && x@ == prod(ref_vals(items@)),
    {
        let batch = raw_product(&items);
        let ghost phi = aux.unwrap()@;
        proof {
            assert forall|k: int| 0 <= k < ref_vals(items@).len() implies is_unit(
                #[trigger] ref_vals(items@)[k],
                phi,
            ) by {
                assert(self.remove_ok(items@[k], aux));
            }
            lemma_prod_unit(ref_vals(items@), phi);
        }
        let mut elems = copy_all(all_elements);
        elems.push(batch.copy());
        retain_others(all_elements, &items);
        self.remove(&batch, aux, &mut elems).1
    }

    /// Same as `remove_batch`.
    fn update_after_remove_batch(
        &mut self,
        items: Vec<&BigNumber>,
        aux: Option<&BigNumber>,
        all_elements: &mut Vec<BigNumber>,
    ) -> (r: Option<CLRSABUpdate>)
        ensures
            final(self).n() == old(self).n(),
            final(self).v() == value_root(
                old(self).n(),
                old(self).v(),
                prod(ref_vals(items@)),
                aux.unwrap()@,
            ),
            vals(final(all_elements)@) == remove_values(vals(old(all_elements)@), ref_vals(items@)),
            r matches Some(CLRSABUpdate::Removal { x }) && x@ == prod(ref_vals(items@)),
    {
        let batch = raw_product(&items);
        let ghost phi = aux.unwrap()@;
        proof {
            assert forall|k: int| 0 <= k < ref_vals(items@).len() implies is_unit(
                #[trigger] ref_vals(items@)[k],
                phi,
            ) by {
                assert(self.remove_ok(items@[k], aux));
            }
            lemma_prod_unit(ref_vals(items@), phi);
        }
        let mut elems = copy_all(all_elements);
        elems.push(batch.copy());
        retain_others(all_elements, &items);
        self.update_after_remove(&batch, aux, &mut elems)
    }
}

} // verus!
