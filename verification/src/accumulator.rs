//! The interface shared by the accumulator constructions.
//!
//! Each operation that is defined only on some inputs names those inputs by a
//! specification predicate that every construction defines for itself (for
//! instance, an RSA accumulator can only remove an element with the trapdoor).
use vstd::prelude::*;

verus! {

/// A cryptographic accumulator.
pub trait Accumulator: Sized {
    type Element;
    type Trapdoor;
    type Witness;
    type Update;

    /// Inputs on which `update` is defined.
    spec fn update_ok(
        &self,
        witness: &Self::Witness,
        item: Option<&Self::Element>,
        update: &Self::Update,
    ) -> bool;

    /// Inputs on which `witness_mem` is defined.
    spec fn witness_mem_ok(&self, item: &Self::Element, aux: Option<&Self::Trapdoor>) -> bool;

    /// Inputs on which `witness_nonmem` is defined.
    spec fn witness_nonmem_ok(&self, item: &Self::Element, aux: Option<&Self::Trapdoor>) -> bool;

    /// `r` is a fresh accumulator for `items`, with its trapdoor.
    spec fn fresh(r: (Self, Option<Self::Trapdoor>), items: Seq<Self::Element>) -> bool;

    /// A fresh accumulator holding no element, and its trapdoor.
    fn new() -> (r: (Self, Option<Self::Trapdoor>))
        ensures
            Self::fresh(r, Seq::empty()),
    {
        let items: [Self::Element; 0] = [];
        let r = Self::new_with_elements(&items);
        assert(items@ =~= Seq::<Self::Element>::empty());
        r
    }

    /// A fresh accumulator for the given elements, and its trapdoor.
    fn new_with_elements(items: &[Self::Element]) -> (r: (Self, Option<Self::Trapdoor>))
        ensures
            Self::fresh(r, items@),
    ;

    /// Brings a witness up to date after an update of the accumulator.
    fn update(
        &self,
        witness: &Self::Witness,
        item: Option<&Self::Element>,
        update: &Self::Update,
    ) -> Self::Witness
        requires
            self.update_ok(witness, item, update),
    ;

    /// A membership witness for `item`.
    fn witness_mem(
        &self,
        item: &Self::Element,
        aux: Option<&Self::Trapdoor>,
        all_elements: &[Self::Element],
    ) -> Self::Witness
        requires
            self.witness_mem_ok(item, aux),
    ;

    /// A non-membership witness for `item`.
    fn witness_nonmem(
        &self,
        item: &Self::Element,
        aux: Option<&Self::Trapdoor>,
        all_elements: &[Self::Element],
    ) -> Self::Witness
        requires
            self.witness_nonmem_ok(item, aux),
    ;
}

/// An accumulator to which elements can be added.
pub trait Additive: Accumulator {
    /// Inputs on which `insert` is defined.
    spec fn insert_ok(&self, item: &Self::Element, aux: Option<&Self::Trapdoor>) -> bool;

    /// Inputs on which `insert_batch` is defined, besides every item being
    /// insertable.
    spec fn insert_batch_ok(&self, aux: Option<&Self::Trapdoor>) -> bool;

    /// What `insert` does: `after` (the accumulator and the list of all
    /// elements) is `before` with `item` inserted.
    spec fn inserted(
        before: (Self, Seq<Self::Element>),
        item: Self::Element,
        aux: Option<&Self::Trapdoor>,
        after: (Self, Seq<Self::Element>),
    ) -> bool;

    /// Adds `item`; returns its witness and the update that other holders apply.
    fn insert(
        &mut self,
        item: &Self::Element,
        aux: Option<&Self::Trapdoor>,
        all_elements: &mut Vec<Self::Element>,
    ) -> (r: (Option<Self::Witness>, Option<Self::Update>))
        requires
            old(self).insert_ok(item, aux),
        ensures
            Self::inserted((*old(self), old(all_elements)@), *item, aux, (*final(self), final(all_elements)@)),
            forall|i: &Self::Element|
                #[trigger] old(self).insert_ok(i, aux) ==> final(self).insert_ok(i, aux),
    ;

    /// Adds every item of `items`.
    fn insert_batch(
        &mut self,
        items: Vec<&Self::Element>,
        aux: Option<&Self::Trapdoor>,
        all_elements: &mut Vec<Self::Element>,
    ) -> (r: Option<Self::Update>)
        requires
            old(self).insert_batch_ok(aux),
            forall|k: int| 0 <= k < items.len() ==> old(self).insert_ok(#[trigger] items[k], aux),
        default_ensures
            r is None,
            exists|states: Seq<(Self, Seq<Self::Element>)>|
                {
                    &&& states.len() == items.len() + 1
                    &&& states[0] == (*old(self), old(all_elements)@)
                    &&& states.last() == (*final(self), final(all_elements)@)
                    &&& forall|k: int|
                        0 <= k < items.len() ==> #[trigger] Self::inserted(
                            states[k],
                            *items@[k],
                            aux,
                            states[k + 1],
                        )
                },
    {
        let n = items.len();
        let mut k: usize = 0;
        let ghost mut states: Seq<(Self, Seq<Self::Element>)> = seq![(*self, all_elements@)];
        while k < n
            invariant
                n == items.len(),
                k <= n,
                forall|j: int| 0 <= j < items.len() ==> self.insert_ok(#[trigger] items[j], aux),
                states.len() == k + 1,
                states[0] == (*old(self), old(all_elements)@),
                states.last() == (*self, all_elements@),
                forall|j: int|
                    0 <= j < k ==> #[trigger] Self::inserted(
                        states[j],
                        *items@[j],
                        aux,
                        states[j + 1],
                    ),
            decreases n - k,
        {
            self.insert(items[k], aux, all_elements);
            proof {
                let ghost s0 = states;
                states = states.push((*self, all_elements@));
                assert forall|j: int| 0 <= j < k + 1 implies #[trigger] Self::inserted(
                    states[j],
                    *items@[j],
                    aux,
                    states[j + 1],
                ) by {
                    if j < k {
                        assert(states[j] == s0[j] && states[j + 1] == s0[j + 1]);
                    }
                }
            }
            k = k + 1;
        }
        None
    }
}

/// An accumulator from which elements can be removed.
pub trait Subtractive: Accumulator {
    /// Inputs on which `remove` and `update_after_remove` are defined.
    spec fn remove_ok(&self, item: &Self::Element, aux: Option<&Self::Trapdoor>) -> bool;

    /// Inputs on which the batch removals are defined, besides every item
    /// being removable.
    spec fn remove_batch_ok(&self, aux: Option<&Self::Trapdoor>) -> bool;

    /// What `remove` and `update_after_remove` do: `after` (the accumulator
    /// and the list of all elements) is `before` with `item` removed.
    spec fn removed(
        before: (Self, Seq<Self::Element>),
        item: Self::Element,
        aux: Option<&Self::Trapdoor>,
        after: (Self, Seq<Self::Element>),
    ) -> bool;

    /// Removes `item`; returns a witness and the update that holders apply.
    fn remove(
        &mut self,
        item: &Self::Element,
        aux: Option<&Self::Trapdoor>,
        all_elements: &mut Vec<Self::Element>,
    ) -> (r: (Option<Self::Witness>, Option<Self::Update>))
        requires
            old(self).remove_ok(item, aux),
        ensures
            Self::removed((*old(self), old(all_elements)@), *item, aux, (*final(self), final(all_elements)@)),
            forall|i: &Self::Element|
                #[trigger] old(self).remove_ok(i, aux) ==> final(self).remove_ok(i, aux),
    ;

    /// Removes `item`; returns the update that holders apply.
    fn update_after_remove(
        &mut self,
        item: &Self::Element,
        aux: Option<&Self::Trapdoor>,
        all_elements: &mut Vec<Self::Element>,
    ) -> (r: Option<Self::Update>)
        requires
            old(self).remove_ok(item, aux),
        ensures
            Self::removed((*old(self), old(all_elements)@), *item, aux, (*final(self), final(all_elements)@)),
            forall|i: &Self::Element|
                #[trigger] old(self).remove_ok(i, aux) ==> final(self).remove_ok(i, aux),
    ;

    /// Removes every item of `items`.
    fn remove_batch(
        &mut self,
        items: Vec<&Self::Element>,
        aux: Option<&Self::Trapdoor>,
        all_elements: &mut Vec<Self::Element>,
    ) -> (r: Option<Self::Update>)
        requires
            old(self).remove_batch_ok(aux),
            forall|k: int| 0 <= k < items.len() ==> old(self).remove_ok(#[trigger] items[k], aux),
        default_ensures
            r is None,
            exists|states: Seq<(Self, Seq<Self::Element>)>|
                {
                    &&& states.len() == items.len() + 1
                    &&& states[0] == (*old(self), old(all_elements)@)
                    &&& states.last() == (*final(self), final(all_elements)@)
                    &&& forall|k: int|
                        0 <= k < items.len() ==> #[trigger] Self::removed(
                            states[k],
                            *items@[k],
                            aux,
                            states[k + 1],
                        )
                },
    {
        let n = items.len();
        let mut k: usize = 0;
        let ghost mut states: Seq<(Self, Seq<Self::Element>)> = seq![(*self, all_elements@)];
        while k < n
            invariant
                n == items.len(),
                k <= n,
                forall|j: int| 0 <= j < items.len() ==> self.remove_ok(#[trigger] items[j], aux),
                states.len() == k + 1,
                states[0] == (*old(self), old(all_elements)@),
                states.last() == (*self, all_elements@),
                forall|j: int|
                    0 <= j < k ==> #[trigger] Self::removed(
                        states[j],
                        *items@[j],
                        aux,
                        states[j + 1],
                    ),
            decreases n - k,
        {
            self.remove(items[k], aux, all_elements);
            proof {
                let ghost s0 = states;
                states = states.push((*self, all_elements@));
                assert forall|j: int| 0 <= j < k + 1 implies #[trigger] Self::removed(
                    states[j],
                    *items@[j],
                    aux,
                    states[j + 1],
                ) by {
                    if j < k {
                        assert(states[j] == s0[j] && states[j + 1] == s0[j + 1]);
                    }
                }
            }
            k = k + 1;
        }
        None
    }

    /// Removes every item of `items`; returns the update that holders apply.
    fn update_after_remove_batch(
        &mut self,
        items: Vec<&Self::Element>,
        aux: Option<&Self::Trapdoor>,
        all_elements: &mut Vec<Self::Element>,
    ) -> (r: Option<Self::Update>)
        requires
            old(self).remove_batch_ok(aux),
            forall|k: int| 0 <= k < items.len() ==> old(self).remove_ok(#[trigger] items[k], aux),
        default_ensures
            r is None,
            exists|states: Seq<(Self, Seq<Self::Element>)>|
                {
                    &&& states.len() == items.len() + 1
                    &&& states[0] == (*old(self), old(all_elements)@)
                    &&& states.last() == (*final(self), final(all_elements)@)
                    &&& forall|k: int|
                        0 <= k < items.len() ==> #[trigger] Self::removed(
                            states[k],
                            *items@[k],
                            aux,
                            states[k + 1],
                        )
                },
    {
        let n = items.len();
        let mut k: usize = 0;
        let ghost mut states: Seq<(Self, Seq<Self::Element>)> = seq![(*self, all_elements@)];
        while k < n
            invariant
                n == items.len(),
                k <= n,
                forall|j: int| 0 <= j < items.len() ==> self.remove_ok(#[trigger] items[j], aux),
                states.len() == k + 1,
                states[0] == (*old(self), old(all_elements)@),
                states.last() == (*self, all_elements@),
                forall|j: int|
                    0 <= j < k ==> #[trigger] Self::removed(
                        states[j],
                        *items@[j],
                        aux,
                        states[j + 1],
                    ),
            decreases n - k,
        {
            self.update_after_remove(items[k], aux, all_elements);
            proof {
                let ghost s0 = states;
                states = states.push((*self, all_elements@));
                assert forall|j: int| 0 <= j < k + 1 implies #[trigger] Self::removed(
                    states[j],
                    *items@[j],
                    aux,
                    states[j + 1],
                ) by {
                    if j < k {
                        assert(states[j] == s0[j] && states[j + 1] == s0[j + 1]);
                    }
                }
            }
            k = k + 1;
        }
        None
    }
}

/// An accumulator with membership witnesses.
pub trait Positive: Accumulator {
    /// Inputs on which `verify_mem` is defined.
    spec fn verify_mem_ok(&self, item: &Self::Element, witness: Option<&Self::Witness>) -> bool;

    /// Checks a membership witness.
    fn verify_mem(&self, item: &Self::Element, witness: Option<&Self::Witness>) -> bool
        requires
            self.verify_mem_ok(item, witness),
    ;
}

/// An accumulator with non-membership witnesses.
pub trait Negative: Accumulator {
    /// Inputs on which `verify_nonmem` is defined.
    spec fn verify_nonmem_ok(&self, item: &Self::Element, witness: Option<&Self::Witness>) -> bool;

    /// Checks a non-membership witness.
    fn verify_nonmem(&self, item: &Self::Element, witness: Option<&Self::Witness>) -> bool
        requires
            self.verify_nonmem_ok(item, witness),
    ;
}

/// An accumulator with zero-knowledge membership proofs.
pub trait ZKPositive: Positive {
    type MemProof;
    type MemParams;

    /// Inputs on which `prove_mem` is defined.
    spec fn prove_mem_ok(
        &self,
        params: &Self::MemParams,
        item: &Self::Element,
        witness: &Self::Witness,
    ) -> bool;

    /// Inputs on which `verify_mem_proof` is defined.
    spec fn verify_mem_proof_ok(&self, params: &Self::MemParams, proof: &Self::MemProof) -> bool;

    /// Public parameters of the proofs.
    fn gen_param(&self) -> Self::MemParams;

    /// A proof that `item` is accumulated, bound to `extra`.
    fn prove_mem(
        &self,
        params: &Self::MemParams,
        item: &Self::Element,
        witness: &Self::Witness,
        extra: &[u8],
    ) -> Self::MemProof
        requires
            self.prove_mem_ok(params, item, witness),
    ;

    /// Checks a membership proof bound to `extra`.
    fn verify_mem_proof(&self, params: &Self::MemParams, proof: &Self::MemProof, extra: &[u8]) -> bool
        requires
            self.verify_mem_proof_ok(params, proof),
    ;
}

} // verus!
