//! The outputs that an evaluation has computed so far.
use crate::arith::{
    lemma_scalar_term_kept, lemma_vector_term_kept, scalar_program, scalar_step_within,
    scalar_term, scalar_within, vector_program, vector_step_within, vector_term, vector_within,
    Arithmetic, Scalar, ScalarStep, ScalarTerm, Vector, VectorBits, VectorStep, VectorTerm,
};
use crate::graph::same_output;
use crate::value::{Computed, Value};
use egui_node_graph2::OutputId;
use vstd::prelude::*;

verus! {

/// The number format in which every operation is written down, none computed.
pub open spec fn terms() -> Arithmetic<ScalarTerm, VectorTerm> {
    Arithmetic {
        scalar: |bits: u32| ScalarTerm::Bits(bits),
        vector: |bits: VectorBits| VectorTerm::Bits(bits),
        add_scalars: |a: ScalarTerm, b: ScalarTerm| ScalarTerm::Add(Box::new(a), Box::new(b)),
        subtract_scalars: |a: ScalarTerm, b: ScalarTerm|
            ScalarTerm::Subtract(Box::new(a), Box::new(b)),
        make: |x: ScalarTerm, y: ScalarTerm| VectorTerm::Make(x, y),
        add_vectors: |a: VectorTerm, b: VectorTerm| VectorTerm::Add(Box::new(a), Box::new(b)),
        subtract_vectors: |a: VectorTerm, b: VectorTerm|
            VectorTerm::Subtract(Box::new(a), Box::new(b)),
        scale: |a: VectorTerm, s: ScalarTerm| VectorTerm::Scale(Box::new(a), s),
    }
}

/// The values of the outputs that were computed, and the arithmetic that
/// computes them.
pub struct OutputsCache {
    entries: Vec<(OutputId, Computed)>,
    scalars: Vec<ScalarStep>,
    vectors: Vec<VectorStep>,
}

impl View for OutputsCache {
    type V = Map<OutputId, Value<ScalarTerm, VectorTerm>>;

    /// The value of each output that is in the cache, with its arithmetic
    /// written out.
    closed spec fn view(&self) -> Map<OutputId, Value<ScalarTerm, VectorTerm>> {
        Map::new(
            |output: OutputId| self.position(output) is Some,
            |output: OutputId| self.meaning(self.entries@[self.position(output)->0].1@),
        )
    }
}

impl OutputsCache {
    /// Where the output is among the entries.
    closed spec fn position(&self, output: OutputId) -> Option<int> {
        if exists|k: int| 0 <= k < self.entries@.len() && #[trigger] self.entries@[k].0 == output {
            Some(
                choose|k: int|
                    0 <= k < self.entries@.len() && #[trigger] self.entries@[k].0 == output,
            )
        } else {
            None
        }
    }

    /// The scalar steps, in the order in which they were recorded.
    pub closed spec fn scalars(&self) -> Seq<ScalarStep> {
        self.scalars@
    }

    /// The vector steps, in the order in which they were recorded.
    pub closed spec fn vectors(&self) -> Seq<VectorStep> {
        self.vectors@
    }

    /// How many outputs are in the cache.
    pub closed spec fn size(&self) -> nat {
        self.entries@.len()
    }

    /// How many operations were recorded.
    pub open spec fn steps(&self) -> nat {
        self.scalars().len() + self.vectors().len()
    }

    /// The value refers to steps that were recorded.
    pub open spec fn holds(&self, value: Value<Scalar, Vector>) -> bool {
        match value {
            Value::Vec2(v) => vector_within(v, self.vectors().len()),
            Value::Scalar(s) => scalar_within(s, self.scalars().len()),
            Value::Text(_) => true,
        }
    }

    /// The value, with its arithmetic written out.
    pub open spec fn meaning(&self, value: Value<Scalar, Vector>) -> Value<
        ScalarTerm,
        VectorTerm,
    > {
        match value {
            Value::Vec2(v) => Value::Vec2(vector_term(self.scalars(), self.vectors(), v)),
            Value::Scalar(s) => Value::Scalar(scalar_term(self.scalars(), s)),
            Value::Text(text) => Value::Text(text),
        }
    }

    /// The steps can be run front to back, no output occurs twice, and every
    /// value refers to recorded steps.
    pub closed spec fn wf(&self) -> bool {
        &&& scalar_program(self.scalars())
        &&& vector_program(self.scalars(), self.vectors())
        &&& forall|i: int, j: int| #![trigger self.entries@[i], self.entries@[j]]
            0 <= i < j < self.entries@.len() ==> self.entries@[i].0 != self.entries@[j].0
        &&& forall|i: int| #![trigger self.entries@[i]]
            0 <= i < self.entries@.len() ==> self.holds(self.entries@[i].1@)
    }

    /// `later` has all the steps of this cache, and perhaps more after them.
    pub open spec fn leads_to(&self, later: &OutputsCache) -> bool {
        &&& self.scalars().is_prefix_of(later.scalars())
        &&& self.vectors().is_prefix_of(later.vectors())
    }

    /// The steps can be run front to back.
    pub proof fn lemma_programs(&self)
        requires
            self.wf(),
        ensures
            scalar_program(self.scalars()),
            vector_program(self.scalars(), self.vectors()),
    {
    }

    /// Steps that follow do not change what a value is.
    pub proof fn lemma_meaning_kept(&self, later: &OutputsCache, value: Value<Scalar, Vector>)
        requires
            self.wf(),
            self.leads_to(later),
            self.holds(value),
        ensures
            later.holds(value),
            later.meaning(value) == self.meaning(value),
    {
        match value {
            Value::Vec2(v) => {
                lemma_vector_term_kept(
                    self.scalars(),
                    later.scalars(),
                    self.vectors(),
                    later.vectors(),
                    v,
                );
            },
            Value::Scalar(s) => {
                lemma_scalar_term_kept(self.scalars(), later.scalars(), s);
            },
            Value::Text(_) => {},
        }
    }

    /// The size is the number of outputs that have a value.
    pub proof fn law_size_counts_outputs(&self)
        requires
            self.wf(),
        ensures
            self@.dom().finite(),
            self@.dom().len() == self.size(),
    {
        let keys = self.entries@.map_values(|entry: (OutputId, Computed)| entry.0);
        assert(keys.no_duplicates()) by {
            assert forall|i: int, j: int|
                0 <= i < keys.len() && 0 <= j < keys.len() && i != j implies keys[i]
                != keys[j] by {
                if i < j {
                    assert(self.entries@[i].0 != self.entries@[j].0);
                } else {
                    assert(self.entries@[j].0 != self.entries@[i].0);
                }
            }
        }
        keys.unique_seq_to_set();
        assert forall|output: OutputId| self@.dom().contains(output) == keys.to_set().contains(
            output,
        ) by {
            if self.position(output) is Some {
                let k = self.position(output)->0;
                assert(0 <= k < self.entries@.len() && self.entries@[k].0 == output);
                assert(keys[k] == output);
            }
            if keys.contains(output) {
                let k = choose|k: int| 0 <= k < keys.len() && keys[k] == output;
                self.lemma_position(k);
            }
        }
        assert(self@.dom() =~= keys.to_set());
    }

    proof fn lemma_position(&self, k: int)
        requires
            self.wf(),
            0 <= k < self.entries@.len(),
        ensures
            self.position(self.entries@[k].0) == Some(k),
    {
        let output = self.entries@[k].0;
        let found = choose|j: int|
            0 <= j < self.entries@.len() && #[trigger] self.entries@[j].0 == output;
        assert(0 <= found < self.entries@.len() && self.entries@[found].0 == output);
        if found < k {
            assert(self.entries@[found].0 != self.entries@[k].0);
        } else if k < found {
            assert(self.entries@[k].0 != self.entries@[found].0);
        }
    }

    /// The same entries mean the same where the steps of the one lead to the
    /// steps of the other.
    proof fn lemma_view_kept(&self, later: &OutputsCache)
        requires
            self.wf(),
            self.leads_to(later),
            later.entries@ == self.entries@,
            scalar_program(later.scalars()),
            vector_program(later.scalars(), later.vectors()),
        ensures
            later.wf(),
            later@ == self@,
            later.size() == self.size(),
    {
        assert forall|i: int| #![trigger later.entries@[i]]
            0 <= i < later.entries@.len() implies later.holds(later.entries@[i].1@) by {
            assert(self.holds(self.entries@[i].1@));
            self.lemma_meaning_kept(later, self.entries@[i].1@);
        }
        assert forall|output: OutputId| self@.dom().contains(output) implies #[trigger] later@[output]
            == self@[output] by {
            let k = self.position(output)->0;
            assert(0 <= k < self.entries@.len());
            assert(self.holds(self.entries@[k].1@));
            self.lemma_meaning_kept(later, self.entries@[k].1@);
        }
        assert(later@ =~= self@);
    }

    /// A cache with nothing in it.
    pub fn new() -> (r: OutputsCache)
        ensures
            r.wf(),
            r@ == Map::<OutputId, Value<ScalarTerm, VectorTerm>>::empty(),
            r.size() == 0,
            r.scalars() == Seq::<ScalarStep>::empty(),
            r.vectors() == Seq::<VectorStep>::empty(),
    {
        let r = OutputsCache { entries: Vec::new(), scalars: Vec::new(), vectors: Vec::new() };
        assert(r@ =~= Map::<OutputId, Value<ScalarTerm, VectorTerm>>::empty());
        r
    }

    /// The scalar steps, in the order in which they were recorded.
    pub fn scalar_steps(&self) -> (r: &Vec<ScalarStep>)
        ensures
            r@ == self.scalars(),
    {
        &self.scalars
    }

    /// The vector steps, in the order in which they were recorded.
    pub fn vector_steps(&self) -> (r: &Vec<VectorStep>)
        ensures
            r@ == self.vectors(),
    {
        &self.vectors
    }

    /// How many outputs are in the cache.
    pub fn len(&self) -> (r: usize)
        ensures
            r == self.size(),
    {
        self.entries.len()
    }

    /// The value of an output, if it is in the cache.
    pub fn get(&self, output: OutputId) -> (r: Option<Computed>)
        requires
            self.wf(),
        ensures
            match r {
                Some(value) => {
                    &&& self@.dom().contains(output)
                    &&& self.holds(value@)
                    &&& self.meaning(value@) == self@[output]
                },
                None => !self@.dom().contains(output),
            },
    {
        let mut k: usize = 0;
        while k < self.entries.len()
            invariant
                k <= self.entries@.len(),
                forall|j: int| 0 <= j < k ==> #[trigger] self.entries@[j].0 != output,
                self.wf(),
            decreases self.entries@.len() - k,
        {
            if same_output(self.entries[k].0, output) {
                proof {
                    self.lemma_position(k as int);
                    assert(self.holds(self.entries@[k as int].1@));
                }
                return Some(self.entries[k].1.clone());
            }
            k = k + 1;
        }
        None
    }

    /// Puts the value of an output into the cache, in place of the one that it
    /// had, if it had one.
    pub fn insert(&mut self, output: OutputId, value: Computed)
        requires
            old(self).wf(),
            old(self).holds(value@),
        ensures
            final(self).wf(),
            final(self)@ == old(self)@.insert(output, old(self).meaning(value@)),
            final(self).scalars() == old(self).scalars(),
            final(self).vectors() == old(self).vectors(),
            final(self).size() == old(self).size() + (if old(self)@.dom().contains(output) {
                0int
            } else {
                1int
            }),
    {
        let mut k: usize = 0;
        while k < self.entries.len()
            invariant
                k <= self.entries@.len(),
                forall|j: int| 0 <= j < k ==> #[trigger] self.entries@[j].0 != output,
                self.wf(),
                *self == *old(self),
                old(self).holds(value@),
            decreases self.entries@.len() - k,
        {
            if same_output(self.entries[k].0, output) {
                proof {
                    self.lemma_position(k as int);
                }
                self.entries.set(k, (output, value));
                proof {
                    self.lemma_replaced(old(self), k as int, output, value);
                }
                return;
            }
            k = k + 1;
        }
        assert(old(self).position(output) is None);
        self.entries.push((output, value));
        proof {
            self.lemma_pushed(old(self), output, value);
        }
    }

    proof fn lemma_replaced(
        &self,
        before: &OutputsCache,
        k: int,
        output: OutputId,
        value: Computed,
    )
        requires
            before.wf(),
            before.holds(value@),
            0 <= k < before.entries@.len(),
            before.entries@[k].0 == output,
            self.entries@ == before.entries@.update(k, (output, value)),
            self.scalars() == before.scalars(),
            self.vectors() == before.vectors(),
        ensures
            self.wf(),
            self@ == before@.insert(output, before.meaning(value@)),
    {
        assert forall|i: int| #![trigger self.entries@[i]] 0 <= i < self.entries@.len() implies (
        self.entries@[i].0 == before.entries@[i].0 && self.holds(self.entries@[i].1@)) by {
            assert(before.holds(before.entries@[i].1@));
        }
        assert forall|i: int, j: int| #![trigger self.entries@[i], self.entries@[j]]
            0 <= i < j < self.entries@.len() implies self.entries@[i].0 != self.entries@[j].0 by {
            assert(before.entries@[i].0 != before.entries@[j].0);
        }
        assert(self.wf());
        self.lemma_same_keys(before);
        self.lemma_position(k);
        assert forall|o: OutputId| self@.dom().contains(o) implies #[trigger] self@[o]
            == before@.insert(output, before.meaning(value@))[o] by {
            let p = self.position(o)->0;
            assert(self.entries@[p].0 == o);
            before.lemma_position(p);
        }
        assert(self@ =~= before@.insert(output, before.meaning(value@)));
    }

    proof fn lemma_same_keys(&self, before: &OutputsCache)
        requires
            self.wf(),
            before.wf(),
            self.entries@.len() == before.entries@.len(),
            forall|i: int| #![trigger self.entries@[i]]
                0 <= i < self.entries@.len() ==> self.entries@[i].0 == before.entries@[i].0,
        ensures
            self@.dom() == before@.dom(),
    {
        assert forall|o: OutputId| self@.dom().contains(o) == before@.dom().contains(o) by {
            if self.position(o) is Some {
                let p = self.position(o)->0;
                assert(self.entries@[p].0 == o);
                before.lemma_position(p);
            }
            if before.position(o) is Some {
                let p = before.position(o)->0;
                assert(before.entries@[p].0 == o);
                assert(self.entries@[p].0 == o);
                self.lemma_position(p);
            }
        }
        assert(self@.dom() =~= before@.dom());
    }

    proof fn lemma_pushed(&self, before: &OutputsCache, output: OutputId, value: Computed)
        requires
            before.wf(),
            before.holds(value@),
            before.position(output) is None,
            self.entries@ == before.entries@.push((output, value)),
            self.scalars() == before.scalars(),
            self.vectors() == before.vectors(),
        ensures
            self.wf(),
            self@ == before@.insert(output, before.meaning(value@)),
    {
        let last = before.entries@.len() as int;
        assert forall|i: int| #![trigger self.entries@[i]]
            0 <= i < self.entries@.len() implies self.holds(self.entries@[i].1@) by {
            if i < last {
                assert(before.holds(before.entries@[i].1@));
            }
        }
        assert forall|i: int, j: int| #![trigger self.entries@[i], self.entries@[j]]
            0 <= i < j < self.entries@.len() implies self.entries@[i].0 != self.entries@[j].0 by {
            assert(self.entries@[i] == before.entries@[i]);
            if j < last {
                assert(before.entries@[i].0 != before.entries@[j].0);
            } else {
                assert(before.entries@[i].0 != output);
            }
        }
        assert(self.wf());
        self.lemma_position(last);
        assert forall|o: OutputId| #[trigger]
            self@.dom().contains(o) == before@.insert(
                output,
                before.meaning(value@),
            ).dom().contains(o) by {
            if o != output {
                if self.position(o) is Some {
                    let p = self.position(o)->0;
                    assert(self.entries@[p].0 == o);
                    assert(before.entries@[p].0 == o);
                    before.lemma_position(p);
                }
                if before.position(o) is Some {
                    let p = before.position(o)->0;
                    assert(before.entries@[p].0 == o);
                    assert(self.entries@[p].0 == o);
                    self.lemma_position(p);
                }
            }
        }
        assert forall|o: OutputId| self@.dom().contains(o) implies #[trigger] self@[o]
            == before@.insert(output, before.meaning(value@))[o] by {
            let p = self.position(o)->0;
            assert(self.entries@[p].0 == o);
            if o != output {
                assert(before.entries@[p].0 == o);
                before.lemma_position(p);
            }
        }
        assert(self@ =~= before@.insert(output, before.meaning(value@)));
    }

    /// Records a scalar operation, and hands out its result.
    pub fn record_scalar(&mut self, step: ScalarStep) -> (r: Scalar)
        requires
            old(self).wf(),
            scalar_step_within(step, old(self).scalars().len()),
        ensures
            final(self).wf(),
            final(self)@ == old(self)@,
            final(self).size() == old(self).size(),
            final(self).scalars() == old(self).scalars().push(step),
            final(self).vectors() == old(self).vectors(),
            r == Scalar::Step(old(self).scalars().len() as usize),
            old(self).scalars().len() <= usize::MAX,
    {
        let index = self.scalars.len();
        self.scalars.push(step);
        proof {
            let before = old(self).scalars();
            let after = self.scalars();
            assert forall|i: int| #![trigger after[i]]
                0 <= i < after.len() implies scalar_step_within(after[i], i as nat) by {
                if i < before.len() {
                    assert(before[i] == after[i]);
                }
            }
            assert forall|i: int| #![trigger self.vectors()[i]]
                0 <= i < self.vectors().len() implies vector_step_within(
                self.vectors()[i],
                after.len(),
                i as nat,
            ) by {
                assert(vector_step_within(old(self).vectors()[i], before.len(), i as nat));
            }
            assert(before.is_prefix_of(after));
            old(self).lemma_view_kept(self);
        }
        Scalar::Step(index)
    }

    /// Records a vector operation, and hands out its result.
    pub fn record_vector(&mut self, step: VectorStep) -> (r: Vector)
        requires
            old(self).wf(),
            vector_step_within(step, old(self).scalars().len(), old(self).vectors().len()),
        ensures
            final(self).wf(),
            final(self)@ == old(self)@,
            final(self).size() == old(self).size(),
            final(self).scalars() == old(self).scalars(),
            final(self).vectors() == old(self).vectors().push(step),
            r == Vector::Step(old(self).vectors().len() as usize),
            old(self).vectors().len() <= usize::MAX,
    {
        let index = self.vectors.len();
        self.vectors.push(step);
        proof {
            let before = old(self).vectors();
            let after = self.vectors();
            assert forall|i: int| #![trigger after[i]]
                0 <= i < after.len() implies vector_step_within(
                after[i],
                self.scalars().len(),
                i as nat,
            ) by {
                if i < before.len() {
                    assert(before[i] == after[i]);
                }
            }
            assert(before.is_prefix_of(after));
            old(self).lemma_view_kept(self);
        }
        Vector::Step(index)
    }
}

} // verus!
