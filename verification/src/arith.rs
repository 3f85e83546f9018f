//! Arithmetic as a record of steps.
//!
//! A computed number is either a constant, kept as the bit pattern of a single
//! precision number, or the result of a recorded step. The steps form a
//! straight-line program: each one reads constants and results of earlier
//! steps only, so whoever owns the number format can run them front to back.
use vstd::prelude::*;

verus! {

/// The bit patterns of the two coordinates of a constant vector.
#[derive(Clone, Copy, Debug, PartialEq, Eq, Structural)]
pub struct VectorBits {
    pub x: u32,
    pub y: u32,
}

/// A scalar: a constant, or the result of the scalar step with that index.
#[derive(Clone, Copy, Debug, PartialEq, Eq, Structural)]
pub enum Scalar {
    Bits(u32),
    Step(usize),
}

/// A vector: a constant, or the result of the vector step with that index.
#[derive(Clone, Copy, Debug, PartialEq, Eq, Structural)]
pub enum Vector {
    Bits(VectorBits),
    Step(usize),
}

/// An operation whose result is a scalar.
#[derive(Clone, Copy, Debug, PartialEq, Eq, Structural)]
pub enum ScalarStep {
    Add(Scalar, Scalar),
    Subtract(Scalar, Scalar),
}

/// An operation whose result is a vector.
#[derive(Clone, Copy, Debug, PartialEq, Eq, Structural)]
pub enum VectorStep {
    Make(Scalar, Scalar),
    Add(Vector, Vector),
    Subtract(Vector, Vector),
    Scale(Vector, Scalar),
}

/// What a scalar is, written out in full.
pub enum ScalarTerm {
    Bits(u32),
    Add(Box<ScalarTerm>, Box<ScalarTerm>),
    Subtract(Box<ScalarTerm>, Box<ScalarTerm>),
}

/// What a vector is, written out in full.
pub enum VectorTerm {
    Bits(VectorBits),
    Make(ScalarTerm, ScalarTerm),
    Add(Box<VectorTerm>, Box<VectorTerm>),
    Subtract(Box<VectorTerm>, Box<VectorTerm>),
    Scale(Box<VectorTerm>, ScalarTerm),
}

/// The scalar refers to none but the first `len` scalar steps.
pub open spec fn scalar_within(s: Scalar, len: nat) -> bool {
    match s {
        Scalar::Bits(_) => true,
        Scalar::Step(i) => i < len,
    }
}

/// The vector refers to none but the first `len` vector steps.
pub open spec fn vector_within(v: Vector, len: nat) -> bool {
    match v {
        Vector::Bits(_) => true,
        Vector::Step(i) => i < len,
    }
}

pub open spec fn scalar_step_within(step: ScalarStep, len: nat) -> bool {
    match step {
        ScalarStep::Add(a, b) => scalar_within(a, len) && scalar_within(b, len),
        ScalarStep::Subtract(a, b) => scalar_within(a, len) && scalar_within(b, len),
    }
}

pub open spec fn vector_step_within(step: VectorStep, scalars: nat, vectors: nat) -> bool {
    match step {
        VectorStep::Make(x, y) => scalar_within(x, scalars) && scalar_within(y, scalars),
        VectorStep::Add(v, w) => vector_within(v, vectors) && vector_within(w, vectors),
        VectorStep::Subtract(v, w) => vector_within(v, vectors) && vector_within(w, vectors),
        VectorStep::Scale(v, s) => vector_within(v, vectors) && scalar_within(s, scalars),
    }
}

/// Every scalar step reads results of earlier scalar steps only.
pub open spec fn scalar_program(steps: Seq<ScalarStep>) -> bool {
    forall|i: int| #![trigger steps[i]]
        0 <= i < steps.len() ==> scalar_step_within(steps[i], i as nat)
}

/// Every vector step reads results of scalar steps and of earlier vector steps only.
pub open spec fn vector_program(scalars: Seq<ScalarStep>, steps: Seq<VectorStep>) -> bool {
    forall|i: int| #![trigger steps[i]]
        0 <= i < steps.len() ==> vector_step_within(steps[i], scalars.len(), i as nat)
}

/// The scalar `s`, with the steps it stems from written out.
pub open spec fn scalar_term(steps: Seq<ScalarStep>, s: Scalar) -> ScalarTerm
    decreases steps.len(),
{
    match s {
        Scalar::Bits(bits) => ScalarTerm::Bits(bits),
        Scalar::Step(i) => if i < steps.len() {
            let earlier = steps.take(i as int);
            match steps[i as int] {
                ScalarStep::Add(a, b) => ScalarTerm::Add(
                    Box::new(scalar_term(earlier, a)),
                    Box::new(scalar_term(earlier, b)),
                ),
                ScalarStep::Subtract(a, b) => ScalarTerm::Subtract(
                    Box::new(scalar_term(earlier, a)),
                    Box::new(scalar_term(earlier, b)),
                ),
            }
        } else {
            arbitrary()
        },
    }
}

/// The vector `v`, with the steps it stems from written out.
pub open spec fn vector_term(
    scalars: Seq<ScalarStep>,
    steps: Seq<VectorStep>,
    v: Vector,
) -> VectorTerm
    decreases steps.len(),
{
    match v {
        Vector::Bits(bits) => VectorTerm::Bits(bits),
        Vector::Step(i) => if i < steps.len() {
            let earlier = steps.take(i as int);
            match steps[i as int] {
                VectorStep::Make(x, y) => VectorTerm::Make(
                    scalar_term(scalars, x),
                    scalar_term(scalars, y),
                ),
                VectorStep::Add(a, b) => VectorTerm::Add(
                    Box::new(vector_term(scalars, earlier, a)),
                    Box::new(vector_term(scalars, earlier, b)),
                ),
                VectorStep::Subtract(a, b) => VectorTerm::Subtract(
                    Box::new(vector_term(scalars, earlier, a)),
                    Box::new(vector_term(scalars, earlier, b)),
                ),
                VectorStep::Scale(a, s) => VectorTerm::Scale(
                    Box::new(vector_term(scalars, earlier, a)),
                    scalar_term(scalars, s),
                ),
            }
        } else {
            arbitrary()
        },
    }
}

/// Steps that follow do not change what a scalar is.
pub proof fn lemma_scalar_term_kept(
    steps: Seq<ScalarStep>,
    longer: Seq<ScalarStep>,
    s: Scalar,
)
    requires
        steps.is_prefix_of(longer),
        scalar_within(s, steps.len()),
    ensures
        scalar_term(longer, s) == scalar_term(steps, s),
{
    if let Scalar::Step(i) = s {
        assert(longer.take(i as int) =~= steps.take(i as int));
        assert(longer[i as int] == steps[i as int]);
    }
}

/// Steps that follow do not change what a vector is.
pub proof fn lemma_vector_term_kept(
    scalars: Seq<ScalarStep>,
    longer_scalars: Seq<ScalarStep>,
    steps: Seq<VectorStep>,
    longer: Seq<VectorStep>,
    v: Vector,
)
    requires
        scalars.is_prefix_of(longer_scalars),
        steps.is_prefix_of(longer),
        vector_program(scalars, steps),
        vector_within(v, steps.len()),
    ensures
        vector_term(longer_scalars, longer, v) == vector_term(scalars, steps, v),
    decreases steps.len(),
{
    if let Vector::Step(i) = v {
        let earlier = steps.take(i as int);
        assert(longer.take(i as int) =~= earlier);
        assert(longer[i as int] == steps[i as int]);
        assert(vector_program(scalars, earlier)) by {
            assert forall|k: int| #![trigger earlier[k]] 0 <= k < earlier.len() implies
                vector_step_within(earlier[k], scalars.len(), k as nat) by {
                assert(earlier[k] == steps[k]);
            }
        }
        match steps[i as int] {
            VectorStep::Make(x, y) => {
                lemma_scalar_term_kept(scalars, longer_scalars, x);
                lemma_scalar_term_kept(scalars, longer_scalars, y);
            },
            VectorStep::Add(a, b) => {
                lemma_vector_term_kept(scalars, longer_scalars, earlier, earlier, a);
                lemma_vector_term_kept(scalars, longer_scalars, earlier, earlier, b);
            },
            VectorStep::Subtract(a, b) => {
                lemma_vector_term_kept(scalars, longer_scalars, earlier, earlier, a);
                lemma_vector_term_kept(scalars, longer_scalars, earlier, earlier, b);
            },
            VectorStep::Scale(a, s) => {
                lemma_vector_term_kept(scalars, longer_scalars, earlier, earlier, a);
                lemma_scalar_term_kept(scalars, longer_scalars, s);
            },
        }
    }
}

/// A number format: how constants are read and what each operation computes.
#[verifier::reject_recursive_types(S)]
#[verifier::reject_recursive_types(V)]
pub struct Arithmetic<S, V> {
    pub scalar: spec_fn(u32) -> S,
    pub vector: spec_fn(VectorBits) -> V,
    pub add_scalars: spec_fn(S, S) -> S,
    pub subtract_scalars: spec_fn(S, S) -> S,
    pub make: spec_fn(S, S) -> V,
    pub add_vectors: spec_fn(V, V) -> V,
    pub subtract_vectors: spec_fn(V, V) -> V,
    pub scale: spec_fn(V, S) -> V,
}

/// A scalar term, computed in a number format.
pub open spec fn scalar_in<S, V>(format: Arithmetic<S, V>, term: ScalarTerm) -> S
    decreases term,
{
    match term {
        ScalarTerm::Bits(bits) => (format.scalar)(bits),
        ScalarTerm::Add(a, b) => (format.add_scalars)(
            scalar_in(format, *a),
            scalar_in(format, *b),
        ),
        ScalarTerm::Subtract(a, b) => (format.subtract_scalars)(
            scalar_in(format, *a),
            scalar_in(format, *b),
        ),
    }
}

/// A vector term, computed in a number format.
pub open spec fn vector_in<S, V>(format: Arithmetic<S, V>, term: VectorTerm) -> V
    decreases term,
{
    match term {
        VectorTerm::Bits(bits) => (format.vector)(bits),
        VectorTerm::Make(x, y) => (format.make)(scalar_in(format, x), scalar_in(format, y)),
        VectorTerm::Add(a, b) => (format.add_vectors)(
            vector_in(format, *a),
            vector_in(format, *b),
        ),
        VectorTerm::Subtract(a, b) => (format.subtract_vectors)(
            vector_in(format, *a),
            vector_in(format, *b),
        ),
        VectorTerm::Scale(a, s) => (format.scale)(vector_in(format, *a), scalar_in(format, s)),
    }
}

/// A scalar, read where the results of the scalar steps are known.
pub open spec fn read_scalar<S, V>(format: Arithmetic<S, V>, results: Seq<S>, s: Scalar) -> S {
    match s {
        Scalar::Bits(bits) => (format.scalar)(bits),
        Scalar::Step(i) => results[i as int],
    }
}

/// A vector, read where the results of the vector steps are known.
pub open spec fn read_vector<S, V>(format: Arithmetic<S, V>, results: Seq<V>, v: Vector) -> V {
    match v {
        Vector::Bits(bits) => (format.vector)(bits),
        Vector::Step(i) => results[i as int],
    }
}

/// The results of the scalar steps, computed front to back.
pub open spec fn run_scalars<S, V>(
    format: Arithmetic<S, V>,
    steps: Seq<ScalarStep>,
) -> Seq<S>
    decreases steps.len(),
{
    if steps.len() == 0 {
        Seq::empty()
    } else {
        let done = run_scalars(format, steps.drop_last());
        done.push(
            match steps.last() {
                ScalarStep::Add(a, b) => (format.add_scalars)(
                    read_scalar(format, done, a),
                    read_scalar(format, done, b),
                ),
                ScalarStep::Subtract(a, b) => (format.subtract_scalars)(
                    read_scalar(format, done, a),
                    read_scalar(format, done, b),
                ),
            },
        )
    }
}

/// The results of the vector steps, computed front to back.
pub open spec fn run_vectors<S, V>(
    format: Arithmetic<S, V>,
    scalars: Seq<S>,
    steps: Seq<VectorStep>,
) -> Seq<V>
    decreases steps.len(),
{
    if steps.len() == 0 {
        Seq::empty()
    } else {
        let done = run_vectors(format, scalars, steps.drop_last());
        done.push(
            match steps.last() {
                VectorStep::Make(x, y) => (format.make)(
                    read_scalar(format, scalars, x),
                    read_scalar(format, scalars, y),
                ),
                VectorStep::Add(a, b) => (format.add_vectors)(
                    read_vector(format, done, a),
                    read_vector(format, done, b),
                ),
                VectorStep::Subtract(a, b) => (format.subtract_vectors)(
                    read_vector(format, done, a),
                    read_vector(format, done, b),
                ),
                VectorStep::Scale(a, s) => (format.scale)(
                    read_vector(format, done, a),
                    read_scalar(format, scalars, s),
                ),
            },
        )
    }
}

/// In every number format, running the scalar steps front to back and reading a
/// scalar gives what its term computes to.
pub proof fn law_run_scalars<S, V>(
    format: Arithmetic<S, V>,
    steps: Seq<ScalarStep>,
    s: Scalar,
)
    requires
        scalar_program(steps),
        scalar_within(s, steps.len()),
    ensures
        run_scalars(format, steps).len() == steps.len(),
        read_scalar(format, run_scalars(format, steps), s) == scalar_in(
            format,
            scalar_term(steps, s),
        ),
    decreases steps.len(),
{
    if steps.len() > 0 {
        let before = steps.drop_last();
        let done = run_scalars(format, before);
        assert(scalar_program(before)) by {
            assert forall|k: int| #![trigger before[k]] 0 <= k < before.len() implies
                scalar_step_within(before[k], k as nat) by {
                assert(before[k] == steps[k]);
            }
        }
        assert(scalar_step_within(steps[steps.len() - 1], (steps.len() - 1) as nat));
        law_run_scalars(format, before, Scalar::Bits(0));
        if let Scalar::Step(i) = s {
            if i < before.len() {
                law_run_scalars(format, before, s);
                assert(before.is_prefix_of(steps));
                lemma_scalar_term_kept(before, steps, s);
            } else {
                assert(steps.take(i as int) =~= before);
                match steps.last() {
                    ScalarStep::Add(a, b) => {
                        law_run_scalars(format, before, a);
                        law_run_scalars(format, before, b);
                    },
                    ScalarStep::Subtract(a, b) => {
                        law_run_scalars(format, before, a);
                        law_run_scalars(format, before, b);
                    },
                }
            }
        }
    }
}

/// In every number format, running all the steps front to back and reading a
/// vector gives what its term computes to.
pub proof fn law_run_vectors<S, V>(
    format: Arithmetic<S, V>,
    scalars: Seq<ScalarStep>,
    steps: Seq<VectorStep>,
    v: Vector,
)
    requires
        scalar_program(scalars),
        vector_program(scalars, steps),
        vector_within(v, steps.len()),
    ensures
        run_vectors(format, run_scalars(format, scalars), steps).len() == steps.len(),
        read_vector(format, run_vectors(format, run_scalars(format, scalars), steps), v)
            == vector_in(format, vector_term(scalars, steps, v)),
    decreases steps.len(),
{
    if steps.len() > 0 {
        let before = steps.drop_last();
        assert(vector_program(scalars, before)) by {
            assert forall|k: int| #![trigger before[k]] 0 <= k < before.len() implies
                vector_step_within(before[k], scalars.len(), k as nat) by {
                assert(before[k] == steps[k]);
            }
        }
        assert(vector_step_within(
            steps[steps.len() - 1],
            scalars.len(),
            (steps.len() - 1) as nat,
        ));
        law_run_vectors(format, scalars, before, Vector::Bits(VectorBits { x: 0, y: 0 }));
        if let Vector::Step(i) = v {
            if i < before.len() {
                law_run_vectors(format, scalars, before, v);
                assert(before.is_prefix_of(steps));
                lemma_vector_term_kept(scalars, scalars, before, steps, v);
            } else {
                assert(steps.take(i as int) =~= before);
                match steps.last() {
                    VectorStep::Make(x, y) => {
                        law_run_scalars(format, scalars, x);
                        law_run_scalars(format, scalars, y);
                    },
                    VectorStep::Add(a, b) => {
                        law_run_vectors(format, scalars, before, a);
                        law_run_vectors(format, scalars, before, b);
                    },
                    VectorStep::Subtract(a, b) => {
                        law_run_vectors(format, scalars, before, a);
                        law_run_vectors(format, scalars, before, b);
                    },
                    VectorStep::Scale(a, s) => {
                        law_run_vectors(format, scalars, before, a);
                        law_run_scalars(format, scalars, s);
                    },
                }
            }
        }
    }
}

/// Every scalar step adds the second operand to the first one, or takes it away
/// from it, where an operand is a constant, as the number format reads it, or the
/// result of an earlier step.
pub proof fn law_scalar_steps_are_run<S, V>(
    format: Arithmetic<S, V>,
    steps: Seq<ScalarStep>,
    i: int,
)
    requires
        scalar_program(steps),
        0 <= i < steps.len(),
    ensures
        ({
            let results = run_scalars(format, steps);
            let operand = |s: Scalar|
                match s {
                    Scalar::Bits(bits) => (format.scalar)(bits),
                    Scalar::Step(j) => results[j as int],
                };
            &&& results.len() == steps.len()
            &&& results[i] == match steps[i] {
                ScalarStep::Add(a, b) => (format.add_scalars)(operand(a), operand(b)),
                ScalarStep::Subtract(a, b) => (format.subtract_scalars)(operand(a), operand(b)),
            }
        }),
    decreases steps.len(),
{
    let before = steps.drop_last();
    law_run_scalars(format, steps, Scalar::Bits(0));
    assert(scalar_program(before)) by {
        assert forall|k: int| #![trigger before[k]] 0 <= k < before.len() implies
            scalar_step_within(before[k], k as nat) by {
            assert(before[k] == steps[k]);
        }
    }
    law_run_scalars(format, before, Scalar::Bits(0));
    assert(scalar_step_within(steps[i], i as nat));
    if i < before.len() {
        law_scalar_steps_are_run(format, before, i);
        assert(before[i] == steps[i]);
    }
}

/// Every vector step makes a vector of two scalars, adds the second vector to the
/// first one, takes it away from it, or scales the vector by the scalar, where an
/// operand is a constant, as the number format reads it, or the result of a scalar
/// step or of an earlier vector step.
pub proof fn law_vector_steps_are_run<S, V>(
    format: Arithmetic<S, V>,
    scalars: Seq<ScalarStep>,
    results: Seq<S>,
    steps: Seq<VectorStep>,
    i: int,
)
    requires
        vector_program(scalars, steps),
        0 <= i < steps.len(),
    ensures
        ({
            let vectors = run_vectors(format, results, steps);
            let scalar = |s: Scalar|
                match s {
                    Scalar::Bits(bits) => (format.scalar)(bits),
                    Scalar::Step(j) => results[j as int],
                };
            let vector = |v: Vector|
                match v {
                    Vector::Bits(bits) => (format.vector)(bits),
                    Vector::Step(j) => vectors[j as int],
                };
            &&& vectors.len() == steps.len()
            &&& vectors[i] == match steps[i] {
                VectorStep::Make(x, y) => (format.make)(scalar(x), scalar(y)),
                VectorStep::Add(a, b) => (format.add_vectors)(vector(a), vector(b)),
                VectorStep::Subtract(a, b) => (format.subtract_vectors)(vector(a), vector(b)),
                VectorStep::Scale(a, s) => (format.scale)(vector(a), scalar(s)),
            }
        }),
    decreases steps.len(),
{
    let before = steps.drop_last();
    lemma_vectors_run(format, results, steps);
    lemma_vectors_run(format, results, before);
    assert(vector_program(scalars, before)) by {
        assert forall|k: int| #![trigger before[k]] 0 <= k < before.len() implies
            vector_step_within(before[k], scalars.len(), k as nat) by {
            assert(before[k] == steps[k]);
        }
    }
    assert(vector_step_within(steps[i], scalars.len(), i as nat));
    if i < before.len() {
        law_vector_steps_are_run(format, scalars, results, before, i);
        assert(before[i] == steps[i]);
    }
}

proof fn lemma_vectors_run<S, V>(
    format: Arithmetic<S, V>,
    results: Seq<S>,
    steps: Seq<VectorStep>,
)
    ensures
        run_vectors(format, results, steps).len() == steps.len(),
    decreases steps.len(),
{
    if steps.len() > 0 {
        lemma_vectors_run(format, results, steps.drop_last());
    }
}

/// A scalar that a step gives is written out as the operation of that step on what
/// its operands are written out as, in their order.
pub proof fn law_scalar_steps_are_written_out(steps: Seq<ScalarStep>, i: usize, bits: u32)
    requires
        scalar_program(steps),
        i < steps.len(),
    ensures
        scalar_term(steps, Scalar::Bits(bits)) == ScalarTerm::Bits(bits),
        scalar_term(steps, Scalar::Step(i)) == match steps[i as int] {
            ScalarStep::Add(a, b) => ScalarTerm::Add(
                Box::new(scalar_term(steps, a)),
                Box::new(scalar_term(steps, b)),
            ),
            ScalarStep::Subtract(a, b) => ScalarTerm::Subtract(
                Box::new(scalar_term(steps, a)),
                Box::new(scalar_term(steps, b)),
            ),
        },
{
    let earlier = steps.take(i as int);
    assert(scalar_step_within(steps[i as int], i as nat));
    assert(earlier.is_prefix_of(steps));
    match steps[i as int] {
        ScalarStep::Add(a, b) => {
            lemma_scalar_term_kept(earlier, steps, a);
            lemma_scalar_term_kept(earlier, steps, b);
        },
        ScalarStep::Subtract(a, b) => {
            lemma_scalar_term_kept(earlier, steps, a);
            lemma_scalar_term_kept(earlier, steps, b);
        },
    }
}

/// A vector that a step gives is written out as the operation of that step on what
/// its operands are written out as, in their order.
pub proof fn law_vector_steps_are_written_out(
    scalars: Seq<ScalarStep>,
    steps: Seq<VectorStep>,
    i: usize,
    bits: VectorBits,
)
    requires
        vector_program(scalars, steps),
        i < steps.len(),
    ensures
        vector_term(scalars, steps, Vector::Bits(bits)) == VectorTerm::Bits(bits),
        vector_term(scalars, steps, Vector::Step(i)) == match steps[i as int] {
            VectorStep::Make(x, y) => VectorTerm::Make(
                scalar_term(scalars, x),
                scalar_term(scalars, y),
            ),
            VectorStep::Add(a, b) => VectorTerm::Add(
                Box::new(vector_term(scalars, steps, a)),
                Box::new(vector_term(scalars, steps, b)),
            ),
            VectorStep::Subtract(a, b) => VectorTerm::Subtract(
                Box::new(vector_term(scalars, steps, a)),
                Box::new(vector_term(scalars, steps, b)),
            ),
            VectorStep::Scale(a, s) => VectorTerm::Scale(
                Box::new(vector_term(scalars, steps, a)),
                scalar_term(scalars, s),
            ),
        },
{
    let earlier = steps.take(i as int);
    assert(vector_step_within(steps[i as int], scalars.len(), i as nat));
    assert(earlier.is_prefix_of(steps));
    assert(vector_program(scalars, earlier)) by {
        assert forall|k: int| #![trigger earlier[k]] 0 <= k < earlier.len() implies
            vector_step_within(earlier[k], scalars.len(), k as nat) by {
            assert(earlier[k] == steps[k]);
        }
    }
    match steps[i as int] {
        VectorStep::Make(_, _) => {},
        VectorStep::Add(a, b) => {
            lemma_vector_term_kept(scalars, scalars, earlier, steps, a);
            lemma_vector_term_kept(scalars, scalars, earlier, steps, b);
        },
        VectorStep::Subtract(a, b) => {
            lemma_vector_term_kept(scalars, scalars, earlier, steps, a);
            lemma_vector_term_kept(scalars, scalars, earlier, steps, b);
        },
        VectorStep::Scale(a, _) => {
            lemma_vector_term_kept(scalars, scalars, earlier, steps, a);
        },
    }
}

} // verus!
