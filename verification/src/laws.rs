//! Library-wide laws.
//!
//! [`crate::reader::JsonTextReader::next_token`] guarantees that the state
//! after a request and the result produced are exactly
//! [`crate::model::spec_step`] of the state before it, so every run of a
//! reader follows [`crate::model::spec_run`]. The lemmas here state what
//! follows for whole runs.

use vstd::prelude::*;

use crate::model::Model;
use crate::model::init_model;
use crate::model::spec_run;
use crate::model::spec_step;

verus! {

/// Tokenizing is deterministic: one step from equal states produces the
/// same successor state and the same result. With the contract of
/// `next_token`, which pins the executable reader to exactly these steps,
/// it follows that there is no hidden state outside the model.
pub proof fn lemma_step_deterministic(a: Model, b: Model)
    requires
        a == b,
    ensures
        spec_step(a) == spec_step(b),
{
}

/// Re-tokenizing the same buffer from a freshly constructed reader always
/// yields the same sequence: any two readers built over the same source
/// text produce, for every request count `n`, the very same first `n`
/// results.
pub proof fn lemma_retokenize_deterministic(a: Model, b: Model, source: Seq<char>, n: nat)
    requires
        a == init_model(source),
        b == init_model(source),
    ensures
        spec_run(a, n) == spec_run(b, n),
{
}

} // verus!
