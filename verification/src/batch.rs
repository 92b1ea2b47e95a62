//! What the kernels share: the stages that are the same whatever the
//! instruction order, and the step from lanes to the numeral model for a
//! whole batch.
use crate::kernel::{digit_lanes, lanes_value, lemma_stages, loaded, MAX_DIGIT};
use crate::lanes::{all_within, subtract_splat};
use crate::numeral::{accepted, value_of, ASCII_ZERO};
use crate::{batch_accepted, batch_parsed, batch_wf, ParseInput, ParseOutput};
use vstd::prelude::*;

verus! {

/// The first `upto` vectors of the batch hold digits only.
pub open spec fn batch_digits(cleaned: Seq<[u8; 16]>, upto: int) -> bool {
    forall|n: int| 0 <= n < upto ==> all_within((#[trigger] cleaned[n])@, MAX_DIGIT)
}

/// Every vector of the batch is what the stages up to the dot stage make of
/// its input.
pub open spec fn batch_staged(
    inputs: Seq<ParseInput>,
    cleaned: Seq<[u8; 16]>,
    known_integer: bool,
) -> bool {
    &&& cleaned.len() == inputs.len()
    &&& forall|n: int|
        0 <= n < inputs.len() ==> (#[trigger] cleaned[n])@ == digit_lanes(
            inputs[n].data@,
            inputs[n].real_length as int,
            known_integer,
        )
}

/// Loads every window of the batch and subtracts `'0'` from each byte.
pub fn load_batch<const N: usize>(inputs: &[ParseInput; N]) -> (cleaned: [[u8; 16]; N])
    ensures
        forall|n: int| 0 <= n < N ==> (#[trigger] cleaned[n])@ == loaded(inputs[n].data@),
{
    let mut cleaned: [[u8; 16]; N] = [[0u8; 16]; N];
    for i in 0..N
        invariant
            forall|n: int| 0 <= n < i ==> (#[trigger] cleaned[n])@ == loaded(inputs[n].data@),
    {
        cleaned[i] = subtract_splat(inputs[i].data, ASCII_ZERO);
    }
    cleaned
}

/// Writes an exponent of zero to every output of the batch and leaves the
/// mantissas as they are.
pub fn clear_exponents<const N: usize>(outputs: &mut [ParseOutput; N])
    ensures
        forall|n: int| 0 <= n < N ==> (#[trigger] final(outputs)[n]).exponent == 0,
        forall|n: int|
            0 <= n < N ==> (#[trigger] final(outputs)[n]).mantissa == old(outputs)[n].mantissa,
{
    for i in 0..N
        invariant
            forall|n: int| 0 <= n < i ==> (#[trigger] outputs[n]).exponent == 0,
            forall|n: int|
                0 <= n < N ==> (#[trigger] outputs[n]).mantissa == old(outputs)[n].mantissa,
    {
        outputs[i].exponent = 0;
    }
}

/// Once the stages have run, all lanes of the batch are digits exactly when
/// every numeral of the batch is accepted.
pub proof fn lemma_batch_verdict(
    inputs: Seq<ParseInput>,
    cleaned: Seq<[u8; 16]>,
    known_integer: bool,
)
    requires
        batch_wf(inputs),
        batch_staged(inputs, cleaned, known_integer),
    ensures
        batch_digits(cleaned, inputs.len() as int) == batch_accepted(inputs, known_integer),
{
    assert forall|n: int| 0 <= n < inputs.len() implies (all_within(
        (#[trigger] cleaned[n])@,
        MAX_DIGIT,
    ) <==> accepted(inputs[n]@, known_integer)) by {
        assert(inputs[n].wf());
        lemma_stages(inputs[n].data@, inputs[n].real_length as int, known_integer);
    }
    if batch_digits(cleaned, inputs.len() as int) {
        assert forall|n: int| 0 <= n < inputs.len() implies accepted(
            (#[trigger] inputs[n])@,
            known_integer,
        ) by {
            assert(all_within(cleaned[n]@, MAX_DIGIT));
        }
    }
    if batch_accepted(inputs, known_integer) {
        assert forall|n: int| 0 <= n < inputs.len() implies all_within(
            (#[trigger] cleaned[n])@,
            MAX_DIGIT,
        ) by {
            assert(accepted(inputs[n]@, known_integer));
        }
    }
}

/// Once the stages have run on an accepted batch, outputs whose mantissas
/// are the numbers that the lanes spell, and whose exponents were looked up
/// at the dot (or set to zero where integers were promised), hold the
/// numerals' values.
pub proof fn lemma_batch_values(
    inputs: Seq<ParseInput>,
    cleaned: Seq<[u8; 16]>,
    outputs: Seq<ParseOutput>,
    known_integer: bool,
)
    requires
        batch_wf(inputs),
        batch_accepted(inputs, known_integer),
        batch_staged(inputs, cleaned, known_integer),
        outputs.len() == inputs.len(),
        forall|n: int|
            0 <= n < inputs.len() ==> (#[trigger] outputs[n]).mantissa == lanes_value(cleaned[n]@),
        forall|n: int|
            0 <= n < inputs.len() ==> (#[trigger] outputs[n]).exponent == if known_integer {
                0
            } else {
                value_of(inputs[n]@).1
            },
    ensures
        batch_parsed(inputs, outputs),
{
    assert forall|n: int| 0 <= n < inputs.len() implies (#[trigger] outputs[n])@ == value_of(
        inputs[n]@,
    ) by {
        assert(inputs[n].wf());
        assert(accepted(inputs[n]@, known_integer));
        lemma_stages(inputs[n].data@, inputs[n].real_length as int, known_integer);
    }
}

} // verus!
