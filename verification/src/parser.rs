//! The kernel with the verdict tested before the mantissas are folded.
//!
//! The stages are those of the branch-free kernel, in the same order; a
//! malformed batch leaves after validation and spares the reduction.
use crate::batch::{clear_exponents, lemma_batch_values, lemma_batch_verdict, load_batch};
use crate::parser_sse::{elide_dots, justify_batch, reduce_batch, validate_batch};
use crate::{batch_accepted, batch_parsed, batch_wf, ParseInput, ParseOutput};
use vstd::prelude::*;

verus! {

/// Parses a batch of numerals into mantissas and exponents, and stops at the
/// verdict when the batch is malformed.
///
/// Returns `true` exactly when every numeral of the batch is made of digits
/// and at most one dot (of digits alone, where `KNOWN_INTEGER` is set), and
/// then every output holds the value of its numeral.
pub fn do_parse_many_decimals<const N: usize, const KNOWN_INTEGER: bool>(
    inputs: &[ParseInput; N],
    outputs: &mut [ParseOutput; N],
) -> (ok: bool)
    requires
        batch_wf(inputs@),
    ensures
        ok == batch_accepted(inputs@, KNOWN_INTEGER),
        ok ==> batch_parsed(inputs@, final(outputs)@),
{
    let mut cleaned = load_batch(inputs);
    justify_batch(inputs, &mut cleaned);
    if !KNOWN_INTEGER {
        elide_dots(inputs, &mut cleaned, outputs);
    } else {
        clear_exponents(outputs);
    }
    let all_digits = validate_batch(&cleaned);
    proof {
        lemma_batch_verdict(inputs@, cleaned@, KNOWN_INTEGER);
    }
    if !all_digits {
        return false;
    }
    reduce_batch(&cleaned, outputs);
    proof {
        lemma_batch_values(inputs@, cleaned@, outputs@, KNOWN_INTEGER);
    }
    true
}

} // verus!
