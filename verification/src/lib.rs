//! Batched parsing of short decimal numerals.
//!
//! A caller hands over a batch of sixteen-byte windows, each starting at the
//! first character of a numeral and each with the numeral's length, and
//! gets back for every numeral its mantissa and its count of fractional
//! digits, or `false` for the whole batch when any numeral is malformed.
//! The work is done in fixed stages of sixteen-lane byte operations, each
//! stage run over the whole batch before the next begins. Length and dot
//! position act through table lookups only, and the one decision taken on
//! the batch is the test of its verdict.
use vstd::prelude::*;

pub mod batch;
pub mod kernel;
pub mod lanes;
pub mod laws;
pub mod numeral;
pub mod parser;
pub mod parser_aarch64;
pub mod parser_sse;
pub mod render;
pub mod search;
pub mod tables;

use crate::numeral::{accepted, value_of};
use crate::parser_sse::do_parse_decimals;

verus! {

/// One numeral to parse: a window of sixteen bytes that begins at the
/// numeral's first character, and the numeral's length. The bytes past the
/// length may hold anything.
#[derive(Clone, Copy, Debug)]
pub struct ParseInput<'a> {
    /// Sixteen bytes, of which the first `real_length` are the numeral.
    pub data: &'a [u8; 16],
    /// Length of the numeral in bytes, the dot included.
    pub real_length: usize,
}

/// A parsed numeral: it stands for `mantissa / 10^exponent`.
#[derive(Debug, PartialEq, Eq, Clone, Copy, Structural)]
pub struct ParseOutput {
    /// The numeral's digits read as one integer, the dot left out.
    pub mantissa: u64,
    /// The count of digits behind the dot.
    pub exponent: u8,
}

impl<'a> ParseInput<'a> {
    /// The numeral lies within the window.
    pub open spec fn wf(&self) -> bool {
        self.real_length <= 16
    }
}

impl<'a> View for ParseInput<'a> {
    type V = Seq<u8>;

    /// The numeral's bytes.
    open spec fn view(&self) -> Seq<u8> {
        self.data@.subrange(0, self.real_length as int)
    }
}

impl View for ParseOutput {
    type V = (nat, nat);

    /// Mantissa and exponent.
    open spec fn view(&self) -> (nat, nat) {
        (self.mantissa as nat, self.exponent as nat)
    }
}

impl Default for ParseOutput {
    fn default() -> (out: Self)
        ensures
            out@ == (0nat, 0nat),
    {
        ParseOutput { mantissa: 0, exponent: 0 }
    }
}

/// Every numeral of the batch is accepted.
pub open spec fn batch_accepted(inputs: Seq<ParseInput>, known_integer: bool) -> bool {
    forall|i: int| 0 <= i < inputs.len() ==> accepted((#[trigger] inputs[i])@, known_integer)
}

/// Every output holds the value of the numeral at its place in the batch.
pub open spec fn batch_parsed(inputs: Seq<ParseInput>, outputs: Seq<ParseOutput>) -> bool {
    &&& outputs.len() == inputs.len()
    &&& forall|i: int| 0 <= i < inputs.len() ==> (#[trigger] outputs[i])@ == value_of(inputs[i]@)
}

/// Every input of the batch has its numeral within its window.
pub open spec fn batch_wf(inputs: Seq<ParseInput>) -> bool {
    forall|i: int| 0 <= i < inputs.len() ==> (#[trigger] inputs[i]).wf()
}

/// Parses a batch of numerals into mantissas and exponents.
///
/// Returns `true` exactly when every numeral of the batch is made of digits
/// and at most one dot (of digits alone, where `KNOWN_INTEGER` is set), and
/// then every output holds the value of its numeral. On `false` the outputs
/// hold nothing of use.
pub fn parse_decimals<const N: usize, const KNOWN_INTEGER: bool>(
    inputs: &[ParseInput; N],
    outputs: &mut [ParseOutput; N],
) -> (ok: bool)
    requires
        batch_wf(inputs@),
    ensures
        ok == batch_accepted(inputs@, KNOWN_INTEGER),
        ok ==> batch_parsed(inputs@, final(outputs)@),
{
    do_parse_decimals::<N, KNOWN_INTEGER>(inputs, outputs)
}

} // verus!
