//! The sponge capability: the abstract `absorb` / `squeeze` / `reset`
//! contract that any ternary sponge construction offers its callers, together
//! with the mode selector and the error raised for unsupported modes.

use vstd::prelude::*;

verus! {

/// The native digest size and the absorb/squeeze block size, in trits.
pub const HASH_LENGTH: usize = 243;

/// The total internal state size, in trits: three digest blocks.
pub const STATE_LENGTH: usize = 3 * HASH_LENGTH;

/// Identifies which construction a caller asks for. Only the two Curl
/// round-count variants are valid for the Curl engine; the identifier
/// reserved for the Keccak-based ternary construction is rejected.
#[allow(non_camel_case_types)]
#[derive(Clone, Copy, Debug, PartialEq, Eq, Structural)]
pub enum Mode {
    /// Curl with 27 transform rounds.
    CURLP27,
    /// Curl with 81 transform rounds.
    CURLP81,
    /// The Keccak-based ternary construction: not a Curl variant.
    KERL,
}

/// An error raised while constructing a sponge engine.
#[derive(Clone, Copy, Debug, PartialEq, Eq, Structural)]
pub enum CurlError {
    /// The requested mode is not a supported round-count variant.
    InvalidMode(Mode),
}

/// A trit is a balanced-ternary digit: -1, 0 or 1. No other value is ever
/// valid inside a sponge state or an input/output sequence.
pub open spec fn is_trit(t: i8) -> bool {
    t == -1 || t == 0 || t == 1
}

/// Every element of the sequence is a valid trit.
pub open spec fn all_trits(s: Seq<i8>) -> bool {
    forall|i: int| 0 <= i < s.len() ==> is_trit(#[trigger] s[i])
}

/// The sponge capability. A construction absorbs arbitrary input into a
/// fixed internal state and squeezes arbitrary-length output from it; `reset`
/// restores the initial state so the engine can be reused.
///
/// Each implementation pins its behaviour down with its own spec functions:
/// `absorbed_st`, `squeezed_out`, `squeezed_st` and `reset_st` say, as
/// functions of the current visible state, exactly what each operation
/// returns and leaves behind, so callers get functional (deterministic)
/// contracts through the trait.
pub trait Sponge: Sized {
    /// The implementation's internal well-formedness invariant.
    spec fn inv(&self) -> bool;

    /// The visible state of the engine, as a trit sequence.
    spec fn st(&self) -> Seq<i8>;

    /// The round count fixed at construction; never mutated afterwards.
    spec fn rounds(&self) -> nat;

    /// Which input sequences `absorb` accepts.
    spec fn absorb_ok(&self, input: Seq<i8>) -> bool;

    /// The state left behind by absorbing `input`.
    spec fn absorbed_st(&self, input: Seq<i8>) -> Seq<i8>;

    /// The output produced by squeezing `count` trits.
    spec fn squeezed_out(&self, count: nat) -> Seq<i8>;

    /// The state left behind by squeezing `count` trits.
    spec fn squeezed_st(&self, count: nat) -> Seq<i8>;

    /// The state restored by `reset`.
    spec fn reset_st(&self) -> Seq<i8>;

    /// Feed input trits into the state, one block at a time, running one
    /// full transform per block.
    fn absorb(&mut self, trits: &[i8])
        requires
            old(self).inv(),
            old(self).absorb_ok(trits@),
        ensures
            final(self).inv(),
            final(self).rounds() == old(self).rounds(),
            final(self).st() == old(self).absorbed_st(trits@),
    ;

    /// Extract `count` trits of output, advancing the state between blocks
    /// so that repeated squeezes yield fresh output.
    fn squeeze(&mut self, count: usize) -> (out: Vec<i8>)
        requires
            old(self).inv(),
        ensures
            final(self).inv(),
            final(self).rounds() == old(self).rounds(),
            out@.len() == count,
            out@ == old(self).squeezed_out(count as nat),
            final(self).st() == old(self).squeezed_st(count as nat),
    ;

    /// Restore the initial state, discarding everything absorbed so far.
    fn reset(&mut self)
        requires
            old(self).inv(),
        ensures
            final(self).inv(),
            final(self).rounds() == old(self).rounds(),
            final(self).st() == old(self).reset_st(),
    ;
}

} // verus!
