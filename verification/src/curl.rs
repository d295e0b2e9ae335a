//! The Curl engine: the concrete sponge construction.
//!
//! The spec functions in this module are the mathematical model of the
//! construction: one `round_spec` application is the snapshot-then-rewrite
//! substitution pass over the full state, `transform_spec` chains the rounds,
//! and `absorb_spec` / `squeeze_out_spec` / `squeeze_st_spec` give the block
//! chunking of the sponge protocol. Every executable method is proved to
//! agree with this model exactly.

use vstd::prelude::*;

use crate::sponge::all_trits;
use crate::sponge::is_trit;
use crate::sponge::CurlError;
use crate::sponge::Mode;
use crate::sponge::Sponge;
use crate::sponge::HASH_LENGTH;
use crate::sponge::STATE_LENGTH;

verus! {

/// The fixed 11-entry substitution table. The entries at indices 3 and 7
/// hold 2, outside the trit domain: those indices never arise from valid
/// trit inputs (see `lemma_substituted_is_trit`), but the published table is
/// preserved verbatim.
pub open spec fn truth_table(i: int) -> int {
    if i == 0 {
        1
    } else if i == 1 {
        0
    } else if i == 2 {
        -1
    } else if i == 3 {
        2
    } else if i == 4 {
        1
    } else if i == 5 {
        -1
    } else if i == 6 {
        0
    } else if i == 7 {
        2
    } else if i == 8 {
        -1
    } else if i == 9 {
        1
    } else {
        0
    }
}

/// One advance of the position cursor: a step of 364 modulo 729, written
/// with the two branches that cover the wraparound for this state size.
pub open spec fn step_cursor(j: int) -> int {
    if j < 365 {
        j + 364
    } else {
        j - 365
    }
}

/// The cursor after `i` advances from its initial position 0. Because 364
/// and 729 are coprime, the cursor visits every position exactly once per
/// round.
pub open spec fn cursor(i: nat) -> int
    decreases i,
{
    if i == 0 {
        0
    } else {
        step_cursor(cursor((i - 1) as nat))
    }
}

/// The substituted trit at position `i`: the two snapshot values read by the
/// cursor rule, combined into a table index with the second value weighted
/// by 4 and an offset of 5.
pub open spec fn substituted(s: Seq<i8>, i: int) -> i8 {
    truth_table(s[cursor(i as nat)] as int + 4 * (s[cursor((i + 1) as nat)] as int) + 5) as i8
}

/// One round: every position of the state rewritten from the full snapshot
/// of the previous state.
pub open spec fn round_spec(s: Seq<i8>) -> Seq<i8> {
    Seq::new(STATE_LENGTH as nat, |i: int| substituted(s, i))
}

/// `n` chained rounds, each reading the previous round's finished state.
pub open spec fn transform_spec(s: Seq<i8>, n: nat) -> Seq<i8>
    decreases n,
{
    if n == 0 {
        s
    } else {
        round_spec(transform_spec(s, (n - 1) as nat))
    }
}

/// Absorbing one block: the block overwrites the first 243 trits of the
/// state, the last 486 carry the prior mixing forward, and one full
/// transform runs.
pub open spec fn absorb_block_spec(s: Seq<i8>, block: Seq<i8>, n: nat) -> Seq<i8> {
    transform_spec(block + s.subrange(HASH_LENGTH as int, STATE_LENGTH as int), n)
}

/// The state after absorbing `input`, block by block. A final chunk shorter
/// than a block is an unresolved edge case of the construction and is not
/// absorbed; `absorb` excludes such inputs by precondition.
pub open spec fn absorb_spec(s: Seq<i8>, input: Seq<i8>, n: nat) -> Seq<i8>
    decreases input.len(),
{
    if input.len() < HASH_LENGTH {
        s
    } else {
        absorb_spec(
            absorb_block_spec(s, input.subrange(0, HASH_LENGTH as int), n),
            input.subrange(HASH_LENGTH as int, input.len() as int),
            n,
        )
    }
}

/// The output of squeezing `count` trits from state `s`: block by block,
/// with a transform after every block, full or partial, so that output
/// beyond one block is freshly transformed rather than echoed.
pub open spec fn squeeze_out_spec(s: Seq<i8>, count: nat, n: nat) -> Seq<i8>
    decreases count,
{
    if count == 0 {
        Seq::empty()
    } else if count >= HASH_LENGTH {
        s.subrange(0, HASH_LENGTH as int) + squeeze_out_spec(
            transform_spec(s, n),
            (count - HASH_LENGTH) as nat,
            n,
        )
    } else {
        s.subrange(0, count as int)
    }
}

/// The state left behind by squeezing `count` trits from state `s`. Every
/// emitted block triggers a transform, so a squeeze of an exact multiple of
/// the block length also ends with a transform.
pub open spec fn squeeze_st_spec(s: Seq<i8>, count: nat, n: nat) -> Seq<i8>
    decreases count,
{
    if count == 0 {
        s
    } else if count >= HASH_LENGTH {
        squeeze_st_spec(transform_spec(s, n), (count - HASH_LENGTH) as nat, n)
    } else {
        transform_spec(s, n)
    }
}

/// The all-zero state of a freshly constructed or reset engine.
pub open spec fn zero_state() -> Seq<i8> {
    Seq::new(STATE_LENGTH as nat, |i: int| 0i8)
}

/// The cursor never leaves the state: every advance lands in [0, 729).
pub proof fn lemma_cursor_in_range(i: nat)
    ensures
        0 <= cursor(i) < STATE_LENGTH,
    decreases i,
{
    if i > 0 {
        lemma_cursor_in_range((i - 1) as nat);
    }
}

/// On valid trit inputs the combined table index lands only on entries that
/// hold a trit: the two entries holding 2 are unreachable.
pub proof fn lemma_substituted_is_trit(s: Seq<i8>, i: int)
    requires
        s.len() == STATE_LENGTH,
        all_trits(s),
        0 <= i < STATE_LENGTH,
    ensures
        is_trit(substituted(s, i)),
{
    lemma_cursor_in_range(i as nat);
    lemma_cursor_in_range((i + 1) as nat);
    assert(is_trit(s[cursor(i as nat)]));
    assert(is_trit(s[cursor((i + 1) as nat)]));
}

/// The executable substitution table, one entry per combined index.
fn truth_entry(i: usize) -> (r: i8)
    requires
        i < 11,
    ensures
        r as int == truth_table(i as int),
{
    if i == 0 {
        1
    } else if i == 1 {
        0
    } else if i == 2 {
        -1
    } else if i == 3 {
        2
    } else if i == 4 {
        1
    } else if i == 5 {
        -1
    } else if i == 6 {
        0
    } else if i == 7 {
        2
    } else if i == 8 {
        -1
    } else if i == 9 {
        1
    } else {
        0
    }
}

/// The Curl engine: a round count fixed at construction and a 729-trit state,
/// with a scratch buffer of equal size that holds the per-round snapshot and
/// is never read outside a transform.
#[derive(Clone, Copy)]
pub struct Curl {
    number_of_rounds: usize,
    scratchpad: [i8; STATE_LENGTH],
    state: [i8; STATE_LENGTH],
}

/// The abstract value of a Curl engine: its round count and its visible
/// state. The scratch buffer is a working copy only and is excluded.
#[verifier::ext_equal]
pub struct CurlView {
    pub rounds: nat,
    pub state: Seq<i8>,
}

impl View for Curl {
    type V = CurlView;

    closed spec fn view(&self) -> CurlView {
        CurlView { rounds: self.number_of_rounds as nat, state: self.state@ }
    }
}

impl Curl {
    /// Well-formedness: the round count is one of the two supported variants
    /// and the state is 729 valid trits.
    pub open spec fn wf(&self) -> bool {
        (self@.rounds == 27 || self@.rounds == 81) && self@.state.len() == STATE_LENGTH
            && all_trits(self@.state)
    }

    /// Construct an engine for the requested mode, or reject any identifier
    /// other than the two supported round counts.
    pub fn new(mode: Mode) -> (r: Result<Curl, CurlError>)
        ensures
            match r {
                Ok(c) => (mode == Mode::CURLP27 || mode == Mode::CURLP81) && c.wf() && c@.state
                    == zero_state() && c@.rounds == (
                if mode == Mode::CURLP27 {
                    27nat
                } else {
                    81nat
                }),
                Err(e) => mode != Mode::CURLP27 && mode != Mode::CURLP81 && e
                    == CurlError::InvalidMode(mode),
            },
    {
        let mut curl = Curl::default();
        curl.number_of_rounds = match mode {
            Mode::CURLP27 => 27,
            Mode::CURLP81 => 81,
            _ => {
                return Err(CurlError::InvalidMode(mode));
            },
        };
        Ok(curl)
    }

    /// One transform call: `round_count` chained rounds. Each round copies
    /// the state into the scratch buffer (a full snapshot) and rewrites every
    /// state position from exactly two snapshot positions picked by the
    /// cursor rule, so no round ever reads a value already updated in the
    /// same round.
    pub fn transform(&mut self)
        requires
            old(self).wf(),
        ensures
            final(self).wf(),
            final(self)@.rounds == old(self)@.rounds,
            final(self)@.state == transform_spec(old(self)@.state, old(self)@.rounds),
    {
        let ghost orig = self.state@;
        let ghost n = self.number_of_rounds;
        let mut r: usize = 0;
        while r < self.number_of_rounds
            invariant
                self.wf(),
                self.number_of_rounds == n,
                r <= n,
                self.state@ == transform_spec(orig, r as nat),
            decreases n - r,
        {
            self.scratchpad = self.state;
            let ghost snap = self.scratchpad@;
            proof {
                assert(snap =~= transform_spec(orig, r as nat));
            }
            let mut i: usize = 0;
            let mut j: usize = 0;
            while i < STATE_LENGTH
                invariant
                    self.number_of_rounds == n,
                    i <= STATE_LENGTH,
                    j == cursor(i as nat),
                    j < STATE_LENGTH,
                    self.scratchpad@ == snap,
                    snap.len() == STATE_LENGTH,
                    all_trits(snap),
                    self.state@.len() == STATE_LENGTH,
                    all_trits(self.state@),
                    forall|t: int| 0 <= t < i ==> self.state@[t] == substituted(snap, t),
                decreases STATE_LENGTH - i,
            {
                let prev_j = j;
                if j < 365 {
                    j += 364;
                } else {
                    j -= 365;
                }
                proof {
                    assert(cursor((i + 1) as nat) == step_cursor(cursor(i as nat)));
                    lemma_cursor_in_range((i + 1) as nat);
                }
                let a = self.scratchpad[prev_j];
                let b = self.scratchpad[j];
                let truth_index = (a as i32) + 4 * (b as i32) + 5;
                proof {
                    assert(is_trit(a));
                    assert(is_trit(b));
                    lemma_substituted_is_trit(snap, i as int);
                }
                self.state[i] = truth_entry(truth_index as usize);
                i += 1;
            }
            proof {
                assert(self.state@ =~= round_spec(snap));
            }
            r += 1;
        }
    }

    /// The visible state, as a slice of 729 trits.
    pub fn state(&self) -> (r: &[i8])
        ensures
            r@ == self@.state,
    {
        self.state.as_slice()
    }

    /// A mutable borrow of the state, for callers (such as a proof-of-work
    /// search) that write trits into it directly between transforms.
    pub fn state_mut(&mut self) -> (r: &mut [i8; STATE_LENGTH])
        ensures
            r@ == old(self)@.state,
            final(self)@.state == final(r)@,
            final(self)@.rounds == old(self)@.rounds,
    {
        &mut self.state
    }
}

impl Sponge for Curl {
    open spec fn inv(&self) -> bool {
        self.wf()
    }

    open spec fn st(&self) -> Seq<i8> {
        self@.state
    }

    open spec fn rounds(&self) -> nat {
        self@.rounds
    }

    /// Input must come in full blocks of valid trits: a final chunk shorter
    /// than the block length is an unresolved edge case of the construction
    /// and is rejected here rather than silently truncated or zero-padded.
    open spec fn absorb_ok(&self, input: Seq<i8>) -> bool {
        input.len() % (HASH_LENGTH as nat) == 0 && all_trits(input)
    }

    open spec fn absorbed_st(&self, input: Seq<i8>) -> Seq<i8> {
        absorb_spec(self@.state, input, self@.rounds)
    }

    open spec fn squeezed_out(&self, count: nat) -> Seq<i8> {
        squeeze_out_spec(self@.state, count, self@.rounds)
    }

    open spec fn squeezed_st(&self, count: nat) -> Seq<i8> {
        squeeze_st_spec(self@.state, count, self@.rounds)
    }

    open spec fn reset_st(&self) -> Seq<i8> {
        zero_state()
    }

    fn absorb(&mut self, trits: &[i8]) {
        let ghost s0 = self.state@;
        let ghost whole = trits@;
        let ghost n = self.number_of_rounds;
        let mut offset: usize = 0;
        proof {
            assert(whole.subrange(0, whole.len() as int) =~= whole);
        }
        while offset < trits.len()
            invariant
                self.wf(),
                self.number_of_rounds == n,
                offset <= trits@.len(),
                offset % HASH_LENGTH == 0,
                trits@.len() % (HASH_LENGTH as nat) == 0,
                all_trits(trits@),
                absorb_spec(s0, whole, n as nat) == absorb_spec(
                    self.state@,
                    whole.subrange(offset as int, whole.len() as int),
                    n as nat,
                ),
                whole == trits@,
            decreases trits@.len() - offset,
        {
            proof {
                lemma_full_blocks_remain(trits@.len() as int, offset as int);
            }
            let ghost pre = self.state@;
            let mut k: usize = 0;
            while k < HASH_LENGTH
                invariant
                    self.number_of_rounds == n,
                    k <= HASH_LENGTH,
                    offset + HASH_LENGTH <= trits@.len(),
                    whole == trits@,
                    all_trits(trits@),
                    self.state@.len() == STATE_LENGTH,
                    all_trits(self.state@),
                    pre.len() == STATE_LENGTH,
                    forall|t: int| 0 <= t < k ==> self.state@[t] == whole[offset + t],
                    forall|t: int|
                        k <= t < STATE_LENGTH ==> self.state@[t] == pre[t],
                decreases HASH_LENGTH - k,
            {
                self.state[k] = trits[offset + k];
                k += 1;
            }
            proof {
                assert(self.state@ =~= whole.subrange(
                    offset as int,
                    offset + HASH_LENGTH,
                ) + pre.subrange(HASH_LENGTH as int, STATE_LENGTH as int));
            }
            self.transform();
            proof {
                let rest = whole.subrange(offset as int, whole.len() as int);
                assert(rest.subrange(0, HASH_LENGTH as int) =~= whole.subrange(
                    offset as int,
                    offset + HASH_LENGTH,
                ));
                assert(rest.subrange(HASH_LENGTH as int, rest.len() as int) =~= whole.subrange(
                    offset + HASH_LENGTH,
                    whole.len() as int,
                ));
                assert(absorb_spec(pre, rest, n as nat) == absorb_spec(
                    self.state@,
                    whole.subrange(offset + HASH_LENGTH, whole.len() as int),
                    n as nat,
                ));
            }
            offset += HASH_LENGTH;
        }
        proof {
            assert(whole.subrange(offset as int, whole.len() as int) =~= Seq::<i8>::empty());
        }
    }

    fn squeeze(&mut self, count: usize) -> (out: Vec<i8>) {
        let ghost s0 = self.state@;
        let ghost n = self.number_of_rounds;
        let mut out: Vec<i8> = Vec::new();
        let mut remaining: usize = count;
        while remaining >= HASH_LENGTH
            invariant
                self.wf(),
                self.number_of_rounds == n,
                remaining <= count,
                out@.len() == count - remaining,
                squeeze_out_spec(s0, count as nat, n as nat) == out@ + squeeze_out_spec(
                    self.state@,
                    remaining as nat,
                    n as nat,
                ),
                squeeze_st_spec(s0, count as nat, n as nat) == squeeze_st_spec(
                    self.state@,
                    remaining as nat,
                    n as nat,
                ),
            decreases remaining,
        {
            let ghost out_pre = out@;
            let ghost pre = self.state@;
            let mut k: usize = 0;
            while k < HASH_LENGTH
                invariant
                    self.number_of_rounds == n,
                    k <= HASH_LENGTH,
                    self.wf(),
                    self.state@ == pre,
                    out@ == out_pre + pre.subrange(0, k as int),
                decreases HASH_LENGTH - k,
            {
                let t = self.state[k];
                out.push(t);
                proof {
                    assert(out@ =~= out_pre + pre.subrange(0, k + 1));
                }
                k += 1;
            }
            self.transform();
            remaining -= HASH_LENGTH;
            proof {
                assert(out@ + squeeze_out_spec(self.state@, remaining as nat, n as nat)
                    =~= out_pre + (pre.subrange(0, HASH_LENGTH as int) + squeeze_out_spec(
                    self.state@,
                    remaining as nat,
                    n as nat,
                )));
            }
        }
        if remaining > 0 {
            let ghost out_pre = out@;
            let ghost pre = self.state@;
            let mut k: usize = 0;
            while k < remaining
                invariant
                    self.number_of_rounds == n,
                    k <= remaining,
                    remaining < HASH_LENGTH,
                    self.wf(),
                    self.state@ == pre,
                    out@ == out_pre + pre.subrange(0, k as int),
                decreases remaining - k,
            {
                let t = self.state[k];
                out.push(t);
                proof {
                    assert(out@ =~= out_pre + pre.subrange(0, k + 1));
                }
                k += 1;
            }
            self.transform();
            proof {
                assert(out@ =~= out_pre + squeeze_out_spec(pre, remaining as nat, n as nat));
            }
        }
        out
    }

    fn reset(&mut self) {
        self.state = [0; STATE_LENGTH];
        proof {
            assert(self.state@ =~= zero_state());
        }
    }
}

/// What remains of an input made of full blocks is at least one full block.
proof fn lemma_full_blocks_remain(len: int, offset: int)
    requires
        0 <= offset < len,
        len % (HASH_LENGTH as int) == 0,
        offset % (HASH_LENGTH as int) == 0,
    ensures
        offset + HASH_LENGTH <= len,
{
    let h = HASH_LENGTH as int;
    if offset + h > len {
        assert((len - offset) % h == 0) by {
            vstd::arithmetic::div_mod::lemma_sub_mod_noop(len, offset, h);
            vstd::arithmetic::div_mod::lemma_small_mod(0nat, h as nat);
        }
        assert(0 < len - offset < h);
        assert((len - offset) % h == len - offset) by {
            vstd::arithmetic::div_mod::lemma_small_mod((len - offset) as nat, h as nat);
        }
    }
}

/// Determinism: two engines with equal round counts and equal states yield
/// the same state after absorbing the same input, and the same output trits
/// for the same squeeze count, however many times the experiment is repeated.
pub proof fn lemma_determinism(c1: Curl, c2: Curl, input: Seq<i8>, count: nat)
    requires
        c1@ == c2@,
    ensures
        c1.absorbed_st(input) == c2.absorbed_st(input),
        squeeze_out_spec(c1.absorbed_st(input), count, c1@.rounds) == squeeze_out_spec(
            c2.absorbed_st(input),
            count,
            c2@.rounds,
        ),
{
}

/// Reset equivalence: an engine whose state has been restored to all zeroes
/// is, in its visible value, the same engine as a freshly constructed one of
/// the same mode, whatever it absorbed or squeezed before.
pub proof fn lemma_reset_equivalence(c_reset: Curl, c_fresh: Curl)
    requires
        c_reset@.state == zero_state(),
        c_fresh@.state == zero_state(),
        c_reset@.rounds == c_fresh@.rounds,
    ensures
        c_reset@ == c_fresh@,
{
    assert(c_reset@ =~= c_fresh@);
}

/// Squeeze extension: squeezing two blocks yields the current block followed
/// by the first block of the freshly transformed state — squeezing beyond one
/// block re-transforms rather than echoing the same block.
pub proof fn lemma_squeeze_extension(s: Seq<i8>, n: nat)
    ensures
        squeeze_out_spec(s, (2 * HASH_LENGTH) as nat, n) == s.subrange(0, HASH_LENGTH as int)
            + transform_spec(s, n).subrange(0, HASH_LENGTH as int),
{
    let t = transform_spec(s, n);
    assert(squeeze_out_spec(t, (2 * HASH_LENGTH - HASH_LENGTH) as nat, n) =~= t.subrange(
        0,
        HASH_LENGTH as int,
    ) + squeeze_out_spec(transform_spec(t, n), 0nat, n));
    assert(squeeze_out_spec(s, (2 * HASH_LENGTH) as nat, n) =~= s.subrange(0, HASH_LENGTH as int)
        + t.subrange(0, HASH_LENGTH as int));
}

/// Absorb chaining: for inputs made of full blocks, absorbing `a` and then
/// `b` leaves exactly the state of absorbing the concatenation `a + b` in a
/// single call — the chunking boundary is immaterial for exact multiples of
/// the block length.
pub proof fn lemma_absorb_chaining(s: Seq<i8>, a: Seq<i8>, b: Seq<i8>, n: nat)
    requires
        a.len() % (HASH_LENGTH as nat) == 0,
    ensures
        absorb_spec(absorb_spec(s, a, n), b, n) == absorb_spec(s, a + b, n),
    decreases a.len(),
{
    if a.len() == 0 {
        assert(a + b =~= b);
    } else {
        if a.len() < HASH_LENGTH {
            vstd::arithmetic::div_mod::lemma_small_mod(a.len(), HASH_LENGTH as nat);
        }
        let block = a.subrange(0, HASH_LENGTH as int);
        let rest = a.subrange(HASH_LENGTH as int, a.len() as int);
        assert((a + b).subrange(0, HASH_LENGTH as int) =~= block);
        assert((a + b).subrange(HASH_LENGTH as int, (a + b).len() as int) =~= rest + b);
        assert(rest.len() % (HASH_LENGTH as nat) == 0) by {
            vstd::arithmetic::div_mod::lemma_sub_mod_noop(
                a.len() as int,
                HASH_LENGTH as int,
                HASH_LENGTH as int,
            );
            vstd::arithmetic::div_mod::lemma_mod_self_0(HASH_LENGTH as int);
            vstd::arithmetic::div_mod::lemma_small_mod(0nat, HASH_LENGTH as nat);
        }
        lemma_absorb_chaining(absorb_block_spec(s, block, n), rest, b, n);
    }
}

impl Default for Curl {
    /// A fresh 81-round engine with an all-zero state.
    fn default() -> (c: Curl)
        ensures
            c.wf(),
            c@.rounds == 81,
            c@.state == zero_state(),
    {
        let c = Curl {
            number_of_rounds: 81,
            scratchpad: [0; STATE_LENGTH],
            state: [0; STATE_LENGTH],
        };
        proof {
            assert(c.state@ =~= zero_state());
        }
        c
    }
}

} // verus!
