//! A closeable writer gate built from one word.
//!
//! Word layout: bit 63 is `CLOSED`, bits 0..63 count the guards currently
//! held. The word reads `0` before first use.
//!
//! A writer takes a guard through [`Gate::enter`] and releases it when its
//! work is finished. The reader side calls [`Gate::close`] when it wants the
//! memory frozen; `close` returns the number of guards still held. Zero means
//! every guard ever issued has been released.
//!
//! The decisions are the pure functions [`enter_update`], [`enter_error`]
//! and [`close_count`]: the shared-memory implementation applies them inside
//! one atomic read-modify-write each, and [`Gate`] applies them to a word it
//! owns.
use vstd::prelude::*;

verus! {

/// Set once this gate is closed. No claim is admitted afterwards.
pub const CLOSED: u64 = 0x8000_0000_0000_0000;
/// The guard count occupies every bit below [`CLOSED`].
pub const COUNT_MASK: u64 = 0x7fff_ffff_ffff_ffff;

/// Why [`Gate::enter`] refused to admit a writer.
#[derive(Debug, Clone, Copy, PartialEq, Eq, Structural)]
pub enum EnterError {
    /// This gate is closed. The writer must discard its work silently.
    Closed,
    /// The guard count saturated. Refusing is better than wrapping into
    /// the closed bit.
    Saturated,
}

/// Whether a gate word has its closed bit set.
pub open spec fn word_closed(word: u64) -> bool {
    word & CLOSED != 0
}

/// How many guards a gate word counts.
pub open spec fn word_count(word: u64) -> u64 {
    word & COUNT_MASK
}

pub open spec fn spec_enter_update(current: u64) -> Option<u64> {
    if word_closed(current) || word_count(current) == COUNT_MASK {
        None
    } else {
        Some((current + 1) as u64)
    }
}

/// The facts about the word layout this gate rests on.
pub proof fn lemma_gate_word(word: u64)
    ensures
        word == (if word_closed(word) { CLOSED } else { 0 }) + word_count(word),
        word_closed(word) ==> word >= CLOSED,
        !word_closed(word) ==> word == word_count(word),
        word_count(word) <= COUNT_MASK,
        word_closed(word | CLOSED),
        word_count(word | CLOSED) == word_count(word),
        !word_closed(word) && word_count(word) < COUNT_MASK ==> {
            &&& !word_closed((word + 1) as u64)
            &&& word_count((word + 1) as u64) == word_count(word) + 1
        },
        word_count(word) > 0 ==> {
            &&& word_closed((word - 1) as u64) == word_closed(word)
            &&& word_count((word - 1) as u64) == word_count(word) - 1
        },
{
    assert(word == (if word & 0x8000_0000_0000_0000u64 != 0 { 0x8000_0000_0000_0000u64 } else { 0u64 })
        + (word & 0x7fff_ffff_ffff_ffffu64)) by (bit_vector);
    assert(word & 0x8000_0000_0000_0000u64 != 0 ==> word >= 0x8000_0000_0000_0000u64) by (bit_vector);
    assert(word & 0x8000_0000_0000_0000u64 == 0 ==> word == word & 0x7fff_ffff_ffff_ffffu64) by (bit_vector);
    assert(word & 0x7fff_ffff_ffff_ffffu64 <= 0x7fff_ffff_ffff_ffffu64) by (bit_vector);
    assert((word | 0x8000_0000_0000_0000u64) & 0x8000_0000_0000_0000u64 != 0) by (bit_vector);
    assert((word | 0x8000_0000_0000_0000u64) & 0x7fff_ffff_ffff_ffffu64 == word & 0x7fff_ffff_ffff_ffffu64)
        by (bit_vector);
    assert(word & 0x8000_0000_0000_0000u64 == 0 && word & 0x7fff_ffff_ffff_ffffu64 < 0x7fff_ffff_ffff_ffffu64
        ==> ((word + 1) as u64) & 0x8000_0000_0000_0000u64 == 0
        && ((word + 1) as u64) & 0x7fff_ffff_ffff_ffffu64 == (word & 0x7fff_ffff_ffff_ffffu64) + 1)
        by (bit_vector);
    assert(word & 0x7fff_ffff_ffff_ffffu64 > 0 ==> (((word - 1) as u64) & 0x8000_0000_0000_0000u64 != 0)
        == (word & 0x8000_0000_0000_0000u64 != 0)
        && ((word - 1) as u64) & 0x7fff_ffff_ffff_ffffu64 == (word & 0x7fff_ffff_ffff_ffffu64) - 1)
        by (bit_vector);
}

/// The word a successful [`Gate::enter`] installs in place of `current`,
/// or `None` when this gate refuses: it is closed, or its count is full.
pub fn enter_update(current: u64) -> (next: Option<u64>)
    ensures
        next == spec_enter_update(current),
        next matches Some(word) ==> !word_closed(word) && word_count(word) == word_count(current) + 1,
{
    proof {
        lemma_gate_word(current);
    }
    if current & CLOSED != 0 || current & COUNT_MASK == COUNT_MASK {
        None
    } else {
        Some(current + 1)
    }
}

/// Why a refused `current` word was refused.
pub fn enter_error(current: u64) -> (error: EnterError)
    ensures
        error == (if word_closed(current) { EnterError::Closed } else { EnterError::Saturated }),
{
    if current & CLOSED == 0 {
        EnterError::Saturated
    } else {
        EnterError::Closed
    }
}

/// The guard count a close reports, given the word it replaced.
pub fn close_count(previous: u64) -> (in_flight: u64)
    ensures
        in_flight == word_count(previous),
{
    previous & COUNT_MASK
}

/// A gate over one word this value owns.
#[derive(Debug)]
pub struct Gate {
    word: u64,
}

/// A live writer's token. Releasing it ([`Gate::release`]) ends the work it
/// protects.
#[derive(Debug)]
pub struct GateGuard {
    _admitted: (),
}

impl Gate {
    pub closed spec fn view(&self) -> u64 {
        self.word
    }

    /// Wraps a word; a fresh gate starts from `0`.
    pub fn new(word: u64) -> (gate: Self)
        ensures
            gate@ == word,
    {
        Gate { word }
    }

    /// The current word.
    pub fn word(&self) -> (word: u64)
        ensures
            word == self@,
    {
        self.word
    }

    /// Admits a writer and counts it, unless this gate is closed or its
    /// count is full; a refusal leaves the word as it was.
    pub fn enter(&mut self) -> (result: Result<GateGuard, EnterError>)
        ensures
            match result {
                Ok(_) => {
                    &&& !word_closed(old(self)@)
                    &&& word_count(old(self)@) < COUNT_MASK
                    &&& final(self)@ == old(self)@ + 1
                    &&& !word_closed(final(self)@)
                    &&& word_count(final(self)@) == word_count(old(self)@) + 1
                },
                Err(EnterError::Closed) => word_closed(old(self)@) && final(self)@ == old(self)@,
                Err(EnterError::Saturated) => {
                    &&& !word_closed(old(self)@)
                    &&& word_count(old(self)@) == COUNT_MASK
                    &&& final(self)@ == old(self)@
                },
            },
    {
        proof {
            lemma_gate_word(self.word);
        }
        match enter_update(self.word) {
            Some(next) => {
                self.word = next;
                Ok(GateGuard { _admitted: () })
            },
            None => Err(enter_error(self.word)),
        }
    }

    /// Closes this gate and reports how many guards were still held.
    /// Idempotent: each call reports the count at that moment.
    pub fn close(&mut self) -> (in_flight: u64)
        ensures
            in_flight == word_count(old(self)@),
            final(self)@ == old(self)@ | CLOSED,
            word_closed(final(self)@),
            word_count(final(self)@) == word_count(old(self)@),
    {
        proof {
            lemma_gate_word(self.word);
        }
        let previous: u64 = self.word;
        self.word = previous | CLOSED;
        close_count(previous)
    }

    /// Releases a guard: its writer's work is complete.
    pub fn release(&mut self, guard: GateGuard)
        requires
            word_count(old(self)@) > 0,
        ensures
            final(self)@ == old(self)@ - 1,
            word_closed(final(self)@) == word_closed(old(self)@),
            word_count(final(self)@) == word_count(old(self)@) - 1,
    {
        proof {
            lemma_gate_word(self.word);
        }
        let GateGuard { _admitted } = guard;
        self.word = self.word - 1;
    }
}

/// Once closed, a gate refuses every writer: `enter` on a closed word never
/// changes it and reports `Closed`.
pub proof fn lemma_closed_gate_admits_nobody(word: u64)
    requires
        word_closed(word),
    ensures
        spec_enter_update(word) is None,
        word_closed(word | CLOSED),
{
    lemma_gate_word(word);
}

/// Entering and then releasing gives the word back unchanged.
pub proof fn lemma_enter_release_balance(word: u64)
    requires
        spec_enter_update(word) is Some,
    ensures
        word_count(spec_enter_update(word)->0) > 0,
        (spec_enter_update(word)->0 - 1) as u64 == word,
{
    lemma_gate_word(word);
}

} // verus!
