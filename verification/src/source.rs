//! The random-bit source: the contract it must meet, and a deterministic
//! tape-backed implementation for replaying a fixed sequence of draws.

use vstd::prelude::*;

verus! {

/// One uniform draw served by a random-bit source: which arithmetic width
/// served it, the exclusive bound that was requested, and the value drawn.
pub struct DrawRecord {
    /// True when the draw went through the 64-bit operation.
    pub wide: bool,
    /// The exclusive upper bound the caller asked for.
    pub bound: nat,
    /// The value drawn; always below `bound`.
    pub value: nat,
}

/// The record that a bound-driven draw leaves behind: the 64-bit operation
/// serves the draw exactly when the bound exceeds 32-bit capacity, so the
/// width is a function of the bound's value alone, never of the host.
pub open spec fn draw_record_for(bound: nat, value: nat) -> DrawRecord {
    DrawRecord { wide: bound > u32::MAX as nat, bound, value }
}

/// A caller-owned source of uniformly distributed values.
///
/// Every draw is appended to a ghost log, so a caller can state exactly
/// which draws a computation consumed and in which order. A source promises
/// nothing about which value comes back beyond its range: two calls with
/// the same bound may differ.
pub trait UniformSource {
    /// Every draw this source has served so far, oldest first.
    spec fn draw_log(&self) -> Seq<DrawRecord>;

    /// Returns a uniformly distributed value in `[0, bound)`, computed in
    /// 32-bit arithmetic.
    fn next_u32(&mut self, bound: u32) -> (r: u32)
        requires
            1 <= bound,
        ensures
            r < bound,
            final(self).draw_log() == old(self).draw_log().push(
                (DrawRecord { wide: false, bound: bound as nat, value: r as nat }),
            ),
    ;

    /// Returns a uniformly distributed value in `[0, bound)`, computed in
    /// 64-bit arithmetic.
    fn next_u64(&mut self, bound: u64) -> (r: u64)
        requires
            1 <= bound,
        ensures
            r < bound,
            final(self).draw_log() == old(self).draw_log().push(
                (DrawRecord { wide: true, bound: bound as nat, value: r as nat }),
            ),
    ;
}

/// A deterministic source that replays a fixed tape of values.
///
/// Each draw takes the next tape entry, reduced into range by a modulus;
/// once the tape is exhausted every further draw yields zero and the
/// position stays put. The position doubles as a draw counter.
pub struct TapeSource {
    tape: Vec<u64>,
    pos: usize,
    history: Ghost<Seq<DrawRecord>>,
}

impl TapeSource {
    /// A fresh source that will serve the given values in order.
    pub fn from_values(tape: Vec<u64>) -> (r: TapeSource)
        ensures
            r.draw_log() == Seq::<DrawRecord>::empty(),
            r.draws_taken() == 0,
    {
        TapeSource { tape, pos: 0, history: Ghost(Seq::empty()) }
    }

    /// How many tape entries have been consumed.
    pub closed spec fn draws_taken(&self) -> nat {
        self.pos as nat
    }

    /// How many tape entries have been consumed.
    pub fn draw_count(&self) -> (r: usize)
        ensures
            r as nat == self.draws_taken(),
    {
        self.pos
    }

    /// Takes the next raw tape value, or zero once the tape is exhausted.
    fn take_raw(&mut self) -> (r: u64)
        ensures
            final(self).history == old(self).history,
            final(self).tape == old(self).tape,
            old(self).pos < old(self).tape.len() ==> final(self).pos == old(self).pos + 1,
            old(self).pos >= old(self).tape.len() ==> *final(self) == *old(self),
    {
        if self.pos < self.tape.len() {
            let v = self.tape[self.pos];
            self.pos = self.pos + 1;
            v
        } else {
            0
        }
    }
}

impl UniformSource for TapeSource {
    closed spec fn draw_log(&self) -> Seq<DrawRecord> {
        self.history@
    }

    fn next_u32(&mut self, bound: u32) -> (r: u32) {
        let raw = self.take_raw();
        let wide_bound = bound as u64;
        let r = (raw % wide_bound) as u32;
        proof {
            self.history@ = self.history@.push(
                DrawRecord { wide: false, bound: bound as nat, value: r as nat },
            );
        }
        r
    }

    fn next_u64(&mut self, bound: u64) -> (r: u64) {
        let raw = self.take_raw();
        let r = raw % bound;
        proof {
            self.history@ = self.history@.push(
                DrawRecord { wide: true, bound: bound as nat, value: r as nat },
            );
        }
        r
    }
}

} // verus!
