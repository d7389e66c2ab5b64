//! The looping, sample-indexed timeline of a rhythm voice.
//!
//! A `Sequence` holds onset and release events keyed by their sample offset
//! within one period. Queries wrap an absolute sample position into the
//! period with true modular arithmetic, so positions before the period start
//! land at its end rather than at a negative offset.

use vstd::prelude::*;
use vstd::arithmetic::div_mod::{lemma_fundamental_div_mod, lemma_mod_bound, lemma_small_mod};

verus! {

/// For a negative dividend, Rust's truncating remainder differs from the
/// modular remainder by exactly one period unless the position is a multiple
/// of it.
proof fn lemma_truncating_rem_of_negative(p: int, m: int)
    requires
        m >= 1,
        p < 0,
    ensures
        -((-p) % m) == if p % m == 0 { 0int } else { p % m - m },
{
    lemma_fundamental_div_mod(p, m);
    lemma_mod_bound(p, m);
    lemma_fundamental_div_mod(-p, m);
    lemma_mod_bound(-p, m);
    let q1 = p / m;
    let q2 = (-p) / m;
    let e = p % m;
    let f = (-p) % m;
    let k = -q1 - q2;
    assert(e + f == m * k) by (nonlinear_arith)
        requires
            p == m * q1 + e,
            -p == m * q2 + f,
            k == -q1 - q2,
    ;
    assert(k == 0 || k == 1) by (nonlinear_arith)
        requires
            e + f == m * k,
            0 <= e < m,
            0 <= f < m,
            m >= 1,
    ;
}

/// One onset (`note_data == true`) or release (`note_data == false`) at a
/// sample offset within the period.
#[derive(Clone, Copy, PartialEq, Eq, Debug)]
pub struct SeqNoteEvent {
    pub sample_pos: i64,
    pub note_data: bool,
}

/// A looping timeline: its events and the period length in samples.
#[derive(Clone, PartialEq, Debug)]
pub struct Sequence {
    pub note_events: Vec<SeqNoteEvent>,
    pub sequence_length: i64,
}

/// The effective period of a timeline: the stored length, floored to one
/// sample so that wrapping never divides by zero.
pub open spec fn spec_period(sequence_length: i64) -> int {
    if sequence_length < 1 { 1 } else { sequence_length as int }
}

/// The events of a timeline that sit exactly at the wrapped position, in
/// timeline order.
pub open spec fn spec_events_at(events: Seq<SeqNoteEvent>, wrapped: i64) -> Seq<SeqNoteEvent> {
    events.filter(|e: SeqNoteEvent| e.sample_pos == wrapped)
}

impl Default for Sequence {
    /// An empty timeline with the degenerate one-sample period.
    fn default() -> (r: Sequence)
        ensures
            r.note_events@ == Seq::<SeqNoteEvent>::empty(),
            r.sequence_length == 1,
    {
        Sequence { note_events: Vec::new(), sequence_length: 1 }
    }
}

impl Sequence {
    /// Appends an event to the timeline.
    pub fn add_note_event(&mut self, event: SeqNoteEvent)
        ensures
            final(self).note_events@ == old(self).note_events@.push(event),
            final(self).sequence_length == old(self).sequence_length,
    {
        self.note_events.push(event);
    }

    /// Wraps an absolute sample position into `[0, period)`, where the
    /// period is the sequence length floored to one sample; negative
    /// positions wrap to the end of the period.
    pub fn get_wrapped_sample_position(&self, sample_position: i64) -> (r: i64)
        ensures
            0 <= r < spec_period(self.sequence_length),
            r == (sample_position as int) % spec_period(self.sequence_length),
    {
        let m: i64 = if self.sequence_length < 1 { 1 } else { self.sequence_length };
        let wrapped_sample_position = sample_position.checked_rem(m).unwrap();

        proof {
            let p = sample_position as int;
            let mi = m as int;
            lemma_mod_bound(p, mi);
            if sample_position < 0 {
                lemma_truncating_rem_of_negative(p, mi);
                assert(wrapped_sample_position as int == if p % mi == 0 { 0int } else {
                    p % mi - mi
                });
            } else if sample_position == 0 {
                lemma_small_mod(0nat, mi as nat);
                assert(wrapped_sample_position as int == p % mi);
            } else {
                assert(wrapped_sample_position as int == p % mi);
            }
            assert(spec_period(self.sequence_length) == mi);
        }
        if wrapped_sample_position < 0 {
            self.sequence_length + wrapped_sample_position
        } else {
            wrapped_sample_position
        }
    }

    /// Returns every event whose sample offset equals the wrapped position,
    /// in timeline order.
    pub fn get_note_events_at_sample(&self, wrapped_sample_position: i64) -> (r: Vec<SeqNoteEvent>)
        ensures
            r@ == spec_events_at(self.note_events@, wrapped_sample_position),
    {
        let events = &self.note_events;
        let mut out: Vec<SeqNoteEvent> = Vec::new();
        let mut i: usize = 0;
        while i < events.len()
            invariant
                i <= events.len(),
                out@ == spec_events_at(events@.take(i as int), wrapped_sample_position),
            decreases events.len() - i,
        {
            let event = events[i];
            proof {
                reveal_with_fuel(Seq::filter, 2);
                assert(events@.take(i as int + 1).drop_last() =~= events@.take(i as int));
                assert(events@.take(i as int + 1).last() == event);
            }
            if event.sample_pos == wrapped_sample_position {
                out.push(event);
            }
            i = i + 1;
        }
        proof {
            assert(events@.take(events@.len() as int) =~= events@);
        }
        out
    }
}

} // verus!
