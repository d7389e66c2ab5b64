//! The Euclidean-style step-pattern generator.
//!
//! Onsets are first placed at even spacing, one per `num_steps / num_notes`
//! slots. The `num_steps % num_notes` leftover onsets are then placed by a
//! cursor that starts at `offset_steps` and skips one already marked gate
//! before each placement. Finally the whole pattern is rotated right by
//! `offset_steps`. The offset is deliberately used both as the placement
//! cursor seed and as the rotation amount.
//!
//! For some configurations the leftover cursor or the rotation would leave
//! the pattern; those have no result, and [`euclidean_rhythm_checked`]
//! reports them as `None`.

use vstd::prelude::*;
use vstd::arithmetic::div_mod::{
    lemma_fundamental_div_mod, lemma_fundamental_div_mod_converse, lemma_mod_bound,
};
use vstd::pervasive::VecAdditionalExecFns;
use crate::events::NoteEvent;
use crate::sequence::{spec_events_at, spec_period, SeqNoteEvent, Sequence};

verus! {

/// An all-silent gate pattern of the given length.
pub open spec fn spec_all_false(num_steps: nat) -> Seq<bool> {
    Seq::new(num_steps, |i: int| false)
}

/// The evenly spaced onsets: for each `i < count`, a gate at `i * fill`.
pub open spec fn spec_base_marks(num_steps: nat, fill: int, count: nat) -> Seq<bool>
    decreases count,
{
    if count == 0 {
        spec_all_false(num_steps)
    } else {
        spec_base_marks(num_steps, fill, (count - 1) as nat).update((count - 1) * fill, true)
    }
}

/// The leftover-placement walk: each of `k` steps skips one already marked
/// gate under the cursor, marks the slot the cursor then rests on, and moves
/// past it. `None` when the cursor leaves the pattern.
pub open spec fn spec_place_extras(s: Seq<bool>, cursor: int, k: nat) -> Option<(Seq<bool>, int)>
    decreases k,
{
    if k == 0 {
        Some((s, cursor))
    } else if !(0 <= cursor < s.len()) {
        None
    } else {
        let c = if s[cursor] { cursor + 1 } else { cursor };
        if !(c < s.len()) {
            None
        } else {
            spec_place_extras(s.update(c, true), c + 1, (k - 1) as nat)
        }
    }
}

/// The pattern rotated right by `amount` gates, `0 <= amount <= length`.
pub open spec fn spec_rotate_right(s: Seq<bool>, amount: int) -> Seq<bool> {
    s.subrange(s.len() - amount, s.len() as int) + s.subrange(0, s.len() - amount)
}

/// The generated gate pattern: all-silent when `num_notes` is zero or
/// exceeds `num_steps`; otherwise even placement, leftover redistribution
/// from the offset cursor, and rotation right by the offset. `None` on the
/// configurations where the cursor walk or the rotation leaves the pattern.
pub open spec fn spec_euclidean_rhythm(
    num_notes: nat,
    num_steps: nat,
    offset_steps: nat,
) -> Option<Seq<bool>> {
    if num_notes == 0 || num_notes > num_steps {
        Some(spec_all_false(num_steps))
    } else {
        let fill = num_steps as int / num_notes as int;
        let leftover = (num_steps as int % num_notes as int) as nat;
        match spec_place_extras(spec_base_marks(num_steps, fill, num_notes), offset_steps as int, leftover) {
            None => None,
            Some((s, _)) => if offset_steps <= num_steps {
                Some(spec_rotate_right(s, offset_steps as int))
            } else {
                None
            },
        }
    }
}

/// The number of onsets in a gate pattern.
pub open spec fn count_trues(s: Seq<bool>) -> nat
    decreases s.len(),
{
    if s.len() == 0 {
        0
    } else {
        count_trues(s.drop_last()) + if s.last() { 1nat } else { 0nat }
    }
}

proof fn lemma_count_all_false(n: nat)
    ensures
        count_trues(spec_all_false(n)) == 0,
    decreases n,
{
    if n > 0 {
        assert(spec_all_false(n).drop_last() =~= spec_all_false((n - 1) as nat));
        lemma_count_all_false((n - 1) as nat);
    }
}

proof fn lemma_count_update_true(s: Seq<bool>, i: int)
    requires
        0 <= i < s.len(),
    ensures
        count_trues(s.update(i, true)) == count_trues(s) + if s[i] { 0int } else { 1int },
    decreases s.len(),
{
    let t = s.len() - 1;
    if i == t {
        assert(s.update(i, true).drop_last() =~= s.drop_last());
    } else {
        assert(s.update(i, true).drop_last() =~= s.drop_last().update(i, true));
        lemma_count_update_true(s.drop_last(), i);
    }
}

proof fn lemma_count_concat(a: Seq<bool>, b: Seq<bool>)
    ensures
        count_trues(a + b) == count_trues(a) + count_trues(b),
    decreases b.len(),
{
    if b.len() == 0 {
        assert(a + b =~= a);
    } else {
        assert((a + b).drop_last() =~= a + b.drop_last());
        lemma_count_concat(a, b.drop_last());
    }
}

/// The even placement marks exactly the slots at multiples of `fill` whose
/// multiplier stays below `count`.
proof fn lemma_base_marks_char(num_steps: nat, fill: int, count: nat)
    requires
        fill >= 1,
        count * fill <= num_steps,
    ensures
        spec_base_marks(num_steps, fill, count).len() == num_steps,
        forall|j: int| 0 <= j < num_steps ==> (
            #[trigger] spec_base_marks(num_steps, fill, count)[j]
                <==> (j % fill == 0 && j / fill < count)
        ),
    decreases count,
{
    if count == 0 {
        assert forall|j: int| 0 <= j < num_steps implies !(#[trigger] (j % fill) == 0
            && j / fill < 0nat) by {
            vstd::arithmetic::div_mod::lemma_div_pos_is_pos(j, fill);
        }
    } else {
        let prev = (count - 1) as nat;
        assert(prev * fill <= num_steps) by (nonlinear_arith)
            requires
                count * fill <= num_steps,
                prev == count - 1,
                fill >= 1,
        ;
        lemma_base_marks_char(num_steps, fill, prev);
        let p = (count - 1) * fill;
        assert(p + fill <= num_steps) by (nonlinear_arith)
            requires
                count * fill <= num_steps,
                p == (count - 1) * fill,
        ;
        lemma_fundamental_div_mod_converse(p, fill, count - 1, 0);
        let marks = spec_base_marks(num_steps, fill, count);
        let prev_marks = spec_base_marks(num_steps, fill, prev);
        assert forall|j: int| 0 <= j < num_steps implies (
            #[trigger] marks[j] <==> (j % fill == 0 && j / fill < count)
        ) by {
            if j == p {
                assert(marks[j]);
            } else {
                assert(marks[j] == prev_marks[j]);
                if j % fill == 0 && j / fill == count - 1 {
                    lemma_fundamental_div_mod(j, fill);
                    assert(j == fill * (count - 1)) by (nonlinear_arith)
                        requires
                            j == fill * (j / fill) + j % fill,
                            j % fill == 0,
                            j / fill == count - 1,
                    ;
                    assert(j == p) by (nonlinear_arith)
                        requires
                            j == fill * (count - 1),
                            p == (count - 1) * fill,
                    ;
                }
            }
        }
    }
}

/// The even placement puts down exactly `count` onsets.
proof fn lemma_base_marks_count(num_steps: nat, fill: int, count: nat)
    requires
        fill >= 1,
        count * fill <= num_steps,
    ensures
        count_trues(spec_base_marks(num_steps, fill, count)) == count,
    decreases count,
{
    if count == 0 {
        lemma_count_all_false(num_steps);
    } else {
        let prev = (count - 1) as nat;
        assert(prev * fill <= num_steps && (count - 1) * fill + fill <= num_steps)
            by (nonlinear_arith)
            requires
                count * fill <= num_steps,
                prev == count - 1,
                fill >= 1,
        ;
        lemma_base_marks_count(num_steps, fill, prev);
        lemma_base_marks_char(num_steps, fill, prev);
        let p = (count - 1) * fill;
        lemma_fundamental_div_mod_converse(p, fill, count - 1, 0);
        assert(!spec_base_marks(num_steps, fill, prev)[p]);
        lemma_count_update_true(spec_base_marks(num_steps, fill, prev), p);
    }
}

/// The leftover walk never removes an onset and adds at most one per step.
proof fn lemma_place_extras_count(s: Seq<bool>, cursor: int, k: nat)
    ensures
        match spec_place_extras(s, cursor, k) {
            Some((s2, _)) => s2.len() == s.len()
                && count_trues(s) <= count_trues(s2) <= count_trues(s) + k,
            None => true,
        },
    decreases k,
{
    if k > 0 && 0 <= cursor < s.len() {
        let c = if s[cursor] { cursor + 1 } else { cursor };
        if c < s.len() {
            lemma_count_update_true(s, c);
            lemma_place_extras_count(s.update(c, true), c + 1, (k - 1) as nat);
        }
    }
}

/// Rotation keeps the onset count.
proof fn lemma_rotate_count(s: Seq<bool>, amount: int)
    requires
        0 <= amount <= s.len(),
    ensures
        count_trues(spec_rotate_right(s, amount)) == count_trues(s),
{
    let head = s.subrange(0, s.len() - amount);
    let tail = s.subrange(s.len() - amount, s.len() as int);
    assert(s =~= head + tail);
    lemma_count_concat(head, tail);
    lemma_count_concat(tail, head);
}

/// The onset count of every generated pattern: at least `num_notes`, at most
/// `num_notes` plus the leftover count, and exactly `num_notes` when the
/// onsets divide the steps evenly.
pub proof fn lemma_euclidean_rhythm_onset_count(num_notes: nat, num_steps: nat, offset_steps: nat)
    requires
        1 <= num_notes <= num_steps,
        spec_euclidean_rhythm(num_notes, num_steps, offset_steps).is_some(),
    ensures
        num_notes
            <= count_trues(spec_euclidean_rhythm(num_notes, num_steps, offset_steps).unwrap())
            <= num_notes + num_steps % num_notes,
        num_steps % num_notes == 0 ==> count_trues(
            spec_euclidean_rhythm(num_notes, num_steps, offset_steps).unwrap(),
        ) == num_notes,
{
    let fill = num_steps as int / num_notes as int;
    let leftover = (num_steps as int % num_notes as int) as nat;
    lemma_fundamental_div_mod(num_steps as int, num_notes as int);
    lemma_mod_bound(num_steps as int, num_notes as int);
    assert(fill >= 1 && num_notes * fill <= num_steps) by (nonlinear_arith)
        requires
            1 <= num_notes <= num_steps,
            num_steps == num_notes * fill + leftover,
            0 <= leftover < num_notes,
    ;
    let base = spec_base_marks(num_steps, fill, num_notes);
    lemma_base_marks_char(num_steps, fill, num_notes);
    lemma_base_marks_count(num_steps, fill, num_notes);
    lemma_place_extras_count(base, offset_steps as int, leftover);
    let placed = spec_place_extras(base, offset_steps as int, leftover).unwrap().0;
    lemma_rotate_count(placed, offset_steps as int);
}

/// Builds a gate pattern, reporting the configurations on which the
/// leftover cursor or the rotation would leave the pattern as `None`.
pub fn euclidean_rhythm_checked(num_notes: usize, num_steps: usize, offset_steps: usize) -> (r:
    Option<Vec<bool>>)
    ensures
        match r {
            Some(v) => spec_euclidean_rhythm(
                num_notes as nat,
                num_steps as nat,
                offset_steps as nat,
            ) == Some(v@),
            None => spec_euclidean_rhythm(
                num_notes as nat,
                num_steps as nat,
                offset_steps as nat,
            ) is None,
        },
{
    let mut rhythm: Vec<bool> = Vec::new();
    let mut n: usize = 0;
    while n < num_steps
        invariant
            n <= num_steps,
            rhythm@ == spec_all_false(n as nat),
        decreases num_steps - n,
    {
        rhythm.push(false);
        proof {
            assert(rhythm@ =~= spec_all_false((n + 1) as nat));
        }
        n = n + 1;
    }

    if num_notes > 0 && num_notes <= num_steps {
        let fill_count = num_steps / num_notes;
        let remainder = num_steps % num_notes;
        proof {
            lemma_fundamental_div_mod(num_steps as int, num_notes as int);
            lemma_mod_bound(num_steps as int, num_notes as int);
            assert(fill_count >= 1 && num_notes * fill_count <= num_steps) by (nonlinear_arith)
                requires
                    1 <= num_notes <= num_steps,
                    num_steps == num_notes * fill_count + remainder,
                    0 <= remainder < num_notes,
            ;
        }

        let mut i: usize = 0;
        while i < num_notes
            invariant
                i <= num_notes,
                1 <= num_notes <= num_steps,
                fill_count >= 1,
                num_notes * fill_count <= num_steps,
                rhythm@.len() == num_steps,
                rhythm@ == spec_base_marks(num_steps as nat, fill_count as int, i as nat),
            decreases num_notes - i,
        {
            proof {
                assert((i as int) * (fill_count as int) + fill_count <= num_steps)
                    by (nonlinear_arith)
                    requires
                        0 <= i < num_notes,
                        fill_count >= 1,
                        num_notes * fill_count <= num_steps,
                ;
            }
            rhythm.set(i * fill_count, true);
            i = i + 1;
        }

        let ghost base = rhythm@;
        let mut offset: usize = offset_steps;
        let mut placed: usize = 0;
        while placed < remainder
            invariant
                placed <= remainder,
                1 <= num_notes <= num_steps,
                fill_count == num_steps as int / num_notes as int,
                remainder == num_steps as int % num_notes as int,
                base == spec_base_marks(num_steps as nat, fill_count as int, num_notes as nat),
                rhythm@.len() == num_steps,
                spec_place_extras(rhythm@, offset as int, (remainder - placed) as nat)
                    == spec_place_extras(base, offset_steps as int, remainder as nat),
            decreases remainder - placed,
        {
            if offset >= num_steps {
                return None;
            }
            if rhythm[offset] {
                offset = offset + 1;
            }
            if offset >= num_steps {
                return None;
            }
            rhythm.set(offset, true);
            offset = offset + 1;
            placed = placed + 1;
        }

        if offset_steps > num_steps {
            return None;
        }

        let mut rotated: Vec<bool> = Vec::new();
        let mut out_idx: usize = 0;
        while out_idx < num_steps
            invariant
                out_idx <= num_steps,
                offset_steps <= num_steps,
                rhythm@.len() == num_steps,
                rotated@.len() == out_idx,
                forall|t: int| 0 <= t < out_idx ==> rotated@[t] == spec_rotate_right(
                    rhythm@,
                    offset_steps as int,
                )[t],
            decreases num_steps - out_idx,
        {
            let src = if out_idx < offset_steps {
                num_steps - offset_steps + out_idx
            } else {
                out_idx - offset_steps
            };
            rotated.push(rhythm[src]);
            out_idx = out_idx + 1;
        }
        proof {
            assert(rotated@ =~= spec_rotate_right(rhythm@, offset_steps as int));
        }
        Some(rotated)
    } else {
        Some(rhythm)
    }
}

/// Builds a gate pattern of `num_steps` gates. With `num_notes` between
/// one and `num_steps` the pattern carries at least `num_notes` onsets and
/// at most `num_notes` plus the leftover count, and exactly `num_notes` when
/// the onsets divide the steps evenly; otherwise it is all-silent.
pub fn euclidean_rhythm(num_notes: usize, num_steps: usize, offset_steps: usize) -> (r: Vec<bool>)
    requires
        spec_euclidean_rhythm(num_notes as nat, num_steps as nat, offset_steps as nat).is_some(),
    ensures
        Some(r@) == spec_euclidean_rhythm(num_notes as nat, num_steps as nat, offset_steps as nat),
        r@.len() == num_steps,
        (num_notes == 0 || num_notes > num_steps) ==> forall|j: int|
            0 <= j < num_steps ==> !r@[j],
        1 <= num_notes <= num_steps ==> num_notes <= count_trues(r@) <= num_notes + (num_steps as int)
            % (num_notes as int),
        (1 <= num_notes <= num_steps && num_steps as int % (num_notes as int) == 0)
            ==> count_trues(r@) == num_notes,
{
    proof {
        if 1 <= num_notes <= num_steps {
            lemma_euclidean_rhythm_onset_count(
                num_notes as nat,
                num_steps as nat,
                offset_steps as nat,
            );
            lemma_euclidean_rhythm_len(num_notes as nat, num_steps as nat, offset_steps as nat);
        }
    }
    match euclidean_rhythm_checked(num_notes, num_steps, offset_steps) {
        Some(v) => v,
        None => vstd::pervasive::unreached(),
    }
}

/// Every generated pattern has one gate per step.
pub proof fn lemma_euclidean_rhythm_len(num_notes: nat, num_steps: nat, offset_steps: nat)
    requires
        spec_euclidean_rhythm(num_notes, num_steps, offset_steps).is_some(),
    ensures
        spec_euclidean_rhythm(num_notes, num_steps, offset_steps).unwrap().len() == num_steps,
{
    if 1 <= num_notes <= num_steps {
        let fill = num_steps as int / num_notes as int;
        let leftover = (num_steps as int % num_notes as int) as nat;
        lemma_fundamental_div_mod(num_steps as int, num_notes as int);
        lemma_mod_bound(num_steps as int, num_notes as int);
        assert(fill >= 1 && num_notes * fill <= num_steps) by (nonlinear_arith)
            requires
                1 <= num_notes <= num_steps,
                num_steps == num_notes * fill + leftover,
                0 <= leftover < num_notes,
        ;
        lemma_base_marks_char(num_steps, fill, num_notes);
        lemma_place_extras_count(
            spec_base_marks(num_steps, fill, num_notes),
            offset_steps as int,
            leftover,
        );
    }
}

/// One rhythm voice: its gate pattern and the timeline built from it.
#[derive(Clone)]
pub struct EuclidianRhythm {
    pub rhythm: Vec<bool>,
    pub sequence: Sequence,
}

impl Default for EuclidianRhythm {
    /// A silent voice: no gates, and the degenerate one-sample timeline.
    fn default() -> (r: EuclidianRhythm)
        ensures
            r.rhythm@ == Seq::<bool>::empty(),
            r.sequence.note_events@ == Seq::<SeqNoteEvent>::empty(),
            r.sequence.sequence_length == 1,
    {
        EuclidianRhythm { rhythm: Vec::new(), sequence: Sequence::default() }
    }
}

/// The per-voice configuration of one processing block. The step length in
/// samples is handed in ready-made; the host adapter derives it from tempo,
/// sample rate and the musical step size.
#[derive(Clone, Copy, PartialEq, Eq, Debug)]
pub struct VoiceSettings {
    pub enabled: bool,
    pub note: u8,
    pub velocity: u32,
    pub num_notes: usize,
    pub num_steps: usize,
    pub offset_steps: usize,
    pub step_len_samples: i64,
}

/// An enabled voice configuration the rhythm engine accepts: its pattern
/// exists and the timeline arithmetic stays within the sample type.
pub open spec fn spec_rhythm_config_ok(v: VoiceSettings) -> bool {
    &&& spec_euclidean_rhythm(v.num_notes as nat, v.num_steps as nat, v.offset_steps as nat).is_some()
    &&& 0 <= v.step_len_samples
    &&& v.num_steps <= i64::MAX
    &&& v.step_len_samples * (v.num_steps as int) <= i64::MAX
}

/// The timeline events of one gate pattern: for each onset at step `i`, an
/// onset event at `i * step_len` and a release at `(i + 1) * step_len`,
/// taking the first `n` steps.
pub open spec fn spec_gate_events(rhythm: Seq<bool>, step_len: int, n: nat) -> Seq<SeqNoteEvent>
    decreases n,
{
    if n == 0 {
        Seq::empty()
    } else {
        spec_gate_events(rhythm, step_len, (n - 1) as nat) + if rhythm[n - 1] {
            seq![
                SeqNoteEvent { sample_pos: ((n - 1) * step_len) as i64, note_data: true },
                SeqNoteEvent { sample_pos: (n * step_len) as i64, note_data: false },
            ]
        } else {
            Seq::empty()
        }
    }
}

/// The note event a timeline event turns into when it fires: an onset
/// becomes a note-on, a release a note-off, on channel zero without a voice
/// id, as the rhythm engine owns its voices outright.
pub open spec fn spec_note_event_from(
    seq_event: SeqNoteEvent,
    note: u8,
    velocity: u32,
    timing: u32,
) -> NoteEvent {
    if seq_event.note_data {
        NoteEvent::NoteOn { timing, voice_id: None, channel: 0, note, velocity }
    } else {
        NoteEvent::NoteOff { timing, voice_id: None, channel: 0, note, velocity }
    }
}

/// The note events fired by a list of timeline events.
pub open spec fn spec_sample_events(
    events: Seq<SeqNoteEvent>,
    note: u8,
    velocity: u32,
    timing: u32,
) -> Seq<NoteEvent> {
    events.map_values(|e: SeqNoteEvent| spec_note_event_from(e, note, velocity, timing))
}

/// The note events of one voice at one absolute sample position: what sits
/// at the wrapped position of its timeline, fired with the voice's pitch and
/// velocity at that position's timing.
pub open spec fn spec_voice_events(v: VoiceSettings, rhythm: EuclidianRhythm, pos: int) -> Seq<
    NoteEvent,
> {
    spec_sample_events(
        spec_events_at(
            rhythm.sequence.note_events@,
            (pos % spec_period(rhythm.sequence.sequence_length)) as i64,
        ),
        v.note,
        v.velocity,
        pos as u32,
    )
}

/// The note events of the first `k` voices at one sample position, enabled
/// voices only, in voice order.
pub open spec fn spec_voices_events_upto(
    voices: Seq<VoiceSettings>,
    rhythms: Seq<EuclidianRhythm>,
    pos: int,
    k: nat,
) -> Seq<NoteEvent>
    decreases k,
{
    if k == 0 {
        Seq::empty()
    } else {
        spec_voices_events_upto(voices, rhythms, pos, (k - 1) as nat) + if voices[k - 1].enabled {
            spec_voice_events(voices[k - 1], rhythms[k - 1], pos)
        } else {
            Seq::empty()
        }
    }
}

/// The note events of a whole block: every voice at every of the first `n`
/// sample positions, positions outermost.
pub open spec fn spec_block_events(
    voices: Seq<VoiceSettings>,
    rhythms: Seq<EuclidianRhythm>,
    start: int,
    n: nat,
) -> Seq<NoteEvent>
    decreases n,
{
    if n == 0 {
        Seq::empty()
    } else {
        spec_block_events(voices, rhythms, start, (n - 1) as nat) + spec_voices_events_upto(
            voices,
            rhythms,
            start + n - 1,
            voices.len(),
        )
    }
}

/// The rhythm engine: one timeline per voice, rebuilt each block and queried
/// per sample.
#[derive(Clone)]
pub struct Euclidian {
    pub rhythms: Vec<EuclidianRhythm>,
}

impl Default for Euclidian {
    /// An engine with four silent voices.
    fn default() -> (r: Euclidian)
        ensures
            r.rhythms@.len() == 4,
            forall|k: int| 0 <= k < 4 ==> (
                (#[trigger] r.rhythms@[k]).rhythm@ == Seq::<bool>::empty()
                && r.rhythms@[k].sequence.note_events@ == Seq::<SeqNoteEvent>::empty()
                && r.rhythms@[k].sequence.sequence_length == 1
            ),
    {
        let mut rhythms: Vec<EuclidianRhythm> = Vec::new();
        rhythms.push(EuclidianRhythm::default());
        rhythms.push(EuclidianRhythm::default());
        rhythms.push(EuclidianRhythm::default());
        rhythms.push(EuclidianRhythm::default());
        Euclidian { rhythms }
    }
}

impl Euclidian {
    /// Rebuilds a timeline from a gate pattern: the period spans `num_steps`
    /// steps, and each onset contributes an onset event at the start of its
    /// step and a release at the start of the next.
    pub fn update_sequence(
        sequence: &mut Sequence,
        rhythm: &Vec<bool>,
        num_steps: i64,
        step_len_samples: i64,
    )
        requires
            0 <= num_steps,
            0 <= step_len_samples,
            rhythm@.len() <= i64::MAX,
            step_len_samples * num_steps <= i64::MAX,
            step_len_samples * rhythm@.len() <= i64::MAX,
        ensures
            final(sequence).sequence_length == step_len_samples * num_steps,
            final(sequence).note_events@ == spec_gate_events(
                rhythm@,
                step_len_samples as int,
                rhythm@.len(),
            ),
    {
        let step_len = step_len_samples;
        sequence.sequence_length = step_len * num_steps;
        sequence.note_events = Vec::new();

        let mut i: usize = 0;
        while i < rhythm.len()
            invariant
                i <= rhythm@.len(),
                0 <= step_len,
                rhythm@.len() <= i64::MAX,
                step_len * rhythm@.len() <= i64::MAX,
                sequence.note_events@ == spec_gate_events(rhythm@, step_len as int, i as nat),
                sequence.sequence_length == step_len * num_steps,
            decreases rhythm@.len() - i,
        {
            proof {
                assert(0 <= (i as int) * step_len && (i as int) * step_len <= (i + 1) * step_len
                    && (i + 1) * step_len <= step_len * rhythm@.len()) by (nonlinear_arith)
                    requires
                        0 <= i < rhythm@.len(),
                        0 <= step_len,
                ;
            }
            if rhythm[i] {
                sequence.add_note_event(
                    SeqNoteEvent { sample_pos: (i as i64) * step_len, note_data: true },
                );
                sequence.add_note_event(
                    SeqNoteEvent { sample_pos: (i as i64 + 1) * step_len, note_data: false },
                );
                proof {
                    assert((i as i64) as int * step_len == (i as int) * step_len);
                    assert(sequence.note_events@ =~= spec_gate_events(
                        rhythm@,
                        step_len as int,
                        (i + 1) as nat,
                    ));
                }
            } else {
                proof {
                    assert(sequence.note_events@ =~= spec_gate_events(
                        rhythm@,
                        step_len as int,
                        (i + 1) as nat,
                    ));
                }
            }
            i = i + 1;
        }
    }

    /// Fires the timeline events sitting at the wrapped sample position as
    /// note events with the voice's pitch and velocity, timed at the
    /// absolute position.
    pub fn sample_sequence(
        note: u8,
        velocity: u32,
        sample_position: i64,
        sequence: &Sequence,
    ) -> (r: Vec<NoteEvent>)
        requires
            0 <= sample_position <= u32::MAX,
        ensures
            r@ == spec_sample_events(
                spec_events_at(
                    sequence.note_events@,
                    ((sample_position as int) % spec_period(sequence.sequence_length)) as i64,
                ),
                note,
                velocity,
                sample_position as u32,
            ),
    {
        let wrapped_sample_position = sequence.get_wrapped_sample_position(sample_position);
        let matched = sequence.get_note_events_at_sample(wrapped_sample_position);
        let timing = sample_position as u32;

        let mut out: Vec<NoteEvent> = Vec::new();
        let mut i: usize = 0;
        while i < matched.len()
            invariant
                i <= matched@.len(),
                out@ =~= spec_sample_events(matched@.take(i as int), note, velocity, timing),
            decreases matched@.len() - i,
        {
            let event = matched[i];
            if event.note_data {
                out.push(NoteEvent::NoteOn { timing, voice_id: None, channel: 0, note, velocity });
            } else {
                out.push(NoteEvent::NoteOff { timing, voice_id: None, channel: 0, note, velocity });
            }
            proof {
                assert(out@ =~= spec_sample_events(matched@.take(i as int + 1), note, velocity, timing));
            }
            i = i + 1;
        }
        proof {
            assert(matched@.take(matched@.len() as int) =~= matched@);
        }
        out
    }

    /// One processing block of the rhythm engine: rebuilds the pattern and
    /// timeline of every enabled voice, then fires, for each sample position
    /// of the block in order and within one position for each enabled voice
    /// in order, the events its timeline holds at that position.
    pub fn process(
        &mut self,
        voices: &Vec<VoiceSettings>,
        sample_position_start: i64,
        num_samples: usize,
    ) -> (r: Vec<NoteEvent>)
        requires
            voices@.len() == old(self).rhythms@.len(),
            forall|k: int| 0 <= k < voices@.len() && (#[trigger] voices@[k]).enabled
                ==> spec_rhythm_config_ok(voices@[k]),
            0 <= sample_position_start,
            sample_position_start + num_samples <= u32::MAX,
        ensures
            final(self).rhythms@.len() == voices@.len(),
            forall|k: int| 0 <= k < voices@.len() && !(#[trigger] voices@[k]).enabled
                ==> final(self).rhythms@[k] == old(self).rhythms@[k],
            forall|k: int| 0 <= k < voices@.len() && (#[trigger] voices@[k]).enabled ==> {
                let v = voices@[k];
                &&& Some(final(self).rhythms@[k].rhythm@) == spec_euclidean_rhythm(
                    v.num_notes as nat,
                    v.num_steps as nat,
                    v.offset_steps as nat,
                )
                &&& final(self).rhythms@[k].sequence.sequence_length == v.step_len_samples
                    * (v.num_steps as int)
                &&& final(self).rhythms@[k].sequence.note_events@ == spec_gate_events(
                    final(self).rhythms@[k].rhythm@,
                    v.step_len_samples as int,
                    final(self).rhythms@[k].rhythm@.len(),
                )
            },
            r@ == spec_block_events(
                voices@,
                final(self).rhythms@,
                sample_position_start as int,
                num_samples as nat,
            ),
    {
        let mut k: usize = 0;
        while k < voices.len()
            invariant
                k <= voices@.len(),
                voices@.len() == self.rhythms@.len(),
                forall|j: int| 0 <= j < voices@.len() && (#[trigger] voices@[j]).enabled
                    ==> spec_rhythm_config_ok(voices@[j]),
                forall|j: int| k <= j < voices@.len()
                    ==> self.rhythms@[j] == old(self).rhythms@[j],
                forall|j: int| 0 <= j < k && !(#[trigger] voices@[j]).enabled
                    ==> self.rhythms@[j] == old(self).rhythms@[j],
                forall|j: int| 0 <= j < k && (#[trigger] voices@[j]).enabled ==> {
                    let v = voices@[j];
                    &&& Some(self.rhythms@[j].rhythm@) == spec_euclidean_rhythm(
                        v.num_notes as nat,
                        v.num_steps as nat,
                        v.offset_steps as nat,
                    )
                    &&& self.rhythms@[j].sequence.sequence_length == v.step_len_samples
                        * (v.num_steps as int)
                    &&& self.rhythms@[j].sequence.note_events@ == spec_gate_events(
                        self.rhythms@[j].rhythm@,
                        v.step_len_samples as int,
                        self.rhythms@[j].rhythm@.len(),
                    )
                },
            decreases voices@.len() - k,
        {
            let v = voices[k];
            if v.enabled {
                let pattern = euclidean_rhythm(v.num_notes, v.num_steps, v.offset_steps);
                proof {
                    lemma_euclidean_rhythm_len(
                        v.num_notes as nat,
                        v.num_steps as nat,
                        v.offset_steps as nat,
                    );
                }
                let mut rebuilt = Sequence::default();
                Self::update_sequence(&mut rebuilt, &pattern, v.num_steps as i64, v.step_len_samples);
                self.rhythms.set(k, EuclidianRhythm { rhythm: pattern, sequence: rebuilt });
            }
            k = k + 1;
        }

        let ghost rebuilt_rhythms = self.rhythms@;
        let mut out: Vec<NoteEvent> = Vec::new();
        let mut i: usize = 0;
        while i < num_samples
            invariant
                i <= num_samples,
                0 <= sample_position_start,
                sample_position_start + num_samples <= u32::MAX,
                voices@.len() == self.rhythms@.len(),
                self.rhythms@ == rebuilt_rhythms,
                out@ == spec_block_events(
                    voices@,
                    self.rhythms@,
                    sample_position_start as int,
                    i as nat,
                ),
            decreases num_samples - i,
        {
            let sample_position = sample_position_start + i as i64;
            let mut v: usize = 0;
            while v < voices.len()
                invariant
                    v <= voices@.len(),
                    0 <= sample_position <= u32::MAX,
                    voices@.len() == self.rhythms@.len(),
                    self.rhythms@ == rebuilt_rhythms,
                    out@ == spec_block_events(
                        voices@,
                        self.rhythms@,
                        sample_position_start as int,
                        i as nat,
                    ) + spec_voices_events_upto(
                        voices@,
                        self.rhythms@,
                        sample_position as int,
                        v as nat,
                    ),
                decreases voices@.len() - v,
            {
                if voices[v].enabled {
                    let mut fired = Self::sample_sequence(
                        voices[v].note,
                        voices[v].velocity,
                        sample_position,
                        &self.rhythms[v].sequence,
                    );
                    out.append(&mut fired);
                }
                proof {
                    assert(out@ =~= spec_block_events(
                        voices@,
                        self.rhythms@,
                        sample_position_start as int,
                        i as nat,
                    ) + spec_voices_events_upto(
                        voices@,
                        self.rhythms@,
                        sample_position as int,
                        (v + 1) as nat,
                    ));
                }
                v = v + 1;
            }
            proof {
                assert(out@ =~= spec_block_events(
                    voices@,
                    self.rhythms@,
                    sample_position_start as int,
                    (i + 1) as nat,
                ));
            }
            i = i + 1;
        }
        out
    }
}

} // verus!
