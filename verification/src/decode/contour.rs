//! From the best pitch of every frame to notes, and from notes to a contour
//! of quavers at a chosen tempo.

use crate::decode::types::{valid_contour, valid_pitch, Contour, LatticeIndex, LatticePath, Pitch};
use crate::feature::types::{valid_features, valid_frame, Features, Frame};
use crate::ff_config::{ENERGY_MAX, FRAMES_MAX, MIDI_LOW, SPEC_WINDOW_SIZE};
use vstd::prelude::*;

verus! {

/// Slowest tempo tried, in beats per minute.
pub const TEMPO_LOW: u32 = 60;

/// Upper bound of the tempos tried, itself not tried.
pub const TEMPO_HIGH: u32 = 240;

/// Distance between two tempos tried.
pub const TEMPO_STEP: u32 = 5;

/// Number of tempos tried.
pub const TEMPO_COUNT: usize = 36;

/// Fewest notes that count as music.
pub const MIN_NOTE_COUNT: usize = 4;

/// A run of frames on one pitch: the pitch, the number of frames, and the
/// energy of the pitch summed over the frames.
#[derive(Debug, Clone, Copy, PartialEq, Eq, Structural)]
pub struct Note {
    pub pitch: Pitch,
    pub duration: usize,
    pub energy: u64,
}

/// A note with its length in quavers at some tempo.
#[derive(Debug, Clone, Copy, PartialEq, Eq, Structural)]
pub struct QuantisedNote {
    pub pitch: Pitch,
    pub duration: usize,
    pub energy: u64,
    pub quavers_quant: u64,
}

/// Which notes are too weak or too short to count.
#[derive(Debug, Clone, Copy, PartialEq, Eq, Structural)]
pub struct NoteFilter {
    /// Least mean energy per frame of a note that counts.
    pub min_power: u64,
    /// Least number of frames of a note that counts.
    pub min_duration: usize,
}

/// Whether every index of `path` is the index of a pitch.
pub open spec fn valid_lattice_path(path: Seq<LatticeIndex>) -> bool {
    forall|t: int| 0 <= t < path.len() ==> (#[trigger] path[t]) < 48
}

/// The notes of the first `upto` frames of `path`: each maximal run of one
/// pitch is one note, whose energy is the energy of that pitch over the run.
pub open spec fn notes_upto(path: Seq<LatticeIndex>, features: Seq<Frame>, upto: nat) -> Seq<Note>
    decreases upto,
{
    if upto == 0 {
        Seq::empty()
    } else {
        let before = notes_upto(path, features, (upto - 1) as nat);
        let index = path[upto - 1];
        let energy = features[upto - 1][index as int];
        if upto >= 2 && path[upto - 2] == index {
            before.update(
                before.len() - 1,
                Note {
                    pitch: before.last().pitch,
                    duration: (before.last().duration + 1) as usize,
                    energy: (before.last().energy + energy) as u64,
                },
            )
        } else {
            before.push(Note { pitch: (MIDI_LOW + index) as u32, duration: 1, energy })
        }
    }
}

/// Whether `note` counts: it lasts at least the least duration, and its mean
/// energy per frame is not below the least power.
pub open spec fn note_counts(note: Note, filter: NoteFilter) -> bool {
    note.duration >= filter.min_duration && note.energy >= filter.min_power * note.duration
}

/// Those of the first `upto` notes that count, in their order.
pub open spec fn counting_notes(notes: Seq<Note>, filter: NoteFilter, upto: nat) -> Seq<Note>
    decreases upto,
{
    if upto == 0 {
        Seq::empty()
    } else {
        let before = counting_notes(notes, filter, (upto - 1) as nat);
        if note_counts(notes[upto - 1], filter) {
            before.push(notes[upto - 1])
        } else {
            before
        }
    }
}

/// The length of a note of `duration` frames in quavers, times `quaver_divisor`.
///
/// A quaver lasts `(sample_rate / SPEC_WINDOW_SIZE) / (2 * bpm / 60)` frames.
pub open spec fn quaver_dividend(duration: nat, bpm: nat) -> nat {
    duration * (2 * SPEC_WINDOW_SIZE as nat) * bpm
}

/// What `quaver_dividend` is divided by to give quavers.
pub open spec fn quaver_divisor(sample_rate: nat) -> nat {
    60 * sample_rate
}

/// The whole number of quavers given to a note of `duration` frames: none if
/// the note lasts a fifth of a quaver or less, else the nearest whole
/// number, a half counting upward, and at least one.
pub open spec fn quantised_quavers(duration: nat, bpm: nat, sample_rate: nat) -> nat {
    let dividend = quaver_dividend(duration, bpm);
    let divisor = quaver_divisor(sample_rate);
    if 5 * dividend <= divisor {
        0
    } else {
        let nearest = (2 * dividend + divisor) / (2 * divisor);
        if nearest < 1 {
            1
        } else {
            nearest
        }
    }
}

/// Each of `notes` with its length in quavers at the tempo `bpm`.
pub open spec fn quantised(notes: Seq<Note>, bpm: nat, sample_rate: nat) -> Seq<QuantisedNote> {
    Seq::new(
        notes.len(),
        |i: int|
            QuantisedNote {
                pitch: notes[i].pitch,
                duration: notes[i].duration,
                energy: notes[i].energy,
                quavers_quant: quantised_quavers(notes[i].duration as nat, bpm, sample_rate) as u64,
            },
    )
}

/// The contour of the first `upto` notes: the pitch of each, once per quaver.
pub open spec fn expanded(notes: Seq<QuantisedNote>, upto: nat) -> Seq<Pitch>
    decreases upto,
{
    if upto == 0 {
        Seq::empty()
    } else {
        expanded(notes, (upto - 1) as nat) + Seq::new(
            notes[upto - 1].quavers_quant as nat,
            |q: int| notes[upto - 1].pitch,
        )
    }
}

/// The tempos tried, slowest first.
pub open spec fn tempo_candidates() -> Seq<u32> {
    Seq::new(TEMPO_COUNT as nat, |i: int| (TEMPO_LOW + TEMPO_STEP * i) as u32)
}

/// Whether `i` is the index of the largest of `scores`, the first such index if several tie.
pub open spec fn is_first_argmax(scores: Seq<i64>, i: int) -> bool {
    &&& 0 <= i < scores.len()
    &&& forall|j: int| 0 <= j < scores.len() ==> (#[trigger] scores[j]) <= scores[i]
    &&& forall|j: int| 0 <= j < i ==> (#[trigger] scores[j]) < scores[i]
}

/// Whether the notes are notes of a valid path over a valid buffer: pitches
/// in range, durations within the buffer, energies within what the frames can hold.
pub open spec fn valid_notes(notes: Seq<Note>) -> bool {
    forall|i: int|
        0 <= i < notes.len() ==> valid_pitch((#[trigger] notes[i]).pitch) && 1 <= notes[i].duration
            <= FRAMES_MAX && notes[i].energy <= notes[i].duration * ENERGY_MAX
}

/// The notes of a valid path: there are at most as many as frames, each is
/// valid, and the last one is on the pitch of the last frame.
pub proof fn lemma_notes_upto(path: Seq<LatticeIndex>, features: Seq<Frame>, upto: nat)
    requires
        valid_lattice_path(path),
        valid_features(features),
        path.len() == features.len(),
        upto <= path.len(),
    ensures
        notes_upto(path, features, upto).len() <= upto,
        upto > 0 ==> notes_upto(path, features, upto).len() > 0,
        upto > 0 ==> notes_upto(path, features, upto).last().pitch == MIDI_LOW + path[upto - 1],
        forall|i: int|
            0 <= i < notes_upto(path, features, upto).len() ==> valid_pitch(
                (#[trigger] notes_upto(path, features, upto)[i]).pitch,
            ) && 1 <= notes_upto(path, features, upto)[i].duration <= upto && notes_upto(
                path,
                features,
                upto,
            )[i].energy <= notes_upto(path, features, upto)[i].duration * ENERGY_MAX,
    decreases upto,
{
    if upto > 0 {
        lemma_notes_upto(path, features, (upto - 1) as nat);
        assert(valid_frame(features[upto - 1]));
        assert(features[upto - 1][path[upto - 1] as int] <= ENERGY_MAX);
        let before = notes_upto(path, features, (upto - 1) as nat);
        if upto >= 2 && path[upto - 2] == path[upto - 1] {
            let last = before.last();
            assert((last.duration + 1) * ENERGY_MAX == last.duration * ENERGY_MAX + ENERGY_MAX)
                by (nonlinear_arith);
        }
    }
}

/// Every note is on the pitch of a frame of the path.
pub proof fn lemma_notes_follow_path(path: Seq<LatticeIndex>, features: Seq<Frame>, upto: nat)
    requires
        valid_lattice_path(path),
        upto <= path.len(),
    ensures
        upto > 0 ==> notes_upto(path, features, upto).len() > 0,
        forall|r: int|
            0 <= r < notes_upto(path, features, upto).len() ==> exists|t: int|
                0 <= t < upto && (#[trigger] notes_upto(path, features, upto)[r]).pitch == MIDI_LOW
                    + #[trigger] path[t],
    decreases upto,
{
    if upto > 0 {
        lemma_notes_follow_path(path, features, (upto - 1) as nat);
        let before = notes_upto(path, features, (upto - 1) as nat);
        let now = notes_upto(path, features, upto);
        assert forall|r: int| 0 <= r < now.len() implies exists|t: int|
            0 <= t < upto && (#[trigger] now[r]).pitch == MIDI_LOW + #[trigger] path[t] by {
            if r < before.len() {
                let t = choose|t: int|
                    0 <= t < upto - 1 && (#[trigger] before[r]).pitch == MIDI_LOW
                        + #[trigger] path[t];
                assert(now[r].pitch == before[r].pitch);
                assert(0 <= t < upto && now[r].pitch == MIDI_LOW + path[t]);
            } else {
                let index = path[upto - 1];
                assert(index < 48);
                assert(!(upto >= 2 && path[upto - 2] == index)) by {
                    if upto >= 2 && path[upto - 2] == index {
                        assert(now.len() == before.len());
                    }
                }
                assert(now[r] == before.push(
                    Note {
                        pitch: (MIDI_LOW + index) as u32,
                        duration: 1,
                        energy: features[upto as int - 1][index as int],
                    },
                )[r]);
                assert(0 <= upto - 1 < upto && now[r].pitch == MIDI_LOW + path[upto - 1]);
            }
        }
    }
}

/// Every pitch of a contour is the pitch of one of its notes.
pub proof fn lemma_contour_follows_notes(notes: Seq<QuantisedNote>, upto: nat)
    requires
        upto <= notes.len(),
    ensures
        forall|i: int|
            0 <= i < expanded(notes, upto).len() ==> exists|r: int|
                0 <= r < upto && (#[trigger] notes[r]).pitch == #[trigger] expanded(notes, upto)[i],
    decreases upto,
{
    if upto > 0 {
        lemma_contour_follows_notes(notes, (upto - 1) as nat);
        let before = expanded(notes, (upto - 1) as nat);
        let now = expanded(notes, upto);
        assert forall|i: int| 0 <= i < now.len() implies exists|r: int|
            0 <= r < upto && (#[trigger] notes[r]).pitch == #[trigger] now[i] by {
            if i < before.len() {
                let r = choose|r: int|
                    0 <= r < upto - 1 && (#[trigger] notes[r]).pitch == #[trigger] before[i];
                assert(now[i] == before[i]);
                assert(0 <= r < upto && notes[r].pitch == now[i]);
            } else {
                assert(0 <= upto - 1 < upto && notes[upto - 1].pitch == now[i]);
            }
        }
    }
}

/// The pitch of a lattice index.
pub fn lattice_ind_to_pitch(li: &LatticeIndex) -> (pitch: Pitch)
    requires
        *li < 48,
    ensures
        pitch == MIDI_LOW + *li,
        valid_pitch(pitch),
{
    MIDI_LOW + *li as u32
}

/// Compresses a path into notes: one note for each maximal run of one pitch.
pub fn notes_from_lattice_path(lattice_path: &LatticePath, features: &Features) -> (notes: Vec<Note>)
    requires
        valid_lattice_path(lattice_path@),
        valid_features(features@),
        lattice_path@.len() == features@.len(),
    ensures
        notes@ == notes_upto(lattice_path@, features@, lattice_path@.len()),
        valid_notes(notes@),
{
    let mut notes: Vec<Note> = Vec::new();
    let mut t: usize = 0;
    while t < lattice_path.len()
        invariant
            t <= lattice_path@.len(),
            valid_lattice_path(lattice_path@),
            valid_features(features@),
            lattice_path@.len() == features@.len(),
            notes@ == notes_upto(lattice_path@, features@, t as nat),
        decreases lattice_path@.len() - t,
    {
        let index = lattice_path[t];
        assert(valid_frame(features@[t as int]));
        let energy = features[t][index];
        proof {
            lemma_notes_upto(lattice_path@, features@, t as nat);
            lemma_notes_upto(lattice_path@, features@, (t + 1) as nat);
        }
        if t >= 1 && lattice_path[t - 1] == index {
            let last = notes[notes.len() - 1];
            assert(last.duration * ENERGY_MAX <= FRAMES_MAX * ENERGY_MAX) by (nonlinear_arith)
                requires
                    last.duration <= FRAMES_MAX,
            ;
            let longer = Note {
                pitch: last.pitch,
                duration: last.duration + 1,
                energy: last.energy + energy,
            };
            let at = notes.len() - 1;
            notes.set(at, longer);
        } else {
            notes.push(Note { pitch: lattice_ind_to_pitch(&index), duration: 1, energy });
        }
        t += 1;
    }
    proof {
        lemma_notes_upto(lattice_path@, features@, lattice_path@.len());
    }
    notes
}

/// Drops the notes that are too weak or too short to count.
pub fn filter_notes(notes: &Vec<Note>, filter: &NoteFilter) -> (kept: Vec<Note>)
    ensures
        kept@ == counting_notes(notes@, *filter, notes@.len()),
        valid_notes(notes@) ==> valid_notes(kept@),
{
    let mut kept: Vec<Note> = Vec::new();
    let mut i: usize = 0;
    while i < notes.len()
        invariant
            i <= notes@.len(),
            kept@ == counting_notes(notes@, *filter, i as nat),
            valid_notes(notes@) ==> valid_notes(kept@),
        decreases notes@.len() - i,
    {
        let note = notes[i];
        assert(filter.min_power * note.duration <= 0xffff_ffff_ffff_ffff * 0xffff_ffff_ffff_ffff)
            by (nonlinear_arith)
            requires
                filter.min_power <= 0xffff_ffff_ffff_ffff,
                note.duration <= 0xffff_ffff_ffff_ffff,
        ;
        let strong: bool = note.energy as u128 >= filter.min_power as u128 * note.duration as u128;
        if note.duration >= filter.min_duration && strong {
            kept.push(note);
        }
        i += 1;
    }
    kept
}

/// The whole number of quavers given to a note of `duration` frames at the tempo `bpm`.
pub fn quantise_duration(duration: usize, bpm: u32, sample_rate: u32) -> (quavers: u64)
    requires
        duration <= FRAMES_MAX,
        sample_rate > 0,
    ensures
        quavers == quantised_quavers(duration as nat, bpm as nat, sample_rate as nat),
{
    assert(duration * (2 * SPEC_WINDOW_SIZE) <= FRAMES_MAX * (2 * SPEC_WINDOW_SIZE))
        by (nonlinear_arith)
        requires
            duration <= FRAMES_MAX,
    ;
    assert(duration * (2 * SPEC_WINDOW_SIZE) * bpm <= FRAMES_MAX * (2 * SPEC_WINDOW_SIZE)
        * u32::MAX) by (nonlinear_arith)
        requires
            duration * (2 * SPEC_WINDOW_SIZE) <= FRAMES_MAX * (2 * SPEC_WINDOW_SIZE),
            bpm <= u32::MAX,
    ;
    let dividend: u128 = duration as u128 * (2 * SPEC_WINDOW_SIZE as u128) * bpm as u128;
    let divisor: u128 = 60 * sample_rate as u128;
    if 5 * dividend <= divisor {
        0
    } else {
        let nearest: u128 = (2 * dividend + divisor) / (2 * divisor);
        assert(nearest <= 2 * dividend + divisor) by (nonlinear_arith)
            requires
                nearest == (2 * dividend + divisor) / (2 * divisor),
                divisor >= 1,
                dividend >= 0,
        ;
        assert(nearest <= dividend) by (nonlinear_arith)
            requires
                nearest == (2 * dividend + divisor) / (2 * divisor),
                divisor >= 60,
                5 * dividend > divisor,
        ;
        if nearest < 1 {
            1
        } else {
            nearest as u64
        }
    }
}

/// Gives each note its length in quavers at the tempo `bpm`.
pub fn quantise_notes(notes: &Vec<Note>, bpm: u32, sample_rate: u32) -> (quantised_notes: Vec<
    QuantisedNote,
>)
    requires
        valid_notes(notes@),
        sample_rate > 0,
    ensures
        quantised_notes@ == quantised(notes@, bpm as nat, sample_rate as nat),
{
    let mut out: Vec<QuantisedNote> = Vec::new();
    let mut i: usize = 0;
    while i < notes.len()
        invariant
            i <= notes@.len(),
            valid_notes(notes@),
            sample_rate > 0,
            out@.len() == i,
            forall|j: int|
                0 <= j < i ==> (#[trigger] out@[j]) == quantised(
                    notes@,
                    bpm as nat,
                    sample_rate as nat,
                )[j],
        decreases notes@.len() - i,
    {
        let note = notes[i];
        out.push(
            QuantisedNote {
                pitch: note.pitch,
                duration: note.duration,
                energy: note.energy,
                quavers_quant: quantise_duration(note.duration, bpm, sample_rate),
            },
        );
        i += 1;
    }
    assert(out@ =~= quantised(notes@, bpm as nat, sample_rate as nat));
    out
}

/// Writes out the contour of quantised notes: the pitch of each note, once per quaver.
pub fn contour_from_notes(quantised_notes: &Vec<QuantisedNote>) -> (contour: Contour)
    ensures
        contour@ == expanded(quantised_notes@, quantised_notes@.len()),
        (forall|i: int|
            0 <= i < quantised_notes@.len() ==> valid_pitch((#[trigger] quantised_notes@[i]).pitch))
            ==> valid_contour(contour@),
{
    let mut contour: Vec<Pitch> = Vec::new();
    let mut i: usize = 0;
    while i < quantised_notes.len()
        invariant
            i <= quantised_notes@.len(),
            contour@ == expanded(quantised_notes@, i as nat),
            (forall|i: int|
                0 <= i < quantised_notes@.len() ==> valid_pitch(
                    (#[trigger] quantised_notes@[i]).pitch,
                )) ==> valid_contour(contour@),
        decreases quantised_notes@.len() - i,
    {
        let note = quantised_notes[i];
        let ghost before = contour@;
        let mut q: u64 = 0;
        while q < note.quavers_quant
            invariant
                q <= note.quavers_quant,
                contour@ == before + Seq::new(q as nat, |k: int| note.pitch),
            decreases note.quavers_quant - q,
        {
            contour.push(note.pitch);
            q += 1;
            assert(contour@ =~= before + Seq::new(q as nat, |k: int| note.pitch));
        }
        assert(contour@ =~= before + Seq::new(note.quavers_quant as nat, |k: int| note.pitch));
        i += 1;
    }
    contour
}

/// The tempos tried, slowest first.
pub fn tempos() -> (bpms: Vec<u32>)
    ensures
        bpms@ == tempo_candidates(),
{
    let mut bpms: Vec<u32> = Vec::new();
    let mut bpm: u32 = TEMPO_LOW;
    while bpm < TEMPO_HIGH
        invariant
            TEMPO_LOW <= bpm <= TEMPO_HIGH,
            bpm == TEMPO_LOW + TEMPO_STEP * bpms@.len(),
            bpms@.len() <= TEMPO_COUNT,
            forall|i: int| 0 <= i < bpms@.len() ==> (#[trigger] bpms@[i]) == TEMPO_LOW + TEMPO_STEP * i,
        decreases TEMPO_HIGH - bpm,
    {
        bpms.push(bpm);
        bpm = bpm + TEMPO_STEP;
    }
    assert(bpms@ =~= tempo_candidates());
    bpms
}

/// The index of the best of `scores`, the first one if several tie.
pub fn best_tempo(scores: &Vec<i64>) -> (best: usize)
    requires
        scores@.len() > 0,
    ensures
        is_first_argmax(scores@, best as int),
{
    let mut best: usize = 0;
    let mut i: usize = 1;
    while i < scores.len()
        invariant
            1 <= i <= scores@.len(),
            best < i,
            forall|j: int| 0 <= j < i ==> (#[trigger] scores@[j]) <= scores@[best as int],
            forall|j: int| 0 <= j < best ==> (#[trigger] scores@[j]) < scores@[best as int],
        decreases scores@.len() - i,
    {
        if scores[i] > scores[best] {
            best = i;
        }
        i += 1;
    }
    best
}

} // verus!
