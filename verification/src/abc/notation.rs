//! Writing the notes of a contour bar by bar.

use crate::abc::key_converter::{
    accidental, contour_to_midi_durations, detect_key_and_mode, detected_key, detected_mode,
    ended_notes, get_abc_vocab, get_mode_as_abc, held, is_accidental, lemma_held_bound,
    lemma_vocab_note_sounds, letter_index, letter_place, midi_durations, mode_text, note_text, parse_rel_major, relative_major, vocab_note,
};
use crate::abc::key_types::{
    is_note_letter, key_text, valid_key, AbcNote, MusicalKey, PitchModifier,
};
use crate::decode::types::{valid_contour, valid_pitch, Contour, Pitch};
use crate::text::{push_char, texts};
use vstd::prelude::*;

verus! {

/// Notes in a bar before the space in its middle.
pub const NOTES_PER_HALF_BAR: usize = 4;

/// What a full bar holds: two groups of notes and the space between them.
pub const ITEMS_PER_BAR: usize = 9;

/// Bars written on one line.
pub const BARS_PER_LINE: usize = 4;

/// What has been written of a tune: the bars that are full, the bar being
/// written and the number of notes and spaces in it, and, for each letter
/// in each case, the modifier it was last written with in this bar.
pub struct Written {
    pub bars: Seq<Seq<char>>,
    pub bar: Seq<char>,
    pub items: nat,
    pub marked: Seq<Option<PitchModifier>>,
}

/// No letter has been written with a modifier.
pub open spec fn no_marks() -> Seq<Option<PitchModifier>> {
    Seq::new(14, |slot: int| None)
}

/// Nothing written yet.
pub open spec fn nothing_written() -> Written {
    Written { bars: Seq::empty(), bar: Seq::empty(), items: 0, marked: no_marks() }
}

/// Where the modifier of the letter of `note` is remembered: capital and small letters apart.
pub open spec fn mark_slot(note: AbcNote) -> int {
    letter_place(note.letter) + if note.octave >= 5 {
        7int
    } else {
        0int
    }
}

/// How ABC notation writes the length of a note behind it: nothing for one quaver.
pub open spec fn duration_text(duration: u32) -> Seq<char> {
    if duration == 2 {
        seq!['2']
    } else if duration == 3 {
        seq!['3']
    } else if duration == 4 {
        seq!['4']
    } else {
        Seq::empty()
    }
}

/// The room made for the next note: after four notes a space is written,
/// and a full bar is closed, which also forgets the modifiers written in it.
pub open spec fn room_made(written: Written) -> Written {
    let spaced = if written.items == NOTES_PER_HALF_BAR {
        Written { bar: written.bar.push(' '), items: written.items + 1, ..written }
    } else {
        written
    };
    if spaced.items >= ITEMS_PER_BAR {
        Written {
            bars: spaced.bars.push(spaced.bar),
            bar: Seq::empty(),
            items: 0,
            marked: no_marks(),
        }
    } else {
        spaced
    }
}

/// Whether a note must be written with its modifier: an accidental whose
/// letter has no modifier yet in this bar, or any note whose letter was
/// last written with another modifier.
pub open spec fn needs_modifier(
    marked: Seq<Option<PitchModifier>>,
    note: AbcNote,
    is_accidental: bool,
) -> bool {
    match marked[mark_slot(note)] {
        None => is_accidental,
        Some(modifier) => modifier != note.modifier,
    }
}

/// What is written once the note of pitch `midi` and length `duration` is added, in the major key `key`.
pub open spec fn note_written(written: Written, key: MusicalKey, midi: Pitch, duration: u32) -> Written {
    let room = room_made(written);
    let note = vocab_note(key, midi as int);
    let with_modifier = needs_modifier(room.marked, note, accidental(key, midi));
    Written {
        bars: room.bars,
        bar: room.bar + note_text(note, with_modifier) + duration_text(duration),
        items: room.items + 1,
        marked: if with_modifier {
            room.marked.update(mark_slot(note), Some(note.modifier))
        } else {
            room.marked
        },
    }
}

/// What is written once the first `upto` of `notes` are added.
pub open spec fn notes_written(notes: Seq<(Pitch, u32)>, key: MusicalKey, upto: nat) -> Written
    decreases upto,
{
    if upto == 0 {
        nothing_written()
    } else {
        note_written(
            notes_written(notes, key, (upto - 1) as nat),
            key,
            notes[upto - 1].0,
            notes[upto - 1].1,
        )
    }
}

/// All bars of what is written, the bar being written last unless it is empty.
pub open spec fn all_bars(written: Written) -> Seq<Seq<char>> {
    if written.items > 0 {
        written.bars.push(written.bar)
    } else {
        written.bars
    }
}

/// The first `upto` bars, each closed by a bar line, four to a line.
pub open spec fn bar_lines(bars: Seq<Seq<char>>, upto: nat) -> Seq<char>
    decreases upto,
{
    if upto == 0 {
        Seq::empty()
    } else {
        let before = bar_lines(bars, (upto - 1) as nat);
        let opened = if upto - 1 > 0 && (upto - 1) % (BARS_PER_LINE as int) == 0 {
            before.push('\n')
        } else {
            before
        };
        (opened + bars[upto - 1]).push(' ').push('|')
    }
}

/// The key line of a tune in `key` and `mode`.
pub open spec fn key_line(key_name: Seq<char>, mode_name: Seq<char>) -> Seq<char> {
    (seq!['K', ':'] + key_name + mode_name).push('\n')
}

/// A contour in ABC notation: the key line of the key and mode that the
/// contour matches best, then the notes of the contour, written in the
/// major key with the same notes.
pub open spec fn abc_text(contour: Seq<Pitch>) -> Seq<char> {
    let key = detected_key(contour);
    let mode = detected_mode(contour);
    let notes = midi_durations(contour);
    let bars = all_bars(notes_written(notes, relative_major(key, mode), notes.len()));
    key_line(key_text(key), mode_text(mode)) + bar_lines(bars, bars.len())
}

/// The notes of a valid contour are on pitches of the contour and last one to four quavers.
pub proof fn lemma_ended_notes_valid(contour: Seq<Pitch>, upto: nat)
    requires
        valid_contour(contour),
        upto <= contour.len(),
    ensures
        forall|r: int|
            0 <= r < ended_notes(contour, upto).len() ==> valid_pitch(
                (#[trigger] ended_notes(contour, upto)[r]).0,
            ) && 1 <= ended_notes(contour, upto)[r].1 <= 4,
    decreases upto,
{
    if upto > 0 {
        lemma_ended_notes_valid(contour, (upto - 1) as nat);
        lemma_held_bound(contour, (upto - 1) as nat);
        let before = ended_notes(contour, (upto - 1) as nat);
        let now = ended_notes(contour, upto);
        assert(valid_pitch(contour[0]));
        if upto >= 2 {
            assert(valid_pitch(contour[upto - 2]));
        }
        assert forall|r: int| 0 <= r < now.len() implies valid_pitch((#[trigger] now[r]).0) && 1
            <= now[r].1 <= 4 by {
            if r < before.len() {
                assert(now[r] == before[r]);
            } else {
                assert(upto >= 2);
                assert(now[r] == (contour[upto - 2], held(contour, (upto - 1) as nat) as u32));
            }
        }
    }
}

/// The notes of a valid contour are on pitches of the contour and last one to four quavers.
pub proof fn lemma_midi_durations_valid(contour: Seq<Pitch>)
    requires
        valid_contour(contour),
        contour.len() > 0,
    ensures
        forall|r: int|
            0 <= r < midi_durations(contour).len() ==> valid_pitch(
                (#[trigger] midi_durations(contour)[r]).0,
            ) && 1 <= midi_durations(contour)[r].1 <= 4,
{
    lemma_ended_notes_valid(contour, contour.len());
    lemma_held_bound(contour, contour.len());
    assert(valid_pitch(contour[contour.len() - 1]));
}

/// What is being written of a tune.
struct Sheet {
    bars: Vec<String>,
    bar: String,
    items: usize,
    marked: Vec<Option<PitchModifier>>,
}

impl Sheet {
    /// What the sheet holds.
    spec fn written(&self) -> Written {
        Written {
            bars: texts(self.bars@),
            bar: self.bar@,
            items: self.items as nat,
            marked: self.marked@,
        }
    }

    /// The sheet remembers a modifier, or none, for each letter in each case,
    /// and the bar being written is not over-full.
    spec fn wf(&self) -> bool {
        self.marked@.len() == 14 && self.items <= ITEMS_PER_BAR
    }
}

/// Fourteen places without a modifier.
fn fresh_marks() -> (marked: Vec<Option<PitchModifier>>)
    ensures
        marked@ == no_marks(),
{
    let mut marked: Vec<Option<PitchModifier>> = Vec::new();
    let mut slot: usize = 0;
    while slot < 14
        invariant
            slot <= 14,
            marked@.len() == slot,
            forall|s: int| 0 <= s < slot ==> (#[trigger] marked@[s]) is None,
        decreases 14 - slot,
    {
        marked.push(None);
        slot += 1;
    }
    assert(marked@ =~= no_marks());
    marked
}

/// Adds a note to the sheet.
fn write_note(
    sheet: &mut Sheet,
    note: AbcNote,
    duration: u32,
    is_accidental: bool,
    Ghost(key): Ghost<MusicalKey>,
    Ghost(midi): Ghost<Pitch>,
)
    requires
        old(sheet).wf(),
        is_note_letter(note.letter),
        note == vocab_note(key, midi as int),
        is_accidental == accidental(key, midi),
    ensures
        final(sheet).wf(),
        final(sheet).written() == note_written(old(sheet).written(), key, midi, duration),
{
    if sheet.items == NOTES_PER_HALF_BAR {
        push_char(&mut sheet.bar, ' ');
        sheet.items = sheet.items + 1;
    }
    if sheet.items >= ITEMS_PER_BAR {
        let mut full = String::new();
        std::mem::swap(&mut full, &mut sheet.bar);
        let ghost before = sheet.bars@;
        sheet.bars.push(full);
        assert(texts(sheet.bars@) =~= texts(before).push(full@));
        sheet.marked = fresh_marks();
        sheet.items = 0;
    }
    assert(sheet.written() == room_made(old(sheet).written()));
    let slot = letter_index(note.letter) + if note.octave >= 5 {
        7
    } else {
        0
    };
    assert(slot == mark_slot(note));
    let with_modifier = match sheet.marked[slot] {
        None => is_accidental,
        Some(modifier) => modifier != note.modifier,
    };
    if with_modifier {
        sheet.marked.set(slot, Some(note.modifier));
    }
    let text = note.get_as_abc(with_modifier);
    sheet.bar.append(text.as_str());
    if duration == 2 {
        push_char(&mut sheet.bar, '2');
    } else if duration == 3 {
        push_char(&mut sheet.bar, '3');
    } else if duration == 4 {
        push_char(&mut sheet.bar, '4');
    }
    sheet.items = sheet.items + 1;
    assert(sheet.bar@ =~= room_made(old(sheet).written()).bar + note_text(note, with_modifier)
        + duration_text(duration));
}

/// Writes a contour in ABC notation.
///
/// Consecutive quavers of one pitch become one note; the key and the mode
/// are those that the pitches of the contour match best; the notes are
/// written four and four to the bar and four bars to the line, with a
/// modifier where the key or an earlier note of the bar would mislead.
pub fn contour_to_abc(contour: &Contour) -> (text: String)
    requires
        contour@.len() > 0,
        valid_contour(contour@),
    ensures
        text@ == abc_text(contour@),
{
    let notes = contour_to_midi_durations(contour);
    let (key, mode) = detect_key_and_mode(contour);
    let rel_major = parse_rel_major(key, mode);
    let abc_vocab = get_abc_vocab(rel_major);
    proof {
        lemma_midi_durations_valid(contour@);
    }
    let mut sheet = Sheet {
        bars: Vec::new(),
        bar: String::new(),
        items: 0,
        marked: fresh_marks(),
    };
    assert(texts(sheet.bars@) =~= Seq::<Seq<char>>::empty());
    let mut r: usize = 0;
    while r < notes.len()
        invariant
            r <= notes@.len(),
            notes@ == midi_durations(contour@),
            forall|r: int|
                0 <= r < notes@.len() ==> valid_pitch((#[trigger] notes@[r]).0) && 1
                    <= notes@[r].1 <= 4,
            valid_key(rel_major),
            abc_vocab@.len() == 48,
            forall|p: int|
                0 <= p < 48 ==> (#[trigger] abc_vocab@[p]) == vocab_note(rel_major, 48 + p),
            sheet.wf(),
            sheet.written() == notes_written(notes@, rel_major, r as nat),
        decreases notes@.len() - r,
    {
        let (midi, duration) = notes[r];
        assert(valid_pitch(notes@[r as int].0));
        let abc_note = abc_vocab[(midi - 48) as usize];
        proof {
            assert(abc_note == vocab_note(rel_major, 48 + (midi - 48)));
            lemma_vocab_note_sounds(rel_major, midi as int);
        }
        let off_scale = is_accidental(rel_major, midi);
        write_note(&mut sheet, abc_note, duration, off_scale, Ghost(rel_major), Ghost(midi));
        r += 1;
    }
    if sheet.items > 0 {
        let mut last = String::new();
        std::mem::swap(&mut last, &mut sheet.bar);
        let ghost before = sheet.bars@;
        sheet.bars.push(last);
        assert(texts(sheet.bars@) =~= texts(before).push(last@));
    }
    let ghost bars = all_bars(notes_written(notes@, rel_major, notes@.len()));
    assert(texts(sheet.bars@) == bars);
    let mut output_abc = String::new();
    push_char(&mut output_abc, 'K');
    push_char(&mut output_abc, ':');
    output_abc.append(key.to_abc().as_str());
    output_abc.append(get_mode_as_abc(mode).as_str());
    push_char(&mut output_abc, '\n');
    let ghost head = key_line(key_text(key), mode_text(mode));
    assert(output_abc@ =~= head);
    let mut bars_on_line: usize = 0;
    let mut b: usize = 0;
    while b < sheet.bars.len()
        invariant
            b <= sheet.bars@.len(),
            texts(sheet.bars@) == bars,
            bars_on_line <= BARS_PER_LINE,
            b == 0 ==> bars_on_line == 0,
            b > 0 ==> bars_on_line == (b - 1) % (BARS_PER_LINE as int) + 1,
            output_abc@ == head + bar_lines(bars, b as nat),
        decreases sheet.bars@.len() - b,
    {
        if bars_on_line >= BARS_PER_LINE {
            push_char(&mut output_abc, '\n');
            bars_on_line = 0;
        }
        assert(bars[b as int] == sheet.bars@[b as int]@);
        output_abc.append(sheet.bars[b].as_str());
        push_char(&mut output_abc, ' ');
        push_char(&mut output_abc, '|');
        bars_on_line += 1;
        b += 1;
        assert(output_abc@ =~= head + bar_lines(bars, b as nat));
    }
    output_abc
}

} // verus!
