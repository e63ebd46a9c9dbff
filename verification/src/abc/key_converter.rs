//! From a contour to a key, and from pitches to the notes of that key.

use crate::abc::key_types::{
    get_relative_midi, is_note_letter, letter_semitones, nameable_key, relative_midi, valid_key,
    AbcNote, AbcVocab, MusicalKey, MusicalKeySignature, MusicalMode, PitchModifier,
};
use crate::decode::types::{Contour, Pitch};
use crate::text::push_char;
use vstd::prelude::*;

verus! {

/// The major key that starts on the pitch class `pitch_class`.
pub open spec fn key_of_pitch_class(pitch_class: int) -> MusicalKey {
    if pitch_class == 0 {
        MusicalKey { letter: 'C', modifier: 0 }
    } else if pitch_class == 1 {
        MusicalKey { letter: 'C', modifier: 1 }
    } else if pitch_class == 2 {
        MusicalKey { letter: 'D', modifier: 0 }
    } else if pitch_class == 3 {
        MusicalKey { letter: 'E', modifier: -1i32 }
    } else if pitch_class == 4 {
        MusicalKey { letter: 'E', modifier: 0 }
    } else if pitch_class == 5 {
        MusicalKey { letter: 'F', modifier: 0 }
    } else if pitch_class == 6 {
        MusicalKey { letter: 'F', modifier: 1 }
    } else if pitch_class == 7 {
        MusicalKey { letter: 'G', modifier: 0 }
    } else if pitch_class == 8 {
        MusicalKey { letter: 'A', modifier: -1i32 }
    } else if pitch_class == 9 {
        MusicalKey { letter: 'A', modifier: 0 }
    } else if pitch_class == 10 {
        MusicalKey { letter: 'B', modifier: -1i32 }
    } else {
        MusicalKey { letter: 'B', modifier: 0 }
    }
}

/// The major key that starts on the pitch class `pitch_class`.
pub fn key_by_relative_midi(pitch_class: u32) -> (key: MusicalKey)
    requires
        pitch_class < 12,
    ensures
        key == key_of_pitch_class(pitch_class as int),
        nameable_key(key),
        relative_midi(key) == pitch_class,
{
    if pitch_class == 0 {
        MusicalKey { letter: 'C', modifier: 0 }
    } else if pitch_class == 1 {
        MusicalKey { letter: 'C', modifier: 1 }
    } else if pitch_class == 2 {
        MusicalKey { letter: 'D', modifier: 0 }
    } else if pitch_class == 3 {
        MusicalKey { letter: 'E', modifier: -1 }
    } else if pitch_class == 4 {
        MusicalKey { letter: 'E', modifier: 0 }
    } else if pitch_class == 5 {
        MusicalKey { letter: 'F', modifier: 0 }
    } else if pitch_class == 6 {
        MusicalKey { letter: 'F', modifier: 1 }
    } else if pitch_class == 7 {
        MusicalKey { letter: 'G', modifier: 0 }
    } else if pitch_class == 8 {
        MusicalKey { letter: 'A', modifier: -1 }
    } else if pitch_class == 9 {
        MusicalKey { letter: 'A', modifier: 0 }
    } else if pitch_class == 10 {
        MusicalKey { letter: 'B', modifier: -1 }
    } else {
        MusicalKey { letter: 'B', modifier: 0 }
    }
}

/// `count` times the character `c`.
pub open spec fn repeated(c: char, count: int) -> Seq<char> {
    Seq::new(
        if count > 0 {
            count as nat
        } else {
            0
        },
        |i: int| c,
    )
}

/// The lowercase of the letter of a note.
pub open spec fn lowercase_letter(letter: char) -> char {
    if letter == 'A' {
        'a'
    } else if letter == 'B' {
        'b'
    } else if letter == 'C' {
        'c'
    } else if letter == 'D' {
        'd'
    } else if letter == 'E' {
        'e'
    } else if letter == 'F' {
        'f'
    } else {
        'g'
    }
}

/// How ABC notation writes a modifier in front of a note: `=` for a
/// natural, a `^` for every semitone up, a `_` for every semitone down.
pub open spec fn modifier_text(modifier: PitchModifier) -> Seq<char> {
    if modifier > 0 {
        repeated('^', modifier as int)
    } else if modifier < 0 {
        repeated('_', -modifier)
    } else {
        seq!['=']
    }
}

/// The letter as ABC notation writes it in octave `octave`: lowercase from octave 5 on.
pub open spec fn letter_in_octave(letter: char, octave: i32) -> char {
    if octave >= 5 {
        lowercase_letter(letter)
    } else {
        letter
    }
}

/// How ABC notation marks the octave behind a note: a `'` for every octave
/// above the fifth, a `,` for every octave below the fourth.
pub open spec fn octave_text(octave: i32) -> Seq<char> {
    if octave >= 6 {
        repeated('\'', octave - 5)
    } else if octave <= 3 {
        repeated(',', 4 - octave)
    } else {
        Seq::empty()
    }
}

/// How ABC notation writes `note`, with its modifier in front if `apply_modifier`.
pub open spec fn note_text(note: AbcNote, apply_modifier: bool) -> Seq<char> {
    (if apply_modifier {
        modifier_text(note.modifier)
    } else {
        Seq::empty()
    }) + seq![letter_in_octave(note.letter, note.octave)] + octave_text(note.octave)
}

/// `count` times the character `c`.
fn repeat_char(c: char, count: i64) -> (text: String)
    ensures
        text@ == repeated(c, count as int),
{
    let mut text = String::new();
    let mut i: i64 = 0;
    while i < count
        invariant
            0 <= i,
            i <= count || count < 0,
            count < 0 ==> i == 0,
            text@ == repeated(c, i as int),
        decreases count - i,
    {
        push_char(&mut text, c);
        i += 1;
        assert(text@ =~= repeated(c, i as int));
    }
    assert(text@ =~= repeated(c, count as int));
    text
}

impl AbcNote {
    /// The modifier as ABC notation writes it in front of a note.
    pub fn get_modifier_abc(&self) -> (text: String)
        ensures
            text@ == modifier_text(self.modifier),
    {
        if self.modifier > 0 {
            repeat_char('^', self.modifier as i64)
        } else if self.modifier < 0 {
            repeat_char('_', -(self.modifier as i64))
        } else {
            let mut text = String::new();
            push_char(&mut text, '=');
            assert(text@ =~= seq!['=']);
            text
        }
    }

    /// The letter as ABC notation writes it in the octave of the note.
    pub fn get_letter_abc(&self) -> (text: String)
        requires
            is_note_letter(self.letter),
        ensures
            text@ == seq![letter_in_octave(self.letter, self.octave)],
    {
        let mut text = String::new();
        push_char(&mut text, self.letter_abc());
        assert(text@ =~= seq![letter_in_octave(self.letter, self.octave)]);
        text
    }

    /// The letter as ABC notation writes it in the octave of the note.
    pub fn letter_abc(&self) -> (letter: char)
        requires
            is_note_letter(self.letter),
        ensures
            letter == letter_in_octave(self.letter, self.octave),
    {
        if self.octave >= 5 {
            if self.letter == 'A' {
                'a'
            } else if self.letter == 'B' {
                'b'
            } else if self.letter == 'C' {
                'c'
            } else if self.letter == 'D' {
                'd'
            } else if self.letter == 'E' {
                'e'
            } else if self.letter == 'F' {
                'f'
            } else {
                'g'
            }
        } else {
            self.letter
        }
    }

    /// The octave as ABC notation marks it behind a note.
    pub fn get_octave_abc(&self) -> (text: String)
        ensures
            text@ == octave_text(self.octave),
    {
        if self.octave >= 6 {
            repeat_char('\'', self.octave as i64 - 5)
        } else if self.octave <= 3 {
            repeat_char(',', 4 - self.octave as i64)
        } else {
            String::new()
        }
    }

    /// The note as ABC notation writes it, with its modifier in front if `apply_modifier`.
    pub fn get_as_abc(&self, apply_modifier: bool) -> (text: String)
        requires
            is_note_letter(self.letter),
        ensures
            text@ == note_text(*self, apply_modifier),
    {
        let mut text = if apply_modifier {
            self.get_modifier_abc()
        } else {
            String::new()
        };
        let letter = self.get_letter_abc();
        let octave = self.get_octave_abc();
        text.append(letter.as_str());
        text.append(octave.as_str());
        text
    }
}

/// The pitch that came before the pitch at `i`; the first pitch comes before itself.
pub open spec fn previous_pitch(contour: Seq<Pitch>, i: int) -> Pitch {
    if i == 0 {
        contour[0]
    } else {
        contour[i - 1]
    }
}

/// For how many quavers the pitch at `upto - 1` has been held once the
/// first `upto` pitches are read: a note ends when the pitch changes, and
/// after four quavers at the latest.
pub open spec fn held(contour: Seq<Pitch>, upto: nat) -> nat
    decreases upto,
{
    if upto == 0 {
        0
    } else {
        let before = held(contour, (upto - 1) as nat);
        if contour[upto - 1] != previous_pitch(contour, upto - 1) || before >= 4 {
            1
        } else {
            before + 1
        }
    }
}

/// The notes that have ended once the first `upto` pitches are read, each with its length in quavers.
pub open spec fn ended_notes(contour: Seq<Pitch>, upto: nat) -> Seq<(Pitch, u32)>
    decreases upto,
{
    if upto == 0 {
        Seq::empty()
    } else {
        let before = ended_notes(contour, (upto - 1) as nat);
        let length = held(contour, (upto - 1) as nat);
        if contour[upto - 1] != previous_pitch(contour, upto - 1) || length >= 4 {
            before.push((previous_pitch(contour, upto - 1), length as u32))
        } else {
            before
        }
    }
}

/// The notes of a contour: consecutive quavers of one pitch are one note, of four quavers at most.
pub open spec fn midi_durations(contour: Seq<Pitch>) -> Seq<(Pitch, u32)> {
    ended_notes(contour, contour.len()).push(
        (contour[contour.len() - 1], held(contour, contour.len()) as u32),
    )
}

/// A pitch is never held for more than four quavers.
pub proof fn lemma_held_bound(contour: Seq<Pitch>, upto: nat)
    ensures
        held(contour, upto) <= 4,
        upto > 0 ==> held(contour, upto) >= 1,
    decreases upto,
{
    if upto > 0 {
        lemma_held_bound(contour, (upto - 1) as nat);
    }
}

/// Merges consecutive quavers of one pitch into notes of four quavers at most.
pub fn contour_to_midi_durations(contour: &Contour) -> (out: Vec<(Pitch, u32)>)
    requires
        contour@.len() > 0,
    ensures
        out@ == midi_durations(contour@),
{
    let mut hold: u32 = 0;
    let mut last_pitch = contour[0];
    let mut out: Vec<(Pitch, u32)> = Vec::new();
    let mut i: usize = 0;
    while i < contour.len()
        invariant
            i <= contour@.len(),
            contour@.len() > 0,
            hold == held(contour@, i as nat),
            i < contour@.len() ==> last_pitch == previous_pitch(contour@, i as int),
            i == contour@.len() ==> last_pitch == contour@[i - 1],
            out@ == ended_notes(contour@, i as nat),
        decreases contour@.len() - i,
    {
        proof {
            lemma_held_bound(contour@, i as nat);
        }
        let pitch = contour[i];
        if pitch != last_pitch || hold >= 4 {
            out.push((last_pitch, hold));
            hold = 1;
        } else {
            hold += 1;
        }
        last_pitch = pitch;
        i += 1;
    }
    out.push((last_pitch, hold));
    out
}

/// Whether `mode` is one of the modes that tunes are written in.
pub open spec fn nameable_mode(mode: MusicalMode) -> bool {
    mode.tonic == MusicalMode::IONIAN || mode.tonic == MusicalMode::DORIAN || mode.tonic
        == MusicalMode::MIXOLYDIAN || mode.tonic == MusicalMode::AEOLIAN
}

/// How ABC notation names `mode`.
pub open spec fn mode_text(mode: MusicalMode) -> Seq<char> {
    if mode.tonic == MusicalMode::IONIAN {
        "maj"@
    } else if mode.tonic == MusicalMode::DORIAN {
        "dor"@
    } else if mode.tonic == MusicalMode::MIXOLYDIAN {
        "mix"@
    } else {
        "min"@
    }
}

/// The name of the mode in ABC notation.
pub fn get_mode_as_abc(mode: MusicalMode) -> (text: String)
    requires
        nameable_mode(mode),
    ensures
        text@ == mode_text(mode),
{
    if mode.tonic == MusicalMode::IONIAN {
        "maj".to_owned()
    } else if mode.tonic == MusicalMode::DORIAN {
        "dor".to_owned()
    } else if mode.tonic == MusicalMode::MIXOLYDIAN {
        "mix".to_owned()
    } else {
        "min".to_owned()
    }
}

/// The major key with the notes of `key` in the mode `mode`.
pub open spec fn relative_major(key: MusicalKey, mode: MusicalMode) -> MusicalKey {
    key_of_pitch_class((relative_midi(key) - mode.tonic) % 12)
}

/// Finds the major key with the same notes as `key` in the mode `mode`.
pub fn parse_rel_major(key: MusicalKey, mode: MusicalMode) -> (major: MusicalKey)
    requires
        valid_key(key),
    ensures
        major == relative_major(key, mode),
        nameable_key(major),
{
    let difference: i64 = get_relative_midi(&key) as i64 - mode.tonic as i64;
    let pitch_class: i64 = ((difference % 12) + 12) % 12;
    assert(pitch_class == (relative_midi(key) - mode.tonic) % 12) by {
        let d = difference as int;
        assert(d % 12 == (relative_midi(key) - mode.tonic) % 12);
    }
    key_by_relative_midi(pitch_class as u32)
}

/// Whether `midi_pitch` is none of the seven notes of the major scale of `key`.
pub open spec fn accidental(key: MusicalKey, midi_pitch: Pitch) -> bool {
    let offset = (midi_pitch - relative_midi(key)) % 12;
    offset == 1 || offset == 3 || offset == 6 || offset == 8 || offset == 10
}

/// Tells whether a pitch is an accidental in the major scale of `key`.
pub fn is_accidental(key: MusicalKey, midi_pitch: Pitch) -> (is: bool)
    requires
        valid_key(key),
    ensures
        is == accidental(key, midi_pitch),
{
    let difference: i64 = midi_pitch as i64 - get_relative_midi(&key) as i64;
    let offset: i64 = ((difference % 12) + 12) % 12;
    assert(offset == (midi_pitch - relative_midi(key)) % 12) by {
        let d = difference as int;
        assert(d % 12 == (midi_pitch - relative_midi(key)) % 12);
    }
    offset == 1 || offset == 3 || offset == 6 || offset == 8 || offset == 10
}

/// How many fifths above F the natural note of `letter` lies.
pub open spec fn fifths_above_f(letter: char) -> int {
    if letter == 'F' {
        0
    } else if letter == 'C' {
        1
    } else if letter == 'G' {
        2
    } else if letter == 'D' {
        3
    } else if letter == 'A' {
        4
    } else if letter == 'E' {
        5
    } else {
        6
    }
}

/// The place of `letter` among the letters in the order in which key
/// signatures raise them: B (whose flat is lifted first), F, C, G, D, A, E.
pub open spec fn raising_place(letter: char) -> int {
    if letter == 'B' {
        0
    } else {
        fifths_above_f(letter) + 1
    }
}

/// The modifier of `letter` in the major key of `key`: F major has one
/// flat, on B; every fifth above F raises the next letter; and the modifier
/// of the key itself applies to every letter.
pub open spec fn signature_modifier(key: MusicalKey, letter: char) -> int {
    key.modifier + (if raising_place(letter) < fifths_above_f(key.letter) {
        1int
    } else {
        0int
    }) - (if letter == 'B' {
        1int
    } else {
        0int
    })
}

/// The letter at place `index` of the alphabet of notes, `A` first.
pub open spec fn note_letter(index: int) -> char {
    if index == 0 {
        'A'
    } else if index == 1 {
        'B'
    } else if index == 2 {
        'C'
    } else if index == 3 {
        'D'
    } else if index == 4 {
        'E'
    } else if index == 5 {
        'F'
    } else {
        'G'
    }
}

/// The place of `letter` in the alphabet of notes, `A` first.
pub fn letter_index(letter: char) -> (index: usize)
    requires
        is_note_letter(letter),
    ensures
        index < 7,
        note_letter(index as int) == letter,
{
    if letter == 'A' {
        0
    } else if letter == 'B' {
        1
    } else if letter == 'C' {
        2
    } else if letter == 'D' {
        3
    } else if letter == 'E' {
        4
    } else if letter == 'F' {
        5
    } else {
        6
    }
}

/// The modifier of every letter in the major key of `key`.
pub fn get_major_key_signature(key: MusicalKey) -> (signature: MusicalKeySignature)
    requires
        valid_key(key),
    ensures
        forall|index: int|
            0 <= index < 7 ==> (#[trigger] signature[index]) == signature_modifier(
                key,
                note_letter(index),
            ),
{
    // The letters by rising fifths from F, as places in the alphabet of notes.
    let circle_of_fifths: [usize; 7] = [5, 2, 6, 3, 0, 4, 1];
    let steps: usize = if key.letter == 'F' {
        0
    } else if key.letter == 'C' {
        1
    } else if key.letter == 'G' {
        2
    } else if key.letter == 'D' {
        3
    } else if key.letter == 'A' {
        4
    } else if key.letter == 'E' {
        5
    } else {
        6
    };
    let mut signature: MusicalKeySignature = [0; 7];
    signature[1] = -1;
    let mut modifier_ptr: usize = 6;
    let mut step: usize = 0;
    while step < steps
        invariant
            step <= steps <= 6,
            steps == fifths_above_f(key.letter),
            modifier_ptr == 6 + step,
            circle_of_fifths@ == seq![5usize, 2, 6, 3, 0, 4, 1],
            forall|index: int|
                0 <= index < 7 ==> (#[trigger] signature[index]) == (if raising_place(
                    note_letter(index),
                ) < step {
                    1int
                } else {
                    0int
                }) - (if index == 1 {
                    1int
                } else {
                    0int
                }),
        decreases steps - step,
    {
        let letter_to_modify = circle_of_fifths[modifier_ptr % 7];
        let raised: i32 = signature[letter_to_modify] + 1;
        signature[letter_to_modify] = raised;
        modifier_ptr += 1;
        step += 1;
    }
    let mut index: usize = 0;
    while index < 7
        invariant
            index <= 7,
            valid_key(key),
            steps == fifths_above_f(key.letter),
            forall|i: int|
                0 <= i < index ==> (#[trigger] signature[i]) == signature_modifier(
                    key,
                    note_letter(i),
                ),
            forall|i: int|
                index <= i < 7 ==> (#[trigger] signature[i]) == (if raising_place(note_letter(i))
                    < steps {
                    1int
                } else {
                    0int
                }) - (if i == 1 {
                    1int
                } else {
                    0int
                }),
        decreases 7 - index,
    {
        let modified: i32 = signature[index] + key.modifier;
        signature[index] = modified;
        index += 1;
    }
    signature
}

/// How many letters above the key's letter step `step` of the chromatic
/// scale is written, for each of the twelve semitones above the key's first note.
pub open spec fn scale_letter_offset(step: int) -> int {
    if step <= 1 {
        0
    } else if step == 2 {
        1
    } else if step <= 4 {
        2
    } else if step <= 6 {
        3
    } else if step <= 8 {
        4
    } else if step == 9 {
        5
    } else {
        6
    }
}

/// By how much step `step` of the chromatic scale departs from the note that
/// the major scale has on its letter.
pub open spec fn scale_modifier(step: int) -> int {
    if step == 1 || step == 6 || step == 8 {
        1
    } else if step == 3 || step == 10 {
        -1
    } else {
        0
    }
}

/// The place of the letter of a note in the alphabet of notes, `A` first.
pub open spec fn letter_place(letter: char) -> int {
    letter as int - 'A' as int
}

/// The note that is written for the semitone `step` above the first note of
/// the major key `key`: notes outside the scale are written as the flat or
/// sharp that lies nearest to the key on the circle of fifths.
#[verifier::opaque]
pub open spec fn chromatic_note(key: MusicalKey, step: int) -> MusicalKey {
    let letter = note_letter((letter_place(key.letter) + scale_letter_offset(step)) % 7);
    MusicalKey {
        letter,
        modifier: (signature_modifier(key, letter) + scale_modifier(step)) as i32,
    }
}

/// The note written for the pitch `midi` in the major key `key`.
pub open spec fn vocab_note(key: MusicalKey, midi: int) -> AbcNote {
    let note = chromatic_note(key, (midi - relative_midi(key)) % 12);
    AbcNote { letter: note.letter, modifier: note.modifier, octave: (midi / 12 - 1) as i32 }
}

/// The pitch class that a letter with a modifier sounds at.
pub open spec fn sounding_pitch_class(letter: char, modifier: int) -> int {
    (69 + modifier + letter_semitones(letter)) % 12
}

/// The modifier of `letter` in the major key on the natural note of `key_letter`.
pub open spec fn natural_signature(key_letter: char, letter: char) -> int {
    (if raising_place(letter) < fifths_above_f(key_letter) {
        1int
    } else {
        0int
    }) - (if letter == 'B' {
        1int
    } else {
        0int
    })
}

/// How far step `step` of the chromatic scale on the natural note of
/// `key_letter` sounds above A, as written, less how far it ought to sound.
pub open spec fn scale_error(key_letter: char, step: int) -> int {
    let letter = note_letter((letter_place(key_letter) + scale_letter_offset(step)) % 7);
    letter_semitones(letter) + natural_signature(key_letter, letter)
        + scale_modifier(step) - letter_semitones(key_letter) - step
}

/// On every letter, every step of the chromatic scale is written as a note
/// that sounds right, give or take an octave.
#[verifier::rlimit(100)]
pub proof fn lemma_scale_error(key_letter: char, step: int)
    requires
        is_note_letter(key_letter),
        0 <= step < 12,
    ensures
        scale_error(key_letter, step) == 0 || scale_error(key_letter, step) == -12,
{
    let place = letter_place(key_letter);
    let moved = (place + scale_letter_offset(step)) % 7;
    assert(0 <= moved < 7);
    if key_letter == 'A' {
        assert(place == 0);
    } else if key_letter == 'B' {
        assert(place == 1);
    } else if key_letter == 'C' {
        assert(place == 2);
    } else if key_letter == 'D' {
        assert(place == 3);
    } else if key_letter == 'E' {
        assert(place == 4);
    } else if key_letter == 'F' {
        assert(place == 5);
    } else {
        assert(place == 6);
    }
}

/// A note written an octave off still sounds at the same pitch class.
pub proof fn lemma_octave_off(from: int, step: int, error: int)
    requires
        error == 0 || error == -12,
    ensures
        (from + step + error) % 12 == (from % 12 + step) % 12,
{
}

/// Every step of the chromatic scale of a key sounds that many semitones above the key's first note.
#[verifier::rlimit(100)]
pub proof fn lemma_chromatic_note_sounds(key: MusicalKey, step: int)
    requires
        valid_key(key),
        0 <= step < 12,
    ensures
        is_note_letter(chromatic_note(key, step).letter),
        -4 <= chromatic_note(key, step).modifier <= 4,
        sounding_pitch_class(
            chromatic_note(key, step).letter,
            chromatic_note(key, step).modifier as int,
        ) == (relative_midi(key) + step) % 12,
{
    reveal(chromatic_note);
    lemma_scale_error(key.letter, step);
    let letter = note_letter((letter_place(key.letter) + scale_letter_offset(step)) % 7);
    let from = 69 + key.modifier + letter_semitones(key.letter);
    let error = scale_error(key.letter, step);
    assert(signature_modifier(key, letter) == key.modifier + natural_signature(key.letter, letter));
    assert(-1 <= natural_signature(key.letter, letter) <= 1);
    assert(-1 <= scale_modifier(step) <= 1);
    let modifier = key.modifier + natural_signature(key.letter, letter) + scale_modifier(step);
    assert(chromatic_note(key, step).letter == letter);
    assert(chromatic_note(key, step).modifier == modifier);
    assert(69 + modifier + letter_semitones(letter) == from + step + error);
    lemma_octave_off(from, step, error);
}

/// The note written for a pitch sounds at that pitch.
pub proof fn lemma_vocab_note_sounds(key: MusicalKey, midi: int)
    requires
        valid_key(key),
        0 <= midi,
    ensures
        is_note_letter(vocab_note(key, midi).letter),
        sounding_pitch_class(vocab_note(key, midi).letter, vocab_note(key, midi).modifier as int)
            == midi % 12,
{
    let relative = relative_midi(key);
    let step = (midi - relative) % 12;
    lemma_chromatic_note_sounds(key, step);
    lemma_step_back(relative, midi);
}

/// Going up from a pitch class by the steps that lead to a pitch arrives at the class of that pitch.
pub proof fn lemma_step_back(relative: int, midi: int)
    requires
        0 <= relative < 12,
    ensures
        (relative + (midi - relative) % 12) % 12 == midi % 12,
{
}

/// The notes that ABC notation writes for the supported pitches in the
/// major key `key`, lowest pitch first.
pub fn get_abc_vocab(key: MusicalKey) -> (vocab: AbcVocab)
    requires
        valid_key(key),
    ensures
        vocab@.len() == 48,
        forall|p: int| 0 <= p < 48 ==> (#[trigger] vocab@[p]) == vocab_note(key, 48 + p),
{
    let key_signature = get_major_key_signature(key);
    let letter_offset = letter_index(key.letter);
    let relative = get_relative_midi(&key);
    // For each semitone above the first note of the key: how many letters up, and the modifier.
    let letter_offsets: [usize; 12] = [0, 0, 1, 2, 2, 3, 3, 4, 4, 5, 6, 6];
    let modifiers: [i32; 12] = [0, 1, 0, -1, 0, 0, 1, 0, 1, 0, -1, 0];
    let letters: [char; 7] = ['A', 'B', 'C', 'D', 'E', 'F', 'G'];
    let mut one_octave: [MusicalKey; 12] = [key; 12];
    let mut step: usize = 0;
    while step < 12
        invariant
            step <= 12,
            valid_key(key),
            letter_offset == letter_place(key.letter),
            relative == relative_midi(key),
            letter_offsets@ == seq![0usize, 0, 1, 2, 2, 3, 3, 4, 4, 5, 6, 6],
            modifiers@ == seq![0i32, 1, 0, -1i32, 0, 0, 1, 0, 1, 0, -1i32, 0],
            letters@ == seq!['A', 'B', 'C', 'D', 'E', 'F', 'G'],
            forall|index: int|
                0 <= index < 7 ==> (#[trigger] key_signature[index]) == signature_modifier(
                    key,
                    note_letter(index),
                ),
            forall|done: int|
                0 <= done < step ==> (#[trigger] one_octave[(relative + done) % 12])
                    == chromatic_note(key, done),
        decreases 12 - step,
    {
        let place = (letter_offset + letter_offsets[step]) % 7;
        let letter = letters[place];
        assert(letter == note_letter(place as int));
        assert(letter_offsets@[step as int] == scale_letter_offset(step as int));
        assert(modifiers@[step as int] == scale_modifier(step as int));
        let note = MusicalKey { letter, modifier: key_signature[place] + modifiers[step] };
        assert(note == chromatic_note(key, step as int)) by {
            reveal(chromatic_note);
        }
        let class = (relative as usize + step) % 12;
        let ghost before = one_octave;
        one_octave[class] = note;
        assert forall|done: int| 0 <= done < step + 1 implies (#[trigger] one_octave[(relative
            + done) % 12]) == chromatic_note(key, done) by {
            if done < step {
                assert((relative + done) % 12 != (relative + step) % 12);
                assert(before[(relative + done) % 12] == chromatic_note(key, done));
            }
        }
        step += 1;
    }
    let mut vocab: Vec<AbcNote> = Vec::new();
    let mut midi: u32 = 48;
    while midi < 96
        invariant
            48 <= midi <= 96,
            relative == relative_midi(key),
            relative < 12,
            vocab@.len() == midi - 48,
            forall|done: int|
                0 <= done < 12 ==> (#[trigger] one_octave[(relative + done) % 12])
                    == chromatic_note(key, done),
            forall|p: int| 0 <= p < midi - 48 ==> (#[trigger] vocab@[p]) == vocab_note(key, 48 + p),
        decreases 96 - midi,
    {
        vocab.push(note_for_pitch(&one_octave, relative, midi, Ghost(key)));
        midi += 1;
    }
    vocab
}

/// The note written for the pitch `midi`, looked up by pitch class in the notes of one octave.
fn note_for_pitch(
    one_octave: &[MusicalKey; 12],
    relative: u32,
    midi: u32,
    Ghost(key): Ghost<MusicalKey>,
) -> (note: AbcNote)
    requires
        relative == relative_midi(key),
        relative < 12,
        forall|done: int|
            0 <= done < 12 ==> (#[trigger] one_octave[(relative + done) % 12]) == chromatic_note(
                key,
                done,
            ),
    ensures
        note == vocab_note(key, midi as int),
{
    let octave: i32 = (midi / 12) as i32 - 1;
    let class = (midi % 12) as usize;
    proof {
        let done = (midi - relative) % 12;
        lemma_step_back(relative as int, midi as int);
        assert(one_octave[(relative + done) % 12] == chromatic_note(key, done));
    }
    let found = one_octave[class];
    AbcNote { letter: found.letter, modifier: found.modifier, octave }
}

/// How often each degree of a scale is heard in tunes of each mode, in
/// hundred-millionths, from the first note of the mode upward by semitones.
/// The modes are Dorian, Ionian, Aeolian and Mixolydian, in this order.
pub open spec fn mode_shapes() -> Seq<Seq<int>> {
    seq![
        seq![
            25061224int, 55867, 14169932, 8923983, 325907, 12707732, 95709, 17060512, 217626,
            4171721, 16928502, 281284,
        ],
        seq![
            23721947int, 89920, 14192422, 117854, 17147175, 7980328, 336021, 18184678, 104605,
            10996197, 410795, 6718059,
        ],
        seq![
            23153994int, 116728, 12028706, 15227597, 250881, 13079765, 221498, 18448871, 4365511,
            570442, 11622747, 913261,
        ],
        seq![
            24891100int, 58114, 11803482, 410037, 10795090, 13229921, 53683, 19185175, 106514,
            7561318, 11076458, 829107,
        ],
    ]
}

/// The tonic of each mode of `mode_shapes`.
pub open spec fn mode_tonics() -> Seq<i32> {
    seq![MusicalMode::DORIAN, MusicalMode::IONIAN, MusicalMode::AEOLIAN, MusicalMode::MIXOLYDIAN]
}

/// How many of the first `upto` pitches of the contour are of the pitch class `class`.
pub open spec fn pitch_class_count(contour: Seq<Pitch>, class: int, upto: nat) -> nat
    decreases upto,
{
    if upto == 0 {
        0
    } else {
        pitch_class_count(contour, class, (upto - 1) as nat) + if contour[upto - 1] % 12 == class {
            1nat
        } else {
            0nat
        }
    }
}

/// How well the pitch classes of the contour match the first `degrees`
/// degrees of a mode whose first note is the pitch class `shift`.
pub open spec fn shape_match(contour: Seq<Pitch>, mode: int, shift: int, degrees: nat) -> int
    decreases degrees,
{
    if degrees == 0 {
        0
    } else {
        shape_match(contour, mode, shift, (degrees - 1) as nat) + mode_shapes()[mode][degrees - 1]
            * pitch_class_count(contour, (shift + degrees - 1) % 12, contour.len())
    }
}

/// The match of the contour with every mode on every pitch class: twelve
/// pitch classes for each mode of `mode_shapes` in turn.
pub open spec fn key_scores(contour: Seq<Pitch>) -> Seq<int> {
    Seq::new(48, |c: int| shape_match(contour, c / 12, c % 12, 12))
}

/// Whether `c` is the place of the highest of `scores`, the first such place if several tie.
pub open spec fn is_first_best(scores: Seq<int>, c: int) -> bool {
    &&& 0 <= c < scores.len()
    &&& forall|d: int| 0 <= d < scores.len() ==> (#[trigger] scores[d]) <= scores[c]
    &&& forall|d: int| 0 <= d < c ==> (#[trigger] scores[d]) < scores[c]
}

/// The place of the best match of the contour among its matches with every mode on every pitch class.
pub open spec fn best_key_place(contour: Seq<Pitch>) -> int {
    choose|c: int| is_first_best(key_scores(contour), c)
}

/// The key whose notes the contour matches best.
pub open spec fn detected_key(contour: Seq<Pitch>) -> MusicalKey {
    key_of_pitch_class(best_key_place(contour) % 12)
}

/// The mode whose notes the contour matches best.
pub open spec fn detected_mode(contour: Seq<Pitch>) -> MusicalMode {
    MusicalMode { tonic: mode_tonics()[best_key_place(contour) / 12] }
}

/// The first of the best places is one place only.
pub proof fn lemma_first_best_unique(scores: Seq<int>, c: int, d: int)
    requires
        is_first_best(scores, c),
    ensures
        is_first_best(scores, d) ==> c == d,
        is_first_best(scores, choose|e: int| is_first_best(scores, e)),
        c == (choose|e: int| is_first_best(scores, e)),
{
    let e = choose|e: int| is_first_best(scores, e);
    if c < e {
        assert(scores[c] < scores[e]);
    } else if e < c {
        assert(scores[e] < scores[c]);
    }
    if is_first_best(scores, d) {
        if c < d {
            assert(scores[c] < scores[d]);
        } else if d < c {
            assert(scores[d] < scores[c]);
        }
    }
}

/// How often degree `degree` is heard in tunes of the mode at place `mode` of `mode_shapes`.
fn mode_shape(mode: usize, degree: usize) -> (weight: u64)
    requires
        mode < 4,
        degree < 12,
    ensures
        weight == mode_shapes()[mode as int][degree as int],
        weight < 0x200_0000,
{
    let shape: [u64; 12] = if mode == 0 {
        [
            25061224, 55867, 14169932, 8923983, 325907, 12707732, 95709, 17060512, 217626,
            4171721, 16928502, 281284,
        ]
    } else if mode == 1 {
        [
            23721947, 89920, 14192422, 117854, 17147175, 7980328, 336021, 18184678, 104605,
            10996197, 410795, 6718059,
        ]
    } else if mode == 2 {
        [
            23153994, 116728, 12028706, 15227597, 250881, 13079765, 221498, 18448871, 4365511,
            570442, 11622747, 913261,
        ]
    } else {
        [
            24891100, 58114, 11803482, 410037, 10795090, 13229921, 53683, 19185175, 106514,
            7561318, 11076458, 829107,
        ]
    };
    shape[degree]
}

/// How well the contour, whose pitch classes are counted in `counts`, matches a mode on a pitch class.
fn match_shape(counts: &[u64; 12], mode: usize, shift: usize, Ghost(contour): Ghost<Seq<Pitch>>) -> (score:
    u128)
    requires
        mode < 4,
        shift < 12,
        forall|class: int|
            0 <= class < 12 ==> (#[trigger] counts[class]) == pitch_class_count(
                contour,
                class,
                contour.len(),
            ),
    ensures
        score == shape_match(contour, mode as int, shift as int, 12),
{
    let mut score: u128 = 0;
    let mut degree: usize = 0;
    while degree < 12
        invariant
            degree <= 12,
            mode < 4,
            shift < 12,
            forall|class: int|
                0 <= class < 12 ==> (#[trigger] counts[class]) == pitch_class_count(
                    contour,
                    class,
                    contour.len(),
                ),
            score == shape_match(contour, mode as int, shift as int, degree as nat),
            score <= degree * 0x200_0000_0000_0000_0000_0000,
        decreases 12 - degree,
    {
        let weight = mode_shape(mode, degree);
        let count = counts[(shift + degree) % 12];
        assert(weight * count <= 0x200_0000_0000_0000_0000_0000) by (nonlinear_arith)
            requires
                weight < 0x200_0000,
                count <= 0xffff_ffff_ffff_ffff,
        ;
        score = score + weight as u128 * count as u128;
        degree += 1;
    }
    score
}

/// Finds the key and the mode whose usual notes the contour matches best.
///
/// The pitch classes of the contour are counted and matched with the
/// notes usually heard in each mode, on each of the twelve pitch classes;
/// the best match wins, the first of them if several tie.
pub fn detect_key_and_mode(midi_seq: &Contour) -> (detected: (MusicalKey, MusicalMode))
    requires
        midi_seq@.len() > 0,
    ensures
        is_first_best(key_scores(midi_seq@), best_key_place(midi_seq@)),
        detected.0 == detected_key(midi_seq@),
        detected.1 == detected_mode(midi_seq@),
        nameable_key(detected.0),
        nameable_mode(detected.1),
{
    let mut counts: [u64; 12] = [0; 12];
    let mut i: usize = 0;
    while i < midi_seq.len()
        invariant
            i <= midi_seq@.len(),
            forall|class: int|
                0 <= class < 12 ==> (#[trigger] counts[class]) == pitch_class_count(
                    midi_seq@,
                    class,
                    i as nat,
                ),
            forall|class: int| 0 <= class < 12 ==> (#[trigger] counts[class]) <= i,
        decreases midi_seq@.len() - i,
    {
        let class = (midi_seq[i] % 12) as usize;
        let more: u64 = counts[class] + 1;
        counts[class] = more;
        i += 1;
    }
    let ghost scores = key_scores(midi_seq@);
    let mut hi_score: u128 = match_shape(&counts, 0, 0, Ghost(midi_seq@));
    let mut hi: usize = 0;
    let mut candidate: usize = 1;
    while candidate < 48
        invariant
            1 <= candidate <= 48,
            hi < candidate,
            scores == key_scores(midi_seq@),
            forall|class: int|
                0 <= class < 12 ==> (#[trigger] counts[class]) == pitch_class_count(
                    midi_seq@,
                    class,
                    midi_seq@.len(),
                ),
            hi_score == scores[hi as int],
            forall|d: int| 0 <= d < candidate ==> (#[trigger] scores[d]) <= scores[hi as int],
            forall|d: int| 0 <= d < hi ==> (#[trigger] scores[d]) < scores[hi as int],
        decreases 48 - candidate,
    {
        let score = match_shape(&counts, candidate / 12, candidate % 12, Ghost(midi_seq@));
        assert(score == scores[candidate as int]);
        if score > hi_score {
            hi_score = score;
            hi = candidate;
        }
        candidate += 1;
    }
    let mode = hi / 12;
    let tonic: i32 = if mode == 0 {
        MusicalMode::DORIAN
    } else if mode == 1 {
        MusicalMode::IONIAN
    } else if mode == 2 {
        MusicalMode::AEOLIAN
    } else {
        MusicalMode::MIXOLYDIAN
    };
    let key = key_by_relative_midi((hi % 12) as u32);
    assert(is_first_best(scores, hi as int));
    assert(tonic == mode_tonics()[hi as int / 12]);
    proof {
        lemma_first_best_unique(scores, hi as int, best_key_place(midi_seq@));
    }
    (key, MusicalMode { tonic })
}

} // verus!
