//! Notes, keys and modes as ABC notation writes them.

use crate::decode::types::Pitch;
use crate::text::push_char;
use vstd::prelude::*;

verus! {

/// Semitones by which a note is raised (positive) or lowered (negative).
pub type PitchModifier = i32;

/// The modifier of each of the letters `A` to `G`, in that order.
pub type MusicalKeySignature = [PitchModifier; 7];

/// The note of each supported pitch, lowest pitch first.
pub type AbcVocab = Vec<AbcNote>;

/// A note: its letter (`A` to `G`), its modifier, and its octave (middle C opens octave 4).
#[derive(Debug, Clone, Copy, PartialEq, Eq, Structural)]
pub struct AbcNote {
    pub letter: char,
    pub modifier: PitchModifier,
    pub octave: i32,
}

/// A mode, given by the number of semitones from its first note up to the
/// first note of the major scale with the same notes.
#[derive(Debug, Clone, Copy, PartialEq, Eq, Hash, Structural)]
pub struct MusicalMode {
    pub tonic: i32,
}

impl MusicalMode {
    pub const IONIAN: i32 = 0;

    pub const DORIAN: i32 = 2;

    pub const PHRYGIAN: i32 = 4;

    pub const LYDIAN: i32 = 5;

    pub const MIXOLYDIAN: i32 = 7;

    pub const AEOLIAN: i32 = 9;

    pub const LOCRIAN: i32 = 11;
}

/// A key: the letter of its first note (`A` to `G`) and the modifier of that note.
#[derive(Debug, Clone, Copy, PartialEq, Eq, Structural)]
pub struct MusicalKey {
    pub letter: char,
    pub modifier: PitchModifier,
}

/// Whether `letter` is the letter of a note.
pub open spec fn is_note_letter(letter: char) -> bool {
    'A' <= letter <= 'G'
}

/// Whether `key` has the letter of a note and at most a double sharp or flat.
pub open spec fn valid_key(key: MusicalKey) -> bool {
    is_note_letter(key.letter) && -2 <= key.modifier <= 2
}

/// Semitones from A up to the natural note of `letter`.
pub open spec fn letter_semitones(letter: char) -> int {
    if letter == 'A' {
        0
    } else if letter == 'B' {
        2
    } else if letter == 'C' {
        3
    } else if letter == 'D' {
        5
    } else if letter == 'E' {
        7
    } else if letter == 'F' {
        8
    } else {
        10
    }
}

/// The pitch class of the first note of `key`: semitones above C, from 0 to 11.
pub open spec fn relative_midi(key: MusicalKey) -> int {
    (69 + key.modifier + letter_semitones(key.letter)) % 12
}

/// How a key signature writes a modifier of a flat, none, or a sharp.
pub open spec fn key_modifier_text(modifier: PitchModifier) -> Seq<char> {
    if modifier == -1 {
        seq!['b']
    } else if modifier == 0 {
        Seq::empty()
    } else {
        seq!['#']
    }
}

/// How ABC notation names `key`.
pub open spec fn key_text(key: MusicalKey) -> Seq<char> {
    seq![key.letter] + key_modifier_text(key.modifier)
}

/// Whether `key` is a key that ABC notation can name.
pub open spec fn nameable_key(key: MusicalKey) -> bool {
    is_note_letter(key.letter) && -1 <= key.modifier <= 1
}

impl MusicalKey {
    /// The name of the key in ABC notation: its letter, then `b` or `#` if it has a flat or a sharp.
    pub fn to_abc(&self) -> (text: String)
        requires
            nameable_key(*self),
        ensures
            text@ == key_text(*self),
    {
        let mut text = String::new();
        push_char(&mut text, self.letter);
        if self.modifier == -1 {
            push_char(&mut text, 'b');
        } else if self.modifier == 1 {
            push_char(&mut text, '#');
        }
        assert(text@ =~= key_text(*self));
        text
    }
}

/// The pitch class of the first note of `key`.
pub fn get_relative_midi(key: &MusicalKey) -> (pitch_class: Pitch)
    requires
        valid_key(*key),
    ensures
        pitch_class == relative_midi(*key),
        pitch_class < 12,
{
    let letter_offset: i32 = if key.letter == 'A' {
        0
    } else if key.letter == 'B' {
        2
    } else if key.letter == 'C' {
        3
    } else if key.letter == 'D' {
        5
    } else if key.letter == 'E' {
        7
    } else if key.letter == 'F' {
        8
    } else {
        10
    };
    let rel_midi: i32 = 69 + key.modifier + letter_offset;
    (rel_midi % 12) as u32
}

} // verus!
