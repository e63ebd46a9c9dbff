//! Pitches, contours and their one-character-per-pitch encoding.

use crate::ff_config::{contour_alphabet, MIDI_HIGH, MIDI_LOW};
use crate::text::push_char;
use vstd::prelude::*;

verus! {

/// Index of a pitch inside a frame: pitch minus `MIDI_LOW`.
pub type LatticeIndex = usize;

/// One lattice index per analysis frame.
pub type LatticePath = Vec<LatticeIndex>;

/// A MIDI note number.
pub type Pitch = u32;

/// Signed distance between two pitches, in semitones.
pub type PitchInterval = i32;

/// Pitches of equal musical length, one per quaver.
pub type Contour = Vec<Pitch>;

/// A contour written with one character per pitch.
pub type ContourString = String;

/// Whether `pitch` lies in the supported range.
pub open spec fn valid_pitch(pitch: Pitch) -> bool {
    MIDI_LOW <= pitch <= MIDI_HIGH
}

/// Whether every pitch of `contour` lies in the supported range.
pub open spec fn valid_contour(contour: Seq<Pitch>) -> bool {
    forall|i: int| 0 <= i < contour.len() ==> valid_pitch(#[trigger] contour[i])
}

/// Whether `c` is a character of the contour alphabet.
pub open spec fn valid_contour_char(c: char) -> bool {
    ('a' <= c <= 'z') || ('A' <= c <= 'V')
}

/// Whether every character of `s` belongs to the contour alphabet.
pub open spec fn valid_contour_string(s: Seq<char>) -> bool {
    forall|i: int| 0 <= i < s.len() ==> valid_contour_char(#[trigger] s[i])
}

/// The character that stands for `pitch`.
pub open spec fn pitch_to_char(pitch: Pitch) -> char
    recommends
        valid_pitch(pitch),
{
    contour_alphabet()[pitch - MIDI_LOW]
}

/// The pitch that `c` stands for.
pub open spec fn char_to_pitch(c: char) -> Pitch
    recommends
        valid_contour_char(c),
{
    if 'a' <= c <= 'z' {
        (MIDI_LOW + (c as u32 - 'a' as u32)) as u32
    } else {
        (MIDI_LOW + 26 + (c as u32 - 'A' as u32)) as u32
    }
}

/// The encoding of a whole contour.
pub open spec fn encode_contour(contour: Seq<Pitch>) -> Seq<char> {
    Seq::new(contour.len(), |i: int| pitch_to_char(contour[i]))
}

/// The decoding of a whole contour string.
pub open spec fn decode_contour_string(s: Seq<char>) -> Seq<Pitch> {
    Seq::new(s.len(), |i: int| char_to_pitch(s[i]))
}

/// Every pitch has a character of the alphabet, and that character leads back to the pitch.
pub proof fn lemma_pitch_char_round_trip(pitch: Pitch)
    requires
        valid_pitch(pitch),
    ensures
        valid_contour_char(pitch_to_char(pitch)),
        char_to_pitch(pitch_to_char(pitch)) == pitch,
{
    let i = pitch - MIDI_LOW;
    assert(0 <= i < 48);
    assert(contour_alphabet().len() == 48);
    if i < 26 {
        assert(contour_alphabet()[i] as u32 == 'a' as u32 + i) by {
            lemma_alphabet_values();
        }
    } else {
        assert(contour_alphabet()[i] as u32 == 'A' as u32 + (i - 26)) by {
            lemma_alphabet_values();
        }
    }
}

/// Every character of the alphabet has a pitch in range, and that pitch leads back to the character.
pub proof fn lemma_char_pitch_round_trip(c: char)
    requires
        valid_contour_char(c),
    ensures
        valid_pitch(char_to_pitch(c)),
        pitch_to_char(char_to_pitch(c)) == c,
{
    lemma_alphabet_values();
    let pitch = char_to_pitch(c);
    let i = pitch - MIDI_LOW;
    assert(0 <= i < 48);
    assert(contour_alphabet()[i] as u32 == c as u32);
}

/// Decoding undoes encoding: a contour survives the trip through its contour string.
pub proof fn lemma_decode_encode(contour: Seq<Pitch>)
    requires
        valid_contour(contour),
    ensures
        valid_contour_string(encode_contour(contour)),
        decode_contour_string(encode_contour(contour)) == contour,
{
    assert forall|i: int| 0 <= i < contour.len() implies valid_contour_char(
        #[trigger] encode_contour(contour)[i],
    ) && char_to_pitch(encode_contour(contour)[i]) == contour[i] by {
        lemma_pitch_char_round_trip(contour[i]);
    }
    assert(decode_contour_string(encode_contour(contour)) =~= contour);
}

/// Encoding undoes decoding: a contour string survives the trip through its contour.
pub proof fn lemma_encode_decode(s: Seq<char>)
    requires
        valid_contour_string(s),
    ensures
        valid_contour(decode_contour_string(s)),
        encode_contour(decode_contour_string(s)) == s,
{
    assert forall|i: int| 0 <= i < s.len() implies valid_pitch(
        #[trigger] decode_contour_string(s)[i],
    ) && pitch_to_char(decode_contour_string(s)[i]) == s[i] by {
        lemma_char_pitch_round_trip(s[i]);
    }
    assert(encode_contour(decode_contour_string(s)) =~= s);
}

/// The code point of each letter of the alphabet.
proof fn lemma_alphabet_values()
    ensures
        contour_alphabet().len() == 48,
        forall|i: int| 0 <= i < 26 ==> (#[trigger] contour_alphabet()[i]) as u32 == 97 + i,
        forall|i: int| 26 <= i < 48 ==> (#[trigger] contour_alphabet()[i]) as u32 == 65 + (i - 26),
{
    let a = contour_alphabet();
    assert(a[0] == 'a' && a[1] == 'b' && a[2] == 'c' && a[3] == 'd' && a[4] == 'e' && a[5] == 'f');
    assert(a[6] == 'g' && a[7] == 'h' && a[8] == 'i' && a[9] == 'j' && a[10] == 'k' && a[11] == 'l');
    assert(a[12] == 'm' && a[13] == 'n' && a[14] == 'o' && a[15] == 'p' && a[16] == 'q' && a[17] == 'r');
    assert(a[18] == 's' && a[19] == 't' && a[20] == 'u' && a[21] == 'v' && a[22] == 'w' && a[23] == 'x');
    assert(a[24] == 'y' && a[25] == 'z' && a[26] == 'A' && a[27] == 'B' && a[28] == 'C' && a[29] == 'D');
    assert(a[30] == 'E' && a[31] == 'F' && a[32] == 'G' && a[33] == 'H' && a[34] == 'I' && a[35] == 'J');
    assert(a[36] == 'K' && a[37] == 'L' && a[38] == 'M' && a[39] == 'N' && a[40] == 'O' && a[41] == 'P');
    assert(a[42] == 'Q' && a[43] == 'R' && a[44] == 'S' && a[45] == 'T' && a[46] == 'U' && a[47] == 'V');
}

/// Tells whether every pitch of `contour` lies in the supported range.
pub fn is_valid_contour(contour: &Contour) -> (ok: bool)
    ensures
        ok == valid_contour(contour@),
{
    let mut i: usize = 0;
    while i < contour.len()
        invariant
            i <= contour.len(),
            forall|j: int| 0 <= j < i ==> valid_pitch(#[trigger] contour@[j]),
        decreases contour.len() - i,
    {
        if contour[i] < MIDI_LOW || contour[i] > MIDI_HIGH {
            return false;
        }
        i += 1;
    }
    true
}

/// Tells whether every character of `contour_string` belongs to the contour alphabet.
pub fn is_valid_contour_string(contour_string: &ContourString) -> (ok: bool)
    ensures
        ok == valid_contour_string(contour_string@),
{
    for c in it: contour_string.as_str().chars()
        invariant
            it.seq() == contour_string@,
            forall|j: int| 0 <= j < it.index() ==> valid_contour_char(#[trigger] contour_string@[j]),
    {
        if !(('a' <= c && c <= 'z') || ('A' <= c && c <= 'V')) {
            return false;
        }
    }
    true
}

/// Writes a contour as a contour string, one character per pitch.
pub fn contour_to_contour_string(contour: &Contour) -> (contour_string: ContourString)
    requires
        valid_contour(contour@),
    ensures
        contour_string@ == encode_contour(contour@),
        valid_contour_string(contour_string@),
{
    let mut out = String::new();
    let mut i: usize = 0;
    while i < contour.len()
        invariant
            i <= contour.len(),
            valid_contour(contour@),
            out@ == encode_contour(contour@.subrange(0, i as int)),
            valid_contour_string(out@),
        decreases contour.len() - i,
    {
        let pitch = contour[i];
        let offset: u32 = pitch - MIDI_LOW;
        let c: char = if offset < 26 {
            (97u8 + offset as u8) as char
        } else {
            (65u8 + (offset - 26) as u8) as char
        };
        proof {
            lemma_alphabet_values();
            lemma_pitch_char_round_trip(pitch);
            assert(c == pitch_to_char(pitch));
            assert(contour@.subrange(0, i + 1) == contour@.subrange(0, i as int).push(pitch));
            assert(encode_contour(contour@.subrange(0, i + 1)) == encode_contour(
                contour@.subrange(0, i as int),
            ).push(c));
        }
        push_char(&mut out, c);
        i += 1;
    }
    proof {
        assert(contour@.subrange(0, i as int) == contour@);
    }
    out
}

/// Reads a contour string back into the contour it stands for.
pub fn contour_string_to_contour(contour_string: &ContourString) -> (contour: Contour)
    requires
        valid_contour_string(contour_string@),
    ensures
        contour@ == decode_contour_string(contour_string@),
        valid_contour(contour@),
{
    let mut contour: Vec<Pitch> = Vec::new();
    for c in it: contour_string.as_str().chars()
        invariant
            it.seq() == contour_string@,
            valid_contour_string(contour_string@),
            contour@ == decode_contour_string(contour_string@.subrange(0, it.index())),
            valid_contour(contour@),
    {
        let ghost k = it.index();
        assert(valid_contour_char(c));
        let pitch: Pitch = if 'a' <= c && c <= 'z' {
            MIDI_LOW + (c as u32 - 'a' as u32)
        } else {
            MIDI_LOW + 26 + (c as u32 - 'A' as u32)
        };
        proof {
            assert(contour_string@.subrange(0, k + 1) == contour_string@.subrange(0, k).push(c));
            assert(decode_contour_string(contour_string@.subrange(0, k + 1))
                == decode_contour_string(contour_string@.subrange(0, k)).push(pitch));
        }
        contour.push(pitch);
    }
    proof {
        assert(contour_string@.subrange(0, contour_string@.len() as int) == contour_string@);
    }
    contour
}

} // verus!
