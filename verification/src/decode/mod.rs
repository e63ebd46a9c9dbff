//! From frames to a contour.

pub mod contour;
pub mod lattice;
pub mod octave;
pub mod pitch_model;
pub mod types;

use crate::decode::contour::{
    best_tempo, contour_from_notes, counting_notes, expanded, filter_notes, is_first_argmax,
    notes_from_lattice_path, notes_upto, quantise_notes, quantised, tempo_candidates, tempos,
    valid_lattice_path, valid_notes, Note, NoteFilter, QuantisedNote, MIN_NOTE_COUNT,
};
use crate::decode::lattice::{decode, is_lattice_path};
use crate::decode::pitch_model::PitchModel;
use crate::decode::types::{
    contour_to_contour_string, encode_contour, valid_contour_string, valid_pitch, ContourString,
    LatticePath,
};
use crate::feature::normalise::is_normalised;
use crate::feature::signal::{sample_rate_supported, validate_sample_rate, SampleRateError};
use crate::feature::types::{total_energy, valid_features, Features, Frame};
use vstd::prelude::*;

verus! {

/// The buffer cannot be decoded: it holds no energy, too few frames, or too few notes.
#[derive(Debug, Clone, Copy, PartialEq, Eq, Structural)]
pub struct DecoderError;

impl DecoderError {
    /// What to tell the user.
    pub fn message(&self) -> (text: String)
        ensures
            text@ == "Error decoding features"@,
    {
        "Error decoding features".to_owned()
    }
}

/// Decodes the frames of a signal sampled at `sample_rate`.
#[derive(Debug, Clone, Copy, PartialEq, Eq, Structural)]
pub struct FeatureDecoder {
    pub sample_rate: u32,
}

impl FeatureDecoder {
    /// A decoder for signals sampled at `sample_rate`, if the analysis supports that rate.
    pub fn new(sample_rate: u32) -> (result: Result<FeatureDecoder, SampleRateError>)
        ensures
            result is Ok <==> sample_rate_supported(sample_rate),
            result matches Ok(decoder) ==> decoder.sample_rate == sample_rate,
    {
        if !validate_sample_rate(&sample_rate) {
            return Err(SampleRateError);
        }
        Ok(FeatureDecoder { sample_rate })
    }

    /// Normalises `features` and finds the best pitch index of every frame.
    ///
    /// Fails when the buffer holds no energy at all (an empty buffer holds
    /// none), and, once the energy has been normalised, when fewer than five
    /// frames are there.
    pub fn decode_lattice_path(&self, features: &mut Features, pitch_model: &PitchModel) -> (result:
        Result<LatticePath, DecoderError>)
        requires
            valid_features(old(features)@),
            pitch_model.wf(),
        ensures
            result is Err <==> total_energy(old(features)@) == 0 || old(features)@.len() < 5,
            total_energy(old(features)@) == 0 ==> final(features)@ == old(features)@,
            total_energy(old(features)@) != 0 ==> is_normalised(old(features)@, final(features)@),
            valid_features(final(features)@),
            result matches Ok(path) ==> is_lattice_path(
                final(features)@,
                pitch_model.base(),
                path@,
            ) && valid_lattice_path(path@),
    {
        decode(features, pitch_model)
    }

    /// The notes of a path that count: the path is compressed into notes,
    /// and notes too weak or too short are dropped.
    ///
    /// Fails when fewer than four notes are left; an empty path leaves none.
    pub fn decode_notes(
        &self,
        lattice_path: &LatticePath,
        features: &Features,
        filter: &NoteFilter,
    ) -> (result: Result<Vec<Note>, DecoderError>)
        requires
            valid_lattice_path(lattice_path@),
            valid_features(features@),
            lattice_path@.len() == features@.len(),
        ensures
            result is Err <==> surviving_notes(lattice_path@, features@, *filter).len()
                < MIN_NOTE_COUNT,
            result matches Ok(notes) ==> notes@ == surviving_notes(
                lattice_path@,
                features@,
                *filter,
            ) && valid_notes(notes@),
    {
        let notes = notes_from_lattice_path(lattice_path, features);
        let kept = filter_notes(&notes, filter);
        if kept.len() < MIN_NOTE_COUNT {
            return Err(DecoderError);
        }
        Ok(kept)
    }

    /// Gives each note its length in quavers at the tempo `bpm`.
    pub fn quantise(&self, notes: &Vec<Note>, bpm: u32) -> (quantised_notes: Vec<QuantisedNote>)
        requires
            sample_rate_supported(self.sample_rate),
            valid_notes(notes@),
        ensures
            quantised_notes@ == quantised(notes@, bpm as nat, self.sample_rate as nat),
    {
        quantise_notes(notes, bpm, self.sample_rate)
    }

    /// Writes the notes as a contour string at the best tempo:
    /// `tempo_scores` holds the score of each tempo tried, slowest first,
    /// and the first tempo of the highest score is the best.
    pub fn decode_contour(&self, notes: &Vec<Note>, tempo_scores: &[i64; 36]) -> (contour_string:
        ContourString)
        requires
            sample_rate_supported(self.sample_rate),
            valid_notes(notes@),
        ensures
            exists|best: int|
                is_first_argmax(tempo_scores@, best) && contour_string@ == contour_at_tempo(
                    notes@,
                    #[trigger] tempo_candidates()[best] as nat,
                    self.sample_rate as nat,
                ),
            valid_contour_string(contour_string@),
    {
        let mut scores: Vec<i64> = Vec::new();
        let mut i: usize = 0;
        while i < 36
            invariant
                i <= 36,
                scores@ == tempo_scores@.subrange(0, i as int),
            decreases 36 - i,
        {
            scores.push(tempo_scores[i]);
            assert(scores@ =~= tempo_scores@.subrange(0, i + 1));
            i += 1;
        }
        assert(scores@ =~= tempo_scores@);
        let best = best_tempo(&scores);
        let bpms = tempos();
        let bpm = bpms[best];
        let quantised_notes = quantise_notes(notes, bpm, self.sample_rate);
        let contour = contour_from_notes(&quantised_notes);
        assert forall|i: int| 0 <= i < quantised_notes@.len() implies valid_pitch(
            (#[trigger] quantised_notes@[i]).pitch,
        ) by {
            assert(valid_pitch(notes@[i].pitch));
        }
        let contour_string = contour_to_contour_string(&contour);
        assert(is_first_argmax(tempo_scores@, best as int));
        contour_string
    }
}

/// The notes of a path that count.
pub open spec fn surviving_notes(
    path: Seq<usize>,
    features: Seq<Frame>,
    filter: NoteFilter,
) -> Seq<Note> {
    let notes = notes_upto(path, features, path.len());
    counting_notes(notes, filter, notes.len())
}

/// The contour string of `notes` at the tempo `bpm`.
pub open spec fn contour_at_tempo(notes: Seq<Note>, bpm: nat, sample_rate: nat) -> Seq<char> {
    let quantised_notes = quantised(notes, bpm, sample_rate);
    encode_contour(expanded(quantised_notes, quantised_notes.len()))
}

} // verus!
