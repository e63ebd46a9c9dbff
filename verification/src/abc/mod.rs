//! Writing a contour in ABC notation.

pub mod key_converter;
pub mod key_types;
pub mod notation;

use crate::abc::notation::abc_text;
use crate::decode::types::{valid_contour, Contour};
use vstd::prelude::*;

verus! {

/// Writes a contour in ABC notation, in the key and mode that its pitches match best.
pub fn contour_to_abc(contour: &Contour) -> (text: String)
    requires
        contour@.len() > 0,
        valid_contour(contour@),
    ensures
        text@ == abc_text(contour@),
{
    crate::abc::notation::contour_to_abc(contour)
}

} // verus!
