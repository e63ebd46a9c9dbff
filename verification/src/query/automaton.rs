//! Counting the occurrences of many patterns at once.

use aho_corasick::AhoCorasick;
use vstd::prelude::*;
use vstd::string::StringSliceAdditionalSpecFns;
use vstd::utf8::encode_utf8;

verus! {

/// An automaton of the `aho_corasick` crate. Nothing inside it is visible here.
#[verifier::external_body]
pub struct PatternAutomaton {
    inner: AhoCorasick,
}

/// The patterns an automaton was built from, as bytes, in the order given.
pub uninterp spec fn automaton_patterns(automaton: PatternAutomaton) -> Seq<Seq<u8>>;

/// Whether `pattern` occurs in `haystack` at offset `at`.
pub open spec fn occurs_at(pattern: Seq<u8>, haystack: Seq<u8>, at: int) -> bool {
    &&& 0 <= at
    &&& at + pattern.len() <= haystack.len()
    &&& haystack.subrange(at, at + pattern.len()) == pattern
}

/// How often `pattern` occurs in `haystack` at an offset below `upto`;
/// occurrences may overlap.
pub open spec fn occurrences_below(pattern: Seq<u8>, haystack: Seq<u8>, upto: nat) -> nat
    decreases upto,
{
    if upto == 0 {
        0
    } else {
        occurrences_below(pattern, haystack, (upto - 1) as nat) + if occurs_at(
            pattern,
            haystack,
            upto - 1,
        ) {
            1nat
        } else {
            0nat
        }
    }
}

/// How often `pattern` occurs in `haystack`; occurrences may overlap, and
/// the empty pattern occurs once at every offset, the end included.
pub open spec fn occurrences(pattern: Seq<u8>, haystack: Seq<u8>) -> nat {
    occurrences_below(pattern, haystack, haystack.len() + 1)
}

/// The occurrences in `haystack` of all `patterns` together; a pattern
/// given twice counts twice.
pub open spec fn total_occurrences(patterns: Seq<Seq<u8>>, haystack: Seq<u8>) -> nat
    decreases patterns.len(),
{
    if patterns.len() == 0 {
        0
    } else {
        total_occurrences(patterns.drop_last(), haystack) + occurrences(patterns.last(), haystack)
    }
}

/// Whether the occurrences of `patterns` can be counted with one automaton:
/// there is one pattern only, or none of the patterns is empty. An empty
/// pattern beside longer ones would be reported more than once at an offset.
pub open spec fn countable(patterns: Seq<Seq<u8>>) -> bool {
    patterns.len() == 1 || forall|i: int| 0 <= i < patterns.len() ==> (#[trigger] patterns[i]).len() > 0
}

/// The bytes of each of `patterns`.
pub open spec fn pattern_bytes(patterns: Seq<String>) -> Seq<Seq<u8>> {
    Seq::new(patterns.len(), |i: int| encode_utf8(patterns[i]@))
}

/// Text that is not empty has bytes.
pub proof fn lemma_text_has_bytes(text: Seq<char>)
    requires
        text.len() > 0,
    ensures
        encode_utf8(text).len() > 0,
{
    assert(vstd::utf8::encode_scalar(text[0] as u32).len() >= 1);
}

/// A pattern occurs at most once at each offset.
pub proof fn lemma_occurrences_bound(pattern: Seq<u8>, haystack: Seq<u8>, upto: nat)
    ensures
        occurrences_below(pattern, haystack, upto) <= upto,
    decreases upto,
{
    if upto > 0 {
        lemma_occurrences_bound(pattern, haystack, (upto - 1) as nat);
    }
}

/// All patterns together occur at most once per pattern and offset.
pub proof fn lemma_total_occurrences_bound(patterns: Seq<Seq<u8>>, haystack: Seq<u8>)
    ensures
        total_occurrences(patterns, haystack) <= patterns.len() * (haystack.len() + 1),
    decreases patterns.len(),
{
    if patterns.len() > 0 {
        lemma_total_occurrences_bound(patterns.drop_last(), haystack);
        lemma_occurrences_bound(patterns.last(), haystack, haystack.len() + 1);
        assert(patterns.len() * (haystack.len() + 1) == (patterns.len() - 1) * (haystack.len()
            + 1) + (haystack.len() + 1)) by (nonlinear_arith);
    }
}

/// `AhoCorasick::new_auto_configured`: the automaton that searches for
/// exactly the patterns given, with the crate's standard match semantics.
/// Only pattern sets whose occurrences the automaton counts rightly are admitted.
#[verifier::external_body]
pub(crate) fn build_automaton(patterns: &Vec<String>) -> (automaton: PatternAutomaton)
    requires
        countable(pattern_bytes(patterns@)),
    ensures
        automaton_patterns(automaton) == pattern_bytes(patterns@),
{
    PatternAutomaton { inner: AhoCorasick::new_auto_configured(patterns) }
}

/// `AhoCorasick::find_overlapping_iter`, counted. For a single pattern, and
/// for patterns none of which is empty, the iterator reports one match for
/// every pattern and every offset of the haystack at which that pattern
/// occurs, so their number is the total of the occurrences. (With an empty
/// pattern beside longer ones the automaton holds the empty match twice in
/// some states; such pattern sets are not admitted.) The count must fit in a `usize`.
#[verifier::external_body]
pub(crate) fn count_overlapping(automaton: &PatternAutomaton, haystack: &str) -> (count: usize)
    requires
        countable(automaton_patterns(*automaton)),
        automaton_patterns(*automaton).len() * (haystack.spec_bytes().len() + 1) <= usize::MAX,
    ensures
        count == total_occurrences(automaton_patterns(*automaton), haystack.spec_bytes()),
{
    automaton.inner.find_overlapping_iter(haystack).count()
}

} // verus!
