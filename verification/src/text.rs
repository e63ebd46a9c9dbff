//! Small helpers for building text.

use vstd::prelude::*;

verus! {

/// The text of each of `strings`.
pub open spec fn texts(strings: Seq<String>) -> Seq<Seq<char>> {
    Seq::new(strings.len(), |i: int| strings[i]@)
}

/// `String::push`: the string grows by exactly the character given.
#[verifier::external_body]
pub(crate) fn push_char(s: &mut String, c: char)
    ensures
        final(s)@ == old(s)@.push(c),
{
    s.push(c)
}

/// A copy of `strings` with the same text in every string.
pub fn duplicate_texts(strings: &Vec<String>) -> (copy: Vec<String>)
    ensures
        texts(copy@) == texts(strings@),
{
    let mut copy: Vec<String> = Vec::new();
    let mut a: usize = 0;
    while a < strings.len()
        invariant
            a <= strings@.len(),
            copy@.len() == a,
            forall|b: int| 0 <= b < a ==> (#[trigger] copy@[b])@ == strings@[b]@,
        decreases strings@.len() - a,
    {
        copy.push(strings[a].clone());
        a += 1;
    }
    assert(texts(copy@) =~= texts(strings@));
    copy
}

} // verus!
