//! Text predicates shared by the retrieval filters and the tag relation.

use vstd::prelude::*;

verus! {

/// `needle` occurs contiguously inside `haystack`.
pub open spec fn contains_seq(haystack: Seq<char>, needle: Seq<char>) -> bool {
    exists|i: int|
        0 <= i && i + needle.len() <= haystack.len() && #[trigger] haystack.subrange(
            i,
            i + needle.len(),
        ) == needle
}

/// Relies on str::contains: returns true exactly when the pattern occurs as
/// a substring of the string slice. UTF-8 is self-synchronizing, so a byte
/// match of a whole pattern coincides with a match on the character sequence.
#[verifier::external_body]
pub(crate) fn str_contains(haystack: &str, needle: &str) -> (r: bool)
    ensures
        r == contains_seq(haystack@, needle@),
{
    haystack.contains(needle)
}

/// Whether `tags` already holds the label `t`.
pub fn tags_contain(tags: &Vec<String>, t: &String) -> (r: bool)
    ensures
        r == tags.deep_view().contains(t@),
{
    let mut i: usize = 0;
    while i < tags.len()
        invariant
            0 <= i <= tags.len(),
            forall|k: int| 0 <= k < i ==> tags.deep_view()[k] != t@,
        decreases tags.len() - i,
    {
        if tags[i].eq(t) {
            assert(tags.deep_view()[i as int] == t@);
            return true;
        }
        i += 1;
    }
    false
}

/// A sequence of labels with no label repeated.
pub open spec fn nodup_labels(tags: Seq<Seq<char>>) -> bool {
    forall|i: int, j: int| 0 <= i < j < tags.len() ==> tags[i] != tags[j]
}

} // verus!
