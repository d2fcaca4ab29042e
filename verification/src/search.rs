//! Finding the first place where something stands in a sequence.

use vstd::prelude::*;

verus! {

/// An index that holds `needle`, with none before it that does, is the first index of
/// `needle`.
pub proof fn lemma_first_index<A>(s: Seq<A>, needle: A, i: int)
    requires
        0 <= i < s.len(),
        s[i] == needle,
        forall|j: int| 0 <= j < i ==> s[j] != needle,
    ensures
        s.index_of_first(needle) == Some(i),
{
    s.index_of_first_ensures(needle);
}

/// A sequence that holds `needle` nowhere has no first index of it.
pub proof fn lemma_no_index<A>(s: Seq<A>, needle: A)
    requires
        forall|j: int| 0 <= j < s.len() ==> s[j] != needle,
    ensures
        s.index_of_first(needle) is None,
{
    s.index_of_first_ensures(needle);
}

/// The first index of `needle` holds it, within the sequence, after indices that do not.
pub proof fn lemma_index_of_first<A>(s: Seq<A>, needle: A)
    ensures
        match s.index_of_first(needle) {
            Some(i) => 0 <= i < s.len() && s[i] == needle && forall|j: int|
                0 <= j < i ==> s[j] != needle,
            None => forall|j: int| 0 <= j < s.len() ==> s[j] != needle,
        },
{
    s.index_of_first_ensures(needle);
}

/// The first index at which `needle` stands in `s`.
pub fn find_char(s: &[char], needle: char) -> (r: Option<usize>)
    ensures
        match r {
            Some(i) => s@.index_of_first(needle) == Some(i as int) && i < s@.len(),
            None => s@.index_of_first(needle) is None,
        },
{
    let mut i: usize = 0;
    while i < s.len()
        invariant
            i <= s@.len(),
            forall|j: int| 0 <= j < i ==> s@[j] != needle,
        decreases s@.len() - i,
    {
        if s[i] == needle {
            proof {
                lemma_first_index(s@, needle, i as int);
            }
            return Some(i);
        }
        i += 1;
    }
    proof {
        lemma_no_index(s@, needle);
    }
    None
}

} // verus!
