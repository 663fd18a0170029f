//! Comparing, copying and searching strings and lists of strings.
use vstd::prelude::*;
use vstd::utf8::encode_utf8;

verus! {

/// The characters of each string of a list.
pub open spec fn texts(strings: Seq<String>) -> Seq<Seq<char>> {
    strings.map_values(|s: String| s@)
}

/// `order` lists every element of `set`, each of them once.
pub open spec fn enumerates<A>(order: Seq<A>, set: Set<A>) -> bool {
    &&& order.no_duplicates()
    &&& order.to_set() == set
}

/// Whether two string slices hold the same characters.
pub fn same_text(a: &str, b: &str) -> (same: bool)
    ensures
        same == (a@ == b@),
{
    a.to_owned() == b.to_owned()
}

/// The length of a string in bytes, as it is encoded in memory.
pub fn byte_len(s: &str) -> (n: usize)
    ensures
        n == encode_utf8(s@).len(),
{
    s.as_bytes().len()
}

/// Whether two lists hold the same strings in the same order.
pub fn same_texts(a: &Vec<String>, b: &Vec<String>) -> (same: bool)
    ensures
        same == (texts(a@) == texts(b@)),
{
    if a.len() != b.len() {
        assert(texts(a@).len() != texts(b@).len());
        return false;
    }
    let mut i: usize = 0;
    while i < a.len()
        invariant
            i <= a.len(),
            a.len() == b.len(),
            forall|j: int| 0 <= j < i ==> #[trigger] a[j]@ == b[j]@,
        decreases a.len() - i,
    {
        if a[i] != b[i] {
            assert(texts(a@)[i as int] != texts(b@)[i as int]);
            return false;
        }
        i += 1;
    }
    assert(texts(a@) =~= texts(b@));
    true
}

/// The position of a string in a list, if it is there.
pub fn position_of(strings: &Vec<String>, s: &str) -> (position: Option<usize>)
    ensures
        position is Some <==> texts(strings@).contains(s@),
        position matches Some(i) ==> i < strings.len() && strings[i as int]@ == s@,
{
    let mut i: usize = 0;
    while i < strings.len()
        invariant
            i <= strings.len(),
            forall|j: int| 0 <= j < i ==> #[trigger] strings[j]@ != s@,
        decreases strings.len() - i,
    {
        if same_text(strings[i].as_str(), s) {
            assert(texts(strings@)[i as int] == s@);
            return Some(i);
        }
        i += 1;
    }
    assert forall|j: int| 0 <= j < texts(strings@).len() implies texts(strings@)[j] != s@ by {
        assert(strings[j]@ != s@);
    }
    None
}

/// Whether a list holds a string.
pub fn contains_text(strings: &Vec<String>, s: &str) -> (found: bool)
    ensures
        found == texts(strings@).contains(s@),
{
    position_of(strings, s).is_some()
}

/// A copy of a list of strings.
pub fn copy_texts(strings: &Vec<String>) -> (copy: Vec<String>)
    ensures
        texts(copy@) == texts(strings@),
{
    let mut copy: Vec<String> = Vec::new();
    let mut i: usize = 0;
    while i < strings.len()
        invariant
            i <= strings.len(),
            copy.len() == i,
            forall|j: int| 0 <= j < i ==> #[trigger] copy[j]@ == strings[j]@,
        decreases strings.len() - i,
    {
        copy.push(strings[i].clone());
        i += 1;
    }
    assert(texts(copy@) =~= texts(strings@));
    copy
}

/// The characters of a list of strings are those of its strings, string for
/// string.
pub proof fn texts_are_those_of_the_strings(strings: Seq<String>)
    ensures
        texts(strings).len() == strings.len(),
        forall|i: int| 0 <= i < strings.len() ==> #[trigger] texts(strings)[i] == strings[i]@,
{
}

/// An enumeration of a set holds an element exactly if the set does, and at one
/// place only.
pub proof fn enumeration_holds_each_element_once<A>(order: Seq<A>, set: Set<A>)
    ensures
        enumerates(order, set) <==> {
            &&& forall|x: A| #[trigger] set.contains(x) <==> order.contains(x)
            &&& forall|i: int, j: int|
                0 <= i < j < order.len() ==> #[trigger] order[i] != #[trigger] order[j]
        },
{
    if enumerates(order, set) {
        assert forall|x: A| #[trigger] set.contains(x) <==> order.contains(x) by {
            assert(order.to_set().contains(x) == order.contains(x));
        }
    }
    if (forall|x: A| #[trigger] set.contains(x) <==> order.contains(x)) && (forall|i: int, j: int|
        0 <= i < j < order.len() ==> #[trigger] order[i] != #[trigger] order[j]) {
        assert(order.to_set() =~= set);
        assert forall|i: int, j: int|
            0 <= i < order.len() && 0 <= j < order.len() && i != j implies order[i] != order[j] by {
            if i < j {
                assert(order[i] != order[j]);
            } else {
                assert(order[j] != order[i]);
            }
        }
    }
}

} // verus!
