//! Searching in slices.
use vstd::prelude::*;
use vstd::std_specs::cmp::PartialEqSpec;

verus! {

/// Whether `needle` stands in `s` at position `i`, by the `==` of the elements.
pub open spec fn occurs_at<T: PartialEq>(s: Seq<T>, needle: Seq<T>, i: int) -> bool {
    &&& 0 <= i
    &&& i + needle.len() <= s.len()
    &&& forall|k: int| 0 <= k < needle.len() ==> s[i + k].eq_spec(#[trigger] &needle[k])
}

/// Whether `needle` stands in `s` at position `i`.
fn starts_at<T: PartialEq>(s: &[T], needle: &[T], i: usize) -> (r: bool)
    requires
        i + needle@.len() <= s@.len(),
    ensures
        T::obeys_eq_spec() ==> r == occurs_at(s@, needle@, i as int),
{
    let len = s.len();
    let mut k: usize = 0;
    while k < needle.len()
        invariant
            k <= needle@.len(),
            len == s@.len(),
            i + needle@.len() <= len,
            T::obeys_eq_spec() ==> forall|j: int|
                0 <= j < k ==> s@[i + j].eq_spec(#[trigger] &needle@[j]),
        decreases needle@.len() - k,
    {
        if s[i + k] != needle[k] {
            assert(T::obeys_eq_spec() ==> !s@[i + k].eq_spec(&needle@[k as int]));
            return false;
        }
        k = k + 1;
    }
    true
}

/// `slice_find` returns the index of the first place of `needle` in slice `s` if `needle` is a
/// subslice of `s`, otherwise returns `None`.
pub fn slice_find<T: PartialEq>(s: &[T], needle: &[T]) -> (r: Option<usize>)
    requires
        s@.len() < usize::MAX,
    ensures
        T::obeys_eq_spec() ==> match r {
            Some(i) => occurs_at(s@, needle@, i as int) && forall|j: int|
                0 <= j < i ==> !occurs_at(s@, needle@, j),
            None => forall|j: int| !occurs_at(s@, needle@, j),
        },
{
    let end: usize = (s.len() + 1).saturating_sub(needle.len());
    let mut i: usize = 0;
    while i < end
        invariant
            i <= end,
            end == if s@.len() + 1 >= needle@.len() { s@.len() + 1 - needle@.len() } else { 0 },
            T::obeys_eq_spec() ==> forall|j: int| 0 <= j < i ==> !occurs_at(s@, needle@, j),
        decreases end - i,
    {
        if starts_at(s, needle, i) {
            return Some(i);
        }
        i = i + 1;
    }
    None
}

} // verus!
