use vstd::prelude::*;

verus! {

/// The tag names held by a list of strings, each as its characters.
pub open spec fn names(list: Seq<String>) -> Seq<Seq<char>> {
    Seq::new(list.len(), |i: int| list[i]@)
}

/// Whether two lists of names have a name in common.
pub open spec fn share_a_name(left: Seq<Seq<char>>, right: Seq<Seq<char>>) -> bool {
    exists|i: int| 0 <= i < left.len() && right.contains(#[trigger] left[i])
}

/// Whether `name` occurs in `list`.
pub fn has_name(list: &Vec<String>, name: &String) -> (found: bool)
    ensures
        found == names(list@).contains(name@),
{
    let mut i: usize = 0;
    while i < list.len()
        invariant
            i <= list.len(),
            forall|k: int| 0 <= k < i ==> names(list@)[k] != name@,
        decreases list.len() - i,
    {
        if list[i] == *name {
            assert(names(list@)[i as int] == name@);
            return true;
        }
        i += 1;
    }
    false
}

/// Whether some name of `left` occurs in `right`.
pub fn have_common_name(left: &Vec<String>, right: &Vec<String>) -> (found: bool)
    ensures
        found == share_a_name(names(left@), names(right@)),
{
    let mut i: usize = 0;
    while i < left.len()
        invariant
            i <= left.len(),
            forall|k: int| 0 <= k < i ==> !names(right@).contains(#[trigger] names(left@)[k]),
        decreases left.len() - i,
    {
        if has_name(right, &left[i]) {
            assert(names(right@).contains(names(left@)[i as int]));
            return true;
        }
        i += 1;
    }
    false
}

/// A copy of a list of names.
pub fn copy_of(list: &Vec<String>) -> (copy: Vec<String>)
    ensures
        names(copy@) == names(list@),
{
    let mut copy: Vec<String> = Vec::new();
    let mut i: usize = 0;
    while i < list.len()
        invariant
            i <= list.len(),
            copy.len() == i,
            forall|k: int| 0 <= k < i ==> copy@[k]@ == list@[k]@,
        decreases list.len() - i,
    {
        copy.push(list[i].clone());
        i += 1;
    }
    assert(names(copy@) =~= names(list@));
    copy
}

} // verus!
