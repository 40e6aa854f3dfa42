//! Which packages of a workspace are converted, from the options alone.
//!
//! The caller supplies the workspace's package names; this module decides,
//! for each, whether its manifest is converted.  When neither a package set
//! nor the workspace flag is given, the caller falls back to the workspace's
//! default members instead.

use vstd::prelude::*;

use crate::options::TableDepsOption;

verus! {

/// Whether a name occurs in a list of names.
pub open spec fn contains_name(list: Seq<String>, name: Seq<char>) -> bool {
    exists|i: int| 0 <= i < list.len() && (#[trigger] list[i])@ == name
}

/// Whether the options select the package of this name: with the workspace
/// flag, every package not excluded; otherwise, every package named in the
/// package set.
pub open spec fn package_selected(name: Seq<char>, option: TableDepsOption) -> bool {
    if option.workspace {
        !contains_name(option.exclude@, name)
    } else {
        contains_name(option.package@, name)
    }
}

/// True iff the options name no packages at all, so that the workspace's
/// default members are meant.
pub fn use_default_members(option: &TableDepsOption) -> (r: bool)
    ensures
        r == (!option.workspace && option.package@.len() == 0),
{
    !option.workspace() && option.package().len() == 0
}

fn name_listed(list: &Vec<String>, name: &String) -> (r: bool)
    ensures
        r == contains_name(list@, name@),
{
    let mut i: usize = 0;
    while i < list.len()
        invariant
            i <= list.len(),
            forall|j: int| 0 <= j < i ==> (#[trigger] list@[j])@ != name@,
        decreases list.len() - i,
    {
        if list[i] == *name {
            return true;
        }
        i = i + 1;
    }
    false
}

/// The positions, in ascending order, of the package names the options
/// select.
pub fn selected_indices(names: &Vec<String>, option: &TableDepsOption) -> (r: Vec<usize>)
    ensures
        forall|j: int|
            0 <= j < r@.len() ==> (#[trigger] r@[j]) < names@.len() && package_selected(
                names@[r@[j] as int]@,
                *option,
            ),
        forall|a: int, b: int| 0 <= a < b < r@.len() ==> r@[a] < r@[b],
        forall|i: int|
            0 <= i < names@.len() && package_selected((#[trigger] names@[i])@, *option)
                ==> exists|j: int| 0 <= j < r@.len() && r@[j] == i,
{
    let mut r: Vec<usize> = Vec::new();
    let mut i: usize = 0;
    while i < names.len()
        invariant
            i <= names.len(),
            forall|j: int|
                0 <= j < r@.len() ==> (#[trigger] r@[j]) < i && package_selected(
                    names@[r@[j] as int]@,
                    *option,
                ),
            forall|a: int, b: int| 0 <= a < b < r@.len() ==> r@[a] < r@[b],
            forall|k: int|
                0 <= k < i && package_selected((#[trigger] names@[k])@, *option)
                    ==> exists|j: int| 0 <= j < r@.len() && r@[j] == k,
        decreases names.len() - i,
    {
        let take = if option.workspace() {
            !name_listed(option.exclude(), &names[i])
        } else {
            name_listed(option.package(), &names[i])
        };
        if take {
            let ghost before = r@;
            r.push(i);
            proof {
                assert(r@ == before.push(i));
                assert(forall|j: int| 0 <= j < before.len() ==> r@[j] == before[j]);
                assert(r@[r@.len() - 1] == i);
            }
        }
        i = i + 1;
    }
    r
}

} // verus!
