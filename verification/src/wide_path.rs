//! Paths whose names are sequences of sixteen-bit units, compared without regard
//! to the case of ASCII letters.

use vstd::prelude::*;

verus! {

/// The most units that a name may have, for its length in bytes to fit.
pub const MAX_NAME_UNITS: usize = 32_767;

/// A unit that is an ASCII capital as the small letter; any other as it is.
pub open spec fn small_unit(unit: u16) -> u16 {
    if 0x41 <= unit <= 0x5a {
        (unit + 0x20) as u16
    } else {
        unit
    }
}

/// A name with its ASCII capitals as small letters.
pub open spec fn small_name(name: Seq<u16>) -> Seq<u16> {
    name.map_values(|unit: u16| small_unit(unit))
}

/// The names of a path, with their ASCII capitals as small letters.
pub open spec fn small_path(path: Seq<Vec<u16>>) -> Seq<Seq<u16>> {
    path.map_values(|name: Vec<u16>| small_name(name@))
}

fn small(unit: u16) -> (out: u16)
    ensures
        out == small_unit(unit),
{
    if 0x41 <= unit && unit <= 0x5a {
        unit + 0x20
    } else {
        unit
    }
}

/// Whether two names are the same but for the case of ASCII letters.
pub fn os_string_eq_ignore_ascii_case(left: &[u16], right: &[u16]) -> (same: bool)
    ensures
        same == (small_name(left@) == small_name(right@)),
{
    if left.len() != right.len() {
        assert(small_name(left@).len() != small_name(right@).len());
        return false;
    }
    let mut i: usize = 0;
    while i < left.len()
        invariant
            i <= left@.len(),
            left@.len() == right@.len(),
            forall|k: int| 0 <= k < i ==> small_unit(#[trigger] left@[k]) == small_unit(right@[k]),
        decreases left@.len() - i,
    {
        if small(left[i]) != small(right[i]) {
            assert(small_name(left@)[i as int] != small_name(right@)[i as int]);
            return false;
        }
        i += 1;
    }
    assert(small_name(left@) =~= small_name(right@));
    true
}

fn same_front(left: &Vec<Vec<u16>>, right: &Vec<Vec<u16>>) -> (same: bool)
    requires
        left@.len() <= right@.len(),
    ensures
        same == (small_path(left@) == small_path(right@).take(left@.len() as int)),
{
    let ghost front = small_path(right@).take(left@.len() as int);
    let mut i: usize = 0;
    while i < left.len()
        invariant
            i <= left@.len(),
            left@.len() <= right@.len(),
            front == small_path(right@).take(left@.len() as int),
            forall|k: int| 0 <= k < i ==> #[trigger] small_path(left@)[k] == front[k],
        decreases left@.len() - i,
    {
        if !os_string_eq_ignore_ascii_case(left[i].as_slice(), right[i].as_slice()) {
            assert(small_path(left@)[i as int] != front[i as int]);
            return false;
        }
        i += 1;
    }
    assert(small_path(left@) =~= front);
    true
}

/// Whether two paths are the same but for the case of ASCII letters.
pub fn paths_equal(left: &Vec<Vec<u16>>, right: &Vec<Vec<u16>>) -> (same: bool)
    ensures
        same == (small_path(left@) == small_path(right@)),
{
    if left.len() != right.len() {
        assert(small_path(left@).len() != small_path(right@).len());
        return false;
    }
    assert(small_path(right@).take(left@.len() as int) =~= small_path(right@));
    same_front(left, right)
}

/// Whether one path goes on where another ends.
pub open spec fn is_below(root: Seq<Seq<u16>>, candidate: Seq<Seq<u16>>) -> bool {
    root.len() < candidate.len() && candidate.take(root.len() as int) == root
}

/// Whether a path is below another, but for the case of ASCII letters.
pub fn path_is_below(root: &Vec<Vec<u16>>, candidate: &Vec<Vec<u16>>) -> (below: bool)
    ensures
        below == is_below(small_path(root@), small_path(candidate@)),
{
    candidate.len() > root.len() && same_front(root, candidate)
}

/// Whether a name can be handed to the system: it is not empty, holds no zero,
/// and its length in bytes fits.
pub open spec fn is_usable_name(name: Seq<u16>) -> bool {
    0 < name.len() <= MAX_NAME_UNITS && forall|i: int|
        0 <= i < name.len() ==> #[trigger] name[i] != 0
}

/// The length of a name in bytes, if it can be handed to the system.
pub fn name_byte_length(name: &[u16]) -> (length: Option<u16>)
    ensures
        match length {
            Some(bytes) => is_usable_name(name@) && bytes == 2 * name@.len(),
            None => !is_usable_name(name@),
        },
{
    if name.len() == 0 || name.len() > MAX_NAME_UNITS {
        return None;
    }
    let mut i: usize = 0;
    while i < name.len()
        invariant
            i <= name@.len(),
            forall|k: int| 0 <= k < i ==> #[trigger] name@[k] != 0,
        decreases name@.len() - i,
    {
        if name[i] == 0 {
            return None;
        }
        i += 1;
    }
    Some((2 * name.len()) as u16)
}

/// A path that is below another is not the same as it, and is below everything
/// that the other is below.
pub proof fn law_below_leads_down(top: Seq<Seq<u16>>, middle: Seq<Seq<u16>>, path: Seq<Seq<u16>>)
    requires
        is_below(middle, path),
    ensures
        middle != path,
        !is_below(path, middle),
        is_below(top, middle) ==> is_below(top, path),
{
    if is_below(top, middle) {
        assert(path.take(middle.len() as int).take(top.len() as int) =~= path.take(
            top.len() as int,
        ));
    }
}

} // verus!
