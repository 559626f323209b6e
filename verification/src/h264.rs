//! Finding keyframes in H.264 byte streams.
//!
//! In the byte-stream format every unit is announced by the start code
//! `00 00 01`, and the low five bits of the byte behind the start code give
//! the unit's type. Type 5 is a slice of an instantaneous decoder refresh
//! picture: decoding can start there.

use vstd::prelude::*;

verus! {

/// Type of a unit that holds a slice of a refresh picture.
pub const NAL_IDR_SLICE: u8 = 5;

/// Whether a unit of the refresh type starts at `at`: a start code stands
/// there, and the byte behind it names that type.
pub open spec fn idr_unit_at(data: Seq<u8>, at: int) -> bool {
    &&& 0 <= at
    &&& at + 3 < data.len()
    &&& data[at] == 0
    &&& data[at + 1] == 0
    &&& data[at + 2] == 1
    &&& data[at + 3] & 0x1f == NAL_IDR_SLICE
}

/// Whether the bytes hold a unit of the refresh type.
pub open spec fn holds_keyframe(data: Seq<u8>) -> bool {
    exists|at: int| idr_unit_at(data, at)
}

/// Whether the bytes hold a keyframe.
pub fn contains_keyframe(data: &[u8]) -> (found: bool)
    ensures
        found == holds_keyframe(data@),
{
    if data.len() < 4 {
        assert forall|at: int| !idr_unit_at(data@, at) by {}
        return false;
    }
    let last: usize = data.len() - 3;
    let mut i: usize = 0;
    while i < last
        invariant
            last == data@.len() - 3,
            i <= last,
            forall|at: int| 0 <= at < i ==> !idr_unit_at(data@, at),
        decreases last - i,
    {
        if data[i] == 0 && data[i + 1] == 0 && data[i + 2] == 1 && data[i + 3] & 0x1f
            == NAL_IDR_SLICE {
            assert(idr_unit_at(data@, i as int));
            return true;
        }
        i = i + 1;
    }
    assert forall|at: int| !idr_unit_at(data@, at) by {}
    false
}

} // verus!
