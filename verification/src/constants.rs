use vstd::prelude::*;

verus! {

/// Run-length order table J of JPEG-LS (ISO/IEC 14495-1, A.7.1.2):
/// the number of bits that code the remainder of a run at run index `i`.
pub open spec fn spec_j(i: int) -> int {
    if i < 4 { 0 }
    else if i < 8 { 1 }
    else if i < 12 { 2 }
    else if i < 16 { 3 }
    else if i < 18 { 4 }
    else if i < 20 { 5 }
    else if i < 22 { 6 }
    else if i < 24 { 7 }
    else { i - 16 }
}

/// Returns `J[index]` of the run-length order table.
pub fn j(index: usize) -> (r: i32)
    requires
        index < 32,
    ensures
        r == spec_j(index as int),
        0 <= r <= 15,
{
    if index < 4 {
        0
    } else if index < 8 {
        1
    } else if index < 12 {
        2
    } else if index < 16 {
        3
    } else if index < 18 {
        4
    } else if index < 20 {
        5
    } else if index < 22 {
        6
    } else if index < 24 {
        7
    } else {
        (index - 16) as i32
    }
}

} // verus!
