//! Priority labels: exactly `#N` with N from 1 to 6.
use vstd::prelude::*;

use crate::text::chars_of;

verus! {

/// The priority a label name stands for: the name is exactly two characters,
/// `#` followed by one digit from `1` to `6`.
pub open spec fn priority_of_label(name: Seq<char>) -> Option<u8> {
    if name.len() == 2 && name[0] == '#' && '1' <= name[1] && name[1] <= '6' {
        Some(((name[1] as u32) - ('0' as u32)) as u8)
    } else {
        None
    }
}

/// The priority number of a label name, if it is a priority label.
pub fn parse_priority_label(label_name: &str) -> (r: Option<u8>)
    ensures
        r == priority_of_label(label_name@),
        r matches Some(n) ==> 1 <= n <= 6,
{
    let cs = chars_of(label_name);
    if cs.len() != 2 || cs[0] != '#' {
        return None;
    }
    let d = cs[1];
    if '1' <= d && d <= '6' {
        let v: u32 = (d as u32) - ('0' as u32);
        Some(v as u8)
    } else {
        None
    }
}

} // verus!
