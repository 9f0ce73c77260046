use vstd::prelude::*;
use x86_64::PrivilegeLevel;

verus! {

/// The interrupt-stack-table slot of the double-fault handler's stack.
pub const DOUBLE_FAULT_IST_INDEX: u16 = 0;

/// The requested privilege level of ring 3, as `PrivilegeLevel::Ring3 as u16` gives it (3).
#[verifier::external_body]
fn ring3() -> (r: u16)
    ensures
        r == 3,
{
    PrivilegeLevel::Ring3 as u16
}

/// The code and data segment selectors for user mode: the user segments'
/// selectors with the requested privilege level set to ring 3.
pub fn usermode_selectors(user_code: u16, user_data: u16) -> (r: (u16, u16))
    ensures
        r.0 == user_code | 3,
        r.1 == user_data | 3,
{
    let rpl = ring3();
    (user_code | rpl, user_data | rpl)
}

/// A user selector keeps its table index and has privilege level 3.
pub proof fn usermode_selector_layout(selector: u16)
    ensures
        (selector | 3) / 8 == selector / 8,
        (selector | 3) % 4 == 3,
{
    assert((selector | 3) / 8 == selector / 8) by (bit_vector);
    assert((selector | 3) % 4 == 3) by (bit_vector);
}

} // verus!
