use vstd::prelude::*;
use jni::sys::jint;

verus! {

/// The host runtime's integer for a counter value: the same 32 bits read as
/// two's complement, so values above `i32::MAX` arrive negative.
pub fn to_jvalue(val: u32) -> (r: jint)
    ensures
        r == (if val <= i32::MAX {
            val as int
        } else {
            val as int - 0x1_0000_0000
        }),
{
    if val <= 0x7FFF_FFFF {
        val as i32
    } else {
        (val - 0x8000_0000) as i32 + i32::MIN
    }
}

} // verus!
