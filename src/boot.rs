//! What the kernel writes, once, at boot.
use vstd::prelude::*;
use vstd::string::{is_ascii, is_ascii_spec_bytes, StringSliceAdditionalSpecFns};

verus! {

/// The line the kernel writes at boot.
pub const BOOT_BANNER: &'static str = "HELLO FROM RUST\n";

/// The values handed to the byte-output device at boot, in order: each byte
/// of the banner, widened to the device's integer argument.
pub open spec fn boot_output() -> Seq<i32> {
    BOOT_BANNER@.map_values(|c: char| c as i32)
}

/// The bytes of the boot banner, one device write each, in order.
pub fn boot_message() -> (r: Vec<i32>)
    ensures
        r@ == boot_output(),
{
    proof {
        reveal_strlit("HELLO FROM RUST\n");
        assert(is_ascii(BOOT_BANNER));
        is_ascii_spec_bytes(BOOT_BANNER);
    }
    let bytes = BOOT_BANNER.as_bytes();
    let mut out: Vec<i32> = Vec::new();
    let mut i: usize = 0;
    while i < bytes.len()
        invariant
            i <= bytes@.len(),
            bytes@ == BOOT_BANNER.spec_bytes(),
            out@ == bytes@.subrange(0, i as int).map_values(|b: u8| b as i32),
        decreases bytes@.len() - i,
    {
        out.push(bytes[i] as i32);
        i = i + 1;
        assert(out@ =~= bytes@.subrange(0, i as int).map_values(|b: u8| b as i32));
    }
    assert(bytes@.subrange(0, i as int).map_values(|b: u8| b as i32) =~= boot_output());
    out
}

} // verus!
