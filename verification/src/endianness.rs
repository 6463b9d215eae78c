use vstd::prelude::*;

verus! {

/// Byte order used when interpreting multi-byte values. `Native` stands for
/// whichever order the executing platform uses, resolved at the point of use;
/// it is a parameter passed to every decode call, never stored state.
#[derive(Clone, Copy, PartialEq, Eq, Structural, PartialOrd, Ord, Hash, Debug)]
pub enum Endianness {
    Little,
    Native,
    Big,
}

impl Default for Endianness {
    fn default() -> (r: Self)
        ensures
            r == Endianness::Native,
    {
        Endianness::Native
    }
}

/// Which concrete byte orders an `Endianness` value may stand for:
/// `Little` and `Big` name themselves; `Native` may resolve to either,
/// depending on the executing platform.
pub open spec fn endianness_resolves(e: Endianness, little: bool) -> bool {
    match e {
        Endianness::Little => little,
        Endianness::Big => !little,
        Endianness::Native => true,
    }
}

/// Relies on u16::from_ne_bytes: it reads the two bytes in the platform's own
/// order, so the probe comes out as 1 exactly on a little-endian machine.
#[verifier::external_body]
fn platform_is_little() -> bool {
    u16::from_ne_bytes([1u8, 0u8]) == 1
}

/// Turns the three-valued byte-order selector into a concrete order,
/// resolving `Native` against the executing platform at call time.
pub fn resolve_order(e: Endianness) -> (little: bool)
    ensures
        endianness_resolves(e, little),
{
    match e {
        Endianness::Little => true,
        Endianness::Big => false,
        Endianness::Native => platform_is_little(),
    }
}

} // verus!
