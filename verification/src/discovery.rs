//! Parsing rules for adapter discovery. Reading the device tree itself is
//! input/output and lives outside the library; these functions turn the raw
//! file texts into counter values and link states.

pub mod fake;

use crate::text;
use vstd::prelude::*;

verus! {

/// Default unit-scale factor for data (byte) counters: some hardware
/// reports byte counters in 32-bit words, so the caller picks the factor
/// that matches its hardware instead of relying on a built-in constant.
pub const DEFAULT_DATA_MULTIPLIER: u64 = 4;

/// What reading a raw counter file yields: the trimmed decimal value scaled
/// by the caller's unit factor (saturating), or zero for anything
/// malformed or out of range.
pub open spec fn spec_counter_value(s: Seq<char>, scale: u64) -> int {
    match text::dec_parse(text::spec_trim(s)) {
        Some(v) => {
            if v * scale <= u64::MAX {
                v * scale
            } else {
                u64::MAX as int
            }
        },
        None => 0,
    }
}

/// Parse one raw counter file: trim it, read it as an unsigned decimal and
/// scale it by `scale`, yielding zero for malformed or missing values.
pub fn parse_counter_value(content: &str, scale: u64) -> (r: u64)
    ensures
        r as int == spec_counter_value(content@, scale),
{
    let trimmed = text::trim(content);
    match text::parse_u64(trimmed) {
        Some(v) => {
            if scale == 0 {
                proof {
                    assert(v * scale == 0) by (nonlinear_arith)
                        requires
                            scale == 0,
                    ;
                }
                return 0;
            }
            if v <= u64::MAX / scale {
                proof {
                    assert(v * scale <= u64::MAX) by (nonlinear_arith)
                        requires
                            1 <= scale,
                            0 <= v <= u64::MAX as int / scale as int,
                    ;
                }
                v * scale
            } else {
                proof {
                    assert(v * scale > u64::MAX) by (nonlinear_arith)
                        requires
                            1 <= scale,
                            v > u64::MAX as int / scale as int,
                    ;
                }
                u64::MAX
            }
        },
        None => 0,
    }
}

/// Whether a counter file name carries byte ("data") counters, which are
/// the ones the unit-scale factor applies to.
pub fn is_data_counter(name: &str) -> (r: bool)
    ensures
        r == (name@ == "port_rcv_data"@ || name@ == "port_xmit_data"@),
{
    text::str_eq(name, "port_rcv_data") || text::str_eq(name, "port_xmit_data")
}

} // verus!
