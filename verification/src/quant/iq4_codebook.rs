//! The sixteen levels that 4-bit indices stand for.

use vstd::prelude::*;

verus! {

/// Level of each 4-bit index.
pub const KVALUES_IQ4NL: [i8; 16] = [
    -127,
    -104,
    -83,
    -65,
    -49,
    -35,
    -22,
    -10,
    1,
    13,
    25,
    38,
    53,
    69,
    89,
    113,
];

/// The level of the low index in `b`.
pub open spec fn low_level(b: u8) -> i8 {
    KVALUES_IQ4NL[b as int % 16]
}

/// The level of the high index in `b`.
pub open spec fn high_level(b: u8) -> i8 {
    KVALUES_IQ4NL[b as int / 16]
}

/// The level of the low index in `b`.
pub fn low(b: u8) -> (v: i8)
    ensures
        v == low_level(b),
        -127 <= v <= 113,
{
    KVALUES_IQ4NL[(b % 16) as usize]
}

/// The level of the high index in `b`.
pub fn high(b: u8) -> (v: i8)
    ensures
        v == high_level(b),
        -127 <= v <= 113,
{
    KVALUES_IQ4NL[(b / 16) as usize]
}

/// The levels grow with their index, from -127 to 113, and only the first eight
/// are negative. From one index to the next they grow by these steps.
pub proof fn levels_grow_with_their_index()
    ensures
        KVALUES_IQ4NL[0] == -127,
        KVALUES_IQ4NL[1] - KVALUES_IQ4NL[0] == 23,
        KVALUES_IQ4NL[2] - KVALUES_IQ4NL[1] == 21,
        KVALUES_IQ4NL[3] - KVALUES_IQ4NL[2] == 18,
        KVALUES_IQ4NL[4] - KVALUES_IQ4NL[3] == 16,
        KVALUES_IQ4NL[5] - KVALUES_IQ4NL[4] == 14,
        KVALUES_IQ4NL[6] - KVALUES_IQ4NL[5] == 13,
        KVALUES_IQ4NL[7] - KVALUES_IQ4NL[6] == 12,
        KVALUES_IQ4NL[8] - KVALUES_IQ4NL[7] == 11,
        KVALUES_IQ4NL[9] - KVALUES_IQ4NL[8] == 12,
        KVALUES_IQ4NL[10] - KVALUES_IQ4NL[9] == 12,
        KVALUES_IQ4NL[11] - KVALUES_IQ4NL[10] == 13,
        KVALUES_IQ4NL[12] - KVALUES_IQ4NL[11] == 15,
        KVALUES_IQ4NL[13] - KVALUES_IQ4NL[12] == 16,
        KVALUES_IQ4NL[14] - KVALUES_IQ4NL[13] == 20,
        KVALUES_IQ4NL[15] - KVALUES_IQ4NL[14] == 24,
        KVALUES_IQ4NL[15] == 113,
        KVALUES_IQ4NL[7] < 0 < KVALUES_IQ4NL[8],
{
}

} // verus!
