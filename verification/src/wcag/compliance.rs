//! The WCAG level that a contrast ratio reaches.

use crate::wcag::ratio::{
    at_least_halves, lemma_at_least_halves, lemma_thresholds, FOUR_AND_A_HALF, INFINITY, SEVEN,
};
use vstd::prelude::*;

verus! {

/// The three verdicts on a contrast ratio.
#[derive(Clone, Copy, Debug, PartialEq, Eq, Structural)]
pub enum WcagCompliance {
    /// At least 7:1.
    Aaa,
    /// At least 4.5:1, and less than 7:1.
    Aa,
    /// Less than 4.5:1.
    Fail,
}

/// The level that a ratio reaches: `Aaa` from 7 on, `Aa` from 4.5 on, `Fail`
/// below that and for a pattern that stands for no number.
pub open spec fn level_of(ratio: u32) -> WcagCompliance {
    if at_least_halves(ratio, 14) {
        WcagCompliance::Aaa
    } else if at_least_halves(ratio, 9) {
        WcagCompliance::Aa
    } else {
        WcagCompliance::Fail
    }
}

/// The levels by bit pattern: a ratio reaches a level exactly where its
/// pattern lies between that of the level's lower bound and that of positive
/// infinity.
pub proof fn lemma_level_by_pattern(ratio: u32)
    ensures
        level_of(ratio) == if SEVEN <= ratio <= INFINITY {
            WcagCompliance::Aaa
        } else if FOUR_AND_A_HALF <= ratio <= INFINITY {
            WcagCompliance::Aa
        } else {
            WcagCompliance::Fail
        },
{
    lemma_thresholds();
    lemma_at_least_halves(ratio, 14, SEVEN);
    lemma_at_least_halves(ratio, 9, FOUR_AND_A_HALF);
}

impl WcagCompliance {
    /// Classifies a contrast ratio, given as the bit pattern of a
    /// single-precision number.
    pub fn from_ratio(ratio: u32) -> (level: WcagCompliance)
        ensures
            level == level_of(ratio),
    {
        proof {
            lemma_level_by_pattern(ratio);
        }
        if SEVEN <= ratio && ratio <= INFINITY {
            WcagCompliance::Aaa
        } else if FOUR_AND_A_HALF <= ratio && ratio <= INFINITY {
            WcagCompliance::Aa
        } else {
            WcagCompliance::Fail
        }
    }
}

} // verus!
