//! The report on a pair of colours and their contrast ratio.

use crate::colour::{colour_text, Colour};
use crate::wcag::compliance::{level_of, WcagCompliance};
use crate::wcag::ratio::{two_decimals, two_decimals_text};
use vstd::prelude::*;

verus! {

/// What the report says of a level. Only the failing verdict names the two
/// thresholds.
pub open spec fn verdict(level: WcagCompliance) -> Seq<char> {
    match level {
        WcagCompliance::Aaa => "\u{2705} Meets WCAG AAA standards (Enhanced)."@,
        WcagCompliance::Aa => "\u{2705} Meets WCAG AA standards (Minimum)."@,
        WcagCompliance::Fail => "\u{274c} Does not meet WCAG AA standards.\nNote: Text requires at least 4.5:1 for AA or 7:1 for AAA."@,
    }
}

/// The report: one line for each colour, a rule, the ratio with two decimals
/// and the verdict on the level that the ratio reaches.
pub open spec fn results(colour1: (u8, u8, u8), colour2: (u8, u8, u8), ratio: u32) -> Seq<char> {
    "Colour 1: "@ + colour_text(colour1) + "\nColour 2: "@ + colour_text(colour2)
        + "\n---\nContrast ratio: "@ + two_decimals(ratio) + ":1\n"@ + verdict(level_of(ratio))
}

/// The verdict on a level, as a text.
fn verdict_text(level: WcagCompliance) -> (text: &'static str)
    ensures
        text@ == verdict(level),
{
    match level {
        WcagCompliance::Aaa => "\u{2705} Meets WCAG AAA standards (Enhanced).",
        WcagCompliance::Aa => "\u{2705} Meets WCAG AA standards (Minimum).",
        WcagCompliance::Fail => "\u{274c} Does not meet WCAG AA standards.\nNote: Text requires at least 4.5:1 for AA or 7:1 for AAA.",
    }
}

/// Writes the report on two colours and their contrast ratio, which is given
/// as the bit pattern of a single-precision number.
pub fn format_results(colour1: Colour, colour2: Colour, ratio: u32) -> (text: String)
    ensures
        text@ == results(colour1@, colour2@, ratio),
{
    let level = WcagCompliance::from_ratio(ratio);
    let mut text = String::from_str("Colour 1: ");
    text.append(colour1.to_text().as_str());
    text.append("\nColour 2: ");
    text.append(colour2.to_text().as_str());
    text.append("\n---\nContrast ratio: ");
    text.append(two_decimals_text(ratio).as_str());
    text.append(":1\n");
    text.append(verdict_text(level));
    text
}

} // verus!
