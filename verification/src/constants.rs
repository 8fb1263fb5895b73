//! Code points with a fixed role in ENSIP-15.

use vstd::prelude::*;

verus! {

/// U+002E FULL STOP, the label separator.
pub const CP_STOP: u32 = 0x2E;

/// U+FE0F VARIATION SELECTOR-16, the optional emoji presentation selector.
pub const CP_FE0F: u32 = 0xFE0F;

/// U+2019 RIGHT SINGLE QUOTATION MARK, a fenced code point.
pub const CP_APOSTROPHE: u32 = 8217;

/// U+2044 FRACTION SLASH, a fenced code point.
pub const CP_SLASH: u32 = 8260;

/// U+30FB KATAKANA MIDDLE DOT, a fenced code point.
pub const CP_MIDDLE_DOT: u32 = 12539;

/// U+03BE GREEK SMALL LETTER XI.
pub const CP_XI_SMALL: u32 = 0x3BE;

/// U+039E GREEK CAPITAL LETTER XI, used when beautifying non-Greek labels.
pub const CP_XI_CAPITAL: u32 = 0x39E;

/// U+005F LOW LINE, allowed only as a leading run.
pub const CP_UNDERSCORE: u32 = 0x5F;

/// U+002D HYPHEN-MINUS, forbidden at positions 2 and 3 of an ASCII label.
pub const CP_HYPHEN: u32 = 0x2D;

/// U+200C ZERO WIDTH NON-JOINER, invisible outside an emoji sequence.
pub const CP_ZWNJ: u32 = 0x200C;

/// U+200D ZERO WIDTH JOINER, invisible outside an emoji sequence.
pub const CP_ZWJ: u32 = 0x200D;

} // verus!
