//! ENSIP-15 normalization for ENS names.
//!
//! The engine is parameterized by the static code-point tables (the parsed
//! `spec.json` / `nf.json` documents); callers construct a [`CodePointsSpecs`]
//! once and reuse it for any number of normalizations.

use vstd::prelude::*;

mod beautify;
mod code_points;
mod constants;
mod error;
mod join;
mod laws;
mod normalizer;
mod static_data;
mod tokenize;
mod tokens;
mod utils;
mod validate;

pub use constants::{
    CP_APOSTROPHE, CP_FE0F, CP_HYPHEN, CP_MIDDLE_DOT, CP_SLASH, CP_STOP, CP_UNDERSCORE,
    CP_XI_CAPITAL, CP_XI_SMALL,
};
pub use beautify::{beautify_labels, cps_replaced_greek};
pub use code_points::{
    whole_map_keys_parse, CodePointsSpecs, ParsedGroup, ParsedGroupV, ParsedWholeMap,
    ParsedWholeObject, ParsedWholeValue, ParsedWholeValueV, SpecsV,
};
pub use error::{
    CurrableError, CurrableErrorV, DisallowedSequence, DisallowedSequenceV, ProcessError,
    ProcessErrorV,
};
pub use join::{join_cps, join_labels};
pub use laws::{
    law_all_emoji_label_classified_emoji, law_ascii_label_is_ascii,
    law_confused_groups_ignore_emoji, law_emoji_label_is_emoji, law_emoji_tokens_well_formed,
    law_nfc_only_on_checked_runs, law_no_adjacent_valid_tokens,
    law_tokenize_preserves_input_size,
};
pub use normalizer::{
    beautify, normalize, process, tokenize, EnsNameNormalizer, ProcessedName,
};
pub use static_data::{
    DecompItem, Fenced, Group, GroupName, GroupNameV, Mapped, NfJson, Spec, Whole, WholeMapItem,
    WholeObject, WholeObjectEntry, WholeValue,
};
pub use tokenize::{perform_nfc_transform, tokenize_input, TokenizedLabel, TokenizedName};
pub use tokens::{
    CollapsedEnsNameToken, CollapsedTokenV, EnsNameToken, TokenDisallowed, TokenEmoji,
    TokenIgnored, TokenMapped, TokenNfc, TokenStop, TokenV, TokenValid,
};
pub use utils::{cp2str, cps2str, filter_fe0f, is_ascii, nfc, str2cps};
pub use validate::{
    nfd_cps, validate_label, validate_name, LabelType, ValidatedLabel, ValidatedLabelV,
};

verus! {

/// An unsigned 32-bit Unicode code point.
pub type CodePoint = u32;

} // verus!
