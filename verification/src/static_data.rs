//! The parsed shapes of the two static data documents consumed by the
//! engine: the ENSIP-15 specification tables and the normalization tables.
//!
//! These are plain data types; reading them from JSON is left to the caller.

use vstd::prelude::*;

verus! {

/// The normalization-form document: canonical decomposition and auxiliary
/// tables.
#[derive(Debug, Clone)]
pub struct NfJson {
    pub created: String,
    pub unicode: String,
    pub ranks: Vec<Vec<u32>>,
    pub exclusions: Vec<u32>,
    pub decomp: Vec<DecompItem>,
    pub qc: Vec<u32>,
}

/// One canonical decomposition: `number` decomposes to `nested_numbers`.
#[derive(Debug, Clone)]
pub struct DecompItem {
    pub number: u32,
    pub nested_numbers: Vec<u32>,
}

/// The ENSIP-15 specification document.
#[derive(Debug, Clone)]
pub struct Spec {
    pub created: String,
    pub unicode: String,
    pub cldr: String,
    pub emoji: Vec<Vec<u32>>,
    pub ignored: Vec<u32>,
    pub mapped: Vec<Mapped>,
    pub fenced: Vec<Fenced>,
    pub cm: Vec<u32>,
    pub nsm: Vec<u32>,
    pub nsm_max: u32,
    pub escape: Vec<u32>,
    pub groups: Vec<Group>,
    pub nfc_check: Vec<u32>,
    pub whole_map: Vec<WholeMapItem>,
}

/// One rewrite: the code point `from` is replaced by the sequence `to`.
#[derive(Debug, Clone)]
pub struct Mapped {
    pub from: u32,
    pub to: Vec<u32>,
}

/// One fenced code point with its display name.
#[derive(Debug, Clone)]
pub struct Fenced {
    pub from: u32,
    pub to: String,
}

/// One whole-script confusable record of the raw document.
#[derive(Debug, Clone)]
pub struct Whole {
    pub target: String,
    pub valid: Vec<u32>,
    pub confused: Vec<u32>,
}

/// A named script group; a code point belongs to the group when it lies in
/// `primary` or `secondary`.
#[derive(Debug, Clone)]
pub struct Group {
    pub name: GroupName,
    pub primary: Vec<u32>,
    pub secondary: Vec<u32>,
    pub cm: Vec<u32>,
    pub restricted: bool,
}

/// One entry of the whole-script confusable map; `key` is a code point
/// written in decimal.
#[derive(Debug, Clone)]
pub struct WholeMapItem {
    pub key: String,
    pub value: WholeValue,
}

/// The value of a whole-script confusable entry: either a sentinel number
/// (the code point cannot take part in a confusable label) or a record.
#[derive(Debug, Clone)]
pub enum WholeValue {
    Number(u32),
    WholeObject(WholeObject),
}

/// The record form of a whole-script confusable entry: `m` maps a code point
/// written in decimal to the names of the groups it is confusable in.
#[derive(Debug, Clone)]
pub struct WholeObject {
    pub v: Vec<u32>,
    pub m: Vec<WholeObjectEntry>,
}

/// One binding of the `m` map of a [`WholeObject`].
#[derive(Debug, Clone)]
pub struct WholeObjectEntry {
    pub key: String,
    pub names: Vec<String>,
}

/// The name of a script group; `Emoji`, `ASCII` and `Greek` are reserved.
#[derive(Debug, Clone, Eq)]
pub enum GroupName {
    Emoji,
    Ascii,
    Greek,
    Other(String),
}

/// View of [`GroupName`] with the free-form name as a character sequence.
pub enum GroupNameV {
    Emoji,
    Ascii,
    Greek,
    Other(Seq<char>),
}

impl View for GroupName {
    type V = GroupNameV;

    open spec fn view(&self) -> GroupNameV {
        match self {
            GroupName::Emoji => GroupNameV::Emoji,
            GroupName::Ascii => GroupNameV::Ascii,
            GroupName::Greek => GroupNameV::Greek,
            GroupName::Other(s) => GroupNameV::Other(s@),
        }
    }
}

impl PartialEq for GroupName {
    fn eq(&self, other: &Self) -> (r: bool) {
        match (self, other) {
            (GroupName::Emoji, GroupName::Emoji) => true,
            (GroupName::Ascii, GroupName::Ascii) => true,
            (GroupName::Greek, GroupName::Greek) => true,
            (GroupName::Other(a), GroupName::Other(b)) => *a == *b,
            _ => false,
        }
    }
}

impl vstd::std_specs::cmp::PartialEqSpecImpl for GroupName {
    open spec fn obeys_eq_spec() -> bool {
        true
    }

    open spec fn eq_spec(&self, other: &Self) -> bool {
        gn_eq(self@, other@)
    }
}

/// Equality of group names over their views.
pub open spec fn gn_eq(a: GroupNameV, b: GroupNameV) -> bool {
    match (a, b) {
        (GroupNameV::Emoji, GroupNameV::Emoji) => true,
        (GroupNameV::Ascii, GroupNameV::Ascii) => true,
        (GroupNameV::Greek, GroupNameV::Greek) => true,
        (GroupNameV::Other(x), GroupNameV::Other(y)) => x == y,
        _ => false,
    }
}

/// The character sequence a group name denotes, as it appears in the raw
/// document.
pub open spec fn gn_chars(n: GroupNameV) -> Seq<char> {
    match n {
        GroupNameV::Emoji => "Emoji"@,
        GroupNameV::Ascii => "ASCII"@,
        GroupNameV::Greek => "Greek"@,
        GroupNameV::Other(s) => s,
    }
}

impl GroupName {
    /// True exactly for the reserved Greek group.
    pub fn is_greek(&self) -> (r: bool)
        ensures
            r == (self@ is Greek),
    {
        matches!(self, GroupName::Greek)
    }

    /// Parses a raw name: the three reserved names map to their variants,
    /// anything else is an [`GroupName::Other`].
    pub fn from_string(s: String) -> (r: GroupName)
        ensures
            r@ == spec_group_name_of(s@),
    {
        if s == String::from_str("Emoji") {
            proof {
                reveal_strlit("Emoji");
            }
            GroupName::Emoji
        } else if s == String::from_str("ASCII") {
            proof {
                reveal_strlit("ASCII");
            }
            GroupName::Ascii
        } else if s == String::from_str("Greek") {
            proof {
                reveal_strlit("Greek");
            }
            GroupName::Greek
        } else {
            GroupName::Other(s)
        }
    }

    /// A copy of the name with the same value.
    pub fn duplicate(&self) -> (r: GroupName)
        ensures
            r == *self,
    {
        match self {
            GroupName::Emoji => GroupName::Emoji,
            GroupName::Ascii => GroupName::Ascii,
            GroupName::Greek => GroupName::Greek,
            GroupName::Other(s) => GroupName::Other(s.clone()),
        }
    }

    /// The raw character form of the name, inverse of parsing.
    pub fn to_name_string(&self) -> (r: String)
        ensures
            r@ == gn_chars(self@),
    {
        match self {
            GroupName::Emoji => String::from_str("Emoji"),
            GroupName::Ascii => String::from_str("ASCII"),
            GroupName::Greek => String::from_str("Greek"),
            GroupName::Other(s) => s.clone(),
        }
    }
}

/// The group name denoted by a raw character sequence.
pub open spec fn spec_group_name_of(s: Seq<char>) -> GroupNameV {
    if s == "Emoji"@ {
        GroupNameV::Emoji
    } else if s == "ASCII"@ {
        GroupNameV::Ascii
    } else if s == "Greek"@ {
        GroupNameV::Greek
    } else {
        GroupNameV::Other(s)
    }
}

} // verus!
