//! Errors reported while processing an ENS name, together with their
//! mathematical views used in contracts.

use vstd::prelude::*;

verus! {

/// Errors that the caller could cure by editing the name locally.
#[derive(Debug, Clone, PartialEq, Eq)]
pub enum CurrableError {
    UnderscoreInMiddle,
    HyphenAtSecondAndThird,
    CmStart,
    CmAfterEmoji,
    FencedLeading,
    FencedTrailing,
    FencedConsecutive,
    Confused { group_name: String, cp: u32 },
}

/// Errors with no meaningful local fix.
#[derive(Debug, Clone, PartialEq, Eq)]
pub enum DisallowedSequence {
    Invalid(String),
    InvisibleCharacter(u32),
    EmptyLabel,
    NsmTooMany,
    NsmRepeated,
    ConfusedGroups { group1: String, group2: String },
}

/// Errors that can occur during processing of an ENS name.
#[derive(Debug, Clone, PartialEq, Eq)]
pub enum ProcessError {
    CurrableError {
        inner: CurrableError,
        index: usize,
        sequence: String,
        maybe_suggest: Option<String>,
    },
    DisallowedSequence(DisallowedSequence),
}

/// View of [`CurrableError`] with strings abstracted to character sequences.
pub enum CurrableErrorV {
    UnderscoreInMiddle,
    HyphenAtSecondAndThird,
    CmStart,
    CmAfterEmoji,
    FencedLeading,
    FencedTrailing,
    FencedConsecutive,
    Confused { group_name: Seq<char>, cp: u32 },
}

/// View of [`DisallowedSequence`].
pub enum DisallowedSequenceV {
    Invalid(Seq<char>),
    InvisibleCharacter(u32),
    EmptyLabel,
    NsmTooMany,
    NsmRepeated,
    ConfusedGroups { group1: Seq<char>, group2: Seq<char> },
}

/// View of [`ProcessError`].
pub enum ProcessErrorV {
    Currable {
        inner: CurrableErrorV,
        index: int,
        sequence: Seq<char>,
        maybe_suggest: Option<Seq<char>>,
    },
    Disallowed(DisallowedSequenceV),
}

impl View for CurrableError {
    type V = CurrableErrorV;

    open spec fn view(&self) -> CurrableErrorV {
        match self {
            CurrableError::UnderscoreInMiddle => CurrableErrorV::UnderscoreInMiddle,
            CurrableError::HyphenAtSecondAndThird => CurrableErrorV::HyphenAtSecondAndThird,
            CurrableError::CmStart => CurrableErrorV::CmStart,
            CurrableError::CmAfterEmoji => CurrableErrorV::CmAfterEmoji,
            CurrableError::FencedLeading => CurrableErrorV::FencedLeading,
            CurrableError::FencedTrailing => CurrableErrorV::FencedTrailing,
            CurrableError::FencedConsecutive => CurrableErrorV::FencedConsecutive,
            CurrableError::Confused { group_name, cp } => CurrableErrorV::Confused {
                group_name: group_name@,
                cp: *cp,
            },
        }
    }
}

impl View for DisallowedSequence {
    type V = DisallowedSequenceV;

    open spec fn view(&self) -> DisallowedSequenceV {
        match self {
            DisallowedSequence::Invalid(s) => DisallowedSequenceV::Invalid(s@),
            DisallowedSequence::InvisibleCharacter(cp) => DisallowedSequenceV::InvisibleCharacter(
                *cp,
            ),
            DisallowedSequence::EmptyLabel => DisallowedSequenceV::EmptyLabel,
            DisallowedSequence::NsmTooMany => DisallowedSequenceV::NsmTooMany,
            DisallowedSequence::NsmRepeated => DisallowedSequenceV::NsmRepeated,
            DisallowedSequence::ConfusedGroups { group1, group2 } => {
                DisallowedSequenceV::ConfusedGroups { group1: group1@, group2: group2@ }
            },
        }
    }
}

impl View for ProcessError {
    type V = ProcessErrorV;

    open spec fn view(&self) -> ProcessErrorV {
        match self {
            ProcessError::CurrableError { inner, index, sequence, maybe_suggest } => {
                ProcessErrorV::Currable {
                    inner: inner@,
                    index: *index as int,
                    sequence: sequence@,
                    maybe_suggest: match maybe_suggest {
                        Some(s) => Some(s@),
                        None => None,
                    },
                }
            },
            ProcessError::DisallowedSequence(d) => ProcessErrorV::Disallowed(d@),
        }
    }
}

} // verus!
