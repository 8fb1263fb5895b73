//! The engine: owns the classifier and exposes tokenization, processing,
//! normalization and beautification of ENS names.

use vstd::prelude::*;

use crate::beautify::{beautify_labels, beauty_cps_of_pairs};
use crate::code_points::{CodePointsSpecs, SpecsV};
use crate::error::{ProcessError, ProcessErrorV};
use crate::join::{join_cps, join_labels, norm_cps_of_pairs, spec_join_cps};
use crate::static_data::GroupNameV;
use crate::tokenize::{spec_tokenize, views_of, TokenizedName};
use crate::tokens::TokenV;
use crate::utils::chars_of_cps;
use crate::validate::{
    spec_validate_name, validate_name, vlabel_views, ValidatedLabel,
};

verus! {

/// What processing decides for an input: the validated labels with their
/// types, or the first failure.
pub open spec fn spec_process(specs: SpecsV, s: Seq<char>) -> Result<
    Seq<(Seq<TokenV>, GroupNameV)>,
    ProcessErrorV,
> {
    spec_validate_name(specs, spec_tokenize(specs, s, true))
}

/// The normalized form of an input, or the first failure.
pub open spec fn spec_normalize(specs: SpecsV, s: Seq<char>) -> Result<Seq<char>, ProcessErrorV> {
    match spec_process(specs, s) {
        Ok(pairs) => Ok(chars_of_cps(spec_join_cps(norm_cps_of_pairs(pairs), 0))),
        Err(e) => Err(e),
    }
}

/// The beautified form of an input, or the first failure.
pub open spec fn spec_beautify(specs: SpecsV, s: Seq<char>) -> Result<Seq<char>, ProcessErrorV> {
    match spec_process(specs, s) {
        Ok(pairs) => Ok(chars_of_cps(spec_join_cps(beauty_cps_of_pairs(pairs), 0))),
        Err(e) => Err(e),
    }
}

/// Handles ENS name normalization: tokenization, validation,
/// beautification and normalization, against one set of loaded tables.
pub struct EnsNameNormalizer {
    specs: CodePointsSpecs,
}

impl View for EnsNameNormalizer {
    type V = SpecsV;

    closed spec fn view(&self) -> SpecsV {
        self.specs@
    }
}

/// The result of processing an ENS name: the tokenized input and its
/// validated labels, ready to be normalized or beautified.
#[derive(Debug, Clone, PartialEq, Eq)]
pub struct ProcessedName {
    pub labels: Vec<ValidatedLabel>,
    pub tokenized: TokenizedName,
}

impl EnsNameNormalizer {
    /// An engine over the given tables.
    pub fn new(specs: CodePointsSpecs) -> (r: Self)
        ensures
            r@ == specs@,
    {
        Self { specs }
    }

    /// Tokenizes the input, with selective NFC applied.
    pub fn tokenize(&self, input: &str) -> (r: TokenizedName)
        ensures
            r.input@ == input@,
            views_of(r.tokens@) == spec_tokenize(self@, input@, true),
    {
        TokenizedName::from_input(input, &self.specs, true)
    }

    /// Tokenizes and validates the input; the result can be normalized and
    /// beautified.
    pub fn process(&self, input: &str) -> (r: Result<ProcessedName, ProcessError>)
        ensures
            match r {
                Ok(p) => {
                    &&& spec_process(self@, input@) == Ok::<
                        Seq<(Seq<TokenV>, GroupNameV)>,
                        ProcessErrorV,
                    >(vlabel_views(p.labels@))
                    &&& views_of(p.tokenized.tokens@) == spec_tokenize(self@, input@, true)
                    &&& p.tokenized.input@ == input@
                },
                Err(e) => spec_process(self@, input@) == Err::<
                    Seq<(Seq<TokenV>, GroupNameV)>,
                    ProcessErrorV,
                >(e@),
            },
    {
        let tokenized = self.tokenize(input);
        match validate_name(&tokenized, &self.specs) {
            Ok(labels) => Ok(ProcessedName { tokenized, labels }),
            Err(e) => Err(e),
        }
    }

    /// The normalized form of the input, used for comparison and hashing.
    pub fn normalize(&self, input: &str) -> (r: Result<String, ProcessError>)
        ensures
            match r {
                Ok(s) => spec_normalize(self@, input@) == Ok::<Seq<char>, ProcessErrorV>(s@),
                Err(e) => spec_normalize(self@, input@) == Err::<Seq<char>, ProcessErrorV>(e@),
            },
    {
        match self.process(input) {
            Ok(p) => Ok(p.normalize()),
            Err(e) => Err(e),
        }
    }

    /// The beautified form of the input, for display.
    pub fn beautify(&self, input: &str) -> (r: Result<String, ProcessError>)
        ensures
            match r {
                Ok(s) => spec_beautify(self@, input@) == Ok::<Seq<char>, ProcessErrorV>(s@),
                Err(e) => spec_beautify(self@, input@) == Err::<Seq<char>, ProcessErrorV>(e@),
            },
    {
        match self.process(input) {
            Ok(p) => Ok(p.beautify()),
            Err(e) => Err(e),
        }
    }
}

impl ProcessedName {
    /// The normalized form of the processed name.
    pub fn normalize(&self) -> (r: String)
        ensures
            r@ == chars_of_cps(
                spec_join_cps(norm_cps_of_pairs(vlabel_views(self.labels@)), 0),
            ),
    {
        join_labels(&self.labels)
    }

    /// The beautified form of the processed name.
    pub fn beautify(&self) -> (r: String)
        ensures
            r@ == chars_of_cps(
                spec_join_cps(beauty_cps_of_pairs(vlabel_views(self.labels@)), 0),
            ),
    {
        beautify_labels(&self.labels)
    }
}

/// Tokenizes the input against the given tables.
pub fn tokenize(input: &str, specs: &CodePointsSpecs) -> (r: TokenizedName)
    ensures
        r.input@ == input@,
        views_of(r.tokens@) == spec_tokenize(specs@, input@, true),
{
    TokenizedName::from_input(input, specs, true)
}

/// Tokenizes and validates the input against the given tables.
pub fn process(input: &str, specs: &CodePointsSpecs) -> (r: Result<ProcessedName, ProcessError>)
    ensures
        match r {
            Ok(p) => {
                &&& spec_process(specs@, input@) == Ok::<
                    Seq<(Seq<TokenV>, GroupNameV)>,
                    ProcessErrorV,
                >(vlabel_views(p.labels@))
                &&& views_of(p.tokenized.tokens@) == spec_tokenize(specs@, input@, true)
                &&& p.tokenized.input@ == input@
            },
            Err(e) => spec_process(specs@, input@) == Err::<
                Seq<(Seq<TokenV>, GroupNameV)>,
                ProcessErrorV,
            >(e@),
        },
{
    let tokenized = tokenize(input, specs);
    match validate_name(&tokenized, specs) {
        Ok(labels) => Ok(ProcessedName { tokenized, labels }),
        Err(e) => Err(e),
    }
}

/// The normalized form of the input against the given tables.
pub fn normalize(input: &str, specs: &CodePointsSpecs) -> (r: Result<String, ProcessError>)
    ensures
        match r {
            Ok(s) => spec_normalize(specs@, input@) == Ok::<Seq<char>, ProcessErrorV>(s@),
            Err(e) => spec_normalize(specs@, input@) == Err::<Seq<char>, ProcessErrorV>(e@),
        },
{
    match process(input, specs) {
        Ok(p) => Ok(p.normalize()),
        Err(e) => Err(e),
    }
}

/// The beautified form of the input against the given tables.
pub fn beautify(input: &str, specs: &CodePointsSpecs) -> (r: Result<String, ProcessError>)
    ensures
        match r {
            Ok(s) => spec_beautify(specs@, input@) == Ok::<Seq<char>, ProcessErrorV>(s@),
            Err(e) => spec_beautify(specs@, input@) == Err::<Seq<char>, ProcessErrorV>(e@),
        },
{
    match process(input, specs) {
        Ok(p) => Ok(p.beautify()),
        Err(e) => Err(e),
    }
}

} // verus!
