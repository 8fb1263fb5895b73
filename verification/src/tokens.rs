//! The typed tokens produced by the tokenizer, and their views.

use vstd::prelude::*;

use crate::constants::CP_STOP;
use crate::utils::{chars_of_cps, cps2str};

verus! {

/// Represents a token in an ENS name.
#[derive(Debug, Clone, PartialEq, Eq)]
pub enum EnsNameToken {
    Valid(TokenValid),
    Mapped(TokenMapped),
    Ignored(TokenIgnored),
    Disallowed(TokenDisallowed),
    Stop(TokenStop),
    Nfc(TokenNfc),
    Emoji(TokenEmoji),
}

/// A run of code points that pass through unchanged.
#[derive(Debug, Clone, PartialEq, Eq)]
pub struct TokenValid {
    pub cps: Vec<u32>,
}

/// One input code point rewritten to a replacement sequence.
#[derive(Debug, Clone, PartialEq, Eq)]
pub struct TokenMapped {
    pub cps: Vec<u32>,
    pub cp: u32,
}

/// One input code point removed from the output.
#[derive(Debug, Clone, PartialEq, Eq)]
pub struct TokenIgnored {
    pub cp: u32,
}

/// One forbidden input code point.
#[derive(Debug, Clone, PartialEq, Eq)]
pub struct TokenDisallowed {
    pub cp: u32,
}

/// The label separator.
#[derive(Debug, Clone, PartialEq, Eq)]
pub struct TokenStop {
    pub cp: u32,
}

/// The result of applying NFC to a run of code points.
#[derive(Debug, Clone, PartialEq, Eq)]
pub struct TokenNfc {
    pub cps: Vec<u32>,
    pub input: Vec<u32>,
}

/// A matched emoji sequence: the input substring, its code points, the
/// canonical pretty form, and the form with every U+FE0F removed.
#[derive(Debug, Clone, PartialEq, Eq)]
pub struct TokenEmoji {
    pub input: String,
    pub emoji: Vec<u32>,
    pub cps_input: Vec<u32>,
    pub cps_no_fe0f: Vec<u32>,
}

/// View of [`EnsNameToken`] over mathematical sequences.
pub enum TokenV {
    Valid { cps: Seq<u32> },
    Mapped { cp: u32, cps: Seq<u32> },
    Ignored { cp: u32 },
    Disallowed { cp: u32 },
    Stop { cp: u32 },
    Nfc { input: Seq<u32>, cps: Seq<u32> },
    Emoji { input: Seq<char>, emoji: Seq<u32>, cps_input: Seq<u32>, cps_no_fe0f: Seq<u32> },
}

impl View for EnsNameToken {
    type V = TokenV;

    open spec fn view(&self) -> TokenV {
        match self {
            EnsNameToken::Valid(t) => TokenV::Valid { cps: t.cps@ },
            EnsNameToken::Mapped(t) => TokenV::Mapped { cp: t.cp, cps: t.cps@ },
            EnsNameToken::Ignored(t) => TokenV::Ignored { cp: t.cp },
            EnsNameToken::Disallowed(t) => TokenV::Disallowed { cp: t.cp },
            EnsNameToken::Stop(t) => TokenV::Stop { cp: t.cp },
            EnsNameToken::Nfc(t) => TokenV::Nfc { input: t.input@, cps: t.cps@ },
            EnsNameToken::Emoji(t) => TokenV::Emoji {
                input: t.input@,
                emoji: t.emoji@,
                cps_input: t.cps_input@,
                cps_no_fe0f: t.cps_no_fe0f@,
            },
        }
    }
}

/// The code points a token contributes when a label is expanded: its payload
/// for text tokens, the bare form for emoji, the single input code point
/// otherwise.
pub open spec fn token_cps(t: TokenV) -> Seq<u32> {
    match t {
        TokenV::Valid { cps } => cps,
        TokenV::Mapped { cp, cps } => cps,
        TokenV::Nfc { input, cps } => cps,
        TokenV::Emoji { cps_no_fe0f, .. } => cps_no_fe0f,
        TokenV::Disallowed { cp } => seq![cp],
        TokenV::Stop { cp } => seq![cp],
        TokenV::Ignored { cp } => seq![cp],
    }
}

/// How many input code points the token consumed.
pub open spec fn token_input_size(t: TokenV) -> nat {
    match t {
        TokenV::Valid { cps } => cps.len(),
        TokenV::Nfc { input, .. } => input.len(),
        TokenV::Emoji { cps_input, .. } => cps_input.len(),
        _ => 1,
    }
}

/// Valid, mapped and NFC tokens carry label text.
pub open spec fn token_is_text(t: TokenV) -> bool {
    t is Valid || t is Mapped || t is Nfc
}

impl EnsNameToken {
    /// The code points the token contributes to its label.
    pub fn cps(&self) -> (r: Vec<u32>)
        ensures
            r@ == token_cps(self@),
    {
        match self {
            EnsNameToken::Valid(t) => copy_cps(&t.cps),
            EnsNameToken::Mapped(t) => copy_cps(&t.cps),
            EnsNameToken::Nfc(t) => copy_cps(&t.cps),
            EnsNameToken::Emoji(t) => copy_cps(&t.cps_no_fe0f),
            EnsNameToken::Disallowed(t) => single(t.cp),
            EnsNameToken::Stop(t) => single(t.cp),
            EnsNameToken::Ignored(t) => single(t.cp),
        }
    }

    /// How many input code points the token consumed.
    pub fn input_size(&self) -> (r: usize)
        ensures
            r == token_input_size(self@),
    {
        match self {
            EnsNameToken::Valid(t) => t.cps.len(),
            EnsNameToken::Nfc(t) => t.input.len(),
            EnsNameToken::Emoji(t) => t.cps_input.len(),
            EnsNameToken::Mapped(_) => 1,
            EnsNameToken::Disallowed(_) => 1,
            EnsNameToken::Ignored(_) => 1,
            EnsNameToken::Stop(_) => 1,
        }
    }

    /// True for valid, mapped and NFC tokens.
    pub fn is_text(&self) -> (r: bool)
        ensures
            r == token_is_text(self@),
    {
        matches!(
            self,
            EnsNameToken::Valid(_) | EnsNameToken::Mapped(_) | EnsNameToken::Nfc(_)
        )
    }

    /// True for emoji tokens.
    pub fn is_emoji(&self) -> (r: bool)
        ensures
            r == (self@ is Emoji),
    {
        matches!(self, EnsNameToken::Emoji(_))
    }

    /// True for ignored tokens.
    pub fn is_ignored(&self) -> (r: bool)
        ensures
            r == (self@ is Ignored),
    {
        matches!(self, EnsNameToken::Ignored(_))
    }

    /// True for disallowed tokens.
    pub fn is_disallowed(&self) -> (r: bool)
        ensures
            r == (self@ is Disallowed),
    {
        matches!(self, EnsNameToken::Disallowed(_))
    }

    /// True for stop tokens.
    pub fn is_stop(&self) -> (r: bool)
        ensures
            r == (self@ is Stop),
    {
        matches!(self, EnsNameToken::Stop(_))
    }

    /// A stop token for the label separator.
    pub fn stop() -> (r: Self)
        ensures
            r@ == (TokenV::Stop { cp: CP_STOP }),
    {
        Self::Stop(TokenStop { cp: CP_STOP })
    }

    /// The token's code points as a string.
    pub fn as_string(&self) -> (r: String)
        ensures
            r@ == chars_of_cps(token_cps(self@)),
    {
        let cps = self.cps();
        cps2str(&cps)
    }
}

/// Either a run of text code points or one emoji token; the view used by the
/// combining-mark rule.
#[derive(Debug, Clone, PartialEq, Eq)]
pub enum CollapsedEnsNameToken {
    Text(TokenValid),
    Emoji(TokenEmoji),
}

/// View of [`CollapsedEnsNameToken`].
pub enum CollapsedTokenV {
    Text { cps: Seq<u32> },
    Emoji { input: Seq<char>, emoji: Seq<u32>, cps_input: Seq<u32>, cps_no_fe0f: Seq<u32> },
}

impl View for CollapsedEnsNameToken {
    type V = CollapsedTokenV;

    open spec fn view(&self) -> CollapsedTokenV {
        match self {
            CollapsedEnsNameToken::Text(t) => CollapsedTokenV::Text { cps: t.cps@ },
            CollapsedEnsNameToken::Emoji(t) => CollapsedTokenV::Emoji {
                input: t.input@,
                emoji: t.emoji@,
                cps_input: t.cps_input@,
                cps_no_fe0f: t.cps_no_fe0f@,
            },
        }
    }
}

/// How many input code points a collapsed token stands for.
pub open spec fn collapsed_input_size(t: CollapsedTokenV) -> nat {
    match t {
        CollapsedTokenV::Text { cps } => cps.len(),
        CollapsedTokenV::Emoji { cps_input, .. } => cps_input.len(),
    }
}

impl CollapsedEnsNameToken {
    /// How many input code points the collapsed token stands for.
    pub fn input_size(&self) -> (r: usize)
        ensures
            r == collapsed_input_size(self@),
    {
        match self {
            CollapsedEnsNameToken::Text(t) => t.cps.len(),
            CollapsedEnsNameToken::Emoji(t) => t.cps_input.len(),
        }
    }
}

/// Copies a code-point vector.
pub(crate) fn copy_cps(cps: &Vec<u32>) -> (r: Vec<u32>)
    ensures
        r@ == cps@,
{
    let mut r: Vec<u32> = Vec::new();
    let mut i: usize = 0;
    while i < cps.len()
        invariant
            i <= cps.len(),
            r@ == cps@.take(i as int),
        decreases cps.len() - i,
    {
        r.push(cps[i]);
        proof {
            assert(cps@.take(i + 1) =~= cps@.take(i as int).push(cps@[i as int]));
        }
        i += 1;
    }
    proof {
        assert(cps@.take(cps@.len() as int) =~= cps@);
    }
    r
}

/// Builds a one-element code-point vector.
fn single(cp: u32) -> (r: Vec<u32>)
    ensures
        r@ == seq![cp],
{
    let r: Vec<u32> = vec![cp];
    proof {
        assert(r@ =~= seq![cp]);
    }
    r
}

} // verus!
