//! The validator: applies the ENSIP-15 label rules in order and classifies
//! each label, or reports the first failure.

use vstd::assert_by_contradiction;
use vstd::prelude::*;

use crate::code_points::{
    group_contains, group_contains_all, spec_first_group_named, spec_group_indices_for,
    CodePointsSpecs, ParsedGroupV, ParsedWholeValue, ParsedWholeValueV, SpecsV,
};
use crate::constants::{CP_HYPHEN, CP_STOP, CP_UNDERSCORE, CP_ZWJ, CP_ZWNJ};
use crate::error::{
    CurrableError, CurrableErrorV, DisallowedSequence, DisallowedSequenceV, ProcessError,
    ProcessErrorV,
};
use crate::static_data::{gn_chars, gn_eq, spec_group_name_of, GroupName, GroupNameV};
use crate::tokenize::{
    collapsed_views, label_views, spec_collapsed_from, spec_labels_from, spec_text_cps,
    spec_tokens_cps, views_of, TokenizedLabel, TokenizedName,
};
use crate::tokens::{
    collapsed_input_size, token_cps, CollapsedEnsNameToken, CollapsedTokenV, EnsNameToken, TokenV,
};
use crate::utils::{chars_of_cps, cp2str, cps2str};

verus! {

/// The classification of a validated label.
pub type LabelType = GroupName;

/// A validated ENS label: its tokens and its classification.
#[derive(Debug, Clone, PartialEq, Eq)]
pub struct ValidatedLabel {
    pub tokens: Vec<EnsNameToken>,
    pub label_type: LabelType,
}

/// View of [`ValidatedLabel`].
pub struct ValidatedLabelV {
    pub tokens: Seq<TokenV>,
    pub label_type: GroupNameV,
}

impl View for ValidatedLabel {
    type V = ValidatedLabelV;

    open spec fn view(&self) -> ValidatedLabelV {
        ValidatedLabelV { tokens: views_of(self.tokens@), label_type: self.label_type@ }
    }
}

/// A curable error with its payload, as the validator reports it.
pub open spec fn ev_currable(
    inner: CurrableErrorV,
    index: int,
    sequence: Seq<char>,
    suggest: Option<Seq<char>>,
) -> ProcessErrorV {
    ProcessErrorV::Currable { inner, index, sequence, maybe_suggest: suggest }
}

/// Some token of the label is not ignored.
pub open spec fn spec_has_non_ignored(ts: Seq<TokenV>) -> bool {
    exists|i: int| 0 <= i < ts.len() && !((#[trigger] ts[i]) is Ignored)
}

/// The first disallowed or stop token at or after `i`.
pub open spec fn spec_next_illegal(ts: Seq<TokenV>, i: int) -> Option<int>
    decreases ts.len() - i,
{
    if i < 0 || i >= ts.len() {
        None
    } else if ts[i] is Disallowed || ts[i] is Stop {
        Some(i)
    } else {
        spec_next_illegal(ts, i + 1)
    }
}

/// Every token of the label is an emoji token.
pub open spec fn spec_all_emoji(ts: Seq<TokenV>) -> bool {
    forall|i: int| 0 <= i < ts.len() ==> (#[trigger] ts[i]) is Emoji
}

/// The first position at or after `i` whose code point is not an
/// underscore, or the length if all are.
pub open spec fn spec_end_underscores(s: Seq<u32>, i: int) -> int
    decreases s.len() - i,
{
    if i < 0 || i >= s.len() {
        s.len() as int
    } else if s[i] == CP_UNDERSCORE {
        spec_end_underscores(s, i + 1)
    } else {
        i
    }
}

/// The first underscore at or after `i`.
pub open spec fn spec_next_underscore(s: Seq<u32>, i: int) -> Option<int>
    decreases s.len() - i,
{
    if i < 0 || i >= s.len() {
        None
    } else if s[i] == CP_UNDERSCORE {
        Some(i)
    } else {
        spec_next_underscore(s, i + 1)
    }
}

/// Every code point of the sequence is ASCII.
pub open spec fn spec_all_ascii(s: Seq<u32>) -> bool {
    forall|i: int| 0 <= i < s.len() ==> (#[trigger] s[i]) <= 0x7F
}

/// The first position `i` at or after `from` where both `s[i]` and
/// `s[i + 1]` are fenced.
pub open spec fn spec_next_fenced_pair(specs: SpecsV, s: Seq<u32>, i: int) -> Option<int>
    decreases s.len() - i,
{
    if i < 0 || i + 1 >= s.len() {
        None
    } else if specs.fenced.contains(s[i]) && specs.fenced.contains(s[i + 1]) {
        Some(i)
    } else {
        spec_next_fenced_pair(specs, s, i + 1)
    }
}

/// The first text segment that starts with a combining mark, walking the
/// collapsed segments from `i` with accumulated input offset `offset`;
/// reports the offset, the mark, and whether the segment is the first.
pub open spec fn spec_cm_find(
    specs: SpecsV,
    segs: Seq<CollapsedTokenV>,
    i: int,
    offset: int,
) -> Option<(int, u32, bool)>
    decreases segs.len() - i,
{
    if i < 0 || i >= segs.len() {
        None
    } else {
        let hit = match segs[i] {
            CollapsedTokenV::Text { cps } => cps.len() > 0 && specs.cm.contains(cps[0]),
            CollapsedTokenV::Emoji { .. } => false,
        };
        if hit {
            match segs[i] {
                CollapsedTokenV::Text { cps } => Some((offset, cps[0], i == 0)),
                CollapsedTokenV::Emoji { .. } => None,
            }
        } else {
            // the reported offset saturates at the machine limit
            let next = if offset + collapsed_input_size(segs[i]) > usize::MAX {
                usize::MAX as int
            } else {
                offset + collapsed_input_size(segs[i])
            };
            spec_cm_find(specs, segs, i + 1, next)
        }
    }
}

/// The code points of the sequence with duplicates removed, first
/// occurrence kept, order preserved.
pub open spec fn spec_unique(s: Seq<u32>) -> Seq<u32>
    decreases s.len(),
{
    if s.len() == 0 {
        Seq::empty()
    } else if s.drop_last().contains(s.last()) {
        spec_unique(s.drop_last())
    } else {
        spec_unique(s.drop_last()).push(s.last())
    }
}

/// The first prefix of `u` that no group covers: the least `k` such that no
/// group contains all of `u.take(k + 1)`, or the length if the whole
/// sequence is covered by some group.
pub open spec fn spec_confused_k(groups: Seq<ParsedGroupV>, u: Seq<u32>, k: int) -> int
    decreases u.len() - k,
{
    if k < 0 || k >= u.len() {
        u.len() as int
    } else if spec_group_indices_for(groups, u.take(k + 1)).len() == 0 {
        k
    } else {
        spec_confused_k(groups, u, k + 1)
    }
}

/// The first code point of the sequence, at or after `i`, that does not
/// belong to the group.
pub open spec fn spec_first_not_in_group(g: ParsedGroupV, s: Seq<u32>, i: int) -> Option<int>
    decreases s.len() - i,
{
    if i < 0 || i >= s.len() {
        None
    } else if !group_contains(g, s[i]) {
        Some(i)
    } else {
        spec_first_not_in_group(g, s, i + 1)
    }
}

/// The canonical decomposition of a code-point sequence: each code point is
/// replaced by its decomposition, if the tables have one.
pub open spec fn spec_nfd_cps(cps: Seq<u32>, decomp: Map<u32, Seq<u32>>) -> Seq<u32>
    decreases cps.len(),
{
    if cps.len() == 0 {
        Seq::empty()
    } else {
        spec_nfd_cps(cps.drop_last(), decomp) + (if decomp.contains_key(cps.last()) {
            decomp[cps.last()]
        } else {
            seq![cps.last()]
        })
    }
}

/// The non-spacing-mark scan outside a run: looks for the next non-spacing
/// mark from `i` on (the first decomposed code point is never a run start).
pub open spec fn spec_nsm_scan(specs: SpecsV, d: Seq<u32>, i: int) -> Option<DisallowedSequenceV>
    decreases d.len() - i + 1, d.len() + 1,
{
    if i < 1 || i >= d.len() {
        None
    } else if specs.nsm.contains(d[i]) {
        spec_nsm_run(specs, d, i, i + 1)
    } else {
        spec_nsm_scan(specs, d, i + 1)
    }
}

/// The non-spacing-mark scan inside the run that started at `i`, currently
/// at `j`: too long a run or a repeated mark is an error.
pub open spec fn spec_nsm_run(specs: SpecsV, d: Seq<u32>, i: int, j: int) -> Option<
    DisallowedSequenceV,
>
    decreases d.len() - i + 1, d.len() - j,
{
    if i < 1 || j <= i || j > d.len() {
        None
    } else if j == d.len() || !specs.nsm.contains(d[j]) {
        spec_nsm_scan(specs, d, j + 1)
    } else if j - i + 1 > specs.nsm_max {
        Some(DisallowedSequenceV::NsmTooMany)
    } else if exists|k: int| i <= k < j && d[k] == #[trigger] d[j] {
        Some(DisallowedSequenceV::NsmRepeated)
    } else {
        spec_nsm_run(specs, d, i, j + 1)
    }
}

/// One step of the whole-script-confusable accumulation over the unique
/// code points: `None` means the scan short-circuited on a sentinel and no
/// confusable is possible; otherwise the candidate group names (`None`
/// until the first record) and the shared code points so far.
pub open spec fn spec_ws_state(specs: SpecsV, u: Seq<u32>, k: int) -> Option<
    (Option<Seq<Seq<char>>>, Seq<u32>),
>
    decreases k,
{
    if k <= 0 {
        Some((None, Seq::empty()))
    } else {
        match spec_ws_state(specs, u, k - 1) {
            None => None,
            Some(st) => {
                let cand = st.0;
                let shared = st.1;
                let cp = u[k - 1];
                if !specs.whole_map.contains_key(cp) {
                    Some((cand, shared.push(cp)))
                } else {
                    match specs.whole_map[cp] {
                        ParsedWholeValueV::Number(_) => None,
                        ParsedWholeValueV::Object { v, m } => {
                            let names: Seq<Seq<char>> = if m.contains_key(cp) {
                                m[cp]
                            } else {
                                Seq::empty()
                            };
                            let newcand = match cand {
                                None => names,
                                Some(c) => spec_retain_names(c, names),
                            };
                            Some((Some(newcand), shared))
                        },
                    }
                }
            },
        }
    }
}

/// The candidate names that also occur in `names`, order kept.
pub open spec fn spec_retain_names(c: Seq<Seq<char>>, names: Seq<Seq<char>>) -> Seq<Seq<char>>
    decreases c.len(),
{
    if c.len() == 0 {
        Seq::empty()
    } else {
        let rest = spec_retain_names(c.drop_last(), names);
        if names.contains(c.last()) {
            rest.push(c.last())
        } else {
            rest
        }
    }
}

/// The first candidate name at or after `k` that names a group other than
/// `gname` containing every shared code point.
pub open spec fn spec_first_confusable(
    specs: SpecsV,
    names: Seq<Seq<char>>,
    shared: Seq<u32>,
    gname: GroupNameV,
    k: int,
) -> Option<int>
    decreases names.len() - k,
{
    if k < 0 || k >= names.len() {
        None
    } else {
        let hit = match spec_first_group_named(specs.groups, spec_group_name_of(names[k]), 0) {
            Some(j) => !gn_eq(specs.groups[j].name, gname) && group_contains_all(
                specs.groups[j],
                shared,
            ),
            None => false,
        };
        if hit {
            Some(k)
        } else {
            spec_first_confusable(specs, names, shared, gname, k + 1)
        }
    }
}

/// What validation decides for one label: its type, or the first rule it
/// breaks. A disallowed zero-width joiner or non-joiner is reported as an
/// invisible character; any other disallowed code point, or a stray label
/// separator, is reported as invalid.
pub open spec fn spec_validate_label(specs: SpecsV, ts: Seq<TokenV>) -> Result<
    GroupNameV,
    ProcessErrorV,
> {
    if !spec_has_non_ignored(ts) {
        Err(ProcessErrorV::Disallowed(DisallowedSequenceV::EmptyLabel))
    } else {
        match spec_next_illegal(ts, 0) {
            Some(i) => {
                let t = ts[i];
                if t is Disallowed && (t->Disallowed_cp == CP_ZWNJ || t->Disallowed_cp
                    == CP_ZWJ) {
                    Err(
                        ProcessErrorV::Disallowed(
                            DisallowedSequenceV::InvisibleCharacter(t->Disallowed_cp),
                        ),
                    )
                } else {
                    Err(
                        ProcessErrorV::Disallowed(
                            DisallowedSequenceV::Invalid(chars_of_cps(token_cps(t))),
                        ),
                    )
                }
            },
            None => {
                if spec_all_emoji(ts) {
                    Ok(GroupNameV::Emoji)
                } else {
                    let s = spec_tokens_cps(ts);
                    let lead = spec_end_underscores(s, 0);
                    match spec_next_underscore(s, lead) {
                        Some(idx) => Err(
                            ev_currable(
                                CurrableErrorV::UnderscoreInMiddle,
                                idx,
                                chars_of_cps(seq![CP_UNDERSCORE]),
                                Some(Seq::empty()),
                            ),
                        ),
                        None => {
                            if spec_all_ascii(s) {
                                if s.len() > 3 && s[2] == CP_HYPHEN && s[3] == CP_HYPHEN {
                                    Err(
                                        ev_currable(
                                            CurrableErrorV::HyphenAtSecondAndThird,
                                            2,
                                            chars_of_cps(seq![CP_HYPHEN, CP_HYPHEN]),
                                            Some(Seq::empty()),
                                        ),
                                    )
                                } else {
                                    Ok(GroupNameV::Ascii)
                                }
                            } else {
                                spec_validate_unicode_label(specs, ts, s)
                            }
                        },
                    }
                }
            },
        }
    }
}

/// The rules applied to a label that is neither all emoji nor all ASCII:
/// fenced placement, combining marks, and the group checks.
pub open spec fn spec_validate_unicode_label(specs: SpecsV, ts: Seq<TokenV>, s: Seq<u32>) -> Result<
    GroupNameV,
    ProcessErrorV,
> {
    if s.len() > 0 && specs.fenced.contains(s[0]) {
        Err(
            ev_currable(CurrableErrorV::FencedLeading, 0, chars_of_cps(seq![s[0]]), Some(
                Seq::empty(),
            )),
        )
    } else if s.len() > 0 && specs.fenced.contains(s[s.len() - 1]) {
        Err(
            ev_currable(
                CurrableErrorV::FencedTrailing,
                s.len() - 1,
                chars_of_cps(seq![s[s.len() - 1]]),
                Some(Seq::empty()),
            ),
        )
    } else {
        match spec_next_fenced_pair(specs, s, 0) {
            Some(i) => Err(
                ev_currable(
                    CurrableErrorV::FencedConsecutive,
                    i,
                    chars_of_cps(seq![s[i], s[i + 1]]),
                    Some(chars_of_cps(seq![s[i]])),
                ),
            ),
            None => {
                let segs = spec_collapsed_from(ts, 0);
                match spec_cm_find(specs, segs, 0, 0) {
                    Some(hit) => {
                        let inner = if hit.2 {
                            CurrableErrorV::CmStart
                        } else {
                            CurrableErrorV::CmAfterEmoji
                        };
                        Err(
                            ev_currable(inner, hit.0, chars_of_cps(seq![hit.1]), Some(
                                Seq::empty(),
                            )),
                        )
                    },
                    None => spec_validate_group(specs, spec_text_cps(ts)),
                }
            },
        }
    }
}

/// Group determination and the group-wide checks over the text code points.
pub open spec fn spec_validate_group(specs: SpecsV, cps: Seq<u32>) -> Result<
    GroupNameV,
    ProcessErrorV,
> {
    let u = spec_unique(cps);
    let full = spec_group_indices_for(specs.groups, u);
    if full.len() == 0 {
        let k = spec_confused_k(specs.groups, u, 0);
        let cp = if 0 <= k < u.len() {
            u[k]
        } else {
            0
        };
        let before = spec_group_indices_for(specs.groups, u.take(k));
        let gname = if before.len() > 0 {
            gn_chars(specs.groups[before[0]].name)
        } else {
            Seq::<char>::empty()
        };
        Err(
            ev_currable(
                CurrableErrorV::Confused { group_name: gname, cp },
                k,
                chars_of_cps(seq![cp]),
                None,
            ),
        )
    } else {
        let g = specs.groups[full[0]];
        match spec_first_not_in_group(g, cps, 0) {
            Some(i) => Err(
                ev_currable(
                    CurrableErrorV::Confused { group_name: gn_chars(g.name), cp: cps[i] },
                    i,
                    chars_of_cps(seq![cps[i]]),
                    None,
                ),
            ),
            None => {
                let nsm_err = if g.cm_absent {
                    spec_nsm_scan(specs, spec_nfd_cps(cps, specs.decomp), 1)
                } else {
                    None
                };
                match nsm_err {
                    Some(d) => Err(ProcessErrorV::Disallowed(d)),
                    None => {
                        match spec_check_whole(specs, g.name, u) {
                            Some(d) => Err(ProcessErrorV::Disallowed(d)),
                            None => Ok(g.name),
                        }
                    },
                }
            },
        }
    }
}

/// The whole-script confusable verdict for a label of group `gname` with
/// unique text code points `u`.
pub open spec fn spec_check_whole(specs: SpecsV, gname: GroupNameV, u: Seq<u32>) -> Option<
    DisallowedSequenceV,
> {
    match spec_ws_state(specs, u, u.len() as int) {
        None => None,
        Some(st) => {
            let names = match st.0 {
                Some(c) => c,
                None => Seq::empty(),
            };
            match spec_first_confusable(specs, names, st.1, gname, 0) {
                Some(k) => {
                    let h = spec_first_group_named(
                        specs.groups,
                        spec_group_name_of(names[k]),
                        0,
                    )->Some_0;
                    Some(
                        DisallowedSequenceV::ConfusedGroups {
                            group1: gn_chars(gname),
                            group2: gn_chars(specs.groups[h].name),
                        },
                    )
                },
                None => None,
            }
        },
    }
}

/// What validation decides for a whole name: the labels between separators,
/// each with its type, or the first failure. A name with no token at all
/// has no labels and passes.
pub open spec fn spec_validate_name(specs: SpecsV, ts: Seq<TokenV>) -> Result<
    Seq<(Seq<TokenV>, GroupNameV)>,
    ProcessErrorV,
> {
    if ts.len() == 0 {
        Ok(Seq::empty())
    } else {
        spec_validate_labels(specs, spec_labels_from(ts, 0), 0)
    }
}

/// Validates each label in order; the first failure wins.
pub open spec fn spec_validate_labels(specs: SpecsV, labels: Seq<Seq<TokenV>>, i: int) -> Result<
    Seq<(Seq<TokenV>, GroupNameV)>,
    ProcessErrorV,
>
    decreases labels.len() - i,
{
    if i < 0 || i >= labels.len() {
        Ok(Seq::empty())
    } else {
        match spec_validate_label(specs, labels[i]) {
            Err(e) => Err(e),
            Ok(t) => match spec_validate_labels(specs, labels, i + 1) {
                Err(e) => Err(e),
                Ok(rest) => Ok(seq![(labels[i], t)] + rest),
            },
        }
    }
}

/// True when the sequence holds the code point.
fn vec_contains(v: &Vec<u32>, cp: u32) -> (r: bool)
    ensures
        r == v@.contains(cp),
{
    let mut i: usize = 0;
    while i < v.len()
        invariant
            i <= v@.len(),
            forall|j: int| 0 <= j < i ==> v@[j] != cp,
        decreases v@.len() - i,
    {
        if v[i] == cp {
            return true;
        }
        i += 1;
    }
    false
}

/// Deduplication keeps exactly the members of the original sequence.
proof fn lemma_unique_contains(s: Seq<u32>)
    ensures
        forall|x: u32| spec_unique(s).contains(x) <==> s.contains(x),
    decreases s.len(),
{
    if s.len() > 0 {
        lemma_unique_contains(s.drop_last());
        assert forall|x: u32| s.contains(x) implies spec_unique(s).contains(x) by {
            let j = choose|j: int| 0 <= j < s.len() && #[trigger] s[j] == x;
            if j < s.len() - 1 {
                assert(s.drop_last()[j] == s[j]);
                assert(s.drop_last().contains(x));
                assert(spec_unique(s.drop_last()).contains(x));
                let k = choose|k: int|
                    0 <= k < spec_unique(s.drop_last()).len() && #[trigger] spec_unique(
                        s.drop_last(),
                    )[k] == x;
                if s.drop_last().contains(s.last()) {
                    assert(spec_unique(s).contains(x));
                } else {
                    assert(spec_unique(s)[k] == x);
                    assert(spec_unique(s).contains(x));
                }
            } else {
                assert(x == s.last());
                if s.drop_last().contains(s.last()) {
                    assert(s.drop_last().contains(x));
                    assert(spec_unique(s.drop_last()).contains(x));
                    assert(spec_unique(s).contains(x));
                } else {
                    assert(spec_unique(s)[spec_unique(s).len() - 1] == x);
                    assert(spec_unique(s).contains(x));
                }
            }
        }
        assert forall|x: u32| spec_unique(s).contains(x) implies s.contains(x) by {
            if s.drop_last().contains(s.last()) {
                assert(spec_unique(s.drop_last()).contains(x));
                assert(s.drop_last().contains(x));
                let j = choose|j: int|
                    0 <= j < s.drop_last().len() && #[trigger] s.drop_last()[j] == x;
                assert(s.drop_last()[j] == s[j]);
                assert(s.contains(x));
            } else {
                let k = choose|k: int|
                    0 <= k < spec_unique(s).len() && #[trigger] spec_unique(s)[k] == x;
                if k < spec_unique(s).len() - 1 {
                    assert(spec_unique(s)[k] == spec_unique(s.drop_last())[k]);
                    assert(spec_unique(s.drop_last()).contains(x));
                    assert(s.drop_last().contains(x));
                    let j = choose|j: int|
                        0 <= j < s.drop_last().len() && #[trigger] s.drop_last()[j] == x;
                    assert(s.drop_last()[j] == s[j]);
                    assert(s.contains(x));
                } else {
                    assert(x == s.last());
                    assert(s.contains(x));
                }
            }
        }
    }
}

/// The code points of the sequence with duplicates removed, first
/// occurrence kept.
fn unique_cps(cps: &Vec<u32>) -> (r: Vec<u32>)
    ensures
        r@ == spec_unique(cps@),
{
    let mut r: Vec<u32> = Vec::new();
    let mut i: usize = 0;
    while i < cps.len()
        invariant
            i <= cps@.len(),
            r@ == spec_unique(cps@.take(i as int)),
        decreases cps@.len() - i,
    {
        proof {
            assert(cps@.take(i + 1).drop_last() =~= cps@.take(i as int));
            assert(cps@.take(i + 1).last() == cps@[i as int]);
            lemma_unique_contains(cps@.take(i as int));
        }
        if !vec_contains(&r, cps[i]) {
            r.push(cps[i]);
        }
        i += 1;
    }
    proof {
        assert(cps@.take(cps@.len() as int) =~= cps@);
    }
    r
}

/// Canonically decomposes a code-point sequence with the loaded tables.
pub fn nfd_cps(cps: &Vec<u32>, specs: &CodePointsSpecs) -> (r: Vec<u32>)
    ensures
        r@ == spec_nfd_cps(cps@, specs@.decomp),
{
    let mut r: Vec<u32> = Vec::new();
    let mut i: usize = 0;
    while i < cps.len()
        invariant
            i <= cps@.len(),
            r@ == spec_nfd_cps(cps@.take(i as int), specs@.decomp),
        decreases cps@.len() - i,
    {
        proof {
            assert(cps@.take(i + 1).drop_last() =~= cps@.take(i as int));
            assert(cps@.take(i + 1).last() == cps@[i as int]);
        }
        match specs.decompose(cps[i]) {
            Some(d) => {
                let mut c = crate::tokens::copy_cps(d);
                r.append(&mut c);
            },
            None => {
                r.push(cps[i]);
                proof {
                    assert(spec_nfd_cps(cps@.take(i as int), specs@.decomp).push(cps@[i as int])
                        =~= spec_nfd_cps(cps@.take(i as int), specs@.decomp) + seq![
                            cps@[i as int],
                        ]);
                }
            },
        }
        i += 1;
    }
    proof {
        assert(cps@.take(cps@.len() as int) =~= cps@);
    }
    r
}

/// True when one of the strings has exactly these characters.
fn names_contain(names: &Vec<String>, s: &String) -> (r: bool)
    ensures
        r == names.deep_view().contains(s@),
{
    let mut i: usize = 0;
    while i < names.len()
        invariant
            i <= names@.len(),
            forall|j: int| 0 <= j < i ==> names.deep_view()[j] != s@,
        decreases names@.len() - i,
    {
        let n: &String = &names[i];
        proof {
            assert(names.deep_view()[i as int] == names@[i as int]@);
        }
        if *n == *s {
            proof {
                assert(names.deep_view()[i as int] == s@);
            }
            return true;
        }
        i += 1;
    }
    proof {
        assert_by_contradiction!(!names.deep_view().contains(s@), {
            let j = choose|j: int|
                0 <= j < names.deep_view().len() && #[trigger] names.deep_view()[j] == s@;
        });
    }
    false
}

/// Keeps the candidate names that also occur in `names`, in order.
fn retain_names(c: &Vec<String>, names: &Vec<String>) -> (r: Vec<String>)
    ensures
        r.deep_view() == spec_retain_names(c.deep_view(), names.deep_view()),
{
    let mut r: Vec<String> = Vec::new();
    let mut i: usize = 0;
    proof {
        assert(r.deep_view() =~= spec_retain_names(c.deep_view().take(0), names.deep_view()));
    }
    while i < c.len()
        invariant
            i <= c@.len(),
            r.deep_view() == spec_retain_names(c.deep_view().take(i as int), names.deep_view()),
        decreases c@.len() - i,
    {
        proof {
            assert(c.deep_view().take(i + 1).drop_last() =~= c.deep_view().take(i as int));
            assert(c.deep_view().take(i + 1).last() == c.deep_view()[i as int]);
            assert(c.deep_view()[i as int] == c@[i as int]@);
        }
        let x: &String = &c[i];
        if names_contain(names, x) {
            r.push(x.clone());
            proof {
                assert(r.deep_view() =~~= spec_retain_names(
                    c.deep_view().take(i as int),
                    names.deep_view(),
                ).push(c.deep_view()[i as int]));
            }
        }
        i += 1;
    }
    proof {
        assert(c.deep_view().take(c@.len() as int) =~= c.deep_view());
    }
    r
}

/// Copies a list of strings.
fn copy_names(v: &Vec<String>) -> (r: Vec<String>)
    ensures
        r.deep_view() == v.deep_view(),
{
    let mut r: Vec<String> = Vec::new();
    let mut i: usize = 0;
    proof {
        assert(r.deep_view() =~= v.deep_view().take(0));
    }
    while i < v.len()
        invariant
            i <= v@.len(),
            r.deep_view() == v.deep_view().take(i as int),
        decreases v@.len() - i,
    {
        let s: &String = &v[i];
        let ghost prev = r@;
        r.push(s.clone());
        proof {
            assert(r@.len() == prev.len() + 1);
            assert(v.deep_view().len() == v@.len());
            assert(v.deep_view().take(i as int).len() == i);
            assert(prev.len() == i);
            assert(r@[prev.len() as int] == v@[i as int]);
            assert forall|j: int| 0 <= j < r.deep_view().len() implies r.deep_view()[j]
                == v.deep_view().take(i + 1)[j] by {
                if j < i {
                    assert(r@[j] == prev[j]);
                    assert(v.deep_view().take(i as int)[j] == v.deep_view()[j]);
                } else {
                    assert(r@[j] == v@[i as int]);
                }
            }
            assert(r.deep_view() =~= v.deep_view().take(i + 1));
        }
        i += 1;
    }
    proof {
        assert(v.deep_view().take(v@.len() as int) =~= v.deep_view());
    }
    r
}

/// Once the whole-script scan short-circuits, it stays short-circuited.
proof fn lemma_ws_none_persists(specs: SpecsV, u: Seq<u32>, k: int, m: int)
    requires
        spec_ws_state(specs, u, k) is None,
        k <= m,
    ensures
        spec_ws_state(specs, u, m) is None,
    decreases m - k,
{
    if k < m {
        lemma_ws_none_persists(specs, u, k + 1, m);
    }
}

/// The non-spacing-mark check over a decomposed sequence.
fn check_nsm(specs: &CodePointsSpecs, d: &Vec<u32>) -> (r: Option<DisallowedSequence>)
    ensures
        match r {
            Some(e) => spec_nsm_scan(specs@, d@, 1) == Some(e@),
            None => spec_nsm_scan(specs@, d@, 1) is None,
        },
{
    let nmax = specs.nsm_max();
    let mut i: usize = 1;
    let mut done: bool = false;
    while !done && i < d.len()
        invariant
            1 <= i <= d@.len() + 1,
            nmax == specs@.nsm_max,
            !done ==> spec_nsm_scan(specs@, d@, 1) == spec_nsm_scan(specs@, d@, i as int),
            done ==> spec_nsm_scan(specs@, d@, 1) is None,
        decreases d@.len() + 1 - i + (if done {
            0int
        } else {
            1int
        }),
    {
        if specs.is_nsm(d[i]) {
            let mut j: usize = i + 1;
            loop
                invariant_except_break
                    1 <= i,
                    i + 1 <= j <= d@.len(),
                    i < d@.len(),
                    nmax == specs@.nsm_max,
                    spec_nsm_scan(specs@, d@, 1) == spec_nsm_run(specs@, d@, i as int, j as int),
                ensures
                    i + 1 <= j <= d@.len(),
                    spec_nsm_scan(specs@, d@, 1) == spec_nsm_scan(specs@, d@, j + 1),
                decreases d@.len() - j,
            {
                if j == d.len() || !specs.is_nsm(d[j]) {
                    break;
                }
                if j - i + 1 > nmax as usize {
                    proof {
                        assert(spec_nsm_scan(specs@, d@, 1) == Some(
                            DisallowedSequenceV::NsmTooMany,
                        ));
                    }
                    return Some(DisallowedSequence::NsmTooMany);
                }
                let mut k: usize = i;
                while k < j
                    invariant
                        1 <= i <= k <= j < d@.len(),
                        nmax == specs@.nsm_max,
                        specs@.nsm.contains(d@[j as int]),
                        j - i + 1 <= nmax,
                        spec_nsm_scan(specs@, d@, 1) == spec_nsm_run(
                            specs@,
                            d@,
                            i as int,
                            j as int,
                        ),
                        forall|m: int| i <= m < k ==> d@[m] != d@[j as int],
                    decreases j - k,
                {
                    if d[k] == d[j] {
                        proof {
                            assert(spec_nsm_scan(specs@, d@, 1) == Some(
                                DisallowedSequenceV::NsmRepeated,
                            ));
                        }
                        return Some(DisallowedSequence::NsmRepeated);
                    }
                    k += 1;
                }
                proof {
                    assert(forall|m: int| i <= m < j ==> d@[m] != d@[j as int]);
                    assert(spec_nsm_run(specs@, d@, i as int, j as int) == spec_nsm_run(
                        specs@,
                        d@,
                        i as int,
                        j + 1,
                    ));
                }
                j += 1;
            }
            if j >= d.len() {
                proof {
                    assert(spec_nsm_scan(specs@, d@, j + 1) is None);
                }
                done = true;
            } else {
                i = j + 1;
            }
        } else {
            i += 1;
        }
    }
    proof {
        if !done {
            assert(spec_nsm_scan(specs@, d@, i as int) is None);
        }
    }
    None
}

/// The whole-script confusable check over the unique text code points of a
/// label classified into the group named `gname`.
fn check_whole(specs: &CodePointsSpecs, gname: &GroupName, u: &Vec<u32>) -> (r: Option<
    DisallowedSequence,
>)
    ensures
        match r {
            Some(e) => spec_check_whole(specs@, gname@, u@) == Some(e@),
            None => spec_check_whole(specs@, gname@, u@) is None,
        },
{
    let mut cand: Option<Vec<String>> = None;
    let mut shared: Vec<u32> = Vec::new();
    let mut k: usize = 0;
    proof {
        assert(spec_ws_state(specs@, u@, 0) == Some(
            (None::<Seq<Seq<char>>>, Seq::<u32>::empty()),
        ));
        assert(shared@ =~= Seq::<u32>::empty());
    }
    while k < u.len()
        invariant
            k <= u@.len(),
            spec_ws_state(specs@, u@, k as int) == Some(
                (
                    match cand {
                        None => None::<Seq<Seq<char>>>,
                        Some(v) => Some(v.deep_view()),
                    },
                    shared@,
                ),
            ),
        decreases u@.len() - k,
    {
        let cp = u[k];
        match specs.whole_map(cp) {
            None => {
                shared.push(cp);
            },
            Some(wv) => {
                match wv {
                    ParsedWholeValue::Number(_) => {
                        proof {
                            assert(spec_ws_state(specs@, u@, k + 1) is None);
                            lemma_ws_none_persists(specs@, u@, k + 1, u@.len() as int);
                        }
                        return None;
                    },
                    ParsedWholeValue::WholeObject(o) => {
                        let names: Vec<String> = match o.m.get(&cp) {
                            Some(ns) => copy_names(ns),
                            None => Vec::new(),
                        };
                        proof {
                            let mv = o.m@.map_values(|ns: Vec<String>| ns.deep_view());
                            if o.m@.contains_key(cp) {
                                assert(names.deep_view() == mv[cp]);
                            } else {
                                assert(names.deep_view() =~= Seq::<Seq<char>>::empty());
                            }
                        }
                        let newcand: Vec<String> = match &cand {
                            None => names,
                            Some(c) => retain_names(c, &names),
                        };
                        cand = Some(newcand);
                    },
                }
            },
        }
        k += 1;
    }
    let names: Vec<String> = match cand {
        Some(c) => c,
        None => Vec::new(),
    };
    let ghost names_v = names.deep_view();
    proof {
        let st = spec_ws_state(specs@, u@, u@.len() as int)->Some_0;
        assert(st.1 == shared@);
        match st.0 {
            Some(c) => assert(names_v == c),
            None => assert(names_v =~= Seq::<Seq<char>>::empty()),
        }
    }
    let mut k: usize = 0;
    while k < names.len()
        invariant
            k <= names_v.len(),
            names_v == names.deep_view(),
            spec_ws_state(specs@, u@, u@.len() as int) matches Some(st) && st.1 == shared@
                && names_v == (match st.0 {
                Some(c) => c,
                None => Seq::<Seq<char>>::empty(),
            }),
            spec_first_confusable(specs@, names_v, shared@, gname@, 0) == spec_first_confusable(
                specs@,
                names_v,
                shared@,
                gname@,
                k as int,
            ),
        decreases names_v.len() - k,
    {
        let nm: &String = &names[k];
        let gn = GroupName::from_string(nm.clone());
        proof {
            assert(names_v[k as int] == names@[k as int]@);
        }
        match specs.group_by_name(&gn) {
            Some(h) => {
                let differs = !(h.name == *gname);
                if differs && h.contains_all_cps(&shared) {
                    proof {
                        assert(spec_first_confusable(specs@, names_v, shared@, gname@, k as int)
                            == Some(k as int));
                    }
                    return Some(
                        DisallowedSequence::ConfusedGroups {
                            group1: gname.to_name_string(),
                            group2: h.name.to_name_string(),
                        },
                    );
                }
            },
            None => {},
        }
        k += 1;
    }
    None
}

/// Group determination and the group-wide checks over the text code points.
fn validate_group(specs: &CodePointsSpecs, cps: &Vec<u32>) -> (r: Result<GroupName, ProcessError>)
    ensures
        match r {
            Ok(g) => spec_validate_group(specs@, cps@) == Ok::<GroupNameV, ProcessErrorV>(g@),
            Err(e) => spec_validate_group(specs@, cps@) == Err::<GroupNameV, ProcessErrorV>(e@),
        },
{
    let u = unique_cps(cps);
    let full = specs.groups_for_cps(&u);
    if full.len() == 0 {
        // find the first prefix of the unique code points that empties the
        // candidate set
        let mut k: usize = 0;
        while k < u.len()
            invariant_except_break
                k <= u@.len(),
                u@ == spec_unique(cps@),
                spec_confused_k(specs@.groups, u@, 0) == spec_confused_k(
                    specs@.groups,
                    u@,
                    k as int,
                ),
            ensures
                k <= u@.len(),
                u@ == spec_unique(cps@),
                spec_confused_k(specs@.groups, u@, 0) == k as int,
            decreases u@.len() - k,
        {
            let prefix = crate::tokenize::sub_cps(&u, 0, k + 1);
            proof {
                assert(prefix@ =~= u@.take(k + 1));
            }
            let inds = specs.groups_for_cps(&prefix);
            if inds.len() == 0 {
                proof {
                    assert(spec_group_indices_for(specs@.groups, u@.take(k + 1)).len() == 0);
                    assert(spec_confused_k(specs@.groups, u@, k as int) == k as int);
                }
                break;
            }
            proof {
                assert(spec_group_indices_for(specs@.groups, u@.take(k + 1)).len() != 0);
            }
            k += 1;
        }
        let cp: u32 = if k < u.len() {
            u[k]
        } else {
            0
        };
        let before = crate::tokenize::sub_cps(&u, 0, k);
        proof {
            assert(before@ =~= u@.take(k as int));
        }
        let binds = specs.groups_for_cps(&before);
        let gname: String = if binds.len() > 0 {
            let gi = binds[0];
            proof {
                assert(binds@.map_values(|i: usize| i as int)[0] == gi as int);
            }
            specs.group_at(gi).name.to_name_string()
        } else {
            String::new()
        };
        Err(
            ProcessError::CurrableError {
                inner: CurrableError::Confused { group_name: gname, cp },
                index: k,
                sequence: cp2str(cp),
                maybe_suggest: None,
            },
        )
    } else {
        let gi = full[0];
        proof {
            assert(full@.map_values(|i: usize| i as int)[0] == gi as int);
        }
        let g = specs.group_at(gi);
        let ghost gv = specs@.groups[spec_group_indices_for(specs@.groups, u@)[0]];
        proof {
            assert(g@ == gv);
        }
        // every text code point must belong to the group
        let mut i: usize = 0;
        while i < cps.len()
            invariant
                i <= cps@.len(),
                u@ == spec_unique(cps@),
                spec_group_indices_for(specs@.groups, u@).len() != 0,
                gv == specs@.groups[spec_group_indices_for(specs@.groups, u@)[0]],
                g@ == gv,
                spec_first_not_in_group(gv, cps@, 0) == spec_first_not_in_group(
                    gv,
                    cps@,
                    i as int,
                ),
            decreases cps@.len() - i,
        {
            if !g.contains_cp(cps[i]) {
                proof {
                    assert(spec_first_not_in_group(gv, cps@, i as int) == Some(i as int));
                }
                return Err(
                    ProcessError::CurrableError {
                        inner: CurrableError::Confused {
                            group_name: g.name.to_name_string(),
                            cp: cps[i],
                        },
                        index: i,
                        sequence: cp2str(cps[i]),
                        maybe_suggest: None,
                    },
                );
            }
            i += 1;
        }
        // non-spacing-mark constraints when the group has no combining marks
        if g.cm_absent {
            let d = nfd_cps(cps, specs);
            match check_nsm(specs, &d) {
                Some(e) => {
                    return Err(ProcessError::DisallowedSequence(e));
                },
                None => {},
            }
        }
        // whole-script confusables over the unique code points
        match check_whole(specs, &g.name, &u) {
            Some(e) => Err(ProcessError::DisallowedSequence(e)),
            None => Ok(g.name.duplicate()),
        }
    }
}

/// The fenced, combining-mark and group rules for a label that is neither
/// all emoji nor all ASCII; `s` is the label's expanded code-point
/// sequence.
fn validate_unicode_label(label: &TokenizedLabel, specs: &CodePointsSpecs, s: &Vec<u32>) -> (r:
    Result<GroupName, ProcessError>)
    ensures
        match r {
            Ok(g) => spec_validate_unicode_label(specs@, views_of(label.tokens@), s@)
                == Ok::<GroupNameV, ProcessErrorV>(g@),
            Err(e) => spec_validate_unicode_label(specs@, views_of(label.tokens@), s@)
                == Err::<GroupNameV, ProcessErrorV>(e@),
        },
{
    let ghost tv = views_of(label.tokens@);
    if s.len() > 0 && specs.is_fenced(s[0]) {
        return Err(
            ProcessError::CurrableError {
                inner: CurrableError::FencedLeading,
                index: 0,
                sequence: cp2str(s[0]),
                maybe_suggest: Some(String::new()),
            },
        );
    }
    if s.len() > 0 && specs.is_fenced(s[s.len() - 1]) {
        return Err(
            ProcessError::CurrableError {
                inner: CurrableError::FencedTrailing,
                index: s.len() - 1,
                sequence: cp2str(s[s.len() - 1]),
                maybe_suggest: Some(String::new()),
            },
        );
    }
    if s.len() > 0 {
        let mut i: usize = 0;
        while i < s.len() - 1
            invariant
                s@.len() > 0,
                i <= s@.len(),
                !specs@.fenced.contains(s@[0]),
                !specs@.fenced.contains(s@[s@.len() - 1]),
                spec_next_fenced_pair(specs@, s@, 0) == spec_next_fenced_pair(
                    specs@,
                    s@,
                    i as int,
                ),
            decreases s@.len() - i,
        {
            if specs.is_fenced(s[i]) && specs.is_fenced(s[i + 1]) {
                let pair: Vec<u32> = vec![s[i], s[i + 1]];
                proof {
                    assert(pair@ =~= seq![s@[i as int], s@[i as int + 1]]);
                    assert(spec_next_fenced_pair(specs@, s@, i as int) == Some(i as int));
                }
                return Err(
                    ProcessError::CurrableError {
                        inner: CurrableError::FencedConsecutive,
                        index: i,
                        sequence: cps2str(&pair),
                        maybe_suggest: Some(cp2str(s[i])),
                    },
                );
            }
            i += 1;
        }
        proof {
            assert(spec_next_fenced_pair(specs@, s@, i as int) is None);
        }
    }
    proof {
        assert(spec_next_fenced_pair(specs@, s@, 0) is None);
    }
    // combining marks at the start of a text segment
    let segs = label.collapse_into_text_or_emoji();
    let ghost sv = collapsed_views(segs@);
    let mut i: usize = 0;
    let mut offset: usize = 0;
    while i < segs.len()
        invariant
            i <= segs@.len(),
            sv == collapsed_views(segs@),
            sv == spec_collapsed_from(views_of(label.tokens@), 0),
            s@.len() > 0 ==> !specs@.fenced.contains(s@[0]),
            s@.len() > 0 ==> !specs@.fenced.contains(s@[s@.len() - 1]),
            spec_next_fenced_pair(specs@, s@, 0) is None,
            spec_cm_find(specs@, sv, 0, 0) == spec_cm_find(specs@, sv, i as int, offset as int),
        decreases segs@.len() - i,
    {
        let seg = &segs[i];
        proof {
            assert(seg@ == sv[i as int]);
        }
        match seg {
            CollapsedEnsNameToken::Text(t) => {
                if t.cps.len() > 0 && specs.is_cm(t.cps[0]) {
                    let inner = if i == 0 {
                        CurrableError::CmStart
                    } else {
                        CurrableError::CmAfterEmoji
                    };
                    return Err(
                        ProcessError::CurrableError {
                            inner,
                            index: offset,
                            sequence: cp2str(t.cps[0]),
                            maybe_suggest: Some(String::new()),
                        },
                    );
                }
            },
            CollapsedEnsNameToken::Emoji(_) => {},
        }
        let sz = seg.input_size();
        offset = if sz > usize::MAX - offset {
            usize::MAX
        } else {
            offset + sz
        };
        i += 1;
    }
    proof {
        assert(spec_cm_find(specs@, sv, i as int, offset as int) is None);
    }
    // script-group determination and group-wide checks
    let text = label.get_cps_of_not_ignored_text();
    validate_group(specs, &text)
}

/// Validates a tokenized label against the ENSIP-15 rules, in order; the
/// first broken rule wins.
pub fn validate_label(label: &TokenizedLabel, specs: &CodePointsSpecs) -> (r: Result<
    ValidatedLabel,
    ProcessError,
>)
    ensures
        match r {
            Ok(vl) => spec_validate_label(specs@, views_of(label.tokens@)) == Ok::<
                GroupNameV,
                ProcessErrorV,
            >(vl.label_type@) && views_of(vl.tokens@) == views_of(label.tokens@),
            Err(e) => spec_validate_label(specs@, views_of(label.tokens@)) == Err::<
                GroupNameV,
                ProcessErrorV,
            >(e@),
        },
{
    let ghost tv = views_of(label.tokens@);
    let n = label.tokens.len();
    // a label of nothing but ignored tokens is empty
    let mut has_non_ignored = false;
    let mut i: usize = 0;
    while i < n
        invariant
            i <= n,
            n == label.tokens@.len(),
            tv == views_of(label.tokens@),
            has_non_ignored ==> spec_has_non_ignored(tv),
            !has_non_ignored ==> forall|j: int| 0 <= j < i ==> (#[trigger] tv[j]) is Ignored,
        decreases n - i,
    {
        proof {
            assert(tv[i as int] == label.tokens@[i as int]@);
        }
        if !(&label.tokens[i]).is_ignored() {
            has_non_ignored = true;
        }
        i += 1;
    }
    if !has_non_ignored {
        return Err(ProcessError::DisallowedSequence(DisallowedSequence::EmptyLabel));
    }
    // disallowed and stop tokens may not appear inside a label
    let mut i: usize = 0;
    while i < n
        invariant
            i <= n,
            n == label.tokens@.len(),
            tv == views_of(label.tokens@),
            spec_has_non_ignored(tv),
            spec_next_illegal(tv, 0) == spec_next_illegal(tv, i as int),
        decreases n - i,
    {
        let t = &label.tokens[i];
        proof {
            assert(t@ == tv[i as int]);
        }
        if t.is_disallowed() || t.is_stop() {
            match t {
                EnsNameToken::Disallowed(d) => {
                    if d.cp == CP_ZWNJ || d.cp == CP_ZWJ {
                        return Err(
                            ProcessError::DisallowedSequence(
                                DisallowedSequence::InvisibleCharacter(d.cp),
                            ),
                        );
                    }
                },
                _ => {},
            }
            let c = t.cps();
            return Err(
                ProcessError::DisallowedSequence(DisallowedSequence::Invalid(cps2str(&c))),
            );
        }
        i += 1;
    }
    proof {
        assert(spec_next_illegal(tv, i as int) is None);
    }
    // a label of nothing but emoji is classified as emoji
    if label.is_fully_emoji() {
        proof {
            assert forall|j: int| 0 <= j < tv.len() implies (#[trigger] tv[j]) is Emoji by {
                assert(tv[j] == label.tokens@[j]@);
            }
        }
        let tokens = crate::tokenize::collect_range(&label.tokens, 0, n);
        proof {
            assert(views_of(tokens@) =~= tv);
        }
        return Ok(ValidatedLabel { tokens, label_type: GroupName::Emoji });
    }
    proof {
        assert_by_contradiction!(!spec_all_emoji(tv), {
            assert forall|j: int|
                0 <= j < label.tokens@.len() implies (#[trigger] label.tokens@[j]@) is Emoji by {
                assert(tv[j] == label.tokens@[j]@);
            }
        });
    }
    // underscores are allowed only as a leading run
    let s = label.iter_cps();
    let mut lead: usize = 0;
    while lead < s.len() && s[lead] == CP_UNDERSCORE
        invariant
            lead <= s@.len(),
            spec_end_underscores(s@, 0) == spec_end_underscores(s@, lead as int),
        decreases s@.len() - lead,
    {
        lead += 1;
    }
    proof {
        assert(spec_end_underscores(s@, lead as int) == lead);
    }
    let mut j: usize = lead;
    while j < s.len()
        invariant
            lead <= j <= s@.len(),
            tv == views_of(label.tokens@),
            s@ == spec_tokens_cps(tv),
            spec_has_non_ignored(tv),
            spec_next_illegal(tv, 0) is None,
            !spec_all_emoji(tv),
            lead as int == spec_end_underscores(s@, 0),
            spec_next_underscore(s@, lead as int) == spec_next_underscore(s@, j as int),
        decreases s@.len() - j,
    {
        if s[j] == CP_UNDERSCORE {
            return Err(
                ProcessError::CurrableError {
                    inner: CurrableError::UnderscoreInMiddle,
                    index: j,
                    sequence: cp2str(CP_UNDERSCORE),
                    maybe_suggest: Some(String::new()),
                },
            );
        }
        j += 1;
    }
    proof {
        assert(spec_next_underscore(s@, j as int) is None);
    }
    // an all-ASCII label needs only the hyphen rule
    if label.is_fully_ascii() {
        if s.len() > 3 && s[2] == CP_HYPHEN && s[3] == CP_HYPHEN {
            let pair: Vec<u32> = vec![CP_HYPHEN, CP_HYPHEN];
            proof {
                assert(pair@ =~= seq![CP_HYPHEN, CP_HYPHEN]);
            }
            return Err(
                ProcessError::CurrableError {
                    inner: CurrableError::HyphenAtSecondAndThird,
                    index: 2,
                    sequence: cps2str(&pair),
                    maybe_suggest: Some(String::new()),
                },
            );
        }
        let tokens = crate::tokenize::collect_range(&label.tokens, 0, n);
        proof {
            assert(views_of(tokens@) =~= tv);
        }
        return Ok(ValidatedLabel { tokens, label_type: GroupName::Ascii });
    }
    match validate_unicode_label(label, specs, &s) {
        Ok(g) => {
            let tokens = crate::tokenize::collect_range(&label.tokens, 0, n);
            proof {
                assert(views_of(tokens@) =~= tv);
            }
            Ok(ValidatedLabel { tokens, label_type: g })
        },
        Err(e) => Err(e),
    }
}

/// The views of a validated-label list, paired with their types.
pub open spec fn vlabel_views(v: Seq<ValidatedLabel>) -> Seq<(Seq<TokenV>, GroupNameV)> {
    v.map_values(|l: ValidatedLabel| (views_of(l.tokens@), l.label_type@))
}

/// Splits a tokenized name into labels and validates each, in order; the
/// first failure wins. An empty name has no labels and passes.
pub fn validate_name(name: &TokenizedName, specs: &CodePointsSpecs) -> (r: Result<
    Vec<ValidatedLabel>,
    ProcessError,
>)
    ensures
        match r {
            Ok(v) => spec_validate_name(specs@, views_of(name.tokens@)) == Ok::<
                Seq<(Seq<TokenV>, GroupNameV)>,
                ProcessErrorV,
            >(vlabel_views(v@)),
            Err(e) => spec_validate_name(specs@, views_of(name.tokens@)) == Err::<
                Seq<(Seq<TokenV>, GroupNameV)>,
                ProcessErrorV,
            >(e@),
        },
{
    if name.tokens.len() == 0 {
        let out: Vec<ValidatedLabel> = Vec::new();
        proof {
            assert(vlabel_views(out@) =~= Seq::<(Seq<TokenV>, GroupNameV)>::empty());
        }
        return Ok(out);
    }
    let labels = name.labels();
    let ghost lv = label_views(labels@);
    let n = labels.len();
    let mut out: Vec<ValidatedLabel> = Vec::new();
    let mut i: usize = 0;
    proof {
        assert(vlabel_views(out@) =~= Seq::<(Seq<TokenV>, GroupNameV)>::empty());
    }
    while i < n
        invariant
            i <= n,
            n == labels@.len(),
            lv == label_views(labels@),
            spec_validate_name(specs@, views_of(name.tokens@)) == spec_validate_labels(
                specs@,
                lv,
                0,
            ),
            spec_validate_labels(specs@, lv, 0) == (match spec_validate_labels(
                specs@,
                lv,
                i as int,
            ) {
                Err(e) => Err(e),
                Ok(rest) => Ok(vlabel_views(out@) + rest),
            }),
        decreases n - i,
    {
        let ghost pre = vlabel_views(out@);
        proof {
            assert(lv[i as int] == views_of(labels@[i as int].tokens@));
        }
        match validate_label(&labels[i], specs) {
            Ok(vl) => {
                let ghost t = vl.label_type@;
                proof {
                    out@.lemma_push_map_commute(
                        |l: ValidatedLabel| (views_of(l.tokens@), l.label_type@),
                        vl,
                    );
                    assert(vlabel_views(out@.push(vl)) =~= pre.push((lv[i as int], t)));
                }
                out.push(vl);
                proof {
                    assert(vlabel_views(out@) == pre.push((lv[i as int], t)));
                    match spec_validate_labels(specs@, lv, i + 1) {
                        Err(e) => {},
                        Ok(rest) => {
                            assert(spec_validate_labels(specs@, lv, i as int) == Ok::<
                                Seq<(Seq<TokenV>, GroupNameV)>,
                                ProcessErrorV,
                            >(seq![(lv[i as int], t)] + rest));
                            assert(pre + (seq![(lv[i as int], t)] + rest) =~= pre.push(
                                (lv[i as int], t),
                            ) + rest);
                        },
                    }
                }
            },
            Err(e) => {
                return Err(e);
            },
        }
        i += 1;
    }
    proof {
        assert(spec_validate_labels(specs@, lv, n as int) == Ok::<
            Seq<(Seq<TokenV>, GroupNameV)>,
            ProcessErrorV,
        >(Seq::empty()));
        assert(vlabel_views(out@) + Seq::<(Seq<TokenV>, GroupNameV)>::empty() =~= vlabel_views(
            out@,
        ));
    }
    Ok(out)
}

} // verus!
