//! Laws of the tokenizer and the validator, stated and proved over the
//! specification functions that the public contracts use.

use vstd::prelude::*;

use crate::code_points::{
    lemma_best_emoji_at, spec_best_emoji_at, spec_group_indices_for, spec_group_indices_upto,
    spec_pretty_for_no_fe0f, SpecsV,
};
use crate::error::ProcessErrorV;
use crate::static_data::GroupNameV;
use crate::tokenize::{
    is_vm, spec_classify_cp, spec_collapse_from, spec_cps_have_check, spec_emoji_token,
    spec_nfc_transform_from, spec_raw_tokens_from, spec_text_cps, spec_tokenize, spec_tokens_cps,
    spec_trim_vm, spec_valid_end, spec_vm_cps, spec_vmi_end,
};
use crate::constants::CP_UNDERSCORE;
use crate::tokenize::{spec_collapsed_emoji, spec_collapsed_from, spec_next_emoji};
use crate::tokens::{collapsed_input_size, token_cps, token_input_size, CollapsedTokenV, TokenV};
use crate::utils::{cps_of_chars, filter_fe0f_seq};
use crate::validate::{
    spec_all_ascii, spec_all_emoji, spec_cm_find, spec_end_underscores, spec_has_non_ignored,
    spec_next_fenced_pair, spec_next_illegal, spec_next_underscore, spec_unique,
    spec_validate_label,
};
use vstd::assert_by_contradiction;

verus! {

/// The total number of input code points a token sequence stands for.
pub open spec fn tokens_input_size(ts: Seq<TokenV>) -> nat
    decreases ts.len(),
{
    if ts.len() == 0 {
        0
    } else {
        tokens_input_size(ts.drop_last()) + token_input_size(ts.last())
    }
}

proof fn lemma_sizes_add(a: Seq<TokenV>, b: Seq<TokenV>)
    ensures
        tokens_input_size(a + b) == tokens_input_size(a) + tokens_input_size(b),
    decreases b.len(),
{
    if b.len() == 0 {
        assert(a + b =~= a);
    } else {
        assert((a + b).drop_last() =~= a + b.drop_last());
        assert((a + b).last() == b.last());
        lemma_sizes_add(a, b.drop_last());
    }
}

proof fn lemma_valid_end_props(ts: Seq<TokenV>, i: int)
    requires
        0 <= i <= ts.len(),
    ensures
        i <= spec_valid_end(ts, i) <= ts.len(),
        spec_valid_end(ts, i) < ts.len() ==> !(ts[spec_valid_end(ts, i)] is Valid),
        forall|j: int| i <= j < spec_valid_end(ts, i) ==> (#[trigger] ts[j]) is Valid,
        i < ts.len() && ts[i] is Valid ==> spec_valid_end(ts, i) >= i + 1,
    decreases ts.len() - i,
{
    if i < ts.len() && ts[i] is Valid {
        lemma_valid_end_props(ts, i + 1);
    }
}

proof fn lemma_vm_cps_len_valid_run(run: Seq<TokenV>)
    requires
        forall|j: int| 0 <= j < run.len() ==> (#[trigger] run[j]) is Valid,
    ensures
        spec_vm_cps(run).len() == tokens_input_size(run),
    decreases run.len(),
{
    if run.len() > 0 {
        assert(forall|j: int|
            0 <= j < run.drop_last().len() ==> #[trigger] run.drop_last()[j] == run[j]);
        lemma_vm_cps_len_valid_run(run.drop_last());
    }
}

proof fn lemma_raw_sizes(specs: SpecsV, s: Seq<char>, i: int)
    requires
        0 <= i <= s.len(),
    ensures
        tokens_input_size(spec_raw_tokens_from(specs, s, i)) == s.len() - i,
    decreases s.len() - i,
{
    if i < s.len() {
        match spec_best_emoji_at(specs.emojis, cps_of_chars(s), i) {
            Some(je) => {
                lemma_best_emoji_at(specs.emojis, cps_of_chars(s), i);
                let end = je.1;
                assert(cps_of_chars(s).len() == s.len());
                assert(i < end <= s.len());
                let tok = spec_emoji_token(specs, s.subrange(i, end));
                assert(token_input_size(tok) == end - i) by {
                    assert(cps_of_chars(s.subrange(i, end)).len() == s.subrange(i, end).len());
                }
                lemma_raw_sizes(specs, s, end);
                lemma_sizes_add(seq![tok], spec_raw_tokens_from(specs, s, end));
                assert(tokens_input_size(seq![tok]) == token_input_size(tok)) by {
                    assert(seq![tok].drop_last() =~= Seq::<TokenV>::empty());
                    assert(tokens_input_size(Seq::<TokenV>::empty()) == 0);
                }
            },
            None => {
                let tok = spec_classify_cp(specs, s[i] as u32);
                assert(token_input_size(tok) == 1);
                lemma_raw_sizes(specs, s, i + 1);
                lemma_sizes_add(seq![tok], spec_raw_tokens_from(specs, s, i + 1));
                assert(tokens_input_size(seq![tok]) == token_input_size(tok)) by {
                    assert(seq![tok].drop_last() =~= Seq::<TokenV>::empty());
                    assert(tokens_input_size(Seq::<TokenV>::empty()) == 0);
                }
            },
        }
    }
}

proof fn lemma_collapse_sizes(ts: Seq<TokenV>, i: int)
    requires
        0 <= i <= ts.len(),
    ensures
        tokens_input_size(spec_collapse_from(ts, i)) == tokens_input_size(
            ts.subrange(i, ts.len() as int),
        ),
    decreases ts.len() - i,
{
    if i < ts.len() {
        if ts[i] is Valid {
            lemma_valid_end_props(ts, i);
            let e = spec_valid_end(ts, i);
            let k = if i < e <= ts.len() {
                e
            } else {
                i + 1
            };
            let run = ts.subrange(i, k);
            assert(forall|j: int| 0 <= j < run.len() ==> (#[trigger] run[j]) is Valid) by {
                assert(forall|j: int| 0 <= j < run.len() ==> run[j] == ts[i + j]);
            }
            lemma_vm_cps_len_valid_run(run);
            let tok = TokenV::Valid { cps: spec_vm_cps(run) };
            lemma_collapse_sizes(ts, k);
            lemma_sizes_add(seq![tok], spec_collapse_from(ts, k));
            assert(tokens_input_size(seq![tok]) == token_input_size(tok)) by {
                assert(seq![tok].drop_last() =~= Seq::<TokenV>::empty());
                assert(tokens_input_size(Seq::<TokenV>::empty()) == 0);
            }
            assert(ts.subrange(i, ts.len() as int) =~= run + ts.subrange(k, ts.len() as int));
            lemma_sizes_add(run, ts.subrange(k, ts.len() as int));
        } else {
            lemma_collapse_sizes(ts, i + 1);
            lemma_sizes_add(seq![ts[i]], spec_collapse_from(ts, i + 1));
            assert(tokens_input_size(seq![ts[i]]) == token_input_size(ts[i])) by {
                assert(seq![ts[i]].drop_last() =~= Seq::<TokenV>::empty());
                assert(tokens_input_size(Seq::<TokenV>::empty()) == 0);
            }
            assert(ts.subrange(i, ts.len() as int) =~= seq![ts[i]] + ts.subrange(
                i + 1,
                ts.len() as int,
            ));
            lemma_sizes_add(seq![ts[i]], ts.subrange(i + 1, ts.len() as int));
        }
    } else {
        assert(ts.subrange(i, ts.len() as int) =~= Seq::<TokenV>::empty());
    }
}

/// Tokenization without the NFC pass preserves the code-point count: the
/// input sizes of the tokens sum to the length of the input. (With the NFC
/// pass the law does not hold: an NFC token records the expanded text run
/// as its input, which drops interleaved ignored code points and follows
/// mapped replacements.)
pub proof fn law_tokenize_preserves_input_size(specs: SpecsV, s: Seq<char>)
    ensures
        tokens_input_size(spec_tokenize(specs, s, false)) == s.len(),
{
    lemma_raw_sizes(specs, s, 0);
    let raw = spec_raw_tokens_from(specs, s, 0);
    lemma_collapse_sizes(raw, 0);
    assert(raw.subrange(0, raw.len() as int) =~= raw);
}

/// Adjacent valid tokens never appear in the tokenizer's output.
pub open spec fn no_adjacent_valid(ts: Seq<TokenV>) -> bool {
    forall|j: int|
        0 <= j < ts.len() - 1 ==> !((#[trigger] ts[j]) is Valid && ts[j + 1] is Valid)
}

proof fn lemma_collapse_no_adjacent(ts: Seq<TokenV>, i: int)
    requires
        0 <= i <= ts.len(),
    ensures
        no_adjacent_valid(spec_collapse_from(ts, i)),
        spec_collapse_from(ts, i).len() > 0 && i < ts.len() ==> (spec_collapse_from(ts, i)[0]
            is Valid ==> ts[i] is Valid),
    decreases ts.len() - i,
{
    if i < ts.len() {
        if ts[i] is Valid {
            lemma_valid_end_props(ts, i);
            let e = spec_valid_end(ts, i);
            let k = if i < e <= ts.len() {
                e
            } else {
                i + 1
            };
            lemma_collapse_no_adjacent(ts, k);
            let rest = spec_collapse_from(ts, k);
            let out = spec_collapse_from(ts, i);
            assert(out == seq![TokenV::Valid { cps: spec_vm_cps(ts.subrange(i, k)) }] + rest);
            assert forall|j: int|
                0 <= j < out.len() - 1 implies !((#[trigger] out[j]) is Valid && out[j + 1]
                is Valid) by {
                if j == 0 {
                    if rest.len() > 0 && out[1] is Valid {
                        assert(out[1] == rest[0]);
                        assert(k < ts.len());
                        assert(!(ts[k] is Valid));
                    }
                } else {
                    assert(out[j] == rest[j - 1]);
                    assert(out[j + 1] == rest[j]);
                }
            }
        } else {
            lemma_collapse_no_adjacent(ts, i + 1);
            let rest = spec_collapse_from(ts, i + 1);
            let out = spec_collapse_from(ts, i);
            assert(out == seq![ts[i]] + rest);
            assert forall|j: int|
                0 <= j < out.len() - 1 implies !((#[trigger] out[j]) is Valid && out[j + 1]
                is Valid) by {
                if j == 0 {
                    assert(out[0] == ts[i]);
                } else {
                    assert(out[j] == rest[j - 1]);
                    assert(out[j + 1] == rest[j]);
                }
            }
        }
    }
}

/// Adjacent valid tokens never appear in the output of the tokenizer.
pub proof fn law_no_adjacent_valid_tokens(specs: SpecsV, s: Seq<char>, apply_nfc: bool)
    ensures
        no_adjacent_valid(spec_tokenize(specs, s, apply_nfc)),
{
    let raw = spec_raw_tokens_from(specs, s, 0);
    let transformed = if apply_nfc {
        spec_nfc_transform_from(specs, raw, 0)
    } else {
        raw
    };
    lemma_collapse_no_adjacent(transformed, 0);
}

/// An emoji token carries consistent fields: its code points are those of
/// its input substring, its bare form is its input with every U+FE0F
/// removed, and its pretty form is the dictionary entry for that bare form.
pub open spec fn emoji_token_wf(specs: SpecsV, t: TokenV) -> bool {
    t matches TokenV::Emoji { input, emoji, cps_input, cps_no_fe0f } ==> {
        &&& cps_input == cps_of_chars(input)
        &&& cps_no_fe0f == filter_fe0f_seq(cps_input)
        &&& spec_pretty_for_no_fe0f(specs.emojis, cps_no_fe0f, 0) matches Some(j) && emoji
            == specs.emojis[j]
    }
}

/// An NFC token records a run whose code points touched the NFC-check set.
pub open spec fn nfc_token_wf(specs: SpecsV, t: TokenV) -> bool {
    t matches TokenV::Nfc { input, cps } ==> spec_cps_have_check(specs, input)
}

/// Both token invariants, over a whole sequence.
pub open spec fn all_tokens_wf(specs: SpecsV, ts: Seq<TokenV>) -> bool {
    forall|j: int|
        0 <= j < ts.len() ==> emoji_token_wf(specs, #[trigger] ts[j]) && nfc_token_wf(
            specs,
            ts[j],
        )
}

proof fn lemma_cons_wf(specs: SpecsV, t: TokenV, rest: Seq<TokenV>)
    requires
        emoji_token_wf(specs, t),
        nfc_token_wf(specs, t),
        all_tokens_wf(specs, rest),
    ensures
        all_tokens_wf(specs, seq![t] + rest),
{
    let out = seq![t] + rest;
    assert forall|j: int|
        0 <= j < out.len() implies emoji_token_wf(specs, #[trigger] out[j]) && nfc_token_wf(
        specs,
        out[j],
    ) by {
        if j == 0 {
            assert(out[0] == t);
        } else {
            assert(out[j] == rest[j - 1]);
        }
    }
}

proof fn lemma_concat_wf(specs: SpecsV, a: Seq<TokenV>, b: Seq<TokenV>)
    requires
        all_tokens_wf(specs, a),
        all_tokens_wf(specs, b),
    ensures
        all_tokens_wf(specs, a + b),
{
    let out = a + b;
    assert forall|j: int|
        0 <= j < out.len() implies emoji_token_wf(specs, #[trigger] out[j]) && nfc_token_wf(
        specs,
        out[j],
    ) by {
        if j < a.len() {
            assert(out[j] == a[j]);
        } else {
            assert(out[j] == b[j - a.len()]);
        }
    }
}

proof fn lemma_subrange_wf(specs: SpecsV, ts: Seq<TokenV>, a: int, b: int)
    requires
        all_tokens_wf(specs, ts),
        0 <= a <= b <= ts.len(),
    ensures
        all_tokens_wf(specs, ts.subrange(a, b)),
{
    let out = ts.subrange(a, b);
    assert forall|j: int|
        0 <= j < out.len() implies emoji_token_wf(specs, #[trigger] out[j]) && nfc_token_wf(
        specs,
        out[j],
    ) by {
        assert(out[j] == ts[a + j]);
    }
}

proof fn lemma_raw_wf(specs: SpecsV, s: Seq<char>, i: int)
    requires
        0 <= i <= s.len(),
    ensures
        all_tokens_wf(specs, spec_raw_tokens_from(specs, s, i)),
    decreases s.len() - i,
{
    if i < s.len() {
        match spec_best_emoji_at(specs.emojis, cps_of_chars(s), i) {
            Some(je) => {
                lemma_best_emoji_at(specs.emojis, cps_of_chars(s), i);
                let end = je.1;
                assert(cps_of_chars(s).len() == s.len());
                let tok = spec_emoji_token(specs, s.subrange(i, end));
                assert(emoji_token_wf(specs, tok)) by {
                    crate::tokenize::lemma_fe0f_match_bare(
                        specs.emojis[je.0],
                        cps_of_chars(s),
                        0,
                        i,
                    );
                    assert(specs.emojis[je.0].subrange(0, specs.emojis[je.0].len() as int)
                        =~= specs.emojis[je.0]);
                    assert(cps_of_chars(s).subrange(i, end) =~= cps_of_chars(
                        s.subrange(i, end),
                    ));
                    crate::tokenize::lemma_pretty_first_some(
                        specs.emojis,
                        filter_fe0f_seq(cps_of_chars(s.subrange(i, end))),
                        0,
                        je.0,
                    );
                }
                lemma_raw_wf(specs, s, end);
                lemma_cons_wf(specs, tok, spec_raw_tokens_from(specs, s, end));
            },
            None => {
                let tok = spec_classify_cp(specs, s[i] as u32);
                lemma_raw_wf(specs, s, i + 1);
                lemma_cons_wf(specs, tok, spec_raw_tokens_from(specs, s, i + 1));
            },
        }
    }
}

proof fn lemma_nfc_pass_wf(specs: SpecsV, ts: Seq<TokenV>, i: int)
    requires
        0 <= i <= ts.len(),
        all_tokens_wf(specs, ts),
    ensures
        all_tokens_wf(specs, spec_nfc_transform_from(specs, ts, i)),
    decreases ts.len() - i,
{
    if i < ts.len() {
        if !is_vm(ts[i]) {
            lemma_nfc_pass_wf(specs, ts, i + 1);
            lemma_cons_wf(specs, ts[i], spec_nfc_transform_from(specs, ts, i + 1));
        } else {
            let e = spec_trim_vm(ts, i, spec_vmi_end(ts, i));
            let k = if i < e <= ts.len() {
                e
            } else {
                i + 1
            };
            let run = ts.subrange(i, k);
            lemma_subrange_wf(specs, ts, i, k);
            lemma_nfc_pass_wf(specs, ts, k);
            let cps0 = spec_vm_cps(run);
            if spec_cps_have_check(specs, cps0) && crate::utils::nfc_of(
                crate::utils::chars_of_cps(cps0),
            ) != crate::utils::chars_of_cps(cps0) {
                let tok = TokenV::Nfc {
                    input: cps0,
                    cps: cps_of_chars(
                        crate::utils::nfc_of(crate::utils::chars_of_cps(cps0)),
                    ),
                };
                lemma_cons_wf(specs, tok, spec_nfc_transform_from(specs, ts, k));
            } else {
                lemma_concat_wf(specs, run, spec_nfc_transform_from(specs, ts, k));
            }
        }
    }
}

proof fn lemma_collapse_wf(specs: SpecsV, ts: Seq<TokenV>, i: int)
    requires
        0 <= i <= ts.len(),
        all_tokens_wf(specs, ts),
    ensures
        all_tokens_wf(specs, spec_collapse_from(ts, i)),
    decreases ts.len() - i,
{
    if i < ts.len() {
        if ts[i] is Valid {
            lemma_valid_end_props(ts, i);
            let e = spec_valid_end(ts, i);
            let k = if i < e <= ts.len() {
                e
            } else {
                i + 1
            };
            let tok = TokenV::Valid { cps: spec_vm_cps(ts.subrange(i, k)) };
            lemma_collapse_wf(specs, ts, k);
            lemma_cons_wf(specs, tok, spec_collapse_from(ts, k));
        } else {
            lemma_collapse_wf(specs, ts, i + 1);
            lemma_cons_wf(specs, ts[i], spec_collapse_from(ts, i + 1));
        }
    }
}

proof fn lemma_tokenize_wf(specs: SpecsV, s: Seq<char>, apply_nfc: bool)
    ensures
        all_tokens_wf(specs, spec_tokenize(specs, s, apply_nfc)),
{
    lemma_raw_wf(specs, s, 0);
    let raw = spec_raw_tokens_from(specs, s, 0);
    if apply_nfc {
        lemma_nfc_pass_wf(specs, raw, 0);
        lemma_collapse_wf(specs, spec_nfc_transform_from(specs, raw, 0), 0);
    } else {
        lemma_collapse_wf(specs, raw, 0);
    }
}

/// Every emoji token the tokenizer emits carries the code points of its
/// input substring, that input with every U+FE0F removed as its bare form,
/// and the dictionary's pretty form for that bare form.
pub proof fn law_emoji_tokens_well_formed(specs: SpecsV, s: Seq<char>, apply_nfc: bool)
    ensures
        forall|j: int|
            0 <= j < spec_tokenize(specs, s, apply_nfc).len() ==> emoji_token_wf(
                specs,
                #[trigger] spec_tokenize(specs, s, apply_nfc)[j],
            ),
{
    lemma_tokenize_wf(specs, s, apply_nfc);
}

/// NFC is applied only to runs that contain at least one code point of the
/// NFC-check set: every NFC token's recorded input touches that set.
pub proof fn law_nfc_only_on_checked_runs(specs: SpecsV, s: Seq<char>, apply_nfc: bool)
    ensures
        forall|j: int|
            0 <= j < spec_tokenize(specs, s, apply_nfc).len() ==> nfc_token_wf(
                specs,
                #[trigger] spec_tokenize(specs, s, apply_nfc)[j],
            ),
{
    lemma_tokenize_wf(specs, s, apply_nfc);
}

proof fn lemma_group_indices_bounds(groups: Seq<crate::code_points::ParsedGroupV>, cps: Seq<u32>, n: int)
    requires
        0 <= n <= groups.len(),
    ensures
        forall|k: int|
            0 <= k < spec_group_indices_upto(groups, cps, n).len() ==> 0 <= (
            #[trigger] spec_group_indices_upto(groups, cps, n)[k]) < n,
    decreases n,
{
    if n > 0 {
        lemma_group_indices_bounds(groups, cps, n - 1);
        let prev = spec_group_indices_upto(groups, cps, n - 1);
        let cur = spec_group_indices_upto(groups, cps, n);
        assert forall|k: int| 0 <= k < cur.len() implies 0 <= (#[trigger] cur[k]) < n by {
            if k < prev.len() {
                assert(cur[k] == prev[k]);
            }
        }
    }
}

/// A label classified as ASCII contains only ASCII code points, provided
/// the tables reserve the name: no script group is itself named ASCII.
pub proof fn law_ascii_label_is_ascii(specs: SpecsV, ts: Seq<TokenV>)
    requires
        spec_validate_label(specs, ts) == Ok::<GroupNameV, ProcessErrorV>(GroupNameV::Ascii),
        forall|j: int|
            0 <= j < specs.groups.len() ==> !((#[trigger] specs.groups[j]).name is Ascii),
    ensures
        spec_all_ascii(spec_tokens_cps(ts)),
{
    let s = spec_tokens_cps(ts);
    if !spec_all_ascii(s) {
        let u = spec_unique(spec_text_cps(ts));
        let full = spec_group_indices_for(specs.groups, u);
        if full.len() > 0 {
            lemma_group_indices_bounds(specs.groups, u, specs.groups.len() as int);
            assert(0 <= full[0] < specs.groups.len());
            assert(!(specs.groups[full[0]].name is Ascii));
        }
        assert(false);
    }
}

/// A label classified as emoji consists of emoji tokens only, provided the
/// tables reserve the name: no script group is itself named Emoji.
pub proof fn law_emoji_label_is_emoji(specs: SpecsV, ts: Seq<TokenV>)
    requires
        spec_validate_label(specs, ts) == Ok::<GroupNameV, ProcessErrorV>(GroupNameV::Emoji),
        forall|j: int|
            0 <= j < specs.groups.len() ==> !((#[trigger] specs.groups[j]).name is Emoji),
    ensures
        spec_all_emoji(ts),
{
    if !spec_all_emoji(ts) {
        let u = spec_unique(spec_text_cps(ts));
        let full = spec_group_indices_for(specs.groups, u);
        if full.len() > 0 {
            lemma_group_indices_bounds(specs.groups, u, specs.groups.len() as int);
            assert(0 <= full[0] < specs.groups.len());
            assert(!(specs.groups[full[0]].name is Emoji));
        }
        assert(false);
    }
}

proof fn lemma_next_illegal_none_when_all_emoji(ts: Seq<TokenV>, i: int)
    requires
        0 <= i <= ts.len(),
        spec_all_emoji(ts),
    ensures
        spec_next_illegal(ts, i) is None,
    decreases ts.len() - i,
{
    if i < ts.len() {
        lemma_next_illegal_none_when_all_emoji(ts, i + 1);
    }
}

/// A non-empty label of nothing but emoji tokens is classified as emoji.
pub proof fn law_all_emoji_label_classified_emoji(specs: SpecsV, ts: Seq<TokenV>)
    requires
        ts.len() > 0,
        spec_all_emoji(ts),
    ensures
        spec_validate_label(specs, ts) == Ok::<GroupNameV, ProcessErrorV>(GroupNameV::Emoji),
{
    assert(spec_has_non_ignored(ts)) by {
        assert(!(ts[0] is Ignored));
    }
    lemma_next_illegal_none_when_all_emoji(ts, 0);
}

proof fn lemma_next_illegal_push_none(ts: Seq<TokenV>, e: TokenV, i: int)
    requires
        0 <= i <= ts.len(),
        !(e is Disallowed),
        !(e is Stop),
        spec_next_illegal(ts, i) is None,
    ensures
        spec_next_illegal(ts.push(e), i) is None,
    decreases ts.len() - i,
{
    if i < ts.len() {
        assert(ts.push(e)[i] == ts[i]);
        lemma_next_illegal_push_none(ts, e, i + 1);
    } else {
        assert(ts.push(e)[i] == e);
        assert(spec_next_illegal(ts.push(e), i + 1) is None);
    }
}

proof fn lemma_end_underscores_val(q: Seq<u32>, i: int, e: int)
    requires
        0 <= i <= e <= q.len(),
        forall|m: int| i <= m < e ==> #[trigger] q[m] == CP_UNDERSCORE,
        e < q.len() ==> q[e] != CP_UNDERSCORE,
    ensures
        spec_end_underscores(q, i) == e,
    decreases e - i,
{
    if i < e {
        lemma_end_underscores_val(q, i + 1, e);
    }
}

proof fn lemma_end_underscores_char(q: Seq<u32>, i: int)
    requires
        0 <= i <= q.len(),
    ensures
        i <= spec_end_underscores(q, i) <= q.len(),
        forall|m: int|
            i <= m < spec_end_underscores(q, i) ==> #[trigger] q[m] == CP_UNDERSCORE,
        spec_end_underscores(q, i) < q.len() ==> q[spec_end_underscores(q, i)] != CP_UNDERSCORE,
    decreases q.len() - i,
{
    if i < q.len() && q[i] == CP_UNDERSCORE {
        lemma_end_underscores_char(q, i + 1);
    }
}

proof fn lemma_next_underscore_none(q: Seq<u32>, i: int)
    requires
        0 <= i <= q.len(),
        forall|m: int| i <= m < q.len() ==> #[trigger] q[m] != CP_UNDERSCORE,
    ensures
        spec_next_underscore(q, i) is None,
    decreases q.len() - i,
{
    if i < q.len() {
        lemma_next_underscore_none(q, i + 1);
    }
}

proof fn lemma_next_underscore_none_char(q: Seq<u32>, i: int)
    requires
        0 <= i <= q.len(),
        spec_next_underscore(q, i) is None,
    ensures
        forall|m: int| i <= m < q.len() ==> #[trigger] q[m] != CP_UNDERSCORE,
    decreases q.len() - i,
{
    if i < q.len() && q[i] != CP_UNDERSCORE {
        lemma_next_underscore_none_char(q, i + 1);
    }
}

proof fn lemma_next_fenced_pair_none(specs: SpecsV, q: Seq<u32>, i: int)
    requires
        0 <= i,
        forall|m: int|
            i <= m < q.len() - 1 ==> !(specs.fenced.contains(#[trigger] q[m])
                && specs.fenced.contains(q[m + 1])),
    ensures
        spec_next_fenced_pair(specs, q, i) is None,
    decreases q.len() - i,
{
    if i + 1 < q.len() {
        lemma_next_fenced_pair_none(specs, q, i + 1);
    }
}

proof fn lemma_next_fenced_pair_none_char(specs: SpecsV, q: Seq<u32>, i: int)
    requires
        0 <= i,
        spec_next_fenced_pair(specs, q, i) is None,
    ensures
        forall|m: int|
            i <= m < q.len() - 1 ==> !(specs.fenced.contains(#[trigger] q[m])
                && specs.fenced.contains(q[m + 1])),
    decreases q.len() - i,
{
    if i + 1 < q.len() {
        lemma_next_fenced_pair_none_char(specs, q, i + 1);
    }
}

proof fn lemma_next_emoji_push(ts: Seq<TokenV>, e: TokenV, i: int)
    requires
        0 <= i <= ts.len(),
        e is Emoji,
    ensures
        spec_next_emoji(ts, i) < ts.len() ==> spec_next_emoji(ts.push(e), i) == spec_next_emoji(
            ts,
            i,
        ),
        spec_next_emoji(ts, i) == ts.len() ==> spec_next_emoji(ts.push(e), i) == ts.len(),
        i <= spec_next_emoji(ts, i) <= ts.len(),
    decreases ts.len() - i,
{
    if i < ts.len() {
        assert(ts.push(e)[i] == ts[i]);
        if !(ts[i] is Emoji) {
            lemma_next_emoji_push(ts, e, i + 1);
        }
    } else {
        assert(ts.push(e)[i] == e);
    }
}

proof fn lemma_collapsed_push_emoji(ts: Seq<TokenV>, e: TokenV, i: int)
    requires
        0 <= i <= ts.len(),
        e is Emoji,
    ensures
        spec_collapsed_from(ts.push(e), i) == spec_collapsed_from(ts, i).push(
            spec_collapsed_emoji(e),
        ),
    decreases ts.len() - i,
{
    lemma_next_emoji_push(ts, e, i);
    let ne = spec_next_emoji(ts, i);
    if ne < ts.len() {
        assert(ts.push(e).subrange(i, ne) =~= ts.subrange(i, ne));
        lemma_collapsed_push_emoji(ts, e, ne + 1);
        assert(ts.push(e)[ne] == ts[ne]);
        let txt = spec_text_cps(ts.subrange(i, ne));
        let txtpart: Seq<CollapsedTokenV> = if txt.len() > 0 {
            seq![CollapsedTokenV::Text { cps: txt }]
        } else {
            Seq::empty()
        };
        assert(spec_collapsed_from(ts.push(e), i) == txtpart + (seq![
            spec_collapsed_emoji(ts[ne]),
        ] + spec_collapsed_from(ts.push(e), ne + 1)));
        assert(txtpart + (seq![spec_collapsed_emoji(ts[ne])] + spec_collapsed_from(
            ts,
            ne + 1,
        ).push(spec_collapsed_emoji(e))) =~= (txtpart + (seq![spec_collapsed_emoji(ts[ne])]
            + spec_collapsed_from(ts, ne + 1))).push(spec_collapsed_emoji(e)));
    } else {
        // no emoji in the rest of the original label
        assert(spec_next_emoji(ts.push(e), i) == ts.len());
        assert(ts.push(e)[ts.len() as int] == e);
        let txt = spec_text_cps(ts.subrange(i, ts.len() as int));
        assert(ts.push(e).subrange(i, ts.len() as int) =~= ts.subrange(i, ts.len() as int));
        let txtpart: Seq<CollapsedTokenV> = if txt.len() > 0 {
            seq![CollapsedTokenV::Text { cps: txt }]
        } else {
            Seq::empty()
        };
        assert(spec_collapsed_from(ts.push(e), ts.len() as int + 1) =~= Seq::<
            CollapsedTokenV,
        >::empty()) by {
            assert(ts.push(e).subrange(ts.len() as int + 1, ts.len() as int + 1) =~= Seq::<TokenV>::empty());
            assert(spec_text_cps(Seq::<TokenV>::empty()).len() == 0);
        }
        assert(spec_collapsed_from(ts.push(e), i) == txtpart + (seq![spec_collapsed_emoji(e)]
            + Seq::<CollapsedTokenV>::empty()));
        assert(txtpart + (seq![spec_collapsed_emoji(e)] + Seq::<CollapsedTokenV>::empty())
            =~= txtpart.push(spec_collapsed_emoji(e)));
        assert(spec_collapsed_from(ts, i) == txtpart);
    }
}

proof fn lemma_cm_find_push_none(
    specs: SpecsV,
    segs: Seq<CollapsedTokenV>,
    x: CollapsedTokenV,
    i: int,
    offset: int,
)
    requires
        0 <= i <= segs.len(),
        x is Emoji,
        spec_cm_find(specs, segs, i, offset) is None,
    ensures
        spec_cm_find(specs, segs.push(x), i, offset) is None,
    decreases segs.len() - i,
{
    if i < segs.len() {
        assert(segs.push(x)[i] == segs[i]);
        let next = if offset + collapsed_input_size(segs[i]) > usize::MAX {
            usize::MAX as int
        } else {
            offset + collapsed_input_size(segs[i])
        };
        lemma_cm_find_push_none(specs, segs, x, i + 1, next);
    } else {
        assert(segs.push(x)[i] == x);
        let next = if offset + collapsed_input_size(segs.push(x)[i]) > usize::MAX {
            usize::MAX as int
        } else {
            offset + collapsed_input_size(segs.push(x)[i])
        };
        assert(spec_cm_find(specs, segs.push(x), i + 1, next) is None);
    }
}

/// Whole-script confusable rejection depends on the unique text code
/// points only: appending an emoji to a label that already fails with two
/// confused groups still fails with the same two groups, as long as the
/// appended emoji's bare form brings no fenced code point and no
/// underscore.
pub proof fn law_confused_groups_ignore_emoji(specs: SpecsV, ts: Seq<TokenV>, e: TokenV)
    requires
        spec_validate_label(specs, ts) matches Err(err) && err matches ProcessErrorV::Disallowed(
            d,
        ) && d is ConfusedGroups,
        e is Emoji,
        forall|k: int| 0 <= k < token_cps(e).len() ==> #[trigger] token_cps(e)[k]
            != CP_UNDERSCORE,
        forall|k: int|
            0 <= k < token_cps(e).len() ==> !specs.fenced.contains(#[trigger] token_cps(e)[k]),
    ensures
        spec_validate_label(specs, ts.push(e)) == spec_validate_label(specs, ts),
{
    let ts2 = ts.push(e);
    let s = spec_tokens_cps(ts);
    let t = token_cps(e);
    let s2 = spec_tokens_cps(ts2);
    assert(s2 == s + t) by {
        assert(ts2.drop_last() =~= ts);
    }
    assert(spec_text_cps(ts2) == spec_text_cps(ts)) by {
        assert(ts2.drop_last() =~= ts);
        assert(spec_text_cps(ts) + Seq::<u32>::empty() =~= spec_text_cps(ts));
    }
    // the label fails at the whole-script check, so every earlier rule
    // passed; each of them still passes with the emoji appended
    assert(spec_has_non_ignored(ts2)) by {
        let j = choose|j: int| 0 <= j < ts.len() && !((#[trigger] ts[j]) is Ignored);
        assert(ts2[j] == ts[j]);
    }
    lemma_next_illegal_push_none(ts, e, 0);
    assert(!spec_all_emoji(ts2)) by {
        assert_by_contradiction!(!spec_all_emoji(ts2), {
            assert forall|j: int| 0 <= j < ts.len() implies (#[trigger] ts[j]) is Emoji by {
                assert(ts2[j] == ts[j]);
            }
        });
    }
    // the label reached the group checks, so it is not all ASCII and its
    // expanded code points hold a non-ASCII one
    assert(!spec_all_ascii(s));
    let w = choose|w: int| 0 <= w < s.len() && !((#[trigger] s[w]) <= 0x7F);
    assert(s2[w] == s[w]);
    assert(!spec_all_ascii(s2));
    assert(s.len() > 0);
    // underscores: the leading run is unchanged and no new underscore
    // appears
    lemma_end_underscores_char(s, 0);
    let lead = spec_end_underscores(s, 0);
    assert(lead < s.len()) by {
        if lead == s.len() {
            assert(s[w] == CP_UNDERSCORE);
        }
    }
    assert(spec_end_underscores(s2, 0) == lead) by {
        assert(forall|m: int| 0 <= m < lead ==> #[trigger] s2[m] == s[m]);
        assert(s2[lead] == s[lead]);
        lemma_end_underscores_val(s2, 0, lead);
    }
    lemma_next_underscore_none_char(s, lead);
    assert(spec_next_underscore(s2, lead) is None) by {
        assert forall|m: int| lead <= m < s2.len() implies #[trigger] s2[m] != CP_UNDERSCORE by {
            if m < s.len() {
                assert(s2[m] == s[m]);
            } else {
                assert(s2[m] == t[m - s.len()]);
            }
        }
        lemma_next_underscore_none(s2, lead);
    }
    // fenced: the first code point is unchanged, the last brings no fenced
    // code point, and no fenced pair appears
    assert(s2[0] == s[0]);
    assert(s2.len() > 0);
    assert(!specs.fenced.contains(s2[s2.len() - 1])) by {
        if t.len() > 0 {
            assert(s2[s2.len() - 1] == t[t.len() - 1]);
        } else {
            assert(s2[s2.len() - 1] == s[s.len() - 1]);
        }
    }
    lemma_next_fenced_pair_none_char(specs, s, 0);
    assert(spec_next_fenced_pair(specs, s2, 0) is None) by {
        assert forall|m: int|
            0 <= m < s2.len() - 1 implies !(specs.fenced.contains(#[trigger] s2[m])
            && specs.fenced.contains(s2[m + 1])) by {
            if m + 1 < s.len() {
                assert(s2[m] == s[m]);
                assert(s2[m + 1] == s[m + 1]);
            } else if m + 1 == s.len() {
                assert(s2[m + 1] == t[0]);
            } else {
                assert(s2[m] == t[m - s.len()]);
            }
        }
        lemma_next_fenced_pair_none(specs, s2, 0);
    }
    // combining marks: appending an emoji appends one emoji segment, which
    // the scan passes over
    lemma_collapsed_push_emoji(ts, e, 0);
    lemma_cm_find_push_none(specs, spec_collapsed_from(ts, 0), spec_collapsed_emoji(e), 0, 0);
}

} // verus!
