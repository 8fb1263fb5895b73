//! The tokenizer: walks the input left-to-right, matching emoji sequences
//! and classifying single code points, then applies selective NFC and
//! collapses adjacent valid runs.

use vstd::prelude::*;

use crate::code_points::{
    lemma_best_emoji_at, spec_best_emoji_at, spec_cps_is_emoji, spec_fe0f_match_from,
    spec_pretty_for_no_fe0f, CodePointsSpecs,
};
use crate::constants::{CP_FE0F, CP_STOP};
use crate::tokens::{
    copy_cps, token_cps, token_is_text, CollapsedEnsNameToken, CollapsedTokenV, EnsNameToken,
    TokenDisallowed, TokenEmoji, TokenIgnored, TokenMapped, TokenNfc, TokenStop, TokenV,
    TokenValid,
};
use crate::utils::{
    chars_of_cps, cps2str, cps_of_chars, filter_fe0f, filter_fe0f_seq, nfc, nfc_of, str2cps,
};

verus! {

/// The views of a token list.
pub open spec fn views_of(ts: Seq<EnsNameToken>) -> Seq<TokenV> {
    ts.map_values(|t: EnsNameToken| t@)
}

/// How one code point is classified when no emoji matches at its position.
pub open spec fn spec_classify_cp(specs: crate::code_points::SpecsV, cp: u32) -> TokenV {
    if cp == CP_STOP {
        TokenV::Stop { cp }
    } else if specs.valid.contains(cp) {
        TokenV::Valid { cps: seq![cp] }
    } else if specs.ignored.contains(cp) {
        TokenV::Ignored { cp }
    } else if specs.mapped.contains_key(cp) {
        TokenV::Mapped { cp, cps: specs.mapped[cp] }
    } else {
        TokenV::Disallowed { cp }
    }
}

/// The emoji token built for a matched slice of the input.
pub open spec fn spec_emoji_token(specs: crate::code_points::SpecsV, s: Seq<char>) -> TokenV {
    let cps = cps_of_chars(s);
    let bare = filter_fe0f_seq(cps);
    TokenV::Emoji {
        input: s,
        cps_input: cps,
        cps_no_fe0f: bare,
        emoji: match spec_pretty_for_no_fe0f(specs.emojis, bare, 0) {
            Some(j) => specs.emojis[j],
            None => Seq::empty(),
        },
    }
}

/// The token sequence produced by the first pass from position `i` on:
/// the best emoji match if one starts here, else one classified code point.
pub open spec fn spec_raw_tokens_from(
    specs: crate::code_points::SpecsV,
    s: Seq<char>,
    i: int,
) -> Seq<TokenV>
    decreases s.len() - i,
{
    if i < 0 || i >= s.len() {
        Seq::empty()
    } else {
        match spec_best_emoji_at(specs.emojis, cps_of_chars(s), i) {
            Some(je) => {
                let end = if i < je.1 <= s.len() {
                    je.1
                } else {
                    i + 1
                };
                seq![spec_emoji_token(specs, s.subrange(i, end))] + spec_raw_tokens_from(
                    specs,
                    s,
                    end,
                )
            },
            None => seq![spec_classify_cp(specs, s[i] as u32)] + spec_raw_tokens_from(
                specs,
                s,
                i + 1,
            ),
        }
    }
}

/// A valid or mapped token: the text the NFC pass groups into runs.
pub open spec fn is_vm(t: TokenV) -> bool {
    t is Valid || t is Mapped
}

/// A token that may stand inside a text run: valid, mapped or ignored.
pub open spec fn is_vmi(t: TokenV) -> bool {
    is_vm(t) || t is Ignored
}

/// The end of the contiguous run of valid/mapped/ignored tokens from `i`.
pub open spec fn spec_vmi_end(ts: Seq<TokenV>, i: int) -> int
    decreases ts.len() - i,
{
    if i < 0 || i >= ts.len() {
        i
    } else if is_vmi(ts[i]) {
        spec_vmi_end(ts, i + 1)
    } else {
        i
    }
}

/// Trims trailing ignored tokens: the largest `k <= e` with a valid or
/// mapped token at `k - 1`, not going below `i`.
pub open spec fn spec_trim_vm(ts: Seq<TokenV>, i: int, e: int) -> int
    decreases e - i,
{
    if e <= i {
        i
    } else if 0 <= e - 1 < ts.len() && is_vm(ts[e - 1]) {
        e
    } else {
        spec_trim_vm(ts, i, e - 1)
    }
}

/// The concatenated code points of the valid and mapped tokens of a run.
pub open spec fn spec_vm_cps(run: Seq<TokenV>) -> Seq<u32>
    decreases run.len(),
{
    if run.len() == 0 {
        Seq::empty()
    } else {
        spec_vm_cps(run.drop_last()) + (if is_vm(run.last()) {
            token_cps(run.last())
        } else {
            Seq::empty()
        })
    }
}

/// Some code point of the sequence is in the NFC-check set.
pub open spec fn spec_cps_have_check(specs: crate::code_points::SpecsV, cps: Seq<u32>) -> bool {
    exists|i: int| 0 <= i < cps.len() && specs.nfc_check.contains(#[trigger] cps[i])
}

/// The selective-NFC pass from position `i` on. A maximal run of valid and
/// mapped tokens (ignored tokens interleaved) whose code points touch the
/// NFC-check set is normalized; if NFC changes it, the whole run becomes a
/// single NFC token and its interleaved ignored tokens are dropped.
pub open spec fn spec_nfc_transform_from(
    specs: crate::code_points::SpecsV,
    ts: Seq<TokenV>,
    i: int,
) -> Seq<TokenV>
    decreases ts.len() - i,
{
    if i < 0 || i >= ts.len() {
        Seq::empty()
    } else if !is_vm(ts[i]) {
        seq![ts[i]] + spec_nfc_transform_from(specs, ts, i + 1)
    } else {
        let e = spec_trim_vm(ts, i, spec_vmi_end(ts, i));
        let k = if i < e <= ts.len() {
            e
        } else {
            i + 1
        };
        let run = ts.subrange(i, k);
        let cps0 = spec_vm_cps(run);
        if spec_cps_have_check(specs, cps0) {
            let chars0 = chars_of_cps(cps0);
            let out_chars = nfc_of(chars0);
            if out_chars == chars0 {
                run + spec_nfc_transform_from(specs, ts, k)
            } else {
                seq![TokenV::Nfc { input: cps0, cps: cps_of_chars(out_chars) }]
                    + spec_nfc_transform_from(specs, ts, k)
            }
        } else {
            run + spec_nfc_transform_from(specs, ts, k)
        }
    }
}

/// The end of the contiguous run of valid tokens from `i`.
pub open spec fn spec_valid_end(ts: Seq<TokenV>, i: int) -> int
    decreases ts.len() - i,
{
    if i < 0 || i >= ts.len() {
        i
    } else if ts[i] is Valid {
        spec_valid_end(ts, i + 1)
    } else {
        i
    }
}

/// The collapse pass from position `i` on: adjacent valid tokens become one
/// valid token carrying their concatenated code points.
pub open spec fn spec_collapse_from(ts: Seq<TokenV>, i: int) -> Seq<TokenV>
    decreases ts.len() - i,
{
    if i < 0 || i >= ts.len() {
        Seq::empty()
    } else if ts[i] is Valid {
        let e = spec_valid_end(ts, i);
        let k = if i < e <= ts.len() {
            e
        } else {
            i + 1
        };
        seq![TokenV::Valid { cps: spec_vm_cps(ts.subrange(i, k)) }] + spec_collapse_from(ts, k)
    } else {
        seq![ts[i]] + spec_collapse_from(ts, i + 1)
    }
}

/// What the tokenizer produces for an input string.
pub open spec fn spec_tokenize(
    specs: crate::code_points::SpecsV,
    s: Seq<char>,
    apply_nfc: bool,
) -> Seq<TokenV> {
    let raw = spec_raw_tokens_from(specs, s, 0);
    let transformed = if apply_nfc {
        spec_nfc_transform_from(specs, raw, 0)
    } else {
        raw
    };
    spec_collapse_from(transformed, 0)
}

/// Splits off the first element under the FE0F filter.
proof fn lemma_fe0f_skip_first(s: Seq<u32>)
    requires
        s.len() > 0,
    ensures
        filter_fe0f_seq(s) == (if s[0] != CP_FE0F {
            seq![s[0]]
        } else {
            Seq::<u32>::empty()
        }) + filter_fe0f_seq(s.drop_first()),
    decreases s.len(),
{
    reveal_with_fuel(Seq::filter, 3);
    let head: Seq<u32> = if s[0] != CP_FE0F {
        seq![s[0]]
    } else {
        Seq::<u32>::empty()
    };
    if s.len() == 1 {
        assert(s.drop_last() =~= Seq::<u32>::empty());
        assert(s.drop_first() =~= Seq::<u32>::empty());
        assert(filter_fe0f_seq(s) =~= head + filter_fe0f_seq(s.drop_first()));
    } else {
        lemma_fe0f_skip_first(s.drop_last());
        assert(s.drop_last()[0] == s[0]);
        assert(s.drop_last().drop_first() =~= s.drop_first().drop_last());
        if s.last() != CP_FE0F {
            assert(filter_fe0f_seq(s) == filter_fe0f_seq(s.drop_last()).push(s.last()));
            assert(filter_fe0f_seq(s.drop_first()) == filter_fe0f_seq(
                s.drop_first().drop_last(),
            ).push(s.last())) by {
                assert(s.drop_first().last() == s.last());
            }
            assert((head + filter_fe0f_seq(s.drop_first().drop_last())).push(s.last()) =~= head
                + filter_fe0f_seq(s.drop_first().drop_last()).push(s.last()));
        } else {
            assert(filter_fe0f_seq(s) == filter_fe0f_seq(s.drop_last()));
            assert(filter_fe0f_seq(s.drop_first()) == filter_fe0f_seq(
                s.drop_first().drop_last(),
            )) by {
                assert(s.drop_first().last() == s.last());
            }
        }
    }
}

/// A successful optional-FE0F match consumes exactly the pretty form with
/// some of its U+FE0F code points left out: both have the same bare form.
pub(crate) proof fn lemma_fe0f_match_bare(pretty: Seq<u32>, input: Seq<u32>, pi: int, ii: int)
    requires
        spec_fe0f_match_from(pretty, input, pi, ii) is Some,
    ensures
        ({
            let end = spec_fe0f_match_from(pretty, input, pi, ii)->Some_0;
            filter_fe0f_seq(input.subrange(ii, end)) == filter_fe0f_seq(
                pretty.subrange(pi, pretty.len() as int),
            )
        }),
    decreases pretty.len() - pi,
{
    crate::code_points::lemma_fe0f_match_bounds(pretty, input, pi, ii);
    let end = spec_fe0f_match_from(pretty, input, pi, ii)->Some_0;
    reveal_with_fuel(Seq::filter, 2);
    if pi == pretty.len() {
        assert(input.subrange(ii, end) =~= Seq::<u32>::empty());
        assert(pretty.subrange(pi, pretty.len() as int) =~= Seq::<u32>::empty());
    } else {
        let ptail = pretty.subrange(pi + 1, pretty.len() as int);
        assert(pretty.subrange(pi, pretty.len() as int).drop_first() =~= ptail);
        assert(pretty.subrange(pi, pretty.len() as int)[0] == pretty[pi]);
        lemma_fe0f_skip_first(pretty.subrange(pi, pretty.len() as int));
        if pretty[pi] == CP_FE0F {
            if ii < input.len() && input[ii] == CP_FE0F {
                lemma_fe0f_match_bare(pretty, input, pi + 1, ii + 1);
                crate::code_points::lemma_fe0f_match_bounds(pretty, input, pi + 1, ii + 1);
                assert(input.subrange(ii, end).drop_first() =~= input.subrange(ii + 1, end));
                lemma_fe0f_skip_first(input.subrange(ii, end));
            } else {
                lemma_fe0f_match_bare(pretty, input, pi + 1, ii);
            }
        } else {
            lemma_fe0f_match_bare(pretty, input, pi + 1, ii + 1);
            crate::code_points::lemma_fe0f_match_bounds(pretty, input, pi + 1, ii + 1);
            assert(input.subrange(ii, end).drop_first() =~= input.subrange(ii + 1, end));
            lemma_fe0f_skip_first(input.subrange(ii, end));
        }
    }
}

/// If some emoji has the given bare form, the first-match search finds one.
pub(crate) proof fn lemma_pretty_first_some(emojis: Seq<Seq<u32>>, key: Seq<u32>, i: int, j: int)
    requires
        0 <= i <= j < emojis.len(),
        filter_fe0f_seq(emojis[j]) == key,
    ensures
        spec_pretty_for_no_fe0f(emojis, key, i) is Some,
    decreases j - i,
{
    if filter_fe0f_seq(emojis[i]) != key {
        lemma_pretty_first_some(emojis, key, i + 1, j);
    }
}

/// A copy of a token with the same view.
fn clone_token(t: &EnsNameToken) -> (r: EnsNameToken)
    ensures
        r@ == t@,
{
    match t {
        EnsNameToken::Valid(x) => EnsNameToken::Valid(TokenValid { cps: copy_cps(&x.cps) }),
        EnsNameToken::Mapped(x) => EnsNameToken::Mapped(
            TokenMapped { cps: copy_cps(&x.cps), cp: x.cp },
        ),
        EnsNameToken::Ignored(x) => EnsNameToken::Ignored(TokenIgnored { cp: x.cp }),
        EnsNameToken::Disallowed(x) => EnsNameToken::Disallowed(TokenDisallowed { cp: x.cp }),
        EnsNameToken::Stop(x) => EnsNameToken::Stop(TokenStop { cp: x.cp }),
        EnsNameToken::Nfc(x) => EnsNameToken::Nfc(
            TokenNfc { cps: copy_cps(&x.cps), input: copy_cps(&x.input) },
        ),
        EnsNameToken::Emoji(x) => EnsNameToken::Emoji(
            TokenEmoji {
                input: x.input.clone(),
                emoji: copy_cps(&x.emoji),
                cps_input: copy_cps(&x.cps_input),
                cps_no_fe0f: copy_cps(&x.cps_no_fe0f),
            },
        ),
    }
}

/// Copies a slice of a code-point vector.
pub(crate) fn sub_cps(v: &Vec<u32>, from: usize, to: usize) -> (r: Vec<u32>)
    requires
        from <= to <= v@.len(),
    ensures
        r@ == v@.subrange(from as int, to as int),
{
    let mut r: Vec<u32> = Vec::new();
    let mut i: usize = from;
    while i < to
        invariant
            from <= i <= to <= v@.len(),
            r@ == v@.subrange(from as int, i as int),
        decreases to - i,
    {
        r.push(v[i]);
        proof {
            assert(v@.subrange(from as int, i + 1) =~= v@.subrange(from as int, i as int).push(
                v@[i as int],
            ));
        }
        i += 1;
    }
    r
}

/// One step of the first pass: classifies a single code point.
fn process_one_cp(cp: u32, specs: &CodePointsSpecs) -> (r: EnsNameToken)
    ensures
        r@ == spec_classify_cp(specs@, cp),
{
    if specs.is_stop(cp) {
        EnsNameToken::Stop(TokenStop { cp })
    } else if specs.is_valid(cp) {
        let cps: Vec<u32> = vec![cp];
        proof {
            assert(cps@ =~= seq![cp]);
        }
        EnsNameToken::Valid(TokenValid { cps })
    } else if specs.is_ignored(cp) {
        EnsNameToken::Ignored(TokenIgnored { cp })
    } else {
        match specs.maybe_normalize(cp) {
            Some(normalized) => EnsNameToken::Mapped(
                TokenMapped { cp, cps: copy_cps(normalized) },
            ),
            None => EnsNameToken::Disallowed(TokenDisallowed { cp }),
        }
    }
}

/// The first pass: matches emoji and classifies single code points.
fn tokenize_raw(input: &str, specs: &CodePointsSpecs) -> (r: Vec<EnsNameToken>)
    ensures
        views_of(r@) == spec_raw_tokens_from(specs@, input@, 0),
{
    let cps = str2cps(input);
    let n = cps.len();
    proof {
        assert(cps@.len() == input@.len());
    }
    let mut tokens: Vec<EnsNameToken> = Vec::new();
    let mut i: usize = 0;
    proof {
        assert(views_of(tokens@) + spec_raw_tokens_from(specs@, input@, 0)
            =~= spec_raw_tokens_from(specs@, input@, 0));
    }
    while i < n
        invariant
            i <= n,
            n == input@.len(),
            cps@ == cps_of_chars(input@),
            n == cps@.len(),
            spec_raw_tokens_from(specs@, input@, 0) == views_of(tokens@)
                + spec_raw_tokens_from(specs@, input@, i as int),
        decreases n - i,
    {
        let ghost pre = views_of(tokens@);
        match specs.best_emoji_at(&cps, i) {
            Some((_j, end)) => {
                proof {
                    lemma_best_emoji_at(specs@.emojis, cps@, i as int);
                }
                let sub = input.substring_char(i, end);
                let input_str = sub.to_owned();
                let cps_input = sub_cps(&cps, i, end);
                proof {
                    assert(cps_of_chars(input@.subrange(i as int, end as int)) =~= cps@.subrange(
                        i as int,
                        end as int,
                    ));
                }
                let cps_no_fe0f = filter_fe0f(&cps_input);
                let emoji = match specs.cps_emoji_no_fe0f_to_pretty(&cps_no_fe0f) {
                    Some(e) => e,
                    None => {
                        proof {
                            let je = spec_best_emoji_at(specs@.emojis, cps@, i as int)->Some_0;
                            lemma_fe0f_match_bare(specs@.emojis[je.0], cps@, 0, i as int);
                            assert(specs@.emojis[je.0].subrange(0, specs@.emojis[je.0].len() as int)
                                =~= specs@.emojis[je.0]);
                            lemma_pretty_first_some(
                                specs@.emojis,
                                cps_no_fe0f@,
                                0,
                                je.0,
                            );
                            assert(false);
                        }
                        vstd::pervasive::unreached()
                    },
                };
                let tok = EnsNameToken::Emoji(
                    TokenEmoji { input: input_str, emoji, cps_input, cps_no_fe0f },
                );
                proof {
                    assert(tok@ == spec_emoji_token(specs@, input@.subrange(i as int, end as int)));
                    assert(spec_raw_tokens_from(specs@, input@, i as int) == seq![tok@]
                        + spec_raw_tokens_from(specs@, input@, end as int));
                    tokens@.lemma_push_map_commute(|t: EnsNameToken| t@, tok);
                    assert(views_of(tokens@.push(tok)) =~= pre.push(tok@));
                    assert(pre + (seq![tok@] + spec_raw_tokens_from(specs@, input@, end as int))
                        =~= pre.push(tok@) + spec_raw_tokens_from(specs@, input@, end as int));
                }
                tokens.push(tok);
                i = end;
            },
            None => {
                let tok = process_one_cp(cps[i], specs);
                proof {
                    assert(cps@[i as int] == input@[i as int] as u32);
                    assert(spec_raw_tokens_from(specs@, input@, i as int) == seq![tok@]
                        + spec_raw_tokens_from(specs@, input@, i + 1));
                    tokens@.lemma_push_map_commute(|t: EnsNameToken| t@, tok);
                    assert(views_of(tokens@.push(tok)) =~= pre.push(tok@));
                    assert(pre + (seq![tok@] + spec_raw_tokens_from(specs@, input@, i + 1))
                        =~= pre.push(tok@) + spec_raw_tokens_from(specs@, input@, i + 1));
                }
                tokens.push(tok);
                i += 1;
            },
        }
    }
    proof {
        assert(spec_raw_tokens_from(specs@, input@, n as int) =~= Seq::<TokenV>::empty());
        assert(views_of(tokens@) + Seq::<TokenV>::empty() =~= views_of(tokens@));
    }
    tokens
}

/// True for valid and mapped tokens.
fn is_valid_or_mapped(t: &EnsNameToken) -> (r: bool)
    ensures
        r == is_vm(t@),
{
    matches!(t, EnsNameToken::Valid(_) | EnsNameToken::Mapped(_))
}

/// True for valid, mapped and ignored tokens.
fn is_vmi_token(t: &EnsNameToken) -> (r: bool)
    ensures
        r == is_vmi(t@),
{
    matches!(
        t,
        EnsNameToken::Valid(_) | EnsNameToken::Mapped(_) | EnsNameToken::Ignored(_)
    )
}

/// Appends copies of a range of tokens.
fn push_clones(out: &mut Vec<EnsNameToken>, tokens: &Vec<EnsNameToken>, from: usize, to: usize)
    requires
        from <= to <= tokens@.len(),
    ensures
        views_of(final(out)@) == views_of(old(out)@) + views_of(tokens@).subrange(
            from as int,
            to as int,
        ),
{
    let mut m: usize = from;
    proof {
        assert(views_of(out@) =~= views_of(out@) + views_of(tokens@).subrange(
            from as int,
            from as int,
        ));
    }
    while m < to
        invariant
            from <= m <= to <= tokens@.len(),
            views_of(out@) == views_of(old(out)@) + views_of(tokens@).subrange(
                from as int,
                m as int,
            ),
        decreases to - m,
    {
        let t = clone_token(&tokens[m]);
        proof {
            out@.lemma_push_map_commute(|t: EnsNameToken| t@, t);
            assert(views_of(out@.push(t)) =~= views_of(out@).push(t@));
            assert(views_of(tokens@).subrange(from as int, m + 1) =~= views_of(tokens@).subrange(
                from as int,
                m as int,
            ).push(tokens@[m as int]@));
            assert((views_of(old(out)@) + views_of(tokens@).subrange(from as int, m as int)).push(
                tokens@[m as int]@,
            ) =~= views_of(old(out)@) + views_of(tokens@).subrange(from as int, m as int).push(
                tokens@[m as int]@,
            ));
        }
        out.push(t);
        m += 1;
    }
}

/// Concatenates the code points of the valid and mapped tokens of a range.
fn gather_vm_cps(tokens: &Vec<EnsNameToken>, from: usize, to: usize) -> (r: Vec<u32>)
    requires
        from <= to <= tokens@.len(),
    ensures
        r@ == spec_vm_cps(views_of(tokens@).subrange(from as int, to as int)),
{
    let mut r: Vec<u32> = Vec::new();
    let mut m: usize = from;
    proof {
        assert(views_of(tokens@).subrange(from as int, from as int) =~= Seq::<TokenV>::empty());
    }
    while m < to
        invariant
            from <= m <= to <= tokens@.len(),
            r@ == spec_vm_cps(views_of(tokens@).subrange(from as int, m as int)),
        decreases to - m,
    {
        proof {
            assert(views_of(tokens@).subrange(from as int, m + 1).drop_last() =~= views_of(
                tokens@,
            ).subrange(from as int, m as int));
            assert(views_of(tokens@).subrange(from as int, m + 1).last() == tokens@[m as int]@);
        }
        let t = &tokens[m];
        if is_valid_or_mapped(t) {
            let mut c = t.cps();
            r.append(&mut c);
        } else {
            proof {
                assert(r@ + Seq::<u32>::empty() =~= r@);
            }
        }
        m += 1;
    }
    r
}

/// The selective-NFC pass over a raw token list.
pub fn perform_nfc_transform(tokens: &Vec<EnsNameToken>, specs: &CodePointsSpecs) -> (r: Vec<
    EnsNameToken,
>)
    ensures
        views_of(r@) == spec_nfc_transform_from(specs@, views_of(tokens@), 0),
{
    let ghost tv = views_of(tokens@);
    let n = tokens.len();
    let mut out: Vec<EnsNameToken> = Vec::new();
    let mut i: usize = 0;
    proof {
        assert(views_of(out@) + spec_nfc_transform_from(specs@, tv, 0) =~= spec_nfc_transform_from(
            specs@,
            tv,
            0,
        ));
    }
    while i < n
        invariant
            i <= n,
            n == tokens@.len(),
            tv == views_of(tokens@),
            spec_nfc_transform_from(specs@, tv, 0) == views_of(out@) + spec_nfc_transform_from(
                specs@,
                tv,
                i as int,
            ),
        decreases n - i,
    {
        let ghost pre = views_of(out@);
        let t = &tokens[i];
        proof {
            assert(t@ == tv[i as int]);
        }
        if !is_valid_or_mapped(t) {
            let c = clone_token(t);
            proof {
                assert(spec_nfc_transform_from(specs@, tv, i as int) == seq![tv[i as int]]
                    + spec_nfc_transform_from(specs@, tv, i + 1));
                out@.lemma_push_map_commute(|t: EnsNameToken| t@, c);
                assert(views_of(out@.push(c)) =~= pre.push(c@));
                assert(pre + (seq![tv[i as int]] + spec_nfc_transform_from(specs@, tv, i + 1))
                    =~= pre.push(tv[i as int]) + spec_nfc_transform_from(specs@, tv, i + 1));
            }
            out.push(c);
            i += 1;
        } else {
            // end of the contiguous valid/mapped/ignored run
            let mut j: usize = i;
            while j < n && is_vmi_token(&tokens[j])
                invariant
                    i <= j <= n,
                    n == tokens@.len(),
                    tv == views_of(tokens@),
                    spec_vmi_end(tv, i as int) == spec_vmi_end(tv, j as int),
                decreases n - j,
            {
                j += 1;
            }
            proof {
                assert(spec_vmi_end(tv, j as int) == j);
            }
            // trim trailing ignored tokens
            let mut e: usize = j;
            while e > i && !is_valid_or_mapped(&tokens[e - 1])
                invariant
                    i <= e <= j <= n,
                    n == tokens@.len(),
                    tv == views_of(tokens@),
                    spec_trim_vm(tv, i as int, j as int) == spec_trim_vm(tv, i as int, e as int),
                decreases e,
            {
                e -= 1;
            }
            proof {
                assert(spec_trim_vm(tv, i as int, e as int) == e);
            }
            let k: usize = if i < e {
                e
            } else {
                i + 1
            };
            let ghost run = tv.subrange(i as int, k as int);
            let cps0 = gather_vm_cps(tokens, i, k);
            proof {
                assert(spec_nfc_transform_from(specs@, tv, i as int) == (if spec_cps_have_check(
                    specs@,
                    cps0@,
                ) {
                    let chars0 = chars_of_cps(cps0@);
                    let out_chars = nfc_of(chars0);
                    if out_chars == chars0 {
                        run + spec_nfc_transform_from(specs@, tv, k as int)
                    } else {
                        seq![TokenV::Nfc { input: cps0@, cps: cps_of_chars(out_chars) }]
                            + spec_nfc_transform_from(specs@, tv, k as int)
                    }
                } else {
                    run + spec_nfc_transform_from(specs@, tv, k as int)
                }));
            }
            if specs.cps_requires_check(&cps0) {
                let str0 = cps2str(&cps0);
                let st = nfc(str0.as_str());
                if str0 == st {
                    proof {
                        assert(nfc_of(chars_of_cps(cps0@)) == chars_of_cps(cps0@));
                    }
                    push_clones(&mut out, tokens, i, k);
                    proof {
                        assert(pre + (run + spec_nfc_transform_from(specs@, tv, k as int)) =~= (pre
                            + run) + spec_nfc_transform_from(specs@, tv, k as int));
                    }
                } else {
                    proof {
                        assert(nfc_of(chars_of_cps(cps0@)) != chars_of_cps(cps0@));
                    }
                    let ncps = str2cps(st.as_str());
                    let nt = EnsNameToken::Nfc(TokenNfc { cps: ncps, input: cps0 });
                    proof {
                        out@.lemma_push_map_commute(|t: EnsNameToken| t@, nt);
                        assert(views_of(out@.push(nt)) =~= pre.push(nt@));
                        assert(pre + (seq![nt@] + spec_nfc_transform_from(specs@, tv, k as int))
                            =~= pre.push(nt@) + spec_nfc_transform_from(specs@, tv, k as int));
                    }
                    out.push(nt);
                }
            } else {
                push_clones(&mut out, tokens, i, k);
                proof {
                    assert(pre + (run + spec_nfc_transform_from(specs@, tv, k as int)) =~= (pre
                        + run) + spec_nfc_transform_from(specs@, tv, k as int));
                }
            }
            i = k;
        }
    }
    proof {
        assert(spec_nfc_transform_from(specs@, tv, n as int) =~= Seq::<TokenV>::empty());
        assert(views_of(out@) + Seq::<TokenV>::empty() =~= views_of(out@));
    }
    out
}

/// The collapse pass: adjacent valid tokens merge into one.
fn collapse_valid_tokens(tokens: &Vec<EnsNameToken>) -> (r: Vec<EnsNameToken>)
    ensures
        views_of(r@) == spec_collapse_from(views_of(tokens@), 0),
{
    let ghost tv = views_of(tokens@);
    let n = tokens.len();
    let mut out: Vec<EnsNameToken> = Vec::new();
    let mut i: usize = 0;
    proof {
        assert(views_of(out@) + spec_collapse_from(tv, 0) =~= spec_collapse_from(tv, 0));
    }
    while i < n
        invariant
            i <= n,
            n == tokens@.len(),
            tv == views_of(tokens@),
            spec_collapse_from(tv, 0) == views_of(out@) + spec_collapse_from(tv, i as int),
        decreases n - i,
    {
        let ghost pre = views_of(out@);
        let t = &tokens[i];
        proof {
            assert(t@ == tv[i as int]);
        }
        let is_valid_tok = matches!(t, EnsNameToken::Valid(_));
        if is_valid_tok {
            let mut e: usize = i;
            while e < n && matches!(&tokens[e], EnsNameToken::Valid(_))
                invariant
                    i <= e <= n,
                    n == tokens@.len(),
                    tv == views_of(tokens@),
                    spec_valid_end(tv, i as int) == spec_valid_end(tv, e as int),
                decreases n - e,
            {
                e += 1;
            }
            proof {
                assert(spec_valid_end(tv, e as int) == e);
            }
            let k: usize = if i < e {
                e
            } else {
                i + 1
            };
            let cps = gather_vm_cps(tokens, i, k);
            let nt = EnsNameToken::Valid(TokenValid { cps });
            proof {
                assert(spec_collapse_from(tv, i as int) == seq![nt@] + spec_collapse_from(
                    tv,
                    k as int,
                ));
                out@.lemma_push_map_commute(|t: EnsNameToken| t@, nt);
                assert(views_of(out@.push(nt)) =~= pre.push(nt@));
                assert(pre + (seq![nt@] + spec_collapse_from(tv, k as int)) =~= pre.push(nt@)
                    + spec_collapse_from(tv, k as int));
            }
            out.push(nt);
            i = k;
        } else {
            let c = clone_token(t);
            proof {
                assert(spec_collapse_from(tv, i as int) == seq![tv[i as int]] + spec_collapse_from(
                    tv,
                    i + 1,
                ));
                out@.lemma_push_map_commute(|t: EnsNameToken| t@, c);
                assert(views_of(out@.push(c)) =~= pre.push(c@));
                assert(pre + (seq![tv[i as int]] + spec_collapse_from(tv, i + 1)) =~= pre.push(
                    tv[i as int],
                ) + spec_collapse_from(tv, i + 1));
            }
            out.push(c);
            i += 1;
        }
    }
    proof {
        assert(spec_collapse_from(tv, n as int) =~= Seq::<TokenV>::empty());
        assert(views_of(out@) + Seq::<TokenV>::empty() =~= views_of(out@));
    }
    out
}

/// Tokenizes an input string: emoji matching and classification, selective
/// NFC when requested, then collapsing of adjacent valid tokens.
pub fn tokenize_input(input: &str, specs: &CodePointsSpecs, apply_nfc: bool) -> (r: Vec<
    EnsNameToken,
>)
    ensures
        views_of(r@) == spec_tokenize(specs@, input@, apply_nfc),
{
    let raw = tokenize_raw(input, specs);
    let transformed = if apply_nfc {
        perform_nfc_transform(&raw, specs)
    } else {
        raw
    };
    collapse_valid_tokens(&transformed)
}

/// Represents a full ENS name: the original input and its token sequence.
#[derive(Debug, Clone, PartialEq, Eq)]
pub struct TokenizedName {
    pub input: String,
    pub tokens: Vec<EnsNameToken>,
}

/// A tokenized ENS label: the tokens between two label separators.
#[derive(Debug, Clone, PartialEq, Eq)]
pub struct TokenizedLabel {
    pub tokens: Vec<EnsNameToken>,
}

/// The views of a label list.
pub open spec fn label_views(ls: Seq<TokenizedLabel>) -> Seq<Seq<TokenV>> {
    ls.map_values(|l: TokenizedLabel| views_of(l.tokens@))
}

/// The first label separator at or after `i`, or the length if none.
pub open spec fn spec_next_stop(ts: Seq<TokenV>, i: int) -> int
    decreases ts.len() - i,
{
    if i < 0 || i >= ts.len() {
        ts.len() as int
    } else if ts[i] is Stop {
        i
    } else {
        spec_next_stop(ts, i + 1)
    }
}

/// The labels of a token sequence from position `i` on: the pieces between
/// label separators. An empty sequence yields one empty label.
pub open spec fn spec_labels_from(ts: Seq<TokenV>, i: int) -> Seq<Seq<TokenV>>
    decreases ts.len() - i,
{
    if i < 0 || i > ts.len() {
        Seq::empty()
    } else {
        let next = spec_next_stop(ts, i);
        if i <= next < ts.len() {
            seq![ts.subrange(i, next)] + spec_labels_from(ts, next + 1)
        } else {
            seq![ts.subrange(i, ts.len() as int)]
        }
    }
}

/// The label separator search stays within bounds.
pub proof fn lemma_next_stop_bounds(ts: Seq<TokenV>, i: int)
    requires
        0 <= i <= ts.len(),
    ensures
        i <= spec_next_stop(ts, i) <= ts.len(),
    decreases ts.len() - i,
{
    if i < ts.len() && !(ts[i] is Stop) {
        lemma_next_stop_bounds(ts, i + 1);
    }
}

/// Copies a range of a token list.
pub(crate) fn collect_range(tokens: &Vec<EnsNameToken>, from: usize, to: usize) -> (r: Vec<
    EnsNameToken,
>)
    requires
        from <= to <= tokens@.len(),
    ensures
        views_of(r@) == views_of(tokens@).subrange(from as int, to as int),
{
    let mut r: Vec<EnsNameToken> = Vec::new();
    proof {
        assert(views_of(r@) =~= Seq::<TokenV>::empty());
    }
    push_clones(&mut r, tokens, from, to);
    proof {
        assert(Seq::<TokenV>::empty() + views_of(tokens@).subrange(from as int, to as int)
            =~= views_of(tokens@).subrange(from as int, to as int));
    }
    r
}

impl TokenizedName {
    /// The empty name: no input, no tokens.
    pub fn empty() -> (r: Self)
        ensures
            r.input@ == Seq::<char>::empty(),
            r.tokens@.len() == 0,
    {
        Self { input: String::new(), tokens: Vec::new() }
    }

    /// Tokenizes an input string, applying selective NFC if requested.
    pub fn from_input(input: &str, specs: &CodePointsSpecs, apply_nfc: bool) -> (r: Self)
        ensures
            r.input@ == input@,
            views_of(r.tokens@) == spec_tokenize(specs@, input@, apply_nfc),
    {
        if input.is_empty() {
            let r = Self { input: input.to_owned(), tokens: Vec::new() };
            proof {
                assert(views_of(r.tokens@) =~= Seq::<TokenV>::empty());
                assert(spec_raw_tokens_from(specs@, input@, 0) =~= Seq::<TokenV>::empty());
                assert(spec_nfc_transform_from(specs@, Seq::<TokenV>::empty(), 0)
                    =~= Seq::<TokenV>::empty());
                assert(spec_collapse_from(Seq::<TokenV>::empty(), 0) =~= Seq::<TokenV>::empty());
            }
            r
        } else {
            let tokens = tokenize_input(input, specs, apply_nfc);
            Self { input: input.to_owned(), tokens }
        }
    }

    /// True when the name has no token.
    pub fn is_empty(&self) -> (r: bool)
        ensures
            r == (self.tokens@.len() == 0),
    {
        self.tokens.len() == 0
    }

    /// The tokens of the name, in order.
    pub fn iter_tokens(&self) -> (r: &Vec<EnsNameToken>)
        ensures
            r == &self.tokens,
    {
        &self.tokens
    }

    /// The labels of the name: the token stream split at every separator.
    pub fn iter_labels(&self) -> (r: Vec<TokenizedLabel>)
        ensures
            label_views(r@) == spec_labels_from(views_of(self.tokens@), 0),
    {
        self.labels()
    }

    /// Same as [`Self::iter_labels`].
    pub fn labels(&self) -> (r: Vec<TokenizedLabel>)
        ensures
            label_views(r@) == spec_labels_from(views_of(self.tokens@), 0),
    {
        let ghost tv = views_of(self.tokens@);
        let n = self.tokens.len();
        let mut out: Vec<TokenizedLabel> = Vec::new();
        let mut i: usize = 0;
        let mut done: bool = false;
        proof {
            assert(label_views(out@) + spec_labels_from(tv, 0) =~= spec_labels_from(tv, 0));
        }
        while !done
            invariant
                i <= n,
                n == self.tokens@.len(),
                tv == views_of(self.tokens@),
                !done ==> spec_labels_from(tv, 0) == label_views(out@) + spec_labels_from(
                    tv,
                    i as int,
                ),
                done ==> spec_labels_from(tv, 0) == label_views(out@),
            decreases n - i + (if done {
                0int
            } else {
                1int
            }),
        {
            let ghost pre = label_views(out@);
            let mut next: usize = i;
            while next < n && !(&self.tokens[next]).is_stop()
                invariant
                    i <= next <= n,
                    n == self.tokens@.len(),
                    tv == views_of(self.tokens@),
                    spec_next_stop(tv, i as int) == spec_next_stop(tv, next as int),
                decreases n - next,
            {
                proof {
                    assert(tv[next as int] == self.tokens@[next as int]@);
                }
                next += 1;
            }
            proof {
                if next < n {
                    assert(tv[next as int] == self.tokens@[next as int]@);
                }
                assert(spec_next_stop(tv, next as int) == next);
            }
            let piece = TokenizedLabel { tokens: collect_range(&self.tokens, i, next) };
            proof {
                out@.lemma_push_map_commute(
                    |l: TokenizedLabel| views_of(l.tokens@),
                    piece,
                );
                assert(label_views(out@.push(piece)) =~= pre.push(views_of(piece.tokens@)));
                if next >= n {
                    assert(spec_labels_from(tv, i as int) =~= seq![tv.subrange(i as int, n as int)]);
                    assert(pre + seq![views_of(piece.tokens@)] =~= pre.push(
                        views_of(piece.tokens@),
                    ));
                } else {
                    assert(spec_labels_from(tv, i as int) == seq![tv.subrange(i as int, next as int)]
                        + spec_labels_from(tv, next + 1));
                    assert(pre + (seq![views_of(piece.tokens@)] + spec_labels_from(tv, next + 1))
                        =~= pre.push(views_of(piece.tokens@)) + spec_labels_from(tv, next + 1));
                }
            }
            out.push(piece);
            if next < n {
                i = next + 1;
            } else {
                done = true;
            }
        }
        out
    }
}

/// The concatenated code points of every token of a label, each token
/// contributing [`token_cps`].
pub open spec fn spec_tokens_cps(ts: Seq<TokenV>) -> Seq<u32>
    decreases ts.len(),
{
    if ts.len() == 0 {
        Seq::empty()
    } else {
        spec_tokens_cps(ts.drop_last()) + token_cps(ts.last())
    }
}

/// The concatenated code points of the text tokens (valid, mapped, NFC) of
/// a label.
pub open spec fn spec_text_cps(ts: Seq<TokenV>) -> Seq<u32>
    decreases ts.len(),
{
    if ts.len() == 0 {
        Seq::empty()
    } else {
        spec_text_cps(ts.drop_last()) + (if token_is_text(ts.last()) {
            token_cps(ts.last())
        } else {
            Seq::empty()
        })
    }
}

/// The first emoji token at or after `i`, or the length if none.
pub open spec fn spec_next_emoji(ts: Seq<TokenV>, i: int) -> int
    decreases ts.len() - i,
{
    if i < 0 || i >= ts.len() {
        ts.len() as int
    } else if ts[i] is Emoji {
        i
    } else {
        spec_next_emoji(ts, i + 1)
    }
}

/// The collapsed segment an emoji token yields.
pub open spec fn spec_collapsed_emoji(t: TokenV) -> CollapsedTokenV {
    match t {
        TokenV::Emoji { input, emoji, cps_input, cps_no_fe0f } => CollapsedTokenV::Emoji {
            input,
            emoji,
            cps_input,
            cps_no_fe0f,
        },
        _ => CollapsedTokenV::Text { cps: Seq::empty() },
    }
}

/// The collapsed text-or-emoji segments of a label from position `i` on:
/// the text tokens between emoji tokens are merged (ignored, disallowed and
/// stop tokens contribute nothing), and empty text segments are dropped.
pub open spec fn spec_collapsed_from(ts: Seq<TokenV>, i: int) -> Seq<CollapsedTokenV>
    decreases ts.len() - i,
{
    if i < 0 || i > ts.len() {
        Seq::empty()
    } else {
        let e = spec_next_emoji(ts, i);
        if i <= e < ts.len() {
            let txt = spec_text_cps(ts.subrange(i, e));
            (if txt.len() > 0 {
                seq![CollapsedTokenV::Text { cps: txt }]
            } else {
                Seq::empty()
            }) + (seq![spec_collapsed_emoji(ts[e])] + spec_collapsed_from(ts, e + 1))
        } else {
            let txt = spec_text_cps(ts.subrange(i, ts.len() as int));
            if txt.len() > 0 {
                seq![CollapsedTokenV::Text { cps: txt }]
            } else {
                Seq::empty()
            }
        }
    }
}

/// The views of a collapsed token list.
pub open spec fn collapsed_views(ts: Seq<CollapsedEnsNameToken>) -> Seq<CollapsedTokenV> {
    ts.map_values(|t: CollapsedEnsNameToken| t@)
}

/// True for text tokens (valid, mapped, NFC).
fn is_text_token(t: &EnsNameToken) -> (r: bool)
    ensures
        r == token_is_text(t@),
{
    matches!(
        t,
        EnsNameToken::Valid(_) | EnsNameToken::Mapped(_) | EnsNameToken::Nfc(_)
    )
}

/// Concatenates the code points of the text tokens of a range.
fn gather_text_cps(tokens: &Vec<EnsNameToken>, from: usize, to: usize) -> (r: Vec<u32>)
    requires
        from <= to <= tokens@.len(),
    ensures
        r@ == spec_text_cps(views_of(tokens@).subrange(from as int, to as int)),
{
    let mut r: Vec<u32> = Vec::new();
    let mut m: usize = from;
    proof {
        assert(views_of(tokens@).subrange(from as int, from as int) =~= Seq::<TokenV>::empty());
    }
    while m < to
        invariant
            from <= m <= to <= tokens@.len(),
            r@ == spec_text_cps(views_of(tokens@).subrange(from as int, m as int)),
        decreases to - m,
    {
        proof {
            assert(views_of(tokens@).subrange(from as int, m + 1).drop_last() =~= views_of(
                tokens@,
            ).subrange(from as int, m as int));
            assert(views_of(tokens@).subrange(from as int, m + 1).last() == tokens@[m as int]@);
        }
        let t = &tokens[m];
        if is_text_token(t) {
            let mut c = t.cps();
            r.append(&mut c);
        } else {
            proof {
                assert(r@ + Seq::<u32>::empty() =~= r@);
            }
        }
        m += 1;
    }
    r
}

impl TokenizedLabel {
    /// True when every token of the label is an emoji token.
    pub fn is_fully_emoji(&self) -> (r: bool)
        ensures
            r == forall|i: int|
                0 <= i < self.tokens@.len() ==> (#[trigger] self.tokens@[i]@) is Emoji,
    {
        let mut i: usize = 0;
        while i < self.tokens.len()
            invariant
                i <= self.tokens@.len(),
                forall|j: int| 0 <= j < i ==> (#[trigger] self.tokens@[j]@) is Emoji,
            decreases self.tokens@.len() - i,
        {
            if !(&self.tokens[i]).is_emoji() {
                return false;
            }
            i += 1;
        }
        true
    }

    /// True when every code point of every token is ASCII.
    pub fn is_fully_ascii(&self) -> (r: bool)
        ensures
            r == ({
                let cps = spec_tokens_cps(views_of(self.tokens@));
                forall|i: int| 0 <= i < cps.len() ==> (#[trigger] cps[i]) <= 0x7F
            }),
    {
        let cps = self.iter_cps();
        let mut i: usize = 0;
        while i < cps.len()
            invariant
                i <= cps@.len(),
                cps@ == spec_tokens_cps(views_of(self.tokens@)),
                forall|j: int| 0 <= j < i ==> (#[trigger] cps@[j]) <= 0x7F,
            decreases cps@.len() - i,
        {
            if cps[i] > 0x7F {
                return false;
            }
            i += 1;
        }
        true
    }

    /// Every code point of every token of the label, in order.
    pub fn iter_cps(&self) -> (r: Vec<u32>)
        ensures
            r@ == spec_tokens_cps(views_of(self.tokens@)),
    {
        let ghost tv = views_of(self.tokens@);
        let mut r: Vec<u32> = Vec::new();
        let mut m: usize = 0;
        proof {
            assert(tv.subrange(0, 0) =~= Seq::<TokenV>::empty());
        }
        while m < self.tokens.len()
            invariant
                m <= self.tokens@.len(),
                tv == views_of(self.tokens@),
                r@ == spec_tokens_cps(tv.subrange(0, m as int)),
            decreases self.tokens@.len() - m,
        {
            proof {
                assert(tv.subrange(0, m + 1).drop_last() =~= tv.subrange(0, m as int));
                assert(tv.subrange(0, m + 1).last() == self.tokens@[m as int]@);
            }
            let mut c = (&self.tokens[m]).cps();
            r.append(&mut c);
            m += 1;
        }
        proof {
            assert(tv.subrange(0, tv.len() as int) =~= tv);
        }
        r
    }

    /// Collapses the label into text and emoji segments, keeping emoji
    /// separate and merging the text between them.
    pub fn collapse_into_text_or_emoji(&self) -> (r: Vec<CollapsedEnsNameToken>)
        ensures
            collapsed_views(r@) == spec_collapsed_from(views_of(self.tokens@), 0),
    {
        let ghost tv = views_of(self.tokens@);
        let n = self.tokens.len();
        let mut out: Vec<CollapsedEnsNameToken> = Vec::new();
        let mut i: usize = 0;
        let mut done: bool = false;
        proof {
            assert(collapsed_views(out@) + spec_collapsed_from(tv, 0) =~= spec_collapsed_from(
                tv,
                0,
            ));
        }
        while !done
            invariant
                i <= n,
                n == self.tokens@.len(),
                tv == views_of(self.tokens@),
                !done ==> spec_collapsed_from(tv, 0) == collapsed_views(out@)
                    + spec_collapsed_from(tv, i as int),
                done ==> spec_collapsed_from(tv, 0) == collapsed_views(out@),
            decreases n - i + (if done {
                0int
            } else {
                1int
            }),
        {
            let ghost pre = collapsed_views(out@);
            let mut e: usize = i;
            while e < n && !(&self.tokens[e]).is_emoji()
                invariant
                    i <= e <= n,
                    n == self.tokens@.len(),
                    tv == views_of(self.tokens@),
                    spec_next_emoji(tv, i as int) == spec_next_emoji(tv, e as int),
                decreases n - e,
            {
                proof {
                    assert(tv[e as int] == self.tokens@[e as int]@);
                }
                e += 1;
            }
            proof {
                if e < n {
                    assert(tv[e as int] == self.tokens@[e as int]@);
                }
                assert(spec_next_emoji(tv, e as int) == e);
            }
            let txt = gather_text_cps(&self.tokens, i, e);
            let ghost mid = pre;
            if txt.len() > 0 {
                let seg = CollapsedEnsNameToken::Text(TokenValid { cps: txt });
                proof {
                    out@.lemma_push_map_commute(
                        |t: CollapsedEnsNameToken| t@,
                        seg,
                    );
                    assert(collapsed_views(out@.push(seg)) =~= pre.push(seg@));
                }
                out.push(seg);
            } else {
                proof {
                    assert(pre + Seq::<CollapsedTokenV>::empty() =~= pre);
                }
            }
            let ghost mid2 = collapsed_views(out@);
            if e < n {
                let seg = match &self.tokens[e] {
                    EnsNameToken::Emoji(t) => CollapsedEnsNameToken::Emoji(
                        TokenEmoji {
                            input: t.input.clone(),
                            emoji: copy_cps(&t.emoji),
                            cps_input: copy_cps(&t.cps_input),
                            cps_no_fe0f: copy_cps(&t.cps_no_fe0f),
                        },
                    ),
                    _ => vstd::pervasive::unreached(),
                };
                proof {
                    assert(seg@ == spec_collapsed_emoji(tv[e as int]));
                    out@.lemma_push_map_commute(
                        |t: CollapsedEnsNameToken| t@,
                        seg,
                    );
                    assert(collapsed_views(out@.push(seg)) =~= mid2.push(seg@));
                    let txtpart: Seq<CollapsedTokenV> = if spec_text_cps(
                        tv.subrange(i as int, e as int),
                    ).len() > 0 {
                        seq![
                            CollapsedTokenV::Text {
                                cps: spec_text_cps(tv.subrange(i as int, e as int)),
                            },
                        ]
                    } else {
                        Seq::empty()
                    };
                    assert(spec_collapsed_from(tv, i as int) == txtpart + (seq![
                        spec_collapsed_emoji(tv[e as int]),
                    ] + spec_collapsed_from(tv, e + 1)));
                    assert(pre + (txtpart + (seq![spec_collapsed_emoji(tv[e as int])]
                        + spec_collapsed_from(tv, e + 1))) =~= mid2.push(seg@)
                        + spec_collapsed_from(tv, e + 1));
                }
                out.push(seg);
                i = e + 1;
            } else {
                proof {
                    let txtpart: Seq<CollapsedTokenV> = if spec_text_cps(
                        tv.subrange(i as int, n as int),
                    ).len() > 0 {
                        seq![
                            CollapsedTokenV::Text {
                                cps: spec_text_cps(tv.subrange(i as int, n as int)),
                            },
                        ]
                    } else {
                        Seq::empty()
                    };
                    assert(spec_collapsed_from(tv, i as int) == txtpart);
                    assert(pre + txtpart =~= mid2);
                }
                done = true;
            }
        }
        out
    }

    /// The code points of the text tokens of the label, ignored tokens and
    /// emoji contributing nothing.
    pub fn get_cps_of_not_ignored_text(&self) -> (r: Vec<u32>)
        ensures
            r@ == spec_text_cps(views_of(self.tokens@)),
    {
        let r = gather_text_cps(&self.tokens, 0, self.tokens.len());
        proof {
            assert(views_of(self.tokens@).subrange(0, self.tokens@.len() as int) =~= views_of(
                self.tokens@,
            ));
        }
        r
    }
}

} // verus!
