//! The emitter for the display form: emoji keep their pretty variant, and
//! the Greek small xi is capitalized outside Greek labels.

use vstd::prelude::*;

use crate::constants::{CP_XI_CAPITAL, CP_XI_SMALL};
use crate::join::{join_cps, spec_join_cps};
use crate::static_data::GroupNameV;
use crate::tokenize::views_of;
use crate::tokens::{token_cps, EnsNameToken, TokenV};
use crate::utils::chars_of_cps;
use crate::validate::{vlabel_views, LabelType, ValidatedLabel};

verus! {

/// Every Greek small xi replaced by the capital xi.
pub open spec fn spec_replace_xi(cps: Seq<u32>) -> Seq<u32> {
    cps.map_values(
        |cp: u32|
            if cp == CP_XI_SMALL {
                CP_XI_CAPITAL
            } else {
                cp
            },
    )
}

/// What one token contributes to the beautified form: emoji their pretty
/// variant, text tokens their code points (xi capitalized outside Greek),
/// everything else nothing.
pub open spec fn spec_beauty_token_cps(t: TokenV, greek: bool) -> Seq<u32> {
    match t {
        TokenV::Emoji { emoji, .. } => emoji,
        TokenV::Valid { .. } | TokenV::Mapped { .. } | TokenV::Nfc { .. } => if greek {
            token_cps(t)
        } else {
            spec_replace_xi(token_cps(t))
        },
        _ => Seq::empty(),
    }
}

/// The beautified code points of one label.
pub open spec fn spec_label_beauty_cps(ts: Seq<TokenV>, greek: bool) -> Seq<u32>
    decreases ts.len(),
{
    if ts.len() == 0 {
        Seq::empty()
    } else {
        spec_label_beauty_cps(ts.drop_last(), greek) + spec_beauty_token_cps(ts.last(), greek)
    }
}

/// The beautified code points of each validated label, in order.
pub open spec fn beauty_cps_of_pairs(pairs: Seq<(Seq<TokenV>, GroupNameV)>) -> Seq<Seq<u32>>
    decreases pairs.len(),
{
    if pairs.len() == 0 {
        Seq::empty()
    } else {
        beauty_cps_of_pairs(pairs.drop_last()).push(
            spec_label_beauty_cps(pairs.last().0, pairs.last().1 is Greek),
        )
    }
}

/// Replaces every Greek small xi when the label is not Greek.
pub fn cps_replaced_greek(cps: Vec<u32>, label_type: &LabelType) -> (r: Vec<u32>)
    ensures
        r@ == if label_type@ is Greek {
            cps@
        } else {
            spec_replace_xi(cps@)
        },
{
    if label_type.is_greek() {
        return cps;
    }
    let mut r: Vec<u32> = Vec::new();
    let mut i: usize = 0;
    proof {
        assert(r@ =~= spec_replace_xi(cps@.take(0)));
    }
    while i < cps.len()
        invariant
            i <= cps@.len(),
            r@ == spec_replace_xi(cps@.take(i as int)),
        decreases cps@.len() - i,
    {
        let cp = cps[i];
        let out = if cp == CP_XI_SMALL {
            CP_XI_CAPITAL
        } else {
            cp
        };
        r.push(out);
        proof {
            assert(cps@.take(i + 1) =~= cps@.take(i as int).push(cps@[i as int]));
            cps@.take(i as int).lemma_push_map_commute(
                |cp: u32|
                    if cp == CP_XI_SMALL {
                        CP_XI_CAPITAL
                    } else {
                        cp
                    },
                cps@[i as int],
            );
        }
        i += 1;
    }
    proof {
        assert(cps@.take(cps@.len() as int) =~= cps@);
    }
    r
}

/// The beautified code points of one label, computed from its tokens.
fn label_beauty_cps(tokens: &Vec<EnsNameToken>, label_type: &LabelType) -> (r: Vec<u32>)
    ensures
        r@ == spec_label_beauty_cps(views_of(tokens@), label_type@ is Greek),
{
    let ghost tv = views_of(tokens@);
    let ghost greek = label_type@ is Greek;
    let mut r: Vec<u32> = Vec::new();
    let mut i: usize = 0;
    proof {
        assert(tv.subrange(0, 0) =~= Seq::<TokenV>::empty());
        assert(r@ =~= spec_label_beauty_cps(tv.subrange(0, 0), greek));
    }
    while i < tokens.len()
        invariant
            i <= tokens@.len(),
            tv == views_of(tokens@),
            greek == (label_type@ is Greek),
            r@ == spec_label_beauty_cps(tv.subrange(0, i as int), greek),
        decreases tokens@.len() - i,
    {
        proof {
            assert(tv.subrange(0, i + 1).drop_last() =~= tv.subrange(0, i as int));
            assert(tv.subrange(0, i + 1).last() == tokens@[i as int]@);
        }
        let t = &tokens[i];
        match t {
            EnsNameToken::Emoji(e) => {
                let mut c = crate::tokens::copy_cps(&e.emoji);
                r.append(&mut c);
            },
            EnsNameToken::Valid(_) | EnsNameToken::Mapped(_) | EnsNameToken::Nfc(_) => {
                let c = t.cps();
                let mut c = cps_replaced_greek(c, label_type);
                r.append(&mut c);
            },
            _ => {
                proof {
                    assert(r@ + Seq::<u32>::empty() =~= r@);
                }
            },
        }
        i += 1;
    }
    proof {
        assert(tv.subrange(0, tv.len() as int) =~= tv);
    }
    r
}

/// Joins validated labels into the beautified string: pretty emoji, and
/// the Greek small xi capitalized outside Greek labels.
pub fn beautify_labels(labels: &Vec<ValidatedLabel>) -> (r: String)
    ensures
        r@ == chars_of_cps(spec_join_cps(beauty_cps_of_pairs(vlabel_views(labels@)), 0)),
{
    let mut ls: Vec<Vec<u32>> = Vec::new();
    let mut i: usize = 0;
    proof {
        assert(vlabel_views(labels@).take(0) =~= Seq::<(Seq<TokenV>, GroupNameV)>::empty());
        assert(ls.deep_view() =~= beauty_cps_of_pairs(vlabel_views(labels@).take(0)));
    }
    while i < labels.len()
        invariant
            i <= labels@.len(),
            ls.deep_view() == beauty_cps_of_pairs(vlabel_views(labels@).take(i as int)),
        decreases labels@.len() - i,
    {
        proof {
            assert(vlabel_views(labels@).take(i + 1).drop_last() =~= vlabel_views(
                labels@,
            ).take(i as int));
            assert(vlabel_views(labels@).take(i + 1).last() == vlabel_views(labels@)[i as int]);
        }
        let lab = &labels[i];
        let c = label_beauty_cps(&lab.tokens, &lab.label_type);
        let ghost cv = c@;
        let ghost prev = ls.deep_view();
        let ghost prevraw = ls@;
        ls.push(c);
        proof {
            assert(vlabel_views(labels@)[i as int].0 == views_of(labels@[i as int].tokens@));
            assert(vlabel_views(labels@)[i as int].1 == labels@[i as int].label_type@);
            assert(prev.len() == prevraw.len());
            assert forall|j: int| 0 <= j < ls@.len() implies ls.deep_view()[j] == prev.push(
                cv,
            )[j] by {
                if j < prevraw.len() {
                    assert(ls@[j] == prevraw[j]);
                } else {
                    assert(ls@[j]@ == cv);
                }
            }
            assert(ls.deep_view() =~= prev.push(cv));
        }
        i += 1;
    }
    proof {
        assert(vlabel_views(labels@).take(labels@.len() as int) =~= vlabel_views(labels@));
    }
    join_cps(&ls)
}

} // verus!
