//! The emitter for the normalized form: joins validated labels with the
//! label separator.

use vstd::prelude::*;

use crate::constants::CP_STOP;
use crate::tokens::{token_cps, EnsNameToken, TokenV};
use crate::utils::{chars_of_cps, cps2str};
use crate::validate::{vlabel_views, ValidatedLabel};
use crate::static_data::GroupNameV;
use crate::tokenize::views_of;

verus! {

/// What one token contributes to the normalized form: text tokens their
/// code points, emoji their bare form, everything else nothing.
pub open spec fn spec_norm_token_cps(t: TokenV) -> Seq<u32> {
    match t {
        TokenV::Disallowed { .. } => Seq::empty(),
        TokenV::Ignored { .. } => Seq::empty(),
        TokenV::Stop { .. } => Seq::empty(),
        _ => token_cps(t),
    }
}

/// The normalized code points of one label.
pub open spec fn spec_label_norm_cps(ts: Seq<TokenV>) -> Seq<u32>
    decreases ts.len(),
{
    if ts.len() == 0 {
        Seq::empty()
    } else {
        spec_label_norm_cps(ts.drop_last()) + spec_norm_token_cps(ts.last())
    }
}

/// The normalized code points of each validated label, in order.
pub open spec fn norm_cps_of_pairs(pairs: Seq<(Seq<TokenV>, GroupNameV)>) -> Seq<Seq<u32>>
    decreases pairs.len(),
{
    if pairs.len() == 0 {
        Seq::empty()
    } else {
        norm_cps_of_pairs(pairs.drop_last()).push(spec_label_norm_cps(pairs.last().0))
    }
}

/// Code-point lists joined with a single label separator between them.
pub open spec fn spec_join_cps(ls: Seq<Seq<u32>>, i: int) -> Seq<u32>
    decreases ls.len() - i,
{
    if i < 0 || i >= ls.len() {
        Seq::empty()
    } else if i == ls.len() - 1 {
        ls[i]
    } else {
        ls[i] + seq![CP_STOP] + spec_join_cps(ls, i + 1)
    }
}

/// Joins code-point lists into a string, one label separator between them.
pub fn join_cps(ls: &Vec<Vec<u32>>) -> (r: String)
    ensures
        r@ == chars_of_cps(spec_join_cps(ls.deep_view(), 0)),
{
    let mut flat: Vec<u32> = Vec::new();
    let n = ls.len();
    if n == 0 {
        proof {
            assert(flat@ =~= spec_join_cps(ls.deep_view(), 0));
        }
        return cps2str(&flat);
    }
    let mut i: usize = 0;
    proof {
        assert(ls.deep_view().len() == n);
        assert(flat@ + spec_join_cps(ls.deep_view(), 0) =~= spec_join_cps(ls.deep_view(), 0));
    }
    while i < n
        invariant
            i <= n,
            n == ls@.len(),
            n > 0,
            spec_join_cps(ls.deep_view(), 0) == flat@ + spec_join_cps(ls.deep_view(), i as int),
        decreases n - i,
    {
        let ghost pre = flat@;
        let mut c = crate::tokens::copy_cps(&ls[i]);
        proof {
            assert(c@ == ls.deep_view()[i as int]);
        }
        flat.append(&mut c);
        if i + 1 < n {
            flat.push(CP_STOP);
            proof {
                assert(spec_join_cps(ls.deep_view(), i as int) == ls.deep_view()[i as int]
                    + seq![CP_STOP] + spec_join_cps(ls.deep_view(), i + 1));
                assert(pre + (ls.deep_view()[i as int] + seq![CP_STOP] + spec_join_cps(
                    ls.deep_view(),
                    i + 1,
                )) =~= flat@ + spec_join_cps(ls.deep_view(), i + 1));
            }
        } else {
            proof {
                assert(spec_join_cps(ls.deep_view(), i as int) == ls.deep_view()[i as int]);
                assert(spec_join_cps(ls.deep_view(), i + 1) =~= Seq::<u32>::empty());
                assert(pre + ls.deep_view()[i as int] =~= flat@ + Seq::<u32>::empty());
            }
        }
        i += 1;
    }
    proof {
        assert(spec_join_cps(ls.deep_view(), n as int) =~= Seq::<u32>::empty());
        assert(flat@ + Seq::<u32>::empty() =~= flat@);
    }
    cps2str(&flat)
}

/// The normalized code points of one label, computed from its tokens.
pub(crate) fn label_norm_cps(tokens: &Vec<EnsNameToken>) -> (r: Vec<u32>)
    ensures
        r@ == spec_label_norm_cps(views_of(tokens@)),
{
    let ghost tv = views_of(tokens@);
    let mut r: Vec<u32> = Vec::new();
    let mut i: usize = 0;
    proof {
        assert(tv.subrange(0, 0) =~= Seq::<TokenV>::empty());
        assert(r@ =~= spec_label_norm_cps(tv.subrange(0, 0)));
    }
    while i < tokens.len()
        invariant
            i <= tokens@.len(),
            tv == views_of(tokens@),
            r@ == spec_label_norm_cps(tv.subrange(0, i as int)),
        decreases tokens@.len() - i,
    {
        proof {
            assert(tv.subrange(0, i + 1).drop_last() =~= tv.subrange(0, i as int));
            assert(tv.subrange(0, i + 1).last() == tokens@[i as int]@);
        }
        let t = &tokens[i];
        match t {
            EnsNameToken::Disallowed(_) => {
                proof {
                    assert(r@ + Seq::<u32>::empty() =~= r@);
                }
            },
            EnsNameToken::Ignored(_) => {
                proof {
                    assert(r@ + Seq::<u32>::empty() =~= r@);
                }
            },
            EnsNameToken::Stop(_) => {
                proof {
                    assert(r@ + Seq::<u32>::empty() =~= r@);
                }
            },
            _ => {
                let mut c = t.cps();
                r.append(&mut c);
            },
        }
        i += 1;
    }
    proof {
        assert(tv.subrange(0, tv.len() as int) =~= tv);
    }
    r
}

/// Joins validated labels into the normalized string.
pub fn join_labels(labels: &Vec<ValidatedLabel>) -> (r: String)
    ensures
        r@ == chars_of_cps(spec_join_cps(norm_cps_of_pairs(vlabel_views(labels@)), 0)),
{
    let mut ls: Vec<Vec<u32>> = Vec::new();
    let mut i: usize = 0;
    proof {
        assert(vlabel_views(labels@).take(0) =~= Seq::<(Seq<TokenV>, GroupNameV)>::empty());
        assert(ls.deep_view() =~= norm_cps_of_pairs(vlabel_views(labels@).take(0)));
    }
    while i < labels.len()
        invariant
            i <= labels@.len(),
            ls.deep_view() == norm_cps_of_pairs(vlabel_views(labels@).take(i as int)),
        decreases labels@.len() - i,
    {
        proof {
            assert(vlabel_views(labels@).take(i + 1).drop_last() =~= vlabel_views(
                labels@,
            ).take(i as int));
            assert(vlabel_views(labels@).take(i + 1).last() == vlabel_views(labels@)[i as int]);
        }
        let c = label_norm_cps(&labels[i].tokens);
        let ghost cv = c@;
        let ghost prev = ls.deep_view();
        let ghost prevraw = ls@;
        ls.push(c);
        proof {
            assert(vlabel_views(labels@)[i as int].0 == views_of(labels@[i as int].tokens@));
            assert(prev.len() == prevraw.len());
            assert forall|j: int| 0 <= j < ls@.len() implies ls.deep_view()[j] == prev.push(
                cv,
            )[j] by {
                if j < prevraw.len() {
                    assert(ls@[j] == prevraw[j]);
                } else {
                    assert(ls@[j]@ == cv);
                }
            }
            assert(ls.deep_view() =~= prev.push(cv));
        }
        i += 1;
    }
    proof {
        assert(vlabel_views(labels@).take(labels@.len() as int) =~= vlabel_views(labels@));
    }
    join_cps(&ls)
}

} // verus!
