//! Token-level behavior: emoji matching, classification, selective NFC,
//! collapsing, label splitting, and the classifier's predicates.

use ens_normalize_rs::{
    cp2str, cps2str, filter_fe0f, is_ascii, str2cps, tokenize, CodePointsSpecs,
    CollapsedEnsNameToken, DecompItem, EnsNameToken, Fenced, Group, GroupName, Mapped, NfJson,
    Spec, TokenDisallowed, TokenEmoji, TokenIgnored, TokenMapped, TokenNfc, TokenStop,
    TokenValid, WholeMapItem, WholeValue,
};

fn small_spec() -> Spec {
    let mut mapped = Vec::new();
    for (u, l) in ('A'..='Z').zip('a'..='z') {
        mapped.push(Mapped { from: u as u32, to: vec![l as u32] });
    }
    let mut latin: Vec<u32> = ('a'..='z').map(|c| c as u32).collect();
    latin.extend(('0'..='9').map(|c| c as u32));
    latin.push(45);
    latin.push(95);
    latin.push(0x101);
    latin.push(0x304);
    Spec {
        created: String::new(),
        unicode: String::new(),
        cldr: String::new(),
        emoji: vec![
            vec![128169, 65039],
            vec![128104, 127995],
            vec![128692, 8205, 9794, 65039],
            vec![49, 65039, 8419],
        ],
        ignored: vec![65038, 65039, 173],
        mapped,
        fenced: vec![Fenced { from: 8260, to: "fraction slash".to_string() }],
        cm: vec![0x300, 0x304],
        nsm: vec![0x300, 0x304],
        nsm_max: 4,
        escape: vec![],
        groups: vec![Group {
            name: GroupName::Other("Latin".to_string()),
            primary: latin,
            secondary: vec![],
            cm: vec![0x300, 0x304],
            restricted: false,
        }],
        nfc_check: vec![0x300, 0x304],
        whole_map: vec![WholeMapItem { key: "97".to_string(), value: WholeValue::Number(1) }],
    }
}

fn small_nf() -> NfJson {
    NfJson {
        created: String::new(),
        unicode: String::new(),
        ranks: vec![],
        exclusions: vec![],
        decomp: vec![DecompItem { number: 0x101, nested_numbers: vec![0x61, 0x304] }],
        qc: vec![],
    }
}

fn specs() -> CodePointsSpecs {
    CodePointsSpecs::new(small_spec(), small_nf())
}

#[test]
fn tokenizes_text_and_emoji() {
    let s = specs();
    let name = tokenize("xyz\u{1F468}\u{1F3FB}/", &s);
    assert_eq!(
        name.tokens,
        vec![
            EnsNameToken::Valid(TokenValid { cps: vec![120, 121, 122] }),
            EnsNameToken::Emoji(TokenEmoji {
                input: "\u{1F468}\u{1F3FB}".to_string(),
                cps_input: vec![128104, 127995],
                emoji: vec![128104, 127995],
                cps_no_fe0f: vec![128104, 127995],
            }),
            EnsNameToken::Disallowed(TokenDisallowed { cp: 47 }),
        ]
    );
}

#[test]
fn tokenizes_ignored_and_mapped() {
    let s = specs();
    let name = tokenize("A\u{1F4A9}\u{FE0E}\u{FE0E}b", &s);
    assert_eq!(
        name.tokens,
        vec![
            EnsNameToken::Mapped(TokenMapped { cp: 65, cps: vec![97] }),
            EnsNameToken::Emoji(TokenEmoji {
                input: "\u{1F4A9}".to_string(),
                cps_input: vec![128169],
                emoji: vec![128169, 65039],
                cps_no_fe0f: vec![128169],
            }),
            EnsNameToken::Ignored(TokenIgnored { cp: 65038 }),
            EnsNameToken::Ignored(TokenIgnored { cp: 65038 }),
            EnsNameToken::Valid(TokenValid { cps: vec![98] }),
        ]
    );
}

#[test]
fn emoji_match_consumes_optional_fe0f() {
    let s = specs();
    let name = tokenize("\u{1F4A9}\u{FE0F}", &s);
    assert_eq!(
        name.tokens,
        vec![EnsNameToken::Emoji(TokenEmoji {
            input: "\u{1F4A9}\u{FE0F}".to_string(),
            cps_input: vec![128169, 65039],
            emoji: vec![128169, 65039],
            cps_no_fe0f: vec![128169],
        })]
    );
}

#[test]
fn zwj_emoji_matches_whole_sequence() {
    let s = specs();
    let name = tokenize("RaFFY\u{1F6B4}\u{200D}\u{2642}\u{FE0F}.eTh", &s);
    assert_eq!(
        name.tokens,
        vec![
            EnsNameToken::Mapped(TokenMapped { cp: 82, cps: vec![114] }),
            EnsNameToken::Valid(TokenValid { cps: vec![97] }),
            EnsNameToken::Mapped(TokenMapped { cp: 70, cps: vec![102] }),
            EnsNameToken::Mapped(TokenMapped { cp: 70, cps: vec![102] }),
            EnsNameToken::Mapped(TokenMapped { cp: 89, cps: vec![121] }),
            EnsNameToken::Emoji(TokenEmoji {
                input: "\u{1F6B4}\u{200D}\u{2642}\u{FE0F}".to_string(),
                cps_input: vec![128692, 8205, 9794, 65039],
                emoji: vec![128692, 8205, 9794, 65039],
                cps_no_fe0f: vec![128692, 8205, 9794],
            }),
            EnsNameToken::Stop(TokenStop { cp: 46 }),
            EnsNameToken::Valid(TokenValid { cps: vec![101] }),
            EnsNameToken::Mapped(TokenMapped { cp: 84, cps: vec![116] }),
            EnsNameToken::Valid(TokenValid { cps: vec![104] }),
        ]
    );
}

#[test]
fn selective_nfc_replaces_only_checked_runs() {
    let s = specs();
    let no_nfc = ens_normalize_rs::TokenizedName::from_input(
        "R\u{1F4A9}a\u{304}\u{AD}.",
        &s,
        false,
    );
    assert_eq!(
        no_nfc.tokens,
        vec![
            EnsNameToken::Mapped(TokenMapped { cp: 82, cps: vec![114] }),
            EnsNameToken::Emoji(TokenEmoji {
                input: "\u{1F4A9}".to_string(),
                cps_input: vec![128169],
                emoji: vec![128169, 65039],
                cps_no_fe0f: vec![128169],
            }),
            EnsNameToken::Valid(TokenValid { cps: vec![97, 772] }),
            EnsNameToken::Ignored(TokenIgnored { cp: 173 }),
            EnsNameToken::Stop(TokenStop { cp: 46 }),
        ]
    );
    let with_nfc = ens_normalize_rs::TokenizedName::from_input(
        "R\u{1F4A9}a\u{304}\u{AD}.",
        &s,
        true,
    );
    assert_eq!(
        with_nfc.tokens,
        vec![
            EnsNameToken::Mapped(TokenMapped { cp: 82, cps: vec![114] }),
            EnsNameToken::Emoji(TokenEmoji {
                input: "\u{1F4A9}".to_string(),
                cps_input: vec![128169],
                emoji: vec![128169, 65039],
                cps_no_fe0f: vec![128169],
            }),
            EnsNameToken::Nfc(TokenNfc { input: vec![97, 772], cps: vec![257] }),
            EnsNameToken::Ignored(TokenIgnored { cp: 173 }),
            EnsNameToken::Stop(TokenStop { cp: 46 }),
        ]
    );
}

#[test]
fn adjacent_valid_tokens_collapse() {
    let s = specs();
    let name = tokenize("abc", &s);
    assert_eq!(name.tokens, vec![EnsNameToken::Valid(TokenValid { cps: vec![97, 98, 99] })]);
    for w in name.tokens.windows(2) {
        assert!(!(w[0].is_text() && w[1].is_text()));
    }
}

#[test]
fn tokenization_preserves_code_point_count_without_nfc() {
    let s = specs();
    for input in ["abc", "A\u{1F4A9}\u{FE0E}b", "xyz\u{1F468}\u{1F3FB}/", "a.b..c"] {
        let name = ens_normalize_rs::TokenizedName::from_input(input, &s, false);
        let total: usize = name.tokens.iter().map(|t| t.input_size()).sum();
        assert_eq!(total, input.chars().count(), "count mismatch on {input:?}");
    }
}

#[test]
fn nfc_token_breaks_code_point_count() {
    let s = specs();
    // the NFC token records the expanded run, dropping the interleaved
    // ignored code point: the sizes no longer add up to the input length
    let input = "a\u{AD}\u{304}";
    let name = ens_normalize_rs::TokenizedName::from_input(input, &s, true);
    let total: usize = name.tokens.iter().map(|t| t.input_size()).sum();
    assert_eq!(input.chars().count(), 3);
    assert_eq!(total, 2);
}

#[test]
fn emoji_tokens_carry_consistent_fields() {
    let s = specs();
    let name = tokenize("a\u{1F4A9}\u{FE0F}b\u{1F6B4}\u{200D}\u{2642}", &s);
    let mut saw_emoji: usize = 0;
    for t in &name.tokens {
        if let EnsNameToken::Emoji(e) = t {
            let bare: Vec<u32> = e.cps_input.iter().copied().filter(|&c| c != 0xFE0F).collect();
            assert_eq!(bare, e.cps_no_fe0f);
            let folded: Vec<u32> = e.emoji.iter().copied().filter(|&c| c != 0xFE0F).collect();
            assert_eq!(folded, e.cps_no_fe0f);
            saw_emoji += 1;
        }
    }
    assert_eq!(saw_emoji, 2);
}

#[test]
fn labels_split_at_stops() {
    let s = specs();
    let name = tokenize("ab.cd.", &s);
    let labels = name.labels();
    assert_eq!(labels.len(), 3);
    assert_eq!(labels[0].tokens, vec![EnsNameToken::Valid(TokenValid { cps: vec![97, 98] })]);
    assert_eq!(labels[1].tokens, vec![EnsNameToken::Valid(TokenValid { cps: vec![99, 100] })]);
    assert_eq!(labels[2].tokens, vec![]);
    assert_eq!(tokenize("", &s).tokens, vec![]);
    assert_eq!(tokenize("", &s).labels().len(), 1);
}

#[test]
fn collapse_into_text_or_emoji_merges_runs() {
    let s = specs();
    let name = tokenize("ab\u{1F4A9}c\u{AD}d", &s);
    let labels = name.labels();
    let collapsed = labels[0].collapse_into_text_or_emoji();
    assert_eq!(
        collapsed,
        vec![
            CollapsedEnsNameToken::Text(TokenValid { cps: vec![97, 98] }),
            CollapsedEnsNameToken::Emoji(TokenEmoji {
                input: "\u{1F4A9}".to_string(),
                cps_input: vec![128169],
                emoji: vec![128169, 65039],
                cps_no_fe0f: vec![128169],
            }),
            CollapsedEnsNameToken::Text(TokenValid { cps: vec![99, 100] }),
        ]
    );
}

#[test]
fn classifier_answers_predicates() {
    let s = specs();
    assert!(s.is_valid(97));
    assert!(!s.is_valid(82));
    assert!(s.is_ignored(173));
    assert!(s.is_stop(46));
    assert!(s.is_fenced(8260));
    assert!(!s.is_fenced(97));
    assert!(s.is_cm(0x300));
    assert!(s.is_nsm(0x304));
    assert_eq!(s.nsm_max(), 4);
    assert_eq!(s.get_mapping(65), Some(&vec![97]));
    assert_eq!(s.get_mapping(97), None);
    assert_eq!(s.decompose(0x101), Some(&vec![97, 772]));
    assert_eq!(s.decompose(97), None);
    // valid is extended through the decomposition of a-with-macron
    assert!(s.is_valid(0x101));
}

#[test]
fn emoji_dictionary_lookups() {
    let s = specs();
    assert!(s.cps_is_emoji(&vec![128169]));
    assert!(s.cps_is_emoji(&vec![128169, 65039]));
    assert!(!s.cps_is_emoji(&vec![128169, 65039, 97]));
    assert!(!s.cps_is_emoji(&vec![97]));
    assert_eq!(s.cps_emoji_no_fe0f_to_pretty(&vec![128169]), Some(vec![128169, 65039]));
    assert_eq!(s.cps_emoji_no_fe0f_to_pretty(&vec![97]), None);
    assert!(s.cps_requires_check(&vec![97, 772]));
    assert!(!s.cps_requires_check(&vec![97, 98]));
}

#[test]
fn group_queries() {
    let s = specs();
    let g = s.group_by_name(&GroupName::Other("Latin".to_string())).unwrap();
    assert!(g.contains_cp(97));
    assert!(!g.contains_cp(0x43E));
    assert!(g.contains_all_cps(&vec![97, 98, 45]));
    assert!(!g.contains_all_cps(&vec![97, 0x43E]));
    assert!(s.group_by_name(&GroupName::Greek).is_none());
    assert_eq!(s.groups_for_cps(&vec![97, 98]), vec![0]);
    assert_eq!(s.groups_for_cps(&vec![0x43E]), Vec::<usize>::new());
}

#[test]
fn utility_conversions_round_trip() {
    assert_eq!(str2cps("ab\u{1F4A9}"), vec![97, 98, 128169]);
    assert_eq!(cps2str(&vec![97, 98, 128169]), "ab\u{1F4A9}");
    assert_eq!(cp2str(97), "a");
    assert_eq!(filter_fe0f(&vec![1, 0xFE0F, 2, 0xFE0F]), vec![1, 2]);
    assert!(is_ascii(0x7F));
    assert!(!is_ascii(0x80));
    // code points that are not scalar values are dropped
    assert_eq!(cps2str(&vec![0xD800, 97]), "a");
}

#[test]
fn token_accessors() {
    let s = specs();
    let name = tokenize("Ab\u{1F4A9}\u{AD}", &s);
    assert!(!name.is_empty());
    assert_eq!(name.iter_tokens().len(), 4);
    let t = &name.tokens[0];
    assert!(t.is_text());
    assert!(!t.is_emoji());
    assert_eq!(t.cps(), vec![97]);
    assert_eq!(t.input_size(), 1);
    assert_eq!(t.as_string(), "a");
    let e = &name.tokens[2];
    assert!(e.is_emoji());
    assert_eq!(e.cps(), vec![128169]);
    assert_eq!(e.input_size(), 1);
    let ig = &name.tokens[3];
    assert!(ig.is_ignored());
    let stop = EnsNameToken::stop();
    assert!(stop.is_stop());
    assert_eq!(stop.cps(), vec![46]);
    let empty = ens_normalize_rs::TokenizedName::empty();
    assert!(empty.is_empty());
    assert_eq!(empty.input, "");
}

#[test]
fn label_accessors() {
    let s = specs();
    let name = tokenize("ab\u{1F4A9}.\u{1F4A9}", &s);
    let labels = name.labels();
    assert_eq!(labels.len(), 2);
    assert!(!labels[0].is_fully_emoji());
    assert!(labels[1].is_fully_emoji());
    assert!(!labels[0].is_fully_ascii());
    assert_eq!(labels[0].iter_cps(), vec![97, 98, 128169]);
    assert_eq!(labels[0].get_cps_of_not_ignored_text(), vec![97, 98]);
    let collapsed = labels[0].collapse_into_text_or_emoji();
    assert_eq!(collapsed.len(), 2);
    assert_eq!(collapsed[0].input_size(), 2);
    assert_eq!(collapsed[1].input_size(), 1);
}

#[test]
fn whole_map_key_checker() {
    let mut spec = small_spec();
    assert!(ens_normalize_rs::whole_map_keys_parse(&spec));
    spec.whole_map.push(WholeMapItem {
        key: "not a number".to_string(),
        value: WholeValue::Number(0),
    });
    assert!(!ens_normalize_rs::whole_map_keys_parse(&spec));
}
