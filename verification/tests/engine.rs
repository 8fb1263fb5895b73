//! End-to-end scenarios: normalization, beautification and the error
//! taxonomy, against a small synthetic set of tables.

use ens_normalize_rs::{
    normalize, beautify, process, CodePointsSpecs, CurrableError, DecompItem, DisallowedSequence,
    EnsNameNormalizer, Fenced, Group, GroupName, Mapped, NfJson, ProcessError, Spec,
    WholeMapItem, WholeObject, WholeObjectEntry, WholeValue,
};

fn sample_spec() -> Spec {
    let mut mapped = Vec::new();
    for (u, l) in ('A'..='Z').zip('a'..='z') {
        mapped.push(Mapped { from: u as u32, to: vec![l as u32] });
    }
    // capital xi folds to the small xi
    mapped.push(Mapped { from: 0x39E, to: vec![0x3BE] });
    let mut latin: Vec<u32> = ('a'..='z').map(|c| c as u32).collect();
    latin.extend(('0'..='9').map(|c| c as u32));
    latin.push(45); // hyphen-minus
    latin.push(95); // low line
    latin.push(0x101); // a with macron, reachable through NFC
    let groups = vec![
        Group {
            name: GroupName::Other("Latin".to_string()),
            primary: latin,
            secondary: vec![],
            cm: vec![0x300, 0x303, 0x304],
            restricted: false,
        },
        Group {
            name: GroupName::Greek,
            primary: vec![0x3B1, 0x3B2, 0x3BE],
            secondary: vec![],
            cm: vec![0x300],
            restricted: false,
        },
        Group {
            name: GroupName::Other("Cyrillic".to_string()),
            primary: vec![0x43E, 0x441, 0x442],
            secondary: vec![0x300, 0x303, 0x304, 0x305],
            cm: vec![],
            restricted: false,
        },
        Group {
            name: GroupName::Other("Common".to_string()),
            primary: vec![45, 0x3BE],
            secondary: vec![],
            cm: vec![0x300],
            restricted: false,
        },
        Group {
            name: GroupName::Other("Han".to_string()),
            primary: vec![8217, 8260, 12539],
            secondary: vec![],
            cm: vec![0x300],
            restricted: false,
        },
    ];
    Spec {
        created: String::new(),
        unicode: String::new(),
        cldr: String::new(),
        emoji: vec![
            vec![128169, 65039],
            vec![10084, 65039, 8205, 128293],
            vec![127344, 65039],
            vec![127345, 65039],
            vec![127346],
            vec![49, 65039, 8419],
            vec![128077],
        ],
        ignored: vec![65038, 65039, 173],
        mapped,
        fenced: vec![
            Fenced { from: 8217, to: "apostrophe".to_string() },
            Fenced { from: 8260, to: "fraction slash".to_string() },
            Fenced { from: 12539, to: "middle dot".to_string() },
        ],
        cm: vec![0x300, 0x303, 0x304],
        nsm: vec![0x300, 0x303, 0x304, 0x305],
        nsm_max: 2,
        escape: vec![],
        groups,
        nfc_check: vec![0x300, 0x303, 0x304],
        whole_map: vec![
            WholeMapItem {
                key: "1086".to_string(),
                value: WholeValue::WholeObject(WholeObject {
                    v: vec![],
                    m: vec![WholeObjectEntry {
                        key: "1086".to_string(),
                        names: vec!["Latin".to_string(), "Cyrillic".to_string()],
                    }],
                }),
            },
            WholeMapItem {
                key: "1089".to_string(),
                value: WholeValue::WholeObject(WholeObject {
                    v: vec![],
                    m: vec![WholeObjectEntry {
                        key: "1089".to_string(),
                        names: vec!["Latin".to_string(), "Cyrillic".to_string()],
                    }],
                }),
            },
            WholeMapItem { key: "1090".to_string(), value: WholeValue::Number(1) },
        ],
    }
}

fn sample_nf() -> NfJson {
    NfJson {
        created: String::new(),
        unicode: String::new(),
        ranks: vec![],
        exclusions: vec![],
        decomp: vec![DecompItem { number: 0x101, nested_numbers: vec![0x61, 0x304] }],
        qc: vec![],
    }
}

fn specs() -> CodePointsSpecs {
    CodePointsSpecs::new(sample_spec(), sample_nf())
}

fn currable(
    inner: CurrableError,
    index: usize,
    sequence: &str,
    suggest: Option<&str>,
) -> ProcessError {
    ProcessError::CurrableError {
        inner,
        index,
        sequence: sequence.to_string(),
        maybe_suggest: suggest.map(|s| s.to_string()),
    }
}

fn disallowed(d: DisallowedSequence) -> ProcessError {
    ProcessError::DisallowedSequence(d)
}

#[test]
fn normalizes_plain_ascii_name() {
    let s = specs();
    assert_eq!(normalize("vitalik.eth", &s).unwrap(), "vitalik.eth");
}

#[test]
fn normalizes_uppercase_name() {
    let s = specs();
    assert_eq!(normalize("VITALIK.ETH", &s).unwrap(), "vitalik.eth");
    assert_eq!(normalize("Levvv.eth", &s).unwrap(), "levvv.eth");
}

#[test]
fn normalizes_heart_emoji_name() {
    let s = specs();
    assert_eq!(
        normalize("vitalik\u{2764}\u{FE0F}\u{200D}\u{1F525}.eth", &s).unwrap(),
        "vitalik\u{2764}\u{200D}\u{1F525}.eth"
    );
    assert_eq!(
        beautify("vitalik\u{2764}\u{FE0F}\u{200D}\u{1F525}.eth", &s).unwrap(),
        "vitalik\u{2764}\u{FE0F}\u{200D}\u{1F525}.eth"
    );
}

#[test]
fn beautifies_squared_letters() {
    let s = specs();
    assert_eq!(normalize("\u{1F170}\u{1F171}\u{1F172}", &s).unwrap(), "\u{1F170}\u{1F171}\u{1F172}");
    assert_eq!(
        beautify("\u{1F170}\u{1F171}\u{1F172}", &s).unwrap(),
        "\u{1F170}\u{FE0F}\u{1F171}\u{FE0F}\u{1F172}"
    );
}

#[test]
fn beautifies_xi_outside_greek() {
    let s = specs();
    let input = "-\u{3BE}1\u{20E3}";
    assert_eq!(normalize(input, &s).unwrap(), "-\u{3BE}1\u{20E3}");
    assert_eq!(beautify(input, &s).unwrap(), "-\u{39E}1\u{FE0F}\u{20E3}");
}

#[test]
fn keeps_xi_inside_greek() {
    let s = specs();
    let input = "\u{3B1}\u{3BE}";
    assert_eq!(beautify(input, &s).unwrap(), "\u{3B1}\u{3BE}");
}

#[test]
fn rejects_underscore_in_middle() {
    let s = specs();
    assert_eq!(
        normalize("vitalik__", &s).unwrap_err(),
        currable(CurrableError::UnderscoreInMiddle, 7, "_", Some(""))
    );
    assert_eq!(normalize("______________vitalik", &s).unwrap(), "______________vitalik");
}

#[test]
fn rejects_hyphen_at_second_and_third() {
    let s = specs();
    assert_eq!(
        normalize("xx--xx", &s).unwrap_err(),
        currable(CurrableError::HyphenAtSecondAndThird, 2, "--", Some(""))
    );
    assert_eq!(normalize("ab-c", &s).unwrap(), "ab-c");
    assert_eq!(normalize("---a", &s).unwrap(), "---a");
}

#[test]
fn rejects_leading_combining_mark() {
    let s = specs();
    assert_eq!(
        normalize("abcd.\u{303}eth", &s).unwrap_err(),
        currable(CurrableError::CmStart, 0, "\u{303}", Some(""))
    );
}

#[test]
fn rejects_combining_mark_after_emoji() {
    let s = specs();
    assert_eq!(
        normalize("vi\u{1F44D}\u{303}talik", &s).unwrap_err(),
        currable(CurrableError::CmAfterEmoji, 3, "\u{303}", Some(""))
    );
}

#[test]
fn rejects_fenced_leading() {
    let s = specs();
    assert_eq!(
        normalize("\u{30FB}abcd", &s).unwrap_err(),
        currable(CurrableError::FencedLeading, 0, "\u{30FB}", Some(""))
    );
}

#[test]
fn rejects_fenced_trailing() {
    let s = specs();
    assert_eq!(
        normalize("abcd\u{30FB}", &s).unwrap_err(),
        currable(CurrableError::FencedTrailing, 4, "\u{30FB}", Some(""))
    );
}

#[test]
fn rejects_fenced_consecutive() {
    let s = specs();
    assert_eq!(
        normalize("a\u{30FB}\u{2019}a", &s).unwrap_err(),
        currable(CurrableError::FencedConsecutive, 1, "\u{30FB}\u{2019}", Some("\u{30FB}"))
    );
}

#[test]
fn rejects_disallowed_character() {
    let s = specs();
    assert_eq!(
        normalize("vitalik .eth", &s).unwrap_err(),
        disallowed(DisallowedSequence::Invalid(" ".to_string()))
    );
}

#[test]
fn rejects_empty_labels() {
    let s = specs();
    let e = disallowed(DisallowedSequence::EmptyLabel);
    assert_eq!(normalize("vitalik..eth", &s).unwrap_err(), e);
    assert_eq!(normalize(".", &s).unwrap_err(), e);
    assert_eq!(normalize("..", &s).unwrap_err(), e);
}

#[test]
fn empty_name_passes_with_no_labels() {
    let s = specs();
    assert_eq!(normalize("", &s).unwrap(), "");
    assert_eq!(beautify("", &s).unwrap(), "");
    assert_eq!(process("", &s).unwrap().labels, vec![]);
}

#[test]
fn rejects_invisible_character() {
    let s = specs();
    assert_eq!(
        normalize("Ni\u{200D}ck.ETH", &s).unwrap_err(),
        disallowed(DisallowedSequence::InvisibleCharacter(0x200D))
    );
}

#[test]
fn rejects_nsm_run_too_long() {
    let s = specs();
    assert_eq!(
        normalize("\u{43E}\u{300}\u{303}\u{305}", &s).unwrap_err(),
        disallowed(DisallowedSequence::NsmTooMany)
    );
}

#[test]
fn rejects_nsm_repeated() {
    let s = specs();
    assert_eq!(
        normalize("\u{43E}\u{300}\u{300}", &s).unwrap_err(),
        disallowed(DisallowedSequence::NsmRepeated)
    );
}

#[test]
fn rejects_whole_script_confusable() {
    let s = specs();
    assert_eq!(
        normalize("\u{43E}\u{441}", &s).unwrap_err(),
        disallowed(DisallowedSequence::ConfusedGroups {
            group1: "Cyrillic".to_string(),
            group2: "Latin".to_string(),
        })
    );
}

#[test]
fn whole_map_sentinel_short_circuits() {
    let s = specs();
    // the second code point carries the numeric sentinel, so no
    // confusable check applies
    assert_eq!(normalize("\u{43E}\u{442}", &s).unwrap(), "\u{43E}\u{442}");
}

#[test]
fn confusable_verdict_survives_added_emoji() {
    let s = specs();
    let want = disallowed(DisallowedSequence::ConfusedGroups {
        group1: "Cyrillic".to_string(),
        group2: "Latin".to_string(),
    });
    assert_eq!(normalize("\u{43E}\u{441}", &s).unwrap_err(), want);
    assert_eq!(normalize("\u{43E}\u{441}\u{1F44D}", &s).unwrap_err(), want);
}

#[test]
fn rejects_mixed_scripts() {
    let s = specs();
    assert_eq!(
        normalize("\u{43E}a", &s).unwrap_err(),
        currable(
            CurrableError::Confused { group_name: "Cyrillic".to_string(), cp: 97 },
            1,
            "a",
            None,
        )
    );
}

#[test]
fn normalize_is_idempotent_on_samples() {
    let s = specs();
    for input in [
        "vitalik.eth",
        "VITALIK.ETH",
        "vitalik\u{2764}\u{FE0F}\u{200D}\u{1F525}.eth",
        "-\u{3BE}1\u{20E3}",
        "Ra\u{304}.eth",
    ] {
        let once = normalize(input, &s).unwrap();
        let twice = normalize(&once, &s).unwrap();
        assert_eq!(once, twice, "normalize not idempotent on {input:?}");
    }
}

#[test]
fn beautify_agrees_on_normalized_names() {
    let s = specs();
    // for a name already equal to its normalized form and not all emoji,
    // beautifying the normalized form changes nothing
    for input in ["vitalik.eth", "-\u{3BE}", "ab-c"] {
        let norm = normalize(input, &s).unwrap();
        assert_eq!(norm, input);
        assert_eq!(beautify(&norm, &s).unwrap(), beautify(input, &s).unwrap());
    }
}

#[test]
fn normalize_of_beautified_matches_normalize() {
    let s = specs();
    for input in [
        "vitalik.eth",
        "VITALIK.ETH",
        "vitalik\u{2764}\u{FE0F}\u{200D}\u{1F525}.eth",
        "-\u{3BE}1\u{20E3}",
        "\u{1F170}\u{1F171}\u{1F172}",
    ] {
        let pretty = beautify(input, &s).unwrap();
        assert_eq!(normalize(&pretty, &s).unwrap(), normalize(input, &s).unwrap());
    }
}

#[test]
fn engine_methods_match_free_functions() {
    let s = specs();
    let engine = EnsNameNormalizer::new(CodePointsSpecs::new(sample_spec(), sample_nf()));
    assert_eq!(engine.normalize("VITALIK.ETH").unwrap(), normalize("VITALIK.ETH", &s).unwrap());
    assert_eq!(
        engine.beautify("-\u{3BE}1\u{20E3}").unwrap(),
        beautify("-\u{3BE}1\u{20E3}", &s).unwrap()
    );
    let processed = engine.process("vitalik.eth").unwrap();
    assert_eq!(processed.normalize(), "vitalik.eth");
    assert_eq!(processed.beautify(), "vitalik.eth");
    assert_eq!(processed.labels.len(), 2);
}

#[test]
fn process_reports_label_types() {
    let s = specs();
    let p = process("hello.\u{1F44D}", &s).unwrap();
    assert_eq!(p.labels[0].label_type, GroupName::Ascii);
    assert_eq!(p.labels[1].label_type, GroupName::Emoji);
    let p = process("\u{3B1}\u{3BE}", &s).unwrap();
    assert_eq!(p.labels[0].label_type, GroupName::Greek);
    let p = process("-\u{3BE}", &s).unwrap();
    assert_eq!(p.labels[0].label_type, GroupName::Other("Common".to_string()));
}

#[test]
fn selective_nfc_composes_runs() {
    let s = specs();
    // a + combining macron composes to a-with-macron under NFC
    assert_eq!(normalize("Ra\u{304}.eth", &s).unwrap(), "R\u{101}.eth".to_lowercase());
    assert_eq!(normalize("ra\u{304}", &s).unwrap(), "r\u{101}");
}
