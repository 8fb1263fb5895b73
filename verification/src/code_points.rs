//! The code-point classifier: parsed script groups, the whole-script
//! confusable map, the emoji dictionary, and the per-code-point predicates
//! used by the tokenizer and the validator.

use vstd::assert_by_contradiction;
use vstd::prelude::*;

use std::collections::{HashMap, HashSet};

use crate::constants::{CP_FE0F, CP_STOP};
use crate::static_data::{
    gn_eq, DecompItem, Fenced, Group, GroupName, GroupNameV, Mapped, NfJson, Spec, WholeMapItem,
    WholeObjectEntry, WholeValue,
};
use crate::utils::{filter_fe0f, filter_fe0f_seq, spec_parse_u32};

verus! {

broadcast use vstd::std_specs::hash::group_hash_axioms;

/// A script group with its code-point sets precomputed.
pub struct ParsedGroup {
    pub name: GroupName,
    pub primary: HashSet<u32>,
    pub secondary: HashSet<u32>,
    pub primary_plus_secondary: HashSet<u32>,
    pub cm_absent: bool,
}

/// View of [`ParsedGroup`].
pub struct ParsedGroupV {
    pub name: GroupNameV,
    pub primary: Set<u32>,
    pub secondary: Set<u32>,
    pub primary_plus_secondary: Set<u32>,
    pub cm_absent: bool,
}

impl View for ParsedGroup {
    type V = ParsedGroupV;

    open spec fn view(&self) -> ParsedGroupV {
        ParsedGroupV {
            name: self.name@,
            primary: self.primary@,
            secondary: self.secondary@,
            primary_plus_secondary: self.primary_plus_secondary@,
            cm_absent: self.cm_absent,
        }
    }
}

/// Membership in a group: the code point lies in `primary` or `secondary`.
pub open spec fn group_contains(g: ParsedGroupV, cp: u32) -> bool {
    g.primary_plus_secondary.contains(cp)
}

/// The parsed group a raw group denotes.
pub open spec fn spec_parsed_group_of(g: Group) -> ParsedGroupV {
    ParsedGroupV {
        name: g.name@,
        primary: g.primary@.to_set(),
        secondary: g.secondary@.to_set(),
        primary_plus_secondary: g.primary@.to_set().union(g.secondary@.to_set()),
        cm_absent: g.cm@.len() == 0,
    }
}

impl ParsedGroup {
    /// Builds the precomputed sets of one raw group.
    pub fn from_group(g: &Group) -> (r: ParsedGroup)
        ensures
            r@ == spec_parsed_group_of(*g),
    {
        let primary = hashset_of(&g.primary);
        let secondary = hashset_of(&g.secondary);
        let mut both = hashset_of(&g.primary);
        let mut i: usize = 0;
        while i < g.secondary.len()
            invariant
                i <= g.secondary.len(),
                both@ == g.primary@.to_set().union(g.secondary@.take(i as int).to_set()),
            decreases g.secondary.len() - i,
        {
            proof {
                lemma_take_to_set_insert(g.secondary@, i as int);
                assert(g.primary@.to_set().union(g.secondary@.take(i as int).to_set()).insert(
                    g.secondary@[i as int],
                ) =~= g.primary@.to_set().union(g.secondary@.take(i + 1).to_set()));
            }
            both.insert(g.secondary[i]);
            i += 1;
        }
        proof {
            assert(g.secondary@.take(g.secondary@.len() as int) =~= g.secondary@);
        }
        ParsedGroup {
            name: g.name.duplicate(),
            primary,
            secondary,
            primary_plus_secondary: both,
            cm_absent: g.cm.len() == 0,
        }
    }

    /// True when the code point belongs to the group.
    pub fn contains_cp(&self, cp: u32) -> (r: bool)
        ensures
            r == group_contains(self@, cp),
    {
        self.primary_plus_secondary.contains(&cp)
    }

    /// True when every code point of the sequence belongs to the group.
    pub fn contains_all_cps(&self, cps: &Vec<u32>) -> (r: bool)
        ensures
            r == forall|i: int| 0 <= i < cps@.len() ==> group_contains(self@, cps@[i]),
    {
        let mut i: usize = 0;
        while i < cps.len()
            invariant
                i <= cps.len(),
                forall|j: int| 0 <= j < i ==> group_contains(self@, cps@[j]),
            decreases cps.len() - i,
        {
            if !self.contains_cp(cps[i]) {
                return false;
            }
            i += 1;
        }
        true
    }
}

/// The parsed whole-script confusable map.
pub type ParsedWholeMap = HashMap<u32, ParsedWholeValue>;

/// One parsed whole-script confusable entry.
pub enum ParsedWholeValue {
    Number(u32),
    WholeObject(ParsedWholeObject),
}

/// The record form of a parsed whole-script confusable entry.
pub struct ParsedWholeObject {
    pub v: HashSet<u32>,
    pub m: HashMap<u32, Vec<String>>,
}

/// View of [`ParsedWholeValue`].
pub enum ParsedWholeValueV {
    Number(u32),
    Object { v: Set<u32>, m: Map<u32, Seq<Seq<char>>> },
}

impl View for ParsedWholeValue {
    type V = ParsedWholeValueV;

    open spec fn view(&self) -> ParsedWholeValueV {
        match self {
            ParsedWholeValue::Number(n) => ParsedWholeValueV::Number(*n),
            ParsedWholeValue::WholeObject(o) => ParsedWholeValueV::Object {
                v: o.v@,
                m: o.m@.map_values(|names: Vec<String>| names.deep_view()),
            },
        }
    }
}

/// The parsed `m` map a raw entry list denotes: keys are decimal numerals;
/// entries whose key does not parse are skipped (construction requires that
/// none is).
pub open spec fn spec_whole_m_of(entries: Seq<WholeObjectEntry>) -> Map<u32, Seq<Seq<char>>>
    decreases entries.len(),
{
    if entries.len() == 0 {
        Map::empty()
    } else {
        let rest = spec_whole_m_of(entries.drop_last());
        let e = entries.last();
        match spec_parse_u32(e.key@) {
            Some(k) => rest.insert(k, e.names.deep_view()),
            None => rest,
        }
    }
}

/// The parsed form of one raw whole-map value.
pub open spec fn spec_whole_value_of(v: WholeValue) -> ParsedWholeValueV {
    match v {
        WholeValue::Number(n) => ParsedWholeValueV::Number(n),
        WholeValue::WholeObject(o) => ParsedWholeValueV::Object {
            v: o.v@.to_set(),
            m: spec_whole_m_of(o.m@),
        },
    }
}

/// The parsed whole map a raw item list denotes.
pub open spec fn spec_whole_map_of(items: Seq<WholeMapItem>) -> Map<u32, ParsedWholeValueV>
    decreases items.len(),
{
    if items.len() == 0 {
        Map::empty()
    } else {
        let rest = spec_whole_map_of(items.drop_last());
        let it = items.last();
        match spec_parse_u32(it.key@) {
            Some(k) => rest.insert(k, spec_whole_value_of(it.value)),
            None => rest,
        }
    }
}

/// Every key inside the value of a whole-map entry is a decimal numeral
/// that fits in 32 bits.
pub open spec fn spec_whole_value_wf(v: WholeValue) -> bool {
    match v {
        WholeValue::Number(_) => true,
        WholeValue::WholeObject(o) => forall|j: int|
            0 <= j < o.m@.len() ==> spec_parse_u32(#[trigger] o.m@[j].key@) is Some,
    }
}

/// The key of a whole-map entry, and every key inside its value, is a
/// decimal numeral that fits in 32 bits.
pub open spec fn spec_whole_item_wf(item: WholeMapItem) -> bool {
    spec_parse_u32(item.key@) is Some && spec_whole_value_wf(item.value)
}

/// Every key of the whole map, and of the `m` maps inside it, is a decimal
/// numeral with a value that fits in 32 bits.
pub open spec fn spec_whole_map_wf(items: Seq<WholeMapItem>) -> bool {
    forall|i: int| 0 <= i < items.len() ==> #[trigger] spec_whole_item_wf(items[i])
}

/// The rewrite map a raw mapped list denotes; a later entry for the same
/// code point wins.
pub open spec fn spec_mapped_of(items: Seq<Mapped>) -> Map<u32, Seq<u32>>
    decreases items.len(),
{
    if items.len() == 0 {
        Map::empty()
    } else {
        spec_mapped_of(items.drop_last()).insert(items.last().from, items.last().to@)
    }
}

/// The decomposition map a raw decomposition list denotes.
pub open spec fn spec_decomp_of(items: Seq<DecompItem>) -> Map<u32, Seq<u32>>
    decreases items.len(),
{
    if items.len() == 0 {
        Map::empty()
    } else {
        spec_decomp_of(items.drop_last()).insert(items.last().number, items.last().nested_numbers@)
    }
}

/// The fenced code points of a raw fenced list.
pub open spec fn spec_fenced_of(items: Seq<Fenced>) -> Set<u32>
    decreases items.len(),
{
    if items.len() == 0 {
        Set::empty()
    } else {
        spec_fenced_of(items.drop_last()).insert(items.last().from)
    }
}

/// The concatenation of every group's `primary` then `secondary` list.
pub open spec fn spec_group_cps(groups: Seq<Group>) -> Seq<u32>
    decreases groups.len(),
{
    if groups.len() == 0 {
        Seq::empty()
    } else {
        spec_group_cps(groups.drop_last()) + groups.last().primary@ + groups.last().secondary@
    }
}

/// The valid set: every code point of some group, extended by everything
/// reachable from one of them through canonical decomposition.
pub open spec fn spec_valid_set(groups: Seq<Group>, decomp: Map<u32, Seq<u32>>) -> Set<u32> {
    let all = spec_group_cps(groups);
    all.to_set().union(
        Set::new(
            |x: u32|
                exists|j: int|
                    0 <= j < all.len() && decomp.contains_key(#[trigger] all[j])
                        && decomp[all[j]].contains(x),
        ),
    )
}

/// View of [`CodePointsSpecs`]: the mathematical content of every table.
pub struct SpecsV {
    pub cm: Set<u32>,
    pub ignored: Set<u32>,
    pub mapped: Map<u32, Seq<u32>>,
    pub nfc_check: Set<u32>,
    pub whole_map: Map<u32, ParsedWholeValueV>,
    pub fenced: Set<u32>,
    pub groups: Seq<ParsedGroupV>,
    pub valid: Set<u32>,
    pub nsm: Set<u32>,
    pub nsm_max: u32,
    pub emojis: Seq<Seq<u32>>,
    pub decomp: Map<u32, Seq<u32>>,
}

/// The view that [`CodePointsSpecs::new`] builds from the raw documents.
pub open spec fn spec_specs_of(spec: Spec, nf: NfJson) -> SpecsV {
    SpecsV {
        cm: spec.cm@.to_set(),
        ignored: spec.ignored@.to_set(),
        mapped: spec_mapped_of(spec.mapped@),
        nfc_check: spec.nfc_check@.to_set(),
        whole_map: spec_whole_map_of(spec.whole_map@),
        fenced: spec_fenced_of(spec.fenced@),
        groups: spec.groups@.map_values(|g: Group| spec_parsed_group_of(g)),
        valid: spec_valid_set(spec.groups@, spec_decomp_of(nf.decomp@)),
        nsm: spec.nsm@.to_set(),
        nsm_max: spec.nsm_max,
        emojis: spec.emoji@.map_values(|e: Vec<u32>| e@),
        decomp: spec_decomp_of(nf.decomp@),
    }
}

/// One emoji of the dictionary: its canonical pretty form and the same form
/// with every U+FE0F removed.
struct EmojiForm {
    pretty: Vec<u32>,
    no_fe0f: Vec<u32>,
}

/// The code-point classifier built once from the two static documents and
/// shared immutably across normalizations.
pub struct CodePointsSpecs {
    cm: HashSet<u32>,
    ignored: HashSet<u32>,
    mapped: HashMap<u32, Vec<u32>>,
    nfc_check: HashSet<u32>,
    whole_map: ParsedWholeMap,
    fenced: HashMap<u32, String>,
    groups: Vec<ParsedGroup>,
    valid: HashSet<u32>,
    nsm: HashSet<u32>,
    nsm_max: u32,
    emoji_forms: Vec<EmojiForm>,
    decomp: HashMap<u32, Vec<u32>>,
}

impl View for CodePointsSpecs {
    type V = SpecsV;

    closed spec fn view(&self) -> SpecsV {
        SpecsV {
            cm: self.cm@,
            ignored: self.ignored@,
            mapped: self.mapped@.map_values(|v: Vec<u32>| v@),
            nfc_check: self.nfc_check@,
            whole_map: self.whole_map@.map_values(|v: ParsedWholeValue| v@),
            fenced: self.fenced@.dom(),
            groups: self.groups@.map_values(|g: ParsedGroup| g@),
            valid: self.valid@,
            nsm: self.nsm@,
            nsm_max: self.nsm_max,
            emojis: self.emoji_forms@.map_values(|f: EmojiForm| f.pretty@),
            decomp: self.decomp@.map_values(|v: Vec<u32>| v@),
        }
    }
}

impl CodePointsSpecs {
    /// The emoji dictionary keeps the bare form of each emoji beside its
    /// pretty form.
    #[verifier::type_invariant]
    spec fn inv(&self) -> bool {
        forall|i: int|
            0 <= i < self.emoji_forms@.len() ==> (#[trigger] self.emoji_forms@[i].no_fe0f)@
                == filter_fe0f_seq(self.emoji_forms@[i].pretty@)
    }
}

/// Proves that extending a prefix by one element inserts it into the
/// prefix's set of elements.
proof fn lemma_take_to_set_insert<A>(s: Seq<A>, i: int)
    requires
        0 <= i < s.len(),
    ensures
        s.take(i + 1).to_set() == s.take(i).to_set().insert(s[i]),
{
    assert(s.take(i + 1) =~= s.take(i).push(s[i]));
    assert forall|x: A| s.take(i + 1).to_set().contains(x) implies s.take(i).to_set().insert(
        s[i],
    ).contains(x) by {
        let j = choose|j: int| 0 <= j < s.take(i + 1).len() && #[trigger] s.take(i + 1)[j] == x;
        if j < i {
            assert(s.take(i)[j] == x);
        }
    }
    assert forall|x: A| s.take(i).to_set().insert(s[i]).contains(x) implies s.take(
        i + 1,
    ).to_set().contains(x) by {
        if s.take(i).to_set().contains(x) {
            let j = choose|j: int| 0 <= j < s.take(i).len() && #[trigger] s.take(i)[j] == x;
            assert(s.take(i + 1)[j] == x);
        } else {
            assert(s.take(i + 1)[i] == x);
        }
    }
    assert(s.take(i + 1).to_set() =~= s.take(i).to_set().insert(s[i]));
}

/// The first index at or after `i` whose element satisfies the predicate.
pub open spec fn first_match_from<A>(s: Seq<A>, pred: spec_fn(A) -> bool, i: int) -> Option<int>
    decreases s.len() - i,
{
    if i < 0 || i >= s.len() {
        None
    } else if pred(s[i]) {
        Some(i)
    } else {
        first_match_from(s, pred, i + 1)
    }
}

/// Proves that a map built by inserting into a value-mapped map equals the
/// value-mapped map of the insertion.
proof fn lemma_map_values_insert<K, V, W>(m: Map<K, V>, f: spec_fn(V) -> W, k: K, v: V)
    ensures
        m.insert(k, v).map_values(f) == m.map_values(f).insert(k, f(v)),
{
    assert(m.insert(k, v).map_values(f) =~= m.map_values(f).insert(k, f(v)));
}

/// Builds the set of elements of a code-point list.
fn hashset_of(cps: &Vec<u32>) -> (r: HashSet<u32>)
    ensures
        r@ == cps@.to_set(),
{
    let mut r: HashSet<u32> = HashSet::new();
    let mut i: usize = 0;
    while i < cps.len()
        invariant
            i <= cps.len(),
            r@ == cps@.take(i as int).to_set(),
        decreases cps.len() - i,
    {
        proof {
            lemma_take_to_set_insert(cps@, i as int);
        }
        r.insert(cps[i]);
        i += 1;
    }
    proof {
        assert(cps@.take(cps@.len() as int) =~= cps@);
    }
    r
}

/// Appends a code-point list to another.
fn extend_cps(dst: &mut Vec<u32>, src: &Vec<u32>)
    ensures
        final(dst)@ == old(dst)@ + src@,
{
    let mut i: usize = 0;
    while i < src.len()
        invariant
            i <= src.len(),
            dst@ == old(dst)@ + src@.take(i as int),
        decreases src.len() - i,
    {
        dst.push(src[i]);
        proof {
            assert(src@.take(i + 1) =~= src@.take(i as int).push(src@[i as int]));
            assert(old(dst)@ + src@.take(i as int).push(src@[i as int]) =~= (old(dst)@
                + src@.take(i as int)).push(src@[i as int]));
        }
        i += 1;
    }
    proof {
        assert(src@.take(src@.len() as int) =~= src@);
    }
}

/// Copies a list of strings.
fn clone_strings(v: &Vec<String>) -> (r: Vec<String>)
    ensures
        r@ == v@,
{
    let mut r: Vec<String> = Vec::new();
    let mut i: usize = 0;
    while i < v.len()
        invariant
            i <= v.len(),
            r@ == v@.take(i as int),
        decreases v.len() - i,
    {
        let s: &String = &v[i];
        r.push(s.clone());
        proof {
            assert(v@.take(i + 1) =~= v@.take(i as int).push(v@[i as int]));
        }
        i += 1;
    }
    proof {
        assert(v@.take(v@.len() as int) =~= v@);
    }
    r
}

/// Builds the rewrite table.
fn build_mapped(items: &Vec<Mapped>) -> (r: HashMap<u32, Vec<u32>>)
    ensures
        r@.map_values(|v: Vec<u32>| v@) == spec_mapped_of(items@),
{
    let mut r: HashMap<u32, Vec<u32>> = HashMap::new();
    let mut i: usize = 0;
    proof {
        assert(r@.map_values(|v: Vec<u32>| v@) =~= spec_mapped_of(items@.take(0)));
    }
    while i < items.len()
        invariant
            i <= items.len(),
            r@.map_values(|v: Vec<u32>| v@) == spec_mapped_of(items@.take(i as int)),
        decreases items.len() - i,
    {
        let item = &items[i];
        let to = crate::tokens::copy_cps(&item.to);
        proof {
            assert(items@.take(i + 1).drop_last() =~= items@.take(i as int));
            lemma_map_values_insert(r@, |v: Vec<u32>| v@, item.from, to);
        }
        r.insert(item.from, to);
        i += 1;
    }
    proof {
        assert(items@.take(items@.len() as int) =~= items@);
    }
    r
}

/// Builds the decomposition table.
fn build_decomp(items: &Vec<DecompItem>) -> (r: HashMap<u32, Vec<u32>>)
    ensures
        r@.map_values(|v: Vec<u32>| v@) == spec_decomp_of(items@),
{
    let mut r: HashMap<u32, Vec<u32>> = HashMap::new();
    let mut i: usize = 0;
    proof {
        assert(r@.map_values(|v: Vec<u32>| v@) =~= spec_decomp_of(items@.take(0)));
    }
    while i < items.len()
        invariant
            i <= items.len(),
            r@.map_values(|v: Vec<u32>| v@) == spec_decomp_of(items@.take(i as int)),
        decreases items.len() - i,
    {
        let item = &items[i];
        let to = crate::tokens::copy_cps(&item.nested_numbers);
        proof {
            assert(items@.take(i + 1).drop_last() =~= items@.take(i as int));
            lemma_map_values_insert(r@, |v: Vec<u32>| v@, item.number, to);
        }
        r.insert(item.number, to);
        i += 1;
    }
    proof {
        assert(items@.take(items@.len() as int) =~= items@);
    }
    r
}

/// Builds the fenced table, keyed by code point.
fn build_fenced(items: &Vec<Fenced>) -> (r: HashMap<u32, String>)
    ensures
        r@.dom() == spec_fenced_of(items@),
{
    let mut r: HashMap<u32, String> = HashMap::new();
    let mut i: usize = 0;
    proof {
        assert(r@.dom() =~= spec_fenced_of(items@.take(0)));
    }
    while i < items.len()
        invariant
            i <= items.len(),
            r@.dom() == spec_fenced_of(items@.take(i as int)),
        decreases items.len() - i,
    {
        let item = &items[i];
        proof {
            assert(items@.take(i + 1).drop_last() =~= items@.take(i as int));
        }
        r.insert(item.from, item.to.clone());
        proof {
            assert(r@.dom() =~= spec_fenced_of(items@.take(i as int)).insert(item.from));
        }
        i += 1;
    }
    proof {
        assert(items@.take(items@.len() as int) =~= items@);
    }
    r
}

/// Builds the `m` map of one whole-script confusable record.
fn build_whole_m(entries: &Vec<WholeObjectEntry>) -> (r: HashMap<u32, Vec<String>>)
    requires
        forall|j: int|
            0 <= j < entries@.len() ==> spec_parse_u32(#[trigger] entries@[j].key@) is Some,
    ensures
        r@.map_values(|names: Vec<String>| names.deep_view()) == spec_whole_m_of(entries@),
{
    let mut r: HashMap<u32, Vec<String>> = HashMap::new();
    let mut i: usize = 0;
    proof {
        assert(r@.map_values(|names: Vec<String>| names.deep_view()) =~= spec_whole_m_of(
            entries@.take(0),
        ));
    }
    while i < entries.len()
        invariant
            i <= entries.len(),
            forall|j: int|
                0 <= j < entries@.len() ==> spec_parse_u32(#[trigger] entries@[j].key@) is Some,
            r@.map_values(|names: Vec<String>| names.deep_view()) == spec_whole_m_of(
                entries@.take(i as int),
            ),
        decreases entries.len() - i,
    {
        let entry = &entries[i];
        proof {
            assert(entries@.take(i + 1).drop_last() =~= entries@.take(i as int));
        }
        match crate::utils::parse_decimal(entry.key.as_str()) {
            Some(k) => {
                let names = clone_strings(&entry.names);
                proof {
                    lemma_map_values_insert(
                        r@,
                        |names: Vec<String>| names.deep_view(),
                        k,
                        names,
                    );
                    assert(names.deep_view() =~= entry.names.deep_view());
                }
                r.insert(k, names);
            },
            None => {
                proof {
                    assert(false);
                }
            },
        }
        i += 1;
    }
    proof {
        assert(entries@.take(entries@.len() as int) =~= entries@);
    }
    r
}

/// Builds the whole-script confusable map.
fn build_whole_map(items: &Vec<WholeMapItem>) -> (r: ParsedWholeMap)
    requires
        spec_whole_map_wf(items@),
    ensures
        r@.map_values(|v: ParsedWholeValue| v@) == spec_whole_map_of(items@),
{
    let mut r: ParsedWholeMap = HashMap::new();
    let mut i: usize = 0;
    proof {
        assert(r@.map_values(|v: ParsedWholeValue| v@) =~= spec_whole_map_of(items@.take(0)));
    }
    while i < items.len()
        invariant
            i <= items.len(),
            spec_whole_map_wf(items@),
            r@.map_values(|v: ParsedWholeValue| v@) == spec_whole_map_of(items@.take(i as int)),
        decreases items.len() - i,
    {
        let item = &items[i];
        proof {
            assert(items@.take(i + 1).drop_last() =~= items@.take(i as int));
            assert(spec_whole_item_wf(items@[i as int]));
        }
        match crate::utils::parse_decimal(item.key.as_str()) {
            Some(k) => {
                let value = match &item.value {
                    WholeValue::Number(n) => ParsedWholeValue::Number(*n),
                    WholeValue::WholeObject(o) => {
                        let v = hashset_of(&o.v);
                        let m = build_whole_m(&o.m);
                        ParsedWholeValue::WholeObject(ParsedWholeObject { v, m })
                    },
                };
                proof {
                    lemma_map_values_insert(r@, |v: ParsedWholeValue| v@, k, value);
                    assert(value@ == spec_whole_value_of(items@[i as int].value));
                }
                r.insert(k, value);
            },
            None => {
                proof {
                    assert(false);
                }
            },
        }
        i += 1;
    }
    proof {
        assert(items@.take(items@.len() as int) =~= items@);
    }
    r
}

/// Builds the parsed groups, in document order.
fn build_groups(items: &Vec<Group>) -> (r: Vec<ParsedGroup>)
    ensures
        r@.map_values(|g: ParsedGroup| g@) == items@.map_values(|g: Group| spec_parsed_group_of(g)),
{
    let mut r: Vec<ParsedGroup> = Vec::new();
    let mut i: usize = 0;
    while i < items.len()
        invariant
            i <= items.len(),
            r@.map_values(|g: ParsedGroup| g@) == items@.take(i as int).map_values(
                |g: Group| spec_parsed_group_of(g),
            ),
        decreases items.len() - i,
    {
        let pg = ParsedGroup::from_group(&items[i]);
        proof {
            assert(items@.take(i + 1) =~= items@.take(i as int).push(items@[i as int]));
            items@.take(i as int).lemma_push_map_commute(
                |g: Group| spec_parsed_group_of(g),
                items@[i as int],
            );
            r@.lemma_push_map_commute(|g: ParsedGroup| g@, pg);
        }
        r.push(pg);
        i += 1;
    }
    proof {
        assert(items@.take(items@.len() as int) =~= items@);
    }
    r
}

/// The decomposition closure of the first `n` elements of a code-point list.
pub open spec fn spec_decomp_ext_upto(all: Seq<u32>, d: Map<u32, Seq<u32>>, n: int) -> Set<u32> {
    Set::new(
        |x: u32|
            exists|j: int| 0 <= j < n && d.contains_key(#[trigger] all[j]) && d[all[j]].contains(x),
    )
}

/// Builds the valid set from the groups and the decomposition table.
fn build_valid(items: &Vec<Group>, decomp: &HashMap<u32, Vec<u32>>) -> (r: HashSet<u32>)
    ensures
        r@ == spec_valid_set(items@, decomp@.map_values(|v: Vec<u32>| v@)),
{
    let ghost d_map = decomp@.map_values(|v: Vec<u32>| v@);
    let mut all: Vec<u32> = Vec::new();
    let mut i: usize = 0;
    while i < items.len()
        invariant
            i <= items.len(),
            all@ == spec_group_cps(items@.take(i as int)),
        decreases items.len() - i,
    {
        let g = &items[i];
        proof {
            assert(items@.take(i + 1).drop_last() =~= items@.take(i as int));
        }
        extend_cps(&mut all, &g.primary);
        extend_cps(&mut all, &g.secondary);
        i += 1;
    }
    proof {
        assert(items@.take(items@.len() as int) =~= items@);
    }
    let ghost all_seq = all@;
    let mut valid = hashset_of(&all);
    let mut i: usize = 0;
    while i < all.len()
        invariant
            i <= all.len(),
            all@ == all_seq,
            d_map == decomp@.map_values(|v: Vec<u32>| v@),
            valid@ == all_seq.to_set().union(spec_decomp_ext_upto(all_seq, d_map, i as int)),
        decreases all.len() - i,
    {
        match decomp.get(&all[i]) {
            Some(d) => {
                proof {
                    assert(d_map.contains_key(all_seq[i as int]));
                    assert(d_map[all_seq[i as int]] == d@);
                }
                let mut k: usize = 0;
                while k < d.len()
                    invariant
                        k <= d.len(),
                        all@ == all_seq,
                        i < all_seq.len(),
                        d_map.contains_key(all_seq[i as int]),
                        d_map[all_seq[i as int]] == d@,
                        valid@ == all_seq.to_set().union(
                            spec_decomp_ext_upto(all_seq, d_map, i as int),
                        ).union(d@.take(k as int).to_set()),
                    decreases d.len() - k,
                {
                    proof {
                        lemma_take_to_set_insert(d@, k as int);
                    }
                    valid.insert(d[k]);
                    proof {
                        assert(valid@ =~= all_seq.to_set().union(
                            spec_decomp_ext_upto(all_seq, d_map, i as int),
                        ).union(d@.take(k + 1).to_set()));
                    }
                    k += 1;
                }
                proof {
                    assert(d@.take(d@.len() as int) =~= d@);
                    assert forall|x: u32|
                        spec_decomp_ext_upto(all_seq, d_map, i + 1).contains(x) implies
                        spec_decomp_ext_upto(all_seq, d_map, i as int).contains(x)
                        || d@.to_set().contains(x) by {
                        let j = choose|j: int|
                            0 <= j < i + 1 && d_map.contains_key(#[trigger] all_seq[j])
                                && d_map[all_seq[j]].contains(x);
                        if j == i {
                            assert(d@.contains(x));
                        }
                    }
                    assert(valid@ =~= all_seq.to_set().union(
                        spec_decomp_ext_upto(all_seq, d_map, i + 1),
                    ));
                }
            },
            None => {
                proof {
                    assert(!d_map.contains_key(all_seq[i as int]));
                    assert(spec_decomp_ext_upto(all_seq, d_map, i + 1)
                        =~= spec_decomp_ext_upto(all_seq, d_map, i as int));
                }
            },
        }
        i += 1;
    }
    proof {
        assert(valid@ =~= spec_valid_set(items@, d_map));
    }
    valid
}

/// Builds the emoji dictionary, in document order.
fn build_emoji(items: &Vec<Vec<u32>>) -> (r: Vec<EmojiForm>)
    ensures
        r@.map_values(|f: EmojiForm| f.pretty@) == items@.map_values(|e: Vec<u32>| e@),
        forall|i: int|
            0 <= i < r@.len() ==> (#[trigger] r@[i].no_fe0f)@ == filter_fe0f_seq(r@[i].pretty@),
{
    let mut r: Vec<EmojiForm> = Vec::new();
    let mut i: usize = 0;
    while i < items.len()
        invariant
            i <= items.len(),
            r@.map_values(|f: EmojiForm| f.pretty@) == items@.take(i as int).map_values(
                |e: Vec<u32>| e@,
            ),
            forall|j: int|
                0 <= j < r@.len() ==> (#[trigger] r@[j].no_fe0f)@ == filter_fe0f_seq(r@[j].pretty@),
        decreases items.len() - i,
    {
        let e = &items[i];
        let form = EmojiForm { pretty: crate::tokens::copy_cps(e), no_fe0f: filter_fe0f(e) };
        proof {
            assert(items@.take(i + 1) =~= items@.take(i as int).push(items@[i as int]));
            items@.take(i as int).lemma_push_map_commute(|e: Vec<u32>| e@, items@[i as int]);
            r@.lemma_push_map_commute(|f: EmojiForm| f.pretty@, form);
        }
        r.push(form);
        i += 1;
    }
    proof {
        assert(items@.take(items@.len() as int) =~= items@);
    }
    r
}

/// True when every key of the whole map, and of the `m` maps inside it, is
/// a decimal numeral that fits in 32 bits; [`CodePointsSpecs::new`] requires
/// this of its input.
pub fn whole_map_keys_parse(spec: &Spec) -> (r: bool)
    ensures
        r == spec_whole_map_wf(spec.whole_map@),
{
    let items = &spec.whole_map;
    let mut i: usize = 0;
    while i < items.len()
        invariant
            i <= items.len(),
            items@ == spec.whole_map@,
            forall|j: int| 0 <= j < i ==> #[trigger] spec_whole_item_wf(items@[j]),
        decreases items.len() - i,
    {
        let item = &items[i];
        if crate::utils::parse_decimal(item.key.as_str()).is_none() {
            proof {
                assert_by_contradiction!(!spec_whole_map_wf(spec.whole_map@), {
                    assert(spec_whole_item_wf(items@[i as int]));
                });
            }
            return false;
        }
        match &item.value {
            WholeValue::WholeObject(o) => {
                let mut k: usize = 0;
                while k < o.m.len()
                    invariant
                        k <= o.m.len(),
                        i < items@.len(),
                        items@ == spec.whole_map@,
                        items@[i as int].value == WholeValue::WholeObject(*o),
                        forall|j: int|
                            0 <= j < k ==> spec_parse_u32(#[trigger] o.m@[j].key@) is Some,
                    decreases o.m.len() - k,
                {
                    if crate::utils::parse_decimal(o.m[k].key.as_str()).is_none() {
                        proof {
                            assert_by_contradiction!(!spec_whole_map_wf(spec.whole_map@), {
                                assert(spec_whole_item_wf(items@[i as int]));
                                assert(spec_whole_value_wf(items@[i as int].value));
                                assert(spec_parse_u32(o.m@[k as int].key@) is Some);
                            });
                        }
                        return false;
                    }
                    k += 1;
                }
                proof {
                    assert(o.m@.take(o.m@.len() as int) =~= o.m@);
                    assert(spec_whole_value_wf(items@[i as int].value));
                }
            },
            WholeValue::Number(_) => {
                proof {
                    assert(spec_whole_value_wf(items@[i as int].value));
                }
            },
        }
        proof {
            assert(spec_whole_item_wf(items@[i as int]));
        }
        i += 1;
    }
    true
}

impl CodePointsSpecs {
    /// Builds every derived table from the two raw documents.
    pub fn new(spec: Spec, nf: NfJson) -> (r: Self)
        requires
            spec_whole_map_wf(spec.whole_map@),
        ensures
            r@ == spec_specs_of(spec, nf),
    {
        let decomp = build_decomp(&nf.decomp);
        let r = CodePointsSpecs {
            cm: hashset_of(&spec.cm),
            ignored: hashset_of(&spec.ignored),
            mapped: build_mapped(&spec.mapped),
            nfc_check: hashset_of(&spec.nfc_check),
            whole_map: build_whole_map(&spec.whole_map),
            fenced: build_fenced(&spec.fenced),
            groups: build_groups(&spec.groups),
            valid: build_valid(&spec.groups, &decomp),
            nsm: hashset_of(&spec.nsm),
            nsm_max: spec.nsm_max,
            emoji_forms: build_emoji(&spec.emoji),
            decomp,
        };
        r
    }

    /// The rewrite for a code point, if the tables map it.
    pub fn get_mapping(&self, cp: u32) -> (r: Option<&Vec<u32>>)
        ensures
            match r {
                Some(v) => self@.mapped.contains_key(cp) && v@ == self@.mapped[cp],
                None => !self@.mapped.contains_key(cp),
            },
    {
        self.mapped.get(&cp)
    }

    /// Same as [`Self::get_mapping`].
    pub fn maybe_normalize(&self, cp: u32) -> (r: Option<&Vec<u32>>)
        ensures
            match r {
                Some(v) => self@.mapped.contains_key(cp) && v@ == self@.mapped[cp],
                None => !self@.mapped.contains_key(cp),
            },
    {
        self.mapped.get(&cp)
    }

    /// True when any code point of the sequence requires an NFC check.
    pub fn cps_requires_check(&self, cps: &Vec<u32>) -> (r: bool)
        ensures
            r == exists|i: int| 0 <= i < cps@.len() && self@.nfc_check.contains(#[trigger] cps@[i]),
    {
        let mut i: usize = 0;
        while i < cps.len()
            invariant
                i <= cps.len(),
                forall|j: int| 0 <= j < i ==> !self@.nfc_check.contains(#[trigger] cps@[j]),
            decreases cps.len() - i,
        {
            if self.nfc_check.contains(&cps[i]) {
                return true;
            }
            i += 1;
        }
        false
    }

    /// True when the code point is valid.
    pub fn is_valid(&self, cp: u32) -> (r: bool)
        ensures
            r == self@.valid.contains(cp),
    {
        self.valid.contains(&cp)
    }

    /// True when the code point is ignored.
    pub fn is_ignored(&self, cp: u32) -> (r: bool)
        ensures
            r == self@.ignored.contains(cp),
    {
        self.ignored.contains(&cp)
    }

    /// True for the label separator.
    pub fn is_stop(&self, cp: u32) -> (r: bool)
        ensures
            r == (cp == CP_STOP),
    {
        cp == CP_STOP
    }

    /// True when the code point is fenced.
    pub fn is_fenced(&self, cp: u32) -> (r: bool)
        ensures
            r == self@.fenced.contains(cp),
    {
        self.fenced.contains_key(&cp)
    }

    /// True when the code point is a combining mark.
    pub fn is_cm(&self, cp: u32) -> (r: bool)
        ensures
            r == self@.cm.contains(cp),
    {
        self.cm.contains(&cp)
    }

    /// True when the code point is a non-spacing mark.
    pub fn is_nsm(&self, cp: u32) -> (r: bool)
        ensures
            r == self@.nsm.contains(cp),
    {
        self.nsm.contains(&cp)
    }

    /// The longest run of non-spacing marks a label may contain.
    pub fn nsm_max(&self) -> (r: u32)
        ensures
            r == self@.nsm_max,
    {
        self.nsm_max
    }

    /// The canonical decomposition of a code point, if it has one.
    pub fn decompose(&self, cp: u32) -> (r: Option<&Vec<u32>>)
        ensures
            match r {
                Some(v) => self@.decomp.contains_key(cp) && v@ == self@.decomp[cp],
                None => !self@.decomp.contains_key(cp),
            },
    {
        self.decomp.get(&cp)
    }

    /// The whole-script confusable entry of a code point, if it has one.
    pub fn whole_map(&self, cp: u32) -> (r: Option<&ParsedWholeValue>)
        ensures
            match r {
                Some(v) => self@.whole_map.contains_key(cp) && v@ == self@.whole_map[cp],
                None => !self@.whole_map.contains_key(cp),
            },
    {
        self.whole_map.get(&cp)
    }

    /// How many groups the tables define.
    pub fn num_groups(&self) -> (r: usize)
        ensures
            r == self@.groups.len(),
    {
        self.groups.len()
    }

    /// The group at an index, in document order.
    pub fn group_at(&self, i: usize) -> (r: &ParsedGroup)
        requires
            i < self@.groups.len(),
        ensures
            r@ == self@.groups[i as int],
    {
        &self.groups[i]
    }

    /// The first group with the given name, if any.
    pub fn group_by_name(&self, name: &GroupName) -> (r: Option<&ParsedGroup>)
        ensures
            match r {
                Some(g) => spec_first_group_named(self@.groups, name@, 0) matches Some(j) && g@
                    == self@.groups[j],
                None => spec_first_group_named(self@.groups, name@, 0) is None,
            },
    {
        let mut i: usize = 0;
        while i < self.groups.len()
            invariant
                i <= self@.groups.len(),
                spec_first_group_named(self@.groups, name@, 0) == spec_first_group_named(
                    self@.groups,
                    name@,
                    i as int,
                ),
            decreases self@.groups.len() - i,
        {
            let g = &self.groups[i];
            if g.name == *name {
                return Some(g);
            }
            i += 1;
        }
        None
    }

    /// The indices, in document order, of the groups that contain every code
    /// point of the sequence.
    pub fn groups_for_cps(&self, cps: &Vec<u32>) -> (r: Vec<usize>)
        ensures
            forall|k: int|
                0 <= k < r@.len() ==> (#[trigger] r@[k]) < self@.groups.len(),
            r@.map_values(|i: usize| i as int) == spec_group_indices_for(self@.groups, cps@),
    {
        let mut r: Vec<usize> = Vec::new();
        let mut i: usize = 0;
        while i < self.groups.len()
            invariant
                i <= self@.groups.len(),
                forall|k: int| 0 <= k < r@.len() ==> (#[trigger] r@[k]) < self@.groups.len(),
                r@.map_values(|i: usize| i as int) == spec_group_indices_upto(
                    self@.groups,
                    cps@,
                    i as int,
                ),
            decreases self@.groups.len() - i,
        {
            let g = &self.groups[i];
            if g.contains_all_cps(cps) {
                proof {
                    r@.lemma_push_map_commute(|i: usize| i as int, i);
                }
                r.push(i);
            }
            i += 1;
        }
        r
    }
}

/// The indices of the groups among the first `n` that contain every code
/// point of `cps`.
pub open spec fn spec_group_indices_upto(
    groups: Seq<ParsedGroupV>,
    cps: Seq<u32>,
    n: int,
) -> Seq<int>
    decreases n,
{
    if n <= 0 {
        Seq::empty()
    } else {
        let rest = spec_group_indices_upto(groups, cps, n - 1);
        if group_contains_all(groups[n - 1], cps) {
            rest.push(n - 1)
        } else {
            rest
        }
    }
}

/// The indices of the groups that contain every code point of `cps`.
pub open spec fn spec_group_indices_for(groups: Seq<ParsedGroupV>, cps: Seq<u32>) -> Seq<int> {
    spec_group_indices_upto(groups, cps, groups.len() as int)
}

/// Every code point of the sequence belongs to the group.
pub open spec fn group_contains_all(g: ParsedGroupV, cps: Seq<u32>) -> bool {
    forall|i: int| 0 <= i < cps.len() ==> group_contains(g, #[trigger] cps[i])
}

/// Matches a pretty emoji form against the input from position `ii` on,
/// treating every U+FE0F of the form as optional (consumed greedily when
/// present); returns the input position after the match.
pub open spec fn spec_fe0f_match_from(
    pretty: Seq<u32>,
    input: Seq<u32>,
    pi: int,
    ii: int,
) -> Option<int>
    decreases pretty.len() - pi,
{
    if pi < 0 || ii < 0 || pi > pretty.len() || ii > input.len() {
        None
    } else if pi == pretty.len() {
        Some(ii)
    } else if pretty[pi] == CP_FE0F {
        if ii < input.len() && input[ii] == CP_FE0F {
            spec_fe0f_match_from(pretty, input, pi + 1, ii + 1)
        } else {
            spec_fe0f_match_from(pretty, input, pi + 1, ii)
        }
    } else if ii < input.len() && input[ii] == pretty[pi] {
        spec_fe0f_match_from(pretty, input, pi + 1, ii + 1)
    } else {
        None
    }
}

/// The length of an emoji form without its U+FE0F code points; matches are
/// ranked by this length.
pub open spec fn no_fe0f_len(e: Seq<u32>) -> nat {
    filter_fe0f_seq(e).len()
}

/// The best emoji match at a position: the first emoji, among those of
/// maximal length without U+FE0F, whose optional-FE0F form matches at least
/// one code point there. Returns the emoji's index and the end position.
pub open spec fn spec_best_emoji_at(
    emojis: Seq<Seq<u32>>,
    input: Seq<u32>,
    start: int,
) -> Option<(int, int)>
    decreases emojis.len(),
{
    if emojis.len() == 0 {
        None
    } else {
        let prev = spec_best_emoji_at(emojis.drop_last(), input, start);
        let i = emojis.len() - 1;
        match spec_fe0f_match_from(emojis[i], input, 0, start) {
            Some(end) => {
                if end > start && (match prev {
                    Some(p) => no_fe0f_len(emojis[i]) > no_fe0f_len(emojis[p.0]),
                    None => true,
                }) {
                    Some((i, end))
                } else {
                    prev
                }
            },
            None => prev,
        }
    }
}

/// Bounds of a successful optional-FE0F match.
pub proof fn lemma_fe0f_match_bounds(pretty: Seq<u32>, input: Seq<u32>, pi: int, ii: int)
    requires
        spec_fe0f_match_from(pretty, input, pi, ii) is Some,
    ensures
        ii <= spec_fe0f_match_from(pretty, input, pi, ii)->Some_0 <= input.len(),
    decreases pretty.len() - pi,
{
    if pi < 0 || ii < 0 || pi > pretty.len() || ii > input.len() {
    } else if pi == pretty.len() {
    } else if pretty[pi] == CP_FE0F {
        if ii < input.len() && input[ii] == CP_FE0F {
            lemma_fe0f_match_bounds(pretty, input, pi + 1, ii + 1);
        } else {
            lemma_fe0f_match_bounds(pretty, input, pi + 1, ii);
        }
    } else if ii < input.len() && input[ii] == pretty[pi] {
        lemma_fe0f_match_bounds(pretty, input, pi + 1, ii + 1);
    }
}

/// What a successful best-match result guarantees: the index is in range,
/// the match is the one reported, and it consumes at least one code point.
pub proof fn lemma_best_emoji_at(emojis: Seq<Seq<u32>>, input: Seq<u32>, start: int)
    requires
        spec_best_emoji_at(emojis, input, start) is Some,
    ensures
        ({
            let (j, end) = spec_best_emoji_at(emojis, input, start)->Some_0;
            &&& 0 <= j < emojis.len()
            &&& spec_fe0f_match_from(emojis[j], input, 0, start) == Some(end)
            &&& start < end <= input.len()
        }),
    decreases emojis.len(),
{
    if emojis.len() > 0 {
        let i = emojis.len() - 1;
        if spec_best_emoji_at(emojis.drop_last(), input, start) is Some {
            lemma_best_emoji_at(emojis.drop_last(), input, start);
            let (j, end) = spec_best_emoji_at(emojis.drop_last(), input, start)->Some_0;
            assert(emojis.drop_last()[j] == emojis[j]);
        }
        match spec_fe0f_match_from(emojis[i], input, 0, start) {
            Some(end) => {
                lemma_fe0f_match_bounds(emojis[i], input, 0, start);
            },
            None => {},
        }
    }
}

/// The index of the first emoji at or after `i` whose form without U+FE0F
/// is exactly `cps`.
pub open spec fn spec_pretty_for_no_fe0f(emojis: Seq<Seq<u32>>, cps: Seq<u32>, i: int) -> Option<
    int,
>
    decreases emojis.len() - i,
{
    if i < 0 || i >= emojis.len() {
        None
    } else if filter_fe0f_seq(emojis[i]) == cps {
        Some(i)
    } else {
        spec_pretty_for_no_fe0f(emojis, cps, i + 1)
    }
}

/// Matches one pretty form at a position of the input, FE0F optional.
fn fe0f_match_at(pretty: &Vec<u32>, input: &Vec<u32>, start: usize) -> (r: Option<usize>)
    requires
        start <= input@.len(),
    ensures
        match r {
            Some(e) => spec_fe0f_match_from(pretty@, input@, 0, start as int) == Some(e as int),
            None => spec_fe0f_match_from(pretty@, input@, 0, start as int) is None,
        },
{
    let mut pi: usize = 0;
    let mut ii: usize = start;
    while pi < pretty.len()
        invariant
            pi <= pretty@.len(),
            start <= ii <= input@.len(),
            spec_fe0f_match_from(pretty@, input@, 0, start as int) == spec_fe0f_match_from(
                pretty@,
                input@,
                pi as int,
                ii as int,
            ),
        decreases pretty@.len() - pi,
    {
        if pretty[pi] == CP_FE0F {
            if ii < input.len() && input[ii] == CP_FE0F {
                ii += 1;
            }
            pi += 1;
        } else if ii < input.len() && input[ii] == pretty[pi] {
            ii += 1;
            pi += 1;
        } else {
            return None;
        }
    }
    Some(ii)
}

/// Compares two code-point lists for equality.
fn cps_eq(a: &Vec<u32>, b: &Vec<u32>) -> (r: bool)
    ensures
        r == (a@ == b@),
{
    if a.len() != b.len() {
        proof {
            assert(a@.len() != b@.len());
        }
        return false;
    }
    let mut i: usize = 0;
    while i < a.len()
        invariant
            i <= a@.len(),
            a@.len() == b@.len(),
            forall|j: int| 0 <= j < i ==> a@[j] == b@[j],
        decreases a@.len() - i,
    {
        if a[i] != b[i] {
            proof {
                assert(a@[i as int] != b@[i as int]);
            }
            return false;
        }
        i += 1;
    }
    proof {
        assert(a@ =~= b@);
    }
    true
}

impl CodePointsSpecs {
    /// The best emoji match at a position of the input: longest bare form
    /// first, earliest in the dictionary on ties.
    pub fn best_emoji_at(&self, input: &Vec<u32>, start: usize) -> (r: Option<(usize, usize)>)
        requires
            start <= input@.len(),
        ensures
            match r {
                Some(je) => spec_best_emoji_at(self@.emojis, input@, start as int) == Some(
                    (je.0 as int, je.1 as int),
                ),
                None => spec_best_emoji_at(self@.emojis, input@, start as int) is None,
            },
    {
        proof {
            use_type_invariant(self);
        }
        let ghost emojis = self@.emojis;
        let mut best: Option<(usize, usize)> = None;
        let mut best_key: usize = 0;
        let mut i: usize = 0;
        proof {
            assert(emojis.take(0) =~= Seq::<Seq<u32>>::empty());
        }
        while i < self.emoji_forms.len()
            invariant
                i <= self.emoji_forms@.len(),
                start <= input@.len(),
                emojis == self@.emojis,
                emojis == self.emoji_forms@.map_values(|f: EmojiForm| f.pretty@),
                forall|j: int|
                    0 <= j < self.emoji_forms@.len() ==> (
                    #[trigger] self.emoji_forms@[j].no_fe0f)@ == filter_fe0f_seq(
                        self.emoji_forms@[j].pretty@,
                    ),
                match best {
                    Some(je) => {
                        &&& spec_best_emoji_at(emojis.take(i as int), input@, start as int)
                            == Some((je.0 as int, je.1 as int))
                        &&& je.0 < i
                        &&& best_key == no_fe0f_len(emojis[je.0 as int])
                    },
                    None => spec_best_emoji_at(emojis.take(i as int), input@, start as int)
                        is None,
                },
            decreases self.emoji_forms@.len() - i,
        {
            proof {
                assert(emojis.take(i + 1).drop_last() =~= emojis.take(i as int));
                assert(emojis.take(i + 1).last() == emojis[i as int]);
                assert(emojis[i as int] == self.emoji_forms@[i as int].pretty@);
            }
            let form = &self.emoji_forms[i];
            match fe0f_match_at(&form.pretty, input, start) {
                Some(end) => {
                    let key = form.no_fe0f.len();
                    proof {
                        assert(key == no_fe0f_len(emojis[i as int]));
                    }
                    if end > start {
                        let better = match best {
                            Some(_) => key > best_key,
                            None => true,
                        };
                        if better {
                            best = Some((i, end));
                            best_key = key;
                        }
                    }
                },
                None => {},
            }
            i += 1;
        }
        proof {
            assert(emojis.take(emojis.len() as int) =~= emojis);
        }
        best
    }

    /// True when the whole sequence is one emoji under optional-FE0F
    /// matching.
    pub fn cps_is_emoji(&self, cps: &Vec<u32>) -> (r: bool)
        ensures
            r == spec_cps_is_emoji(self@, cps@),
    {
        match self.best_emoji_at(cps, 0) {
            Some((_, end)) => end == cps.len(),
            None => false,
        }
    }

    /// The pretty form of the first emoji whose bare form is exactly `cps`.
    pub fn cps_emoji_no_fe0f_to_pretty(&self, cps: &Vec<u32>) -> (r: Option<Vec<u32>>)
        ensures
            match r {
                Some(v) => spec_pretty_for_no_fe0f(self@.emojis, cps@, 0) matches Some(j) && v@
                    == self@.emojis[j],
                None => spec_pretty_for_no_fe0f(self@.emojis, cps@, 0) is None,
            },
    {
        proof {
            use_type_invariant(self);
        }
        let ghost emojis = self@.emojis;
        let mut i: usize = 0;
        while i < self.emoji_forms.len()
            invariant
                i <= self.emoji_forms@.len(),
                emojis == self@.emojis,
                emojis == self.emoji_forms@.map_values(|f: EmojiForm| f.pretty@),
                forall|j: int|
                    0 <= j < self.emoji_forms@.len() ==> (
                    #[trigger] self.emoji_forms@[j].no_fe0f)@ == filter_fe0f_seq(
                        self.emoji_forms@[j].pretty@,
                    ),
                spec_pretty_for_no_fe0f(emojis, cps@, 0) == spec_pretty_for_no_fe0f(
                    emojis,
                    cps@,
                    i as int,
                ),
            decreases self.emoji_forms@.len() - i,
        {
            let form = &self.emoji_forms[i];
            if cps_eq(&form.no_fe0f, cps) {
                proof {
                    assert(filter_fe0f_seq(emojis[i as int]) == cps@);
                }
                return Some(crate::tokens::copy_cps(&form.pretty));
            }
            proof {
                assert(filter_fe0f_seq(emojis[i as int]) != cps@);
            }
            i += 1;
        }
        None
    }
}

/// The whole sequence is one emoji under optional-FE0F matching.
pub open spec fn spec_cps_is_emoji(specs: SpecsV, cps: Seq<u32>) -> bool {
    match spec_best_emoji_at(specs.emojis, cps, 0) {
        Some(je) => je.1 == cps.len(),
        None => false,
    }
}

/// The first group at or after index `i` with the given name.
pub open spec fn spec_first_group_named(
    groups: Seq<ParsedGroupV>,
    name: GroupNameV,
    i: int,
) -> Option<int>
    decreases groups.len() - i,
{
    if i < 0 || i >= groups.len() {
        None
    } else if gn_eq(groups[i].name, name) {
        Some(i)
    } else {
        spec_first_group_named(groups, name, i + 1)
    }
}

} // verus!
