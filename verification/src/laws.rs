//! Laws of the parsing and normalization algorithms, stated over the parser
//! model and proved against `spec_parse` and `spec_normalize`. Through the
//! contracts of `AddressParser::parse` and `AddressParser::normalize` they
//! hold of the executable functions.

use vstd::prelude::*;
use crate::data::{
    is_municipality_name, spec_validate_district, wf_index_model, index_model, index_step,
    seq_add_unique, IndexModel,
};
use crate::parser::{
    ParserModel, spec_parse, spec_normalize, spec_prefer_district, ends_in_district_suffix,
    city_trie_fold, spec_validate_flexible, flex_match,
};
use crate::region::{ParsedView, RegionView};
use crate::text::{
    spec_trim, spec_trim_end, spec_ends_with, is_whitespace_char, lemma_first_non_ws,
    lemma_last_non_ws,
};
use crate::trie::spec_longest;

verus! {

/// Every value of the city matcher is a canonical city.
pub proof fn lemma_city_fold_values(cs: Seq<Seq<char>>, k: Seq<char>)
    requires
        city_trie_fold(cs).dom().contains(k),
    ensures
        cs.contains(city_trie_fold(cs)[k]),
    decreases cs.len(),
{
    if cs.len() > 0 {
        let prev = city_trie_fold(cs.drop_last());
        if city_trie_fold(cs)[k] == cs.last() {
            assert(cs.contains(cs.last()));
        } else {
            lemma_city_fold_values(cs.drop_last(), k);
            let v = city_trie_fold(cs.drop_last())[k];
            let j = choose|j: int| 0 <= j < cs.drop_last().len() && cs.drop_last()[j] == v;
            assert(cs[j] == v);
        }
    }
}

/// Recovery of a canonical triple: when the input is the trimmed concatenation
/// of a registered province, one of its cities, one of that city's districts
/// and a remainder, and each matcher resolves its own segment exactly, parsing
/// returns exactly that triple with the trimmed remainder as the detail.
pub proof fn lemma_parse_recovers_triple(
    m: ParserModel,
    p: Seq<char>,
    c: Seq<char>,
    d: Seq<char>,
    rest: Seq<char>,
)
    requires
        spec_trim(p + c + d + rest) == p + c + d + rest,
        spec_longest(m.province_trie, p + c + d + rest) == Some((p, p)),
        !is_municipality_name(p),
        spec_longest(m.city_trie, c + d + rest) == Some((c, c)),
        m.index.city_to_province.dom().contains(c),
        m.index.city_to_province[c] == p,
        spec_longest(m.district_trie, d + rest) == Some((d, d)),
        spec_validate_district(m.index, c, d),
    ensures
        spec_parse(m, p + c + d + rest) == (ParsedView {
            province: Some(p),
            city: Some(c),
            district: Some(d),
            detail: spec_trim_end(rest),
        }),
{
    let t = p + c + d + rest;
    crate::trie::lemma_longest_props(m.province_trie, t);
    assert(t.len() > 0);
    assert(t.skip(p.len() as int) =~= c + d + rest);
    let rem1 = c + d + rest;
    crate::trie::lemma_longest_props(m.city_trie, rem1);
    assert(!spec_prefer_district(
        Some(p),
        spec_longest(m.city_trie, rem1),
        spec_longest(m.district_trie, rem1),
    ));
    assert(rem1.skip(c.len() as int) =~= d + rest);
    let rem2 = d + rest;
    crate::trie::lemma_longest_props(m.district_trie, rem2);
    assert(rem2.skip(d.len() as int) =~= rest);
    assert(spec_parse(m, t) =~= (ParsedView {
        province: Some(p),
        city: Some(c),
        district: Some(d),
        detail: spec_trim_end(rest),
    }));
}

/// Idempotence of normalization on canonical input: a registered province that
/// is not an alias short name, a registered city and a registered district
/// normalize to their plain concatenation.
pub proof fn lemma_normalize_canonical(
    m: ParserModel,
    p: Seq<char>,
    c: Seq<char>,
    d: Option<Seq<char>>,
)
    requires
        !m.aliases.dom().contains(p),
        m.index.provinces.contains(p),
        m.index.cities.contains(c),
        match d {
            Some(d0) => m.index.districts.contains(d0),
            None => true,
        },
    ensures
        spec_normalize(m, p, c, d) == p + c + (match d {
            Some(d0) => d0,
            None => Seq::<char>::empty(),
        }),
{
}

/// Idempotence of normalization at the built-in parser, with the alias
/// exclusion discharged: no canonical province of the built-in gazetteer is an
/// alias short name, so canonical names normalize to their plain
/// concatenation with no further hypothesis.
pub proof fn lemma_builtin_normalize_canonical(p: Seq<char>, c: Seq<char>, d: Option<Seq<char>>)
    requires
        crate::parser::builtin_parser_model().index.provinces.contains(p),
        crate::parser::builtin_parser_model().index.cities.contains(c),
        match d {
            Some(d0) => crate::parser::builtin_parser_model().index.districts.contains(d0),
            None => true,
        },
    ensures
        spec_normalize(crate::parser::builtin_parser_model(), p, c, d) == p + c + (match d {
            Some(d0) => d0,
            None => Seq::<char>::empty(),
        }),
{
    crate::data::lemma_builtin_provinces_not_aliases();
    lemma_normalize_canonical(crate::parser::builtin_parser_model(), p, c, d);
}

/// Abbreviation equivalence: when the province matcher resolves an alias short
/// name to its canonical province, and resolves the canonical name to itself,
/// parsing the short form and the full form followed by the same remainder
/// yields the same result, and in particular the same province.
pub proof fn lemma_alias_equivalence(
    m: ParserModel,
    short: Seq<char>,
    full: Seq<char>,
    rest: Seq<char>,
)
    requires
        spec_trim(short + rest) == short + rest,
        spec_trim(full + rest) == full + rest,
        spec_longest(m.province_trie, short + rest) == Some((short, full)),
        spec_longest(m.province_trie, full + rest) == Some((full, full)),
    ensures
        spec_parse(m, short + rest) == spec_parse(m, full + rest),
        spec_parse(m, short + rest).province == spec_parse(m, full + rest).province,
{
    let ts = short + rest;
    let tf = full + rest;
    crate::trie::lemma_longest_props(m.province_trie, ts);
    crate::trie::lemma_longest_props(m.province_trie, tf);
    assert(ts.len() > 0);
    assert(tf.len() > 0);
    assert(ts.skip(short.len() as int) =~= rest);
    assert(tf.skip(full.len() as int) =~= rest);
}

/// Ambiguity safety: a district name with two or more owner pairs, matched
/// with no province context and outranking any city interpretation, is
/// returned alone: province and city stay unresolved.
pub proof fn lemma_ambiguous_district(m: ParserModel, d: Seq<char>)
    requires
        spec_trim(d) == d,
        d.len() >= 1,
        spec_longest(m.province_trie, d) is None,
        spec_longest(m.district_trie, d) == Some((d, d)),
        m.index.district_to_city.dom().contains(d),
        m.index.district_to_city[d].len() >= 2,
        match spec_longest(m.city_trie, d) {
            Some((cm, cv)) => d.len() > cm.len() || ends_in_district_suffix(d),
            None => true,
        },
    ensures
        spec_parse(m, d) == (ParsedView {
            province: None,
            city: None,
            district: Some(d),
            detail: Seq::<char>::empty(),
        }),
{
    crate::trie::lemma_longest_props(m.district_trie, d);
    assert(spec_prefer_district(
        None,
        spec_longest(m.city_trie, d),
        spec_longest(m.district_trie, d),
    ));
    assert(d.skip(d.len() as int) =~= Seq::<char>::empty());
    lemma_last_non_ws(Seq::<char>::empty(), 0, 0);
    assert(spec_trim_end(Seq::<char>::empty()) =~= Seq::<char>::empty());
}

/// The municipality invariant of one result: a resolved municipality province
/// implies the city is that same municipality.
pub open spec fn muni_city_coherent(v: ParsedView) -> bool {
    match v.province {
        Some(p) => is_municipality_name(p) ==> v.city == Some(p),
        None => true,
    }
}

proof fn lemma_find_owner_muni(owners: Seq<(Seq<char>, Seq<char>)>, p: Seq<char>)
    requires
        forall|k: int|
            #![trigger owners[k]]
            (0 <= k < owners.len() && is_municipality_name(owners[k].0)) ==> owners[k].1
                == owners[k].0,
    ensures
        match crate::parser::find_owner_city(owners, p) {
            Some(c2) => is_municipality_name(p) ==> c2 == p,
            None => true,
        },
    decreases owners.len(),
{
    if owners.len() > 0 && owners[0].0 != p {
        assert(forall|k: int|
            #![trigger owners.skip(1)[k]]
            (0 <= k < owners.skip(1).len() && is_municipality_name(owners.skip(1)[k].0))
                ==> owners.skip(1)[k].1 == owners.skip(1)[k].0) by {
            assert(forall|k: int|
                0 <= k < owners.skip(1).len() ==> #[trigger] owners.skip(1)[k] == owners[k + 1]);
        }
        lemma_find_owner_muni(owners.skip(1), p);
    }
}

proof fn lemma_stage3_muni(
    m: ParserModel,
    province: Option<Seq<char>>,
    city: Option<Seq<char>>,
    rem: Seq<char>,
)
    requires
        wf_index_model(m.index),
        match city {
            Some(c) => m.index.cities.contains(c),
            None => true,
        },
        match province {
            Some(p) => is_municipality_name(p) ==> city == Some(p),
            None => true,
        },
    ensures
        muni_city_coherent(crate::parser::spec_parse_stage3(m, province, city, rem)),
{
    match spec_longest(m.district_trie, rem) {
        Some((dm, dv)) => {
            if city is None && m.index.district_to_city.dom().contains(dv) {
                let owners = m.index.district_to_city[dv];
                if owners.len() == 1 {
                    assert(m.index.district_to_city[dv][0] == owners[0]);
                } else {
                    match province {
                        Some(p) => {
                            assert(forall|k: int|
                                #![trigger owners[k]]
                                (0 <= k < owners.len() && is_municipality_name(owners[k].0))
                                    ==> owners[k].1 == owners[k].0) by {
                                assert(forall|k: int|
                                    0 <= k < owners.len() ==> #[trigger] owners[k]
                                        == m.index.district_to_city[dv][k]);
                            }
                            lemma_find_owner_muni(owners, p);
                        },
                        None => {},
                    }
                }
            }
        },
        None => {},
    }
}

proof fn lemma_stage2_muni(m: ParserModel, province: Option<Seq<char>>, rem: Seq<char>)
    requires
        wf_index_model(m.index),
        forall|k: Seq<char>|
            m.city_trie.dom().contains(k) ==> m.index.cities.contains(#[trigger] m.city_trie[k]),
        match province {
            Some(p) => !is_municipality_name(p),
            None => true,
        },
    ensures
        muni_city_coherent(crate::parser::spec_parse_stage2(m, province, rem)),
{
    let city_match = spec_longest(m.city_trie, rem);
    let district_match = spec_longest(m.district_trie, rem);
    if spec_prefer_district(province, city_match, district_match) {
        match district_match {
            Some((dm, dv)) => {
                if m.index.district_to_city.dom().contains(dv) && m.index.district_to_city[dv].len()
                    == 1 {
                    assert(m.index.district_to_city[dv][0] == m.index.district_to_city[dv][0]);
                }
            },
            None => {
                lemma_stage3_muni(m, province, None, rem);
            },
        }
    } else {
        match city_match {
            Some((cm, cv)) => {
                crate::trie::lemma_longest_props(m.city_trie, rem);
                assert(m.index.cities.contains(cv));
                let valid_city = match province {
                    Some(p) => m.index.city_to_province.dom().contains(cv)
                        && m.index.city_to_province[cv] == p,
                    None => true,
                };
                if valid_city {
                    let province2 = if province is None {
                        if m.index.city_to_province.dom().contains(cv) {
                            Some(m.index.city_to_province[cv])
                        } else {
                            None
                        }
                    } else {
                        province
                    };
                    lemma_stage3_muni(m, province2, Some(cv), rem.skip(cm.len() as int));
                } else {
                    lemma_stage3_muni(m, province, None, rem);
                }
            },
            None => {
                lemma_stage3_muni(m, province, None, rem);
            },
        }
    }
}

/// Municipality invariant: over a well-formed index whose city matcher carries
/// only canonical cities, a resolved municipality province always comes with
/// that municipality as the city.
pub proof fn lemma_municipality_implies_city(m: ParserModel, text: Seq<char>)
    requires
        wf_index_model(m.index),
        forall|k: Seq<char>|
            m.city_trie.dom().contains(k) ==> m.index.cities.contains(#[trigger] m.city_trie[k]),
    ensures
        muni_city_coherent(spec_parse(m, text)),
{
    let t = spec_trim(text);
    if t.len() != 0 {
        match spec_longest(m.province_trie, t) {
            Some((pm, pv)) => {
                let rem = t.skip(pm.len() as int);
                if !is_municipality_name(pv) {
                    lemma_stage2_muni(m, Some(pv), rem);
                }
            },
            None => {
                lemma_stage2_muni(m, None, t);
            },
        }
    }
}

/// Municipality invariant at the built parser: over any parser whose model is
/// determined by a well-formed index, a resolved municipality province always
/// comes with that municipality as the city. `AddressParser::new` establishes
/// both hypotheses.
pub proof fn lemma_parser_municipality(m: ParserModel, text: Seq<char>)
    requires
        wf_index_model(m.index),
        m == crate::parser::spec_parser_from(m.index),
    ensures
        muni_city_coherent(spec_parse(m, text)),
{
    assert forall|k: Seq<char>| m.city_trie.dom().contains(k) implies m.index.cities.contains(
        #[trigger] m.city_trie[k],
    ) by {
        lemma_city_fold_values(m.index.cities, k);
    }
    lemma_municipality_implies_city(m, text);
}

/// Every canonical city has a province entry.
pub open spec fn cities_have_province(idx: IndexModel) -> bool {
    forall|c: Seq<char>|
        #[trigger] idx.cities.contains(c) ==> idx.city_to_province.dom().contains(c)
}

/// Every owner pair of the district map validates, exactly or flexibly,
/// against its own city.
pub open spec fn owners_validate(idx: IndexModel) -> bool {
    forall|d: Seq<char>, k: int|
        #![trigger idx.district_to_city[d][k]]
        (idx.district_to_city.dom().contains(d) && 0 <= k < idx.district_to_city[d].len()) ==> {
            ||| spec_validate_district(idx, idx.district_to_city[d][k].1, d)
            ||| spec_validate_flexible(idx, idx.district_to_city[d][k].1, d)
        }
}

/// The index of any record list gives every canonical city a province entry.
pub proof fn lemma_index_cities_have_province(rs: Seq<RegionView>)
    ensures
        cities_have_province(index_model(rs)),
    decreases rs.len(),
{
    if rs.len() > 0 {
        lemma_index_cities_have_province(rs.drop_last());
        let prev = index_model(rs.drop_last());
        let r = rs.last();
        let cur = index_model(rs);
        assert forall|c: Seq<char>| #[trigger] cur.cities.contains(c)
            implies cur.city_to_province.dom().contains(c) by {
            if !prev.cities.contains(c) {
                assert(seq_add_unique(prev.cities, r.city)[prev.cities.len() as int] == r.city);
                assert(c == r.city);
            }
        }
    }
}

proof fn lemma_validate_monotone(prev: IndexModel, cur: IndexModel, c: Seq<char>, d: Seq<char>)
    requires
        forall|x: Seq<char>|
            prev.city_districts.dom().contains(x) ==> cur.city_districts.dom().contains(x)
                && prev.city_districts[x].is_prefix_of(#[trigger] cur.city_districts[x]),
    ensures
        spec_validate_district(prev, c, d) ==> spec_validate_district(cur, c, d),
        spec_validate_flexible(prev, c, d) ==> spec_validate_flexible(cur, c, d),
{
    if spec_validate_district(prev, c, d) {
        let i = choose|i: int|
            0 <= i < prev.city_districts[c].len() && prev.city_districts[c][i] == d;
        assert(cur.city_districts[c][i] == d);
        assert(cur.city_districts[c].contains(d));
    }
    if spec_validate_flexible(prev, c, d) {
        let k = choose|k: int|
            0 <= k < prev.city_districts[c].len() && flex_match(prev.city_districts[c][k], d);
        assert(flex_match(cur.city_districts[c][k], d));
    }
}

/// One record keeps every owner pair validating against its city.
#[verifier::rlimit(100)]
proof fn lemma_step_owners_validate(prev: IndexModel, r: RegionView)
    requires
        owners_validate(prev),
    ensures
        owners_validate(index_step(prev, r)),
{
    let cur = index_step(prev, r);
    assert forall|x: Seq<char>|
        prev.city_districts.dom().contains(x) implies cur.city_districts.dom().contains(x)
        && prev.city_districts[x].is_prefix_of(#[trigger] cur.city_districts[x]) by {
        assert(prev.city_districts[x].is_prefix_of(prev.city_districts[x]));
        match r.district {
            Some(d0) => {
                if x == r.city {
                    let cl = prev.city_districts[x];
                    assert(cur.city_districts[x] == seq_add_unique(cl, d0));
                    if !cl.contains(d0) {
                        assert(cl.is_prefix_of(cl.push(d0)));
                    }
                }
            },
            None => {},
        }
    }
    match r.district {
        None => {
            assert forall|d: Seq<char>, k: int|
                cur.district_to_city.dom().contains(d) && 0 <= k < cur.district_to_city[d].len()
                implies {
                ||| spec_validate_district(cur, (#[trigger] cur.district_to_city[d][k]).1, d)
                ||| spec_validate_flexible(cur, cur.district_to_city[d][k].1, d)
            } by {
                lemma_validate_monotone(prev, cur, cur.district_to_city[d][k].1, d);
            }
        },
        Some(d0) => {
            proof_step_owners_validate_district(prev, r, d0);
        },
    }
}

/// The district case of the owner-validation step.
#[verifier::rlimit(100)]
proof fn proof_step_owners_validate_district(prev: IndexModel, r: RegionView, d0: Seq<char>)
    requires
        owners_validate(prev),
        r.district == Some(d0),
        forall|x: Seq<char>|
            prev.city_districts.dom().contains(x) ==> index_step(
                prev,
                r,
            ).city_districts.dom().contains(x) && prev.city_districts[x].is_prefix_of(
                #[trigger] index_step(prev, r).city_districts[x],
            ),
    ensures
        owners_validate(index_step(prev, r)),
{
    let cur = index_step(prev, r);
    // the record's own district is registered under its city in the new index
    assert(cur.city_districts[r.city].contains(d0)) by {
        let cl = if prev.city_districts.dom().contains(r.city) {
            prev.city_districts[r.city]
        } else {
            Seq::<Seq<char>>::empty()
        };
        if cl.contains(d0) {
        } else {
            assert(seq_add_unique(cl, d0)[cl.len() as int] == d0);
        }
    }
    assert(spec_validate_district(cur, r.city, d0));
    // each suffix-stripped key flexibly matches through the canonical name
    reveal_strlit("区");
    reveal_strlit("县");
    reveal_strlit("市");
    reveal_strlit("旗");
    assert("区"@[0] == '区' && "县"@[0] == '县' && "市"@[0] == '市' && "旗"@[0] == '旗');
    if spec_ends_with(d0, "区"@) {
        crate::parser::lemma_flex_match_strip(d0, "区"@);
    }
    if spec_ends_with(d0, "县"@) {
        crate::parser::lemma_flex_match_strip(d0, "县"@);
    }
    if spec_ends_with(d0, "市"@) {
        crate::parser::lemma_flex_match_strip(d0, "市"@);
    }
    if spec_ends_with(d0, "旗"@) {
        crate::parser::lemma_flex_match_strip(d0, "旗"@);
    }
    assert forall|d: Seq<char>, k: int|
        cur.district_to_city.dom().contains(d) && 0 <= k < cur.district_to_city[d].len() implies {
        ||| spec_validate_district(cur, (#[trigger] cur.district_to_city[d][k]).1, d)
        ||| spec_validate_flexible(cur, cur.district_to_city[d][k].1, d)
    } by {
        let pair = cur.district_to_city[d][k];
        if prev.district_to_city.dom().contains(d) && 0 <= k < prev.district_to_city[d].len()
            && prev.district_to_city[d][k] == pair {
            lemma_validate_monotone(prev, cur, pair.1, d);
        } else {
            // a pair appended in this step: its city is the record's city, and
            // its key is the canonical district or a suffix-stripped form
            assert(pair == (r.province, r.city));
            assert(d == d0 || flex_match(d0, d));
            if d == d0 {
                assert(spec_validate_district(cur, pair.1, d));
            } else {
                assert(spec_validate_flexible(cur, pair.1, d)) by {
                    let ds = cur.city_districts[r.city];
                    let i = choose|i: int| 0 <= i < ds.len() && ds[i] == d0;
                    assert(flex_match(ds[i], d));
                }
            }
        }
    }
}

/// The index of any record list keeps every owner pair validating against its
/// own city.
pub proof fn lemma_index_owners_validate(rs: Seq<RegionView>)
    ensures
        owners_validate(index_model(rs)),
    decreases rs.len(),
{
    if rs.len() > 0 {
        lemma_index_owners_validate(rs.drop_last());
        lemma_step_owners_validate(index_model(rs.drop_last()), rs.last());
    }
}

/// Internal consistency of one result with the gazetteer: a resolved city
/// always comes with a resolved province, and a resolved city and district
/// always validate, exactly or flexibly, against the index.
pub open spec fn result_consistent(idx: IndexModel, v: ParsedView) -> bool {
    &&& (v.city is Some ==> v.province is Some)
    &&& match (v.city, v.district) {
        (Some(c), Some(d)) => spec_validate_district(idx, c, d) || spec_validate_flexible(
            idx,
            c,
            d,
        ),
        _ => true,
    }
}

proof fn lemma_find_owner_in_list(owners: Seq<(Seq<char>, Seq<char>)>, p: Seq<char>)
    ensures
        match crate::parser::find_owner_city(owners, p) {
            Some(c2) => exists|k: int| 0 <= k < owners.len() && owners[k] == (p, c2),
            None => true,
        },
    decreases owners.len(),
{
    if owners.len() > 0 {
        if owners[0].0 == p {
            assert(owners[0] == (p, owners[0].1));
        } else {
            lemma_find_owner_in_list(owners.skip(1), p);
            match crate::parser::find_owner_city(owners.skip(1), p) {
                Some(c2) => {
                    let k = choose|k: int|
                        0 <= k < owners.skip(1).len() && owners.skip(1)[k] == (p, c2);
                    assert(owners[k + 1] == (p, c2));
                },
                None => {},
            }
        }
    }
}

proof fn lemma_stage3_consistent(
    m: ParserModel,
    province: Option<Seq<char>>,
    city: Option<Seq<char>>,
    rem: Seq<char>,
)
    requires
        owners_validate(m.index),
        city is Some ==> province is Some,
        match (province, city) {
            (Some(p), None) => !is_municipality_name(p),
            _ => true,
        },
    ensures
        result_consistent(m.index, crate::parser::spec_parse_stage3(m, province, city, rem)),
{
    match spec_longest(m.district_trie, rem) {
        Some((dm, dv)) => {
            if city is None && m.index.district_to_city.dom().contains(dv) {
                let owners = m.index.district_to_city[dv];
                if owners.len() == 1 {
                    assert(m.index.district_to_city[dv][0] == owners[0]);
                } else {
                    match province {
                        Some(p) => {
                            lemma_find_owner_in_list(owners, p);
                            match crate::parser::find_owner_city(owners, p) {
                                Some(c2) => {
                                    let k = choose|k: int|
                                        0 <= k < owners.len() && owners[k] == (p, c2);
                                    assert(m.index.district_to_city[dv][k] == (p, c2));
                                },
                                None => {},
                            }
                        },
                        None => {},
                    }
                }
            }
        },
        None => {},
    }
}

proof fn lemma_stage2_consistent(m: ParserModel, province: Option<Seq<char>>, rem: Seq<char>)
    requires
        cities_have_province(m.index),
        owners_validate(m.index),
        forall|k: Seq<char>|
            m.city_trie.dom().contains(k) ==> m.index.cities.contains(#[trigger] m.city_trie[k]),
        match province {
            Some(p) => !is_municipality_name(p),
            None => true,
        },
    ensures
        result_consistent(m.index, crate::parser::spec_parse_stage2(m, province, rem)),
{
    let city_match = spec_longest(m.city_trie, rem);
    let district_match = spec_longest(m.district_trie, rem);
    if spec_prefer_district(province, city_match, district_match) {
        match district_match {
            Some((dm, dv)) => {
                if m.index.district_to_city.dom().contains(dv) && m.index.district_to_city[dv].len()
                    == 1 {
                    assert(m.index.district_to_city[dv][0] == m.index.district_to_city[dv][0]);
                }
            },
            None => {
                lemma_stage3_consistent(m, province, None, rem);
            },
        }
    } else {
        match city_match {
            Some((cm, cv)) => {
                crate::trie::lemma_longest_props(m.city_trie, rem);
                assert(m.index.cities.contains(cv));
                let valid_city = match province {
                    Some(p) => m.index.city_to_province.dom().contains(cv)
                        && m.index.city_to_province[cv] == p,
                    None => true,
                };
                if valid_city {
                    let province2 = if province is None {
                        if m.index.city_to_province.dom().contains(cv) {
                            Some(m.index.city_to_province[cv])
                        } else {
                            None
                        }
                    } else {
                        province
                    };
                    assert(province2 is Some);
                    lemma_stage3_consistent(m, province2, Some(cv), rem.skip(cm.len() as int));
                } else {
                    lemma_stage3_consistent(m, province, None, rem);
                }
            },
            None => {
                lemma_stage3_consistent(m, province, None, rem);
            },
        }
    }
}

/// Result consistency: over an index in which every city has a province entry
/// and every owner pair validates against its city, and a city matcher that
/// carries only canonical cities, every parse result is internally consistent:
/// a resolved city comes with a province, and a resolved city and district
/// validate against the index.
pub proof fn lemma_parse_consistent(m: ParserModel, text: Seq<char>)
    requires
        cities_have_province(m.index),
        owners_validate(m.index),
        forall|k: Seq<char>|
            m.city_trie.dom().contains(k) ==> m.index.cities.contains(#[trigger] m.city_trie[k]),
    ensures
        result_consistent(m.index, spec_parse(m, text)),
{
    let t = spec_trim(text);
    if t.len() != 0 {
        match spec_longest(m.province_trie, t) {
            Some((pm, pv)) => {
                if !is_municipality_name(pv) {
                    lemma_stage2_consistent(m, Some(pv), t.skip(pm.len() as int));
                }
            },
            None => {
                lemma_stage2_consistent(m, None, t);
            },
        }
    }
}

/// Result consistency at the built-in parser, with no hypotheses: the
/// coherence of its index is proved from the pinned record list.
pub proof fn lemma_builtin_parse_consistent(text: Seq<char>)
    ensures
        result_consistent(
            crate::parser::builtin_parser_model().index,
            spec_parse(crate::parser::builtin_parser_model(), text),
        ),
{
    let m = crate::parser::builtin_parser_model();
    lemma_index_cities_have_province(crate::data::spec_builtin_records());
    lemma_index_owners_validate(crate::data::spec_builtin_records());
    assert forall|k: Seq<char>| m.city_trie.dom().contains(k) implies m.index.cities.contains(
        #[trigger] m.city_trie[k],
    ) by {
        lemma_city_fold_values(m.index.cities, k);
    }
    lemma_parse_consistent(m, text);
}

/// Municipality invariant at the built-in parser, with no hypotheses.
pub proof fn lemma_builtin_municipality(text: Seq<char>)
    ensures
        muni_city_coherent(spec_parse(crate::parser::builtin_parser_model(), text)),
{
    let m = crate::parser::builtin_parser_model();
    crate::data::lemma_builtin_records_wf();
    crate::data::lemma_index_model_wf(crate::data::spec_builtin_records());
    lemma_parser_municipality(m, text);
}

/// Blank input: an input of nothing but whitespace parses to the all-absent
/// result with an empty detail.
pub proof fn lemma_blank_input(m: ParserModel, text: Seq<char>)
    requires
        forall|i: int| 0 <= i < text.len() ==> is_whitespace_char(text[i]),
    ensures
        spec_parse(m, text) == (ParsedView {
            province: None,
            city: None,
            district: None,
            detail: Seq::<char>::empty(),
        }),
{
    lemma_first_non_ws(text, 0, text.len() as int);
    lemma_last_non_ws(text, 0, text.len() as int);
    if text.len() == 0 {
        assert(spec_trim(text) =~= Seq::<char>::empty());
    }
    assert(spec_trim(text).len() == 0);
}

} // verus!
