//! The address parser: sequential longest-prefix matching over three name
//! matchers, with hierarchy validation and reverse inference against the
//! administrative index.
//!
//! The whole algorithm is modelled by the spec function `spec_parse`;
//! `AddressParser::parse` is proved to return exactly its result.

use vstd::prelude::*;
use vstd::string::StrSliceExecFns;
use crate::data::{
    RegionIndex, IndexModel, index_model, deep_value_map, lemma_deep_map_insert, alias_pairs,
    province_aliases, spec_alias_pairs, spec_province_aliases, load_regions, is_municipality_name,
    spec_validate_district,
};
use crate::region::{Region, ParsedAddress, ParsedView};
use crate::text::{
    str_eq, str_ends_with, strip_suffix_all, spec_ends_with, spec_strip_all, spec_trim,
    spec_trim_end, trim_str, trim_end_str,
};
use crate::trie::{Trie, spec_longest, spec_longest_from};

verus! {

/// The mathematical model of a parser: the three matcher maps, the index
/// model, and the alias table.
#[verifier::ext_equal]
pub struct ParserModel {
    /// Province matcher: canonical names and table aliases, each mapped to the
    /// canonical province.
    pub province_trie: Map<Seq<char>, Seq<char>>,
    /// City matcher: canonical names and suffix-stripped short forms, each
    /// mapped to the canonical city.
    pub city_trie: Map<Seq<char>, Seq<char>>,
    /// District matcher: canonical names and suffix-stripped short forms of at
    /// least two characters, each mapped to the canonical district.
    pub district_trie: Map<Seq<char>, Seq<char>>,
    /// The administrative index.
    pub index: IndexModel,
    /// The alias table.
    pub aliases: Map<Seq<char>, Seq<char>>,
}

/// The province matcher over the canonical province names alone.
pub open spec fn prov_trie_fold(ps: Seq<Seq<char>>) -> Map<Seq<char>, Seq<char>>
    decreases ps.len(),
{
    if ps.len() == 0 {
        Map::empty()
    } else {
        prov_trie_fold(ps.drop_last()).insert(ps.last(), ps.last())
    }
}

/// The province matcher extended with every table alias whose canonical name
/// is a registered province.
pub open spec fn alias_trie_fold(
    m: Map<Seq<char>, Seq<char>>,
    pairs: Seq<(Seq<char>, Seq<char>)>,
    provs: Seq<Seq<char>>,
) -> Map<Seq<char>, Seq<char>>
    decreases pairs.len(),
{
    if pairs.len() == 0 {
        m
    } else {
        let m1 = alias_trie_fold(m, pairs.drop_last(), provs);
        if provs.contains(pairs.last().1) {
            m1.insert(pairs.last().0, pairs.last().1)
        } else {
            m1
        }
    }
}

/// The city matcher: every canonical city under its own name and, when it
/// carries the city suffix, under its suffix-stripped form.
pub open spec fn city_trie_fold(cs: Seq<Seq<char>>) -> Map<Seq<char>, Seq<char>>
    decreases cs.len(),
{
    if cs.len() == 0 {
        Map::empty()
    } else {
        let m = city_trie_fold(cs.drop_last());
        let c = cs.last();
        let m1 = m.insert(c, c);
        if spec_ends_with(c, "市"@) {
            m1.insert(spec_strip_all(c, "市"@), c)
        } else {
            m1
        }
    }
}

/// The district matcher: every canonical district under its own name and,
/// for each county-level suffix it carries, under the suffix-stripped form
/// when that form keeps at least two characters.
pub open spec fn district_trie_fold(ds: Seq<Seq<char>>) -> Map<Seq<char>, Seq<char>>
    decreases ds.len(),
{
    if ds.len() == 0 {
        Map::empty()
    } else {
        let m = district_trie_fold(ds.drop_last());
        let d = ds.last();
        let m0 = m.insert(d, d);
        let m1 = if spec_ends_with(d, "区"@) && spec_strip_all(d, "区"@).len() >= 2 {
            m0.insert(spec_strip_all(d, "区"@), d)
        } else {
            m0
        };
        let m2 = if spec_ends_with(d, "县"@) && spec_strip_all(d, "县"@).len() >= 2 {
            m1.insert(spec_strip_all(d, "县"@), d)
        } else {
            m1
        };
        let m3 = if spec_ends_with(d, "市"@) && spec_strip_all(d, "市"@).len() >= 2 {
            m2.insert(spec_strip_all(d, "市"@), d)
        } else {
            m2
        };
        if spec_ends_with(d, "旗"@) && spec_strip_all(d, "旗"@).len() >= 2 {
            m3.insert(spec_strip_all(d, "旗"@), d)
        } else {
            m3
        }
    }
}

/// The model of the parser over the built-in gazetteer.
pub open spec fn builtin_parser_model() -> ParserModel {
    spec_parser_from(index_model(crate::data::spec_builtin_records()))
}

/// The parser model determined by an index model: the three matchers built
/// from its name sets and the fixed alias table.
pub open spec fn spec_parser_from(idx: IndexModel) -> ParserModel {
    ParserModel {
        province_trie: alias_trie_fold(
            prov_trie_fold(idx.provinces),
            spec_alias_pairs(),
            idx.provinces,
        ),
        city_trie: city_trie_fold(idx.cities),
        district_trie: district_trie_fold(idx.districts),
        index: idx,
        aliases: spec_province_aliases(),
    }
}

/// A longest match over a matcher of owned names agrees with the longest
/// match over its deep view.
proof fn lemma_longest_deep(m: Map<Seq<char>, String>, text: Seq<char>, l: int)
    ensures
        match spec_longest_from(m, text, l) {
            Some((k, v)) => spec_longest_from(deep_value_map(m), text, l) == Some((k, v@)),
            None => spec_longest_from(deep_value_map(m), text, l) is None,
        },
    decreases l,
{
    if l >= 1 && !m.dom().contains(text.take(l)) {
        lemma_longest_deep(m, text, l - 1);
    }
}

proof fn lemma_longest_deep_top(m: Map<Seq<char>, String>, text: Seq<char>)
    ensures
        match spec_longest(m, text) {
            Some((k, v)) => spec_longest(deep_value_map(m), text) == Some((k, v@)),
            None => spec_longest(deep_value_map(m), text) is None,
        },
{
    lemma_longest_deep(m, text, text.len() as int);
}

/// Whether a canonical district name ends in one of the three fully-qualified
/// county-level suffixes.
pub open spec fn ends_in_district_suffix(dv: Seq<char>) -> bool {
    dv.len() >= 1 && (dv.last() == '区' || dv.last() == '县' || dv.last() == '旗')
}

/// Whether the district interpretation outranks the city interpretation: only
/// without province context, and then when the district match is strictly
/// longer, or fully suffixed, or the only match found. Lengths are compared in
/// characters; both matches are prefixes of the same remaining text, so one is
/// a prefix of the other and the character-count order is the byte-length
/// order.
pub open spec fn spec_prefer_district(
    province: Option<Seq<char>>,
    city_match: Option<(Seq<char>, Seq<char>)>,
    district_match: Option<(Seq<char>, Seq<char>)>,
) -> bool {
    if province is Some {
        false
    } else {
        match (city_match, district_match) {
            (Some((cm, cv)), Some((dm, dv))) => dm.len() > cm.len() || ends_in_district_suffix(dv),
            (Some(cd), None) => false,
            (None, Some(dd)) => true,
            (None, None) => false,
        }
    }
}

/// A district name with every trailing county-level suffix character removed.
pub open spec fn strip_suffix_chars(d: Seq<char>) -> Seq<char>
    decreases d.len(),
{
    if d.len() >= 1 && (d.last() == '区' || d.last() == '县' || d.last() == '市' || d.last()
        == '旗') {
        strip_suffix_chars(d.drop_last())
    } else {
        d
    }
}

/// The character-level strip is an initial segment of its argument.
pub proof fn lemma_strip_chars_is_take(d: Seq<char>)
    ensures
        strip_suffix_chars(d).len() <= d.len(),
        strip_suffix_chars(d) == d.take(strip_suffix_chars(d).len() as int),
    decreases d.len(),
{
    if d.len() >= 1 && (d.last() == '区' || d.last() == '县' || d.last() == '市' || d.last()
        == '旗') {
        lemma_strip_chars_is_take(d.drop_last());
        assert(d.drop_last().take(strip_suffix_chars(d).len() as int) =~= d.take(
            strip_suffix_chars(d).len() as int,
        ));
    } else {
        assert(d.take(d.len() as int) =~= d);
    }
}

/// Stripping one whole county-level suffix first does not change the
/// character-level strip.
pub proof fn lemma_strip_chars_through_strip_all(d: Seq<char>, suf: Seq<char>)
    requires
        suf.len() == 1,
        suf[0] == '区' || suf[0] == '县' || suf[0] == '市' || suf[0] == '旗',
    ensures
        strip_suffix_chars(spec_strip_all(d, suf)) == strip_suffix_chars(d),
    decreases d.len(),
{
    if spec_ends_with(d, suf) {
        assert(d.last() == suf[0]) by {
            assert(d.subrange(d.len() - 1, d.len() as int)[0] == d.last());
        }
        assert(d.take(d.len() - 1) =~= d.drop_last());
        lemma_strip_chars_through_strip_all(d.drop_last(), suf);
    }
}

/// The suffix-stripped form of a district flexibly matches the district.
pub proof fn lemma_flex_match_strip(d: Seq<char>, suf: Seq<char>)
    requires
        suf.len() == 1,
        suf[0] == '区' || suf[0] == '县' || suf[0] == '市' || suf[0] == '旗',
    ensures
        flex_match(d, spec_strip_all(d, suf)),
{
    let s = spec_strip_all(d, suf);
    lemma_strip_chars_through_strip_all(d, suf);
    lemma_strip_chars_is_take(s);
    assert(strip_suffix_chars(d).is_prefix_of(s));
}

/// Whether a matched name is an acceptable abbreviation of the registered
/// district `d`: it is a prefix of `d`, or extends `d`'s suffix-stripped form.
pub open spec fn flex_match(d: Seq<char>, q: Seq<char>) -> bool {
    q.is_prefix_of(d) || strip_suffix_chars(d).is_prefix_of(q)
}

/// The best-effort district check: some district registered under `city`
/// matches `district` flexibly.
pub open spec fn spec_validate_flexible(
    idx: IndexModel,
    city: Seq<char>,
    district: Seq<char>,
) -> bool {
    idx.city_districts.dom().contains(city) && exists|k: int|
        0 <= k < idx.city_districts[city].len() && flex_match(
            #[trigger] idx.city_districts[city][k],
            district,
        )
}

/// The city of the first owner pair whose province is `p`, if any.
pub open spec fn find_owner_city(owners: Seq<(Seq<char>, Seq<char>)>, p: Seq<char>) -> Option<
    Seq<char>,
>
    decreases owners.len(),
{
    if owners.len() == 0 {
        None
    } else if owners[0].0 == p {
        Some(owners[0].1)
    } else {
        find_owner_city(owners.skip(1), p)
    }
}

/// The final result: the municipality backfill (a municipality province whose
/// city is still unset becomes its own city), and the trimmed remainder.
pub open spec fn spec_finish(
    province: Option<Seq<char>>,
    city: Option<Seq<char>>,
    district: Option<Seq<char>>,
    rem: Seq<char>,
) -> ParsedView {
    let city2 = match province {
        Some(p) => if is_municipality_name(p) && city is None {
            Some(p)
        } else {
            city
        },
        None => city,
    };
    ParsedView { province, city: city2, district, detail: spec_trim_end(rem) }
}

/// The district completion stage: a district match on the remainder is
/// accepted if it validates (exactly or flexibly) against a known city, or
/// unconditionally without one; a unique owner populates province and city, a
/// known province filters the owner list, and a city found without a province
/// reverse-infers it.
pub open spec fn spec_parse_stage3(
    m: ParserModel,
    province: Option<Seq<char>>,
    city: Option<Seq<char>>,
    rem: Seq<char>,
) -> ParsedView {
    match spec_longest(m.district_trie, rem) {
        Some((dm, dv)) => {
            let valid = match city {
                Some(c) => spec_validate_district(m.index, c, dv) || spec_validate_flexible(
                    m.index,
                    c,
                    dv,
                ),
                None => true,
            };
            if valid {
                let resolved = if city is None {
                    if m.index.district_to_city.dom().contains(dv) {
                        let owners = m.index.district_to_city[dv];
                        if owners.len() == 1 {
                            (Some(owners[0].0), Some(owners[0].1))
                        } else {
                            match province {
                                Some(p) => (province, find_owner_city(owners, p)),
                                None => (province, city),
                            }
                        }
                    } else {
                        (province, city)
                    }
                } else {
                    (province, city)
                };
                let province3 = if resolved.0 is None {
                    match resolved.1 {
                        Some(c2) => if m.index.city_to_province.dom().contains(c2) {
                            Some(m.index.city_to_province[c2])
                        } else {
                            None
                        },
                        None => None,
                    }
                } else {
                    resolved.0
                };
                spec_finish(province3, resolved.1, Some(dv), rem.skip(dm.len() as int))
            } else {
                spec_finish(province, city, None, rem)
            }
        },
        None => spec_finish(province, city, None, rem),
    }
}

/// The city-vs-district precedence stage and everything after it.
pub open spec fn spec_parse_stage2(
    m: ParserModel,
    province: Option<Seq<char>>,
    rem: Seq<char>,
) -> ParsedView {
    let city_match = spec_longest(m.city_trie, rem);
    let district_match = spec_longest(m.district_trie, rem);
    if spec_prefer_district(province, city_match, district_match) {
        match district_match {
            Some((dm, dv)) => {
                let resolved = if m.index.district_to_city.dom().contains(dv)
                    && m.index.district_to_city[dv].len() == 1 {
                    (
                        Some(m.index.district_to_city[dv][0].0),
                        Some(m.index.district_to_city[dv][0].1),
                    )
                } else {
                    (province, None)
                };
                spec_finish(resolved.0, resolved.1, Some(dv), rem.skip(dm.len() as int))
            },
            None => spec_parse_stage3(m, province, None, rem),
        }
    } else {
        match city_match {
            Some((cm, cv)) => {
                let valid_city = match province {
                    Some(p) => m.index.city_to_province.dom().contains(cv)
                        && m.index.city_to_province[cv] == p,
                    None => true,
                };
                if valid_city {
                    let province2 = if province is None {
                        if m.index.city_to_province.dom().contains(cv) {
                            Some(m.index.city_to_province[cv])
                        } else {
                            None
                        }
                    } else {
                        province
                    };
                    spec_parse_stage3(m, province2, Some(cv), rem.skip(cm.len() as int))
                } else {
                    spec_parse_stage3(m, province, None, rem)
                }
            },
            None => spec_parse_stage3(m, province, None, rem),
        }
    }
}

/// The municipality shortcut: the matched municipality is its own city, a
/// single district match is accepted only if it validates against it, and the
/// function returns at once.
pub open spec fn spec_parse_municipality(m: ParserModel, pv: Seq<char>, rem: Seq<char>) -> ParsedView {
    match spec_longest(m.district_trie, rem) {
        Some((dm, dv)) => if spec_validate_district(m.index, pv, dv) {
            ParsedView {
                province: Some(pv),
                city: Some(pv),
                district: Some(dv),
                detail: spec_trim_end(rem.skip(dm.len() as int)),
            }
        } else {
            ParsedView {
                province: Some(pv),
                city: Some(pv),
                district: None,
                detail: spec_trim_end(rem),
            }
        },
        None => ParsedView {
            province: Some(pv),
            city: Some(pv),
            district: None,
            detail: spec_trim_end(rem),
        },
    }
}

/// What parsing an address returns: the input is trimmed; an empty input
/// yields the all-absent result; a province match is consumed first, with the
/// municipality shortcut; then the city-vs-district precedence stage, the
/// district completion stage, and the municipality backfill. The trimmed
/// remainder is the detail.
pub open spec fn spec_parse(m: ParserModel, text: Seq<char>) -> ParsedView {
    let t = spec_trim(text);
    if t.len() == 0 {
        ParsedView { province: None, city: None, district: None, detail: Seq::empty() }
    } else {
        match spec_longest(m.province_trie, t) {
            Some((pm, pv)) => {
                let rem = t.skip(pm.len() as int);
                if is_municipality_name(pv) {
                    spec_parse_municipality(m, pv, rem)
                } else {
                    spec_parse_stage2(m, Some(pv), rem)
                }
            },
            None => spec_parse_stage2(m, None, t),
        }
    }
}

/// The address parser. It owns three matchers and the index, built once at
/// construction; parsing never mutates them.
pub struct AddressParser {
    province_trie: Trie<String>,
    city_trie: Trie<String>,
    district_trie: Trie<String>,
    index: RegionIndex,
    province_aliases: Trie<String>,
}

impl View for AddressParser {
    type V = ParserModel;

    closed spec fn view(&self) -> ParserModel {
        ParserModel {
            province_trie: deep_value_map(self.province_trie@),
            city_trie: deep_value_map(self.city_trie@),
            district_trie: deep_value_map(self.district_trie@),
            index: self.index@,
            aliases: deep_value_map(self.province_aliases@),
        }
    }
}

impl AddressParser {
    /// Builds a parser over the given record list; the result is exactly the
    /// parser model determined by the records' index model.
    pub fn from_records(regions: &Vec<Region>) -> (r: Self)
        ensures
            r@ == spec_parser_from(index_model(regions.deep_view())),
    {
        broadcast use lemma_deep_map_insert;

        let index = RegionIndex::build(regions);
        let aliases = province_aliases();
        let pairs = alias_pairs();

        // Province matcher: canonical names, then table aliases of registered
        // provinces.
        let mut province_trie: Trie<String> = Trie::new();
        proof {
            assert(deep_value_map(province_trie@) =~= prov_trie_fold(index@.provinces.take(0)));
        }
        let np = index.provinces.len();
        let mut i: usize = 0;
        while i < np
            invariant
                np == index.provinces@.len(),
                index@.provinces.len() == np,
                i <= np,
                deep_value_map(province_trie@) == prov_trie_fold(index@.provinces.take(i as int)),
            decreases np - i,
        {
            province_trie.insert(index.provinces[i].as_str(), index.provinces[i].clone());
            proof {
                assert(index@.provinces.take(i + 1).drop_last() =~= index@.provinces.take(i as int));
                assert(index@.provinces.take(i + 1).last() == index@.provinces[i as int]);
                assert(index@.provinces[i as int] == index.provinces@[i as int]@);
            }
            i += 1;
        }
        proof {
            assert(index@.provinces.take(np as int) =~= index@.provinces);
        }
        let na = pairs.len();
        let mut j: usize = 0;
        while j < na
            invariant
                na == pairs@.len(),
                pairs.deep_view().len() == na,
                pairs.deep_view() == spec_alias_pairs(),
                j <= na,
                deep_value_map(province_trie@) == alias_trie_fold(
                    prov_trie_fold(index@.provinces),
                    pairs.deep_view().take(j as int),
                    index@.provinces,
                ),
            decreases na - j,
        {
            if crate::data::vec_str_contains(&index.provinces, pairs[j].1.as_str()) {
                province_trie.insert(pairs[j].0.as_str(), pairs[j].1.clone());
            }
            proof {
                assert(pairs.deep_view().take(j + 1).drop_last() =~= pairs.deep_view().take(
                    j as int,
                ));
                assert(pairs.deep_view().take(j + 1).last() == pairs.deep_view()[j as int]);
                assert(pairs.deep_view()[j as int] == (pairs@[j as int].0@, pairs@[j as int].1@));
            }
            j += 1;
        }
        proof {
            assert(pairs.deep_view().take(na as int) =~= pairs.deep_view());
        }
        // City matcher: canonical names and suffix-stripped short forms.
        let mut city_trie: Trie<String> = Trie::new();
        proof {
            assert(deep_value_map(city_trie@) =~= city_trie_fold(index@.cities.take(0)));
        }
        let nc = index.cities.len();
        let mut k: usize = 0;
        while k < nc
            invariant
                nc == index.cities@.len(),
                index@.cities.len() == nc,
                k <= nc,
                deep_value_map(city_trie@) == city_trie_fold(index@.cities.take(k as int)),
            decreases nc - k,
        {
            proof {
                reveal_strlit("市");
            }
            let c = &index.cities[k];
            city_trie.insert(c.as_str(), c.clone());
            if str_ends_with(c.as_str(), "市") {
                let short = strip_suffix_all(c.as_str(), "市");
                city_trie.insert(short, c.clone());
            }
            proof {
                assert(index@.cities.take(k + 1).drop_last() =~= index@.cities.take(k as int));
                assert(index@.cities.take(k + 1).last() == index@.cities[k as int]);
                assert(index@.cities[k as int] == index.cities@[k as int]@);
            }
            k += 1;
        }
        proof {
            assert(index@.cities.take(nc as int) =~= index@.cities);
        }
        // District matcher: canonical names and short forms of at least two
        // characters.
        let mut district_trie: Trie<String> = Trie::new();
        proof {
            assert(deep_value_map(district_trie@) =~= district_trie_fold(index@.districts.take(0)));
        }
        let nd = index.districts.len();
        let mut l: usize = 0;
        while l < nd
            invariant
                nd == index.districts@.len(),
                index@.districts.len() == nd,
                l <= nd,
                deep_value_map(district_trie@) == district_trie_fold(
                    index@.districts.take(l as int),
                ),
            decreases nd - l,
        {
            proof {
                reveal_strlit("区");
                reveal_strlit("县");
                reveal_strlit("市");
                reveal_strlit("旗");
            }
            let d = &index.districts[l];
            district_trie.insert(d.as_str(), d.clone());
            if str_ends_with(d.as_str(), "区") {
                let short = strip_suffix_all(d.as_str(), "区");
                if short.unicode_len() >= 2 {
                    district_trie.insert(short, d.clone());
                }
            }
            if str_ends_with(d.as_str(), "县") {
                let short = strip_suffix_all(d.as_str(), "县");
                if short.unicode_len() >= 2 {
                    district_trie.insert(short, d.clone());
                }
            }
            if str_ends_with(d.as_str(), "市") {
                let short = strip_suffix_all(d.as_str(), "市");
                if short.unicode_len() >= 2 {
                    district_trie.insert(short, d.clone());
                }
            }
            if str_ends_with(d.as_str(), "旗") {
                let short = strip_suffix_all(d.as_str(), "旗");
                if short.unicode_len() >= 2 {
                    district_trie.insert(short, d.clone());
                }
            }
            proof {
                assert(index@.districts.take(l + 1).drop_last() =~= index@.districts.take(l as int));
                assert(index@.districts.take(l + 1).last() == index@.districts[l as int]);
                assert(index@.districts[l as int] == index.districts@[l as int]@);
            }
            l += 1;
        }
        proof {
            assert(index@.districts.take(nd as int) =~= index@.districts);
        }
        let r = AddressParser { province_trie, city_trie, district_trie, index, province_aliases: aliases };
        proof {
            assert(r@ =~= spec_parser_from(index_model(regions.deep_view())));
        }
        r
    }

    /// Builds a parser over the built-in gazetteer: its model is exactly the
    /// one determined by the pinned built-in record list, and that list's
    /// index is well-formed.
    pub fn new() -> (r: Self)
        ensures
            r@ == builtin_parser_model(),
            r@ == spec_parser_from(r@.index),
            crate::data::wf_index_model(r@.index),
    {
        let regions = load_regions();
        let r = Self::from_records(&regions);
        proof {
            crate::data::lemma_builtin_records_wf();
            crate::data::lemma_index_model_wf(regions.deep_view());
        }
        r
    }

    /// Parses an address: the result is exactly `spec_parse` of the parser's
    /// model on the input.
    pub fn parse(&self, address: &str) -> (r: ParsedAddress)
        ensures
            r@ == spec_parse(self@, address@),
    {
        let trimmed: &str = trim_str(address);
        if trimmed.unicode_len() == 0 {
            let r = ParsedAddress::empty();
            proof {
                assert(r@ =~= spec_parse(self@, address@));
            }
            return r;
        }
        let mut province: Option<String> = None;
        let mut city: Option<String> = None;
        let mut district: Option<String> = None;
        let mut rem: &str = trimmed;

        // Province stage.
        match self.province_trie.find_longest_prefix(rem) {
            Some((pm, pv, _blen)) => {
                proof {
                    lemma_longest_deep_top(self.province_trie@, rem@);
                }
                let pvs: String = pv.clone();
                let plen = pm.unicode_len();
                let rlen = rem.unicode_len();
                let ghost rem0 = rem@;
                rem = rem.substring_char(plen, rlen);
                proof {
                    assert(rem@ =~= rem0.skip(plen as int));
                }
                if self.index.is_municipality(pvs.as_str()) {
                    // Municipality shortcut: the province is its own city, a
                    // validated district match may follow, and parsing stops.
                    match self.district_trie.find_longest_prefix(rem) {
                        Some((dm, dv, _dblen)) => {
                            proof {
                                lemma_longest_deep_top(self.district_trie@, rem@);
                            }
                            if self.index.validate_district(pvs.as_str(), dv.as_str()) {
                                district = Some(dv.clone());
                                let dlen = dm.unicode_len();
                                let r2len = rem.unicode_len();
                                let ghost rem1 = rem@;
                                rem = rem.substring_char(dlen, r2len);
                                proof {
                                    assert(rem@ =~= rem1.skip(dlen as int));
                                }
                            }
                        },
                        None => {
                            proof {
                                lemma_longest_deep_top(self.district_trie@, rem@);
                            }
                        },
                    }
                    let detail = trim_end_str(rem).to_owned();
                    let result = ParsedAddress {
                        province: Some(pvs.clone()),
                        city: Some(pvs),
                        district,
                        detail,
                    };
                    proof {
                        assert(result@ =~= spec_parse(self@, address@));
                    }
                    return result;
                }
                province = Some(pvs);
            },
            None => {
                proof {
                    lemma_longest_deep_top(self.province_trie@, rem@);
                }
            },
        }
        proof {
            assert(spec_parse(self@, address@) == spec_parse_stage2(
                self@,
                province.deep_view(),
                rem@,
            ));
        }
        let ghost prov1 = province.deep_view();
        let ghost rem_s2 = rem@;

        // City-vs-district precedence stage.
        let city_match = self.city_trie.find_longest_prefix(rem);
        let district_match = self.district_trie.find_longest_prefix(rem);
        proof {
            lemma_longest_deep_top(self.city_trie@, rem@);
            lemma_longest_deep_top(self.district_trie@, rem@);
        }
        // both matches are prefixes of `rem`, so comparing character counts
        // orders them exactly as comparing byte lengths would
        let prefer_district = if province.is_none() {
            match (&city_match, &district_match) {
                (Some((cm, _cv, _cb)), Some((dm, dv, _db))) => dm.unicode_len()
                    > cm.unicode_len() || ends_in_district_suffix_exec(dv.as_str()),
                (Some(_), None) => false,
                (None, Some(_)) => true,
                (None, None) => false,
            }
        } else {
            false
        };
        proof {
            assert(prefer_district == spec_prefer_district(
                prov1,
                spec_longest(self@.city_trie, rem_s2),
                spec_longest(self@.district_trie, rem_s2),
            ));
        }
        if prefer_district {
            if let Some((dm, dv, _db)) = district_match {
                district = Some(dv.clone());
                match self.index.find_cities_by_district(dv.as_str()) {
                    Some(owners) => {
                        if owners.len() == 1 {
                            province = Some(owners[0].0.clone());
                            city = Some(owners[0].1.clone());
                            proof {
                                assert(owners.deep_view()[0] == (owners@[0].0@, owners@[0].1@));
                            }
                        }
                    },
                    None => {},
                }
                let dlen = dm.unicode_len();
                let rlen = rem.unicode_len();
                let ghost rem1 = rem@;
                rem = rem.substring_char(dlen, rlen);
                proof {
                    assert(rem@ =~= rem1.skip(dlen as int));
                }
                proof {
                    assert(spec_parse_stage2(self@, prov1, rem_s2) == spec_finish(
                        province.deep_view(),
                        city.deep_view(),
                        district.deep_view(),
                        rem@,
                    ));
                }
            }
        } else {
            match city_match {
                Some((cm, cv, _cb)) => {
                    let valid_city = match &province {
                        Some(p) => {
                            match self.index.find_province_by_city(cv.as_str()) {
                                Some(cp) => str_eq(cp.as_str(), p.as_str()),
                                None => false,
                            }
                        },
                        None => true,
                    };
                    if valid_city {
                        city = Some(cv.clone());
                        if province.is_none() {
                            match self.index.find_province_by_city(cv.as_str()) {
                                Some(cp) => {
                                    province = Some(cp.clone());
                                },
                                None => {},
                            }
                        }
                        let clen = cm.unicode_len();
                        let rlen = rem.unicode_len();
                        let ghost rem1 = rem@;
                        rem = rem.substring_char(clen, rlen);
                        proof {
                            assert(rem@ =~= rem1.skip(clen as int));
                        }
                    }
                },
                None => {},
            }
            proof {
                assert(spec_parse_stage2(self@, prov1, rem_s2) == spec_parse_stage3(
                    self@,
                    province.deep_view(),
                    city.deep_view(),
                    rem@,
                ));
            }
        }

        let ghost prov3 = province.deep_view();
        let ghost city3 = city.deep_view();
        let ghost rem_s3 = rem@;

        // District completion stage.
        if district.is_none() {
            match self.district_trie.find_longest_prefix(rem) {
                Some((dm, dv, _db)) => {
                    proof {
                        lemma_longest_deep_top(self.district_trie@, rem@);
                    }
                    let valid = match &city {
                        Some(c) => self.index.validate_district(c.as_str(), dv.as_str())
                            || self.validate_district_flexible(c.as_str(), dv.as_str()),
                        None => true,
                    };
                    if valid {
                        district = Some(dv.clone());
                        if city.is_none() {
                            match self.index.find_cities_by_district(dv.as_str()) {
                                Some(owners) => {
                                    if owners.len() == 1 {
                                        province = Some(owners[0].0.clone());
                                        city = Some(owners[0].1.clone());
                                        proof {
                                            assert(owners.deep_view()[0] == (
                                                owners@[0].0@,
                                                owners@[0].1@,
                                            ));
                                        }
                                    } else {
                                        match &province {
                                            Some(p) => {
                                                match find_owner_city_exec(owners, p.as_str()) {
                                                    Some(cs) => {
                                                        city = Some(cs);
                                                    },
                                                    None => {},
                                                }
                                            },
                                            None => {},
                                        }
                                    }
                                },
                                None => {},
                            }
                        }
                        if province.is_none() {
                            let inferred: Option<String> = match &city {
                                Some(c) => {
                                    match self.index.find_province_by_city(c.as_str()) {
                                        Some(cp) => Some(cp.clone()),
                                        None => None,
                                    }
                                },
                                None => None,
                            };
                            province = inferred;
                        }
                        let dlen = dm.unicode_len();
                        let rlen = rem.unicode_len();
                        let ghost rem1 = rem@;
                        rem = rem.substring_char(dlen, rlen);
                        proof {
                            assert(rem@ =~= rem1.skip(dlen as int));
                        }
                    }
                },
                None => {
                    proof {
                        lemma_longest_deep_top(self.district_trie@, rem@);
                    }
                },
            }
            proof {
                assert(spec_parse_stage3(self@, prov3, city3, rem_s3) == spec_finish(
                    province.deep_view(),
                    city.deep_view(),
                    district.deep_view(),
                    rem@,
                ));
            }
        }

        // Municipality backfill.
        let backfill: Option<String> = match &province {
            Some(p) => {
                if crate::data::is_municipality_str(p.as_str()) && city.is_none() {
                    Some(p.clone())
                } else {
                    None
                }
            },
            None => None,
        };
        if let Some(p) = backfill {
            city = Some(p);
        }
        let detail = trim_end_str(rem).to_owned();
        let result = ParsedAddress { province, city, district, detail };
        proof {
            assert(result@ =~= spec_parse(self@, address@));
        }
        result
    }

    /// Normalizes a (province, city, district) triple to canonical names and
    /// concatenates them; the result is exactly `spec_normalize`. A
    /// municipality's repeated province and city names are both kept.
    pub fn normalize(&self, province: &str, city: &str, district: Option<&str>) -> (r: String)
        ensures
            r@ == spec_normalize(self@, province@, city@, district.deep_view()),
    {
        let np: String = match self.province_aliases.get(province) {
            Some(full) => {
                let f = full.clone();
                proof {
                    assert(self@.aliases[province@] == f@);
                }
                f
            },
            None => {
                if crate::data::vec_str_contains(&self.index.provinces, province) {
                    province.to_owned()
                } else {
                    let ws = crate::text::concat2(province, "省");
                    if crate::data::vec_str_contains(&self.index.provinces, ws.as_str()) {
                        ws
                    } else {
                        province.to_owned()
                    }
                }
            },
        };
        let nc: String = if crate::data::vec_str_contains(&self.index.cities, city) {
            city.to_owned()
        } else {
            let ws = crate::text::concat2(city, "市");
            if crate::data::vec_str_contains(&self.index.cities, ws.as_str()) {
                ws
            } else {
                city.to_owned()
            }
        };
        let nd: Option<String> = match district {
            Some(d) => {
                if crate::data::vec_str_contains(&self.index.districts, d) {
                    Some(d.to_owned())
                } else {
                    let w1 = crate::text::concat2(d, "区");
                    if crate::data::vec_str_contains(&self.index.districts, w1.as_str()) {
                        Some(w1)
                    } else {
                        let w2 = crate::text::concat2(d, "县");
                        if crate::data::vec_str_contains(&self.index.districts, w2.as_str()) {
                            Some(w2)
                        } else {
                            let w3 = crate::text::concat2(d, "市");
                            if crate::data::vec_str_contains(&self.index.districts, w3.as_str()) {
                                Some(w3)
                            } else {
                                Some(d.to_owned())
                            }
                        }
                    }
                }
            },
            None => None,
        };
        let mut r = np;
        r.append(nc.as_str());
        match &nd {
            Some(d) => {
                r.append(d.as_str());
            },
            None => {
                proof {
                    assert(r@ =~= r@ + Seq::<char>::empty());
                }
            },
        }
        r
    }

    /// Parses each address independently; results come in input order.
    pub fn parse_batch(&self, addresses: &Vec<&str>) -> (r: Vec<ParsedAddress>)
        ensures
            r@.len() == addresses@.len(),
            forall|i: int|
                0 <= i < addresses@.len() ==> (#[trigger] r@[i])@ == spec_parse(
                    self@,
                    addresses@[i]@,
                ),
    {
        let n = addresses.len();
        let mut out: Vec<ParsedAddress> = Vec::new();
        let mut i: usize = 0;
        while i < n
            invariant
                n == addresses@.len(),
                i <= n,
                out@.len() == i,
                forall|k: int|
                    0 <= k < i ==> (#[trigger] out@[k])@ == spec_parse(self@, addresses@[k]@),
            decreases n - i,
        {
            let one = self.parse(addresses[i]);
            out.push(one);
            i += 1;
        }
        out
    }

    /// Whether the address resolves at least a province or a city.
    pub fn is_valid_address(&self, address: &str) -> (r: bool)
        ensures
            r == (spec_parse(self@, address@).province is Some || spec_parse(
                self@,
                address@,
            ).city is Some),
    {
        let result = self.parse(address);
        result.province.is_some() || result.city.is_some()
    }

    /// All canonical province names, in first-seen record order.
    pub fn provinces(&self) -> (r: Vec<String>)
        ensures
            r.deep_view() == self@.index.provinces,
    {
        crate::data::clone_strings(&self.index.provinces)
    }

    /// The cities of a province, which may be named by a table alias.
    pub fn cities_of_province(&self, province: &str) -> (r: Vec<String>)
        ensures
            r.deep_view() == spec_cities_of_province(self@, province@),
    {
        let np: String = match self.province_aliases.get(province) {
            Some(full) => {
                let f = full.clone();
                proof {
                    assert(self@.aliases[province@] == f@);
                }
                f
            },
            None => province.to_owned(),
        };
        match self.index.province_cities.get(np.as_str()) {
            Some(cs) => {
                let r = crate::data::clone_strings(cs);
                proof {
                    assert(self@.index.province_cities[np@] == cs.deep_view());
                }
                r
            },
            None => Vec::new(),
        }
    }

    /// The districts of a city, which may be named without its suffix.
    pub fn districts_of_city(&self, city: &str) -> (r: Vec<String>)
        ensures
            r.deep_view() == spec_districts_of_city(self@, city@),
    {
        let nc: String = if crate::data::vec_str_contains(&self.index.cities, city) {
            city.to_owned()
        } else {
            crate::text::concat2(city, "市")
        };
        match self.index.city_districts.get(nc.as_str()) {
            Some(ds) => {
                let r = crate::data::clone_strings(ds);
                proof {
                    assert(self@.index.city_districts[nc@] == ds.deep_view());
                }
                r
            },
            None => Vec::new(),
        }
    }

    /// The best-effort district check behind the district completion stage: a
    /// registered district of `city` that `district` abbreviates.
    fn validate_district_flexible(&self, city: &str, district: &str) -> (r: bool)
        ensures
            r == spec_validate_flexible(self@.index, city@, district@),
    {
        match self.index.city_districts.get(city) {
            Some(ds) => {
                proof {
                    assert(deep_value_map(self.index.city_districts@).dom().contains(city@));
                    assert(deep_value_map(self.index.city_districts@)[city@]
                        == self.index.city_districts@[city@].deep_view());
                    assert(self@.index.city_districts[city@] == ds.deep_view());
                }
                let n = ds.len();
                let mut k: usize = 0;
                while k < n
                    invariant
                        n == ds@.len(),
                        ds.deep_view().len() == n,
                        k <= n,
                        self@.index.city_districts.dom().contains(city@),
                        self@.index.city_districts[city@] == ds.deep_view(),
                        forall|j: int| 0 <= j < k ==> !flex_match(ds.deep_view()[j], district@),
                    decreases n - k,
                {
                    if flex_match_exec(ds[k].as_str(), district) {
                        proof {
                            assert(ds.deep_view()[k as int] == ds@[k as int]@);
                            assert(flex_match(ds.deep_view()[k as int], district@));
                        }
                        return true;
                    }
                    proof {
                        assert(ds.deep_view()[k as int] == ds@[k as int]@);
                    }
                    k += 1;
                }
                false
            },
            None => false,
        }
    }
}

/// The normalized concatenation of a (province, city, district) triple: the
/// province resolved through the alias table, else kept if canonical, else
/// completed with the province suffix if that is canonical; the city kept if
/// canonical, else completed with the city suffix if that is canonical; the
/// district, if present, kept if canonical, else completed with the first of
/// the three county-level suffixes that yields a canonical district. A name
/// that resolves no way is kept unchanged.
pub open spec fn spec_normalize(
    m: ParserModel,
    p: Seq<char>,
    c: Seq<char>,
    d: Option<Seq<char>>,
) -> Seq<char> {
    let np = if m.aliases.dom().contains(p) {
        m.aliases[p]
    } else if m.index.provinces.contains(p) {
        p
    } else if m.index.provinces.contains(p + "省"@) {
        p + "省"@
    } else {
        p
    };
    let nc = if m.index.cities.contains(c) {
        c
    } else if m.index.cities.contains(c + "市"@) {
        c + "市"@
    } else {
        c
    };
    let nd = match d {
        Some(d0) => if m.index.districts.contains(d0) {
            d0
        } else if m.index.districts.contains(d0 + "区"@) {
            d0 + "区"@
        } else if m.index.districts.contains(d0 + "县"@) {
            d0 + "县"@
        } else if m.index.districts.contains(d0 + "市"@) {
            d0 + "市"@
        } else {
            d0
        },
        None => Seq::<char>::empty(),
    };
    np + nc + nd
}

/// The cities registered under a province, which may be named by an alias;
/// empty for an unknown name.
pub open spec fn spec_cities_of_province(m: ParserModel, p: Seq<char>) -> Seq<Seq<char>> {
    let np = if m.aliases.dom().contains(p) {
        m.aliases[p]
    } else {
        p
    };
    if m.index.province_cities.dom().contains(np) {
        m.index.province_cities[np]
    } else {
        Seq::empty()
    }
}

/// The districts registered under a city, which may be named without its
/// suffix; empty for an unknown name.
pub open spec fn spec_districts_of_city(m: ParserModel, c: Seq<char>) -> Seq<Seq<char>> {
    let nc = if m.index.cities.contains(c) {
        c
    } else {
        c + "市"@
    };
    if m.index.city_districts.dom().contains(nc) {
        m.index.city_districts[nc]
    } else {
        Seq::empty()
    }
}

/// Whether `dv` ends in a fully-qualified county-level suffix.
fn ends_in_district_suffix_exec(dv: &str) -> (r: bool)
    ensures
        r == ends_in_district_suffix(dv@),
{
    let n = dv.unicode_len();
    if n == 0 {
        return false;
    }
    let c = dv.get_char(n - 1);
    c == '区' || c == '县' || c == '旗'
}

/// The slice of `d` with every trailing county-level suffix character removed.
fn strip_suffix_chars_exec<'a>(d: &'a str) -> (r: &'a str)
    ensures
        r@ == strip_suffix_chars(d@),
{
    let mut e = d.unicode_len();
    let mut cont = true;
    proof {
        assert(d@.take(d@.len() as int) =~= d@);
    }
    while cont
        invariant
            e <= d@.len(),
            strip_suffix_chars(d@) == strip_suffix_chars(d@.take(e as int)),
            !cont ==> strip_suffix_chars(d@.take(e as int)) == d@.take(e as int),
        decreases e, (if cont { 1int } else { 0int }),
    {
        if e > 0 {
            let c = d.get_char(e - 1);
            if c == '区' || c == '县' || c == '市' || c == '旗' {
                proof {
                    let t = d@.take(e as int);
                    assert(t.drop_last() =~= d@.take(e - 1));
                }
                e -= 1;
            } else {
                cont = false;
            }
        } else {
            cont = false;
        }
    }
    d.substring_char(0, e)
}

/// Whether `q` flexibly matches the registered district `d`.
fn flex_match_exec(d: &str, q: &str) -> (r: bool)
    ensures
        r == flex_match(d@, q@),
{
    let dlen = d.unicode_len();
    let qlen = q.unicode_len();
    if qlen <= dlen && crate::text::str_prefix_eq(q, d, qlen) {
        proof {
            assert(q@.is_prefix_of(d@));
        }
        return true;
    }
    proof {
        if qlen <= dlen {
            assert(!q@.is_prefix_of(d@));
        } else {
            assert(!q@.is_prefix_of(d@));
        }
    }
    let s = strip_suffix_chars_exec(d);
    let slen = s.unicode_len();
    if slen <= qlen && crate::text::str_prefix_eq(s, q, slen) {
        proof {
            assert(s@.is_prefix_of(q@));
        }
        true
    } else {
        proof {
            if slen <= qlen {
                assert(!s@.is_prefix_of(q@));
            }
        }
        false
    }
}

proof fn lemma_find_owner_skip(owners: Seq<(Seq<char>, Seq<char>)>, p: Seq<char>, j: int)
    requires
        0 <= j <= owners.len(),
        forall|k: int| 0 <= k < j ==> owners[k].0 != p,
    ensures
        find_owner_city(owners, p) == find_owner_city(owners.skip(j), p),
    decreases j,
{
    if j == 0 {
        assert(owners.skip(0) =~= owners);
    } else {
        lemma_find_owner_skip(owners, p, j - 1);
        assert(owners.skip(j - 1)[0] == owners[j - 1]);
        assert(owners.skip(j - 1).skip(1) =~= owners.skip(j));
    }
}

/// The city of the first owner pair whose province is `p`, if any.
fn find_owner_city_exec(owners: &Vec<(String, String)>, p: &str) -> (r: Option<String>)
    ensures
        match r {
            Some(c) => find_owner_city(owners.deep_view(), p@) == Some(c@),
            None => find_owner_city(owners.deep_view(), p@) is None,
        },
{
    let n = owners.len();
    let mut j: usize = 0;
    while j < n
        invariant
            n == owners@.len(),
            owners.deep_view().len() == n,
            j <= n,
            forall|k: int| 0 <= k < j ==> owners.deep_view()[k].0 != p@,
        decreases n - j,
    {
        if str_eq(owners[j].0.as_str(), p) {
            let c = owners[j].1.clone();
            proof {
                assert(owners.deep_view()[j as int] == (owners@[j as int].0@, owners@[j as int].1@));
                lemma_find_owner_skip(owners.deep_view(), p@, j as int);
                assert(owners.deep_view().skip(j as int)[0] == owners.deep_view()[j as int]);
            }
            return Some(c);
        }
        proof {
            assert(owners.deep_view()[j as int] == (owners@[j as int].0@, owners@[j as int].1@));
        }
        j += 1;
    }
    proof {
        lemma_find_owner_skip(owners.deep_view(), p@, n as int);
        assert(owners.deep_view().skip(n as int) =~= Seq::<(Seq<char>, Seq<char>)>::empty());
    }
    None
}

} // verus!
