//! The built-in gazetteer and the administrative index.
//!
//! The index is built once from a record list in a single pass and is
//! read-only afterwards. Its mathematical model (`IndexModel`) is the fold of
//! `index_step` over the records, and `build` is proved to compute exactly
//! that fold.

use vstd::prelude::*;
use vstd::string::StrSliceExecFns;
use crate::region::{Region, RegionView};
use crate::text::{str_eq, str_ends_with, strip_suffix_all, spec_ends_with, spec_strip_all, concat2};
use crate::trie::Trie;

verus! {

/// Whether a province-level name is one of the four direct-administered
/// municipalities.
pub open spec fn is_municipality_name(p: Seq<char>) -> bool {
    ||| p == "北京市"@
    ||| p == "上海市"@
    ||| p == "天津市"@
    ||| p == "重庆市"@
}

/// Whether a city-level name is one of the four prefecture-level cities that
/// have no district subdivision.
pub open spec fn is_no_district_city_name(c: Seq<char>) -> bool {
    ||| c == "东莞市"@
    ||| c == "中山市"@
    ||| c == "儋州市"@
    ||| c == "嘉峪关市"@
}

/// Whether `p` names a municipality.
pub fn is_municipality_str(p: &str) -> (r: bool)
    ensures
        r == is_municipality_name(p@),
{
    str_eq(p, "北京市") || str_eq(p, "上海市") || str_eq(p, "天津市") || str_eq(p, "重庆市")
}

/// Whether `c` names an unit-less prefecture-level city.
pub fn is_no_district_city_str(c: &str) -> (r: bool)
    ensures
        r == is_no_district_city_name(c@),
{
    str_eq(c, "东莞市") || str_eq(c, "中山市") || str_eq(c, "儋州市") || str_eq(c, "嘉峪关市")
}

/// The map `m` with every value replaced by its mathematical content.
pub open spec fn deep_value_map<T: DeepView>(m: Map<Seq<char>, T>) -> Map<Seq<char>, T::V> {
    Map::new(|k: Seq<char>| m.dom().contains(k), |k: Seq<char>| m[k].deep_view())
}

/// Viewing values commutes with inserting one.
pub broadcast proof fn lemma_deep_map_insert<T: DeepView>(m: Map<Seq<char>, T>, k: Seq<char>, v: T)
    ensures
        #[trigger] deep_value_map(m.insert(k, v)) == deep_value_map(m).insert(k, v.deep_view()),
{
    assert(deep_value_map(m.insert(k, v)) =~= deep_value_map(m).insert(k, v.deep_view()));
}

/// The fixed table of colloquial province short names: each short name with
/// its canonical name, in table order.
pub open spec fn spec_alias_pairs() -> Seq<(Seq<char>, Seq<char>)> {
    seq![
        ("广东"@, "广东省"@),
        ("江苏"@, "江苏省"@),
        ("浙江"@, "浙江省"@),
        ("山东"@, "山东省"@),
        ("河南"@, "河南省"@),
        ("河北"@, "河北省"@),
        ("四川"@, "四川省"@),
        ("湖北"@, "湖北省"@),
        ("湖南"@, "湖南省"@),
        ("福建"@, "福建省"@),
        ("安徽"@, "安徽省"@),
        ("江西"@, "江西省"@),
        ("陕西"@, "陕西省"@),
        ("山西"@, "山西省"@),
        ("辽宁"@, "辽宁省"@),
        ("吉林"@, "吉林省"@),
        ("黑龙江"@, "黑龙江省"@),
        ("云南"@, "云南省"@),
        ("贵州"@, "贵州省"@),
        ("甘肃"@, "甘肃省"@),
        ("海南"@, "海南省"@),
        ("青海"@, "青海省"@),
        ("台湾"@, "台湾省"@),
        ("广西"@, "广西壮族自治区"@),
        ("内蒙古"@, "内蒙古自治区"@),
        ("西藏"@, "西藏自治区"@),
        ("新疆"@, "新疆维吾尔自治区"@),
        ("宁夏"@, "宁夏回族自治区"@),
        ("北京"@, "北京市"@),
        ("上海"@, "上海市"@),
        ("天津"@, "天津市"@),
        ("重庆"@, "重庆市"@),
        ("香港"@, "香港特别行政区"@),
        ("澳门"@, "澳门特别行政区"@),
    ]
}

/// The map described by a sequence of pairs; a later pair for the same short
/// name overrides an earlier one.
pub open spec fn pairs_to_map(ps: Seq<(Seq<char>, Seq<char>)>) -> Map<Seq<char>, Seq<char>>
    decreases ps.len(),
{
    if ps.len() == 0 {
        Map::empty()
    } else {
        pairs_to_map(ps.drop_last()).insert(ps.last().0, ps.last().1)
    }
}

/// The alias table as a map.
pub open spec fn spec_province_aliases() -> Map<Seq<char>, Seq<char>> {
    pairs_to_map(spec_alias_pairs())
}

/// The alias table as a list of (short name, canonical name) pairs, in table
/// order.
pub fn alias_pairs() -> (r: Vec<(String, String)>)
    ensures
        r.deep_view() == spec_alias_pairs(),
{
    let mut v: Vec<(String, String)> = Vec::new();
    v.push(("广东".to_owned(), "广东省".to_owned()));
    v.push(("江苏".to_owned(), "江苏省".to_owned()));
    v.push(("浙江".to_owned(), "浙江省".to_owned()));
    v.push(("山东".to_owned(), "山东省".to_owned()));
    v.push(("河南".to_owned(), "河南省".to_owned()));
    v.push(("河北".to_owned(), "河北省".to_owned()));
    v.push(("四川".to_owned(), "四川省".to_owned()));
    v.push(("湖北".to_owned(), "湖北省".to_owned()));
    v.push(("湖南".to_owned(), "湖南省".to_owned()));
    v.push(("福建".to_owned(), "福建省".to_owned()));
    v.push(("安徽".to_owned(), "安徽省".to_owned()));
    v.push(("江西".to_owned(), "江西省".to_owned()));
    v.push(("陕西".to_owned(), "陕西省".to_owned()));
    v.push(("山西".to_owned(), "山西省".to_owned()));
    v.push(("辽宁".to_owned(), "辽宁省".to_owned()));
    v.push(("吉林".to_owned(), "吉林省".to_owned()));
    v.push(("黑龙江".to_owned(), "黑龙江省".to_owned()));
    v.push(("云南".to_owned(), "云南省".to_owned()));
    v.push(("贵州".to_owned(), "贵州省".to_owned()));
    v.push(("甘肃".to_owned(), "甘肃省".to_owned()));
    v.push(("海南".to_owned(), "海南省".to_owned()));
    v.push(("青海".to_owned(), "青海省".to_owned()));
    v.push(("台湾".to_owned(), "台湾省".to_owned()));
    v.push(("广西".to_owned(), "广西壮族自治区".to_owned()));
    v.push(("内蒙古".to_owned(), "内蒙古自治区".to_owned()));
    v.push(("西藏".to_owned(), "西藏自治区".to_owned()));
    v.push(("新疆".to_owned(), "新疆维吾尔自治区".to_owned()));
    v.push(("宁夏".to_owned(), "宁夏回族自治区".to_owned()));
    v.push(("北京".to_owned(), "北京市".to_owned()));
    v.push(("上海".to_owned(), "上海市".to_owned()));
    v.push(("天津".to_owned(), "天津市".to_owned()));
    v.push(("重庆".to_owned(), "重庆市".to_owned()));
    v.push(("香港".to_owned(), "香港特别行政区".to_owned()));
    v.push(("澳门".to_owned(), "澳门特别行政区".to_owned()));
    proof {
        assert(v.deep_view() =~= spec_alias_pairs());
    }
    v
}

/// The province alias table: colloquial short names of provinces, autonomous
/// regions, municipalities and special administrative regions, each mapped to
/// its canonical name.
pub fn province_aliases() -> (r: Trie<String>)
    ensures
        deep_value_map(r@) == spec_province_aliases(),
{
    broadcast use lemma_deep_map_insert;

    let pairs = alias_pairs();
    let mut t: Trie<String> = Trie::new();
    proof {
        assert(deep_value_map(t@) =~= pairs_to_map(pairs.deep_view().take(0)));
    }
    let n = pairs.len();
    let mut i: usize = 0;
    while i < n
        invariant
            n == pairs@.len(),
            pairs.deep_view().len() == n,
            pairs.deep_view() == spec_alias_pairs(),
            i <= n,
            deep_value_map(t@) == pairs_to_map(pairs.deep_view().take(i as int)),
        decreases n - i,
    {
        t.insert(pairs[i].0.as_str(), pairs[i].1.clone());
        proof {
            assert(pairs.deep_view().take(i + 1).drop_last() =~= pairs.deep_view().take(i as int));
            assert(pairs.deep_view().take(i + 1).last() == pairs.deep_view()[i as int]);
            assert(pairs.deep_view()[i as int] == (pairs@[i as int].0@, pairs@[i as int].1@));
            assert(deep_value_map(t@) =~= pairs_to_map(pairs.deep_view().take(i + 1)));
        }
        i += 1;
    }
    proof {
        assert(pairs.deep_view().take(n as int) =~= pairs.deep_view());
    }
    t
}

/// The canonical form of a city name for display: names already carrying a
/// city-level suffix are kept, any other name is completed with the city
/// suffix.
pub open spec fn spec_normalize_city_name(c: Seq<char>) -> Seq<char> {
    if spec_ends_with(c, "市"@) || spec_ends_with(c, "自治州"@) || spec_ends_with(c, "地区"@)
        || spec_ends_with(c, "盟"@) {
        c
    } else {
        c + "市"@
    }
}

/// Completes a bare city name with the city suffix.
pub fn normalize_city_name(city: &str) -> (r: String)
    ensures
        r@ == spec_normalize_city_name(city@),
{
    if str_ends_with(city, "市") || str_ends_with(city, "自治州") || str_ends_with(city, "地区")
        || str_ends_with(city, "盟") {
        city.to_owned()
    } else {
        concat2(city, "市")
    }
}

/// The canonical form of a district name for display: names already carrying a
/// county-level suffix are kept, any other name is completed with the district
/// suffix.
pub open spec fn spec_normalize_district_name(d: Seq<char>) -> Seq<char> {
    if spec_ends_with(d, "区"@) || spec_ends_with(d, "县"@) || spec_ends_with(d, "市"@)
        || spec_ends_with(d, "旗"@) {
        d
    } else {
        d + "区"@
    }
}

/// Completes a bare district name with the district suffix.
pub fn normalize_district_name(district: &str) -> (r: String)
    ensures
        r@ == spec_normalize_district_name(district@),
{
    if str_ends_with(district, "区") || str_ends_with(district, "县") || str_ends_with(
        district,
        "市",
    ) || str_ends_with(district, "旗") {
        district.to_owned()
    } else {
        concat2(district, "区")
    }
}

/// Whether a name is the bare, suffix-stripped short form of one of the four
/// municipalities.
pub open spec fn is_municipality_short(c: Seq<char>) -> bool {
    ||| c == "北京"@
    ||| c == "上海"@
    ||| c == "天津"@
    ||| c == "重庆"@
}

/// A well-formed gazetteer record: province and city are nonempty, a
/// municipality record names the municipality as its own city, and no
/// canonical city is the bare short form of a municipality.
pub open spec fn wf_region(r: RegionView) -> bool {
    &&& r.province.len() >= 1
    &&& r.city.len() >= 1
    &&& (is_municipality_name(r.province) ==> r.city == r.province)
    &&& !is_municipality_short(r.city)
}

/// Appends one record built from the given names.
fn push_region(out: &mut Vec<Region>, province: &str, city: &str, district: Option<&str>)
    ensures
        final(out).deep_view() == old(out).deep_view().push(
            RegionView { province: province@, city: city@, district: district.deep_view() },
        ),
{
    let d = match district {
        Some(d) => Some(d.to_owned()),
        None => None,
    };
    let r = Region::new(province.to_owned(), city.to_owned(), d);
    out.push(r);
    proof {
        assert(r@ == (RegionView {
            province: province@,
            city: city@,
            district: district.deep_view(),
        }));
        assert(out.deep_view() =~= old(out).deep_view().push(r@));
    }
}

/// The built-in gazetteer: a compact record list, not the full national
/// division table. It covers every province-level unit and every
/// administrative shape the engine's rules turn on — the municipalities,
/// autonomous regions, autonomous prefectures, unit-less cities, county-level
/// cities and the shared district names — with a few cities and districts
/// each. A complete gazetteer can be supplied through
/// `AddressParser::from_records` instead. The returned list is exactly
/// `spec_builtin_records`.
pub fn load_regions() -> (r: Vec<Region>)
    ensures
        r.deep_view() == spec_builtin_records(),
{
    let mut out: Vec<Region> = Vec::new();
    // Municipalities.
    push_region(&mut out, "北京市", "北京市", Some("朝阳区"));
    push_region(&mut out, "北京市", "北京市", Some("海淀区"));
    push_region(&mut out, "北京市", "北京市", Some("东城区"));
    push_region(&mut out, "北京市", "北京市", Some("西城区"));
    push_region(&mut out, "上海市", "上海市", Some("浦东新区"));
    push_region(&mut out, "上海市", "上海市", Some("黄浦区"));
    push_region(&mut out, "上海市", "上海市", Some("徐汇区"));
    push_region(&mut out, "天津市", "天津市", Some("和平区"));
    push_region(&mut out, "天津市", "天津市", Some("河东区"));
    push_region(&mut out, "重庆市", "重庆市", Some("渝中区"));
    push_region(&mut out, "重庆市", "重庆市", Some("江北区"));
    // Guangdong, with its unit-less cities.
    push_region(&mut out, "广东省", "深圳市", Some("南山区"));
    push_region(&mut out, "广东省", "深圳市", Some("福田区"));
    push_region(&mut out, "广东省", "深圳市", Some("宝安区"));
    push_region(&mut out, "广东省", "深圳市", Some("罗湖区"));
    push_region(&mut out, "广东省", "广州市", Some("天河区"));
    push_region(&mut out, "广东省", "广州市", Some("越秀区"));
    push_region(&mut out, "广东省", "东莞市", None);
    push_region(&mut out, "广东省", "中山市", None);
    // Jilin; its provincial capital shares a district name with the capital's
    // municipality namesake.
    push_region(&mut out, "吉林省", "长春市", Some("朝阳区"));
    push_region(&mut out, "吉林省", "长春市", Some("南关区"));
    push_region(&mut out, "吉林省", "吉林市", Some("船营区"));
    // Liaoning, with the prefecture-level city that shares its name with the
    // district above.
    push_region(&mut out, "辽宁省", "朝阳市", Some("双塔区"));
    push_region(&mut out, "辽宁省", "沈阳市", Some("和平区"));
    // Autonomous regions.
    push_region(&mut out, "广西壮族自治区", "南宁市", Some("青秀区"));
    push_region(&mut out, "内蒙古自治区", "呼和浩特市", Some("新城区"));
    push_region(&mut out, "西藏自治区", "拉萨市", Some("城关区"));
    push_region(&mut out, "新疆维吾尔自治区", "乌鲁木齐市", Some("天山区"));
    push_region(&mut out, "宁夏回族自治区", "银川市", Some("兴庆区"));
    // Autonomous prefectures and their county-level cities.
    push_region(&mut out, "云南省", "大理白族自治州", Some("大理市"));
    push_region(&mut out, "云南省", "昆明市", Some("五华区"));
    push_region(&mut out, "四川省", "甘孜藏族自治州", Some("康定市"));
    push_region(&mut out, "四川省", "甘孜藏族自治州", Some("甘孜县"));
    push_region(&mut out, "四川省", "成都市", Some("武侯区"));
    // County-level cities under prefecture-level cities.
    push_region(&mut out, "浙江省", "金华市", Some("义乌市"));
    push_region(&mut out, "浙江省", "杭州市", Some("西湖区"));
    push_region(&mut out, "江苏省", "苏州市", Some("昆山市"));
    push_region(&mut out, "江苏省", "南京市", Some("玄武区"));
    push_region(&mut out, "山东省", "潍坊市", Some("寿光市"));
    push_region(&mut out, "山东省", "济南市", Some("历下区"));
    // Remaining provinces with at least one city each.
    push_region(&mut out, "河南省", "郑州市", Some("金水区"));
    push_region(&mut out, "河北省", "石家庄市", Some("长安区"));
    push_region(&mut out, "湖北省", "武汉市", Some("武昌区"));
    push_region(&mut out, "湖南省", "长沙市", Some("岳麓区"));
    push_region(&mut out, "福建省", "福州市", Some("鼓楼区"));
    push_region(&mut out, "安徽省", "合肥市", Some("庐阳区"));
    push_region(&mut out, "江西省", "南昌市", Some("东湖区"));
    push_region(&mut out, "陕西省", "西安市", Some("长安区"));
    push_region(&mut out, "山西省", "太原市", Some("小店区"));
    push_region(&mut out, "黑龙江省", "哈尔滨市", Some("南岗区"));
    push_region(&mut out, "贵州省", "贵阳市", Some("云岩区"));
    push_region(&mut out, "甘肃省", "兰州市", Some("城关区"));
    push_region(&mut out, "甘肃省", "嘉峪关市", None);
    push_region(&mut out, "海南省", "海口市", Some("美兰区"));
    push_region(&mut out, "海南省", "儋州市", None);
    push_region(&mut out, "青海省", "西宁市", Some("城中区"));
    push_region(&mut out, "台湾省", "台北市", Some("中正区"));
    push_region(&mut out, "香港特别行政区", "香港特别行政区", Some("中西区"));
    push_region(&mut out, "澳门特别行政区", "澳门特别行政区", Some("花地玛堂区"));
    proof {
        assert(out.deep_view() =~= spec_builtin_records());
    }
    out
}

/// The built-in gazetteer as a mathematical constant: the exact record list
/// that `load_regions` returns, in order.
pub open spec fn spec_builtin_records() -> Seq<RegionView> {
    seq![
        RegionView { province: "北京市"@, city: "北京市"@, district: Some("朝阳区"@) },
        RegionView { province: "北京市"@, city: "北京市"@, district: Some("海淀区"@) },
        RegionView { province: "北京市"@, city: "北京市"@, district: Some("东城区"@) },
        RegionView { province: "北京市"@, city: "北京市"@, district: Some("西城区"@) },
        RegionView { province: "上海市"@, city: "上海市"@, district: Some("浦东新区"@) },
        RegionView { province: "上海市"@, city: "上海市"@, district: Some("黄浦区"@) },
        RegionView { province: "上海市"@, city: "上海市"@, district: Some("徐汇区"@) },
        RegionView { province: "天津市"@, city: "天津市"@, district: Some("和平区"@) },
        RegionView { province: "天津市"@, city: "天津市"@, district: Some("河东区"@) },
        RegionView { province: "重庆市"@, city: "重庆市"@, district: Some("渝中区"@) },
        RegionView { province: "重庆市"@, city: "重庆市"@, district: Some("江北区"@) },
        RegionView { province: "广东省"@, city: "深圳市"@, district: Some("南山区"@) },
        RegionView { province: "广东省"@, city: "深圳市"@, district: Some("福田区"@) },
        RegionView { province: "广东省"@, city: "深圳市"@, district: Some("宝安区"@) },
        RegionView { province: "广东省"@, city: "深圳市"@, district: Some("罗湖区"@) },
        RegionView { province: "广东省"@, city: "广州市"@, district: Some("天河区"@) },
        RegionView { province: "广东省"@, city: "广州市"@, district: Some("越秀区"@) },
        RegionView { province: "广东省"@, city: "东莞市"@, district: None },
        RegionView { province: "广东省"@, city: "中山市"@, district: None },
        RegionView { province: "吉林省"@, city: "长春市"@, district: Some("朝阳区"@) },
        RegionView { province: "吉林省"@, city: "长春市"@, district: Some("南关区"@) },
        RegionView { province: "吉林省"@, city: "吉林市"@, district: Some("船营区"@) },
        RegionView { province: "辽宁省"@, city: "朝阳市"@, district: Some("双塔区"@) },
        RegionView { province: "辽宁省"@, city: "沈阳市"@, district: Some("和平区"@) },
        RegionView { province: "广西壮族自治区"@, city: "南宁市"@, district: Some("青秀区"@) },
        RegionView { province: "内蒙古自治区"@, city: "呼和浩特市"@, district: Some("新城区"@) },
        RegionView { province: "西藏自治区"@, city: "拉萨市"@, district: Some("城关区"@) },
        RegionView { province: "新疆维吾尔自治区"@, city: "乌鲁木齐市"@, district: Some("天山区"@) },
        RegionView { province: "宁夏回族自治区"@, city: "银川市"@, district: Some("兴庆区"@) },
        RegionView { province: "云南省"@, city: "大理白族自治州"@, district: Some("大理市"@) },
        RegionView { province: "云南省"@, city: "昆明市"@, district: Some("五华区"@) },
        RegionView { province: "四川省"@, city: "甘孜藏族自治州"@, district: Some("康定市"@) },
        RegionView { province: "四川省"@, city: "甘孜藏族自治州"@, district: Some("甘孜县"@) },
        RegionView { province: "四川省"@, city: "成都市"@, district: Some("武侯区"@) },
        RegionView { province: "浙江省"@, city: "金华市"@, district: Some("义乌市"@) },
        RegionView { province: "浙江省"@, city: "杭州市"@, district: Some("西湖区"@) },
        RegionView { province: "江苏省"@, city: "苏州市"@, district: Some("昆山市"@) },
        RegionView { province: "江苏省"@, city: "南京市"@, district: Some("玄武区"@) },
        RegionView { province: "山东省"@, city: "潍坊市"@, district: Some("寿光市"@) },
        RegionView { province: "山东省"@, city: "济南市"@, district: Some("历下区"@) },
        RegionView { province: "河南省"@, city: "郑州市"@, district: Some("金水区"@) },
        RegionView { province: "河北省"@, city: "石家庄市"@, district: Some("长安区"@) },
        RegionView { province: "湖北省"@, city: "武汉市"@, district: Some("武昌区"@) },
        RegionView { province: "湖南省"@, city: "长沙市"@, district: Some("岳麓区"@) },
        RegionView { province: "福建省"@, city: "福州市"@, district: Some("鼓楼区"@) },
        RegionView { province: "安徽省"@, city: "合肥市"@, district: Some("庐阳区"@) },
        RegionView { province: "江西省"@, city: "南昌市"@, district: Some("东湖区"@) },
        RegionView { province: "陕西省"@, city: "西安市"@, district: Some("长安区"@) },
        RegionView { province: "山西省"@, city: "太原市"@, district: Some("小店区"@) },
        RegionView { province: "黑龙江省"@, city: "哈尔滨市"@, district: Some("南岗区"@) },
        RegionView { province: "贵州省"@, city: "贵阳市"@, district: Some("云岩区"@) },
        RegionView { province: "甘肃省"@, city: "兰州市"@, district: Some("城关区"@) },
        RegionView { province: "甘肃省"@, city: "嘉峪关市"@, district: None },
        RegionView { province: "海南省"@, city: "海口市"@, district: Some("美兰区"@) },
        RegionView { province: "海南省"@, city: "儋州市"@, district: None },
        RegionView { province: "青海省"@, city: "西宁市"@, district: Some("城中区"@) },
        RegionView { province: "台湾省"@, city: "台北市"@, district: Some("中正区"@) },
        RegionView { province: "香港特别行政区"@, city: "香港特别行政区"@, district: Some("中西区"@) },
        RegionView { province: "澳门特别行政区"@, city: "澳门特别行政区"@, district: Some("花地玛堂区"@) },
    ]
}

/// Every record of the built-in gazetteer is well-formed.
#[verifier::rlimit(100)]
pub proof fn lemma_builtin_records_wf()
    ensures
        forall|i: int|
            0 <= i < spec_builtin_records().len() ==> wf_region(
                #[trigger] spec_builtin_records()[i],
            ),
{
    reveal_strlit("北京市");
    reveal_strlit("上海市");
    reveal_strlit("天津市");
    reveal_strlit("重庆市");
    reveal_strlit("广东省");
    reveal_strlit("吉林省");
    reveal_strlit("辽宁省");
    reveal_strlit("广西壮族自治区");
    reveal_strlit("内蒙古自治区");
    reveal_strlit("西藏自治区");
    reveal_strlit("新疆维吾尔自治区");
    reveal_strlit("宁夏回族自治区");
    reveal_strlit("云南省");
    reveal_strlit("四川省");
    reveal_strlit("浙江省");
    reveal_strlit("江苏省");
    reveal_strlit("山东省");
    reveal_strlit("河南省");
    reveal_strlit("河北省");
    reveal_strlit("湖北省");
    reveal_strlit("湖南省");
    reveal_strlit("福建省");
    reveal_strlit("安徽省");
    reveal_strlit("江西省");
    reveal_strlit("陕西省");
    reveal_strlit("山西省");
    reveal_strlit("黑龙江省");
    reveal_strlit("贵州省");
    reveal_strlit("甘肃省");
    reveal_strlit("海南省");
    reveal_strlit("青海省");
    reveal_strlit("台湾省");
    reveal_strlit("香港特别行政区");
    reveal_strlit("澳门特别行政区");
    reveal_strlit("深圳市");
    reveal_strlit("广州市");
    reveal_strlit("东莞市");
    reveal_strlit("中山市");
    reveal_strlit("长春市");
    reveal_strlit("吉林市");
    reveal_strlit("朝阳市");
    reveal_strlit("沈阳市");
    reveal_strlit("南宁市");
    reveal_strlit("呼和浩特市");
    reveal_strlit("拉萨市");
    reveal_strlit("乌鲁木齐市");
    reveal_strlit("银川市");
    reveal_strlit("大理白族自治州");
    reveal_strlit("昆明市");
    reveal_strlit("甘孜藏族自治州");
    reveal_strlit("成都市");
    reveal_strlit("金华市");
    reveal_strlit("杭州市");
    reveal_strlit("苏州市");
    reveal_strlit("南京市");
    reveal_strlit("潍坊市");
    reveal_strlit("济南市");
    reveal_strlit("郑州市");
    reveal_strlit("石家庄市");
    reveal_strlit("武汉市");
    reveal_strlit("长沙市");
    reveal_strlit("福州市");
    reveal_strlit("合肥市");
    reveal_strlit("南昌市");
    reveal_strlit("西安市");
    reveal_strlit("太原市");
    reveal_strlit("哈尔滨市");
    reveal_strlit("贵阳市");
    reveal_strlit("兰州市");
    reveal_strlit("嘉峪关市");
    reveal_strlit("海口市");
    reveal_strlit("儋州市");
    reveal_strlit("西宁市");
    reveal_strlit("台北市");
    reveal_strlit("北京");
    reveal_strlit("上海");
    reveal_strlit("天津");
    reveal_strlit("重庆");
    // A municipality name is three characters long and starts with one of
    // four characters; its bare short form is two characters long.
    assert(forall|p: Seq<char>|
        #[trigger] is_municipality_name(p) ==> p.len() == 3 && (p[0] == '北' || p[0] == '上'
            || p[0] == '天' || p[0] == '重'));
    assert(forall|c: Seq<char>| #[trigger] is_municipality_short(c) ==> c.len() == 2);
    assert("北京市"@[0] == '北');
    assert("上海市"@[0] == '上');
    assert("天津市"@[0] == '天');
    assert("重庆市"@[0] == '重');
    assert("广东省"@[0] == '广');
    assert("吉林省"@[0] == '吉');
    assert("辽宁省"@[0] == '辽');
    assert("云南省"@[0] == '云');
    assert("四川省"@[0] == '四');
    assert("浙江省"@[0] == '浙');
    assert("江苏省"@[0] == '江');
    assert("山东省"@[0] == '山');
    assert("河南省"@[0] == '河');
    assert("河北省"@[0] == '河');
    assert("湖北省"@[0] == '湖');
    assert("湖南省"@[0] == '湖');
    assert("福建省"@[0] == '福');
    assert("安徽省"@[0] == '安');
    assert("江西省"@[0] == '江');
    assert("陕西省"@[0] == '陕');
    assert("山西省"@[0] == '山');
    assert("贵州省"@[0] == '贵');
    assert("甘肃省"@[0] == '甘');
    assert("海南省"@[0] == '海');
    assert("青海省"@[0] == '青');
    assert("台湾省"@[0] == '台');
    assert(wf_region(spec_builtin_records()[0]));
    assert(wf_region(spec_builtin_records()[1]));
    assert(wf_region(spec_builtin_records()[2]));
    assert(wf_region(spec_builtin_records()[3]));
    assert(wf_region(spec_builtin_records()[4]));
    assert(wf_region(spec_builtin_records()[5]));
    assert(wf_region(spec_builtin_records()[6]));
    assert(wf_region(spec_builtin_records()[7]));
    assert(wf_region(spec_builtin_records()[8]));
    assert(wf_region(spec_builtin_records()[9]));
    assert(wf_region(spec_builtin_records()[10]));
    assert(wf_region(spec_builtin_records()[11]));
    assert(wf_region(spec_builtin_records()[12]));
    assert(wf_region(spec_builtin_records()[13]));
    assert(wf_region(spec_builtin_records()[14]));
    assert(wf_region(spec_builtin_records()[15]));
    assert(wf_region(spec_builtin_records()[16]));
    assert(wf_region(spec_builtin_records()[17]));
    assert(wf_region(spec_builtin_records()[18]));
    assert(wf_region(spec_builtin_records()[19]));
    assert(wf_region(spec_builtin_records()[20]));
    assert(wf_region(spec_builtin_records()[21]));
    assert(wf_region(spec_builtin_records()[22]));
    assert(wf_region(spec_builtin_records()[23]));
    assert(wf_region(spec_builtin_records()[24]));
    assert(wf_region(spec_builtin_records()[25]));
    assert(wf_region(spec_builtin_records()[26]));
    assert(wf_region(spec_builtin_records()[27]));
    assert(wf_region(spec_builtin_records()[28]));
    assert(wf_region(spec_builtin_records()[29]));
    assert(wf_region(spec_builtin_records()[30]));
    assert(wf_region(spec_builtin_records()[31]));
    assert(wf_region(spec_builtin_records()[32]));
    assert(wf_region(spec_builtin_records()[33]));
    assert(wf_region(spec_builtin_records()[34]));
    assert(wf_region(spec_builtin_records()[35]));
    assert(wf_region(spec_builtin_records()[36]));
    assert(wf_region(spec_builtin_records()[37]));
    assert(wf_region(spec_builtin_records()[38]));
    assert(wf_region(spec_builtin_records()[39]));
    assert(wf_region(spec_builtin_records()[40]));
    assert(wf_region(spec_builtin_records()[41]));
    assert(wf_region(spec_builtin_records()[42]));
    assert(wf_region(spec_builtin_records()[43]));
    assert(wf_region(spec_builtin_records()[44]));
    assert(wf_region(spec_builtin_records()[45]));
    assert(wf_region(spec_builtin_records()[46]));
    assert(wf_region(spec_builtin_records()[47]));
    assert(wf_region(spec_builtin_records()[48]));
    assert(wf_region(spec_builtin_records()[49]));
    assert(wf_region(spec_builtin_records()[50]));
    assert(wf_region(spec_builtin_records()[51]));
    assert(wf_region(spec_builtin_records()[52]));
    assert(wf_region(spec_builtin_records()[53]));
    assert(wf_region(spec_builtin_records()[54]));
    assert(wf_region(spec_builtin_records()[55]));
    assert(wf_region(spec_builtin_records()[56]));
    assert(wf_region(spec_builtin_records()[57]));
    assert(wf_region(spec_builtin_records()[58]));
}

/// `s` extended by `x` unless `x` is already a member.
pub open spec fn seq_add_unique(s: Seq<Seq<char>>, x: Seq<char>) -> Seq<Seq<char>> {
    if s.contains(x) {
        s
    } else {
        s.push(x)
    }
}

/// The map of name sets `m` with `x` added to the set at `k`.
pub open spec fn map_set_add(
    m: Map<Seq<char>, Seq<Seq<char>>>,
    k: Seq<char>,
    x: Seq<char>,
) -> Map<Seq<char>, Seq<Seq<char>>> {
    let cur = if m.dom().contains(k) {
        m[k]
    } else {
        Seq::empty()
    };
    m.insert(k, seq_add_unique(cur, x))
}

/// The map of owner lists `m` with `x` appended to the list at `k`.
pub open spec fn map_list_push(
    m: Map<Seq<char>, Seq<(Seq<char>, Seq<char>)>>,
    k: Seq<char>,
    x: (Seq<char>, Seq<char>),
) -> Map<Seq<char>, Seq<(Seq<char>, Seq<char>)>> {
    let cur = if m.dom().contains(k) {
        m[k]
    } else {
        Seq::empty()
    };
    m.insert(k, cur.push(x))
}

/// Whether `v@` is a member of the deep view of `v`.
pub(crate) fn vec_str_contains(v: &Vec<String>, s: &str) -> (r: bool)
    ensures
        r == v.deep_view().contains(s@),
{
    let n = v.len();
    let mut i: usize = 0;
    while i < n
        invariant
            n == v@.len(),
            v.deep_view().len() == n,
            i <= n,
            forall|j: int| 0 <= j < i ==> v.deep_view()[j] != s@,
        decreases n - i,
    {
        if str_eq(v[i].as_str(), s) {
            assert(v.deep_view()[i as int] == s@);
            return true;
        }
        i += 1;
    }
    proof {
        if v.deep_view().contains(s@) {
            let j = choose|j: int| 0 <= j < v.deep_view().len() && v.deep_view()[j] == s@;
        }
    }
    false
}

/// Adds `s` to the name set `v` unless it is already present.
fn insert_unique(v: &mut Vec<String>, s: &str)
    ensures
        final(v).deep_view() == seq_add_unique(old(v).deep_view(), s@),
{
    if !vec_str_contains(v, s) {
        v.push(s.to_owned());
        proof {
            assert(v.deep_view() =~= old(v).deep_view().push(s@));
        }
    }
}

/// An element-wise copy of a name list.
pub(crate) fn clone_strings(v: &Vec<String>) -> (r: Vec<String>)
    ensures
        r.deep_view() == v.deep_view(),
{
    let n = v.len();
    let mut r: Vec<String> = Vec::new();
    let mut i: usize = 0;
    while i < n
        invariant
            n == v@.len(),
            i <= n,
            r.deep_view() =~= v.deep_view().take(i as int),
        decreases n - i,
    {
        let ghost prior = r.deep_view();
        let x = v[i].clone();
        proof {
            assert(x@ == v@[i as int]@);
        }
        r.push(x);
        proof {
            assert(r.deep_view().len() == prior.len() + 1);
            assert(forall|j: int| 0 <= j < prior.len() ==> r.deep_view()[j] == prior[j]);
            assert(r.deep_view()[prior.len() as int] == v@[i as int]@);
            assert(v.deep_view()[i as int] == v@[i as int].deep_view());
            assert(r.deep_view() =~= v.deep_view().take(i + 1));
        }
        i += 1;
    }
    proof {
        assert(v.deep_view().take(n as int) =~= v.deep_view());
    }
    r
}

/// An element-wise copy of an owner list.
fn clone_pairs(v: &Vec<(String, String)>) -> (r: Vec<(String, String)>)
    ensures
        r.deep_view() == v.deep_view(),
{
    let n = v.len();
    let mut r: Vec<(String, String)> = Vec::new();
    let mut i: usize = 0;
    while i < n
        invariant
            n == v@.len(),
            i <= n,
            r.deep_view() =~= v.deep_view().take(i as int),
        decreases n - i,
    {
        let ghost prior = r.deep_view();
        let p = v[i].0.clone();
        let c = v[i].1.clone();
        proof {
            assert(p@ == v@[i as int].0@);
            assert(c@ == v@[i as int].1@);
        }
        r.push((p, c));
        proof {
            assert(r.deep_view().len() == prior.len() + 1);
            assert(forall|j: int| 0 <= j < prior.len() ==> r.deep_view()[j] == prior[j]);
            assert(r.deep_view()[prior.len() as int] == (v@[i as int].0@, v@[i as int].1@));
            assert(v.deep_view()[i as int] == v@[i as int].deep_view());
            assert(v@[i as int].deep_view() == (v@[i as int].0@, v@[i as int].1@));
            assert(r.deep_view() =~= v.deep_view().take(i + 1));
        }
        i += 1;
    }
    proof {
        assert(v.deep_view().take(n as int) =~= v.deep_view());
    }
    r
}

/// Adds `val` to the name set stored under `key`.
fn trie_set_add(t: &mut Trie<Vec<String>>, key: &str, val: &str)
    ensures
        deep_value_map(final(t)@) == map_set_add(deep_value_map(old(t)@), key@, val@),
{
    broadcast use lemma_deep_map_insert;

    let ghost m0 = deep_value_map(old(t)@);
    let cur: Vec<String> = match t.get(key) {
        Some(existing) => {
            if vec_str_contains(existing, val) {
                let c = clone_strings(existing);
                proof {
                    assert(c.deep_view() == m0[key@]);
                }
                c
            } else {
                let mut c = clone_strings(existing);
                let ghost base = c.deep_view();
                c.push(val.to_owned());
                proof {
                    assert(c.deep_view() =~= base.push(val@));
                }
                c
            }
        },
        None => {
            let mut c: Vec<String> = Vec::new();
            let ghost base = c.deep_view();
            c.push(val.to_owned());
            proof {
                assert(base =~= Seq::<Seq<char>>::empty());
                assert(c.deep_view() =~= base.push(val@));
            }
            c
        },
    };
    t.insert(key, cur);
    proof {
        assert(deep_value_map(t@) =~= map_set_add(m0, key@, val@));
    }
}

/// Appends the owner pair `(p, c)` to the list stored under `key`.
fn trie_list_push(t: &mut Trie<Vec<(String, String)>>, key: &str, p: &String, c: &String)
    ensures
        deep_value_map(final(t)@) == map_list_push(deep_value_map(old(t)@), key@, (p@, c@)),
{
    broadcast use lemma_deep_map_insert;

    let ghost m0 = deep_value_map(old(t)@);
    let mut cur: Vec<(String, String)> = match t.get(key) {
        Some(existing) => {
            let v = clone_pairs(existing);
            proof {
                assert(v.deep_view() == m0[key@]);
            }
            v
        },
        None => Vec::new(),
    };
    let ghost base = cur.deep_view();
    proof {
        if !old(t)@.dom().contains(key@) {
            assert(base =~= Seq::<(Seq<char>, Seq<char>)>::empty());
        }
    }
    cur.push((p.clone(), c.clone()));
    proof {
        assert(cur.deep_view() =~= base.push((p@, c@)));
    }
    t.insert(key, cur);
    proof {
        assert(deep_value_map(t@) =~= map_list_push(m0, key@, (p@, c@)));
    }
}

/// The mathematical model of the administrative index.
#[verifier::ext_equal]
pub struct IndexModel {
    /// Canonical province names, in first-seen order.
    pub provinces: Seq<Seq<char>>,
    /// Province to its cities, each list in first-seen order.
    pub province_cities: Map<Seq<char>, Seq<Seq<char>>>,
    /// City name, canonical or suffix-stripped, to its province.
    pub city_to_province: Map<Seq<char>, Seq<char>>,
    /// City to its districts, each list in first-seen order.
    pub city_districts: Map<Seq<char>, Seq<Seq<char>>>,
    /// District name, canonical or suffix-stripped, to the (province, city)
    /// pairs that own a district of that name, in record order.
    pub district_to_city: Map<Seq<char>, Seq<(Seq<char>, Seq<char>)>>,
    /// Canonical city names, in first-seen order.
    pub cities: Seq<Seq<char>>,
    /// Canonical district names, in first-seen order.
    pub districts: Seq<Seq<char>>,
}

/// The model with nothing registered.
pub open spec fn empty_index_model() -> IndexModel {
    IndexModel {
        provinces: Seq::empty(),
        province_cities: Map::empty(),
        city_to_province: Map::empty(),
        city_districts: Map::empty(),
        district_to_city: Map::empty(),
        cities: Seq::empty(),
        districts: Seq::empty(),
    }
}

/// The owner-list map extended with the suffix-stripped variants of district
/// `d`, one for each of the four county-level suffixes that `d` carries, with
/// empty results skipped.
pub open spec fn dtc_add_shorts(
    m: Map<Seq<char>, Seq<(Seq<char>, Seq<char>)>>,
    d: Seq<char>,
    p: Seq<char>,
    c: Seq<char>,
) -> Map<Seq<char>, Seq<(Seq<char>, Seq<char>)>> {
    let m1 = if spec_ends_with(d, "区"@) && spec_strip_all(d, "区"@).len() >= 1 {
        map_list_push(m, spec_strip_all(d, "区"@), (p, c))
    } else {
        m
    };
    let m2 = if spec_ends_with(d, "县"@) && spec_strip_all(d, "县"@).len() >= 1 {
        map_list_push(m1, spec_strip_all(d, "县"@), (p, c))
    } else {
        m1
    };
    let m3 = if spec_ends_with(d, "市"@) && spec_strip_all(d, "市"@).len() >= 1 {
        map_list_push(m2, spec_strip_all(d, "市"@), (p, c))
    } else {
        m2
    };
    if spec_ends_with(d, "旗"@) && spec_strip_all(d, "旗"@).len() >= 1 {
        map_list_push(m3, spec_strip_all(d, "旗"@), (p, c))
    } else {
        m3
    }
}

/// How one record extends the index model.
pub open spec fn index_step(m: IndexModel, r: RegionView) -> IndexModel {
    let provinces = seq_add_unique(m.provinces, r.province);
    let province_cities = map_set_add(m.province_cities, r.province, r.city);
    let ctp1 = m.city_to_province.insert(r.city, r.province);
    let cities = seq_add_unique(m.cities, r.city);
    let city_to_province = if spec_ends_with(r.city, "市"@) {
        ctp1.insert(spec_strip_all(r.city, "市"@), r.province)
    } else {
        ctp1
    };
    match r.district {
        None => IndexModel {
            provinces,
            province_cities,
            city_to_province,
            city_districts: m.city_districts,
            district_to_city: m.district_to_city,
            cities,
            districts: m.districts,
        },
        Some(d) => {
            let city_districts = map_set_add(m.city_districts, r.city, d);
            let dtc1 = map_list_push(m.district_to_city, d, (r.province, r.city));
            let districts = seq_add_unique(m.districts, d);
            let district_to_city = dtc_add_shorts(dtc1, d, r.province, r.city);
            IndexModel {
                provinces,
                province_cities,
                city_to_province,
                city_districts,
                district_to_city,
                cities,
                districts,
            }
        },
    }
}

/// The index model of a record list: the fold of `index_step` over it.
pub open spec fn index_model(rs: Seq<RegionView>) -> IndexModel
    decreases rs.len(),
{
    if rs.len() == 0 {
        empty_index_model()
    } else {
        index_step(index_model(rs.drop_last()), rs.last())
    }
}

/// The administrative index: multi-directional lookups over the gazetteer,
/// built once and read-only afterwards.
pub struct RegionIndex {
    /// Canonical province names.
    pub provinces: Vec<String>,
    /// Province to its cities.
    pub province_cities: Trie<Vec<String>>,
    /// City name (canonical or suffix-stripped) to its province.
    pub city_to_province: Trie<String>,
    /// City to its districts.
    pub city_districts: Trie<Vec<String>>,
    /// District name (canonical or suffix-stripped) to its owner pairs.
    pub district_to_city: Trie<Vec<(String, String)>>,
    /// Canonical city names.
    pub cities: Vec<String>,
    /// Canonical district names.
    pub districts: Vec<String>,
}

impl View for RegionIndex {
    type V = IndexModel;

    open spec fn view(&self) -> IndexModel {
        IndexModel {
            provinces: self.provinces.deep_view(),
            province_cities: deep_value_map(self.province_cities@),
            city_to_province: deep_value_map(self.city_to_province@),
            city_districts: deep_value_map(self.city_districts@),
            district_to_city: deep_value_map(self.district_to_city@),
            cities: self.cities.deep_view(),
            districts: self.districts.deep_view(),
        }
    }
}

impl RegionIndex {
    /// Builds the index from the record list in one pass; the result is
    /// exactly the fold of `index_step` over the records.
    pub fn build(regions: &Vec<Region>) -> (r: Self)
        ensures
            r@ == index_model(regions.deep_view()),
    {
        broadcast use lemma_deep_map_insert;

        proof {
            reveal_strlit("市");
            reveal_strlit("区");
            reveal_strlit("县");
            reveal_strlit("旗");
        }
        let mut idx = RegionIndex {
            provinces: Vec::new(),
            province_cities: Trie::new(),
            city_to_province: Trie::new(),
            city_districts: Trie::new(),
            district_to_city: Trie::new(),
            cities: Vec::new(),
            districts: Vec::new(),
        };
        proof {
            assert(idx.provinces.deep_view() =~= Seq::<Seq<char>>::empty());
            assert(idx.cities.deep_view() =~= Seq::<Seq<char>>::empty());
            assert(idx.districts.deep_view() =~= Seq::<Seq<char>>::empty());
            assert(deep_value_map(idx.province_cities@) =~= empty_index_model().province_cities);
            assert(deep_value_map(idx.city_to_province@) =~= empty_index_model().city_to_province);
            assert(deep_value_map(idx.city_districts@) =~= empty_index_model().city_districts);
            assert(deep_value_map(idx.district_to_city@) =~= empty_index_model().district_to_city);
            assert(regions.deep_view().take(0) =~= Seq::<RegionView>::empty());
            assert(idx@ =~= index_model(regions.deep_view().take(0)));
        }
        let n = regions.len();
        let mut i: usize = 0;
        while i < n
            invariant
                n == regions@.len(),
                regions.deep_view().len() == n,
                i <= n,
                idx@ == index_model(regions.deep_view().take(i as int)),
            decreases n - i,
        {
            let ghost prev = idx@;
            let ghost rv = regions.deep_view()[i as int];
            let r = &regions[i];
            proof {
                reveal_strlit("市");
                reveal_strlit("区");
                reveal_strlit("县");
                reveal_strlit("旗");
                assert(rv == r@);
            }
            insert_unique(&mut idx.provinces, r.province.as_str());
            trie_set_add(&mut idx.province_cities, r.province.as_str(), r.city.as_str());
            idx.city_to_province.insert(r.city.as_str(), r.province.clone());
            insert_unique(&mut idx.cities, r.city.as_str());
            if str_ends_with(r.city.as_str(), "市") {
                let short = strip_suffix_all(r.city.as_str(), "市");
                idx.city_to_province.insert(short, r.province.clone());
            }
            match &r.district {
                Some(d) => {
                    trie_set_add(&mut idx.city_districts, r.city.as_str(), d.as_str());
                    trie_list_push(&mut idx.district_to_city, d.as_str(), &r.province, &r.city);
                    insert_unique(&mut idx.districts, d.as_str());
                    if str_ends_with(d.as_str(), "区") {
                        let short = strip_suffix_all(d.as_str(), "区");
                        if short.unicode_len() >= 1 {
                            trie_list_push(&mut idx.district_to_city, short, &r.province, &r.city);
                        }
                    }
                    if str_ends_with(d.as_str(), "县") {
                        let short = strip_suffix_all(d.as_str(), "县");
                        if short.unicode_len() >= 1 {
                            trie_list_push(&mut idx.district_to_city, short, &r.province, &r.city);
                        }
                    }
                    if str_ends_with(d.as_str(), "市") {
                        let short = strip_suffix_all(d.as_str(), "市");
                        if short.unicode_len() >= 1 {
                            trie_list_push(&mut idx.district_to_city, short, &r.province, &r.city);
                        }
                    }
                    if str_ends_with(d.as_str(), "旗") {
                        let short = strip_suffix_all(d.as_str(), "旗");
                        if short.unicode_len() >= 1 {
                            trie_list_push(&mut idx.district_to_city, short, &r.province, &r.city);
                        }
                    }
                },
                None => {},
            }
            proof {
                assert(regions.deep_view().take(i + 1).drop_last() =~= regions.deep_view().take(
                    i as int,
                ));
                assert(regions.deep_view().take(i + 1).last() == rv);
                assert(idx@ =~= index_step(prev, rv));
            }
            i += 1;
        }
        proof {
            assert(regions.deep_view().take(n as int) =~= regions.deep_view());
        }
        idx
    }

    /// Whether `province` is one of the four direct-administered
    /// municipalities.
    pub fn is_municipality(&self, province: &str) -> (r: bool)
        ensures
            r == is_municipality_name(province@),
    {
        is_municipality_str(province)
    }

    /// Whether `city` is one of the fixed set of unit-less prefecture-level
    /// cities.
    pub fn is_no_district_city(&self, city: &str) -> (r: bool)
        ensures
            r == is_no_district_city_name(city@),
    {
        is_no_district_city_str(city)
    }

    /// The province owning `city`, under its canonical or suffix-stripped
    /// name.
    pub fn find_province_by_city(&self, city: &str) -> (r: Option<&String>)
        ensures
            match r {
                Some(p) => self@.city_to_province.dom().contains(city@) && p@
                    == self@.city_to_province[city@],
                None => !self@.city_to_province.dom().contains(city@),
            },
    {
        self.city_to_province.get(city)
    }

    /// The (province, city) pairs owning a district named `district`,
    /// canonically or suffix-stripped; more than one pair signals a name
    /// collision.
    pub fn find_cities_by_district(&self, district: &str) -> (r: Option<&Vec<(String, String)>>)
        ensures
            match r {
                Some(owners) => self@.district_to_city.dom().contains(district@)
                    && owners.deep_view() == self@.district_to_city[district@],
                None => !self@.district_to_city.dom().contains(district@),
            },
    {
        self.district_to_city.get(district)
    }

    /// Whether `district` is registered under `city`, by exact canonical
    /// names.
    pub fn validate_district(&self, city: &str, district: &str) -> (r: bool)
        ensures
            r == spec_validate_district(self@, city@, district@),
    {
        match self.city_districts.get(city) {
            Some(ds) => vec_str_contains(ds, district),
            None => false,
        }
    }
}

/// Whether the index registers `district` under `city`.
pub open spec fn spec_validate_district(m: IndexModel, city: Seq<char>, district: Seq<char>) -> bool {
    m.city_districts.dom().contains(city) && m.city_districts[city].contains(district)
}

/// A well-formed index: a canonical city whose province entry names a
/// municipality is that municipality itself, and every owner pair of a
/// district whose province is a municipality names the municipality as its
/// city.
pub open spec fn wf_index_model(idx: IndexModel) -> bool {
    &&& forall|c: Seq<char>|
        #![trigger idx.city_to_province[c]]
        (idx.cities.contains(c) && idx.city_to_province.dom().contains(c)
            && is_municipality_name(idx.city_to_province[c])) ==> idx.city_to_province[c] == c
    &&& owners_coherent(idx.district_to_city)
}

/// Every owner pair whose province is a municipality names the municipality as
/// its city.
pub open spec fn owners_coherent(m: Map<Seq<char>, Seq<(Seq<char>, Seq<char>)>>) -> bool {
    forall|d: Seq<char>, k: int|
        #![trigger m[d][k]]
        (m.dom().contains(d) && 0 <= k < m[d].len() && is_municipality_name(m[d][k].0))
            ==> m[d][k].1 == m[d][k].0
}

/// Appending one coherent owner pair keeps the owner map coherent.
proof fn lemma_push_owner_coherent(
    m: Map<Seq<char>, Seq<(Seq<char>, Seq<char>)>>,
    key: Seq<char>,
    pair: (Seq<char>, Seq<char>),
)
    requires
        owners_coherent(m),
        is_municipality_name(pair.0) ==> pair.1 == pair.0,
    ensures
        owners_coherent(map_list_push(m, key, pair)),
{
    let m2 = map_list_push(m, key, pair);
    assert forall|d: Seq<char>, k: int|
        m2.dom().contains(d) && 0 <= k < m2[d].len() && is_municipality_name(
            (#[trigger] m2[d][k]).0,
        ) implies m2[d][k].1 == m2[d][k].0 by {
        if d == key {
            if k < m2[d].len() - 1 {
                assert(m.dom().contains(d) && m2[d][k] == m[d][k]);
            } else {
                assert(m2[d][k] == pair);
            }
        } else {
            assert(m2[d][k] == m[d][k]);
        }
    }
}

/// The suffix-stripped form of a municipality name is its bare short form.
proof fn lemma_muni_strip(p: Seq<char>)
    requires
        is_municipality_name(p),
    ensures
        spec_ends_with(p, "市"@),
        is_municipality_short(spec_strip_all(p, "市"@)),
{
    reveal_strlit("北京市");
    reveal_strlit("上海市");
    reveal_strlit("天津市");
    reveal_strlit("重庆市");
    reveal_strlit("北京");
    reveal_strlit("上海");
    reveal_strlit("天津");
    reveal_strlit("重庆");
    reveal_strlit("市");
    if p == "北京市"@ {
        assert(p.subrange(2, 3) =~= "市"@);
        assert(spec_ends_with(p, "市"@));
        assert(p.take(2) =~= "北京"@);
        assert(!spec_ends_with("北京"@, "市"@)) by {
            assert("北京"@.subrange(1, 2)[0] == "北京"@[1]);
        }
        assert(spec_strip_all("北京"@, "市"@) == "北京"@);
        assert(spec_strip_all(p, "市"@) == spec_strip_all("北京"@, "市"@));
    } else if p == "上海市"@ {
        assert(p.subrange(2, 3) =~= "市"@);
        assert(spec_ends_with(p, "市"@));
        assert(p.take(2) =~= "上海"@);
        assert(!spec_ends_with("上海"@, "市"@)) by {
            assert("上海"@.subrange(1, 2)[0] == "上海"@[1]);
        }
        assert(spec_strip_all("上海"@, "市"@) == "上海"@);
        assert(spec_strip_all(p, "市"@) == spec_strip_all("上海"@, "市"@));
    } else if p == "天津市"@ {
        assert(p.subrange(2, 3) =~= "市"@);
        assert(spec_ends_with(p, "市"@));
        assert(p.take(2) =~= "天津"@);
        assert(!spec_ends_with("天津"@, "市"@)) by {
            assert("天津"@.subrange(1, 2)[0] == "天津"@[1]);
        }
        assert(spec_strip_all("天津"@, "市"@) == "天津"@);
        assert(spec_strip_all(p, "市"@) == spec_strip_all("天津"@, "市"@));
    } else {
        assert(p.subrange(2, 3) =~= "市"@);
        assert(spec_ends_with(p, "市"@));
        assert(p.take(2) =~= "重庆"@);
        assert(!spec_ends_with("重庆"@, "市"@)) by {
            assert("重庆"@.subrange(1, 2)[0] == "重庆"@[1]);
        }
        assert(spec_strip_all("重庆"@, "市"@) == "重庆"@);
        assert(spec_strip_all(p, "市"@) == spec_strip_all("重庆"@, "市"@));
    }
}

/// One well-formed record keeps the city-to-province map coherent for
/// municipalities.
#[verifier::rlimit(100)]
proof fn lemma_index_step_city_province(prev: IndexModel, r: RegionView)
    requires
        wf_index_model(prev),
        forall|c: Seq<char>| prev.cities.contains(c) ==> !is_municipality_short(c),
        wf_region(r),
    ensures
        forall|c: Seq<char>|
            #![trigger index_step(prev, r).city_to_province[c]]
            (index_step(prev, r).cities.contains(c) && index_step(
                prev,
                r,
            ).city_to_province.dom().contains(c) && is_municipality_name(
                index_step(prev, r).city_to_province[c],
            )) ==> index_step(prev, r).city_to_province[c] == c,
{
    let cur = index_step(prev, r);
    if spec_ends_with(r.city, "市"@) {
        crate::text::lemma_strip_all_shorter(r.city, "市"@);
    }
    assert forall|c: Seq<char>|
        cur.cities.contains(c) && cur.city_to_province.dom().contains(c) && is_municipality_name(
            #[trigger] cur.city_to_province[c],
        ) implies cur.city_to_province[c] == c by {
        let short = spec_strip_all(r.city, "市"@);
        assert(prev.cities.contains(c) || c == r.city) by {
            if !prev.cities.contains(c) {
                assert(seq_add_unique(prev.cities, r.city)[prev.cities.len() as int] == r.city);
            }
        }
        if spec_ends_with(r.city, "市"@) && c == short {
            assert(cur.city_to_province[c] == r.province);
            lemma_muni_strip(r.province);
            assert(is_municipality_short(c));
            assert(false);
        } else if c == r.city {
            assert(cur.city_to_province[c] == r.province);
        } else {
            assert(cur.city_to_province[c] == prev.city_to_province[c]);
        }
    }
}

/// One well-formed record preserves index well-formedness and keeps
/// municipality short forms out of the canonical city set.
#[verifier::rlimit(100)]
proof fn lemma_index_step_wf(prev: IndexModel, r: RegionView)
    requires
        wf_index_model(prev),
        forall|c: Seq<char>| prev.cities.contains(c) ==> !is_municipality_short(c),
        wf_region(r),
    ensures
        wf_index_model(index_step(prev, r)),
        forall|c: Seq<char>|
            index_step(prev, r).cities.contains(c) ==> !is_municipality_short(c),
{
    let cur = index_step(prev, r);
    // No municipality short form among the canonical cities.
    assert forall|c: Seq<char>| cur.cities.contains(c) implies !is_municipality_short(c) by {
        if !prev.cities.contains(c) {
            assert(seq_add_unique(prev.cities, r.city)[prev.cities.len() as int] == r.city);
            assert(c == r.city);
        }
    }
    lemma_index_step_city_province(prev, r);
    lemma_index_step_owners(prev, r);
    assert(wf_index_model(cur));
}

/// One well-formed record keeps every owner pair of the district map
/// municipality-coherent.
proof fn lemma_index_step_owners(prev: IndexModel, r: RegionView)
    requires
        wf_index_model(prev),
        wf_region(r),
    ensures
        owners_coherent(index_step(prev, r).district_to_city),
{
    match r.district {
        None => {},
        Some(d0) => {
            let pair = (r.province, r.city);
            let m1 = map_list_push(prev.district_to_city, d0, pair);
            lemma_push_owner_coherent(prev.district_to_city, d0, pair);
            let s1 = if spec_ends_with(d0, "区"@) && spec_strip_all(d0, "区"@).len() >= 1 {
                lemma_push_owner_coherent(m1, spec_strip_all(d0, "区"@), pair);
                map_list_push(m1, spec_strip_all(d0, "区"@), pair)
            } else {
                m1
            };
            let s2 = if spec_ends_with(d0, "县"@) && spec_strip_all(d0, "县"@).len() >= 1 {
                lemma_push_owner_coherent(s1, spec_strip_all(d0, "县"@), pair);
                map_list_push(s1, spec_strip_all(d0, "县"@), pair)
            } else {
                s1
            };
            let s3 = if spec_ends_with(d0, "市"@) && spec_strip_all(d0, "市"@).len() >= 1 {
                lemma_push_owner_coherent(s2, spec_strip_all(d0, "市"@), pair);
                map_list_push(s2, spec_strip_all(d0, "市"@), pair)
            } else {
                s2
            };
            if spec_ends_with(d0, "旗"@) && spec_strip_all(d0, "旗"@).len() >= 1 {
                lemma_push_owner_coherent(s3, spec_strip_all(d0, "旗"@), pair);
            }
            assert(index_step(prev, r).district_to_city == dtc_add_shorts(m1, d0, r.province, r.city));
        },
    }
}

/// The index of a list of well-formed records is well-formed, and registers no
/// municipality short form as a canonical city.
pub proof fn lemma_index_model_wf(rs: Seq<RegionView>)
    requires
        forall|i: int| 0 <= i < rs.len() ==> wf_region(#[trigger] rs[i]),
    ensures
        wf_index_model(index_model(rs)),
        forall|c: Seq<char>| index_model(rs).cities.contains(c) ==> !is_municipality_short(c),
    decreases rs.len(),
{
    if rs.len() > 0 {
        assert(forall|i: int|
            0 <= i < rs.drop_last().len() ==> wf_region(#[trigger] rs.drop_last()[i])) by {
            assert(forall|i: int|
                0 <= i < rs.drop_last().len() ==> #[trigger] rs.drop_last()[i] == rs[i]);
        }
        lemma_index_model_wf(rs.drop_last());
        assert(wf_region(rs.last()));
        lemma_index_step_wf(index_model(rs.drop_last()), rs.last());
    }
}

/// A name is a key of the pair map exactly when some pair carries it.
pub proof fn lemma_pairs_to_map_dom(ps: Seq<(Seq<char>, Seq<char>)>, k: Seq<char>)
    ensures
        pairs_to_map(ps).dom().contains(k) <==> exists|i: int| 0 <= i < ps.len() && ps[i].0 == k,
    decreases ps.len(),
{
    if ps.len() > 0 {
        lemma_pairs_to_map_dom(ps.drop_last(), k);
        if ps.last().0 == k {
            assert(ps[ps.len() - 1].0 == k);
        } else if pairs_to_map(ps).dom().contains(k) {
            let i = choose|i: int| 0 <= i < ps.drop_last().len() && ps.drop_last()[i].0 == k;
            assert(ps[i].0 == k);
        } else if exists|i: int| 0 <= i < ps.len() && ps[i].0 == k {
            let i = choose|i: int| 0 <= i < ps.len() && ps[i].0 == k;
            assert(ps.drop_last()[i].0 == k);
        }
    }
}

/// Every canonical province of an index is some record's province.
pub proof fn lemma_index_provinces_from_records(rs: Seq<RegionView>, p: Seq<char>)
    requires
        index_model(rs).provinces.contains(p),
    ensures
        exists|i: int| 0 <= i < rs.len() && rs[i].province == p,
    decreases rs.len(),
{
    if rs.len() > 0 {
        let prev = index_model(rs.drop_last());
        if prev.provinces.contains(p) {
            lemma_index_provinces_from_records(rs.drop_last(), p);
            let i = choose|i: int| 0 <= i < rs.drop_last().len() && rs.drop_last()[i].province == p;
            assert(rs[i].province == p);
        } else {
            assert(seq_add_unique(prev.provinces, rs.last().province)[prev.provinces.len() as int]
                == rs.last().province);
            assert(rs[rs.len() - 1].province == p);
        }
    }
}

/// No canonical province of the built-in gazetteer is an alias short name.
#[verifier::rlimit(100)]
pub proof fn lemma_builtin_provinces_not_aliases()
    ensures
        forall|p: Seq<char>|
            #[trigger] index_model(spec_builtin_records()).provinces.contains(p)
                ==> !spec_province_aliases().dom().contains(p),
{
    reveal_strlit("上海");
    reveal_strlit("云南");
    reveal_strlit("北京");
    reveal_strlit("台湾");
    reveal_strlit("吉林");
    reveal_strlit("四川");
    reveal_strlit("天津");
    reveal_strlit("宁夏");
    reveal_strlit("安徽");
    reveal_strlit("山东");
    reveal_strlit("山西");
    reveal_strlit("广东");
    reveal_strlit("广西");
    reveal_strlit("新疆");
    reveal_strlit("江苏");
    reveal_strlit("江西");
    reveal_strlit("河北");
    reveal_strlit("河南");
    reveal_strlit("浙江");
    reveal_strlit("海南");
    reveal_strlit("湖北");
    reveal_strlit("湖南");
    reveal_strlit("澳门");
    reveal_strlit("甘肃");
    reveal_strlit("福建");
    reveal_strlit("西藏");
    reveal_strlit("贵州");
    reveal_strlit("辽宁");
    reveal_strlit("重庆");
    reveal_strlit("陕西");
    reveal_strlit("青海");
    reveal_strlit("香港");
    reveal_strlit("上海市");
    reveal_strlit("云南省");
    reveal_strlit("内蒙古");
    reveal_strlit("北京市");
    reveal_strlit("台湾省");
    reveal_strlit("吉林省");
    reveal_strlit("四川省");
    reveal_strlit("天津市");
    reveal_strlit("安徽省");
    reveal_strlit("山东省");
    reveal_strlit("山西省");
    reveal_strlit("广东省");
    reveal_strlit("江苏省");
    reveal_strlit("江西省");
    reveal_strlit("河北省");
    reveal_strlit("河南省");
    reveal_strlit("浙江省");
    reveal_strlit("海南省");
    reveal_strlit("湖北省");
    reveal_strlit("湖南省");
    reveal_strlit("甘肃省");
    reveal_strlit("福建省");
    reveal_strlit("贵州省");
    reveal_strlit("辽宁省");
    reveal_strlit("重庆市");
    reveal_strlit("陕西省");
    reveal_strlit("青海省");
    reveal_strlit("黑龙江");
    reveal_strlit("黑龙江省");
    reveal_strlit("西藏自治区");
    reveal_strlit("内蒙古自治区");
    reveal_strlit("宁夏回族自治区");
    reveal_strlit("广西壮族自治区");
    reveal_strlit("澳门特别行政区");
    reveal_strlit("香港特别行政区");
    reveal_strlit("新疆维吾尔自治区");
    assert("北京市"@[0] == '北');
    assert("上海市"@[0] == '上');
    assert("天津市"@[0] == '天');
    assert("重庆市"@[0] == '重');
    assert("广东省"@[0] == '广');
    assert("吉林省"@[0] == '吉');
    assert("辽宁省"@[0] == '辽');
    assert("云南省"@[0] == '云');
    assert("四川省"@[0] == '四');
    assert("浙江省"@[0] == '浙');
    assert("江苏省"@[0] == '江');
    assert("山东省"@[0] == '山');
    assert("河南省"@[0] == '河');
    assert("河北省"@[0] == '河');
    assert("湖北省"@[0] == '湖');
    assert("湖南省"@[0] == '湖');
    assert("福建省"@[0] == '福');
    assert("安徽省"@[0] == '安');
    assert("江西省"@[0] == '江');
    assert("陕西省"@[0] == '陕');
    assert("山西省"@[0] == '山');
    assert("贵州省"@[0] == '贵');
    assert("甘肃省"@[0] == '甘');
    assert("海南省"@[0] == '海');
    assert("青海省"@[0] == '青');
    assert("台湾省"@[0] == '台');
    assert("黑龙江"@[0] == '黑');
    assert("内蒙古"@[0] == '内');
    // every alias key is two characters long, or one of the two
    // three-character short names
    assert forall|i: int| 0 <= i < spec_alias_pairs().len() implies ((
    #[trigger] spec_alias_pairs()[i]).0.len() == 2 || spec_alias_pairs()[i].0 == "黑龙江"@
        || spec_alias_pairs()[i].0 == "内蒙古"@) by {}
    assert forall|p: Seq<char>|
        index_model(spec_builtin_records()).provinces.contains(p)
        implies !spec_province_aliases().dom().contains(p) by {
        lemma_index_provinces_from_records(spec_builtin_records(), p);
        let i = choose|i: int|
            0 <= i < spec_builtin_records().len() && spec_builtin_records()[i].province == p;
        if spec_province_aliases().dom().contains(p) {
            lemma_pairs_to_map_dom(spec_alias_pairs(), p);
            let j = choose|j: int|
                0 <= j < spec_alias_pairs().len() && spec_alias_pairs()[j].0 == p;
        }
    }
}

} // verus!
