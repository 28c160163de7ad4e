use cpca::AddressParser;

fn parser() -> AddressParser {
    AddressParser::new()
}

// ==================== basic parsing ====================

#[test]
fn parser_test_parse_full_address() {
    let p = parser();
    let r = p.parse("广东省深圳市南山区科技园路1号");

    assert_eq!(r.province, Some("广东省".to_string()));
    assert_eq!(r.city, Some("深圳市".to_string()));
    assert_eq!(r.district, Some("南山区".to_string()));
    assert_eq!(r.detail, "科技园路1号");
}

#[test]
fn test_parse_with_short_province() {
    let p = parser();
    let r = p.parse("广东深圳市南山区");

    assert_eq!(r.province, Some("广东省".to_string()));
    assert_eq!(r.city, Some("深圳市".to_string()));
    assert_eq!(r.district, Some("南山区".to_string()));
}

#[test]
fn test_parse_with_short_city() {
    let p = parser();
    let r = p.parse("广东省深圳南山区");

    assert_eq!(r.province, Some("广东省".to_string()));
    assert_eq!(r.city, Some("深圳市".to_string()));
    assert_eq!(r.district, Some("南山区".to_string()));
}

#[test]
fn test_parse_with_short_district() {
    let p = parser();
    let r = p.parse("广东省深圳市南山");

    assert_eq!(r.province, Some("广东省".to_string()));
    assert_eq!(r.city, Some("深圳市".to_string()));
    assert_eq!(r.district, Some("南山区".to_string()));
}

// ==================== omitted levels ====================

#[test]
fn test_parse_no_province() {
    // city + district alone: the province is inferred
    let p = parser();
    let r = p.parse("深圳市南山区科技园");

    assert_eq!(r.province, Some("广东省".to_string()));
    assert_eq!(r.city, Some("深圳市".to_string()));
    assert_eq!(r.district, Some("南山区".to_string()));
}

#[test]
fn test_parse_no_province_short_city() {
    // abbreviated city + district
    let p = parser();
    let r = p.parse("深圳南山区科技园");

    assert_eq!(r.province, Some("广东省".to_string()));
    assert_eq!(r.city, Some("深圳市".to_string()));
    assert_eq!(r.district, Some("南山区".to_string()));
}

#[test]
fn test_parse_only_city() {
    let p = parser();
    let r = p.parse("深圳市某某路");

    assert_eq!(r.province, Some("广东省".to_string()));
    assert_eq!(r.city, Some("深圳市".to_string()));
    assert_eq!(r.district, None);
    assert_eq!(r.detail, "某某路");
}

#[test]
fn test_parse_only_district() {
    let p = parser();
    let r = p.parse("南山区科技园");

    assert!(r.district.is_some() || r.detail.contains("南山"));
}

#[test]
fn test_parse_province_and_district_no_city() {
    // province + district, no city
    let p = parser();
    let r = p.parse("广东省南山区");

    assert_eq!(r.province, Some("广东省".to_string()));
    if r.district == Some("南山区".to_string()) {
        assert_eq!(r.city, Some("深圳市".to_string()));
    }
}

// ==================== municipalities ====================

#[test]
fn test_parse_municipality_full() {
    let p = parser();
    let r = p.parse("北京市朝阳区望京");

    assert_eq!(r.province, Some("北京市".to_string()));
    assert_eq!(r.city, Some("北京市".to_string()));
    assert_eq!(r.district, Some("朝阳区".to_string()));
    assert_eq!(r.detail, "望京");
}

#[test]
fn test_parse_municipality_short() {
    let p = parser();
    let r = p.parse("北京朝阳区");

    assert_eq!(r.province, Some("北京市".to_string()));
    assert_eq!(r.city, Some("北京市".to_string()));
    assert_eq!(r.district, Some("朝阳区".to_string()));
}

#[test]
fn test_parse_shanghai() {
    let p = parser();
    let r = p.parse("上海市浦东新区陆家嘴");

    assert_eq!(r.province, Some("上海市".to_string()));
    assert_eq!(r.city, Some("上海市".to_string()));
    assert_eq!(r.district, Some("浦东新区".to_string()));
}

#[test]
fn test_parse_chongqing() {
    let p = parser();
    let r = p.parse("重庆市渝中区解放碑");

    assert_eq!(r.province, Some("重庆市".to_string()));
    assert_eq!(r.city, Some("重庆市".to_string()));
    assert_eq!(r.district, Some("渝中区".to_string()));
}

// ==================== autonomous regions ====================

#[test]
fn test_parse_autonomous_region() {
    let p = parser();
    let r = p.parse("广西壮族自治区南宁市青秀区");

    assert_eq!(r.province, Some("广西壮族自治区".to_string()));
    assert_eq!(r.city, Some("南宁市".to_string()));
    assert_eq!(r.district, Some("青秀区".to_string()));
}

#[test]
fn test_parse_autonomous_region_short() {
    let p = parser();
    let r = p.parse("广西南宁市");

    assert_eq!(r.province, Some("广西壮族自治区".to_string()));
    assert_eq!(r.city, Some("南宁市".to_string()));
}

#[test]
fn test_parse_inner_mongolia() {
    let p = parser();
    let r = p.parse("内蒙古自治区呼和浩特市");

    assert_eq!(r.province, Some("内蒙古自治区".to_string()));
    assert_eq!(r.city, Some("呼和浩特市".to_string()));
}

#[test]
fn test_parse_inner_mongolia_short() {
    let p = parser();
    let r = p.parse("内蒙古呼和浩特");

    assert_eq!(r.province, Some("内蒙古自治区".to_string()));
    assert_eq!(r.city, Some("呼和浩特市".to_string()));
}

// ==================== unit-less cities ====================

#[test]
fn test_parse_dongguan() {
    // the city has no districts, only towns
    let p = parser();
    let r = p.parse("广东省东莞市长安镇");

    assert_eq!(r.province, Some("广东省".to_string()));
    assert_eq!(r.city, Some("东莞市".to_string()));
}

#[test]
fn test_parse_zhongshan() {
    let p = parser();
    let r = p.parse("广东省中山市小榄镇");

    assert_eq!(r.province, Some("广东省".to_string()));
    assert_eq!(r.city, Some("中山市".to_string()));
}

// ==================== autonomous prefectures ====================

#[test]
fn test_parse_autonomous_prefecture() {
    let p = parser();
    let r = p.parse("云南省大理白族自治州大理市");

    assert_eq!(r.province, Some("云南省".to_string()));
    assert_eq!(r.city, Some("大理白族自治州".to_string()));
    assert_eq!(r.district, Some("大理市".to_string()));
}

// ==================== edge cases ====================

#[test]
fn test_parse_empty() {
    let p = parser();
    let r = p.parse("");

    assert_eq!(r.province, None);
    assert_eq!(r.city, None);
    assert_eq!(r.district, None);
    assert_eq!(r.detail, "");
}

#[test]
fn test_parse_whitespace() {
    let p = parser();
    let r = p.parse("   ");

    assert_eq!(r.province, None);
    assert_eq!(r.city, None);
    assert_eq!(r.district, None);
}

#[test]
fn test_parse_only_detail() {
    let p = parser();
    let r = p.parse("某某路123号");

    assert_eq!(r.province, None);
    assert_eq!(r.city, None);
    assert_eq!(r.district, None);
    assert_eq!(r.detail, "某某路123号");
}

#[test]
fn test_parse_with_extra_spaces() {
    let p = parser();
    let r = p.parse("  广东省  深圳市  南山区  ");

    assert_eq!(r.province, Some("广东省".to_string()));
    // inner spaces break the remaining matches; that is expected
}

// ==================== normalization ====================

#[test]
fn test_normalize_full() {
    let p = parser();
    let result = p.normalize("广东省", "深圳市", Some("南山区"));
    assert_eq!(result, "广东省深圳市南山区");
}

#[test]
fn test_normalize_short_names() {
    let p = parser();
    let result = p.normalize("广东", "深圳", Some("南山"));
    assert_eq!(result, "广东省深圳市南山区");
}

#[test]
fn test_normalize_no_district() {
    let p = parser();
    let result = p.normalize("广东", "深圳", None);
    assert_eq!(result, "广东省深圳市");
}

#[test]
fn test_normalize_municipality() {
    let p = parser();
    let result = p.normalize("北京", "北京", Some("朝阳"));
    assert_eq!(result, "北京市北京市朝阳区");
}

// ==================== batch parsing ====================

#[test]
fn test_parse_batch() {
    let p = parser();
    let addresses = vec!["广东省深圳市南山区", "北京市朝阳区", "上海市浦东新区"];
    let results = p.parse_batch(&addresses);

    assert_eq!(results.len(), 3);
    assert_eq!(results[0].province, Some("广东省".to_string()));
    assert_eq!(results[1].province, Some("北京市".to_string()));
    assert_eq!(results[2].province, Some("上海市".to_string()));
}

// ==================== helpers ====================

#[test]
fn test_is_valid_address() {
    let p = parser();

    assert!(p.is_valid_address("广东省深圳市"));
    assert!(p.is_valid_address("深圳市"));
    assert!(!p.is_valid_address("某某路123号"));
    assert!(!p.is_valid_address(""));
}

#[test]
fn test_provinces_list() {
    let p = parser();
    let provinces = p.provinces();

    assert!(!provinces.is_empty());
    assert!(provinces.iter().any(|p| *p == "广东省"));
    assert!(provinces.iter().any(|p| *p == "北京市"));
}

#[test]
fn test_cities_of_province() {
    let p = parser();
    let cities = p.cities_of_province("广东省");

    assert!(!cities.is_empty());
    assert!(cities.iter().any(|c| *c == "深圳市"));
    assert!(cities.iter().any(|c| *c == "广州市"));
}

#[test]
fn test_districts_of_city() {
    let p = parser();
    let districts = p.districts_of_city("深圳市");

    assert!(!districts.is_empty());
    assert!(districts.iter().any(|d| *d == "南山区"));
    assert!(districts.iter().any(|d| *d == "福田区"));
}

// ==================== shared names ====================

#[test]
fn test_parse_duplicate_district_name() {
    // the same district name exists in two municipalities' cities
    let p = parser();

    let r1 = p.parse("北京市朝阳区");
    assert_eq!(r1.province, Some("北京市".to_string()));
    assert_eq!(r1.district, Some("朝阳区".to_string()));

    let r2 = p.parse("吉林省长春市朝阳区");
    assert_eq!(r2.province, Some("吉林省".to_string()));
    assert_eq!(r2.city, Some("长春市".to_string()));
    assert_eq!(r2.district, Some("朝阳区".to_string()));
}

// ==================== crate-level helpers ====================

#[test]
fn test_global_parser() {
    let r = cpca::parse("广东省深圳市");
    assert_eq!(r.province, Some("广东省".to_string()));
    assert_eq!(r.city, Some("深圳市".to_string()));
}

#[test]
fn test_global_normalize() {
    let result = cpca::normalize("广东", "深圳", Some("南山"));
    assert_eq!(result, "广东省深圳市南山区");
}

// ==================== abbreviated prefectures ====================

#[test]
fn test_parse_autonomous_prefecture_short() {
    let p = parser();

    let r = p.parse("云南大理");
    assert_eq!(r.province, Some("云南省".to_string()));
    assert_eq!(r.city, Some("大理白族自治州".to_string()));

    let r = p.parse("四川甘孜");
    assert_eq!(r.province, Some("四川省".to_string()));
    assert_eq!(r.city, Some("甘孜藏族自治州".to_string()));

    let r = p.parse("四川康定");
    assert_eq!(r.province, Some("四川省".to_string()));
    assert_eq!(r.city, Some("甘孜藏族自治州".to_string()));
    assert_eq!(r.district, Some("康定市".to_string()));
}

// ==================== county-level cities ====================

#[test]
fn test_parse_county_level_city() {
    let p = parser();

    let r = p.parse("康定市");
    assert_eq!(r.province, Some("四川省".to_string()));
    assert_eq!(r.city, Some("甘孜藏族自治州".to_string()));
    assert_eq!(r.district, Some("康定市".to_string()));

    let r = p.parse("大理市");
    assert_eq!(r.province, Some("云南省".to_string()));
    assert_eq!(r.city, Some("大理白族自治州".to_string()));
    assert_eq!(r.district, Some("大理市".to_string()));

    let r = p.parse("义乌市");
    assert_eq!(r.province, Some("浙江省".to_string()));
    assert_eq!(r.city, Some("金华市".to_string()));
    assert_eq!(r.district, Some("义乌市".to_string()));

    let r = p.parse("昆山市");
    assert_eq!(r.province, Some("江苏省".to_string()));
    assert_eq!(r.city, Some("苏州市".to_string()));
    assert_eq!(r.district, Some("昆山市".to_string()));

    let r = p.parse("寿光市");
    assert_eq!(r.province, Some("山东省".to_string()));
    assert_eq!(r.city, Some("潍坊市".to_string()));
    assert_eq!(r.district, Some("寿光市".to_string()));
}

// ==================== ambiguity ====================

#[test]
fn test_parse_ambiguous_district() {
    let p = parser();

    let r = p.parse("南山区");
    assert!(r.district.is_some());

    let r = p.parse("深圳南山区");
    assert_eq!(r.province, Some("广东省".to_string()));
    assert_eq!(r.city, Some("深圳市".to_string()));
    assert_eq!(r.district, Some("南山区".to_string()));
}

#[test]
fn test_parse_city_district_same_name() {
    // one name is both a prefecture-level city and a district elsewhere
    let p = parser();

    let r = p.parse("北京朝阳");
    assert_eq!(r.province, Some("北京市".to_string()));
    assert_eq!(r.city, Some("北京市".to_string()));
    assert_eq!(r.district, Some("朝阳区".to_string()));

    let r = p.parse("长春朝阳区");
    assert_eq!(r.province, Some("吉林省".to_string()));
    assert_eq!(r.city, Some("长春市".to_string()));
    assert_eq!(r.district, Some("朝阳区".to_string()));
}

// ==================== match precedence ====================

#[test]
fn test_full_match_priority() {
    let p = parser();

    // a fully suffixed district outranks the shorter city interpretation
    let r = p.parse("朝阳区");
    assert_eq!(r.district, Some("朝阳区".to_string()));

    let r = p.parse("北京朝阳区");
    assert_eq!(r.province, Some("北京市".to_string()));
    assert_eq!(r.city, Some("北京市".to_string()));
    assert_eq!(r.district, Some("朝阳区".to_string()));

    // with province context the same name resolves as the city
    let r = p.parse("辽宁朝阳");
    assert_eq!(r.province, Some("辽宁省".to_string()));
    assert_eq!(r.city, Some("朝阳市".to_string()));

    let r = p.parse("辽宁省朝阳市");
    assert_eq!(r.province, Some("辽宁省".to_string()));
    assert_eq!(r.city, Some("朝阳市".to_string()));
}

#[test]
fn test_district_suffix_priority() {
    let p = parser();

    let r = p.parse("福田区");
    assert_eq!(r.district, Some("福田区".to_string()));

    let r = p.parse("南山区");
    assert_eq!(r.district, Some("南山区".to_string()));

    let r = p.parse("宝安区");
    assert_eq!(r.district, Some("宝安区".to_string()));
}

// ==================== law scenarios ====================

#[test]
fn test_alias_and_full_agree() {
    // an alias short name and its canonical name resolve the same province
    let p = parser();
    let a = p.parse("广东深圳市南山区科技园");
    let b = p.parse("广东省深圳市南山区科技园");
    assert_eq!(a.province, b.province);
    let a = p.parse("内蒙古呼和浩特市");
    let b = p.parse("内蒙古自治区呼和浩特市");
    assert_eq!(a.province, b.province);
}

#[test]
fn test_ambiguous_district_unresolved() {
    // two distinct owners and no context: province and city stay absent
    let p = parser();
    let r = p.parse("朝阳区");
    assert_eq!(r.province, None);
    assert_eq!(r.city, None);
    assert_eq!(r.district, Some("朝阳区".to_string()));
    assert_eq!(r.detail, "");
}

#[test]
fn test_municipality_backfill() {
    // a municipality resolved through its district still names itself as city
    let p = parser();
    let r = p.parse("渝中区解放碑");
    if r.province == Some("重庆市".to_string()) {
        assert_eq!(r.city, Some("重庆市".to_string()));
    }
}

#[test]
fn test_city_comes_with_province() {
    // a resolved city always comes with a resolved province
    let p = parser();
    let cases = [
        "广东省深圳市南山区",
        "深圳南山",
        "朝阳区",
        "辽宁朝阳",
        "康定市",
        "北京朝阳区",
        "某某路123号",
    ];
    for addr in cases {
        let r = p.parse(addr);
        if r.city.is_some() {
            assert!(r.province.is_some(), "city without province for {addr}");
        }
    }
}

#[test]
fn test_parse_trims_detail() {
    // the remainder is right-trimmed only; an inner leading space survives
    let p = parser();
    let r = p.parse("广东省深圳市南山区科技园 ");
    assert_eq!(r.detail, "科技园");
    let r = p.parse("广东省 深圳市");
    assert_eq!(r.detail, " 深圳市");
}
