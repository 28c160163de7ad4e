use cpca::data::{load_regions, normalize_city_name, normalize_district_name, province_aliases, RegionIndex};

#[test]
fn test_province_aliases() {
    let aliases = province_aliases();
    assert_eq!(aliases.get("广东"), Some(&"广东省".to_string()));
    assert_eq!(aliases.get("北京"), Some(&"北京市".to_string()));
    assert_eq!(aliases.get("内蒙古"), Some(&"内蒙古自治区".to_string()));
}

#[test]
fn test_region_index() {
    let regions = load_regions();
    let index = RegionIndex::build(&regions);

    // provinces
    assert!(index.provinces.contains(&"广东省".to_string()));
    assert!(index.provinces.contains(&"北京市".to_string()));

    // city index
    assert!(index.cities.contains(&"深圳市".to_string()));
    assert_eq!(
        index.city_to_province.get("深圳市"),
        Some(&"广东省".to_string())
    );

    // municipalities
    assert!(index.is_municipality("北京市"));
    assert!(!index.is_municipality("广东省"));

    // unit-less cities
    assert!(index.is_no_district_city("东莞市"));
    assert!(!index.is_no_district_city("深圳市"));
}

#[test]
fn test_load_regions_well_formed() {
    let regions = load_regions();
    assert!(!regions.is_empty());
    for r in &regions {
        assert!(!r.province.is_empty());
        assert!(!r.city.is_empty());
        let muni = r.province == "北京市"
            || r.province == "上海市"
            || r.province == "天津市"
            || r.province == "重庆市";
        if muni {
            assert_eq!(r.city, r.province);
        }
    }
}

#[test]
fn test_normalize_city_name() {
    assert_eq!(normalize_city_name("深圳"), "深圳市");
    assert_eq!(normalize_city_name("深圳市"), "深圳市");
    assert_eq!(normalize_city_name("大理白族自治州"), "大理白族自治州");
    assert_eq!(normalize_city_name("阿里地区"), "阿里地区");
    assert_eq!(normalize_city_name("锡林郭勒盟"), "锡林郭勒盟");
}

#[test]
fn test_normalize_district_name() {
    assert_eq!(normalize_district_name("南山"), "南山区");
    assert_eq!(normalize_district_name("南山区"), "南山区");
    assert_eq!(normalize_district_name("甘孜县"), "甘孜县");
    assert_eq!(normalize_district_name("康定市"), "康定市");
    assert_eq!(normalize_district_name("阿巴嘎旗"), "阿巴嘎旗");
}

#[test]
fn test_find_cities_by_district() {
    let regions = load_regions();
    let index = RegionIndex::build(&regions);
    let owners = index.find_cities_by_district("朝阳区").unwrap();
    assert!(owners.len() >= 2);
    assert!(owners.contains(&("北京市".to_string(), "北京市".to_string())));
    assert!(owners.contains(&("吉林省".to_string(), "长春市".to_string())));
}

#[test]
fn test_validate_district() {
    let regions = load_regions();
    let index = RegionIndex::build(&regions);
    assert!(index.validate_district("深圳市", "南山区"));
    assert!(!index.validate_district("深圳市", "朝阳区"));
    assert!(!index.validate_district("东莞市", "南山区"));
}

#[test]
fn test_find_province_by_city_short_form() {
    let regions = load_regions();
    let index = RegionIndex::build(&regions);
    assert_eq!(index.find_province_by_city("深圳"), Some(&"广东省".to_string()));
    assert_eq!(index.find_province_by_city("不存在"), None);
}
