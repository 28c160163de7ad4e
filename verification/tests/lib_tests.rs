use cpca::AddressParser;
use cpca::Region;

#[test]
fn lib_test_parse_full_address() {
    let parser = AddressParser::new();
    let result = parser.parse("广东省深圳市南山区科技园路1号");

    assert_eq!(result.province, Some("广东省".to_string()));
    assert_eq!(result.city, Some("深圳市".to_string()));
    assert_eq!(result.district, Some("南山区".to_string()));
    assert_eq!(result.detail, "科技园路1号");
}

#[test]
fn test_parse_short_name() {
    let parser = AddressParser::new();
    let result = parser.parse("深圳南山科技园");

    assert_eq!(result.province, Some("广东省".to_string()));
    assert_eq!(result.city, Some("深圳市".to_string()));
    assert_eq!(result.district, Some("南山区".to_string()));
}

#[test]
fn test_parse_municipality() {
    let parser = AddressParser::new();
    let result = parser.parse("北京市朝阳区望京");

    assert_eq!(result.province, Some("北京市".to_string()));
    assert_eq!(result.city, Some("北京市".to_string()));
    assert_eq!(result.district, Some("朝阳区".to_string()));
}

#[test]
fn test_normalize() {
    let parser = AddressParser::new();

    assert_eq!(
        parser.normalize("广东", "深圳", Some("南山")),
        "广东省深圳市南山区"
    );
    assert_eq!(parser.normalize("广东省", "深圳市", None), "广东省深圳市");
    assert_eq!(
        parser.normalize("北京", "北京", Some("朝阳")),
        "北京市北京市朝阳区"
    );
}

#[test]
fn test_crate_parse_empty() {
    let r = cpca::parse("");
    assert_eq!(r.province, None);
    assert_eq!(r.city, None);
    assert_eq!(r.district, None);
    assert_eq!(r.detail, "");
}

#[test]
fn test_from_records_custom_gazetteer() {
    let records = vec![
        Region::new("广东省".to_string(), "深圳市".to_string(), Some("南山区".to_string())),
        Region::new("北京市".to_string(), "北京市".to_string(), Some("朝阳区".to_string())),
    ];
    let p = AddressParser::from_records(&records);
    let r = p.parse("深圳市南山区某处");
    assert_eq!(r.province, Some("广东省".to_string()));
    assert_eq!(r.city, Some("深圳市".to_string()));
    assert_eq!(r.district, Some("南山区".to_string()));
    assert_eq!(r.detail, "某处");

    // with a single owner, a bare district resolves its city and province
    let r = p.parse("南山区");
    assert_eq!(r.province, Some("广东省".to_string()));
    assert_eq!(r.city, Some("深圳市".to_string()));
}
