use cpca::{ParsedAddress, ParseError, Region};

#[test]
fn test_region_full_name() {
    let region = Region::new("广东省".to_string(), "深圳市".to_string(), Some("南山区".to_string()));
    assert_eq!(region.full_name(), "广东省深圳市南山区");

    let region = Region::new("广东省".to_string(), "东莞市".to_string(), None);
    assert_eq!(region.full_name(), "广东省东莞市");
}

#[test]
fn test_parsed_address() {
    let addr = ParsedAddress {
        province: Some("广东省".to_string()),
        city: Some("深圳市".to_string()),
        district: Some("南山区".to_string()),
        detail: "科技园".to_string(),
    };
    assert!(addr.is_complete());
    assert_eq!(addr.full_address(), "广东省深圳市南山区科技园");
}

#[test]
fn test_municipality_address() {
    let addr = ParsedAddress {
        province: Some("北京市".to_string()),
        city: Some("北京市".to_string()),
        district: Some("朝阳区".to_string()),
        detail: "望京".to_string(),
    };
    // a municipality's repeated name is not shown twice
    assert_eq!(addr.full_address(), "北京市朝阳区望京");
}

#[test]
fn test_parsed_address_empty() {
    let addr = ParsedAddress::empty();
    assert!(!addr.has_province());
    assert!(!addr.has_city());
    assert!(!addr.has_district());
    assert!(!addr.is_complete());
    assert_eq!(addr.detail, "");
    assert_eq!(addr.full_address(), "");
}

#[test]
fn test_parse_error_messages() {
    let e = ParseError::DataLoadError("bad file".to_string());
    assert_eq!(e.message(), "Failed to load region data: bad file");
    let e = ParseError::InvalidFormat("???".to_string());
    assert_eq!(e.message(), "Invalid address format: ???");
    let e = ParseError::NotFound("nowhere".to_string());
    assert_eq!(e.message(), "No matching region found for: nowhere");
}
