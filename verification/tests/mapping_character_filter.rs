use lindera::character_filter::correct_offset;
use lindera::character_filter::mapping::{
    Mapping, MappingCharacterFilter, MappingCharacterFilterConfig,
};
use lindera::LinderaErrorKind;

fn filter(pairs: &[(&str, &str)]) -> MappingCharacterFilter {
    let mapping = pairs
        .iter()
        .map(|(from, to)| Mapping { from: from.to_string(), to: to.to_string() })
        .collect();
    MappingCharacterFilter::new(MappingCharacterFilterConfig::new(mapping))
}

#[test]
fn test_mapping_character_filter_config_from_slice() {
    let config_str = r#"
        {
            "mapping": {
                "ｱ": "ア",
                "ｲ": "イ",
                "ｶﾞ": "ガ"
            }
        }
        "#;
    let config = MappingCharacterFilterConfig::from_slice(config_str.as_bytes()).unwrap();
    assert_eq!(3, config.mapping.len());
    assert!(config.mapping.contains(&Mapping { from: "ｶﾞ".to_string(), to: "ガ".to_string() }));
}

#[test]
fn test_mapping_character_filter_config_wrong_schema() {
    for data in [
        &b"{}"[..],
        b"{\"mapping\": [\"a\", \"b\"]}",
        b"{\"mapping\": {\"a\": 1}}",
        b"{\"mapping\": \"a\"}",
        b"{\"mapping\": {\"a\": \"b\"}",
    ] {
        let err = MappingCharacterFilterConfig::from_slice(data).unwrap_err();
        assert_eq!(LinderaErrorKind::Deserialize, err.kind());
        let err = MappingCharacterFilter::from_slice(data).unwrap_err();
        assert_eq!(LinderaErrorKind::Deserialize, err.kind());
    }
}

#[test]
fn test_mapping_character_filter_apply_shorter() {
    let filter = filter(&[("リンデラ", "Lindera")]);
    assert_eq!("mapping", filter.name());
    let text = "リンデラは形態素解析器です。";
    let (filtered_text, offsets, diffs) = filter.apply(text).unwrap();
    assert_eq!("Linderaは形態素解析器です。", filtered_text);
    assert_eq!(vec![7], offsets);
    assert_eq!(vec![5], diffs);
    let start = correct_offset(0, &offsets, &diffs, filtered_text.len());
    let end = correct_offset(7, &offsets, &diffs, filtered_text.len());
    assert_eq!("リンデラ", &text[start..end]);
}

#[test]
fn test_mapping_character_filter_apply_longer() {
    let filter = filter(&[("B", "bbb"), ("D", "ddd"), ("G", "gggg")]);
    let text = "ABCDEFG";
    let (filtered_text, offsets, diffs) = filter.apply(text).unwrap();
    assert_eq!("AbbbCdddEFgggg", filtered_text);
    assert_eq!(vec![2, 3, 6, 7, 11, 12, 13], offsets);
    assert_eq!(vec![-1, -2, -3, -4, -5, -6, -7], diffs);
    let start = correct_offset(1, &offsets, &diffs, filtered_text.len());
    let end = correct_offset(4, &offsets, &diffs, filtered_text.len());
    assert_eq!("B", &text[start..end]);
    let start = correct_offset(10, &offsets, &diffs, filtered_text.len());
    let end = correct_offset(14, &offsets, &diffs, filtered_text.len());
    assert_eq!("G", &text[start..end]);
}

#[test]
fn test_mapping_character_filter_takes_the_longest_key() {
    let filter = filter(&[("a", "1"), ("abc", "3"), ("ab", "2"), ("", "x"), ("abc", "4")]);
    let (text, offsets, diffs) = filter.apply("abcdabxa").unwrap();
    assert_eq!("3d2x1", text);
    assert_eq!(vec![1, 3], offsets);
    assert_eq!(vec![2, 3], diffs);
}

#[test]
fn test_mapping_character_filter_goes_from_left_to_right() {
    let filter = filter(&[("aa", "b"), ("ab", "c")]);
    assert_eq!("bc", filter.apply("aaab").unwrap().0);
    assert_eq!("bb", filter.apply("aaaa").unwrap().0);
    assert_eq!("ba", filter.apply("aaa").unwrap().0);
}

#[test]
fn test_mapping_character_filter_without_match() {
    let filter = filter(&[("x", "y")]);
    let (text, offsets, diffs) = filter.apply("形態素 abc").unwrap();
    assert_eq!("形態素 abc", text);
    assert!(offsets.is_empty());
    assert!(diffs.is_empty());
    let empty = filter.apply("").unwrap();
    assert_eq!(("".to_string(), Vec::new(), Vec::new()), empty);
}

#[test]
fn test_mapping_character_filter_empty_table() {
    let filter = MappingCharacterFilter::from_slice(b"{\"mapping\": {}}").unwrap();
    let (text, offsets, diffs) = filter.apply("ｶﾞｿﾘﾝ").unwrap();
    assert_eq!("ｶﾞｿﾘﾝ", text);
    assert!(offsets.is_empty());
    assert!(diffs.is_empty());
}

#[test]
fn test_mapping_character_filter_positions_are_bytes() {
    let filter = filter(&[("ｶﾞ", "ガ"), ("素", "so")]);
    let text = "態素ｶﾞ素";
    let (filtered_text, offsets, diffs) = filter.apply(text).unwrap();
    assert_eq!("態soガso", filtered_text);
    assert_eq!(vec![5, 8, 10], offsets);
    assert_eq!(vec![1, 4, 5], diffs);
    let mut last = 0;
    for pos in 0..=filtered_text.len() {
        let source = correct_offset(pos, &offsets, &diffs, filtered_text.len());
        assert!(last <= source);
        assert!(source <= text.len());
        last = source;
    }
    assert_eq!(text.len(), last);
}

#[test]
fn test_mapping_character_filter_clone() {
    let filter = filter(&[("a", "bb")]);
    let copy = filter.clone();
    assert_eq!(filter.apply("banana").unwrap(), copy.apply("banana").unwrap());
}
