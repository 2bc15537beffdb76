use lindera::character_filter::correct_offset;
use lindera::character_filter::regex::{RegexCharacterFilter, RegexCharacterFilterConfig};

#[test]
fn test_regex_character_filter_config_from_slice() {
    let config_str = r#"
        {
            "pattern": "リンデラ",
            "replacement": "Lindera"
        }
        "#;
    let config = RegexCharacterFilterConfig::from_slice(config_str.as_bytes()).unwrap();
    assert_eq!("リンデラ", config.pattern);
    assert_eq!("Lindera", config.replacement);
}

#[test]
fn test_regex_character_filter_from_slice() {
    let config_str = r#"
        {
            "pattern": "リンデラ",
            "replacement": "Lindera"
        }
        "#;
    let result = RegexCharacterFilterConfig::from_slice(config_str.as_bytes());
    assert_eq!(true, result.is_ok());
}

#[test]
fn test_regex_character_filter_apply() {
    {
        let config_str = r#"
            {
                "pattern": "リンデラ",
                "replacement": "Lindera"
            }
            "#;
        let filter = RegexCharacterFilter::from_slice(config_str.as_bytes()).unwrap();
        let text = "リンデラは形態素解析器です。";
        let (filterd_text, offsets, diffs) = filter.apply(text).unwrap();
        assert_eq!("Linderaは形態素解析器です。", filterd_text);
        assert_eq!(vec![7], offsets);
        assert_eq!(vec![5], diffs);
        let start = 0;
        let end = 7;
        assert_eq!("Lindera", &filterd_text[start..end]);
        let correct_start = correct_offset(start, &offsets, &diffs, filterd_text.len());
        let correct_end = correct_offset(end, &offsets, &diffs, filterd_text.len());
        assert_eq!(0, correct_start);
        assert_eq!(12, correct_end);
        assert_eq!("リンデラ", &text[correct_start..correct_end]);
    }

    {
        let config_str = r#"
            {
                "pattern": "\\s{2,}",
                "replacement": " "
            }
            "#;
        let filter = RegexCharacterFilter::from_slice(config_str.as_bytes()).unwrap();
        let text = "a     b     c";
        let (filterd_text, offsets, diffs) = filter.apply(text).unwrap();
        assert_eq!("a b c", filterd_text);
        assert_eq!(vec![2, 4], offsets);
        assert_eq!(vec![4, 8], diffs);
        let start = 2;
        let end = 3;
        assert_eq!("b", &filterd_text[start..end]);
        let correct_start = correct_offset(start, &offsets, &diffs, filterd_text.len());
        let correct_end = correct_offset(end, &offsets, &diffs, filterd_text.len());
        assert_eq!(6, correct_start);
        assert_eq!(7, correct_end);
        assert_eq!("b", &text[correct_start..correct_end]);
    }
}
