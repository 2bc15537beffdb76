use lindera::token_filter::japanese_number::{
    JapaneseNumberTokenFilter, JapaneseNumberTokenFilterConfig,
};
use lindera::{DictionaryKind, LinderaErrorKind, Token};

fn token(text: &str, details: Option<Vec<&str>>) -> Token {
    Token {
        text: text.to_string(),
        details: details.map(|details| details.iter().map(|detail| detail.to_string()).collect()),
        byte_start: 3,
        byte_end: 3 + text.len(),
    }
}

fn applied(kind: DictionaryKind, token: Token) -> Token {
    let filter = JapaneseNumberTokenFilter::new(JapaneseNumberTokenFilterConfig::new(kind));
    let mut tokens = vec![token];
    filter.apply(&mut tokens).unwrap();
    assert_eq!(1, tokens.len());
    tokens.remove(0)
}

#[test]
fn test_japanese_number_token_filter_name() {
    let filter =
        JapaneseNumberTokenFilter::new(JapaneseNumberTokenFilterConfig::new(DictionaryKind::IPADIC));
    assert_eq!("japanese_number", filter.name());
}

#[test]
fn test_japanese_number_token_filter_keeps_positions_and_details() {
    let before = token("百三十四", Some(vec!["名詞", "数", "*", "*", "*", "*", "百"]));
    let after = applied(DictionaryKind::IPADIC, before.clone());
    assert_eq!("134", after.text);
    assert_eq!(before.details, after.details);
    assert_eq!(before.byte_start, after.byte_start);
    assert_eq!(before.byte_end, after.byte_end);
}

#[test]
fn test_japanese_number_token_filter_leaves_other_tokens() {
    for details in [
        None,
        Some(vec![]),
        Some(vec!["名詞"]),
        Some(vec!["名詞", "数"]),
        Some(vec!["名詞", "数", "*"]),
        Some(vec!["名詞", "一般", "*", "*"]),
        Some(vec!["名詞", "数詞", "*", "*"]),
        Some(vec!["名詞", "数", "*", "x"]),
        Some(vec!["名詞,数,*", "*", "*", "*"]),
    ] {
        let before = token("百", details);
        let after = applied(DictionaryKind::IPADIC, before.clone());
        assert_eq!(before, after);
    }
}

#[test]
fn test_japanese_number_token_filter_tag_of_few_features() {
    // With fewer than four features only the first one makes a field, and
    // the tag, which always has four fields, is never that of a number.
    for details in [vec!["名詞,数"], vec!["名詞,数", "x", "y"], vec!["名詞,数,*,*"], vec!["名詞"]] {
        let before = token("百", Some(details));
        let after = applied(DictionaryKind::IPADIC, before.clone());
        assert_eq!(before, after);
    }
    let before = token("百", Some(vec!["名詞,数詞"]));
    let after = applied(DictionaryKind::UniDic, before.clone());
    assert_eq!(before, after);
}

#[test]
fn test_japanese_number_token_filter_goes_by_the_dictionary() {
    let ipadic = || token("百", Some(vec!["名詞", "数", "*", "*"]));
    let unidic = || token("百", Some(vec!["名詞", "数詞", "*", "*"]));
    assert_eq!("100", applied(DictionaryKind::IPADIC, ipadic()).text);
    assert_eq!("百", applied(DictionaryKind::UniDic, ipadic()).text);
    assert_eq!("100", applied(DictionaryKind::UniDic, unidic()).text);
    assert_eq!("百", applied(DictionaryKind::KoDic, ipadic()).text);
    assert_eq!("百", applied(DictionaryKind::CcCedict, unidic()).text);
    assert_eq!("百", applied(DictionaryKind::KoDic, token("百", Some(vec![]))).text);
}

#[test]
fn test_japanese_number_token_filter_config_kinds() {
    for (name, kind) in [
        ("ipadic", DictionaryKind::IPADIC),
        ("unidic", DictionaryKind::UniDic),
        ("ko-dic", DictionaryKind::KoDic),
        ("cc-cedict", DictionaryKind::CcCedict),
    ] {
        let data = format!("{{\"kind\": \"{}\"}}", name);
        let config = JapaneseNumberTokenFilterConfig::from_slice(data.as_bytes()).unwrap();
        assert_eq!(kind, config.kind);
        assert_eq!(name, kind.as_str());
        assert_eq!(Some(kind), DictionaryKind::from_name(name));
    }
    assert_eq!(None, DictionaryKind::from_name("user"));
    assert_eq!(None, DictionaryKind::from_name("IPADIC"));
}

#[test]
fn test_japanese_number_token_filter_config_wrong_schema() {
    for data in [&b"{\"kind\": \"jumandic\"}"[..], b"{\"kind\": 1}", b"{}", b"\"ipadic\"", b""] {
        let err = JapaneseNumberTokenFilterConfig::from_slice(data).unwrap_err();
        assert_eq!(LinderaErrorKind::Deserialize, err.kind());
        let err = JapaneseNumberTokenFilter::from_slice(data).unwrap_err();
        assert_eq!(LinderaErrorKind::Deserialize, err.kind());
    }
}
