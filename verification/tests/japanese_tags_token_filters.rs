use lindera::token_filter::japanese_keep_tags::{
    JapaneseKeepTagsTokenFilter, JapaneseKeepTagsTokenFilterConfig,
};
use lindera::token_filter::japanese_stop_tags::{
    JapaneseStopTagsTokenFilter, JapaneseStopTagsTokenFilterConfig,
};
use lindera::token_filter::{pad_tag, pos_tag_of};
use lindera::{LinderaErrorKind, Token};

fn token(text: &str, details: Option<Vec<&str>>) -> Token {
    Token {
        text: text.to_string(),
        details: details.map(|details| details.iter().map(|detail| detail.to_string()).collect()),
        byte_start: 0,
        byte_end: text.len(),
    }
}

fn sample() -> Vec<Token> {
    vec![
        token("すもも", Some(vec!["名詞", "一般", "*", "*", "*", "*", "すもも", "スモモ", "スモモ"])),
        token("も", Some(vec!["助詞", "係助詞", "*", "*", "*", "*", "も", "モ", "モ"])),
        token("桃", Some(vec!["名詞", "一般", "*", "*", "*", "*", "桃", "モモ", "モモ"])),
        token("の", Some(vec!["助詞", "連体化", "*", "*", "*", "*", "の", "ノ", "ノ"])),
        token("うち", Some(vec!["名詞", "非自立", "副詞可能", "*", "*", "*", "うち", "ウチ", "ウチ"])),
        token("です", Some(vec!["助動詞", "*", "*", "*", "特殊・デス", "基本形", "です", "デス", "デス"])),
        token("Lindera", Some(vec!["UNK"])),
        token("x", None),
        token("y", Some(vec![])),
    ]
}

fn surfaces(tokens: &[Token]) -> Vec<&str> {
    tokens.iter().map(|token| token.text.as_str()).collect()
}

fn strings(tags: &[&str]) -> Vec<String> {
    tags.iter().map(|tag| tag.to_string()).collect()
}

#[test]
fn test_pad_tag() {
    assert_eq!("名詞,*,*,*", pad_tag("名詞"));
    assert_eq!("名詞,一般,*,*", pad_tag("名詞,一般"));
    assert_eq!("名詞,接尾,助数詞,*", pad_tag("名詞,接尾,助数詞"));
    assert_eq!("名詞,数,*,*", pad_tag("名詞,数,*,*"));
    assert_eq!("a,b,c,d,e", pad_tag("a,b,c,d,e"));
    assert_eq!(",*,*,*", pad_tag(""));
}

#[test]
fn test_pos_tag_of() {
    assert_eq!("名詞,一般,*,*", pos_tag_of(&strings(&["名詞", "一般", "*", "*", "*"])));
    assert_eq!("a,b,c,d", pos_tag_of(&strings(&["a", "b", "c", "d"])));
    assert_eq!("a,*,*,*", pos_tag_of(&strings(&["a", "b", "c"])));
    assert_eq!("UNK,*,*,*", pos_tag_of(&strings(&["UNK"])));
    assert_eq!("*,*,*,*", pos_tag_of(&strings(&[])));
}

#[test]
fn test_japanese_keep_tags_token_filter_config_from_slice() {
    let config_str = r#"
        {
            "tags": [
                "名詞",
                "名詞,一般",
                "名詞,一般,*,*",
                "名詞"
            ]
        }
        "#;
    let config = JapaneseKeepTagsTokenFilterConfig::from_slice(config_str.as_bytes()).unwrap();
    assert_eq!(strings(&["名詞,*,*,*", "名詞,一般,*,*"]), config.tags);
    let config = JapaneseStopTagsTokenFilterConfig::from_slice(config_str.as_bytes()).unwrap();
    assert_eq!(strings(&["名詞,*,*,*", "名詞,一般,*,*"]), config.tags);
}

#[test]
fn test_japanese_tags_token_filter_config_wrong_schema() {
    for data in [&b"{}"[..], b"{\"tags\": \"x\"}", b"{\"tags\": [1]}", b"["] {
        let err = JapaneseKeepTagsTokenFilter::from_slice(data).unwrap_err();
        assert_eq!(LinderaErrorKind::Deserialize, err.kind());
        let err = JapaneseStopTagsTokenFilter::from_slice(data).unwrap_err();
        assert_eq!(LinderaErrorKind::Deserialize, err.kind());
    }
}

#[test]
fn test_japanese_keep_tags_token_filter_apply() {
    let config = JapaneseKeepTagsTokenFilterConfig::new(strings(&["名詞,一般", "助動詞"]));
    let filter = JapaneseKeepTagsTokenFilter::new(config);
    assert_eq!("japanese_keep_tags", filter.name());
    let mut tokens = sample();
    filter.apply(&mut tokens).unwrap();
    assert_eq!(vec!["すもも", "桃", "です"], surfaces(&tokens));
}

#[test]
fn test_japanese_stop_tags_token_filter_apply() {
    let config = JapaneseStopTagsTokenFilterConfig::new(strings(&[
        "助詞",
        "助詞,係助詞",
        "助詞,連体化",
        "助動詞",
    ]));
    let filter = JapaneseStopTagsTokenFilter::new(config);
    assert_eq!("japanese_stop_tags", filter.name());
    let mut tokens = sample();
    filter.apply(&mut tokens).unwrap();
    assert_eq!(vec!["すもも", "桃", "うち", "Lindera", "x", "y"], surfaces(&tokens));
}

#[test]
fn test_japanese_tags_compare_the_whole_tag() {
    // A tag of one field stands for the tag whose other fields hold an
    // asterisk, not for every tag that begins so.
    let filter = JapaneseKeepTagsTokenFilter::new(JapaneseKeepTagsTokenFilterConfig::new(
        strings(&["名詞", "UNK", "*"]),
    ));
    let mut tokens = sample();
    filter.apply(&mut tokens).unwrap();
    assert_eq!(vec!["Lindera", "y"], surfaces(&tokens));

    let filter = JapaneseKeepTagsTokenFilter::new(JapaneseKeepTagsTokenFilterConfig::new(
        strings(&["名詞,非自立,副詞可能", "名詞,非自立"]),
    ));
    let mut tokens = sample();
    filter.apply(&mut tokens).unwrap();
    assert_eq!(vec!["うち"], surfaces(&tokens));
}

#[test]
fn test_japanese_keep_and_stop_split_the_tokens() {
    for tags in [vec!["名詞,一般"], vec!["助詞,係助詞", "助動詞", "UNK"], vec![], vec!["*"]] {
        let keep =
            JapaneseKeepTagsTokenFilter::new(JapaneseKeepTagsTokenFilterConfig::new(strings(&tags)));
        let stop =
            JapaneseStopTagsTokenFilter::new(JapaneseStopTagsTokenFilterConfig::new(strings(&tags)));

        let all = sample();
        let mut kept = sample();
        keep.apply(&mut kept).unwrap();
        let mut stopped = sample();
        stop.apply(&mut stopped).unwrap();

        assert_eq!(all.len(), kept.len() + stopped.len());
        for token in all.iter() {
            let in_all = all.iter().filter(|other| *other == token).count();
            let in_kept = kept.iter().filter(|other| *other == token).count();
            let in_stopped = stopped.iter().filter(|other| *other == token).count();
            assert_eq!(in_all, in_kept + in_stopped);
            assert!(in_kept == 0 || in_stopped == 0);
        }
    }
}

#[test]
fn test_japanese_tags_token_filter_clone() {
    let keep = JapaneseKeepTagsTokenFilter::new(JapaneseKeepTagsTokenFilterConfig::new(
        strings(&["名詞,一般"]),
    ));
    let stop = JapaneseStopTagsTokenFilter::new(JapaneseStopTagsTokenFilterConfig::new(
        strings(&["名詞,一般"]),
    ));
    let (mut a, mut b, mut c, mut d) = (sample(), sample(), sample(), sample());
    keep.apply(&mut a).unwrap();
    keep.clone().apply(&mut b).unwrap();
    stop.apply(&mut c).unwrap();
    stop.clone().apply(&mut d).unwrap();
    assert_eq!(a, b);
    assert_eq!(c, d);
}
