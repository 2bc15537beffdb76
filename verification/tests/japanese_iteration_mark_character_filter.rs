use lindera::character_filter::correct_offset;
use lindera::character_filter::japanese_iteration_mark::{
    JapaneseIterationMarkCharacterFilter, JapaneseIterationMarkCharacterFilterConfig,
};
use lindera::LinderaErrorKind;

fn filter(normalize_kanji: bool, normalize_kana: bool) -> JapaneseIterationMarkCharacterFilter {
    JapaneseIterationMarkCharacterFilter::new(JapaneseIterationMarkCharacterFilterConfig::new(
        normalize_kanji,
        normalize_kana,
    ))
}

fn written_out(text: &str) -> String {
    filter(true, true).apply(text).unwrap().0
}

#[test]
fn test_japanese_iteration_mark_character_filter_config_from_slice() {
    let config_str = r#"
        {
            "normalize_kanji": true,
            "normalize_kana": false
        }
        "#;
    let config =
        JapaneseIterationMarkCharacterFilterConfig::from_slice(config_str.as_bytes()).unwrap();
    assert_eq!(true, config.normalize_kanji);
    assert_eq!(false, config.normalize_kana);
    assert!(JapaneseIterationMarkCharacterFilter::from_slice(config_str.as_bytes()).is_ok());
}

#[test]
fn test_japanese_iteration_mark_character_filter_config_wrong_schema() {
    for data in [
        &b"{}"[..],
        b"{\"normalize_kanji\": true}",
        b"{\"normalize_kanji\": 1, \"normalize_kana\": true}",
        b"{\"normalize_kanji\": true, \"normalize_kana\": \"true\"}",
        b"true",
    ] {
        let err = JapaneseIterationMarkCharacterFilterConfig::from_slice(data).unwrap_err();
        assert_eq!(LinderaErrorKind::Deserialize, err.kind());
        let err = JapaneseIterationMarkCharacterFilter::from_slice(data).unwrap_err();
        assert_eq!(LinderaErrorKind::Deserialize, err.kind());
    }
}

#[test]
fn test_japanese_iteration_mark_character_filter_kanji() {
    assert_eq!("japanese_iteration_mark", filter(true, true).name());
    assert_eq!("ここは騒騒しい", written_out("ここは騒々しい"));
    assert_eq!("時時", written_out("時々"));
    assert_eq!("馬鹿馬鹿しい", written_out("馬鹿々々しい"));
    assert_eq!("古古米と日日", written_out("古々米と日々"));
}

#[test]
fn test_japanese_iteration_mark_character_filter_kana() {
    assert_eq!("ところどころ", written_out("ところゞゝゝ"));
    assert_eq!("いすず", written_out("いすゞ"));
    assert_eq!("づつ", written_out("づゝ"));
    assert_eq!("じじ", written_out("じゞ"));
    assert_eq!("ここ", written_out("こゝ"));
    assert_eq!("ばは", written_out("ばゝ"));
    assert_eq!("ぱぱ", written_out("ぱゝ"));
    assert_eq!("なな", written_out("なゞ"));
    assert_eq!("ステテコ", written_out("ステヽコ"));
    assert_eq!("ジジ", written_out("ジヾ"));
    assert_eq!("カガ", written_out("カヾ"));
    assert_eq!("ガカ", written_out("ガヽ"));
    assert_eq!("ミスズ", written_out("ミスヾ"));
}

#[test]
fn test_japanese_iteration_mark_character_filter_marks_of_the_other_script() {
    assert_eq!("かか", written_out("かヾ"));
    assert_eq!("カカ", written_out("カゞ"));
    assert_eq!("時時", written_out("時ゝ"));
    assert_eq!("かか", written_out("か々"));
}

#[test]
fn test_japanese_iteration_mark_character_filter_at_the_start() {
    assert_eq!("々", written_out("々"));
    assert_eq!("々々", written_out("々々"));
    assert_eq!("ゞ時", written_out("ゞ時"));
    assert_eq!("時時々", written_out("時々々"));
    assert_eq!("馬鹿馬鹿々", written_out("馬鹿々々々"));
    assert_eq!("", written_out(""));
}

#[test]
fn test_japanese_iteration_mark_character_filter_goes_by_the_configuration() {
    let text = "時々こゝろゞ";
    assert_eq!("時時こころろ", filter(true, true).apply(text).unwrap().0);
    assert_eq!("時時こゝろゞ", filter(true, false).apply(text).unwrap().0);
    assert_eq!("時々こころろ", filter(false, true).apply(text).unwrap().0);
    assert_eq!("時々こゝろゞ", filter(false, false).apply(text).unwrap().0);
}

#[test]
fn test_japanese_iteration_mark_character_filter_offsets() {
    let (text, offsets, diffs) = filter(true, true).apply("ここは騒々しい").unwrap();
    assert_eq!("ここは騒騒しい", text);
    assert!(offsets.is_empty());
    assert!(diffs.is_empty());

    let source = "a々b";
    let (text, offsets, diffs) = filter(true, true).apply(source).unwrap();
    assert_eq!("aab", text);
    assert_eq!(vec![2], offsets);
    assert_eq!(vec![2], diffs);
    assert_eq!(0, correct_offset(0, &offsets, &diffs, text.len()));
    assert_eq!(1, correct_offset(1, &offsets, &diffs, text.len()));
    assert_eq!(4, correct_offset(2, &offsets, &diffs, text.len()));
    assert_eq!(5, correct_offset(3, &offsets, &diffs, text.len()));
}
