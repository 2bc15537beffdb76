use lindera::character_filter::regex::{offsets_of_spans, RegexCharacterFilter, RegexCharacterFilterConfig};
use lindera::character_filter::{add_offset_diff, correct_offset};

#[test]
fn test_correct_offset() {
    let text = "ABCDEFG";
    let filterd_text = "AbbbCdddFgggg";

    let text_len = filterd_text.len();
    let offsets = vec![2, 3, 7, 10, 11, 12];
    let diffs = vec![-1, -2, -3, -4, -5, -6];

    let start_b = 1;
    let end_b = 4;
    assert_eq!("bbb", &filterd_text[start_b..end_b]);
    let correct_start_b = correct_offset(start_b, &offsets, &diffs, text_len);
    let correct_end_b = correct_offset(end_b, &offsets, &diffs, text_len);
    assert_eq!(1, correct_start_b);
    assert_eq!(2, correct_end_b);
    assert_eq!("B", &text[correct_start_b..correct_end_b]);

    let start_g = 9;
    let end_g = 13;
    assert_eq!("gggg", &filterd_text[start_g..end_g]);
    let correct_start_g = correct_offset(start_g, &offsets, &diffs, text_len);
    let correct_end_g = correct_offset(end_g, &offsets, &diffs, text_len);
    assert_eq!(6, correct_start_g);
    assert_eq!(7, correct_end_g);
    assert_eq!("G", &text[correct_start_g..correct_end_g]);

    let start = 0;
    let end = 13;
    let correct_start = correct_offset(start, &offsets, &diffs, text_len);
    let correct_end = correct_offset(end, &offsets, &diffs, text_len);
    assert_eq!(0, correct_start);
    assert_eq!(7, correct_end);
    assert_eq!("ABCDEFG", &text[correct_start..correct_end]);
}

#[test]
fn test_correct_offset_without_events() {
    let offsets: Vec<usize> = Vec::new();
    let diffs: Vec<i64> = Vec::new();
    assert_eq!(0, correct_offset(0, &offsets, &diffs, 10));
    assert_eq!(7, correct_offset(7, &offsets, &diffs, 10));
    assert_eq!(10, correct_offset(10, &offsets, &diffs, 10));
}

#[test]
fn test_correct_offset_before_first_event() {
    let offsets = vec![7];
    let diffs = vec![5];
    assert_eq!(0, correct_offset(0, &offsets, &diffs, 31));
    assert_eq!(6, correct_offset(6, &offsets, &diffs, 31));
    assert_eq!(12, correct_offset(7, &offsets, &diffs, 31));
    assert_eq!(13, correct_offset(8, &offsets, &diffs, 31));
    assert_eq!(36, correct_offset(31, &offsets, &diffs, 31));
}

#[test]
fn test_correct_offset_is_kept_within_usize() {
    let offsets = vec![0];
    let diffs = vec![-1];
    assert_eq!(0, correct_offset(0, &offsets, &diffs, 2));
    assert_eq!(0, correct_offset(1, &offsets, &diffs, 2));
    assert_eq!(1, correct_offset(2, &offsets, &diffs, 2));

    let offsets = vec![1];
    let diffs = vec![i64::MAX];
    assert_eq!(usize::MAX, correct_offset(usize::MAX, &offsets, &diffs, 2));
}

#[test]
fn test_correct_offset_is_non_decreasing() {
    let maps: Vec<(Vec<usize>, Vec<i64>)> = vec![
        (vec![2, 3, 7, 10, 11, 12], vec![-1, -2, -3, -4, -5, -6]),
        (vec![7], vec![5]),
        (vec![2, 4], vec![4, 8]),
        (vec![0, 1, 3, 4, 6, 7], vec![-1, -2, -3, -4, -5, -6]),
        (vec![3, 5, 6], vec![2, 1, 0]),
    ];
    for (offsets, diffs) in maps.iter() {
        let mut last = 0;
        for pos in 0..40 {
            let source = correct_offset(pos, offsets, diffs, 40);
            assert!(last <= source);
            last = source;
        }
    }
}

#[test]
fn test_add_offset_diff_appends() {
    let mut offsets: Vec<usize> = Vec::new();
    let mut diffs: Vec<i64> = Vec::new();
    add_offset_diff(&mut offsets, &mut diffs, 2, 4);
    assert_eq!(vec![2], offsets);
    assert_eq!(vec![4], diffs);
    add_offset_diff(&mut offsets, &mut diffs, 4, 8);
    assert_eq!(vec![2, 4], offsets);
    assert_eq!(vec![4, 8], diffs);
}

#[test]
fn test_add_offset_diff_replaces_at_same_offset() {
    let mut offsets: Vec<usize> = vec![2, 4];
    let mut diffs: Vec<i64> = vec![4, 8];
    add_offset_diff(&mut offsets, &mut diffs, 4, 9);
    assert_eq!(vec![2, 4], offsets);
    assert_eq!(vec![4, 9], diffs);
    add_offset_diff(&mut offsets, &mut diffs, 2, 1);
    assert_eq!(vec![2, 4, 2], offsets);
    assert_eq!(vec![4, 9, 1], diffs);
}

#[test]
fn test_offsets_of_spans_shorter_replacement() {
    // "a     b     c" with each run of blanks replaced by one blank.
    let spans = vec![(1, 6), (7, 12)];
    let (offsets, diffs) = offsets_of_spans(&spans, 1, 13);
    assert_eq!(vec![2, 4], offsets);
    assert_eq!(vec![4, 8], diffs);
}

#[test]
fn test_offsets_of_spans_longer_replacement() {
    // "ABCDEFG" with B, D and G replaced by three, three and four bytes
    // would need three lengths; with one length of three bytes for B and D:
    let spans = vec![(1, 2), (3, 4)];
    let (offsets, diffs) = offsets_of_spans(&spans, 3, 7);
    assert_eq!(vec![2, 3, 6, 7], offsets);
    assert_eq!(vec![-1, -2, -3, -4], diffs);
}

#[test]
fn test_offsets_of_spans_same_length() {
    let spans = vec![(0, 3), (5, 8)];
    let (offsets, diffs) = offsets_of_spans(&spans, 3, 8);
    assert!(offsets.is_empty());
    assert!(diffs.is_empty());
}

#[test]
fn test_offsets_of_spans_adjacent_deletions_share_an_event() {
    // "abab" with both "ab" deleted.
    let spans = vec![(0, 2), (2, 4)];
    let (offsets, diffs) = offsets_of_spans(&spans, 0, 4);
    assert_eq!(vec![0], offsets);
    assert_eq!(vec![4], diffs);
}

#[test]
fn test_offsets_of_spans_mixed() {
    // "aaa-a" with every run of a replaced by "xx": one is shorter, one longer.
    let spans = vec![(0, 3), (4, 5)];
    let (offsets, diffs) = offsets_of_spans(&spans, 2, 5);
    assert_eq!(vec![2, 4], offsets);
    assert_eq!(vec![1, 0], diffs);
}

#[test]
fn test_regex_character_filter_insertion_at_start() {
    let config = RegexCharacterFilterConfig::new("^".to_string(), "x".to_string());
    let filter = RegexCharacterFilter::new(config).unwrap();
    let (text, offsets, diffs) = filter.apply("ab").unwrap();
    assert_eq!("xab", text);
    assert_eq!(vec![0], offsets);
    assert_eq!(vec![-1], diffs);
    assert_eq!(0, correct_offset(0, &offsets, &diffs, text.len()));
    assert_eq!(0, correct_offset(1, &offsets, &diffs, text.len()));
    assert_eq!(1, correct_offset(2, &offsets, &diffs, text.len()));
    assert_eq!(2, correct_offset(3, &offsets, &diffs, text.len()));
}

#[test]
fn test_regex_character_filter_no_match() {
    let config = RegexCharacterFilterConfig::new("z+".to_string(), "y".to_string());
    let filter = RegexCharacterFilter::new(config).unwrap();
    let (text, offsets, diffs) = filter.apply("abc").unwrap();
    assert_eq!("abc", text);
    assert!(offsets.is_empty());
    assert!(diffs.is_empty());
}

#[test]
fn test_regex_character_filter_longer_replacement() {
    let config = RegexCharacterFilterConfig::new("[BDG]".to_string(), "xyz".to_string());
    let filter = RegexCharacterFilter::new(config).unwrap();
    let (text, offsets, diffs) = filter.apply("ABCDEFG").unwrap();
    assert_eq!("AxyzCxyzEFxyz", text);
    assert_eq!(vec![2, 3, 6, 7, 11, 12], offsets);
    assert_eq!(vec![-1, -2, -3, -4, -5, -6], diffs);
    let mut last = 0;
    for pos in 0..=text.len() {
        let source = correct_offset(pos, &offsets, &diffs, text.len());
        assert!(last <= source);
        assert!(source <= 7);
        last = source;
    }
    assert_eq!(7, correct_offset(text.len(), &offsets, &diffs, text.len()));
}

#[test]
fn test_regex_character_filter_clone() {
    let config = RegexCharacterFilterConfig::new("\\s{2,}".to_string(), " ".to_string());
    let filter = RegexCharacterFilter::new(config).unwrap();
    let copy = filter.clone();
    assert_eq!(filter.apply("a   b").unwrap(), copy.apply("a   b").unwrap());
    assert_eq!("regex", copy.name());
}

#[test]
fn test_regex_character_filter_bad_pattern() {
    let config = RegexCharacterFilterConfig::new("foo(bar".to_string(), "".to_string());
    let err = RegexCharacterFilter::new(config).unwrap_err();
    assert_eq!(lindera::LinderaErrorKind::Args, err.kind());
    assert!(!err.message().is_empty());
}

#[test]
fn test_regex_character_filter_config_wrong_schema() {
    let err = RegexCharacterFilterConfig::from_slice(b"{\"pattern\": \"a\"}").unwrap_err();
    assert_eq!(lindera::LinderaErrorKind::Deserialize, err.kind());
    let err = RegexCharacterFilterConfig::from_slice(b"{\"pattern\": 1, \"replacement\": \"b\"}")
        .unwrap_err();
    assert_eq!(lindera::LinderaErrorKind::Deserialize, err.kind());
    let err = RegexCharacterFilterConfig::from_slice(b"not json").unwrap_err();
    assert_eq!(lindera::LinderaErrorKind::Deserialize, err.kind());
    let err = RegexCharacterFilter::from_slice(b"{\"pattern\": \"(\", \"replacement\": \"b\"}")
        .unwrap_err();
    assert_eq!(lindera::LinderaErrorKind::Args, err.kind());
}
