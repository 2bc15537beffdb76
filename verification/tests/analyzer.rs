use lindera::analyzer::{correct_tokens, Analyzer, OffsetMapEntry, OffsetStack};
use lindera::character_filter::regex::{RegexCharacterFilter, RegexCharacterFilterConfig};
use lindera::character_filter::CharacterFilter;
use lindera::token_filter::length::{LengthTokenFilter, LengthTokenFilterConfig};
use lindera::token_filter::TokenFilter;
use lindera::{LinderaError, LinderaErrorKind, LinderaResult, Token};

/// Cuts a text at its blanks; every token is a number to an IPADIC
/// dictionary where features are asked for.
fn segment(text: &str, with_details: bool) -> LinderaResult<Vec<Token>> {
    let mut tokens = Vec::new();
    let mut start = 0;
    for word in text.split(' ') {
        if !word.is_empty() {
            let details = if with_details {
                Some(vec!["名詞".to_string(), "数".to_string(), "*".to_string(), "*".to_string()])
            } else {
                None
            };
            tokens.push(Token {
                text: word.to_string(),
                details,
                byte_start: start,
                byte_end: start + word.len(),
            });
        }
        start += word.len() + 1;
    }
    Ok(tokens)
}

fn surfaces(tokens: &[Token]) -> Vec<&str> {
    tokens.iter().map(|token| token.text.as_str()).collect()
}

const CONFIG: &str = r#"
    {
        "character_filters": [
            {
                "kind": "regex",
                "args": {
                    "pattern": "\\s{2,}",
                    "replacement": " "
                }
            },
            {
                "kind": "regex",
                "args": {
                    "pattern": "リンデラ",
                    "replacement": "Lindera"
                }
            }
        ],
        "tokenizer": {
            "dictionary": {
                "kind": "ipadic"
            },
            "mode": "normal"
        },
        "token_filters": [
            {
                "kind": "length",
                "args": {
                    "min": 2
                }
            }
        ]
    }
    "#;

#[test]
fn test_analyzer_from_slice() {
    let result = Analyzer::from_slice(CONFIG.as_bytes());
    assert_eq!(true, result.is_ok());
    assert_eq!(false, result.unwrap().with_details());
}

#[test]
fn test_analyzer_clone() {
    let analyzer = Analyzer::from_slice(CONFIG.as_bytes()).unwrap();
    let cloned_analyzer = analyzer.clone();
    assert_eq!(analyzer.with_details(), cloned_analyzer.with_details());
    let text = "リンデラ    は   a   形態素";
    assert_eq!(
        analyzer.analyze(text, segment).unwrap(),
        cloned_analyzer.analyze(text, segment).unwrap()
    );
}

#[test]
fn test_analyzer_analyze() {
    let analyzer = Analyzer::from_slice(CONFIG.as_bytes()).unwrap();
    let text = "リンデラ    は   a   形態素";
    let tokens = analyzer.analyze(text, segment).unwrap();
    assert_eq!(vec!["Lindera", "形態素"], surfaces(&tokens));
    for token in tokens.iter() {
        assert!(token.byte_start <= token.byte_end);
        assert!(token.byte_end <= text.len());
        assert_eq!(None, token.details);
    }
    assert_eq!("リンデラ", &text[tokens[0].byte_start..tokens[0].byte_end]);
    assert_eq!("形態素", &text[tokens[1].byte_start..tokens[1].byte_end]);
}

#[test]
fn test_analyzer_normalize() {
    let analyzer = Analyzer::from_slice(CONFIG.as_bytes()).unwrap();
    let normalized = analyzer.normalize("リンデラ    は   a").unwrap();
    assert_eq!("Lindera は a", normalized.text);
    assert_eq!(2, normalized.maps.len());
    assert_eq!(0, normalized.maps.correct(0));
    assert_eq!(12, normalized.maps.correct(7));
    assert_eq!(16, normalized.maps.correct(8));
    assert_eq!(19, normalized.maps.correct(11));
    assert_eq!(22, normalized.maps.correct(12));
    assert_eq!((16, 19), normalized.maps.correct_span(8, 11));

    let normalized = analyzer.normalize("a b").unwrap();
    assert_eq!("a b", normalized.text);
    assert_eq!(0, normalized.maps.len());
    assert_eq!(3, normalized.maps.correct(3));
}

#[test]
fn test_analyzer_honors_the_order_of_character_filters() {
    let shorten = || {
        CharacterFilter::Regex(
            RegexCharacterFilter::new(RegexCharacterFilterConfig::new(
                "aa".to_string(),
                "b".to_string(),
            ))
            .unwrap(),
        )
    };
    let rename = || {
        CharacterFilter::Regex(
            RegexCharacterFilter::new(RegexCharacterFilterConfig::new(
                "ab".to_string(),
                "c".to_string(),
            ))
            .unwrap(),
        )
    };
    let first = Analyzer::new(vec![shorten(), rename()], Vec::new());
    let second = Analyzer::new(vec![rename(), shorten()], Vec::new());
    assert_eq!("bb", first.normalize("aab").unwrap().text);
    assert_eq!("ac", second.normalize("aab").unwrap().text);
    assert_eq!("bbb", first.normalize("aaaab").unwrap().text);
    assert_eq!("bac", second.normalize("aaaab").unwrap().text);

    let tokens = first.analyze("aaaab", segment).unwrap();
    assert_eq!(vec!["bbb"], surfaces(&tokens));
    assert_eq!(0, tokens[0].byte_start);
    assert_eq!(5, tokens[0].byte_end);
}

#[test]
fn test_analyzer_honors_the_order_of_token_filters() {
    let config = |filters: &str| {
        format!("{{\"tokenizer\": {{}}, \"token_filters\": [{}]}}", filters)
    };
    let number = "{\"kind\": \"japanese_number\", \"args\": {\"kind\": \"ipadic\"}}";
    let length = "{\"kind\": \"length\", \"args\": {\"min\": 3}}";

    let first = Analyzer::from_slice(config(&format!("{}, {}", number, length)).as_bytes()).unwrap();
    let second = Analyzer::from_slice(config(&format!("{}, {}", length, number)).as_bytes()).unwrap();
    assert_eq!(true, first.with_details());
    assert_eq!(true, second.with_details());

    let text = "百 二十三 千二百三十四";
    let tokens = first.analyze(text, segment).unwrap();
    assert_eq!(vec!["100", "1234"], surfaces(&tokens));
    let tokens = second.analyze(text, segment).unwrap();
    assert_eq!(vec!["23", "1234"], surfaces(&tokens));
    assert_eq!("二十三", &text[tokens[0].byte_start..tokens[0].byte_end]);

    let mut tokens = segment(text, true).unwrap();
    first.filter_tokens(&mut tokens).unwrap();
    assert_eq!(vec!["100", "1234"], surfaces(&tokens));
}

#[test]
fn test_analyzer_asks_for_details_where_a_filter_reads_them() {
    for (kind, args, with_details) in [
        ("length", "{}", false),
        ("japanese_number", "{\"kind\": \"unidic\"}", true),
        ("korean_keep_tags", "{\"tags\": []}", true),
        ("korean_stop_tags", "{\"tags\": []}", true),
    ] {
        let config = format!(
            "{{\"tokenizer\": {{}}, \"token_filters\": [{{\"kind\": \"{}\", \"args\": {}}}]}}",
            kind, args
        );
        let analyzer = Analyzer::from_slice(config.as_bytes()).unwrap();
        assert_eq!(with_details, analyzer.with_details());
    }
    let analyzer = Analyzer::new(Vec::new(), Vec::new());
    assert_eq!(false, analyzer.with_details());
    let analyzer = Analyzer::new(
        Vec::new(),
        vec![TokenFilter::Length(LengthTokenFilter::new(LengthTokenFilterConfig::new(None, None)))],
    );
    assert_eq!(false, analyzer.with_details());
}

#[test]
fn test_analyzer_from_slice_unknown_token_filter() {
    let config_str = r#"
        {
            "character_filters": [],
            "tokenizer": {
                "dictionary": {
                    "kind": "ipadic"
                },
                "mode": "normal"
            },
            "token_filters": [
                {
                    "kind": "length",
                    "args": {
                        "min": 3
                    }
                },
                {
                    "kind": "unexisting_filter",
                    "args": {
                        "min": 3
                    }
                }
            ]
        }
        "#;
    let result = Analyzer::from_slice(config_str.as_bytes());

    assert_eq!(true, result.is_err());
    let err = result.unwrap_err();
    assert_eq!(LinderaErrorKind::Deserialize, err.kind());
    assert_eq!("unknown token filter unexisting_filter.", err.message());
}

#[test]
fn test_analyzer_from_slice_unknown_character_filter() {
    let config = "{\"character_filters\": [{\"kind\": \"nope\", \"args\": {}}], \"tokenizer\": {}}";
    let err = Analyzer::from_slice(config.as_bytes()).unwrap_err();
    assert_eq!(LinderaErrorKind::Deserialize, err.kind());
    assert_eq!("unknown character filter nope.", err.message());
}

#[test]
fn test_analyzer_from_slice_missing_tokenizer() {
    for config in ["{}", "{\"tokenizer\": null}", "{\"tokenizer\": \"ipadic\"}", "[]"] {
        let err = Analyzer::from_slice(config.as_bytes()).unwrap_err();
        assert_eq!(LinderaErrorKind::Deserialize, err.kind());
        assert_eq!("missing tokenizer config.", err.message());
    }
}

#[test]
fn test_analyzer_from_slice_filter_without_arguments() {
    let config = "{\"tokenizer\": {}, \"token_filters\": [{\"kind\": \"length\"}]}";
    let err = Analyzer::from_slice(config.as_bytes()).unwrap_err();
    assert_eq!(LinderaErrorKind::Deserialize, err.kind());
    assert_eq!("token filter's arguments for length.", err.message());

    let config = "{\"tokenizer\": {}, \"character_filters\": [{\"kind\": \"regex\", \"args\": 1}]}";
    let err = Analyzer::from_slice(config.as_bytes()).unwrap_err();
    assert_eq!(LinderaErrorKind::Deserialize, err.kind());
    assert_eq!("character filter's arguments for regex.", err.message());
}

#[test]
fn test_analyzer_from_slice_passes_over_entries_without_kind() {
    let config = "{\"tokenizer\": {}, \"token_filters\": [{\"args\": {}}, 7, {\"kind\": 1}], \
                  \"character_filters\": \"none\"}";
    let analyzer = Analyzer::from_slice(config.as_bytes()).unwrap();
    let tokens = analyzer.analyze("a bb", segment).unwrap();
    assert_eq!(vec!["a", "bb"], surfaces(&tokens));
}

#[test]
fn test_analyzer_from_slice_errors_of_filters() {
    let config = "{\"tokenizer\": {}, \"character_filters\": [{\"kind\": \"regex\", \"args\": \
                  {\"pattern\": \"(\", \"replacement\": \"\"}}]}";
    let err = Analyzer::from_slice(config.as_bytes()).unwrap_err();
    assert_eq!(LinderaErrorKind::Args, err.kind());

    let config = "{\"tokenizer\": {}, \"token_filters\": [{\"kind\": \"length\", \"args\": \
                  {\"min\": \"3\"}}]}";
    let err = Analyzer::from_slice(config.as_bytes()).unwrap_err();
    assert_eq!(LinderaErrorKind::Deserialize, err.kind());

    let err = Analyzer::from_slice(b"{").unwrap_err();
    assert_eq!(LinderaErrorKind::Deserialize, err.kind());
}

#[test]
fn test_analyzer_returns_the_error_of_the_segmenter() {
    let analyzer = Analyzer::from_slice(CONFIG.as_bytes()).unwrap();
    let failing = |_text: &str, _with_details: bool| -> LinderaResult<Vec<Token>> {
        Err(LinderaError {
            kind: LinderaErrorKind::DictionaryNotFound,
            detail: "no dictionary".to_string(),
        })
    };
    let err = analyzer.analyze("a", failing).unwrap_err();
    assert_eq!(LinderaErrorKind::DictionaryNotFound, err.kind());
    assert_eq!("no dictionary", err.message());
}

#[test]
fn test_correct_tokens() {
    let stack = OffsetStack::new()
        .with_front(OffsetMapEntry { offsets: vec![2, 4], diffs: vec![4, 8], text_len: 5 })
        .with_front(OffsetMapEntry { offsets: vec![1], diffs: vec![-1], text_len: 6 });
    assert_eq!(2, stack.len());
    let tokens = vec![
        Token { text: "a".to_string(), details: None, byte_start: 0, byte_end: 2 },
        Token {
            text: "b".to_string(),
            details: Some(vec!["x".to_string()]),
            byte_start: 3,
            byte_end: 4,
        },
        Token { text: "c".to_string(), details: None, byte_start: 5, byte_end: 6 },
    ];
    let corrected = correct_tokens(&stack, tokens);
    assert_eq!(3, corrected.len());
    assert_eq!((0, 1), (corrected[0].byte_start, corrected[0].byte_end));
    assert_eq!((6, 7), (corrected[1].byte_start, corrected[1].byte_end));
    assert_eq!((12, 13), (corrected[2].byte_start, corrected[2].byte_end));
    assert_eq!("b", corrected[1].text);
    assert_eq!(Some(vec!["x".to_string()]), corrected[1].details);
}
