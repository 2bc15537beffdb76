use lindera::analyzer::Analyzer;
use lindera::{LinderaError, LinderaErrorKind, LinderaResult, Token};

/// The tokens that an IPADIC dictionary cuts the filtered texts of these
/// tests into, with the first features of each.
fn segment(text: &str, with_details: bool) -> LinderaResult<Vec<Token>> {
    let words: Vec<(&str, &str)> = match text {
        "Linderaは形態素解析エンジンです。" => vec![
            ("Lindera", "UNK"),
            ("は", "助詞,係助詞,*,*,*,*,は,ハ,ワ"),
            ("形態素", "名詞,一般,*,*,*,*,形態素,ケイタイソ,ケイタイソ"),
            ("解析", "名詞,サ変接続,*,*,*,*,解析,カイセキ,カイセキ"),
            ("エンジン", "名詞,一般,*,*,*,*,エンジン,エンジン,エンジン"),
            ("です", "助動詞,*,*,*,特殊・デス,基本形,です,デス,デス"),
            ("。", "記号,句点,*,*,*,*,。,。,。"),
        ],
        "10ガロンのガソリン" => vec![
            ("1", "名詞,数,*,*,*,*,*"),
            ("0", "名詞,数,*,*,*,*,*"),
            ("ガロン", "名詞,一般,*,*,*,*,ガロン,ガロン,ガロン"),
            ("の", "助詞,連体化,*,*,*,*,の,ノ,ノ"),
            ("ガソリン", "名詞,一般,*,*,*,*,ガソリン,ガソリン,ガソリン"),
        ],
        "お釣りは百三十四円です。" => vec![
            ("お釣り", "名詞,一般,*,*,*,*,お釣り,オツリ,オツリ"),
            ("は", "助詞,係助詞,*,*,*,*,は,ハ,ワ"),
            ("百", "名詞,数,*,*,*,*,百,ヒャク,ヒャク"),
            ("三", "名詞,数,*,*,*,*,三,サン,サン"),
            ("十", "名詞,数,*,*,*,*,十,ジュウ,ジュー"),
            ("四", "名詞,数,*,*,*,*,四,ヨン,ヨン"),
            ("円", "名詞,接尾,助数詞,*,*,*,円,エン,エン"),
            ("です", "助動詞,*,*,*,特殊・デス,基本形,です,デス,デス"),
            ("。", "記号,句点,*,*,*,*,。,。,。"),
        ],
        "ここは騒騒しい" => vec![
            ("ここ", "名詞,代名詞,一般,*,*,*,ここ,ココ,ココ"),
            ("は", "助詞,係助詞,*,*,*,*,は,ハ,ワ"),
            ("騒騒しい", "形容詞,自立,*,*,形容詞・イ段,基本形,騒騒しい,ソウゾウシイ,ソーゾーシイ"),
        ],
        _ => {
            return Err(LinderaError {
                kind: LinderaErrorKind::Parse,
                detail: format!("no segmentation of {}", text),
            });
        }
    };
    let mut tokens = Vec::new();
    let mut byte_start = 0;
    for (word, details) in words {
        let details = if with_details {
            Some(details.split(',').map(|detail| detail.to_string()).collect())
        } else {
            None
        };
        tokens.push(Token {
            text: word.to_string(),
            details,
            byte_start,
            byte_end: byte_start + word.len(),
        });
        byte_start += word.len();
    }
    Ok(tokens)
}

#[test]
fn test_ipadic_analyzer_from_slice() {
    let config_str = r#"
        {
            "character_filters": [
                {
                    "kind": "unicode_normalize",
                    "args": {
                        "kind": "nfkc"
                    }
                },
                {
                    "kind": "mapping",
                    "args": {
                        "mapping": {
                            "リンデラ": "Lindera"
                        }
                    }
                }
            ],
            "tokenizer": {
                "dictionary": {
                    "kind": "ipadic"
                },
                "mode": "normal"
            },
            "token_filters": [
                {
                    "kind": "japanese_stop_tags",
                    "args": {
                        "tags": [
                            "接続詞",
                            "助詞",
                            "助詞,格助詞",
                            "助詞,格助詞,一般",
                            "助詞,格助詞,引用",
                            "助詞,格助詞,連語",
                            "助詞,係助詞",
                            "助詞,副助詞",
                            "助詞,間投助詞",
                            "助詞,並立助詞",
                            "助詞,終助詞",
                            "助詞,副助詞／並立助詞／終助詞",
                            "助詞,連体化",
                            "助詞,副詞化",
                            "助詞,特殊",
                            "助動詞",
                            "記号",
                            "記号,一般",
                            "記号,読点",
                            "記号,句点",
                            "記号,空白",
                            "記号,括弧閉",
                            "その他,間投",
                            "フィラー",
                            "非言語音"
                        ]
                    }
                },
                {
                    "kind": "japanese_katakana_stem",
                    "args": {
                        "min": 3
                    }
                }
            ]
        }
        "#;
    let result = Analyzer::from_slice(config_str.as_bytes());

    assert_eq!(true, result.is_ok());
}

#[test]
fn test_ipadic_analyzer_clone() {
    let config_str = r#"
        {
            "character_filters": [
                {
                    "kind": "unicode_normalize",
                    "args": {
                        "kind": "nfkc"
                    }
                },
                {
                    "kind": "mapping",
                    "args": {
                        "mapping": {
                            "リンデラ": "Lindera"
                        }
                    }
                }
            ],
            "tokenizer": {
                "dictionary": {
                    "kind": "ipadic"
                },
                "mode": "normal"
            },
            "token_filters": [
                {
                    "kind": "japanese_stop_tags",
                    "args": {
                        "tags": [
                            "接続詞",
                            "助詞",
                            "助詞,格助詞",
                            "助詞,格助詞,一般",
                            "助詞,格助詞,引用",
                            "助詞,格助詞,連語",
                            "助詞,係助詞",
                            "助詞,副助詞",
                            "助詞,間投助詞",
                            "助詞,並立助詞",
                            "助詞,終助詞",
                            "助詞,副助詞／並立助詞／終助詞",
                            "助詞,連体化",
                            "助詞,副詞化",
                            "助詞,特殊",
                            "助動詞",
                            "記号",
                            "記号,一般",
                            "記号,読点",
                            "記号,句点",
                            "記号,空白",
                            "記号,括弧閉",
                            "その他,間投",
                            "フィラー",
                            "非言語音"
                        ]
                    }
                },
                {
                    "kind": "japanese_katakana_stem",
                    "args": {
                        "min": 3
                    }
                }
            ]
        }
        "#;
    let analyzer = Analyzer::from_slice(config_str.as_bytes()).unwrap();

    let cloned_analyzer = analyzer.clone();

    assert_eq!(
        analyzer.character_filters().len(),
        cloned_analyzer.character_filters().len()
    );
    assert_eq!(
        analyzer.token_filters().len(),
        cloned_analyzer.token_filters().len()
    );
    assert_eq!(analyzer.with_details(), cloned_analyzer.with_details());
}

#[test]
fn test_analyzer_from_slice_wrong_config() {
    let config_str = r#"
        {
            "character_filters": [
                {
                    "kind": "unicode_normalize",
                    "args": {
                        "kind": "nfkc"
                    }
                },
                {
                    "kind": "mapping",
                    "args": {
                        "mapping": {
                            "リンデラ": "Lindera"
                        }
                    }
                }
            ],
            "tokenizer": {
                "dictionary": {
                    "kind": "ipadic"
                },
                "mode": "normal"
            },
            "token_filters": [
                {
                    "kind": "japanese_stop_tags",
                    "args": {
                        "tags": [
                            "接続詞",
                            "助詞",
                            "助詞,格助詞",
                            "助詞,格助詞,一般",
                            "助詞,格助詞,引用",
                            "助詞,格助詞,連語",
                            "助詞,係助詞",
                            "助詞,副助詞",
                            "助詞,間投助詞",
                            "助詞,並立助詞",
                            "助詞,終助詞",
                            "助詞,副助詞／並立助詞／終助詞",
                            "助詞,連体化",
                            "助詞,副詞化",
                            "助詞,特殊",
                            "助動詞",
                            "記号",
                            "記号,一般",
                            "記号,読点",
                            "記号,句点",
                            "記号,空白",
                            "記号,括弧閉",
                            "その他,間投",
                            "フィラー",
                            "非言語音"
                        ]
                    }
                },
                {
                    "kind": "unexisting_filter",
                    "args": {
                        "min": 3
                    }
                }
            ]
        }
        "#;
    let result = Analyzer::from_slice(config_str.as_bytes());

    assert_eq!(true, result.is_err());
}

#[test]
fn test_ipadic_analyzer_analyze() {
    let config_str = r#"
        {
            "character_filters": [
                {
                    "kind": "unicode_normalize",
                    "args": {
                        "kind": "nfkc"
                    }
                },
                {
                    "kind": "japanese_iteration_mark",
                    "args": {
                        "normalize_kanji": true,
                        "normalize_kana": true
                    }
                },
                {
                    "kind": "mapping",
                    "args": {
                        "mapping": {
                            "リンデラ": "Lindera"
                        }
                    }
                }
            ],
            "tokenizer": {
                "dictionary": {
                    "kind": "ipadic"
                },
                "mode": "normal"
            },
            "token_filters": [
                {
                    "kind": "japanese_compound_word",
                    "args": {
                        "kind": "ipadic",
                        "tags": [
                            "名詞,数",
                            "名詞,接尾,助数詞"
                        ]            
                    }
                },
                {
                    "kind": "japanese_stop_tags",
                    "args": {
                        "tags": [
                            "接続詞",
                            "助詞",
                            "助詞,格助詞",
                            "助詞,格助詞,一般",
                            "助詞,格助詞,引用",
                            "助詞,格助詞,連語",
                            "助詞,係助詞",
                            "助詞,副助詞",
                            "助詞,間投助詞",
                            "助詞,並立助詞",
                            "助詞,終助詞",
                            "助詞,副助詞／並立助詞／終助詞",
                            "助詞,連体化",
                            "助詞,副詞化",
                            "助詞,特殊",
                            "助動詞",
                            "記号",
                            "記号,一般",
                            "記号,読点",
                            "記号,句点",
                            "記号,空白",
                            "記号,括弧閉",
                            "その他,間投",
                            "フィラー",
                            "非言語音"
                        ]
                    }
                },
                {
                    "kind": "japanese_katakana_stem",
                    "args": {
                        "min": 3
                    }
                }
            ]
        }
        "#;
    let analyzer = Analyzer::from_slice(config_str.as_bytes()).unwrap();

    {
        let text = "ﾘﾝﾃﾞﾗは形態素解析ｴﾝｼﾞﾝです。".to_string();
                let tokens = analyzer.analyze(&text, segment).unwrap();
        assert_eq!(
            tokens.iter().map(|t| t.text.as_str()).collect::<Vec<_>>(),
            vec!["Lindera", "形態素", "解析", "エンジン"]
        );

        let mut tokens_iter = tokens.iter();
        {
            let token = tokens_iter.next().unwrap();
            let start = token.byte_start;
            let end = token.byte_end;
            assert_eq!(token.text, "Lindera");
            assert_eq!(&text[start..end], "ﾘﾝﾃﾞﾗ");
        }
    }

    {
        let text = "１０㌎のｶﾞｿﾘﾝ".to_string();
                let tokens = analyzer.analyze(&text, segment).unwrap();
        assert_eq!(
            tokens.iter().map(|t| t.text.as_str()).collect::<Vec<_>>(),
            vec!["10", "ガロン", "ガソリン"]
        );

        let mut tokens_iter = tokens.iter();
        {
            let token = tokens_iter.next().unwrap();
            let start = token.byte_start;
            let end = token.byte_end;
            assert_eq!(token.text, "10");
            assert_eq!(&text[start..end], "１０");
        }
        {
            let token = tokens_iter.next().unwrap();
            let start = token.byte_start;
            let end = token.byte_end;
            assert_eq!(token.text, "ガロン");
            assert_eq!(&text[start..end], "㌎");
        }
        {
            let token = tokens_iter.next().unwrap();
            let start = token.byte_start;
            let end = token.byte_end;
            assert_eq!(token.text, "ガソリン");
            assert_eq!(&text[start..end], "ｶﾞｿﾘﾝ");
        }
    }

    {
        let text = "お釣りは百三十四円です。".to_string();
                let tokens = analyzer.analyze(&text, segment).unwrap();
        assert_eq!(
            tokens.iter().map(|t| t.text.as_str()).collect::<Vec<_>>(),
            vec!["お釣り", "百三十四円"]
        );
    }

    {
        let text = "ここは騒々しい".to_string();
                let tokens = analyzer.analyze(&text, segment).unwrap();
        assert_eq!(
            tokens.iter().map(|t| t.text.as_str()).collect::<Vec<_>>(),
            vec!["ここ", "騒騒しい"]
        );
    }
}
