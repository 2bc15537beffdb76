use std::str::FromStr;

use lindera::token_filter::japanese_number::{
    to_arabic_numerals, JapaneseNumberTokenFilter, JapaneseNumberTokenFilterConfig,
};
use lindera::{DictionaryKind, Token};

#[test]
fn test_to_number_str() {
    {
        let s = "０";
        assert_eq!(to_arabic_numerals(s), String::from_str("0").unwrap());
    }

    {
        let s = "〇";
        assert_eq!(to_arabic_numerals(s), String::from_str("0").unwrap());
    }

    {
        let s = "零";
        assert_eq!(to_arabic_numerals(s), String::from_str("0").unwrap());
    }

    {
        let s = "１";
        assert_eq!(to_arabic_numerals(s), String::from_str("1").unwrap());
    }

    {
        let s = "一";
        assert_eq!(to_arabic_numerals(s), String::from_str("1").unwrap());
    }

    {
        let s = "壱";
        assert_eq!(to_arabic_numerals(s), String::from_str("1").unwrap());
    }

    {
        let s = "２";
        assert_eq!(to_arabic_numerals(s), String::from_str("2").unwrap());
    }

    {
        let s = "二";
        assert_eq!(to_arabic_numerals(s), String::from_str("2").unwrap());
    }

    {
        let s = "弐";
        assert_eq!(to_arabic_numerals(s), String::from_str("2").unwrap());
    }

    {
        let s = "３";
        assert_eq!(to_arabic_numerals(s), String::from_str("3").unwrap());
    }

    {
        let s = "三";
        assert_eq!(to_arabic_numerals(s), String::from_str("3").unwrap());
    }

    {
        let s = "参";
        assert_eq!(to_arabic_numerals(s), String::from_str("3").unwrap());
    }

    {
        let s = "４";
        assert_eq!(to_arabic_numerals(s), String::from_str("4").unwrap());
    }

    {
        let s = "四";
        assert_eq!(to_arabic_numerals(s), String::from_str("4").unwrap());
    }

    {
        let s = "５";
        assert_eq!(to_arabic_numerals(s), String::from_str("5").unwrap());
    }

    {
        let s = "五";
        assert_eq!(to_arabic_numerals(s), String::from_str("5").unwrap());
    }

    {
        let s = "６";
        assert_eq!(to_arabic_numerals(s), String::from_str("6").unwrap());
    }

    {
        let s = "六";
        assert_eq!(to_arabic_numerals(s), String::from_str("6").unwrap());
    }

    {
        let s = "７";
        assert_eq!(to_arabic_numerals(s), String::from_str("7").unwrap());
    }

    {
        let s = "七";
        assert_eq!(to_arabic_numerals(s), String::from_str("7").unwrap());
    }

    {
        let s = "８";
        assert_eq!(to_arabic_numerals(s), String::from_str("8").unwrap());
    }

    {
        let s = "八";
        assert_eq!(to_arabic_numerals(s), String::from_str("8").unwrap());
    }

    {
        let s = "９";
        assert_eq!(to_arabic_numerals(s), String::from_str("9").unwrap());
    }

    {
        let s = "九";
        assert_eq!(to_arabic_numerals(s), String::from_str("9").unwrap());
    }

    {
        let s = "十";
        assert_eq!(to_arabic_numerals(s), String::from_str("10").unwrap());
    }

    {
        let s = "拾";
        assert_eq!(to_arabic_numerals(s), String::from_str("10").unwrap());
    }

    {
        let s = "百";
        assert_eq!(to_arabic_numerals(s), String::from_str("100").unwrap());
    }

    {
        let s = "千";
        assert_eq!(to_arabic_numerals(s), String::from_str("1000").unwrap());
    }

    {
        let s = "万";
        assert_eq!(to_arabic_numerals(s), String::from_str("10000").unwrap());
    }

    {
        let s = "億";
        assert_eq!(
            to_arabic_numerals(s),
            String::from_str("100000000").unwrap()
        );
    }

    {
        let s = "兆";
        assert_eq!(
            to_arabic_numerals(s),
            String::from_str("1000000000000").unwrap()
        );
    }

    {
        let s = "京";
        assert_eq!(
            to_arabic_numerals(s),
            String::from_str("10000000000000000").unwrap()
        );
    }

    {
        let s = "垓";
        assert_eq!(
            to_arabic_numerals(s),
            String::from_str("100000000000000000000").unwrap()
        );
    }

    {
        let s = "百一";
        assert_eq!(to_arabic_numerals(s), String::from_str("101").unwrap());
    }

    {
        let s = "百十";
        assert_eq!(to_arabic_numerals(s), String::from_str("110").unwrap());
    }

    {
        let s = "千百十";
        assert_eq!(to_arabic_numerals(s), String::from_str("1110").unwrap());
    }

    {
        let s = "万千百十";
        assert_eq!(to_arabic_numerals(s), String::from_str("11110").unwrap());
    }

    {
        let s = "十万千百十";
        assert_eq!(to_arabic_numerals(s), String::from_str("101110").unwrap());
    }

    {
        let s = "千十";
        assert_eq!(to_arabic_numerals(s), String::from_str("1010").unwrap());
    }

    {
        let s = "十二";
        assert_eq!(to_arabic_numerals(s), String::from_str("12").unwrap());
    }

    {
        let s = "一十二";
        assert_eq!(to_arabic_numerals(s), String::from_str("12").unwrap());
    }

    {
        let s = "百二十三";
        assert_eq!(to_arabic_numerals(s), String::from_str("123").unwrap());
    }

    {
        let s = "一百二十三";
        assert_eq!(to_arabic_numerals(s), String::from_str("123").unwrap());
    }

    {
        let s = "千二百三十四";
        assert_eq!(to_arabic_numerals(s), String::from_str("1234").unwrap());
    }

    {
        let s = "一千二百三十四";
        assert_eq!(to_arabic_numerals(s), String::from_str("1234").unwrap());
    }

    {
        let s = "万二千三百四十五";
        assert_eq!(to_arabic_numerals(s), String::from_str("12345").unwrap());
    }

    {
        let s = "一万二千三百四十五";
        assert_eq!(to_arabic_numerals(s), String::from_str("12345").unwrap());
    }

    {
        let s = "十二万三千四百五十六";
        assert_eq!(to_arabic_numerals(s), String::from_str("123456").unwrap());
    }

    {
        let s = "一十二万三千四百五十六";
        assert_eq!(to_arabic_numerals(s), String::from_str("123456").unwrap());
    }

    {
        let s = "百二十三万四千五百六十七";
        assert_eq!(to_arabic_numerals(s), String::from_str("1234567").unwrap());
    }

    {
        let s = "一百二十三万四千五百六十七";
        assert_eq!(to_arabic_numerals(s), String::from_str("1234567").unwrap());
    }

    {
        let s = "千二百三十四万五千六百七十八";
        assert_eq!(to_arabic_numerals(s), String::from_str("12345678").unwrap());
    }

    {
        let s = "一千二百三十四万五千六百七十八";
        assert_eq!(to_arabic_numerals(s), String::from_str("12345678").unwrap());
    }

    {
        let s = "億二千三百四十五万六千七百八十九";
        assert_eq!(
            to_arabic_numerals(s),
            String::from_str("123456789").unwrap()
        );
    }

    {
        let s = "一億二千三百四十五万六千七百八十九";
        assert_eq!(
            to_arabic_numerals(s),
            String::from_str("123456789").unwrap()
        );
    }

    {
        let s = "十二億三千四百五十六万七千八百九十";
        assert_eq!(
            to_arabic_numerals(s),
            String::from_str("1234567890").unwrap()
        );
    }

    {
        let s = "一十二億三千四百五十六万七千八百九十";
        assert_eq!(
            to_arabic_numerals(s),
            String::from_str("1234567890").unwrap()
        );
    }

    {
        let s = "百二十三億四千五百六十七万八千九百一";
        assert_eq!(
            to_arabic_numerals(s),
            String::from_str("12345678901").unwrap()
        );
    }

    {
        let s = "一百二十三億四千五百六十七万八千九百一";
        assert_eq!(
            to_arabic_numerals(s),
            String::from_str("12345678901").unwrap()
        );
    }

    {
        let s = "千二百三十四億五千六百七十八万九千十二";
        assert_eq!(
            to_arabic_numerals(s),
            String::from_str("123456789012").unwrap()
        );
    }

    {
        let s = "一千二百三十四億五千六百七十八万九千十二";
        assert_eq!(
            to_arabic_numerals(s),
            String::from_str("123456789012").unwrap()
        );
    }

    {
        let s = "兆二千三百四十五億六千七百八十九万百二十三";
        assert_eq!(
            to_arabic_numerals(s),
            String::from_str("1234567890123").unwrap()
        );
    }

    {
        let s = "一兆二千三百四十五億六千七百八十九万百二十三";
        assert_eq!(
            to_arabic_numerals(s),
            String::from_str("1234567890123").unwrap()
        );
    }

    {
        let s = "十二兆三千四百五十六億七千八百九十万千二百三十四";
        assert_eq!(
            to_arabic_numerals(s),
            String::from_str("12345678901234").unwrap()
        );
    }

    {
        let s = "一十二兆三千四百五十六億七千八百九十万千二百三十四";
        assert_eq!(
            to_arabic_numerals(s),
            String::from_str("12345678901234").unwrap()
        );
    }

    {
        let s = "百二十三兆四千五百六十七億八千九百一万二千三百四十五";
        assert_eq!(
            to_arabic_numerals(s),
            String::from_str("123456789012345").unwrap()
        );
    }

    {
        let s = "一百二十三兆四千五百六十七億八千九百一万二千三百四十五";
        assert_eq!(
            to_arabic_numerals(s),
            String::from_str("123456789012345").unwrap()
        );
    }

    {
        let s = "千二百三十四兆五千六百七十八億九千十二万三千四百五十六";
        assert_eq!(
            to_arabic_numerals(s),
            String::from_str("1234567890123456").unwrap()
        );
    }

    {
        let s = "一千二百三十四兆五千六百七十八億九千十二万三千四百五十六";
        assert_eq!(
            to_arabic_numerals(s),
            String::from_str("1234567890123456").unwrap()
        );
    }

    {
        let s = "京二千三百四十五兆六千七百八十九億百二十三万四千五百六十七";
        assert_eq!(
            to_arabic_numerals(s),
            String::from_str("12345678901234567").unwrap()
        );
    }

    {
        let s = "一京二千三百四十五兆六千七百八十九億百二十三万四千五百六十七";
        assert_eq!(
            to_arabic_numerals(s),
            String::from_str("12345678901234567").unwrap()
        );
    }

    {
        let s = "十二京三千四百五十六兆七千八百九十億千二百三十四万五千六百七十八";
        assert_eq!(
            to_arabic_numerals(s),
            String::from_str("123456789012345678").unwrap()
        );
    }

    {
        let s = "一十二京三千四百五十六兆七千八百九十億千二百三十四万五千六百七十八";
        assert_eq!(
            to_arabic_numerals(s),
            String::from_str("123456789012345678").unwrap()
        );
    }

    {
        let s = "百二十三京四千五百六十七兆八千九百一億二千三百四十五万六千七百八十九";
        assert_eq!(
            to_arabic_numerals(s),
            String::from_str("1234567890123456789").unwrap()
        );
    }

    {
        let s = "一百二十三京四千五百六十七兆八千九百一億二千三百四十五万六千七百八十九";
        assert_eq!(
            to_arabic_numerals(s),
            String::from_str("1234567890123456789").unwrap()
        );
    }

    {
        let s = "千二百三十四京五千六百七十八兆九千十二億三千四百五十六万七千八百九十";
        assert_eq!(
            to_arabic_numerals(s),
            String::from_str("12345678901234567890").unwrap()
        );
    }

    {
        let s = "一千二百三十四京五千六百七十八兆九千十二億三千四百五十六万七千八百九十";
        assert_eq!(
            to_arabic_numerals(s),
            String::from_str("12345678901234567890").unwrap()
        );
    }

    {
        let s = "垓二千三百四十五京六千七百八十九兆百二十三億四千五百六十七万八千九百一";
        assert_eq!(
            to_arabic_numerals(s),
            String::from_str("123456789012345678901").unwrap()
        );
    }

    {
        let s = "一垓二千三百四十五京六千七百八十九兆百二十三億四千五百六十七万八千九百一";
        assert_eq!(
            to_arabic_numerals(s),
            String::from_str("123456789012345678901").unwrap()
        );
    }

    {
        let s = "十二垓三千四百五十六京七千八百九十兆千二百三十四億五千六百七十八万九千十二";
        assert_eq!(
            to_arabic_numerals(s),
            String::from_str("1234567890123456789012").unwrap()
        );
    }

    {
        let s = "一十二垓三千四百五十六京七千八百九十兆千二百三十四億五千六百七十八万九千十二";
        assert_eq!(
            to_arabic_numerals(s),
            String::from_str("1234567890123456789012").unwrap()
        );
    }

    {
        let s =
            "百二十三垓四千五百六十七京八千九百一兆二千三百四十五億六千七百八十九万百二十三";
        assert_eq!(
            to_arabic_numerals(s),
            String::from_str("12345678901234567890123").unwrap()
        );
    }

    {
        let s =
            "一百二十三垓四千五百六十七京八千九百一兆二千三百四十五億六千七百八十九万百二十三";
        assert_eq!(
            to_arabic_numerals(s),
            String::from_str("12345678901234567890123").unwrap()
        );
    }

    {
        let s = "千二百三十四垓五千六百七十八京九千十二兆三千四百五十六億七千八百九十万一千二百三十四";
        assert_eq!(
            to_arabic_numerals(s),
            String::from_str("123456789012345678901234").unwrap()
        );
    }

    {
        let s = "一千二百三十四垓五千六百七十八京九千十二兆三千四百五十六億七千八百九十万一千二百三十四";
        assert_eq!(
            to_arabic_numerals(s),
            String::from_str("123456789012345678901234").unwrap()
        );
    }
}

#[test]
fn test_japanese_number_token_filter_config_from_slice_ipadic() {
    let config_str = r#"
        {
            "kind": "ipadic"
        }
        "#;
    let config = JapaneseNumberTokenFilterConfig::from_slice(config_str.as_bytes()).unwrap();

    assert_eq!(config.kind, DictionaryKind::IPADIC);
}

#[test]
fn test_japanese_number_token_filter_config_from_slice_unidic() {
    let config_str = r#"
        {
            "kind": "unidic"
        }
        "#;
    let config = JapaneseNumberTokenFilterConfig::from_slice(config_str.as_bytes()).unwrap();

    assert_eq!(config.kind, DictionaryKind::UniDic);
}

#[test]
fn test_japanese_number_token_filter_from_slice_ipadic() {
    let config_str = r#"
        {
            "kind": "ipadic"
        }
        "#;
    let result = JapaneseNumberTokenFilter::from_slice(config_str.as_bytes());

    assert_eq!(true, result.is_ok());
}

#[test]
fn test_japanese_number_token_filter_from_slice_unidic() {
    let config_str = r#"
        {
            "kind": "unidic"
        }
        "#;
    let result = JapaneseNumberTokenFilter::from_slice(config_str.as_bytes());

    assert_eq!(true, result.is_ok());
}

#[test]
fn test_japanese_number_token_filter_apply_ipadic() {
    let config_str = r#"
        {
            "kind": "ipadic"
        }
        "#;
    let filter = JapaneseNumberTokenFilter::from_slice(config_str.as_bytes()).unwrap();

    {
        let mut tokens: Vec<Token> = vec![Token {
            text: "一".to_string(),
            details: Some(vec![
                "名詞".to_string(),
                "数".to_string(),
                "*".to_string(),
                "*".to_string(),
                "*".to_string(),
                "*".to_string(),
                "一".to_string(),
                "イチ".to_string(),
                "イチ".to_string(),
            ]),
            byte_start: 0,
            byte_end: 3,
        }];

        filter.apply(&mut tokens).unwrap();

        assert_eq!(tokens.len(), 1);
        assert_eq!(tokens[0].text, "1");
    }

    {
        let mut tokens: Vec<Token> = vec![Token {
            text: "一二三".to_string(),
            details: Some(vec![
                "名詞".to_string(),
                "数".to_string(),
                "*".to_string(),
                "*".to_string(),
                "*".to_string(),
                "*".to_string(),
                "*".to_string(),
                "*".to_string(),
                "*".to_string(),
            ]),
            byte_start: 0,
            byte_end: 9,
        }];

        filter.apply(&mut tokens).unwrap();

        assert_eq!(tokens.len(), 1);
        assert_eq!(tokens[0].text, "123");
    }

    {
        let mut tokens: Vec<Token> = vec![Token {
            text: "一千二百三十四垓五千六百七十八京九千十二兆三千四百五十六億七千八百九十万一千二百三十四".to_string(),
            details: Some(vec![
                "名詞".to_string(),
                "数".to_string(),
                "*".to_string(),
                "*".to_string(),
                "*".to_string(),
                "*".to_string(),
                "*".to_string(),
                "*".to_string(),
                "*".to_string(),
            ]),
            byte_start: 0,
            byte_end: 129,
        }];

        filter.apply(&mut tokens).unwrap();

        assert_eq!(tokens.len(), 1);
        assert_eq!(tokens[0].text, "123456789012345678901234");
    }
}

#[test]
fn test_japanese_number_token_filter_apply_unidic() {
    let config_str = r#"
        {
            "kind": "unidic"
        }
        "#;
    let filter = JapaneseNumberTokenFilter::from_slice(config_str.as_bytes()).unwrap();

    {
        let mut tokens: Vec<Token> = vec![Token {
            text: "一".to_string(),
            details: Some(vec![
                "名詞".to_string(),
                "数詞".to_string(),
                "*".to_string(),
                "*".to_string(),
                "*".to_string(),
                "*".to_string(),
                "イチ".to_string(),
                "一".to_string(),
                "一".to_string(),
                "イチ".to_string(),
                "一".to_string(),
                "イチ".to_string(),
                "漢".to_string(),
                "*".to_string(),
                "*".to_string(),
                "チ促".to_string(),
                "基本形".to_string(),
            ]),
            byte_start: 0,
            byte_end: 3,
        }];

        filter.apply(&mut tokens).unwrap();

        assert_eq!(tokens.len(), 1);
        assert_eq!(tokens[0].text, "1");
    }

    {
        let mut tokens: Vec<Token> = vec![Token {
            text: "一二三".to_string(),
            details: Some(vec![
                "名詞".to_string(),
                "数詞".to_string(),
                "*".to_string(),
                "*".to_string(),
                "*".to_string(),
                "*".to_string(),
                "*".to_string(),
                "*".to_string(),
                "*".to_string(),
                "*".to_string(),
                "*".to_string(),
                "*".to_string(),
                "*".to_string(),
                "*".to_string(),
                "*".to_string(),
                "*".to_string(),
                "*".to_string(),
            ]),
            byte_start: 0,
            byte_end: 9,
        }];

        filter.apply(&mut tokens).unwrap();

        assert_eq!(tokens.len(), 1);
        assert_eq!(tokens[0].text, "123");
    }

    {
        let mut tokens: Vec<Token> = vec![Token {
            text: "一千二百三十四垓五千六百七十八京九千十二兆三千四百五十六億七千八百九十万一千二百三十四".to_string(),
            details: Some(vec![
                "名詞".to_string(),
                "数詞".to_string(),
                "*".to_string(),
                "*".to_string(),
                "*".to_string(),
                "*".to_string(),
                "*".to_string(),
                "*".to_string(),
                "*".to_string(),
                "*".to_string(),
                "*".to_string(),
                "*".to_string(),
                "*".to_string(),
                "*".to_string(),
                "*".to_string(),
                "*".to_string(),
                "*".to_string(),
            ]),
            byte_start: 0,
            byte_end: 129,
        }];

        filter.apply(&mut tokens).unwrap();

        assert_eq!(tokens.len(), 1);
        assert_eq!(tokens[0].text, "123456789012345678901234");
    }
}
