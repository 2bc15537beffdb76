//! Token filters: transformations of a token list after segmentation.

use vstd::prelude::*;
use vstd::string::StringExecFns;

use crate::dictionary::DictionaryKind;
use crate::error::{LinderaErrorKind, LinderaResult};
use crate::json::Json;
use crate::token::{string_views, token_views, Token, TokenView};
use crate::token_filter::japanese_base_form::{
    all_base_forms, JapaneseBaseFormTokenFilter, JapaneseBaseFormTokenFilterConfig,
    JAPANESE_BASE_FORM_TOKEN_FILTER_NAME,
};
use crate::token_filter::japanese_compound_word::{
    compounded, JapaneseCompoundWordTokenFilter, JapaneseCompoundWordTokenFilterConfig,
    JapaneseCompoundWordView, JAPANESE_COMPOUND_WORD_TOKEN_FILTER_NAME,
};
use crate::token_filter::japanese_katakana_stem::{
    all_stemmed, JapaneseKatakanaStemTokenFilter, JapaneseKatakanaStemTokenFilterConfig,
    JAPANESE_KATAKANA_STEM_TOKEN_FILTER_NAME,
};
use crate::token_filter::japanese_keep_tags::{
    JapaneseKeepTagsTokenFilter, JapaneseKeepTagsTokenFilterConfig,
    JAPANESE_KEEP_TAGS_TOKEN_FILTER_NAME,
};
use crate::token_filter::japanese_number::{
    all_numbered, JapaneseNumberTokenFilter, JapaneseNumberTokenFilterConfig,
    JAPANESE_NUMBER_TOKEN_FILTER_NAME,
};
use crate::token_filter::japanese_reading_form::{
    all_readings, JapaneseReadingFormTokenFilter, JapaneseReadingFormTokenFilterConfig,
    JAPANESE_READING_FORM_TOKEN_FILTER_NAME,
};
use crate::token_filter::japanese_stop_tags::{
    JapaneseStopTagsTokenFilter, JapaneseStopTagsTokenFilterConfig,
    JAPANESE_STOP_TAGS_TOKEN_FILTER_NAME,
};
use crate::token_filter::keep_words::{
    KeepWordsTokenFilter, KeepWordsTokenFilterConfig, KEEP_WORDS_TOKEN_FILTER_NAME,
};
use crate::token_filter::korean_keep_tags::{
    KoreanKeepTagsTokenFilter, KoreanKeepTagsTokenFilterConfig, KOREAN_KEEP_TAGS_TOKEN_FILTER_NAME,
};
use crate::token_filter::korean_reading_form::{
    all_korean_readings, KoreanReadingFormTokenFilter, KOREAN_READING_FORM_TOKEN_FILTER_NAME,
};
use crate::token_filter::korean_stop_tags::{
    KoreanStopTagsTokenFilter, KoreanStopTagsTokenFilterConfig, KOREAN_STOP_TAGS_TOKEN_FILTER_NAME,
};
use crate::token_filter::length::{
    LengthTokenFilter, LengthTokenFilterConfig, LENGTH_TOKEN_FILTER_NAME,
};
use crate::token_filter::lowercase::{
    all_lowercase, LowercaseTokenFilter, LOWERCASE_TOKEN_FILTER_NAME,
};
use crate::token_filter::stop_words::{
    StopWordsTokenFilter, StopWordsTokenFilterConfig, STOP_WORDS_TOKEN_FILTER_NAME,
};
use crate::token_filter::uppercase::{
    all_uppercase, UppercaseTokenFilter, UPPERCASE_TOKEN_FILTER_NAME,
};

pub mod japanese_base_form;
pub mod japanese_compound_word;
pub mod japanese_katakana_stem;
pub mod japanese_keep_tags;
pub mod japanese_number;
pub mod japanese_reading_form;
pub mod japanese_stop_tags;
pub mod keep_words;
pub mod korean_keep_tags;
pub mod korean_reading_form;
pub mod korean_stop_tags;
pub mod length;
pub mod lowercase;
pub mod stop_words;
pub mod uppercase;

verus! {

/// The tokens of `tokens` whose flag in `flags` is set, in their order.
pub open spec fn flagged(tokens: Seq<TokenView>, flags: Seq<bool>) -> Seq<TokenView>
    decreases tokens.len(),
{
    if tokens.len() == 0 || flags.len() == 0 {
        Seq::empty()
    } else {
        let front = flagged(tokens.drop_last(), flags.drop_last());
        if flags.last() {
            front.push(tokens.last())
        } else {
            front
        }
    }
}

/// Flags that say of each token whether `keep` holds of it select the
/// tokens that `keep` selects.
pub proof fn lemma_flagged_is_filter(
    tokens: Seq<TokenView>,
    flags: Seq<bool>,
    keep: spec_fn(TokenView) -> bool,
)
    requires
        flags.len() == tokens.len(),
        forall|i: int| 0 <= i < tokens.len() ==> flags[i] == keep(#[trigger] tokens[i]),
    ensures
        flagged(tokens, flags) == tokens.filter(keep),
    decreases tokens.len(),
{
    reveal(Seq::filter);
    if tokens.len() > 0 {
        let front = tokens.drop_last();
        assert forall|i: int| 0 <= i < front.len() implies flags.drop_last()[i] == keep(
            #[trigger] front[i],
        ) by {
            assert(front[i] == tokens[i]);
        }
        lemma_flagged_is_filter(front, flags.drop_last(), keep);
        assert(flags.last() == keep(tokens[tokens.len() - 1]));
    } else {
        assert(tokens.filter(keep) =~= Seq::empty());
    }
}

/// The field `i` of the tag of a token with the features `details`: the
/// feature itself among the first four of at least four, and the first of
/// fewer; an asterisk in every other place.
pub open spec fn tag_field(details: Seq<Seq<char>>, i: int) -> Seq<char> {
    if (details.len() >= 4 && 0 <= i < 4) || (details.len() >= 1 && i == 0) {
        details[i]
    } else {
        seq!['*']
    }
}

/// The part-of-speech tag of a token with the features `details`: its four
/// fields joined by commas.
pub open spec fn pos_tag(details: Seq<Seq<char>>) -> Seq<char> {
    tag_field(details, 0) + seq![','] + tag_field(details, 1) + seq![','] + tag_field(details, 2)
        + seq![','] + tag_field(details, 3)
}

/// The number of commas in `tag`.
pub open spec fn commas(tag: Seq<char>) -> nat
    decreases tag.len(),
{
    if tag.len() == 0 {
        0
    } else {
        commas(tag.drop_last()) + if tag.last() == ',' {
            1nat
        } else {
            0nat
        }
    }
}

/// `n` fields that hold an asterisk, each behind a comma.
pub open spec fn stars(n: nat) -> Seq<char>
    decreases n,
{
    if n == 0 {
        Seq::empty()
    } else {
        stars((n - 1) as nat) + seq![',', '*']
    }
}

/// The tag `tag` of one to four fields as a tag of four: the fields that it
/// lacks hold an asterisk. A tag of more fields stays as it is.
pub open spec fn padded_tag(tag: Seq<char>) -> Seq<char> {
    if commas(tag) <= 3 {
        tag + stars((3 - commas(tag)) as nat)
    } else {
        tag
    }
}

/// The tags `tags`, each as a tag of four fields.
pub open spec fn padded_tags(tags: Seq<Seq<char>>) -> Seq<Seq<char>> {
    Seq::new(tags.len(), |i: int| padded_tag(tags[i]))
}

/// Whether `token` has features and its part-of-speech tag is one of
/// `tags`.
pub open spec fn has_pos_tag(token: TokenView, tags: Seq<Seq<char>>) -> bool {
    match token.details {
        Some(details) => tags.contains(pos_tag(details)),
        None => false,
    }
}

/// The tokens of `tokens` whose part-of-speech tag is one of `tags`.
pub open spec fn kept_by_pos(tokens: Seq<TokenView>, tags: Seq<Seq<char>>) -> Seq<TokenView> {
    tokens.filter(|token: TokenView| has_pos_tag(token, tags))
}

/// The tokens of `tokens` whose part-of-speech tag is none of `tags`, those
/// without features among them.
pub open spec fn stopped_by_pos(tokens: Seq<TokenView>, tags: Seq<Seq<char>>) -> Seq<TokenView> {
    tokens.filter(|token: TokenView| !has_pos_tag(token, tags))
}

/// The tokens of `tokens` whose text is one of `words`.
pub open spec fn kept_by_words(tokens: Seq<TokenView>, words: Seq<Seq<char>>) -> Seq<TokenView> {
    tokens.filter(|token: TokenView| words.contains(token.text))
}

/// The tokens of `tokens` whose text is none of `words`.
pub open spec fn stopped_by_words(tokens: Seq<TokenView>, words: Seq<Seq<char>>) -> Seq<
    TokenView,
> {
    tokens.filter(|token: TokenView| !words.contains(token.text))
}

/// The field `i` of the tag of a token with the features `details`.
pub fn tag_field_of(details: &Vec<String>, i: usize) -> (field: &str)
    requires
        i < 4,
    ensures
        field@ == tag_field(string_views(details@), i as int),
{
    if (details.len() >= 4) || (details.len() >= 1 && i == 0) {
        details[i].as_str()
    } else {
        proof {
            reveal_strlit("*");
            assert("*"@ =~= seq!['*']);
        }
        "*"
    }
}

/// The part-of-speech tag of a token with the features `details`.
pub fn pos_tag_of(details: &Vec<String>) -> (tag: String)
    ensures
        tag@ == pos_tag(string_views(details@)),
{
    proof {
        reveal_strlit(",");
        assert(","@ =~= seq![',']);
    }
    let mut tag = String::from_str(tag_field_of(details, 0));
    tag.append(",");
    tag.append(tag_field_of(details, 1));
    tag.append(",");
    tag.append(tag_field_of(details, 2));
    tag.append(",");
    tag.append(tag_field_of(details, 3));
    tag
}

/// Whether `token` has features and its part-of-speech tag is one of
/// `tags`.
pub fn token_has_pos_tag(token: &Token, tags: &Vec<String>) -> (found: bool)
    ensures
        found == has_pos_tag(token@, string_views(tags@)),
{
    match &token.details {
        Some(details) => {
            let tag = pos_tag_of(details);
            contains_string(tags, &tag)
        },
        None => false,
    }
}

/// The tag `tag` as a tag of four fields.
pub fn pad_tag(tag: &str) -> (padded: String)
    ensures
        padded@ == padded_tag(tag@),
{
    let chars = crate::text::chars_of(tag);
    let mut count: usize = 0;
    let mut i: usize = 0;
    proof {
        assert(chars@.take(0) =~= Seq::<char>::empty());
    }
    while i < chars.len()
        invariant
            i <= chars@.len(),
            count <= i,
            count == commas(chars@.take(i as int)),
        decreases chars@.len() - i,
    {
        proof {
            assert(chars@.take(i + 1).drop_last() =~= chars@.take(i as int));
            assert(chars@.take(i + 1).last() == chars@[i as int]);
        }
        if chars[i] == ',' {
            count = count + 1;
        }
        i = i + 1;
    }
    proof {
        assert(chars@.take(i as int) =~= chars@);
    }
    let mut padded = String::from_str(tag);
    if count <= 3 {
        let mut added: usize = 0;
        while added < 3 - count
            invariant
                count <= 3,
                added <= 3 - count,
                padded@ == tag@ + stars(added as nat),
            decreases 3 - count - added,
        {
            proof {
                reveal_strlit(",*");
                assert(",*"@ =~= seq![',', '*']);
            }
            padded.append(",*");
            added = added + 1;
        }
    }
    padded
}

/// The tags `tags`, each as a tag of four fields.
pub fn pad_tags(tags: Vec<String>) -> (padded: Vec<String>)
    ensures
        string_views(padded@) == padded_tags(string_views(tags@)),
{
    let mut padded: Vec<String> = Vec::new();
    let mut i: usize = 0;
    while i < tags.len()
        invariant
            i <= tags@.len(),
            padded@.len() == i,
            forall|j: int| 0 <= j < i ==> (#[trigger] padded@[j])@ == padded_tag(tags@[j]@),
        decreases tags@.len() - i,
    {
        padded.push(pad_tag(tags[i].as_str()));
        i = i + 1;
    }
    proof {
        assert(string_views(padded@) =~= padded_tags(string_views(tags@)));
    }
    padded
}

/// Whether `token` has features and the first of them, its part of speech,
/// is one of `tags`.
pub open spec fn has_tag(token: TokenView, tags: Seq<Seq<char>>) -> bool {
    token.details matches Some(details) && details.len() > 0 && tags.contains(details[0])
}

/// The tokens of `tokens` whose part of speech is one of `tags`.
pub open spec fn kept_by_tags(tokens: Seq<TokenView>, tags: Seq<Seq<char>>) -> Seq<TokenView> {
    tokens.filter(|token: TokenView| has_tag(token, tags))
}

/// The tokens of `tokens` whose part of speech is none of `tags`, those
/// without features among them.
pub open spec fn stopped_by_tags(tokens: Seq<TokenView>, tags: Seq<Seq<char>>) -> Seq<TokenView> {
    tokens.filter(|token: TokenView| !has_tag(token, tags))
}

/// What one predicate keeps of a token list and what its negation keeps
/// make up the list between them, each token on exactly one side, as
/// often as it occurs in the list.
pub proof fn lemma_filter_split(
    tokens: Seq<TokenView>,
    keep: spec_fn(TokenView) -> bool,
    stop: spec_fn(TokenView) -> bool,
)
    requires
        forall|token: TokenView| #[trigger] stop(token) == !keep(token),
    ensures
        tokens.filter(keep).to_multiset().add(tokens.filter(stop).to_multiset())
            == tokens.to_multiset(),
        forall|token: TokenView|
            tokens.contains(token) <==> tokens.filter(keep).contains(token) || tokens.filter(
                stop,
            ).contains(token),
        forall|token: TokenView|
            !(tokens.filter(keep).contains(token) && tokens.filter(stop).contains(token)),
{
    let kept = tokens.filter(keep);
    let stopped = tokens.filter(stop);
    lemma_filter_counts(tokens, keep, stop);
    assert forall|token: TokenView| !(kept.contains(token) && stopped.contains(token)) by {
        if kept.contains(token) && stopped.contains(token) {
            let i = choose|i: int| 0 <= i < kept.len() && kept[i] == token;
            let j = choose|j: int| 0 <= j < stopped.len() && stopped[j] == token;
            tokens.lemma_filter_pred(keep, i);
            tokens.lemma_filter_pred(stop, j);
        }
    }
    assert forall|token: TokenView|
        tokens.contains(token) <==> kept.contains(token) || stopped.contains(token) by {
        tokens.to_multiset_ensures();
        kept.to_multiset_ensures();
        stopped.to_multiset_ensures();
        assert(tokens.to_multiset().count(token) == kept.to_multiset().count(token)
            + stopped.to_multiset().count(token));
    }
}

/// The counting half of the split.
proof fn lemma_filter_counts(
    tokens: Seq<TokenView>,
    keep: spec_fn(TokenView) -> bool,
    stop: spec_fn(TokenView) -> bool,
)
    requires
        forall|token: TokenView| #[trigger] stop(token) == !keep(token),
    ensures
        tokens.filter(keep).to_multiset().add(tokens.filter(stop).to_multiset())
            =~= tokens.to_multiset(),
    decreases tokens.len(),
{
    reveal(Seq::filter);
    let kept = tokens.filter(keep);
    let stopped = tokens.filter(stop);
    if tokens.len() == 0 {
        assert(kept =~= tokens);
        assert(stopped =~= tokens);
        tokens.to_multiset_ensures();
        assert forall|token: TokenView| tokens.to_multiset().count(token) == 0 by {
            assert(!tokens.contains(token));
        }
    } else {
        let front = tokens.drop_last();
        let last = tokens.last();
        let kept_front = front.filter(keep);
        let stopped_front = front.filter(stop);
        lemma_filter_counts(front, keep, stop);
        assert(tokens =~= front.push(last));
        front.to_multiset_ensures();
        kept_front.to_multiset_ensures();
        stopped_front.to_multiset_ensures();
        assert(front.push(last).to_multiset() =~= front.to_multiset().insert(last));
        assert(stop(last) == !keep(last));
        if keep(last) {
            assert(kept == kept_front.push(last));
            assert(stopped == stopped_front);
            assert(kept_front.push(last).to_multiset() =~= kept_front.to_multiset().insert(last));
        } else {
            assert(kept == kept_front);
            assert(stopped == stopped_front.push(last));
            assert(stopped_front.push(last).to_multiset() =~= stopped_front.to_multiset().insert(
                last,
            ));
        }
    }
}

/// The tokens that the Korean keep filter keeps and those that the Korean
/// stop filter of the same tags keeps make up the token list between
/// them, each token on exactly one side, as often as it occurs in the
/// list.
pub proof fn lemma_korean_keep_stop_partition(tokens: Seq<TokenView>, tags: Seq<Seq<char>>)
    ensures
        kept_by_tags(tokens, tags).to_multiset().add(stopped_by_tags(tokens, tags).to_multiset())
            == tokens.to_multiset(),
        forall|token: TokenView|
            tokens.contains(token) <==> kept_by_tags(tokens, tags).contains(token)
                || stopped_by_tags(tokens, tags).contains(token),
        forall|token: TokenView|
            !(kept_by_tags(tokens, tags).contains(token) && stopped_by_tags(tokens, tags).contains(
                token,
            )),
{
    lemma_filter_split(
        tokens,
        |token: TokenView| has_tag(token, tags),
        |token: TokenView| !has_tag(token, tags),
    );
}

/// The tokens that the Japanese keep filter keeps and those that the
/// Japanese stop filter of the same tags keeps make up the token list
/// between them, each token on exactly one side, as often as it occurs in
/// the list.
pub proof fn lemma_pos_keep_stop_partition(tokens: Seq<TokenView>, tags: Seq<Seq<char>>)
    ensures
        kept_by_pos(tokens, tags).to_multiset().add(stopped_by_pos(tokens, tags).to_multiset())
            == tokens.to_multiset(),
        forall|token: TokenView|
            tokens.contains(token) <==> kept_by_pos(tokens, tags).contains(token)
                || stopped_by_pos(tokens, tags).contains(token),
        forall|token: TokenView|
            !(kept_by_pos(tokens, tags).contains(token) && stopped_by_pos(tokens, tags).contains(
                token,
            )),
{
    lemma_filter_split(
        tokens,
        |token: TokenView| has_pos_tag(token, tags),
        |token: TokenView| !has_pos_tag(token, tags),
    );
}

/// The tokens that a keep filter of words keeps and those that the stop
/// filter of the same words keeps make up the token list between them,
/// each token on exactly one side, as often as it occurs in the list.
pub proof fn lemma_words_keep_stop_partition(tokens: Seq<TokenView>, words: Seq<Seq<char>>)
    ensures
        kept_by_words(tokens, words).to_multiset().add(
            stopped_by_words(tokens, words).to_multiset(),
        ) == tokens.to_multiset(),
        forall|token: TokenView|
            tokens.contains(token) <==> kept_by_words(tokens, words).contains(token)
                || stopped_by_words(tokens, words).contains(token),
        forall|token: TokenView|
            !(kept_by_words(tokens, words).contains(token) && stopped_by_words(
                tokens,
                words,
            ).contains(token)),
{
    lemma_filter_split(
        tokens,
        |token: TokenView| words.contains(token.text),
        |token: TokenView| !words.contains(token.text),
    );
}

/// `strings` without the strings that occurred before in it.
pub open spec fn distinct(strings: Seq<Seq<char>>) -> Seq<Seq<char>>
    decreases strings.len(),
{
    if strings.len() == 0 {
        Seq::empty()
    } else {
        let front = distinct(strings.drop_last());
        if front.contains(strings.last()) {
            front
        } else {
            front.push(strings.last())
        }
    }
}

/// `distinct` holds every string of its argument, no other, and none
/// twice.
pub proof fn lemma_distinct(strings: Seq<Seq<char>>)
    ensures
        distinct(strings).no_duplicates(),
        forall|s: Seq<char>| #[trigger] distinct(strings).contains(s) <==> strings.contains(s),
    decreases strings.len(),
{
    if strings.len() > 0 {
        let front = strings.drop_last();
        let last = strings.last();
        let before = distinct(front);
        let after = distinct(strings);
        lemma_distinct(front);
        assert forall|s: Seq<char>| #[trigger] after.contains(s) <==> strings.contains(s) by {
            if after.contains(s) {
                let i = choose|i: int| 0 <= i < after.len() && after[i] == s;
                if i < before.len() {
                    assert(before[i] == s);
                    assert(before.contains(s));
                    assert(front.contains(s));
                    let j = choose|j: int| 0 <= j < front.len() && front[j] == s;
                    assert(strings[j] == s);
                } else {
                    assert(strings[strings.len() - 1] == s);
                }
                assert(strings.contains(s));
            }
            if strings.contains(s) {
                let j = choose|j: int| 0 <= j < strings.len() && strings[j] == s;
                if j < front.len() {
                    assert(front[j] == s);
                    assert(front.contains(s));
                    assert(before.contains(s));
                    let i = choose|i: int| 0 <= i < before.len() && before[i] == s;
                    assert(after[i] == s);
                } else if before.contains(last) {
                } else {
                    assert(after[before.len() as int] == s);
                }
                assert(after.contains(s));
            }
        }
    }
}

/// Whether `s` is one of `strings`.
pub fn contains_string(strings: &Vec<String>, s: &String) -> (found: bool)
    ensures
        found == string_views(strings@).contains(s@),
{
    let mut i: usize = 0;
    while i < strings.len()
        invariant
            i <= strings@.len(),
            forall|j: int| 0 <= j < i ==> string_views(strings@)[j] != s@,
        decreases strings@.len() - i,
    {
        if strings[i] == *s {
            assert(string_views(strings@)[i as int] == s@);
            return true;
        }
        i = i + 1;
    }
    false
}

/// A copy of `strings`.
pub fn clone_strings(strings: &Vec<String>) -> (copy: Vec<String>)
    ensures
        string_views(copy@) == string_views(strings@),
{
    let mut copy: Vec<String> = Vec::new();
    let mut i: usize = 0;
    while i < strings.len()
        invariant
            i <= strings@.len(),
            copy@.len() == i,
            forall|j: int| 0 <= j < i ==> (#[trigger] copy@[j])@ == strings@[j]@,
        decreases strings@.len() - i,
    {
        copy.push(strings[i].clone());
        i = i + 1;
    }
    proof {
        assert(string_views(copy@) =~= string_views(strings@));
    }
    copy
}

/// `strings` without the strings that occurred before in it: the same
/// strings, each once.
pub fn distinct_strings(strings: Vec<String>) -> (kept: Vec<String>)
    ensures
        string_views(kept@) == distinct(string_views(strings@)),
        string_views(kept@).no_duplicates(),
        forall|s: Seq<char>|
            string_views(kept@).contains(s) <==> string_views(strings@).contains(s),
{
    let ghost all = strings@;
    let mut kept: Vec<String> = Vec::new();
    let mut i: usize = 0;
    assert(all.len() == strings.len());
    proof {
        assert(string_views(all.take(0)) =~= Seq::empty());
        assert(string_views(kept@) =~= Seq::empty());
    }
    for s in it: strings
        invariant
            i == it.index(),
            it.seq() == all,
            all.len() <= usize::MAX,
            string_views(kept@) == distinct(string_views(all.take(i as int))),
    {
        proof {
            let next = string_views(all.take(i + 1));
            assert(next.drop_last() =~= string_views(all.take(i as int)));
            assert(next.last() == s@);
        }
        let ghost before = string_views(kept@);
        if !contains_string(&kept, &s) {
            kept.push(s);
            proof {
                assert(string_views(kept@) =~= before.push(s@));
            }
        }
        i = i + 1;
    }
    proof {
        assert(all.take(i as int) =~= all);
        lemma_distinct(string_views(all));
    }
    kept
}

/// The feature `index` of `token`, where it has one.
pub open spec fn detail_at(token: TokenView, index: int) -> Option<Seq<char>> {
    match token.details {
        Some(details) => if 0 <= index < details.len() {
            Some(details[index])
        } else {
            None
        },
        None => None,
    }
}

/// The feature `index` of `token`, where it has one.
pub fn detail_of(token: &Token, index: usize) -> (detail: Option<&String>)
    ensures
        match detail {
            Some(detail) => detail_at(token@, index as int) == Some(detail@),
            None => detail_at(token@, index as int) is None,
        },
{
    match &token.details {
        Some(details) => if index < details.len() {
            Some(&details[index])
        } else {
            None
        },
        None => None,
    }
}

/// The strings of `texts` that are there, each as its sequence of scalars.
pub open spec fn text_views(texts: Seq<Option<String>>) -> Seq<Option<Seq<char>>> {
    Seq::new(
        texts.len(),
        |i: int|
            match texts[i] {
                Some(text) => Some(text@),
                None => None,
            },
    )
}

/// `token` with the text `text`, where there is one.
pub open spec fn with_text(token: TokenView, text: Option<Seq<char>>) -> TokenView {
    match text {
        Some(text) => TokenView {
            text,
            details: token.details,
            byte_start: token.byte_start,
            byte_end: token.byte_end,
        },
        None => token,
    }
}

/// Gives each of `tokens` the text that `texts` holds for it, and leaves
/// the tokens for which it holds none.
pub fn replace_texts(tokens: &mut Vec<Token>, texts: Vec<Option<String>>)
    requires
        texts@.len() == old(tokens)@.len(),
    ensures
        final(tokens)@.len() == old(tokens)@.len(),
        forall|i: int|
            0 <= i < old(tokens)@.len() ==> (#[trigger] final(tokens)@[i])@ == with_text(
                old(tokens)@[i]@,
                text_views(texts@)[i],
            ),
{
    let ghost before = tokens@;
    let ghost given = texts@;
    let mut all: Vec<Token> = Vec::new();
    std::mem::swap(tokens, &mut all);
    let mut texts = texts;
    let mut i: usize = 0;
    assert(before.len() == all.len());
    for token in it: all
        invariant
            i == it.index(),
            it.seq() == before,
            before.len() <= usize::MAX,
            texts@.len() == before.len(),
            given.len() == before.len(),
            forall|j: int| i <= j < before.len() ==> texts@[j] == given[j],
            tokens@.len() == i,
            forall|j: int|
                0 <= j < i ==> (#[trigger] tokens@[j])@ == with_text(
                    before[j]@,
                    text_views(given)[j],
                ),
    {
        let mut taken: Option<String> = None;
        std::mem::swap(&mut texts[i], &mut taken);
        match taken {
            Some(text) => {
                let Token { text: _, details, byte_start, byte_end } = token;
                tokens.push(Token { text, details, byte_start, byte_end });
            },
            None => {
                tokens.push(token);
            },
        }
        i = i + 1;
    }
}

/// Removes from `tokens` those whose flag in `flags` is not set.
pub fn retain_flagged(tokens: &mut Vec<Token>, flags: &Vec<bool>)
    requires
        flags@.len() == old(tokens)@.len(),
    ensures
        token_views(final(tokens)@) == flagged(token_views(old(tokens)@), flags@),
{
    let ghost before = tokens@;
    let mut all: Vec<Token> = Vec::new();
    std::mem::swap(tokens, &mut all);
    let mut i: usize = 0;
    assert(before.len() == all.len());
    proof {
        assert(token_views(before.take(0)) =~= Seq::empty());
    }
    for token in it: all
        invariant
            i == it.index(),
            it.seq() == before,
            before.len() <= usize::MAX,
            flags@.len() == before.len(),
            token_views(tokens@) == flagged(
                token_views(before.take(i as int)),
                flags@.take(i as int),
            ),
    {
        proof {
            let next = before.take(i + 1);
            assert(token_views(next).drop_last() =~= token_views(before.take(i as int)));
            assert(flags@.take(i + 1).drop_last() =~= flags@.take(i as int));
            assert(token_views(next).last() == token@);
            assert(flags@.take(i + 1).last() == flags@[i as int]);
        }
        let ghost kept = token_views(tokens@);
        if flags[i] {
            tokens.push(token);
            proof {
                assert(token_views(tokens@) =~= kept.push(token@));
            }
        }
        i = i + 1;
    }
    proof {
        assert(before.take(i as int) =~= before);
        assert(flags@.take(i as int) =~= flags@);
    }
}

/// A token filter of any of the kinds that the library holds.
#[derive(Debug)]
pub enum TokenFilter {
    JapaneseBaseForm(JapaneseBaseFormTokenFilter),
    JapaneseCompoundWord(JapaneseCompoundWordTokenFilter),
    JapaneseKatakanaStem(JapaneseKatakanaStemTokenFilter),
    JapaneseKeepTags(JapaneseKeepTagsTokenFilter),
    JapaneseNumber(JapaneseNumberTokenFilter),
    JapaneseReadingForm(JapaneseReadingFormTokenFilter),
    JapaneseStopTags(JapaneseStopTagsTokenFilter),
    KeepWords(KeepWordsTokenFilter),
    KoreanKeepTags(KoreanKeepTagsTokenFilter),
    KoreanReadingForm(KoreanReadingFormTokenFilter),
    KoreanStopTags(KoreanStopTagsTokenFilter),
    Length(LengthTokenFilter),
    Lowercase(LowercaseTokenFilter),
    StopWords(StopWordsTokenFilter),
    Uppercase(UppercaseTokenFilter),
}

/// What a token filter is configured with, by its kind.
pub enum TokenFilterView {
    JapaneseBaseForm(DictionaryKind),
    JapaneseCompoundWord(JapaneseCompoundWordView),
    JapaneseKatakanaStem(usize),
    JapaneseKeepTags(Seq<Seq<char>>),
    JapaneseNumber(DictionaryKind),
    JapaneseReadingForm(DictionaryKind),
    JapaneseStopTags(Seq<Seq<char>>),
    KeepWords(Seq<Seq<char>>),
    KoreanKeepTags(Seq<Seq<char>>),
    KoreanReadingForm,
    KoreanStopTags(Seq<Seq<char>>),
    Length(LengthTokenFilterConfig),
    Lowercase,
    StopWords(Seq<Seq<char>>),
    Uppercase,
}

impl TokenFilterView {
    /// The name by which a configuration asks for a filter of this kind.
    pub open spec fn name(self) -> Seq<char> {
        match self {
            TokenFilterView::JapaneseBaseForm(_) => JAPANESE_BASE_FORM_TOKEN_FILTER_NAME@,
            TokenFilterView::JapaneseCompoundWord(_) => JAPANESE_COMPOUND_WORD_TOKEN_FILTER_NAME@,
            TokenFilterView::JapaneseKatakanaStem(_) => JAPANESE_KATAKANA_STEM_TOKEN_FILTER_NAME@,
            TokenFilterView::JapaneseKeepTags(_) => JAPANESE_KEEP_TAGS_TOKEN_FILTER_NAME@,
            TokenFilterView::JapaneseNumber(_) => JAPANESE_NUMBER_TOKEN_FILTER_NAME@,
            TokenFilterView::JapaneseReadingForm(_) => JAPANESE_READING_FORM_TOKEN_FILTER_NAME@,
            TokenFilterView::JapaneseStopTags(_) => JAPANESE_STOP_TAGS_TOKEN_FILTER_NAME@,
            TokenFilterView::KeepWords(_) => KEEP_WORDS_TOKEN_FILTER_NAME@,
            TokenFilterView::KoreanKeepTags(_) => KOREAN_KEEP_TAGS_TOKEN_FILTER_NAME@,
            TokenFilterView::KoreanReadingForm => KOREAN_READING_FORM_TOKEN_FILTER_NAME@,
            TokenFilterView::KoreanStopTags(_) => KOREAN_STOP_TAGS_TOKEN_FILTER_NAME@,
            TokenFilterView::Length(_) => LENGTH_TOKEN_FILTER_NAME@,
            TokenFilterView::Lowercase => LOWERCASE_TOKEN_FILTER_NAME@,
            TokenFilterView::StopWords(_) => STOP_WORDS_TOKEN_FILTER_NAME@,
            TokenFilterView::Uppercase => UPPERCASE_TOKEN_FILTER_NAME@,
        }
    }

    /// The tokens `tokens` as the filter leaves them.
    pub open spec fn filtered(self, tokens: Seq<TokenView>) -> Seq<TokenView> {
        match self {
            TokenFilterView::JapaneseBaseForm(kind) => all_base_forms(tokens, kind),
            TokenFilterView::JapaneseCompoundWord(config) => compounded(config, tokens),
            TokenFilterView::JapaneseKatakanaStem(min) => all_stemmed(tokens, min),
            TokenFilterView::JapaneseKeepTags(tags) => kept_by_pos(tokens, tags),
            TokenFilterView::JapaneseNumber(kind) => all_numbered(tokens, kind),
            TokenFilterView::JapaneseReadingForm(kind) => all_readings(tokens, kind),
            TokenFilterView::JapaneseStopTags(tags) => stopped_by_pos(tokens, tags),
            TokenFilterView::KeepWords(words) => kept_by_words(tokens, words),
            TokenFilterView::KoreanKeepTags(tags) => kept_by_tags(tokens, tags),
            TokenFilterView::KoreanReadingForm => all_korean_readings(tokens),
            TokenFilterView::KoreanStopTags(tags) => stopped_by_tags(tokens, tags),
            TokenFilterView::Length(config) => config.filtered(tokens),
            TokenFilterView::Lowercase => all_lowercase(tokens),
            TokenFilterView::StopWords(words) => stopped_by_words(tokens, words),
            TokenFilterView::Uppercase => all_uppercase(tokens),
        }
    }
}

impl View for TokenFilter {
    type V = TokenFilterView;

    open spec fn view(&self) -> TokenFilterView {
        match self {
            TokenFilter::JapaneseBaseForm(filter) => {
                TokenFilterView::JapaneseBaseForm(filter.kind())
            },
            TokenFilter::JapaneseCompoundWord(filter) => TokenFilterView::JapaneseCompoundWord(
                filter@,
            ),
            TokenFilter::JapaneseKatakanaStem(filter) => {
                TokenFilterView::JapaneseKatakanaStem(filter.min())
            },
            TokenFilter::JapaneseKeepTags(filter) => {
                TokenFilterView::JapaneseKeepTags(filter.tags())
            },
            TokenFilter::JapaneseNumber(filter) => TokenFilterView::JapaneseNumber(filter.kind()),
            TokenFilter::JapaneseReadingForm(filter) => {
                TokenFilterView::JapaneseReadingForm(filter.kind())
            },
            TokenFilter::JapaneseStopTags(filter) => {
                TokenFilterView::JapaneseStopTags(filter.tags())
            },
            TokenFilter::KeepWords(filter) => TokenFilterView::KeepWords(filter.words()),
            TokenFilter::KoreanKeepTags(filter) => TokenFilterView::KoreanKeepTags(filter.tags()),
            TokenFilter::KoreanReadingForm(_) => TokenFilterView::KoreanReadingForm,
            TokenFilter::KoreanStopTags(filter) => TokenFilterView::KoreanStopTags(filter.tags()),
            TokenFilter::Length(filter) => TokenFilterView::Length(filter.config()),
            TokenFilter::Lowercase(_) => TokenFilterView::Lowercase,
            TokenFilter::StopWords(filter) => TokenFilterView::StopWords(filter.words()),
            TokenFilter::Uppercase(_) => TokenFilterView::Uppercase,
        }
    }
}

impl Clone for TokenFilter {
    fn clone(&self) -> (copy: Self)
        ensures
            copy@ == self@,
    {
        match self {
            TokenFilter::JapaneseBaseForm(filter) => TokenFilter::JapaneseBaseForm(*filter),
            TokenFilter::JapaneseCompoundWord(filter) => TokenFilter::JapaneseCompoundWord(
                filter.clone(),
            ),
            TokenFilter::JapaneseKatakanaStem(filter) => TokenFilter::JapaneseKatakanaStem(*filter),
            TokenFilter::JapaneseKeepTags(filter) => TokenFilter::JapaneseKeepTags(filter.clone()),
            TokenFilter::JapaneseNumber(filter) => TokenFilter::JapaneseNumber(*filter),
            TokenFilter::JapaneseReadingForm(filter) => TokenFilter::JapaneseReadingForm(*filter),
            TokenFilter::JapaneseStopTags(filter) => TokenFilter::JapaneseStopTags(filter.clone()),
            TokenFilter::KeepWords(filter) => TokenFilter::KeepWords(filter.clone()),
            TokenFilter::KoreanKeepTags(filter) => TokenFilter::KoreanKeepTags(filter.clone()),
            TokenFilter::KoreanReadingForm(filter) => TokenFilter::KoreanReadingForm(*filter),
            TokenFilter::KoreanStopTags(filter) => TokenFilter::KoreanStopTags(filter.clone()),
            TokenFilter::Length(filter) => TokenFilter::Length(*filter),
            TokenFilter::Lowercase(filter) => TokenFilter::Lowercase(*filter),
            TokenFilter::StopWords(filter) => TokenFilter::StopWords(filter.clone()),
            TokenFilter::Uppercase(filter) => TokenFilter::Uppercase(*filter),
        }
    }
}

/// The filter that a configuration asks for by the name `kind` and the
/// arguments `args`, or the kind of the error that it meets: `Deserialize`
/// for a name that is no kind of token filter, and for arguments that do
/// not fit the kind. The kinds without configuration take any arguments.
pub open spec fn token_filter_of_kind(kind: Seq<char>, args: Json) -> Result<
    TokenFilterView,
    LinderaErrorKind,
> {
    if kind == JAPANESE_BASE_FORM_TOKEN_FILTER_NAME@ {
        match JapaneseBaseFormTokenFilterConfig::of_json(args) {
            Some(config) => Ok(TokenFilterView::JapaneseBaseForm(config.kind)),
            None => Err(LinderaErrorKind::Deserialize),
        }
    } else if kind == JAPANESE_COMPOUND_WORD_TOKEN_FILTER_NAME@ {
        match JapaneseCompoundWordTokenFilterConfig::of_json(args) {
            Some(config) => Ok(TokenFilterView::JapaneseCompoundWord(config)),
            None => Err(LinderaErrorKind::Deserialize),
        }
    } else if kind == JAPANESE_KATAKANA_STEM_TOKEN_FILTER_NAME@ {
        match JapaneseKatakanaStemTokenFilterConfig::of_json(args) {
            Some(config) => Ok(TokenFilterView::JapaneseKatakanaStem(config.min)),
            None => Err(LinderaErrorKind::Deserialize),
        }
    } else if kind == JAPANESE_KEEP_TAGS_TOKEN_FILTER_NAME@ {
        match JapaneseKeepTagsTokenFilterConfig::of_json(args) {
            Some(config) => Ok(TokenFilterView::JapaneseKeepTags(config)),
            None => Err(LinderaErrorKind::Deserialize),
        }
    } else if kind == JAPANESE_NUMBER_TOKEN_FILTER_NAME@ {
        match JapaneseNumberTokenFilterConfig::of_json(args) {
            Some(config) => Ok(TokenFilterView::JapaneseNumber(config.kind)),
            None => Err(LinderaErrorKind::Deserialize),
        }
    } else if kind == JAPANESE_READING_FORM_TOKEN_FILTER_NAME@ {
        match JapaneseReadingFormTokenFilterConfig::of_json(args) {
            Some(config) => Ok(TokenFilterView::JapaneseReadingForm(config.kind)),
            None => Err(LinderaErrorKind::Deserialize),
        }
    } else if kind == JAPANESE_STOP_TAGS_TOKEN_FILTER_NAME@ {
        match JapaneseStopTagsTokenFilterConfig::of_json(args) {
            Some(config) => Ok(TokenFilterView::JapaneseStopTags(config)),
            None => Err(LinderaErrorKind::Deserialize),
        }
    } else if kind == KEEP_WORDS_TOKEN_FILTER_NAME@ {
        match KeepWordsTokenFilterConfig::of_json(args) {
            Some(config) => Ok(TokenFilterView::KeepWords(config)),
            None => Err(LinderaErrorKind::Deserialize),
        }
    } else if kind == KOREAN_KEEP_TAGS_TOKEN_FILTER_NAME@ {
        match KoreanKeepTagsTokenFilterConfig::of_json(args) {
            Some(config) => Ok(TokenFilterView::KoreanKeepTags(config)),
            None => Err(LinderaErrorKind::Deserialize),
        }
    } else if kind == KOREAN_READING_FORM_TOKEN_FILTER_NAME@ {
        Ok(TokenFilterView::KoreanReadingForm)
    } else if kind == KOREAN_STOP_TAGS_TOKEN_FILTER_NAME@ {
        match KoreanStopTagsTokenFilterConfig::of_json(args) {
            Some(config) => Ok(TokenFilterView::KoreanStopTags(config)),
            None => Err(LinderaErrorKind::Deserialize),
        }
    } else if kind == LENGTH_TOKEN_FILTER_NAME@ {
        match LengthTokenFilterConfig::of_json(args) {
            Some(config) => Ok(TokenFilterView::Length(config)),
            None => Err(LinderaErrorKind::Deserialize),
        }
    } else if kind == LOWERCASE_TOKEN_FILTER_NAME@ {
        Ok(TokenFilterView::Lowercase)
    } else if kind == STOP_WORDS_TOKEN_FILTER_NAME@ {
        match StopWordsTokenFilterConfig::of_json(args) {
            Some(config) => Ok(TokenFilterView::StopWords(config)),
            None => Err(LinderaErrorKind::Deserialize),
        }
    } else if kind == UPPERCASE_TOKEN_FILTER_NAME@ {
        Ok(TokenFilterView::Uppercase)
    } else {
        Err(LinderaErrorKind::Deserialize)
    }
}

/// Whether `kind` names a kind of token filter that the library holds.
pub open spec fn is_token_filter_kind(kind: Seq<char>) -> bool {
    ||| kind == JAPANESE_BASE_FORM_TOKEN_FILTER_NAME@
    ||| kind == JAPANESE_COMPOUND_WORD_TOKEN_FILTER_NAME@
    ||| kind == JAPANESE_KATAKANA_STEM_TOKEN_FILTER_NAME@
    ||| kind == JAPANESE_KEEP_TAGS_TOKEN_FILTER_NAME@
    ||| kind == JAPANESE_NUMBER_TOKEN_FILTER_NAME@
    ||| kind == JAPANESE_READING_FORM_TOKEN_FILTER_NAME@
    ||| kind == JAPANESE_STOP_TAGS_TOKEN_FILTER_NAME@
    ||| kind == KEEP_WORDS_TOKEN_FILTER_NAME@
    ||| kind == KOREAN_KEEP_TAGS_TOKEN_FILTER_NAME@
    ||| kind == KOREAN_READING_FORM_TOKEN_FILTER_NAME@
    ||| kind == KOREAN_STOP_TAGS_TOKEN_FILTER_NAME@
    ||| kind == LENGTH_TOKEN_FILTER_NAME@
    ||| kind == LOWERCASE_TOKEN_FILTER_NAME@
    ||| kind == STOP_WORDS_TOKEN_FILTER_NAME@
    ||| kind == UPPERCASE_TOKEN_FILTER_NAME@
}

/// The detail of the error for a name that is no kind of token filter.
pub open spec fn unknown_token_filter(kind: Seq<char>) -> Seq<char> {
    "unknown token filter "@ + kind + "."@
}

/// Whether a filter that goes by the name `name` reads the features of the
/// tokens, so that segmentation has to supply them.
pub open spec fn reads_details(name: Seq<char>) -> bool {
    ||| name == JAPANESE_BASE_FORM_TOKEN_FILTER_NAME@
    ||| name == JAPANESE_COMPOUND_WORD_TOKEN_FILTER_NAME@
    ||| name == JAPANESE_KEEP_TAGS_TOKEN_FILTER_NAME@
    ||| name == JAPANESE_NUMBER_TOKEN_FILTER_NAME@
    ||| name == JAPANESE_READING_FORM_TOKEN_FILTER_NAME@
    ||| name == JAPANESE_STOP_TAGS_TOKEN_FILTER_NAME@
    ||| name == KOREAN_KEEP_TAGS_TOKEN_FILTER_NAME@
    ||| name == KOREAN_READING_FORM_TOKEN_FILTER_NAME@
    ||| name == KOREAN_STOP_TAGS_TOKEN_FILTER_NAME@
}

/// Whether a filter that goes by the name `name` reads the features of the
/// tokens.
pub fn name_reads_details(name: &str) -> (reads: bool)
    ensures
        reads == reads_details(name@),
{
    name.eq(JAPANESE_BASE_FORM_TOKEN_FILTER_NAME) || name.eq(
        JAPANESE_COMPOUND_WORD_TOKEN_FILTER_NAME,
    ) || name.eq(JAPANESE_KEEP_TAGS_TOKEN_FILTER_NAME) || name.eq(JAPANESE_NUMBER_TOKEN_FILTER_NAME) || name.eq(
        JAPANESE_READING_FORM_TOKEN_FILTER_NAME,
    ) || name.eq(JAPANESE_STOP_TAGS_TOKEN_FILTER_NAME) || name.eq(
        KOREAN_KEEP_TAGS_TOKEN_FILTER_NAME,
    ) || name.eq(KOREAN_READING_FORM_TOKEN_FILTER_NAME) || name.eq(
        KOREAN_STOP_TAGS_TOKEN_FILTER_NAME,
    )
}

impl TokenFilter {
    /// The filter that a configuration asks for by the name `kind` and
    /// the arguments `args`.
    pub fn from_kind(kind: &str, args: &Json) -> (filter: LinderaResult<Self>)
        ensures
            match token_filter_of_kind(kind@, *args) {
                Ok(view) => filter matches Ok(f) && f@ == view,
                Err(error_kind) => filter matches Err(err) && err.kind == error_kind,
            },
            !is_token_filter_kind(kind@) ==> (filter matches Err(err) && err.detail@
                == unknown_token_filter(kind@)),
    {
        if kind.eq(JAPANESE_BASE_FORM_TOKEN_FILTER_NAME) {
            match JapaneseBaseFormTokenFilter::from_value(args) {
                Ok(filter) => Ok(TokenFilter::JapaneseBaseForm(filter)),
                Err(err) => Err(err),
            }
        } else if kind.eq(JAPANESE_COMPOUND_WORD_TOKEN_FILTER_NAME) {
            match JapaneseCompoundWordTokenFilter::from_value(args) {
                Ok(filter) => Ok(TokenFilter::JapaneseCompoundWord(filter)),
                Err(err) => Err(err),
            }
        } else if kind.eq(JAPANESE_KATAKANA_STEM_TOKEN_FILTER_NAME) {
            match JapaneseKatakanaStemTokenFilter::from_value(args) {
                Ok(filter) => Ok(TokenFilter::JapaneseKatakanaStem(filter)),
                Err(err) => Err(err),
            }
        } else if kind.eq(JAPANESE_KEEP_TAGS_TOKEN_FILTER_NAME) {
            match JapaneseKeepTagsTokenFilter::from_value(args) {
                Ok(filter) => Ok(TokenFilter::JapaneseKeepTags(filter)),
                Err(err) => Err(err),
            }
        } else if kind.eq(JAPANESE_NUMBER_TOKEN_FILTER_NAME) {
            match JapaneseNumberTokenFilter::from_value(args) {
                Ok(filter) => Ok(TokenFilter::JapaneseNumber(filter)),
                Err(err) => Err(err),
            }
        } else if kind.eq(JAPANESE_READING_FORM_TOKEN_FILTER_NAME) {
            match JapaneseReadingFormTokenFilter::from_value(args) {
                Ok(filter) => Ok(TokenFilter::JapaneseReadingForm(filter)),
                Err(err) => Err(err),
            }
        } else if kind.eq(JAPANESE_STOP_TAGS_TOKEN_FILTER_NAME) {
            match JapaneseStopTagsTokenFilter::from_value(args) {
                Ok(filter) => Ok(TokenFilter::JapaneseStopTags(filter)),
                Err(err) => Err(err),
            }
        } else if kind.eq(KEEP_WORDS_TOKEN_FILTER_NAME) {
            match KeepWordsTokenFilter::from_value(args) {
                Ok(filter) => Ok(TokenFilter::KeepWords(filter)),
                Err(err) => Err(err),
            }
        } else if kind.eq(KOREAN_KEEP_TAGS_TOKEN_FILTER_NAME) {
            match KoreanKeepTagsTokenFilter::from_value(args) {
                Ok(filter) => Ok(TokenFilter::KoreanKeepTags(filter)),
                Err(err) => Err(err),
            }
        } else if kind.eq(KOREAN_READING_FORM_TOKEN_FILTER_NAME) {
            Ok(TokenFilter::KoreanReadingForm(KoreanReadingFormTokenFilter::new()))
        } else if kind.eq(KOREAN_STOP_TAGS_TOKEN_FILTER_NAME) {
            match KoreanStopTagsTokenFilter::from_value(args) {
                Ok(filter) => Ok(TokenFilter::KoreanStopTags(filter)),
                Err(err) => Err(err),
            }
        } else if kind.eq(LENGTH_TOKEN_FILTER_NAME) {
            match LengthTokenFilter::from_value(args) {
                Ok(filter) => Ok(TokenFilter::Length(filter)),
                Err(err) => Err(err),
            }
        } else if kind.eq(LOWERCASE_TOKEN_FILTER_NAME) {
            Ok(TokenFilter::Lowercase(LowercaseTokenFilter::new()))
        } else if kind.eq(STOP_WORDS_TOKEN_FILTER_NAME) {
            match StopWordsTokenFilter::from_value(args) {
                Ok(filter) => Ok(TokenFilter::StopWords(filter)),
                Err(err) => Err(err),
            }
        } else if kind.eq(UPPERCASE_TOKEN_FILTER_NAME) {
            Ok(TokenFilter::Uppercase(UppercaseTokenFilter::new()))
        } else {
            let mut detail = String::from_str("unknown token filter ");
            detail.append(kind);
            detail.append(".");
            Err(LinderaErrorKind::Deserialize.with_detail(detail))
        }
    }

    /// The name by which a configuration asks for this filter.
    pub fn name(&self) -> (name: &'static str)
        ensures
            name@ == self@.name(),
    {
        match self {
            TokenFilter::JapaneseBaseForm(filter) => filter.name(),
            TokenFilter::JapaneseCompoundWord(filter) => filter.name(),
            TokenFilter::JapaneseKatakanaStem(filter) => filter.name(),
            TokenFilter::JapaneseKeepTags(filter) => filter.name(),
            TokenFilter::JapaneseNumber(filter) => filter.name(),
            TokenFilter::JapaneseReadingForm(filter) => filter.name(),
            TokenFilter::JapaneseStopTags(filter) => filter.name(),
            TokenFilter::KeepWords(filter) => filter.name(),
            TokenFilter::KoreanKeepTags(filter) => filter.name(),
            TokenFilter::KoreanReadingForm(filter) => filter.name(),
            TokenFilter::KoreanStopTags(filter) => filter.name(),
            TokenFilter::Length(filter) => filter.name(),
            TokenFilter::Lowercase(filter) => filter.name(),
            TokenFilter::StopWords(filter) => filter.name(),
            TokenFilter::Uppercase(filter) => filter.name(),
        }
    }

    /// Applies the filter to `tokens`.
    pub fn apply(&self, tokens: &mut Vec<Token>) -> (done: LinderaResult<()>)
        ensures
            done is Ok,
            token_views(final(tokens)@) == self@.filtered(token_views(old(tokens)@)),
    {
        match self {
            TokenFilter::JapaneseBaseForm(filter) => filter.apply(tokens),
            TokenFilter::JapaneseCompoundWord(filter) => filter.apply(tokens),
            TokenFilter::JapaneseKatakanaStem(filter) => filter.apply(tokens),
            TokenFilter::JapaneseKeepTags(filter) => filter.apply(tokens),
            TokenFilter::JapaneseNumber(filter) => filter.apply(tokens),
            TokenFilter::JapaneseReadingForm(filter) => filter.apply(tokens),
            TokenFilter::JapaneseStopTags(filter) => filter.apply(tokens),
            TokenFilter::KeepWords(filter) => filter.apply(tokens),
            TokenFilter::KoreanKeepTags(filter) => filter.apply(tokens),
            TokenFilter::KoreanReadingForm(filter) => filter.apply(tokens),
            TokenFilter::KoreanStopTags(filter) => filter.apply(tokens),
            TokenFilter::Length(filter) => filter.apply(tokens),
            TokenFilter::Lowercase(filter) => filter.apply(tokens),
            TokenFilter::StopWords(filter) => filter.apply(tokens),
            TokenFilter::Uppercase(filter) => filter.apply(tokens),
        }
    }
}

} // verus!
