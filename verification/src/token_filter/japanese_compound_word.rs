//! The token filter that joins neighbouring tokens of given part-of-speech
//! tags into compound words.

use vstd::prelude::*;
use vstd::string::StringExecFns;

use crate::dictionary::{kind_of_name, DictionaryKind};
use crate::error::{LinderaErrorKind, LinderaResult};
use crate::json::{json_document, Json};
use crate::text::chars_of;
use crate::token::{string_views, token_views, Token, TokenView};
use crate::token_filter::{
    clone_strings, distinct, distinct_strings, has_pos_tag, pad_tags, padded_tags,
    token_has_pos_tag,
};

verus! {

pub const JAPANESE_COMPOUND_WORD_TOKEN_FILTER_NAME: &'static str = "japanese_compound_word";

/// The part of speech that a compound word is given where the
/// configuration names none.
pub const COMPOUND_WORD_TAG: &'static str = "複合語";

/// The fields of `tag`, which commas part.
pub open spec fn fields_of(tag: Seq<char>) -> Seq<Seq<char>>
    decreases tag.len(),
{
    if tag.len() == 0 {
        seq![Seq::empty()]
    } else {
        let front = fields_of(tag.drop_last());
        if tag.last() == ',' {
            front.push(Seq::empty())
        } else {
            front.update(front.len() - 1, front.last().push(tag.last()))
        }
    }
}

/// The number of features that a dictionary of the kind `kind` gives a
/// token: nine for IPADIC and seventeen for UniDic. For the other kinds
/// the four fields of a part-of-speech tag are counted.
pub open spec fn feature_count(kind: DictionaryKind) -> nat {
    match kind {
        DictionaryKind::IPADIC => 9,
        DictionaryKind::UniDic => 17,
        _ => 4,
    }
}

/// The features of a compound word: as many as the dictionary gives a
/// token, the fields of `new_tag` first, or `COMPOUND_WORD_TAG` where there
/// is no `new_tag`, and an asterisk in every other place.
pub open spec fn compound_details(kind: DictionaryKind, new_tag: Option<Seq<char>>) -> Seq<
    Seq<char>,
> {
    let fields = match new_tag {
        Some(tag) => fields_of(tag),
        None => seq![COMPOUND_WORD_TAG@],
    };
    Seq::new(
        feature_count(kind),
        |i: int|
            if i < fields.len() {
                fields[i]
            } else {
                seq!['*']
            },
    )
}

/// What a configuration holds, as mathematical values.
pub struct JapaneseCompoundWordView {
    pub kind: DictionaryKind,
    pub tags: Seq<Seq<char>>,
    pub new_tag: Option<Seq<char>>,
}

/// The compound of `first`, a token or a compound so far, and `next`, the
/// token behind it: the two texts in a row, from the start of the one to
/// the end of the other, with the features of a compound word.
pub open spec fn joined_token(
    config: JapaneseCompoundWordView,
    first: TokenView,
    next: TokenView,
) -> TokenView {
    TokenView {
        text: first.text + next.text,
        details: Some(compound_details(config.kind, config.new_tag)),
        byte_start: first.byte_start,
        byte_end: next.byte_end,
    }
}

/// How far the joining has come: the tokens that are settled, and the
/// token or compound that the next token may still join.
pub struct Joining {
    pub settled: Seq<TokenView>,
    pub open: Option<TokenView>,
}

/// The tokens of `joining`, the open one settled too.
pub open spec fn closed(joining: Joining) -> Seq<TokenView> {
    match joining.open {
        Some(token) => joining.settled.push(token),
        None => joining.settled,
    }
}

/// The joining after the token `token`: a token of one of the configured
/// tags joins the open one, or opens; every other token settles the open
/// one and itself.
pub open spec fn joining_step(
    config: JapaneseCompoundWordView,
    joining: Joining,
    token: TokenView,
) -> Joining {
    if has_pos_tag(token, config.tags) {
        Joining {
            settled: joining.settled,
            open: Some(
                match joining.open {
                    Some(first) => joined_token(config, first, token),
                    None => token,
                },
            ),
        }
    } else {
        Joining { settled: closed(joining).push(token), open: None }
    }
}

/// The joining after the tokens `tokens`.
pub open spec fn joining_of(config: JapaneseCompoundWordView, tokens: Seq<TokenView>) -> Joining
    decreases tokens.len(),
{
    if tokens.len() == 0 {
        Joining { settled: Seq::empty(), open: None }
    } else {
        joining_step(config, joining_of(config, tokens.drop_last()), tokens.last())
    }
}

/// The tokens `tokens` with every run of neighbours of the configured tags
/// joined into one compound word. A token of such a tag that stands alone
/// stays as it is.
pub open spec fn compounded(config: JapaneseCompoundWordView, tokens: Seq<TokenView>) -> Seq<
    TokenView,
> {
    closed(joining_of(config, tokens))
}

/// The fields of `tag`, which commas part.
pub fn split_fields(tag: &str) -> (fields: Vec<String>)
    ensures
        string_views(fields@) == fields_of(tag@),
{
    let chars = chars_of(tag);
    let mut fields: Vec<String> = Vec::new();
    let mut field = String::new();
    let mut i: usize = 0;
    proof {
        assert(chars@.take(0) =~= Seq::<char>::empty());
        assert(string_views(fields@).push(field@) =~= seq![Seq::<char>::empty()]);
    }
    while i < chars.len()
        invariant
            i <= chars@.len(),
            string_views(fields@).push(field@) == fields_of(chars@.take(i as int)),
        decreases chars@.len() - i,
    {
        let ghost before = string_views(fields@);
        let ghost current = field@;
        let c = chars[i];
        proof {
            assert(chars@.take(i + 1).drop_last() =~= chars@.take(i as int));
            assert(chars@.take(i + 1).last() == c);
        }
        if c == ',' {
            fields.push(field);
            field = String::new();
            proof {
                assert(string_views(fields@) =~= before.push(current));
            }
        } else {
            field.push(c);
            proof {
                let front = before.push(current);
                assert(before.push(field@) =~= front.update(
                    front.len() - 1,
                    front.last().push(c),
                ));
            }
        }
        i = i + 1;
    }
    let ghost before = string_views(fields@);
    proof {
        assert(chars@.take(i as int) =~= chars@);
    }
    fields.push(field);
    proof {
        assert(string_views(fields@) =~= before.push(field@));
    }
    fields
}

/// The tags whose tokens are joined and the part of speech that the
/// compound words are given.
#[derive(Debug, PartialEq, Eq)]
pub struct JapaneseCompoundWordTokenFilterConfig {
    pub kind: DictionaryKind,
    pub tags: Vec<String>,
    pub new_tag: Option<String>,
}

impl View for JapaneseCompoundWordTokenFilterConfig {
    type V = JapaneseCompoundWordView;

    open spec fn view(&self) -> JapaneseCompoundWordView {
        JapaneseCompoundWordView {
            kind: self.kind,
            tags: string_views(self.tags@),
            new_tag: match self.new_tag {
                Some(tag) => Some(tag@),
                None => None,
            },
        }
    }
}

impl Clone for JapaneseCompoundWordTokenFilterConfig {
    fn clone(&self) -> (copy: Self)
        ensures
            copy@ == self@,
    {
        Self {
            kind: self.kind,
            tags: clone_strings(&self.tags),
            new_tag: match &self.new_tag {
                Some(tag) => Some(tag.clone()),
                None => None,
            },
        }
    }
}

/// The tag that the member `new_tag` of `value` gives: none where the
/// member is absent or null, its scalars where it is a string. Any other
/// member gives no tag at all, which is the outer `None`.
pub open spec fn new_tag_member(value: Json) -> Option<Option<Seq<char>>> {
    match value.member("new_tag"@) {
        None => Some(None),
        Some(Json::Null) => Some(None),
        Some(Json::Text(tag)) => Some(Some(tag@)),
        Some(_) => None,
    }
}

impl JapaneseCompoundWordTokenFilterConfig {
    /// The configuration for a dictionary of the kind `kind`, with the
    /// tags of `tags`, each as a tag of four fields and once, and the part
    /// of speech `new_tag` for the compound words.
    pub fn new(kind: DictionaryKind, tags: Vec<String>, new_tag: Option<String>) -> (config: Self)
        ensures
            config@ == (JapaneseCompoundWordView {
                kind,
                tags: distinct(padded_tags(string_views(tags@))),
                new_tag: match new_tag {
                    Some(tag) => Some(tag@),
                    None => None,
                },
            }),
    {
        Self { kind, tags: distinct_strings(pad_tags(tags)), new_tag }
    }

    /// The configuration that the JSON value `value` describes: an object
    /// whose member `kind` is the identifier of a kind of dictionary,
    /// whose member `tags` is an array of strings, each a tag of one to
    /// four fields, and whose member `new_tag`, where it has one and it is
    /// not null, is a string. Other members are not looked at.
    pub open spec fn of_json(value: Json) -> Option<JapaneseCompoundWordView> {
        match (value.text_member("kind"@), value.texts_member("tags"@), new_tag_member(value)) {
            (Some(name), Some(tags), Some(new_tag)) => match kind_of_name(name) {
                Some(kind) => Some(
                    JapaneseCompoundWordView { kind, tags: distinct(padded_tags(tags)), new_tag },
                ),
                None => None,
            },
            _ => None,
        }
    }

    /// The configuration that the JSON document in `data` describes.
    pub open spec fn of_document(data: Seq<u8>) -> Option<JapaneseCompoundWordView> {
        match json_document(data) {
            Some(value) => Self::of_json(value),
            None => None,
        }
    }

    /// Reads the configuration from a JSON value. A value that describes
    /// none is an error of the kind `Deserialize`.
    pub fn from_value(value: &Json) -> (config: LinderaResult<Self>)
        ensures
            match Self::of_json(*value) {
                Some(view) => config matches Ok(c) && c@ == view,
                None => config matches Err(err) && err.kind == LinderaErrorKind::Deserialize,
            },
    {
        let kind = match value.get_str("kind") {
            Some(name) => DictionaryKind::from_name(name),
            None => None,
        };
        let tags = value.get_strings("tags");
        let new_tag: Option<Option<String>> = match value.get("new_tag") {
            None => Some(None),
            Some(Json::Null) => Some(None),
            Some(Json::Text(tag)) => Some(Some(String::from_str(tag.as_str()))),
            Some(_) => None,
        };
        match (kind, tags, new_tag) {
            (Some(kind), Some(tags), Some(new_tag)) => Ok(Self::new(kind, tags, new_tag)),
            _ => Err(
                LinderaErrorKind::Deserialize.with_detail(
                    String::from_str(
                        "a compound word filter takes `kind`, `tags` and, if any, `new_tag`",
                    ),
                ),
            ),
        }
    }

    /// Reads the configuration from a JSON document. Bytes that hold no
    /// document, or one that describes no configuration, are an error of
    /// the kind `Deserialize`.
    pub fn from_slice(data: &[u8]) -> (config: LinderaResult<Self>)
        ensures
            match Self::of_document(data@) {
                Some(view) => config matches Ok(c) && c@ == view,
                None => config matches Err(err) && err.kind == LinderaErrorKind::Deserialize,
            },
    {
        match Json::parse(data) {
            Ok(value) => Self::from_value(&value),
            Err(err) => Err(err),
        }
    }
}

/// Joins neighbouring tokens of the configured part-of-speech tags into
/// compound words.
#[derive(Debug)]
pub struct JapaneseCompoundWordTokenFilter {
    config: JapaneseCompoundWordTokenFilterConfig,
}

impl View for JapaneseCompoundWordTokenFilter {
    type V = JapaneseCompoundWordView;

    /// The configuration of the filter.
    closed spec fn view(&self) -> JapaneseCompoundWordView {
        self.config@
    }
}

impl Clone for JapaneseCompoundWordTokenFilter {
    fn clone(&self) -> (copy: Self)
        ensures
            copy@ == self@,
    {
        Self { config: self.config.clone() }
    }
}

impl JapaneseCompoundWordTokenFilter {
    pub fn new(config: JapaneseCompoundWordTokenFilterConfig) -> (filter: Self)
        ensures
            filter@ == config@,
    {
        Self { config }
    }

    /// Reads the filter's configuration from a JSON value. A value that
    /// describes none is an error of the kind `Deserialize`.
    pub fn from_value(value: &Json) -> (filter: LinderaResult<Self>)
        ensures
            match JapaneseCompoundWordTokenFilterConfig::of_json(*value) {
                Some(view) => filter matches Ok(f) && f@ == view,
                None => filter matches Err(err) && err.kind == LinderaErrorKind::Deserialize,
            },
    {
        match JapaneseCompoundWordTokenFilterConfig::from_value(value) {
            Ok(config) => Ok(Self::new(config)),
            Err(err) => Err(err),
        }
    }

    /// Reads the filter's configuration from a JSON document. Bytes that
    /// hold no document, or one that describes no configuration, are an
    /// error of the kind `Deserialize`.
    pub fn from_slice(data: &[u8]) -> (filter: LinderaResult<Self>)
        ensures
            match JapaneseCompoundWordTokenFilterConfig::of_document(data@) {
                Some(view) => filter matches Ok(f) && f@ == view,
                None => filter matches Err(err) && err.kind == LinderaErrorKind::Deserialize,
            },
    {
        match JapaneseCompoundWordTokenFilterConfig::from_slice(data) {
            Ok(config) => Ok(Self::new(config)),
            Err(err) => Err(err),
        }
    }

    /// The tokens `tokens` as the filter leaves them.
    pub open spec fn filtered(self, tokens: Seq<TokenView>) -> Seq<TokenView> {
        compounded(self@, tokens)
    }

    /// The name by which a configuration asks for this filter.
    pub fn name(&self) -> (name: &'static str)
        ensures
            name@ == JAPANESE_COMPOUND_WORD_TOKEN_FILTER_NAME@,
    {
        JAPANESE_COMPOUND_WORD_TOKEN_FILTER_NAME
    }

    /// The features that the filter gives a compound word.
    fn details(&self) -> (details: Vec<String>)
        ensures
            string_views(details@) == compound_details(self@.kind, self@.new_tag),
    {
        let count: usize = match self.config.kind {
            DictionaryKind::IPADIC => 9,
            DictionaryKind::UniDic => 17,
            _ => 4,
        };
        let fields = match &self.config.new_tag {
            Some(tag) => split_fields(tag.as_str()),
            None => {
                let mut fields: Vec<String> = Vec::new();
                fields.push(String::from_str(COMPOUND_WORD_TAG));
                proof {
                    assert(string_views(fields@) =~= seq![COMPOUND_WORD_TAG@]);
                }
                fields
            },
        };
        let mut details: Vec<String> = Vec::new();
        let mut i: usize = 0;
        while i < count
            invariant
                i <= count,
                details@.len() == i,
                forall|j: int|
                    0 <= j < i ==> (#[trigger] details@[j])@ == if j < fields@.len() {
                        fields@[j]@
                    } else {
                        seq!['*']
                    },
            decreases count - i,
        {
            if i < fields.len() {
                details.push(fields[i].clone());
            } else {
                proof {
                    reveal_strlit("*");
                    assert("*"@ =~= seq!['*']);
                }
                details.push(String::from_str("*"));
            }
            i = i + 1;
        }
        proof {
            assert(string_views(details@) =~= compound_details(self@.kind, self@.new_tag));
        }
        details
    }

    /// Joins every run of neighbouring tokens whose part-of-speech tag is
    /// one of the configured tags into one token: its text is the texts of
    /// the run in a row, it starts where the first starts and ends where
    /// the last ends, and it has the features of a compound word. Every
    /// other token stays as it is, in its place, and so does a token of
    /// such a tag without such a neighbour.
    pub fn apply(&self, tokens: &mut Vec<Token>) -> (done: LinderaResult<()>)
        ensures
            done is Ok,
            token_views(final(tokens)@) == self.filtered(token_views(old(tokens)@)),
    {
        let details = self.details();
        let ghost config = self@;
        let ghost before = tokens@;
        let mut all: Vec<Token> = Vec::new();
        std::mem::swap(tokens, &mut all);
        let mut pending: Option<Token> = None;
        let mut i: usize = 0;
        assert(before.len() == all.len());
        proof {
            assert(token_views(before.take(0)) =~= Seq::empty());
            assert(token_views(tokens@) =~= Seq::empty());
        }
        for token in it: all
            invariant
                i == it.index(),
                it.seq() == before,
                before.len() <= usize::MAX,
                config == self@,
                self.config@ == config,
                string_views(details@) == compound_details(config.kind, config.new_tag),
                joining_of(config, token_views(before.take(i as int))) == (Joining {
                    settled: token_views(tokens@),
                    open: match pending {
                        Some(open) => Some(open@),
                        None => None,
                    },
                }),
        {
            let ghost settled = token_views(tokens@);
            proof {
                let next = token_views(before.take(i + 1));
                assert(next.drop_last() =~= token_views(before.take(i as int)));
                assert(next.last() == token@);
            }
            if token_has_pos_tag(&token, &self.config.tags) {
                pending = match pending {
                    Some(first) => {
                        let Token { text, details: _, byte_start, byte_end: _ } = first;
                        let mut text = text;
                        text.append(token.text.as_str());
                        Some(
                            Token {
                                text,
                                details: Some(clone_strings(&details)),
                                byte_start,
                                byte_end: token.byte_end,
                            },
                        )
                    },
                    None => Some(token),
                };
            } else {
                match pending {
                    Some(first) => {
                        let ghost first_view = first@;
                        tokens.push(first);
                        proof {
                            assert(token_views(tokens@) =~= settled.push(first_view));
                        }
                    },
                    None => {},
                }
                let ghost closed_views = token_views(tokens@);
                let ghost token_view = token@;
                tokens.push(token);
                proof {
                    assert(token_views(tokens@) =~= closed_views.push(token_view));
                }
                pending = None;
            }
            i = i + 1;
        }
        proof {
            assert(before.take(i as int) =~= before);
        }
        let ghost settled = token_views(tokens@);
        match pending {
            Some(last) => {
                let ghost last_view = last@;
                tokens.push(last);
                proof {
                    assert(token_views(tokens@) =~= settled.push(last_view));
                }
            },
            None => {},
        }
        Ok(())
    }
}

} // verus!
