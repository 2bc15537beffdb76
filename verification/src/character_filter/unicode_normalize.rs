//! The character filter that brings a text into a Unicode normalization
//! form, grapheme cluster by grapheme cluster.

use vstd::prelude::*;
use vstd::string::StringExecFns;

use crate::character_filter::replacement::{
    check_replacements_fit, map_of_replacements, offsets_of_replacements, replacements_fit,
    Replacement,
};
use crate::character_filter::{is_gentle, is_offset_map, OffsetMap};
use crate::error::{LinderaErrorKind, LinderaResult};
use crate::json::{json_document, Json};
use crate::text::{byte_len, lemma_byte_len_add};
use crate::token::string_views;

verus! {

pub const UNICODE_NORMALIZE_CHARACTER_FILTER_NAME: &'static str = "unicode_normalize";

/// A Unicode normalization form.
#[derive(Debug, Clone, Copy, PartialEq, Eq, Structural)]
pub enum UnicodeNormalizeKind {
    /// Canonical decomposition followed by canonical composition.
    NFC,
    /// Canonical decomposition.
    NFD,
    /// Compatibility decomposition followed by canonical composition.
    NFKC,
    /// Compatibility decomposition.
    NFKD,
}

/// The extended grapheme clusters of `text`, in their order, as the
/// `unicode-segmentation` crate finds them.
pub uninterp spec fn grapheme_clusters(text: Seq<char>) -> Seq<Seq<char>>;

/// `text` in normalization form C, as the `unicode-normalization` crate
/// gives it.
pub uninterp spec fn nfc(text: Seq<char>) -> Seq<char>;

/// `text` in normalization form D, as the `unicode-normalization` crate
/// gives it.
pub uninterp spec fn nfd(text: Seq<char>) -> Seq<char>;

/// `text` in normalization form KC, as the `unicode-normalization` crate
/// gives it.
pub uninterp spec fn nfkc(text: Seq<char>) -> Seq<char>;

/// `text` in normalization form KD, as the `unicode-normalization` crate
/// gives it.
pub uninterp spec fn nfkd(text: Seq<char>) -> Seq<char>;

/// The texts `pieces` in a row.
pub open spec fn joined(pieces: Seq<Seq<char>>) -> Seq<char>
    decreases pieces.len(),
{
    if pieces.len() == 0 {
        Seq::empty()
    } else {
        joined(pieces.drop_last()) + pieces.last()
    }
}

/// `UnicodeSegmentation::graphemes`, for extended clusters: the grapheme
/// clusters of `text`. Trusted: they are the clusters that
/// `grapheme_clusters` names.
#[verifier::external_body]
fn graphemes_of(text: &str) -> (pieces: Vec<String>)
    ensures
        string_views(pieces@) == grapheme_clusters(text@),
{
    unicode_segmentation::UnicodeSegmentation::graphemes(text, true).map(String::from).collect()
}

/// `UnicodeNormalization::nfc`: `text` in normalization form C. Trusted:
/// the result is the text that `nfc` names.
#[verifier::external_body]
fn nfc_of(text: &str) -> (normal: String)
    ensures
        normal@ == nfc(text@),
{
    unicode_normalization::UnicodeNormalization::nfc(text).collect()
}

/// `UnicodeNormalization::nfd`: `text` in normalization form D. Trusted:
/// the result is the text that `nfd` names.
#[verifier::external_body]
fn nfd_of(text: &str) -> (normal: String)
    ensures
        normal@ == nfd(text@),
{
    unicode_normalization::UnicodeNormalization::nfd(text).collect()
}

/// `UnicodeNormalization::nfkc`: `text` in normalization form KC. Trusted:
/// the result is the text that `nfkc` names.
#[verifier::external_body]
fn nfkc_of(text: &str) -> (normal: String)
    ensures
        normal@ == nfkc(text@),
{
    unicode_normalization::UnicodeNormalization::nfkc(text).collect()
}

/// `UnicodeNormalization::nfkd`: `text` in normalization form KD. Trusted:
/// the result is the text that `nfkd` names.
#[verifier::external_body]
fn nfkd_of(text: &str) -> (normal: String)
    ensures
        normal@ == nfkd(text@),
{
    unicode_normalization::UnicodeNormalization::nfkd(text).collect()
}

/// The form that the identifier `name` stands for.
pub open spec fn form_of_name(name: Seq<char>) -> Option<UnicodeNormalizeKind> {
    if name == seq!['n', 'f', 'c'] {
        Some(UnicodeNormalizeKind::NFC)
    } else if name == seq!['n', 'f', 'd'] {
        Some(UnicodeNormalizeKind::NFD)
    } else if name == seq!['n', 'f', 'k', 'c'] {
        Some(UnicodeNormalizeKind::NFKC)
    } else if name == seq!['n', 'f', 'k', 'd'] {
        Some(UnicodeNormalizeKind::NFKD)
    } else {
        None
    }
}

/// `text` in the normalization form `kind`.
pub open spec fn normal_form(kind: UnicodeNormalizeKind, text: Seq<char>) -> Seq<char> {
    match kind {
        UnicodeNormalizeKind::NFC => nfc(text),
        UnicodeNormalizeKind::NFD => nfd(text),
        UnicodeNormalizeKind::NFKC => nfkc(text),
        UnicodeNormalizeKind::NFKD => nfkd(text),
    }
}

/// The texts `pieces`, each in the normalization form `kind`.
pub open spec fn normal_forms(kind: UnicodeNormalizeKind, pieces: Seq<Seq<char>>) -> Seq<
    Seq<char>,
> {
    Seq::new(pieces.len(), |i: int| normal_form(kind, pieces[i]))
}

/// The replacements of the first `k` of the texts `pieces`, which stand in
/// a row, each by the text of `forms` at its place.
pub open spec fn piece_replacements(pieces: Seq<Seq<char>>, forms: Seq<Seq<char>>, k: nat) -> Seq<
    Replacement,
>
    decreases k,
{
    if k == 0 {
        Seq::empty()
    } else {
        piece_replacements(pieces, forms, (k - 1) as nat).push(
            Replacement {
                start: byte_len(joined(pieces.take(k - 1))) as usize,
                end: byte_len(joined(pieces.take(k as int))) as usize,
                len: byte_len(forms[k - 1]) as usize,
            },
        )
    }
}

/// What comes of the texts `pieces`, which stand in a row, when each gives
/// way to the text of `forms` at its place: the new text and its offset
/// map. `None` where the text with its replacements does not fit the
/// address space.
pub open spec fn pieces_replaced(pieces: Seq<Seq<char>>, forms: Seq<Seq<char>>) -> Option<
    (Seq<char>, OffsetMap),
> {
    let replacements = piece_replacements(pieces, forms, pieces.len());
    if replacements_fit(replacements, byte_len(joined(pieces)) as int) {
        Some((joined(forms), map_of_replacements(replacements)))
    } else {
        None
    }
}

/// What a filter of the form `kind` makes of `text`: every grapheme
/// cluster gives way to its normalization form.
pub open spec fn normalized(kind: UnicodeNormalizeKind, text: Seq<char>) -> Option<
    (Seq<char>, OffsetMap),
> {
    let pieces = grapheme_clusters(text);
    pieces_replaced(pieces, normal_forms(kind, pieces))
}

/// Replaces each of the texts `pieces`, which stand in a row, by the text
/// of `forms` at its place, and returns the new text with its offset map,
/// in which every piece is a replacement.
///
/// A text that with its replacements does not fit the address space is
/// an error of the kind `Args`.
pub fn replace_pieces(pieces: &Vec<String>, forms: &Vec<String>) -> (replaced: LinderaResult<
    (String, Vec<usize>, Vec<i64>),
>)
    requires
        forms@.len() == pieces@.len(),
    ensures
        match pieces_replaced(string_views(pieces@), string_views(forms@)) {
            Some((new_text, map)) => replaced matches Ok(out) && out.0@ == new_text && (OffsetMap {
                offsets: out.1@,
                diffs: out.2@,
            }) == map,
            None => replaced matches Err(err) && err.kind == LinderaErrorKind::Args,
        },
        replaced matches Ok(out) ==> is_offset_map(out.1@, out.2@) && is_gentle(out.1@, out.2@),
{
    let ghost given = string_views(pieces@);
    let ghost taking = string_views(forms@);
    let mut new_text = String::new();
    let mut replacements: Vec<Replacement> = Vec::new();
    let mut byte_pos: usize = 0;
    let mut k: usize = 0;
    proof {
        assert(given.take(0) =~= Seq::empty());
        assert(taking.take(0) =~= Seq::empty());
        assert(byte_len(Seq::<char>::empty()) == 0) by {
            reveal_with_fuel(vstd::utf8::encode_utf8, 1);
        }
    }
    while k < pieces.len()
        invariant
            k <= pieces@.len(),
            forms@.len() == pieces@.len(),
            given == string_views(pieces@),
            taking == string_views(forms@),
            byte_pos == byte_len(joined(given.take(k as int))),
            new_text@ == joined(taking.take(k as int)),
            replacements@ == piece_replacements(given, taking, k as nat),
            forall|i: int|
                0 <= i < replacements@.len() ==> (#[trigger] replacements@[i]).start
                    <= replacements@[i].end <= byte_pos,
            forall|i: int, j: int|
                0 <= i < j < replacements@.len() ==> (#[trigger] replacements@[i]).end <= (
                #[trigger] replacements@[j]).start,
        decreases pieces@.len() - k,
    {
        let piece = pieces[k].as_str();
        let form = forms[k].as_str();
        proof {
            lemma_joined_take(given, k as int);
            lemma_joined_take(taking, k as int);
        }
        let piece_len = piece.as_bytes().len();
        let end = match byte_pos.checked_add(piece_len) {
            Some(end) => end,
            None => {
                proof {
                    lemma_pieces_too_long(given, taking, k + 1);
                }
                return Err(
                    LinderaErrorKind::Args.with_detail(
                        String::from_str("the text with its replacements is too long"),
                    ),
                );
            },
        };
        let replacement = Replacement { start: byte_pos, end, len: form.as_bytes().len() };
        new_text.append(form);
        replacements.push(replacement);
        byte_pos = end;
        k = k + 1;
    }
    proof {
        assert(given.take(k as int) =~= given);
        assert(taking.take(k as int) =~= taking);
    }
    if !check_replacements_fit(&replacements, byte_pos) {
        return Err(
            LinderaErrorKind::Args.with_detail(
                String::from_str("the text with its replacements is too long"),
            ),
        );
    }
    let (offsets, diffs) = offsets_of_replacements(&replacements, byte_pos);
    Ok((new_text, offsets, diffs))
}

/// Pieces whose first ones in a row do not fit `usize` do not fit the
/// address space.
proof fn lemma_pieces_too_long(pieces: Seq<Seq<char>>, forms: Seq<Seq<char>>, k: int)
    requires
        0 <= k <= pieces.len(),
        byte_len(joined(pieces.take(k))) > usize::MAX,
    ensures
        pieces_replaced(pieces, forms) is None,
{
    lemma_joined_take(pieces, k);
    crate::character_filter::replacement::lemma_total_len_at_least_zero(
        piece_replacements(pieces, forms, pieces.len()),
    );
}

/// The first pieces in a row take no more bytes than all of them.
proof fn lemma_joined_take(pieces: Seq<Seq<char>>, k: int)
    requires
        0 <= k <= pieces.len(),
    ensures
        byte_len(joined(pieces.take(k))) <= byte_len(joined(pieces)),
        k < pieces.len() ==> joined(pieces.take(k + 1)) == joined(pieces.take(k)) + pieces[k],
        k < pieces.len() ==> byte_len(joined(pieces.take(k + 1))) == byte_len(
            joined(pieces.take(k)),
        ) + byte_len(pieces[k]),
    decreases pieces.len() - k,
{
    if k < pieces.len() {
        lemma_joined_take(pieces, k + 1);
        assert(pieces.take(k + 1).drop_last() =~= pieces.take(k));
        lemma_byte_len_add(joined(pieces.take(k)), pieces[k]);
    } else {
        assert(pieces.take(k) =~= pieces);
    }
}

impl UnicodeNormalizeKind {
    /// The form that the identifier `name` stands for, if it stands for
    /// one.
    pub fn from_name(name: &str) -> (kind: Option<UnicodeNormalizeKind>)
        ensures
            kind == form_of_name(name@),
    {
        proof {
            reveal_strlit("nfc");
            reveal_strlit("nfd");
            reveal_strlit("nfkc");
            reveal_strlit("nfkd");
            assert("nfc"@ =~= seq!['n', 'f', 'c']);
            assert("nfd"@ =~= seq!['n', 'f', 'd']);
            assert("nfkc"@ =~= seq!['n', 'f', 'k', 'c']);
            assert("nfkd"@ =~= seq!['n', 'f', 'k', 'd']);
        }
        if name.eq("nfc") {
            Some(UnicodeNormalizeKind::NFC)
        } else if name.eq("nfd") {
            Some(UnicodeNormalizeKind::NFD)
        } else if name.eq("nfkc") {
            Some(UnicodeNormalizeKind::NFKC)
        } else if name.eq("nfkd") {
            Some(UnicodeNormalizeKind::NFKD)
        } else {
            None
        }
    }

    /// `text` in this normalization form.
    pub fn normalize(&self, text: &str) -> (normal: String)
        ensures
            normal@ == normal_form(*self, text@),
    {
        match self {
            UnicodeNormalizeKind::NFC => nfc_of(text),
            UnicodeNormalizeKind::NFD => nfd_of(text),
            UnicodeNormalizeKind::NFKC => nfkc_of(text),
            UnicodeNormalizeKind::NFKD => nfkd_of(text),
        }
    }
}

/// The normalization form to bring a text into.
#[derive(Clone, Copy, Debug, PartialEq, Eq, Structural)]
pub struct UnicodeNormalizeCharacterFilterConfig {
    pub kind: UnicodeNormalizeKind,
}

impl UnicodeNormalizeCharacterFilterConfig {
    pub fn new(kind: UnicodeNormalizeKind) -> (config: Self)
        ensures
            config.kind == kind,
    {
        Self { kind }
    }

    /// The configuration that the JSON value `value` describes: an object
    /// whose member `kind` is the identifier of a normalization form.
    /// Other members are not looked at.
    pub open spec fn of_json(value: Json) -> Option<Self> {
        match value.text_member("kind"@) {
            Some(name) => match form_of_name(name) {
                Some(kind) => Some(UnicodeNormalizeCharacterFilterConfig { kind }),
                None => None,
            },
            None => None,
        }
    }

    /// The configuration that the JSON document in `data` describes.
    pub open spec fn of_document(data: Seq<u8>) -> Option<Self> {
        match json_document(data) {
            Some(value) => Self::of_json(value),
            None => None,
        }
    }

    /// Reads the configuration from a JSON value. A value that describes
    /// none is an error of the kind `Deserialize`.
    pub fn from_value(value: &Json) -> (config: LinderaResult<Self>)
        ensures
            match Self::of_json(*value) {
                Some(described) => config matches Ok(c) && c == described,
                None => config matches Err(err) && err.kind == LinderaErrorKind::Deserialize,
            },
    {
        let kind = match value.get_str("kind") {
            Some(name) => UnicodeNormalizeKind::from_name(name),
            None => None,
        };
        match kind {
            Some(kind) => Ok(Self::new(kind)),
            None => Err(
                LinderaErrorKind::Deserialize.with_detail(
                    String::from_str("a normalize filter takes `kind`, a normalization form"),
                ),
            ),
        }
    }

    /// Reads the configuration from a JSON document. Bytes that hold no
    /// document, or one that describes no configuration, are an error of
    /// the kind `Deserialize`.
    pub fn from_slice(data: &[u8]) -> (config: LinderaResult<Self>)
        ensures
            match Self::of_document(data@) {
                Some(described) => config matches Ok(c) && c == described,
                None => config matches Err(err) && err.kind == LinderaErrorKind::Deserialize,
            },
    {
        match Json::parse(data) {
            Ok(value) => Self::from_value(&value),
            Err(err) => Err(err),
        }
    }
}

/// Brings a text into a Unicode normalization form.
#[derive(Clone, Copy, Debug)]
pub struct UnicodeNormalizeCharacterFilter {
    config: UnicodeNormalizeCharacterFilterConfig,
}

impl UnicodeNormalizeCharacterFilter {
    pub fn new(config: UnicodeNormalizeCharacterFilterConfig) -> (filter: Self)
        ensures
            filter.kind() == config.kind,
    {
        Self { config }
    }

    /// Reads the filter's configuration from a JSON value. A value that
    /// describes none is an error of the kind `Deserialize`.
    pub fn from_value(value: &Json) -> (filter: LinderaResult<Self>)
        ensures
            match UnicodeNormalizeCharacterFilterConfig::of_json(*value) {
                Some(described) => filter matches Ok(f) && f.kind() == described.kind,
                None => filter matches Err(err) && err.kind == LinderaErrorKind::Deserialize,
            },
    {
        match UnicodeNormalizeCharacterFilterConfig::from_value(value) {
            Ok(config) => Ok(Self::new(config)),
            Err(err) => Err(err),
        }
    }

    /// Reads the filter's configuration from a JSON document. Bytes that
    /// hold no document, or one that describes no configuration, are an
    /// error of the kind `Deserialize`.
    pub fn from_slice(data: &[u8]) -> (filter: LinderaResult<Self>)
        ensures
            match UnicodeNormalizeCharacterFilterConfig::of_document(data@) {
                Some(described) => filter matches Ok(f) && f.kind() == described.kind,
                None => filter matches Err(err) && err.kind == LinderaErrorKind::Deserialize,
            },
    {
        match UnicodeNormalizeCharacterFilterConfig::from_slice(data) {
            Ok(config) => Ok(Self::new(config)),
            Err(err) => Err(err),
        }
    }

    /// The configured normalization form.
    pub closed spec fn kind(self) -> UnicodeNormalizeKind {
        self.config.kind
    }

    /// The name by which a configuration asks for this filter.
    pub fn name(&self) -> (name: &'static str)
        ensures
            name@ == UNICODE_NORMALIZE_CHARACTER_FILTER_NAME@,
    {
        UNICODE_NORMALIZE_CHARACTER_FILTER_NAME
    }

    /// What the filter makes of `text`.
    pub open spec fn filtered(self, text: Seq<char>) -> Option<(Seq<char>, OffsetMap)> {
        normalized(self.kind(), text)
    }

    /// Brings every grapheme cluster of `text` into the configured
    /// normalization form, and returns the new text with its offset map,
    /// in which every cluster is a replacement.
    ///
    /// A text that with its replacements does not fit the address space
    /// is an error of the kind `Args`.
    pub fn apply(&self, text: &str) -> (filtered: LinderaResult<(String, Vec<usize>, Vec<i64>)>)
        ensures
            match self.filtered(text@) {
                Some((new_text, map)) => filtered matches Ok(out) && out.0@ == new_text && (
                OffsetMap { offsets: out.1@, diffs: out.2@ }) == map,
                None => filtered matches Err(err) && err.kind == LinderaErrorKind::Args,
            },
            filtered matches Ok(out) ==> is_offset_map(out.1@, out.2@) && is_gentle(out.1@, out.2@),
    {
        let kind = self.config.kind;
        let pieces = graphemes_of(text);
        let mut forms: Vec<String> = Vec::new();
        let mut k: usize = 0;
        while k < pieces.len()
            invariant
                k <= pieces@.len(),
                kind == self.kind(),
                forms@.len() == k,
                forall|i: int|
                    0 <= i < k ==> (#[trigger] forms@[i])@ == normal_form(kind, pieces@[i]@),
            decreases pieces@.len() - k,
        {
            forms.push(kind.normalize(pieces[k].as_str()));
            k = k + 1;
        }
        proof {
            assert(string_views(forms@) =~= normal_forms(kind, string_views(pieces@)));
        }
        replace_pieces(&pieces, &forms)
    }
}

} // verus!
