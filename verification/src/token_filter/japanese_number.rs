//! Conversion of Japanese numerals to Arabic decimal digits, and the token
//! filter that applies it to the tokens tagged as numbers.

use vstd::prelude::*;
use vstd::string::StringExecFns;

use crate::dictionary::{kind_of_name, DictionaryKind};
use crate::error::{LinderaErrorKind, LinderaResult};
use crate::json::{json_document, Json};
use crate::text::chars_of;
use crate::token::{token_views, Token, TokenView};
use crate::token_filter::{pos_tag, pos_tag_of};

verus! {

pub const JAPANESE_NUMBER_TOKEN_FILTER_NAME: &'static str = "japanese_number";

/// The decimal digit that a full-width or kanji digit stands for.
pub open spec fn digit_of(c: char) -> Option<char> {
    if c == '０' || c == '〇' || c == '零' {
        Some('0')
    } else if c == '１' || c == '一' || c == '壱' {
        Some('1')
    } else if c == '２' || c == '二' || c == '弐' {
        Some('2')
    } else if c == '３' || c == '三' || c == '参' {
        Some('3')
    } else if c == '４' || c == '四' {
        Some('4')
    } else if c == '５' || c == '五' {
        Some('5')
    } else if c == '６' || c == '六' {
        Some('6')
    } else if c == '７' || c == '七' {
        Some('7')
    } else if c == '８' || c == '八' {
        Some('8')
    } else if c == '９' || c == '九' {
        Some('9')
    } else {
        None
    }
}

/// The rank of a power marker: 1 for ten, 2 for a hundred, 3 for a thousand,
/// then 4 to 8 for the myriad powers from 10^4 to 10^20. Every other scalar
/// has rank 0.
pub open spec fn power_rank(c: char) -> nat {
    if c == '十' || c == '拾' {
        1
    } else if c == '百' {
        2
    } else if c == '千' {
        3
    } else if c == '万' {
        4
    } else if c == '億' {
        5
    } else if c == '兆' {
        6
    } else if c == '京' {
        7
    } else if c == '垓' {
        8
    } else {
        0
    }
}

/// Whether `next`, the scalar that stands before a power marker in the
/// source, shows that the marker's leading one was left out: the marker
/// opens the numeral, or a marker of a higher power stands before it.
pub open spec fn omits_one(rank: nat, next: Option<char>) -> bool {
    match next {
        None => true,
        Some(n) => power_rank(n) > rank,
    }
}

/// `n` zeros.
pub open spec fn zeros(n: nat) -> Seq<char> {
    Seq::new(n, |i: int| '0')
}

/// `num` with a prefix of `zero_str` in front that brings it to the length
/// of `zero_str`; `num` itself where it is at least that long.
pub open spec fn padded(num: Seq<char>, zero_str: Seq<char>) -> Seq<char> {
    if num.len() >= zero_str.len() {
        num
    } else {
        zero_str.take(zero_str.len() - num.len()) + num
    }
}

/// What the conversion has gathered after some scalars: the digits so far,
/// lowest on the right, and the width of the current myriad block.
pub struct NumeralState {
    pub buf: Seq<char>,
    pub block: nat,
}

/// The state after the scalar `c`, where `next` is the scalar before `c` in
/// the source, if there is one.
pub open spec fn numeral_step(st: NumeralState, c: char, next: Option<char>) -> NumeralState {
    let rank = power_rank(c);
    if digit_of(c) is Some {
        NumeralState { buf: seq![digit_of(c)->0] + st.buf, block: st.block }
    } else if rank > 0 {
        let block = if rank >= 4 {
            (4 * (rank - 3)) as nat
        } else {
            st.block
        };
        let width = if rank >= 4 {
            block
        } else {
            block + rank
        };
        let filled = padded(st.buf, zeros(width));
        let buf = if omits_one(rank, next) {
            seq!['1'] + filled
        } else {
            filled
        };
        NumeralState { buf, block }
    } else {
        st
    }
}

/// The state after the first `k` scalars of `rev`, the source read from its
/// end.
pub open spec fn numeral_fold(rev: Seq<char>, k: nat) -> NumeralState
    decreases k,
{
    if k == 0 {
        NumeralState { buf: Seq::empty(), block: 0 }
    } else {
        let j = (k - 1) as int;
        let next = if (k as int) < rev.len() {
            Some(rev[k as int])
        } else {
            None
        };
        numeral_step(numeral_fold(rev, (k - 1) as nat), rev[j], next)
    }
}

/// The Arabic decimal digits that the Japanese numeral `s` stands for.
pub open spec fn arabic_numerals(s: Seq<char>) -> Seq<char> {
    numeral_fold(s.reverse(), s.len()).buf
}

/// Whether every scalar of `s` is an ASCII decimal digit.
pub open spec fn all_ascii_digits(s: Seq<char>) -> bool {
    forall|i: int| 0 <= i < s.len() ==> '0' <= #[trigger] s[i] <= '9'
}

/// Pads `num` on the left, with a prefix of `base` followed by `digit`, to
/// the length of the two together. A `num` that is already that long comes
/// back unchanged.
pub fn adjust_digits(num: &str, base: &str, digit: &str) -> (num_str: String)
    ensures
        num_str@ == padded(num@, base@ + digit@),
{
    let zero_str = String::from_str(base).concat(digit);
    let zero_len = zero_str.as_str().unicode_len();
    let num_len = num.unicode_len();
    if num_len >= zero_len {
        String::from_str(num)
    } else {
        let zeros = zero_str.as_str().substring_char(0, zero_len - num_len);
        String::from_str(zeros).concat(num)
    }
}

/// Whether the conversion passes over every scalar of `s`: none is a
/// full-width or kanji digit, none a power marker.
pub open spec fn no_numerals(s: Seq<char>) -> bool {
    forall|i: int| 0 <= i < s.len() ==> digit_of(#[trigger] s[i]) is None && power_rank(s[i]) == 0
}

/// After any number of scalars the gathered digits are ASCII decimal digits.
proof fn lemma_fold_ascii_digits(rev: Seq<char>, k: nat)
    ensures
        all_ascii_digits(numeral_fold(rev, k).buf),
    decreases k,
{
    if k > 0 {
        lemma_fold_ascii_digits(rev, (k - 1) as nat);
    }
}

/// Scalars that are passed over leave the state as it began.
proof fn lemma_fold_no_numerals(rev: Seq<char>, k: nat)
    requires
        no_numerals(rev),
        k <= rev.len(),
    ensures
        numeral_fold(rev, k) == (NumeralState { buf: Seq::empty(), block: 0 }),
    decreases k,
{
    if k > 0 {
        lemma_fold_no_numerals(rev, (k - 1) as nat);
        assert(digit_of(rev[k - 1]) is None && power_rank(rev[k - 1]) == 0);
    }
}

/// The conversion yields ASCII decimal digits and nothing else, whatever the
/// source.
pub proof fn lemma_arabic_numerals_ascii_digits(s: Seq<char>)
    ensures
        all_ascii_digits(arabic_numerals(s)),
{
    lemma_fold_ascii_digits(s.reverse(), s.len());
}

/// A source without full-width digits, kanji digits and power markers
/// converts to the empty string. ASCII decimal digits are such a source.
pub proof fn lemma_arabic_numerals_skips_others(s: Seq<char>)
    requires
        no_numerals(s),
    ensures
        arabic_numerals(s) == Seq::<char>::empty(),
{
    let rev = s.reverse();
    assert(no_numerals(rev)) by {
        assert forall|i: int| 0 <= i < rev.len() implies digit_of(#[trigger] rev[i]) is None
            && power_rank(rev[i]) == 0 by {
            assert(rev[i] == s[s.len() - 1 - i]);
        }
    }
    lemma_fold_no_numerals(rev, s.len());
}

/// Converting the result of a conversion once more yields the empty string:
/// the result holds ASCII digits only, and those are passed over.
pub proof fn lemma_arabic_numerals_twice(s: Seq<char>)
    ensures
        arabic_numerals(arabic_numerals(s)) == Seq::<char>::empty(),
{
    let once = arabic_numerals(s);
    lemma_arabic_numerals_ascii_digits(s);
    assert(no_numerals(once)) by {
        assert forall|i: int| 0 <= i < once.len() implies digit_of(#[trigger] once[i]) is None
            && power_rank(once[i]) == 0 by {
            assert('0' <= once[i] <= '9');
        }
    }
    lemma_arabic_numerals_skips_others(once);
}

/// The conversion is idempotent on every source that converts to the empty
/// string. On every other source it is not: converting a second time
/// always yields the empty string.
pub proof fn lemma_arabic_numerals_idempotent(s: Seq<char>)
    requires
        arabic_numerals(s).len() == 0,
    ensures
        arabic_numerals(arabic_numerals(s)) == arabic_numerals(s),
{
    lemma_arabic_numerals_twice(s);
    assert(arabic_numerals(s) =~= Seq::<char>::empty());
}

/// The ASCII digit, as a string, that a full-width or kanji digit stands for.
fn digit_text(c: char) -> (text: Option<&'static str>)
    ensures
        match digit_of(c) {
            Some(d) => text is Some && text->0@ == seq![d],
            None => text is None,
        },
{
    proof {
        reveal_strlit("0");
        reveal_strlit("1");
        reveal_strlit("2");
        reveal_strlit("3");
        reveal_strlit("4");
        reveal_strlit("5");
        reveal_strlit("6");
        reveal_strlit("7");
        reveal_strlit("8");
        reveal_strlit("9");
    }
    let text = if c == '０' || c == '〇' || c == '零' {
        Some("0")
    } else if c == '１' || c == '一' || c == '壱' {
        Some("1")
    } else if c == '２' || c == '二' || c == '弐' {
        Some("2")
    } else if c == '３' || c == '三' || c == '参' {
        Some("3")
    } else if c == '４' || c == '四' {
        Some("4")
    } else if c == '５' || c == '五' {
        Some("5")
    } else if c == '６' || c == '六' {
        Some("6")
    } else if c == '７' || c == '七' {
        Some("7")
    } else if c == '８' || c == '八' {
        Some("8")
    } else if c == '９' || c == '九' {
        Some("9")
    } else {
        None
    };
    assert(text matches Some(t) ==> t@ =~= seq![digit_of(c)->0]);
    text
}

/// The rank of `c` as a power marker.
fn rank_of(c: char) -> (rank: u8)
    ensures
        rank == power_rank(c),
{
    if c == '十' || c == '拾' {
        1
    } else if c == '百' {
        2
    } else if c == '千' {
        3
    } else if c == '万' {
        4
    } else if c == '億' {
        5
    } else if c == '兆' {
        6
    } else if c == '京' {
        7
    } else if c == '垓' {
        8
    } else {
        0
    }
}

/// The zeros that a marker below the myriad adds in front of the block's own.
fn base_zeros(rank: u8) -> (base: &'static str)
    requires
        1 <= rank <= 3,
    ensures
        base@ == zeros(rank as nat),
{
    proof {
        reveal_strlit("0");
        reveal_strlit("00");
        reveal_strlit("000");
    }
    let base = if rank == 1 {
        "0"
    } else if rank == 2 {
        "00"
    } else {
        "000"
    };
    assert(base@ =~= zeros(rank as nat));
    base
}

/// The zeros of the myriad block that a marker of rank 4 to 8 opens.
fn block_zeros(rank: u8) -> (block: &'static str)
    requires
        4 <= rank <= 8,
    ensures
        block@ == zeros((4 * (rank - 3)) as nat),
{
    proof {
        reveal_strlit("0000");
        reveal_strlit("00000000");
        reveal_strlit("000000000000");
        reveal_strlit("0000000000000000");
        reveal_strlit("00000000000000000000");
    }
    let block = if rank == 4 {
        "0000"
    } else if rank == 5 {
        "00000000"
    } else if rank == 6 {
        "000000000000"
    } else if rank == 7 {
        "0000000000000000"
    } else {
        "00000000000000000000"
    };
    assert(block@ =~= zeros((4 * (rank - 3)) as nat));
    block
}

/// Converts a Japanese numeral to Arabic decimal digits.
///
/// The scalars are read from the end of `from_str`. A full-width or kanji
/// digit puts its decimal digit in front of what was gathered. A power
/// marker fills the gathered digits up with zeros to the marker's place,
/// and puts a one in front where the source left it out. Every other scalar
/// is passed over.
pub fn to_arabic_numerals(from_str: &str) -> (num: String)
    ensures
        num@ == arabic_numerals(from_str@),
        all_ascii_digits(num@),
{
    let from_chars = chars_of(from_str);
    let n = from_chars.len();
    let ghost rev = from_str@.reverse();
    let mut num_buf = String::new();
    let mut digit = String::new();
    let mut i: usize = n;
    proof {
        assert(digit@ =~= zeros(0));
    }
    while i > 0
        invariant
            i <= n,
            n == from_chars@.len(),
            from_chars@ == from_str@,
            rev == from_str@.reverse(),
            num_buf@ == numeral_fold(rev, (n - i) as nat).buf,
            digit@ == zeros(numeral_fold(rev, (n - i) as nat).block),
            all_ascii_digits(num_buf@),
        decreases i,
    {
        let ghost k = (n - i) as nat;
        let ghost st = numeral_fold(rev, k);
        let c = from_chars[i - 1];
        let next: Option<char> = if i >= 2 {
            Some(from_chars[i - 2])
        } else {
            None
        };
        proof {
            assert(rev[k as int] == c);
            assert(next == if ((k + 1) as int) < rev.len() {
                Some(rev[(k + 1) as int])
            } else {
                None
            });
            assert(numeral_fold(rev, k + 1) == numeral_step(st, c, next));
        }
        let rank = rank_of(c);
        match digit_text(c) {
            Some(text) => {
                num_buf = String::from_str(text).concat(num_buf.as_str());
            },
            None => {
                if rank > 0 {
                    if rank >= 4 {
                        digit = String::from_str(block_zeros(rank));
                        num_buf = adjust_digits(num_buf.as_str(), "", digit.as_str());
                        proof {
                            reveal_strlit("");
                            assert(""@ + digit@ =~= digit@);
                        }
                    } else {
                        num_buf = adjust_digits(num_buf.as_str(), base_zeros(rank), digit.as_str());
                        proof {
                            assert(zeros(rank as nat) + zeros(st.block) =~= zeros(st.block + rank as nat));
                        }
                    }
                    let one = match next {
                        None => true,
                        Some(before) => rank_of(before) > rank,
                    };
                    if one {
                        proof {
                            reveal_strlit("1");
                        }
                        num_buf = String::from_str("1").concat(num_buf.as_str());
                    }
                }
            },
        }
        i = i - 1;
    }
    proof {
        assert(rev.len() == n);
    }
    num_buf
}

/// The dictionary whose layout of features the filter goes by.
#[derive(Clone, Copy, Debug, PartialEq, Eq, Structural)]
pub struct JapaneseNumberTokenFilterConfig {
    pub kind: DictionaryKind,
}

impl JapaneseNumberTokenFilterConfig {
    pub fn new(kind: DictionaryKind) -> (config: Self)
        ensures
            config.kind == kind,
    {
        Self { kind }
    }

    /// The configuration that the JSON value `value` describes: an object
    /// whose member `kind` is the identifier of a kind of dictionary.
    /// Other members are not looked at.
    pub open spec fn of_json(value: Json) -> Option<Self> {
        match value.text_member("kind"@) {
            Some(name) => match kind_of_name(name) {
                Some(kind) => Some(JapaneseNumberTokenFilterConfig { kind }),
                None => None,
            },
            None => None,
        }
    }

    /// The configuration that the JSON document in `data` describes.
    pub open spec fn of_document(data: Seq<u8>) -> Option<Self> {
        match json_document(data) {
            Some(value) => Self::of_json(value),
            None => None,
        }
    }

    /// Reads the configuration from a JSON value. A value that describes
    /// none is an error of the kind `Deserialize`.
    pub fn from_value(value: &Json) -> (config: LinderaResult<Self>)
        ensures
            match Self::of_json(*value) {
                Some(described) => config matches Ok(c) && c == described,
                None => config matches Err(err) && err.kind == LinderaErrorKind::Deserialize,
            },
    {
        let kind = match value.get_str("kind") {
            Some(name) => DictionaryKind::from_name(name),
            None => None,
        };
        match kind {
            Some(kind) => Ok(Self::new(kind)),
            None => Err(
                LinderaErrorKind::Deserialize.with_detail(
                    String::from_str("a number filter takes `kind`, the kind of a dictionary"),
                ),
            ),
        }
    }

    /// Reads the configuration from a JSON document. Bytes that hold no
    /// document, or one that describes no configuration, are an error of
    /// the kind `Deserialize`.
    pub fn from_slice(data: &[u8]) -> (config: LinderaResult<Self>)
        ensures
            match Self::of_document(data@) {
                Some(described) => config matches Ok(c) && c == described,
                None => config matches Err(err) && err.kind == LinderaErrorKind::Deserialize,
            },
    {
        match Json::parse(data) {
            Ok(value) => Self::from_value(&value),
            Err(err) => Err(err),
        }
    }
}

/// The tag under which a dictionary of the kind `kind` files its numbers:
/// four fields joined by commas. Kinds without Japanese numbers have the
/// empty tag, which no token bears.
pub open spec fn number_tag(kind: DictionaryKind) -> Seq<char> {
    match kind {
        DictionaryKind::IPADIC => seq!['名', '詞', ',', '数', ',', '*', ',', '*'],
        DictionaryKind::UniDic => seq!['名', '詞', ',', '数', '詞', ',', '*', ',', '*'],
        _ => Seq::empty(),
    }
}

/// Whether a dictionary of the kind `kind` files `token` as a number.
pub open spec fn is_number(token: TokenView, kind: DictionaryKind) -> bool {
    token.details matches Some(details) && pos_tag(details) == number_tag(kind)
}

/// `token` as the filter leaves it: a number with its text in Arabic
/// digits, every other token as it is.
pub open spec fn numbered(token: TokenView, kind: DictionaryKind) -> TokenView {
    if is_number(token, kind) {
        TokenView {
            text: arabic_numerals(token.text),
            details: token.details,
            byte_start: token.byte_start,
            byte_end: token.byte_end,
        }
    } else {
        token
    }
}

/// The tokens `tokens` with the numbers among them in Arabic digits.
pub open spec fn all_numbered(tokens: Seq<TokenView>, kind: DictionaryKind) -> Seq<TokenView> {
    tokens.map_values(|token: TokenView| numbered(token, kind))
}

/// The tag under which a dictionary of the kind `kind` files its numbers.
fn number_tag_of(kind: DictionaryKind) -> (tag: &'static str)
    ensures
        tag@ == number_tag(kind),
{
    proof {
        reveal_strlit("名詞,数,*,*");
        reveal_strlit("名詞,数詞,*,*");
        reveal_strlit("");
    }
    let tag = match kind {
        DictionaryKind::IPADIC => "名詞,数,*,*",
        DictionaryKind::UniDic => "名詞,数詞,*,*",
        _ => "",
    };
    assert(tag@ =~= number_tag(kind));
    tag
}

/// Writes the numbers among the tokens in Arabic digits.
#[derive(Clone, Copy, Debug)]
pub struct JapaneseNumberTokenFilter {
    config: JapaneseNumberTokenFilterConfig,
}

impl JapaneseNumberTokenFilter {
    pub fn new(config: JapaneseNumberTokenFilterConfig) -> (filter: Self)
        ensures
            filter.kind() == config.kind,
    {
        Self { config }
    }

    /// Reads the filter's configuration from a JSON value. A value that
    /// describes none is an error of the kind `Deserialize`.
    pub fn from_value(value: &Json) -> (filter: LinderaResult<Self>)
        ensures
            match JapaneseNumberTokenFilterConfig::of_json(*value) {
                Some(described) => filter matches Ok(f) && f.kind() == described.kind,
                None => filter matches Err(err) && err.kind == LinderaErrorKind::Deserialize,
            },
    {
        match JapaneseNumberTokenFilterConfig::from_value(value) {
            Ok(config) => Ok(Self::new(config)),
            Err(err) => Err(err),
        }
    }

    /// Reads the filter's configuration from a JSON document. Bytes that
    /// hold no document, or one that describes no configuration, are an
    /// error of the kind `Deserialize`.
    pub fn from_slice(data: &[u8]) -> (filter: LinderaResult<Self>)
        ensures
            match JapaneseNumberTokenFilterConfig::of_document(data@) {
                Some(described) => filter matches Ok(f) && f.kind() == described.kind,
                None => filter matches Err(err) && err.kind == LinderaErrorKind::Deserialize,
            },
    {
        match JapaneseNumberTokenFilterConfig::from_slice(data) {
            Ok(config) => Ok(Self::new(config)),
            Err(err) => Err(err),
        }
    }

    /// The configured kind of dictionary.
    pub closed spec fn kind(self) -> DictionaryKind {
        self.config.kind
    }

    /// The tokens `tokens` as the filter leaves them.
    pub open spec fn filtered(self, tokens: Seq<TokenView>) -> Seq<TokenView> {
        all_numbered(tokens, self.kind())
    }

    /// The name by which a configuration asks for this filter.
    pub fn name(&self) -> (name: &'static str)
        ensures
            name@ == JAPANESE_NUMBER_TOKEN_FILTER_NAME@,
    {
        JAPANESE_NUMBER_TOKEN_FILTER_NAME
    }

    /// Replaces the text of every token that the dictionary files as a
    /// number by its Arabic decimal digits. Positions and features stay,
    /// and so does every other token, those without features among them.
    pub fn apply(&self, tokens: &mut Vec<Token>) -> (done: LinderaResult<()>)
        ensures
            done is Ok,
            token_views(final(tokens)@) == self.filtered(token_views(old(tokens)@)),
    {
        let wanted = String::from_str(number_tag_of(self.config.kind));
        let ghost before = tokens@;
        let mut all: Vec<Token> = Vec::new();
        std::mem::swap(tokens, &mut all);
        let mut i: usize = 0;
        assert(before.len() == all.len());
        for token in it: all
            invariant
                i == it.index(),
                it.seq() == before,
                before.len() <= usize::MAX,
                wanted@ == number_tag(self.kind()),
                tokens@.len() == i,
                forall|j: int|
                    0 <= j < i ==> (#[trigger] tokens@[j])@ == numbered(before[j]@, self.kind()),
        {
            let is_number = match &token.details {
                Some(details) => pos_tag_of(details) == wanted,
                None => false,
            };
            if is_number {
                let Token { text, details, byte_start, byte_end } = token;
                let text = to_arabic_numerals(text.as_str());
                tokens.push(Token { text, details, byte_start, byte_end });
            } else {
                tokens.push(token);
            }
            i = i + 1;
        }
        proof {
            assert(token_views(tokens@) =~= self.filtered(token_views(before)));
        }
        Ok(())
    }
}

} // verus!
