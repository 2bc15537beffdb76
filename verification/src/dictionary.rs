//! The kinds of dictionary that a segmenter can work with.

use vstd::prelude::*;

verus! {

/// A kind of dictionary. The layout of a token's features depends on it.
#[derive(Debug, Clone, Copy, PartialEq, Eq, Structural)]
pub enum DictionaryKind {
    IPADIC,
    UniDic,
    KoDic,
    CcCedict,
}

/// The kind that the identifier `name` stands for.
pub open spec fn kind_of_name(name: Seq<char>) -> Option<DictionaryKind> {
    if name == seq!['i', 'p', 'a', 'd', 'i', 'c'] {
        Some(DictionaryKind::IPADIC)
    } else if name == seq!['u', 'n', 'i', 'd', 'i', 'c'] {
        Some(DictionaryKind::UniDic)
    } else if name == seq!['k', 'o', '-', 'd', 'i', 'c'] {
        Some(DictionaryKind::KoDic)
    } else if name == seq!['c', 'c', '-', 'c', 'e', 'd', 'i', 'c', 't'] {
        Some(DictionaryKind::CcCedict)
    } else {
        None
    }
}

impl DictionaryKind {
    /// The identifier of the kind, as configurations write it.
    pub fn as_str(&self) -> (name: &'static str)
        ensures
            kind_of_name(name@) == Some(*self),
    {
        proof {
            reveal_strlit("ipadic");
            reveal_strlit("unidic");
            reveal_strlit("ko-dic");
            reveal_strlit("cc-cedict");
        }
        let name = match self {
            DictionaryKind::IPADIC => "ipadic",
            DictionaryKind::UniDic => "unidic",
            DictionaryKind::KoDic => "ko-dic",
            DictionaryKind::CcCedict => "cc-cedict",
        };
        assert(name@ =~= match self {
            DictionaryKind::IPADIC => seq!['i', 'p', 'a', 'd', 'i', 'c'],
            DictionaryKind::UniDic => seq!['u', 'n', 'i', 'd', 'i', 'c'],
            DictionaryKind::KoDic => seq!['k', 'o', '-', 'd', 'i', 'c'],
            DictionaryKind::CcCedict => seq!['c', 'c', '-', 'c', 'e', 'd', 'i', 'c', 't'],
        });
        name
    }

    /// The kind that the identifier `name` stands for, if it stands for
    /// one.
    pub fn from_name(name: &str) -> (kind: Option<DictionaryKind>)
        ensures
            kind == kind_of_name(name@),
    {
        proof {
            reveal_strlit("ipadic");
            reveal_strlit("unidic");
            reveal_strlit("ko-dic");
            reveal_strlit("cc-cedict");
            assert("ipadic"@ =~= seq!['i', 'p', 'a', 'd', 'i', 'c']);
            assert("unidic"@ =~= seq!['u', 'n', 'i', 'd', 'i', 'c']);
            assert("ko-dic"@ =~= seq!['k', 'o', '-', 'd', 'i', 'c']);
            assert("cc-cedict"@ =~= seq!['c', 'c', '-', 'c', 'e', 'd', 'i', 'c', 't']);
        }
        if name.eq("ipadic") {
            Some(DictionaryKind::IPADIC)
        } else if name.eq("unidic") {
            Some(DictionaryKind::UniDic)
        } else if name.eq("ko-dic") {
            Some(DictionaryKind::KoDic)
        } else if name.eq("cc-cedict") {
            Some(DictionaryKind::CcCedict)
        } else {
            None
        }
    }
}

} // verus!
