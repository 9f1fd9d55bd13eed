//! Structured titles and the cleaned title composed from them.

use vstd::prelude::*;
use crate::text::{copy_texts, join, join_present, joined, joined_present, texts};

verus! {

/// The fields a normalizer extracts from a raw title. A concept that the raw
/// title does not mention is an empty string, or an empty list of singers.
#[derive(Debug, Clone, PartialEq, Eq)]
pub struct StructedSongTitle {
    pub song_name: String,
    pub singer: Vec<String>,
    pub edition: String,
    pub version: String,
}

/// A structured title as plain character sequences.
pub struct StructuredTitleView {
    pub song_name: Seq<char>,
    pub singer: Seq<Seq<char>>,
    pub edition: Seq<char>,
    pub version: Seq<char>,
}

impl View for StructedSongTitle {
    type V = StructuredTitleView;

    open spec fn view(&self) -> StructuredTitleView {
        StructuredTitleView {
            song_name: self.song_name@,
            singer: texts(self.singer@),
            edition: self.edition@,
            version: self.version@,
        }
    }
}

/// An optional structured title as plain values.
pub open spec fn optional_title(title: Option<StructedSongTitle>) -> Option<StructuredTitleView> {
    match title {
        Some(t) => Some(t@),
        None => None,
    }
}

/// Separator between singers.
pub open spec fn singer_separator() -> Seq<char> {
    seq![',']
}

/// Separator between the singers, the edition and the version.
pub open spec fn credit_separator() -> Seq<char> {
    seq![' ', '-', ' ']
}

/// Separator between the song name and the credits.
pub open spec fn title_separator() -> Seq<char> {
    seq![' ', ':', ' ']
}

/// The credits of a title: the comma-joined singers, the edition and the
/// version, those of them that are not empty, joined with `" - "`.
pub open spec fn credits_of(title: StructuredTitleView) -> Seq<char> {
    joined_present(
        seq![joined(title.singer, singer_separator()), title.edition, title.version],
        credit_separator(),
    )
}

/// The cleaned title: the song name and the credits, those of them that are
/// not empty, joined with `" : "`.
pub open spec fn cleaned_title_of(title: StructuredTitleView) -> Seq<char> {
    joined_present(seq![title.song_name, credits_of(title)], title_separator())
}

impl StructedSongTitle {
    /// A copy with the same fields.
    pub fn duplicate(&self) -> (copy: StructedSongTitle)
        ensures
            copy@ == self@,
    {
        StructedSongTitle {
            song_name: self.song_name.clone(),
            singer: copy_texts(&self.singer),
            edition: self.edition.clone(),
            version: self.version.clone(),
        }
    }

    /// Whether both titles hold the same fields.
    pub fn same_as(&self, other: &StructedSongTitle) -> (same: bool)
        ensures
            same == (self@ == other@),
    {
        if self.song_name != other.song_name || self.edition != other.edition || self.version
            != other.version || self.singer.len() != other.singer.len() {
            proof {
                if self.singer.len() != other.singer.len() {
                    assert(texts(self.singer@).len() != texts(other.singer@).len());
                }
            }
            return false;
        }
        let mut i: usize = 0;
        while i < self.singer.len()
            invariant
                i <= self.singer.len(),
                self.singer.len() == other.singer.len(),
                forall|k: int| 0 <= k < i ==> self.singer[k]@ == other.singer[k]@,
            decreases self.singer.len() - i,
        {
            if self.singer[i] != other.singer[i] {
                assert(texts(self.singer@)[i as int] != texts(other.singer@)[i as int]);
                return false;
            }
            i = i + 1;
        }
        assert(texts(self.singer@) =~= texts(other.singer@));
        true
    }

    /// The human-readable composite of the fields, for example
    /// `"Song : A,B - V1"`; empty when every field is empty.
    pub fn cleaned_title(&self) -> (cleaned: String)
        ensures
            cleaned@ == cleaned_title_of(self@),
    {
        proof {
            reveal_strlit(",");
            reveal_strlit(" - ");
            reveal_strlit(" : ");
            assert(","@ =~= singer_separator());
            assert(" - "@ =~= credit_separator());
            assert(" : "@ =~= title_separator());
        }
        let mut credit_parts: Vec<String> = Vec::new();
        credit_parts.push(join(&self.singer, ","));
        credit_parts.push(self.edition.clone());
        credit_parts.push(self.version.clone());
        assert(texts(credit_parts@) =~= seq![
            joined(self@.singer, singer_separator()),
            self@.edition,
            self@.version,
        ]);
        let credits = join_present(&credit_parts, " - ");
        let mut parts: Vec<String> = Vec::new();
        parts.push(self.song_name.clone());
        parts.push(credits);
        assert(texts(parts@) =~= seq![self@.song_name, credits_of(self@)]);
        join_present(&parts, " : ")
    }
}

} // verus!
