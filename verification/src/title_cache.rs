//! The cached title record of an entity, and the steps of refreshing it.
//!
//! A refresh alternates decisions with work that only the caller can do:
//! writing the record to storage and asking the normalizer. [`Refresh`] holds
//! the decisions. Its value says what is to be done next; the caller does it
//! and reports how it went with [`Refresh::advance`].

use vstd::prelude::*;
use crate::entity::{copy_optional_text, optional_text};
use crate::title::{StructedSongTitle, StructuredTitleView, cleaned_title_of, optional_title};

verus! {

/// What is known of an entity's title: the title as observed, the fields the
/// normalizer found in it, and the cleaned title composed from those fields.
#[derive(Debug, Clone, PartialEq, Eq)]
pub struct TitleRecord {
    pub id: String,
    pub raw_title: Option<String>,
    pub cleaned_title: Option<String>,
    pub structured_title: Option<StructedSongTitle>,
}

/// A title record as plain values.
pub struct TitleRecordView {
    pub id: Seq<char>,
    pub raw_title: Option<Seq<char>>,
    pub cleaned_title: Option<Seq<char>>,
    pub structured_title: Option<StructuredTitleView>,
}

impl View for TitleRecord {
    type V = TitleRecordView;

    open spec fn view(&self) -> TitleRecordView {
        TitleRecordView {
            id: self.id@,
            raw_title: optional_text(self.raw_title),
            cleaned_title: optional_text(self.cleaned_title),
            structured_title: optional_title(self.structured_title),
        }
    }
}

/// Where a record stands between observation and normalization.
#[derive(Debug, Clone, Copy, PartialEq, Eq, Structural)]
pub enum TitleState {
    /// No raw title was observed yet.
    Missing,
    /// A raw title is known; it has not been normalized.
    RawOnly,
    /// The raw title is known together with what was derived from it.
    RawAndStructured,
}

/// The state of a record.
pub open spec fn state_of(record: TitleRecordView) -> TitleState {
    if record.raw_title is None {
        TitleState::Missing
    } else if record.structured_title is None {
        TitleState::RawOnly
    } else {
        TitleState::RawAndStructured
    }
}

/// Derived titles belong to the raw title they stand beside: there is no
/// structured title without a raw title, and the cleaned title is the one
/// composed from the structured title, absent when that is absent.
pub open spec fn record_wf(record: TitleRecordView) -> bool {
    &&& record.structured_title is Some ==> record.raw_title is Some
    &&& record.cleaned_title == match record.structured_title {
        Some(title) => Some(cleaned_title_of(title)),
        None => None,
    }
}

/// The record of `id` of which nothing is known.
pub open spec fn blank_record(id: Seq<char>) -> TitleRecordView {
    TitleRecordView { id, raw_title: None, cleaned_title: None, structured_title: None }
}

/// The record with a newly observed raw title and nothing derived from it.
pub open spec fn invalidated(record: TitleRecordView, observed: Seq<char>) -> TitleRecordView {
    TitleRecordView {
        id: record.id,
        raw_title: Some(observed),
        cleaned_title: None,
        structured_title: None,
    }
}

/// The record with `title` as its structured title and the cleaned title
/// composed from it.
pub open spec fn derived(record: TitleRecordView, title: StructuredTitleView) -> TitleRecordView {
    TitleRecordView {
        id: record.id,
        raw_title: record.raw_title,
        cleaned_title: Some(cleaned_title_of(title)),
        structured_title: Some(title),
    }
}

impl TitleRecord {
    /// The record of an entity that was sighted and not yet observed.
    pub fn blank(id: String) -> (record: TitleRecord)
        ensures
            record@ == blank_record(id@),
            record_wf(record@),
    {
        TitleRecord { id, raw_title: None, cleaned_title: None, structured_title: None }
    }

    /// The record that storage holds for `id`. The cleaned title is composed
    /// anew from the structured title, and a structured title that stands
    /// beside no raw title is dropped.
    pub fn from_stored(
        id: String,
        raw_title: Option<String>,
        structured_title: Option<StructedSongTitle>,
    ) -> (record: TitleRecord)
        ensures
            record_wf(record@),
            record@.id == id@,
            record@.raw_title == optional_text(raw_title),
            record@.structured_title == if raw_title is Some {
                optional_title(structured_title)
            } else {
                None
            },
    {
        match (raw_title, structured_title) {
            (Some(raw), Some(title)) => {
                let cleaned = title.cleaned_title();
                TitleRecord {
                    id,
                    raw_title: Some(raw),
                    cleaned_title: Some(cleaned),
                    structured_title: Some(title),
                }
            },
            (raw_title, _) => TitleRecord {
                id,
                raw_title,
                cleaned_title: None,
                structured_title: None,
            },
        }
    }

    /// A copy with the same fields.
    pub fn duplicate(&self) -> (copy: TitleRecord)
        ensures
            copy@ == self@,
    {
        TitleRecord {
            id: self.id.clone(),
            raw_title: copy_optional_text(&self.raw_title),
            cleaned_title: copy_optional_text(&self.cleaned_title),
            structured_title: match &self.structured_title {
                Some(title) => Some(title.duplicate()),
                None => None,
            },
        }
    }

    /// Where the record stands.
    pub fn state(&self) -> (state: TitleState)
        ensures
            state == state_of(self@),
    {
        if self.raw_title.is_none() {
            TitleState::Missing
        } else if self.structured_title.is_none() {
            TitleState::RawOnly
        } else {
            TitleState::RawAndStructured
        }
    }

    /// Whether the derived titles belong to the raw title.
    pub fn is_consistent(&self) -> (consistent: bool)
        ensures
            consistent == record_wf(self@),
    {
        match &self.structured_title {
            Some(title) => {
                if self.raw_title.is_none() {
                    return false;
                }
                let expected = title.cleaned_title();
                match &self.cleaned_title {
                    Some(cleaned) => *cleaned == expected,
                    None => false,
                }
            },
            None => self.cleaned_title.is_none(),
        }
    }
}

/// A write of the title record of `id` to storage failed.
#[derive(Debug, Clone, PartialEq, Eq)]
pub struct InvalidationError {
    pub id: String,
}

/// A refresh of one title record: what is to be done next, or how it ended.
#[derive(Debug, Clone, PartialEq, Eq)]
pub enum Refresh {
    /// The raw title changed. The record, which holds the new raw title and
    /// no derived title, is to be written to storage.
    Invalidating(TitleRecord),
    /// The normalizer is to be asked about the record's raw title.
    Normalizing(TitleRecord),
    /// The record, which now holds its derived titles, is to be written to
    /// storage.
    Deriving(TitleRecord),
    /// The refresh ended with this record.
    Done(TitleRecord),
    /// The refresh ended because a write to storage failed.
    Failed(InvalidationError),
}

/// A refresh as plain values.
pub enum RefreshView {
    Invalidating(TitleRecordView),
    Normalizing(TitleRecordView),
    Deriving(TitleRecordView),
    Done(TitleRecordView),
    Failed(Seq<char>),
}

impl View for Refresh {
    type V = RefreshView;

    open spec fn view(&self) -> RefreshView {
        match self {
            Refresh::Invalidating(record) => RefreshView::Invalidating(record@),
            Refresh::Normalizing(record) => RefreshView::Normalizing(record@),
            Refresh::Deriving(record) => RefreshView::Deriving(record@),
            Refresh::Done(record) => RefreshView::Done(record@),
            Refresh::Failed(error) => RefreshView::Failed(error.id@),
        }
    }
}

/// What the caller reports after doing what the refresh asked for.
#[derive(Debug, Clone, PartialEq, Eq)]
pub enum RefreshEvent {
    /// The record stands in storage.
    Written,
    /// Storage refused the record.
    WriteFailed,
    /// The normalizer answered with these fields.
    Normalized(StructedSongTitle),
    /// The normalizer gave no usable answer.
    NormalizerFailed,
}

/// An event as plain values.
pub enum RefreshEventView {
    Written,
    WriteFailed,
    Normalized(StructuredTitleView),
    NormalizerFailed,
}

impl View for RefreshEvent {
    type V = RefreshEventView;

    open spec fn view(&self) -> RefreshEventView {
        match self {
            RefreshEvent::Written => RefreshEventView::Written,
            RefreshEvent::WriteFailed => RefreshEventView::WriteFailed,
            RefreshEvent::Normalized(title) => RefreshEventView::Normalized(title@),
            RefreshEvent::NormalizerFailed => RefreshEventView::NormalizerFailed,
        }
    }
}

/// What follows once a record without derived titles stands in storage: the
/// normalizer is asked, unless the raw title is empty, which no normalizer is
/// asked about.
pub open spec fn awaiting_titles(record: TitleRecordView) -> RefreshView {
    if record.raw_title matches Some(raw) && raw.len() > 0 {
        RefreshView::Normalizing(record)
    } else {
        RefreshView::Done(record)
    }
}

/// How the refresh of `record` begins when `observed` is the raw title seen
/// now.
///
/// A raw title that differs from the stored one, or was never stored, clears
/// the derived titles before anything else. The same holds of a record whose
/// cleaned title stands beside no structured title. An unchanged record with
/// its derived titles is left as it is; one whose cleaned title is not the one
/// its structured title composes gets that title; one that was never
/// normalized goes to the normalizer.
pub open spec fn begun(record: TitleRecordView, observed: Seq<char>) -> RefreshView {
    if record.raw_title != Some(observed) {
        RefreshView::Invalidating(invalidated(record, observed))
    } else {
        match record.structured_title {
            Some(title) => if record.cleaned_title == Some(cleaned_title_of(title)) {
                RefreshView::Done(record)
            } else {
                RefreshView::Deriving(derived(record, title))
            },
            None => if record.cleaned_title is None {
                awaiting_titles(record)
            } else {
                RefreshView::Invalidating(invalidated(record, observed))
            },
        }
    }
}

/// The refresh after the caller reported `event`. An event that answers
/// nothing the refresh asked for leaves it as it is.
pub open spec fn advanced(refresh: RefreshView, event: RefreshEventView) -> RefreshView {
    match (refresh, event) {
        (RefreshView::Invalidating(record), RefreshEventView::Written) => awaiting_titles(record),
        (RefreshView::Invalidating(record), RefreshEventView::WriteFailed) => RefreshView::Failed(
            record.id,
        ),
        (RefreshView::Normalizing(record), RefreshEventView::Normalized(title)) => {
            RefreshView::Deriving(derived(record, title))
        },
        (RefreshView::Normalizing(record), RefreshEventView::NormalizerFailed) => {
            RefreshView::Done(record)
        },
        (RefreshView::Deriving(record), RefreshEventView::Written) => RefreshView::Done(record),
        (RefreshView::Deriving(record), RefreshEventView::WriteFailed) => RefreshView::Failed(
            record.id,
        ),
        _ => refresh,
    }
}

/// The record a refresh holds; none once a write has failed.
pub open spec fn record_in(refresh: RefreshView) -> Option<TitleRecordView> {
    match refresh {
        RefreshView::Invalidating(record) => Some(record),
        RefreshView::Normalizing(record) => Some(record),
        RefreshView::Deriving(record) => Some(record),
        RefreshView::Done(record) => Some(record),
        RefreshView::Failed(_) => None,
    }
}

/// What holds of every refresh that [`begun`] and [`advanced`] produce: its
/// record is consistent; a record to be written after a change of raw title
/// has no derived title; the normalizer is asked only about a non-empty raw
/// title that has no structured title yet.
pub open spec fn refresh_wf(refresh: RefreshView) -> bool {
    match refresh {
        RefreshView::Invalidating(record) => record_wf(record) && state_of(record)
            == TitleState::RawOnly,
        RefreshView::Normalizing(record) => record_wf(record) && state_of(record)
            == TitleState::RawOnly && record.raw_title->0.len() > 0,
        RefreshView::Deriving(record) => record_wf(record) && state_of(record)
            == TitleState::RawAndStructured,
        RefreshView::Done(record) => record_wf(record) && state_of(record) != TitleState::Missing,
        RefreshView::Failed(_) => true,
    }
}

/// Whether the normalizer can be asked about a raw title: an empty title is
/// not sent to it.
pub fn can_normalize(raw_title: &str) -> (can: bool)
    ensures
        can == (raw_title@.len() > 0),
{
    !raw_title.is_empty()
}

fn awaiting(record: TitleRecord) -> (refresh: Refresh)
    ensures
        refresh@ == awaiting_titles(record@),
{
    let ask = match &record.raw_title {
        Some(raw) => can_normalize(raw.as_str()),
        None => false,
    };
    if ask {
        Refresh::Normalizing(record)
    } else {
        Refresh::Done(record)
    }
}

impl Refresh {
    /// Begins the refresh of `record`, the record that storage holds for an
    /// entity, with the raw title observed now.
    pub fn begin(record: TitleRecord, observed: &str) -> (refresh: Refresh)
        ensures
            refresh@ == begun(record@, observed@),
    {
        let seen: String = observed.to_owned();
        let unchanged = match &record.raw_title {
            Some(raw) => *raw == seen,
            None => false,
        };
        if !unchanged {
            return Refresh::Invalidating(
                TitleRecord {
                    id: record.id,
                    raw_title: Some(seen),
                    cleaned_title: None,
                    structured_title: None,
                },
            );
        }
        let TitleRecord { id, raw_title, cleaned_title, structured_title } = record;
        match structured_title {
            Some(title) => {
                let expected = title.cleaned_title();
                let composed = match &cleaned_title {
                    Some(cleaned) => *cleaned == expected,
                    None => false,
                };
                if composed {
                    Refresh::Done(
                        TitleRecord { id, raw_title, cleaned_title, structured_title: Some(title) },
                    )
                } else {
                    Refresh::Deriving(
                        TitleRecord {
                            id,
                            raw_title,
                            cleaned_title: Some(expected),
                            structured_title: Some(title),
                        },
                    )
                }
            },
            None => {
                if cleaned_title.is_none() {
                    awaiting(TitleRecord { id, raw_title, cleaned_title, structured_title: None })
                } else {
                    Refresh::Invalidating(
                        TitleRecord {
                            id,
                            raw_title: Some(seen),
                            cleaned_title: None,
                            structured_title: None,
                        },
                    )
                }
            },
        }
    }

    /// Takes the caller's report of what it did and says what comes next.
    pub fn advance(self, event: RefreshEvent) -> (next: Refresh)
        ensures
            next@ == advanced(self@, event@),
    {
        match self {
            Refresh::Invalidating(record) => match event {
                RefreshEvent::Written => awaiting(record),
                RefreshEvent::WriteFailed => Refresh::Failed(InvalidationError { id: record.id }),
                _ => Refresh::Invalidating(record),
            },
            Refresh::Normalizing(record) => match event {
                RefreshEvent::Normalized(title) => {
                    let cleaned = title.cleaned_title();
                    Refresh::Deriving(
                        TitleRecord {
                            id: record.id,
                            raw_title: record.raw_title,
                            cleaned_title: Some(cleaned),
                            structured_title: Some(title),
                        },
                    )
                },
                RefreshEvent::NormalizerFailed => Refresh::Done(record),
                _ => Refresh::Normalizing(record),
            },
            Refresh::Deriving(record) => match event {
                RefreshEvent::Written => Refresh::Done(record),
                RefreshEvent::WriteFailed => Refresh::Failed(InvalidationError { id: record.id }),
                _ => Refresh::Deriving(record),
            },
            Refresh::Done(record) => Refresh::Done(record),
            Refresh::Failed(error) => Refresh::Failed(error),
        }
    }

    /// Whether nothing is left to do.
    pub fn is_finished(&self) -> (finished: bool)
        ensures
            finished == (self@ is Done || self@ is Failed),
    {
        match self {
            Refresh::Done(_) => true,
            Refresh::Failed(_) => true,
            _ => false,
        }
    }

    /// The current record; none once a write has failed.
    pub fn record(&self) -> (record: Option<&TitleRecord>)
        ensures
            match record {
                Some(r) => record_in(self@) == Some(r@),
                None => record_in(self@) is None,
            },
    {
        match self {
            Refresh::Invalidating(record) => Some(record),
            Refresh::Normalizing(record) => Some(record),
            Refresh::Deriving(record) => Some(record),
            Refresh::Done(record) => Some(record),
            Refresh::Failed(_) => None,
        }
    }

    /// How the refresh ended: the current record, or the error of the failed
    /// write. `None` while something is left to do.
    pub fn into_result(self) -> (result: Option<Result<TitleRecord, InvalidationError>>)
        ensures
            match result {
                Some(Ok(record)) => self@ == RefreshView::Done(record@),
                Some(Err(error)) => self@ == RefreshView::Failed(error.id@),
                None => !(self@ is Done || self@ is Failed),
            },
    {
        match self {
            Refresh::Done(record) => Some(Ok(record)),
            Refresh::Failed(error) => Some(Err(error)),
            _ => None,
        }
    }
}

/// A raw title that differs from the stored one clears the derived titles at
/// once: the refresh begins by asking for a write of the record with the new
/// raw title and neither structured nor cleaned title, and the record stays
/// so until the normalizer has answered.
pub proof fn law_changed_title_clears_derived(record: TitleRecordView, observed: Seq<char>)
    requires
        record.raw_title != Some(observed),
    ensures
        begun(record, observed) == RefreshView::Invalidating(invalidated(record, observed)),
        invalidated(record, observed).raw_title == Some(observed),
        invalidated(record, observed).structured_title is None,
        invalidated(record, observed).cleaned_title is None,
        record_in(advanced(begun(record, observed), RefreshEventView::Written)) == Some(
            invalidated(record, observed),
        ),
        forall|event: RefreshEventView|
            !(event is Normalized) ==> match record_in(
                #[trigger] advanced(
                    advanced(begun(record, observed), RefreshEventView::Written),
                    event,
                ),
            ) {
                Some(current) => current == invalidated(record, observed),
                None => true,
            },
{
}

/// A refresh never holds stale derived data: whatever record it begins with
/// and whatever the caller reports, its record is consistent, and a cleaned
/// title is never set without the structured title that composes it.
pub proof fn law_refresh_keeps_records_consistent(
    record: TitleRecordView,
    observed: Seq<char>,
    refresh: RefreshView,
    event: RefreshEventView,
)
    ensures
        refresh_wf(begun(record, observed)),
        refresh_wf(refresh) ==> refresh_wf(advanced(refresh, event)),
{
}

/// A refresh fails only if a write to storage failed; the normalizer's
/// failure ends it with the record as it stands. A record whose raw title is
/// unchanged and whose derived titles are in place ends the refresh at once,
/// with no write and no question to the normalizer; one that was left
/// without derived titles goes to the normalizer again on the next run.
pub proof fn law_refresh_fails_only_on_write(
    record: TitleRecordView,
    observed: Seq<char>,
    refresh: RefreshView,
    event: RefreshEventView,
)
    ensures
        !(begun(record, observed) is Failed),
        advanced(refresh, event) is Failed <==> refresh is Failed || (event is WriteFailed && (
        refresh is Invalidating || refresh is Deriving)),
        refresh is Normalizing && event is NormalizerFailed ==> advanced(refresh, event)
            == RefreshView::Done(refresh->Normalizing_0),
        record_wf(record) && record.raw_title == Some(observed) && record.structured_title
            is Some ==> begun(record, observed) == RefreshView::Done(record),
        record_wf(record) && record.raw_title == Some(observed) && observed.len() > 0
            && record.structured_title is None ==> begun(record, observed)
            == RefreshView::Normalizing(record),
{
}

} // verus!
