//! Reading what the collaborators answer: the metric provider's reply for an
//! entity, a page of a group's membership, and the normalizer's reply.
//!
//! Each reply is read in two steps. The first takes from the JSON text the
//! few values that matter, as plain values; the second decides on those
//! values what the reply means.

use vstd::prelude::*;
use crate::entity::{Entity, EntityView, optional_text};
use crate::fetch::FetchError;
use crate::json::{
    first_at, items_at, json_document, json_first, json_items, json_string, parse_json, string_at,
};
use crate::number::{i64_of, parse_i64};
use crate::text::texts;
use crate::title::{StructedSongTitle, StructuredTitleView, optional_title};

verus! {

/// The optional strings of a list as plain values, in order.
pub open spec fn optional_texts(list: Seq<Option<String>>) -> Seq<Option<Seq<char>>> {
    Seq::new(list.len(), |i: int| optional_text(list[i]))
}

/// The strings of a list, if none is missing.
pub open spec fn all_present(list: Seq<Option<Seq<char>>>) -> Option<Seq<Seq<char>>> {
    if forall|i: int| 0 <= i < list.len() ==> (#[trigger] list[i]) is Some {
        Some(Seq::new(list.len(), |i: int| list[i]->0))
    } else {
        None
    }
}

/// The string that each element of `items` holds at `pointer`.
pub open spec fn strings_of(items: Seq<serde_json::Value>, pointer: Seq<char>) -> Seq<
    Option<Seq<char>>,
> {
    Seq::new(items.len(), |i: int| json_string(items[i], pointer))
}

/// The strings of a list, if none is missing.
pub fn collect_present(list: Vec<Option<String>>) -> (present: Option<Vec<String>>)
    ensures
        match present {
            Some(strings) => all_present(optional_texts(list@)) == Some(texts(strings@)),
            None => all_present(optional_texts(list@)) is None,
        },
{
    let ghost wanted = optional_texts(list@);
    let mut strings: Vec<String> = Vec::new();
    let mut i: usize = 0;
    while i < list.len()
        invariant
            i <= list.len(),
            wanted == optional_texts(list@),
            strings.len() == i,
            forall|k: int| 0 <= k < i ==> wanted[k] == Some(strings[k]@),
        decreases list.len() - i,
    {
        match &list[i] {
            Some(text) => {
                strings.push(text.clone());
            },
            None => {
                assert(wanted[i as int] is None);
                return None;
            },
        }
        i = i + 1;
    }
    assert(forall|k: int| 0 <= k < wanted.len() ==> (#[trigger] wanted[k]) is Some);
    assert(texts(strings@) =~= Seq::new(wanted.len(), |k: int| wanted[k]->0));
    Some(strings)
}

fn strings_in(items: &Vec<serde_json::Value>, pointer: &str) -> (found: Vec<Option<String>>)
    ensures
        optional_texts(found@) == strings_of(items@, pointer@),
{
    let mut found: Vec<Option<String>> = Vec::new();
    let mut i: usize = 0;
    while i < items.len()
        invariant
            i <= items.len(),
            found.len() == i,
            forall|k: int| 0 <= k < i ==> optional_text(found[k]) == json_string(items[k], pointer@),
        decreases items.len() - i,
    {
        found.push(string_at(&items[i], pointer));
        i = i + 1;
    }
    assert(optional_texts(found@) =~= strings_of(items@, pointer@));
    found
}

/// What was found in a reply of the metric provider.
#[derive(Debug, Clone, PartialEq, Eq)]
pub struct MetricReading {
    /// How many elements `items` has; `None` when the reply has no array of
    /// that name.
    pub items: Option<usize>,
    /// The string at `snippet/title` of the first item; `None` when there is
    /// no first item, or no such string in it.
    pub title: Option<String>,
    /// The string at `statistics/viewCount` of the first item; `None` when
    /// there is no first item, or no such string in it.
    pub view_count: Option<String>,
}

/// A metric reading as plain values.
pub struct MetricReadingView {
    pub items: Option<usize>,
    pub title: Option<Seq<char>>,
    pub view_count: Option<Seq<char>>,
}

impl View for MetricReading {
    type V = MetricReadingView;

    open spec fn view(&self) -> MetricReadingView {
        MetricReadingView {
            items: self.items,
            title: optional_text(self.title),
            view_count: optional_text(self.view_count),
        }
    }
}

/// An optional reading as plain values.
pub open spec fn optional_reading(reading: Option<MetricReading>) -> Option<MetricReadingView> {
    match reading {
        Some(r) => Some(r@),
        None => None,
    }
}

/// The number of elements, if there are elements to count.
pub open spec fn length_of(items: Option<Seq<serde_json::Value>>) -> Option<usize> {
    match items {
        Some(elements) => Some(elements.len() as usize),
        None => None,
    }
}

/// The string at `pointer` of a value, if there is a value.
pub open spec fn string_in(value: Option<serde_json::Value>, pointer: Seq<char>) -> Option<
    Seq<char>,
> {
    match value {
        Some(v) => json_string(v, pointer),
        None => None,
    }
}

/// What is found in a reply of the metric provider; `None` when the reply is
/// not JSON.
pub open spec fn metric_reading_of(body: Seq<char>) -> Option<MetricReadingView> {
    match json_document(body) {
        None => None,
        Some(document) => Some(
            MetricReadingView {
                items: length_of(json_items(document, "/items"@)),
                title: string_in(json_first(document, "/items"@), "/snippet/title"@),
                view_count: string_in(json_first(document, "/items"@), "/statistics/viewCount"@),
            },
        ),
    }
}

/// What a reading means for the entity `id`.
///
/// A reply that is not JSON, or has no array `items`, is malformed. An empty
/// `items` means that the provider knows no such entity. Otherwise both the
/// title and the count are required, and the count must be a decimal integer
/// that an `i64` holds; anything less is malformed.
pub open spec fn entity_of_reading(id: Seq<char>, reading: Option<MetricReadingView>) -> Result<
    EntityView,
    FetchError,
> {
    match reading {
        None => Err(FetchError::Malformed),
        Some(found) => match found.items {
            None => Err(FetchError::Malformed),
            Some(count) => if count == 0 {
                Err(FetchError::NotFound)
            } else {
                match (found.title, found.view_count) {
                    (Some(title), Some(views)) => match i64_of(views) {
                        Some(metric) => Ok(
                            EntityView { id, title: Some(title), metric: Some(metric) },
                        ),
                        None => Err(FetchError::Malformed),
                    },
                    _ => Err(FetchError::Malformed),
                }
            },
        },
    }
}

/// The result of a fetch as plain values.
pub open spec fn fetched_view(result: Result<Entity, FetchError>) -> Result<
    EntityView,
    FetchError,
> {
    match result {
        Ok(entity) => Ok(entity@),
        Err(error) => Err(error),
    }
}

/// Takes from a reply of the metric provider what it holds: the length of
/// `items`, and title and count of the first item. `None` when the reply is
/// not JSON.
pub fn read_metric_reply(body: &str) -> (reading: Option<MetricReading>)
    ensures
        optional_reading(reading) == metric_reading_of(body@),
{
    let document = match parse_json(body) {
        Some(document) => document,
        None => {
            return None;
        },
    };
    let items = match items_at(&document, "/items") {
        Some(items) => Some(items.len()),
        None => None,
    };
    let (title, view_count) = match first_at(&document, "/items") {
        Some(first) => (
            string_at(first, "/snippet/title"),
            string_at(first, "/statistics/viewCount"),
        ),
        None => (None, None),
    };
    Some(MetricReading { items, title, view_count })
}

/// Decides what a reading means for the entity `id`: a refreshed entity with
/// the title and the metric, an entity that the provider does not know, or a
/// malformed reply.
pub fn entity_from_reading(id: String, reading: Option<MetricReading>) -> (result: Result<
    Entity,
    FetchError,
>)
    ensures
        fetched_view(result) == entity_of_reading(id@, optional_reading(reading)),
{
    let found = match reading {
        Some(found) => found,
        None => {
            return Err(FetchError::Malformed);
        },
    };
    let MetricReading { items, title, view_count } = found;
    match items {
        None => Err(FetchError::Malformed),
        Some(count) => {
            if count == 0 {
                return Err(FetchError::NotFound);
            }
            match (title, view_count) {
                (Some(title), Some(views)) => match parse_i64(views.as_str()) {
                    Some(metric) => Ok(Entity { id, title: Some(title), metric: Some(metric) }),
                    None => Err(FetchError::Malformed),
                },
                _ => Err(FetchError::Malformed),
            }
        },
    }
}

/// Reads the metric provider's reply for the entity `id`.
pub fn parse_metric_reply(id: String, body: &str) -> (result: Result<Entity, FetchError>)
    ensures
        fetched_view(result) == entity_of_reading(id@, metric_reading_of(body@)),
{
    entity_from_reading(id, read_metric_reply(body))
}

/// What was found in a reply of the membership source.
#[derive(Debug, Clone, PartialEq, Eq)]
pub struct MembershipListing {
    /// For each element of `items`, the string at `snippet/resourceId/videoId`
    /// or `None` when the element has none; `None` when the reply has no array
    /// `items`.
    pub ids: Option<Vec<Option<String>>>,
    /// The string at `nextPageToken`, if there is one.
    pub next_page_token: Option<String>,
}

/// A membership listing as plain values.
pub struct MembershipListingView {
    pub ids: Option<Seq<Option<Seq<char>>>>,
    pub next_page_token: Option<Seq<char>>,
}

impl View for MembershipListing {
    type V = MembershipListingView;

    open spec fn view(&self) -> MembershipListingView {
        MembershipListingView {
            ids: match self.ids {
                Some(list) => Some(optional_texts(list@)),
                None => None,
            },
            next_page_token: optional_text(self.next_page_token),
        }
    }
}

/// An optional listing as plain values.
pub open spec fn optional_listing(listing: Option<MembershipListing>) -> Option<
    MembershipListingView,
> {
    match listing {
        Some(l) => Some(l@),
        None => None,
    }
}

/// One page of a group's membership: the ids it lists, and the token of the
/// page that follows, if one does.
#[derive(Debug, Clone, PartialEq, Eq)]
pub struct MembershipPage {
    pub ids: Vec<String>,
    pub next_page_token: Option<String>,
}

/// A membership page as plain values.
pub struct MembershipPageView {
    pub ids: Seq<Seq<char>>,
    pub next_page_token: Option<Seq<char>>,
}

impl View for MembershipPage {
    type V = MembershipPageView;

    open spec fn view(&self) -> MembershipPageView {
        MembershipPageView {
            ids: texts(self.ids@),
            next_page_token: optional_text(self.next_page_token),
        }
    }
}

/// An optional page as plain values.
pub open spec fn optional_page(page: Option<MembershipPage>) -> Option<MembershipPageView> {
    match page {
        Some(p) => Some(p@),
        None => None,
    }
}

/// What is found in a reply of the membership source; `None` when the reply
/// is not JSON.
pub open spec fn membership_listing_of(body: Seq<char>) -> Option<MembershipListingView> {
    match json_document(body) {
        None => None,
        Some(document) => Some(
            MembershipListingView {
                ids: match json_items(document, "/items"@) {
                    Some(items) => Some(strings_of(items, "/snippet/resourceId/videoId"@)),
                    None => None,
                },
                next_page_token: json_string(document, "/nextPageToken"@),
            },
        ),
    }
}

/// The page that a listing makes. A reply without an array `items` lists no
/// id. A reply that is not JSON, or an item without an id, makes the page
/// unreadable.
pub open spec fn page_of(listing: Option<MembershipListingView>) -> Option<MembershipPageView> {
    match listing {
        None => None,
        Some(found) => match found.ids {
            None => Some(
                MembershipPageView { ids: Seq::empty(), next_page_token: found.next_page_token },
            ),
            Some(ids) => match all_present(ids) {
                Some(ids) => Some(
                    MembershipPageView { ids, next_page_token: found.next_page_token },
                ),
                None => None,
            },
        },
    }
}

/// Takes from a reply of the membership source the ids of its items and the
/// token of the next page. `None` when the reply is not JSON.
pub fn read_membership_listing(body: &str) -> (listing: Option<MembershipListing>)
    ensures
        optional_listing(listing) == membership_listing_of(body@),
{
    let document = match parse_json(body) {
        Some(document) => document,
        None => {
            return None;
        },
    };
    let ids = match items_at(&document, "/items") {
        Some(items) => Some(strings_in(items, "/snippet/resourceId/videoId")),
        None => None,
    };
    Some(MembershipListing { ids, next_page_token: string_at(&document, "/nextPageToken") })
}

/// Decides what page a listing makes; `None` when the page is unreadable.
pub fn membership_page_from(listing: Option<MembershipListing>) -> (page: Option<MembershipPage>)
    ensures
        optional_page(page) == page_of(optional_listing(listing)),
{
    let found = match listing {
        Some(found) => found,
        None => {
            return None;
        },
    };
    let MembershipListing { ids, next_page_token } = found;
    match ids {
        None => {
            let ids: Vec<String> = Vec::new();
            assert(texts(ids@) =~= Seq::<Seq<char>>::empty());
            Some(MembershipPage { ids, next_page_token })
        },
        Some(ids) => match collect_present(ids) {
            Some(ids) => Some(MembershipPage { ids, next_page_token }),
            None => None,
        },
    }
}

/// Reads one page of a group's membership.
pub fn read_membership_page(body: &str) -> (page: Option<MembershipPage>)
    ensures
        optional_page(page) == page_of(membership_listing_of(body@)),
{
    membership_page_from(read_membership_listing(body))
}

/// Where the reading of a group's membership stands: the ids listed so far,
/// and the token of the page to ask for next, `None` when no page is left.
#[derive(Debug, Clone, PartialEq, Eq)]
pub struct MembershipWalk {
    pub ids: Vec<String>,
    pub next_page_token: Option<String>,
}

/// A walk as plain values.
pub struct MembershipWalkView {
    pub ids: Seq<Seq<char>>,
    pub next_page_token: Option<Seq<char>>,
}

impl View for MembershipWalk {
    type V = MembershipWalkView;

    open spec fn view(&self) -> MembershipWalkView {
        MembershipWalkView {
            ids: texts(self.ids@),
            next_page_token: optional_text(self.next_page_token),
        }
    }
}

/// The walk after a page was asked for and `page` is what came: its ids are
/// added and its token is followed. A page that could not be had or read
/// ends the walk with the ids listed so far.
pub open spec fn walked(walk: MembershipWalkView, page: Option<MembershipPageView>) -> MembershipWalkView {
    match page {
        Some(p) => MembershipWalkView { ids: walk.ids + p.ids, next_page_token: p.next_page_token },
        None => MembershipWalkView { ids: walk.ids, next_page_token: None },
    }
}

impl MembershipWalk {
    /// The walk before the first page: no ids, and the empty token, which
    /// asks for the first page.
    pub fn start() -> (walk: MembershipWalk)
        ensures
            walk@.ids == Seq::<Seq<char>>::empty(),
            walk@.next_page_token == Some(Seq::<char>::empty()),
    {
        let ids: Vec<String> = Vec::new();
        assert(texts(ids@) =~= Seq::<Seq<char>>::empty());
        MembershipWalk { ids, next_page_token: Some(String::new()) }
    }

    /// Takes the page that came for the token asked: adds its ids and
    /// follows its token, or ends the walk when no page came.
    pub fn advance(&mut self, page: Option<MembershipPage>)
        ensures
            final(self)@ == walked(old(self)@, optional_page(page)),
    {
        match page {
            Some(page) => {
                let MembershipPage { ids, next_page_token } = page;
                let ghost before = texts(self.ids@);
                let mut i: usize = 0;
                while i < ids.len()
                    invariant
                        i <= ids.len(),
                        texts(self.ids@) == before + texts(ids@).take(i as int),
                    decreases ids.len() - i,
                {
                    let ghost so_far = texts(self.ids@);
                    self.ids.push(ids[i].clone());
                    assert(texts(self.ids@) =~= so_far.push(ids[i as int]@));
                    assert(texts(ids@).take(i + 1) =~= texts(ids@).take(i as int).push(
                        ids[i as int]@,
                    ));
                    assert(texts(self.ids@) =~= before + texts(ids@).take(i + 1));
                    i = i + 1;
                }
                assert(texts(ids@).take(ids.len() as int) =~= texts(ids@));
                self.next_page_token = next_page_token;
            },
            None => {
                self.next_page_token = None;
            },
        }
    }
}

/// The text that the normalizer's reply carries: the string at `text` of the
/// first element of the array `content/parts` of the first element of the
/// array `candidates`.
pub open spec fn reply_text_of(body: Seq<char>) -> Option<Seq<char>> {
    match json_document(body) {
        Some(document) => match json_first(document, "/candidates"@) {
            Some(candidate) => string_in(json_first(candidate, "/content/parts"@), "/text"@),
            None => None,
        },
        None => None,
    }
}

/// Takes from the normalizer's reply the text that holds the structured
/// title; `None` when the reply is not JSON or carries no such text.
pub fn normalizer_reply_text(body: &str) -> (text: Option<String>)
    ensures
        optional_text(text) == reply_text_of(body@),
{
    let document = match parse_json(body) {
        Some(document) => document,
        None => {
            return None;
        },
    };
    let candidate = match first_at(&document, "/candidates") {
        Some(candidate) => candidate,
        None => {
            return None;
        },
    };
    match first_at(candidate, "/content/parts") {
        Some(part) => string_at(part, "/text"),
        None => None,
    }
}

/// The fields of a structured title as they were found in a JSON text, each
/// `None` when it was missing or of another type. A singer that is not a
/// string is `None` in the list.
#[derive(Debug, Clone, PartialEq, Eq)]
pub struct TitleFields {
    pub song_name: Option<String>,
    pub singer: Option<Vec<Option<String>>>,
    pub edition: Option<String>,
    pub version: Option<String>,
}

/// Title fields as plain values.
pub struct TitleFieldsView {
    pub song_name: Option<Seq<char>>,
    pub singer: Option<Seq<Option<Seq<char>>>>,
    pub edition: Option<Seq<char>>,
    pub version: Option<Seq<char>>,
}

impl View for TitleFields {
    type V = TitleFieldsView;

    open spec fn view(&self) -> TitleFieldsView {
        TitleFieldsView {
            song_name: optional_text(self.song_name),
            singer: match self.singer {
                Some(list) => Some(optional_texts(list@)),
                None => None,
            },
            edition: optional_text(self.edition),
            version: optional_text(self.version),
        }
    }
}

/// The fields that a JSON text holds under the names `song_name`, `singer`,
/// `edition` and `version`; `None` when the text is not JSON.
pub open spec fn title_fields_of(text: Seq<char>) -> Option<TitleFieldsView> {
    match json_document(text) {
        None => None,
        Some(document) => Some(
            TitleFieldsView {
                song_name: json_string(document, "/song_name"@),
                singer: match json_items(document, "/singer"@) {
                    Some(items) => Some(strings_of(items, ""@)),
                    None => None,
                },
                edition: json_string(document, "/edition"@),
                version: json_string(document, "/version"@),
            },
        ),
    }
}

/// The structured title that fields make: all four must be there, with the
/// right type, and every singer must be a string. Nothing less is accepted: a
/// reply that does not conform is a failure, not a partial success.
pub open spec fn structured_title_of(fields: TitleFieldsView) -> Option<StructuredTitleView> {
    match (fields.song_name, fields.singer, fields.edition, fields.version) {
        (Some(song_name), Some(singer), Some(edition), Some(version)) => match all_present(
            singer,
        ) {
            Some(singer) => Some(StructuredTitleView { song_name, singer, edition, version }),
            None => None,
        },
        _ => None,
    }
}

/// Takes the fields of a structured title from a JSON text.
pub fn read_title_fields(text: &str) -> (fields: Option<TitleFields>)
    ensures
        match fields {
            Some(f) => title_fields_of(text@) == Some(f@),
            None => title_fields_of(text@) is None,
        },
{
    let document = match parse_json(text) {
        Some(document) => document,
        None => {
            return None;
        },
    };
    let singer = match items_at(&document, "/singer") {
        Some(items) => Some(strings_in(items, "")),
        None => None,
    };
    Some(
        TitleFields {
            song_name: string_at(&document, "/song_name"),
            singer,
            edition: string_at(&document, "/edition"),
            version: string_at(&document, "/version"),
        },
    )
}

/// Makes a structured title of the fields that were found, if they conform.
pub fn structured_title_from_fields(fields: TitleFields) -> (title: Option<StructedSongTitle>)
    ensures
        optional_title(title) == structured_title_of(fields@),
{
    let TitleFields { song_name, singer, edition, version } = fields;
    match (song_name, singer, edition, version) {
        (Some(song_name), Some(singer), Some(edition), Some(version)) => {
            match collect_present(singer) {
                Some(singer) => Some(StructedSongTitle { song_name, singer, edition, version }),
                None => None,
            }
        },
        _ => None,
    }
}

/// Reads a structured title from the JSON text of the normalizer.
pub fn parse_structured_title(text: &str) -> (title: Option<StructedSongTitle>)
    ensures
        optional_title(title) == match title_fields_of(text@) {
            Some(fields) => structured_title_of(fields),
            None => None,
        },
{
    match read_title_fields(text) {
        Some(fields) => structured_title_from_fields(fields),
        None => None,
    }
}

} // verus!
