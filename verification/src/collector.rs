//! Collecting a channel's videos page by page.
//!
//! The collector makes no request itself. It says which address to fetch next
//! and takes what came back; see `start` and `step`.

use vstd::prelude::*;
use vstd::string::StringExecFns;
use crate::text::same_text;

verus! {

/// Address of the search endpoint.
pub const BASE_URL_SEARCH: &'static str = "https://www.googleapis.com/youtube/v3/search";

/// Address of the details endpoint.
pub const BASE_URL_VIDEOS: &'static str = "https://www.googleapis.com/youtube/v3/videos";

/// What a video's address starts with; its identifier follows.
pub const VIDEO_URL_PREFIX: &'static str = "https://www.youtube.com/watch?v=";

/// The kind marker of a search result that is a playable video.
pub const VIDEO_KIND: &'static str = "youtube#video";

/// What a search result is: its kind marker and, for a video, its identifier.
#[derive(Clone, Debug, PartialEq, Eq)]
pub struct Id {
    pub kind: String,
    pub video_id: Option<String>,
}

/// Title and publish date of a search result.
#[derive(Clone, Debug, PartialEq, Eq)]
pub struct Snippet {
    pub title: String,
    pub published_at: String,
}

/// One search result.
#[derive(Clone, Debug, PartialEq, Eq)]
pub struct Item {
    pub id: Id,
    pub snippet: Snippet,
}

/// One page of search results, with the token of the next page if there is one.
#[derive(Clone, Debug, PartialEq, Eq)]
pub struct ApiResponse {
    pub items: Vec<Item>,
    pub next_page_token: Option<String>,
}

/// One collected video.
#[derive(Clone, Debug, PartialEq, Eq)]
pub struct Video {
    pub title: String,
    pub url: String,
    pub publish_date: String,
    pub length_minutes: String,
}

/// The text of an optional string.
pub open spec fn option_text(value: Option<String>) -> Option<Seq<char>> {
    match value {
        Some(text) => Some(text@),
        None => None,
    }
}

/// The texts of a list of strings.
pub open spec fn texts(list: Seq<String>) -> Seq<Seq<char>> {
    Seq::new(list.len(), |i: int| list[i]@)
}

/// What an `Item` holds.
pub struct ItemText {
    pub kind: Seq<char>,
    pub video_id: Option<Seq<char>>,
    pub title: Seq<char>,
    pub published_at: Seq<char>,
}

impl View for Item {
    type V = ItemText;

    open spec fn view(&self) -> ItemText {
        ItemText {
            kind: self.id.kind@,
            video_id: option_text(self.id.video_id),
            title: self.snippet.title@,
            published_at: self.snippet.published_at@,
        }
    }
}

/// What a list of items holds.
pub open spec fn item_texts(list: Seq<Item>) -> Seq<ItemText> {
    Seq::new(list.len(), |i: int| list[i]@)
}

/// What an `ApiResponse` holds.
pub struct PageText {
    pub items: Seq<ItemText>,
    pub next_page_token: Option<Seq<char>>,
}

impl View for ApiResponse {
    type V = PageText;

    open spec fn view(&self) -> PageText {
        PageText {
            items: item_texts(self.items@),
            next_page_token: option_text(self.next_page_token),
        }
    }
}

/// What a `Video` holds.
pub struct VideoText {
    pub title: Seq<char>,
    pub url: Seq<char>,
    pub publish_date: Seq<char>,
    pub length_minutes: Seq<char>,
}

impl View for Video {
    type V = VideoText;

    open spec fn view(&self) -> VideoText {
        VideoText {
            title: self.title@,
            url: self.url@,
            publish_date: self.publish_date@,
            length_minutes: self.length_minutes@,
        }
    }
}

/// What a list of videos holds.
pub open spec fn video_texts(list: Seq<Video>) -> Seq<VideoText> {
    Seq::new(list.len(), |i: int| list[i]@)
}

/// The address that asks for a page of a channel's videos, most recent first,
/// fifty at most; with the page token where one is given.
pub open spec fn search_url_text(
    api_key: Seq<char>,
    channel_id: Seq<char>,
    page_token: Option<Seq<char>>,
) -> Seq<char> {
    let first = BASE_URL_SEARCH@ + "?key="@ + api_key + "&channelId="@ + channel_id
        + "&part=snippet&order=date&maxResults=50"@;
    match page_token {
        Some(token) => first + "&pageToken="@ + token,
        None => first,
    }
}

/// The address that asks for the details of the videos named in `video_ids`.
pub open spec fn details_url_text(api_key: Seq<char>, video_ids: Seq<char>) -> Seq<char> {
    BASE_URL_VIDEOS@ + "?key="@ + api_key + "&id="@ + video_ids + "&part=contentDetails"@
}

/// Builds the address of a search request.
pub fn search_url(api_key: &str, channel_id: &str, page_token: &Option<String>) -> (url: String)
    ensures
        url@ == search_url_text(api_key@, channel_id@, option_text(*page_token)),
{
    let mut url = String::from_str(BASE_URL_SEARCH);
    url.append("?key=");
    url.append(api_key);
    url.append("&channelId=");
    url.append(channel_id);
    url.append("&part=snippet&order=date&maxResults=50");
    match page_token {
        Some(token) => {
            url.append("&pageToken=");
            url.append(token.as_str());
        },
        None => {},
    }
    url
}

/// Builds the address of a details request for the identifiers in `video_ids`,
/// which are separated by commas.
pub fn details_url(api_key: &str, video_ids: &str) -> (url: String)
    ensures
        url@ == details_url_text(api_key@, video_ids@),
{
    let mut url = String::from_str(BASE_URL_VIDEOS);
    url.append("?key=");
    url.append(api_key);
    url.append("&id=");
    url.append(video_ids);
    url.append("&part=contentDetails");
    url
}

/// Whether a search result is kept: it is of the video kind and has an
/// identifier.
pub open spec fn is_playable(item: ItemText) -> bool {
    item.kind == VIDEO_KIND@ && item.video_id is Some
}

/// Whether a search result is kept.
pub fn playable_test(item: &Item) -> (keep: bool)
    ensures
        keep == is_playable(item@),
{
    same_text(item.id.kind.as_str(), VIDEO_KIND) && item.id.video_id.is_some()
}

/// The identifiers of the results that are kept, in page order.
pub open spec fn ids_of(items: Seq<ItemText>) -> Seq<Seq<char>>
    decreases items.len(),
{
    if items.len() == 0 {
        Seq::empty()
    } else if is_playable(items.last()) {
        ids_of(items.drop_last()).push(items.last().video_id.unwrap())
    } else {
        ids_of(items.drop_last())
    }
}

/// The identifiers of the results that are kept, in page order.
pub fn video_ids(items: &Vec<Item>) -> (ids: Vec<String>)
    ensures
        texts(ids@) == ids_of(item_texts(items@)),
{
    let mut ids: Vec<String> = Vec::new();
    let mut i: usize = 0;
    let ghost all = item_texts(items@);
    while i < items.len()
        invariant
            i <= items.len(),
            all == item_texts(items@),
            texts(ids@) == ids_of(all.take(i as int)),
        decreases items.len() - i,
    {
        proof {
            assert(all.take(i + 1).drop_last() == all.take(i as int));
            assert(all.take(i + 1).last() == items@[i as int]@);
        }
        if playable_test(&items[i]) {
            match &items[i].id.video_id {
                Some(id) => {
                    let ghost before = ids@;
                    ids.push(id.clone());
                    proof {
                        assert(texts(ids@) == texts(before).push(id@));
                    }
                },
                None => {},
            }
        }
        i += 1;
    }
    proof {
        assert(all.take(items.len() as int) == all);
    }
    ids
}

/// The texts of `list` in one text, a comma between each two.
pub open spec fn joined(list: Seq<Seq<char>>) -> Seq<char>
    decreases list.len(),
{
    if list.len() == 0 {
        Seq::empty()
    } else if list.len() == 1 {
        list[0]
    } else {
        joined(list.drop_last()) + seq![','] + list.last()
    }
}

/// Joins identifiers with commas.
pub fn join_ids(ids: &Vec<String>) -> (text: String)
    ensures
        text@ == joined(texts(ids@)),
{
    let mut text = String::new();
    let mut i: usize = 0;
    let ghost all = texts(ids@);
    while i < ids.len()
        invariant
            i <= ids.len(),
            all == texts(ids@),
            text@ == joined(all.take(i as int)),
        decreases ids.len() - i,
    {
        proof {
            assert(all.take(i + 1).drop_last() == all.take(i as int));
            assert(all.take(i + 1).last() == ids@[i as int]@);
            assert(Seq::<char>::empty() + ids@[i as int]@ == ids@[i as int]@);
        }
        if i > 0 {
            text.push(',');
        }
        text.append(ids[i].as_str());
        proof {
            if i > 0 {
                assert(joined(all.take(i as int)).push(',') == joined(all.take(i as int)) + seq![
                    ',',
                ]);
            }
        }
        i += 1;
    }
    proof {
        assert(all.take(ids.len() as int) == all);
    }
    text
}

/// The video that a kept result and its duration make.
pub open spec fn entry_of(item: ItemText, duration: Seq<char>) -> VideoText {
    VideoText {
        title: item.title,
        url: VIDEO_URL_PREFIX@ + item.video_id.unwrap(),
        publish_date: item.published_at,
        length_minutes: duration,
    }
}

/// The results of a page that are kept, in page order.
pub open spec fn kept(items: Seq<ItemText>) -> Seq<ItemText>
    decreases items.len(),
{
    if items.len() == 0 {
        Seq::empty()
    } else if is_playable(items.last()) {
        kept(items.drop_last()).push(items.last())
    } else {
        kept(items.drop_last())
    }
}

/// How many kept results have a duration: the shorter of the two counts.
pub open spec fn overlap(results: nat, durations: nat) -> nat {
    if results <= durations {
        results
    } else {
        durations
    }
}

/// The videos that a page and a batch of durations make. The kept results and
/// the durations are paired by position: the first duration goes to the first
/// kept result, and so on. What lies beyond the shorter of the two is dropped.
pub open spec fn enriched(items: Seq<ItemText>, durations: Seq<Seq<char>>) -> Seq<VideoText> {
    Seq::new(
        overlap(kept(items).len(), durations.len()),
        |i: int| entry_of(kept(items)[i], durations[i]),
    )
}

/// The identifiers asked for are those of the kept results, one for one.
pub proof fn lemma_ids_of_kept(items: Seq<ItemText>)
    ensures
        ids_of(items).len() == kept(items).len(),
        forall|i: int|
            0 <= i < kept(items).len() ==> is_playable(#[trigger] kept(items)[i]) && ids_of(
                items,
            )[i] == kept(items)[i].video_id.unwrap(),
    decreases items.len(),
{
    if items.len() > 0 {
        lemma_ids_of_kept(items.drop_last());
    }
}

/// Pairs the kept results of a page with a batch of durations, by position,
/// and makes a video of each pair.
pub fn enrich(items: &Vec<Item>, durations: &Vec<String>) -> (videos: Vec<Video>)
    ensures
        video_texts(videos@) == enriched(item_texts(items@), texts(durations@)),
{
    let mut videos: Vec<Video> = Vec::new();
    let mut i: usize = 0;
    let ghost all = item_texts(items@);
    let ghost lengths = texts(durations@);
    proof {
        assert(all.take(0) == Seq::<ItemText>::empty());
        assert(video_texts(videos@) == enriched(all.take(0), lengths));
    }
    while i < items.len()
        invariant
            i <= items.len(),
            all == item_texts(items@),
            lengths == texts(durations@),
            video_texts(videos@) == enriched(all.take(i as int), lengths),
        decreases items.len() - i,
    {
        let item = &items[i];
        let ghost seen = kept(all.take(i as int));
        proof {
            assert(all.take(i + 1).drop_last() == all.take(i as int));
            assert(all.take(i + 1).last() == item@);
            assert(video_texts(videos@).len() == videos@.len());
            assert(enriched(all.take(i as int), lengths).len() == overlap(
                seen.len(),
                lengths.len(),
            ));
            assert(lengths.len() == durations@.len());
        }
        if playable_test(item) && videos.len() < durations.len() {
            match &item.id.video_id {
                Some(id) => {
                    let at = videos.len();
                    let mut url = String::from_str(VIDEO_URL_PREFIX);
                    url.append(id.as_str());
                    let video = Video {
                        title: item.snippet.title.clone(),
                        url,
                        publish_date: item.snippet.published_at.clone(),
                        length_minutes: durations[at].clone(),
                    };
                    let ghost before = videos@;
                    videos.push(video);
                    proof {
                        assert(at == seen.len());
                        assert(video_texts(videos@) == video_texts(before).push(
                            entry_of(item@, lengths[at as int]),
                        ));
                        assert(video_texts(videos@) == enriched(all.take(i + 1), lengths));
                    }
                },
                None => {},
            }
        } else {
            proof {
                assert(video_texts(videos@) == enriched(all.take(i + 1), lengths));
            }
        }
        i += 1;
    }
    proof {
        assert(all.take(items.len() as int) == all);
    }
    videos
}

/// A short batch of durations drops the last kept results, and nothing else:
/// the page gives as many videos as the shorter of kept results and durations
/// has entries, and the video at each place is made of the kept result and the
/// duration at that place.
pub proof fn lemma_enrich_truncates(items: Seq<ItemText>, durations: Seq<Seq<char>>)
    ensures
        enriched(items, durations).len() == overlap(kept(items).len(), durations.len()),
        forall|i: int|
            0 <= i < enriched(items, durations).len() ==> is_playable(kept(items)[i])
                && #[trigger] enriched(items, durations)[i] == entry_of(
                kept(items)[i],
                durations[i],
            ),
{
    lemma_ids_of_kept(items);
}

/// Where every result of the page is kept, the kept results are the page.
pub proof fn lemma_kept_all(items: Seq<ItemText>)
    requires
        forall|k: int| 0 <= k < items.len() ==> is_playable(#[trigger] items[k]),
    ensures
        kept(items) == items,
    decreases items.len(),
{
    if items.len() > 0 {
        let front = items.drop_last();
        assert forall|k: int| 0 <= k < front.len() implies is_playable(#[trigger] front[k]) by {
            assert(front[k] == items[k]);
        }
        lemma_kept_all(front);
        assert(front.push(items.last()) == items);
    }
}

/// On a page of kept results only, a batch of durations gives a video for each
/// position that the two share, made of the result and the duration at that
/// position.
pub proof fn lemma_enrich_whole_page(items: Seq<ItemText>, durations: Seq<Seq<char>>)
    requires
        forall|k: int| 0 <= k < items.len() ==> is_playable(#[trigger] items[k]),
    ensures
        enriched(items, durations).len() == overlap(items.len(), durations.len()),
        forall|i: int|
            0 <= i < enriched(items, durations).len() ==> #[trigger] enriched(items, durations)[i]
                == entry_of(items[i], durations[i]),
{
    lemma_kept_all(items);
}

/// Where the batch holds a duration for each kept result, the page gives as
/// many videos as it has kept results.
pub proof fn lemma_enriched_len(items: Seq<ItemText>, durations: Seq<Seq<char>>)
    requires
        durations.len() >= ids_of(items).len(),
    ensures
        enriched(items, durations).len() == ids_of(items).len(),
{
    lemma_ids_of_kept(items);
}

/// What to do when a response does not have the expected shape: end the run
/// and keep what was collected, or end it and give nothing.
#[derive(Clone, Copy, Debug, PartialEq, Eq)]
pub enum OnParseError {
    AbortPartial,
    AbortFatal,
}

/// What the collector waits for.
#[derive(Clone, Debug, PartialEq, Eq)]
pub enum Phase {
    /// A page of search results.
    AwaitingPage,
    /// The durations for the page held here.
    AwaitingDetails { items: Vec<Item>, next_page_token: Option<String> },
    /// Nothing: the last page has been taken in.
    Finished,
    /// Nothing: the run was given up.
    Failed,
}

/// A run of the collector: what it was asked for, what it has so far, and what
/// it waits for.
#[derive(Clone, Debug, PartialEq, Eq)]
pub struct Collector {
    pub api_key: String,
    pub channel_id: String,
    pub on_parse_error: OnParseError,
    pub videos: Vec<Video>,
    pub phase: Phase,
}

/// What came back from outside.
#[derive(Clone, Debug, PartialEq, Eq)]
pub enum Event {
    /// A page of search results.
    Page(ApiResponse),
    /// The durations of a details response, in the human form, in the order
    /// of the response.
    Details(Vec<String>),
    /// A response that did not have the expected shape.
    Failure,
}

/// What the collector asks for next.
#[derive(Clone, Debug, PartialEq, Eq)]
pub enum Action {
    /// Fetch the page of search results at this address.
    FetchPage(String),
    /// Fetch the details at this address.
    FetchDetails(String),
    /// The run is over; the videos can be taken.
    Finish,
    /// The run was given up.
    Abort,
}

/// What a `Phase` holds.
pub enum PhaseText {
    AwaitingPage,
    AwaitingDetails { items: Seq<ItemText>, next_page_token: Option<Seq<char>> },
    Finished,
    Failed,
}

impl View for Phase {
    type V = PhaseText;

    open spec fn view(&self) -> PhaseText {
        match *self {
            Phase::AwaitingPage => PhaseText::AwaitingPage,
            Phase::AwaitingDetails { items, next_page_token } => PhaseText::AwaitingDetails {
                items: item_texts(items@),
                next_page_token: option_text(next_page_token),
            },
            Phase::Finished => PhaseText::Finished,
            Phase::Failed => PhaseText::Failed,
        }
    }
}

/// What a `Collector` holds.
pub struct CollectorText {
    pub api_key: Seq<char>,
    pub channel_id: Seq<char>,
    pub on_parse_error: OnParseError,
    pub videos: Seq<VideoText>,
    pub phase: PhaseText,
}

impl View for Collector {
    type V = CollectorText;

    open spec fn view(&self) -> CollectorText {
        CollectorText {
            api_key: self.api_key@,
            channel_id: self.channel_id@,
            on_parse_error: self.on_parse_error,
            videos: video_texts(self.videos@),
            phase: self.phase@,
        }
    }
}

/// What an `Event` holds.
pub enum EventText {
    Page(PageText),
    Details(Seq<Seq<char>>),
    Failure,
}

impl View for Event {
    type V = EventText;

    open spec fn view(&self) -> EventText {
        match *self {
            Event::Page(page) => EventText::Page(page@),
            Event::Details(durations) => EventText::Details(texts(durations@)),
            Event::Failure => EventText::Failure,
        }
    }
}

/// What an `Action` holds.
pub enum ActionText {
    FetchPage(Seq<char>),
    FetchDetails(Seq<char>),
    Finish,
    Abort,
}

impl View for Action {
    type V = ActionText;

    open spec fn view(&self) -> ActionText {
        match *self {
            Action::FetchPage(url) => ActionText::FetchPage(url@),
            Action::FetchDetails(url) => ActionText::FetchDetails(url@),
            Action::Finish => ActionText::Finish,
            Action::Abort => ActionText::Abort,
        }
    }
}

/// A run that has collected nothing yet and waits for its first page.
pub open spec fn initial(
    api_key: Seq<char>,
    channel_id: Seq<char>,
    on_parse_error: OnParseError,
) -> CollectorText {
    CollectorText {
        api_key,
        channel_id,
        on_parse_error,
        videos: Seq::empty(),
        phase: PhaseText::AwaitingPage,
    }
}

/// After a page is done: on to the page that its token names, or the end of
/// the run where it has none.
pub open spec fn advance(state: CollectorText, next_page_token: Option<Seq<char>>) -> (
    CollectorText,
    ActionText,
) {
    match next_page_token {
        Some(token) => (
            CollectorText { phase: PhaseText::AwaitingPage, ..state },
            ActionText::FetchPage(search_url_text(state.api_key, state.channel_id, Some(token))),
        ),
        None => (CollectorText { phase: PhaseText::Finished, ..state }, ActionText::Finish),
    }
}

/// The end of a run on a response without the expected shape.
pub open spec fn give_up(state: CollectorText) -> (CollectorText, ActionText) {
    match state.on_parse_error {
        OnParseError::AbortPartial => (
            CollectorText { phase: PhaseText::Finished, ..state },
            ActionText::Finish,
        ),
        OnParseError::AbortFatal => (
            CollectorText { phase: PhaseText::Failed, videos: Seq::empty(), ..state },
            ActionText::Abort,
        ),
    }
}

/// One step of a run: the state after `event`, and what to do next.
///
/// A page with kept results asks for their details; a page without any goes on
/// as if its details had come. Details add the page's videos to the
/// collection. An event that the phase does not wait for counts as a response
/// without the expected shape. A run that is over stays as it is.
pub open spec fn step_text(state: CollectorText, event: EventText) -> (CollectorText, ActionText) {
    match state.phase {
        PhaseText::AwaitingPage => match event {
            EventText::Page(page) => if ids_of(page.items).len() > 0 {
                (
                    CollectorText {
                        phase: PhaseText::AwaitingDetails {
                            items: page.items,
                            next_page_token: page.next_page_token,
                        },
                        ..state
                    },
                    ActionText::FetchDetails(
                        details_url_text(state.api_key, joined(ids_of(page.items))),
                    ),
                )
            } else {
                advance(state, page.next_page_token)
            },
            _ => give_up(state),
        },
        PhaseText::AwaitingDetails { items, next_page_token } => match event {
            EventText::Details(durations) => advance(
                CollectorText { videos: state.videos + enriched(items, durations), ..state },
                next_page_token,
            ),
            _ => give_up(state),
        },
        PhaseText::Finished => (state, ActionText::Finish),
        PhaseText::Failed => (state, ActionText::Abort),
    }
}

/// Begins a run for a channel: nothing collected, and the first page to fetch.
pub fn start(api_key: String, channel_id: String, on_parse_error: OnParseError) -> (begun: (
    Collector,
    Action,
))
    ensures
        begun.0@ == initial(api_key@, channel_id@, on_parse_error),
        begun.1@ == ActionText::FetchPage(search_url_text(api_key@, channel_id@, None)),
{
    let url = search_url(api_key.as_str(), channel_id.as_str(), &None);
    let state = Collector {
        api_key,
        channel_id,
        on_parse_error,
        videos: Vec::new(),
        phase: Phase::AwaitingPage,
    };
    proof {
        assert(video_texts(state.videos@) == Seq::<VideoText>::empty());
    }
    (state, Action::FetchPage(url))
}

/// `advance`, on a run.
fn advance_run(state: Collector, next_page_token: Option<String>) -> (next: (Collector, Action))
    ensures
        (next.0@, next.1@) == advance(state@, option_text(next_page_token)),
{
    let Collector { api_key, channel_id, on_parse_error, videos, phase: _ } = state;
    match next_page_token {
        Some(token) => {
            let url = search_url(api_key.as_str(), channel_id.as_str(), &Some(token));
            (
                Collector { api_key, channel_id, on_parse_error, videos, phase: Phase::AwaitingPage },
                Action::FetchPage(url),
            )
        },
        None => (
            Collector { api_key, channel_id, on_parse_error, videos, phase: Phase::Finished },
            Action::Finish,
        ),
    }
}

/// `give_up`, on a run.
fn give_up_run(state: Collector) -> (next: (Collector, Action))
    ensures
        (next.0@, next.1@) == give_up(state@),
{
    let Collector { api_key, channel_id, on_parse_error, videos, phase: _ } = state;
    match on_parse_error {
        OnParseError::AbortPartial => (
            Collector { api_key, channel_id, on_parse_error, videos, phase: Phase::Finished },
            Action::Finish,
        ),
        OnParseError::AbortFatal => {
            let none: Vec<Video> = Vec::new();
            proof {
                assert(video_texts(none@) == Seq::<VideoText>::empty());
            }
            (
                Collector { api_key, channel_id, on_parse_error, videos: none, phase: Phase::Failed },
                Action::Abort,
            )
        },
    }
}

/// Takes one event and says what to do next.
pub fn step(state: Collector, event: Event) -> (next: (Collector, Action))
    ensures
        (next.0@, next.1@) == step_text(state@, event@),
{
    let Collector { api_key, channel_id, on_parse_error, videos, phase } = state;
    match phase {
        Phase::AwaitingPage => match event {
            Event::Page(page) => {
                let ApiResponse { items, next_page_token } = page;
                let ids = video_ids(&items);
                if ids.len() > 0 {
                    let url = details_url(api_key.as_str(), join_ids(&ids).as_str());
                    (
                        Collector {
                            api_key,
                            channel_id,
                            on_parse_error,
                            videos,
                            phase: Phase::AwaitingDetails { items, next_page_token },
                        },
                        Action::FetchDetails(url),
                    )
                } else {
                    advance_run(
                        Collector {
                            api_key,
                            channel_id,
                            on_parse_error,
                            videos,
                            phase: Phase::AwaitingPage,
                        },
                        next_page_token,
                    )
                }
            },
            _ => give_up_run(
                Collector { api_key, channel_id, on_parse_error, videos, phase: Phase::AwaitingPage },
            ),
        },
        Phase::AwaitingDetails { items, next_page_token } => match event {
            Event::Details(durations) => {
                let mut videos = videos;
                let mut found = enrich(&items, &durations);
                let ghost before = videos@;
                let ghost added = found@;
                videos.append(&mut found);
                proof {
                    assert(video_texts(videos@) == video_texts(before) + video_texts(added));
                }
                advance_run(
                    Collector {
                        api_key,
                        channel_id,
                        on_parse_error,
                        videos,
                        phase: Phase::AwaitingPage,
                    },
                    next_page_token,
                )
            },
            _ => give_up_run(
                Collector {
                    api_key,
                    channel_id,
                    on_parse_error,
                    videos,
                    phase: Phase::AwaitingDetails { items, next_page_token },
                },
            ),
        },
        Phase::Finished => (
            Collector { api_key, channel_id, on_parse_error, videos, phase: Phase::Finished },
            Action::Finish,
        ),
        Phase::Failed => (
            Collector { api_key, channel_id, on_parse_error, videos, phase: Phase::Failed },
            Action::Abort,
        ),
    }
}

/// The collection of a run that has finished; `None` for any other run.
pub fn into_videos(state: Collector) -> (videos: Option<Vec<Video>>)
    ensures
        videos is Some <==> state@.phase is Finished,
        videos is Some ==> video_texts(videos.unwrap()@) == state@.videos,
{
    match state.phase {
        Phase::Finished => Some(state.videos),
        _ => None,
    }
}

/// One visit of a page as the outside answered it: the page, and the durations
/// that came for it. The durations count only where the page has kept results.
pub struct Exchange {
    pub page: PageText,
    pub durations: Seq<Seq<char>>,
}

/// The state after a whole visit: the page and, where the collector asks for
/// them, the durations.
pub open spec fn visit(state: CollectorText, exchange: Exchange) -> CollectorText {
    let after_page = step_text(state, EventText::Page(exchange.page)).0;
    if after_page.phase is AwaitingDetails {
        step_text(after_page, EventText::Details(exchange.durations)).0
    } else {
        after_page
    }
}

/// The state after a row of visits.
pub open spec fn visit_all(state: CollectorText, exchanges: Seq<Exchange>) -> CollectorText
    decreases exchanges.len(),
{
    if exchanges.len() == 0 {
        state
    } else {
        visit(visit_all(state, exchanges.drop_last()), exchanges.last())
    }
}

/// The videos that one visit gives.
pub open spec fn page_videos(exchange: Exchange) -> Seq<VideoText> {
    if ids_of(exchange.page.items).len() > 0 {
        enriched(exchange.page.items, exchange.durations)
    } else {
        Seq::empty()
    }
}

/// The videos that a row of visits gives, in order.
pub open spec fn all_page_videos(exchanges: Seq<Exchange>) -> Seq<VideoText>
    decreases exchanges.len(),
{
    if exchanges.len() == 0 {
        Seq::empty()
    } else {
        all_page_videos(exchanges.drop_last()) + page_videos(exchanges.last())
    }
}

/// How many videos a row of visits gives, page by page.
pub open spec fn given_total(exchanges: Seq<Exchange>) -> nat
    decreases exchanges.len(),
{
    if exchanges.len() == 0 {
        0
    } else {
        given_total(exchanges.drop_last()) + page_videos(exchanges.last()).len()
    }
}

/// How many kept results the pages of a row of visits hold.
pub open spec fn kept_total(exchanges: Seq<Exchange>) -> nat
    decreases exchanges.len(),
{
    if exchanges.len() == 0 {
        0
    } else {
        kept_total(exchanges.drop_last()) + ids_of(exchanges.last().page.items).len()
    }
}

/// Whether every page but the last names a next page, and the last names none.
pub open spec fn ends_at_last(exchanges: Seq<Exchange>) -> bool {
    forall|k: int|
        0 <= k < exchanges.len() ==> ((#[trigger] exchanges[k]).page.next_page_token is Some <==> k
            < exchanges.len() - 1)
}

/// Whether, in every visit, the batch holds at least as many durations as the
/// page has kept results.
pub open spec fn all_answered(exchanges: Seq<Exchange>) -> bool {
    forall|k: int|
        0 <= k < exchanges.len() ==> (#[trigger] exchanges[k]).durations.len() >= ids_of(
            exchanges[k].page.items,
        ).len()
}

/// What one visit does to a run that waits for a page.
proof fn lemma_visit(state: CollectorText, exchange: Exchange)
    requires
        state.phase is AwaitingPage,
    ensures
        visit(state, exchange) == (CollectorText {
            videos: state.videos + page_videos(exchange),
            phase: if exchange.page.next_page_token is Some {
                PhaseText::AwaitingPage
            } else {
                PhaseText::Finished
            },
            ..state
        }),
{
    assert(state.videos + Seq::<VideoText>::empty() == state.videos);
}

/// While every page names a next page, the run collects and goes on waiting.
proof fn lemma_visit_while_tokens(state: CollectorText, exchanges: Seq<Exchange>)
    requires
        state.phase is AwaitingPage,
        forall|k: int|
            0 <= k < exchanges.len() ==> (#[trigger] exchanges[k]).page.next_page_token is Some,
    ensures
        visit_all(state, exchanges) == (CollectorText {
            videos: state.videos + all_page_videos(exchanges),
            ..state
        }),
    decreases exchanges.len(),
{
    if exchanges.len() == 0 {
        assert(state.videos + Seq::<VideoText>::empty() == state.videos);
    } else {
        let front = exchanges.drop_last();
        assert forall|k: int| 0 <= k < front.len() implies (
        #[trigger] front[k]).page.next_page_token is Some by {
            assert(front[k] == exchanges[k]);
        }
        lemma_visit_while_tokens(state, front);
        lemma_visit(visit_all(state, front), exchanges.last());
        assert(state.videos + all_page_videos(front) + page_videos(exchanges.last())
            == state.videos + all_page_videos(exchanges));
    }
}

/// The videos of a row of visits, counted.
proof fn lemma_totals(exchanges: Seq<Exchange>)
    ensures
        all_page_videos(exchanges).len() == given_total(exchanges),
        all_answered(exchanges) ==> given_total(exchanges) == kept_total(exchanges),
    decreases exchanges.len(),
{
    if exchanges.len() > 0 {
        let front = exchanges.drop_last();
        let last = exchanges.last();
        lemma_totals(front);
        if all_answered(exchanges) {
            assert forall|k: int| 0 <= k < front.len() implies (#[trigger] front[k]).durations.len()
                >= ids_of(front[k].page.items).len() by {
                assert(front[k] == exchanges[k]);
            }
            assert(exchanges[exchanges.len() - 1].durations.len() >= ids_of(last.page.items).len());
            lemma_enriched_len(last.page.items, last.durations);
        }
    }
}

/// A run goes on for as long as the pages name a next page and ends with the
/// first page that names none. It then holds the videos of every page visited,
/// in order, and their number is the sum of what each page gave. Where every
/// batch held a duration for each kept result of its page, that is the number
/// of kept results on all the pages. A run that has ended takes no further
/// event.
pub proof fn lemma_pagination(state: CollectorText, exchanges: Seq<Exchange>)
    requires
        state.phase is AwaitingPage,
        exchanges.len() > 0,
        ends_at_last(exchanges),
    ensures
        forall|n: int|
            0 <= n < exchanges.len() ==> (#[trigger] visit_all(
                state,
                exchanges.take(n),
            )).phase is AwaitingPage,
        visit_all(state, exchanges).phase is Finished,
        visit_all(state, exchanges).videos == state.videos + all_page_videos(exchanges),
        visit_all(state, exchanges).videos.len() == state.videos.len() + given_total(exchanges),
        all_answered(exchanges) ==> visit_all(state, exchanges).videos.len() == state.videos.len()
            + kept_total(exchanges),
        forall|event: EventText| #[trigger]
            step_text(visit_all(state, exchanges), event) == (
                visit_all(state, exchanges),
                ActionText::Finish,
            ),
{
    assert forall|n: int| 0 <= n < exchanges.len() implies (#[trigger] visit_all(
        state,
        exchanges.take(n),
    )).phase is AwaitingPage by {
        let seen = exchanges.take(n);
        assert forall|k: int| 0 <= k < seen.len() implies (
        #[trigger] seen[k]).page.next_page_token is Some by {
            assert(seen[k] == exchanges[k]);
        }
        lemma_visit_while_tokens(state, seen);
    }
    let front = exchanges.drop_last();
    assert(front == exchanges.take(exchanges.len() - 1));
    assert forall|k: int| 0 <= k < front.len() implies (
    #[trigger] front[k]).page.next_page_token is Some by {
        assert(front[k] == exchanges[k]);
    }
    lemma_visit_while_tokens(state, front);
    assert(exchanges[exchanges.len() - 1].page.next_page_token is None);
    lemma_visit(visit_all(state, front), exchanges.last());
    assert(state.videos + all_page_videos(front) + page_videos(exchanges.last()) == state.videos
        + all_page_videos(exchanges));
    lemma_totals(exchanges);
}

} // verus!
