//! Marking a video as watched and playing it.
//!
//! The rules are a state machine. It touches neither the table of watched
//! addresses nor the player: it says what to do next and takes what came of it.

use vstd::prelude::*;
use vstd::multiset::Multiset;
use crate::text::{replace_all, replaced};

verus! {

/// What the long form of a video's address starts with.
pub const LONG_PREFIX: &'static str = "https://www.youtube.com/watch?v=";

/// What the short form of a video's address starts with.
pub const SHORT_PREFIX: &'static str = "https://youtu.be/";

/// The program that plays a video.
pub const PLAYER: &'static str = "mpv";

/// The option that the player is started with.
pub const PLAYER_OPTION: &'static str = "--speed=1.5";

/// The answer to a request that names no address.
pub const MISSING_URL: &'static str = "Missing url parameter";

/// The answer after the player has run and reported success.
pub const PLAYED: &'static str = "Video marked as watched and opened with mpv";

/// The answer after the player could not be run or reported a failure.
pub const NOT_PLAYED: &'static str = "Failed to open video with mpv";

/// The short form of an address: every long prefix in it is replaced by the
/// short one.
pub open spec fn short_url_text(url: Seq<char>) -> Seq<char> {
    replaced(url, LONG_PREFIX@, SHORT_PREFIX@)
}

/// The short form of an address.
pub fn short_url(url: &str) -> (short: String)
    ensures
        short@ == short_url_text(url@),
{
    replace_all(url, LONG_PREFIX, SHORT_PREFIX)
}

/// What a look-up in the table of watched addresses found.
#[derive(Clone, Copy, Debug, PartialEq, Eq)]
pub enum Lookup {
    /// The address is in the table.
    Found,
    /// The address is not in the table.
    Absent,
    /// The look-up failed.
    Failed,
}

/// How far a request to watch a video has come.
#[derive(Clone, Debug, PartialEq, Eq)]
pub enum WatchState {
    /// No request has come yet.
    Idle,
    /// The table is being asked whether it holds the address.
    Looking { url: String },
    /// The address is being written to the table.
    Storing { url: String },
    /// The player is running.
    Playing { url: String },
    /// The request has its answer.
    Answered { status: u16, body: String },
}

/// What came back from outside.
#[derive(Clone, Debug, PartialEq, Eq)]
pub enum WatchEvent {
    /// A request, with the address that it names, if any.
    Request { url: Option<String> },
    /// The look-up is done.
    LookedUp { lookup: Lookup },
    /// The address has been written to the table.
    Stored,
    /// The player has ended; `success` is false too where it could not be run.
    PlayerExited { success: bool },
}

/// What is to be done next.
#[derive(Clone, Debug, PartialEq, Eq)]
pub enum WatchAction {
    /// Wait for a request.
    AwaitRequest,
    /// Ask the table whether it holds this address.
    LookUp { url: String },
    /// Write this address to the table.
    Store { url: String },
    /// Run the player on this address, with this option.
    Play { program: String, address: String, option: String },
    /// Answer the request.
    Respond { status: u16, body: String },
}

/// What a `WatchState` holds.
pub enum WatchStateText {
    Idle,
    Looking { url: Seq<char> },
    Storing { url: Seq<char> },
    Playing { url: Seq<char> },
    Answered { status: u16, body: Seq<char> },
}

impl View for WatchState {
    type V = WatchStateText;

    open spec fn view(&self) -> WatchStateText {
        match *self {
            WatchState::Idle => WatchStateText::Idle,
            WatchState::Looking { url } => WatchStateText::Looking { url: url@ },
            WatchState::Storing { url } => WatchStateText::Storing { url: url@ },
            WatchState::Playing { url } => WatchStateText::Playing { url: url@ },
            WatchState::Answered { status, body } => WatchStateText::Answered {
                status,
                body: body@,
            },
        }
    }
}

/// What a `WatchEvent` holds.
pub enum WatchEventText {
    Request { url: Option<Seq<char>> },
    LookedUp { lookup: Lookup },
    Stored,
    PlayerExited { success: bool },
}

impl View for WatchEvent {
    type V = WatchEventText;

    open spec fn view(&self) -> WatchEventText {
        match *self {
            WatchEvent::Request { url } => WatchEventText::Request {
                url: match url {
                    Some(text) => Some(text@),
                    None => None,
                },
            },
            WatchEvent::LookedUp { lookup } => WatchEventText::LookedUp { lookup },
            WatchEvent::Stored => WatchEventText::Stored,
            WatchEvent::PlayerExited { success } => WatchEventText::PlayerExited { success },
        }
    }
}

/// What a `WatchAction` holds.
pub enum WatchActionText {
    AwaitRequest,
    LookUp { url: Seq<char> },
    Store { url: Seq<char> },
    Play { program: Seq<char>, address: Seq<char>, option: Seq<char> },
    Respond { status: u16, body: Seq<char> },
}

impl View for WatchAction {
    type V = WatchActionText;

    open spec fn view(&self) -> WatchActionText {
        match *self {
            WatchAction::AwaitRequest => WatchActionText::AwaitRequest,
            WatchAction::LookUp { url } => WatchActionText::LookUp { url: url@ },
            WatchAction::Store { url } => WatchActionText::Store { url: url@ },
            WatchAction::Play { program, address, option } => WatchActionText::Play {
                program: program@,
                address: address@,
                option: option@,
            },
            WatchAction::Respond { status, body } => WatchActionText::Respond {
                status,
                body: body@,
            },
        }
    }
}

/// What a state waits for.
pub open spec fn pending(state: WatchStateText) -> WatchActionText {
    match state {
        WatchStateText::Idle => WatchActionText::AwaitRequest,
        WatchStateText::Looking { url } => WatchActionText::LookUp { url },
        WatchStateText::Storing { url } => WatchActionText::Store { url },
        WatchStateText::Playing { url } => WatchActionText::Play {
            program: PLAYER@,
            address: short_url_text(url),
            option: PLAYER_OPTION@,
        },
        WatchStateText::Answered { status, body } => WatchActionText::Respond { status, body },
    }
}

/// The state after an event.
///
/// A request without an address is answered with 400. One with an address is
/// looked up; an address that was not found, or whose look-up failed, is
/// stored; then the player runs, whether the address was new or not. The
/// answer is 200 where the player reports success and 500 where it does not. An
/// event that the state does not wait for changes nothing.
pub open spec fn watch_next(state: WatchStateText, event: WatchEventText) -> WatchStateText {
    match (state, event) {
        (WatchStateText::Idle, WatchEventText::Request { url: Some(url) }) => {
            WatchStateText::Looking { url }
        },
        (WatchStateText::Idle, WatchEventText::Request { url: None }) => {
            WatchStateText::Answered { status: 400, body: MISSING_URL@ }
        },
        (WatchStateText::Looking { url }, WatchEventText::LookedUp { lookup }) => {
            if lookup == Lookup::Found {
                WatchStateText::Playing { url }
            } else {
                WatchStateText::Storing { url }
            }
        },
        (WatchStateText::Storing { url }, WatchEventText::Stored) => {
            WatchStateText::Playing { url }
        },
        (WatchStateText::Playing { url }, WatchEventText::PlayerExited { success }) => {
            if success {
                WatchStateText::Answered { status: 200, body: PLAYED@ }
            } else {
                WatchStateText::Answered { status: 500, body: NOT_PLAYED@ }
            }
        },
        _ => state,
    }
}

/// What a state waits for.
pub fn pending_action(state: &WatchState) -> (action: WatchAction)
    ensures
        action@ == pending(state@),
{
    match state {
        WatchState::Idle => WatchAction::AwaitRequest,
        WatchState::Looking { url } => WatchAction::LookUp { url: url.clone() },
        WatchState::Storing { url } => WatchAction::Store { url: url.clone() },
        WatchState::Playing { url } => WatchAction::Play {
            program: String::from_str(PLAYER),
            address: short_url(url.as_str()),
            option: String::from_str(PLAYER_OPTION),
        },
        WatchState::Answered { status, body } => WatchAction::Respond {
            status: *status,
            body: body.clone(),
        },
    }
}

/// Takes one event and says what to do next.
pub fn watch_step(state: WatchState, event: WatchEvent) -> (next: (WatchState, WatchAction))
    ensures
        next.0@ == watch_next(state@, event@),
        next.1@ == pending(next.0@),
{
    let after = match (state, event) {
        (WatchState::Idle, WatchEvent::Request { url: Some(url) }) => WatchState::Looking { url },
        (WatchState::Idle, WatchEvent::Request { url: None }) => WatchState::Answered {
            status: 400,
            body: String::from_str(MISSING_URL),
        },
        (WatchState::Looking { url }, WatchEvent::LookedUp { lookup }) => {
            match lookup {
                Lookup::Found => WatchState::Playing { url },
                _ => WatchState::Storing { url },
            }
        },
        (WatchState::Storing { url }, WatchEvent::Stored) => WatchState::Playing { url },
        (WatchState::Playing { url }, WatchEvent::PlayerExited { success }) => {
            if success {
                WatchState::Answered { status: 200, body: String::from_str(PLAYED) }
            } else {
                WatchState::Answered { status: 500, body: String::from_str(NOT_PLAYED) }
            }
        },
        (state, _) => state,
    };
    let action = pending_action(&after);
    (after, action)
}

/// What a look-up finds in a table that holds the rows `rows`.
pub open spec fn lookup_in(rows: Multiset<Seq<char>>, url: Seq<char>) -> Lookup {
    if rows.count(url) > 0 {
        Lookup::Found
    } else {
        Lookup::Absent
    }
}

/// What serving one request has come to.
pub struct Served {
    /// The rows of the table afterwards.
    pub rows: Multiset<Seq<char>>,
    /// The address that the player was run on, if it was run.
    pub played: Option<Seq<char>>,
    /// The state at the end.
    pub state: WatchStateText,
}

/// A request for `url`, served against a table that holds `rows` and does what
/// it is asked: the look-up finds the address exactly where a row holds it, and
/// storing adds one row. `player_ok` is what the player reports.
pub open spec fn serve(rows: Multiset<Seq<char>>, url: Seq<char>, player_ok: bool) -> Served {
    let looking = watch_next(WatchStateText::Idle, WatchEventText::Request { url: Some(url) });
    let looked = watch_next(looking, WatchEventText::LookedUp { lookup: lookup_in(rows, url) });
    let stored = pending(looked) is Store;
    let ready = if stored {
        watch_next(looked, WatchEventText::Stored)
    } else {
        looked
    };
    Served {
        rows: if stored {
            rows.insert(pending(looked)->Store_url)
        } else {
            rows
        },
        played: match pending(ready) {
            WatchActionText::Play { address, .. } => Some(address),
            _ => None,
        },
        state: watch_next(ready, WatchEventText::PlayerExited { success: player_ok }),
    }
}

/// Marking is idempotent. After a request for an address the table holds one
/// row for it, a second request for the same address leaves the table as the
/// first left it, and the player is run on the short form of the address both
/// times. No other address gains or loses a row.
pub proof fn lemma_mark_twice(
    rows: Multiset<Seq<char>>,
    url: Seq<char>,
    first_ok: bool,
    second_ok: bool,
)
    requires
        rows.count(url) <= 1,
    ensures
        serve(rows, url, first_ok).rows.count(url) == 1,
        serve(serve(rows, url, first_ok).rows, url, second_ok).rows == serve(
            rows,
            url,
            first_ok,
        ).rows,
        serve(rows, url, first_ok).played == Some(short_url_text(url)),
        serve(serve(rows, url, first_ok).rows, url, second_ok).played == Some(
            short_url_text(url),
        ),
        forall|other: Seq<char>|
            other != url ==> serve(rows, url, first_ok).rows.count(other) == rows.count(other),
{
}

/// The answer tells what the player reported.
pub proof fn lemma_answer(rows: Multiset<Seq<char>>, url: Seq<char>, player_ok: bool)
    ensures
        serve(rows, url, player_ok).state == if player_ok {
            WatchStateText::Answered { status: 200, body: PLAYED@ }
        } else {
            WatchStateText::Answered { status: 500, body: NOT_PLAYED@ }
        },
{
}

} // verus!
