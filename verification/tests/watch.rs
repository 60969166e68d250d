use video_catalog::watch::{
    pending_action, short_url, watch_step, Lookup, WatchAction, WatchEvent, WatchState,
};

/// Serves one request against `table`, as a store that does what it is asked.
/// Returns the address played, if any, and the answer.
fn serve(table: &mut Vec<String>, url: Option<&str>, player_ok: bool) -> (Option<String>, u16, String) {
    let mut played = None;
    let (mut state, mut action) =
        watch_step(WatchState::Idle, WatchEvent::Request { url: url.map(|u| u.to_string()) });
    loop {
        let event = match action {
            WatchAction::AwaitRequest => panic!("a request was given"),
            WatchAction::LookUp { url } => WatchEvent::LookedUp {
                lookup: if table.contains(&url) { Lookup::Found } else { Lookup::Absent },
            },
            WatchAction::Store { url } => {
                table.push(url);
                WatchEvent::Stored
            }
            WatchAction::Play { program, address, option } => {
                assert_eq!(program, "mpv");
                assert_eq!(option, "--speed=1.5");
                played = Some(address);
                WatchEvent::PlayerExited { success: player_ok }
            }
            WatchAction::Respond { status, body } => return (played, status, body),
        };
        let next = watch_step(state, event);
        state = next.0;
        action = next.1;
    }
}

#[test]
fn short_url_shortens_the_prefix() {
    assert_eq!(short_url("https://www.youtube.com/watch?v=abc123"), "https://youtu.be/abc123");
}

#[test]
fn short_url_leaves_other_addresses() {
    assert_eq!(short_url("https://example.org/watch?v=abc"), "https://example.org/watch?v=abc");
    assert_eq!(short_url(""), "");
    assert_eq!(short_url("https://youtu.be/abc"), "https://youtu.be/abc");
}

#[test]
fn short_url_shortens_every_occurrence() {
    assert_eq!(
        short_url("x https://www.youtube.com/watch?v=a https://www.youtube.com/watch?v=b"),
        "x https://youtu.be/a https://youtu.be/b"
    );
}

#[test]
fn marking_twice_leaves_one_row_and_plays_twice() {
    let url = "https://www.youtube.com/watch?v=abc";
    let mut table = Vec::new();
    let first = serve(&mut table, Some(url), true);
    assert_eq!(table, vec![url.to_string()]);
    let second = serve(&mut table, Some(url), true);
    assert_eq!(table, vec![url.to_string()]);
    assert_eq!(first.0, Some("https://youtu.be/abc".to_string()));
    assert_eq!(second.0, Some("https://youtu.be/abc".to_string()));
    assert_eq!(first.1, 200);
    assert_eq!(second.1, 200);
}

#[test]
fn marking_another_address_adds_a_row() {
    let mut table = vec!["https://www.youtube.com/watch?v=a".to_string()];
    serve(&mut table, Some("https://www.youtube.com/watch?v=b"), true);
    assert_eq!(
        table,
        vec![
            "https://www.youtube.com/watch?v=a".to_string(),
            "https://www.youtube.com/watch?v=b".to_string()
        ]
    );
}

#[test]
fn answer_after_the_player_succeeds() {
    let mut table = Vec::new();
    let (_, status, body) = serve(&mut table, Some("https://www.youtube.com/watch?v=a"), true);
    assert_eq!(status, 200);
    assert_eq!(body, "Video marked as watched and opened with mpv");
}

#[test]
fn answer_after_the_player_fails() {
    let mut table = Vec::new();
    let (played, status, body) = serve(&mut table, Some("https://www.youtube.com/watch?v=a"), false);
    assert_eq!(status, 500);
    assert_eq!(body, "Failed to open video with mpv");
    assert_eq!(played, Some("https://youtu.be/a".to_string()));
    assert_eq!(table.len(), 1);
}

#[test]
fn request_without_an_address() {
    let mut table = Vec::new();
    let (played, status, body) = serve(&mut table, None, true);
    assert_eq!(status, 400);
    assert_eq!(body, "Missing url parameter");
    assert_eq!(played, None);
    assert!(table.is_empty());
}

#[test]
fn failed_lookup_stores_the_address() {
    let url = "https://www.youtube.com/watch?v=a".to_string();
    let (state, _) = watch_step(WatchState::Idle, WatchEvent::Request { url: Some(url.clone()) });
    let (state, action) = watch_step(state, WatchEvent::LookedUp { lookup: Lookup::Failed });
    assert_eq!(state, WatchState::Storing { url: url.clone() });
    assert_eq!(action, WatchAction::Store { url });
}

#[test]
fn found_address_is_not_stored_again() {
    let url = "https://www.youtube.com/watch?v=a".to_string();
    let (state, action) = watch_step(WatchState::Idle, WatchEvent::Request { url: Some(url.clone()) });
    assert_eq!(action, WatchAction::LookUp { url: url.clone() });
    let (state, action) = watch_step(state, WatchEvent::LookedUp { lookup: Lookup::Found });
    assert_eq!(state, WatchState::Playing { url });
    assert_eq!(
        action,
        WatchAction::Play {
            program: "mpv".to_string(),
            address: "https://youtu.be/a".to_string(),
            option: "--speed=1.5".to_string()
        }
    );
}

#[test]
fn unexpected_event_changes_nothing() {
    let url = "https://www.youtube.com/watch?v=a".to_string();
    let looking = WatchState::Looking { url: url.clone() };
    for event in [
        WatchEvent::Stored,
        WatchEvent::PlayerExited { success: true },
        WatchEvent::Request { url: None },
    ] {
        let (state, action) = watch_step(looking.clone(), event);
        assert_eq!(state, looking);
        assert_eq!(action, WatchAction::LookUp { url: url.clone() });
    }
    let answered = WatchState::Answered { status: 200, body: "done".to_string() };
    let (state, action) = watch_step(answered.clone(), WatchEvent::Stored);
    assert_eq!(state, answered);
    assert_eq!(action, WatchAction::Respond { status: 200, body: "done".to_string() });
    let (state, action) = watch_step(WatchState::Idle, WatchEvent::Stored);
    assert_eq!(state, WatchState::Idle);
    assert_eq!(action, WatchAction::AwaitRequest);
}

#[test]
fn pending_action_of_each_state() {
    assert_eq!(pending_action(&WatchState::Idle), WatchAction::AwaitRequest);
    assert_eq!(
        pending_action(&WatchState::Storing { url: "u".to_string() }),
        WatchAction::Store { url: "u".to_string() }
    );
}
