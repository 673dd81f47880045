use bridgy_followers::follower_status::FollowCandidate;
use bridgy_followers::known_followers::{KnownFollowers, KNOWN_FOLLOWERS_PAGE_SIZE};

fn candidate(did: &str, handle: &str) -> FollowCandidate {
    FollowCandidate { did: did.to_string(), handle: handle.to_string() }
}

#[test]
fn first_request_has_no_cursor_and_page_size_hundred() {
    let state = KnownFollowers::new();
    let request = state.next_request().unwrap();
    assert_eq!(request.cursor, None);
    assert_eq!(request.limit, 100);
    assert_eq!(KNOWN_FOLLOWERS_PAGE_SIZE, 100);
}

#[test]
fn pages_are_followed_until_no_cursor() {
    let mut state = KnownFollowers::new();
    state.accept_page(
        vec![candidate("did:plc:a", "a.example"), candidate("did:plc:b", "b.example")],
        Some("page2".to_string()),
    );
    let request = state.next_request().unwrap();
    assert_eq!(request.cursor, Some("page2".to_string()));
    state.accept_page(vec![candidate("did:plc:c", "c.example")], None);
    assert!(state.next_request().is_none());
    let found = state.into_candidates();
    let handles: Vec<&str> = found.iter().map(|c| c.handle.as_str()).collect();
    assert_eq!(handles, vec!["a.example", "b.example", "c.example"]);
}

#[test]
fn repeated_identity_replaces_earlier_entry_in_place() {
    let mut state = KnownFollowers::new();
    state.accept_page(
        vec![candidate("did:plc:a", "old.example"), candidate("did:plc:b", "b.example")],
        Some("next".to_string()),
    );
    state.accept_page(vec![candidate("did:plc:a", "new.example")], None);
    let found = state.into_candidates();
    assert_eq!(found.len(), 2);
    assert_eq!(found[0].did, "did:plc:a");
    assert_eq!(found[0].handle, "new.example");
    assert_eq!(found[1].handle, "b.example");
}

#[test]
fn empty_first_page_without_cursor_ends_with_nothing() {
    let mut state = KnownFollowers::new();
    state.accept_page(vec![], None);
    assert!(state.next_request().is_none());
    assert!(state.into_candidates().is_empty());
}
