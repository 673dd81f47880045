use bridgy_followers::classifier::Classifier;
use bridgy_followers::export::statuses_to_import_csv;
use bridgy_followers::follower_status::{
    apply_discovery, destination_follow_set, discovery_addresses, filter_by_relationships,
    filter_local, local_status, ready_to_follow, BridgedFollower, FollowCandidate, FollowerStatus,
    NotBridgedReason, RelationshipRecord,
};
use bridgy_followers::relationships::{chunk_others, lookup_identities, merge_relationships};

/// The records that the server holds for the identities of one request.
fn answer(known: &[RelationshipRecord], request: &[String]) -> Vec<RelationshipRecord> {
    request
        .iter()
        .filter_map(|did| known.iter().find(|r| &r.did == did))
        .map(|r| RelationshipRecord {
            did: r.did.clone(),
            followed_by_bridge: r.followed_by_bridge,
            extension_keys: r.extension_keys.clone(),
        })
        .collect()
}

const BRIDGE: &str = "bridge.example";

fn candidate(did: &str, handle: &str) -> FollowCandidate {
    FollowCandidate { did: did.to_string(), handle: handle.to_string() }
}

fn record(did: &str, followed_by_bridge: bool, keys: &[&str]) -> RelationshipRecord {
    RelationshipRecord {
        did: did.to_string(),
        followed_by_bridge,
        extension_keys: keys.iter().map(|k| k.to_string()).collect(),
    }
}

fn strings(items: &[&str]) -> Vec<String> {
    items.iter().map(|s| s.to_string()).collect()
}

/// Runs a classification, answering the relationship lookup from `known` and
/// discovery from `existing`. Returns the result and what was asked.
fn classify(
    candidates: &Vec<FollowCandidate>,
    ignored: &Vec<String>,
    following: &Vec<String>,
    known: &[RelationshipRecord],
    existing: &[&str],
) -> (Vec<BridgedFollower>, Vec<String>, Vec<String>) {
    let mut run = Classifier::new(candidates, ignored, following, BRIDGE);
    let requests = run.relationship_requests();
    assert!(requests.iter().all(|r| !r.is_empty() && r.len() <= 30));
    let identities: Vec<String> = requests.concat();
    run.accept_relationships(requests.iter().map(|r| answer(known, r)).collect());
    let addresses = run.discovery_requests();
    run.accept_discovery(addresses.iter().map(|a| existing.contains(&a.as_str())).collect());
    (run.into_result(), identities, addresses)
}

/// The same run, calling the passes one by one.
fn classify_by_passes(
    candidates: &Vec<FollowCandidate>,
    ignored: &Vec<String>,
    following: &Vec<String>,
    known: &[RelationshipRecord],
    existing: &[&str],
) -> Vec<BridgedFollower> {
    let mut result = Vec::new();
    let open = filter_local(candidates, ignored, following, BRIDGE, &mut result);
    let answers = chunk_others(&lookup_identities(&open)).iter().map(|r| answer(known, r)).collect();
    let records = merge_relationships(answers);
    let open = filter_by_relationships(&open, &records, &mut result);
    let found: Vec<bool> =
        discovery_addresses(&open, BRIDGE).iter().map(|a| existing.contains(&a.as_str())).collect();
    apply_discovery(&open, &found, &mut result);
    result
}

fn statuses(result: &[BridgedFollower]) -> Vec<(String, FollowerStatus)> {
    result.iter().map(|f| (f.handle.clone(), f.status)).collect()
}

#[test]
fn scenario_ignore_and_already_followed() {
    let candidates = vec![
        candidate("did:plc:spammer", "spammer.example"),
        candidate("did:plc:bob", "bob.example"),
        candidate("did:plc:carol", "carol.example"),
    ];
    let ignored = strings(&["spammer.example"]);
    let following = strings(&["bob.example@bridge.example"]);
    let (result, identities, addresses) = classify(&candidates, &ignored, &following, &[], &[]);
    assert_eq!(
        statuses(&result),
        vec![
            ("spammer.example".to_string(), FollowerStatus::Ignored),
            ("bob.example".to_string(), FollowerStatus::AlreadyFollowedOnMastodon),
            (
                "carol.example".to_string(),
                FollowerStatus::NotBridged(NotBridgedReason::NoRelationshipData)
            ),
        ]
    );
    assert_eq!(identities, strings(&["did:plc:carol"]));
    assert!(addresses.is_empty());
    let csv = statuses_to_import_csv(&result, BRIDGE).unwrap();
    assert_eq!(csv, "Account address,Show boosts,Notify on new posts,Languages\n");
}

#[test]
fn scenario_ready_to_follow() {
    let candidates = vec![candidate("did:plc:dave", "dave.example")];
    let known = vec![record("did:plc:dave", true, &[])];
    let (result, _, addresses) =
        classify(&candidates, &vec![], &vec![], &known, &["dave.example@bridge.example"]);
    assert_eq!(addresses, strings(&["dave.example@bridge.example"]));
    assert_eq!(
        statuses(&result),
        vec![("dave.example".to_string(), FollowerStatus::ReadyToFollow)]
    );
    let csv = statuses_to_import_csv(&result, BRIDGE).unwrap();
    assert_eq!(
        csv,
        "Account address,Show boosts,Notify on new posts,Languages\n@dave.example@bridge.example,true,false,\n"
    );
    assert_eq!(ready_to_follow(&result), strings(&["dave.example"]));
}

#[test]
fn scenario_block_detected() {
    for followed_by_bridge in [true, false] {
        let candidates = vec![candidate("did:plc:eve", "eve.example")];
        let known = vec![record("did:plc:eve", followed_by_bridge, &["blockedBy"])];
        let (result, _, addresses) =
            classify(&candidates, &vec![], &vec![], &known, &["eve.example@bridge.example"]);
        assert!(addresses.is_empty());
        assert_eq!(
            statuses(&result),
            vec![(
                "eve.example".to_string(),
                FollowerStatus::NotBridged(NotBridgedReason::BlocksBridge)
            )]
        );
    }
}

#[test]
fn block_list_key_also_blocks() {
    let r = record("did:plc:x", true, &["somethingElse", "blockedByList"]);
    assert!(r.blocks_bridge());
    let r = record("did:plc:x", true, &["blockedby", "blocked"]);
    assert!(!r.blocks_bridge());
}

#[test]
fn handle_case_is_ignored_when_comparing_addresses() {
    let c = candidate("did:plc:alice", "Alice.bsky.social");
    let following = strings(&["alice.bsky.social@bridge.example"]);
    assert_eq!(
        local_status(&c, &vec![], &following, BRIDGE),
        Some(FollowerStatus::AlreadyFollowedOnMastodon)
    );
}

#[test]
fn ignore_list_matches_case_sensitively() {
    let c = candidate("did:plc:alice", "Alice.example");
    assert_eq!(local_status(&c, &strings(&["alice.example"]), &vec![], BRIDGE), None);
    assert_eq!(
        local_status(&c, &strings(&["Alice.example"]), &vec![], BRIDGE),
        Some(FollowerStatus::Ignored)
    );
}

#[test]
fn ignore_list_comes_before_follow_set() {
    let c = candidate("did:plc:bob", "bob.example");
    let status = local_status(
        &c,
        &strings(&["bob.example"]),
        &strings(&["bob.example@bridge.example"]),
        BRIDGE,
    );
    assert_eq!(status, Some(FollowerStatus::Ignored));
}

#[test]
fn follow_set_is_lower_cased() {
    let set = destination_follow_set(&strings(&["Alice.Example@Bridge.Example", "bob@x"]));
    assert_eq!(set, strings(&["alice.example@bridge.example", "bob@x"]));
}

#[test]
fn every_candidate_gets_exactly_one_status() {
    let mut candidates = Vec::new();
    let mut known = Vec::new();
    for i in 0..75 {
        candidates.push(candidate(&format!("did:plc:{i}"), &format!("user{i}.example")));
        if i % 3 != 0 {
            let keys: &[&str] = if i % 5 == 0 { &["blockedBy"] } else { &[] };
            known.push(record(&format!("did:plc:{i}"), i % 2 == 0, keys));
        }
    }
    let ignored = strings(&["user1.example", "user2.example"]);
    let following = strings(&["user4.example@bridge.example", "USER7.example@bridge.example"]);
    let existing = ["user8.example@bridge.example", "user10.example@bridge.example"];
    let (result, _, _) = classify(&candidates, &ignored, &following, &known, &existing);
    assert_eq!(result.len(), candidates.len());
    let mut handles: Vec<String> = result.iter().map(|f| f.handle.clone()).collect();
    handles.sort();
    let mut expected: Vec<String> = candidates.iter().map(|c| c.handle.clone()).collect();
    expected.sort();
    assert_eq!(handles, expected);
    let ready: Vec<&BridgedFollower> =
        result.iter().filter(|f| f.status == FollowerStatus::ReadyToFollow).collect();
    assert_eq!(ready.len(), 1);
    assert_eq!(ready[0].handle, "user8.example");
}

#[test]
fn classification_is_repeatable() {
    let candidates = vec![
        candidate("did:plc:a", "a.example"),
        candidate("did:plc:b", "b.example"),
        candidate("did:plc:c", "c.example"),
        candidate("did:plc:d", "d.example"),
    ];
    let known = vec![record("did:plc:b", false, &[]), record("did:plc:c", true, &["blockedBy"])];
    let ignored = strings(&["d.example"]);
    let existing = ["b.example@bridge.example"];
    let (first, _, _) = classify(&candidates, &ignored, &vec![], &known, &existing);
    let (second, _, _) = classify(&candidates, &ignored, &vec![], &known, &existing);
    assert_eq!(statuses(&first), statuses(&second));
    let by_passes = classify_by_passes(&candidates, &ignored, &vec![], &known, &existing);
    assert_eq!(statuses(&first), statuses(&by_passes));
    assert_eq!(
        statuses(&first),
        vec![
            ("d.example".to_string(), FollowerStatus::Ignored),
            ("a.example".to_string(), FollowerStatus::NotBridged(NotBridgedReason::NoRelationshipData)),
            ("c.example".to_string(), FollowerStatus::NotBridged(NotBridgedReason::BlocksBridge)),
            ("b.example".to_string(), FollowerStatus::ReadyToFollow),
        ]
    );
}

#[test]
fn settled_candidates_are_never_looked_up() {
    let candidates = vec![
        candidate("did:plc:ign", "ign.example"),
        candidate("did:plc:fol", "fol.example"),
        candidate("did:plc:new", "new.example"),
    ];
    let known = vec![
        record("did:plc:ign", true, &[]),
        record("did:plc:fol", true, &[]),
        record("did:plc:new", true, &[]),
    ];
    let (result, identities, addresses) = classify(
        &candidates,
        &strings(&["ign.example"]),
        &strings(&["fol.example@bridge.example"]),
        &known,
        &[],
    );
    assert_eq!(identities, strings(&["did:plc:new"]));
    assert_eq!(addresses, strings(&["new.example@bridge.example"]));
    assert_eq!(
        result[2].status,
        FollowerStatus::NotBridged(NotBridgedReason::NoAccountOnBridgy)
    );
}

#[test]
fn no_candidates_gives_empty_result() {
    let (result, identities, addresses) = classify(&vec![], &vec![], &vec![], &[], &[]);
    assert!(result.is_empty());
    assert!(identities.is_empty());
    assert!(addresses.is_empty());
    assert!(chunk_others(&identities).is_empty());
}

#[test]
fn discovery_addresses_are_lower_cased() {
    let open = vec![candidate("did:plc:x", "Mixed.Case.example")];
    assert_eq!(discovery_addresses(&open, BRIDGE), strings(&["mixed.case.example@bridge.example"]));
}

#[test]
fn bridged_follower_new_keeps_fields() {
    let f = BridgedFollower::new("h.example".to_string(), FollowerStatus::Ignored);
    assert_eq!(f.handle, "h.example");
    assert_eq!(f.status, FollowerStatus::Ignored);
}
