use bridgy_followers::follower_status::{
    filter_by_relationships, find_relationship, relationship_status, FollowCandidate,
    FollowerStatus, NotBridgedReason, RelationshipRecord,
};
use bridgy_followers::relationships::{chunk_others, merge_relationships, MAX_OTHERS_PER_REQUEST};

fn identities(n: usize) -> Vec<String> {
    (0..n).map(|i| format!("did:plc:{i}")).collect()
}

fn record(did: &str) -> RelationshipRecord {
    RelationshipRecord { did: did.to_string(), followed_by_bridge: true, extension_keys: vec![] }
}

#[test]
fn chunks_cover_all_identities_in_order() {
    let others = identities(65);
    let chunks = chunk_others(&others);
    assert_eq!(chunks.len(), 3);
    assert_eq!(chunks[0].len(), 30);
    assert_eq!(chunks[1].len(), 30);
    assert_eq!(chunks[2].len(), 5);
    let flat: Vec<String> = chunks.concat();
    assert_eq!(flat, others);
}

#[test]
fn chunk_count_is_ceiling_of_thirtieths() {
    for n in [0usize, 1, 29, 30, 31, 59, 60, 61, 90, 91, 300] {
        let chunks = chunk_others(&identities(n));
        assert_eq!(chunks.len(), (n + 29) / 30, "n = {n}");
        assert!(chunks.iter().all(|c| !c.is_empty() && c.len() <= MAX_OTHERS_PER_REQUEST));
    }
}

#[test]
fn exactly_thirty_identities_make_one_request() {
    let chunks = chunk_others(&identities(30));
    assert_eq!(chunks.len(), 1);
    assert_eq!(chunks[0], identities(30));
}

#[test]
fn merged_answers_equal_one_unbounded_answer() {
    let others = identities(70);
    // the server knows every identity but those divisible by 7
    let answer = |asked: &[String]| -> Vec<RelationshipRecord> {
        asked
            .iter()
            .filter(|d| d.trim_start_matches("did:plc:").parse::<usize>().unwrap() % 7 != 0)
            .map(|d| record(d))
            .collect()
    };
    let chunked: Vec<Vec<RelationshipRecord>> =
        chunk_others(&others).iter().map(|c| answer(c)).collect();
    let merged = merge_relationships(chunked);
    let single = answer(&others);
    let merged_dids: Vec<&String> = merged.iter().map(|r| &r.did).collect();
    let single_dids: Vec<&String> = single.iter().map(|r| &r.did).collect();
    assert_eq!(merged_dids, single_dids);
    assert_eq!(merged.len(), 60);
}

#[test]
fn missing_record_differs_from_record_without_flags() {
    let records = vec![record("did:plc:a")];
    let a = FollowCandidate { did: "did:plc:a".to_string(), handle: "a.example".to_string() };
    let b = FollowCandidate { did: "did:plc:b".to_string(), handle: "b.example".to_string() };
    assert_eq!(relationship_status(&a, &records), None);
    assert_eq!(
        relationship_status(&b, &records),
        Some(FollowerStatus::NotBridged(NotBridgedReason::NoRelationshipData))
    );
}

#[test]
fn later_record_for_an_identity_wins() {
    let mut blocked = record("did:plc:a");
    blocked.extension_keys = vec!["blockedBy".to_string()];
    let records = vec![record("did:plc:a"), blocked];
    assert_eq!(find_relationship(&records, &"did:plc:a".to_string()), Some(1));
    assert_eq!(find_relationship(&records, &"did:plc:z".to_string()), None);
    let a = FollowCandidate { did: "did:plc:a".to_string(), handle: "a.example".to_string() };
    let mut result = Vec::new();
    let open = filter_by_relationships(&vec![a], &records, &mut result);
    assert!(open.is_empty());
    assert_eq!(result[0].status, FollowerStatus::NotBridged(NotBridgedReason::BlocksBridge));
}
