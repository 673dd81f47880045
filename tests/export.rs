use bridgy_followers::export::{
    import_header_row, import_row_for, import_rows, statuses_to_import_csv,
    write_statuses_to_import_csv, CsvBuffer,
};
use bridgy_followers::follower_status::{BridgedFollower, FollowerStatus, NotBridgedReason};

const HEADER: &str = "Account address,Show boosts,Notify on new posts,Languages\n";

fn follower(handle: &str, status: FollowerStatus) -> BridgedFollower {
    BridgedFollower::new(handle.to_string(), status)
}

#[test]
fn only_ready_accounts_get_rows() {
    let statuses = vec![
        follower("a.example", FollowerStatus::Ignored),
        follower("b.example", FollowerStatus::ReadyToFollow),
        follower("c.example", FollowerStatus::AlreadyFollowedOnMastodon),
        follower("d.example", FollowerStatus::NotBridged(NotBridgedReason::BlocksBridge)),
        follower("e.example", FollowerStatus::NotBridged(NotBridgedReason::NoAccountOnBridgy)),
        follower("f.example", FollowerStatus::ReadyToFollow),
    ];
    let csv = statuses_to_import_csv(&statuses, "bsky.brid.gy").unwrap();
    assert_eq!(
        csv,
        format!("{HEADER}@b.example@bsky.brid.gy,true,false,\n@f.example@bsky.brid.gy,true,false,\n")
    );
}

#[test]
fn empty_result_gives_header_only() {
    assert_eq!(statuses_to_import_csv(&vec![], "bridge.example").unwrap(), HEADER);
}

#[test]
fn rows_hold_fixed_policy_values() {
    assert_eq!(
        import_row_for("dave.example", "bridge.example"),
        vec!["@dave.example@bridge.example", "true", "false", ""]
    );
    assert_eq!(
        import_header_row(),
        vec!["Account address", "Show boosts", "Notify on new posts", "Languages"]
    );
    let statuses = vec![
        follower("x.example", FollowerStatus::ReadyToFollow),
        follower("y.example", FollowerStatus::Ignored),
    ];
    assert_eq!(
        import_rows(&statuses, "bridge.example"),
        vec![vec!["@x.example@bridge.example", "true", "false", ""]]
    );
}

#[test]
fn writer_receives_header_and_rows() {
    let mut buffer = CsvBuffer::new();
    let statuses = vec![follower("x.example", FollowerStatus::ReadyToFollow)];
    assert_eq!(write_statuses_to_import_csv(&mut buffer, &statuses, "bridge.example"), Ok(()));
}

#[test]
fn one_line_per_ready_entry_plus_header() {
    let statuses = vec![
        follower("a.example", FollowerStatus::ReadyToFollow),
        follower("b.example", FollowerStatus::Ignored),
        follower("c.example", FollowerStatus::ReadyToFollow),
        follower("d.example", FollowerStatus::ReadyToFollow),
    ];
    let csv = statuses_to_import_csv(&statuses, "bridge.example").unwrap();
    assert_eq!(csv.lines().count(), 4);
    assert_eq!(csv.matches('\n').count(), 4);
}

#[test]
fn handle_needing_quotes_is_quoted() {
    let statuses = vec![follower("a,b", FollowerStatus::ReadyToFollow)];
    let csv = statuses_to_import_csv(&statuses, "x").unwrap();
    assert_eq!(csv, format!("{HEADER}\"@a,b@x\",true,false,\n"));
}
