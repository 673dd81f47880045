use bridgy_followers::paging::{find_text, has_next_link};

#[test]
fn link_header_with_next_page() {
    let link = "<https://m.example/api/v1/accounts/1/following?max_id=7>; rel=\"next\", <https://m.example/api/v1/accounts/1/following?since_id=9>; rel=\"prev\"";
    assert!(has_next_link(link));
}

#[test]
fn link_header_without_next_page() {
    let link = "<https://m.example/api/v1/accounts/1/following?since_id=9>; rel=\"prev\"";
    assert!(!has_next_link(link));
    assert!(!has_next_link(""));
}

#[test]
fn text_search() {
    assert!(find_text("abcabd", "abd"));
    assert!(!find_text("abcab", "abd"));
    assert!(find_text("abc", ""));
    assert!(!find_text("ab", "abc"));
}
