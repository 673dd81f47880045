use bridgy_followers::actor::{parse_actor, ActorError, ActorRef};
use bridgy_followers::cli_args::{default_config_path, log_setup, CliArgs, Command, LogFormat};
use bridgy_followers::config::{
    add_ignored, bluesky_password_entry, fallback_authorize_url, mastodon_token_entry,
    remove_ignored, server_url, Config, MastodonConfig,
};
use bridgy_followers::utils::{bluesky_handle_to_mastodon, color_bool};
use bridgy_followers::webfinger::{get_domain_webfinger_url, webfinger_resource};

fn strings(items: &[&str]) -> Vec<String> {
    items.iter().map(|s| s.to_string()).collect()
}

#[test]
fn address_construction_lower_cases_the_handle() {
    assert_eq!(
        bluesky_handle_to_mastodon("Alice.Bsky.Social", "bsky.brid.gy"),
        "alice.bsky.social@bsky.brid.gy"
    );
    assert_eq!(bluesky_handle_to_mastodon("ÀB", "x"), "àb@x");
    assert_eq!(bluesky_handle_to_mastodon("", "x"), "@x");
}

#[test]
fn colored_booleans() {
    assert_eq!(color_bool(true), "\x1b[32mtrue\x1b[0m");
    assert_eq!(color_bool(false), "\x1b[31mfalse\x1b[0m");
}

#[test]
fn webfinger_url_for_an_account() {
    let resource = webfinger_resource("alice.example@bsky.brid.gy");
    assert_eq!(resource, "acct:alice.example@bsky.brid.gy");
    let url = get_domain_webfinger_url("https://bsky.brid.gy", &resource).unwrap();
    assert_eq!(
        url.as_str(),
        "https://bsky.brid.gy/.well-known/webfinger?resource=acct%3Aalice.example%40bsky.brid.gy"
    );
}

#[test]
fn webfinger_url_needs_an_absolute_domain() {
    assert!(get_domain_webfinger_url("bsky.brid.gy", "acct:a@b").is_err());
}

#[test]
fn actor_did_is_used_as_is() {
    match parse_actor("did:plc:abc123") {
        Ok(ActorRef::Did(d)) => assert_eq!(d, "did:plc:abc123"),
        other => panic!("unexpected {other:?}"),
    }
    match parse_actor("@@did:web:example.com") {
        Ok(ActorRef::Did(d)) => assert_eq!(d, "did:web:example.com"),
        other => panic!("unexpected {other:?}"),
    }
}

#[test]
fn actor_handle_is_stripped_of_at_signs() {
    match parse_actor("@ap.brid.gy") {
        Ok(ActorRef::Handle(h)) => assert_eq!(h, "ap.brid.gy"),
        other => panic!("unexpected {other:?}"),
    }
}

#[test]
fn actor_errors() {
    assert!(matches!(parse_actor("did:"), Err(ActorError::InvalidDid)));
    assert!(matches!(parse_actor("not a handle"), Err(ActorError::InvalidHandle)));
    assert!(matches!(parse_actor(""), Err(ActorError::InvalidHandle)));
}

#[test]
fn ignore_list_additions_skip_duplicates() {
    let mut list = strings(&["a.example"]);
    assert!(!add_ignored(&mut list, "a.example".to_string()));
    assert!(add_ignored(&mut list, "b.example".to_string()));
    assert_eq!(list, strings(&["a.example", "b.example"]));
}

#[test]
fn ignore_list_removal_keeps_order() {
    let mut list = strings(&["a", "b", "c", "b", "d"]);
    remove_ignored(&mut list, &strings(&["b", "d", "x"]));
    assert_eq!(list, strings(&["a", "c"]));
}

#[test]
fn server_address_gets_a_scheme() {
    assert_eq!(server_url("mastodon.social"), "https://mastodon.social");
    assert_eq!(server_url("https://hachyderm.io"), "https://hachyderm.io");
    assert_eq!(server_url("http://local"), "http://local");
    assert_eq!(server_url("htt"), "https://htt");
}

#[test]
fn authorize_url_and_credential_entries() {
    assert_eq!(
        fallback_authorize_url("https://m.example", "abc"),
        "https://m.example/oauth/authorize?client_id=abc&redirect_uri=urn:ietf:wg:oauth:2.0:oob&response_type=code&scope=read:accounts+read:follows"
    );
    assert_eq!(bluesky_password_entry("me.example"), "bluesky_me.example");
    assert_eq!(mastodon_token_entry("https://m.example"), "mastodon_access_token_https://m.example");
}

#[test]
fn config_exposes_ignore_list() {
    let config = Config {
        username: "me".to_string(),
        password: "SECRET-REDACTED".to_string(),
        ignored_accounts: strings(&["x.example"]),
        mastodon: Some(MastodonConfig {
            server: "https://m.example".to_string(),
            access_token: "t".to_string(),
        }),
    };
    assert_eq!(config.ignored_accounts(), &strings(&["x.example"]));
}

#[test]
fn command_verbosity() {
    let args = CliArgs { command: Command::Csv { config: "c.toml".to_string(), output: None, verbose: 2 } };
    assert_eq!(args.command.verbose(), 2);
    assert_eq!(Command::Config { verbose: 3 }.verbose(), 3);
    assert_eq!(Command::Sync { config: "c".to_string(), verbose: 0 }.verbose(), 0);
    assert_eq!(Command::Forget { config: "c".to_string(), verbose: 1 }.verbose(), 1);
}

#[test]
fn default_config_path_falls_back_to_working_directory() {
    assert_eq!(default_config_path(None), "bridgy_followers.toml");
    assert_eq!(default_config_path(Some("/home/u/.config/b.toml".to_string())), "/home/u/.config/b.toml");
}

#[test]
fn log_setup_by_verbosity() {
    assert!(log_setup(0).is_none());
    let one = log_setup(1).unwrap();
    assert_eq!(one.filter, "bridgy_followers=info");
    assert_eq!(one.format, LogFormat::MessagesOnly);
    let two = log_setup(2).unwrap();
    assert_eq!(two.filter, "bridgy_followers=debug,error");
    assert_eq!(two.format, LogFormat::NoTimestamps);
    assert_eq!(log_setup(3).unwrap().filter, "bridgy_followers=debug,info");
    assert_eq!(log_setup(4).unwrap().filter, "bridgy_followers=trace,debug");
    let many = log_setup(9).unwrap();
    assert_eq!(many.filter, "trace");
    assert_eq!(many.format, LogFormat::Full);
}

#[test]
fn handle_syntax_edges() {
    assert!(matches!(parse_actor("a.b"), Ok(ActorRef::Handle(_))));
    assert!(matches!(parse_actor("a.1b"), Err(ActorError::InvalidHandle)));
    assert!(matches!(parse_actor("-a.b"), Err(ActorError::InvalidHandle)));
    assert!(matches!(parse_actor("a..b"), Err(ActorError::InvalidHandle)));
    assert!(matches!(parse_actor("nodots"), Err(ActorError::InvalidHandle)));
    let label63 = "a".repeat(63);
    let label64 = "a".repeat(64);
    assert!(matches!(parse_actor(&format!("{label63}.example")), Ok(ActorRef::Handle(_))));
    assert!(matches!(parse_actor(&format!("{label64}.example")), Err(ActorError::InvalidHandle)));
}

#[test]
fn did_syntax_edges() {
    assert!(matches!(parse_actor("did:plc:"), Err(ActorError::InvalidDid)));
    assert!(matches!(parse_actor("did:PLC:x"), Err(ActorError::InvalidDid)));
    assert!(matches!(parse_actor("did:web:a%3A:b"), Ok(ActorRef::Did(_))));
    assert!(matches!(parse_actor("did:web:a:"), Err(ActorError::InvalidDid)));
}

#[test]
fn webfinger_url_ignores_trailing_slash_of_server() {
    let url = get_domain_webfinger_url("https://bsky.brid.gy/", "acct:a@b").unwrap();
    assert_eq!(url, "https://bsky.brid.gy/.well-known/webfinger?resource=acct%3Aa%40b");
}
