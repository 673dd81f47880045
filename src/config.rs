//! Configuration values and the edits that the commands make to them: the
//! ignore list, the destination server's address, and the names under which
//! credentials are stored.

use vstd::prelude::*;
use crate::utils::{contains_string, strings_view};

verus! {

/// Where the destination-network account lives, and the token to act for it.
#[derive(Debug)]
pub struct MastodonConfig {
    pub server: String,
    pub access_token: String,
}

/// The settings of a run.
#[derive(Debug)]
pub struct Config {
    pub username: String,
    pub password: String,
    /// Handles that are never to be followed.
    pub ignored_accounts: Vec<String>,
    pub mastodon: Option<MastodonConfig>,
}

impl Config {
    /// The handles that are never to be followed.
    pub fn ignored_accounts(&self) -> (r: &Vec<String>)
        ensures
            r == &self.ignored_accounts,
    {
        &self.ignored_accounts
    }
}

/// Adds an account to the ignore list unless the list already holds it.
/// Returns whether it was added.
pub fn add_ignored(list: &mut Vec<String>, account: String) -> (added: bool)
    ensures
        added == !strings_view(old(list)@).contains(account@),
        added ==> final(list)@ == old(list)@.push(account),
        !added ==> final(list)@ == old(list)@,
{
    if contains_string(list, &account) {
        false
    } else {
        list.push(account);
        true
    }
}

/// The entries of `list` whose text is not among `removed`, in order.
pub open spec fn kept_entries(list: Seq<String>, removed: Seq<Seq<char>>) -> Seq<String>
    decreases list.len(),
{
    if list.len() == 0 {
        seq![]
    } else {
        let earlier = kept_entries(list.drop_last(), removed);
        if removed.contains(list.last()@) {
            earlier
        } else {
            earlier.push(list.last())
        }
    }
}

/// Removes from the ignore list every entry that `removed` names.
pub fn remove_ignored(list: &mut Vec<String>, removed: &Vec<String>)
    ensures
        final(list)@ == kept_entries(old(list)@, strings_view(removed@)),
{
    let ghost start = list@;
    let mut kept: Vec<String> = Vec::new();
    let mut i: usize = 0;
    while i < list.len()
        invariant
            i <= list.len(),
            list@ == start,
            kept@ == kept_entries(start.take(i as int), strings_view(removed@)),
        decreases list.len() - i,
    {
        assert(start.take(i + 1).drop_last() =~= start.take(i as int));
        assert(start.take(i + 1).last() == start[i as int]);
        if !contains_string(removed, &list[i]) {
            kept.push(list[i].clone());
        }
        i += 1;
    }
    assert(start.take(start.len() as int) =~= start);
    *list = kept;
}

/// Whether the text starts with `http`.
pub open spec fn has_http_prefix(s: Seq<char>) -> bool {
    s.len() >= 4 && s.take(4) == seq!['h', 't', 't', 'p']
}

/// The server's base URL as the user typed it when it names a scheme, else
/// with `https://` in front.
pub open spec fn server_base_url(input: Seq<char>) -> Seq<char> {
    if has_http_prefix(input) {
        input
    } else {
        "https://"@ + input
    }
}

/// Completes a typed server address into a base URL.
pub fn server_url(input: &str) -> (r: String)
    ensures
        r@ == server_base_url(input@),
{
    let scheme_given = input.unicode_len() >= 4 && input.get_char(0) == 'h' && input.get_char(1)
        == 't' && input.get_char(2) == 't' && input.get_char(3) == 'p';
    assert(scheme_given ==> input@.take(4) =~= seq!['h', 't', 't', 'p']);
    assert(has_http_prefix(input@) ==> scheme_given) by {
        if has_http_prefix(input@) {
            assert(input@.take(4)[0] == 'h' && input@.take(4)[1] == 't' && input@.take(4)[2] == 't'
                && input@.take(4)[3] == 'p');
        }
    }
    if scheme_given {
        input.to_owned()
    } else {
        let mut url = String::from_str("https://");
        url.append(input);
        url
    }
}

/// The address of the authorization page, for servers whose registration
/// answer gives none.
pub fn fallback_authorize_url(server_url: &str, client_id: &str) -> (r: String)
    ensures
        r@ == server_url@ + "/oauth/authorize?client_id="@ + client_id@
            + "&redirect_uri=urn:ietf:wg:oauth:2.0:oob&response_type=code&scope=read:accounts+read:follows"@,
{
    let mut url = String::from_str(server_url);
    url.append("/oauth/authorize?client_id=");
    url.append(client_id);
    url.append(
        "&redirect_uri=urn:ietf:wg:oauth:2.0:oob&response_type=code&scope=read:accounts+read:follows",
    );
    url
}

/// The service under which credentials are stored.
pub const CREDENTIAL_SERVICE: &'static str = "bridgy_followers";

/// The stored-credential entry for a source-network password.
pub fn bluesky_password_entry(user_name: &str) -> (r: String)
    ensures
        r@ == "bluesky_"@ + user_name@,
{
    let mut entry = String::from_str("bluesky_");
    entry.append(user_name);
    entry
}

/// The stored-credential entry for a destination server's access token.
pub fn mastodon_token_entry(server: &str) -> (r: String)
    ensures
        r@ == "mastodon_access_token_"@ + server@,
{
    let mut entry = String::from_str("mastodon_access_token_");
    entry.append(server);
    entry
}

} // verus!
