//! Reading an account reference given by a user: a DID is used as it is, a
//! handle has to be resolved by the source network.

use vstd::prelude::*;

verus! {

pub open spec fn is_lower_letter(c: char) -> bool {
    'a' <= c && c <= 'z'
}

pub open spec fn is_letter(c: char) -> bool {
    is_lower_letter(c) || ('A' <= c && c <= 'Z')
}

pub open spec fn is_alphanumeric(c: char) -> bool {
    is_letter(c) || ('0' <= c && c <= '9')
}

/// A character that may end a DID: a letter, a digit, `.`, `_` or `-`.
pub open spec fn is_did_end_char(c: char) -> bool {
    is_alphanumeric(c) || c == '.' || c == '_' || c == '-'
}

/// A character of the method-specific part of a DID: those that may end it,
/// and `:` and `%`.
pub open spec fn is_did_char(c: char) -> bool {
    is_did_end_char(c) || c == ':' || c == '%'
}

/// What `Did::new` accepts: at most 2048 bytes matching
/// `^did:[a-z]+:[a-zA-Z0-9._:%-]*[a-zA-Z0-9._-]$` (every character of a match
/// is ASCII, so bytes and characters count alike).
pub open spec fn did_syntax(s: Seq<char>) -> bool {
    &&& s.len() <= 2048
    &&& s.len() >= 4 && s.take(4) == seq!['d', 'i', 'd', ':']
    &&& exists|k: int|
        4 < k && k + 1 < s.len() && #[trigger] s[k] == ':' && (forall|i: int|
            4 <= i < k ==> is_lower_letter(#[trigger] s[i])) && (forall|i: int|
            k < i < s.len() ==> is_did_char(#[trigger] s[i])) && is_did_end_char(s[s.len() - 1])
}

/// What `Handle::new` accepts: at most 253 bytes matching
/// `^([a-zA-Z0-9]([a-zA-Z0-9-]{0,61}[a-zA-Z0-9])?\.)+[a-zA-Z]([a-zA-Z0-9-]{0,61}[a-zA-Z0-9])?$`.
/// Read by characters: letters, digits, `-` and `.` only; at least one `.`;
/// every label (the text between dots) starts and ends with a letter or digit
/// and is at most 63 long; the last label starts with a letter.
pub open spec fn handle_syntax(s: Seq<char>) -> bool {
    &&& 0 < s.len() <= 253
    &&& forall|i: int|
        0 <= i < s.len() ==> is_alphanumeric(#[trigger] s[i]) || s[i] == '-' || s[i] == '.'
    &&& is_alphanumeric(s[0]) && is_alphanumeric(s[s.len() - 1])
    &&& forall|i: int|
        0 <= i < s.len() && #[trigger] s[i] == '.' ==> 0 < i && i + 1 < s.len() && is_alphanumeric(
            s[i - 1],
        ) && is_alphanumeric(s[i + 1])
    &&& exists|i: int|
        0 <= i < s.len() && #[trigger] s[i] == '.' && is_letter(s[i + 1]) && forall|j: int|
            i < j < s.len() ==> #[trigger] s[j] != '.'
    &&& forall|i: int|
        0 <= i && i + 64 <= s.len() ==> (#[trigger] s.subrange(i, i + 64)).contains('.')
}

/// Relies on `atrium_api::types::string::Did::new`: whether the string is a
/// well-formed DID.
#[verifier::external_body]
fn is_did(s: &str) -> (r: bool)
    ensures
        r == did_syntax(s@),
{
    atrium_api::types::string::Did::new(s.to_string()).is_ok()
}

/// Relies on `atrium_api::types::string::Handle::new`: whether the string is
/// a well-formed handle.
#[verifier::external_body]
fn is_handle(s: &str) -> (r: bool)
    ensures
        r == handle_syntax(s@),
{
    atrium_api::types::string::Handle::new(s.to_string()).is_ok()
}

/// The text with every leading `@` removed.
pub open spec fn strip_leading_at(s: Seq<char>) -> Seq<char>
    decreases s.len(),
{
    if s.len() > 0 && s[0] == '@' {
        strip_leading_at(s.drop_first())
    } else {
        s
    }
}

/// Whether the text starts with `did:`.
pub open spec fn has_did_prefix(s: Seq<char>) -> bool {
    s.len() >= 4 && s.take(4) == seq!['d', 'i', 'd', ':']
}

/// An account reference, once read.
#[derive(Debug)]
pub enum ActorRef {
    /// A DID, usable as it is.
    Did(String),
    /// A handle, to be resolved to a DID.
    Handle(String),
}

/// Why an account reference could not be read.
#[derive(Debug, Clone, Copy, PartialEq, Eq, Structural)]
pub enum ActorError {
    /// It starts with `did:` but is not a well-formed DID.
    InvalidDid,
    /// It is not a well-formed handle.
    InvalidHandle,
}

/// Removes every leading `@`.
fn trim_leading_at(s: &str) -> (r: &str)
    ensures
        r@ == strip_leading_at(s@),
{
    let n = s.unicode_len();
    let mut k: usize = 0;
    assert(s@.skip(0) =~= s@);
    while k < n && s.get_char(k) == '@'
        invariant
            k <= n,
            n == s@.len(),
            strip_leading_at(s@) == strip_leading_at(s@.skip(k as int)),
        decreases n - k,
    {
        assert(s@.skip(k as int).drop_first() =~= s@.skip(k + 1));
        k += 1;
    }
    assert(s@.subrange(k as int, n as int) =~= s@.skip(k as int));
    s.substring_char(k, n)
}

/// Whether the text starts with `did:`.
fn starts_with_did(s: &str) -> (r: bool)
    ensures
        r == has_did_prefix(s@),
{
    if s.unicode_len() < 4 {
        return false;
    }
    let r = s.get_char(0) == 'd' && s.get_char(1) == 'i' && s.get_char(2) == 'd' && s.get_char(3)
        == ':';
    assert(r ==> s@.take(4) =~= seq!['d', 'i', 'd', ':']);
    assert(s@.take(4) == seq!['d', 'i', 'd', ':'] ==> r) by {
        if s@.take(4) == seq!['d', 'i', 'd', ':'] {
            assert(s@.take(4)[0] == 'd' && s@.take(4)[1] == 'i' && s@.take(4)[2] == 'd' && s@.take(4)[3] == ':');
        }
    }
    r
}

/// Reads an account reference: leading `@`s are dropped; what then starts
/// with `did:` must be a DID, anything else a handle.
pub fn parse_actor(input: &str) -> (r: Result<ActorRef, ActorError>)
    ensures
        match r {
            Ok(ActorRef::Did(d)) => has_did_prefix(strip_leading_at(input@)) && did_syntax(
                strip_leading_at(input@),
            ) && d@ == strip_leading_at(input@),
            Ok(ActorRef::Handle(h)) => !has_did_prefix(strip_leading_at(input@)) && handle_syntax(
                strip_leading_at(input@),
            ) && h@ == strip_leading_at(input@),
            Err(ActorError::InvalidDid) => has_did_prefix(strip_leading_at(input@)) && !did_syntax(
                strip_leading_at(input@),
            ),
            Err(ActorError::InvalidHandle) => !has_did_prefix(strip_leading_at(input@))
                && !handle_syntax(strip_leading_at(input@)),
        },
{
    let clean = trim_leading_at(input);
    if starts_with_did(clean) {
        if is_did(clean) {
            Ok(ActorRef::Did(clean.to_owned()))
        } else {
            Err(ActorError::InvalidDid)
        }
    } else if is_handle(clean) {
        Ok(ActorRef::Handle(clean.to_owned()))
    } else {
        Err(ActorError::InvalidHandle)
    }
}

} // verus!
