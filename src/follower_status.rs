//! The follower classification: three ordered passes that give every
//! candidate exactly one terminal status.
//!
//! Pass one is local (ignore list, accounts already followed), pass two reads
//! the relationship records of the survivors, pass three reads one discovery
//! answer per remaining survivor. Each pass appends the candidates it settles
//! to the result and hands the others on.

use vstd::prelude::*;
use crate::relationships::candidate_dids;
use crate::utils::{
    ascii_lower_text, bluesky_handle_to_mastodon, contains_string, destination_address,
    is_ascii_text, lower_of, lowercase, strings_view,
};

verus! {

/// Why an account is known not to be bridged.
#[derive(Debug, Clone, Copy, PartialEq, Eq, Structural)]
pub enum NotBridgedReason {
    /// The account blocks the bridge.
    BlocksBridge,
    /// The relationship lookup returned nothing for the account.
    NoRelationshipData,
    /// Discovery on the bridge's server found no such account.
    NoAccountOnBridgy,
}

/// The terminal status of a candidate.
#[derive(Debug, Clone, Copy, PartialEq, Eq, Structural)]
pub enum FollowerStatus {
    /// The handle is in the ignore list.
    Ignored,
    /// The account is already followed on the destination network.
    AlreadyFollowedOnMastodon,
    /// The account is bridged and should be followed.
    ReadyToFollow,
    /// The account is not bridged.
    NotBridged(NotBridgedReason),
}

/// An account that follows the bridge on the source network.
#[derive(Debug)]
pub struct FollowCandidate {
    /// Stable identity of the account.
    pub did: String,
    /// Current human-readable handle.
    pub handle: String,
}

impl Clone for FollowCandidate {
    fn clone(&self) -> (r: Self)
        ensures
            r == *self,
    {
        FollowCandidate { did: self.did.clone(), handle: self.handle.clone() }
    }
}

/// A candidate together with the status that the classification gave it.
#[derive(Debug)]
pub struct BridgedFollower {
    pub handle: String,
    pub status: FollowerStatus,
}

impl Clone for BridgedFollower {
    fn clone(&self) -> (r: Self)
        ensures
            r == *self,
    {
        BridgedFollower { handle: self.handle.clone(), status: self.status }
    }
}

impl BridgedFollower {
    pub fn new(handle: String, status: FollowerStatus) -> (r: Self)
        ensures
            r.handle == handle,
            r.status == status,
    {
        BridgedFollower { handle, status }
    }
}

/// What the relationship lookup reports about one account, seen from the
/// bridge.
#[derive(Debug)]
pub struct RelationshipRecord {
    /// Identity of the account the record is about.
    pub did: String,
    /// Whether the bridge follows the account.
    pub followed_by_bridge: bool,
    /// Keys present in the record's open extension bag.
    pub extension_keys: Vec<String>,
}

/// A record signals a block when its extension bag holds `blockedBy` or
/// `blockedByList`, whatever the value.
pub open spec fn signals_block(keys: Seq<Seq<char>>) -> bool {
    keys.contains("blockedBy"@) || keys.contains("blockedByList"@)
}

impl RelationshipRecord {
    /// Whether the account is known to block the bridge.
    pub fn blocks_bridge(&self) -> (r: bool)
        ensures
            r == signals_block(strings_view(self.extension_keys@)),
    {
        let blocked_by = String::from_str("blockedBy");
        let blocked_by_list = String::from_str("blockedByList");
        contains_string(&self.extension_keys, &blocked_by) || contains_string(
            &self.extension_keys,
            &blocked_by_list,
        )
    }
}

/// A rule of one pass: the status it settles a candidate with, if any.
pub type PassRule = spec_fn(FollowCandidate) -> Option<FollowerStatus>;

/// The entries that a pass appends to the result, in candidate order.
pub open spec fn resolved_by(candidates: Seq<FollowCandidate>, rule: PassRule) -> Seq<BridgedFollower>
    decreases candidates.len(),
{
    if candidates.len() == 0 {
        seq![]
    } else {
        let earlier = resolved_by(candidates.drop_last(), rule);
        match rule(candidates.last()) {
            Some(status) => earlier.push(BridgedFollower { handle: candidates.last().handle, status }),
            None => earlier,
        }
    }
}

/// The candidates that a pass leaves open, in candidate order.
pub open spec fn survivors_of(candidates: Seq<FollowCandidate>, rule: PassRule) -> Seq<FollowCandidate>
    decreases candidates.len(),
{
    if candidates.len() == 0 {
        seq![]
    } else {
        let earlier = survivors_of(candidates.drop_last(), rule);
        match rule(candidates.last()) {
            Some(_) => earlier,
            None => earlier.push(candidates.last()),
        }
    }
}

/// Pass one for a single candidate: an ignored handle (exact match) comes
/// first, then an address that is already followed.
pub open spec fn local_verdict(
    candidate: FollowCandidate,
    ignored: Seq<Seq<char>>,
    following: Seq<Seq<char>>,
    bridge_domain: Seq<char>,
) -> Option<FollowerStatus> {
    if ignored.contains(candidate.handle@) {
        Some(FollowerStatus::Ignored)
    } else if following.contains(destination_address(candidate.handle@, bridge_domain)) {
        Some(FollowerStatus::AlreadyFollowedOnMastodon)
    } else {
        None
    }
}

/// The rule of pass one, for the given lists and bridge domain.
pub open spec fn pass_one_rule(
    ignored: Seq<Seq<char>>,
    following: Seq<Seq<char>>,
    bridge_domain: Seq<char>,
) -> PassRule {
    |c: FollowCandidate| local_verdict(c, ignored, following, bridge_domain)
}

/// Decides pass one for one candidate.
pub fn local_status(
    candidate: &FollowCandidate,
    ignored: &Vec<String>,
    following: &Vec<String>,
    bridge_domain: &str,
) -> (r: Option<FollowerStatus>)
    ensures
        r == local_verdict(*candidate, strings_view(ignored@), strings_view(following@), bridge_domain@),
        is_ascii_text(candidate.handle@) ==> lower_of(candidate.handle@) == ascii_lower_text(
            candidate.handle@,
        ),
{
    let address = bluesky_handle_to_mastodon(candidate.handle.as_str(), bridge_domain);
    proof {
        if is_ascii_text(candidate.handle@) {
            assert(lower_of(candidate.handle@) =~= ascii_lower_text(candidate.handle@)) by {
                assert(address@.len() == lower_of(candidate.handle@).len() + 1 + bridge_domain@.len());
                assert(address@.subrange(0, lower_of(candidate.handle@).len() as int) =~= lower_of(
                    candidate.handle@,
                ));
            }
        }
    }
    if contains_string(ignored, &candidate.handle) {
        return Some(FollowerStatus::Ignored);
    }
    if contains_string(following, &address) {
        Some(FollowerStatus::AlreadyFollowedOnMastodon)
    } else {
        None
    }
}

/// Pass one over all candidates: settles the ignored ones and those already
/// followed, appending them to `result`, and returns the others in order.
pub fn filter_local(
    candidates: &Vec<FollowCandidate>,
    ignored: &Vec<String>,
    following: &Vec<String>,
    bridge_domain: &str,
    result: &mut Vec<BridgedFollower>,
) -> (open: Vec<FollowCandidate>)
    ensures
        final(result)@ == old(result)@ + resolved_by(
            candidates@,
            pass_one_rule(strings_view(ignored@), strings_view(following@), bridge_domain@),
        ),
        open@ == survivors_of(
            candidates@,
            pass_one_rule(strings_view(ignored@), strings_view(following@), bridge_domain@),
        ),
{
    let ghost rule = pass_one_rule(strings_view(ignored@), strings_view(following@), bridge_domain@);
    let ghost start = result@;
    let mut open: Vec<FollowCandidate> = Vec::new();
    let mut i: usize = 0;
    while i < candidates.len()
        invariant
            i <= candidates.len(),
            rule == pass_one_rule(strings_view(ignored@), strings_view(following@), bridge_domain@),
            result@ == start + resolved_by(candidates@.take(i as int), rule),
            open@ == survivors_of(candidates@.take(i as int), rule),
        decreases candidates.len() - i,
    {
        let candidate = &candidates[i];
        let status = local_status(candidate, ignored, following, bridge_domain);
        assert(candidates@.take(i + 1).drop_last() =~= candidates@.take(i as int));
        assert(candidates@.take(i + 1).last() == candidates@[i as int]);
        match status {
            Some(s) => {
                result.push(BridgedFollower::new(candidate.handle.clone(), s));
                assert(result@ =~= start + resolved_by(candidates@.take(i + 1), rule));
            },
            None => {
                open.push(candidate.clone());
            },
        }
        i += 1;
    }
    assert(candidates@.take(candidates.len() as int) =~= candidates@);
    open
}

/// The record for `did` in a merged lookup answer: the last one that names it,
/// as when the records are inserted one by one into a map.
pub open spec fn relationship_for(records: Seq<RelationshipRecord>, did: Seq<char>) -> Option<RelationshipRecord>
    decreases records.len(),
{
    if records.len() == 0 {
        None
    } else if records.last().did@ == did {
        Some(records.last())
    } else {
        relationship_for(records.drop_last(), did)
    }
}

/// Finds the record for `did`, if the lookup returned one.
pub fn find_relationship(records: &Vec<RelationshipRecord>, did: &String) -> (r: Option<usize>)
    ensures
        match r {
            None => relationship_for(records@, did@) is None,
            Some(i) => i < records.len() && relationship_for(records@, did@) == Some(records@[i as int]),
        },
{
    let mut i: usize = records.len();
    assert(records@.take(i as int) =~= records@);
    while i > 0
        invariant
            i <= records.len(),
            relationship_for(records@, did@) == relationship_for(records@.take(i as int), did@),
        decreases i,
    {
        assert(records@.take(i as int).drop_last() =~= records@.take(i - 1));
        assert(records@.take(i as int).last() == records@[i - 1]);
        if records[i - 1].did == *did {
            return Some(i - 1);
        }
        i -= 1;
    }
    None
}

/// Pass two for a single candidate, from what the lookup returned for it: no
/// record, or a record with a block signal, settles it; otherwise it stays
/// open whatever the follow flag says.
pub open spec fn relationship_verdict(record: Option<RelationshipRecord>) -> Option<FollowerStatus> {
    match record {
        None => Some(FollowerStatus::NotBridged(NotBridgedReason::NoRelationshipData)),
        Some(r) => if signals_block(strings_view(r.extension_keys@)) {
            Some(FollowerStatus::NotBridged(NotBridgedReason::BlocksBridge))
        } else {
            None
        },
    }
}

/// The rule of pass two, for the given merged relationship answer.
pub open spec fn pass_two_rule(records: Seq<RelationshipRecord>) -> PassRule {
    |c: FollowCandidate| relationship_verdict(relationship_for(records, c.did@))
}

/// Decides pass two for one candidate.
pub fn relationship_status(candidate: &FollowCandidate, records: &Vec<RelationshipRecord>) -> (r: Option<FollowerStatus>)
    ensures
        r == relationship_verdict(relationship_for(records@, candidate.did@)),
{
    match find_relationship(records, &candidate.did) {
        None => Some(FollowerStatus::NotBridged(NotBridgedReason::NoRelationshipData)),
        Some(i) => if records[i].blocks_bridge() {
            Some(FollowerStatus::NotBridged(NotBridgedReason::BlocksBridge))
        } else {
            None
        },
    }
}

/// Pass two over the survivors of pass one, given the merged answer of the
/// relationship lookup: settles those without a record and those that block
/// the bridge, appending them to `result`, and returns the others in order.
pub fn filter_by_relationships(
    candidates: &Vec<FollowCandidate>,
    records: &Vec<RelationshipRecord>,
    result: &mut Vec<BridgedFollower>,
) -> (open: Vec<FollowCandidate>)
    ensures
        final(result)@ == old(result)@ + resolved_by(candidates@, pass_two_rule(records@)),
        open@ == survivors_of(candidates@, pass_two_rule(records@)),
{
    let ghost rule = pass_two_rule(records@);
    let ghost start = result@;
    let mut open: Vec<FollowCandidate> = Vec::new();
    let mut i: usize = 0;
    while i < candidates.len()
        invariant
            i <= candidates.len(),
            rule == pass_two_rule(records@),
            result@ == start + resolved_by(candidates@.take(i as int), rule),
            open@ == survivors_of(candidates@.take(i as int), rule),
        decreases candidates.len() - i,
    {
        let candidate = &candidates[i];
        let status = relationship_status(candidate, records);
        assert(candidates@.take(i + 1).drop_last() =~= candidates@.take(i as int));
        assert(candidates@.take(i + 1).last() == candidates@[i as int]);
        match status {
            Some(s) => {
                result.push(BridgedFollower::new(candidate.handle.clone(), s));
                assert(result@ =~= start + resolved_by(candidates@.take(i + 1), rule));
            },
            None => {
                open.push(candidate.clone());
            },
        }
        i += 1;
    }
    assert(candidates@.take(candidates.len() as int) =~= candidates@);
    open
}

/// Pass three for a single candidate, from the discovery answer for its
/// destination address.
pub open spec fn discovery_verdict(exists: bool) -> FollowerStatus {
    if exists {
        FollowerStatus::ReadyToFollow
    } else {
        FollowerStatus::NotBridged(NotBridgedReason::NoAccountOnBridgy)
    }
}

/// The entries that pass three appends: one per candidate, in order, where
/// `found[i]` is the discovery answer for `candidates[i]`.
pub open spec fn discovery_results(candidates: Seq<FollowCandidate>, found: Seq<bool>) -> Seq<BridgedFollower> {
    Seq::new(
        candidates.len(),
        |i: int| BridgedFollower { handle: candidates[i].handle, status: discovery_verdict(found[i]) },
    )
}

/// Decides pass three for one candidate.
pub fn discovery_status(exists: bool) -> (r: FollowerStatus)
    ensures
        r == discovery_verdict(exists),
{
    if exists {
        FollowerStatus::ReadyToFollow
    } else {
        FollowerStatus::NotBridged(NotBridgedReason::NoAccountOnBridgy)
    }
}

/// The destination addresses of candidates, in order.
pub open spec fn destination_addresses(candidates: Seq<FollowCandidate>, bridge_domain: Seq<char>) -> Seq<Seq<char>> {
    candidates.map_values(|c: FollowCandidate| destination_address(c.handle@, bridge_domain))
}

/// The destination addresses that pass three checks, one per candidate, in order.
pub fn discovery_addresses(candidates: &Vec<FollowCandidate>, bridge_domain: &str) -> (r: Vec<String>)
    ensures
        strings_view(r@) == destination_addresses(candidates@, bridge_domain@),
{
    let mut addresses: Vec<String> = Vec::new();
    let mut i: usize = 0;
    while i < candidates.len()
        invariant
            i <= candidates.len(),
            addresses.len() == i,
            strings_view(addresses@) == destination_addresses(candidates@.take(i as int), bridge_domain@),
        decreases candidates.len() - i,
    {
        let address = bluesky_handle_to_mastodon(candidates[i].handle.as_str(), bridge_domain);
        let ghost earlier = addresses@;
        addresses.push(address);
        assert forall|j: int| 0 <= j < i + 1 implies strings_view(addresses@)[j] == destination_addresses(
            candidates@.take(i + 1),
            bridge_domain@,
        )[j] by {
            if j < i {
                assert(strings_view(earlier)[j] == destination_addresses(
                    candidates@.take(i as int),
                    bridge_domain@,
                )[j]);
            }
        }
        assert(strings_view(addresses@) =~= destination_addresses(candidates@.take(i + 1), bridge_domain@));
        i += 1;
    }
    assert(candidates@.take(candidates.len() as int) =~= candidates@);
    addresses
}

/// Pass three: settles every remaining candidate from its discovery answer,
/// `found[i]` for `candidates[i]`, appending them to `result` in order.
pub fn apply_discovery(
    candidates: &Vec<FollowCandidate>,
    found: &Vec<bool>,
    result: &mut Vec<BridgedFollower>,
)
    requires
        found.len() == candidates.len(),
    ensures
        final(result)@ == old(result)@ + discovery_results(candidates@, found@),
{
    let ghost start = result@;
    let mut i: usize = 0;
    while i < candidates.len()
        invariant
            i <= candidates.len(),
            found.len() == candidates.len(),
            result@ =~= start + discovery_results(candidates@.take(i as int), found@),
        decreases candidates.len() - i,
    {
        let status = discovery_status(found[i]);
        result.push(BridgedFollower::new(candidates[i].handle.clone(), status));
        i += 1;
    }
    assert(candidates@.take(candidates.len() as int) =~= candidates@);
}

/// The candidates that reach pass three.
pub open spec fn pass_three_candidates(
    candidates: Seq<FollowCandidate>,
    ignored: Seq<Seq<char>>,
    following: Seq<Seq<char>>,
    bridge_domain: Seq<char>,
    records: Seq<RelationshipRecord>,
) -> Seq<FollowCandidate> {
    survivors_of(
        survivors_of(candidates, pass_one_rule(ignored, following, bridge_domain)),
        pass_two_rule(records),
    )
}

/// The whole classification result: what pass one settles, then what pass
/// two settles, then pass three's verdicts, where `records` is the merged
/// relationship answer and `found[i]` the discovery answer for the `i`-th
/// candidate that reaches pass three.
pub open spec fn classification(
    candidates: Seq<FollowCandidate>,
    ignored: Seq<Seq<char>>,
    following: Seq<Seq<char>>,
    bridge_domain: Seq<char>,
    records: Seq<RelationshipRecord>,
    found: Seq<bool>,
) -> Seq<BridgedFollower> {
    let one = pass_one_rule(ignored, following, bridge_domain);
    let open = survivors_of(candidates, one);
    resolved_by(candidates, one) + resolved_by(open, pass_two_rule(records)) + discovery_results(
        pass_three_candidates(candidates, ignored, following, bridge_domain, records),
        found,
    )
}

/// The handle of each candidate.
pub open spec fn candidate_handles(candidates: Seq<FollowCandidate>) -> Seq<Seq<char>> {
    candidates.map_values(|c: FollowCandidate| c.handle@)
}

/// The handle of each entry.
pub open spec fn follower_handles(followers: Seq<BridgedFollower>) -> Seq<Seq<char>> {
    followers.map_values(|f: BridgedFollower| f.handle@)
}

/// No two candidates share an identity.
pub open spec fn unique_identities(candidates: Seq<FollowCandidate>) -> bool {
    forall|i: int, j: int|
        0 <= i < candidates.len() && 0 <= j < candidates.len() && #[trigger] candidates[i].did@
            == #[trigger] candidates[j].did@ ==> i == j
}

proof fn lemma_pass_partitions(candidates: Seq<FollowCandidate>, rule: PassRule)
    ensures
        follower_handles(resolved_by(candidates, rule)).to_multiset().add(
            candidate_handles(survivors_of(candidates, rule)).to_multiset(),
        ) == candidate_handles(candidates).to_multiset(),
    decreases candidates.len(),
{
    broadcast use vstd::seq_lib::group_to_multiset_ensures;

    if candidates.len() == 0 {
        assert(follower_handles(resolved_by(candidates, rule)) =~= Seq::<Seq<char>>::empty());
        assert(candidate_handles(survivors_of(candidates, rule)) =~= Seq::<Seq<char>>::empty());
        assert(candidate_handles(candidates) =~= Seq::<Seq<char>>::empty());
        assert(Seq::<Seq<char>>::empty().to_multiset().add(Seq::<Seq<char>>::empty().to_multiset())
            =~= Seq::<Seq<char>>::empty().to_multiset());
    } else {
        let earlier = candidates.drop_last();
        let c = candidates.last();
        lemma_pass_partitions(earlier, rule);
        assert(candidate_handles(candidates) =~= candidate_handles(earlier).push(c.handle@));
        let settled = follower_handles(resolved_by(earlier, rule));
        let left = candidate_handles(survivors_of(earlier, rule));
        match rule(c) {
            Some(status) => {
                assert(follower_handles(resolved_by(candidates, rule)) =~= settled.push(c.handle@));
                assert(settled.push(c.handle@).to_multiset().add(left.to_multiset())
                    =~= settled.to_multiset().add(left.to_multiset()).insert(c.handle@));
            },
            None => {
                assert(candidate_handles(survivors_of(candidates, rule)) =~= left.push(c.handle@));
                assert(settled.to_multiset().add(left.push(c.handle@).to_multiset())
                    =~= settled.to_multiset().add(left.to_multiset()).insert(c.handle@));
            },
        }
    }
}

/// Every candidate gets exactly one status: the classification holds as many
/// entries as there are candidates, and each candidate's handle as often as
/// among the candidates. No candidate is left out or settled twice.
pub proof fn lemma_every_candidate_classified_once(
    candidates: Seq<FollowCandidate>,
    ignored: Seq<Seq<char>>,
    following: Seq<Seq<char>>,
    bridge_domain: Seq<char>,
    records: Seq<RelationshipRecord>,
    found: Seq<bool>,
)
    ensures
        classification(candidates, ignored, following, bridge_domain, records, found).len()
            == candidates.len(),
        follower_handles(
            classification(candidates, ignored, following, bridge_domain, records, found),
        ).to_multiset() == candidate_handles(candidates).to_multiset(),
{
    broadcast use vstd::seq_lib::group_to_multiset_ensures;

    let one = pass_one_rule(ignored, following, bridge_domain);
    let two = pass_two_rule(records);
    let open = survivors_of(candidates, one);
    let last = pass_three_candidates(candidates, ignored, following, bridge_domain, records);
    let first = resolved_by(candidates, one);
    let second = resolved_by(open, two);
    let third = discovery_results(last, found);
    lemma_pass_partitions(candidates, one);
    lemma_pass_partitions(open, two);
    assert(follower_handles(third) =~= candidate_handles(last));
    let all = classification(candidates, ignored, following, bridge_domain, records, found);
    assert(follower_handles(all) =~= follower_handles(first) + follower_handles(second)
        + follower_handles(third));
    vstd::seq_lib::lemma_multiset_commutative(
        follower_handles(first) + follower_handles(second),
        follower_handles(third),
    );
    vstd::seq_lib::lemma_multiset_commutative(follower_handles(first), follower_handles(second));
    assert(follower_handles(all).to_multiset() =~= candidate_handles(candidates).to_multiset());
    assert(follower_handles(all).to_multiset().len() == follower_handles(all).len());
    assert(candidate_handles(candidates).to_multiset().len() == candidate_handles(candidates).len());
}

proof fn lemma_survivors_are_open(candidates: Seq<FollowCandidate>, rule: PassRule)
    ensures
        forall|i: int|
            0 <= i < survivors_of(candidates, rule).len() ==> candidates.contains(
                #[trigger] survivors_of(candidates, rule)[i],
            ) && rule(survivors_of(candidates, rule)[i]) is None,
    decreases candidates.len(),
{
    if candidates.len() > 0 {
        let earlier = candidates.drop_last();
        lemma_survivors_are_open(earlier, rule);
        assert forall|i: int| 0 <= i < survivors_of(candidates, rule).len() implies candidates.contains(
            #[trigger] survivors_of(candidates, rule)[i],
        ) && rule(survivors_of(candidates, rule)[i]) is None by {
            let x = survivors_of(candidates, rule)[i];
            if i < survivors_of(earlier, rule).len() {
                assert(x == survivors_of(earlier, rule)[i]);
                let j = choose|j: int| 0 <= j < earlier.len() && earlier[j] == x;
                assert(candidates[j] == x);
            } else {
                assert(x == candidates.last());
                assert(candidates[candidates.len() - 1] == x);
            }
        }
    }
}

proof fn lemma_resolved_holds_settled(candidates: Seq<FollowCandidate>, rule: PassRule)
    ensures
        forall|i: int|
            0 <= i < candidates.len() && (#[trigger] rule(candidates[i])) is Some ==> resolved_by(
                candidates,
                rule,
            ).contains(BridgedFollower { handle: candidates[i].handle, status: rule(candidates[i])->Some_0 }),
    decreases candidates.len(),
{
    if candidates.len() > 0 {
        let earlier = candidates.drop_last();
        lemma_resolved_holds_settled(earlier, rule);
        assert forall|i: int|
            0 <= i < candidates.len() && (#[trigger] rule(candidates[i])) is Some implies resolved_by(
                candidates,
                rule,
            ).contains(BridgedFollower { handle: candidates[i].handle, status: rule(candidates[i])->Some_0 }) by {
            let entry = BridgedFollower { handle: candidates[i].handle, status: rule(candidates[i])->Some_0 };
            let before = resolved_by(earlier, rule);
            if i < earlier.len() {
                assert(earlier[i] == candidates[i]);
                assert(rule(earlier[i]) is Some);
                let k = choose|k: int| 0 <= k < before.len() && before[k] == entry;
                match rule(candidates.last()) {
                    Some(st) => {
                        assert(resolved_by(candidates, rule)[k] == entry);
                    },
                    None => {},
                }
            } else {
                assert(candidates[i] == candidates.last());
                assert(resolved_by(candidates, rule)[before.len() as int] == entry);
            }
        }
    }
}

/// Pass one settles every candidate that shares the identity of `c`.
pub open spec fn identity_settled(
    candidates: Seq<FollowCandidate>,
    c: FollowCandidate,
    ignored: Seq<Seq<char>>,
    following: Seq<Seq<char>>,
    bridge_domain: Seq<char>,
) -> bool {
    forall|j: int|
        0 <= j < candidates.len() && (#[trigger] candidates[j]).did@ == c.did@ ==> local_verdict(
            candidates[j],
            ignored,
            following,
            bridge_domain,
        ) is Some
}

/// Pass one settles every candidate whose destination address is that of `c`.
pub open spec fn address_settled(
    candidates: Seq<FollowCandidate>,
    c: FollowCandidate,
    ignored: Seq<Seq<char>>,
    following: Seq<Seq<char>>,
    bridge_domain: Seq<char>,
) -> bool {
    forall|j: int|
        0 <= j < candidates.len() && destination_address((#[trigger] candidates[j]).handle@, bridge_domain)
            == destination_address(c.handle@, bridge_domain) ==> local_verdict(
            candidates[j],
            ignored,
            following,
            bridge_domain,
        ) is Some
}

/// A candidate that pass one settles (ignored, or already followed) never
/// reaches a later pass, and keeps its status:
/// - every candidate that pass two looks up, and every one that pass three
///   checks, is one that pass one left open;
/// - a settled candidate is not among those that pass three checks, and the
///   result holds its handle with the status that pass one gave;
/// - its identity is not looked up unless another candidate with the same
///   identity was left open, so never when identities are distinct;
/// - its address is not checked unless another candidate with the same
///   address was left open, so never when it is already followed.
pub proof fn lemma_settled_candidates_are_not_looked_up(
    candidates: Seq<FollowCandidate>,
    ignored: Seq<Seq<char>>,
    following: Seq<Seq<char>>,
    bridge_domain: Seq<char>,
    records: Seq<RelationshipRecord>,
    found: Seq<bool>,
)
    ensures
        forall|i: int|
            0 <= i < survivors_of(candidates, pass_one_rule(ignored, following, bridge_domain)).len()
                ==> local_verdict(
                #[trigger] survivors_of(candidates, pass_one_rule(ignored, following, bridge_domain))[i],
                ignored,
                following,
                bridge_domain,
            ) is None,
        forall|i: int|
            0 <= i < pass_three_candidates(candidates, ignored, following, bridge_domain, records).len()
                ==> local_verdict(
                #[trigger] pass_three_candidates(candidates, ignored, following, bridge_domain, records)[i],
                ignored,
                following,
                bridge_domain,
            ) is None,
        forall|c: FollowCandidate|
            candidates.contains(c) && (local_verdict(c, ignored, following, bridge_domain) is Some)
                ==> !pass_three_candidates(candidates, ignored, following, bridge_domain, records).contains(c)
                && classification(candidates, ignored, following, bridge_domain, records, found).contains(
                BridgedFollower {
                    handle: c.handle,
                    status: local_verdict(c, ignored, following, bridge_domain)->Some_0,
                },
            ),
        forall|c: FollowCandidate|
            candidates.contains(c) && identity_settled(candidates, c, ignored, following, bridge_domain)
                ==> !candidate_dids(
                survivors_of(candidates, pass_one_rule(ignored, following, bridge_domain)),
            ).contains(c.did@),
        unique_identities(candidates) ==> forall|c: FollowCandidate|
            candidates.contains(c) && (local_verdict(c, ignored, following, bridge_domain) is Some)
                ==> !candidate_dids(
                survivors_of(candidates, pass_one_rule(ignored, following, bridge_domain)),
            ).contains(c.did@),
        forall|c: FollowCandidate|
            candidates.contains(c) && address_settled(candidates, c, ignored, following, bridge_domain)
                ==> !destination_addresses(
                pass_three_candidates(candidates, ignored, following, bridge_domain, records),
                bridge_domain,
            ).contains(destination_address(c.handle@, bridge_domain)),
        forall|c: FollowCandidate|
            candidates.contains(c) && local_verdict(c, ignored, following, bridge_domain) == Some(
                FollowerStatus::AlreadyFollowedOnMastodon,
            ) ==> !destination_addresses(
                pass_three_candidates(candidates, ignored, following, bridge_domain, records),
                bridge_domain,
            ).contains(destination_address(c.handle@, bridge_domain)),
{
    let one = pass_one_rule(ignored, following, bridge_domain);
    lemma_resolved_holds_settled(candidates, one);
    let open = survivors_of(candidates, one);
    let last = pass_three_candidates(candidates, ignored, following, bridge_domain, records);
    lemma_survivors_are_open(candidates, one);
    lemma_survivors_are_open(open, pass_two_rule(records));
    assert forall|i: int| 0 <= i < last.len() implies local_verdict(
        #[trigger] last[i],
        ignored,
        following,
        bridge_domain,
    ) is None && candidates.contains(last[i]) by {
        let k = choose|k: int| 0 <= k < open.len() && open[k] == last[i];
        assert(one(open[k]) is None);
        assert(candidates.contains(open[k]));
    }
    assert forall|c: FollowCandidate|
        candidates.contains(c) && (local_verdict(c, ignored, following, bridge_domain)
            is Some) implies !last.contains(c) && classification(
        candidates,
        ignored,
        following,
        bridge_domain,
        records,
        found,
    ).contains(
        BridgedFollower {
            handle: c.handle,
            status: local_verdict(c, ignored, following, bridge_domain)->Some_0,
        },
    ) by {
        if last.contains(c) {
            let k = choose|k: int| 0 <= k < last.len() && last[k] == c;
            assert(local_verdict(last[k], ignored, following, bridge_domain) is None);
        }
        let j = choose|j: int| 0 <= j < candidates.len() && candidates[j] == c;
        assert(one(candidates[j]) is Some);
        let entry = BridgedFollower {
            handle: c.handle,
            status: local_verdict(c, ignored, following, bridge_domain)->Some_0,
        };
        let first = resolved_by(candidates, one);
        assert(first.contains(entry));
        let k = choose|k: int| 0 <= k < first.len() && first[k] == entry;
        let all = classification(candidates, ignored, following, bridge_domain, records, found);
        assert(all[k] == entry);
    }
    assert forall|c: FollowCandidate|
        candidates.contains(c) && identity_settled(
            candidates,
            c,
            ignored,
            following,
            bridge_domain,
        ) implies !candidate_dids(open).contains(c.did@) by {
        if candidate_dids(open).contains(c.did@) {
            let k = choose|k: int| 0 <= k < open.len() && candidate_dids(open)[k] == c.did@;
            assert(candidates.contains(open[k]));
            let m = choose|m: int| 0 <= m < candidates.len() && candidates[m] == open[k];
            assert(candidates[m].did@ == c.did@);
            assert(one(open[k]) is None);
        }
    }
    if unique_identities(candidates) {
        assert forall|c: FollowCandidate|
            candidates.contains(c) && (local_verdict(c, ignored, following, bridge_domain)
                is Some) implies identity_settled(candidates, c, ignored, following, bridge_domain) by {
            let j = choose|j: int| 0 <= j < candidates.len() && candidates[j] == c;
            assert forall|m: int|
                0 <= m < candidates.len() && (#[trigger] candidates[m]).did@ == c.did@ implies local_verdict(
                candidates[m],
                ignored,
                following,
                bridge_domain,
            ) is Some by {
                assert(candidates[m].did@ == candidates[j].did@);
            }
        }
    }
    assert forall|c: FollowCandidate|
        candidates.contains(c) && address_settled(
            candidates,
            c,
            ignored,
            following,
            bridge_domain,
        ) implies !destination_addresses(last, bridge_domain).contains(
        destination_address(c.handle@, bridge_domain),
    ) by {
        let address = destination_address(c.handle@, bridge_domain);
        if destination_addresses(last, bridge_domain).contains(address) {
            let k = choose|k: int|
                0 <= k < destination_addresses(last, bridge_domain).len() && destination_addresses(
                    last,
                    bridge_domain,
                )[k] == address;
            assert(candidates.contains(last[k]));
            let m = choose|m: int| 0 <= m < candidates.len() && candidates[m] == last[k];
            assert(destination_address(candidates[m].handle@, bridge_domain) == address);
            assert(local_verdict(last[k], ignored, following, bridge_domain) is None);
        }
    }
    assert forall|c: FollowCandidate|
        candidates.contains(c) && local_verdict(c, ignored, following, bridge_domain) == Some(
            FollowerStatus::AlreadyFollowedOnMastodon,
        ) implies address_settled(candidates, c, ignored, following, bridge_domain) by {
        assert forall|m: int|
            0 <= m < candidates.len() && destination_address(
                (#[trigger] candidates[m]).handle@,
                bridge_domain,
            ) == destination_address(c.handle@, bridge_domain) implies local_verdict(
            candidates[m],
            ignored,
            following,
            bridge_domain,
        ) is Some by {
            assert(following.contains(destination_address(c.handle@, bridge_domain)));
        }
    }
}

/// The identity and handle of each candidate.
pub open spec fn candidate_views(candidates: Seq<FollowCandidate>) -> Seq<(Seq<char>, Seq<char>)> {
    candidates.map_values(|c: FollowCandidate| (c.did@, c.handle@))
}

/// The handle and status of each entry.
pub open spec fn follower_views(followers: Seq<BridgedFollower>) -> Seq<(Seq<char>, FollowerStatus)> {
    followers.map_values(|f: BridgedFollower| (f.handle@, f.status))
}

/// The identity, follow flag and extension keys of each record.
pub open spec fn record_views(records: Seq<RelationshipRecord>) -> Seq<(Seq<char>, bool, Seq<Seq<char>>)> {
    records.map_values(
        |r: RelationshipRecord| (r.did@, r.followed_by_bridge, strings_view(r.extension_keys@)),
    )
}

proof fn lemma_pass_congruent(
    first: Seq<FollowCandidate>,
    second: Seq<FollowCandidate>,
    rule_first: PassRule,
    rule_second: PassRule,
)
    requires
        candidate_views(first) == candidate_views(second),
        forall|x: FollowCandidate, y: FollowCandidate|
            x.did@ == y.did@ && x.handle@ == y.handle@ ==> #[trigger] rule_first(x)
                == #[trigger] rule_second(y),
    ensures
        follower_views(resolved_by(first, rule_first)) == follower_views(
            resolved_by(second, rule_second),
        ),
        candidate_views(survivors_of(first, rule_first)) == candidate_views(
            survivors_of(second, rule_second),
        ),
    decreases first.len(),
{
    assert(first.len() == candidate_views(first).len());
    assert(second.len() == candidate_views(second).len());
    if first.len() > 0 {
        let n = first.len() - 1;
        assert(candidate_views(first.drop_last()) =~= candidate_views(second.drop_last())) by {
            assert forall|i: int| 0 <= i < n implies candidate_views(first.drop_last())[i]
                == candidate_views(second.drop_last())[i] by {
                assert(candidate_views(first)[i] == candidate_views(second)[i]);
            }
        }
        lemma_pass_congruent(first.drop_last(), second.drop_last(), rule_first, rule_second);
        assert(candidate_views(first)[n] == candidate_views(second)[n]);
        let x = first.last();
        let y = second.last();
        assert(rule_first(x) == rule_second(y));
        let settled_first = resolved_by(first.drop_last(), rule_first);
        let settled_second = resolved_by(second.drop_last(), rule_second);
        let open_first = survivors_of(first.drop_last(), rule_first);
        let open_second = survivors_of(second.drop_last(), rule_second);
        match rule_first(x) {
            Some(status) => {
                assert(follower_views(settled_first.push(
                    BridgedFollower { handle: x.handle, status },
                )) =~= follower_views(settled_first).push((x.handle@, status)));
                assert(follower_views(settled_second.push(
                    BridgedFollower { handle: y.handle, status },
                )) =~= follower_views(settled_second).push((y.handle@, status)));
            },
            None => {
                assert(candidate_views(open_first.push(x)) =~= candidate_views(open_first).push(
                    (x.did@, x.handle@),
                ));
                assert(candidate_views(open_second.push(y)) =~= candidate_views(open_second).push(
                    (y.did@, y.handle@),
                ));
            },
        }
    }
}

proof fn lemma_relationship_congruent(
    first: Seq<RelationshipRecord>,
    second: Seq<RelationshipRecord>,
    did: Seq<char>,
)
    requires
        record_views(first) == record_views(second),
    ensures
        relationship_verdict(relationship_for(first, did)) == relationship_verdict(
            relationship_for(second, did),
        ),
    decreases first.len(),
{
    assert(first.len() == record_views(first).len());
    assert(second.len() == record_views(second).len());
    if first.len() > 0 {
        let n = first.len() - 1;
        assert(record_views(first.drop_last()) =~= record_views(second.drop_last())) by {
            assert forall|i: int| 0 <= i < n implies record_views(first.drop_last())[i]
                == record_views(second.drop_last())[i] by {
                assert(record_views(first)[i] == record_views(second)[i]);
            }
        }
        assert(record_views(first)[n] == record_views(second)[n]);
        lemma_relationship_congruent(first.drop_last(), second.drop_last(), did);
    }
}

/// Classifying twice, with candidates, lists and answers of the same text,
/// gives the same result: the same handles with the same statuses in the
/// same order. Nothing else enters the classification.
pub proof fn lemma_classification_is_repeatable(
    candidates: Seq<FollowCandidate>,
    candidates_again: Seq<FollowCandidate>,
    ignored: Seq<Seq<char>>,
    following: Seq<Seq<char>>,
    bridge_domain: Seq<char>,
    records: Seq<RelationshipRecord>,
    records_again: Seq<RelationshipRecord>,
    found: Seq<bool>,
)
    requires
        candidate_views(candidates) == candidate_views(candidates_again),
        record_views(records) == record_views(records_again),
    ensures
        follower_views(classification(candidates, ignored, following, bridge_domain, records, found))
            == follower_views(
            classification(candidates_again, ignored, following, bridge_domain, records_again, found),
        ),
{
    let one = pass_one_rule(ignored, following, bridge_domain);
    let two = pass_two_rule(records);
    let two_again = pass_two_rule(records_again);
    lemma_pass_congruent(candidates, candidates_again, one, one);
    let open = survivors_of(candidates, one);
    let open_again = survivors_of(candidates_again, one);
    assert forall|x: FollowCandidate, y: FollowCandidate|
        x.did@ == y.did@ && x.handle@ == y.handle@ implies #[trigger] two(x) == #[trigger] two_again(
        y,
    ) by {
        lemma_relationship_congruent(records, records_again, x.did@);
    }
    lemma_pass_congruent(open, open_again, two, two_again);
    let last = survivors_of(open, two);
    let last_again = survivors_of(open_again, two_again);
    assert(last.len() == candidate_views(last).len());
    assert(last_again.len() == candidate_views(last_again).len());
    assert(follower_views(discovery_results(last, found)) =~= follower_views(
        discovery_results(last_again, found),
    )) by {
        assert forall|i: int| 0 <= i < last.len() implies follower_views(
            discovery_results(last, found),
        )[i] == follower_views(discovery_results(last_again, found))[i] by {
            assert(candidate_views(last)[i] == candidate_views(last_again)[i]);
        }
    }
    let all = classification(candidates, ignored, following, bridge_domain, records, found);
    let all_again = classification(
        candidates_again,
        ignored,
        following,
        bridge_domain,
        records_again,
        found,
    );
    assert(follower_views(all) =~= follower_views(resolved_by(candidates, one)) + follower_views(
        resolved_by(open, two),
    ) + follower_views(discovery_results(last, found)));
    assert(follower_views(all_again) =~= follower_views(resolved_by(candidates_again, one))
        + follower_views(resolved_by(open_again, two_again)) + follower_views(
        discovery_results(last_again, found),
    ));
}

/// The account addresses followed on the destination network, lower-cased.
pub open spec fn lowered(accounts: Seq<String>) -> Seq<Seq<char>> {
    accounts.map_values(|a: String| lower_of(a@))
}

/// Lower-cases the account addresses followed on the destination network,
/// giving the set that pass one compares addresses with.
pub fn destination_follow_set(accounts: &Vec<String>) -> (r: Vec<String>)
    ensures
        strings_view(r@) == lowered(accounts@),
        forall|i: int|
            0 <= i < accounts.len() && is_ascii_text(#[trigger] accounts@[i]@) ==> r@[i]@
                == ascii_lower_text(accounts@[i]@),
{
    let mut set: Vec<String> = Vec::new();
    let mut i: usize = 0;
    while i < accounts.len()
        invariant
            i <= accounts.len(),
            set.len() == i,
            strings_view(set@) == lowered(accounts@.take(i as int)),
            forall|j: int|
                0 <= j < i && is_ascii_text(#[trigger] accounts@[j]@) ==> set@[j]@
                    == ascii_lower_text(accounts@[j]@),
        decreases accounts.len() - i,
    {
        let ghost earlier = set@;
        set.push(lowercase(accounts[i].as_str()));
        assert forall|j: int| 0 <= j < i + 1 implies strings_view(set@)[j] == lowered(
            accounts@.take(i + 1),
        )[j] by {
            if j < i {
                assert(strings_view(earlier)[j] == lowered(accounts@.take(i as int))[j]);
            }
        }
        assert(strings_view(set@) =~= lowered(accounts@.take(i + 1)));
        i += 1;
    }
    assert(accounts@.take(accounts.len() as int) =~= accounts@);
    set
}

/// The handles of the entries that are ready to follow, in order.
pub open spec fn ready_handles(followers: Seq<BridgedFollower>) -> Seq<Seq<char>>
    decreases followers.len(),
{
    if followers.len() == 0 {
        seq![]
    } else {
        let earlier = ready_handles(followers.drop_last());
        if followers.last().status == FollowerStatus::ReadyToFollow {
            earlier.push(followers.last().handle@)
        } else {
            earlier
        }
    }
}

/// The handles of the entries that are ready to follow, in order: what the
/// follow step and the ignore prompt work on.
pub fn ready_to_follow(statuses: &Vec<BridgedFollower>) -> (r: Vec<String>)
    ensures
        strings_view(r@) == ready_handles(statuses@),
{
    let mut handles: Vec<String> = Vec::new();
    let mut i: usize = 0;
    while i < statuses.len()
        invariant
            i <= statuses.len(),
            strings_view(handles@) == ready_handles(statuses@.take(i as int)),
        decreases statuses.len() - i,
    {
        assert(statuses@.take(i + 1).drop_last() =~= statuses@.take(i as int));
        assert(statuses@.take(i + 1).last() == statuses@[i as int]);
        if statuses[i].status == FollowerStatus::ReadyToFollow {
            let ghost earlier = handles@;
            handles.push(statuses[i].handle.clone());
            assert(strings_view(handles@) =~= strings_view(earlier).push(statuses@[i as int].handle@));
        }
        i += 1;
    }
    assert(statuses@.take(statuses.len() as int) =~= statuses@);
    handles
}

} // verus!
