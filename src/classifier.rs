//! A classification run from start to end. The caller performs the remote
//! lookups that the run asks for and hands the answers back; the run decides
//! everything else, and its result is `classification` of what it was given.

use vstd::prelude::*;
use crate::follower_status::{
    apply_discovery, classification, destination_addresses, discovery_addresses,
    filter_by_relationships, filter_local, pass_one_rule, pass_three_candidates, pass_two_rule,
    survivors_of, resolved_by, BridgedFollower, FollowCandidate, RelationshipRecord,
};
use crate::relationships::{
    candidate_dids, chunk_others, chunk_views, chunks_of, lookup_identities, merge_relationships,
    records_of,
};
use crate::utils::strings_view;

verus! {

/// Where a run stands.
#[derive(Debug, Clone, Copy, PartialEq, Eq, Structural)]
pub enum Stage {
    /// Pass one is done; the relationship answers are awaited.
    AwaitingRelationships,
    /// Pass two is done; the discovery answers are awaited.
    AwaitingDiscovery,
    /// Every candidate has its status.
    Done,
}

/// A classification run.
pub struct Classifier {
    result: Vec<BridgedFollower>,
    open: Vec<FollowCandidate>,
    bridge_domain: String,
    stage: Stage,
    candidates: Ghost<Seq<FollowCandidate>>,
    ignored: Ghost<Seq<Seq<char>>>,
    following: Ghost<Seq<Seq<char>>>,
    records: Ghost<Seq<RelationshipRecord>>,
    found: Ghost<Seq<bool>>,
}

impl Classifier {
    pub closed spec fn stage_spec(&self) -> Stage {
        self.stage
    }

    /// The candidates the run classifies.
    pub closed spec fn candidates_spec(&self) -> Seq<FollowCandidate> {
        self.candidates@
    }

    /// The ignore list's text.
    pub closed spec fn ignored_spec(&self) -> Seq<Seq<char>> {
        self.ignored@
    }

    /// The addresses already followed, as text.
    pub closed spec fn following_spec(&self) -> Seq<Seq<char>> {
        self.following@
    }

    pub closed spec fn bridge_domain_spec(&self) -> Seq<char> {
        self.bridge_domain@
    }

    /// The merged relationship answer, once it came.
    pub closed spec fn records_spec(&self) -> Seq<RelationshipRecord> {
        self.records@
    }

    /// The discovery answers, once they came.
    pub closed spec fn found_spec(&self) -> Seq<bool> {
        self.found@
    }

    /// The candidates that pass one leaves open.
    pub open spec fn pass_one_open(&self) -> Seq<FollowCandidate> {
        survivors_of(
            self.candidates_spec(),
            pass_one_rule(self.ignored_spec(), self.following_spec(), self.bridge_domain_spec()),
        )
    }

    /// The candidates that reach pass three.
    pub open spec fn pass_three_open(&self) -> Seq<FollowCandidate> {
        pass_three_candidates(
            self.candidates_spec(),
            self.ignored_spec(),
            self.following_spec(),
            self.bridge_domain_spec(),
            self.records_spec(),
        )
    }

    /// The partial result and the open candidates match the stage.
    pub closed spec fn well_formed(&self) -> bool {
        let one = pass_one_rule(self.ignored@, self.following@, self.bridge_domain@);
        let settled = resolved_by(self.candidates@, one);
        let open = survivors_of(self.candidates@, one);
        match self.stage {
            Stage::AwaitingRelationships => self.result@ == settled && self.open@ == open,
            Stage::AwaitingDiscovery => self.result@ == settled + resolved_by(
                open,
                pass_two_rule(self.records@),
            ) && self.open@ == survivors_of(open, pass_two_rule(self.records@)),
            Stage::Done => self.result@ == classification(
                self.candidates@,
                self.ignored@,
                self.following@,
                self.bridge_domain@,
                self.records@,
                self.found@,
            ),
        }
    }

    /// Starts a run: pass one settles the ignored candidates and those already
    /// followed.
    pub fn new(
        candidates: &Vec<FollowCandidate>,
        ignored: &Vec<String>,
        following: &Vec<String>,
        bridge_domain: &str,
    ) -> (r: Self)
        ensures
            r.well_formed(),
            r.stage_spec() == Stage::AwaitingRelationships,
            r.candidates_spec() == candidates@,
            r.ignored_spec() == strings_view(ignored@),
            r.following_spec() == strings_view(following@),
            r.bridge_domain_spec() == bridge_domain@,
    {
        let mut result: Vec<BridgedFollower> = Vec::new();
        let open = filter_local(candidates, ignored, following, bridge_domain, &mut result);
        assert(result@ =~= resolved_by(
            candidates@,
            pass_one_rule(strings_view(ignored@), strings_view(following@), bridge_domain@),
        ));
        Classifier {
            result,
            open,
            bridge_domain: String::from_str(bridge_domain),
            stage: Stage::AwaitingRelationships,
            candidates: Ghost(candidates@),
            ignored: Ghost(strings_view(ignored@)),
            following: Ghost(strings_view(following@)),
            records: Ghost(Seq::empty()),
            found: Ghost(Seq::empty()),
        }
    }

    /// The relationship requests to send: the identities that pass one left
    /// open, in requests of at most thirty.
    pub fn relationship_requests(&self) -> (r: Vec<Vec<String>>)
        requires
            self.well_formed(),
            self.stage_spec() == Stage::AwaitingRelationships,
        ensures
            chunk_views(r@) == chunks_of(candidate_dids(self.pass_one_open())),
    {
        chunk_others(&lookup_identities(&self.open))
    }

    /// Takes the answers to the relationship requests, in request order, and
    /// runs pass two.
    pub fn accept_relationships(&mut self, answers: Vec<Vec<RelationshipRecord>>)
        requires
            old(self).well_formed(),
            old(self).stage_spec() == Stage::AwaitingRelationships,
        ensures
            final(self).well_formed(),
            final(self).stage_spec() == Stage::AwaitingDiscovery,
            final(self).records_spec() == records_of(answers@),
            final(self).candidates_spec() == old(self).candidates_spec(),
            final(self).ignored_spec() == old(self).ignored_spec(),
            final(self).following_spec() == old(self).following_spec(),
            final(self).bridge_domain_spec() == old(self).bridge_domain_spec(),
    {
        let records = merge_relationships(answers);
        let open = filter_by_relationships(&self.open, &records, &mut self.result);
        self.open = open;
        self.records = Ghost(records@);
        self.stage = Stage::AwaitingDiscovery;
    }

    /// The destination addresses to check, one per candidate that reaches
    /// pass three, in order.
    pub fn discovery_requests(&self) -> (r: Vec<String>)
        requires
            self.well_formed(),
            self.stage_spec() == Stage::AwaitingDiscovery,
        ensures
            strings_view(r@) == destination_addresses(self.pass_three_open(), self.bridge_domain_spec()),
    {
        discovery_addresses(&self.open, self.bridge_domain.as_str())
    }

    /// Takes the discovery answers, one per address of `discovery_requests`
    /// in the same order, and runs pass three.
    pub fn accept_discovery(&mut self, found: Vec<bool>)
        requires
            old(self).well_formed(),
            old(self).stage_spec() == Stage::AwaitingDiscovery,
            found@.len() == old(self).pass_three_open().len(),
        ensures
            final(self).well_formed(),
            final(self).stage_spec() == Stage::Done,
            final(self).found_spec() == found@,
            final(self).records_spec() == old(self).records_spec(),
            final(self).candidates_spec() == old(self).candidates_spec(),
            final(self).ignored_spec() == old(self).ignored_spec(),
            final(self).following_spec() == old(self).following_spec(),
            final(self).bridge_domain_spec() == old(self).bridge_domain_spec(),
    {
        apply_discovery(&self.open, &found, &mut self.result);
        self.found = Ghost(found@);
        self.stage = Stage::Done;
        self.open = Vec::new();
    }

    /// The result of a finished run: `classification` of the candidates, the
    /// lists and the answers it was given.
    pub fn into_result(self) -> (r: Vec<BridgedFollower>)
        requires
            self.well_formed(),
            self.stage_spec() == Stage::Done,
        ensures
            r@ == classification(
                self.candidates_spec(),
                self.ignored_spec(),
                self.following_spec(),
                self.bridge_domain_spec(),
                self.records_spec(),
                self.found_spec(),
            ),
    {
        self.result
    }
}

} // verus!
