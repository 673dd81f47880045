//! The relationship batch resolver's own logic: the identities to look up,
//! split into requests of at most thirty, and the merge of the answers.

use vstd::prelude::*;
use crate::follower_status::{relationship_for, FollowCandidate, RelationshipRecord};
use crate::utils::strings_view;

verus! {

/// The most identities that one relationship request may name.
pub const MAX_OTHERS_PER_REQUEST: usize = 30;

/// The identities of candidates, in order.
pub open spec fn candidate_dids(candidates: Seq<FollowCandidate>) -> Seq<Seq<char>> {
    candidates.map_values(|c: FollowCandidate| c.did@)
}

/// The identities to look up for candidates, in order.
pub fn lookup_identities(candidates: &Vec<FollowCandidate>) -> (r: Vec<String>)
    ensures
        strings_view(r@) == candidate_dids(candidates@),
{
    let mut dids: Vec<String> = Vec::new();
    let mut i: usize = 0;
    while i < candidates.len()
        invariant
            i <= candidates.len(),
            dids.len() == i,
            strings_view(dids@) == candidate_dids(candidates@.take(i as int)),
        decreases candidates.len() - i,
    {
        let ghost earlier = dids@;
        dids.push(candidates[i].did.clone());
        assert forall|j: int| 0 <= j < i + 1 implies strings_view(dids@)[j] == candidate_dids(
            candidates@.take(i + 1),
        )[j] by {
            if j < i {
                assert(strings_view(earlier)[j] == candidate_dids(candidates@.take(i as int))[j]);
            }
        }
        assert(strings_view(dids@) =~= candidate_dids(candidates@.take(i + 1)));
        i += 1;
    }
    assert(candidates@.take(candidates.len() as int) =~= candidates@);
    dids
}

/// `others` cut, in order, into requests of thirty identities, the last one
/// holding the rest.
pub open spec fn chunks_of(others: Seq<Seq<char>>) -> Seq<Seq<Seq<char>>>
    decreases others.len(),
{
    if others.len() == 0 {
        seq![]
    } else if others.len() <= MAX_OTHERS_PER_REQUEST {
        seq![others]
    } else {
        seq![others.take(MAX_OTHERS_PER_REQUEST as int)] + chunks_of(
            others.skip(MAX_OTHERS_PER_REQUEST as int),
        )
    }
}

/// The text of each request of a split.
pub open spec fn chunk_views(chunks: Seq<Vec<String>>) -> Seq<Seq<Seq<char>>> {
    chunks.map_values(|c: Vec<String>| strings_view(c@))
}

/// Splits the identities to look up into requests of at most thirty.
pub fn chunk_others(others: &Vec<String>) -> (r: Vec<Vec<String>>)
    ensures
        chunk_views(r@) == chunks_of(strings_view(others@)),
{
    let ghost all = strings_view(others@);
    let n = others.len();
    let mut chunks: Vec<Vec<String>> = Vec::new();
    let mut start: usize = 0;
    assert(all.skip(0) =~= all);
    while start < n
        invariant
            n == others.len(),
            all == strings_view(others@),
            start <= n,
            chunk_views(chunks@) + chunks_of(all.skip(start as int)) == chunks_of(all),
        decreases n - start,
    {
        let end: usize = if n - start > MAX_OTHERS_PER_REQUEST {
            start + MAX_OTHERS_PER_REQUEST
        } else {
            n
        };
        let mut chunk: Vec<String> = Vec::new();
        let mut k: usize = start;
        while k < end
            invariant
                start <= k <= end <= n,
                n == others.len(),
                chunk.len() == k - start,
                strings_view(chunk@) == all.subrange(start as int, k as int),
                all == strings_view(others@),
            decreases end - k,
        {
            let ghost earlier = chunk@;
            chunk.push(others[k].clone());
            assert forall|j: int| 0 <= j < k + 1 - start implies strings_view(chunk@)[j] == all.subrange(
                start as int,
                k + 1,
            )[j] by {
                if j < k - start {
                    assert(strings_view(earlier)[j] == all.subrange(start as int, k as int)[j]);
                }
            }
            assert(strings_view(chunk@) =~= all.subrange(start as int, k + 1));
            k += 1;
        }
        let ghost rest = all.skip(start as int);
        assert(rest.len() > 0);
        if n - start > MAX_OTHERS_PER_REQUEST {
            assert(rest.take(MAX_OTHERS_PER_REQUEST as int) =~= strings_view(chunk@));
            assert(rest.skip(MAX_OTHERS_PER_REQUEST as int) =~= all.skip(end as int));
        } else {
            assert(rest =~= strings_view(chunk@));
            assert(all.skip(end as int) =~= Seq::<Seq<char>>::empty());
        }
        let ghost before = chunks@;
        chunks.push(chunk);
        assert(chunk_views(chunks@) =~= chunk_views(before).push(strings_view(chunk@)));
        assert(chunk_views(chunks@) + chunks_of(all.skip(end as int)) =~= chunk_views(before)
            + chunks_of(rest));
        start = end;
    }
    assert(chunk_views(chunks@) =~= chunks_of(all));
    chunks
}

/// The records of all answers, in order.
pub open spec fn records_of(answers: Seq<Vec<RelationshipRecord>>) -> Seq<RelationshipRecord> {
    answers.map_values(|a: Vec<RelationshipRecord>| a@).flatten()
}

/// Merges the answers to all requests into one lookup answer, losing and
/// repeating nothing.
pub fn merge_relationships(answers: Vec<Vec<RelationshipRecord>>) -> (r: Vec<RelationshipRecord>)
    ensures
        r@ == records_of(answers@),
{
    let mut rest = answers;
    let mut merged: Vec<RelationshipRecord> = Vec::new();
    while rest.len() > 0
        invariant
            merged@ + records_of(rest@) == records_of(answers@),
        decreases rest.len(),
    {
        let ghost before = rest@;
        let mut answer = rest.remove(0);
        assert(before.map_values(|a: Vec<RelationshipRecord>| a@).drop_first() =~= rest@.map_values(
            |a: Vec<RelationshipRecord>| a@,
        ));
        assert(records_of(before) == answer@ + records_of(rest@));
        merged.append(&mut answer);
        assert(merged@ + records_of(rest@) =~= records_of(answers@));
    }
    assert(records_of(rest@) =~= Seq::<RelationshipRecord>::empty());
    assert(merged@ =~= records_of(answers@));
    merged
}

/// What one request answers when the server holds `known`: for each identity
/// that the request names, in order, the server's record for it, if it has one.
pub open spec fn lookup_answer(others: Seq<Seq<char>>, known: Map<Seq<char>, RelationshipRecord>) -> Seq<RelationshipRecord>
    decreases others.len(),
{
    if others.len() == 0 {
        seq![]
    } else {
        let earlier = lookup_answer(others.drop_last(), known);
        if known.contains_key(others.last()) {
            earlier.push(known[others.last()])
        } else {
            earlier
        }
    }
}

proof fn lemma_lookup_answer_concat(
    a: Seq<Seq<char>>,
    b: Seq<Seq<char>>,
    known: Map<Seq<char>, RelationshipRecord>,
)
    ensures
        lookup_answer(a + b, known) == lookup_answer(a, known) + lookup_answer(b, known),
    decreases b.len(),
{
    if b.len() == 0 {
        assert(a + b =~= a);
        assert(lookup_answer(a, known) + lookup_answer(b, known) =~= lookup_answer(a, known));
    } else {
        assert((a + b).drop_last() =~= a + b.drop_last());
        assert((a + b).last() == b.last());
        lemma_lookup_answer_concat(a, b.drop_last(), known);
        if known.contains_key(b.last()) {
            assert(lookup_answer(a + b, known) =~= lookup_answer(a, known) + lookup_answer(b, known));
        } else {
            assert(lookup_answer(a + b, known) =~= lookup_answer(a, known) + lookup_answer(b, known));
        }
    }
}

/// Chunked lookup is exact and lossless: `others` goes out in ⌈N/30⌉
/// requests, each naming between one and thirty identities; and when every
/// request is answered by the same server, the answers merged in order (what
/// `merge_relationships` returns) are exactly the answer to one unbounded
/// request naming all of `others`.
pub proof fn lemma_chunked_lookup_is_lossless(
    others: Seq<Seq<char>>,
    answers: Seq<Seq<RelationshipRecord>>,
    known: Map<Seq<char>, RelationshipRecord>,
)
    requires
        answers.len() == chunks_of(others).len(),
        forall|i: int|
            0 <= i < answers.len() ==> answers[i] == lookup_answer(#[trigger] chunks_of(others)[i], known),
    ensures
        chunks_of(others).len() == (others.len() + MAX_OTHERS_PER_REQUEST - 1) / (MAX_OTHERS_PER_REQUEST as int),
        forall|i: int|
            0 <= i < chunks_of(others).len() ==> 0 < #[trigger] chunks_of(others)[i].len() <= MAX_OTHERS_PER_REQUEST,
        chunks_of(others).flatten() == others,
        answers.flatten() == lookup_answer(others, known),
        relationship_map(answers.flatten()) == relationship_map(lookup_answer(others, known)),
    decreases others.len(),
{
    let chunks = chunks_of(others);
    if others.len() == 0 {
        assert(answers.flatten() =~= Seq::<RelationshipRecord>::empty());
    } else if others.len() <= MAX_OTHERS_PER_REQUEST {
        assert(chunks.len() == 1);
        assert(chunks.flatten() == chunks[0] + chunks.drop_first().flatten());
        assert(chunks.flatten() =~= others);
        assert(answers.flatten() == answers[0] + answers.drop_first().flatten());
        assert(answers.flatten() =~= lookup_answer(others, known));
    } else {
        let head = others.take(MAX_OTHERS_PER_REQUEST as int);
        let tail = others.skip(MAX_OTHERS_PER_REQUEST as int);
        let rest = chunks_of(tail);
        assert(chunks.drop_first() =~= rest);
        assert(chunks[0] == head);
        assert forall|i: int| 0 <= i < answers.drop_first().len() implies answers.drop_first()[i]
            == lookup_answer(#[trigger] rest[i], known) by {
            assert(chunks[i + 1] == rest[i]);
        }
        lemma_chunked_lookup_is_lossless(tail, answers.drop_first(), known);
        assert forall|i: int| 0 <= i < chunks.len() implies 0 < #[trigger] chunks[i].len()
            <= MAX_OTHERS_PER_REQUEST by {
            if i > 0 {
                assert(chunks[i] == rest[i - 1]);
            }
        }
        assert(head + tail =~= others);
        assert(chunks.flatten() == head + rest.flatten());
        lemma_lookup_answer_concat(head, tail, known);
        assert(answers.flatten() == answers[0] + answers.drop_first().flatten());
    }
}

/// A merged answer read as a map from identity to record, a later record for
/// an identity replacing an earlier one.
pub open spec fn relationship_map(records: Seq<RelationshipRecord>) -> Map<Seq<char>, RelationshipRecord>
    decreases records.len(),
{
    if records.len() == 0 {
        Map::empty()
    } else {
        relationship_map(records.drop_last()).insert(records.last().did@, records.last())
    }
}

/// The identity of each record.
pub open spec fn record_dids(records: Seq<RelationshipRecord>) -> Seq<Seq<char>> {
    records.map_values(|r: RelationshipRecord| r.did@)
}

/// A merged answer is a map: pass two's lookup of an identity gives exactly
/// the map's entry for it (the last record naming it), and the map holds one
/// entry per distinct identity answered, no more.
pub proof fn lemma_merged_answer_is_map(records: Seq<RelationshipRecord>)
    ensures
        forall|did: Seq<char>|
            #[trigger] relationship_for(records, did) == if relationship_map(records).contains_key(did) {
                Some(relationship_map(records)[did])
            } else {
                None
            },
        relationship_map(records).dom() == record_dids(records).to_set(),
    decreases records.len(),
{
    if records.len() > 0 {
        let earlier = records.drop_last();
        lemma_merged_answer_is_map(earlier);
        assert forall|did: Seq<char>|
            #[trigger] relationship_for(records, did) == if relationship_map(records).contains_key(did) {
                Some(relationship_map(records)[did])
            } else {
                None
            } by {
            assert(relationship_for(earlier, did) == if relationship_map(earlier).contains_key(did) {
                Some(relationship_map(earlier)[did])
            } else {
                None
            });
        }
        assert(record_dids(records) =~= record_dids(earlier).push(records.last().did@));
        assert forall|did: Seq<char>|
            relationship_map(records).dom().contains(did) <==> record_dids(records).to_set().contains(
                did,
            ) by {
            assert(relationship_map(earlier).dom().contains(did) == record_dids(earlier).to_set().contains(did));
            assert(record_dids(records).last() == records.last().did@);
            if did == records.last().did@ {
                assert(record_dids(records)[earlier.len() as int] == did);
            }
            if record_dids(earlier).contains(did) {
                let k = choose|k: int| 0 <= k < record_dids(earlier).len() && record_dids(earlier)[k] == did;
                assert(record_dids(records)[k] == did);
            }
            if record_dids(records).contains(did) {
                let k = choose|k: int| 0 <= k < record_dids(records).len() && record_dids(records)[k] == did;
                if k < earlier.len() {
                    assert(record_dids(earlier)[k] == did);
                }
            }
        }
        assert(relationship_map(records).dom() =~= record_dids(records).to_set());
    } else {
        assert(relationship_map(records).dom() =~= record_dids(records).to_set());
    }
}

} // verus!
