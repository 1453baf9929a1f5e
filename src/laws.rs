//! Properties of record creation, stated over the model that the store's
//! operations are specified with.

use vstd::prelude::*;

use crate::date::lemma_date_of_text_valid;
use crate::person::{check_request, record_of, PersonModel, RequestModel};
use crate::store::{create_outcome, nick_taken, records_after, records_valid, CreateError};

verus! {

/// The records after creating, in order, from each request under its
/// identifier, starting from `records`.
pub open spec fn replay(records: Map<u128, PersonModel>, steps: Seq<(RequestModel, u128)>) -> Map<
    u128,
    PersonModel,
>
    decreases steps.len(),
{
    if steps.len() == 0 {
        records
    } else {
        let (req, id) = steps.last();
        records_after(replay(records, steps.drop_last()), req, id)
    }
}

/// How many of those creations succeeded.
pub open spec fn successes(records: Map<u128, PersonModel>, steps: Seq<(RequestModel, u128)>) -> nat
    decreases steps.len(),
{
    if steps.len() == 0 {
        0
    } else {
        let (req, id) = steps.last();
        let before = replay(records, steps.drop_last());
        successes(records, steps.drop_last()) + if create_outcome(before, req, id) is Ok {
            1nat
        } else {
            0nat
        }
    }
}

/// A record just created is found under its identifier, equal to the record
/// that creation returned.
pub proof fn lemma_created_record_is_found(
    records: Map<u128, PersonModel>,
    req: RequestModel,
    id: u128,
)
    requires
        create_outcome(records, req, id) is Ok,
    ensures
        records_after(records, req, id).contains_key(id),
        records_after(records, req, id)[id] == create_outcome(records, req, id)->Ok_0,
        create_outcome(records, req, id)->Ok_0.id == id,
{
}

/// Two successful creations, one after the other, give different identifiers.
pub proof fn lemma_created_ids_distinct(
    records: Map<u128, PersonModel>,
    req1: RequestModel,
    id1: u128,
    req2: RequestModel,
    id2: u128,
)
    requires
        create_outcome(records, req1, id1) is Ok,
        create_outcome(records_after(records, req1, id1), req2, id2) is Ok,
    ensures
        id1 != id2,
        create_outcome(records, req1, id1)->Ok_0.id != create_outcome(
            records_after(records, req1, id1),
            req2,
            id2,
        )->Ok_0.id,
{
    assert(records_after(records, req1, id1).contains_key(id1));
}

/// Of two creations with the same free nickname, taken in either order,
/// exactly one succeeds and the other fails with a conflict: the records end
/// up holding the first record and nothing else new. The first identifier
/// must not be taken already, or the first creation fails on it.
pub proof fn lemma_same_nick_conflicts(
    records: Map<u128, PersonModel>,
    req1: RequestModel,
    id1: u128,
    req2: RequestModel,
    id2: u128,
)
    requires
        check_request(req1) is Ok,
        check_request(req2) is Ok,
        req2.nick == req1.nick,
        !nick_taken(records, req1.nick),
        !records.contains_key(id1),
    ensures
        create_outcome(records, req1, id1) == Ok::<PersonModel, CreateError>(
            record_of(id1, req1, check_request(req1)->Ok_0),
        ),
        records_after(records, req1, id1) == records.insert(
            id1,
            record_of(id1, req1, check_request(req1)->Ok_0),
        ),
        create_outcome(records_after(records, req1, id1), req2, id2) == Err::<
            PersonModel,
            CreateError,
        >(CreateError::Conflict),
        records_after(records_after(records, req1, id1), req2, id2) == records_after(
            records,
            req1,
            id1,
        ),
{
    let after = records_after(records, req1, id1);
    assert(after.contains_key(id1) && after[id1].nick == req2.nick);
    assert(nick_taken(after, req2.nick));
}

/// Creation keeps the records consistent: in particular no two records ever
/// share a nickname.
pub proof fn lemma_create_keeps_records_valid(
    records: Map<u128, PersonModel>,
    req: RequestModel,
    id: u128,
)
    requires
        records_valid(records),
    ensures
        records_valid(records_after(records, req, id)),
{
    if create_outcome(records, req, id) is Ok {
        lemma_date_of_text_valid(req.birth_date);
        let after = records_after(records, req, id);
        assert forall|k1: u128, k2: u128|
            #[trigger] after.contains_key(k1) && #[trigger] after.contains_key(k2) && k1 != k2
            implies after[k1].nick != after[k2].nick by {
            if k1 == id {
                assert(!(records.contains_key(k2) && records[k2].nick == req.nick));
            } else if k2 == id {
                assert(!(records.contains_key(k1) && records[k1].nick == req.nick));
            }
        }
    }
}

/// The number of records after a series of creations is the number there
/// was before plus the number of creations that succeeded; starting empty,
/// after n successful creations there are n records.
pub proof fn lemma_count_after_creates(
    records: Map<u128, PersonModel>,
    steps: Seq<(RequestModel, u128)>,
)
    requires
        records.dom().finite(),
    ensures
        replay(records, steps).dom().finite(),
        replay(records, steps).len() == records.len() + successes(records, steps),
    decreases steps.len(),
{
    if steps.len() > 0 {
        let (req, id) = steps.last();
        let before = replay(records, steps.drop_last());
        lemma_count_after_creates(records, steps.drop_last());
        if create_outcome(before, req, id) is Ok {
            assert(!before.contains_key(id));
            assert(before.insert(id, create_outcome(before, req, id)->Ok_0).dom() =~= before.dom().insert(id));
        }
    }
}

/// Starting from no records, an identifier that none of the creations was
/// given is never found.
pub proof fn lemma_unissued_id_absent(steps: Seq<(RequestModel, u128)>, id: u128)
    requires
        forall|i: int| 0 <= i < steps.len() ==> (#[trigger] steps[i]).1 != id,
    ensures
        !replay(Map::<u128, PersonModel>::empty(), steps).contains_key(id),
    decreases steps.len(),
{
    if steps.len() > 0 {
        let rest = steps.drop_last();
        assert forall|i: int| 0 <= i < rest.len() implies (#[trigger] rest[i]).1 != id by {
            assert(rest[i] == steps[i]);
        }
        lemma_unissued_id_absent(rest, id);
        assert(steps.last() == steps[steps.len() - 1]);
    }
}

} // verus!
