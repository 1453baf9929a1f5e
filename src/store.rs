//! The registry: records keyed by identifier, with unique nicknames.

use std::collections::HashMap;

use vstd::prelude::*;

use crate::person::{check_request, record_of, InvalidField, Person, PersonModel, PersonRequest, RequestModel};

verus! {

broadcast use vstd::std_specs::hash::group_hash_axioms;

/// Why a record was not created.
#[derive(Clone, Copy, Debug, PartialEq, Eq, Structural)]
pub enum CreateError {
    /// A field of the request breaks the rules.
    Invalid(InvalidField),
    /// Another record already has the requested nickname.
    Conflict,
    /// The generated identifier is already taken: a fault of the generator.
    IdCollision,
}

/// Relies on `uuid::Uuid::now_v7` and `Uuid::as_u128`: a new version 7
/// identifier, taken from the clock and random bits, as a 128-bit number.
/// Nothing is assumed of its value.
#[verifier::external_body]
fn fresh_id() -> (r: u128) {
    uuid::Uuid::now_v7().as_u128()
}

/// Whether some record of `records` has the nickname `nick`.
pub open spec fn nick_taken(records: Map<u128, PersonModel>, nick: Seq<char>) -> bool {
    exists|k: u128| #[trigger] records.contains_key(k) && records[k].nick == nick
}

/// What a consistent set of records looks like: finitely many, each stored
/// under its own identifier with a valid birth date, no two with the same
/// nickname.
pub open spec fn records_valid(records: Map<u128, PersonModel>) -> bool {
    &&& records.dom().finite()
    &&& forall|k: u128| #[trigger] records.contains_key(k) ==> records[k].id == k
    &&& forall|k: u128| #[trigger] records.contains_key(k) ==> records[k].birth_date.wf()
    &&& forall|k1: u128, k2: u128|
        #[trigger] records.contains_key(k1) && #[trigger] records.contains_key(k2) && k1 != k2
            ==> records[k1].nick != records[k2].nick
}

/// The outcome of creating a record from `req` under identifier `id`, given
/// the records already there: the request is checked first, then its
/// nickname, then the identifier.
pub open spec fn create_outcome(records: Map<u128, PersonModel>, req: RequestModel, id: u128) -> Result<
    PersonModel,
    CreateError,
> {
    match check_request(req) {
        Err(e) => Err(CreateError::Invalid(e)),
        Ok(birth_date) => if nick_taken(records, req.nick) {
            Err(CreateError::Conflict)
        } else if records.contains_key(id) {
            Err(CreateError::IdCollision)
        } else {
            Ok(record_of(id, req, birth_date))
        },
    }
}

/// The records after that creation: the new record added on success,
/// nothing changed otherwise.
pub open spec fn records_after(records: Map<u128, PersonModel>, req: RequestModel, id: u128) -> Map<
    u128,
    PersonModel,
> {
    match create_outcome(records, req, id) {
        Ok(p) => records.insert(id, p),
        Err(_) => records,
    }
}

/// A creation result, with the record as mathematical values.
pub open spec fn outcome_view(r: Result<Person, CreateError>) -> Result<PersonModel, CreateError> {
    match r {
        Ok(p) => Ok(p@),
        Err(e) => Err(e),
    }
}

/// The person records, keyed by identifier.
pub struct PersonStore {
    people: HashMap<u128, Person>,
    ids: Vec<u128>,
}

impl View for PersonStore {
    type V = Map<u128, PersonModel>;

    closed spec fn view(&self) -> Map<u128, PersonModel> {
        self.people@.map_values(|p: Person| p@)
    }
}

impl PersonStore {
    /// Every stored identifier is listed, and every listed one is stored.
    pub closed spec fn ids_listed(&self) -> bool {
        &&& forall|i: int| 0 <= i < self.ids@.len() ==> self.people@.contains_key(#[trigger] self.ids@[i])
        &&& forall|k: u128| #[trigger] self.people@.contains_key(k) ==> exists|i: int|
            0 <= i < self.ids@.len() && self.ids@[i] == k
    }

    /// The store is consistent.
    pub open spec fn wf(&self) -> bool {
        self.ids_listed() && records_valid(self@)
    }

    /// An empty store.
    pub fn new() -> (r: PersonStore)
        ensures
            r.wf(),
            r@ == Map::<u128, PersonModel>::empty(),
    {
        let r = PersonStore { people: HashMap::new(), ids: Vec::new() };
        assert(r@ =~= Map::<u128, PersonModel>::empty());
        r
    }

    /// Number of records.
    pub fn count(&self) -> (r: usize)
        requires
            self.wf(),
        ensures
            r == self@.len(),
    {
        assert(self@.dom() =~= self.people@.dom());
        self.people.len()
    }

    /// Whether some record has the nickname `nick`.
    pub fn nick_in_use(&self, nick: &String) -> (r: bool)
        requires
            self.wf(),
        ensures
            r == nick_taken(self@, nick@),
    {
        let mut i: usize = 0;
        while i < self.ids.len()
            invariant
                self.wf(),
                0 <= i <= self.ids@.len(),
                forall|j: int|
                    0 <= j < i ==> self@[#[trigger] self.ids@[j]].nick != nick@,
            decreases self.ids@.len() - i,
        {
            let id = self.ids[i];
            assert(self.people@.contains_key(self.ids@[i as int]));
            match self.people.get(&id) {
                Some(p) => {
                    if p.nick == *nick {
                        assert(self@.contains_key(id) && self@[id].nick == nick@);
                        return true;
                    }
                },
                None => {},
            }
            i = i + 1;
        }
        assert forall|k: u128| #[trigger] self@.contains_key(k) implies self@[k].nick != nick@ by {
            assert(self.people@.contains_key(k));
            let j = choose|j: int| 0 <= j < self.ids@.len() && self.ids@[j] == k;
            assert(self@[self.ids@[j]].nick != nick@);
        }
        false
    }

    /// Creates a record from `req` under the identifier `id`, provided the
    /// request is valid, its nickname is free and `id` is not taken; returns
    /// a copy of the stored record.
    pub fn create_with_id(&mut self, req: PersonRequest, id: u128) -> (r: Result<Person, CreateError>)
        requires
            old(self).wf(),
        ensures
            final(self).wf(),
            outcome_view(r) == create_outcome(old(self)@, req@, id),
            final(self)@ == records_after(old(self)@, req@, id),
    {
        let birth_date = match req.validate() {
            Ok(d) => d,
            Err(e) => return Err(CreateError::Invalid(e)),
        };
        if self.nick_in_use(&req.nick) {
            return Err(CreateError::Conflict);
        }
        if self.people.contains_key(&id) {
            return Err(CreateError::IdCollision);
        }
        let ghost before = self@;
        let person = Person {
            id,
            name: req.name,
            nick: req.nick,
            birth_date,
            stack: req.stack,
        };
        let copy = person.copy();
        self.people.insert(id, person);
        self.ids.push(id);
        assert(self@ =~= before.insert(id, copy@));
        proof {
            assert forall|k: u128| #[trigger] self.people@.contains_key(k) implies exists|i: int|
                0 <= i < self.ids@.len() && self.ids@[i] == k by {
                if k == id {
                    assert(self.ids@[self.ids@.len() - 1] == k);
                } else {
                    assert(old(self).people@.contains_key(k));
                    let j = choose|j: int| 0 <= j < old(self).ids@.len() && old(self).ids@[j] == k;
                    assert(self.ids@[j] == k);
                }
            }
            assert forall|i: int| 0 <= i < self.ids@.len() implies self.people@.contains_key(
                #[trigger] self.ids@[i],
            ) by {
                if i < old(self).ids@.len() {
                    assert(old(self).people@.contains_key(old(self).ids@[i]));
                }
            }
        }
        Ok(copy)
    }

    /// Creates a record from `req` under a newly generated identifier.
    ///
    /// An invalid request, or one whose nickname is taken, leaves the store
    /// unchanged and says why; otherwise the record is stored, unless the
    /// generated identifier is already taken.
    pub fn create(&mut self, req: PersonRequest) -> (r: Result<Person, CreateError>)
        requires
            old(self).wf(),
        ensures
            final(self).wf(),
            check_request(req@) matches Err(e) ==> r == Err::<Person, CreateError>(
                CreateError::Invalid(e),
            ),
            check_request(req@) is Ok && nick_taken(old(self)@, req@.nick) ==> r == Err::<
                Person,
                CreateError,
            >(CreateError::Conflict),
            check_request(req@) is Ok && !nick_taken(old(self)@, req@.nick) ==> (r is Ok || r
                == Err::<Person, CreateError>(CreateError::IdCollision)),
            exists|id: u128|
                outcome_view(r) == create_outcome(old(self)@, req@, id) && final(self)@
                    == records_after(old(self)@, req@, id),
            r == Err::<Person, CreateError>(CreateError::IdCollision) ==> old(self)@.len() > 0,
            r matches Ok(p) ==> {
                &&& p.birth_date.wf()
                &&& !old(self)@.contains_key(p.id)
                &&& p@ == record_of(p.id, req@, check_request(req@)->Ok_0)
                &&& final(self)@ == old(self)@.insert(p.id, p@)
            },
            r is Err ==> final(self)@ == old(self)@,
    {
        let id = fresh_id();
        self.create_with_id(req, id)
    }

    /// A copy of the record with identifier `id`, if there is one.
    pub fn get(&self, id: u128) -> (r: Option<Person>)
        requires
            self.wf(),
        ensures
            r is Some <==> self@.contains_key(id),
            r matches Some(p) ==> p@ == self@[id] && p.birth_date.wf(),
    {
        match self.people.get(&id) {
            Some(p) => Some(p.copy()),
            None => None,
        }
    }
}

} // verus!
