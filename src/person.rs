//! Person records, the requests that create them, and the rules a request
//! must meet.

use vstd::prelude::*;

use crate::date::{date_of_text, parse_date, BirthDate};

verus! {

/// Longest name, in characters.
pub const MAX_NAME_CHARS: usize = 100;

/// Longest nickname, in characters.
pub const MAX_NICK_CHARS: usize = 100;

/// Longest entry of a stack, in characters.
pub const MAX_STACK_ENTRY_CHARS: usize = 32;

/// Most entries a stack may hold.
pub const MAX_STACK_ENTRIES: usize = 100;

/// The characters of each string of a sequence.
pub open spec fn texts(v: Seq<String>) -> Seq<Seq<char>> {
    v.map_values(|s: String| s@)
}

/// The characters of each entry of an optional stack.
pub open spec fn stack_view(stack: Option<Vec<String>>) -> Option<Seq<Seq<char>>> {
    match stack {
        Some(v) => Some(texts(v@)),
        None => None,
    }
}

/// A stored person.
#[derive(Debug)]
pub struct Person {
    pub id: u128,
    pub name: String,
    pub nick: String,
    pub birth_date: BirthDate,
    pub stack: Option<Vec<String>>,
}

/// What a person record holds, as mathematical values.
pub struct PersonModel {
    pub id: u128,
    pub name: Seq<char>,
    pub nick: Seq<char>,
    pub birth_date: BirthDate,
    pub stack: Option<Seq<Seq<char>>>,
}

impl View for Person {
    type V = PersonModel;

    open spec fn view(&self) -> PersonModel {
        PersonModel {
            id: self.id,
            name: self.name@,
            nick: self.nick@,
            birth_date: self.birth_date,
            stack: stack_view(self.stack),
        }
    }
}

/// The fields a client sends to create a person; the birth date is still text.
#[derive(Debug)]
pub struct PersonRequest {
    pub name: String,
    pub nick: String,
    pub birth_date: String,
    pub stack: Option<Vec<String>>,
}

/// What a creation request holds, as mathematical values.
pub struct RequestModel {
    pub name: Seq<char>,
    pub nick: Seq<char>,
    pub birth_date: Seq<char>,
    pub stack: Option<Seq<Seq<char>>>,
}

impl View for PersonRequest {
    type V = RequestModel;

    open spec fn view(&self) -> RequestModel {
        RequestModel {
            name: self.name@,
            nick: self.nick@,
            birth_date: self.birth_date@,
            stack: stack_view(self.stack),
        }
    }
}

/// The field of a request that breaks the rules.
#[derive(Clone, Copy, Debug, PartialEq, Eq, Structural)]
pub enum InvalidField {
    /// The name is empty or too long.
    Name,
    /// The nickname is empty or too long.
    Nick,
    /// The birth date is not an existing day written as `YYYY-MM-DD`.
    BirthDate,
    /// The stack has too many entries, or one of them is empty or too long.
    Stack,
}

/// Whether a text has between 1 and `max` characters.
pub open spec fn length_within(s: Seq<char>, max: int) -> bool {
    1 <= s.len() <= max
}

/// Whether a stack, if there is one, has an allowed number of entries, each
/// of an allowed length.
pub open spec fn stack_allowed(stack: Option<Seq<Seq<char>>>) -> bool {
    match stack {
        Some(entries) => entries.len() <= MAX_STACK_ENTRIES && forall|i: int|
            0 <= i < entries.len() ==> length_within(
                #[trigger] entries[i],
                MAX_STACK_ENTRY_CHARS as int,
            ),
        None => true,
    }
}

/// The outcome of checking a request: its birth date, or the first field, in
/// the order name, nickname, birth date, stack, that breaks the rules.
pub open spec fn check_request(req: RequestModel) -> Result<BirthDate, InvalidField> {
    if !length_within(req.name, MAX_NAME_CHARS as int) {
        Err(InvalidField::Name)
    } else if !length_within(req.nick, MAX_NICK_CHARS as int) {
        Err(InvalidField::Nick)
    } else if date_of_text(req.birth_date) is None {
        Err(InvalidField::BirthDate)
    } else if !stack_allowed(req.stack) {
        Err(InvalidField::Stack)
    } else {
        Ok(date_of_text(req.birth_date)->Some_0)
    }
}

/// The record that a valid request gives under identifier `id`.
pub open spec fn record_of(id: u128, req: RequestModel, birth_date: BirthDate) -> PersonModel {
    PersonModel {
        id,
        name: req.name,
        nick: req.nick,
        birth_date,
        stack: req.stack,
    }
}

/// Whether `s` has between 1 and `max` characters.
fn text_length_within(s: &String, max: usize) -> (r: bool)
    ensures
        r == length_within(s@, max as int),
{
    let n = s.as_str().unicode_len();
    1 <= n && n <= max
}

/// A copy of each string of `v`.
fn copy_texts(v: &Vec<String>) -> (r: Vec<String>)
    ensures
        texts(r@) == texts(v@),
{
    let mut r: Vec<String> = Vec::new();
    let mut i: usize = 0;
    while i < v.len()
        invariant
            0 <= i <= v@.len(),
            r@.len() == i,
            forall|j: int| 0 <= j < i ==> (#[trigger] r@[j])@ == v@[j]@,
        decreases v@.len() - i,
    {
        r.push(v[i].clone());
        i = i + 1;
    }
    assert(texts(r@) =~= texts(v@));
    r
}

/// A copy of an optional stack.
fn copy_stack(stack: &Option<Vec<String>>) -> (r: Option<Vec<String>>)
    ensures
        stack_view(r) == stack_view(*stack),
{
    match stack {
        Some(v) => Some(copy_texts(v)),
        None => None,
    }
}

impl Person {
    /// A copy of this record.
    pub fn copy(&self) -> (r: Person)
        ensures
            r@ == self@,
    {
        Person {
            id: self.id,
            name: self.name.clone(),
            nick: self.nick.clone(),
            birth_date: self.birth_date,
            stack: copy_stack(&self.stack),
        }
    }
}

impl PersonRequest {
    /// Checks the request against the rules and reads its birth date.
    pub fn validate(&self) -> (r: Result<BirthDate, InvalidField>)
        ensures
            r == check_request(self@),
            r matches Ok(d) ==> d.wf(),
    {
        if !text_length_within(&self.name, MAX_NAME_CHARS) {
            return Err(InvalidField::Name);
        }
        if !text_length_within(&self.nick, MAX_NICK_CHARS) {
            return Err(InvalidField::Nick);
        }
        let birth_date = match parse_date(self.birth_date.as_str()) {
            Some(d) => d,
            None => return Err(InvalidField::BirthDate),
        };
        if let Some(entries) = &self.stack {
            if entries.len() > MAX_STACK_ENTRIES {
                return Err(InvalidField::Stack);
            }
            let mut i: usize = 0;
            while i < entries.len()
                invariant
                    0 <= i <= entries@.len() <= MAX_STACK_ENTRIES,
                    self.stack == Some(*entries),
                    length_within(self@.name, MAX_NAME_CHARS as int),
                    length_within(self@.nick, MAX_NICK_CHARS as int),
                    date_of_text(self@.birth_date) == Some(birth_date),
                    forall|j: int|
                        0 <= j < i ==> length_within(
                            #[trigger] texts(entries@)[j],
                            MAX_STACK_ENTRY_CHARS as int,
                        ),
                decreases entries@.len() - i,
            {
                if !text_length_within(&entries[i], MAX_STACK_ENTRY_CHARS) {
                    assert(texts(entries@)[i as int] == entries@[i as int]@);
                    assert(!length_within(texts(entries@)[i as int], MAX_STACK_ENTRY_CHARS as int));
                    assert(i < texts(entries@).len());
                    assert(!stack_allowed(Some(texts(entries@))));
                    return Err(InvalidField::Stack);
                }
                i = i + 1;
            }
        }
        Ok(birth_date)
    }
}

} // verus!
