use vstd::prelude::*;

use crate::keywords::{
    added_of, alter, applied, apply_request, deleted_of, distinct, kept_of, text_set,
    AlteredKeywords,
};
use crate::model::{same_entry, same_person, text_of, Entry, Journal, Person};
use crate::text::str_eq;

verus! {

/// What a store operation can fail with.
#[derive(Debug, Clone, Copy, PartialEq, Eq, Structural)]
pub enum DbError {
    /// No entry has the requested citation.
    NotFound,
    /// An entry with this citation is already stored.
    Duplicate,
    /// The store has run out of row ids.
    Capacity,
    /// No stored journal has the given id.
    UnknownJournal,
}

/// A search was asked for with neither author terms nor keywords.
#[derive(Debug, Clone, Copy, PartialEq, Eq, Structural)]
pub enum SearchError {
    NoTerms,
}

/// An item row together with the rows that hang off it (person links in order, keyword links,
/// extra fields, files) and the id of its journal.
#[derive(Debug)]
pub struct Item {
    pub entry: Entry,
    pub journal_id: Option<i32>,
}

/// The normalized library: items keyed by citation, the people table, the journal table.
#[derive(Debug)]
pub struct Store {
    pub items: Vec<Item>,
    pub persons: Vec<Person>,
    pub journals: Vec<Journal>,
    pub next_person_id: i32,
    pub next_journal_id: i32,
}

pub open spec fn has_citation(items: Seq<Item>, c: Seq<char>) -> bool {
    exists|i: int| 0 <= i < items.len() && items[i].entry.citation@ == c
}

pub open spec fn citations_unique(items: Seq<Item>) -> bool {
    forall|i: int, j: int|
        0 <= i < j < items.len() ==> items[i].entry.citation@ != items[j].entry.citation@
}

/// No two rows of the people table are the same person, and every row has its own id below
/// `next`.
pub open spec fn persons_wf(persons: Seq<Person>, next: i32) -> bool {
    &&& forall|i: int, j: int|
        0 <= i < j < persons.len() ==> !same_person(persons[i], persons[j])
    &&& forall|i: int| 0 <= i < persons.len() ==> persons[i].id is Some
    &&& forall|i: int| 0 <= i < persons.len() ==> persons[i].id.unwrap() < next
    &&& forall|i: int, j: int|
        0 <= i < j < persons.len() ==> persons[i].id != persons[j].id
}

pub open spec fn journals_wf(journals: Seq<Journal>, next: i32) -> bool {
    &&& forall|i: int| 0 <= i < journals.len() ==> journals[i].id is Some
    &&& forall|i: int| 0 <= i < journals.len() ==> journals[i].id.unwrap() < next
    &&& forall|i: int, j: int|
        0 <= i < j < journals.len() ==> journals[i].id != journals[j].id
}

/// The rows of the people table whose search term is `t`, in table order.
pub open spec fn namesakes(persons: Seq<Person>, t: Seq<char>) -> Seq<Person>
    decreases persons.len(),
{
    if persons.len() == 0 {
        Seq::<Person>::empty()
    } else {
        let prev = namesakes(persons.drop_last(), t);
        if persons.last().search_term@ == t {
            prev.push(persons.last())
        } else {
            prev
        }
    }
}

/// Some person in `people` has search term `t`.
pub open spec fn has_term(people: Seq<Person>, t: Seq<char>) -> bool {
    exists|i: int| 0 <= i < people.len() && people[i].search_term@ == t
}

/// An entry has every author term among its people (authors or editors) and every keyword.
pub open spec fn matches(e: Entry, authors: Seq<String>, keywords: Seq<String>) -> bool {
    &&& forall|i: int|
        0 <= i < authors.len() ==> (has_term(e.authors@, #[trigger] authors[i]@) || has_term(
            e.editors@,
            authors[i]@,
        ))
    &&& forall|i: int|
        0 <= i < keywords.len() ==> text_set(e.keywords@).contains(#[trigger] keywords[i]@)
}

/// The entries of `items` that match, in store order.
pub open spec fn matching(items: Seq<Item>, authors: Seq<String>, keywords: Seq<String>) -> Seq<
    Entry,
>
    decreases items.len(),
{
    if items.len() == 0 {
        Seq::<Entry>::empty()
    } else {
        let prev = matching(items.drop_last(), authors, keywords);
        if matches(items.last().entry, authors, keywords) {
            prev.push(items.last().entry)
        } else {
            prev
        }
    }
}

/// `stored` is `entry` as written to the store: the same data, with each person replaced by
/// the same person as found in (or added to) the people table. The journal is written as the
/// name of the linked journal row (see `journal_linked`).
pub open spec fn stored_as(stored: Entry, entry: Entry) -> bool {
    &&& stored.citation == entry.citation
    &&& stored.entry_type == entry.entry_type
    &&& stored.title == entry.title
    &&& stored.booktitle == entry.booktitle
    &&& stored.year == entry.year
    &&& stored.month == entry.month
    &&& stored.chapter == entry.chapter
    &&& stored.edition == entry.edition
    &&& stored.volume == entry.volume
    &&& stored.number == entry.number
    &&& stored.pages == entry.pages
    &&& stored.keywords@ == entry.keywords@
    &&& stored.extra_fields@ == entry.extra_fields@
    &&& stored.files@ == entry.files@
    &&& people_stored_as(stored.authors@, entry.authors@)
    &&& people_stored_as(stored.editors@, entry.editors@)
}

pub open spec fn people_stored_as(stored: Seq<Person>, people: Seq<Person>) -> bool {
    &&& stored.len() == people.len()
    &&& forall|i: int| 0 <= i < stored.len() ==> same_person(#[trigger] stored[i], people[i])
    &&& forall|i: int| 0 <= i < stored.len() ==> (#[trigger] stored[i]).id is Some
}

/// The journal whose name, abbreviation or abbreviation without dots is `name`.
pub open spec fn names_journal(j: Journal, name: Seq<char>) -> bool {
    j.name@ == name || j.abbr@ == name || j.abbr_no_dot@ == name
}

/// Some journal row is named `name` (in full or abbreviated).
pub open spec fn named_in(journals: Seq<Journal>, name: Seq<char>) -> bool {
    exists|i: int| 0 <= i < journals.len() && names_journal(journals[i], name)
}

/// `i` is the first journal row, in table order, named `name`.
pub open spec fn first_named(journals: Seq<Journal>, name: Seq<char>, i: int) -> bool {
    &&& 0 <= i < journals.len()
    &&& names_journal(journals[i], name)
    &&& forall|j: int| 0 <= j < i ==> !names_journal(journals[j], name)
}

/// The full name of the journal row with id `id`.
pub open spec fn journal_name_of(journals: Seq<Journal>, id: i32) -> Option<Seq<char>>
    decreases journals.len(),
{
    if journals.len() == 0 {
        None
    } else if journals.last().id == Some(id) {
        Some(journals.last().name@)
    } else {
        journal_name_of(journals.drop_last(), id)
    }
}

/// The full name of the journal that an optional id links to.
pub open spec fn linked_name(journals: Seq<Journal>, id: Option<i32>) -> Option<Seq<char>> {
    match id {
        Some(i) => journal_name_of(journals, i),
        None => None,
    }
}

/// No journal id, or the id of a stored journal.
pub open spec fn journal_known(journals: Seq<Journal>, id: Option<i32>) -> bool {
    id is None || linked_name(journals, id) is Some
}

/// An item names exactly the journal it links to: no journal without a link, and with a link
/// the full name of the linked row.
pub open spec fn journal_linked(item: Item, journals: Seq<Journal>) -> bool {
    match item.journal_id {
        None => item.entry.journal is None,
        Some(id) => journal_name_of(journals, id) is Some && text_of(item.entry.journal)
            == journal_name_of(journals, id),
    }
}

/// `persons` holds the same person as `p`.
pub open spec fn is_stored(persons: Seq<Person>, p: Person) -> bool {
    exists|i: int| 0 <= i < persons.len() && same_person(persons[i], p)
}

/// `after` keeps every row of `before` where it was.
pub open spec fn persons_kept(before: Seq<Person>, after: Seq<Person>) -> bool {
    before.len() <= after.len() && forall|i: int| 0 <= i < before.len() ==> after[i] == before[i]
}

/// `p` is a row of `persons`.
pub open spec fn is_row(persons: Seq<Person>, p: Person) -> bool {
    exists|k: int| 0 <= k < persons.len() && persons[k] == p
}

/// Every person of `people` is a row of `persons`.
pub open spec fn people_rows(people: Seq<Person>, persons: Seq<Person>) -> bool {
    forall|i: int| 0 <= i < people.len() ==> is_row(persons, #[trigger] people[i])
}

/// Enough person ids are left to add every author and editor of `e` as a new person.
pub open spec fn people_fit(next_person_id: i32, e: Entry) -> bool {
    next_person_id + e.authors@.len() + e.editors@.len() < i32::MAX
}

/// A journal row found by name or id has a full name under that id.
pub proof fn lemma_row_has_name(journals: Seq<Journal>, i: int)
    requires
        0 <= i < journals.len(),
        journals[i].id is Some,
    ensures
        journal_name_of(journals, journals[i].id.unwrap()) is Some,
    decreases journals.len(),
{
    if i < journals.len() - 1 && journals.last().id != journals[i].id {
        assert(journals.drop_last()[i] == journals[i]);
        lemma_row_has_name(journals.drop_last(), i);
    }
}

/// A journal id with a name is the id of a row.
proof fn lemma_name_has_row(journals: Seq<Journal>, id: i32)
    requires
        journal_name_of(journals, id) is Some,
    ensures
        exists|k: int| 0 <= k < journals.len() && journals[k].id == Some(id),
    decreases journals.len(),
{
    if journals.last().id != Some(id) {
        lemma_name_has_row(journals.drop_last(), id);
        let k = choose|k: int|
            0 <= k < journals.drop_last().len() && journals.drop_last()[k].id == Some(id);
        assert(journals[k] == journals.drop_last()[k]);
    } else {
        assert(journals[journals.len() - 1].id == Some(id));
    }
}

/// Where no row is the same person twice, two rows that are the same person as `p` are one
/// row: a stored person is always found under the id of its existing row.
pub proof fn lemma_one_row_per_person(persons: Seq<Person>, next: i32, k: int, m: int, p: Person)
    requires
        persons_wf(persons, next),
        0 <= k < persons.len(),
        0 <= m < persons.len(),
        same_person(persons[k], p),
        same_person(persons[m], p),
    ensures
        k == m,
        persons[k].id == persons[m].id,
{
    if k < m {
        assert(!same_person(persons[k], persons[m]));
    } else if m < k {
        assert(!same_person(persons[m], persons[k]));
    }
}

impl Store {
    pub open spec fn wf(&self) -> bool {
        &&& citations_unique(self.items@)
        &&& forall|i: int| 0 <= i < self.items@.len() ==> (#[trigger] self.items@[i]).entry.wf()
        &&& persons_wf(self.persons@, self.next_person_id)
        &&& journals_wf(self.journals@, self.next_journal_id)
        &&& forall|i: int|
            0 <= i < self.items@.len() ==> journal_linked(#[trigger] self.items@[i], self.journals@)
        &&& self.next_person_id >= 1
        &&& self.next_journal_id >= 1
    }

    /// An empty store.
    pub fn new() -> (r: Store)
        ensures
            r.wf(),
            r.items@.len() == 0,
            r.persons@.len() == 0,
            r.journals@.len() == 0,
    {
        Store {
            items: Vec::new(),
            persons: Vec::new(),
            journals: Vec::new(),
            next_person_id: 1,
            next_journal_id: 1,
        }
    }

    /// The position of the entry with this citation.
    pub fn find(&self, citation: &str) -> (r: Option<usize>)
        ensures
            r is None <==> !has_citation(self.items@, citation@),
            r matches Some(i) ==> i < self.items@.len() && self.items@[i as int].entry.citation@
                == citation@,
    {
        let mut i: usize = 0;
        while i < self.items.len()
            invariant
                i <= self.items@.len(),
                forall|j: int| 0 <= j < i ==> self.items@[j].entry.citation@ != citation@,
            decreases self.items.len() - i,
        {
            if str_eq(self.items[i].entry.citation.as_str(), citation) {
                return Some(i);
            }
            i = i + 1;
        }
        None
    }

    /// The entry stored under `citation`; in a well-formed store its journal is the full name of
    /// the linked journal row.
    pub fn get_item(&self, citation: &str) -> (r: Result<Entry, DbError>)
        ensures
            r is Ok <==> has_citation(self.items@, citation@),
            r is Err ==> r == Err::<Entry, DbError>(DbError::NotFound),
            r matches Ok(e) ==> exists|i: int|
                0 <= i < self.items@.len() && self.items@[i].entry.citation@ == citation@
                    && same_entry(e, self.items@[i].entry) && (self.wf() ==> text_of(e.journal)
                    == linked_name(self.journals@, self.items@[i].journal_id)),
    {
        match self.find(citation) {
            Some(i) => {
                let e = self.items[i].entry.duplicate();
                proof {
                    if self.wf() {
                        assert(journal_linked(self.items@[i as int], self.journals@));
                    }
                }
                Ok(e)
            },
            None => Err(DbError::NotFound),
        }
    }

    /// The people whose search term is `search_term`, in table order.
    pub fn search_lastname(&self, search_term: &str) -> (r: Vec<Person>)
        ensures
            r@ == namesakes(self.persons@, search_term@),
    {
        let mut r: Vec<Person> = Vec::new();
        let mut i: usize = 0;
        while i < self.persons.len()
            invariant
                i <= self.persons@.len(),
                r@ == namesakes(self.persons@.subrange(0, i as int), search_term@),
            decreases self.persons.len() - i,
        {
            proof {
                assert(self.persons@.subrange(0, i + 1).drop_last() =~= self.persons@.subrange(
                    0,
                    i as int,
                ));
            }
            if str_eq(self.persons[i].search_term.as_str(), search_term) {
                r.push(self.persons[i].duplicate());
            }
            i = i + 1;
        }
        proof {
            assert(self.persons@.subrange(0, self.persons@.len() as int) =~= self.persons@);
        }
        r
    }

    /// The stored row that is the same person as `person`.
    pub fn search_person(&self, person: &Person) -> (r: Option<Person>)
        ensures
            r is None <==> !exists|i: int|
                0 <= i < self.persons@.len() && same_person(self.persons@[i], *person),
            r matches Some(p) ==> exists|i: int|
                0 <= i < self.persons@.len() && self.persons@[i] == p && same_person(p, *person),
    {
        let mut i: usize = 0;
        while i < self.persons.len()
            invariant
                i <= self.persons@.len(),
                forall|j: int| 0 <= j < i ==> !same_person(self.persons@[j], *person),
            decreases self.persons.len() - i,
        {
            if self.persons[i].search_term == person.search_term && self.persons[i].first_name
                == person.first_name {
                return Some(self.persons[i].duplicate());
            }
            i = i + 1;
        }
        None
    }

    /// Adds `person` to the people table under a fresh id; fails only when the ids are used up.
    pub fn add_person(&mut self, person: &Person) -> (r: Result<i32, DbError>)
        requires
            old(self).wf(),
            !is_stored(old(self).persons@, *person),
        ensures
            final(self).wf(),
            final(self).items == old(self).items,
            final(self).journals == old(self).journals,
            final(self).next_journal_id == old(self).next_journal_id,
            r is Err <==> old(self).next_person_id == i32::MAX,
            r is Err ==> r == Err::<i32, DbError>(DbError::Capacity) && final(self).persons
                == old(self).persons && final(self).next_person_id == old(self).next_person_id,
            r matches Ok(id) ==> id == old(self).next_person_id && final(self).next_person_id
                == id + 1 && final(self).persons@ == old(self).persons@.push(
                Person {
                    id: Some(id),
                    last_name: person.last_name,
                    first_name: person.first_name,
                    search_term: person.search_term,
                },
            ),
    {
        if self.next_person_id == i32::MAX {
            return Err(DbError::Capacity);
        }
        let id = self.next_person_id;
        let ghost prev = self.persons@;
        self.persons.push(
            Person {
                id: Some(id),
                last_name: person.last_name.clone(),
                first_name: person.first_name.clone(),
                search_term: person.search_term.clone(),
            },
        );
        self.next_person_id = id + 1;
        proof {
            assert forall|i: int, j: int|
                0 <= i < j < self.persons@.len() implies !same_person(
                self.persons@[i],
                self.persons@[j],
            ) by {
                if j == prev.len() {
                    assert(self.persons@[i] == prev[i]);
                }
            }
            assert forall|i: int, j: int|
                0 <= i < j < self.persons@.len() implies self.persons@[i].id
                != self.persons@[j].id by {
                if j == prev.len() {
                    assert(prev[i].id.unwrap() < id);
                }
            }
        }
        Ok(id)
    }

    /// The stored row for `person`: the existing one when the same person is stored already
    /// (nothing is added then), else a new row, which fails only when the ids are used up.
    pub fn resolve_person(&mut self, person: &Person) -> (r: Result<Person, DbError>)
        requires
            old(self).wf(),
        ensures
            final(self).wf(),
            final(self).items == old(self).items,
            final(self).journals == old(self).journals,
            final(self).next_journal_id == old(self).next_journal_id,
            r is Err <==> !is_stored(old(self).persons@, *person) && old(self).next_person_id
                == i32::MAX,
            r is Err ==> r == Err::<Person, DbError>(DbError::Capacity),
            r is Err || is_stored(old(self).persons@, *person) ==> final(self).persons
                == old(self).persons && final(self).next_person_id == old(self).next_person_id,
            r matches Ok(p) ==> same_person(p, *person) && p.id is Some && exists|i: int|
                0 <= i < final(self).persons@.len() && final(self).persons@[i] == p,
            is_stored(old(self).persons@, *person) ==> r is Ok && exists|i: int|
                0 <= i < old(self).persons@.len() && old(self).persons@[i] == r->Ok_0,
            persons_kept(old(self).persons@, final(self).persons@),
            old(self).next_person_id <= final(self).next_person_id <= old(self).next_person_id
                + 1,
    {
        match self.search_person(person) {
            Some(p) => Ok(p),
            None => {
                self.add_person(person)?;
                let p = self.persons[self.persons.len() - 1].duplicate();
                assert(self.persons@[self.persons@.len() - 1] == p);
                Ok(p)
            },
        }
    }

    /// The id of the first stored journal, in table order, named, abbreviated or abbreviated
    /// without dots as `name`.
    pub fn query_journal(&self, name: &str) -> (r: Option<i32>)
        requires
            self.wf(),
        ensures
            r is None <==> !named_in(self.journals@, name@),
            r matches Some(id) ==> exists|i: int|
                first_named(self.journals@, name@, i) && self.journals@[i].id == Some(id),
    {
        let mut i: usize = 0;
        while i < self.journals.len()
            invariant
                self.wf(),
                i <= self.journals@.len(),
                forall|j: int| 0 <= j < i ==> !names_journal(self.journals@[j], name@),
            decreases self.journals.len() - i,
        {
            let j = &self.journals[i];
            if str_eq(j.name.as_str(), name) || str_eq(j.abbr.as_str(), name) || str_eq(
                j.abbr_no_dot.as_str(),
                name,
            ) {
                assert(self.journals@[i as int].id is Some);
                assert(first_named(self.journals@, name@, i as int));
                return j.id;
            }
            i = i + 1;
        }
        None
    }

    /// The full name of the stored journal with id `id`.
    pub fn journal_name(&self, id: i32) -> (r: Option<String>)
        ensures
            text_of(r) == journal_name_of(self.journals@, id),
    {
        let mut r: Option<String> = None;
        let mut i: usize = 0;
        while i < self.journals.len()
            invariant
                i <= self.journals@.len(),
                text_of(r) == journal_name_of(self.journals@.subrange(0, i as int), id),
            decreases self.journals.len() - i,
        {
            proof {
                assert(self.journals@.subrange(0, i + 1).drop_last() =~= self.journals@.subrange(
                    0,
                    i as int,
                ));
            }
            if self.journals[i].id == Some(id) {
                r = Some(self.journals[i].name.clone());
            }
            i = i + 1;
        }
        proof {
            assert(self.journals@.subrange(0, self.journals@.len() as int) =~= self.journals@);
        }
        r
    }

    /// Stores `journal` under a fresh id; fails only when the ids are used up.
    pub fn add_journal(&mut self, journal: &Journal) -> (r: Result<i32, DbError>)
        requires
            old(self).wf(),
        ensures
            final(self).wf(),
            final(self).items == old(self).items,
            final(self).persons == old(self).persons,
            final(self).next_person_id == old(self).next_person_id,
            r is Err <==> old(self).next_journal_id == i32::MAX,
            r is Err ==> r == Err::<i32, DbError>(DbError::Capacity) && final(self).journals
                == old(self).journals && final(self).next_journal_id == old(self).next_journal_id,
            r matches Ok(id) ==> id == old(self).next_journal_id && final(self).journals@
                == old(self).journals@.push(
                Journal {
                    id: Some(id),
                    name: journal.name,
                    abbr: journal.abbr,
                    abbr_no_dot: journal.abbr_no_dot,
                },
            ),
    {
        if self.next_journal_id == i32::MAX {
            return Err(DbError::Capacity);
        }
        let id = self.next_journal_id;
        let ghost prev = self.journals@;
        let row = Journal {
            id: Some(id),
            name: journal.name.clone(),
            abbr: journal.abbr.clone(),
            abbr_no_dot: journal.abbr_no_dot.clone(),
        };
        let ghost grow = row;
        self.journals.push(row);
        self.next_journal_id = id + 1;
        proof {
            assert(self.journals@.drop_last() =~= prev);
            assert forall|i: int, j: int|
                0 <= i < j < self.journals@.len() implies self.journals@[i].id
                != self.journals@[j].id by {
                if j == prev.len() {
                    assert(prev[i].id.unwrap() < id);
                }
            }
            assert forall|i: int| 0 <= i < self.items@.len() implies journal_linked(
                #[trigger] self.items@[i],
                self.journals@,
            ) by {
                assert(journal_linked(self.items@[i], prev));
                if let Some(jid) = self.items@[i].journal_id {
                    lemma_name_has_row(prev, jid);
                    let k = choose|k: int| 0 <= k < prev.len() && prev[k].id == Some(jid);
                    assert(prev[k].id.unwrap() < id);
                    assert(journal_name_of(self.journals@, jid) == journal_name_of(prev, jid));
                }
            }
        }
        Ok(id)
    }

    /// Each of `people`, as stored: matched to the same person in the people table or added.
    fn resolve_people(&mut self, people: &Vec<Person>) -> (r: Vec<Person>)
        requires
            old(self).wf(),
            old(self).next_person_id + people@.len() < i32::MAX,
        ensures
            final(self).wf(),
            final(self).items == old(self).items,
            final(self).journals == old(self).journals,
            final(self).next_journal_id == old(self).next_journal_id,
            people_stored_as(r@, people@),
            people_rows(r@, final(self).persons@),
            persons_kept(old(self).persons@, final(self).persons@),
            old(self).next_person_id <= final(self).next_person_id <= old(self).next_person_id
                + people@.len(),
    {
        let mut r: Vec<Person> = Vec::new();
        let mut i: usize = 0;
        while i < people.len()
            invariant
                self.wf(),
                self.items == old(self).items,
                self.journals == old(self).journals,
                self.next_journal_id == old(self).next_journal_id,
                old(self).next_person_id + people@.len() < i32::MAX,
                i <= people@.len(),
                people_stored_as(r@, people@.subrange(0, i as int)),
                people_rows(r@, self.persons@),
                persons_kept(old(self).persons@, self.persons@),
                old(self).next_person_id <= self.next_person_id <= old(self).next_person_id + i,
            decreases people.len() - i,
        {
            let ghost before = self.persons@;
            let p = match self.resolve_person(&people[i]) {
                Ok(p) => p,
                Err(_) => {
                    assert(false);
                    return r;
                },
            };
            let ghost prev_r = r@;
            r.push(p);
            proof {
                assert forall|j: int| 0 <= j < r@.len() implies is_row(
                    self.persons@,
                    #[trigger] r@[j],
                ) by {
                    if j < prev_r.len() {
                        assert(r@[j] == prev_r[j]);
                        assert(is_row(before, prev_r[j]));
                        let k = choose|k: int| 0 <= k < before.len() && before[k] == prev_r[j];
                        assert(self.persons@[k] == before[k]);
                    }
                }
            }
            i = i + 1;
        }
        proof {
            assert(people@.subrange(0, people@.len() as int) =~= people@);
        }
        r
    }

    /// Writes `entry` as a new item with its person links, keywords, extra fields and files,
    /// linked to journal `journal_id` and named after it. Each author and editor is matched to
    /// the same person in the people table, or added to it when none is stored. It fails when
    /// the citation is taken, when too few person ids are left to add every author and editor,
    /// or when no stored journal has the id; then nothing is written.
    pub fn add_item(&mut self, entry: &Entry, journal_id: Option<i32>) -> (r: Result<(), DbError>)
        requires
            old(self).wf(),
            entry.wf(),
        ensures
            final(self).wf(),
            final(self).journals == old(self).journals,
            final(self).next_journal_id == old(self).next_journal_id,
            r is Ok <==> !has_citation(old(self).items@, entry.citation@) && people_fit(
                old(self).next_person_id,
                *entry,
            ) && journal_known(old(self).journals@, journal_id),
            has_citation(old(self).items@, entry.citation@) ==> r == Err::<(), DbError>(
                DbError::Duplicate,
            ),
            !has_citation(old(self).items@, entry.citation@) && !people_fit(
                old(self).next_person_id,
                *entry,
            ) ==> r == Err::<(), DbError>(DbError::Capacity),
            !has_citation(old(self).items@, entry.citation@) && people_fit(
                old(self).next_person_id,
                *entry,
            ) && !journal_known(old(self).journals@, journal_id) ==> r == Err::<(), DbError>(
                DbError::UnknownJournal,
            ),
            r is Err ==> final(self).items == old(self).items && final(self).persons
                == old(self).persons && final(self).next_person_id == old(self).next_person_id,
            r is Ok ==> {
                &&& final(self).items@.len() == old(self).items@.len() + 1
                &&& final(self).items@.drop_last() == old(self).items@
                &&& stored_as(final(self).items@.last().entry, *entry)
                &&& final(self).items@.last().journal_id == journal_id
                &&& text_of(final(self).items@.last().entry.journal) == linked_name(
                    old(self).journals@,
                    journal_id,
                )
                &&& persons_kept(old(self).persons@, final(self).persons@)
                &&& people_rows(final(self).items@.last().entry.authors@, final(self).persons@)
                &&& people_rows(final(self).items@.last().entry.editors@, final(self).persons@)
            },
    {
        if self.find(entry.citation.as_str()).is_some() {
            return Err(DbError::Duplicate);
        }
        let room: usize = (i32::MAX - self.next_person_id) as usize;
        if entry.authors.len() >= room || entry.editors.len() >= room - entry.authors.len() {
            return Err(DbError::Capacity);
        }
        let journal = match journal_id {
            Some(id) => match self.journal_name(id) {
                Some(name) => Some(name),
                None => {
                    return Err(DbError::UnknownJournal);
                },
            },
            None => None,
        };
        let ghost persons0 = self.persons@;
        let authors = self.resolve_people(&entry.authors);
        let ghost persons1 = self.persons@;
        let editors = self.resolve_people(&entry.editors);
        proof {
            assert forall|j: int| 0 <= j < authors@.len() implies is_row(
                self.persons@,
                #[trigger] authors@[j],
            ) by {
                assert(is_row(persons1, authors@[j]));
                let k = choose|k: int| 0 <= k < persons1.len() && persons1[k] == authors@[j];
                assert(self.persons@[k] == persons1[k]);
            }
            assert(persons_kept(persons0, self.persons@));
        }
        let stored = Entry {
            citation: entry.citation.clone(),
            entry_type: entry.entry_type,
            title: entry.title.clone(),
            booktitle: crate::model::copy_text_option(&entry.booktitle),
            year: entry.year,
            month: entry.month,
            chapter: entry.chapter,
            edition: entry.edition,
            volume: entry.volume,
            number: entry.number,
            pages: crate::model::copy_text_option(&entry.pages),
            journal,
            authors,
            editors,
            keywords: crate::model::copy_texts(&entry.keywords),
            extra_fields: crate::model::copy_pairs(&entry.extra_fields),
            files: crate::model::copy_pairs(&entry.files),
        };
        let ghost prev = self.items@;
        self.items.push(Item { entry: stored, journal_id });
        proof {
            assert(self.items@.drop_last() =~= prev);
            assert forall|i: int, j: int|
                0 <= i < j < self.items@.len() implies self.items@[i].entry.citation@
                != self.items@[j].entry.citation@ by {
                if j == prev.len() {
                    assert(prev[i].entry.citation@ != entry.citation@);
                }
            }
            assert forall|i: int| 0 <= i < self.items@.len() implies (
            #[trigger] self.items@[i]).entry.wf() by {
                if i < prev.len() {
                    assert(prev[i] == self.items@[i]);
                }
            }
            assert forall|i: int| 0 <= i < self.items@.len() implies journal_linked(
                #[trigger] self.items@[i],
                self.journals@,
            ) by {
                if i < prev.len() {
                    assert(prev[i] == self.items@[i]);
                }
            }
        }
        Ok(())
    }

    /// Removes the item with this citation together with its person links, keyword links,
    /// extra fields and files. People and journals stay.
    pub fn delete(&mut self, citation: &str) -> (r: Result<(), DbError>)
        requires
            old(self).wf(),
        ensures
            final(self).wf(),
            final(self).persons == old(self).persons,
            final(self).journals == old(self).journals,
            r is Err <==> !has_citation(old(self).items@, citation@),
            r is Err ==> r == Err::<(), DbError>(DbError::NotFound) && final(self).items
                == old(self).items,
            r is Ok ==> exists|i: int|
                0 <= i < old(self).items@.len() && old(self).items@[i].entry.citation@
                    == citation@ && final(self).items@ == old(self).items@.remove(i),
            !has_citation(final(self).items@, citation@),
    {
        match self.find(citation) {
            None => Err(DbError::NotFound),
            Some(i) => {
                let ghost prev = self.items@;
                let _removed = self.items.remove(i);
                proof {
                    assert forall|j: int| 0 <= j < self.items@.len() implies self.items@[j].entry.citation@
                        != citation@ by {
                        if j < i {
                            assert(self.items@[j] == prev[j]);
                        } else {
                            assert(self.items@[j] == prev[j + 1]);
                        }
                    }
                    assert forall|x: int, y: int|
                        0 <= x < y < self.items@.len() implies self.items@[x].entry.citation@
                        != self.items@[y].entry.citation@ by {
                        let px = if x < i { x } else { x + 1 };
                        let py = if y < i { y } else { y + 1 };
                        assert(self.items@[x] == prev[px]);
                        assert(self.items@[y] == prev[py]);
                    }
                    assert forall|j: int| 0 <= j < self.items@.len() implies (
                    #[trigger] self.items@[j]).entry.wf() by {
                        if j < i {
                            assert(self.items@[j] == prev[j]);
                        } else {
                            assert(self.items@[j] == prev[j + 1]);
                        }
                    }
                }
                Ok(())
            },
        }
    }
}

/// Whether some person in `people` has search term `t`.
fn people_have_term(people: &Vec<Person>, t: &String) -> (r: bool)
    ensures
        r == has_term(people@, t@),
{
    let mut i: usize = 0;
    while i < people.len()
        invariant
            i <= people@.len(),
            forall|j: int| 0 <= j < i ==> people@[j].search_term@ != t@,
        decreases people.len() - i,
    {
        if people[i].search_term == *t {
            return true;
        }
        i = i + 1;
    }
    false
}

/// Whether `e` has all the author terms among its people and all the keywords.
pub fn entry_matches(e: &Entry, authors: &Vec<String>, keywords: &Vec<String>) -> (r: bool)
    ensures
        r == matches(*e, authors@, keywords@),
{
    let mut i: usize = 0;
    while i < authors.len()
        invariant
            i <= authors@.len(),
            forall|j: int|
                0 <= j < i ==> (has_term(e.authors@, #[trigger] authors@[j]@) || has_term(
                    e.editors@,
                    authors@[j]@,
                )),
        decreases authors.len() - i,
    {
        if !people_have_term(&e.authors, &authors[i]) && !people_have_term(&e.editors, &authors[i]) {
            return false;
        }
        i = i + 1;
    }
    let mut k: usize = 0;
    while k < keywords.len()
        invariant
            k <= keywords@.len(),
            forall|j: int| 0 <= j < k ==> text_set(e.keywords@).contains(#[trigger] keywords@[j]@),
        decreases keywords.len() - k,
    {
        if !crate::keywords::contains(&e.keywords, &keywords[k]) {
            return false;
        }
        k = k + 1;
    }
    true
}

impl Store {
    /// The entries that have every one of `authors` among their people (by search term) and
    /// every one of `keywords`, in store order. Asking with no term at all is an error.
    pub fn search(&self, authors: &Vec<String>, keywords: &Vec<String>) -> (r: Result<
        Vec<Entry>,
        SearchError,
    >)
        ensures
            r is Err <==> authors@.len() == 0 && keywords@.len() == 0,
            r is Err ==> r == Err::<Vec<Entry>, SearchError>(SearchError::NoTerms),
            r matches Ok(v) ==> v@.len() == matching(self.items@, authors@, keywords@).len()
                && forall|i: int|
                0 <= i < v@.len() ==> same_entry(
                    #[trigger] v@[i],
                    matching(self.items@, authors@, keywords@)[i],
                ),
    {
        if authors.len() == 0 && keywords.len() == 0 {
            return Err(SearchError::NoTerms);
        }
        let mut r: Vec<Entry> = Vec::new();
        let mut i: usize = 0;
        while i < self.items.len()
            invariant
                i <= self.items@.len(),
                r@.len() == matching(self.items@.subrange(0, i as int), authors@, keywords@).len(),
                forall|j: int|
                    0 <= j < r@.len() ==> same_entry(
                        #[trigger] r@[j],
                        matching(self.items@.subrange(0, i as int), authors@, keywords@)[j],
                    ),
            decreases self.items.len() - i,
        {
            proof {
                assert(self.items@.subrange(0, i + 1).drop_last() =~= self.items@.subrange(
                    0,
                    i as int,
                ));
            }
            if entry_matches(&self.items[i].entry, authors, keywords) {
                r.push(self.items[i].entry.duplicate());
            }
            i = i + 1;
        }
        proof {
            assert(self.items@.subrange(0, self.items@.len() as int) =~= self.items@);
        }
        Ok(r)
    }

    /// Adds the terms of `add` that the entry lacks and deletes the terms of `del` that it has,
    /// then returns the entry as stored and how its keywords changed.
    pub fn keywords(&mut self, citation: &str, add: &Vec<String>, del: &Vec<String>) -> (r: Result<
        (Entry, AlteredKeywords),
        DbError,
    >)
        requires
            old(self).wf(),
            distinct(add@),
        ensures
            final(self).wf(),
            final(self).persons == old(self).persons,
            final(self).journals == old(self).journals,
            r is Err <==> !has_citation(old(self).items@, citation@),
            r is Err ==> r == Err::<(Entry, AlteredKeywords), DbError>(DbError::NotFound)
                && final(self).items == old(self).items,
            r matches Ok((e, alt)) ==> exists|i: int|
                0 <= i < old(self).items@.len() && old(self).items@[i].entry.citation@
                    == citation@ && keywords_changed(
                    old(self).items@,
                    final(self).items@,
                    i,
                    add@,
                    del@,
                ) && same_entry(e, final(self).items@[i].entry) && altered_as(
                    alt,
                    old(self).items@[i].entry.keywords@,
                    final(self).items@[i].entry.keywords@,
                ),
    {
        match self.find(citation) {
            None => Err(DbError::NotFound),
            Some(i) => {
                let ghost prev = self.items@;
                let mut item = self.items.remove(i);
                let before = crate::model::copy_texts(&item.entry.keywords);
                let after = apply_request(&before, add, del);
                item.entry.keywords = after;
                let e = item.entry.duplicate();
                let alt = alter(&before, &e.keywords);
                self.items.insert(i, item);
                proof {
                    assert(self.items@ =~= prev.update(i as int, self.items@[i as int]));
                    assert forall|x: int, y: int|
                        0 <= x < y < self.items@.len() implies self.items@[x].entry.citation@
                        != self.items@[y].entry.citation@ by {
                        assert(self.items@[x].entry.citation@ == prev[x].entry.citation@);
                        assert(self.items@[y].entry.citation@ == prev[y].entry.citation@);
                    }
                    assert forall|j: int| 0 <= j < self.items@.len() implies (
                    #[trigger] self.items@[j]).entry.wf() by {
                        if j != i {
                            assert(self.items@[j] == prev[j]);
                        } else {
                            assert(prev[j].entry.wf());
                        }
                    }
                    assert(keywords_changed(prev, self.items@, i as int, add@, del@));
                    assert(altered_as(alt, prev[i as int].entry.keywords@, self.items@[i as int].entry.keywords@));
                }
                Ok((e, alt))
            },
        }
    }

    /// Records a file of the given name and type (`pdf` or `comment`) for an entry.
    pub fn add_file(&mut self, citation: &str, name: String, file_type: String) -> (r: Result<
        (),
        DbError,
    >)
        requires
            old(self).wf(),
        ensures
            final(self).wf(),
            final(self).persons == old(self).persons,
            final(self).journals == old(self).journals,
            r is Err <==> !has_citation(old(self).items@, citation@),
            r is Err ==> r == Err::<(), DbError>(DbError::NotFound) && final(self).items
                == old(self).items,
            r is Ok ==> exists|i: int|
                0 <= i < old(self).items@.len() && old(self).items@[i].entry.citation@
                    == citation@ && file_added(old(self).items@, final(self).items@, i, name, file_type),
    {
        match self.find(citation) {
            None => Err(DbError::NotFound),
            Some(i) => {
                let ghost prev = self.items@;
                let ghost gname = name;
                let ghost gtype = file_type;
                let mut item = self.items.remove(i);
                item.entry.files.push((name, file_type));
                self.items.insert(i, item);
                proof {
                    assert(self.items@ =~= prev.update(i as int, self.items@[i as int]));
                    assert forall|x: int, y: int|
                        0 <= x < y < self.items@.len() implies self.items@[x].entry.citation@
                        != self.items@[y].entry.citation@ by {
                        assert(self.items@[x].entry.citation@ == prev[x].entry.citation@);
                        assert(self.items@[y].entry.citation@ == prev[y].entry.citation@);
                    }
                    assert forall|j: int| 0 <= j < self.items@.len() implies (
                    #[trigger] self.items@[j]).entry.wf() by {
                        if j != i {
                            assert(self.items@[j] == prev[j]);
                        } else {
                            assert(prev[j].entry.wf());
                        }
                    }
                    assert(file_added(prev, self.items@, i as int, gname, gtype));
                }
                Ok(())
            },
        }
    }

    /// The (name, type) records of the files of an entry.
    pub fn get_files(&self, citation: &str) -> (r: Result<Vec<(String, String)>, DbError>)
        ensures
            r is Err <==> !has_citation(self.items@, citation@),
            r is Err ==> r == Err::<Vec<(String, String)>, DbError>(DbError::NotFound),
            r matches Ok(v) ==> exists|i: int|
                0 <= i < self.items@.len() && self.items@[i].entry.citation@ == citation@
                    && v@ == self.items@[i].entry.files@,
    {
        match self.find(citation) {
            None => Err(DbError::NotFound),
            Some(i) => Ok(crate::model::copy_pairs(&self.items[i].entry.files)),
        }
    }
}

/// `after` is `before` with the keywords of item `i` edited by the request (`add`, `del`) and
/// nothing else changed.
pub open spec fn keywords_changed(
    before: Seq<Item>,
    after: Seq<Item>,
    i: int,
    add: Seq<String>,
    del: Seq<String>,
) -> bool {
    &&& after.len() == before.len()
    &&& forall|j: int| 0 <= j < before.len() && j != i ==> after[j] == before[j]
    &&& after[i].journal_id == before[i].journal_id
    &&& same_entry(
        after[i].entry,
        Entry { keywords: after[i].entry.keywords, ..before[i].entry },
    )
    &&& text_set(after[i].entry.keywords@) == applied(
        text_set(before[i].entry.keywords@),
        text_set(add),
        text_set(del),
    )
}

/// `alt` describes the change of a keyword list from `before` to `after`.
pub open spec fn altered_as(alt: AlteredKeywords, before: Seq<String>, after: Seq<String>) -> bool {
    &&& text_set(alt.kept@) == kept_of(text_set(before), text_set(after))
    &&& text_set(alt.added@) == added_of(text_set(before), text_set(after))
    &&& text_set(alt.deleted@) == deleted_of(text_set(before), text_set(after))
}

/// `after` is `before` with a file record (`name`, `file_type`) added to item `i`.
pub open spec fn file_added(
    before: Seq<Item>,
    after: Seq<Item>,
    i: int,
    name: String,
    file_type: String,
) -> bool {
    &&& after.len() == before.len()
    &&& forall|j: int| 0 <= j < before.len() && j != i ==> after[j] == before[j]
    &&& after[i].journal_id == before[i].journal_id
    &&& same_entry(after[i].entry, Entry { files: after[i].entry.files, ..before[i].entry })
    &&& after[i].entry.files@ == before[i].entry.files@.push((name, file_type))
}

/// An item appended under a citation that was not stored before is then found under that
/// citation, and it is the only item that has it: a later lookup of the citation hands back
/// this item's data.
pub proof fn lemma_added_is_found(before: Seq<Item>, after: Seq<Item>, c: Seq<char>)
    requires
        citations_unique(before),
        !has_citation(before, c),
        after.len() == before.len() + 1,
        after.drop_last() == before,
        after.last().entry.citation@ == c,
    ensures
        has_citation(after, c),
        citations_unique(after),
        forall|i: int| 0 <= i < after.len() && after[i].entry.citation@ == c ==> i == after.len() - 1,
{
    assert(after[after.len() - 1].entry.citation@ == c);
    assert forall|i: int| 0 <= i < after.len() && after[i].entry.citation@ == c implies i
        == after.len() - 1 by {
        if i < after.len() - 1 {
            assert(after[i] == before[i]);
        }
    }
    assert forall|i: int, j: int| 0 <= i < j < after.len() implies after[i].entry.citation@
        != after[j].entry.citation@ by {
        if j < after.len() - 1 {
            assert(after[i] == before[i]);
            assert(after[j] == before[j]);
        } else {
            assert(after[i] == before[i]);
        }
    }
}

/// Once the item holding a citation is removed, no item holds that citation any more.
pub proof fn lemma_deleted_is_gone(items: Seq<Item>, i: int, c: Seq<char>)
    requires
        citations_unique(items),
        0 <= i < items.len(),
        items[i].entry.citation@ == c,
    ensures
        !has_citation(items.remove(i), c),
{
    let after = items.remove(i);
    assert forall|j: int| 0 <= j < after.len() implies after[j].entry.citation@ != c by {
        if j < i {
            assert(after[j] == items[j]);
        } else {
            assert(after[j] == items[j + 1]);
        }
    }
}

impl Store {
    /// Whether the store is well formed; a store assembled from outside rows is to be checked
    /// before use.
    pub fn is_wf(&self) -> (r: bool)
        ensures
            r == self.wf(),
    {
        if self.next_person_id < 1 || self.next_journal_id < 1 {
            return false;
        }
        let n = self.items.len();
        let mut i: usize = 0;
        while i < n
            invariant
                n == self.items@.len(),
                i <= n,
                forall|a: int, b: int|
                    0 <= a < b < n && a < i ==> self.items@[a].entry.citation@
                        != self.items@[b].entry.citation@,
                forall|a: int| 0 <= a < i ==> (#[trigger] self.items@[a]).entry.wf(),
            decreases n - i,
        {
            if !self.items[i].entry.is_wf() {
                return false;
            }
            let mut j: usize = i + 1;
            while j < n
                invariant
                    n == self.items@.len(),
                    i < n,
                    i + 1 <= j <= n,
                    forall|a: int, b: int|
                        0 <= a < b < n && a < i ==> self.items@[a].entry.citation@
                            != self.items@[b].entry.citation@,
                    forall|b: int|
                        i < b < j ==> self.items@[i as int].entry.citation@
                            != self.items@[b].entry.citation@,
                decreases n - j,
            {
                if self.items[i].entry.citation == self.items[j].entry.citation {
                    return false;
                }
                j = j + 1;
            }
            i = i + 1;
        }
        let mut k: usize = 0;
        while k < n
            invariant
                n == self.items@.len(),
                k <= n,
                forall|a: int| 0 <= a < k ==> journal_linked(#[trigger] self.items@[a], self.journals@),
            decreases n - k,
        {
            if !self.linked(k) {
                return false;
            }
            k = k + 1;
        }
        persons_ok(&self.persons, self.next_person_id) && journals_ok(
            &self.journals,
            self.next_journal_id,
        )
    }

    /// Whether item `k` names exactly the journal it links to.
    fn linked(&self, k: usize) -> (r: bool)
        requires
            k < self.items@.len(),
        ensures
            r == journal_linked(self.items@[k as int], self.journals@),
    {
        let item = &self.items[k];
        match item.journal_id {
            None => item.entry.journal.is_none(),
            Some(id) => match self.journal_name(id) {
                None => false,
                Some(name) => match &item.entry.journal {
                    Some(t) => *t == name,
                    None => false,
                },
            },
        }
    }
}

fn persons_ok(persons: &Vec<Person>, next: i32) -> (r: bool)
    ensures
        r == persons_wf(persons@, next),
{
    let n = persons.len();
    let mut i: usize = 0;
    while i < n
        invariant
            n == persons@.len(),
            i <= n,
            forall|a: int, b: int|
                0 <= a < b < n && a < i ==> !same_person(persons@[a], persons@[b]),
            forall|a: int, b: int| 0 <= a < b < n && a < i ==> persons@[a].id != persons@[b].id,
            forall|a: int| 0 <= a < i ==> persons@[a].id is Some && persons@[a].id.unwrap() < next,
        decreases n - i,
    {
        match persons[i].id {
            Some(id) => {
                if id >= next {
                    return false;
                }
            },
            None => {
                return false;
            },
        }
        let mut j: usize = i + 1;
        while j < n
            invariant
                n == persons@.len(),
                i < n,
                i + 1 <= j <= n,
                forall|a: int, b: int|
                    0 <= a < b < n && a < i ==> !same_person(persons@[a], persons@[b]),
                forall|a: int, b: int|
                    0 <= a < b < n && a < i ==> persons@[a].id != persons@[b].id,
                forall|b: int| i < b < j ==> !same_person(persons@[i as int], persons@[b]),
                forall|b: int| i < b < j ==> persons@[i as int].id != persons@[b].id,
                forall|a: int|
                    0 <= a <= i ==> persons@[a].id is Some && persons@[a].id.unwrap() < next,
            decreases n - j,
        {
            if persons[i].search_term == persons[j].search_term && persons[i].first_name
                == persons[j].first_name {
                assert(same_person(persons@[i as int], persons@[j as int]));
                return false;
            }
            match (persons[i].id, persons[j].id) {
                (Some(x), Some(y)) => {
                    if x == y {
                        assert(persons@[i as int].id == persons@[j as int].id);
                        return false;
                    }
                },
                _ => {},
            }
            j = j + 1;
        }
        i = i + 1;
    }
    true
}

fn journals_ok(journals: &Vec<Journal>, next: i32) -> (r: bool)
    ensures
        r == journals_wf(journals@, next),
{
    let n = journals.len();
    let mut i: usize = 0;
    while i < n
        invariant
            n == journals@.len(),
            i <= n,
            forall|a: int, b: int| 0 <= a < b < n && a < i ==> journals@[a].id != journals@[b].id,
            forall|a: int| 0 <= a < i ==> journals@[a].id is Some && journals@[a].id.unwrap() < next,
        decreases n - i,
    {
        match journals[i].id {
            Some(id) => {
                if id >= next {
                    return false;
                }
            },
            None => {
                return false;
            },
        }
        let mut j: usize = i + 1;
        while j < n
            invariant
                n == journals@.len(),
                i < n,
                i + 1 <= j <= n,
                forall|a: int, b: int| 0 <= a < b < n && a < i ==> journals@[a].id != journals@[b].id,
                forall|b: int| i < b < j ==> journals@[i as int].id != journals@[b].id,
            decreases n - j,
        {
            if journals[i].id == journals[j].id {
                return false;
            }
            j = j + 1;
        }
        i = i + 1;
    }
    true
}

} // verus!
