use vstd::prelude::*;

use crate::model::{copy_people, same_entry, same_person, text_of, Entry, Journal, Person};
use crate::store::{
    citations_unique, first_named, has_citation, is_stored, journal_known, journal_linked,
    lemma_added_is_found, lemma_deleted_is_gone, lemma_row_has_name, linked_name, named_in,
    namesakes, people_fit, people_rows, persons_kept, stored_as, DbError, Item, Store,
};
use vstd::string::*;

verus! {

/// The incoming entry's citation is taken: the existing entry is handed back with the
/// attempt, so that the caller can rename the citation or merge into the existing entry.
pub enum CitationError {
    Citation(InsertionStart, Entry),
}

/// The journal could not be resolved (the unresolved name is carried along), or storing it
/// failed.
pub enum JournalError {
    Journal(InsertionWithName, String),
    DBError(DbError),
}

/// Some people are not stored yet: each comes with the stored people of the same search term.
pub enum PersonError {
    Person(InsertionWithJournal, Vec<(Person, Vec<Person>)>),
}

/// An entry about to be inserted; its citation is not checked yet.
pub struct InsertionStart {
    entry: Entry,
}

/// The citation is free, or the caller chose to merge into the existing entry (`update`).
pub struct InsertionWithName {
    entry: Entry,
    update: bool,
}

/// The journal is resolved to a stored journal id (or the entry has none).
pub struct InsertionWithJournal {
    entry: Entry,
    journal_id: Option<i32>,
    update: bool,
}

/// Every person is accounted for; the entry can be committed.
pub struct InsertionWithPeople {
    entry: Entry,
    journal_id: Option<i32>,
    update: bool,
}

impl InsertionStart {
    pub closed spec fn spec_entry(&self) -> Entry {
        self.entry
    }

    /// The entry carried through the stages.
    pub fn entry(&self) -> (r: &Entry)
        ensures
            *r == self.spec_entry(),
    {
        &self.entry
    }

    pub fn into_entry(self) -> (r: Entry)
        ensures
            r == self.spec_entry(),
    {
        self.entry
    }
}

impl InsertionWithName {
    pub closed spec fn spec_entry(&self) -> Entry {
        self.entry
    }

    /// The entry carried through the stages.
    pub fn entry(&self) -> (r: &Entry)
        ensures
            *r == self.spec_entry(),
    {
        &self.entry
    }

    pub fn into_entry(self) -> (r: Entry)
        ensures
            r == self.spec_entry(),
    {
        self.entry
    }

    pub closed spec fn spec_update(&self) -> bool {
        self.update
    }

    /// Whether the commit replaces the stored entry of the same citation.
    pub fn is_update(&self) -> (r: bool)
        ensures
            r == self.spec_update(),
    {
        self.update
    }
}

impl InsertionWithJournal {
    pub closed spec fn spec_entry(&self) -> Entry {
        self.entry
    }

    /// The entry carried through the stages.
    pub fn entry(&self) -> (r: &Entry)
        ensures
            *r == self.spec_entry(),
    {
        &self.entry
    }

    pub fn into_entry(self) -> (r: Entry)
        ensures
            r == self.spec_entry(),
    {
        self.entry
    }

    pub closed spec fn spec_update(&self) -> bool {
        self.update
    }

    /// Whether the commit replaces the stored entry of the same citation.
    pub fn is_update(&self) -> (r: bool)
        ensures
            r == self.spec_update(),
    {
        self.update
    }

    pub closed spec fn spec_journal_id(&self) -> Option<i32> {
        self.journal_id
    }

    /// The id of the resolved journal.
    pub fn journal_id(&self) -> (r: Option<i32>)
        ensures
            r == self.spec_journal_id(),
    {
        self.journal_id
    }
}

impl InsertionWithPeople {
    pub closed spec fn spec_entry(&self) -> Entry {
        self.entry
    }

    /// The entry carried through the stages.
    pub fn entry(&self) -> (r: &Entry)
        ensures
            *r == self.spec_entry(),
    {
        &self.entry
    }

    pub fn into_entry(self) -> (r: Entry)
        ensures
            r == self.spec_entry(),
    {
        self.entry
    }

    pub closed spec fn spec_update(&self) -> bool {
        self.update
    }

    /// Whether the commit replaces the stored entry of the same citation.
    pub fn is_update(&self) -> (r: bool)
        ensures
            r == self.spec_update(),
    {
        self.update
    }

    pub closed spec fn spec_journal_id(&self) -> Option<i32> {
        self.journal_id
    }

    /// The id of the resolved journal.
    pub fn journal_id(&self) -> (r: Option<i32>)
        ensures
            r == self.spec_journal_id(),
    {
        self.journal_id
    }
}

/// The authors followed by the editors.
pub open spec fn people_of(e: Entry) -> Seq<Person> {
    e.authors@ + e.editors@
}

/// The people of `people` that `persons` does not hold, in order.
pub open spec fn unmatched(people: Seq<Person>, persons: Seq<Person>) -> Seq<Person>
    decreases people.len(),
{
    if people.len() == 0 {
        Seq::<Person>::empty()
    } else {
        let prev = unmatched(people.drop_last(), persons);
        if is_stored(persons, people.last()) {
            prev
        } else {
            prev.push(people.last())
        }
    }
}

/// The length in characters of a journal's full name.
pub open spec fn name_len(j: Journal) -> nat {
    j.name@.len()
}

/// `k` is the first of the journals with the shortest full name.
pub open spec fn shortest_first(journals: Seq<Journal>, k: int) -> bool {
    &&& 0 <= k < journals.len()
    &&& forall|j: int| 0 <= j < journals.len() ==> name_len(journals[k]) <= name_len(journals[j])
    &&& forall|j: int| 0 <= j < k ==> name_len(journals[k]) < name_len(journals[j])
}

/// Among journals that all match a name, the one to take: the shortest full name, the first
/// such one on a tie; `None` for no journal.
pub fn pick_journal(candidates: &Vec<Journal>) -> (r: Option<usize>)
    ensures
        r is None <==> candidates@.len() == 0,
        r matches Some(k) ==> shortest_first(candidates@, k as int),
{
    if candidates.len() == 0 {
        return None;
    }
    let mut best: usize = 0;
    let mut best_len = candidates[0].name.as_str().unicode_len();
    let mut i: usize = 1;
    while i < candidates.len()
        invariant
            1 <= i <= candidates@.len(),
            best < i,
            best_len == name_len(candidates@[best as int]),
            forall|j: int| 0 <= j < i ==> name_len(candidates@[best as int]) <= name_len(candidates@[j]),
            forall|j: int| 0 <= j < best ==> name_len(candidates@[best as int]) < name_len(candidates@[j]),
        decreases candidates.len() - i,
    {
        let l = candidates[i].name.as_str().unicode_len();
        if l < best_len {
            best = i;
            best_len = l;
        }
        i = i + 1;
    }
    Some(best)
}

/// Whether one of `people` has this first name.
fn has_first_name(people: &Vec<Person>, first_name: &String) -> (r: bool)
    ensures
        r == exists|i: int| 0 <= i < people@.len() && people@[i].first_name@ == first_name@,
{
    let mut i: usize = 0;
    while i < people.len()
        invariant
            i <= people@.len(),
            forall|j: int| 0 <= j < i ==> people@[j].first_name@ != first_name@,
        decreases people.len() - i,
    {
        if people[i].first_name == *first_name {
            return true;
        }
        i = i + 1;
    }
    false
}

/// A row of the people table is among the namesakes of its search term, and nothing else is.
proof fn lemma_namesakes(persons: Seq<Person>, t: Seq<char>)
    ensures
        forall|x: int|
            0 <= x < namesakes(persons, t).len() ==> exists|i: int|
                0 <= i < persons.len() && persons[i] == #[trigger] namesakes(persons, t)[x]
                    && persons[i].search_term@ == t,
        forall|i: int|
            0 <= i < persons.len() && persons[i].search_term@ == t ==> exists|x: int|
                0 <= x < namesakes(persons, t).len() && #[trigger] persons[i] == namesakes(
                    persons,
                    t,
                )[x],
    decreases persons.len(),
{
    if persons.len() > 0 {
        let prev = persons.drop_last();
        lemma_namesakes(prev, t);
        let n = namesakes(persons, t);
        let np = namesakes(prev, t);
        assert forall|x: int| 0 <= x < n.len() implies exists|i: int|
            0 <= i < persons.len() && persons[i] == #[trigger] n[x] && persons[i].search_term@
                == t by {
            if x < np.len() {
                assert(n[x] == np[x]);
                let i = choose|i: int|
                    0 <= i < prev.len() && prev[i] == np[x] && prev[i].search_term@ == t;
                assert(persons[i] == prev[i]);
            } else {
                assert(persons[persons.len() - 1] == n[x]);
            }
        }
        assert forall|i: int|
            0 <= i < persons.len() && persons[i].search_term@ == t implies exists|x: int|
            0 <= x < n.len() && #[trigger] persons[i] == n[x] by {
            if i < prev.len() {
                assert(persons[i] == prev[i]);
                let x = choose|x: int| 0 <= x < np.len() && prev[i] == np[x];
                assert(n[x] == np[x]);
            } else {
                assert(n[np.len() as int] == persons[i]);
            }
        }
    }
}

impl InsertionStart {
    pub fn new(entry: Entry) -> (r: Self)
        ensures
            r.spec_entry() == entry,
    {
        InsertionStart { entry }
    }

    /// Goes on when no stored entry has this citation; otherwise hands back the stored entry
    /// that has it. Nothing is written either way.
    pub fn check_citation(self, store: &Store) -> (r: Result<InsertionWithName, CitationError>)
        ensures
            r is Ok <==> !has_citation(store.items@, self.spec_entry().citation@),
            r matches Ok(n) ==> n.spec_entry() == self.spec_entry() && !n.spec_update(),
            r matches Err(CitationError::Citation(back, existing)) ==> back.spec_entry() == self.spec_entry()
                && exists|i: int|
                0 <= i < store.items@.len() && store.items@[i].entry.citation@
                    == self.spec_entry().citation@ && same_entry(existing, store.items@[i].entry),
    {
        match store.get_item(self.entry.citation.as_str()) {
            Ok(existing) => Err(CitationError::Citation(self, existing)),
            Err(_) => Ok(InsertionWithName { entry: self.entry, update: false }),
        }
    }

    /// Merges into the stored entry of the same citation: at commit the stored entry is
    /// replaced by this one.
    pub fn update(self) -> (r: InsertionWithName)
        ensures
            r.spec_entry() == self.spec_entry(),
            r.spec_update(),
    {
        InsertionWithName { entry: self.entry, update: true }
    }
}

impl InsertionWithName {
    /// Resolves the entry's journal: by name or abbreviation in the store (the first such row);
    /// failing that, by the shortest-named of `catalog`, the reference catalog's journals that
    /// match the name. The catalog's pick is looked up in the store by its own name first and
    /// stored only when absent, so a journal is never stored twice. When neither the store nor
    /// the catalog has it, the unresolved name is handed back.
    pub fn check_journal(self, store: &mut Store, catalog: &Vec<Journal>) -> (r: Result<
        InsertionWithJournal,
        JournalError,
    >)
        requires
            old(store).wf(),
        ensures
            final(store).wf(),
            final(store).items == old(store).items,
            final(store).persons == old(store).persons,
            final(store).next_person_id == old(store).next_person_id,
            r matches Ok(j) ==> j.spec_entry() == self.spec_entry() && j.spec_update()
                == self.spec_update() && journal_known(final(store).journals@, j.spec_journal_id()),
            self.spec_entry().journal is None ==> r is Ok && final(store).journals
                == old(store).journals && r->Ok_0.spec_journal_id() is None,
            self.spec_entry().journal matches Some(name) ==> {
                &&& named_in(old(store).journals@, name@) ==> final(store).journals
                    == old(store).journals && r is Ok && exists|i: int|
                    first_named(old(store).journals@, name@, i) && old(store).journals@[i].id
                        == r->Ok_0.spec_journal_id()
                &&& !named_in(old(store).journals@, name@) && catalog@.len() == 0 ==> final(store).journals
                    == old(store).journals && (r matches Err(
                    JournalError::Journal(back, n),
                ) && n == name && back.spec_entry() == self.spec_entry() && back.spec_update()
                    == self.spec_update())
                &&& !named_in(old(store).journals@, name@) && catalog@.len() > 0 ==> exists|k: int|
                    shortest_first(catalog@, k) && catalog_resolved(
                        old(store).journals@,
                        final(store).journals@,
                        old(store).next_journal_id,
                        catalog@[k],
                        r,
                    )
            },
    {
        let journal_id = match &self.entry.journal {
            None => None,
            Some(name) => {
                match store.query_journal(name.as_str()) {
                    Some(id) => {
                        proof {
                            let i = choose|i: int|
                                first_named(store.journals@, name@, i) && store.journals@[i].id
                                    == Some(id);
                            lemma_row_has_name(store.journals@, i);
                        }
                        Some(id)
                    },
                    None => {
                        match pick_journal(catalog) {
                            Some(k) => {
                                match store.query_journal(catalog[k].name.as_str()) {
                                    Some(id) => {
                                        proof {
                                            let i = choose|i: int|
                                                first_named(store.journals@, catalog@[k as int].name@, i)
                                                    && store.journals@[i].id == Some(id);
                                            lemma_row_has_name(store.journals@, i);
                                        }
                                        Some(id)
                                    },
                                    None => match store.add_journal(&catalog[k]) {
                                        Ok(id) => {
                                            proof {
                                                let last = store.journals@.len() - 1;
                                                assert(store.journals@[last].id == Some(id));
                                                lemma_row_has_name(store.journals@, last);
                                            }
                                            Some(id)
                                        },
                                        Err(e) => {
                                            return Err(JournalError::DBError(e));
                                        },
                                    },
                                }
                            },
                            None => {
                                let unresolved = name.clone();
                                return Err(JournalError::Journal(self, unresolved));
                            },
                        }
                    },
                }
            },
        };
        Ok(InsertionWithJournal { entry: self.entry, journal_id, update: self.update })
    }

    /// Goes on with a journal that the caller resolved, such as one it just stored.
    pub fn with_journal(self, journal_id: i32) -> (r: InsertionWithJournal)
        ensures
            r.spec_entry() == self.spec_entry(),
            r.spec_update() == self.spec_update(),
            r.spec_journal_id() == Some(journal_id),
    {
        InsertionWithJournal { entry: self.entry, journal_id: Some(journal_id), update: self.update }
    }
}

impl InsertionWithJournal {
    /// Goes on when every author and editor is stored already as the same person; otherwise
    /// lists, in order (authors first), each person that is not, with the stored people of the
    /// same search term.
    pub fn check_people(self, store: &Store) -> (r: Result<InsertionWithPeople, PersonError>)
        ensures
            r is Ok <==> unmatched(people_of(self.spec_entry()), store.persons@).len() == 0,
            r matches Ok(p) ==> p.spec_entry() == self.spec_entry() && p.spec_journal_id() == self.spec_journal_id()
                && p.spec_update() == self.spec_update(),
            r matches Err(PersonError::Person(back, list)) ==> {
                &&& back.spec_entry() == self.spec_entry()
                &&& back.spec_journal_id() == self.spec_journal_id()
                &&& back.spec_update() == self.spec_update()
                &&& list@.len() == unmatched(people_of(self.spec_entry()), store.persons@).len()
                &&& forall|i: int|
                    0 <= i < list@.len() ==> (#[trigger] list@[i]).0 == unmatched(
                        people_of(self.spec_entry()),
                        store.persons@,
                    )[i] && list@[i].1@ == namesakes(store.persons@, list@[i].0.search_term@)
            },
    {
        let mut conflict_list: Vec<(Person, Vec<Person>)> = Vec::new();
        let mut everyone = copy_people(&self.entry.authors);
        let mut editors = copy_people(&self.entry.editors);
        everyone.append(&mut editors);
        let ghost all = people_of(self.entry);
        assert(everyone@ =~= all);
        let total = everyone.len();
        let mut i: usize = 0;
        while i < total
            invariant
                total == all.len(),
                everyone@ == all,
                all == people_of(self.entry),
                i <= total,
                conflict_list@.len() == unmatched(all.subrange(0, i as int), store.persons@).len(),
                forall|x: int|
                    0 <= x < conflict_list@.len() ==> (#[trigger] conflict_list@[x]).0 == unmatched(
                        all.subrange(0, i as int),
                        store.persons@,
                    )[x] && conflict_list@[x].1@ == namesakes(
                        store.persons@,
                        conflict_list@[x].0.search_term@,
                    ),
            decreases total - i,
        {
            let input_person = everyone[i].duplicate();
            assert(input_person == all[i as int]);
            let exist_people = store.search_lastname(input_person.search_term.as_str());
            let found = has_first_name(&exist_people, &input_person.first_name);
            proof {
                let t = input_person.search_term@;
                lemma_namesakes(store.persons@, t);
                assert(all.subrange(0, i + 1).drop_last() =~= all.subrange(0, i as int));
                if found {
                    let x = choose|x: int|
                        0 <= x < exist_people@.len() && exist_people@[x].first_name@
                            == input_person.first_name@;
                    let k = choose|k: int|
                        0 <= k < store.persons@.len() && store.persons@[k]
                            == namesakes(store.persons@, t)[x] && store.persons@[k].search_term@
                            == t;
                    assert(same_person(store.persons@[k], input_person));
                } else {
                    assert forall|k: int| 0 <= k < store.persons@.len() implies !same_person(
                        store.persons@[k],
                        input_person,
                    ) by {
                        if store.persons@[k].search_term@ == t {
                            let x = choose|x: int|
                                0 <= x < namesakes(store.persons@, t).len()
                                    && store.persons@[k] == namesakes(store.persons@, t)[x];
                            assert(exist_people@[x] == store.persons@[k]);
                        }
                    }
                }
            }
            if !found {
                conflict_list.push((input_person, exist_people));
            }
            i = i + 1;
        }
        proof {
            assert(all.subrange(0, total as int) =~= all);
        }
        if conflict_list.len() == 0 {
            Ok(
                InsertionWithPeople {
                    entry: self.entry,
                    journal_id: self.journal_id,
                    update: self.update,
                },
            )
        } else {
            Err(PersonError::Person(self, conflict_list))
        }
    }

    /// Goes on after the caller settled the listed people: those still not stored are added as
    /// new people at commit.
    pub fn accept_people(self) -> (r: InsertionWithPeople)
        ensures
            r.spec_entry() == self.spec_entry(),
            r.spec_journal_id() == self.spec_journal_id(),
            r.spec_update() == self.spec_update(),
    {
        InsertionWithPeople { entry: self.entry, journal_id: self.journal_id, update: self.update }
    }
}

impl InsertionWithPeople {
    /// Commits the entry. With `update`, the stored entry of the same citation is replaced;
    /// without, a stored entry of that citation makes the commit fail. It fails too when too
    /// few person ids are left to add every author and editor, or when the journal id is not
    /// stored. Either the whole item is written, or the store is left as it was.
    pub fn insert(&self, store: &mut Store) -> (r: Result<(), DbError>)
        requires
            old(store).wf(),
            self.spec_entry().wf(),
        ensures
            final(store).wf(),
            final(store).journals == old(store).journals,
            final(store).next_journal_id == old(store).next_journal_id,
            r is Ok <==> (self.spec_update() || !has_citation(
                old(store).items@,
                self.spec_entry().citation@,
            )) && people_fit(old(store).next_person_id, self.spec_entry()) && journal_known(
                old(store).journals@,
                self.spec_journal_id(),
            ),
            !self.spec_update() && has_citation(old(store).items@, self.spec_entry().citation@)
                ==> r == Err::<(), DbError>(DbError::Duplicate),
            (self.spec_update() || !has_citation(old(store).items@, self.spec_entry().citation@))
                && !people_fit(old(store).next_person_id, self.spec_entry()) ==> r == Err::<
                (),
                DbError,
            >(DbError::Capacity),
            (self.spec_update() || !has_citation(old(store).items@, self.spec_entry().citation@))
                && people_fit(old(store).next_person_id, self.spec_entry()) && !journal_known(
                old(store).journals@,
                self.spec_journal_id(),
            ) ==> r == Err::<(), DbError>(DbError::UnknownJournal),
            r is Err ==> final(store).items@ == old(store).items@ && final(store).persons
                == old(store).persons && final(store).next_person_id == old(store).next_person_id,
            r is Ok ==> committed(
                old(store).items@,
                final(store).items@,
                self.spec_entry(),
                self.spec_journal_id(),
                old(store).journals@,
            ) && people_written(old(store).persons@, final(store).persons@, final(store).items@),
    {
        if self.update {
            store.replace_item(&self.entry, self.journal_id)
        } else {
            store.add_item(&self.entry, self.journal_id)
        }
    }
}

/// The catalog's pick `pick` resolved: to the first stored journal of its name when there is
/// one (nothing stored then), else to a new row holding it, which fails only when the journal
/// ids are used up.
pub open spec fn catalog_resolved(
    before: Seq<Journal>,
    after: Seq<Journal>,
    next_journal_id: i32,
    pick: Journal,
    r: Result<InsertionWithJournal, JournalError>,
) -> bool {
    &&& named_in(before, pick.name@) ==> after == before && r is Ok && exists|i: int|
        first_named(before, pick.name@, i) && before[i].id == r->Ok_0.spec_journal_id()
    &&& !named_in(before, pick.name@) ==> (r is Ok <==> next_journal_id < i32::MAX)
    &&& !named_in(before, pick.name@) && r is Ok ==> after == before.push(
        Journal {
            id: r->Ok_0.spec_journal_id(),
            name: pick.name,
            abbr: pick.abbr,
            abbr_no_dot: pick.abbr_no_dot,
        },
    )
    &&& !named_in(before, pick.name@) && r is Err ==> after == before && r == Err::<
        InsertionWithJournal,
        JournalError,
    >(JournalError::DBError(DbError::Capacity))
}

/// `after` is `before` with `entry` written last, linked to journal `journal_id` and named
/// after it, in place of the item of the same citation when there was one.
pub open spec fn committed(
    before: Seq<Item>,
    after: Seq<Item>,
    entry: Entry,
    journal_id: Option<i32>,
    journals: Seq<Journal>,
) -> bool {
    &&& after.len() >= 1
    &&& stored_as(after.last().entry, entry)
    &&& after.last().journal_id == journal_id
    &&& text_of(after.last().entry.journal) == linked_name(journals, journal_id)
    &&& !has_citation(before, entry.citation@) ==> after.len() == before.len() + 1
        && after.drop_last() == before
    &&& has_citation(before, entry.citation@) ==> after.len() == before.len() && exists|i: int|
        0 <= i < before.len() && before[i].entry.citation@ == entry.citation@ && after.drop_last()
            == before.remove(i)
}

/// The people table keeps its rows, and the last item's authors and editors are rows of it.
pub open spec fn people_written(before: Seq<Person>, after: Seq<Person>, items: Seq<Item>) -> bool {
    &&& persons_kept(before, after)
    &&& people_rows(items.last().entry.authors@, after)
    &&& people_rows(items.last().entry.editors@, after)
}

impl Store {
    /// Writes `entry` in place of the stored entry of the same citation (or as a new one when
    /// none is stored). It fails when too few person ids are left to add every author and
    /// editor, or when the journal id is not stored; then the store is left as it was.
    pub fn replace_item(&mut self, entry: &Entry, journal_id: Option<i32>) -> (r: Result<
        (),
        DbError,
    >)
        requires
            old(self).wf(),
            entry.wf(),
        ensures
            final(self).wf(),
            final(self).journals == old(self).journals,
            final(self).next_journal_id == old(self).next_journal_id,
            r is Ok <==> people_fit(old(self).next_person_id, *entry) && journal_known(
                old(self).journals@,
                journal_id,
            ),
            !people_fit(old(self).next_person_id, *entry) ==> r == Err::<(), DbError>(
                DbError::Capacity,
            ),
            people_fit(old(self).next_person_id, *entry) && !journal_known(
                old(self).journals@,
                journal_id,
            ) ==> r == Err::<(), DbError>(DbError::UnknownJournal),
            r is Err ==> final(self).items@ == old(self).items@ && final(self).persons
                == old(self).persons && final(self).next_person_id == old(self).next_person_id,
            r is Ok ==> committed(
                old(self).items@,
                final(self).items@,
                *entry,
                journal_id,
                old(self).journals@,
            ) && people_written(old(self).persons@, final(self).persons@, final(self).items@),
    {
        match self.find(entry.citation.as_str()) {
            None => self.add_item(entry, journal_id),
            Some(i) => {
                let ghost prev = self.items@;
                let old_item = self.items.remove(i);
                proof {
                    assert forall|x: int, y: int|
                        0 <= x < y < self.items@.len() implies self.items@[x].entry.citation@
                        != self.items@[y].entry.citation@ by {
                        let px = if x < i { x } else { x + 1 };
                        let py = if y < i { y } else { y + 1 };
                        assert(self.items@[x] == prev[px]);
                        assert(self.items@[y] == prev[py]);
                    }
                    assert forall|j: int| 0 <= j < self.items@.len() implies (
                    #[trigger] self.items@[j]).entry.wf() && journal_linked(
                        self.items@[j],
                        self.journals@,
                    ) by {
                        if j < i {
                            assert(self.items@[j] == prev[j]);
                        } else {
                            assert(self.items@[j] == prev[j + 1]);
                        }
                    }
                    assert forall|j: int| 0 <= j < self.items@.len() implies self.items@[j].entry.citation@
                        != entry.citation@ by {
                        if j < i {
                            assert(self.items@[j] == prev[j]);
                        } else {
                            assert(self.items@[j] == prev[j + 1]);
                        }
                    }
                }
                match self.add_item(entry, journal_id) {
                    Ok(()) => Ok(()),
                    Err(e) => {
                        self.items.insert(i, old_item);
                        proof {
                            assert(self.items@ =~= prev);
                        }
                        Err(e)
                    },
                }
            },
        }
    }
}

/// After a commit, the committed citation is held by exactly one item, the one written last,
/// which holds the committed entry's data: a lookup of the citation then finds the new entry,
/// whether it was fresh or replaced a stored one.
pub proof fn lemma_committed_is_found(
    before: Seq<Item>,
    after: Seq<Item>,
    entry: Entry,
    journal_id: Option<i32>,
    journals: Seq<Journal>,
)
    requires
        citations_unique(before),
        committed(before, after, entry, journal_id, journals),
    ensures
        has_citation(after, entry.citation@),
        forall|i: int|
            0 <= i < after.len() && after[i].entry.citation@ == entry.citation@ ==> i
                == after.len() - 1,
        stored_as(after.last().entry, entry),
{
    let c = entry.citation@;
    let last = after.len() - 1;
    assert(after[last].entry.citation@ == c);
    if has_citation(before, c) {
        let k = choose|k: int|
            0 <= k < before.len() && before[k].entry.citation@ == c && after.drop_last()
                == before.remove(k);
        lemma_deleted_is_gone(before, k, c);
        assert forall|i: int|
            0 <= i < after.len() && after[i].entry.citation@ == c implies i == last by {
            if i < last {
                assert(after[i] == after.drop_last()[i]);
                assert(has_citation(before.remove(k), c));
            }
        }
    } else {
        lemma_added_is_found(before, after, c);
    }
}

/// A person of an incoming entry who shares a stored person's search term but not the first
/// name (and matches no stored person) is listed as a conflict, with that stored person among
/// the candidates.
pub proof fn lemma_namesake_conflict(people: Seq<Person>, persons: Seq<Person>, n: int, k: int)
    requires
        0 <= n < people.len(),
        0 <= k < persons.len(),
        persons[k].search_term@ == people[n].search_term@,
        persons[k].first_name@ != people[n].first_name@,
        !is_stored(persons, people[n]),
    ensures
        unmatched(people, persons).contains(people[n]),
        namesakes(persons, people[n].search_term@).contains(persons[k]),
{
    lemma_unmatched_contains(people, persons, n);
    lemma_namesakes(persons, people[n].search_term@);
    let x = choose|x: int|
        0 <= x < namesakes(persons, people[n].search_term@).len() && #[trigger] persons[k]
            == namesakes(persons, people[n].search_term@)[x];
    assert(namesakes(persons, people[n].search_term@)[x] == persons[k]);
}

proof fn lemma_unmatched_contains(people: Seq<Person>, persons: Seq<Person>, n: int)
    requires
        0 <= n < people.len(),
        !is_stored(persons, people[n]),
    ensures
        unmatched(people, persons).contains(people[n]),
    decreases people.len(),
{
    let prev = people.drop_last();
    if n == people.len() - 1 {
        let u = unmatched(people, persons);
        assert(u[u.len() - 1] == people[n]);
    } else {
        assert(prev[n] == people[n]);
        lemma_unmatched_contains(prev, persons, n);
        let up = unmatched(prev, persons);
        let x = choose|x: int| 0 <= x < up.len() && up[x] == people[n];
        assert(unmatched(people, persons)[x] == people[n]);
    }
}

/// Once a row for a person is in the people table, anyone with the same search term and first
/// name is stored already, so resolving them adds no second row.
pub proof fn lemma_same_person_stored_once(persons: Seq<Person>, row: Person, p: Person, q: Person)
    requires
        same_person(row, p),
        same_person(p, q),
    ensures
        is_stored(persons.push(row), p),
        is_stored(persons.push(row), q),
{
    assert(persons.push(row)[persons.len() as int] == row);
}

} // verus!
