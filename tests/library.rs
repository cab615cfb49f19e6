use std::collections::HashSet;

use bibrs::action::{output_bib, output_str};
use bibrs::keywords::{alter, apply_request, difference, filter_request, intersection};
use bibrs::model::{Entry, EntryType, Journal, Person};
use bibrs::pipeline::{pick_journal, CitationError, InsertionStart, JournalError, PersonError};
use bibrs::store::{DbError, SearchError, Store};

fn words(v: &[&str]) -> Vec<String> {
    v.iter().map(|x| (*x).to_owned()).collect()
}

fn set(v: &[String]) -> HashSet<String> {
    v.iter().cloned().collect()
}

fn person(last: &str, first: &str) -> Person {
    Person { id: None, last_name: last.to_owned(), first_name: first.to_owned(), search_term: last.to_owned() }
}

fn entry(citation: &str, year: i32, authors: Vec<Person>, keywords: &[&str]) -> Entry {
    let mut e = Entry::new(citation.to_owned(), EntryType::Article);
    e.title = format!("title of {}", citation);
    e.year = year;
    e.authors = authors;
    e.keywords = words(keywords);
    e
}

fn journal(name: &str, abbr: &str, abbr_no_dot: &str) -> Journal {
    Journal { id: None, name: name.to_owned(), abbr: abbr.to_owned(), abbr_no_dot: abbr_no_dot.to_owned() }
}

/// Runs an entry through every stage, accepting new people, and commits it.
fn insert(store: &mut Store, e: Entry) {
    let named = match InsertionStart::new(e).check_citation(store) {
        Ok(n) => n,
        Err(_) => panic!("citation taken"),
    };
    let with_journal = match named.check_journal(store, &Vec::new()) {
        Ok(j) => j,
        Err(JournalError::Journal(back, _)) => {
            let id = store.add_journal(&journal(back.entry().journal.as_ref().unwrap(), "j", "j")).unwrap();
            back.with_journal(id)
        }
        Err(JournalError::DBError(e)) => panic!("{:?}", e),
    };
    let with_people = match with_journal.check_people(store) {
        Ok(p) => p,
        Err(PersonError::Person(back, _)) => back.accept_people(),
    };
    with_people.insert(store).unwrap();
}

#[test]
fn alteration_covers_before_and_after() {
    let before = words(&["circuit", "visual cortex", "intrinsic"]);
    let after = words(&["circuit", "computation"]);
    let alt = alter(&before, &after);
    assert_eq!(set(&alt.kept), set(&words(&["circuit"])));
    assert_eq!(set(&alt.added), set(&words(&["computation"])));
    assert_eq!(set(&alt.deleted), set(&words(&["visual cortex", "intrinsic"])));
    let mut all = set(&alt.kept);
    all.extend(set(&alt.added));
    all.extend(set(&alt.deleted));
    let mut both = set(&before);
    both.extend(set(&after));
    assert_eq!(all, both);
    assert!(set(&alt.kept).is_disjoint(&set(&alt.added)));
    assert!(set(&alt.kept).is_disjoint(&set(&alt.deleted)));
    assert!(set(&alt.added).is_disjoint(&set(&alt.deleted)));
}

#[test]
fn requests_drop_no_op_terms() {
    let before = words(&["pulvinar", "thalamus"]);
    let (add, del) = filter_request(&before, &words(&["pulvinar", "macaque"]), &words(&["atlas", "thalamus"]));
    assert_eq!(add, words(&["macaque"]));
    assert_eq!(del, words(&["thalamus"]));
    let after = apply_request(&before, &words(&["pulvinar", "macaque"]), &words(&["atlas", "thalamus"]));
    assert_eq!(set(&after), set(&words(&["pulvinar", "macaque"])));
    assert_eq!(difference(&before, &after), words(&["thalamus"]));
    assert_eq!(intersection(&before, &after), words(&["pulvinar"]));
}

#[test]
fn keyword_edit_twice_changes_nothing_more() {
    let mut store = Store::new();
    insert(&mut store, entry("casagrande1994", 1994, vec![person("casagrande", "vivien")], &["visual cortex", "intrinsic"]));
    let add = words(&["circuit", "computation"]);
    let del = words(&["visual cortex", "intrinsic"]);
    let (e, alt) = store.keywords("casagrande1994", &add, &del).unwrap();
    assert_eq!(set(&e.keywords), set(&add));
    assert_eq!(set(&alt.added), set(&add));
    assert_eq!(set(&alt.deleted), set(&del));
    let (e2, alt2) = store.keywords("casagrande1994", &add, &del).unwrap();
    assert!(alt2.added.is_empty());
    assert!(alt2.deleted.is_empty());
    assert_eq!(set(&alt2.kept), set(&add));
    assert_eq!(set(&e2.keywords), set(&add));
    assert_eq!(store.keywords("nobody2000", &add, &del).err(), Some(DbError::NotFound));
}

#[test]
fn new_citation_is_stored_and_a_second_one_conflicts() {
    let mut store = Store::new();
    insert(&mut store, entry("stein2004", 2004, vec![person("stein", "barry")], &["multisensory"]));
    let got = store.get_item("stein2004").unwrap();
    assert_eq!(got.citation, "stein2004");
    assert_eq!(got.year, 2004);
    assert_eq!(got.authors[0].last_name, "stein");
    assert!(got.authors[0].id.is_some());
    let second = entry("stein2004", 1999, vec![person("other", "person")], &[]);
    match InsertionStart::new(second).check_citation(&store) {
        Err(CitationError::Citation(back, existing)) => {
            assert_eq!(existing.year, 2004);
            assert_eq!(existing.authors[0].last_name, "stein");
            assert_eq!(back.entry().year, 1999);
        }
        Ok(_) => panic!("expected a conflict"),
    }
    assert_eq!(store.get_item("stein2004").unwrap().year, 2004);
    assert_eq!(store.items.len(), 1);
}

#[test]
fn update_replaces_the_stored_entry() {
    let mut store = Store::new();
    insert(&mut store, entry("walker1938", 1938, vec![person("walker", "a. earl")], &["pulvinar"]));
    let mut incoming = entry("walker1938", 1938, vec![person("walker", "a. earl")], &["thalamus"]);
    incoming.volume = Some(3);
    let named = match InsertionStart::new(incoming).check_citation(&store) {
        Err(CitationError::Citation(back, existing)) => {
            let mut merged = existing;
            merged.update(back.entry());
            InsertionStart::new(merged).update()
        }
        Ok(_) => panic!("expected a conflict"),
    };
    assert!(named.is_update());
    let j = match named.check_journal(&mut store, &Vec::new()) {
        Ok(j) => j,
        Err(_) => panic!("no journal to resolve"),
    };
    let p = match j.check_people(&store) {
        Ok(p) => p,
        Err(_) => panic!("walker is stored"),
    };
    p.insert(&mut store).unwrap();
    assert_eq!(store.items.len(), 1);
    let stored = store.get_item("walker1938").unwrap();
    assert_eq!(stored.keywords, words(&["pulvinar"]));
    assert_eq!(stored.volume, Some(3));
    assert_eq!(store.persons.len(), 1);
}

#[test]
fn namesakes_are_conflicts_and_same_people_are_not_duplicated() {
    let mut store = Store::new();
    insert(&mut store, entry("rosa1990", 1990, vec![person("rosa", "marcello")], &[]));
    assert_eq!(store.persons.len(), 1);
    let incoming = entry("rosa1995", 1995, vec![person("rosa", "marcello"), person("rosa", "ana")], &[]);
    let named = InsertionStart::new(incoming).check_citation(&store).ok().unwrap();
    let with_journal = named.check_journal(&mut store, &Vec::new()).ok().unwrap();
    match with_journal.check_people(&store) {
        Err(PersonError::Person(back, list)) => {
            assert_eq!(list.len(), 1);
            assert_eq!(list[0].0.first_name, "ana");
            assert_eq!(list[0].1.len(), 1);
            assert_eq!(list[0].1[0].first_name, "marcello");
            back.accept_people().insert(&mut store).unwrap();
        }
        Ok(_) => panic!("ana is not stored"),
    }
    assert_eq!(store.persons.len(), 2);
    let first = store.get_item("rosa1990").unwrap().authors[0].id;
    let again = store.get_item("rosa1995").unwrap().authors[0].id;
    assert_eq!(first, again);
    let p = person("rosa", "marcello");
    let resolved = store.resolve_person(&p).unwrap();
    assert_eq!(resolved.id, first);
    assert_eq!(store.persons.len(), 2);
    assert_eq!(store.search_lastname("rosa").len(), 2);
    assert!(store.search_person(&person("rosa", "ana")).is_some());
    assert!(store.search_person(&person("rosa", "luis")).is_none());
}

#[test]
fn search_needs_all_terms() {
    let mut store = Store::new();
    insert(&mut store, entry("both1999", 1999, vec![person("rosa", "marcello"), person("casagrande", "vivien")], &["review"]));
    insert(&mut store, entry("rosa2001", 2001, vec![person("rosa", "marcello")], &["review", "cortex"]));
    insert(&mut store, entry("casagrande1994", 1994, vec![person("casagrande", "vivien")], &["cortex"]));
    let found = store.search(&words(&["casagrande", "rosa"]), &Vec::new()).unwrap();
    assert_eq!(found.len(), 1);
    assert_eq!(found[0].citation, "both1999");
    let reviews = store.search(&Vec::new(), &words(&["review"])).unwrap();
    let cites: Vec<&str> = reviews.iter().map(|e| e.citation.as_str()).collect();
    assert_eq!(cites, vec!["both1999", "rosa2001"]);
    let mixed = store.search(&words(&["rosa"]), &words(&["cortex"])).unwrap();
    assert_eq!(mixed.len(), 1);
    assert_eq!(mixed[0].citation, "rosa2001");
    assert_eq!(store.search(&Vec::new(), &Vec::new()).err(), Some(SearchError::NoTerms));
}

#[test]
fn search_finds_editors_too() {
    let mut store = Store::new();
    let mut e = entry("stein2004", 2004, vec![person("stein", "barry")], &[]);
    e.editors = vec![person("calvert", "gemma")];
    insert(&mut store, e);
    assert_eq!(store.search(&words(&["calvert"]), &Vec::new()).unwrap().len(), 1);
}

#[test]
fn shortest_catalog_name_wins() {
    let candidates = vec![
        journal("Nature Neuroscience Reviews", "Nat. Neurosci. Rev.", "Nat Neurosci Rev"),
        journal("Nature Neuroscience", "Nat. Neurosci.", "Nat Neurosci"),
        journal("Nature Neuroscienc2", "x", "x"),
    ];
    assert_eq!(pick_journal(&candidates), Some(1));
    assert_eq!(pick_journal(&Vec::new()), None);
    let mut store = Store::new();
    let mut e = entry("kerr2012", 2012, vec![person("kerr", "jason")], &[]);
    e.journal = Some("nature neuroscience".to_owned());
    let named = InsertionStart::new(e).check_citation(&store).ok().unwrap();
    let j = named.check_journal(&mut store, &candidates).ok().unwrap();
    assert_eq!(store.journals.len(), 1);
    assert_eq!(store.journals[0].name, "Nature Neuroscience");
    assert_eq!(j.journal_id(), store.journals[0].id);
    assert_eq!(store.query_journal("Nat Neurosci"), store.journals[0].id);
    assert_eq!(store.query_journal("Nature"), None);
}

#[test]
fn unknown_journal_is_handed_back() {
    let mut store = Store::new();
    let mut e = entry("ehrhart2016", 2016, vec![], &[]);
    e.journal = Some("Journal of Nowhere".to_owned());
    let named = InsertionStart::new(e).check_citation(&store).ok().unwrap();
    match named.check_journal(&mut store, &Vec::new()) {
        Err(JournalError::Journal(back, name)) => {
            assert_eq!(name, "Journal of Nowhere");
            assert_eq!(back.entry().citation, "ehrhart2016");
        }
        _ => panic!("expected an unresolved journal"),
    }
    assert!(store.journals.is_empty());
}

#[test]
fn delete_removes_the_entry_and_its_links() {
    let mut store = Store::new();
    let mut e = entry("casagrande1994", 1994, vec![person("casagrande", "vivien")], &["review"]);
    e.journal = Some("Cerebral Cortex".to_owned());
    e.files = vec![("casagrande1994".to_owned(), "pdf".to_owned())];
    insert(&mut store, e);
    assert_eq!(store.get_files("casagrande1994").unwrap().len(), 1);
    store.add_file("casagrande1994", "casagrande1994".to_owned(), "comment".to_owned()).unwrap();
    assert_eq!(store.get_files("casagrande1994").unwrap().len(), 2);
    store.delete("casagrande1994").unwrap();
    assert_eq!(store.get_item("casagrande1994").err(), Some(DbError::NotFound));
    assert!(store.search(&words(&["casagrande"]), &Vec::new()).unwrap().is_empty());
    assert!(store.search(&Vec::new(), &words(&["review"])).unwrap().is_empty());
    assert_eq!(store.get_files("casagrande1994").err(), Some(DbError::NotFound));
    assert_eq!(store.delete("casagrande1994"), Err(DbError::NotFound));
    assert_eq!(store.persons.len(), 1);
    assert_eq!(store.journals.len(), 1);
}

#[test]
fn duplicate_write_is_refused() {
    let mut store = Store::new();
    let e = entry("li2013", 2013, vec![], &[]);
    store.add_item(&e, None).unwrap();
    assert_eq!(store.add_item(&e, None), Err(DbError::Duplicate));
    assert_eq!(store.items.len(), 1);
}

#[test]
fn merge_keeps_existing_values() {
    let mut mine = entry("sholl1953", 1953, vec![], &["cat"]);
    mine.volume = Some(87);
    mine.extra_fields = vec![("note".to_owned(), "mine".to_owned())];
    let mut other = entry("other", 1900, vec![person("sholl", "d. a.")], &["dog"]);
    other.volume = Some(1);
    other.number = Some(4);
    other.extra_fields = vec![("note".to_owned(), "theirs".to_owned()), ("publisher".to_owned(), "press".to_owned())];
    mine.update(&other);
    assert_eq!(mine.citation, "sholl1953");
    assert_eq!(mine.year, 1953);
    assert_eq!(mine.volume, Some(87));
    assert_eq!(mine.number, Some(4));
    assert_eq!(mine.authors.len(), 1);
    assert_eq!(mine.keywords, words(&["cat"]));
    assert_eq!(
        mine.extra_fields,
        vec![("note".to_owned(), "mine".to_owned()), ("publisher".to_owned(), "press".to_owned())]
    );
}

fn casagrande_library() -> Store {
    let mut store = Store::new();
    let mut e = Entry::new("casagrande1994".to_owned(), EntryType::Article);
    e.title = "the afferent, intrinsic, and efferent connections of primary visual cortex in primates".to_owned();
    e.year = 1994;
    e.volume = Some(10);
    e.number = Some(8);
    e.pages = Some("201-259".to_owned());
    e.journal = Some("Cerebral Cortex".to_owned());
    e.authors = vec![Person::load("Casagrande, Vivien A.")];
    insert(&mut store, e);
    store
}

#[test]
fn test_output_bib() {
    let store = casagrande_library();
    let res = output_bib(&store, "casagrande1994").unwrap();
    assert_eq!(
        res.split('\n').map(|x| x.trim()).collect::<Vec<&str>>().join(""),
        "@article{casagrande1994,\
        year = {1994},\
        volume = {10},\
        number = {8},\
        pages = {201-259},\
        journal = {Cerebral Cortex},\
        author = {Casagrande, Vivien A.}\
        }"
    );
    assert_eq!(output_bib(&store, "nobody1900"), Err(DbError::NotFound));
}

#[test]
fn test_output_str() {
    let store = casagrande_library();
    let res = output_str(&store, "casagrande1994").unwrap();
    assert_eq!(
        res,
        "Vivien A. Casagrande. (1994).The Afferent, Intrinsic, And Efferent Connections Of Primary Visual Cortex In Primates. Cerebral Cortex"
    );
    assert_eq!(output_str(&store, "nobody1900"), Err(DbError::NotFound));
}

#[test]
fn commit_fails_only_when_person_ids_run_out() {
    let mut store = Store::new();
    store.next_person_id = i32::MAX - 1;
    let e = entry("full2020", 2020, vec![person("full", "x")], &[]);
    assert_eq!(store.add_item(&e, None), Err(DbError::Capacity));
    assert!(store.items.is_empty());
    assert!(store.persons.is_empty());
    let bare = entry("bare2020", 2020, vec![], &[]);
    assert_eq!(store.add_item(&bare, None), Ok(()));
    assert_eq!(store.items.len(), 1);
    store.next_person_id = i32::MAX;
    assert_eq!(store.add_person(&person("late", "y")), Err(DbError::Capacity));
    store.next_journal_id = i32::MAX;
    assert_eq!(store.add_journal(&journal("Late", "L", "L")), Err(DbError::Capacity));
    assert!(store.journals.is_empty());
}

#[test]
fn unknown_journal_id_is_refused() {
    let mut store = Store::new();
    let e = entry("lost2001", 2001, vec![person("lost", "z")], &[]);
    assert_eq!(store.add_item(&e, Some(99)), Err(DbError::UnknownJournal));
    assert!(store.items.is_empty());
    assert!(store.persons.is_empty());
}

#[test]
fn stored_entry_carries_the_canonical_journal_name() {
    let mut store = Store::new();
    store.add_journal(&journal("Cerebral Cortex", "Cereb. Cortex", "Cereb Cortex")).unwrap();
    let mut e = entry("casagrande1994", 1994, vec![person("casagrande", "vivien")], &[]);
    e.journal = Some("Cereb. Cortex".to_owned());
    insert(&mut store, e);
    let got = store.get_item("casagrande1994").unwrap();
    assert_eq!(got.journal, Some("Cerebral Cortex".to_owned()));
    assert_eq!(store.items[0].journal_id, store.journals[0].id);
    assert_eq!(store.journal_name(store.journals[0].id.unwrap()), Some("Cerebral Cortex".to_owned()));
    assert!(store.is_wf());
}

#[test]
fn catalog_pick_already_stored_is_not_stored_again() {
    let mut store = Store::new();
    let id = store.add_journal(&journal("Nature Neuroscience", "Nat. Neurosci.", "Nat Neurosci")).unwrap();
    let mut e = entry("kerr2012", 2012, vec![person("kerr", "jason")], &[]);
    e.journal = Some("nature neuroscience".to_owned());
    let catalog = vec![journal("Nature Neuroscience", "Nat. Neurosci.", "Nat Neurosci")];
    let named = InsertionStart::new(e).check_citation(&store).ok().unwrap();
    let j = named.check_journal(&mut store, &catalog).ok().unwrap();
    assert_eq!(j.journal_id(), Some(id));
    assert_eq!(store.journals.len(), 1);
}

#[test]
fn first_matching_journal_is_returned() {
    let mut store = Store::new();
    let a = store.add_journal(&journal("Brain", "Brain", "Brain")).unwrap();
    store.add_journal(&journal("Brain Research", "Brain", "Brain Res")).unwrap();
    assert_eq!(store.query_journal("Brain"), Some(a));
    assert_eq!(store.query_journal("Brain"), Some(a));
}

#[test]
fn update_keeps_the_item_count_and_replaces_files() {
    let mut store = Store::new();
    let mut first = entry("li2013", 2013, vec![person("li", "ye")], &["old"]);
    first.files = vec![("li2013".to_owned(), "pdf".to_owned())];
    insert(&mut store, first);
    insert(&mut store, entry("other2000", 2000, vec![], &[]));
    let second = entry("li2013", 2014, vec![person("li", "ye")], &["new"]);
    let named = match InsertionStart::new(second).check_citation(&store) {
        Err(CitationError::Citation(back, _)) => back.update(),
        Ok(_) => panic!("expected a conflict"),
    };
    let p = named.check_journal(&mut store, &Vec::new()).ok().unwrap().check_people(&store).ok().unwrap();
    p.insert(&mut store).unwrap();
    assert_eq!(store.items.len(), 2);
    let got = store.get_item("li2013").unwrap();
    assert_eq!(got.year, 2014);
    assert_eq!(got.keywords, words(&["new"]));
    assert!(store.get_files("li2013").unwrap().is_empty());
    assert_eq!(store.persons.len(), 1);
}
