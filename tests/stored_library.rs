use std::collections::HashSet;

use bibrs::formatter::ToString;
use bibrs::model::{Entry, EntryType, Journal, Person};
use bibrs::query::multi_param;
use bibrs::store::{Item, Store};

fn person(id: i32, last: &str, first: &str) -> Person {
    Person { id: Some(id), last_name: last.to_owned(), first_name: first.to_owned(), search_term: last.to_owned() }
}

fn words(v: &[&str]) -> Vec<String> {
    v.iter().map(|x| (*x).to_owned()).collect()
}

/// A small library with the records that the lookups below rely on.
fn library() -> Store {
    let stein = person(1, "stein", "barry e.");
    let stanford = person(2, "stanford", "terrence r.");
    let wallace = person(3, "wallace", "mark t.");
    let vaughan = person(4, "vaughan", "j. william");
    let calvert = person(1878, "calvert", "gemma");
    let rosa = person(690, "rosa", "marcello g. p.");
    let casagrande = person(691, "casagrande", "vivien a.");
    let sholl = person(5, "sholl", "d. a.");
    let walker = person(6, "walker", "a. earl");

    let mut s2004 = Entry::new("stein2004".to_owned(), EntryType::Incollection);
    s2004.title = "crossmodal spatial interactions in subcortical and cortical circuits".to_owned();
    s2004.year = 2004;
    s2004.authors = vec![stein.clone(), stanford.clone(), wallace.clone(), vaughan.clone()];
    s2004.editors = vec![calvert.clone()];
    s2004.keywords = words(&["multisensory", "superior colliculus"]);

    let mut sholl1953 = Entry::new("sholl1953".to_owned(), EntryType::Article);
    sholl1953.year = 1953;
    sholl1953.authors = vec![sholl.clone()];
    sholl1953.keywords = words(&["cat", "morphology"]);

    let mut walker1938 = Entry::new("walker1938".to_owned(), EntryType::Book);
    walker1938.year = 1938;
    walker1938.authors = vec![walker.clone()];
    walker1938.extra_fields = vec![
        ("note".to_owned(), "pulvinar structure at 48-56, connection at 187-190".to_owned()),
        ("publisher".to_owned(), "University of Chicago press".to_owned()),
    ];

    let mut rosa1999 = Entry::new("rosa1999".to_owned(), EntryType::Article);
    rosa1999.year = 1999;
    rosa1999.authors = vec![rosa.clone(), casagrande.clone()];
    rosa1999.journal = Some("Journal of Clinical Neurophysiology".to_owned());

    let mut casagrande1994 = Entry::new("casagrande1994".to_owned(), EntryType::Article);
    casagrande1994.year = 1994;
    casagrande1994.authors = vec![casagrande.clone()];
    casagrande1994.keywords = words(&["visual cortex", "intrinsic"]);

    let store = Store {
        items: vec![
            Item { entry: s2004, journal_id: None },
            Item { entry: sholl1953, journal_id: None },
            Item { entry: walker1938, journal_id: None },
            Item { entry: rosa1999, journal_id: Some(1) },
            Item { entry: casagrande1994, journal_id: None },
        ],
        persons: vec![stein, stanford, wallace, vaughan, calvert, rosa, casagrande, sholl, walker],
        journals: vec![Journal {
            id: Some(1),
            name: "Journal of Clinical Neurophysiology".to_owned(),
            abbr: "J. Clin. Neurophysiol.".to_owned(),
            abbr_no_dot: "J Clin Neurophysiol".to_owned(),
        }],
        next_person_id: 1879,
        next_journal_id: 2,
    };
    assert!(store.is_wf());
    store
}

#[test]
fn database_test_get() {
    assert_eq!(multi_param(3), "?, ?, ?");
    let conn = library();
    let entry = conn.get_item("stein2004").unwrap();
    let (authors, editors) = (entry.authors.clone(), entry.editors.clone());
    assert_eq!(editors[0].id.unwrap(), 1878);
    assert_eq!(authors[3].last_name, "vaughan");
    assert_eq!(authors[2].search_term, "wallace");
    let keywords = conn.get_item("sholl1953").unwrap().keywords;
    assert_eq!(keywords, words(&["cat", "morphology"]));
    let fields = conn.get_item("walker1938").unwrap().extra_fields;
    assert_eq!(
        fields,
        vec![
            ("note".to_owned(), "pulvinar structure at 48-56, connection at 187-190".to_owned()),
            ("publisher".to_owned(), "University of Chicago press".to_owned())
        ]
    );
    assert_eq!(entry.citation, "stein2004");
    assert_eq!(entry.entry_type, EntryType::Incollection);
    assert_eq!(entry.authors[1].last_name, "stanford");
    assert!(entry.keywords.contains(&"multisensory".to_owned()));
    let entries = conn.search(&words(&["casagrande", "rosa"]), &Vec::new()).expect("search fail at the db level!");
    let entry = &entries[0];
    println!("entry: {}", entry.to_str());
    assert_eq!(entry.authors[0].id, Some(690));
    assert_eq!(entry.authors[1].last_name, "casagrande");
    assert_eq!(entry.journal, Some("Journal of Clinical Neurophysiology".to_owned()));
}

#[test]
fn mod_test_get() {
    assert_eq!(multi_param(3), "?, ?, ?");
    let conn = library();
    let entry = conn.get_item("stein2004").unwrap();
    assert_eq!(entry.editors[0].id.unwrap(), 1878);
    assert_eq!(entry.authors[3].last_name, "vaughan");
    assert_eq!(entry.authors[2].search_term, "wallace");
    assert_eq!(conn.get_item("sholl1953").unwrap().keywords, vec!["cat".to_owned(), "morphology".to_owned()]);
    assert_eq!(entry.citation, "stein2004");
    assert_eq!(entry.entry_type, EntryType::Incollection);
    assert_eq!(entry.authors[1].last_name, "stanford");
    assert_eq!(entry.keywords[0], "multisensory");
    let entries = conn.search(&vec!["casagrande".to_owned(), "rosa".to_owned()], &Vec::<String>::new()).unwrap();
    let entry = &entries[0];
    assert_eq!(entry.authors[0].id, Some(690));
    assert_eq!(entry.authors[1].last_name, "casagrande");
    assert_eq!(entry.journal, Some("Journal of Clinical Neurophysiology".to_owned()));
}

#[test]
fn database_test_keywords() {
    let mut conn = library();
    conn.keywords("walker1938", &words(&["pulvinar", "thalamus", "macaque", "atlas", "bullshit"]), &Vec::new())
        .expect("can't add keywrods");
    conn.keywords("walker1938", &Vec::new(), &words(&["bullshit", "atlas", "review"])).expect("can't delete keywords");
    let entry = conn.get_item("walker1938").unwrap();
    let keywords: HashSet<String> = entry.keywords.iter().cloned().collect();
    assert_eq!(keywords, ["macaque", "pulvinar", "thalamus"].iter().map(|x| x.to_string()).collect::<HashSet<String>>());
    conn.keywords("walker1938", &Vec::new(), &words(&["pulvinar", "thalamus", "macaque"]))
        .expect("can't delete additional keywords");
    let entry = conn.get_item("walker1938").unwrap();
    println!("Leftover keywords include: {}", entry.keywords.join(", "));
}

#[test]
fn keywords_test_keywords() {
    let mut conn = library();
    let res = conn.keywords("casagrande1994", &words(&["circuit", "computation"]), &words(&["visual cortex", "intrinsic"]));
    let _ = res.unwrap().1;
    let res = conn.keywords("casagrande1994", &words(&["visual cortex", "intrinsic"]), &words(&["circuit", "computation"]));
    let _ = res.unwrap().1;
}
