use std::collections::HashSet;

use bibrs::config::{file_kind, temp_kind, FileError, FileKind};
use bibrs::model::{Journal, Person};
use bibrs::reader::{comma_separate_args, load_keywords, load_people};
use bibrs::text::parse_i32;
use bibrs::ui::{CitationInputs, Controls, JournalInputs, MsgType, SimpleInputs, UI};

#[test]
fn test_util() {
    let input: Vec<String> = ["this", "good,that", "bad,this", "good"].iter().map(|x| (*x).to_owned()).collect();
    let res: HashSet<String> = comma_separate_args(&input).into_iter().collect();
    assert_eq!(res, ["this good", "that bad"].iter().map(|x| (*x).to_owned()).collect::<HashSet<String>>());
    let res2: Vec<String> = comma_separate_args(&input);
    assert_eq!(res2, ["this good", "that bad", "this good"].iter().map(|x| (*x).to_owned()).collect::<Vec<String>>());
    let res3: Vec<String> = comma_separate_args(&vec![]);
    assert_eq!(res3.len(), 0);
    let res4: HashSet<String> = comma_separate_args(&vec![]).into_iter().collect();
    assert_eq!(res4.len(), 0);
}

#[test]
fn arguments_are_trimmed_and_lowered() {
    let input = vec!["  Visual Cortex ,".to_owned(), "V1".to_owned()];
    assert_eq!(comma_separate_args(&input), vec!["visual cortex".to_owned(), "v1".to_owned()]);
}

#[test]
fn person_from_comma_form() {
    let p = Person::load("Casagrande, Vivien A.");
    assert_eq!(p.last_name, "casagrande");
    assert_eq!(p.first_name, "vivien a.");
    assert_eq!(p.search_term, "casagrande");
    assert_eq!(p.id, None);
}

#[test]
fn person_from_space_form() {
    let p = Person::load("Albert Einstein");
    assert_eq!(p.last_name, "einstein");
    assert_eq!(p.first_name, "albert");
    let q = Person::load("Jean-Paul Émile Côté");
    assert_eq!(q.last_name, "côté");
    assert_eq!(q.first_name, "jean-paul émile");
    assert_eq!(q.search_term, "cote");
}

#[test]
fn person_from_single_word() {
    let p = Person::load("Plato");
    assert_eq!(p.last_name, "plato");
    assert_eq!(p.first_name, "");
}

#[test]
fn people_list() {
    let people = load_people("Michel Goossens and Mittelbach, Frank and Alexander Samarin");
    let last: Vec<&str> = people.iter().map(|p| p.last_name.as_str()).collect();
    assert_eq!(last, vec!["goossens", "mittelbach", "samarin"]);
    assert_eq!(people[1].first_name, "frank");
}

#[test]
fn keyword_list_is_a_set() {
    let k = load_keywords("cat, morphology, cat");
    assert_eq!(k, vec!["cat".to_owned(), "morphology".to_owned()]);
}

#[test]
fn journal_from_three_names() {
    let j = Journal::from_list(vec!["Cerebral Cortex".to_owned(), "Cereb. Cortex".to_owned(), "Cereb Cortex".to_owned()]).unwrap();
    assert_eq!(j.name, "Cerebral Cortex");
    assert_eq!(j.abbr_no_dot, "Cereb Cortex");
    assert!(j.id.is_none());
    assert!(Journal::from_list(vec!["Cerebral Cortex".to_owned()]).is_none());
}

#[test]
fn responses_are_read() {
    assert_eq!(SimpleInputs::parse("a"), Some(SimpleInputs::Abort));
    assert_eq!(SimpleInputs::parse("c"), Some(SimpleInputs::Continue));
    assert_eq!(SimpleInputs::parse("x"), None);
    assert!(matches!(CitationInputs::parse("u".to_owned()), CitationInputs::Update));
    assert!(matches!(CitationInputs::parse("a".to_owned()), CitationInputs::Abort));
    match CitationInputs::parse("casagrande1994b".to_owned()) {
        CitationInputs::Changed(s) => assert_eq!(s, "casagrande1994b"),
        _ => panic!("expected a new citation"),
    }
    match JournalInputs::parse("Cerebral Cortex, Cereb. Cortex , Cereb Cortex") {
        Some(JournalInputs::Update((a, b, c))) => {
            assert_eq!(a, "Cerebral Cortex");
            assert_eq!(b, "Cereb. Cortex");
            assert_eq!(c, "Cereb Cortex");
        }
        _ => panic!("expected three names"),
    }
    assert!(matches!(JournalInputs::parse("a"), Some(JournalInputs::Abort)));
    assert!(JournalInputs::parse("only, two").is_none());
}

#[test]
fn controls_and_labels() {
    let c = CitationInputs::controls();
    assert_eq!(c.len(), 3);
    assert_eq!(c[1], (Some(0), "update entry".to_owned()));
    assert!(matches!(JournalInputs::abort(), JournalInputs::Abort));
    assert_eq!(SimpleInputs::abort(), SimpleInputs::Abort);
    assert_eq!(MsgType::Missing.label(), "not found");
    assert_eq!(UI::new(MsgType::Conflict).msg_type, MsgType::Conflict);
}

#[test]
fn file_types() {
    assert_eq!(file_kind("pdf"), Ok(FileKind::Pdf));
    assert_eq!(file_kind("comment"), Ok(FileKind::Comment));
    assert_eq!(file_kind("temp_bib"), Err(FileError::UseTemp));
    assert_eq!(file_kind("doc"), Err(FileError::WrongType));
    assert_eq!(temp_kind("bib"), Ok(FileKind::TempBib));
    assert_eq!(temp_kind("temp_pdf"), Ok(FileKind::TempPdf));
    assert_eq!(temp_kind("pdf"), Err(FileError::NotTemp));
    assert_eq!(temp_kind("doc"), Err(FileError::WrongType));
}

fn tags(v: &[(&str, &str)]) -> Vec<(String, String)> {
    v.iter().map(|(k, x)| ((*k).to_owned(), (*x).to_owned())).collect()
}

#[test]
fn entry_from_bibtex_tags() {
    let t = tags(&[
        ("author", "Albert Einstein"),
        ("title", "Zur Elektrodynamik bewegter K{\\\"o}rper"),
        ("journal", "Annalen der Physik"),
        ("year", "1905"),
        ("volume", "322"),
        ("number", "10"),
        ("pages", "891-921"),
        ("keywords", "physics, relativity, physics"),
        ("address", "Leipzig"),
        ("url", "ignored"),
    ]);
    let e = bibrs::model::Entry::from_fields("Einstein-é", "article", &t).unwrap();
    assert_eq!(e.citation, "einsteine");
    assert_eq!(e.entry_type, bibrs::model::EntryType::Article);
    assert_eq!(e.authors[0].last_name, "einstein");
    assert_eq!(e.authors[0].first_name, "albert");
    assert_eq!(e.year, 1905);
    assert_eq!(e.volume, Some(322));
    assert_eq!(e.number, Some(10));
    assert_eq!(e.month, None);
    assert_eq!(e.journal, Some("Annalen der Physik".to_owned()));
    assert_eq!(e.pages, Some("891-921".to_owned()));
    assert_eq!(e.keywords, vec!["physics".to_owned(), "relativity".to_owned()]);
    assert_eq!(e.extra_fields, vec![("address".to_owned(), "Leipzig".to_owned())]);
}

#[test]
fn entry_with_bad_year_is_refused() {
    let t = tags(&[("title", "x"), ("year", "19o5")]);
    assert_eq!(bibrs::model::Entry::from_fields("x", "misc", &t).err(), Some("year".to_owned()));
}

#[test]
fn integers_are_parsed_like_std() {
    assert_eq!(parse_i32("1905"), Some(1905));
    assert_eq!(parse_i32("+7"), Some(7));
    assert_eq!(parse_i32("-2147483648"), Some(i32::MIN));
    assert_eq!(parse_i32("2147483647"), Some(i32::MAX));
    assert_eq!(parse_i32("2147483648"), None);
    assert_eq!(parse_i32("99999999999999999999"), None);
    assert_eq!(parse_i32(""), None);
    assert_eq!(parse_i32("-"), None);
    assert_eq!(parse_i32("12a"), None);
    for s in ["0", "-0", "+0", "42", "-17", "007"] {
        assert_eq!(parse_i32(s), s.parse::<i32>().ok());
    }
}
