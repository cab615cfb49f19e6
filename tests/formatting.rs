use bibrs::formatter::{people_to_plain_bib, people_to_plain_str, BibPrint, ToString, ToTitleCase, TrimStr};
use bibrs::model::{Entry, EntryType, Person};
use bibrs::text::{int_text, strip_accent};

fn person(search_term: &str, last_name: &str, first_name: &str) -> Person {
    Person {
        id: None,
        search_term: search_term.to_owned(),
        last_name: last_name.to_owned(),
        first_name: first_name.to_owned(),
    }
}

fn sample_people() -> Vec<Person> {
    vec![
        person("abcd", "âbcd", "ėfgh"),
        person("bbcd", "bcdê", "ėfgh"),
        person("bbc3", "b3dê", "ėfgh"),
    ]
}

#[test]
fn test_person() {
    let persons = sample_people();
    assert_eq!("ėfgh âbcd, ėfgh Bcdê & ėfgh B3dê", persons.to_str());
    assert_eq!("âbcd, ėfgh and Bcdê, ėfgh and B3dê, ėfgh", persons.to_bib());
}

#[test]
fn test_display() {
    let persons = sample_people();
    assert_eq!("ėfgh âbcd, ėfgh bcdê & ėfgh b3dê", people_to_plain_str(&persons));
    assert_eq!("âbcd, ėfgh and bcdê, ėfgh and b3dê, ėfgh", people_to_plain_bib(&persons));
}

#[test]
fn test_titlecase() {
    let temp_str = "this iS crazy YEAH. {NoT}, {yeAs}".to_owned();
    assert_eq!(temp_str.to_title(), "This Is Crazy Yeah. {NoT}, {yeAs}")
}

#[test]
fn test_strip_accent() {
    let a = "βaèâbcd";
    assert_eq!(strip_accent(a), "aeabcd");
    let b = "bcdefg";
    assert_eq!(strip_accent(b), "bcdefg");
}

#[test]
fn people_lists_of_one_and_none() {
    let one = vec![person("einstein", "einstein", "albert")];
    assert_eq!(one.to_str(), "Albert Einstein");
    assert_eq!(one.to_bib(), "Einstein, Albert");
    let none: Vec<Person> = Vec::new();
    assert_eq!(none.to_str(), "");
    assert_eq!(none.to_bib(), "");
    let two = vec![person("a", "a", "x"), person("b", "b", "y")];
    assert_eq!(two.to_str(), "X A & Y B");
}

#[test]
fn decimal_text_of_years() {
    assert_eq!(int_text(1905), "1905");
    assert_eq!(int_text(0), "0");
    assert_eq!(int_text(-44), "-44");
    assert_eq!(int_text(i32::MIN), "-2147483648");
    assert_eq!(1994i32.to_bib(), "1994");
}

#[test]
fn trailing_space_is_trimmed() {
    assert_eq!("abc  \t".to_owned().trim_str(), "abc");
    assert_eq!("  abc".to_owned().trim_str(), "  abc");
}

fn einstein() -> Entry {
    let mut e = Entry::new("einstein".to_owned(), EntryType::Article);
    e.title = "on the electrodynamics of moving bodies".to_owned();
    e.year = 1905;
    e.volume = Some(322);
    e.number = Some(10);
    e.pages = Some("891-921".to_owned());
    e.journal = Some("Annalen der Physik".to_owned());
    e.authors = vec![person("einstein", "einstein", "albert")];
    e
}

#[test]
fn entry_as_bibtex() {
    let correct_bib = [
        "@article{einstein,",
        "\n\tyear = {1905},",
        "\n\tvolume = {322},",
        "\n\tnumber = {10},",
        "\n\tpages = {891-921},",
        "\n\tjournal = {Annalen der Physik},",
        "\n\tauthor = {Einstein, Albert}\n}",
    ]
    .concat();
    assert_eq!(einstein().to_bib(), correct_bib);
}

#[test]
fn entry_as_bibtex_with_keywords_and_fields() {
    let mut e = einstein();
    e.keywords = vec!["physics".to_owned(), "relativity".to_owned()];
    e.extra_fields = vec![("note".to_owned(), "classic".to_owned())];
    e.editors = vec![person("planck", "planck", "max")];
    let bib = e.to_bib();
    assert!(bib.ends_with(
        ",\n\teditor = {Planck, Max},\n\tauthor = {Einstein, Albert},\n\tkeyword = {physics, relativity},\n\tnote = {classic}\n}"
    ));
}

#[test]
fn entry_as_text() {
    assert_eq!(
        einstein().to_str(),
        "Albert Einstein. (1905).On The Electrodynamics Of Moving Bodies. Annalen der Physik"
    );
    let mut book = Entry::new("knuth1984".to_owned(), EntryType::Book);
    book.title = "the texbook".to_owned();
    book.year = 1984;
    book.booktitle = Some("Computers and Typesetting".to_owned());
    book.editors = vec![person("knuth", "knuth", "donald")];
    assert_eq!(book.to_str(), "Donald Knuth. (1984).The Texbook. Computers and Typesetting");
}

#[test]
fn entry_as_comment() {
    assert_eq!(
        einstein().to_comment(),
        "% On The Electrodynamics Of Moving Bodies\n% Einstein, Albert\n% 1905"
    );
}

#[test]
fn citation_from_author_or_title() {
    assert_eq!(einstein().generate_citation(), Some("einstein1905".to_owned()));
    let mut e = Entry::new(String::new(), EntryType::Misc);
    e.title = "  Gravitation and spacetime".to_owned();
    e.year = 1916;
    assert_eq!(e.generate_citation(), Some("Gravitation1916".to_owned()));
    let mut blank = Entry::new(String::new(), EntryType::Misc);
    blank.title = "   ".to_owned();
    assert_eq!(blank.generate_citation(), None);
}

#[test]
fn entry_types_by_name() {
    assert_eq!(EntryType::parse("incollection"), EntryType::Incollection);
    assert_eq!(EntryType::parse("phdthesis"), EntryType::Phdthesis);
    assert_eq!(EntryType::parse("weird"), EntryType::Misc);
    assert_eq!(EntryType::Techreport.name(), "techreport");
    assert_eq!(EntryType::default(), EntryType::Misc);
}
