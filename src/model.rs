use vstd::prelude::*;

use crate::keywords::distinct;
use crate::text::str_eq;

verus! {

/// The closed set of bibliographic entry kinds.
#[derive(Debug, Clone, Copy, PartialEq, Eq, Structural)]
pub enum EntryType {
    Article,
    Book,
    Booklet,
    Inbook,
    Incollection,
    Inproceedings,
    Manual,
    Masterthesis,
    Misc,
    Phdthesis,
    Proceedings,
    Techreport,
    Unpublished,
}

/// The kind that a type name stands for; an unknown name stands for `Misc`.
pub open spec fn parse_spec(s: Seq<char>) -> EntryType {
    if s == "article"@ {
        EntryType::Article
    } else if s == "book"@ {
        EntryType::Book
    } else if s == "booklet"@ {
        EntryType::Booklet
    } else if s == "inbook"@ {
        EntryType::Inbook
    } else if s == "incollection"@ {
        EntryType::Incollection
    } else if s == "inproceedings"@ {
        EntryType::Inproceedings
    } else if s == "manual"@ {
        EntryType::Manual
    } else if s == "masterthesis"@ {
        EntryType::Masterthesis
    } else if s == "phdthesis"@ {
        EntryType::Phdthesis
    } else if s == "proceedings"@ {
        EntryType::Proceedings
    } else if s == "techreport"@ {
        EntryType::Techreport
    } else if s == "unpublished"@ {
        EntryType::Unpublished
    } else {
        EntryType::Misc
    }
}

/// The lower-case name under which a kind is written.
pub open spec fn kind_name(t: EntryType) -> Seq<char> {
    match t {
        EntryType::Article => "article"@,
        EntryType::Book => "book"@,
        EntryType::Booklet => "booklet"@,
        EntryType::Inbook => "inbook"@,
        EntryType::Incollection => "incollection"@,
        EntryType::Inproceedings => "inproceedings"@,
        EntryType::Manual => "manual"@,
        EntryType::Masterthesis => "masterthesis"@,
        EntryType::Misc => "misc"@,
        EntryType::Phdthesis => "phdthesis"@,
        EntryType::Proceedings => "proceedings"@,
        EntryType::Techreport => "techreport"@,
        EntryType::Unpublished => "unpublished"@,
    }
}

impl EntryType {
    pub fn parse(input: &str) -> (r: EntryType)
        ensures
            r == parse_spec(input@),
    {
        if str_eq(input, "article") {
            EntryType::Article
        } else if str_eq(input, "book") {
            EntryType::Book
        } else if str_eq(input, "booklet") {
            EntryType::Booklet
        } else if str_eq(input, "inbook") {
            EntryType::Inbook
        } else if str_eq(input, "incollection") {
            EntryType::Incollection
        } else if str_eq(input, "inproceedings") {
            EntryType::Inproceedings
        } else if str_eq(input, "manual") {
            EntryType::Manual
        } else if str_eq(input, "masterthesis") {
            EntryType::Masterthesis
        } else if str_eq(input, "phdthesis") {
            EntryType::Phdthesis
        } else if str_eq(input, "proceedings") {
            EntryType::Proceedings
        } else if str_eq(input, "techreport") {
            EntryType::Techreport
        } else if str_eq(input, "unpublished") {
            EntryType::Unpublished
        } else {
            EntryType::Misc
        }
    }

    pub fn name(&self) -> (r: &'static str)
        ensures
            r@ == kind_name(*self),
    {
        match self {
            EntryType::Article => "article",
            EntryType::Book => "book",
            EntryType::Booklet => "booklet",
            EntryType::Inbook => "inbook",
            EntryType::Incollection => "incollection",
            EntryType::Inproceedings => "inproceedings",
            EntryType::Manual => "manual",
            EntryType::Masterthesis => "masterthesis",
            EntryType::Misc => "misc",
            EntryType::Phdthesis => "phdthesis",
            EntryType::Proceedings => "proceedings",
            EntryType::Techreport => "techreport",
            EntryType::Unpublished => "unpublished",
        }
    }
}

impl Default for EntryType {
    fn default() -> (r: EntryType)
        ensures
            r == EntryType::Misc,
    {
        EntryType::Misc
    }
}

/// An author or editor. Names are stored in lower case; `search_term` is the last name with
/// accents and non-alphanumeric characters removed, the key under which people are matched.
#[derive(Debug, Clone)]
pub struct Person {
    pub id: Option<i32>,
    pub last_name: String,
    pub first_name: String,
    pub search_term: String,
}

/// Two people are the same person when both their search term and their first name agree.
pub open spec fn same_person(a: Person, b: Person) -> bool {
    a.search_term@ == b.search_term@ && a.first_name@ == b.first_name@
}

impl Person {
    pub fn duplicate(&self) -> (r: Person)
        ensures
            r == *self,
    {
        Person {
            id: self.id,
            last_name: self.last_name.clone(),
            first_name: self.first_name.clone(),
            search_term: self.search_term.clone(),
        }
    }
}

pub fn copy_people(v: &Vec<Person>) -> (r: Vec<Person>)
    ensures
        r@ == v@,
{
    let mut r: Vec<Person> = Vec::new();
    let mut i: usize = 0;
    while i < v.len()
        invariant
            i <= v.len(),
            r@ == v@.subrange(0, i as int),
        decreases v.len() - i,
    {
        r.push(v[i].duplicate());
        proof {
            assert(v@.subrange(0, i + 1) =~= v@.subrange(0, i as int).push(v@[i as int]));
        }
        i = i + 1;
    }
    proof {
        assert(v@.subrange(0, v@.len() as int) =~= v@);
    }
    r
}

pub fn copy_texts(v: &Vec<String>) -> (r: Vec<String>)
    ensures
        r@ == v@,
{
    let mut r: Vec<String> = Vec::new();
    let mut i: usize = 0;
    while i < v.len()
        invariant
            i <= v.len(),
            r@ == v@.subrange(0, i as int),
        decreases v.len() - i,
    {
        r.push(v[i].clone());
        proof {
            assert(v@.subrange(0, i + 1) =~= v@.subrange(0, i as int).push(v@[i as int]));
        }
        i = i + 1;
    }
    proof {
        assert(v@.subrange(0, v@.len() as int) =~= v@);
    }
    r
}

pub fn copy_pairs(v: &Vec<(String, String)>) -> (r: Vec<(String, String)>)
    ensures
        r@ == v@,
{
    let mut r: Vec<(String, String)> = Vec::new();
    let mut i: usize = 0;
    while i < v.len()
        invariant
            i <= v.len(),
            r@ == v@.subrange(0, i as int),
        decreases v.len() - i,
    {
        r.push((v[i].0.clone(), v[i].1.clone()));
        proof {
            assert(v@.subrange(0, i + 1) =~= v@.subrange(0, i as int).push(v@[i as int]));
        }
        i = i + 1;
    }
    proof {
        assert(v@.subrange(0, v@.len() as int) =~= v@);
    }
    r
}

/// A canonical publication venue.
#[derive(Debug, Clone)]
pub struct Journal {
    pub id: Option<i32>,
    pub name: String,
    pub abbr: String,
    pub abbr_no_dot: String,
}

impl Journal {
    pub fn duplicate(&self) -> (r: Journal)
        ensures
            r == *self,
    {
        Journal {
            id: self.id,
            name: self.name.clone(),
            abbr: self.abbr.clone(),
            abbr_no_dot: self.abbr_no_dot.clone(),
        }
    }

    /// A journal not yet stored, from its full name, abbreviation and abbreviation without
    /// dots, in that order; `None` when fewer than three strings are given.
    pub fn from_list(str_list: Vec<String>) -> (r: Option<Journal>)
        ensures
            str_list@.len() < 3 ==> r is None,
            str_list@.len() >= 3 ==> r == Some(
                Journal {
                    id: None,
                    name: str_list@[0],
                    abbr: str_list@[1],
                    abbr_no_dot: str_list@[2],
                },
            ),
    {
        if str_list.len() < 3 {
            None
        } else {
            Some(
                Journal {
                    id: None,
                    name: str_list[0].clone(),
                    abbr: str_list[1].clone(),
                    abbr_no_dot: str_list[2].clone(),
                },
            )
        }
    }
}

/// A bibliographic record. Keywords form a set (no text twice); extra fields map a field name
/// to a value (no name twice).
#[derive(Debug, Clone)]
pub struct Entry {
    pub citation: String,
    pub entry_type: EntryType,
    pub title: String,
    pub booktitle: Option<String>,
    pub year: i32,
    pub month: Option<i32>,
    pub chapter: Option<i32>,
    pub edition: Option<i32>,
    pub volume: Option<i32>,
    pub number: Option<i32>,
    pub pages: Option<String>,
    pub journal: Option<String>,
    pub authors: Vec<Person>,
    pub editors: Vec<Person>,
    pub keywords: Vec<String>,
    pub extra_fields: Vec<(String, String)>,
    pub files: Vec<(String, String)>,
}

/// The text of an optional string.
pub open spec fn text_of(v: Option<String>) -> Option<Seq<char>> {
    match v {
        Some(s) => Some(s@),
        None => None,
    }
}

/// Some field in `v` is named `k`.
pub open spec fn has_key(v: Seq<(String, String)>, k: Seq<char>) -> bool {
    exists|i: int| 0 <= i < v.len() && v[i].0@ == k
}

/// No field name occurs twice in `v`.
pub open spec fn keys_distinct(v: Seq<(String, String)>) -> bool {
    forall|i: int, j: int| 0 <= i < j < v.len() ==> v[i].0@ != v[j].0@
}

/// `existing` followed by the fields of `incoming` whose names are not there yet: existing
/// names keep their values.
pub open spec fn merged_fields(
    existing: Seq<(String, String)>,
    incoming: Seq<(String, String)>,
) -> Seq<(String, String)>
    decreases incoming.len(),
{
    if incoming.len() == 0 {
        existing
    } else {
        let prev = merged_fields(existing, incoming.drop_last());
        if has_key(prev, incoming.last().0@) {
            prev
        } else {
            prev.push(incoming.last())
        }
    }
}

/// The value kept when an existing optional field meets an incoming one: the existing one
/// when present.
pub open spec fn filled<T>(existing: Option<T>, incoming: Option<T>) -> Option<T> {
    if existing is Some {
        existing
    } else {
        incoming
    }
}

/// The list kept when an existing list of people meets an incoming one: the incoming one only
/// where the existing one is empty.
pub open spec fn filled_people(existing: Seq<Person>, incoming: Seq<Person>) -> Seq<Person> {
    if existing.len() == 0 {
        incoming
    } else {
        existing
    }
}

/// Two records hold the same data.
pub open spec fn same_entry(a: Entry, b: Entry) -> bool {
    &&& a.citation == b.citation
    &&& a.entry_type == b.entry_type
    &&& a.title == b.title
    &&& a.booktitle == b.booktitle
    &&& a.year == b.year
    &&& a.month == b.month
    &&& a.chapter == b.chapter
    &&& a.edition == b.edition
    &&& a.volume == b.volume
    &&& a.number == b.number
    &&& a.pages == b.pages
    &&& a.journal == b.journal
    &&& a.authors@ == b.authors@
    &&& a.editors@ == b.editors@
    &&& a.keywords@ == b.keywords@
    &&& a.extra_fields@ == b.extra_fields@
    &&& a.files@ == b.files@
}

impl Entry {
    pub open spec fn wf(&self) -> bool {
        distinct(self.keywords@) && keys_distinct(self.extra_fields@)
    }

    /// A record with the given key and kind and every other field empty.
    pub fn new(citation: String, entry_type: EntryType) -> (r: Entry)
        ensures
            r.citation == citation,
            r.entry_type == entry_type,
            r.title@.len() == 0,
            r.year == 0,
            r.booktitle is None && r.month is None && r.chapter is None && r.edition is None
                && r.volume is None && r.number is None && r.pages is None && r.journal is None,
            r.authors@.len() == 0 && r.editors@.len() == 0 && r.keywords@.len() == 0
                && r.extra_fields@.len() == 0 && r.files@.len() == 0,
            r.wf(),
    {
        Entry {
            citation,
            entry_type,
            title: String::new(),
            booktitle: None,
            year: 0,
            month: None,
            chapter: None,
            edition: None,
            volume: None,
            number: None,
            pages: None,
            journal: None,
            authors: Vec::new(),
            editors: Vec::new(),
            keywords: Vec::new(),
            extra_fields: Vec::new(),
            files: Vec::new(),
        }
    }

    pub fn duplicate(&self) -> (r: Entry)
        ensures
            same_entry(r, *self),
    {
        Entry {
            citation: self.citation.clone(),
            entry_type: self.entry_type,
            title: self.title.clone(),
            booktitle: copy_text_option(&self.booktitle),
            year: self.year,
            month: self.month,
            chapter: self.chapter,
            edition: self.edition,
            volume: self.volume,
            number: self.number,
            pages: copy_text_option(&self.pages),
            journal: copy_text_option(&self.journal),
            authors: copy_people(&self.authors),
            editors: copy_people(&self.editors),
            keywords: copy_texts(&self.keywords),
            extra_fields: copy_pairs(&self.extra_fields),
            files: copy_pairs(&self.files),
        }
    }

    /// Merges `other` into this record without overwriting anything: an optional field is
    /// taken from `other` only where this one is empty, the people lists only where this one is
    /// empty, and extra fields only under names that this record lacks.
    pub fn update(&mut self, other: &Entry)
        ensures
            final(self).citation == old(self).citation,
            final(self).entry_type == old(self).entry_type,
            final(self).title == old(self).title,
            final(self).year == old(self).year,
            final(self).keywords == old(self).keywords,
            final(self).files == old(self).files,
            final(self).booktitle == filled(old(self).booktitle, other.booktitle),
            final(self).month == filled(old(self).month, other.month),
            final(self).chapter == filled(old(self).chapter, other.chapter),
            final(self).edition == filled(old(self).edition, other.edition),
            final(self).volume == filled(old(self).volume, other.volume),
            final(self).number == filled(old(self).number, other.number),
            final(self).pages == filled(old(self).pages, other.pages),
            final(self).journal == filled(old(self).journal, other.journal),
            final(self).authors@ == filled_people(old(self).authors@, other.authors@),
            final(self).editors@ == filled_people(old(self).editors@, other.editors@),
            final(self).extra_fields@ == merged_fields(
                old(self).extra_fields@,
                other.extra_fields@,
            ),
            old(self).wf() ==> final(self).wf(),
    {
        update_option_text(&mut self.booktitle, &other.booktitle);
        update_option(&mut self.month, &other.month);
        update_option(&mut self.chapter, &other.chapter);
        update_option(&mut self.edition, &other.edition);
        update_option(&mut self.volume, &other.volume);
        update_option(&mut self.number, &other.number);
        update_option_text(&mut self.pages, &other.pages);
        update_option_text(&mut self.journal, &other.journal);
        if self.authors.len() == 0 {
            self.authors = copy_people(&other.authors);
        }
        if self.editors.len() == 0 {
            self.editors = copy_people(&other.editors);
        }
        self.extra_fields = merge_fields(&self.extra_fields, &other.extra_fields);
    }
}

pub fn copy_text_option(o: &Option<String>) -> (r: Option<String>)
    ensures
        r == *o,
{
    match o {
        Some(s) => Some(s.clone()),
        None => None,
    }
}

fn update_option(this: &mut Option<i32>, that: &Option<i32>)
    ensures
        *final(this) == filled(*old(this), *that),
{
    if this.is_none() && that.is_some() {
        *this = *that;
    }
}

fn update_option_text(this: &mut Option<String>, that: &Option<String>)
    ensures
        *final(this) == filled(*old(this), *that),
{
    if this.is_none() {
        *this = copy_text_option(that);
    }
}

/// Whether some field of `v` is named `k`.
pub fn has_field(v: &Vec<(String, String)>, k: &String) -> (r: bool)
    ensures
        r == has_key(v@, k@),
{
    let mut i: usize = 0;
    while i < v.len()
        invariant
            i <= v.len(),
            forall|j: int| 0 <= j < i ==> v@[j].0@ != k@,
        decreases v.len() - i,
    {
        if v[i].0 == *k {
            return true;
        }
        i = i + 1;
    }
    false
}

/// The extra fields of `existing` together with those of `incoming` under new names.
pub fn merge_fields(existing: &Vec<(String, String)>, incoming: &Vec<(String, String)>) -> (r: Vec<
    (String, String),
>)
    ensures
        r@ == merged_fields(existing@, incoming@),
        keys_distinct(existing@) ==> keys_distinct(r@),
{
    let mut r = copy_pairs(existing);
    let mut i: usize = 0;
    while i < incoming.len()
        invariant
            i <= incoming.len(),
            r@ == merged_fields(existing@, incoming@.subrange(0, i as int)),
            keys_distinct(existing@) ==> keys_distinct(r@),
        decreases incoming.len() - i,
    {
        let ghost prev = r@;
        proof {
            let s = incoming@.subrange(0, i + 1);
            assert(s.drop_last() =~= incoming@.subrange(0, i as int));
            assert(s.last() == incoming@[i as int]);
        }
        if !has_field(&r, &incoming[i].0) {
            r.push((incoming[i].0.clone(), incoming[i].1.clone()));
            proof {
                assert(r@ == prev.push(incoming@[i as int]));
                if keys_distinct(existing@) {
                    assert forall|x: int, y: int| 0 <= x < y < r@.len() implies r@[x].0@
                        != r@[y].0@ by {
                        if y == prev.len() && r@[x].0@ == r@[y].0@ {
                            assert(has_key(prev, incoming@[i as int].0@));
                        }
                    }
                }
            }
        }
        i = i + 1;
    }
    proof {
        assert(incoming@.subrange(0, incoming@.len() as int) =~= incoming@);
    }
    r
}

/// Whether no field name occurs twice in `v`.
pub fn fields_distinct(v: &Vec<(String, String)>) -> (r: bool)
    ensures
        r == keys_distinct(v@),
{
    let mut i: usize = 0;
    while i < v.len()
        invariant
            i <= v@.len(),
            forall|a: int, b: int| 0 <= a < b < v@.len() && a < i ==> v@[a].0@ != v@[b].0@,
        decreases v.len() - i,
    {
        let mut j: usize = i + 1;
        while j < v.len()
            invariant
                i < v@.len(),
                i + 1 <= j <= v@.len(),
                forall|a: int, b: int| 0 <= a < b < v@.len() && a < i ==> v@[a].0@ != v@[b].0@,
                forall|b: int| i < b < j ==> v@[i as int].0@ != v@[b].0@,
            decreases v.len() - j,
        {
            if v[i].0 == v[j].0 {
                return false;
            }
            j = j + 1;
        }
        i = i + 1;
    }
    true
}

impl Entry {
    /// Whether the keywords are a set and the extra field names are distinct.
    pub fn is_wf(&self) -> (r: bool)
        ensures
            r == self.wf(),
    {
        crate::keywords::all_distinct(&self.keywords) && fields_distinct(&self.extra_fields)
    }
}

} // verus!
