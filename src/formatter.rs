use vstd::prelude::*;
use vstd::string::*;

use crate::model::{kind_name, Entry, Person};
use crate::text::{decimal, int_text, title_case, to_title, trim_str, trim_end_of};

verus! {

/// A name as printed: in title case, or as stored.
pub open spec fn styled(s: Seq<char>, titled: bool) -> Seq<char> {
    if titled {
        title_case(s)
    } else {
        s
    }
}

/// "First Last" for reading, or "Last, First" for bibtex.
pub open spec fn person_text_of(p: Person, bib: bool, titled: bool) -> Seq<char> {
    if bib {
        styled(p.last_name@, titled) + ", "@ + styled(p.first_name@, titled)
    } else {
        styled(p.first_name@, titled) + " "@ + styled(p.last_name@, titled)
    }
}

/// The people of `v`, each printed as `person_text_of`, with `sep` between two of them.
pub open spec fn joined_people(v: Seq<Person>, sep: Seq<char>, bib: bool, titled: bool) -> Seq<
    char,
>
    decreases v.len(),
{
    if v.len() == 0 {
        Seq::<char>::empty()
    } else if v.len() == 1 {
        person_text_of(v[0], bib, titled)
    } else {
        joined_people(v.drop_last(), sep, bib, titled) + sep + person_text_of(
            v.last(),
            bib,
            titled,
        )
    }
}

/// A list of people for reading: "A, B & C".
pub open spec fn people_str(v: Seq<Person>, titled: bool) -> Seq<char> {
    if v.len() <= 1 {
        joined_people(v, ", "@, false, titled)
    } else {
        joined_people(v.drop_last(), ", "@, false, titled) + " & "@ + person_text_of(
            v.last(),
            false,
            titled,
        )
    }
}

/// A list of people for bibtex: "A and B and C".
pub open spec fn people_bib(v: Seq<Person>, titled: bool) -> Seq<char> {
    joined_people(v, " and "@, true, titled)
}

/// Texts with `sep` between two of them.
pub open spec fn joined_texts(v: Seq<String>, sep: Seq<char>) -> Seq<char>
    decreases v.len(),
{
    if v.len() == 0 {
        Seq::<char>::empty()
    } else if v.len() == 1 {
        v[0]@
    } else {
        joined_texts(v.drop_last(), sep) + sep + v.last()@
    }
}

fn styled_text(s: &String, titled: bool) -> (r: String)
    ensures
        r@ == styled(s@, titled),
{
    if titled {
        to_title(s.as_str())
    } else {
        s.clone()
    }
}

/// One person, printed "First Last" (or "Last, First" with `bib`), in title case with
/// `titled`.
pub fn person_text(p: &Person, bib: bool, titled: bool) -> (r: String)
    ensures
        r@ == person_text_of(*p, bib, titled),
{
    if bib {
        let mut r = styled_text(&p.last_name, titled);
        let first = styled_text(&p.first_name, titled);
        r.append(", ");
        r.append(first.as_str());
        r
    } else {
        let mut r = styled_text(&p.first_name, titled);
        let last = styled_text(&p.last_name, titled);
        r.append(" ");
        r.append(last.as_str());
        r
    }
}

/// The first `upto` people of `v`, printed and separated by `sep`.
fn join_people(v: &Vec<Person>, upto: usize, sep: &str, bib: bool, titled: bool) -> (r: String)
    requires
        upto <= v@.len(),
    ensures
        r@ == joined_people(v@.subrange(0, upto as int), sep@, bib, titled),
{
    let mut r = String::new();
    let mut i: usize = 0;
    while i < upto
        invariant
            upto <= v@.len(),
            i <= upto,
            r@ == joined_people(v@.subrange(0, i as int), sep@, bib, titled),
        decreases upto - i,
    {
        let part = person_text(&v[i], bib, titled);
        let ghost prefix = v@.subrange(0, i + 1);
        proof {
            assert(prefix.drop_last() =~= v@.subrange(0, i as int));
        }
        if i == 0 {
            r = part;
        } else {
            r.append(sep);
            r.append(part.as_str());
        }
        i = i + 1;
    }
    r
}

/// Texts separated by `sep`.
pub fn join_texts(v: &Vec<String>, sep: &str) -> (r: String)
    ensures
        r@ == joined_texts(v@, sep@),
{
    let mut r = String::new();
    let mut i: usize = 0;
    while i < v.len()
        invariant
            i <= v@.len(),
            r@ == joined_texts(v@.subrange(0, i as int), sep@),
        decreases v.len() - i,
    {
        proof {
            assert(v@.subrange(0, i + 1).drop_last() =~= v@.subrange(0, i as int));
        }
        if i == 0 {
            r = v[i].clone();
        } else {
            r.append(sep);
            r.append(v[i].as_str());
        }
        i = i + 1;
    }
    proof {
        assert(v@.subrange(0, v@.len() as int) =~= v@);
    }
    r
}

fn format_people(v: &Vec<Person>, titled: bool) -> (r: String)
    ensures
        r@ == people_str(v@, titled),
{
    let n = v.len();
    if n <= 1 {
        proof {
            assert(v@.subrange(0, n as int) =~= v@);
        }
        join_people(v, n, ", ", false, titled)
    } else {
        let mut r = join_people(v, n - 1, ", ", false, titled);
        let last = person_text(&v[n - 1], false, titled);
        r.append(" & ");
        r.append(last.as_str());
        proof {
            assert(v@.subrange(0, n - 1) =~= v@.drop_last());
        }
        r
    }
}

fn format_people_bib(v: &Vec<Person>, titled: bool) -> (r: String)
    ensures
        r@ == people_bib(v@, titled),
{
    let n = v.len();
    proof {
        assert(v@.subrange(0, n as int) =~= v@);
    }
    join_people(v, n, " and ", true, titled)
}

/// People for reading, as stored: "first last, first last & first last".
pub fn people_to_plain_str(v: &Vec<Person>) -> (r: String)
    ensures
        r@ == people_str(v@, false),
{
    format_people(v, false)
}

/// People for bibtex, as stored: "last, first and last, first".
pub fn people_to_plain_bib(v: &Vec<Person>) -> (r: String)
    ensures
        r@ == people_bib(v@, false),
{
    format_people_bib(v, false)
}

/// Printing for reading.
pub trait ToString {
    spec fn str_view(&self) -> Seq<char>;

    fn to_str(&self) -> (r: String)
        ensures
            r@ == self.str_view(),
    ;
}

/// Printing for bibtex.
pub trait BibPrint {
    spec fn bib_view(&self) -> Seq<char>;

    fn to_bib(&self) -> (r: String)
        ensures
            r@ == self.bib_view(),
    ;
}

/// Title casing of a text.
pub trait ToTitleCase {
    spec fn title_view(&self) -> Seq<char>;

    fn to_title(&self) -> (r: String)
        ensures
            r@ == self.title_view(),
    ;
}

/// Removal of trailing white space.
pub trait TrimStr {
    spec fn trimmed_view(&self) -> Seq<char>;

    fn trim_str(&self) -> (r: String)
        ensures
            r@ == self.trimmed_view(),
    ;
}

impl ToTitleCase for String {
    open spec fn title_view(&self) -> Seq<char> {
        title_case(self@)
    }

    fn to_title(&self) -> (r: String) {
        to_title(self.as_str())
    }
}

impl TrimStr for String {
    open spec fn trimmed_view(&self) -> Seq<char> {
        trim_end_of(self@)
    }

    fn trim_str(&self) -> (r: String) {
        trim_str(self)
    }
}

impl ToString for Person {
    open spec fn str_view(&self) -> Seq<char> {
        person_text_of(*self, false, true)
    }

    fn to_str(&self) -> (r: String) {
        person_text(self, false, true)
    }
}

impl ToString for Vec<Person> {
    open spec fn str_view(&self) -> Seq<char> {
        people_str(self@, true)
    }

    fn to_str(&self) -> (r: String) {
        format_people(self, true)
    }
}

impl BibPrint for Person {
    open spec fn bib_view(&self) -> Seq<char> {
        person_text_of(*self, true, true)
    }

    fn to_bib(&self) -> (r: String) {
        person_text(self, true, true)
    }
}

impl BibPrint for Vec<Person> {
    open spec fn bib_view(&self) -> Seq<char> {
        people_bib(self@, true)
    }

    fn to_bib(&self) -> (r: String) {
        format_people_bib(self, true)
    }
}

impl BibPrint for i32 {
    open spec fn bib_view(&self) -> Seq<char> {
        decimal(*self as int)
    }

    fn to_bib(&self) -> (r: String) {
        int_text(*self)
    }
}

impl BibPrint for String {
    open spec fn bib_view(&self) -> Seq<char> {
        self@
    }

    fn to_bib(&self) -> (r: String) {
        self.clone()
    }
}

/// The people an entry is credited to: its authors, or its editors when it has no author.
pub open spec fn credited(e: Entry) -> Seq<Person> {
    if e.authors@.len() > 0 {
        e.authors@
    } else {
        e.editors@
    }
}

/// The venue printed for an entry: its journal, else its book title, else nothing.
pub open spec fn venue(e: Entry) -> Seq<char> {
    if e.journal is Some {
        e.journal.unwrap()@
    } else if e.booktitle is Some {
        e.booktitle.unwrap()@
    } else {
        Seq::<char>::empty()
    }
}

/// "People. (year).Title. Venue".
pub open spec fn entry_str(e: Entry) -> Seq<char> {
    people_str(credited(e), true) + ". ("@ + decimal(e.year as int) + ")."@ + title_case(e.title@)
        + ". "@ + venue(e)
}

/// One bibtex field line.
pub open spec fn field_line(name: Seq<char>, value: Seq<char>) -> Seq<char> {
    ",\n\t"@ + name + " = {"@ + value + "}"@
}

pub open spec fn text_line(name: Seq<char>, v: Option<String>) -> Seq<char> {
    match v {
        Some(s) => field_line(name, s@),
        None => Seq::<char>::empty(),
    }
}

pub open spec fn int_line(name: Seq<char>, v: Option<i32>) -> Seq<char> {
    match v {
        Some(n) => field_line(name, decimal(n as int)),
        None => Seq::<char>::empty(),
    }
}

pub open spec fn people_line(name: Seq<char>, v: Seq<Person>) -> Seq<char> {
    if v.len() > 0 {
        field_line(name, people_bib(v, true))
    } else {
        Seq::<char>::empty()
    }
}

pub open spec fn keyword_line(v: Seq<String>) -> Seq<char> {
    if v.len() > 0 {
        field_line("keyword"@, joined_texts(v, ", "@))
    } else {
        Seq::<char>::empty()
    }
}

pub open spec fn extra_lines(v: Seq<(String, String)>) -> Seq<char>
    decreases v.len(),
{
    if v.len() == 0 {
        Seq::<char>::empty()
    } else {
        extra_lines(v.drop_last()) + field_line(v.last().0@, v.last().1@)
    }
}

/// The bibtex record of an entry: its type and citation, then year, book title, chapter,
/// edition, month, volume, number, pages, journal, editors, authors, keywords and the extra
/// fields, each present field on a line of its own.
pub open spec fn entry_bib(e: Entry) -> Seq<char> {
    "@"@ + kind_name(e.entry_type) + "{"@ + e.citation@ + field_line("year"@, decimal(e.year as int))
        + text_line("booktitle"@, e.booktitle) + int_line("chapter"@, e.chapter) + int_line(
        "edition"@,
        e.edition,
    ) + int_line("month"@, e.month) + int_line("volume"@, e.volume) + int_line(
        "number"@,
        e.number,
    ) + text_line("pages"@, e.pages) + text_line("journal"@, e.journal) + people_line(
        "editor"@,
        e.editors@,
    ) + people_line("author"@, e.authors@) + keyword_line(e.keywords@) + extra_lines(
        e.extra_fields@,
    ) + "\n}"@
}

fn push_field(r: &mut String, name: &str, value: &str)
    ensures
        final(r)@ == old(r)@ + field_line(name@, value@),
{
    r.append(",\n\t");
    r.append(name);
    r.append(" = {");
    r.append(value);
    r.append("}");
    proof {
        assert(final(r)@ =~= old(r)@ + field_line(name@, value@));
    }
}

fn push_text_field(r: &mut String, name: &str, v: &Option<String>)
    ensures
        final(r)@ == old(r)@ + text_line(name@, *v),
{
    match v {
        Some(s) => push_field(r, name, s.as_str()),
        None => {
            assert(r@ =~= r@ + Seq::<char>::empty());
        },
    }
}

fn push_int_field(r: &mut String, name: &str, v: Option<i32>)
    ensures
        final(r)@ == old(r)@ + int_line(name@, v),
{
    match v {
        Some(n) => {
            let t = int_text(n);
            push_field(r, name, t.as_str());
        },
        None => {
            assert(r@ =~= r@ + Seq::<char>::empty());
        },
    }
}

impl ToString for Entry {
    open spec fn str_view(&self) -> Seq<char> {
        entry_str(*self)
    }

    fn to_str(&self) -> (r: String) {
        let mut r = if self.authors.len() > 0 {
            format_people(&self.authors, true)
        } else {
            format_people(&self.editors, true)
        };
        r.append(". (");
        let year = int_text(self.year);
        r.append(year.as_str());
        r.append(").");
        let title = to_title(self.title.as_str());
        r.append(title.as_str());
        r.append(". ");
        match &self.journal {
            Some(j) => r.append(j.as_str()),
            None => match &self.booktitle {
                Some(b) => r.append(b.as_str()),
                None => {},
            },
        }
        proof {
            assert(r@ =~= entry_str(*self));
        }
        r
    }
}

impl BibPrint for Entry {
    open spec fn bib_view(&self) -> Seq<char> {
        entry_bib(*self)
    }

    fn to_bib(&self) -> (r: String) {
        let mut r = String::new();
        r.append("@");
        r.append(self.entry_type.name());
        r.append("{");
        r.append(self.citation.as_str());
        let year = int_text(self.year);
        push_field(&mut r, "year", year.as_str());
        push_text_field(&mut r, "booktitle", &self.booktitle);
        push_int_field(&mut r, "chapter", self.chapter);
        push_int_field(&mut r, "edition", self.edition);
        push_int_field(&mut r, "month", self.month);
        push_int_field(&mut r, "volume", self.volume);
        push_int_field(&mut r, "number", self.number);
        push_text_field(&mut r, "pages", &self.pages);
        push_text_field(&mut r, "journal", &self.journal);
        if self.editors.len() > 0 {
            let t = format_people_bib(&self.editors, true);
            push_field(&mut r, "editor", t.as_str());
        }
        if self.authors.len() > 0 {
            let t = format_people_bib(&self.authors, true);
            push_field(&mut r, "author", t.as_str());
        }
        if self.keywords.len() > 0 {
            let t = join_texts(&self.keywords, ", ");
            push_field(&mut r, "keyword", t.as_str());
        }
        let ghost before_extra = r@;
        let mut i: usize = 0;
        while i < self.extra_fields.len()
            invariant
                i <= self.extra_fields@.len(),
                r@ == before_extra + extra_lines(self.extra_fields@.subrange(0, i as int)),
            decreases self.extra_fields.len() - i,
        {
            proof {
                assert(self.extra_fields@.subrange(0, i + 1).drop_last()
                    =~= self.extra_fields@.subrange(0, i as int));
            }
            push_field(&mut r, self.extra_fields[i].0.as_str(), self.extra_fields[i].1.as_str());
            proof {
                assert(r@ =~= before_extra + extra_lines(self.extra_fields@.subrange(0, i + 1)));
            }
            i = i + 1;
        }
        r.append("\n}");
        proof {
            assert(self.extra_fields@.subrange(0, self.extra_fields@.len() as int)
                =~= self.extra_fields@);
            assert(r@ =~= entry_bib(*self));
        }
        r
    }
}

/// The three comment lines written for an entry: "% Title", "% people for bibtex", "% year".
pub open spec fn comment_of(e: Entry) -> Seq<char> {
    "% "@ + title_case(e.title@) + "\n% "@ + people_bib(credited(e), true) + "\n% "@ + decimal(
        e.year as int,
    )
}

impl Entry {
    pub fn to_comment(&self) -> (r: String)
        ensures
            r@ == comment_of(*self),
    {
        let mut r = String::new();
        r.append("% ");
        let title = to_title(self.title.as_str());
        r.append(title.as_str());
        r.append("\n% ");
        let people = if self.authors.len() > 0 {
            format_people_bib(&self.authors, true)
        } else {
            format_people_bib(&self.editors, true)
        };
        r.append(people.as_str());
        r.append("\n% ");
        let year = int_text(self.year);
        r.append(year.as_str());
        proof {
            assert(r@ =~= comment_of(*self));
        }
        r
    }
}

} // verus!
