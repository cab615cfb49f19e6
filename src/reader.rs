use vstd::prelude::*;
use vstd::string::*;

use crate::formatter::joined_texts;
use crate::keywords::{contains, distinct, text_set};
use crate::model::{parse_spec, text_of, Entry, EntryType, Person};
use crate::text::{
    alnum_only, decimal, find_first, first_at, i32_of, int_text, lower_of, nfd_of,
    is_white_space, parse_i32, pieces, split, str_eq, strip_accent, to_lowercase, trim, trim_of,
    trim_start_of,
};

verus! {

/// The leading characters of a text up to its first white space.
pub open spec fn word_prefix(s: Seq<char>) -> Seq<char>
    decreases s.len(),
{
    if s.len() == 0 || is_white_space(s[0]) {
        Seq::<char>::empty()
    } else {
        seq![s[0]] + word_prefix(s.subrange(1, s.len() as int))
    }
}

/// The first word of a text, words being separated by white space; `None` for a text of white
/// space only.
pub open spec fn first_word_of(s: Seq<char>) -> Option<Seq<char>> {
    if trim_start_of(s).len() == 0 {
        None
    } else {
        Some(word_prefix(trim_start_of(s)))
    }
}

/// Relies on `str::split_whitespace`: its first item is the first maximal run of characters
/// that are not white space, if there is one.
#[verifier::external_body]
fn first_word(s: &str) -> (r: Option<String>)
    ensures
        r is None <==> first_word_of(s@) is None,
        r matches Some(w) ==> first_word_of(s@) == Some(w@),
{
    s.split_whitespace().next().map(|w| w.to_string())
}

/// The part of `s` before the first `pat`, or all of `s`.
pub open spec fn head_of(s: Seq<char>, pat: Seq<char>) -> Seq<char> {
    if exists|i: int| first_at(s, pat, i) {
        s.subrange(0, choose|i: int| first_at(s, pat, i))
    } else {
        s
    }
}

/// `j` is the last position of character `c` in `s`.
pub open spec fn last_char_at(s: Seq<char>, c: char, j: int) -> bool {
    0 <= j < s.len() && s[j] == c && forall|k: int| j < k < s.len() ==> s[k] != c
}

/// A name split into (last name, first name): "Last, First" splits at the first ", " (the first
/// name ends at a second ", "); "First Last" splits at the last space; a single word is a last
/// name.
pub open spec fn name_parts(s: Seq<char>) -> (Seq<char>, Seq<char>) {
    if exists|i: int| first_at(s, ", "@, i) {
        let i = choose|i: int| first_at(s, ", "@, i);
        (s.subrange(0, i), head_of(s.subrange(i + 2, s.len() as int), ", "@))
    } else if exists|j: int| last_char_at(s, ' ', j) {
        let j = choose|j: int| last_char_at(s, ' ', j);
        (s.subrange(j + 1, s.len() as int), s.subrange(0, j))
    } else {
        (s, Seq::<char>::empty())
    }
}

/// `p` is the person read from the name `s`: names in lower case, the search term from the last
/// name, no id yet.
pub open spec fn loaded_as(p: Person, s: Seq<char>) -> bool {
    &&& p.id is None
    &&& p.last_name@ == lower_of(name_parts(s).0)
    &&& p.first_name@ == lower_of(name_parts(s).1)
    &&& p.search_term@ == alnum_only(nfd_of(lower_of(name_parts(s).0)))
}

proof fn lemma_first_unique(s: Seq<char>, pat: Seq<char>, i: int, j: int)
    requires
        first_at(s, pat, i),
        first_at(s, pat, j),
    ensures
        i == j,
{
}

proof fn lemma_last_unique(s: Seq<char>, c: char, i: int, j: int)
    requires
        last_char_at(s, c, i),
        last_char_at(s, c, j),
    ensures
        i == j,
{
}

/// The last position of `c` in `s`.
fn find_last_char(s: &str, c: char) -> (r: Option<usize>)
    ensures
        r matches Some(j) ==> last_char_at(s@, c, j as int),
        r is None ==> forall|k: int| 0 <= k < s@.len() ==> s@[k] != c,
{
    let n = s.unicode_len();
    let mut i: usize = n;
    while i > 0
        invariant
            n == s@.len(),
            i <= n,
            forall|k: int| i <= k < n ==> s@[k] != c,
        decreases i,
    {
        if s.get_char(i - 1) == c {
            return Some(i - 1);
        }
        i = i - 1;
    }
    None
}

/// The part of `s` before the first `pat`, or all of `s`.
fn head(s: &str, pat: &str) -> (r: String)
    ensures
        r@ == head_of(s@, pat@),
{
    match find_first(s, pat) {
        Some(i) => {
            proof {
                let k = choose|k: int| first_at(s@, pat@, k);
                lemma_first_unique(s@, pat@, i as int, k);
            }
            String::from_str(s.substring_char(0, i))
        },
        None => {
            proof {
                assert(!exists|i: int| first_at(s@, pat@, i));
            }
            String::from_str(s)
        },
    }
}

impl Person {
    /// Reads a person from a bibtex name, "Last, First" or "First Last".
    pub fn load(input: &str) -> (r: Person)
        ensures
            loaded_as(r, input@),
    {
        let n = input.unicode_len();
        let (last_raw, first_raw) = match find_first(input, ", ") {
            Some(i) => {
                proof {
                    let k = choose|k: int| first_at(input@, ", "@, k);
                    lemma_first_unique(input@, ", "@, i as int, k);
                    assert(", "@.len() == 2) by {
                        reveal_strlit(", ");
                    }
                }
                let rest = input.substring_char(i + 2, n);
                (String::from_str(input.substring_char(0, i)), head(rest, ", "))
            },
            None => {
                proof {
                    assert(!exists|i: int| first_at(input@, ", "@, i));
                }
                match find_last_char(input, ' ') {
                    Some(j) => {
                        proof {
                            let k = choose|k: int| last_char_at(input@, ' ', k);
                            lemma_last_unique(input@, ' ', j as int, k);
                        }
                        (
                            String::from_str(input.substring_char(j + 1, n)),
                            String::from_str(input.substring_char(0, j)),
                        )
                    },
                    None => {
                        proof {
                            assert(!exists|j: int| last_char_at(input@, ' ', j));
                        }
                        (String::from_str(input), String::new())
                    },
                }
            },
        };
        let last_name = to_lowercase(last_raw.as_str());
        let first_name = to_lowercase(first_raw.as_str());
        let search_term = strip_accent(last_name.as_str());
        Person { id: None, last_name, first_name, search_term }
    }
}

/// Reads the people of a bibtex name list, "A and B and C".
pub fn load_people(input: &str) -> (r: Vec<Person>)
    ensures
        r@.len() == pieces(input@, " and "@).len(),
        forall|i: int| 0 <= i < r@.len() ==> loaded_as(#[trigger] r@[i], pieces(input@, " and "@)[i]),
{
    proof {
        reveal_strlit(" and ");
    }
    let names = split(input, " and ");
    let mut r: Vec<Person> = Vec::new();
    let mut i: usize = 0;
    while i < names.len()
        invariant
            names@.len() == pieces(input@, " and "@).len(),
            forall|k: int| 0 <= k < names@.len() ==> (#[trigger] names@[k])@ == pieces(input@, " and "@)[k],
            i <= names@.len(),
            r@.len() == i,
            forall|k: int| 0 <= k < i ==> loaded_as(#[trigger] r@[k], pieces(input@, " and "@)[k]),
        decreases names.len() - i,
    {
        r.push(Person::load(names[i].as_str()));
        i = i + 1;
    }
    r
}

/// Reads a keyword list "a, b, c" as a set: each text once.
pub fn load_keywords(input: &str) -> (r: Vec<String>)
    ensures
        text_set(r@) == pieces(input@, ", "@).to_set(),
        distinct(r@),
{
    proof {
        reveal_strlit(", ");
    }
    let parts = split(input, ", ");
    let ghost ps = pieces(input@, ", "@);
    let mut r: Vec<String> = Vec::new();
    let mut i: usize = 0;
    while i < parts.len()
        invariant
            parts@.len() == ps.len(),
            forall|k: int| 0 <= k < parts@.len() ==> (#[trigger] parts@[k])@ == ps[k],
            i <= parts@.len(),
            text_set(r@) == ps.subrange(0, i as int).to_set(),
            distinct(r@),
        decreases parts.len() - i,
    {
        let ghost prev = r@;
        let present = contains(&r, &parts[i]);
        if !present {
            r.push(parts[i].clone());
        }
        proof {
            let next = ps.subrange(0, i + 1);
            let cur = ps.subrange(0, i as int);
            assert(next =~= cur.push(ps[i as int]));
            assert forall|k: Seq<char>| text_set(r@).contains(k) <==> next.to_set().contains(k) by {
                if text_set(r@).contains(k) {
                    let x = choose|x: int| 0 <= x < r@.len() && r@[x]@ == k;
                    if x < prev.len() {
                        assert(text_set(prev).contains(k));
                        assert(cur.to_set().contains(k));
                        let y = choose|y: int| 0 <= y < cur.len() && cur[y] == k;
                        assert(next[y] == k);
                    } else {
                        assert(next[i as int] == k);
                    }
                }
                if next.to_set().contains(k) {
                    let y = choose|y: int| 0 <= y < next.len() && next[y] == k;
                    if y < i {
                        assert(cur[y] == k);
                        assert(cur.to_set().contains(k));
                        let x = choose|x: int| 0 <= x < prev.len() && prev[x]@ == k;
                        assert(r@[x]@ == k);
                    } else if present {
                        assert(text_set(prev).contains(k));
                        let x = choose|x: int| 0 <= x < prev.len() && prev[x]@ == k;
                        assert(r@[x]@ == k);
                    } else {
                        assert(r@[prev.len() as int]@ == k);
                    }
                }
            }
            assert(text_set(r@) =~= ps.subrange(0, i + 1).to_set());
            if !present {
                assert forall|x: int, y: int| 0 <= x < y < r@.len() implies r@[x]@ != r@[y]@ by {
                    if y == prev.len() {
                        assert(r@[x] == prev[x]);
                        assert(text_set(prev).contains(prev[x]@));
                    }
                }
            }
        }
        i = i + 1;
    }
    proof {
        assert(ps.subrange(0, ps.len() as int) =~= ps);
    }
    r
}

/// The cleaned arguments of a list of pieces: each trimmed and in lower case, the empty ones
/// dropped.
pub open spec fn cleaned(ps: Seq<Seq<char>>) -> Seq<Seq<char>>
    decreases ps.len(),
{
    if ps.len() == 0 {
        Seq::<Seq<char>>::empty()
    } else {
        let prev = cleaned(ps.drop_last());
        let t = lower_of(trim_of(ps.last()));
        if t.len() > 0 {
            prev.push(t)
        } else {
            prev
        }
    }
}

/// Command-line words joined by spaces and split again at commas: "a b,c" gives "a b" and "c",
/// each trimmed and in lower case, empty ones dropped.
pub fn comma_separate_args(input: &Vec<String>) -> (r: Vec<String>)
    ensures
        r@.len() == cleaned(pieces(joined_texts(input@, " "@), ","@)).len(),
        forall|i: int|
            0 <= i < r@.len() ==> (#[trigger] r@[i])@ == cleaned(
                pieces(joined_texts(input@, " "@), ","@),
            )[i],
{
    proof {
        reveal_strlit(",");
    }
    let joined = crate::formatter::join_texts(input, " ");
    let parts = split(joined.as_str(), ",");
    let ghost ps = pieces(joined@, ","@);
    let mut r: Vec<String> = Vec::new();
    let mut i: usize = 0;
    while i < parts.len()
        invariant
            parts@.len() == ps.len(),
            forall|k: int| 0 <= k < parts@.len() ==> (#[trigger] parts@[k])@ == ps[k],
            i <= parts@.len(),
            r@.len() == cleaned(ps.subrange(0, i as int)).len(),
            forall|k: int| 0 <= k < r@.len() ==> (#[trigger] r@[k])@ == cleaned(ps.subrange(0, i as int))[k],
        decreases parts.len() - i,
    {
        proof {
            assert(ps.subrange(0, i + 1).drop_last() =~= ps.subrange(0, i as int));
        }
        let t = trim(parts[i].as_str());
        let l = to_lowercase(t.as_str());
        if l.as_str().unicode_len() > 0 {
            r.push(l);
        }
        i = i + 1;
    }
    proof {
        assert(ps.subrange(0, ps.len() as int) =~= ps);
    }
    r
}

/// The stem of a generated citation: the search term of the first author, else of the first
/// editor, else the first word of the title.
pub open spec fn citation_stem(e: Entry) -> Option<Seq<char>> {
    if e.authors@.len() > 0 {
        Some(e.authors@[0].search_term@)
    } else if e.editors@.len() > 0 {
        Some(e.editors@[0].search_term@)
    } else {
        first_word_of(e.title@)
    }
}

impl Entry {
    /// A citation key for the entry: its stem followed by the year; `None` when the entry has no
    /// author, no editor and no word in its title.
    pub fn generate_citation(&self) -> (r: Option<String>)
        ensures
            citation_stem(*self) is None ==> r is None,
            citation_stem(*self) matches Some(s) ==> r is Some && r->Some_0@ == s + decimal(
                self.year as int,
            ),
    {
        let stem = if self.authors.len() > 0 {
            self.authors[0].search_term.clone()
        } else if self.editors.len() > 0 {
            self.editors[0].search_term.clone()
        } else {
            match first_word(self.title.as_str()) {
                Some(w) => w,
                None => {
                    return None;
                },
            }
        };
        let year = int_text(self.year);
        let mut r = stem;
        r.append(year.as_str());
        Some(r)
    }
}

/// The field that a bibtex tag fills: 0 title, 1 booktitle, 2 pages, 3 journal, 4 author,
/// 5 editor, 6 keywords, 7 year, 8 chapter, 9 edition, 10 month, 11 number, 12 volume,
/// 13 an auxiliary field (howpublished, institution, organization, address, note, publisher,
/// school, series, doi, eprint), 14 none.
pub open spec fn field_kind(name: Seq<char>) -> int {
    if name == "title"@ {
        0
    } else if name == "booktitle"@ {
        1
    } else if name == "pages"@ {
        2
    } else if name == "journal"@ {
        3
    } else if name == "author"@ {
        4
    } else if name == "editor"@ {
        5
    } else if name == "keywords"@ {
        6
    } else if name == "year"@ {
        7
    } else if name == "chapter"@ {
        8
    } else if name == "edition"@ {
        9
    } else if name == "month"@ {
        10
    } else if name == "number"@ {
        11
    } else if name == "volume"@ {
        12
    } else if name == "howpublished"@ || name == "institution"@ || name == "organization"@
        || name == "address"@ || name == "note"@ || name == "publisher"@ || name == "school"@
        || name == "series"@ || name == "doi"@ || name == "eprint"@ {
        13
    } else {
        14
    }
}

/// The field that the tag `name` fills, as `field_kind` numbers them.
pub fn field_of(name: &str) -> (r: u8)
    ensures
        r as int == field_kind(name@),
{
    if str_eq(name, "title") {
        0
    } else if str_eq(name, "booktitle") {
        1
    } else if str_eq(name, "pages") {
        2
    } else if str_eq(name, "journal") {
        3
    } else if str_eq(name, "author") {
        4
    } else if str_eq(name, "editor") {
        5
    } else if str_eq(name, "keywords") {
        6
    } else if str_eq(name, "year") {
        7
    } else if str_eq(name, "chapter") {
        8
    } else if str_eq(name, "edition") {
        9
    } else if str_eq(name, "month") {
        10
    } else if str_eq(name, "number") {
        11
    } else if str_eq(name, "volume") {
        12
    } else if str_eq(name, "howpublished") || str_eq(name, "institution") || str_eq(
        name,
        "organization",
    ) || str_eq(name, "address") || str_eq(name, "note") || str_eq(name, "publisher") || str_eq(
        name,
        "school",
    ) || str_eq(name, "series") || str_eq(name, "doi") || str_eq(name, "eprint") {
        13
    } else {
        14
    }
}

/// The value of the last tag that fills field `k`.
pub open spec fn tag_value(tags: Seq<(String, String)>, k: int) -> Option<Seq<char>>
    decreases tags.len(),
{
    if tags.len() == 0 {
        None
    } else if field_kind(tags.last().0@) == k {
        Some(tags.last().1@)
    } else {
        tag_value(tags.drop_last(), k)
    }
}

/// `i` is the first field of `fields` named `k`.
pub open spec fn key_first_at(fields: Seq<(String, String)>, k: Seq<char>, i: int) -> bool {
    0 <= i < fields.len() && fields[i].0@ == k && forall|j: int| 0 <= j < i ==> fields[j].0@ != k
}

/// `fields` with `kv` set: its value replaces that of the first field of the same name, or it
/// is added at the end.
pub open spec fn set_field(fields: Seq<(String, String)>, kv: (String, String)) -> Seq<
    (String, String),
> {
    if exists|i: int| key_first_at(fields, kv.0@, i) {
        fields.update(choose|i: int| key_first_at(fields, kv.0@, i), kv)
    } else {
        fields.push(kv)
    }
}

/// The auxiliary tags, in order; a later tag of a name already kept replaces its value.
pub open spec fn extra_of(tags: Seq<(String, String)>) -> Seq<(String, String)>
    decreases tags.len(),
{
    if tags.len() == 0 {
        Seq::<(String, String)>::empty()
    } else if field_kind(tags.last().0@) == 13 {
        set_field(extra_of(tags.drop_last()), tags.last())
    } else {
        extra_of(tags.drop_last())
    }
}

/// Every integer tag (year, chapter, edition, month, number, volume) writes an `i32`.
pub open spec fn numbers_ok(tags: Seq<(String, String)>) -> bool {
    forall|i: int|
        0 <= i < tags.len() && 7 <= field_kind(tags[i].0@) <= 12 ==> (#[trigger] i32_of(
            tags[i].1@,
        )) is Some
}

pub open spec fn int_tag(tags: Seq<(String, String)>, k: int) -> Option<i32> {
    match tag_value(tags, k) {
        Some(v) => i32_of(v),
        None => None,
    }
}

pub open spec fn people_read(people: Seq<Person>, v: Seq<char>) -> bool {
    &&& people.len() == pieces(v, " and "@).len()
    &&& forall|i: int|
        0 <= i < people.len() ==> loaded_as(#[trigger] people[i], pieces(v, " and "@)[i])
}

/// `e` holds the fields that `tags` give, the last tag of a field winning: text fields as
/// written, people and keywords as `load_people` and `load_keywords` read them, integers
/// parsed, auxiliary fields kept.
pub open spec fn fields_read(e: Entry, tags: Seq<(String, String)>) -> bool {
    &&& e.title@ == (match tag_value(tags, 0) {
        Some(v) => v,
        None => Seq::<char>::empty(),
    })
    &&& text_of(e.booktitle) == tag_value(tags, 1)
    &&& text_of(e.pages) == tag_value(tags, 2)
    &&& text_of(e.journal) == tag_value(tags, 3)
    &&& (match tag_value(tags, 4) {
        Some(v) => people_read(e.authors@, v),
        None => e.authors@.len() == 0,
    })
    &&& (match tag_value(tags, 5) {
        Some(v) => people_read(e.editors@, v),
        None => e.editors@.len() == 0,
    })
    &&& (match tag_value(tags, 6) {
        Some(v) => text_set(e.keywords@) == pieces(v, ", "@).to_set(),
        None => e.keywords@.len() == 0,
    })
    &&& distinct(e.keywords@)
    &&& e.year == (match int_tag(tags, 7) {
        Some(y) => y,
        None => 0,
    })
    &&& e.chapter == int_tag(tags, 8)
    &&& e.edition == int_tag(tags, 9)
    &&& e.month == int_tag(tags, 10)
    &&& e.number == int_tag(tags, 11)
    &&& e.volume == int_tag(tags, 12)
    &&& e.extra_fields@ == extra_of(tags)
    &&& e.files@.len() == 0
}

/// Sets the field named `kv.0` to `kv.1`, or adds it.
fn set_extra(fields: &mut Vec<(String, String)>, kv: (String, String))
    ensures
        final(fields)@ == set_field(old(fields)@, kv),
{
    let mut i: usize = 0;
    while i < fields.len()
        invariant
            i <= fields@.len(),
            fields@ == old(fields)@,
            forall|j: int| 0 <= j < i ==> fields@[j].0@ != kv.0@,
        decreases fields.len() - i,
    {
        if fields[i].0 == kv.0 {
            proof {
                assert(key_first_at(fields@, kv.0@, i as int));
                let k = choose|k: int| key_first_at(fields@, kv.0@, k);
                if k < i {
                    assert(fields@[k].0@ != kv.0@);
                } else if k > i {
                    assert(fields@[i as int].0@ != kv.0@);
                }
            }
            fields.set(i, kv);
            return;
        }
        i = i + 1;
    }
    fields.push(kv);
}

impl Entry {
    /// An entry from a parsed bibtex record: the citation key in its search form (lower case,
    /// then accents and other characters than ASCII letters and digits removed), the type by
    /// name, and the
    /// fields of the tags. Fails with the name of the first integer tag that writes no `i32`.
    pub fn from_fields(citation_key: &str, entry_type: &str, tags: &Vec<(String, String)>) -> (r:
        Result<Entry, String>)
        ensures
            r is Ok <==> numbers_ok(tags@),
            r matches Ok(e) ==> e.citation@ == alnum_only(nfd_of(lower_of(citation_key@))) && e.entry_type
                == parse_spec(entry_type@) && fields_read(e, tags@) && e.wf(),
            r matches Err(name) ==> exists|i: int|
                0 <= i < tags@.len() && tags@[i].0@ == name@ && 7 <= field_kind(name@) <= 12
                    && i32_of(tags@[i].1@) is None,
    {
        let lowered = to_lowercase(citation_key);
        let mut e = Entry::new(strip_accent(lowered.as_str()), EntryType::parse(entry_type));
        proof {
            let none = tags@.subrange(0, 0);
            assert(none.len() == 0);
            assert(e.extra_fields@ =~= extra_of(none));
            assert(e.keywords@ =~= Seq::<String>::empty());
            assert(tag_value(none, 0) is None);
            assert(e.title@ == Seq::<char>::empty());
            assert(text_of(e.booktitle) == tag_value(none, 1));
            assert(int_tag(none, 7) is None);
            assert(e.files@.len() == 0);
            assert(distinct(e.keywords@));
        }
        let mut i: usize = 0;
        while i < tags.len()
            invariant
                i <= tags@.len(),
                e.citation@ == alnum_only(nfd_of(lower_of(citation_key@))),
                e.entry_type == parse_spec(entry_type@),
                fields_read(e, tags@.subrange(0, i as int)),
                numbers_ok(tags@.subrange(0, i as int)),
                crate::model::keys_distinct(e.extra_fields@),
            decreases tags.len() - i,
        {
            let ghost prev = tags@.subrange(0, i as int);
            let ghost next = tags@.subrange(0, i + 1);
            proof {
                assert(next.drop_last() =~= prev);
                assert(next.last() == tags@[i as int]);
            }
            let name = &tags[i].0;
            let content = &tags[i].1;
            let kind = field_of(name.as_str());
            if kind == 0 {
                e.title = content.clone();
            } else if kind == 1 {
                e.booktitle = Some(content.clone());
            } else if kind == 2 {
                e.pages = Some(content.clone());
            } else if kind == 3 {
                e.journal = Some(content.clone());
            } else if kind == 4 {
                e.authors = load_people(content.as_str());
            } else if kind == 5 {
                e.editors = load_people(content.as_str());
            } else if kind == 6 {
                e.keywords = load_keywords(content.as_str());
            } else if kind <= 12 {
                let v = match parse_i32(content.as_str()) {
                    Some(v) => v,
                    None => {
                        return Err(name.clone());
                    },
                };
                if kind == 7 {
                    e.year = v;
                } else if kind == 8 {
                    e.chapter = Some(v);
                } else if kind == 9 {
                    e.edition = Some(v);
                } else if kind == 10 {
                    e.month = Some(v);
                } else if kind == 11 {
                    e.number = Some(v);
                } else {
                    e.volume = Some(v);
                }
            } else if kind == 13 {
                let ghost before = e.extra_fields@;
                set_extra(&mut e.extra_fields, (name.clone(), content.clone()));
                proof {
                    if exists|x: int| key_first_at(before, name@, x) {
                        let x = choose|x: int| key_first_at(before, name@, x);
                        assert forall|a: int, b: int|
                            0 <= a < b < e.extra_fields@.len() implies e.extra_fields@[a].0@
                            != e.extra_fields@[b].0@ by {
                            if a != x && b != x {
                                assert(e.extra_fields@[a] == before[a]);
                                assert(e.extra_fields@[b] == before[b]);
                            } else if a == x {
                                assert(e.extra_fields@[b] == before[b]);
                            } else {
                                assert(e.extra_fields@[a] == before[a]);
                            }
                        }
                    } else {
                        assert forall|a: int, b: int|
                            0 <= a < b < e.extra_fields@.len() implies e.extra_fields@[a].0@
                            != e.extra_fields@[b].0@ by {
                            if b == before.len() {
                                assert(e.extra_fields@[a] == before[a]);
                                if before[a].0@ == name@ {
                                                                        assert(exists|y: int| key_first_at(before, name@, y)) by {
                                        lemma_some_first(before, name@, a);
                                    }
                                }
                            }
                        }
                    }
                }
            }
            proof {
                assert(fields_read(e, next));
                assert(numbers_ok(next)) by {
                    assert forall|j: int|
                        0 <= j < next.len() && 7 <= field_kind(next[j].0@) <= 12 implies (
                        #[trigger] i32_of(next[j].1@)) is Some by {
                        if j < i {
                            assert(next[j] == prev[j]);
                        }
                    }
                }
            }
            i = i + 1;
        }
        proof {
            assert(tags@.subrange(0, tags@.len() as int) =~= tags@);
        }
        Ok(e)
    }
}

/// Where some field is named `k`, a first one is.
proof fn lemma_some_first(fields: Seq<(String, String)>, k: Seq<char>, a: int)
    requires
        0 <= a < fields.len(),
        fields[a].0@ == k,
    ensures
        exists|y: int| key_first_at(fields, k, y),
    decreases a,
{
    if exists|j: int| 0 <= j < a && fields[j].0@ == k {
        let j = choose|j: int| 0 <= j < a && fields[j].0@ == k;
        lemma_some_first(fields, k, j);
    } else {
        assert(key_first_at(fields, k, a));
    }
}

} // verus!
