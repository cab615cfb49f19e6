use vstd::prelude::*;
use vstd::string::*;

use unicode_normalization::UnicodeNormalization;

verus! {

/// The canonical decomposition (Unicode normalization form D) of a text.
pub uninterp spec fn nfd_of(s: Seq<char>) -> Seq<char>;

/// The lower-case form of a text, by Unicode's lower-case mapping.
pub uninterp spec fn lower_of(s: Seq<char>) -> Seq<char>;

/// Unicode's White_Space characters, those that `char::is_whitespace` accepts.
pub open spec fn is_white_space(c: char) -> bool {
    ('\u{9}' <= c && c <= '\u{d}') || c == ' ' || c == '\u{85}' || c == '\u{a0}' || c == '\u{1680}'
        || ('\u{2000}' <= c && c <= '\u{200a}') || c == '\u{2028}' || c == '\u{2029}' || c
        == '\u{202f}' || c == '\u{205f}' || c == '\u{3000}'
}

/// A text without its leading white space.
pub open spec fn trim_start_of(s: Seq<char>) -> Seq<char>
    decreases s.len(),
{
    if s.len() > 0 && is_white_space(s[0]) {
        trim_start_of(s.subrange(1, s.len() as int))
    } else {
        s
    }
}

/// A text without its trailing white space.
pub open spec fn trim_end_of(s: Seq<char>) -> Seq<char>
    decreases s.len(),
{
    if s.len() > 0 && is_white_space(s.last()) {
        trim_end_of(s.drop_last())
    } else {
        s
    }
}

/// A text without its leading and trailing white space.
pub open spec fn trim_of(s: Seq<char>) -> Seq<char> {
    trim_end_of(trim_start_of(s))
}

/// Relies on `UnicodeNormalization::nfd` of unicode-normalization: the decomposition depends
/// on the characters of the text alone.
#[verifier::external_body]
fn decompose(s: &str) -> (r: String)
    ensures
        r@ == nfd_of(s@),
{
    s.nfd().collect::<String>()
}

/// Relies on `str::to_lowercase`: the result depends on the characters alone, and an empty
/// text stays empty.
#[verifier::external_body]
fn lowercase(s: &str) -> (r: String)
    ensures
        r@ == lower_of(s@),
        s@.len() == 0 ==> r@.len() == 0,
{
    s.to_lowercase()
}

/// Relies on `str::trim`: removes leading and trailing characters that `char::is_whitespace`
/// accepts (Unicode White_Space).
#[verifier::external_body]
fn trim_text(s: &str) -> (r: String)
    ensures
        r@ == trim_of(s@),
{
    s.trim().to_string()
}

/// Relies on `str::trim_end`: removes trailing characters that `char::is_whitespace` accepts
/// (Unicode White_Space).
#[verifier::external_body]
fn trim_end_text(s: &str) -> (r: String)
    ensures
        r@ == trim_end_of(s@),
{
    s.trim_end().to_string()
}

/// Relies on `String::push`: appends one character.
#[verifier::external_body]
fn push_char(s: &mut String, c: char)
    ensures
        final(s)@ == old(s)@.push(c),
{
    s.push(c)
}

/// ASCII 'a' to 'z' become 'A' to 'Z'; every other character stays.
pub open spec fn ascii_upper(c: char) -> char {
    if 'a' <= c && c <= 'z' {
        ((c as u32 - 32) as u32) as char
    } else {
        c
    }
}

/// ASCII 'A' to 'Z' become 'a' to 'z'; every other character stays.
pub open spec fn ascii_lower(c: char) -> char {
    if 'A' <= c && c <= 'Z' {
        ((c as u32 + 32) as u32) as char
    } else {
        c
    }
}

/// Relies on `char::to_ascii_uppercase`.
#[verifier::external_body]
fn to_upper(c: char) -> (r: char)
    ensures
        r == ascii_upper(c),
{
    c.to_ascii_uppercase()
}

/// Relies on `char::to_ascii_lowercase`.
#[verifier::external_body]
fn to_lower(c: char) -> (r: char)
    ensures
        r == ascii_lower(c),
{
    c.to_ascii_lowercase()
}

/// Whether two strings hold the same characters.
pub fn str_eq(a: &str, b: &str) -> (r: bool)
    ensures
        r == (a@ == b@),
{
    let n = a.unicode_len();
    if n != b.unicode_len() {
        return false;
    }
    let mut i: usize = 0;
    while i < n
        invariant
            n == a@.len(),
            n == b@.len(),
            i <= n,
            forall|j: int| 0 <= j < i ==> a@[j] == b@[j],
        decreases n - i,
    {
        if a.get_char(i) != b.get_char(i) {
            return false;
        }
        i = i + 1;
    }
    proof {
        assert(a@ =~= b@);
    }
    true
}

pub open spec fn is_alnum(c: char) -> bool {
    ('0' <= c && c <= '9') || ('a' <= c && c <= 'z') || ('A' <= c && c <= 'Z')
}

/// The ASCII letters and digits of a text, in order.
pub open spec fn alnum_only(s: Seq<char>) -> Seq<char>
    decreases s.len(),
{
    if s.len() == 0 {
        s
    } else if is_alnum(s.last()) {
        alnum_only(s.drop_last()).push(s.last())
    } else {
        alnum_only(s.drop_last())
    }
}

/// Keeps the ASCII letters and digits of `s`.
pub fn keep_alphanumeric(s: &str) -> (r: String)
    ensures
        r@ == alnum_only(s@),
{
    let n = s.unicode_len();
    let mut r = String::new();
    let mut i: usize = 0;
    while i < n
        invariant
            n == s@.len(),
            i <= n,
            r@ == alnum_only(s@.subrange(0, i as int)),
        decreases n - i,
    {
        let c = s.get_char(i);
        proof {
            assert(s@.subrange(0, i + 1).drop_last() =~= s@.subrange(0, i as int));
        }
        if ('0' <= c && c <= '9') || ('a' <= c && c <= 'z') || ('A' <= c && c <= 'Z') {
            push_char(&mut r, c);
        }
        i = i + 1;
    }
    proof {
        assert(s@.subrange(0, n as int) =~= s@);
    }
    r
}

/// The search form of a name: its canonical decomposition with everything but ASCII letters
/// and digits removed, so that accented letters keep their base letter.
pub fn strip_accent(input: &str) -> (r: String)
    ensures
        r@ == alnum_only(nfd_of(input@)),
{
    let d = decompose(input);
    keep_alphanumeric(d.as_str())
}

pub fn to_lowercase(s: &str) -> (r: String)
    ensures
        r@ == lower_of(s@),
{
    lowercase(s)
}

pub fn trim(s: &str) -> (r: String)
    ensures
        r@ == trim_of(s@),
{
    trim_text(s)
}

/// The text without trailing white space.
pub fn trim_str(s: &String) -> (r: String)
    ensures
        r@ == trim_end_of(s@),
{
    trim_end_text(s.as_str())
}

/// One step of title casing: the character written, and the brace depth and "after a
/// separator" flag that follow it.
pub open spec fn title_step(c: char, depth: int, space: bool) -> (char, int, bool) {
    if c == ' ' || c == '.' || c == ',' || c == '?' {
        (c, depth, true)
    } else if c == '{' {
        (c, depth + 1, false)
    } else if c == '}' {
        (c, depth - 1, false)
    } else if depth > 0 {
        (c, depth, false)
    } else if space {
        (ascii_upper(c), depth, false)
    } else {
        (ascii_lower(c), depth, false)
    }
}

/// Title casing of a prefix, with the state after it.
pub open spec fn title_run(s: Seq<char>) -> (Seq<char>, int, bool)
    decreases s.len(),
{
    if s.len() == 0 {
        (Seq::<char>::empty(), 0, true)
    } else {
        let prev = title_run(s.drop_last());
        let step = title_step(s.last(), prev.1, prev.2);
        (prev.0.push(step.0), step.1, step.2)
    }
}

/// A text in title case: the first letter after a space, period, comma or question mark (or at
/// the start) in upper case, the other letters in lower case, and text inside braces as is.
pub open spec fn title_case(s: Seq<char>) -> Seq<char> {
    title_run(s).0
}

proof fn lemma_title_depth(s: Seq<char>)
    ensures
        -s.len() <= title_run(s).1 <= s.len(),
        title_run(s).0.len() == s.len(),
    decreases s.len(),
{
    if s.len() > 0 {
        lemma_title_depth(s.drop_last());
    }
}

/// `s` in title case.
pub fn to_title(s: &str) -> (r: String)
    ensures
        r@ == title_case(s@),
{
    let n = s.unicode_len();
    let mut r = String::new();
    let mut depth: i128 = 0;
    let mut space = true;
    let mut i: usize = 0;
    while i < n
        invariant
            n == s@.len(),
            i <= n,
            title_run(s@.subrange(0, i as int)) == (r@, depth as int, space),
        decreases n - i,
    {
        let c = s.get_char(i);
        proof {
            assert(s@.subrange(0, i + 1).drop_last() =~= s@.subrange(0, i as int));
            lemma_title_depth(s@.subrange(0, i as int));
        }
        if c == ' ' || c == '.' || c == ',' || c == '?' {
            space = true;
            push_char(&mut r, c);
        } else if c == '{' {
            space = false;
            depth = depth + 1;
            push_char(&mut r, c);
        } else if c == '}' {
            space = false;
            depth = depth - 1;
            push_char(&mut r, c);
        } else if depth > 0 {
            space = false;
            push_char(&mut r, c);
        } else if space {
            space = false;
            push_char(&mut r, to_upper(c));
        } else {
            push_char(&mut r, to_lower(c));
        }
        i = i + 1;
    }
    proof {
        assert(s@.subrange(0, n as int) =~= s@);
    }
    r
}

pub open spec fn digit_char(d: int) -> char {
    if d == 0 {
        '0'
    } else if d == 1 {
        '1'
    } else if d == 2 {
        '2'
    } else if d == 3 {
        '3'
    } else if d == 4 {
        '4'
    } else if d == 5 {
        '5'
    } else if d == 6 {
        '6'
    } else if d == 7 {
        '7'
    } else if d == 8 {
        '8'
    } else {
        '9'
    }
}

/// The decimal digits of a natural number, without leading zeros.
pub open spec fn digits(n: nat) -> Seq<char>
    decreases n,
{
    if n < 10 {
        seq![digit_char(n as int)]
    } else {
        digits(n / 10).push(digit_char(n as int % 10))
    }
}

/// The decimal form of an integer, with a leading '-' when negative.
pub open spec fn decimal(n: int) -> Seq<char> {
    if n < 0 {
        seq!['-'] + digits((-n) as nat)
    } else {
        digits(n as nat)
    }
}

fn digit(d: u64) -> (c: char)
    requires
        d < 10,
    ensures
        c == digit_char(d as int),
{
    if d == 0 {
        '0'
    } else if d == 1 {
        '1'
    } else if d == 2 {
        '2'
    } else if d == 3 {
        '3'
    } else if d == 4 {
        '4'
    } else if d == 5 {
        '5'
    } else if d == 6 {
        '6'
    } else if d == 7 {
        '7'
    } else if d == 8 {
        '8'
    } else {
        '9'
    }
}

fn digits_text(n: u64) -> (r: String)
    ensures
        r@ == digits(n as nat),
    decreases n,
{
    if n < 10 {
        let mut r = String::new();
        push_char(&mut r, digit(n));
        proof {
            assert(r@ =~= seq![digit_char(n as int)]);
        }
        r
    } else {
        let mut r = digits_text(n / 10);
        push_char(&mut r, digit(n % 10));
        r
    }
}

/// The decimal form of `n`.
pub fn int_text(n: i32) -> (r: String)
    ensures
        r@ == decimal(n as int),
{
    if n < 0 {
        let m: i64 = -(n as i64);
        let d = digits_text(m as u64);
        let mut r = String::new();
        push_char(&mut r, '-');
        r.append(d.as_str());
        proof {
            assert(r@ =~= seq!['-'] + digits((-(n as int)) as nat));
        }
        r
    } else {
        digits_text(n as u64)
    }
}

/// `pat` occurs in `s` at position `i`.
pub open spec fn occurs_at(s: Seq<char>, pat: Seq<char>, i: int) -> bool {
    0 <= i && i + pat.len() <= s.len() && s.subrange(i, i + pat.len()) == pat
}

/// `i` is the first position at which `pat` occurs in `s`.
pub open spec fn first_at(s: Seq<char>, pat: Seq<char>, i: int) -> bool {
    occurs_at(s, pat, i) && forall|j: int| 0 <= j < i ==> !occurs_at(s, pat, j)
}

pub open spec fn contains_pat(s: Seq<char>, pat: Seq<char>) -> bool {
    exists|i: int| occurs_at(s, pat, i)
}

/// The pieces of `s` between the occurrences of the separator `pat`, scanning from the left.
pub open spec fn pieces(s: Seq<char>, pat: Seq<char>) -> Seq<Seq<char>>
    decreases s.len(),
{
    if pat.len() > 0 && exists|i: int| first_at(s, pat, i) {
        let i = choose|i: int| first_at(s, pat, i);
        seq![s.subrange(0, i)] + pieces(s.subrange(i + pat.len(), s.len() as int), pat)
    } else {
        seq![s]
    }
}

proof fn lemma_first_unique(s: Seq<char>, pat: Seq<char>, i: int, j: int)
    requires
        first_at(s, pat, i),
        first_at(s, pat, j),
    ensures
        i == j,
{
}

/// The first position at which `pat` occurs in `s`.
pub fn find_first(s: &str, pat: &str) -> (r: Option<usize>)
    ensures
        r matches Some(i) ==> first_at(s@, pat@, i as int),
        r is None ==> !contains_pat(s@, pat@),
{
    let n = s.unicode_len();
    let m = pat.unicode_len();
    if m > n {
        return None;
    }
    let last = n - m;
    let mut i: usize = 0;
    loop
        invariant
            n == s@.len(),
            m == pat@.len(),
            last == n - m,
            i <= last,
            forall|j: int| 0 <= j < i ==> !occurs_at(s@, pat@, j),
        decreases last - i,
    {
        let part = s.substring_char(i, i + m);
        if str_eq(part, pat) {
            return Some(i);
        }
        if i == last {
            return None;
        }
        i = i + 1;
    }
}

/// Whether `pat` occurs in `s`.
pub fn contains_text(s: &str, pat: &str) -> (r: bool)
    ensures
        r == contains_pat(s@, pat@),
{
    match find_first(s, pat) {
        Some(_) => true,
        None => false,
    }
}

/// The pieces of `s` between the occurrences of `pat`.
pub fn split(s: &str, pat: &str) -> (r: Vec<String>)
    requires
        pat@.len() > 0,
    ensures
        r@.len() == pieces(s@, pat@).len(),
        forall|i: int| 0 <= i < r@.len() ==> (#[trigger] r@[i])@ == pieces(s@, pat@)[i],
    decreases s@.len(),
{
    match find_first(s, pat) {
        None => {
            proof {
                assert(!exists|i: int| first_at(s@, pat@, i));
            }
            let mut r: Vec<String> = Vec::new();
            r.push(String::from_str(s));
            r
        },
        Some(i) => {
            let n = s.unicode_len();
            let m = pat.unicode_len();
            let head = String::from_str(s.substring_char(0, i));
            let rest = s.substring_char(i + m, n);
            let mut r = split(rest, pat);
            let ghost tail = r@;
            r.insert(0, head);
            proof {
                let k = choose|k: int| first_at(s@, pat@, k);
                lemma_first_unique(s@, pat@, i as int, k);
                let p = pieces(s@, pat@);
                assert(p == seq![s@.subrange(0, i as int)] + pieces(rest@, pat@));
                assert forall|x: int| 0 <= x < r@.len() implies (#[trigger] r@[x])@ == p[x] by {
                    if x > 0 {
                        assert(r@[x] == tail[x - 1]);
                    }
                }
            }
            r
        },
    }
}

pub open spec fn is_digit(c: char) -> bool {
    '0' <= c && c <= '9'
}

pub open spec fn all_digits(s: Seq<char>) -> bool {
    s.len() > 0 && forall|i: int| 0 <= i < s.len() ==> is_digit(#[trigger] s[i])
}

/// The value of a decimal digit.
pub open spec fn digit_value(c: char) -> int {
    c as u32 - '0' as u32
}

/// The value of a string of decimal digits.
pub open spec fn digits_value(s: Seq<char>) -> int
    decreases s.len(),
{
    if s.len() == 0 {
        0
    } else {
        digits_value(s.drop_last()) * 10 + digit_value(s.last())
    }
}

/// The integer a text writes: digits after an optional '+' or '-'.
pub open spec fn int_of(s: Seq<char>) -> Option<int> {
    if s.len() > 0 && s[0] == '-' && all_digits(s.subrange(1, s.len() as int)) {
        Some(-digits_value(s.subrange(1, s.len() as int)))
    } else if s.len() > 0 && s[0] == '+' && all_digits(s.subrange(1, s.len() as int)) {
        Some(digits_value(s.subrange(1, s.len() as int)))
    } else if all_digits(s) {
        Some(digits_value(s))
    } else {
        None
    }
}

/// The `i32` a text writes, when it writes one in range.
pub open spec fn i32_of(s: Seq<char>) -> Option<i32> {
    match int_of(s) {
        Some(v) => if i32::MIN <= v && v <= i32::MAX {
            Some(v as i32)
        } else {
            None
        },
        None => None,
    }
}

proof fn lemma_digits_grow(s: Seq<char>, k: int)
    requires
        0 <= k <= s.len(),
        forall|i: int| 0 <= i < s.len() ==> is_digit(#[trigger] s[i]),
    ensures
        digits_value(s) >= digits_value(s.subrange(0, k)),
        digits_value(s.subrange(0, k)) >= 0,
    decreases s.len(),
{
    if s.len() > 0 {
        if k == s.len() {
            assert(s.subrange(0, k) =~= s);
            lemma_digits_grow(s.drop_last(), s.len() - 1);
            assert(s.drop_last().subrange(0, s.len() - 1) =~= s.drop_last());
        } else {
            lemma_digits_grow(s.drop_last(), k);
            assert(s.drop_last().subrange(0, k) =~= s.subrange(0, k));
            lemma_digits_grow(s.drop_last(), 0);
            assert(s.drop_last().subrange(0, 0) =~= Seq::<char>::empty());
            lemma_digits_grow(s.drop_last(), s.len() - 1);
            assert(s.drop_last().subrange(0, s.len() - 1) =~= s.drop_last());
        }
    } else {
        assert(s.subrange(0, k) =~= s);
    }
}

/// The value of the digits of `s` from `from` on, when they are all digits and the value is at
/// most 2147483648.
fn digits_from(s: &str, from: usize) -> (r: Option<u64>)
    requires
        from <= s@.len(),
    ensures
        r matches Some(v) ==> all_digits(s@.subrange(from as int, s@.len() as int)) && v
            == digits_value(s@.subrange(from as int, s@.len() as int)) && v <= 2147483648,
        r is None ==> !all_digits(s@.subrange(from as int, s@.len() as int)) || digits_value(
            s@.subrange(from as int, s@.len() as int),
        ) > 2147483648,
{
    let n = s.unicode_len();
    if from >= n {
        return None;
    }
    let ghost t = s@.subrange(from as int, n as int);
    let mut acc: u64 = 0;
    let mut i: usize = from;
    while i < n
        invariant
            n == s@.len(),
            from < n,
            from <= i <= n,
            t == s@.subrange(from as int, n as int),
            forall|j: int| from <= j < i ==> is_digit(#[trigger] s@[j]),
            acc == digits_value(s@.subrange(from as int, i as int)),
            acc <= 2147483648,
        decreases n - i,
    {
        let c = s.get_char(i);
        if !('0' <= c && c <= '9') {
            proof {
                assert(!is_digit(t[i - from]));
            }
            return None;
        }
        let d = (c as u32 - '0' as u32) as u64;
        proof {
            assert(s@.subrange(from as int, i + 1).drop_last() =~= s@.subrange(from as int, i as int));
        }
        let next = acc * 10 + d;
        if next > 2147483648 {
            proof {
                assert forall|j: int| 0 <= j < i + 1 - from implies is_digit(
                    #[trigger] s@.subrange(from as int, i + 1)[j],
                ) by {
                    assert(s@.subrange(from as int, i + 1)[j] == s@[from + j]);
                }
                if all_digits(t) {
                    lemma_digits_grow(t, i + 1 - from);
                    assert(t.subrange(0, i + 1 - from) =~= s@.subrange(from as int, i + 1));
                }
            }
            return None;
        }
        acc = next;
        i = i + 1;
    }
    proof {
        assert(s@.subrange(from as int, n as int) =~= t);
        assert forall|j: int| 0 <= j < t.len() implies is_digit(#[trigger] t[j]) by {
            assert(t[j] == s@[from + j]);
        }
    }
    Some(acc)
}

/// The `i32` that `s` writes, as `str::parse` reads it.
pub fn parse_i32(s: &str) -> (r: Option<i32>)
    ensures
        r == i32_of(s@),
{
    let n = s.unicode_len();
    if n == 0 {
        return None;
    }
    let c = s.get_char(0);
    if c == '-' || c == '+' {
        proof {
            assert(!all_digits(s@)) by {
                assert(!is_digit(s@[0]));
            }
        }
        match digits_from(s, 1) {
            Some(v) => {
                if c == '-' {
                    Some((0 - (v as i64)) as i32)
                } else if v <= 2147483647 {
                    Some(v as i32)
                } else {
                    None
                }
            },
            None => None,
        }
    } else {
        proof {
            assert(s@.subrange(0, n as int) =~= s@);
        }
        match digits_from(s, 0) {
            Some(v) => {
                if v <= 2147483647 {
                    Some(v as i32)
                } else {
                    None
                }
            },
            None => {
                proof {
                    if all_digits(s@) {
                        lemma_digits_grow(s@, 0);
                    }
                }
                None
            },
        }
    }
}

} // verus!
