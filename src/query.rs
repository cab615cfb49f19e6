use vstd::prelude::*;
use vstd::string::*;

use crate::store::SearchError;

verus! {

/// `n` SQL placeholders separated by ", ".
pub open spec fn placeholders(n: nat) -> Seq<char>
    decreases n,
{
    if n == 0 {
        Seq::<char>::empty()
    } else if n == 1 {
        "?"@
    } else {
        placeholders((n - 1) as nat) + ", ?"@
    }
}

/// The items linked to people of all `n` given search terms.
pub open spec fn author_part(n: nat) -> Seq<char> {
    "SELECT item_id FROM item_persons JOIN persons ON person_id = persons.id WHERE search_term IN ("@
        + placeholders(n) + ") GROUP BY item_id HAVING count(DISTINCT search_term) = ?"@
}

/// The items tagged with all `n` given keywords.
pub open spec fn keyword_part(n: nat) -> Seq<char> {
    "SELECT item_id FROM item_keywords JOIN keywords ON keyword_id = keywords.id WHERE keywords.text IN ("@
        + placeholders(n) + ") GROUP BY item_id HAVING count(DISTINCT keywords.text) = ?"@
}

/// The search for `a` author terms and `k` keywords: one part per kind of term that is given,
/// intersected when both are.
pub open spec fn query_text(a: nat, k: nat) -> Seq<char> {
    if a > 0 && k > 0 {
        author_part(a) + " INTERSECT "@ + keyword_part(k)
    } else if a > 0 {
        author_part(a)
    } else {
        keyword_part(k)
    }
}

/// `n` placeholders, "?, ?, ?" for three.
pub fn multi_param(n: usize) -> (r: String)
    ensures
        r@ == placeholders(n as nat),
{
    let mut r = String::new();
    let mut i: usize = 0;
    while i < n
        invariant
            i <= n,
            r@ == placeholders(i as nat),
        decreases n - i,
    {
        if i == 0 {
            r.append("?");
        } else {
            r.append(", ?");
        }
        i = i + 1;
    }
    r
}

/// The SQL text that selects the ids of the items with all `n_authors` author terms and all
/// `n_keywords` keywords. Its parameters are the author terms, their number, the keywords and
/// their number, in that order, each kind only when given. Asking with no term at all is an
/// error.
pub fn search_query(n_authors: usize, n_keywords: usize) -> (r: Result<String, SearchError>)
    ensures
        r is Err <==> n_authors == 0 && n_keywords == 0,
        r is Err ==> r == Err::<String, SearchError>(SearchError::NoTerms),
        r matches Ok(q) ==> q@ == query_text(n_authors as nat, n_keywords as nat),
{
    if n_authors == 0 && n_keywords == 0 {
        return Err(SearchError::NoTerms);
    }
    let mut q = String::new();
    if n_authors > 0 {
        q.append("SELECT item_id FROM item_persons JOIN persons ON person_id = persons.id WHERE search_term IN (");
        let p = multi_param(n_authors);
        q.append(p.as_str());
        q.append(") GROUP BY item_id HAVING count(DISTINCT search_term) = ?");
    }
    if n_authors > 0 && n_keywords > 0 {
        q.append(" INTERSECT ");
    }
    if n_keywords > 0 {
        q.append("SELECT item_id FROM item_keywords JOIN keywords ON keyword_id = keywords.id WHERE keywords.text IN (");
        let p = multi_param(n_keywords);
        q.append(p.as_str());
        q.append(") GROUP BY item_id HAVING count(DISTINCT keywords.text) = ?");
    }
    proof {
        assert(q@ =~= query_text(n_authors as nat, n_keywords as nat));
    }
    Ok(q)
}

} // verus!
