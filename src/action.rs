use vstd::prelude::*;

use crate::formatter::{entry_bib, entry_str, BibPrint, ToString};
use crate::store::{has_citation, DbError, Store};

verus! {

/// The entry stored under `citation`, printed for reading.
pub fn output_str(store: &Store, citation: &str) -> (r: Result<String, DbError>)
    ensures
        r is Ok <==> has_citation(store.items@, citation@),
        r is Err ==> r == Err::<String, DbError>(DbError::NotFound),
        r matches Ok(s) ==> exists|i: int|
            0 <= i < store.items@.len() && store.items@[i].entry.citation@ == citation@ && s@
                == entry_str(store.items@[i].entry),
{
    match store.find(citation) {
        Some(i) => Ok(store.items[i].entry.to_str()),
        None => Err(DbError::NotFound),
    }
}

/// The entry stored under `citation`, printed as a bibtex record.
pub fn output_bib(store: &Store, citation: &str) -> (r: Result<String, DbError>)
    ensures
        r is Ok <==> has_citation(store.items@, citation@),
        r is Err ==> r == Err::<String, DbError>(DbError::NotFound),
        r matches Ok(s) ==> exists|i: int|
            0 <= i < store.items@.len() && store.items@[i].entry.citation@ == citation@ && s@
                == entry_bib(store.items@[i].entry),
{
    match store.find(citation) {
        Some(i) => Ok(store.items[i].entry.to_bib()),
        None => Err(DbError::NotFound),
    }
}

} // verus!
