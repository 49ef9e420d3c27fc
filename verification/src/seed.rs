//! Loading the catalogue file into the database.
use vstd::prelude::*;

use crate::text::{join, join_strings, views};

verus! {

/// The `languages` column of a destination: its languages joined by commas,
/// absent when the catalogue gives none.
pub fn languages_column(languages: Option<Vec<String>>) -> (r: Option<String>)
    ensures
        match languages {
            Some(l) => r matches Some(c) && c@ == join(views(l@), ","@),
            None => r is None,
        },
{
    match languages {
        Some(l) => Some(join_strings(l.as_slice(), ",")),
        None => None,
    }
}

} // verus!
