//! The destination record shared by the catalogue, the chat and the database.
use vstd::prelude::*;

verus! {

/// One exchange destination, as stored in the `destinations` table.
/// `languages` holds a comma-separated list (e.g. `"French,English"`).
pub struct Destination {
    pub id: i64,
    pub university_name: String,
    pub country: String,
    pub location: Option<String>,
    pub url: Option<String>,
    pub exchange_type: Option<String>,
    pub languages: Option<String>,
    pub description: Option<String>,
    pub short_name: Option<String>,
    pub position: Option<String>,
}

} // verus!
