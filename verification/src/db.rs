//! Where the database is.
use vstd::prelude::*;

use crate::text::owned;

verus! {

/// The database used when `DATABASE_URL` is not set.
pub const DEFAULT_DATABASE_URL: &'static str = "sqlite:./tcexchange.db";

/// The database to open: the configured one, else the default file.
pub fn database_url(configured: Option<String>) -> (r: String)
    ensures
        r@ == match configured {
            Some(u) => u@,
            None => DEFAULT_DATABASE_URL@,
        },
{
    match configured {
        Some(u) => u,
        None => owned(DEFAULT_DATABASE_URL),
    }
}

} // verus!
