//! Categories group decks.
use vstd::prelude::*;

use crate::error::{invalid_with, Error};
use crate::text::{blank, is_blank, trim_owned, trimmed};

verus! {

/// The name a category is created or renamed with: trimmed, and not empty.
pub fn category_name(name: &str) -> (r: Result<String, Error>)
    ensures
        is_blank(name@) ==> r is Err && invalid_with(
            r->Err_0,
            "category name cannot be empty"@,
        ),
        !is_blank(name@) ==> r is Ok && r->Ok_0@ == trimmed(name@),
{
    if blank(name) {
        Err(Error::invalid("category name cannot be empty"))
    } else {
        Ok(trim_owned(name))
    }
}

} // verus!
