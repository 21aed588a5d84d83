//! A catalog of suppliers by category, with their contact people, and the
//! operations that edit it. Each operation works on the whole document in
//! memory; reading and writing the document is left to the caller.

use vstd::prelude::*;

pub mod model;
pub mod catalog;
pub mod laws;

verus! {

/// Where the catalog document is kept unless the caller says otherwise.
pub const DB_PATH: &'static str = "C:\\Users\\Andrei Teodor Dobre\\Desktop\\Facultate\\viarom\\BazaDeDate\\suppliers_db.json";

/// The location of the catalog document.
pub fn get_db_path() -> (r: String)
    ensures
        r@ == DB_PATH@,
{
    DB_PATH.to_owned()
}

} // verus!
