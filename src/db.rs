use vstd::prelude::*;

verus! {

/// A datastore client, configured from a connection string and a database name.
pub trait Database: Sized {
    fn new(connection_string: String, database_name: String) -> Self;
}

} // verus!
