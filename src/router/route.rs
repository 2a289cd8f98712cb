use vstd::prelude::*;

use crate::http_core::http_types::HttpMethods;

verus! {

/// A method and a path, the key under which a route is found.
#[derive(Debug, Hash, Eq, PartialEq)]
pub struct RouteKey {
    pub method: HttpMethods,
    pub path: String,
}

} // verus!
