use vstd::prelude::*;

use crate::db::Database;

verus! {

/// The settings of a document-database client.
pub struct MongoDB {
    pub connection_string: String,
    pub database_name: String,
    pub auth_username: Option<String>,
    pub auth_password: Option<String>,
    pub auth_source: Option<String>,
    pub use_tls: bool,
    pub tls_certificate_path: Option<String>,
    pub max_pool_size: Option<u32>,
    pub min_pool_size: Option<u32>,
    pub socket_timeout_ms: Option<u64>,
    pub server_selection_timeout_ms: Option<u64>,
    pub heartbeat_frequency_ms: Option<u64>,
    pub read_preference: Option<String>,
    pub write_concern: Option<String>,
    pub read_concern: Option<String>,
    pub retry_writes: bool,
    pub retry_reads: bool,
    pub app_name: Option<String>,
    pub compression: Option<String>,
}

impl Database for MongoDB {
    /// Settings with no credentials, no TLS and driver defaults, where reads and
    /// writes are retried.
    fn new(connection_string: String, database_name: String) -> (r: MongoDB)
        ensures
            r.connection_string == connection_string,
            r.database_name == database_name,
            r.auth_username is None,
            r.auth_password is None,
            r.auth_source is None,
            !r.use_tls,
            r.tls_certificate_path is None,
            r.max_pool_size is None,
            r.min_pool_size is None,
            r.socket_timeout_ms is None,
            r.server_selection_timeout_ms is None,
            r.heartbeat_frequency_ms is None,
            r.read_preference is None,
            r.write_concern is None,
            r.read_concern is None,
            r.retry_writes,
            r.retry_reads,
            r.app_name is None,
            r.compression is None,
    {
        MongoDB {
            connection_string,
            database_name,
            auth_username: None,
            auth_password: None,
            auth_source: None,
            use_tls: false,
            tls_certificate_path: None,
            max_pool_size: None,
            min_pool_size: None,
            socket_timeout_ms: None,
            server_selection_timeout_ms: None,
            heartbeat_frequency_ms: None,
            read_preference: None,
            write_concern: None,
            read_concern: None,
            retry_writes: true,
            retry_reads: true,
            app_name: None,
            compression: None,
        }
    }
}

} // verus!
