//! The gateway's settings and their defaults.

use vstd::prelude::*;

verus! {

/// Connection, listener and authorization settings.
#[derive(Debug, Clone)]
pub struct Config {
    pub database_host: String,
    pub database_dbname: String,
    pub database_user: String,
    pub database_password: String,
    /// Whether the replication connection requires TLS.
    pub database_tls: bool,
    /// The address that the API listens on.
    pub binding: String,
    /// Whether the API is served over HTTPS.
    pub https: bool,
    pub key_priv: Option<String>,
    pub key_cert: Option<String>,
    pub cookie_secret: Option<String>,
    pub admin_secret: Option<String>,
    pub auth_database_url: Option<String>,
    pub auth_database_max_connection: u32,
}

/// TLS is off unless asked for.
pub fn default_dbtls() -> (r: bool)
    ensures
        r == false,
{
    false
}

/// HTTPS is off unless asked for.
pub fn default_https() -> (r: bool)
    ensures
        r == false,
{
    false
}

/// Ten connections to the authorization database.
pub fn default_maxconn() -> (r: u32)
    ensures
        r == 10,
{
    10
}

/// The default listening address.
pub fn default_binding() -> (r: String)
    ensures
        r@ == "0.0.0.0:8080"@,
{
    String::from_str("0.0.0.0:8080")
}

impl Config {
    /// Settings for a database, every other field at its default.
    pub fn new(
        database_host: String,
        database_dbname: String,
        database_user: String,
        database_password: String,
    ) -> (r: Config)
        ensures
            r.database_host == database_host,
            r.database_dbname == database_dbname,
            r.database_user == database_user,
            r.database_password == database_password,
            r.database_tls == false,
            r.binding@ == "0.0.0.0:8080"@,
            r.https == false,
            r.key_priv is None,
            r.key_cert is None,
            r.cookie_secret is None,
            r.admin_secret is None,
            r.auth_database_url is None,
            r.auth_database_max_connection == 10,
    {
        Config {
            database_host,
            database_dbname,
            database_user,
            database_password,
            database_tls: default_dbtls(),
            binding: default_binding(),
            https: default_https(),
            key_priv: None,
            key_cert: None,
            cookie_secret: None,
            admin_secret: None,
            auth_database_url: None,
            auth_database_max_connection: default_maxconn(),
        }
    }

    /// The `sslmode` of the connection string.
    pub fn sslmode(&self) -> (r: String)
        ensures
            r@ == if self.database_tls { "require"@ } else { "disable"@ },
    {
        if self.database_tls {
            String::from_str("require")
        } else {
            String::from_str("disable")
        }
    }
}

} // verus!
