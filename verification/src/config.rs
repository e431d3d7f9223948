//! Run configuration, assembled from the values the binary reads out of its
//! environment.

use vstd::prelude::*;

verus! {

/// The configuration a run needs. A missing required value is fatal to the
/// process, before any cell is enumerated.
#[derive(Debug)]
pub struct Config {
    pub database_url: String,
    pub host: String,
    pub cors_origin: Option<String>,
    pub jwt_secret: String,
}

/// Which required configuration value is missing.
#[derive(Clone, Copy, Debug, PartialEq, Eq, Structural)]
pub enum ConfigError {
    MissingDatabaseUrl,
    MissingHost,
    MissingJwtSecret,
}

impl Config {
    /// Assemble the configuration from optional raw values, in the order
    /// the binary reads them: the first missing required value is the
    /// error; the CORS origin is optional.
    pub fn init(
        database_url: Option<String>,
        cors_origin: Option<String>,
        host: Option<String>,
        jwt_secret: Option<String>,
    ) -> (r: Result<Config, ConfigError>)
        ensures
            r is Ok <==> database_url is Some && host is Some && jwt_secret is Some,
            database_url is None ==> r == Result::<Config, ConfigError>::Err(
                ConfigError::MissingDatabaseUrl,
            ),
            database_url is Some && host is None ==> r == Result::<Config, ConfigError>::Err(
                ConfigError::MissingHost,
            ),
            database_url is Some && host is Some && jwt_secret is None ==> r == Result::<
                Config,
                ConfigError,
            >::Err(ConfigError::MissingJwtSecret),
            r is Ok ==> r->Ok_0.database_url == database_url.unwrap()
                && r->Ok_0.cors_origin == cors_origin && r->Ok_0.host == host.unwrap()
                && r->Ok_0.jwt_secret == jwt_secret.unwrap(),
    {
        let database_url = match database_url {
            Some(v) => v,
            None => {
                return Err(ConfigError::MissingDatabaseUrl);
            },
        };
        let host = match host {
            Some(v) => v,
            None => {
                return Err(ConfigError::MissingHost);
            },
        };
        let jwt_secret = match jwt_secret {
            Some(v) => v,
            None => {
                return Err(ConfigError::MissingJwtSecret);
            },
        };
        Ok(Config { database_url, host, cors_origin, jwt_secret })
    }
}

} // verus!
