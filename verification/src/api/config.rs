//! The service's configuration, from the values of its environment variables.

use vstd::prelude::*;
use crate::services::ai::AiConfig;
use crate::text::{chars_of, parse_usize, parse_usize_at, str_eq};

verus! {

#[derive(Clone)]
pub struct AppConfig {
    pub database_url: String,
    pub host: String,
    pub port: u16,
    pub grpc_port: u16,
    pub oidc_issuer: String,
    pub oidc_audience: String,
    pub oidc_jwks_uri: String,
    pub registration_enabled: bool,
    pub recordings_enabled: bool,
    pub openai_key: Option<String>,
    pub openai_model: Option<String>,
    pub ollama_url: Option<String>,
    pub ollama_model: Option<String>,
}

/// The values of the environment variables the configuration is read from, each when it
/// is set to valid Unicode: `DATABASE_URL`, `HOST`, `PORT`, `GRPC_PORT`, `OIDC_ISSUER`,
/// `OIDC_AUDIENCE`, `OIDC_JWKS_URI`, `REGISTRATION_ENABLED`, `RECORDINGS_ENABLED`,
/// `OPENAI_KEY`, `OPENAI_MODEL`, `OLLAMA_URL`, `OLLAMA_MODEL`.
pub struct ConfigVars {
    pub database_url: Option<String>,
    pub host: Option<String>,
    pub port: Option<String>,
    pub grpc_port: Option<String>,
    pub oidc_issuer: Option<String>,
    pub oidc_audience: Option<String>,
    pub oidc_jwks_uri: Option<String>,
    pub registration_enabled: Option<String>,
    pub recordings_enabled: Option<String>,
    pub openai_key: Option<String>,
    pub openai_model: Option<String>,
    pub ollama_url: Option<String>,
    pub ollama_model: Option<String>,
}

/// A port that is not a number from 0 to 65535; it holds the text read.
pub enum ConfigError {
    Port(String),
    GrpcPort(String),
}

/// A variable's value, or the default when it is unset.
pub open spec fn or_default(v: Option<String>, d: Seq<char>) -> Seq<char> {
    match v {
        Some(s) => s@,
        None => d,
    }
}

/// What `str::parse::<u16>` accepts and returns.
pub open spec fn port_value(s: Seq<char>) -> Option<u16> {
    match parse_usize(s) {
        Some(n) => if n <= 65535 {
            Some(n as u16)
        } else {
            None
        },
        None => None,
    }
}

/// A switch: on unless its value is exactly `false`.
pub open spec fn switch_value(v: Option<String>) -> bool {
    match v {
        Some(s) => s@ != "false"@,
        None => true,
    }
}

pub open spec fn default_port() -> Seq<char> {
    "8000"@
}

pub open spec fn default_grpc_port() -> Seq<char> {
    "50051"@
}

/// The configuration read from `v`, when both ports are numbers.
pub open spec fn config_of(v: ConfigVars, c: AppConfig) -> bool {
    &&& c.database_url@ == or_default(v.database_url, "sqlite://data/database.db?mode=rwc"@)
    &&& c.host@ == or_default(v.host, "0.0.0.0"@)
    &&& port_value(or_default(v.port, default_port())) == Some(c.port)
    &&& port_value(or_default(v.grpc_port, default_grpc_port())) == Some(c.grpc_port)
    &&& c.oidc_issuer@ == or_default(v.oidc_issuer, "http://localhost:8080/realms/scraperr"@)
    &&& c.oidc_audience@ == or_default(v.oidc_audience, "scraperr-api"@)
    &&& c.oidc_jwks_uri@ == or_default(
        v.oidc_jwks_uri,
        "http://localhost:8080/realms/scraperr/protocol/openid-connect/certs"@,
    )
    &&& c.registration_enabled == switch_value(v.registration_enabled)
    &&& c.recordings_enabled == switch_value(v.recordings_enabled)
    &&& c.openai_key == v.openai_key
    &&& c.openai_model == v.openai_model
    &&& c.ollama_url == v.ollama_url
    &&& c.ollama_model == v.ollama_model
}

fn value_or(v: Option<String>, d: &str) -> (r: String)
    ensures
        r@ == match v {
            Some(s) => s@,
            None => d@,
        },
{
    match v {
        Some(s) => s,
        None => d.to_string(),
    }
}

/// `str::parse::<u16>`.
fn parse_port(s: &str) -> (r: Option<u16>)
    ensures
        r == port_value(s@),
{
    let v = chars_of(s);
    assert(v@.subrange(0, v@.len() as int) =~= v@);
    match parse_usize_at(&v, 0, v.len()) {
        Some(n) => if n <= 65535 {
            Some(n as u16)
        } else {
            None
        },
        None => None,
    }
}

fn switch(v: &Option<String>) -> (r: bool)
    ensures
        r == switch_value(*v),
{
    match v {
        Some(s) => !str_eq(s.as_str(), "false"),
        None => true,
    }
}

impl AppConfig {
    /// Reads the configuration: each unset variable takes its default; `PORT` (default
    /// 8000) and then `GRPC_PORT` (default 50051) must be numbers from 0 to 65535; a switch is
    /// on unless it is `false`.
    pub fn from_vars(v: ConfigVars) -> (r: Result<AppConfig, ConfigError>)
        ensures
            match r {
                Ok(c) => config_of(v, c),
                Err(ConfigError::Port(t)) => t@ == or_default(v.port, default_port()) && port_value(t@)
                    is None,
                Err(ConfigError::GrpcPort(t)) => port_value(or_default(v.port, default_port())) is Some
                    && t@ == or_default(v.grpc_port, default_grpc_port()) && port_value(t@) is None,
            },
            port_value(or_default(v.port, default_port())) is Some && port_value(
                or_default(v.grpc_port, default_grpc_port()),
            ) is Some ==> r is Ok,
    {
        let registration_enabled = switch(&v.registration_enabled);
        let recordings_enabled = switch(&v.recordings_enabled);
        let port_text = value_or(v.port, "8000");
        let port = match parse_port(port_text.as_str()) {
            Some(p) => p,
            None => {
                return Err(ConfigError::Port(port_text));
            },
        };
        let grpc_text = value_or(v.grpc_port, "50051");
        let grpc_port = match parse_port(grpc_text.as_str()) {
            Some(p) => p,
            None => {
                return Err(ConfigError::GrpcPort(grpc_text));
            },
        };
        Ok(
            AppConfig {
                database_url: value_or(v.database_url, "sqlite://data/database.db?mode=rwc"),
                host: value_or(v.host, "0.0.0.0"),
                port,
                grpc_port,
                oidc_issuer: value_or(v.oidc_issuer, "http://localhost:8080/realms/scraperr"),
                oidc_audience: value_or(v.oidc_audience, "scraperr-api"),
                oidc_jwks_uri: value_or(
                    v.oidc_jwks_uri,
                    "http://localhost:8080/realms/scraperr/protocol/openid-connect/certs",
                ),
                registration_enabled,
                recordings_enabled,
                openai_key: v.openai_key,
                openai_model: v.openai_model,
                ollama_url: v.ollama_url,
                ollama_model: v.ollama_model,
            },
        )
    }

    /// The settings of the AI service.
    pub fn ai_config(&self) -> (r: AiConfig)
        ensures
            r.openai_key == self.openai_key,
            r.openai_model == self.openai_model,
            r.ollama_url == self.ollama_url,
            r.ollama_model == self.ollama_model,
    {
        AiConfig {
            openai_key: self.openai_key.clone(),
            openai_model: self.openai_model.clone(),
            ollama_url: self.ollama_url.clone(),
            ollama_model: self.ollama_model.clone(),
        }
    }
}

} // verus!
