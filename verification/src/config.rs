//! The runtime's own configuration: the well-known settings every adapter
//! needs, resolved from optional raw values with their documented defaults.

use vstd::prelude::*;

use crate::strutil::str_eq;

verus! {

/// The deployment environment.
#[derive(Clone, Copy, PartialEq, Eq, Structural, Debug)]
pub enum Environment {
    Development,
    Staging,
    Production,
}

/// Whether the adapter pushes its definitions to the control plane.
#[derive(Clone, Copy, PartialEq, Eq, Structural, Debug)]
pub enum Mode {
    STATIC,
    HYBRID,
}

/// The environment named by `s`; development when the name is unknown.
pub open spec fn environment_of(s: Seq<char>) -> Environment {
    if s == "production"@ {
        Environment::Production
    } else if s == "staging"@ {
        Environment::Staging
    } else {
        Environment::Development
    }
}

/// The mode named by `s`; static when the name is unknown.
pub open spec fn mode_of(s: Seq<char>) -> Mode {
    if s == "hybrid"@ {
        Mode::HYBRID
    } else {
        Mode::STATIC
    }
}

impl Environment {
    /// Parses an environment name; an unknown name falls back to
    /// development.
    pub fn from_str(s: &str) -> (r: Environment)
        ensures
            r == environment_of(s@),
    {
        if str_eq(s, "production") {
            Environment::Production
        } else if str_eq(s, "staging") {
            Environment::Staging
        } else {
            Environment::Development
        }
    }
}

impl Mode {
    /// Parses a mode name; an unknown name falls back to static.
    pub fn from_str(s: &str) -> (r: Mode)
        ensures
            r == mode_of(s@),
    {
        if str_eq(s, "hybrid") {
            Mode::HYBRID
        } else {
            Mode::STATIC
        }
    }
}

/// How an adapter-specific configuration is loaded; each shell brings its
/// own implementation.
pub trait LoadConfig: Sized {
    /// Gathers the shell's configuration.
    fn load() -> Self;
}

/// The shared runtime configuration every adapter carries.
#[derive(PartialEq, Debug)]
pub struct AdapterConfig {
    pub environment: Environment,
    pub mode: Mode,
    pub nats_url: String,
    pub nats_bucket: String,
    pub grpc_port: u16,
    pub grpc_host: String,
    pub aquila_url: String,
    pub definition_path: String,
    pub with_health_service: bool,
    pub draco_variant: String,
}

/// A raw value or its default.
fn or_default(value: Option<String>, default: &str) -> (r: String)
    ensures
        match value {
            Some(v) => r == v,
            None => r@ == default@,
        },
{
    match value {
        Some(v) => v,
        None => default.to_owned(),
    }
}

impl AdapterConfig {
    /// Resolves the runtime configuration from the raw environment values,
    /// filling in the documented default wherever a value is absent.
    pub fn from_values(
        nats_url: Option<String>,
        nats_bucket: Option<String>,
        grpc_port: Option<u16>,
        grpc_host: Option<String>,
        aquila_url: Option<String>,
        environment: Option<String>,
        mode: Option<String>,
        definition_path: Option<String>,
        with_health_service: Option<bool>,
        draco_variant: Option<String>,
    ) -> (r: AdapterConfig)
        ensures
            (match nats_url {
                Some(v) => r.nats_url == v,
                None => r.nats_url@ == "nats://localhost:4222"@,
            }),
            (match nats_bucket {
                Some(v) => r.nats_bucket == v,
                None => r.nats_bucket@ == "flow_store"@,
            }),
            r.grpc_port == (match grpc_port {
                Some(p) => p,
                None => 50051u16,
            }),
            (match grpc_host {
                Some(v) => r.grpc_host == v,
                None => r.grpc_host@ == "localhost"@,
            }),
            (match aquila_url {
                Some(v) => r.aquila_url == v,
                None => r.aquila_url@ == "grpc://localhost:50051"@,
            }),
            r.environment == (match environment {
                Some(v) => environment_of(v@),
                None => Environment::Development,
            }),
            r.mode == (match mode {
                Some(v) => mode_of(v@),
                None => Mode::STATIC,
            }),
            (match definition_path {
                Some(v) => r.definition_path == v,
                None => r.definition_path@ == "./definition"@,
            }),
            r.with_health_service == (match with_health_service {
                Some(b) => b,
                None => false,
            }),
            (match draco_variant {
                Some(v) => r.draco_variant == v,
                None => r.draco_variant@ == "None"@,
            }),
    {
        AdapterConfig {
            environment: match environment {
                Some(v) => Environment::from_str(v.as_str()),
                None => Environment::Development,
            },
            mode: match mode {
                Some(v) => Mode::from_str(v.as_str()),
                None => Mode::STATIC,
            },
            nats_url: or_default(nats_url, "nats://localhost:4222"),
            nats_bucket: or_default(nats_bucket, "flow_store"),
            grpc_port: match grpc_port {
                Some(p) => p,
                None => 50051,
            },
            grpc_host: or_default(grpc_host, "localhost"),
            aquila_url: or_default(aquila_url, "grpc://localhost:50051"),
            definition_path: or_default(definition_path, "./definition"),
            with_health_service: match with_health_service {
                Some(b) => b,
                None => false,
            },
            draco_variant: or_default(draco_variant, "None"),
        }
    }

    /// Whether the adapter runs without a control plane.
    pub fn is_static(&self) -> (r: bool)
        ensures
            r == (self.mode == Mode::STATIC),
    {
        self.mode == Mode::STATIC
    }
}

/// The HTTP shell's own configuration.
#[derive(Clone, PartialEq, Debug)]
pub struct HttpServerConfig {
    pub port: u16,
    pub host: String,
}

impl HttpServerConfig {
    /// Resolves the shell configuration from raw values and defaults.
    pub fn from_values(port: Option<u16>, host: Option<String>) -> (r: HttpServerConfig)
        ensures
            r.port == (match port {
                Some(p) => p,
                None => 8080u16,
            }),
            (match host {
                Some(h) => r.host == h,
                None => r.host@ == "127.0.0.1"@,
            }),
    {
        HttpServerConfig {
            port: match port {
                Some(p) => p,
                None => 8080,
            },
            host: or_default(host, "127.0.0.1"),
        }
    }
}

} // verus!
