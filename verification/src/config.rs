//! Configuration records for the security subsystem and the backend
//! drivers. Loading and saving these from a file is the host program's
//! business; the records themselves carry the defaults the system starts
//! with.

use vstd::prelude::*;
use vstd::string::StrSliceExecFns;
use vstd::string::StringExecFns;
use vstd::string::StringSliceAdditionalSpecFns;

verus! {

/// Security settings: the permission mask granted by default, the ceiling
/// every requested token lifetime is clamped to (in seconds), whether
/// capabilities must carry a verifying signature to be authoritative, the
/// keyed-hash secret, and the principals trusted to issue tokens.
pub struct SecurityConfig {
    pub default_permissions: u8,
    pub max_token_lifetime: u64,
    pub require_signatures: bool,
    pub hmac_secret: Vec<u8>,
    pub trusted_issuers: Vec<String>,
}

/// The development-time secret the default configuration carries.
pub open spec fn default_secret() -> Seq<u8> {
    "gnos-dev-secret-change-in-prod!!".spec_bytes()
}

impl Default for SecurityConfig {
    /// Read-only permissions, a day-long lifetime ceiling, signatures
    /// required, and the development secret.
    fn default() -> (r: Self)
        ensures
            r.default_permissions == 0b100u8,
            r.max_token_lifetime == 86400u64,
            r.require_signatures == true,
            r.hmac_secret@ == default_secret(),
            r.trusted_issuers@.len() == 2,
            r.trusted_issuers@[0]@ == "gnos-cli"@,
            r.trusted_issuers@[1]@ == "gnos-web"@,
    {
        let issuers = vec![String::from_str("gnos-cli"), String::from_str("gnos-web")];
        SecurityConfig {
            default_permissions: 0b100,
            max_token_lifetime: 86400,
            require_signatures: true,
            hmac_secret: "gnos-dev-secret-change-in-prod!!".as_bytes_vec(),
            trusted_issuers: issuers,
        }
    }
}

/// Whether the driver of one backend family is enabled.
pub struct AiDriverConfig {
    pub enabled: bool,
}

pub struct CloudDriverConfig {
    pub enabled: bool,
}

pub struct HttpDriverConfig {
    pub enabled: bool,
}

/// Which backend drivers the registry is built with.
pub struct DriverConfig {
    pub ai: AiDriverConfig,
    pub cloud: CloudDriverConfig,
    pub http: HttpDriverConfig,
}

/// The whole configuration: security settings and driver switches.
pub struct GnosConfig {
    pub security: SecurityConfig,
    pub drivers: DriverConfig,
}

impl Default for AiDriverConfig {
    fn default() -> (r: Self)
        ensures
            r.enabled == true,
    {
        AiDriverConfig { enabled: true }
    }
}

impl Default for CloudDriverConfig {
    fn default() -> (r: Self)
        ensures
            r.enabled == true,
    {
        CloudDriverConfig { enabled: true }
    }
}

impl Default for HttpDriverConfig {
    fn default() -> (r: Self)
        ensures
            r.enabled == true,
    {
        HttpDriverConfig { enabled: true }
    }
}

impl Default for DriverConfig {
    fn default() -> (r: Self)
        ensures
            r.ai.enabled && r.cloud.enabled && r.http.enabled,
    {
        DriverConfig {
            ai: AiDriverConfig::default(),
            cloud: CloudDriverConfig::default(),
            http: HttpDriverConfig::default(),
        }
    }
}

impl Default for GnosConfig {
    fn default() -> (r: Self)
        ensures
            r.security.default_permissions == 0b100u8,
            r.security.max_token_lifetime == 86400u64,
            r.security.require_signatures == true,
            r.drivers.ai.enabled && r.drivers.cloud.enabled && r.drivers.http.enabled,
    {
        GnosConfig { security: SecurityConfig::default(), drivers: DriverConfig::default() }
    }
}

} // verus!
