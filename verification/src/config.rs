//! Service configuration: the settings and how they are read from the
//! process environment, given as name and value pairs.
use vstd::prelude::*;
use vstd::string::*;

verus! {

/// The settings the service runs with.
#[derive(Debug, Clone)]
pub struct Config {
    pub database_url: String,
    pub database_max_connections: u32,
    pub redis_url: String,
    pub r2_access_key_id: String,
    pub r2_secret_access_key: String,
    pub r2_endpoint: String,
    pub r2_region: String,
    pub r2_force_path_style: bool,
    pub r2_bucket_name: String,
    pub r2_public_url: String,
    pub host: String,
    pub port: u16,
    pub jwt_secret: String,
    pub admin_email: String,
    pub admin_password_hash: String,
    pub city_discovery_user_agent: Option<String>,
    pub huggingface_token: Option<String>,
    pub enable_ml_processing: bool,
    pub ml_model_path: String,
    pub enable_virus_scan: bool,
    pub rate_limit_uploads_per_ip: u32,
    pub enable_pending_auto_approve: bool,
    pub pending_auto_approve_minutes: i64,
    pub pending_auto_approve_interval_seconds: u64,
    pub pending_auto_approve_batch_size: i64,
    pub ignore_missing_migrations: bool,
}


// ---------------------------------------------------------------------
// Reading numbers and switches
// ---------------------------------------------------------------------

pub open spec fn is_digit(c: char) -> bool {
    '0' <= c && c <= '9'
}

/// One or more ASCII digits.
pub open spec fn all_digits(s: Seq<char>) -> bool {
    s.len() > 0 && forall|i: int| 0 <= i < s.len() ==> is_digit(#[trigger] s[i])
}

/// The value of a string of decimal digits.
pub open spec fn digits_value(s: Seq<char>) -> nat
    decreases s.len(),
{
    if s.len() == 0 {
        0
    } else {
        digits_value(s.drop_last()) * 10 + ((s.last() as nat) - 48) as nat
    }
}

/// The value an unsigned number is written with: an optional `+`, then
/// digits.
pub open spec fn unsigned_value(s: Seq<char>) -> Option<nat> {
    let body = if s.len() > 0 && s[0] == '+' {
        s.drop_first()
    } else {
        s
    };
    if all_digits(body) {
        Some(digits_value(body))
    } else {
        None
    }
}

/// The value a signed number is written with: an optional `+` or `-`, then
/// digits.
pub open spec fn signed_value(s: Seq<char>) -> Option<int> {
    if s.len() > 0 && s[0] == '-' {
        if all_digits(s.drop_first()) {
            Some(-(digits_value(s.drop_first()) as int))
        } else {
            None
        }
    } else {
        match unsigned_value(s) {
            Some(v) => Some(v as int),
            None => None,
        }
    }
}

/// An unsigned number no larger than `max`.
pub open spec fn unsigned_within(s: Seq<char>, max: nat) -> Option<nat> {
    match unsigned_value(s) {
        Some(v) => if v <= max {
            Some(v)
        } else {
            None
        },
        None => None,
    }
}

/// A signed 64-bit number.
pub open spec fn i64_value(s: Seq<char>) -> Option<i64> {
    match signed_value(s) {
        Some(v) => if i64::MIN <= v <= i64::MAX {
            Some(v as i64)
        } else {
            None
        },
        None => None,
    }
}

/// A switch: `true` or `false`.
pub open spec fn bool_value(s: Seq<char>) -> Option<bool> {
    if s == "true"@ {
        Some(true)
    } else if s == "false"@ {
        Some(false)
    } else {
        None
    }
}

proof fn lemma_digits_value_grows(s: Seq<char>, i: int)
    requires
        0 <= i <= s.len(),
    ensures
        digits_value(s.subrange(0, i)) <= digits_value(s),
    decreases s.len() - i,
{
    if i < s.len() {
        lemma_digits_value_grows(s, i + 1);
        assert(s.subrange(0, i + 1).drop_last() =~= s.subrange(0, i));
    } else {
        assert(s.subrange(0, i) =~= s);
    }
}

/// The value of digits `chars[start..]`, if they are all digits and the
/// value is at most `max`.
fn digits_within(chars: &Vec<char>, start: usize, max: u64) -> (r: Option<u64>)
    requires
        start <= chars.len(),
    ensures
        ({
            let body = chars@.subrange(start as int, chars@.len() as int);
            r == (if all_digits(body) && digits_value(body) <= max {
                Some(digits_value(body) as u64)
            } else {
                None
            })
        }),
{
    let ghost body = chars@.subrange(start as int, chars@.len() as int);
    if start >= chars.len() {
        return None;
    }
    let mut acc: u128 = 0;
    let mut i: usize = start;
    while i < chars.len()
        invariant
            start <= i <= chars.len(),
            start < chars.len(),
            body == chars@.subrange(start as int, chars@.len() as int),
            forall|k: int| start <= k < i ==> is_digit(chars@[k]),
            acc == digits_value(chars@.subrange(start as int, i as int)),
            acc <= max,
        decreases chars.len() - i,
    {
        let c = chars[i];
        if !('0' <= c && c <= '9') {
            proof {
                assert(body[i - start] == c);
            }
            return None;
        }
        proof {
            assert(chars@.subrange(start as int, i + 1).drop_last() =~= chars@.subrange(
                start as int,
                i as int,
            ));
        }
        let d: u128 = (c as u32 - 48) as u128;
        acc = acc * 10 + d;
        if acc > max as u128 {
            proof {
                assert(chars@.subrange(start as int, i + 1) =~= body.subrange(0, i + 1 - start));
                lemma_digits_value_grows(body, i + 1 - start);
                if all_digits(body) {
                }
            }
            return None;
        }
        i = i + 1;
    }
    proof {
        assert(chars@.subrange(start as int, i as int) =~= body);
        assert forall|k: int| 0 <= k < body.len() implies is_digit(#[trigger] body[k]) by {
            assert(body[k] == chars@[start + k]);
        }
    }
    Some(acc as u64)
}

/// Reads an unsigned number no larger than `max` (as `str::parse` reads
/// `u16`, `u32` or `u64`).
pub fn parse_unsigned(text: &str, max: u64) -> (r: Option<u64>)
    ensures
        r == (match unsigned_within(text@, max as nat) {
            Some(v) => Some(v as u64),
            None => None,
        }),
{
    let chars = crate::text::to_chars(text);
    let start: usize = if chars.len() > 0 && chars[0] == '+' {
        1
    } else {
        0
    };
    proof {
        if start == 1 {
            assert(chars@.subrange(1, chars@.len() as int) =~= text@.drop_first());
        } else {
            assert(chars@.subrange(0, chars@.len() as int) =~= text@);
        }
    }
    digits_within(&chars, start, max)
}

/// Reads a signed 64-bit number (as `str::parse::<i64>` does).
pub fn parse_i64(text: &str) -> (r: Option<i64>)
    ensures
        r == i64_value(text@),
{
    let chars = crate::text::to_chars(text);
    if chars.len() > 0 && chars[0] == '-' {
        proof {
            assert(chars@.subrange(1, chars@.len() as int) =~= text@.drop_first());
        }
        match digits_within(&chars, 1, 0x8000_0000_0000_0000u64) {
            Some(v) => {
                if v == 0x8000_0000_0000_0000u64 {
                    Some(i64::MIN)
                } else {
                    let w: i64 = v as i64;
                    Some(-w)
                }
            },
            None => {
                proof {
                    let b = text@.drop_first();
                    if all_digits(b) {
                        assert(digits_value(b) > 0x8000_0000_0000_0000u64);
                    }
                }
                None
            },
        }
    } else {
        match parse_unsigned(text, 0x7fff_ffff_ffff_ffffu64) {
            Some(v) => Some(v as i64),
            None => None,
        }
    }
}

/// Reads a switch (as `str::parse::<bool>` does).
pub fn parse_bool(text: &str) -> (r: Option<bool>)
    ensures
        r == bool_value(text@),
{
    if crate::text::str_eq(text, "true") {
        Some(true)
    } else if crate::text::str_eq(text, "false") {
        Some(false)
    } else {
        None
    }
}

// ---------------------------------------------------------------------
// Reading the settings
// ---------------------------------------------------------------------

/// Why the settings could not be read: a required variable is missing, or
/// a variable does not hold a value of its kind.
#[derive(Debug, Clone)]
pub enum ConfigError {
    Missing { name: String },
    Invalid { name: String },
}

/// The error as the caller sees it: the variable, and whether it was
/// missing (else invalid).
pub open spec fn config_error_view(e: ConfigError) -> (Seq<char>, bool) {
    match e {
        ConfigError::Missing { name } => (name@, true),
        ConfigError::Invalid { name } => (name@, false),
    }
}

/// The variables as name and value pairs.
pub open spec fn env_view(vars: Seq<(String, String)>) -> Seq<(Seq<char>, Seq<char>)> {
    vars.map_values(|p: (String, String)| (p.0@, p.1@))
}

/// The value of the first variable called `name`.
pub open spec fn env_lookup(vars: Seq<(Seq<char>, Seq<char>)>, name: Seq<char>) -> Option<Seq<char>>
    decreases vars.len(),
{
    if vars.len() == 0 {
        None
    } else if vars[0].0 == name {
        Some(vars[0].1)
    } else {
        env_lookup(vars.drop_first(), name)
    }
}

/// The value of `name`, or `default` when it is not set.
pub open spec fn env_or(vars: Seq<(Seq<char>, Seq<char>)>, name: Seq<char>, default: Seq<char>) -> Seq<char> {
    match env_lookup(vars, name) {
        Some(v) => v,
        None => default,
    }
}

fn lookup(vars: &Vec<(String, String)>, name: &str) -> (r: Option<String>)
    ensures
        r matches Some(v) ==> env_lookup(env_view(vars@), name@) == Some(v@),
        r is None ==> env_lookup(env_view(vars@), name@) is None,
{
    let ghost e = env_view(vars@);
    proof {
        assert(e.subrange(0, e.len() as int) =~= e);
    }
    let mut i: usize = 0;
    while i < vars.len()
        invariant
            i <= vars.len(),
            e == env_view(vars@),
            env_lookup(e, name@) == env_lookup(e.subrange(i as int, e.len() as int), name@),
        decreases vars.len() - i,
    {
        let ghost rest = e.subrange(i as int, e.len() as int);
        proof {
            assert(rest[0] == (vars@[i as int].0@, vars@[i as int].1@));
            assert(rest.drop_first() =~= e.subrange(i + 1, e.len() as int));
        }
        if crate::text::str_eq(vars[i].0.as_str(), name) {
            return Some(vars[i].1.clone());
        }
        i = i + 1;
    }
    None
}

fn required(vars: &Vec<(String, String)>, name: &str) -> (r: Result<String, ConfigError>)
    ensures
        match env_lookup(env_view(vars@), name@) {
            Some(v) => r matches Ok(s) && s@ == v,
            None => r matches Err(e) && config_error_view(e) == (name@, true),
        },
{
    match lookup(vars, name) {
        Some(v) => Ok(v),
        None => Err(ConfigError::Missing { name: name.to_string() }),
    }
}

fn with_default(vars: &Vec<(String, String)>, name: &str, default: &str) -> (r: String)
    ensures
        r@ == env_or(env_view(vars@), name@, default@),
{
    match lookup(vars, name) {
        Some(v) => v,
        None => default.to_string(),
    }
}

fn unsigned_field(vars: &Vec<(String, String)>, name: &str, default: &str, max: u64) -> (r: Result<u64, ConfigError>)
    ensures
        match unsigned_within(env_or(env_view(vars@), name@, default@), max as nat) {
            Some(v) => r == Ok::<u64, ConfigError>(v as u64),
            None => r matches Err(e) && config_error_view(e) == (name@, false),
        },
{
    let text = with_default(vars, name, default);
    match parse_unsigned(text.as_str(), max) {
        Some(v) => Ok(v),
        None => Err(ConfigError::Invalid { name: name.to_string() }),
    }
}

fn i64_field(vars: &Vec<(String, String)>, name: &str, default: &str) -> (r: Result<i64, ConfigError>)
    ensures
        match i64_value(env_or(env_view(vars@), name@, default@)) {
            Some(v) => r == Ok::<i64, ConfigError>(v),
            None => r matches Err(e) && config_error_view(e) == (name@, false),
        },
{
    let text = with_default(vars, name, default);
    match parse_i64(text.as_str()) {
        Some(v) => Ok(v),
        None => Err(ConfigError::Invalid { name: name.to_string() }),
    }
}

fn bool_field(vars: &Vec<(String, String)>, name: &str, default: &str) -> (r: Result<bool, ConfigError>)
    ensures
        match bool_value(env_or(env_view(vars@), name@, default@)) {
            Some(v) => r == Ok::<bool, ConfigError>(v),
            None => r matches Err(e) && config_error_view(e) == (name@, false),
        },
{
    let text = with_default(vars, name, default);
    match parse_bool(text.as_str()) {
        Some(v) => Ok(v),
        None => Err(ConfigError::Invalid { name: name.to_string() }),
    }
}

/// The first variable, in the order the settings are read, that does not
/// read: a required one that is missing, or one that does not hold a value
/// of its kind (`true`/`false` for switches, decimal numbers within range
/// for numbers). Variables that are not set take their defaults.
pub open spec fn config_error_of(v: Seq<(Seq<char>, Seq<char>)>) -> Option<(Seq<char>, bool)> {
    if env_lookup(v, "DATABASE_URL"@) is None {
        Some(("DATABASE_URL"@, true))
    } else if unsigned_within(env_or(v, "DATABASE_MAX_CONNECTIONS"@, "20"@), u32::MAX as nat) is None {
        Some(("DATABASE_MAX_CONNECTIONS"@, false))
    } else if env_lookup(v, "REDIS_URL"@) is None {
        Some(("REDIS_URL"@, true))
    } else if env_lookup(v, "R2_ACCESS_KEY_ID"@) is None {
        Some(("R2_ACCESS_KEY_ID"@, true))
    } else if env_lookup(v, "R2_SECRET_ACCESS_KEY"@) is None {
        Some(("R2_SECRET_ACCESS_KEY"@, true))
    } else if env_lookup(v, "R2_ENDPOINT"@) is None {
        Some(("R2_ENDPOINT"@, true))
    } else if bool_value(env_or(v, "R2_FORCE_PATH_STYLE"@, "false"@)) is None {
        Some(("R2_FORCE_PATH_STYLE"@, false))
    } else if env_lookup(v, "R2_BUCKET_NAME"@) is None {
        Some(("R2_BUCKET_NAME"@, true))
    } else if env_lookup(v, "R2_PUBLIC_URL"@) is None {
        Some(("R2_PUBLIC_URL"@, true))
    } else if unsigned_within(env_or(v, "PORT"@, "3000"@), u16::MAX as nat) is None {
        Some(("PORT"@, false))
    } else if env_lookup(v, "JWT_SECRET"@) is None {
        Some(("JWT_SECRET"@, true))
    } else if env_lookup(v, "ADMIN_EMAIL"@) is None {
        Some(("ADMIN_EMAIL"@, true))
    } else if env_lookup(v, "ADMIN_PASSWORD_HASH"@) is None {
        Some(("ADMIN_PASSWORD_HASH"@, true))
    } else if bool_value(env_or(v, "ENABLE_ML_PROCESSING"@, "true"@)) is None {
        Some(("ENABLE_ML_PROCESSING"@, false))
    } else if bool_value(env_or(v, "ENABLE_VIRUS_SCAN"@, "false"@)) is None {
        Some(("ENABLE_VIRUS_SCAN"@, false))
    } else if unsigned_within(env_or(v, "RATE_LIMIT_UPLOADS_PER_IP"@, "100"@), u32::MAX as nat) is None {
        Some(("RATE_LIMIT_UPLOADS_PER_IP"@, false))
    } else if bool_value(env_or(v, "ENABLE_PENDING_AUTO_APPROVE"@, "true"@)) is None {
        Some(("ENABLE_PENDING_AUTO_APPROVE"@, false))
    } else if i64_value(env_or(v, "PENDING_AUTO_APPROVE_MINUTES"@, "30"@)) is None {
        Some(("PENDING_AUTO_APPROVE_MINUTES"@, false))
    } else if unsigned_within(env_or(v, "PENDING_AUTO_APPROVE_INTERVAL_SECONDS"@, "300"@), u64::MAX as nat) is None {
        Some(("PENDING_AUTO_APPROVE_INTERVAL_SECONDS"@, false))
    } else if i64_value(env_or(v, "PENDING_AUTO_APPROVE_BATCH_SIZE"@, "50"@)) is None {
        Some(("PENDING_AUTO_APPROVE_BATCH_SIZE"@, false))
    } else if bool_value(env_or(v, "IGNORE_MISSING_MIGRATIONS"@, "true"@)) is None {
        Some(("IGNORE_MISSING_MIGRATIONS"@, false))
    } else {
        None
    }
}

/// The settings hold what the variables say, defaults where unset.
pub open spec fn config_reads(c: Config, v: Seq<(Seq<char>, Seq<char>)>) -> bool {
    &&& env_lookup(v, "DATABASE_URL"@) == Some(c.database_url@)
    &&& unsigned_within(env_or(v, "DATABASE_MAX_CONNECTIONS"@, "20"@), u32::MAX as nat) == Some(c.database_max_connections as nat)
    &&& env_lookup(v, "REDIS_URL"@) == Some(c.redis_url@)
    &&& env_lookup(v, "R2_ACCESS_KEY_ID"@) == Some(c.r2_access_key_id@)
    &&& env_lookup(v, "R2_SECRET_ACCESS_KEY"@) == Some(c.r2_secret_access_key@)
    &&& env_lookup(v, "R2_ENDPOINT"@) == Some(c.r2_endpoint@)
    &&& c.r2_region@ == env_or(v, "R2_REGION"@, "auto"@)
    &&& bool_value(env_or(v, "R2_FORCE_PATH_STYLE"@, "false"@)) == Some(c.r2_force_path_style)
    &&& env_lookup(v, "R2_BUCKET_NAME"@) == Some(c.r2_bucket_name@)
    &&& env_lookup(v, "R2_PUBLIC_URL"@) == Some(c.r2_public_url@)
    &&& c.host@ == env_or(v, "HOST"@, "0.0.0.0"@)
    &&& unsigned_within(env_or(v, "PORT"@, "3000"@), u16::MAX as nat) == Some(c.port as nat)
    &&& env_lookup(v, "JWT_SECRET"@) == Some(c.jwt_secret@)
    &&& env_lookup(v, "ADMIN_EMAIL"@) == Some(c.admin_email@)
    &&& env_lookup(v, "ADMIN_PASSWORD_HASH"@) == Some(c.admin_password_hash@)
    &&& match c.city_discovery_user_agent {
        Some(s) => env_lookup(v, "CITY_DISCOVERY_USER_AGENT"@) == Some(s@),
        None => env_lookup(v, "CITY_DISCOVERY_USER_AGENT"@) is None,
    }
    &&& match c.huggingface_token {
        Some(s) => env_lookup(v, "HUGGINGFACE_TOKEN"@) == Some(s@),
        None => env_lookup(v, "HUGGINGFACE_TOKEN"@) is None,
    }
    &&& bool_value(env_or(v, "ENABLE_ML_PROCESSING"@, "true"@)) == Some(c.enable_ml_processing)
    &&& c.ml_model_path@ == env_or(v, "ML_MODEL_PATH"@, "./models/text_detector.onnx"@)
    &&& bool_value(env_or(v, "ENABLE_VIRUS_SCAN"@, "false"@)) == Some(c.enable_virus_scan)
    &&& unsigned_within(env_or(v, "RATE_LIMIT_UPLOADS_PER_IP"@, "100"@), u32::MAX as nat) == Some(c.rate_limit_uploads_per_ip as nat)
    &&& bool_value(env_or(v, "ENABLE_PENDING_AUTO_APPROVE"@, "true"@)) == Some(c.enable_pending_auto_approve)
    &&& i64_value(env_or(v, "PENDING_AUTO_APPROVE_MINUTES"@, "30"@)) == Some(c.pending_auto_approve_minutes)
    &&& unsigned_within(env_or(v, "PENDING_AUTO_APPROVE_INTERVAL_SECONDS"@, "300"@), u64::MAX as nat) == Some(c.pending_auto_approve_interval_seconds as nat)
    &&& i64_value(env_or(v, "PENDING_AUTO_APPROVE_BATCH_SIZE"@, "50"@)) == Some(c.pending_auto_approve_batch_size)
    &&& bool_value(env_or(v, "IGNORE_MISSING_MIGRATIONS"@, "true"@)) == Some(c.ignore_missing_migrations)
}

impl Config {
    /// Reads the settings from the variables of the environment, given as
    /// name and value pairs (the first pair with a name counts). Required
    /// variables must be set; the others take their defaults when unset.
    pub fn from_vars(vars: &Vec<(String, String)>) -> (r: Result<Config, ConfigError>)
        ensures
            match config_error_of(env_view(vars@)) {
                Some(e) => r matches Err(err) && config_error_view(err) == e,
                None => r matches Ok(c) && config_reads(c, env_view(vars@)),
            },
    {
        let database_url = match required(vars, "DATABASE_URL") {
            Ok(v) => v,
            Err(e) => return Err(e),
        };
        let database_max_connections: u32 = match unsigned_field(vars, "DATABASE_MAX_CONNECTIONS", "20", 0xffff_ffffu64) {
            Ok(v) => v as u32,
            Err(e) => return Err(e),
        };
        let redis_url = match required(vars, "REDIS_URL") {
            Ok(v) => v,
            Err(e) => return Err(e),
        };
        let r2_access_key_id = match required(vars, "R2_ACCESS_KEY_ID") {
            Ok(v) => v,
            Err(e) => return Err(e),
        };
        let r2_secret_access_key = match required(vars, "R2_SECRET_ACCESS_KEY") {
            Ok(v) => v,
            Err(e) => return Err(e),
        };
        let r2_endpoint = match required(vars, "R2_ENDPOINT") {
            Ok(v) => v,
            Err(e) => return Err(e),
        };
        let r2_region = with_default(vars, "R2_REGION", "auto");
        let r2_force_path_style = match bool_field(vars, "R2_FORCE_PATH_STYLE", "false") {
            Ok(v) => v,
            Err(e) => return Err(e),
        };
        let r2_bucket_name = match required(vars, "R2_BUCKET_NAME") {
            Ok(v) => v,
            Err(e) => return Err(e),
        };
        let r2_public_url = match required(vars, "R2_PUBLIC_URL") {
            Ok(v) => v,
            Err(e) => return Err(e),
        };
        let host = with_default(vars, "HOST", "0.0.0.0");
        let port: u16 = match unsigned_field(vars, "PORT", "3000", 0xffffu64) {
            Ok(v) => v as u16,
            Err(e) => return Err(e),
        };
        let jwt_secret = match required(vars, "JWT_SECRET") {
            Ok(v) => v,
            Err(e) => return Err(e),
        };
        let admin_email = match required(vars, "ADMIN_EMAIL") {
            Ok(v) => v,
            Err(e) => return Err(e),
        };
        let admin_password_hash = match required(vars, "ADMIN_PASSWORD_HASH") {
            Ok(v) => v,
            Err(e) => return Err(e),
        };
        let city_discovery_user_agent = lookup(vars, "CITY_DISCOVERY_USER_AGENT");
        let huggingface_token = lookup(vars, "HUGGINGFACE_TOKEN");
        let enable_ml_processing = match bool_field(vars, "ENABLE_ML_PROCESSING", "true") {
            Ok(v) => v,
            Err(e) => return Err(e),
        };
        let ml_model_path = with_default(vars, "ML_MODEL_PATH", "./models/text_detector.onnx");
        let enable_virus_scan = match bool_field(vars, "ENABLE_VIRUS_SCAN", "false") {
            Ok(v) => v,
            Err(e) => return Err(e),
        };
        let rate_limit_uploads_per_ip: u32 = match unsigned_field(vars, "RATE_LIMIT_UPLOADS_PER_IP", "100", 0xffff_ffffu64) {
            Ok(v) => v as u32,
            Err(e) => return Err(e),
        };
        let enable_pending_auto_approve = match bool_field(vars, "ENABLE_PENDING_AUTO_APPROVE", "true") {
            Ok(v) => v,
            Err(e) => return Err(e),
        };
        let pending_auto_approve_minutes = match i64_field(vars, "PENDING_AUTO_APPROVE_MINUTES", "30") {
            Ok(v) => v,
            Err(e) => return Err(e),
        };
        let pending_auto_approve_interval_seconds: u64 = match unsigned_field(vars, "PENDING_AUTO_APPROVE_INTERVAL_SECONDS", "300", 0xffff_ffff_ffff_ffffu64) {
            Ok(v) => v as u64,
            Err(e) => return Err(e),
        };
        let pending_auto_approve_batch_size = match i64_field(vars, "PENDING_AUTO_APPROVE_BATCH_SIZE", "50") {
            Ok(v) => v,
            Err(e) => return Err(e),
        };
        let ignore_missing_migrations = match bool_field(vars, "IGNORE_MISSING_MIGRATIONS", "true") {
            Ok(v) => v,
            Err(e) => return Err(e),
        };
        Ok(Config {
            database_url,
            database_max_connections,
            redis_url,
            r2_access_key_id,
            r2_secret_access_key,
            r2_endpoint,
            r2_region,
            r2_force_path_style,
            r2_bucket_name,
            r2_public_url,
            host,
            port,
            jwt_secret,
            admin_email,
            admin_password_hash,
            city_discovery_user_agent,
            huggingface_token,
            enable_ml_processing,
            ml_model_path,
            enable_virus_scan,
            rate_limit_uploads_per_ip,
            enable_pending_auto_approve,
            pending_auto_approve_minutes,
            pending_auto_approve_interval_seconds,
            pending_auto_approve_batch_size,
            ignore_missing_migrations,
        })
    }
}

} // verus!
