use vstd::prelude::*;

use crate::extract::drop_trailing;
use crate::numbers::{parse_usize, parse_usize_spec};
use crate::order::{insert_sorted_unique, str_eq, string_views, strictly_sorted};
use crate::text::{
    ascii_lower, chars_of, slice_chars, str_starts_with, starts_with_spec, string_of, to_ascii_lower,
    trim_spec, trim_str,
};
use crate::urls::{parse_url, parsed_url};

verus! {

/// The process environment as name/value pairs, in the order they were read.
pub type EnvVars = Vec<(String, String)>;

/// The views of environment pairs.
pub open spec fn env_view(vars: Seq<(String, String)>) -> Seq<(Seq<char>, Seq<char>)> {
    vars.map_values(|p: (String, String)| (p.0@, p.1@))
}

/// The value of the first variable called `name`.
pub open spec fn env_lookup(vars: Seq<(Seq<char>, Seq<char>)>, name: Seq<char>) -> Option<Seq<char>>
    decreases vars.len(),
{
    if vars.len() == 0 {
        None
    } else if vars[0].0 == name {
        Some(vars[0].1)
    } else {
        env_lookup(vars.skip(1), name)
    }
}

/// The trimmed value of `name`, when it is set and not blank.
pub open spec fn opt_env_spec(vars: Seq<(Seq<char>, Seq<char>)>, name: Seq<char>) -> Option<Seq<char>> {
    match env_lookup(vars, name) {
        Some(v) => if trim_spec(v).len() > 0 {
            Some(trim_spec(v))
        } else {
            None
        },
        None => None,
    }
}

/// The trimmed value of `name`, or `default` when it is unset or blank.
pub open spec fn env_string_spec(
    vars: Seq<(Seq<char>, Seq<char>)>,
    name: Seq<char>,
    default: Seq<char>,
) -> Seq<char> {
    match opt_env_spec(vars, name) {
        Some(v) => v,
        None => default,
    }
}

/// The trimmed value of the variable `name`, if it is set and not blank.
pub fn opt_env(vars: &EnvVars, name: &str) -> (r: Option<String>)
    ensures
        match (r, opt_env_spec(env_view(vars@), name@)) {
            (Some(v), Some(s)) => v@ == s,
            (None, None) => true,
            _ => false,
        },
{
    let mut i: usize = 0;
    assert(env_view(vars@).skip(0) =~= env_view(vars@));
    while i < vars.len()
        invariant
            i <= vars@.len(),
            env_lookup(env_view(vars@), name@) == env_lookup(env_view(vars@).skip(i as int), name@),
        decreases vars@.len() - i,
    {
        let ghost rest = env_view(vars@).skip(i as int);
        assert(rest[0] == (vars@[i as int].0@, vars@[i as int].1@));
        if str_eq(vars[i].0.as_str(), name) {
            let t = trim_str(vars[i].1.as_str());
            if t.unicode_len() > 0 {
                return Some(t);
            } else {
                return None;
            }
        }
        assert(rest.skip(1) =~= env_view(vars@).skip(i + 1));
        i = i + 1;
    }
    assert(env_view(vars@).skip(i as int) =~= Seq::<(Seq<char>, Seq<char>)>::empty());
    None
}

/// The trimmed value of the variable `name`, or `default`.
pub fn env_string(vars: &EnvVars, name: &str, default: &str) -> (r: String)
    ensures
        r@ == env_string_spec(env_view(vars@), name@, default@),
{
    match opt_env(vars, name) {
        Some(v) => v,
        None => default.to_string(),
    }
}

/// ASCII case-insensitive equality (`str::eq_ignore_ascii_case`).
pub open spec fn eq_ignore_ascii_case_spec(a: Seq<char>, b: Seq<char>) -> bool {
    a.len() == b.len() && forall|i: int| 0 <= i < a.len() ==> ascii_lower(#[trigger] a[i]) == ascii_lower(b[i])
}

fn eq_ignore_ascii_case(a: &str, b: &str) -> (r: bool)
    ensures
        r == eq_ignore_ascii_case_spec(a@, b@),
{
    let va = chars_of(a);
    let vb = chars_of(b);
    if va.len() != vb.len() {
        return false;
    }
    let mut i: usize = 0;
    while i < va.len()
        invariant
            i <= va@.len() == vb@.len(),
            va@ == a@,
            vb@ == b@,
            forall|j: int| 0 <= j < i ==> ascii_lower(#[trigger] va@[j]) == ascii_lower(vb@[j]),
        decreases va@.len() - i,
    {
        if to_ascii_lower(va[i]) != to_ascii_lower(vb[i]) {
            assert(ascii_lower(va@[i as int]) != ascii_lower(vb@[i as int]));
            assert(!eq_ignore_ascii_case_spec(a@, b@)) by {
                assert(a@[i as int] == va@[i as int]);
                assert(ascii_lower(a@[i as int]) != ascii_lower(b@[i as int]));
            }
            return false;
        }
        i = i + 1;
    }
    true
}

/// The development password: `dev-password` unless `APP_ENV` is `production`
/// (in any ASCII case).
pub open spec fn dev_password_spec(vars: Seq<(Seq<char>, Seq<char>)>) -> Option<Seq<char>> {
    let app_env = env_string_spec(vars, "APP_ENV"@, "development"@);
    if eq_ignore_ascii_case_spec(app_env, "production"@) {
        None
    } else {
        Some("dev-password"@)
    }
}

pub fn dev_password_fallback(vars: &EnvVars) -> (r: Option<String>)
    ensures
        match (r, dev_password_spec(env_view(vars@))) {
            (Some(v), Some(s)) => v@ == s,
            (None, None) => true,
            _ => false,
        },
{
    let app_env = env_string(vars, "APP_ENV", "development");
    if eq_ignore_ascii_case(app_env.as_str(), "production") {
        None
    } else {
        Some("dev-password".to_string())
    }
}

/// Server settings read from the environment.
pub struct Config {
    /// The socket address to listen on, as written (parsed by the server).
    pub bind_addr: String,
    pub public_base_url: String,
    pub frontend_dir: String,
    pub app_name: String,
    pub session_cookie_name: String,
    pub admin_username: String,
    pub admin_password: Option<String>,
    pub surreal_url: String,
    pub surreal_namespace: String,
    pub surreal_database: String,
    pub surreal_username: Option<String>,
    pub surreal_password: Option<String>,
    pub surreal_token: Option<String>,
    pub default_model_base_url: String,
    pub default_model_name: String,
    pub default_model_api_key: Option<String>,
    pub default_model_max_context_tokens: usize,
    pub tavily_api_key: Option<String>,
    pub asset_bucket: Option<String>,
    pub aws_endpoint_url_s3: Option<String>,
    pub aws_region: String,
    pub aws_access_key_id: Option<String>,
    pub aws_secret_access_key: Option<String>,
    pub local_asset_dir: String,
}

/// Why the environment does not describe a usable configuration.
#[derive(Debug, Clone, Copy, PartialEq, Eq)]
pub enum ConfigError {
    /// `BIND_ADDR` is not a socket address.
    InvalidBindAddr,
    /// `SURREALDB_URL` is unset or blank.
    MissingSurrealUrl,
    /// `MODEL_MAX_CONTEXT_TOKENS` is not a decimal number that fits a `usize`.
    InvalidMaxContextTokens,
}

/// The view of an optional string.
pub open spec fn opt_view(o: Option<String>) -> Option<Seq<char>> {
    match o {
        Some(s) => Some(s@),
        None => None,
    }
}

/// `a`, or else `b`.
pub open spec fn or_else<A>(a: Option<A>, b: Option<A>) -> Option<A> {
    match a {
        Some(x) => Some(x),
        None => b,
    }
}

fn or_else_string(a: Option<String>, b: Option<String>) -> (r: Option<String>)
    ensures
        opt_view(r) == or_else(opt_view(a), opt_view(b)),
{
    match a {
        Some(x) => Some(x),
        None => b,
    }
}

/// The maximum context size as configured.
pub open spec fn max_tokens_spec(vars: Seq<(Seq<char>, Seq<char>)>) -> Option<usize> {
    parse_usize_spec(env_string_spec(vars, "MODEL_MAX_CONTEXT_TOKENS"@, "120000"@))
}

impl Config {
    /// Whether `self` holds the settings that `vars` describe (given that they
    /// describe a usable configuration).
    pub open spec fn from_vars(self, v: Seq<(Seq<char>, Seq<char>)>) -> bool {
        &&& self.bind_addr@ == env_string_spec(v, "BIND_ADDR"@, "0.0.0.0:8080"@)
        &&& self.public_base_url@ == env_string_spec(v, "PUBLIC_BASE_URL"@, "http://127.0.0.1:8080"@)
        &&& self.frontend_dir@ == env_string_spec(v, "FRONTEND_DIR"@, "web/dist"@)
        &&& self.app_name@ == env_string_spec(v, "APP_NAME"@, "Kitchensink"@)
        &&& self.session_cookie_name@ == env_string_spec(v, "SESSION_COOKIE_NAME"@, "kitchensink_session"@)
        &&& self.admin_username@ == env_string_spec(v, "ADMIN_USERNAME"@, "operator"@)
        &&& opt_view(self.admin_password) == or_else(
            opt_env_spec(v, "APP_PASSWORD"@),
            or_else(opt_env_spec(v, "ADMIN_PASSWORD"@), dev_password_spec(v)),
        )
        &&& Some(self.surreal_url@) == opt_env_spec(v, "SURREALDB_URL"@)
        &&& self.surreal_namespace@ == env_string_spec(v, "SURREALDB_NAMESPACE"@, "main"@)
        &&& self.surreal_database@ == env_string_spec(v, "SURREALDB_DATABASE"@, "main"@)
        &&& opt_view(self.surreal_username) == opt_env_spec(v, "SURREALDB_USERNAME"@)
        &&& opt_view(self.surreal_password) == opt_env_spec(v, "SURREALDB_PASSWORD"@)
        &&& opt_view(self.surreal_token) == opt_env_spec(v, "SURREALDB_TOKEN"@)
        &&& self.default_model_base_url@ == env_string_spec(
            v,
            "OPENAI_BASE_URL"@,
            env_string_spec(v, "OPENROUTER_BASE_URL"@, "https://openrouter.ai/api/v1"@),
        )
        &&& self.default_model_name@ == env_string_spec(v, "OPENAI_MODEL"@, "openai/gpt-5.4"@)
        &&& opt_view(self.default_model_api_key) == or_else(
            opt_env_spec(v, "OPENAI_API_KEY"@),
            opt_env_spec(v, "OPENROUTER_API_KEY"@),
        )
        &&& Some(self.default_model_max_context_tokens) == max_tokens_spec(v)
        &&& opt_view(self.tavily_api_key) == opt_env_spec(v, "TAVILY_API_KEY"@)
        &&& opt_view(self.asset_bucket) == opt_env_spec(v, "BUCKET_NAME"@)
        &&& opt_view(self.aws_endpoint_url_s3) == opt_env_spec(v, "AWS_ENDPOINT_URL_S3"@)
        &&& self.aws_region@ == env_string_spec(v, "AWS_REGION"@, "auto"@)
        &&& opt_view(self.aws_access_key_id) == opt_env_spec(v, "AWS_ACCESS_KEY_ID"@)
        &&& opt_view(self.aws_secret_access_key) == opt_env_spec(v, "AWS_SECRET_ACCESS_KEY"@)
        &&& self.local_asset_dir@ == env_string_spec(v, "LOCAL_ASSET_DIR"@, ".data/assets"@)
    }

    /// The address to listen on as configured: `BIND_ADDR`, or `0.0.0.0:8080`.
    pub open spec fn bind_address_spec(v: Seq<(Seq<char>, Seq<char>)>) -> Seq<char> {
        env_string_spec(v, "BIND_ADDR"@, "0.0.0.0:8080"@)
    }

    pub fn bind_address(vars: &EnvVars) -> (r: String)
        ensures
            r@ == Self::bind_address_spec(env_view(vars@)),
    {
        env_string(vars, "BIND_ADDR", "0.0.0.0:8080")
    }

    /// Reads the configuration from the environment variables `vars`:
    /// the bind address must be a socket address, `SURREALDB_URL` is
    /// required, `MODEL_MAX_CONTEXT_TOKENS` must be a number, everything else
    /// has a default. Socket addresses are parsed by std, which the library
    /// cannot call: `bind_addr_parses` is whether the text that
    /// `bind_address` reads parses as one. The checks are made in that order.
    pub fn from_env(vars: &EnvVars, bind_addr_parses: bool) -> (r: Result<Config, ConfigError>)
        ensures
            !bind_addr_parses ==> r == Err::<Config, ConfigError>(ConfigError::InvalidBindAddr),
            bind_addr_parses && opt_env_spec(env_view(vars@), "SURREALDB_URL"@) is None ==> r == Err::<
                Config,
                ConfigError,
            >(ConfigError::MissingSurrealUrl),
            bind_addr_parses && opt_env_spec(env_view(vars@), "SURREALDB_URL"@) is Some && max_tokens_spec(
                env_view(vars@),
            ) is None ==> r == Err::<Config, ConfigError>(ConfigError::InvalidMaxContextTokens),
            r is Ok <==> bind_addr_parses && opt_env_spec(env_view(vars@), "SURREALDB_URL"@) is Some
                && max_tokens_spec(env_view(vars@)) is Some,
            r matches Ok(c) ==> c.from_vars(env_view(vars@)),
    {
        if !bind_addr_parses {
            return Err(ConfigError::InvalidBindAddr);
        }
        let bind_addr = env_string(vars, "BIND_ADDR", "0.0.0.0:8080");
        let public_base_url = env_string(vars, "PUBLIC_BASE_URL", "http://127.0.0.1:8080");
        let frontend_dir = env_string(vars, "FRONTEND_DIR", "web/dist");
        let app_name = env_string(vars, "APP_NAME", "Kitchensink");
        let session_cookie_name = env_string(vars, "SESSION_COOKIE_NAME", "kitchensink_session");
        let admin_username = env_string(vars, "ADMIN_USERNAME", "operator");
        let admin_password = or_else_string(
            opt_env(vars, "APP_PASSWORD"),
            or_else_string(opt_env(vars, "ADMIN_PASSWORD"), dev_password_fallback(vars)),
        );
        let surreal_url = match opt_env(vars, "SURREALDB_URL") {
            Some(u) => u,
            None => return Err(ConfigError::MissingSurrealUrl),
        };
        let surreal_namespace = env_string(vars, "SURREALDB_NAMESPACE", "main");
        let surreal_database = env_string(vars, "SURREALDB_DATABASE", "main");
        let surreal_username = opt_env(vars, "SURREALDB_USERNAME");
        let surreal_password = opt_env(vars, "SURREALDB_PASSWORD");
        let surreal_token = opt_env(vars, "SURREALDB_TOKEN");
        let router_base = env_string(vars, "OPENROUTER_BASE_URL", "https://openrouter.ai/api/v1");
        let default_model_base_url = env_string(vars, "OPENAI_BASE_URL", router_base.as_str());
        let default_model_name = env_string(vars, "OPENAI_MODEL", "openai/gpt-5.4");
        let default_model_api_key = or_else_string(
            opt_env(vars, "OPENAI_API_KEY"),
            opt_env(vars, "OPENROUTER_API_KEY"),
        );
        let tokens_text = env_string(vars, "MODEL_MAX_CONTEXT_TOKENS", "120000");
        let default_model_max_context_tokens = match parse_usize(tokens_text.as_str()) {
            Some(n) => n,
            None => return Err(ConfigError::InvalidMaxContextTokens),
        };
        let tavily_api_key = opt_env(vars, "TAVILY_API_KEY");
        let asset_bucket = opt_env(vars, "BUCKET_NAME");
        let aws_endpoint_url_s3 = opt_env(vars, "AWS_ENDPOINT_URL_S3");
        let aws_region = env_string(vars, "AWS_REGION", "auto");
        let aws_access_key_id = opt_env(vars, "AWS_ACCESS_KEY_ID");
        let aws_secret_access_key = opt_env(vars, "AWS_SECRET_ACCESS_KEY");
        let local_asset_dir = env_string(vars, "LOCAL_ASSET_DIR", ".data/assets");
        Ok(Config {
            bind_addr,
            public_base_url,
            frontend_dir,
            app_name,
            session_cookie_name,
            admin_username,
            admin_password,
            surreal_url,
            surreal_namespace,
            surreal_database,
            surreal_username,
            surreal_password,
            surreal_token,
            default_model_base_url,
            default_model_name,
            default_model_api_key,
            default_model_max_context_tokens,
            tavily_api_key,
            asset_bucket,
            aws_endpoint_url_s3,
            aws_region,
            aws_access_key_id,
            aws_secret_access_key,
            local_asset_dir,
        })
    }

    /// Cookies are marked secure when the public URL uses HTTPS.
    pub fn secure_cookies(&self) -> (r: bool)
        ensures
            r == starts_with_spec(self.public_base_url@, "https://"@),
    {
        str_starts_with(self.public_base_url.as_str(), "https://")
    }

    /// The origin of the public URL, without a trailing slash, when it parses.
    pub open spec fn public_origin(self) -> Option<Seq<char>> {
        match parsed_url(self.public_base_url@) {
            Ok(p) => Some(drop_trailing(p.3, '/')),
            Err(_) => None,
        }
    }

    /// The origins from which state-changing requests are accepted.
    pub open spec fn allowed_origin_set(self) -> Set<Seq<char>> {
        let local = set![
            "http://127.0.0.1:8080"@,
            "http://localhost:8080"@,
            "http://127.0.0.1:5173"@,
            "http://localhost:5173"@,
        ];
        match self.public_origin() {
            Some(o) => local.insert(o),
            None => local,
        }
    }

    /// The local development origins and the origin of the public URL, sorted
    /// and without repeats.
    pub fn allowed_origins(&self) -> (r: Vec<String>)
        ensures
            strictly_sorted(string_views(r@)),
            string_views(r@).to_set() == self.allowed_origin_set(),
    {
        let mut origins: Vec<String> = Vec::new();
        insert_sorted_unique(&mut origins, "http://127.0.0.1:8080".to_string());
        insert_sorted_unique(&mut origins, "http://localhost:8080".to_string());
        insert_sorted_unique(&mut origins, "http://127.0.0.1:5173".to_string());
        insert_sorted_unique(&mut origins, "http://localhost:5173".to_string());
        let ghost local = set![
            "http://127.0.0.1:8080"@,
            "http://localhost:8080"@,
            "http://127.0.0.1:5173"@,
            "http://localhost:5173"@,
        ];
        assert(string_views(origins@).to_set() =~= local);
        match parse_url(self.public_base_url.as_str()) {
            Ok(parts) => {
                let o = chars_of(parts.origin.as_str());
                let origin = if o.len() > 0 && o[o.len() - 1] == '/' {
                    string_of(slice_chars(o.as_slice(), 0, o.len() - 1).as_slice())
                } else {
                    parts.origin
                };
                assert(origin@ == drop_trailing(parts.origin@, '/'));
                // a parsed origin never ends in '/', so nothing is dropped
                assert(origin@ == parts.origin@);
                insert_sorted_unique(&mut origins, origin);
            },
            Err(_) => {},
        }
        origins
    }
}

} // verus!
