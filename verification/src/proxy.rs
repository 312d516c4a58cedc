//! Decisions of the forwarding proxy: upstream settings, endpoint URLs,
//! which response headers are forwarded, and where settings come from.

use vstd::prelude::*;
use vstd::string::*;

use crate::model_map::opt_str;
use crate::text::{trim_end_slashes, trim_trailing_slashes};

verus! {

/// Connection timeout used when none is given, in milliseconds.
pub const DEFAULT_CONNECT_TIMEOUT_MS: u64 = 30000;

/// Read timeout used when none is given, in milliseconds.
pub const DEFAULT_READ_TIMEOUT_MS: u64 = 300000;

/// Whole-request timeout used when none is given, in milliseconds.
pub const DEFAULT_TOTAL_TIMEOUT_MS: u64 = 600000;

/// Base URL used when neither a URL nor a variable holding one is given.
pub open spec fn default_base_url() -> Seq<char> {
    "http://localhost:8080/v1"@
}

/// How the proxy talks to its upstream.
pub struct UpstreamSettings {
    pub base_url: String,
    /// Value of the `Authorization` header sent with every request.
    pub authorization: Option<String>,
    pub connect_timeout_ms: u64,
    pub read_timeout_ms: u64,
    pub total_timeout_ms: u64,
}

/// `given`, or `default` when nothing is given.
pub open spec fn or_default(given: Option<u64>, default: u64) -> u64 {
    match given {
        Some(v) => v,
        None => default,
    }
}

impl UpstreamSettings {
    /// Settings for upstream `base_url` (trailing slashes removed), sending
    /// `Bearer <api_key>` when a key is given, with the given timeouts or
    /// the defaults.
    pub fn new(
        base_url: &str,
        api_key: Option<&str>,
        connect_timeout_ms: Option<u64>,
        read_timeout_ms: Option<u64>,
        total_timeout_ms: Option<u64>,
    ) -> (res: UpstreamSettings)
        ensures
            res.base_url@ == trim_trailing_slashes(base_url@),
            opt_str(res.authorization) == (match api_key {
                Some(k) => Some("Bearer "@ + k@),
                None => None,
            }),
            res.connect_timeout_ms == or_default(connect_timeout_ms, DEFAULT_CONNECT_TIMEOUT_MS),
            res.read_timeout_ms == or_default(read_timeout_ms, DEFAULT_READ_TIMEOUT_MS),
            res.total_timeout_ms == or_default(total_timeout_ms, DEFAULT_TOTAL_TIMEOUT_MS),
    {
        let authorization = match api_key {
            Some(k) => {
                let mut v = String::from_str("Bearer ");
                v.append(k);
                Some(v)
            },
            None => None,
        };
        UpstreamSettings {
            base_url: trim_end_slashes(base_url),
            authorization,
            connect_timeout_ms: match connect_timeout_ms {
                Some(v) => v,
                None => DEFAULT_CONNECT_TIMEOUT_MS,
            },
            read_timeout_ms: match read_timeout_ms {
                Some(v) => v,
                None => DEFAULT_READ_TIMEOUT_MS,
            },
            total_timeout_ms: match total_timeout_ms {
                Some(v) => v,
                None => DEFAULT_TOTAL_TIMEOUT_MS,
            },
        }
    }

    /// The upstream URL for `path`: the base URL followed by the path.
    pub fn endpoint(&self, path: &str) -> (res: String)
        ensures
            res@ == self.base_url@ + path@,
    {
        let mut result = String::new();
        result.append(self.base_url.as_str());
        result.append(path);
        result
    }
}

/// The hop-by-hop headers, which a proxy must not forward.
pub open spec fn hop_by_hop_headers() -> Seq<Seq<char>> {
    seq![
        "transfer-encoding"@,
        "te"@,
        "connection"@,
        "trailer"@,
        "upgrade"@,
        "proxy-authorization"@,
        "proxy-authenticate"@,
        "keep-alive"@,
    ]
}

/// Whether the (lower-case) header `name` is hop-by-hop.
pub fn is_hop_by_hop(name: &str) -> (res: bool)
    ensures
        res == hop_by_hop_headers().contains(name@),
{
    let n = String::from_str(name);
    let ghost hs = hop_by_hop_headers();
    let r = n == String::from_str("transfer-encoding") || n == String::from_str("te") || n
        == String::from_str("connection") || n == String::from_str("trailer") || n
        == String::from_str("upgrade") || n == String::from_str("proxy-authorization") || n
        == String::from_str("proxy-authenticate") || n == String::from_str("keep-alive");
    proof {
        if hs.contains(name@) {
            let i = choose|i: int| 0 <= i < hs.len() && hs[i] == name@;
            assert(0 <= i < 8);
        }
        if r {
            if n@ == "transfer-encoding"@ {
                assert(hs[0] == name@);
            } else if n@ == "te"@ {
                assert(hs[1] == name@);
            } else if n@ == "connection"@ {
                assert(hs[2] == name@);
            } else if n@ == "trailer"@ {
                assert(hs[3] == name@);
            } else if n@ == "upgrade"@ {
                assert(hs[4] == name@);
            } else if n@ == "proxy-authorization"@ {
                assert(hs[5] == name@);
            } else if n@ == "proxy-authenticate"@ {
                assert(hs[6] == name@);
            } else {
                assert(hs[7] == name@);
            }
        }
    }
    r
}

/// Where a setting's value comes from.
pub enum SettingSource {
    /// Given directly.
    Given(String),
    /// Read from the environment variable of that name.
    FromEnv(String),
    /// Not given: the default applies.
    Default,
}

/// A directly given value wins over a variable name, which wins over the default.
pub fn setting_source(given: Option<String>, env_name: Option<String>) -> (res: SettingSource)
    ensures
        match given {
            Some(v) => res == SettingSource::Given(v),
            None => match env_name {
                Some(n) => res == SettingSource::FromEnv(n),
                None => res == SettingSource::Default,
            },
        },
{
    match given {
        Some(v) => SettingSource::Given(v),
        None => match env_name {
            Some(n) => SettingSource::FromEnv(n),
            None => SettingSource::Default,
        },
    }
}

/// The base URL used when none is configured.
pub fn default_base_url_string() -> (res: String)
    ensures
        res@ == default_base_url(),
{
    String::from_str("http://localhost:8080/v1")
}

} // verus!
