//! Application configuration.
//!
//! The embedding process reads the raw environment values; the
//! constructor here assembles them, parsing the port and falling back to
//! the default where the text is not a port number.

use vstd::prelude::*;

verus! {

/// The default port the backend listens on when none is configured.
pub const DEFAULT_BACKEND_PORT: u16 = 8080;

/// The decimal value of a digit string, most significant first; digits
/// only, by construction of the callers.
pub open spec fn dec_value(s: Seq<char>) -> int
    decreases s.len(),
{
    if s.len() == 0 {
        0
    } else {
        dec_value(s.drop_last()) * 10 + (s.last() as u32 - '0' as u32)
    }
}

/// Whether every character is a decimal digit.
pub open spec fn all_digits(s: Seq<char>) -> bool {
    forall|i: int| 0 <= i < s.len() ==> '0' <= #[trigger] s[i] && s[i] <= '9'
}

/// What `str::parse::<u16>` yields: an optional leading `+`, then at
/// least one digit, with a value that fits.
pub open spec fn parse_u16_spec(s: Seq<char>) -> Option<u16> {
    let digits = if s.len() > 0 && s[0] == '+' {
        s.skip(1)
    } else {
        s
    };
    if digits.len() > 0 && all_digits(digits) && dec_value(digits) <= 0xFFFF {
        Some(dec_value(digits) as u16)
    } else {
        None
    }
}

/// A longer digit string never has a smaller value.
proof fn lemma_dec_value_nonneg(s: Seq<char>)
    requires
        all_digits(s),
    ensures
        dec_value(s) >= 0,
    decreases s.len(),
{
    if s.len() > 0 {
        assert(all_digits(s.drop_last()));
        lemma_dec_value_nonneg(s.drop_last());
        assert(s.last() as u32 >= '0' as u32);
    }
}

/// Parses a `u16` the way `str::parse` does.
pub fn parse_u16(s: &str) -> (r: Option<u16>)
    ensures
        r == parse_u16_spec(s@),
{
    let n = s.unicode_len();
    let start: usize = if n > 0 && s.get_char(0) == '+' { 1 } else { 0 };
    let ghost digits = if s@.len() > 0 && s@[0] == '+' { s@.skip(1) } else { s@ };
    if n == start {
        return None;
    }
    let mut acc: u32 = 0;
    let mut i: usize = start;
    while i < n
        invariant
            n == s@.len(),
            start <= i <= n,
            start == (if s@.len() > 0 && s@[0] == '+' { 1int } else { 0int }),
            digits == (if s@.len() > 0 && s@[0] == '+' { s@.skip(1) } else { s@ }),
            digits.len() == n - start,
            forall|k: int| 0 <= k < digits.len() ==> digits[k] == s@[k + start],
            all_digits(digits.subrange(0, i - start)),
            acc <= 100000,
            dec_value(digits.subrange(0, i - start)) <= 0xFFFF
                ==> acc == dec_value(digits.subrange(0, i - start)),
            dec_value(digits.subrange(0, i - start)) > 0xFFFF ==> acc == 100000,
        decreases n - i,
    {
        let c = s.get_char(i);
        if !('0' <= c && c <= '9') {
            proof {
                assert(digits[i - start] == c);
                assert(!all_digits(digits));
            }
            return None;
        }
        let d: u32 = c as u32 - 48;
        proof {
            let pfx = digits.subrange(0, i - start);
            let pfx2 = digits.subrange(0, i + 1 - start);
            assert(pfx2.drop_last() =~= pfx);
            assert(pfx2.last() == digits[i - start]);
            assert(digits[i - start] == c);
            lemma_dec_value_nonneg(pfx);
        }
        if acc > 0xFFFF {
            acc = 100000;
        } else {
            acc = acc * 10 + d;
            if acc > 0xFFFF {
                acc = 100000;
            }
        }
        i = i + 1;
    }
    proof {
        assert(digits.subrange(0, n - start) =~= digits);
    }
    if acc <= 0xFFFF {
        Some(acc as u16)
    } else {
        None
    }
}

/// The settings the service runs with, as read from the environment.
pub struct AppConfig {
    pub supabase_url: String,
    pub supabase_anon_key: String,
    pub supabase_service_role_key: String,
    pub supabase_jwt_secret: String,
    pub database_url: String,
    pub livekit_url: String,
    pub livekit_api_key: String,
    pub livekit_api_secret: String,
    pub backend_port: u16,
}

impl AppConfig {
    /// Builds the configuration from the raw environment values. The
    /// port falls back to the default when its text does not parse.
    pub fn from_env(
        supabase_url: String,
        supabase_anon_key: String,
        supabase_service_role_key: String,
        supabase_jwt_secret: String,
        database_url: String,
        livekit_url: String,
        livekit_api_key: String,
        livekit_api_secret: String,
        backend_port_text: &str,
    ) -> (c: AppConfig)
        ensures
            c.supabase_url == supabase_url,
            c.supabase_anon_key == supabase_anon_key,
            c.supabase_service_role_key == supabase_service_role_key,
            c.supabase_jwt_secret == supabase_jwt_secret,
            c.database_url == database_url,
            c.livekit_url == livekit_url,
            c.livekit_api_key == livekit_api_key,
            c.livekit_api_secret == livekit_api_secret,
            c.backend_port == match parse_u16_spec(backend_port_text@) {
                Some(p) => p,
                None => DEFAULT_BACKEND_PORT,
            },
    {
        let backend_port = match parse_u16(backend_port_text) {
            Some(p) => p,
            None => DEFAULT_BACKEND_PORT,
        };
        AppConfig {
            supabase_url,
            supabase_anon_key,
            supabase_service_role_key,
            supabase_jwt_secret,
            database_url,
            livekit_url,
            livekit_api_key,
            livekit_api_secret,
            backend_port,
        }
    }
}

} // verus!
