//! Judging the public-network probe.
use vstd::prelude::*;

use crate::text::{ascii_lowercase, chars_eq_str, chars_of, occurs_at, occurs_at_exec, to_ascii_lowercase};

verus! {

/// The host of an answer is Baidu's: `baidu.com` or one of its subdomains (any ASCII case).
pub open spec fn is_baidu_host(host: Seq<char>) -> bool {
    let h = ascii_lowercase(host);
    h == "baidu.com"@ || (h.len() >= 10 && occurs_at(h, ".baidu.com"@, h.len() - 10))
}

/// Whether an HTTPS answer from the probe URL proves the public network reachable: its
/// status is below 500 (from 200) and the final URL, after redirects, is still on Baidu's
/// host. A captive portal redirects elsewhere.
pub open spec fn probe_reply_ok_spec(status: u16, host: Option<Seq<char>>) -> bool {
    200 <= status < 500 && match host {
        Some(h) => is_baidu_host(h),
        None => false,
    }
}

/// Whether an HTTPS probe answer proves the public network reachable (see
/// [`probe_reply_ok_spec`]).
pub fn probe_reply_ok(status: u16, host: Option<&str>) -> (ok: bool)
    ensures
        ok == probe_reply_ok_spec(
            status,
            match host {
                Some(h) => Some(h@),
                None => None,
            },
        ),
{
    if !(200 <= status && status < 500) {
        return false;
    }
    match host {
        None => false,
        Some(h) => {
            let lower = to_ascii_lowercase(&chars_of(h));
            let suffix = chars_of(".baidu.com");
            proof {
                reveal_strlit(".baidu.com");
            }
            chars_eq_str(&lower, "baidu.com") || (lower.len() >= 10 && occurs_at_exec(
                &lower,
                &suffix,
                lower.len() - 10,
            ))
        },
    }
}

} // verus!
