//! Per-peer rate limiting of the HTTP API: the token-bucket parameters for
//! a requests-per-minute limit, and the bucket key of each request, which
//! exempts loopback traffic.

use vstd::prelude::*;

use crate::text::{decimal, decimal_exec, lemma_decimal_injective, owned, push_chars, copy_string};

verus! {

/// Token-bucket parameters: one token refills every `period_ms`
/// milliseconds, and the bucket holds `burst` tokens.
#[derive(Debug, Clone, Copy, PartialEq, Eq, Structural)]
pub struct RateConfig {
    pub period_ms: u64,
    pub burst: u32,
}

/// The bucket for `rpm` requests per minute: none when `rpm` is 0 (no
/// limit); else a token every `60000 / rpm` ms and a burst of a tenth of
/// the per-minute budget, at least 5.
pub open spec fn rate_config_of(rpm: u32) -> Option<RateConfig> {
    if rpm == 0 {
        None
    } else {
        Some(
            RateConfig {
                period_ms: (60000int / (rpm as int)) as u64,
                burst: if rpm / 10 >= 5 {
                    (rpm / 10) as u32
                } else {
                    5
                },
            },
        )
    }
}

/// The token bucket enforcing `rpm` requests per minute per peer.
pub fn build_config(rpm: u32) -> (r: Option<RateConfig>)
    ensures
        r == rate_config_of(rpm),
{
    if rpm == 0 {
        return None;
    }
    let period_ms: u64 = (60000u32 / rpm) as u64;
    let tenth: u32 = rpm / 10;
    let burst: u32 = if tenth >= 5 {
        tenth
    } else {
        5
    };
    Some(RateConfig { period_ms, burst })
}

/// The peer of a request, as the server saw it.
#[derive(Debug)]
pub struct Peer {
    /// Whether its address is a loopback address.
    pub loopback: bool,
    /// Its IP address as text.
    pub ip: String,
}

/// Why no bucket key could be made for a request.
#[derive(Debug, Clone, Copy, PartialEq, Eq, Structural)]
pub enum KeyError {
    /// The request carries no peer address.
    UnableToExtractKey,
}

/// Keys rate-limit buckets by peer IP, except that every loopback request
/// gets a bucket of its own (`lo:<n>` with a running counter), so local
/// traffic is never limited.
#[derive(Debug)]
pub struct LoopbackExemptKeyExtractor {
    counter: u64,
}

/// The key of the `n`-th loopback request.
pub open spec fn loopback_key(n: u64) -> Seq<char> {
    "lo:"@ + decimal(n as nat)
}

impl LoopbackExemptKeyExtractor {
    /// The counter the next loopback key takes.
    pub closed spec fn next(self) -> u64 {
        self.counter
    }

    /// A fresh extractor, counting from 0.
    pub fn new() -> (r: Self)
        ensures
            r.next() == 0,
    {
        LoopbackExemptKeyExtractor { counter: 0 }
    }

    /// The bucket key of a request from `peer`: the IP of a remote peer;
    /// for a loopback peer, `lo:<n>` with the running counter, which then
    /// advances (wrapping). A request with no peer is refused.
    pub fn extract(&mut self, peer: Option<&Peer>) -> (r: Result<String, KeyError>)
        ensures
            match peer {
                None => r == Err::<String, KeyError>(KeyError::UnableToExtractKey) && final(self).next()
                    == old(self).next(),
                Some(p) => if p.loopback {
                    r matches Ok(k) && k@ == loopback_key(old(self).next()) && final(self).next() == (
                    old(self).next() as int + 1) % 0x1_0000_0000_0000_0000
                } else {
                    r matches Ok(k) && k@ == p.ip@ && final(self).next() == old(self).next()
                },
            },
    {
        match peer {
            None => Err(KeyError::UnableToExtractKey),
            Some(p) => {
                if p.loopback {
                    let n = self.counter;
                    self.counter = n.wrapping_add(1);
                    let mut k = owned("lo:");
                    push_chars(&mut k, &decimal_exec(n));
                    Ok(k)
                } else {
                    Ok(copy_string(&p.ip))
                }
            },
        }
    }
}

/// Loopback requests never share a bucket: requests numbered differently
/// (fewer than 2^64 apart) get different keys.
pub proof fn law_loopback_keys_distinct(n: u64, m: u64)
    requires
        n != m,
    ensures
        loopback_key(n) != loopback_key(m),
{
    if loopback_key(n) == loopback_key(m) {
        reveal_strlit("lo:");
        assert(loopback_key(n).skip(3) =~= decimal(n as nat));
        assert(loopback_key(m).skip(3) =~= decimal(m as nat));
        lemma_decimal_injective(n as nat, m as nat);
    }
}

} // verus!
