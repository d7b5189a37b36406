//! Per-address and per-IP cooldowns between faucet claims.
//!
//! Times are nanoseconds on a monotonic clock that the caller reads; the
//! limiter keeps, for each address and each IP, the time of its last claim.

use vstd::prelude::*;
use vstd::string::StringSliceAdditionalSpecFns;

use crate::error::{push_str, push_u64};
use crate::types::decimal_chars;
use crate::keyed::{
    distinct_keys, lemma_pairs_map_index, lemma_pairs_map_push, lemma_pairs_map_update,
    pairs_map,
};

verus! {

/// An IP address as its bits: an IPv4 address as the 32-bit number of its
/// four octets read big-endian, an IPv6 address as the 128-bit number of its
/// sixteen.
#[derive(Clone, Copy, Debug, PartialEq, Eq, Structural)]
pub enum Ip {
    V4(u32),
    V6(u128),
}

/// Loopback: 127.0.0.0/8, or ::1.
pub open spec fn is_loopback(ip: Ip) -> bool {
    match ip {
        Ip::V4(b) => b >> 24u32 == 127,
        Ip::V6(b) => b == 1,
    }
}

/// Unspecified: 0.0.0.0, or ::.
pub open spec fn is_unspecified(ip: Ip) -> bool {
    match ip {
        Ip::V4(b) => b == 0,
        Ip::V6(b) => b == 0,
    }
}

/// Whether claims from this IP are limited: only routable addresses are.
pub open spec fn ip_is_limited(ip: Ip) -> bool {
    !is_loopback(ip) && !is_unspecified(ip)
}

/// Whether the IP is limited.
pub fn limited_ip(ip: Ip) -> (r: bool)
    ensures
        r == ip_is_limited(ip),
{
    match ip {
        Ip::V4(b) => b >> 24u32 != 127 && b != 0,
        Ip::V6(b) => b != 1 && b != 0,
    }
}

/// Nanoseconds in a second.
pub const NANOS_PER_SEC: u64 = 1_000_000_000;

/// Whole seconds left of a cooldown of `cooldown_secs` for a claim made at
/// `last`, seen at `now`: the cooldown less the time since, rounded down; or
/// `None` once the cooldown has passed. A clock that reads earlier than the
/// claim counts as no time having passed.
pub open spec fn wait_left(cooldown_secs: u64, last: u64, now: u64) -> Option<u64> {
    let elapsed = if now >= last {
        now - last
    } else {
        0
    };
    let whole = elapsed / NANOS_PER_SEC as int;
    let part = elapsed % NANOS_PER_SEC as int;
    if whole >= cooldown_secs {
        None
    } else if part == 0 {
        Some((cooldown_secs - whole) as u64)
    } else {
        Some((cooldown_secs - whole - 1) as u64)
    }
}

fn seconds_left(cooldown_secs: u64, last: u64, now: u64) -> (r: Option<u64>)
    ensures
        r == wait_left(cooldown_secs, last, now),
{
    let elapsed = now.saturating_sub(last);
    let whole = elapsed / NANOS_PER_SEC;
    let part = elapsed % NANOS_PER_SEC;
    if whole >= cooldown_secs {
        None
    } else if part == 0 {
        Some(cooldown_secs - whole)
    } else {
        Some(cooldown_secs - whole - 1)
    }
}

/// The limiter as values: last claim times by address bytes and by IP.
pub ghost struct LimiterModel {
    pub addresses: Map<Seq<u8>, u64>,
    pub ips: Map<Ip, u64>,
    pub cooldown_secs: u64,
}

/// The limiter after a claim by `address` and `ip` at `now`.
pub open spec fn recorded(l: LimiterModel, address: Seq<u8>, ip: Ip, now: u64) -> LimiterModel {
    LimiterModel {
        addresses: l.addresses.insert(address, now),
        ips: l.ips.insert(ip, now),
        cooldown_secs: l.cooldown_secs,
    }
}

/// Why a claim is refused and the seconds left, if it is: the address's
/// cooldown is looked at first, then, for a limited IP, the IP's.
pub open spec fn refusal(l: LimiterModel, address: Seq<u8>, ip: Ip, now: u64) -> Option<(bool, u64)> {
    if l.addresses.contains_key(address) && wait_left(
        l.cooldown_secs,
        l.addresses[address],
        now,
    ) is Some {
        Some((true, wait_left(l.cooldown_secs, l.addresses[address], now)->0))
    } else if ip_is_limited(ip) && l.ips.contains_key(ip) && wait_left(
        l.cooldown_secs,
        l.ips[ip],
        now,
    ) is Some {
        Some((false, wait_left(l.cooldown_secs, l.ips[ip], now)->0))
    } else {
        None
    }
}

/// The message of a refusal.
pub open spec fn refusal_message(by_address: bool, secs: u64) -> Seq<char> {
    (if by_address {
        "Address already claimed. Try again in "@
    } else {
        "IP already claimed. Try again in "@
    }) + decimal_chars(secs as nat) + "s."@
}

/// Tracks last-claim times per address and IP to enforce a cooldown.
pub struct RateLimiter {
    addresses: Vec<(Vec<u8>, u64)>,
    ips: Vec<(Ip, u64)>,
    cooldown_secs: u64,
}

/// The address pairs as values.
pub open spec fn address_pairs(v: Seq<(Vec<u8>, u64)>) -> Seq<(Seq<u8>, u64)> {
    v.map_values(|p: (Vec<u8>, u64)| (p.0@, p.1))
}

impl View for RateLimiter {
    type V = LimiterModel;

    closed spec fn view(&self) -> LimiterModel {
        LimiterModel {
            addresses: pairs_map(address_pairs(self.addresses@)),
            ips: pairs_map(self.ips@),
            cooldown_secs: self.cooldown_secs,
        }
    }
}

fn same_bytes(a: &[u8], b: &[u8]) -> (r: bool)
    ensures
        r == (a@ == b@),
{
    if a.len() != b.len() {
        return false;
    }
    let mut i: usize = 0;
    while i < a.len()
        invariant
            i <= a@.len() == b@.len(),
            forall|k: int| 0 <= k < i ==> a@[k] == b@[k],
        decreases a@.len() - i,
    {
        if a[i] != b[i] {
            return false;
        }
        i = i + 1;
    }
    assert(a@ =~= b@);
    true
}

fn find_address(v: &Vec<(Vec<u8>, u64)>, k: &[u8]) -> (r: Option<usize>)
    ensures
        match r {
            Some(i) => i < v@.len() && v@[i as int].0@ == k@,
            None => forall|i: int| 0 <= i < v@.len() ==> (#[trigger] v@[i]).0@ != k@,
        },
{
    let mut i: usize = 0;
    while i < v.len()
        invariant
            i <= v@.len(),
            forall|j: int| 0 <= j < i ==> (#[trigger] v@[j]).0@ != k@,
        decreases v@.len() - i,
    {
        if same_bytes(v[i].0.as_slice(), k) {
            return Some(i);
        }
        i = i + 1;
    }
    None
}

fn find_ip(v: &Vec<(Ip, u64)>, k: Ip) -> (r: Option<usize>)
    ensures
        match r {
            Some(i) => i < v@.len() && v@[i as int].0 == k,
            None => forall|i: int| 0 <= i < v@.len() ==> (#[trigger] v@[i]).0 != k,
        },
{
    let mut i: usize = 0;
    while i < v.len()
        invariant
            i <= v@.len(),
            forall|j: int| 0 <= j < i ==> (#[trigger] v@[j]).0 != k,
        decreases v@.len() - i,
    {
        if v[i].0 == k {
            return Some(i);
        }
        i = i + 1;
    }
    None
}

/// The map of the pairs at a found index holds the pair's value.
proof fn lemma_found<K, V>(s: Seq<(K, V)>, i: int, k: K)
    requires
        distinct_keys(s),
        0 <= i < s.len(),
        s[i].0 == k,
    ensures
        pairs_map(s).contains_key(k),
        pairs_map(s)[k] == s[i].1,
{
    lemma_pairs_map_index(s, i);
}

/// The map of pairs lacks a key that no pair has.
proof fn lemma_absent<K, V>(s: Seq<(K, V)>, k: K)
    requires
        forall|i: int| 0 <= i < s.len() ==> (#[trigger] s[i]).0 != k,
    ensures
        !pairs_map(s).contains_key(k),
{
    crate::keyed::lemma_pairs_map_dom(s, k);
}

impl RateLimiter {
    #[verifier::type_invariant]
    closed spec fn wf(&self) -> bool {
        &&& distinct_keys(address_pairs(self.addresses@))
        &&& distinct_keys(self.ips@)
    }

    /// A limiter with no claims and the given cooldown.
    pub fn new(cooldown_secs: u64) -> (r: Self)
        ensures
            r@.addresses == Map::<Seq<u8>, u64>::empty(),
            r@.ips == Map::<Ip, u64>::empty(),
            r@.cooldown_secs == cooldown_secs,
    {
        let r = RateLimiter { addresses: Vec::new(), ips: Vec::new(), cooldown_secs };
        assert(address_pairs(r.addresses@) =~= Seq::empty());
        r
    }

    /// The cooldown in seconds.
    pub fn cooldown_secs(&self) -> (r: u64)
        ensures
            r == self@.cooldown_secs,
    {
        self.cooldown_secs
    }

    fn address_wait(&self, address: &[u8], now: u64) -> (r: Option<u64>)
        ensures
            r == (if self@.addresses.contains_key(address@) {
                wait_left(self@.cooldown_secs, self@.addresses[address@], now)
            } else {
                None
            }),
    {
        proof {
            use_type_invariant(self);
        }
        let ghost s = address_pairs(self.addresses@);
        match find_address(&self.addresses, address) {
            Some(i) => {
                proof {
                    lemma_found(s, i as int, address@);
                }
                seconds_left(self.cooldown_secs, self.addresses[i].1, now)
            },
            None => {
                proof {
                    assert forall|i: int| 0 <= i < s.len() implies (#[trigger] s[i]).0
                        != address@ by {
                        assert(s[i].0 == self.addresses@[i].0@);
                    }
                    lemma_absent(s, address@);
                }
                None
            },
        }
    }

    fn ip_wait(&self, ip: Ip, now: u64) -> (r: Option<u64>)
        ensures
            r == (if self@.ips.contains_key(ip) {
                wait_left(self@.cooldown_secs, self@.ips[ip], now)
            } else {
                None
            }),
    {
        proof {
            use_type_invariant(self);
        }
        match find_ip(&self.ips, ip) {
            Some(i) => {
                proof {
                    lemma_found(self.ips@, i as int, ip);
                }
                seconds_left(self.cooldown_secs, self.ips[i].1, now)
            },
            None => {
                proof {
                    lemma_absent(self.ips@, ip);
                }
                None
            },
        }
    }

    /// Whether `address` (its text) and `ip` may claim at `now`; if not, the
    /// reason and the seconds left.
    pub fn check(&self, address: &str, ip: Ip, now: u64) -> (r: Result<(), (String, u64)>)
        ensures
            match refusal(self@, address.spec_bytes(), ip, now) {
                None => r is Ok,
                Some((by_address, secs)) => r matches Err((msg, left)) && left == secs && msg@
                    == refusal_message(by_address, secs),
            },
    {
        if let Some(secs) = self.address_wait(address.as_bytes(), now) {
            let mut msg = String::new();
            push_str(&mut msg, "Address already claimed. Try again in ");
            push_u64(&mut msg, secs);
            push_str(&mut msg, "s.");
            return Err((msg, secs));
        }
        if limited_ip(ip) {
            if let Some(secs) = self.ip_wait(ip, now) {
                let mut msg = String::new();
                push_str(&mut msg, "IP already claimed. Try again in ");
                push_u64(&mut msg, secs);
                push_str(&mut msg, "s.");
                return Err((msg, secs));
            }
        }
        Ok(())
    }

    /// Seconds left in the cooldown for `address` at `now`, or 0 if it may
    /// claim.
    pub fn seconds_remaining_for_address(&self, address: &str, now: u64) -> (r: u64)
        ensures
            r == (if self@.addresses.contains_key(address.spec_bytes()) && wait_left(
                self@.cooldown_secs,
                self@.addresses[address.spec_bytes()],
                now,
            ) is Some {
                wait_left(self@.cooldown_secs, self@.addresses[address.spec_bytes()], now)->0
            } else {
                0
            }),
    {
        match self.address_wait(address.as_bytes(), now) {
            Some(secs) => secs,
            None => 0,
        }
    }

    /// Record a claim by `address` and `ip` at `now`.
    pub fn record(&mut self, address: &str, ip: Ip, now: u64)
        ensures
            final(self)@ == recorded(old(self)@, address.spec_bytes(), ip, now),
    {
        proof {
            use_type_invariant(&*self);
        }
        let key = address.as_bytes();
        let mut addresses: Vec<(Vec<u8>, u64)> = Vec::new();
        std::mem::swap(&mut addresses, &mut self.addresses);
        let ghost s = address_pairs(addresses@);
        match find_address(&addresses, key) {
            Some(i) => {
                let k = copy_vec(&addresses[i].0);
                addresses.set(i, (k, now));
                proof {
                    lemma_pairs_map_update(s, i as int, now);
                    assert(address_pairs(addresses@) =~= s.update(i as int, (s[i as int].0, now)));
                }
            },
            None => {
                addresses.push((slice_to_vec(key), now));
                proof {
                    assert forall|i: int| 0 <= i < s.len() implies (#[trigger] s[i]).0
                        != key@ by {
                        assert(s[i].0 == old(self).addresses@[i].0@);
                    }
                    lemma_pairs_map_push(s, key@, now);
                    assert(address_pairs(addresses@) =~= s.push((key@, now)));
                }
            },
        }
        std::mem::swap(&mut addresses, &mut self.addresses);
        let mut ips: Vec<(Ip, u64)> = Vec::new();
        std::mem::swap(&mut ips, &mut self.ips);
        let ghost t = ips@;
        match find_ip(&ips, ip) {
            Some(i) => {
                ips.set(i, (ip, now));
                proof {
                    lemma_pairs_map_update(t, i as int, now);
                    assert(ips@ =~= t.update(i as int, (t[i as int].0, now)));
                }
            },
            None => {
                ips.push((ip, now));
                proof {
                    lemma_pairs_map_push(t, ip, now);
                }
            },
        }
        std::mem::swap(&mut ips, &mut self.ips);
    }
}

/// A limiter with no claims refuses nobody.
pub proof fn lemma_fresh_limiter_refuses_nobody(cooldown_secs: u64, address: Seq<u8>, ip: Ip, now: u64)
    ensures
        refusal(
            LimiterModel { addresses: Map::empty(), ips: Map::empty(), cooldown_secs },
            address,
            ip,
            now,
        ) is None,
{
}

/// Within the cooldown after a claim, the same address is refused, whatever
/// IP it comes from, and told the whole seconds left.
pub proof fn lemma_claim_blocks_address(
    l: LimiterModel,
    address: Seq<u8>,
    ip: Ip,
    at: u64,
    other_ip: Ip,
    now: u64,
)
    requires
        at <= now,
        now - at < l.cooldown_secs * NANOS_PER_SEC,
    ensures
        refusal(recorded(l, address, ip, at), address, other_ip, now) == Some(
            (true, wait_left(l.cooldown_secs, at, now)->0),
        ),
        wait_left(l.cooldown_secs, at, now) is Some,
{
    lemma_inside_cooldown(l.cooldown_secs, at, now);
}

/// Within the cooldown after a claim from a routable IP, every address
/// claiming from that IP for the first time is refused.
pub proof fn lemma_claim_blocks_ip(
    l: LimiterModel,
    address: Seq<u8>,
    ip: Ip,
    at: u64,
    other_address: Seq<u8>,
    now: u64,
)
    requires
        ip_is_limited(ip),
        !l.addresses.contains_key(other_address),
        other_address != address,
        at <= now,
        now - at < l.cooldown_secs * NANOS_PER_SEC,
    ensures
        refusal(recorded(l, address, ip, at), other_address, ip, now) == Some(
            (false, wait_left(l.cooldown_secs, at, now)->0),
        ),
{
    lemma_inside_cooldown(l.cooldown_secs, at, now);
}

/// Claims from a loopback or unspecified IP are only ever refused by address.
pub proof fn lemma_local_ip_never_limited(l: LimiterModel, address: Seq<u8>, ip: Ip, now: u64)
    requires
        !ip_is_limited(ip),
    ensures
        refusal(l, address, ip, now) matches Some((by_address, _)) ==> by_address,
{
}

/// Once the cooldown has passed, a claim no longer counts.
pub proof fn lemma_cooldown_passes(cooldown_secs: u64, at: u64, now: u64)
    requires
        at <= now,
        now - at >= cooldown_secs * NANOS_PER_SEC,
    ensures
        wait_left(cooldown_secs, at, now) is None,
{
    let e = now - at;
    assert(e / (NANOS_PER_SEC as int) >= cooldown_secs) by (nonlinear_arith)
        requires
            e >= cooldown_secs * NANOS_PER_SEC,
            e >= 0,
    ;
}

/// Inside the cooldown some whole seconds, at most the cooldown, are left.
proof fn lemma_inside_cooldown(cooldown_secs: u64, at: u64, now: u64)
    requires
        at <= now,
        now - at < cooldown_secs * NANOS_PER_SEC,
    ensures
        wait_left(cooldown_secs, at, now) is Some,
        wait_left(cooldown_secs, at, now)->0 <= cooldown_secs,
{
    let e = now - at;
    assert(e / (NANOS_PER_SEC as int) < cooldown_secs) by (nonlinear_arith)
        requires
            e < cooldown_secs * NANOS_PER_SEC,
            e >= 0,
    ;
}

fn copy_vec(v: &Vec<u8>) -> (r: Vec<u8>)
    ensures
        r@ == v@,
{
    slice_to_vec(v.as_slice())
}

fn slice_to_vec(v: &[u8]) -> (r: Vec<u8>)
    ensures
        r@ == v@,
{
    let mut r: Vec<u8> = Vec::new();
    let mut i: usize = 0;
    while i < v.len()
        invariant
            i <= v@.len(),
            r@ == v@.subrange(0, i as int),
        decreases v@.len() - i,
    {
        r.push(v[i]);
        i = i + 1;
        assert(r@ =~= v@.subrange(0, i as int));
    }
    assert(v@.subrange(0, v@.len() as int) =~= v@);
    r
}

} // verus!
