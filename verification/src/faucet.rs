//! The testnet faucet: its configuration, claim cooldowns, and the handling
//! of Discord interactions.

use vstd::prelude::*;
use vstd::string::StringSliceAdditionalSpecFns;

pub mod rate_limit;

use crate::address::str_chars;
use crate::error::push_str;
use crate::explorer::{begins_with, chars_begin_with};
use crate::faucet::rate_limit::{refusal, refusal_message, Ip, RateLimiter};
use crate::text::{parse_u64, parsed_u64, trim_chars, trimmed};
use crate::types::string_from_chars;
use vstd::utf8::encode_utf8;
use crate::constants::COIN;
use crate::hexcode::{hex_decode, hex_decoded, hex_ok};
use crate::crypto::{array64, array32_of, ed25519_valid_point, ed25519_verifies, point_is_valid, signature_verifies};

verus! {

#[verifier::external_type_specification]
#[verifier::external_body]
pub struct ExPathBuf(std::path::PathBuf);

/// Faucet configuration.
#[derive(Debug)]
pub struct Config {
    /// Path to the faucet wallet file.
    pub wallet_path: std::path::PathBuf,
    /// Wallet decryption password.
    pub wallet_password: String,
    /// Node JSON-RPC endpoint.
    pub rpc_endpoint: String,
    /// Address to bind the HTTP server.
    pub bind_addr: String,
    /// Amount to dispense per request, in rills.
    pub amount_rills: u64,
    /// Cooldown between claims per address or IP, in seconds.
    pub cooldown_secs: u64,
    /// Discord bot token (enables Discord integration).
    pub discord_bot_token: Option<String>,
    /// Discord application Ed25519 public key, hex-encoded.
    pub discord_public_key: Option<String>,
    /// Discord application ID.
    pub discord_app_id: Option<String>,
}

/// `amount_rill` whole RILL in rills, `None` on overflow.
pub fn amount_in_rills(amount_rill: u64) -> (r: Option<u64>)
    ensures
        amount_rill * COIN <= u64::MAX ==> r == Some((amount_rill * COIN) as u64),
        amount_rill * COIN > u64::MAX ==> r is None,
{
    amount_rill.checked_mul(COIN)
}

/// Why the faucet settings cannot make a configuration.
#[derive(Clone, Copy, Debug, PartialEq, Eq, Structural)]
pub enum ConfigError {
    /// No wallet password was given.
    MissingPassword,
    /// The amount is not a number.
    AmountNotNumber,
    /// The amount in rills does not fit 64 bits.
    AmountOverflow,
    /// The cooldown is not a number.
    CooldownNotNumber,
}

impl ConfigError {
    /// The human-readable message, naming the setting.
    pub fn message(&self) -> (r: &'static str)
        ensures
            r@ == config_error_message(*self),
    {
        match self {
            ConfigError::MissingPassword => "FAUCET_WALLET_PASSWORD is required",
            ConfigError::AmountNotNumber => "FAUCET_AMOUNT_RILL must be a positive integer",
            ConfigError::AmountOverflow => "FAUCET_AMOUNT_RILL overflow",
            ConfigError::CooldownNotNumber => "FAUCET_COOLDOWN_SECS must be a positive integer",
        }
    }
}

/// The message of each configuration error.
pub open spec fn config_error_message(e: ConfigError) -> Seq<char> {
    match e {
        ConfigError::MissingPassword => "FAUCET_WALLET_PASSWORD is required"@,
        ConfigError::AmountNotNumber => "FAUCET_AMOUNT_RILL must be a positive integer"@,
        ConfigError::AmountOverflow => "FAUCET_AMOUNT_RILL overflow"@,
        ConfigError::CooldownNotNumber => "FAUCET_COOLDOWN_SECS must be a positive integer"@,
    }
}

/// The amount in rills and the cooldown from the settings, or the first
/// setting that fails: the password, then the amount, then the cooldown.
pub open spec fn faucet_settings(password_set: bool, amount: Seq<char>, cooldown: Seq<char>) -> Result<(u64, u64), ConfigError> {
    if !password_set {
        Err(ConfigError::MissingPassword)
    } else {
        match parsed_u64(amount) {
            None => Err(ConfigError::AmountNotNumber),
            Some(a) => if a * COIN > u64::MAX {
                Err(ConfigError::AmountOverflow)
            } else {
                match parsed_u64(cooldown) {
                    None => Err(ConfigError::CooldownNotNumber),
                    Some(c) => Ok(((a * COIN) as u64, c)),
                }
            },
        }
    }
}

/// A setting's text, or its default when it is not set.
pub open spec fn setting_or(v: Option<String>, default: Seq<char>) -> Seq<char> {
    match v {
        Some(s) => s@,
        None => default,
    }
}

fn text_or(v: Option<String>, default: &str) -> (r: String)
    ensures
        r@ == setting_or(v, default@),
{
    match v {
        Some(s) => s,
        None => {
            let mut s = String::new();
            push_str(&mut s, default);
            s
        },
    }
}

impl Config {
    /// A configuration from its settings, each `None` when unset: the
    /// password is required; the endpoint, bind address, amount (in whole
    /// RILL) and cooldown (in seconds) have defaults; the amount and cooldown
    /// must read as numbers and the amount must fit 64 bits in rills. The
    /// errors are checked in that order.
    pub fn from_settings(
        wallet_path: std::path::PathBuf,
        wallet_password: Option<String>,
        rpc_endpoint: Option<String>,
        bind_addr: Option<String>,
        amount_rill: Option<String>,
        cooldown_secs: Option<String>,
        discord_bot_token: Option<String>,
        discord_public_key: Option<String>,
        discord_app_id: Option<String>,
    ) -> (r: Result<Config, ConfigError>)
        ensures
            match r {
                Err(e) => faucet_settings(
                    wallet_password is Some,
                    setting_or(amount_rill, "10"@),
                    setting_or(cooldown_secs, "86400"@),
                ) == Err::<(u64, u64), ConfigError>(e),
                Ok(c) => {
                    &&& faucet_settings(
                        wallet_password is Some,
                        setting_or(amount_rill, "10"@),
                        setting_or(cooldown_secs, "86400"@),
                    ) == Ok::<(u64, u64), ConfigError>((c.amount_rills, c.cooldown_secs))
                    &&& c.wallet_path == wallet_path
                    &&& wallet_password == Some(c.wallet_password)
                    &&& c.rpc_endpoint@ == setting_or(rpc_endpoint, "http://127.0.0.1:28332"@)
                    &&& c.bind_addr@ == setting_or(bind_addr, "0.0.0.0:8080"@)
                    &&& c.discord_bot_token == discord_bot_token
                    &&& c.discord_public_key == discord_public_key
                    &&& c.discord_app_id == discord_app_id
                },
            },
    {
        let wallet_password = match wallet_password {
            Some(p) => p,
            None => return Err(ConfigError::MissingPassword),
        };
        let rpc_endpoint = text_or(rpc_endpoint, "http://127.0.0.1:28332");
        let bind_addr = text_or(bind_addr, "0.0.0.0:8080");
        let amount_text = text_or(amount_rill, "10");
        let amount = match parse_u64(amount_text.as_str()) {
            Some(a) => a,
            None => return Err(ConfigError::AmountNotNumber),
        };
        let amount_rills = match amount_in_rills(amount) {
            Some(a) => a,
            None => return Err(ConfigError::AmountOverflow),
        };
        let cooldown_text = text_or(cooldown_secs, "86400");
        let cooldown_secs = match parse_u64(cooldown_text.as_str()) {
            Some(c) => c,
            None => return Err(ConfigError::CooldownNotNumber),
        };
        Ok(Config {
            wallet_path,
            wallet_password,
            rpc_endpoint,
            bind_addr,
            amount_rills,
            cooldown_secs,
            discord_bot_token,
            discord_public_key,
            discord_app_id,
        })
    }

    /// The amount dispensed per request, in whole RILL (rounded down).
    pub fn amount_rill(&self) -> (r: u64)
        ensures
            r == self.amount_rills / COIN,
    {
        self.amount_rills / COIN
    }
}

/// Whether a Discord interaction is signed: the public key is 32 bytes of
/// hex naming a valid point, the signature 64 bytes of hex, and the signature
/// verifies for the timestamp's bytes followed by the body.
pub open spec fn spec_verify_signature(pk_hex: Seq<u8>, sig_hex: Seq<u8>, timestamp: Seq<u8>, body: Seq<u8>) -> bool {
    &&& hex_ok(pk_hex)
    &&& hex_decoded(pk_hex).len() == 32
    &&& ed25519_valid_point(hex_decoded(pk_hex))
    &&& hex_ok(sig_hex)
    &&& hex_decoded(sig_hex).len() == 64
    &&& ed25519_verifies(hex_decoded(pk_hex), timestamp + body, hex_decoded(sig_hex))
}

/// Verify a Discord Ed25519 interaction signature: the signed message is the
/// timestamp followed by the raw request body.
pub fn verify_signature(public_key_hex: &str, signature_hex: &str, timestamp: &str, body: &[u8]) -> (r: bool)
    ensures
        r == spec_verify_signature(
            public_key_hex.spec_bytes(),
            signature_hex.spec_bytes(),
            timestamp.spec_bytes(),
            body@,
        ),
{
    let pk_bytes = match hex_decode(public_key_hex.as_bytes()) {
        Some(v) => v,
        None => {
            return false;
        },
    };
    if pk_bytes.len() != 32 {
        return false;
    }
    let pk = array32_of(pk_bytes.as_slice());
    if !point_is_valid(&pk) {
        return false;
    }
    let sig_bytes = match hex_decode(signature_hex.as_bytes()) {
        Some(v) => v,
        None => {
            return false;
        },
    };
    if sig_bytes.len() != 64 {
        return false;
    }
    let sig = array64(sig_bytes.as_slice());
    let ts = timestamp.as_bytes();
    let mut message: Vec<u8> = Vec::new();
    let mut i: usize = 0;
    while i < ts.len()
        invariant
            i <= ts@.len(),
            message@ == ts@.take(i as int),
        decreases ts@.len() - i,
    {
        message.push(ts[i]);
        i = i + 1;
        assert(message@ =~= ts@.take(i as int));
    }
    let mut j: usize = 0;
    while j < body.len()
        invariant
            j <= body@.len(),
            message@ == ts@ + body@.take(j as int),
        decreases body@.len() - j,
    {
        message.push(body[j]);
        j = j + 1;
        assert(message@ =~= ts@ + body@.take(j as int));
    }
    proof {
        assert(ts@.take(ts@.len() as int) =~= ts@);
        assert(body@.take(body@.len() as int) =~= body@);
    }
    signature_verifies(&pk, message.as_slice(), &sig)
}

/// Why a Discord interaction is refused before it is read.
#[derive(Clone, Copy, Debug, PartialEq, Eq, Structural)]
pub enum InteractionRejection {
    /// No Discord public key is configured (HTTP 404).
    NotConfigured,
    /// The signature does not verify (HTTP 401).
    InvalidSignature,
}

/// Refuse an interaction when Discord is not configured or its signature
/// does not verify.
pub fn check_interaction(public_key_hex: Option<&str>, signature_hex: &str, timestamp: &str, body: &[u8]) -> (r:
    Result<(), InteractionRejection>)
    ensures
        public_key_hex is None ==> r == Err::<(), InteractionRejection>(InteractionRejection::NotConfigured),
        public_key_hex matches Some(k) ==> (r is Ok <==> spec_verify_signature(
            k.spec_bytes(),
            signature_hex.spec_bytes(),
            timestamp.spec_bytes(),
            body@,
        )),
        public_key_hex is Some && r is Err ==> r == Err::<(), InteractionRejection>(
            InteractionRejection::InvalidSignature,
        ),
{
    match public_key_hex {
        None => Err(InteractionRejection::NotConfigured),
        Some(k) => {
            if verify_signature(k, signature_hex, timestamp, body) {
                Ok(())
            } else {
                Err(InteractionRejection::InvalidSignature)
            }
        },
    }
}

/// What to do with a verified interaction.
#[derive(Clone, Copy, Debug, PartialEq, Eq, Structural)]
pub enum InteractionStep {
    /// Answer a ping with a pong.
    Pong,
    /// The user claimed recently: reply with the seconds left.
    CoolingDown(u64),
    /// The address is not a testnet address.
    InvalidAddress,
    /// Send the faucet amount to the address.
    Send,
    /// A command other than `faucet`.
    UnknownCommand,
    /// An interaction type other than ping or command (HTTP 400).
    UnsupportedType,
}

/// Whether the characters start with `trill1`.
pub open spec fn is_testnet_text(s: Seq<char>) -> bool {
    s.len() >= 6 && s.take(6) == seq!['t', 'r', 'i', 'l', 'l', '1']
}

/// The next step for an interaction of `interaction_type` (1 ping, 2
/// command) naming `command` with the trimmed `address` option, when the
/// user's cooldown has `cooldown_left` seconds to go (`None` once passed).
pub open spec fn spec_route_interaction(
    interaction_type: u64,
    command: Seq<char>,
    address: Seq<char>,
    cooldown_left: Option<u64>,
) -> InteractionStep {
    if interaction_type == 1 {
        InteractionStep::Pong
    } else if interaction_type == 2 {
        if command == seq!['f', 'a', 'u', 'c', 'e', 't'] {
            match cooldown_left {
                Some(n) => InteractionStep::CoolingDown(n),
                None => if is_testnet_text(address) {
                    InteractionStep::Send
                } else {
                    InteractionStep::InvalidAddress
                },
            }
        } else {
            InteractionStep::UnknownCommand
        }
    } else {
        InteractionStep::UnsupportedType
    }
}

/// Whether the characters equal the given word.
fn chars_equal(s: &Vec<char>, w: &[char]) -> (r: bool)
    ensures
        r == (s@ == w@),
{
    if s.len() != w.len() {
        return false;
    }
    let mut i: usize = 0;
    while i < s.len()
        invariant
            i <= s@.len(),
            s@.len() == w@.len(),
            forall|j: int| 0 <= j < i ==> s@[j] == w@[j],
        decreases s@.len() - i,
    {
        if s[i] != w[i] {
            return false;
        }
        i = i + 1;
    }
    assert(s@ =~= w@);
    true
}

/// The next step for a verified interaction; see [`spec_route_interaction`].
#[verifier::loop_isolation(false)]
pub fn route_interaction(interaction_type: u64, command: &str, address: &str, cooldown_left: Option<u64>) -> (r:
    InteractionStep)
    ensures
        r == spec_route_interaction(interaction_type, command@, address@, cooldown_left),
{
    if interaction_type == 1 {
        return InteractionStep::Pong;
    }
    if interaction_type != 2 {
        return InteractionStep::UnsupportedType;
    }
    let cmd = str_chars(command);
    let faucet = ['f', 'a', 'u', 'c', 'e', 't'];
    assert(faucet@ =~= seq!['f', 'a', 'u', 'c', 'e', 't']);
    if !chars_equal(&cmd, &faucet) {
        return InteractionStep::UnknownCommand;
    }
    if let Some(n) = cooldown_left {
        return InteractionStep::CoolingDown(n);
    }
    let addr = str_chars(address);
    let prefix = ['t', 'r', 'i', 'l', 'l', '1'];
    assert(prefix@ =~= seq!['t', 'r', 'i', 'l', 'l', '1']);
    if addr.len() < 6 {
        return InteractionStep::InvalidAddress;
    }
    let mut i: usize = 0;
    while i < 6
        invariant
            i <= 6,
            addr@.len() >= 6,
            prefix@ == seq!['t', 'r', 'i', 'l', 'l', '1'],
            forall|j: int| 0 <= j < i ==> addr@[j] == prefix@[j],
        decreases 6 - i,
    {
        if addr[i] != prefix[i] {
            proof {
                let lit = seq!['t', 'r', 'i', 'l', 'l', '1'];
                assert(addr@.take(6)[i as int] == addr@[i as int]);
                assert(prefix@[i as int] == lit[i as int]);
                assert(addr@.take(6) != lit);
            }
            return InteractionStep::InvalidAddress;
        }
        i = i + 1;
    }
    assert(addr@.take(6) =~= seq!['t', 'r', 'i', 'l', 'l', '1']);
    InteractionStep::Send
}

/// Why a web claim is turned away before anything is sent.
#[derive(Clone, Debug)]
pub enum ClaimRefusal {
    /// The address is not a testnet address.
    NotTestnet,
    /// The address or IP is still cooling down; the message says how long.
    RateLimited(String),
}

impl ClaimRefusal {
    /// The HTTP status of the refusal: 400 for a wrong address, 429 while
    /// cooling down.
    pub fn status(&self) -> (r: u16)
        ensures
            r == (match self {
                ClaimRefusal::NotTestnet => 400u16,
                ClaimRefusal::RateLimited(_) => 429u16,
            }),
    {
        match self {
            ClaimRefusal::NotTestnet => 400,
            ClaimRefusal::RateLimited(_) => 429,
        }
    }

    /// The error text shown to the user.
    pub fn message(&self) -> (r: String)
        ensures
            r@ == (match self {
                ClaimRefusal::NotTestnet => "Only testnet addresses (trill1...) are supported"@,
                ClaimRefusal::RateLimited(m) => m@,
            }),
    {
        match self {
            ClaimRefusal::NotTestnet => {
                let mut s = String::new();
                push_str(&mut s, "Only testnet addresses (trill1...) are supported");
                s
            },
            ClaimRefusal::RateLimited(m) => m.clone(),
        }
    }
}

/// Screen a web claim: the address is trimmed and must begin with `trill1`;
/// then the cooldowns of the trimmed address and of the IP are checked at
/// `now`. On success the trimmed address is returned.
pub fn screen_claim(limiter: &RateLimiter, address: &str, ip: Ip, now: u64) -> (r: Result<String, ClaimRefusal>)
    ensures
        !begins_with(trimmed(address@), "trill1"@) ==> r matches Err(ClaimRefusal::NotTestnet),
        begins_with(trimmed(address@), "trill1"@) ==> match refusal(
            limiter@,
            encode_utf8(trimmed(address@)),
            ip,
            now,
        ) {
            None => r matches Ok(a) && a@ == trimmed(address@),
            Some((by_address, secs)) => r matches Err(ClaimRefusal::RateLimited(m)) && m@
                == refusal_message(by_address, secs),
        },
{
    let chars = trim_chars(&str_chars(address));
    if !chars_begin_with(&chars, "trill1") {
        return Err(ClaimRefusal::NotTestnet);
    }
    let trimmed_address = string_from_chars(chars);
    match limiter.check(trimmed_address.as_str(), ip, now) {
        Ok(()) => Ok(trimmed_address),
        Err((msg, _)) => Err(ClaimRefusal::RateLimited(msg)),
    }
}

} // verus!
