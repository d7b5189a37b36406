//! Helpers of the command-line wallet: network names.

use vstd::prelude::*;

use crate::address::{lower_char, str_chars, Network};
use crate::types::string_from_chars;

verus! {

/// The message of a network name that is neither `mainnet` nor `testnet`.
pub open spec fn invalid_network_message() -> Seq<char> {
    "Invalid network (must be 'mainnet' or 'testnet')"@
}

/// The network a name denotes, compared without regard to ASCII case.
pub open spec fn spec_parse_network(s: Seq<char>) -> Option<Network> {
    let lower = s.map_values(|c: char| lower_char(c));
    if lower == "mainnet"@ {
        Some(Network::Mainnet)
    } else if lower == "testnet"@ {
        Some(Network::Testnet)
    } else {
        None
    }
}

/// ASCII lower case of a character.
fn to_lower(c: char) -> (r: char)
    ensures
        r == lower_char(c),
{
    if 'A' <= c && c <= 'Z' {
        ((c as u8) + 32) as char
    } else {
        c
    }
}

/// Whether the ASCII lower case of `s` is `word`.
fn lower_equals(s: &Vec<char>, word: &str) -> (r: bool)
    ensures
        r == (s@.map_values(|c: char| lower_char(c)) == word@),
{
    let w = str_chars(word);
    if s.len() != w.len() {
        proof {
            assert(s@.map_values(|c: char| lower_char(c)).len() != word@.len());
        }
        return false;
    }
    let mut i: usize = 0;
    while i < s.len()
        invariant
            i <= s@.len(),
            s@.len() == w@.len(),
            w@ == word@,
            forall|j: int| 0 <= j < i ==> lower_char(#[trigger] s@[j]) == w@[j],
        decreases s@.len() - i,
    {
        if to_lower(s[i]) != w[i] {
            proof {
                assert(s@.map_values(|c: char| lower_char(c))[i as int] != word@[i as int]);
            }
            return false;
        }
        i = i + 1;
    }
    proof {
        assert(s@.map_values(|c: char| lower_char(c)) =~= word@);
    }
    true
}

/// Parse a network name (`mainnet` or `testnet`, in any ASCII case).
pub fn parse_network(s: &str) -> (r: Result<Network, String>)
    ensures
        spec_parse_network(s@) matches Some(n) ==> r == Ok::<Network, String>(n),
        spec_parse_network(s@) is None ==> (r matches Err(e) && e@ == invalid_network_message()),
{
    let cs = str_chars(s);
    proof {
        reveal_strlit("mainnet");
        reveal_strlit("testnet");
    }
    if lower_equals(&cs, "mainnet") {
        Ok(Network::Mainnet)
    } else if lower_equals(&cs, "testnet") {
        Ok(Network::Testnet)
    } else {
        let msg = "Invalid network (must be 'mainnet' or 'testnet')";
        let mut v: Vec<char> = str_chars(msg);
        Err(string_from_chars(v))
    }
}

/// The display name of a network.
pub fn network_name(network: Network) -> (r: &'static str)
    ensures
        network == Network::Mainnet ==> r@ == "Mainnet"@,
        network == Network::Testnet ==> r@ == "Testnet"@,
{
    match network {
        Network::Mainnet => "Mainnet",
        Network::Testnet => "Testnet",
    }
}

} // verus!
