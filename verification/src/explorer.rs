//! The block explorer service: its configuration, and how its API reads
//! requests and pages through blocks.

use vstd::prelude::*;

use crate::address::str_chars;
use crate::error::push_str;
use crate::text::{parse_u64_chars, parsed_u64, trim_chars, trimmed};
use crate::types::string_from_chars;

verus! {

/// Explorer configuration.
#[derive(Clone, Debug)]
pub struct Config {
    /// Node JSON-RPC endpoint.
    pub rpc_endpoint: String,
    /// Address to bind the HTTP server.
    pub bind_addr: String,
}

impl Config {
    /// A configuration from its settings, each `None` when unset: the node
    /// endpoint defaults to the local mainnet RPC port and the server binds
    /// all interfaces on port 8081.
    pub fn from_settings(rpc_endpoint: Option<String>, bind_addr: Option<String>) -> (r: Config)
        ensures
            r.rpc_endpoint@ == (match rpc_endpoint {
                Some(s) => s@,
                None => "http://127.0.0.1:18332"@,
            }),
            r.bind_addr@ == (match bind_addr {
                Some(s) => s@,
                None => "0.0.0.0:8081"@,
            }),
    {
        let rpc_endpoint = match rpc_endpoint {
            Some(s) => s,
            None => {
                let mut s = String::new();
                push_str(&mut s, "http://127.0.0.1:18332");
                s
            },
        };
        let bind_addr = match bind_addr {
            Some(s) => s,
            None => {
                let mut s = String::new();
                push_str(&mut s, "0.0.0.0:8081");
                s
            },
        };
        Config { rpc_endpoint, bind_addr }
    }
}

/// Blocks listed when a page asks for no number.
pub const DEFAULT_PAGE: u64 = 20;

/// Most blocks listed on one page.
pub const MAX_PAGE: u64 = 50;

/// The blocks on a page: the page size asked for (default 20, at most 50)
/// counted down from the tip less the offset (not below height 0), and no
/// more than there are blocks from there down to height 0.
pub open spec fn page_start(tip: u64, offset: Option<u64>) -> int {
    let off = match offset {
        Some(o) => o as int,
        None => 0,
    };
    if tip >= off {
        tip - off
    } else {
        0
    }
}

/// Number of blocks on a page.
pub open spec fn page_count(tip: u64, limit: Option<u64>, offset: Option<u64>) -> int {
    let want = match limit {
        Some(l) => if l < MAX_PAGE {
            l as int
        } else {
            MAX_PAGE as int
        },
        None => DEFAULT_PAGE as int,
    };
    if want <= page_start(tip, offset) + 1 {
        want
    } else {
        page_start(tip, offset) + 1
    }
}

/// The heights of the blocks on a page, newest first.
pub fn page_heights(tip: u64, limit: Option<u64>, offset: Option<u64>) -> (r: Vec<u64>)
    ensures
        r@.len() == page_count(tip, limit, offset),
        forall|i: int| 0 <= i < r@.len() ==> r@[i] == page_start(tip, offset) - i,
{
    let want: u64 = match limit {
        Some(l) => if l < MAX_PAGE {
            l
        } else {
            MAX_PAGE
        },
        None => DEFAULT_PAGE,
    };
    let start = tip.saturating_sub(
        match offset {
            Some(o) => o,
            None => 0,
        },
    );
    let count: u64 = if want <= start {
        want
    } else {
        start + 1
    };
    let mut r: Vec<u64> = Vec::new();
    let mut i: u64 = 0;
    while i < count
        invariant
            i <= count,
            count <= start as int + 1,
            start as int == page_start(tip, offset),
            r@.len() == i,
            forall|k: int| 0 <= k < i ==> r@[k] == start - k,
        decreases count - i,
    {
        r.push(start - i);
        i = i + 1;
    }
    r
}

/// An ASCII hex digit of either case.
pub open spec fn is_hex_digit(c: char) -> bool {
    ('0' <= c <= '9') || ('a' <= c <= 'f') || ('A' <= c <= 'F')
}

/// Text that names a block or transaction by its hash: 64 hex digits.
pub open spec fn is_hash_text(s: Seq<char>) -> bool {
    s.len() == 64 && forall|i: int| 0 <= i < s.len() ==> is_hex_digit(#[trigger] s[i])
}

fn hash_text(s: &Vec<char>) -> (r: bool)
    ensures
        r == is_hash_text(s@),
{
    if s.len() != 64 {
        return false;
    }
    let mut i: usize = 0;
    while i < 64
        invariant
            i <= 64,
            s@.len() == 64,
            forall|k: int| 0 <= k < i ==> is_hex_digit(#[trigger] s@[k]),
        decreases 64 - i,
    {
        let c = s[i];
        if !(('0' <= c && c <= '9') || ('a' <= c && c <= 'f') || ('A' <= c && c <= 'F')) {
            return false;
        }
        i = i + 1;
    }
    true
}

/// How the block endpoint reads its id.
#[derive(Clone, Copy, Debug, PartialEq, Eq, Structural)]
pub enum BlockId {
    /// The id is a block hash.
    Hash,
    /// The id is a height.
    Height(u64),
    /// The id is neither.
    Invalid,
}

/// The reading of a block id: a hash when it is 64 hex digits, else a
/// height when it reads as a number, else invalid.
pub open spec fn block_id_kind(s: Seq<char>) -> BlockId {
    if is_hash_text(s) {
        BlockId::Hash
    } else {
        match parsed_u64(s) {
            Some(h) => BlockId::Height(h),
            None => BlockId::Invalid,
        }
    }
}

/// Read a block id.
pub fn classify_block_id(id: &str) -> (r: BlockId)
    ensures
        r == block_id_kind(id@),
{
    let chars = str_chars(id);
    if hash_text(&chars) {
        BlockId::Hash
    } else {
        match parse_u64_chars(&chars) {
            Some(h) => BlockId::Height(h),
            None => BlockId::Invalid,
        }
    }
}

/// What a search found.
#[derive(Clone, Copy, Debug, PartialEq, Eq, Structural)]
pub enum SearchKind {
    Address,
    Block,
    Tx,
}

/// The next thing a search does.
#[derive(Clone, Copy, Debug, PartialEq, Eq, Structural)]
pub enum SearchStep {
    /// The search is over: the query names this kind of thing.
    Found(SearchKind),
    /// Ask the node for its tip, to see whether this height exists.
    CheckHeight(u64),
    /// Ask the node for a block with the query as its hash.
    LookUpBlock,
    /// Ask the node for a transaction with the query as its id.
    LookUpTx,
    /// Nothing matches.
    NotFound,
}

/// A search query, read once.
#[derive(Clone, Debug)]
pub struct SearchQuery {
    /// The query without surrounding white space.
    pub text: String,
    /// It begins like an address.
    pub is_address: bool,
    /// It reads as a height.
    pub height: Option<u64>,
    /// It is 64 hex digits.
    pub is_hash: bool,
}

/// Whether `s` begins with `p`.
pub open spec fn begins_with(s: Seq<char>, p: Seq<char>) -> bool {
    p.len() <= s.len() && s.subrange(0, p.len() as int) == p
}

pub(crate) fn chars_begin_with(s: &Vec<char>, p: &str) -> (r: bool)
    ensures
        r == begins_with(s@, p@),
{
    let pc = str_chars(p);
    if pc.len() > s.len() {
        return false;
    }
    let mut i: usize = 0;
    while i < pc.len()
        invariant
            i <= pc@.len() <= s@.len(),
            pc@ == p@,
            forall|k: int| 0 <= k < i ==> s@[k] == pc@[k],
        decreases pc@.len() - i,
    {
        if s[i] != pc[i] {
            assert(s@.subrange(0, pc@.len() as int)[i as int] != pc@[i as int]);
            return false;
        }
        i = i + 1;
    }
    assert(s@.subrange(0, pc@.len() as int) =~= pc@);
    true
}

/// Read a search query: trim it, then note whether it begins like a
/// mainnet or testnet address, reads as a height, or is a hash.
pub fn read_search_query(q: &str) -> (r: SearchQuery)
    ensures
        r.text@ == trimmed(q@),
        r.is_address == (begins_with(trimmed(q@), "trill1"@) || begins_with(trimmed(q@), "rill1"@)),
        r.height == parsed_u64(trimmed(q@)),
        r.is_hash == is_hash_text(trimmed(q@)),
{
    let chars = trim_chars(&str_chars(q));
    let is_address = chars_begin_with(&chars, "trill1") || chars_begin_with(&chars, "rill1");
    let height = parse_u64_chars(&chars);
    let is_hash = hash_text(&chars);
    let text = string_from_chars(chars);
    SearchQuery { text, is_address, height, is_hash }
}

/// The first step of a search: an address is found at once; a height is
/// checked against the tip; a hash is looked up; anything else is not found.
pub fn search_start(q: &SearchQuery) -> (r: SearchStep)
    ensures
        r == (if q.is_address {
            SearchStep::Found(SearchKind::Address)
        } else if q.height is Some {
            SearchStep::CheckHeight(q.height->0)
        } else if q.is_hash {
            SearchStep::LookUpBlock
        } else {
            SearchStep::NotFound
        }),
{
    if q.is_address {
        SearchStep::Found(SearchKind::Address)
    } else {
        match q.height {
            Some(h) => SearchStep::CheckHeight(h),
            None => if q.is_hash {
                SearchStep::LookUpBlock
            } else {
                SearchStep::NotFound
            },
        }
    }
}

/// After the tip is known: a height at or below it is a block; otherwise
/// a hash is still looked up.
pub fn search_after_tip(q: &SearchQuery, height: u64, tip: u64) -> (r: SearchStep)
    ensures
        r == (if height <= tip {
            SearchStep::Found(SearchKind::Block)
        } else if q.is_hash {
            SearchStep::LookUpBlock
        } else {
            SearchStep::NotFound
        }),
{
    if height <= tip {
        SearchStep::Found(SearchKind::Block)
    } else if q.is_hash {
        SearchStep::LookUpBlock
    } else {
        SearchStep::NotFound
    }
}

/// After the block lookup: a block found ends the search, else the
/// transactions are tried.
pub fn search_after_block(found: bool) -> (r: SearchStep)
    ensures
        r == (if found {
            SearchStep::Found(SearchKind::Block)
        } else {
            SearchStep::LookUpTx
        }),
{
    if found {
        SearchStep::Found(SearchKind::Block)
    } else {
        SearchStep::LookUpTx
    }
}

/// After the transaction lookup: found, or nothing matches.
pub fn search_after_tx(found: bool) -> (r: SearchStep)
    ensures
        r == (if found {
            SearchStep::Found(SearchKind::Tx)
        } else {
            SearchStep::NotFound
        }),
{
    if found {
        SearchStep::Found(SearchKind::Tx)
    } else {
        SearchStep::NotFound
    }
}

/// The total of a list of values, or `None` when it does not fit 64 bits.
pub fn total_value(values: &[u64]) -> (r: Option<u64>)
    ensures
        match r {
            Some(t) => t == values_total(values@),
            None => values_total(values@) > u64::MAX,
        },
{
    let mut acc: u64 = 0;
    let mut i: usize = 0;
    while i < values.len()
        invariant
            i <= values@.len(),
            acc == values_total(values@.subrange(0, i as int)),
        decreases values@.len() - i,
    {
        proof {
            let t = values@.subrange(0, i + 1);
            assert(t.drop_last() =~= values@.subrange(0, i as int));
        }
        match acc.checked_add(values[i]) {
            Some(n) => acc = n,
            None => {
                proof {
                    lemma_total_grows(values@, i + 1);
                }
                return None;
            },
        }
        i = i + 1;
    }
    assert(values@.subrange(0, values@.len() as int) =~= values@);
    Some(acc)
}

/// The sum of a list of values.
pub open spec fn values_total(s: Seq<u64>) -> nat
    decreases s.len(),
{
    if s.len() == 0 {
        0
    } else {
        values_total(s.drop_last()) + s.last() as nat
    }
}

/// A list's total is at least that of any prefix.
pub(crate) proof fn lemma_total_grows(s: Seq<u64>, k: int)
    requires
        0 <= k <= s.len(),
    ensures
        values_total(s.subrange(0, k)) <= values_total(s),
    decreases s.len() - k,
{
    if k < s.len() {
        lemma_total_grows(s, k + 1);
        assert(s.subrange(0, k + 1).drop_last() =~= s.subrange(0, k));
    } else {
        assert(s.subrange(0, k) =~= s);
    }
}

} // verus!
