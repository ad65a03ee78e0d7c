//! Resolution of the block range when the caller supplies no bounds.
//!
//! The collaborators here are one-shot lookups: the deployment manifest
//! yields the earliest start block and the network name, the network registry
//! yields a public RPC endpoint, and the chain head arrives as a numeral in a
//! JSON-RPC reply. The network calls belong to the caller; the decisions —
//! which numeral a string denotes, which start block is earliest, which
//! endpoint is taken — are made and verified here.

use vstd::prelude::*;

use vstd::string::StrSliceExecFns;

verus! {

/// Whether `c` is a decimal digit.
pub open spec fn is_dec_digit(c: char) -> bool {
    '0' as u32 <= c as u32 && c as u32 <= '9' as u32
}

/// The value of a decimal digit.
pub open spec fn dec_digit_val(c: char) -> int {
    c as u32 - '0' as u32
}

/// Whether `c` is a hexadecimal digit, in either letter case.
pub open spec fn is_hex_digit(c: char) -> bool {
    ('0' as u32 <= c as u32 && c as u32 <= '9' as u32)
    || ('a' as u32 <= c as u32 && c as u32 <= 'f' as u32)
    || ('A' as u32 <= c as u32 && c as u32 <= 'F' as u32)
}

/// The value of a hexadecimal digit.
pub open spec fn hex_digit_val(c: char) -> int {
    if '0' as u32 <= c as u32 && c as u32 <= '9' as u32 {
        c as u32 - '0' as u32
    } else if 'a' as u32 <= c as u32 && c as u32 <= 'f' as u32 {
        c as u32 - 'a' as u32 + 10
    } else {
        c as u32 - 'A' as u32 + 10
    }
}

/// The value a string of digits denotes in the given base, most significant
/// digit first.
pub open spec fn radix_val(s: Seq<char>, base: int, dv: spec_fn(char) -> int) -> int
    decreases s.len(),
{
    if s.len() == 0 {
        0
    } else {
        radix_val(s.drop_last(), base, dv) * base + dv(s.last())
    }
}

/// The decimal value of `s`.
pub open spec fn dec_val(s: Seq<char>) -> int {
    radix_val(s, 10, |c: char| dec_digit_val(c))
}

/// The hexadecimal value of `s`.
pub open spec fn hex_val(s: Seq<char>) -> int {
    radix_val(s, 16, |c: char| hex_digit_val(c))
}

/// What a decimal numeral parses to: its value, provided it is non-empty,
/// all digits, and fits a block number.
pub open spec fn spec_parse_u32_dec(s: Seq<char>) -> Option<u32> {
    if s.len() > 0 && (forall|i: int| 0 <= i < s.len() ==> is_dec_digit(#[trigger] s[i]))
        && dec_val(s) <= u32::MAX {
        Some(dec_val(s) as u32)
    } else {
        None
    }
}

/// What a hexadecimal numeral parses to, under the same conditions.
pub open spec fn spec_parse_u32_hex(s: Seq<char>) -> Option<u32> {
    if s.len() > 0 && (forall|i: int| 0 <= i < s.len() ==> is_hex_digit(#[trigger] s[i]))
        && hex_val(s) <= u32::MAX {
        Some(hex_val(s) as u32)
    } else {
        None
    }
}

/// A digit string's value is never negative.
proof fn lemma_radix_val_nonneg(s: Seq<char>, base: int, dv: spec_fn(char) -> int)
    requires
        base >= 1,
        forall|i: int| 0 <= i < s.len() ==> dv(#[trigger] s[i]) >= 0,
    ensures
        radix_val(s, base, dv) >= 0,
    decreases s.len(),
{
    if s.len() == 0 {
    } else {
        lemma_radix_val_nonneg(s.drop_last(), base, dv);
        let prefix_val = radix_val(s.drop_last(), base, dv);
        assert(prefix_val * base >= 0) by (nonlinear_arith)
            requires prefix_val >= 0, base >= 1;
        assert(dv(s.last()) >= 0);
    }
}

/// Extending a digit string cannot shrink its value.
proof fn lemma_radix_val_prefix_le(
    s: Seq<char>,
    a: int,
    b: int,
    base: int,
    dv: spec_fn(char) -> int,
)
    requires
        0 <= a <= b <= s.len(),
        base >= 1,
        forall|i: int| 0 <= i < b ==> dv(#[trigger] s[i]) >= 0,
    ensures
        radix_val(s.take(a), base, dv) <= radix_val(s.take(b), base, dv),
    decreases b - a,
{
    if a == b {
    } else {
        lemma_radix_val_prefix_le(s, a, b - 1, base, dv);
        assert(s.take(b).drop_last() =~= s.take(b - 1));
        assert(forall|i: int| 0 <= i < b - 1 ==> s.take(b - 1)[i] == s[i]);
        lemma_radix_val_nonneg(s.take(b - 1), base, dv);
        let prefix_val = radix_val(s.take(b - 1), base, dv);
        assert(prefix_val * base >= prefix_val) by (nonlinear_arith)
            requires prefix_val >= 0, base >= 1;
        assert(s.take(b).last() == s[b - 1]);
        assert(dv(s[b - 1]) >= 0);
    }
}

/// The value the decimal numeral `s` denotes, when `s` is a non-empty string
/// of decimal digits whose value fits a block number.
pub fn parse_u32_dec(s: &str) -> (r: Option<u32>)
    ensures
        r == spec_parse_u32_dec(s@),
{
    let ghost dv = |c: char| dec_digit_val(c);
    let n = s.unicode_len();
    if n == 0 {
        return None;
    }
    let mut acc: u64 = 0;
    for i in 0..n
        invariant
            n == s@.len(),
            forall|p: int| 0 <= p < i ==> is_dec_digit(#[trigger] s@[p]),
            acc == dec_val(s@.take(i as int)),
            acc <= u32::MAX,
            dv == (|c: char| dec_digit_val(c)),
    {
        let c = s.get_char(i);
        let cv = c as u32;
        if cv < '0' as u32 || cv > '9' as u32 {
            return None;
        }
        let d = (cv - '0' as u32) as u64;
        proof {
            assert(s@.take(i + 1).drop_last() =~= s@.take(i as int));
            assert(s@.take(i + 1).last() == s@[i as int]);
        }
        let next = acc * 10 + d;
        if next > u32::MAX as u64 {
            proof {
                if forall|p: int| 0 <= p < s@.len() ==> is_dec_digit(#[trigger] s@[p]) {
                    assert(forall|p: int| 0 <= p < s@.len() ==> dv(#[trigger] s@[p]) >= 0);
                    lemma_radix_val_prefix_le(s@, i + 1, s@.len() as int, 10, dv);
                    assert(s@.take(s@.len() as int) =~= s@);
                }
            }
            return None;
        }
        acc = next;
    }
    proof {
        assert(s@.take(n as int) =~= s@);
    }
    Some(acc as u32)
}

/// The value the hexadecimal numeral `s` denotes, when `s` is a non-empty
/// string of hexadecimal digits whose value fits a block number.
pub fn parse_u32_hex(s: &str) -> (r: Option<u32>)
    ensures
        r == spec_parse_u32_hex(s@),
{
    let ghost dv = |c: char| hex_digit_val(c);
    let n = s.unicode_len();
    if n == 0 {
        return None;
    }
    let mut acc: u64 = 0;
    for i in 0..n
        invariant
            n == s@.len(),
            forall|p: int| 0 <= p < i ==> is_hex_digit(#[trigger] s@[p]),
            acc == hex_val(s@.take(i as int)),
            acc <= u32::MAX,
            dv == (|c: char| hex_digit_val(c)),
    {
        let c = s.get_char(i);
        let cv = c as u32;
        let d: u64;
        if cv >= '0' as u32 && cv <= '9' as u32 {
            d = (cv - '0' as u32) as u64;
        } else if cv >= 'a' as u32 && cv <= 'f' as u32 {
            d = (cv - 'a' as u32 + 10) as u64;
        } else if cv >= 'A' as u32 && cv <= 'F' as u32 {
            d = (cv - 'A' as u32 + 10) as u64;
        } else {
            return None;
        }
        proof {
            assert(s@.take(i + 1).drop_last() =~= s@.take(i as int));
            assert(s@.take(i + 1).last() == s@[i as int]);
        }
        let next = acc * 16 + d;
        if next > u32::MAX as u64 {
            proof {
                if forall|p: int| 0 <= p < s@.len() ==> is_hex_digit(#[trigger] s@[p]) {
                    assert(forall|p: int| 0 <= p < s@.len() ==> dv(#[trigger] s@[p]) >= 0);
                    lemma_radix_val_prefix_le(s@, i + 1, s@.len() as int, 16, dv);
                    assert(s@.take(s@.len() as int) =~= s@);
                }
            }
            return None;
        }
        acc = next;
    }
    proof {
        assert(s@.take(n as int) =~= s@);
    }
    Some(acc as u32)
}

/// What a chain-head numeral denotes: hexadecimal when it carries the `0x`
/// prefix, decimal otherwise.
pub open spec fn spec_parse_block_number(s: Seq<char>) -> Option<u32> {
    if s.len() >= 2 && s[0] == '0' && s[1] == 'x' {
        spec_parse_u32_hex(s.subrange(2, s.len() as int))
    } else {
        spec_parse_u32_dec(s)
    }
}

/// The block number a JSON-RPC reply's numeral denotes: a `0x`-prefixed
/// string is read as hexadecimal, any other as decimal.
pub fn parse_block_number(s: &str) -> (r: Option<u32>)
    ensures
        r == spec_parse_block_number(s@),
{
    let n = s.unicode_len();
    if n >= 2 && s.get_char(0) == '0' && s.get_char(1) == 'x' {
        let rest = s.substring_char(2, n);
        parse_u32_hex(rest)
    } else {
        parse_u32_dec(s)
    }
}

/// The start-block numerals that a manifest's text carries, in order of
/// appearance.
pub uninterp spec fn start_block_tokens(s: Seq<char>) -> Seq<Seq<char>>;

/// Relies on `regex::Regex::captures_iter`: each element is the first capture
/// group — the digit run after a `startBlock:` label — of one match, in order
/// of appearance; the result depends on the text alone.
#[verifier::external_body]
fn scan_start_block_tokens(manifest: &str) -> (r: Vec<String>)
    ensures
        r.deep_view() == start_block_tokens(manifest@),
{
    let re = regex::Regex::new(r"startBlock:\s*(\d+)").unwrap();
    re.captures_iter(manifest).map(|cap| cap[1].to_string()).collect()
}

/// The network names that a manifest's text carries, in order of appearance.
pub uninterp spec fn network_tokens(s: Seq<char>) -> Seq<Seq<char>>;

/// Relies on `regex::Regex::captures_iter`: each element is the first capture
/// group — the word after a `network:` label — of one match, in order of
/// appearance; the result depends on the text alone.
#[verifier::external_body]
fn scan_network_tokens(manifest: &str) -> (r: Vec<String>)
    ensures
        r.deep_view() == network_tokens(manifest@),
{
    let re = regex::Regex::new(r"network:\s*(\w+)").unwrap();
    re.captures_iter(manifest).map(|cap| cap[1].to_string()).collect()
}

/// The least block number among the parseable tokens, if any parses.
pub open spec fn spec_min_parsed(tokens: Seq<Seq<char>>) -> Option<u32>
    decreases tokens.len(),
{
    if tokens.len() == 0 {
        None
    } else {
        let rest = spec_min_parsed(tokens.drop_last());
        match spec_parse_u32_dec(tokens.last()) {
            Some(v) => match rest {
                Some(m) => Some(if v < m { v } else { m }),
                None => Some(v),
            },
            None => rest,
        }
    }
}

/// The earliest start block the manifest names: the least of its parseable
/// start-block numerals, or zero when it names none.
pub fn get_start_block(manifest: &str) -> (r: u32)
    ensures
        match spec_min_parsed(start_block_tokens(manifest@)) {
            Some(m) => r == m,
            None => r == 0,
        },
{
    let tokens = scan_start_block_tokens(manifest);
    let ghost toks = tokens.deep_view();
    let n = tokens.len();
    let mut best: Option<u32> = None;
    for i in 0..n
        invariant
            n == tokens@.len(),
            toks == tokens.deep_view(),
            toks.len() == tokens@.len(),
            forall|p: int| 0 <= p < toks.len() ==> toks[p] == (#[trigger] tokens@[p])@,
            best == spec_min_parsed(toks.take(i as int)),
    {
        proof {
            assert(toks.take(i + 1).drop_last() =~= toks.take(i as int));
            assert(toks.take(i + 1).last() == toks[i as int]);
        }
        match parse_u32_dec(tokens[i].as_str()) {
            Some(v) => {
                best = match best {
                    Some(m) => Some(if v < m { v } else { m }),
                    None => Some(v),
                };
            },
            None => {},
        }
    }
    proof {
        assert(toks.take(n as int) =~= toks);
    }
    match best {
        Some(m) => m,
        None => 0,
    }
}

/// The network the manifest names: its first network token, if it has one.
pub fn get_network(manifest: &str) -> (r: Option<String>)
    ensures
        network_tokens(manifest@).len() == 0 ==> r is None,
        network_tokens(manifest@).len() > 0 ==> (r matches Some(s)
            && s@ == network_tokens(manifest@)[0]),
{
    let mut tokens = scan_network_tokens(manifest);
    let ghost toks = tokens.deep_view();
    if tokens.len() == 0 {
        None
    } else {
        proof {
            assert(toks[0] == tokens@[0]@);
        }
        let first = tokens.remove(0);
        Some(first)
    }
}

/// Why no RPC endpoint could be selected for a network.
#[derive(Clone, Copy, Debug, PartialEq, Eq, Structural)]
pub enum RegistryError {
    /// The registry knows no network under the given name.
    NetworkNotFound,
    /// The registry entry carries no RPC endpoint list.
    NoRpcUrls,
    /// The registry entry's RPC endpoint list is empty.
    EmptyRpcUrls,
}

/// The public RPC endpoint for a registry entry: the first of its listed
/// endpoints. `network_found` says whether the registry knew the network at
/// all, and `rpc_urls` is the entry's endpoint list as the registry returned
/// it; each absence is its own error.
pub fn select_rpc_url(network_found: bool, rpc_urls: Option<&Vec<String>>) -> (r: Result<
    String,
    RegistryError,
>)
    ensures
        r == (if !network_found {
            Err::<String, RegistryError>(RegistryError::NetworkNotFound)
        } else {
            match rpc_urls {
                None => Err::<String, RegistryError>(RegistryError::NoRpcUrls),
                Some(v) => if v@.len() == 0 {
                    Err::<String, RegistryError>(RegistryError::EmptyRpcUrls)
                } else {
                    Ok::<String, RegistryError>(v@[0])
                },
            }
        }),
{
    if !network_found {
        return Err(RegistryError::NetworkNotFound);
    }
    match rpc_urls {
        None => Err(RegistryError::NoRpcUrls),
        Some(v) => {
            if v.len() == 0 {
                Err(RegistryError::EmptyRpcUrls)
            } else {
                Ok(v[0].clone())
            }
        },
    }
}

} // verus!
