use crate::network::{network_addresses, IpNet};
use ipnetwork::IpNetworkError;
use vstd::arithmetic::power2::pow2;
use vstd::prelude::*;
use vstd::string::*;

verus! {

#[verifier::external_type_specification]
#[verifier::external_body]
pub struct ExIpNetworkError(IpNetworkError);

/// Why a target specification could not be expanded into hosts.
#[derive(Clone, Copy, Debug, PartialEq, Eq)]
pub enum TargetSpecError {
    /// The target names a network that does not parse.
    InvalidCidr,
    /// The network holds more addresses than can be listed in memory.
    NetworkTooLarge,
    /// The target names a file that could not be read.
    UnreadableFile,
}

/// The network that `ipnetwork` reads from a text, as (IPv6, address, prefix).
pub uninterp spec fn network_of(s: Seq<char>) -> Option<(bool, u128, u8)>;

/// The dotted-decimal text of an IPv4 address.
pub uninterp spec fn ipv4_text_of(a: u32) -> Seq<char>;

/// The standard text of an IPv6 address.
pub uninterp spec fn ipv6_text_of(a: u128) -> Seq<char>;

/// The lines of a text, as `str::lines` splits them.
pub uninterp spec fn lines_of(s: Seq<char>) -> Seq<Seq<char>>;

/// A text without its leading and trailing whitespace, as `str::trim` gives it.
pub uninterp spec fn trimmed(s: Seq<char>) -> Seq<char>;

/// Relies on `ipnetwork::IpNetwork::from_str`: IPv4 is tried first, then
/// IPv6; the prefix never exceeds the family's width.
#[verifier::external_body]
fn parse_network(s: &str) -> (r: Result<IpNet, IpNetworkError>)
    ensures
        match r {
            Ok(n) => n.wf() && network_of(s@) == Some((n.v6, n.addr, n.prefix)),
            Err(_) => network_of(s@) is None,
        },
{
    match s.parse::<ipnetwork::IpNetwork>() {
        Ok(ipnetwork::IpNetwork::V4(net)) => Ok(
            IpNet { v6: false, addr: u32::from(net.ip()) as u128, prefix: net.prefix() },
        ),
        Ok(ipnetwork::IpNetwork::V6(net)) => Ok(
            IpNet { v6: true, addr: u128::from(net.ip()), prefix: net.prefix() },
        ),
        Err(e) => Err(e),
    }
}

/// Relies on the `Display` of `core::net::Ipv4Addr`.
#[verifier::external_body]
fn ipv4_text(a: u32) -> (r: String)
    ensures
        r@ == ipv4_text_of(a),
{
    core::net::Ipv4Addr::from(a).to_string()
}

/// Relies on the `Display` of `core::net::Ipv6Addr`.
#[verifier::external_body]
fn ipv6_text(a: u128) -> (r: String)
    ensures
        r@ == ipv6_text_of(a),
{
    core::net::Ipv6Addr::from(a).to_string()
}

/// Relies on `str::lines`.
#[verifier::external_body]
fn split_lines(s: &str) -> (r: Vec<String>)
    ensures
        r@.map_values(|l: String| l@) == lines_of(s@),
{
    s.lines().map(|l| l.to_string()).collect()
}

/// Relies on `str::trim`.
#[verifier::external_body]
fn trim_text(s: &str) -> (r: String)
    ensures
        r@ == trimmed(s@),
{
    s.trim().to_string()
}

/// The text of an address of the given family.
pub open spec fn address_text(v6: bool, a: u128) -> Seq<char> {
    if v6 {
        ipv6_text_of(a)
    } else {
        ipv4_text_of(a as u32)
    }
}

/// The text of every address of a network, lowest first.
pub open spec fn host_texts(n: IpNet) -> Seq<Seq<char>> {
    n.addresses().map_values(|a: u128| address_text(n.v6, a))
}

/// A trimmed line names a host unless it is empty or a comment.
pub open spec fn is_target_line(l: Seq<char>) -> bool {
    l.len() > 0 && l[0] != '#'
}

/// The hosts a target file lists: its trimmed lines, in order, without
/// empty lines and comments.
pub open spec fn file_hosts(content: Seq<char>) -> Seq<Seq<char>> {
    lines_of(content).map_values(|l: Seq<char>| trimmed(l)).filter(|l: Seq<char>| is_target_line(l))
}

/// What a target that is not a file expands to.
pub open spec fn expansion(t: Seq<char>) -> Result<Seq<Seq<char>>, TargetSpecError> {
    if !t.contains('/') {
        Ok(seq![t])
    } else {
        match network_of(t) {
            None => Err(TargetSpecError::InvalidCidr),
            Some((v6, addr, prefix)) => {
                let n = IpNet { v6, addr, prefix };
                if n.host_bits() >= 64 {
                    Err(TargetSpecError::NetworkTooLarge)
                } else {
                    Ok(host_texts(n))
                }
            },
        }
    }
}

pub open spec fn views(v: Seq<String>) -> Seq<Seq<char>> {
    v.map_values(|s: String| s@)
}

/// A network expands to one host text per address, and to no address twice.
pub proof fn lemma_network_expansion_size(n: IpNet)
    requires
        n.wf(),
    ensures
        host_texts(n).len() == pow2(n.host_bits()),
        n.addresses().len() == host_texts(n).len(),
        n.addresses().no_duplicates(),
{
    crate::network::lemma_addresses_count_distinct(n);
}

/// Whether a text holds the character `c`.
pub fn has_char(s: &str, c: char) -> (r: bool)
    ensures
        r == s@.contains(c),
{
    let len = s.unicode_len();
    let mut i: usize = 0;
    while i < len
        invariant
            len == s@.len(),
            i <= len,
            forall|j: int| 0 <= j < i ==> s@[j] != c,
        decreases len - i,
    {
        if s.get_char(i) == c {
            return true;
        }
        i = i + 1;
    }
    false
}

/// The text of every address of a network whose size fits in memory.
pub fn network_hosts(n: &IpNet) -> (r: Vec<String>)
    requires
        n.wf(),
        n.host_bits() < 64,
    ensures
        views(r@) == host_texts(*n),
{
    let addrs = network_addresses(n);
    let mut out: Vec<String> = Vec::new();
    let mut i: usize = 0;
    while i < addrs.len()
        invariant
            addrs@ == n.addresses(),
            i <= addrs@.len(),
            out@.len() == i,
            forall|j: int| 0 <= j < i ==> out@[j]@ == address_text(n.v6, addrs@[j]),
        decreases addrs@.len() - i,
    {
        let a = addrs[i];
        let t = if n.v6 {
            ipv6_text(a)
        } else {
            ipv4_text(a as u32)
        };
        out.push(t);
        i = i + 1;
    }
    assert(views(out@) =~= host_texts(*n));
    out
}

/// Expands a target that is not a file: a network written with a `/`
/// becomes each of its addresses, anything else is a single host.
pub fn expand_target(target: &str) -> (r: Result<Vec<String>, TargetSpecError>)
    ensures
        match (r, expansion(target@)) {
            (Ok(v), Ok(e)) => views(v@) == e,
            (Err(a), Err(b)) => a == b,
            _ => false,
        },
{
    if !has_char(target, '/') {
        let v = vec![target.to_owned()];
        assert(views(v@) =~= seq![target@]);
        return Ok(v);
    }
    match parse_network(target) {
        Err(_) => Err(TargetSpecError::InvalidCidr),
        Ok(n) => {
            if n.host_bit_count() >= 64 {
                Err(TargetSpecError::NetworkTooLarge)
            } else {
                Ok(network_hosts(&n))
            }
        },
    }
}

/// Whether a trimmed line of a target file names a host.
pub fn keep_target_line(line: &str) -> (r: bool)
    ensures
        r == is_target_line(line@),
{
    line.unicode_len() > 0 && line.get_char(0) != '#'
}

/// The hosts listed in the text of a target file.
pub fn target_lines(content: &str) -> (r: Vec<String>)
    ensures
        views(r@) == file_hosts(content@),
{
    let lines = split_lines(content);
    let ghost trimmed_lines = lines_of(content@).map_values(|l: Seq<char>| trimmed(l));
    let ghost pred = |l: Seq<char>| is_target_line(l);
    let mut out: Vec<String> = Vec::new();
    let mut i: usize = 0;
    while i < lines.len()
        invariant
            views(lines@) == lines_of(content@),
            trimmed_lines == lines_of(content@).map_values(|l: Seq<char>| trimmed(l)),
            pred == (|l: Seq<char>| is_target_line(l)),
            i <= lines@.len(),
            views(out@) == trimmed_lines.take(i as int).filter(pred),
        decreases lines@.len() - i,
    {
        let t = trim_text(lines[i].as_str());
        assert(lines@[i as int]@ == lines_of(content@)[i as int]);
        let ghost next = trimmed_lines.take(i + 1);
        assert(next.drop_last() =~= trimmed_lines.take(i as int));
        assert(next.last() == t@);
        proof {
            reveal(Seq::filter);
        }
        assert(next.filter(pred) == if pred(t@) {
            trimmed_lines.take(i as int).filter(pred).push(t@)
        } else {
            trimmed_lines.take(i as int).filter(pred)
        });
        if keep_target_line(t.as_str()) {
            let ghost before = out@;
            out.push(t);
            assert(views(out@) =~= views(before).push(t@));
        }
        i = i + 1;
    }
    assert(trimmed_lines.take(lines@.len() as int) =~= trimmed_lines);
    out
}

} // verus!
