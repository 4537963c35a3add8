//! Configuration of the nodes: names, interface addresses, and what the switch
//! derives from them.
use vstd::prelude::*;
use vstd::arithmetic::power2::pow2;
use vstd::arithmetic::power2::lemma2_to64;

verus! {

/// The network from which nodes without an address get one: 10.84.0.0.
pub const NODE_NETWORK: u32 = 0x0a54_0000;

/// Prefix length of [`NODE_NETWORK`].
pub const NODE_PREFIX_LEN: u8 = 16;

/// Decimal digits of `n`, most significant first.
pub open spec fn decimal(n: nat) -> Seq<char>
    decreases n,
{
    if n < 10 {
        seq![digit(n)]
    } else {
        decimal(n / 10).push(digit(n % 10))
    }
}

pub open spec fn digit(d: nat) -> char {
    if d == 0 { '0' }
    else if d == 1 { '1' }
    else if d == 2 { '2' }
    else if d == 3 { '3' }
    else if d == 4 { '4' }
    else if d == 5 { '5' }
    else if d == 6 { '6' }
    else if d == 7 { '7' }
    else if d == 8 { '8' }
    else { '9' }
}

/// Relies on `u64::to_string` (std's `Display` for integers): the decimal digits
/// of `n`, with no sign, padding or separator.
#[verifier::external_body]
pub(crate) fn decimal_string(n: u64) -> (r: String)
    ensures
        r@ == decimal(n as nat),
{
    n.to_string()
}

/// Addresses in a block of a network with prefix length `p`.
pub open spec fn block_size(p: u8) -> nat {
    pow2((32 - p) as nat)
}

/// The first address of the network that holds `net`.
pub open spec fn network_start(net: u32, p: u8) -> int {
    (net as int / block_size(p) as int) * block_size(p) as int
}

/// The first host of the network: past the network address, but for /31 and /32.
pub open spec fn first_host(net: u32, p: u8) -> int {
    if p < 31 {
        network_start(net, p) + 1
    } else {
        network_start(net, p)
    }
}

/// The last host of the network: before the broadcast address, but for /31 and /32.
pub open spec fn last_host(net: u32, p: u8) -> int {
    if p < 31 {
        network_start(net, p) + block_size(p) - 2
    } else {
        network_start(net, p) + block_size(p) - 1
    }
}

/// The `i`-th host of the network, counting from 0, if there is one.
pub open spec fn nth_host(net: u32, p: u8, i: int) -> Option<u32> {
    if first_host(net, p) + i <= last_host(net, p) {
        Some((first_host(net, p) + i) as u32)
    } else {
        None
    }
}

/// Relies on `ipnet::Ipv4Net::hosts` and `Iterator::nth` on its range: the hosts
/// of `net/prefix_len` in order, leaving out the network and broadcast addresses
/// below a prefix of 31.
#[verifier::external_body]
fn host_of_network(net: u32, prefix_len: u8, i: usize) -> (r: Option<u32>)
    requires
        prefix_len <= 32,
    ensures
        r == nth_host(net, prefix_len, i as int),
{
    match ipnet::Ipv4Net::new(net.into(), prefix_len) {
        Ok(n) => n.hosts().nth(i).map(u32::from),
        Err(_) => None,
    }
}

/// An IPv4 interface address: the address and the network's prefix length.
#[derive(Clone, Copy, Debug, PartialEq, Eq, Structural)]
pub struct IfAddr {
    addr: u32,
    prefix_len: u8,
}

/// Why a configuration is refused.
#[derive(Clone, Copy, Debug, PartialEq, Eq, Structural)]
pub enum ConfigError {
    /// A prefix length over 32.
    PrefixLen,
    /// More nodes without an address than [`NODE_NETWORK`] has hosts.
    AddressesExhausted,
}

impl IfAddr {
    pub closed spec fn addr_spec(&self) -> u32 {
        self.addr
    }

    pub closed spec fn prefix_len_spec(&self) -> u8 {
        self.prefix_len
    }

    /// The interface address `addr/prefix_len`; a prefix length over 32 is refused.
    pub fn new(addr: u32, prefix_len: u8) -> (r: Result<IfAddr, ConfigError>)
        ensures
            match r {
                Ok(a) => prefix_len <= 32 && a.addr_spec() == addr && a.prefix_len_spec() == prefix_len,
                Err(e) => prefix_len > 32 && e == ConfigError::PrefixLen,
            },
    {
        if prefix_len > 32 {
            Err(ConfigError::PrefixLen)
        } else {
            Ok(IfAddr { addr, prefix_len })
        }
    }

    /// 0.0.0.0/0.
    pub closed spec fn unspecified_spec() -> IfAddr {
        IfAddr { addr: 0, prefix_len: 0 }
    }

    /// 0.0.0.0/0, the address of a node that has none of its own yet.
    pub fn unspecified() -> (r: IfAddr)
        ensures
            r == IfAddr::unspecified_spec(),
            r.addr_spec() == 0 && r.prefix_len_spec() == 0,
    {
        IfAddr { addr: 0, prefix_len: 0 }
    }

    /// The address, as a big-endian integer.
    pub fn addr(&self) -> (r: u32)
        ensures
            r == self.addr_spec(),
    {
        self.addr
    }

    /// The prefix length.
    pub fn prefix_len(&self) -> (r: u8)
        ensures
            r == self.prefix_len_spec(),
    {
        self.prefix_len
    }

    /// Whether the address is 0.0.0.0.
    pub fn is_unspecified(&self) -> (r: bool)
        ensures
            r == (self.addr_spec() == 0),
    {
        self.addr == 0
    }

    /// The address in dotted decimal, such as `10.84.0.1`.
    pub fn addr_text(&self) -> (r: String)
        ensures
            r@ == dotted(self.addr_spec()),
    {
        let mut s = decimal_string((self.addr >> 24u32) as u64);
        s.append(".");
        s.append(decimal_string(((self.addr >> 16u32) & 0xff) as u64).as_str());
        s.append(".");
        s.append(decimal_string(((self.addr >> 8u32) & 0xff) as u64).as_str());
        s.append(".");
        s.append(decimal_string((self.addr & 0xff) as u64).as_str());
        proof {
            reveal_strlit(".");
        }
        assert(s@ =~= dotted(self.addr));
        s
    }

    /// The address with its prefix length, such as `10.84.0.1/16`.
    pub fn to_text(&self) -> (r: String)
        ensures
            r@ == dotted(self.addr_spec()) + seq!['/'] + decimal(self.prefix_len_spec() as nat),
    {
        let mut s = self.addr_text();
        s.append("/");
        s.append(decimal_string(self.prefix_len as u64).as_str());
        proof {
            reveal_strlit("/");
        }
        assert(s@ =~= dotted(self.addr) + seq!['/'] + decimal(self.prefix_len as nat));
        s
    }
}

/// Dotted decimal text of an IPv4 address.
pub open spec fn dotted(a: u32) -> Seq<char> {
    decimal((a >> 24u32) as nat) + seq!['.'] + decimal(((a >> 16u32) & 0xff) as nat) + seq!['.']
        + decimal(((a >> 8u32) & 0xff) as nat) + seq!['.'] + decimal((a & 0xff) as nat)
}


/// Configuration of one node.
#[derive(Clone, Debug, PartialEq, Eq)]
pub struct NodeConfig {
    /// Host name; empty for the default `n<i>`.
    pub name: String,
    /// Interface address; unspecified for the default, the `i`-th host of [`NODE_NETWORK`].
    pub ifaddr: IfAddr,
}

impl Default for NodeConfig {
    fn default() -> (r: NodeConfig)
        ensures
            r.name@.len() == 0,
            r.ifaddr.addr_spec() == 0,
            r.ifaddr.prefix_len_spec() == 0,
    {
        NodeConfig { name: String::new(), ifaddr: IfAddr::unspecified() }
    }
}

impl From<String> for NodeConfig {
    /// A node with this name and the default address.
    fn from(name: String) -> (r: NodeConfig) {
        NodeConfig { name, ifaddr: IfAddr::unspecified() }
    }
}

impl vstd::std_specs::convert::FromSpecImpl<String> for NodeConfig {
    open spec fn obeys_from_spec() -> bool {
        true
    }

    open spec fn from_spec(name: String) -> NodeConfig {
        NodeConfig { name, ifaddr: IfAddr::unspecified_spec() }
    }
}

impl NodeConfig {
    /// A node with this name and the default address.
    pub fn named(name: &str) -> (r: NodeConfig)
        ensures
            r.name@ == name@,
            r.ifaddr == IfAddr::unspecified_spec(),
    {
        NodeConfig { name: String::from_str(name), ifaddr: IfAddr::unspecified() }
    }
}

impl From<&str> for NodeConfig {
    /// A node with this name and the default address; see [`NodeConfig::named`].
    fn from(name: &str) -> (r: NodeConfig) {
        NodeConfig::named(name)
    }
}

impl vstd::std_specs::convert::FromSpecImpl<&str> for NodeConfig {
    /// The name's `String` cannot be written in spec code: what `from` returns is
    /// stated on [`NodeConfig::named`].
    open spec fn obeys_from_spec() -> bool {
        false
    }

    open spec fn from_spec(name: &str) -> NodeConfig {
        vstd::pervasive::arbitrary()
    }
}

/// Name of the switch-side end of node `i`'s link: `n<i>`, also the node's default name.
pub open spec fn outer_name(i: nat) -> Seq<char> {
    seq!['n'] + decimal(i)
}

/// Name of the node-side end of node `i`'s link: `veth<i>`.
pub open spec fn inner_name(i: nat) -> Seq<char> {
    seq!['v', 'e', 't', 'h'] + decimal(i)
}

/// The switch-side interface name of node `i`.
pub fn outer_ifname(i: usize) -> (r: String)
    ensures
        r@ == outer_name(i as nat),
{
    let mut s = String::from_str("n");
    s.append(decimal_string(i as u64).as_str());
    proof {
        reveal_strlit("n");
    }
    assert(s@ =~= outer_name(i as nat));
    s
}

/// The node-side interface name of node `i`.
pub fn inner_ifname(i: usize) -> (r: String)
    ensures
        r@ == inner_name(i as nat),
{
    let mut s = String::from_str("veth");
    s.append(decimal_string(i as u64).as_str());
    proof {
        reveal_strlit("veth");
    }
    assert(s@ =~= inner_name(i as nat));
    s
}

/// The default address of node `i`, if [`NODE_NETWORK`] has that many hosts.
pub open spec fn default_addr(i: int) -> Option<u32> {
    nth_host(NODE_NETWORK, NODE_PREFIX_LEN, i)
}

/// Node `i` gets 10.84.0.0 + 1 + `i` by default, for `i` up to 65533, and
/// there is no default address past that.
pub proof fn lemma_default_addr(i: int)
    requires
        0 <= i,
    ensures
        i <= 65533 ==> default_addr(i) == Some((NODE_NETWORK + 1 + i) as u32),
        i > 65533 ==> default_addr(i) is None,
{
    lemma2_to64();
    assert(block_size(NODE_PREFIX_LEN) == 65536);
    assert(0x0a54_0000int / 65536 == 2644);
    assert(network_start(NODE_NETWORK, NODE_PREFIX_LEN) == 0x0a54_0000);
}

/// The name a node ends up with.
pub open spec fn final_name(c: NodeConfig, i: int) -> Seq<char> {
    if c.name@.len() == 0 {
        outer_name(i as nat)
    } else {
        c.name@
    }
}

/// Gives each node without a name the name `n<i>`, and each node without an
/// address the `i`-th host of [`NODE_NETWORK`] with its prefix length.
///
/// Fails when a node without an address has an index past the network's hosts.
pub fn normalize_nodes(nodes: &Vec<NodeConfig>) -> (r: Result<Vec<NodeConfig>, ConfigError>)
    ensures
        match r {
            Ok(v) => {
                &&& v@.len() == nodes@.len()
                &&& forall|i: int|
                    0 <= i < v@.len() ==> (#[trigger] v@[i]).name@ == final_name(nodes@[i], i)
                &&& forall|i: int|
                    0 <= i < v@.len() && (#[trigger] nodes@[i]).ifaddr.addr_spec() != 0 ==> v@[i].ifaddr
                        == nodes@[i].ifaddr
                &&& forall|i: int|
                    0 <= i < v@.len() && (#[trigger] nodes@[i]).ifaddr.addr_spec() == 0 ==> default_addr(i)
                        == Some(v@[i].ifaddr.addr_spec()) && v@[i].ifaddr.prefix_len_spec()
                        == NODE_PREFIX_LEN
            },
            Err(e) => e == ConfigError::AddressesExhausted && exists|i: int|
                0 <= i < nodes@.len() && (#[trigger] nodes@[i]).ifaddr.addr_spec() == 0 && default_addr(i) is None,
        },
{
    let mut out: Vec<NodeConfig> = Vec::new();
    let mut i: usize = 0;
    while i < nodes.len()
        invariant
            i <= nodes@.len(),
            out@.len() == i,
            forall|j: int| 0 <= j < i ==> (#[trigger] out@[j]).name@ == final_name(nodes@[j], j),
            forall|j: int|
                0 <= j < i && (#[trigger] nodes@[j]).ifaddr.addr_spec() != 0 ==> out@[j].ifaddr
                    == nodes@[j].ifaddr,
            forall|j: int|
                0 <= j < i && (#[trigger] nodes@[j]).ifaddr.addr_spec() == 0 ==> default_addr(j)
                    == Some(out@[j].ifaddr.addr_spec()) && out@[j].ifaddr.prefix_len_spec()
                    == NODE_PREFIX_LEN,
        decreases nodes@.len() - i,
    {
        let node = &nodes[i];
        let name = if node.name.as_str().is_empty() {
            outer_ifname(i)
        } else {
            node.name.clone()
        };
        let ifaddr = if node.ifaddr.is_unspecified() {
            match host_of_network(NODE_NETWORK, NODE_PREFIX_LEN, i) {
                Some(h) => IfAddr { addr: h, prefix_len: NODE_PREFIX_LEN },
                None => {
                    return Err(ConfigError::AddressesExhausted);
                },
            }
        } else {
            node.ifaddr
        };
        out.push(NodeConfig { name, ifaddr });
        i = i + 1;
    }
    Ok(out)
}

/// The line of the hosts file for one node: `<address> <name>`.
pub open spec fn hosts_line(c: NodeConfig) -> Seq<char> {
    dotted(c.ifaddr.addr_spec()) + seq![' '] + c.name@ + seq!['\n']
}

/// The hosts file for the first `k` nodes, one line each, in order.
pub open spec fn hosts_text(nodes: Seq<NodeConfig>, k: int) -> Seq<char>
    decreases k,
{
    if k <= 0 {
        Seq::empty()
    } else {
        hosts_text(nodes, k - 1) + hosts_line(nodes[k - 1])
    }
}

/// The hosts file that maps every node's name to its address.
pub fn hosts_file(nodes: &Vec<NodeConfig>) -> (r: String)
    ensures
        r@ == hosts_text(nodes@, nodes@.len() as int),
{
    let mut s = String::new();
    let mut i: usize = 0;
    proof {
        reveal_strlit(" ");
        reveal_strlit("\n");
    }
    while i < nodes.len()
        invariant
            i <= nodes@.len(),
            s@ == hosts_text(nodes@, i as int),
            " "@ == seq![' '],
            "\n"@ == seq!['\n'],
        decreases nodes@.len() - i,
    {
        let node = &nodes[i];
        s.append(node.ifaddr.addr_text().as_str());
        s.append(" ");
        s.append(node.name.as_str());
        s.append("\n");
        i = i + 1;
        assert(s@ =~= hosts_text(nodes@, i as int));
    }
    s
}

} // verus!
