//! Veth-pair naming: the host-side interface name and the container MAC
//! address are derived deterministically from the container ID, so that
//! later invocations can find the interfaces again without any side table.
//! The kernel-side creation, migration and deletion of the pair is netlink
//! I/O and lives with the callers.

use vstd::prelude::*;

verus! {

/// Longest interface name the kernel accepts.
pub const MAX_IFNAME_LEN: usize = 15;

/// Prefix of every host-side veth name.
pub const HOST_VETH_PREFIX: &'static str = "fn-";

/// Descriptor of one provisioned veth pair.
pub struct VethPair {
    /// Host-side interface name.
    pub host_ifname: String,
    /// Host-side interface index.
    pub host_index: u32,
    /// Container-side interface name.
    pub container_ifname: String,
    /// MAC address of the container interface.
    pub mac_address: String,
}

/// One kernel operation of the veth provisioning sequence.
#[derive(Clone, Copy, Debug, PartialEq, Eq, Structural)]
pub enum VethAction {
    /// Create the pair, a pair another process created first counting as
    /// success.
    CreatePair,
    /// Set the MTU on both ends.
    SetMtuBoth,
    /// Move the container-side end into the target namespace.
    MoveToNamespace,
    /// Bring the host-side end up.
    HostUp,
}

/// The operations that provision a veth pair, given whether the host-side
/// interface already exists: an existing pair is reused untouched, which
/// covers a retried provisioning request.
pub fn create_veth_plan(host_exists: bool) -> (r: Vec<VethAction>)
    ensures
        host_exists ==> r@ =~= Seq::<VethAction>::empty(),
        !host_exists ==> r@ =~= seq![
            VethAction::CreatePair,
            VethAction::SetMtuBoth,
            VethAction::MoveToNamespace,
            VethAction::HostUp,
        ],
{
    let mut v: Vec<VethAction> = Vec::new();
    if !host_exists {
        v.push(VethAction::CreatePair);
        v.push(VethAction::SetMtuBoth);
        v.push(VethAction::MoveToNamespace);
        v.push(VethAction::HostUp);
    }
    v
}

/// One operation of the container-side interface configuration, run while
/// switched into the container's namespace.
#[derive(Clone, Copy, Debug, PartialEq, Eq, Structural)]
pub enum ContainerIfaceAction {
    /// Bring the loopback interface up.
    LoopbackUp,
    /// Add the allocated address to the interface.
    AddAddress,
    /// Bring the interface up.
    InterfaceUp,
    /// Install the default route through the gateway.
    AddDefaultRoute,
}

/// The fixed sequence configuring the container side.
pub fn container_iface_plan() -> (r: Vec<ContainerIfaceAction>)
    ensures
        r@ =~= seq![
            ContainerIfaceAction::LoopbackUp,
            ContainerIfaceAction::AddAddress,
            ContainerIfaceAction::InterfaceUp,
            ContainerIfaceAction::AddDefaultRoute,
        ],
{
    let mut v: Vec<ContainerIfaceAction> = Vec::new();
    v.push(ContainerIfaceAction::LoopbackUp);
    v.push(ContainerIfaceAction::AddAddress);
    v.push(ContainerIfaceAction::InterfaceUp);
    v.push(ContainerIfaceAction::AddDefaultRoute);
    v
}

/// Whether a step of the container-side sequence treats an already-present
/// resource as success: the address and the route tolerate it, to survive
/// benign races with concurrent provisioning.
pub fn tolerates_existing(a: ContainerIfaceAction) -> (r: bool)
    ensures
        r == (a == ContainerIfaceAction::AddAddress || a == ContainerIfaceAction::AddDefaultRoute),
{
    match a {
        ContainerIfaceAction::AddAddress => true,
        ContainerIfaceAction::AddDefaultRoute => true,
        _ => false,
    }
}

/// Whether a failed step of the container-side sequence only warns instead
/// of failing the request: only the loopback step is best-effort.
pub fn is_best_effort(a: ContainerIfaceAction) -> (r: bool)
    ensures
        r == (a == ContainerIfaceAction::LoopbackUp),
{
    match a {
        ContainerIfaceAction::LoopbackUp => true,
        _ => false,
    }
}

/// A hexadecimal digit character.
pub open spec fn is_hex_digit(c: char) -> bool {
    ('0' <= c && c <= '9') || ('a' <= c && c <= 'f') || ('A' <= c && c <= 'F')
}

/// The hexadecimal digits of a sequence, in order.
pub open spec fn hex_filter(s: Seq<char>) -> Seq<char>
    decreases s.len(),
{
    if s.len() == 0 {
        Seq::empty()
    } else {
        let sub = hex_filter(s.drop_last());
        if is_hex_digit(s.last()) {
            sub.push(s.last())
        } else {
            sub
        }
    }
}

/// The first `n` hexadecimal digits of a sequence, or all of them if there
/// are fewer.
pub open spec fn hex_prefix(s: Seq<char>, n: int) -> Seq<char> {
    let f = hex_filter(s);
    if f.len() <= n {
        f
    } else {
        f.take(n)
    }
}

/// The host-side interface name derived from a container ID: the fixed
/// prefix and up to twelve hexadecimal digits of the ID.
pub open spec fn ifname_seq(cid: Seq<char>) -> Seq<char> {
    "fn-"@ + hex_prefix(cid, 12)
}

/// The filtered digits, padded with zeros to ten characters.
pub open spec fn mac_digits(cid: Seq<char>) -> Seq<char> {
    let t = hex_prefix(cid, 10);
    t + Seq::new((10 - t.len()) as nat, |i: int| '0')
}

/// The MAC address derived from a container ID: the locally-administered
/// prefix `02`, then the padded digits in colon-separated pairs.
pub open spec fn mac_seq(cid: Seq<char>) -> Seq<char> {
    let p = mac_digits(cid);
    seq!['0', '2', ':'] + p.subrange(0, 2) + seq![':'] + p.subrange(2, 4) + seq![':'] + p.subrange(
        4,
        6,
    ) + seq![':'] + p.subrange(6, 8) + seq![':'] + p.subrange(8, 10)
}

pub proof fn lemma_hex_filter_len(s: Seq<char>)
    ensures
        hex_filter(s).len() <= s.len(),
    decreases s.len(),
{
    if s.len() > 0 {
        lemma_hex_filter_len(s.drop_last());
    }
}

/// Law: the derived name is a function of the container ID alone, stays
/// within the kernel's length limit, and always begins with the fixed
/// prefix.
pub proof fn lemma_ifname_bounds(cid: Seq<char>)
    ensures
        ifname_seq(cid).len() <= 15,
        ifname_seq(cid).len() >= 3,
        ifname_seq(cid).subrange(0, 3) =~= "fn-"@,
{
    reveal_strlit("fn-");
}

/// Whether a character is a hexadecimal digit.
fn is_hex_digit_char(c: char) -> (r: bool)
    ensures
        r == is_hex_digit(c),
{
    ('0' <= c && c <= '9') || ('a' <= c && c <= 'f') || ('A' <= c && c <= 'F')
}

/// The hexadecimal digits of a string, in order.
fn hex_chars(s: &str) -> (r: String)
    ensures
        r@ == hex_filter(s@),
{
    let n = s.unicode_len();
    let mut out = String::new();
    let mut i: usize = 0;
    while i < n
        invariant
            i <= n,
            n == s@.len(),
            out@ == hex_filter(s@.subrange(0, i as int)),
        decreases n - i,
    {
        let c = s.get_char(i);
        if is_hex_digit_char(c) {
            let piece = s.substring_char(i, i + 1);
            out.append(piece);
        }
        i = i + 1;
        proof {
            let pre = s@.subrange(0, i - 1);
            let cur = s@.subrange(0, i as int);
            assert(cur.drop_last() =~= pre);
            assert(cur.last() == s@[i - 1]);
            assert(s@.subrange(i - 1, i as int) =~= seq![s@[i - 1]]);
        }
    }
    proof {
        assert(s@.subrange(0, n as int) =~= s@);
    }
    out
}

/// Generate the host-side veth interface name from a container ID.
pub fn generate_host_ifname(container_id: &str) -> (r: String)
    ensures
        r@ == ifname_seq(container_id@),
        r@.len() <= MAX_IFNAME_LEN,
{
    let digits = hex_chars(container_id);
    let mut out = String::from_str(HOST_VETH_PREFIX);
    let len = digits.as_str().unicode_len();
    if len > 12 {
        let cut = digits.as_str().substring_char(0, 12);
        out.append(cut);
    } else {
        out.append(digits.as_str());
    }
    proof {
        lemma_ifname_bounds(container_id@);
        assert(out@ =~= ifname_seq(container_id@));
    }
    out
}

/// Generate the MAC address for the container interface from a container
/// ID.
pub fn generate_mac_address(container_id: &str) -> (r: String)
    ensures
        r@ == mac_seq(container_id@),
{
    let digits = hex_chars(container_id);
    let len = digits.as_str().unicode_len();
    let mut padded = if len > 10 {
        String::from_str(digits.as_str().substring_char(0, 10))
    } else {
        digits
    };
    while padded.as_str().unicode_len() < 10
        invariant
            padded@.len() <= 10,
            padded@.len() >= hex_prefix(container_id@, 10).len(),
            padded@ =~= mac_digits(container_id@).take(padded@.len() as int),
        decreases 10 - padded@.len(),
    {
        padded.append("0");
        proof {
            reveal_strlit("0");
            let t = hex_prefix(container_id@, 10);
            let d = mac_digits(container_id@);
            assert(d.len() == 10);
            assert(d[padded@.len() - 1] == '0');
            assert(padded@ =~= d.take(padded@.len() as int));
        }
    }
    proof {
        assert(padded@ =~= mac_digits(container_id@));
    }
    let p = padded.as_str();
    let mut out = String::from_str("02:");
    out.append(p.substring_char(0, 2));
    out.append(":");
    out.append(p.substring_char(2, 4));
    out.append(":");
    out.append(p.substring_char(4, 6));
    out.append(":");
    out.append(p.substring_char(6, 8));
    out.append(":");
    out.append(p.substring_char(8, 10));
    proof {
        reveal_strlit("02:");
        reveal_strlit(":");
        assert(out@ =~= mac_seq(container_id@));
    }
    out
}

} // verus!
