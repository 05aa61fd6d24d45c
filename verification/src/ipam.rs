//! File-backed address allocation state: a mapping from container identifiers
//! to dotted-decimal addresses inside a configured range, with a single-host
//! and a per-host-subnet (multihost) scheme.
//!
//! The state itself is a plain value; reading it from and writing it back to
//! the locked state file is the caller's concern. Every operation here is a
//! pure state transition with an exact contract.

use vstd::prelude::*;

use crate::error::{CniError, CniErrorCode};
use crate::ip::{
    format_ip, ip_of_octets, ip_seq, ip_val, is_ip_seq, lemma_ip_seq_chars, lemma_ip_val,
    lemma_octets_of_assembled, parse_ip, parse_octet,
};
use crate::text::{
    dec_seq, dec_str, find_char, is_digit, lemma_dec3, lemma_dec_seq_canonical,
    lemma_dec_seq_injective, str_eq,
};

verus! {

/// Directory holding the allocation state on a host.
pub const IPAM_DIR: &'static str = "/var/lib/flatnet/ipam";

/// Name of the allocations file inside the state directory.
pub const ALLOCATIONS_FILE: &'static str = "allocations.json";

/// Name of the lock sentinel file inside the state directory.
pub const LOCK_FILE: &'static str = ".lock";

/// Host ID used by single-host deployments.
pub const DEFAULT_HOST_ID: u8 = 1;

/// First two address bytes of every multihost subnet.
pub const MULTIHOST_SUBNET_BASE: &'static str = "10.100";

/// Subnet of the legacy single-host scheme.
pub const DEFAULT_SUBNET: &'static str = "10.87.1.0/24";

/// First allocatable address of the legacy single-host scheme.
pub const DEFAULT_RANGE_START: &'static str = "10.87.1.2";

/// Last allocatable address of the legacy single-host scheme.
pub const DEFAULT_RANGE_END: &'static str = "10.87.1.254";

/// First allocatable final byte in a multihost subnet; the bytes below it
/// are reserved for infrastructure.
pub const MULTIHOST_CONTAINER_START: u8 = 10;

/// Last allocatable final byte in a multihost subnet.
pub const MULTIHOST_CONTAINER_END: u8 = 254;

/// The durable allocation state of one host, as stored in its state file.
pub struct IpamState {
    /// Subnet in CIDR notation.
    pub subnet: String,
    /// Gateway address.
    pub gateway: String,
    /// First address of the allocation range.
    pub range_start: String,
    /// Last address of the allocation range.
    pub range_end: String,
    /// Host ID for multihost deployments.
    pub host_id: u8,
    /// Whether the multihost scheme is in use.
    pub multihost: bool,
    /// Container ID to address, in insertion order, keys unique.
    pub allocations: Vec<(String, String)>,
}

/// Mathematical shadow of `IpamState`: the same fields as character
/// sequences.
#[verifier::ext_equal]
pub ghost struct IpamModel {
    pub subnet: Seq<char>,
    pub gateway: Seq<char>,
    pub range_start: Seq<char>,
    pub range_end: Seq<char>,
    pub host_id: u8,
    pub multihost: bool,
    pub allocs: Seq<(Seq<char>, Seq<char>)>,
}

impl View for IpamState {
    type V = IpamModel;

    open spec fn view(&self) -> IpamModel {
        IpamModel {
            subnet: self.subnet@,
            gateway: self.gateway@,
            range_start: self.range_start@,
            range_end: self.range_end@,
            host_id: self.host_id,
            multihost: self.multihost,
            allocs: self.allocations@.map_values(|p: (String, String)| (p.0@, p.1@)),
        }
    }
}

/// The result of one allocation request.
#[derive(Debug)]
pub struct IpAllocation {
    /// Allocated address in dotted-decimal form.
    pub ip: String,
    /// Subnet prefix length.
    pub prefix_len: u8,
    /// Gateway address in dotted-decimal form.
    pub gateway: String,
    /// Host ID of the state the address came from.
    pub host_id: u8,
}

/// Whether some entry carries the given container key.
pub open spec fn model_has_key(al: Seq<(Seq<char>, Seq<char>)>, k: Seq<char>) -> bool {
    exists|i: int| 0 <= i < al.len() && al[i].0 == k
}

/// The value of the first entry carrying the given key, if any.
pub open spec fn model_lookup(al: Seq<(Seq<char>, Seq<char>)>, k: Seq<char>) -> Option<Seq<char>>
    decreases al.len(),
{
    if al.len() == 0 {
        None
    } else if al[0].0 == k {
        Some(al[0].1)
    } else {
        model_lookup(al.drop_first(), k)
    }
}

/// The entries with the first occurrence of the given key removed.
pub open spec fn model_remove(al: Seq<(Seq<char>, Seq<char>)>, k: Seq<char>) -> Seq<
    (Seq<char>, Seq<char>),
>
    decreases al.len(),
{
    if al.len() == 0 {
        al
    } else if al[0].0 == k {
        al.drop_first()
    } else {
        seq![al[0]] + model_remove(al.drop_first(), k)
    }
}

/// Whether the given address is already the value of some entry.
pub open spec fn used_ip(al: Seq<(Seq<char>, Seq<char>)>, ip: u32) -> bool {
    exists|i: int| 0 <= i < al.len() && al[i].1 == ip_seq(ip)
}

/// The smallest free address in `[lo, hi]`, if any.
pub open spec fn first_free(al: Seq<(Seq<char>, Seq<char>)>, lo: int, hi: int) -> Option<u32>
    decreases hi + 1 - lo,
{
    if lo > hi || lo < 0 || hi >= 0x100000000 {
        None
    } else if !used_ip(al, lo as u32) {
        Some(lo as u32)
    } else {
        first_free(al, lo + 1, hi)
    }
}

/// Whether a sequence is some text, a single slash, and a canonical decimal
/// byte: the form a subnet prefix is read from.
pub open spec fn has_prefix_form(s: Seq<char>) -> bool {
    exists|head: Seq<char>, p: u8| slash_free(head) && s == head + seq!['/'] + dec_seq(p as nat)
}

/// The decomposition such a sequence is read by.
pub open spec fn prefix_decomp(s: Seq<char>) -> (Seq<char>, u8) {
    choose|head: Seq<char>, p: u8|
        slash_free(head) && s == head + seq!['/'] + dec_seq(p as nat)
}

/// The prefix length read from such a sequence.
pub open spec fn prefix_of(s: Seq<char>) -> u8 {
    prefix_decomp(s).1
}

pub open spec fn slash_free(s: Seq<char>) -> bool {
    forall|i: int| 0 <= i < s.len() ==> s[i] != '/'
}

/// Well-formedness of the allocation state: the range and gateway are
/// addresses, the subnet carries a prefix, the range is ordered, keys are
/// unique, and every stored address is distinct and lies inside the range.
pub open spec fn wf_model(m: IpamModel) -> bool {
    &&& is_ip_seq(m.range_start)
    &&& is_ip_seq(m.range_end)
    &&& is_ip_seq(m.gateway)
    &&& ip_val(m.range_start) <= ip_val(m.range_end)
    &&& has_prefix_form(m.subnet)
    &&& (forall|i: int, j: int|
        0 <= i < j < m.allocs.len() ==> m.allocs[i].0 != m.allocs[j].0)
    &&& (forall|i: int|
        0 <= i < m.allocs.len() ==> in_range(m, #[trigger] m.allocs[i].1))
    &&& (forall|i: int, j: int|
        0 <= i < j < m.allocs.len() ==> m.allocs[i].1 != m.allocs[j].1)
}

/// Whether a value is the text of an address inside the model's range.
pub open spec fn in_range(m: IpamModel, v: Seq<char>) -> bool {
    exists|x: u32|
        v == ip_seq(x) && ip_val(m.range_start) <= x <= ip_val(m.range_end)
}

/// Outcome of one allocation request, at the model level.
pub ghost enum AllocOutcome {
    /// The container holds this address, freshly granted or found again.
    Granted(u32),
    /// Some stored text could not be read as an address or prefix.
    Invalid,
    /// Every address of the range is taken.
    Exhausted,
}

/// The allocation transition: what one allocation request does to the state
/// and what it answers.
pub open spec fn spec_allocate(m: IpamModel, k: Seq<char>) -> (IpamModel, AllocOutcome) {
    match model_lookup(m.allocs, k) {
        Some(v) => {
            if is_ip_seq(v) && has_prefix_form(m.subnet) && is_ip_seq(m.gateway) {
                (m, AllocOutcome::Granted(ip_val(v)))
            } else {
                (m, AllocOutcome::Invalid)
            }
        },
        None => {
            if is_ip_seq(m.range_start) && is_ip_seq(m.range_end) && has_prefix_form(m.subnet)
                && is_ip_seq(m.gateway) {
                match first_free(m.allocs, ip_val(m.range_start) as int, ip_val(m.range_end) as int) {
                    Some(x) => (
                        IpamModel { allocs: m.allocs.push((k, ip_seq(x))), ..m },
                        AllocOutcome::Granted(x),
                    ),
                    None => (m, AllocOutcome::Exhausted),
                }
            } else {
                (m, AllocOutcome::Invalid)
            }
        },
    }
}

/// The release transition: the entry of the given container, if any, leaves
/// the state.
pub open spec fn spec_release(m: IpamModel, k: Seq<char>) -> IpamModel {
    IpamModel { allocs: model_remove(m.allocs, k), ..m }
}

// ------------------------------------------------------------------
// Facts about lookup, removal and the free-address scan.
// ------------------------------------------------------------------

pub proof fn lemma_lookup_some_iff_has_key(al: Seq<(Seq<char>, Seq<char>)>, k: Seq<char>)
    ensures
        model_lookup(al, k) is Some <==> model_has_key(al, k),
    decreases al.len(),
{
    if al.len() > 0 {
        if al[0].0 == k {
        } else {
            lemma_lookup_some_iff_has_key(al.drop_first(), k);
            assert(forall|i: int|
                0 <= i < al.drop_first().len() ==> #[trigger] al.drop_first()[i] == al[i + 1]);
            if model_has_key(al, k) {
                let i = choose|i: int| 0 <= i < al.len() && al[i].0 == k;
                assert(i >= 1);
                assert(al.drop_first()[i - 1].0 == k);
            }
            if model_has_key(al.drop_first(), k) {
                let i = choose|i: int| 0 <= i < al.drop_first().len() && al.drop_first()[i].0 == k;
                assert(al[i + 1].0 == k);
            }
        }
    }
}

/// A first match at index `i` settles the lookup result.
pub proof fn lemma_lookup_at(al: Seq<(Seq<char>, Seq<char>)>, k: Seq<char>, i: int)
    requires
        0 <= i < al.len(),
        al[i].0 == k,
        forall|j: int| 0 <= j < i ==> al[j].0 != k,
    ensures
        model_lookup(al, k) == Some(al[i].1),
    decreases i,
{
    if i > 0 {
        assert(forall|j: int|
            0 <= j < al.drop_first().len() ==> #[trigger] al.drop_first()[j] == al[j + 1]);
        lemma_lookup_at(al.drop_first(), k, i - 1);
    }
}

pub proof fn lemma_lookup_none(al: Seq<(Seq<char>, Seq<char>)>, k: Seq<char>)
    requires
        forall|j: int| 0 <= j < al.len() ==> al[j].0 != k,
    ensures
        model_lookup(al, k) is None,
{
    lemma_lookup_some_iff_has_key(al, k);
}

/// A first match at index `i` makes removal drop exactly that entry.
pub proof fn lemma_remove_at(al: Seq<(Seq<char>, Seq<char>)>, k: Seq<char>, i: int)
    requires
        0 <= i < al.len(),
        al[i].0 == k,
        forall|j: int| 0 <= j < i ==> al[j].0 != k,
    ensures
        model_remove(al, k) =~= al.remove(i),
    decreases i,
{
    if i == 0 {
        assert(al.drop_first() =~= al.remove(0));
    } else {
        assert(forall|j: int|
            0 <= j < al.drop_first().len() ==> #[trigger] al.drop_first()[j] == al[j + 1]);
        lemma_remove_at(al.drop_first(), k, i - 1);
        assert(model_remove(al, k) == seq![al[0]] + model_remove(al.drop_first(), k));
        assert(al.drop_first().remove(i - 1) =~= al.remove(i).drop_first());
        assert(al.remove(i)[0] == al[0]);
        assert(seq![al[0]] + al.remove(i).drop_first() =~= al.remove(i));
    }
}

pub proof fn lemma_remove_absent(al: Seq<(Seq<char>, Seq<char>)>, k: Seq<char>)
    requires
        forall|j: int| 0 <= j < al.len() ==> al[j].0 != k,
    ensures
        model_remove(al, k) =~= al,
    decreases al.len(),
{
    if al.len() > 0 {
        assert(forall|j: int|
            0 <= j < al.drop_first().len() ==> #[trigger] al.drop_first()[j] == al[j + 1]);
        lemma_remove_absent(al.drop_first(), k);
        assert(seq![al[0]] + al.drop_first() =~= al);
    }
}

/// What a successful scan for the first free address guarantees.
pub proof fn lemma_first_free_found(
    al: Seq<(Seq<char>, Seq<char>)>,
    lo: int,
    hi: int,
    x: int,
)
    requires
        0 <= lo <= x <= hi < 0x100000000,
        forall|y: int| lo <= y < x ==> used_ip(al, #[trigger] (y as u32)),
        !used_ip(al, x as u32),
    ensures
        first_free(al, lo, hi) == Some(x as u32),
    decreases x - lo,
{
    if lo < x {
        assert(used_ip(al, lo as u32));
        lemma_first_free_found(al, lo + 1, hi, x);
    }
}

pub proof fn lemma_first_free_none(al: Seq<(Seq<char>, Seq<char>)>, lo: int, hi: int)
    requires
        forall|y: int| lo <= y <= hi ==> used_ip(al, #[trigger] (y as u32)),
        0 <= lo,
        hi < 0x100000000,
    ensures
        first_free(al, lo, hi) is None,
    decreases hi + 1 - lo,
{
    if lo <= hi {
        lemma_first_free_none(al, lo + 1, hi);
    }
}

// ------------------------------------------------------------------
// The two addressing schemes.
// ------------------------------------------------------------------

/// An address in a multihost subnet: base `10.100`, then the host ID, then
/// the final byte.
pub open spec fn mh_ip(host_id: u8, last: u8) -> u32 {
    ip_of_octets(10, 100, host_id as nat, last as nat) as u32
}

/// The state a fresh multihost installation starts from.
pub open spec fn multihost_model(host_id: u8) -> IpamModel {
    IpamModel {
        subnet: ip_seq(mh_ip(host_id, 0)) + seq!['/'] + dec_seq(24),
        gateway: ip_seq(mh_ip(host_id, 1)),
        range_start: ip_seq(mh_ip(host_id, 10)),
        range_end: ip_seq(mh_ip(host_id, 254)),
        host_id: host_id,
        multihost: true,
        allocs: Seq::empty(),
    }
}

/// An address in the legacy single-host subnet `10.87.1`.
pub open spec fn legacy_ip(last: u8) -> u32 {
    ip_of_octets(10, 87, 1, last as nat) as u32
}

/// The state a fresh single-host installation starts from.
pub open spec fn default_model() -> IpamModel {
    IpamModel {
        subnet: ip_seq(legacy_ip(0)) + seq!['/'] + dec_seq(24),
        gateway: ip_seq(legacy_ip(1)),
        range_start: ip_seq(legacy_ip(2)),
        range_end: ip_seq(legacy_ip(254)),
        host_id: 1,
        multihost: false,
        allocs: Seq::empty(),
    }
}

/// The multihost rendering spelled out: the base text, the host ID and the
/// final byte, dot-separated.
pub proof fn lemma_mh_text(host_id: u8, last: u8)
    ensures
        ip_seq(mh_ip(host_id, last)) =~= "10.100"@ + seq!['.'] + dec_seq(host_id as nat)
            + seq!['.'] + dec_seq(last as nat),
{
    lemma_octets_of_assembled(10, 100, host_id as nat, last as nat);
    reveal_strlit("10.100");
    lemma_dec3(10);
    lemma_dec3(100);
    assert("10.100"@ =~= dec_seq(10) + seq!['.'] + dec_seq(100));
}

/// A dotted-decimal rendering holds no slash.
pub proof fn lemma_ip_seq_slash_free(ip: u32)
    ensures
        slash_free(ip_seq(ip)),
{
    lemma_ip_seq_chars(ip);
    assert forall|i: int| 0 <= i < ip_seq(ip).len() implies ip_seq(ip)[i] != '/' by {
        assert(is_digit(ip_seq(ip)[i]) || ip_seq(ip)[i] == '.');
    }
}

/// A decomposition at a slash determines the prefix length.
pub proof fn lemma_prefix_unique(s: Seq<char>, head: Seq<char>, p: u8)
    requires
        slash_free(head),
        s == head + seq!['/'] + dec_seq(p as nat),
    ensures
        has_prefix_form(s),
        prefix_of(s) == p,
{
    assert(has_prefix_form(s));
    let h2 = prefix_decomp(s).0;
    let p2 = prefix_decomp(s).1;
    assert(slash_free(h2) && s == h2 + seq!['/'] + dec_seq(p2 as nat)) by {
        assert(slash_free(head) && s == head + seq!['/'] + dec_seq(p as nat));
    }
    lemma_dec_seq_canonical(p as nat);
    lemma_dec_seq_canonical(p2 as nat);
    assert(s[head.len() as int] == '/');
    assert(s[h2.len() as int] == '/');
    assert(forall|i: int| 0 <= i < head.len() ==> s[i] == head[i] && s[i] != '/');
    assert(forall|i: int| 0 <= i < h2.len() ==> s[i] == h2[i] && s[i] != '/');
    assert(forall|i: int|
        head.len() < i < s.len() ==> s[i] == dec_seq(p as nat)[i - head.len() - 1] && is_digit(
            s[i],
        ));
    assert(head.len() == h2.len());
    assert(dec_seq(p as nat) =~= dec_seq(p2 as nat)) by {
        assert(forall|j: int|
            0 <= j < dec_seq(p as nat).len() ==> dec_seq(p as nat)[j] == s[head.len() + 1 + j]
                && #[trigger] dec_seq(p2 as nat)[j] == s[head.len() + 1 + j]);
    }
    lemma_dec_seq_injective(p as nat, p2 as nat);
}

/// A fresh multihost state is well formed.
pub proof fn lemma_multihost_model_wf(host_id: u8)
    ensures
        wf_model(multihost_model(host_id)),
{
    let m = multihost_model(host_id);
    lemma_ip_val(mh_ip(host_id, 1));
    lemma_ip_val(mh_ip(host_id, 10));
    lemma_ip_val(mh_ip(host_id, 254));
    lemma_octets_of_assembled(10, 100, host_id as nat, 10);
    lemma_octets_of_assembled(10, 100, host_id as nat, 254);
    lemma_ip_seq_slash_free(mh_ip(host_id, 0));
    lemma_prefix_unique(m.subnet, ip_seq(mh_ip(host_id, 0)), 24);
}

/// A fresh single-host state is well formed.
pub proof fn lemma_default_model_wf()
    ensures
        wf_model(default_model()),
{
    let m = default_model();
    lemma_ip_val(legacy_ip(1));
    lemma_ip_val(legacy_ip(2));
    lemma_ip_val(legacy_ip(254));
    lemma_octets_of_assembled(10, 87, 1, 2);
    lemma_octets_of_assembled(10, 87, 1, 254);
    lemma_ip_seq_slash_free(legacy_ip(0));
    lemma_prefix_unique(m.subnet, ip_seq(legacy_ip(0)), 24);
}

/// The single-host constants are the renderings of the single-host scheme.
pub proof fn lemma_default_strings()
    ensures
        "10.87.1.0/24"@ == default_model().subnet,
        "10.87.1.1"@ == default_model().gateway,
        "10.87.1.2"@ == default_model().range_start,
        "10.87.1.254"@ == default_model().range_end,
{
    reveal_strlit("10.87.1.0/24");
    reveal_strlit("10.87.1.1");
    reveal_strlit("10.87.1.2");
    reveal_strlit("10.87.1.254");
    lemma_octets_of_assembled(10, 87, 1, 0);
    lemma_octets_of_assembled(10, 87, 1, 1);
    lemma_octets_of_assembled(10, 87, 1, 2);
    lemma_octets_of_assembled(10, 87, 1, 254);
    lemma_dec3(10);
    lemma_dec3(87);
    lemma_dec3(1);
    lemma_dec3(0);
    lemma_dec3(2);
    lemma_dec3(254);
    lemma_dec3(24);
    assert("10.87.1.0/24"@ =~= default_model().subnet);
    assert("10.87.1.1"@ =~= default_model().gateway);
    assert("10.87.1.2"@ =~= default_model().range_start);
    assert("10.87.1.254"@ =~= default_model().range_end);
}

#[verifier::rlimit(50)]
pub proof fn lemma_first_free_props(al: Seq<(Seq<char>, Seq<char>)>, lo: int, hi: int)
    requires
        0 <= lo,
        hi < 0x100000000,
    ensures
        match first_free(al, lo, hi) {
            Some(x) => lo <= x <= hi && !used_ip(al, x) && forall|y: int|
                lo <= y < x ==> used_ip(al, #[trigger] (y as u32)),
            None => forall|y: int|
                lo <= y <= hi && 0 <= y < 0x100000000 ==> used_ip(al, #[trigger] (y as u32)),
        },
    decreases hi + 1 - lo,
{
    if lo > hi || lo < 0 || hi >= 0x100000000 {
    } else if !used_ip(al, lo as u32) {
    } else {
        lemma_first_free_props(al, lo + 1, hi);
    }
}

// ------------------------------------------------------------------
// Executable state operations.
// ------------------------------------------------------------------

impl IpamState {
    /// Create a fresh multihost state for the given host ID: subnet
    /// `10.100.<host_id>.0/24`, gateway `10.100.<host_id>.1`, allocatable
    /// range `10.100.<host_id>.10` through `10.100.<host_id>.254`.
    #[verifier::rlimit(100)]
    #[verifier::spinoff_prover]
    pub fn new_multihost(host_id: u8) -> (r: Self)
        ensures
            r@ == multihost_model(host_id),
            wf_model(r@),
            r@.subnet == "10.100"@ + seq!['.'] + dec_seq(host_id as nat) + ".0/24"@,
            r@.gateway == "10.100"@ + seq!['.'] + dec_seq(host_id as nat) + ".1"@,
            r@.range_start == "10.100"@ + seq!['.'] + dec_seq(host_id as nat) + ".10"@,
            r@.range_end == "10.100"@ + seq!['.'] + dec_seq(host_id as nat) + ".254"@,
    {
        let id_s = dec_str(host_id as u64);

        let mut subnet = String::from_str(MULTIHOST_SUBNET_BASE);
        subnet.append(".");
        subnet.append(id_s.as_str());
        subnet.append(".0/24");

        let mut gateway = String::from_str(MULTIHOST_SUBNET_BASE);
        gateway.append(".");
        gateway.append(id_s.as_str());
        gateway.append(".1");

        let start_s = dec_str(MULTIHOST_CONTAINER_START as u64);
        let mut range_start = String::from_str(MULTIHOST_SUBNET_BASE);
        range_start.append(".");
        range_start.append(id_s.as_str());
        range_start.append(".");
        range_start.append(start_s.as_str());

        let end_s = dec_str(MULTIHOST_CONTAINER_END as u64);
        let mut range_end = String::from_str(MULTIHOST_SUBNET_BASE);
        range_end.append(".");
        range_end.append(id_s.as_str());
        range_end.append(".");
        range_end.append(end_s.as_str());

        let r = Self {
            subnet,
            gateway,
            range_start,
            range_end,
            host_id,
            multihost: true,
            allocations: Vec::new(),
        };
        proof {
            reveal_strlit(".");
            reveal_strlit(".0/24");
            reveal_strlit(".1");
            reveal_strlit(".10");
            reveal_strlit(".254");
            lemma_dec3(0);
            lemma_dec3(1);
            lemma_dec3(10);
            lemma_dec3(24);
            lemma_dec3(254);
            lemma_mh_text(host_id, 0);
            lemma_mh_text(host_id, 1);
            lemma_mh_text(host_id, 10);
            lemma_mh_text(host_id, 254);
            assert(r@.allocs =~= Seq::<(Seq<char>, Seq<char>)>::empty());
            assert(r@.subnet =~= multihost_model(host_id).subnet);
            assert(r@.gateway =~= multihost_model(host_id).gateway);
            assert(r@.range_start =~= multihost_model(host_id).range_start);
            assert(r@.range_end =~= multihost_model(host_id).range_end);
            assert(r@ =~= multihost_model(host_id));
            lemma_multihost_model_wf(host_id);
        }
        r
    }

    /// Whether this state uses the multihost scheme.
    pub fn is_multihost(&self) -> (r: bool)
        ensures
            r == self@.multihost,
    {
        self.multihost
    }
}

impl Default for IpamState {
    /// The legacy single-host state: subnet `10.87.1.0/24`, gateway
    /// `10.87.1.1`, allocatable range `10.87.1.2` through `10.87.1.254`.
    fn default() -> (r: Self)
        ensures
            r@ == default_model(),
            wf_model(r@),
            r@.subnet == DEFAULT_SUBNET@,
            r@.gateway == crate::bridge::DEFAULT_GATEWAY@,
            r@.range_start == DEFAULT_RANGE_START@,
            r@.range_end == DEFAULT_RANGE_END@,
    {
        let r = Self {
            subnet: String::from_str(DEFAULT_SUBNET),
            gateway: String::from_str(crate::bridge::DEFAULT_GATEWAY),
            range_start: String::from_str(DEFAULT_RANGE_START),
            range_end: String::from_str(DEFAULT_RANGE_END),
            host_id: DEFAULT_HOST_ID,
            multihost: false,
            allocations: Vec::new(),
        };
        proof {
            lemma_default_strings();
            assert(r@.allocs =~= Seq::<(Seq<char>, Seq<char>)>::empty());
            assert(r@ =~= default_model());
            lemma_default_model_wf();
        }
        r
    }
}

/// The state a host starts from when none is stored yet: the multihost
/// scheme for the given host ID, or the legacy single-host scheme.
pub fn init_state(host_id: Option<u8>) -> (r: IpamState)
    ensures
        match host_id {
            Some(id) => r@ == multihost_model(id),
            None => r@ == default_model(),
        },
        wf_model(r@),
{
    match host_id {
        Some(id) => IpamState::new_multihost(id),
        None => IpamState::default(),
    }
}

/// Index of the first entry whose key is the given container ID.
fn lookup_index(al: &Vec<(String, String)>, k: &str) -> (r: Option<usize>)
    ensures
        match r {
            Some(i) => {
                &&& i < al@.len()
                &&& al@[i as int].0@ == k@
                &&& forall|j: int| 0 <= j < i ==> al@[j].0@ != k@
            },
            None => forall|j: int| 0 <= j < al@.len() ==> al@[j].0@ != k@,
        },
{
    let n = al.len();
    let mut i: usize = 0;
    while i < n
        invariant
            i <= n,
            n == al@.len(),
            forall|j: int| 0 <= j < i ==> al@[j].0@ != k@,
        decreases n - i,
    {
        if str_eq(al[i].0.as_str(), k) {
            return Some(i);
        }
        i = i + 1;
    }
    None
}

/// Whether some entry's value equals the given text.
fn value_present(al: &Vec<(String, String)>, v: &str) -> (r: bool)
    ensures
        r == exists|i: int| 0 <= i < al@.len() && al@[i].1@ == v@,
{
    let n = al.len();
    let mut i: usize = 0;
    while i < n
        invariant
            i <= n,
            n == al@.len(),
            forall|j: int| 0 <= j < i ==> al@[j].1@ != v@,
        decreases n - i,
    {
        if str_eq(al[i].1.as_str(), v) {
            return true;
        }
        i = i + 1;
    }
    false
}

/// Read the prefix length from a subnet in CIDR notation: the text after
/// the single slash, as a canonical decimal byte.
pub fn parse_prefix_len(subnet: &str) -> (r: Result<u8, CniError>)
    ensures
        match r {
            Ok(p) => has_prefix_form(subnet@) && p == prefix_of(subnet@),
            Err(e) => !has_prefix_form(subnet@) && e.spec_code() == CniErrorCode::IpamFailure,
        },
{
    let n = subnet.unicode_len();
    let slash = match find_char(subnet, 0, '/') {
        Some(i) => i,
        None => {
            proof {
                lemma_no_slash_no_form(subnet@);
            }
            return Err(CniError::new(CniErrorCode::IpamFailure, "invalid subnet format"));
        },
    };
    match find_char(subnet, slash + 1, '/') {
        Some(j) => {
            proof {
                lemma_two_slashes_no_form(subnet@, slash as int, j as int);
            }
            return Err(CniError::new(CniErrorCode::IpamFailure, "invalid subnet format"));
        },
        None => {},
    }
    match parse_octet(subnet, slash + 1, n) {
        Some(p) => {
            proof {
                let head = subnet@.subrange(0, slash as int);
                assert(subnet@ =~= head + seq!['/'] + dec_seq(p as nat));
                lemma_prefix_unique(subnet@, head, p);
            }
            Ok(p)
        },
        None => {
            proof {
                lemma_tail_not_dec_no_form(subnet@, slash as int);
            }
            Err(CniError::new(CniErrorCode::IpamFailure, "invalid prefix length in subnet"))
        },
    }
}

proof fn lemma_no_slash_no_form(s: Seq<char>)
    requires
        forall|j: int| 0 <= j < s.len() ==> s[j] != '/',
    ensures
        !has_prefix_form(s),
{
    if has_prefix_form(s) {
        let (h, p) = prefix_decomp(s);
        assert(slash_free(h) && s == h + seq!['/'] + dec_seq(p as nat));
        assert(s[h.len() as int] == '/');
    }
}

proof fn lemma_two_slashes_no_form(s: Seq<char>, i: int, j: int)
    requires
        0 <= i < j < s.len(),
        s[i] == '/',
        s[j] == '/',
    ensures
        !has_prefix_form(s),
{
    if has_prefix_form(s) {
        let (h, p) = prefix_decomp(s);
        assert(slash_free(h) && s == h + seq!['/'] + dec_seq(p as nat));
        lemma_dec_seq_canonical(p as nat);
        assert(forall|x: int| 0 <= x < h.len() ==> s[x] == h[x] && s[x] != '/');
        assert(forall|x: int|
            h.len() < x < s.len() ==> s[x] == dec_seq(p as nat)[x - h.len() - 1] && is_digit(
                s[x],
            ));
        assert(i == h.len() && j == h.len());
    }
}

/// Append a fresh allocation and build the answer.
fn insert_allocation(state: &mut IpamState, container_id: &str, x: u32, prefix: u8) -> (r:
    IpAllocation)
    requires
        is_ip_seq(old(state)@.range_start),
        is_ip_seq(old(state)@.range_end),
        is_ip_seq(old(state)@.gateway),
        has_prefix_form(old(state)@.subnet),
        prefix == prefix_of(old(state)@.subnet),
        model_lookup(old(state)@.allocs, container_id@) is None,
        first_free(
            old(state)@.allocs,
            ip_val(old(state)@.range_start) as int,
            ip_val(old(state)@.range_end) as int,
        ) == Some(x),
    ensures
        final(state)@ == spec_allocate(old(state)@, container_id@).0,
        spec_allocate(old(state)@, container_id@).1 == AllocOutcome::Granted(x),
        r.ip@ == ip_seq(x),
        r.prefix_len == prefix,
        r.gateway@ == old(state)@.gateway,
        r.host_id == old(state)@.host_id,
{
    let cand = format_ip(x);
    let ip = format_ip(x);
    let gateway = String::from_str(state.gateway.as_str());
    let host_id = state.host_id;
    state.allocations.push((String::from_str(container_id), cand));
    proof {
        let m = old(state)@;
        let k = container_id@;
        assert(state@.allocs =~= m.allocs.push((k, ip_seq(x))));
        assert(state@ =~= spec_allocate(m, k).0);
    }
    IpAllocation { ip, prefix_len: prefix, gateway, host_id }
}

/// Allocate an address for a container: return the existing allocation
/// unchanged if one is stored, otherwise grant the smallest free address of
/// the range and record it. Fails only when a stored text cannot be read as
/// an address or prefix, or when the range is exhausted; the state is then
/// unchanged.
#[verifier::rlimit(100)]
#[verifier::spinoff_prover]
pub fn allocate_with_host_id(state: &mut IpamState, container_id: &str) -> (r: Result<
    IpAllocation,
    CniError,
>)
    ensures
        final(state)@ == spec_allocate(old(state)@, container_id@).0,
        match r {
            Ok(a) => {
                &&& spec_allocate(old(state)@, container_id@).1 matches AllocOutcome::Granted(x)
                    && a.ip@ == ip_seq(x)
                &&& a.prefix_len == prefix_of(old(state)@.subnet)
                &&& a.gateway@ == old(state)@.gateway
                &&& a.host_id == old(state)@.host_id
            },
            Err(e) => {
                &&& spec_allocate(old(state)@, container_id@).1 is Invalid || spec_allocate(
                    old(state)@,
                    container_id@,
                ).1 is Exhausted
                &&& e.spec_code() == CniErrorCode::IpamFailure
            },
        },
{
    let ghost m = old(state)@;
    let ghost k = container_id@;
    match lookup_index(&state.allocations, container_id) {
        Some(i) => {
            proof {
                lemma_lookup_at(m.allocs, k, i as int);
            }
            // the stored text must still read as an address
            match parse_ip(state.allocations[i].1.as_str()) {
                Some(_) => {},
                None => {
                    return Err(
                        CniError::new(CniErrorCode::IpamFailure, "invalid IP address in state"),
                    );
                },
            }
            let prefix = match parse_prefix_len(self_subnet(state)) {
                Ok(p) => p,
                Err(e) => {
                    return Err(e);
                },
            };
            match parse_ip(state.gateway.as_str()) {
                Some(_) => {},
                None => {
                    return Err(
                        CniError::new(CniErrorCode::IpamFailure, "invalid gateway in state"),
                    );
                },
            }
            let ip = String::from_str(state.allocations[i].1.as_str());
            let gateway = String::from_str(state.gateway.as_str());
            proof {
                let v = state.allocations@[i as int].1@;
                lemma_ip_val(choose|y: u32| v == ip_seq(y));
            }
            Ok(IpAllocation { ip, prefix_len: prefix, gateway, host_id: state.host_id })
        },
        None => {
            proof {
                lemma_lookup_none(m.allocs, k);
            }
            let start = match parse_ip(state.range_start.as_str()) {
                Some(x) => x,
                None => {
                    return Err(
                        CniError::new(CniErrorCode::IpamFailure, "invalid range start in state"),
                    );
                },
            };
            let end = match parse_ip(state.range_end.as_str()) {
                Some(x) => x,
                None => {
                    return Err(
                        CniError::new(CniErrorCode::IpamFailure, "invalid range end in state"),
                    );
                },
            };
            let prefix = match parse_prefix_len(self_subnet(state)) {
                Ok(p) => p,
                Err(e) => {
                    return Err(e);
                },
            };
            match parse_ip(state.gateway.as_str()) {
                Some(_) => {},
                None => {
                    return Err(
                        CniError::new(CniErrorCode::IpamFailure, "invalid gateway in state"),
                    );
                },
            }
            proof {
                lemma_ip_val(start);
                lemma_ip_val(end);
            }
            if start > end {
                return Err(
                    CniError::new(CniErrorCode::IpamFailure, "no available IP addresses in range"),
                );
            }
            let mut x = start;
            while x < end
                invariant
                    start <= x <= end,
                    state == old(state),
                    m == old(state)@,
                    k == container_id@,
                    is_ip_seq(m.range_start) && start == ip_val(m.range_start),
                    is_ip_seq(m.range_end) && end == ip_val(m.range_end),
                    is_ip_seq(m.gateway),
                    has_prefix_form(m.subnet),
                    prefix == prefix_of(m.subnet),
                    model_lookup(m.allocs, k) is None,
                    forall|y: int|
                        start <= y < x ==> used_ip(m.allocs, #[trigger] (y as u32)),
                decreases end - x,
            {
                let cand = format_ip(x);
                if !value_present(&state.allocations, cand.as_str()) {
                    proof {
                        lemma_value_absent(m.allocs, state.allocations@, x);
                        lemma_first_free_found(m.allocs, start as int, end as int, x as int);
                    }
                    let a = insert_allocation(state, container_id, x, prefix);
                    return Ok(a);
                }
                proof {
                    lemma_value_present(m.allocs, state.allocations@, x);
                }
                x = x + 1;
            }
            let cand = format_ip(end);
            if !value_present(&state.allocations, cand.as_str()) {
                proof {
                    lemma_value_absent(m.allocs, state.allocations@, end);
                    lemma_first_free_found(m.allocs, start as int, end as int, end as int);
                }
                let a = insert_allocation(state, container_id, end, prefix);
                return Ok(a);
            }
            proof {
                lemma_value_present(m.allocs, state.allocations@, end);
                lemma_first_free_none(m.allocs, start as int, end as int);
            }
            Err(CniError::new(CniErrorCode::IpamFailure, "no available IP addresses in range"))
        },
    }
}

/// Allocate an address in the legacy single-host mode.
pub fn allocate(state: &mut IpamState, container_id: &str) -> (r: Result<IpAllocation, CniError>)
    ensures
        final(state)@ == spec_allocate(old(state)@, container_id@).0,
        match r {
            Ok(a) => {
                &&& spec_allocate(old(state)@, container_id@).1 matches AllocOutcome::Granted(x)
                    && a.ip@ == ip_seq(x)
                &&& a.prefix_len == prefix_of(old(state)@.subnet)
                &&& a.gateway@ == old(state)@.gateway
                &&& a.host_id == old(state)@.host_id
            },
            Err(e) => {
                &&& spec_allocate(old(state)@, container_id@).1 is Invalid || spec_allocate(
                    old(state)@,
                    container_id@,
                ).1 is Exhausted
                &&& e.spec_code() == CniErrorCode::IpamFailure
            },
        },
{
    allocate_with_host_id(state, container_id)
}

/// Borrow the subnet text.
fn self_subnet(state: &IpamState) -> (r: &str)
    ensures
        r@ == state@.subnet,
{
    state.subnet.as_str()
}

/// The model-level and the stored entries agree on which values are present.
proof fn lemma_value_present(
    malloc: Seq<(Seq<char>, Seq<char>)>,
    al: Seq<(String, String)>,
    x: u32,
)
    requires
        malloc == al.map_values(|p: (String, String)| (p.0@, p.1@)),
        exists|i: int| 0 <= i < al.len() && al[i].1@ == ip_seq(x),
    ensures
        used_ip(malloc, x),
{
    let i = choose|i: int| 0 <= i < al.len() && al[i].1@ == ip_seq(x);
    assert(malloc[i].1 == ip_seq(x));
}

proof fn lemma_value_absent(
    malloc: Seq<(Seq<char>, Seq<char>)>,
    al: Seq<(String, String)>,
    x: u32,
)
    requires
        malloc == al.map_values(|p: (String, String)| (p.0@, p.1@)),
        !(exists|i: int| 0 <= i < al.len() && al[i].1@ == ip_seq(x)),
    ensures
        !used_ip(malloc, x),
{
    if used_ip(malloc, x) {
        let i = choose|i: int| 0 <= i < malloc.len() && malloc[i].1 == ip_seq(x);
        assert(al[i].1@ == ip_seq(x));
    }
}

/// Release a container's allocation: the entry leaves the state if present;
/// releasing an absent container changes nothing. Never fails.
pub fn release(state: &mut IpamState, container_id: &str) -> (r: Result<(), CniError>)
    ensures
        r is Ok,
        final(state)@ == spec_release(old(state)@, container_id@),
        !model_has_key(old(state)@.allocs, container_id@) ==> final(state)@ == old(state)@,
{
    let ghost m = old(state)@;
    let ghost k = container_id@;
    match lookup_index(&state.allocations, container_id) {
        Some(i) => {
            proof {
                assert(m.allocs[i as int].0 == k);
                lemma_remove_at(m.allocs, k, i as int);
            }
            state.allocations.remove(i);
            proof {
                assert(state@.allocs =~= m.allocs.remove(i as int));
                assert(state@ =~= spec_release(m, k));
                lemma_lookup_some_iff_has_key(m.allocs, k);
            }
            Ok(())
        },
        None => {
            proof {
                lemma_remove_absent(m.allocs, k);
                assert(state@ =~= spec_release(m, k));
            }
            Ok(())
        },
    }
}

/// Read a container's allocation without changing the state.
pub fn get_allocation(state: &IpamState, container_id: &str) -> (r: Result<
    Option<IpAllocation>,
    CniError,
>)
    ensures
        match r {
            Ok(Some(a)) => {
                &&& model_lookup(state@.allocs, container_id@) matches Some(v) && a.ip@ == v
                    && is_ip_seq(v)
                &&& has_prefix_form(state@.subnet) && a.prefix_len == prefix_of(state@.subnet)
                &&& is_ip_seq(state@.gateway) && a.gateway@ == state@.gateway
                &&& a.host_id == state@.host_id
            },
            Ok(None) => model_lookup(state@.allocs, container_id@) is None,
            Err(e) => {
                &&& model_lookup(state@.allocs, container_id@) matches Some(v) && !(is_ip_seq(v)
                    && has_prefix_form(state@.subnet) && is_ip_seq(state@.gateway))
                &&& e.spec_code() == CniErrorCode::IpamFailure
            },
        },
{
    let ghost m = state@;
    let ghost k = container_id@;
    match lookup_index(&state.allocations, container_id) {
        Some(i) => {
            proof {
                lemma_lookup_at(m.allocs, k, i as int);
            }
            match parse_ip(state.allocations[i].1.as_str()) {
                Some(_) => {},
                None => {
                    return Err(
                        CniError::new(CniErrorCode::IpamFailure, "invalid IP address in state"),
                    );
                },
            }
            let prefix = match parse_prefix_len(self_subnet(state)) {
                Ok(p) => p,
                Err(e) => {
                    return Err(e);
                },
            };
            match parse_ip(state.gateway.as_str()) {
                Some(_) => {},
                None => {
                    return Err(
                        CniError::new(CniErrorCode::IpamFailure, "invalid gateway in state"),
                    );
                },
            }
            let ip = String::from_str(state.allocations[i].1.as_str());
            let gateway = String::from_str(state.gateway.as_str());
            Ok(Some(IpAllocation { ip, prefix_len: prefix, gateway, host_id: state.host_id }))
        },
        None => {
            proof {
                lemma_lookup_none(m.allocs, k);
            }
            Ok(None)
        },
    }
}

/// Read every allocation of the state, in stored order, each with the
/// prefix and gateway a single lookup would report.
pub fn get_all_allocations(state: &IpamState) -> (r: Result<
    Vec<(String, IpAllocation)>,
    CniError,
>)
    ensures
        match r {
            Ok(v) => {
                &&& has_prefix_form(state@.subnet)
                &&& is_ip_seq(state@.gateway)
                &&& v@.len() == state@.allocs.len()
                &&& forall|i: int|
                    0 <= i < v@.len() ==> {
                        &&& (#[trigger] v@[i]).0@ == state@.allocs[i].0
                        &&& v@[i].1.ip@ == state@.allocs[i].1
                        &&& is_ip_seq(state@.allocs[i].1)
                        &&& v@[i].1.prefix_len == prefix_of(state@.subnet)
                        &&& v@[i].1.gateway@ == state@.gateway
                        &&& v@[i].1.host_id == state@.host_id
                    }
            },
            Err(e) => {
                &&& e.spec_code() == CniErrorCode::IpamFailure
                &&& !(has_prefix_form(state@.subnet) && is_ip_seq(state@.gateway) && forall|i: int|
                    0 <= i < state@.allocs.len() ==> is_ip_seq(#[trigger] state@.allocs[i].1))
            },
        },
{
    let prefix = match parse_prefix_len(self_subnet(state)) {
        Ok(p) => p,
        Err(e) => {
            return Err(e);
        },
    };
    match parse_ip(state.gateway.as_str()) {
        Some(_) => {},
        None => {
            return Err(CniError::new(CniErrorCode::IpamFailure, "invalid gateway in state"));
        },
    }
    let n = state.allocations.len();
    let mut out: Vec<(String, IpAllocation)> = Vec::new();
    let mut i: usize = 0;
    while i < n
        invariant
            i <= n,
            n == state@.allocs.len(),
            has_prefix_form(state@.subnet),
            prefix == prefix_of(state@.subnet),
            is_ip_seq(state@.gateway),
            out@.len() == i,
            forall|j: int|
                0 <= j < i ==> {
                    &&& (#[trigger] out@[j]).0@ == state@.allocs[j].0
                    &&& out@[j].1.ip@ == state@.allocs[j].1
                    &&& is_ip_seq(state@.allocs[j].1)
                    &&& out@[j].1.prefix_len == prefix_of(state@.subnet)
                    &&& out@[j].1.gateway@ == state@.gateway
                    &&& out@[j].1.host_id == state@.host_id
                },
        decreases n - i,
    {
        match parse_ip(state.allocations[i].1.as_str()) {
            Some(_) => {},
            None => {
                proof {
                    let v = state@.allocs[i as int].1;
                    if is_ip_seq(v) {
                        let x = choose|x: u32| v == ip_seq(x);
                        assert(v == ip_seq(x));
                    }
                }
                return Err(CniError::new(CniErrorCode::IpamFailure, "invalid IP address in state"));
            },
        }
        let id = String::from_str(state.allocations[i].0.as_str());
        let ip = String::from_str(state.allocations[i].1.as_str());
        let gateway = String::from_str(state.gateway.as_str());
        out.push((id, IpAllocation { ip, prefix_len: prefix, gateway, host_id: state.host_id }));
        i = i + 1;
    }
    Ok(out)
}

/// Whether a container holds an allocation in this state.
pub fn has_allocation(state: &IpamState, container_id: &str) -> (r: bool)
    ensures
        r == model_has_key(state@.allocs, container_id@),
{
    match lookup_index(&state.allocations, container_id) {
        Some(i) => {
            proof {
                assert(state@.allocs[i as int].0 == container_id@);
            }
            true
        },
        None => {
            proof {
                if model_has_key(state@.allocs, container_id@) {
                    let i = choose|i: int|
                        0 <= i < state@.allocs.len() && state@.allocs[i].0 == container_id@;
                    assert(state.allocations@[i].0@ == container_id@);
                }
            }
            false
        },
    }
}

/// The host ID this state was installed with.
pub fn get_host_id(state: &IpamState) -> (r: u8)
    ensures
        r == state@.host_id,
{
    state.host_id
}

// ------------------------------------------------------------------
// Laws of the allocator.
// ------------------------------------------------------------------

/// Looking up the key of a freshly pushed entry finds that entry, when the
/// key was absent before.
proof fn lemma_lookup_push(
    al: Seq<(Seq<char>, Seq<char>)>,
    k: Seq<char>,
    p: (Seq<char>, Seq<char>),
)
    requires
        !model_has_key(al, k),
        p.0 == k,
    ensures
        model_lookup(al.push(p), k) == Some(p.1),
{
    assert(forall|j: int| 0 <= j < al.len() ==> al[j].0 != k);
    assert(al.push(p)[al.len() as int] == p);
    assert(forall|j: int| 0 <= j < al.len() ==> al.push(p)[j] == al[j]);
    lemma_lookup_at(al.push(p), k, al.len() as int);
}

/// Law: allocation is idempotent. Once a request for a container has been
/// granted an address, asking again grants the identical address and leaves
/// the state exactly as it was after the first request.
pub proof fn lemma_allocate_idempotent(m: IpamModel, k: Seq<char>)
    requires
        spec_allocate(m, k).1 is Granted,
    ensures
        spec_allocate(spec_allocate(m, k).0, k).0 == spec_allocate(m, k).0,
        spec_allocate(spec_allocate(m, k).0, k).1 == spec_allocate(m, k).1,
{
    let m1 = spec_allocate(m, k).0;
    match model_lookup(m.allocs, k) {
        Some(v) => {
            assert(m1 == m);
        },
        None => {
            let x = spec_allocate(m, k).1->Granted_0;
            lemma_lookup_some_iff_has_key(m.allocs, k);
            lemma_lookup_push(m.allocs, k, (k, ip_seq(x)));
            lemma_ip_val(x);
            assert(model_lookup(m1.allocs, k) == Some(ip_seq(x)));
            assert(spec_allocate(m1, k).1 == AllocOutcome::Granted(x));
            assert(spec_allocate(m1, k).0 == m1);
        },
    }
}

/// Law: allocation preserves well-formedness — afterwards the mapping still
/// has unique keys, pairwise distinct addresses, and every address inside
/// the configured range.
pub proof fn lemma_allocate_preserves_wf(m: IpamModel, k: Seq<char>)
    requires
        wf_model(m),
    ensures
        wf_model(spec_allocate(m, k).0),
{
    let m1 = spec_allocate(m, k).0;
    match model_lookup(m.allocs, k) {
        Some(v) => {},
        None => {
            if m1 != m {
                let lo = ip_val(m.range_start) as int;
                let hi = ip_val(m.range_end) as int;
                lemma_first_free_props(m.allocs, lo, hi);
                let x = spec_allocate(m, k).1->Granted_0;
                assert(first_free(m.allocs, lo, hi) == Some(x));
                lemma_lookup_some_iff_has_key(m.allocs, k);
                let al1 = m.allocs.push((k, ip_seq(x)));
                assert(forall|j: int| 0 <= j < m.allocs.len() ==> m.allocs[j].0 != k);
                assert(forall|j: int| 0 <= j < m.allocs.len() ==> al1[j] == m.allocs[j]);
                assert(al1[al1.len() - 1] == (k, ip_seq(x)));
                assert(forall|i: int|
                    0 <= i < m.allocs.len() ==> in_range(m1, #[trigger] m1.allocs[i].1));
                assert(in_range(m1, ip_seq(x)));
                assert(forall|i: int, j: int|
                    0 <= i < j < al1.len() ==> al1[i].1 != al1[j].1) by {
                    assert(forall|i: int|
                        0 <= i < m.allocs.len() ==> #[trigger] m.allocs[i].1 != ip_seq(x));
                }
            }
        },
    }
}

/// Where removal finds its key first, and what it does there.
proof fn lemma_remove_structure(al: Seq<(Seq<char>, Seq<char>)>, k: Seq<char>)
    ensures
        !model_has_key(al, k) ==> model_remove(al, k) == al,
        model_has_key(al, k) ==> exists|i: int|
            {
                &&& 0 <= i < al.len()
                &&& al[i].0 == k
                &&& (forall|j: int| 0 <= j < i ==> al[j].0 != k)
                &&& #[trigger] al.remove(i) == model_remove(al, k)
            },
    decreases al.len(),
{
    if !model_has_key(al, k) {
        assert(forall|j: int| 0 <= j < al.len() ==> al[j].0 != k);
        lemma_remove_absent(al, k);
        assert(model_remove(al, k) =~= al);
    } else if al[0].0 == k {
        assert(al.remove(0) =~= al.drop_first());
        assert(al.remove(0) == model_remove(al, k));
    } else {
        let tl = al.drop_first();
        assert(forall|j: int| 0 <= j < tl.len() ==> #[trigger] tl[j] == al[j + 1]);
        assert(model_has_key(tl, k)) by {
            let i = choose|i: int| 0 <= i < al.len() && al[i].0 == k;
            assert(tl[i - 1].0 == k);
        }
        lemma_remove_structure(tl, k);
        let i = choose|i: int|
            {
                &&& 0 <= i < tl.len()
                &&& tl[i].0 == k
                &&& (forall|j: int| 0 <= j < i ==> tl[j].0 != k)
                &&& #[trigger] tl.remove(i) == model_remove(tl, k)
            };
        assert(al[i + 1].0 == k);
        assert forall|j: int| 0 <= j < i + 1 implies al[j].0 != k by {
            if j > 0 {
                assert(tl[j - 1] == al[j]);
                assert(tl[j - 1].0 != k);
            }
        }
        assert(al.remove(i + 1) =~= seq![al[0]] + tl.remove(i));
        assert(al.remove(i + 1) == model_remove(al, k));
    }
}

/// Law: releasing a container with no allocation changes nothing.
pub proof fn lemma_release_absent(m: IpamModel, k: Seq<char>)
    requires
        !model_has_key(m.allocs, k),
    ensures
        spec_release(m, k) == m,
{
    assert(forall|j: int| 0 <= j < m.allocs.len() ==> m.allocs[j].0 != k);
    lemma_remove_absent(m.allocs, k);
    assert(spec_release(m, k) =~= m);
}

/// Law: release preserves well-formedness.
pub proof fn lemma_release_preserves_wf(m: IpamModel, k: Seq<char>)
    requires
        wf_model(m),
    ensures
        wf_model(spec_release(m, k)),
{
    lemma_remove_structure(m.allocs, k);
    let m1 = spec_release(m, k);
    if model_has_key(m.allocs, k) {
        let i = choose|i: int|
            {
                &&& 0 <= i < m.allocs.len()
                &&& m.allocs[i].0 == k
                &&& (forall|j: int| 0 <= j < i ==> m.allocs[j].0 != k)
                &&& #[trigger] m.allocs.remove(i) == model_remove(m.allocs, k)
            };
        let al = m.allocs;
        let al1 = al.remove(i);
        assert(forall|j: int| 0 <= j < i ==> al1[j] == al[j]);
        assert(forall|j: int| i <= j < al1.len() ==> al1[j] == al[j + 1]);
        assert(forall|j1: int, j2: int|
            0 <= j1 < j2 < al1.len() ==> al1[j1].0 != al1[j2].0 && al1[j1].1 != al1[j2].1);
        assert(forall|j: int|
            0 <= j < al1.len() ==> in_range(m1, #[trigger] al1[j].1)) by {
            assert(forall|j: int|
                0 <= j < al.len() ==> in_range(m, #[trigger] al[j].1));
            assert(forall|v: Seq<char>| in_range(m, v) == in_range(m1, v));
        }
    }
}

/// Law: release is idempotent — a second release of the same container
/// changes nothing further.
pub proof fn lemma_release_idempotent(m: IpamModel, k: Seq<char>)
    requires
        wf_model(m),
    ensures
        spec_release(spec_release(m, k), k) == spec_release(m, k),
{
    lemma_remove_structure(m.allocs, k);
    let m1 = spec_release(m, k);
    if model_has_key(m.allocs, k) {
        let i = choose|i: int|
            {
                &&& 0 <= i < m.allocs.len()
                &&& m.allocs[i].0 == k
                &&& (forall|j: int| 0 <= j < i ==> m.allocs[j].0 != k)
                &&& #[trigger] m.allocs.remove(i) == model_remove(m.allocs, k)
            };
        let al = m.allocs;
        let al1 = al.remove(i);
        assert(!model_has_key(al1, k)) by {
            if model_has_key(al1, k) {
                let j = choose|j: int| 0 <= j < al1.len() && al1[j].0 == k;
                if j < i {
                    assert(al[j].0 == k);
                } else {
                    assert(al[j + 1].0 == k);
                    assert(al[i].0 == al[j + 1].0);
                }
            }
        }
        lemma_release_absent(m1, k);
    } else {
        lemma_release_absent(m, k);
        lemma_release_absent(m1, k);
    }
}

proof fn lemma_tail_not_dec_no_form(s: Seq<char>, i: int)
    requires
        0 <= i < s.len(),
        s[i] == '/',
        forall|j: int| 0 <= j < i ==> s[j] != '/',
        forall|p: u8| s.subrange(i + 1, s.len() as int) != dec_seq(p as nat),
    ensures
        !has_prefix_form(s),
{
    if has_prefix_form(s) {
        let (h, p) = prefix_decomp(s);
        assert(slash_free(h) && s == h + seq!['/'] + dec_seq(p as nat));
        assert(s[h.len() as int] == '/');
        assert(forall|x: int| 0 <= x < h.len() ==> s[x] == h[x] && s[x] != '/');
        assert(h.len() == i);
        assert(s.subrange(i + 1, s.len() as int) =~= dec_seq(p as nat));
    }
}

} // verus!
