//! Pure decision helpers around the pool: which network interface serves as
//! the host address, which addresses become candidates, the control-channel
//! echo, and the poll-timeout arithmetic.
//!
//! The host process gathers interface facts and executes socket work; the
//! functions here make every choice.

use vstd::prelude::*;

verus! {

/// Facts about one network interface address, as gathered by the host.
#[derive(Debug)]
pub struct IfaceInfo {
    /// The interface's name bytes.
    pub name: Vec<u8>,
    /// Whether the address is a version-4 address.
    pub v4: bool,
    /// Whether the address is a loopback address.
    pub loopback: bool,
    /// Whether the address is link-local.
    pub link_local: bool,
    /// Whether the address is a broadcast address.
    pub broadcast: bool,
    /// Whether a probe from this address reached the outside.
    pub has_internet: bool,
}

/// A byte lowered to its ASCII lower-case form.
pub open spec fn lower_byte(b: u8) -> u8 {
    if 65 <= b && b <= 90 {
        (b + 32) as u8
    } else {
        b
    }
}

/// A byte string lowered to ASCII lower case.
pub open spec fn lower_seq(s: Seq<u8>) -> Seq<u8> {
    s.map_values(|b: u8| lower_byte(b))
}

/// Lowers a byte string to ASCII lower case.
pub fn to_ascii_lower(v: &Vec<u8>) -> (r: Vec<u8>)
    ensures
        r@ == lower_seq(v@),
{
    let mut r: Vec<u8> = Vec::new();
    let mut i: usize = 0;
    while i < v.len()
        invariant
            i <= v.len(),
            r@ == lower_seq(v@.subrange(0, i as int)),
        decreases v.len() - i,
    {
        let b = v[i];
        if 65 <= b && b <= 90 {
            r.push(b + 32);
        } else {
            r.push(b);
        }
        proof {
            assert(r@ =~= lower_seq(v@.subrange(0, i + 1 as int)));
        }
        i = i + 1;
    }
    proof {
        assert(v@.subrange(0, v@.len() as int) =~= v@);
    }
    r
}

/// Whether `hay` starts with `prefix`.
pub open spec fn starts_with(hay: Seq<u8>, prefix: Seq<u8>) -> bool {
    hay.len() >= prefix.len() && hay.subrange(0, prefix.len() as int) == prefix
}

/// Decides whether `hay` starts with `prefix`.
pub fn starts_with_exec(hay: &Vec<u8>, prefix: &Vec<u8>) -> (r: bool)
    ensures
        r == starts_with(hay@, prefix@),
{
    if hay.len() < prefix.len() {
        return false;
    }
    let mut i: usize = 0;
    while i < prefix.len()
        invariant
            i <= prefix.len(),
            prefix.len() <= hay.len(),
            forall|j: int| 0 <= j < i ==> hay@[j] == prefix@[j],
        decreases prefix.len() - i,
    {
        if hay[i] != prefix[i] {
            proof {
                assert(hay@.subrange(0, prefix@.len() as int)[i as int] != prefix@[i as int]);
            }
            return false;
        }
        i = i + 1;
    }
    proof {
        assert(hay@.subrange(0, prefix@.len() as int) =~= prefix@);
    }
    true
}

/// Whether `needle` occurs anywhere in `hay`.
pub open spec fn contains_sub(hay: Seq<u8>, needle: Seq<u8>) -> bool {
    exists|k: int|
        0 <= k && k + needle.len() <= hay.len() && #[trigger] hay.subrange(k, k + needle.len())
            == needle
}

/// Decides whether `needle` stands at position `k` of `hay`.
fn match_at(hay: &Vec<u8>, needle: &Vec<u8>, k: usize) -> (r: bool)
    requires
        k + needle@.len() <= hay@.len(),
    ensures
        r == (hay@.subrange(k as int, k as int + needle@.len()) == needle@),
{
    let n = hay.len();
    let mut m: usize = 0;
    while m < needle.len()
        invariant
            n == hay@.len(),
            m <= needle.len(),
            k + needle@.len() <= hay@.len(),
            forall|j: int| 0 <= j < m ==> hay@[k + j] == needle@[j],
        decreases needle.len() - m,
    {
        if hay[k + m] != needle[m] {
            proof {
                assert(hay@.subrange(k as int, k as int + needle@.len())[m as int] != needle@[
                    m as int
                ]);
            }
            return false;
        }
        m = m + 1;
    }
    proof {
        assert(hay@.subrange(k as int, k as int + needle@.len()) =~= needle@);
    }
    true
}

/// Decides whether `needle` occurs anywhere in `hay`.
pub fn contains_sub_exec(hay: &Vec<u8>, needle: &Vec<u8>) -> (r: bool)
    ensures
        r == contains_sub(hay@, needle@),
{
    if needle.len() > hay.len() {
        return false;
    }
    if needle.len() == 0 {
        proof {
            assert(hay@.subrange(0, 0 + needle@.len() as int) =~= needle@);
            assert(contains_sub(hay@, needle@));
        }
        return true;
    }
    let mut k: usize = 0;
    while k <= hay.len() - needle.len()
        invariant
            1 <= needle.len() <= hay.len(),
            k <= hay.len() - needle.len() + 1,
            forall|kk: int|
                0 <= kk < k ==> #[trigger] hay@.subrange(kk, kk + needle@.len()) != needle@,
        decreases hay.len() - needle.len() + 1 - k,
    {
        if match_at(hay, needle, k) {
            proof {
                assert(hay@.subrange(k as int, k as int + needle@.len()) == needle@);
                assert(contains_sub(hay@, needle@));
            }
            return true;
        }
        k = k + 1;
    }
    false
}

/// The name fragments of container and bridge interfaces, which the relay
/// never serves from.
pub open spec fn docker_fragment() -> Seq<u8> {
    seq![100u8, 111u8, 99u8, 107u8, 101u8, 114u8]
}

/// Prefix of bridge interface names.
pub open spec fn bridge_prefix() -> Seq<u8> {
    seq![98u8, 114u8, 45u8]
}

/// Prefix of virtual-pair interface names.
pub open spec fn veth_prefix() -> Seq<u8> {
    seq![118u8, 101u8, 116u8, 104u8]
}

/// Prefix of virtual-bridge interface names.
pub open spec fn virbr_prefix() -> Seq<u8> {
    seq![118u8, 105u8, 114u8, 98u8, 114u8]
}

/// Whether an interface is skipped by name: container networks and bridges,
/// matched on the lower-cased name.
pub open spec fn name_skipped(name: Seq<u8>) -> bool {
    let lower = lower_seq(name);
    ||| contains_sub(lower, docker_fragment())
    ||| starts_with(lower, bridge_prefix())
    ||| starts_with(lower, veth_prefix())
    ||| starts_with(lower, virbr_prefix())
}

/// The bytes of the container-network fragment, for the running check.
fn docker_fragment_exec() -> (r: Vec<u8>)
    ensures
        r@ == docker_fragment(),
{
    let mut v: Vec<u8> = Vec::new();
    v.push(100);
    v.push(111);
    v.push(99);
    v.push(107);
    v.push(101);
    v.push(114);
    proof {
        assert(v@ =~= docker_fragment());
    }
    v
}

/// Decides whether an interface is skipped by name.
pub fn name_skipped_exec(name: &Vec<u8>) -> (r: bool)
    ensures
        r == name_skipped(name@),
{
    let lower = to_ascii_lower(name);
    let docker = docker_fragment_exec();
    let mut br: Vec<u8> = Vec::new();
    br.push(98);
    br.push(114);
    br.push(45);
    let mut veth: Vec<u8> = Vec::new();
    veth.push(118);
    veth.push(101);
    veth.push(116);
    veth.push(104);
    let mut virbr: Vec<u8> = Vec::new();
    virbr.push(118);
    virbr.push(105);
    virbr.push(114);
    virbr.push(98);
    virbr.push(114);
    proof {
        assert(br@ =~= bridge_prefix());
        assert(veth@ =~= veth_prefix());
        assert(virbr@ =~= virbr_prefix());
    }
    contains_sub_exec(&lower, &docker) || starts_with_exec(&lower, &br) || starts_with_exec(
        &lower,
        &veth,
    ) || starts_with_exec(&lower, &virbr)
}

/// Whether an interface address may serve as the relay's host address: a
/// routable version-4 address on a non-container interface with a working
/// path to the outside.
pub open spec fn host_eligible(f: IfaceInfo) -> bool {
    &&& f.v4
    &&& !f.loopback
    &&& !f.link_local
    &&& !f.broadcast
    &&& !name_skipped(f.name@)
    &&& f.has_internet
}

/// The first host-eligible entry, if any.
pub open spec fn first_host_eligible(s: Seq<IfaceInfo>) -> Option<int>
    decreases s.len(),
{
    if s.len() == 0 {
        None
    } else if host_eligible(s[0]) {
        Some(0)
    } else {
        match first_host_eligible(s.drop_first()) {
            None => None,
            Some(i) => Some(i + 1),
        }
    }
}

/// Picks the interface address the relay serves from: the first routable
/// version-4 address on a non-container interface that reaches the outside.
pub fn select_host_index(ifaces: &Vec<IfaceInfo>) -> (r: Option<usize>)
    ensures
        match r {
            None => first_host_eligible(ifaces@) is None,
            Some(i) => first_host_eligible(ifaces@) == Some(i as int),
        },
{
    proof {
        assert(ifaces@.subrange(0, ifaces@.len() as int) =~= ifaces@);
    }
    let mut i: usize = 0;
    while i < ifaces.len()
        invariant
            i <= ifaces@.len(),
            forall|j: int| 0 <= j < i ==> !host_eligible(ifaces@[j]),
            first_host_eligible(ifaces@) == (match first_host_eligible(
                ifaces@.subrange(i as int, ifaces@.len() as int),
            ) {
                None => None::<int>,
                Some(k) => Some(k + i),
            }),
        decreases ifaces@.len() - i,
    {
        let ghost len = ifaces@.len() as int;
        proof {
            assert(ifaces@.subrange(i as int, len)[0] == ifaces@[i as int]);
            assert(ifaces@.subrange(i as int, len).drop_first() =~= ifaces@.subrange(
                i + 1 as int,
                len,
            ));
        }
        let f = &ifaces[i];
        let eligible = f.v4 && !f.loopback && !f.link_local && !f.broadcast
            && !name_skipped_exec(&f.name) && f.has_internet;
        if eligible {
            return Some(i);
        }
        i = i + 1;
    }
    None
}

/// Whether an interface address becomes a host candidate: any routable
/// version-4 address.
pub open spec fn candidate_eligible(f: IfaceInfo) -> bool {
    &&& f.v4
    &&& !f.loopback
    &&& !f.link_local
}

/// The indices of all candidate-eligible entries, in order.
pub open spec fn candidate_index_seq(s: Seq<IfaceInfo>) -> Seq<usize>
    decreases s.len(),
{
    if s.len() == 0 {
        Seq::empty()
    } else {
        let prefix = candidate_index_seq(s.drop_last());
        if candidate_eligible(s.last()) {
            prefix.push((s.len() - 1) as usize)
        } else {
            prefix
        }
    }
}

/// Picks every interface address that becomes a host candidate, in order.
pub fn candidate_indices(ifaces: &Vec<IfaceInfo>) -> (r: Vec<usize>)
    ensures
        r@ == candidate_index_seq(ifaces@),
{
    let mut r: Vec<usize> = Vec::new();
    let mut i: usize = 0;
    while i < ifaces.len()
        invariant
            i <= ifaces@.len(),
            r@ == candidate_index_seq(ifaces@.subrange(0, i as int)),
        decreases ifaces@.len() - i,
    {
        proof {
            assert(ifaces@.subrange(0, i + 1 as int).drop_last() =~= ifaces@.subrange(0, i as int));
            assert(ifaces@.subrange(0, i + 1 as int).last() == ifaces@[i as int]);
        }
        let f = &ifaces[i];
        if f.v4 && !f.loopback && !f.link_local {
            r.push(i);
        }
        i = i + 1;
    }
    proof {
        assert(ifaces@.subrange(0, ifaces@.len() as int) =~= ifaces@);
    }
    r
}

/// The reply prefix for application messages on the control channel
/// (ASCII "echo: ").
pub open spec fn echo_prefix() -> Seq<u8> {
    seq![101u8, 99u8, 104u8, 111u8, 58u8, 32u8]
}

/// Builds the liveness reply to an application message: the echo prefix
/// followed by the message itself.
pub fn echo_reply(msg: &Vec<u8>) -> (r: Vec<u8>)
    ensures
        r@ == echo_prefix() + msg@,
{
    let mut r: Vec<u8> = Vec::new();
    r.push(101);
    r.push(99);
    r.push(104);
    r.push(111);
    r.push(58);
    r.push(32);
    let mut i: usize = 0;
    while i < msg.len()
        invariant
            i <= msg.len(),
            r@ == echo_prefix() + msg@.subrange(0, i as int),
        decreases msg.len() - i,
    {
        r.push(msg[i]);
        proof {
            assert(r@ =~= echo_prefix() + msg@.subrange(0, i + 1 as int));
        }
        i = i + 1;
    }
    proof {
        assert(r@ =~= echo_prefix() + msg@);
    }
    r
}

/// The earlier of two instants.
pub fn earlier(a: u64, b: u64) -> (r: u64)
    ensures
        r == if a <= b {
            a
        } else {
            b
        },
{
    if a <= b {
        a
    } else {
        b
    }
}

/// The read timeout for the network socket, given the earliest engine
/// deadline: the time until the deadline, with a floor of one millisecond so
/// the coordinator never blocks indefinitely.
pub open spec fn read_timeout_spec(deadline: u64, now: u64) -> u64 {
    if deadline > now && deadline - now >= 1 {
        (deadline - now) as u64
    } else {
        1u64
    }
}

/// Computes the socket read timeout for this tick.
pub fn read_timeout_ms(deadline: u64, now: u64) -> (r: u64)
    ensures
        r == read_timeout_spec(deadline, now),
        r >= 1,
    {
    if deadline > now {
        deadline - now
    } else {
        1
    }
}

} // verus!
