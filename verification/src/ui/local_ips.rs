//! The machine's own addresses, chosen among those of its interfaces.

use vstd::prelude::*;

use crate::addr::{IpAddr, Ipv4Addr, Ipv6Addr};
use crate::ui::state::LocalIps;

verus! {

/// Whether an IPv4 address is worth giving to a peer.
pub open spec fn usable_v4(ip: Ipv4Addr) -> bool {
    &&& ip.a != 127
    &&& !(ip.a == 169 && ip.b == 254)
    &&& !(ip.a == 255 && ip.b == 255 && ip.c == 255 && ip.d == 255)
}

/// Whether an IPv6 address is worth giving to a peer.
pub open spec fn usable_v6(ip: Ipv6Addr) -> bool {
    &&& ip != Ipv6Addr::loopback_spec()
    &&& ip.s0 < 0xff00
    &&& ip != Ipv6Addr::unspecified_spec()
    &&& !(0xfe80 <= ip.s0 <= 0xfebf)
}

/// Whether an IPv6 address is for the own site only.
pub open spec fn site_v6(ip: Ipv6Addr) -> bool {
    0xfc00 <= ip.s0 <= 0xfdff
}

/// The first IPv4 address worth giving.
pub open spec fn first_v4(list: Seq<IpAddr>) -> Option<Ipv4Addr>
    decreases list.len(),
{
    if list.len() == 0 {
        None
    } else {
        match first_v4(list.drop_last()) {
            Some(ip) => Some(ip),
            None => match list.last() {
                IpAddr::V4(ip) => if usable_v4(ip) {
                    Some(ip)
                } else {
                    None
                },
                IpAddr::V6(_) => None,
            },
        }
    }
}

/// The first IPv6 address worth giving: of the own site only, or of the whole net.
pub open spec fn first_v6(list: Seq<IpAddr>, site: bool) -> Option<Ipv6Addr>
    decreases list.len(),
{
    if list.len() == 0 {
        None
    } else {
        match first_v6(list.drop_last(), site) {
            Some(ip) => Some(ip),
            None => match list.last() {
                IpAddr::V6(ip) => if usable_v6(ip) && site_v6(ip) == site {
                    Some(ip)
                } else {
                    None
                },
                IpAddr::V4(_) => None,
            },
        }
    }
}

/// The addresses to give to peers: the first of each family, of IPv6 rather one of the whole
/// net than one of the own site; none where the interfaces are not known.
pub open spec fn chosen(interfaces: Option<Seq<IpAddr>>) -> LocalIps {
    match interfaces {
        Some(list) => LocalIps {
            v4: first_v4(list),
            v6: match first_v6(list, false) {
                Some(ip) => Some(ip),
                None => first_v6(list, true),
            },
        },
        None => LocalIps { v4: None, v6: None },
    }
}

/// The addresses in an optional list.
pub open spec fn listed(interfaces: Option<Vec<IpAddr>>) -> Option<Seq<IpAddr>> {
    match interfaces {
        Some(v) => Some(v@),
        None => None,
    }
}

/// Chooses the addresses to give to peers.
pub fn detect_local_ips(interfaces: &Option<Vec<IpAddr>>) -> (r: LocalIps)
    ensures
        r == chosen(listed(*interfaces)),
{
    let list = match interfaces {
        Some(list) => list,
        None => {
            return LocalIps { v4: None, v6: None };
        },
    };
    let mut best_v4: Option<Ipv4Addr> = None;
    let mut best_v6_global: Option<Ipv6Addr> = None;
    let mut best_v6_local: Option<Ipv6Addr> = None;
    let mut i: usize = 0;
    assert(list@.take(0) =~= Seq::<IpAddr>::empty());
    while i < list.len()
        invariant
            i <= list@.len(),
            best_v4 == first_v4(list@.take(i as int)),
            best_v6_global == first_v6(list@.take(i as int), false),
            best_v6_local == first_v6(list@.take(i as int), true),
        decreases list@.len() - i,
    {
        assert(list@.take(i + 1).drop_last() =~= list@.take(i as int));
        assert(list@.take(i + 1).last() == list@[i as int]);
        match list[i] {
            IpAddr::V4(ip) => {
                let usable = !(ip.is_loopback() || ip.is_link_local() || ip.is_broadcast());
                if usable && best_v4.is_none() {
                    best_v4 = Some(ip);
                }
            },
            IpAddr::V6(ip) => {
                let usable = !(ip.is_loopback() || ip.is_multicast() || ip.is_unspecified()
                    || ip.is_unicast_link_local());
                if usable {
                    if ip.is_unique_local() {
                        if best_v6_local.is_none() {
                            best_v6_local = Some(ip);
                        }
                    } else if best_v6_global.is_none() {
                        best_v6_global = Some(ip);
                    }
                }
            },
        }
        i += 1;
    }
    assert(list@.take(i as int) =~= list@);
    let v6 = if best_v6_global.is_some() {
        best_v6_global
    } else {
        best_v6_local
    };
    LocalIps { v4: best_v4, v6 }
}

/// An address given to peers is one of the machine's, and worth giving.
pub proof fn law_chosen_is_usable(list: Seq<IpAddr>)
    ensures
        chosen(Some(list)).v4 matches Some(ip) ==> usable_v4(ip) && list.contains(IpAddr::V4(ip)),
        chosen(Some(list)).v6 matches Some(ip) ==> usable_v6(ip) && list.contains(IpAddr::V6(ip)),
{
    lemma_first_usable(list);
}

proof fn lemma_first_usable(list: Seq<IpAddr>)
    ensures
        first_v4(list) matches Some(ip) ==> usable_v4(ip) && list.contains(IpAddr::V4(ip)),
        first_v6(list, true) matches Some(ip) ==> usable_v6(ip) && list.contains(IpAddr::V6(ip)),
        first_v6(list, false) matches Some(ip) ==> usable_v6(ip) && list.contains(IpAddr::V6(ip)),
    decreases list.len(),
{
    if list.len() > 0 {
        let front = list.drop_last();
        lemma_first_usable(front);
        assert(list[list.len() - 1] == list.last());
        assert forall|a: IpAddr| front.contains(a) implies list.contains(a) by {
            let k = choose|k: int| 0 <= k < front.len() && front[k] == a;
            assert(list[k] == a);
        }
    }
}

// ---------------------------------------------------------------- laws

/// An IPv4 address can be used unless it is of the own machine, of the link, or for all.
pub proof fn law_usable_ipv4(a: u8, b: u8, c: u8, d: u8)
    ensures
        usable_v4(Ipv4Addr { a, b, c, d }) <==> a != 127 && (a != 169 || b != 254) && (a < 255 || b
            < 255 || c < 255 || d < 255),
{
}

/// An IPv6 address can be used unless it is of the own machine or of none, for many receivers, or of
/// the link; one of a private network is told apart from those of the world.
pub proof fn law_usable_ipv6(ip: Ipv6Addr)
    ensures
        ip.s0 / 256 == 0xff ==> !usable_v6(ip),
        ip.s0 / 64 == 0x3fa ==> !usable_v6(ip),
        ip.s0 == 0 && ip.s1 == 0 && ip.s2 == 0 && ip.s3 == 0 && ip.s4 == 0 && ip.s5 == 0 && ip.s6
            == 0 && ip.s7 <= 1 ==> !usable_v6(ip),
        ip.s0 / 256 != 0xff && ip.s0 / 64 != 0x3fa && (ip.s0 != 0 || ip.s1 != 0 || ip.s2 != 0
            || ip.s3 != 0 || ip.s4 != 0 || ip.s5 != 0 || ip.s6 != 0 || ip.s7 > 1) ==> usable_v6(ip),
        site_v6(ip) <==> ip.s0 / 512 == 0x7e,
{
}

/// The first IPv4 address that can be used is chosen.
pub proof fn law_first_usable_ipv4_is_chosen(list: Seq<IpAddr>, i: int)
    ensures
        0 <= i < list.len() && list[i] is V4 && usable_v4(list[i]->V4_0) && (forall|k: int|
            0 <= k < i && (#[trigger] list[k]) is V4 ==> !usable_v4(list[k]->V4_0)) ==> chosen(
            Some(list),
        ).v4 == Some(list[i]->V4_0),
        (forall|k: int|
            0 <= k < list.len() && (#[trigger] list[k]) is V4 ==> !usable_v4(list[k]->V4_0))
            ==> chosen(Some(list)).v4 is None,
        chosen(None).v4 is None,
{
    lemma_first_v4_is(list, i);
}

proof fn lemma_first_v4_is(list: Seq<IpAddr>, i: int)
    ensures
        0 <= i < list.len() && list[i] is V4 && usable_v4(list[i]->V4_0) && (forall|k: int|
            0 <= k < i && (#[trigger] list[k]) is V4 ==> !usable_v4(list[k]->V4_0)) ==> first_v4(
            list,
        ) == Some(list[i]->V4_0),
        (forall|k: int|
            0 <= k < list.len() && (#[trigger] list[k]) is V4 ==> !usable_v4(list[k]->V4_0))
            ==> first_v4(list) is None,
    decreases list.len(),
{
    if list.len() > 0 {
        let less = list.drop_last();
        lemma_first_v4_is(less, i);
        assert forall|k: int| 0 <= k < less.len() implies #[trigger] less[k] == list[k] by {}
        assert(list.last() == list[list.len() - 1]);
    }
}

/// The first IPv6 address of the world that can be used is chosen, else the first of a private
/// network.
pub proof fn law_first_usable_ipv6_is_chosen(list: Seq<IpAddr>, i: int)
    ensures
        ({
            let world = |a: IpAddr| a is V6 && usable_v6(a->V6_0) && !site_v6(a->V6_0);
            let site = |a: IpAddr| a is V6 && usable_v6(a->V6_0) && site_v6(a->V6_0);
            let no_world = forall|k: int| 0 <= k < list.len() ==> !world(#[trigger] list[k]);
            let no_site = forall|k: int| 0 <= k < list.len() ==> !site(#[trigger] list[k]);
            &&& 0 <= i < list.len() && world(list[i]) && (forall|k: int|
                0 <= k < i ==> !world(#[trigger] list[k])) ==> chosen(Some(list)).v6 == Some(
                list[i]->V6_0,
            )
            &&& no_world && 0 <= i < list.len() && site(list[i]) && (forall|k: int|
                0 <= k < i ==> !site(#[trigger] list[k])) ==> chosen(Some(list)).v6 == Some(
                list[i]->V6_0,
            )
            &&& no_world && no_site ==> chosen(Some(list)).v6 is None
            &&& chosen(None).v6 is None
        }),
{
    lemma_first_v6_is(list, false, i);
    lemma_first_v6_is(list, true, i);
    let world = |a: IpAddr| a is V6 && usable_v6(a->V6_0) && !site_v6(a->V6_0);
    let site = |a: IpAddr| a is V6 && usable_v6(a->V6_0) && site_v6(a->V6_0);
    assert forall|k: int| #![trigger list[k]] world(list[k]) == fits_v6(list[k], false) by {}
    assert forall|k: int| #![trigger list[k]] site(list[k]) == fits_v6(list[k], true) by {}
}

spec fn fits_v6(a: IpAddr, site: bool) -> bool {
    a is V6 && usable_v6(a->V6_0) && site_v6(a->V6_0) == site
}

proof fn lemma_first_v6_is(list: Seq<IpAddr>, site: bool, i: int)
    ensures
        0 <= i < list.len() && fits_v6(list[i], site) && (forall|k: int|
            0 <= k < i ==> !fits_v6(#[trigger] list[k], site)) ==> first_v6(list, site) == Some(
            list[i]->V6_0,
        ),
        (forall|k: int| 0 <= k < list.len() ==> !fits_v6(#[trigger] list[k], site)) ==> first_v6(
            list,
            site,
        ) is None,
    decreases list.len(),
{
    if list.len() > 0 {
        let less = list.drop_last();
        lemma_first_v6_is(less, site, i);
        assert forall|k: int| 0 <= k < less.len() implies #[trigger] less[k] == list[k] by {}
        assert(list.last() == list[list.len() - 1]);
    }
}

} // verus!
