//! Address arithmetic on four-octet IPv4 addresses.
//!
//! An address is handed around as a slice of four `u32` octets, most
//! significant first, each at most 255. Its meaning is the 32-bit word that
//! `pack` builds from it; `unpack` goes the other way.
use vstd::prelude::*;

verus! {

/// Four octets, each within a byte.
pub open spec fn is_octets(o: Seq<u32>) -> bool {
    o.len() == 4 && forall|i: int| 0 <= i < 4 ==> #[trigger] o[i] <= 255
}

/// The 32-bit word whose bytes, most significant first, are `a`, `b`, `c`, `d`.
pub open spec fn pack4(a: u32, b: u32, c: u32, d: u32) -> u32 {
    (a << 24u32) | (b << 16u32) | (c << 8u32) | d
}

/// The 32-bit word of an address given as octets.
pub open spec fn pack(o: Seq<u32>) -> u32 {
    pack4(o[0], o[1], o[2], o[3])
}

/// The four octets of a 32-bit word, most significant first.
pub open spec fn unpack(x: u32) -> Seq<u32> {
    seq![(x >> 24u32) & 0xff, (x >> 16u32) & 0xff, (x >> 8u32) & 0xff, x & 0xff]
}

/// The netmask of a prefix length: its `p` most significant bits set, the rest clear.
pub open spec fn netmask(p: u32) -> u32 {
    if p == 0 {
        0
    } else {
        0xffff_ffffu32 << ((32 - p) as u32)
    }
}

/// The wildcard mask of a prefix length: the complement of its netmask.
pub open spec fn wildcard(p: u32) -> u32 {
    !netmask(p)
}

/// The network id: the address with every host bit cleared.
pub open spec fn network_id(ip: Seq<u32>, p: u32) -> u32 {
    pack(ip) & netmask(p)
}

/// The broadcast address: the address with every host bit set.
pub open spec fn broadcast(ip: Seq<u32>, p: u32) -> u32 {
    pack(ip) | wildcard(p)
}

/// The address after `x`, wrapping from 255.255.255.255 to 0.0.0.0.
pub open spec fn next_addr(x: u32) -> u32 {
    if x == 0xffff_ffffu32 {
        0
    } else {
        (x + 1) as u32
    }
}

/// The address before `x`, wrapping from 0.0.0.0 to 255.255.255.255.
pub open spec fn prev_addr(x: u32) -> u32 {
    if x == 0 {
        0xffff_ffffu32
    } else {
        (x - 1) as u32
    }
}

/// Bit `i` of `x`, counted from the least significant.
pub open spec fn bit(x: u32, i: u32) -> bool {
    (x >> i) & 1u32 == 1u32
}

proof fn lemma_pack_unpack4(a: u32, b: u32, c: u32, d: u32)
    requires
        a <= 255,
        b <= 255,
        c <= 255,
        d <= 255,
    ensures
        (pack4(a, b, c, d) >> 24u32) & 0xff == a,
        (pack4(a, b, c, d) >> 16u32) & 0xff == b,
        (pack4(a, b, c, d) >> 8u32) & 0xff == c,
        pack4(a, b, c, d) & 0xff == d,
{
    assert((((a << 24u32) | (b << 16u32) | (c << 8u32) | d) >> 24u32) & 0xff == a
        && (((a << 24u32) | (b << 16u32) | (c << 8u32) | d) >> 16u32) & 0xff == b
        && (((a << 24u32) | (b << 16u32) | (c << 8u32) | d) >> 8u32) & 0xff == c
        && ((a << 24u32) | (b << 16u32) | (c << 8u32) | d) & 0xff == d) by (bit_vector)
        requires
            a <= 255,
            b <= 255,
            c <= 255,
            d <= 255,
    ;
}

/// Octets packed into a word and split again are the same octets.
pub proof fn lemma_unpack_pack(o: Seq<u32>)
    requires
        is_octets(o),
    ensures
        unpack(pack(o)) == o,
{
    assert(o[0] <= 255 && o[1] <= 255 && o[2] <= 255 && o[3] <= 255);
    lemma_pack_unpack4(o[0], o[1], o[2], o[3]);
    assert(unpack(pack(o)) =~= o);
}

/// A word split into octets and packed again is the same word; its octets are bytes.
pub proof fn lemma_pack_unpack(x: u32)
    ensures
        is_octets(unpack(x)),
        pack(unpack(x)) == x,
{
    let o = unpack(x);
    assert(((x >> 24u32) & 0xff) <= 255 && ((x >> 16u32) & 0xff) <= 255 && ((x >> 8u32) & 0xff)
        <= 255 && (x & 0xff) <= 255) by (bit_vector);
    assert(pack4((x >> 24u32) & 0xff, (x >> 16u32) & 0xff, (x >> 8u32) & 0xff, x & 0xff) == x)
        by (bit_vector);
}

/// The netmask of `p` has exactly its `p` most significant bits set, and the
/// wildcard mask is its bitwise complement: exactly its `32 - p` least
/// significant bits set.
pub proof fn lemma_mask_bits(p: u32)
    requires
        p <= 32,
    ensures
        forall|i: u32| i < 32 ==> (#[trigger] bit(netmask(p), i) <==> i >= 32 - p),
        forall|i: u32| i < 32 ==> (#[trigger] bit(wildcard(p), i) <==> i < 32 - p),
        wildcard(p) == !netmask(p),
{
    let m = netmask(p);
    let w = wildcard(p);
    assert forall|i: u32| i < 32 implies (bit(m, i) <==> i >= 32 - p) && (bit(w, i) <==> i < 32
        - p) by {
        if p == 0 {
            assert(!bit(m, i) && bit(w, i)) by (bit_vector)
                requires
                    m == 0u32,
                    w == !m,
                    i < 32,
            ;
        } else {
            let s = (32 - p) as u32;
            assert((bit(m, i) <==> i >= s) && (bit(w, i) <==> i < s)) by (bit_vector)
                requires
                    m == 0xffff_ffffu32 << s,
                    w == !m,
                    s < 32,
                    i < 32,
            ;
        }
    }
}

/// The network id has no bit in common with the wildcard mask, and the two
/// together make up the broadcast address.
pub proof fn lemma_network_wildcard(ip: Seq<u32>, p: u32)
    requires
        is_octets(ip),
        p <= 32,
    ensures
        network_id(ip, p) & wildcard(p) == 0,
        network_id(ip, p) | wildcard(p) == broadcast(ip, p),
{
    let x = pack(ip);
    let m = netmask(p);
    assert((x & m) & !m == 0 && ((x & m) | !m) == (x | !m)) by (bit_vector);
}

/// As 32-bit numbers, the network id is at most the address, and the address
/// at most the broadcast address.
pub proof fn lemma_network_le_address_le_broadcast(ip: Seq<u32>, p: u32)
    requires
        is_octets(ip),
        p <= 32,
    ensures
        network_id(ip, p) <= pack(ip) <= broadcast(ip, p),
{
    let x = pack(ip);
    let m = netmask(p);
    assert((x & m) <= x && x <= (x | !m)) by (bit_vector);
}

/// The word of four octets.
fn address_value(o: &[u32]) -> (r: u32)
    requires
        is_octets(o@),
    ensures
        r == pack(o@),
{
    o[0] << 24u32 | o[1] << 16u32 | o[2] << 8u32 | o[3]
}

/// The netmask of a prefix length as a word; a prefix of 0 gives no set bit.
fn netmask_value(prefix: u32) -> (r: u32)
    requires
        prefix <= 32,
    ensures
        r == netmask(prefix),
{
    if prefix == 0 {
        0
    } else {
        0xffff_ffffu32 << (32 - prefix)
    }
}

/// The four octets of `ip`, most significant first.
pub fn to_octets(ip: u32) -> (r: Vec<u32>)
    ensures
        r@ == unpack(ip),
        is_octets(r@),
        pack(r@) == ip,
{
    proof {
        lemma_pack_unpack(ip);
    }
    let r = vec![ip >> 24u32 & 0xff, ip >> 16u32 & 0xff, ip >> 8u32 & 0xff, ip & 0xff];
    assert(r@ =~= unpack(ip));
    r
}

/// The netmask of a prefix length, as octets.
pub fn netmask_octects_from_prefix(prefix: u32) -> (r: Vec<u32>)
    requires
        prefix <= 32,
    ensures
        r@ == unpack(netmask(prefix)),
        is_octets(r@),
{
    to_octets(netmask_value(prefix))
}

/// The wildcard mask of a prefix length, as octets.
pub fn to_wildcard(prefix: &u32) -> (r: Vec<u32>)
    requires
        *prefix <= 32,
    ensures
        r@ == unpack(wildcard(*prefix)),
        is_octets(r@),
{
    to_octets(!netmask_value(*prefix))
}

/// The broadcast address of an address and a prefix length, as octets.
pub fn to_broadcast(ip_octects: &[u32], prefix: &u32) -> (r: Vec<u32>)
    requires
        is_octets(ip_octects@),
        *prefix <= 32,
    ensures
        r@ == unpack(broadcast(ip_octects@, *prefix)),
        is_octets(r@),
{
    let address = address_value(ip_octects);
    let netmask = netmask_value(*prefix);
    to_octets(address | !netmask)
}

/// The network id of an address under a netmask, octet by octet.
pub fn to_network_id(ip_octects: &[u32], netmask_octects: &[u32]) -> (r: Vec<u32>)
    requires
        is_octets(ip_octects@),
        is_octets(netmask_octects@),
    ensures
        is_octets(r@),
        forall|i: int| 0 <= i < 4 ==> #[trigger] r@[i] == ip_octects@[i] & netmask_octects@[i],
        pack(r@) == pack(ip_octects@) & pack(netmask_octects@),
{
    let r = vec![
        ip_octects[0] & netmask_octects[0],
        ip_octects[1] & netmask_octects[1],
        ip_octects[2] & netmask_octects[2],
        ip_octects[3] & netmask_octects[3],
    ];
    proof {
        let a = ip_octects@;
        let m = netmask_octects@;
        assert(a[0] <= 255 && a[1] <= 255 && a[2] <= 255 && a[3] <= 255);
        assert(m[0] <= 255 && m[1] <= 255 && m[2] <= 255 && m[3] <= 255);
        lemma_and_octets(a[0], a[1], a[2], a[3], m[0], m[1], m[2], m[3]);
    }
    r
}

proof fn lemma_and_octets(a: u32, b: u32, c: u32, d: u32, e: u32, f: u32, g: u32, h: u32)
    requires
        a <= 255,
        b <= 255,
        c <= 255,
        d <= 255,
        e <= 255,
        f <= 255,
        g <= 255,
        h <= 255,
    ensures
        a & e <= 255,
        b & f <= 255,
        c & g <= 255,
        d & h <= 255,
        pack4(a & e, b & f, c & g, d & h) == pack4(a, b, c, d) & pack4(e, f, g, h),
{
    assert(a & e <= 255 && b & f <= 255 && c & g <= 255 && d & h <= 255) by (bit_vector)
        requires
            a <= 255,
            b <= 255,
            c <= 255,
            d <= 255,
    ;
    assert((((a & e) << 24u32) | ((b & f) << 16u32) | ((c & g) << 8u32) | (d & h)) == (((a
        << 24u32) | (b << 16u32) | (c << 8u32) | d) & ((e << 24u32) | (f << 16u32) | (g << 8u32)
        | h))) by (bit_vector)
        requires
            a <= 255,
            b <= 255,
            c <= 255,
            d <= 255,
            e <= 255,
            f <= 255,
            g <= 255,
            h <= 255,
    ;
}

/// The first host address: the address after the network id, carrying across
/// octets (and wrapping past 255.255.255.255).
pub fn min_hosts(network_id_octects: &[u32]) -> (r: Vec<u32>)
    requires
        is_octets(network_id_octects@),
    ensures
        r@ == unpack(next_addr(pack(network_id_octects@))),
        is_octets(r@),
{
    let v = address_value(network_id_octects);
    let next = if v == 0xffff_ffffu32 {
        0
    } else {
        v + 1
    };
    to_octets(next)
}

/// The last host address: the address before the broadcast address, borrowing
/// across octets (and wrapping below 0.0.0.0).
pub fn max_hosts(broadcast_octects: &[u32]) -> (r: Vec<u32>)
    requires
        is_octets(broadcast_octects@),
    ensures
        r@ == unpack(prev_addr(pack(broadcast_octects@))),
        is_octets(r@),
{
    let v = address_value(broadcast_octects);
    let prev = if v == 0 {
        0xffff_ffffu32
    } else {
        v - 1
    };
    to_octets(prev)
}

} // verus!
