//! Dotted-decimal and dotted-binary forms of addresses, and the report lines.
use vstd::prelude::*;
use vstd::string::*;

use crate::addr::{
    bit, broadcast, is_octets, max_hosts, min_hosts, netmask, netmask_octects_from_prefix,
    network_id, next_addr, prev_addr, to_broadcast, to_network_id, to_wildcard, unpack,
    wildcard,
};

verus! {

/// The character of a decimal digit.
pub open spec fn digit_char(d: nat) -> char {
    if d == 0 {
        '0'
    } else if d == 1 {
        '1'
    } else if d == 2 {
        '2'
    } else if d == 3 {
        '3'
    } else if d == 4 {
        '4'
    } else if d == 5 {
        '5'
    } else if d == 6 {
        '6'
    } else if d == 7 {
        '7'
    } else if d == 8 {
        '8'
    } else {
        '9'
    }
}

/// The decimal form of `n`, without leading zeros.
pub open spec fn decimal(n: nat) -> Seq<char>
    decreases n,
{
    if n < 10 {
        seq![digit_char(n)]
    } else {
        decimal(n / 10).push(digit_char(n % 10))
    }
}

/// The low eight bits of `n` as '0' and '1', most significant first.
pub open spec fn binary8(n: u32) -> Seq<char> {
    Seq::new(8, |i: int| if bit(n, (7 - i) as u32) { '1' } else { '0' })
}

/// An address in dotted-decimal form, `D.D.D.D`.
pub open spec fn dotted_decimal(o: Seq<u32>) -> Seq<char> {
    decimal(o[0] as nat) + seq!['.'] + decimal(o[1] as nat) + seq!['.'] + decimal(o[2] as nat)
        + seq!['.'] + decimal(o[3] as nat)
}

/// An address in dotted-binary form, each octet as eight binary digits.
pub open spec fn dotted_binary(o: Seq<u32>) -> Seq<char> {
    binary8(o[0]) + seq!['.'] + binary8(o[1]) + seq!['.'] + binary8(o[2]) + seq!['.'] + binary8(
        o[3],
    )
}

/// `s` followed by spaces up to `width` characters; `s` itself when it is as wide.
pub open spec fn padded(s: Seq<char>, width: nat) -> Seq<char> {
    if s.len() >= width {
        s
    } else {
        s + Seq::new((width - s.len()) as nat, |i: int| ' ')
    }
}

/// One line of the report: the label, the dotted-decimal form padded to 16
/// characters, a space and the dotted-binary form.
pub open spec fn report_line(label: Seq<char>, o: Seq<u32>) -> Seq<char> {
    label + padded(dotted_decimal(o), 16) + seq![' '] + dotted_binary(o)
}

/// Every line of the report on an address and a prefix length, in order.
pub open spec fn report(ip: Seq<u32>, p: u32) -> Seq<Seq<char>> {
    seq![
        report_line("Address:   "@, ip),
        report_line("Netmask:   "@, unpack(netmask(p))),
        report_line("Wildcard:  "@, unpack(wildcard(p))),
        "=>"@,
        report_line("Network:   "@, unpack(network_id(ip, p))),
        report_line("HostMin:   "@, unpack(next_addr(network_id(ip, p)))),
        report_line("HostMax:   "@, unpack(prev_addr(broadcast(ip, p)))),
        report_line("Broadcast: "@, unpack(broadcast(ip, p))),
    ]
}

/// The digits that make up the decimal form of a number up to 999.
pub proof fn lemma_decimal_len(n: nat)
    requires
        n <= 999,
    ensures
        n < 10 ==> decimal(n) == seq![digit_char(n)],
        10 <= n < 100 ==> decimal(n) == seq![digit_char(n / 10), digit_char(n % 10)],
        100 <= n ==> decimal(n) == seq![
            digit_char(n / 100),
            digit_char((n / 10) % 10),
            digit_char(n % 10),
        ],
        1 <= decimal(n).len() <= 3,
        decimal(n).len() == (if n < 10 {
            1nat
        } else if n < 100 {
            2nat
        } else {
            3nat
        }),
{
    reveal_with_fuel(decimal, 3);
    if n >= 100 {
        assert((n / 10) / 10 == n / 100);
        assert(decimal(n) =~= seq![digit_char(n / 100), digit_char((n / 10) % 10), digit_char(n % 10)]);
    } else if n >= 10 {
        assert(decimal(n) =~= seq![digit_char(n / 10), digit_char(n % 10)]);
    }
}

/// The one-character text of a decimal digit.
fn digit_str(d: u32) -> (r: &'static str)
    requires
        d < 10,
    ensures
        r@ == seq![digit_char(d as nat)],
{
    proof {
        reveal_strlit("0");
        reveal_strlit("1");
        reveal_strlit("2");
        reveal_strlit("3");
        reveal_strlit("4");
        reveal_strlit("5");
        reveal_strlit("6");
        reveal_strlit("7");
        reveal_strlit("8");
        reveal_strlit("9");
    }
    if d == 0 {
        "0"
    } else if d == 1 {
        "1"
    } else if d == 2 {
        "2"
    } else if d == 3 {
        "3"
    } else if d == 4 {
        "4"
    } else if d == 5 {
        "5"
    } else if d == 6 {
        "6"
    } else if d == 7 {
        "7"
    } else if d == 8 {
        "8"
    } else {
        "9"
    }
}

/// Appends the decimal form of `n` and returns how many characters it took.
fn push_decimal(s: &mut String, n: u32) -> (w: usize)
    requires
        n <= 255,
    ensures
        final(s)@ == old(s)@ + decimal(n as nat),
        w == decimal(n as nat).len(),
{
    proof {
        lemma_decimal_len(n as nat);
    }
    if n >= 100 {
        s.append(digit_str(n / 100));
        s.append(digit_str((n / 10) % 10));
        s.append(digit_str(n % 10));
        3
    } else if n >= 10 {
        s.append(digit_str(n / 10));
        s.append(digit_str(n % 10));
        2
    } else {
        s.append(digit_str(n));
        1
    }
}

/// Appends the eight binary digits of the low byte of `n`.
fn push_binary8(s: &mut String, n: u32)
    ensures
        final(s)@ == old(s)@ + binary8(n),
{
    let ghost start = s@;
    let mut i: u32 = 0;
    while i < 8
        invariant
            i <= 8,
            s@ == start + binary8(n).take(i as int),
        decreases 8 - i,
    {
        let one = (n >> (7 - i)) & 1 == 1;
        proof {
            reveal_strlit("1");
            reveal_strlit("0");
            assert(binary8(n).take(i + 1) =~= binary8(n).take(i as int).push(binary8(n)[i as int]));
        }
        if one {
            s.append("1");
        } else {
            s.append("0");
        }
        i = i + 1;
    }
    assert(binary8(n).take(8) =~= binary8(n));
}

/// Appends the dotted-decimal form of an address and returns its width.
fn push_dotted_decimal(s: &mut String, o: &[u32]) -> (w: usize)
    requires
        is_octets(o@),
    ensures
        final(s)@ == old(s)@ + dotted_decimal(o@),
        w == dotted_decimal(o@).len(),
        w <= 15,
{
    proof {
        reveal_strlit(".");
        assert(o@[0] <= 255 && o@[1] <= 255 && o@[2] <= 255 && o@[3] <= 255);
    }
    let ghost start = s@;
    let w0 = push_decimal(s, o[0]);
    s.append(".");
    let w1 = push_decimal(s, o[1]);
    s.append(".");
    let w2 = push_decimal(s, o[2]);
    s.append(".");
    let w3 = push_decimal(s, o[3]);
    proof {
        lemma_decimal_len(o@[0] as nat);
        lemma_decimal_len(o@[1] as nat);
        lemma_decimal_len(o@[2] as nat);
        lemma_decimal_len(o@[3] as nat);
        assert(s@ =~= start + dotted_decimal(o@));
    }
    w0 + w1 + w2 + w3 + 3
}

/// Appends the dotted-binary form of an address.
fn push_dotted_binary(s: &mut String, o: &[u32])
    requires
        is_octets(o@),
    ensures
        final(s)@ == old(s)@ + dotted_binary(o@),
{
    proof {
        reveal_strlit(".");
    }
    let ghost start = s@;
    push_binary8(s, o[0]);
    s.append(".");
    push_binary8(s, o[1]);
    s.append(".");
    push_binary8(s, o[2]);
    s.append(".");
    push_binary8(s, o[3]);
    assert(s@ =~= start + dotted_binary(o@));
}

/// The dotted-decimal form of an address, `D.D.D.D`.
pub fn to_ipv4(octects: &[u32]) -> (r: String)
    requires
        is_octets(octects@),
    ensures
        r@ == dotted_decimal(octects@),
{
    let mut s = String::new();
    push_dotted_decimal(&mut s, octects);
    assert(s@ =~= dotted_decimal(octects@));
    s
}

/// The dotted-binary form of an address, each octet zero-padded to eight digits.
pub fn to_binary(octects: &[u32]) -> (r: String)
    requires
        is_octets(octects@),
    ensures
        r@ == dotted_binary(octects@),
{
    let mut s = String::new();
    push_dotted_binary(&mut s, octects);
    assert(s@ =~= dotted_binary(octects@));
    s
}

/// One report line for an address under a label.
fn line_for(label: &str, o: &[u32]) -> (r: String)
    requires
        is_octets(o@),
    ensures
        r@ == report_line(label@, o@),
{
    proof {
        reveal_strlit(" ");
    }
    let mut s = String::from_str(label);
    let w = push_dotted_decimal(&mut s, o);
    let ghost after_decimal = s@;
    let mut k: usize = w;
    while k < 16
        invariant
            w <= k <= 16,
            s@ == after_decimal + Seq::new((k - w) as nat, |i: int| ' '),
        decreases 16 - k,
    {
        proof {
            reveal_strlit(" ");
        }
        s.append(" ");
        k = k + 1;
        assert(Seq::new((k - w) as nat, |i: int| ' ') =~= Seq::new((k - 1 - w) as nat, |i: int| ' ').push(' '));
        assert(s@ =~= after_decimal + Seq::new((k - w) as nat, |i: int| ' '));
    }
    s.append(" ");
    push_dotted_binary(&mut s, o);
    assert(s@ =~= report_line(label@, o@));
    s
}

/// The lines of the report on an address and a prefix length: the address,
/// netmask and wildcard mask, a `=>` line, then the network id, the first and
/// last host addresses and the broadcast address.
pub fn report_lines(ip: &[u32], prefix: &u32) -> (r: Vec<String>)
    requires
        is_octets(ip@),
        *prefix <= 32,
    ensures
        r@.len() == 8,
        forall|i: int| 0 <= i < 8 ==> #[trigger] r@[i]@ == report(ip@, *prefix)[i],
{
    let netmask = netmask_octects_from_prefix(*prefix);
    let network_id = to_network_id(ip, &netmask);
    let wildcard = to_wildcard(prefix);
    let broadcast = to_broadcast(ip, prefix);
    let host_max = max_hosts(&broadcast);
    let host_min = min_hosts(&network_id);
    proof {
        crate::addr::lemma_pack_unpack(crate::addr::netmask(*prefix));
        crate::addr::lemma_unpack_pack(network_id@);
        crate::addr::lemma_pack_unpack(crate::addr::broadcast(ip@, *prefix));
    }
    let mut r: Vec<String> = Vec::new();
    r.push(line_for("Address:   ", ip));
    r.push(line_for("Netmask:   ", &netmask));
    r.push(line_for("Wildcard:  ", &wildcard));
    r.push(String::from_str("=>"));
    r.push(line_for("Network:   ", &network_id));
    r.push(line_for("HostMin:   ", &host_min));
    r.push(line_for("HostMax:   ", &host_max));
    r.push(line_for("Broadcast: ", &broadcast));
    proof {
        reveal_strlit("=>");
    }
    r
}

} // verus!
