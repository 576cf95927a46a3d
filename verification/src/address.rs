//! IPv4 addresses with a port, and their text forms.
//!
//! An address is written `a.b.c.d:port`, each number in decimal without
//! leading zeros. [`parse_ipv4`] reads the dotted quad, [`Address::to_text`]
//! writes the whole.

use vstd::prelude::*;
use vstd::utf8::encode_utf8;
use crate::text::{ascii_text, lemma_ascii_is_utf8, text_from_utf8};

verus! {

/// An IPv4 address `a.b.c.d`.
#[derive(Clone, Copy, Debug, PartialEq, Eq, Hash, Structural)]
pub struct Ipv4 {
    pub a: u8,
    pub b: u8,
    pub c: u8,
    pub d: u8,
}

/// Where datagrams for a peer are sent: an IPv4 address and a UDP port.
#[derive(Clone, Copy, Debug, PartialEq, Eq, Hash, Structural)]
pub struct Address {
    pub ip: Ipv4,
    pub port: u16,
}

impl Address {
    /// The address `a.b.c.d:port`.
    pub fn new(a: u8, b: u8, c: u8, d: u8, port: u16) -> (addr: Address)
        ensures
            addr == (Address { ip: Ipv4 { a, b, c, d }, port }),
    {
        Address { ip: Ipv4 { a, b, c, d }, port }
    }

    /// The address in text, `a.b.c.d:port`, as a transport takes it.
    pub fn to_text(&self) -> (text: String)
        ensures
            text@ == ascii_text(address_form(*self)),
    {
        let mut out: Vec<u8> = Vec::new();
        push_digits(&mut out, self.ip.a as u16);
        out.push(46);
        push_digits(&mut out, self.ip.b as u16);
        out.push(46);
        push_digits(&mut out, self.ip.c as u16);
        out.push(46);
        push_digits(&mut out, self.ip.d as u16);
        out.push(58);
        push_digits(&mut out, self.port);
        proof {
            lemma_decimal_is_digits(self.ip.a);
            lemma_decimal_is_digits(self.ip.b);
            lemma_decimal_is_digits(self.ip.c);
            lemma_decimal_is_digits(self.ip.d);
            assert(out@ =~= address_form(*self));
            lemma_ascii_is_utf8(out@);
        }
        let ghost form = out@;
        match text_from_utf8(out) {
            Some(text) => {
                proof {
                    assert(encode_utf8(text@) == form);
                    vstd::utf8::encode_utf8_decode_utf8(text@);
                }
                text
            },
            None => String::new(),
        }
    }
}

/// Whether `b` is an ASCII decimal digit.
pub open spec fn is_digit(b: u8) -> bool {
    48 <= b <= 57
}

/// The decimal form of an octet, without leading zeros, in ASCII.
pub open spec fn decimal(v: u8) -> Seq<u8> {
    if v < 10 {
        seq![(48 + v) as u8]
    } else if v < 100 {
        seq![(48 + v / 10) as u8, (48 + v % 10) as u8]
    } else {
        seq![(48 + v / 100) as u8, (48 + v / 10 % 10) as u8, (48 + v % 10) as u8]
    }
}

/// The dotted-quad form of an IPv4 address, in ASCII: `a.b.c.d`.
pub open spec fn ipv4_text(ip: Ipv4) -> Seq<u8> {
    decimal(ip.a) + seq![46u8] + decimal(ip.b) + seq![46u8] + decimal(ip.c) + seq![46u8] + decimal(
        ip.d,
    )
}

/// The decimal form of a number, without leading zeros, in ASCII.
pub open spec fn digits_of(n: nat) -> Seq<u8>
    decreases n,
{
    if n < 10 {
        seq![(48 + n) as u8]
    } else {
        digits_of(n / 10).push((48 + n % 10) as u8)
    }
}

/// The text form of an address, in ASCII: `a.b.c.d:port`.
pub open spec fn address_form(addr: Address) -> Seq<u8> {
    ipv4_text(addr.ip) + seq![58u8] + digits_of(addr.port as nat)
}

/// The address that `text` is the dotted-quad form of, if it is one.
pub open spec fn ipv4_of(text: Seq<u8>) -> Option<Ipv4> {
    if exists|ip: Ipv4| text == ipv4_text(ip) {
        Some(choose|ip: Ipv4| text == ipv4_text(ip))
    } else {
        None
    }
}

/// The decimal form of an octet is that of the number it is.
pub proof fn lemma_decimal_is_digits(v: u8)
    ensures
        decimal(v) == digits_of(v as nat),
{
    reveal_with_fuel(digits_of, 3);
    assert(decimal(v) =~= digits_of(v as nat));
}

/// The decimal form of a number holds digits only, and at least one.
pub proof fn lemma_digits_are_digits(n: nat)
    ensures
        digits_of(n).len() >= 1,
        forall|i: int| 0 <= i < digits_of(n).len() ==> is_digit(#[trigger] digits_of(n)[i]),
    decreases n,
{
    if n >= 10 {
        lemma_digits_are_digits(n / 10);
    }
}

/// Appends the decimal form of `n` to `out`.
fn push_digits(out: &mut Vec<u8>, n: u16)
    ensures
        final(out)@ == old(out)@ + digits_of(n as nat),
        forall|i: int| 0 <= i < old(out)@.len() ==> final(out)@[i] == old(out)@[i],
        forall|i: int| old(out)@.len() <= i < final(out)@.len() ==> is_digit(#[trigger] final(out)@[i]),
    decreases n,
{
    if n >= 10 {
        push_digits(out, n / 10);
    }
    out.push(48 + (n % 10) as u8);
    proof {
        lemma_digits_are_digits(n as nat);
        assert(out@ =~= old(out)@ + digits_of(n as nat));
    }
}

/// The bytes of `text` from `start` up to `end` are the decimal form of `v`,
/// and no digit follows them.
pub open spec fn octet_at(text: Seq<u8>, start: int, v: u8, end: int) -> bool {
    &&& 0 <= start < end <= text.len()
    &&& text.subrange(start, end) == decimal(v)
    &&& (end == text.len() || !is_digit(text[end]))
}

/// Reads the octet that starts at `start`, to the end of its digits.
fn read_octet(text: &[u8], start: usize) -> (found: Option<(u8, usize)>)
    requires
        start <= text@.len(),
    ensures
        found matches Some((v, end)) ==> octet_at(text@, start as int, v, end as int),
        found is None ==> forall|v: u8, end: int| !octet_at(text@, start as int, v, end),
{
    let mut end: usize = start;
    while end < text.len() && end - start < 4 && 48 <= text[end] && text[end] <= 57
        invariant
            start <= end <= text@.len(),
            end - start <= 4,
            forall|j: int| start <= j < end ==> is_digit(#[trigger] text@[j]),
        decreases text@.len() - end,
    {
        end += 1;
    }
    let run: usize = end - start;
    proof {
        // Whatever octet stands at `start` ends where the digits end.
        assert forall|v: u8, stop: int| octet_at(text@, start as int, v, stop) implies stop == end
            && run <= 3 by {
            let digits = text@.subrange(start as int, stop);
            assert(digits.len() <= 3);
            assert forall|j: int| 0 <= j < digits.len() implies is_digit(digits[j]) by {}
            if stop < end {
                assert(is_digit(text@[stop]));
            }
            if stop > end {
                assert(digits[end - start] == text@[end as int]);
                assert(is_digit(digits[end - start]));
            }
        }
    }
    if run == 0 || run > 3 {
        return None;
    }
    let d0: u8 = text[start] - 48;
    let ghost digits = text@.subrange(start as int, end as int);
    if run == 1 {
        assert(digits =~= decimal(d0));
        return Some((d0, end));
    }
    if d0 == 0 {
        proof {
            assert forall|v: u8, stop: int| !octet_at(text@, start as int, v, stop) by {
                if octet_at(text@, start as int, v, stop) {
                    let found = text@.subrange(start as int, stop);
                    assert(stop == end);
                    assert(found.len() == run);
                    assert(found[0] == text@[start as int]);
                    assert(v >= 10);
                    assert(decimal(v)[0] != 48);
                }
            }
        }
        return None;
    }
    let d1: u8 = text[start + 1] - 48;
    if run == 2 {
        let v: u8 = d0 * 10 + d1;
        assert(digits =~= decimal(v));
        return Some((v, end));
    }
    let d2: u8 = text[start + 2] - 48;
    let wide: u16 = (d0 as u16) * 100 + (d1 as u16) * 10 + d2 as u16;
    if wide > 255 {
        proof {
            assert forall|v: u8, stop: int| !octet_at(text@, start as int, v, stop) by {
                if octet_at(text@, start as int, v, stop) {
                    let found = text@.subrange(start as int, stop);
                    assert(stop == end);
                    assert(found.len() == 3);
                    assert(v >= 100);
                    assert(found[0] == text@[start as int]);
                    assert(found[1] == text@[start + 1]);
                    assert(found[2] == text@[start + 2]);
                    assert(d0 == v / 100 && d1 == v / 10 % 10 && d2 == v % 10);
                    assert(wide == v);
                }
            }
        }
        return None;
    }
    let v: u8 = wide as u8;
    assert(digits =~= decimal(v));
    Some((v, end))
}

/// An octet that stands at a place is the only one that stands there.
proof fn lemma_octet_unique(text: Seq<u8>, start: int, v: u8, end: int, w: u8, stop: int)
    requires
        octet_at(text, start, v, end),
        octet_at(text, start, w, stop),
    ensures
        v == w,
        end == stop,
{
    let first = text.subrange(start, end);
    let second = text.subrange(start, stop);
    assert forall|j: int| 0 <= j < first.len() implies is_digit(first[j]) by {}
    assert forall|j: int| 0 <= j < second.len() implies is_digit(second[j]) by {}
    if end < stop {
        assert(second[end - start] == text[end]);
    }
    if stop < end {
        assert(first[stop - start] == text[stop]);
    }
    assert(first == second);
    assert(first[0] == second[0]);
    if first.len() > 1 {
        assert(first[1] == second[1]);
    }
    if first.len() > 2 {
        assert(first[2] == second[2]);
    }
}

/// Where the octets and dots of a dotted quad stand.
proof fn lemma_quad_layout(ip: Ipv4)
    ensures
        ({
            let text = ipv4_text(ip);
            let e1 = decimal(ip.a).len() as int;
            let e2 = e1 + 1 + decimal(ip.b).len();
            let e3 = e2 + 1 + decimal(ip.c).len();
            let e4 = e3 + 1 + decimal(ip.d).len();
            &&& text.len() == e4
            &&& octet_at(text, 0, ip.a, e1) && text[e1] == 46
            &&& octet_at(text, e1 + 1, ip.b, e2) && text[e2] == 46
            &&& octet_at(text, e2 + 1, ip.c, e3) && text[e3] == 46
            &&& octet_at(text, e3 + 1, ip.d, e4)
        }),
{
    let text = ipv4_text(ip);
    let e1 = decimal(ip.a).len() as int;
    let e2 = e1 + 1 + decimal(ip.b).len();
    let e3 = e2 + 1 + decimal(ip.c).len();
    let e4 = e3 + 1 + decimal(ip.d).len();
    assert(text.subrange(0, e1) =~= decimal(ip.a));
    assert(text.subrange(e1 + 1, e2) =~= decimal(ip.b));
    assert(text.subrange(e2 + 1, e3) =~= decimal(ip.c));
    assert(text.subrange(e3 + 1, e4) =~= decimal(ip.d));
}

/// In the dotted quad of `ip`, the octet that stands first is `ip.a`, and a
/// dot follows it.
proof fn lemma_first_octet(text: Seq<u8>, ip: Ipv4, a: u8, e1: int)
    requires
        text == ipv4_text(ip),
        octet_at(text, 0, a, e1),
    ensures
        a == ip.a,
        e1 == decimal(ip.a).len(),
        e1 < text.len() && text[e1] == 46,
        octet_at(text, e1 + 1, ip.b, e1 + 1 + decimal(ip.b).len()),
{
    lemma_quad_layout(ip);
    lemma_octet_unique(text, 0, a, e1, ip.a, decimal(ip.a).len() as int);
}

/// In the dotted quad of `ip`, the octet after the first dot is `ip.b`, and a
/// dot follows it.
proof fn lemma_second_octet(text: Seq<u8>, ip: Ipv4, e1: int, b: u8, e2: int)
    requires
        text == ipv4_text(ip),
        e1 == decimal(ip.a).len(),
        octet_at(text, e1 + 1, b, e2),
    ensures
        b == ip.b,
        e2 == e1 + 1 + decimal(ip.b).len(),
        e2 < text.len() && text[e2] == 46,
        octet_at(text, e2 + 1, ip.c, e2 + 1 + decimal(ip.c).len()),
{
    lemma_quad_layout(ip);
    lemma_octet_unique(text, e1 + 1, b, e2, ip.b, e1 + 1 + decimal(ip.b).len());
}

/// In the dotted quad of `ip`, the octet after the second dot is `ip.c`, and
/// a dot follows it.
proof fn lemma_third_octet(text: Seq<u8>, ip: Ipv4, e2: int, c: u8, e3: int)
    requires
        text == ipv4_text(ip),
        e2 == decimal(ip.a).len() + 1 + decimal(ip.b).len(),
        octet_at(text, e2 + 1, c, e3),
    ensures
        c == ip.c,
        e3 == e2 + 1 + decimal(ip.c).len(),
        e3 < text.len() && text[e3] == 46,
        octet_at(text, e3 + 1, ip.d, e3 + 1 + decimal(ip.d).len()),
{
    lemma_quad_layout(ip);
    lemma_octet_unique(text, e2 + 1, c, e3, ip.c, e2 + 1 + decimal(ip.c).len());
}

/// In the dotted quad of `ip`, the octet after the third dot is `ip.d`, and
/// the text ends with it.
proof fn lemma_fourth_octet(text: Seq<u8>, ip: Ipv4, e3: int, d: u8, e4: int)
    requires
        text == ipv4_text(ip),
        e3 == decimal(ip.a).len() + 1 + decimal(ip.b).len() + 1 + decimal(ip.c).len(),
        octet_at(text, e3 + 1, d, e4),
    ensures
        d == ip.d,
        e4 == text.len(),
{
    lemma_quad_layout(ip);
    lemma_octet_unique(text, e3 + 1, d, e4, ip.d, e3 + 1 + decimal(ip.d).len());
}

/// Four octets with dots between them that fill a text make it a dotted quad.
proof fn lemma_octets_make_quad(
    text: Seq<u8>,
    a: u8,
    e1: int,
    b: u8,
    e2: int,
    c: u8,
    e3: int,
    d: u8,
)
    requires
        octet_at(text, 0, a, e1),
        e1 < text.len() && text[e1] == 46,
        octet_at(text, e1 + 1, b, e2),
        e2 < text.len() && text[e2] == 46,
        octet_at(text, e2 + 1, c, e3),
        e3 < text.len() && text[e3] == 46,
        octet_at(text, e3 + 1, d, text.len() as int),
    ensures
        text == ipv4_text(Ipv4 { a, b, c, d }),
{
    let joined = text.subrange(0, e1) + seq![46u8] + text.subrange(e1 + 1, e2) + seq![46u8]
        + text.subrange(e2 + 1, e3) + seq![46u8] + text.subrange(e3 + 1, text.len() as int);
    assert(joined =~= text);
}

/// No two addresses share a dotted-quad form.
pub proof fn lemma_ipv4_text_injective(first: Ipv4, second: Ipv4)
    requires
        ipv4_text(first) == ipv4_text(second),
    ensures
        first == second,
{
    let text = ipv4_text(first);
    lemma_quad_layout(first);
    let e1 = decimal(first.a).len() as int;
    let e2 = e1 + 1 + decimal(first.b).len();
    let e3 = e2 + 1 + decimal(first.c).len();
    lemma_first_octet(text, second, first.a, e1);
    lemma_second_octet(text, second, e1, first.b, e2);
    lemma_third_octet(text, second, e2, first.c, e3);
    lemma_fourth_octet(text, second, e3, first.d, text.len() as int);
}

/// A text names the address whose dotted-quad form it is, and no other.
pub proof fn lemma_ipv4_of(text: Seq<u8>, ip: Ipv4)
    ensures
        ipv4_of(text) == Some(ip) <==> text == ipv4_text(ip),
        ipv4_of(ipv4_text(ip)) == Some(ip),
{
    if text == ipv4_text(ip) {
        lemma_ipv4_text_injective(ip, choose|other: Ipv4| text == ipv4_text(other));
    }
    lemma_ipv4_text_injective(ip, choose|other: Ipv4| ipv4_text(ip) == ipv4_text(other));
}

/// Reads `text` as an IPv4 address in dotted-quad form: four decimal octets
/// without leading zeros, separated by dots, and nothing else.
pub fn parse_ipv4(text: &[u8]) -> (parsed: Option<Ipv4>)
    ensures
        parsed matches Some(ip) ==> text@ == ipv4_text(ip),
        parsed is None ==> forall|ip: Ipv4| text@ != ipv4_text(ip),
        parsed == ipv4_of(text@),
{
    let len: usize = text.len();
    let (a, e1) = match read_octet(text, 0) {
        Some(found) => found,
        None => {
            proof {
                assert forall|ip: Ipv4| text@ != ipv4_text(ip) by {
                    lemma_quad_layout(ip);
                }
            }
            return None;
        },
    };
    if e1 >= len || text[e1] != 46 {
        proof {
            assert forall|ip: Ipv4| text@ != ipv4_text(ip) by {
                if text@ == ipv4_text(ip) {
                    lemma_first_octet(text@, ip, a, e1 as int);
                }
            }
        }
        return None;
    }
    let (b, e2) = match read_octet(text, e1 + 1) {
        Some(found) => found,
        None => {
            proof {
                assert forall|ip: Ipv4| text@ != ipv4_text(ip) by {
                    if text@ == ipv4_text(ip) {
                        lemma_first_octet(text@, ip, a, e1 as int);
                    }
                }
            }
            return None;
        },
    };
    if e2 >= len || text[e2] != 46 {
        proof {
            assert forall|ip: Ipv4| text@ != ipv4_text(ip) by {
                if text@ == ipv4_text(ip) {
                    lemma_first_octet(text@, ip, a, e1 as int);
                    lemma_second_octet(text@, ip, e1 as int, b, e2 as int);
                }
            }
        }
        return None;
    }
    let (c, e3) = match read_octet(text, e2 + 1) {
        Some(found) => found,
        None => {
            proof {
                assert forall|ip: Ipv4| text@ != ipv4_text(ip) by {
                    if text@ == ipv4_text(ip) {
                        lemma_first_octet(text@, ip, a, e1 as int);
                        lemma_second_octet(text@, ip, e1 as int, b, e2 as int);
                    }
                }
            }
            return None;
        },
    };
    if e3 >= len || text[e3] != 46 {
        proof {
            assert forall|ip: Ipv4| text@ != ipv4_text(ip) by {
                if text@ == ipv4_text(ip) {
                    lemma_first_octet(text@, ip, a, e1 as int);
                    lemma_second_octet(text@, ip, e1 as int, b, e2 as int);
                    lemma_third_octet(text@, ip, e2 as int, c, e3 as int);
                }
            }
        }
        return None;
    }
    let (d, e4) = match read_octet(text, e3 + 1) {
        Some(found) => found,
        None => {
            proof {
                assert forall|ip: Ipv4| text@ != ipv4_text(ip) by {
                    if text@ == ipv4_text(ip) {
                        lemma_first_octet(text@, ip, a, e1 as int);
                        lemma_second_octet(text@, ip, e1 as int, b, e2 as int);
                        lemma_third_octet(text@, ip, e2 as int, c, e3 as int);
                    }
                }
            }
            return None;
        },
    };
    if e4 != len {
        proof {
            assert forall|ip: Ipv4| text@ != ipv4_text(ip) by {
                if text@ == ipv4_text(ip) {
                    lemma_first_octet(text@, ip, a, e1 as int);
                    lemma_second_octet(text@, ip, e1 as int, b, e2 as int);
                    lemma_third_octet(text@, ip, e2 as int, c, e3 as int);
                    lemma_fourth_octet(text@, ip, e3 as int, d, e4 as int);
                }
            }
        }
        return None;
    }
    proof {
        lemma_octets_make_quad(text@, a, e1 as int, b, e2 as int, c, e3 as int, d);
        let chosen = choose|ip: Ipv4| text@ == ipv4_text(ip);
        lemma_ipv4_text_injective(Ipv4 { a, b, c, d }, chosen);
    }
    Some(Ipv4 { a, b, c, d })
}


} // verus!
