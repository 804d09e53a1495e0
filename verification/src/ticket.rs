//! Share tickets: how a cluster invitation is written and read back.
//!
//! A ticket is the base64 text (standard alphabet, padded) of
//! `cluster:peer:timestamp`.

use vstd::prelude::*;
use vstd::string::StrSliceExecFns;
use vstd::utf8::{decode_utf8, encode_utf8, valid_utf8};
use crate::text::{decimal, push_decimal};
use crate::util::utf8_text;

verus! {

/// The base64 character of a six-bit value (standard alphabet).
pub open spec fn b64_char(v: u8) -> char {
    if v < 26 {
        (65 + v) as char
    } else if v < 52 {
        (71 + v) as char
    } else if v < 62 {
        (v - 4) as char
    } else if v == 62 {
        '+'
    } else {
        '/'
    }
}

/// Base64 text of bytes, standard alphabet, padded with `=`: every three
/// bytes give four characters, a last group of one or two bytes two or three
/// characters and the padding.
pub open spec fn base64_text(b: Seq<u8>) -> Seq<char>
    decreases b.len(),
{
    if b.len() == 0 {
        Seq::empty()
    } else if b.len() == 1 {
        seq![b64_char(b[0] >> 2u8), b64_char((b[0] & 3u8) << 4u8), '=', '=']
    } else if b.len() == 2 {
        seq![b64_char(b[0] >> 2u8), b64_char(((b[0] & 3u8) << 4u8) | (b[1] >> 4u8)), b64_char((b[1] & 15u8) << 2u8), '=']
    } else {
        seq![
            b64_char(b[0] >> 2u8),
            b64_char(((b[0] & 3u8) << 4u8) | (b[1] >> 4u8)),
            b64_char(((b[1] & 15u8) << 2u8) | (b[2] >> 6u8)),
            b64_char(b[2] & 63u8),
        ] + base64_text(b.skip(3))
    }
}

/// `STANDARD.encode` of the `base64` crate: the padded base64 text of the
/// bytes. It panics when the text's length overflows, which `requires` rules out.
#[verifier::external_body]
fn base64_encode(data: &[u8]) -> (r: String)
    requires
        (data@.len() + 2) / 3 * 4 <= usize::MAX,
    ensures
        r@ == base64_text(data@),
{
    base64::Engine::encode(&base64::engine::general_purpose::STANDARD, data)
}

/// `STANDARD.decode` of the `base64` crate. With canonical padding required
/// and no trailing bits allowed, it accepts exactly the padded base64 texts
/// and gives back the bytes they encode.
#[verifier::external_body]
fn base64_decode(text: &str) -> (r: Option<Vec<u8>>)
    ensures
        r matches Some(d) ==> text@ == base64_text(d@),
        r matches Some(d) ==> forall|b: Seq<u8>| text@ == #[trigger] base64_text(b) ==> d@ == b,
        r is None ==> forall|b: Seq<u8>| text@ != #[trigger] base64_text(b),
{
    match base64::Engine::decode(&base64::engine::general_purpose::STANDARD, text) {
        Ok(b) => Some(b),
        Err(_) => None,
    }
}

/// The bytes a padded base64 text encodes, if it is one.
pub open spec fn base64_bytes(t: Seq<char>) -> Option<Seq<u8>> {
    if exists|b: Seq<u8>| base64_text(b) == t {
        Some(choose|b: Seq<u8>| base64_text(b) == t)
    } else {
        None
    }
}

/// The segments of `s` between the separators `c`.
pub open spec fn split_on(s: Seq<char>, c: char) -> Seq<Seq<char>>
    decreases s.len(),
{
    if s.len() == 0 {
        seq![Seq::<char>::empty()]
    } else {
        let prev = split_on(s.drop_last(), c);
        if s.last() == c {
            prev.push(Seq::<char>::empty())
        } else {
            prev.update(prev.len() - 1, prev.last().push(s.last()))
        }
    }
}

/// The text a ticket carries: `cluster:peer:timestamp`.
pub open spec fn ticket_data(cluster: Seq<char>, peer: Seq<char>, timestamp: nat) -> Seq<char> {
    cluster + ":"@ + peer + ":"@ + decimal(timestamp)
}

/// Why a ticket is refused.
#[derive(Debug, PartialEq, Eq)]
pub enum TicketError {
    /// The ticket is not base64 text.
    InvalidEncoding,
    /// The bytes it encodes are not UTF-8 text.
    InvalidUtf8,
    /// The text does not have three parts separated by `:`.
    InvalidFormat,
    /// The ticket is for another cluster (named here).
    WrongCluster(String),
}

/// The value of a ticket's outcome: the peer and timestamp texts, or the error.
pub enum TicketView {
    Accepted(Seq<char>, Seq<char>),
    InvalidEncoding,
    InvalidUtf8,
    InvalidFormat,
    WrongCluster(Seq<char>),
}

/// What reading the ticket text `t` for `cluster` gives.
pub open spec fn read_ticket(t: Seq<char>, cluster: Seq<char>) -> TicketView {
    match base64_bytes(t) {
        None => TicketView::InvalidEncoding,
        Some(b) => if !valid_utf8(b) {
            TicketView::InvalidUtf8
        } else {
            let parts = split_on(decode_utf8(b), ':');
            if parts.len() != 3 {
                TicketView::InvalidFormat
            } else if parts[0] != cluster {
                TicketView::WrongCluster(parts[0])
            } else {
                TicketView::Accepted(parts[1], parts[2])
            }
        },
    }
}

/// The value of a ticket outcome.
pub open spec fn ticket_view(r: Result<(String, String), TicketError>) -> TicketView {
    match r {
        Ok((p, t)) => TicketView::Accepted(p@, t@),
        Err(TicketError::InvalidEncoding) => TicketView::InvalidEncoding,
        Err(TicketError::InvalidUtf8) => TicketView::InvalidUtf8,
        Err(TicketError::InvalidFormat) => TicketView::InvalidFormat,
        Err(TicketError::WrongCluster(c)) => TicketView::WrongCluster(c@),
    }
}

/// The ticket inviting to `cluster`, hosted by `peer`, made at `timestamp`
/// (seconds since the Unix epoch). Its text must fit in memory.
pub fn make_ticket(cluster: &str, peer: &str, timestamp: u64) -> (r: String)
    requires
        (encode_utf8(ticket_data(cluster@, peer@, timestamp as nat)).len() + 2) / 3 * 4 <= usize::MAX,
    ensures
        r@ == base64_text(encode_utf8(ticket_data(cluster@, peer@, timestamp as nat))),
{
    let mut data = String::from_str(cluster);
    data.append(":");
    data.append(peer);
    data.append(":");
    push_decimal(&mut data, timestamp as u128);
    base64_encode(data.as_str().as_bytes())
}

/// Powers of ten.
pub open spec fn pow10(k: nat) -> nat
    decreases k,
{
    if k == 0 {
        1
    } else {
        10 * pow10((k - 1) as nat)
    }
}

/// A number below `10^k` has at most `k` digits.
pub proof fn lemma_decimal_len(n: nat, k: nat)
    requires
        k >= 1,
        n < pow10(k),
    ensures
        decimal(n).len() <= k,
    decreases k,
{
    if n >= 10 {
        assert(k >= 2) by {
            if k == 1 {
                assert(pow10(1) == 10 * pow10(0));
            }
        }
        let m = pow10((k - 1) as nat);
        assert(n / 10 < m) by (nonlinear_arith)
            requires
                n < 10 * m,
        ;
        lemma_decimal_len(n / 10, (k - 1) as nat);
    }
}

/// UTF-8 takes at most four bytes per character.
pub proof fn lemma_utf8_len(s: Seq<char>)
    ensures
        encode_utf8(s).len() <= 4 * s.len(),
    decreases s.len(),
{
    if s.len() > 0 {
        lemma_utf8_len(s.drop_first());
    }
}

/// Tickets for names of up to `2^28` characters in all fit in memory.
pub proof fn lemma_ticket_fits(cluster: Seq<char>, peer: Seq<char>, timestamp: u64)
    requires
        cluster.len() + peer.len() <= 0x1000_0000,
    ensures
        (encode_utf8(ticket_data(cluster, peer, timestamp as nat)).len() + 2) / 3 * 4 <= usize::MAX,
{
    assert(pow10(20) == 100000000000000000000) by {
        reveal_with_fuel(pow10, 21);
    }
    lemma_decimal_len(timestamp as nat, 20);
    let d = ticket_data(cluster, peer, timestamp as nat);
    reveal_strlit(":");
    lemma_utf8_len(d);
    assert(d.len() <= 0x1000_0000 + 22);
    let n = encode_utf8(d).len();
    assert(n <= 4 * (0x1000_0000 + 22));
    assert((n + 2) / 3 * 4 <= 0xffff_ffff) by (nonlinear_arith)
        requires
            n <= 4 * (0x1000_0000 + 22),
    ;
}

/// The segments of `s` between `:` separators.
fn split_colons(s: &str) -> (r: Vec<String>)
    ensures
        r@.map_values(|p: String| p@) == split_on(s@, ':'),
{
    let n = s.unicode_len();
    let mut parts: Vec<String> = Vec::new();
    let mut start: usize = 0;
    let mut i: usize = 0;
    proof {
        assert(s@.take(0) =~= Seq::<char>::empty());
        assert(s@.subrange(0, 0) =~= Seq::<char>::empty());
        assert(parts@.map_values(|p: String| p@).push(s@.subrange(0, 0)) =~= split_on(s@.take(0), ':'));
    }
    while i < n
        invariant
            n == s@.len(),
            start <= i <= n,
            parts@.map_values(|p: String| p@).push(s@.subrange(start as int, i as int)) == split_on(s@.take(i as int), ':'),
        decreases n - i,
    {
        let c = s.get_char(i);
        let ghost before = parts@.map_values(|p: String| p@);
        proof {
            assert(s@.take(i + 1).drop_last() =~= s@.take(i as int));
            assert(s@.take(i + 1).last() == c);
        }
        if c == ':' {
            let part = s.substring_char(start, i);
            parts.push(part.to_string());
            start = i + 1;
            proof {
                assert(parts@.map_values(|p: String| p@) =~= before.push(part@));
                assert(s@.subrange(start as int, (i + 1) as int) =~= Seq::<char>::empty());
            }
        } else {
            proof {
                assert(s@.subrange(start as int, i + 1) =~= s@.subrange(start as int, i as int).push(c));
            }
        }
        i = i + 1;
    }
    let last = s.substring_char(start, n);
    parts.push(last.to_string());
    proof {
        assert(s@.take(n as int) =~= s@);
    }
    parts
}

/// Reads a ticket for `cluster`: the host peer and the timestamp texts, or
/// why the ticket is refused.
pub fn parse_ticket(ticket: &str, cluster: &str) -> (r: Result<(String, String), TicketError>)
    ensures
        ticket_view(r) == read_ticket(ticket@, cluster@),
{
    let bytes = match base64_decode(ticket) {
        Some(b) => b,
        None => {
            proof {
                if exists|b: Seq<u8>| base64_text(b) == ticket@ {
                    let b = choose|b: Seq<u8>| base64_text(b) == ticket@;
                    assert(ticket@ == base64_text(b));
                }
            }
            return Err(TicketError::InvalidEncoding);
        },
    };
    proof {
        let b = choose|b: Seq<u8>| base64_text(b) == ticket@;
        assert(base64_text(bytes@) == ticket@);
        assert(ticket@ == base64_text(b));
        assert(base64_bytes(ticket@) == Some(bytes@));
    }
    let text = match utf8_text(bytes.as_slice()) {
        Some(t) => t,
        None => {
            return Err(TicketError::InvalidUtf8);
        },
    };
    let parts = split_colons(text.as_str());
    let ghost pv = parts@.map_values(|p: String| p@);
    if parts.len() != 3 {
        return Err(TicketError::InvalidFormat);
    }
    proof {
        assert(pv[0] == parts@[0]@);
        assert(pv[1] == parts@[1]@);
        assert(pv[2] == parts@[2]@);
    }
    let c = String::from_str(cluster);
    if parts[0] != c {
        return Err(TicketError::WrongCluster(parts[0].clone()));
    }
    Ok((parts[1].clone(), parts[2].clone()))
}


proof fn lemma_b64_char(v: u8, w: u8)
    requires
        v < 64,
        w < 64,
    ensures
        b64_char(v) != '=',
        b64_char(v) == b64_char(w) ==> v == w,
{
}

proof fn lemma_group_bits(x: u8, y: u8, z: u8, x2: u8, y2: u8, z2: u8)
    requires
        x >> 2u8 == x2 >> 2u8,
        ((x & 3u8) << 4u8) | (y >> 4u8) == ((x2 & 3u8) << 4u8) | (y2 >> 4u8),
        ((y & 15u8) << 2u8) | (z >> 6u8) == ((y2 & 15u8) << 2u8) | (z2 >> 6u8),
        z & 63u8 == z2 & 63u8,
    ensures
        x == x2 && y == y2 && z == z2,
{
    assert(x == x2 && y == y2 && z == z2) by (bit_vector)
        requires
            x >> 2u8 == x2 >> 2u8,
            ((x & 3u8) << 4u8) | (y >> 4u8) == ((x2 & 3u8) << 4u8) | (y2 >> 4u8),
            ((y & 15u8) << 2u8) | (z >> 6u8) == ((y2 & 15u8) << 2u8) | (z2 >> 6u8),
            z & 63u8 == z2 & 63u8,
    ;
}

proof fn lemma_six_bits(x: u8, y: u8, z: u8)
    ensures
        x >> 2u8 < 64,
        ((x & 3u8) << 4u8) | (y >> 4u8) < 64,
        ((y & 15u8) << 2u8) | (z >> 6u8) < 64,
        z & 63u8 < 64,
        (x & 3u8) << 4u8 < 64,
        (y & 15u8) << 2u8 < 64,
{
    assert(x >> 2u8 < 64 && ((x & 3u8) << 4u8) | (y >> 4u8) < 64 && ((y & 15u8) << 2u8) | (z >> 6u8) < 64
        && z & 63u8 < 64 && (x & 3u8) << 4u8 < 64 && (y & 15u8) << 2u8 < 64) by (bit_vector);
}

/// Different bytes have different base64 texts.
pub proof fn lemma_base64_injective(a: Seq<u8>, b: Seq<u8>)
    requires
        base64_text(a) == base64_text(b),
    ensures
        a == b,
    decreases a.len(),
{
    let t = base64_text(a);
    if a.len() > 0 {
        lemma_six_bits(a[0], if a.len() > 1 { a[1] } else { 0 }, if a.len() > 2 { a[2] } else { 0 });
    }
    if b.len() > 0 {
        lemma_six_bits(b[0], if b.len() > 1 { b[1] } else { 0 }, if b.len() > 2 { b[2] } else { 0 });
    }
    if a.len() == 0 || b.len() == 0 {
        if a.len() != b.len() {
            assert(t.len() != base64_text(b).len() || t.len() > 0);
        }
        assert(a.len() == 0 && b.len() == 0);
        assert(a =~= b);
    } else {
        // The third and fourth characters tell the length of the last group.
        lemma_b64_char(if a.len() == 1 { 0 } else if a.len() == 2 { (a[1] & 15u8) << 2u8 } else { ((a[1] & 15u8) << 2u8) | (a[2] >> 6u8) }, 0);
        lemma_b64_char(if b.len() == 1 { 0 } else if b.len() == 2 { (b[1] & 15u8) << 2u8 } else { ((b[1] & 15u8) << 2u8) | (b[2] >> 6u8) }, 0);
        if a.len() >= 3 {
            lemma_b64_char(a[2] & 63u8, 0);
        }
        if b.len() >= 3 {
            lemma_b64_char(b[2] & 63u8, 0);
        }
        assert(t[2] == base64_text(b)[2]);
        assert(t[3] == base64_text(b)[3]);
        assert((a.len() == 1) == (b.len() == 1));
        assert((a.len() == 2) == (b.len() == 2));
        let ta = base64_text(a);
        let tb = base64_text(b);
        lemma_b64_char(a[0] >> 2u8, b[0] >> 2u8);
        if a.len() == 1 {
            lemma_b64_char((a[0] & 3u8) << 4u8, (b[0] & 3u8) << 4u8);
            assert(ta[1] == tb[1]);
            lemma_group_bits(a[0], 0, 0, b[0], 0, 0);
            assert(a =~= b);
        } else if a.len() == 2 {
            lemma_b64_char(((a[0] & 3u8) << 4u8) | (a[1] >> 4u8), ((b[0] & 3u8) << 4u8) | (b[1] >> 4u8));
            lemma_b64_char((a[1] & 15u8) << 2u8, (b[1] & 15u8) << 2u8);
            assert(ta[1] == tb[1]);
            lemma_group_bits(a[0], a[1], 0, b[0], b[1], 0);
            assert(a =~= b);
        } else {
            lemma_b64_char(((a[0] & 3u8) << 4u8) | (a[1] >> 4u8), ((b[0] & 3u8) << 4u8) | (b[1] >> 4u8));
            lemma_b64_char(((a[1] & 15u8) << 2u8) | (a[2] >> 6u8), ((b[1] & 15u8) << 2u8) | (b[2] >> 6u8));
            lemma_b64_char(a[2] & 63u8, b[2] & 63u8);
            assert(ta[0] == tb[0] && ta[1] == tb[1] && ta[2] == tb[2] && ta[3] == tb[3]);
            lemma_group_bits(a[0], a[1], a[2], b[0], b[1], b[2]);
            assert(ta.skip(4) =~= base64_text(a.skip(3)));
            assert(tb.skip(4) =~= base64_text(b.skip(3)));
            lemma_base64_injective(a.skip(3), b.skip(3));
            assert(a =~= b) by {
                assert forall|i: int| 0 <= i < a.len() implies a[i] == b[i] by {
                    if i >= 3 {
                        assert(a[i] == a.skip(3)[i - 3]);
                        assert(b[i] == b.skip(3)[i - 3]);
                    }
                }
            }
        }
    }
}

/// A text without the separator is a single segment.
proof fn lemma_split_single(s: Seq<char>, c: char)
    requires
        !s.contains(c),
    ensures
        split_on(s, c) == seq![s],
    decreases s.len(),
{
    if s.len() > 0 {
        assert(!s.drop_last().contains(c)) by {
            if s.drop_last().contains(c) {
                let i = choose|i: int| 0 <= i < s.drop_last().len() && s.drop_last()[i] == c;
                assert(s[i] == c);
            }
        }
        lemma_split_single(s.drop_last(), c);
        assert(s.last() != c) by {
            assert(s[s.len() - 1] == s.last());
        }
        assert(s.drop_last().push(s.last()) =~= s);
    } else {
        assert(s =~= Seq::<char>::empty());
    }
}

/// Splitting around a separator splits each side.
proof fn lemma_split_join(s: Seq<char>, t: Seq<char>, c: char)
    ensures
        split_on(s + seq![c] + t, c) == split_on(s, c) + split_on(t, c),
    decreases t.len(),
{
    let u = s + seq![c] + t;
    if t.len() == 0 {
        assert(u =~= s.push(c));
        assert(u.drop_last() =~= s);
        assert(split_on(t, c) == seq![Seq::<char>::empty()]);
        assert(split_on(s, c) + split_on(t, c) =~= split_on(s, c).push(Seq::<char>::empty()));
    } else {
        lemma_split_join(s, t.drop_last(), c);
        assert(u.drop_last() =~= s + seq![c] + t.drop_last());
        assert(u.last() == t.last());
        lemma_split_nonempty(t.drop_last(), c);
        let x = split_on(s, c);
        let y = split_on(t.drop_last(), c);
        if t.last() == c {
            assert((x + y).push(Seq::<char>::empty()) =~= x + y.push(Seq::<char>::empty()));
        } else {
            assert((x + y).update((x + y).len() - 1, (x + y).last().push(t.last())) =~= x + y.update(
                y.len() - 1,
                y.last().push(t.last()),
            ));
        }
    }
}

proof fn lemma_split_nonempty(s: Seq<char>, c: char)
    ensures
        split_on(s, c).len() >= 1,
    decreases s.len(),
{
    if s.len() > 0 {
        lemma_split_nonempty(s.drop_last(), c);
    }
}

proof fn lemma_decimal_no_colon(n: nat)
    ensures
        !decimal(n).contains(':'),
    decreases n,
{
    if n >= 10 {
        lemma_decimal_no_colon(n / 10);
        let d = decimal(n);
        assert(d == decimal(n / 10).push(crate::text::digit_char(n % 10)));
        if d.contains(':') {
            let i = choose|i: int| 0 <= i < d.len() && d[i] == ':';
            if i < d.len() - 1 {
                assert(decimal(n / 10)[i] == ':');
            }
        }
    } else {
        if decimal(n).contains(':') {
            let i = choose|i: int| 0 <= i < decimal(n).len() && decimal(n)[i] == ':';
        }
    }
}

/// A ticket made for a cluster reads back, for that cluster, as its host
/// and the decimal text of its timestamp, when neither name holds a `:`.
pub proof fn lemma_ticket_round_trip(cluster: Seq<char>, peer: Seq<char>, timestamp: nat)
    requires
        !cluster.contains(':'),
        !peer.contains(':'),
    ensures
        read_ticket(base64_text(encode_utf8(ticket_data(cluster, peer, timestamp))), cluster)
            == TicketView::Accepted(peer, decimal(timestamp)),
{
    broadcast use {vstd::utf8::encode_utf8_decode_utf8, vstd::utf8::encode_utf8_valid_utf8};
    let d = ticket_data(cluster, peer, timestamp);
    let b = encode_utf8(d);
    let t = base64_text(b);
    assert(base64_bytes(t) == Some(b)) by {
        let b2 = choose|b2: Seq<u8>| base64_text(b2) == t;
        assert(base64_text(b) == t);
        lemma_base64_injective(b2, b);
    }
    assert(decode_utf8(b) == d);
    reveal_strlit(":");
    lemma_decimal_no_colon(timestamp);
    lemma_split_single(cluster, ':');
    lemma_split_single(peer, ':');
    lemma_split_single(decimal(timestamp), ':');
    assert(d =~= cluster + seq![':'] + (peer + seq![':'] + decimal(timestamp)));
    lemma_split_join(cluster, peer + seq![':'] + decimal(timestamp), ':');
    lemma_split_join(peer, decimal(timestamp), ':');
    assert(split_on(d, ':') =~= seq![cluster, peer, decimal(timestamp)]);
}

} // verus!
