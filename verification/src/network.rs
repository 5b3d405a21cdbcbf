//! Reachability verdicts, the probe datagrams, and network fingerprints.
//!
//! A domain is probed the way `blockcheck` does it: a TLS ClientHello carrying
//! the domain as SNI goes to TCP port 443, and what comes back decides. A DPI
//! box that censors by SNI answers with a reset; a reachable server answers
//! with a TLS record. The sockets live outside this library; what the probe
//! observed is handed to [`text_verdict`] and [`voice_verdict`].
use vstd::prelude::*;
use vstd::string::StringSliceAdditionalSpecFns;
use crate::text::{
    chars_of, dec, eq_ignore_ascii_case, eq_ignore_ascii_case_spec, find_from, join_spec,
    lemma_concat_lacks, lemma_dec_lacks, lemma_find_from_exact, lemma_parse_dec,
    lemma_split_join, parse_u32, parse_u32_spec, push_decimal, split_char, split_spec, split_ws,
    str_eq, tokens,
};

verus! {

/// Outcome of probing one domain over one transport.
#[derive(Debug, Clone, Copy, PartialEq, Eq, Structural)]
pub enum Reachability {
    /// The server answered with TLS bytes: the path is open.
    Reachable,
    /// The name did not resolve.
    DnsBlocked,
    /// TCP could not connect.
    TcpBlocked,
    /// The connection was reset right after the ClientHello.
    TlsReset,
    /// No answer in time.
    Timeout,
}

impl Reachability {
    /// Whether the domain is usable as it is.
    pub fn is_open(self) -> (b: bool)
        ensures
            b == (self is Reachable),
    {
        match self {
            Reachability::Reachable => true,
            _ => false,
        }
    }
}

/// Text (TCP) and optional voice (UDP) verdicts for one domain.
#[derive(Debug, Clone, Copy)]
pub struct DomainCheck {
    /// TCP port 443: text, API, gateway, CDN.
    pub text: Reachability,
    /// UDP port 443: QUIC and voice; `None` when no voice probe ran.
    pub voice: Option<Reachability>,
}

/// Open for text, and for voice when voice was probed.
pub open spec fn fully_open(c: DomainCheck) -> bool {
    &&& c.text is Reachable
    &&& match c.voice {
        Some(v) => v is Reachable,
        None => true,
    }
}

impl DomainCheck {
    /// Whether the domain is open for text and, when probed, for voice.
    pub fn is_fully_open(&self) -> (b: bool)
        ensures
            b == fully_open(*self),
    {
        self.text.is_open() && match self.voice {
            Some(v) => v.is_open(),
            None => true,
        }
    }
}

/// The kinds of I/O error that the probes tell apart.
#[derive(Debug, Clone, Copy, PartialEq, Eq, Structural)]
pub enum ProbeErrorKind {
    TimedOut,
    WouldBlock,
    ConnectionReset,
    Other,
}

/// What reading the first bytes of the reply gave.
#[derive(Debug, Clone, Copy, PartialEq, Eq, Structural)]
pub enum ReadOutcome {
    /// The peer closed the connection (a read of zero bytes).
    Closed,
    /// Some bytes arrived; the first of them.
    Data(u8),
    /// The read failed.
    Failed(ProbeErrorKind),
}

/// How far the TCP probe got, and what it saw there.
#[derive(Debug, Clone, Copy, PartialEq, Eq, Structural)]
pub enum TextProbe {
    /// The name resolved to no address.
    Unresolved,
    /// Connecting failed.
    ConnectFailed(ProbeErrorKind),
    /// Sending the ClientHello failed.
    WriteFailed,
    /// The ClientHello went out; the reply.
    Replied(ReadOutcome),
}

/// How far the UDP probe got, and what it saw there.
#[derive(Debug, Clone, Copy, PartialEq, Eq, Structural)]
pub enum VoiceProbe {
    /// The name resolved to no address.
    Unresolved,
    /// Binding, connecting or sending failed.
    SendFailed,
    /// A datagram of this many bytes came back.
    Received(usize),
    /// Nothing came back (a timeout or a receive error).
    NoReply,
}

/// The verdict for a TCP probe: a TLS handshake (`0x16`) or alert (`0x15`)
/// record proves the path open; a close or reset right after the ClientHello
/// is a TLS reset; timeouts stay timeouts.
pub open spec fn text_verdict_spec(p: TextProbe) -> Reachability {
    match p {
        TextProbe::Unresolved => Reachability::DnsBlocked,
        TextProbe::ConnectFailed(k) => if k == ProbeErrorKind::TimedOut || k
            == ProbeErrorKind::WouldBlock {
            Reachability::Timeout
        } else {
            Reachability::TcpBlocked
        },
        TextProbe::WriteFailed => Reachability::TlsReset,
        TextProbe::Replied(r) => match r {
            ReadOutcome::Closed => Reachability::TlsReset,
            ReadOutcome::Data(b) => if b == 0x16 || b == 0x15 {
                Reachability::Reachable
            } else {
                Reachability::TlsReset
            },
            ReadOutcome::Failed(k) => if k == ProbeErrorKind::TimedOut || k
                == ProbeErrorKind::WouldBlock {
                Reachability::Timeout
            } else {
                Reachability::TlsReset
            },
        },
    }
}

/// The verdict for a UDP probe: any reply proves the path open; silence is a
/// timeout rather than a definite block.
pub open spec fn voice_verdict_spec(p: VoiceProbe) -> Reachability {
    match p {
        VoiceProbe::Unresolved => Reachability::DnsBlocked,
        VoiceProbe::SendFailed => Reachability::TcpBlocked,
        VoiceProbe::Received(n) => if n > 0 {
            Reachability::Reachable
        } else {
            Reachability::Timeout
        },
        VoiceProbe::NoReply => Reachability::Timeout,
    }
}

/// Classifies what the TCP probe observed.
pub fn text_verdict(p: TextProbe) -> (r: Reachability)
    ensures
        r == text_verdict_spec(p),
{
    match p {
        TextProbe::Unresolved => Reachability::DnsBlocked,
        TextProbe::ConnectFailed(k) => match k {
            ProbeErrorKind::TimedOut | ProbeErrorKind::WouldBlock => Reachability::Timeout,
            _ => Reachability::TcpBlocked,
        },
        TextProbe::WriteFailed => Reachability::TlsReset,
        TextProbe::Replied(r) => match r {
            ReadOutcome::Closed => Reachability::TlsReset,
            ReadOutcome::Data(b) => if b == 0x16 || b == 0x15 {
                Reachability::Reachable
            } else {
                Reachability::TlsReset
            },
            ReadOutcome::Failed(k) => match k {
                ProbeErrorKind::TimedOut | ProbeErrorKind::WouldBlock => Reachability::Timeout,
                _ => Reachability::TlsReset,
            },
        },
    }
}

/// Classifies what the UDP probe observed.
pub fn voice_verdict(p: VoiceProbe) -> (r: Reachability)
    ensures
        r == voice_verdict_spec(p),
{
    match p {
        VoiceProbe::Unresolved => Reachability::DnsBlocked,
        VoiceProbe::SendFailed => Reachability::TcpBlocked,
        VoiceProbe::Received(n) => if n > 0 {
            Reachability::Reachable
        } else {
            Reachability::Timeout
        },
        VoiceProbe::NoReply => Reachability::Timeout,
    }
}

/// Big-endian two-byte encoding of `x` (`x < 65536`).
pub open spec fn be16(x: int) -> Seq<u8> {
    seq![(x / 256) as u8, (x % 256) as u8]
}

/// The `server_name` extension body for host name bytes `h`.
pub open spec fn sni_ext_spec(h: Seq<u8>) -> Seq<u8> {
    let host_len = (h.len() % 65536) as int;
    be16(host_len + 3) + seq![0u8] + be16(host_len) + h
}

/// The extension list: the `server_name` extension alone.
pub open spec fn extensions_spec(h: Seq<u8>) -> Seq<u8> {
    let se = sni_ext_spec(h);
    be16(0) + be16((se.len() % 65536) as int) + se
}

/// The fixed part of the ClientHello body: version, random, session id,
/// one cipher suite and null compression.
pub open spec fn hello_fixed() -> Seq<u8> {
    seq![3u8, 3u8] + Seq::new(32, |i: int| 0x11u8) + seq![0u8] + be16(2) + seq![
        0x13u8,
        0x01u8,
    ] + seq![1u8, 0u8]
}

/// The ClientHello body.
pub open spec fn body_spec(h: Seq<u8>) -> Seq<u8> {
    let e = extensions_spec(h);
    hello_fixed() + be16((e.len() % 65536) as int) + e
}

/// The handshake message: type `client_hello` and a 24-bit length, each of
/// its three bytes truncated as `as u8` does.
pub open spec fn handshake_spec(h: Seq<u8>) -> Seq<u8> {
    let len = body_spec(h).len();
    seq![1u8, ((len / 65536) % 256) as u8, ((len / 256) % 256) as u8, (len % 256) as u8]
        + body_spec(h)
}

/// The TLS 1.2 ClientHello record that carries `h` as its `server_name`,
/// with every length field truncated to its width.
pub open spec fn client_hello_spec(h: Seq<u8>) -> Seq<u8> {
    let hs = handshake_spec(h);
    seq![0x16u8, 3u8, 1u8] + be16((hs.len() % 65536) as int) + hs
}

/// The lengths of the ClientHello's nested parts for a host name of `n` bytes.
pub proof fn lemma_hello_lengths(h: Seq<u8>)
    ensures
        sni_ext_spec(h).len() == h.len() + 5,
        extensions_spec(h).len() == h.len() + 9,
        hello_fixed().len() == 41,
        body_spec(h).len() == h.len() + 52,
        handshake_spec(h).len() == h.len() + 56,
        client_hello_spec(h).len() == h.len() + 61,
{
}

/// Offset of the host name inside the ClientHello.
pub open spec fn sni_offset() -> int {
    61
}

fn push_be16(v: &mut Vec<u8>, x: u16)
    ensures
        final(v)@ == old(v)@ + be16(x as int),
{
    v.push((x / 256) as u8);
    v.push((x % 256) as u8);
    assert(v@ =~= old(v)@ + be16(x as int));
}

fn push_all(v: &mut Vec<u8>, src: &[u8])
    ensures
        final(v)@ == old(v)@ + src@,
{
    let mut i: usize = 0;
    while i < src.len()
        invariant
            0 <= i <= src@.len(),
            v@ == old(v)@ + src@.take(i as int),
        decreases src@.len() - i,
    {
        v.push(src[i]);
        assert(src@.take(i + 1) =~= src@.take(i as int).push(src@[i as int]));
        i = i + 1;
    }
    assert(src@.take(src@.len() as int) =~= src@);
}

fn build_sni_ext(h: &[u8]) -> (r: Vec<u8>)
    requires
        h@.len() % 65536 <= 65532,
    ensures
        r@ == sni_ext_spec(h@),
{
    let host_len: u16 = (h.len() % 65536) as u16;
    let mut v: Vec<u8> = Vec::new();
    push_be16(&mut v, host_len + 3);
    v.push(0x00);
    push_be16(&mut v, host_len);
    push_all(&mut v, h);
    assert(v@ =~= sni_ext_spec(h@));
    v
}

fn build_extensions(h: &[u8]) -> (r: Vec<u8>)
    requires
        h@.len() % 65536 <= 65532,
    ensures
        r@ == extensions_spec(h@),
{
    let sni_ext = build_sni_ext(h);
    let mut v: Vec<u8> = Vec::new();
    push_be16(&mut v, 0x0000);
    push_be16(&mut v, (sni_ext.len() % 65536) as u16);
    push_all(&mut v, sni_ext.as_slice());
    assert(v@ =~= extensions_spec(h@));
    v
}

fn build_body(h: &[u8]) -> (r: Vec<u8>)
    requires
        h@.len() % 65536 <= 65532,
    ensures
        r@ == body_spec(h@),
{
    let extensions = build_extensions(h);
    let mut body: Vec<u8> = Vec::new();
    body.push(0x03);
    body.push(0x03);
    let mut k: usize = 0;
    while k < 32
        invariant
            0 <= k <= 32,
            body@ == seq![3u8, 3u8] + Seq::new(k as nat, |i: int| 0x11u8),
        decreases 32 - k,
    {
        body.push(0x11);
        assert(Seq::new((k + 1) as nat, |i: int| 0x11u8) =~= Seq::new(k as nat, |i: int| 0x11u8).push(
            0x11u8,
        ));
        k = k + 1;
    }
    body.push(0x00);
    push_be16(&mut body, 0x0002);
    body.push(0x13);
    body.push(0x01);
    body.push(0x01);
    body.push(0x00);
    assert(body@ =~= hello_fixed());
    push_be16(&mut body, (extensions.len() % 65536) as u16);
    push_all(&mut body, extensions.as_slice());
    assert(body@ =~= body_spec(h@));
    body
}

fn build_handshake(h: &[u8]) -> (r: Vec<u8>)
    requires
        h@.len() % 65536 <= 65532,
    ensures
        r@ == handshake_spec(h@),
{
    let body = build_body(h);
    proof {
        lemma_hello_lengths(h@);
    }
    let mut v: Vec<u8> = Vec::new();
    v.push(0x01);
    let len = body.len();
    v.push(((len / 65536) % 256) as u8);
    v.push(((len / 256) % 256) as u8);
    v.push((len % 256) as u8);
    push_all(&mut v, body.as_slice());
    assert(v@ =~= handshake_spec(h@));
    v
}

/// Builds a minimal TLS 1.2 ClientHello carrying `sni` as the server name:
/// enough for a server to answer and for an SNI-filtering DPI box to trip.
/// Host names whose length, taken modulo 65536, exceeds 65532 make the
/// length arithmetic overflow, so they are left out.
pub fn build_client_hello(sni: &str) -> (r: Vec<u8>)
    requires
        sni.spec_bytes().len() % 65536 <= 65532,
    ensures
        r@ == client_hello_spec(sni.spec_bytes()),
        r@[0] == 0x16,
        r@[5] == 0x01,
        r@.subrange(sni_offset(), sni_offset() + sni.spec_bytes().len()) == sni.spec_bytes(),
{
    let h = sni.as_bytes();
    let handshake = build_handshake(h);
    proof {
        lemma_hello_lengths(h@);
    }
    let mut record: Vec<u8> = Vec::new();
    record.push(0x16);
    record.push(0x03);
    record.push(0x01);
    push_be16(&mut record, (handshake.len() % 65536) as u16);
    push_all(&mut record, handshake.as_slice());
    let ghost hb = h@;
    assert(record@ =~= client_hello_spec(hb));
    proof {
        lemma_client_hello_layout(hb);
    }
    record
}

/// Where the record type, the handshake type and the host name sit in the
/// ClientHello.
pub proof fn lemma_client_hello_layout(h: Seq<u8>)
    ensures
        client_hello_spec(h)[0] == 0x16,
        client_hello_spec(h)[5] == 0x01,
        client_hello_spec(h).len() == h.len() + 61,
        client_hello_spec(h).subrange(sni_offset(), sni_offset() + h.len()) == h,
{
    lemma_hello_lengths(h);
    let r = client_hello_spec(h);
    assert(r.subrange(sni_offset(), sni_offset() + h.len()) =~= h) by {
        assert forall|i: int| 0 <= i < h.len() implies r[sni_offset() + i] == h[i] by {
            let hs = handshake_spec(h);
            let b = body_spec(h);
            let e = extensions_spec(h);
            let se = sni_ext_spec(h);
            assert(r[sni_offset() + i] == hs[56 + i]);
            assert(hs[56 + i] == b[52 + i]);
            assert(b[52 + i] == e[9 + i]);
            assert(e[9 + i] == se[5 + i]);
        }
    }
}

/// The 64-byte QUIC long-header datagram used to elicit a reply.
pub open spec fn quic_probe_spec() -> Seq<u8> {
    Seq::new(
        64,
        |i: int|
            if i == 0 {
                0xC0u8
            } else if i == 4 {
                0x01u8
            } else if i == 5 {
                0x08u8
            } else if 6 <= i < 14 {
                0xABu8
            } else {
                0x00u8
            },
    )
}

/// A tiny QUIC long-header Initial, padded to 64 bytes.
pub fn build_quic_probe() -> (r: Vec<u8>)
    ensures
        r@ == quic_probe_spec(),
{
    let mut p: Vec<u8> = Vec::new();
    p.push(0xC0);
    p.push(0x00);
    p.push(0x00);
    p.push(0x00);
    p.push(0x01);
    p.push(0x08);
    let mut k: usize = 0;
    while k < 8
        invariant
            0 <= k <= 8,
            p@.len() == 6 + k,
            forall|i: int| 0 <= i < p@.len() ==> p@[i] == quic_probe_spec()[i],
        decreases 8 - k,
    {
        p.push(0xAB);
        k = k + 1;
    }
    while p.len() < 64
        invariant
            14 <= p@.len() <= 64,
            forall|i: int| 0 <= i < p@.len() ==> p@[i] == quic_probe_spec()[i],
        decreases 64 - p@.len(),
    {
        p.push(0x00);
    }
    assert(p@ =~= quic_probe_spec());
    p
}

/// The numbers among `parts` that parse as `u32`, in order; the others are
/// dropped (`filter_map(|o| o.parse().ok())`).
pub open spec fn parsed_octets(parts: Seq<Seq<char>>) -> Seq<u32>
    decreases parts.len(),
{
    if parts.len() == 0 {
        Seq::empty()
    } else {
        let rest = parsed_octets(parts.drop_last());
        match parse_u32_spec(parts.last()) {
            Some(v) => rest.push(v),
            None => rest,
        }
    }
}

/// The address part of a CIDR (before the first `/`), if it has a `/`.
pub open spec fn cidr_slash(c: Seq<char>) -> int {
    find_from(c, '/', 0)
}

/// The prefix length of a CIDR: the part after the first `/` parsed as a
/// `u32`, or 24 when it does not parse.
pub open spec fn cidr_prefix(c: Seq<char>) -> u32 {
    match parse_u32_spec(c.skip(cidr_slash(c) + 1)) {
        Some(p) => p,
        None => 24,
    }
}

/// Whether `to_subnet` can work on `c` without overflowing: it has no `/`,
/// its address part does not give four numbers (it then comes back as it
/// is), or its prefix length is at most 32.
pub open spec fn subnet_prefix_ok(c: Seq<char>) -> bool {
    ||| cidr_slash(c) >= c.len()
    ||| parsed_octets(split_spec(c.take(cidr_slash(c)), '.')).len() != 4
    ||| cidr_prefix(c) <= 32
}

/// The 32-bit address of four octets, each shifted into place and or-ed
/// together (bits of an octet above 255 spill into its neighbour).
pub open spec fn ipv4_of(o: Seq<u32>) -> u32 {
    (((o[0] << 24u32) | (o[1] << 16u32)) | (o[2] << 8u32)) | o[3]
}

/// The network mask of a prefix length `p <= 32`.
pub open spec fn prefix_mask(p: u32) -> u32 {
    if p == 0 {
        0
    } else {
        u32::MAX << ((32 - p) as u32)
    }
}

/// `a.b.c.d/p` for the 32-bit address `x`.
pub open spec fn dotted(x: u32, p: u32) -> Seq<char> {
    dec(((x >> 24u32) & 0xffu32) as nat) + "."@ + dec(((x >> 16u32) & 0xffu32) as nat) + "."@
        + dec(((x >> 8u32) & 0xffu32) as nat) + "."@ + dec((x & 0xffu32) as nat) + "/"@ + dec(
        p as nat,
    )
}

/// The network address of a CIDR such as `192.168.1.34/24`: the address with
/// its host bits cleared, in the same form (`192.168.1.0/24`). A string
/// without `/`, or whose address part does not give exactly four numbers,
/// comes back unchanged.
pub open spec fn to_subnet_spec(c: Seq<char>) -> Seq<char> {
    let k = cidr_slash(c);
    if k >= c.len() {
        c
    } else {
        let octets = parsed_octets(split_spec(c.take(k), '.'));
        if octets.len() != 4 {
            c
        } else {
            let p = cidr_prefix(c);
            dotted(ipv4_of(octets) & prefix_mask(p), p)
        }
    }
}

/// Whether `to_subnet` can work on `cidr` (see [`subnet_prefix_ok`]).
pub fn subnet_prefix_in_range(cidr: &str) -> (r: bool)
    ensures
        r == subnet_prefix_ok(cidr@),
{
    let v = chars_of(cidr);
    let n = v.len();
    let k = find_slash(&v);
    if k >= n {
        return true;
    }
    let p = match parse_u32(cidr.substring_char(k + 1, n)) {
        Some(p) => p,
        None => 24,
    };
    assert(cidr@.subrange(k + 1, n as int) =~= cidr@.skip(k + 1));
    let ip = cidr.substring_char(0, k);
    assert(ip@ =~= cidr@.take(k as int));
    let octets = parse_octets(&split_char(ip, '.'));
    octets.len() != 4 || p <= 32
}

fn find_slash(v: &Vec<char>) -> (k: usize)
    ensures
        k == find_from(v@, '/', 0),
        k <= v@.len(),
        forall|i: int| 0 <= i < k ==> v@[i] != '/',
        k < v@.len() ==> v@[k as int] == '/',
{
    proof {
        crate::text::lemma_find_from_bounds(v@, '/', 0);
    }
    let n = v.len();
    let mut k: usize = 0;
    while k < n && v[k] != '/'
        invariant
            n == v@.len(),
            0 <= k <= n,
            find_from(v@, '/', 0) == find_from(v@, '/', k as int),
        decreases n - k,
    {
        k = k + 1;
    }
    k
}

fn parse_octets(parts: &Vec<String>) -> (r: Vec<u32>)
    ensures
        r@ == parsed_octets(parts.deep_view()),
{
    let mut out: Vec<u32> = Vec::new();
    let n = parts.len();
    let ghost dv = parts.deep_view();
    let mut i: usize = 0;
    while i < n
        invariant
            n == parts@.len(),
            dv == parts.deep_view(),
            0 <= i <= n,
            out@ == parsed_octets(dv.take(i as int)),
        decreases n - i,
    {
        assert(dv.take(i + 1).drop_last() =~= dv.take(i as int));
        assert(dv.take(i + 1).last() == parts[i as int]@);
        match parse_u32(parts[i].as_str()) {
            Some(x) => out.push(x),
            None => {},
        }
        i = i + 1;
    }
    assert(dv.take(n as int) =~= dv);
    out
}

fn push_octet(out: &mut String, x: u32)
    ensures
        final(out)@ == old(out)@ + dec((x & 0xffu32) as nat),
{
    push_decimal(out, (x & 0xff) as u64);
}

/// The network address of a CIDR such as `192.168.1.34/24`, written the same
/// way (`192.168.1.0/24`); a CIDR that is not of that form comes back
/// unchanged. A prefix length above 32 makes the mask arithmetic overflow,
/// so it is left out.
pub fn to_subnet(cidr: &str) -> (r: String)
    requires
        subnet_prefix_ok(cidr@),
    ensures
        r@ == to_subnet_spec(cidr@),
{
    let v = chars_of(cidr);
    let n = v.len();
    let k = find_slash(&v);
    if k >= n {
        return cidr.to_owned();
    }
    let ip = cidr.substring_char(0, k);
    let prefix = cidr.substring_char(k + 1, n);
    assert(prefix@ =~= cidr@.skip(k + 1));
    assert(ip@ =~= cidr@.take(k as int));
    let prefix_len: u32 = match parse_u32(prefix) {
        Some(p) => p,
        None => 24,
    };
    let parts = split_char(ip, '.');
    let octets = parse_octets(&parts);
    if octets.len() != 4 {
        return cidr.to_owned();
    }
    let addr: u32 = (((octets[0] << 24u32) | (octets[1] << 16u32)) | (octets[2] << 8u32))
        | octets[3];
    let mask: u32 = if prefix_len == 0 {
        0
    } else {
        u32::MAX << (32 - prefix_len)
    };
    let net = addr & mask;
    let mut out = String::new();
    push_octet(&mut out, net >> 24u32);
    out.append(".");
    push_octet(&mut out, net >> 16u32);
    out.append(".");
    push_octet(&mut out, net >> 8u32);
    out.append(".");
    push_octet(&mut out, net);
    out.append("/");
    push_decimal(&mut out, prefix_len as u64);
    assert(out@ =~= to_subnet_spec(cidr@));
    out
}

/// Identifies the network the device is attached to, so that a profile can
/// be tied to it. Every field is best effort.
#[derive(Debug, Clone, PartialEq, Eq)]
pub struct NetworkFingerprint {
    /// MAC of the default gateway (the most stable identifier).
    pub gateway_mac: Option<String>,
    /// `ethernet` / `wifi` / `other`.
    pub link_type: Option<String>,
    /// Local subnet in CIDR form, e.g. `192.168.1.0/24`.
    pub subnet: Option<String>,
    /// Default route interface name.
    pub iface: Option<String>,
}

/// The view of an optional string.
pub open spec fn opt_view(o: Option<String>) -> Option<Seq<char>> {
    match o {
        Some(s) => Some(s@),
        None => None,
    }
}

/// Two fingerprints denote the same network when both gateway MACs are known
/// and equal up to ASCII case, or, when either MAC is unknown, when subnet and
/// interface are equal.
pub open spec fn fingerprints_match(a: NetworkFingerprint, b: NetworkFingerprint) -> bool {
    match (a.gateway_mac, b.gateway_mac) {
        (Some(x), Some(y)) => eq_ignore_ascii_case_spec(x@, y@),
        _ => opt_view(a.subnet) == opt_view(b.subnet) && opt_view(a.iface) == opt_view(b.iface),
    }
}

impl Default for NetworkFingerprint {
    fn default() -> (r: Self)
        ensures
            r.gateway_mac is None,
            r.link_type is None,
            r.subnet is None,
            r.iface is None,
    {
        NetworkFingerprint { gateway_mac: None, link_type: None, subnet: None, iface: None }
    }
}

/// Whether two optional strings are equal.
pub fn opt_str_eq(a: &Option<String>, b: &Option<String>) -> (r: bool)
    ensures
        r == (opt_view(*a) == opt_view(*b)),
{
    match (a, b) {
        (Some(x), Some(y)) => str_eq(x.as_str(), y.as_str()),
        (None, None) => true,
        _ => false,
    }
}

/// An optional string, copied.
pub fn opt_str_copy(a: &Option<String>) -> (r: Option<String>)
    ensures
        r == *a,
{
    match a {
        Some(x) => Some(x.clone()),
        None => None,
    }
}

impl NetworkFingerprint {
    /// Whether `self` and `other` denote the same network.
    pub fn matches(&self, other: &NetworkFingerprint) -> (r: bool)
        ensures
            r == fingerprints_match(*self, *other),
    {
        match (&self.gateway_mac, &other.gateway_mac) {
            (Some(a), Some(b)) => eq_ignore_ascii_case(a.as_str(), b.as_str()),
            _ => opt_str_eq(&self.subnet, &other.subnet) && opt_str_eq(&self.iface, &other.iface),
        }
    }

    /// A field-by-field copy.
    pub fn duplicate(&self) -> (r: Self)
        ensures
            r == *self,
    {
        NetworkFingerprint {
            gateway_mac: opt_str_copy(&self.gateway_mac),
            link_type: opt_str_copy(&self.link_type),
            subnet: opt_str_copy(&self.subnet),
            iface: opt_str_copy(&self.iface),
        }
    }
}

/// Every fingerprint matches itself.
pub proof fn fingerprint_match_reflexive(a: NetworkFingerprint)
    ensures
        fingerprints_match(a, a),
{
}

/// Matching does not depend on the order of the two fingerprints.
pub proof fn fingerprint_match_symmetric(a: NetworkFingerprint, b: NetworkFingerprint)
    ensures
        fingerprints_match(a, b) == fingerprints_match(b, a),
{
}

/// The token right after the last occurrence of `key` among the first `upto`
/// tokens of `t` (scanning pairs of neighbours, as `windows(2)` does).
pub open spec fn token_after_last(t: Seq<Seq<char>>, key: Seq<char>, upto: int) -> Option<
    Seq<char>,
>
    decreases upto,
{
    if upto <= 0 {
        None
    } else if upto < t.len() && t[upto - 1] == key {
        Some(t[upto])
    } else {
        token_after_last(t, key, upto - 1)
    }
}

/// Gateway address (after `via`) and interface (after `dev`) in the output of
/// `ip route show default`; the last pair of each wins.
pub open spec fn route_fields(out: Seq<char>) -> (Option<Seq<char>>, Option<Seq<char>>) {
    let t = tokens(out);
    (token_after_last(t, "via"@, t.len() as int), token_after_last(t, "dev"@, t.len() as int))
}

/// The view of a pair of optional strings.
pub open spec fn opt_pair_view(p: (Option<String>, Option<String>)) -> (
    Option<Seq<char>>,
    Option<Seq<char>>,
) {
    (opt_view(p.0), opt_view(p.1))
}

/// Gateway address and interface named by the output of
/// `ip route show default` (`default via <gw> dev <iface> ...`).
pub fn route_gateway_and_iface(out: &str) -> (r: (Option<String>, Option<String>))
    ensures
        opt_pair_view(r) == route_fields(out@),
{
    let toks = split_ws(out);
    let ghost t = toks.deep_view();
    let n = toks.len();
    let mut gw: Option<String> = None;
    let mut iface: Option<String> = None;
    let mut k: usize = 0;
    while k < n
        invariant
            n == toks@.len(),
            t == toks.deep_view(),
            t == tokens(out@),
            0 <= k <= n,
            opt_view(gw) == token_after_last(t, "via"@, k as int),
            opt_view(iface) == token_after_last(t, "dev"@, k as int),
        decreases n - k,
    {
        if k + 1 < n {
            if str_eq(toks[k].as_str(), "via") {
                gw = Some(toks[k + 1].clone());
            }
            if str_eq(toks[k].as_str(), "dev") {
                iface = Some(toks[k + 1].clone());
            }
        }
        k = k + 1;
    }
    (gw, iface)
}

/// Position of the first token equal to `key` at or after `i` (or the end).
pub open spec fn first_token(t: Seq<Seq<char>>, key: Seq<char>, i: int) -> int
    decreases t.len() - i,
{
    if 0 <= i < t.len() && t[i] != key {
        first_token(t, key, i + 1)
    } else {
        i
    }
}

/// The MAC address in the output of `ip neigh show <gw>`: the token after the
/// first `lladdr`, if there is one.
pub open spec fn neigh_mac(out: Seq<char>) -> Option<Seq<char>> {
    let t = tokens(out);
    let p = first_token(t, "lladdr"@, 0);
    if p + 1 < t.len() {
        Some(t[p + 1])
    } else {
        None
    }
}

/// The MAC address in the output of `ip neigh show <gw>`
/// (`<ip> dev <if> lladdr <mac> ...`).
pub fn neigh_lladdr(out: &str) -> (r: Option<String>)
    ensures
        opt_view(r) == neigh_mac(out@),
{
    let toks = split_ws(out);
    let n = toks.len();
    let mut p: usize = 0;
    while p < n && !str_eq(toks[p].as_str(), "lladdr")
        invariant
            n == toks@.len(),
            toks.deep_view() == tokens(out@),
            0 <= p <= n,
            first_token(toks.deep_view(), "lladdr"@, 0) == first_token(
                toks.deep_view(),
                "lladdr"@,
                p as int,
            ),
        decreases n - p,
    {
        p = p + 1;
    }
    if p < n && p + 1 < n {
        Some(toks[p + 1].clone())
    } else {
        None
    }
}

/// Whether a token of `ip -o -f inet addr show` looks like an address in
/// CIDR form: it holds a `/` and has four dot-separated parts.
pub open spec fn looks_like_cidr(tok: Seq<char>) -> bool {
    tok.contains('/') && split_spec(tok, '.').len() == 4
}

/// Position of the first token at or after `i` that looks like a CIDR.
pub open spec fn first_cidr(t: Seq<Seq<char>>, i: int) -> int
    decreases t.len() - i,
{
    if 0 <= i < t.len() && !looks_like_cidr(t[i]) {
        first_cidr(t, i + 1)
    } else {
        i
    }
}

/// The address in CIDR form in the output of `ip -o -f inet addr show
/// <iface>` (`... inet 192.168.1.34/24 brd ...`): the first token that holds
/// a `/` and has four dot-separated parts.
pub open spec fn inet_cidr_spec(out: Seq<char>) -> Option<Seq<char>> {
    let t = tokens(out);
    let p = first_cidr(t, 0);
    if p < t.len() {
        Some(t[p])
    } else {
        None
    }
}

/// The address in CIDR form in the output of `ip -o -f inet addr show`.
pub fn inet_cidr(out: &str) -> (r: Option<String>)
    ensures
        opt_view(r) == inet_cidr_spec(out@),
{
    let toks = split_ws(out);
    let n = toks.len();
    let mut p: usize = 0;
    while p < n && !(crate::text::contains_char(toks[p].as_str(), '/') && split_char(
        toks[p].as_str(),
        '.',
    ).len() == 4)
        invariant
            n == toks@.len(),
            toks.deep_view() == tokens(out@),
            0 <= p <= n,
            first_cidr(toks.deep_view(), 0) == first_cidr(toks.deep_view(), p as int),
        decreases n - p,
    {
        p = p + 1;
    }
    if p < n {
        Some(toks[p].clone())
    } else {
        None
    }
}

/// The link type of an interface: `wifi` when it has a wireless directory,
/// `ethernet` when it exists otherwise, `other` when it does not exist.
pub open spec fn link_type_spec(wireless: bool, present: bool) -> Seq<char> {
    if wireless {
        "wifi"@
    } else if present {
        "ethernet"@
    } else {
        "other"@
    }
}

/// Link type of an interface, from whether `/sys/class/net/<iface>/wireless`
/// and `/sys/class/net/<iface>` exist.
pub fn link_type(wireless: bool, present: bool) -> (r: String)
    ensures
        r@ == link_type_spec(wireless, present),
{
    if wireless {
        "wifi".to_owned()
    } else if present {
        "ethernet".to_owned()
    } else {
        "other".to_owned()
    }
}

/// Both verdicts for a domain: the TCP probe's, and the UDP probe's when one
/// was run.
pub fn check_domain(text: TextProbe, voice: Option<VoiceProbe>) -> (r: DomainCheck)
    ensures
        r.text == text_verdict_spec(text),
        r.voice == (match voice {
            Some(v) => Some(voice_verdict_spec(v)),
            None => None,
        }),
{
    DomainCheck {
        text: text_verdict(text),
        voice: match voice {
            Some(v) => Some(voice_verdict(v)),
            None => None,
        },
    }
}

/// What the system tools said about the current network: the output of
/// `ip route show default`, of `ip neigh show <gateway>` (asked only when a
/// gateway was found), whether `/sys/class/net/<iface>/wireless` and
/// `/sys/class/net/<iface>` exist, and the output of
/// `ip -o -f inet addr show <iface>` (asked only when an interface was found).
/// A command that failed gives `None`.
pub open spec fn fingerprint_of(
    route: Option<Seq<char>>,
    neigh: Option<Seq<char>>,
    wireless: bool,
    present: bool,
    addr: Option<Seq<char>>,
) -> NetworkFingerprintView {
    let (gw, iface) = match route {
        Some(o) => route_fields(o),
        None => (None, None),
    };
    NetworkFingerprintView {
        gateway_mac: match (gw, neigh) {
            (Some(_), Some(n)) => neigh_mac(n),
            _ => None,
        },
        link_type: match iface {
            Some(_) => Some(link_type_spec(wireless, present)),
            None => None,
        },
        subnet: match (iface, addr) {
            (Some(_), Some(a)) => match inet_cidr_spec(a) {
                Some(c) => Some(to_subnet_spec(c)),
                None => None,
            },
            _ => None,
        },
        iface,
    }
}

/// Whether the address found in `addr` (if any) can be turned into a subnet
/// without overflowing.
pub open spec fn addr_subnet_ok(addr: Option<Seq<char>>) -> bool {
    match addr {
        Some(a) => match inet_cidr_spec(a) {
            Some(c) => subnet_prefix_ok(c),
            None => true,
        },
        None => true,
    }
}

/// A fingerprint by the views of its fields.
pub struct NetworkFingerprintView {
    pub gateway_mac: Option<Seq<char>>,
    pub link_type: Option<Seq<char>>,
    pub subnet: Option<Seq<char>>,
    pub iface: Option<Seq<char>>,
}

/// The views of the fields of `f`.
pub open spec fn fingerprint_view(f: NetworkFingerprint) -> NetworkFingerprintView {
    NetworkFingerprintView {
        gateway_mac: opt_view(f.gateway_mac),
        link_type: opt_view(f.link_type),
        subnet: opt_view(f.subnet),
        iface: opt_view(f.iface),
    }
}

/// The fingerprint of the current network, from what the system tools said
/// (see [`fingerprint_of`]): the gateway's MAC, the link type and subnet of
/// the default route's interface, and that interface. Every field is left
/// unset where its source failed.
pub fn current_fingerprint(
    route: Option<&str>,
    neigh: Option<&str>,
    wireless: bool,
    present: bool,
    addr: Option<&str>,
) -> (r: NetworkFingerprint)
    requires
        addr_subnet_ok(opt_str_view(addr)),
    ensures
        fingerprint_view(r) == fingerprint_of(
            opt_str_view(route),
            opt_str_view(neigh),
            wireless,
            present,
            opt_str_view(addr),
        ),
{
    let (gw, iface) = match route {
        Some(o) => route_gateway_and_iface(o),
        None => (None, None),
    };
    let gateway_mac = match (&gw, neigh) {
        (Some(_), Some(n)) => neigh_lladdr(n),
        _ => None,
    };
    let mut link: Option<String> = None;
    let mut subnet: Option<String> = None;
    if iface.is_some() {
        link = Some(link_type(wireless, present));
        match addr {
            Some(a) => match inet_cidr(a) {
                Some(c) => {
                    subnet = Some(to_subnet(c.as_str()));
                },
                None => {},
            },
            None => {},
        }
    }
    NetworkFingerprint { gateway_mac, link_type: link, subnet, iface }
}

/// The view of an optional string slice.
pub open spec fn opt_str_view(o: Option<&str>) -> Option<Seq<char>> {
    match o {
        Some(s) => Some(s@),
        None => None,
    }
}

/// `a.b.c.d/p` written in decimal.
pub open spec fn dotted_quad(a: u32, b: u32, c: u32, d: u32, p: u32) -> Seq<char> {
    dec(a as nat) + "."@ + dec(b as nat) + "."@ + dec(c as nat) + "."@ + dec(d as nat) + "/"@ + dec(
        p as nat,
    )
}

/// The subnet of `a.b.c.d/p` with a prefix of at most 32: the address
/// `a << 24 | b << 16 | c << 8 | d` with its host bits cleared, written the
/// same way (with `p` as the prefix).
pub proof fn to_subnet_of_dotted_quad(a: u32, b: u32, c: u32, d: u32, p: u32)
    requires
        p <= 32,
    ensures
        subnet_prefix_ok(dotted_quad(a, b, c, d, p)),
        to_subnet_spec(dotted_quad(a, b, c, d, p)) == dotted(
            ipv4_of(seq![a, b, c, d]) & prefix_mask(p),
            p,
        ),
{
    reveal_strlit(".");
    reveal_strlit("/");
    let (da, db, dc, dd) = (dec(a as nat), dec(b as nat), dec(c as nat), dec(d as nat));
    let dot = "."@;
    let ip = da + dot + db + dot + dc + dot + dd;
    let dp = dec(p as nat);
    let out = dotted_quad(a, b, c, d, p);
    assert(out =~= ip + "/"@ + dp);
    assert(dot =~= seq!['.']);
    assert(!dot.contains('/'));
    lemma_dec_lacks(a as nat, '/');
    lemma_dec_lacks(b as nat, '/');
    lemma_dec_lacks(c as nat, '/');
    lemma_dec_lacks(d as nat, '/');
    lemma_concat_lacks(da, dot, '/');
    lemma_concat_lacks(da + dot, db, '/');
    lemma_concat_lacks(da + dot + db, dot, '/');
    lemma_concat_lacks(da + dot + db + dot, dc, '/');
    lemma_concat_lacks(da + dot + db + dot + dc, dot, '/');
    lemma_concat_lacks(da + dot + db + dot + dc + dot, dd, '/');
    assert forall|i: int| 0 <= i < ip.len() implies out[i] != '/' by {
        assert(out[i] == ip[i]);
    }
    assert(out[ip.len() as int] == '/');
    lemma_find_from_exact(out, '/', 0, ip.len() as int);
    let k = cidr_slash(out);
    assert(k == ip.len());
    assert(out.take(k) =~= ip);
    assert(out.skip(k + 1) =~= dp);
    let parts = seq![da, db, dc, dd];
    assert(parts.drop_last() =~= seq![da, db, dc]);
    assert(parts.drop_last().drop_last() =~= seq![da, db]);
    assert(parts.drop_last().drop_last().drop_last() =~= seq![da]);
    assert(join_spec(seq![da], dot) == da);
    assert(join_spec(seq![da, db], dot) == join_spec(seq![da], dot) + dot + db);
    assert(join_spec(seq![da, db, dc], dot) == join_spec(seq![da, db], dot) + dot + dc);
    assert(join_spec(parts, dot) == join_spec(seq![da, db, dc], dot) + dot + dd);
    assert(join_spec(parts, dot) =~= ip);
    lemma_dec_lacks(a as nat, '.');
    lemma_dec_lacks(b as nat, '.');
    lemma_dec_lacks(c as nat, '.');
    lemma_dec_lacks(d as nat, '.');
    assert forall|i: int| 0 <= i < parts.len() implies !(#[trigger] parts[i]).contains('.') by {
        if i == 0 {
        } else if i == 1 {
        } else if i == 2 {
        } else {
        }
    }
    lemma_split_join(parts, '.');
    assert(split_spec(ip, '.') == parts);
    lemma_parse_dec(a as nat);
    lemma_parse_dec(b as nat);
    lemma_parse_dec(c as nat);
    lemma_parse_dec(d as nat);
    lemma_parse_dec(p as nat);
    let octets = parsed_octets(parts);
    assert(parsed_octets(Seq::<Seq<char>>::empty()) == Seq::<u32>::empty());
    assert(seq![da].drop_last() =~= Seq::<Seq<char>>::empty());
    assert(parsed_octets(seq![da]) =~= seq![a]);
    assert(parsed_octets(seq![da, db]) =~= seq![a, b]);
    assert(parsed_octets(seq![da, db, dc]) =~= seq![a, b, c]);
    assert(octets =~= seq![a, b, c, d]);
    assert(cidr_prefix(out) == p);
}

/// The four octets and the prefix of `dotted(x, p)` read back as they were
/// written, so the result of `to_subnet` for a network address is that
/// address.
proof fn lemma_dotted_round_trip(x: u32, p: u32)
    requires
        p <= 32,
        x & prefix_mask(p) == x,
    ensures
        subnet_prefix_ok(dotted(x, p)),
        to_subnet_spec(dotted(x, p)) == dotted(x, p),
{
    let a = (x >> 24u32) & 0xffu32;
    let b = (x >> 16u32) & 0xffu32;
    let c = (x >> 8u32) & 0xffu32;
    let d = x & 0xffu32;
    to_subnet_of_dotted_quad(a, b, c, d, p);
    assert(dotted_quad(a, b, c, d, p) == dotted(x, p));
    assert(ipv4_of(seq![a, b, c, d]) == ((((a << 24u32) | (b << 16u32)) | (c << 8u32)) | d));
    assert(((((((x >> 24u32) & 0xffu32) << 24u32) | (((x >> 16u32) & 0xffu32) << 16u32)) | (((
    x >> 8u32) & 0xffu32) << 8u32)) | (x & 0xffu32)) == x) by (bit_vector);
}

/// Taking the subnet of a subnet changes nothing: what `to_subnet` gives is
/// its own network address, and `to_subnet` can work on it.
pub proof fn to_subnet_is_idempotent(c: Seq<char>)
    requires
        subnet_prefix_ok(c),
    ensures
        subnet_prefix_ok(to_subnet_spec(c)),
        to_subnet_spec(to_subnet_spec(c)) == to_subnet_spec(c),
{
    let k = cidr_slash(c);
    if k < c.len() {
        let octets = parsed_octets(split_spec(c.take(k), '.'));
        if octets.len() == 4 {
            let p = cidr_prefix(c);
            let y = ipv4_of(octets);
            let m = prefix_mask(p);
            assert((y & m) & m == y & m) by (bit_vector);
            lemma_dotted_round_trip(y & m, p);
        }
    }
}

/// The ClientHello on the wire, byte by byte: a TLS handshake record
/// (`16 03 01`) holding a `client_hello` (`01`) for TLS 1.2 (`03 03`), a
/// random of 32 bytes `11`, no session id, the one cipher suite
/// TLS_AES_128_GCM_SHA256 (`13 01`), null compression, and one extension of
/// type `00 00` (server_name) holding one `host_name` (type `00`) entry: the
/// host name bytes `h`, which end the message. When the message is short
/// enough for its length fields, they give the lengths of what follows them.
pub proof fn client_hello_wire_layout(h: Seq<u8>)
    ensures
        ({
            let r = client_hello_spec(h);
            &&& r.len() == h.len() + 61
            &&& r[0] == 0x16 && r[1] == 0x03 && r[2] == 0x01
            &&& r[5] == 0x01
            &&& r[9] == 0x03 && r[10] == 0x03
            &&& forall|i: int| 11 <= i < 43 ==> r[i] == 0x11
            &&& r[43] == 0x00
            &&& r[44] == 0x00 && r[45] == 0x02 && r[46] == 0x13 && r[47] == 0x01
            &&& r[48] == 0x01 && r[49] == 0x00
            &&& r[52] == 0x00 && r[53] == 0x00
            &&& r[58] == 0x00
            &&& r.subrange(61, r.len() as int) == h
            &&& h.len() + 56 < 65536 ==> {
                &&& r[3] * 256 + r[4] == h.len() + 56
                &&& r[6] == 0 && r[7] * 256 + r[8] == h.len() + 52
                &&& r[50] * 256 + r[51] == h.len() + 9
                &&& r[54] * 256 + r[55] == h.len() + 5
                &&& r[56] * 256 + r[57] == h.len() + 3
                &&& r[59] * 256 + r[60] == h.len()
            }
        }),
{
    lemma_hello_lengths(h);
    lemma_client_hello_layout(h);
    lemma_body_layout(h);
    lemma_record_offsets(h);
    let r = client_hello_spec(h);
    let b = body_spec(h);
    assert(r.subrange(61, r.len() as int) == h);
    assert forall|i: int| 11 <= i < 43 implies r[i] == 0x11 by {
        assert(r[i] == b[i - 9]);
    }
    assert(r[9] == b[0] && r[10] == b[1]);
    assert(r[43] == b[34] && r[44] == b[35] && r[45] == b[36] && r[46] == b[37]);
    assert(r[47] == b[38] && r[48] == b[39] && r[49] == b[40]);
    assert(r[50] == b[41] && r[51] == b[42] && r[52] == b[43] && r[53] == b[44]);
    assert(r[54] == b[45] && r[55] == b[46] && r[56] == b[47] && r[57] == b[48]);
    assert(r[58] == b[49] && r[59] == b[50] && r[60] == b[51]);
}

/// Where the parts of the ClientHello body sit.
proof fn lemma_body_layout(h: Seq<u8>)
    ensures
        ({
            let b = body_spec(h);
            &&& b[0] == 0x03 && b[1] == 0x03
            &&& forall|i: int| 2 <= i < 34 ==> b[i] == 0x11
            &&& b[34] == 0x00
            &&& b[35] == 0x00 && b[36] == 0x02 && b[37] == 0x13 && b[38] == 0x01
            &&& b[39] == 0x01 && b[40] == 0x00
            &&& b[43] == 0x00 && b[44] == 0x00
            &&& b[49] == 0x00
            &&& h.len() + 56 < 65536 ==> {
                &&& b[41] * 256 + b[42] == h.len() + 9
                &&& b[45] * 256 + b[46] == h.len() + 5
                &&& b[47] * 256 + b[48] == h.len() + 3
                &&& b[50] * 256 + b[51] == h.len()
            }
        }),
{
    lemma_hello_lengths(h);
    let b = body_spec(h);
    let e = extensions_spec(h);
    let se = sni_ext_spec(h);
    let f = hello_fixed();
    assert(b == f + be16((e.len() % 65536) as int) + e);
    assert forall|i: int| 2 <= i < 34 implies b[i] == 0x11 by {
        assert(b[i] == f[i]);
    }
    assert(b[0] == f[0] && b[1] == f[1] && b[34] == f[34]);
    assert(b[35] == f[35] && b[36] == f[36] && b[37] == f[37] && b[38] == f[38]);
    assert(b[39] == f[39] && b[40] == f[40]);
    assert(e == be16(0) + be16((se.len() % 65536) as int) + se);
    assert(b[43] == e[0] && b[44] == e[1] && b[45] == e[2] && b[46] == e[3]);
    assert(b[47] == se[0] && b[48] == se[1] && b[49] == se[2] && b[50] == se[3] && b[51]
        == se[4]);
}

/// The record header takes five bytes and the handshake header four, so the
/// body starts at byte 9; the length fields of both headers.
proof fn lemma_record_offsets(h: Seq<u8>)
    ensures
        ({
            let r = client_hello_spec(h);
            let b = body_spec(h);
            &&& forall|k: int| 9 <= k < r.len() ==> #[trigger] r[k] == b[k - 9]
            &&& r[0] == 0x16 && r[1] == 0x03 && r[2] == 0x01 && r[5] == 0x01
            &&& h.len() + 56 < 65536 ==> {
                &&& r[3] * 256 + r[4] == h.len() + 56
                &&& r[6] == 0 && r[7] * 256 + r[8] == h.len() + 52
            }
        }),
{
    lemma_hello_lengths(h);
    let r = client_hello_spec(h);
    let hs = handshake_spec(h);
    let b = body_spec(h);
    assert forall|k: int| 9 <= k < r.len() implies #[trigger] r[k] == b[k - 9] by {
        assert(r[k] == hs[k - 5]);
        assert(hs[k - 5] == b[k - 9]);
    }
    assert(r[5] == hs[0] && r[6] == hs[1] && r[7] == hs[2] && r[8] == hs[3]);
}

/// How the TCP probe is classified, outcome by outcome: open exactly when a
/// TLS handshake or alert record came back; a timeout exactly when
/// connecting or reading timed out (or would block); a DNS block exactly
/// when the name did not resolve; a TCP block exactly when connecting failed
/// otherwise; and a TLS reset in every other case (the write failed, the
/// peer closed, a non-TLS byte came back, or the read failed otherwise).
pub proof fn text_verdict_table(p: TextProbe)
    ensures
        (text_verdict_spec(p) == Reachability::Reachable) <==> (p matches TextProbe::Replied(
            ReadOutcome::Data(b),
        ) && (b == 0x16 || b == 0x15)),
        (text_verdict_spec(p) == Reachability::Timeout) <==> (
        p == TextProbe::ConnectFailed(ProbeErrorKind::TimedOut) || p == TextProbe::ConnectFailed(
            ProbeErrorKind::WouldBlock,
        ) || p == TextProbe::Replied(ReadOutcome::Failed(ProbeErrorKind::TimedOut)) || p
            == TextProbe::Replied(ReadOutcome::Failed(ProbeErrorKind::WouldBlock))),
        (text_verdict_spec(p) == Reachability::DnsBlocked) <==> p == TextProbe::Unresolved,
        (text_verdict_spec(p) == Reachability::TcpBlocked) <==> (p matches TextProbe::ConnectFailed(
            k,
        ) && k != ProbeErrorKind::TimedOut && k != ProbeErrorKind::WouldBlock),
        (text_verdict_spec(p) == Reachability::TlsReset) <==> (p == TextProbe::WriteFailed || p
            == TextProbe::Replied(ReadOutcome::Closed) || (p matches TextProbe::Replied(
            ReadOutcome::Data(b),
        ) && b != 0x16 && b != 0x15) || p == TextProbe::Replied(
            ReadOutcome::Failed(ProbeErrorKind::ConnectionReset),
        ) || p == TextProbe::Replied(ReadOutcome::Failed(ProbeErrorKind::Other))),
{
}

/// How the UDP probe is classified, outcome by outcome: open exactly when a
/// non-empty datagram came back; a DNS block exactly when the name did not
/// resolve; a TCP block exactly when sending failed; a timeout when nothing
/// (or an empty datagram) came back.
pub proof fn voice_verdict_table(p: VoiceProbe)
    ensures
        (voice_verdict_spec(p) == Reachability::Reachable) <==> (p matches VoiceProbe::Received(n)
            && n > 0),
        (voice_verdict_spec(p) == Reachability::DnsBlocked) <==> p == VoiceProbe::Unresolved,
        (voice_verdict_spec(p) == Reachability::TcpBlocked) <==> p == VoiceProbe::SendFailed,
        (voice_verdict_spec(p) == Reachability::Timeout) <==> (p == VoiceProbe::NoReply
            || p == VoiceProbe::Received(0)),
        voice_verdict_spec(p) != Reachability::TlsReset,
{
}

/// When the two gateway MACs are known, two fingerprints match exactly when
/// the MACs have the same length and agree character by character up to
/// ASCII case; when either is unknown, exactly when both the subnet and the
/// interface are the same. In particular, with a MAC missing, different
/// subnets (or interfaces) never match.
pub proof fn fingerprint_match_rule(a: NetworkFingerprint, b: NetworkFingerprint)
    ensures
        (a.gateway_mac is None || b.gateway_mac is None) ==> (fingerprints_match(a, b) <==> (
        opt_view(a.subnet) == opt_view(b.subnet) && opt_view(a.iface) == opt_view(b.iface))),
        (a.gateway_mac is None || b.gateway_mac is None) && opt_view(a.subnet) != opt_view(
            b.subnet,
        ) ==> !fingerprints_match(a, b),
        (a.gateway_mac is Some && b.gateway_mac is Some) ==> ({
            let x = a.gateway_mac->0@;
            let y = b.gateway_mac->0@;
            fingerprints_match(a, b) <==> (x.len() == y.len() && forall|k: int|
                0 <= k < x.len() ==> (x[k] == y[k] || (('A' <= x[k] <= 'Z') && y[k] as u32
                    == x[k] as u32 + 32) || (('A' <= y[k] <= 'Z') && x[k] as u32 == y[k] as u32
                    + 32)))
        }),
{
    if a.gateway_mac is Some && b.gateway_mac is Some {
        let x = a.gateway_mac->0@;
        let y = b.gateway_mac->0@;
        assert forall|k: int| 0 <= k < x.len() && x.len() == y.len() implies (
        crate::text::ascii_lower(x[k]) == crate::text::ascii_lower(y[k]) <==> (x[k] == y[k] || ((
        'A' <= x[k] <= 'Z') && y[k] as u32 == x[k] as u32 + 32) || (('A' <= y[k] <= 'Z') && x[k]
            as u32 == y[k] as u32 + 32))) by {}
    }
}

/// The subnet of `a.b.c.d/p` (with `p` at most 32) keeps exactly the top `p`
/// bits of the address `a << 24 | b << 16 | c << 8 | d` and clears the other
/// `32 - p`; it is written as four decimal octets and the same prefix.
pub proof fn subnet_keeps_prefix_bits(a: u32, b: u32, c: u32, d: u32, p: u32)
    requires
        p <= 32,
    ensures
        exists|y: u32|
            {
                &&& forall|i: u32|
                    #![trigger (y >> i)]
                    i < 32 ==> ((y >> i) & 1u32) == (if i >= 32 - p {
                        (((((a << 24u32) | (b << 16u32)) | (c << 8u32)) | d) >> i) & 1u32
                    } else {
                        0u32
                    })
                &&& to_subnet_spec(dotted_quad(a, b, c, d, p)) == dotted_quad(
                    (y >> 24u32) & 0xffu32,
                    (y >> 16u32) & 0xffu32,
                    (y >> 8u32) & 0xffu32,
                    y & 0xffu32,
                    p,
                )
            },
{
    to_subnet_of_dotted_quad(a, b, c, d, p);
    let ip = (((a << 24u32) | (b << 16u32)) | (c << 8u32)) | d;
    assert(ipv4_of(seq![a, b, c, d]) == ip);
    let y = ip & prefix_mask(p);
    assert(dotted(y, p) == dotted_quad(
        (y >> 24u32) & 0xffu32,
        (y >> 16u32) & 0xffu32,
        (y >> 8u32) & 0xffu32,
        y & 0xffu32,
        p,
    ));
    if p == 0 {
        assert(y == 0) by (bit_vector)
            requires
                y == ip & 0u32,
        ;
        assert forall|i: u32| i < 32 implies ((y >> i) & 1u32) == (if i >= 32 - p {
            (ip >> i) & 1u32
        } else {
            0u32
        }) by {
            assert(((0u32 >> i) & 1u32) == 0u32) by (bit_vector);
        }
    } else {
        let s = (32 - p) as u32;
        assert(y == ip & (0xffff_ffffu32 << s));
        assert forall|i: u32| i < 32 implies ((y >> i) & 1u32) == (if i >= 32 - p {
            (ip >> i) & 1u32
        } else {
            0u32
        }) by {
            assert(((ip & (0xffff_ffffu32 << s)) >> i) & 1u32 == (if i >= s {
                (ip >> i) & 1u32
            } else {
                0u32
            })) by (bit_vector)
                requires
                    s < 32,
                    i < 32,
            ;
        }
    }
}

} // verus!
