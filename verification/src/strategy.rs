//! The strategy model and its rendering into engine arguments.
//!
//! A [`Strategy`] says how packets are to be manipulated, independently of the
//! tool that does it: the Linux engine renders it into `nfqws` flags, the
//! Windows engine into GoodbyeDPI flags.
use vstd::prelude::*;
use crate::text::{concat, dec, push_decimal, str_eq};

verus! {

/// TCP / TLS desync parameters (traffic to TCP port 443).
#[derive(Debug, Clone, PartialEq, Eq)]
pub struct TcpStrategy {
    /// `--dpi-desync` mode list, e.g. `"fake,split2"`.
    pub desync: String,
    /// Split position: a number or a marker understood by nfqws (`midsld`,
    /// `sniext`, ...).
    pub split_pos: String,
    /// TTL of injected fake packets; `0` lets the engine pick one.
    pub ttl: u8,
    /// `--dpi-desync-fooling` mode; `"none"` for no fooling.
    pub fooling: String,
    /// How many times the desync packets are sent.
    pub repeats: u8,
}

/// UDP / QUIC desync parameters (voice traffic to UDP port 443).
#[derive(Debug, Clone, PartialEq, Eq)]
pub struct UdpStrategy {
    /// `--dpi-desync` mode for UDP.
    pub desync: String,
    /// TTL of fake UDP packets; `0` lets the engine pick one.
    pub ttl: u8,
    /// Repeat count.
    pub repeats: u8,
}

/// A complete strategy: a TCP part and an optional UDP/QUIC part.
#[derive(Debug, Clone, PartialEq, Eq)]
pub struct Strategy {
    pub tcp: TcpStrategy,
    pub udp_quic: Option<UdpStrategy>,
}

/// The mathematical content of a [`TcpStrategy`].
pub struct TcpView {
    pub desync: Seq<char>,
    pub split_pos: Seq<char>,
    pub ttl: u8,
    pub fooling: Seq<char>,
    pub repeats: u8,
}

/// The mathematical content of a [`UdpStrategy`].
pub struct UdpView {
    pub desync: Seq<char>,
    pub ttl: u8,
    pub repeats: u8,
}

/// The mathematical content of a [`Strategy`].
pub struct StrategyView {
    pub tcp: TcpView,
    pub udp_quic: Option<UdpView>,
}

impl View for TcpStrategy {
    type V = TcpView;

    open spec fn view(&self) -> TcpView {
        TcpView {
            desync: self.desync@,
            split_pos: self.split_pos@,
            ttl: self.ttl,
            fooling: self.fooling@,
            repeats: self.repeats,
        }
    }
}

impl View for UdpStrategy {
    type V = UdpView;

    open spec fn view(&self) -> UdpView {
        UdpView { desync: self.desync@, ttl: self.ttl, repeats: self.repeats }
    }
}

/// The view of an optional UDP part.
pub open spec fn udp_view(u: Option<UdpStrategy>) -> Option<UdpView> {
    match u {
        Some(x) => Some(x@),
        None => None,
    }
}

impl View for Strategy {
    type V = StrategyView;

    open spec fn view(&self) -> StrategyView {
        StrategyView { tcp: self.tcp@, udp_quic: udp_view(self.udp_quic) }
    }
}

/// The views of a sequence of strategies.
pub open spec fn strategies_view(v: Seq<Strategy>) -> Seq<StrategyView> {
    v.map_values(|s: Strategy| s@)
}

/// The TCP part every fresh strategy starts from.
pub open spec fn default_tcp() -> TcpView {
    TcpView {
        desync: "fake,split2"@,
        split_pos: "midsld"@,
        ttl: 0,
        fooling: "md5sig"@,
        repeats: 1,
    }
}

/// The UDP part every fresh strategy starts from.
pub open spec fn default_udp() -> UdpView {
    UdpView { desync: "fake"@, ttl: 0, repeats: 2 }
}

impl Default for TcpStrategy {
    fn default() -> (r: Self)
        ensures
            r@ == default_tcp(),
    {
        TcpStrategy {
            desync: "fake,split2".to_owned(),
            split_pos: "midsld".to_owned(),
            ttl: 0,
            fooling: "md5sig".to_owned(),
            repeats: 1,
        }
    }
}

impl Default for UdpStrategy {
    fn default() -> (r: Self)
        ensures
            r@ == default_udp(),
    {
        UdpStrategy { desync: "fake".to_owned(), ttl: 0, repeats: 2 }
    }
}

impl TcpStrategy {
    /// A field-by-field copy.
    pub fn duplicate(&self) -> (r: Self)
        ensures
            r == *self,
    {
        TcpStrategy {
            desync: self.desync.clone(),
            split_pos: self.split_pos.clone(),
            ttl: self.ttl,
            fooling: self.fooling.clone(),
            repeats: self.repeats,
        }
    }
}

impl UdpStrategy {
    /// A field-by-field copy.
    pub fn duplicate(&self) -> (r: Self)
        ensures
            r == *self,
    {
        UdpStrategy { desync: self.desync.clone(), ttl: self.ttl, repeats: self.repeats }
    }
}

/// The flag that sets the fake-packet TTL: a fixed TTL when one is given,
/// automatic TTL otherwise.
pub open spec fn ttl_flag(ttl: u8) -> Seq<char> {
    if ttl > 0 {
        "--dpi-desync-ttl="@ + dec(ttl as nat)
    } else {
        "--dpi-desync-autottl=2"@
    }
}

/// The repeat flag, present only for more than one repeat.
pub open spec fn repeat_flags(repeats: u8) -> Seq<Seq<char>> {
    if repeats > 1 {
        seq!["--dpi-desync-repeats="@ + dec(repeats as nat)]
    } else {
        Seq::empty()
    }
}

/// The nfqws profile for TCP port 443.
pub open spec fn nfqws_tcp_args(t: TcpView) -> Seq<Seq<char>> {
    seq!["--filter-tcp=443"@, "--dpi-desync="@ + t.desync, ttl_flag(t.ttl)] + (if t.fooling
        != "none"@ {
        seq!["--dpi-desync-fooling="@ + t.fooling]
    } else {
        Seq::empty()
    }) + (if t.split_pos.len() > 0 {
        seq!["--dpi-desync-split-pos="@ + t.split_pos]
    } else {
        Seq::empty()
    }) + repeat_flags(t.repeats)
}

/// The nfqws profile for UDP port 443, introduced by `--new`.
pub open spec fn nfqws_udp_args(u: UdpView) -> Seq<Seq<char>> {
    seq!["--new"@, "--filter-udp=443"@, "--dpi-desync="@ + u.desync, ttl_flag(u.ttl)]
        + repeat_flags(u.repeats)
}

/// The nfqws arguments of a strategy: the TCP profile, then the UDP profile
/// when there is a UDP part.
pub open spec fn nfqws_args(s: StrategyView) -> Seq<Seq<char>> {
    nfqws_tcp_args(s.tcp) + match s.udp_quic {
        Some(u) => nfqws_udp_args(u),
        None => Seq::empty(),
    }
}

/// The GoodbyeDPI arguments of a strategy: the `-5` preset, plus
/// `--frag-by-sni` when the TCP split position is `sni` or `host`.
pub open spec fn goodbyedpi_args(s: StrategyView) -> Seq<Seq<char>> {
    if s.tcp.split_pos == "sni"@ || s.tcp.split_pos == "host"@ {
        seq!["-5"@, "--frag-by-sni"@]
    } else {
        seq!["-5"@]
    }
}

fn ttl_arg(ttl: u8) -> (r: String)
    ensures
        r@ == ttl_flag(ttl),
{
    if ttl > 0 {
        let mut a = "--dpi-desync-ttl=".to_owned();
        push_decimal(&mut a, ttl as u64);
        a
    } else {
        "--dpi-desync-autottl=2".to_owned()
    }
}

fn push_repeats(args: &mut Vec<String>, repeats: u8)
    ensures
        final(args).deep_view() == old(args).deep_view() + repeat_flags(repeats),
{
    let ghost before = args.deep_view();
    if repeats > 1 {
        let mut a = "--dpi-desync-repeats=".to_owned();
        push_decimal(&mut a, repeats as u64);
        args.push(a);
    }
    assert(args.deep_view() =~= before + repeat_flags(repeats));
}

impl Strategy {
    /// A field-by-field copy.
    pub fn duplicate(&self) -> (r: Self)
        ensures
            r == *self,
    {
        Strategy {
            tcp: self.tcp.duplicate(),
            udp_quic: match &self.udp_quic {
                Some(u) => Some(u.duplicate()),
                None => None,
            },
        }
    }

    /// The `nfqws` argument vector for this strategy: one profile for TCP
    /// port 443 and, when there is a UDP part, one for UDP port 443.
    pub fn to_nfqws_args(&self) -> (r: Vec<String>)
        ensures
            r.deep_view() == nfqws_args(self@),
    {
        let mut args: Vec<String> = Vec::new();
        args.push("--filter-tcp=443".to_owned());
        args.push(concat("--dpi-desync=", self.tcp.desync.as_str()));
        args.push(ttl_arg(self.tcp.ttl));
        let ghost t0 = args.deep_view();
        if !str_eq(self.tcp.fooling.as_str(), "none") {
            args.push(concat("--dpi-desync-fooling=", self.tcp.fooling.as_str()));
        }
        let ghost t1 = args.deep_view();
        if !self.tcp.split_pos.as_str().is_empty() {
            args.push(concat("--dpi-desync-split-pos=", self.tcp.split_pos.as_str()));
        }
        let ghost t2 = args.deep_view();
        push_repeats(&mut args, self.tcp.repeats);
        assert(args.deep_view() =~= nfqws_tcp_args(self.tcp@));
        let ghost tcp_part = args.deep_view();
        match &self.udp_quic {
            Some(udp) => {
                args.push("--new".to_owned());
                args.push("--filter-udp=443".to_owned());
                args.push(concat("--dpi-desync=", udp.desync.as_str()));
                args.push(ttl_arg(udp.ttl));
                push_repeats(&mut args, udp.repeats);
                assert(args.deep_view() =~= tcp_part + nfqws_udp_args(udp@));
            },
            None => {
                assert(args.deep_view() =~= tcp_part + Seq::<Seq<char>>::empty());
            },
        }
        args
    }

    /// GoodbyeDPI flags for this strategy. Only the TCP part maps onto them.
    pub fn to_goodbyedpi_args(&self) -> (r: Vec<String>)
        ensures
            r.deep_view() == goodbyedpi_args(self@),
    {
        let mut args: Vec<String> = Vec::new();
        args.push("-5".to_owned());
        if str_eq(self.tcp.split_pos.as_str(), "sni") || str_eq(self.tcp.split_pos.as_str(), "host") {
            args.push("--frag-by-sni".to_owned());
        }
        assert(args.deep_view() =~= goodbyedpi_args(self@));
        args
    }
}

/// The voice part shared by every candidate.
pub open spec fn voice_udp() -> Option<UdpView> {
    Some(UdpView { desync: "fake"@, ttl: 0, repeats: 2 })
}

/// The candidates the solver tries, from least to most aggressive.
pub open spec fn candidates() -> Seq<StrategyView> {
    seq![
        StrategyView {
            tcp: TcpView {
                desync: "split2"@,
                split_pos: "midsld"@,
                ttl: 0,
                fooling: "none"@,
                repeats: 1,
            },
            udp_quic: voice_udp(),
        },
        StrategyView { tcp: default_tcp(), udp_quic: voice_udp() },
        StrategyView {
            tcp: TcpView {
                desync: "fakeddisorder"@,
                split_pos: "midsld"@,
                ttl: 4,
                fooling: "md5sig"@,
                repeats: 2,
            },
            udp_quic: voice_udp(),
        },
        StrategyView {
            tcp: TcpView {
                desync: "fake,multisplit"@,
                split_pos: "1"@,
                ttl: 3,
                fooling: "badsum"@,
                repeats: 3,
            },
            udp_quic: voice_udp(),
        },
    ]
}

fn voice() -> (r: Option<UdpStrategy>)
    ensures
        udp_view(r) == voice_udp(),
{
    Some(UdpStrategy { desync: "fake".to_owned(), ttl: 0, repeats: 2 })
}

/// The ordered list of candidate strategies the solver tries.
pub fn candidate_strategies() -> (r: Vec<Strategy>)
    ensures
        strategies_view(r@) == candidates(),
{
    let mut v: Vec<Strategy> = Vec::new();
    v.push(
        Strategy {
            tcp: TcpStrategy {
                desync: "split2".to_owned(),
                split_pos: "midsld".to_owned(),
                ttl: 0,
                fooling: "none".to_owned(),
                repeats: 1,
            },
            udp_quic: voice(),
        },
    );
    v.push(Strategy { tcp: TcpStrategy::default(), udp_quic: voice() });
    v.push(
        Strategy {
            tcp: TcpStrategy {
                desync: "fakeddisorder".to_owned(),
                split_pos: "midsld".to_owned(),
                ttl: 4,
                fooling: "md5sig".to_owned(),
                repeats: 2,
            },
            udp_quic: voice(),
        },
    );
    v.push(
        Strategy {
            tcp: TcpStrategy {
                desync: "fake,multisplit".to_owned(),
                split_pos: "1".to_owned(),
                ttl: 3,
                fooling: "badsum".to_owned(),
                repeats: 3,
            },
            udp_quic: voice(),
        },
    );
    assert(strategies_view(v@) =~= candidates());
    v
}

/// Every candidate carries a voice (UDP/QUIC) part, and there is at least one.
pub proof fn candidates_all_have_voice()
    ensures
        candidates().len() > 0,
        forall|i: int| 0 <= i < candidates().len() ==> (#[trigger] candidates()[i]).udp_quic is Some,
{
}

/// Every TCP flag starts `--d` or is `--filter-tcp=443`, so none of them is
/// the UDP filter.
proof fn tcp_args_have_no_udp_filter(t: TcpView)
    ensures
        !nfqws_tcp_args(t).contains("--filter-udp=443"@),
{
    reveal_strlit("--filter-udp=443");
    reveal_strlit("--filter-tcp=443");
    reveal_strlit("--dpi-desync=");
    reveal_strlit("--dpi-desync-ttl=");
    reveal_strlit("--dpi-desync-autottl=2");
    reveal_strlit("--dpi-desync-fooling=");
    reveal_strlit("--dpi-desync-split-pos=");
    reveal_strlit("--dpi-desync-repeats=");
    let a = nfqws_tcp_args(t);
    let u = "--filter-udp=443"@;
    assert forall|k: int| 0 <= k < a.len() implies a[k] != u by {
        if k == 0 {
            assert(a[k][9] != u[9]);
        } else {
            assert(a[k][2] == 'd');
        }
    }
}

/// The `nfqws` arguments carry a UDP profile (`--filter-udp=443`) exactly
/// when the strategy has a voice part.
pub proof fn udp_profile_iff_voice(s: StrategyView)
    ensures
        nfqws_args(s).contains("--filter-udp=443"@) <==> s.udp_quic is Some,
{
    reveal_strlit("--filter-udp=443");
    tcp_args_have_no_udp_filter(s.tcp);
    let tcp = nfqws_tcp_args(s.tcp);
    match s.udp_quic {
        Some(u) => {
            assert(nfqws_args(s)[tcp.len() as int + 1] == "--filter-udp=443"@);
        },
        None => {
            assert(nfqws_args(s) =~= tcp);
        },
    }
}

/// Every flag a TCP setting calls for is among the `nfqws` arguments,
/// whatever the other settings are: the fooling mode unless it is `none`
/// (with a fixed TTL as with the automatic one), the split position unless
/// it is empty, a fixed TTL when one is given and the automatic TTL
/// otherwise, and the repeat count above one. The TCP filter and the desync
/// mode are always there.
pub proof fn tcp_flags_present(s: StrategyView)
    ensures
        nfqws_args(s).contains("--filter-tcp=443"@),
        nfqws_args(s).contains("--dpi-desync="@ + s.tcp.desync),
        s.tcp.fooling != "none"@ ==> nfqws_args(s).contains(
            "--dpi-desync-fooling="@ + s.tcp.fooling,
        ),
        s.tcp.split_pos.len() > 0 ==> nfqws_args(s).contains(
            "--dpi-desync-split-pos="@ + s.tcp.split_pos,
        ),
        s.tcp.ttl > 0 ==> nfqws_args(s).contains("--dpi-desync-ttl="@ + dec(s.tcp.ttl as nat)),
        s.tcp.ttl == 0 ==> nfqws_args(s).contains("--dpi-desync-autottl=2"@),
        s.tcp.repeats > 1 ==> nfqws_args(s).contains(
            "--dpi-desync-repeats="@ + dec(s.tcp.repeats as nat),
        ),
{
    let t = s.tcp;
    let a = nfqws_args(s);
    let head = seq!["--filter-tcp=443"@, "--dpi-desync="@ + t.desync, ttl_flag(t.ttl)];
    let fool = if t.fooling != "none"@ {
        seq!["--dpi-desync-fooling="@ + t.fooling]
    } else {
        Seq::<Seq<char>>::empty()
    };
    let split = if t.split_pos.len() > 0 {
        seq!["--dpi-desync-split-pos="@ + t.split_pos]
    } else {
        Seq::<Seq<char>>::empty()
    };
    let rep = repeat_flags(t.repeats);
    let udp = match s.udp_quic {
        Some(u) => nfqws_udp_args(u),
        None => Seq::<Seq<char>>::empty(),
    };
    assert(a == head + fool + split + rep + udp);
    assert(a[0] == head[0]);
    assert(a[1] == head[1]);
    assert(a[2] == head[2]);
    if t.fooling != "none"@ {
        assert(a[3] == fool[0]);
    }
    if t.split_pos.len() > 0 {
        assert(a[3 + fool.len() as int] == split[0]);
    }
    if t.repeats > 1 {
        assert(a[3 + fool.len() as int + split.len() as int] == rep[0]);
    }
}

} // verus!
