//! The command line of the privileged helper.
//!
//! ```text
//! dpi-bypass-helper plan   --strategy <json> --domains a,b,c [--nfqws PATH]
//! dpi-bypass-helper apply  --strategy <json> --domains a,b,c [--nfqws PATH]
//! dpi-bypass-helper revert
//! dpi-bypass-helper solve  --domains a,b,c [--voice 1] [--nfqws PATH]
//! dpi-bypass-helper status
//! dpi-bypass-helper daemon
//! dpi-bypass-helper enable-service  [--strategy <json> --domains a,b,c]
//! dpi-bypass-helper disable-service
//! dpi-bypass-helper service-status
//! ```
//!
//! Options are `--key value` pairs (values may be JSON, so no `=`); a later
//! option overrides an earlier one with the same key. `status`,
//! `service-status` and `solve` answer with a JSON line. `--nfqws` names the
//! engine binary (nfqws on Linux, goodbyedpi.exe on Windows).
use vstd::prelude::*;
use crate::network::opt_view;
use crate::text::{split_char, split_spec, str_eq, trim, trim_spec};

verus! {

/// One `--key value` option.
#[derive(Debug, Clone)]
pub struct CliOption {
    pub key: String,
    pub value: String,
}

/// The options of a command line, in the order they were given.
#[derive(Debug, Clone)]
pub struct Opts {
    pub items: Vec<CliOption>,
}

/// The options as `(key, value)` pairs.
pub open spec fn pairs_view(items: Seq<CliOption>) -> Seq<(Seq<char>, Seq<char>)> {
    items.map_values(|o: CliOption| (o.key@, o.value@))
}

/// Whether `a` is an option name (`--` followed by the key).
pub open spec fn is_flag(a: Seq<char>) -> bool {
    a.len() >= 2 && a[0] == '-' && a[1] == '-'
}

/// The options of `args` from position `i` on: an argument that starts with
/// `--` and has a next argument makes a pair with it; anything else is
/// skipped.
pub open spec fn option_pairs(args: Seq<Seq<char>>, i: int) -> Seq<(Seq<char>, Seq<char>)>
    decreases args.len() - i,
{
    if i < 0 || i >= args.len() {
        Seq::empty()
    } else if is_flag(args[i]) && i + 1 < args.len() {
        seq![(args[i].skip(2), args[i + 1])] + option_pairs(args, i + 2)
    } else {
        option_pairs(args, i + 1)
    }
}

/// The value of the last option named `key` among `ps`, if any.
pub open spec fn lookup(ps: Seq<(Seq<char>, Seq<char>)>, key: Seq<char>) -> Option<Seq<char>>
    decreases ps.len(),
{
    if ps.len() == 0 {
        None
    } else if ps.last().0 == key {
        Some(ps.last().1)
    } else {
        lookup(ps.drop_last(), key)
    }
}

/// Minimal `--key value` parser.
pub fn parse_opts(args: &Vec<String>) -> (r: Opts)
    ensures
        pairs_view(r.items@) == option_pairs(args.deep_view(), 0),
{
    let ghost av = args.deep_view();
    let mut items: Vec<CliOption> = Vec::new();
    let n = args.len();
    let mut i: usize = 0;
    while i < n
        invariant
            n == args@.len(),
            av == args.deep_view(),
            0 <= i <= n + 1,
            pairs_view(items@) + option_pairs(av, i as int) == option_pairs(av, 0),
        decreases n + 1 - i,
    {
        let a = crate::text::chars_of(args[i].as_str());
        assert(a@ == av[i as int]);
        if a.len() >= 2 && a[0] == '-' && a[1] == '-' && i + 1 < n {
            let key = args[i].as_str().substring_char(2, a.len()).to_owned();
            assert(key@ =~= av[i as int].skip(2));
            let value = args[i + 1].clone();
            let ghost before = items@;
            items.push(CliOption { key, value });
            assert(pairs_view(items@) =~= pairs_view(before) + seq![
                (av[i as int].skip(2), av[i + 1]),
            ]);
            i = i + 2;
        } else {
            i = i + 1;
        }
    }
    assert(option_pairs(av, i as int) =~= Seq::<(Seq<char>, Seq<char>)>::empty());
    assert(pairs_view(items@) =~= pairs_view(items@) + option_pairs(av, i as int));
    Opts { items }
}

impl Opts {
    /// The value of the last option named `key`.
    pub fn get(&self, key: &str) -> (r: Option<&String>)
        ensures
            match r {
                Some(v) => lookup(pairs_view(self.items@), key@) == Some(v@),
                None => lookup(pairs_view(self.items@), key@) is None,
            },
    {
        let ghost ps = pairs_view(self.items@);
        let mut k: usize = self.items.len();
        assert(ps.take(k as int) =~= ps);
        while k > 0 && !str_eq(self.items[k - 1].key.as_str(), key)
            invariant
                ps == pairs_view(self.items@),
                0 <= k <= self.items@.len(),
                lookup(ps, key@) == lookup(ps.take(k as int), key@),
            decreases k,
        {
            assert(ps.take(k as int).drop_last() =~= ps.take(k - 1));
            k = k - 1;
        }
        if k > 0 {
            assert(ps.take(k as int).last() == ps[k - 1]);
            Some(&self.items[k - 1].value)
        } else {
            None
        }
    }

    /// Whether an option named `key` was given.
    pub fn contains_key(&self, key: &str) -> (r: bool)
        ensures
            r == lookup(pairs_view(self.items@), key@) is Some,
    {
        self.get(key).is_some()
    }
}

/// The domains of a comma-separated list, each trimmed.
pub open spec fn domain_list(s: Seq<char>) -> Seq<Seq<char>> {
    split_spec(s, ',').map_values(|p: Seq<char>| trim_spec(p))
}

/// The domains of a comma-separated list, each trimmed.
pub fn split_domains(s: &str) -> (r: Vec<String>)
    ensures
        r.deep_view() == domain_list(s@),
{
    let parts = split_char(s, ',');
    let ghost pv = parts.deep_view();
    let mut out: Vec<String> = Vec::new();
    let n = parts.len();
    let mut i: usize = 0;
    while i < n
        invariant
            n == parts@.len(),
            pv == parts.deep_view(),
            pv == split_spec(s@, ','),
            0 <= i <= n,
            out.deep_view() == pv.take(i as int).map_values(|p: Seq<char>| trim_spec(p)),
        decreases n - i,
    {
        let t = trim(parts[i].as_str()).to_owned();
        let ghost before = out.deep_view();
        out.push(t);
        assert(out.deep_view() =~= before.push(trim_spec(pv[i as int])));
        assert(pv.take(i + 1).map_values(|p: Seq<char>| trim_spec(p)) =~= pv.take(
            i as int,
        ).map_values(|p: Seq<char>| trim_spec(p)).push(trim_spec(pv[i as int])));
        i = i + 1;
    }
    assert(pv.take(n as int) =~= pv);
    out
}

/// The domains named by `--domains`, none when it is missing.
pub open spec fn domains_opt(ps: Seq<(Seq<char>, Seq<char>)>) -> Seq<Seq<char>> {
    match lookup(ps, "domains"@) {
        Some(d) => domain_list(d),
        None => Seq::empty(),
    }
}

/// The domains named by `--domains`, none when it is missing.
pub fn domains_of(opts: &Opts) -> (r: Vec<String>)
    ensures
        r.deep_view() == domains_opt(pairs_view(opts.items@)),
{
    match opts.get("domains") {
        Some(d) => split_domains(d.as_str()),
        None => Vec::new(),
    }
}

/// Why a command line is refused.
#[derive(Debug, Clone)]
pub enum CliError {
    /// The verb needs `--strategy <json>`.
    StrategyRequired,
    /// The verb is not one the helper knows.
    UnknownVerb(String),
}

/// A strategy (still as its JSON text) and the domains it is for.
#[derive(Debug, Clone)]
pub struct StrategyArgs {
    pub strategy_json: String,
    pub domains: Vec<String>,
}

/// What the helper was asked to do.
#[derive(Debug, Clone)]
pub enum Request {
    /// Print what `apply` would do.
    Plan { args: StrategyArgs, engine: Option<String> },
    /// Apply a strategy.
    Apply { args: StrategyArgs, engine: Option<String> },
    /// Revert everything.
    Revert,
    /// Run the auto-solver for the domains.
    Solve { domains: Vec<String>, with_voice: bool, engine: Option<String> },
    /// Report whether a strategy is applied.
    Status,
    /// The always-on service's entry point.
    Daemon,
    /// Enable the always-on service, saving the profile it applies when one
    /// is given.
    EnableService { profile: Option<StrategyArgs>, engine: Option<String> },
    /// Disable the always-on service.
    DisableService,
    /// Report whether the always-on service is enabled and running.
    ServiceStatus,
}

/// The content of [`StrategyArgs`].
pub struct StrategyArgsView {
    pub strategy_json: Seq<char>,
    pub domains: Seq<Seq<char>>,
}

/// The content of a [`Request`].
pub enum RequestView {
    Plan { args: StrategyArgsView, engine: Option<Seq<char>> },
    Apply { args: StrategyArgsView, engine: Option<Seq<char>> },
    Revert,
    Solve { domains: Seq<Seq<char>>, with_voice: bool, engine: Option<Seq<char>> },
    Status,
    Daemon,
    EnableService { profile: Option<StrategyArgsView>, engine: Option<Seq<char>> },
    DisableService,
    ServiceStatus,
}

/// The content of a [`CliError`].
pub enum CliErrorView {
    StrategyRequired,
    UnknownVerb(Seq<char>),
}

impl View for StrategyArgs {
    type V = StrategyArgsView;

    open spec fn view(&self) -> StrategyArgsView {
        StrategyArgsView { strategy_json: self.strategy_json@, domains: self.domains.deep_view() }
    }
}

impl View for Request {
    type V = RequestView;

    open spec fn view(&self) -> RequestView {
        match self {
            Request::Plan { args, engine } => RequestView::Plan {
                args: args@,
                engine: opt_view(*engine),
            },
            Request::Apply { args, engine } => RequestView::Apply {
                args: args@,
                engine: opt_view(*engine),
            },
            Request::Revert => RequestView::Revert,
            Request::Solve { domains, with_voice, engine } => RequestView::Solve {
                domains: domains.deep_view(),
                with_voice: *with_voice,
                engine: opt_view(*engine),
            },
            Request::Status => RequestView::Status,
            Request::Daemon => RequestView::Daemon,
            Request::EnableService { profile, engine } => RequestView::EnableService {
                profile: match profile {
                    Some(p) => Some(p@),
                    None => None,
                },
                engine: opt_view(*engine),
            },
            Request::DisableService => RequestView::DisableService,
            Request::ServiceStatus => RequestView::ServiceStatus,
        }
    }
}

impl View for CliError {
    type V = CliErrorView;

    open spec fn view(&self) -> CliErrorView {
        match self {
            CliError::StrategyRequired => CliErrorView::StrategyRequired,
            CliError::UnknownVerb(v) => CliErrorView::UnknownVerb(v@),
        }
    }
}

/// The strategy and domains a verb is given: `--strategy` is required.
pub open spec fn strategy_args_spec(ps: Seq<(Seq<char>, Seq<char>)>) -> Result<
    StrategyArgsView,
    CliErrorView,
> {
    match lookup(ps, "strategy"@) {
        Some(j) => Ok(StrategyArgsView { strategy_json: j, domains: domains_opt(ps) }),
        None => Err(CliErrorView::StrategyRequired),
    }
}

/// The strategy (as JSON text) and domains a verb is given.
pub fn strategy_and_domains(opts: &Opts) -> (r: Result<StrategyArgs, CliError>)
    ensures
        match r {
            Ok(a) => strategy_args_spec(pairs_view(opts.items@)) == Ok::<
                StrategyArgsView,
                CliErrorView,
            >(a@),
            Err(e) => strategy_args_spec(pairs_view(opts.items@)) == Err::<
                StrategyArgsView,
                CliErrorView,
            >(e@),
        },
{
    match opts.get("strategy") {
        Some(j) => Ok(StrategyArgs { strategy_json: j.clone(), domains: domains_of(opts) }),
        None => Err(CliError::StrategyRequired),
    }
}

/// The verb: the first argument, or nothing.
pub open spec fn verb_of(args: Seq<Seq<char>>) -> Seq<char> {
    if args.len() > 0 {
        args[0]
    } else {
        Seq::empty()
    }
}

/// The request a command line (without the program name) makes.
pub open spec fn request_spec(args: Seq<Seq<char>>) -> Result<RequestView, CliErrorView> {
    let verb = verb_of(args);
    let ps = option_pairs(args, 1);
    let engine = lookup(ps, "nfqws"@);
    if verb == "plan"@ {
        match strategy_args_spec(ps) {
            Ok(a) => Ok(RequestView::Plan { args: a, engine }),
            Err(e) => Err(e),
        }
    } else if verb == "apply"@ {
        match strategy_args_spec(ps) {
            Ok(a) => Ok(RequestView::Apply { args: a, engine }),
            Err(e) => Err(e),
        }
    } else if verb == "revert"@ {
        Ok(RequestView::Revert)
    } else if verb == "solve"@ {
        Ok(
            RequestView::Solve {
                domains: domains_opt(ps),
                with_voice: lookup(ps, "voice"@) is Some,
                engine,
            },
        )
    } else if verb == "status"@ {
        Ok(RequestView::Status)
    } else if verb == "daemon"@ {
        Ok(RequestView::Daemon)
    } else if verb == "enable-service"@ {
        if lookup(ps, "strategy"@) is Some {
            match strategy_args_spec(ps) {
                Ok(a) => Ok(RequestView::EnableService { profile: Some(a), engine }),
                Err(e) => Err(e),
            }
        } else {
            Ok(RequestView::EnableService { profile: None, engine })
        }
    } else if verb == "disable-service"@ {
        Ok(RequestView::DisableService)
    } else if verb == "service-status"@ {
        Ok(RequestView::ServiceStatus)
    } else {
        Err(CliErrorView::UnknownVerb(verb))
    }
}

/// The view of a parsed request or its error.
pub open spec fn request_result_view(r: Result<Request, CliError>) -> Result<
    RequestView,
    CliErrorView,
> {
    match r {
        Ok(q) => Ok(q@),
        Err(e) => Err(e@),
    }
}

/// Read the request of a command line given without the program name: the
/// verb, then `--key value` options.
pub fn parse_request(args: &Vec<String>) -> (r: Result<Request, CliError>)
    ensures
        request_result_view(r) == request_spec(args.deep_view()),
{
    let ghost av = args.deep_view();
    let mut rest: Vec<String> = Vec::new();
    let n = args.len();
    if n > 0 {
        let mut i: usize = 1;
        while i < n
            invariant
                n == args@.len(),
                av == args.deep_view(),
                1 <= i <= n,
                rest.deep_view() == av.subrange(1, i as int),
            decreases n - i,
        {
            let a = args[i].clone();
            let ghost before = rest.deep_view();
            rest.push(a);
            assert(rest.deep_view() =~= before.push(av[i as int]));
            assert(av.subrange(1, i + 1) =~= av.subrange(1, i as int).push(av[i as int]));
            i = i + 1;
        }
    }
    let opts = parse_opts(&rest);
    proof {
        if n > 0 {
            lemma_option_pairs_shift(av, 1);
        } else {
            assert(rest.deep_view() =~= Seq::<Seq<char>>::empty());
        }
    }
    let verb: &str = if n > 0 {
        args[0].as_str()
    } else {
        ""
    };
    proof {
        reveal_strlit("");
    }
    let engine = match opts.get("nfqws") {
        Some(p) => Some(p.clone()),
        None => None,
    };
    assert(pairs_view(opts.items@) == option_pairs(av, 1));
    assert(verb@ == verb_of(av));
    assert(opt_view(engine) == lookup(option_pairs(av, 1), "nfqws"@));
    if str_eq(verb, "plan") {
        match strategy_and_domains(&opts) {
            Ok(a) => Ok(Request::Plan { args: a, engine }),
            Err(e) => Err(e),
        }
    } else if str_eq(verb, "apply") {
        match strategy_and_domains(&opts) {
            Ok(a) => Ok(Request::Apply { args: a, engine }),
            Err(e) => Err(e),
        }
    } else if str_eq(verb, "revert") {
        Ok(Request::Revert)
    } else if str_eq(verb, "solve") {
        Ok(
            Request::Solve {
                domains: domains_of(&opts),
                with_voice: opts.contains_key("voice"),
                engine,
            },
        )
    } else if str_eq(verb, "status") {
        Ok(Request::Status)
    } else if str_eq(verb, "daemon") {
        Ok(Request::Daemon)
    } else if str_eq(verb, "enable-service") {
        if opts.contains_key("strategy") {
            match strategy_and_domains(&opts) {
                Ok(a) => Ok(Request::EnableService { profile: Some(a), engine }),
                Err(e) => Err(e),
            }
        } else {
            Ok(Request::EnableService { profile: None, engine })
        }
    } else if str_eq(verb, "disable-service") {
        Ok(Request::DisableService)
    } else if str_eq(verb, "service-status") {
        Ok(Request::ServiceStatus)
    } else {
        Err(CliError::UnknownVerb(verb.to_owned()))
    }
}

/// The options of `args` from `i` on are those of the arguments after the
/// first `i`, read from the start.
pub proof fn lemma_option_pairs_shift(args: Seq<Seq<char>>, k: int)
    requires
        0 <= k <= args.len(),
    ensures
        option_pairs(args, k) == option_pairs(args.subrange(k, args.len() as int), 0),
{
    lemma_option_pairs_shift_from(args, k, k);
}

proof fn lemma_option_pairs_shift_from(args: Seq<Seq<char>>, k: int, i: int)
    requires
        0 <= k <= i,
        k <= args.len(),
    ensures
        option_pairs(args, i) == option_pairs(args.subrange(k, args.len() as int), i - k),
    decreases args.len() - i,
{
    let tail = args.subrange(k, args.len() as int);
    if i < args.len() {
        assert(tail[i - k] == args[i]);
        lemma_option_pairs_shift_from(args, k, i + 1);
        if i + 1 < args.len() {
            assert(tail[i - k + 1] == args[i + 1]);
            lemma_option_pairs_shift_from(args, k, i + 2);
        }
    }
}

/// The line that reports success.
pub fn ok_line() -> (r: String)
    ensures
        r@ == "{\"ok\":true}"@,
{
    "{\"ok\":true}".to_owned()
}

/// `true` or `false`, as JSON writes them.
pub open spec fn json_bool(b: bool) -> Seq<char> {
    if b {
        "true"@
    } else {
        "false"@
    }
}

fn push_json_bool(out: &mut String, b: bool)
    ensures
        final(out)@ == old(out)@ + json_bool(b),
{
    if b {
        out.append("true");
    } else {
        out.append("false");
    }
}

/// The line that `status` prints: whether a strategy is applied.
pub fn status_line(active: bool) -> (r: String)
    ensures
        r@ == "{\"active\":"@ + json_bool(active) + "}"@,
{
    let mut s = "{\"active\":".to_owned();
    push_json_bool(&mut s, active);
    s.append("}");
    s
}

/// The line that `service-status` prints: whether the always-on service is
/// enabled and whether it runs.
pub fn service_status_line(enabled: bool, active: bool) -> (r: String)
    ensures
        r@ == "{\"enabled\":"@ + json_bool(enabled) + ",\"active\":"@ + json_bool(active) + "}"@,
{
    let mut s = "{\"enabled\":".to_owned();
    push_json_bool(&mut s, enabled);
    s.append(",\"active\":");
    push_json_bool(&mut s, active);
    s.append("}");
    s
}

} // verus!
