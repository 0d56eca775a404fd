//! What is settled before the proxy listens: the command line, the files, the address, and what
//! the configuration amounts to.
use crate::config;
use crate::config::{GlobalView, ProxyConfig, ProxyConfigView, Rule, RuleView};
use crate::environment;
use crate::environment::Environment;
use crate::loading;
use crate::text;
use vstd::prelude::*;

verus! {

/// What the command line asks for.
#[derive(Debug)]
pub enum Command {
    Run { config: Option<String>, check_config: bool },
    Help,
    Invalid { message: String },
}

/// What a [`Command`] stands for.
pub enum CommandView {
    Run { config: Option<Seq<char>>, check_config: bool },
    Help,
    Invalid { message: Seq<char> },
}

impl View for Command {
    type V = CommandView;

    open spec fn view(&self) -> CommandView {
        match self {
            Command::Run { config, check_config } => CommandView::Run {
                config: text::opt_text(*config),
                check_config: *check_config,
            },
            Command::Help => CommandView::Help,
            Command::Invalid { message } => CommandView::Invalid { message: message@ },
        }
    }
}

/// What the arguments ask for, read one after the other; the first that is `--help` or cannot be
/// understood decides.
pub open spec fn command_of(
    args: Seq<Seq<char>>,
    config: Option<Seq<char>>,
    check_config: bool,
) -> CommandView
    decreases args.len(),
{
    if args.len() == 0 {
        CommandView::Run { config, check_config }
    } else if args[0] == "--check-config"@ {
        command_of(args.skip(1), config, true)
    } else if args[0] == "--config"@ {
        if args.len() < 2 {
            CommandView::Invalid { message: "--config requires a path argument"@ }
        } else {
            command_of(args.skip(2), Some(args[1]), check_config)
        }
    } else if args[0] == "--help"@ || args[0] == "-h"@ {
        CommandView::Help
    } else {
        CommandView::Invalid { message: "unknown argument: "@ + args[0] }
    }
}

/// What the arguments, without the name of the program, ask for.
pub fn parse_arguments(args: &Vec<String>) -> (r: Command)
    ensures
        r@ == command_of(text::strings(args@), None, false),
{
    let ghost all = text::strings(args@);
    let mut file: Option<String> = None;
    let mut check = false;
    let mut i: usize = 0;
    assert(all.skip(0) =~= all);
    while i < args.len()
        invariant
            i <= args@.len(),
            all == text::strings(args@),
            command_of(all, None, false) == command_of(
                all.skip(i as int),
                text::opt_text(file),
                check,
            ),
        decreases args@.len() - i,
    {
        let arg = args[i].as_str();
        let ghost rest = all.skip(i as int);
        assert(rest[0] == arg@);
        assert(rest.skip(1) =~= all.skip(i + 1));
        if text::same(arg, "--check-config") {
            check = true;
        } else if text::same(arg, "--config") {
            i += 1;
            if i >= args.len() {
                return Command::Invalid {
                    message: "--config requires a path argument".to_string(),
                };
            }
            assert(rest[1] == args@[i as int]@);
            assert(rest.skip(2) =~= all.skip(i + 1));
            file = Some(args[i].clone());
        } else if text::same(arg, "--help") || text::same(arg, "-h") {
            return Command::Help;
        } else {
            let mut message = "unknown argument: ".to_string();
            message.append(arg);
            return Command::Invalid { message };
        }
        i += 1;
    }
    Command::Run { config: file, check_config: check }
}

/// The configuration file to read: the one that the command line names, else that of the
/// environment, else `config.yaml` where it exists.
pub open spec fn config_file(
    explicit: Option<Seq<char>>,
    env: Seq<(Seq<char>, Seq<char>)>,
    default_exists: bool,
) -> Option<Seq<char>> {
    if explicit is Some {
        explicit
    } else if environment::env_value(env, "DOCKER_PROXY_CONFIG"@) is Some {
        environment::env_value(env, "DOCKER_PROXY_CONFIG"@)
    } else if default_exists {
        Some("config.yaml"@)
    } else {
        None
    }
}

/// The configuration file to read.
pub fn choose_config_file(explicit: &Option<String>, env: &Environment, default_exists: bool) -> (r:
    Option<String>)
    ensures
        text::opt_text(r) == config_file(text::opt_text(*explicit), env@, default_exists),
{
    if let Some(p) = explicit {
        return Some(p.clone());
    }
    if let Some(p) = env.get("DOCKER_PROXY_CONFIG") {
        return Some(p);
    }
    if default_exists {
        Some("config.yaml".to_string())
    } else {
        None
    }
}

/// The file to read again on a hangup signal: the one that the command line or the environment
/// names. A `config.yaml` that was only found is not read again.
pub fn choose_reload_file(explicit: &Option<String>, env: &Environment) -> (r: Option<String>)
    ensures
        text::opt_text(r) == config_file(text::opt_text(*explicit), env@, false),
{
    choose_config_file(explicit, env, false)
}

/// The proxy's own log events of the configured level, which is `info` where the configuration
/// gives none.
pub open spec fn configured_filter(c: ProxyConfigView) -> Seq<char> {
    "docker_proxy="@ + (match c.global {
        Some(g) => match g.log_level {
            Some(l) => l,
            None => "info"@,
        },
        None => "info"@,
    })
}

/// Which log events are shown: what `RUST_LOG` says where it is set and not empty, else those of
/// the configured level.
pub open spec fn log_filter(c: ProxyConfigView, env: Seq<(Seq<char>, Seq<char>)>) -> Seq<char> {
    match environment::env_value(env, "RUST_LOG"@) {
        Some(v) => if v.len() > 0 {
            v
        } else {
            configured_filter(c)
        },
        None => configured_filter(c),
    }
}

/// The proxy's own log events of the configured level.
pub fn configured_log_filter(config: &ProxyConfig) -> (r: String)
    ensures
        r@ == configured_filter(config@),
{
    let mut out = "docker_proxy=".to_string();
    match &config.global {
        Some(g) => match &g.log_level {
            Some(l) => out.append(l.as_str()),
            None => out.append("info"),
        },
        None => out.append("info"),
    }
    out
}

/// Which log events are shown.
pub fn choose_log_filter(config: &ProxyConfig, env: &Environment) -> (r: String)
    ensures
        r@ == log_filter(config@, env@),
{
    if let Some(v) = env.get("RUST_LOG") {
        if !v.as_str().is_empty() {
            return v;
        }
    }
    configured_log_filter(config)
}

/// Where Docker's socket is looked for when nobody names it.
pub open spec fn usual_sockets(macos: bool, home: Option<Seq<char>>) -> Seq<Seq<char>> {
    if macos {
        let h = match home {
            Some(x) => x,
            None => "/tmp"@,
        };
        seq![
            h + "/.docker/run/docker.sock"@,
            "/var/run/docker.sock"@,
            h + "/.docker/desktop/docker.sock"@,
        ]
    } else {
        seq!["/var/run/docker.sock"@, "/run/docker.sock"@]
    }
}

/// Where Docker's socket is looked for: where the configuration says, where `DOCKER_SOCKET` says,
/// and in the usual places, in this order.
pub open spec fn socket_places(
    c: ProxyConfigView,
    env: Seq<(Seq<char>, Seq<char>)>,
    macos: bool,
) -> Seq<Seq<char>> {
    let configured = match c.global {
        Some(g) => match g.socket {
            Some(s) => seq![s],
            None => Seq::empty(),
        },
        None => Seq::empty(),
    };
    let named = match environment::env_value(env, "DOCKER_SOCKET"@) {
        Some(s) => seq![s],
        None => Seq::empty(),
    };
    configured + named + usual_sockets(macos, environment::env_value(env, "HOME"@))
}

fn add_usual_sockets(out: &mut Vec<String>, macos: bool, home: Option<String>)
    ensures
        text::strings(final(out)@) == text::strings(old(out)@) + usual_sockets(
            macos,
            text::opt_text(home),
        ),
{
    let ghost before = text::strings(out@);
    let ghost given = text::opt_text(home);
    if macos {
        let h = match home {
            Some(x) => x,
            None => "/tmp".to_string(),
        };
        let mut run = h.clone();
        run.append("/.docker/run/docker.sock");
        let mut desktop = h;
        desktop.append("/.docker/desktop/docker.sock");
        out.push(run);
        out.push("/var/run/docker.sock".to_string());
        out.push(desktop);
    } else {
        out.push("/var/run/docker.sock".to_string());
        out.push("/run/docker.sock".to_string());
    }
    assert(text::strings(out@) =~= before + usual_sockets(macos, given));
}

/// Where Docker's socket is looked for, in order.
pub fn list_socket_places(config: &ProxyConfig, env: &Environment, macos: bool) -> (r: Vec<String>)
    ensures
        text::strings(r@) == socket_places(config@, env@, macos),
{
    let mut out: Vec<String> = Vec::new();
    if let Some(g) = &config.global {
        if let Some(s) = &g.socket {
            out.push(s.clone());
        }
    }
    let ghost configured = text::strings(out@);
    if let Some(s) = env.get("DOCKER_SOCKET") {
        out.push(s);
    }
    let ghost named = text::strings(out@);
    add_usual_sockets(&mut out, macos, env.get("HOME"));
    proof {
        let c0 = match config@.global {
            Some(g) => match g.socket {
                Some(s) => seq![s],
                None => Seq::empty(),
            },
            None => Seq::empty(),
        };
        assert(configured =~= c0);
        let n0 = match environment::env_value(env@, "DOCKER_SOCKET"@) {
            Some(s) => seq![s],
            None => Seq::empty(),
        };
        assert(named =~= c0 + n0);
    }
    out
}

/// The first place at which there is a socket.
pub fn first_existing(exists: &Vec<bool>) -> (r: Option<usize>)
    ensures
        match r {
            Some(i) => i < exists@.len() && exists@[i as int] && forall|j: int|
                0 <= j < i ==> !#[trigger] exists@[j],
            None => forall|j: int| 0 <= j < exists@.len() ==> !#[trigger] exists@[j],
        },
{
    let mut i: usize = 0;
    while i < exists.len()
        invariant
            i <= exists@.len(),
            forall|j: int| 0 <= j < i ==> !#[trigger] exists@[j],
        decreases exists@.len() - i,
    {
        if exists[i] {
            return Some(i);
        }
        i += 1;
    }
    None
}

/// The port to listen on.
pub open spec fn listen_port(c: ProxyConfigView, env: Seq<(Seq<char>, Seq<char>)>) -> u16 {
    let configured = match c.global {
        Some(g) => g.port,
        None => None,
    };
    match configured {
        Some(p) => p,
        None => match loading::env_port(env) {
            Some(p) => p,
            None => 2376,
        },
    }
}

/// The host to listen on.
pub open spec fn listen_host(c: ProxyConfigView) -> Seq<char> {
    let configured = match c.global {
        Some(g) => g.bind,
        None => None,
    };
    match configured {
        Some(h) => h,
        None => "127.0.0.1"@,
    }
}

/// Whether TLS is configured.
pub open spec fn has_tls(c: ProxyConfigView) -> bool {
    match c.global {
        Some(g) => g.tls is Some,
        None => false,
    }
}

/// Whether tokens would cross a network in the clear: the host is not this one, and there is no
/// TLS.
pub open spec fn is_exposed(c: ProxyConfigView) -> bool {
    listen_host(c) != "127.0.0.1"@ && listen_host(c) != "localhost"@ && !has_tls(c)
}

/// Where to listen, and whether that exposes tokens.
#[derive(Debug)]
pub struct ListenPlan {
    pub host: String,
    pub address: String,
    pub exposed: bool,
}

/// Settles where to listen.
pub fn plan_listener(config: &ProxyConfig, env: &Environment) -> (r: ListenPlan)
    ensures
        r.host@ == listen_host(config@),
        r.address@ == listen_host(config@) + ":"@ + text::decimal(
            listen_port(config@, env@) as nat,
        ),
        r.exposed == is_exposed(config@),
{
    let configured: Option<u16> = match &config.global {
        Some(g) => g.port,
        None => None,
    };
    let port: u16 = match configured {
        Some(p) => p,
        None => match env.get("DOCKER_PROXY_PORT") {
            Some(v) => match text::parse_number(text::chars_of(v.as_str()).as_slice(), 65535) {
                Some(p) => p as u16,
                None => 2376,
            },
            None => 2376,
        },
    };
    let (host, tls) = match &config.global {
        Some(g) => (
            match &g.bind {
                Some(h) => h.clone(),
                None => "127.0.0.1".to_string(),
            },
            g.tls.is_some(),
        ),
        None => ("127.0.0.1".to_string(), false),
    };
    let exposed = !text::same(host.as_str(), "127.0.0.1") && !text::same(host.as_str(), "localhost")
        && !tls;
    let mut address = host.clone();
    address.append(":");
    address.append(text::decimal_text(port as u128).as_str());
    ListenPlan { host, address, exposed }
}

/// Whether a secret of the environment is set for nothing: authentication is switched off.
pub fn secret_is_ignored(config: &ProxyConfig, env_secret: &str) -> (r: bool)
    ensures
        r == (env_secret@.len() > 0 && loading::auth_is_off(config@.auth)),
{
    let off = match &config.auth {
        Some(a) => loading::opt_is(&a.auth_type, "none"),
        None => false,
    };
    !env_secret.is_empty() && off
}

/// A line with a value.
pub open spec fn line(label: Seq<char>, value: Seq<char>) -> Seq<char> {
    label + value + "\n"@
}

/// An optional line with a value.
pub open spec fn opt_line(label: Seq<char>, value: Option<Seq<char>>) -> Seq<char> {
    match value {
        Some(v) => line(label, v),
        None => Seq::empty(),
    }
}

/// A value, or what stands for none.
pub open spec fn or_else(o: Option<Seq<char>>, none: Seq<char>) -> Seq<char> {
    match o {
        Some(s) => s,
        None => none,
    }
}

/// The lines of the global settings.
pub open spec fn global_lines(g: GlobalView) -> Seq<char> {
    line(
        "port: "@,
        text::decimal(
            match g.port {
                Some(p) => p as nat,
                None => 2376,
            },
        ),
    ) + opt_line("socket: "@, g.socket) + opt_line("log_format: "@, g.log_format) + (match g.tls {
        Some(t) => "tls: cert="@ + t.cert + ", key="@ + t.key + ", client_ca="@ + or_else(
            t.client_ca,
            "(none)"@,
        ) + "\n"@,
        None => Seq::empty(),
    }) + (match g.metrics {
        Some(m) => "metrics: enabled="@ + text::bool_chars(m.enabled == Some(true)) + ", path="@
            + or_else(m.path, "/metrics"@) + "\n"@,
        None => Seq::empty(),
    })
}

/// The lines of the authentication settings.
pub open spec fn auth_lines(a: config::AuthView) -> Seq<char> {
    line("auth.type: "@, or_else(a.auth_type, "(unset)"@)) + (match a.tokens {
        Some(v) => "auth.tokens: "@ + text::decimal(v.len()) + " configured\n"@,
        None => Seq::empty(),
    })
}

/// The line of a rule.
pub open spec fn rule_line(number: nat, r: RuleView) -> Seq<char> {
    "  "@ + text::decimal(number) + ". "@ + r.name + " [priority="@ + text::decimal(
        loading::priority_of(r) as nat,
    ) + ", action="@ + r.action + (if r.dry_run == Some(true) {
        ", dry_run"@
    } else {
        Seq::empty()
    }) + "]\n"@
}

/// The lines of the rules.
pub open spec fn rule_lines(v: Seq<RuleView>) -> Seq<char>
    decreases v.len(),
{
    if v.len() == 0 {
        Seq::empty()
    } else {
        rule_lines(v.drop_last()) + rule_line(v.len(), v.last())
    }
}

/// What a configuration amounts to, for people to read.
pub open spec fn effective_rules(c: ProxyConfigView) -> Seq<char> {
    "# Effective configuration\n\n"@ + (match c.global {
        Some(g) => global_lines(g),
        None => Seq::empty(),
    }) + (match c.auth {
        Some(a) => auth_lines(a),
        None => Seq::empty(),
    }) + "\nrules (after priority sort):\n"@ + (match c.rules {
        Some(v) => rule_lines(v),
        None => "  (no rules configured)\n"@,
    })
}

fn write_line(out: &mut String, label: &str, value: &str)
    ensures
        final(out)@ == old(out)@ + line(label@, value@),
{
    let mut l = label.to_string();
    l.append(value);
    l.append("\n");
    out.append(l.as_str());
}

fn write_opt_line(out: &mut String, label: &str, value: &Option<String>)
    ensures
        final(out)@ == old(out)@ + opt_line(label@, text::opt_text(*value)),
{
    if let Some(v) = value {
        write_line(out, label, v.as_str());
    } else {
        assert(out@ + Seq::<char>::empty() =~= out@);
    }
}

fn value_or<'a>(o: &'a Option<String>, none: &'a str) -> (r: &'a str)
    ensures
        r@ == or_else(text::opt_text(*o), none@),
{
    match o {
        Some(s) => s.as_str(),
        None => none,
    }
}

fn render_global(g: &config::GlobalConfig) -> (r: String)
    ensures
        r@ == global_lines(g@),
{
    let mut out = String::new();
    let port: u16 = match g.port {
        Some(p) => p,
        None => 2376,
    };
    write_line(&mut out, "port: ", text::decimal_text(port as u128).as_str());
    assert(out@ =~= line("port: "@, text::decimal(port as nat)));
    write_opt_line(&mut out, "socket: ", &g.socket);
    write_opt_line(&mut out, "log_format: ", &g.log_format);
    let mut tls = String::new();
    if let Some(t) = &g.tls {
        tls = "tls: cert=".to_string();
        tls.append(t.cert.as_str());
        tls.append(", key=");
        tls.append(t.key.as_str());
        tls.append(", client_ca=");
        tls.append(value_or(&t.client_ca, "(none)"));
        tls.append("\n");
    }
    out.append(tls.as_str());
    let mut shown = String::new();
    if let Some(m) = &g.metrics {
        let on = match m.enabled {
            Some(b) => b,
            None => false,
        };
        shown = "metrics: enabled=".to_string();
        shown.append(text::bool_text(on).as_str());
        shown.append(", path=");
        shown.append(value_or(&m.path, "/metrics"));
        shown.append("\n");
    }
    out.append(shown.as_str());
    out
}

fn render_auth(a: &config::AuthConfig) -> (r: String)
    ensures
        r@ == auth_lines(a@),
{
    let mut out = String::new();
    write_line(&mut out, "auth.type: ", value_or(&a.auth_type, "(unset)"));
    assert(out@ =~= line("auth.type: "@, or_else(text::opt_text(a.auth_type), "(unset)"@)));
    let mut tokens = String::new();
    if let Some(v) = &a.tokens {
        tokens = "auth.tokens: ".to_string();
        tokens.append(text::decimal_text(v.len() as u128).as_str());
        tokens.append(" configured\n");
    }
    out.append(tokens.as_str());
    out
}

fn render_rules(v: &Vec<Rule>) -> (r: String)
    ensures
        r@ == rule_lines(config::rule_list(v@)),
{
    let ghost list = config::rule_list(v@);
    let mut out = String::new();
    let mut i: usize = 0;
    while i < v.len()
        invariant
            i <= v@.len(),
            list == config::rule_list(v@),
            out@ == rule_lines(list.take(i as int)),
        decreases v@.len() - i,
    {
        let r = &v[i];
        assert(list.take(i + 1).drop_last() =~= list.take(i as int));
        assert(list.take(i + 1).last() == v@[i as int]@);
        let mut l = "  ".to_string();
        l.append(text::decimal_text(i as u128 + 1).as_str());
        l.append(". ");
        l.append(r.name.as_str());
        l.append(" [priority=");
        let p: u32 = match r.priority {
            Some(p) => p,
            None => 0,
        };
        l.append(text::decimal_text(p as u128).as_str());
        l.append(", action=");
        l.append(r.action.as_str());
        let watching = match r.dry_run {
            Some(b) => b,
            None => false,
        };
        if watching {
            l.append(", dry_run");
        } else {
            assert(l@ + Seq::<char>::empty() =~= l@);
        }
        l.append("]\n");
        out.append(l.as_str());
        i += 1;
    }
    assert(list.take(i as int) =~= list);
    out
}

/// What a configuration amounts to, for people to read.
pub fn render_effective_rules(config: &ProxyConfig) -> (r: String)
    ensures
        r@ == effective_rules(config@),
{
    let mut out = "# Effective configuration\n\n".to_string();
    let global = match &config.global {
        Some(g) => render_global(g),
        None => String::new(),
    };
    out.append(global.as_str());
    let auth = match &config.auth {
        Some(a) => render_auth(a),
        None => String::new(),
    };
    out.append(auth.as_str());
    out.append("\nrules (after priority sort):\n");
    let rules = match &config.rules {
        Some(v) => render_rules(v),
        None => "  (no rules configured)\n".to_string(),
    };
    out.append(rules.as_str());
    out
}

/// What is said once the proxy listens.
pub fn listening_message(address: &str, tls: bool, rules: usize, log_format: &str) -> (r: String)
    ensures
        r@ == "docker-proxy listening on "@ + address@ + " ("@ + (if tls {
            "TLS, "@
        } else {
            Seq::empty()
        }) + text::decimal(rules as nat) + " rule"@ + (if rules == 1 {
            Seq::empty()
        } else {
            "s"@
        }) + ", log_format="@ + log_format@ + ")"@,
{
    let mut out = "docker-proxy listening on ".to_string();
    out.append(address);
    out.append(" (");
    if tls {
        out.append("TLS, ");
    } else {
        assert(out@ + Seq::<char>::empty() =~= out@);
    }
    out.append(text::decimal_text(rules as u128).as_str());
    out.append(" rule");
    if rules != 1 {
        out.append("s");
    } else {
        assert(out@ + Seq::<char>::empty() =~= out@);
    }
    out.append(", log_format=");
    out.append(log_format);
    out.append(")");
    out
}

/// The command line names the file before the environment does, and the environment before the
/// current directory.
pub proof fn law_command_line_names_the_file_first(
    path: Seq<char>,
    env: Seq<(Seq<char>, Seq<char>)>,
    default_exists: bool,
)
    ensures
        config_file(Some(path), env, default_exists) == Some(path),
        environment::env_value(env, "DOCKER_PROXY_CONFIG"@) is Some ==> config_file(
            None,
            env,
            default_exists,
        ) == environment::env_value(env, "DOCKER_PROXY_CONFIG"@),
{
}

/// The command line is read argument by argument: `--check-config` sets the check, `--config` and
/// a path after it set the file, and of several paths the last counts; `--help` and `-h` ask for
/// help; anything else, and a `--config` without a path, is an error that says so. At its end
/// stands what was set.
pub proof fn law_arguments_are_read_in_order(
    rest: Seq<Seq<char>>,
    path: Seq<char>,
    other: Seq<char>,
    config: Option<Seq<char>>,
    check: bool,
)
    requires
        other != "--check-config"@ && other != "--config"@ && other != "--help"@ && other != "-h"@,
    ensures
        command_of(Seq::empty(), config, check) == (CommandView::Run {
            config,
            check_config: check,
        }),
        command_of(seq!["--check-config"@] + rest, config, check) == command_of(rest, config, true),
        command_of(seq!["--config"@, path] + rest, config, check) == command_of(
            rest,
            Some(path),
            check,
        ),
        command_of(seq!["--config"@], config, check) == (CommandView::Invalid {
            message: "--config requires a path argument"@,
        }),
        command_of(seq!["--help"@] + rest, config, check) == CommandView::Help,
        command_of(seq!["-h"@] + rest, config, check) == CommandView::Help,
        command_of(seq![other] + rest, config, check) == (CommandView::Invalid {
            message: "unknown argument: "@ + other,
        }),
{
    reveal_strlit("--check-config");
    reveal_strlit("--config");
    reveal_strlit("--help");
    reveal_strlit("-h");
    assert("--check-config"@.len() == 14 && "--config"@.len() == 8 && "--help"@.len() == 6
        && "-h"@.len() == 2);
    assert((seq!["--check-config"@] + rest).skip(1) =~= rest);
    assert((seq!["--check-config"@] + rest)[0] == "--check-config"@);
    assert((seq!["--config"@, path] + rest).skip(2) =~= rest);
    assert((seq!["--config"@, path] + rest)[0] == "--config"@);
    assert((seq!["--config"@, path] + rest)[1] == path);
    assert((seq!["--help"@] + rest)[0] == "--help"@);
    assert((seq!["-h"@] + rest)[0] == "-h"@);
    assert((seq![other] + rest)[0] == other);
}

/// Where neither the command line nor the environment names the configuration, it is `config.yaml`
/// where that exists, and else there is none.
pub proof fn law_default_configuration_file(env: Seq<(Seq<char>, Seq<char>)>)
    requires
        environment::env_value(env, "DOCKER_PROXY_CONFIG"@) is None,
    ensures
        config_file(None, env, true) == Some("config.yaml"@),
        config_file(None, env, false) is None,
{
}

/// What is logged: what `RUST_LOG` says where it says anything, else the proxy's own messages from
/// the level of the configuration on, or from `info` on.
pub proof fn law_filter_of_the_log(
    c: ProxyConfigView,
    env: Seq<(Seq<char>, Seq<char>)>,
    v: Seq<char>,
)
    ensures
        environment::env_value(env, "RUST_LOG"@) == Some(v) && v.len() > 0 ==> log_filter(c, env)
            == v,
        environment::env_value(env, "RUST_LOG"@) is None || environment::env_value(
            env,
            "RUST_LOG"@,
        )->0.len() == 0 ==> {
            &&& c.global is Some && c.global->0.log_level is Some ==> log_filter(c, env)
                == "docker_proxy="@ + c.global->0.log_level->0
            &&& c.global is None || c.global->0.log_level is None ==> log_filter(c, env)
                == "docker_proxy="@ + "info"@
        },
{
}

/// Where the socket of Docker is looked for, in this order: where the configuration says, where
/// `DOCKER_SOCKET` says, then in the usual places, which on macOS are in the home directory, or in
/// `/tmp` where that is not known, and round the one that all systems share.
pub proof fn law_places_of_the_socket(
    c: ProxyConfigView,
    env: Seq<(Seq<char>, Seq<char>)>,
    h: Seq<char>,
)
    ensures
        ({
            let configured = if c.global is Some && c.global->0.socket is Some {
                seq![c.global->0.socket->0]
            } else {
                Seq::empty()
            };
            let named = if environment::env_value(env, "DOCKER_SOCKET"@) is Some {
                seq![environment::env_value(env, "DOCKER_SOCKET"@)->0]
            } else {
                Seq::empty()
            };
            let home = environment::env_value(env, "HOME"@);
            &&& socket_places(c, env, false) == configured + named + seq![
                "/var/run/docker.sock"@,
                "/run/docker.sock"@,
            ]
            &&& home == Some(h) || (home is None && h == "/tmp"@) ==> socket_places(c, env, true)
                == configured + named + seq![
                h + "/.docker/run/docker.sock"@,
                "/var/run/docker.sock"@,
                h + "/.docker/desktop/docker.sock"@,
            ]
        }),
{
}

/// The proxy listens on the port of the configuration, else on that of the environment, else on
/// 2376; and at the address of the configuration, else at that of this machine alone.
pub proof fn law_address_to_listen_at(c: ProxyConfigView, env: Seq<(Seq<char>, Seq<char>)>)
    ensures
        c.global is Some && c.global->0.port is Some ==> listen_port(c, env) == c.global->0.port->0,
        (c.global is None || c.global->0.port is None) && loading::env_port(env) is Some
            ==> listen_port(c, env) == loading::env_port(env)->0,
        (c.global is None || c.global->0.port is None) && loading::env_port(env) is None
            ==> listen_port(c, env) == 2376,
        c.global is Some && c.global->0.bind is Some ==> listen_host(c) == c.global->0.bind->0,
        c.global is None || c.global->0.bind is None ==> listen_host(c) == "127.0.0.1"@,
{
}

/// The proxy is exposed exactly where it listens at another address than that of this machine, by
/// number or by name, and without TLS. In particular one that sets no address is not.
pub proof fn law_exposed_proxies(c: ProxyConfigView)
    ensures
        is_exposed(c) <==> c.global is Some && c.global->0.bind is Some && c.global->0.bind
            != Some("127.0.0.1"@) && c.global->0.bind != Some("localhost"@) && c.global->0.tls
            is None,
{
}

/// What is shown of a configuration: its port, or 2376; its socket and the format of its log where
/// they are set; its certificates, its metrics and its authentication where there are any, and of
/// tokens only their number.
pub proof fn law_shown_settings(g: GlobalView, a: config::AuthView)
    ensures
        ({
            let t = global_lines(g);
            &&& g.port is Some ==> text::begins_with(
                t,
                "port: "@ + text::decimal(g.port->0 as nat) + "\n"@,
            )
            &&& g.port is None ==> text::begins_with(t, "port: "@ + text::decimal(2376) + "\n"@)
            &&& g.socket is Some ==> text::contains_text(t, "socket: "@ + g.socket->0 + "\n"@)
            &&& g.log_format is Some ==> text::contains_text(
                t,
                "log_format: "@ + g.log_format->0 + "\n"@,
            )
            &&& g.tls is Some && g.tls->0.client_ca is Some ==> text::contains_text(
                t,
                "tls: cert="@ + g.tls->0.cert + ", key="@ + g.tls->0.key + ", client_ca="@
                    + g.tls->0.client_ca->0 + "\n"@,
            )
            &&& g.tls is Some && g.tls->0.client_ca is None ==> text::contains_text(
                t,
                "tls: cert="@ + g.tls->0.cert + ", key="@ + g.tls->0.key + ", client_ca="@
                    + "(none)"@ + "\n"@,
            )
            &&& g.metrics is Some ==> text::contains_text(
                t,
                "metrics: enabled="@ + (if g.metrics->0.enabled == Some(true) {
                    "true"@
                } else {
                    "false"@
                }) + ", path="@ + (if g.metrics->0.path is Some {
                    g.metrics->0.path->0
                } else {
                    "/metrics"@
                }) + "\n"@,
            )
        }),
        a.auth_type is Some ==> text::begins_with(
            auth_lines(a),
            "auth.type: "@ + a.auth_type->0 + "\n"@,
        ),
        a.auth_type is None ==> text::begins_with(
            auth_lines(a),
            "auth.type: "@ + "(unset)"@ + "\n"@,
        ),
        a.tokens is Some ==> text::finishes_with(
            auth_lines(a),
            "auth.tokens: "@ + text::decimal(a.tokens->0.len()) + " configured\n"@,
        ),
{
    assert forall|x: Seq<char>, y: Seq<char>, p: Seq<char>|
        #![trigger text::contains_text(x + y, p)]
        x == p || y == p || text::contains_text(x, p) || text::contains_text(y, p) implies
        text::contains_text(x + y, p) by {
        let none = Seq::<char>::empty();
        text::law_texts_contain_themselves(none, p, none);
        if x == p || text::contains_text(x, p) {
            text::law_longer_texts_contain_as_much(none, x, y, p);
        } else {
            text::law_longer_texts_contain_as_much(x, y, none, p);
        }
    }
    assert forall|x: Seq<char>, y: Seq<char>, p: Seq<char>|
        #![trigger text::begins_with(x + y, p)]
        x == p || text::begins_with(x, p) implies text::begins_with(x + y, p) by {
        assert((x + y).subrange(0, p.len() as int) =~= x.subrange(0, p.len() as int));
        assert(p.subrange(0, p.len() as int) =~= p);
    }
    if a.tokens is Some {
        let end = "auth.tokens: "@ + text::decimal(a.tokens->0.len()) + " configured\n"@;
        let all = auth_lines(a);
        assert(all.subrange(all.len() - end.len(), all.len() as int) =~= end);
    }
}

/// A rule is shown on a line of its own, by its place from 1 on, its name, its priority and its
/// action, and marked where it only watches; the lines of more rules come after it.
pub proof fn law_shown_rules(v: Seq<RuleView>, r: RuleView)
    ensures
        rule_lines(Seq::empty()) == Seq::<char>::empty(),
        rule_lines(v.push(r)) == rule_lines(v) + rule_line(v.len() + 1, r),
        ({
            let head = "  "@ + text::decimal(v.len() + 1) + ". "@ + r.name + " [priority="@
                + text::decimal(
                if r.priority is Some {
                    r.priority->0 as nat
                } else {
                    0
                },
            ) + ", action="@ + r.action;
            &&& r.dry_run == Some(true) ==> rule_line(v.len() + 1, r) == head + ", dry_run"@
                + "]\n"@
            &&& r.dry_run != Some(true) ==> rule_line(v.len() + 1, r) == head + "]\n"@
        }),
{
    assert(v.push(r).drop_last() =~= v);
    let head = "  "@ + text::decimal(v.len() + 1) + ". "@ + r.name + " [priority="@ + text::decimal(
        loading::priority_of(r) as nat,
    ) + ", action="@ + r.action;
    assert(head + Seq::<char>::empty() =~= head);
}

/// What is shown of the whole: a heading, the settings, the authentication and the rules, or that
/// there are none.
pub proof fn law_shown_configuration(c: ProxyConfigView)
    ensures
        ({
            let settings = if c.global is Some {
                global_lines(c.global->0)
            } else {
                Seq::empty()
            };
            let auth = if c.auth is Some {
                auth_lines(c.auth->0)
            } else {
                Seq::empty()
            };
            let head = "# Effective configuration\n\n"@ + settings + auth
                + "\nrules (after priority sort):\n"@;
            &&& c.rules is Some ==> effective_rules(c) == head + rule_lines(c.rules->0)
            &&& c.rules is None ==> effective_rules(c) == head + "  (no rules configured)\n"@
        }),
{
}

/// What a command stands for, field by field.
pub proof fn law_what_a_command_stands_for(c: Command)
    ensures
        c is Run ==> c@ is Run && c@->config == text::opt_text(c->config) && c@->check_config
            == c->check_config,
        c is Help ==> c@ is Help,
        c is Invalid ==> c@ is Invalid && c@->message == c->message@,
{
}

} // verus!
