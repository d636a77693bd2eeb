//! Command-line arguments and what the program is to do with them.

use crate::client::{snippet_help, snippet_text};
use crate::control::{
    command_named, is_reply, law_commands_have_names, request_json, request_line, CommandModel,
    ErrorModel,
};
use crate::text::{decimal, decimal_value, law_decimal_reads_back, push_decimal, same_text};
use crate::validate::{
    bind_error, debounce_error, error_text, is_all_interfaces, max_connections_error, tls_error,
    validate_bind_exposure, validate_cmd_timeout_ms, validate_debounce_ms,
    validate_max_connections, validate_tls,
};
use vstd::prelude::*;
use vstd::string::*;

verus! {

/// The port of the metrics endpoint.
pub const METRICS_PORT: u16 = 9090;

/// Client-mode subcommands that contact a running instance.
#[derive(Debug, Clone)]
pub enum Subcommand {
    /// Force a reload.
    Reload,
    /// Query the status of loaded configs and the number of connections.
    Status,
    /// Show the latest diff of a file, or list all tracked files.
    Diff { path: Option<String> },
}

/// The command-line arguments.
#[derive(Debug, Clone)]
pub struct Args {
    /// Command template to run on changes.
    pub cmd_template: String,
    /// Debounce delay in milliseconds.
    pub debounce_ms: u64,
    /// WebSocket server port.
    pub port: u16,
    /// Do not run configured commands on startup.
    pub no_run_on_start: bool,
    /// Path to watch.
    pub path: String,
    /// Address to bind the WebSocket and control servers to.
    pub bind_addr: String,
    /// Allow binding to all interfaces.
    pub expose_network: bool,
    /// Print a snippet for embedding the client, and exit.
    pub print_snippet: bool,
    /// Maximum time to wait for a command, in milliseconds.
    pub cmd_timeout_ms: Option<u64>,
    /// Enable the diff store.
    pub diff: bool,
    /// Maximum file size (in bytes) the diff store will process.
    pub diff_max_file_size: usize,
    /// Optional TLS certificate path.
    pub tls_cert: Option<String>,
    /// Optional TLS key path.
    pub tls_key: Option<String>,
    /// Optional authentication token for the control socket.
    pub auth_token: Option<String>,
    /// Optional maximum number of concurrent WebSocket connections.
    pub max_connections: Option<u32>,
    /// Optional subcommand; without one, the server is run.
    pub subcmd: Option<Subcommand>,
}

/// What the program is to do.
#[derive(Debug)]
pub enum Startup {
    /// Print this text and exit.
    Print(String),
    /// Report this problem and exit.
    Fail(String),
    /// Send a request to the control socket of a running instance.
    Ask { control_addr: String, request: String },
    /// Run the server on these addresses.
    Serve { ws_addr: String, control_addr: String, metrics_addr: String },
}

/// An address and a port.
pub open spec fn address(host: Seq<char>, port: nat) -> Seq<char> {
    host + ":"@ + decimal(port)
}

/// The control socket is bound to the same address as the WebSocket server, on the port
/// after its port.
pub open spec fn control_address(bind: Seq<char>, port: u16) -> Seq<char> {
    address(bind, (port + 1) as nat)
}

/// The host on which a server that is bound to an address is reached from the local
/// machine: that address, or the local one for a server on all interfaces.
pub open spec fn local_host(bind: Seq<char>) -> Seq<char> {
    if bind == "0.0.0.0"@ {
        "127.0.0.1"@
    } else if bind == "::"@ {
        "::1"@
    } else {
        bind
    }
}

/// The message for a port without a successor.
pub open spec fn port_error(port: u16) -> Option<Seq<char>> {
    if port == u16::MAX {
        Some(
            "port value too high; control socket requires port + 1 but "@ + decimal(port as nat)
                + " + 1 overflows u16"@,
        )
    } else {
        None
    }
}

/// TLS settings are looked at only if there are any.
pub open spec fn optional_tls_error(cert: Option<String>, key: Option<String>) -> Option<Seq<char>> {
    if cert is Some || key is Some {
        tls_error(cert, key)
    } else {
        None
    }
}

/// The first of two messages that is there.
pub open spec fn first_error(a: Option<Seq<char>>, b: Option<Seq<char>>) -> Option<Seq<char>> {
    if a is Some {
        a
    } else {
        b
    }
}

/// What is wrong with the arguments, if anything.
pub open spec fn args_error(args: Args) -> Option<Seq<char>> {
    first_error(
        bind_error(args.bind_addr@, args.expose_network),
        first_error(
            debounce_error(args.debounce_ms),
            first_error(
                optional_tls_error(args.tls_cert, args.tls_key),
                first_error(
                    max_connections_error(args.max_connections),
                    port_error(args.port),
                ),
            ),
        ),
    )
}

/// The command that a subcommand sends, with its path.
pub open spec fn subcommand_request(sub: Subcommand) -> (Seq<char>, Option<Seq<char>>) {
    match sub {
        Subcommand::Reload => ("reload"@, None),
        Subcommand::Status => ("status"@, None),
        Subcommand::Diff { path } => match path {
            Some(p) => ("diff"@, Some(p@)),
            None => ("diffs"@, None),
        },
    }
}

/// An address and a port as text.
fn address_text(host: &str, port: u16) -> (r: String)
    ensures
        r@ == address(host@, port as nat),
{
    let mut r: String = host.to_owned();
    r.append(":");
    push_decimal(&mut r, port as u64);
    r
}

/// Checks the arguments.
pub fn check_args(args: &Args) -> (r: Result<(), String>)
    ensures
        error_text(r) == args_error(*args),
{
    match validate_bind_exposure(args.bind_addr.as_str(), args.expose_network) {
        Err(e) => return Err(e),
        Ok(()) => {},
    }
    match validate_debounce_ms(args.debounce_ms) {
        Err(e) => return Err(e),
        Ok(()) => {},
    }
    match validate_cmd_timeout_ms(args.cmd_timeout_ms) {
        Err(e) => return Err(e),
        Ok(()) => {},
    }
    if args.tls_cert.is_some() || args.tls_key.is_some() {
        match validate_tls(&args.tls_cert, &args.tls_key) {
            Err(e) => return Err(e),
            Ok(()) => {},
        }
    }
    match validate_max_connections(args.max_connections) {
        Err(e) => return Err(e),
        Ok(()) => {},
    }
    if args.port == u16::MAX {
        let mut msg: String =
            "port value too high; control socket requires port + 1 but ".to_owned();
        push_decimal(&mut msg, args.port as u64);
        msg.append(" + 1 overflows u16");
        return Err(msg);
    }
    Ok(())
}

/// The request line that a subcommand sends.
pub fn subcommand_line(sub: &Subcommand, token: Option<&str>) -> (r: String)
    ensures
        is_reply(
            r@,
            request_json(
                subcommand_request(*sub).0,
                subcommand_request(*sub).1,
                crate::control::slice_text(token),
            ),
        ),
{
    match sub {
        Subcommand::Reload => request_line("reload", None, token),
        Subcommand::Status => request_line("status", None, token),
        Subcommand::Diff { path } => match path {
            Some(p) => request_line("diff", Some(p.as_str()), token),
            None => request_line("diffs", None, token),
        },
    }
}

/// The host on which a server that is bound to `bind` is reached from the local
/// machine.
pub fn local_host_of(bind: &str) -> (r: String)
    ensures
        r@ == local_host(bind@),
{
    if same_text(bind, "0.0.0.0") {
        "127.0.0.1".to_owned()
    } else if same_text(bind, "::") {
        "::1".to_owned()
    } else {
        bind.to_owned()
    }
}

/// Decides what the program is to do.
///
/// Printing the snippet comes before anything else, so that it works with any
/// port.  Arguments that cannot work are reported.  A subcommand contacts a
/// running instance, and without one the server is run.
pub fn plan_startup(args: &Args) -> (s: Startup)
    ensures
        args.print_snippet ==> s is Print && s->Print_0@ == snippet_text(args.port),
        !args.print_snippet && args_error(*args) is Some ==> s is Fail && Some(s->Fail_0@)
            == args_error(*args),
        !args.print_snippet && args_error(*args) is None && args.subcmd is Some ==> {
            &&& s is Ask
            &&& s->Ask_control_addr@ == control_address(local_host(args.bind_addr@), args.port)
            &&& is_reply(
                s->request@,
                request_json(
                    subcommand_request(args.subcmd->0).0,
                    subcommand_request(args.subcmd->0).1,
                    crate::config::opt_text(args.auth_token),
                ),
            )
        },
        !args.print_snippet && args_error(*args) is None && args.subcmd is None ==> {
            &&& s is Serve
            &&& s->ws_addr@ == address(args.bind_addr@, args.port as nat)
            &&& s->Serve_control_addr@ == control_address(args.bind_addr@, args.port)
            &&& s->metrics_addr@ == address(args.bind_addr@, METRICS_PORT as nat)
        },
{
    if args.print_snippet {
        return Startup::Print(snippet_help(args.port));
    }
    match check_args(args) {
        Err(e) => return Startup::Fail(e),
        Ok(()) => {},
    }
    let control_port: u16 = args.port + 1;
    match &args.subcmd {
        Some(sub) => {
            let request: String = match &args.auth_token {
                Some(t) => subcommand_line(sub, Some(t.as_str())),
                None => subcommand_line(sub, None),
            };
            let host = local_host_of(args.bind_addr.as_str());
            Startup::Ask { control_addr: address_text(host.as_str(), control_port), request }
        },
        None => Startup::Serve {
            ws_addr: address_text(args.bind_addr.as_str(), args.port),
            control_addr: address_text(args.bind_addr.as_str(), control_port),
            metrics_addr: address_text(args.bind_addr.as_str(), METRICS_PORT),
        },
    }
}

/// A subcommand contacts the very address that a server with the same arguments has
/// its control socket on.  A server on all interfaces is contacted on the local machine.
pub proof fn law_subcommand_reaches_the_server(bind: Seq<char>, port: u16)
    ensures
        !is_all_interfaces(bind) ==> control_address(local_host(bind), port) == control_address(
            bind,
            port,
        ),
        is_all_interfaces(bind) ==> local_host(bind) == "127.0.0.1"@ || local_host(bind) == "::1"@,
{
}

/// An address is the host, a colon and the port in decimal notation.
pub proof fn law_address_names_host_and_port(host: Seq<char>, port: nat)
    ensures
        ({
            let n = host.len() as int;
            let a = address(host, port);
            &&& a.len() > n
            &&& a.take(n) == host
            &&& a[n] == ':'
            &&& decimal_value(a.skip(n + 1)) == port
            &&& a.skip(n + 1) == decimal(port)
        }),
{
    reveal_strlit(":");
    law_decimal_reads_back(port);
    let a = address(host, port);
    assert(a.take(host.len() as int) =~= host);
    assert(a.skip(host.len() as int + 1) =~= decimal(port));
}

/// The control socket has the port after that of the WebSocket server, on the same host.
pub proof fn law_control_port_follows(bind: Seq<char>, port: u16)
    ensures
        control_address(bind, port) == address(bind, port as nat + 1),
{
}

/// A server is reached on the host that it is bound to, and on the local one if it is bound to
/// all interfaces.
pub proof fn law_local_host(bind: Seq<char>)
    ensures
        bind == "0.0.0.0"@ ==> local_host(bind) == "127.0.0.1"@,
        bind == "::"@ ==> local_host(bind) == "::1"@,
        bind != "0.0.0.0"@ && bind != "::"@ ==> local_host(bind) == bind,
{
    reveal_strlit("0.0.0.0");
    reveal_strlit("::");
    assert("0.0.0.0"@.len() == 7 && "::"@.len() == 2);
}

/// Arguments are refused exactly if the bind address, the debounce delay, the TLS settings,
/// the limit on connections or the port cannot work, and the first of these is reported.  TLS
/// settings are looked at only if there are any.
pub proof fn law_arguments_that_cannot_work(args: Args)
    ensures
        ({
            let e = args_error(args);
            let bind = bind_error(args.bind_addr@, args.expose_network);
            let debounce = debounce_error(args.debounce_ms);
            let one_of_two = args.tls_cert is Some != args.tls_key is Some;
            let limit = max_connections_error(args.max_connections);
            &&& e is None <==> bind is None && args.debounce_ms > 0 && !one_of_two && (
            args.max_connections is None || args.max_connections->0 > 0) && args.port < 65535
            &&& bind is Some ==> e == bind
            &&& bind is None && args.debounce_ms == 0 ==> e == debounce
            &&& bind is None && args.debounce_ms > 0 && one_of_two ==> e == tls_error(
                args.tls_cert,
                args.tls_key,
            )
            &&& bind is None && args.debounce_ms > 0 && !one_of_two && limit is Some ==> e == limit
            &&& bind is None && args.debounce_ms > 0 && !one_of_two && limit is None && args.port
                == 65535 ==> e == Some(
                "port value too high; control socket requires port + 1 but "@ + decimal(65535)
                    + " + 1 overflows u16"@,
            )
        }),
{
}

/// What a subcommand sends is understood by the server as that command.
pub proof fn law_subcommand_is_understood(sub: Subcommand)
    ensures
        ({
            let (name, path) = subcommand_request(sub);
            command_named(name, path) == Ok::<CommandModel, ErrorModel>(
                match sub {
                    Subcommand::Reload => CommandModel::Reload,
                    Subcommand::Status => CommandModel::Status,
                    Subcommand::Diff { path: Some(p) } => CommandModel::Diff(Some(p@)),
                    Subcommand::Diff { path: None } => CommandModel::Diffs,
                },
            )
        }),
{
    let (name, path) = subcommand_request(sub);
    law_commands_have_names(name, path);
}

} // verus!
