//! Session configuration and command line. The session requires an explicit
//! backend choice: an absent choice is an error, never an implicit preference.

use crate::backend_api::BackendKind;
use crate::config::ConfigError;
use crate::text::{has_prefix, str_eq, strip_prefix};
use vstd::prelude::*;

verus! {

pub const SESSION_CONFIG_SCHEMA: u32 = 1;

/// Session settings kept in the session configuration file.
#[derive(Clone, Copy, Debug, PartialEq, Eq)]
pub struct SessionConfig {
    /// Backend requested for this session. No fallback is inferred when absent.
    pub backend: Option<BackendKind>,
}

impl Default for SessionConfig {
    fn default() -> (r: Self)
        ensures
            r.backend is None,
    {
        SessionConfig { backend: None }
    }
}

#[derive(Clone, Debug, PartialEq, Eq)]
pub enum SessionConfigError {
    BackendRequired,
    InvalidBackend(String),
    Store(ConfigError),
}

/// The backend chosen for a session: the command line wins over the file,
/// and with neither there is no backend.
pub open spec fn chosen_backend(cli: Option<BackendKind>, configured: Option<BackendKind>) -> Option<
    BackendKind,
> {
    match cli {
        Some(b) => Some(b),
        None => configured,
    }
}

impl SessionConfig {
    pub fn resolve_backend(&self, cli_backend: Option<BackendKind>) -> (r: Result<
        BackendKind,
        SessionConfigError,
    >)
        ensures
            chosen_backend(cli_backend, self.backend) matches Some(b) ==> r == Ok::<
                BackendKind,
                SessionConfigError,
            >(b),
            chosen_backend(cli_backend, self.backend) is None ==> r == Err::<
                BackendKind,
                SessionConfigError,
            >(SessionConfigError::BackendRequired),
    {
        match cli_backend {
            Some(b) => Ok(b),
            None => match self.backend {
                Some(b) => Ok(b),
                None => Err(SessionConfigError::BackendRequired),
            },
        }
    }
}

/// The backend a name stands for: exactly `x11` or `wayland`.
pub open spec fn backend_named(value: Seq<char>) -> Option<BackendKind> {
    if value == "x11"@ {
        Some(BackendKind::X11)
    } else if value == "wayland"@ {
        Some(BackendKind::Wayland)
    } else {
        None
    }
}

pub fn parse_backend(value: &str) -> (r: Result<BackendKind, SessionConfigError>)
    ensures
        backend_named(value@) matches Some(b) ==> r == Ok::<BackendKind, SessionConfigError>(b),
        backend_named(value@) is None ==> (r matches Err(SessionConfigError::InvalidBackend(v))
            && v@ == value@),
{
    if str_eq(value, "x11") {
        Ok(BackendKind::X11)
    } else if str_eq(value, "wayland") {
        Ok(BackendKind::Wayland)
    } else {
        Err(SessionConfigError::InvalidBackend(value.to_owned()))
    }
}

/// The name of a backend, as written on the command line and in files.
pub fn backend_name(backend: BackendKind) -> (r: &'static str)
    ensures
        backend_named(r@) == Some(backend),
{
    match backend {
        BackendKind::X11 => "x11",
        BackendKind::Wayland => {
            proof {
                reveal_strlit("x11");
                reveal_strlit("wayland");
                assert("wayland"@.len() != "x11"@.len());
            }
            "wayland"
        },
    }
}

/// A file name placed inside a directory, as a path join does it.
pub open spec fn joined(dir: Seq<char>, name: Seq<char>) -> Seq<char> {
    if dir.len() == 0 {
        name
    } else if dir.last() == '/' {
        dir + name
    } else {
        dir + seq!['/'] + name
    }
}

/// Appends a relative file name to a directory path.
pub fn join_path(dir: &str, name: &str) -> (r: String)
    ensures
        r@ == joined(dir@, name@),
{
    let n = dir.unicode_len();
    if n == 0 {
        return name.to_owned();
    }
    if dir.get_char(n - 1) == '/' {
        dir.to_owned().concat(name)
    } else {
        proof {
            reveal_strlit("/");
            assert("/"@ =~= seq!['/']);
        }
        dir.to_owned().concat("/").concat(name)
    }
}

pub fn default_config_path(config_dir: &str) -> (r: String)
    ensures
        r@ == joined(config_dir@, "session.toml"@),
{
    join_path(config_dir, "session.toml")
}

/// What the command line asked for.
#[derive(Clone, Debug, PartialEq, Eq)]
pub struct Cli {
    pub backend: Option<BackendKind>,
    pub config: Option<String>,
    pub check: bool,
    pub help: bool,
}

impl Default for Cli {
    fn default() -> (r: Self)
        ensures
            r.backend is None,
            r.config is None,
            !r.check,
            !r.help,
    {
        Cli { backend: None, config: None, check: false, help: false }
    }
}

/// The command line as plain values: backend, configuration path, check and
/// help flags.
pub type CliView = (Option<BackendKind>, Option<Seq<char>>, bool, bool);

pub open spec fn cli_view(cli: Cli) -> CliView {
    (
        cli.backend,
        match cli.config {
            Some(c) => Some(c@),
            None => None,
        },
        cli.check,
        cli.help,
    )
}

pub open spec fn invalid_backend_text(value: Seq<char>) -> Seq<char> {
    "invalid backend '"@ + value + "'; expected 'x11' or 'wayland'"@
}

pub open spec fn unknown_argument_text(argument: Seq<char>) -> Seq<char> {
    "unknown argument '"@ + argument + "'"@
}

/// Reads the arguments from position `i` on, on top of what was read
/// before. Later occurrences of an option override earlier ones.
pub open spec fn parse_from(args: Seq<Seq<char>>, i: int, st: CliView) -> Result<CliView, Seq<char>>
    decreases args.len() - i,
{
    if i < 0 || i >= args.len() {
        Ok(st)
    } else {
        let a = args[i];
        if has_prefix(a, "--backend="@) {
            let v = a.skip("--backend="@.len() as int);
            match backend_named(v) {
                Some(b) => parse_from(args, i + 1, (Some(b), st.1, st.2, st.3)),
                None => Err(invalid_backend_text(v)),
            }
        } else if a == "--backend"@ {
            if i + 1 >= args.len() {
                Err("--backend requires x11 or wayland"@)
            } else {
                let v = args[i + 1];
                match backend_named(v) {
                    Some(b) => parse_from(args, i + 2, (Some(b), st.1, st.2, st.3)),
                    None => Err(invalid_backend_text(v)),
                }
            }
        } else if has_prefix(a, "--config="@) {
            parse_from(args, i + 1, (st.0, Some(a.skip("--config="@.len() as int)), st.2, st.3))
        } else if a == "--config"@ {
            if i + 1 >= args.len() {
                Err("--config requires a path"@)
            } else {
                parse_from(args, i + 2, (st.0, Some(args[i + 1]), st.2, st.3))
            }
        } else if a == "--check"@ {
            parse_from(args, i + 1, (st.0, st.1, true, st.3))
        } else if a == "--help"@ || a == "-h"@ {
            parse_from(args, i + 1, (st.0, st.1, st.2, true))
        } else {
            Err(unknown_argument_text(a))
        }
    }
}

pub open spec fn arg_views(args: Seq<String>) -> Seq<Seq<char>> {
    args.map_values(|s: String| s@)
}

/// Parses the session command line (without the program name).
pub fn parse_cli(arguments: Vec<String>) -> (r: Result<Cli, String>)
    ensures
        parse_from(arg_views(arguments@), 0, (None, None, false, false)) matches Ok(v) ==> (
        r matches Ok(cli) && cli_view(cli) == v),
        parse_from(arg_views(arguments@), 0, (None, None, false, false)) matches Err(m) ==> (
        r matches Err(e) && e@ == m),
{
    let ghost args = arg_views(arguments@);
    let mut cli = Cli::default();
    let n = arguments.len();
    let mut i: usize = 0;
    while i < n
        invariant
            n == arguments@.len(),
            args == arg_views(arguments@),
            i <= n,
            parse_from(args, 0, (None, None, false, false)) == parse_from(args, i as int, cli_view(cli)),
        decreases n - i,
    {
        let argument = arguments[i].as_str();
        assert(argument@ == args[i as int]);
        match strip_prefix(argument, "--backend=") {
            Some(value) => {
                match parse_backend(value.as_str()) {
                    Ok(b) => {
                        cli.backend = Some(b);
                        i = i + 1;
                        continue;
                    },
                    Err(_) => {
                        return Err(invalid_backend_message(value.as_str()));
                    },
                }
            },
            None => {},
        }
        if str_eq(argument, "--backend") {
            if i + 1 >= n {
                return Err("--backend requires x11 or wayland".to_owned());
            }
            let value = arguments[i + 1].as_str();
            assert(value@ == args[i + 1]);
            match parse_backend(value) {
                Ok(b) => {
                    cli.backend = Some(b);
                    i = i + 2;
                    continue;
                },
                Err(_) => {
                    return Err(invalid_backend_message(value));
                },
            }
        }
        match strip_prefix(argument, "--config=") {
            Some(value) => {
                cli.config = Some(value);
                i = i + 1;
                continue;
            },
            None => {},
        }
        if str_eq(argument, "--config") {
            if i + 1 >= n {
                return Err("--config requires a path".to_owned());
            }
            let value = arguments[i + 1].clone();
            assert(value@ == args[i + 1]);
            cli.config = Some(value);
            i = i + 2;
            continue;
        }
        if str_eq(argument, "--check") {
            cli.check = true;
            i = i + 1;
            continue;
        }
        if str_eq(argument, "--help") || str_eq(argument, "-h") {
            cli.help = true;
            i = i + 1;
            continue;
        }
        return Err("unknown argument '".to_owned().concat(argument).concat("'"));
    }
    Ok(cli)
}

fn invalid_backend_message(value: &str) -> (r: String)
    ensures
        r@ == invalid_backend_text(value@),
{
    "invalid backend '".to_owned().concat(value).concat("'; expected 'x11' or 'wayland'")
}

} // verus!
