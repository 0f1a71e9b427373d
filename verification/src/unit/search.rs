//! Unit search paths for user-mode operation.
//!
//! Order mirrors `systemd --user`: per-user runtime/state, then user config,
//! then admin user config (`/etc/systemd/user`), then vendor defaults
//! (`/usr/local/lib/systemd/user`, `/usr/lib/systemd/user`).
//!
//! Unit lookup walks paths in order; the first hit wins for the *main*
//! fragment, with all `<name>.<kind>.d/*.conf` drop-ins stacked on top
//! across the entire search path.
//!
//! The environment is read by the caller, who hands over the values of the
//! variables and the home directory.

use crate::paths;
use crate::paths::join;
use crate::text;
use vstd::prelude::*;

verus! {

/// A directory of the XDG scheme: the variable where it is set, else the
/// default below the home directory.
pub open spec fn xdg_dir(
    var: Option<Seq<char>>,
    home: Option<Seq<char>>,
    default: Seq<char>,
) -> Option<Seq<char>> {
    match (var, home) {
        (Some(v), _) => Some(v),
        (None, Some(h)) => Some(paths::joined(h, default)),
        (None, None) => None,
    }
}

fn xdg(var: &Option<String>, home: &Option<String>, default: &str) -> (r: Option<String>)
    ensures
        text::opt_text(r) == xdg_dir(text::opt_text(*var), text::opt_text(*home), default@),
{
    if let Some(v) = var {
        return Some(v.clone());
    }
    match home {
        Some(h) => Some(join(h.as_str(), default)),
        None => None,
    }
}

/// A path below a directory, where there is one.
pub open spec fn below(dir: Option<Seq<char>>, path: Seq<char>) -> Option<Seq<char>> {
    match dir {
        Some(d) => Some(paths::joined(d, path)),
        None => None,
    }
}

/// `$XDG_CONFIG_HOME` or `~/.config`, in that order, on every platform.
pub fn xdg_config_home(var: &Option<String>, home: &Option<String>) -> (r: Option<String>)
    ensures
        text::opt_text(r) == xdg_dir(text::opt_text(*var), text::opt_text(*home), ".config"@),
{
    xdg(var, home, ".config")
}

/// `$XDG_STATE_HOME` or `~/.local/state`.
pub fn state_dir(var: &Option<String>, home: &Option<String>) -> (r: Option<String>)
    ensures
        text::opt_text(r) == xdg_dir(text::opt_text(*var), text::opt_text(*home), ".local/state"@),
{
    xdg(var, home, ".local/state")
}

/// `<state_dir>/systeml`.
pub fn systeml_state_dir(var: &Option<String>, home: &Option<String>) -> (r: Option<String>)
    ensures
        text::opt_text(r) == below(
            xdg_dir(text::opt_text(*var), text::opt_text(*home), ".local/state"@),
            "systeml"@,
        ),
{
    match state_dir(var, home) {
        Some(d) => Some(join(d.as_str(), "systeml")),
        None => None,
    }
}

/// The directory where `enable` writes its symlinks:
/// `$XDG_CONFIG_HOME/systemd/user`.
pub fn user_config_dir(var: &Option<String>, home: &Option<String>) -> (r: Option<String>)
    ensures
        text::opt_text(r) == below(
            xdg_dir(text::opt_text(*var), text::opt_text(*home), ".config"@),
            "systemd/user"@,
        ),
{
    match xdg_config_home(var, home) {
        Some(d) => Some(join(d.as_str(), "systemd/user")),
        None => None,
    }
}

/// Some paths below a directory; none where there is no directory.
pub open spec fn all_below(dir: Option<Seq<char>>, ps: Seq<Seq<char>>) -> Seq<Seq<char>> {
    match dir {
        Some(d) => ps.map_values(|p: Seq<char>| paths::joined(d, p)),
        None => seq![],
    }
}

/// The search paths in priority order, given the runtime directory and the
/// configuration directory.
pub open spec fn search_paths(rt: Option<Seq<char>>, cfg: Option<Seq<char>>) -> Seq<Seq<char>> {
    all_below(
        rt,
        seq![
            "systeml/user.control"@,
            "systemd/user.control"@,
            "systemd/transient"@,
            "systemd/generator.early"@,
        ],
    ) + all_below(cfg, seq!["systemd/user"@]) + all_below(rt, seq!["systemd/generator"@]) + seq![
        "/etc/systemd/user"@,
    ] + all_below(rt, seq!["systemd/user"@, "systemd/generator.late"@]) + seq![
        "/usr/local/lib/systemd/user"@,
        "/usr/local/share/systemd/user"@,
        "/usr/lib/systemd/user"@,
        "/usr/share/systemd/user"@,
    ]
}

/// Default user-mode search paths in priority order, given `XDG_RUNTIME_DIR`
/// and the configuration directory.
pub fn user_search_paths(runtime_dir: &Option<String>, config_home: &Option<String>) -> (r: Vec<
    String,
>)
    ensures
        text::texts(r@) == search_paths(text::opt_text(*runtime_dir), text::opt_text(*config_home)),
{
    let mut out: Vec<String> = Vec::new();
    if let Some(rt) = runtime_dir {
        out.push(join(rt.as_str(), "systeml/user.control"));
        out.push(join(rt.as_str(), "systemd/user.control"));
        out.push(join(rt.as_str(), "systemd/transient"));
        out.push(join(rt.as_str(), "systemd/generator.early"));
    }
    if let Some(cfg) = config_home {
        out.push(join(cfg.as_str(), "systemd/user"));
    }
    if let Some(rt) = runtime_dir {
        out.push(join(rt.as_str(), "systemd/generator"));
    }
    out.push("/etc/systemd/user".to_owned());
    if let Some(rt) = runtime_dir {
        out.push(join(rt.as_str(), "systemd/user"));
        out.push(join(rt.as_str(), "systemd/generator.late"));
    }
    out.push("/usr/local/lib/systemd/user".to_owned());
    out.push("/usr/local/share/systemd/user".to_owned());
    out.push("/usr/lib/systemd/user".to_owned());
    out.push("/usr/share/systemd/user".to_owned());
    proof {
        assert(text::texts(out@) =~= search_paths(
            text::opt_text(*runtime_dir),
            text::opt_text(*config_home),
        ));
    }
    out
}

} // verus!
