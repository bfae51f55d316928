//! The decisions of the `runin` command: flags, first runs, dependencies,
//! configuration edits and the reports it prints.
use vstd::prelude::*;
use crate::config::{same_config, Config};
use crate::managed_block::block_start;
use crate::quote::{fish_quoted, fish_single_quote, sh_quoted, sh_single_quote};
use crate::shell::{shell_name, Shell};
use crate::text::contains;

verus! {

/// `-H/--hidden` turns hidden directories on for one run; otherwise the
/// configured setting holds.
pub fn resolve_include_hidden(hidden: bool, default_include_hidden: bool) -> (r: bool)
    ensures
        r == (hidden || default_include_hidden),
{
    if hidden {
        true
    } else {
        default_include_hidden
    }
}

/// A pair of flags `--x` / `--no-x`: `Some(true)`, `Some(false)`, or no choice.
/// The enabling flag wins.
pub fn resolve_config_toggle(enable: bool, disable: bool) -> (r: Option<bool>)
    ensures
        enable ==> r == Some(true),
        !enable && disable ==> r == Some(false),
        !enable && !disable ==> r is None,
{
    if enable {
        Some(true)
    } else if disable {
        Some(false)
    } else {
        None
    }
}

/// Whether the shell changes to the chosen directory after the command:
/// `--cd` / `--no-cd` when given, else the configured setting.
pub fn resolve_cd_after_run(cd: bool, no_cd: bool, configured: bool) -> (r: bool)
    ensures
        r == (cd || (!no_cd && configured)),
{
    match resolve_config_toggle(cd, no_cd) {
        Some(v) => v,
        None => configured,
    }
}

pub open spec fn missing_config_error(config_path: Seq<char>) -> Seq<char> {
    "Config not found at "@ + config_path
        + ".\nRun `runin config` in an interactive terminal to create it."@
}

/// Without a configuration, a first run sets one up interactively; that needs
/// a terminal on both standard input and output, else this is the error.
pub fn missing_config_non_interactive_error(
    config_path: &str,
    stdin_is_tty: bool,
    stdout_is_tty: bool,
) -> (r: Option<String>)
    ensures
        stdin_is_tty && stdout_is_tty ==> r is None,
        !(stdin_is_tty && stdout_is_tty) ==> (r matches Some(e) && e@ == missing_config_error(
            config_path@,
        )),
{
    if stdin_is_tty && stdout_is_tty {
        None
    } else {
        let mut e = String::from_str("Config not found at ");
        e.append(config_path);
        e.append(".\nRun `runin config` in an interactive terminal to create it.");
        Some(e)
    }
}

pub open spec fn missing_dependencies_error(names: Seq<char>) -> Seq<char> {
    "Missing required dependencies: "@ + names
        + ".\nInstall `fd` and `fzf`, and ensure both are available in PATH."@
}

/// The names of the missing tools among `fd` and `fzf`, separated by commas.
pub open spec fn missing_names(fd_available: bool, fzf_available: bool) -> Seq<char> {
    if !fd_available && !fzf_available {
        "fd, fzf"@
    } else if !fd_available {
        "fd"@
    } else {
        "fzf"@
    }
}

/// The error names exactly the tools that are missing: `fd` first when it is
/// missing, `fzf` when it is missing.
pub proof fn law_missing_names_are_the_missing_tools(fd_available: bool, fzf_available: bool)
    requires
        !(fd_available && fzf_available),
    ensures
        ({
            let n = missing_names(fd_available, fzf_available);
            &&& (n.len() >= 2 && n.subrange(0, 2) == "fd"@) <==> !fd_available
            &&& (n.len() >= 3 && n.subrange(n.len() - 3, n.len() as int) == "fzf"@)
                <==> !fzf_available
        }),
{
    reveal_strlit("fd, fzf");
    reveal_strlit("fd");
    reveal_strlit("fzf");
    let n = missing_names(fd_available, fzf_available);
    if !fd_available && !fzf_available {
        assert(n.subrange(0, 2) =~= "fd"@);
        assert(n.subrange(n.len() - 3, n.len() as int) =~= "fzf"@);
    } else if !fd_available {
        assert(n.subrange(0, 2) =~= "fd"@);
        assert(n.len() < 3);
    } else {
        assert(n.subrange(n.len() - 3, n.len() as int) =~= "fzf"@);
        assert(n.subrange(0, 2) != "fd"@) by {
            assert(n.subrange(0, 2)[1] != "fd"@[1]);
        }
    }
}

/// `fd` and `fzf` must both run; the error names those that do not.
pub fn ensure_dependencies(fd_available: bool, fzf_available: bool) -> (r: Result<(), String>)
    ensures
        fd_available && fzf_available ==> r is Ok,
        !(fd_available && fzf_available) ==> (r matches Err(e) && e@
            == missing_dependencies_error(missing_names(fd_available, fzf_available))),
{
    if fd_available && fzf_available {
        return Ok(());
    }
    let mut e = String::from_str("Missing required dependencies: ");
    if !fd_available && !fzf_available {
        e.append("fd, fzf");
    } else if !fd_available {
        e.append("fd");
    } else {
        e.append("fzf");
    }
    e.append(".\nInstall `fd` and `fzf`, and ensure both are available in PATH.");
    Err(e)
}

/// What the file the shell integration reads holds: the chosen directory and a newline.
pub fn cd_target_content(selected_dir: &str) -> (r: String)
    ensures
        r@ == selected_dir@.push('\n'),
{
    let mut r = String::from_str(selected_dir);
    crate::text::push_char(&mut r, '\n');
    r
}

/// The text to write to the file the shell integration reads, none when
/// nothing is written there: the command must have been found valid, the run
/// must change directory afterwards, and the shell must have asked for the
/// directory.
pub fn cd_target_to_write(
    parts: &Result<Vec<String>, String>,
    cd_after_run: bool,
    emits_cd_path: bool,
    selected_dir: &str,
) -> (r: Option<String>)
    ensures
        r is Some <==> (parts is Ok && cd_after_run && emits_cd_path),
        r matches Some(t) ==> t@ == selected_dir@.push('\n'),
{
    match parts {
        Ok(_) => {
            if cd_after_run && emits_cd_path {
                Some(cd_target_content(selected_dir))
            } else {
                None
            }
        },
        Err(_) => None,
    }
}

/// The settings given to `runin config` on its command line.
pub struct ConfigOverrides {
    pub search_root: Option<String>,
    pub default_command: Option<String>,
    pub include_root: Option<bool>,
    pub include_hidden: Option<bool>,
    pub cd_after_run: Option<bool>,
}

/// The settings given by the flags of `runin config`.
pub fn config_overrides(
    search_root: Option<String>,
    default_command: Option<String>,
    include_root: bool,
    no_include_root: bool,
    include_hidden: bool,
    no_include_hidden: bool,
    cd_after_run: bool,
    no_cd_after_run: bool,
) -> (r: ConfigOverrides)
    ensures
        r.search_root == search_root,
        r.default_command == default_command,
        r.include_root == (if include_root {
            Some(true)
        } else if no_include_root {
            Some(false)
        } else {
            None
        }),
        r.include_hidden == (if include_hidden {
            Some(true)
        } else if no_include_hidden {
            Some(false)
        } else {
            None
        }),
        r.cd_after_run == (if cd_after_run {
            Some(true)
        } else if no_cd_after_run {
            Some(false)
        } else {
            None
        }),
{
    ConfigOverrides {
        search_root,
        default_command,
        include_root: resolve_config_toggle(include_root, no_include_root),
        include_hidden: resolve_config_toggle(include_hidden, no_include_hidden),
        cd_after_run: resolve_config_toggle(cd_after_run, no_cd_after_run),
    }
}

/// No setting was given: `runin config` then asks for them interactively.
pub open spec fn no_overrides(o: ConfigOverrides) -> bool {
    o.search_root is None && o.default_command is None && o.include_root is None
        && o.include_hidden is None && o.cd_after_run is None
}

impl ConfigOverrides {
    /// Whether no setting was given.
    pub fn is_empty(&self) -> (r: bool)
        ensures
            r == no_overrides(*self),
    {
        self.search_root.is_none() && self.default_command.is_none()
            && self.include_root.is_none() && self.include_hidden.is_none()
            && self.cd_after_run.is_none()
    }
}

/// `config` with each given setting of `o` in place of its own.
pub open spec fn overridden(config: Config, o: ConfigOverrides) -> Config {
    Config {
        search_root: match o.search_root {
            Some(v) => v,
            None => config.search_root,
        },
        default_command: match o.default_command {
            Some(v) => v,
            None => config.default_command,
        },
        directory_source: config.directory_source,
        include_root: match o.include_root {
            Some(v) => v,
            None => config.include_root,
        },
        include_hidden: match o.include_hidden {
            Some(v) => v,
            None => config.include_hidden,
        },
        cd_after_run: match o.cd_after_run {
            Some(v) => v,
            None => config.cd_after_run,
        },
    }
}

/// Each setting given on the command line is the one in the result, and every
/// setting not given keeps its old value; the source of directories is never
/// changed by the flags.
pub proof fn law_overrides_take_effect(config: Config, o: ConfigOverrides)
    ensures
        ({
            let r = overridden(config, o);
            &&& o.search_root matches Some(v) ==> r.search_root@ == v@
            &&& o.search_root is None ==> r.search_root@ == config.search_root@
            &&& o.default_command matches Some(v) ==> r.default_command@ == v@
            &&& o.default_command is None ==> r.default_command@ == config.default_command@
            &&& o.include_root matches Some(v) ==> r.include_root == v
            &&& o.include_root is None ==> r.include_root == config.include_root
            &&& o.include_hidden matches Some(v) ==> r.include_hidden == v
            &&& o.include_hidden is None ==> r.include_hidden == config.include_hidden
            &&& o.cd_after_run matches Some(v) ==> r.cd_after_run == v
            &&& o.cd_after_run is None ==> r.cd_after_run == config.cd_after_run
            &&& r.directory_source == config.directory_source
        }),
{
}

/// Sets each setting that `o` gives.
pub fn apply_config_overrides(config: Config, o: ConfigOverrides) -> (r: Config)
    ensures
        r == overridden(config, o),
        o.search_root matches Some(v) ==> r.search_root@ == v@,
        o.search_root is None ==> r.search_root@ == config.search_root@,
        o.default_command matches Some(v) ==> r.default_command@ == v@,
        o.default_command is None ==> r.default_command@ == config.default_command@,
        o.include_root matches Some(v) ==> r.include_root == v,
        o.include_root is None ==> r.include_root == config.include_root,
        o.include_hidden matches Some(v) ==> r.include_hidden == v,
        o.include_hidden is None ==> r.include_hidden == config.include_hidden,
        o.cd_after_run matches Some(v) ==> r.cd_after_run == v,
        o.cd_after_run is None ==> r.cd_after_run == config.cd_after_run,
        r.directory_source == config.directory_source,
{
    proof {
        law_overrides_take_effect(config, o);
    }
    let mut c = config;
    if let Some(v) = o.search_root {
        c.search_root = v;
    }
    if let Some(v) = o.default_command {
        c.default_command = v;
    }
    if let Some(v) = o.include_root {
        c.include_root = v;
    }
    if let Some(v) = o.include_hidden {
        c.include_hidden = v;
    }
    if let Some(v) = o.cd_after_run {
        c.cd_after_run = v;
    }
    c
}

/// `runin config` writes the file when there was none, or when a setting changed;
/// otherwise it reports `unchanged`.
pub fn should_save_config(existed: bool, old: &Config, new: &Config) -> (r: bool)
    ensures
        r == (!existed || !same_config(*old, *new)),
        !existed ==> r,
        old.search_root@ != new.search_root@ ==> r,
        old.default_command@ != new.default_command@ ==> r,
        old.directory_source != new.directory_source ==> r,
        old.include_root != new.include_root ==> r,
        old.include_hidden != new.include_hidden ==> r,
        old.cd_after_run != new.cd_after_run ==> r,
        existed && old.search_root@ == new.search_root@ && old.default_command@
            == new.default_command@ && old.directory_source == new.directory_source
            && old.include_root == new.include_root && old.include_hidden == new.include_hidden
            && old.cd_after_run == new.cd_after_run ==> !r,
{
    proof {
        crate::config::law_same_config_is_every_field(*old, *new);
    }
    !existed || !(*new == *old)
}

/// Giving `runin config` the same settings a second time changes nothing, so
/// the second run does not save.
pub proof fn law_config_edit_settles(config: Config, o: ConfigOverrides)
    ensures
        same_config(overridden(overridden(config, o), o), overridden(config, o)),
{
}

/// The report of `runin doctor` on the configuration file.
pub open spec fn doctor_config_text(path: Result<Seq<char>, Seq<char>>, exists: bool) -> Seq<char> {
    match path {
        Ok(p) => if exists {
            "config: ok ("@ + p + ")"@
        } else {
            "config: missing ("@ + p + ")"@
        },
        Err(e) => "config: error ("@ + e + ")"@,
    }
}

/// The `config:` line of `runin doctor` says `ok` exactly when the path is
/// known and the file exists, `missing` exactly when the path is known and the
/// file does not exist, and `error` when the path could not be worked out.
pub proof fn law_doctor_config_line_follows_state(path: Result<Seq<char>, Seq<char>>, exists: bool)
    ensures
        ({
            let t = doctor_config_text(path, exists);
            let ok = "config: ok ("@;
            let missing = "config: missing ("@;
            let error = "config: error ("@;
            &&& (t.len() >= ok.len() && t.subrange(0, ok.len() as int) == ok) <==> (path is Ok
                && exists)
            &&& (t.len() >= missing.len() && t.subrange(0, missing.len() as int) == missing)
                <==> (path is Ok && !exists)
            &&& (t.len() >= error.len() && t.subrange(0, error.len() as int) == error)
                <==> path is Err
        }),
{
    reveal_strlit("config: ok (");
    reveal_strlit("config: missing (");
    reveal_strlit("config: error (");
    reveal_strlit(")");
    let t = doctor_config_text(path, exists);
    let ok = "config: ok ("@;
    let missing = "config: missing ("@;
    let error = "config: error ("@;
    // The three heads differ at their ninth character.
    assert(ok[8] == 'o' && missing[8] == 'm' && error[8] == 'e');
    match path {
        Ok(p) => {
            if exists {
                assert(t.subrange(0, ok.len() as int) =~= ok);
            } else {
                assert(t.subrange(0, missing.len() as int) =~= missing);
            }
        },
        Err(e) => {
            assert(t.subrange(0, error.len() as int) =~= error);
        },
    }
    assert(t.len() >= ok.len() ==> t.subrange(0, ok.len() as int)[8] == t[8]);
    assert(t.len() >= missing.len() ==> t.subrange(0, missing.len() as int)[8] == t[8]);
    assert(t.len() >= error.len() ==> t.subrange(0, error.len() as int)[8] == t[8]);
}

/// The characters of a `Result` of strings.
pub open spec fn result_text(r: Result<String, String>) -> Result<Seq<char>, Seq<char>> {
    match r {
        Ok(p) => Ok(p@),
        Err(e) => Err(e@),
    }
}

/// The `config:` line of `runin doctor`.
pub fn doctor_config_line(path: &Result<String, String>, exists: bool) -> (r: String)
    ensures
        r@ == doctor_config_text(result_text(*path), exists),
{
    let (head, body) = match path {
        Ok(p) => {
            if exists {
                ("config: ok (", p)
            } else {
                ("config: missing (", p)
            }
        },
        Err(e) => ("config: error (", e),
    };
    let mut r = String::from_str(head);
    r.append(body.as_str());
    r.append(")");
    r
}

/// The line of `runin doctor` on one tool: `<binary>: ok` or `<binary>: missing`.
pub fn dependency_status_line(binary: &str, available: bool) -> (r: String)
    ensures
        available ==> r@ == binary@ + ": ok"@,
        !available ==> r@ == binary@ + ": missing"@,
{
    let mut r = String::from_str(binary);
    if available {
        r.append(": ok");
    } else {
        r.append(": missing");
    }
    r
}

/// What `runin` finds of a shell's integration.
pub struct ShellStatus {
    pub install_path: String,
    pub rc_path: Option<String>,
    /// The integration script exists.
    pub installed: bool,
    /// The startup file holds the managed block (for fish: the script exists).
    pub startup_configured: bool,
    /// The current shell has loaded the integration.
    pub active: bool,
}

/// The state of a shell's integration: whether the startup file `rc_content`
/// holds the opening marker (for fish, whose startup file is the script
/// itself: whether it is installed), and whether `RUNIN_SHELL_INTEGRATION`
/// is `1` in the current shell.
pub fn shell_status(
    install_path: String,
    rc_path: Option<String>,
    installed: bool,
    rc_content: Option<&str>,
    integration_var: Option<&str>,
) -> (r: ShellStatus)
    ensures
        r.install_path == install_path,
        r.rc_path == rc_path,
        r.installed == installed,
        rc_content is Some ==> r.startup_configured == contains(rc_content.unwrap()@, block_start()),
        rc_content is None ==> r.startup_configured == installed,
        r.active == (integration_var is Some && integration_var.unwrap()@ == "1"@),
{
    let startup_configured = match rc_content {
        Some(content) => crate::text::str_contains(content, crate::managed_block::RUNIN_BLOCK_START),
        None => installed,
    };
    let active = match integration_var {
        Some(v) => crate::text::str_eq(v, "1"),
        None => false,
    };
    ShellStatus { install_path, rc_path, installed, startup_configured, active }
}

/// The lines of `runin shell status` for `shell`.
pub open spec fn status_text(shell: Shell, status: ShellStatus) -> Seq<Seq<char>> {
    let head = seq![
        "shell: "@ + shell_name(shell),
        "integration file: "@ + status.install_path@ + (if status.installed {
            " (installed)"@
        } else {
            " (missing)"@
        }),
    ];
    let rc = match status.rc_path {
        Some(p) => seq![
            "startup file: "@ + p@ + (if status.startup_configured {
                " (configured)"@
            } else {
                " (missing runin block)"@
            }),
        ],
        None => Seq::empty(),
    };
    let active = if status.active {
        "current shell: active"@
    } else {
        "current shell: not active; restart your shell or source the integration file"@
    };
    head + rc + seq![active]
}

/// The status report answers each question from its own field: the
/// integration-file line says `(installed)` exactly when the script is
/// installed, the startup-file line (there is one exactly when there is a
/// startup file) says `(configured)` exactly when the startup file holds the
/// managed block, and the last line says `active` exactly when the current
/// shell has loaded the integration.
pub proof fn law_status_lines_follow_status(shell: Shell, status: ShellStatus)
    ensures
        ({
            let t = status_text(shell, status);
            let last = "current shell: active"@;
            &&& t.len() == if status.rc_path is Some {
                4int
            } else {
                3int
            }
            &&& t[0] == "shell: "@ + shell_name(shell)
            &&& (t[1] == "integration file: "@ + status.install_path@ + " (installed)"@)
                <==> status.installed
            &&& (t[1] == "integration file: "@ + status.install_path@ + " (missing)"@)
                <==> !status.installed
            &&& status.rc_path matches Some(p) ==> ((t[2] == "startup file: "@ + p@
                + " (configured)"@) <==> status.startup_configured)
            &&& status.rc_path matches Some(p) ==> ((t[2] == "startup file: "@ + p@
                + " (missing runin block)"@) <==> !status.startup_configured)
            &&& (t[t.len() - 1] == last) <==> status.active
        }),
{
    reveal_strlit(" (installed)");
    reveal_strlit(" (missing)");
    reveal_strlit(" (configured)");
    reveal_strlit(" (missing runin block)");
    reveal_strlit("current shell: active");
    reveal_strlit("current shell: not active; restart your shell or source the integration file");
    let t = status_text(shell, status);
    let a = "integration file: "@ + status.install_path@;
    assert((a + " (installed)"@).len() != (a + " (missing)"@).len());
    if let Some(p) = status.rc_path {
        let b = "startup file: "@ + p@;
        assert((b + " (configured)"@).len() != (b + " (missing runin block)"@).len());
    }
    assert("current shell: active"@.len() != "current shell: not active; restart your shell or source the integration file"@.len());
}

/// `a` followed by `b`.
fn concat2(a: &str, b: &str) -> (r: String)
    ensures
        r@ == a@ + b@,
{
    let mut r = String::from_str(a);
    r.append(b);
    r
}

/// `a` followed by `b` and `c`.
fn concat3(a: &str, b: &str, c: &str) -> (r: String)
    ensures
        r@ == a@ + b@ + c@,
{
    let mut r = String::from_str(a);
    r.append(b);
    r.append(c);
    r
}

/// The lines that `runin shell status` prints.
pub fn shell_status_lines(shell: Shell, status: &ShellStatus) -> (r: Vec<String>)
    ensures
        r@.map_values(|l: String| l@) == status_text(shell, *status),
        r@.len() == if status.rc_path is Some {
            4int
        } else {
            3int
        },
        (r@[1]@ == "integration file: "@ + status.install_path@ + " (installed)"@)
            <==> status.installed,
        status.rc_path matches Some(p) ==> ((r@[2]@ == "startup file: "@ + p@
            + " (configured)"@) <==> status.startup_configured),
        status.rc_path matches Some(p) ==> ((r@[2]@ == "startup file: "@ + p@
            + " (missing runin block)"@) <==> !status.startup_configured),
        (r@[r@.len() - 1]@ == "current shell: active"@) <==> status.active,
{
    proof {
        law_status_lines_follow_status(shell, *status);
    }
    let mut r: Vec<String> = Vec::new();
    r.push(concat2("shell: ", shell.name()));
    r.push(
        concat3(
            "integration file: ",
            status.install_path.as_str(),
            if status.installed {
                " (installed)"
            } else {
                " (missing)"
            },
        ),
    );
    if let Some(p) = &status.rc_path {
        r.push(
            concat3(
                "startup file: ",
                p.as_str(),
                if status.startup_configured {
                    " (configured)"
                } else {
                    " (missing runin block)"
                },
            ),
        );
    }
    if status.active {
        r.push(String::from_str("current shell: active"));
    } else {
        r.push(
            String::from_str(
                "current shell: not active; restart your shell or source the integration file",
            ),
        );
    }
    proof {
        assert(r@.map_values(|l: String| l@) =~= status_text(shell, *status));
    }
    r
}

/// What `runin shell install` prints: the script it wrote, the startup file it
/// updated (bash, zsh), and how to load the integration now.
pub open spec fn install_report_text(install_path: Seq<char>, rc_path: Option<Seq<char>>) -> Seq<
    Seq<char>,
> {
    match rc_path {
        Some(rc) => seq![
            "installed: "@ + install_path,
            "updated: "@ + rc,
            Seq::empty(),
            "Restart your shell, or run:"@,
            "  . "@ + sh_quoted(install_path),
        ],
        None => seq![
            "installed: "@ + install_path,
            Seq::empty(),
            "Restart your shell, or run:"@,
            "  source "@ + fish_quoted(install_path),
        ],
    }
}

/// The lines that `runin shell install` prints; the first comes before the
/// startup file is updated, the rest after.
pub fn install_report_lines(install_path: &str, rc_path: Option<&str>) -> (r: Vec<String>)
    ensures
        r@.map_values(|l: String| l@) == install_report_text(
            install_path@,
            crate::picker::opt_view(rc_path),
        ),
{
    let mut r: Vec<String> = Vec::new();
    r.push(concat2("installed: ", install_path));
    match rc_path {
        Some(rc) => {
            r.push(concat2("updated: ", rc));
            r.push(String::new());
            r.push(String::from_str("Restart your shell, or run:"));
            let q = sh_single_quote(install_path);
            r.push(concat2("  . ", q.as_str()));
        },
        None => {
            r.push(String::new());
            r.push(String::from_str("Restart your shell, or run:"));
            let q = fish_single_quote(install_path);
            r.push(concat2("  source ", q.as_str()));
        },
    }
    proof {
        assert(r@.map_values(|l: String| l@) =~= install_report_text(
            install_path@,
            crate::picker::opt_view(rc_path),
        ));
    }
    r
}

/// What `runin shell uninstall` prints of the script: `removed: <path>` or
/// `not installed: <path>`.
pub fn uninstall_report_line(install_path: &str, existed: bool) -> (r: String)
    ensures
        existed ==> r@ == "removed: "@ + install_path@,
        !existed ==> r@ == "not installed: "@ + install_path@,
{
    if existed {
        concat2("removed: ", install_path)
    } else {
        concat2("not installed: ", install_path)
    }
}

} // verus!
