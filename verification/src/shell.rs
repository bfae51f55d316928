//! Shells, where their integration lives, and the integration scripts.
use vstd::prelude::*;
use crate::lines::{lacks, lines, split_nl};
use crate::managed_block::{
    block_start, body_ok, count_line, drop_blank_tail, is_marker, kept_lines, kept_without_cr_end,
    lemma_managed_block_ok, managed_block, removed, trim_end_nl, upserted,
};
use crate::quote::{fish_quoted, fish_single_quote, sh_quoted, sh_single_quote};
use crate::text::{chars_of, contains, occurs_at, str_eq};

verus! {

/// A shell that `runin` integrates with.
#[derive(Clone, Copy, Debug, PartialEq, Eq, Structural)]
pub enum Shell {
    Bash,
    Zsh,
    Fish,
}

/// What `runin shell` was asked to do, with the shell given on the command line.
#[derive(Clone, Copy, Debug, PartialEq, Eq, Structural)]
pub enum ShellCommand {
    Install { shell: Option<Shell> },
    Status { shell: Option<Shell> },
    Uninstall { shell: Option<Shell> },
}

/// What `runin shell` is to do, for a known shell.
#[derive(Clone, Copy, Debug, PartialEq, Eq, Structural)]
pub enum ShellAction {
    Install(Shell),
    Status(Shell),
    Uninstall(Shell),
}

pub open spec fn shell_name(shell: Shell) -> Seq<char> {
    match shell {
        Shell::Bash => "bash"@,
        Shell::Zsh => "zsh"@,
        Shell::Fish => "fish"@,
    }
}

impl Shell {
    /// The shell's name: `bash`, `zsh` or `fish`.
    pub fn name(self) -> (r: &'static str)
        ensures
            r@ == shell_name(self),
    {
        match self {
            Shell::Bash => "bash",
            Shell::Zsh => "zsh",
            Shell::Fish => "fish",
        }
    }
}

/// The shell named `name`, if it is one of those `runin` knows.
pub open spec fn shell_named(name: Seq<char>) -> Option<Shell> {
    if name == "bash"@ {
        Some(Shell::Bash)
    } else if name == "zsh"@ {
        Some(Shell::Zsh)
    } else if name == "fish"@ {
        Some(Shell::Fish)
    } else {
        None
    }
}

/// A shell is named by a program name exactly when that is the shell's own
/// name: the shells `runin` knows are read back from their names, and no other
/// name stands for one of them.
pub proof fn law_shell_named_inverts_name(name: Seq<char>)
    ensures
        forall|s: Shell| shell_named(name) == Some(s) <==> #[trigger] shell_name(s) == name,
        shell_named(name) is None <==> (forall|s: Shell| #[trigger] shell_name(s) != name),
{
    reveal_strlit("bash");
    reveal_strlit("zsh");
    reveal_strlit("fish");
    assert("bash"@ != "fish"@) by {
        assert("bash"@[0] != "fish"@[0]);
    }
    assert("bash"@ != "zsh"@) by {
        assert("bash"@.len() != "zsh"@.len());
    }
    assert("zsh"@ != "fish"@) by {
        assert("zsh"@.len() != "fish"@.len());
    }
    if shell_named(name) is Some {
        assert(shell_name(shell_named(name).unwrap()) == name);
    } else {
        assert forall|s: Shell| #[trigger] shell_name(s) != name by {
            match s {
                Shell::Bash => {},
                Shell::Zsh => {},
                Shell::Fish => {},
            }
        }
    }
}

/// The shell whose program has the file name `program_name` (the last component
/// of `$SHELL`), if it is one of those `runin` knows.
pub fn infer_shell(program_name: Option<&str>) -> (r: Option<Shell>)
    ensures
        r == match program_name {
            Some(n) => shell_named(n@),
            None => None,
        },
        r matches Some(s) ==> (program_name matches Some(n) && shell_name(s) == n@),
        forall|s: Shell|
            (program_name matches Some(n) && n@ == #[trigger] shell_name(s)) ==> r == Some(s),
{
    proof {
        if program_name is Some {
            law_shell_named_inverts_name(program_name.unwrap()@);
        }
    }
    match program_name {
        None => None,
        Some(name) => {
            if str_eq(name, "bash") {
                Some(Shell::Bash)
            } else if str_eq(name, "zsh") {
                Some(Shell::Zsh)
            } else if str_eq(name, "fish") {
                Some(Shell::Fish)
            } else {
                None
            }
        },
    }
}

pub open spec fn resolve_shell_error() -> Seq<char> {
    "Could not infer shell. Pass one explicitly: bash, zsh, or fish."@
}

pub open spec fn init_shell_error() -> Seq<char> {
    "Could not infer shell. Run `runin init bash`, `runin init zsh`, or `runin init fish`."@
}

/// The shell given, else the one inferred from the environment.
pub fn resolve_shell(shell: Option<Shell>, inferred: Option<Shell>) -> (r: Result<Shell, String>)
    ensures
        shell is Some ==> r == Ok::<Shell, String>(shell.unwrap()),
        shell is None && inferred is Some ==> r == Ok::<Shell, String>(inferred.unwrap()),
        shell is None && inferred is None ==> (r matches Err(e) && e@ == resolve_shell_error()),
{
    match shell {
        Some(s) => Ok(s),
        None => match inferred {
            Some(s) => Ok(s),
            None => Err(String::from_str(
                "Could not infer shell. Pass one explicitly: bash, zsh, or fish.",
            )),
        },
    }
}

/// The shell for `runin init`: the one given, else the one inferred.
pub fn resolve_init_shell(shell: Option<Shell>, inferred: Option<Shell>) -> (r: Result<
    Shell,
    String,
>)
    ensures
        shell is Some ==> r == Ok::<Shell, String>(shell.unwrap()),
        shell is None && inferred is Some ==> r == Ok::<Shell, String>(inferred.unwrap()),
        shell is None && inferred is None ==> (r matches Err(e) && e@ == init_shell_error()),
{
    match shell {
        Some(s) => Ok(s),
        None => match inferred {
            Some(s) => Ok(s),
            None => Err(String::from_str(
                "Could not infer shell. Run `runin init bash`, `runin init zsh`, or `runin init fish`.",
            )),
        },
    }
}

/// What `runin shell <command>` does, once its shell is resolved.
pub fn handle_shell_command(command: ShellCommand, inferred: Option<Shell>) -> (r: Result<
    ShellAction,
    String,
>)
    ensures
        ({
            let given = match command {
                ShellCommand::Install { shell } => shell,
                ShellCommand::Status { shell } => shell,
                ShellCommand::Uninstall { shell } => shell,
            };
            let chosen = if given is Some {
                given
            } else {
                inferred
            };
            match chosen {
                None => r matches Err(e) && e@ == resolve_shell_error(),
                Some(s) => r == Ok::<ShellAction, String>(
                    match command {
                        ShellCommand::Install { .. } => ShellAction::Install(s),
                        ShellCommand::Status { .. } => ShellAction::Status(s),
                        ShellCommand::Uninstall { .. } => ShellAction::Uninstall(s),
                    },
                ),
            }
        }),
{
    match command {
        ShellCommand::Install { shell } => {
            let s = resolve_shell(shell, inferred)?;
            Ok(ShellAction::Install(s))
        },
        ShellCommand::Status { shell } => {
            let s = resolve_shell(shell, inferred)?;
            Ok(ShellAction::Status(s))
        },
        ShellCommand::Uninstall { shell } => {
            let s = resolve_shell(shell, inferred)?;
            Ok(ShellAction::Uninstall(s))
        },
    }
}

/// `base` joined with `comp` as `Path::join` does on Unix: an absolute `comp`
/// replaces `base`, else a `/` goes between them unless `base` is empty or
/// already ends with one.
pub open spec fn path_join(base: Seq<char>, comp: Seq<char>) -> Seq<char> {
    if comp.len() > 0 && comp[0] == '/' {
        comp
    } else if base.len() > 0 && base.last() != '/' {
        base + seq!['/'] + comp
    } else {
        base + comp
    }
}

/// `base` joined with `comp` (`Path::join`).
pub fn join_path(base: &str, comp: &str) -> (r: String)
    ensures
        r@ == path_join(base@, comp@),
{
    let b = chars_of(base);
    let c = chars_of(comp);
    if c.len() > 0 && c[0] == '/' {
        return String::from_str(comp);
    }
    let mut r = String::from_str(base);
    if b.len() > 0 && b[b.len() - 1] != '/' {
        crate::text::push_char(&mut r, '/');
    }
    r.append(comp);
    r
}

pub open spec fn home_unset_error() -> Seq<char> {
    "HOME environment variable is not set"@
}

/// The home directory, `$HOME`.
pub fn home_dir(home: Option<&str>) -> (r: Result<String, String>)
    ensures
        home is Some ==> (r matches Ok(p) && p@ == home.unwrap()@),
        home is None ==> (r matches Err(e) && e@ == home_unset_error()),
{
    match home {
        Some(h) => Ok(String::from_str(h)),
        None => Err(String::from_str("HOME environment variable is not set")),
    }
}

/// The user's configuration directory: `$XDG_CONFIG_HOME`, else `$HOME/.config`.
pub fn config_home(xdg_config_home: Option<&str>, home: Option<&str>) -> (r: Result<
    String,
    String,
>)
    ensures
        xdg_config_home is Some ==> (r matches Ok(p) && p@ == xdg_config_home.unwrap()@),
        xdg_config_home is None && home is Some ==> (r matches Ok(p) && p@ == path_join(
            home.unwrap()@,
            ".config"@,
        )),
        xdg_config_home is None && home is None ==> (r matches Err(e) && e@ == home_unset_error()),
{
    match xdg_config_home {
        Some(x) => Ok(String::from_str(x)),
        None => {
            let h = home_dir(home)?;
            Ok(join_path(h.as_str(), ".config"))
        },
    }
}

/// The directory of the zsh startup files: `$ZDOTDIR`, else `$HOME`.
pub fn zdotdir(zdotdir_var: Option<&str>, home: Option<&str>) -> (r: Result<String, String>)
    ensures
        zdotdir_var is Some ==> (r matches Ok(p) && p@ == zdotdir_var.unwrap()@),
        zdotdir_var is None && home is Some ==> (r matches Ok(p) && p@ == home.unwrap()@),
        zdotdir_var is None && home is None ==> (r matches Err(e) && e@ == home_unset_error()),
{
    match zdotdir_var {
        Some(z) => Ok(String::from_str(z)),
        None => home_dir(home),
    }
}

/// Where the integration script of `shell` lives, in the configuration directory `config`.
pub open spec fn install_path_in(shell: Shell, config: Seq<char>) -> Seq<char> {
    match shell {
        Shell::Bash => path_join(path_join(config, "runin"@), "runin.bash"@),
        Shell::Zsh => path_join(path_join(config, "runin"@), "runin.zsh"@),
        Shell::Fish => path_join(path_join(path_join(config, "fish"@), "conf.d"@), "runin.fish"@),
    }
}

/// Where the integration script of `shell` is installed.
pub fn shell_install_path(shell: Shell, xdg_config_home: Option<&str>, home: Option<&str>) -> (r:
    Result<String, String>)
    ensures
        xdg_config_home is Some ==> (r matches Ok(p) && p@ == install_path_in(
            shell,
            xdg_config_home.unwrap()@,
        )),
        xdg_config_home is None && home is Some ==> (r matches Ok(p) && p@ == install_path_in(
            shell,
            path_join(home.unwrap()@, ".config"@),
        )),
        xdg_config_home is None && home is None ==> (r matches Err(e) && e@ == home_unset_error()),
{
    let config = config_home(xdg_config_home, home)?;
    let p = match shell {
        Shell::Bash => join_path(join_path(config.as_str(), "runin").as_str(), "runin.bash"),
        Shell::Zsh => join_path(join_path(config.as_str(), "runin").as_str(), "runin.zsh"),
        Shell::Fish => join_path(
            join_path(join_path(config.as_str(), "fish").as_str(), "conf.d").as_str(),
            "runin.fish",
        ),
    };
    Ok(p)
}

/// The startup file that sources the integration script: `~/.bashrc` for bash,
/// `$ZDOTDIR/.zshrc` (else `~/.zshrc`) for zsh, none for fish, whose
/// `conf.d` directory is read by itself.
pub fn shell_rc_path(shell: Shell, home: Option<&str>, zdotdir_var: Option<&str>) -> (r: Result<
    Option<String>,
    String,
>)
    ensures
        shell == Shell::Fish ==> (r matches Ok(None)),
        shell == Shell::Bash && home is Some ==> (r matches Ok(Some(p)) && p@ == path_join(
            home.unwrap()@,
            ".bashrc"@,
        )),
        shell == Shell::Bash && home is None ==> (r matches Err(e) && e@ == home_unset_error()),
        shell == Shell::Zsh && zdotdir_var is Some ==> (r matches Ok(Some(p)) && p@ == path_join(
            zdotdir_var.unwrap()@,
            ".zshrc"@,
        )),
        shell == Shell::Zsh && zdotdir_var is None && home is Some ==> (r matches Ok(Some(p)) && p@
            == path_join(home.unwrap()@, ".zshrc"@)),
        shell == Shell::Zsh && zdotdir_var is None && home is None ==> (r matches Err(e) && e@
            == home_unset_error()),
{
    match shell {
        Shell::Bash => {
            let h = home_dir(home)?;
            Ok(Some(join_path(h.as_str(), ".bashrc")))
        },
        Shell::Zsh => {
            let z = zdotdir(zdotdir_var, home)?;
            Ok(Some(join_path(z.as_str(), ".zshrc")))
        },
        Shell::Fish => Ok(None),
    }
}

/// The text of the POSIX integration script before the quoted binary.
pub const POSIX_INIT_HEAD: &'static str = "# runin shell integration
export RUNIN_SHELL_INTEGRATION=1

runin() {
    local _runin_target _runin_status _runin_dir

    _runin_target=\"$(mktemp \"${TMPDIR:-/tmp}/runin-cd.XXXXXX\")\" || return
    ";

/// The text of the POSIX integration script after the quoted binary.
pub const POSIX_INIT_TAIL: &'static str = " --emit-cd-path \"$_runin_target\" \"$@\"
    _runin_status=$?

    if [ -s \"$_runin_target\" ]; then
        IFS= read -r _runin_dir < \"$_runin_target\"
        rm -f \"$_runin_target\"
        if [ -n \"$_runin_dir\" ]; then
            cd -- \"$_runin_dir\" || return $?
        fi
    else
        rm -f \"$_runin_target\"
    fi

    return \"$_runin_status\"
}
";

/// The text of the fish integration script before the quoted binary.
pub const FISH_INIT_HEAD: &'static str = "# runin shell integration
set -gx RUNIN_SHELL_INTEGRATION 1

function runin
    set -l _runin_tmpdir
    if set -q TMPDIR
        set _runin_tmpdir $TMPDIR
    else
        set _runin_tmpdir /tmp
    end

    set -l _runin_target (mktemp \"$_runin_tmpdir/runin-cd.XXXXXX\")
    or return

    ";

/// The text of the fish integration script after the quoted binary.
pub const FISH_INIT_TAIL: &'static str = " --emit-cd-path \"$_runin_target\" $argv
    set -l _runin_status $status

    if test -s \"$_runin_target\"
        set -l _runin_dir
        read -l _runin_dir < \"$_runin_target\"
        rm -f \"$_runin_target\"
        if test -n \"$_runin_dir\"
            cd \"$_runin_dir\"
            or return $status
        end
    else
        rm -f \"$_runin_target\"
    end

    return $_runin_status
end
";

/// The POSIX integration script that runs the binary quoted as `quoted_bin`.
pub open spec fn posix_init_text(quoted_bin: Seq<char>) -> Seq<char> {
    POSIX_INIT_HEAD@ + quoted_bin + POSIX_INIT_TAIL@
}

/// The fish integration script that runs the binary quoted as `quoted_bin`.
pub open spec fn fish_init_text(quoted_bin: Seq<char>) -> Seq<char> {
    FISH_INIT_HEAD@ + quoted_bin + FISH_INIT_TAIL@
}

/// The integration script of `shell` for the binary at `runin_bin`.
pub open spec fn shell_init_text(shell: Shell, runin_bin: Seq<char>) -> Seq<char> {
    match shell {
        Shell::Bash | Shell::Zsh => posix_init_text(sh_quoted(runin_bin)),
        Shell::Fish => fish_init_text(fish_quoted(runin_bin)),
    }
}

/// The bash and zsh integration: a `runin` function that runs the binary by its
/// full path and then changes to the directory it reports.
pub fn posix_shell_init(runin_bin: &str) -> (r: String)
    ensures
        r@ == posix_init_text(sh_quoted(runin_bin@)),
{
    let q = sh_single_quote(runin_bin);
    let mut r = String::from_str(POSIX_INIT_HEAD);
    r.append(q.as_str());
    r.append(POSIX_INIT_TAIL);
    r
}

/// The fish integration: a `runin` function that runs the binary by its full
/// path and then changes to the directory it reports.
pub fn fish_shell_init(runin_bin: &str) -> (r: String)
    ensures
        r@ == fish_init_text(fish_quoted(runin_bin@)),
{
    let q = fish_single_quote(runin_bin);
    let mut r = String::from_str(FISH_INIT_HEAD);
    r.append(q.as_str());
    r.append(FISH_INIT_TAIL);
    r
}

/// The integration script of `shell` for the binary at `runin_bin`.
pub fn shell_init(shell: Shell, runin_bin: &str) -> (r: String)
    ensures
        r@ == shell_init_text(shell, runin_bin@),
{
    match shell {
        Shell::Bash | Shell::Zsh => posix_shell_init(runin_bin),
        Shell::Fish => fish_shell_init(runin_bin),
    }
}

/// The lines of the managed block that source the script at the path quoted as `quoted`.
pub open spec fn source_body(quoted: Seq<char>) -> Seq<char> {
    "if [ -r "@ + quoted + " ]; then"@ + seq!['\n'] + "    . "@ + quoted + seq!['\n'] + "fi"@
}

/// The managed block that sources the integration script at `install_path`.
pub open spec fn source_block_text(install_path: Seq<char>) -> Seq<char> {
    managed_block(source_body(sh_quoted(install_path)))
}

/// The managed block for a startup file: it sources the integration script at
/// `install_path` when that file is readable.
pub fn source_block(install_path: &str) -> (r: String)
    ensures
        r@ == source_block_text(install_path@),
{
    let q = sh_single_quote(install_path);
    let mut r = String::from_str(crate::managed_block::RUNIN_BLOCK_START);
    crate::text::push_char(&mut r, '\n');
    r.append("if [ -r ");
    r.append(q.as_str());
    r.append(" ]; then");
    crate::text::push_char(&mut r, '\n');
    r.append("    . ");
    r.append(q.as_str());
    crate::text::push_char(&mut r, '\n');
    r.append("fi");
    crate::text::push_char(&mut r, '\n');
    r.append(crate::managed_block::RUNIN_BLOCK_END);
    assert(r@ =~= source_block_text(install_path@));
    r
}

/// The block that sources a path without line breaks is a well-formed block.
#[verifier::rlimit(40)]
pub proof fn lemma_source_body_ok(install_path: Seq<char>)
    requires
        lacks(install_path, '\n'),
        lacks(install_path, '\r'),
    ensures
        body_ok(source_body(sh_quoted(install_path))),
{
    reveal_strlit("if [ -r ");
    reveal_strlit(" ]; then");
    reveal_strlit("    . ");
    reveal_strlit("fi");
    crate::managed_block::lemma_markers();
    let q = sh_quoted(install_path);
    crate::quote::lemma_sh_quoted_lacks(install_path, '\n');
    crate::quote::lemma_sh_quoted_lacks(install_path, '\r');
    let l1 = "if [ -r "@ + q + " ]; then"@;
    let l2 = "    . "@ + q;
    let l3 = "fi"@;
    assert(lacks("if [ -r "@, '\n') && lacks("if [ -r "@, '\r'));
    assert(lacks(" ]; then"@, '\n') && lacks(" ]; then"@, '\r'));
    assert(lacks("    . "@, '\n') && lacks("    . "@, '\r'));
    assert(lacks(l3, '\n') && lacks(l3, '\r'));
    crate::lines::lemma_lacks_concat("if [ -r "@, q, '\n');
    crate::lines::lemma_lacks_concat("if [ -r "@ + q, " ]; then"@, '\n');
    crate::lines::lemma_lacks_concat("if [ -r "@, q, '\r');
    crate::lines::lemma_lacks_concat("if [ -r "@ + q, " ]; then"@, '\r');
    crate::lines::lemma_lacks_concat("    . "@, q, '\n');
    crate::lines::lemma_lacks_concat("    . "@, q, '\r');
    let body = source_body(q);
    let rest = l2 + seq!['\n'] + l3;
    assert(body =~= l1 + seq!['\n'] + rest);
    crate::lines::lemma_split_nl_concat(l1, rest);
    crate::lines::lemma_split_nl_concat(l2, l3);
    crate::lines::lemma_split_nl_single(l1);
    crate::lines::lemma_split_nl_single(l2);
    crate::lines::lemma_split_nl_single(l3);
    assert(split_nl(body) =~= seq![l1, l2, l3]);
    assert(l1[0] == 'i');
    assert(l2[0] == ' ');
    assert(l3[0] == 'f');
    assert(!is_marker(l1));
    assert(!is_marker(l2));
    assert(!is_marker(l3));
    assert forall|i: int| 0 <= i < split_nl(body).len() implies !is_marker(
        #[trigger] split_nl(body)[i],
    ) by {
        if i == 0 {
        } else if i == 1 {
        } else {
        }
    }
    crate::lines::lemma_lacks_concat(l1, seq!['\n'], '\r');
    crate::lines::lemma_lacks_concat(l1 + seq!['\n'], l2, '\r');
    crate::lines::lemma_lacks_concat(l1 + seq!['\n'] + l2, seq!['\n'], '\r');
    crate::lines::lemma_lacks_concat(l1 + seq!['\n'] + l2 + seq!['\n'], l3, '\r');
    assert(body =~= l1 + seq!['\n'] + l2 + seq!['\n'] + l3);
}

/// Installing the startup block twice leaves the startup file as installing it
/// once does, for every startup file whose kept lines do not end with a
/// carriage return (files with `\r\n` line ends included).
pub proof fn law_install_block_idempotent(content: Seq<char>, install_path: Seq<char>)
    requires
        kept_without_cr_end(content),
        lacks(install_path, '\n'),
        lacks(install_path, '\r'),
    ensures
        upserted(upserted(content, source_block_text(install_path)), source_block_text(install_path))
            == upserted(content, source_block_text(install_path)),
{
    lemma_source_body_ok(install_path);
    lemma_managed_block_ok(source_body(sh_quoted(install_path)));
    crate::managed_block::law_upsert_idempotent(content, source_block_text(install_path));
}

/// Installing leaves exactly one opening-marker line in the startup file, ends
/// it with the block, and keeps every line outside managed blocks in order:
/// removing the block again gives what removing from the old file gave, up to
/// trailing newlines.
pub proof fn law_install_leaves_one_block(content: Seq<char>, install_path: Seq<char>)
    requires
        kept_without_cr_end(content),
        lacks(install_path, '\n'),
        lacks(install_path, '\r'),
    ensures
        ({
            let b = source_block_text(install_path);
            let u = upserted(content, b);
            let kp = drop_blank_tail(kept_lines(content));
            &&& u.len() > b.len()
            &&& u.subrange(u.len() - b.len() - 1, u.len() as int) == b.push('\n')
            &&& count_line(lines(u), block_start()) == 1
            &&& kp.len() == 0 ==> lines(u) == split_nl(b)
            &&& kp.len() > 0 ==> lines(u) == kp + seq![Seq::<char>::empty()] + split_nl(b)
            &&& trim_end_nl(removed(u)) == trim_end_nl(removed(content))
        }),
{
    lemma_source_body_ok(install_path);
    lemma_managed_block_ok(source_body(sh_quoted(install_path)));
    crate::managed_block::law_upsert_single_block(content, source_block_text(install_path));
}

/// Uninstalling right after installing gives back the startup file, when it
/// held no marker line and ended in exactly one newline (or was empty).
pub proof fn law_uninstall_undoes_install(content: Seq<char>, install_path: Seq<char>)
    requires
        lacks(content, '\r'),
        lacks(install_path, '\n'),
        lacks(install_path, '\r'),
        forall|i: int|
            0 <= i < crate::lines::lines(content).len() ==> !is_marker(
                #[trigger] crate::lines::lines(content)[i],
            ),
        content.len() == 0 || (content.len() >= 2 && content.last() == '\n' && content[content.len()
            - 2] != '\n'),
    ensures
        removed(upserted(content, source_block_text(install_path))) == content,
{
    lemma_source_body_ok(install_path);
    lemma_managed_block_ok(source_body(sh_quoted(install_path)));
    crate::managed_block::law_remove_undoes_upsert(content, source_block_text(install_path));
}

/// After installing, the startup file holds the opening marker, which is what
/// the status check looks for.
pub proof fn law_install_is_detected(content: Seq<char>, install_path: Seq<char>)
    ensures
        contains(upserted(content, source_block_text(install_path)), block_start()),
{
    crate::managed_block::law_upsert_holds_marker(content, source_body(sh_quoted(install_path)));
}

/// The integration script runs the binary by its quoted full path with
/// `--emit-cd-path`, so it needs no `runin` on `PATH`.
#[verifier::rlimit(40)]
pub proof fn law_shell_init_runs_binary(shell: Shell, runin_bin: Seq<char>)
    ensures
        shell != Shell::Fish ==> contains(
            shell_init_text(shell, runin_bin),
            sh_quoted(runin_bin) + " --emit-cd-path"@,
        ),
        shell == Shell::Fish ==> contains(
            shell_init_text(shell, runin_bin),
            fish_quoted(runin_bin) + " --emit-cd-path"@,
        ),
{
    reveal_strlit(" --emit-cd-path");
    reveal_strlit(" --emit-cd-path \"$_runin_target\" \"$@\"
    _runin_status=$?

    if [ -s \"$_runin_target\" ]; then
        IFS= read -r _runin_dir < \"$_runin_target\"
        rm -f \"$_runin_target\"
        if [ -n \"$_runin_dir\" ]; then
            cd -- \"$_runin_dir\" || return $?
        fi
    else
        rm -f \"$_runin_target\"
    fi

    return \"$_runin_status\"
}
");
    reveal_strlit(" --emit-cd-path \"$_runin_target\" $argv
    set -l _runin_status $status

    if test -s \"$_runin_target\"
        set -l _runin_dir
        read -l _runin_dir < \"$_runin_target\"
        rm -f \"$_runin_target\"
        if test -n \"$_runin_dir\"
            cd \"$_runin_dir\"
            or return $status
        end
    else
        rm -f \"$_runin_target\"
    end

    return $_runin_status
end
");
    let flag = " --emit-cd-path"@;
    if shell != Shell::Fish {
        let q = sh_quoted(runin_bin);
        let t = shell_init_text(shell, runin_bin);
        let at = POSIX_INIT_HEAD@.len() as int;
        assert(POSIX_INIT_TAIL@.subrange(0, flag.len() as int) =~= flag);
        assert(t.subrange(at, at + q.len() + flag.len()) =~= q + flag);
        assert(occurs_at(t, q + flag, at));
    } else {
        let q = fish_quoted(runin_bin);
        let t = shell_init_text(shell, runin_bin);
        let at = FISH_INIT_HEAD@.len() as int;
        assert(FISH_INIT_TAIL@.subrange(0, flag.len() as int) =~= flag);
        assert(t.subrange(at, at + q.len() + flag.len()) =~= q + flag);
        assert(occurs_at(t, q + flag, at));
    }
}

} // verus!
