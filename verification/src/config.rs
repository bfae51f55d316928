//! The persistent configuration and the home-directory shorthands in paths.
use vstd::prelude::*;
use crate::shell::{join_path, path_join};
use crate::text::{chars_of, has_prefix, push_char, push_range, starts_with};

verus! {

/// The search root a new configuration starts with.
pub const DEFAULT_SEARCH_ROOT: &'static str = "$HOME/Documents";

/// The command a new configuration starts with.
pub const DEFAULT_COMMAND: &'static str = "nvim .";

/// Where the picker's candidate directories come from.
#[derive(Clone, Copy, Debug, PartialEq, Eq, Structural)]
pub enum DirectorySource {
    /// The directories that `fd` finds under the search root.
    Fd,
    /// The directories that `zoxide` remembers, best first.
    Zoxide,
}

/// The settings kept in `~/.config/runin/config.toml`.
#[derive(Clone, Debug)]
pub struct Config {
    pub search_root: String,
    pub default_command: String,
    pub directory_source: DirectorySource,
    pub include_root: bool,
    pub include_hidden: bool,
    pub cd_after_run: bool,
}

/// Two configurations hold the same settings.
pub open spec fn same_config(a: Config, b: Config) -> bool {
    &&& a.search_root@ == b.search_root@
    &&& a.default_command@ == b.default_command@
    &&& a.directory_source == b.directory_source
    &&& a.include_root == b.include_root
    &&& a.include_hidden == b.include_hidden
    &&& a.cd_after_run == b.cd_after_run
}

/// Two configurations count as the same exactly when every setting is the
/// same: the path searched, the default command, the source of directories,
/// and the three switches.
pub proof fn law_same_config_is_every_field(a: Config, b: Config)
    ensures
        same_config(a, b) <==> (a.search_root@ == b.search_root@ && a.default_command@
            == b.default_command@ && a.directory_source == b.directory_source && a.include_root
            == b.include_root && a.include_hidden == b.include_hidden && a.cd_after_run
            == b.cd_after_run),
{
}

impl PartialEq for Config {
    fn eq(&self, other: &Config) -> (r: bool) {
        self.search_root == other.search_root && self.default_command == other.default_command
            && self.directory_source == other.directory_source && self.include_root
            == other.include_root && self.include_hidden == other.include_hidden
            && self.cd_after_run == other.cd_after_run
    }
}

impl vstd::std_specs::cmp::PartialEqSpecImpl for Config {
    open spec fn obeys_eq_spec() -> bool {
        true
    }

    open spec fn eq_spec(&self, other: &Config) -> bool {
        same_config(*self, *other)
    }
}

/// Whether the directory changes after the command by default: yes.
pub fn default_cd_after_run() -> (r: bool)
    ensures
        r,
{
    true
}

/// The directory source when the configuration names none: zoxide.
pub fn default_directory_source() -> (r: DirectorySource)
    ensures
        r == DirectorySource::Zoxide,
{
    DirectorySource::Zoxide
}

/// The configuration that a first run starts with.
pub open spec fn is_default_config(c: Config) -> bool {
    &&& c.search_root@ == DEFAULT_SEARCH_ROOT@
    &&& c.default_command@ == DEFAULT_COMMAND@
    &&& c.directory_source == DirectorySource::Zoxide
    &&& !c.include_root
    &&& !c.include_hidden
    &&& c.cd_after_run
}

impl Default for Config {
    fn default() -> (r: Config)
        ensures
            is_default_config(r),
    {
        Config {
            search_root: String::from_str(DEFAULT_SEARCH_ROOT),
            default_command: String::from_str(DEFAULT_COMMAND),
            directory_source: default_directory_source(),
            include_root: false,
            include_hidden: false,
            cd_after_run: default_cd_after_run(),
        }
    }
}

/// The configuration file under the home directory `home`:
/// `home/.config/runin/config.toml`.
pub open spec fn config_file_in(home: Seq<char>) -> Seq<char> {
    path_join(path_join(path_join(home, ".config"@), "runin"@), "config.toml"@)
}

/// Where the configuration file is, given `$HOME`.
pub fn config_path(home: Option<&str>) -> (r: Result<String, String>)
    ensures
        home is Some ==> (r matches Ok(p) && p@ == config_file_in(home.unwrap()@)),
        home is None ==> (r matches Err(e) && e@ == crate::shell::home_unset_error()),
{
    match home {
        Some(h) => {
            let a = join_path(h, ".config");
            let b = join_path(a.as_str(), "runin");
            Ok(join_path(b.as_str(), "config.toml"))
        },
        None => Err(String::from_str("HOME environment variable is not set")),
    }
}

/// `path` with a leading `$HOME`, `${HOME}`, `~/` or a lone `~` replaced by `home`.
/// Nothing else in `path` is touched.
pub open spec fn expanded(path: Seq<char>, home: Seq<char>) -> Seq<char> {
    if has_prefix(path, "$HOME"@) {
        home + path.skip(5)
    } else if has_prefix(path, "${HOME}"@) {
        home + path.skip(7)
    } else if path == "~"@ {
        home
    } else if has_prefix(path, "~/"@) {
        home + seq!['/'] + path.skip(2)
    } else {
        path
    }
}

/// `path` with its leading home shorthand (`$HOME`, `${HOME}`, `~`, `~/`)
/// replaced by `home`.
pub fn expand_home_with(path: &str, home: &str) -> (r: String)
    ensures
        r@ == expanded(path@, home@),
{
    proof {
        reveal_strlit("$HOME");
        reveal_strlit("${HOME}");
        reveal_strlit("~/");
    }
    let v = chars_of(path);
    let mut r = String::from_str(home);
    if starts_with(&v, &chars_of("$HOME")) {
        push_range(&mut r, &v, 5, v.len());
        assert(v@.subrange(5, v@.len() as int) =~= path@.skip(5));
        r
    } else if starts_with(&v, &chars_of("${HOME}")) {
        push_range(&mut r, &v, 7, v.len());
        assert(v@.subrange(7, v@.len() as int) =~= path@.skip(7));
        r
    } else if crate::text::str_eq(path, "~") {
        r
    } else if starts_with(&v, &chars_of("~/")) {
        push_char(&mut r, '/');
        push_range(&mut r, &v, 2, v.len());
        assert(v@.subrange(2, v@.len() as int) =~= path@.skip(2));
        r
    } else {
        String::from_str(path)
    }
}

/// `path` with its home shorthand expanded, when the home directory is known.
pub fn expand_home(path: &str, home: Option<&str>) -> (r: String)
    ensures
        home is Some ==> r@ == expanded(path@, home.unwrap()@),
        home is None ==> r@ == path@,
{
    match home {
        Some(h) => expand_home_with(path, h),
        None => String::from_str(path),
    }
}

/// `path` with the home directory `home` at its start written as `~`:
/// `~` for `home` itself, `~/rest` for `home/rest`; other paths, and every
/// path when `home` is empty, stay as they are.
pub open spec fn abbreviated(path: Seq<char>, home: Seq<char>) -> Seq<char> {
    if home.len() == 0 {
        path
    } else if path == home {
        "~"@
    } else if has_prefix(path, home.push('/')) {
        seq!['~', '/'] + path.skip(home.len() as int + 1)
    } else {
        path
    }
}

/// `path` with the home directory at its start written as `~`.
pub fn abbreviate_home_with(path: &str, home: Option<&str>) -> (r: String)
    ensures
        home is Some ==> r@ == abbreviated(path@, home.unwrap()@),
        home is None ==> r@ == path@,
{
    match home {
        None => String::from_str(path),
        Some(h) => {
            let v = chars_of(path);
            let mut hv = chars_of(h);
            if hv.len() == 0 {
                return String::from_str(path);
            }
            if crate::text::chars_eq(&v, &hv) {
                return String::from_str("~");
            }
            hv.push('/');
            if starts_with(&v, &hv) {
                let mut r = String::new();
                push_char(&mut r, '~');
                push_char(&mut r, '/');
                push_range(&mut r, &v, hv.len(), v.len());
                assert(v@.subrange(hv.len() as int, v@.len() as int) =~= path@.skip(
                    h@.len() as int + 1,
                ));
                assert(r@ =~= abbreviated(path@, h@));
                r
            } else {
                String::from_str(path)
            }
        },
    }
}

proof fn lemma_no_prefix(s: Seq<char>, p: Seq<char>)
    requires
        p.len() > 0,
        s.len() == 0 || s[0] != p[0],
    ensures
        !has_prefix(s, p),
{
    if has_prefix(s, p) {
        assert(s.subrange(0, p.len() as int)[0] == s[0]);
    }
}

/// A path that starts with no home shorthand expands to itself.
proof fn lemma_expand_plain(path: Seq<char>, home: Seq<char>)
    requires
        path.len() == 0 || (path[0] != '$' && path[0] != '~'),
    ensures
        expanded(path, home) == path,
{
    reveal_strlit("$HOME");
    reveal_strlit("${HOME}");
    reveal_strlit("~/");
    reveal_strlit("~");
    lemma_no_prefix(path, "$HOME"@);
    lemma_no_prefix(path, "${HOME}"@);
    lemma_no_prefix(path, "~/"@);
    if path.len() > 0 {
        assert(path[0] != "~"@[0]);
    }
}

/// Writing the home directory as `~` and expanding it again gives back the
/// path, for every path that does not itself start with `$` or `~`.
pub proof fn law_expand_undoes_abbreviate(path: Seq<char>, home: Seq<char>)
    requires
        path.len() == 0 || (path[0] != '$' && path[0] != '~'),
    ensures
        expanded(abbreviated(path, home), home) == path,
{
    reveal_strlit("$HOME");
    reveal_strlit("${HOME}");
    reveal_strlit("~/");
    reveal_strlit("~");
    let a = abbreviated(path, home);
    if home.len() == 0 {
        lemma_expand_plain(path, home);
    } else if path == home {
        lemma_no_prefix(a, "$HOME"@);
        lemma_no_prefix(a, "${HOME}"@);
    } else if has_prefix(path, home.push('/')) {
        assert(a[0] == '~');
        lemma_no_prefix(a, "$HOME"@);
        lemma_no_prefix(a, "${HOME}"@);
        assert(a.len() >= 2);
        assert(a != "~"@);
        assert(a.subrange(0, 2) =~= "~/"@);
        assert(a.skip(2) =~= path.skip(home.len() as int + 1));
        assert(path.subrange(0, home.len() as int + 1) == home.push('/'));
        assert(path =~= home + seq!['/'] + path.skip(home.len() as int + 1)) by {
            assert forall|i: int| 0 <= i < path.len() implies path[i] == (home + seq!['/']
                + path.skip(home.len() as int + 1))[i] by {
                if i < home.len() + 1 {
                    assert(path[i] == path.subrange(0, home.len() as int + 1)[i]);
                }
            }
        }
    } else {
        lemma_expand_plain(path, home);
    }
}

} // verus!
