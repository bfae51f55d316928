//! Choosing a directory: the candidates handed to `fzf` and what its answer means.
use vstd::prelude::*;
use crate::config::{abbreviate_home_with, abbreviated, expand_home, expanded, DirectorySource};
use crate::lines::{deep, join_lines, lines};
use crate::text::{chars_of, push_char, push_range, trim, trimmed};

verus! {

/// The kinds of I/O error that the picker tells apart.
#[derive(Clone, Copy, Debug, PartialEq, Eq, Structural)]
pub enum IoErrorKind {
    BrokenPipe,
    NotFound,
    PermissionDenied,
    Other,
}

/// Whether an error on the pipe into `fzf` only means that `fzf` has stopped
/// reading (it exited after a selection).
pub fn is_broken_pipe(kind: IoErrorKind) -> (r: bool)
    ensures
        r == (kind == IoErrorKind::BrokenPipe),
{
    match kind {
        IoErrorKind::BrokenPipe => true,
        _ => false,
    }
}

/// `Some` text of a `&str`, as a sequence of characters.
pub open spec fn opt_view(o: Option<&str>) -> Option<Seq<char>> {
    match o {
        Some(s) => Some(s@),
        None => None,
    }
}

/// The directory that `fzf` printed: its output trimmed; none when that is empty.
pub fn parse_selection(selection: &str) -> (r: Option<String>)
    ensures
        trim(selection@).len() == 0 ==> r is None,
        trim(selection@).len() > 0 ==> (r matches Some(p) && p@ == trim(selection@)),
{
    let t = trimmed(selection);
    let v = chars_of(t.as_str());
    if v.len() == 0 {
        None
    } else {
        Some(t)
    }
}

/// `path` with its home shorthand expanded when the home directory is known.
pub open spec fn expanded_opt(path: Seq<char>, home: Option<Seq<char>>) -> Seq<char> {
    match home {
        Some(h) => expanded(path, h),
        None => path,
    }
}

/// The directory of a selection among abbreviated candidates: the trimmed
/// output of `fzf` with its home shorthand expanded; none when it is empty.
pub fn selection_path(selection: &str, home: Option<&str>) -> (r: Option<String>)
    ensures
        trim(selection@).len() == 0 ==> r is None,
        trim(selection@).len() > 0 ==> (r matches Some(p) && p@ == expanded_opt(
            trim(selection@),
            opt_view(home),
        )),
{
    match parse_selection(selection) {
        None => None,
        Some(p) => Some(expand_home(p.as_str(), home)),
    }
}

/// `search_root` as an absolute path: kept when it starts with `/`, else
/// joined to the working directory `cwd`.
pub fn absolute_root_path(search_root: &str, cwd: &str) -> (r: String)
    ensures
        r@ == absolute_root(search_root@, cwd@),
        search_root@.len() > 0 && search_root@[0] == '/' ==> r@ == search_root@,
        !(search_root@.len() > 0 && search_root@[0] == '/') ==> r@ == crate::shell::path_join(
            cwd@,
            search_root@,
        ),
{
    crate::shell::join_path(cwd, search_root)
}

pub open spec fn missing_root_error(root: Seq<char>) -> Seq<char> {
    "Search root does not exist: "@ + root
}

pub open spec fn not_dir_root_error(root: Seq<char>) -> Seq<char> {
    "Search root is not a directory: "@ + root
}

/// The search root must exist and be a directory.
pub fn check_search_root(search_root: &str, exists: bool, is_dir: bool) -> (r: Result<(), String>)
    ensures
        !exists ==> (r matches Err(e) && e@ == missing_root_error(search_root@)),
        exists && !is_dir ==> (r matches Err(e) && e@ == not_dir_root_error(search_root@)),
        exists && is_dir ==> r is Ok,
{
    if !exists {
        let mut e = String::from_str("Search root does not exist: ");
        e.append(search_root);
        return Err(e);
    }
    if !is_dir {
        let mut e = String::from_str("Search root is not a directory: ");
        e.append(search_root);
        return Err(e);
    }
    Ok(())
}

/// The arguments of `fd` that list the directories under `search_root`, by
/// absolute path, hidden ones too when asked.
pub open spec fn fd_arg_list(search_root: Seq<char>, include_hidden: bool) -> Seq<Seq<char>> {
    let head = seq!["--type"@, "directory"@, "--absolute-path"@];
    let hidden = if include_hidden {
        seq!["--hidden"@]
    } else {
        Seq::empty()
    };
    head + hidden + seq!["."@, search_root]
}

/// `fd` lists directories only, by absolute path, under the search root (its
/// last argument, after the pattern `.`), and hidden ones exactly when asked.
pub proof fn law_fd_args_follow_request(search_root: Seq<char>, include_hidden: bool)
    ensures
        ({
            let a = fd_arg_list(search_root, include_hidden);
            &&& a.len() >= 5
            &&& a.last() == search_root
            &&& a[a.len() - 2] == "."@
            &&& a.subrange(0, 3) == seq!["--type"@, "directory"@, "--absolute-path"@]
            &&& a.subrange(0, a.len() - 2).contains("--hidden"@) <==> include_hidden
        }),
{
    reveal_strlit("--type");
    reveal_strlit("directory");
    reveal_strlit("--absolute-path");
    reveal_strlit("--hidden");
    let a = fd_arg_list(search_root, include_hidden);
    let head = a.subrange(0, a.len() - 2);
    assert(a.subrange(0, 3) =~= seq!["--type"@, "directory"@, "--absolute-path"@]);
    if include_hidden {
        assert(head[3] == "--hidden"@);
    } else {
        assert(head =~= seq!["--type"@, "directory"@, "--absolute-path"@]);
        assert forall|i: int| 0 <= i < head.len() implies head[i] != "--hidden"@ by {
            if i == 0 {
                assert(head[i].len() != "--hidden"@.len());
            } else if i == 1 {
                assert(head[i].len() != "--hidden"@.len());
            } else {
                assert(head[i].len() != "--hidden"@.len());
            }
        }
    }
}

/// The arguments of the `fd` run that lists candidate directories.
pub fn fd_args(search_root: &str, include_hidden: bool) -> (r: Vec<String>)
    ensures
        r@.map_values(|a: String| a@) == fd_arg_list(search_root@, include_hidden),
{
    let mut r: Vec<String> = Vec::new();
    r.push(String::from_str("--type"));
    r.push(String::from_str("directory"));
    r.push(String::from_str("--absolute-path"));
    if include_hidden {
        r.push(String::from_str("--hidden"));
    }
    r.push(String::from_str("."));
    r.push(String::from_str(search_root));
    assert(r@.map_values(|a: String| a@) =~= fd_arg_list(search_root@, include_hidden));
    r
}

/// `search_root` as an absolute path, `cwd` being the working directory.
pub open spec fn absolute_root(search_root: Seq<char>, cwd: Seq<char>) -> Seq<char> {
    if search_root.len() > 0 && search_root[0] == '/' {
        search_root
    } else {
        crate::shell::path_join(cwd, search_root)
    }
}

/// What goes into `fzf` before the directories that `fd` lists, which follow
/// unchanged: the search root itself, as an absolute path on a line of its
/// own, when it is to be offered; else nothing.
pub open spec fn fzf_prefix(search_root: Seq<char>, cwd: Seq<char>, include_root: bool) -> Seq<
    char,
> {
    if include_root {
        absolute_root(search_root, cwd).push('\n')
    } else {
        Seq::empty()
    }
}

/// The text written to `fzf` ahead of `fd`'s output.
pub fn fzf_input_prefix(search_root: &str, cwd: &str, include_root: bool) -> (r: String)
    ensures
        r@ == fzf_prefix(search_root@, cwd@, include_root),
{
    if include_root {
        let mut r = absolute_root_path(search_root, cwd);
        push_char(&mut r, '\n');
        r
    } else {
        String::new()
    }
}

/// The arguments of `fzf`: its layout, header and prompt; for `zoxide`
/// candidates (score, shortened path, full path, split by tabs) it shows the
/// first two fields and prints the second.
pub open spec fn fzf_arg_list(source: DirectorySource) -> Seq<Seq<char>> {
    let common = seq![
        "--height"@,
        "60%"@,
        "--layout"@,
        "reverse"@,
        "--border"@,
        "--info"@,
        "inline-right"@,
        "--header"@,
        "Type to filter | Enter select | Esc cancel"@,
        "--prompt"@,
        "project > "@,
    ];
    match source {
        DirectorySource::Fd => common,
        DirectorySource::Zoxide => common + seq![
            "--delimiter"@,
            "\t"@,
            "--with-nth"@,
            "1,2"@,
            "--accept-nth"@,
            "2"@,
        ],
    }
}

/// The arguments of the `fzf` run that picks a directory.
pub fn fzf_args(source: DirectorySource) -> (r: Vec<String>)
    ensures
        r@.map_values(|a: String| a@) == fzf_arg_list(source),
{
    let mut r: Vec<String> = Vec::new();
    r.push(String::from_str("--height"));
    r.push(String::from_str("60%"));
    r.push(String::from_str("--layout"));
    r.push(String::from_str("reverse"));
    r.push(String::from_str("--border"));
    r.push(String::from_str("--info"));
    r.push(String::from_str("inline-right"));
    r.push(String::from_str("--header"));
    r.push(String::from_str("Type to filter | Enter select | Esc cancel"));
    r.push(String::from_str("--prompt"));
    r.push(String::from_str("project > "));
    match source {
        DirectorySource::Fd => {},
        DirectorySource::Zoxide => {
            r.push(String::from_str("--delimiter"));
            r.push(String::from_str("\t"));
            r.push(String::from_str("--with-nth"));
            r.push(String::from_str("1,2"));
            r.push(String::from_str("--accept-nth"));
            r.push(String::from_str("2"));
        },
    }
    assert(r@.map_values(|a: String| a@) =~= fzf_arg_list(source));
    r
}

/// What goes into `fzf` for the `zoxide` candidates `raw`: their lines for
/// `fzf`, each ended by a newline.
pub fn zoxide_fzf_input(raw: &str, home: Option<&str>) -> (r: String)
    ensures
        r@ == join_lines(candidate_lines(lines(raw@), opt_view(home))).push('\n'),
{
    let mut r = abbreviate_zoxide_candidates_with(raw, home);
    push_char(&mut r, '\n');
    r
}

/// What happened in one run of the picker.
pub struct PickerRun {
    /// The program that listed the candidates (`fd` or `zoxide`) exited successfully.
    pub lister_succeeded: bool,
    /// `fzf` closed its input before all candidates were written.
    pub fzf_closed_stdin_early: bool,
    /// The exit code of `fzf`, none when a signal ended it.
    pub fzf_exit_code: Option<i32>,
    /// `fzf` exited successfully.
    pub fzf_succeeded: bool,
    /// The first line that `fzf` printed.
    pub selection: String,
}

/// The outcome of the picker.
#[derive(Debug)]
pub enum Picked {
    /// The user pressed Ctrl-C: `runin` exits with code 130.
    Interrupted,
    /// Nothing was chosen.
    Nothing,
    /// This directory was chosen.
    Directory(String),
}

pub open spec fn bool_text(b: bool) -> Seq<char> {
    if b {
        "true"@
    } else {
        "false"@
    }
}

/// The error when the program that lists the candidates fails.
pub open spec fn lister_error(source: DirectorySource, search_root: Seq<char>, include_hidden: bool) -> Seq<char> {
    match source {
        DirectorySource::Fd => "fd failed while listing directories (search_root: "@ + search_root
            + ", include_hidden: "@ + bool_text(include_hidden) + ")"@,
        DirectorySource::Zoxide => "zoxide failed while listing directories"@,
    }
}

pub open spec fn fzf_signal_error() -> Seq<char> {
    "fzf terminated by signal"@
}

/// The directory named by a selection: as printed for `fd` candidates, with
/// its home shorthand expanded for (abbreviated) `zoxide` candidates.
pub open spec fn chosen_dir(source: DirectorySource, selection: Seq<char>, home: Option<Seq<char>>) -> Seq<char> {
    match source {
        DirectorySource::Fd => trim(selection),
        DirectorySource::Zoxide => expanded_opt(trim(selection), home),
    }
}

/// What a picker run means: a failure of the lister (unless `fzf` stopped
/// reading early, which makes the lister fail on its own), Ctrl-C in `fzf`
/// (exit code 130), a cancelled selection (any other non-zero exit code), a
/// signal that ended `fzf`, else the selected directory, if any.
#[verifier::rlimit(40)]
pub fn select_directory(
    run: &PickerRun,
    source: DirectorySource,
    search_root: &str,
    include_hidden: bool,
    home: Option<&str>,
) -> (r: Result<Picked, String>)
    ensures
        !run.lister_succeeded && !run.fzf_closed_stdin_early ==> (r matches Err(e) && e@
            == lister_error(source, search_root@, include_hidden)),
        run.lister_succeeded || run.fzf_closed_stdin_early ==> match run.fzf_exit_code {
            Some(code) => if code == 130 {
                r matches Ok(Picked::Interrupted)
            } else if code != 0 {
                r matches Ok(Picked::Nothing)
            } else if trim(run.selection@).len() == 0 {
                r matches Ok(Picked::Nothing)
            } else {
                r matches Ok(Picked::Directory(d)) && d@ == chosen_dir(
                    source,
                    run.selection@,
                    opt_view(home),
                )
            },
            None => if !run.fzf_succeeded {
                r matches Err(e) && e@ == fzf_signal_error()
            } else if trim(run.selection@).len() == 0 {
                r matches Ok(Picked::Nothing)
            } else {
                r matches Ok(Picked::Directory(d)) && d@ == chosen_dir(
                    source,
                    run.selection@,
                    opt_view(home),
                )
            },
        },
{
    if !run.lister_succeeded && !run.fzf_closed_stdin_early {
        return match source {
            DirectorySource::Fd => {
                let mut e = String::from_str("fd failed while listing directories (search_root: ");
                e.append(search_root);
                e.append(", include_hidden: ");
                if include_hidden {
                    e.append("true");
                } else {
                    e.append("false");
                }
                e.append(")");
                Err(e)
            },
            DirectorySource::Zoxide => Err(String::from_str(
                "zoxide failed while listing directories",
            )),
        };
    }
    match run.fzf_exit_code {
        Some(code) => {
            if code == 130 {
                return Ok(Picked::Interrupted);
            }
            if code != 0 {
                return Ok(Picked::Nothing);
            }
        },
        None => {
            if !run.fzf_succeeded {
                return Err(String::from_str("fzf terminated by signal"));
            }
        },
    }
    let chosen = match source {
        DirectorySource::Fd => parse_selection(run.selection.as_str()),
        DirectorySource::Zoxide => selection_path(run.selection.as_str(), home),
    };
    match chosen {
        None => Ok(Picked::Nothing),
        Some(d) => Ok(Picked::Directory(d)),
    }
}

/// The first index at or after `i` that holds no space (the length when there is none).
pub open spec fn skip_spaces(l: Seq<char>, i: nat) -> nat
    decreases l.len() - i,
{
    if i < l.len() && l[i as int] == ' ' {
        skip_spaces(l, i + 1)
    } else {
        i
    }
}

/// The first index at or after `i` that holds a space.
pub open spec fn next_space(l: Seq<char>, i: nat) -> Option<nat>
    decreases l.len() - i,
{
    if i >= l.len() {
        None
    } else if l[i as int] == ' ' {
        Some(i)
    } else {
        next_space(l, i + 1)
    }
}

/// A line of `zoxide query --list --score`, split into its (padded) score and
/// its path at the space after the score; none for a line without both.
pub open spec fn zoxide_entry(l: Seq<char>) -> Option<(Seq<char>, Seq<char>)> {
    match next_space(l, skip_spaces(l, 0)) {
        Some(j) => Some((l.subrange(0, j as int), l.subrange(j as int + 1, l.len() as int))),
        None => None,
    }
}

/// The candidate line for `fzf`: score, abbreviated path and full path,
/// separated by tabs.
pub open spec fn candidate_line(score: Seq<char>, path: Seq<char>, home: Option<Seq<char>>) -> Seq<char> {
    let shown = match home {
        Some(h) => abbreviated(path, h),
        None => path,
    };
    score + seq!['\t'] + shown + seq!['\t'] + path
}

/// The candidate lines made of the `zoxide` lines `ls`, in order; lines that
/// are no entries are left out.
pub open spec fn candidate_lines(ls: Seq<Seq<char>>, home: Option<Seq<char>>) -> Seq<Seq<char>>
    decreases ls.len(),
{
    if ls.len() == 0 {
        Seq::empty()
    } else {
        let before = candidate_lines(ls.drop_last(), home);
        match zoxide_entry(ls.last()) {
            Some(e) => before.push(candidate_line(e.0, e.1, home)),
            None => before,
        }
    }
}

/// Where the score of `l` ends: the index of the space after it, if any.
fn score_end(l: &Vec<char>) -> (r: Option<usize>)
    ensures
        match r {
            Some(j) => next_space(l@, skip_spaces(l@, 0)) == Some(j as nat) && j < l.len(),
            None => next_space(l@, skip_spaces(l@, 0)) is None,
        },
{
    let mut a: usize = 0;
    while a < l.len() && l[a] == ' '
        invariant
            a <= l.len(),
            skip_spaces(l@, 0) == skip_spaces(l@, a as nat),
        decreases l.len() - a,
    {
        a = a + 1;
    }
    let mut j: usize = a;
    while j < l.len() && l[j] != ' '
        invariant
            a <= j <= l.len(),
            skip_spaces(l@, 0) == a,
            next_space(l@, a as nat) == next_space(l@, j as nat),
        decreases l.len() - j,
    {
        j = j + 1;
    }
    if j < l.len() {
        Some(j)
    } else {
        None
    }
}

/// The `zoxide` candidates `raw` as lines for `fzf`: each entry becomes its
/// score, its path with the home directory written as `~`, and its full path,
/// separated by tabs; the lines are joined by newlines.
#[verifier::rlimit(40)]
pub fn abbreviate_zoxide_candidates_with(raw: &str, home: Option<&str>) -> (r: String)
    ensures
        r@ == join_lines(candidate_lines(lines(raw@), opt_view(home))),
{
    let v = chars_of(raw);
    let ls = crate::lines::split_lines(&v);
    let mut out: Vec<Vec<char>> = Vec::new();
    let mut i: usize = 0;
    assert(deep(ls@).take(0) =~= Seq::<Seq<char>>::empty());
    assert(deep(out@) =~= Seq::<Seq<char>>::empty());
    while i < ls.len()
        invariant
            i <= ls.len(),
            deep(ls@) == lines(raw@),
            deep(out@) == candidate_lines(deep(ls@).take(i as int), opt_view(home)),
        decreases ls.len() - i,
    {
        let ghost t = deep(ls@).take(i + 1);
        let ghost before = deep(out@);
        proof {
            assert(t.drop_last() =~= deep(ls@).take(i as int));
            assert(t.last() == ls@[i as int]@);
        }
        let l = &ls[i];
        match score_end(l) {
            None => {},
            Some(j) => {
                let mut path = String::new();
                push_range(&mut path, l, j + 1, l.len());
                let shown = abbreviate_home_with(path.as_str(), home);
                let mut line = String::new();
                push_range(&mut line, l, 0, j);
                push_char(&mut line, '\t');
                line.append(shown.as_str());
                push_char(&mut line, '\t');
                line.append(path.as_str());
                let lv = chars_of(line.as_str());
                out.push(lv);
                proof {
                    assert(deep(out@) =~= before.push(line@));
                    assert(line@ =~= candidate_line(
                        l@.subrange(0, j as int),
                        l@.subrange(j + 1, l@.len() as int),
                        opt_view(home),
                    ));
                }
            },
        }
        i = i + 1;
    }
    assert(deep(ls@).take(ls.len() as int) =~= deep(ls@));
    crate::lines::join_with_newlines(&out)
}

} // verus!
