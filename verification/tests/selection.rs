use runin::config::DirectorySource;
use runin::picker::{
    abbreviate_zoxide_candidates_with, absolute_root_path, check_search_root, fd_args, fzf_args,
    fzf_input_prefix, is_broken_pipe, parse_selection, select_directory, selection_path,
    zoxide_fzf_input, IoErrorKind, Picked, PickerRun,
};

#[test]
fn main_parse_selection_handles_root_path() {
    let parsed = parse_selection("/home/regueiro\n").expect("should parse root");
    assert_eq!(parsed, "/home/regueiro");
}

#[test]
fn main_parse_selection_handles_regular_path() {
    let parsed = parse_selection("/home/regueiro/project\n").expect("should parse path");
    assert_eq!(parsed, "/home/regueiro/project");
}

#[test]
fn main_parse_selection_ignores_empty_input() {
    assert_eq!(parse_selection("  \n"), None);
}

#[test]
fn tests_parse_selection_handles_root_path() {
    let parsed = parse_selection("/home/antonio\n").expect("should parse root");
    assert_eq!(parsed, "/home/antonio");
}

#[test]
fn tests_parse_selection_handles_regular_path() {
    let parsed = parse_selection("/home/antonio/project\n").expect("should parse path");
    assert_eq!(parsed, "/home/antonio/project");
}

#[test]
fn tests_parse_selection_ignores_empty_input() {
    assert_eq!(parse_selection("  \n"), None);
}

#[test]
fn parse_selection_trims_unicode_space_and_keeps_inner_space() {
    assert_eq!(
        parse_selection("\u{3000}\t/home/a b\r\n"),
        Some("/home/a b".to_string())
    );
}

#[test]
fn selection_path_expands_home_after_trimming_fzf_output() {
    let selected = selection_path("~\n", Some("/home/antonio")).expect("should parse selection");
    assert_eq!(selected, "/home/antonio");
}

#[test]
fn selection_path_keeps_text_without_home() {
    assert_eq!(selection_path(" ~/p \n", None), Some("~/p".to_string()));
    assert_eq!(
        selection_path("~/p\n", Some("/home/antonio")),
        Some("/home/antonio/p".to_string())
    );
    assert_eq!(selection_path("\n", Some("/home/antonio")), None);
}

#[test]
fn main_absolute_root_path_keeps_absolute_paths() {
    let root = absolute_root_path("/tmp", "/home/regueiro");
    assert_eq!(root, "/tmp");
}

#[test]
fn main_absolute_root_path_resolves_relative_paths() {
    let root = absolute_root_path("relative-root", "/home/regueiro");
    assert!(root.starts_with('/'));
    assert!(root.ends_with("relative-root"));
}

#[test]
fn tests_absolute_root_path_keeps_absolute_paths() {
    let root = absolute_root_path("/tmp", "/home/antonio");
    assert_eq!(root, "/tmp");
}

#[test]
fn tests_absolute_root_path_resolves_relative_paths() {
    let root = absolute_root_path("relative-root", "/home/antonio");
    assert!(root.starts_with('/'));
    assert!(root.ends_with("relative-root"));
}

#[test]
fn absolute_root_path_joins_with_one_separator() {
    assert_eq!(absolute_root_path("src", "/work"), "/work/src");
    assert_eq!(absolute_root_path("src", "/"), "/src");
}

#[test]
fn is_broken_pipe_matches_broken_pipe_only() {
    assert!(is_broken_pipe(IoErrorKind::BrokenPipe));
    assert!(!is_broken_pipe(IoErrorKind::PermissionDenied));
}

#[test]
fn abbreviate_zoxide_candidates_keeps_scores_and_shortens_home_paths() {
    assert_eq!(
        abbreviate_zoxide_candidates_with(" 218.0 /home/antonio/project\n", Some("/home/antonio")),
        " 218.0\t~/project\t/home/antonio/project"
    );
}

#[test]
fn abbreviate_zoxide_candidates_handles_several_lines() {
    let raw = "  12.5 /home/antonio\n   3.0 /srv/data dir\n\n   bad\n";
    assert_eq!(
        abbreviate_zoxide_candidates_with(raw, Some("/home/antonio")),
        "  12.5\t~\t/home/antonio\n   3.0\t/srv/data dir\t/srv/data dir"
    );
    assert_eq!(
        abbreviate_zoxide_candidates_with(" 1.0 /home/antonio/x", None),
        " 1.0\t/home/antonio/x\t/home/antonio/x"
    );
    assert_eq!(abbreviate_zoxide_candidates_with("", None), "");
}

#[test]
fn check_search_root_reports_each_problem() {
    assert_eq!(
        check_search_root("/nope", false, false),
        Err("Search root does not exist: /nope".to_string())
    );
    assert_eq!(
        check_search_root("/etc/passwd", true, false),
        Err("Search root is not a directory: /etc/passwd".to_string())
    );
    assert_eq!(check_search_root("/tmp", true, true), Ok(()));
}

#[test]
fn fd_args_add_hidden_only_when_asked() {
    assert_eq!(
        fd_args("/srv", false),
        vec!["--type", "directory", "--absolute-path", ".", "/srv"]
    );
    assert_eq!(
        fd_args("/srv", true),
        vec!["--type", "directory", "--absolute-path", "--hidden", ".", "/srv"]
    );
}

fn run(lister: bool, early: bool, code: Option<i32>, ok: bool, sel: &str) -> PickerRun {
    PickerRun {
        lister_succeeded: lister,
        fzf_closed_stdin_early: early,
        fzf_exit_code: code,
        fzf_succeeded: ok,
        selection: sel.to_string(),
    }
}

#[test]
fn select_directory_reads_the_picker_outcome() {
    let fd = DirectorySource::Fd;
    match select_directory(&run(true, false, Some(0), true, "/srv/a\n"), fd, "/srv", false, None) {
        Ok(Picked::Directory(d)) => assert_eq!(d, "/srv/a"),
        other => panic!("unexpected {:?}", other),
    }
    assert!(matches!(
        select_directory(&run(true, false, Some(130), false, ""), fd, "/srv", false, None),
        Ok(Picked::Interrupted)
    ));
    assert!(matches!(
        select_directory(&run(true, false, Some(1), false, ""), fd, "/srv", false, None),
        Ok(Picked::Nothing)
    ));
    assert!(matches!(
        select_directory(&run(true, false, Some(0), true, " \n"), fd, "/srv", false, None),
        Ok(Picked::Nothing)
    ));
    match select_directory(&run(true, false, None, false, ""), fd, "/srv", false, None) {
        Err(e) => assert_eq!(e, "fzf terminated by signal"),
        other => panic!("unexpected {:?}", other),
    }
    match select_directory(&run(false, false, Some(0), true, "/srv/a"), fd, "/srv", true, None) {
        Err(e) => assert_eq!(
            e,
            "fd failed while listing directories (search_root: /srv, include_hidden: true)"
        ),
        other => panic!("unexpected {:?}", other),
    }
    match select_directory(&run(false, true, Some(0), true, "/srv/a"), fd, "/srv", true, None) {
        Ok(Picked::Directory(d)) => assert_eq!(d, "/srv/a"),
        other => panic!("unexpected {:?}", other),
    }
}

#[test]
fn select_directory_expands_zoxide_selections() {
    let z = DirectorySource::Zoxide;
    match select_directory(&run(true, false, Some(0), true, "~/p\n"), z, "", false, Some("/home/a")) {
        Ok(Picked::Directory(d)) => assert_eq!(d, "/home/a/p"),
        other => panic!("unexpected {:?}", other),
    }
    match select_directory(&run(false, false, Some(0), true, "~/p"), z, "", false, Some("/home/a")) {
        Err(e) => assert_eq!(e, "zoxide failed while listing directories"),
        other => panic!("unexpected {:?}", other),
    }
}

#[test]
fn fzf_gets_the_root_line_first_only_when_asked() {
    assert_eq!(fzf_input_prefix("/srv/code", "/home/me", true), "/srv/code\n");
    assert_eq!(fzf_input_prefix("code", "/home/me", true), "/home/me/code\n");
    assert_eq!(fzf_input_prefix("code", "/home/me", false), "");
}

#[test]
fn fzf_arguments_for_each_source() {
    let common = vec![
        "--height",
        "60%",
        "--layout",
        "reverse",
        "--border",
        "--info",
        "inline-right",
        "--header",
        "Type to filter | Enter select | Esc cancel",
        "--prompt",
        "project > ",
    ];
    assert_eq!(fzf_args(DirectorySource::Fd), common);
    let mut zoxide = common.clone();
    zoxide.extend(["--delimiter", "\t", "--with-nth", "1,2", "--accept-nth", "2"]);
    assert_eq!(fzf_args(DirectorySource::Zoxide), zoxide);
}

#[test]
fn zoxide_input_ends_each_candidate_line() {
    assert_eq!(
        zoxide_fzf_input(" 218.0 /home/me/a\n 3.5 /tmp/b\n", Some("/home/me")),
        " 218.0\t~/a\t/home/me/a\n 3.5\t/tmp/b\t/tmp/b\n"
    );
}
