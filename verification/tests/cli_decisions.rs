use runin::cli::{
    apply_config_overrides, cd_target_content, cd_target_to_write, config_overrides, dependency_status_line,
    doctor_config_line, ensure_dependencies, install_report_lines,
    missing_config_non_interactive_error, resolve_cd_after_run, resolve_config_toggle,
    resolve_include_hidden, shell_status, shell_status_lines, should_save_config,
    uninstall_report_line,
};
use runin::config::{
    abbreviate_home_with, config_path, default_cd_after_run, expand_home, expand_home_with,
    Config, DirectorySource, DEFAULT_COMMAND, DEFAULT_SEARCH_ROOT,
};
use runin::shell::Shell;
use runin::quote::sh_single_quote;
use runin::words::{command_parts, parts_from_words};

#[test]
fn resolve_include_hidden_uses_hidden_override() {
    assert!(resolve_include_hidden(true, false));
}

#[test]
fn resolve_include_hidden_falls_back_to_default() {
    assert!(resolve_include_hidden(false, true));
    assert!(!resolve_include_hidden(false, false));
}

#[test]
fn resolve_config_toggle_interprets_enable_disable_flags() {
    assert_eq!(resolve_config_toggle(true, false), Some(true));
    assert_eq!(resolve_config_toggle(false, true), Some(false));
    assert_eq!(resolve_config_toggle(false, false), None);
}

#[test]
fn resolve_cd_after_run_prefers_flags() {
    assert!(resolve_cd_after_run(true, false, false));
    assert!(!resolve_cd_after_run(false, true, true));
    assert!(resolve_cd_after_run(false, false, true));
}

#[test]
fn missing_config_error_allows_interactive_setup_when_tty_available() {
    let path = "/tmp/runin-config.toml";
    assert_eq!(missing_config_non_interactive_error(path, true, true), None);
}

#[test]
fn missing_config_error_blocks_when_stdin_is_not_tty() {
    let path = "/tmp/runin-config.toml";
    let err =
        missing_config_non_interactive_error(path, false, true).expect("expected non-tty error");
    assert!(err.contains("Config not found"));
    assert!(err.contains("runin config"));
}

#[test]
fn missing_config_error_blocks_when_stdout_is_not_tty() {
    let path = "/tmp/runin-config.toml";
    let err =
        missing_config_non_interactive_error(path, true, false).expect("expected non-tty error");
    assert!(err.contains("Config not found"));
    assert!(err.contains("runin config"));
}

#[test]
fn missing_config_error_names_the_path() {
    assert_eq!(
        missing_config_non_interactive_error("/c.toml", false, false),
        Some("Config not found at /c.toml.\nRun `runin config` in an interactive terminal to create it.".to_string())
    );
}

#[test]
fn expand_home_with_expands_supported_prefixes_only() {
    let home = "/home/antonio";
    assert_eq!(
        expand_home_with("$HOME/Projects", home),
        "/home/antonio/Projects"
    );
    assert_eq!(
        expand_home_with("${HOME}/Projects", home),
        "/home/antonio/Projects"
    );
    assert_eq!(
        expand_home_with("~/Projects", home),
        "/home/antonio/Projects"
    );
    assert_eq!(expand_home_with("~", home), "/home/antonio");
    assert_eq!(expand_home_with("/tmp/$HOME", home), "/tmp/$HOME");
}

#[test]
fn expand_home_without_home_keeps_the_path() {
    assert_eq!(expand_home("$HOME/x", None), "$HOME/x");
    assert_eq!(expand_home("~user", Some("/h")), "~user");
    assert_eq!(expand_home("$HOMEDIR", Some("/h")), "/hDIR");
}

#[test]
fn abbreviate_home_with_replaces_only_a_home_path_prefix() {
    assert_eq!(
        abbreviate_home_with("/home/antonio/project", Some("/home/antonio")),
        "~/project"
    );
    assert_eq!(
        abbreviate_home_with("/home/antonio", Some("/home/antonio")),
        "~"
    );
    assert_eq!(
        abbreviate_home_with("/home/antonio-other", Some("/home/antonio")),
        "/home/antonio-other"
    );
}

#[test]
fn abbreviate_then_expand_gives_the_path_back() {
    for p in ["/home/antonio/project", "/home/antonio", "/srv/x", ""] {
        let short = abbreviate_home_with(p, Some("/home/antonio"));
        assert_eq!(expand_home_with(&short, "/home/antonio"), p);
    }
    assert_eq!(abbreviate_home_with("/x", None), "/x");
    assert_eq!(abbreviate_home_with("/x", Some("")), "/x");
}

#[test]
fn default_config_has_documented_values() {
    let cfg = Config::default();
    assert_eq!(cfg.search_root, DEFAULT_SEARCH_ROOT);
    assert_eq!(cfg.search_root, "$HOME/Documents");
    assert_eq!(cfg.default_command, DEFAULT_COMMAND);
    assert_eq!(cfg.default_command, "nvim .");
    assert_eq!(cfg.directory_source, DirectorySource::Zoxide);
    assert!(!cfg.include_root);
    assert!(!cfg.include_hidden);
    assert!(cfg.cd_after_run);
    assert!(default_cd_after_run());
}

#[test]
fn config_path_is_under_dot_config() {
    assert_eq!(
        config_path(Some("/home/antonio")),
        Ok("/home/antonio/.config/runin/config.toml".to_string())
    );
    assert_eq!(
        config_path(None),
        Err("HOME environment variable is not set".to_string())
    );
}

#[test]
fn config_overrides_apply_and_settle() {
    let base = Config::default();
    let o = config_overrides(Some("/srv".to_string()), None, true, false, false, true, false, false);
    assert!(!o.is_empty());
    let once = apply_config_overrides(base.clone(), o);
    assert_eq!(once.search_root, "/srv");
    assert_eq!(once.default_command, "nvim .");
    assert!(once.include_root);
    assert!(!once.include_hidden);
    assert!(once.cd_after_run);
    assert!(should_save_config(true, &base, &once));
    let o2 = config_overrides(Some("/srv".to_string()), None, true, false, false, true, false, false);
    let twice = apply_config_overrides(once.clone(), o2);
    assert!(!should_save_config(true, &once, &twice));
    assert!(should_save_config(false, &once, &twice));
    let none = config_overrides(None, None, false, false, false, false, false, false);
    assert!(none.is_empty());
}

#[test]
fn command_parts_prefers_the_command_line() {
    let cmd = vec!["tmux".to_string(), "new-session".to_string()];
    assert_eq!(command_parts(cmd.clone(), "nvim ."), Ok(cmd));
}

#[test]
fn command_parts_splits_the_default_command() {
    assert_eq!(
        command_parts(Vec::new(), "nvim 'my file' \"x y\""),
        Ok(vec!["nvim".to_string(), "my file".to_string(), "x y".to_string()])
    );
    assert_eq!(
        command_parts(Vec::new(), "nvim 'oops"),
        Err("Invalid default_command in config: missing closing quote".to_string())
    );
    assert_eq!(
        command_parts(Vec::new(), "   "),
        Err("default_command cannot be empty".to_string())
    );
}

#[test]
fn parts_from_words_checks_the_words() {
    assert_eq!(
        parts_from_words(None),
        Err("Invalid default_command in config: missing closing quote".to_string())
    );
    assert_eq!(
        parts_from_words(Some(Vec::new())),
        Err("default_command cannot be empty".to_string())
    );
    assert_eq!(parts_from_words(Some(vec!["ls".to_string()])), Ok(vec!["ls".to_string()]));
}

#[test]
fn ensure_dependencies_names_the_missing_tools() {
    assert_eq!(ensure_dependencies(true, true), Ok(()));
    assert_eq!(
        ensure_dependencies(false, false),
        Err("Missing required dependencies: fd, fzf.\nInstall `fd` and `fzf`, and ensure both are available in PATH.".to_string())
    );
    assert!(ensure_dependencies(true, false).unwrap_err().starts_with("Missing required dependencies: fzf."));
    assert!(ensure_dependencies(false, true).unwrap_err().starts_with("Missing required dependencies: fd."));
}

#[test]
fn write_cd_target_content_ends_with_newline() {
    assert_eq!(cd_target_content("/home/antonio/project"), "/home/antonio/project\n");
}

#[test]
fn doctor_lines() {
    assert_eq!(doctor_config_line(&Ok("/c".to_string()), true), "config: ok (/c)");
    assert_eq!(doctor_config_line(&Ok("/c".to_string()), false), "config: missing (/c)");
    assert_eq!(doctor_config_line(&Err("boom".to_string()), false), "config: error (boom)");
    assert_eq!(dependency_status_line("fd", true), "fd: ok");
    assert_eq!(dependency_status_line("fzf", false), "fzf: missing");
}

#[test]
fn shell_status_detects_the_block_and_the_variable() {
    let block = runin::shell::source_block("/i");
    let rc = format!("x\n\n{block}\n");
    let st = shell_status("/i".to_string(), Some("/rc".to_string()), true, Some(&rc), Some("1"));
    assert!(st.startup_configured);
    assert!(st.active);
    assert_eq!(
        shell_status_lines(Shell::Bash, &st),
        vec![
            "shell: bash",
            "integration file: /i (installed)",
            "startup file: /rc (configured)",
            "current shell: active"
        ]
    );
    let st = shell_status("/f".to_string(), None, false, None, Some("0"));
    assert!(!st.startup_configured);
    assert!(!st.active);
    assert_eq!(
        shell_status_lines(Shell::Fish, &st),
        vec![
            "shell: fish",
            "integration file: /f (missing)",
            "current shell: not active; restart your shell or source the integration file"
        ]
    );
}

#[test]
fn install_and_uninstall_reports() {
    assert_eq!(
        install_report_lines("/i/runin.bash", Some("/h/.bashrc")),
        vec![
            "installed: /i/runin.bash",
            "updated: /h/.bashrc",
            "",
            "Restart your shell, or run:",
            "  . '/i/runin.bash'"
        ]
    );
    assert_eq!(
        install_report_lines("/c/fish/conf.d/runin.fish", None),
        vec![
            "installed: /c/fish/conf.d/runin.fish",
            "",
            "Restart your shell, or run:",
            "  source '/c/fish/conf.d/runin.fish'"
        ]
    );
    assert_eq!(uninstall_report_line("/i", true), "removed: /i");
    assert_eq!(uninstall_report_line("/i", false), "not installed: /i");
}

#[test]
fn a_quoted_default_command_runs_the_quoted_value() {
    for value in ["/opt/my editor/bin/edit", "it's", "", "a\nb", "\\$x \"y\""] {
        let quoted = sh_single_quote(value);
        assert_eq!(command_parts(Vec::new(), &quoted), Ok(vec![value.to_string()]));
    }
}

#[test]
fn the_cd_target_is_written_only_for_a_valid_command_when_asked() {
    let ok: Result<Vec<String>, String> = Ok(vec!["nvim".to_string()]);
    let bad: Result<Vec<String>, String> = Err("default_command cannot be empty".to_string());
    assert_eq!(cd_target_to_write(&ok, true, true, "/p"), Some("/p\n".to_string()));
    assert_eq!(cd_target_to_write(&ok, false, true, "/p"), None);
    assert_eq!(cd_target_to_write(&ok, true, false, "/p"), None);
    assert_eq!(cd_target_to_write(&bad, true, true, "/p"), None);
}
