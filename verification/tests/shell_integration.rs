use runin::managed_block::{remove_managed_block, upsert_managed_block};
use runin::quote::{fish_single_quote, sh_single_quote};
use runin::shell::{
    config_home, handle_shell_command, home_dir, infer_shell, join_path, resolve_init_shell,
    resolve_shell, shell_init, shell_install_path, shell_rc_path, source_block, zdotdir, Shell,
    ShellAction, ShellCommand,
};

#[test]
fn shell_init_embeds_binary_path_instead_of_requiring_path_lookup() {
    let bash = shell_init(Shell::Bash, "/tmp/runin");
    let fish = shell_init(Shell::Fish, "/tmp/runin");

    assert!(bash.contains("'/tmp/runin' --emit-cd-path"));
    assert!(fish.contains("'/tmp/runin' --emit-cd-path"));
    assert!(bash.contains("export RUNIN_SHELL_INTEGRATION=1"));
    assert!(fish.contains("set -gx RUNIN_SHELL_INTEGRATION 1"));
    assert!(!bash.contains("command runin"));
    assert!(!fish.contains("command runin"));
}

#[test]
fn managed_shell_block_is_idempotent_and_removable() {
    let block = source_block("/tmp/runin/runin.bash");
    let rc_file = "alias ll='ls -la'\n";

    let once = upsert_managed_block(rc_file, &block);
    let twice = upsert_managed_block(&once, &block);

    assert_eq!(once, twice);
    assert!(once.contains("alias ll='ls -la'"));
    assert!(once.contains("# >>> runin shell integration >>>"));
    assert_eq!(remove_managed_block(&once), rc_file);
}

#[test]
fn source_block_has_the_documented_layout() {
    assert_eq!(
        source_block("/tmp/it's/runin.bash"),
        "# >>> runin shell integration >>>\nif [ -r '/tmp/it'\\''s/runin.bash' ]; then\n    . '/tmp/it'\\''s/runin.bash'\nfi\n# <<< runin shell integration <<<"
    );
}

#[test]
fn upsert_into_empty_file_and_replacing_an_old_block() {
    let block = source_block("/a");
    assert_eq!(upsert_managed_block("", &block), format!("{block}\n"));
    let old = source_block("/old");
    let file = format!("x\n\n{old}\ny\n");
    assert_eq!(upsert_managed_block(&file, &block), format!("x\ny\n\n{block}\n"));
}

#[test]
fn remove_managed_block_keeps_everything_else() {
    let block = source_block("/a");
    let file = format!("a\n\n{block}\nb\n");
    assert_eq!(remove_managed_block(&file), "a\nb\n");
    assert_eq!(remove_managed_block(&block), "");
    assert_eq!(remove_managed_block("a\r\nb"), "a\nb");
    assert_eq!(remove_managed_block("no block here"), "no block here");
}

#[test]
fn quoting_escapes_only_what_each_shell_needs() {
    assert_eq!(sh_single_quote("a'b"), "'a'\\''b'");
    assert_eq!(sh_single_quote("a\\b"), "'a\\b'");
    assert_eq!(fish_single_quote("a'b\\c"), "'a\\'b\\\\c'");
    assert_eq!(sh_single_quote(""), "''");
}

#[test]
fn posix_and_fish_scripts_differ_by_shell() {
    let zsh = shell_init(Shell::Zsh, "/opt/run in");
    assert!(zsh.starts_with("# runin shell integration\nexport RUNIN_SHELL_INTEGRATION=1\n"));
    assert!(zsh.contains("    '/opt/run in' --emit-cd-path \"$_runin_target\" \"$@\"\n"));
    assert!(zsh.ends_with("    return \"$_runin_status\"\n}\n"));
    let fish = shell_init(Shell::Fish, "/opt/it's");
    assert!(fish.contains("    '/opt/it\\'s' --emit-cd-path \"$_runin_target\" $argv\n"));
    assert!(fish.ends_with("    return $_runin_status\nend\n"));
}

#[test]
fn shell_names_and_inference() {
    assert_eq!(Shell::Bash.name(), "bash");
    assert_eq!(Shell::Zsh.name(), "zsh");
    assert_eq!(Shell::Fish.name(), "fish");
    assert_eq!(infer_shell(Some("zsh")), Some(Shell::Zsh));
    assert_eq!(infer_shell(Some("sh")), None);
    assert_eq!(infer_shell(None), None);
}

#[test]
fn resolving_the_shell_prefers_the_given_one() {
    assert_eq!(resolve_shell(Some(Shell::Fish), Some(Shell::Bash)), Ok(Shell::Fish));
    assert_eq!(resolve_shell(None, Some(Shell::Bash)), Ok(Shell::Bash));
    assert_eq!(
        resolve_shell(None, None),
        Err("Could not infer shell. Pass one explicitly: bash, zsh, or fish.".to_string())
    );
    assert_eq!(
        resolve_init_shell(None, None),
        Err("Could not infer shell. Run `runin init bash`, `runin init zsh`, or `runin init fish`.".to_string())
    );
}

#[test]
fn shell_commands_become_actions() {
    assert_eq!(
        handle_shell_command(ShellCommand::Install { shell: None }, Some(Shell::Zsh)),
        Ok(ShellAction::Install(Shell::Zsh))
    );
    assert_eq!(
        handle_shell_command(ShellCommand::Status { shell: Some(Shell::Bash) }, None),
        Ok(ShellAction::Status(Shell::Bash))
    );
    assert!(handle_shell_command(ShellCommand::Uninstall { shell: None }, None).is_err());
}

#[test]
fn integration_paths_follow_xdg_and_zdotdir() {
    assert_eq!(
        shell_install_path(Shell::Bash, None, Some("/home/a")),
        Ok("/home/a/.config/runin/runin.bash".to_string())
    );
    assert_eq!(
        shell_install_path(Shell::Fish, Some("/x/"), Some("/home/a")),
        Ok("/x/fish/conf.d/runin.fish".to_string())
    );
    assert_eq!(
        shell_install_path(Shell::Zsh, None, None),
        Err("HOME environment variable is not set".to_string())
    );
    assert_eq!(
        shell_rc_path(Shell::Bash, Some("/home/a"), None),
        Ok(Some("/home/a/.bashrc".to_string()))
    );
    assert_eq!(
        shell_rc_path(Shell::Zsh, Some("/home/a"), Some("/z")),
        Ok(Some("/z/.zshrc".to_string()))
    );
    assert_eq!(shell_rc_path(Shell::Fish, None, None), Ok(None));
    assert_eq!(config_home(None, Some("/h")), Ok("/h/.config".to_string()));
    assert_eq!(zdotdir(None, Some("/h")), Ok("/h".to_string()));
    assert_eq!(home_dir(None), Err("HOME environment variable is not set".to_string()));
}

#[test]
fn join_path_behaves_like_path_join() {
    assert_eq!(join_path("/a", "b"), "/a/b");
    assert_eq!(join_path("/a/", "b"), "/a/b");
    assert_eq!(join_path("", "b"), "b");
    assert_eq!(join_path("/a", "/b"), "/b");
}

#[test]
fn installing_twice_on_a_crlf_file_equals_installing_once() {
    let block = source_block("/tmp/runin/runin.bash");
    let rc_file = "a\r\nb\r\n";
    let once = upsert_managed_block(rc_file, &block);
    assert_eq!(once, format!("a\nb\n\n{block}\n"));
    assert_eq!(upsert_managed_block(&once, &block), once);
}

#[test]
fn upsert_leaves_one_opening_marker_and_keeps_other_lines() {
    let block = source_block("/new");
    let old = source_block("/old");
    let file = format!("a\n{old}\nb\n\n{old}\nc\n");
    let result = upsert_managed_block(&file, &block);
    let starts = result
        .lines()
        .filter(|l| *l == "# >>> runin shell integration >>>")
        .count();
    assert_eq!(starts, 1);
    assert!(result.ends_with(&format!("{block}\n")));
    assert_eq!(remove_managed_block(&result), "a\nb\nc\n");
    assert_eq!(result, format!("a\nb\nc\n\n{block}\n"));
}
