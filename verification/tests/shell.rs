use termsnoop::boundary::ShellIntegration;
use termsnoop::shell::{
    choose_shell, default_shell_for, init_script_file_name, shell_startup_args, ShellKind,
    BASH_INIT, FISH_INIT, PWSH_INIT, ZSH_INIT,
};

#[test]
fn shell_kinds_from_commands() {
    assert_eq!(ShellKind::of_command("bash"), Some(ShellKind::Bash));
    assert_eq!(ShellKind::of_command("/bin/bash"), Some(ShellKind::Bash));
    assert_eq!(ShellKind::of_command("/usr/bin/zsh"), Some(ShellKind::Zsh));
    assert_eq!(ShellKind::of_command("fish"), Some(ShellKind::Fish));
    assert_eq!(ShellKind::of_command("pwsh.exe"), Some(ShellKind::Pwsh));
    assert_eq!(ShellKind::of_command("PowerShell"), Some(ShellKind::Pwsh));
    assert_eq!(ShellKind::of_command("BASH"), Some(ShellKind::Bash));
    assert_eq!(ShellKind::of_command("/bin/sh"), None);
    assert_eq!(ShellKind::of_command("cmd.exe"), None);
}

#[test]
fn shell_init_scripts() {
    assert_eq!(ShellIntegration::init_script("bash").as_deref(), Some(BASH_INIT));
    assert_eq!(ShellIntegration::init_script("/usr/bin/zsh").as_deref(), Some(ZSH_INIT));
    assert_eq!(ShellIntegration::init_script("fish").as_deref(), Some(FISH_INIT));
    assert_eq!(ShellIntegration::init_script("pwsh").as_deref(), Some(PWSH_INIT));
    assert_eq!(ShellIntegration::init_script("nu"), None);
    assert!(BASH_INIT.contains("133;C"));
}

#[test]
fn shell_startup() {
    assert_eq!(init_script_file_name(ShellKind::Pwsh), "init.ps1");
    assert_eq!(init_script_file_name(ShellKind::Fish), "init.fish");
    assert_eq!(init_script_file_name(ShellKind::Bash), "init.sh");
    assert_eq!(init_script_file_name(ShellKind::Zsh), "init.sh");
    assert_eq!(
        shell_startup_args(Some(ShellKind::Pwsh), Some("/s/init.ps1")),
        vec!["-NoExit", "-Command", ". '/s/init.ps1'"]
    );
    assert_eq!(
        shell_startup_args(Some(ShellKind::Bash), Some("/s/init.sh")),
        vec!["--rcfile", "/s/init.sh"]
    );
    assert_eq!(
        shell_startup_args(Some(ShellKind::Zsh), Some("/s/init.sh")),
        vec!["-c", "source '/s/init.sh'; exec zsh -i"]
    );
    assert_eq!(
        shell_startup_args(Some(ShellKind::Fish), Some("/s/init.fish")),
        vec!["--init-command", "source '/s/init.fish'"]
    );
    assert!(shell_startup_args(Some(ShellKind::Bash), None).is_empty());
    assert!(shell_startup_args(None, Some("/s/init.sh")).is_empty());
}

#[test]
fn shell_choice() {
    assert_eq!(choose_shell(Some("zsh".into()), Some("fish".into()), "sh".into()), "zsh");
    assert_eq!(choose_shell(None, Some("fish".into()), "sh".into()), "fish");
    assert_eq!(choose_shell(None, None, "sh".into()), "sh");
    assert_eq!(default_shell_for(true, Some("/bin/bash".into())), "pwsh");
    assert_eq!(default_shell_for(false, Some("/bin/bash".into())), "/bin/bash");
    assert_eq!(default_shell_for(false, None), "/bin/sh");
}

#[test]
fn shell_kind_ignores_trailing_separator() {
    assert_eq!(ShellKind::of_command("/bin/bash/"), Some(ShellKind::Bash));
    assert_eq!(ShellKind::of_command("/usr/bin/zsh/."), Some(ShellKind::Zsh));
    assert_eq!(ShellKind::of_command("fish//./"), Some(ShellKind::Fish));
    assert_eq!(ShellKind::of_command("/bin/sh/"), None);
    assert!(ShellIntegration::init_script("/bin/bash/").is_some());
}
