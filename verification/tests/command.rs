use portable_pty::PtySize;
use session_mux::command::{build_command, command_or_shell};
use session_mux::size::TerminalSize;
use portable_pty::CommandBuilder;

fn words(list: &[&str]) -> Vec<String> {
    list.iter().map(|w| w.to_string()).collect()
}

fn argv(c: &CommandBuilder) -> Vec<String> {
    c.get_argv().iter().map(|a| a.to_str().unwrap().to_string()).collect()
}

#[test]
fn no_program_gives_no_command() {
    assert!(build_command(&Vec::new()).is_none());
}

#[test]
fn program_alone() {
    let c = build_command(&words(&["bash"])).unwrap();
    assert_eq!(argv(&c), words(&["bash"]));
}

#[test]
fn program_with_arguments() {
    let c = build_command(&words(&["bash", "-l", "-c", "echo hi"])).unwrap();
    assert_eq!(argv(&c), words(&["bash", "-l", "-c", "echo hi"]));
}

#[test]
fn shell_stands_in_for_a_missing_command() {
    let c = command_or_shell(None, "/bin/zsh");
    assert_eq!(argv(&c), words(&["/bin/zsh"]));
    let given = build_command(&words(&["top", "-d", "1"]));
    let c = command_or_shell(given, "/bin/zsh");
    assert_eq!(argv(&c), words(&["top", "-d", "1"]));
}

#[test]
fn default_size_is_80_by_24() {
    assert_eq!(TerminalSize::default_size(), TerminalSize { cols: 80, rows: 24 });
}

#[test]
fn sizes_convert_to_and_from_pty_sizes() {
    let pty = PtySize { rows: 43, cols: 132, pixel_width: 7, pixel_height: 9 };
    assert_eq!(TerminalSize::from_pty(pty), TerminalSize { cols: 132, rows: 43 });
    assert_eq!(
        TerminalSize { cols: 132, rows: 43 }.to_pty(),
        PtySize { rows: 43, cols: 132, pixel_width: 0, pixel_height: 0 }
    );
}
