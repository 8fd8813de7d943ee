use session_mux::shell::{get_shell, ShellError};

#[test]
fn environment_wins() {
    assert_eq!(get_shell(Some("/bin/zsh".to_string()), None), Ok("/bin/zsh".to_string()));
    assert_eq!(
        get_shell(Some("/bin/zsh".to_string()), Some(b"/bin/bash".to_vec())),
        Ok("/bin/zsh".to_string())
    );
    assert_eq!(get_shell(Some("/bin/zsh".to_string()), Some(vec![0xff])), Ok("/bin/zsh".to_string()));
}

#[test]
fn password_database_is_the_fallback() {
    assert_eq!(get_shell(None, Some(b"/bin/bash".to_vec())), Ok("/bin/bash".to_string()));
    assert_eq!(get_shell(None, Some("/opt/schäl".as_bytes().to_vec())), Ok("/opt/schäl".to_string()));
    assert_eq!(get_shell(None, Some(Vec::new())), Ok(String::new()));
}

#[test]
fn users_without_an_entry_get_sh() {
    assert_eq!(get_shell(None, None), Ok("/bin/sh".to_string()));
}

#[test]
fn shell_that_is_not_utf8_is_an_error() {
    assert_eq!(get_shell(None, Some(vec![b'/', 0xff, 0xfe])), Err(ShellError::NotUtf8));
    assert_eq!(get_shell(None, Some(vec![0xc3])), Err(ShellError::NotUtf8));
}
