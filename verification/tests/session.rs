use sshell_rs::session::session_command;

#[test]
fn session_actions() {
    let s = |v: &[&str]| Some(v.iter().map(|x| x.to_string()).collect::<Vec<String>>());
    assert_eq!(session_command("suspend", "u"), s(&["systemctl", "suspend"]));
    assert_eq!(session_command("reboot", "u"), s(&["systemctl", "reboot"]));
    assert_eq!(session_command("poweroff", "u"), s(&["systemctl", "poweroff"]));
    assert_eq!(session_command("logout", "alice"), s(&["loginctl", "terminate-user", "alice"]));
    assert_eq!(session_command("lock", "u"), s(&["loginctl", "lock-session"]));
    assert_eq!(session_command("hibernate", "u"), None);
}
