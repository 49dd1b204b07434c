use sshell_rs::sysfs::{backlight_rank, order_candidates, override_paths, topology_lines, BacklightDir, BacklightReading};

fn dir(name: &str) -> BacklightDir {
    BacklightDir { name: name.to_string(), path: format!("/sys/class/backlight/{}", name) }
}

#[test]
fn primary_backlight_preference() {
    assert_eq!(backlight_rank("intel_backlight"), 0);
    assert_eq!(backlight_rank("amdgpu_bl0"), 1);
    assert_eq!(backlight_rank("nvidia_0"), 1);
    assert_eq!(backlight_rank("acpi_video0"), 2);
    let ordered = order_candidates(&vec![dir("acpi_video0"), dir("nvidia_0"), dir("intel_backlight"), dir("acpi_video1"), dir("amdgpu_bl0")]);
    let names: Vec<&str> = ordered.iter().map(|d| d.name.as_str()).collect();
    assert_eq!(names, vec!["intel_backlight", "nvidia_0", "amdgpu_bl0", "acpi_video0", "acpi_video1"]);
    assert_eq!(ordered[0].path, "/sys/class/backlight/intel_backlight");
}

#[test]
fn topology_text() {
    let lines = topology_lines(&vec![
        BacklightReading { path: "/sys/class/backlight/intel_backlight".into(), cur: Some(7743), max: Some(21333) },
        BacklightReading { path: "/sys/class/backlight/x".into(), cur: None, max: None },
    ]);
    assert_eq!(lines, vec![
        "backlight /sys/class/backlight/intel_backlight cur=7743 max=21333".to_string(),
        "backlight /sys/class/backlight/x cur=0 max=0".to_string(),
    ]);
}

#[test]
fn override_flag_locations() {
    assert_eq!(
        override_paths(Some("/run/user/1000"), &vec!["/run/user/1".to_string()]),
        vec!["/run/user/1000/sshell/backlight-override".to_string(), "/run/sshell/backlight-override".to_string()]
    );
    let users: Vec<String> = (0..12).map(|i| format!("/run/user/{}", i)).collect();
    let v = override_paths(None, &users);
    assert_eq!(v.len(), 9);
    assert_eq!(v[0], "/run/sshell/backlight-override");
    assert_eq!(v[1], "/run/user/0/sshell/backlight-override");
    assert_eq!(v[8], "/run/user/7/sshell/backlight-override");
    assert_eq!(override_paths(None, &vec![]), vec!["/run/sshell/backlight-override".to_string()]);
}
