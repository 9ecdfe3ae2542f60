use container_desktop_entries::container_type::ContainerType;

#[test]
fn toolbox_is_supported() {
    assert!(!ContainerType::Toolbox.not_supported());
    assert!(ContainerType::Podman.not_supported());
    assert!(ContainerType::Docker.not_supported());
    assert!(ContainerType::Unknown.not_supported());
}

#[test]
fn format_start_toolbox() {
    let cmd = ContainerType::Toolbox.format_start("fedora-toolbox-40");
    assert_eq!(cmd, "toolbox run -c fedora-toolbox-40 echo 'Started'");
}

#[test]
fn format_start_unsupported_is_empty() {
    assert_eq!(ContainerType::Docker.format_start("x"), "");
    assert_eq!(ContainerType::Unknown.format_start("x"), "");
}

#[test]
fn format_exec_toolbox() {
    let cmd = ContainerType::Toolbox.format_exec("demo", "ls -la");
    assert_eq!(cmd, "toolbox run -c demo ls -la");
}

#[test]
fn format_exec_unsupported_is_empty() {
    assert_eq!(ContainerType::Podman.format_exec("demo", "ls"), "");
}

#[test]
fn format_copy_toolbox() {
    let cmd = ContainerType::Toolbox.format_copy("demo", "/usr/share/applications", "/tmp/ws/applications");
    assert_eq!(
        cmd,
        "podman container cp demo:/usr/share/applications/. /tmp/ws/applications/"
    );
}

#[test]
fn format_copy_unsupported_is_empty() {
    assert_eq!(ContainerType::Unknown.format_copy("d", "/a", "/b"), "");
}

#[test]
fn exec_pattern_by_kind() {
    assert_eq!(
        ContainerType::Toolbox.format_exec_regex_pattern(),
        "(Exec=\\s?)(.*)"
    );
    assert_eq!(
        ContainerType::Podman.format_exec_regex_pattern(),
        "(Exec=\\s?)(.*)"
    );
    assert_eq!(
        ContainerType::Docker.format_exec_regex_pattern(),
        "(Exec=\\s?)(.*)"
    );
    assert_eq!(ContainerType::Unknown.format_exec_regex_pattern(), "");
}

#[test]
fn name_pattern_by_kind() {
    assert_eq!(
        ContainerType::Toolbox.format_name_regex_pattern(),
        "(Name=\\s?)(.*)"
    );
    assert_eq!(ContainerType::Unknown.format_name_regex_pattern(), "");
}

#[test]
fn desktop_exec_templates() {
    assert_eq!(
        ContainerType::Toolbox.format_desktop_exec("demo"),
        "Exec=toolbox run -c demo ${2}"
    );
    assert_eq!(
        ContainerType::Podman.format_desktop_exec("demo"),
        "Exec=sh -c 'podman container start demo && podman container exec demo ${2}'"
    );
    assert_eq!(ContainerType::Docker.format_desktop_exec("demo"), "");
}

#[test]
fn desktop_name_templates() {
    assert_eq!(
        ContainerType::Toolbox.format_desktop_name("demo"),
        "Name=${2} (demo)"
    );
    assert_eq!(ContainerType::Podman.format_desktop_name("demo"), "");
}
