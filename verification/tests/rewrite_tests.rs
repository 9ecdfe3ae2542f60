use container_desktop_entries::container_type::ContainerType;
use container_desktop_entries::rewrite::{rewrite_descriptor_str, rewrite_text_str, subst_template_str};

#[test]
fn subst_replaces_every_marker() {
    assert_eq!(subst_template_str("a${2}b${2}", "X"), "aXbX");
    assert_eq!(subst_template_str("no marker", "X"), "no marker");
    assert_eq!(subst_template_str("${2}", "whole"), "whole");
    assert_eq!(subst_template_str("", "X"), "");
}

#[test]
fn rewrite_toolbox_exec_and_name() {
    let text = "[Desktop Entry]\nName=My App\nExec=myapp --flag\nIcon=myapp";
    let out = rewrite_descriptor_str(ContainerType::Toolbox, "demo", text);
    assert_eq!(
        out,
        "[Desktop Entry]\nName=My App (demo)\nExec=toolbox run -c demo myapp --flag\nIcon=myapp"
    );
}

#[test]
fn rewrite_consumes_one_space_after_key() {
    let out = rewrite_descriptor_str(ContainerType::Toolbox, "demo", "Exec= myapp");
    assert_eq!(out, "Exec=toolbox run -c demo myapp");
}

#[test]
fn rewrite_starts_at_first_key_occurrence() {
    let out = rewrite_descriptor_str(ContainerType::Toolbox, "demo", "X Exec=foo");
    assert_eq!(out, "X Exec=toolbox run -c demo foo");
}

#[test]
fn rewrite_unknown_kind_leaves_text_unchanged() {
    let text = "[Desktop Entry]\nName=My App\nExec=myapp --flag\n";
    let out = rewrite_descriptor_str(ContainerType::Unknown, "demo", text);
    assert_eq!(out, text);
}

#[test]
fn rewrite_podman_rewrites_exec_but_not_name() {
    let text = "Name=My App\nExec=run";
    let out = rewrite_descriptor_str(ContainerType::Podman, "demo", text);
    assert_eq!(
        out,
        "Name=My App\nExec=sh -c 'podman container start demo && podman container exec demo run'"
    );
}

#[test]
fn rewrite_twice_from_same_source_gives_same_output() {
    let text = "[Desktop Entry]\nName=My App\nExec=myapp --flag";
    let first = rewrite_descriptor_str(ContainerType::Toolbox, "demo", text);
    let second = rewrite_descriptor_str(ContainerType::Toolbox, "demo", text);
    assert_eq!(first, second);
}

#[test]
fn single_pass_rewrites_every_matching_line() {
    let out = rewrite_text_str("Exec=a\nother\nExec=b", "Exec=", "Exec=run ${2}");
    assert_eq!(out, "Exec=run a\nother\nExec=run b");
}

#[test]
fn empty_template_passes_lines_through() {
    let out = rewrite_text_str("Exec=a\nExec=b", "Exec=", "");
    assert_eq!(out, "Exec=a\nExec=b");
}
