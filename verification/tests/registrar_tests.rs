use container_desktop_entries::container_type::ContainerType;
use container_desktop_entries::registrar::{
    DescriptorFile, DriverFailure, FailureKind, Pass, PassAction, PassEvent, PassPhase, Stage,
};
use container_desktop_entries::registry::{DaemonModel, RegistryCall};

fn strings(v: &[&str]) -> Vec<String> {
    v.iter().map(|s| s.to_string()).collect()
}

#[test]
fn unsupported_kind_fails_at_starting_with_no_calls() {
    let mut pass = Pass::new(
        ContainerType::Docker,
        "somebox".to_string(),
        "/run/ws".to_string(),
    );
    let actions = pass.step(PassEvent::Begin);
    assert!(actions.is_empty());
    assert_eq!(
        pass.phase,
        PassPhase::Failed(Stage::Starting, FailureKind::UnsupportedRuntime)
    );
    // The terminal phase absorbs further events without acting.
    let actions = pass.step(PassEvent::Published);
    assert!(actions.is_empty());
    assert_eq!(
        pass.phase,
        PassPhase::Failed(Stage::Starting, FailureKind::UnsupportedRuntime)
    );
}

#[test]
fn start_failure_maps_driver_error() {
    let mut pass = Pass::new(
        ContainerType::Toolbox,
        "demo".to_string(),
        "/run/ws".to_string(),
    );
    pass.step(PassEvent::Begin);
    let actions = pass.step(PassEvent::StartFinished {
        outcome: Err(DriverFailure::CommandNotFound),
    });
    assert!(actions.is_empty());
    assert_eq!(
        pass.phase,
        PassPhase::Failed(Stage::Starting, FailureKind::CommandNotFound)
    );
}

#[test]
fn data_dirs_failure_still_removes_workspace() {
    let mut pass = Pass::new(
        ContainerType::Toolbox,
        "demo".to_string(),
        "/run/ws".to_string(),
    );
    pass.step(PassEvent::Begin);
    pass.step(PassEvent::StartFinished { outcome: Ok(()) });
    let actions = pass.step(PassEvent::DataDirs {
        outcome: Err(DriverFailure::Io),
    });
    assert_eq!(actions.len(), 1);
    assert!(matches!(&actions[0], PassAction::RemoveWorkspace { root } if root == "/run/ws"));
    assert_eq!(
        pass.phase,
        PassPhase::Failed(Stage::Harvesting, FailureKind::DriverIo)
    );
}

#[test]
fn harvesting_copies_each_data_dir_and_pixmaps() {
    let mut pass = Pass::new(
        ContainerType::Toolbox,
        "demo".to_string(),
        "/run/ws".to_string(),
    );
    pass.step(PassEvent::Begin);
    pass.step(PassEvent::StartFinished { outcome: Ok(()) });
    let actions = pass.step(PassEvent::DataDirs {
        outcome: Ok("/usr/share:/usr/local/share\n".to_string()),
    });
    let commands: Vec<String> = actions
        .iter()
        .map(|a| match a {
            PassAction::RunCopy { command } => command.clone(),
            PassAction::ListWorkspace { root } => format!("list {}", root),
            _ => panic!("unexpected action"),
        })
        .collect();
    assert_eq!(
        commands,
        vec![
            "podman container cp demo:/usr/share/applications/. /run/ws/applications/".to_string(),
            "podman container cp demo:/usr/share/icons/. /run/ws/icons/".to_string(),
            "podman container cp demo:/usr/local/share/applications/. /run/ws/applications/"
                .to_string(),
            "podman container cp demo:/usr/local/share/icons/. /run/ws/icons/".to_string(),
            "podman container cp demo:/usr/share/pixmaps/. /run/ws/pixmaps/".to_string(),
            "list /run/ws".to_string(),
        ]
    );
    assert_eq!(pass.phase, PassPhase::Transforming);
}

#[test]
fn no_display_descriptor_is_never_registered() {
    let mut pass = Pass::new(
        ContainerType::Toolbox,
        "demo".to_string(),
        "/run/ws".to_string(),
    );
    pass.step(PassEvent::Begin);
    pass.step(PassEvent::StartFinished { outcome: Ok(()) });
    pass.step(PassEvent::DataDirs {
        outcome: Ok("/usr/share".to_string()),
    });
    let files = vec![DescriptorFile {
        id: "hidden".to_string(),
        text: "[Desktop Entry]\nName=Hidden\nExec=hidden-app\nNoDisplay=true".to_string(),
    }];
    let actions = pass.step(PassEvent::Harvested {
        files,
        icon_paths: Vec::new(),
        pixmap_paths: Vec::new(),
    });
    // Only the owner's retraction: zero registration calls for the
    // no-display descriptor.
    assert_eq!(actions.len(), 1);
    assert!(matches!(
        &actions[0],
        PassAction::Registry { call: RegistryCall::Retract { owner } } if owner == "demo"
    ));
}

#[test]
fn undecodable_file_is_skipped_but_batch_continues() {
    let mut pass = Pass::new(
        ContainerType::Toolbox,
        "demo".to_string(),
        "/run/ws".to_string(),
    );
    pass.step(PassEvent::Begin);
    pass.step(PassEvent::StartFinished { outcome: Ok(()) });
    pass.step(PassEvent::DataDirs {
        outcome: Ok("/usr/share".to_string()),
    });
    let files = vec![
        DescriptorFile {
            id: "broken".to_string(),
            text: "not a descriptor at all".to_string(),
        },
        DescriptorFile {
            id: "good".to_string(),
            text: "[Desktop Entry]\nName=Good\nExec=good-app".to_string(),
        },
    ];
    let actions = pass.step(PassEvent::Harvested {
        files,
        icon_paths: Vec::new(),
        pixmap_paths: Vec::new(),
    });
    assert_eq!(actions.len(), 2);
    assert!(matches!(
        &actions[1],
        PassAction::Registry { call: RegistryCall::Entry { appid, .. } } if appid == "good"
    ));
}

#[test]
fn full_pass_for_demo_container() {
    let owner = "demo";
    let mut pass = Pass::new(
        ContainerType::Toolbox,
        owner.to_string(),
        "/run/ws".to_string(),
    );
    let mut daemon = DaemonModel::new();

    let actions = pass.step(PassEvent::Begin);
    assert_eq!(actions.len(), 1);
    assert!(matches!(
        &actions[0],
        PassAction::RunStart { command } if command == "toolbox run -c demo echo 'Started'"
    ));
    assert_eq!(pass.phase, PassPhase::Starting);

    let actions = pass.step(PassEvent::StartFinished { outcome: Ok(()) });
    assert_eq!(actions.len(), 2);
    assert!(matches!(&actions[0], PassAction::MakeWorkspace { root } if root == "/run/ws"));
    assert!(matches!(
        &actions[1],
        PassAction::RunCapture { command }
            if command == "toolbox run -c demo env | grep XDG_DATA_DIRS | cut -d'=' -f2"
    ));
    assert_eq!(pass.phase, PassPhase::Harvesting);

    let actions = pass.step(PassEvent::DataDirs {
        outcome: Ok("/usr/share\n".to_string()),
    });
    assert_eq!(actions.len(), 4);
    assert_eq!(pass.phase, PassPhase::Transforming);

    // The workspace listing: one descriptor and one vector icon asset.
    let files = vec![DescriptorFile {
        id: "app".to_string(),
        text: "[Desktop Entry]\nName=My App\nExec=myapp --flag\nIcon=myapp".to_string(),
    }];
    let icon_paths = strings(&["/run/ws/icons/myapp.svg"]);
    let actions = pass.step(PassEvent::Harvested {
        files,
        icon_paths,
        pixmap_paths: Vec::new(),
    });
    assert_eq!(pass.phase, PassPhase::Publishing);
    assert_eq!(actions.len(), 3);
    for action in &actions {
        match action {
            PassAction::Registry { call } => daemon.apply(call),
            _ => panic!("unexpected action"),
        }
    }
    let registered = daemon.entry_text(owner, "app").unwrap();
    assert_eq!(
        registered,
        "[Desktop Entry]\nName=My App (demo)\nExec=toolbox run -c demo myapp --flag\nIcon=myapp"
    );
    assert!(registered.contains("Exec=toolbox run -c demo myapp --flag"));
    assert_eq!(
        daemon.icon_payload(owner, "myapp").as_deref(),
        Some("/run/ws/icons/myapp.svg")
    );

    let actions = pass.step(PassEvent::Published);
    assert_eq!(actions.len(), 1);
    assert!(matches!(&actions[0], PassAction::RemoveWorkspace { root } if root == "/run/ws"));
    assert_eq!(pass.phase, PassPhase::CleaningUp);

    let actions = pass.step(PassEvent::Cleaned);
    assert!(actions.is_empty());
    assert_eq!(pass.phase, PassPhase::Done);
}

#[test]
fn rerun_for_same_container_replaces_published_snapshot() {
    let owner = "fedora-toolbox-40";
    let mut daemon = DaemonModel::new();

    let run = |daemon: &mut DaemonModel, files: Vec<DescriptorFile>| {
        let mut pass = Pass::new(
            ContainerType::Toolbox,
            owner.to_string(),
            "/run/ws".to_string(),
        );
        pass.step(PassEvent::Begin);
        pass.step(PassEvent::StartFinished { outcome: Ok(()) });
        pass.step(PassEvent::DataDirs {
            outcome: Ok("/usr/share".to_string()),
        });
        let actions = pass.step(PassEvent::Harvested {
            files,
            icon_paths: Vec::new(),
            pixmap_paths: Vec::new(),
        });
        for action in &actions {
            match action {
                PassAction::Registry { call } => daemon.apply(call),
                _ => panic!("unexpected action"),
            }
        }
        pass.step(PassEvent::Published);
        pass.step(PassEvent::Cleaned);
        assert_eq!(pass.phase, PassPhase::Done);
    };

    run(
        &mut daemon,
        vec![DescriptorFile {
            id: "first-app".to_string(),
            text: "[Desktop Entry]\nName=First\nExec=first".to_string(),
        }],
    );
    assert!(daemon.entry_text(owner, "first-app").is_some());

    run(
        &mut daemon,
        vec![DescriptorFile {
            id: "second-app".to_string(),
            text: "[Desktop Entry]\nName=Second\nExec=second".to_string(),
        }],
    );
    // Exactly the second run's snapshot survives under this owner.
    assert!(daemon.entry_text(owner, "first-app").is_none());
    assert!(daemon.entry_text(owner, "second-app").is_some());
}

#[test]
fn resolved_icon_with_unusable_extension_is_not_registered() {
    let mut pass = Pass::new(
        ContainerType::Toolbox,
        "demo".to_string(),
        "/run/ws".to_string(),
    );
    pass.step(PassEvent::Begin);
    pass.step(PassEvent::StartFinished { outcome: Ok(()) });
    pass.step(PassEvent::DataDirs {
        outcome: Ok("/usr/share".to_string()),
    });
    let files = vec![DescriptorFile {
        id: "app".to_string(),
        text: "[Desktop Entry]\nName=A\nExec=a\nIcon=ic".to_string(),
    }];
    let actions = pass.step(PassEvent::Harvested {
        files,
        icon_paths: Vec::new(),
        pixmap_paths: strings(&["/run/ws/pixmaps/ic.xpm"]),
    });
    // Retraction and the entry; the xpm asset resolves but is discarded.
    assert_eq!(actions.len(), 2);
    assert!(matches!(
        &actions[1],
        PassAction::Registry { call: RegistryCall::Entry { appid, .. } } if appid == "app"
    ));
}
