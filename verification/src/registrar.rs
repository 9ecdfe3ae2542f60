//! The session registrar: one synchronization pass for one container as
//! an explicit state machine. The pass owner is the container's name. The
//! registrar decides; it performs no outside work itself. Each step takes
//! the event that ended the previous stage and returns the actions the
//! caller must perform next: shell commands to run, workspace paths to
//! make or remove, registry calls to issue.
//!
//! Stages run strictly in order: Starting, Harvesting, Transforming,
//! Publishing, CleaningUp. A failure moves the pass to its terminal
//! `Failed` phase, which absorbs every further event; the transient
//! workspace is removed on every exit path that created it.

use vstd::prelude::*;
use vstd::string::*;

use crate::container_type::ContainerType;
use crate::descriptor::{decode, decode_spec};
use crate::icon::{lookup_icon, resolve_spec, IconFormat};
use crate::registry::{
    apply_calls, empty_state, lemma_rerun_is_replacement, owner_slice, pass_shaped, RegCall,
    RegistryCall, RegistryState,
};
use crate::rewrite::{rewrite_descriptor, rewrite_descriptor_str};
use crate::text::{split_char, split_str, trim_spec, trim_str};

verus! {

/// The stage a failure is attributed to.
#[derive(Debug, Clone, Copy, PartialEq, Eq, Structural)]
pub enum Stage {
    Starting,
    Harvesting,
    Transforming,
    Publishing,
    CleaningUp,
}

/// Why a pass failed.
#[derive(Debug, Clone, Copy, PartialEq, Eq, Structural)]
pub enum FailureKind {
    /// The runtime kind lacks full template support.
    UnsupportedRuntime,
    /// The tool was missing inside the container.
    CommandNotFound,
    /// Any other driver failure.
    DriverIo,
}

/// How a driver operation failed.
#[derive(Debug, Clone, Copy, PartialEq, Eq, Structural)]
pub enum DriverFailure {
    CommandNotFound,
    Io,
}

/// The failure kind a driver failure maps to.
pub open spec fn failure_kind_of(f: DriverFailure) -> FailureKind {
    match f {
        DriverFailure::CommandNotFound => FailureKind::CommandNotFound,
        DriverFailure::Io => FailureKind::DriverIo,
    }
}

/// Where a pass stands.
#[derive(Debug, Clone, Copy, PartialEq, Eq, Structural)]
pub enum PassPhase {
    Idle,
    Starting,
    Harvesting,
    Transforming,
    Publishing,
    CleaningUp,
    Done,
    Failed(Stage, FailureKind),
}

/// One harvested descriptor file: its identifier (the file's stem) and
/// its raw text.
pub struct DescriptorFile {
    pub id: String,
    pub text: String,
}

impl View for DescriptorFile {
    type V = (Seq<char>, Seq<char>);

    open spec fn view(&self) -> (Seq<char>, Seq<char>) {
        (self.id@, self.text@)
    }
}

impl DeepView for DescriptorFile {
    type V = (Seq<char>, Seq<char>);

    open spec fn deep_view(&self) -> (Seq<char>, Seq<char>) {
        self.view()
    }
}

/// What the caller reports back to the registrar.
pub enum PassEvent {
    /// Begin the pass.
    Begin,
    /// The start command finished.
    StartFinished { outcome: Result<(), DriverFailure> },
    /// The data-directory query finished with the captured output.
    DataDirs { outcome: Result<String, DriverFailure> },
    /// The workspace was listed: harvested descriptor files and the
    /// files found under the icon and pixmap subtrees, in walk order.
    Harvested { files: Vec<DescriptorFile>, icon_paths: Vec<String>, pixmap_paths: Vec<String> },
    /// Every registry call was attempted.
    Published,
    /// The workspace was removed.
    Cleaned,
}

/// What the caller must perform next.
pub enum PassAction {
    /// Run a shell command, without capturing output.
    RunStart { command: String },
    /// Create the workspace root and its subdirectories.
    MakeWorkspace { root: String },
    /// Run a shell command and capture its output.
    RunCapture { command: String },
    /// Run a copy command; a failure is logged and skipped.
    RunCopy { command: String },
    /// Read the workspace back: descriptor files and icon trees.
    ListWorkspace { root: String },
    /// Issue one registry call; a failure is logged and skipped.
    Registry { call: RegistryCall },
    /// Delete the workspace tree.
    RemoveWorkspace { root: String },
}

/// The mathematical shape of an action.
pub enum ActionView {
    RunStart { command: Seq<char> },
    MakeWorkspace { root: Seq<char> },
    RunCapture { command: Seq<char> },
    RunCopy { command: Seq<char> },
    ListWorkspace { root: Seq<char> },
    Registry { call: RegCall },
    RemoveWorkspace { root: Seq<char> },
}

impl View for PassAction {
    type V = ActionView;

    open spec fn view(&self) -> ActionView {
        match self {
            PassAction::RunStart { command } => ActionView::RunStart { command: command@ },
            PassAction::MakeWorkspace { root } => ActionView::MakeWorkspace { root: root@ },
            PassAction::RunCapture { command } => ActionView::RunCapture { command: command@ },
            PassAction::RunCopy { command } => ActionView::RunCopy { command: command@ },
            PassAction::ListWorkspace { root } => ActionView::ListWorkspace { root: root@ },
            PassAction::Registry { call } => ActionView::Registry { call: call@ },
            PassAction::RemoveWorkspace { root } => ActionView::RemoveWorkspace { root: root@ },
        }
    }
}

/// Views of an action list.
pub open spec fn action_views(s: Seq<PassAction>) -> Seq<ActionView> {
    s.map_values(|a: PassAction| a@)
}

/// The command that reports the container's data-directory search path.
pub open spec fn data_dirs_query() -> Seq<char> {
    "env | grep XDG_DATA_DIRS | cut -d'=' -f2"@
}

pub open spec fn data_dirs_command(kind: ContainerType, name: Seq<char>) -> Seq<char> {
    kind.exec_command(name, data_dirs_query())
}

/// The two copy actions one harvested data directory contributes.
pub open spec fn copy_pair_actions(
    kind: ContainerType,
    name: Seq<char>,
    root: Seq<char>,
    dir: Seq<char>,
) -> Seq<ActionView> {
    seq![
        ActionView::RunCopy {
            command: kind.copy_command(name, dir + "/applications"@, root + "/applications"@),
        },
        ActionView::RunCopy { command: kind.copy_command(name, dir + "/icons"@, root + "/icons"@) },
    ]
}

pub open spec fn copy_dir_actions(
    kind: ContainerType,
    name: Seq<char>,
    root: Seq<char>,
    dirs: Seq<Seq<char>>,
) -> Seq<ActionView>
    decreases dirs.len(),
{
    if dirs.len() == 0 {
        Seq::empty()
    } else {
        copy_pair_actions(kind, name, root, dirs[0]) + copy_dir_actions(
            kind,
            name,
            root,
            dirs.drop_first(),
        )
    }
}

/// Everything Harvesting performs: per-directory copies of the
/// `applications` and `icons` subtrees, one fixed pixmap copy, then a
/// listing of the workspace.
pub open spec fn harvest_actions(
    kind: ContainerType,
    name: Seq<char>,
    root: Seq<char>,
    output: Seq<char>,
) -> Seq<ActionView> {
    copy_dir_actions(kind, name, root, split_char(trim_spec(output), ':')) + seq![
        ActionView::RunCopy {
            command: kind.copy_command(name, "/usr/share/pixmaps"@, root + "/pixmaps"@),
        },
        ActionView::ListWorkspace { root: root },
    ]
}

/// The registry calls one descriptor's icon contributes: none when the
/// descriptor names no icon, none when resolution finds nothing, and none
/// when the resolved asset has neither the vector nor the raster format.
pub open spec fn icon_calls(
    icon: Option<Seq<char>>,
    icons: Seq<Seq<char>>,
    pixmaps: Seq<Seq<char>>,
    owner: Seq<char>,
) -> Seq<RegCall> {
    match icon {
        None => Seq::empty(),
        Some(icon_name) => match resolve_spec(icon_name, icons, pixmaps) {
            None => Seq::empty(),
            Some(a) => if a.format is Other {
                Seq::empty()
            } else {
                seq![RegCall::Icon { icon_name: icon_name, payload: a.path, owner: owner }]
            },
        },
    }
}

/// The registry calls one harvested file contributes: its rewritten text
/// is decoded; a file that fails to decode is skipped, a no-display
/// descriptor is discarded, any other descriptor is registered and its
/// icon resolved.
pub open spec fn entry_calls(
    kind: ContainerType,
    owner: Seq<char>,
    file: (Seq<char>, Seq<char>),
    icons: Seq<Seq<char>>,
    pixmaps: Seq<Seq<char>>,
) -> Seq<RegCall> {
    let rewritten = rewrite_descriptor(kind, owner, file.1);
    match decode_spec(file.0, rewritten) {
        None => Seq::empty(),
        Some(d) => if d.no_display {
            Seq::empty()
        } else {
            seq![RegCall::Entry { appid: d.appid, text: rewritten, owner: owner }] + icon_calls(
                d.icon,
                icons,
                pixmaps,
                owner,
            )
        },
    }
}

pub open spec fn files_calls(
    kind: ContainerType,
    owner: Seq<char>,
    files: Seq<(Seq<char>, Seq<char>)>,
    icons: Seq<Seq<char>>,
    pixmaps: Seq<Seq<char>>,
) -> Seq<RegCall>
    decreases files.len(),
{
    if files.len() == 0 {
        Seq::empty()
    } else {
        entry_calls(kind, owner, files[0], icons, pixmaps) + files_calls(
            kind,
            owner,
            files.drop_first(),
            icons,
            pixmaps,
        )
    }
}

/// Everything Publishing issues: the owner's retraction first, then the
/// per-file registrations.
pub open spec fn publish_calls(
    kind: ContainerType,
    owner: Seq<char>,
    files: Seq<(Seq<char>, Seq<char>)>,
    icons: Seq<Seq<char>>,
    pixmaps: Seq<Seq<char>>,
) -> Seq<RegCall> {
    seq![RegCall::Retract { owner: owner }] + files_calls(kind, owner, files, icons, pixmaps)
}

pub open spec fn wrap_calls(calls: Seq<RegCall>) -> Seq<ActionView> {
    calls.map_values(|c: RegCall| ActionView::Registry { call: c })
}

/// One synchronization pass for one container.
pub struct Pass {
    /// The container's runtime kind.
    pub kind: ContainerType,
    /// The container's name: the ownership key of everything published.
    pub name: String,
    /// The transient workspace root this pass owns.
    pub root: String,
    /// Where the pass stands.
    pub phase: PassPhase,
}

/// The full transition relation of the registrar.
pub open spec fn step_spec(
    pre: Pass,
    event: PassEvent,
    post: Pass,
    actions: Seq<ActionView>,
) -> bool {
    &&& post.kind == pre.kind
    &&& post.name == pre.name
    &&& post.root == pre.root
    &&& match (pre.phase, event) {
        (PassPhase::Idle, PassEvent::Begin) => {
            if !pre.kind.is_supported() {
                &&& post.phase == PassPhase::Failed(Stage::Starting, FailureKind::UnsupportedRuntime)
                &&& actions.len() == 0
            } else {
                &&& post.phase == PassPhase::Starting
                &&& actions == seq![
                    ActionView::RunStart { command: pre.kind.start_command(pre.name@) },
                ]
            }
        },
        (PassPhase::Starting, PassEvent::StartFinished { outcome }) => {
            match outcome {
                Ok(_) => {
                    &&& post.phase == PassPhase::Harvesting
                    &&& actions == seq![
                        ActionView::MakeWorkspace { root: pre.root@ },
                        ActionView::RunCapture {
                            command: data_dirs_command(pre.kind, pre.name@),
                        },
                    ]
                },
                Err(f) => {
                    &&& post.phase == PassPhase::Failed(Stage::Starting, failure_kind_of(f))
                    &&& actions.len() == 0
                },
            }
        },
        (PassPhase::Harvesting, PassEvent::DataDirs { outcome }) => {
            match outcome {
                Ok(output) => {
                    &&& post.phase == PassPhase::Transforming
                    &&& actions == harvest_actions(pre.kind, pre.name@, pre.root@, output@)
                },
                Err(f) => {
                    &&& post.phase == PassPhase::Failed(Stage::Harvesting, failure_kind_of(f))
                    &&& actions == seq![ActionView::RemoveWorkspace { root: pre.root@ }]
                },
            }
        },
        (PassPhase::Transforming, PassEvent::Harvested { files, icon_paths, pixmap_paths }) => {
            &&& post.phase == PassPhase::Publishing
            &&& actions == wrap_calls(
                publish_calls(
                    pre.kind,
                    pre.name@,
                    files.deep_view(),
                    icon_paths.deep_view(),
                    pixmap_paths.deep_view(),
                ),
            )
        },
        (PassPhase::Publishing, PassEvent::Published) => {
            &&& post.phase == PassPhase::CleaningUp
            &&& actions == seq![ActionView::RemoveWorkspace { root: pre.root@ }]
        },
        (PassPhase::CleaningUp, PassEvent::Cleaned) => {
            &&& post.phase == PassPhase::Done
            &&& actions.len() == 0
        },
        _ => {
            &&& post.phase == pre.phase
            &&& actions.len() == 0
        },
    }
}

impl Pass {
    /// A fresh pass for one container; nothing has happened yet.
    pub fn new(kind: ContainerType, name: String, root: String) -> (r: Pass)
        ensures
            r.kind == kind,
            r.name == name,
            r.root == root,
            r.phase == PassPhase::Idle,
    {
        Pass { kind, name, root, phase: PassPhase::Idle }
    }

    /// Feed one event to the pass; returns the actions to perform next.
    pub fn step(&mut self, event: PassEvent) -> (actions: Vec<PassAction>)
        ensures
            step_spec(*old(self), event, *final(self), action_views(actions@)),
    {
        let mut actions: Vec<PassAction> = Vec::new();
        proof {
            assert(action_views(actions@) =~= Seq::<ActionView>::empty());
        }
        match (self.phase, &event) {
            (PassPhase::Idle, PassEvent::Begin) => {
                if self.kind.not_supported() {
                    self.phase = PassPhase::Failed(
                        Stage::Starting,
                        FailureKind::UnsupportedRuntime,
                    );
                } else {
                    self.phase = PassPhase::Starting;
                    let cmd = self.kind.format_start(self.name.as_str());
                    actions.push(PassAction::RunStart { command: cmd });
                    proof {
                        assert(action_views(actions@) =~= seq![
                            ActionView::RunStart {
                                command: old(self).kind.start_command(old(self).name@),
                            },
                        ]);
                    }
                }
            },
            (PassPhase::Starting, PassEvent::StartFinished { outcome }) => {
                match outcome {
                    Ok(_) => {
                        self.phase = PassPhase::Harvesting;
                        let root = self.root.clone();
                        actions.push(PassAction::MakeWorkspace { root });
                        let cmd = self.kind.format_exec(
                            self.name.as_str(),
                            "env | grep XDG_DATA_DIRS | cut -d'=' -f2",
                        );
                        actions.push(PassAction::RunCapture { command: cmd });
                        proof {
                            assert(action_views(actions@) =~= seq![
                                ActionView::MakeWorkspace { root: old(self).root@ },
                                ActionView::RunCapture {
                                    command: data_dirs_command(old(self).kind, old(self).name@),
                                },
                            ]);
                        }
                    },
                    Err(f) => {
                        self.phase = PassPhase::Failed(Stage::Starting, driver_failure_kind(*f));
                    },
                }
            },
            (PassPhase::Harvesting, PassEvent::DataDirs { outcome }) => {
                match outcome {
                    Ok(output) => {
                        self.phase = PassPhase::Transforming;
                        actions = harvest_plan(
                            self.kind,
                            self.name.as_str(),
                            self.root.as_str(),
                            output.as_str(),
                        );
                    },
                    Err(f) => {
                        self.phase = PassPhase::Failed(Stage::Harvesting, driver_failure_kind(*f));
                        let root = self.root.clone();
                        actions.push(PassAction::RemoveWorkspace { root });
                        proof {
                            assert(action_views(actions@) =~= seq![
                                ActionView::RemoveWorkspace { root: old(self).root@ },
                            ]);
                        }
                    },
                }
            },
            (PassPhase::Transforming, PassEvent::Harvested { files, icon_paths, pixmap_paths }) => {
                self.phase = PassPhase::Publishing;
                actions = plan_publish_actions(
                    self.kind,
                    self.name.as_str(),
                    files,
                    icon_paths,
                    pixmap_paths,
                );
            },
            (PassPhase::Publishing, PassEvent::Published) => {
                self.phase = PassPhase::CleaningUp;
                let root = self.root.clone();
                actions.push(PassAction::RemoveWorkspace { root });
                proof {
                    assert(action_views(actions@) =~= seq![
                        ActionView::RemoveWorkspace { root: old(self).root@ },
                    ]);
                }
            },
            (PassPhase::CleaningUp, PassEvent::Cleaned) => {
                self.phase = PassPhase::Done;
            },
            _ => {},
        }
        actions
    }
}

/// The failure kind a driver failure maps to.
pub fn driver_failure_kind(f: DriverFailure) -> (r: FailureKind)
    ensures
        r == failure_kind_of(f),
{
    match f {
        DriverFailure::CommandNotFound => FailureKind::CommandNotFound,
        DriverFailure::Io => FailureKind::DriverIo,
    }
}

/// The copy and listing actions of the Harvesting stage, from the
/// captured data-directory output.
pub fn harvest_plan(kind: ContainerType, name: &str, root: &str, output: &str) -> (r: Vec<
    PassAction,
>)
    ensures
        action_views(r@) == harvest_actions(kind, name@, root@, output@),
{
    let trimmed = trim_str(output);
    let dirs = split_str(trimmed, ':');
    let ghost dirsv = dirs.deep_view();
    let mut r: Vec<PassAction> = Vec::new();
    let mut i: usize = 0;
    let n = dirs.len();
    proof {
        assert(action_views(r@) =~= copy_dir_actions(kind, name@, root@, dirsv.subrange(0, 0)));
    }
    while i < n
        invariant
            n == dirs@.len(),
            dirsv == dirs.deep_view(),
            0 <= i <= n,
            action_views(r@) == copy_dir_actions(kind, name@, root@, dirsv.subrange(0, i as int)),
        decreases n - i,
    {
        let dir = &dirs[i];
        let from_apps = dir.clone().concat("/applications");
        let to_apps = String::from_str(root).concat("/applications");
        let cmd_apps = kind.format_copy(name, from_apps.as_str(), to_apps.as_str());
        let from_icons = dir.clone().concat("/icons");
        let to_icons = String::from_str(root).concat("/icons");
        let cmd_icons = kind.format_copy(name, from_icons.as_str(), to_icons.as_str());
        proof {
            assert(dirsv[i as int] == dirs@[i as int]@);
        }
        r.push(PassAction::RunCopy { command: cmd_apps });
        r.push(PassAction::RunCopy { command: cmd_icons });
        proof {
            assert(dirsv.subrange(0, i + 1 as int) =~= dirsv.subrange(0, i as int).push(
                dirsv[i as int],
            ));
            lemma_copy_dir_actions_push(kind, name@, root@, dirsv.subrange(0, i as int), dirsv[i as int]);
            assert(action_views(r@) =~= copy_dir_actions(
                kind,
                name@,
                root@,
                dirsv.subrange(0, i + 1 as int),
            ));
        }
        i += 1;
    }
    proof {
        assert(dirsv.subrange(0, n as int) =~= dirsv);
    }
    let to_pixmaps = String::from_str(root).concat("/pixmaps");
    let cmd_pixmaps = kind.format_copy(name, "/usr/share/pixmaps", to_pixmaps.as_str());
    r.push(PassAction::RunCopy { command: cmd_pixmaps });
    r.push(PassAction::ListWorkspace { root: String::from_str(root) });
    proof {
        assert(action_views(r@) =~= harvest_actions(kind, name@, root@, output@));
    }
    r
}

/// Appending one more directory appends its two copy actions.
proof fn lemma_copy_dir_actions_push(
    kind: ContainerType,
    name: Seq<char>,
    root: Seq<char>,
    dirs: Seq<Seq<char>>,
    x: Seq<char>,
)
    ensures
        copy_dir_actions(kind, name, root, dirs.push(x)) == copy_dir_actions(
            kind,
            name,
            root,
            dirs,
        ) + copy_pair_actions(kind, name, root, x),
    decreases dirs.len(),
{
    reveal_with_fuel(copy_dir_actions, 3);
    if dirs.len() == 0 {
        assert(dirs.push(x)[0] == x);
        assert(dirs.push(x).drop_first() =~= Seq::<Seq<char>>::empty());
        assert(copy_pair_actions(kind, name, root, x) + Seq::<ActionView>::empty()
            =~= copy_pair_actions(kind, name, root, x));
        assert(Seq::<ActionView>::empty() + copy_pair_actions(kind, name, root, x)
            =~= copy_pair_actions(kind, name, root, x));
    } else {
        lemma_copy_dir_actions_push(kind, name, root, dirs.drop_first(), x);
        assert(dirs.push(x)[0] == dirs[0]);
        assert(dirs.push(x).drop_first() =~= dirs.drop_first().push(x));
        assert(copy_pair_actions(kind, name, root, dirs[0]) + (copy_dir_actions(
            kind,
            name,
            root,
            dirs.drop_first(),
        ) + copy_pair_actions(kind, name, root, x)) =~= (copy_pair_actions(
            kind,
            name,
            root,
            dirs[0],
        ) + copy_dir_actions(kind, name, root, dirs.drop_first())) + copy_pair_actions(
            kind,
            name,
            root,
            x,
        ));
    }
}

/// Appending one more file appends its calls.
proof fn lemma_files_calls_push(
    kind: ContainerType,
    owner: Seq<char>,
    files: Seq<(Seq<char>, Seq<char>)>,
    icons: Seq<Seq<char>>,
    pixmaps: Seq<Seq<char>>,
    x: (Seq<char>, Seq<char>),
)
    ensures
        files_calls(kind, owner, files.push(x), icons, pixmaps) == files_calls(
            kind,
            owner,
            files,
            icons,
            pixmaps,
        ) + entry_calls(kind, owner, x, icons, pixmaps),
    decreases files.len(),
{
    reveal_with_fuel(files_calls, 3);
    if files.len() == 0 {
        assert(files.push(x)[0] == x);
        assert(files.push(x).drop_first() =~= Seq::<(Seq<char>, Seq<char>)>::empty());
        assert(entry_calls(kind, owner, x, icons, pixmaps) + Seq::<RegCall>::empty()
            =~= entry_calls(kind, owner, x, icons, pixmaps));
        assert(Seq::<RegCall>::empty() + entry_calls(kind, owner, x, icons, pixmaps)
            =~= entry_calls(kind, owner, x, icons, pixmaps));
    } else {
        lemma_files_calls_push(kind, owner, files.drop_first(), icons, pixmaps, x);
        assert(files.push(x)[0] == files[0]);
        assert(files.push(x).drop_first() =~= files.drop_first().push(x));
        assert(entry_calls(kind, owner, files[0], icons, pixmaps) + (files_calls(
            kind,
            owner,
            files.drop_first(),
            icons,
            pixmaps,
        ) + entry_calls(kind, owner, x, icons, pixmaps)) =~= (entry_calls(
            kind,
            owner,
            files[0],
            icons,
            pixmaps,
        ) + files_calls(kind, owner, files.drop_first(), icons, pixmaps)) + entry_calls(
            kind,
            owner,
            x,
            icons,
            pixmaps,
        ));
    }
}

/// The registry actions one harvested file contributes: the surviving
/// descriptor's registration, then its usable icon's, if any.
pub fn entry_actions_for(
    kind: ContainerType,
    owner: &str,
    file: &DescriptorFile,
    icon_paths: &Vec<String>,
    pixmap_paths: &Vec<String>,
) -> (r: Vec<PassAction>)
    ensures
        action_views(r@) == wrap_calls(
            entry_calls(kind, owner@, file@, icon_paths.deep_view(), pixmap_paths.deep_view()),
        ),
{
    let ghost iv = icon_paths.deep_view();
    let ghost pv = pixmap_paths.deep_view();
    let ghost tc = entry_calls(kind, owner@, file@, iv, pv);
    let mut r: Vec<PassAction> = Vec::new();
    let rewritten = rewrite_descriptor_str(kind, owner, file.text.as_str());
    let ghost rewv = rewrite_descriptor(kind, owner@, file@.1);
    match decode(file.id.as_str(), rewritten.as_str()) {
        Err(_) => {
            proof {
                assert(tc =~= Seq::<RegCall>::empty());
                assert(action_views(r@) =~= wrap_calls(tc));
            }
        },
        Ok(d) => {
            if d.no_display {
                proof {
                    assert(decode_spec(file@.0, rewv) == Some(d@));
                    assert(tc =~= Seq::<RegCall>::empty());
                    assert(action_views(r@) =~= wrap_calls(tc));
                }
            } else {
                let ghost ec = RegCall::Entry { appid: d.appid@, text: rewritten@, owner: owner@ };
                proof {
                    assert(decode_spec(file@.0, rewv) == Some(d@));
                    assert(tc =~= seq![ec] + icon_calls(
                        crate::descriptor::opt_view(d.icon),
                        iv,
                        pv,
                        owner@,
                    ));
                }
                let appid = d.appid.clone();
                r.push(
                    PassAction::Registry {
                        call: RegistryCall::Entry {
                            appid,
                            text: rewritten,
                            owner: String::from_str(owner),
                        },
                    },
                );
                proof {
                    assert(action_views(r@) =~= wrap_calls(seq![ec]));
                }
                match &d.icon {
                    None => {
                        proof {
                            assert(icon_calls(None, iv, pv, owner@) =~= Seq::<RegCall>::empty());
                            assert(tc =~= seq![ec]);
                            assert(action_views(r@) =~= wrap_calls(tc));
                        }
                    },
                    Some(icon_name) => {
                        match lookup_icon(icon_name.as_str(), icon_paths, pixmap_paths) {
                            None => {
                                proof {
                                    assert(resolve_spec(icon_name@, iv, pv) is None);
                                    assert(icon_calls(Some(icon_name@), iv, pv, owner@)
                                        =~= Seq::<RegCall>::empty());
                                    assert(tc =~= seq![ec]);
                                    assert(action_views(r@) =~= wrap_calls(tc));
                                }
                            },
                            Some(asset) => {
                                let usable = match asset.format {
                                    IconFormat::Other => false,
                                    _ => true,
                                };
                                if usable {
                                    let ghost ic = RegCall::Icon {
                                        icon_name: icon_name@,
                                        payload: asset.path@,
                                        owner: owner@,
                                    };
                                    proof {
                                        assert(resolve_spec(icon_name@, iv, pv) == Some(asset@));
                                        assert(icon_calls(Some(icon_name@), iv, pv, owner@)
                                            =~= seq![ic]);
                                        assert(tc =~= seq![ec, ic]);
                                    }
                                    r.push(
                                        PassAction::Registry {
                                            call: RegistryCall::Icon {
                                                icon_name: icon_name.clone(),
                                                payload: asset.path,
                                                owner: String::from_str(owner),
                                            },
                                        },
                                    );
                                    proof {
                                        assert(action_views(r@) =~= wrap_calls(tc));
                                    }
                                } else {
                                    proof {
                                        assert(resolve_spec(icon_name@, iv, pv) == Some(asset@));
                                        assert(asset@.format is Other);
                                        assert(icon_calls(Some(icon_name@), iv, pv, owner@)
                                            =~= Seq::<RegCall>::empty());
                                        assert(tc =~= seq![ec]);
                                        assert(action_views(r@) =~= wrap_calls(tc));
                                    }
                                }
                            },
                        }
                    },
                }
            }
        },
    }
    r
}

/// The registry actions of the Publishing stage: the retraction of the
/// owner first, then each surviving descriptor's registration followed by
/// its icon's, in file order.
pub fn plan_publish_actions(
    kind: ContainerType,
    owner: &str,
    files: &Vec<DescriptorFile>,
    icon_paths: &Vec<String>,
    pixmap_paths: &Vec<String>,
) -> (r: Vec<PassAction>)
    ensures
        action_views(r@) == wrap_calls(
            publish_calls(
                kind,
                owner@,
                files.deep_view(),
                icon_paths.deep_view(),
                pixmap_paths.deep_view(),
            ),
        ),
{
    let ghost fv = files.deep_view();
    let ghost iv = icon_paths.deep_view();
    let ghost pv = pixmap_paths.deep_view();
    let mut r: Vec<PassAction> = Vec::new();
    r.push(
        PassAction::Registry { call: RegistryCall::Retract { owner: String::from_str(owner) } },
    );
    let n = files.len();
    let mut i: usize = 0;
    proof {
        assert(files_calls(kind, owner@, fv.subrange(0, 0), iv, pv) =~= Seq::<RegCall>::empty());
        assert(action_views(r@) =~= wrap_calls(
            seq![RegCall::Retract { owner: owner@ }] + files_calls(
                kind,
                owner@,
                fv.subrange(0, 0),
                iv,
                pv,
            ),
        ));
    }
    while i < n
        invariant
            n == files@.len(),
            fv == files.deep_view(),
            iv == icon_paths.deep_view(),
            pv == pixmap_paths.deep_view(),
            0 <= i <= n,
            action_views(r@) == wrap_calls(
                seq![RegCall::Retract { owner: owner@ }] + files_calls(
                    kind,
                    owner@,
                    fv.subrange(0, i as int),
                    iv,
                    pv,
                ),
            ),
        decreases n - i,
    {
        proof {
            assert(fv[i as int] == files@[i as int].deep_view());
        }
        let mut acts = entry_actions_for(kind, owner, &files[i], icon_paths, pixmap_paths);
        let ghost acts_pre = acts@;
        r.append(&mut acts);
        proof {
            let pre_calls = seq![RegCall::Retract { owner: owner@ }] + files_calls(
                kind,
                owner@,
                fv.subrange(0, i as int),
                iv,
                pv,
            );
            let this_calls = entry_calls(kind, owner@, fv[i as int], iv, pv);
            assert(action_views(acts_pre) == wrap_calls(this_calls));
            assert(fv.subrange(0, i + 1 as int) =~= fv.subrange(0, i as int).push(fv[i as int]));
            lemma_files_calls_push(kind, owner@, fv.subrange(0, i as int), iv, pv, fv[i as int]);
            assert(action_views(r@) =~= action_views(r@.subrange(0, r@.len() - acts_pre.len()))
                + action_views(acts_pre));
            assert(wrap_calls(pre_calls + this_calls) =~= wrap_calls(pre_calls) + wrap_calls(
                this_calls,
            ));
            assert(seq![RegCall::Retract { owner: owner@ }] + files_calls(
                kind,
                owner@,
                fv.subrange(0, i + 1 as int),
                iv,
                pv,
            ) =~= pre_calls + this_calls);
            assert(action_views(r@) =~= wrap_calls(
                seq![RegCall::Retract { owner: owner@ }] + files_calls(
                    kind,
                    owner@,
                    fv.subrange(0, i + 1 as int),
                    iv,
                    pv,
                ),
            ));
        }
        i += 1;
    }
    proof {
        assert(fv.subrange(0, n as int) =~= fv);
    }
    r
}

/// Every call a file list contributes is a registration under the owner.
proof fn lemma_files_calls_owned(
    kind: ContainerType,
    owner: Seq<char>,
    files: Seq<(Seq<char>, Seq<char>)>,
    icons: Seq<Seq<char>>,
    pixmaps: Seq<Seq<char>>,
)
    ensures
        forall|j: int|
            0 <= j < files_calls(kind, owner, files, icons, pixmaps).len()
                ==> crate::registry::call_owned_by(
                #[trigger] files_calls(kind, owner, files, icons, pixmaps)[j],
                owner,
            ) && !(files_calls(kind, owner, files, icons, pixmaps)[j] is Retract),
    decreases files.len(),
{
    if files.len() == 0 {
    } else {
        lemma_files_calls_owned(kind, owner, files.drop_first(), icons, pixmaps);
        let head = entry_calls(kind, owner, files[0], icons, pixmaps);
        let tail = files_calls(kind, owner, files.drop_first(), icons, pixmaps);
        assert forall|j: int|
            0 <= j < files_calls(kind, owner, files, icons, pixmaps).len() implies crate::registry::call_owned_by(
            #[trigger] files_calls(kind, owner, files, icons, pixmaps)[j],
            owner,
        ) && !(files_calls(kind, owner, files, icons, pixmaps)[j] is Retract) by {
            if j < head.len() {
                assert(files_calls(kind, owner, files, icons, pixmaps)[j] == head[j]);
            } else {
                assert(files_calls(kind, owner, files, icons, pixmaps)[j] == tail[j - head.len()]);
            }
        }
    }
}

/// The publish plan has the pass shape the registry model asks of a
/// completed pass: the owner's retraction first, then only registrations
/// under that owner. Retraction-before-push is structural, not an
/// optimization.
pub proof fn lemma_publish_calls_pass_shaped(
    kind: ContainerType,
    owner: Seq<char>,
    files: Seq<(Seq<char>, Seq<char>)>,
    icons: Seq<Seq<char>>,
    pixmaps: Seq<Seq<char>>,
)
    ensures
        pass_shaped(publish_calls(kind, owner, files, icons, pixmaps), owner),
{
    lemma_files_calls_owned(kind, owner, files, icons, pixmaps);
    let calls = publish_calls(kind, owner, files, icons, pixmaps);
    let tail = files_calls(kind, owner, files, icons, pixmaps);
    assert(calls[0] == (RegCall::Retract { owner }));
    assert forall|i: int|
        1 <= i < calls.len() implies crate::registry::call_owned_by(
        #[trigger] calls[i],
        owner,
    ) && !(calls[i] is Retract) by {
        assert(calls[i] == tail[i - 1]);
    }
}

/// Registration is never invoked for a discarded descriptor: every entry
/// registration in a file list's calls is the registration of some
/// harvested file whose rewritten text decoded with the no-display flag
/// unset.
pub proof fn lemma_entries_come_from_visible_descriptors(
    kind: ContainerType,
    owner: Seq<char>,
    files: Seq<(Seq<char>, Seq<char>)>,
    icons: Seq<Seq<char>>,
    pixmaps: Seq<Seq<char>>,
)
    ensures
        forall|j: int|
            0 <= j < files_calls(kind, owner, files, icons, pixmaps).len() && (
            #[trigger] files_calls(kind, owner, files, icons, pixmaps)[j]) is Entry
                ==> exists|fi: int|
                0 <= fi < files.len() && (decode_spec(
                    (#[trigger] files[fi]).0,
                    rewrite_descriptor(kind, owner, files[fi].1),
                ) matches Some(d) && !d.no_display && files_calls(kind, owner, files, icons, pixmaps)[j]
                    == (RegCall::Entry {
                    appid: d.appid,
                    text: rewrite_descriptor(kind, owner, files[fi].1),
                    owner: owner,
                })),
    decreases files.len(),
{
    if files.len() == 0 {
    } else {
        lemma_entries_come_from_visible_descriptors(kind, owner, files.drop_first(), icons, pixmaps);
        let all = files_calls(kind, owner, files, icons, pixmaps);
        let head = entry_calls(kind, owner, files[0], icons, pixmaps);
        let tail = files_calls(kind, owner, files.drop_first(), icons, pixmaps);
        assert forall|j: int|
            0 <= j < all.len() && (#[trigger] all[j]) is Entry implies exists|fi: int|
            0 <= fi < files.len() && (decode_spec(
                (#[trigger] files[fi]).0,
                rewrite_descriptor(kind, owner, files[fi].1),
            ) matches Some(d) && !d.no_display && all[j] == (RegCall::Entry {
                appid: d.appid,
                text: rewrite_descriptor(kind, owner, files[fi].1),
                owner: owner,
            })) by {
            if j < head.len() {
                assert(all[j] == head[j]);
                let rewritten = rewrite_descriptor(kind, owner, files[0].1);
                match decode_spec(files[0].0, rewritten) {
                    None => {
                        assert(false);
                    },
                    Some(d) => {
                        if d.no_display {
                            assert(false);
                        } else {
                            if j == 0 {
                                assert(files[0] == files[0]);
                                assert(0 < files.len() && (decode_spec(
                                    files[0].0,
                                    rewrite_descriptor(kind, owner, files[0].1),
                                ) matches Some(d2) && !d2.no_display && all[j] == (RegCall::Entry {
                                    appid: d2.appid,
                                    text: rewrite_descriptor(kind, owner, files[0].1),
                                    owner: owner,
                                })));
                            } else {
                                assert(head[j] == icon_calls(d.icon, icons, pixmaps, owner)[j - 1]);
                                assert(!(head[j] is Entry));
                                assert(false);
                            }
                        }
                    },
                }
            } else {
                assert(all[j] == tail[j - head.len()]);
                let fi0 = choose|fi: int|
                    0 <= fi < files.drop_first().len() && (decode_spec(
                        (#[trigger] files.drop_first()[fi]).0,
                        rewrite_descriptor(kind, owner, files.drop_first()[fi].1),
                    ) matches Some(d) && !d.no_display && tail[j - head.len()] == (RegCall::Entry {
                        appid: d.appid,
                        text: rewrite_descriptor(kind, owner, files.drop_first()[fi].1),
                        owner: owner,
                    }));
                assert(files.drop_first()[fi0] == files[fi0 + 1]);
                assert(0 <= fi0 + 1 < files.len() && (decode_spec(
                    files[fi0 + 1].0,
                    rewrite_descriptor(kind, owner, files[fi0 + 1].1),
                ) matches Some(d) && !d.no_display && all[j] == (RegCall::Entry {
                    appid: d.appid,
                    text: rewrite_descriptor(kind, owner, files[fi0 + 1].1),
                    owner: owner,
                })));
            }
        }
    }
}

/// An unsupported runtime kind fails the pass immediately at Starting:
/// the registrar produces no action at all, so no driver command runs and
/// no registry call is issued.
pub proof fn lemma_unsupported_fails_at_start(pre: Pass, post: Pass, actions: Seq<ActionView>)
    requires
        pre.phase is Idle,
        !pre.kind.is_supported(),
        step_spec(pre, PassEvent::Begin, post, actions),
    ensures
        post.phase == PassPhase::Failed(Stage::Starting, FailureKind::UnsupportedRuntime),
        actions.len() == 0,
{
}

/// The terminal phases absorb every event without acting.
pub proof fn lemma_terminal_absorbs(
    pre: Pass,
    event: PassEvent,
    post: Pass,
    actions: Seq<ActionView>,
)
    requires
        step_spec(pre, event, post, actions),
        pre.phase is Done || pre.phase is Failed,
    ensures
        post.phase == pre.phase,
        actions.len() == 0,
{
}

/// The no-display law at the level of the whole publish plan: every
/// entry registration a pass issues is the registration of a descriptor
/// whose no-display flag is unset; a no-display descriptor never reaches
/// the registration step.
pub proof fn lemma_no_display_never_registered(
    kind: ContainerType,
    owner: Seq<char>,
    files: Seq<(Seq<char>, Seq<char>)>,
    icons: Seq<Seq<char>>,
    pixmaps: Seq<Seq<char>>,
)
    ensures
        forall|j: int|
            0 <= j < publish_calls(kind, owner, files, icons, pixmaps).len() && (
            #[trigger] publish_calls(kind, owner, files, icons, pixmaps)[j]) is Entry
                ==> exists|fi: int|
                0 <= fi < files.len() && (decode_spec(
                    (#[trigger] files[fi]).0,
                    rewrite_descriptor(kind, owner, files[fi].1),
                ) matches Some(d) && !d.no_display && publish_calls(
                    kind,
                    owner,
                    files,
                    icons,
                    pixmaps,
                )[j] == (RegCall::Entry {
                    appid: d.appid,
                    text: rewrite_descriptor(kind, owner, files[fi].1),
                    owner: owner,
                })),
{
    lemma_entries_come_from_visible_descriptors(kind, owner, files, icons, pixmaps);
    let calls = publish_calls(kind, owner, files, icons, pixmaps);
    let tail = files_calls(kind, owner, files, icons, pixmaps);
    assert forall|j: int|
        0 <= j < calls.len() && (#[trigger] calls[j]) is Entry implies exists|fi: int|
        0 <= fi < files.len() && (decode_spec(
            (#[trigger] files[fi]).0,
            rewrite_descriptor(kind, owner, files[fi].1),
        ) matches Some(d) && !d.no_display && calls[j] == (RegCall::Entry {
            appid: d.appid,
            text: rewrite_descriptor(kind, owner, files[fi].1),
            owner: owner,
        })) by {
        assert(j >= 1);
        assert(calls[j] == tail[j - 1]);
        let fi0 = choose|fi: int|
            0 <= fi < files.len() && (decode_spec(
                (#[trigger] files[fi]).0,
                rewrite_descriptor(kind, owner, files[fi].1),
            ) matches Some(d) && !d.no_display && tail[j - 1] == (RegCall::Entry {
                appid: d.appid,
                text: rewrite_descriptor(kind, owner, files[fi].1),
                owner: owner,
            }));
        assert(0 <= fi0 < files.len() && (decode_spec(
            files[fi0].0,
            rewrite_descriptor(kind, owner, files[fi0].1),
        ) matches Some(d) && !d.no_display && calls[j] == (RegCall::Entry {
            appid: d.appid,
            text: rewrite_descriptor(kind, owner, files[fi0].1),
            owner: owner,
        })));
    }
}

/// Re-running a full pass for the same container is idempotent in the
/// published state: whatever the daemon held before, after the two
/// passes' publish calls it attributes to the container exactly the
/// snapshot of the second pass — nothing of the first run survives.
pub proof fn lemma_rerun_full_pass(
    s: RegistryState,
    owner: Seq<char>,
    kind1: ContainerType,
    files1: Seq<(Seq<char>, Seq<char>)>,
    icons1: Seq<Seq<char>>,
    pixmaps1: Seq<Seq<char>>,
    kind2: ContainerType,
    files2: Seq<(Seq<char>, Seq<char>)>,
    icons2: Seq<Seq<char>>,
    pixmaps2: Seq<Seq<char>>,
)
    ensures
        owner_slice(
            apply_calls(
                apply_calls(s, publish_calls(kind1, owner, files1, icons1, pixmaps1)),
                publish_calls(kind2, owner, files2, icons2, pixmaps2),
            ).entries,
            owner,
        ) == owner_slice(
            apply_calls(empty_state(), publish_calls(kind2, owner, files2, icons2, pixmaps2)).entries,
            owner,
        ),
        owner_slice(
            apply_calls(
                apply_calls(s, publish_calls(kind1, owner, files1, icons1, pixmaps1)),
                publish_calls(kind2, owner, files2, icons2, pixmaps2),
            ).icons,
            owner,
        ) == owner_slice(
            apply_calls(empty_state(), publish_calls(kind2, owner, files2, icons2, pixmaps2)).icons,
            owner,
        ),
{
    lemma_publish_calls_pass_shaped(kind1, owner, files1, icons1, pixmaps1);
    lemma_publish_calls_pass_shaped(kind2, owner, files2, icons2, pixmaps2);
    lemma_rerun_is_replacement(
        s,
        publish_calls(kind1, owner, files1, icons1, pixmaps1),
        publish_calls(kind2, owner, files2, icons2, pixmaps2),
        owner,
    );
}

} // verus!
