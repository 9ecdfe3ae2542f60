//! Container runtime kinds and the literal command and rewrite templates
//! each kind carries. Kinds without a supported template return the empty
//! string, the canonical "do not attempt" marker.

use vstd::prelude::*;
use vstd::string::*;

verus! {

/// The supported container runtime flavors.
#[derive(Debug, Clone, Copy, PartialEq, Eq, Structural)]
pub enum ContainerType {
    Podman,
    Docker,
    Toolbox,
    Unknown,
}

impl ContainerType {
    /// Only the toolbox flavor has full template support.
    pub open spec fn is_supported(self) -> bool {
        self is Toolbox
    }

    /// Command that ensures a container is running.
    pub open spec fn start_command(self, name: Seq<char>) -> Seq<char> {
        match self {
            ContainerType::Toolbox => "toolbox run -c "@ + name + " echo 'Started'"@,
            _ => Seq::empty(),
        }
    }

    /// Command that runs `command` inside the container.
    pub open spec fn exec_command(self, name: Seq<char>, command: Seq<char>) -> Seq<char> {
        match self {
            ContainerType::Toolbox => "toolbox run -c "@ + name + " "@ + command,
            _ => Seq::empty(),
        }
    }

    /// Command that copies a directory tree out of the container.
    pub open spec fn copy_command(self, name: Seq<char>, from: Seq<char>, to: Seq<char>) -> Seq<
        char,
    > {
        match self {
            ContainerType::Toolbox => "podman container cp "@ + name + ":"@ + from + "/. "@ + to
                + "/"@,
            _ => Seq::empty(),
        }
    }

    /// Pattern whose matches the exec rewrite replaces.
    pub open spec fn exec_pattern(self) -> Seq<char> {
        match self {
            ContainerType::Toolbox | ContainerType::Podman | ContainerType::Docker => "(Exec=\\s?)(.*)"@,
            _ => Seq::empty(),
        }
    }

    /// Replacement template for a matched exec line.
    pub open spec fn desktop_exec_template(self, name: Seq<char>) -> Seq<char> {
        match self {
            ContainerType::Toolbox => "Exec=toolbox run -c "@ + name + " ${2}"@,
            ContainerType::Podman => "Exec=sh -c 'podman container start "@ + name
                + " && podman container exec "@ + name + " ${2}'"@,
            _ => Seq::empty(),
        }
    }

    /// Pattern whose matches the name rewrite replaces.
    pub open spec fn name_pattern(self) -> Seq<char> {
        match self {
            ContainerType::Toolbox | ContainerType::Podman | ContainerType::Docker => "(Name=\\s?)(.*)"@,
            _ => Seq::empty(),
        }
    }

    /// Replacement template for a matched name line.
    pub open spec fn desktop_name_template(self, name: Seq<char>) -> Seq<char> {
        match self {
            ContainerType::Toolbox => "Name=${2} ("@ + name + ")"@,
            _ => Seq::empty(),
        }
    }

    /// Whether this runtime kind lacks full support.
    pub fn not_supported(self) -> (r: bool)
        ensures
            r == !self.is_supported(),
    {
        matches!(self, ContainerType::Docker | ContainerType::Podman | ContainerType::Unknown)
    }

    /// Shell command that copies `from` (in the container) to `to` (on the host).
    pub fn format_copy(self, container_name: &str, from: &str, to: &str) -> (r: String)
        ensures
            r@ == self.copy_command(container_name@, from@, to@),
    {
        match self {
            ContainerType::Toolbox => String::from_str("podman container cp ").concat(
                container_name,
            ).concat(":").concat(from).concat("/. ").concat(to).concat("/"),
            _ => String::new(),
        }
    }

    /// Shell command that runs `command` inside the container.
    pub fn format_exec(self, container_name: &str, command: &str) -> (r: String)
        ensures
            r@ == self.exec_command(container_name@, command@),
    {
        match self {
            ContainerType::Toolbox => String::from_str("toolbox run -c ").concat(
                container_name,
            ).concat(" ").concat(command),
            _ => String::new(),
        }
    }

    /// The exec-line pattern this kind rewrites.
    pub fn format_exec_regex_pattern(self) -> (r: String)
        ensures
            r@ == self.exec_pattern(),
    {
        match self {
            ContainerType::Toolbox | ContainerType::Podman | ContainerType::Docker => {
                String::from_str("(Exec=\\s?)(.*)")
            },
            _ => String::new(),
        }
    }

    /// The replacement template for exec lines.
    pub fn format_desktop_exec(self, container_name: &str) -> (r: String)
        ensures
            r@ == self.desktop_exec_template(container_name@),
    {
        match self {
            ContainerType::Toolbox => String::from_str("Exec=toolbox run -c ").concat(
                container_name,
            ).concat(" ${2}"),
            ContainerType::Podman => String::from_str("Exec=sh -c 'podman container start ").concat(
                container_name,
            ).concat(" && podman container exec ").concat(container_name).concat(" ${2}'"),
            _ => String::new(),
        }
    }

    /// The name-line pattern this kind rewrites.
    pub fn format_name_regex_pattern(self) -> (r: String)
        ensures
            r@ == self.name_pattern(),
    {
        match self {
            ContainerType::Toolbox | ContainerType::Podman | ContainerType::Docker => {
                String::from_str("(Name=\\s?)(.*)")
            },
            _ => String::new(),
        }
    }

    /// The replacement template for name lines.
    pub fn format_desktop_name(self, container_name: &str) -> (r: String)
        ensures
            r@ == self.desktop_name_template(container_name@),
    {
        match self {
            ContainerType::Toolbox => String::from_str("Name=${2} (").concat(container_name).concat(
                ")",
            ),
            _ => String::new(),
        }
    }

    /// Shell command that ensures the container is running.
    pub fn format_start(self, container_name: &str) -> (r: String)
        ensures
            r@ == self.start_command(container_name@),
    {
        match self {
            ContainerType::Toolbox => String::from_str("toolbox run -c ").concat(
                container_name,
            ).concat(" echo 'Started'"),
            _ => String::new(),
        }
    }
}

} // verus!
