//! Values exchanged with the container runtime.
use vstd::prelude::*;
use crate::assoc::{pairs_view, lookup};
use crate::text::{split_spec, split_char, contains_char, concat};

verus! {

/// Label that ties a container to the stack that owns it.
pub open spec fn stack_id_label() -> Seq<char> {
    "labuh.stack.id"@
}

/// Label holding the owning stack's name.
pub open spec fn stack_name_label() -> Seq<char> {
    "labuh.stack.name"@
}

/// Label holding the service's name.
pub open spec fn service_name_label() -> Seq<char> {
    "labuh.service.name"@
}

/// Label set by compose tooling on imported workloads.
pub open spec fn compose_service_label() -> Seq<char> {
    "com.docker.compose.service"@
}

/// A container as the runtime lists or inspects it.
pub struct ContainerInfo {
    pub id: String,
    pub names: Vec<String>,
    pub image: String,
    pub state: String,
    pub status: String,
    pub labels: Vec<(String, String)>,
}

/// A request to create a container.
pub struct ContainerConfig {
    pub name: String,
    pub image: String,
    pub env: Option<Vec<String>>,
    pub cmd: Option<Vec<String>>,
    /// Port mappings written `HOST:CONTAINER`.
    pub ports: Option<Vec<String>>,
    /// Bind mounts written `SOURCE:TARGET`.
    pub volumes: Option<Vec<String>>,
    pub labels: Option<Vec<(String, String)>>,
    /// CPU limit in billionths of a core.
    pub cpu_limit: Option<i64>,
    /// Memory limit in bytes.
    pub memory_limit: Option<i64>,
    pub network_mode: Option<String>,
    pub extra_hosts: Option<Vec<String>>,
    pub restart_policy: Option<String>,
}

/// An image as the runtime lists it.
pub struct ImageInfo {
    pub id: String,
    pub repo_tags: Vec<String>,
    pub size: i64,
    pub created: i64,
}

/// An image's configuration as the runtime reports it.
pub struct ImageInspect {
    pub id: String,
    pub repo_tags: Vec<String>,
    pub exposed_ports: Vec<String>,
    pub env_vars: Vec<String>,
    pub working_dir: String,
    pub entrypoint: Vec<String>,
    pub cmd: Vec<String>,
    pub created: String,
    pub size: i64,
}

/// The value of label `key` on a container.
pub open spec fn label_of(c: ContainerInfo, key: Seq<char>) -> Option<Seq<char>> {
    lookup(pairs_view(c.labels@), key)
}

pub open spec fn names_view(v: Seq<String>) -> Seq<Seq<char>> {
    v.map_values(|s: String| s@)
}

pub open spec fn opt_view(o: Option<String>) -> Option<Seq<char>> {
    match o {
        Some(s) => Some(s@),
        None => None,
    }
}

pub open spec fn opt_strs(o: Option<Vec<String>>) -> Option<Seq<Seq<char>>> {
    match o {
        Some(v) => Some(names_view(v@)),
        None => None,
    }
}

/// What a `ContainerConfig` holds, as characters.
pub struct ConfigModel {
    pub name: Seq<char>,
    pub image: Seq<char>,
    pub env: Option<Seq<Seq<char>>>,
    pub cmd: Option<Seq<Seq<char>>>,
    pub ports: Option<Seq<Seq<char>>>,
    pub volumes: Option<Seq<Seq<char>>>,
    pub labels: Option<Seq<(Seq<char>, Seq<char>)>>,
    pub cpu_limit: Option<i64>,
    pub memory_limit: Option<i64>,
    pub network_mode: Option<Seq<char>>,
    pub extra_hosts: Option<Seq<Seq<char>>>,
    pub restart_policy: Option<Seq<char>>,
}

impl ContainerConfig {
    pub open spec fn model(&self) -> ConfigModel {
        ConfigModel {
            name: self.name@,
            image: self.image@,
            env: opt_strs(self.env),
            cmd: opt_strs(self.cmd),
            ports: opt_strs(self.ports),
            volumes: opt_strs(self.volumes),
            labels: match self.labels {
                Some(l) => Some(pairs_view(l@)),
                None => None,
            },
            cpu_limit: self.cpu_limit,
            memory_limit: self.memory_limit,
            network_mode: opt_view(self.network_mode),
            extra_hosts: opt_strs(self.extra_hosts),
            restart_policy: opt_view(self.restart_policy),
        }
    }
}

/// How one port mapping is published: the container port with its
/// protocol (`/tcp` where none is written), and the host port, where the
/// mapping is written `HOST:CONTAINER`.
pub open spec fn binding_of(p: Seq<char>) -> (Seq<char>, Option<Seq<char>>) {
    let parts = split_spec(p, ':');
    let host = if parts.len() == 2 { Some(parts[0]) } else { None };
    let cport = if parts.len() == 2 { parts[1] } else { parts[0] };
    let key = if cport.contains('/') { cport } else { cport + "/tcp"@ };
    (key, host)
}

/// The address that published ports bind on the host.
pub open spec fn any_host_ip() -> Seq<char> {
    "0.0.0.0"@
}

/// A published port.
pub struct PortBinding {
    /// Container port and protocol, such as `80/tcp`.
    pub container_port: String,
    /// Host address.
    pub host_ip: String,
    /// Host port; none where the port is only exposed.
    pub host_port: Option<String>,
}

/// How a port mapping of a creation request is published.
pub fn port_binding(p: &str) -> (r: PortBinding)
    ensures
        r.container_port@ == binding_of(p@).0,
        opt_view(r.host_port) == binding_of(p@).1,
        r.host_ip@ == any_host_ip(),
{
    let parts = split_char(p, ':');
    proof {
        crate::text::lemma_split_nonempty(p@, ':');
    }
    assert(parts@.map_values(|x: String| x@)[0] == parts@[0]@);
    let (host, cport) = if parts.len() == 2 {
        assert(parts@.map_values(|x: String| x@)[1] == parts@[1]@);
        (Some(parts[0].clone()), parts[1].clone())
    } else {
        (None, parts[0].clone())
    };
    let key = if contains_char(cport.as_str(), '/') {
        cport
    } else {
        concat(cport.as_str(), "/tcp")
    };
    PortBinding { container_port: key, host_ip: "0.0.0.0".to_owned(), host_port: host }
}

} // verus!
