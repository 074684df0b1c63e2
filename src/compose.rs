//! Compose documents and their normalization into services ready to deploy.
use vstd::prelude::*;
use crate::assoc::{pairs_view, assoc_insert, insert_pair};
use crate::text::{split_spec, split_char, concat, lemma_split_nonempty};
use crate::error::AppError;
use crate::order::{dependency_order, order_services};
use crate::runtime::{ContainerConfig, ConfigModel};

verus! {

/// A decoded compose document. Mappings keep the document's order.
pub struct ComposeFile {
    pub version: Option<String>,
    pub services: Vec<(String, ComposeService)>,
    pub networks: Vec<(String, ComposeNetwork)>,
    pub volumes: Vec<(String, ComposeVolume)>,
}

/// One entry under `services`.
pub struct ComposeService {
    pub image: Option<String>,
    pub build: Option<ComposeBuild>,
    pub environment: ComposeEnvironment,
    pub ports: Vec<String>,
    pub volumes: Vec<String>,
    pub depends_on: Vec<String>,
    pub networks: Vec<String>,
    pub container_name: Option<String>,
    pub restart: Option<String>,
    pub labels: Vec<(String, String)>,
    pub command: Option<ComposeCommand>,
    pub entrypoint: Option<ComposeCommand>,
}

/// The `build` key: a context path, or a context with a dockerfile.
pub enum ComposeBuild {
    Simple(String),
    Extended { context: String, dockerfile: Option<String> },
}

/// The `environment` key: absent, a list of `K=V`, or a map of `K` to an optional `V`.
pub enum ComposeEnvironment {
    Empty,
    List(Vec<String>),
    Mapping(Vec<(String, Option<String>)>),
}

/// The `command` and `entrypoint` keys.
pub enum ComposeCommand {
    Simple(String),
    List(Vec<String>),
}

/// An entry under `networks`.
pub struct ComposeNetwork {
    pub driver: Option<String>,
    pub external: Option<bool>,
}

/// An entry under `volumes`.
pub struct ComposeVolume {
    pub driver: Option<String>,
    pub external: Option<bool>,
}

/// The canonical form of a compose document.
pub struct ParsedCompose {
    pub services: Vec<ParsedService>,
    pub networks: Vec<String>,
}

/// One service in canonical form.
pub struct ParsedService {
    pub name: String,
    pub image: String,
    pub env: Vec<String>,
    /// Container port to host port.
    pub ports: Vec<(String, String)>,
    /// Mount source to mount target.
    pub volumes: Vec<(String, String)>,
    pub depends_on: Vec<String>,
}

/// What a `ParsedService` holds, as characters.
pub struct ServiceModel {
    pub name: Seq<char>,
    pub image: Seq<char>,
    pub env: Seq<Seq<char>>,
    pub ports: Seq<(Seq<char>, Seq<char>)>,
    pub volumes: Seq<(Seq<char>, Seq<char>)>,
    pub depends_on: Seq<Seq<char>>,
}

pub open spec fn strs(v: Seq<String>) -> Seq<Seq<char>> {
    crate::runtime::names_view(v)
}

impl ParsedService {
    pub open spec fn model(&self) -> ServiceModel {
        ServiceModel {
            name: self.name@,
            image: self.image@,
            env: strs(self.env@),
            ports: pairs_view(self.ports@),
            volumes: pairs_view(self.volumes@),
            depends_on: strs(self.depends_on@),
        }
    }
}

pub open spec fn models(v: Seq<ParsedService>) -> Seq<ServiceModel> {
    v.map_values(|s: ParsedService| s.model())
}

/// `K=V`.
pub open spec fn env_entry(k: Seq<char>, v: Seq<char>) -> Seq<char> {
    k + seq!['='] + v
}

/// The map form of `environment`: keys with a value become `K=V`, keys
/// without one are dropped.
pub open spec fn env_map_spec(m: Seq<(String, Option<String>)>) -> Seq<Seq<char>>
    decreases m.len(),
{
    if m.len() == 0 {
        Seq::empty()
    } else {
        let prev = env_map_spec(m.drop_last());
        match m.last().1 {
            Some(v) => prev.push(env_entry(m.last().0@, v@)),
            None => prev,
        }
    }
}

/// The environment of a service as `K=V` entries.
pub open spec fn env_spec(e: ComposeEnvironment) -> Seq<Seq<char>> {
    match e {
        ComposeEnvironment::Empty => Seq::empty(),
        ComposeEnvironment::List(l) => strs(l@),
        ComposeEnvironment::Mapping(m) => env_map_spec(m@),
    }
}

/// A port written `H:C` or `H:C/proto` gives the pair (C, H); any other form gives nothing.
pub open spec fn port_entry(p: Seq<char>) -> Option<(Seq<char>, Seq<char>)> {
    let parts = split_spec(p, ':');
    if parts.len() == 2 {
        Some((split_spec(parts[1], '/')[0], parts[0]))
    } else {
        None
    }
}

/// A volume written `S:D` or `S:D:flags` gives the pair (S, D); any other form gives nothing.
pub open spec fn volume_entry(v: Seq<char>) -> Option<(Seq<char>, Seq<char>)> {
    let parts = split_spec(v, ':');
    if parts.len() >= 2 {
        Some((parts[0], parts[1]))
    } else {
        None
    }
}

/// The entries that `f` gives for `items`, inserted in order; a later
/// entry for a key replaces the earlier one in place.
pub open spec fn mapping_spec(
    items: Seq<Seq<char>>,
    f: spec_fn(Seq<char>) -> Option<(Seq<char>, Seq<char>)>,
) -> Seq<(Seq<char>, Seq<char>)>
    decreases items.len(),
{
    if items.len() == 0 {
        Seq::empty()
    } else {
        let prev = mapping_spec(items.drop_last(), f);
        match f(items.last()) {
            Some(e) => assoc_insert(prev, e.0, e.1),
            None => prev,
        }
    }
}

/// The port mapping that port entries give.
pub open spec fn read_ports(items: Seq<Seq<char>>) -> Seq<(Seq<char>, Seq<char>)> {
    mapping_spec(items, |p: Seq<char>| port_entry(p))
}

/// The mount mapping that volume entries give.
pub open spec fn read_volumes(items: Seq<Seq<char>>) -> Seq<(Seq<char>, Seq<char>)> {
    mapping_spec(items, |v: Seq<char>| volume_entry(v))
}

pub open spec fn ports_spec(ports: Seq<String>) -> Seq<(Seq<char>, Seq<char>)> {
    read_ports(strs(ports))
}

pub open spec fn volumes_spec(vols: Seq<String>) -> Seq<(Seq<char>, Seq<char>)> {
    read_volumes(strs(vols))
}

/// The `K=V` entries of a service's environment.
pub fn normalize_environment(e: &ComposeEnvironment) -> (r: Vec<String>)
    ensures
        strs(r@) == env_spec(*e),
{
    match e {
        ComposeEnvironment::Empty => Vec::new(),
        ComposeEnvironment::List(l) => clone_strings(l),
        ComposeEnvironment::Mapping(m) => {
            let mut out: Vec<String> = Vec::new();
            let mut i: usize = 0;
            while i < m.len()
                invariant
                    i <= m@.len(),
                    strs(out@) == env_map_spec(m@.subrange(0, i as int)),
                decreases m.len() - i,
            {
                proof {
                    assert(m@.subrange(0, i + 1).drop_last() =~= m@.subrange(0, i as int));
                }
                match &m[i].1 {
                    Some(v) => {
                        let k = concat(m[i].0.as_str(), "=");
                        let entry = concat(k.as_str(), v.as_str());
                        proof {
                            reveal_strlit("=");
                            assert("="@ =~= seq!['=']);
                        }
                        let ghost before = out@;
                        out.push(entry);
                        assert(strs(out@) =~= strs(before).push(entry@));
                        assert(strs(out@) =~= env_map_spec(m@.subrange(0, i + 1)));
                    },
                    None => {},
                }
                i = i + 1;
            }
            assert(m@.subrange(0, m@.len() as int) =~= m@);
            out
        },
    }
}

/// A copy of each string.
pub fn clone_strings(v: &Vec<String>) -> (r: Vec<String>)
    ensures
        strs(r@) == strs(v@),
{
    let mut out: Vec<String> = Vec::new();
    let mut i: usize = 0;
    while i < v.len()
        invariant
            i <= v@.len(),
            strs(out@) == strs(v@.subrange(0, i as int)),
        decreases v.len() - i,
    {
        let ghost before = out@;
        let c = v[i].clone();
        out.push(c);
        assert(strs(v@.subrange(0, i + 1)) =~= strs(v@.subrange(0, i as int)).push(v@[i as int]@));
        assert(strs(out@) =~= strs(before).push(c@));
        i = i + 1;
    }
    assert(v@.subrange(0, v@.len() as int) =~= v@);
    out
}

/// The pair that a port written `H:C` or `H:C/proto` gives.
pub fn parse_port(p: &str) -> (r: Option<(String, String)>)
    ensures
        match r {
            Some(e) => port_entry(p@) == Some((e.0@, e.1@)),
            None => port_entry(p@) is None,
        },
{
    let parts = split_char(p, ':');
    assert(parts@.len() == split_spec(p@, ':').len());
    if parts.len() == 2 {
        let host = parts[0].clone();
        let sub = split_char(parts[1].as_str(), '/');
        proof {
            lemma_split_nonempty(parts@[1]@, '/');
            assert(strs(parts@)[1] == parts@[1]@);
            assert(strs(parts@)[0] == parts@[0]@);
        }
        assert(sub@.map_values(|p: String| p@)[0] == sub@[0]@);
        let container = sub[0].clone();
        Some((container, host))
    } else {
        None
    }
}

/// The pair that a volume written `S:D` or `S:D:flags` gives.
pub fn parse_volume(v: &str) -> (r: Option<(String, String)>)
    ensures
        match r {
            Some(e) => volume_entry(v@) == Some((e.0@, e.1@)),
            None => volume_entry(v@) is None,
        },
{
    let parts = split_char(v, ':');
    assert(parts@.len() == split_spec(v@, ':').len());
    if parts.len() >= 2 {
        proof {
            assert(parts@.map_values(|p: String| p@)[1] == parts@[1]@);
            assert(parts@.map_values(|p: String| p@)[0] == parts@[0]@);
        }
        Some((parts[0].clone(), parts[1].clone()))
    } else {
        None
    }
}

/// Container port to host port, for each port written `H:C` or `H:C/proto`.
pub fn normalize_ports(ports: &Vec<String>) -> (r: Vec<(String, String)>)
    ensures
        pairs_view(r@) == ports_spec(ports@),
{
    let mut out: Vec<(String, String)> = Vec::new();
    let mut i: usize = 0;
    while i < ports.len()
        invariant
            i <= ports@.len(),
            pairs_view(out@) == ports_spec(ports@.subrange(0, i as int)),
        decreases ports.len() - i,
    {
        proof {
            assert(strs(ports@.subrange(0, i + 1)).drop_last() =~= strs(ports@.subrange(0, i as int)));
            assert(strs(ports@.subrange(0, i + 1)).last() == ports@[i as int]@);
        }
        match parse_port(ports[i].as_str()) {
            Some(e) => insert_pair(&mut out, e.0, e.1),
            None => {},
        }
        i = i + 1;
    }
    assert(ports@.subrange(0, ports@.len() as int) =~= ports@);
    out
}

/// Mount source to mount target, for each volume written `S:D` or `S:D:flags`.
pub fn normalize_volumes(vols: &Vec<String>) -> (r: Vec<(String, String)>)
    ensures
        pairs_view(r@) == volumes_spec(vols@),
{
    let mut out: Vec<(String, String)> = Vec::new();
    let mut i: usize = 0;
    while i < vols.len()
        invariant
            i <= vols@.len(),
            pairs_view(out@) == volumes_spec(vols@.subrange(0, i as int)),
        decreases vols.len() - i,
    {
        proof {
            assert(strs(vols@.subrange(0, i + 1)).drop_last() =~= strs(vols@.subrange(0, i as int)));
            assert(strs(vols@.subrange(0, i + 1)).last() == vols@[i as int]@);
        }
        match parse_volume(vols[i].as_str()) {
            Some(e) => insert_pair(&mut out, e.0, e.1),
            None => {},
        }
        i = i + 1;
    }
    assert(vols@.subrange(0, vols@.len() as int) =~= vols@);
    out
}

/// The error is `Validation` with message `msg`.
pub open spec fn is_validation(e: AppError, msg: Seq<char>) -> bool {
    match e {
        AppError::Validation(m) => m@ == msg,
        _ => false,
    }
}

pub open spec fn build_unsupported_message(name: Seq<char>) -> Seq<char> {
    "Service '"@ + name + "' uses build context which is not supported. Please use a pre-built image."@
}

pub open spec fn image_missing_message(name: Seq<char>) -> Seq<char> {
    "Service '"@ + name + "' must have an image"@
}

/// The service names a non-empty image.
pub open spec fn has_image(svc: ComposeService) -> bool {
    svc.image matches Some(img) && img@.len() > 0
}

/// The error a service without a (non-empty) image is reported with: a
/// build-only service is unsupported, any other lacks an image.
pub open spec fn image_error(name: Seq<char>, svc: ComposeService, e: AppError) -> bool {
    if svc.image is None && svc.build is Some {
        is_validation(e, build_unsupported_message(name))
    } else {
        is_validation(e, image_missing_message(name))
    }
}

/// Every service of `svcs` names a non-empty image.
pub open spec fn all_have_images(svcs: Seq<(String, ComposeService)>) -> bool {
    forall|i: int| 0 <= i < svcs.len() ==> has_image(#[trigger] svcs[i].1)
}

/// Position `i` holds the first service without an image.
pub open spec fn first_without_image(svcs: Seq<(String, ComposeService)>, i: int) -> bool {
    &&& 0 <= i < svcs.len()
    &&& !has_image(svcs[i].1)
    &&& forall|j: int| 0 <= j < i ==> has_image(#[trigger] svcs[j].1)
}

/// The error that the service at `i`, which has no image, is reported with.
pub open spec fn missing_image_error(svcs: Seq<(String, ComposeService)>, i: int, e: AppError) -> bool {
    image_error(svcs[i].0@, svcs[i].1, e)
}

/// The canonical form of one service entry that has an image.
pub open spec fn service_model(name: String, svc: ComposeService) -> ServiceModel {
    ServiceModel {
        name: name@,
        image: svc.image.unwrap()@,
        env: env_spec(svc.environment),
        ports: ports_spec(svc.ports@),
        volumes: volumes_spec(svc.volumes@),
        depends_on: strs(svc.depends_on@),
    }
}

pub open spec fn service_models(svcs: Seq<(String, ComposeService)>) -> Seq<ServiceModel> {
    svcs.map_values(|e: (String, ComposeService)| service_model(e.0, e.1))
}

pub open spec fn network_names(nets: Seq<(String, ComposeNetwork)>) -> Seq<Seq<char>> {
    nets.map_values(|e: (String, ComposeNetwork)| e.0@)
}

/// The canonical form of one service entry.
pub fn parse_service(name: &String, svc: &ComposeService) -> (r: Result<ParsedService, AppError>)
    ensures
        has_image(*svc) ==> (r matches Ok(p) && p.model() == service_model(*name, *svc)),
        !has_image(*svc) ==> (r matches Err(e) && image_error(name@, *svc, e)),
{
    let image = match &svc.image {
        Some(img) if img.as_str().unicode_len() > 0 => img.clone(),
        _ => {
            let head = concat("Service '", name.as_str());
            if svc.image.is_none() && svc.build.is_some() {
                return Err(AppError::Validation(concat(head.as_str(),
                    "' uses build context which is not supported. Please use a pre-built image.")));
            } else {
                return Err(AppError::Validation(concat(head.as_str(), "' must have an image")));
            }
        },
    };
    let p = ParsedService {
        name: name.clone(),
        image,
        env: normalize_environment(&svc.environment),
        ports: normalize_ports(&svc.ports),
        volumes: normalize_volumes(&svc.volumes),
        depends_on: clone_strings(&svc.depends_on),
    };
    assert(p.model() =~= service_model(*name, *svc));
    Ok(p)
}

/// The canonical form of a compose document: every service needs an
/// image; services come in dependency order.
pub fn parse_compose(file: &ComposeFile) -> (r: Result<ParsedCompose, AppError>)
    ensures
        r is Ok <==> all_have_images(file.services@),
        r matches Ok(p) ==> models(p.services@) == dependency_order(service_models(file.services@))
            && strs(p.networks@) == network_names(file.networks@),
        r matches Err(e) ==> exists|i: int| first_without_image(file.services@, i)
            && missing_image_error(file.services@, i, e),
{
    let mut parsed: Vec<ParsedService> = Vec::new();
    let mut i: usize = 0;
    while i < file.services.len()
        invariant
            i <= file.services@.len(),
            forall|j: int| 0 <= j < i ==> has_image(#[trigger] file.services@[j].1),
            models(parsed@) == service_models(file.services@.subrange(0, i as int)),
        decreases file.services.len() - i,
    {
        match parse_service(&file.services[i].0, &file.services[i].1) {
            Ok(p) => {
                let ghost before = parsed@;
                parsed.push(p);
                assert(models(parsed@) =~= models(before).push(p.model()));
                assert(service_models(file.services@.subrange(0, i + 1)) =~= service_models(file.services@.subrange(0, i as int)).push(service_model(file.services@[i as int].0, file.services@[i as int].1)));
            },
            Err(e) => {
                assert(!has_image(file.services@[i as int].1));
                assert(first_without_image(file.services@, i as int));
                assert(missing_image_error(file.services@, i as int, e));
                return Err(e);
            },
        }
        i = i + 1;
    }
    assert(file.services@.subrange(0, file.services@.len() as int) =~= file.services@);
    let services = order_services(parsed);
    let mut networks: Vec<String> = Vec::new();
    let mut k: usize = 0;
    while k < file.networks.len()
        invariant
            k <= file.networks@.len(),
            strs(networks@) == network_names(file.networks@.subrange(0, k as int)),
        decreases file.networks.len() - k,
    {
        let ghost before = networks@;
        let n = file.networks[k].0.clone();
        networks.push(n);
        assert(strs(networks@) =~= strs(before).push(n@));
        assert(network_names(file.networks@.subrange(0, k + 1)) =~= network_names(file.networks@.subrange(0, k as int)).push(file.networks@[k as int].0@));
        k = k + 1;
    }
    assert(file.networks@.subrange(0, file.networks@.len() as int) =~= file.networks@);
    Ok(ParsedCompose { services, networks })
}

/// `a:b`.
pub open spec fn colon_join(a: Seq<char>, b: Seq<char>) -> Seq<char> {
    a + seq![':'] + b
}

/// Port mappings written `HOST:CONTAINER`.
pub open spec fn rendered_ports(ports: Seq<(Seq<char>, Seq<char>)>) -> Seq<Seq<char>> {
    ports.map_values(|p: (Seq<char>, Seq<char>)| colon_join(p.1, p.0))
}

/// Bind mounts written `SOURCE:TARGET`.
pub open spec fn rendered_volumes(vols: Seq<(Seq<char>, Seq<char>)>) -> Seq<Seq<char>> {
    vols.map_values(|p: (Seq<char>, Seq<char>)| colon_join(p.0, p.1))
}

/// `None` for an empty list, the list otherwise.
pub open spec fn nonempty_list(v: Seq<Seq<char>>) -> Option<Seq<Seq<char>>> {
    if v.len() == 0 {
        None
    } else {
        Some(v)
    }
}

/// The ownership labels of a service's container.
pub open spec fn ownership_labels(stack_id: Seq<char>, stack_name: Seq<char>, service: Seq<char>) -> Seq<(Seq<char>, Seq<char>)> {
    seq![
        ("labuh.stack.id"@, stack_id),
        ("labuh.stack.name"@, stack_name),
        ("labuh.service.name"@, service),
    ]
}

/// The container name of a service: `{stack}-{service}`.
pub open spec fn container_name(stack_name: Seq<char>, service: Seq<char>) -> Seq<char> {
    stack_name + seq!['-'] + service
}

/// The creation request for service `s` of the stack.
pub open spec fn request_model(s: ServiceModel, stack_id: Seq<char>, stack_name: Seq<char>) -> ConfigModel {
    ConfigModel {
        name: container_name(stack_name, s.name),
        image: s.image,
        env: nonempty_list(s.env),
        cmd: None,
        ports: nonempty_list(rendered_ports(s.ports)),
        volumes: nonempty_list(rendered_volumes(s.volumes)),
        labels: Some(ownership_labels(stack_id, stack_name, s.name)),
        cpu_limit: None,
        memory_limit: None,
        network_mode: None,
        extra_hosts: None,
        restart_policy: None,
    }
}

/// Each pair written `a:b`, or `b:a` where `flip` holds.
fn render_pairs(pairs: &Vec<(String, String)>, flip: bool) -> (r: Vec<String>)
    ensures
        flip ==> strs(r@) == rendered_ports(pairs_view(pairs@)),
        !flip ==> strs(r@) == rendered_volumes(pairs_view(pairs@)),
{
    let mut out: Vec<String> = Vec::new();
    let mut i: usize = 0;
    proof {
        reveal_strlit(":");
        assert(":"@ =~= seq![':']);
    }
    while i < pairs.len()
        invariant
            i <= pairs@.len(),
            ":"@ == seq![':'],
            flip ==> strs(out@) == rendered_ports(pairs_view(pairs@.subrange(0, i as int))),
            !flip ==> strs(out@) == rendered_volumes(pairs_view(pairs@.subrange(0, i as int))),
        decreases pairs.len() - i,
    {
        let (a, b) = if flip {
            (&pairs[i].1, &pairs[i].0)
        } else {
            (&pairs[i].0, &pairs[i].1)
        };
        let head = concat(a.as_str(), ":");
        let e = concat(head.as_str(), b.as_str());
        let ghost before = out@;
        out.push(e);
        assert(strs(out@) =~= strs(before).push(e@));
        assert(rendered_ports(pairs_view(pairs@.subrange(0, i + 1))) =~= rendered_ports(pairs_view(pairs@.subrange(0, i as int))).push(colon_join(pairs@[i as int].1@, pairs@[i as int].0@)));
        assert(rendered_volumes(pairs_view(pairs@.subrange(0, i + 1))) =~= rendered_volumes(pairs_view(pairs@.subrange(0, i as int))).push(colon_join(pairs@[i as int].0@, pairs@[i as int].1@)));
        i = i + 1;
    }
    assert(pairs@.subrange(0, pairs@.len() as int) =~= pairs@);
    out
}

/// The creation request for a service of a stack: named `{stack}-{service}`,
/// carrying the three ownership labels.
pub fn service_to_container_request(service: &ParsedService, stack_id: &str, stack_name: &str) -> (r: ContainerConfig)
    ensures
        r.model() == request_model(service.model(), stack_id@, stack_name@),
{
    let mut labels: Vec<(String, String)> = Vec::new();
    labels.push(("labuh.stack.id".to_owned(), stack_id.to_owned()));
    labels.push(("labuh.stack.name".to_owned(), stack_name.to_owned()));
    labels.push(("labuh.service.name".to_owned(), service.name.clone()));
    assert(pairs_view(labels@) =~= ownership_labels(stack_id@, stack_name@, service.name@));
    let head = concat(stack_name, "-");
    let name = concat(head.as_str(), service.name.as_str());
    proof {
        reveal_strlit("-");
        assert("-"@ =~= seq!['-']);
    }
    let env = if service.env.len() == 0 {
        None
    } else {
        Some(clone_strings(&service.env))
    };
    let ports = if service.ports.len() == 0 {
        None
    } else {
        Some(render_pairs(&service.ports, true))
    };
    let volumes = if service.volumes.len() == 0 {
        None
    } else {
        Some(render_pairs(&service.volumes, false))
    };
    ContainerConfig {
        name,
        image: service.image.clone(),
        env,
        cmd: None,
        ports,
        volumes,
        labels: Some(labels),
        cpu_limit: None,
        memory_limit: None,
        network_mode: None,
        extra_hosts: None,
        restart_policy: None,
    }
}

pub proof fn lemma_split_without_separator(s: Seq<char>, sep: char)
    requires
        !s.contains(sep),
    ensures
        split_spec(s, sep) == seq![s],
    decreases s.len(),
{
    if s.len() == 0 {
        assert(s =~= Seq::<char>::empty());
    } else {
        assert(!s.drop_last().contains(sep)) by {
            if s.drop_last().contains(sep) {
                let k = choose|k: int| 0 <= k < s.drop_last().len() && s.drop_last()[k] == sep;
                assert(s[k] == sep);
            }
        }
        lemma_split_without_separator(s.drop_last(), sep);
        assert(s[s.len() - 1] != sep);
        assert(s.drop_last().push(s.last()) =~= s);
        assert(split_spec(s, sep) =~= seq![s]);
    }
}

pub proof fn lemma_split_pair(a: Seq<char>, b: Seq<char>, sep: char)
    requires
        !a.contains(sep),
        !b.contains(sep),
    ensures
        split_spec(a + seq![sep] + b, sep) == seq![a, b],
    decreases b.len(),
{
    let s = a + seq![sep] + b;
    if b.len() == 0 {
        assert(b =~= Seq::<char>::empty());
        assert(s.drop_last() =~= a);
        assert(s.last() == sep);
        lemma_split_without_separator(a, sep);
        assert(split_spec(s, sep) =~= seq![a, b]);
    } else {
        let b2 = b.drop_last();
        assert(!b2.contains(sep)) by {
            if b2.contains(sep) {
                let k = choose|k: int| 0 <= k < b2.len() && b2[k] == sep;
                assert(b[k] == sep);
            }
        }
        lemma_split_pair(a, b2, sep);
        assert(s.drop_last() =~= a + seq![sep] + b2);
        assert(b[b.len() - 1] != sep);
        assert(b2.push(b.last()) =~= b);
        assert(split_spec(s, sep) =~= seq![a, b]);
    }
}

/// Keys unique, and neither keys nor values hold a `:`; keys hold no `/`
/// where `ports` holds.
pub open spec fn plain_mapping(m: Seq<(Seq<char>, Seq<char>)>, ports: bool) -> bool {
    &&& forall|i: int, j: int| 0 <= i < m.len() && 0 <= j < m.len() && m[i].0 == m[j].0 ==> i == j
    &&& forall|i: int| 0 <= i < m.len() ==> !(#[trigger] m[i]).0.contains(':') && !m[i].1.contains(':')
    &&& ports ==> forall|i: int| 0 <= i < m.len() ==> !(#[trigger] m[i]).0.contains('/')
}

proof fn lemma_plain_prefix(m: Seq<(Seq<char>, Seq<char>)>, ports: bool)
    requires
        plain_mapping(m, ports),
        m.len() > 0,
    ensures
        plain_mapping(m.drop_last(), ports),
        !crate::assoc::has_key(m.drop_last(), m.last().0),
{
    let p = m.drop_last();
    assert forall|i: int| 0 <= i < p.len() implies p[i] == m[i] by {}
    if crate::assoc::has_key(p, m.last().0) {
        let w = choose|w: int| 0 <= w < p.len() && p[w].0 == m.last().0;
        assert(m[w].0 == m[m.len() - 1].0);
    }
}

/// Reading back the `HOST:CONTAINER` entries of a canonical port mapping
/// gives the mapping again.
pub proof fn lemma_ports_round_trip(m: Seq<(Seq<char>, Seq<char>)>)
    requires
        plain_mapping(m, true),
    ensures
        read_ports(rendered_ports(m)) == m,
    decreases m.len(),
{
    if m.len() > 0 {
        let p = m.drop_last();
        lemma_plain_prefix(m, true);
        lemma_ports_round_trip(p);
        let (c, h) = m.last();
        assert(!m[m.len() - 1].0.contains(':') && !m[m.len() - 1].1.contains(':') && !m[m.len() - 1].0.contains('/'));
        lemma_split_pair(h, c, ':');
        lemma_split_without_separator(c, '/');
        assert(rendered_ports(m).drop_last() =~= rendered_ports(p));
        assert(rendered_ports(m).last() == colon_join(h, c));
        assert(port_entry(colon_join(h, c)) == Some((c, h)));
        assert(!crate::assoc::has_key(p, c));
        assert(p.push((c, h)) =~= m);
    } else {
        assert(rendered_ports(m) =~= Seq::<Seq<char>>::empty());
    }
}

/// Reading back the `SOURCE:TARGET` entries of a canonical mount mapping
/// gives the mapping again.
pub proof fn lemma_volumes_round_trip(m: Seq<(Seq<char>, Seq<char>)>)
    requires
        plain_mapping(m, false),
    ensures
        read_volumes(rendered_volumes(m)) == m,
    decreases m.len(),
{
    if m.len() > 0 {
        let p = m.drop_last();
        lemma_plain_prefix(m, false);
        lemma_volumes_round_trip(p);
        let (a, b) = m.last();
        assert(!m[m.len() - 1].0.contains(':') && !m[m.len() - 1].1.contains(':'));
        lemma_split_pair(a, b, ':');
        assert(rendered_volumes(m).drop_last() =~= rendered_volumes(p));
        assert(rendered_volumes(m).last() == colon_join(a, b));
        assert(volume_entry(colon_join(a, b)) == Some((a, b)));
        assert(!crate::assoc::has_key(p, a));
        assert(p.push((a, b)) =~= m);
    } else {
        assert(rendered_volumes(m) =~= Seq::<Seq<char>>::empty());
    }
}

/// A canonical service turned into a creation request, whose port and
/// mount entries are read back, gives the service's mappings again; doing
/// it twice gives the same request.
pub proof fn lemma_request_round_trip(s: ServiceModel, stack_id: Seq<char>, stack_name: Seq<char>)
    requires
        plain_mapping(s.ports, true),
        plain_mapping(s.volumes, false),
    ensures
        read_ports(match request_model(s, stack_id, stack_name).ports {
            Some(l) => l,
            None => Seq::empty(),
        }) == s.ports,
        read_volumes(match request_model(s, stack_id, stack_name).volumes {
            Some(l) => l,
            None => Seq::empty(),
        }) == s.volumes,
{
    lemma_ports_round_trip(s.ports);
    lemma_volumes_round_trip(s.volumes);
    if s.ports.len() == 0 {
        assert(s.ports =~= Seq::<(Seq<char>, Seq<char>)>::empty());
        assert(read_ports(Seq::<Seq<char>>::empty()) =~= s.ports);
    }
    if s.volumes.len() == 0 {
        assert(s.volumes =~= Seq::<(Seq<char>, Seq<char>)>::empty());
        assert(read_volumes(Seq::<Seq<char>>::empty()) =~= s.volumes);
    }
}

} // verus!
