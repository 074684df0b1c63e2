use labuh::compose::{parse_compose, service_to_container_request, ComposeEnvironment, ComposeFile, ComposeService};
use labuh::deploy::{deployment_plan, plan_to_actions, rollback_plan, RuntimeAction, ServiceOverrides, ResourceLimits};
use labuh::metrics::MetricsTable;
use labuh::runtime::ContainerInfo;

fn service(image: &str, deps: &[&str]) -> ComposeService {
    ComposeService {
        image: Some(image.to_string()),
        build: None,
        environment: ComposeEnvironment::Empty,
        ports: vec![],
        volumes: vec![],
        depends_on: deps.iter().map(|d| d.to_string()).collect(),
        networks: vec![],
        container_name: None,
        restart: None,
        labels: vec![],
        command: None,
        entrypoint: None,
    }
}

fn two_services() -> ComposeFile {
    ComposeFile {
        version: None,
        services: vec![
            ("web".to_string(), service("nginx:1", &["db"])),
            ("db".to_string(), service("postgres:16", &[])),
        ],
        networks: vec![],
        volumes: vec![],
    }
}

fn container(id: &str, name: &str, image: &str) -> ContainerInfo {
    ContainerInfo {
        id: id.to_string(),
        names: vec![name.to_string()],
        image: image.to_string(),
        state: "running".to_string(),
        status: "Up".to_string(),
        labels: vec![("labuh.stack.id".to_string(), "s1".to_string())],
    }
}

#[test]
fn label_coverage_on_every_create() {
    let parsed = parse_compose(&two_services()).ok().unwrap();
    let steps = deployment_plan(&parsed.services, "s1", "shop", &vec![], &vec![]);
    for st in &steps {
        let labels = st.config.labels.clone().unwrap();
        assert!(labels.contains(&("labuh.stack.id".to_string(), "s1".to_string())));
        assert!(labels.contains(&("labuh.stack.name".to_string(), "shop".to_string())));
        assert!(labels.contains(&("labuh.service.name".to_string(), st.service.clone())));
        assert_eq!(st.config.name, format!("shop-{}", st.service));
    }
}

#[test]
fn redeploy_order_pull_stop_remove_create() {
    let parsed = parse_compose(&two_services()).ok().unwrap();
    let existing = vec![container("a", "/shop-db", "postgres:15"), container("b", "/shop-web", "nginx:0")];
    let steps = deployment_plan(&parsed.services, "s1", "shop", &vec![], &existing);
    let kinds: Vec<String> = plan_to_actions(steps)
        .iter()
        .map(|a| match a {
            RuntimeAction::Pull { image } => format!("pull {}", image),
            RuntimeAction::Stop { id } => format!("stop {}", id),
            RuntimeAction::Remove { id } => format!("remove {}", id),
            RuntimeAction::Create { config } => format!("create {}", config.name),
        })
        .collect();
    assert_eq!(
        kinds,
        vec!["pull postgres:16", "stop a", "remove a", "create shop-db", "pull nginx:1", "stop b", "remove b", "create shop-web"]
    );
}

#[test]
fn rollback_twice_same_images() {
    let parsed = parse_compose(&two_services()).ok().unwrap();
    let stable = vec![("db".to_string(), "postgres:15".to_string()), ("web".to_string(), "nginx:0".to_string())];
    let first = rollback_plan(&parsed.services, &stable, "s1", "shop", &vec![], &vec![container("a", "/shop-db", "postgres:16")]);
    let second = rollback_plan(&parsed.services, &stable, "s1", "shop", &vec![], &vec![container("z", "/shop-db", "postgres:15")]);
    let images = |v: &Vec<labuh::deploy::ServiceStep>| v.iter().map(|s| (s.service.clone(), s.config.image.clone())).collect::<Vec<_>>();
    assert_eq!(images(&first), images(&second));
    assert_eq!(images(&first), vec![("db".to_string(), "postgres:15".to_string()), ("web".to_string(), "nginx:0".to_string())]);
}

#[test]
fn rollback_skips_services_without_stable_image() {
    let parsed = parse_compose(&two_services()).ok().unwrap();
    let stable = vec![("web".to_string(), "nginx:0".to_string())];
    let steps = rollback_plan(&parsed.services, &stable, "s1", "shop", &vec![], &vec![]);
    assert_eq!(steps.len(), 1);
    assert_eq!(steps[0].service, "web");
    assert_eq!(steps[0].config.image, "nginx:0");
}

#[test]
fn rollback_ignores_resource_limits() {
    let parsed = parse_compose(&two_services()).ok().unwrap();
    let stable = vec![("web".to_string(), "nginx:0".to_string())];
    let o = vec![ServiceOverrides {
        service_name: "web".to_string(),
        env: vec![],
        limits: Some(ResourceLimits { cpu_limit: Some(500_000_000), memory_limit: Some(1024) }),
    }];
    let steps = rollback_plan(&parsed.services, &stable, "s1", "shop", &o, &vec![]);
    assert_eq!(steps[0].config.cpu_limit, None);
    let deploy = deployment_plan(&parsed.services, "s1", "shop", &o, &vec![]);
    assert_eq!(deploy[1].config.cpu_limit, Some(500_000_000));
    assert_eq!(deploy[1].config.memory_limit, Some(1024));
}

#[test]
fn compose_round_trip_is_stable() {
    let mut svc = service("nginx:1", &[]);
    svc.ports = vec!["8080:80/tcp".to_string(), "9000".to_string()];
    svc.volumes = vec!["./data:/app/data:ro".to_string()];
    svc.environment = ComposeEnvironment::Mapping(vec![
        ("A".to_string(), Some("1".to_string())),
        ("B".to_string(), None),
    ]);
    let f = ComposeFile { version: None, services: vec![("app".to_string(), svc)], networks: vec![], volumes: vec![] };
    let render = |f: &ComposeFile| {
        let p = parse_compose(f).ok().unwrap();
        let c = service_to_container_request(&p.services[0], "s1", "st");
        (c.name, c.image, c.env, c.ports, c.volumes, c.labels)
    };
    let first = render(&f);
    let second = render(&f);
    assert_eq!(first, second);
    assert_eq!(first.2, Some(vec!["A=1".to_string()]));
    assert_eq!(first.3, Some(vec!["8080:80".to_string()]));
    assert_eq!(first.4, Some(vec!["./data:/app/data".to_string()]));
}

#[test]
fn retention_keeps_only_recent_rows() {
    let now: i64 = 1_700_000_000;
    let mut t: MetricsTable<u32> = MetricsTable::new();
    t.insert(now - 8 * 86400, 1, now, 7);
    t.insert(now, 2, now, 7);
    assert_eq!(t.rows().clone(), vec![(now, 2)]);
}

#[test]
fn retention_keeps_rows_inside_window() {
    let now: i64 = 1_700_000_000;
    let mut t: MetricsTable<u32> = MetricsTable::new();
    t.insert(now - 6 * 86400, 1, now, 7);
    t.insert(now, 2, now, 7);
    assert_eq!(t.rows().clone(), vec![(now - 6 * 86400, 1), (now, 2)]);
}
