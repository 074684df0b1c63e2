use labuh::api::{default_tail, tail_or_default};
use labuh::auth::{request_token_of, Claims, CurrentUser, JwtService};
use labuh::compose::{normalize_environment, normalize_ports, normalize_volumes, parse_compose, ComposeEnvironment, ComposeFile, ComposeNetwork, ComposeService};
use labuh::containers::{containers_of_stacks, lifecycle_targets, log_source_name, stable_images, stack_containers, stack_health, trim_leading_slashes, HealthStatus};
use labuh::deploy::{find_service, merge_env, service_answers};
use labuh::error::AppError;
use labuh::lifecycle::{health_check_is_http, health_status_ok};
use labuh::metrics::{collection_targets, cpu_deltas, memory_limit_or_one, network_totals, node_sample, window_start, MetricsTable, SystemStats};
use labuh::resource::{range_seconds, ResourceMetric, ResourceUsecase};
use labuh::runtime::{port_binding, ContainerInfo};
use labuh::snapshot::{recorded_stable_images, snapshot_stable_images};
use labuh::stack::{tokens_match, StackStatus, StackStore};
use labuh::team::{TeamRole, TeamUsecase};
use labuh::text::{split_char, str_lt};
use labuh::bridge::{pty_shell, route_runtime_frame, route_socket_frame, BridgeStep, RuntimeFrame, SocketFrame};

fn s(x: &str) -> String {
    x.to_string()
}

fn container(id: &str, names: &[&str], image: &str, state: &str, labels: &[(&str, &str)]) -> ContainerInfo {
    ContainerInfo {
        id: s(id),
        names: names.iter().map(|n| s(n)).collect(),
        image: s(image),
        state: s(state),
        status: s(state),
        labels: labels.iter().map(|(k, v)| (s(k), s(v))).collect(),
    }
}

fn service(image: Option<&str>, deps: &[&str]) -> ComposeService {
    ComposeService {
        image: image.map(s),
        build: None,
        environment: ComposeEnvironment::Empty,
        ports: vec![],
        volumes: vec![],
        depends_on: deps.iter().map(|d| s(d)).collect(),
        networks: vec![],
        container_name: None,
        restart: None,
        labels: vec![],
        command: None,
        entrypoint: None,
    }
}

#[test]
fn split_keeps_empty_parts() {
    assert_eq!(split_char("a::b", ':'), vec![s("a"), s(""), s("b")]);
    assert_eq!(split_char("", ':'), vec![s("")]);
}

#[test]
fn lexicographic_order() {
    assert!(str_lt("api", "db"));
    assert!(str_lt("db", "dba"));
    assert!(!str_lt("db", "db"));
    assert!(!str_lt("web", "db"));
}

#[test]
fn environment_forms() {
    assert!(normalize_environment(&ComposeEnvironment::Empty).is_empty());
    assert_eq!(normalize_environment(&ComposeEnvironment::List(vec![s("X=1")])), vec![s("X=1")]);
    let m = ComposeEnvironment::Mapping(vec![(s("A"), Some(s("1"))), (s("B"), None), (s("C"), Some(s("")))]);
    assert_eq!(normalize_environment(&m), vec![s("A=1"), s("C=")]);
}

#[test]
fn port_and_volume_forms() {
    let ports = vec![s("8080:80"), s("53:53/udp"), s("9000"), s("1:2:3"), s("8081:80")];
    assert_eq!(normalize_ports(&ports), vec![(s("80"), s("8081")), (s("53"), s("53"))]);
    let vols = vec![s("./data:/data"), s("named:/srv:ro"), s("bare")];
    assert_eq!(normalize_volumes(&vols), vec![(s("./data"), s("/data")), (s("named"), s("/srv"))]);
}

#[test]
fn dependency_order_then_alphabetical() {
    let f = ComposeFile {
        version: None,
        services: vec![
            (s("web"), service(Some("w"), &["api"])),
            (s("api"), service(Some("a"), &["db"])),
            (s("db"), service(Some("d"), &[])),
            (s("cache"), service(Some("c"), &[])),
        ],
        networks: vec![(s("front"), ComposeNetwork { driver: None, external: None })],
        volumes: vec![],
    };
    let p = parse_compose(&f).ok().unwrap();
    let names: Vec<String> = p.services.iter().map(|x| x.name.clone()).collect();
    assert_eq!(names, vec![s("cache"), s("db"), s("api"), s("web")]);
    assert_eq!(p.networks, vec![s("front")]);
}

#[test]
fn dependency_cycle_falls_back_to_alphabetical() {
    let f = ComposeFile {
        version: None,
        services: vec![(s("b"), service(Some("b"), &["a"])), (s("a"), service(Some("a"), &["b"]))],
        networks: vec![],
        volumes: vec![],
    };
    let names: Vec<String> = parse_compose(&f).ok().unwrap().services.iter().map(|x| x.name.clone()).collect();
    assert_eq!(names, vec![s("a"), s("b")]);
}

#[test]
fn missing_image_is_rejected() {
    let f = ComposeFile { version: None, services: vec![(s("x"), service(None, &[]))], networks: vec![], volumes: vec![] };
    match parse_compose(&f) {
        Err(AppError::Validation(m)) => assert_eq!(m, "Service 'x' must have an image"),
        _ => panic!("expected a validation error"),
    }
}

#[test]
fn env_merge_replaces_in_place_and_appends() {
    let merged = merge_env(Some(vec![s("A=1"), s("B=2")]), &vec![(s("B"), s("9")), (s("C"), s("3"))]);
    assert_eq!(merged, Some(vec![s("A=1"), s("B=9"), s("C=3")]));
    assert_eq!(merge_env(None, &vec![]), None);
    assert_eq!(merge_env(None, &vec![(s("K"), s("v"))]), Some(vec![s("K=v")]));
}

#[test]
fn port_binding_forms() {
    let b = port_binding("53:53/udp");
    assert_eq!(b.container_port, "53/udp");
    assert_eq!(b.host_port, Some(s("53")));
    let e = port_binding("9000");
    assert_eq!(e.container_port, "9000/tcp");
    assert_eq!(e.host_port, None);
}

#[test]
fn stack_membership_and_targets() {
    let all = vec![
        container("1", &["/web-a"], "i", "running", &[("labuh.stack.id", "s1")]),
        container("2", &["/web-b"], "i", "exited", &[("labuh.stack.id", "s1")]),
        container("3", &["/other"], "i", "running", &[("labuh.stack.id", "s2")]),
        container("4", &["/free"], "i", "running", &[]),
    ];
    let mine = stack_containers(all, "s1");
    assert_eq!(mine.iter().map(|c| c.id.clone()).collect::<Vec<_>>(), vec![s("1"), s("2")]);
    assert_eq!(lifecycle_targets(&mine, false), vec![s("2")]);
    assert_eq!(lifecycle_targets(&mine, true), vec![s("1")]);
}

#[test]
fn health_classification() {
    assert_eq!(stack_health(&vec![]).status, HealthStatus::Empty);
    let run = container("1", &["/a"], "i", "running", &[]);
    let ex = container("2", &["/b"], "i", "exited", &[]);
    let dead = container("3", &["/c"], "i", "dead", &[]);
    assert_eq!(stack_health(&vec![run.clone_info()]).status, HealthStatus::Healthy);
    let h = stack_health(&vec![run.clone_info(), ex.clone_info(), dead.clone_info()]);
    assert_eq!(h.status, HealthStatus::Partial);
    assert_eq!((h.total, h.running, h.stopped, h.unhealthy), (3, 1, 1, 1));
    assert_eq!(h.containers[1].name, "/b");
    assert_eq!(stack_health(&vec![ex.clone_info()]).status, HealthStatus::Stopped);
    assert_eq!(stack_health(&vec![ex.clone_info(), dead.clone_info()]).status, HealthStatus::Partial);
    assert_eq!(HealthStatus::Partial.as_str(), "partial");
}

trait CloneInfo {
    fn clone_info(&self) -> ContainerInfo;
}

impl CloneInfo for ContainerInfo {
    fn clone_info(&self) -> ContainerInfo {
        ContainerInfo {
            id: self.id.clone(),
            names: self.names.clone(),
            image: self.image.clone(),
            state: self.state.clone(),
            status: self.status.clone(),
            labels: self.labels.clone(),
        }
    }
}

#[test]
fn log_names_lose_leading_slashes() {
    assert_eq!(trim_leading_slashes("//web-a"), "web-a");
    assert_eq!(log_source_name(&container("id9", &[], "i", "running", &[])), "id9");
    assert_eq!(log_source_name(&container("id9", &["/web-a"], "i", "running", &[])), "web-a");
}

#[test]
fn stable_images_from_labels_and_names() {
    let cs = vec![
        container("1", &["/web-app"], "nginx:1", "running", &[]),
        container("2", &["/x"], "redis:7", "running", &[("com.docker.compose.service", "cache")]),
        container("3", &["/unrelated"], "busybox", "running", &[]),
    ];
    assert_eq!(stable_images(&cs, "web"), Some(vec![(s("app"), s("nginx:1")), (s("cache"), s("redis:7"))]));
    assert_eq!(stable_images(&vec![container("3", &["/unrelated"], "b", "running", &[])], "web"), None);
}

#[test]
fn stable_snapshot_json_round_trip() {
    let cs = vec![container("1", &["/web-app"], "nginx:1", "running", &[])];
    let json = snapshot_stable_images(&cs, "web").ok().unwrap().unwrap();
    assert_eq!(json, "{\"app\":\"nginx:1\"}");
    let mut store = StackStore::new();
    let f = ComposeFile { version: None, services: vec![(s("app"), service(Some("nginx:1"), &[]))], networks: vec![], volumes: vec![] };
    let (id, _, _) = store.create_stack("web", "services: {}", &f, "u1", &vec![]).ok().unwrap();
    assert!(matches!(recorded_stable_images(store.find_by_id(&id, "u1").ok().unwrap()), Err(AppError::BadRequest(_))));
    store.update_last_stable_images(&id, Some(json)).ok().unwrap();
    let back = recorded_stable_images(store.find_by_id(&id, "u1").ok().unwrap()).ok().unwrap();
    assert_eq!(back, vec![(s("app"), s("nginx:1"))]);
    store.update_last_stable_images(&id, Some(s("not json"))).ok().unwrap();
    assert!(matches!(recorded_stable_images(store.find_by_id(&id, "u1").ok().unwrap()), Err(AppError::Internal(_))));
}

#[test]
fn store_ownership_and_updates() {
    let mut store = StackStore::new();
    let f = ComposeFile { version: None, services: vec![(s("app"), service(Some("nginx:1"), &[]))], networks: vec![], volumes: vec![] };
    let (id, _, _) = store.create_stack("web", "yaml", &f, "u1", &vec![]).ok().unwrap();
    let st = store.find_by_id(&id, "u1").ok().unwrap();
    assert_eq!(st.health_check_interval, 30);
    assert_eq!(st.compose_content, Some(s("yaml")));
    assert!(matches!(store.find_by_id(&id, "u2"), Err(AppError::NotFound(_))));
    assert!(store.update_automation(&id, "u1", Some(s("* * * * *")), Some(s("http://x/")), 60).is_ok());
    assert_eq!(store.find_by_id(&id, "u1").ok().unwrap().health_check_interval, 60);
    assert!(matches!(store.update_status("nope", StackStatus::Running), Err(AppError::NotFound(_))));
    assert!(matches!(store.delete(&id, "u2"), Err(AppError::NotFound(_))));
    assert!(store.delete(&id, "u1").is_ok());
    assert!(store.find_by_id_internal(&id).is_err());
    assert_eq!(StackStatus::RollingBack.as_str(), "rolling_back");
}

#[test]
fn compose_update_checks_document() {
    let mut store = StackStore::new();
    let good = ComposeFile { version: None, services: vec![(s("app"), service(Some("nginx:1"), &[]))], networks: vec![], volumes: vec![] };
    let bad = ComposeFile { version: None, services: vec![(s("app"), service(None, &[]))], networks: vec![], volumes: vec![] };
    let (id, _, _) = store.create_stack("web", "v1", &good, "u1", &vec![]).ok().unwrap();
    assert!(matches!(store.update_compose(&id, "u1", "v2", &bad), Err(AppError::Validation(_))));
    assert_eq!(store.find_by_id(&id, "u1").ok().unwrap().compose_content, Some(s("v1")));
    assert!(store.update_compose(&id, "u1", "v3", &good).is_ok());
    assert_eq!(store.find_by_id(&id, "u1").ok().unwrap().compose_content, Some(s("v3")));
}

#[test]
fn constant_time_token_compare() {
    assert!(tokens_match("abc", "abc"));
    assert!(!tokens_match("abc", "abd"));
    assert!(!tokens_match("abc", "ab"));
    assert!(!tokens_match("", "a"));
}

#[test]
fn team_roles_and_rules() {
    assert_eq!(TeamRole::from(s("ADMIN")), TeamRole::Admin);
    assert_eq!(TeamRole::from(s("weird")), TeamRole::Viewer);
    assert_eq!(TeamRole::Developer.as_str(), "DEVELOPER");
    assert_eq!(TeamRole::Owner.priority(), 4);
    let mut teams = TeamUsecase::new();
    let t = teams.create_team("core", "alice");
    assert_eq!(teams.get_user_role(&t.id, "alice"), Some(TeamRole::Owner));
    assert!(teams.add_member(&t.id, "bob", TeamRole::Developer, "alice").is_ok());
    assert!(matches!(teams.add_member(&t.id, "carol", TeamRole::Viewer, "bob"), Err(AppError::Forbidden(_))));
    assert!(matches!(teams.add_member(&t.id, "carol", TeamRole::Viewer, "mallory"), Err(AppError::Forbidden(_))));
    assert!(teams.verify_permission(&t.id, "bob", TeamRole::Viewer).is_ok());
    assert!(matches!(teams.verify_permission(&t.id, "bob", TeamRole::Admin), Err(AppError::Forbidden(_))));
    assert!(matches!(teams.remove_member(&t.id, "alice", "alice"), Err(AppError::BadRequest(_))));
    assert!(matches!(teams.remove_member(&t.id, "nobody", "alice"), Err(AppError::NotFound(_))));
    assert!(matches!(teams.remove_member(&t.id, "alice", "bob"), Err(AppError::Forbidden(_))));
    assert!(teams.remove_member(&t.id, "bob", "bob").is_ok());
    assert_eq!(teams.get_user_role(&t.id, "bob"), None);
}

#[test]
fn resource_limits_need_ownership() {
    let mut store = StackStore::new();
    let f = ComposeFile { version: None, services: vec![(s("app"), service(Some("nginx:1"), &[]))], networks: vec![], volumes: vec![] };
    let (id, _, _) = store.create_stack("web", "y", &f, "u1", &vec![]).ok().unwrap();
    let mut r = ResourceUsecase::new();
    assert!(matches!(r.update_limits(&store, &id, "app", "u2", Some(1), None), Err(AppError::NotFound(_))));
    assert!(r.get_resource_limits(&id, "app").is_none());
    assert!(r.update_limits(&store, &id, "app", "u1", Some(1_500_000_000), Some(268_435_456)).is_ok());
    assert!(r.update_limits(&store, &id, "app", "u1", Some(2_000_000_000), None).is_ok());
    let l = r.get_resource_limits(&id, "app").unwrap();
    assert_eq!((l.cpu_limit, l.memory_limit), (Some(2_000_000_000), None));
    assert_eq!(range_seconds("7d"), 604800);
    assert_eq!(range_seconds("6h"), 21600);
    assert_eq!(range_seconds("bogus"), 3600);
}

#[test]
fn node_and_container_stats() {
    let n = node_sample(&SystemStats {
        load_one_centi: 150,
        memory_total_kb: 1000,
        memory_available_kb: 400,
        disk_total_bytes: 5000,
        disk_available_bytes: 1000,
    });
    assert_eq!((n.cpu_percent_centi, n.memory_usage, n.memory_total, n.disk_usage, n.disk_total), (1500, 614400, 1024000, 4000, 5000));
    assert_eq!(network_totals(&vec![(1, 2), (10, 20)]), (11, 22));
    assert_eq!(network_totals(&vec![(u64::MAX, 0), (1, 0)]), (u64::MAX, 0));
    assert_eq!(cpu_deltas(200, 100, 1000, 500), Some((100, 500)));
    assert_eq!(cpu_deltas(100, 100, 1000, 500), None);
    assert_eq!(memory_limit_or_one(None), 1);
    let cs = vec![
        container("c1", &["/a"], "i", "running", &[("labuh.stack.id", "s1")]),
        container("c2", &["/b"], "i", "running", &[("labuh.stack.id", "s2")]),
    ];
    assert_eq!(collection_targets(&vec![s("s2"), s("s1"), s("s3")], &cs), vec![(s("s2"), s("c2")), (s("s1"), s("c1"))]);
}

#[test]
fn request_tokens() {
    assert_eq!(request_token_of(Some("Bearer abc"), Some("token=zzz")), Some(s("abc")));
    assert_eq!(request_token_of(Some("Basic abc"), Some("a=1&token=zzz&token=y")), Some(s("zzz")));
    assert_eq!(request_token_of(None, Some("a=1")), None);
    assert_eq!(request_token_of(None, None), None);
}

#[test]
fn jwt_claims_and_user() {
    let svc = JwtService::new(s("SECRET-REDACTED"), 2);
    assert_eq!(svc.secret(), "SECRET-REDACTED");
    let c = svc.claims_for("u1", "a@b.c", "admin", 1000);
    assert_eq!((c.iat, c.exp), (1000, 1000 + 7200));
    let u = CurrentUser::from(Claims { sub: s("u1"), email: s("a@b.c"), role: s("admin"), exp: 0, iat: 0 });
    assert_eq!((u.id, u.email, u.role), (s("u1"), s("a@b.c"), s("admin")));
}

#[test]
fn health_check_rules() {
    assert!(health_check_is_http(&Some(s("http://127.0.0.1:65535/"))));
    assert!(!health_check_is_http(&Some(s(""))));
    assert!(!health_check_is_http(&Some(s("cmd: true"))));
    assert!(!health_check_is_http(&None));
    assert!(health_status_ok(204));
    assert!(!health_status_ok(503));
}

#[test]
fn tails_and_bridges() {
    assert_eq!(default_tail(), 100);
    assert_eq!(tail_or_default(Some(5)), 5);
    assert_eq!(tail_or_default(None), 100);
    assert!(matches!(route_runtime_frame(RuntimeFrame::StdErr(vec![1])), BridgeStep::ToSocket(b) if b == vec![1]));
    assert!(matches!(route_runtime_frame(RuntimeFrame::StdIn(vec![1])), BridgeStep::Skip));
    assert!(matches!(route_socket_frame(SocketFrame::Text(s("ls\n"))), BridgeStep::ToShell(b) if b == b"ls\n".to_vec()));
    assert!(matches!(route_socket_frame(SocketFrame::Close), BridgeStep::End));
    assert_eq!(pty_shell(false), "/bin/sh");
}

#[test]
fn service_lookup_ignores_case() {
    let f = ComposeFile {
        version: None,
        services: vec![(s("Api"), service(Some("a"), &[])), (s("db"), service(Some("d"), &[]))],
        networks: vec![],
        volumes: vec![],
    };
    let p = parse_compose(&f).ok().unwrap();
    assert_eq!(find_service(&p.services, "shop", "API").map(|i| p.services[i].name.clone()), Some(s("Api")));
    assert_eq!(find_service(&p.services, "shop", "Shop-DB").map(|i| p.services[i].name.clone()), Some(s("db")));
    assert_eq!(find_service(&p.services, "shop", "cache"), None);
    assert!(service_answers("db", "shop-db", "shop-db"));
    assert!(!service_answers("db", "shop-db", "DB"));
}

#[test]
fn metrics_windows() {
    assert_eq!(window_start(100_000, None), 100_000 - 24 * 3600);
    assert_eq!(window_start(100_000, Some(1)), 100_000 - 3600);
    assert_eq!(window_start(i64::MIN + 10, Some(1)), i64::MIN);
    let mut t: MetricsTable<u8> = MetricsTable::new();
    t.append_row(10, 1);
    t.append_row(20, 2);
    t.append_row(30, 3);
    let after: Vec<(i64, u8)> = t.rows_after(15).into_iter().cloned().collect();
    assert_eq!(after, vec![(20, 2), (30, 3)]);
}

#[test]
fn listing_stacks() {
    let mut store = StackStore::new();
    let f = ComposeFile { version: None, services: vec![(s("app"), service(Some("nginx:1"), &[]))], networks: vec![], volumes: vec![] };
    let (a, _, _) = store.create_stack("a", "y", &f, "u1", &vec![]).ok().unwrap();
    let (b, _, _) = store.create_stack("b", "y", &f, "u2", &vec![]).ok().unwrap();
    let (c, _, _) = store.create_stack("c", "y", &f, "u1", &vec![]).ok().unwrap();
    let mine: Vec<String> = store.list_by_user("u1").iter().map(|x| x.id.clone()).collect();
    assert_eq!(mine, vec![a.clone(), c.clone()]);
    assert_eq!(store.list_ids(), vec![a, b, c]);
}

#[test]
fn user_teams_listed_with_roles() {
    let mut teams = TeamUsecase::new();
    let a = teams.create_team("a", "alice");
    let b = teams.create_team("b", "bob");
    assert!(teams.add_member(&b.id, "alice", TeamRole::Viewer, "bob").is_ok());
    let mine: Vec<(String, TeamRole)> = teams.get_user_teams("alice").into_iter().map(|r| (r.team.id, r.role)).collect();
    assert_eq!(mine, vec![(a.id.clone(), TeamRole::Owner), (b.id.clone(), TeamRole::Viewer)]);
    assert!(teams.get_user_teams("nobody").is_empty());
}

#[test]
fn limits_and_metrics_reads_need_ownership() {
    let mut store = StackStore::new();
    let f = ComposeFile { version: None, services: vec![(s("app"), service(Some("nginx:1"), &[]))], networks: vec![], volumes: vec![] };
    let (id, _, _) = store.create_stack("web", "y", &f, "u1", &vec![]).ok().unwrap();
    let mut r = ResourceUsecase::new();
    r.update_limits(&store, &id, "app", "u1", Some(1), Some(2)).ok().unwrap();
    r.update_limits(&store, &id, "db", "u1", None, Some(3)).ok().unwrap();
    let names: Vec<String> = r.get_limits(&store, &id, "u1").ok().unwrap().iter().map(|l| l.service_name.clone()).collect();
    assert_eq!(names, vec![s("app"), s("db")]);
    assert!(matches!(r.get_limits(&store, &id, "u2"), Err(AppError::NotFound(_))));
    let now: i64 = 10_000_000;
    let m = |c: &str| ResourceMetric { container_id: s(c), stack_id: id.clone(), cpu_usage_centi: 5, memory_usage: 7 };
    r.save_metric(now - 7200, m("old"));
    r.save_metric(now - 60, m("new"));
    let got: Vec<String> = r.get_metrics(&store, &id, "u1", "1h", now).ok().unwrap().iter().map(|x| x.1.container_id.clone()).collect();
    assert_eq!(got, vec![s("new")]);
    let day: Vec<String> = r.get_metrics(&store, &id, "u1", "24h", now).ok().unwrap().iter().map(|x| x.1.container_id.clone()).collect();
    assert_eq!(day, vec![s("old"), s("new")]);
    r.save_metric(now - 31 * 86400, m("ancient"));
    r.prune_old_metrics(now);
    let kept: Vec<String> = r.get_metrics(&store, &id, "u1", "30d", now).ok().unwrap().iter().map(|x| x.1.container_id.clone()).collect();
    assert_eq!(kept, vec![s("old"), s("new")]);
}

#[test]
fn containers_of_owned_stacks() {
    let all = vec![
        container("1", &["/a"], "i", "running", &[("labuh.stack.id", "s1")]),
        container("2", &["/b"], "i", "running", &[("labuh.stack.id", "s2")]),
        container("3", &["/c"], "i", "running", &[]),
        container("4", &["/d"], "i", "exited", &[("labuh.stack.id", "s3")]),
    ];
    let mine = containers_of_stacks(all, &vec![s("s3"), s("s1")]);
    assert_eq!(mine.iter().map(|c| c.id.clone()).collect::<Vec<_>>(), vec![s("1"), s("4")]);
}
