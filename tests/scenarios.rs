use labuh::compose::{ComposeEnvironment, ComposeFile, ComposeService, ComposeBuild};
use labuh::containers::{aggregate_logs, LogFetch};
use labuh::deploy::{plan_to_actions, rollback_plan, RuntimeAction, ServiceOverrides};
use labuh::error::AppError;
use labuh::lifecycle::{advance, RedeployStage};
use labuh::runtime::{port_binding, ContainerInfo};
use labuh::snapshot::{recorded_stable_images, snapshot_stable_images};
use labuh::stack::{ContainerOp, StackStatus, StackStore};

fn service(image: Option<&str>) -> ComposeService {
    ComposeService {
        image: image.map(|s| s.to_string()),
        build: None,
        environment: ComposeEnvironment::Empty,
        ports: vec![],
        volumes: vec![],
        depends_on: vec![],
        networks: vec![],
        container_name: None,
        restart: None,
        labels: vec![],
        command: None,
        entrypoint: None,
    }
}

fn file(services: Vec<(&str, ComposeService)>) -> ComposeFile {
    ComposeFile {
        version: None,
        services: services.into_iter().map(|(n, s)| (n.to_string(), s)).collect(),
        networks: vec![],
        volumes: vec![],
    }
}

fn container(id: &str, name: &str, image: &str, state: &str, labels: &[(&str, &str)]) -> ContainerInfo {
    ContainerInfo {
        id: id.to_string(),
        names: vec![name.to_string()],
        image: image.to_string(),
        state: state.to_string(),
        status: state.to_string(),
        labels: labels.iter().map(|(k, v)| (k.to_string(), v.to_string())).collect(),
    }
}

fn web_app_file() -> ComposeFile {
    let mut app = service(Some("nginx:1.25"));
    app.ports = vec!["8080:80".to_string()];
    app.environment = ComposeEnvironment::List(vec!["K=v".to_string()]);
    file(vec![("app", app)])
}

const WEB_YAML: &str = "services:\n  app:\n    image: nginx:1.25\n    ports: [\"8080:80\"]\n    environment: [\"K=v\"]\n";

#[test]
fn happy_create() {
    let mut store = StackStore::new();
    let f = web_app_file();
    let (id, _, steps) = store.create_stack("web", WEB_YAML, &f, "u1", &vec![]).ok().unwrap();
    let stack = store.find_by_id(&id, "u1").ok().unwrap();
    assert_eq!(stack.status, StackStatus::Creating);
    assert_eq!(stack.name, "web");
    let actions = plan_to_actions(steps);
    assert_eq!(actions.len(), 2);
    match &actions[0] {
        RuntimeAction::Pull { image } => assert_eq!(image, "nginx:1.25"),
        _ => panic!("first action must pull"),
    }
    match &actions[1] {
        RuntimeAction::Create { config } => {
            assert_eq!(config.name, "web-app");
            let labels = config.labels.clone().unwrap();
            assert!(labels.contains(&("labuh.stack.id".to_string(), id.clone())));
            assert!(labels.contains(&("labuh.stack.name".to_string(), "web".to_string())));
            assert!(labels.contains(&("labuh.service.name".to_string(), "app".to_string())));
            assert!(config.env.clone().unwrap().contains(&"K=v".to_string()));
            let ports = config.ports.clone().unwrap();
            assert_eq!(ports, vec!["8080:80".to_string()]);
            let b = port_binding(&ports[0]);
            assert_eq!(b.container_port, "80/tcp");
            assert_eq!(b.host_ip, "0.0.0.0");
            assert_eq!(b.host_port, Some("8080".to_string()));
        }
        _ => panic!("second action must create"),
    }
    assert!(store.update_status(&id, StackStatus::Stopped).is_ok());
    assert_eq!(store.find_by_id(&id, "u1").ok().unwrap().status, StackStatus::Stopped);
}

#[test]
fn unsupported_build() {
    let mut store = StackStore::new();
    let mut svc = service(None);
    svc.build = Some(ComposeBuild::Simple("./".to_string()));
    let f = file(vec![("svc", svc)]);
    match store.create_stack("s", "services:\n  svc:\n    build: ./\n", &f, "u1", &vec![]) {
        Err(AppError::Validation(m)) => assert!(m.contains("svc")),
        _ => panic!("expected a validation error"),
    }
    assert!(store.list_ids().is_empty());
}

#[test]
fn empty_image_is_rejected() {
    let mut store = StackStore::new();
    let f = file(vec![("svc", service(Some("")))]);
    match store.create_stack("s", "services:\n  svc:\n    image: ''\n", &f, "u1", &vec![]) {
        Err(AppError::Validation(m)) => assert_eq!(m, "Service 'svc' must have an image"),
        _ => panic!("expected a validation error"),
    }
    assert!(store.list_ids().is_empty());
}

#[test]
fn create_applies_outside_environment() {
    let mut store = StackStore::new();
    let o = vec![ServiceOverrides { service_name: "app".to_string(), env: vec![("K".to_string(), "w".to_string()), ("Z".to_string(), "1".to_string())], limits: None }];
    let (_, _, steps) = store.create_stack("web", WEB_YAML, &web_app_file(), "u1", &o).ok().unwrap();
    assert_eq!(steps[0].config.env, Some(vec!["K=w".to_string(), "Z=1".to_string()]));
    assert!(steps[0].replaced.is_empty());
}

#[test]
fn redeploy_with_failing_health() {
    let mut store = StackStore::new();
    let f = web_app_file();
    let (id, parsed, _) = store.create_stack("web", WEB_YAML, &f, "u1", &vec![]).ok().unwrap();
    let before = vec![container("c1", "/web-app", "nginx:1.24", "running", &[("labuh.stack.id", id.as_str())])];
    // the stable images are written before anything is replaced
    let json = snapshot_stable_images(&before, "web").ok().unwrap().unwrap();
    assert!(store.update_last_stable_images(&id, Some(json)).is_ok());
    let mut statuses = vec![];
    let mut stage = RedeployStage::SavingStable;
    for ok in [true, true, true, false, true] {
        let (next, status) = advance(stage, ok);
        if let Some(s) = status {
            statuses.push(s);
        }
        stage = next;
    }
    assert_eq!(stage, RedeployStage::Finished);
    assert_eq!(statuses, vec![StackStatus::Deploying, StackStatus::Running, StackStatus::RollingBack, StackStatus::RolledBack]);
    let stable = recorded_stable_images(store.find_by_id(&id, "u1").ok().unwrap()).ok().unwrap();
    let after = vec![container("c2", "/web-app", "nginx:1.25", "running", &[("labuh.stack.id", id.as_str())])];
    let steps = rollback_plan(&parsed.services, &stable, &id, "web", &vec![], &after);
    assert_eq!(steps.len(), 1);
    assert_eq!(steps[0].config.image, "nginx:1.24");
    assert_eq!(steps[0].replaced, vec!["c2".to_string()]);
}

#[test]
fn cross_tenant_isolation() {
    let mut store = StackStore::new();
    let (id, _, _) = store.create_stack("web", WEB_YAML, &web_app_file(), "u1", &vec![]).ok().unwrap();
    let c = container("cid", "/web-app", "nginx:1.25", "running", &[("labuh.stack.id", id.as_str())]);
    assert!(matches!(store.authorize_container_op(&c, "u2", ContainerOp::Stop), Err(AppError::NotFound(_))));
    assert!(matches!(store.authorize_container_op(&c, "u1", ContainerOp::Stop), Ok(ContainerOp::Stop)));
    let unlabelled = container("x", "/other", "nginx", "running", &[]);
    assert!(matches!(store.authorize_container_op(&unlabelled, "u2", ContainerOp::Stop), Err(AppError::Forbidden(_))));
}

#[test]
fn logs_aggregation_with_partial_failure() {
    let fetches = vec![
        LogFetch { container: "web-A".to_string(), result: Ok(vec!["hello\n".to_string()]) },
        LogFetch { container: "web-B".to_string(), result: Err("boom".to_string()) },
    ];
    let logs = aggregate_logs(&fetches);
    assert_eq!(logs.len(), 2);
    assert_eq!(logs[0].container, "web-A");
    assert_eq!(logs[0].message, "hello\n");
    assert_eq!(logs[1].container, "web-B");
    assert_eq!(logs[1].message, "[error fetching logs: boom]");
}

#[test]
fn webhook_rotation() {
    let mut store = StackStore::new();
    let (id, _, _) = store.create_stack("web", WEB_YAML, &web_app_file(), "u1", &vec![]).ok().unwrap();
    let old = store.find_by_id(&id, "u1").ok().unwrap().webhook_token.clone().unwrap();
    let new = store.regenerate_webhook_token(&id, "u1").ok().unwrap();
    assert_eq!(new.len(), 32);
    assert!(new.chars().all(|c| c.is_ascii_alphanumeric()));
    assert_ne!(new, old);
    assert!(matches!(store.validate_webhook_token(&id, &old), Err(AppError::NotFound(_))));
    assert_eq!(store.validate_webhook_token(&id, &new).ok().unwrap().id, id);
    assert!(matches!(store.regenerate_webhook_token(&id, "u2"), Err(AppError::NotFound(_))));
}
