use patchhive_backend::config::ProductSelection;
use patchhive_backend::env::EnvSnapshot;
use patchhive_backend::models::{GatewayConfig, HealthCheck, SafetyBoundary, SuiteEvent};
use patchhive_backend::registry::{ProductManifest, ProductRegistry};
use patchhive_backend::suite::{
    events_or_startup, health_report, product_health_route, session_report, ProductHealthRoute,
};

fn product(key: &str, gateway: bool) -> ProductManifest {
    ProductManifest {
        key: key.to_string(),
        code: "XX".to_string(),
        name: format!("Name of {key}"),
        role: "role".to_string(),
        rust_module: String::new(),
        route_prefix: String::new(),
        migration_stage: None,
        capabilities: Vec::new(),
        safety: SafetyBoundary {
            read_only: true,
            external_writes: false,
            repo_mutation: false,
            approval_required: false,
            credential_scopes: Vec::new(),
            evidence_required: Vec::new(),
        },
        gateway: if gateway {
            Some(GatewayConfig { default_url: Some("http://127.0.0.1:8010".to_string()), env_var: None })
        } else {
            None
        },
        routes: Vec::new(),
        health: HealthCheck { endpoint: String::new(), timeout_ms: 1000, healthy_status: 200 },
    }
}

fn registry() -> ProductRegistry {
    ProductRegistry::from_manifests(vec![
        product("signal-hive", true),
        product("hive-core", false),
        product("trust-gate", false),
    ])
}

#[test]
fn enabled_counts() {
    let r = registry();
    assert_eq!(r.enabled_product_count(&ProductSelection::All), 3);
    assert_eq!(r.enabled_product_count(&ProductSelection::from_env_value("hive-core,nope")), 1);
    assert_eq!(r.enabled_product_count(&ProductSelection::from_env_value("nope")), 0);
}

#[test]
fn product_list_and_setup() {
    let r = registry();
    let env = EnvSnapshot::new();
    let sel = ProductSelection::from_env_value("hive-core,signal-hive");
    let list = r.product_responses(&sel, &env);
    let keys: Vec<&str> = list.iter().map(|p| p.key.as_str()).collect();
    assert_eq!(keys, vec!["hive-core", "signal-hive", "trust-gate"]);
    assert!(list[0].enabled && list[1].enabled && !list[2].enabled);

    let setup = r.first_stack_status(&sel, &env, vec!["paired".to_string()]);
    assert!(!setup.suite_bootstrap_configured);
    assert_eq!(setup.launcher.status, "not-configured");
    assert_eq!(setup.actions, vec!["paired".to_string()]);
    let statuses: Vec<&str> = setup.products.iter().map(|p| p.runtime.status).collect();
    assert_eq!(statuses, vec!["online", "gateway-pending", "disabled"]);
}

#[test]
fn product_health_routes() {
    let r = registry();
    let env = EnvSnapshot::new();
    let sel = ProductSelection::All;
    assert!(matches!(
        product_health_route(&r, &sel, &env, "signal-hive"),
        ProductHealthRoute::Gateway
    ));
    match product_health_route(&r, &sel, &env, "trust-gate") {
        ProductHealthRoute::Report(h) => {
            assert!(h.enabled);
            assert_eq!(
                h.message,
                "Name of trust-gate is enabled in patchhive-backend, but its engine has not been migrated yet."
            );
        }
        other => panic!("unexpected {other:?}"),
    }
    match product_health_route(&r, &sel, &env, "ghost") {
        ProductHealthRoute::Unknown(f) => {
            assert_eq!(f.status, 404);
            assert_eq!(f.body.error, "unknown-product");
            assert_eq!(f.body.message, "No PatchHive product is registered with key `ghost`.");
        }
        other => panic!("unexpected {other:?}"),
    }
}

#[test]
fn summaries() {
    let r = registry();
    let h = health_report(&r, &ProductSelection::from_env_value("signal-hive"), "0.1.0", true, 2);
    assert_eq!(h.mode, "product");
    assert_eq!(h.enabled_products, 1);
    assert_eq!(h.service, "patchhive-backend");
    assert_eq!(h.product_override_count, 2);
    let s = session_report(&r, &ProductSelection::All);
    assert_eq!(s.mode, "suite");
    assert_eq!(s.enabled_products, 3);
    assert!(s.authenticated && !s.auth_configured);
}

fn event(id: &str) -> SuiteEvent {
    SuiteEvent {
        id: id.to_string(),
        kind: "backend.started".to_string(),
        message: "patchhive-backend started".to_string(),
        created_at_millis: 0,
    }
}

#[test]
fn event_log_falls_back_to_startup() {
    let out = events_or_startup(Vec::new(), event("evt-backend-started"));
    assert_eq!(out.len(), 1);
    assert_eq!(out[0].id, "evt-backend-started");
    let out = events_or_startup(vec![event("a"), event("b")], event("evt-backend-started"));
    let ids: Vec<&str> = out.iter().map(|e| e.id.as_str()).collect();
    assert_eq!(ids, vec!["a", "b"]);
}
