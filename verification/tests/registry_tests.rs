use patchhive_backend::env::EnvSnapshot;
use patchhive_backend::models::{
    CapabilityMetadata, GatewayConfig, HealthCheck, MigrationStage, ProductStatus, RouteClaim,
    SafetyBoundary,
};
use patchhive_backend::registry::{
    contract_drift_count, default_route_prefix, product_status, route_path_matches,
    runtime_status, ProductManifest, ProductRegistry,
};

fn route(method: &str, path: &str) -> RouteClaim {
    RouteClaim {
        method: method.to_string(),
        path: path.to_string(),
        description: String::new(),
    }
}

fn manifest(key: &str, route_prefix: &str, gateway: Option<GatewayConfig>) -> ProductManifest {
    ProductManifest {
        key: key.to_string(),
        code: "XX".to_string(),
        name: format!("{key}-name"),
        role: "role".to_string(),
        rust_module: format!("crate::products::{key}"),
        route_prefix: route_prefix.to_string(),
        migration_stage: None,
        capabilities: Vec::new(),
        safety: SafetyBoundary {
            read_only: false,
            external_writes: false,
            repo_mutation: false,
            approval_required: false,
            credential_scopes: Vec::new(),
            evidence_required: Vec::new(),
        },
        gateway,
        routes: Vec::new(),
        health: HealthCheck {
            endpoint: String::new(),
            timeout_ms: 1000,
            healthy_status: 200,
        },
    }
}

/// The SignalHive manifest of the README.
fn signal_hive() -> ProductManifest {
    let mut m = manifest(
        "signal-hive",
        "/api/products/signal-hive",
        Some(GatewayConfig {
            default_url: Some("http://127.0.0.1:8010".to_string()),
            env_var: Some("SIGNAL_HIVE_GATEWAY_URL".to_string()),
        }),
    );
    m.code = "SH".to_string();
    m.name = "SignalHive".to_string();
    m.role = "maintenance signal reconnaissance".to_string();
    m.migration_stage = Some(MigrationStage::NotStarted);
    m.safety.read_only = true;
    m.safety.credential_scopes = vec!["github:repo:read".to_string(), "github:issues:read".to_string()];
    m.safety.evidence_required = vec!["scan parameters".to_string(), "repo sample list".to_string()];
    m.capabilities = vec![CapabilityMetadata {
        id: "signal-scan".to_string(),
        label: "Signal scan".to_string(),
        description: "Scan repos for maintenance pressure.".to_string(),
        mutating: false,
    }];
    m.routes = vec![
        route("POST", "/api/products/signal-hive/scan"),
        route("GET", "/api/products/signal-hive/health"),
        route("GET", "/api/products/signal-hive/history/:scan_id/timeline"),
        route("DELETE", "/api/products/signal-hive/repo-lists/*rest"),
    ];
    m
}

#[test]
fn registry_orders_by_suite_order_and_fills_prefixes() {
    let registry = ProductRegistry::from_manifests(vec![
        manifest("repo-reaper", "", None),
        manifest("unknown-b", "", None),
        manifest("signal-hive", "/custom", None),
        manifest("unknown-a", "", None),
        manifest("hive-core", "", None),
    ]);
    let keys: Vec<&str> = registry.products().iter().map(|p| p.key.as_str()).collect();
    assert_eq!(keys, vec!["hive-core", "signal-hive", "repo-reaper", "unknown-b", "unknown-a"]);
    let prefixes: Vec<&str> = registry
        .products()
        .iter()
        .map(|p| p.route_prefix.as_str())
        .collect();
    assert_eq!(
        prefixes,
        vec![
            "/api/products/hive-core",
            "/custom",
            "/api/products/repo-reaper",
            "/api/products/unknown-b",
            "/api/products/unknown-a",
        ]
    );
    assert_eq!(registry.len(), 5);
}

#[test]
fn sort_index_follows_the_product_order() {
    assert_eq!(manifest("hive-core", "", None).sort_index(), 0);
    assert_eq!(manifest("repo-reaper", "", None).sort_index(), 11);
    assert_eq!(manifest("trust-gate", "", None).sort_index(), 3);
    assert_eq!(manifest("nope", "", None).sort_index(), usize::MAX);
}

#[test]
fn find_returns_the_first_product_with_the_key() {
    let registry = ProductRegistry::from_manifests(vec![
        manifest("hive-core", "/first", None),
        manifest("hive-core", "/second", None),
    ]);
    assert_eq!(registry.find("hive-core").unwrap().route_prefix, "/first");
    assert!(registry.find("signal-hive").is_none());
    assert_eq!(registry.position("hive-core"), Some(0));
}

#[test]
fn readme_signal_hive_manifest_claims_its_routes() {
    let registry = ProductRegistry::from_manifests(vec![signal_hive(), manifest("hive-core", "", None)]);
    let signal = registry.find("signal-hive").expect("SignalHive manifest should exist");
    assert!(!signal.capabilities.is_empty());
    assert!(!signal.routes.is_empty());
    assert!(signal.safety.read_only);
    assert!(signal.gateway_target_url(&EnvSnapshot::new()).is_some());
    assert!(signal
        .route_claim_for("GET", "/api/products/signal-hive/history/scan-1/timeline")
        .is_some());
    assert!(signal
        .route_claim_for("DELETE", "/api/products/signal-hive/repo-lists/owner/repo")
        .is_some());
    assert!(signal
        .route_claim_for("POST", "/api/products/signal-hive/not-a-real-route")
        .is_none());
    assert_eq!(signal.rust_module, "crate::products::signal-hive");
    assert_eq!(
        signal.route_claim_for("post", "/api/products/signal-hive/scan/").unwrap().path,
        "/api/products/signal-hive/scan"
    );
    assert!(signal.route_claim_for("GET", "/api/products/signal-hive/scan").is_none());
}

#[test]
fn route_patterns() {
    assert!(route_path_matches("/a/b", "/a/b"));
    assert!(route_path_matches("/a/b", "a/b/"));
    assert!(route_path_matches("//a/b//", "/a/b"));
    assert!(!route_path_matches("/a/b", "/a/c"));
    assert!(!route_path_matches("/a/b", "/a"));
    assert!(!route_path_matches("/a", "/a/b"));
    assert!(route_path_matches("/a/:id", "/a/42"));
    assert!(!route_path_matches("/a/:id", "/a"));
    assert!(route_path_matches("/a/*rest", "/a"));
    assert!(route_path_matches("/a/*rest", "/a/x/y/z"));
    assert!(route_path_matches("/", "/"));
    assert!(route_path_matches("", "/"));
    assert!(!route_path_matches("/", "/a"));
    assert!(!route_path_matches("/a//b", "/a/b"));
    assert!(route_path_matches("/a//b", "/a//b"));
    assert!(route_path_matches("/a/:id/*rest", "/a/:id/*rest"));
    assert!(route_path_matches("/api/products/signal-hive/history/:scan_id/timeline", "/api/products/signal-hive/history/:scan_id/timeline"));
}

#[test]
fn gateway_target_prefers_a_non_blank_environment_value() {
    let config = GatewayConfig {
        default_url: Some("  http://127.0.0.1:8010/// ".to_string()),
        env_var: Some("SIGNAL_HIVE_GATEWAY_URL".to_string()),
    };
    let mut env = EnvSnapshot::new();
    assert_eq!(config.target_url(&env), Some("http://127.0.0.1:8010".to_string()));
    env.set("SIGNAL_HIVE_GATEWAY_URL".to_string(), "   ".to_string());
    assert_eq!(config.target_url(&env), Some("http://127.0.0.1:8010".to_string()));
    env.set("SIGNAL_HIVE_GATEWAY_URL".to_string(), " http://10.0.0.5:9000/ ".to_string());
    assert_eq!(config.target_url(&env), Some("http://10.0.0.5:9000".to_string()));
    env.set("SIGNAL_HIVE_GATEWAY_URL".to_string(), "///".to_string());
    assert_eq!(config.target_url(&env), None);
    let bare = GatewayConfig { default_url: Some(" / ".to_string()), env_var: None };
    assert_eq!(bare.target_url(&env), None);
    let none = GatewayConfig { default_url: None, env_var: None };
    assert_eq!(none.target_url(&env), None);
}

#[test]
fn statuses() {
    assert_eq!(product_status(false, true), ProductStatus::Disabled);
    assert_eq!(product_status(true, true), ProductStatus::GatewayPending);
    assert_eq!(product_status(true, false), ProductStatus::EnginePending);
    assert_eq!(runtime_status("signal-hive", false, false), "disabled");
    assert_eq!(runtime_status("hive-core", true, false), "online");
    assert_eq!(runtime_status("signal-hive", true, true), "gateway-pending");
    assert_eq!(runtime_status("signal-hive", true, false), "degraded");
    assert_eq!(contract_drift_count("signal-hive", true, false), 1);
    assert_eq!(contract_drift_count("hive-core", true, false), 0);
    assert_eq!(contract_drift_count("signal-hive", true, true), 0);
    assert_eq!(contract_drift_count("signal-hive", false, false), 0);
    assert_eq!(default_route_prefix(), "");
}

#[test]
fn product_reports() {
    let env = EnvSnapshot::new();
    let m = signal_hive();
    let r = m.to_response(true, &env);
    assert_eq!(r.key, "signal-hive");
    assert_eq!(r.slug, "signal-hive");
    assert_eq!(r.title, "SignalHive");
    assert_eq!(r.status, ProductStatus::GatewayPending);
    assert_eq!(r.migration_stage, MigrationStage::NotStarted);
    assert_eq!(r.capabilities, vec!["signal-scan".to_string()]);
    assert!(r.gateway.configured);
    assert_eq!(r.gateway.target_url, Some("http://127.0.0.1:8010".to_string()));
    assert_eq!(r.gateway.env_var, Some("SIGNAL_HIVE_GATEWAY_URL".to_string()));
    assert_eq!(r.routes.len(), 4);
    assert_eq!(r.safety.credential_scopes.len(), 2);

    let h = m.to_health_response(true, &env);
    assert_eq!(
        h.message,
        "SignalHive is enabled in patchhive-backend, but its engine has not been migrated yet."
    );
    let h = m.to_health_response(false, &env);
    assert_eq!(h.message, "Product is disabled by PATCHHIVE_PRODUCTS.");
    assert_eq!(h.status, ProductStatus::Disabled);

    let s = manifest("review-bee", "", None).to_setup_product(true, &env);
    assert_eq!(s.runtime.status, "degraded");
    assert_eq!(s.runtime.contract_drift_count, 1);
    assert_eq!(s.runtime.api_url, "");
    let s = m.to_setup_product(true, &env);
    assert_eq!(s.runtime.status, "gateway-pending");
    assert_eq!(s.runtime.icon, "SH");
    assert_eq!(s.runtime.contract_drift_count, 0);
}

#[test]
fn migration_stage_defaults_to_not_started() {
    let mut m = manifest("x", "", None);
    assert_eq!(m.migration_stage(), MigrationStage::NotStarted);
    m.migration_stage = Some(MigrationStage::Integrated);
    assert_eq!(m.migration_stage(), MigrationStage::Integrated);
}
