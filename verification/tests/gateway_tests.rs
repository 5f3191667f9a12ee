use patchhive_backend::config::ProductSelection;
use patchhive_backend::env::EnvSnapshot;
use patchhive_backend::gateway::{
    after_body_read, after_health_check, after_method_conversion, after_response_read,
    after_send, downstream_url_for, plan_gateway_request, response_build_failure,
    should_skip_request_header, should_skip_response_header, ForwardContext, GatewayStep,
};
use patchhive_backend::models::{GatewayConfig, HealthCheck, RouteClaim, SafetyBoundary};
use patchhive_backend::registry::{ProductManifest, ProductRegistry};

fn route(method: &str, path: &str) -> RouteClaim {
    RouteClaim {
        method: method.to_string(),
        path: path.to_string(),
        description: String::new(),
    }
}

fn product(key: &str, name: &str, gateway: Option<GatewayConfig>, endpoint: &str) -> ProductManifest {
    ProductManifest {
        key: key.to_string(),
        code: "XX".to_string(),
        name: name.to_string(),
        role: "role".to_string(),
        rust_module: String::new(),
        route_prefix: String::new(),
        migration_stage: None,
        capabilities: Vec::new(),
        safety: SafetyBoundary {
            read_only: true,
            external_writes: false,
            repo_mutation: false,
            approval_required: false,
            credential_scopes: Vec::new(),
            evidence_required: Vec::new(),
        },
        gateway,
        routes: vec![
            route("GET", &format!("/api/products/{key}/health")),
            route("POST", &format!("/api/products/{key}/scan")),
            route("GET", "/elsewhere/thing"),
        ],
        health: HealthCheck {
            endpoint: endpoint.to_string(),
            timeout_ms: 0,
            healthy_status: 200,
        },
    }
}

fn signal_gateway() -> Option<GatewayConfig> {
    Some(GatewayConfig {
        default_url: Some("http://127.0.0.1:8010".to_string()),
        env_var: Some("SIGNAL_HIVE_GATEWAY_URL".to_string()),
    })
}

fn registry() -> ProductRegistry {
    ProductRegistry::from_manifests(vec![
        product("hive-core", "HiveCore", None, ""),
        product("signal-hive", "SignalHive", signal_gateway(), "/api/products/signal-hive/health"),
        product("trust-gate", "TrustGate", signal_gateway(), "/elsewhere/health"),
    ])
}

fn failure_of(step: GatewayStep) -> (u16, &'static str, String) {
    match step {
        GatewayStep::Fail(f) => (f.status, f.body.error, f.body.message),
        other => panic!("expected a refusal, got {other:?}"),
    }
}

#[test]
fn readme_health_route_is_forwarded_without_probe() {
    let env = EnvSnapshot::new();
    let step = plan_gateway_request(
        &registry(),
        &ProductSelection::All,
        &env,
        "signal-hive",
        "GET",
        "/api/products/signal-hive/health",
        None,
    );
    match step {
        GatewayStep::Forward(ctx) => {
            assert_eq!(ctx.downstream_url, "http://127.0.0.1:8010/health");
            assert_eq!(ctx.target_url, "http://127.0.0.1:8010");
            assert_eq!(ctx.product_name, "SignalHive");
        }
        other => panic!("expected forwarding, got {other:?}"),
    }
}

#[test]
fn readme_scan_route_is_probed_then_forwarded() {
    let env = EnvSnapshot::new();
    let step = plan_gateway_request(
        &registry(),
        &ProductSelection::All,
        &env,
        "signal-hive",
        "POST",
        "/api/products/signal-hive/scan",
        Some("limit=5"),
    );
    let (probe, pending) = match step {
        GatewayStep::CheckHealth { probe, pending } => (probe, pending),
        other => panic!("expected a health probe, got {other:?}"),
    };
    assert_eq!(probe.url, "http://127.0.0.1:8010/health");
    assert_eq!(probe.timeout_ms, 1);
    assert_eq!(probe.healthy_status, 200);
    match after_health_check(&probe, pending, Ok(200)) {
        GatewayStep::Forward(ctx) => {
            assert_eq!(ctx.downstream_url, "http://127.0.0.1:8010/scan?limit=5");
        }
        other => panic!("expected forwarding, got {other:?}"),
    }
}

#[test]
fn unhealthy_product_is_unavailable() {
    let env = EnvSnapshot::new();
    let plan = || {
        plan_gateway_request(
            &registry(),
            &ProductSelection::All,
            &env,
            "signal-hive",
            "POST",
            "/api/products/signal-hive/scan",
            None,
        )
    };
    let (probe, pending) = match plan() {
        GatewayStep::CheckHealth { probe, pending } => (probe, pending),
        other => panic!("expected a health probe, got {other:?}"),
    };
    let (status, error, message) = failure_of(after_health_check(&probe, pending, Ok(503)));
    assert_eq!((status, error), (503, "product-unavailable"));
    assert_eq!(message, "SignalHive health check returned 503, expected 200.");
    let (probe, pending) = match plan() {
        GatewayStep::CheckHealth { probe, pending } => (probe, pending),
        other => panic!("expected a health probe, got {other:?}"),
    };
    let (status, error, message) =
        failure_of(after_health_check(&probe, pending, Err("connection refused".to_string())));
    assert_eq!((status, error), (503, "product-unavailable"));
    assert_eq!(
        message,
        "SignalHive health check failed at /api/products/signal-hive/health: connection refused"
    );
}

#[test]
fn unknown_product_is_refused() {
    let env = EnvSnapshot::new();
    let (status, error, message) = failure_of(plan_gateway_request(
        &registry(),
        &ProductSelection::All,
        &env,
        "nope",
        "GET",
        "/api/products/nope/x",
        None,
    ));
    assert_eq!((status, error), (404, "unknown-product"));
    assert_eq!(message, "No PatchHive product is registered with key `nope`.");
}

#[test]
fn disabled_product_is_refused() {
    let env = EnvSnapshot::new();
    let (status, error, message) = failure_of(plan_gateway_request(
        &registry(),
        &ProductSelection::from_env_value("hive-core"),
        &env,
        "signal-hive",
        "GET",
        "/api/products/signal-hive/health",
        None,
    ));
    assert_eq!((status, error), (403, "product-disabled"));
    assert_eq!(message, "SignalHive is disabled by PATCHHIVE_PRODUCTS.");
}

#[test]
fn product_without_target_is_unconfigured() {
    let env = EnvSnapshot::new();
    let (status, error, message) = failure_of(plan_gateway_request(
        &registry(),
        &ProductSelection::All,
        &env,
        "hive-core",
        "GET",
        "/api/products/hive-core/health",
        None,
    ));
    assert_eq!((status, error), (502, "gateway-unconfigured"));
    assert_eq!(message, "HiveCore does not have a gateway target configured.");
}

#[test]
fn unclaimed_route_is_refused() {
    let env = EnvSnapshot::new();
    let (status, error, message) = failure_of(plan_gateway_request(
        &registry(),
        &ProductSelection::All,
        &env,
        "signal-hive",
        "DELETE",
        "/api/products/signal-hive/scan",
        None,
    ));
    assert_eq!((status, error), (404, "route-not-claimed"));
    assert_eq!(
        message,
        "SignalHive does not claim gateway route `DELETE` /api/products/signal-hive/scan."
    );
}

#[test]
fn prefix_mismatches_are_refused() {
    let env = EnvSnapshot::new();
    let (status, error, message) = failure_of(plan_gateway_request(
        &registry(),
        &ProductSelection::All,
        &env,
        "trust-gate",
        "POST",
        "/api/products/trust-gate/scan",
        None,
    ));
    assert_eq!((status, error), (502, "gateway-health-prefix-mismatch"));
    assert_eq!(
        message,
        "Health endpoint `/elsewhere/health` does not live under /api/products/trust-gate."
    );
    let (probe, pending) = match plan_gateway_request(
        &registry(),
        &ProductSelection::All,
        &env,
        "signal-hive",
        "GET",
        "/elsewhere/thing",
        None,
    ) {
        GatewayStep::CheckHealth { probe, pending } => (probe, pending),
        other => panic!("expected a health probe, got {other:?}"),
    };
    let (status, error, message) = failure_of(after_health_check(&probe, pending, Ok(200)));
    assert_eq!(status, 502);
    assert_eq!(error, "gateway-prefix-mismatch");
    assert_eq!(message, "Route `/elsewhere/thing` does not live under /api/products/signal-hive.");
}

#[test]
fn environment_target_overrides_the_default() {
    let mut env = EnvSnapshot::new();
    env.set("SIGNAL_HIVE_GATEWAY_URL".to_string(), "http://10.1.2.3:9000/".to_string());
    match plan_gateway_request(
        &registry(),
        &ProductSelection::All,
        &env,
        "signal-hive",
        "GET",
        "/api/products/signal-hive/health",
        None,
    ) {
        GatewayStep::Forward(ctx) => assert_eq!(ctx.downstream_url, "http://10.1.2.3:9000/health"),
        other => panic!("expected forwarding, got {other:?}"),
    }
}

#[test]
fn downstream_urls() {
    let mut m = product("signal-hive", "SignalHive", None, "");
    m.route_prefix = "/api/products/signal-hive".to_string();
    assert_eq!(
        downstream_url_for(&m, "http://h", "/api/products/signal-hive", None),
        Some("http://h/".to_string())
    );
    assert_eq!(
        downstream_url_for(&m, "http://h", "/api/products/signal-hive/a/b", Some("x=1&y=2")),
        Some("http://h/a/b?x=1&y=2".to_string())
    );
    assert_eq!(
        downstream_url_for(&m, "http://h", "/api/products/signal-hive/a", Some("")),
        Some("http://h/a?".to_string())
    );
    assert_eq!(downstream_url_for(&m, "http://h", "/api/products/other", None), None);
    assert_eq!(
        downstream_url_for(&m, "http://h", "/api/products/signal-hive-extra", None),
        Some("http://h-extra".to_string())
    );
}

fn context() -> ForwardContext {
    ForwardContext {
        product_name: "SignalHive".to_string(),
        target_url: "http://127.0.0.1:8010".to_string(),
        downstream_url: "http://127.0.0.1:8010/scan".to_string(),
    }
}

#[test]
fn transport_outcomes() {
    assert!(after_body_read(Ok(())).is_ok());
    let f = after_body_read(Err("too large".to_string())).unwrap_err();
    assert_eq!((f.status, f.body.error), (400, "gateway-body-read-failed"));
    assert_eq!(f.body.message, "Could not read request body for gateway dispatch: too large");

    assert!(after_method_conversion(Ok(())).is_ok());
    let f = after_method_conversion(Err("bad".to_string())).unwrap_err();
    assert_eq!((f.status, f.body.error), (400, "gateway-method-invalid"));
    assert_eq!(f.body.message, "Could not convert request method for gateway dispatch: bad");

    let ctx = context();
    assert_eq!(after_send(&ctx, Ok(201)).unwrap(), 201);
    assert_eq!(after_send(&ctx, Ok(99)).unwrap(), 502);
    assert_eq!(after_send(&ctx, Ok(1000)).unwrap(), 502);
    assert_eq!(after_send(&ctx, Ok(999)).unwrap(), 999);
    let f = after_send(&ctx, Err("refused".to_string())).unwrap_err();
    assert_eq!((f.status, f.body.error), (502, "gateway-request-failed"));
    assert_eq!(
        f.body.message,
        "Could not reach SignalHive gateway at http://127.0.0.1:8010: refused"
    );

    assert!(after_response_read(&ctx, Ok(())).is_ok());
    let f = after_response_read(&ctx, Err("reset".to_string())).unwrap_err();
    assert_eq!((f.status, f.body.error), (502, "gateway-response-read-failed"));
    assert_eq!(f.body.message, "Could not read SignalHive gateway response: reset");

    let f = response_build_failure();
    assert_eq!((f.status, f.body.error), (502, "gateway-response-build-failed"));
    assert_eq!(f.body.message, "Could not build gateway response.");
}

#[test]
fn hop_by_hop_headers() {
    for name in [
        "connection",
        "Content-Length",
        "TRANSFER-ENCODING",
        "upgrade",
        "proxy-authenticate",
        "proxy-authorization",
        "te",
        "trailer",
        "keep-alive",
    ] {
        assert!(should_skip_request_header(name), "{name}");
        assert!(should_skip_response_header(name), "{name}");
    }
    assert!(should_skip_request_header("Host"));
    assert!(!should_skip_response_header("host"));
    assert!(!should_skip_request_header("content-type"));
    assert!(!should_skip_response_header("x-trace"));
    assert!(!should_skip_request_header("tee"));
}
