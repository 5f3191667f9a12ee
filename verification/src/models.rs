//! The values the backend reports about itself and its products.
use vstd::prelude::*;

verus! {

/// A capability that a product manifest declares.
#[derive(Debug)]
pub struct CapabilityMetadata {
    pub id: String,
    pub label: String,
    pub description: String,
    pub mutating: bool,
}

impl Clone for CapabilityMetadata {
    fn clone(&self) -> (r: Self)
        ensures
            r == *self,
    {
        CapabilityMetadata {
            id: self.id.clone(),
            label: self.label.clone(),
            description: self.description.clone(),
            mutating: self.mutating,
        }
    }
}

/// The safety boundaries a product manifest declares.
#[derive(Debug)]
pub struct SafetyBoundary {
    pub read_only: bool,
    pub external_writes: bool,
    pub repo_mutation: bool,
    pub approval_required: bool,
    pub credential_scopes: Vec<String>,
    pub evidence_required: Vec<String>,
}

/// A route that a product claims under its prefix.
#[derive(Debug)]
pub struct RouteClaim {
    pub method: String,
    pub path: String,
    pub description: String,
}

impl Clone for RouteClaim {
    fn clone(&self) -> (r: Self)
        ensures
            r == *self,
    {
        RouteClaim {
            method: self.method.clone(),
            path: self.path.clone(),
            description: self.description.clone(),
        }
    }
}

/// Where a product that still runs in its own backend is reached.
#[derive(Debug)]
pub struct GatewayConfig {
    pub default_url: Option<String>,
    pub env_var: Option<String>,
}

/// How the gateway checks a product's health before forwarding.
#[derive(Debug)]
pub struct HealthCheck {
    /// The product's health route; empty for no check.
    pub endpoint: String,
    pub timeout_ms: u64,
    pub healthy_status: u16,
}

/// How far a product's engine has moved into this backend.
#[derive(Clone, Copy, Debug, PartialEq, Eq, Structural)]
pub enum MigrationStage {
    NotStarted,
    GatewayReady,
    Integrated,
}

/// What the backend can do for a product right now.
#[derive(Clone, Copy, Debug, PartialEq, Eq, Structural)]
pub enum ProductStatus {
    Disabled,
    GatewayPending,
    EnginePending,
}

/// Whether a product has a gateway target, and which.
#[derive(Debug)]
pub struct GatewayStatus {
    pub configured: bool,
    pub target_url: Option<String>,
    pub env_var: Option<String>,
}

/// A product as `GET /api/products` lists it.
#[derive(Debug)]
pub struct ProductResponse {
    pub key: String,
    pub slug: String,
    pub name: String,
    pub title: String,
    pub code: String,
    pub role: String,
    pub rust_module: String,
    pub enabled: bool,
    pub status: ProductStatus,
    pub migration_stage: MigrationStage,
    pub route_prefix: String,
    pub capabilities: Vec<String>,
    pub capability_metadata: Vec<CapabilityMetadata>,
    pub safety: SafetyBoundary,
    pub gateway: GatewayStatus,
    pub routes: Vec<RouteClaim>,
}

/// A product's own health report, while its engine has not moved in.
#[derive(Debug)]
pub struct ProductHealthResponse {
    pub key: String,
    pub name: String,
    pub enabled: bool,
    pub status: ProductStatus,
    pub migration_stage: MigrationStage,
    pub message: String,
}

/// The authentication state the backend reports.
#[derive(Clone, Copy, Debug, PartialEq, Eq, Structural)]
pub struct AuthStatusResponse {
    pub auth_enabled: bool,
    pub bootstrap_required: bool,
    pub service_auth_enabled: bool,
    pub suite_bootstrap_enabled: bool,
}

/// A product as the first-stack setup lists it.
#[derive(Debug)]
pub struct RuntimeProduct {
    pub slug: String,
    pub icon: String,
    pub title: String,
    pub role: String,
    pub status: &'static str,
    pub api_url: String,
    pub enabled: bool,
    pub service_token_configured: bool,
    pub legacy_api_key_configured: bool,
    pub contract_drift_count: usize,
}

/// A product entry of the first-stack setup.
#[derive(Debug)]
pub struct SetupProduct {
    pub runtime: RuntimeProduct,
    pub pairing_ready: bool,
    pub auth_status: AuthStatusResponse,
    pub auth_status_error: Option<String>,
}

/// Whether the launcher is available to this backend.
#[derive(Debug)]
pub struct LauncherStatus {
    pub available: bool,
    pub status: &'static str,
    pub message: &'static str,
}

/// The first-stack setup state.
#[derive(Debug)]
pub struct SetupResponse {
    pub suite_bootstrap_configured: bool,
    pub launcher: LauncherStatus,
    pub products: Vec<SetupProduct>,
    pub actions: Vec<String>,
}

/// A run of the suite-wide run index.
#[derive(Debug)]
pub struct RunSummary {
    pub id: String,
    pub product_key: String,
    pub status: String,
    pub message: String,
}

/// An event of the suite event log; `created_at_millis` counts
/// milliseconds since the Unix epoch.
#[derive(Debug)]
pub struct SuiteEvent {
    pub id: String,
    pub kind: String,
    pub message: String,
    pub created_at_millis: i64,
}

/// An error body: a stable code and a message for people.
#[derive(Debug)]
pub struct ErrorResponse {
    pub error: &'static str,
    pub message: String,
}

/// The backend's health report.
#[derive(Debug)]
pub struct HealthResponse {
    pub service: &'static str,
    pub status: &'static str,
    pub version: &'static str,
    pub mode: &'static str,
    pub enabled_products: usize,
    pub db_ok: bool,
    pub product_override_count: usize,
}

/// The session the backend reports.
#[derive(Debug)]
pub struct SessionResponse {
    pub service: &'static str,
    pub authenticated: bool,
    pub auth_configured: bool,
    pub mode: &'static str,
    pub enabled_products: usize,
}

} // verus!
