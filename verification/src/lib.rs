//! bonsai: the decision logic of a network telemetry and operations daemon,
//! verified with Verus.
//!
//! The modules hold the parts that compute: the device registry and its
//! audit stamps, syslog shunning, output adapters and their registry, the
//! Prometheus exposition, remediation trust and rollback, sidecar and
//! receiver supervision decisions, signal filtering, resource profiles and
//! governance, the ServiceNow and change-management integrations, the MCP
//! tool surface, investigation prompts and summaries, the parser chain, the
//! playbook library, retention, and the security components (database
//! policy, second factors, sessions, threat intelligence, incident response).
//! Each public function states what it returns or changes in its contract;
//! outside crates are reached through a few trusted wrappers whose contracts
//! say what their documentation promises.

pub mod text;
pub mod address;
pub mod order;
pub mod keyed;
pub mod registry;
pub mod pattern;
pub mod json;
pub mod shun;
pub mod output;
pub mod remediation;
pub mod sidecar;
pub mod sidecar_process;
pub mod signal_filter;
pub mod resource_profile;
pub mod memory_profile;
pub mod resource_governor;
pub mod aiops;
pub mod change;
pub mod mcp;
pub mod security;
pub mod receiver;
pub mod investigation;
pub mod investigation_trigger;
pub mod parser_chain;
pub mod playbook;
pub mod mcp_transport;
pub mod retention;
pub mod service_discovery;
pub mod startup;
