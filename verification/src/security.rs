//! Security: the audit trail of the database, second factors, sessions,
//! threat intelligence, incident response workflows, and their health.
pub mod database;
pub mod incident;
pub mod settings;
pub mod mfa;
pub mod threat;
pub mod session;
pub mod workflow;
pub mod status;
