//! How an enricher reaches its data source: directly over REST, or through
//! an MCP server that proxies to it.
use vstd::prelude::*;

use crate::text::{owned, str_eq};

verus! {

/// The transport of an enricher.
pub enum EnricherTransport {
    /// Call the target API directly.
    Rest,
    /// Proxy through the MCP server at `server_url`.
    Mcp { server_url: String },
}

/// The MCP server used when none is configured.
pub open spec fn default_mcp_server() -> Seq<char> {
    "http://localhost:8090"@
}

impl EnricherTransport {
    /// The transport named by an enricher's `extra.transport` and
    /// `extra.mcp_server_url` settings (each when it is a string): MCP when
    /// the transport is `mcp`, at the configured server or the default one;
    /// REST otherwise.
    pub fn from_extra(transport: Option<&str>, mcp_server_url: Option<&str>) -> (r: EnricherTransport)
        ensures
            match transport {
                Some(t) if t@ == "mcp"@ => r matches EnricherTransport::Mcp { server_url } && server_url@
                    == match mcp_server_url {
                    Some(u) => u@,
                    None => default_mcp_server(),
                },
                _ => r is Rest,
            },
    {
        let is_mcp = match transport {
            Some(t) => str_eq(t, "mcp"),
            None => false,
        };
        if is_mcp {
            let server_url = match mcp_server_url {
                Some(u) => owned(u),
                None => owned("http://localhost:8090"),
            };
            EnricherTransport::Mcp { server_url }
        } else {
            EnricherTransport::Rest
        }
    }
}

} // verus!
