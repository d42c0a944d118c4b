//! Settings of a querier server that decide what it connects to.

use vstd::prelude::*;

verus! {

/// Whether requests are authorized, and by whom.
#[derive(Debug, PartialEq, Eq)]
pub enum AuthzSetting {
    /// Requests are not authorized.
    Disabled,
    /// Requests are authorized by the service at this address.
    Service(String),
}

/// Picks the authorization setting of a server.
///
/// A single-tenant deployment authorizes and has an address to do it at; any
/// other deployment does neither. The command line accepts no other
/// combination.
pub fn authz_setting(
    single_tenant_deployment: bool,
    authz_address: Option<String>,
) -> (setting: AuthzSetting)
    requires
        single_tenant_deployment == authz_address is Some,
    ensures
        match authz_address {
            Some(addr) => setting == AuthzSetting::Service(addr),
            None => setting == AuthzSetting::Disabled,
        },
{
    match authz_address {
        Some(addr) => AuthzSetting::Service(addr),
        None => AuthzSetting::Disabled,
    }
}

/// Whether the server talks to ingesters at all: only if it was given the
/// address of one.
pub fn connects_to_ingesters(ingester_addresses: &Vec<String>) -> (connects: bool)
    ensures
        connects == (ingester_addresses@.len() > 0),
{
    ingester_addresses.len() > 0
}

} // verus!
