//! How a node's command line flags combine: `--dev` switches on what a local
//! development node needs, and lists given on the command line win over those of
//! the chain specification.
use vstd::prelude::*;

verus! {

/// The flags that settings are derived from.
#[derive(Debug, Clone, Copy, PartialEq, Eq, Structural)]
pub struct NodeFlags {
    pub dev: bool,
    pub dsn_enable_private_ips: bool,
    pub dsn_disable_bootstrap_on_start: bool,
    pub timekeeper: bool,
    /// Arguments for an embedded domain node were given.
    pub has_domain_args: bool,
}

/// Settings derived from the flags.
#[derive(Debug, Clone, Copy, PartialEq, Eq, Structural)]
pub struct NodeSettings {
    pub allow_non_global_addresses_in_dht: bool,
    pub disable_bootstrap_on_start: bool,
    pub is_timekeeper: bool,
    /// A domain node produces bundles on slots, so it needs to hear of each.
    pub force_new_slot_notifications: bool,
}

pub fn node_settings(flags: &NodeFlags) -> (r: NodeSettings)
    ensures
        r.allow_non_global_addresses_in_dht == (flags.dsn_enable_private_ips || flags.dev),
        r.disable_bootstrap_on_start == (flags.dsn_disable_bootstrap_on_start || flags.dev),
        r.is_timekeeper == (flags.timekeeper || flags.dev),
        r.force_new_slot_notifications == flags.has_domain_args,
{
    NodeSettings {
        allow_non_global_addresses_in_dht: flags.dsn_enable_private_ips || flags.dev,
        disable_bootstrap_on_start: flags.dsn_disable_bootstrap_on_start || flags.dev,
        is_timekeeper: flags.timekeeper || flags.dev,
        force_new_slot_notifications: flags.has_domain_args,
    }
}

/// The nodes given on the command line, or those of the chain specification
/// where none were.
pub fn explicit_or_chain_spec<T>(explicit: Vec<T>, chain_spec: Vec<T>) -> (r: Vec<T>)
    ensures
        r@ == (if explicit@.len() > 0 {
            explicit@
        } else {
            chain_spec@
        }),
{
    if explicit.len() > 0 {
        explicit
    } else {
        chain_spec
    }
}

} // verus!
