//! User-editable notes for services, with default notes chosen by the
//! container image.

use vstd::prelude::*;
use crate::strmap::StrMap;
use crate::text::{lowercase, to_lower, str_contains, contains, owned, concat3};

verus! {

pub open spec fn note_reth() -> Seq<char> {
    "Reth Ethereum execution client. Provides EVM compatibility and execution environment for KASPA L2. Exposes JSON-RPC API for transaction submission and state queries."@
}

pub open spec fn note_geth() -> Seq<char> {
    "Geth (Go Ethereum) execution client. Provides EVM compatibility and execution environment. Alternative to Reth for running the execution layer."@
}

pub open spec fn note_kaspad() -> Seq<char> {
    "Kaspa L1 node. Provides base layer security, consensus, and fast block confirmations. Required for entry transactions and L1 finality."@
}

pub open spec fn note_viaduct() -> Seq<char> {
    "Viaduct L1→L2 bridge. Monitors Kaspa for entry transactions, processes them after confirmation, and forwards to the block builder. Maintains sync state in RocksDB."@
}

pub open spec fn note_block_builder() -> Seq<char> {
    "Block builder service. Receives L1 data from Viaduct, constructs L2 blocks with entry transactions, and submits them to the execution layer via Engine API."@
}

pub open spec fn note_traefik() -> Seq<char> {
    "Traefik reverse proxy and load balancer. Handles SSL/TLS termination, token-based routing, and distributes requests across RPC provider workers."@
}

pub open spec fn note_rpc_provider() -> Seq<char> {
    "RPC provider worker. Proxies Ethereum JSON-RPC requests to execution layer, handles entry transactions via Kaswallet for KAS→iKAS bridging. Can scale horizontally (up to 5 workers)."@
}

pub open spec fn note_kaswallet() -> Seq<char> {
    "Kaspa wallet daemon. Signs and submits entry transactions for the RPC provider. One wallet instance required per RPC worker."@
}

pub open spec fn note_kaspa_miner() -> Seq<char> {
    "Kaspa CPU miner. Optional service for isolated development environments. Mines blocks on local Kaspa testnet."@
}

pub open spec fn note_postgres() -> Seq<char> {
    "PostgreSQL database. Stores persistent data for services that require SQL storage."@
}

pub open spec fn note_redis() -> Seq<char> {
    "Redis in-memory data store. Provides caching and pub/sub functionality."@
}

pub open spec fn note_nginx() -> Seq<char> {
    "Nginx web server and reverse proxy. Serves static content and routes HTTP traffic."@
}

/// The default note for a container image: the first pattern that the
/// lower-cased image name contains decides.
pub open spec fn default_note(image: Seq<char>) -> Seq<char> {
    let l = lowercase(image);
    if contains(l, "reth"@) || contains(l, "execution-layer"@) {
        note_reth()
    } else if contains(l, "geth"@) {
        note_geth()
    } else if contains(l, "kaspad"@) {
        note_kaspad()
    } else if contains(l, "viaduct"@) || contains(l, "bridge"@) {
        note_viaduct()
    } else if contains(l, "block-builder"@) || contains(l, "blockbuilder"@) {
        note_block_builder()
    } else if contains(l, "traefik"@) {
        note_traefik()
    } else if contains(l, "rpc-provider"@) || contains(l, "rpcprovider"@) {
        note_rpc_provider()
    } else if contains(l, "kaswallet"@) {
        note_kaswallet()
    } else if contains(l, "kaspa-miner"@) {
        note_kaspa_miner()
    } else if contains(l, "postgres"@) || contains(l, "postgresql"@) {
        note_postgres()
    } else if contains(l, "redis"@) {
        note_redis()
    } else if contains(l, "nginx"@) {
        note_nginx()
    } else {
        "Service running "@ + image + " image."@
    }
}

/// Notes that the user set for services, by service name.
pub struct ServiceNotes {
    custom_notes: StrMap<String>,
}

/// The note shown for a service, given the custom notes: its custom note,
/// else the default for its image.
pub open spec fn note_in(notes: Map<Seq<char>, String>, service: Seq<char>, image: Seq<char>) -> Seq<char> {
    if notes.contains_key(service) {
        notes[service]@
    } else {
        default_note(image)
    }
}

/// A note that was set is the one shown for the service, whatever its
/// image; once the note is cleared (set to nothing, or reset), the default
/// for the image is shown again; other services keep theirs.
pub proof fn law_note_set_then_shown(
    notes: Map<Seq<char>, String>,
    service: Seq<char>,
    note: String,
    image: Seq<char>,
    other: Seq<char>,
)
    ensures
        note@.len() > 0 ==> note_in(notes.insert(service, note), service, image) == note@,
        note_in(notes.remove(service), service, image) == default_note(image),
        other != service ==> note_in(notes.insert(service, note), other, image) == note_in(notes, other, image),
        other != service ==> note_in(notes.remove(service), other, image) == note_in(notes, other, image),
{
}

impl ServiceNotes {
    /// The custom notes, by service name.
    pub closed spec fn notes(&self) -> Map<Seq<char>, String> {
        self.custom_notes.map()
    }

    /// The stored notes are well formed.
    pub closed spec fn wf(&self) -> bool {
        self.custom_notes.wf()
    }

    /// The note shown for a service: its custom note, else the default for its image.
    pub open spec fn note_spec(&self, service: Seq<char>, image: Seq<char>) -> Seq<char> {
        note_in(self.notes(), service, image)
    }

    /// Notes made of the given custom notes.
    pub fn from_notes(custom_notes: StrMap<String>) -> (r: ServiceNotes)
        requires
            custom_notes.wf(),
        ensures
            r.wf(),
            r.notes() == custom_notes.map(),
    {
        ServiceNotes { custom_notes }
    }

    /// The custom notes, for storing.
    pub fn custom_notes(&self) -> (r: &StrMap<String>)
        ensures
            r.map() == self.notes(),
            self.wf() ==> r.wf(),
    {
        &self.custom_notes
    }

    /// The note for a service: its custom note, else the default for its image.
    pub fn get_note(&self, service_name: &str, container_image: &str) -> (r: String)
        requires
            self.wf(),
        ensures
            r@ == self.note_spec(service_name@, container_image@),
    {
        match self.custom_notes.get(service_name) {
            Some(custom) => custom.clone(),
            None => Self::default_note_for_image(container_image),
        }
    }

    /// Sets the custom note of a service; an empty note removes it, so the
    /// default applies again.
    pub fn set_note(&mut self, service_name: String, note: String)
        requires
            old(self).wf(),
        ensures
            final(self).wf(),
            note@.len() == 0 ==> final(self).notes() == old(self).notes().remove(service_name@),
            note@.len() > 0 ==> final(self).notes() == old(self).notes().insert(
                service_name@,
                note,
            ),
    {
        if note.as_str().is_empty() {
            self.custom_notes.remove(service_name.as_str());
        } else {
            self.custom_notes.insert(service_name, note);
        }
    }

    /// Removes the custom note of a service.
    pub fn reset_to_default(&mut self, service_name: &str)
        requires
            old(self).wf(),
        ensures
            final(self).wf(),
            final(self).notes() == old(self).notes().remove(service_name@),
    {
        self.custom_notes.remove(service_name);
    }

    /// The default note for a container image.
    pub fn default_note_for_image(image: &str) -> (r: String)
        ensures
            r@ == default_note(image@),
    {
        let lower = to_lower(image);
        let l = lower.as_str();
        if str_contains(l, "reth") || str_contains(l, "execution-layer") {
            owned(
                "Reth Ethereum execution client. Provides EVM compatibility and execution environment for KASPA L2. Exposes JSON-RPC API for transaction submission and state queries.",
            )
        } else if str_contains(l, "geth") {
            owned(
                "Geth (Go Ethereum) execution client. Provides EVM compatibility and execution environment. Alternative to Reth for running the execution layer.",
            )
        } else if str_contains(l, "kaspad") {
            owned(
                "Kaspa L1 node. Provides base layer security, consensus, and fast block confirmations. Required for entry transactions and L1 finality.",
            )
        } else if str_contains(l, "viaduct") || str_contains(l, "bridge") {
            owned(
                "Viaduct L1→L2 bridge. Monitors Kaspa for entry transactions, processes them after confirmation, and forwards to the block builder. Maintains sync state in RocksDB.",
            )
        } else if str_contains(l, "block-builder") || str_contains(l, "blockbuilder") {
            owned(
                "Block builder service. Receives L1 data from Viaduct, constructs L2 blocks with entry transactions, and submits them to the execution layer via Engine API.",
            )
        } else if str_contains(l, "traefik") {
            owned(
                "Traefik reverse proxy and load balancer. Handles SSL/TLS termination, token-based routing, and distributes requests across RPC provider workers.",
            )
        } else if str_contains(l, "rpc-provider") || str_contains(l, "rpcprovider") {
            owned(
                "RPC provider worker. Proxies Ethereum JSON-RPC requests to execution layer, handles entry transactions via Kaswallet for KAS→iKAS bridging. Can scale horizontally (up to 5 workers).",
            )
        } else if str_contains(l, "kaswallet") {
            owned(
                "Kaspa wallet daemon. Signs and submits entry transactions for the RPC provider. One wallet instance required per RPC worker.",
            )
        } else if str_contains(l, "kaspa-miner") {
            owned(
                "Kaspa CPU miner. Optional service for isolated development environments. Mines blocks on local Kaspa testnet.",
            )
        } else if str_contains(l, "postgres") || str_contains(l, "postgresql") {
            owned(
                "PostgreSQL database. Stores persistent data for services that require SQL storage.",
            )
        } else if str_contains(l, "redis") {
            owned("Redis in-memory data store. Provides caching and pub/sub functionality.")
        } else if str_contains(l, "nginx") {
            owned(
                "Nginx web server and reverse proxy. Serves static content and routes HTTP traffic.",
            )
        } else {
            concat3("Service running ", image, " image.")
        }
    }
}

impl Default for ServiceNotes {
    /// No custom notes.
    fn default() -> (r: ServiceNotes)
        ensures
            r.wf(),
            r.notes() == Map::<Seq<char>, String>::empty(),
    {
        ServiceNotes { custom_notes: StrMap::new() }
    }
}

} // verus!
