//! The node's kaswallet workers: where each one is reached, where its keys
//! are kept, and what is shown of its transactions.

use vstd::prelude::*;
use crate::storage::{largest_first, sort_keys, sort_largest_first, SortKey};
use crate::text::{decimal, join, push_decimal, push_str, string_of, string_views};

verus! {

/// The wallets of the node's workers, under the project directory.
#[derive(Debug)]
pub struct WalletManager {
    pub project_root: String,
}

/// Ports of the wallet daemons: worker `i` listens on `8082 + i`.
pub const WALLET_BASE_PORT: usize = 8082;

/// The container of worker `id`.
pub open spec fn wallet_container_of(id: nat) -> Seq<char> {
    "kaswallet-"@ + decimal(id)
}

/// The gRPC endpoint on the local host at `port`.
pub open spec fn local_endpoint_of(port: Seq<char>) -> Seq<char> {
    "http://127.0.0.1:"@ + port
}

/// A path under `root`, joined as `Path::join` does: a separator goes
/// between them unless `root` is empty or already ends with one.
pub open spec fn path_join(root: Seq<char>, rel: Seq<char>) -> Seq<char> {
    if root.len() > 0 && root.last() != '/' {
        root + "/"@ + rel
    } else {
        root + rel
    }
}

/// `Path::join` on text: `rel` under `root`.
pub(crate) fn join_path(root: &str, rel: &str) -> (r: String)
    ensures
        r@ == path_join(root@, rel@),
{
    let head = crate::text::chars_of(root);
    let mut out: Vec<char> = Vec::new();
    crate::text::push_chars(&mut out, &head);
    if head.len() > 0 && head[head.len() - 1] != '/' {
        push_str(&mut out, "/");
    }
    push_str(&mut out, rel);
    string_of(&out)
}

/// Where worker `id`'s keys file lies under the project root.
pub open spec fn keys_file_of(root: Seq<char>, id: nat) -> Seq<char> {
    path_join(root, "keys/keys.kaswallet-"@ + decimal(id) + ".json"@)
}

/// An estimated time: the chain's time less one second per DAA score
/// since the block, never below zero; zero where the chain's score or time
/// is unknown (zero).
pub open spec fn estimated_time_of(current_daa_score: u64, current_time_ms: u64, block_daa_score: u64) -> u64 {
    if current_daa_score > 0 && current_time_ms > 0 {
        let diff = if current_daa_score > block_daa_score { current_daa_score - block_daa_score } else { 0 };
        if current_time_ms > diff * 1000 { (current_time_ms - diff * 1000) as u64 } else { 0 }
    } else {
        0
    }
}

/// When a UTXO was created, estimated from its block's DAA score.
pub fn estimated_time_ms(current_daa_score: u64, current_time_ms: u64, block_daa_score: u64) -> (r: u64)
    requires
        current_daa_score > block_daa_score ==> (current_daa_score - block_daa_score) * 1000 <= u64::MAX,
    ensures
        r == estimated_time_of(current_daa_score, current_time_ms, block_daa_score),
{
    if current_daa_score > 0 && current_time_ms > 0 {
        let diff = current_daa_score.saturating_sub(block_daa_score);
        current_time_ms.saturating_sub(diff * 1000)
    } else {
        0
    }
}

/// One unspent output of a wallet, as its activity list shows it. The
/// amount is in sompi (a hundred-millionth of a KAS).
#[derive(Debug, Clone)]
pub struct UtxoInfo {
    pub address: String,
    pub tx_id: String,
    pub amount_sompi: u64,
    pub block_daa_score: u64,
    pub is_coinbase: bool,
    /// Estimated creation time, in milliseconds since the epoch (see
    /// `estimated_time_ms`).
    pub timestamp_ms: u64,
    /// The sender's address, for outputs that are not coinbase.
    pub source_addresses: Vec<String>,
}

impl SortKey for UtxoInfo {
    open spec fn sort_key_spec(&self) -> u64 {
        self.block_daa_score
    }

    fn sort_key(&self) -> (r: u64) {
        self.block_daa_score
    }
}

/// The outputs, most recent (highest DAA score) first; outputs of one
/// score keep their order.
pub fn sort_utxos_recent_first(utxos: Vec<UtxoInfo>) -> (r: Vec<UtxoInfo>)
    ensures
        r@.len() == utxos@.len(),
        forall|k: int| 0 <= k < r@.len() ==> #[trigger] r@[k] == utxos@[largest_first(utxos@.map_values(|u: UtxoInfo| u.block_daa_score))[k]],
{
    proof {
        assert(sort_keys(utxos@) =~= utxos@.map_values(|u: UtxoInfo| u.block_daa_score));
    }
    sort_largest_first(utxos)
}

/// What a sent transaction reports: its ids and how many transactions
/// were signed.
pub open spec fn send_summary_of(tx_ids: Seq<Seq<char>>, signed: nat) -> Seq<char> {
    "Transaction sent!\nTxIDs: "@ + join(tx_ids, ", "@) + "\nSigned "@ + decimal(signed) + " transactions"@
}

/// The message shown after a transaction was sent.
pub fn send_summary(tx_ids: &Vec<String>, signed_transactions: usize) -> (r: String)
    ensures
        r@ == send_summary_of(string_views(tx_ids@), signed_transactions as nat),
{
    let mut parts: Vec<Vec<char>> = Vec::new();
    let mut i: usize = 0;
    while i < tx_ids.len()
        invariant
            i <= tx_ids@.len(),
            crate::text::views(parts@) == string_views(tx_ids@).take(i as int),
        decreases tx_ids@.len() - i,
    {
        let c = crate::text::chars_of(tx_ids[i].as_str());
        let ghost before = crate::text::views(parts@);
        parts.push(c);
        proof {
            assert(crate::text::views(parts@) =~= before.push(c@));
            assert(string_views(tx_ids@).take(i + 1) =~= string_views(tx_ids@).take(i as int).push(tx_ids@[i as int]@));
        }
        i += 1;
    }
    proof {
        assert(string_views(tx_ids@).take(tx_ids@.len() as int) == string_views(tx_ids@));
    }
    let ids = crate::text::join_exec(&parts, ", ");
    let mut out: Vec<char> = Vec::new();
    push_str(&mut out, "Transaction sent!\nTxIDs: ");
    push_str(&mut out, ids.as_str());
    push_str(&mut out, "\nSigned ");
    push_decimal(&mut out, signed_transactions as u64);
    push_str(&mut out, " transactions");
    string_of(&out)
}

impl WalletManager {
    /// The wallets of the project at `project_root`.
    pub fn new(project_root: String) -> (r: WalletManager)
        ensures
            r.project_root@ == project_root@,
    {
        WalletManager { project_root }
    }

    /// The container that runs worker `worker_id`'s wallet daemon.
    pub fn container_name(worker_id: usize) -> (r: String)
        ensures
            r@ == wallet_container_of(worker_id as nat),
    {
        let mut out: Vec<char> = Vec::new();
        push_str(&mut out, "kaswallet-");
        push_decimal(&mut out, worker_id as u64);
        string_of(&out)
    }

    /// Where worker `worker_id`'s daemon is reached: the host port Docker
    /// maps to its 8082/tcp where one is known, else `8082 + worker_id`.
    pub fn wallet_endpoint(worker_id: usize, host_port: Option<&str>) -> (r: String)
        requires
            WALLET_BASE_PORT + worker_id <= usize::MAX,
        ensures
            r@ == local_endpoint_of(match host_port {
                Some(p) => p@,
                None => decimal((WALLET_BASE_PORT + worker_id) as nat),
            }),
    {
        let mut out: Vec<char> = Vec::new();
        push_str(&mut out, "http://127.0.0.1:");
        match host_port {
            Some(p) => push_str(&mut out, p),
            None => push_decimal(&mut out, (WALLET_BASE_PORT + worker_id) as u64),
        }
        string_of(&out)
    }

    /// The keys file of worker `worker_id`.
    pub fn keys_file(&self, worker_id: usize) -> (r: String)
        ensures
            r@ == keys_file_of(self.project_root@, worker_id as nat),
    {
        let root = crate::text::chars_of(self.project_root.as_str());
        let mut out: Vec<char> = Vec::new();
        crate::text::push_chars(&mut out, &root);
        if root.len() > 0 && root[root.len() - 1] != '/' {
            push_str(&mut out, "/");
        }
        let ghost prefix = out@;
        push_str(&mut out, "keys/keys.kaswallet-");
        push_decimal(&mut out, worker_id as u64);
        push_str(&mut out, ".json");
        proof {
            let rel = "keys/keys.kaswallet-"@ + decimal(worker_id as nat) + ".json"@;
            assert(out@ =~= prefix + rel);
        }
        string_of(&out)
    }
}

} // verus!
