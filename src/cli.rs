use crate::block::{header_bytes, meets_target, Block};
use crate::encoding::{le_bytes, push_le};
use crate::hashing::sha256_of;
use crate::chain::{genesis_data, txs_valid, Blockchain, ChainError, UTXOSet};
use crate::server::Message;
use crate::spend::{is_transfer, TxError};
use crate::transaction::{coinbase_model, txs_view, Transaction, TxModel};
use crate::utxo::{apply_txs, count_ids, owned, total, utxos_view};
use crate::wallets::{base58_address_of, decoded, decode_address, pub_key_hash_of, Wallets};
use crate::keys::ed25519_public_of;
use vstd::prelude::*;

verus! {

/// The commands of the node's command line.
#[derive(Debug)]
pub enum Commands {
    PrintChain,
    CreateWallet,
    ListAddresses,
    Reindex,
    StartNode { port: String },
    StartMiner { port: String, address: String },
    GetBalance { address: String },
    CreateBlockchain { address: String },
    Send { from: String, to: String, amount: u64, mine: bool, reward: String },
}

#[derive(Debug)]
pub struct Cli {
    pub command: Commands,
}

impl Cli {
    pub fn new() -> (r: Cli)
        ensures
            r.command is PrintChain,
    {
        Cli { command: Commands::PrintChain }
    }
}

#[derive(Debug)]
pub enum CliError {
    /// The address text is not a well-formed address.
    InvalidAddress,
    /// No wallet is stored under the sender's address.
    WalletNotFound,
    /// The stored secret key is not 32 bytes long.
    InvalidKey,
    Transaction(TxError),
    Chain(ChainError),
}

/// What a transfer became: a block mined here, or a message for a peer's mempool.
#[derive(Debug)]
pub enum SendOutcome {
    Mined(Block),
    Relay(Message),
}

/// Creates a wallet in `ws` and returns its address; `None` when no randomness was had.
pub fn cmd_create_wallet(ws: &mut Wallets) -> (r: Option<String>)
    requires
        old(ws).wf(),
    ensures
        final(ws).wf(),
        r is None ==> *final(ws) == *old(ws),
        r matches Some(a) ==> exists|i: int| #[trigger] final(ws).fresh_at(i, a@),
        r matches Some(a) ==> forall|b: Seq<char>|
            b != a@ ==> (final(ws).has(b) <==> old(ws).has(b)),
        r matches Some(a) ==> forall|i: int|
            0 <= i < old(ws).wallets@.len() && old(ws).wallets@[i].0@ != a@
                ==> final(ws).wallets@[i] == old(ws).wallets@[i],
{
    ws.create_wallet()
}

/// Rebuilds the index and returns how many transactions have an unspent output.
pub fn cmd_reindex(utxo_set: &mut UTXOSet) -> (r: usize)
    requires
        old(utxo_set).blockchain.wf(),
    ensures
        final(utxo_set).wf(),
        final(utxo_set).blockchain == old(utxo_set).blockchain,
        r as int == count_ids(utxos_view(final(utxo_set).utxos@)),
{
    utxo_set.reindex();
    utxo_set.count_transactions()
}

/// The unspent value held by the address `address`.
pub fn cmd_get_balance(utxo_set: &UTXOSet, address: &str) -> (r: Result<u128, CliError>)
    ensures
        r is Err <==> decoded(address@) is None,
        r matches Ok(v) ==> v as int == total(
            owned(utxos_view(utxo_set.utxos@), decoded(address@)->Some_0),
        ),
{
    match decode_address(address) {
        Some(pkh) => Ok(utxo_set.get_balance(&pkh)),
        None => Err(CliError::InvalidAddress),
    }
}

/// The transactions of a block mined by `cmd_send` on a chain of `len` blocks: the coinbase
/// paying `reward_pkh`, marked with the new height, then the transfer `t`.
pub open spec fn send_block_txs(reward_pkh: Seq<u8>, len: nat, t: TxModel) -> Seq<TxModel> {
    seq![coinbase_model(reward_pkh, le_bytes(len, 8)), t]
}

/// Is the wallet stored under `from` usable for signing?
pub open spec fn sender_ok(wallets: &Wallets, from: Seq<char>) -> bool {
    wallets.has(from) && wallets.wallet_at(from).secret_key@.len() == 32
}

/// Builds and signs a transfer of `amount` from the wallet stored under `from` to the address
/// `to`. When `mine_now`, mines it at once behind a coinbase that pays `reward_pkh` and is
/// marked with the new height; otherwise hands it back as a message for a peer's mempool.
pub fn cmd_send(
    utxo_set: &mut UTXOSet,
    wallets: &Wallets,
    from: &str,
    to: &str,
    amount: u64,
    mine_now: bool,
    reward_pkh: &[u8],
    timestamp: u64,
) -> (r: Result<SendOutcome, CliError>)
    requires
        old(utxo_set).wf(),
        wallets.wf(),
    ensures
        final(utxo_set).wf(),
        r matches Err(CliError::WalletNotFound) <==> !wallets.has(from@),
        r matches Err(CliError::InvalidKey) <==> wallets.has(from@) && !sender_ok(wallets, from@),
        r matches Err(CliError::InvalidAddress) <==> sender_ok(wallets, from@) && decoded(to@) is None,
        r matches Err(CliError::Transaction(TxError::InsufficientFunds)) <==> sender_ok(wallets, from@)
            && decoded(to@) is Some && total(
            owned(
                utxos_view(old(utxo_set).utxos@),
                pub_key_hash_of(wallets.wallet_at(from@).public_key@),
            ),
        ) < amount,
        r matches Err(CliError::Transaction(TxError::IndexOutOfRange)) ==> exists|i: int|
            0 <= i < old(utxo_set).utxos@.len() && old(utxo_set).utxos@[i].index > i32::MAX,
        r matches Err(CliError::Transaction(TxError::InvalidAddress)) ==> false,
        (!mine_now || r is Err) ==> final(utxo_set).blockchain.view_blocks()
            == old(utxo_set).blockchain.view_blocks() && final(utxo_set).utxos@ == old(
            utxo_set,
        ).utxos@,
        r matches Ok(SendOutcome::Relay(m)) ==> !mine_now && (m matches Message::Tx { tx }
            && is_transfer(
            utxos_view(old(utxo_set).utxos@),
            wallets.wallet_at(from@).secret_key@,
            wallets.wallet_at(from@).public_key@,
            decoded(to@)->Some_0,
            amount,
            tx@,
        )),
        r matches Ok(SendOutcome::Mined(b)) ==> mine_now && (exists|t: TxModel|
            #[trigger] is_transfer(
                utxos_view(old(utxo_set).utxos@),
                wallets.wallet_at(from@).secret_key@,
                wallets.wallet_at(from@).public_key@,
                decoded(to@)->Some_0,
                amount,
                t,
            ) && b@.transactions == send_block_txs(reward_pkh@, old(utxo_set).blockchain.blocks@.len(), t)) && txs_valid(utxos_view(old(utxo_set).utxos@), b@.transactions)
            && final(utxo_set).blockchain.view_blocks() == old(utxo_set).blockchain.view_blocks().push(b@)
            && utxos_view(final(utxo_set).utxos@) == apply_txs(utxos_view(old(utxo_set).utxos@), b@.transactions),
        r matches Err(CliError::Chain(ChainError::InvalidBlock)) ==> mine_now
            && old(utxo_set).blockchain.blocks@.len() - 1 == u64::MAX,
        r matches Err(CliError::Chain(ChainError::InvalidTransaction)) ==> mine_now && exists|t: TxModel|
            #[trigger] is_transfer(
                utxos_view(old(utxo_set).utxos@),
                wallets.wallet_at(from@).secret_key@,
                wallets.wallet_at(from@).public_key@,
                decoded(to@)->Some_0,
                amount,
                t,
            ) && !txs_valid(
                utxos_view(old(utxo_set).utxos@),
                send_block_txs(reward_pkh@, old(utxo_set).blockchain.blocks@.len(), t),
            ),
        r matches Err(CliError::Chain(ChainError::NonceExhausted)) ==> mine_now && exists|t: TxModel|
            #[trigger] is_transfer(
                utxos_view(old(utxo_set).utxos@),
                wallets.wallet_at(from@).secret_key@,
                wallets.wallet_at(from@).public_key@,
                decoded(to@)->Some_0,
                amount,
                t,
            ) && forall|n: u64| !meets_target(
                sha256_of(
                    #[trigger] header_bytes(
                        old(utxo_set).blockchain.view_blocks().last().hash,
                        send_block_txs(reward_pkh@, old(utxo_set).blockchain.blocks@.len(), t),
                        timestamp,
                        old(utxo_set).blockchain.blocks@.len() as u64,
                        n,
                    ),
                ),
            ),
{
    let wallet = match wallets.get_wallet(from) {
        Some(w) => w,
        None => return Err(CliError::WalletNotFound),
    };
    if wallet.secret_key.len() != 32 {
        return Err(CliError::InvalidKey);
    }
    let tx = match Transaction::new_utxo(wallet, to, amount, &utxo_set.utxos) {
        Ok(t) => t,
        Err(TxError::InvalidAddress) => return Err(CliError::InvalidAddress),
        Err(e) => return Err(CliError::Transaction(e)),
    };
    if !mine_now {
        return Ok(SendOutcome::Relay(Message::Tx { tx }));
    }
    let best = utxo_set.get_best_height();
    if best == u64::MAX {
        return Err(CliError::Chain(ChainError::InvalidBlock));
    }
    let mut data: Vec<u8> = Vec::new();
    push_le(&mut data, best + 1, 8);
    let ghost t = tx@;
    let cbtx = Transaction::new_coinbase(reward_pkh, &data);
    let txs = vec![cbtx, tx];
    assert(data@ =~= le_bytes(utxo_set.blockchain.blocks@.len(), 8));
    assert(txs_view(txs@) =~= send_block_txs(reward_pkh@, utxo_set.blockchain.blocks@.len(), t));
    match utxo_set.mine_block(txs, timestamp) {
        Ok(b) => Ok(SendOutcome::Mined(b)),
        Err(e) => Err(CliError::Chain(e)),
    }
}

/// The key hash that the address text `address` stands for.
pub fn address_key_hash(address: &str) -> (r: Option<Vec<u8>>)
    ensures
        r is Some <==> decoded(address@) is Some,
        r is Some ==> decoded(address@) == Some(r->Some_0@),
{
    decode_address(address)
}

/// A new chain whose genesis coinbase pays the address `address`, with its index.
pub fn cmd_create_blockchain(address: &str, timestamp: u64) -> (r: Result<UTXOSet, CliError>)
    ensures
        r matches Err(CliError::InvalidAddress) <==> decoded(address@) is None,
        r matches Ok(set) ==> set.wf() && set.blockchain.blocks@.len() == 1
            && set.blockchain.view_blocks()[0].transactions == seq![
            coinbase_model(decoded(address@)->Some_0, genesis_data()),
        ],
        r is Err ==> (r matches Err(CliError::InvalidAddress) || r matches Err(
            CliError::Chain(ChainError::NonceExhausted),
        )),
        r matches Err(CliError::Chain(_)) ==> decoded(address@) is Some && forall|n: u64|
            !meets_target(
                sha256_of(
                    #[trigger] header_bytes(
                        Seq::empty(),
                        seq![coinbase_model(decoded(address@)->Some_0, genesis_data())],
                        timestamp,
                        0,
                        n,
                    ),
                ),
            ),
{
    let pkh = match decode_address(address) {
        Some(p) => p,
        None => return Err(CliError::InvalidAddress),
    };
    match Blockchain::create_blockchain(&pkh, timestamp) {
        Ok(bc) => Ok(UTXOSet::new(bc)),
        Err(e) => Err(CliError::Chain(e)),
    }
}

} // verus!
