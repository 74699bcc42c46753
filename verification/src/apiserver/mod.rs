//! What a server offers of the ledger: a chain for each miner's address,
//! fresh wallets, the first block, balances, admission and mining.
use vstd::prelude::*;
use vstd::string::*;
use crate::blockchain::{genesis_chain, Block, BlockChain, ChainView};
use crate::crypto::{ecdsa_signature, p256_public_key};
use crate::encoding::{hex_bytes, hex_text, is_hex_text};
use crate::error::AdmissionError;
use crate::wallet::{
    address_of, is_wallet_address, is_wallet_data, signing_message, verifies, SignedView, Transaction, Wallet,
    WalletData,
};

verus! {

/// The chain that is kept for one miner.
#[derive(Clone, Debug)]
pub struct Entry {
    pub address: String,
    pub blockchain: BlockChain,
}

/// The port to listen on, and the chains by the address of their miner.
#[derive(Clone, Debug)]
pub struct ApiServer {
    port: u16,
    cache: Vec<Entry>,
}

/// What a client sends to have a transfer signed and submitted.
#[derive(Clone, Debug)]
pub struct TransactionRequest {
    pub private_key: String,
    pub public_key: String,
    pub blockchain_address: String,
    pub recipient_address: String,
    pub amount: u64,
}

/// What a request says.
pub struct RequestView {
    pub private_key: Seq<char>,
    pub public_key: Seq<char>,
    pub blockchain_address: Seq<char>,
    pub recipient_address: Seq<char>,
    pub amount: u64,
}

impl View for TransactionRequest {
    type V = RequestView;

    open spec fn view(&self) -> RequestView {
        RequestView {
            private_key: self.private_key@,
            public_key: self.public_key@,
            blockchain_address: self.blockchain_address@,
            recipient_address: self.recipient_address@,
            amount: self.amount,
        }
    }
}

impl RequestView {
    /// Whether the private key is a secret scalar in hexadecimal, and the
    /// public key and the address are the ones that belong to it.
    pub open spec fn is_coherent(self) -> bool {
        &&& is_hex_text(self.private_key)
        &&& hex_bytes(self.private_key).len() == 32
        &&& p256_public_key(hex_bytes(self.private_key)) is Some
        &&& self.public_key == hex_text(
            p256_public_key(hex_bytes(self.private_key)).unwrap().subrange(1, 65),
        )
        &&& self.blockchain_address == address_of(
            p256_public_key(hex_bytes(self.private_key)).unwrap().subrange(1, 65),
        )
    }

    /// The transaction that the request asks for, not signed yet.
    pub open spec fn draft(self) -> SignedView {
        SignedView {
            sender: self.blockchain_address,
            recipient: self.recipient_address,
            amount: self.amount,
            public_key: self.public_key,
            signature: Seq::empty(),
        }
    }
}

/// The signed transaction that a request asks for; nothing where the keys and
/// the address of the request do not belong together, or no signature is made.
/// What comes back verifies.
pub fn sign_request(request: &TransactionRequest) -> (signed: Option<Transaction>)
    ensures
        signed is Some ==> request@.is_coherent(),
        request@.is_coherent() ==> match ecdsa_signature(
            hex_bytes(request@.private_key),
            signing_message(request@.draft()),
        ) {
            Some(s) => signed is Some && signed.unwrap()@ == (SignedView {
                signature: hex_text(s),
                ..request@.draft()
            }),
            None => signed is None,
        },
        signed is Some ==> verifies(signed.unwrap()@),
{
    let wallet = match Wallet::from_private_key_str(request.private_key.as_str()) {
        Some(w) => w,
        None => { return None; },
    };
    let public_key = wallet.public_key_str();
    let address = wallet.get_adress();
    proof {
        let encoded = p256_public_key(wallet@.secret).unwrap();
        assert(encoded.subrange(1, 65) =~= wallet@.public_point);
    }
    if public_key != request.public_key || address != request.blockchain_address {
        return None;
    }
    wallet.sign_transaction(&request.recipient_address, request.amount)
}

/// What a server holds.
pub struct ServerView {
    pub port: u16,
    pub cache: Seq<(Seq<char>, ChainView)>,
}

/// The index of the first chain that is kept under `address`.
pub open spec fn position_of(cache: Seq<(Seq<char>, ChainView)>, address: Seq<char>, from: int) -> Option<
    int,
>
    decreases cache.len() - from,
{
    if from < 0 || from >= cache.len() {
        None
    } else if cache[from].0 == address {
        Some(from)
    } else {
        position_of(cache, address, from + 1)
    }
}

/// Where a chain is found under `address`, it is kept there, at an index from
/// `from` on.
pub proof fn lemma_position_of(cache: Seq<(Seq<char>, ChainView)>, address: Seq<char>, from: int)
    requires
        0 <= from,
    ensures
        match position_of(cache, address, from) {
            Some(i) => from <= i < cache.len() && cache[i].0 == address,
            None => true,
        },
    decreases cache.len() - from,
{
    if from < cache.len() && cache[from].0 != address {
        lemma_position_of(cache, address, from + 1);
    }
}

impl ServerView {
    /// What every server keeps: no address twice, and under each address a
    /// chain that is well formed and mined for that address.
    pub open spec fn well_formed(self) -> bool {
        &&& forall|i: int, j: int|
            0 <= i < j < self.cache.len() ==> self.cache[i].0 != self.cache[j].0
        &&& forall|i: int|
            0 <= i < self.cache.len() ==> (#[trigger] self.cache[i]).1.well_formed()
                && self.cache[i].1.miner == self.cache[i].0
    }

    /// The chain that is kept under `address`.
    pub open spec fn chain_of(self, address: Seq<char>) -> Option<ChainView> {
        match position_of(self.cache, address, 0) {
            Some(i) => Some(self.cache[i].1),
            None => None,
        }
    }

    /// The server with another chain in the place of the one under `address`.
    pub open spec fn with_chain(self, address: Seq<char>, chain: ChainView) -> ServerView {
        match position_of(self.cache, address, 0) {
            Some(i) => ServerView { cache: self.cache.update(i, (address, chain)), ..self },
            None => self,
        }
    }
}

impl View for ApiServer {
    type V = ServerView;

    closed spec fn view(&self) -> ServerView {
        ServerView {
            port: self.port,
            cache: Seq::new(
                self.cache@.len(),
                |i: int| (self.cache@[i].address@, self.cache@[i].blockchain@),
            ),
        }
    }
}

impl ApiServer {
    /// A server with one chain, mined for a fresh wallet.
    pub fn new(port: u16) -> (server: Self)
        ensures
            server@.well_formed(),
            server@.port == port,
            server@.cache.len() == 1,
            is_wallet_address(server@.cache[0].0),
            server@.cache[0].1.miner == server@.cache[0].0,
            server@.cache[0].1.well_formed(),
            genesis_chain(
                server@.cache[0].0,
                server@.cache[0].1.blocks[0].time_stamps,
            ).mined_once(server@.cache[0].1.blocks.len() == 2, server@.cache[0].1),
    {
        let wallet_miner = Wallet::new();
        ApiServer::for_miner(port, wallet_miner.get_adress())
    }

    /// A server with one chain, mined for `miner_address`.
    pub fn for_miner(port: u16, miner_address: String) -> (server: Self)
        ensures
            server@.well_formed(),
            server@.port == port,
            server@.cache.len() == 1,
            server@.cache[0].0 == miner_address@,
            server@.cache[0].1.miner == miner_address@,
            server@.cache[0].1.well_formed(),
            genesis_chain(miner_address@, server@.cache[0].1.blocks[0].time_stamps).mined_once(
                server@.cache[0].1.blocks.len() == 2,
                server@.cache[0].1,
            ),
    {
        let blockchain = BlockChain::new(miner_address.clone());
        let mut cache: Vec<Entry> = Vec::new();
        cache.push(Entry { address: miner_address, blockchain });
        ApiServer { port, cache }
    }

    /// The port to listen on.
    pub fn port(&self) -> (port: u16)
        ensures
            port == self@.port,
    {
        self.port
    }

    /// The index of the first chain that is kept under `address`.
    fn position(&self, address: &str) -> (found: Option<usize>)
        ensures
            match found {
                Some(i) => i < self@.cache.len() && position_of(self@.cache, address@, 0) == Some(
                    i as int,
                ) && self@.cache[i as int].0 == address@,
                None => position_of(self@.cache, address@, 0) is None,
            },
    {
        let wanted = address.to_owned();
        let mut i: usize = 0;
        while i < self.cache.len()
            invariant
                i <= self.cache@.len(),
                wanted@ == address@,
                position_of(self@.cache, address@, 0) == position_of(self@.cache, address@, i as int),
            decreases self.cache@.len() - i,
        {
            if self.cache[i].address == wanted {
                return Some(i);
            }
            i = i + 1;
        }
        None
    }

    /// The public key, the private key and the address of a fresh wallet.
    pub fn get_wallet() -> (data: WalletData)
        ensures
            is_wallet_data(data),
    {
        let wallet_user = Wallet::new();
        wallet_user.get_wallet_data()
    }

    /// The chain that is kept under `address`.
    pub fn blockchain(&self, address: &str) -> (chain: Option<&BlockChain>)
        ensures
            match self@.chain_of(address@) {
                Some(c) => chain is Some && chain.unwrap()@ == c,
                None => chain is None,
            },
    {
        match self.position(address) {
            Some(i) => Some(&self.cache[i].blockchain),
            None => None,
        }
    }

    /// The first block of the chain that is kept under `address`.
    pub fn get_index(&self, address: &str) -> (block: Option<&Block>)
        ensures
            match self@.chain_of(address@) {
                Some(c) => block is Some && block.unwrap()@ == c.blocks[0],
                None => block is None,
            },
    {
        match self.blockchain(address) {
            Some(chain) => chain.get(0),
            None => None,
        }
    }

    /// The balance of `address` in the chain that is kept under `miner`.
    pub fn amount(&self, miner: &str, address: String) -> (amount: Option<i64>)
        ensures
            match self@.chain_of(miner@) {
                Some(c) => amount == Some(c.balance(address@)),
                None => amount is None,
            },
    {
        match self.blockchain(miner) {
            Some(chain) => Some(chain.calculate_total_amount(address)),
            None => None,
        }
    }

    /// Admits a signed transaction to the pool of the chain that is kept under
    /// `miner`; nothing where no chain is kept there.
    pub fn transaction(&mut self, miner: &str, tx: &Transaction) -> (admitted: Option<
        Result<(), AdmissionError>,
    >)
        ensures
            old(self)@.well_formed() ==> final(self)@.well_formed(),
            match old(self)@.chain_of(miner@) {
                Some(c) => match c.admission(tx@) {
                    Ok(bytes) => admitted is Some && admitted.unwrap() is Ok && final(self)@
                        == old(self)@.with_chain(miner@, c.with_pending(bytes)),
                    Err(e) => admitted == Some(Err::<(), AdmissionError>(e)) && final(self)@
                        == old(self)@,
                },
                None => admitted is None && final(self)@ == old(self)@,
            },
    {
        match self.position(miner) {
            Some(i) => {
                let done = self.cache[i].blockchain.try_add_transaction(tx);
                proof {
                    let c = old(self)@.cache[i as int].1;
                    match c.admission(tx@) {
                        Ok(bytes) => {
                            assert(self@.cache =~= old(self)@.cache.update(
                                i as int,
                                (miner@, c.with_pending(bytes)),
                            ));
                        },
                        Err(_) => {
                            assert(self@.cache =~= old(self)@.cache);
                        },
                    }
                }
                Some(done)
            },
            None => None,
        }
    }

    /// Mines the chain that is kept under `miner`; nothing where no chain is
    /// kept there.
    pub fn mining(&mut self, miner: &str) -> (done: Option<bool>)
        ensures
            old(self)@.well_formed() ==> final(self)@.well_formed(),
            match position_of(old(self)@.cache, miner@, 0) {
                Some(k) => {
                    &&& done is Some
                    &&& final(self)@ == old(self)@.with_chain(miner@, final(self)@.cache[k].1)
                    &&& final(self)@.cache[k].1.well_formed()
                    &&& old(self)@.cache[k].1.mined_once(done.unwrap(), final(self)@.cache[k].1)
                },
                None => done is None && final(self)@ == old(self)@,
            },
    {
        match self.position(miner) {
            Some(i) => {
                let ghost before = self.cache@[i as int].blockchain@;
                let done = self.cache[i].blockchain.mining();
                proof {
                    let after = self@.cache[i as int].1;
                    assert(before == old(self)@.cache[i as int].1);
                    assert(after == self.cache@[i as int].blockchain@);
                    assert(self@.cache =~= old(self)@.cache.update(i as int, (miner@, after)));
                    assert(after.well_formed());
                }
                Some(done)
            },
            None => None,
        }
    }
}

} // verus!
