//! Blocks, the chain that links them, and the pool of pending transactions.
use vstd::prelude::*;
use vstd::string::*;
use vstd::arithmetic::div_mod::{
    lemma_fundamental_div_mod, lemma_fundamental_div_mod_converse, lemma_mod_bound,
    lemma_small_mod,
};
use vstd::arithmetic::power2::{lemma2_to64_rest, pow2};
use vstd::std_specs::cmp::PartialEqSpecImpl;
use vstd::utf8::encode_utf8;
use crate::binary64::{
    binary64_floor_to_i64, binary64_from_u64, binary64_of_nat, binary64_to_i64,
    lemma_binary64_exact,
};
use crate::blockchain::transaction::{
    decoding, encoding, lemma_round_trip, LedgerEntry, Transaction,
};
use crate::bytes::{be_bytes, bytes_eq, concat_all, copy_range, push_all, push_be, twos_complement32};
use crate::crypto::{sha256, sha256_digest};
use crate::encoding::{encode_hex, hex_text};
use crate::error::{AdmissionError, CodecError};
use crate::wallet::{verifies, SignedView, Transaction as WalletTransaction, Wallet};

pub mod transaction;

verus! {

/// The number of leading `'0'` characters that the hexadecimal text of a mined
/// block's hash must have.
pub const DIFFICULTY: usize = 3;

/// The amount that the chain pays the miner for each block.
pub const MINING_REWARD: u64 = 1;

/// The sender of every reward.
pub const MINING_SENDER: &'static str = "THE_BLOCKCHAIN";

/// The sender of every reward, as a sequence of characters.
pub open spec fn mining_sender() -> Seq<char> {
    MINING_SENDER@
}

/// The `previous_hash` of the first block of every chain.
pub open spec fn genesis_seed() -> Seq<u8> {
    seq![0u8, 32u8]
}

/// A value with a binary form: `serialization` writes it, `deserialization` reads it back.
pub trait Serialization<T> {
    fn serialization(&self) -> Vec<u8>;

    fn deserialization(byte: Vec<u8>) -> Result<T, CodecError>;
}

/// What to look for in the chain.
pub enum BlockSearch {
    SearchByIndex(usize),
    SearchByPreviousHash(Vec<u8>),
    SearchByBlockHash(Vec<u8>),
    SearchByTimeStamp(u128),
    SearchByTransaction(Vec<u8>),
    SearchByNonce(i32),
}

/// The first block that was looked for, or what was looked for in vain.
pub enum BlockSearchResult<'a> {
    Success(&'a Block),
    FailOfEmptyBlocks,
    FailOfIndex(usize),
    FailOfPreviousHash(Vec<u8>),
    FailOfBlockHash(Vec<u8>),
    FailOfNonce(i32),
    FailOfTimeStamp(u128),
    FailOfTransaction(Vec<u8>),
}

/// What a block records.
pub struct BlockView {
    pub nonce: i32,
    pub previous_hash: Seq<u8>,
    pub time_stamps: u128,
    pub transactions: Seq<Seq<u8>>,
}

impl BlockView {
    /// The bytes that are hashed: the nonce in four bytes, the previous hash,
    /// the time stamp in sixteen bytes, then every transaction, in order.
    pub open spec fn preimage(self) -> Seq<u8> {
        be_bytes(twos_complement32(self.nonce as int), 4) + self.previous_hash + be_bytes(
            self.time_stamps as nat,
            16,
        ) + concat_all(self.transactions)
    }

    /// The SHA-256 digest of the preimage.
    pub open spec fn digest(self) -> Seq<u8> {
        sha256(self.preimage())
    }

    /// The same block with another nonce.
    pub open spec fn with_nonce(self, nonce: i32) -> BlockView {
        BlockView { nonce, ..self }
    }

    /// Whether the block's hash starts with enough zeros.
    pub open spec fn is_mined(self) -> bool {
        meets_difficulty(self.digest())
    }

    /// Whether `nonce` is the first nonce from this block's own on with which
    /// the block is mined.
    pub open spec fn first_proof(self, nonce: i32) -> bool {
        &&& self.nonce <= nonce
        &&& self.with_nonce(nonce).is_mined()
        &&& forall|n: i32| self.nonce <= n < nonce ==> !(#[trigger] self.with_nonce(n)).is_mined()
    }

    /// Whether no nonce from this block's own on makes the block mined.
    pub open spec fn no_proof(self) -> bool {
        forall|n: i32| self.nonce <= n ==> !(#[trigger] self.with_nonce(n)).is_mined()
    }
}

/// Whether the hexadecimal text of a digest starts with `DIFFICULTY` zeros.
pub open spec fn meets_difficulty(digest: Seq<u8>) -> bool {
    let text = hex_text(digest);
    &&& text.len() >= DIFFICULTY
    &&& forall|i: int| 0 <= i < DIFFICULTY ==> text[i] == '0'
}

/// The contents of each byte string of a list.
pub open spec fn contents(list: Seq<Vec<u8>>) -> Seq<Seq<u8>> {
    Seq::new(list.len(), |i: int| list[i]@)
}

/// A nonce, the hash of the block before, the time of creation and the
/// transactions that the block holds.
#[derive(Debug)]
pub struct Block {
    nonce: i32,
    previous_hash: Vec<u8>,
    time_stamps: u128,
    transactions: Vec<Vec<u8>>,
}

impl View for Block {
    type V = BlockView;

    closed spec fn view(&self) -> BlockView {
        BlockView {
            nonce: self.nonce,
            previous_hash: self.previous_hash@,
            time_stamps: self.time_stamps,
            transactions: contents(self.transactions@),
        }
    }
}

/// A copy of every byte string of a list.
pub fn copy_list(list: &Vec<Vec<u8>>) -> (copy: Vec<Vec<u8>>)
    ensures
        contents(copy@) == contents(list@),
{
    let mut copy: Vec<Vec<u8>> = Vec::new();
    let mut i: usize = 0;
    while i < list.len()
        invariant
            i <= list@.len(),
            contents(copy@) == contents(list@).take(i as int),
        decreases list@.len() - i,
    {
        let item = copy_range(list[i].as_slice(), 0, list[i].len());
        assert(item@ =~= list@[i as int]@);
        let ghost before = contents(copy@);
        copy.push(item);
        i = i + 1;
        assert(contents(copy@) =~= before.push(item@));
        assert(contents(copy@) =~= contents(list@).take(i as int));
    }
    assert(contents(list@).take(i as int) =~= contents(list@));
    copy
}

impl Clone for Block {
    fn clone(&self) -> (copy: Self)
        ensures
            copy@ == self@,
    {
        let previous_hash = copy_range(
            self.previous_hash.as_slice(),
            0,
            self.previous_hash.len(),
        );
        assert(previous_hash@ =~= self.previous_hash@);
        Block {
            nonce: self.nonce,
            previous_hash,
            time_stamps: self.time_stamps,
            transactions: copy_list(&self.transactions),
        }
    }
}

/// Two blocks are equal where their hashes are.
impl PartialEq for Block {
    fn eq(&self, other: &Self) -> (same: bool) {
        let mine = self.hash();
        let theirs = other.hash();
        bytes_eq(mine.as_slice(), theirs.as_slice())
    }
}

impl PartialEqSpecImpl for Block {
    open spec fn obeys_eq_spec() -> bool {
        true
    }

    open spec fn eq_spec(&self, other: &Block) -> bool {
        self@.digest() == other@.digest()
    }
}

/// `SystemTime::UNIX_EPOCH.elapsed()`: the nanoseconds since the Unix epoch by
/// the system clock, or nothing where the clock stands before the epoch.
#[verifier::external_body]
fn unix_nanos() -> (now: Option<u128>) {
    match std::time::SystemTime::UNIX_EPOCH.elapsed() {
        Ok(d) => Some(d.as_nanos()),
        Err(_) => None,
    }
}

/// The time stamp for a block that is made now: the nanoseconds since the Unix
/// epoch, and zero where the clock stands before it.
pub fn time_stamp_now() -> u128 {
    time_stamp_of(unix_nanos())
}

/// The time stamp that a reading of the clock gives: the reading itself, and
/// zero where there is none.
pub open spec fn stamp_of(reading: Option<u128>) -> u128 {
    match reading {
        Some(t) => t,
        None => 0,
    }
}

/// The time stamp for a block that is made at a reading of the clock: the
/// nanoseconds that were read, and zero where the clock stood before the epoch
/// and nothing was read.
pub fn time_stamp_of(reading: Option<u128>) -> (time_stamps: u128)
    ensures
        time_stamps == stamp_of(reading),
{
    match reading {
        Some(t) => t,
        None => 0,
    }
}

/// Whether the hexadecimal text of `digest` starts with `DIFFICULTY` zeros;
/// the text comes back too.
pub fn check_difficulty(digest: &[u8]) -> (found: (bool, String))
    ensures
        found.0 == meets_difficulty(digest@),
        found.1@ == hex_text(digest@),
{
    let text = encode_hex(digest);
    let len: usize = text.as_str().unicode_len();
    if len < DIFFICULTY {
        return (false, text);
    }
    let mut i: usize = 0;
    while i < DIFFICULTY
        invariant
            i <= DIFFICULTY <= len,
            len == text@.len(),
            text@ == hex_text(digest@),
            forall|j: int| 0 <= j < i ==> text@[j] == '0',
        decreases DIFFICULTY - i,
    {
        if text.as_str().get_char(i) != '0' {
            return (false, text);
        }
        i = i + 1;
    }
    (true, text)
}

impl Block {
    /// A block without transactions, stamped with the time at which it is made.
    pub fn new(nonce: i32, previous_hash: Vec<u8>) -> (block: Self)
        ensures
            block@.nonce == nonce,
            block@.previous_hash == previous_hash@,
            block@.transactions == Seq::<Seq<u8>>::empty(),
    {
        Block::with_time_stamp(nonce, previous_hash, time_stamp_now())
    }

    /// A block without transactions.
    pub fn with_time_stamp(nonce: i32, previous_hash: Vec<u8>, time_stamps: u128) -> (block: Self)
        ensures
            block@ == (BlockView {
                nonce,
                previous_hash: previous_hash@,
                time_stamps,
                transactions: Seq::empty(),
            }),
    {
        let block = Block { nonce, previous_hash, time_stamps, transactions: Vec::new() };
        assert(block@.transactions =~= Seq::<Seq<u8>>::empty());
        block
    }

    pub fn nonce(&self) -> (nonce: i32)
        ensures
            nonce == self@.nonce,
    {
        self.nonce
    }

    pub fn previous_hash(&self) -> (hash: &Vec<u8>)
        ensures
            hash@ == self@.previous_hash,
    {
        &self.previous_hash
    }

    pub fn time_stamps(&self) -> (time_stamps: u128)
        ensures
            time_stamps == self@.time_stamps,
    {
        self.time_stamps
    }

    pub fn transactions(&self) -> (list: &Vec<Vec<u8>>)
        ensures
            contents(list@) == self@.transactions,
    {
        &self.transactions
    }

    /// Appends the encoding of a ledger transaction.
    pub fn add_transaction(&mut self, tx: &Transaction)
        ensures
            final(self)@ == (BlockView {
                transactions: old(self)@.transactions.push(encoding(tx@)),
                ..old(self)@
            }),
    {
        let bytes = tx.serialization();
        self.transactions.push(bytes);
        assert(self@.transactions =~= old(self)@.transactions.push(encoding(tx@)));
    }

    /// Adds `rhs` to the nonce. Where the sum is no 32-bit number the block
    /// stays as it is and the answer is `false`.
    pub fn add_assign(&mut self, rhs: i32) -> (done: bool)
        ensures
            done == (i32::MIN <= old(self)@.nonce + rhs <= i32::MAX),
            done ==> final(self)@ == old(self)@.with_nonce((old(self)@.nonce + rhs) as i32),
            !done ==> final(self)@ == old(self)@,
    {
        match self.nonce.checked_add(rhs) {
            Some(n) => {
                self.nonce = n;
                true
            },
            None => false,
        }
    }

    /// The bytes that the hash is taken of.
    pub fn preimage(&self) -> (bin: Vec<u8>)
        ensures
            bin@ == self@.preimage(),
    {
        let mut bin: Vec<u8> = Vec::new();
        let unsigned: u128 = if self.nonce >= 0 {
            self.nonce as u128
        } else {
            (self.nonce as i64 + 0x1_0000_0000) as u128
        };
        push_be(&mut bin, unsigned, 4);
        push_all(&mut bin, self.previous_hash.as_slice());
        push_be(&mut bin, self.time_stamps, 16);
        let ghost head = bin@;
        let mut i: usize = 0;
        assert(concat_all(self@.transactions.take(0)) =~= Seq::<u8>::empty());
        while i < self.transactions.len()
            invariant
                i <= self.transactions@.len(),
                bin@ == head + concat_all(self@.transactions.take(i as int)),
            decreases self.transactions@.len() - i,
        {
            push_all(&mut bin, self.transactions[i].as_slice());
            proof {
                let next = self@.transactions.take(i + 1);
                assert(next.drop_last() =~= self@.transactions.take(i as int));
                assert(next.last() == self.transactions@[i as int]@);
                assert(bin@ =~= head + concat_all(next));
            }
            i = i + 1;
        }
        assert(self@.transactions.take(i as int) =~= self@.transactions);
        bin
    }

    /// The SHA-256 hash of the block.
    pub fn hash(&self) -> (digest: Vec<u8>)
        ensures
            digest@ == self@.digest(),
            digest@.len() == 32,
    {
        let bin = self.preimage();
        sha256_digest(bin.as_slice())
    }
}

/// What is looked for, as plain values.
pub enum BlockSearchView {
    Index(int),
    PreviousHash(Seq<u8>),
    BlockHash(Seq<u8>),
    TimeStamp(u128),
    Transaction(Seq<u8>),
    Nonce(i32),
}

impl View for BlockSearch {
    type V = BlockSearchView;

    open spec fn view(&self) -> BlockSearchView {
        match *self {
            BlockSearch::SearchByIndex(i) => BlockSearchView::Index(i as int),
            BlockSearch::SearchByPreviousHash(h) => BlockSearchView::PreviousHash(h@),
            BlockSearch::SearchByBlockHash(h) => BlockSearchView::BlockHash(h@),
            BlockSearch::SearchByTimeStamp(t) => BlockSearchView::TimeStamp(t),
            BlockSearch::SearchByTransaction(t) => BlockSearchView::Transaction(t@),
            BlockSearch::SearchByNonce(n) => BlockSearchView::Nonce(n),
        }
    }
}

/// Whether the block at `index` is what is looked for.
pub open spec fn block_matches(block: BlockView, index: int, search: BlockSearchView) -> bool {
    match search {
        BlockSearchView::Index(i) => index == i,
        BlockSearchView::PreviousHash(h) => block.previous_hash == h,
        BlockSearchView::BlockHash(h) => block.digest() == h,
        BlockSearchView::TimeStamp(t) => block.time_stamps == t,
        BlockSearchView::Transaction(t) => block.transactions.contains(t),
        BlockSearchView::Nonce(n) => block.nonce == n,
    }
}

/// The index of the first block from `from` on that is what is looked for.
pub open spec fn first_match(blocks: Seq<BlockView>, search: BlockSearchView, from: int) -> Option<
    int,
>
    decreases blocks.len() - from,
{
    if from < 0 || from >= blocks.len() {
        None
    } else if block_matches(blocks[from], from, search) {
        Some(from)
    } else {
        first_match(blocks, search, from + 1)
    }
}

/// What `first_match` finds is the first block from `from` on that is what is
/// looked for, and it finds one where there is one.
pub proof fn lemma_first_match(blocks: Seq<BlockView>, search: BlockSearchView, from: int)
    requires
        0 <= from,
    ensures
        match first_match(blocks, search, from) {
            Some(i) => {
                &&& from <= i < blocks.len()
                &&& block_matches(blocks[i], i, search)
                &&& forall|j: int| from <= j < i ==> !block_matches(#[trigger] blocks[j], j, search)
            },
            None => forall|j: int|
                from <= j < blocks.len() ==> !block_matches(#[trigger] blocks[j], j, search),
        },
    decreases blocks.len() - from,
{
    if from < blocks.len() && !block_matches(blocks[from], from, search) {
        lemma_first_match(blocks, search, from + 1);
    }
}

/// Whether a result is the failure that hands back what was looked for.
pub open spec fn is_failure_of<'a>(result: BlockSearchResult<'a>, search: BlockSearchView) -> bool {
    match (result, search) {
        (BlockSearchResult::FailOfIndex(i), BlockSearchView::Index(j)) => i == j,
        (BlockSearchResult::FailOfPreviousHash(h), BlockSearchView::PreviousHash(g)) => h@ == g,
        (BlockSearchResult::FailOfBlockHash(h), BlockSearchView::BlockHash(g)) => h@ == g,
        (BlockSearchResult::FailOfTimeStamp(t), BlockSearchView::TimeStamp(u)) => t == u,
        (BlockSearchResult::FailOfTransaction(t), BlockSearchView::Transaction(u)) => t@ == u,
        (BlockSearchResult::FailOfNonce(n), BlockSearchView::Nonce(m)) => n == m,
        _ => false,
    }
}

/// Whether a byte string is exactly the encoding of a ledger entry.
pub open spec fn is_ledger_encoding(bytes: Seq<u8>) -> bool {
    decoding(bytes) is Ok && encoding(decoding(bytes).unwrap()) == bytes
}

/// A whole number taken into the signed 64-bit range by two's complement.
#[verifier::opaque]
pub open spec fn wrap_i64(v: int) -> i64 {
    ((v + 0x8000_0000_0000_0000) % 0x1_0000_0000_0000_0000 - 0x8000_0000_0000_0000) as i64
}

/// What one ledger entry adds to the balance of an address: the floor of its
/// value where the address receives, less the same where it sends.
pub open spec fn entry_effect(entry: LedgerEntry, address: Seq<u8>) -> int {
    let amount = binary64_to_i64(entry.value_bits) as int;
    (if entry.recipient == address {
        amount
    } else {
        0
    }) - (if entry.sender == address {
        amount
    } else {
        0
    })
}

/// What one stored transaction adds to the balance of an address.
pub open spec fn stored_effect(bytes: Seq<u8>, address: Seq<u8>) -> int {
    match decoding(bytes) {
        Ok(entry) => entry_effect(entry, address),
        Err(_) => 0,
    }
}

/// What a list of stored transactions adds to the balance of an address.
pub open spec fn list_balance(list: Seq<Seq<u8>>, address: Seq<u8>) -> int
    decreases list.len(),
{
    if list.len() == 0 {
        0
    } else {
        list_balance(list.drop_last(), address) + stored_effect(list.last(), address)
    }
}

/// The balance of an address over all transactions of all blocks.
pub open spec fn chain_balance(blocks: Seq<BlockView>, address: Seq<u8>) -> int
    decreases blocks.len(),
{
    if blocks.len() == 0 {
        0
    } else {
        chain_balance(blocks.drop_last(), address) + list_balance(
            blocks.last().transactions,
            address,
        )
    }
}

/// The ledger entry that a signed transaction is stored as.
pub open spec fn ledger_entry_of(tx: SignedView) -> LedgerEntry {
    LedgerEntry {
        sender: encode_utf8(tx.sender),
        recipient: encode_utf8(tx.recipient),
        value_bits: binary64_of_nat(tx.amount as nat) as u64,
    }
}

/// The transaction by which the chain pays the miner.
pub open spec fn reward_for(miner: Seq<char>) -> SignedView {
    SignedView {
        sender: mining_sender(),
        recipient: miner,
        amount: MINING_REWARD,
        public_key: Seq::empty(),
        signature: Seq::empty(),
    }
}

/// The transactions of the block that is mined first for `miner`: the reward,
/// unless the miner bears the name that the chain pays under.
pub open spec fn first_pool(miner: Seq<char>) -> Seq<Seq<u8>> {
    if miner == mining_sender() {
        Seq::empty()
    } else {
        seq![encoding(ledger_entry_of(reward_for(miner)))]
    }
}

/// The chain of one block that every chain starts as.
pub open spec fn genesis_chain(miner: Seq<char>, genesis_time: u128) -> ChainView {
    ChainView {
        blocks: seq![
            BlockView {
                nonce: 0,
                previous_hash: genesis_seed(),
                time_stamps: genesis_time,
                transactions: Seq::empty(),
            },
        ],
        pool: Seq::empty(),
        miner,
    }
}

/// What a chain holds.
pub struct ChainView {
    pub blocks: Seq<BlockView>,
    pub pool: Seq<Seq<u8>>,
    pub miner: Seq<char>,
}

impl ChainView {
    /// What every chain keeps: a first block with the seed as its previous
    /// hash; each later block mined and linked to the one before by its hash;
    /// nothing but ledger encodings in blocks and pool; nothing twice in the pool.
    pub open spec fn well_formed(self) -> bool {
        &&& self.blocks.len() >= 1
        &&& self.blocks[0].previous_hash == genesis_seed()
        &&& forall|i: int|
            0 < i < self.blocks.len() ==> (#[trigger] self.blocks[i]).previous_hash
                == self.blocks[i - 1].digest()
        &&& forall|i: int| 0 < i < self.blocks.len() ==> (#[trigger] self.blocks[i]).is_mined()
        &&& forall|i: int, j: int|
            0 <= i < self.blocks.len() && 0 <= j < self.blocks[i].transactions.len()
                ==> is_ledger_encoding(#[trigger] self.blocks[i].transactions[j])
        &&& forall|j: int| 0 <= j < self.pool.len() ==> is_ledger_encoding(#[trigger] self.pool[j])
        &&& forall|i: int, j: int| 0 <= i < j < self.pool.len() ==> self.pool[i] != self.pool[j]
    }

    /// The balance of an address as a signed 64-bit number.
    pub open spec fn balance(self, address: Seq<char>) -> i64 {
        wrap_i64(chain_balance(self.blocks, encode_utf8(address)))
    }

    /// The first reason for which a signed transaction is not admitted; for
    /// one that is admitted, the encoding that joins the pool.
    pub open spec fn admission(self, tx: SignedView) -> Result<Seq<u8>, AdmissionError> {
        if tx.sender == self.miner {
            Err(AdmissionError::SelfPayment)
        } else if tx.sender != mining_sender() && !verifies(tx) {
            Err(AdmissionError::InvalidSignature)
        } else if tx.sender != mining_sender() && self.balance(tx.sender) < tx.amount {
            Err(AdmissionError::InsufficientBalance)
        } else {
            self.pool_admission(ledger_entry_of(tx))
        }
    }

    /// Whether the encoding of a ledger entry is new to the pool.
    pub open spec fn pool_admission(self, entry: LedgerEntry) -> Result<Seq<u8>, AdmissionError> {
        if self.pool.contains(encoding(entry)) {
            Err(AdmissionError::DuplicateTransaction)
        } else {
            Ok(encoding(entry))
        }
    }

    /// The chain with one more pending transaction.
    pub open spec fn with_pending(self, bytes: Seq<u8>) -> ChainView {
        ChainView { pool: self.pool.push(bytes), ..self }
    }

    /// The chain after an attempt to admit the miner's reward.
    pub open spec fn with_reward(self) -> ChainView {
        match self.admission(reward_for(self.miner)) {
            Ok(bytes) => self.with_pending(bytes),
            Err(_) => self,
        }
    }

    /// The block that is mined from the pool: it starts at `nonce`.
    pub open spec fn candidate(self, nonce: i32, previous_hash: Seq<u8>, time_stamps: u128) -> BlockView {
        BlockView { nonce, previous_hash, time_stamps, transactions: self.pool }
    }

    /// Whether `after` is this chain once a block was made from its pool,
    /// starting at `nonce`, and `done` says whether one was: one is made where
    /// `previous_hash` is the hash of the last block and some nonce from `nonce`
    /// on proves the work; it then has the first such nonce, and the pool is empty.
    pub open spec fn block_created(
        self,
        nonce: i32,
        previous_hash: Seq<u8>,
        time_stamps: u128,
        done: bool,
        after: ChainView,
    ) -> bool {
        let candidate = self.candidate(nonce, previous_hash, time_stamps);
        &&& done == (previous_hash == self.blocks.last().digest() && !candidate.no_proof())
        &&& !done ==> after == self
        &&& done ==> {
            &&& after.blocks.len() == self.blocks.len() + 1
            &&& candidate.first_proof(after.blocks.last().nonce)
            &&& after.blocks == self.blocks.push(candidate.with_nonce(after.blocks.last().nonce))
            &&& after.pool == Seq::<Seq<u8>>::empty()
            &&& after.miner == self.miner
        }
    }

    /// Whether `after` is this chain once it was mined at `time_stamps`: the
    /// reward is admitted if it can be, then a block is made from the pool,
    /// starting at nonce zero behind the last block.
    #[verifier::opaque]
    pub open spec fn mined(self, time_stamps: u128, done: bool, after: ChainView) -> bool {
        self.with_reward().block_created(
            0,
            self.blocks.last().digest(),
            time_stamps,
            done,
            after,
        )
    }

    /// Whether `after` is this chain once it was mined at some time.
    pub open spec fn mined_once(self, done: bool, after: ChainView) -> bool {
        exists|time_stamps: u128| self.mined(time_stamps, done, after)
    }
}

/// Blocks in the order in which they were mined, the pool of pending
/// transactions, and the address of the miner.
#[derive(Debug)]
pub struct BlockChain {
    transaction_pool: Vec<Vec<u8>>,
    chain: Vec<Block>,
    blockhain_address: String,
}

impl View for BlockChain {
    type V = ChainView;

    closed spec fn view(&self) -> ChainView {
        ChainView {
            blocks: Seq::new(self.chain@.len(), |i: int| self.chain@[i]@),
            pool: contents(self.transaction_pool@),
            miner: self.blockhain_address@,
        }
    }
}

impl Clone for BlockChain {
    fn clone(&self) -> (copy: Self)
        ensures
            copy@ == self@,
    {
        proof {
            use_type_invariant(self);
        }
        let mut blocks: Vec<Block> = Vec::new();
        let mut i: usize = 0;
        while i < self.chain.len()
            invariant
                i <= self.chain@.len(),
                blocks@.len() == i,
                forall|k: int| 0 <= k < i ==> blocks@[k]@ == self.chain@[k]@,
            decreases self.chain@.len() - i,
        {
            blocks.push(self.chain[i].clone());
            i = i + 1;
        }
        let pool = copy_list(&self.transaction_pool);
        assert(Seq::new(blocks@.len(), |k: int| blocks@[k]@) =~= self@.blocks);
        BlockChain {
            transaction_pool: pool,
            chain: blocks,
            blockhain_address: self.blockhain_address.clone(),
        }
    }
}

/// Whether `list` holds the byte string `tx`.
pub fn holds(list: &Vec<Vec<u8>>, tx: &[u8]) -> (found: bool)
    ensures
        found == contents(list@).contains(tx@),
{
    let mut i: usize = 0;
    while i < list.len()
        invariant
            i <= list@.len(),
            forall|j: int| 0 <= j < i ==> contents(list@)[j] != tx@,
        decreases list@.len() - i,
    {
        if bytes_eq(list[i].as_slice(), tx) {
            assert(contents(list@)[i as int] == tx@);
            return true;
        }
        i = i + 1;
    }
    false
}

/// Searches the nonces from the block's own on for the first with which the
/// block is mined, and leaves it in the block. The answer is the hexadecimal
/// text of the hash, or nothing where no nonce up to the largest proves the work.
pub fn do_proof_of_work(block: &mut Block) -> (proof_hash: Option<String>)
    ensures
        final(block)@ == old(block)@.with_nonce(final(block)@.nonce),
        match proof_hash {
            Some(text) => old(block)@.first_proof(final(block)@.nonce) && text@ == hex_text(
                final(block)@.digest(),
            ),
            None => old(block)@.no_proof() && final(block)@.nonce == i32::MAX,
        },
{
    loop
        invariant
            block@ == old(block)@.with_nonce(block@.nonce),
            old(block)@.nonce <= block@.nonce,
            forall|n: i32|
                old(block)@.nonce <= n < block@.nonce ==> !(#[trigger] old(block)@.with_nonce(
                    n,
                )).is_mined(),
        decreases i32::MAX - block@.nonce,
    {
        let digest = block.hash();
        let (found, text) = check_difficulty(digest.as_slice());
        if found {
            return Some(text);
        }
        if block.nonce == i32::MAX {
            return None;
        }
        block.nonce = block.nonce + 1;
    }
}

impl BlockChain {
    #[verifier::type_invariant]
    closed spec fn inv(self) -> bool {
        self@.well_formed()
    }

    /// A chain for the miner at `address`: the first block, and behind it the
    /// block that pays the first reward, if its work could be proved.
    pub fn new(address: String) -> (chain: Self)
        ensures
            chain@.well_formed(),
            chain@.miner == address@,
            chain@.blocks[0].nonce == 0,
            chain@.blocks[0].previous_hash == genesis_seed(),
            chain@.blocks[0].transactions == Seq::<Seq<u8>>::empty(),
            1 <= chain@.blocks.len() <= 2,
            genesis_chain(address@, chain@.blocks[0].time_stamps).mined_once(
                chain@.blocks.len() == 2,
                chain@,
            ),
            chain@.blocks.len() == 2 ==> chain@.pool == Seq::<Seq<u8>>::empty()
                && chain@.blocks[1].transactions == first_pool(address@),
    {
        let genesis_time = time_stamp_now();
        let mining_time = time_stamp_now();
        BlockChain::new_at(address, genesis_time, mining_time)
    }

    /// The chain whose first block is stamped `genesis_time` and which was
    /// then mined once at `mining_time`.
    pub fn new_at(address: String, genesis_time: u128, mining_time: u128) -> (chain: Self)
        ensures
            chain@.well_formed(),
            chain@.miner == address@,
            chain@.blocks[0] == genesis_chain(address@, genesis_time).blocks[0],
            1 <= chain@.blocks.len() <= 2,
            genesis_chain(address@, genesis_time).mined(
                mining_time,
                chain@.blocks.len() == 2,
                chain@,
            ),
            chain@.blocks.len() == 2 ==> chain@.pool == Seq::<Seq<u8>>::empty()
                && chain@.blocks[1].transactions == first_pool(address@),
    {
        let genesis = Block::with_time_stamp(0, vec![0u8, 32u8], genesis_time);
        let mut blocks: Vec<Block> = Vec::new();
        blocks.push(genesis);
        let mut bc = BlockChain {
            transaction_pool: Vec::new(),
            chain: blocks,
            blockhain_address: address,
        };
        let ghost start = bc@;
        proof {
            assert(start.blocks =~= genesis_chain(address@, genesis_time).blocks);
            assert(start.pool =~= Seq::<Seq<u8>>::empty());
            assert(start == genesis_chain(address@, genesis_time));
            assert(start.with_reward().pool =~= first_pool(address@));
            reveal(ChainView::mined);
        }
        let done = bc.mining_at(mining_time);
        bc
    }

    /// The number of blocks.
    pub fn len(&self) -> (n: usize)
        ensures
            self@.well_formed(),
            n == self@.blocks.len(),
    {
        proof {
            use_type_invariant(self);
        }
        self.chain.len()
    }

    /// The block at `index`.
    pub fn index(&self, index: usize) -> (block: &Block)
        requires
            index < self@.blocks.len(),
        ensures
            self@.well_formed(),
            block@ == self@.blocks[index as int],
    {
        proof {
            use_type_invariant(self);
        }
        &self.chain[index]
    }

    /// The block at `index`, if the chain is that long.
    pub fn get(&self, index: usize) -> (block: Option<&Block>)
        ensures
            self@.well_formed(),
            match block {
                Some(b) => index < self@.blocks.len() && b@ == self@.blocks[index as int],
                None => index >= self@.blocks.len(),
            },
    {
        proof {
            use_type_invariant(self);
        }
        if index < self.chain.len() {
            Some(&self.chain[index])
        } else {
            None
        }
    }

    /// The pending transactions.
    pub fn transaction_pool(&self) -> (pool: &Vec<Vec<u8>>)
        ensures
            self@.well_formed(),
            contents(pool@) == self@.pool,
    {
        proof {
            use_type_invariant(self);
        }
        &self.transaction_pool
    }

    /// The address of the miner.
    pub fn blockchain_address(&self) -> (address: &String)
        ensures
            self@.well_formed(),
            address@ == self@.miner,
    {
        proof {
            use_type_invariant(self);
        }
        &self.blockhain_address
    }

    /// The last block of the chain.
    pub fn last_block(&self) -> (block: &Block)
        ensures
            self@.well_formed(),
            block@ == self@.blocks.last(),
    {
        proof {
            use_type_invariant(self);
        }
        &self.chain[self.chain.len() - 1]
    }
}

/// Wrapping a sum is adding the wrapped parts with wrap-around.
pub proof fn lemma_wrap_add(a: int, b: int)
    ensures
        wrap_i64(a).wrapping_add(wrap_i64(b)) == wrap_i64(a + b),
        wrap_i64(a).wrapping_sub(wrap_i64(b)) == wrap_i64(a - b),
{
    reveal(wrap_i64);
    let m: int = 0x1_0000_0000_0000_0000;
    let h: int = 0x8000_0000_0000_0000;
    lemma_fundamental_div_mod(a + h, m);
    lemma_fundamental_div_mod(b + h, m);
    lemma_mod_bound(a + h, m);
    lemma_mod_bound(b + h, m);
    let qa = (a + h) / m;
    let qb = (b + h) / m;
    let wa = (a + h) % m - h;
    let wb = (b + h) % m - h;
    let carry: int = if wa + wb > i64::MAX {
        1
    } else if wa + wb < i64::MIN {
        -1
    } else {
        0
    };
    lemma_fundamental_div_mod_converse(a + b + h, m, qa + qb + carry, wa + wb - carry * m + h);
    let borrow: int = if wa - wb > i64::MAX {
        1
    } else if wa - wb < i64::MIN {
        -1
    } else {
        0
    };
    lemma_fundamental_div_mod_converse(a - b + h, m, qa - qb + borrow, wa - wb - borrow * m + h);
}

/// A number of the signed 64-bit range is its own wrapping.
pub proof fn lemma_wrap_in_range(v: int)
    requires
        i64::MIN <= v <= i64::MAX,
    ensures
        wrap_i64(v) == v,
{
    reveal(wrap_i64);
    lemma_small_mod((v + 0x8000_0000_0000_0000) as nat, 0x1_0000_0000_0000_0000);
}

/// What one stored transaction adds to the balance of `address`, with wrap-around.
pub fn stored_total(bytes: &[u8], address: &[u8]) -> (total: i64)
    ensures
        total == wrap_i64(stored_effect(bytes@, address@)),
{
    let copy = copy_range(bytes, 0, bytes.len());
    assert(copy@ =~= bytes@);
    proof {
        lemma_wrap_in_range(0);
    }
    let tx = match Transaction::deserialization(copy) {
        Ok(t) => t,
        Err(_) => { return 0; },
    };
    let amount: i64 = binary64_floor_to_i64(tx.value_bits);
    let mut total: i64 = 0;
    proof {
        lemma_wrap_in_range(0);
        lemma_wrap_in_range(amount as int);
        lemma_wrap_add(0, amount as int);
        lemma_wrap_add(amount as int, amount as int);
    }
    if bytes_eq(tx.recipient_address.as_slice(), address) {
        total = total.wrapping_add(amount);
    }
    if bytes_eq(tx.sender_address.as_slice(), address) {
        total = total.wrapping_sub(amount);
    }
    total
}

/// What a list of stored transactions adds to the balance of `address`, with
/// wrap-around.
pub fn list_total(list: &Vec<Vec<u8>>, address: &[u8]) -> (total: i64)
    ensures
        total == wrap_i64(list_balance(contents(list@), address@)),
{
    let mut total: i64 = 0;
    let mut j: usize = 0;
    let ghost all = contents(list@);
    proof {
        lemma_wrap_in_range(0);
    }
    while j < list.len()
        invariant
            j <= list@.len(),
            all == contents(list@),
            total == wrap_i64(list_balance(all.take(j as int), address@)),
        decreases list@.len() - j,
    {
        let one = stored_total(list[j].as_slice(), address);
        proof {
            let next = all.take(j + 1);
            assert(next.drop_last() =~= all.take(j as int));
            assert(next.last() == list@[j as int]@);
            lemma_wrap_add(
                list_balance(all.take(j as int), address@),
                stored_effect(list@[j as int]@, address@),
            );
        }
        total = total.wrapping_add(one);
        j = j + 1;
    }
    assert(all.take(j as int) =~= all);
    total
}

impl BlockChain {
    /// Looks for the first block, in chain order, that is what `search` asks
    /// for, and hands back what was asked for where no block is.
    pub fn search_block(&self, search: BlockSearch) -> (result: BlockSearchResult<'_>)
        ensures
            self@.well_formed(),
            match first_match(self@.blocks, search@, 0) {
                Some(i) => result matches BlockSearchResult::Success(b) && b@ == self@.blocks[i],
                None => is_failure_of(result, search@),
            },
            result is Success <==> exists|i: int|
                0 <= i < self@.blocks.len() && block_matches(
                    #[trigger] self@.blocks[i],
                    i,
                    search@,
                ),
    {
        proof {
            use_type_invariant(self);
            lemma_first_match(self@.blocks, search@, 0);
        }
        // No chain is empty, so this answer is never given.
        if self.chain.is_empty() {
            return BlockSearchResult::FailOfEmptyBlocks;
        }
        let mut idx: usize = 0;
        while idx < self.chain.len()
            invariant
                idx <= self.chain@.len(),
                self@.well_formed(),
                first_match(self@.blocks, search@, 0) == first_match(
                    self@.blocks,
                    search@,
                    idx as int,
                ),
            decreases self.chain@.len() - idx,
        {
            let block = &self.chain[idx];
            let hit = match &search {
                BlockSearch::SearchByIndex(index) => idx == *index,
                BlockSearch::SearchByPreviousHash(hash) => bytes_eq(
                    block.previous_hash.as_slice(),
                    hash.as_slice(),
                ),
                BlockSearch::SearchByBlockHash(hash) => {
                    let digest = block.hash();
                    bytes_eq(digest.as_slice(), hash.as_slice())
                },
                BlockSearch::SearchByTimeStamp(ts) => block.time_stamps == *ts,
                BlockSearch::SearchByTransaction(transaction) => holds(
                    &block.transactions,
                    transaction.as_slice(),
                ),
                BlockSearch::SearchByNonce(nonce) => block.nonce == *nonce,
            };
            assert(hit == block_matches(self@.blocks[idx as int], idx as int, search@));
            if hit {
                return BlockSearchResult::Success(block);
            }
            idx = idx + 1;
        }
        match search {
            BlockSearch::SearchByIndex(idx) => BlockSearchResult::FailOfIndex(idx),
            BlockSearch::SearchByPreviousHash(hash) => BlockSearchResult::FailOfPreviousHash(hash),
            BlockSearch::SearchByBlockHash(hash) => BlockSearchResult::FailOfBlockHash(hash),
            BlockSearch::SearchByTimeStamp(ts) => BlockSearchResult::FailOfTimeStamp(ts),
            BlockSearch::SearchByTransaction(tx) => BlockSearchResult::FailOfTransaction(tx),
            BlockSearch::SearchByNonce(nonce) => BlockSearchResult::FailOfNonce(nonce),
        }
    }

    /// The balance of `address`: over every transaction of every block, the
    /// floor of the value where the address receives, less the same where it
    /// sends. The sum is exact where it is a signed 64-bit number, and wraps
    /// around where it is not.
    pub fn calculate_total_amount(&self, address: String) -> (total_amount: i64)
        ensures
            self@.well_formed(),
            total_amount == self@.balance(address@),
            i64::MIN <= chain_balance(self@.blocks, encode_utf8(address@)) <= i64::MAX
                ==> total_amount == chain_balance(self@.blocks, encode_utf8(address@)),
    {
        proof {
            use_type_invariant(self);
        }
        let address_bytes = address.as_str().as_bytes();
        let mut total_amount: i64 = 0;
        let mut i: usize = 0;
        let ghost blocks = self@.blocks;
        proof {
            lemma_wrap_in_range(0);
        }
        while i < self.chain.len()
            invariant
                i <= self.chain@.len(),
                blocks == self@.blocks,
                self@.well_formed(),
                address_bytes@ == encode_utf8(address@),
                total_amount == wrap_i64(chain_balance(blocks.take(i as int), address_bytes@)),
            decreases self.chain@.len() - i,
        {
            let in_block = list_total(&self.chain[i].transactions, address_bytes);
            proof {
                let next = blocks.take(i + 1);
                assert(next.drop_last() =~= blocks.take(i as int));
                assert(next.last() == self.chain@[i as int]@);
                lemma_wrap_add(
                    chain_balance(blocks.take(i as int), address_bytes@),
                    list_balance(next.last().transactions, address_bytes@),
                );
            }
            total_amount = total_amount.wrapping_add(in_block);
            i = i + 1;
        }
        proof {
            assert(blocks.take(i as int) =~= blocks);
            if i64::MIN <= chain_balance(blocks, address_bytes@) <= i64::MAX {
                lemma_wrap_in_range(chain_balance(blocks, address_bytes@));
            }
        }
        total_amount
    }

    /// Puts the encoding of a ledger transaction into the pool, unless the
    /// same encoding is pending already.
    pub fn add_ledger_transaction(&mut self, transaction: &Transaction) -> (admitted: Result<
        (),
        AdmissionError,
    >)
        ensures
            old(self)@.well_formed(),
            final(self)@.well_formed(),
            match old(self)@.pool_admission(transaction@) {
                Ok(bytes) => admitted is Ok && final(self)@ == old(self)@.with_pending(bytes),
                Err(e) => admitted == Err::<(), AdmissionError>(e) && final(self)@ == old(self)@,
            },
    {
        proof {
            use_type_invariant(&*self);
        }
        let bytes = transaction.serialization();
        if holds(&self.transaction_pool, bytes.as_slice()) {
            return Err(AdmissionError::DuplicateTransaction);
        }
        proof {
            lemma_round_trip(*transaction);
            let after = old(self)@.with_pending(bytes@);
            assert(contents(self.transaction_pool@.push(bytes)) =~= after.pool);
            assert forall|i: int, j: int| 0 <= i < j < after.pool.len() implies after.pool[i]
                != after.pool[j] by {
                if j == after.pool.len() - 1 {
                    assert(old(self)@.pool[i] == after.pool[i]);
                }
            }
        }
        let mut pool: Vec<Vec<u8>> = Vec::new();
        core::mem::swap(&mut self.transaction_pool, &mut pool);
        pool.push(bytes);
        core::mem::swap(&mut self.transaction_pool, &mut pool);
        assert(self@ == old(self)@.with_pending(bytes@));
        Ok(())
    }

    /// Admits a signed transaction to the pool. The checks come in this
    /// order: the miner does not pay through this door; but for the chain's
    /// own rewards the signature must verify and the sender's balance must
    /// cover the amount; and the same encoding must not be pending.
    pub fn try_add_transaction(&mut self, tx: &WalletTransaction) -> (admitted: Result<
        (),
        AdmissionError,
    >)
        ensures
            old(self)@.well_formed(),
            final(self)@.well_formed(),
            match old(self)@.admission(tx@) {
                Ok(bytes) => admitted is Ok && final(self)@ == old(self)@.with_pending(bytes),
                Err(e) => admitted == Err::<(), AdmissionError>(e) && final(self)@ == old(self)@,
            },
    {
        proof {
            use_type_invariant(&*self);
        }
        if tx.sender == self.blockhain_address {
            return Err(AdmissionError::SelfPayment);
        }
        let reserved = MINING_SENDER.to_owned();
        if tx.sender != reserved {
            if !Wallet::verify_transaction(tx) {
                return Err(AdmissionError::InvalidSignature);
            }
            let balance = self.calculate_total_amount(tx.sender.clone());
            if balance < 0 || (balance as u64) < tx.amount {
                return Err(AdmissionError::InsufficientBalance);
            }
        }
        let sender = copy_range(tx.sender.as_str().as_bytes(), 0, tx.sender.as_str().as_bytes().len());
        let recipient = copy_range(
            tx.recipient.as_str().as_bytes(),
            0,
            tx.recipient.as_str().as_bytes().len(),
        );
        assert(sender@ =~= encode_utf8(tx@.sender));
        assert(recipient@ =~= encode_utf8(tx@.recipient));
        let transaction = Transaction::new(sender, recipient, binary64_from_u64(tx.amount));
        self.add_ledger_transaction(&transaction)
    }

    /// Admits a signed transaction to the pool, and says whether it did.
    pub fn add_transaction(&mut self, tx: &WalletTransaction) -> (admitted: bool)
        ensures
            old(self)@.well_formed(),
            final(self)@.well_formed(),
            match old(self)@.admission(tx@) {
                Ok(bytes) => admitted && final(self)@ == old(self)@.with_pending(bytes),
                Err(_) => !admitted && final(self)@ == old(self)@,
            },
    {
        match self.try_add_transaction(tx) {
            Ok(_) => true,
            Err(_) => false,
        }
    }

    /// Makes a block from the pool, stamped `time_stamps`: where
    /// `previous_hash` is the hash of the last block and a nonce from `nonce`
    /// on proves the work, the block joins the chain with the first such
    /// nonce and the pool is emptied. Else nothing changes.
    pub fn create_block_at(&mut self, nonce: i32, previous_hash: Vec<u8>, time_stamps: u128) -> (done:
        bool)
        ensures
            old(self)@.well_formed(),
            final(self)@.well_formed(),
            old(self)@.block_created(nonce, previous_hash@, time_stamps, done, final(self)@),
    {
        proof {
            use_type_invariant(&*self);
        }
        let last_hash = self.last_block().hash();
        if !bytes_eq(previous_hash.as_slice(), last_hash.as_slice()) {
            return false;
        }
        let mut block = Block::with_time_stamp(nonce, previous_hash, time_stamps);
        let ghost before = old(self)@;
        core::mem::swap(&mut self.transaction_pool, &mut block.transactions);
        assert(block@ == before.candidate(nonce, previous_hash@, time_stamps));
        match do_proof_of_work(&mut block) {
            None => {
                core::mem::swap(&mut self.transaction_pool, &mut block.transactions);
                assert(self@.pool =~= before.pool);
                assert(self@ == before);
                false
            },
            Some(_) => {
                let ghost found = block@;
                // The chain is never empty: a first block stands in for it
                // while the new block is appended.
                let mut blocks: Vec<Block> = Vec::new();
                blocks.push(Block::with_time_stamp(0, vec![0u8, 32u8], 0));
                assert(blocks@[0]@.previous_hash =~= genesis_seed());
                core::mem::swap(&mut self.chain, &mut blocks);
                proof {
                    let after = before.blocks.push(found);
                    assert(Seq::new(blocks@.push(block).len(), |i: int| blocks@.push(block)[i]@)
                        =~= after);
                    assert forall|i: int| 0 < i < after.len() implies (#[trigger] after[i]).previous_hash
                        == after[i - 1].digest() by {
                        if i < before.blocks.len() {
                            assert(after[i] == before.blocks[i]);
                        }
                    }
                    assert forall|i: int| 0 < i < after.len() implies (#[trigger] after[i]).is_mined() by {
                        if i < before.blocks.len() {
                            assert(after[i] == before.blocks[i]);
                        }
                    }
                    assert forall|i: int, j: int|
                        0 <= i < after.len() && 0 <= j < after[i].transactions.len()
                            implies is_ledger_encoding(#[trigger] after[i].transactions[j]) by {
                        if i < before.blocks.len() {
                            assert(after[i] == before.blocks[i]);
                        } else {
                            assert(after[i].transactions[j] == before.pool[j]);
                        }
                    }
                }
                blocks.push(block);
                core::mem::swap(&mut self.chain, &mut blocks);
                assert(self@.pool =~= Seq::<Seq<u8>>::empty());
                true
            },
        }
    }

    /// Makes a block from the pool as `create_block_at` does, stamped with
    /// the time at which it is made.
    pub fn create_block(&mut self, nonce: i32, previous_hash: Vec<u8>) -> (done: bool)
        ensures
            old(self)@.well_formed(),
            final(self)@.well_formed(),
            exists|time_stamps: u128|
                old(self)@.block_created(nonce, previous_hash@, time_stamps, done, final(self)@),
    {
        let time_stamps = time_stamp_now();
        let done = self.create_block_at(nonce, previous_hash, time_stamps);
        assert(old(self)@.block_created(nonce, previous_hash@, time_stamps, done, self@));
        done
    }

    /// Mines at `time_stamps`: admits the miner's reward if it can be
    /// admitted, then makes a block from the pool behind the last block.
    pub fn mining_at(&mut self, time_stamps: u128) -> (done: bool)
        ensures
            old(self)@.well_formed(),
            final(self)@.well_formed(),
            final(self)@.miner == old(self)@.miner,
            old(self)@.mined(time_stamps, done, final(self)@),
            done ==> final(self)@.pool == Seq::<Seq<u8>>::empty(),
    {
        proof {
            use_type_invariant(&*self);
        }
        let tx = WalletTransaction {
            sender: MINING_SENDER.to_owned(),
            recipient: self.blockhain_address.clone(),
            amount: MINING_REWARD,
            public_key: String::new(),
            signature: String::new(),
        };
        assert(tx@ == reward_for(old(self)@.miner));
        proof {
            reveal(ChainView::mined);
        }
        self.add_transaction(&tx);
        let previous_hash = self.last_block().hash();
        self.create_block_at(0, previous_hash, time_stamps)
    }

    /// Mines now: admits the miner's reward if it can be admitted, then makes
    /// a block from the pool behind the last block. After a block was made the
    /// pool is empty.
    pub fn mining(&mut self) -> (done: bool)
        ensures
            old(self)@.well_formed(),
            final(self)@.well_formed(),
            final(self)@.miner == old(self)@.miner,
            old(self)@.mined_once(done, final(self)@),
            done ==> final(self)@.pool == Seq::<Seq<u8>>::empty(),
            done ==> final(self)@.blocks.len() == old(self)@.blocks.len() + 1,
            !done ==> final(self)@.blocks == old(self)@.blocks,
    {
        let time_stamps = time_stamp_now();
        let done = self.mining_at(time_stamps);
        proof {
            reveal(ChainView::mined);
            assert(old(self)@.mined(time_stamps, done, self@));
        }
        done
    }
}

/// A transfer of less than two to the power 53 counts in full: for the
/// recipient the amount, for the sender its negative.
pub proof fn lemma_exact_effect(tx: SignedView, address: Seq<u8>)
    requires
        tx.amount < pow2(53),
    ensures
        entry_effect(ledger_entry_of(tx), address) == (if encode_utf8(tx.recipient) == address {
            tx.amount as int
        } else {
            0
        }) - (if encode_utf8(tx.sender) == address {
            tx.amount as int
        } else {
            0
        }),
{
    lemma_binary64_exact(tx.amount);
    lemma2_to64_rest();
}

/// In every chain each block but the first names the hash of the block before it.
pub proof fn lemma_blocks_are_linked(chain: ChainView, i: int)
    requires
        chain.well_formed(),
        0 < i < chain.blocks.len(),
    ensures
        chain.blocks[i].previous_hash == chain.blocks[i - 1].digest(),
{
}

/// In every chain the hexadecimal text of the hash of each block but the first
/// starts with `DIFFICULTY` zeros.
pub proof fn lemma_blocks_are_mined(chain: ChainView, i: int)
    requires
        chain.well_formed(),
        0 < i < chain.blocks.len(),
    ensures
        hex_text(chain.blocks[i].digest()).len() >= DIFFICULTY,
        forall|k: int| 0 <= k < DIFFICULTY ==> hex_text(chain.blocks[i].digest())[k] == '0',
{
    assert(chain.blocks[i].is_mined());
}

/// A chain that was mined with success has an empty pool, one block more, and
/// in that block the pool as it stood once the reward was dealt with.
pub proof fn lemma_mined_chain(before: ChainView, time_stamps: u128, after: ChainView)
    requires
        before.well_formed(),
        before.mined(time_stamps, true, after),
    ensures
        after.pool == Seq::<Seq<u8>>::empty(),
        after.blocks.len() == before.blocks.len() + 1,
        after.blocks.last().transactions == before.with_reward().pool,
        after.blocks.last().previous_hash == before.blocks.last().digest(),
        after.blocks.last().time_stamps == time_stamps,
        after.blocks.last().is_mined(),
        forall|i: int| 0 <= i < before.blocks.len() ==> after.blocks[i] == before.blocks[i],
{
    reveal(ChainView::mined);
}

} // verus!
