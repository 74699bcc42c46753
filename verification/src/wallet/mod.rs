//! Wallets: a P-256 key pair, the address derived from the public key, and the
//! signing and verifying of transactions.
use vstd::prelude::*;
use vstd::string::*;
use vstd::utf8::encode_utf8;
use crate::bytes::{bytes_eq, copy_range, push_all};
use crate::crypto::{
    base58, base58_encode, ecdsa_signature, ecdsa_verifies, p256_public, p256_public_key,
    p256_random_secret, p256_sign, p256_verify, ripemd160, ripemd160_digest, sha256, sha256_digest,
};
use crate::encoding::{
    decimal_text, decode_hex, encode_hex, hex_bytes, hex_text, is_hex_text, json_string,
    lemma_hex_round_trip, push_decimal, push_json_string,
};

verus! {

/// The version byte that every address payload starts with.
pub const ADDRESS_VERSION: u8 = 0;

/// What a wallet shows of itself, as texts.
#[derive(Debug, Clone)]
pub struct WalletData {
    pub public_key: String,
    pub private_key: String,
    pub blockchain_address: String,
}

/// A transfer as the wallet signs it and the chain receives it.
#[derive(Clone, Debug)]
pub struct Transaction {
    pub sender: String,
    pub recipient: String,
    pub amount: u64,
    pub public_key: String,
    pub signature: String,
}

/// What a signed transaction says.
pub struct SignedView {
    pub sender: Seq<char>,
    pub recipient: Seq<char>,
    pub amount: u64,
    pub public_key: Seq<char>,
    pub signature: Seq<char>,
}

impl View for Transaction {
    type V = SignedView;

    open spec fn view(&self) -> SignedView {
        SignedView {
            sender: self.sender@,
            recipient: self.recipient@,
            amount: self.amount,
            public_key: self.public_key@,
            signature: self.signature@,
        }
    }
}

/// The JSON text that a signature covers: the five fields in their fixed
/// order, the signature left empty.
pub open spec fn signing_text(tx: SignedView) -> Seq<char> {
    "{\"sender\":"@ + json_string(tx.sender) + ",\"recipient\":"@ + json_string(tx.recipient)
        + ",\"amount\":"@ + decimal_text(tx.amount as nat) + ",\"public_key\":"@ + json_string(
        tx.public_key,
    ) + ",\"signature\":"@ + json_string(Seq::empty()) + "}"@
}

/// The bytes that a signature covers.
pub open spec fn signing_message(tx: SignedView) -> Seq<u8> {
    encode_utf8(signing_text(tx))
}

/// Whether the signature of a transaction is 64 bytes in hexadecimal, the
/// public key is hexadecimal too, and the signature verifies for the signing
/// message under that key in its uncompressed SEC1 form.
pub open spec fn verifies(tx: SignedView) -> bool {
    &&& is_hex_text(tx.signature)
    &&& hex_bytes(tx.signature).len() == 64
    &&& is_hex_text(tx.public_key)
    &&& ecdsa_verifies(
        seq![4u8] + hex_bytes(tx.public_key),
        signing_message(tx),
        hex_bytes(tx.signature),
    )
}

/// The version byte and the RIPEMD-160 digest of the SHA-256 digest of a
/// public point.
pub open spec fn versioned_digest(point: Seq<u8>) -> Seq<u8> {
    seq![ADDRESS_VERSION] + ripemd160(sha256(point))
}

/// The first four bytes of the double SHA-256 digest.
pub open spec fn checksum(data: Seq<u8>) -> Seq<u8> {
    sha256(sha256(data)).subrange(0, 4)
}

/// The bytes that an address encodes: the versioned digest and its checksum.
pub open spec fn address_payload(point: Seq<u8>) -> Seq<u8> {
    versioned_digest(point) + checksum(versioned_digest(point))
}

/// The address of a public point: the Base58 text of the payload.
pub open spec fn address_of(point: Seq<u8>) -> Seq<char> {
    base58(address_payload(point))
}

/// The 21 bytes in front of the checksum of a payload of 25 bytes whose
/// checksum is right.
pub open spec fn checked_payload(payload: Seq<u8>) -> Option<Seq<u8>> {
    if payload.len() == 25 && checksum(payload.subrange(0, 21)) == payload.subrange(21, 25) {
        Some(payload.subrange(0, 21))
    } else {
        None
    }
}

/// Checking the payload of an address recovers the versioned digest.
pub proof fn lemma_address_payload_checks(point: Seq<u8>)
    requires
        ripemd160(sha256(point)).len() == 20,
        sha256(sha256(versioned_digest(point))).len() == 32,
    ensures
        address_payload(point).len() == 25,
        checked_payload(address_payload(point)) == Some(versioned_digest(point)),
{
    let head = versioned_digest(point);
    let payload = address_payload(point);
    assert(payload.subrange(0, 21) =~= head);
    assert(payload.subrange(21, 25) =~= checksum(head));
}

/// The first four bytes of the double SHA-256 digest of `data`.
pub fn checksum_of(data: &[u8]) -> (sum: Vec<u8>)
    ensures
        sum@ == checksum(data@),
        sum@.len() == 4,
        sha256(sha256(data@)).len() == 32,
{
    let once = sha256_digest(data);
    let twice = sha256_digest(once.as_slice());
    copy_range(twice.as_slice(), 0, 4)
}

/// The payload of the address of a public point: 25 bytes that pass their
/// own check.
pub fn payload_of(point: &[u8]) -> (payload: Vec<u8>)
    ensures
        payload@ == address_payload(point@),
        payload@.len() == 25,
        checked_payload(payload@) == Some(versioned_digest(point@)),
{
    let first = sha256_digest(point);
    let second = ripemd160_digest(first.as_slice());
    let mut payload: Vec<u8> = Vec::new();
    payload.push(ADDRESS_VERSION);
    push_all(&mut payload, second.as_slice());
    assert(payload@ =~= versioned_digest(point@));
    let sum = checksum_of(payload.as_slice());
    push_all(&mut payload, sum.as_slice());
    proof {
        lemma_address_payload_checks(point@);
    }
    payload
}

/// The versioned digest of a payload of 25 bytes whose checksum is right.
pub fn check_payload(payload: &[u8]) -> (head: Option<Vec<u8>>)
    ensures
        match checked_payload(payload@) {
            Some(h) => head is Some && head.unwrap()@ == h,
            None => head is None,
        },
{
    if payload.len() != 25 {
        return None;
    }
    let head = copy_range(payload, 0, 21);
    let sum = checksum_of(head.as_slice());
    let given = copy_range(payload, 21, 25);
    if bytes_eq(sum.as_slice(), given.as_slice()) {
        Some(head)
    } else {
        None
    }
}

/// The address of a public point.
pub fn derive_address(point: &[u8]) -> (address: String)
    ensures
        address@ == address_of(point@),
{
    let payload = payload_of(point);
    base58_encode(payload.as_slice())
}

/// The JSON text that the signature of a transaction covers.
pub fn signing_text_of(tx: &Transaction) -> (text: String)
    ensures
        text@ == signing_text(tx@),
{
    let mut text = String::new();
    text.append("{\"sender\":");
    push_json_string(&mut text, tx.sender.as_str());
    text.append(",\"recipient\":");
    push_json_string(&mut text, tx.recipient.as_str());
    text.append(",\"amount\":");
    push_decimal(&mut text, tx.amount);
    text.append(",\"public_key\":");
    push_json_string(&mut text, tx.public_key.as_str());
    text.append(",\"signature\":");
    let empty = String::new();
    push_json_string(&mut text, empty.as_str());
    text.append("}");
    assert(text@ =~= signing_text(tx@));
    text
}

/// What a wallet holds.
pub struct WalletView {
    /// The secret scalar, 32 bytes.
    pub secret: Seq<u8>,
    /// The public point: `X` then `Y`, 32 bytes each.
    pub public_point: Seq<u8>,
    pub address: Seq<char>,
}

impl WalletView {
    /// Whether the public point belongs to the secret and the address to the
    /// public point.
    pub open spec fn well_formed(self) -> bool {
        &&& self.secret.len() == 32
        &&& self.public_point.len() == 64
        &&& p256_public_key(self.secret) == Some(seq![4u8] + self.public_point)
        &&& self.address == address_of(self.public_point)
    }

    /// The transaction from this wallet to `recipient`, not signed yet.
    pub open spec fn draft(self, recipient: Seq<char>, amount: u64) -> SignedView {
        SignedView {
            sender: self.address,
            recipient,
            amount,
            public_key: hex_text(self.public_point),
            signature: Seq::empty(),
        }
    }
}

/// Whether three texts are the public key, the private key and the address of
/// one wallet.
pub open spec fn is_wallet_data(data: WalletData) -> bool {
    exists|wallet: WalletView|
        {
            &&& wallet.well_formed()
            &&& data.public_key@ == #[trigger] hex_text(wallet.public_point)
            &&& data.private_key@ == hex_text(wallet.secret)
            &&& data.blockchain_address@ == wallet.address
        }
}

/// Whether a text is the address of a wallet.
pub open spec fn is_wallet_address(address: Seq<char>) -> bool {
    exists|wallet: WalletView| wallet.well_formed() && #[trigger] wallet.address == address
}

/// A P-256 key pair and the address that belongs to it.
pub struct Wallet {
    secret: Vec<u8>,
    public_point: Vec<u8>,
    address: String,
}

impl View for Wallet {
    type V = WalletView;

    closed spec fn view(&self) -> WalletView {
        WalletView {
            secret: self.secret@,
            public_point: self.public_point@,
            address: self.address@,
        }
    }
}

impl Wallet {
    #[verifier::type_invariant]
    closed spec fn inv(self) -> bool {
        self@.well_formed()
    }

    /// A wallet with a fresh key pair from the operating system's random source.
    pub fn new() -> (wallet: Self)
        ensures
            wallet@.well_formed(),
    {
        let secret = p256_random_secret();
        Wallet::from_secret(secret).unwrap()
    }

    /// The wallet of a secret scalar of 32 bytes; nothing where the bytes are
    /// no 32 bytes or no secret scalar.
    pub fn from_secret(secret: Vec<u8>) -> (wallet: Option<Self>)
        ensures
            wallet is Some <==> secret@.len() == 32 && p256_public_key(secret@) is Some,
            wallet is Some ==> wallet.unwrap()@.well_formed() && wallet.unwrap()@.secret
                == secret@,
    {
        if secret.len() != 32 {
            return None;
        }
        let encoded = match p256_public(secret.as_slice()) {
            Some(k) => k,
            None => { return None; },
        };
        let public_point = copy_range(encoded.as_slice(), 1, 65);
        assert(seq![4u8] + public_point@ =~= encoded@);
        let address = derive_address(public_point.as_slice());
        Some(Wallet { secret, public_point, address })
    }

    /// The wallet of a secret scalar written as 64 hexadecimal digits; nothing
    /// where the text is no such thing.
    pub fn from_private_key_str(text: &str) -> (wallet: Option<Self>)
        ensures
            wallet is Some <==> is_hex_text(text@) && hex_bytes(text@).len() == 32
                && p256_public_key(hex_bytes(text@)) is Some,
            wallet is Some ==> wallet.unwrap()@.well_formed() && wallet.unwrap()@.secret
                == hex_bytes(text@),
    {
        match decode_hex(text) {
            Ok(secret) => Wallet::from_secret(secret),
            Err(_) => None,
        }
    }

    /// The public key, the private key and the address as texts.
    pub fn get_wallet_data(&self) -> (data: WalletData)
        ensures
            self@.well_formed(),
            data.public_key@ == hex_text(self@.public_point),
            data.private_key@ == hex_text(self@.secret),
            data.blockchain_address@ == self@.address,
            is_wallet_data(data),
    {
        WalletData {
            public_key: self.public_key_str(),
            private_key: self.private_key_str(),
            blockchain_address: self.get_adress(),
        }
    }

    /// The public point in hexadecimal: `X` then `Y`, without a prefix.
    pub fn public_key_str(&self) -> (text: String)
        ensures
            self@.well_formed(),
            text@ == hex_text(self@.public_point),
    {
        proof {
            use_type_invariant(self);
        }
        encode_hex(self.public_point.as_slice())
    }

    /// The secret scalar in hexadecimal.
    pub fn private_key_str(&self) -> (text: String)
        ensures
            self@.well_formed(),
            text@ == hex_text(self@.secret),
    {
        proof {
            use_type_invariant(self);
        }
        encode_hex(self.secret.as_slice())
    }

    /// The address of the wallet.
    pub fn get_adress(&self) -> (address: String)
        ensures
            self@.well_formed(),
            address@ == self@.address,
            is_wallet_address(address@),
    {
        proof {
            use_type_invariant(self);
        }
        self.address.clone()
    }

    /// The transaction that pays `amount` from this wallet to `receiver`, with
    /// the wallet's signature over its signing message; nothing where no
    /// signature is made. What comes back verifies.
    pub fn sign_transaction(&self, receiver: &String, amount: u64) -> (signed: Option<Transaction>)
        ensures
            self@.well_formed(),
            match ecdsa_signature(
                self@.secret,
                signing_message(self@.draft(receiver@, amount)),
            ) {
                Some(s) => signed is Some && signed.unwrap()@ == (SignedView {
                    signature: hex_text(s),
                    ..self@.draft(receiver@, amount)
                }),
                None => signed is None,
            },
            signed is Some ==> verifies(signed.unwrap()@),
    {
        proof {
            use_type_invariant(self);
        }
        let mut transaction = Transaction {
            sender: self.address.clone(),
            recipient: receiver.clone(),
            amount,
            signature: String::new(),
            public_key: self.public_key_str(),
        };
        let text = signing_text_of(&transaction);
        let made = p256_sign(self.secret.as_slice(), text.as_str().as_bytes());
        match made {
            Some(signature) => {
                transaction.signature = encode_hex(signature.as_slice());
                proof {
                    lemma_hex_round_trip(self@.public_point);
                    assert(signing_text(transaction@) == signing_text(
                        self@.draft(receiver@, amount),
                    ));
                }
                Some(transaction)
            },
            None => None,
        }
    }

    /// Whether the signature of a transaction verifies under the public key
    /// that the transaction names.
    pub fn verify_transaction(transaction: &Transaction) -> (valid: bool)
        ensures
            valid == verifies(transaction@),
    {
        let signature = match decode_hex(transaction.signature.as_str()) {
            Ok(s) => s,
            Err(_) => { return false; },
        };
        if signature.len() != 64 {
            return false;
        }
        let point = match decode_hex(transaction.public_key.as_str()) {
            Ok(p) => p,
            Err(_) => { return false; },
        };
        let mut key: Vec<u8> = Vec::new();
        key.push(4u8);
        push_all(&mut key, point.as_slice());
        assert(key@ =~= seq![4u8] + hex_bytes(transaction@.public_key));
        let text = signing_text_of(transaction);
        p256_verify(key.as_slice(), text.as_str().as_bytes(), signature.as_slice())
    }
}

} // verus!
