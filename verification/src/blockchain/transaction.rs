//! The ledger form of a transaction and its binary encoding.
//!
//! A transaction is stored as three length-prefixed fields, each length an
//! eight-byte big-endian number: the sender's address, the recipient's address
//! and the value, which is the eight bytes of an IEEE-754 binary64 number,
//! most significant first.
use vstd::prelude::*;
use crate::blockchain::Serialization;
use crate::bytes::{
    be_bytes, be_value, copy_range, lemma_be_bytes_len, lemma_be_value_bound,
    lemma_be_value_of_be_bytes, lemma_pow256_values, pow256, push_all, push_be, read_be_u64,
};
use crate::error::CodecError;

verus! {

/// What a ledger transaction says: who pays, who receives, and the bit pattern
/// of the binary64 value.
pub struct LedgerEntry {
    pub sender: Seq<u8>,
    pub recipient: Seq<u8>,
    pub value_bits: u64,
}

/// A transfer as blocks and the pool store it.
#[derive(Debug, Clone)]
pub struct Transaction {
    pub sender_address: Vec<u8>,
    pub recipient_address: Vec<u8>,
    /// The bit pattern of the binary64 value.
    pub value_bits: u64,
}

impl View for Transaction {
    type V = LedgerEntry;

    open spec fn view(&self) -> LedgerEntry {
        LedgerEntry {
            sender: self.sender_address@,
            recipient: self.recipient_address@,
            value_bits: self.value_bits,
        }
    }
}

/// One field with its length in front.
pub open spec fn field(content: Seq<u8>) -> Seq<u8> {
    be_bytes(content.len(), 8) + content
}

/// The binary form of a ledger entry.
pub open spec fn encoding(entry: LedgerEntry) -> Seq<u8> {
    field(entry.sender) + field(entry.recipient) + field(be_bytes(entry.value_bits as nat, 8))
}

/// The content of the length-prefixed field that starts at `pos`, if `bytes`
/// holds all of it.
pub open spec fn field_at(bytes: Seq<u8>, pos: int) -> Option<Seq<u8>> {
    if pos < 0 || pos + 8 > bytes.len() {
        None
    } else {
        let n = be_value(bytes.subrange(pos, pos + 8));
        if pos + 8 + n > bytes.len() {
            None
        } else {
            Some(bytes.subrange(pos + 8, pos + 8 + n))
        }
    }
}

/// The ledger entry that `bytes` begins with. Bytes after the value field are
/// not looked at.
pub open spec fn decoding(bytes: Seq<u8>) -> Result<LedgerEntry, CodecError> {
    match field_at(bytes, 0) {
        None => Err(CodecError::Length),
        Some(sender) => match field_at(bytes, 8 + sender.len() as int) {
            None => Err(CodecError::Length),
            Some(recipient) => match field_at(
                bytes,
                16 + sender.len() as int + recipient.len() as int,
            ) {
                None => Err(CodecError::Length),
                Some(value) => if value.len() != 8 {
                    Err(CodecError::ValueWidth)
                } else {
                    Ok(
                        LedgerEntry {
                            sender,
                            recipient,
                            value_bits: be_value(value) as u64,
                        },
                    )
                },
            },
        },
    }
}

/// Reads the length-prefixed field that starts at `pos`.
pub fn read_field(bytes: &[u8], pos: usize) -> (content: Option<Vec<u8>>)
    requires
        pos <= bytes@.len(),
    ensures
        match field_at(bytes@, pos as int) {
            Some(c) => content is Some && content.unwrap()@ == c,
            None => content is None,
        },
        content is Some ==> pos + 8 + content.unwrap()@.len() <= bytes@.len(),
{
    let total: usize = bytes.len();
    if total - pos < 8 {
        return None;
    }
    let announced: u64 = read_be_u64(bytes, pos);
    let left: usize = total - pos - 8;
    if announced > left as u64 {
        return None;
    }
    let start: usize = pos + 8;
    let end: usize = start + announced as usize;
    Some(copy_range(bytes, start, end))
}

/// A field read out of an encoding that holds it at `pos` is the field's content.
pub proof fn lemma_field_at(before: Seq<u8>, content: Seq<u8>, after: Seq<u8>)
    requires
        content.len() < pow256(8),
    ensures
        field_at(before + field(content) + after, before.len() as int) == Some(content),
{
    let all = before + field(content) + after;
    let pos = before.len() as int;
    lemma_be_bytes_len(content.len(), 8);
    lemma_be_value_of_be_bytes(content.len(), 8);
    assert(all.subrange(pos, pos + 8) =~= be_bytes(content.len(), 8));
    assert(all.subrange(pos + 8, pos + 8 + content.len()) =~= content);
}

/// Decoding the encoding of a ledger entry gives the entry back.
pub proof fn lemma_decoding_of_encoding(entry: LedgerEntry)
    requires
        entry.sender.len() < pow256(8),
        entry.recipient.len() < pow256(8),
    ensures
        decoding(encoding(entry)) == Ok::<LedgerEntry, CodecError>(entry),
{
    let value = be_bytes(entry.value_bits as nat, 8);
    let all = encoding(entry);
    lemma_pow256_values();
    lemma_be_bytes_len(entry.value_bits as nat, 8);
    lemma_be_bytes_len(entry.sender.len(), 8);
    lemma_be_bytes_len(entry.recipient.len(), 8);
    lemma_be_value_of_be_bytes(entry.value_bits as nat, 8);
    lemma_field_at(Seq::empty(), entry.sender, field(entry.recipient) + field(value));
    assert(all =~= Seq::<u8>::empty() + field(entry.sender) + (field(entry.recipient) + field(
        value,
    )));
    lemma_field_at(field(entry.sender), entry.recipient, field(value));
    assert(field(entry.sender).len() == 8 + entry.sender.len());
    lemma_field_at(field(entry.sender) + field(entry.recipient), value, Seq::empty());
    assert(all =~= field(entry.sender) + field(entry.recipient) + field(value) + Seq::<
        u8,
    >::empty());
    assert((field(entry.sender) + field(entry.recipient)).len() == 16 + entry.sender.len()
        + entry.recipient.len());
}

/// Every ledger transaction is read back from its own encoding.
pub proof fn lemma_round_trip(tx: Transaction)
    ensures
        decoding(encoding(tx@)) == Ok::<LedgerEntry, CodecError>(tx@),
{
    lemma_pow256_values();
    assert(tx.sender_address@.len() == tx.sender_address.len());
    assert(tx.recipient_address@.len() == tx.recipient_address.len());
    lemma_decoding_of_encoding(tx@);
}

impl Transaction {
    /// A transaction with the given addresses and binary64 bit pattern.
    pub fn new(sender: Vec<u8>, receipient: Vec<u8>, value_bits: u64) -> (tx: Transaction)
        ensures
            tx.sender_address == sender,
            tx.recipient_address == receipient,
            tx.value_bits == value_bits,
    {
        Transaction { sender_address: sender, recipient_address: receipient, value_bits }
    }
}

impl Serialization<Transaction> for Transaction {
    fn serialization(&self) -> (bin: Vec<u8>)
        ensures
            bin@ == encoding(self@),
    {
        let mut bin: Vec<u8> = Vec::new();
        push_be(&mut bin, self.sender_address.len() as u128, 8);
        push_all(&mut bin, self.sender_address.as_slice());
        push_be(&mut bin, self.recipient_address.len() as u128, 8);
        push_all(&mut bin, self.recipient_address.as_slice());
        push_be(&mut bin, 8, 8);
        push_be(&mut bin, self.value_bits as u128, 8);
        proof {
            lemma_be_bytes_len(self.value_bits as nat, 8);
            assert(bin@ =~= encoding(self@));
        }
        bin
    }

    fn deserialization(byte: Vec<u8>) -> (tx: Result<Transaction, CodecError>)
        ensures
            match decoding(byte@) {
                Ok(entry) => tx is Ok && tx.unwrap()@ == entry,
                Err(e) => tx == Err::<Transaction, CodecError>(e),
            },
    {
        let bytes: &[u8] = byte.as_slice();
        let total: usize = bytes.len();
        let sender = match read_field(bytes, 0) {
            Some(s) => s,
            None => { return Err(CodecError::Length); },
        };
        let at_recipient: usize = 8 + sender.len();
        let recipient = match read_field(bytes, at_recipient) {
            Some(r) => r,
            None => { return Err(CodecError::Length); },
        };
        let at_value: usize = at_recipient + 8 + recipient.len();
        let value = match read_field(bytes, at_value) {
            Some(v) => v,
            None => { return Err(CodecError::Length); },
        };
        if value.len() != 8 {
            return Err(CodecError::ValueWidth);
        }
        let value_bits: u64 = read_be_u64(value.as_slice(), 0);
        proof {
            assert(value@.subrange(0, 8) =~= value@);
            lemma_be_value_bound(value@);
            lemma_pow256_values();
        }
        Ok(Transaction { sender_address: sender, recipient_address: recipient, value_bits })
    }
}

} // verus!
