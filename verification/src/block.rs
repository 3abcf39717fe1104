//! The block data model: transactions, blocks, their canonical JSON encoding,
//! the block hash, and the proof-of-work search over the nonce.

use std::io::Write;
use vstd::prelude::*;
use vstd::string::StrSliceExecFns;
use vstd::string::StringExecFns;
use crate::digest::{sha256_hex, sha256_hex_digest};
use crate::encode::{
    push_char,
    push_dec_i64,
    push_dec_u64,
    push_json_string,
    spec_dec_i64,
    spec_dec_u64,
    spec_json_string,
};

verus! {

/// The default difficulty prefix: an accepted block's hash begins with it.
pub const PREFIX: &'static str = "00";

/// An opaque payload unit carried by a block.
pub struct Transaction {
    pub transaction_id: String,
    pub transaction_timestamp: i64,
    pub transaction_details: String,
}

/// An ordered container of transactions with linkage metadata: its position
/// in the chain, the nonce found by mining, and the predecessor's hash.
pub struct Block {
    pub block_number: u64,
    pub block_timestamp: i64,
    pub block_nonce: u64,
    pub transaction_list: Vec<Transaction>,
    pub previous_block_hash: String,
}

/// The canonical JSON encoding of one transaction: an object with the three
/// fields in declaration order, no whitespace.
pub open spec fn spec_transaction_json(t: Transaction) -> Seq<char> {
    "{\"transaction_id\":"@ + spec_json_string(t.transaction_id@)
        + ",\"transaction_timestamp\":"@ + spec_dec_i64(t.transaction_timestamp)
        + ",\"transaction_details\":"@ + spec_json_string(t.transaction_details@) + "}"@
}

/// The comma-separated encodings of a sequence of transactions, in order.
pub open spec fn spec_transactions_json(ts: Seq<Transaction>) -> Seq<char>
    decreases ts.len(),
{
    if ts.len() == 0 {
        Seq::empty()
    } else if ts.len() == 1 {
        spec_transaction_json(ts[0])
    } else {
        spec_transactions_json(ts.drop_last()) + seq![','] + spec_transaction_json(ts.last())
    }
}

/// The canonical JSON encoding of a block: an object with the five fields in
/// declaration order, the transaction list as a JSON array, no whitespace.
pub open spec fn spec_block_json(b: Block) -> Seq<char> {
    "{\"block_number\":"@ + spec_dec_u64(b.block_number) + ",\"block_timestamp\":"@
        + spec_dec_i64(b.block_timestamp) + ",\"block_nonce\":"@ + spec_dec_u64(b.block_nonce)
        + ",\"transaction_list\":["@ + spec_transactions_json(b.transaction_list@)
        + "],\"previous_block_hash\":"@ + spec_json_string(b.previous_block_hash@) + "}"@
}

/// The hash of a block: the lowercase hexadecimal SHA-256 digest of its
/// canonical JSON encoding. Every field, the nonce included, feeds the hash.
pub open spec fn spec_block_hash(b: Block) -> Seq<char> {
    sha256_hex(spec_block_json(b))
}

/// The same block with its nonce replaced.
pub open spec fn spec_with_nonce(b: Block, n: u64) -> Block {
    Block { block_nonce: n, ..b }
}

/// Relies on `chrono::Utc::now` and `DateTime::timestamp`: the current wall
/// clock as Unix seconds. Nothing is promised of the value.
#[verifier::external_body]
fn now_timestamp() -> i64 {
    chrono::Utc::now().timestamp()
}

/// Relies on `std::io::Stdout::write_fmt` (through `writeln`): prints the
/// given nonce as one line on standard output, the mining progress channel.
#[verifier::external_body]
fn emit_nonce(nonce: u64) {
    let mut out = std::io::stdout();
    let _ = writeln!(out, "{}", nonce);
}

/// Appends the canonical JSON encoding of `t` to `out`.
fn push_transaction_json(out: &mut String, t: &Transaction)
    ensures
        final(out)@ == old(out)@ + spec_transaction_json(*t),
{
    out.append("{\"transaction_id\":");
    push_json_string(out, t.transaction_id.as_str());
    out.append(",\"transaction_timestamp\":");
    push_dec_i64(out, t.transaction_timestamp);
    out.append(",\"transaction_details\":");
    push_json_string(out, t.transaction_details.as_str());
    out.append("}");
    proof {
        assert(out@ =~= old(out)@ + spec_transaction_json(*t));
    }
}

impl Block {
    /// The first block of a fresh chain: number one, nonce zero, the sentinel
    /// previous hash "1", and exactly one synthetic transaction. The two
    /// timestamps come from the wall clock and are not constrained.
    pub fn genesis() -> (b: Block)
        ensures
            b.block_number == 1,
            b.block_nonce == 0,
            b.previous_block_hash@ == "1"@,
            b.transaction_list@.len() == 1,
            b.transaction_list@[0].transaction_id@ == "1"@,
            b.transaction_list@[0].transaction_details@
                == "Transaction from the genesis method"@,
    {
        let transaction = Transaction {
            transaction_id: "1".to_owned(),
            transaction_details: "Transaction from the genesis method".to_owned(),
            transaction_timestamp: now_timestamp(),
        };
        let mut transaction_list: Vec<Transaction> = Vec::new();
        transaction_list.push(transaction);
        Block {
            block_number: 1,
            block_timestamp: now_timestamp(),
            block_nonce: 0,
            transaction_list,
            previous_block_hash: "1".to_owned(),
        }
    }

    /// The canonical JSON encoding of this block, the input of its hash.
    pub fn serialize_block(&self) -> (r: String)
        ensures
            r@ == spec_block_json(*self),
    {
        let mut out = String::new();
        out.append("{\"block_number\":");
        push_dec_u64(&mut out, self.block_number);
        out.append(",\"block_timestamp\":");
        push_dec_i64(&mut out, self.block_timestamp);
        out.append(",\"block_nonce\":");
        push_dec_u64(&mut out, self.block_nonce);
        out.append(",\"transaction_list\":[");
        let ghost head: Seq<char> = out@;
        let n = self.transaction_list.len();
        let mut i: usize = 0;
        while i < n
            invariant
                i <= n,
                n == self.transaction_list@.len(),
                out@ == head + spec_transactions_json(self.transaction_list@.subrange(0, i as int)),
            decreases n - i,
        {
            if i > 0 {
                push_char(&mut out, ',');
            }
            push_transaction_json(&mut out, &self.transaction_list[i]);
            proof {
                let ts = self.transaction_list@;
                assert(ts.subrange(0, i + 1 as int).drop_last() =~= ts.subrange(0, i as int));
                assert(ts.subrange(0, i + 1 as int).last() == ts[i as int]);
                if i == 0 {
                    assert(ts.subrange(0, 1)[0] == ts[0]);
                }
                assert(out@ =~= head + spec_transactions_json(ts.subrange(0, i + 1 as int)));
            }
            i = i + 1;
        }
        proof {
            assert(self.transaction_list@.subrange(0, self.transaction_list@.len() as int)
                =~= self.transaction_list@);
        }
        out.append("],\"previous_block_hash\":");
        push_json_string(&mut out, self.previous_block_hash.as_str());
        out.append("}");
        proof {
            assert(out@ =~= spec_block_json(*self));
        }
        out
    }

    /// The block's hash: lowercase hexadecimal SHA-256 of its canonical JSON
    /// encoding, 64 characters.
    pub fn generate_hash(block: &Block) -> (r: String)
        ensures
            r@ == spec_block_hash(*block),
            r@.len() == 64,
    {
        let serialized = block.serialize_block();
        sha256_hex_digest(serialized.as_str())
    }

    /// Whether a hash meets the difficulty target: true exactly when the hash
    /// begins with the given prefix.
    pub fn is_block_valid(hash: &str, prefix: &str) -> (r: bool)
        ensures
            r == prefix@.is_prefix_of(hash@),
    {
        let hash_len = hash.unicode_len();
        let prefix_len = prefix.unicode_len();
        if prefix_len > hash_len {
            return false;
        }
        let mut i: usize = 0;
        while i < prefix_len
            invariant
                i <= prefix_len,
                prefix_len == prefix@.len(),
                hash_len == hash@.len(),
                prefix_len <= hash_len,
                forall|j: int| 0 <= j < i ==> prefix@[j] == hash@[j],
            decreases prefix_len - i,
        {
            if hash.get_char(i) != prefix.get_char(i) {
                proof {
                    assert(!prefix@.is_prefix_of(hash@)) by {
                        if prefix@.is_prefix_of(hash@) {
                            assert(prefix@[i as int] == hash@.subrange(0, prefix@.len() as int)[i as int]);
                        }
                    }
                }
                return false;
            }
            i = i + 1;
        }
        proof {
            assert(prefix@ =~= hash@.subrange(0, prefix@.len() as int));
        }
        true
    }

    /// An unmined candidate linked to `previous_block`: the next number,
    /// nonce zero, the given transactions by value, and the predecessor's
    /// hash as its previous hash. The timestamp comes from the wall clock.
    pub fn new(transactions: Vec<Transaction>, previous_block: &Block) -> (b: Block)
        requires
            previous_block.block_number < u64::MAX,
        ensures
            b.block_number == previous_block.block_number + 1,
            b.block_nonce == 0,
            b.transaction_list == transactions,
            b.previous_block_hash@ == spec_block_hash(*previous_block),
    {
        Block {
            block_number: previous_block.block_number + 1,
            block_timestamp: now_timestamp(),
            block_nonce: 0,
            transaction_list: transactions,
            previous_block_hash: Self::generate_hash(previous_block),
        }
    }

    /// The proof-of-work search: starting from the candidate's current nonce,
    /// try nonces in order until the block's hash begins with `prefix`,
    /// printing each failing nonce on standard output. Only the nonce is
    /// written; the search stops at the least accepting nonce, or with the
    /// nonce space exhausted when no nonce from the start value on is
    /// accepted. A candidate whose hash is already valid is left untouched.
    pub fn mine_new_block(candidate_block: &mut Block, prefix: &str)
        ensures
            final(candidate_block).block_number == old(candidate_block).block_number,
            final(candidate_block).block_timestamp == old(candidate_block).block_timestamp,
            final(candidate_block).transaction_list == old(candidate_block).transaction_list,
            final(candidate_block).previous_block_hash == old(candidate_block).previous_block_hash,
            final(candidate_block).block_nonce >= old(candidate_block).block_nonce,
            forall|n: u64|
                old(candidate_block).block_nonce <= n < final(candidate_block).block_nonce
                    ==> !prefix@.is_prefix_of(
                    #[trigger] spec_block_hash(spec_with_nonce(*old(candidate_block), n)),
                ),
            prefix@.is_prefix_of(spec_block_hash(*final(candidate_block)))
                || (final(candidate_block).block_nonce == u64::MAX
                && !prefix@.is_prefix_of(spec_block_hash(*final(candidate_block)))),
            prefix@.is_prefix_of(spec_block_hash(*old(candidate_block)))
                ==> final(candidate_block).block_nonce == old(candidate_block).block_nonce,
    {
        let ghost orig: Block = *candidate_block;
        loop
            invariant
                candidate_block.block_number == orig.block_number,
                candidate_block.block_timestamp == orig.block_timestamp,
                candidate_block.transaction_list == orig.transaction_list,
                candidate_block.previous_block_hash == orig.previous_block_hash,
                candidate_block.block_nonce >= orig.block_nonce,
                forall|n: u64|
                    orig.block_nonce <= n < candidate_block.block_nonce
                        ==> !prefix@.is_prefix_of(
                        #[trigger] spec_block_hash(spec_with_nonce(orig, n)),
                    ),
            ensures
                candidate_block.block_number == orig.block_number,
                candidate_block.block_timestamp == orig.block_timestamp,
                candidate_block.transaction_list == orig.transaction_list,
                candidate_block.previous_block_hash == orig.previous_block_hash,
                candidate_block.block_nonce >= orig.block_nonce,
                forall|n: u64|
                    orig.block_nonce <= n < candidate_block.block_nonce
                        ==> !prefix@.is_prefix_of(
                        #[trigger] spec_block_hash(spec_with_nonce(orig, n)),
                    ),
                prefix@.is_prefix_of(spec_block_hash(*candidate_block)) || (
                candidate_block.block_nonce == u64::MAX && !prefix@.is_prefix_of(
                    spec_block_hash(*candidate_block),
                )),
            decreases u64::MAX - candidate_block.block_nonce,
        {
            let hash = Self::generate_hash(candidate_block);
            if Self::is_block_valid(hash.as_str(), prefix) {
                break;
            }
            emit_nonce(candidate_block.block_nonce);
            if candidate_block.block_nonce == u64::MAX {
                break;
            }
            proof {
                assert(*candidate_block == spec_with_nonce(orig, candidate_block.block_nonce));
            }
            candidate_block.block_nonce = candidate_block.block_nonce + 1;
        }
        proof {
            if prefix@.is_prefix_of(spec_block_hash(orig)) {
                if candidate_block.block_nonce > orig.block_nonce {
                    assert(spec_with_nonce(orig, orig.block_nonce) == orig);
                    assert(!prefix@.is_prefix_of(spec_block_hash(spec_with_nonce(orig, orig.block_nonce))));
                }
            }
        }
    }
}

} // verus!
