//! Laws of chains built through the public API. The chain itself is owned by
//! the caller as an ordered sequence of blocks; these spec functions and proof
//! functions state what holds of every chain grown by appending blocks from
//! the successor constructor.

use vstd::prelude::*;
use crate::block::{
    spec_block_hash,
    spec_transaction_json,
    spec_transactions_json,
    Block,
    Transaction,
};

verus! {

/// Well-formed linkage: the first block carries number one, every later
/// block carries its predecessor's number plus one, and every later block's
/// previous hash is the hash of its predecessor.
pub open spec fn chain_linked(c: Seq<Block>) -> bool {
    &&& c.len() > 0 ==> c[0].block_number == 1
    &&& forall|i: int|
        1 <= i < c.len() ==> (#[trigger] c[i]).block_number == c[i - 1].block_number + 1
    &&& forall|i: int|
        1 <= i < c.len() ==> (#[trigger] c[i]).previous_block_hash@ == spec_block_hash(c[i - 1])
}

/// Law: appending a block strictly increases the chain length by one.
pub proof fn lemma_append_len(c: Seq<Block>, b: Block)
    ensures
        c.push(b).len() == c.len() + 1,
{
}

/// Law: a chain of one block numbered one is well linked.
pub proof fn lemma_chain_genesis(b: Block)
    requires
        b.block_number == 1,
    ensures
        chain_linked(seq![b]),
{
}

/// Law: a well-linked chain stays well linked when a block built against its
/// tip is appended: the block's number is the tip's plus one and its previous
/// hash is the tip's hash, exactly what the successor constructor establishes
/// and mining preserves.
pub proof fn lemma_chain_extend(c: Seq<Block>, b: Block)
    requires
        chain_linked(c),
        c.len() > 0,
        b.block_number == c.last().block_number + 1,
        b.previous_block_hash@ == spec_block_hash(c.last()),
    ensures
        chain_linked(c.push(b)),
{
    let c2 = c.push(b);
    assert forall|i: int| 1 <= i < c2.len() implies (#[trigger] c2[i]).block_number == c2[i
        - 1].block_number + 1 && c2[i].previous_block_hash@ == spec_block_hash(c2[i - 1]) by {
        if i < c.len() {
            assert(c2[i] == c[i]);
            assert(c2[i - 1] == c[i - 1]);
        } else {
            assert(c2[i] == b);
            assert(c2[i - 1] == c.last());
        }
    }
}

/// Field-by-field sameness of two transactions' values.
pub open spec fn transaction_fields_eq(a: Transaction, b: Transaction) -> bool {
    &&& a.transaction_id@ == b.transaction_id@
    &&& a.transaction_timestamp == b.transaction_timestamp
    &&& a.transaction_details@ == b.transaction_details@
}

/// Field-by-field sameness of two blocks' values.
pub open spec fn block_fields_eq(a: Block, b: Block) -> bool {
    &&& a.block_number == b.block_number
    &&& a.block_timestamp == b.block_timestamp
    &&& a.block_nonce == b.block_nonce
    &&& a.previous_block_hash@ == b.previous_block_hash@
    &&& a.transaction_list@.len() == b.transaction_list@.len()
    &&& forall|i: int|
        0 <= i < a.transaction_list@.len() ==> transaction_fields_eq(
            #[trigger] a.transaction_list@[i],
            b.transaction_list@[i],
        )
}

proof fn lemma_transactions_json_congruent(x: Seq<Transaction>, y: Seq<Transaction>)
    requires
        x.len() == y.len(),
        forall|i: int| 0 <= i < x.len() ==> transaction_fields_eq(#[trigger] x[i], y[i]),
    ensures
        spec_transactions_json(x) == spec_transactions_json(y),
    decreases x.len(),
{
    if x.len() == 0 {
    } else if x.len() == 1 {
        assert(spec_transaction_json(x[0]) == spec_transaction_json(y[0]));
    } else {
        lemma_transactions_json_congruent(x.drop_last(), y.drop_last());
        assert(spec_transaction_json(x.last()) == spec_transaction_json(y.last()));
    }
}

/// Law: the hash of a block depends on its field values alone; two blocks
/// whose fields hold the same values hash alike.
pub proof fn lemma_hash_deterministic(a: Block, b: Block)
    requires
        block_fields_eq(a, b),
    ensures
        spec_block_hash(a) == spec_block_hash(b),
{
    lemma_transactions_json_congruent(a.transaction_list@, b.transaction_list@);
}

} // verus!
