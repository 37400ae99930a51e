//! Blocks: the content-addressed records a chain is made of.
use vstd::prelude::*;
use vstd::utf8::encode_utf8;
use vstd::string::StringExecFns;
use crate::digest::{le_bytes, push_le, sha256, sha256_of};
use crate::render::{
    hex_items, hex_list, lemma_digits_injective, lemma_digits_plain, lemma_hex_items_injective,
    lemma_hex_items_plain, lemma_split_at_mark, push_digits, push_hex_list, radix_digits,
};

verus! {

/// Width in bytes of the index in the hashed encoding.
pub const INDEX_WIDTH: usize = 8;

/// Width in bytes of the timestamp in the hashed encoding.
pub const TS_WIDTH: usize = 16;

/// One record of the ledger.
#[derive(Clone)]
pub struct Block {
    pub index: usize,
    pub hash: Vec<u8>,
    pub prev_hash: Vec<u8>,
    pub ts: u128,
    pub data: String,
}

/// The mathematical content of a block.
pub struct BlockModel {
    pub index: nat,
    pub hash: Seq<u8>,
    pub prev_hash: Seq<u8>,
    pub ts: nat,
    pub data: Seq<char>,
}

impl View for Block {
    type V = BlockModel;

    open spec fn view(&self) -> BlockModel {
        BlockModel {
            index: self.index as nat,
            hash: self.hash@,
            prev_hash: self.prev_hash@,
            ts: self.ts as nat,
            data: self.data@,
        }
    }
}

/// The bytes that are hashed for a block: the index and the timestamp as
/// fixed-width little-endian integers around the predecessor's digest, then
/// the payload in UTF-8.
pub open spec fn preimage(index: nat, prev_hash: Seq<u8>, ts: nat, data: Seq<char>) -> Seq<u8> {
    le_bytes(index, INDEX_WIDTH as nat) + prev_hash + le_bytes(ts, TS_WIDTH as nat) + encode_utf8(
        data,
    )
}

/// The digest that a block with these fields must carry.
pub open spec fn block_digest(index: nat, prev_hash: Seq<u8>, ts: nat, data: Seq<char>) -> Seq<u8> {
    sha256_of(preimage(index, prev_hash, ts, data))
}

impl BlockModel {
    /// The digest recomputed from the block's other fields.
    pub open spec fn digest(self) -> Seq<u8> {
        block_digest(self.index, self.prev_hash, self.ts, self.data)
    }

    /// The stored digest matches the fields: the block has not been altered
    /// since it was minted.
    pub open spec fn hash_ok(self) -> bool {
        self.hash == self.digest()
    }

    /// The block as text: one labelled line for each field, numbers in
    /// decimal and digests as lists of hexadecimal bytes.
    pub open spec fn render(self) -> Seq<char> {
        "index: "@ + radix_digits(self.index, 10) + "\nhash: "@ + hex_list(self.hash)
            + "\nprev_hash:"@ + hex_list(self.prev_hash) + "\nts: "@ + radix_digits(self.ts, 10)
            + "\ndata:"@ + self.data
    }

    /// The block with its payload replaced and its digest left as it was.
    pub open spec fn with_data(self, data: Seq<char>) -> BlockModel {
        BlockModel { data, ..self }
    }
}

/// Recomputes the digest of a block from its index, predecessor digest,
/// timestamp and payload.
pub fn recompute_hash(block: &Block) -> (r: Vec<u8>)
    ensures
        r@ == block@.digest(),
        r@.len() == 32,
{
    let mut bytes: Vec<u8> = Vec::new();
    push_le(&mut bytes, block.index as u128, INDEX_WIDTH);
    bytes.extend_from_slice(block.prev_hash.as_slice());
    push_le(&mut bytes, block.ts, TS_WIDTH);
    bytes.extend_from_slice(block.data.as_str().as_bytes());
    assert(bytes@ =~= preimage(block@.index, block@.prev_hash, block@.ts, block@.data));
    sha256(bytes.as_slice())
}

/// A byte-for-byte copy of a digest.
pub fn copy_bytes(v: &Vec<u8>) -> (r: Vec<u8>)
    ensures
        r@ == v@,
{
    let mut r: Vec<u8> = Vec::new();
    let mut i: usize = 0;
    while i < v.len()
        invariant
            i <= v.len(),
            r@ == v@.take(i as int),
        decreases v.len() - i,
    {
        r.push(v[i]);
        i = i + 1;
        assert(r@ =~= v@.take(i as int));
    }
    assert(r@ =~= v@);
    r
}

/// Whether two digests are equal.
pub fn bytes_equal(a: &Vec<u8>, b: &Vec<u8>) -> (r: bool)
    ensures
        r == (a@ == b@),
{
    if a.len() != b.len() {
        return false;
    }
    let mut i: usize = 0;
    while i < a.len()
        invariant
            a.len() == b.len(),
            i <= a.len(),
            a@.take(i as int) == b@.take(i as int),
        decreases a.len() - i,
    {
        if a[i] != b[i] {
            assert(a@[i as int] != b@[i as int]);
            return false;
        }
        assert(a@.take(i + 1) =~= a@.take(i as int).push(a@[i as int]));
        assert(b@.take(i + 1) =~= b@.take(i as int).push(b@[i as int]));
        i = i + 1;
    }
    assert(a@ =~= a@.take(i as int));
    assert(b@ =~= b@.take(i as int));
    true
}

impl Block {
    /// The block as text (see `BlockModel::render`).
    pub fn to_string(&self) -> (r: String)
        ensures
            r@ == self@.render(),
    {
        let mut s = String::new();
        s.append("index: ");
        push_digits(&mut s, self.index as u128, 10);
        s.append("\nhash: ");
        push_hex_list(&mut s, &self.hash);
        s.append("\nprev_hash:");
        push_hex_list(&mut s, &self.prev_hash);
        s.append("\nts: ");
        push_digits(&mut s, self.ts, 10);
        s.append("\ndata:");
        s.append(self.data.as_str());
        assert(s@ =~= self@.render());
        s
    }

    /// A copy of the block, field for field.
    pub fn copy_block(&self) -> (r: Block)
        ensures
            r@ == self@,
    {
        Block {
            index: self.index,
            hash: copy_bytes(&self.hash),
            prev_hash: copy_bytes(&self.prev_hash),
            ts: self.ts,
            data: self.data.clone(),
        }
    }
}

/// A common prefix can be taken off both sides of an equation.
proof fn lemma_drop_prefix(p: Seq<char>, x: Seq<char>, y: Seq<char>)
    requires
        p + x == p + y,
    ensures
        x == y,
{
    assert(x =~= (p + x).skip(p.len() as int));
    assert(y =~= (p + y).skip(p.len() as int));
}

/// The part of a block's text after its index.
spec fn text_after_index(b: BlockModel) -> Seq<char> {
    "\nhash: "@ + ("["@ + (hex_items(b.hash) + text_after_hash(b)))
}

/// The part of a block's text after the items of its digest.
spec fn text_after_hash(b: BlockModel) -> Seq<char> {
    "]"@ + ("\nprev_hash:"@ + ("["@ + (hex_items(b.prev_hash) + text_after_prev(b))))
}

/// The part of a block's text after the items of its predecessor's digest.
spec fn text_after_prev(b: BlockModel) -> Seq<char> {
    "]"@ + ("\nts: "@ + (radix_digits(b.ts, 10) + ("\ndata:"@ + b.data)))
}

proof fn lemma_render_parts(b: BlockModel)
    ensures
        b.render() == "index: "@ + (radix_digits(b.index, 10) + text_after_index(b)),
{
    let t5 = "\ndata:"@ + b.data;
    let t4 = "\nts: "@ + (radix_digits(b.ts, 10) + t5);
    assert(text_after_prev(b) == "]"@ + t4);
    let t3 = "]"@ + t4;
    let pl = "["@ + hex_items(b.prev_hash) + "]"@;
    assert(pl + t4 =~= "["@ + (hex_items(b.prev_hash) + t3));
    let t2 = "\nprev_hash:"@ + (pl + t4);
    assert(text_after_hash(b) =~= "]"@ + t2);
    let hl = "["@ + hex_items(b.hash) + "]"@;
    assert(hl + t2 =~= "["@ + (hex_items(b.hash) + text_after_hash(b)));
    let t1 = "\nhash: "@ + (hl + t2);
    assert(text_after_index(b) == t1);
    let l9 = "index: "@ + radix_digits(b.index, 10) + "\nhash: "@ + hl + "\nprev_hash:"@ + pl;
    assert(b.render() =~= l9 + t4);
    assert(l9 + t4 =~= "index: "@ + (radix_digits(b.index, 10) + t1));
}

/// A block's text determines the block: index, digest, predecessor's digest,
/// timestamp and payload can all be read back from it.
pub proof fn lemma_render_injective(b1: BlockModel, b2: BlockModel)
    requires
        b1.render() == b2.render(),
    ensures
        b1 == b2,
{
    reveal_strlit("\nhash: ");
    reveal_strlit("[");
    reveal_strlit("]");
    reveal_strlit("\nts: ");
    lemma_render_parts(b1);
    lemma_render_parts(b2);
    assert(text_after_hash(b1) =~= "]"@ + ("\nprev_hash:"@ + "["@) + (hex_items(b1.prev_hash)
        + text_after_prev(b1)));
    assert(text_after_hash(b2) =~= "]"@ + ("\nprev_hash:"@ + "["@) + (hex_items(b2.prev_hash)
        + text_after_prev(b2)));
    lemma_drop_prefix(
        "index: "@,
        radix_digits(b1.index, 10) + text_after_index(b1),
        radix_digits(b2.index, 10) + text_after_index(b2),
    );
    lemma_digits_plain(b1.index, 10);
    lemma_digits_plain(b2.index, 10);
    lemma_split_at_mark(
        radix_digits(b1.index, 10),
        text_after_index(b1),
        radix_digits(b2.index, 10),
        text_after_index(b2),
        '\n',
    );
    lemma_digits_injective(b1.index, b2.index, 10);
    lemma_drop_prefix(
        "\nhash: "@,
        "["@ + (hex_items(b1.hash) + text_after_hash(b1)),
        "["@ + (hex_items(b2.hash) + text_after_hash(b2)),
    );
    lemma_drop_prefix(
        "["@,
        hex_items(b1.hash) + text_after_hash(b1),
        hex_items(b2.hash) + text_after_hash(b2),
    );
    lemma_hex_items_plain(b1.hash);
    lemma_hex_items_plain(b2.hash);
    lemma_split_at_mark(
        hex_items(b1.hash),
        text_after_hash(b1),
        hex_items(b2.hash),
        text_after_hash(b2),
        ']',
    );
    lemma_hex_items_injective(b1.hash, b2.hash);
    lemma_drop_prefix(
        "]"@ + ("\nprev_hash:"@ + "["@),
        hex_items(b1.prev_hash) + text_after_prev(b1),
        hex_items(b2.prev_hash) + text_after_prev(b2),
    );
    lemma_hex_items_plain(b1.prev_hash);
    lemma_hex_items_plain(b2.prev_hash);
    lemma_split_at_mark(
        hex_items(b1.prev_hash),
        text_after_prev(b1),
        hex_items(b2.prev_hash),
        text_after_prev(b2),
        ']',
    );
    lemma_hex_items_injective(b1.prev_hash, b2.prev_hash);
    assert(text_after_prev(b1) =~= "]"@ + "\nts: "@ + (radix_digits(b1.ts, 10) + ("\ndata:"@
        + b1.data)));
    assert(text_after_prev(b2) =~= "]"@ + "\nts: "@ + (radix_digits(b2.ts, 10) + ("\ndata:"@
        + b2.data)));
    lemma_drop_prefix(
        "]"@ + "\nts: "@,
        radix_digits(b1.ts, 10) + ("\ndata:"@ + b1.data),
        radix_digits(b2.ts, 10) + ("\ndata:"@ + b2.data),
    );
    reveal_strlit("\ndata:");
    lemma_digits_plain(b1.ts, 10);
    lemma_digits_plain(b2.ts, 10);
    lemma_split_at_mark(
        radix_digits(b1.ts, 10),
        "\ndata:"@ + b1.data,
        radix_digits(b2.ts, 10),
        "\ndata:"@ + b2.data,
        '\n',
    );
    lemma_digits_injective(b1.ts, b2.ts, 10);
    lemma_drop_prefix("\ndata:"@, b1.data, b2.data);
}

} // verus!
