//! The chain engine: minting linked blocks, checking the links, and adopting
//! a longer valid replica offered by a peer.
use vstd::prelude::*;
use vstd::string::StringExecFns;
use crate::block::{bytes_equal, recompute_hash, BlockModel};

pub use crate::block::Block;

verus! {

/// Number of random bytes that stand in for the genesis block's predecessor.
pub const GENESIS_PREV_LEN: usize = 32;

/// Relies on rand's `OsRng` through `RngCore::try_fill_bytes`: `len` bytes
/// from the operating system's random source, or `None` where that source
/// reports an error.
#[verifier::external_body]
fn os_random_bytes(len: usize) -> (r: Option<Vec<u8>>)
    ensures
        r matches Some(v) ==> v@.len() == len,
{
    let mut buf = vec![0u8; len];
    match rand::RngCore::try_fill_bytes(&mut rand::rngs::OsRng, &mut buf) {
        Ok(()) => Some(buf),
        Err(_) => None,
    }
}

/// Relies on std's `SystemTime::now`, `SystemTime::duration_since` and
/// `Duration::as_millis`: the wall clock in whole milliseconds since the Unix
/// epoch, or `None` where the clock reads a time before the epoch.
#[verifier::external_body]
fn millis_since_epoch() -> (r: Option<u128>) {
    match std::time::SystemTime::now().duration_since(std::time::UNIX_EPOCH) {
        Ok(d) => Some(d.as_millis()),
        Err(_) => None,
    }
}

/// Whether `cur` extends `prev`: the next index, the predecessor's digest,
/// and a digest that matches its own fields.
pub open spec fn links(prev: BlockModel, cur: BlockModel) -> bool {
    &&& cur.index == prev.index + 1
    &&& cur.prev_hash == prev.hash
    &&& cur.hash_ok()
}

/// Every adjacent pair of the sequence is linked. An empty or one-block
/// sequence is valid.
pub open spec fn valid_blocks(s: Seq<BlockModel>) -> bool {
    forall|i: int| 1 <= i < s.len() ==> #[trigger] links(s[i - 1], s[i])
}

/// The models of a vector of blocks.
pub open spec fn models(v: Seq<Block>) -> Seq<BlockModel> {
    v.map_values(|b: Block| b@)
}

/// The blocks' renderings, one after another with nothing between them.
pub open spec fn render_blocks(s: Seq<BlockModel>) -> Seq<char>
    decreases s.len(),
{
    if s.len() == 0 {
        Seq::empty()
    } else {
        render_blocks(s.drop_last()) + s.last().render()
    }
}

/// Errors of the chain's accessors.
#[derive(Debug, PartialEq, Eq, Structural)]
pub enum ChainError {
    /// The position is not that of a block of the chain.
    IndexOutOfRange,
    /// The wall clock reads a time before the Unix epoch, so no block can be
    /// stamped.
    ClockBeforeEpoch,
    /// The operating system's random source failed, so no genesis block can
    /// be minted.
    EntropyUnavailable,
}

/// An ordered sequence of blocks, owned by the chain.
pub struct Chain {
    blocks: Vec<Block>,
}

impl View for Chain {
    type V = Seq<BlockModel>;

    closed spec fn view(&self) -> Seq<BlockModel> {
        models(self.blocks@)
    }
}

impl Chain {
    /// Copies the block and gives it the digest of its own fields.
    pub fn hash_block(block: &Block) -> (r: Block)
        ensures
            r@ == (BlockModel { hash: block@.digest(), ..block@ }),
            r@.hash_ok(),
            r@.hash.len() == 32,
    {
        let mut r = block.copy_block();
        r.hash = recompute_hash(block);
        r
    }

    /// Mints a block with the given timestamp. After `prev` it takes the next
    /// index and `prev`'s digest; with no predecessor it is a genesis block
    /// at index 0 that points at `seed`.
    pub fn link_block(prev: Option<&Block>, data: &str, ts: u128, seed: Vec<u8>) -> (r: Block)
        requires
            prev matches Some(p) ==> p.index < usize::MAX,
        ensures
            r@.hash_ok(),
            r@.hash.len() == 32,
            r@.ts == ts,
            r@.data == data@,
            match prev {
                Some(p) => r@.index == p@.index + 1 && r@.prev_hash == p@.hash,
                None => r@.index == 0 && r@.prev_hash == seed@,
            },
    {
        let (index, prev_hash) = match prev {
            Some(p) => (p.index + 1, crate::block::copy_bytes(&p.hash)),
            None => (0, seed),
        };
        let draft = Block { index, hash: Vec::new(), prev_hash, ts, data: data.to_owned() };
        Chain::hash_block(&draft)
    }

    /// Mints a block after `prev`, or a genesis block, stamped with the wall
    /// clock. A genesis block points at 32 bytes from the operating system's
    /// random source. Fails where the clock reads a time before the epoch or
    /// the random source fails.
    fn new_block(prev: Option<&Block>, data: &str) -> (r: Result<Block, ChainError>)
        requires
            prev matches Some(p) ==> p.index < usize::MAX,
        ensures
            r matches Ok(b) ==> {
                &&& b@.hash_ok()
                &&& b@.hash.len() == 32
                &&& b@.data == data@
                &&& match prev {
                    Some(p) => b@.index == p@.index + 1 && b@.prev_hash == p@.hash,
                    None => b@.index == 0 && b@.prev_hash.len() == GENESIS_PREV_LEN,
                }
            },
            r matches Err(e) ==> (e == ChainError::ClockBeforeEpoch || (prev is None && e
                == ChainError::EntropyUnavailable)),
    {
        let ts = match millis_since_epoch() {
            Some(ms) => ms,
            None => return Err(ChainError::ClockBeforeEpoch),
        };
        let seed = match prev {
            Some(_) => Vec::new(),
            None => match os_random_bytes(GENESIS_PREV_LEN) {
                Some(v) => v,
                None => return Err(ChainError::EntropyUnavailable),
            },
        };
        Ok(Chain::link_block(prev, data, ts, seed))
    }

    /// Whether `block` extends `prev_block`, given `digest`, the digest
    /// recomputed from `block`'s fields.
    pub fn links_given_digest(prev_block: &Block, block: &Block, digest: &Vec<u8>) -> (r: bool)
        ensures
            r == (block@.index == prev_block@.index + 1 && block@.prev_hash == prev_block@.hash
                && block@.hash == digest@),
    {
        block.index != 0 && prev_block.index == block.index - 1 && bytes_equal(
            &prev_block.hash,
            &block.prev_hash,
        ) && bytes_equal(digest, &block.hash)
    }

    /// Whether `block` extends `prev_block`.
    pub fn is_valid_block(prev_block: &Block, block: &Block) -> (r: bool)
        ensures
            r == links(prev_block@, block@),
    {
        let digest = recompute_hash(block);
        Chain::links_given_digest(prev_block, block, &digest)
    }

    /// A chain holding a single genesis block with payload "genesis block",
    /// stamped `ts` and pointing at `seed`.
    pub fn with_genesis(seed: Vec<u8>, ts: u128) -> (r: Chain)
        ensures
            r@.len() == 1,
            r@[0].index == 0,
            r@[0].prev_hash == seed@,
            r@[0].ts == ts,
            r@[0].data == "genesis block"@,
            r@[0].hash_ok(),
            r@[0].hash.len() == 32,
            valid_blocks(r@),
    {
        let genesis = Chain::link_block(None, "genesis block", ts, seed);
        let r = Chain { blocks: vec![genesis] };
        assert(r@ =~= seq![genesis@]);
        r
    }

    /// A chain holding a single genesis block with payload "genesis block",
    /// stamped with the wall clock and pointing at 32 random bytes. Fails
    /// where the clock reads a time before the epoch or the random source
    /// fails.
    pub fn new() -> (r: Result<Chain, ChainError>)
        ensures
            r matches Ok(c) ==> {
                &&& c@.len() == 1
                &&& c@[0].index == 0
                &&& c@[0].prev_hash.len() == GENESIS_PREV_LEN
                &&& c@[0].data == "genesis block"@
                &&& c@[0].hash_ok()
                &&& c@[0].hash.len() == 32
                &&& valid_blocks(c@)
            },
            r matches Err(e) ==> (e == ChainError::ClockBeforeEpoch || e
                == ChainError::EntropyUnavailable),
    {
        let genesis = Chain::new_block(None, "genesis block")?;
        let r = Chain { blocks: vec![genesis] };
        assert(r@ =~= seq![genesis@]);
        Ok(r)
    }

    /// The blocks, in order.
    pub fn blocks(&self) -> (r: &Vec<Block>)
        ensures
            models(r@) == self@,
    {
        &self.blocks
    }

    /// The number of blocks.
    pub fn len(&self) -> (r: usize)
        ensures
            r == self@.len(),
    {
        self.blocks.len()
    }

    /// Pushes a block that extends the tail, and returns it.
    fn push_linked(&mut self, b: Block) -> (r: &Block)
        requires
            old(self)@.len() > 0 ==> links(old(self)@.last(), b@),
        ensures
            final(self)@ == old(self)@.push(b@),
            r@ == b@,
            valid_blocks(old(self)@) ==> valid_blocks(final(self)@),
    {
        let ghost before = self@;
        let n = self.blocks.len();
        self.blocks.push(b);
        proof {
            assert(self@ =~= before.push(b@));
            if n > 0 && valid_blocks(before) {
                lemma_push_keeps_valid(before, b@);
            }
        }
        &self.blocks[n]
    }

    /// Appends a block with payload `data` stamped `ts`, linked to the
    /// current tail, or a genesis block pointing at `seed` if the chain is
    /// empty, and returns it. Where the tail already has the largest index a
    /// `usize` holds, nothing is appended and the result is `None`.
    pub fn append_at(&mut self, data: &str, ts: u128, seed: Vec<u8>) -> (r: Option<&Block>)
        ensures
            old(self)@.len() > 0 && old(self)@.last().index >= usize::MAX ==> {
                &&& r is None
                &&& final(self)@ == old(self)@
            },
            old(self)@.len() == 0 || old(self)@.last().index < usize::MAX ==> {
                &&& final(self)@.len() == old(self)@.len() + 1
                &&& final(self)@.drop_last() == old(self)@
                &&& final(self)@.last().data == data@
                &&& final(self)@.last().ts == ts
                &&& final(self)@.last().hash_ok()
                &&& final(self)@.last().hash.len() == 32
                &&& old(self)@.len() > 0 ==> links(old(self)@.last(), final(self)@.last())
                &&& old(self)@.len() == 0 ==> final(self)@.last().index == 0
                    && final(self)@.last().prev_hash == seed@
                &&& r matches Some(b) && b@ == final(self)@.last()
            },
            valid_blocks(old(self)@) ==> valid_blocks(final(self)@),
    {
        let n = self.blocks.len();
        if n > 0 && self.blocks[n - 1].index == usize::MAX {
            return None;
        }
        let b = if n == 0 {
            Chain::link_block(None, data, ts, seed)
        } else {
            Chain::link_block(Some(&self.blocks[n - 1]), data, ts, seed)
        };
        proof {
            if n > 0 {
                assert(self@.last() == self.blocks@[n - 1]@);
            }
        }
        Some(self.push_linked(b))
    }

    /// Appends a block with payload `data`, stamped with the wall clock and
    /// linked to the current tail (a genesis block if the chain is empty),
    /// and returns it. The result is `None`, and nothing is appended, where
    /// the tail already has the largest index a `usize` holds, the clock
    /// reads a time before the epoch, or a genesis block is due and the
    /// random source fails.
    pub fn add_block(&mut self, data: &str) -> (r: Option<&Block>)
        ensures
            old(self)@.len() > 0 && old(self)@.last().index >= usize::MAX ==> r is None,
            r is None ==> final(self)@ == old(self)@,
            r matches Some(b) ==> {
                &&& final(self)@.len() == old(self)@.len() + 1
                &&& final(self)@.drop_last() == old(self)@
                &&& final(self)@.last().data == data@
                &&& final(self)@.last().hash_ok()
                &&& final(self)@.last().hash.len() == 32
                &&& old(self)@.len() > 0 ==> links(old(self)@.last(), final(self)@.last())
                &&& old(self)@.len() == 0 ==> final(self)@.last().index == 0
                    && final(self)@.last().prev_hash.len() == GENESIS_PREV_LEN
                &&& b@ == final(self)@.last()
            },
            valid_blocks(old(self)@) ==> valid_blocks(final(self)@),
    {
        let n = self.blocks.len();
        if n > 0 && self.blocks[n - 1].index == usize::MAX {
            return None;
        }
        let minted = if n == 0 {
            Chain::new_block(None, data)
        } else {
            Chain::new_block(Some(&self.blocks[n - 1]), data)
        };
        match minted {
            Ok(b) => {
                proof {
                    if n > 0 {
                        assert(self@.last() == self.blocks@[n - 1]@);
                    }
                }
                Some(self.push_linked(b))
            },
            Err(_) => None,
        }
    }

    /// Whether every adjacent pair of blocks is linked.
    pub fn is_valid_chain(&self) -> (r: bool)
        ensures
            r == valid_blocks(self@),
    {
        let n = self.blocks.len();
        let mut i: usize = 1;
        while i < n
            invariant
                n == self.blocks.len(),
                1 <= i,
                n == 0 || i <= n,
                forall|j: int| 1 <= j < i && j < n ==> #[trigger] links(self@[j - 1], self@[j]),
            decreases n - i,
        {
            if !Chain::is_valid_block(&self.blocks[i - 1], &self.blocks[i]) {
                assert(!links(self@[i - 1], self@[i as int]));
                return false;
            }
            i = i + 1;
        }
        true
    }

    /// The latest block, which is announced to peers when the chain has
    /// changed; `None` for an empty chain.
    pub fn broadcast_latest(&self) -> (r: Option<Block>)
        ensures
            self@.len() == 0 ==> r is None,
            self@.len() > 0 ==> (r matches Some(b) && b@ == self@.last()),
    {
        let n = self.blocks.len();
        if n == 0 {
            None
        } else {
            Some(self.blocks[n - 1].copy_block())
        }
    }

    /// Adopts `candidate` in place of the local blocks when the local chain
    /// is valid, the candidate is valid, and the candidate is strictly
    /// longer. On adoption the latest block to announce is returned; on
    /// rejection the chain is left as it was and the result is `None`.
    pub fn replace_chain(&mut self, candidate: &Vec<Block>) -> (r: Option<Block>)
        ensures
            ({
                let adopt = valid_blocks(old(self)@) && valid_blocks(models(candidate@))
                    && candidate@.len() > old(self)@.len();
                &&& adopt ==> final(self)@ == models(candidate@)
                &&& adopt ==> (r matches Some(b) && b@ == models(candidate@).last())
                &&& !adopt ==> final(self)@ == old(self)@ && r is None
            }),
    {
        if self.is_valid_chain() && candidate.len() > self.blocks.len() {
            let replica = Chain { blocks: copy_blocks(candidate) };
            if replica.is_valid_chain() {
                *self = replica;
                return self.broadcast_latest();
            }
        }
        None
    }

    /// The block at position `pos`.
    pub fn nth_block(&self, pos: usize) -> (r: Result<Block, ChainError>)
        ensures
            pos < self@.len() ==> (r matches Ok(b) && b@ == self@[pos as int]),
            pos >= self@.len() ==> r == Err::<Block, ChainError>(ChainError::IndexOutOfRange),
    {
        if pos < self.blocks.len() {
            Ok(self.blocks[pos].copy_block())
        } else {
            Err(ChainError::IndexOutOfRange)
        }
    }

    /// The block at position `pos` as text.
    pub fn print_nth_block(&self, pos: usize) -> (r: Result<String, ChainError>)
        ensures
            pos < self@.len() ==> (r matches Ok(t) && t@ == self@[pos as int].render()),
            pos >= self@.len() ==> r == Err::<String, ChainError>(ChainError::IndexOutOfRange),
    {
        if pos < self.blocks.len() {
            Ok(self.blocks[pos].to_string())
        } else {
            Err(ChainError::IndexOutOfRange)
        }
    }

    /// The whole chain as text: the blocks' renderings in order.
    pub fn to_string(&self) -> (r: String)
        ensures
            r@ == render_blocks(self@),
    {
        let mut s = String::new();
        let mut i: usize = 0;
        while i < self.blocks.len()
            invariant
                i <= self.blocks.len(),
                s@ == render_blocks(self@.take(i as int)),
            decreases self.blocks.len() - i,
        {
            let t = self.blocks[i].to_string();
            s.append(t.as_str());
            proof {
                assert(self@.take(i + 1).drop_last() =~= self@.take(i as int));
            }
            i = i + 1;
        }
        assert(self@.take(i as int) =~= self@);
        s
    }

    /// Overwrites the payload of block `i` and keeps its stored digest, so
    /// that the block no longer matches it. For exercising the validity
    /// check only: nothing that builds a chain calls it.
    pub fn tamper_block(&mut self, i: usize, data: &str)
        requires
            i < old(self)@.len(),
        ensures
            final(self)@ == old(self)@.update(i as int, old(self)@[i as int].with_data(data@)),
    {
        let mut b = self.blocks[i].copy_block();
        b.data = data.to_owned();
        let ghost before = self@;
        self.blocks.set(i, b);
        assert(self@ =~= before.update(i as int, before[i as int].with_data(data@)));
    }
}

/// A copy of each block, in order.
fn copy_blocks(v: &Vec<Block>) -> (r: Vec<Block>)
    ensures
        models(r@) == models(v@),
{
    let mut r: Vec<Block> = Vec::new();
    let mut i: usize = 0;
    while i < v.len()
        invariant
            i <= v.len(),
            models(r@) == models(v@).take(i as int),
        decreases v.len() - i,
    {
        let b = v[i].copy_block();
        let ghost before = r@;
        r.push(b);
        assert(models(r@) =~= models(before).push(b@));
        i = i + 1;
        assert(models(r@) =~= models(v@).take(i as int));
    }
    assert(models(r@) =~= models(v@));
    r
}

/// Appending a block that extends the tail keeps a valid sequence valid.
pub proof fn lemma_push_keeps_valid(s: Seq<BlockModel>, b: BlockModel)
    requires
        valid_blocks(s),
        s.len() > 0,
        links(s.last(), b),
    ensures
        valid_blocks(s.push(b)),
{
    assert forall|i: int| 1 <= i < s.push(b).len() implies #[trigger] links(
        s.push(b)[i - 1],
        s.push(b)[i],
    ) by {
        if i < s.len() {
            assert(links(s[i - 1], s[i]));
        }
    }
}

/// A chain made of a genesis block alone is valid.
pub proof fn lemma_genesis_valid(genesis: BlockModel)
    ensures
        valid_blocks(seq![genesis]),
{
}

/// In a valid chain every block after the genesis block still carries the
/// digest of its own fields.
pub proof fn lemma_valid_blocks_hash_ok(s: Seq<BlockModel>, i: int)
    requires
        valid_blocks(s),
        1 <= i < s.len(),
    ensures
        s[i].hash_ok(),
{
    assert(links(s[i - 1], s[i]));
}

/// Replacing the payload of a block after the genesis block, in a way that
/// changes the digest of its fields, leaves a block whose stored digest no
/// longer matches, and a chain that is no longer valid.
pub proof fn lemma_tamper_detected(s: Seq<BlockModel>, i: int, data: Seq<char>)
    requires
        1 <= i < s.len(),
        s[i].with_data(data).digest() != s[i].hash,
    ensures
        !s.update(i, s[i].with_data(data))[i].hash_ok(),
        !valid_blocks(s.update(i, s[i].with_data(data))),
{
    let t = s.update(i, s[i].with_data(data));
    assert(!links(t[i - 1], t[i]));
}

/// A block that matched its digest stops matching it once its payload is
/// replaced by one that changes the digest of its fields; an untouched block
/// keeps matching.
pub proof fn lemma_tampered_block_fails(b: BlockModel, data: Seq<char>)
    requires
        b.hash_ok(),
    ensures
        b.with_data(data).digest() != b.digest() ==> !b.with_data(data).hash_ok(),
        b.with_data(b.data) == b,
{
}

} // verus!
