use vstd::prelude::*;

use vstd::string::StringSliceAdditionalSpecFns;

use crate::identity::{Identity, same_bytes};

verus! {

/// Bytes of ledger storage taken by a new endorser.
pub const VOTER_SIZE: usize = 32;

/// Bytes of ledger storage taken by a new fingerprint entry.
pub const HASH_ENTRY_SIZE: usize = 48;

/// Bytes of ledger storage taken by a new block entry.
pub const BLOCK_ENTRY_SIZE: usize = 64;

/// One proposed fingerprint of a block, with its endorsers in order of arrival.
#[derive(Debug, Clone)]
pub struct FinalHashEntry {
    pub final_hash: [u8; 8],
    pub pubkeys: Vec<Identity>,
}

/// All fingerprints proposed for one block.
#[derive(Debug, Clone)]
pub struct BlockEntry {
    pub block_id: u64,
    pub final_hashes: Vec<FinalHashEntry>,
}

/// A ledger record: the append-only history of block entries of one shard.
#[derive(Debug)]
pub struct PDAAccount {
    pub block_ids: Vec<BlockEntry>,
}

/// Mathematical form of a `FinalHashEntry`.
pub struct HashVotes {
    pub fingerprint: [u8; 8],
    pub voters: Seq<Identity>,
}

/// Mathematical form of a `BlockEntry`.
pub struct BlockVotes {
    pub block_id: u64,
    pub hashes: Seq<HashVotes>,
}

impl View for FinalHashEntry {
    type V = HashVotes;

    open spec fn view(&self) -> HashVotes {
        HashVotes { fingerprint: self.final_hash, voters: self.pubkeys@ }
    }
}

impl View for BlockEntry {
    type V = BlockVotes;

    open spec fn view(&self) -> BlockVotes {
        BlockVotes { block_id: self.block_id, hashes: self.final_hashes@.map_values(|h: FinalHashEntry| h@) }
    }
}

impl View for PDAAccount {
    type V = Seq<BlockVotes>;

    open spec fn view(&self) -> Seq<BlockVotes> {
        self.block_ids@.map_values(|b: BlockEntry| b@)
    }
}

/// The 8-byte fingerprint of a digest: its first eight bytes, zero-padded.
pub open spec fn fingerprint_of(digest: Seq<u8>) -> Seq<u8> {
    Seq::new(8, |i: int| if i < digest.len() { digest[i] } else { 0u8 })
}

/// Index of the first block entry at or after `k` with the given id, or -1.
pub open spec fn find_block_from(l: Seq<BlockVotes>, block_id: u64, k: int) -> int
    decreases l.len() - k,
{
    if k < 0 || k >= l.len() {
        -1
    } else if l[k].block_id == block_id {
        k
    } else {
        find_block_from(l, block_id, k + 1)
    }
}

/// Index of the first fingerprint entry at or after `k` with the given fingerprint, or -1.
pub open spec fn find_hash_from(hs: Seq<HashVotes>, fp: [u8; 8], k: int) -> int
    decreases hs.len() - k,
{
    if k < 0 || k >= hs.len() {
        -1
    } else if hs[k].fingerprint == fp {
        k
    } else {
        find_hash_from(hs, fp, k + 1)
    }
}

/// A fresh entry endorsed by one voter.
pub open spec fn single_vote(fp: [u8; 8], voter: Identity) -> HashVotes {
    HashVotes { fingerprint: fp, voters: seq![voter] }
}

/// A block entry after `voter` endorsed `fp` in it.
pub open spec fn block_after_vote(b: BlockVotes, fp: [u8; 8], voter: Identity) -> BlockVotes {
    let hi = find_hash_from(b.hashes, fp, 0);
    if hi < 0 {
        BlockVotes { block_id: b.block_id, hashes: b.hashes.push(single_vote(fp, voter)) }
    } else if b.hashes[hi].voters.contains(voter) {
        b
    } else {
        BlockVotes {
            block_id: b.block_id,
            hashes: b.hashes.update(
                hi,
                HashVotes { fingerprint: fp, voters: b.hashes[hi].voters.push(voter) },
            ),
        }
    }
}

/// The ledger after `voter` endorsed `fp` for block `block_id`.
pub open spec fn ledger_after_vote(l: Seq<BlockVotes>, block_id: u64, fp: [u8; 8], voter: Identity) -> Seq<BlockVotes> {
    let bi = find_block_from(l, block_id, 0);
    if bi < 0 {
        l.push(BlockVotes { block_id, hashes: seq![single_vote(fp, voter)] })
    } else {
        l.update(bi, block_after_vote(l[bi], fp, voter))
    }
}

/// Storage bytes newly consumed by that vote.
pub open spec fn vote_size(l: Seq<BlockVotes>, block_id: u64, fp: [u8; 8], voter: Identity) -> nat {
    let bi = find_block_from(l, block_id, 0);
    if bi < 0 {
        BLOCK_ENTRY_SIZE as nat
    } else {
        let hi = find_hash_from(l[bi].hashes, fp, 0);
        if hi < 0 {
            HASH_ENTRY_SIZE as nat
        } else if l[bi].hashes[hi].voters.contains(voter) {
            0
        } else {
            VOTER_SIZE as nat
        }
    }
}

/// A vote never removes a block entry from the ledger.
pub proof fn lemma_ledger_after_vote_len(l: Seq<BlockVotes>, block_id: u64, fp: [u8; 8], voter: Identity)
    ensures
        ledger_after_vote(l, block_id, fp, voter).len() >= l.len(),
{
    lemma_find_block_range(l, block_id, 0);
}

proof fn lemma_find_block_range(l: Seq<BlockVotes>, block_id: u64, k: int)
    ensures
        find_block_from(l, block_id, k) == -1 || (k <= find_block_from(l, block_id, k) < l.len()
            && l[find_block_from(l, block_id, k)].block_id == block_id),
    decreases l.len() - k,
{
    if 0 <= k < l.len() && l[k].block_id != block_id {
        lemma_find_block_range(l, block_id, k + 1);
    }
}

/// Normalises a submitted digest to its 8-byte fingerprint.
pub fn fingerprint(final_hash: &str) -> (r: [u8; 8])
    ensures
        r@ == fingerprint_of(final_hash.spec_bytes()),
{
    let bytes = final_hash.as_bytes();
    let mut r = [0u8; 8];
    let mut i: usize = 0;
    while i < 8
        invariant
            0 <= i <= 8,
            bytes@ == final_hash.spec_bytes(),
            r@.len() == 8,
            forall|k: int| 0 <= k < i ==> r@[k] == fingerprint_of(bytes@)[k],
            forall|k: int| i <= k < 8 ==> r@[k] == 0u8,
        decreases 8 - i,
    {
        if i < bytes.len() {
            r[i] = bytes[i];
        }
        i = i + 1;
    }
    proof {
        assert(r@ =~= fingerprint_of(final_hash.spec_bytes()));
    }
    r
}

fn contains_identity(v: &Vec<Identity>, x: &Identity) -> (r: bool)
    ensures
        r == v@.contains(*x),
{
    let mut i: usize = 0;
    while i < v.len()
        invariant
            0 <= i <= v.len(),
            forall|k: int| 0 <= k < i ==> v@[k] != *x,
        decreases v.len() - i,
    {
        if v[i].same(x) {
            assert(v@[i as int] == *x);
            return true;
        }
        i = i + 1;
    }
    false
}

/// Records `voter`'s endorsement of `fp` for one block entry and returns the
/// storage bytes it newly takes.
fn vote_in_block(b: &mut BlockEntry, fp: [u8; 8], voter: Identity) -> (add: usize)
    ensures
        final(b)@ == block_after_vote(old(b)@, fp, voter),
        add as nat == (if find_hash_from(old(b)@.hashes, fp, 0) < 0 {
            HASH_ENTRY_SIZE as nat
        } else if old(b)@.hashes[find_hash_from(old(b)@.hashes, fp, 0)].voters.contains(voter) {
            0
        } else {
            VOTER_SIZE as nat
        }),
{
    let ghost hs = b@.hashes;
    let mut j: usize = 0;
    while j < b.final_hashes.len()
        invariant
            b@ == old(b)@,
            0 <= j <= b.final_hashes.len(),
            hs == b@.hashes,
            hs.len() == b.final_hashes@.len(),
            find_hash_from(hs, fp, 0) == find_hash_from(hs, fp, j as int),
        decreases b.final_hashes.len() - j,
    {
        assert(hs[j as int] == b.final_hashes@[j as int]@);
        if same_bytes(&b.final_hashes[j].final_hash, &fp) {
            let present = contains_identity(&b.final_hashes[j].pubkeys, &voter);
            if !present {
                let entry = &mut b.final_hashes[j];
                entry.pubkeys.push(voter);
                proof {
                    assert(b@.hashes =~= hs.update(
                        j as int,
                        HashVotes { fingerprint: fp, voters: hs[j as int].voters.push(voter) },
                    ));
                }
                return VOTER_SIZE;
            }
            return 0;
        }
        j = j + 1;
    }
    let mut voters: Vec<Identity> = Vec::new();
    voters.push(voter);
    b.final_hashes.push(FinalHashEntry { final_hash: fp, pubkeys: voters });
    proof {
        assert(voters@ =~= seq![voter]);
        assert(b@.hashes =~= hs.push(single_vote(fp, voter)));
    }
    HASH_ENTRY_SIZE
}

impl PDAAccount {
    /// An empty ledger record.
    pub fn new() -> (r: PDAAccount)
        ensures
            r@ == Seq::<BlockVotes>::empty(),
    {
        let r = PDAAccount { block_ids: Vec::new() };
        proof {
            assert(r@ =~= Seq::<BlockVotes>::empty());
        }
        r
    }

    /// Records `voter`'s endorsement of fingerprint `fp` for block `block_id`
    /// and returns the storage bytes it newly takes. Endorsing twice is a no-op.
    pub fn append_vote(&mut self, block_id: u64, fp: [u8; 8], voter: Identity) -> (add: usize)
        ensures
            final(self)@ == ledger_after_vote(old(self)@, block_id, fp, voter),
            add as nat == vote_size(old(self)@, block_id, fp, voter),
    {
        let ghost l = self@;
        let mut i: usize = 0;
        while i < self.block_ids.len()
            invariant
                self@ == l,
                self@ == old(self)@,
                0 <= i <= self.block_ids.len(),
                l.len() == self.block_ids@.len(),
                find_block_from(l, block_id, 0) == find_block_from(l, block_id, i as int),
            decreases self.block_ids.len() - i,
        {
            assert(l[i as int] == self.block_ids@[i as int]@);
            if self.block_ids[i].block_id == block_id {
                let entry = &mut self.block_ids[i];
                let add = vote_in_block(entry, fp, voter);
                proof {
                    assert(self@ =~= l.update(i as int, block_after_vote(l[i as int], fp, voter)));
                }
                return add;
            }
            i = i + 1;
        }
        let mut voters: Vec<Identity> = Vec::new();
        voters.push(voter);
        let mut hashes: Vec<FinalHashEntry> = Vec::new();
        hashes.push(FinalHashEntry { final_hash: fp, pubkeys: voters });
        self.block_ids.push(BlockEntry { block_id, final_hashes: hashes });
        proof {
            assert(voters@ =~= seq![voter]);
            assert(hashes@.map_values(|h: FinalHashEntry| h@) =~= seq![single_vote(fp, voter)]);
            assert(self@ =~= l.push(BlockVotes { block_id, hashes: seq![single_vote(fp, voter)] }));
        }
        BLOCK_ENTRY_SIZE
    }
}

} // verus!
