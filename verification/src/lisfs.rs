//! LisFS: files kept in fixed-size blocks spread over consensus groups,
//! each block written under a lease of the group that holds it.

use vstd::prelude::*;
use crate::keyed::{KeyEq, KeyedVec};
use crate::rhc::hlc::{HLCTimestamp, HLC};
use crate::rhc::leases::lease::{LeaseScope, LeaseView, ScopeView};
use crate::rhc::leases::manager::clamped;
use crate::rhc::leases::manager::LeaseManager;
use crate::text::{decimal, push_decimal};
use crate::time::Duration;
use crate::fuse::FileKind;

verus! {

/// Inode of the root directory.
pub const ROOT_INO: u64 = 1;

/// Size of a block, in bytes.
pub const BLOCK_SIZE: u64 = 4096;

/// Number of consensus groups blocks are spread over.
pub const GROUP_COUNT: u64 = 3;

/// How long a block lease lasts, in seconds.
pub const BLOCK_LEASE_SECS: u64 = 60;

#[derive(Debug, Clone, Copy, PartialEq, Eq, Hash, Structural)]
pub struct BlockId(pub u64);

impl View for BlockId {
    type V = u64;

    open spec fn view(&self) -> u64 {
        self.0
    }
}

impl KeyEq for BlockId {
    open spec fn key_ok() -> bool {
        true
    }

    fn key_eq(&self, other: &Self) -> (r: bool) {
        self.0 == other.0
    }

    fn key_clone(&self) -> (r: Self) {
        *self
    }
}

impl KeyEq for u64 {
    open spec fn key_ok() -> bool {
        true
    }

    fn key_eq(&self, other: &Self) -> (r: bool) {
        *self == *other
    }

    fn key_clone(&self) -> (r: Self) {
        *self
    }
}

#[derive(Debug)]
pub struct FileMetadata {
    pub ino: u64,
    pub name: String,
    pub size: u64,
    pub is_dir: bool,
    pub created: HLCTimestamp,
    pub modified: HLCTimestamp,
    pub lease_holder: Option<String>,
    pub blocks: Vec<BlockId>,
}

/// Two metadata records agree in every field (the block lists by value).
pub open spec fn same_metadata(a: FileMetadata, b: FileMetadata) -> bool {
    &&& a.ino == b.ino
    &&& a.name == b.name
    &&& a.size == b.size
    &&& a.is_dir == b.is_dir
    &&& a.created == b.created
    &&& a.modified == b.modified
    &&& a.lease_holder == b.lease_holder
    &&& a.blocks@ == b.blocks@
}

impl Clone for FileMetadata {
    fn clone(&self) -> (r: Self)
        ensures
            same_metadata(r, *self),
    {
        let lease_holder = match &self.lease_holder {
            Some(h) => Some(h.clone()),
            None => None,
        };
        FileMetadata {
            ino: self.ino,
            name: self.name.clone(),
            size: self.size,
            is_dir: self.is_dir,
            created: self.created,
            modified: self.modified,
            lease_holder,
            blocks: {
                let b = self.blocks.clone();
                proof {
                    assert(b@ =~= self.blocks@);
                }
                b
            },
        }
    }
}

/// A consensus group: where it runs, its leases and the blocks it holds.
pub struct ConsensusGroupInfo {
    pub id: String,
    pub location: String,
    pub lease_manager: LeaseManager,
    pub block_storage: KeyedVec<BlockId, Vec<u8>>,
}

#[derive(Debug, Clone, Copy, PartialEq, Eq, Structural)]
pub struct FsStats {
    pub read_operations: u64,
    pub write_operations: u64,
    pub metadata_lookups: u64,
    pub lease_acquisitions: u64,
    pub avg_operation_time_ns: u64,
}

/// The group a block is placed in when nothing records one: its number
/// modulo the number of groups.
pub open spec fn placed(id: u64) -> int {
    (id % GROUP_COUNT) as int
}

/// The block contents of a group, by block number.
pub open spec fn contents(g: ConsensusGroupInfo) -> Map<u64, Seq<u8>> {
    g.block_storage.map().map_values(|v: Vec<u8>| v@)
}

/// The location of the `i`-th group.
pub open spec fn location_of(i: int) -> Seq<char> {
    if i == 0 {
        "Local"@
    } else if i == 1 {
        "Edge"@
    } else if i == 2 {
        "Cloud"@
    } else {
        "Unknown"@
    }
}

/// How long the kernel may keep the attributes it is given, in seconds.
pub const ATTR_TTL_SECS: u64 = 1;

/// A time as reported in file attributes.
#[derive(Debug, Clone, Copy, PartialEq, Eq, Structural)]
pub struct AttrTime {
    pub sec: i64,
    pub nsec: u32,
}

/// The attributes of a file as reported to the kernel.
#[derive(Debug, Clone, Copy, PartialEq, Eq, Structural)]
pub struct FileAttrs {
    pub ino: u64,
    pub size: u64,
    pub blocks: u64,
    pub atime: AttrTime,
    pub mtime: AttrTime,
    pub ctime: AttrTime,
    pub kind: FileKind,
    pub perm: u16,
    pub nlink: u32,
    pub uid: u32,
    pub gid: u32,
    pub rdev: u32,
    pub blksize: u32,
}

/// How many blocks `size` bytes take, the last one counted whole.
pub open spec fn blocks_for(size: u64) -> u64 {
    ((size + BLOCK_SIZE - 1) / BLOCK_SIZE as int) as u64
}

/// The attributes of file `ino` with metadata `m`: times in whole seconds
/// of its modification time, directories `0o755` and files `0o644`, owned
/// by user and group 1000.
pub open spec fn attrs_of(ino: u64, m: FileMetadata) -> FileAttrs {
    let t = AttrTime { sec: (m.modified.physical / 1000) as i64, nsec: 0 };
    FileAttrs {
        ino,
        size: m.size,
        blocks: blocks_for(m.size),
        atime: t,
        mtime: t,
        ctime: t,
        kind: if m.is_dir { FileKind::Directory } else { FileKind::File },
        perm: if m.is_dir { 0o755 } else { 0o644 },
        nlink: 1,
        uid: 1000,
        gid: 1000,
        rdev: 0,
        blksize: BLOCK_SIZE as u32,
    }
}

/// The attributes of a file just created by a lookup.
pub open spec fn new_file_attrs(ino: u64) -> FileAttrs {
    let t = AttrTime { sec: 0, nsec: 0 };
    FileAttrs {
        ino,
        size: 0,
        blocks: 0,
        atime: t,
        mtime: t,
        ctime: t,
        kind: FileKind::File,
        perm: 0o644,
        nlink: 1,
        uid: 1000,
        gid: 1000,
        rdev: 0,
        blksize: BLOCK_SIZE as u32,
    }
}

/// What the statistics report shows: the number of files and of groups,
/// the counters, and each group's location with the number of blocks it
/// holds.
pub struct FsReport {
    pub files: usize,
    pub groups: usize,
    pub stats: FsStats,
    pub distribution: Vec<(String, usize)>,
}

/// Why a filesystem request fails.
#[derive(Debug, Clone, Copy, PartialEq, Eq, Structural)]
pub enum LisFsError {
    /// No such file (ENOENT)
    NotFound,
    /// A block lease could not be had (EIO)
    Io,
}

/// The lease scope of block `id`: `Block("block-N")`.
pub open spec fn block_scope(id: u64) -> ScopeView {
    ScopeView::Block("block-"@ + decimal(id as nat))
}

/// Wrapping addition of `n` to a 64-bit counter.
pub open spec fn bumped(a: u64, n: nat) -> u64 {
    ((a + n) % 0x1_0000_0000_0000_0000) as u64
}

/// `m2` is `m` with one more lease: one of this group on block `id`, granted
/// at `now` for `BLOCK_LEASE_SECS` seconds (cut down so that its expiry fits
/// in 64 bits).
pub open spec fn block_lease_added(
    m: Map<u128, LeaseView>,
    m2: Map<u128, LeaseView>,
    holder: Seq<char>,
    id: u64,
    now: HLCTimestamp,
) -> bool {
    exists|k: u128| {
        &&& m2 == m.insert(k, m2[k])
        &&& (#[trigger] m2[k]).id == k
        &&& m2[k].scope == block_scope(id)
        &&& m2[k].holder == holder
        &&& m2[k].granted_at == now
        &&& m2[k].expires_at == (HLCTimestamp {
            physical: (now.physical + clamped(now.physical, (BLOCK_LEASE_SECS * 1000) as u128)) as u64,
            logical: 0,
        })
        &&& m2[k].renewal_count == 0
        &&& m2[k].parent_lease is None
    }
}

/// Group `g2` is group `g` after storing `data` as block `id` under a new
/// lease of the group on it.
pub open spec fn stored_block(g: ConsensusGroupInfo, g2: ConsensusGroupInfo, id: u64, data: Seq<u8>) -> bool {
    &&& g2.id == g.id
    &&& g2.location == g.location
    &&& g2.lease_manager.wf()
    &&& g2.lease_manager.node_id_spec() == g.lease_manager.node_id_spec()
    &&& g2.lease_manager.delegation_map() == g.lease_manager.delegation_map()
    &&& g2.lease_manager.hlc_spec().last_logical_spec() <= g.lease_manager.hlc_spec().last_logical_spec() + 1
    &&& g2.lease_manager.now_spec().physical >= g.lease_manager.hlc_spec().last_physical_spec()
    &&& block_lease_added(
        g.lease_manager.state_spec().view_map(),
        g2.lease_manager.state_spec().view_map(),
        g.lease_manager.node_id_spec(),
        id,
        g2.lease_manager.now_spec(),
    )
    &&& g2.block_storage.wf()
    &&& contents(g2) == contents(g).insert(id, data)
}

/// The first block touched by `len` bytes at `offset`.
pub open spec fn first_block(offset: u64) -> int {
    offset as int / BLOCK_SIZE as int
}

/// One past the last block touched by `len` bytes at `offset`.
pub open spec fn end_block(offset: u64, len: nat) -> int {
    (offset + len - 1) / BLOCK_SIZE as int + 1
}

/// `len` bytes at `offset` of file `ino` can be addressed: the range is not
/// empty at position 0, ends within 64 bits, and its block numbers fit in
/// 64 bits.
pub open spec fn addressable(ino: u64, offset: u64, len: nat) -> bool {
    &&& offset + len >= 1
    &&& offset + len <= u64::MAX
    &&& ino * 1000 + (offset + len - 1) / BLOCK_SIZE as int <= u64::MAX
}

/// Block `b` of a write of `len` bytes at `offset` is written only in part,
/// so what it held is read first.
pub open spec fn partial(offset: u64, len: nat, b: int) -> bool {
    b * BLOCK_SIZE < offset || offset + len < (b + 1) * BLOCK_SIZE
}

/// How many of the blocks `lo..hi` a write of `len` bytes at `offset`
/// writes only in part.
pub open spec fn partial_count(offset: u64, len: nat, lo: int, hi: int) -> nat
    decreases hi - lo,
{
    if hi <= lo {
        0
    } else {
        partial_count(offset, len, lo, hi - 1) + if partial(offset, len, hi - 1) {
            1nat
        } else {
            0nat
        }
    }
}

/// Block `id` is one that a write of `len` bytes at `offset` of file `ino`
/// touches.
pub open spec fn touched(ino: u64, offset: u64, len: nat, id: u64) -> bool {
    ino * 1000 + first_block(offset) <= id < ino * 1000 + end_block(offset, len)
}

/// How many bytes of a write of `len` bytes at `offset` lie before block `b`.
pub open spec fn written_before(offset: u64, len: nat, b: int) -> int {
    if b * BLOCK_SIZE <= offset {
        0
    } else if b * BLOCK_SIZE >= offset + len {
        len as int
    } else {
        b * BLOCK_SIZE - offset
    }
}

/// `after` holds the blocks of `before` with `data` written at `offset` of
/// file `ino`: each touched block is what it held (zeros where no group
/// held it) with the written bytes over it; every other block is as it was.
pub open spec fn wrote(before: LisFS, after: LisFS, ino: u64, offset: u64, data: Seq<u8>) -> bool {
    forall|k: u64| #[trigger] after.block(k) == if touched(ino, offset, data.len(), k) {
        Some(before.patched(ino, offset, data, k))
    } else {
        before.block(k)
    }
}

/// `after` holds the blocks of `before` with the part of a write of `data`
/// at `offset` of file `ino` that falls in blocks `lo..hi` written.
#[verifier::opaque]
pub open spec fn blocks_written(before: LisFS, after: LisFS, ino: u64, offset: u64, data: Seq<u8>, lo: int, hi: int) -> bool {
    forall|k: u64| #[trigger] after.block(k) == if ino * 1000 + lo <= k < ino * 1000 + hi {
        Some(before.patched(ino, offset, data, k))
    } else {
        before.block(k)
    }
}

/// `after` records the placement of what `before` records and of the
/// blocks `lo..hi` of file `ino`.
#[verifier::opaque]
pub open spec fn placed_upto(before: LisFS, after: LisFS, ino: u64, lo: int, hi: int) -> bool {
    forall|k: u64| #[trigger] after.placement().contains_key(k)
        <==> before.placement().contains_key(k) || ino * 1000 + lo <= k < ino * 1000 + hi
}

/// The groups of `after` are those of `before`, each clock having given at
/// most `n` more timestamps.
#[verifier::opaque]
pub open spec fn groups_kept(before: LisFS, after: LisFS, n: int) -> bool {
    forall|i: int| 0 <= i < GROUP_COUNT ==> {
        &&& (#[trigger] after.groups()[i]).id == before.groups()[i].id
        &&& after.groups()[i].location == before.groups()[i].location
        &&& after.groups()[i].lease_manager.node_id_spec() == before.groups()[i].lease_manager.node_id_spec()
        &&& after.groups()[i].lease_manager.hlc_spec().last_logical_spec()
            <= before.groups()[i].lease_manager.hlc_spec().last_logical_spec() + n
    }
}

/// Nothing of a write done yet.
proof fn lemma_write_start(fs: LisFS, ino: u64, offset: u64, data: Seq<u8>, lo: int)
    ensures
        blocks_written(fs, fs, ino, offset, data, lo, lo),
        placed_upto(fs, fs, ino, lo, lo),
        groups_kept(fs, fs, 0),
{
    reveal(blocks_written);
    reveal(placed_upto);
    reveal(groups_kept);
}

/// All blocks of a write done: the blocks are as `wrote` says, the groups
/// keep their names, and recording metadata changed neither.
proof fn lemma_write_done(old_fs: LisFS, mid: LisFS, fin: LisFS, ino: u64, offset: u64, data: Seq<u8>, n: int)
    requires
        blocks_written(old_fs, mid, ino, offset, data, first_block(offset), end_block(offset, data.len())),
        placed_upto(old_fs, mid, ino, first_block(offset), end_block(offset, data.len())),
        groups_kept(old_fs, mid, n),
        fin.groups() == mid.groups(),
        fin.placement() == mid.placement(),
    ensures
        wrote(old_fs, fin, ino, offset, data),
        forall|k: u64| #[trigger] fin.placement().contains_key(k)
            <==> old_fs.placement().contains_key(k) || touched(ino, offset, data.len(), k),
        forall|i: int| 0 <= i < GROUP_COUNT ==> {
            &&& (#[trigger] fin.groups()[i]).id == old_fs.groups()[i].id
            &&& fin.groups()[i].location == old_fs.groups()[i].location
            &&& fin.groups()[i].lease_manager.node_id_spec() == old_fs.groups()[i].lease_manager.node_id_spec()
        },
{
    reveal(blocks_written);
    reveal(placed_upto);
    reveal(groups_kept);
    assert forall|k: u64| #[trigger] fin.block(k) == if touched(ino, offset, data.len(), k) {
        Some(old_fs.patched(ino, offset, data, k))
    } else {
        old_fs.block(k)
    } by {
        assert(fin.block(k) == mid.block(k));
    }
}

/// One more block of a write.
proof fn lemma_write_step(old_fs: LisFS, prev: LisFS, cur: LisFS, ino: u64, offset: u64, data: Seq<u8>, lo: int, b: int)
    requires
        blocks_written(old_fs, prev, ino, offset, data, lo, b),
        placed_upto(old_fs, prev, ino, lo, b),
        lo <= b,
        blocks_written(prev, cur, ino, offset, data, b, b + 1),
        placed_upto(prev, cur, ino, b, b + 1),
    ensures
        blocks_written(old_fs, cur, ino, offset, data, lo, b + 1),
        placed_upto(old_fs, cur, ino, lo, b + 1),
{
    reveal(blocks_written);
    reveal(placed_upto);
    assert forall|k: u64| #[trigger] cur.block(k) == if ino * 1000 + lo <= k < ino * 1000 + b + 1 {
        Some(old_fs.patched(ino, offset, data, k))
    } else {
        old_fs.block(k)
    } by {
        assert(prev.block(k) == if ino * 1000 + lo <= k < ino * 1000 + b {
            Some(old_fs.patched(ino, offset, data, k))
        } else {
            old_fs.block(k)
        });
        if ino * 1000 + b <= k < ino * 1000 + b + 1 {
            assert(prev.patched(ino, offset, data, k) =~= old_fs.patched(ino, offset, data, k));
        }
    }
    assert forall|k: u64| #[trigger] cur.placement().contains_key(k)
        <==> old_fs.placement().contains_key(k) || ino * 1000 + lo <= k < ino * 1000 + b + 1 by {
        assert(prev.placement().contains_key(k) <==> old_fs.placement().contains_key(k) || ino * 1000 + lo <= k < ino * 1000 + b);
    }
}

/// The clock of group `g` can give another timestamp while fewer than the
/// room left of them have been taken.
proof fn lemma_ready(old_fs: LisFS, prev: LisFS, n: int, total: int, g: int)
    requires
        old_fs.wf(),
        groups_kept(old_fs, prev, n),
        old_fs.clock_room() > total,
        n < total,
        0 <= g < GROUP_COUNT,
    ensures
        prev.groups()[g].lease_manager.ready(),
{
    reveal(groups_kept);
    assert(old_fs.clock_room() <= u64::MAX - old_fs.groups()[g].lease_manager.hlc_spec().last_logical_spec());
    assert(prev.groups()[g].lease_manager.hlc_spec().last_logical_spec()
        <= old_fs.groups()[g].lease_manager.hlc_spec().last_logical_spec() + n);
}

/// Clocks that gave at most `n` and then at most one more timestamp gave
/// at most `n + 1`.
proof fn lemma_groups_step(old_fs: LisFS, prev: LisFS, cur: LisFS, n: int)
    requires
        groups_kept(old_fs, prev, n),
        groups_kept(prev, cur, 1),
    ensures
        groups_kept(old_fs, cur, n + 1),
{
    reveal(groups_kept);
    assert forall|i: int| 0 <= i < GROUP_COUNT implies {
        &&& (#[trigger] cur.groups()[i]).id == old_fs.groups()[i].id
        &&& cur.groups()[i].location == old_fs.groups()[i].location
        &&& cur.groups()[i].lease_manager.node_id_spec() == old_fs.groups()[i].lease_manager.node_id_spec()
        &&& cur.groups()[i].lease_manager.hlc_spec().last_logical_spec()
            <= old_fs.groups()[i].lease_manager.hlc_spec().last_logical_spec() + n + 1
    } by {
        assert(prev.groups()[i].id == old_fs.groups()[i].id);
    }
}

/// A read of the range a write covered gives back the bytes written: where
/// `after` holds the blocks of `before` with `data` written at `offset` of
/// file `ino`, the bytes of the file at `offset..offset + data.len()` are
/// `data`.
pub proof fn lemma_read_after_write(before: LisFS, after: LisFS, ino: u64, offset: u64, data: Seq<u8>)
    requires
        wrote(before, after, ino, offset, data),
        addressable(ino, offset, data.len()),
    ensures
        Seq::new(data.len(), |i: int| after.file_byte(ino, offset + i)) == data,
{
    assert forall|i: int| 0 <= i < data.len() implies #[trigger] after.file_byte(ino, offset + i) == data[i] by {
        let p = offset + i;
        let b = p / BLOCK_SIZE as int;
        let j = p % BLOCK_SIZE as int;
        assert(b * BLOCK_SIZE + j == p && 0 <= j < BLOCK_SIZE) by (nonlinear_arith)
            requires
                b == p / 4096,
                j == p % 4096,
                p >= 0,
                BLOCK_SIZE == 4096;
        assert(first_block(offset) <= b < end_block(offset, data.len())) by (nonlinear_arith)
            requires
                b == p / 4096,
                offset <= p <= offset + data.len() - 1,
                first_block(offset) == offset / 4096,
                end_block(offset, data.len()) == (offset + data.len() - 1) / 4096 + 1;
        let key = (ino * 1000 + b) as u64;
        assert(touched(ino, offset, data.len(), key));
        assert(after.block(key) == Some(before.patched(ino, offset, data, key)));
        assert((key - ino * 1000) * BLOCK_SIZE + j == p);
    }
    assert(Seq::new(data.len(), |i: int| after.file_byte(ino, offset + i)) =~= data);
}

/// One more step of a wrapping counter.
pub proof fn lemma_bumped_step(a: u64, n: nat)
    ensures
        bumped(a, n).wrapping_add(1) == bumped(a, n + 1),
        bumped(bumped(a, n), 1) == bumped(a, n + 1),
{
    let m = 0x1_0000_0000_0000_0000int;
    vstd::arithmetic::div_mod::lemma_add_mod_noop(a + n, 1, m);
    vstd::arithmetic::div_mod::lemma_small_mod(1, m as nat);
    if bumped(a, n) + 1 < m {
        vstd::arithmetic::div_mod::lemma_small_mod((bumped(a, n) + 1) as nat, m as nat);
    } else {
        vstd::arithmetic::div_mod::lemma_mod_self_0(m);
    }
}

/// The read counter after one more block of a write: bumped when that
/// block is written only in part.
proof fn lemma_partial_step(a: u64, offset: u64, len: nat, lo: int, b: int)
    requires
        lo <= b,
    ensures
        (if partial(offset, len, b) {
            bumped(bumped(a, partial_count(offset, len, lo, b)), 1)
        } else {
            bumped(a, partial_count(offset, len, lo, b))
        }) == bumped(a, partial_count(offset, len, lo, b + 1)),
{
    lemma_bumped_step(a, partial_count(offset, len, lo, b));
    assert(partial_count(offset, len, lo, b + 1) == partial_count(offset, len, lo, b) + if partial(offset, len, b) {
        1nat
    } else {
        0nat
    });
}

/// LisFS - files in blocks spread over consensus groups.
pub struct LisFS {
    hlc: HLC,
    /// Metadata layer, by inode
    files: KeyedVec<u64, FileMetadata>,
    /// Next inode number
    inodes: u64,
    /// Storage layer
    consensus_groups: Vec<ConsensusGroupInfo>,
    /// Block placement: block -> group index
    block_to_cg: KeyedVec<BlockId, usize>,
    stats: FsStats,
}

impl LisFS {
    /// The files by inode.
    pub closed spec fn file_map(&self) -> Map<u64, FileMetadata> {
        self.files.map()
    }

    /// The next inode number.
    pub closed spec fn inode_counter(&self) -> u64 {
        self.inodes
    }

    /// The consensus groups.
    pub closed spec fn groups(&self) -> Seq<ConsensusGroupInfo> {
        self.consensus_groups@
    }

    /// The recorded placement of blocks.
    pub closed spec fn placement(&self) -> Map<u64, usize> {
        self.block_to_cg.map()
    }

    /// The operation counters.
    pub closed spec fn stats_spec(&self) -> FsStats {
        self.stats
    }

    /// The clock of the metadata layer.
    pub closed spec fn hlc_spec(&self) -> HLC {
        self.hlc
    }

    /// The group a block is read from: the recorded one, else where it
    /// would be placed.
    pub open spec fn group_of(&self, id: u64) -> int {
        if self.placement().contains_key(id) {
            self.placement()[id] as int
        } else {
            placed(id)
        }
    }

    /// The contents of a block, if its group holds it.
    pub open spec fn block(&self, id: u64) -> Option<Seq<u8>> {
        let g = self.group_of(id);
        if 0 <= g < self.groups().len() && contents(self.groups()[g]).contains_key(id) {
            Some(contents(self.groups()[g])[id])
        } else {
            None
        }
    }

    /// Byte `j` of block `id`: zero where no group holds the block.
    pub open spec fn block_byte(&self, id: u64, j: int) -> u8 {
        match self.block(id) {
            Some(d) => d[j],
            None => 0,
        }
    }

    /// The byte at position `p` of file `ino`, whose blocks are numbered
    /// from `ino * 1000` on.
    pub open spec fn file_byte(&self, ino: u64, p: int) -> u8 {
        self.block_byte((ino * 1000 + p / BLOCK_SIZE as int) as u64, p % BLOCK_SIZE as int)
    }

    /// Block `id` of file `ino` after writing `data` at `offset`: the
    /// written bytes over what the block held.
    pub open spec fn patched(&self, ino: u64, offset: u64, data: Seq<u8>, id: u64) -> Seq<u8> {
        Seq::new(
            BLOCK_SIZE as nat,
            |j: int|
                {
                    let p = (id - ino * 1000) * BLOCK_SIZE + j;
                    if offset <= p < offset + data.len() {
                        data[p - offset]
                    } else {
                        self.block_byte(id, j)
                    }
                },
        )
    }

    /// The internal consistency of the filesystem: three groups, each
    /// holding whole blocks; every recorded placement names a group.
    pub closed spec fn wf(&self) -> bool {
        &&& self.files.wf()
        &&& self.block_to_cg.wf()
        &&& self.consensus_groups@.len() == GROUP_COUNT
        &&& forall|i: int| 0 <= i < GROUP_COUNT ==> {
            let g = #[trigger] self.consensus_groups@[i];
            &&& g.lease_manager.wf()
            &&& g.block_storage.wf()
            &&& forall|k: u64| #[trigger] contents(g).contains_key(k) ==> contents(g)[k].len() == BLOCK_SIZE && placed(k) == i
        }
        &&& forall|k: u64| #[trigger] self.block_to_cg.map().contains_key(k) ==> self.block_to_cg.map()[k] == placed(k)
    }

    /// How many more timestamps every clock can give.
    pub closed spec fn clock_room(&self) -> int {
        let r0 = u64::MAX - self.hlc.last_logical_spec();
        let r1 = u64::MAX - self.consensus_groups@[0].lease_manager.hlc_spec().last_logical_spec();
        let r2 = u64::MAX - self.consensus_groups@[1].lease_manager.hlc_spec().last_logical_spec();
        let r3 = u64::MAX - self.consensus_groups@[2].lease_manager.hlc_spec().last_logical_spec();
        let a = if r0 < r1 { r0 } else { r1 };
        let b = if r2 < r3 { r2 } else { r3 };
        if a < b { a } else { b }
    }

    pub fn new() -> (fs: Self)
        ensures
            fs.wf(),
            fs.inode_counter() == 2,
            fs.placement() == Map::<u64, usize>::empty(),
            fs.stats_spec() == (FsStats {
                read_operations: 0,
                write_operations: 0,
                metadata_lookups: 0,
                lease_acquisitions: 0,
                avg_operation_time_ns: 0,
            }),
            forall|i: int| 0 <= i < GROUP_COUNT ==> {
                let g = #[trigger] fs.groups()[i];
                &&& g.id@ == "cg-"@ + decimal(i as nat)
                &&& g.location@ == location_of(i)
                &&& g.lease_manager.node_id_spec() == g.id@
                &&& g.lease_manager.state_spec().lease_map() == Map::<u128, crate::rhc::leases::lease::Lease>::empty()
                &&& contents(g) == Map::<u64, Seq<u8>>::empty()
            },
            fs.file_map().dom() == set![ROOT_INO],
            fs.file_map()[ROOT_INO].ino == ROOT_INO,
            fs.file_map()[ROOT_INO].name@ == "/"@,
            fs.file_map()[ROOT_INO].size == 0,
            fs.file_map()[ROOT_INO].is_dir,
            fs.file_map()[ROOT_INO].created.precedes(fs.file_map()[ROOT_INO].modified),
            fs.file_map()[ROOT_INO].lease_holder matches Some(h) && h@ == "cg-0"@,
            fs.file_map()[ROOT_INO].blocks@.len() == 0,
    {
        let mut hlc = HLC::new();
        // Create initial consensus groups
        let mut consensus_groups: Vec<ConsensusGroupInfo> = Vec::new();
        let mut i: u64 = 0;
        while i < GROUP_COUNT
            invariant
                i <= GROUP_COUNT,
                consensus_groups@.len() == i,
                forall|j: int| 0 <= j < i ==> {
                    let g = #[trigger] consensus_groups@[j];
                    &&& g.id@ == "cg-"@ + decimal(j as nat)
                    &&& g.location@ == location_of(j)
                    &&& g.lease_manager.wf()
                    &&& g.lease_manager.node_id_spec() == g.id@
                    &&& g.lease_manager.hlc_spec().last_logical_spec() == 0
                    &&& g.lease_manager.state_spec().lease_map() == Map::<u128, crate::rhc::leases::lease::Lease>::empty()
                    &&& g.block_storage.wf()
                    &&& contents(g) == Map::<u64, Seq<u8>>::empty()
                },
            decreases GROUP_COUNT - i,
        {
            let mut cg_id = String::from_str("cg-");
            push_decimal(&mut cg_id, i as u128);
            let location = if i == 0 {
                String::from_str("Local")
            } else if i == 1 {
                String::from_str("Edge")
            } else if i == 2 {
                String::from_str("Cloud")
            } else {
                String::from_str("Unknown")
            };
            let lease_manager = LeaseManager::new(cg_id.clone(), HLC::new());
            let block_storage: KeyedVec<BlockId, Vec<u8>> = KeyedVec::new();
            proof {
                assert(contents(ConsensusGroupInfo { id: cg_id, location, lease_manager, block_storage })
                    =~= Map::<u64, Seq<u8>>::empty());
            }
            consensus_groups.push(ConsensusGroupInfo { id: cg_id, location, lease_manager, block_storage });
            i = i + 1;
        }
        // Initialize with root directory
        let created = hlc.now();
        let modified = hlc.now();
        let mut files: KeyedVec<u64, FileMetadata> = KeyedVec::new();
        let _ = files.insert(
            ROOT_INO,
            FileMetadata {
                ino: ROOT_INO,
                name: String::from_str("/"),
                size: 0,
                is_dir: true,
                created,
                modified,
                lease_holder: Some(String::from_str("cg-0")),
                blocks: Vec::new(),
            },
        );
        let fs = LisFS {
            hlc,
            files,
            inodes: 2,
            consensus_groups,
            block_to_cg: KeyedVec::new(),
            stats: FsStats {
                read_operations: 0,
                write_operations: 0,
                metadata_lookups: 0,
                lease_acquisitions: 0,
                avg_operation_time_ns: 0,
            },
        };
        proof {
            assert(fs.file_map().dom() =~= set![ROOT_INO]);
            reveal_strlit("cg-0");
            reveal_strlit("cg-");
            assert(decimal(0) == seq!['0']);
        }
        fs
    }

    /// Block placement: the block's number modulo the number of groups.
    pub fn place_block(&self, block_id: &BlockId) -> (r: usize)
        ensures
            r == placed(block_id.0),
    {
        (block_id.0 % GROUP_COUNT) as usize
    }

    /// Hands out the next inode number.
    pub fn next_ino(&mut self) -> (r: u64)
        requires
            old(self).inode_counter() < u64::MAX,
        ensures
            r == old(self).inode_counter(),
            final(self).inode_counter() == old(self).inode_counter() + 1,
            final(self).file_map() == old(self).file_map(),
            final(self).groups() == old(self).groups(),
            final(self).placement() == old(self).placement(),
            final(self).stats_spec() == old(self).stats_spec(),
            final(self).hlc_spec() == old(self).hlc_spec(),
            old(self).wf() ==> final(self).wf(),
    {
        let ino = self.inodes;
        self.inodes = self.inodes + 1;
        ino
    }

    /// The metadata of a file, counted as a lookup.
    pub fn get_file_metadata(&mut self, ino: u64) -> (r: Option<FileMetadata>)
        requires
            old(self).wf(),
        ensures
            final(self).wf(),
            r is Some <==> old(self).file_map().contains_key(ino),
            r matches Some(m) ==> same_metadata(m, old(self).file_map()[ino]),
            final(self).stats_spec() == (FsStats {
                metadata_lookups: old(self).stats_spec().metadata_lookups.wrapping_add(1),
                ..old(self).stats_spec()
            }),
            final(self).file_map() == old(self).file_map(),
            final(self).inode_counter() == old(self).inode_counter(),
            final(self).groups() == old(self).groups(),
            final(self).placement() == old(self).placement(),
            final(self).hlc_spec() == old(self).hlc_spec(),
    {
        let result = match self.files.get(&ino) {
            Some(m) => Some(m.clone()),
            None => None,
        };
        self.stats.metadata_lookups = self.stats.metadata_lookups.wrapping_add(1);
        result
    }

    /// Reads a block from the group that holds it, counted as a read.
    pub fn read_block(&mut self, block_id: &BlockId) -> (r: Option<Vec<u8>>)
        requires
            old(self).wf(),
        ensures
            final(self).wf(),
            match r {
                Some(v) => old(self).block(block_id.0) == Some(v@),
                None => old(self).block(block_id.0) is None,
            },
            final(self).stats_spec() == (FsStats {
                read_operations: old(self).stats_spec().read_operations.wrapping_add(1),
                ..old(self).stats_spec()
            }),
            final(self).file_map() == old(self).file_map(),
            final(self).inode_counter() == old(self).inode_counter(),
            final(self).groups() == old(self).groups(),
            final(self).placement() == old(self).placement(),
            final(self).hlc_spec() == old(self).hlc_spec(),
    {
        let cg_index = match self.block_to_cg.get(block_id) {
            Some(i) => *i,
            None => self.place_block(block_id),
        };
        let result = if cg_index < self.consensus_groups.len() {
            let cg = &self.consensus_groups[cg_index];
            match cg.block_storage.get(block_id) {
                Some(v) => Some(v.clone()),
                None => None,
            }
        } else {
            None
        };
        self.stats.read_operations = self.stats.read_operations.wrapping_add(1);
        result
    }

    /// Writes a block: records that it is placed in group `id % 3`, takes
    /// a lease on it there for `BLOCK_LEASE_SECS` seconds and stores the
    /// data in that group. A block scope never conflicts with another
    /// lease, so the write always succeeds.
    pub fn write_block(&mut self, block_id: BlockId, data: Vec<u8>) -> (r: Result<(), LisFsError>)
        requires
            old(self).wf(),
            data@.len() == BLOCK_SIZE,
            old(self).groups()[placed(block_id.0)].lease_manager.ready(),
        ensures
            final(self).wf(),
            r is Ok,
            final(self).placement() == old(self).placement().insert(block_id.0, placed(block_id.0) as usize),
            final(self).groups().len() == old(self).groups().len(),
            forall|i: int| 0 <= i < GROUP_COUNT && i != placed(block_id.0)
                ==> #[trigger] final(self).groups()[i] == old(self).groups()[i],
            stored_block(old(self).groups()[placed(block_id.0)], final(self).groups()[placed(block_id.0)], block_id.0, data@),
            forall|k: u64| #[trigger] final(self).block(k) == if k == block_id.0 {
                Some(data@)
            } else {
                old(self).block(k)
            },
            final(self).stats_spec() == (FsStats {
                write_operations: bumped(old(self).stats_spec().write_operations, 1),
                lease_acquisitions: bumped(old(self).stats_spec().lease_acquisitions, 1),
                ..old(self).stats_spec()
            }),
            final(self).file_map() == old(self).file_map(),
            final(self).inode_counter() == old(self).inode_counter(),
            final(self).hlc_spec() == old(self).hlc_spec(),
    {
        let cg_index = self.place_block(&block_id);
        let _ = self.block_to_cg.insert(block_id, cg_index);
        let mut name = String::from_str("block-");
        push_decimal(&mut name, block_id.0 as u128);
        let scope = LeaseScope::Block(name);
        proof {
            reveal_strlit("block-");
            assert(scope@ == block_scope(block_id.0));
        }
        let ghost g0 = self.consensus_groups@[cg_index as int];
        let cg = &mut self.consensus_groups[cg_index];
        match cg.lease_manager.acquire_lease(scope, Duration::from_secs(BLOCK_LEASE_SECS)) {
            Ok(lease) => {
                let _ = cg.block_storage.insert(block_id, data);
                proof {
                    let m = g0.lease_manager.state_spec().view_map();
                    let m2 = cg.lease_manager.state_spec().view_map();
                    assert(m2 == m.insert(lease.id.0, m2[lease.id.0]));
                    assert(contents(*cg) =~= contents(g0).insert(block_id.0, data@));
                }
            },
            Err(_) => {
                return Err(LisFsError::Io);
            },
        }
        proof {
            assert forall|k: u64| #[trigger] self.block_to_cg.map().contains_key(k) implies self.block_to_cg.map()[k]
                == placed(k) by {
                if k != block_id.0 {
                    assert(old(self).block_to_cg.map().contains_key(k));
                }
            }
            assert forall|i: int| 0 <= i < GROUP_COUNT implies {
                let g = #[trigger] self.consensus_groups@[i];
                &&& g.lease_manager.wf()
                &&& g.block_storage.wf()
                &&& forall|k: u64| #[trigger] contents(g).contains_key(k) ==> contents(g)[k].len() == BLOCK_SIZE && placed(k) == i
            } by {
                if i != cg_index {
                    assert(self.consensus_groups@[i] == old(self).consensus_groups@[i]);
                }
            }
        }
        proof {
            assert forall|k: u64| #[trigger] self.block(k) == if k == block_id.0 {
                Some(data@)
            } else {
                old(self).block(k)
            } by {
                if k != block_id.0 {
                    if old(self).placement().contains_key(k) {
                        assert(self.placement()[k] == old(self).placement()[k]);
                    }
                    let gk = placed(k);
                    if gk != cg_index {
                        assert(self.consensus_groups@[gk] == old(self).consensus_groups@[gk]);
                    }
                }
            }
        }
        self.stats.write_operations = self.stats.write_operations.wrapping_add(1);
        self.stats.lease_acquisitions = self.stats.lease_acquisitions.wrapping_add(1);
        Ok(())
    }

    /// Reads `size` bytes of file `ino` from `offset`: the blocks that hold
    /// them are read in turn, a block that no group holds reading as zeros.
    pub fn read(&mut self, ino: u64, offset: u64, size: u32) -> (r: Result<Vec<u8>, LisFsError>)
        requires
            old(self).wf(),
            addressable(ino, offset, size as nat),
        ensures
            final(self).wf(),
            r is Err <==> !old(self).file_map().contains_key(ino),
            r matches Err(e) ==> e == LisFsError::NotFound,
            r matches Ok(v) ==> v@ == Seq::new(size as nat, |i: int| old(self).file_byte(ino, offset + i)),
            final(self).stats_spec() == (FsStats {
                metadata_lookups: bumped(old(self).stats_spec().metadata_lookups, 1),
                read_operations: if r is Ok {
                    bumped(old(self).stats_spec().read_operations, (end_block(offset, size as nat) - first_block(offset)) as nat)
                } else {
                    old(self).stats_spec().read_operations
                },
                ..old(self).stats_spec()
            }),
            final(self).file_map() == old(self).file_map(),
            final(self).inode_counter() == old(self).inode_counter(),
            final(self).groups() == old(self).groups(),
            final(self).placement() == old(self).placement(),
            final(self).hlc_spec() == old(self).hlc_spec(),
    {
        if self.get_file_metadata(ino).is_none() {
            return Err(LisFsError::NotFound);
        }
        let ghost s1 = self.stats;
        let start_block = offset / BLOCK_SIZE;
        let end_block = (offset + size as u64 - 1) / BLOCK_SIZE + 1;
        let mut result_data: Vec<u8> = Vec::new();
        let mut block_idx = start_block;
        while block_idx < end_block
            invariant
                self.wf(),
                start_block == first_block(offset),
                end_block == crate::lisfs::end_block(offset, size as nat),
                addressable(ino, offset, size as nat),
                start_block <= block_idx <= end_block,
                result_data@.len() == (block_idx - start_block) * BLOCK_SIZE,
                forall|i: int| 0 <= i < result_data@.len()
                    ==> #[trigger] result_data@[i] == old(self).file_byte(ino, start_block * BLOCK_SIZE + i),
                self.stats == (FsStats {
                    read_operations: bumped(s1.read_operations, (block_idx - start_block) as nat),
                    ..s1
                }),
                self.file_map() == old(self).file_map(),
                self.inode_counter() == old(self).inode_counter(),
                self.groups() == old(self).groups(),
                self.placement() == old(self).placement(),
                self.hlc_spec() == old(self).hlc_spec(),
            decreases end_block - block_idx,
        {
            let block_id = BlockId(ino * 1000 + block_idx);
            let block = self.read_block(&block_id);
            let ghost before = result_data@;
            proof {
                lemma_bumped_step(s1.read_operations, (block_idx - start_block) as nat);
                self.lemma_block_len(block_id.0);
            }
            let mut j: u64 = 0;
            while j < BLOCK_SIZE
                invariant
                    j <= BLOCK_SIZE,
                    result_data@.len() == before.len() + j,
                    result_data@.subrange(0, before.len() as int) == before,
                    forall|t: int| 0 <= t < j ==> #[trigger] result_data@[before.len() + t]
                        == old(self).block_byte(block_id.0, t),
                    block matches Some(d) ==> d@.len() == BLOCK_SIZE && Some(d@) == old(self).block(block_id.0),
                    block is None ==> old(self).block(block_id.0) is None,
                decreases BLOCK_SIZE - j,
            {
                let byte = match &block {
                    Some(d) => d[j as usize],
                    None => 0u8,
                };
                result_data.push(byte);
                j = j + 1;
                proof {
                    assert(result_data@.subrange(0, before.len() as int) =~= before);
                }
            }
            proof {
                assert forall|i: int| 0 <= i < result_data@.len() implies #[trigger] result_data@[i]
                    == old(self).file_byte(ino, start_block * BLOCK_SIZE + i) by {
                    if i < before.len() {
                        assert(result_data@[i] == result_data@.subrange(0, before.len() as int)[i]);
                    } else {
                        let t = i - before.len();
                        assert(result_data@[before.len() + t] == old(self).block_byte(block_id.0, t));
                        assert((start_block * BLOCK_SIZE + i) / BLOCK_SIZE as int == block_idx) by (nonlinear_arith)
                            requires
                                i == (block_idx - start_block) * BLOCK_SIZE + t,
                                0 <= t < BLOCK_SIZE,
                                BLOCK_SIZE == 4096;
                        assert((start_block * BLOCK_SIZE + i) % BLOCK_SIZE as int == t) by (nonlinear_arith)
                            requires
                                i == (block_idx - start_block) * BLOCK_SIZE + t,
                                0 <= t < BLOCK_SIZE,
                                BLOCK_SIZE == 4096;
                    }
                }
            }
            block_idx = block_idx + 1;
        }
        // Trim to the requested range
        let file_offset = offset % BLOCK_SIZE;
        let total = result_data.len() as u64;
        let end_pos = if file_offset + size as u64 <= total {
            file_offset + size as u64
        } else {
            total
        };
        proof {
            assert(start_block * BLOCK_SIZE + file_offset == offset);
            assert(end_block * BLOCK_SIZE >= offset + size) by (nonlinear_arith)
                requires
                    end_block == (offset + size - 1) / 4096 + 1,
                    offset + size >= 1,
                    BLOCK_SIZE == 4096;
            assert(end_pos == file_offset + size);
        }
        let mut data: Vec<u8> = Vec::new();
        if file_offset < total {
            let mut k: usize = file_offset as usize;
            let stop = end_pos as usize;
            while k < stop
                invariant
                    file_offset <= k <= stop,
                    stop == end_pos,
                    end_pos <= result_data@.len(),
                    data@.len() == k - file_offset,
                    forall|t: int| 0 <= t < data@.len() ==> #[trigger] data@[t] == result_data@[file_offset + t],
                decreases stop - k,
            {
                data.push(result_data[k]);
                k = k + 1;
            }
        }
        proof {
            assert(data@ =~= Seq::new(size as nat, |i: int| old(self).file_byte(ino, offset + i))) by {
                assert forall|t: int| 0 <= t < size implies data@[t] == old(self).file_byte(ino, offset + t) by {
                    assert(data@[t] == result_data@[file_offset + t]);
                }
            }
        }
        Ok(data)
    }

    /// Writes block `block_idx` of a write of `data` at `offset` of file
    /// `ino`, of which `written` bytes lie in earlier blocks: a block written
    /// only in part is read first (zeros where no group holds it), the
    /// bytes of the write that fall in it are put over it, and the block is
    /// stored under a lease of its group. Answers how many bytes of the
    /// write lie in this block and those before it.
    fn write_file_block(&mut self, ino: u64, offset: u64, data: &[u8], block_idx: u64, written: u64) -> (r: Result<u64, LisFsError>)
        requires
            old(self).wf(),
            addressable(ino, offset, data@.len()),
            first_block(offset) <= block_idx < end_block(offset, data@.len()),
            written == written_before(offset, data@.len(), block_idx as int),
            old(self).groups()[placed((ino * 1000 + block_idx) as u64)].lease_manager.ready(),
        ensures
            final(self).wf(),
            r == Ok::<u64, LisFsError>(written_before(offset, data@.len(), block_idx + 1) as u64),
            blocks_written(*old(self), *final(self), ino, offset, data@, block_idx as int, block_idx + 1),
            placed_upto(*old(self), *final(self), ino, block_idx as int, block_idx + 1),
            groups_kept(*old(self), *final(self), 1),
            final(self).stats_spec() == (FsStats {
                read_operations: if partial(offset, data@.len(), block_idx as int) {
                    bumped(old(self).stats_spec().read_operations, 1)
                } else {
                    old(self).stats_spec().read_operations
                },
                write_operations: bumped(old(self).stats_spec().write_operations, 1),
                lease_acquisitions: bumped(old(self).stats_spec().lease_acquisitions, 1),
                ..old(self).stats_spec()
            }),
            final(self).file_map() == old(self).file_map(),
            final(self).inode_counter() == old(self).inode_counter(),
            final(self).hlc_spec() == old(self).hlc_spec(),
    {
        let len = data.len() as u64;
        let block_id = BlockId(ino * 1000 + block_idx);
        let block_offset = (offset + written) % BLOCK_SIZE;
        let block_end = if block_offset + (len - written) < BLOCK_SIZE {
            block_offset + (len - written)
        } else {
            BLOCK_SIZE
        };
        let ghost lo: int = if offset >= block_idx * BLOCK_SIZE { offset as int } else { block_idx * BLOCK_SIZE };
        let ghost hi: int = if offset + len <= (block_idx + 1) * BLOCK_SIZE {
            offset + len
        } else {
            (block_idx + 1) * BLOCK_SIZE
        };
        proof {
            let end_block = end_block(offset, len as nat);
            let start_block = first_block(offset);
            assert((end_block - 1) * BLOCK_SIZE <= offset + len - 1) by (nonlinear_arith)
                requires
                    end_block == (offset + len - 1) / 4096 + 1,
                    offset + len >= 1,
                    BLOCK_SIZE == 4096;
            assert(start_block * BLOCK_SIZE <= offset < (start_block + 1) * BLOCK_SIZE) by (nonlinear_arith)
                requires
                    start_block == offset / 4096,
                    BLOCK_SIZE == 4096;
            if block_idx == start_block {
                assert(block_offset == lo - block_idx * BLOCK_SIZE);
            } else {
                assert(offset + written == block_idx * BLOCK_SIZE);
                assert((block_idx * BLOCK_SIZE) % BLOCK_SIZE as int == 0) by (nonlinear_arith)
                    requires
                        BLOCK_SIZE == 4096;
            }
            assert(block_offset == lo - block_idx * BLOCK_SIZE);
            assert(block_end == hi - block_idx * BLOCK_SIZE);
            assert(written == lo - offset);
        }
        let partial_block = block_offset > 0 || block_end < BLOCK_SIZE;
        // Read existing block if partial write
        let mut block_data: Vec<u8> = if partial_block {
            match self.read_block(&block_id) {
                Some(d) => d,
                None => vec![0u8; 4096],
            }
        } else {
            vec![0u8; 4096]
        };
        proof {
            self.lemma_block_len(block_id.0);
            assert(partial_block == partial(offset, len as nat, block_idx as int));
        }
        let ghost orig = block_data@;
        // Update the block with new data
        let data_start = written;
        let data_end = if data_start + (block_end - block_offset) < len {
            data_start + (block_end - block_offset)
        } else {
            len
        };
        let mut t = block_offset;
        while t < block_end
            invariant
                block_offset <= t <= block_end <= BLOCK_SIZE,
                block_data@.len() == BLOCK_SIZE,
                orig.len() == BLOCK_SIZE,
                data_start + (block_end - block_offset) <= len,
                data_start >= 0,
                len == data@.len(),
                forall|j: int| 0 <= j < BLOCK_SIZE ==> #[trigger] block_data@[j] == if block_offset <= j < t {
                    data@[data_start + j - block_offset]
                } else {
                    orig[j]
                },
            decreases block_end - t,
        {
            block_data[t as usize] = data[(data_start + (t - block_offset)) as usize];
            t = t + 1;
        }
        proof {
            assert forall|j: int| 0 <= j < BLOCK_SIZE implies #[trigger] block_data@[j]
                == old(self).patched(ino, offset, data@, block_id.0)[j] by {
                assert((block_id.0 - ino * 1000) * BLOCK_SIZE + j == block_idx * BLOCK_SIZE + j);
                if !(block_offset <= j < block_end) {
                    assert(partial_block);
                }
            }
            assert(block_data@ =~= old(self).patched(ino, offset, data@, block_id.0));
        }
        let ghost before = *self;
        let ghost patched = block_data@;
        match self.write_block(block_id, block_data) {
            Ok(_) => {},
            Err(e) => {
                return Err(e);
            },
        }
        proof {
            reveal(blocks_written);
            reveal(placed_upto);
            reveal(groups_kept);
            let key = block_id.0;
            assert(before.block(key) == old(self).block(key));
            assert(before.patched(ino, offset, data@, key) =~= old(self).patched(ino, offset, data@, key));
            assert forall|k: u64| #[trigger] self.block(k) == if ino * 1000 + block_idx <= k < ino * 1000 + block_idx + 1 {
                Some(old(self).patched(ino, offset, data@, k))
            } else {
                old(self).block(k)
            } by {
                if k != key {
                    assert(self.block(k) == before.block(k));
                }
            }
            assert forall|i: int| 0 <= i < GROUP_COUNT implies {
                &&& (#[trigger] self.groups()[i]).id == old(self).groups()[i].id
                &&& self.groups()[i].location == old(self).groups()[i].location
                &&& self.groups()[i].lease_manager.node_id_spec() == old(self).groups()[i].lease_manager.node_id_spec()
                &&& self.groups()[i].lease_manager.hlc_spec().last_logical_spec()
                    <= old(self).groups()[i].lease_manager.hlc_spec().last_logical_spec() + 1
            } by {
                if i != placed(key) {
                    assert(self.groups()[i] == before.groups()[i]);
                }
            }
        }
        Ok(written + (data_end - data_start))
    }

    /// A lookup can create a file: an inode number and two timestamps
    /// remain.
    pub open spec fn can_create(&self) -> bool {
        &&& self.inode_counter() < u64::MAX
        &&& self.hlc_spec().last_logical_spec() < u64::MAX - 1
    }

    /// Whether a lookup can create a file.
    pub fn can_create_file(&self) -> (r: bool)
        ensures
            r == self.can_create(),
    {
        self.inodes < u64::MAX && self.hlc.logical_counter() < u64::MAX - 1
    }

    /// The attributes of file `ino`, counted as a metadata lookup.
    pub fn getattr(&mut self, ino: u64) -> (r: Result<FileAttrs, LisFsError>)
        requires
            old(self).wf(),
        ensures
            final(self).wf(),
            old(self).file_map().contains_key(ino) ==> r == Ok::<FileAttrs, LisFsError>(attrs_of(ino, old(self).file_map()[ino])),
            !old(self).file_map().contains_key(ino) ==> r == Err::<FileAttrs, LisFsError>(LisFsError::NotFound),
            final(self).stats_spec() == (FsStats {
                metadata_lookups: bumped(old(self).stats_spec().metadata_lookups, 1),
                ..old(self).stats_spec()
            }),
            final(self).file_map() == old(self).file_map(),
            final(self).inode_counter() == old(self).inode_counter(),
            final(self).groups() == old(self).groups(),
            final(self).placement() == old(self).placement(),
            final(self).hlc_spec() == old(self).hlc_spec(),
    {
        match self.get_file_metadata(ino) {
            Some(metadata) => {
                let timestamp = AttrTime { sec: (metadata.modified.physical / 1000) as i64, nsec: 0 };
                // whole blocks, the last one rounded up
                let blocks = metadata.size / BLOCK_SIZE + if metadata.size % BLOCK_SIZE == 0 { 0 } else { 1 };
                proof {
                    assert(blocks == blocks_for(metadata.size)) by (nonlinear_arith)
                        requires
                            blocks == metadata.size / 4096 + if metadata.size % 4096 == 0 { 0int } else { 1int },
                            BLOCK_SIZE == 4096;
                }
                let attr = FileAttrs {
                    ino,
                    size: metadata.size,
                    blocks,
                    atime: timestamp,
                    mtime: timestamp,
                    ctime: timestamp,
                    kind: if metadata.is_dir { FileKind::Directory } else { FileKind::File },
                    perm: if metadata.is_dir { 0o755 } else { 0o644 },
                    nlink: 1,
                    uid: 1000,
                    gid: 1000,
                    rdev: 0,
                    blksize: BLOCK_SIZE as u32,
                };
                Ok(attr)
            },
            None => Err(LisFsError::NotFound),
        }
    }

    /// Looks a name up in a directory. Every name other than `.` and `..`
    /// looked up in the root creates a new empty file under a new inode;
    /// any other lookup finds nothing.
    pub fn lookup(&mut self, parent: u64, name: String) -> (r: Result<FileAttrs, LisFsError>)
        requires
            old(self).wf(),
            old(self).can_create(),
        ensures
            final(self).wf(),
            ({
                let creates = parent == ROOT_INO && name@ != "."@ && name@ != ".."@;
                let ino = old(self).inode_counter();
                &&& creates ==> {
                    let m = final(self).file_map()[ino];
                    &&& r == Ok::<FileAttrs, LisFsError>(new_file_attrs(ino))
                    &&& final(self).inode_counter() == ino + 1
                    &&& final(self).file_map().dom() == old(self).file_map().dom().insert(ino)
                    &&& forall|k: u64| k != ino && #[trigger] old(self).file_map().contains_key(k)
                        ==> final(self).file_map()[k] == old(self).file_map()[k]
                    &&& m.ino == ino
                    &&& m.name@ == name@
                    &&& m.size == 0
                    &&& !m.is_dir
                    &&& m.created.physical >= old(self).hlc_spec().last_physical_spec()
                    &&& m.created.physical <= m.modified.physical
                    &&& m.modified == final(self).hlc_spec().last_spec()
                    &&& m.lease_holder is None
                    &&& m.blocks@.len() == 0
                    &&& final(self).hlc_spec().last_logical_spec() <= old(self).hlc_spec().last_logical_spec() + 2
                }
                &&& !creates ==> {
                    &&& r == Err::<FileAttrs, LisFsError>(LisFsError::NotFound)
                    &&& final(self).inode_counter() == old(self).inode_counter()
                    &&& final(self).file_map() == old(self).file_map()
                    &&& final(self).hlc_spec() == old(self).hlc_spec()
                }
            }),
            final(self).stats_spec() == old(self).stats_spec(),
            final(self).groups() == old(self).groups(),
            final(self).placement() == old(self).placement(),
    {
        let dot = String::from_str(".");
        let dotdot = String::from_str("..");
        proof {
            reveal_strlit(".");
            reveal_strlit("..");
        }
        if parent == ROOT_INO && name != dot && name != dotdot {
            let ino = self.next_ino();
            let created = self.hlc.now();
            let modified = self.hlc.now();
            let metadata = FileMetadata {
                ino,
                name,
                size: 0,
                is_dir: false,
                created,
                modified,
                lease_holder: None,
                blocks: Vec::new(),
            };
            let _ = self.files.insert(ino, metadata);
            let timestamp = AttrTime { sec: 0, nsec: 0 };
            let attr = FileAttrs {
                ino,
                size: 0,
                blocks: 0,
                atime: timestamp,
                mtime: timestamp,
                ctime: timestamp,
                kind: FileKind::File,
                perm: 0o644,
                nlink: 1,
                uid: 1000,
                gid: 1000,
                rdev: 0,
                blksize: BLOCK_SIZE as u32,
            };
            return Ok(attr);
        }
        Err(LisFsError::NotFound)
    }

    /// The figures of the statistics report.
    pub fn report(&self) -> (r: FsReport)
        requires
            self.wf(),
        ensures
            r.files == self.file_map().dom().len(),
            r.groups == GROUP_COUNT,
            r.stats == self.stats_spec(),
            r.distribution@.len() == GROUP_COUNT,
            forall|i: int| 0 <= i < GROUP_COUNT ==> {
                &&& (#[trigger] r.distribution@[i]).0@ == self.groups()[i].location@
                &&& r.distribution@[i].1 == contents(self.groups()[i]).dom().len()
            },
    {
        let mut distribution: Vec<(String, usize)> = Vec::new();
        let mut i: usize = 0;
        while i < self.consensus_groups.len()
            invariant
                self.wf(),
                i <= self.consensus_groups@.len(),
                distribution@.len() == i,
                forall|j: int| 0 <= j < i ==> {
                    &&& (#[trigger] distribution@[j]).0@ == self.groups()[j].location@
                    &&& distribution@[j].1 == contents(self.groups()[j]).dom().len()
                },
            decreases self.consensus_groups@.len() - i,
        {
            let cg = &self.consensus_groups[i];
            let count = cg.block_storage.len();
            proof {
                assert(contents(*cg).dom() =~= cg.block_storage.map().dom());
            }
            distribution.push((cg.location.clone(), count));
            i = i + 1;
        }
        FsReport {
            files: self.files.len(),
            groups: self.consensus_groups.len(),
            stats: self.stats,
            distribution,
        }
    }

    /// Whether every clock can give more than `n` further timestamps.
    pub fn has_clock_room(&self, n: u64) -> (r: bool)
        requires
            self.wf(),
        ensures
            r == (self.clock_room() > n),
    {
        let r0 = u64::MAX - self.hlc.logical_counter();
        let r1 = u64::MAX - self.consensus_groups[0].lease_manager.clock_counter();
        let r2 = u64::MAX - self.consensus_groups[1].lease_manager.clock_counter();
        let r3 = u64::MAX - self.consensus_groups[2].lease_manager.clock_counter();
        r0 > n && r1 > n && r2 > n && r3 > n
    }

    /// Writes `data` at `offset` of file `ino`, block by block: a block
    /// written only in part is read first (zeros where no group holds it),
    /// and each block is stored under a lease of its group. The file's size
    /// grows to cover the write and its modification time is taken from
    /// the clock, where the file exists. Answers how many bytes were
    /// written, as 32 bits.
    #[verifier::rlimit(60)]
    pub fn write(&mut self, ino: u64, offset: u64, data: &[u8]) -> (r: Result<u32, LisFsError>)
        requires
            old(self).wf(),
            addressable(ino, offset, data@.len()),
            old(self).clock_room() > end_block(offset, data@.len()) - first_block(offset),
        ensures
            final(self).wf(),
            r == Ok::<u32, LisFsError>(#[verifier::truncate] (data@.len() as u32)),
            wrote(*old(self), *final(self), ino, offset, data@),
            forall|k: u64| #[trigger] final(self).placement().contains_key(k)
                <==> old(self).placement().contains_key(k) || touched(ino, offset, data@.len(), k),
            old(self).file_map().contains_key(ino) ==> {
                let m = old(self).file_map()[ino];
                let size = if m.size >= offset + data@.len() { m.size } else { (offset + data@.len()) as u64 };
                &&& final(self).file_map() == old(self).file_map().insert(
                    ino,
                    FileMetadata { size, modified: final(self).hlc_spec().last_spec(), ..m },
                )
                &&& final(self).hlc_spec().last_physical_spec() >= old(self).hlc_spec().last_physical_spec()
                &&& final(self).hlc_spec().last_logical_spec() <= old(self).hlc_spec().last_logical_spec() + 1
            },
            !old(self).file_map().contains_key(ino) ==> {
                &&& final(self).file_map() == old(self).file_map()
                &&& final(self).hlc_spec() == old(self).hlc_spec()
            },
            final(self).inode_counter() == old(self).inode_counter(),
            final(self).stats_spec() == (FsStats {
                read_operations: bumped(
                    old(self).stats_spec().read_operations,
                    partial_count(offset, data@.len(), first_block(offset), end_block(offset, data@.len())),
                ),
                write_operations: bumped(
                    old(self).stats_spec().write_operations,
                    (end_block(offset, data@.len()) - first_block(offset)) as nat,
                ),
                lease_acquisitions: bumped(
                    old(self).stats_spec().lease_acquisitions,
                    (end_block(offset, data@.len()) - first_block(offset)) as nat,
                ),
                ..old(self).stats_spec()
            }),
            forall|i: int| 0 <= i < GROUP_COUNT ==> {
                &&& (#[trigger] final(self).groups()[i]).id == old(self).groups()[i].id
                &&& final(self).groups()[i].location == old(self).groups()[i].location
                &&& final(self).groups()[i].lease_manager.node_id_spec() == old(self).groups()[i].lease_manager.node_id_spec()
            },
    {
        let len = data.len() as u64;
        let start_block = offset / BLOCK_SIZE;
        let end_block = (offset + len - 1) / BLOCK_SIZE + 1;
        let ghost s0 = self.stats;
        let mut written: u64 = 0;
        let mut block_idx = start_block;
        proof {
            lemma_write_start(*self, ino, offset, data@, start_block as int);
        }
        while block_idx < end_block
            invariant
                self.wf(),
                old(self).wf(),
                len == data@.len(),
                start_block == first_block(offset),
                end_block == crate::lisfs::end_block(offset, len as nat),
                addressable(ino, offset, len as nat),
                start_block <= block_idx <= end_block,
                written == written_before(offset, len as nat, block_idx as int),
                old(self).clock_room() > end_block - start_block,
                blocks_written(*old(self), *self, ino, offset, data@, start_block as int, block_idx as int),
                placed_upto(*old(self), *self, ino, start_block as int, block_idx as int),
                groups_kept(*old(self), *self, block_idx - start_block),
                self.stats == (FsStats {
                    read_operations: bumped(s0.read_operations, partial_count(offset, len as nat, start_block as int, block_idx as int)),
                    write_operations: bumped(s0.write_operations, (block_idx - start_block) as nat),
                    lease_acquisitions: bumped(s0.lease_acquisitions, (block_idx - start_block) as nat),
                    ..s0
                }),
                s0 == old(self).stats_spec(),
                self.file_map() == old(self).file_map(),
                self.inode_counter() == old(self).inode_counter(),
                self.hlc_spec() == old(self).hlc_spec(),
            decreases end_block - block_idx,
        {
            let ghost prev = *self;
            let ghost key = (ino * 1000 + block_idx) as u64;
            proof {
                lemma_ready(*old(self), prev, block_idx - start_block, end_block - start_block, placed(key));
                lemma_bumped_step(s0.write_operations, (block_idx - start_block) as nat);
                lemma_bumped_step(s0.lease_acquisitions, (block_idx - start_block) as nat);
                lemma_partial_step(s0.read_operations, offset, len as nat, start_block as int, block_idx as int);
            }
            match self.write_file_block(ino, offset, data, block_idx, written) {
                Ok(w) => {
                    written = w;
                },
                Err(e) => {
                    return Err(e);
                },
            }
            proof {
                lemma_write_step(*old(self), prev, *self, ino, offset, data@, start_block as int, block_idx as int);
                lemma_groups_step(*old(self), prev, *self, block_idx - start_block);
            }
            block_idx = block_idx + 1;
        }
        let ghost after_loop = *self;
        // Update file metadata
        if self.files.contains_key(&ino) {
            proof {
                assert(old(self).clock_room() <= u64::MAX - old(self).hlc.last_logical_spec());
            }
            let now = self.hlc.now();
            match self.files.get_mut(&ino) {
                Some(metadata) => {
                    if metadata.size < offset + len {
                        metadata.size = offset + len;
                    }
                    metadata.modified = now;
                },
                None => {},
            }
        }
        proof {
            lemma_write_done(*old(self), after_loop, *self, ino, offset, data@, (end_block - start_block) as int);
        }
        Ok(#[verifier::truncate] (len as u32))
    }

    /// Every block a group holds is a whole block.
    proof fn lemma_block_len(&self, id: u64)
        requires
            self.wf(),
        ensures
            self.block(id) matches Some(d) ==> d.len() == BLOCK_SIZE,
    {
        let g = self.group_of(id);
        if 0 <= g < self.groups().len() && contents(self.groups()[g]).contains_key(id) {
            let gi = self.consensus_groups@[g];
            assert(contents(gi).contains_key(id));
        }
    }
}

} // verus!
