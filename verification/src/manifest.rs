//! The manifest: which object each inode holds, and which inode each path has.

use vstd::prelude::*;
use std::collections::BTreeMap;
use std::time::SystemTime;
use crate::fuse::{
    access_allowed, check_access, clear_suid_sgid, suid_sgid_cleared, FILE_HANDLE_READ_BIT, FILE_HANDLE_WRITE_BIT,
    FileKind, FsError, InodeAttributes, MAX_FILE_SIZE, W_OK,
};
use crate::keyed::KeyedVec;
use crate::object::{or_default, Object};
use crate::path::{joined, FsPath};

verus! {

broadcast use {vstd::laws_cmp::group_laws_cmp, vstd::std_specs::btree::group_btree_axioms};

/// Why a manifest update fails.
#[derive(Debug, Clone, Copy, PartialEq, Eq, Structural)]
pub enum ManifestError {
    /// No object has the inode.
    InodeNotFound(u64),
}

/// The root directory's path, `/`.
pub open spec fn root_path() -> Seq<Seq<char>> {
    seq![seq!['/']]
}

pub struct Manifest {
    /// Where the manifest is saved
    pub manifest_path: FsPath,
    /// doc hash for root document
    pub root_doc_id: String,
    /// Maps inodes to objects
    pub objects: BTreeMap<u64, Object>,
    /// Maps object paths to inodes
    pub inodes: KeyedVec<FsPath, u64>,
    /// The next inode to hand out
    pub cur_ino: u64,
    /// The next file handle to hand out
    pub cur_fh: u64,
}

/// `final_objects` is `objects` with the attributes of inode `a.inode`
/// replaced by `a` (as far as the manifest's writes carry them).
pub open spec fn written(objects: Map<u64, Object>, final_objects: Map<u64, Object>, a: InodeAttributes) -> bool {
    &&& final_objects.dom() == objects.dom()
    &&& objects.contains_key(a.inode)
    &&& final_objects[a.inode].full_path@ == objects[a.inode].full_path@
    &&& final_objects[a.inode].attrs.inode == a.inode
    &&& final_objects[a.inode].attrs.mode == a.mode
    &&& final_objects[a.inode].attrs.uid == a.uid
    &&& final_objects[a.inode].attrs.gid == a.gid
    &&& final_objects[a.inode].attrs.size == a.size
    &&& final_objects[a.inode].attrs.hardlinks == a.hardlinks
    &&& final_objects[a.inode].attrs.open_file_handles == a.open_file_handles
    &&& final_objects[a.inode].attrs.last_accessed == a.last_accessed
    &&& final_objects[a.inode].attrs.last_modified == a.last_modified
    &&& final_objects[a.inode].attrs.last_metadata_changed == a.last_metadata_changed
    &&& final_objects[a.inode].attrs.kind == a.kind
    &&& final_objects[a.inode].attrs.xattrs@ == a.xattrs@
    &&& forall|i: u64| #[trigger] objects.contains_key(i) && i != a.inode ==> final_objects[i] == objects[i]
}

/// A file handle: the number with the read and write bits set as asked.
pub open spec fn handle_bits(fh: u64, read: bool, write: bool) -> u64 {
    let a = if read {
        fh | FILE_HANDLE_READ_BIT
    } else {
        fh
    };
    if write {
        a | FILE_HANDLE_WRITE_BIT
    } else {
        a
    }
}

impl Manifest {
    /// A manifest holding only the root directory, at inode 1, made `now` and
    /// owned by `uid` and `gid` (the process's own); the next inode is 2 and
    /// the next file handle 1.
    pub fn new(manifest_path: FsPath, doc_id: String, now: SystemTime, uid: u32, gid: u32) -> (m: Self)
        ensures
            m.manifest_path@ == manifest_path@,
            m.root_doc_id == doc_id,
            m.objects@.dom() == set![1u64],
            m.objects@[1].full_path@ == root_path(),
            m.objects@[1].attrs.inode == 1,
            m.objects@[1].attrs.kind == FileKind::Directory,
            m.objects@[1].attrs.mode == 0o755u16,
            m.objects@[1].attrs.uid == uid,
            m.objects@[1].attrs.gid == gid,
            m.objects@[1].attrs.last_modified == now,
            m.objects@[1].attrs.last_accessed == now,
            m.objects@[1].attrs.last_metadata_changed == now,
            m.objects@[1].attrs.hardlinks == 2,
            m.objects@[1].attrs.size == crate::fuse::BLOCK_SIZE,
            m.objects@[1].attrs.open_file_handles == 0,
            m.objects@[1].attrs.xattrs@ == Map::<Vec<u8>, Vec<u8>>::empty(),
            m.inodes.wf(),
            m.inodes.map() == map![root_path() => 1u64],
            m.cur_ino == 2,
            m.cur_fh == 1,
    {
        let mut cur_ino: u64 = 1;
        let cur_fh: u64 = 1;
        let root = FsPath::new("/");
        proof {
            reveal_strlit("/");
            let s = "/"@;
            assert(s.drop_last() =~= Seq::<char>::empty());
            assert(crate::path::split_slash(s.drop_last()) == seq![Seq::<char>::empty()]);
            assert(crate::path::split_slash(s) =~= seq![Seq::<char>::empty(), Seq::<char>::empty()]);
            let segs = seq![Seq::<char>::empty(), Seq::<char>::empty()];
            assert(segs.drop_last() =~= seq![Seq::<char>::empty()]);
            assert(seq![Seq::<char>::empty()].drop_last() =~= Seq::<Seq<char>>::empty());
            let one = seq![Seq::<char>::empty()];
            assert(one.last() == Seq::<char>::empty());
            assert(!crate::path::is_normal(one.last()));
            assert(crate::path::normals(one.drop_last()) =~= Seq::<Seq<char>>::empty());
            assert(crate::path::normals(one) =~= Seq::<Seq<char>>::empty());
            assert(crate::path::normals(segs) =~= Seq::<Seq<char>>::empty());
            assert(root@ =~= root_path());
        }
        let ino = cur_ino;
        cur_ino = cur_ino + 1;
        let root_obj = Object::new(&root, ino, FileKind::Directory, None, None, None, None, now, uid, gid);
        let mut objects: BTreeMap<u64, Object> = BTreeMap::new();
        let mut inodes: KeyedVec<FsPath, u64> = KeyedVec::new();
        objects.insert(1, root_obj);
        let _ = inodes.insert(root, 1);
        proof {
            assert(objects@.dom() =~= set![1u64]);
            assert(inodes.map() =~= map![root_path() => 1u64]);
        }
        Manifest { manifest_path, root_doc_id: doc_id, objects, inodes, cur_ino, cur_fh }
    }

    /// Hands out the next inode number (the counter wraps around).
    pub fn next_ino(&mut self) -> (r: u64)
        ensures
            r == old(self).cur_ino,
            final(self).cur_ino == old(self).cur_ino.wrapping_add(1),
            final(self).cur_fh == old(self).cur_fh,
            final(self).objects == old(self).objects,
            final(self).inodes == old(self).inodes,
            final(self).root_doc_id == old(self).root_doc_id,
    {
        let ino = self.cur_ino;
        self.cur_ino = self.cur_ino.wrapping_add(1);
        ino
    }

    /// Hands out a new file handle, marked for reading and writing as asked.
    pub fn next_file_handle(&mut self, read: bool, write: bool) -> (r: u64)
        requires
            old(self).cur_fh < FILE_HANDLE_WRITE_BIT,
        ensures
            r == handle_bits(old(self).cur_fh, read, write),
            final(self).cur_fh == old(self).cur_fh + 1,
            final(self).cur_ino == old(self).cur_ino,
            final(self).objects == old(self).objects,
            final(self).inodes == old(self).inodes,
            final(self).root_doc_id == old(self).root_doc_id,
    {
        let mut fh = self.cur_fh;
        self.cur_fh = self.cur_fh + 1;
        if read {
            fh = fh | FILE_HANDLE_READ_BIT;
        }
        if write {
            fh = fh | FILE_HANDLE_WRITE_BIT;
        }
        fh
    }

    /// The object at a path, if the path has an inode that holds one.
    pub fn obj_from_path(&self, full_path: &FsPath) -> (r: Option<&Object>)
        requires
            self.inodes.wf(),
        ensures
            r matches Some(o) ==> self.inodes.map().contains_key(full_path@)
                && self.objects@.contains_key(self.inodes.map()[full_path@])
                && *o == self.objects@[self.inodes.map()[full_path@]],
            r is None ==> !self.inodes.map().contains_key(full_path@)
                || !self.objects@.contains_key(self.inodes.map()[full_path@]),
    {
        match self.inodes.get(full_path) {
            Some(ino) => self.objects.get(ino),
            None => None,
        }
    }

    /// Store new attributes for the object of their inode.
    pub fn write_inode(&mut self, attrs: &InodeAttributes) -> (r: Result<(), ManifestError>)
        ensures
            r is Err <==> !old(self).objects@.contains_key(attrs.inode),
            r == Err::<(), ManifestError>(ManifestError::InodeNotFound(attrs.inode)) || r is Ok,
            r is Ok ==> final(self).objects@.dom() == old(self).objects@.dom()
                && final(self).objects@[attrs.inode].full_path@ == old(self).objects@[attrs.inode].full_path@
                && final(self).objects@[attrs.inode].attrs.inode == attrs.inode
                && final(self).objects@[attrs.inode].attrs.mode == attrs.mode
                && final(self).objects@[attrs.inode].attrs.uid == attrs.uid
                && final(self).objects@[attrs.inode].attrs.gid == attrs.gid
                && final(self).objects@[attrs.inode].attrs.size == attrs.size
                && final(self).objects@[attrs.inode].attrs.hardlinks == attrs.hardlinks
                && final(self).objects@[attrs.inode].attrs.open_file_handles == attrs.open_file_handles
                && final(self).objects@[attrs.inode].attrs.last_accessed == attrs.last_accessed
                && final(self).objects@[attrs.inode].attrs.last_modified == attrs.last_modified
                && final(self).objects@[attrs.inode].attrs.last_metadata_changed == attrs.last_metadata_changed
                && final(self).objects@[attrs.inode].attrs.kind == attrs.kind
                && final(self).objects@[attrs.inode].attrs.xattrs@ == attrs.xattrs@
                && forall|i: u64| #[trigger] old(self).objects@.contains_key(i) && i != attrs.inode
                    ==> final(self).objects@[i] == old(self).objects@[i],
            r is Err ==> final(self).objects == old(self).objects,
            final(self).inodes == old(self).inodes,
            final(self).cur_ino == old(self).cur_ino,
            final(self).cur_fh == old(self).cur_fh,
    {
        let ino = attrs.inode;
        match self.objects.get(&ino) {
            Some(obj) => {
                let updated = Object { full_path: obj.full_path.clone(), attrs: attrs.clone() };
                self.objects.insert(ino, updated);
                Ok(())
            },
            None => Err(ManifestError::InodeNotFound(ino)),
        }
    }

    /// Forget an object nothing refers to any more (no links, no open
    /// handles): its inode and its path. Returns whether its path was
    /// forgotten too, so that the manifest needs saving.
    pub fn gc_inode(&mut self, attrs: &InodeAttributes) -> (r: Result<bool, ManifestError>)
        requires
            old(self).inodes.wf(),
        ensures
            final(self).inodes.wf(),
            final(self).cur_ino == old(self).cur_ino,
            final(self).cur_fh == old(self).cur_fh,
            attrs.hardlinks > 0 || attrs.open_file_handles > 0 ==> r == Ok::<bool, ManifestError>(false)
                && final(self).objects == old(self).objects && final(self).inodes == old(self).inodes,
            attrs.hardlinks == 0 && attrs.open_file_handles == 0 ==> {
                if old(self).objects@.contains_key(attrs.inode) {
                    let p = old(self).objects@[attrs.inode].full_path@;
                    &&& final(self).objects@ == old(self).objects@.remove(attrs.inode)
                    &&& final(self).inodes.map() == old(self).inodes.map().remove(p)
                    &&& r == Ok::<bool, ManifestError>(old(self).inodes.map().contains_key(p))
                } else {
                    &&& r == Err::<bool, ManifestError>(ManifestError::InodeNotFound(attrs.inode))
                    &&& final(self).objects@ == old(self).objects@
                    &&& final(self).inodes == old(self).inodes
                }
            },
    {
        if attrs.hardlinks > 0 || attrs.open_file_handles > 0 {
            return Ok(false);
        }
        proof {
            assert(vstd::laws_cmp::obeys_cmp::<u64>());
        }
        match self.objects.remove(&attrs.inode) {
            Some(obj) => {
                proof {
                    assert(self.objects@ == old(self).objects@.remove(attrs.inode));
                    assert(obj == old(self).objects@[attrs.inode]);
                }
                let removed = self.inodes.remove(&obj.full_path);
                Ok(removed.is_some())
            },
            None => {
                proof {
                    assert(self.objects@ =~= old(self).objects@);
                }
                Err(ManifestError::InodeNotFound(attrs.inode))
            },
        }
    }
}

impl Manifest {
    /// The path of entry `name` of the directory at inode `parent`.
    pub fn get_full_path(&self, parent: u64, name: &str) -> (r: Result<FsPath, ManifestError>)
        ensures
            r is Err <==> !self.objects@.contains_key(parent),
            r matches Err(e) ==> e == ManifestError::InodeNotFound(parent),
            r matches Ok(p) ==> p@ == joined(self.objects@[parent].full_path@, name@),
    {
        match self.objects.get(&parent) {
            Some(parent_obj) => Ok(parent_obj.full_path.join(name)),
            None => Err(ManifestError::InodeNotFound(parent)),
        }
    }

    /// Records a new file or directory at `full_path` under the next inode
    /// (see `Object::new` for what is not given), and answers that inode.
    pub fn create_fs_objects(
        &mut self,
        full_path: &FsPath,
        kind: FileKind,
        size: Option<u64>,
        mode: Option<u16>,
        uid: Option<u32>,
        gid: Option<u32>,
        now: SystemTime,
        current_uid: u32,
        current_gid: u32,
    ) -> (r: u64)
        requires
            old(self).inodes.wf(),
            kind != FileKind::Symlink,
        ensures
            final(self).inodes.wf(),
            r == old(self).cur_ino,
            final(self).cur_ino == old(self).cur_ino.wrapping_add(1),
            final(self).cur_fh == old(self).cur_fh,
            final(self).objects@.dom() == old(self).objects@.dom().insert(r),
            forall|i: u64| #[trigger] old(self).objects@.contains_key(i) && i != r
                ==> final(self).objects@[i] == old(self).objects@[i],
            final(self).objects@[r].full_path@ == full_path@,
            final(self).objects@[r].attrs.inode == r,
            final(self).objects@[r].attrs.kind == kind,
            final(self).objects@[r].attrs.size == if kind == FileKind::File { or_default(size, 0) } else { crate::fuse::BLOCK_SIZE },
            final(self).objects@[r].attrs.mode == or_default(mode, if kind == FileKind::File { 0o744u16 } else { 0o755u16 }),
            final(self).objects@[r].attrs.uid == or_default(uid, current_uid),
            final(self).objects@[r].attrs.gid == or_default(gid, current_gid),
            final(self).objects@[r].attrs.last_modified == now,
            final(self).inodes.map() == old(self).inodes.map().insert(full_path@, r),
    {
        let inode = self.next_ino();
        let obj = Object::new(full_path, inode, kind, size, mode, uid, gid, now, current_uid, current_gid);
        self.objects.insert(inode, obj);
        let _ = self.inodes.insert(full_path.clone(), inode);
        inode
    }

    /// Truncates (or extends) the file at inode `ino` to `new_length` bytes
    /// for caller `uid`/`gid`, at time `now`: refused past the largest file
    /// size, for an unknown inode, or without write permission. The
    /// set-user-id and set-group-id bits are cleared as on any write.
    /// Answers the new attributes.
    pub fn truncate(&mut self, ino: u64, new_length: u64, uid: u32, gid: u32, now: SystemTime) -> (r: Result<
        InodeAttributes,
        FsError,
    >)
        ensures
            new_length > MAX_FILE_SIZE ==> r == Err::<InodeAttributes, FsError>(FsError::FileTooBig),
            new_length <= MAX_FILE_SIZE && !old(self).objects@.contains_key(ino) ==> r == Err::<
                InodeAttributes,
                FsError,
            >(FsError::NotFound),
            new_length <= MAX_FILE_SIZE && old(self).objects@.contains_key(ino) ==> {
                let a = old(self).objects@[ino].attrs;
                &&& !access_allowed(a.uid, a.gid, a.mode, uid, gid, W_OK) ==> r == Err::<InodeAttributes, FsError>(FsError::AccessDenied)
                &&& access_allowed(a.uid, a.gid, a.mode, uid, gid, W_OK) && !old(self).objects@.contains_key(a.inode)
                    ==> r == Err::<InodeAttributes, FsError>(FsError::NotFound)
                &&& access_allowed(a.uid, a.gid, a.mode, uid, gid, W_OK) && old(self).objects@.contains_key(a.inode)
                    ==> (r matches Ok(n) && {
                    &&& n.inode == a.inode
                    &&& n.size == new_length
                    &&& n.last_modified == now
                    &&& n.last_metadata_changed == now
                    &&& n.last_accessed == a.last_accessed
                    &&& n.mode == suid_sgid_cleared(a.mode)
                    &&& n.uid == a.uid
                    &&& n.gid == a.gid
                    &&& n.kind == a.kind
                    &&& n.hardlinks == a.hardlinks
                    &&& n.open_file_handles == a.open_file_handles
                    &&& written(old(self).objects@, final(self).objects@, n)
                })
            },
            r is Err ==> final(self).objects == old(self).objects,
            final(self).inodes == old(self).inodes,
            final(self).cur_ino == old(self).cur_ino,
            final(self).cur_fh == old(self).cur_fh,
    {
        if new_length > MAX_FILE_SIZE {
            return Err(FsError::FileTooBig);
        }
        proof {
            assert(vstd::laws_cmp::obeys_cmp::<u64>());
        }
        let mut attrs = match self.objects.get(&ino) {
            Some(obj) => obj.attrs.clone(),
            None => {
                return Err(FsError::NotFound);
            },
        };
        if !check_access(attrs.uid, attrs.gid, attrs.mode, uid, gid, W_OK) {
            return Err(FsError::AccessDenied);
        }
        attrs.size = new_length;
        attrs.last_metadata_changed = now;
        attrs.last_modified = now;
        // Clear SETUID & SETGID on truncate
        clear_suid_sgid(&mut attrs);
        match self.write_inode(&attrs) {
            Ok(()) => Ok(attrs),
            Err(_) => Err(FsError::NotFound),
        }
    }
}

/// Inodes are ordered as numbers are, as the object map needs.
pub proof fn lemma_inode_order()
    ensures
        vstd::laws_cmp::obeys_cmp::<u64>(),
{
}

/// A handle made for reading passes the read check exactly when it was
/// asked for, and likewise for writing.
pub proof fn lemma_handle_bits(fh: u64, read: bool, write: bool)
    requires
        fh < FILE_HANDLE_WRITE_BIT,
    ensures
        (handle_bits(fh, read, write) & FILE_HANDLE_READ_BIT != 0) == read,
        (handle_bits(fh, read, write) & FILE_HANDLE_WRITE_BIT != 0) == write,
{
    let a: u64 = if read { fh | 0x8000_0000_0000_0000u64 } else { fh };
    let b: u64 = if write { a | 0x4000_0000_0000_0000u64 } else { a };
    assert(b == handle_bits(fh, read, write));
    assert((b & 0x8000_0000_0000_0000u64 != 0) == read && (b & 0x4000_0000_0000_0000u64 != 0) == write) by (bit_vector)
        requires
            fh < 0x4000_0000_0000_0000u64,
            a == if read { fh | 0x8000_0000_0000_0000u64 } else { fh },
            b == if write { a | 0x4000_0000_0000_0000u64 } else { a },
    ;
}

} // verus!
