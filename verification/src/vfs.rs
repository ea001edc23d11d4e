//! In-RAM, writable root filesystem.
//!
//! At boot the read-only KFS initramfs image is unpacked into an in-memory flat
//! inode table. After that every path operation (create / write / delete / mkdir /
//! rmdir) mutates RAM only. Files hand out node ids (stable slot indices) together
//! with a slot generation, so a handle to an unlinked file can never alias a file
//! created later in the same slot.
use vstd::prelude::*;
use crate::bytes::{SLASH, DOT, occurs_in, has_prefix, last_index, lemma_last_index, bytes_eq, contains_bytes, starts_with, rfind_byte, find_byte};
use crate::text::str_from_utf8;
use vstd::utf8::valid_utf8;
use vstd::string::StringSliceAdditionalSpecFns;

verus! {

pub const HEADER_SIZE: usize = 28;
pub const ENTRY_SIZE: usize = 32;
pub const VERSION: u32 = 1;
pub const FLAG_DIR: u32 = 0x1;
pub const FLAG_FILE: u32 = 0x2;

/// Max path length stored inline in a `DirEntry`.
pub const PATH_CAP: usize = 96;

// ── model ───────────────────────────────────────────────────────────────────

/// What a live node holds.
pub struct NodeView {
    pub path: Seq<u8>,
    pub is_dir: bool,
    pub data: Seq<u8>,
}

/// A table slot: its generation and the node living in it, if any.
pub struct SlotView {
    pub generation: u32,
    pub node: Option<NodeView>,
}

pub struct Node {
    path: Vec<u8>,
    is_dir: bool,
    data: Vec<u8>,
}

impl View for Node {
    type V = NodeView;

    closed spec fn view(&self) -> NodeView {
        NodeView { path: self.path@, is_dir: self.is_dir, data: self.data@ }
    }
}

/// A table slot. `generation` is bumped every time the slot is reused for a new
/// node, so a handle `(index, generation)` cannot alias a later file.
pub struct Slot {
    generation: u32,
    node: Option<Node>,
}

impl View for Slot {
    type V = SlotView;

    closed spec fn view(&self) -> SlotView {
        SlotView {
            generation: self.generation,
            node: match self.node {
                Some(n) => Some(n@),
                None => None,
            },
        }
    }
}

/// The node table.
pub struct RamFs {
    slots: Vec<Slot>,
}

pub open spec fn slots_view(v: Seq<Slot>) -> Seq<SlotView> {
    v.map_values(|s: Slot| s@)
}

impl View for RamFs {
    type V = Seq<SlotView>;

    closed spec fn view(&self) -> Seq<SlotView> {
        slots_view(self.slots@)
    }
}

/// Slot `i` holds a node.
pub open spec fn occupied(s: Seq<SlotView>, i: int) -> bool {
    0 <= i < s.len() && s[i].node is Some
}

/// The node in slot `i`.
pub open spec fn node_at(s: Seq<SlotView>, i: int) -> NodeView {
    s[i].node.unwrap()
}

/// Slot `i` holds the node at path `p`.
pub open spec fn holds_path(s: Seq<SlotView>, i: int, p: Seq<u8>) -> bool {
    occupied(s, i) && node_at(s, i).path == p
}

/// No two live nodes share a path.
pub open spec fn fs_wf(s: Seq<SlotView>) -> bool {
    forall|i: int, j: int|
        #![trigger occupied(s, i), occupied(s, j)]
        occupied(s, i) && occupied(s, j) && node_at(s, i).path == node_at(s, j).path ==> i == j
}

/// Slot holding path `p`, if any.
pub open spec fn index_of(s: Seq<SlotView>, p: Seq<u8>) -> Option<int> {
    if exists|i: int| holds_path(s, i, p) {
        Some(choose|i: int| holds_path(s, i, p))
    } else {
        None
    }
}

/// `/dev/`: where device files live.
pub open spec fn dev_prefix() -> Seq<u8> {
    seq![SLASH, 0x64u8, 0x65u8, 0x76u8, SLASH]
}

pub open spec fn root_path() -> Seq<u8> {
    seq![SLASH]
}

/// A path the filesystem accepts: absolute, no trailing slash, no empty, `.` or
/// `..` components.
pub open spec fn valid_path(p: Seq<u8>) -> bool {
    &&& p.len() > 0 && p[0] == SLASH
    &&& !(p.len() > 1 && p.last() == SLASH)
    &&& !occurs_in(p, seq![SLASH, SLASH])
    &&& !occurs_in(p, seq![SLASH, DOT, SLASH])
    &&& !occurs_in(p, seq![SLASH, DOT, DOT, SLASH])
}

/// Path of the directory containing `p`.
pub open spec fn parent_spec(p: Seq<u8>) -> Seq<u8> {
    if last_index(p, SLASH) <= 0 {
        root_path()
    } else {
        p.subrange(0, last_index(p, SLASH))
    }
}

pub open spec fn no_slash(s: Seq<u8>) -> bool {
    forall|i: int| 0 <= i < s.len() ==> s[i] != SLASH
}

/// `child` names an entry directly inside directory `parent`.
pub open spec fn is_child_spec(parent: Seq<u8>, child: Seq<u8>) -> bool {
    if child == parent {
        false
    } else if parent == root_path() {
        child.len() >= 2 && child[0] == SLASH && no_slash(child.subrange(1, child.len() as int))
    } else {
        &&& child.len() >= parent.len() + 2
        &&& has_prefix(child, parent)
        &&& child[parent.len() as int] == SLASH
        &&& no_slash(child.subrange(parent.len() as int + 1, child.len() as int))
    }
}

/// Slot `i` holds a direct child of directory `p`.
pub open spec fn child_at(s: Seq<SlotView>, p: Seq<u8>, i: int) -> bool {
    occupied(s, i) && is_child_spec(p, node_at(s, i).path)
}

/// Indices (ascending) of the first `n` slots that hold a direct child of `p`.
pub open spec fn child_indices(s: Seq<SlotView>, p: Seq<u8>, n: int) -> Seq<int>
    decreases n,
{
    if n <= 0 {
        Seq::empty()
    } else if child_at(s, p, n - 1) {
        child_indices(s, p, n - 1).push(n - 1)
    } else {
        child_indices(s, p, n - 1)
    }
}

/// Some live node is a direct child of `p`.
pub open spec fn has_child(s: Seq<SlotView>, p: Seq<u8>) -> bool {
    exists|i: int| child_at(s, p, i)
}

/// Index of the first empty slot, or `s.len()` when there is none.
pub open spec fn first_free(s: Seq<SlotView>) -> int {
    if exists|i: int| 0 <= i < s.len() && s[i].node is None {
        choose|i: int|
            0 <= i < s.len() && s[i].node is None && forall|j: int| 0 <= j < i ==> s[j].node is Some
    } else {
        s.len() as int
    }
}

/// The node at `(node, generation)` if that handle is still live.
pub open spec fn live_handle(s: Seq<SlotView>, node: u32, generation: u32) -> bool {
    occupied(s, node as int) && s[node as int].generation == generation
}

// ── public types ────────────────────────────────────────────────────────────

#[derive(Clone, Copy, PartialEq, Eq, Debug)]
pub enum VfsNode {
    File { node: u32, generation: u32, len: usize },
    Dir,
    /// A device file, identified by the device table's id for it.
    Device(u32),
}

#[derive(Clone, Copy, PartialEq, Eq, Debug)]
pub enum FileType {
    File,
    Directory,
}

#[derive(Clone, Copy, PartialEq, Eq, Debug)]
pub struct Metadata {
    pub len: usize,
    pub kind: FileType,
}

#[derive(Clone, Copy)]
pub struct DirEntry {
    pub path: [u8; PATH_CAP],
    pub path_len: usize,
    pub kind: FileType,
    pub len: usize,
}

#[derive(Clone, Copy, Debug, PartialEq, Eq)]
pub enum FsError {
    NotInitialized,
    InvalidImage,
    InvalidPath,
    NotFound,
    NotAFile,
    NotADirectory,
    BufferTooSmall,
    AlreadyExists,
    NotEmpty,
}

pub open spec fn kind_of(n: NodeView) -> FileType {
    if n.is_dir { FileType::Directory } else { FileType::File }
}

pub open spec fn min_int(a: int, b: int) -> int {
    if a < b { a } else { b }
}

/// `e` is the listing entry for node `n`: its path truncated to `PATH_CAP`
/// bytes (zero padded), its kind and its length.
pub open spec fn entry_matches(e: DirEntry, n: NodeView) -> bool {
    let take = min_int(n.path.len() as int, PATH_CAP as int);
    &&& e.path_len == take
    &&& forall|k: int| 0 <= k < PATH_CAP ==> #[trigger] e.path@[k] == (if k < take { n.path[k] } else { 0u8 })
    &&& e.kind == kind_of(n)
    &&& e.len == n.data.len()
}

impl DirEntry {
    pub fn empty() -> (e: Self)
        ensures
            e.path_len == 0,
            e.kind == FileType::File,
            e.len == 0,
            forall|k: int| 0 <= k < PATH_CAP ==> e.path@[k] == 0u8,
    {
        Self { path: [0u8; PATH_CAP], path_len: 0, kind: FileType::File, len: 0 }
    }

    /// The entry's path as text, or "" when the stored bytes are not UTF-8.
    pub fn name(&self) -> (s: &str)
        requires
            self.path_len <= PATH_CAP,
        ensures
            valid_utf8(self.path@.subrange(0, self.path_len as int)) ==> s.spec_bytes() == self.path@.subrange(
                0,
                self.path_len as int,
            ),
            !valid_utf8(self.path@.subrange(0, self.path_len as int)) ==> s@.len() == 0,
    {
        let bytes = self.path.as_slice();
        let taken = &bytes[0..self.path_len];
        match str_from_utf8(taken) {
            Some(s) => s,
            None => {
                let e = "";
                proof {
                    reveal_strlit("");
                }
                e
            },
        }
    }
}

// ── operation specs ─────────────────────────────────────────────────────────

/// What `lookup` answers for path `p` (`device` is the device table's answer for
/// `p`).
pub open spec fn lookup_spec(s: Seq<SlotView>, p: Seq<u8>, device: Option<u32>) -> Result<VfsNode, FsError> {
    if !valid_path(p) {
        Err(FsError::InvalidPath)
    } else if has_prefix(p, dev_prefix()) && device is Some {
        Ok(VfsNode::Device(device.unwrap()))
    } else {
        match index_of(s, p) {
            None => Err(FsError::NotFound),
            Some(i) => if node_at(s, i).is_dir {
                Ok(VfsNode::Dir)
            } else {
                Ok(VfsNode::File { node: i as u32, generation: s[i].generation, len: node_at(s, i).data.len() as usize })
            },
        }
    }
}

pub open spec fn metadata_spec(s: Seq<SlotView>, p: Seq<u8>) -> Result<Metadata, FsError> {
    if !valid_path(p) {
        Err(FsError::InvalidPath)
    } else {
        match index_of(s, p) {
            None => Err(FsError::NotFound),
            Some(i) => Ok(Metadata { len: node_at(s, i).data.len() as usize, kind: kind_of(node_at(s, i)) }),
        }
    }
}

/// Bytes `read_at` copies out for a buffer of `buf_len` bytes.
pub open spec fn read_at_spec(s: Seq<SlotView>, node: u32, generation: u32, offset: usize, buf_len: nat) -> Seq<u8> {
    if !live_handle(s, node, generation) {
        Seq::empty()
    } else {
        let n = node_at(s, node as int);
        if n.is_dir || offset >= n.data.len() {
            Seq::empty()
        } else {
            n.data.subrange(offset as int, min_int(n.data.len() as int, offset + buf_len))
        }
    }
}

/// File contents after writing `src` at `offset` (growing with zero bytes).
pub open spec fn write_data(data: Seq<u8>, offset: int, src: Seq<u8>) -> Seq<u8> {
    let end = offset + src.len();
    let grown = if end > data.len() {
        data + Seq::new((end - data.len()) as nat, |k: int| 0u8)
    } else {
        data
    };
    grown.subrange(0, offset) + src + grown.subrange(end, grown.len() as int)
}

/// The table after `write_at(node, generation, offset, src)`.
pub open spec fn write_at_spec(s: Seq<SlotView>, node: u32, generation: u32, offset: usize, src: Seq<u8>) -> Seq<SlotView> {
    if live_handle(s, node, generation) && !node_at(s, node as int).is_dir {
        let n = node_at(s, node as int);
        s.update(
            node as int,
            SlotView {
                generation,
                node: Some(NodeView { path: n.path, is_dir: false, data: write_data(n.data, offset as int, src) }),
            },
        )
    } else {
        s
    }
}

/// The table after `truncate(node, generation)`.
pub open spec fn truncate_spec(s: Seq<SlotView>, node: u32, generation: u32) -> Seq<SlotView> {
    if live_handle(s, node, generation) && !node_at(s, node as int).is_dir {
        let n = node_at(s, node as int);
        s.update(
            node as int,
            SlotView { generation, node: Some(NodeView { path: n.path, is_dir: false, data: Seq::empty() }) },
        )
    } else {
        s
    }
}

pub open spec fn next_generation(g: u32) -> u32 {
    if g == u32::MAX { 0 } else { (g + 1) as u32 }
}

/// Why `make(p, is_dir)` fails, if it does.
pub open spec fn make_error(s: Seq<SlotView>, p: Seq<u8>) -> Option<FsError> {
    if !valid_path(p) {
        Some(FsError::InvalidPath)
    } else if p == root_path() || index_of(s, p) is Some {
        Some(FsError::AlreadyExists)
    } else {
        match index_of(s, parent_spec(p)) {
            None => Some(FsError::NotFound),
            Some(q) => if node_at(s, q).is_dir { None } else { Some(FsError::NotADirectory) },
        }
    }
}

/// Table and result of a successful `make(p, is_dir)`.
pub open spec fn make_spec(s: Seq<SlotView>, p: Seq<u8>, is_dir: bool) -> (Seq<SlotView>, (u32, u32)) {
    let fresh = NodeView { path: p, is_dir, data: Seq::empty() };
    let i = first_free(s);
    if i < s.len() {
        let g = next_generation(s[i].generation);
        (s.update(i, SlotView { generation: g, node: Some(fresh) }), (i as u32, g))
    } else {
        (s.push(SlotView { generation: 0, node: Some(fresh) }), (s.len() as u32, 0u32))
    }
}

pub open spec fn unlink_error(s: Seq<SlotView>, p: Seq<u8>) -> Option<FsError> {
    if !valid_path(p) {
        Some(FsError::InvalidPath)
    } else {
        match index_of(s, p) {
            None => Some(FsError::NotFound),
            Some(i) => if node_at(s, i).is_dir { Some(FsError::NotAFile) } else { None },
        }
    }
}

pub open spec fn rmdir_error(s: Seq<SlotView>, p: Seq<u8>) -> Option<FsError> {
    if !valid_path(p) {
        Some(FsError::InvalidPath)
    } else if p == root_path() {
        Some(FsError::NotEmpty)
    } else {
        match index_of(s, p) {
            None => Some(FsError::NotFound),
            Some(i) => if !node_at(s, i).is_dir {
                Some(FsError::NotADirectory)
            } else if has_child(s, p) {
                Some(FsError::NotEmpty)
            } else {
                None
            },
        }
    }
}

/// The table with the node at path `p` removed (its slot kept, generation kept).
pub open spec fn remove_spec(s: Seq<SlotView>, p: Seq<u8>) -> Seq<SlotView> {
    let i = index_of(s, p).unwrap();
    s.update(i, SlotView { generation: s[i].generation, node: None })
}

// ── lemmas ──────────────────────────────────────────────────────────────────

proof fn lemma_index_of(s: Seq<SlotView>, p: Seq<u8>, i: int)
    requires
        fs_wf(s),
        holds_path(s, i, p),
    ensures
        index_of(s, p) == Some(i),
{
    let j = choose|j: int| holds_path(s, j, p);
    assert(occupied(s, i) && occupied(s, j));
}

proof fn lemma_first_free(s: Seq<SlotView>, i: int)
    requires
        0 <= i <= s.len(),
        forall|j: int| 0 <= j < i ==> s[j].node is Some,
        i == s.len() || s[i].node is None,
    ensures
        first_free(s) == i,
{
    if i < s.len() {
        let k = choose|k: int|
            0 <= k < s.len() && s[k].node is None && forall|j: int| 0 <= j < k ==> s[j].node is Some;
        assert(k == i) by {
            if k < i {
                assert(s[k].node is Some);
            } else if k > i {
                assert(s[i].node is Some);
            }
        }
    } else {
        assert(!exists|k: int| 0 <= k < s.len() && s[k].node is None);
    }
}

// ── helpers ─────────────────────────────────────────────────────────────────

/// Slot holding `path`, scanning from the front.
fn find(slots: &Vec<Slot>, path: &[u8]) -> (r: Option<usize>)
    ensures
        match r {
            Some(i) => holds_path(slots_view(slots@), i as int, path@) && forall|j: int|
                0 <= j < i ==> !holds_path(slots_view(slots@), j, path@),
            None => forall|j: int| !holds_path(slots_view(slots@), j, path@),
        },
{
    let ghost s = slots_view(slots@);
    let mut i: usize = 0;
    while i < slots.len()
        invariant
            s == slots_view(slots@),
            i <= slots@.len(),
            forall|j: int| 0 <= j < i ==> !holds_path(s, j, path@),
        decreases slots@.len() - i,
    {
        match &slots[i].node {
            Some(n) => {
                if bytes_eq(n.path.as_slice(), path) {
                    return Some(i);
                }
            },
            None => {},
        }
        i = i + 1;
    }
    None
}

/// Index of `path`'s slot under the no-duplicates invariant.
fn find_unique(slots: &Vec<Slot>, path: &[u8]) -> (r: Option<usize>)
    requires
        fs_wf(slots_view(slots@)),
    ensures
        match r {
            Some(i) => index_of(slots_view(slots@), path@) == Some(i as int) && holds_path(
                slots_view(slots@),
                i as int,
                path@,
            ),
            None => index_of(slots_view(slots@), path@) is None,
        },
{
    let r = find(slots, path);
    proof {
        if let Some(i) = r {
            lemma_index_of(slots_view(slots@), path@, i as int);
        }
    }
    r
}

/// Directory that contains `path`.
fn parent_of(path: &[u8]) -> (r: &[u8])
    requires
        path@.len() > 0,
        path@[0] == SLASH,
    ensures
        r@ == parent_spec(path@),
{
    proof {
        lemma_last_index(path@, SLASH);
    }
    match rfind_byte(path, SLASH) {
        Some(0) | None => {
            assert(path@.subrange(0, 1) =~= root_path());
            &path[0..1]
        },
        Some(i) => &path[0..i],
    }
}

/// Reject paths that are not absolute or hold empty, `.` or `..` components.
fn validate_path(path: &[u8]) -> (r: Result<(), FsError>)
    ensures
        r is Ok <==> valid_path(path@),
        r is Err ==> r == Err::<(), FsError>(FsError::InvalidPath),
{
    let double: [u8; 2] = [SLASH, SLASH];
    let dot: [u8; 3] = [SLASH, DOT, SLASH];
    let dotdot: [u8; 4] = [SLASH, DOT, DOT, SLASH];
    assert(double@ =~= seq![SLASH, SLASH]);
    assert(dot@ =~= seq![SLASH, DOT, SLASH]);
    assert(dotdot@ =~= seq![SLASH, DOT, DOT, SLASH]);
    if path.len() == 0 || path[0] != SLASH {
        return Err(FsError::InvalidPath);
    }
    if path.len() > 1 && path[path.len() - 1] == SLASH {
        return Err(FsError::InvalidPath);
    }
    if contains_bytes(path, double.as_slice()) || contains_bytes(path, dot.as_slice())
        || contains_bytes(path, dotdot.as_slice()) {
        return Err(FsError::InvalidPath);
    }
    Ok(())
}

/// Whether `child` names an entry directly inside directory `parent`.
fn is_child(parent: &[u8], child: &[u8]) -> (r: bool)
    ensures
        r == is_child_spec(parent@, child@),
{
    if bytes_eq(child, parent) {
        return false;
    }
    let rest_start: usize;
    if parent.len() == 1 && parent[0] == SLASH {
        assert(parent@ =~= root_path());
        if child.len() < 2 || child[0] != SLASH {
            return false;
        }
        rest_start = 1;
    } else {
        assert(parent@ != root_path());
        if parent.len() > child.len() || child.len() - parent.len() < 2 {
            return false;
        }
        if !starts_with(child, parent) || child[parent.len()] != SLASH {
            return false;
        }
        rest_start = parent.len() + 1;
    }
    let rest = &child[rest_start..child.len()];
    assert(rest@ =~= child@.subrange(rest_start as int, child@.len() as int));
    match find_byte(rest, SLASH) {
        Some(_) => false,
        None => true,
    }
}

/// The listing entry for `n`.
fn make_entry(n: &Node) -> (e: DirEntry)
    ensures
        entry_matches(e, n@),
{
    let take = if n.path.len() < PATH_CAP { n.path.len() } else { PATH_CAP };
    let mut e = DirEntry::empty();
    let mut k: usize = 0;
    while k < take
        invariant
            take == min_int(n.path@.len() as int, PATH_CAP as int),
            k <= take,
            e.path_len == 0,
            e.kind == FileType::File,
            e.len == 0,
            forall|j: int| 0 <= j < PATH_CAP ==> #[trigger] e.path@[j] == (if j < k { n.path@[j] } else { 0u8 }),
        decreases take - k,
    {
        e.path[k] = n.path[k];
        k = k + 1;
    }
    e.path_len = take;
    e.kind = if n.is_dir { FileType::Directory } else { FileType::File };
    e.len = n.data.len();
    e
}

// ── operations ──────────────────────────────────────────────────────────────

impl RamFs {
    /// An empty node table (what the filesystem holds before `init`).
    pub fn new() -> (fs: Self)
        ensures
            fs@ == Seq::<SlotView>::empty(),
            fs_wf(fs@),
    {
        let fs = RamFs { slots: Vec::new() };
        assert(fs@ =~= Seq::<SlotView>::empty());
        fs
    }
}

/// Resolve `path` to a file handle, a directory or a device. `device` is what
/// the device table answers for `path`; it wins for paths under `/dev/`.
pub fn lookup(fs: &RamFs, path: &str, device: Option<u32>) -> (r: Result<VfsNode, FsError>)
    requires
        fs_wf(fs@),
    ensures
        r == lookup_spec(fs@, path.spec_bytes(), device),
{
    let p = path.as_bytes();
    validate_path(p)?;
    let dev: [u8; 5] = [SLASH, 0x64u8, 0x65u8, 0x76u8, SLASH];
    assert(dev@ =~= dev_prefix());
    if starts_with(p, dev.as_slice()) {
        if let Some(d) = device {
            return Ok(VfsNode::Device(d));
        }
    }
    let id = match find_unique(&fs.slots, p) {
        Some(id) => id,
        None => return Err(FsError::NotFound),
    };
    let s = &fs.slots[id];
    match &s.node {
        Some(n) => {
            if n.is_dir {
                Ok(VfsNode::Dir)
            } else {
                Ok(VfsNode::File { node: id as u32, generation: s.generation, len: n.data.len() })
            }
        },
        None => Err(FsError::NotFound),
    }
}

/// Length and kind of the node at `path`.
pub fn metadata(fs: &RamFs, path: &str) -> (r: Result<Metadata, FsError>)
    requires
        fs_wf(fs@),
    ensures
        r == metadata_spec(fs@, path.spec_bytes()),
{
    let p = path.as_bytes();
    validate_path(p)?;
    let id = match find_unique(&fs.slots, p) {
        Some(id) => id,
        None => return Err(FsError::NotFound),
    };
    match &fs.slots[id].node {
        Some(n) => Ok(
            Metadata { len: n.data.len(), kind: if n.is_dir { FileType::Directory } else { FileType::File } },
        ),
        None => Err(FsError::NotFound),
    }
}

/// Copy a whole file out of the ramfs (used by the program loader).
pub fn read_file(fs: &RamFs, path: &str) -> (r: Result<Vec<u8>, FsError>)
    requires
        fs_wf(fs@),
    ensures
        !valid_path(path.spec_bytes()) ==> r == Err::<Vec<u8>, FsError>(FsError::InvalidPath),
        valid_path(path.spec_bytes()) && index_of(fs@, path.spec_bytes()) is None ==> r == Err::<
            Vec<u8>,
            FsError,
        >(FsError::NotFound),
        valid_path(path.spec_bytes()) && index_of(fs@, path.spec_bytes()) is Some ==> {
            let n = node_at(fs@, index_of(fs@, path.spec_bytes()).unwrap());
            &&& n.is_dir ==> r == Err::<Vec<u8>, FsError>(FsError::NotAFile)
            &&& !n.is_dir ==> r is Ok && r.unwrap()@ == n.data
        },
{
    let p = path.as_bytes();
    validate_path(p)?;
    let id = match find_unique(&fs.slots, p) {
        Some(id) => id,
        None => return Err(FsError::NotFound),
    };
    match &fs.slots[id].node {
        Some(n) => {
            if n.is_dir {
                return Err(FsError::NotAFile);
            }
            let mut out: Vec<u8> = Vec::new();
            let mut k: usize = 0;
            while k < n.data.len()
                invariant
                    k <= n.data@.len(),
                    out@ == n.data@.subrange(0, k as int),
                decreases n.data@.len() - k,
            {
                out.push(n.data[k]);
                k = k + 1;
                assert(out@ =~= n.data@.subrange(0, k as int));
            }
            assert(n.data@.subrange(0, n.data@.len() as int) =~= n.data@);
            Ok(out)
        },
        None => Err(FsError::NotFound),
    }
}

proof fn lemma_child_indices_step(s: Seq<SlotView>, p: Seq<u8>, n: int)
    requires
        n >= 0,
    ensures
        child_indices(s, p, n).len() <= n,
        forall|k: int| 0 <= k < child_indices(s, p, n).len() ==> {
            let c = #[trigger] child_indices(s, p, n)[k];
            0 <= c < n && child_at(s, p, c)
        },
    decreases n,
{
    if n > 0 {
        lemma_child_indices_step(s, p, n - 1);
    }
}

proof fn lemma_child_indices_none(s: Seq<SlotView>, p: Seq<u8>, n: int)
    requires
        0 <= n,
        child_indices(s, p, n).len() == 0,
    ensures
        forall|i: int| 0 <= i < n ==> !child_at(s, p, i),
    decreases n,
{
    if n > 0 {
        if child_at(s, p, n - 1) {
            assert(child_indices(s, p, n).len() > 0);
        }
        lemma_child_indices_none(s, p, n - 1);
    }
}

/// List the direct children of directory `path` into `out` in table order.
pub fn read_dir(fs: &RamFs, path: &str, out: &mut [DirEntry]) -> (r: Result<usize, FsError>)
    requires
        fs_wf(fs@),
    ensures
        ({
            let p = path.spec_bytes();
            let s = fs@;
            let c = child_indices(s, p, s.len() as int);
            &&& !valid_path(p) ==> r == Err::<usize, FsError>(FsError::InvalidPath) && final(out)@ == old(out)@
            &&& valid_path(p) && index_of(s, p) is None ==> r == Err::<usize, FsError>(FsError::NotFound)
                && final(out)@ == old(out)@
            &&& valid_path(p) && index_of(s, p) is Some && !node_at(s, index_of(s, p).unwrap()).is_dir ==> r
                == Err::<usize, FsError>(FsError::NotADirectory) && final(out)@ == old(out)@
            &&& valid_path(p) && index_of(s, p) is Some && node_at(s, index_of(s, p).unwrap()).is_dir ==> {
                &&& c.len() <= old(out)@.len() ==> r == Ok::<usize, FsError>(c.len() as usize)
                &&& c.len() > old(out)@.len() ==> r == Err::<usize, FsError>(FsError::BufferTooSmall)
                &&& final(out)@.len() == old(out)@.len()
                &&& forall|k: int|
                    0 <= k < min_int(c.len() as int, old(out)@.len() as int) ==> entry_matches(
                        #[trigger] final(out)@[k],
                        node_at(s, c[k]),
                    )
                &&& forall|k: int| c.len() <= k < old(out)@.len() ==> #[trigger] final(out)@[k] == old(out)@[k]
            }
        }),
{
    let p = path.as_bytes();
    validate_path(p)?;
    let dir_id = match find_unique(&fs.slots, p) {
        Some(id) => id,
        None => return Err(FsError::NotFound),
    };
    match &fs.slots[dir_id].node {
        Some(n) => {
            if !n.is_dir {
                return Err(FsError::NotADirectory);
            }
        },
        None => return Err(FsError::NotFound),
    }
    let ghost s = fs@;
    let ghost old_out = out@;
    let mut count: usize = 0;
    let mut i: usize = 0;
    while i < fs.slots.len()
        invariant
            s == fs@,
            s == slots_view(fs.slots@),
            p@ == path.spec_bytes(),
            valid_path(p@),
            index_of(s, p@) is Some,
            node_at(s, index_of(s, p@).unwrap()).is_dir,
            i <= fs.slots@.len(),
            count == child_indices(s, p@, i as int).len(),
            count <= out@.len(),
            out@.len() == old_out.len(),
            old_out == old(out)@,
            forall|k: int| 0 <= k < count ==> entry_matches(#[trigger] out@[k], node_at(s, child_indices(s, p@, i as int)[k])),
            forall|k: int| count <= k < out@.len() ==> #[trigger] out@[k] == old_out[k],
        decreases fs.slots@.len() - i,
    {
        proof {
            lemma_child_indices_step(s, p@, i as int);
        }
        match &fs.slots[i].node {
            Some(n) => {
                if is_child(p, n.path.as_slice()) {
                    assert(child_at(s, p@, i as int));
                    if count >= out.len() {
                        proof {
                            assert forall|k: int| 0 <= k < count implies child_indices(s, p@, (i + 1) as int)[k]
                                == child_indices(s, p@, i as int)[k] by {
                                assert(child_indices(s, p@, i + 1) == child_indices(s, p@, i as int).push(i as int));
                            }
                            lemma_child_indices_grow(s, p@, (i + 1) as int, fs.slots@.len() as int);
                            assert(child_indices(s, p@, i + 1) == child_indices(s, p@, i as int).push(i as int));
                            let c = child_indices(s, p@, s.len() as int);
                            assert(c.len() > out@.len());
                            assert forall|k: int| 0 <= k < min_int(c.len() as int, out@.len() as int) implies entry_matches(
                                #[trigger] out@[k],
                                node_at(s, c[k]),
                            ) by {
                                assert(c[k] == child_indices(s, p@, (i + 1) as int)[k]);
                                assert(child_indices(s, p@, (i + 1) as int)[k] == child_indices(s, p@, i as int)[k]);
                            }
                        }
                        return Err(FsError::BufferTooSmall);
                    }
                    out[count] = make_entry(n);
                    count = count + 1;
                    assert(child_indices(s, p@, i + 1) == child_indices(s, p@, i as int).push(i as int));
                } else {
                    assert(!child_at(s, p@, i as int));
                    assert(child_indices(s, p@, i + 1) == child_indices(s, p@, i as int));
                }
            },
            None => {
                assert(!child_at(s, p@, i as int));
                assert(child_indices(s, p@, i + 1) == child_indices(s, p@, i as int));
            },
        }
        i = i + 1;
    }
    Ok(count)
}

proof fn lemma_child_indices_grow(s: Seq<SlotView>, p: Seq<u8>, m: int, n: int)
    requires
        0 <= m <= n,
    ensures
        child_indices(s, p, m).len() <= child_indices(s, p, n).len(),
        forall|k: int| 0 <= k < child_indices(s, p, m).len() ==> #[trigger] child_indices(s, p, n)[k] == child_indices(s, p, m)[k],
    decreases n - m,
{
    if m < n {
        lemma_child_indices_grow(s, p, m, n - 1);
    }
}

/// Look up the node behind `(node, generation)`, if that handle is still live.
fn live(slots: &Vec<Slot>, node: u32, generation: u32) -> (r: Option<&Node>)
    ensures
        match r {
            Some(n) => live_handle(slots_view(slots@), node, generation) && n@ == node_at(
                slots_view(slots@),
                node as int,
            ),
            None => !live_handle(slots_view(slots@), node, generation),
        },
{
    let idx = node as usize;
    if idx >= slots.len() {
        return None;
    }
    let s = &slots[idx];
    if s.generation != generation {
        return None;
    }
    s.node.as_ref()
}

/// Whether `(node, generation)` is a live file (not a directory).
fn live_file(slots: &Vec<Slot>, node: u32, generation: u32) -> (r: bool)
    ensures
        r == (live_handle(slots_view(slots@), node, generation) && !node_at(slots_view(slots@), node as int).is_dir),
{
    match live(slots, node, generation) {
        Some(n) => !n.is_dir,
        None => false,
    }
}

/// Copy bytes of the file `(node, generation)` from `offset` into `buf`; returns
/// how many were copied (0 for a stale handle, a directory or an offset at or
/// past the end).
pub fn read_at(fs: &RamFs, node: u32, generation: u32, offset: usize, buf: &mut [u8]) -> (n: usize)
    ensures
        ({
            let got = read_at_spec(fs@, node, generation, offset, old(buf)@.len());
            &&& n == got.len()
            &&& final(buf)@.len() == old(buf)@.len()
            &&& final(buf)@.subrange(0, n as int) == got
            &&& final(buf)@.subrange(n as int, final(buf)@.len() as int) == old(buf)@.subrange(n as int, old(buf)@.len() as int)
        }),
{
    let n = match live(&fs.slots, node, generation) {
        Some(n) => n,
        None => {
            assert(old(buf)@.subrange(0, 0) =~= Seq::<u8>::empty());
            assert(buf@.subrange(0, buf@.len() as int) =~= buf@);
            return 0;
        },
    };
    if n.is_dir || offset >= n.data.len() {
        assert(buf@.subrange(0, 0) =~= Seq::<u8>::empty());
        assert(buf@.subrange(0, buf@.len() as int) =~= buf@);
        return 0;
    }
    let avail = n.data.len() - offset;
    let take = if buf.len() < avail { buf.len() } else { avail };
    let ghost old_buf = buf@;
    let mut k: usize = 0;
    while k < take
        invariant
            take <= buf@.len(),
            offset + take <= n.data@.len(),
            offset + take <= n.data.len(),
            k <= take,
            buf@.len() == old_buf.len(),
            forall|j: int| 0 <= j < k ==> buf@[j] == n.data@[offset + j],
            forall|j: int| take <= j < buf@.len() ==> buf@[j] == old_buf[j],
        decreases take - k,
    {
        buf[k] = n.data[offset + k];
        k = k + 1;
    }
    assert(buf@.subrange(0, take as int) =~= n.data@.subrange(offset as int, offset + take));
    assert(buf@.subrange(take as int, buf@.len() as int) =~= old_buf.subrange(take as int, old_buf.len() as int));
    take
}

/// Empty the file `(node, generation)`; stale handles and directories are ignored.
pub fn truncate(fs: &mut RamFs, node: u32, generation: u32)
    requires
        fs_wf(old(fs)@),
    ensures
        final(fs)@ == truncate_spec(old(fs)@, node, generation),
        fs_wf(final(fs)@),
{
    if live_file(&fs.slots, node, generation) {
        let idx = node as usize;
        let ghost s = fs@;
        let slot = &mut fs.slots[idx];
        match &mut slot.node {
            Some(n) => {
                n.data.clear();
            },
            None => {},
        }
        proof {
            assert(fs@ =~= truncate_spec(s, node, generation));
            assert forall|i: int, j: int|
                #![trigger occupied(fs@, i), occupied(fs@, j)]
                occupied(fs@, i) && occupied(fs@, j) && node_at(fs@, i).path == node_at(fs@, j).path implies i == j by {
                assert(occupied(s, i) && occupied(s, j));
            }
        }
    }
}

/// Write `src` into the file `(node, generation)` at `offset`, growing it with
/// zero bytes as needed. Returns `src.len()`, or 0 for a stale handle or a
/// directory.
pub fn write_at(fs: &mut RamFs, node: u32, generation: u32, offset: usize, src: &[u8]) -> (n: usize)
    requires
        fs_wf(old(fs)@),
        live_handle(old(fs)@, node, generation) && !node_at(old(fs)@, node as int).is_dir ==> offset + src@.len() <= usize::MAX,
    ensures
        final(fs)@ == write_at_spec(old(fs)@, node, generation, offset, src@),
        fs_wf(final(fs)@),
        n == (if live_handle(old(fs)@, node, generation) && !node_at(old(fs)@, node as int).is_dir {
            src@.len() as usize
        } else {
            0
        }),
{
    if !live_file(&fs.slots, node, generation) {
        return 0;
    }
    let idx = node as usize;
    let ghost s = fs@;
    let slot = &mut fs.slots[idx];
    match &mut slot.node {
        Some(n) => {
            write_into(&mut n.data, offset, src);
        },
        None => {},
    }
    proof {
        assert(fs@ =~= write_at_spec(s, node, generation, offset, src@));
        assert forall|i: int, j: int|
            #![trigger occupied(fs@, i), occupied(fs@, j)]
            occupied(fs@, i) && occupied(fs@, j) && node_at(fs@, i).path == node_at(fs@, j).path implies i == j by {
            assert(occupied(s, i) && occupied(s, j));
        }
    }
    src.len()
}

/// Overwrite `data` with `src` at `offset`, zero-extending it first if needed.
fn write_into(data: &mut Vec<u8>, offset: usize, src: &[u8])
    requires
        offset + src@.len() <= usize::MAX,
    ensures
        final(data)@ == write_data(old(data)@, offset as int, src@),
{
    let end = offset + src.len();
    let ghost old_data = data@;
    if end > data.len() {
        data.resize(end, 0u8);
    }
    let ghost grown = data@;
    assert(grown =~= (if end > old_data.len() {
        old_data + Seq::new((end - old_data.len()) as nat, |k: int| 0u8)
    } else {
        old_data
    }));
    let mut k: usize = 0;
    while k < src.len()
        invariant
            data@.len() == grown.len(),
            end == offset + src@.len(),
            end <= grown.len(),
            k <= src@.len(),
            forall|j: int| 0 <= j < offset ==> data@[j] == grown[j],
            forall|j: int| end <= j < grown.len() ==> data@[j] == grown[j],
            forall|j: int| offset <= j < offset + k ==> data@[j] == src@[j - offset],
            forall|j: int| offset + k <= j < end ==> data@[j] == grown[j],
        decreases src@.len() - k,
    {
        data.set(offset + k, src[k]);
        k = k + 1;
    }
    assert(data@ =~= write_data(old_data, offset as int, src@));
}

/// Create an empty file; returns its `(node, generation)` handle.
pub fn create(fs: &mut RamFs, path: &str) -> (r: Result<(u32, u32), FsError>)
    requires
        fs_wf(old(fs)@),
    ensures
        fs_wf(final(fs)@),
        make_error(old(fs)@, path.spec_bytes()) is Some ==> r == Err::<(u32, u32), FsError>(
            make_error(old(fs)@, path.spec_bytes()).unwrap(),
        ) && final(fs)@ == old(fs)@,
        make_error(old(fs)@, path.spec_bytes()) is None ==> r == Ok::<(u32, u32), FsError>(
            make_spec(old(fs)@, path.spec_bytes(), false).1,
        ) && final(fs)@ == make_spec(old(fs)@, path.spec_bytes(), false).0,
{
    make(fs, path.as_bytes(), false)
}

/// Create an empty directory.
pub fn mkdir(fs: &mut RamFs, path: &str) -> (r: Result<(), FsError>)
    requires
        fs_wf(old(fs)@),
    ensures
        fs_wf(final(fs)@),
        make_error(old(fs)@, path.spec_bytes()) is Some ==> r == Err::<(), FsError>(
            make_error(old(fs)@, path.spec_bytes()).unwrap(),
        ) && final(fs)@ == old(fs)@,
        make_error(old(fs)@, path.spec_bytes()) is None ==> r == Ok::<(), FsError>(())
            && final(fs)@ == make_spec(old(fs)@, path.spec_bytes(), true).0,
{
    match make(fs, path.as_bytes(), true) {
        Ok(_) => Ok(()),
        Err(e) => Err(e),
    }
}

/// Index of the first empty slot, or the table length.
fn free_slot(slots: &Vec<Slot>) -> (r: usize)
    ensures
        r as int == first_free(slots_view(slots@)),
        r <= slots@.len(),
{
    let ghost s = slots_view(slots@);
    let mut i: usize = 0;
    while i < slots.len()
        invariant
            s == slots_view(slots@),
            i <= slots@.len(),
            forall|j: int| 0 <= j < i ==> s[j].node is Some,
        decreases slots@.len() - i,
    {
        if slots[i].node.is_none() {
            proof {
                lemma_first_free(s, i as int);
            }
            return i;
        }
        i = i + 1;
    }
    proof {
        lemma_first_free(s, i as int);
    }
    i
}

fn copy_bytes(src: &[u8]) -> (v: Vec<u8>)
    ensures
        v@ == src@,
{
    let mut v: Vec<u8> = Vec::new();
    let mut k: usize = 0;
    while k < src.len()
        invariant
            k <= src@.len(),
            v@ == src@.subrange(0, k as int),
        decreases src@.len() - k,
    {
        v.push(src[k]);
        k = k + 1;
        assert(v@ =~= src@.subrange(0, k as int));
    }
    assert(src@.subrange(0, src@.len() as int) =~= src@);
    v
}

/// Why creating `path` would fail, if it would.
fn make_check(slots: &Vec<Slot>, path: &[u8]) -> (r: Option<FsError>)
    requires
        fs_wf(slots_view(slots@)),
    ensures
        r == make_error(slots_view(slots@), path@),
{
    if validate_path(path).is_err() {
        return Some(FsError::InvalidPath);
    }
    if path.len() == 1 {
        assert(path@ =~= root_path());
        return Some(FsError::AlreadyExists);
    }
    assert(path@ != root_path());
    if find_unique(slots, path).is_some() {
        return Some(FsError::AlreadyExists);
    }
    let parent = parent_of(path);
    match find_unique(slots, parent) {
        Some(q) => match &slots[q].node {
            Some(pn) => if pn.is_dir { None } else { Some(FsError::NotADirectory) },
            None => Some(FsError::NotFound),
        },
        None => Some(FsError::NotFound),
    }
}

/// Put a fresh node for `path` into the first empty slot (bumping its
/// generation) or a new slot at the end.
fn place_node(fs: &mut RamFs, path: &[u8], is_dir: bool) -> (r: (u32, u32))
    requires
        fs_wf(old(fs)@),
        index_of(old(fs)@, path@) is None,
    ensures
        fs_wf(final(fs)@),
        r == make_spec(old(fs)@, path@, is_dir).1,
        final(fs)@ == make_spec(old(fs)@, path@, is_dir).0,
{
    let ghost s = fs@;
    let node = Node { path: copy_bytes(path), is_dir, data: Vec::new() };
    let i = free_slot(&fs.slots);
    let ghost fresh = NodeView { path: path@, is_dir, data: Seq::empty() };
    assert(node@ == fresh);
    if i < fs.slots.len() {
        let g = if fs.slots[i].generation == u32::MAX { 0 } else { fs.slots[i].generation + 1 };
        fs.slots.set(i, Slot { generation: g, node: Some(node) });
        proof {
            assert(fs@ =~= make_spec(s, path@, is_dir).0);
            lemma_insert_keeps_wf(s, i as int, path@, fs@);
        }
        (i as u32, g)
    } else {
        let len = fs.slots.len();
        fs.slots.push(Slot { generation: 0, node: Some(node) });
        proof {
            assert(fs@ =~= make_spec(s, path@, is_dir).0);
            lemma_insert_keeps_wf(s, i as int, path@, fs@);
        }
        (len as u32, 0)
    }
}

fn make(fs: &mut RamFs, path: &[u8], is_dir: bool) -> (r: Result<(u32, u32), FsError>)
    requires
        fs_wf(old(fs)@),
    ensures
        fs_wf(final(fs)@),
        make_error(old(fs)@, path@) is Some ==> r == Err::<(u32, u32), FsError>(make_error(old(fs)@, path@).unwrap())
            && final(fs)@ == old(fs)@,
        make_error(old(fs)@, path@) is None ==> r == Ok::<(u32, u32), FsError>(make_spec(old(fs)@, path@, is_dir).1)
            && final(fs)@ == make_spec(old(fs)@, path@, is_dir).0,
{
    match make_check(&fs.slots, path) {
        Some(e) => Err(e),
        None => Ok(place_node(fs, path, is_dir)),
    }
}

/// Placing a node with a path not yet present into slot `i` keeps paths unique.
proof fn lemma_insert_keeps_wf(s: Seq<SlotView>, i: int, p: Seq<u8>, t: Seq<SlotView>)
    requires
        fs_wf(s),
        index_of(s, p) is None,
        0 <= i <= s.len(),
        t.len() as int == (if i == s.len() { s.len() + 1int } else { s.len() as int }),
        occupied(t, i),
        node_at(t, i).path == p,
        forall|k: int| 0 <= k < s.len() && k != i ==> t[k] == s[k],
    ensures
        fs_wf(t),
{
    assert forall|a: int, b: int|
        #![trigger occupied(t, a), occupied(t, b)]
        occupied(t, a) && occupied(t, b) && node_at(t, a).path == node_at(t, b).path implies a == b by {
        if a != i && b != i {
            assert(occupied(s, a) && occupied(s, b));
        } else if a == i && b != i {
            assert(holds_path(s, b, p));
        } else if b == i && a != i {
            assert(holds_path(s, a, p));
        }
    }
}

/// Clearing a slot keeps paths unique.
proof fn lemma_remove_keeps_wf(s: Seq<SlotView>, i: int, t: Seq<SlotView>)
    requires
        fs_wf(s),
        0 <= i < s.len(),
        t == s.update(i, SlotView { generation: s[i].generation, node: None }),
    ensures
        fs_wf(t),
{
    assert forall|a: int, b: int|
        #![trigger occupied(t, a), occupied(t, b)]
        occupied(t, a) && occupied(t, b) && node_at(t, a).path == node_at(t, b).path implies a == b by {
        assert(occupied(s, a) && occupied(s, b));
    }
}

/// Delete the file at `path`.
pub fn unlink(fs: &mut RamFs, path: &str) -> (r: Result<(), FsError>)
    requires
        fs_wf(old(fs)@),
    ensures
        fs_wf(final(fs)@),
        unlink_error(old(fs)@, path.spec_bytes()) is Some ==> r == Err::<(), FsError>(
            unlink_error(old(fs)@, path.spec_bytes()).unwrap(),
        ) && final(fs)@ == old(fs)@,
        unlink_error(old(fs)@, path.spec_bytes()) is None ==> r == Ok::<(), FsError>(()) && final(fs)@
            == remove_spec(old(fs)@, path.spec_bytes()),
{
    let p = path.as_bytes();
    validate_path(p)?;
    let id = match find_unique(&fs.slots, p) {
        Some(id) => id,
        None => return Err(FsError::NotFound),
    };
    match &fs.slots[id].node {
        Some(n) => {
            if n.is_dir {
                return Err(FsError::NotAFile);
            }
        },
        None => return Err(FsError::NotFound),
    }
    let ghost s = fs@;
    let g = fs.slots[id].generation;
    fs.slots.set(id, Slot { generation: g, node: None });
    proof {
        assert(fs@ =~= remove_spec(s, p@));
        lemma_remove_keeps_wf(s, id as int, fs@);
    }
    Ok(())
}

/// Whether any live node is a direct child of `path`.
fn any_child(slots: &Vec<Slot>, path: &[u8]) -> (r: bool)
    ensures
        r == has_child(slots_view(slots@), path@),
{
    let ghost s = slots_view(slots@);
    let mut i: usize = 0;
    while i < slots.len()
        invariant
            s == slots_view(slots@),
            i <= slots@.len(),
            forall|j: int| 0 <= j < i ==> !child_at(s, path@, j),
        decreases slots@.len() - i,
    {
        match &slots[i].node {
            Some(n) => {
                if is_child(path, n.path.as_slice()) {
                    assert(child_at(s, path@, i as int));
                    return true;
                }
            },
            None => {},
        }
        i = i + 1;
    }
    assert forall|j: int| !child_at(s, path@, j) by {
        if 0 <= j < s.len() {
        }
    }
    false
}

/// Remove the empty directory at `path`.
pub fn rmdir(fs: &mut RamFs, path: &str) -> (r: Result<(), FsError>)
    requires
        fs_wf(old(fs)@),
    ensures
        fs_wf(final(fs)@),
        rmdir_error(old(fs)@, path.spec_bytes()) is Some ==> r == Err::<(), FsError>(
            rmdir_error(old(fs)@, path.spec_bytes()).unwrap(),
        ) && final(fs)@ == old(fs)@,
        rmdir_error(old(fs)@, path.spec_bytes()) is None ==> r == Ok::<(), FsError>(()) && final(fs)@
            == remove_spec(old(fs)@, path.spec_bytes()),
{
    let p = path.as_bytes();
    validate_path(p)?;
    if p.len() == 1 {
        assert(p@ =~= root_path());
        return Err(FsError::NotEmpty);
    }
    assert(p@ != root_path());
    let id = match find_unique(&fs.slots, p) {
        Some(id) => id,
        None => return Err(FsError::NotFound),
    };
    match &fs.slots[id].node {
        Some(n) => {
            if !n.is_dir {
                return Err(FsError::NotADirectory);
            }
        },
        None => return Err(FsError::NotFound),
    }
    if any_child(&fs.slots, p) {
        return Err(FsError::NotEmpty);
    }
    let ghost s = fs@;
    let g = fs.slots[id].generation;
    fs.slots.set(id, Slot { generation: g, node: None });
    proof {
        assert(fs@ =~= remove_spec(s, p@));
        lemma_remove_keeps_wf(s, id as int, fs@);
    }
    Ok(())
}

// ── boot-time unpack ────────────────────────────────────────────────────────

/// Little-endian 16-bit value at `o`.
pub open spec fn le16(d: Seq<u8>, o: int) -> int {
    d[o] + d[o + 1] * 256
}

/// Little-endian 32-bit value at `o`.
pub open spec fn le32(d: Seq<u8>, o: int) -> int {
    le16(d, o) + le16(d, o + 2) * 65536
}

/// Little-endian 64-bit value at `o`.
pub open spec fn le64(d: Seq<u8>, o: int) -> int {
    le32(d, o) + le32(d, o + 4) * 4294967296
}

/// `KFS\0`, the image magic.
pub open spec fn kfs_magic() -> Seq<u8> {
    seq![0x4bu8, 0x46u8, 0x53u8, 0u8]
}

/// The image header is unusable: too short, wrong magic or version, or an
/// entry table that does not fit.
pub open spec fn header_error(img: Seq<u8>) -> bool {
    ||| img.len() < HEADER_SIZE
    ||| img.subrange(0, 4) != kfs_magic()
    ||| le32(img, 4) != VERSION
    ||| HEADER_SIZE + le32(img, 8) * ENTRY_SIZE > img.len()
}

pub open spec fn entry_count(img: Seq<u8>) -> int {
    le32(img, 8)
}

pub open spec fn entry_base(i: int) -> int {
    HEADER_SIZE + i * ENTRY_SIZE
}

pub open spec fn paths_offset(img: Seq<u8>) -> int {
    HEADER_SIZE + entry_count(img) * ENTRY_SIZE
}

/// Start and end of entry `i`'s path bytes.
pub open spec fn entry_path_range(img: Seq<u8>, i: int) -> (int, int) {
    let start = paths_offset(img) + le16(img, entry_base(i) + 2);
    (start, start + le16(img, entry_base(i)))
}

/// The path bytes of entry `i`.
pub open spec fn entry_path(img: Seq<u8>, i: int) -> Seq<u8> {
    img.subrange(entry_path_range(img, i).0, entry_path_range(img, i).1)
}

/// Entry `i` names a path that lies inside the image, is UTF-8 and is valid.
pub open spec fn entry_path_ok(img: Seq<u8>, i: int) -> bool {
    &&& entry_path_range(img, i).1 <= img.len()
    &&& valid_utf8(entry_path(img, i))
    &&& valid_path(entry_path(img, i))
}

/// Every ancestor directory of `p` below the root has a node.
pub open spec fn ancestors_exist(s: Seq<SlotView>, p: Seq<u8>) -> bool
    decreases p.len(),
{
    if p.len() == 0 || p[0] != SLASH || last_index(p, SLASH) <= 0 {
        true
    } else {
        proof {
            lemma_parent_shorter(p);
        }
        index_of(s, parent_spec(p)) is Some && ancestors_exist(s, parent_spec(p))
    }
}

/// `t` holds every slot of `s` unchanged, possibly followed by more.
pub open spec fn extends(s: Seq<SlotView>, t: Seq<SlotView>) -> bool {
    s.len() <= t.len() && forall|k: int| 0 <= k < s.len() ==> t[k] == s[k]
}

pub open spec fn root_slot() -> SlotView {
    SlotView { generation: 0, node: Some(NodeView { path: root_path(), is_dir: true, data: Seq::empty() }) }
}

proof fn lemma_extends_index(s: Seq<SlotView>, t: Seq<SlotView>, p: Seq<u8>)
    requires
        extends(s, t),
        index_of(s, p) is Some,
    ensures
        index_of(t, p) is Some,
{
    let i = choose|i: int| holds_path(s, i, p);
    assert(holds_path(t, i, p));
}

proof fn lemma_extends_ancestors(s: Seq<SlotView>, t: Seq<SlotView>, p: Seq<u8>)
    requires
        extends(s, t),
        ancestors_exist(s, p),
    ensures
        ancestors_exist(t, p),
    decreases p.len(),
{
    if !(p.len() == 0 || p[0] != SLASH || last_index(p, SLASH) <= 0) {
        lemma_parent_shorter(p);
        lemma_extends_index(s, t, parent_spec(p));
        lemma_extends_ancestors(s, t, parent_spec(p));
    }
}

proof fn lemma_root_ancestors(s: Seq<SlotView>)
    ensures
        ancestors_exist(s, root_path()),
{
    assert(root_path().drop_last() =~= Seq::<u8>::empty());
    assert(last_index(root_path(), SLASH) == 0);
}

pub proof fn lemma_parent_shorter(p: Seq<u8>)
    requires
        p.len() > 0,
        p[0] == SLASH,
        last_index(p, SLASH) > 0,
    ensures
        parent_spec(p).len() < p.len(),
        parent_spec(p).len() > 0,
        parent_spec(p)[0] == SLASH,
{
    lemma_last_index(p, SLASH);
}

/// A directory node at `p` in a fresh slot.
pub open spec fn dir_slot(p: Seq<u8>) -> SlotView {
    SlotView { generation: 0, node: Some(NodeView { path: p, is_dir: true, data: Seq::empty() }) }
}

/// `s` with the missing ancestor directories of `p` (below the root)
/// appended, outermost first.
pub open spec fn with_parents(s: Seq<SlotView>, p: Seq<u8>) -> Seq<SlotView>
    decreases p.len(),
{
    if p.len() == 0 || p[0] != SLASH || parent_spec(p) == root_path() {
        s
    } else {
        proof {
            assert(last_index(p, SLASH) > 0);
            lemma_parent_shorter(p);
        }
        let q = parent_spec(p);
        let t = with_parents(s, q);
        if index_of(t, q) is Some { t } else { t.push(dir_slot(q)) }
    }
}

/// Entry `i`'s flags word.
pub open spec fn entry_flags(img: Seq<u8>, i: int) -> u32 {
    le32(img, entry_base(i) + 20) as u32
}

/// Start and end of entry `i`'s file data.
pub open spec fn entry_data_range(img: Seq<u8>, i: int) -> (int, int) {
    let off = le64(img, entry_base(i) + 4);
    (off, off + le64(img, entry_base(i) + 12))
}

/// Loading entry `i` into table `s`: the table after it, and the error that
/// stops the load, if any. A path outside the image or not UTF-8 is an
/// invalid image, a malformed path an invalid path; then the missing
/// ancestors are created; an entry whose path now exists is skipped;
/// otherwise a file takes its data range (which must lie inside the image)
/// and a directory comes empty, and an entry that is neither is an invalid
/// image.
pub open spec fn entry_step(s: Seq<SlotView>, img: Seq<u8>, i: int) -> (Seq<SlotView>, Option<FsError>) {
    let p = entry_path(img, i);
    if entry_path_range(img, i).1 > img.len() || !valid_utf8(p) {
        (s, Some(FsError::InvalidImage))
    } else if !valid_path(p) {
        (s, Some(FsError::InvalidPath))
    } else {
        let t = with_parents(s, p);
        if index_of(t, p) is Some {
            (t, None)
        } else if entry_flags(img, i) & FLAG_FILE != 0 {
            let (a, b) = entry_data_range(img, i);
            if b > img.len() {
                (t, Some(FsError::InvalidImage))
            } else {
                (t.push(SlotView { generation: 0, node: Some(NodeView { path: p, is_dir: false, data: img.subrange(a, b) }) }), None)
            }
        } else if entry_flags(img, i) & FLAG_DIR != 0 {
            (t.push(dir_slot(p)), None)
        } else {
            (t, Some(FsError::InvalidImage))
        }
    }
}

/// Entries `0..k` loaded in order into `s`, stopping at the first error.
pub open spec fn load_steps(s: Seq<SlotView>, img: Seq<u8>, k: int) -> (Seq<SlotView>, Option<FsError>)
    decreases k,
{
    if k <= 0 {
        (s, None)
    } else {
        let prev = load_steps(s, img, k - 1);
        if prev.1 is Some { prev } else { entry_step(prev.0, img, k - 1) }
    }
}

/// A well-formed header's image loaded: the root directory, then every
/// entry; the table it leaves and the error that stopped it, if any.
pub open spec fn load_spec(img: Seq<u8>) -> (Seq<SlotView>, Option<FsError>) {
    load_steps(seq![root_slot()], img, entry_count(img))
}

/// Entry `i` is well formed: its path lies in the image, is UTF-8 and
/// valid, it is flagged a file or a directory, and a file's data lies in
/// the image.
pub open spec fn entry_ok(img: Seq<u8>, i: int) -> bool {
    &&& entry_path_ok(img, i)
    &&& (entry_flags(img, i) & FLAG_FILE != 0 || entry_flags(img, i) & FLAG_DIR != 0)
    &&& (entry_flags(img, i) & FLAG_FILE != 0 ==> entry_data_range(img, i).1 <= img.len())
}

proof fn lemma_loads_ok(s: Seq<SlotView>, img: Seq<u8>, k: int)
    requires
        forall|i: int| 0 <= i < k ==> #[trigger] entry_ok(img, i),
    ensures
        load_steps(s, img, k).1 is None,
    decreases k,
{
    if k > 0 {
        lemma_loads_ok(s, img, k - 1);
        assert(entry_ok(img, k - 1));
    }
}

/// An image with a good header whose entries are all well formed loads
/// without error.
pub proof fn law_well_formed_image_loads(img: Seq<u8>)
    requires
        !header_error(img),
        forall|i: int| 0 <= i < entry_count(img) ==> #[trigger] entry_ok(img, i),
    ensures
        load_spec(img).1 is None,
{
    lemma_loads_ok(seq![root_slot()], img, entry_count(img));
}

/// Once a load has stopped, later entries change nothing.
proof fn lemma_load_stopped(s: Seq<SlotView>, img: Seq<u8>, k: int, n: int)
    requires
        0 <= k <= n,
        load_steps(s, img, k).1 is Some,
    ensures
        load_steps(s, img, n) == load_steps(s, img, k),
    decreases n - k,
{
    if n > k {
        lemma_load_stopped(s, img, k, n - 1);
    }
}

/// Read a little-endian u16 at `offset`.
fn read_u16(data: &[u8], offset: usize) -> (r: Result<u16, FsError>)
    ensures
        offset + 2 > data@.len() ==> r == Err::<u16, FsError>(FsError::InvalidImage),
        offset + 2 <= data@.len() ==> r == Ok::<u16, FsError>(le16(data@, offset as int) as u16),
{
    if offset > data.len() || data.len() - offset < 2 {
        return Err(FsError::InvalidImage);
    }
    Ok((data[offset] as u16) + (data[offset + 1] as u16) * 256)
}

/// Read a little-endian u32 at `offset`.
fn read_u32(data: &[u8], offset: usize) -> (r: Result<u32, FsError>)
    ensures
        offset + 4 > data@.len() ==> r == Err::<u32, FsError>(FsError::InvalidImage),
        offset + 4 <= data@.len() ==> r == Ok::<u32, FsError>(le32(data@, offset as int) as u32),
{
    if offset > data.len() || data.len() - offset < 4 {
        return Err(FsError::InvalidImage);
    }
    let lo = (data[offset] as u32) + (data[offset + 1] as u32) * 256;
    let hi = (data[offset + 2] as u32) + (data[offset + 3] as u32) * 256;
    Ok(lo + hi * 65536)
}

/// Read a little-endian u64 at `offset`.
fn read_u64(data: &[u8], offset: usize) -> (r: Result<u64, FsError>)
    ensures
        offset + 8 > data@.len() ==> r == Err::<u64, FsError>(FsError::InvalidImage),
        offset + 8 <= data@.len() ==> r == Ok::<u64, FsError>(le64(data@, offset as int) as u64),
{
    if offset > data.len() || data.len() - offset < 8 {
        return Err(FsError::InvalidImage);
    }
    let lo = match read_u32(data, offset) {
        Ok(v) => v,
        Err(e) => return Err(e),
    };
    let hi = match read_u32(data, offset + 4) {
        Ok(v) => v,
        Err(e) => return Err(e),
    };
    Ok((lo as u64) + (hi as u64) * 4294967296)
}

/// Create every missing ancestor directory of `path` (below the root).
fn ensure_parents(slots: &mut Vec<Slot>, path: &[u8])
    requires
        fs_wf(slots_view(old(slots)@)),
        index_of(slots_view(old(slots)@), root_path()) is Some,
        path@.len() > 0,
        path@[0] == SLASH,
    ensures
        fs_wf(slots_view(final(slots)@)),
        extends(slots_view(old(slots)@), slots_view(final(slots)@)),
        ancestors_exist(slots_view(final(slots)@), path@),
        slots_view(final(slots)@) == with_parents(slots_view(old(slots)@), path@),
    decreases path@.len(),
{
    proof {
        lemma_last_index(path@, SLASH);
    }
    let parent = parent_of(path);
    if parent.len() == 1 {
        proof {
            if last_index(path@, SLASH) > 0 {
                assert(parent@ =~= root_path());
                lemma_root_ancestors(slots_view(slots@));
            }
            assert(parent@ =~= root_path());
        }
        return;
    }
    proof {
        lemma_parent_shorter(path@);
        if last_index(path@, SLASH) <= 0 {
            assert(parent@ =~= root_path());
        }
        assert(parent@ != root_path());
    }
    ensure_parents(slots, parent);
    let ghost mid = slots_view(slots@);
    if find_unique(slots, parent).is_none() {
        let node = Node { path: copy_bytes(parent), is_dir: true, data: Vec::new() };
        slots.push(Slot { generation: 0, node: Some(node) });
        proof {
            let t = slots_view(slots@);
            assert(t =~= mid.push(t[mid.len() as int]));
            lemma_insert_keeps_wf(mid, mid.len() as int, parent@, t);
            assert(holds_path(t, mid.len() as int, parent@));
            lemma_index_of(t, parent@, mid.len() as int);
            lemma_extends_ancestors(mid, t, parent@);
            assert(t == mid.push(dir_slot(parent@)));
        }
    }
}

/// Unpack the KFS image into the node table, replacing whatever it held. The
/// root directory always exists; ancestors of every listed path are created
/// as directories; an entry whose path already exists is skipped. A bad
/// header changes nothing; past the header, the table is exactly what
/// loading the entries in order gives, up to the first bad entry, whose
/// error is returned.
pub fn init(fs: &mut RamFs, image: &[u8]) -> (r: Result<(), FsError>)
    ensures
        header_error(image@) ==> r == Err::<(), FsError>(FsError::InvalidImage) && final(fs)@ == old(fs)@,
        !header_error(image@) ==> {
            &&& final(fs)@ == load_spec(image@).0
            &&& r == (match load_spec(image@).1 {
                None => Ok::<(), FsError>(()),
                Some(e) => Err(e),
            })
        },
        !header_error(image@) ==> fs_wf(final(fs)@) && final(fs)@.len() >= 1 && final(fs)@[0] == root_slot(),
        r is Ok ==> forall|i: int|
            0 <= i < entry_count(image@) ==> entry_path_ok(image@, i) && index_of(final(fs)@, #[trigger] entry_path(image@, i)) is Some
                && ancestors_exist(final(fs)@, entry_path(image@, i)),
        r is Err ==> r == Err::<(), FsError>(FsError::InvalidImage) || r == Err::<(), FsError>(FsError::InvalidPath),
{
    let magic: [u8; 4] = [0x4b, 0x46, 0x53, 0];
    assert(magic@ =~= kfs_magic());
    if image.len() < HEADER_SIZE || !starts_with(image, magic.as_slice()) {
        proof {
            if image@.len() >= HEADER_SIZE {
                assert(image@.subrange(0, 4) != kfs_magic());
            }
        }
        return Err(FsError::InvalidImage);
    }
    assert(image@.subrange(0, 4) == kfs_magic());
    if read_u32(image, 4)? != VERSION {
        return Err(FsError::InvalidImage);
    }
    let file_count = read_u32(image, 8)? as usize;
    let entries_size = match file_count.checked_mul(ENTRY_SIZE) {
        Some(v) => v,
        None => return Err(FsError::InvalidImage),
    };
    let paths_start = match HEADER_SIZE.checked_add(entries_size) {
        Some(v) => v,
        None => return Err(FsError::InvalidImage),
    };
    if paths_start > image.len() {
        return Err(FsError::InvalidImage);
    }
    assert(!header_error(image@));
    fs.slots.clear();
    let root: [u8; 1] = [SLASH];
    fs.slots.push(Slot { generation: 0, node: Some(Node { path: copy_bytes(root.as_slice()), is_dir: true, data: Vec::new() }) });
    let ghost s0 = seq![root_slot()];
    proof {
        assert(root@ =~= root_path());
        assert(fs@ =~= seq![root_slot()]);
        assert(fs_wf(fs@));
        assert(holds_path(fs@, 0, root_path()));
    }
    let mut index: usize = 0;
    while index < file_count
        invariant
            !header_error(image@),
            file_count == entry_count(image@),
            paths_start == paths_offset(image@),
            paths_start <= image@.len(),
            index <= file_count,
            fs_wf(fs@),
            fs@.len() >= 1,
            fs@[0] == root_slot(),
            index_of(fs@, root_path()) is Some,
            forall|i: int|
                0 <= i < index ==> entry_path_ok(image@, i) && index_of(fs@, #[trigger] entry_path(image@, i)) is Some
                    && ancestors_exist(fs@, entry_path(image@, i)),
            s0 == seq![root_slot()],
            load_steps(s0, image@, index as int) == (fs@, Option::<FsError>::None),
        decreases file_count - index,
    {
        let ghost before = fs@;
        let ghost i = index as int;
        let base = HEADER_SIZE + index * ENTRY_SIZE;
        assert(base + ENTRY_SIZE <= paths_start) by (nonlinear_arith)
            requires
                base == HEADER_SIZE + index * ENTRY_SIZE,
                index < file_count,
                paths_start == HEADER_SIZE + file_count * ENTRY_SIZE,
        ;
        assert(base == entry_base(i));
        let path_len = read_u16(image, base)? as usize;
        let path_off = read_u16(image, base + 2)? as usize;
        let data_off = read_u64(image, base + 4)?;
        let size = read_u64(image, base + 12)?;
        let flags = read_u32(image, base + 20)?;
        let ilen = image.len();
        proof {
            assert(load_steps(s0, image@, i + 1) == entry_step(before, image@, i));
            assert(path_len == le16(image@, entry_base(i)));
            assert(path_off == le16(image@, entry_base(i) + 2));
            assert(entry_path_range(image@, i).1 == paths_start + path_off + path_len);
            assert(image@.len() <= usize::MAX);
        }
        let pstart = match paths_start.checked_add(path_off) {
            Some(v) => v,
            None => {
                proof { lemma_load_stopped(s0, image@, i + 1, file_count as int); }
                return Err(FsError::InvalidImage);
            },
        };
        let pend = match pstart.checked_add(path_len) {
            Some(v) => v,
            None => {
                proof { lemma_load_stopped(s0, image@, i + 1, file_count as int); }
                return Err(FsError::InvalidImage);
            },
        };
        if pend > ilen {
            proof { lemma_load_stopped(s0, image@, i + 1, file_count as int); }
            return Err(FsError::InvalidImage);
        }
        let path_bytes = &image[pstart..pend];
        assert(path_bytes@ == entry_path(image@, index as int));
        if str_from_utf8(path_bytes).is_none() {
            proof { lemma_load_stopped(s0, image@, i + 1, file_count as int); }
            return Err(FsError::InvalidImage);
        }
        if validate_path(path_bytes).is_err() {
            proof { lemma_load_stopped(s0, image@, i + 1, file_count as int); }
            return Err(FsError::InvalidPath);
        }
        ensure_parents(&mut fs.slots, path_bytes);
        let ghost mid = fs@;
        if find_unique(&fs.slots, path_bytes).is_none() {
            let is_file = flags & FLAG_FILE != 0;
            let is_dir = flags & FLAG_DIR != 0;
            let data = if is_file {
                let end = match data_off.checked_add(size) {
                    Some(v) => v,
                    None => {
                        proof { lemma_load_stopped(s0, image@, i + 1, file_count as int); }
                        return Err(FsError::InvalidImage);
                    },
                };
                if end > ilen as u64 {
                    proof { lemma_load_stopped(s0, image@, i + 1, file_count as int); }
                    return Err(FsError::InvalidImage);
                }
                copy_bytes(&image[data_off as usize..end as usize])
            } else if is_dir {
                Vec::new()
            } else {
                proof { lemma_load_stopped(s0, image@, i + 1, file_count as int); }
                return Err(FsError::InvalidImage);
            };
            let node = Node { path: copy_bytes(path_bytes), is_dir: !is_file, data };
            fs.slots.push(Slot { generation: 0, node: Some(node) });
            proof {
                let t = fs@;
                assert(t =~= mid.push(t[mid.len() as int]));
                lemma_insert_keeps_wf(mid, mid.len() as int, path_bytes@, t);
                lemma_index_of(t, path_bytes@, mid.len() as int);
                lemma_extends_ancestors(mid, t, path_bytes@);
                if is_file {
                    assert(t[mid.len() as int] == SlotView {
                        generation: 0,
                        node: Some(NodeView { path: path_bytes@, is_dir: false, data: image@.subrange(data_off as int, data_off + size) }),
                    });
                } else {
                    assert(t[mid.len() as int] == dir_slot(path_bytes@));
                }
                assert(entry_step(before, image@, i) == (t, Option::<FsError>::None));
            }
        }
        proof {
            let t = fs@;
            assert(entry_step(before, image@, i) == (t, Option::<FsError>::None));
            assert(extends(before, t));
            lemma_extends_index(before, t, root_path());
            assert forall|k: int|
                0 <= k <= index implies entry_path_ok(image@, k) && index_of(t, #[trigger] entry_path(image@, k)) is Some
                    && ancestors_exist(t, entry_path(image@, k)) by {
                if k < index {
                    lemma_extends_index(before, t, entry_path(image@, k));
                    lemma_extends_ancestors(before, t, entry_path(image@, k));
                }
            }
        }
        index = index + 1;
    }
    Ok(())
}

// ── laws ────────────────────────────────────────────────────────────────────

/// Reading back what was just written into a live file returns exactly the
/// written bytes.
pub proof fn law_read_after_write(s: Seq<SlotView>, node: u32, generation: u32, offset: usize, src: Seq<u8>)
    requires
        fs_wf(s),
        live_handle(s, node, generation),
        !node_at(s, node as int).is_dir,
        offset + src.len() <= usize::MAX,
    ensures
        read_at_spec(write_at_spec(s, node, generation, offset, src), node, generation, offset, src.len()) == src,
{
    let t = write_at_spec(s, node, generation, offset, src);
    let d = node_at(t, node as int).data;
    let old_d = node_at(s, node as int).data;
    let end = offset + src.len();
    let grown = if end > old_d.len() {
        old_d + Seq::new((end - old_d.len()) as nat, |k: int| 0u8)
    } else {
        old_d
    };
    assert(d == grown.subrange(0, offset as int) + src + grown.subrange(end, grown.len() as int));
    assert(d.len() == grown.len());
    if src.len() > 0 {
        assert(d.subrange(offset as int, end) =~= src);
    } else {
        assert(read_at_spec(t, node, generation, offset, src.len()) =~= src);
    }
}

/// A write changes no other handle's contents.
pub proof fn law_write_isolated(
    s: Seq<SlotView>,
    node: u32,
    generation: u32,
    offset: usize,
    src: Seq<u8>,
    other: u32,
    other_generation: u32,
    other_offset: usize,
    len: nat,
)
    requires
        fs_wf(s),
        other != node,
    ensures
        read_at_spec(write_at_spec(s, node, generation, offset, src), other, other_generation, other_offset, len)
            == read_at_spec(s, other, other_generation, other_offset, len),
{
}

/// A newly created file is found by lookup, empty, under the handle `create`
/// returned.
pub proof fn law_create_then_lookup(s: Seq<SlotView>, p: Seq<u8>)
    requires
        fs_wf(s),
        make_error(s, p) is None,
    ensures
        lookup_spec(make_spec(s, p, false).0, p, None) == Ok::<VfsNode, FsError>(
            VfsNode::File { node: make_spec(s, p, false).1.0, generation: make_spec(s, p, false).1.1, len: 0 },
        ),
{
    let t = make_spec(s, p, false).0;
    let i = first_free(s);
    lemma_first_free_range(s);
    lemma_insert_keeps_wf(s, i, p, t);
    lemma_index_of(t, p, i);
}

/// Once a file is unlinked, lookup no longer finds it.
pub proof fn law_unlink_then_lookup(s: Seq<SlotView>, p: Seq<u8>)
    requires
        fs_wf(s),
        unlink_error(s, p) is None,
    ensures
        lookup_spec(remove_spec(s, p), p, None) == Err::<VfsNode, FsError>(FsError::NotFound),
{
    let t = remove_spec(s, p);
    let i = index_of(s, p).unwrap();
    assert(holds_path(s, i, p));
    if exists|j: int| holds_path(t, j, p) {
        let j = choose|j: int| holds_path(t, j, p);
        assert(occupied(s, j) && occupied(s, i));
    }
}

/// Creating a node never revives a dead handle: every handle that was not live
/// before, other than the one `make` returns, is still not live after.
pub proof fn law_no_stale_alias(s: Seq<SlotView>, p: Seq<u8>, is_dir: bool, node: u32, generation: u32)
    requires
        fs_wf(s),
        make_error(s, p) is None,
        !live_handle(s, node, generation),
        (node, generation) != make_spec(s, p, is_dir).1,
    ensures
        !live_handle(make_spec(s, p, is_dir).0, node, generation),
{
    lemma_first_free_range(s);
}

/// A directory just created can be removed again when nothing lies under its
/// path, after which lookup no longer finds it.
pub proof fn law_mkdir_rmdir(s: Seq<SlotView>, p: Seq<u8>)
    requires
        fs_wf(s),
        make_error(s, p) is None,
        !has_child(s, p),
    ensures
        rmdir_error(make_spec(s, p, true).0, p) is None,
        lookup_spec(remove_spec(make_spec(s, p, true).0, p), p, None) == Err::<VfsNode, FsError>(FsError::NotFound),
{
    let t = make_spec(s, p, true).0;
    let i = first_free(s);
    lemma_first_free_range(s);
    lemma_insert_keeps_wf(s, i, p, t);
    lemma_index_of(t, p, i);
    assert(!has_child(t, p)) by {
        if exists|j: int| child_at(t, p, j) {
            let j = choose|j: int| child_at(t, p, j);
            if j != i {
                assert(child_at(s, p, j));
            }
        }
    }
    law_unlink_remove_helper(t, p);
}

proof fn law_unlink_remove_helper(t: Seq<SlotView>, p: Seq<u8>)
    requires
        fs_wf(t),
        valid_path(p),
        index_of(t, p) is Some,
    ensures
        lookup_spec(remove_spec(t, p), p, None) == Err::<VfsNode, FsError>(FsError::NotFound),
{
    let u = remove_spec(t, p);
    let i = index_of(t, p).unwrap();
    assert(holds_path(t, i, p));
    if exists|j: int| holds_path(u, j, p) {
        let j = choose|j: int| holds_path(u, j, p);
        assert(occupied(t, j) && occupied(t, i));
    }
}

proof fn lemma_min_free(s: Seq<SlotView>, i: int)
    requires
        0 <= i < s.len(),
        s[i].node is None,
    ensures
        exists|k: int| 0 <= k < s.len() && s[k].node is None && forall|j: int| 0 <= j < k ==> s[j].node is Some,
    decreases i,
{
    if exists|j: int| 0 <= j < i && s[j].node is None {
        let j = choose|j: int| 0 <= j < i && s[j].node is None;
        lemma_min_free(s, j);
    } else {
        assert(forall|j: int| 0 <= j < i ==> s[j].node is Some);
    }
}

proof fn lemma_first_free_range(s: Seq<SlotView>)
    ensures
        0 <= first_free(s) <= s.len(),
        first_free(s) < s.len() ==> s[first_free(s)].node is None,
        forall|j: int| 0 <= j < first_free(s) ==> s[j].node is Some,
{
    if exists|i: int| 0 <= i < s.len() && s[i].node is None {
        let i = choose|i: int| 0 <= i < s.len() && s[i].node is None;
        lemma_min_free(s, i);
    }
}

} // verus!
