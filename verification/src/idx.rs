//! The index file format.
//!
//! An index file starts with a 60-byte header: the magic `ISFP`, twelve bytes
//! that are not interpreted, the number of nodes and the number of file
//! records (both `i32`), two reserved `i64` fields, the offsets of the
//! file-record table and of the trailer (both `i64`, counted from byte 16 of
//! the file), and four bytes of padding. The node table follows the header.
//! All integers are little-endian.
//!
//! A node gives a name to an id and links it to a parent id. A file record
//! names a payload of the package by the id of its node; its path is made of
//! the names met when walking from that node up the parents, until an id that
//! has no node. The trailer holds the name of the package file.

use crate::cursor::{
    cstr_at, i32_at, i64_at, read_i32_le, read_i64_le, read_null_terminated_string,
    read_u64_le, u64_at,
};
use crate::text::{borrowed_texts, join_path};
use crate::types::UnpackError;
use std::collections::HashMap;
use vstd::prelude::*;
use vstd::string::*;

verus! {

/// Bytes taken by the header, magic included.
pub const HEADER_SIZE: usize = 60;

/// Bytes taken by one node record.
pub const NODE_SIZE: usize = 32;

/// Bytes taken by one file record.
pub const FILE_RECORD_SIZE: usize = 48;

/// The position in the file that the header's two offsets count from.
pub const SECTION_BASE: usize = 16;

/// Bytes between the start of the trailer and the package name.
pub const TRAILER_NAME_OFFSET: usize = 24;

/// Whether `data` starts with the magic `ISFP`.
pub open spec fn has_magic(data: Seq<u8>) -> bool {
    &&& data.len() >= 4
    &&& data[0] == 0x49
    &&& data[1] == 0x53
    &&& data[2] == 0x46
    &&& data[3] == 0x50
}

/// The number of nodes that the header declares.
pub open spec fn header_nodes(data: Seq<u8>) -> int {
    i32_at(data, 16)
}

/// The number of file records that the header declares.
pub open spec fn header_files(data: Seq<u8>) -> int {
    i32_at(data, 20)
}

/// The header's offset of the file-record table.
pub open spec fn header_third_offset(data: Seq<u8>) -> int {
    i64_at(data, 40)
}

/// The header's offset of the trailer.
pub open spec fn header_trailer_offset(data: Seq<u8>) -> int {
    i64_at(data, 48)
}

/// Whether counts and offsets fit a file of `len` bytes: neither count is
/// negative, the node table, the file-record table and the 24 bytes before
/// the package name lie inside the file, and the trailer does not start
/// before the file-record table.
pub open spec fn counts_fit(nodes: int, files: int, third: int, trailer: int, len: int) -> bool {
    &&& nodes >= 0
    &&& files >= 0
    &&& 60 + 32 * nodes <= len
    &&& third >= 0
    &&& third + 16 + 48 * files <= len
    &&& trailer >= third
    &&& trailer + 16 + 24 <= len
}

/// Whether `data` starts with a header whose counts and offsets fit the file.
pub open spec fn header_fits(data: Seq<u8>) -> bool {
    &&& data.len() >= 60
    &&& has_magic(data)
    &&& counts_fit(
        header_nodes(data),
        header_files(data),
        header_third_offset(data),
        header_trailer_offset(data),
        data.len() as int,
    )
}

/// The decoded header of an index file.
#[derive(Debug, Clone, Copy)]
pub struct IdxHeader {
    pub nodes: i32,
    pub files: i32,
    pub third_offset: i64,
    pub trailer_offset: i64,
}

impl IdxHeader {
    /// Whether this header holds the fields of the header bytes of `data`.
    pub open spec fn decodes(self, data: Seq<u8>) -> bool {
        &&& self.nodes == header_nodes(data)
        &&& self.files == header_files(data)
        &&& self.third_offset == header_third_offset(data)
        &&& self.trailer_offset == header_trailer_offset(data)
    }

    /// Whether the header's counts and offsets fit a file of `len` bytes.
    pub open spec fn fits(self, len: int) -> bool {
        counts_fit(
            self.nodes as int,
            self.files as int,
            self.third_offset as int,
            self.trailer_offset as int,
            len,
        )
    }

    /// Decodes the header of an index file. Fails when the file is shorter
    /// than a header or does not start with the magic.
    pub fn parse(data: &[u8]) -> (r: Result<IdxHeader, UnpackError>)
        ensures
            match r {
                Ok(header) => data@.len() >= 60 && has_magic(data@) && header.decodes(data@),
                Err(e) => e == UnpackError::MalformedIdx && !(data@.len() >= 60 && has_magic(
                    data@,
                )),
            },
    {
        if data.len() < HEADER_SIZE {
            return Err(UnpackError::MalformedIdx);
        }
        if data[0] != 0x49 || data[1] != 0x53 || data[2] != 0x46 || data[3] != 0x50 {
            return Err(UnpackError::MalformedIdx);
        }
        let nodes = read_i32_le(data, 16);
        let files = read_i32_le(data, 20);
        let third_offset = read_i64_le(data, 40);
        let trailer_offset = read_i64_le(data, 48);
        match (nodes, files, third_offset, trailer_offset) {
            (Some(nodes), Some(files), Some(third_offset), Some(trailer_offset)) => Ok(
                IdxHeader { nodes, files, third_offset, trailer_offset },
            ),
            _ => Err(UnpackError::MalformedIdx),
        }
    }

    /// Checks the header's counts and offsets against the length of the file.
    pub fn check(&self, len: usize) -> (r: bool)
        ensures
            r == self.fits(len as int),
    {
        if self.nodes < 0 || self.files < 0 || self.third_offset < 0 || self.trailer_offset
            < self.third_offset {
            return false;
        }
        let len = len as u64;
        let nodes_end = 60 + 32 * (self.nodes as u64);
        let files_end = self.third_offset as u64 + 16 + 48 * (self.files as u64);
        let trailer = self.trailer_offset as u64;
        nodes_end <= len && files_end <= len && trailer <= len && len - trailer >= 40
    }
}

/// One entry of the node table: a name and the id of the parent.
#[derive(Debug)]
pub struct Node {
    pub name: String,
    pub id: u64,
    pub parent: u64,
}

/// What the node table holds for one id.
pub struct NodeEntry {
    pub name: Seq<char>,
    pub parent: u64,
}

/// The name of the node record at `at`. The record stores the position of
/// its name relative to its own position in the file. There is no name when
/// no valid, non-empty, null-terminated string stands there.
pub open spec fn node_name_at(data: Seq<u8>, at: int) -> Option<Seq<char>> {
    cstr_at(data, at + u64_at(data, at + 8))
}

/// The id of the node record at `at`.
pub open spec fn node_id_at(data: Seq<u8>, at: int) -> u64 {
    u64_at(data, at + 16) as u64
}

/// The parent id of the node record at `at`.
pub open spec fn node_parent_at(data: Seq<u8>, at: int) -> u64 {
    u64_at(data, at + 24) as u64
}

/// The position of the `i`-th node record.
pub open spec fn node_offset(i: int) -> int {
    60 + 32 * i
}

/// The name of the `i`-th node, if it has one.
pub open spec fn node_name(data: Seq<u8>, i: int) -> Option<Seq<char>> {
    node_name_at(data, node_offset(i))
}

/// The id of the `i`-th node.
pub open spec fn node_id(data: Seq<u8>, i: int) -> u64 {
    node_id_at(data, node_offset(i))
}

/// The parent id of the `i`-th node.
pub open spec fn node_parent(data: Seq<u8>, i: int) -> u64 {
    node_parent_at(data, node_offset(i))
}

/// The node table made of the first `n` node records. Records without a name
/// are left out.
pub open spec fn node_table(data: Seq<u8>, n: int) -> Map<u64, NodeEntry>
    decreases n,
{
    if n <= 0 {
        Map::empty()
    } else {
        let rest = node_table(data, n - 1);
        match node_name(data, n - 1) {
            Some(name) => rest.insert(
                node_id(data, n - 1),
                NodeEntry { name, parent: node_parent(data, n - 1) },
            ),
            None => rest,
        }
    }
}

/// Whether the first `n` node records are acceptable: no named node is its
/// own parent, and no two named nodes share an id.
pub open spec fn nodes_ok(data: Seq<u8>, n: int) -> bool {
    &&& forall|i: int|
        0 <= i < n && (#[trigger] node_name(data, i)) is Some ==> node_parent(data, i)
            != node_id(data, i)
    &&& forall|i: int, j: int|
        0 <= i < j < n && (#[trigger] node_name(data, i)) is Some && (#[trigger] node_name(
            data,
            j,
        )) is Some ==> node_id(data, i) != node_id(data, j)
}

/// The table that a map of decoded nodes stands for.
pub open spec fn nodes_view(nodes: Map<u64, Node>) -> Map<u64, NodeEntry> {
    Map::new(
        |id: u64| nodes.contains_key(id),
        |id: u64| NodeEntry { name: nodes[id].name@, parent: nodes[id].parent },
    )
}

/// The ids of the node table are those of the named records, so the table is
/// finite and holds at most one entry for each record.
pub proof fn lemma_node_table_keys(data: Seq<u8>, n: int)
    requires
        n >= 0,
    ensures
        forall|id: u64|
            node_table(data, n).contains_key(id) <==> exists|j: int|
                0 <= j < n && (#[trigger] node_name(data, j)) is Some && node_id(data, j) == id,
        node_table(data, n).dom().finite(),
        node_table(data, n).dom().len() <= n,
    decreases n,
{
    if n > 0 {
        lemma_node_table_keys(data, n - 1);
        let rest = node_table(data, n - 1);
        assert forall|id: u64| node_table(data, n).contains_key(id) implies exists|j: int|
            0 <= j < n && (#[trigger] node_name(data, j)) is Some && node_id(data, j) == id by {
            if rest.contains_key(id) {
                let j = choose|j: int|
                    0 <= j < n - 1 && (#[trigger] node_name(data, j)) is Some && node_id(data, j)
                        == id;
                assert(0 <= j < n && node_name(data, j) is Some && node_id(data, j) == id);
            } else {
                assert(node_name(data, n - 1) is Some && node_id(data, n - 1) == id);
            }
        }
        assert forall|id: u64|
            (exists|j: int|
                0 <= j < n && (#[trigger] node_name(data, j)) is Some && node_id(data, j)
                    == id) implies node_table(data, n).contains_key(id) by {
            let j = choose|j: int|
                0 <= j < n && (#[trigger] node_name(data, j)) is Some && node_id(data, j) == id;
            if j < n - 1 {
                assert(rest.contains_key(id));
            }
        }
    }
}

impl Node {
    /// Decodes the node record at `offset`. There is no node when the record
    /// does not lie inside the file or has no name.
    pub fn parse(data: &[u8], offset: usize) -> (r: Option<Node>)
        ensures
            match r {
                Some(node) => {
                    &&& offset + 32 <= data@.len()
                    &&& node_name_at(data@, offset as int) == Some(node.name@)
                    &&& node.id == node_id_at(data@, offset as int)
                    &&& node.parent == node_parent_at(data@, offset as int)
                },
                None => offset + 32 > data@.len() || node_name_at(data@, offset as int) is None,
            },
    {
        if data.len() < NODE_SIZE || offset > data.len() - NODE_SIZE {
            return None;
        }
        let pointer = read_u64_le(data, offset + 8);
        let id = read_u64_le(data, offset + 16);
        let parent = read_u64_le(data, offset + 24);
        match (pointer, id, parent) {
            (Some(pointer), Some(id), Some(parent)) => {
                // The stored pointer counts from the record's own position.
                let room = (data.len() - offset) as u64;
                if pointer >= room {
                    return None;
                }
                match read_null_terminated_string(data, offset + pointer as usize) {
                    Some(name) => Some(Node { name, id, parent }),
                    None => None,
                }
            },
            _ => None,
        }
    }
}

/// The names met on the walk from `id` up the parents, nearest first. The
/// walk ends at the first id that has no entry. There is no result when the
/// walk is still inside the table after `fuel` steps.
pub open spec fn chain(table: Map<u64, NodeEntry>, id: u64, fuel: nat) -> Option<Seq<Seq<char>>>
    decreases fuel,
{
    if !table.contains_key(id) {
        Some(Seq::empty())
    } else if fuel == 0 {
        None
    } else {
        match chain(table, table[id].parent, (fuel - 1) as nat) {
            Some(rest) => Some(seq![table[id].name] + rest),
            None => None,
        }
    }
}

/// The id reached from `id` after `steps` steps up the parents.
pub open spec fn ancestor(table: Map<u64, NodeEntry>, id: u64, steps: nat) -> u64
    decreases steps,
{
    if steps == 0 {
        id
    } else {
        ancestor(table, table[id].parent, (steps - 1) as nat)
    }
}

/// The path of the node `id`: the names of its chain, outermost first, joined
/// with `/`. The walk gets one step for each entry of the table, so there is
/// no path exactly when the parents of `id` form a loop.
pub open spec fn path_of(table: Map<u64, NodeEntry>, id: u64) -> Option<Seq<char>> {
    match chain(table, id, table.dom().len()) {
        Some(names) => Some(join_path(names.reverse())),
        None => None,
    }
}

/// `names` put in front of a chain, where there is one.
pub open spec fn extend_chain(names: Seq<Seq<char>>, rest: Option<Seq<Seq<char>>>) -> Option<
    Seq<Seq<char>>,
> {
    match rest {
        Some(rest) => Some(names + rest),
        None => None,
    }
}

/// Walks from `id` up the parents and joins the names met, outermost first.
/// There is no path when the walk takes more steps than the table has nodes.
pub fn derive_path(nodes: &HashMap<u64, Node>, id: u64) -> (r: Option<String>)
    ensures
        match r {
            Some(path) => path_of(nodes_view(nodes@), id) == Some(path@),
            None => path_of(nodes_view(nodes@), id) is None,
        },
{
    let limit = nodes.len();
    let ghost table = nodes_view(nodes@);
    assert(table.dom() =~= nodes@.dom());
    let mut names: Vec<&String> = Vec::new();
    let mut current = id;
    let mut walking = true;
    while walking
        invariant
            table == nodes_view(nodes@),
            limit == table.dom().len(),
            names@.len() <= limit,
            !walking ==> !table.contains_key(current),
            chain(table, id, limit as nat) == extend_chain(
                borrowed_texts(names@),
                chain(table, current, (limit - names@.len()) as nat),
            ),
        decreases limit - names@.len() + if walking { 1int } else { 0int },
    {
        match nodes.get(&current) {
            None => {
                walking = false;
            },
            Some(node) => {
                if names.len() == limit {
                    return None;
                }
                names.push(&node.name);
                current = node.parent;
            },
        }
    }
    let ghost found = borrowed_texts(names@);
    let ghost outer_first = found.reverse();
    let mut path = String::new();
    let mut k: usize = names.len();
    while k > 0
        invariant
            k <= names@.len(),
            found == borrowed_texts(names@),
            outer_first == found.reverse(),
            path@ == join_path(outer_first.take(names@.len() - k)),
        decreases k,
    {
        let ghost done = names@.len() - k;
        let ghost next = outer_first.take(done + 1);
        assert(next.drop_last() =~= outer_first.take(done));
        if k < names.len() {
            path.push('/');
        }
        k = k - 1;
        path.append(names[k].as_str());
        assert(path@ =~= join_path(next));
    }
    assert(outer_first.take(names@.len() as int) =~= outer_first);
    Some(path)
}

/// A payload of a package file: where it lies, how large it is there and once
/// unpacked, and the path under which it is filed.
#[derive(Debug)]
pub struct FileRecord {
    pub pkg_name: String,
    pub path: String,
    pub id: u64,
    pub offset: i64,
    pub size: i32,
    pub uncompressed_size: i64,
}

/// The value of a file record.
pub struct FileRecordView {
    pub pkg_name: Seq<char>,
    pub path: Seq<char>,
    pub id: u64,
    pub offset: i64,
    pub size: i32,
    pub uncompressed_size: i64,
}

impl View for FileRecord {
    type V = FileRecordView;

    open spec fn view(&self) -> FileRecordView {
        FileRecordView {
            pkg_name: self.pkg_name@,
            path: self.path@,
            id: self.id,
            offset: self.offset,
            size: self.size,
            uncompressed_size: self.uncompressed_size,
        }
    }
}

impl Clone for FileRecord {
    fn clone(&self) -> (r: Self)
        ensures
            r@ == self@,
    {
        FileRecord {
            pkg_name: self.pkg_name.clone(),
            path: self.path.clone(),
            id: self.id,
            offset: self.offset,
            size: self.size,
            uncompressed_size: self.uncompressed_size,
        }
    }
}

/// The values of a sequence of file records.
pub open spec fn record_views(records: Seq<FileRecord>) -> Seq<FileRecordView> {
    records.map_values(|r: FileRecord| r@)
}

/// The id of the file record at `at`.
pub open spec fn record_id_at(data: Seq<u8>, at: int) -> u64 {
    u64_at(data, at) as u64
}

/// The payload offset of the file record at `at`.
pub open spec fn record_offset_at(data: Seq<u8>, at: int) -> i64 {
    i64_at(data, at + 16) as i64
}

/// The stored size of the file record at `at`.
pub open spec fn record_size_at(data: Seq<u8>, at: int) -> i32 {
    i32_at(data, at + 32) as i32
}

/// The unpacked size of the file record at `at`.
pub open spec fn record_uncompressed_at(data: Seq<u8>, at: int) -> i64 {
    i64_at(data, at + 40) as i64
}

/// Whether the file record at `at` has a name: its id is in the node table.
pub open spec fn record_named(data: Seq<u8>, at: int, table: Map<u64, NodeEntry>) -> bool {
    table.contains_key(record_id_at(data, at))
}

/// Whether the file record at `at` is acceptable: it lies inside the file, it
/// is not larger stored than unpacked, and if it has a name the walk up its
/// parents ends.
pub open spec fn record_ok(data: Seq<u8>, at: int, table: Map<u64, NodeEntry>) -> bool {
    &&& at + 48 <= data.len()
    &&& record_size_at(data, at) <= record_uncompressed_at(data, at)
    &&& record_named(data, at, table) ==> path_of(table, record_id_at(data, at)) is Some
}

/// The file record at `at`, filed under the path that the table gives its id.
pub open spec fn record_at(
    data: Seq<u8>,
    at: int,
    table: Map<u64, NodeEntry>,
    pkg_name: Seq<char>,
) -> FileRecordView {
    FileRecordView {
        pkg_name,
        path: path_of(table, record_id_at(data, at))->0,
        id: record_id_at(data, at),
        offset: record_offset_at(data, at),
        size: record_size_at(data, at),
        uncompressed_size: record_uncompressed_at(data, at),
    }
}

impl FileRecord {
    /// Decodes the file record at `offset` and derives its path from `nodes`.
    ///
    /// A record whose id has no node is unnamed and yields nothing. The record
    /// is refused when it does not lie inside the file, when it is larger
    /// stored than unpacked, or when the parents of its node form a loop.
    pub fn parse(data: &[u8], offset: usize, nodes: &HashMap<u64, Node>, pkg_name: &String) -> (r:
        Result<Option<FileRecord>, UnpackError>)
        ensures
            match r {
                Ok(Some(record)) => {
                    &&& record_ok(data@, offset as int, nodes_view(nodes@))
                    &&& record_named(data@, offset as int, nodes_view(nodes@))
                    &&& record@ == record_at(
                        data@,
                        offset as int,
                        nodes_view(nodes@),
                        pkg_name@,
                    )
                },
                Ok(None) => {
                    &&& record_ok(data@, offset as int, nodes_view(nodes@))
                    &&& !record_named(data@, offset as int, nodes_view(nodes@))
                },
                Err(e) => e == UnpackError::MalformedIdx && !record_ok(
                    data@,
                    offset as int,
                    nodes_view(nodes@),
                ),
            },
    {
        if data.len() < FILE_RECORD_SIZE || offset > data.len() - FILE_RECORD_SIZE {
            return Err(UnpackError::MalformedIdx);
        }
        let id = read_u64_le(data, offset);
        let payload_offset = read_i64_le(data, offset + 16);
        let size = read_i32_le(data, offset + 32);
        let uncompressed_size = read_i64_le(data, offset + 40);
        match (id, payload_offset, size, uncompressed_size) {
            (Some(id), Some(payload_offset), Some(size), Some(uncompressed_size)) => {
                if size as i64 > uncompressed_size {
                    return Err(UnpackError::MalformedIdx);
                }
                if !nodes.contains_key(&id) {
                    return Ok(None);
                }
                match derive_path(nodes, id) {
                    Some(path) => Ok(
                        Some(
                            FileRecord {
                                pkg_name: pkg_name.clone(),
                                path,
                                id,
                                offset: payload_offset,
                                size,
                                uncompressed_size,
                            },
                        ),
                    ),
                    None => Err(UnpackError::MalformedIdx),
                }
            },
            _ => Err(UnpackError::MalformedIdx),
        }
    }
}

/// Decodes the first `count` node records into a table keyed by id.
/// Records without a name are skipped. Fails when a named node is its own
/// parent or repeats the id of an earlier one.
fn parse_nodes(data: &[u8], count: usize) -> (r: Result<HashMap<u64, Node>, UnpackError>)
    requires
        60 + 32 * count <= data@.len(),
    ensures
        match r {
            Ok(nodes) => nodes_ok(data@, count as int) && nodes_view(nodes@) == node_table(
                data@,
                count as int,
            ),
            Err(e) => e == UnpackError::MalformedIdx && !nodes_ok(data@, count as int),
        },
{
    let mut nodes: HashMap<u64, Node> = HashMap::new();
    let mut i: usize = 0;
    assert(nodes_view(nodes@) =~= node_table(data@, 0));
    assert(data@.len() <= usize::MAX) by {
        vstd::slice::axiom_spec_len(data);
    }
    while i < count
        invariant
            i <= count,
            60 + 32 * count <= data@.len() <= usize::MAX,
            nodes_ok(data@, i as int),
            nodes_view(nodes@) == node_table(data@, i as int),
        decreases count - i,
    {
        let offset = HEADER_SIZE + NODE_SIZE * i;
        assert(offset == node_offset(i as int));
        proof {
            lemma_node_table_keys(data@, i as int);
        }
        match Node::parse(data, offset) {
            None => {},
            Some(node) => {
                assert(node_name(data@, i as int) is Some);
                if node.parent == node.id {
                    return Err(UnpackError::MalformedIdx);
                }
                if nodes.contains_key(&node.id) {
                    proof {
                        assert(nodes_view(nodes@).contains_key(node.id));
                        let j = choose|j: int|
                            0 <= j < i && (#[trigger] node_name(data@, j)) is Some && node_id(
                                data@,
                                j,
                            ) == node.id;
                        assert(node_name(data@, j) is Some && node_name(data@, i as int) is Some);
                    }
                    return Err(UnpackError::MalformedIdx);
                }
                let ghost before = nodes@;
                let ghost entry = NodeEntry { name: node.name@, parent: node.parent };
                let id = node.id;
                assert(!nodes_view(before).contains_key(id));
                nodes.insert(id, node);
                assert(nodes_view(nodes@) =~= nodes_view(before).insert(id, entry));
            },
        }
        i = i + 1;
    }
    Ok(nodes)
}

/// A decoded index file: the name of the package file, and the named file
/// records in the order of the file-record table. Where two records have the
/// same path, the later one stands for that path.
#[derive(Debug)]
pub struct IdxFile {
    pub pkg_name: String,
    pub files: Vec<FileRecord>,
}

/// The value of a decoded index file.
pub struct IdxFileView {
    pub pkg_name: Seq<char>,
    pub files: Seq<FileRecordView>,
}

impl View for IdxFile {
    type V = IdxFileView;

    open spec fn view(&self) -> IdxFileView {
        IdxFileView { pkg_name: self.pkg_name@, files: record_views(self.files@) }
    }
}

/// The position of the `i`-th file record.
pub open spec fn record_offset(data: Seq<u8>, i: int) -> int {
    header_third_offset(data) + 16 + 48 * i
}

/// The package name in the trailer, if a valid one stands there.
pub open spec fn pkg_name_of(data: Seq<u8>) -> Option<Seq<char>> {
    cstr_at(data, header_trailer_offset(data) + 16 + 24)
}

/// The node table of an index file.
pub open spec fn idx_table(data: Seq<u8>) -> Map<u64, NodeEntry> {
    node_table(data, header_nodes(data))
}

/// Whether the first `n` file records are acceptable.
pub open spec fn records_ok(data: Seq<u8>, table: Map<u64, NodeEntry>, n: int) -> bool {
    forall|i: int| 0 <= i < n ==> record_ok(data, #[trigger] record_offset(data, i), table)
}

/// The named ones among the first `n` file records, in table order.
pub open spec fn records_of(
    data: Seq<u8>,
    table: Map<u64, NodeEntry>,
    pkg_name: Seq<char>,
    n: int,
) -> Seq<FileRecordView>
    decreases n,
{
    if n <= 0 {
        Seq::empty()
    } else {
        let rest = records_of(data, table, pkg_name, n - 1);
        let at = record_offset(data, n - 1);
        if record_named(data, at, table) {
            rest.push(record_at(data, at, table, pkg_name))
        } else {
            rest
        }
    }
}

/// Whether `data` is an index file that can be decoded: the header fits the
/// file, the node table and every file record are acceptable, and the trailer
/// holds a package name.
pub open spec fn idx_well_formed(data: Seq<u8>) -> bool {
    &&& header_fits(data)
    &&& nodes_ok(data, header_nodes(data))
    &&& pkg_name_of(data) is Some
    &&& records_ok(data, idx_table(data), header_files(data))
}

/// What a well-formed index file holds.
pub open spec fn idx_contents(data: Seq<u8>) -> IdxFileView {
    IdxFileView {
        pkg_name: pkg_name_of(data)->0,
        files: records_of(data, idx_table(data), pkg_name_of(data)->0, header_files(data)),
    }
}

impl IdxFile {
    /// Decodes an index file held in memory.
    ///
    /// Succeeds exactly on well-formed files, and then returns the package
    /// name and the named file records. Nodes without a name and file records
    /// without a node are skipped.
    pub fn parse(data: &[u8]) -> (r: Result<IdxFile, UnpackError>)
        ensures
            match r {
                Ok(idx) => idx_well_formed(data@) && idx@ == idx_contents(data@),
                Err(e) => e == UnpackError::MalformedIdx && !idx_well_formed(data@),
            },
    {
        let header = match IdxHeader::parse(data) {
            Ok(header) => header,
            Err(e) => {
                return Err(e);
            },
        };
        if !header.check(data.len()) {
            return Err(UnpackError::MalformedIdx);
        }
        let nodes = match parse_nodes(data, header.nodes as usize) {
            Ok(nodes) => nodes,
            Err(e) => {
                return Err(e);
            },
        };
        let trailer = header.trailer_offset as usize + SECTION_BASE + TRAILER_NAME_OFFSET;
        let pkg_name = match read_null_terminated_string(data, trailer) {
            Some(name) => name,
            None => {
                return Err(UnpackError::MalformedIdx);
            },
        };
        let third = header.third_offset as usize + SECTION_BASE;
        let count = header.files as usize;
        let ghost table = idx_table(data@);
        let mut files: Vec<FileRecord> = Vec::new();
        let mut i: usize = 0;
        while i < count
            invariant
                i <= count,
                count == header_files(data@),
                third == header_third_offset(data@) + 16,
                third + 48 * count <= data@.len() <= usize::MAX,
                table == idx_table(data@),
                table == nodes_view(nodes@),
                records_ok(data@, table, i as int),
                record_views(files@) == records_of(data@, table, pkg_name@, i as int),
            decreases count - i,
        {
            let at = third + FILE_RECORD_SIZE * i;
            assert(at == record_offset(data@, i as int));
            match FileRecord::parse(data, at, &nodes, &pkg_name) {
                Ok(Some(record)) => {
                    files.push(record);
                },
                Ok(None) => {},
                Err(e) => {
                    return Err(e);
                },
            }
            i = i + 1;
        }
        Ok(IdxFile { pkg_name, files })
    }
}

/// A chain is no longer than the steps it was given.
pub proof fn lemma_chain_length(table: Map<u64, NodeEntry>, id: u64, fuel: nat)
    requires
        chain(table, id, fuel) is Some,
    ensures
        chain(table, id, fuel)->0.len() <= fuel,
    decreases fuel,
{
    if table.contains_key(id) {
        lemma_chain_length(table, table[id].parent, (fuel - 1) as nat);
    }
}

/// A walk that ends does not depend on how many steps it was given.
pub proof fn lemma_chain_fuel(table: Map<u64, NodeEntry>, id: u64, fuel: nat, other: nat)
    requires
        chain(table, id, fuel) is Some,
        chain(table, id, other) is Some,
    ensures
        chain(table, id, fuel) == chain(table, id, other),
    decreases fuel,
{
    if table.contains_key(id) {
        lemma_chain_fuel(table, table[id].parent, (fuel - 1) as nat, (other - 1) as nat);
    }
}

/// After `steps` steps of a walk that ends, the rest of the walk starts at the
/// ancestor reached, and yields the rest of the names.
pub proof fn lemma_chain_suffix(table: Map<u64, NodeEntry>, id: u64, fuel: nat, steps: nat)
    requires
        chain(table, id, fuel) is Some,
        steps <= chain(table, id, fuel)->0.len(),
    ensures
        steps <= fuel,
        chain(table, ancestor(table, id, steps), (fuel - steps) as nat) == Some(
            chain(table, id, fuel)->0.skip(steps as int),
        ),
        steps < chain(table, id, fuel)->0.len() ==> table.contains_key(
            ancestor(table, id, steps),
        ),
    decreases steps,
{
    let names = chain(table, id, fuel)->0;
    if steps == 0 {
        assert(names.skip(0) =~= names);
    } else {
        let rest = chain(table, table[id].parent, (fuel - 1) as nat)->0;
        lemma_chain_suffix(table, table[id].parent, (fuel - 1) as nat, (steps - 1) as nat);
        assert(names.skip(steps as int) =~= rest.skip(steps - 1));
    }
}

/// A walk that ends meets no id twice: the parents form no loop.
pub proof fn lemma_chain_acyclic(table: Map<u64, NodeEntry>, id: u64, fuel: nat, i: nat, j: nat)
    requires
        chain(table, id, fuel) is Some,
        i < j < chain(table, id, fuel)->0.len(),
    ensures
        ancestor(table, id, i) != ancestor(table, id, j),
{
    lemma_chain_suffix(table, id, fuel, i);
    lemma_chain_suffix(table, id, fuel, j);
    let names = chain(table, id, fuel)->0;
    if ancestor(table, id, i) == ancestor(table, id, j) {
        lemma_chain_fuel(table, ancestor(table, id, i), (fuel - i) as nat, (fuel - j) as nat);
        assert(names.skip(i as int).len() == names.len() - i);
    }
}

/// A walk that does not end within its steps stays inside the table for all
/// of them.
pub proof fn lemma_unending_walk_stays(table: Map<u64, NodeEntry>, id: u64, fuel: nat, steps: nat)
    requires
        chain(table, id, fuel) is None,
        steps <= fuel,
    ensures
        table.contains_key(ancestor(table, id, steps)),
    decreases steps,
{
    if steps > 0 {
        lemma_unending_walk_stays(table, table[id].parent, (fuel - 1) as nat, (steps - 1) as nat);
    }
}

/// A walk that does not end within as many steps as the table has entries
/// meets some id twice: the parents form a loop. A walk is refused for no
/// other reason.
pub proof fn lemma_unending_walk_loops(table: Map<u64, NodeEntry>, id: u64)
    requires
        table.dom().finite(),
        chain(table, id, table.dom().len()) is None,
    ensures
        exists|i: nat, j: nat|
            i < j <= table.dom().len() && #[trigger] ancestor(table, id, i) == #[trigger] ancestor(
                table,
                id,
                j,
            ),
{
    let fuel = table.dom().len();
    let met = Seq::new(fuel + 1, |k: int| ancestor(table, id, k as nat));
    if met.no_duplicates() {
        met.unique_seq_to_set();
        assert(met.to_set().subset_of(table.dom())) by {
            assert forall|x: u64| met.to_set().contains(x) implies table.dom().contains(x) by {
                let k = choose|k: int| 0 <= k < met.len() && met[k] == x;
                lemma_unending_walk_stays(table, id, fuel, k as nat);
            }
        }
        vstd::set_lib::lemma_len_subset(met.to_set(), table.dom());
    } else {
        let (a, b) = choose|a: int, b: int|
            0 <= a < met.len() && 0 <= b < met.len() && a != b && met[a] == met[b];
    }
}

/// The walk up from any named file record of a well-formed index file ends
/// within as many steps as the header declares nodes, and meets no node
/// twice.
pub proof fn lemma_parent_walk_ends(data: Seq<u8>, i: int)
    requires
        idx_well_formed(data),
        0 <= i < header_files(data),
        record_named(data, record_offset(data, i), idx_table(data)),
    ensures
        ({
            let table = idx_table(data);
            let id = record_id_at(data, record_offset(data, i));
            let walk = chain(table, id, table.dom().len());
            &&& walk is Some
            &&& walk->0.len() <= header_nodes(data)
            &&& forall|a: nat, b: nat|
                a < b < walk->0.len() ==> ancestor(table, id, a) != ancestor(table, id, b)
        }),
{
    let table = idx_table(data);
    let id = record_id_at(data, record_offset(data, i));
    let fuel = table.dom().len();
    lemma_node_table_keys(data, header_nodes(data));
    lemma_chain_length(table, id, fuel);
    assert forall|a: nat, b: nat| a < b < chain(table, id, fuel)->0.len() implies ancestor(
        table,
        id,
        a,
    ) != ancestor(table, id, b) by {
        lemma_chain_acyclic(table, id, fuel, a, b);
    }
}

/// The records listed are the named ones: there are no more of them than the
/// table has records, and exactly as many when every record is named.
pub proof fn lemma_records_count(
    data: Seq<u8>,
    table: Map<u64, NodeEntry>,
    pkg_name: Seq<char>,
    n: int,
)
    requires
        n >= 0,
    ensures
        records_of(data, table, pkg_name, n).len() <= n,
        (forall|i: int| 0 <= i < n ==> record_named(data, #[trigger] record_offset(data, i), table))
            ==> records_of(data, table, pkg_name, n).len() == n,
    decreases n,
{
    if n > 0 {
        lemma_records_count(data, table, pkg_name, n - 1);
    }
}

/// Decoding a well-formed index file in which every file record has a node
/// yields exactly as many records as the header declares.
pub proof fn lemma_every_named_record_listed(data: Seq<u8>)
    requires
        idx_well_formed(data),
        forall|i: int|
            0 <= i < header_files(data) ==> record_named(
                data,
                #[trigger] record_offset(data, i),
                idx_table(data),
            ),
    ensures
        idx_contents(data).files.len() == header_files(data),
{
    lemma_records_count(data, idx_table(data), pkg_name_of(data)->0, header_files(data));
}

/// An index file that declares no nodes and no file records is well-formed as
/// soon as its header fits and its trailer names a package, and it holds no
/// records.
pub proof fn lemma_empty_idx(data: Seq<u8>)
    requires
        header_fits(data),
        header_nodes(data) == 0,
        header_files(data) == 0,
        pkg_name_of(data) is Some,
    ensures
        idx_well_formed(data),
        idx_contents(data).files.len() == 0,
{
}

/// An index file whose trailer starts before its file-record table is not
/// well-formed.
pub proof fn lemma_trailer_before_records(data: Seq<u8>)
    requires
        header_trailer_offset(data) < header_third_offset(data),
    ensures
        !idx_well_formed(data),
{
}

} // verus!
