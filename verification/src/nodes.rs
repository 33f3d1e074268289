//! The directory structure of a repository: trees and files as nodes, and
//! the flat records in which they are stored.

use crate::errors::GitError;
use crate::hash::{hex_decode, hex_text, is_hex};
use crate::protocol::same_text;
use vstd::prelude::*;
use vstd::string::*;
use vstd::utf8::encode_utf8;

verus! {

broadcast use vstd::std_specs::vec::group_vec_axioms;

/// What an entry of a tree points at.
#[derive(Clone, Copy, Debug, PartialEq, Eq, Structural)]
pub enum TreeItemType {
    Blob,
    BlobExecutable,
    Tree,
    Commit,
    Link,
}

/// One entry of a tree.
#[derive(Clone, Debug)]
pub struct TreeItem {
    pub mode: Vec<u8>,
    pub item_type: TreeItemType,
    pub id: crate::hash::Hash,
    pub filename: String,
}

/// A tree object: its id, its name and its entries.
#[derive(Clone, Debug)]
pub struct Tree {
    pub id: crate::hash::Hash,
    pub tree_name: String,
    pub tree_items: Vec<TreeItem>,
}

/// A blob object: its id and its bytes.
#[derive(Clone, Debug)]
pub struct Blob {
    pub id: crate::hash::Hash,
    pub data: Vec<u8>,
}

/// A commit, as far as the directory structure needs it: the tree it
/// points at.
#[derive(Clone, Debug)]
pub struct Commit {
    pub tree_id: crate::hash::Hash,
}

/// What the decoding of a pack found.
pub struct ObjDecodedMap {
    pub commits: Vec<Commit>,
    pub trees: Vec<Tree>,
    pub blobs: Vec<Blob>,
}

/// A node as it is stored: one flat record.
#[derive(Clone, Debug)]
pub struct NodeModel {
    pub pid: i64,
    pub node_id: i64,
    pub git_id: String,
    pub node_type: String,
    pub name: String,
    pub path: String,
    pub mode: Vec<u8>,
}

/// The bytes of a file as they are stored.
#[derive(Clone, Debug)]
pub struct NodeDataModel {
    pub node_id: i64,
    pub git_id: String,
    pub data: Vec<u8>,
}

/// The records that a directory structure is stored as.
pub struct SaveModel {
    pub nodes: Vec<NodeModel>,
    pub nodes_data: Vec<NodeDataModel>,
}

/// A record as the contracts see it.
pub struct ModelView {
    pub pid: i64,
    pub node_id: i64,
    pub git_id: Seq<char>,
    pub node_type: Seq<char>,
    pub name: Seq<char>,
    pub path: Seq<char>,
    pub mode: Seq<u8>,
}

impl View for NodeModel {
    type V = ModelView;

    open spec fn view(&self) -> ModelView {
        ModelView {
            pid: self.pid,
            node_id: self.node_id,
            git_id: self.git_id@,
            node_type: self.node_type@,
            name: self.name@,
            path: self.path@,
            mode: self.mode@,
        }
    }
}

/// The stored bytes of a file as the contracts see them.
pub struct DataView {
    pub node_id: i64,
    pub git_id: Seq<char>,
    pub data: Seq<u8>,
}

impl View for NodeDataModel {
    type V = DataView;

    open spec fn view(&self) -> DataView {
        DataView { node_id: self.node_id, git_id: self.git_id@, data: self.data@ }
    }
}

/// A directory.
pub struct TreeNode {
    pub nid: i64,
    pub pid: i64,
    pub git_id: crate::hash::Hash,
    pub name: String,
    pub path: String,
    pub mode: Vec<u8>,
    pub children: Vec<NodeKind>,
}

/// A file.
#[derive(Debug, Clone)]
pub struct FileNode {
    pub nid: i64,
    pub pid: i64,
    pub git_id: crate::hash::Hash,
    pub name: String,
    pub path: String,
    pub mode: Vec<u8>,
    pub data: Vec<u8>,
}

/// A node of the directory structure: a directory or a file.
pub enum NodeKind {
    Tree(TreeNode),
    File(FileNode),
}

/// The record of a node with the given fields.
pub open spec fn record(
    pid: i64,
    nid: i64,
    git_id: crate::hash::Hash,
    node_type: Seq<char>,
    name: Seq<char>,
    path: Seq<char>,
    mode: Seq<u8>,
) -> ModelView {
    ModelView { pid, node_id: nid, git_id: hex_text(git_id@), node_type, name, path, mode }
}

/// What every node has.
pub trait Node {
    fn get_id(&self) -> i64;

    fn get_pid(&self) -> i64;

    fn get_git_id(&self) -> crate::hash::Hash;

    fn get_name(&self) -> &str;

    fn get_mode(&self) -> Vec<u8>;

    fn is_a_directory(&self) -> bool;

    /// The text that the node holds; a node holds none until it is
    /// loaded.
    fn read_data(&self) -> String;

    /// The record that the node is stored as.
    fn convert_to_model(&self) -> NodeModel;
}

/// A copy of `bytes`.
pub fn copy_bytes(bytes: &Vec<u8>) -> (r: Vec<u8>)
    ensures
        r@ == bytes@,
{
    let mut r: Vec<u8> = Vec::new();
    crate::delta::append_range(&mut r, bytes.as_slice(), 0, bytes.len());
    assert(bytes@.subrange(0, bytes@.len() as int) =~= bytes@);
    r
}

impl Node for TreeNode {
    fn get_id(&self) -> (r: i64)
        ensures
            r == self.nid,
    {
        self.nid
    }

    fn get_pid(&self) -> (r: i64)
        ensures
            r == self.pid,
    {
        self.pid
    }

    fn get_git_id(&self) -> (r: crate::hash::Hash)
        ensures
            r == self.git_id,
    {
        self.git_id
    }

    fn get_name(&self) -> (r: &str)
        ensures
            r@ == self.name@,
    {
        self.name.as_str()
    }

    fn get_mode(&self) -> (r: Vec<u8>)
        ensures
            r@ == self.mode@,
    {
        copy_bytes(&self.mode)
    }

    fn is_a_directory(&self) -> (r: bool)
        ensures
            r,
    {
        true
    }

    fn read_data(&self) -> (r: String)
        ensures
            r@ == Seq::<char>::empty(),
    {
        String::new()
    }

    fn convert_to_model(&self) -> (m: NodeModel)
        ensures
            m@ == record(
                self.pid,
                self.nid,
                self.git_id,
                "tree"@,
                self.name@,
                self.path@,
                self.mode@,
            ),
    {
        NodeModel {
            pid: self.pid,
            node_id: self.nid,
            git_id: self.git_id.to_plain_str(),
            node_type: "tree".to_owned(),
            name: self.name.clone(),
            path: self.path.clone(),
            mode: copy_bytes(&self.mode),
        }
    }
}

impl Node for FileNode {
    fn get_id(&self) -> (r: i64)
        ensures
            r == self.nid,
    {
        self.nid
    }

    fn get_pid(&self) -> (r: i64)
        ensures
            r == self.pid,
    {
        self.pid
    }

    fn get_git_id(&self) -> (r: crate::hash::Hash)
        ensures
            r == self.git_id,
    {
        self.git_id
    }

    fn get_name(&self) -> (r: &str)
        ensures
            r@ == self.name@,
    {
        self.name.as_str()
    }

    fn get_mode(&self) -> (r: Vec<u8>)
        ensures
            r@ == self.mode@,
    {
        copy_bytes(&self.mode)
    }

    fn is_a_directory(&self) -> (r: bool)
        ensures
            !r,
    {
        false
    }

    fn read_data(&self) -> (r: String)
        ensures
            r@ == Seq::<char>::empty(),
    {
        String::new()
    }

    fn convert_to_model(&self) -> (m: NodeModel)
        ensures
            m@ == record(
                self.pid,
                self.nid,
                self.git_id,
                "blob"@,
                self.name@,
                self.path@,
                self.mode@,
            ),
    {
        NodeModel {
            pid: self.pid,
            node_id: self.nid,
            git_id: self.git_id.to_plain_str(),
            node_type: "blob".to_owned(),
            name: self.name.clone(),
            path: self.path.clone(),
            mode: copy_bytes(&self.mode),
        }
    }
}

impl TreeNode {
    /// An empty directory `name` under the node `pid`, with the id `nid`.
    pub fn new(name: String, pid: i64, nid: i64) -> (t: TreeNode)
        ensures
            t.nid == nid,
            t.pid == pid,
            t.name == name,
            t.path@ == Seq::<char>::empty(),
            t.mode@ == Seq::<u8>::empty(),
            t.git_id@ == Seq::new(20, |i: int| 0u8),
            t.children@ == Seq::<NodeKind>::empty(),
    {
        TreeNode {
            nid,
            pid,
            name,
            path: String::new(),
            mode: Vec::new(),
            git_id: crate::hash::Hash::zero(),
            children: Vec::new(),
        }
    }

    /// The root directory with the id `nid`: it has no name and no
    /// parent, and its path is `/`.
    pub fn get_root_from_nid(nid: i64) -> (node: NodeKind)
        ensures
            node matches NodeKind::Tree(t) && t.nid == nid && t.pid == 0 && t.name@
                == Seq::<char>::empty() && t.path@ == "/"@ && t.mode@ == Seq::<u8>::empty()
                && t.git_id@ == Seq::new(20, |i: int| 0u8) && t.children@ == Seq::<
                NodeKind,
            >::empty(),
    {
        NodeKind::Tree(
            TreeNode {
                nid,
                pid: 0,
                git_id: crate::hash::Hash::zero(),
                name: String::new(),
                path: "/".to_owned(),
                mode: Vec::new(),
                children: Vec::new(),
            },
        )
    }

    /// Where the first child with the name `name` stands among the
    /// children.
    pub fn find_child(&self, name: &str) -> (r: Option<usize>)
        ensures
            match r {
                Some(k) => k < self.children@.len() && self.children@[k as int].name() == name@
                    && forall|j: int| 0 <= j < k ==> self.children@[j].name() != name@,
                None => forall|j: int|
                    0 <= j < self.children@.len() ==> self.children@[j].name() != name@,
            },
    {
        let mut k: usize = 0;
        while k < self.children.len()
            invariant
                k <= self.children@.len(),
                forall|j: int| 0 <= j < k ==> self.children@[j].name() != name@,
            decreases self.children@.len() - k,
        {
            if same_text(self.children[k].get_name(), name) {
                return Some(k);
            }
            k += 1;
        }
        None
    }

    /// Puts `child` behind the children.
    pub fn add_child(&mut self, child: NodeKind)
        ensures
            final(self).children@ == old(self).children@.push(child),
            final(self).nid == old(self).nid,
            final(self).pid == old(self).pid,
            final(self).git_id == old(self).git_id,
            final(self).name == old(self).name,
            final(self).path == old(self).path,
            final(self).mode == old(self).mode,
    {
        self.children.push(child);
    }
}

impl FileNode {
    /// An empty file `name` under the node `pid`, with the id `nid`.
    pub fn new(name: String, pid: i64, nid: i64) -> (f: FileNode)
        ensures
            f.nid == nid,
            f.pid == pid,
            f.name == name,
            f.path@ == Seq::<char>::empty(),
            f.mode@ == Seq::<u8>::empty(),
            f.data@ == Seq::<u8>::empty(),
            f.git_id@ == Seq::new(20, |i: int| 0u8),
    {
        FileNode {
            nid,
            pid,
            path: String::new(),
            name,
            git_id: crate::hash::Hash::zero(),
            data: Vec::new(),
            mode: Vec::new(),
        }
    }
}

impl NodeKind {
    /// The id of the node.
    pub open spec fn nid(&self) -> i64 {
        match self {
            NodeKind::Tree(t) => t.nid,
            NodeKind::File(f) => f.nid,
        }
    }

    /// The name of the node.
    pub open spec fn name(&self) -> Seq<char> {
        match self {
            NodeKind::Tree(t) => t.name@,
            NodeKind::File(f) => f.name@,
        }
    }

    /// The id of the object of the node.
    pub open spec fn git_id(&self) -> crate::hash::Hash {
        match self {
            NodeKind::Tree(t) => t.git_id,
            NodeKind::File(f) => f.git_id,
        }
    }

    /// The record that the node is stored as.
    pub open spec fn model(&self) -> ModelView {
        match self {
            NodeKind::Tree(t) => record(t.pid, t.nid, t.git_id, "tree"@, t.name@, t.path@, t.mode@),
            NodeKind::File(f) => record(f.pid, f.nid, f.git_id, "blob"@, f.name@, f.path@, f.mode@),
        }
    }

    /// The id of the node.
    pub fn get_id(&self) -> (r: i64)
        ensures
            r == self.nid(),
    {
        match self {
            NodeKind::Tree(t) => t.get_id(),
            NodeKind::File(f) => f.get_id(),
        }
    }

    /// The name of the node.
    pub fn get_name(&self) -> (r: &str)
        ensures
            r@ == self.name(),
    {
        match self {
            NodeKind::Tree(t) => t.get_name(),
            NodeKind::File(f) => f.get_name(),
        }
    }

    /// Whether the node is a directory.
    pub fn is_a_directory(&self) -> (r: bool)
        ensures
            r == (self is Tree),
    {
        match self {
            NodeKind::Tree(t) => t.is_a_directory(),
            NodeKind::File(f) => f.is_a_directory(),
        }
    }

    /// The record that the node is stored as.
    pub fn convert_to_model(&self) -> (m: NodeModel)
        ensures
            m@ == self.model(),
    {
        match self {
            NodeKind::Tree(t) => t.convert_to_model(),
            NodeKind::File(f) => f.convert_to_model(),
        }
    }
}

/// The root directory for `tree` at the path `req_path`, with the id
/// `nid`: it has the id and the name of the tree, no parent and no child.
pub fn init_root(tree: &Tree, req_path: &str, nid: i64) -> (node: NodeKind)
    ensures
        node matches NodeKind::Tree(t) && t.nid == nid && t.pid == 0 && t.git_id == tree.id
            && t.name@ == tree.tree_name@ && t.path@ == req_path@ && t.mode@ == Seq::<
            u8,
        >::empty() && t.children@ == Seq::<NodeKind>::empty(),
{
    NodeKind::Tree(
        TreeNode {
            nid,
            pid: 0,
            git_id: tree.id,
            name: tree.tree_name.clone(),
            path: req_path.to_owned(),
            mode: Vec::new(),
            children: Vec::new(),
        },
    )
}

/// Where the first blob with the id `id` stands in `blobs`.
pub open spec fn blob_at(blobs: Seq<Blob>, id: crate::hash::Hash) -> Option<int>
    decreases blobs.len(),
{
    if blobs.len() == 0 {
        None
    } else if blob_at(blobs.drop_last(), id) is Some {
        blob_at(blobs.drop_last(), id)
    } else if blobs.last().id == id {
        Some(blobs.len() - 1)
    } else {
        None
    }
}

/// Finds the first blob with the id `id` in `blobs`.
pub fn find_blob(blobs: &Vec<Blob>, id: &crate::hash::Hash) -> (r: Option<usize>)
    ensures
        match r {
            Some(k) => blob_at(blobs@, *id) == Some(k as int) && k < blobs@.len() && blobs@[k as int].id
                == *id,
            None => blob_at(blobs@, *id) is None,
        },
{
    let mut k: usize = 0;
    while k < blobs.len()
        invariant
            k <= blobs@.len(),
            blob_at(blobs@.take(k as int), *id) is None,
        decreases blobs@.len() - k,
    {
        proof {
            assert(blobs@.take(k + 1).drop_last() =~= blobs@.take(k as int));
        }
        if blobs[k].id.same(id) {
            proof {
                lemma_blob_at_prefix(blobs@, *id, k + 1);
            }
            return Some(k);
        }
        k += 1;
    }
    proof {
        assert(blobs@.take(k as int) =~= blobs@);
    }
    None
}

/// A blob that is found among the first `n` blobs is found there among
/// all of them.
proof fn lemma_blob_at_prefix(blobs: Seq<Blob>, id: crate::hash::Hash, n: int)
    requires
        0 <= n <= blobs.len(),
        blob_at(blobs.take(n), id) is Some,
    ensures
        blob_at(blobs, id) == blob_at(blobs.take(n), id),
    decreases blobs.len(),
{
    if n == blobs.len() {
        assert(blobs.take(n) =~= blobs);
    } else {
        assert(blobs.drop_last().take(n) =~= blobs.take(n));
        lemma_blob_at_prefix(blobs.drop_last(), id, n);
    }
}

/// The records of `node` and of everything below it: a node comes before
/// its children, and the children come in order.
pub open spec fn flatten(node: NodeKind) -> Seq<ModelView>
    decreases node,
{
    match node {
        NodeKind::Tree(t) => seq![node.model()] + flatten_all(t.children@, t.children@.len()),
        NodeKind::File(f) => seq![node.model()],
    }
}

/// The records of the first `n` of `nodes` and of everything below them.
pub open spec fn flatten_all(nodes: Seq<NodeKind>, n: nat) -> Seq<ModelView>
    decreases nodes, n,
{
    if n == 0 || n > nodes.len() {
        Seq::empty()
    } else {
        flatten_all(nodes, (n - 1) as nat) + flatten(nodes[n - 1])
    }
}

/// The stored bytes of a file node whose blob stands at `k` of `blobs`.
pub open spec fn file_data(f: FileNode, blob: Blob) -> DataView {
    DataView { node_id: f.nid, git_id: hex_text(blob.id@), data: blob.data@ }
}

/// The stored bytes of the files at and below `node`, in the order of the
/// records; there are none where a file has no blob in `blobs`.
pub open spec fn file_records(node: NodeKind, blobs: Seq<Blob>) -> Option<Seq<DataView>>
    decreases node,
{
    match node {
        NodeKind::Tree(t) => file_records_all(t.children@, t.children@.len(), blobs),
        NodeKind::File(f) => match blob_at(blobs, f.git_id) {
            Some(k) => Some(seq![file_data(f, blobs[k])]),
            None => None,
        },
    }
}

/// The stored bytes of the files at and below the first `n` of `nodes`.
pub open spec fn file_records_all(nodes: Seq<NodeKind>, n: nat, blobs: Seq<Blob>) -> Option<
    Seq<DataView>,
>
    decreases nodes, n,
{
    if n == 0 || n > nodes.len() {
        Some(Seq::empty())
    } else {
        match (file_records_all(nodes, (n - 1) as nat, blobs), file_records(nodes[n - 1], blobs)) {
            (Some(before), Some(last)) => Some(before + last),
            _ => None,
        }
    }
}

/// The records of `models`.
pub open spec fn model_views(models: Seq<NodeModel>) -> Seq<ModelView> {
    Seq::new(models.len(), |i: int| models[i]@)
}

/// The stored bytes of `models`.
pub open spec fn data_views(models: Seq<NodeDataModel>) -> Seq<DataView> {
    Seq::new(models.len(), |i: int| models[i]@)
}

/// Puts the records of `node` and of everything below it behind those of
/// `save_model`, a node before its children, and the bytes of every file
/// behind its stored bytes. Fails with `LookupError` where a file has no
/// blob in `blobs`.
pub fn traverse_node(node: &NodeKind, save_model: &mut SaveModel, blobs: &Vec<Blob>) -> (r: Result<
    (),
    GitError,
>)
    ensures
        match r {
            Ok(()) => {
                &&& file_records(*node, blobs@) is Some
                &&& model_views(final(save_model).nodes@) == model_views(old(save_model).nodes@)
                    + flatten(*node)
                &&& data_views(final(save_model).nodes_data@) == data_views(
                    old(save_model).nodes_data@,
                ) + file_records(*node, blobs@).unwrap()
            },
            Err(e) => e == GitError::LookupError && file_records(*node, blobs@) is None,
        },
    decreases node,
{
    let ghost nodes_before = model_views(save_model.nodes@);
    let ghost data_before = data_views(save_model.nodes_data@);
    save_model.nodes.push(node.convert_to_model());
    proof {
        assert(model_views(save_model.nodes@) =~= nodes_before + seq![node.model()]);
    }
    match node {
        NodeKind::Tree(t) => {
            let n: usize = t.children.len();
            let mut i: usize = 0;
            proof {
                assert(nodes_before + seq![node.model()] + flatten_all(t.children@, 0)
                    =~= nodes_before + seq![node.model()]);
                assert(data_before + file_records_all(t.children@, 0, blobs@).unwrap()
                    =~= data_before);
            }
            while i < n
                invariant
                    i <= n,
                    n == t.children@.len(),
                    *node == NodeKind::Tree(*t),
                    file_records_all(t.children@, i as nat, blobs@) is Some,
                    model_views(save_model.nodes@) == nodes_before + seq![node.model()]
                        + flatten_all(t.children@, i as nat),
                    data_views(save_model.nodes_data@) == data_before + file_records_all(
                        t.children@,
                        i as nat,
                        blobs@,
                    ).unwrap(),
                decreases n - i,
            {
                let ghost nodes_mid = model_views(save_model.nodes@);
                let ghost data_mid = data_views(save_model.nodes_data@);
                match traverse_node(&t.children[i], save_model, blobs) {
                    Ok(()) => {},
                    Err(e) => {
                        proof {
                            lemma_records_missing(t.children@, i as nat, n as nat, blobs@);
                        }
                        return Err(e);
                    },
                }
                proof {
                    let piece = flatten(t.children@[i as int]);
                    assert(nodes_mid + piece =~= nodes_before + seq![node.model()] + flatten_all(
                        t.children@,
                        (i + 1) as nat,
                    ));
                    let more = file_records(t.children@[i as int], blobs@).unwrap();
                    assert(data_mid + more =~= data_before + file_records_all(
                        t.children@,
                        (i + 1) as nat,
                        blobs@,
                    ).unwrap());
                }
                i += 1;
            }
            proof {
                assert(nodes_before + flatten(*node) =~= nodes_before + seq![node.model()]
                    + flatten_all(t.children@, n as nat));
            }
            Ok(())
        },
        NodeKind::File(f) => match find_blob(blobs, &f.git_id) {
            Some(k) => {
                let blob = &blobs[k];
                save_model.nodes_data.push(
                    NodeDataModel {
                        node_id: f.nid,
                        git_id: blob.id.to_plain_str(),
                        data: copy_bytes(&blob.data),
                    },
                );
                proof {
                    assert(data_views(save_model.nodes_data@) =~= data_before + seq![
                        file_data(*f, blobs@[k as int]),
                    ]);
                }
                Ok(())
            },
            None => Err(GitError::LookupError),
        },
    }
}

/// Where a file below one of the first `i + 1` nodes has no blob, a file
/// below one of the first `n` has none.
proof fn lemma_records_missing(nodes: Seq<NodeKind>, i: nat, n: nat, blobs: Seq<Blob>)
    requires
        i < n <= nodes.len(),
        file_records(nodes[i as int], blobs) is None,
    ensures
        file_records_all(nodes, n, blobs) is None,
    decreases n,
{
    if n > i + 1 {
        lemma_records_missing(nodes, i, (n - 1) as nat, blobs);
    }
}

/// Where ids for new nodes come from.
pub trait IdSource {
    /// The id for the next node.
    fn generate_id(&mut self) -> i64;
}

/// Ids that count up from a first one.
pub struct Counter {
    pub next: i64,
}

impl IdSource for Counter {
    fn generate_id(&mut self) -> (id: i64)
        ensures
            id == old(self).next,
            final(self).next == if old(self).next < i64::MAX {
                old(self).next + 1
            } else {
                old(self).next as int
            },
    {
        let id: i64 = self.next;
        if self.next < i64::MAX {
            self.next = self.next + 1;
        }
        id
    }
}

/// Where the first tree with the id `id` stands in `trees`.
pub open spec fn tree_at(trees: Seq<Tree>, id: crate::hash::Hash) -> Option<int>
    decreases trees.len(),
{
    if trees.len() == 0 {
        None
    } else if tree_at(trees.drop_last(), id) is Some {
        tree_at(trees.drop_last(), id)
    } else if trees.last().id == id {
        Some(trees.len() - 1)
    } else {
        None
    }
}

/// A tree that is found among the first `n` trees is found there among
/// all of them.
proof fn lemma_tree_at_prefix(trees: Seq<Tree>, id: crate::hash::Hash, n: int)
    requires
        0 <= n <= trees.len(),
        tree_at(trees.take(n), id) is Some,
    ensures
        tree_at(trees, id) == tree_at(trees.take(n), id),
    decreases trees.len(),
{
    if n == trees.len() {
        assert(trees.take(n) =~= trees);
    } else {
        assert(trees.drop_last().take(n) =~= trees.take(n));
        lemma_tree_at_prefix(trees.drop_last(), id, n);
    }
}

/// Finds the first tree with the id `id` in `trees`.
pub fn find_tree(trees: &Vec<Tree>, id: &crate::hash::Hash) -> (r: Option<usize>)
    ensures
        match r {
            Some(k) => tree_at(trees@, *id) == Some(k as int) && k < trees@.len(),
            None => tree_at(trees@, *id) is None,
        },
{
    let mut k: usize = 0;
    while k < trees.len()
        invariant
            k <= trees@.len(),
            tree_at(trees@.take(k as int), *id) is None,
        decreases trees@.len() - k,
    {
        proof {
            assert(trees@.take(k + 1).drop_last() =~= trees@.take(k as int));
        }
        if trees[k].id.same(id) {
            proof {
                lemma_tree_at_prefix(trees@, *id, k + 1);
            }
            return Some(k);
        }
        k += 1;
    }
    proof {
        assert(trees@.take(k as int) =~= trees@);
    }
    None
}

/// Why the directory structure of the tree `tree_id` cannot be built from
/// `trees` with `depth` levels below it, if it cannot: a tree is missing,
/// or the trees go deeper than `depth`.
pub open spec fn build_outcome(tree_id: crate::hash::Hash, trees: Seq<Tree>, depth: nat) -> Option<
    GitError,
>
    decreases depth, 1nat, 0nat,
{
    match tree_at(trees, tree_id) {
        None => Some(GitError::LookupError),
        Some(k) => items_outcome(trees[k].tree_items@, trees[k].tree_items@.len(), trees, depth),
    }
}

/// Why the nodes for the first `n` of `items` cannot be built, if they
/// cannot.
pub open spec fn items_outcome(items: Seq<TreeItem>, n: nat, trees: Seq<Tree>, depth: nat) -> Option<
    GitError,
>
    decreases depth, 0nat, n,
{
    if n == 0 || n > items.len() {
        None
    } else {
        match items_outcome(items, (n - 1) as nat, trees, depth) {
            Some(e) => Some(e),
            None => {
                let item = items[n - 1];
                if item.item_type != TreeItemType::Tree {
                    None
                } else if depth == 0 {
                    Some(GitError::LimitExceeded)
                } else {
                    build_outcome(item.id, trees, (depth - 1) as nat)
                }
            },
        }
    }
}

/// Whether `node` is the node for the entry `item` of a tree whose node
/// has the id `pid`: it has the id, the name and the mode of the entry,
/// it lies at `req_path`, a tree entry gives a directory whose children
/// are the nodes for the entries of its tree, and any other entry gives an
/// empty file.
pub open spec fn mirrors(
    node: NodeKind,
    item: TreeItem,
    pid: i64,
    req_path: Seq<char>,
    trees: Seq<Tree>,
    depth: nat,
) -> bool
    decreases depth, 0nat, 0nat,
{
    match node {
        NodeKind::File(f) => {
            &&& item.item_type != TreeItemType::Tree
            &&& f.pid == pid
            &&& f.git_id == item.id
            &&& f.name@ == item.filename@
            &&& f.mode@ == item.mode@
            &&& f.path@ == req_path
            &&& f.data@ == Seq::<u8>::empty()
        },
        NodeKind::Tree(t) => {
            &&& item.item_type == TreeItemType::Tree
            &&& t.pid == pid
            &&& t.git_id == item.id
            &&& t.name@ == item.filename@
            &&& t.mode@ == item.mode@
            &&& t.path@ == req_path
            &&& depth > 0
            &&& tree_at(trees, item.id) matches Some(k)
            &&& t.children@.len() == trees[k].tree_items@.len()
            &&& mirrors_all(
                t.children@,
                trees[k].tree_items@,
                t.children@.len(),
                t.nid,
                req_path,
                trees,
                (depth - 1) as nat,
            )
        },
    }
}

/// Whether the first `n` of `nodes` are the nodes for the first `n` of
/// `items`, one for one.
pub open spec fn mirrors_all(
    nodes: Seq<NodeKind>,
    items: Seq<TreeItem>,
    n: nat,
    pid: i64,
    req_path: Seq<char>,
    trees: Seq<Tree>,
    depth: nat,
) -> bool
    decreases depth, 1nat, n,
{
    n == 0 || (n <= nodes.len() && n <= items.len() && mirrors_all(
        nodes,
        items,
        (n - 1) as nat,
        pid,
        req_path,
        trees,
        depth,
    ) && mirrors(nodes[n - 1], items[n - 1], pid, req_path, trees, depth))
}

/// Nodes that follow the first `n` have no part in whether the first `n`
/// are the nodes for the first `n` entries.
proof fn lemma_mirrors_all_frame(
    nodes: Seq<NodeKind>,
    more: Seq<NodeKind>,
    items: Seq<TreeItem>,
    n: nat,
    pid: i64,
    req_path: Seq<char>,
    trees: Seq<Tree>,
    depth: nat,
)
    requires
        n <= nodes.len(),
        mirrors_all(nodes, items, n, pid, req_path, trees, depth),
    ensures
        mirrors_all(nodes + more, items, n, pid, req_path, trees, depth),
    decreases n,
{
    if n > 0 {
        lemma_mirrors_all_frame(nodes, more, items, (n - 1) as nat, pid, req_path, trees, depth);
        assert((nodes + more)[n - 1] == nodes[n - 1]);
    }
}

/// Where the nodes for some entries cannot be built, those for more
/// entries cannot be built either, for the same reason.
proof fn lemma_items_outcome_stays(
    items: Seq<TreeItem>,
    i: nat,
    n: nat,
    trees: Seq<Tree>,
    depth: nat,
)
    requires
        i <= n <= items.len(),
        items_outcome(items, i, trees, depth) is Some,
    ensures
        items_outcome(items, n, trees, depth) == items_outcome(items, i, trees, depth),
    decreases n,
{
    if n > i {
        lemma_items_outcome_stays(items, i, (n - 1) as nat, trees, depth);
    }
}

/// Builds the nodes for the entries of the tree `tree_id`, and for the
/// entries of the trees below it down to `depth` levels, and puts them
/// behind the children of `node`; every new node takes its id from `ids`.
/// Fails with `LookupError` where a tree is not among `trees` and with
/// `LimitExceeded` where the trees go deeper than `depth`.
pub fn build_from_root_tree<I: IdSource>(
    tree_id: &crate::hash::Hash,
    trees: &Vec<Tree>,
    node: &mut TreeNode,
    req_path: &str,
    ids: &mut I,
    depth: usize,
) -> (r: Result<(), GitError>)
    ensures
        final(node).nid == old(node).nid,
        final(node).pid == old(node).pid,
        final(node).git_id == old(node).git_id,
        final(node).name == old(node).name,
        final(node).path == old(node).path,
        final(node).mode == old(node).mode,
        match r {
            Ok(()) => {
                &&& build_outcome(*tree_id, trees@, depth as nat) is None
                &&& tree_at(trees@, *tree_id) matches Some(k)
                &&& final(node).children@.len() == old(node).children@.len()
                    + trees@[k].tree_items@.len()
                &&& final(node).children@.take(old(node).children@.len() as int) == old(
                    node,
                ).children@
                &&& mirrors_all(
                    final(node).children@.skip(old(node).children@.len() as int),
                    trees@[k].tree_items@,
                    trees@[k].tree_items@.len(),
                    final(node).nid,
                    req_path@,
                    trees@,
                    depth as nat,
                )
            },
            Err(e) => build_outcome(*tree_id, trees@, depth as nat) == Some(e),
        },
    decreases depth,
{
    let k = match find_tree(trees, tree_id) {
        Some(k) => k,
        None => {
            return Err(GitError::LookupError);
        },
    };
    let tree = &trees[k];
    let n: usize = tree.tree_items.len();
    let ghost items = tree.tree_items@;
    let ghost start = node.children@;
    let mut i: usize = 0;
    proof {
        assert(node.children@.take(start.len() as int) =~= start);
    }
    while i < n
        invariant
            i <= n,
            n == items.len(),
            items == trees@[k as int].tree_items@,
            *tree == trees@[k as int],
            k < trees@.len(),
            tree_at(trees@, *tree_id) == Some(k as int),
            start == old(node).children@,
            node.nid == old(node).nid,
            node.pid == old(node).pid,
            node.git_id == old(node).git_id,
            node.name == old(node).name,
            node.path == old(node).path,
            node.mode == old(node).mode,
            node.children@.len() == start.len() + i,
            node.children@.take(start.len() as int) == start,
            items_outcome(items, i as nat, trees@, depth as nat) is None,
            mirrors_all(
                node.children@.skip(start.len() as int),
                items,
                i as nat,
                node.nid,
                req_path@,
                trees@,
                depth as nat,
            ),
        decreases n - i,
    {
        let item = &tree.tree_items[i];
        let nid = ids.generate_id();
        let ghost before = node.children@;
        let child = if item.item_type == TreeItemType::Tree {
            if depth == 0 {
                proof {
                    assert(items_outcome(items, (i + 1) as nat, trees@, depth as nat) == Some(
                        GitError::LimitExceeded,
                    ));
                    lemma_items_outcome_stays(items, (i + 1) as nat, n as nat, trees@, depth as nat);
                }
                return Err(GitError::LimitExceeded);
            }
            let mut below = TreeNode {
                nid,
                pid: node.nid,
                git_id: item.id,
                name: item.filename.clone(),
                path: req_path.to_owned(),
                mode: copy_bytes(&item.mode),
                children: Vec::new(),
            };
            match build_from_root_tree(&item.id, trees, &mut below, req_path, ids, depth - 1) {
                Ok(()) => {},
                Err(e) => {
                    proof {
                        assert(items_outcome(items, (i + 1) as nat, trees@, depth as nat) == Some(
                            e,
                        ));
                        lemma_items_outcome_stays(
                            items,
                            (i + 1) as nat,
                            n as nat,
                            trees@,
                            depth as nat,
                        );
                    }
                    return Err(e);
                },
            }
            proof {
                assert(below.children@.skip(0) =~= below.children@);
            }
            NodeKind::Tree(below)
        } else {
            NodeKind::File(
                FileNode {
                    nid,
                    pid: node.nid,
                    git_id: item.id,
                    name: item.filename.clone(),
                    path: req_path.to_owned(),
                    mode: copy_bytes(&item.mode),
                    data: Vec::new(),
                },
            )
        };
        proof {
            assert(mirrors(child, *item, node.nid, req_path@, trees@, depth as nat));
            assert(items_outcome(items, (i + 1) as nat, trees@, depth as nat) is None);
        }
        node.children.push(child);
        proof {
            let added = before.skip(start.len() as int);
            assert(node.children@.skip(start.len() as int) =~= added + seq![child]);
            lemma_mirrors_all_frame(
                added,
                seq![child],
                items,
                i as nat,
                node.nid,
                req_path@,
                trees@,
                depth as nat,
            );
            assert(node.children@.take(start.len() as int) =~= start);
        }
        i += 1;
    }
    Ok(())
}

/// A tree that is found has the id it was looked for by.
pub proof fn lemma_tree_at_id(trees: Seq<Tree>, id: crate::hash::Hash)
    ensures
        tree_at(trees, id) matches Some(k) ==> 0 <= k < trees.len() && trees[k].id == id,
    decreases trees.len(),
{
    if trees.len() > 0 {
        lemma_tree_at_id(trees.drop_last(), id);
    }
}

/// What a tree holds: the number of entries at and below it, the number of
/// those that are files, and whether every one of the files has its blob.
pub struct Census {
    pub nodes: nat,
    pub files: nat,
    pub found: bool,
}

/// What the tree `tree_id` holds, down to `depth` levels below it, with
/// the blobs looked for in `blobs`.
pub open spec fn census(
    tree_id: crate::hash::Hash,
    trees: Seq<Tree>,
    blobs: Seq<Blob>,
    depth: nat,
) -> Census
    decreases depth, 2nat, 0nat,
{
    match tree_at(trees, tree_id) {
        None => Census { nodes: 0, files: 0, found: true },
        Some(k) => items_census(
            trees[k].tree_items@,
            trees[k].tree_items@.len(),
            trees,
            blobs,
            depth,
        ),
    }
}

/// What the entry `item` holds: itself, and for a tree entry what its tree
/// holds.
pub open spec fn item_census(item: TreeItem, trees: Seq<Tree>, blobs: Seq<Blob>, depth: nat) -> Census
    decreases depth, 0nat, 0nat,
{
    if item.item_type != TreeItemType::Tree {
        Census { nodes: 1, files: 1, found: blob_at(blobs, item.id) is Some }
    } else if depth == 0 {
        Census { nodes: 1, files: 0, found: true }
    } else {
        let below = census(item.id, trees, blobs, (depth - 1) as nat);
        Census { nodes: 1 + below.nodes, files: below.files, found: below.found }
    }
}

/// What the first `n` of `items` hold together.
pub open spec fn items_census(
    items: Seq<TreeItem>,
    n: nat,
    trees: Seq<Tree>,
    blobs: Seq<Blob>,
    depth: nat,
) -> Census
    decreases depth, 1nat, n,
{
    if n == 0 || n > items.len() {
        Census { nodes: 0, files: 0, found: true }
    } else {
        let before = items_census(items, (n - 1) as nat, trees, blobs, depth);
        let here = item_census(items[n - 1], trees, blobs, depth);
        Census {
            nodes: before.nodes + here.nodes,
            files: before.files + here.files,
            found: before.found && here.found,
        }
    }
}

/// The node for an entry has as many records as the entry holds entries,
/// and its files have their blobs exactly where those of the entry have.
pub proof fn lemma_mirror_census(
    node: NodeKind,
    item: TreeItem,
    pid: i64,
    req_path: Seq<char>,
    trees: Seq<Tree>,
    blobs: Seq<Blob>,
    depth: nat,
)
    requires
        mirrors(node, item, pid, req_path, trees, depth),
    ensures
        flatten(node).len() == item_census(item, trees, blobs, depth).nodes,
        file_records(node, blobs) is Some == item_census(item, trees, blobs, depth).found,
        file_records(node, blobs) matches Some(data) ==> data.len() == item_census(
            item,
            trees,
            blobs,
            depth,
        ).files,
    decreases depth, 0nat, 0nat,
{
    match node {
        NodeKind::File(f) => {},
        NodeKind::Tree(t) => {
            let k = tree_at(trees, item.id)->Some_0;
            lemma_mirrors_census(
                t.children@,
                trees[k].tree_items@,
                t.children@.len(),
                t.nid,
                req_path,
                trees,
                blobs,
                (depth - 1) as nat,
            );
        },
    }
}

/// The nodes for some entries have as many records as the entries hold
/// entries, and their files have their blobs exactly where those of the
/// entries have.
pub proof fn lemma_mirrors_census(
    nodes: Seq<NodeKind>,
    items: Seq<TreeItem>,
    n: nat,
    pid: i64,
    req_path: Seq<char>,
    trees: Seq<Tree>,
    blobs: Seq<Blob>,
    depth: nat,
)
    requires
        mirrors_all(nodes, items, n, pid, req_path, trees, depth),
    ensures
        flatten_all(nodes, n).len() == items_census(items, n, trees, blobs, depth).nodes,
        file_records_all(nodes, n, blobs) is Some == items_census(
            items,
            n,
            trees,
            blobs,
            depth,
        ).found,
        file_records_all(nodes, n, blobs) matches Some(data) ==> data.len() == items_census(
            items,
            n,
            trees,
            blobs,
            depth,
        ).files,
    decreases depth, 1nat, n,
{
    if n > 0 {
        lemma_mirrors_census(nodes, items, (n - 1) as nat, pid, req_path, trees, blobs, depth);
        lemma_mirror_census(nodes[n - 1], items[n - 1], pid, req_path, trees, blobs, depth);
    }
}

/// Whether `saved` holds the records of the directory `root`, and `root`
/// is the directory structure of the first commit of `result` at the
/// path `req_path`.
pub open spec fn describes(
    root: NodeKind,
    saved: SaveModel,
    result: ObjDecodedMap,
    req_path: Seq<char>,
    depth: nat,
) -> bool {
    &&& result.commits@.len() > 0
    &&& tree_at(result.trees@, result.commits@[0].tree_id) matches Some(k)
    &&& root matches NodeKind::Tree(t)
    &&& t.pid == 0
    &&& t.git_id == result.commits@[0].tree_id
    &&& t.name@ == result.trees@[k].tree_name@
    &&& t.path@ == req_path
    &&& t.children@.len() == result.trees@[k].tree_items@.len()
    &&& mirrors_all(
        t.children@,
        result.trees@[k].tree_items@,
        t.children@.len(),
        t.nid,
        req_path,
        result.trees@,
        depth,
    )
    &&& model_views(saved.nodes@) == flatten(root)
    &&& file_records(root, result.blobs@) == Some(data_views(saved.nodes_data@))
}

/// Whether `saved` holds the records of the directory structure of the
/// first commit of `result` at the path `req_path`, whatever the ids of
/// its nodes are.
pub open spec fn saves(
    saved: SaveModel,
    result: ObjDecodedMap,
    req_path: Seq<char>,
    depth: nat,
) -> bool {
    exists|root: NodeKind| describes(root, saved, result, req_path, depth)
}

/// The directory structure of the first commit of `result`, at the path
/// `req_path`, as records: one for the root and one for every entry at and
/// below its tree, and the bytes of every file. Every node takes its id
/// from `ids`, the root first. Fails with `LookupError` where there is no
/// commit or a tree is missing, with `LimitExceeded` where the trees go
/// deeper than `depth`, and with `LookupError` where the trees are all
/// there and a file has no blob in `result.blobs`; it succeeds on every
/// other input.
pub fn build_node_tree<I: IdSource>(
    result: &ObjDecodedMap,
    req_path: &str,
    ids: &mut I,
    depth: usize,
) -> (r: Result<SaveModel, GitError>)
    ensures
        match r {
            Ok(saved) => {
                &&& saves(saved, *result, req_path@, depth as nat)
                &&& build_outcome(result.commits@[0].tree_id, result.trees@, depth as nat) is None
                &&& census(
                    result.commits@[0].tree_id,
                    result.trees@,
                    result.blobs@,
                    depth as nat,
                ).found
                &&& saved.nodes@.len() == 1 + census(
                    result.commits@[0].tree_id,
                    result.trees@,
                    result.blobs@,
                    depth as nat,
                ).nodes
                &&& saved.nodes_data@.len() == census(
                    result.commits@[0].tree_id,
                    result.trees@,
                    result.blobs@,
                    depth as nat,
                ).files
                &&& saved.nodes@[0]@.pid == 0
                &&& saved.nodes@[0]@.git_id == hex_text(result.commits@[0].tree_id@)
                &&& saved.nodes@[0]@.node_type == "tree"@
                &&& saved.nodes@[0]@.path == req_path@
            },
            Err(e) => {
                ||| result.commits@.len() == 0 && e == GitError::LookupError
                ||| result.commits@.len() > 0 && build_outcome(
                    result.commits@[0].tree_id,
                    result.trees@,
                    depth as nat,
                ) == Some(e)
                ||| result.commits@.len() > 0 && build_outcome(
                    result.commits@[0].tree_id,
                    result.trees@,
                    depth as nat,
                ) is None && !census(
                    result.commits@[0].tree_id,
                    result.trees@,
                    result.blobs@,
                    depth as nat,
                ).found && e == GitError::LookupError
            },
        },
{
    if result.commits.len() == 0 {
        return Err(GitError::LookupError);
    }
    let tree_id = result.commits[0].tree_id;
    let k = match find_tree(&result.trees, &tree_id) {
        Some(k) => k,
        None => {
            return Err(GitError::LookupError);
        },
    };
    proof {
        lemma_tree_at_id(result.trees@, tree_id);
    }
    let nid = ids.generate_id();
    let mut root = match init_root(&result.trees[k], req_path, nid) {
        NodeKind::Tree(t) => t,
        NodeKind::File(_) => {
            return Err(GitError::LookupError);
        },
    };
    match build_from_root_tree(&tree_id, &result.trees, &mut root, req_path, ids, depth) {
        Ok(()) => {},
        Err(e) => {
            return Err(e);
        },
    }
    let mut save_model = SaveModel { nodes: Vec::new(), nodes_data: Vec::new() };
    let node = NodeKind::Tree(root);
    proof {
        assert(root.children@.skip(0) =~= root.children@);
        lemma_mirrors_census(
            root.children@,
            result.trees@[k as int].tree_items@,
            root.children@.len(),
            root.nid,
            req_path@,
            result.trees@,
            result.blobs@,
            depth as nat,
        );
    }
    match traverse_node(&node, &mut save_model, &result.blobs) {
        Ok(()) => {},
        Err(e) => {
            return Err(e);
        },
    }
    proof {
        assert(root.children@.skip(0) =~= root.children@);
        assert(model_views(save_model.nodes@) =~= flatten(node));
        assert(data_views(save_model.nodes_data@) =~= file_records(node, result.blobs@).unwrap());
        assert(describes(node, save_model, *result, req_path@, depth as nat));
        assert(saves(save_model, *result, req_path@, depth as nat));
        assert(model_views(save_model.nodes@)[0] == node.model());
        assert(model_views(save_model.nodes@).len() == save_model.nodes@.len());
        assert(data_views(save_model.nodes_data@).len() == save_model.nodes_data@.len());
    }
    Ok(save_model)
}

/// A node as the contracts see it.
pub enum NodeView {
    Tree {
        nid: i64,
        pid: i64,
        git_id: Seq<u8>,
        name: Seq<char>,
        path: Seq<char>,
        mode: Seq<u8>,
        children: Seq<NodeView>,
    },
    File {
        nid: i64,
        pid: i64,
        git_id: Seq<u8>,
        name: Seq<char>,
        path: Seq<char>,
        mode: Seq<u8>,
        data: Seq<u8>,
    },
}

/// `node` as the contracts see it.
pub open spec fn node_view(node: NodeKind) -> NodeView
    decreases node,
{
    match node {
        NodeKind::Tree(t) => NodeView::Tree {
            nid: t.nid,
            pid: t.pid,
            git_id: t.git_id@,
            name: t.name@,
            path: t.path@,
            mode: t.mode@,
            children: node_views(t.children@, t.children@.len()),
        },
        NodeKind::File(f) => NodeView::File {
            nid: f.nid,
            pid: f.pid,
            git_id: f.git_id@,
            name: f.name@,
            path: f.path@,
            mode: f.mode@,
            data: f.data@,
        },
    }
}

/// The first `n` of `nodes` as the contracts see them.
pub open spec fn node_views(nodes: Seq<NodeKind>, n: nat) -> Seq<NodeView>
    decreases nodes, n,
{
    if n == 0 || n > nodes.len() {
        Seq::empty()
    } else {
        node_views(nodes, (n - 1) as nat).push(node_view(nodes[n - 1]))
    }
}

/// Nodes that follow the first `n` have no part in how the first `n` are
/// seen.
proof fn lemma_node_views_frame(nodes: Seq<NodeKind>, more: Seq<NodeKind>, n: nat)
    requires
        n <= nodes.len(),
    ensures
        node_views(nodes + more, n) == node_views(nodes, n),
    decreases n,
{
    if n > 0 {
        lemma_node_views_frame(nodes, more, (n - 1) as nat);
        assert((nodes + more)[n - 1] == nodes[n - 1]);
    }
}

/// Whether `text` is an object id in forty hexadecimal digits.
pub open spec fn id_ok(text: Seq<char>) -> bool {
    encode_utf8(text).len() == 40 && is_hex(encode_utf8(text))
}

/// The object id that `text` spells.
pub open spec fn id_of(text: Seq<char>) -> Seq<u8> {
    hex_decode(encode_utf8(text))
}

/// The nodes for the records among the first `upto` of `models` whose
/// parent is `pid`, in the order of the records: a record of type `blob`
/// gives an empty file, any other record a directory whose children are
/// the nodes for the records below it. There are none where the id of a
/// record is not forty hexadecimal digits (`FormatError`) or where the
/// records go deeper than `depth` (`LimitExceeded`); the first record
/// that fails decides.
pub open spec fn forest(models: Seq<ModelView>, upto: nat, pid: i64, depth: nat) -> Result<
    Seq<NodeView>,
    GitError,
>
    decreases depth, upto,
{
    if upto == 0 || upto > models.len() {
        Ok(Seq::empty())
    } else {
        match forest(models, (upto - 1) as nat, pid, depth) {
            Err(e) => Err(e),
            Ok(before) => {
                let m = models[upto - 1];
                if m.pid != pid {
                    Ok(before)
                } else if m.node_type == "blob"@ {
                    if id_ok(m.git_id) {
                        Ok(
                            before.push(
                                NodeView::File {
                                    nid: m.node_id,
                                    pid: m.pid,
                                    git_id: id_of(m.git_id),
                                    name: m.name,
                                    path: m.path,
                                    mode: m.mode,
                                    data: Seq::empty(),
                                },
                            ),
                        )
                    } else {
                        Err(GitError::FormatError)
                    }
                } else if depth == 0 {
                    Err(GitError::LimitExceeded)
                } else {
                    match forest(models, models.len(), m.node_id, (depth - 1) as nat) {
                        Err(e) => Err(e),
                        Ok(children) => if id_ok(m.git_id) {
                            Ok(
                                before.push(
                                    NodeView::Tree {
                                        nid: m.node_id,
                                        pid: m.pid,
                                        git_id: id_of(m.git_id),
                                        name: m.name,
                                        path: m.path,
                                        mode: m.mode,
                                        children,
                                    },
                                ),
                            )
                        } else {
                            Err(GitError::FormatError)
                        },
                    }
                }
            },
        }
    }
}

/// Where the nodes for some records cannot be built, those for more
/// records cannot be built either, for the same reason.
proof fn lemma_forest_stays(models: Seq<ModelView>, i: nat, n: nat, pid: i64, depth: nat)
    requires
        i <= n <= models.len(),
        forest(models, i, pid, depth) is Err,
    ensures
        forest(models, n, pid, depth) == forest(models, i, pid, depth),
    decreases n,
{
    if n > i {
        lemma_forest_stays(models, i, (n - 1) as nat, pid, depth);
    }
}

impl TreeNode {
    /// The directory that the record `node` stands for, with `children`.
    /// Fails with `FormatError` where the id of the record is not forty
    /// hexadecimal digits.
    pub fn convert_from_model(node: &NodeModel, children: Vec<NodeKind>) -> (r: Result<
        NodeKind,
        GitError,
    >)
        ensures
            match r {
                Ok(made) => {
                    &&& id_ok(node.git_id@)
                    &&& made matches NodeKind::Tree(t)
                    &&& t.nid == node.node_id
                    &&& t.pid == node.pid
                    &&& t.git_id@ == id_of(node.git_id@)
                    &&& t.name@ == node.name@
                    &&& t.path@ == node.path@
                    &&& t.mode@ == node.mode@
                    &&& t.children == children
                },
                Err(e) => e == GitError::FormatError && !id_ok(node.git_id@),
            },
    {
        let git_id = match crate::hash::Hash::from_bytes(node.git_id.as_str().as_bytes()) {
            Ok(h) => h,
            Err(e) => {
                return Err(e);
            },
        };
        Ok(
            NodeKind::Tree(
                TreeNode {
                    nid: node.node_id,
                    pid: node.pid,
                    git_id,
                    name: node.name.clone(),
                    path: node.path.clone(),
                    mode: copy_bytes(&node.mode),
                    children,
                },
            ),
        )
    }
}

impl FileNode {
    /// The file that the record `node` stands for; its bytes are not
    /// loaded. Fails with `FormatError` where the id of the record is not
    /// forty hexadecimal digits.
    pub fn convert_from_model(node: &NodeModel) -> (r: Result<NodeKind, GitError>)
        ensures
            match r {
                Ok(made) => {
                    &&& id_ok(node.git_id@)
                    &&& made matches NodeKind::File(f)
                    &&& f.nid == node.node_id
                    &&& f.pid == node.pid
                    &&& f.git_id@ == id_of(node.git_id@)
                    &&& f.name@ == node.name@
                    &&& f.path@ == node.path@
                    &&& f.mode@ == node.mode@
                    &&& f.data@ == Seq::<u8>::empty()
                },
                Err(e) => e == GitError::FormatError && !id_ok(node.git_id@),
            },
    {
        let git_id = match crate::hash::Hash::from_bytes(node.git_id.as_str().as_bytes()) {
            Ok(h) => h,
            Err(e) => {
                return Err(e);
            },
        };
        Ok(
            NodeKind::File(
                FileNode {
                    nid: node.node_id,
                    pid: node.pid,
                    git_id,
                    name: node.name.clone(),
                    path: node.path.clone(),
                    mode: copy_bytes(&node.mode),
                    data: Vec::new(),
                },
            ),
        )
    }
}

/// Builds the nodes for the records of `nodes_model` whose parent is
/// `pid`, with everything below them down to `depth` levels.
pub fn model_to_node(nodes_model: &Vec<NodeModel>, pid: i64, depth: usize) -> (r: Result<
    Vec<NodeKind>,
    GitError,
>)
    ensures
        match r {
            Ok(nodes) => forest(
                model_views(nodes_model@),
                nodes_model@.len(),
                pid,
                depth as nat,
            ) == Ok::<Seq<NodeView>, GitError>(node_views(nodes@, nodes@.len())),
            Err(e) => forest(model_views(nodes_model@), nodes_model@.len(), pid, depth as nat)
                == Err::<Seq<NodeView>, GitError>(e),
        },
    decreases depth,
{
    let ghost models = model_views(nodes_model@);
    let n: usize = nodes_model.len();
    let mut nodes: Vec<NodeKind> = Vec::new();
    let mut i: usize = 0;
    while i < n
        invariant
            i <= n,
            n == nodes_model@.len(),
            models == model_views(nodes_model@),
            forest(models, i as nat, pid, depth as nat) == Ok::<Seq<NodeView>, GitError>(
                node_views(nodes@, nodes@.len()),
            ),
        decreases n - i,
    {
        let model = &nodes_model[i];
        let ghost before = nodes@;
        assert(models[i as int] == model@);
        if model.pid == pid {
            let made = if same_text(model.node_type.as_str(), "blob") {
                FileNode::convert_from_model(model)
            } else {
                if depth == 0 {
                    proof {
                        lemma_forest_stays(models, (i + 1) as nat, n as nat, pid, depth as nat);
                    }
                    return Err(GitError::LimitExceeded);
                }
                match model_to_node(nodes_model, model.node_id, depth - 1) {
                    Ok(childs) => TreeNode::convert_from_model(model, childs),
                    Err(e) => {
                        proof {
                            lemma_forest_stays(models, (i + 1) as nat, n as nat, pid, depth as nat);
                        }
                        return Err(e);
                    },
                }
            };
            match made {
                Ok(node) => {
                    nodes.push(node);
                    proof {
                        assert(nodes@ =~= before + seq![node]);
                        lemma_node_views_frame(before, seq![node], before.len());
                        assert(node_views(nodes@, nodes@.len()) == node_views(
                            before,
                            before.len(),
                        ).push(node_view(node)));
                        assert(model.node_type@ == "blob"@ ==> node is File);
                        assert(forest(models, (i + 1) as nat, pid, depth as nat) == Ok::<
                            Seq<NodeView>,
                            GitError,
                        >(node_views(before, before.len()).push(node_view(node))));
                    }
                },
                Err(e) => {
                    proof {
                        lemma_forest_stays(models, (i + 1) as nat, n as nat, pid, depth as nat);
                    }
                    return Err(e);
                },
            }
        }
        i += 1;
    }
    Ok(nodes)
}

/// An entry of a tree as the contracts see it.
pub struct ItemView {
    pub mode: Seq<u8>,
    pub item_type: TreeItemType,
    pub id: Seq<u8>,
    pub filename: Seq<char>,
}

impl View for TreeItem {
    type V = ItemView;

    open spec fn view(&self) -> ItemView {
        ItemView {
            mode: self.mode@,
            item_type: self.item_type,
            id: self.id@,
            filename: self.filename@,
        }
    }
}

/// A tree as the contracts see it.
pub struct TreeView {
    pub id: Seq<u8>,
    pub tree_name: Seq<char>,
    pub tree_items: Seq<ItemView>,
}

impl View for Tree {
    type V = TreeView;

    open spec fn view(&self) -> TreeView {
        TreeView {
            id: self.id@,
            tree_name: self.tree_name@,
            tree_items: Seq::new(self.tree_items@.len(), |i: int| self.tree_items@[i]@),
        }
    }
}

/// The trees of `trees` as the contracts see them.
pub open spec fn tree_views(trees: Seq<Tree>) -> Seq<TreeView> {
    Seq::new(trees.len(), |i: int| trees[i]@)
}

/// The entry that the record `m` stands for: a record of type `tree` is
/// a tree entry, any other a blob entry.
pub open spec fn item_of(m: ModelView) -> ItemView {
    ItemView {
        mode: m.mode,
        item_type: if m.node_type == "tree"@ {
            TreeItemType::Tree
        } else {
            TreeItemType::Blob
        },
        id: id_of(m.git_id),
        filename: m.name,
    }
}

/// The entries of the tree of `root` and the trees below it, from the
/// first `upto` of `models`: the entries are the records whose parent is
/// `root`, in order, and behind every record of type `tree` come the
/// trees at and below it. Fails as `forest` does.
pub open spec fn tree_parts(models: Seq<ModelView>, upto: nat, root: ModelView, depth: nat) -> Result<
    (Seq<ItemView>, Seq<TreeView>),
    GitError,
>
    decreases depth, 0nat, upto,
{
    if upto == 0 || upto > models.len() {
        Ok((Seq::empty(), Seq::empty()))
    } else {
        match tree_parts(models, (upto - 1) as nat, root, depth) {
            Err(e) => Err(e),
            Ok((items, below)) => {
                let m = models[upto - 1];
                if m.pid != root.node_id {
                    Ok((items, below))
                } else if !id_ok(m.git_id) {
                    Err(GitError::FormatError)
                } else if m.node_type != "tree"@ {
                    Ok((items.push(item_of(m)), below))
                } else if depth == 0 {
                    Err(GitError::LimitExceeded)
                } else {
                    match tree_list(models, m, (depth - 1) as nat) {
                        Err(e) => Err(e),
                        Ok(more) => Ok((items.push(item_of(m)), below + more)),
                    }
                }
            },
        }
    }
}

/// The trees at and below the record `root`: those below it first, every
/// tree behind the trees below it, and the tree of `root` last.
pub open spec fn tree_list(models: Seq<ModelView>, root: ModelView, depth: nat) -> Result<
    Seq<TreeView>,
    GitError,
>
    decreases depth, 1nat, 0nat,
{
    match tree_parts(models, models.len(), root, depth) {
        Err(e) => Err(e),
        Ok((items, below)) => if id_ok(root.git_id) {
            Ok(
                below.push(
                    TreeView { id: id_of(root.git_id), tree_name: root.name, tree_items: items },
                ),
            )
        } else {
            Err(GitError::FormatError)
        },
    }
}

/// Where the entries for some records cannot be built, those for more
/// records cannot be built either, for the same reason.
proof fn lemma_tree_parts_stays(models: Seq<ModelView>, i: nat, n: nat, root: ModelView, depth: nat)
    requires
        i <= n <= models.len(),
        tree_parts(models, i, root, depth) is Err,
    ensures
        tree_parts(models, n, root, depth) == tree_parts(models, i, root, depth),
    decreases n,
{
    if n > i {
        lemma_tree_parts_stays(models, i, (n - 1) as nat, root, depth);
    }
}

impl TreeItem {
    /// The entry that the record `model` stands for. Fails with
    /// `FormatError` where the id of the record is not forty hexadecimal
    /// digits.
    pub fn convert_from_model(model: &NodeModel) -> (r: Result<TreeItem, GitError>)
        ensures
            match r {
                Ok(item) => id_ok(model.git_id@) && item@ == item_of(model@),
                Err(e) => e == GitError::FormatError && !id_ok(model.git_id@),
            },
    {
        let id = match crate::hash::Hash::from_bytes(model.git_id.as_str().as_bytes()) {
            Ok(h) => h,
            Err(e) => {
                return Err(e);
            },
        };
        let item_type = if same_text(model.node_type.as_str(), "tree") {
            TreeItemType::Tree
        } else {
            TreeItemType::Blob
        };
        Ok(TreeItem { mode: copy_bytes(&model.mode), item_type, id, filename: model.name.clone() })
    }

    /// The node for this entry under the node `pid`, at `req_path`, with
    /// the id `nid`: a directory without children for a tree entry, an
    /// empty file for any other.
    pub fn convert_to_node(&self, pid: i64, req_path: &str, nid: i64) -> (node: NodeKind)
        ensures
            node.nid() == nid,
            node.name() == self.filename@,
            node.git_id() == self.id,
            (node is Tree) == (self.item_type == TreeItemType::Tree),
            match node {
                NodeKind::Tree(t) => t.pid == pid && t.path@ == req_path@ && t.mode@ == self.mode@
                    && t.children@ == Seq::<NodeKind>::empty(),
                NodeKind::File(f) => f.pid == pid && f.path@ == req_path@ && f.mode@ == self.mode@
                    && f.data@ == Seq::<u8>::empty(),
            },
    {
        if self.item_type == TreeItemType::Tree {
            NodeKind::Tree(
                TreeNode {
                    nid,
                    pid,
                    git_id: self.id,
                    name: self.filename.clone(),
                    path: req_path.to_owned(),
                    mode: copy_bytes(&self.mode),
                    children: Vec::new(),
                },
            )
        } else {
            NodeKind::File(
                FileNode {
                    nid,
                    pid,
                    git_id: self.id,
                    name: self.filename.clone(),
                    path: req_path.to_owned(),
                    mode: copy_bytes(&self.mode),
                    data: Vec::new(),
                },
            )
        }
    }
}

/// Builds the tree of the record `root` and the trees below it, down to
/// `depth` levels, from the records of `nodes_model`, and puts them behind
/// `results`: the trees below a tree first, the tree itself last. Where
/// it fails, `results` holds what was built before.
pub fn model_to_tree(
    nodes_model: &Vec<NodeModel>,
    root: &NodeModel,
    results: &mut Vec<Tree>,
    depth: usize,
) -> (r: Result<(), GitError>)
    ensures
        match r {
            Ok(()) => {
                &&& tree_list(model_views(nodes_model@), root@, depth as nat) matches Ok(list)
                &&& tree_views(final(results)@) == tree_views(old(results)@) + list
            },
            Err(e) => tree_list(model_views(nodes_model@), root@, depth as nat) == Err::<
                Seq<TreeView>,
                GitError,
            >(e),
        },
    decreases depth,
{
    let ghost models = model_views(nodes_model@);
    let ghost start = tree_views(results@);
    let n: usize = nodes_model.len();
    let mut tree_items: Vec<TreeItem> = Vec::new();
    let mut i: usize = 0;
    proof {
        assert(start + Seq::<TreeView>::empty() =~= start);
    }
    while i < n
        invariant
            i <= n,
            n == nodes_model@.len(),
            models == model_views(nodes_model@),
            tree_parts(models, i as nat, root@, depth as nat) is Ok,
            tree_parts(models, i as nat, root@, depth as nat)->Ok_0.0 == Seq::new(
                tree_items@.len(),
                |j: int| tree_items@[j]@,
            ),
            tree_views(results@) == start + tree_parts(
                models,
                i as nat,
                root@,
                depth as nat,
            )->Ok_0.1,
        decreases n - i,
    {
        let model = &nodes_model[i];
        assert(models[i as int] == model@);
        let ghost items_before = Seq::new(tree_items@.len(), |j: int| tree_items@[j]@);
        let ghost below_before = tree_parts(models, i as nat, root@, depth as nat)->Ok_0.1;
        if model.pid == root.node_id {
            let item = match TreeItem::convert_from_model(model) {
                Ok(item) => item,
                Err(e) => {
                    proof {
                        lemma_tree_parts_stays(models, (i + 1) as nat, n as nat, root@, depth as nat);
                    }
                    return Err(e);
                },
            };
            let is_tree: bool = same_text(model.node_type.as_str(), "tree");
            tree_items.push(item);
            proof {
                assert(Seq::new(tree_items@.len(), |j: int| tree_items@[j]@) =~= items_before.push(
                    item_of(model@),
                ));
            }
            if is_tree {
                if depth == 0 {
                    proof {
                        lemma_tree_parts_stays(models, (i + 1) as nat, n as nat, root@, depth as nat);
                    }
                    return Err(GitError::LimitExceeded);
                }
                match model_to_tree(nodes_model, model, results, depth - 1) {
                    Ok(()) => {
                        proof {
                            let more = tree_list(models, model@, (depth - 1) as nat)->Ok_0;
                            assert(start + below_before + more =~= start + (below_before + more));
                        }
                    },
                    Err(e) => {
                        proof {
                            lemma_tree_parts_stays(
                                models,
                                (i + 1) as nat,
                                n as nat,
                                root@,
                                depth as nat,
                            );
                        }
                        return Err(e);
                    },
                }
            }
        }
        i += 1;
    }
    let id = match crate::hash::Hash::from_bytes(root.git_id.as_str().as_bytes()) {
        Ok(h) => h,
        Err(e) => {
            return Err(e);
        },
    };
    let ghost below = tree_views(results@);
    let tree = Tree { id, tree_name: root.name.clone(), tree_items };
    results.push(tree);
    proof {
        let parts = tree_parts(models, n as nat, root@, depth as nat)->Ok_0;
        assert(tree@.tree_items =~= parts.0);
        assert(tree_views(results@) =~= below.push(tree@));
        assert(start + parts.1.push(tree@) =~= (start + parts.1).push(tree@));
    }
    Ok(())
}

} // verus!
