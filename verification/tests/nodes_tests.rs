use gust::errors::GitError;
use gust::nodes::{
    build_from_root_tree, build_node_tree, init_root, model_to_node, model_to_tree, traverse_node,
    Blob, Commit, Counter, FileNode, IdSource, Node, NodeKind, NodeModel, ObjDecodedMap,
    SaveModel, Tree, TreeItem, TreeItemType, TreeNode,
};

fn id(n: u8) -> gust::hash::Hash {
    gust::hash::Hash([n; 20])
}

fn hex(n: u8) -> String {
    id(n).to_plain_str()
}

fn build_tree(node: &mut TreeNode, path: &str, depth: usize, ids: &mut Counter) {
    let parts: Vec<&str> = path.split('/').collect();
    if depth < parts.len() {
        let child_name = parts[depth];
        let at = match node.find_child(child_name) {
            Some(at) => at,
            None => {
                let nid = ids.generate_id();
                node.add_child(NodeKind::Tree(TreeNode::new(child_name.to_owned(), 0, nid)));
                match node.find_child(child_name) {
                    Some(at) => at,
                    None => panic!("Something wrong!:{}, {}", child_name, depth),
                }
            }
        };
        match &mut node.children[at] {
            NodeKind::Tree(child) => build_tree(child, path, depth + 1, ids),
            NodeKind::File(_) => panic!("not supported"),
        }
    }
}

#[test]
fn main() {
    // Form our INPUT:  a list of paths.
    let paths = vec![
        "child1/grandchild1.txt",
        "child1/grandchild2.txt",
        "child2/grandchild3.txt",
        "child3",
    ];
    println!("Input Paths:\n{:#?}\n", paths);
    let mut ids = Counter { next: 100 };
    let mut root = match TreeNode::get_root_from_nid(1) {
        NodeKind::Tree(t) => t,
        NodeKind::File(_) => panic!("the root is a directory"),
    };
    for path in paths.iter() {
        build_tree(&mut root, path, 0, &mut ids);
    }
    assert_eq!(root.children.len(), 3);
    let mut saved = SaveModel { nodes: Vec::new(), nodes_data: Vec::new() };
    assert_eq!(traverse_node(&NodeKind::Tree(root), &mut saved, &vec![]), Ok(()));
    let names: Vec<(String, i64)> =
        saved.nodes.iter().map(|m| (m.name.clone(), m.node_id)).collect();
    assert_eq!(
        names,
        vec![
            ("".to_string(), 1),
            ("child1".to_string(), 100),
            ("grandchild1.txt".to_string(), 101),
            ("grandchild2.txt".to_string(), 102),
            ("child2".to_string(), 103),
            ("grandchild3.txt".to_string(), 104),
            ("child3".to_string(), 105),
        ]
    );
    assert!(saved.nodes.iter().all(|m| m.node_type == "tree"));
    assert_eq!(saved.nodes[0].path, "/");
    assert!(saved.nodes_data.is_empty());
}

#[test]
fn new_nodes_are_empty() {
    let t = TreeNode::new("src".to_string(), 4, 9);
    assert_eq!((t.get_id(), t.get_pid(), t.get_name()), (9, 4, "src"));
    assert!(t.is_a_directory());
    assert!(t.get_git_id().same(&gust::hash::Hash::zero()));
    assert_eq!(t.get_mode(), Vec::<u8>::new());
    assert_eq!(t.read_data(), "");
    assert_eq!(t.path, "");
    assert!(t.children.is_empty());
    let f = FileNode::new("a.txt".to_string(), 9, 10);
    assert_eq!((f.get_id(), f.get_pid(), f.get_name()), (10, 9, "a.txt"));
    assert!(!f.is_a_directory());
    assert!(f.data.is_empty());
    let m = f.convert_to_model();
    assert_eq!(m.node_type, "blob");
    assert_eq!(m.git_id, "0".repeat(40));
    assert_eq!((m.pid, m.node_id), (9, 10));
    assert_eq!(t.convert_to_model().node_type, "tree");
}

#[test]
fn children_are_found_by_name() {
    let mut t = TreeNode::new("src".to_string(), 0, 1);
    assert_eq!(t.find_child("a"), None);
    t.add_child(NodeKind::File(FileNode::new("a".to_string(), 1, 2)));
    t.add_child(NodeKind::Tree(TreeNode::new("b".to_string(), 1, 3)));
    t.add_child(NodeKind::File(FileNode::new("a".to_string(), 1, 4)));
    assert_eq!(t.find_child("a"), Some(0));
    assert_eq!(t.find_child("b"), Some(1));
    assert_eq!(t.find_child("c"), None);
    assert_eq!(t.children[2].get_id(), 4);
    assert!(t.children[1].is_a_directory());
    assert_eq!(t.children[1].get_name(), "b");
}

fn item(name: &str, kind: TreeItemType, n: u8) -> TreeItem {
    TreeItem { mode: b"100644".to_vec(), item_type: kind, id: id(n), filename: name.to_string() }
}

fn decoded() -> ObjDecodedMap {
    ObjDecodedMap {
        commits: vec![Commit { tree_id: id(1) }],
        trees: vec![
            Tree {
                id: id(2),
                tree_name: "src".to_string(),
                tree_items: vec![item("lib.rs", TreeItemType::Blob, 11)],
            },
            Tree {
                id: id(1),
                tree_name: "".to_string(),
                tree_items: vec![
                    item("README", TreeItemType::Blob, 10),
                    item("src", TreeItemType::Tree, 2),
                    item("run.sh", TreeItemType::BlobExecutable, 12),
                ],
            },
        ],
        blobs: vec![
            Blob { id: id(12), data: b"#!/bin/sh\n".to_vec() },
            Blob { id: id(11), data: b"fn main() {}\n".to_vec() },
            Blob { id: id(10), data: b"read me\n".to_vec() },
        ],
    }
}

#[test]
fn commit_is_stored_as_records_in_tree_order() {
    let mut ids = Counter { next: 1 };
    let saved = build_node_tree(&decoded(), "/repo", &mut ids, 16).unwrap();
    let rows: Vec<(i64, i64, String, String, String)> = saved
        .nodes
        .iter()
        .map(|m| (m.node_id, m.pid, m.name.clone(), m.node_type.clone(), m.git_id.clone()))
        .collect();
    assert_eq!(
        rows,
        vec![
            (1, 0, "".to_string(), "tree".to_string(), hex(1)),
            (2, 1, "README".to_string(), "blob".to_string(), hex(10)),
            (3, 1, "src".to_string(), "tree".to_string(), hex(2)),
            (4, 3, "lib.rs".to_string(), "blob".to_string(), hex(11)),
            (5, 1, "run.sh".to_string(), "blob".to_string(), hex(12)),
        ]
    );
    assert!(saved.nodes.iter().all(|m| m.path == "/repo"));
    assert_eq!(saved.nodes[1].mode, b"100644".to_vec());
    let data: Vec<(i64, String, Vec<u8>)> =
        saved.nodes_data.iter().map(|d| (d.node_id, d.git_id.clone(), d.data.clone())).collect();
    assert_eq!(
        data,
        vec![
            (2, hex(10), b"read me\n".to_vec()),
            (4, hex(11), b"fn main() {}\n".to_vec()),
            (5, hex(12), b"#!/bin/sh\n".to_vec()),
        ]
    );
}

#[test]
fn what_is_missing_is_a_lookup_error() {
    let mut ids = Counter { next: 1 };
    let mut no_commit = decoded();
    no_commit.commits.clear();
    assert!(matches!(build_node_tree(&no_commit, "/", &mut ids, 16), Err(GitError::LookupError)));
    let mut no_tree = decoded();
    no_tree.trees.remove(0);
    assert!(matches!(build_node_tree(&no_tree, "/", &mut ids, 16), Err(GitError::LookupError)));
    let mut no_root = decoded();
    no_root.trees.remove(1);
    assert!(matches!(build_node_tree(&no_root, "/", &mut ids, 16), Err(GitError::LookupError)));
    let mut no_blob = decoded();
    no_blob.blobs.remove(1);
    assert!(matches!(build_node_tree(&no_blob, "/", &mut ids, 16), Err(GitError::LookupError)));
}

#[test]
fn trees_deeper_than_the_limit_are_refused() {
    let mut ids = Counter { next: 1 };
    assert!(build_node_tree(&decoded(), "/", &mut ids, 1).is_ok());
    assert!(matches!(
        build_node_tree(&decoded(), "/", &mut ids, 0),
        Err(GitError::LimitExceeded)
    ));
    // a tree that holds itself never ends
    let mut looped = decoded();
    looped.trees[0].tree_items.push(item("again", TreeItemType::Tree, 2));
    assert!(matches!(
        build_node_tree(&looped, "/", &mut ids, 64),
        Err(GitError::LimitExceeded)
    ));
}

#[test]
fn children_are_put_behind_those_a_node_has() {
    let map = decoded();
    let mut ids = Counter { next: 50 };
    let mut root = match init_root(&map.trees[1], "/repo", 7) {
        NodeKind::Tree(t) => t,
        NodeKind::File(_) => panic!("the root is a directory"),
    };
    assert_eq!((root.nid, root.pid), (7, 0));
    assert!(root.git_id.same(&id(1)));
    assert_eq!(root.path, "/repo");
    root.add_child(NodeKind::File(FileNode::new("kept".to_string(), 7, 8)));
    assert_eq!(build_from_root_tree(&id(2), &map.trees, &mut root, "/repo", &mut ids, 4), Ok(()));
    assert_eq!(root.children.len(), 2);
    assert_eq!(root.children[0].get_name(), "kept");
    assert_eq!(root.children[1].get_name(), "lib.rs");
    assert_eq!(root.children[1].get_id(), 50);
    let made = item("d", TreeItemType::Tree, 3).convert_to_node(7, "/p", 9);
    assert!(made.is_a_directory());
    assert_eq!((made.get_id(), made.get_name()), (9, "d"));
}

fn model(node_id: i64, pid: i64, name: &str, kind: &str, n: u8) -> NodeModel {
    NodeModel {
        pid,
        node_id,
        git_id: hex(n),
        node_type: kind.to_string(),
        name: name.to_string(),
        path: "/repo".to_string(),
        mode: b"100644".to_vec(),
    }
}

fn models() -> Vec<NodeModel> {
    vec![
        model(2, 1, "README", "blob", 10),
        model(3, 1, "src", "tree", 2),
        model(9, 8, "elsewhere", "blob", 13),
        model(4, 3, "lib.rs", "blob", 11),
        model(5, 1, "run.sh", "blob", 12),
    ]
}

#[test]
fn records_become_nodes_again() {
    let nodes = model_to_node(&models(), 1, 8).unwrap();
    assert_eq!(nodes.len(), 3);
    assert_eq!(nodes[0].get_name(), "README");
    assert!(!nodes[0].is_a_directory());
    assert_eq!(nodes[2].get_id(), 5);
    match &nodes[1] {
        NodeKind::Tree(t) => {
            assert_eq!((t.nid, t.pid), (3, 1));
            assert!(t.git_id.same(&id(2)));
            assert_eq!(t.path, "/repo");
            assert_eq!(t.children.len(), 1);
            assert_eq!(t.children[0].get_name(), "lib.rs");
            assert_eq!(t.children[0].get_id(), 4);
        }
        NodeKind::File(_) => panic!("src is a directory"),
    }
    assert!(model_to_node(&models(), 77, 8).unwrap().is_empty());
    assert!(matches!(model_to_node(&models(), 1, 0), Err(GitError::LimitExceeded)));
    let mut bad = models();
    bad[3].git_id = "not an id".to_string();
    assert!(matches!(model_to_node(&bad, 1, 8), Err(GitError::FormatError)));
    // records that are their own parent never end
    let looped = vec![model(1, 1, "loop", "tree", 1)];
    assert!(matches!(model_to_node(&looped, 1, 100), Err(GitError::LimitExceeded)));
}

#[test]
fn records_become_trees_the_deepest_first() {
    let root = model(1, 0, "", "tree", 1);
    let mut results: Vec<Tree> = vec![Tree { id: id(99), tree_name: "before".to_string(), tree_items: vec![] }];
    assert_eq!(model_to_tree(&models(), &root, &mut results, 8), Ok(()));
    assert_eq!(results.len(), 3);
    assert_eq!(results[0].tree_name, "before");
    assert_eq!(results[1].tree_name, "src");
    assert!(results[1].id.same(&id(2)));
    assert_eq!(results[1].tree_items.len(), 1);
    assert_eq!(results[1].tree_items[0].filename, "lib.rs");
    assert_eq!(results[2].tree_name, "");
    assert!(results[2].id.same(&id(1)));
    let entries: Vec<(String, bool)> = results[2]
        .tree_items
        .iter()
        .map(|i| (i.filename.clone(), i.item_type == TreeItemType::Tree))
        .collect();
    assert_eq!(
        entries,
        vec![
            ("README".to_string(), false),
            ("src".to_string(), true),
            ("run.sh".to_string(), false),
        ]
    );
    assert!(results[2].tree_items[0].id.same(&id(10)));
    let mut none: Vec<Tree> = vec![];
    assert!(matches!(model_to_tree(&models(), &root, &mut none, 0), Err(GitError::LimitExceeded)));
    let mut bad_root = model(1, 0, "", "tree", 1);
    bad_root.git_id = "zz".to_string();
    assert!(matches!(model_to_tree(&models(), &bad_root, &mut none, 8), Err(GitError::FormatError)));
}

#[test]
fn counter_gives_ids_in_order() {
    let mut ids = Counter { next: i64::MAX - 1 };
    assert_eq!(ids.generate_id(), i64::MAX - 1);
    assert_eq!(ids.generate_id(), i64::MAX);
    assert_eq!(ids.generate_id(), i64::MAX);
}
