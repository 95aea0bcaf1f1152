use link_cache::traverse::{collect_files, FsNode, FsTree};

#[test]
fn deep_tree_yields_every_file_once() {
    // Indices:         0         1         2        3           4         5
    let tree = FsTree {
        nodes: vec![
            FsNode::File(10),
            FsNode::File(11),
            FsNode::Dir(vec![1]),
            FsNode::Dir(vec![0, 2]),
            FsNode::File(12),
            FsNode::Dir(vec![3, 4]),
        ],
    };
    // Root 5 -> dir 3 -> file 10, dir 2 -> file 11; then file 12: depth 3+.
    assert_eq!(collect_files(&tree, 5), vec![10, 11, 12]);
}

#[test]
fn root_file_is_yielded_alone() {
    let tree = FsTree { nodes: vec![FsNode::File(7)] };
    assert_eq!(collect_files(&tree, 0), vec![7]);
}

#[test]
fn empty_directory_yields_nothing() {
    let tree = FsTree { nodes: vec![FsNode::Dir(vec![])] };
    assert_eq!(collect_files(&tree, 0), Vec::<u64>::new());
}

#[test]
fn empty_directories_are_descended_not_yielded() {
    let tree = FsTree {
        nodes: vec![
            FsNode::Dir(vec![]),
            FsNode::File(42),
            FsNode::Dir(vec![0, 1]),
            FsNode::Dir(vec![2]),
        ],
    };
    assert_eq!(collect_files(&tree, 3), vec![42]);
}
