use easy_template::utils::tree::{Tree, TreeBuilder};

#[test]
fn tree_test() {
    let mut builder: TreeBuilder<&'static str> = Tree::builder();
    builder.push("asas").new_empty_child();
    let tree = builder.build();
    println!("{:?}", tree);
}

#[test]
fn builder_moves_pointer_down_and_back() {
    let mut builder: TreeBuilder<u32> = Tree::builder();
    builder.new_child(1).push(2).push(3);
    assert_eq!(builder.current_count(), 2);
    builder.end_child();
    assert_eq!(builder.current_count(), 1);
    builder.join_child(0);
    assert_eq!(builder.current_count(), 2);
    builder.remove_child(0);
    assert_eq!(builder.current_count(), 1);
    builder.set(9);
    let tree = builder.build();
    let nodes = tree.iter();
    assert_eq!(nodes.len(), 3);
    assert_eq!(nodes[0].data, None);
    assert_eq!(nodes[1].data, Some(9));
    assert_eq!(nodes[2].data, Some(3));
    assert_eq!(tree.cache.list, vec![vec![], vec![0], vec![0, 0]]);
}
