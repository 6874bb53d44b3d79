use query_planner::options::Node;
use query_planner::options::TraitSet;
use query_planner::options::cartesian_product;

#[test]
fn test_generate_options() {
    let location = "Location";
    let reviews = "Reviews";

    let parent_node = Node {
        data: "test",
        children: vec![
            Node { data: "p", children: vec![], traits: TraitSet::Any(vec![reviews]) },
            Node {
                data: "r",
                children: vec![],
                traits: TraitSet::Any(vec![location, reviews]),
            },
        ],
        traits: TraitSet::Any(vec![location, reviews]),
    };

    let options = parent_node.generate_options();
    assert_eq!(options.len(), 9);
    for option in &options {
        assert!(!matches!(option.traits, TraitSet::Any(_)));
    }
}

#[test]
fn decided_node_is_its_own_option() {
    let node: Node<&str, &str> =
        Node { data: "done", children: vec![], traits: TraitSet::Only("x") };
    let options = node.generate_options();
    assert_eq!(options.len(), 1);
}

#[test]
fn cartesian_product_multiplies_pools() {
    let pools: Vec<Vec<u32>> = vec![vec![1, 2], vec![10, 20, 30]];
    let rows = cartesian_product(&pools);
    assert_eq!(rows.len(), 6);
    for row in &rows {
        assert_eq!(row.len(), 2);
    }
    assert_eq!(rows[0], vec![1, 10]);
    assert_eq!(rows[5], vec![2, 30]);
}
