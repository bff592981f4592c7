use simple_pagerank::Pagerank;

fn fixture() -> Pagerank<&'static str> {
    let mut pr = Pagerank::<&str>::new();
    pr.add_edge("foo", "bar");
    pr.add_edge("bar", "foo");
    pr.add_edge("xxx", "bar");
    pr.add_edge("yyy", "xxx");
    pr
}

#[test]
fn test_two_nodes_are_created() {
    let mut pr = Pagerank::<&str>::new();
    pr.add_edge("foo", "bar");
    assert_eq!(2, pr.len())
}

#[test]
fn test_edges() {
    let mut pr = Pagerank::<&str>::new();
    pr.add_edge("foo", "bar");
    assert_eq!(0, pr.get_or_create_node("foo"));
    assert_eq!(1, pr.get_or_create_node("bar"));

    assert_eq!(Some(0), pr.get_in_edges("foo"));
    assert_eq!(Some(1), pr.get_out_edges("foo"));
    assert_eq!(Some(1), pr.get_in_edges("bar"));
    assert_eq!(Some(0), pr.get_out_edges("bar"));
}

#[test]
fn new_graph_is_empty() {
    let pr = Pagerank::<&str>::new();
    assert!(pr.is_empty());
    assert_eq!(0, pr.len());
    assert_eq!(0, pr.len_node());
    assert_eq!(85, pr.damping_factor());
}

#[test]
fn default_graph_is_empty() {
    let pr: Pagerank<String> = Default::default();
    assert!(pr.is_empty());
    assert_eq!(0, pr.len_node());
    assert_eq!(85, pr.damping_factor());
}

#[test]
fn edge_count_is_number_of_calls_and_size_is_distinct_ids() {
    let mut pr = Pagerank::<&str>::new();
    let edges = [("a", "b"), ("a", "b"), ("b", "b"), ("c", "a"), ("b", "a")];
    for (s, t) in edges.iter() {
        pr.add_edge(*s, *t);
    }
    assert_eq!(5, pr.len_node());
    assert_eq!(3, pr.len());
    assert!(!pr.is_empty());
}

#[test]
fn degrees_count_sources_and_targets() {
    let mut pr = Pagerank::<&str>::new();
    let edges = [("a", "b"), ("a", "b"), ("b", "b"), ("c", "a"), ("b", "a")];
    for (s, t) in edges.iter() {
        pr.add_edge(*s, *t);
    }
    assert_eq!(Some(2), pr.get_out_edges("a"));
    assert_eq!(Some(2), pr.get_in_edges("a"));
    assert_eq!(Some(2), pr.get_out_edges("b"));
    assert_eq!(Some(3), pr.get_in_edges("b"));
    assert_eq!(Some(1), pr.get_out_edges("c"));
    assert_eq!(Some(0), pr.get_in_edges("c"));
}

#[test]
fn lookups_of_unknown_ids_do_not_intern() {
    let pr = fixture();
    assert_eq!(None, pr.get_in_edges("nope"));
    assert_eq!(None, pr.get_out_edges("nope"));
    assert_eq!(4, pr.len());
}

#[test]
fn interning_gives_dense_indices_in_order_of_first_use() {
    let mut pr = fixture();
    assert_eq!(0, pr.get_or_create_node("foo"));
    assert_eq!(1, pr.get_or_create_node("bar"));
    assert_eq!(2, pr.get_or_create_node("xxx"));
    assert_eq!(3, pr.get_or_create_node("yyy"));
    assert_eq!(4, pr.len());
    assert_eq!(4, pr.get_or_create_node("new"));
    assert_eq!(5, pr.len());
    assert_eq!(4, pr.len_node());
    assert_eq!(Some(0), pr.get_in_edges("new"));
    assert_eq!(Some(0), pr.get_out_edges("new"));
}

#[test]
fn adjacency_by_index() {
    let pr = fixture();
    assert_eq!(&vec![1usize], pr.incoming(0));
    assert_eq!(&vec![0usize, 2], pr.incoming(1));
    assert_eq!(&vec![3usize], pr.incoming(2));
    assert!(pr.incoming(3).is_empty());
    assert_eq!(1, pr.out_degree(0));
    assert_eq!(1, pr.out_degree(3));
    assert_eq!("xxx", *pr.identifier(2));
    assert_eq!("yyy", *pr.identifier(3));
}

#[test]
fn self_loop_is_an_ordinary_edge() {
    let mut pr = Pagerank::<&str>::new();
    pr.add_edge("a", "a");
    assert_eq!(1, pr.len());
    assert_eq!(1, pr.len_node());
    assert_eq!(Some(1), pr.get_in_edges("a"));
    assert_eq!(Some(1), pr.get_out_edges("a"));
    assert_eq!(&vec![0usize], pr.incoming(0));
}

#[test]
fn nodes_with_in_edges_is_counted_and_kept_current() {
    let mut pr = fixture();
    assert_eq!(3, pr.len_nodes_with_in_edges());
    assert_eq!(3, pr.len_nodes_with_in_edges());
    pr.add_edge("foo", "yyy");
    assert_eq!(4, pr.len_nodes_with_in_edges());
    pr.add_edge("zzz", "foo");
    assert_eq!(4, pr.len_nodes_with_in_edges());
    assert_eq!(5, pr.len());
}

#[test]
fn no_edges_means_no_nodes_with_in_edges() {
    let mut pr = Pagerank::<&str>::new();
    assert_eq!(0, pr.len_nodes_with_in_edges());
    pr.get_or_create_node("lonely");
    assert_eq!(0, pr.len_nodes_with_in_edges());
}

#[test]
fn damping_of_100_or_more_is_rejected() {
    let mut pr = fixture();
    assert!(pr.set_damping_factor(100).is_err());
    assert_eq!(85, pr.damping_factor());
    assert!(pr.set_damping_factor(255).is_err());
    assert_eq!(85, pr.damping_factor());
}

#[test]
fn damping_below_100_is_accepted() {
    let mut pr = fixture();
    assert_eq!(Ok(()), pr.set_damping_factor(99));
    assert_eq!(99, pr.damping_factor());
    assert_eq!(Ok(()), pr.set_damping_factor(0));
    assert_eq!(0, pr.damping_factor());
    assert_eq!(4, pr.len_node());
}

#[test]
fn find_node_looks_up_without_interning() {
    let pr = fixture();
    assert_eq!(Some(1), pr.find_node(&"bar"));
    assert_eq!(Some(3), pr.find_node(&"yyy"));
    assert_eq!(None, pr.find_node(&"nope"));
    assert_eq!(4, pr.len());
}
