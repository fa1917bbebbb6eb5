use gen3d_ai::parse::articulation::{sanitize_articulation_nodes, ArticulationNode};

fn node(id: &str, parent: Option<&str>, parts: &[usize]) -> ArticulationNode {
    ArticulationNode {
        node_id: id.to_string(),
        parent_node_id: parent.map(|p| p.to_string()),
        bind_part_indices: parts.to_vec(),
    }
}

#[test]
fn sanitizes_a_valid_tree() {
    let mut nodes = vec![
        node(" jaw ", Some(" head "), &[3, 1, 3]),
        node("head", Some("  "), &[0]),
        node("tail", None, &[2]),
    ];
    assert_eq!(sanitize_articulation_nodes(&mut nodes, 4), Ok(()));
    assert_eq!(nodes[0], node("jaw", Some("head"), &[1, 3]));
    assert_eq!(nodes[1], node("head", None, &[0]));
    assert_eq!(nodes[2], node("tail", None, &[2]));
}

#[test]
fn reports_the_first_failing_node() {
    let mut missing = vec![node("a", None, &[0]), node("  ", None, &[1])];
    assert_eq!(
        sanitize_articulation_nodes(&mut missing, 2),
        Err("AI draft articulation_nodes[1] is missing required `node_id`.".to_string())
    );
    let mut own = vec![node("a", Some(" a"), &[0])];
    assert_eq!(
        sanitize_articulation_nodes(&mut own, 1),
        Err("AI draft articulation node `a` cannot parent itself.".to_string())
    );
    let mut none = vec![node("a", None, &[])];
    assert_eq!(
        sanitize_articulation_nodes(&mut none, 1),
        Err("AI draft articulation node `a` must bind at least one part index.".to_string())
    );
    let mut range = vec![node("a", None, &[9, 5])];
    assert_eq!(
        sanitize_articulation_nodes(&mut range, 5),
        Err("AI draft articulation node `a` references out-of-range bind_part_indices entry 5 (parts_total=5).".to_string())
    );
    let mut reused = vec![node("a", None, &[1]), node("b", None, &[0, 1])];
    assert_eq!(
        sanitize_articulation_nodes(&mut reused, 3),
        Err("AI draft articulation node `b` reuses part index 1 that is already bound by another articulation node.".to_string())
    );
    let mut dup = vec![node("a", None, &[0]), node(" a ", None, &[1])];
    assert_eq!(
        sanitize_articulation_nodes(&mut dup, 2),
        Err("AI draft articulation_nodes contains duplicate node_id `a`.".to_string())
    );
}

#[test]
fn reports_broken_parent_chains() {
    let mut missing = vec![node("a", Some("b"), &[0]), node("b", Some("ghost"), &[1])];
    assert_eq!(
        sanitize_articulation_nodes(&mut missing, 2),
        Err("AI draft articulation node `b` references missing parent_node_id `ghost`.".to_string())
    );
    let mut cycle = vec![node("r", None, &[0]), node("a", Some("b"), &[1]), node("b", Some("a"), &[2])];
    assert_eq!(
        sanitize_articulation_nodes(&mut cycle, 3),
        Err("AI draft articulation_nodes contains a parent cycle involving `a`.".to_string())
    );
}

#[test]
fn sanitized_nodes_pass_again_unchanged() {
    let mut nodes = vec![node(" b ", Some("a"), &[2, 0]), node("a", None, &[1])];
    assert!(sanitize_articulation_nodes(&mut nodes, 3).is_ok());
    let once = nodes.clone();
    assert!(sanitize_articulation_nodes(&mut nodes, 3).is_ok());
    assert_eq!(nodes, once);
}
