//! Graph-description text.

use prodplan::dot::{
    fmt_fixed1, fmt_fixed2, to_dot_color, to_dot_edge, to_dot_node, u64_dec, write_graph,
    write_graph_with_clusters,
};
use prodplan::graph::{Color, Edge, Node};
use prodplan::rat::Ratio;

#[test]
fn decimal_numerals() {
    assert_eq!(u64_dec(0), "0");
    assert_eq!(u64_dec(7), "7");
    assert_eq!(u64_dec(105), "105");
    assert_eq!(u64_dec(18446744073709551615), "18446744073709551615");
}

#[test]
fn fixed_point_rounds_to_nearest() {
    // 30/11 = 2.7272... rounds to 2.73 and 2.7.
    let x = Ratio::new(30, 11).unwrap();
    assert_eq!(fmt_fixed2(&x), "2.73");
    assert_eq!(fmt_fixed1(&x), "2.7");
    // 1/8 = 0.125: the tie rounds up to 0.13; one place gives 0.1.
    let y = Ratio::new(1, 8).unwrap();
    assert_eq!(fmt_fixed2(&y), "0.13");
    assert_eq!(fmt_fixed1(&y), "0.1");
    // Whole numbers keep their zero places.
    let z = Ratio::new(2, 1).unwrap();
    assert_eq!(fmt_fixed2(&z), "2.00");
    assert_eq!(fmt_fixed1(&z), "2.0");
    // A small fraction pads its leading zero.
    let w = Ratio::new(1, 20).unwrap();
    assert_eq!(fmt_fixed2(&w), "0.05");
}

#[test]
fn dot_color_keywords() {
    assert_eq!(to_dot_color(&Color::Green), "darkgreen");
    assert_eq!(to_dot_color(&Color::Yellow), "orange");
    assert_eq!(to_dot_color(&Color::Red), "red");
    assert_eq!(to_dot_color(&Color::Blue), "blue");
    assert_eq!(to_dot_color(&Color::Black), "black");
}

#[test]
fn node_line_text() {
    let n = Node::new(
        "gear",
        "Iron Gear",
        Ratio::new(1, 1).unwrap(),
        Ratio::new(2, 3).unwrap(),
        "Blue Assembler (..)".to_string(),
        Color::Blue,
    );
    assert_eq!(
        to_dot_node(&n),
        "gear [label=\"Iron Gear\\n1.00/s\\n0.67 Blue Assembler (..)\",color=\"blue\",URL=\"./gear.dot.svg\"];"
    );
}

#[test]
fn edge_line_text() {
    let e = Edge::new(
        "plate",
        "gear",
        Ratio::new(2, 1).unwrap(),
        Ratio::new(16, 5).unwrap(),
        Color::Red,
    );
    assert_eq!(
        to_dot_edge(&e),
        "plate -> gear [label=\"2.0 plate/s (3.2)\",color=\"red\"];"
    );
}

#[test]
fn clustered_graph_text() {
    let mk = |id: &str| {
        Node::new(
            id,
            id,
            Ratio::new(1, 1).unwrap(),
            Ratio::new(1, 1).unwrap(),
            "Rocket Silo".to_string(),
            Color::Black,
        )
    };
    let nodes = vec![mk("a"), mk("b")];
    let edges: Vec<Edge> = Vec::new();
    let clusters = vec![("base".to_string(), vec!["b".to_string(), "ghost".to_string()])];
    let text = write_graph_with_clusters(&nodes, &edges, &clusters);
    let a_line = "a [label=\"a\\n1.00/s\\n1.00 Rocket Silo\",color=\"black\",URL=\"./a.dot.svg\"];";
    let b_line = "b [label=\"b\\n1.00/s\\n1.00 Rocket Silo\",color=\"black\",URL=\"./b.dot.svg\"];";
    let expected = format!(
        "digraph G {{\nsubgraph cluster_base {{\n  color=\"white\"\n{}\n}}\n{}\n}}",
        b_line, a_line
    );
    assert_eq!(text, expected);
}

#[test]
fn whole_graph_text() {
    let nodes = vec![Node::new(
        "a",
        "A",
        Ratio::new(1, 1).unwrap(),
        Ratio::new(1, 1).unwrap(),
        "Stone Furnace".to_string(),
        Color::Red,
    )];
    let edges: Vec<Edge> = Vec::new();
    let text = write_graph(&nodes, &edges);
    assert_eq!(
        text,
        "digraph G {\na [label=\"A\\n1.00/s\\n1.00 Stone Furnace\",color=\"red\",URL=\"./a.dot.svg\"];\n}"
    );
}
