use force_layout::graph::Edge;
use force_layout::loader::{parse_lines, LoadError};

fn lines(text: &[&str]) -> Vec<String> {
    text.iter().map(|s| s.to_string()).collect()
}

#[test]
fn three_vertices_and_two_edges() {
    let g = match parse_lines(&lines(&["3", "A", "B", "C", "A B", "B C"])) {
        Ok(g) => g,
        Err(e) => panic!("{:?}", e),
    };
    assert_eq!(g.vertex_count(), 3);
    assert_eq!(g.label(0), "A");
    assert_eq!(g.label(1), "B");
    assert_eq!(g.label(2), "C");
    assert_eq!(g.edge_count(), 2);
    assert_eq!(g.edge(0), Edge { source: 0, target: 1 });
    assert_eq!(g.edge(1), Edge { source: 1, target: 2 });
}

#[test]
fn vertices_without_edges() {
    let g = match parse_lines(&lines(&["2", "left", "right"])) {
        Ok(g) => g,
        Err(e) => panic!("{:?}", e),
    };
    assert_eq!(g.vertex_count(), 2);
    assert_eq!(g.edge_count(), 0);
}

#[test]
fn white_space_around_lines_is_dropped() {
    let g = match parse_lines(&lines(&[" \t3 ", "  A", "B  ", "\tC\r", "  A B\t", "C A "])) {
        Ok(g) => g,
        Err(e) => panic!("{:?}", e),
    };
    assert_eq!(g.vertex_count(), 3);
    assert_eq!(g.label(0), "A");
    assert_eq!(g.label(1), "B");
    assert_eq!(g.label(2), "C");
    assert_eq!(g.edge(0), Edge { source: 0, target: 1 });
    assert_eq!(g.edge(1), Edge { source: 2, target: 0 });
}

#[test]
fn a_signed_count_is_read() {
    let g = match parse_lines(&lines(&["+1", "A", "A A"])) {
        Ok(g) => g,
        Err(e) => panic!("{:?}", e),
    };
    assert_eq!(g.vertex_count(), 1);
    assert_eq!(g.edge(0), Edge { source: 0, target: 0 });
}

#[test]
fn a_repeated_label_stands_for_its_first_vertex() {
    let g = match parse_lines(&lines(&["3", "A", "B", "A", "A B", "B A"])) {
        Ok(g) => g,
        Err(e) => panic!("{:?}", e),
    };
    assert_eq!(g.edge(0), Edge { source: 0, target: 1 });
    assert_eq!(g.edge(1), Edge { source: 1, target: 0 });
    assert_eq!(g.find("A"), Some(0));
}

#[test]
fn the_second_name_runs_to_the_end_of_the_line() {
    let g = match parse_lines(&lines(&["2", "A", "B C", "A B C"])) {
        Ok(g) => g,
        Err(e) => panic!("{:?}", e),
    };
    assert_eq!(g.label(1), "B C");
    assert_eq!(g.edge(0), Edge { source: 0, target: 1 });
    assert_eq!(
        parse_lines(&lines(&["2", "A", "B C", "B C A"])).err(),
        Some(LoadError::UnknownVertex { line: 3 })
    );
}

#[test]
fn two_spaces_leave_one_in_the_second_name() {
    assert_eq!(
        parse_lines(&lines(&["2", "A", "B", "A  B"])).err(),
        Some(LoadError::UnknownVertex { line: 3 })
    );
}

#[test]
fn no_lines_at_all() {
    assert_eq!(parse_lines(&Vec::new()).err(), Some(LoadError::Empty));
}

#[test]
fn a_first_line_that_is_no_count() {
    assert_eq!(parse_lines(&lines(&[""])).err(), Some(LoadError::BadCount));
    assert_eq!(parse_lines(&lines(&["A", "B"])).err(), Some(LoadError::BadCount));
    assert_eq!(parse_lines(&lines(&["-1", "A"])).err(), Some(LoadError::BadCount));
    assert_eq!(parse_lines(&lines(&["2 3", "A", "B"])).err(), Some(LoadError::BadCount));
    assert_eq!(parse_lines(&lines(&["1.0", "A"])).err(), Some(LoadError::BadCount));
    assert_eq!(
        parse_lines(&lines(&["340282366920938463463374607431768211456", "A"])).err(),
        Some(LoadError::BadCount)
    );
}

#[test]
fn a_count_of_zero() {
    assert_eq!(parse_lines(&lines(&["0"])).err(), Some(LoadError::NoVertices));
    assert_eq!(parse_lines(&lines(&["0", "A B"])).err(), Some(LoadError::NoVertices));
    assert_eq!(parse_lines(&lines(&[" +0 "])).err(), Some(LoadError::NoVertices));
}

#[test]
fn fewer_labels_than_announced() {
    assert_eq!(parse_lines(&lines(&["1"])).err(), Some(LoadError::MissingVertex));
    assert_eq!(parse_lines(&lines(&["3", "A", "B"])).err(), Some(LoadError::MissingVertex));
    let most = usize::MAX.to_string();
    assert_eq!(parse_lines(&lines(&[most.as_str(), "A"])).err(), Some(LoadError::MissingVertex));
}

#[test]
fn an_edge_line_without_a_space() {
    assert_eq!(
        parse_lines(&lines(&["2", "A", "B", "A B", "AB"])).err(),
        Some(LoadError::MalformedEdge { line: 4 })
    );
    assert_eq!(
        parse_lines(&lines(&["2", "A", "B", ""])).err(),
        Some(LoadError::MalformedEdge { line: 3 })
    );
    assert_eq!(
        parse_lines(&lines(&["2", "A", "B", "  A  "])).err(),
        Some(LoadError::MalformedEdge { line: 3 })
    );
    assert_eq!(
        parse_lines(&lines(&["2", "A", "B", "A\tB"])).err(),
        Some(LoadError::MalformedEdge { line: 3 })
    );
}

#[test]
fn an_edge_that_names_no_vertex() {
    assert_eq!(
        parse_lines(&lines(&["2", "A", "B", "A B", "A C", "D A"])).err(),
        Some(LoadError::UnknownVertex { line: 4 })
    );
    assert_eq!(
        parse_lines(&lines(&["2", "A", "B", "C A"])).err(),
        Some(LoadError::UnknownVertex { line: 3 })
    );
    assert_eq!(
        parse_lines(&lines(&["2", "A", "B", "a b"])).err(),
        Some(LoadError::UnknownVertex { line: 3 })
    );
}

#[test]
fn a_line_without_two_names_is_reported_before_an_unknown_name() {
    assert_eq!(
        parse_lines(&lines(&["2", "A", "B", "A C", "AB"])).err(),
        Some(LoadError::MalformedEdge { line: 4 })
    );
}

#[test]
fn a_loaded_graph_has_the_announced_shape() {
    let text = lines(&["4", "a", "b", "c", "d", "a b", "b c", "c d", "d a", "a c"]);
    let g = match parse_lines(&text) {
        Ok(g) => g,
        Err(e) => panic!("{:?}", e),
    };
    assert_eq!(g.vertex_count(), 4);
    assert_eq!(g.vertex_count() + g.edge_count() + 1, text.len());
    let mut i = 0;
    while i < g.edge_count() {
        let e = g.edge(i);
        assert!(e.source < 4 && e.target < 4);
        let written = format!("{} {}", g.label(e.source), g.label(e.target));
        assert_eq!(written, text[5 + i]);
        i += 1;
    }
}
