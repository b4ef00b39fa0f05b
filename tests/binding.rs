use pql::aggregation::AstNode;
use pql::error::PqlError;
use pql::names::NameMap;
use pql::number::Rational;
use pql::process::{Column, FixedColumn, NumberColumn, ProcessStatement, StringColumn};
use pql::resolve::{collect_query, replace_tables, ProcessMap, SplitMap};
use pql::split::SplitStatement;

fn maps() -> (SplitMap, ProcessMap) {
    let mut s = NameMap::new();
    s.insert(
        String::from("chunks1"),
        SplitStatement {
            camera_name: String::from("cam1"),
            start_time: 5,
            end_time: 10,
            chunk_length_ms: 10500,
            output_name: String::from("chunks1"),
        },
    );
    let mut p = NameMap::new();
    p.insert(
        String::from("table1"),
        ProcessStatement {
            input_name: String::from("chunks1"),
            model_name: String::from("yolov3"),
            chunk_timeout_ms: 1000,
            maxrow: 10,
            schema: vec![
                Column::String(StringColumn { name: String::from("plate"), default: String::from("null") }),
                Column::Number(NumberColumn { name: String::from("speed"), default: Rational::new(3, 4) }),
            ],
            output_table_name: String::from("table1"),
        },
    );
    p.insert(
        String::from("orphan"),
        ProcessStatement {
            input_name: String::from("nowhere"),
            model_name: String::from("yolov3"),
            chunk_timeout_ms: 1000,
            maxrow: 1,
            schema: vec![],
            output_table_name: String::from("orphan"),
        },
    );
    (s, p)
}

fn select_from(from: AstNode) -> AstNode {
    AstNode::Select { exprs: vec![AstNode::Column(String::from("x"))], from: Box::new(from), qualifiers: vec![] }
}

fn names(ns: &[&str]) -> AstNode {
    AstNode::TableNames(ns.iter().map(|n| n.to_string()).collect())
}

#[test]
fn binding_appends_chunk_column() {
    let (s, p) = maps();
    let bound = replace_tables(&s, &p, select_from(names(&["table1"]))).unwrap();
    let AstNode::Select { exprs, from, qualifiers } = bound else { panic!("not a select") };
    assert_eq!(exprs, vec![AstNode::Column(String::from("x"))]);
    assert!(qualifiers.is_empty());
    let AstNode::Tables(tables) = *from else { panic!("not bound") };
    assert_eq!(tables.len(), 1);
    let AstNode::Table(ss, ps) = &tables[0] else { panic!("not a table") };
    assert_eq!(ss.camera_name, "cam1");
    assert_eq!(ps.output_table_name, "table1");
    assert_eq!(ps.schema.len(), 3);
    assert_eq!(
        ps.schema[2],
        Column::Fixed(FixedColumn { name: String::from("chunk"), range: (5, 10) })
    );
}

#[test]
fn binding_goes_through_combinations() {
    let (s, p) = maps();
    let q = AstNode::Union {
        tables: vec![names(&["table1"]), select_from(names(&["table1"]))],
        on: Box::new(AstNode::Column(String::from("plate"))),
    };
    let bound = replace_tables(&s, &p, q).unwrap();
    let AstNode::Union { tables, on } = bound else { panic!("not a union") };
    assert_eq!(*on, AstNode::Column(String::from("plate")));
    assert!(matches!(&tables[0], AstNode::Tables(t) if t.len() == 1));
    assert!(matches!(&tables[1], AstNode::Select { from, .. } if matches!(**from, AstNode::Tables(_))));
}

#[test]
fn unknown_table_fails() {
    let (s, p) = maps();
    let q = select_from(AstNode::Intersect {
        tables: vec![names(&["table1"]), names(&["missing"])],
        on: Box::new(AstNode::Column(String::from("plate"))),
    });
    assert_eq!(replace_tables(&s, &p, q), Err(PqlError::UnknownTable(String::from("missing"))));
}

#[test]
fn unknown_chunk_set_fails() {
    let (s, p) = maps();
    let q = select_from(names(&["orphan"]));
    assert_eq!(replace_tables(&s, &p, q), Err(PqlError::UnknownChunkSet(String::from("nowhere"))));
}

#[test]
fn other_nodes_are_left_alone() {
    let (s, p) = maps();
    assert_eq!(replace_tables(&s, &p, AstNode::Limit { rows: 3 }), Ok(AstNode::Limit { rows: 3 }));
}

#[test]
fn name_map_overrides_and_looks_up() {
    let mut m: NameMap<u64> = NameMap::new();
    m.insert(String::from("a"), 1);
    m.insert(String::from("b"), 2);
    m.insert(String::from("a"), 3);
    assert_eq!(m.len(), 2);
    assert_eq!(m.get("a"), Some(&3));
    assert_eq!(m.get("b"), Some(&2));
    assert_eq!(m.get("c"), None);
    let mut n: NameMap<u64> = NameMap::new();
    n.insert(String::from("b"), 5);
    n.insert(String::from("c"), 6);
    m.extend(n);
    assert_eq!(m.len(), 3);
    assert_eq!(m.get("b"), Some(&5));
    assert_eq!(m.get("c"), Some(&6));
    assert_eq!(m.entry(0), (&String::from("a"), &3));
}

#[test]
fn collect_query_maps_and_binds() {
    let split = |name: &str, begin: u64| SplitStatement {
        camera_name: String::from("cam1"),
        start_time: begin,
        end_time: 10,
        chunk_length_ms: 1000,
        output_name: name.to_string(),
    };
    let process = ProcessStatement {
        input_name: String::from("chunks1"),
        model_name: String::from("m"),
        chunk_timeout_ms: 1000,
        maxrow: 1,
        schema: vec![],
        output_table_name: String::from("table1"),
    };
    // The later statement for `chunks1` replaces the earlier one.
    let (s, p, bound) = collect_query(
        vec![split("chunks1", 0), split("chunks1", 4)],
        vec![process],
        vec![select_from(names(&["table1"]))],
    )
    .unwrap();
    assert_eq!(s.len(), 1);
    assert_eq!(s.get("chunks1").unwrap().start_time, 4);
    assert_eq!(p.len(), 1);
    let AstNode::Select { from, .. } = &bound[0] else { panic!("not a select") };
    let AstNode::Tables(t) = &**from else { panic!("not bound") };
    let AstNode::Table(ss, _) = &t[0] else { panic!("not a table") };
    assert_eq!(ss.start_time, 4);
    let err = collect_query(vec![], vec![], vec![select_from(names(&["table1"]))]);
    assert_eq!(err.unwrap_err(), PqlError::UnknownTable(String::from("table1")));
}
