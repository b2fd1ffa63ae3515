use std::sync::Arc;

use minigu::catalog::graph_type::{
    MemoryEdgeTypeCatalog, MemoryGraphTypeCatalog, MemoryVertexTypeCatalog, Property,
};
use minigu::catalog::label_set::LabelSet;
use minigu::catalog::schema::{
    Directory, GraphContainer, GraphRef, MemorySchemaCatalog, Procedure,
};
use minigu::catalog::{CreateGraphResult, CreateKind, DropGraphResult};
use minigu::common::data_type::{DataField, DataSchema, LogicalType};
use minigu::common::name_map::NameMap;
use minigu::common::parse::{parse_integer, parse_unsigned};
use minigu::common::text::{integer_text, numbered};
use minigu::common::types::LabelId;
use minigu::transaction::TxnOptions;

fn graph() -> GraphRef {
    let graph_type = Arc::new(MemoryGraphTypeCatalog::new());
    Arc::new(GraphContainer::new(graph_type, TxnOptions::default()))
}

#[test]
fn created_graphs_are_found_until_they_are_dropped() {
    let mut schema = MemorySchemaCatalog::new(None);
    let first = graph();
    let kind = CreateKind::Create;
    assert_eq!(
        schema.create_graph("g".to_string(), first.clone(), kind),
        CreateGraphResult::Created
    );
    assert!(Arc::ptr_eq(&schema.get_graph("g").unwrap(), &first));
    assert_eq!(
        schema.create_graph("g".to_string(), graph(), kind),
        CreateGraphResult::AlreadyExists
    );
    assert_eq!(
        schema.create_graph("g".to_string(), graph(), CreateKind::CreateIfNotExists),
        CreateGraphResult::AlreadyExists
    );
    assert!(Arc::ptr_eq(&schema.get_graph("g").unwrap(), &first));
    let second = graph();
    assert_eq!(
        schema.create_graph("g".to_string(), second.clone(), CreateKind::CreateOrReplace),
        CreateGraphResult::Replaced
    );
    assert!(Arc::ptr_eq(&schema.get_graph("g").unwrap(), &second));
    assert_eq!(schema.create_or_replace_graph("h".to_string(), graph()), (false, true));
    assert_eq!(schema.graph_names(), vec!["g".to_string(), "h".to_string()]);
    assert_eq!(schema.drop_graph("g"), DropGraphResult::Dropped);
    assert_eq!(schema.drop_graph("g"), DropGraphResult::NotFound);
    assert!(schema.get_graph("g").is_none());
    assert!(schema.remove_graph("h"));
    assert!(!schema.remove_graph("h"));
}

#[test]
fn names_are_given_once() {
    let root = Arc::new(Directory { path: "/".to_string() });
    let mut schema = MemorySchemaCatalog::new(Some(root));
    assert!(schema.parent().is_some());
    assert!(schema.add_graph("g".to_string(), graph()));
    assert!(!schema.add_graph("g".to_string(), graph()));
    let ty = Arc::new(MemoryGraphTypeCatalog::new());
    assert!(schema.add_graph_type("t".to_string(), ty.clone()));
    assert!(!schema.add_graph_type("t".to_string(), ty.clone()));
    assert_eq!(schema.graph_type_names(), vec!["t".to_string()]);
    assert!(Arc::ptr_eq(&schema.get_graph_type("t").unwrap(), &ty));
    assert!(schema.get_graph_type("u").is_none());
    assert!(schema.remove_graph_type("t"));
    let procedure = Arc::new(Procedure { parameters: vec![], schema: None });
    assert!(schema.add_procedure("p".to_string(), procedure.clone()));
    assert!(!schema.add_procedure("p".to_string(), procedure));
    assert!(schema.remove_procedure("p"));
    assert!(!schema.remove_procedure("p"));
}

#[test]
fn labels_are_numbered_from_one() {
    let mut graph_type = MemoryGraphTypeCatalog::new();
    assert_eq!(graph_type.add_label("person".to_string()), LabelId::new(1));
    assert_eq!(graph_type.add_label("friend".to_string()), LabelId::new(2));
    assert_eq!(graph_type.add_label("person".to_string()), None);
    assert_eq!(graph_type.get_label_id("friend"), LabelId::new(2));
    assert_eq!(graph_type.get_label_id("city"), None);
    assert_eq!(graph_type.label_name(LabelId::new(1).unwrap()), Some("person".to_string()));

    let person = LabelSet::single(LabelId::new(1).unwrap());
    let friend = LabelSet::single(LabelId::new(2).unwrap());
    let age = Property::new("age".to_string(), LogicalType::Int32, true);
    let vertex_type = Arc::new(MemoryVertexTypeCatalog::new(person.clone(), vec![age]));
    assert!(graph_type.add_vertex_type(person.clone(), vertex_type.clone()));
    assert!(!graph_type.add_vertex_type(person.clone(), vertex_type.clone()));
    let edge_type = MemoryEdgeTypeCatalog::new(
        friend.clone(),
        vertex_type.clone(),
        vertex_type,
        vec![],
    );
    assert!(graph_type.add_edge_type(friend.clone(), Arc::new(edge_type)));
    assert_eq!(graph_type.get_vertex_type(&person).unwrap().properties.len(), 1);
    assert!(graph_type.get_vertex_type(&friend).is_none());
    assert!(graph_type.get_edge_type(&friend).is_some());
}

#[test]
fn label_sets_are_ordered_and_hold_each_label_once() {
    let id = |raw| LabelId::new(raw).unwrap();
    let set = LabelSet::from_ids(&vec![id(5), id(2), id(5), id(9)]);
    assert_eq!(*set.ids, vec![id(2), id(5), id(9)]);
    assert!(set.equals(&LabelSet::from_ids(&vec![id(9), id(5), id(2)])));
    assert!(!set.equals(&LabelSet::new()));
    assert!(LabelSet::new().is_empty());
}

#[test]
fn name_maps_keep_the_last_value() {
    let mut map: NameMap<u32> = NameMap::new();
    map.insert("a".to_string(), 1);
    map.insert("b".to_string(), 2);
    map.insert("a".to_string(), 3);
    assert_eq!(map.get("a"), Some(&3));
    assert!(map.contains("b"));
    assert_eq!(map.names(), vec!["a".to_string(), "b".to_string()]);
    assert!(map.remove("a"));
    assert!(!map.remove("a"));
    assert_eq!(map.get("a"), None);
}

#[test]
fn columns_are_found_by_name() {
    let schema = DataSchema::new(vec![
        DataField::new("a".to_string(), LogicalType::Int64, false),
        DataField::new("b".to_string(), LogicalType::String, true),
        DataField::new("a".to_string(), LogicalType::Int8, true),
    ]);
    assert_eq!(schema.get_field_index_by_name("a"), Some(0));
    assert_eq!(schema.get_field_index_by_name("b"), Some(1));
    assert_eq!(schema.get_field_index_by_name("c"), None);
    assert!(schema.get_field_by_name("b").unwrap().is_nullable());
    assert!(schema.get_var_label("a").is_none());
}

#[test]
fn numbers_are_written_and_read() {
    assert_eq!(integer_text(-120), "-120");
    assert_eq!(integer_text(i64::MIN), "-9223372036854775808");
    assert_eq!(integer_text(0), "0");
    assert_eq!(numbered("Edge ", 42, " not found"), "Edge 42 not found");
    assert_eq!(parse_integer("-128", -128, 127), Some(-128));
    assert_eq!(parse_integer("128", -128, 127), None);
    assert_eq!(parse_integer("+7", -128, 127), Some(7));
    assert_eq!(parse_integer("", -128, 127), None);
    assert_eq!(parse_integer("-", -128, 127), None);
    assert_eq!(parse_integer("1x", -128, 127), None);
    assert_eq!(parse_unsigned("18446744073709551615", u64::MAX), Some(u64::MAX));
    assert_eq!(parse_unsigned("18446744073709551616", u64::MAX), None);
    assert_eq!(parse_unsigned("-1", u64::MAX), None);
}
