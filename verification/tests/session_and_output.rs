use std::sync::Arc;

use minigu::catalog::graph_type::MemoryGraphTypeCatalog;
use minigu::catalog::schema::{Directory, GraphContainer, MemorySchemaCatalog, Procedure};
use minigu::common::data_type::{DataField, DataSchema, LogicalType};
use minigu::common::value::F64;
use minigu::engine::database::{Database, DatabaseConfig};
use minigu::engine::error::Error;
use minigu::engine::procedures::build_predefined_procedures;
use minigu::engine::procedures::import_graph::GraphImport;
use minigu::engine::procedures::manifest::{FileSpec, Manifest, VertexSpec};
use minigu::engine::session::{
    GraphTarget, Program, ProgramActivity, QueryStep, Session, SessionActivity, SessionResetArgs,
    SessionSet, TransactionActivity,
};
use minigu::output::{
    extract_json_value, extract_string_value, result_to_json, result_to_table_string,
    rows_to_json, schema_to_json, Chunk, Json, MetricsMs, QueryResult, Value,
};
use minigu::planner::bound::NamedGraphRef;
use minigu::transaction::TxnOptions;

fn s(text: &str) -> String {
    text.to_string()
}

fn database() -> Database {
    let none = || Procedure { parameters: vec![], schema: None };
    Database::open_in_memory(
        DatabaseConfig { num_threads: 1, txn_options: TxnOptions::default() },
        Arc::new(Directory { path: s("/") }),
        s("default"),
        build_predefined_procedures(none(), none(), none(), true),
    )
}

#[test]
fn databases_open_with_the_predefined_procedures() {
    let database = database();
    assert_eq!(database.default_schema.procedure_names().len(), 7);
    assert!(database.default_schema.get_procedure("import_graph").is_some());
    assert!(database.default_schema.graph_names().is_empty());
    assert!(database.default_schema.graph_type_names().is_empty());
    let session = database.session();
    assert_eq!(session.context.current_schema, Some(s("default")));
    assert!(session.check_open().is_ok());
}

fn session_program(set: Vec<SessionSet>, reset: Vec<Option<SessionResetArgs>>) -> Program {
    Program {
        activity: Some(ProgramActivity::Session(SessionActivity { set, reset })),
        session_close: false,
    }
}

#[test]
fn sessions_are_set_and_reset() {
    let mut session = Session::new(s("home"));
    let graph = Arc::new(NamedGraphRef {
        name: s("g"),
        object: Arc::new(GraphContainer::new(
            Arc::new(MemoryGraphTypeCatalog::new()),
            TxnOptions::default(),
        )),
    });
    let program = session_program(
        vec![
            SessionSet::Schema(Ok(s("other"))),
            SessionSet::Graph(GraphTarget::Name(Ok(graph))),
        ],
        vec![],
    );
    assert!(matches!(session.query(&program), Ok(QueryStep::Done)));
    assert_eq!(session.context.current_schema, Some(s("other")));
    assert_eq!(session.context.current_graph.as_ref().unwrap().name, "g");

    let program = session_program(
        vec![],
        vec![Some(SessionResetArgs::Schema), Some(SessionResetArgs::Graph)],
    );
    assert!(session.query(&program).is_ok());
    assert_eq!(session.context.current_schema, Some(s("home")));
    assert!(session.context.current_graph.is_none());

    let missing = session_program(vec![SessionSet::Schema(Err(s("no such schema")))], vec![]);
    assert!(matches!(session.query(&missing), Err(Error::Session(t)) if t == "no such schema"));
    let other = session_program(vec![SessionSet::Other], vec![]);
    assert!(matches!(session.query(&other), Err(Error::NotImplemented(_))));
    let odd = session_program(vec![SessionSet::Graph(GraphTarget::Other)], vec![]);
    assert!(matches!(session.query(&odd), Err(Error::NotImplemented(_))));
}

#[test]
fn imported_graphs_become_the_graph_of_the_session() {
    let manifest = Manifest {
        vertices: vec![VertexSpec::new(
            s("P"),
            FileSpec::new(s("p.csv"), s("csv")),
            vec![],
        )],
        edges: vec![],
    };
    let mut session = Session::new(s("home"));
    let mut schema = Some(MemorySchemaCatalog::new(None));
    let options = TxnOptions::default();
    let import = || GraphImport::new(&manifest).unwrap();
    session.import_graph(import(), &mut schema, "g", options).unwrap();
    let current = session.context.current_graph.as_ref().unwrap().clone();
    assert_eq!(current.name, "g");
    let object = schema.as_ref().unwrap().get_graph("g").unwrap();
    assert!(Arc::ptr_eq(&current.object, &object));
    assert!(session.import_graph(import(), &mut schema, "g", options).is_err());
    assert!(session.import_graph(import(), &mut None, "h", options).is_err());
    assert_eq!(session.context.current_graph.as_ref().unwrap().name, "g");
}

#[test]
fn transactions_and_closing() {
    let mut session = Session::new(s("home"));
    let program = |start, end, procedure, session_close| Program {
        activity: Some(ProgramActivity::Transaction(TransactionActivity {
            start,
            end,
            procedure,
        })),
        session_close,
    };
    assert!(matches!(
        session.query(&program(true, false, true, false)),
        Err(Error::NotImplemented(e)) if e.feature == "start transaction"
    ));
    assert!(matches!(
        session.query(&program(false, true, true, true)),
        Err(Error::NotImplemented(e)) if e.feature == "end transaction"
    ));
    assert!(!session.closed);
    let run = program(false, false, true, true);
    assert!(matches!(session.query(&run), Ok(QueryStep::RunProcedure)));
    assert!(!session.closed);
    session.finish_procedure(&run);
    assert!(session.closed);
    assert!(matches!(session.query(&run), Err(Error::SessionClosed)));
    assert!(matches!(session.check_open(), Err(Error::SessionClosed)));
}

fn chunk(columns: Vec<Vec<Value>>, cardinality: usize) -> Chunk {
    Chunk { cardinality, columns }
}

fn float(number: f64) -> Value {
    Value::Float { number: F64 { bits: number.to_bits() }, text: number.to_string() }
}

#[test]
fn tables_without_a_schema_are_lines() {
    let result = QueryResult {
        schema: None,
        chunks: vec![
            chunk(
                vec![
                    vec![Value::Int(-1), Value::Null],
                    vec![Value::Text(s("a")), Value::Bool(true)],
                ],
                2,
            ),
            chunk(vec![vec![Value::UInt(7)]], 1),
        ],
    };
    let null = extract_string_value(&Value::Null);
    assert_eq!(result_to_table_string(&result, "unused"), format!("-1\ta\n{}\ttrue\n7\n", null));
    let empty = QueryResult { schema: None, chunks: vec![] };
    assert_eq!(result_to_table_string(&empty, ""), "Statement OK. No results");
}

#[test]
fn tables_with_a_schema_keep_their_header() {
    let schema = DataSchema::new(vec![DataField::new(s("n"), LogicalType::Int64, false)]);
    let empty = QueryResult { schema: Some(Arc::new(schema)), chunks: vec![] };
    assert_eq!(result_to_table_string(&empty, "| n |"), "| n |\n0 rows\n");
}

#[test]
fn values_have_texts() {
    assert_eq!(extract_string_value(&float(0.25)), "0.25");
    assert_eq!(extract_string_value(&Value::UInt(u64::MAX)), "18446744073709551615");
    let other = Value::Other { data: s("data"), column: s("column") };
    assert_eq!(extract_string_value(&other), "data");
    assert!(matches!(extract_json_value(&other), Json::Text(t) if t == "column"));
}

#[test]
fn rows_become_json() {
    let result = QueryResult {
        schema: None,
        chunks: vec![chunk(
            vec![
                vec![Value::Int(4), Value::Bool(false)],
                vec![float(1.5), float(f64::NAN)],
            ],
            2,
        )],
    };
    let rows = rows_to_json(&result);
    assert_eq!(rows.len(), 2);
    let Json::Array(first) = &rows[0] else { panic!("a row") };
    assert!(matches!(first[0], Json::Int(4)));
    assert!(matches!(first[1], Json::Float(x) if f64::from_bits(x.bits) == 1.5));
    let Json::Array(second) = &rows[1] else { panic!("a row") };
    assert!(matches!(second[0], Json::Bool(false)));
    assert!(matches!(second[1], Json::Null));

    let nested = Value::Struct {
        fields: vec![(s("_vid"), Value::UInt(3)), (s("age"), Value::Null)],
        text: s("{}"),
    };
    let Json::Object(members) = extract_json_value(&nested) else { panic!("an object") };
    assert_eq!(members[0].0, "_vid");
    assert!(matches!(members[0].1, Json::UInt(3)));
    assert!(matches!(members[1].1, Json::Null));
}

#[test]
fn results_become_json() {
    let schema = Some(Arc::new(DataSchema::new(vec![DataField::new(
        s("n"),
        LogicalType::Int64,
        true,
    )])));
    let Json::Array(fields) = schema_to_json(&schema, &vec![s("int64")]) else { panic!("fields") };
    let Json::Object(members) = &fields[0] else { panic!("a field") };
    assert!(matches!(&members[0], (name, Json::Text(t)) if name == "name" && t == "n"));
    assert!(matches!(&members[1], (name, Json::Text(t)) if name == "type" && t == "int64"));
    assert!(matches!(&members[2], (name, Json::Bool(true)) if name == "nullable"));
    assert!(matches!(schema_to_json(&None, &vec![]), Json::Null));

    let ms = |x: f64| F64 { bits: x.to_bits() };
    let metrics = MetricsMs {
        parsing: ms(1.0),
        planning: ms(2.0),
        compiling: ms(3.0),
        execution: ms(4.0),
        total: ms(10.0),
    };
    let result = QueryResult { schema, chunks: vec![] };
    let Json::Object(members) = result_to_json(&result, &vec![s("int64")], metrics) else {
        panic!("an object");
    };
    let names: Vec<&str> = members.iter().map(|(name, _)| name.as_str()).collect();
    assert_eq!(names, vec!["schema", "rows", "metrics_ms"]);
    assert!(matches!(&members[1].1, Json::Array(rows) if rows.is_empty()));
}
