//! The list of the procedures that every database has.

use vstd::prelude::*;
use crate::catalog::schema::Procedure;
use crate::common::data_type::LogicalType;
use crate::engine::procedures::{
    create_test_graph, create_test_graph_data, export_graph, import_graph,
};

verus! {

/// A procedure that takes arguments of types and gives no columns.
pub open spec fn takes(procedure: Procedure, parameters: Seq<LogicalType>) -> bool {
    procedure.parameters@ == parameters && procedure.schema is None
}

/// The names of the procedures, in order: those that work on files come last, where there are
/// files.
pub open spec fn predefined_names(file_procedures: bool) -> Seq<Seq<char>> {
    let names = seq![
        "echo"@,
        "show_procedures"@,
        "create_test_graph"@,
        "create_test_graph_data"@,
        "show_graph"@,
    ];
    if file_procedures {
        names + seq!["import_graph"@, "export_graph"@]
    } else {
        names
    }
}

/// No two procedures have the same name.
pub proof fn predefined_names_differ(file_procedures: bool, i: int, j: int)
    requires
        0 <= i < j < predefined_names(file_procedures).len(),
    ensures
        predefined_names(file_procedures)[i] != predefined_names(file_procedures)[j],
{
    reveal_strlit("echo");
    reveal_strlit("show_procedures");
    reveal_strlit("create_test_graph");
    reveal_strlit("create_test_graph_data");
    reveal_strlit("show_graph");
    reveal_strlit("import_graph");
    reveal_strlit("export_graph");
    let names = predefined_names(file_procedures);
    assert(names[0].len() == 4);
    assert(names[1].len() == 15);
    assert(names[2].len() == 17);
    assert(names[3].len() == 22);
    assert(names[4].len() == 10);
    if file_procedures {
        assert(names[5] == "import_graph"@);
        assert(names[6] == "export_graph"@);
        assert(names[5].len() == 12 && names[5][0] == 'i');
        assert(names[6].len() == 12 && names[6][0] == 'e');
    }
}

/// The procedures that every database has: those that are given, those that create graphs and, where
/// there are files, those that import and export graphs.
pub fn build_predefined_procedures(
    echo: Procedure,
    show_procedures: Procedure,
    show_graph: Procedure,
    file_procedures: bool,
) -> (r: Vec<(String, Procedure)>)
    ensures
        r@.map_values(|p: (String, Procedure)| p.0@) == predefined_names(file_procedures),
        r@.len() == predefined_names(file_procedures).len(),
        r@[0].1 == echo,
        r@[1].1 == show_procedures,
        takes(r@[2].1, seq![LogicalType::String]),
        takes(r@[3].1, seq![LogicalType::String, LogicalType::Int8]),
        r@[4].1 == show_graph,
        file_procedures ==> takes(r@[5].1, seq![LogicalType::String, LogicalType::String]),
        file_procedures ==> takes(
            r@[6].1,
            seq![LogicalType::String, LogicalType::String, LogicalType::String],
        ),
{
    let mut procedures: Vec<(String, Procedure)> = Vec::new();
    procedures.push(("echo".to_owned(), echo));
    procedures.push(("show_procedures".to_owned(), show_procedures));
    procedures.push(("create_test_graph".to_owned(), create_test_graph::build_procedure()));
    procedures.push(
        ("create_test_graph_data".to_owned(), create_test_graph_data::build_procedure()),
    );
    procedures.push(("show_graph".to_owned(), show_graph));
    if file_procedures {
        procedures.push(("import_graph".to_owned(), import_graph::build_procedure()));
        procedures.push(("export_graph".to_owned(), export_graph::build_procedure()));
    }
    assert(procedures@.map_values(|p: (String, Procedure)| p.0@) =~= predefined_names(
        file_procedures,
    ));
    procedures
}

} // verus!
