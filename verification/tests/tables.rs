use asof_window::dtype::DataType;
use asof_window::error::DaftError;
use asof_window::expr::{Expr, LiteralValue, WindowExpr, WindowFrame, WindowSpec};
use asof_window::logical_ops::{LogicalPlanRef, PlanStats, StatsState, Window};
use asof_window::merge_asof::MergeAsOf;
use asof_window::micropartition::MicroPartition;
use asof_window::physical_ops::{HashAsOfJoin, PartitionedWindow, PhysicalPlanRef, RangeAsOfJoin};
use asof_window::plan::{JoinDirection, JoinStrategy, JoinType};
use asof_window::schema::{Field, Schema};
use asof_window::series::Series;
use asof_window::stats::{ColumnStats, TableStats};
use asof_window::strfmt::int_to_string;
use asof_window::table::Table;
use asof_window::utf8_fns::{ExtractAllEvaluator, FunctionExpr, LstripEvaluator, Utf8Expr};

fn cells(vals: &[i128]) -> Vec<Option<i128>> {
    vals.iter().map(|v| Some(*v)).collect()
}

fn table(cols: &[(&str, DataType, &[i128])]) -> Table {
    let series: Vec<Series> = cols
        .iter()
        .map(|(n, dt, vs)| Series::new(n.to_string(), *dt, cells(vs)))
        .collect();
    Table::from_columns(series).unwrap()
}

fn col(name: &str) -> Expr {
    Expr::Column(name.to_string())
}

fn sum_of(name: &str) -> Expr {
    Expr::WindowExpression(WindowExpr::Sum(Box::new(col(name))))
}

fn col_values(t: &Table, idx: usize) -> Vec<Option<i128>> {
    t.columns[idx].values.clone()
}

#[test]
fn cumulative_window_end_to_end() {
    let t = table(&[("part", DataType::Int64, &[1, 1, 2]), ("val", DataType::Int64, &[10, 20, 30])]);
    let spec = WindowSpec {
        partition_by: vec![col("part")],
        order_by: Vec::new(),
        descending: Vec::new(),
        frame: None,
    };
    let out = t.cumulative_window(&spec, &vec![sum_of("val")]).unwrap();
    assert_eq!(out.columns.len(), 3);
    assert_eq!(out.columns[0].name, "part");
    assert_eq!(out.columns[1].name, "val");
    // the window output column's name collides with the source column and
    // is renamed by the documented rule
    assert_eq!(out.columns[2].name, "right.val");
    assert_eq!(out.columns[2].dtype, DataType::Int64);
    assert_eq!(col_values(&out, 2), vec![Some(10), Some(30), Some(30)]);
}

#[test]
fn row_window_end_to_end() {
    let t = table(&[("part", DataType::Int64, &[1, 1, 1]), ("val", DataType::Int64, &[1, 2, 3])]);
    let spec = WindowSpec {
        partition_by: vec![col("part")],
        order_by: Vec::new(),
        descending: Vec::new(),
        frame: Some(WindowFrame {
            is_range: false,
            left_bound: Some(Expr::Literal(LiteralValue::Int64(1))),
            right_bound: Some(Expr::Literal(LiteralValue::Int64(0))),
        }),
    };
    let out = t.row_window(&spec, &vec![sum_of("val")]).unwrap();
    assert_eq!(col_values(&out, 2), vec![Some(1), Some(3), Some(5)]);
}

#[test]
fn range_window_end_to_end() {
    let t = table(&[("part", DataType::Int64, &[1, 1, 1]), ("o", DataType::Int64, &[1, 2, 4])]);
    let spec = WindowSpec {
        partition_by: vec![col("part")],
        order_by: vec![col("o")],
        descending: vec![false],
        frame: Some(WindowFrame {
            is_range: true,
            left_bound: Some(Expr::Literal(LiteralValue::Int64(1))),
            right_bound: Some(Expr::Literal(LiteralValue::Int64(0))),
        }),
    };
    let out = t.range_window(&spec, &vec![sum_of("o")]).unwrap();
    assert_eq!(col_values(&out, 2), vec![Some(1), Some(3), Some(4)]);
}

#[test]
fn partitioned_window_requires_partition_keys() {
    let t = table(&[("val", DataType::Int64, &[1])]);
    let spec = WindowSpec {
        partition_by: Vec::new(),
        order_by: Vec::new(),
        descending: Vec::new(),
        frame: None,
    };
    let r = t.partitioned_window(&spec, &vec![sum_of("val")], Vec::new());
    assert!(matches!(r, Err(DaftError::ValueError(_))));
}

#[test]
fn partitioned_window_rejects_non_window_functions() {
    let t = table(&[("part", DataType::Int64, &[1]), ("val", DataType::Int64, &[1])]);
    let spec = WindowSpec {
        partition_by: vec![col("part")],
        order_by: Vec::new(),
        descending: Vec::new(),
        frame: None,
    };
    let r = t.partitioned_window(&spec, &vec![col("val")], Vec::new());
    assert!(matches!(r, Err(DaftError::ValueError(_))));
}

#[test]
fn window_sorts_by_order_columns() {
    let t = table(&[("part", DataType::Int64, &[1, 1, 1]), ("o", DataType::Int64, &[3, 1, 2])]);
    let spec = WindowSpec {
        partition_by: vec![col("part")],
        order_by: vec![col("o")],
        descending: vec![false],
        frame: None,
    };
    let out = t.cumulative_window(&spec, &vec![sum_of("o")]).unwrap();
    // rows are emitted in sorted working order
    assert_eq!(col_values(&out, 1), vec![Some(1), Some(2), Some(3)]);
    assert_eq!(col_values(&out, 2), vec![Some(1), Some(3), Some(6)]);
}

#[test]
fn asof_join_strictly_less() {
    let left = table(&[("on", DataType::Int64, &[5]), ("x", DataType::Int64, &[100])]);
    let right = table(&[("on", DataType::Int64, &[3, 5, 7]), ("y", DataType::Int64, &[1, 2, 3])]);
    let out = left
        .hash_asof_join(&right, &vec![col("on")], &vec![col("on")], &Vec::new(), &Vec::new(), false)
        .unwrap();
    assert_eq!(out.columns.len(), 3);
    assert_eq!(out.columns[0].name, "on");
    assert_eq!(out.columns[1].name, "x");
    assert_eq!(out.columns[2].name, "y");
    assert_eq!(col_values(&out, 0), vec![Some(5)]);
    assert_eq!(col_values(&out, 2), vec![Some(1)]);
}

#[test]
fn asof_join_allows_ties() {
    let left = table(&[("on", DataType::Int64, &[5]), ("x", DataType::Int64, &[100])]);
    let right = table(&[("on", DataType::Int64, &[3, 5, 7]), ("y", DataType::Int64, &[1, 2, 3])]);
    let out = left
        .hash_asof_join(&right, &vec![col("on")], &vec![col("on")], &Vec::new(), &Vec::new(), true)
        .unwrap();
    assert_eq!(col_values(&out, 2), vec![Some(2)]);
}

#[test]
fn asof_join_with_by_columns() {
    let left = table(&[
        ("on", DataType::Int64, &[5, 5][..]),
        ("k", DataType::Int64, &[1, 2]),
    ]);
    let right = table(&[
        ("on", DataType::Int64, &[1, 2, 3][..]),
        ("k", DataType::Int64, &[1, 2, 1]),
        ("y", DataType::Int64, &[10, 20, 30]),
    ]);
    let out = left
        .hash_asof_join(
            &right,
            &vec![col("on")],
            &vec![col("on")],
            &vec![col("k")],
            &vec![col("k")],
            true,
        )
        .unwrap();
    // each left row matches the nearest right row of its own key class
    assert_eq!(col_values(&out, 0), vec![Some(1), Some(2)]);
    let y_idx = out.columns.len() - 1;
    assert_eq!(col_values(&out, y_idx), vec![Some(30), Some(20)]);
}

#[test]
fn asof_join_unmatched_left_rows_are_excluded() {
    let left = table(&[("on", DataType::Int64, &[1, 9])]);
    let right = table(&[("on", DataType::Int64, &[5])]);
    let out = left
        .hash_asof_join(&right, &vec![col("on")], &vec![col("on")], &Vec::new(), &Vec::new(), false)
        .unwrap();
    assert_eq!(col_values(&out, 0), vec![Some(9)]);
}

#[test]
fn asof_join_empty_right_is_empty() {
    let left = table(&[("on", DataType::Int64, &[5])]);
    let right = table(&[("on", DataType::Int64, &[])]);
    let out = left
        .hash_asof_join(&right, &vec![col("on")], &vec![col("on")], &Vec::new(), &Vec::new(), true)
        .unwrap();
    assert_eq!(out.num_rows(), 0);
    assert_eq!(out.schema.fields.len(), 1);
    assert_eq!(out.schema.fields[0].name, "on");
}

#[test]
fn asof_join_key_list_mismatch() {
    let left = table(&[("on", DataType::Int64, &[5])]);
    let right = table(&[("on", DataType::Int64, &[3])]);
    let r = left.hash_asof_join(&right, &vec![col("on")], &Vec::new(), &Vec::new(), &Vec::new(), true);
    assert!(matches!(r, Err(DaftError::ValueError(_))));
}

#[test]
fn infer_asof_schema_by_mismatch() {
    let left = table(&[("on", DataType::Int64, &[5])]);
    let right = table(&[("on", DataType::Int64, &[3])]);
    let r = asof_window::asof::infer_asof_schema(
        &left.schema,
        &right.schema,
        &vec![col("on")],
        &vec![col("on")],
        &vec![col("on")],
        &Vec::new(),
    );
    assert!(matches!(r, Err(DaftError::ValueError(_))));
}

#[test]
fn schema_rejects_duplicate_names() {
    let fields = vec![
        Field::new("a".to_string(), DataType::Int64),
        Field::new("a".to_string(), DataType::Int64),
    ];
    assert!(matches!(Schema::new(fields), Err(DaftError::ValueError(_))));
}

#[test]
fn make_groups_by_first_occurrence() {
    let t = table(&[("k", DataType::Int64, &[1, 2, 1])]);
    let (keys, groups) = t.make_groups();
    assert_eq!(groups, vec![vec![0usize, 2], vec![1usize]]);
    assert_eq!(keys.columns[0].values, vec![Some(1), Some(2)]);
}

#[test]
fn sort_is_stable() {
    let t = table(&[("k", DataType::Int64, &[2, 1, 2, 1]), ("tag", DataType::Int64, &[0, 1, 2, 3])]);
    let sorted = t
        .sort(&vec![col("k")], &vec![false], &vec![false])
        .unwrap();
    assert_eq!(sorted.columns[0].values, cells(&[1, 1, 2, 2]));
    assert_eq!(sorted.columns[1].values, cells(&[1, 3, 0, 2]));
}

#[test]
fn micropartition_window_concatenates_batches() {
    let t1 = table(&[("part", DataType::Int64, &[1]), ("val", DataType::Int64, &[10])]);
    let t2 = table(&[("part", DataType::Int64, &[1]), ("val", DataType::Int64, &[5])]);
    let schema = t1.schema.duplicate();
    let mp = MicroPartition::new_loaded(schema, vec![t1, t2], None);
    let spec = WindowSpec {
        partition_by: vec![col("part")],
        order_by: Vec::new(),
        descending: Vec::new(),
        frame: None,
    };
    let out = mp.partitioned_window(&spec, &vec![sum_of("val")], Vec::new()).unwrap();
    assert_eq!(out.tables.len(), 1);
    assert_eq!(out.tables[0].columns[2].values, vec![Some(10), Some(15)]);
}

#[test]
fn micropartition_asof_prunes_on_disjoint_stats() {
    let lt = table(&[("on", DataType::Int64, &[1, 2])]);
    let rt = table(&[("on", DataType::Int64, &[100, 200])]);
    let lschema = lt.schema.duplicate();
    let rschema = rt.schema.duplicate();
    let lstats = TableStats { columns: vec![ColumnStats { lower: Some(1), upper: Some(2) }] };
    let rstats = TableStats { columns: vec![ColumnStats { lower: Some(100), upper: Some(200) }] };
    let left = MicroPartition::new_loaded(lschema, vec![lt], Some(lstats));
    let right = MicroPartition::new_loaded(rschema, vec![rt], Some(rstats));
    let out = left
        .hash_asof_join(&right, &vec![col("on")], &vec![col("on")], &Vec::new(), &Vec::new(), true)
        .unwrap();
    assert_eq!(out.tables[0].num_rows(), 0);
}

#[test]
fn join_type_round_trip() {
    assert_eq!(JoinType::from_str("inner").unwrap(), JoinType::Inner);
    assert_eq!(JoinType::from_str("left").unwrap(), JoinType::Left);
    assert_eq!(JoinType::from_str("right").unwrap(), JoinType::Right);
    assert!(matches!(JoinType::from_str("outer"), Err(DaftError::TypeError(_))));
    assert_eq!(JoinType::iterator().len(), 3);
    assert_eq!(JoinType::Inner.display_string(), "Inner");
}

#[test]
fn join_strategy_round_trip() {
    assert_eq!(JoinStrategy::from_str("sort_merge").unwrap(), JoinStrategy::SortMerge);
    assert!(matches!(JoinStrategy::from_str("x"), Err(DaftError::TypeError(_))));
    assert_eq!(JoinStrategy::iterator().len(), 3);
}

#[test]
fn join_direction_round_trip() {
    assert_eq!(JoinDirection::from_str("backward").unwrap(), JoinDirection::Backward);
    assert_eq!(JoinDirection::from_str("nearest").unwrap(), JoinDirection::Nearest);
    assert!(matches!(JoinDirection::from_str("up"), Err(DaftError::TypeError(_))));
    assert_eq!(JoinDirection::iterator().len(), 3);
}

// This rendering would fail if the joining wrapper handed its input back
// unchanged instead of joining with the separator.
#[test]
fn partitioned_window_display() {
    let input = PhysicalPlanRef { schema: Schema { fields: Vec::new() } };
    let spec = WindowSpec {
        partition_by: vec![col("p"), col("q")],
        order_by: vec![col("o")],
        descending: vec![false],
        frame: None,
    };
    let node = PartitionedWindow::new(input, spec, vec![sum_of("v")], Vec::new());
    let lines = node.multiline_display();
    assert_eq!(lines[0], "PartitionedWindow");
    assert_eq!(lines[1], "Functions: sum(col(v))");
    assert_eq!(lines[2], "Partition By: col(p), col(q)");
    assert_eq!(lines[3], "Order By: col(o)");
}

#[test]
fn hash_asof_join_display_merges_equal_keys() {
    let mk = || PhysicalPlanRef { schema: Schema { fields: Vec::new() } };
    let node = HashAsOfJoin::new(
        mk(),
        mk(),
        vec![col("t")],
        vec![col("t")],
        vec![col("k")],
        vec![col("k2")],
        JoinDirection::Backward,
        true,
    );
    let lines = node.multiline_display();
    assert_eq!(lines[0], "AsOfJoin: Direction = Backward");
    assert_eq!(lines[1], "On = col(t)");
    assert_eq!(lines[2], "Left by = col(k)");
    assert_eq!(lines[3], "Right by = col(k2)");
}

#[test]
fn range_asof_join_display() {
    let mk = || PhysicalPlanRef { schema: Schema { fields: Vec::new() } };
    let node = RangeAsOfJoin::new(mk(), mk(), vec![col("t")], Vec::new(), JoinDirection::Forward, false, 4);
    let lines = node.multiline_display();
    assert_eq!(lines[0], "AsOfJoin: Direction = Forward");
    assert_eq!(lines[1], "Left on = col(t)");
}

#[test]
fn logical_window_schema_upserts_names() {
    let schema = Schema::new(vec![
        Field::new("a".to_string(), DataType::Int64),
        Field::new("b".to_string(), DataType::Int64),
    ])
    .unwrap();
    let input = LogicalPlanRef { schema, stats: PlanStats { num_rows: 2, size_bytes: 16 } };
    let spec = WindowSpec {
        partition_by: vec![col("a")],
        order_by: Vec::new(),
        descending: Vec::new(),
        frame: None,
    };
    let w = Window::try_new(input, spec, vec![sum_of("b")], vec!["b".to_string()]).unwrap();
    // the window output replaces field b in place, widened for the sum
    assert_eq!(w.output_schema.fields.len(), 2);
    assert_eq!(w.output_schema.fields[1].name, "b");
    assert_eq!(w.output_schema.fields[1].dtype, DataType::Int64);
    let w2 = w.with_materialized_stats();
    assert!(matches!(w2.stats_state, StatsState::Materialized(_)));
    let lines = w2.multiline_display();
    assert_eq!(lines[0], "Window");
    assert_eq!(lines[4], "Output Schema: a#Int64, b#Int64");
    assert_eq!(lines[5], "Stats: { num_rows = 2, size_bytes = 16 }");
}

#[test]
fn merge_asof_records_renames() {
    let lschema = Schema::new(vec![
        Field::new("t".to_string(), DataType::Int64),
        Field::new("b".to_string(), DataType::Int64),
    ])
    .unwrap();
    let rschema = Schema::new(vec![
        Field::new("t".to_string(), DataType::Int64),
        Field::new("b".to_string(), DataType::Int64),
        Field::new("c".to_string(), DataType::Int64),
    ])
    .unwrap();
    let stats = PlanStats { num_rows: 0, size_bytes: 0 };
    let m = MergeAsOf::try_new(
        LogicalPlanRef { schema: lschema, stats },
        LogicalPlanRef { schema: rschema, stats },
        vec![col("t")],
        vec![col("t")],
        Vec::new(),
        Vec::new(),
        JoinDirection::Backward,
        true,
    )
    .unwrap();
    let names: Vec<&str> = m.output_schema.fields.iter().map(|f| f.name.as_str()).collect();
    assert_eq!(names, vec!["t", "b", "right.b", "c"]);
    assert_eq!(m.right_input_mapping.get("t").map(|s| s.as_str()), Some("t"));
    assert_eq!(m.right_input_mapping.get("right.b").map(|s| s.as_str()), Some("b"));
    assert_eq!(m.right_input_mapping.get("c").map(|s| s.as_str()), Some("c"));
    let lines = m.multiline_display();
    assert_eq!(lines[0], "Join: Direction = Backward");
    assert_eq!(lines[1], "On = col(t)");
}

#[test]
fn merge_asof_rejects_non_numeric_by_keys() {
    let lschema = Schema::new(vec![
        Field::new("t".to_string(), DataType::Int64),
        Field::new("k".to_string(), DataType::Utf8),
    ])
    .unwrap();
    let rschema = Schema::new(vec![
        Field::new("t".to_string(), DataType::Int64),
        Field::new("k".to_string(), DataType::Utf8),
    ])
    .unwrap();
    let stats = PlanStats { num_rows: 0, size_bytes: 0 };
    let r = MergeAsOf::try_new(
        LogicalPlanRef { schema: lschema, stats },
        LogicalPlanRef { schema: rschema, stats },
        vec![col("t")],
        vec![col("t")],
        vec![col("k")],
        vec![col("k")],
        JoinDirection::Backward,
        true,
    );
    assert!(matches!(r, Err(DaftError::ValueError(_))));
}

#[test]
fn utf8_field_inference() {
    let schema = Schema::new(vec![
        Field::new("s".to_string(), DataType::Utf8),
        Field::new("p".to_string(), DataType::Utf8),
        Field::new("n".to_string(), DataType::Int64),
    ])
    .unwrap();
    let ex = ExtractAllEvaluator {};
    let fe = FunctionExpr::Utf8(Utf8Expr::ExtractAll(0));
    let f = ex.to_field(&vec![col("s"), col("p")], &schema, &fe).unwrap();
    assert_eq!(f.name, "s");
    assert_eq!(f.dtype, DataType::List);
    assert_eq!(ex.fn_name(), "extractall");
    assert!(matches!(
        ex.to_field(&vec![col("s"), col("n")], &schema, &fe),
        Err(DaftError::TypeError(_))
    ));
    assert!(matches!(
        ex.to_field(&vec![col("s")], &schema, &fe),
        Err(DaftError::SchemaMismatch(_))
    ));
    let ls = LstripEvaluator {};
    let fl = FunctionExpr::Utf8(Utf8Expr::Lstrip);
    let f2 = ls.to_field(&vec![col("s")], &schema, &fl).unwrap();
    assert_eq!(f2.dtype, DataType::Utf8);
    assert_eq!(ls.fn_name(), "lstrip");
    assert!(matches!(
        ls.to_field(&vec![col("n")], &schema, &fl),
        Err(DaftError::TypeError(_))
    ));
}

#[test]
fn decimal_rendering() {
    assert_eq!(int_to_string(0), "0");
    assert_eq!(int_to_string(907), "907");
    assert_eq!(int_to_string(-35), "-35");
}

#[test]
fn expr_display_rendering() {
    assert_eq!(col("a").to_display_string(), "col(a)");
    assert_eq!(
        Expr::Literal(LiteralValue::Int64(-7)).to_display_string(),
        "lit(-7)"
    );
    assert_eq!(sum_of("a").to_display_string(), "sum(col(a))");
}

#[test]
fn asof_join_incompatible_comparison_types() {
    let left = table(&[("on", DataType::Int64, &[5])]);
    let right = table(&[("on", DataType::Utf8, &[3])]);
    let r = left.hash_asof_join(&right, &vec![col("on")], &vec![col("on")], &Vec::new(), &Vec::new(), true);
    assert!(matches!(r, Err(DaftError::SchemaMismatch(_))));
}

#[test]
fn descending_order_window() {
    let t = table(&[("part", DataType::Int64, &[1, 1, 1]), ("o", DataType::Int64, &[1, 3, 2])]);
    let spec = WindowSpec {
        partition_by: vec![col("part")],
        order_by: vec![col("o")],
        descending: vec![true],
        frame: None,
    };
    let out = t.cumulative_window(&spec, &vec![sum_of("o")]).unwrap();
    assert_eq!(col_values(&out, 1), vec![Some(3), Some(2), Some(1)]);
    assert_eq!(col_values(&out, 2), vec![Some(3), Some(5), Some(6)]);
}

#[test]
fn micropartition_asof_overlapping_stats_still_joins() {
    let lt = table(&[("on", DataType::Int64, &[5])]);
    let rt = table(&[("on", DataType::Int64, &[3])]);
    let lschema = lt.schema.duplicate();
    let rschema = rt.schema.duplicate();
    let lstats = TableStats { columns: vec![ColumnStats { lower: Some(1), upper: Some(10) }] };
    let rstats = TableStats { columns: vec![ColumnStats { lower: Some(2), upper: Some(4) }] };
    let left = MicroPartition::new_loaded(lschema, vec![lt], Some(lstats));
    let right = MicroPartition::new_loaded(rschema, vec![rt], Some(rstats));
    let out = left
        .hash_asof_join(&right, &vec![col("on")], &vec![col("on")], &Vec::new(), &Vec::new(), true)
        .unwrap();
    assert_eq!(out.tables[0].num_rows(), 1);
}

#[test]
fn renaming_cascades_until_free() {
    // a window output colliding with both "v" and "right.v" is prefixed
    // twice
    let t = table(&[
        ("p", DataType::Int64, &[1][..]),
        ("v", DataType::Int64, &[7]),
        ("right.v", DataType::Int64, &[8]),
    ]);
    let spec = WindowSpec {
        partition_by: vec![col("p")],
        order_by: Vec::new(),
        descending: Vec::new(),
        frame: None,
    };
    let out = t.cumulative_window(&spec, &vec![sum_of("v")]).unwrap();
    assert_eq!(out.columns[3].name, "right.right.v");
    assert_eq!(col_values(&out, 3), vec![Some(7)]);
}

#[test]
fn table_lookup_errors() {
    let t = table(&[("a", DataType::Int64, &[1])]);
    assert!(matches!(t.get_column(&"b".to_string()), Err(DaftError::ValueError(_))));
    assert!(t.get_column(&"a".to_string()).is_ok());
}

#[test]
fn data_type_display_names() {
    assert_eq!(DataType::Int64.display_string(), "Int64");
    assert_eq!(DataType::Utf8.display_string(), "Utf8");
}

#[test]
fn row_window_rejects_non_integer_bounds() {
    let t = table(&[("part", DataType::Int64, &[1]), ("val", DataType::Int64, &[1])]);
    let spec = WindowSpec {
        partition_by: vec![col("part")],
        order_by: Vec::new(),
        descending: Vec::new(),
        frame: Some(WindowFrame {
            is_range: false,
            left_bound: Some(col("val")),
            right_bound: None,
        }),
    };
    let r = t.row_window(&spec, &vec![sum_of("val")]);
    assert!(matches!(r, Err(DaftError::ValueError(_))));
}

#[test]
fn range_window_rejects_non_literal_bounds() {
    let t = table(&[("part", DataType::Int64, &[1]), ("o", DataType::Int64, &[1])]);
    let spec = WindowSpec {
        partition_by: vec![col("part")],
        order_by: vec![col("o")],
        descending: vec![false],
        frame: Some(WindowFrame {
            is_range: true,
            left_bound: Some(col("o")),
            right_bound: None,
        }),
    };
    let r = t.range_window(&spec, &vec![sum_of("o")]);
    assert!(matches!(r, Err(DaftError::ValueError(_))));
}

#[test]
fn merge_asof_rejects_null_typed_on_keys() {
    let lschema = Schema::new(vec![Field::new("t".to_string(), DataType::Null)]).unwrap();
    let rschema = Schema::new(vec![Field::new("t".to_string(), DataType::Null)]).unwrap();
    let stats = PlanStats { num_rows: 0, size_bytes: 0 };
    let r = MergeAsOf::try_new(
        LogicalPlanRef { schema: lschema, stats },
        LogicalPlanRef { schema: rschema, stats },
        vec![col("t")],
        vec![col("t")],
        Vec::new(),
        Vec::new(),
        JoinDirection::Backward,
        true,
    );
    assert!(matches!(r, Err(DaftError::ValueError(_))));
}

#[test]
fn asof_join_type_error_names_lengths() {
    let left = table(&[("on", DataType::Int64, &[5])]);
    let right = table(&[("on", DataType::Int64, &[3])]);
    let r = left.hash_asof_join(&right, &vec![col("on")], &Vec::new(), &Vec::new(), &Vec::new(), true);
    match r {
        Err(DaftError::ValueError(m)) => assert!(m.contains("1") && m.contains("0")),
        _ => panic!("expected a value error"),
    }
}

#[test]
fn sum_type_error_names_type() {
    let s = Series::new("v".to_string(), DataType::Utf8, cells(&[1]));
    let groups: Vec<Vec<usize>> = vec![vec![0]];
    match s.windowed_sum(Some(&groups)) {
        Err(DaftError::TypeError(m)) => assert!(m.contains("Utf8")),
        _ => panic!("expected a type error"),
    }
}
