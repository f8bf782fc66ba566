//! A stand-in database engine for demonstrations: it answers every
//! statement with fixed rows and a fixed execution plan.
use vstd::prelude::*;
use crate::models::{
    nodes_view, opt_view, rows_view, strings_view, PlanNode, PlanNodeView, QueryResult,
    QueryResultView,
};
use crate::plan_tree::{build_tree_spec, build_tree};
use crate::text::{chars_of, contains, contains_str, str_upper, trim, trim_vec, upper_chars};

verus! {

/// Whether the statement reads the inventory tables: its trimmed,
/// upper-cased text names `INVENTORY` or `ORDER` somewhere.
pub open spec fn mock_reads_inventory(sql: Seq<char>) -> bool {
    let u = str_upper(trim(sql));
    contains(u, "TB_CENTER_INVENTORY"@) || contains(u, "INVENTORY"@) || contains(u, "ORDER"@)
}

/// A childless plan step with the given figures.
pub open spec fn step_view(
    id: i32,
    parent_id: Option<i32>,
    position: i32,
    operation: Seq<char>,
    options: Option<Seq<char>>,
    object_name: Option<Seq<char>>,
    counts: (u64, u64, u64),
    a_time_us: u64,
    io: (u64, u64),
    cost: i64,
    access_predicates: Option<Seq<char>>,
    filter_predicates: Option<Seq<char>>,
    ratio_x100: u64,
    pct_x100: u64,
    bottleneck_tags: Seq<Seq<char>>,
) -> PlanNodeView {
    PlanNodeView {
        id,
        parent_id,
        position,
        operation,
        options,
        object_name,
        starts: counts.0,
        e_rows: counts.1,
        a_rows: counts.2,
        a_time_us,
        buffers: io.0,
        reads: io.1,
        cost: Some(cost),
        access_predicates,
        filter_predicates,
        object_alias: None,
        outline_hints: seq![],
        qblock_name: None,
        cardinality_ratio_x100: ratio_x100,
        buffer_pct_x100: pct_x100,
        is_bottleneck: bottleneck_tags.len() > 0,
        bottleneck_tags,
        children: seq![],
    }
}

pub open spec fn some_text(s: &str) -> Option<Seq<char>> {
    Some(s@)
}

/// The flat plan of the inventory statement.
pub open spec fn inventory_plan() -> Seq<PlanNodeView> {
    seq![
        step_view(0, None, 0, "SELECT STATEMENT"@, None, None, (1, 30, 150_000), 1_722_110,
            (15_000_000, 1_420_000), 5124, None, None, 500_000, 10_000, seq![]),
        step_view(1, Some(0), 1, "NESTED LOOPS"@, None, None, (1, 30, 150_000), 1_722_080,
            (15_000_000, 1_420_000), 5124, None, None, 500_000, 10_000, seq![]),
        step_view(2, Some(1), 1, "NESTED LOOPS"@, None, None, (1, 30, 150_000), 12_450,
            (302_000, 28_000), 120, None, None, 500_000, 201, seq![]),
        step_view(3, Some(2), 1, "TABLE ACCESS"@, some_text("BY INDEX ROWID"),
            some_text("TB_CENTER_INVENTORY"), (1, 30, 150_000), 8_120, (152_000, 12_000), 31,
            None, some_text("\"I\".\"ALLOCATED_QTY\" IS NOT NULL"), 500_000, 101,
            seq!["카디널리티 예측 왜곡 (5000x)"@, "드라이빙 대량 레코드"@]),
        step_view(4, Some(3), 1, "INDEX"@, some_text("RANGE SCAN"),
            some_text("IX_CENTER_INV_01"), (1, 30, 150_000), 640, (1_200, 310), 2,
            some_text("\"I\".\"CENTER_CD\"=:CENTER_CD"), None, 500_000, 1, seq![]),
        step_view(5, Some(2), 2, "INDEX"@, some_text("RANGE SCAN"),
            some_text("IX_INV_MOVE_ORDER_01"), (150_000, 1, 150_000), 494_220,
            (150_000, 14_000), 2,
            some_text("\"I\".\"ITEM_CD\"=\"M\".\"ITEM_CD\" AND \"M\".\"ORDER_DATE\"=TRUNC(SYSDATE@!)"),
            None, 100, 100, seq!["Starts 폭증 (150K회 루프)"@]),
        step_view(6, Some(1), 2, "TABLE ACCESS"@, some_text("BY INDEX ROWID"),
            some_text("TB_INVENTORY_MOVE_ORDER"), (150_000, 1, 150_000), 1_215_510,
            (14_000_000, 1_370_000), 3, None,
            some_text("(\"M\".\"MOVE_STATUS\"='READY' AND \"M\".\"SRC_CENTER_CD\"=:CENTER_CD)"),
            100, 9_333,
            seq![
                "Buffers 쏠림 (전체의 93.3%)"@,
                "Single Block I/O 다발 (1.37M Reads)"@,
                "Starts 150K 반복 탐색"@,
            ]),
    ]
}

/// The flat plan of any other statement.
pub open spec fn dual_plan() -> Seq<PlanNodeView> {
    seq![
        step_view(0, None, 0, "SELECT STATEMENT"@, None, None, (1, 1, 1), 850, (3, 0), 2, None,
            None, 100, 10_000, seq![]),
        step_view(1, Some(0), 1, "FAST DUAL"@, None, None, (1, 1, 1), 450, (3, 0), 2, None, None,
            100, 10_000, seq![]),
    ]
}

pub open spec fn inventory_row(item: &str, qty: &str) -> Seq<Seq<char>> {
    seq!["HUB_01"@, item@, qty@, "2026-09-20"@, "READY"@]
}

/// The result of the inventory statement: eight rows shown of 150,000.
pub open spec fn inventory_result() -> QueryResultView {
    QueryResultView {
        columns: seq!["CENTER_CD"@, "ITEM_CD"@, "ALLOCATED_QTY"@, "ORDER_DATE"@, "MOVE_STATUS"@],
        rows: seq![
            inventory_row("SKU-882194", "450"),
            inventory_row("SKU-882195", "120"),
            inventory_row("SKU-882196", "890"),
            inventory_row("SKU-882201", "35"),
            inventory_row("SKU-882209", "210"),
            inventory_row("SKU-882215", "670"),
            inventory_row("SKU-882220", "50"),
            inventory_row("SKU-882231", "140"),
        ],
        elapsed_us: 1_722_450,
        row_count: 150_000,
        sql_id: some_text("8w7qm1zfk5u1x"),
        child_number: Some(1),
        plan_hash_value: Some(11223344),
        message: some_text("150,000 rows fetched (Top 8 displayed in grid)."),
    }
}

/// The result of any other statement: one status row.
pub open spec fn dual_result() -> QueryResultView {
    QueryResultView {
        columns: seq!["STATUS"@, "SYSDATE"@, "INSTANCE_NAME"@],
        rows: seq![seq!["CONNECTED"@, "2026-09-20 09:35:00"@, "ORCL19C_PDB1"@]],
        elapsed_us: 850,
        row_count: 1,
        sql_id: some_text("7gqf9a441n0x2"),
        child_number: Some(0),
        plan_hash_value: Some(1388707743),
        message: some_text("1 row selected."),
    }
}

fn text(s: &str) -> (r: Option<String>)
    ensures
        opt_view(r) == some_text(s),
{
    Some(String::from_str(s))
}

fn step(
    id: i32,
    parent_id: Option<i32>,
    position: i32,
    operation: &str,
    options: Option<String>,
    object_name: Option<String>,
    counts: (u64, u64, u64),
    a_time_us: u64,
    io: (u64, u64),
    cost: i64,
    access_predicates: Option<String>,
    filter_predicates: Option<String>,
    ratio_x100: u64,
    pct_x100: u64,
    bottleneck_tags: Vec<String>,
) -> (r: PlanNode)
    ensures
        r@ == step_view(id, parent_id, position, operation@, opt_view(options),
            opt_view(object_name), counts, a_time_us, io, cost, opt_view(access_predicates),
            opt_view(filter_predicates), ratio_x100, pct_x100,
            strings_view(bottleneck_tags@)),
{
    let tags = bottleneck_tags;
    let r = PlanNode {
        id,
        parent_id,
        position,
        operation: String::from_str(operation),
        options,
        object_name,
        starts: counts.0,
        e_rows: counts.1,
        a_rows: counts.2,
        a_time_us,
        buffers: io.0,
        reads: io.1,
        cost: Some(cost),
        access_predicates,
        filter_predicates,
        object_alias: None,
        outline_hints: Vec::new(),
        qblock_name: None,
        cardinality_ratio_x100: ratio_x100,
        buffer_pct_x100: pct_x100,
        is_bottleneck: tags.len() > 0,
        bottleneck_tags: tags,
        children: Vec::new(),
    };
    assert(strings_view(r.outline_hints@) =~= Seq::<Seq<char>>::empty());
    assert(r@.children =~= Seq::<PlanNodeView>::empty());
    r
}

fn no_tags() -> (r: Vec<String>)
    ensures
        strings_view(r@) == Seq::<Seq<char>>::empty(),
{
    let r: Vec<String> = Vec::new();
    assert(strings_view(r@) =~= Seq::<Seq<char>>::empty());
    r
}

fn tags(a: &str, b: Option<&str>, c: Option<&str>) -> (r: Vec<String>)
    ensures
        strings_view(r@) == (match (b, c) {
            (Some(b), Some(c)) => seq![a@, b@, c@],
            (Some(b), None) => seq![a@, b@],
            _ => seq![a@],
        }),
{
    let mut r: Vec<String> = Vec::new();
    r.push(String::from_str(a));
    match (b, c) {
        (Some(b), Some(c)) => {
            r.push(String::from_str(b));
            r.push(String::from_str(c));
            assert(strings_view(r@) =~= seq![a@, b@, c@]);
        },
        (Some(b), None) => {
            r.push(String::from_str(b));
            assert(strings_view(r@) =~= seq![a@, b@]);
        },
        _ => {
            assert(strings_view(r@) =~= seq![a@]);
        },
    }
    r
}

fn inventory_nodes() -> (r: Vec<PlanNode>)
    ensures
        nodes_view(r@) == inventory_plan(),
{
    let mut v: Vec<PlanNode> = Vec::new();
    v.push(step(0, None, 0, "SELECT STATEMENT", None, None, (1, 30, 150_000), 1_722_110,
        (15_000_000, 1_420_000), 5124, None, None, 500_000, 10_000, no_tags()));
    v.push(step(1, Some(0), 1, "NESTED LOOPS", None, None, (1, 30, 150_000), 1_722_080,
        (15_000_000, 1_420_000), 5124, None, None, 500_000, 10_000, no_tags()));
    v.push(step(2, Some(1), 1, "NESTED LOOPS", None, None, (1, 30, 150_000), 12_450,
        (302_000, 28_000), 120, None, None, 500_000, 201, no_tags()));
    v.push(step(3, Some(2), 1, "TABLE ACCESS", text("BY INDEX ROWID"),
        text("TB_CENTER_INVENTORY"), (1, 30, 150_000), 8_120, (152_000, 12_000), 31,
        None, text("\"I\".\"ALLOCATED_QTY\" IS NOT NULL"), 500_000, 101,
        tags("카디널리티 예측 왜곡 (5000x)", Some("드라이빙 대량 레코드"), None)));
    v.push(step(4, Some(3), 1, "INDEX", text("RANGE SCAN"),
        text("IX_CENTER_INV_01"), (1, 30, 150_000), 640, (1_200, 310), 2,
        text("\"I\".\"CENTER_CD\"=:CENTER_CD"), None, 500_000, 1, no_tags()));
    v.push(step(5, Some(2), 2, "INDEX", text("RANGE SCAN"),
        text("IX_INV_MOVE_ORDER_01"), (150_000, 1, 150_000), 494_220,
        (150_000, 14_000), 2,
        text("\"I\".\"ITEM_CD\"=\"M\".\"ITEM_CD\" AND \"M\".\"ORDER_DATE\"=TRUNC(SYSDATE@!)"),
        None, 100, 100, tags("Starts 폭증 (150K회 루프)", None, None)));
    v.push(step(6, Some(1), 2, "TABLE ACCESS", text("BY INDEX ROWID"),
        text("TB_INVENTORY_MOVE_ORDER"), (150_000, 1, 150_000), 1_215_510,
        (14_000_000, 1_370_000), 3, None,
        text("(\"M\".\"MOVE_STATUS\"='READY' AND \"M\".\"SRC_CENTER_CD\"=:CENTER_CD)"),
        100, 9_333,
        tags(
            "Buffers 쏠림 (전체의 93.3%)",
            Some("Single Block I/O 다발 (1.37M Reads)"),
            Some("Starts 150K 반복 탐색"),
        )));
    assert(nodes_view(v@) =~= inventory_plan());
    v
}

fn dual_nodes() -> (r: Vec<PlanNode>)
    ensures
        nodes_view(r@) == dual_plan(),
{
    let mut v: Vec<PlanNode> = Vec::new();
    v.push(step(0, None, 0, "SELECT STATEMENT", None, None, (1, 1, 1), 850, (3, 0), 2, None,
        None, 100, 10_000, no_tags()));
    v.push(step(1, Some(0), 1, "FAST DUAL", None, None, (1, 1, 1), 450, (3, 0), 2, None, None,
        100, 10_000, no_tags()));
    assert(nodes_view(v@) =~= dual_plan());
    v
}

fn strings5(a: &str, b: &str, c: &str, d: &str, e: &str) -> (r: Vec<String>)
    ensures
        strings_view(r@) == seq![a@, b@, c@, d@, e@],
{
    let mut r: Vec<String> = Vec::new();
    r.push(String::from_str(a));
    r.push(String::from_str(b));
    r.push(String::from_str(c));
    r.push(String::from_str(d));
    r.push(String::from_str(e));
    assert(strings_view(r@) =~= seq![a@, b@, c@, d@, e@]);
    r
}

fn strings3(a: &str, b: &str, c: &str) -> (r: Vec<String>)
    ensures
        strings_view(r@) == seq![a@, b@, c@],
{
    let mut r: Vec<String> = Vec::new();
    r.push(String::from_str(a));
    r.push(String::from_str(b));
    r.push(String::from_str(c));
    assert(strings_view(r@) =~= seq![a@, b@, c@]);
    r
}

fn inventory_query_result() -> (r: QueryResult)
    ensures
        r@ == inventory_result(),
{
    let columns = strings5("CENTER_CD", "ITEM_CD", "ALLOCATED_QTY", "ORDER_DATE", "MOVE_STATUS");
    let items: [(&str, &str); 8] = [
        ("SKU-882194", "450"),
        ("SKU-882195", "120"),
        ("SKU-882196", "890"),
        ("SKU-882201", "35"),
        ("SKU-882209", "210"),
        ("SKU-882215", "670"),
        ("SKU-882220", "50"),
        ("SKU-882231", "140"),
    ];
    let ghost want = inventory_result().rows;
    let mut rows: Vec<Vec<String>> = Vec::new();
    let mut i: usize = 0;
    while i < 8
        invariant
            0 <= i <= 8,
            items@ == seq![
                ("SKU-882194", "450"),
                ("SKU-882195", "120"),
                ("SKU-882196", "890"),
                ("SKU-882201", "35"),
                ("SKU-882209", "210"),
                ("SKU-882215", "670"),
                ("SKU-882220", "50"),
                ("SKU-882231", "140"),
            ],
            want == inventory_result().rows,
            rows_view(rows@) == want.take(i as int),
        decreases 8 - i,
    {
        let (item, qty) = items[i];
        let ghost before = rows_view(rows@);
        rows.push(strings5("HUB_01", item, qty, "2026-09-20", "READY"));
        assert(rows_view(rows@) =~= before.push(inventory_row(item, qty)));
        i += 1;
        assert(rows_view(rows@) =~= want.take(i as int));
    }
    assert(want.take(8) =~= want);
    QueryResult {
        columns,
        rows,
        elapsed_us: 1_722_450,
        row_count: 150_000,
        sql_id: text("8w7qm1zfk5u1x"),
        child_number: Some(1),
        plan_hash_value: Some(11223344),
        message: text("150,000 rows fetched (Top 8 displayed in grid)."),
    }
}

fn dual_query_result() -> (r: QueryResult)
    ensures
        r@ == dual_result(),
{
    let columns = strings3("STATUS", "SYSDATE", "INSTANCE_NAME");
    let mut rows: Vec<Vec<String>> = Vec::new();
    rows.push(strings3("CONNECTED", "2026-09-20 09:35:00", "ORCL19C_PDB1"));
    assert(rows_view(rows@) =~= dual_result().rows);
    QueryResult {
        columns,
        rows,
        elapsed_us: 850,
        row_count: 1,
        sql_id: text("7gqf9a441n0x2"),
        child_number: Some(0),
        plan_hash_value: Some(1388707743),
        message: text("1 row selected."),
    }
}

/// What the stand-in engine answers to a statement: the result and the
/// plan tree.
pub open spec fn mock_answer(sql: Seq<char>) -> (QueryResultView, Seq<PlanNodeView>) {
    if mock_reads_inventory(sql) {
        (inventory_result(), build_tree_spec(inventory_plan()))
    } else {
        (dual_result(), build_tree_spec(dual_plan()))
    }
}

/// The stand-in engine.
pub struct MockEngine;

impl MockEngine {
    /// Answers a statement without a database. A statement whose trimmed,
    /// upper-cased text names `INVENTORY` or `ORDER` gets the inventory
    /// rows and their seven-step plan; any other gets one status row and
    /// the two-step plan of a query on `DUAL`. The plan comes back as a
    /// tree, built as `build_tree` builds it.
    pub fn execute(sql: &str) -> (r: (QueryResult, Vec<PlanNode>))
        ensures
            (r.0@, nodes_view(r.1@)) == mock_answer(sql@),
    {
        let raw = chars_of(sql);
        let trimmed = trim_vec(&raw);
        let upper = upper_chars(&trimmed);
        if contains_str(&upper, "TB_CENTER_INVENTORY") || contains_str(&upper, "INVENTORY")
            || contains_str(&upper, "ORDER") {
            let result = inventory_query_result();
            let tree = build_tree(inventory_nodes());
            (result, tree)
        } else {
            let result = dual_query_result();
            let tree = build_tree(dual_nodes());
            (result, tree)
        }
    }

    /// The plan tree of flat nodes; see `plan_tree::build_tree`.
    pub fn build_tree(nodes: Vec<PlanNode>) -> (r: Vec<PlanNode>)
        ensures
            nodes_view(r@) == build_tree_spec(nodes_view(nodes@)),
    {
        build_tree(nodes)
    }
}

} // verus!
