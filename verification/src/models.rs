//! The data the client works with: connection settings, execution plan
//! nodes, query results and query structure.
//!
//! Times are held in microseconds and ratios and percentages in
//! hundredths, as integers.
use vstd::prelude::*;
use crate::text::{chars_of, string_from};

verus! {

pub open spec fn opt_view(o: Option<String>) -> Option<Seq<char>> {
    match o {
        Some(s) => Some(s@),
        None => None,
    }
}

pub open spec fn strings_view(v: Seq<String>) -> Seq<Seq<char>> {
    v.map_values(|s: String| s@)
}

pub fn copy_string(s: &String) -> (r: String)
    ensures
        r@ == s@,
{
    string_from(&chars_of(s.as_str()))
}

pub fn copy_opt(o: &Option<String>) -> (r: Option<String>)
    ensures
        opt_view(r) == opt_view(*o),
{
    match o {
        Some(s) => Some(copy_string(s)),
        None => None,
    }
}

pub fn copy_strings(v: &Vec<String>) -> (r: Vec<String>)
    ensures
        strings_view(r@) == strings_view(v@),
{
    let mut r: Vec<String> = Vec::new();
    let mut i: usize = 0;
    while i < v.len()
        invariant
            0 <= i <= v.len(),
            strings_view(r@) == strings_view(v@).take(i as int),
        decreases v.len() - i,
    {
        let ghost before = strings_view(r@);
        let c = copy_string(&v[i]);
        r.push(c);
        assert(strings_view(r@) =~= before.push(v@[i as int]@));
        i += 1;
        assert(strings_view(r@) =~= strings_view(v@).take(i as int));
    }
    assert(strings_view(v@).take(v.len() as int) =~= strings_view(v@));
    r
}

// ---------------------------------------------------------------------------
// Connection settings
// ---------------------------------------------------------------------------

pub struct ConnectionConfig {
    pub alias: String,
    pub host: String,
    pub port: u16,
    pub service_name: String,
    pub username: String,
    pub password: String,
}

pub struct ConnectionConfigView {
    pub alias: Seq<char>,
    pub host: Seq<char>,
    pub port: u16,
    pub service_name: Seq<char>,
    pub username: Seq<char>,
    pub password: Seq<char>,
}

impl View for ConnectionConfig {
    type V = ConnectionConfigView;

    open spec fn view(&self) -> ConnectionConfigView {
        ConnectionConfigView {
            alias: self.alias@,
            host: self.host@,
            port: self.port,
            service_name: self.service_name@,
            username: self.username@,
            password: self.password@,
        }
    }
}

impl ConnectionConfig {
    pub fn copy(&self) -> (r: ConnectionConfig)
        ensures
            r@ == self@,
    {
        ConnectionConfig {
            alias: copy_string(&self.alias),
            host: copy_string(&self.host),
            port: self.port,
            service_name: copy_string(&self.service_name),
            username: copy_string(&self.username),
            password: copy_string(&self.password),
        }
    }
}

/// The local `FREEPDB1` service at `127.0.0.1:1521` as `SCOTT`.
pub open spec fn default_config() -> ConnectionConfigView {
    ConnectionConfigView {
        alias: "FREEPDB1"@,
        host: "127.0.0.1"@,
        port: 1521,
        service_name: "FREEPDB1"@,
        username: "SCOTT"@,
        password: "tiger"@,
    }
}

impl Default for ConnectionConfig {
    /// See `default_config`.
    fn default() -> (r: Self)
        ensures
            r@ == default_config(),
    {
        ConnectionConfig {
            alias: String::from_str("FREEPDB1"),
            host: String::from_str("127.0.0.1"),
            port: 1521,
            service_name: String::from_str("FREEPDB1"),
            username: String::from_str("SCOTT"),
            password: String::from_str("tiger"),
        }
    }
}

// ---------------------------------------------------------------------------
// Execution plans
// ---------------------------------------------------------------------------

/// One step of an execution plan. `a_time_us` is the actual time in
/// microseconds; `cardinality_ratio_x100` and `buffer_pct_x100` are the
/// A-Rows/E-Rows ratio and the share of buffers in hundredths.
pub struct PlanNode {
    pub id: i32,
    pub parent_id: Option<i32>,
    pub position: i32,
    pub operation: String,
    pub options: Option<String>,
    pub object_name: Option<String>,
    pub starts: u64,
    pub e_rows: u64,
    pub a_rows: u64,
    pub a_time_us: u64,
    pub buffers: u64,
    pub reads: u64,
    pub cost: Option<i64>,
    pub access_predicates: Option<String>,
    pub filter_predicates: Option<String>,
    pub object_alias: Option<String>,
    pub outline_hints: Vec<String>,
    pub qblock_name: Option<String>,
    pub cardinality_ratio_x100: u64,
    pub buffer_pct_x100: u64,
    pub is_bottleneck: bool,
    pub bottleneck_tags: Vec<String>,
    pub children: Vec<PlanNode>,
}

/// A plan node as a mathematical value.
pub struct PlanNodeView {
    pub id: i32,
    pub parent_id: Option<i32>,
    pub position: i32,
    pub operation: Seq<char>,
    pub options: Option<Seq<char>>,
    pub object_name: Option<Seq<char>>,
    pub starts: u64,
    pub e_rows: u64,
    pub a_rows: u64,
    pub a_time_us: u64,
    pub buffers: u64,
    pub reads: u64,
    pub cost: Option<i64>,
    pub access_predicates: Option<Seq<char>>,
    pub filter_predicates: Option<Seq<char>>,
    pub object_alias: Option<Seq<char>>,
    pub outline_hints: Seq<Seq<char>>,
    pub qblock_name: Option<Seq<char>>,
    pub cardinality_ratio_x100: u64,
    pub buffer_pct_x100: u64,
    pub is_bottleneck: bool,
    pub bottleneck_tags: Seq<Seq<char>>,
    pub children: Seq<PlanNodeView>,
}

pub open spec fn node_view(n: PlanNode) -> PlanNodeView
    decreases n,
{
    PlanNodeView {
        id: n.id,
        parent_id: n.parent_id,
        position: n.position,
        operation: n.operation@,
        options: opt_view(n.options),
        object_name: opt_view(n.object_name),
        starts: n.starts,
        e_rows: n.e_rows,
        a_rows: n.a_rows,
        a_time_us: n.a_time_us,
        buffers: n.buffers,
        reads: n.reads,
        cost: n.cost,
        access_predicates: opt_view(n.access_predicates),
        filter_predicates: opt_view(n.filter_predicates),
        object_alias: opt_view(n.object_alias),
        outline_hints: strings_view(n.outline_hints@),
        qblock_name: opt_view(n.qblock_name),
        cardinality_ratio_x100: n.cardinality_ratio_x100,
        buffer_pct_x100: n.buffer_pct_x100,
        is_bottleneck: n.is_bottleneck,
        bottleneck_tags: strings_view(n.bottleneck_tags@),
        children: Seq::new(
            n.children@.len(),
            |i: int|
                {
                    if 0 <= i < n.children@.len() {
                        node_view(n.children@[i])
                    } else {
                        arbitrary()
                    }
                },
        ),
    }
}

impl View for PlanNode {
    type V = PlanNodeView;

    open spec fn view(&self) -> PlanNodeView {
        node_view(*self)
    }
}

pub open spec fn nodes_view(v: Seq<PlanNode>) -> Seq<PlanNodeView> {
    v.map_values(|n: PlanNode| node_view(n))
}

impl PlanNode {
    /// Whether the actual rows exceed the estimate tenfold or more.
    pub fn is_skewed(&self) -> (r: bool)
        ensures
            r == (self.cardinality_ratio_x100 >= 1000),
    {
        self.cardinality_ratio_x100 >= 1000
    }

    /// Whether the step was started a thousand times or more.
    pub fn has_heavy_starts(&self) -> (r: bool)
        ensures
            r == (self.starts >= 1000),
    {
        self.starts >= 1000
    }

    /// Whether the step reads 30% or more of all buffers.
    pub fn has_heavy_buffers(&self) -> (r: bool)
        ensures
            r == (self.buffer_pct_x100 >= 3000),
    {
        self.buffer_pct_x100 >= 3000
    }
}

impl Default for PlanNode {
    /// A childless node with id 0: one start, one estimated and one actual
    /// row, a ratio of 1, nothing else.
    fn default() -> (r: Self)
        ensures
            r@ == (PlanNodeView {
                id: 0,
                parent_id: None,
                position: 0,
                operation: seq![],
                options: None,
                object_name: None,
                starts: 1,
                e_rows: 1,
                a_rows: 1,
                a_time_us: 0,
                buffers: 0,
                reads: 0,
                cost: None,
                access_predicates: None,
                filter_predicates: None,
                object_alias: None,
                outline_hints: seq![],
                qblock_name: None,
                cardinality_ratio_x100: 100,
                buffer_pct_x100: 0,
                is_bottleneck: false,
                bottleneck_tags: seq![],
                children: seq![],
            }),
    {
        let r = PlanNode {
            id: 0,
            parent_id: None,
            position: 0,
            operation: String::new(),
            options: None,
            object_name: None,
            starts: 1,
            e_rows: 1,
            a_rows: 1,
            a_time_us: 0,
            buffers: 0,
            reads: 0,
            cost: None,
            access_predicates: None,
            filter_predicates: None,
            object_alias: None,
            outline_hints: Vec::new(),
            qblock_name: None,
            cardinality_ratio_x100: 100,
            buffer_pct_x100: 0,
            is_bottleneck: false,
            bottleneck_tags: Vec::new(),
            children: Vec::new(),
        };
        assert(strings_view(r.outline_hints@) =~= Seq::<Seq<char>>::empty());
        assert(strings_view(r.bottleneck_tags@) =~= Seq::<Seq<char>>::empty());
        assert(r@.children =~= Seq::<PlanNodeView>::empty());
        r
    }
}

// ---------------------------------------------------------------------------
// Query results and structure
// ---------------------------------------------------------------------------

/// The outcome of running a statement; `elapsed_us` in microseconds.
pub struct QueryResult {
    pub columns: Vec<String>,
    pub rows: Vec<Vec<String>>,
    pub elapsed_us: u64,
    pub row_count: usize,
    pub sql_id: Option<String>,
    pub child_number: Option<i32>,
    pub plan_hash_value: Option<u64>,
    pub message: Option<String>,
}

/// A query result as a mathematical value.
pub struct QueryResultView {
    pub columns: Seq<Seq<char>>,
    pub rows: Seq<Seq<Seq<char>>>,
    pub elapsed_us: u64,
    pub row_count: usize,
    pub sql_id: Option<Seq<char>>,
    pub child_number: Option<i32>,
    pub plan_hash_value: Option<u64>,
    pub message: Option<Seq<char>>,
}

pub open spec fn rows_view(rows: Seq<Vec<String>>) -> Seq<Seq<Seq<char>>> {
    rows.map_values(|r: Vec<String>| strings_view(r@))
}

impl View for QueryResult {
    type V = QueryResultView;

    open spec fn view(&self) -> QueryResultView {
        QueryResultView {
            columns: strings_view(self.columns@),
            rows: rows_view(self.rows@),
            elapsed_us: self.elapsed_us,
            row_count: self.row_count,
            sql_id: opt_view(self.sql_id),
            child_number: self.child_number,
            plan_hash_value: self.plan_hash_value,
            message: opt_view(self.message),
        }
    }
}

pub fn copy_rows(v: &Vec<Vec<String>>) -> (r: Vec<Vec<String>>)
    ensures
        rows_view(r@) == rows_view(v@),
{
    let mut r: Vec<Vec<String>> = Vec::new();
    let mut i: usize = 0;
    while i < v.len()
        invariant
            0 <= i <= v.len(),
            rows_view(r@) == rows_view(v@).take(i as int),
        decreases v.len() - i,
    {
        let ghost before = rows_view(r@);
        r.push(copy_strings(&v[i]));
        assert(rows_view(r@) =~= before.push(strings_view(v@[i as int]@)));
        i += 1;
        assert(rows_view(r@) =~= rows_view(v@).take(i as int));
    }
    assert(rows_view(v@).take(v.len() as int) =~= rows_view(v@));
    r
}

impl QueryResult {
    pub fn copy(&self) -> (r: QueryResult)
        ensures
            r@ == self@,
    {
        QueryResult {
            columns: copy_strings(&self.columns),
            rows: copy_rows(&self.rows),
            elapsed_us: self.elapsed_us,
            row_count: self.row_count,
            sql_id: copy_opt(&self.sql_id),
            child_number: self.child_number,
            plan_hash_value: self.plan_hash_value,
            message: copy_opt(&self.message),
        }
    }
}


pub struct TableRef {
    pub name: String,
    pub alias: Option<String>,
    pub join_type: String,
    pub join_condition: Option<String>,
}

pub struct QueryStructure {
    pub ctes: Vec<String>,
    pub tables: Vec<TableRef>,
    pub filters: Vec<String>,
}

pub struct TableRefView {
    pub name: Seq<char>,
    pub alias: Option<Seq<char>>,
    pub join_type: Seq<char>,
    pub join_condition: Option<Seq<char>>,
}

impl View for TableRef {
    type V = TableRefView;

    open spec fn view(&self) -> TableRefView {
        TableRefView {
            name: self.name@,
            alias: opt_view(self.alias),
            join_type: self.join_type@,
            join_condition: opt_view(self.join_condition),
        }
    }
}

pub open spec fn tables_view(v: Seq<TableRef>) -> Seq<TableRefView> {
    v.map_values(|t: TableRef| t@)
}

pub struct QueryStructureView {
    pub ctes: Seq<Seq<char>>,
    pub tables: Seq<TableRefView>,
    pub filters: Seq<Seq<char>>,
}

impl View for QueryStructure {
    type V = QueryStructureView;

    open spec fn view(&self) -> QueryStructureView {
        QueryStructureView {
            ctes: strings_view(self.ctes@),
            tables: tables_view(self.tables@),
            filters: strings_view(self.filters@),
        }
    }
}

pub struct SampleQuery {
    pub title: String,
    pub description: String,
    pub sql: String,
}

} // verus!
