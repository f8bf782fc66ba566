use flipsy::mock::MockEngine;
use flipsy::models::{ConnectionConfig, PlanNode};
use flipsy::session::{plan_meta_step, sqlplus_outcome, DatabaseSession, ExecutionResult, ListenerProbe, LiveRun, QueryProgressTracker};

fn config(host: &str, svc: &str, user: &str) -> ConnectionConfig {
    ConnectionConfig {
        alias: "DEV".to_string(),
        host: host.to_string(),
        port: 1521,
        service_name: svc.to_string(),
        username: user.to_string(),
        password: "pw".to_string(),
    }
}

const XPLAN: &str = "Plan hash value: 3956160932

--------------------------------------------------------------------------
| Id  | Operation          | Name | Rows  | Bytes | Cost (%CPU)| Time     |
--------------------------------------------------------------------------
|   0 | SELECT STATEMENT   |      |    14 |   532 |     3   (0)| 00:00:01 |
|*  1 |  TABLE ACCESS FULL | EMP  |    14 |   532 |     3   (0)| 00:00:01 |
--------------------------------------------------------------------------

Query Block Name / Object Alias (identified by operation id):
-------------------------------------------------------------
   1 - SEL$1 / \"E\"@\"SEL$1\"

Outline Data
-------------
  /*+
      BEGIN_OUTLINE_DATA
      FULL(@\"SEL$1\" \"E\"@\"SEL$1\")
      END_OUTLINE_DATA
  */

Predicate Information (identified by operation id):
---------------------------------------------------
   1 - filter(\"E\".\"SAL\">1000)

Note
-----
   - sql_id: abc123xyz
";

#[test]
fn tracker_counts_lines_until_cancelled() {
    let mut t = QueryProgressTracker::new();
    let mut out: Vec<char> = Vec::new();
    assert!(t.take_line(&mut out, "a,b\n", 4).is_ok());
    assert!(t.take_line(&mut out, "c\n", 2).is_ok());
    assert_eq!(t.bytes_read, 6);
    assert_eq!(t.rows_read, 2);
    assert_eq!(out.iter().collect::<String>(), "a,b\nc\n");
    t.cancel();
    assert_eq!(t.take_line(&mut out, "d\n", 2), Err("사용자에 의해 쿼리 실행이 중단되었습니다.".to_string()));
    assert_eq!(t.rows_read, 2);
}

#[test]
fn sqlplus_outcome_collects_error_lines() {
    assert_eq!(sqlplus_outcome(true, "fine\n", ""), Ok("fine\n".to_string()));
    assert_eq!(
        sqlplus_outcome(true, "ERROR:\nORA-01017: invalid username\n  SP2-0751: x \n", "ORA-1: y"),
        Err("ORA-01017: invalid username SP2-0751: x ORA-1: y".to_string())
    );
    assert_eq!(sqlplus_outcome(false, "  boom  \n", "warn"), Err("boom".to_string()));
}

#[test]
fn csv_output_becomes_columns_and_rows() {
    let (cols, rows) = DatabaseSession::parse_csv_output(
        "\"ID\",\"NAME\"\n\"1\",\"A, \"\"x\"\"\"\n\n\"2\"\n 3 , B \n2 rows selected.\n",
    );
    assert_eq!(cols, vec!["ID", "NAME"]);
    assert_eq!(rows, vec![vec!["1".to_string(), "A, \"x\"".to_string()], vec!["3".to_string(), "B".to_string()]]);
    assert_eq!(DatabaseSession::parse_csv_line(" a ,\"b,c\", "), vec!["a", "b,c", ""]);
    let (c2, r2) = DatabaseSession::parse_csv_output("");
    assert!(c2.is_empty() && r2.is_empty());
}

#[test]
fn scripts_and_connection_string() {
    let c = config("db.local", "FREEPDB1", "SCOTT");
    assert_eq!(DatabaseSession::connection_string(&c), "SCOTT/pw@db.local:1521/FREEPDB1");
    assert_eq!(
        DatabaseSession::query_script("  select 1 from dual;; "),
        "SET MARKUP CSV ON QUOTE ON\nSET HEADING ON\nSET FEEDBACK OFF\nSET PAGESIZE 50000\nSET LINESIZE 32767\nselect 1 from dual;\nEXIT;\n"
    );
    assert!(DatabaseSession::plan_script("select 1 from dual;").starts_with("EXPLAIN PLAN FOR select 1 from dual;\nSET PAGESIZE 50000"));
    assert_eq!(DatabaseSession::probe_script(), "SELECT banner FROM v$version WHERE ROWNUM = 1;\nEXIT;\n");
}

#[test]
fn listener_probe_outcomes() {
    let c = config("db.local", "FREEPDB1", "SCOTT");
    assert_eq!(DatabaseSession::listener_address(&c), "db.local:1521");
    assert_eq!(DatabaseSession::check_listener(&c, ListenerProbe::Reached), Ok(()));
    assert_eq!(
        DatabaseSession::check_listener(&c, ListenerProbe::Refused("connection refused".to_string())),
        Err("오라클 리스너(db.local:1521)에 접속할 수 없습니다: connection refused\n(Docker 컨테이너 및 1521 포트 상태를 확인하세요)".to_string())
    );
    assert_eq!(
        DatabaseSession::check_listener(&c, ListenerProbe::NoAddress),
        Err("호스트 주소를 확인할 수 없습니다: db.local:1521".to_string())
    );
    assert_eq!(
        DatabaseSession::check_listener(&c, ListenerProbe::BadAddress("invalid".to_string())),
        Err("올바르지 않은 호스트 주소입니다(db.local:1521): invalid".to_string())
    );
}

#[test]
fn connect_requires_host_service_and_user() {
    let mut s = DatabaseSession::new();
    let r = s.connect(config("", "SVC", "U"), Ok(String::new()));
    assert_eq!(r, Err("호스트, 서비스 이름, 사용자명은 필수 입력 항목입니다.".to_string()));
    assert!(!s.is_connected);
    assert_eq!(s.config.host, "127.0.0.1");
}

#[test]
fn connect_reads_banner_or_falls_back() {
    let mut s = DatabaseSession::new();
    assert!(s.connect(config("h", "S", "U"), Ok("\n  Oracle AI Database 26ai Free  \nEXIT\n".to_string())).is_ok());
    assert!(s.is_connected && s.is_real_oracle);
    assert_eq!(s.db_version, "Oracle AI Database 26ai Free");

    let mut s2 = DatabaseSession::new();
    assert!(s2.connect(config("h", "S", "U"), Ok("no banner".to_string())).is_ok());
    assert_eq!(s2.db_version, "Oracle AI Database 26ai Free Release 23.26.3.0.0");

    let mut s3 = DatabaseSession::new();
    assert!(s3.connect(config("h", "S", "U"), Err("docker missing".to_string())).is_ok());
    assert!(s3.is_connected && !s3.is_real_oracle);
    assert_eq!(s3.db_version, "Oracle 26ai (Simulated Engine)");

    let mut s4 = DatabaseSession::new();
    let r = s4.connect(config("h", "S", "U"), Err("ORA-01017: invalid".to_string()));
    assert_eq!(r, Err("오라클 접속 실패: ORA-01017: invalid".to_string()));
    assert!(!s4.is_connected);
}

#[test]
fn disconnect_forgets_results() {
    let mut s = DatabaseSession::new();
    s.connect(config("h", "S", "U"), Err("offline".to_string())).unwrap();
    s.execute("select 1 from dual", None);
    assert!(s.last_query_result.is_some());
    s.disconnect();
    assert!(!s.is_connected && s.last_query_result.is_none() && s.last_plan.is_none());
    assert!(s.last_sql_id.is_none() && s.last_plan_hash.is_none() && s.db_version.is_empty());
    assert_eq!(s.config.host, "h");
}

#[test]
fn simulated_execute_uses_the_mock_engine() {
    let mut s = DatabaseSession::new();
    let r = s.execute("select * from tb_center_inventory", None);
    assert_eq!(r.row_count, 150_000);
    assert_eq!(r.rows.len(), 8);
    assert_eq!(r.elapsed_us, 1_722_450);
    assert_eq!(s.last_plan_hash, Some(272002086));
    assert_eq!(s.last_sql_id.as_deref(), Some("mock_ora26ai"));
    let plan = s.last_plan.as_ref().unwrap();
    assert_eq!(plan.len(), 1);
    assert_eq!(plan[0].operation, "SELECT STATEMENT");
    assert_eq!(plan[0].children[0].children.len(), 2);
}

#[test]
fn live_execute_keeps_rows_and_plan() {
    let mut s = DatabaseSession::new();
    s.connect(config("h", "FREEPDB1", "SCOTT"), Ok("Oracle X".to_string())).unwrap();
    let live = LiveRun {
        query_output: Ok("\"A\"\n\"1\"\n\"2\"\n".to_string()),
        plan_output: Some(XPLAN.to_string()),
        elapsed_us: 12_345,
    };
    let r = s.execute("select a from t;", Some(live));
    assert_eq!(r.columns, vec!["A"]);
    assert_eq!(r.row_count, 2);
    assert_eq!(r.message.as_deref(), Some("● Oracle 26ai Live (SCOTT@FREEPDB1) - 2 rows in 12.34ms"));
    assert_eq!(s.last_plan_hash, Some(3956160932));
    assert_eq!(s.last_sql_id.as_deref(), Some("abc123xyz"));
    assert_eq!(s.last_plan.as_ref().unwrap().len(), 2);

    let err = s.execute("bad", Some(LiveRun { query_output: Err("ORA-00900".to_string()), plan_output: None, elapsed_us: 5 }));
    assert_eq!(err.columns, vec!["ERROR"]);
    assert_eq!(err.rows, vec![vec!["ORA-00900".to_string()]]);
    assert_eq!(err.message.as_deref(), Some("Oracle Error: ORA-00900"));
    assert_eq!(s.last_plan_hash, Some(3956160932));
}

#[test]
fn explain_keeps_live_plan_or_mock_plan() {
    let mut s = DatabaseSession::new();
    s.explain("select 1 from dual", Some(XPLAN.to_string()));
    assert_eq!(s.last_plan_hash, Some(272002086));
    assert_eq!(s.last_plan.as_ref().unwrap()[0].children[0].operation, "FAST DUAL");

    s.connect(config("h", "S", "U"), Ok(String::new())).unwrap();
    s.explain("select * from emp", Some(XPLAN.to_string()));
    assert_eq!(s.last_plan_hash, Some(3956160932));
    s.explain("select * from emp", Some("nothing here".to_string()));
    assert_eq!(s.last_sql_id.as_deref(), Some("mock_ora26ai"));
}

#[test]
fn xplan_meta_is_read() {
    let (nodes, hash, sql_id) = DatabaseSession::parse_xplan_with_meta(XPLAN);
    assert_eq!(hash, Some(3956160932));
    assert_eq!(sql_id.as_deref(), Some("abc123xyz"));
    assert_eq!(nodes.len(), 2);
    let full = &nodes[1];
    assert_eq!(full.operation, "TABLE ACCESS");
    assert_eq!(full.options.as_deref(), Some("FULL"));
    assert_eq!(full.object_name.as_deref(), Some("EMP"));
    assert_eq!(full.parent_id, Some(0));
    assert_eq!(full.position, 2);
    assert_eq!(full.e_rows, 14);
    assert_eq!(full.cost, Some(3));
    assert_eq!(full.buffers, 9);
    assert!(full.is_bottleneck);
    assert_eq!(full.bottleneck_tags, vec!["Table Full Scan"]);
    assert_eq!(full.filter_predicates.as_deref(), Some("\"E\".\"SAL\">1000"));
    assert_eq!(full.object_alias.as_deref(), Some("\"E\"@\"SEL$1\""));
    assert_eq!(full.qblock_name.as_deref(), Some("SEL$1"));
    assert_eq!(full.outline_hints, vec!["FULL(@\"SEL$1\" \"E\"@\"SEL$1\")"]);
    assert_eq!(DatabaseSession::parse_xplan_output(XPLAN).len(), 2);
}

#[test]
fn background_results() {
    let e = ExecutionResult::explained(Ok(XPLAN.to_string()), 2_000);
    assert_eq!(e.plan_hash, Some(3956160932));
    assert_eq!(e.query_result.row_count, 2);
    assert_eq!(e.query_result.columns, vec!["PLAN_TABLE_OUTPUT"]);
    assert_eq!(e.query_result.message.as_deref(), Some("Oracle 26ai Explain 성공 (2.00ms)"));
    let bad = ExecutionResult::explained(Err("x".to_string()), 1);
    assert_eq!(bad.query_result.message.as_deref(), Some("Explain 오류: x"));

    let c = config("h", "S", "U");
    let f = ExecutionResult::fetched(&c, Ok("\"A\"\n\"1\"\n".to_string()), None, 1_005, 2_097_152);
    assert_eq!(f.query_result.message.as_deref(), Some("Oracle 26ai Live (U@S) - 1건 인출 (2.00 MB) in 1.00ms"));
    assert!(f.plan_nodes.is_none());
    let g = ExecutionResult::fetched(&c, Ok("\"A\"\n".to_string()), Some("x".to_string()), 0, 1_536);
    assert_eq!(g.query_result.message.as_deref(), Some("Oracle 26ai Live (U@S) - 0건 인출 (1.5 KB) in 0.00ms"));
    assert_eq!(g.sql_id.as_deref(), Some("ora26ai_live"));
    let h = ExecutionResult::fetched(&c, Err("ORA-1".to_string()), None, 0, 0);
    assert_eq!(h.query_result.message.as_deref(), Some("실행 오류: ORA-1"));

    let m = ExecutionResult::simulated("select 1 from dual");
    assert_eq!(m.query_result.rows, vec![vec!["CONNECTED".to_string(), "2026-09-20 09:35:00".to_string(), "ORCL19C_PDB1".to_string()]]);
    assert_eq!(m.sql_id.as_deref(), Some("mock_ora26ai"));
}

#[test]
fn mock_engine_answers() {
    let (r, plan) = MockEngine::execute("  select * from move ORDERs ");
    assert_eq!(r.sql_id.as_deref(), Some("8w7qm1zfk5u1x"));
    assert_eq!(plan[0].id, 0);
    let (d, dplan) = MockEngine::execute("select sysdate from dual");
    assert_eq!(d.row_count, 1);
    assert_eq!(dplan[0].children[0].operation, "FAST DUAL");
    assert_eq!(d.elapsed_us, 850);
}

fn node(id: i32, parent: Option<i32>, position: i32) -> PlanNode {
    let mut n = PlanNode::default();
    n.id = id;
    n.parent_id = parent;
    n.position = position;
    n
}

#[test]
fn build_tree_nests_and_orders() {
    let flat = vec![node(3, Some(1), 2), node(0, None, 0), node(1, Some(0), 1), node(2, Some(1), 1), node(9, None, 0)];
    let tree = MockEngine::build_tree(flat);
    assert_eq!(tree.iter().map(|n| n.id).collect::<Vec<_>>(), vec![0, 9]);
    assert_eq!(tree[0].children[0].id, 1);
    assert_eq!(tree[0].children[0].children.iter().map(|n| n.id).collect::<Vec<_>>(), vec![2, 3]);
}

#[test]
fn filters_keep_their_own_parentheses() {
    let x = XPLAN.replace(
        "   1 - filter(\"E\".\"SAL\">1000)",
        "   1 - filter(A=1)\n   1 - filter(UPPER(X))\n   1 - access(F(\"E\".\"ID\"))",
    );
    let nodes = DatabaseSession::parse_xplan_output(&x);
    let n = nodes.iter().find(|n| n.id == 1).unwrap();
    assert_eq!(n.filter_predicates.as_deref(), Some("A=1 AND UPPER(X)"));
    assert_eq!(n.access_predicates.as_deref(), Some("F(\"E\".\"ID\")"));
}

#[test]
fn csv_quoted_fields_read_back() {
    let fields = vec!["a", "b\"c", "", "x, y", "\"\""];
    let line = fields.iter().map(|f| format!("\"{}\"", f.replace('"', "\"\""))).collect::<Vec<_>>().join(",");
    assert_eq!(DatabaseSession::parse_csv_line(&line), fields);
}

#[test]
fn plan_meta_from_lines_and_groups() {
    assert_eq!(plan_meta_step(None, None, "Plan hash value: 3956160932", None), (Some(3956160932), None));
    assert_eq!(plan_meta_step(Some(1), None, "Plan hash value: x", None), (Some(1), None));
    let caps = Some(vec![Some("sql_id: abc123".to_string()), Some("abc123".to_string())]);
    assert_eq!(plan_meta_step(Some(1), None, "- sql_id: abc123", caps), (Some(1), Some("abc123".to_string())));
    assert_eq!(plan_meta_step(Some(1), Some("old".to_string()), "- sql_id: abc123", None), (Some(1), Some("old".to_string())));
    assert_eq!(plan_meta_step(Some(1), Some("old".to_string()), "other line", Some(vec![])), (Some(1), Some("old".to_string())));
}

