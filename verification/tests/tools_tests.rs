use flipsy::analysis::{
    analyze_query_structure, column_of_hits, cte_names_of, filters_of_parts, generate_bind_extraction_query,
    table_of_groups, tables_of_clauses,
};
use flipsy::models::ConnectionConfig;
use flipsy::tns::TnsManager;
use flipsy::views::{
    format_count, millis_label, percent_label, ratio_label, server_initial, workspace_step, BottomTab, EditorView, ServerListView,
    SessionCall, TnsEditorView, WorkspaceEvent,
};

#[test]
fn structure_finds_ctes() {
    let s = analyze_query_structure("WITH recent AS (select 1 from dual), Other as(select 2) SELECT * FROM recent");
    assert_eq!(s.ctes, vec!["recent", "Other"]);
}

#[test]
fn extraction_query_reads_filter_columns() {
    assert_eq!(generate_bind_extraction_query("select 1 from dual"), None);
    let q = generate_bind_extraction_query("select * from t where d >= :b_start_dt and g = :grade and p = :promo_cd and x = :other").unwrap();
    assert_eq!(q, "SELECT DISTINCT\n       d AS b_start_dt,\n       g AS grade,\n       p AS promo_cd,\n       x AS other\n  FROM t\n WHERE ROWNUM <= 5;");
}

#[test]
fn extraction_query_falls_back_to_names() {
    let q = generate_bind_extraction_query("select * from t where f(:b_start_dt, :grade, :promo_cd, :other) = 1").unwrap();
    assert!(q.starts_with("SELECT DISTINCT\n       "));
    assert!(q.ends_with("\n WHERE ROWNUM <= 5;"));
    assert!(q.contains("ORD_DATE AS b_start_dt"));
    assert!(q.contains("CUST_GRADE AS grade"));
    assert!(q.contains("PROMO_TYPE AS promo_cd"));
    assert!(q.contains("other AS other"));
}

#[test]
fn structure_finds_tables_joins_and_filters() {
    let s = analyze_query_structure("SELECT * FROM orders o JOIN items i ON o.id = i.oid LEFT JOIN cust c ON c.id = o.cid WHERE o.x = 1 AND i.y > 2 ORDER BY 1");
    let t: Vec<(&str, Option<&str>, &str, Option<&str>)> = s.tables.iter()
        .map(|t| (t.name.as_str(), t.alias.as_deref(), t.join_type.as_str(), t.join_condition.as_deref()))
        .collect();
    assert_eq!(t, vec![
        ("orders", Some("o"), "FROM", None),
        ("items", Some("i"), "JOIN", Some("o.id = i.oid")),
        ("cust", Some("c"), "LEFT JOIN", Some("c.id = o.cid")),
    ]);
    assert_eq!(s.filters, vec!["o.x = 1", "i.y > 2"]);
}

#[test]
fn counts_get_thousands_separators() {
    assert_eq!(format_count(0), "0");
    assert_eq!(format_count(999), "999");
    assert_eq!(format_count(1000), "1,000");
    assert_eq!(format_count(15_000_000), "15,000,000");
    assert_eq!(format_count(u64::MAX), "18,446,744,073,709,551,615");
}

#[test]
fn plan_figures_round_half_to_even() {
    assert_eq!(millis_label(0), "0.00");
    assert_eq!(millis_label(12345), "12.34");
    assert_eq!(millis_label(12355), "12.36");
    assert_eq!(millis_label(1_500_000), "1500.00");
    assert_eq!(ratio_label(1449), "14");
    assert_eq!(ratio_label(1550), "16");
    assert_eq!(ratio_label(1450), "14");
    assert_eq!(percent_label(3000), "30.0");
    assert_eq!(percent_label(4255), "42.6");
    assert_eq!(percent_label(4245), "42.4");
}

#[test]
fn workspace_requests_pick_pane_and_call() {
    assert_eq!(workspace_step(BottomTab::PlanTree, true, WorkspaceEvent::RunSql), (BottomTab::Grid, SessionCall::ExecuteSql));
    assert_eq!(workspace_step(BottomTab::Grid, true, WorkspaceEvent::ExplainSql), (BottomTab::PlanTree, SessionCall::ExplainSql));
    assert_eq!(workspace_step(BottomTab::PlanTree, false, WorkspaceEvent::RunCustomSql), (BottomTab::Grid, SessionCall::ExecuteCustomSql));
    assert_eq!(workspace_step(BottomTab::Grid, false, WorkspaceEvent::PlanTab), (BottomTab::PlanTree, SessionCall::ExplainSql));
    assert_eq!(workspace_step(BottomTab::Grid, true, WorkspaceEvent::PlanTab), (BottomTab::PlanTree, SessionCall::Nothing));
    assert_eq!(workspace_step(BottomTab::PlanTree, false, WorkspaceEvent::GridTab), (BottomTab::Grid, SessionCall::Nothing));
    assert_eq!(workspace_step(BottomTab::PlanTree, false, WorkspaceEvent::BackToServers), (BottomTab::PlanTree, SessionCall::Disconnect));
}

const TNS: &str = "# servers\nDEV =\n  (DESCRIPTION =\n    (ADDRESS = (PROTOCOL = TCP)(HOST = dev.local)(PORT = 1522))\n    (CONNECT_DATA = (SERVICE_NAME = devpdb))\n  )\n\nLEGACY = (DESCRIPTION = (ADDRESS = (HOST = old)(PORT = x))(CONNECT_DATA = (SID = ORCL)))\nBARE =\n";

#[test]
fn tns_entries_are_parsed() {
    let e = TnsManager::parse_tns(TNS);
    assert_eq!(e.len(), 3);
    assert_eq!((e[0].alias.as_str(), e[0].host.as_str(), e[0].port, e[0].service_name.as_str()), ("DEV", "dev.local", 1522, "devpdb"));
    assert_eq!((e[1].alias.as_str(), e[1].host.as_str(), e[1].port, e[1].service_name.as_str()), ("LEGACY", "old", 1521, "ORCL"));
    assert_eq!((e[2].alias.as_str(), e[2].host.as_str(), e[2].port, e[2].service_name.as_str()), ("BARE", "127.0.0.1", 1521, "BARE"));
}

#[test]
fn tns_manager_save_and_reload() {
    let mut m = TnsManager::new(None);
    assert!(m.entries.is_empty() && m.raw_content.is_empty());
    assert_eq!(m.file_path, "C:\\project\\flipsy\\tnsnames.ora");
    assert!(m.save(TNS, Ok(())).is_ok());
    assert_eq!(m.entries.len(), 3);
    assert_eq!(m.save("X = (HOST = y)", Err("denied".to_string())), Err("tnsnames.ora 저장 실패: denied".to_string()));
    assert_eq!(m.raw_content, TNS);
    m.reload(Some("A =\n (HOST = a)\n".to_string()));
    assert_eq!(m.entries.len(), 1);
}

#[test]
fn editor_views() {
    let mut e = EditorView::new();
    assert!(e.sql.starts_with("SELECT /*+ GATHER_PLAN_STATISTICS */"));
    e.sql = "select a from b".to_string();
    e.format();
    assert_eq!(e.sql, "SELECT a\n  FROM b");
    e.toggle_bind_panel();
    assert!(e.show_bind_panel && !e.copied_feedback);

    let mut m = TnsManager::new(Some(TNS.to_string()));
    let mut t = TnsEditorView::new(&m);
    assert_eq!(t.content, TNS);
    t.content = "ONE = (HOST = h)".to_string();
    t.save(&mut m, Ok(()));
    assert_eq!(t.status_message.as_deref(), Some("저장 완료! (총 1개 서버 인식)"));
    t.content = "x".to_string();
    t.revert(&m);
    assert_eq!(t.content, "ONE = (HOST = h)");
    assert_eq!(t.status_message.as_deref(), Some("파일 내용을 다시 불러왔습니다."));

    let list = ServerListView::new(m);
    assert_eq!(list.username_input, "SCOTT");
    let entry = list.tns_manager.entries[0].copy();
    let c: ConnectionConfig = list.login_config(&entry);
    assert_eq!((c.alias.as_str(), c.host.as_str(), c.username.as_str(), c.password.as_str()), ("ONE", "h", "SCOTT", "tiger"));
}

#[test]
fn login_dialog_opens_and_closes() {
    let m = TnsManager::new(Some(TNS.to_string()));
    let mut list = ServerListView::new(m);
    list.error_message = Some("old".to_string());
    let entry = list.tns_manager.entries[1].copy();
    list.select_server(&entry);
    assert_eq!(list.login_target.as_ref().map(|t| t.alias.as_str()), Some("LEGACY"));
    assert!(list.error_message.is_none());
    list.error_message = Some("ORA-01017".to_string());
    list.close_login();
    assert!(list.login_target.is_none() && list.error_message.is_none());
    assert_eq!(list.username_input, "SCOTT");
}

#[test]
fn server_badges() {
    assert_eq!(server_initial("DEV"), "DE");
    assert_eq!(server_initial("DB"), "DB");
    assert_eq!(server_initial("X"), "X");
    assert_eq!(server_initial(""), "");
}

#[test]
fn tns_keys_are_read_only_as_parameter_names() {
    let e = TnsManager::parse_tns("REPORTDB = (DESCRIPTION = (ADDRESS = (HOST = h1)(PORT = 1522))(CONNECT_DATA = (SERVICE_NAME = svc)))");
    assert_eq!(e.len(), 1);
    assert_eq!((e[0].alias.as_str(), e[0].host.as_str(), e[0].port, e[0].service_name.as_str()), ("REPORTDB", "h1", 1522, "svc"));
    let e = TnsManager::parse_tns("HOSTSID = ( DESCRIPTION = ( ADDRESS = ( host = h2 )( port = 1600 ) ) ( CONNECT_DATA = ( sid = ORCL ) ) )");
    assert_eq!((e[0].host.as_str(), e[0].port, e[0].service_name.as_str()), ("h2", 1600, "ORCL"));
}

#[test]
fn login_outcome_opens_workspace_or_shows_error() {
    let mut list = ServerListView::new(TnsManager::new(Some(TNS.to_string())));
    let entry = list.tns_manager.entries[0].copy();
    list.select_server(&entry);
    assert!(list.login_outcome(Err("ORA-01017".to_string())).is_none());
    assert_eq!(list.error_message.as_deref(), Some("ORA-01017"));
    assert!(list.login_target.is_some());
    let (ed, tab) = list.login_outcome(Ok(())).unwrap();
    assert_eq!(ed.sql, "SELECT banner FROM v$version;");
    assert_eq!(tab, BottomTab::Grid);
    assert!(list.login_target.is_none() && list.error_message.is_none());
}

#[test]
fn counts_group_digits_by_three() {
    for n in [0u64, 7, 999, 1000, 65_536, 1_234_567, 1_000_000_000, u64::MAX] {
        let s = format_count(n);
        assert_eq!(s.replace(",", ""), n.to_string());
        let g: Vec<&str> = s.split(',').collect();
        assert!(!g[0].is_empty() && g[0].len() <= 3);
        assert!(g[1..].iter().all(|x| x.len() == 3));
    }
}

fn groups(g: &[Option<&str>]) -> Vec<Option<String>> {
    g.iter().map(|x| x.map(|s| s.to_string())).collect()
}

#[test]
fn analysis_from_regex_groups() {
    let caps = vec![groups(&[Some("x AS ("), Some("recent")]), groups(&[Some("SELECT AS ("), Some("select")])];
    assert_eq!(cte_names_of(&caps), vec!["recent"]);

    let t = table_of_groups(&groups(&[None, Some("left   join"), Some("cust"), Some("c"), Some("  c.id = o.cid ")])).unwrap();
    assert_eq!((t.name.as_str(), t.alias.as_deref(), t.join_type.as_str(), t.join_condition.as_deref()),
        ("cust", Some("c"), "LEFT JOIN", Some("c.id = o.cid")));
    assert!(table_of_groups(&groups(&[None, Some("FROM"), Some("where"), None, None])).is_none());
    let on_alias = table_of_groups(&groups(&[None, Some("JOIN"), Some("t"), Some("ON"), None])).unwrap();
    assert_eq!(on_alias.alias, None);

    let keys = vec![groups(&[Some("FROM"), Some("FROM")]), groups(&[Some("WHERE"), Some("WHERE")]), groups(&[Some("JOIN"), Some("JOIN")])];
    let srcs = vec![Some(groups(&[Some(" a x"), Some("a"), Some("x"), None])), Some(groups(&[Some(" b"), Some("b"), None, None]))];
    let ts = tables_of_clauses(&keys, &srcs);
    assert_eq!(ts.len(), 1);
    assert_eq!((ts[0].name.as_str(), ts[0].alias.as_deref()), ("a", Some("x")));

    let parts = vec![" a = 1 ".to_string(), "   ".to_string(), "b < 2".to_string()];
    assert_eq!(filters_of_parts(&parts), vec!["a = 1", "b < 2"]);

    let hits = vec![(None, None), (None, Some(Some("ord_date".to_string()))), (Some(Some("late".to_string())), None)];
    assert_eq!(column_of_hits(&hits), Some("ord_date".to_string()));
    assert_eq!(column_of_hits(&vec![(Some(None), Some(Some("x".to_string())))]), None);
    assert_eq!(column_of_hits(&vec![]), None);
}

