use flipsy::binds::{bind_literal, default_bind_value, extract_bind_variables, substitute_bind_variables};
use flipsy::sqlfmt::format_sql;

#[test]
fn test_format_sql_idempotent() {
    let sql = "SELECT banner FROM v$version;";
    let f1 = format_sql(sql);
    let f2 = format_sql(&f1);
    let f3 = format_sql(&f2);
    assert_eq!(f1, f2);
    assert_eq!(f2, f3);
    assert_eq!(f1, "SELECT banner\n  FROM v$version;");
}

#[test]
fn test_complex_sql_no_identifier_corruption() {
    let complex_sql = "WITH ORDER_SUMMARY AS ( SELECT O.ORD_ID, O.ORD_DATE, D.ORD_QTY, B.ON_HAND_QTY, ROW_NUMBER() OVER(PARTITION BY D.ITEM_CD ORDER BY D.PAID_AMT DESC) AS ITEM_SALES_RANK FROM TB_ORD_MST O JOIN TB_ORD_DTL D ON O.ORD_ID = D.ORD_ID WHERE O.ORD_DATE >= TO_DATE(:b_start_dt, 'YYYY-MM-DD') AND O.ORD_STATUS IN ('PAY_COMPLETED', 'DELIVERED') AND (:b_cust_grade IS NULL OR C.CUST_GRADE = :b_cust_grade) ) SELECT TPI.PROMO_NM, I.ITEM_CD FROM ORDER_SUMMARY;";
    let formatted = format_sql(complex_sql);

    assert!(!formatted.contains("OR D_ID"), "O.ORD_ID was wrongly corrupted to OR D_ID");
    assert!(!formatted.contains("OR D_DATE"), "O.ORD_DATE was wrongly corrupted to OR D_DATE");
    assert!(!formatted.contains("OR DER_SUMMARY"), "ORDER_SUMMARY was wrongly corrupted to OR DER_SUMMARY");
    assert!(!formatted.contains("ON _HAND_QTY"), "B.ON_HAND_QTY was wrongly corrupted to ON _HAND_QTY");
    assert!(formatted.contains("ORDER_SUMMARY AS"), "ORDER_SUMMARY AS must remain intact");
    assert!(formatted.contains("O.ORD_ID"), "O.ORD_ID must remain intact");
    assert!(formatted.contains("B.ON_HAND_QTY"), "B.ON_HAND_QTY must remain intact");

    let formatted2 = format_sql(&formatted);
    assert_eq!(formatted, formatted2, "Formatting must be idempotent");
}

#[test]
fn test_extract_and_substitute_bind_variables() {
    let sql = r#"
            WHERE O.ORD_DATE >= TO_DATE(:b_start_dt, 'YYYY-MM-DD')
              AND O.ORD_DATE <  TO_DATE(:b_end_dt, 'YYYY-MM-DD')
              AND (:b_cust_grade IS NULL OR C.CUST_GRADE = :b_cust_grade)
              AND P.PROMO_TYPE = :b_promo_type
        "#;

    let binds = extract_bind_variables(sql);
    assert_eq!(binds, vec!["b_start_dt", "b_end_dt", "b_cust_grade", "b_promo_type"]);

    let vals = vec![
        ("b_start_dt".to_string(), "2025-04-01".to_string()),
        ("b_end_dt".to_string(), "2025-07-01".to_string()),
        ("b_cust_grade".to_string(), "VIP".to_string()),
        ("b_promo_type".to_string(), "FLASH_SALE".to_string()),
    ];

    let substituted = substitute_bind_variables(sql, &vals);
    assert!(!substituted.contains(":b_start_dt"));
    assert!(!substituted.contains(":b_end_dt"));
    assert!(!substituted.contains(":b_cust_grade"));
    assert!(!substituted.contains(":b_promo_type"));
    assert!(substituted.contains("'2025-04-01'"));
    assert!(substituted.contains("'2025-07-01'"));
    assert!(substituted.contains("'VIP'"));
    assert!(substituted.contains("'FLASH_SALE'"));
}

#[test]
fn format_breaks_clauses_and_aligns_columns() {
    let f = format_sql("select a, b from t where x = 1 and y = 2 order by a");
    assert_eq!(f, "SELECT a,\n       b\n  FROM t\n WHERE x = 1\n   AND y = 2\n ORDER BY a");
}

#[test]
fn format_of_blank_text_is_empty() {
    assert_eq!(format_sql("   \n\t "), "");
    assert_eq!(format_sql(""), "");
}

#[test]
fn format_keeps_comments_and_literals() {
    let f = format_sql("select 'a  b' -- note\nfrom dual");
    assert_eq!(f, "SELECT 'a  b'\n-- note\n  FROM dual");
    assert_eq!(format_sql(&f), f);
}

#[test]
fn format_inline_conditions_stay_inline() {
    let f = format_sql("select * from t where (a = 1 or b = 2)");
    assert_eq!(f, "SELECT *\n  FROM t\n WHERE(a = 1 or b = 2)");
}

#[test]
fn format_subquery_is_indented() {
    let f = format_sql("select a from (select b from c)");
    assert_eq!(f, "SELECT a\n  FROM(\n    SELECT b\n      FROM c)");
    assert_eq!(format_sql(&f), f);
}

#[test]
fn binds_skip_literals_comments_and_format_elements() {
    let b = extract_bind_variables("select ':x', a::int -- :y\n from t where d = to_char(:d, 'HH24:MI:SS') and e = :MI and f = :e and g = :E /* :z */");
    assert_eq!(b, vec!["d", "e"]);
}

#[test]
fn default_values_follow_the_name() {
    assert_eq!(default_bind_value("b_end_dt"), "'2025-07-01'");
    assert_eq!(default_bind_value("ORDER_DATE"), "'2025-04-01'");
    assert_eq!(default_bind_value("b_promo"), "'FLASH_SALE'");
    assert_eq!(default_bind_value("grade"), "'VIP'");
    assert_eq!(default_bind_value("status"), "'DELIVERED'");
    assert_eq!(default_bind_value("cust_id"), "1");
    assert_eq!(default_bind_value("x"), "'1'");
}

#[test]
fn substitute_keeps_numbers_null_and_quoted_values() {
    let vals = vec![
        ("a".to_string(), " 12.5e3 ".to_string()),
        ("b".to_string(), "null".to_string()),
        ("c".to_string(), "'x'".to_string()),
        ("d".to_string(), "   ".to_string()),
        ("e".to_string(), "inf".to_string()),
        ("f".to_string(), "1.2.3".to_string()),
    ];
    let s = substitute_bind_variables("x = :a and y = :b and z = :c and w = :d and v = :e and u = :f and :ab", &vals);
    assert_eq!(s, "x = 12.5e3 and y = null and z = 'x' and w = '1' and v = inf and u = '1.2.3' and '1'");
}

#[test]
fn format_twice_is_format_once() {
    let inputs = [
        "select a,b from t where x='a  b' and y=:v order by a",
        "select 'open literal   ",
        "/* c */ select * from (select 1 from dual) d -- end",
        "left join x on x.id = t.id group by x.k having count(*) > 1;",
        "  \n\t ",
        "",
    ];
    for sql in inputs {
        let f1 = format_sql(sql);
        assert_eq!(format_sql(&f1), f1, "not idempotent on {:?}", sql);
    }
}

#[test]
fn format_keeps_identifiers_and_literals_verbatim() {
    let f = format_sql("select Order_Id, 'from  where' from Orders o where o.Select_Flag = :In_Val");
    assert!(f.contains("Order_Id"));
    assert!(f.contains("'from  where'"));
    assert!(f.contains("Orders o"));
    assert!(f.contains("o.Select_Flag"));
    assert!(f.contains(":In_Val"));
    assert!(f.starts_with("SELECT Order_Id"));
}

#[test]
fn format_keeps_numbers_and_quoted_names_whole() {
    assert_eq!(format_sql("SELECT 10 FROM DUAL"), "SELECT 10\n  FROM DUAL");
    assert_eq!(format_sql("SELECT \"x\" FROM t"), "SELECT \"x\"\n  FROM t");
    assert_eq!(format_sql("select 1.5, \"Mixed \"\"Case\"\"\" from t where n = 42"),
        "SELECT 1.5,\n       \"Mixed \"\"Case\"\"\"\n  FROM t\n WHERE n = 42");
    let f = format_sql("select a from t where x = 12345 and y = \"Col 1\"");
    assert_eq!(format_sql(&f), f);
}

#[test]
fn bind_literals() {
    let vals = vec![("n".to_string(), " 42 ".to_string()), ("s".to_string(), "VIP".to_string()), ("n".to_string(), "7".to_string())];
    assert_eq!(bind_literal(&"n".to_string(), &vals), "42");
    assert_eq!(bind_literal(&"s".to_string(), &vals), "'VIP'");
    assert_eq!(bind_literal(&"b_start_dt".to_string(), &vals), "'2025-04-01'");
}

#[test]
fn binds_stand_in_the_text() {
    let sql = "select :a1, ':no', x::int, :b_2 -- :c\n from t where y = :A1";
    let b = extract_bind_variables(sql);
    assert_eq!(b, vec!["a1", "b_2"]);
    for name in &b {
        assert!(sql.contains(&format!(":{}", name)));
    }
}

