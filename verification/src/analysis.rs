//! The outline of a query (its common table expressions, tables and
//! filter conditions) and a query that samples values for its binds.
use vstd::prelude::*;
use crate::binds::{extract_bind_variables, extract_bind_variables_spec, names_view};
use crate::models::{
    copy_opt, opt_view, strings_view, tables_view, QueryStructure, QueryStructureView, TableRef,
    TableRefView,
};
use crate::regex_api::{
    captures, captures_all, compile_regex, groups_view, regex_captures, regex_captures_all,
    regex_compiles, regex_split, split, CompiledRegex,
};
use crate::text::{
    append_chars, append_str, chars_of, contains, contains_str, join_with, join_with_exec,
    lines_view, lower_chars, str_eq, str_lower, str_upper, string_from, trim, trim_vec,
    upper_chars, words, words_exec,
};

verus! {

pub open spec fn cte_pattern() -> Seq<char> {
    r"(?i)\b([a-zA-Z0-9_]+)\s+AS\s*\("@
}

/// The keywords that open a clause of a query; the text between two of
/// them is one clause.
pub open spec fn clause_pattern() -> Seq<char> {
    r"(?i)\b(FROM|JOIN|LEFT\s+JOIN|RIGHT\s+JOIN|INNER\s+JOIN|FULL\s+OUTER\s+JOIN|WHERE|GROUP|ORDER|HAVING)\b"@
}

/// A table source at the start of the text after `FROM` or a join: its
/// name, its alias and its `ON` condition (up to a comma, a line feed or
/// a semicolon).
pub open spec fn source_pattern() -> Seq<char> {
    r"(?i)^\s+([a-zA-Z0-9_.]+)(?:\s+(?:AS\s+)?([a-zA-Z0-9_]+))?(?:\s+ON\s+([^,\n;]+))?"@
}

/// The text after `WHERE` up to the next `GROUP`, `ORDER`, `HAVING`, `;`
/// or the end.
pub open spec fn where_pattern() -> Seq<char> {
    r"(?is)\bWHERE\b(.*?)(?:\bGROUP\b|\bORDER\b|\bHAVING\b|;|$)"@
}

pub open spec fn and_or_pattern() -> Seq<char> {
    r"(?i)\b(?:AND|OR)\b"@
}

/// Group `i` of a match, `None` where it took no part or does not exist.
pub open spec fn group(g: Seq<Option<Seq<char>>>, i: int) -> Option<Seq<char>> {
    if 0 <= i < g.len() {
        g[i]
    } else {
        None
    }
}

/// The words that cannot name a table or an alias.
pub open spec fn is_structure_keyword(up: Seq<char>) -> bool {
    up == "WHERE"@ || up == "GROUP"@ || up == "ORDER"@ || up == "HAVING"@ || up == "JOIN"@
        || up == "LEFT"@ || up == "RIGHT"@ || up == "INNER"@ || up == "ON"@ || up == "AS"@
        || up == "SELECT"@ || up == "FROM"@ || up == "SET"@
}

/// The names before `AS (`, except `SELECT`, `FROM` and `WHERE` in any case.
pub open spec fn cte_names(caps: Seq<Seq<Option<Seq<char>>>>) -> Seq<Seq<char>>
    decreases caps.len(),
{
    if caps.len() == 0 {
        seq![]
    } else {
        let prev = cte_names(caps.drop_last());
        match group(caps.last(), 1) {
            Some(name) => {
                let up = str_upper(name);
                if up != "SELECT"@ && up != "FROM"@ && up != "WHERE"@ {
                    prev.push(name)
                } else {
                    prev
                }
            },
            None => prev,
        }
    }
}

/// The table of one match of the table pattern, unless its name is
/// missing or a keyword.
pub open spec fn table_of(g: Seq<Option<Seq<char>>>) -> Option<TableRefView> {
    let join_type = match group(g, 1) {
        Some(m) => join_with(words(str_upper(m)), " "@),
        None => "FROM"@,
    };
    let name = match group(g, 2) {
        Some(m) => m,
        None => seq![],
    };
    if name.len() == 0 || is_structure_keyword(str_upper(name)) {
        None
    } else {
        let alias = match group(g, 3) {
            Some(a) => if is_structure_keyword(str_upper(a)) {
                None
            } else {
                Some(a)
            },
            None => None,
        };
        let cond = match group(g, 4) {
            Some(m) => if trim(m).len() > 0 {
                Some(trim(m))
            } else {
                None
            },
            None => None,
        };
        Some(TableRefView { name, alias, join_type, join_condition: cond })
    }
}

/// Whether a clause keyword opens a table source (`FROM` or a join).
pub open spec fn opens_source(kw: Seq<Option<Seq<char>>>) -> bool {
    match group(kw, 1) {
        Some(m) => {
            let u = str_upper(m);
            u != "WHERE"@ && u != "GROUP"@ && u != "ORDER"@ && u != "HAVING"@
        },
        None => false,
    }
}

/// The groups of a table: the keyword's, then the source's name, alias and
/// condition.
pub open spec fn source_groups(kw: Seq<Option<Seq<char>>>, src: Option<Seq<Option<Seq<char>>>>) -> Seq<Option<Seq<char>>> {
    match src {
        Some(p) => seq![None, group(kw, 1), group(p, 1), group(p, 2), group(p, 3)],
        None => seq![None, group(kw, 1), None, None, None],
    }
}

/// The groups that the source pattern gave for the text after clause
/// keyword `k`, if any.
pub open spec fn src_at(srcs: Seq<Option<Seq<Option<Seq<char>>>>>, k: int) -> Option<Seq<Option<Seq<char>>>> {
    if 0 <= k < srcs.len() {
        srcs[k]
    } else {
        None
    }
}

/// The tables of the clauses: for each clause keyword `k` that opens a
/// source, the table read from its keyword's groups and `srcs[k]`.
pub open spec fn tables_of(keys: Seq<Seq<Option<Seq<char>>>>, srcs: Seq<Option<Seq<Option<Seq<char>>>>>) -> Seq<TableRefView>
    decreases keys.len(),
{
    if keys.len() == 0 {
        seq![]
    } else {
        let k = keys.len() - 1;
        let prev = tables_of(keys.drop_last(), srcs);
        if opens_source(keys[k]) {
            match table_of(source_groups(keys[k], src_at(srcs, k))) {
                Some(t) => prev.push(t),
                None => prev,
            }
        } else {
            prev
        }
    }
}

/// What the source pattern gives for the text after each of `n` clause
/// keywords: clause keyword `k` is followed by `pieces[k + 1]`.
pub open spec fn source_caps(n: nat, pieces: Seq<Seq<char>>) -> Seq<Option<Seq<Option<Seq<char>>>>> {
    Seq::new(
        n,
        |k: int|
            if k + 1 < pieces.len() && regex_compiles(source_pattern()) {
                regex_captures(source_pattern(), pieces[k + 1])
            } else {
                None
            },
    )
}

/// The tables of the clauses that the clause pattern found (`keys`) and
/// the texts between them (`pieces`).
pub open spec fn table_refs(keys: Seq<Seq<Option<Seq<char>>>>, pieces: Seq<Seq<char>>) -> Seq<TableRefView> {
    tables_of(keys, source_caps(keys.len(), pieces))
}

/// The groups of each match, as values.
pub open spec fn caps_view(v: Seq<Vec<Option<String>>>) -> Seq<Seq<Option<Seq<char>>>> {
    v.map_values(|g: Vec<Option<String>>| groups_view(g@))
}

pub open spec fn srcs_view(v: Seq<Option<Vec<Option<String>>>>) -> Seq<Option<Seq<Option<Seq<char>>>>> {
    v.map_values(|o: Option<Vec<Option<String>>>| match o {
        Some(g) => Some(groups_view(g@)),
        None => None,
    })
}

/// The trimmed pieces that are not empty.
pub open spec fn nonempty_trimmed(parts: Seq<Seq<char>>) -> Seq<Seq<char>>
    decreases parts.len(),
{
    if parts.len() == 0 {
        seq![]
    } else {
        let prev = nonempty_trimmed(parts.drop_last());
        let t = trim(parts.last());
        if t.len() > 0 {
            prev.push(t)
        } else {
            prev
        }
    }
}

/// The conditions between `WHERE` and the next `GROUP`, `ORDER`,
/// `HAVING` or `;`, split at `AND` and `OR`.
pub open spec fn filters_of(sql: Seq<char>) -> Seq<Seq<char>> {
    if regex_compiles(where_pattern()) {
        match regex_captures(where_pattern(), sql) {
            Some(g) => match group(g, 1) {
                Some(raw) => if regex_compiles(and_or_pattern()) {
                    nonempty_trimmed(regex_split(and_or_pattern(), raw))
                } else {
                    seq![]
                },
                None => seq![],
            },
            None => seq![],
        }
    } else {
        seq![]
    }
}

/// The outline of a query; each part is empty where its pattern is not
/// accepted by the regular-expression engine.
pub open spec fn analyze_spec(sql: Seq<char>) -> QueryStructureView {
    QueryStructureView {
        ctes: if regex_compiles(cte_pattern()) {
            cte_names(regex_captures_all(cte_pattern(), sql))
        } else {
            seq![]
        },
        tables: if regex_compiles(clause_pattern()) {
            table_refs(regex_captures_all(clause_pattern(), sql), regex_split(clause_pattern(), sql))
        } else {
            seq![]
        },
        filters: filters_of(sql),
    }
}

fn group_text(g: &Vec<Option<String>>, i: usize) -> (r: Option<String>)
    ensures
        opt_view(r) == group(groups_view(g@), i as int),
{
    if i < g.len() {
        match &g[i] {
            Some(s) => Some(string_from(&chars_of(s.as_str()))),
            None => None,
        }
    } else {
        None
    }
}

fn structure_keyword(up: &Vec<char>) -> (r: bool)
    ensures
        r == is_structure_keyword(up@),
{
    str_eq(up, "WHERE") || str_eq(up, "GROUP") || str_eq(up, "ORDER") || str_eq(up, "HAVING")
        || str_eq(up, "JOIN") || str_eq(up, "LEFT") || str_eq(up, "RIGHT") || str_eq(up, "INNER")
        || str_eq(up, "ON") || str_eq(up, "AS") || str_eq(up, "SELECT") || str_eq(up, "FROM")
        || str_eq(up, "SET")
}

fn upper_of(s: &String) -> (r: Vec<char>)
    ensures
        r@ == str_upper(s@),
{
    let v = chars_of(s.as_str());
    upper_chars(&v)
}

/// The names of the common table expressions, from the groups of the
/// matches of the CTE pattern; see `cte_names`.
pub fn cte_names_of(caps: &Vec<Vec<Option<String>>>) -> (r: Vec<String>)
    ensures
        strings_view(r@) == cte_names(caps_view(caps@)),
{
    let ghost cv = caps_view(caps@);
    let mut out: Vec<String> = Vec::new();
    let mut i: usize = 0;
    assert(strings_view(out@) =~= Seq::<Seq<char>>::empty());
    assert(cv.take(0) =~= Seq::<Seq<Option<Seq<char>>>>::empty());
    while i < caps.len()
        invariant
            0 <= i <= caps.len(),
            cv == caps_view(caps@),
            strings_view(out@) == cte_names(cv.take(i as int)),
        decreases caps.len() - i,
    {
        assert(cv.take(i + 1).drop_last() =~= cv.take(i as int));
        assert(cv.take(i + 1).last() == groups_view(caps@[i as int]@));
        match group_text(&caps[i], 1) {
            Some(name) => {
                let up = upper_of(&name);
                if !str_eq(&up, "SELECT") && !str_eq(&up, "FROM") && !str_eq(&up, "WHERE") {
                    let ghost before = strings_view(out@);
                    let ghost nv = name@;
                    out.push(name);
                    assert(strings_view(out@) =~= before.push(nv));
                }
            },
            None => {},
        }
        i += 1;
    }
    assert(cv.take(caps.len() as int) =~= cv);
    out
}

fn ctes_exec(re: &CompiledRegex, sql: &str) -> (r: Vec<String>)
    ensures
        strings_view(r@) == cte_names(regex_captures_all(re.pattern(), sql@)),
{
    let caps = captures_all(re, sql);
    assert(caps_view(caps@) =~= regex_captures_all(re.pattern(), sql@));
    cte_names_of(&caps)
}

/// The table that one set of groups names (keyword, name, alias,
/// condition); see `table_of`.
pub fn table_of_groups(g: &Vec<Option<String>>) -> (r: Option<TableRef>)
    ensures
        match table_of(groups_view(g@)) {
            Some(t) => r matches Some(x) && x@ == t,
            None => r is None,
        },
{
    let join_type = match group_text(g, 1) {
        Some(m) => {
            let up = upper_of(&m);
            let ws = words_exec(&up);
            string_from(&join_with_exec(&ws, " "))
        },
        None => String::from_str("FROM"),
    };
    let name = match group_text(g, 2) {
        Some(m) => m,
        None => String::new(),
    };
    if name.as_str().is_empty() {
        return None;
    }
    let nu = upper_of(&name);
    if structure_keyword(&nu) {
        return None;
    }
    let alias = match group_text(g, 3) {
        Some(a) => {
            let au = upper_of(&a);
            if structure_keyword(&au) {
                None
            } else {
                Some(a)
            }
        },
        None => None,
    };
    let cond = match group_text(g, 4) {
        Some(m) => {
            let t = trim_vec(&chars_of(m.as_str()));
            if t.len() > 0 {
                Some(string_from(&t))
            } else {
                None
            }
        },
        None => None,
    };
    Some(TableRef { name, alias, join_type, join_condition: cond })
}

fn opens_source_exec(kw: &Vec<Option<String>>) -> (r: bool)
    ensures
        r == opens_source(groups_view(kw@)),
{
    match group_text(kw, 1) {
        Some(m) => {
            let u = upper_of(&m);
            !str_eq(&u, "WHERE") && !str_eq(&u, "GROUP") && !str_eq(&u, "ORDER") && !str_eq(&u, "HAVING")
        },
        None => false,
    }
}

fn source_groups_exec(kw: &Vec<Option<String>>, src: &Option<Vec<Option<String>>>) -> (r: Vec<Option<String>>)
    ensures
        groups_view(r@) == source_groups(groups_view(kw@), match src {
            Some(p) => Some(groups_view(p@)),
            None => None,
        }),
{
    let mut r: Vec<Option<String>> = Vec::new();
    r.push(None);
    r.push(group_text(kw, 1));
    match src {
        Some(p) => {
            r.push(group_text(p, 1));
            r.push(group_text(p, 2));
            r.push(group_text(p, 3));
        },
        None => {
            r.push(None);
            r.push(None);
            r.push(None);
        },
    }
    assert(groups_view(r@) =~= source_groups(groups_view(kw@), match src {
        Some(p) => Some(groups_view(p@)),
        None => None,
    }));
    r
}

/// The tables of the clauses, from the groups of each clause keyword and
/// the source pattern's groups for the text after it; see `tables_of`.
pub fn tables_of_clauses(keys: &Vec<Vec<Option<String>>>, srcs: &Vec<Option<Vec<Option<String>>>>) -> (r: Vec<TableRef>)
    ensures
        tables_view(r@) == tables_of(caps_view(keys@), srcs_view(srcs@)),
{
    let ghost cv = caps_view(keys@);
    let ghost sv = srcs_view(srcs@);
    let mut out: Vec<TableRef> = Vec::new();
    let mut i: usize = 0;
    assert(tables_view(out@) =~= Seq::<TableRefView>::empty());
    assert(cv.take(0) =~= Seq::<Seq<Option<Seq<char>>>>::empty());
    while i < keys.len()
        invariant
            0 <= i <= keys.len(),
            cv == caps_view(keys@),
            sv == srcs_view(srcs@),
            tables_view(out@) == tables_of(cv.take(i as int), sv),
        decreases keys.len() - i,
    {
        assert(cv.take(i + 1).drop_last() =~= cv.take(i as int));
        assert(cv.take(i + 1).last() == groups_view(keys@[i as int]@));
        if opens_source_exec(&keys[i]) {
            let none: Option<Vec<Option<String>>> = None;
            let src = if i < srcs.len() {
                &srcs[i]
            } else {
                &none
            };
            assert(src_at(sv, i as int) == match *src {
                Some(g) => Some(groups_view(g@)),
                None => None,
            });
            let g = source_groups_exec(&keys[i], src);
            match table_of_groups(&g) {
                Some(t) => {
                    let ghost before = tables_view(out@);
                    let ghost tv = t@;
                    out.push(t);
                    assert(tables_view(out@) =~= before.push(tv));
                },
                None => {},
            }
        }
        i += 1;
    }
    assert(cv.take(keys.len() as int) =~= cv);
    out
}

fn tables_exec(re: &CompiledRegex, sql: &str) -> (r: Vec<TableRef>)
    ensures
        tables_view(r@) == table_refs(regex_captures_all(re.pattern(), sql@), regex_split(re.pattern(), sql@)),
{
    let caps = captures_all(re, sql);
    let pieces = split(re, sql);
    let ghost cv = regex_captures_all(re.pattern(), sql@);
    let ghost pv = regex_split(re.pattern(), sql@);
    let ghost want = source_caps(cv.len(), pv);
    let src_re = compile_regex(r"(?i)^\s+([a-zA-Z0-9_.]+)(?:\s+(?:AS\s+)?([a-zA-Z0-9_]+))?(?:\s+ON\s+([^,\n;]+))?");
    let mut srcs: Vec<Option<Vec<Option<String>>>> = Vec::new();
    let mut i: usize = 0;
    assert(srcs_view(srcs@) =~= want.take(0));
    while i < caps.len()
        invariant
            0 <= i <= caps.len(),
            caps@.len() == cv.len(),
            pieces@.len() == pv.len(),
            want == source_caps(cv.len(), pv),
            forall|k: int| 0 <= k < pieces@.len() ==> (#[trigger] pieces@[k])@ == pv[k],
            src_re is Some <==> regex_compiles(source_pattern()),
            src_re matches Some(c) ==> c.pattern() == source_pattern(),
            srcs_view(srcs@) == want.take(i as int),
        decreases caps.len() - i,
    {
        let c: Option<Vec<Option<String>>> = if i + 1 < pieces.len() {
            match &src_re {
                Some(sr) => captures(sr, pieces[i + 1].as_str()),
                None => None,
            }
        } else {
            None
        };
        let ghost before = srcs_view(srcs@);
        srcs.push(c);
        assert(srcs_view(srcs@) =~= before.push(want[i as int]));
        i += 1;
        assert(want.take(i as int) =~= want.take(i - 1).push(want[i - 1]));
    }
    assert(want.take(caps.len() as int) =~= want);
    assert(caps_view(caps@) =~= cv);
    tables_of_clauses(&caps, &srcs)
}

/// The conditions of a `WHERE` clause from its pieces between `AND` and
/// `OR`: each trimmed, the empty ones left out; see `nonempty_trimmed`.
pub fn filters_of_parts(parts: &Vec<String>) -> (r: Vec<String>)
    ensures
        strings_view(r@) == nonempty_trimmed(strings_view(parts@)),
{
    let ghost pv = strings_view(parts@);
    let mut out: Vec<String> = Vec::new();
    let mut i: usize = 0;
    assert(strings_view(out@) =~= Seq::<Seq<char>>::empty());
    assert(pv.take(0) =~= Seq::<Seq<char>>::empty());
    while i < parts.len()
        invariant
            0 <= i <= parts.len(),
            pv == strings_view(parts@),
            strings_view(out@) == nonempty_trimmed(pv.take(i as int)),
        decreases parts.len() - i,
    {
        assert(pv.take(i + 1).drop_last() =~= pv.take(i as int));
        assert(pv.take(i + 1).last() == parts@[i as int]@);
        let t = trim_vec(&chars_of(parts[i].as_str()));
        if t.len() > 0 {
            let ghost before = strings_view(out@);
            out.push(string_from(&t));
            assert(strings_view(out@) =~= before.push(t@));
        }
        i += 1;
    }
    assert(pv.take(parts.len() as int) =~= pv);
    out
}

fn filters_exec(sql: &str) -> (r: Vec<String>)
    ensures
        strings_view(r@) == filters_of(sql@),
{
    let empty: Vec<String> = Vec::new();
    assert(strings_view(empty@) =~= Seq::<Seq<char>>::empty());
    match compile_regex(r"(?is)\bWHERE\b(.*?)(?:\bGROUP\b|\bORDER\b|\bHAVING\b|;|$)") {
        Some(re) => match captures(&re, sql) {
            Some(g) => match group_text(&g, 1) {
                Some(raw) => match compile_regex(r"(?i)\b(?:AND|OR)\b") {
                    Some(sp) => {
                        let parts = split(&sp, raw.as_str());
                        assert(strings_view(parts@) =~= regex_split(and_or_pattern(), raw@));
                        filters_of_parts(&parts)
                    },
                    None => empty,
                },
                None => empty,
            },
            None => empty,
        },
        None => empty,
    }
}

/// The common table expressions, tables (with join type, alias and join
/// condition) and `WHERE` conditions of a query, as far as the patterns
/// find them; see `analyze_spec`.
pub fn analyze_query_structure(sql: &str) -> (r: QueryStructure)
    ensures
        r@ == analyze_spec(sql@),
{
    let ctes = match compile_regex(r"(?i)\b([a-zA-Z0-9_]+)\s+AS\s*\(") {
        Some(re) => ctes_exec(&re, sql),
        None => {
            let v: Vec<String> = Vec::new();
            assert(strings_view(v@) =~= Seq::<Seq<char>>::empty());
            v
        },
    };
    let tables = match compile_regex(
        r"(?i)\b(FROM|JOIN|LEFT\s+JOIN|RIGHT\s+JOIN|INNER\s+JOIN|FULL\s+OUTER\s+JOIN|WHERE|GROUP|ORDER|HAVING)\b",
    ) {
        Some(re) => tables_exec(&re, sql),
        None => {
            let v: Vec<TableRef> = Vec::new();
            assert(tables_view(v@) =~= Seq::<TableRefView>::empty());
            v
        },
    };
    let filters = filters_exec(sql);
    QueryStructure { ctes, tables, filters }
}

// ---------------------------------------------------------------------------
// A query that samples values for the binds
// ---------------------------------------------------------------------------

/// The pattern of `column <op> :bind`.
pub open spec fn pattern_before(b: Seq<char>) -> Seq<char> {
    r"(?i)([a-zA-Z0-9_.]+)\s*(?:=|>=|<=|>|<|LIKE)\s*:"@ + b
}

/// The pattern of `:bind <op> column`.
pub open spec fn pattern_after(b: Seq<char>) -> Seq<char> {
    r"(?i):"@ + b + r"\s*(?:=|>=|<=|>|<|LIKE)\s*([a-zA-Z0-9_.]+)"@
}

/// `Some` when the pattern is accepted and matches the filter: its first
/// group, trimmed, if the group took part.
pub open spec fn column_hit(p: Seq<char>, f: Seq<char>) -> Option<Option<Seq<char>>> {
    if regex_compiles(p) {
        match regex_captures(p, f) {
            Some(g) => Some(
                match group(g, 1) {
                    Some(m) => Some(trim(m)),
                    None => None,
                },
            ),
            None => None,
        }
    } else {
        None
    }
}

/// The column that the first filter mentioning the bind compares it with.
pub open spec fn bind_column(b: Seq<char>, filters: Seq<Seq<char>>) -> Option<Seq<char>>
    decreases filters.len(),
{
    if filters.len() == 0 {
        None
    } else {
        match column_hit(pattern_before(b), filters[0]) {
            Some(x) => x,
            None => match column_hit(pattern_after(b), filters[0]) {
                Some(x) => x,
                None => bind_column(b, filters.drop_first()),
            },
        }
    }
}

/// The column guessed from the bind's name when no filter names one.
pub open spec fn fallback_column(b: Seq<char>) -> Seq<char> {
    let lower = str_lower(b);
    if contains(lower, "date"@) || contains(lower, "_dt"@) {
        "ORD_DATE"@
    } else if contains(lower, "promo"@) {
        "PROMO_TYPE"@
    } else if contains(lower, "grade"@) {
        "CUST_GRADE"@
    } else {
        b
    }
}

pub open spec fn select_item(b: Seq<char>, filters: Seq<Seq<char>>) -> Seq<char> {
    (match bind_column(b, filters) {
        Some(c) => c,
        None => fallback_column(b),
    }) + " AS "@ + b
}

/// The query that lists up to five distinct combinations of the columns
/// the binds stand for, from the query's tables (or `DUAL`); `None` for a
/// statement without binds.
pub open spec fn extraction_query_spec(sql: Seq<char>) -> Option<Seq<char>> {
    let binds = extract_bind_variables_spec(sql);
    if binds.len() == 0 {
        None
    } else {
        let st = analyze_spec(sql);
        let names = st.tables.map_values(|t: TableRefView| t.name);
        let from = if names.len() > 0 {
            join_with(names, ", "@)
        } else {
            "DUAL"@
        };
        let items = binds.map_values(|b: Seq<char>| select_item(b, st.filters));
        Some(
            "SELECT DISTINCT\n       "@ + join_with(items, ",\n       "@) + "\n  FROM "@ + from
                + "\n WHERE ROWNUM <= 5;"@,
        )
    }
}

/// The bind-sampling query exists exactly for a statement with binds. It
/// starts with `SELECT DISTINCT`, ends with `WHERE ROWNUM <= 5;`, and its
/// select list has one item `<column> AS <bind>` per bind, in the order of
/// the binds, separated by `,` and a new line.
pub proof fn law_extraction_query(sql: Seq<char>)
    ensures
        extraction_query_spec(sql) is None <==> extract_bind_variables_spec(sql).len() == 0,
        extraction_query_spec(sql) matches Some(q) ==> exists|items: Seq<Seq<char>>, from: Seq<char>| {
            &&& items.len() == extract_bind_variables_spec(sql).len()
            &&& forall|k: int| 0 <= k < items.len() ==> exists|col: Seq<char>| #[trigger] items[k] == col + " AS "@
                + extract_bind_variables_spec(sql)[k]
            &&& q == "SELECT DISTINCT\n       "@ + join_with(items, ",\n       "@) + "\n  FROM "@ + from
                + "\n WHERE ROWNUM <= 5;"@
        },
{
    let binds = extract_bind_variables_spec(sql);
    if binds.len() > 0 {
        let st = analyze_spec(sql);
        let names = st.tables.map_values(|t: TableRefView| t.name);
        let from = if names.len() > 0 {
            join_with(names, ", "@)
        } else {
            "DUAL"@
        };
        let items = binds.map_values(|b: Seq<char>| select_item(b, st.filters));
        assert forall|k: int| 0 <= k < items.len() implies exists|col: Seq<char>| #[trigger] items[k] == col
            + " AS "@ + binds[k] by {
            let col = match bind_column(binds[k], st.filters) {
                Some(c) => c,
                None => fallback_column(binds[k]),
            };
            assert(items[k] == col + " AS "@ + binds[k]);
        }
    }
}

/// What the two column patterns gave for one filter, as values.
pub open spec fn hit_view(h: Option<Option<String>>) -> Option<Option<Seq<char>>> {
    match h {
        Some(Some(c)) => Some(Some(c@)),
        Some(None) => Some(None),
        None => None,
    }
}

pub open spec fn hits_view(v: Seq<(Option<Option<String>>, Option<Option<String>>)>) -> Seq<
    (Option<Option<Seq<char>>>, Option<Option<Seq<char>>>),
> {
    v.map_values(|h: (Option<Option<String>>, Option<Option<String>>)| (hit_view(h.0), hit_view(h.1)))
}

/// The column of the first filter that either pattern matched (the
/// `column <op> :bind` pattern first), from what the two patterns gave
/// for each filter in turn.
pub open spec fn column_from_hits(hits: Seq<(Option<Option<Seq<char>>>, Option<Option<Seq<char>>>)>) -> Option<Seq<char>>
    decreases hits.len(),
{
    if hits.len() == 0 {
        None
    } else {
        match hits[0].0 {
            Some(x) => x,
            None => match hits[0].1 {
                Some(x) => x,
                None => column_from_hits(hits.drop_first()),
            },
        }
    }
}

/// What the two column patterns of bind `b` give for each filter.
pub open spec fn filter_hits(b: Seq<char>, filters: Seq<Seq<char>>) -> Seq<(Option<Option<Seq<char>>>, Option<Option<Seq<char>>>)> {
    filters.map_values(|f: Seq<char>| (column_hit(pattern_before(b), f), column_hit(pattern_after(b), f)))
}

pub proof fn lemma_bind_column_hits(b: Seq<char>, filters: Seq<Seq<char>>)
    ensures
        bind_column(b, filters) == column_from_hits(filter_hits(b, filters)),
    decreases filters.len(),
{
    if filters.len() > 0 {
        assert(filter_hits(b, filters).drop_first() =~= filter_hits(b, filters.drop_first()));
        lemma_bind_column_hits(b, filters.drop_first());
    }
}

/// The column a bind stands for, from what the two column patterns gave
/// for each filter; see `column_from_hits`.
pub fn column_of_hits(hits: &Vec<(Option<Option<String>>, Option<Option<String>>)>) -> (r: Option<String>)
    ensures
        opt_view(r) == column_from_hits(hits_view(hits@)),
{
    let ghost hv = hits_view(hits@);
    let mut i: usize = 0;
    assert(hv.skip(0) =~= hv);
    while i < hits.len()
        invariant
            0 <= i <= hits.len(),
            hv == hits_view(hits@),
            column_from_hits(hv.skip(i as int)) == column_from_hits(hv),
        decreases hits.len() - i,
    {
        assert(hv.skip(i as int)[0] == (hit_view(hits@[i as int].0), hit_view(hits@[i as int].1)));
        assert(hv.skip(i as int).drop_first() =~= hv.skip(i + 1));
        match &hits[i].0 {
            Some(x) => {
                return copy_opt(x);
            },
            None => {},
        }
        match &hits[i].1 {
            Some(x) => {
                return copy_opt(x);
            },
            None => {},
        }
        i += 1;
    }
    assert(hv.skip(hits.len() as int) =~= Seq::<(Option<Option<Seq<char>>>, Option<Option<Seq<char>>>)>::empty());
    None
}

fn column_hit_exec(p: &Vec<char>, f: &String) -> (r: Option<Option<String>>)
    ensures
        hit_view(r) == column_hit(p@, f@),
{
    let ps = string_from(p);
    match compile_regex(ps.as_str()) {
        Some(re) => match captures(&re, f.as_str()) {
            Some(g) => match group_text(&g, 1) {
                Some(m) => Some(Some(string_from(&trim_vec(&chars_of(m.as_str()))))),
                None => Some(None),
            },
            None => None,
        },
        None => None,
    }
}

fn bind_column_exec(b: &String, filters: &Vec<String>) -> (r: Option<String>)
    ensures
        opt_view(r) == bind_column(b@, strings_view(filters@)),
{
    let mut p1 = chars_of(r"(?i)([a-zA-Z0-9_.]+)\s*(?:=|>=|<=|>|<|LIKE)\s*:");
    append_str(&mut p1, b.as_str());
    let mut p2 = chars_of(r"(?i):");
    append_str(&mut p2, b.as_str());
    append_str(&mut p2, r"\s*(?:=|>=|<=|>|<|LIKE)\s*([a-zA-Z0-9_.]+)");
    let ghost fv = strings_view(filters@);
    let ghost want = filter_hits(b@, fv);
    let mut hits: Vec<(Option<Option<String>>, Option<Option<String>>)> = Vec::new();
    let mut i: usize = 0;
    assert(hits_view(hits@) =~= want.take(0));
    while i < filters.len()
        invariant
            0 <= i <= filters.len(),
            fv == strings_view(filters@),
            want == filter_hits(b@, fv),
            p1@ == pattern_before(b@),
            p2@ == pattern_after(b@),
            hits_view(hits@) == want.take(i as int),
        decreases filters.len() - i,
    {
        let h1 = column_hit_exec(&p1, &filters[i]);
        let h2 = column_hit_exec(&p2, &filters[i]);
        let ghost before = hits_view(hits@);
        hits.push((h1, h2));
        assert(hits_view(hits@) =~= before.push(want[i as int]));
        i += 1;
        assert(want.take(i as int) =~= want.take(i - 1).push(want[i - 1]));
    }
    assert(want.take(filters.len() as int) =~= want);
    proof {
        lemma_bind_column_hits(b@, fv);
    }
    column_of_hits(&hits)
}

fn fallback_column_exec(b: &String) -> (r: Vec<char>)
    ensures
        r@ == fallback_column(b@),
{
    let bv = chars_of(b.as_str());
    let lower = lower_chars(&bv);
    if contains_str(&lower, "date") || contains_str(&lower, "_dt") {
        chars_of("ORD_DATE")
    } else if contains_str(&lower, "promo") {
        chars_of("PROMO_TYPE")
    } else if contains_str(&lower, "grade") {
        chars_of("CUST_GRADE")
    } else {
        bv
    }
}

/// A query that samples values for the binds of `sql`; see
/// `extraction_query_spec`.
pub fn generate_bind_extraction_query(sql: &str) -> (r: Option<String>)
    ensures
        opt_view(r) == extraction_query_spec(sql@),
{
    let binds = extract_bind_variables(sql);
    if binds.len() == 0 {
        return None;
    }
    let st = analyze_query_structure(sql);
    let ghost sv = analyze_spec(sql@);
    let ghost bv = names_view(binds@);
    assert(bv == extract_bind_variables_spec(sql@));
    let mut names: Vec<Vec<char>> = Vec::new();
    let mut i: usize = 0;
    while i < st.tables.len()
        invariant
            0 <= i <= st.tables.len(),
            st@ == sv,
            lines_view(names@) == sv.tables.map_values(|t: TableRefView| t.name).take(i as int),
        decreases st.tables.len() - i,
    {
        let ghost before = lines_view(names@);
        names.push(chars_of(st.tables[i].name.as_str()));
        assert(lines_view(names@) =~= before.push(st.tables@[i as int].name@));
        i += 1;
        assert(lines_view(names@) =~= sv.tables.map_values(|t: TableRefView| t.name).take(i as int));
    }
    assert(sv.tables.map_values(|t: TableRefView| t.name).take(st.tables.len() as int) =~= sv.tables.map_values(|t: TableRefView| t.name));
    let from = if names.len() > 0 {
        join_with_exec(&names, ", ")
    } else {
        chars_of("DUAL")
    };
    let mut items: Vec<Vec<char>> = Vec::new();
    let mut k: usize = 0;
    while k < binds.len()
        invariant
            0 <= k <= binds.len(),
            st@ == sv,
            bv == names_view(binds@),
            lines_view(items@) == bv.map_values(|b: Seq<char>| select_item(b, sv.filters)).take(k as int),
        decreases binds.len() - k,
    {
        let b = &binds[k];
        let mut item = match bind_column_exec(b, &st.filters) {
            Some(c) => chars_of(c.as_str()),
            None => fallback_column_exec(b),
        };
        append_str(&mut item, " AS ");
        append_str(&mut item, b.as_str());
        let ghost before = lines_view(items@);
        items.push(item);
        assert(lines_view(items@) =~= before.push(select_item(bv[k as int], sv.filters)));
        k += 1;
        assert(lines_view(items@) =~= bv.map_values(|b: Seq<char>| select_item(b, sv.filters)).take(k as int));
    }
    assert(bv.map_values(|b: Seq<char>| select_item(b, sv.filters)).take(binds.len() as int) =~= bv.map_values(|b: Seq<char>| select_item(b, sv.filters)));
    let mut q = chars_of("SELECT DISTINCT\n       ");
    let joined = join_with_exec(&items, ",\n       ");
    append_chars(&mut q, &joined);
    append_str(&mut q, "\n  FROM ");
    append_chars(&mut q, &from);
    append_str(&mut q, "\n WHERE ROWNUM <= 5;");
    Some(string_from(&q))
}

} // verus!
