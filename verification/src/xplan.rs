//! Parsing of `DBMS_XPLAN.DISPLAY` output into plan nodes, with their
//! predicates, query blocks, aliases and outline hints.
use vstd::prelude::*;
use crate::models::{node_view, nodes_view, opt_view, strings_view, PlanNode, PlanNodeView};
use crate::text::{
    slice_of,
    append_chars, chars_of, contains, contains_exec, contains_str, copy_chars, find_char, find_char_exec, first_word, first_word_exec, lines_exec,
    lines_of, lines_view, parse_signed, parse_signed_exec, parse_unsigned, parse_unsigned_exec,
    replace_lit, replace_str, split_char, split_char_exec, starts_with,
    starts_with_str, string_from, strip_leading, strip_leading_exec,
    trim, trim_range, trim_vec,
};

verus! {

// ---------------------------------------------------------------------------
// Small lookup tables keyed by plan line id
// ---------------------------------------------------------------------------

/// An entry: the id and two optional texts.
pub type PairEntry = (i32, Option<Seq<char>>, Option<Seq<char>>);

pub open spec fn assoc_find(l: Seq<PairEntry>, k: i32, i: int) -> Option<int>
    decreases l.len() - i,
{
    if i < 0 || i >= l.len() {
        None
    } else if l[i].0 == k {
        Some(i)
    } else {
        assoc_find(l, k, i + 1)
    }
}

pub proof fn lemma_assoc_find(l: Seq<PairEntry>, k: i32, i: int)
    requires
        0 <= i,
    ensures
        assoc_find(l, k, i) matches Some(j) ==> i <= j < l.len() && l[j].0 == k,
    decreases l.len() - i,
{
    if i < l.len() && l[i].0 != k {
        lemma_assoc_find(l, k, i + 1);
    }
}

pub open spec fn assoc_get(l: Seq<PairEntry>, k: i32) -> Option<(Option<Seq<char>>, Option<Seq<char>>)> {
    match assoc_find(l, k, 0) {
        Some(j) => Some((l[j].1, l[j].2)),
        None => None,
    }
}

pub open spec fn assoc_put(l: Seq<PairEntry>, k: i32, a: Option<Seq<char>>, b: Option<Seq<char>>) -> Seq<PairEntry> {
    match assoc_find(l, k, 0) {
        Some(j) => l.update(j, (k, a, b)),
        None => l.push((k, a, b)),
    }
}

pub struct PairTable {
    pub entries: Vec<(i32, Option<Vec<char>>, Option<Vec<char>>)>,
}

pub open spec fn ochars(o: Option<Vec<char>>) -> Option<Seq<char>> {
    match o {
        Some(v) => Some(v@),
        None => None,
    }
}

impl View for PairTable {
    type V = Seq<PairEntry>;

    open spec fn view(&self) -> Seq<PairEntry> {
        self.entries@.map_values(|e: (i32, Option<Vec<char>>, Option<Vec<char>>)| (e.0, ochars(e.1), ochars(e.2)))
    }
}

fn copy_ochars(o: &Option<Vec<char>>) -> (r: Option<Vec<char>>)
    ensures
        ochars(r) == ochars(*o),
{
    match o {
        Some(v) => Some(copy_chars(v)),
        None => None,
    }
}

impl PairTable {
    fn find(&self, k: i32) -> (r: Option<usize>)
        ensures
            r matches Some(j) ==> assoc_find(self@, k, 0) == Some(j as int),
            r is None ==> assoc_find(self@, k, 0) is None,
    {
        let mut i: usize = 0;
        while i < self.entries.len()
            invariant
                0 <= i <= self.entries.len(),
                assoc_find(self@, k, i as int) == assoc_find(self@, k, 0),
            decreases self.entries.len() - i,
        {
            if self.entries[i].0 == k {
                return Some(i);
            }
            i += 1;
        }
        None
    }

    fn get(&self, k: i32) -> (r: Option<(Option<Vec<char>>, Option<Vec<char>>)>)
        ensures
            match assoc_get(self@, k) {
                Some(p) => r matches Some(q) && (ochars(q.0), ochars(q.1)) == p,
                None => r is None,
            },
    {
        proof {
            lemma_assoc_find(self@, k, 0);
        }
        match self.find(k) {
            Some(j) => {
                assert(self@[j as int] == (self.entries@[j as int].0, ochars(self.entries@[j as int].1), ochars(self.entries@[j as int].2)));
                Some((copy_ochars(&self.entries[j].1), copy_ochars(&self.entries[j].2)))
            },
            None => None,
        }
    }

    fn put(&mut self, k: i32, a: Option<Vec<char>>, b: Option<Vec<char>>)
        ensures
            final(self)@ == assoc_put(old(self)@, k, ochars(a), ochars(b)),
    {
        proof {
            lemma_assoc_find(self@, k, 0);
        }
        let ghost a_v = ochars(a);
        let ghost b_v = ochars(b);
        match self.find(k) {
            Some(j) => {
                let ghost before = self@;
                self.entries.set(j, (k, a, b));
                assert(self@ =~= before.update(j as int, (k, a_v, b_v)));
            },
            None => {
                let ghost before = self@;
                self.entries.push((k, a, b));
                assert(self@ =~= before.push((k, a_v, b_v)));
            },
        }
    }
}

// ---------------------------------------------------------------------------
// Specification of one plan text
// ---------------------------------------------------------------------------

/// `"<id> - <rest>"`: the id and the rest, both trimmed.
pub open spec fn parse_id_prefix_line(line: Seq<char>) -> Option<(i32, Seq<char>)> {
    match find_char(line, '-') {
        Some(idx) => match parse_signed(trim(line.take(idx)), 2147483647) {
            Some(id) => Some((id as i32, trim(line.skip(idx + 1)))),
            None => None,
        },
        None => None,
    }
}

/// The predicate inside its `access(`/`filter(` wrapper: only the
/// wrapper's one closing parenthesis goes, and any that belongs to the
/// predicate stays (trimming every trailing `)` would cut `filter(UPPER(X))`
/// to `UPPER(X`).
pub open spec fn unwrap_close(s: Seq<char>) -> Seq<char> {
    if s.len() > 0 && s.last() == ')' {
        s.drop_last()
    } else {
        s
    }
}

/// A predicate line added to the entry of plan line `id`: an `access(...)`
/// replaces the access predicate; a `filter(...)` is joined to the filter
/// predicate with `AND`.
pub open spec fn append_predicate(l: Seq<PairEntry>, id: i32, text: Seq<char>) -> Seq<PairEntry> {
    let (a, f) = match assoc_get(l, id) {
        Some(p) => p,
        None => (None, None),
    };
    if contains(text, "access("@) {
        assoc_put(l, id, Some(unwrap_close(replace_lit(text, "access("@, seq![]))), f)
    } else if contains(text, "filter("@) {
        let clean = unwrap_close(replace_lit(text, "filter("@, seq![]));
        let nf = match f {
            Some(e) => e + " AND "@ + clean,
            None => clean,
        };
        assoc_put(l, id, a, Some(nf))
    } else {
        assoc_put(l, id, a, f)
    }
}

pub open spec fn trimmed_parts(s: Seq<char>, c: char) -> Seq<Seq<char>> {
    split_char(s, c).map_values(|p: Seq<char>| trim(p))
}

/// Operation and options of the operation column.
pub open spec fn split_operation(full_op: Seq<char>) -> (Seq<char>, Option<Seq<char>>) {
    if contains(full_op, "TABLE ACCESS"@) {
        let sub = trim(replace_lit(full_op, "TABLE ACCESS"@, seq![]));
        ("TABLE ACCESS"@, if sub.len() == 0 {
            None
        } else {
            Some(sub)
        })
    } else if contains(full_op, "INDEX"@) {
        let sub = trim(replace_lit(full_op, "INDEX"@, seq![]));
        ("INDEX"@, if sub.len() == 0 {
            None
        } else {
            Some(sub)
        })
    } else {
        (full_op, None)
    }
}

pub open spec fn parse_cost(col: Seq<char>) -> Option<i64> {
    match first_word(col) {
        Some(w) => match parse_signed(w, 9223372036854775807) {
            Some(v) => Some(v as i64),
            None => None,
        },
        None => None,
    }
}

/// The node that a plan table row (`| Id | Operation | Name | Rows | ... | Cost |`) describes.
pub open spec fn plan_row_node(id: i32, parts: Seq<Seq<char>>) -> PlanNodeView {
    let full_op = parts[2];
    let (op, opt) = split_operation(full_op);
    let rows: u64 = match parse_unsigned(parts[4], 18446744073709551615) {
        Some(v) => v as u64,
        None => 1,
    };
    let cost = parse_cost(parts[6]);
    let c: i64 = match cost {
        Some(v) => v,
        None => 1,
    };
    PlanNodeView {
        id: id,
        parent_id: if id > 0 {
            Some(0i32)
        } else {
            None
        },
        position: id.wrapping_add(1),
        operation: op,
        options: opt,
        object_name: if parts[3].len() == 0 {
            None
        } else {
            Some(parts[3])
        },
        starts: 1,
        e_rows: rows,
        a_rows: rows,
        a_time_us: 100,
        buffers: (c as u64).wrapping_mul(3),
        reads: 0,
        cost: cost,
        access_predicates: None,
        filter_predicates: None,
        object_alias: None,
        outline_hints: seq![],
        qblock_name: None,
        cardinality_ratio_x100: 100,
        buffer_pct_x100: 0,
        is_bottleneck: contains(full_op, "FULL"@) || contains(full_op, "CARTESIAN"@),
        bottleneck_tags: if contains(full_op, "FULL"@) {
            seq!["Table Full Scan"@]
        } else {
            seq![]
        },
        children: seq![],
    }
}

pub open spec fn parse_plan_row(t: Seq<char>) -> Option<PlanNodeView> {
    let parts = trimmed_parts(t, '|');
    if parts.len() >= 7 {
        match parse_signed(trim(strip_leading(parts[1], '*')), 2147483647) {
            Some(id) => Some(plan_row_node(id as i32, parts)),
            None => None,
        }
    } else {
        None
    }
}

pub struct XState {
    pub nodes: Seq<PlanNodeView>,
    pub preds: Seq<PairEntry>,
    pub aliases: Seq<PairEntry>,
    pub hints: Seq<Seq<char>>,
    pub in_alias: bool,
    pub in_outline: bool,
    pub in_pred: bool,
    pub cur_pred: Option<i32>,
}

pub open spec fn xinit() -> XState {
    XState {
        nodes: seq![],
        preds: seq![],
        aliases: seq![],
        hints: seq![],
        in_alias: false,
        in_outline: false,
        in_pred: false,
        cur_pred: None,
    }
}

pub open spec fn is_plan_row(t: Seq<char>) -> bool {
    starts_with(t, "|"@) && !contains(t, "Id"@) && !contains(t, "---"@)
}

pub open spec fn is_outline_hint(t: Seq<char>) -> bool {
    !starts_with(t, "/*"@) && !starts_with(t, "*/"@) && !contains(t, "OUTLINE_DATA"@)
        && !starts_with(t, "---"@) && t.len() > 0
}

/// The state after one line of plan text.
pub open spec fn xstep(st: XState, line: Seq<char>) -> XState {
    let t = trim(line);
    if contains(t, "Query Block Name / Object Alias"@) {
        XState { in_alias: true, in_outline: false, in_pred: false, ..st }
    } else if contains(t, "Outline Data"@) {
        XState { in_alias: false, in_outline: true, in_pred: false, ..st }
    } else if contains(t, "Predicate Information"@) {
        XState { in_alias: false, in_outline: false, in_pred: true, ..st }
    } else {
        let s1 = if contains(t, "Column Projection"@) || contains(t, "Note"@) {
            XState { in_alias: false, in_outline: false, in_pred: false, ..st }
        } else {
            st
        };
        let s2 = if !s1.in_alias && !s1.in_outline && !s1.in_pred && is_plan_row(t) {
            match parse_plan_row(t) {
                Some(n) => XState { nodes: s1.nodes.push(n), ..s1 },
                None => s1,
            }
        } else {
            s1
        };
        let s3 = if s2.in_alias {
            match parse_id_prefix_line(t) {
                Some((id, rest)) => {
                    let parts = trimmed_parts(rest, '/');
                    XState {
                        aliases: assoc_put(s2.aliases, id, if parts.len() > 1 {
                            Some(parts[1])
                        } else {
                            None
                        }, Some(parts[0])),
                        ..s2
                    }
                },
                None => s2,
            }
        } else {
            s2
        };
        let s4 = if s3.in_outline && is_outline_hint(t) {
            XState { hints: s3.hints.push(t), ..s3 }
        } else {
            s3
        };
        if s4.in_pred {
            match parse_id_prefix_line(t) {
                Some((id, rest)) => XState {
                    cur_pred: Some(id),
                    preds: append_predicate(s4.preds, id, rest),
                    ..s4
                },
                None => match s4.cur_pred {
                    Some(id) => if t.len() > 0 && !starts_with(t, "---"@) {
                        XState { preds: append_predicate(s4.preds, id, t), ..s4 }
                    } else {
                        s4
                    },
                    None => s4,
                },
            }
        } else {
            s4
        }
    }
}

pub open spec fn xfold(lines: Seq<Seq<char>>, i: int, st: XState) -> XState
    decreases lines.len() - i,
{
    if i < 0 || i >= lines.len() {
        st
    } else {
        xfold(lines, i + 1, xstep(st, lines[i]))
    }
}

/// Hint selection modes: by alias, by object name, hash joins, nested loops.
pub open spec fn hint_selected(h: Seq<char>, mode: u8, a: Seq<char>, b: Seq<char>) -> bool {
    if mode == 0 {
        contains(h, a) || contains(h, b)
    } else if mode == 1 {
        contains(h, a)
    } else if mode == 2 {
        starts_with(h, "USE_HASH"@)
    } else {
        starts_with(h, "USE_NL"@)
    }
}

pub open spec fn select_hints(hints: Seq<Seq<char>>, mode: u8, a: Seq<char>, b: Seq<char>) -> Seq<Seq<char>>
    decreases hints.len(),
{
    if hints.len() == 0 {
        seq![]
    } else {
        let rest = select_hints(hints.drop_last(), mode, a, b);
        if hint_selected(hints.last(), mode, a, b) {
            rest.push(hints.last())
        } else {
            rest
        }
    }
}

/// The outline hints that belong to a node.
pub open spec fn node_hints(
    alias: Option<Seq<char>>,
    object_name: Option<Seq<char>>,
    operation: Seq<char>,
    hints: Seq<Seq<char>>,
) -> Seq<Seq<char>> {
    let matched = match alias {
        Some(a) => select_hints(hints, 0, replace_lit(a, "\""@, seq![]), a),
        None => match object_name {
            Some(o) => select_hints(hints, 1, o, seq![]),
            None => seq![],
        },
    };
    if matched.len() == 0 {
        if contains(operation, "HASH"@) {
            select_hints(hints, 2, seq![], seq![])
        } else if contains(operation, "NL"@) || contains(operation, "NESTED"@) {
            select_hints(hints, 3, seq![], seq![])
        } else {
            seq![]
        }
    } else {
        matched
    }
}

/// A node with the predicates, alias, query block and hints that the
/// other sections give for its id.
pub open spec fn correlate(n: PlanNodeView, st: XState) -> PlanNodeView {
    let (acc, filt) = match assoc_get(st.preds, n.id) {
        Some(p) => p,
        None => (n.access_predicates, n.filter_predicates),
    };
    let (al, qb) = match assoc_get(st.aliases, n.id) {
        Some(p) => p,
        None => (n.object_alias, n.qblock_name),
    };
    PlanNodeView {
        access_predicates: acc,
        filter_predicates: filt,
        object_alias: al,
        qblock_name: qb,
        outline_hints: node_hints(al, n.object_name, n.operation, st.hints),
        ..n
    }
}

/// What `parse_xplan_output` returns for the plan text `x`.
pub open spec fn parse_xplan_spec(x: Seq<char>) -> Seq<PlanNodeView> {
    let st = xfold(lines_of(x), 0, xinit());
    st.nodes.map_values(|n: PlanNodeView| correlate(n, st))
}

/// The plan table row `line` (`| Id | Operation | Name | ... |`) is the one
/// that `n` was read from: its id column gives `n.id`, and `n` is marked as a
/// bottleneck exactly when the row's Operation column holds `FULL` (a full
/// scan) or `CARTESIAN` (a Cartesian join).
pub open spec fn row_marks(line: Seq<char>, n: PlanNodeView) -> bool {
    let t = trim(line);
    let cols = split_char(t, '|');
    &&& starts_with(t, "|"@)
    &&& cols.len() >= 7
    &&& parse_signed(trim(strip_leading(trim(cols[1]), '*')), 2147483647) matches Some(v) && n.id == v as i32
    &&& n.is_bottleneck == (contains(trim(cols[2]), "FULL"@) || contains(trim(cols[2]), "CARTESIAN"@))
}

proof fn lemma_xstep_nodes(st: XState, line: Seq<char>)
    ensures
        xstep(st, line).nodes == st.nodes || (parse_plan_row(trim(line)) matches Some(n) && is_plan_row(
            trim(line),
        ) && xstep(st, line).nodes == st.nodes.push(n)),
{
}

proof fn lemma_plan_row_marks(line: Seq<char>)
    requires
        is_plan_row(trim(line)),
        parse_plan_row(trim(line)) is Some,
    ensures
        row_marks(line, parse_plan_row(trim(line))->0),
{
    let t = trim(line);
    let parts = trimmed_parts(t, '|');
    assert(parts[1] == trim(split_char(t, '|')[1]));
    assert(parts[2] == trim(split_char(t, '|')[2]));
}

/// Some line among the first `upto` of `lines` is the plan table row that `n` was read from.
pub open spec fn read_from_row(lines: Seq<Seq<char>>, upto: int, n: PlanNodeView) -> bool {
    exists|j: int| 0 <= j < upto && #[trigger] row_marks(lines[j], n)
}

proof fn lemma_xfold_rows(lines: Seq<Seq<char>>, i: int, st: XState)
    requires
        0 <= i <= lines.len(),
        forall|m: int| 0 <= m < st.nodes.len() ==> read_from_row(lines, i, #[trigger] st.nodes[m]),
    ensures
        forall|m: int| 0 <= m < xfold(lines, i, st).nodes.len() ==> read_from_row(lines, lines.len() as int, #[trigger] xfold(lines, i, st).nodes[m]),
    decreases lines.len() - i,
{
    if i < lines.len() {
        let st2 = xstep(st, lines[i]);
        lemma_xstep_nodes(st, lines[i]);
        assert forall|m: int| 0 <= m < st2.nodes.len() implies read_from_row(lines, i + 1, #[trigger] st2.nodes[m]) by {
            if m < st.nodes.len() {
                assert(st2.nodes[m] == st.nodes[m]);
                assert(read_from_row(lines, i, st.nodes[m]));
                let j = choose|j: int| 0 <= j < i && #[trigger] row_marks(lines[j], st.nodes[m]);
                assert(row_marks(lines[j], st2.nodes[m]));
            } else {
                lemma_plan_row_marks(lines[i]);
                assert(row_marks(lines[i], st2.nodes[m]));
            }
        }
        lemma_xfold_rows(lines, i + 1, st2);
        assert(xfold(lines, i, st) == xfold(lines, i + 1, st2));
    }
}

/// Every node that `parse_xplan_output` reads stands for a row of the plan
/// table in the text: a line whose id column gives the node's id, and the
/// node is marked as a bottleneck exactly when that row's Operation column
/// holds `FULL` or `CARTESIAN`.
pub proof fn law_bottleneck_rows(x: Seq<char>)
    ensures
        forall|k: int| 0 <= k < parse_xplan_spec(x).len() ==> read_from_row(lines_of(x), lines_of(x).len() as int, #[trigger] parse_xplan_spec(x)[k]),
{
    let lines = lines_of(x);
    let st = xfold(lines, 0, xinit());
    lemma_xfold_rows(lines, 0, xinit());
    assert forall|k: int| 0 <= k < parse_xplan_spec(x).len() implies read_from_row(lines, lines.len() as int, #[trigger] parse_xplan_spec(x)[k]) by {
        let n = st.nodes[k];
        assert(parse_xplan_spec(x)[k] == correlate(n, st));
        assert(read_from_row(lines, lines.len() as int, n));
        let j = choose|j: int| 0 <= j < lines.len() && #[trigger] row_marks(lines[j], n);
        assert(row_marks(lines[j], correlate(n, st)));
    }
}

// ---------------------------------------------------------------------------
// Implementation
// ---------------------------------------------------------------------------

fn parse_i32_exec(s: &Vec<char>) -> (r: Option<i32>)
    ensures
        match parse_signed(s@, 2147483647) {
            Some(v) => r == Some(v as i32) && -2147483648 <= v <= 2147483647,
            None => r is None,
        },
{
    match parse_signed_exec(s, 2147483647) {
        Some((neg, m)) => {
            if neg {
                if m == 2147483648 {
                    Some(-2147483648i32)
                } else {
                    Some(-(m as i32))
                }
            } else {
                Some(m as i32)
            }
        },
        None => None,
    }
}

fn parse_i64_exec(s: &Vec<char>) -> (r: Option<i64>)
    ensures
        match parse_signed(s@, 9223372036854775807) {
            Some(v) => r == Some(v as i64) && -9223372036854775808 <= v <= 9223372036854775807,
            None => r is None,
        },
{
    match parse_signed_exec(s, 9223372036854775807) {
        Some((neg, m)) => {
            if neg {
                if m == 9223372036854775808 {
                    Some(-9223372036854775808i64)
                } else {
                    Some(-(m as i64))
                }
            } else {
                Some(m as i64)
            }
        },
        None => None,
    }
}

fn parse_id_prefix_line_exec(line: &Vec<char>) -> (r: Option<(i32, Vec<char>)>)
    ensures
        match parse_id_prefix_line(line@) {
            Some((id, rest)) => r matches Some((i, v)) && i == id && v@ == rest,
            None => r is None,
        },
{
    match find_char_exec(line, '-') {
        Some(idx) => {
            proof {
                crate::text::lemma_find_from_props(line@, seq!['-'], 0);
                assert(crate::text::matches_at(line@, seq!['-'], idx as int));
                assert(idx < line.len());
            }
            let left = trim_range(line, 0, idx);
            assert(line@.subrange(0, idx as int) =~= line@.take(idx as int));
            match parse_i32_exec(&left) {
                Some(id) => {
                    let rest = trim_range(line, idx + 1, line.len());
                    assert(line@.subrange(idx + 1, line@.len() as int) =~= line@.skip(idx + 1));
                    Some((id, rest))
                },
                None => None,
            }
        },
        None => None,
    }
}

fn unwrap_close_exec(s: &Vec<char>) -> (r: Vec<char>)
    ensures
        r@ == unwrap_close(s@),
{
    let n = s.len();
    if n > 0 && s[n - 1] == ')' {
        let r = slice_of(s, 0, n - 1);
        assert(r@ =~= s@.drop_last());
        r
    } else {
        copy_chars(s)
    }
}

fn append_predicate_exec(table: &mut PairTable, id: i32, text: &Vec<char>)
    ensures
        final(table)@ == append_predicate(old(table)@, id, text@),
{
    let (a, f) = match table.get(id) {
        Some(p) => p,
        None => (None, None),
    };
    let empty: Vec<char> = Vec::new();
    if contains_str(text, "access(") {
        let r = replace_str(text, "access(", "");
        assert(""@ =~= Seq::<char>::empty()) by {
            reveal_strlit("");
        }
        let clean = unwrap_close_exec(&r);
        table.put(id, Some(clean), f);
    } else if contains_str(text, "filter(") {
        let r = replace_str(text, "filter(", "");
        assert(""@ =~= Seq::<char>::empty()) by {
            reveal_strlit("");
        }
        let clean = unwrap_close_exec(&r);
        let nf = match f {
            Some(e) => {
                let mut v = copy_chars(&e);
                let and = chars_of(" AND ");
                append_chars(&mut v, &and);
                append_chars(&mut v, &clean);
                v
            },
            None => clean,
        };
        table.put(id, a, Some(nf));
    } else {
        table.put(id, a, f);
    }
}

fn trimmed_parts_exec(s: &Vec<char>, c: char) -> (r: Vec<Vec<char>>)
    ensures
        lines_view(r@) == trimmed_parts(s@, c),
{
    let parts = split_char_exec(s, c);
    let mut out: Vec<Vec<char>> = Vec::new();
    let mut i: usize = 0;
    while i < parts.len()
        invariant
            0 <= i <= parts.len(),
            lines_view(parts@) == split_char(s@, c),
            lines_view(out@) == trimmed_parts(s@, c).take(i as int),
        decreases parts.len() - i,
    {
        let ghost o = lines_view(out@);
        let t = trim_vec(&parts[i]);
        let ghost tv = t@;
        out.push(t);
        assert(lines_view(out@) =~= o.push(tv));
        assert(lines_view(parts@)[i as int] == parts@[i as int]@);
        assert(trimmed_parts(s@, c)[i as int] == trim(split_char(s@, c)[i as int]));
        i += 1;
        assert(lines_view(out@) =~= trimmed_parts(s@, c).take(i as int));
    }
    assert(trimmed_parts(s@, c).take(parts.len() as int) =~= trimmed_parts(s@, c));
    out
}

fn opt_nonempty(sub: Vec<char>) -> (r: Option<Vec<char>>)
    ensures
        ochars(r) == if sub@.len() == 0 {
            None
        } else {
            Some(sub@)
        },
{
    if sub.len() == 0 {
        None
    } else {
        Some(sub)
    }
}

fn split_operation_exec(full_op: &Vec<char>) -> (r: (Vec<char>, Option<Vec<char>>))
    ensures
        (r.0@, ochars(r.1)) == split_operation(full_op@),
{
    proof {
        reveal_strlit("");
    }
    if contains_str(full_op, "TABLE ACCESS") {
        let rr = replace_str(full_op, "TABLE ACCESS", "");
        assert(""@ =~= Seq::<char>::empty());
        let sub = trim_vec(&rr);
        (chars_of("TABLE ACCESS"), opt_nonempty(sub))
    } else if contains_str(full_op, "INDEX") {
        let rr = replace_str(full_op, "INDEX", "");
        assert(""@ =~= Seq::<char>::empty());
        let sub = trim_vec(&rr);
        (chars_of("INDEX"), opt_nonempty(sub))
    } else {
        (copy_chars(full_op), None)
    }
}

fn parse_cost_exec(col: &Vec<char>) -> (r: Option<i64>)
    ensures
        r == parse_cost(col@),
{
    match first_word_exec(col) {
        Some(w) => parse_i64_exec(&w),
        None => None,
    }
}

fn opt_string(o: Option<Vec<char>>) -> (r: Option<String>)
    ensures
        opt_view(r) == ochars(o),
{
    match o {
        Some(v) => Some(string_from(&v)),
        None => None,
    }
}

fn plan_row_node_exec(id: i32, parts: &Vec<Vec<char>>) -> (r: PlanNode)
    requires
        parts.len() >= 7,
    ensures
        r@ == plan_row_node(id, lines_view(parts@)),
{
    let ghost pv = lines_view(parts@);
    assert(pv[2] == parts@[2]@ && pv[3] == parts@[3]@ && pv[4] == parts@[4]@ && pv[6] == parts@[6]@);
    let full_op = &parts[2];
    let (op, opt) = split_operation_exec(full_op);
    let rows: u64 = match parse_unsigned_exec(&parts[4], 18446744073709551615) {
        Some(v) => v,
        None => 1,
    };
    let cost = parse_cost_exec(&parts[6]);
    let c: i64 = match cost {
        Some(v) => v,
        None => 1,
    };
    let is_full = contains_str(full_op, "FULL");
    let is_bottleneck = is_full || contains_str(full_op, "CARTESIAN");
    let mut tags: Vec<String> = Vec::new();
    if is_full {
        tags.push(String::from_str("Table Full Scan"));
    }
    let name = if parts[3].len() == 0 {
        None
    } else {
        Some(string_from(&parts[3]))
    };
    let r = PlanNode {
        id: id,
        parent_id: if id > 0 {
            Some(0i32)
        } else {
            None
        },
        position: id.wrapping_add(1),
        operation: string_from(&op),
        options: opt_string(opt),
        object_name: name,
        starts: 1,
        e_rows: rows,
        a_rows: rows,
        a_time_us: 100,
        buffers: (c as u64).wrapping_mul(3),
        reads: 0,
        cost: cost,
        access_predicates: None,
        filter_predicates: None,
        object_alias: None,
        outline_hints: Vec::new(),
        qblock_name: None,
        cardinality_ratio_x100: 100,
        buffer_pct_x100: 0,
        is_bottleneck: is_bottleneck,
        bottleneck_tags: tags,
        children: Vec::new(),
    };
    let ghost spec_n = plan_row_node(id, pv);
    assert(strings_view(r.outline_hints@) =~= spec_n.outline_hints);
    assert(strings_view(r.bottleneck_tags@) =~= spec_n.bottleneck_tags);
    assert(r@.children =~= spec_n.children);
    assert(r@ =~~= spec_n);
    r
}

fn parse_plan_row_exec(t: &Vec<char>) -> (r: Option<PlanNode>)
    ensures
        match parse_plan_row(t@) {
            Some(n) => r matches Some(m) && m@ == n,
            None => r is None,
        },
{
    let parts = trimmed_parts_exec(t, '|');
    if parts.len() >= 7 {
        assert(lines_view(parts@)[1] == parts@[1]@);
        let stripped = strip_leading_exec(&parts[1], '*');
        let id_str = trim_vec(&stripped);
        match parse_i32_exec(&id_str) {
            Some(id) => Some(plan_row_node_exec(id, &parts)),
            None => None,
        }
    } else {
        None
    }
}

pub struct XExec {
    pub nodes: Vec<PlanNode>,
    pub preds: PairTable,
    pub aliases: PairTable,
    pub hints: Vec<Vec<char>>,
    pub in_alias: bool,
    pub in_outline: bool,
    pub in_pred: bool,
    pub cur_pred: Option<i32>,
}

impl View for XExec {
    type V = XState;

    open spec fn view(&self) -> XState {
        XState {
            nodes: nodes_view(self.nodes@),
            preds: self.preds@,
            aliases: self.aliases@,
            hints: lines_view(self.hints@),
            in_alias: self.in_alias,
            in_outline: self.in_outline,
            in_pred: self.in_pred,
            cur_pred: self.cur_pred,
        }
    }
}

fn xstep_exec(st: &mut XExec, line: &Vec<char>)
    ensures
        final(st)@ == xstep(old(st)@, line@),
{
    let ghost st0 = st@;
    let t = trim_vec(line);
    if contains_str(&t, "Query Block Name / Object Alias") {
        st.in_alias = true;
        st.in_outline = false;
        st.in_pred = false;
        return;
    } else if contains_str(&t, "Outline Data") {
        st.in_alias = false;
        st.in_outline = true;
        st.in_pred = false;
        return;
    } else if contains_str(&t, "Predicate Information") {
        st.in_alias = false;
        st.in_outline = false;
        st.in_pred = true;
        return;
    }
    if contains_str(&t, "Column Projection") || contains_str(&t, "Note") {
        st.in_alias = false;
        st.in_outline = false;
        st.in_pred = false;
    }
    let ghost s1 = st@;
    if !st.in_alias && !st.in_outline && !st.in_pred && starts_with_str(&t, "|") && !contains_str(&t, "Id")
        && !contains_str(&t, "---") {
        match parse_plan_row_exec(&t) {
            Some(n) => {
                let ghost nv = n@;
                st.nodes.push(n);
                assert(nodes_view(st.nodes@) =~= s1.nodes.push(nv));
            },
            None => {},
        }
    }
    let ghost s2 = st@;
    assert(s2 == (if !s1.in_alias && !s1.in_outline && !s1.in_pred && is_plan_row(t@) {
        match parse_plan_row(t@) {
            Some(n) => XState { nodes: s1.nodes.push(n), ..s1 },
            None => s1,
        }
    } else {
        s1
    }));
    if st.in_alias {
        match parse_id_prefix_line_exec(&t) {
            Some((id, rest)) => {
                let parts = trimmed_parts_exec(&rest, '/');
                proof {
                    reveal_with_fuel(split_char, 1);
                    assert(split_char(rest@, '/').len() >= 1);
                }
                assert(lines_view(parts@)[0] == parts@[0]@);
                let al = if parts.len() > 1 {
                    assert(lines_view(parts@)[1] == parts@[1]@);
                    Some(copy_chars(&parts[1]))
                } else {
                    None
                };
                let qb = Some(copy_chars(&parts[0]));
                st.aliases.put(id, al, qb);
            },
            None => {},
        }
    }
    let ghost s3 = st@;
    if st.in_outline && !starts_with_str(&t, "/*") && !starts_with_str(&t, "*/") && !contains_str(&t, "OUTLINE_DATA")
        && !starts_with_str(&t, "---") && t.len() > 0 {
        let ghost hv = lines_view(st.hints@);
        st.hints.push(copy_chars(&t));
        assert(lines_view(st.hints@) =~= hv.push(t@));
    }
    let ghost s4 = st@;
    if st.in_pred {
        match parse_id_prefix_line_exec(&t) {
            Some((id, rest)) => {
                st.cur_pred = Some(id);
                append_predicate_exec(&mut st.preds, id, &rest);
            },
            None => {
                match st.cur_pred {
                    Some(id) => {
                        if t.len() > 0 && !starts_with_str(&t, "---") {
                            append_predicate_exec(&mut st.preds, id, &t);
                        }
                    },
                    None => {},
                }
            },
        }
    }
    assert(st@ =~~= xstep(st0, line@));
}

fn select_hints_exec(hints: &Vec<Vec<char>>, mode: u8, a: &Vec<char>, b: &Vec<char>) -> (r: Vec<String>)
    ensures
        strings_view(r@) == select_hints(lines_view(hints@), mode, a@, b@),
{
    let mut out: Vec<String> = Vec::new();
    let mut i: usize = 0;
    while i < hints.len()
        invariant
            0 <= i <= hints.len(),
            strings_view(out@) == select_hints(lines_view(hints@).take(i as int), mode, a@, b@),
        decreases hints.len() - i,
    {
        let h = &hints[i];
        let sel = if mode == 0 {
            contains_exec(h, a) || contains_exec(h, b)
        } else if mode == 1 {
            contains_exec(h, a)
        } else if mode == 2 {
            starts_with_str(h, "USE_HASH")
        } else {
            starts_with_str(h, "USE_NL")
        };
        let ghost o = strings_view(out@);
        assert(lines_view(hints@).take(i + 1).drop_last() =~= lines_view(hints@).take(i as int));
        assert(lines_view(hints@).take(i + 1).last() == h@);
        if sel {
            out.push(string_from(h));
            assert(strings_view(out@) =~= o.push(h@));
        }
        i += 1;
    }
    assert(lines_view(hints@).take(hints.len() as int) =~= lines_view(hints@));
    out
}

fn node_hints_exec(
    alias: &Option<Vec<char>>,
    object_name: &Option<String>,
    operation: &String,
    hints: &Vec<Vec<char>>,
) -> (r: Vec<String>)
    ensures
        strings_view(r@) == node_hints(ochars(*alias), opt_view(*object_name), operation@, lines_view(hints@)),
{
    let empty: Vec<char> = Vec::new();
    proof {
        reveal_strlit("");
    }
    let matched = match alias {
        Some(a) => {
            let clean = replace_str(a, "\"", "");
            assert(""@ =~= Seq::<char>::empty());
            select_hints_exec(hints, 0, &clean, a)
        },
        None => match object_name {
            Some(o) => {
                let ov = chars_of(o.as_str());
                select_hints_exec(hints, 1, &ov, &empty)
            },
            None => {
                let e: Vec<String> = Vec::new();
                assert(strings_view(e@) =~= Seq::<Seq<char>>::empty());
                e
            },
        },
    };
    if matched.len() == 0 {
        let op = chars_of(operation.as_str());
        if contains_str(&op, "HASH") {
            select_hints_exec(hints, 2, &empty, &empty)
        } else if contains_str(&op, "NL") || contains_str(&op, "NESTED") {
            select_hints_exec(hints, 3, &empty, &empty)
        } else {
            let r: Vec<String> = Vec::new();
            assert(strings_view(r@) =~= Seq::<Seq<char>>::empty());
            r
        }
    } else {
        matched
    }
}

fn correlate_exec(n: &mut PlanNode, st: &XExec)
    ensures
        final(n)@ == correlate(old(n)@, st@),
{
    let ghost n0 = n@;
    match st.preds.get(n.id) {
        Some((a, f)) => {
            n.access_predicates = opt_string(a);
            n.filter_predicates = opt_string(f);
        },
        None => {},
    }
    let (al, qb) = match st.aliases.get(n.id) {
        Some((a, q)) => (a, q),
        None => {
            let a = match &n.object_alias {
                Some(s) => Some(chars_of(s.as_str())),
                None => None,
            };
            let q = match &n.qblock_name {
                Some(s) => Some(chars_of(s.as_str())),
                None => None,
            };
            (a, q)
        },
    };
    let hints = node_hints_exec(&al, &n.object_name, &n.operation, &st.hints);
    n.object_alias = opt_string(al);
    n.qblock_name = opt_string(qb);
    n.outline_hints = hints;
    assert(n@.children =~= n0.children);
    assert(n@ =~~= correlate(n0, st@));
}

/// The plan nodes of `DBMS_XPLAN.DISPLAY` output, in the order of the
/// plan table, each with the access and filter predicates, the object
/// alias and query block, and the outline hints that name its alias (or,
/// without one, its object; for joins without either, the join hints).
pub fn parse_xplan_chars(x: &Vec<char>) -> (r: Vec<PlanNode>)
    ensures
        nodes_view(r@) == parse_xplan_spec(x@),
{
    let lines = lines_exec(x);
    let ghost lv = lines_view(lines@);
    let mut st = XExec {
        nodes: Vec::new(),
        preds: PairTable { entries: Vec::new() },
        aliases: PairTable { entries: Vec::new() },
        hints: Vec::new(),
        in_alias: false,
        in_outline: false,
        in_pred: false,
        cur_pred: None,
    };
    assert(nodes_view(st.nodes@) =~= Seq::<PlanNodeView>::empty());
    assert(st.preds@ =~= Seq::<PairEntry>::empty());
    assert(st.aliases@ =~= Seq::<PairEntry>::empty());
    assert(lines_view(st.hints@) =~= Seq::<Seq<char>>::empty());
    assert(st@ =~~= xinit());
    let mut i: usize = 0;
    while i < lines.len()
        invariant
            lv == lines_view(lines@),
            lv == lines_of(x@),
            0 <= i <= lines.len(),
            xfold(lv, i as int, st@) == xfold(lv, 0, xinit()),
        decreases lines.len() - i,
    {
        assert(lv[i as int] == lines@[i as int]@);
        xstep_exec(&mut st, &lines[i]);
        i += 1;
    }
    let ghost fin = st@;
    assert(fin == xfold(lines_of(x@), 0, xinit()));
    let mut nodes = st.nodes;
    let st2 = XExec {
        nodes: Vec::new(),
        preds: st.preds,
        aliases: st.aliases,
        hints: st.hints,
        in_alias: st.in_alias,
        in_outline: st.in_outline,
        in_pred: st.in_pred,
        cur_pred: st.cur_pred,
    };
    let mut out: Vec<PlanNode> = Vec::new();
    let mut k: usize = 0;
    let ghost nv = nodes_view(nodes@);
    let n0 = nodes.len();
    assert(nv.len() == n0);
    while nodes.len() > 0
        invariant
            nv == fin.nodes,
            st2.preds@ == fin.preds,
            st2.aliases@ == fin.aliases,
            lines_view(st2.hints@) == fin.hints,
            k + nodes.len() == nv.len(),
            nodes_view(nodes@) == nv.skip(k as int),
            nodes_view(out@) == nv.take(k as int).map_values(|n: PlanNodeView| correlate(n, fin)),
            nv.len() <= usize::MAX,
        decreases nodes.len(),
    {
        let ghost before = nodes@;
        assert(nodes_view(before)[0] == node_view(before[0]));
        assert(nv.skip(k as int)[0] == nv[k as int]);
        let mut n = nodes.remove(0);
        assert(n == before[0]);
        assert(nv[k as int] == n@);
        assert(nodes@ == before.subrange(1, before.len() as int));
        correlate_exec(&mut n, &st2);
        assert(st2@.preds == fin.preds && st2@.aliases == fin.aliases && st2@.hints == fin.hints);
        assert(correlate(nv[k as int], st2@) == correlate(nv[k as int], fin));
        let ghost o = nodes_view(out@);
        let ghost cn = n@;
        out.push(n);
        assert(nodes_view(out@) =~= o.push(cn));
        assert(nv.take(k + 1) =~= nv.take(k as int).push(nv[k as int]));
        assert(nodes_view(nodes@) =~= nodes_view(before).subrange(1, before.len() as int));
        k += 1;
        assert(nodes_view(out@) =~= nv.take(k as int).map_values(|n: PlanNodeView| correlate(n, fin)));
        assert(nodes_view(nodes@) =~= nv.skip(k as int));
    }
    assert(nv.take(k as int) =~= nv);
    out
}

} // verus!
