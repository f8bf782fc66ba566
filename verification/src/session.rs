//! A database session: connection state, the SQL*Plus scripts it sends,
//! and what it makes of SQL*Plus output (CSV rows, plans, errors).
//!
//! Running SQL*Plus is left to the caller; the session takes what came
//! back and decides what to keep and what to show.
use vstd::prelude::*;
use crate::models::{
    copy_opt, copy_string, default_config, nodes_view, opt_view, rows_view,
    strings_view, ConnectionConfig, ConnectionConfigView, PlanNode, PlanNodeView, QueryResult,
    QueryResultView,
};
use crate::mock::{mock_answer, MockEngine};
use crate::numfmt::{dec_text, millis_chars, millis_text, size_chars, size_text, u64_text};
use crate::regex_api::{captures, compile_regex, groups_view, regex_captures, regex_compiles};
use crate::text::{
    append_chars, append_str, chars_of, contains, contains_str, lines_exec, lines_of,
    lines_view, parse_unsigned, parse_unsigned_exec, split_char, split_char_exec, starts_with,
    starts_with_str, string_from, strip_trailing, strip_trailing_exec, trim, trim_vec, matches_at,
    lemma_find_from_props,
};
use crate::xplan::{parse_xplan_chars, parse_xplan_spec};

verus! {

// ---------------------------------------------------------------------------
// Progress of a running statement
// ---------------------------------------------------------------------------

/// How much output a running statement has produced, and whether the user
/// asked to stop it.
pub struct QueryProgressTracker {
    pub bytes_read: usize,
    pub rows_read: usize,
    pub is_cancelled: bool,
}

/// The message given when the user stops a statement.
pub open spec fn cancelled_message() -> Seq<char> {
    "사용자에 의해 쿼리 실행이 중단되었습니다."@
}

impl QueryProgressTracker {
    /// Nothing read yet, not cancelled.
    pub fn new() -> (r: Self)
        ensures
            r.bytes_read == 0,
            r.rows_read == 0,
            !r.is_cancelled,
    {
        QueryProgressTracker { bytes_read: 0, rows_read: 0, is_cancelled: false }
    }

    /// Asks the running statement to stop.
    pub fn cancel(&mut self)
        ensures
            final(self).is_cancelled,
            final(self).bytes_read == old(self).bytes_read,
            final(self).rows_read == old(self).rows_read,
    {
        self.is_cancelled = true;
    }

    /// Takes one line of `n` bytes read from SQL*Plus. When the statement
    /// was cancelled, nothing is counted and the cancellation message is
    /// returned; otherwise the line is counted (the counters wrap around
    /// as atomic additions do) and appended to `output`.
    pub fn take_line(&mut self, output: &mut Vec<char>, line: &str, n: usize) -> (r: Result<(), String>)
        ensures
            old(self).is_cancelled ==> (r matches Err(e) && e@ == cancelled_message()
                && *final(self) == *old(self) && final(output)@ == old(output)@),
            !old(self).is_cancelled ==> r is Ok
                && final(self).bytes_read == old(self).bytes_read.wrapping_add(n)
                && final(self).rows_read == old(self).rows_read.wrapping_add(1)
                && !final(self).is_cancelled
                && final(output)@ == old(output)@ + line@,
    {
        if self.is_cancelled {
            return Err(String::from_str("사용자에 의해 쿼리 실행이 중단되었습니다."));
        }
        self.bytes_read = self.bytes_read.wrapping_add(n);
        self.rows_read = self.rows_read.wrapping_add(1);
        append_str(output, line);
        Ok(())
    }
}

// ---------------------------------------------------------------------------
// SQL*Plus exit status and error lines
// ---------------------------------------------------------------------------

pub open spec fn is_error_line(t: Seq<char>) -> bool {
    starts_with(t, "ORA-"@) || starts_with(t, "SP2-"@)
}

/// The trimmed lines that start with `ORA-` or `SP2-`, in order.
pub open spec fn error_lines(ls: Seq<Seq<char>>) -> Seq<Seq<char>>
    decreases ls.len(),
{
    if ls.len() == 0 {
        seq![]
    } else {
        let prev = error_lines(ls.drop_last());
        let t = trim(ls.last());
        if is_error_line(t) {
            prev.push(t)
        } else {
            prev
        }
    }
}

/// The pieces joined by single spaces.
pub open spec fn join_spaced(ls: Seq<Seq<char>>) -> Seq<char>
    decreases ls.len(),
{
    if ls.len() == 0 {
        seq![]
    } else if ls.len() == 1 {
        ls[0]
    } else {
        join_spaced(ls.drop_last()) + seq![' '] + ls.last()
    }
}

/// Whether a SQL*Plus run failed: a failing exit status, or `ERROR:` or
/// `ORA-` in its output.
pub open spec fn sqlplus_failed(success: bool, out: Seq<char>) -> bool {
    !success || contains(out, "ERROR:"@) || contains(out, "ORA-"@)
}

/// The message of a failed run: its `ORA-` and `SP2-` lines (standard
/// output first) joined by spaces, or else its trimmed output.
pub open spec fn sqlplus_error(out: Seq<char>, err: Seq<char>) -> Seq<char> {
    let e = error_lines(lines_of(out) + lines_of(err));
    if e.len() == 0 {
        trim(out)
    } else {
        join_spaced(e)
    }
}

/// `msg` followed by the pieces, each after a space; just the pieces,
/// space-joined, when `msg` is still empty.
pub open spec fn extend_spaced(msg: Seq<char>, fresh: bool, e: Seq<Seq<char>>) -> Seq<char> {
    if fresh {
        join_spaced(e)
    } else if e.len() == 0 {
        msg
    } else {
        msg + seq![' '] + join_spaced(e)
    }
}

fn collect_error_lines(lines: &Vec<Vec<char>>, msg: &mut Vec<char>)
    ensures
        final(msg)@ == extend_spaced(old(msg)@, old(msg)@.len() == 0, error_lines(lines_view(lines@))),
        final(msg)@.len() == 0 <==> (old(msg)@.len() == 0 && error_lines(lines_view(lines@)).len() == 0),
{
    let mut i: usize = 0;
    let ghost m0 = msg@;
    assert(lines_view(lines@).take(0) =~= Seq::<Seq<char>>::empty());
    while i < lines.len()
        invariant
            0 <= i <= lines.len(),
            msg@ == extend_spaced(m0, m0.len() == 0, error_lines(lines_view(lines@).take(i as int))),
            msg@.len() == 0 <==> (m0.len() == 0 && error_lines(lines_view(lines@).take(i as int)).len() == 0),
        decreases lines.len() - i,
    {
        let ghost prev = lines_view(lines@).take(i as int);
        let ghost ep = error_lines(prev);
        let t = trim_vec(&lines[i]);
        assert(lines_view(lines@).take(i + 1) =~= prev.push(lines@[i as int]@));
        assert(lines_view(lines@).take(i + 1).drop_last() =~= prev);
        if starts_with_str(&t, "ORA-") || starts_with_str(&t, "SP2-") {
            proof {
                reveal_strlit("ORA-");
                reveal_strlit("SP2-");
            }
            assert(t@.len() >= 4);
            let ghost e2 = ep.push(t@);
            assert(error_lines(lines_view(lines@).take(i + 1)) == e2);
            if msg.len() > 0 {
                msg.push(' ');
            }
            append_chars(msg, &t);
            proof {
                assert(e2.drop_last() =~= ep);
                if ep.len() == 0 {
                    assert(e2 =~= seq![t@]);
                }
                if m0.len() == 0 {
                    assert(msg@ =~= join_spaced(e2));
                } else {
                    assert(msg@ =~= m0 + seq![' '] + join_spaced(e2));
                }
            }
        } else {
            assert(error_lines(lines_view(lines@).take(i + 1)) == ep);
        }
        i += 1;
    }
    assert(lines_view(lines@).take(lines.len() as int) =~= lines_view(lines@));
}

proof fn lemma_error_lines_concat(a: Seq<Seq<char>>, b: Seq<Seq<char>>)
    ensures
        error_lines(a + b) == error_lines(a) + error_lines(b),
    decreases b.len(),
{
    if b.len() == 0 {
        assert(a + b =~= a);
        assert(error_lines(a) + error_lines(b) =~= error_lines(a));
    } else {
        assert((a + b).drop_last() =~= a + b.drop_last());
        lemma_error_lines_concat(a, b.drop_last());
        let t = trim(b.last());
        if is_error_line(t) {
            assert(error_lines(a) + error_lines(b) =~= (error_lines(a) + error_lines(b.drop_last())).push(t));
        } else {
            assert(error_lines(a) + error_lines(b) =~= error_lines(a) + error_lines(b.drop_last()));
        }
    }
}

proof fn lemma_join_spaced_concat(a: Seq<Seq<char>>, b: Seq<Seq<char>>)
    requires
        a.len() > 0,
        b.len() > 0,
    ensures
        join_spaced(a + b) == join_spaced(a) + seq![' '] + join_spaced(b),
    decreases b.len(),
{
    if b.len() == 1 {
        assert((a + b).drop_last() =~= a);
    } else {
        assert((a + b).drop_last() =~= a + b.drop_last());
        lemma_join_spaced_concat(a, b.drop_last());
    }
}

proof fn lemma_error_line_kept(ls: Seq<Seq<char>>, k: int) -> (j: int)
    requires
        0 <= k < ls.len(),
        is_error_line(trim(ls[k])),
    ensures
        0 <= j < error_lines(ls).len(),
        error_lines(ls)[j] == trim(ls[k]),
    decreases ls.len(),
{
    let prev = error_lines(ls.drop_last());
    if k == ls.len() - 1 {
        prev.len() as int
    } else {
        assert(ls.drop_last()[k] == ls[k]);
        let j = lemma_error_line_kept(ls.drop_last(), k);
        if is_error_line(trim(ls.last())) {
            assert(error_lines(ls) == prev.push(trim(ls.last())));
        }
        j
    }
}

proof fn lemma_join_spaced_has(e: Seq<Seq<char>>, j: int) -> (m: int)
    requires
        0 <= j < e.len(),
    ensures
        matches_at(join_spaced(e), e[j], m),
    decreases e.len(),
{
    if e.len() == 1 {
        assert(join_spaced(e).subrange(0, e[0].len() as int) =~= e[0]);
        0
    } else {
        let a = join_spaced(e.drop_last());
        assert(join_spaced(e) == a + seq![' '] + e.last());
        if j == e.len() - 1 {
            let m: int = (a.len() + 1) as int;
            assert(join_spaced(e).subrange(m, m + e[j].len()) =~= e[j]);
            m
        } else {
            let m = lemma_join_spaced_has(e.drop_last(), j);
            assert(e.drop_last()[j] == e[j]);
            assert(join_spaced(e).subrange(m, m + e[j].len()) =~= a.subrange(m, m + e[j].len()));
            m
        }
    }
}

/// A SQL*Plus run whose output holds an Oracle error (`ORA-`) has failed,
/// whatever its exit status, and its error message holds each of the
/// output's `ORA-` lines.
pub proof fn law_oracle_errors_fail(success: bool, out: Seq<char>, err: Seq<char>)
    requires
        contains(out, "ORA-"@),
    ensures
        sqlplus_failed(success, out),
        forall|k: int|
            0 <= k < lines_of(out).len() && starts_with(trim(lines_of(out)[k]), "ORA-"@) ==> contains(
                sqlplus_error(out, err),
                trim(#[trigger] lines_of(out)[k]),
            ),
{
    assert forall|k: int|
        0 <= k < lines_of(out).len() && starts_with(trim(lines_of(out)[k]), "ORA-"@) implies contains(
            sqlplus_error(out, err),
            trim(#[trigger] lines_of(out)[k]),
        ) by {
        let ls = lines_of(out) + lines_of(err);
        assert(ls[k] == lines_of(out)[k]);
        let j = lemma_error_line_kept(ls, k);
        let e = error_lines(ls);
        let m = lemma_join_spaced_has(e, j);
        assert(sqlplus_error(out, err) == join_spaced(e));
        lemma_find_from_props(join_spaced(e), e[j], 0);
    }
}

/// What a SQL*Plus run comes to, given its exit status and its standard
/// output and error: the output when it succeeded, else the error message.
pub fn sqlplus_outcome(success: bool, stdout: &str, stderr: &str) -> (r: Result<String, String>)
    ensures
        !sqlplus_failed(success, stdout@) ==> (r matches Ok(o) && o@ == stdout@),
        sqlplus_failed(success, stdout@) ==> (r matches Err(e) && e@ == sqlplus_error(stdout@, stderr@)),
{
    let out = chars_of(stdout);
    if success && !contains_str(&out, "ERROR:") && !contains_str(&out, "ORA-") {
        return Ok(string_from(&out));
    }
    let out_lines = lines_exec(&out);
    let err_chars = chars_of(stderr);
    let err_lines = lines_exec(&err_chars);
    let mut msg: Vec<char> = Vec::new();
    collect_error_lines(&out_lines, &mut msg);
    collect_error_lines(&err_lines, &mut msg);
    proof {
        let a = error_lines(lines_of(stdout@));
        let b = error_lines(lines_of(stderr@));
        lemma_error_lines_concat(lines_of(stdout@), lines_of(stderr@));
        assert(error_lines(lines_of(stdout@) + lines_of(stderr@)) == a + b);
        if a.len() > 0 && b.len() > 0 {
            lemma_join_spaced_concat(a, b);
        }
        if a.len() == 0 {
            assert(a + b =~= b);
        }
        if b.len() == 0 {
            assert(a + b =~= a);
        }
    }
    if msg.len() == 0 {
        let t = trim_vec(&out);
        Err(string_from(&t))
    } else {
        Err(string_from(&msg))
    }
}

// ---------------------------------------------------------------------------
// CSV output (SET MARKUP CSV ON QUOTE ON)
// ---------------------------------------------------------------------------

/// The fields of one CSV line from index `i` on, with the fields finished
/// so far, the field being read and whether a quote is open. A doubled
/// quote inside quotes stands for one quote; a comma outside quotes ends a
/// field; every field is trimmed.
pub open spec fn csv_from(line: Seq<char>, i: int, fields: Seq<Seq<char>>, cur: Seq<char>, q: bool) -> Seq<
    Seq<char>,
>
    decreases line.len() - i,
{
    if i < 0 || i >= line.len() {
        fields.push(trim(cur))
    } else {
        let c = line[i];
        if c == '"' {
            if q && i + 1 < line.len() && line[i + 1] == '"' {
                csv_from(line, i + 2, fields, cur.push('"'), q)
            } else {
                csv_from(line, i + 1, fields, cur, !q)
            }
        } else if c == ',' && !q {
            csv_from(line, i + 1, fields.push(trim(cur)), seq![], q)
        } else {
            csv_from(line, i + 1, fields, cur.push(c), q)
        }
    }
}

pub open spec fn csv_fields(line: Seq<char>) -> Seq<Seq<char>> {
    csv_from(line, 0, seq![], seq![], false)
}

/// A field's text inside its quotes, with each `"` doubled.
pub open spec fn csv_escape(f: Seq<char>) -> Seq<char>
    decreases f.len(),
{
    if f.len() == 0 {
        seq![]
    } else if f[0] == '"' {
        seq!['"', '"'] + csv_escape(f.drop_first())
    } else {
        seq![f[0]] + csv_escape(f.drop_first())
    }
}

/// A field in quotes.
pub open spec fn csv_quoted(f: Seq<char>) -> Seq<char> {
    seq!['"'] + csv_escape(f) + seq!['"']
}

/// The fields, each in quotes, joined with commas.
pub open spec fn csv_line_of(fields: Seq<Seq<char>>) -> Seq<char>
    decreases fields.len(),
{
    if fields.len() <= 1 {
        if fields.len() == 1 {
            csv_quoted(fields[0])
        } else {
            seq![]
        }
    } else {
        csv_quoted(fields[0]) + seq![','] + csv_line_of(fields.drop_first())
    }
}

/// Inside quotes, an escaped field reads back as the field.
proof fn lemma_csv_body(line: Seq<char>, i: int, f: Seq<char>, fields: Seq<Seq<char>>, cur: Seq<char>)
    requires
        0 <= i,
        i + csv_escape(f).len() <= line.len(),
        line.subrange(i, i + csv_escape(f).len()) == csv_escape(f),
    ensures
        csv_from(line, i, fields, cur, true) == csv_from(line, i + csv_escape(f).len(), fields, cur + f, true),
    decreases f.len(),
{
    let e = csv_escape(f);
    if f.len() == 0 {
        assert(cur + f =~= cur);
    } else {
        let r = f.drop_first();
        let er = csv_escape(r);
        if f[0] == '"' {
            assert(e == seq!['"', '"'] + er);
            assert(line[i] == e[0]);
            assert(line[i + 1] == e[1]);
            assert(line.subrange(i + 2, i + 2 + er.len()) =~= er) by {
                assert forall|k: int| 0 <= k < er.len() implies line.subrange(i + 2, i + 2 + er.len())[k] == er[k] by {
                    assert(line.subrange(i, i + e.len())[k + 2] == e[k + 2]);
                }
            }
            lemma_csv_body(line, i + 2, r, fields, cur.push('"'));
            assert(cur.push('"') + r =~= cur + f);
        } else {
            assert(e == seq![f[0]] + er);
            assert(line[i] == e[0]);
            assert(line.subrange(i + 1, i + 1 + er.len()) =~= er) by {
                assert forall|k: int| 0 <= k < er.len() implies line.subrange(i + 1, i + 1 + er.len())[k] == er[k] by {
                    assert(line.subrange(i, i + e.len())[k + 1] == e[k + 1]);
                }
            }
            lemma_csv_body(line, i + 1, r, fields, cur.push(f[0]));
            assert(cur.push(f[0]) + r =~= cur + f);
        }
    }
}

proof fn lemma_csv_line(line: Seq<char>, i: int, fields: Seq<Seq<char>>, done: Seq<Seq<char>>)
    requires
        0 <= i <= line.len(),
        line.skip(i) == csv_line_of(fields),
        fields.len() >= 1,
        forall|k: int| 0 <= k < fields.len() ==> trim(#[trigger] fields[k]) == fields[k],
    ensures
        csv_from(line, i, done, seq![], false) == done + fields,
    decreases fields.len(),
{
    let f = fields[0];
    let e = csv_escape(f);
    let q = csv_quoted(f);
    let tail = csv_line_of(fields);
    assert(tail.len() >= q.len());
    assert(tail.subrange(0, q.len() as int) =~= q) by {
        if fields.len() > 1 {
            assert(tail == q + seq![','] + csv_line_of(fields.drop_first()));
        }
    }
    assert forall|k: int| 0 <= k < q.len() implies line[i + k] == #[trigger] q[k] by {
        assert(line.skip(i)[k] == line[i + k]);
        assert(tail.subrange(0, q.len() as int)[k] == tail[k]);
    }
    assert(q[0] == '"');
    assert(line[i + 0] == q[0]);
    assert(line[i] == '"');
    assert(csv_from(line, i, done, seq![], false) == csv_from(line, i + 1, done, seq![], true));
    assert(line.subrange(i + 1, i + 1 + e.len()) =~= e) by {
        assert forall|k: int| 0 <= k < e.len() implies line.subrange(i + 1, i + 1 + e.len())[k] == e[k] by {
            assert(q[k + 1] == e[k]);
        }
    }
    lemma_csv_body(line, i + 1, f, done, seq![]);
    assert(Seq::<char>::empty() + f =~= f);
    let j = i + 1 + e.len();
    assert(line[j] == '"') by {
        assert(q[q.len() - 1] == '"');
    }
    if fields.len() == 1 {
        assert(tail == q);
        assert(line.len() == j + 1) by {
            assert(line.skip(i).len() == q.len());
        }
        assert(csv_from(line, j, done, f, true) == csv_from(line, j + 1, done, f, false));
        assert(done + fields =~= done.push(f));
    } else {
        let rest = fields.drop_first();
        assert(tail == q + seq![','] + csv_line_of(rest));
        assert(line[j + 1] == ',') by {
            assert(line.skip(i)[q.len() as int] == line[j + 1]);
            assert(tail[q.len() as int] == ',');
        }
        assert(csv_from(line, j, done, f, true) == csv_from(line, j + 1, done, f, false));
        assert(csv_from(line, j + 1, done, f, false) == csv_from(line, j + 2, done.push(f), seq![], false));
        assert(line.skip(j + 2) =~= csv_line_of(rest)) by {
            assert forall|k: int| 0 <= k < line.skip(j + 2).len() implies line.skip(j + 2)[k] == csv_line_of(rest)[k] by {
                assert(line.skip(i)[q.len() + 1 + k] == line[j + 2 + k]);
                assert(tail[q.len() + 1 + k] == csv_line_of(rest)[k]);
            }
        }
        assert forall|k: int| 0 <= k < rest.len() implies trim(#[trigger] rest[k]) == rest[k] by {
            assert(rest[k] == fields[k + 1]);
        }
        lemma_csv_line(line, j + 2, rest, done.push(f));
        assert(done.push(f) + rest =~= done + fields);
    }
}

/// Trimmed fields, each quoted with its quotes doubled and joined with
/// commas, read back as the same fields.
pub proof fn law_csv_round_trip(fields: Seq<Seq<char>>)
    requires
        fields.len() >= 1,
        forall|k: int| 0 <= k < fields.len() ==> trim(#[trigger] fields[k]) == fields[k],
    ensures
        csv_fields(csv_line_of(fields)) == fields,
{
    let line = csv_line_of(fields);
    assert(line.skip(0) =~= line);
    lemma_csv_line(line, 0, fields, seq![]);
    assert(Seq::<Seq<char>>::empty() + fields =~= fields);
}

/// A field as it stands on a CSV line: in quotes, or as it is.
pub open spec fn csv_piece(f: Seq<char>, quoted: bool) -> Seq<char> {
    if quoted {
        csv_quoted(f)
    } else {
        f
    }
}

/// The fields joined with commas, field `k` quoted when `quoted[k]`.
pub open spec fn csv_line_mixed(fields: Seq<Seq<char>>, quoted: Seq<bool>) -> Seq<char>
    decreases fields.len(),
{
    if fields.len() <= 1 {
        if fields.len() == 1 {
            csv_piece(fields[0], quoted[0])
        } else {
            seq![]
        }
    } else {
        csv_piece(fields[0], quoted[0]) + seq![','] + csv_line_mixed(fields.drop_first(), quoted.drop_first())
    }
}

/// A text without commas or double quotes.
pub open spec fn csv_plain(f: Seq<char>) -> bool {
    forall|k: int| 0 <= k < f.len() ==> #[trigger] f[k] != ',' && f[k] != '"'
}

/// Outside quotes, a plain field reads as its characters.
proof fn lemma_csv_plain(line: Seq<char>, i: int, f: Seq<char>, fields: Seq<Seq<char>>, cur: Seq<char>)
    requires
        0 <= i,
        i + f.len() <= line.len(),
        line.subrange(i, i + f.len()) == f,
        csv_plain(f),
    ensures
        csv_from(line, i, fields, cur, false) == csv_from(line, i + f.len(), fields, cur + f, false),
    decreases f.len(),
{
    if f.len() == 0 {
        assert(cur + f =~= cur);
    } else {
        let r = f.drop_first();
        assert(line[i] == f[0]);
        assert(f[0] != ',' && f[0] != '"');
        assert(line.subrange(i + 1, i + 1 + r.len()) =~= r) by {
            assert forall|k: int| 0 <= k < r.len() implies line.subrange(i + 1, i + 1 + r.len())[k] == r[k] by {
                assert(line.subrange(i, i + f.len())[k + 1] == f[k + 1]);
            }
        }
        assert(csv_plain(r)) by {
            assert forall|k: int| 0 <= k < r.len() implies #[trigger] r[k] != ',' && r[k] != '"' by {
                assert(r[k] == f[k + 1]);
            }
        }
        lemma_csv_plain(line, i + 1, r, fields, cur.push(f[0]));
        assert(cur.push(f[0]) + r =~= cur + f);
    }
}

/// One field, quoted or plain, followed by a comma or the end, reads back
/// as the field's text.
proof fn lemma_csv_piece(line: Seq<char>, i: int, f: Seq<char>, quoted: bool, done: Seq<Seq<char>>)
    requires
        0 <= i,
        i + csv_piece(f, quoted).len() <= line.len(),
        line.subrange(i, i + csv_piece(f, quoted).len()) == csv_piece(f, quoted),
        i + csv_piece(f, quoted).len() == line.len() || line[i + csv_piece(f, quoted).len()] == ',',
        !quoted ==> csv_plain(f),
    ensures
        csv_from(line, i, done, seq![], false) == csv_from(line, i + csv_piece(f, quoted).len(), done, f, false),
{
    let p = csv_piece(f, quoted);
    if quoted {
        let e = csv_escape(f);
        assert(p == seq!['"'] + e + seq!['"']);
        assert(line[i] == p[0]);
        assert(csv_from(line, i, done, seq![], false) == csv_from(line, i + 1, done, seq![], true));
        assert(line.subrange(i + 1, i + 1 + e.len()) =~= e) by {
            assert forall|k: int| 0 <= k < e.len() implies line.subrange(i + 1, i + 1 + e.len())[k] == e[k] by {
                assert(line.subrange(i, i + p.len())[k + 1] == p[k + 1]);
                assert(p[k + 1] == e[k]);
            }
        }
        lemma_csv_body(line, i + 1, f, done, seq![]);
        assert(Seq::<char>::empty() + f =~= f);
        let j = i + 1 + e.len();
        assert(line[j] == '"') by {
            assert(line.subrange(i, i + p.len())[p.len() - 1] == p[p.len() - 1]);
        }
        assert(csv_from(line, j, done, f, true) == csv_from(line, j + 1, done, f, false));
    } else {
        lemma_csv_plain(line, i, f, done, seq![]);
        assert(Seq::<char>::empty() + f =~= f);
    }
}

proof fn lemma_csv_mixed(line: Seq<char>, i: int, fields: Seq<Seq<char>>, quoted: Seq<bool>, done: Seq<Seq<char>>)
    requires
        0 <= i <= line.len(),
        line.skip(i) == csv_line_mixed(fields, quoted),
        fields.len() >= 1,
        quoted.len() == fields.len(),
        forall|k: int| 0 <= k < fields.len() ==> trim(#[trigger] fields[k]) == fields[k],
        forall|k: int| 0 <= k < fields.len() && !quoted[k] ==> csv_plain(#[trigger] fields[k]),
    ensures
        csv_from(line, i, done, seq![], false) == done + fields,
    decreases fields.len(),
{
    let f = fields[0];
    let p = csv_piece(f, quoted[0]);
    let tail = csv_line_mixed(fields, quoted);
    let j = i + p.len();
    assert(tail.len() >= p.len());
    assert(tail.subrange(0, p.len() as int) =~= p) by {
        if fields.len() > 1 {
            assert(tail == p + seq![','] + csv_line_mixed(fields.drop_first(), quoted.drop_first()));
        }
    }
    assert(line.subrange(i, j) =~= p) by {
        assert forall|k: int| 0 <= k < p.len() implies line.subrange(i, j)[k] == p[k] by {
            assert(line.skip(i)[k] == line[i + k]);
            assert(tail.subrange(0, p.len() as int)[k] == tail[k]);
        }
    }
    if fields.len() == 1 {
        assert(tail == p);
        assert(line.len() == j) by {
            assert(line.skip(i).len() == p.len());
        }
        lemma_csv_piece(line, i, f, quoted[0], done);
        assert(done + fields =~= done.push(f));
    } else {
        let rest = fields.drop_first();
        let qr = quoted.drop_first();
        assert(tail == p + seq![','] + csv_line_mixed(rest, qr));
        assert(line[j] == ',') by {
            assert(line.skip(i)[p.len() as int] == line[j]);
            assert(tail[p.len() as int] == ',');
        }
        lemma_csv_piece(line, i, f, quoted[0], done);
        assert(csv_from(line, j, done, f, false) == csv_from(line, j + 1, done.push(f), seq![], false));
        assert(line.skip(j + 1) =~= csv_line_mixed(rest, qr)) by {
            assert forall|k: int| 0 <= k < line.skip(j + 1).len() implies line.skip(j + 1)[k] == csv_line_mixed(rest, qr)[k] by {
                assert(line.skip(i)[p.len() + 1 + k] == line[j + 1 + k]);
                assert(tail[p.len() + 1 + k] == csv_line_mixed(rest, qr)[k]);
            }
        }
        assert forall|k: int| 0 <= k < rest.len() implies trim(#[trigger] rest[k]) == rest[k] by {
            assert(rest[k] == fields[k + 1]);
        }
        assert forall|k: int| 0 <= k < rest.len() && !qr[k] implies csv_plain(#[trigger] rest[k]) by {
            assert(rest[k] == fields[k + 1]);
            assert(qr[k] == quoted[k + 1]);
        }
        lemma_csv_mixed(line, j + 1, rest, qr, done.push(f));
        assert(done.push(f) + rest =~= done + fields);
    }
}

/// Trimmed fields joined with commas read back as the same fields, one
/// per comma-separated place, whether each is written in quotes (with its
/// quotes doubled) or as it is (then holding no comma or quote; an empty
/// field between two commas is a NULL column and reads back as empty).
pub proof fn law_csv_fields(fields: Seq<Seq<char>>, quoted: Seq<bool>)
    requires
        fields.len() >= 1,
        quoted.len() == fields.len(),
        forall|k: int| 0 <= k < fields.len() ==> trim(#[trigger] fields[k]) == fields[k],
        forall|k: int| 0 <= k < fields.len() && !quoted[k] ==> csv_plain(#[trigger] fields[k]),
    ensures
        csv_fields(csv_line_mixed(fields, quoted)) == fields,
{
    let line = csv_line_mixed(fields, quoted);
    assert(line.skip(0) =~= line);
    lemma_csv_mixed(line, 0, fields, quoted, seq![]);
    assert(Seq::<Seq<char>>::empty() + fields =~= fields);
}

fn csv_line(line: &Vec<char>) -> (r: Vec<Vec<char>>)
    ensures
        lines_view(r@) == csv_fields(line@),
{
    let mut fields: Vec<Vec<char>> = Vec::new();
    let mut cur: Vec<char> = Vec::new();
    let mut q = false;
    let mut i: usize = 0;
    assert(lines_view(fields@) =~= Seq::<Seq<char>>::empty());
    while i < line.len()
        invariant
            0 <= i <= line.len(),
            csv_from(line@, i as int, lines_view(fields@), cur@, q) == csv_fields(line@),
        decreases line.len() - i,
    {
        let c = line[i];
        if c == '"' {
            if q && i + 1 < line.len() && line[i + 1] == '"' {
                cur.push('"');
                i += 2;
            } else {
                q = !q;
                i += 1;
            }
        } else if c == ',' && !q {
            let ghost before = lines_view(fields@);
            let t = trim_vec(&cur);
            fields.push(t);
            assert(lines_view(fields@) =~= before.push(trim(cur@)));
            cur = Vec::new();
            i += 1;
        } else {
            cur.push(c);
            i += 1;
        }
    }
    let ghost before = lines_view(fields@);
    let t = trim_vec(&cur);
    fields.push(t);
    assert(lines_view(fields@) =~= before.push(trim(cur@)));
    fields
}

fn strings_of(v: &Vec<Vec<char>>) -> (r: Vec<String>)
    ensures
        strings_view(r@) == lines_view(v@),
{
    let mut r: Vec<String> = Vec::new();
    let mut i: usize = 0;
    while i < v.len()
        invariant
            0 <= i <= v.len(),
            strings_view(r@) == lines_view(v@).take(i as int),
        decreases v.len() - i,
    {
        let ghost before = strings_view(r@);
        r.push(string_from(&v[i]));
        assert(strings_view(r@) =~= before.push(v@[i as int]@));
        i += 1;
        assert(strings_view(r@) =~= lines_view(v@).take(i as int));
    }
    assert(lines_view(v@).take(v.len() as int) =~= lines_view(v@));
    r
}

/// Whether a trimmed data line can hold a row: not empty, and not the
/// `rows selected` or `no rows` footer.
pub open spec fn csv_row_line(t: Seq<char>) -> bool {
    t.len() > 0 && !contains(t, "rows selected"@) && !contains(t, "no rows"@)
}

/// The rows of the data lines: each kept line, trimmed, split into fields,
/// when it has as many fields as there are columns.
pub open spec fn csv_rows(lines: Seq<Seq<char>>, ncols: nat) -> Seq<Seq<Seq<char>>>
    decreases lines.len(),
{
    if lines.len() == 0 {
        seq![]
    } else {
        let prev = csv_rows(lines.drop_last(), ncols);
        let t = trim(lines.last());
        let row = csv_fields(t);
        if csv_row_line(t) && row.len() > 0 && row.len() == ncols {
            prev.push(row)
        } else {
            prev
        }
    }
}

/// The column names (the first line, split into fields) and the rows.
pub open spec fn csv_table(csv: Seq<char>) -> (Seq<Seq<char>>, Seq<Seq<Seq<char>>>) {
    let ls = lines_of(csv);
    if ls.len() == 0 {
        (seq![], seq![])
    } else {
        let cols = csv_fields(ls[0]);
        (cols, csv_rows(ls.skip(1), cols.len()))
    }
}

/// Splits SQL*Plus CSV output into column names and rows.
pub fn parse_csv_output(csv: &str) -> (r: (Vec<String>, Vec<Vec<String>>))
    ensures
        (strings_view(r.0@), rows_view(r.1@)) == csv_table(csv@),
{
    let text = chars_of(csv);
    let lines = lines_exec(&text);
    let ghost ls = lines_view(lines@);
    if lines.len() == 0 {
        let r: (Vec<String>, Vec<Vec<String>>) = (Vec::new(), Vec::new());
        assert(strings_view(r.0@) =~= Seq::<Seq<char>>::empty());
        assert(rows_view(r.1@) =~= Seq::<Seq<Seq<char>>>::empty());
        return r;
    }
    let header = csv_line(&lines[0]);
    let columns = strings_of(&header);
    let ncols = header.len();
    let mut rows: Vec<Vec<String>> = Vec::new();
    let mut i: usize = 1;
    assert(ls.skip(1).take(0) =~= Seq::<Seq<char>>::empty());
    assert(rows_view(rows@) =~= Seq::<Seq<Seq<char>>>::empty());
    while i < lines.len()
        invariant
            1 <= i <= lines.len(),
            ls == lines_view(lines@),
            ncols == csv_fields(ls[0]).len(),
            rows_view(rows@) == csv_rows(ls.skip(1).take(i - 1), ncols as nat),
        decreases lines.len() - i,
    {
        let ghost prev = ls.skip(1).take(i - 1);
        assert(ls.skip(1).take(i as int) =~= prev.push(ls[i as int]));
        assert(ls.skip(1).take(i as int).drop_last() =~= prev);
        let t = trim_vec(&lines[i]);
        if t.len() > 0 && !contains_str(&t, "rows selected") && !contains_str(&t, "no rows") {
            let row = csv_line(&t);
            if row.len() > 0 && row.len() == ncols {
                let ghost before = rows_view(rows@);
                let srow = strings_of(&row);
                rows.push(srow);
                assert(rows_view(rows@) =~= before.push(csv_fields(t@)));
            }
        }
        i += 1;
    }
    assert(ls.skip(1).take(lines.len() - 1) =~= ls.skip(1));
    (columns, rows)
}

// ---------------------------------------------------------------------------
// Scripts sent to SQL*Plus
// ---------------------------------------------------------------------------

/// The statement without surrounding whitespace and trailing semicolons.
pub open spec fn clean_sql(sql: Seq<char>) -> Seq<char> {
    strip_trailing(trim(sql), ';')
}

/// `user/password@host:port/service`.
pub open spec fn connection_string_spec(c: ConnectionConfigView) -> Seq<char> {
    c.username + "/"@ + c.password + "@"@ + c.host + ":"@ + dec_text(c.port as nat) + "/"@
        + c.service_name
}

/// The script that explains a statement and prints the full plan.
pub open spec fn plan_script_spec(sql: Seq<char>) -> Seq<char> {
    "EXPLAIN PLAN FOR "@ + clean_sql(sql) + plan_script_tail()
}

pub open spec fn plan_script_tail() -> Seq<char> {
    ";\nSET PAGESIZE 50000\nSET LINESIZE 32767\nSELECT PLAN_TABLE_OUTPUT FROM TABLE(DBMS_XPLAN.DISPLAY('PLAN_TABLE', NULL, 'ALL +OUTLINE +PREDICATE +ALIAS'));\nEXIT;\n"@
}

/// The script that runs a statement with CSV output.
pub open spec fn query_script_spec(sql: Seq<char>) -> Seq<char> {
    query_script_head() + clean_sql(sql) + ";\nEXIT;\n"@
}

pub open spec fn query_script_head() -> Seq<char> {
    "SET MARKUP CSV ON QUOTE ON\nSET HEADING ON\nSET FEEDBACK OFF\nSET PAGESIZE 50000\nSET LINESIZE 32767\n"@
}

fn clean_sql_chars(sql: &str) -> (r: Vec<char>)
    ensures
        r@ == clean_sql(sql@),
{
    let raw = chars_of(sql);
    let t = trim_vec(&raw);
    strip_trailing_exec(&t, ';')
}

// ---------------------------------------------------------------------------
// Plan hash value and SQL_ID in DBMS_XPLAN output
// ---------------------------------------------------------------------------

/// The pattern that finds an SQL_ID, case-insensitively.
pub open spec fn sql_id_pattern() -> Seq<char> {
    "(?i)sql_id\\s*[:=]?\\s*([a-z0-9]+)"@
}

/// What the SQL_ID pattern gives for a line, when it is accepted.
pub open spec fn sql_id_caps(t: Seq<char>) -> Option<Seq<Option<Seq<char>>>> {
    if regex_compiles(sql_id_pattern()) {
        regex_captures(sql_id_pattern(), t)
    } else {
        None
    }
}

/// What one trimmed line `t` changes of the plan hash value and the SQL_ID
/// found so far, where `caps` is what the SQL_ID pattern gave for `t`: a
/// `Plan hash value:` line gives the number after the colon, when it is
/// one; a line that starts with `SQL_ID` or holds `sql_id` gives the first
/// group of the match, when there is one.
pub open spec fn meta_step_given(st: (Option<u64>, Option<Seq<char>>), t: Seq<char>, caps: Option<Seq<Option<Seq<char>>>>) -> (
    Option<u64>,
    Option<Seq<char>>,
) {
    if starts_with(t, "Plan hash value:"@) {
        let parts = split_char(t, ':');
        if parts.len() >= 2 {
            match parse_unsigned(trim(parts[1]), u64::MAX as int) {
                Some(v) => (Some(v as u64), st.1),
                None => st,
            }
        } else {
            st
        }
    } else if starts_with(t, "SQL_ID"@) || contains(t, "sql_id"@) {
        match caps {
            Some(g) => (st.0, if g.len() > 1 { g[1] } else { None }),
            None => st,
        }
    } else {
        st
    }
}

/// What one trimmed line changes of the plan hash value and the SQL_ID.
pub open spec fn meta_step(st: (Option<u64>, Option<Seq<char>>), t: Seq<char>) -> (
    Option<u64>,
    Option<Seq<char>>,
) {
    meta_step_given(st, t, sql_id_caps(t))
}

/// What one trimmed plan line changes of the plan hash value and the
/// SQL_ID found so far, given what the SQL_ID pattern gave for the line;
/// see `meta_step_given`.
pub fn plan_meta_step(hash: Option<u64>, sql_id: Option<String>, line: &str, caps: Option<Vec<Option<String>>>) -> (r: (Option<u64>, Option<String>))
    ensures
        (r.0, opt_view(r.1)) == meta_step_given((hash, opt_view(sql_id)), line@, match caps {
            Some(g) => Some(groups_view(g@)),
            None => None,
        }),
{
    let t = chars_of(line);
    if starts_with_str(&t, "Plan hash value:") {
        let parts = split_char_exec(&t, ':');
        if parts.len() >= 2 {
            let v = trim_vec(&parts[1]);
            match parse_unsigned_exec(&v, u64::MAX) {
                Some(n) => (Some(n), sql_id),
                None => (hash, sql_id),
            }
        } else {
            (hash, sql_id)
        }
    } else if starts_with_str(&t, "SQL_ID") || contains_str(&t, "sql_id") {
        match caps {
            Some(g) => {
                if g.len() > 1 {
                    let id = copy_opt(&g[1]);
                    assert(groups_view(g@)[1] == opt_view(g@[1]));
                    (hash, id)
                } else {
                    (hash, None)
                }
            },
            None => (hash, sql_id),
        }
    } else {
        (hash, sql_id)
    }
}

pub open spec fn meta_fold(lines: Seq<Seq<char>>) -> (Option<u64>, Option<Seq<char>>)
    decreases lines.len(),
{
    if lines.len() == 0 {
        (None, None)
    } else {
        meta_step(meta_fold(lines.drop_last()), trim(lines.last()))
    }
}

/// The plan nodes, the plan hash value and the SQL_ID of `DBMS_XPLAN`
/// output.
pub open spec fn xplan_meta(x: Seq<char>) -> (Seq<PlanNodeView>, Option<u64>, Option<Seq<char>>) {
    let m = meta_fold(lines_of(x));
    (parse_xplan_spec(x), m.0, m.1)
}

fn meta_of(x: &Vec<char>) -> (r: (Option<u64>, Option<String>))
    ensures
        (r.0, opt_view(r.1)) == meta_fold(lines_of(x@)),
{
    let lines = lines_exec(x);
    let ghost lv = lines_view(lines@);
    let re = compile_regex("(?i)sql_id\\s*[:=]?\\s*([a-z0-9]+)");
    let mut hash: Option<u64> = None;
    let mut sql_id: Option<String> = None;
    let mut i: usize = 0;
    assert(lv.take(0) =~= Seq::<Seq<char>>::empty());
    while i < lines.len()
        invariant
            0 <= i <= lines.len(),
            lv == lines_view(lines@),
            lv == lines_of(x@),
            re is Some <==> regex_compiles(sql_id_pattern()),
            re matches Some(c) ==> c.pattern() == sql_id_pattern(),
            (hash, opt_view(sql_id)) == meta_fold(lv.take(i as int)),
        decreases lines.len() - i,
    {
        assert(lv.take(i + 1).drop_last() =~= lv.take(i as int));
        assert(lv.take(i + 1).last() == lv[i as int]);
        let t = trim_vec(&lines[i]);
        let ts = string_from(&t);
        let caps = if starts_with_str(&t, "SQL_ID") || contains_str(&t, "sql_id") {
            match &re {
                Some(c) => captures(c, ts.as_str()),
                None => None,
            }
        } else {
            None
        };
        let (h, s) = plan_meta_step(hash, sql_id, ts.as_str(), caps);
        hash = h;
        sql_id = s;
        i += 1;
    }
    assert(lv.take(lines.len() as int) =~= lv);
    (hash, sql_id)
}

// ---------------------------------------------------------------------------
// The session
// ---------------------------------------------------------------------------

pub open spec fn plan_opt_view(o: Option<Vec<PlanNode>>) -> Option<Seq<PlanNodeView>> {
    match o {
        Some(p) => Some(nodes_view(p@)),
        None => None,
    }
}

pub open spec fn result_opt_view(o: Option<QueryResult>) -> Option<QueryResultView> {
    match o {
        Some(r) => Some(r@),
        None => None,
    }
}

/// The connection and what the last statement produced.
pub struct DatabaseSession {
    pub config: ConnectionConfig,
    pub is_connected: bool,
    pub is_real_oracle: bool,
    pub db_version: String,
    pub last_query_result: Option<QueryResult>,
    pub last_plan: Option<Vec<PlanNode>>,
    pub last_sql_id: Option<String>,
    pub last_plan_hash: Option<u64>,
}

pub struct DatabaseSessionView {
    pub config: ConnectionConfigView,
    pub is_connected: bool,
    pub is_real_oracle: bool,
    pub db_version: Seq<char>,
    pub last_query_result: Option<QueryResultView>,
    pub last_plan: Option<Seq<PlanNodeView>>,
    pub last_sql_id: Option<Seq<char>>,
    pub last_plan_hash: Option<u64>,
}

impl View for DatabaseSession {
    type V = DatabaseSessionView;

    open spec fn view(&self) -> DatabaseSessionView {
        DatabaseSessionView {
            config: self.config@,
            is_connected: self.is_connected,
            is_real_oracle: self.is_real_oracle,
            db_version: self.db_version@,
            last_query_result: result_opt_view(self.last_query_result),
            last_plan: plan_opt_view(self.last_plan),
            last_sql_id: opt_view(self.last_sql_id),
            last_plan_hash: self.last_plan_hash,
        }
    }
}

/// The plan hash value reported for plans of the stand-in engine.
pub open spec fn mock_plan_hash() -> u64 {
    272002086
}

pub open spec fn mock_sql_id() -> Seq<char> {
    "mock_ora26ai"@
}

pub open spec fn live_sql_id() -> Seq<char> {
    "ora26ai_live"@
}

/// The SQL_ID found, or the one that marks a live plan.
pub open spec fn or_live(o: Option<Seq<char>>) -> Option<Seq<char>> {
    match o {
        Some(s) => Some(s),
        None => Some(live_sql_id()),
    }
}

pub open spec fn required_message() -> Seq<char> {
    "호스트, 서비스 이름, 사용자명은 필수 입력 항목입니다."@
}

/// Whether a host, a service name or a user name is missing.
pub open spec fn missing_required(c: ConnectionConfigView) -> bool {
    c.host.len() == 0 || c.service_name.len() == 0 || c.username.len() == 0
}

pub open spec fn default_banner() -> Seq<char> {
    "Oracle AI Database 26ai Free Release 23.26.3.0.0"@
}

pub open spec fn simulated_banner() -> Seq<char> {
    "Oracle 26ai (Simulated Engine)"@
}

/// The first trimmed line that starts with `Oracle`.
pub open spec fn first_oracle_line(ls: Seq<Seq<char>>) -> Option<Seq<char>>
    decreases ls.len(),
{
    if ls.len() == 0 {
        None
    } else if starts_with(trim(ls[0]), "Oracle"@) {
        Some(trim(ls[0]))
    } else {
        first_oracle_line(ls.drop_first())
    }
}

/// The version banner in the output of the probe query, or the default
/// banner when no line starts with `Oracle`.
pub open spec fn banner_of(out: Seq<char>) -> Seq<char> {
    match first_oracle_line(lines_of(out)) {
        Some(b) => b,
        None => default_banner(),
    }
}

/// Whether a failed probe was answered by the database (an `ORA-` or
/// `SP2-` error) rather than failing to reach it.
pub open spec fn is_database_error(e: Seq<char>) -> bool {
    contains(e, "ORA-"@) || contains(e, "SP2-"@)
}

pub open spec fn login_failed_message(e: Seq<char>) -> Seq<char> {
    "오라클 접속 실패: "@ + e
}

/// What probing the listener found: it answered, it refused (with the
/// system's error), the address resolved to nothing, or it did not parse
/// (with the resolver's error).
pub enum ListenerProbe {
    Reached,
    Refused(String),
    NoAddress,
    BadAddress(String),
}

/// `host:port`, the address the listener is probed at.
pub open spec fn listener_address_spec(c: ConnectionConfigView) -> Seq<char> {
    c.host + ":"@ + dec_text(c.port as nat)
}

/// The error a failed listener probe is reported with, if it failed.
pub open spec fn listener_error(c: ConnectionConfigView, p: ListenerProbe) -> Option<Seq<char>> {
    match p {
        ListenerProbe::Reached => None,
        ListenerProbe::Refused(e) => Some(
            "오라클 리스너("@ + listener_address_spec(c) + ")에 접속할 수 없습니다: "@ + e@
                + "\n(Docker 컨테이너 및 1521 포트 상태를 확인하세요)"@,
        ),
        ListenerProbe::NoAddress => Some("호스트 주소를 확인할 수 없습니다: "@ + listener_address_spec(c)),
        ListenerProbe::BadAddress(e) => Some(
            "올바르지 않은 호스트 주소입니다("@ + listener_address_spec(c) + "): "@ + e@,
        ),
    }
}

fn find_banner(out: &str) -> (r: Vec<char>)
    ensures
        r@ == banner_of(out@),
{
    let text = chars_of(out);
    let lines = lines_exec(&text);
    let ghost lv = lines_view(lines@);
    let mut i: usize = 0;
    assert(lv.skip(0) =~= lv);
    while i < lines.len()
        invariant
            0 <= i <= lines.len(),
            lv == lines_view(lines@),
            lv == lines_of(out@),
            first_oracle_line(lv.skip(i as int)) == first_oracle_line(lv),
        decreases lines.len() - i,
    {
        let t = trim_vec(&lines[i]);
        assert(lv.skip(i as int)[0] == lv[i as int]);
        if starts_with_str(&t, "Oracle") {
            return t;
        }
        assert(lv.skip(i as int).drop_first() =~= lv.skip(i + 1));
        i += 1;
    }
    assert(lv.skip(lines.len() as int) =~= Seq::<Seq<char>>::empty());
    chars_of("Oracle AI Database 26ai Free Release 23.26.3.0.0")
}

impl DatabaseSession {
    /// Not connected, with the default settings and nothing run.
    pub fn new() -> (r: Self)
        ensures
            r@ == (DatabaseSessionView {
                config: default_config(),
                is_connected: false,
                is_real_oracle: false,
                db_version: seq![],
                last_query_result: None,
                last_plan: None,
                last_sql_id: None,
                last_plan_hash: None,
            }),
    {
        DatabaseSession {
            config: ConnectionConfig::default(),
            is_connected: false,
            is_real_oracle: false,
            db_version: String::new(),
            last_query_result: None,
            last_plan: None,
            last_sql_id: None,
            last_plan_hash: None,
        }
    }

    /// Forgets the connection and everything the last statement produced;
    /// the settings stay.
    pub fn disconnect(&mut self)
        ensures
            final(self)@ == (DatabaseSessionView {
                is_connected: false,
                is_real_oracle: false,
                db_version: seq![],
                last_query_result: None,
                last_plan: None,
                last_sql_id: None,
                last_plan_hash: None,
                ..old(self)@
            }),
    {
        self.is_connected = false;
        self.is_real_oracle = false;
        self.db_version = String::new();
        self.last_query_result = None;
        self.last_plan = None;
        self.last_sql_id = None;
        self.last_plan_hash = None;
    }

    /// Refuses settings without a host, a service name or a user name.
    pub fn check_required(config: &ConnectionConfig) -> (r: Result<(), String>)
        ensures
            missing_required(config@) ==> (r matches Err(e) && e@ == required_message()),
            !missing_required(config@) ==> r is Ok,
    {
        if config.host.as_str().is_empty() || config.service_name.as_str().is_empty()
            || config.username.as_str().is_empty() {
            return Err(String::from_str("호스트, 서비스 이름, 사용자명은 필수 입력 항목입니다."));
        }
        Ok(())
    }

    /// `user/password@host:port/service` for SQL*Plus.
    pub fn connection_string(config: &ConnectionConfig) -> (r: String)
        ensures
            r@ == connection_string_spec(config@),
    {
        let mut v = chars_of(config.username.as_str());
        v.push('/');
        append_str(&mut v, config.password.as_str());
        v.push('@');
        append_str(&mut v, config.host.as_str());
        v.push(':');
        let port = u64_text(config.port as u64);
        append_chars(&mut v, &port);
        v.push('/');
        append_str(&mut v, config.service_name.as_str());
        proof {
            reveal_strlit("/");
            reveal_strlit("@");
            reveal_strlit(":");
        }
        assert(v@ =~= connection_string_spec(config@));
        string_from(&v)
    }

    /// `host:port` of the listener.
    pub fn listener_address(config: &ConnectionConfig) -> (r: String)
        ensures
            r@ == listener_address_spec(config@),
    {
        let mut v = chars_of(config.host.as_str());
        v.push(':');
        let port = u64_text(config.port as u64);
        append_chars(&mut v, &port);
        proof {
            reveal_strlit(":");
        }
        assert(v@ =~= listener_address_spec(config@));
        string_from(&v)
    }

    /// The outcome of the listener probe: `Ok` when it answered, else the
    /// error that the login stops with.
    pub fn check_listener(config: &ConnectionConfig, probe: ListenerProbe) -> (r: Result<(), String>)
        ensures
            match listener_error(config@, probe) {
                None => r is Ok,
                Some(m) => r matches Err(e) && e@ == m,
            },
    {
        let addr = Self::listener_address(config);
        match probe {
            ListenerProbe::Reached => Ok(()),
            ListenerProbe::Refused(e) => {
                let mut v = chars_of("오라클 리스너(");
                append_str(&mut v, addr.as_str());
                append_str(&mut v, ")에 접속할 수 없습니다: ");
                append_str(&mut v, e.as_str());
                append_str(&mut v, "\n(Docker 컨테이너 및 1521 포트 상태를 확인하세요)");
                Err(string_from(&v))
            },
            ListenerProbe::NoAddress => {
                let mut v = chars_of("호스트 주소를 확인할 수 없습니다: ");
                append_str(&mut v, addr.as_str());
                Err(string_from(&v))
            },
            ListenerProbe::BadAddress(e) => {
                let mut v = chars_of("올바르지 않은 호스트 주소입니다(");
                append_str(&mut v, addr.as_str());
                append_str(&mut v, "): ");
                append_str(&mut v, e.as_str());
                Err(string_from(&v))
            },
        }
    }

    /// The query that reads the version banner.
    pub fn probe_script() -> (r: String)
        ensures
            r@ == "SELECT banner FROM v$version WHERE ROWNUM = 1;\nEXIT;\n"@,
    {
        String::from_str("SELECT banner FROM v$version WHERE ROWNUM = 1;\nEXIT;\n")
    }

    /// The script that explains `sql`; see `plan_script_spec`.
    pub fn plan_script(sql: &str) -> (r: String)
        ensures
            r@ == plan_script_spec(sql@),
    {
        let mut v = chars_of("EXPLAIN PLAN FOR ");
        let c = clean_sql_chars(sql);
        append_chars(&mut v, &c);
        append_str(
            &mut v,
            ";\nSET PAGESIZE 50000\nSET LINESIZE 32767\nSELECT PLAN_TABLE_OUTPUT FROM TABLE(DBMS_XPLAN.DISPLAY('PLAN_TABLE', NULL, 'ALL +OUTLINE +PREDICATE +ALIAS'));\nEXIT;\n",
        );
        string_from(&v)
    }

    /// The script that runs `sql` with CSV output; see `query_script_spec`.
    pub fn query_script(sql: &str) -> (r: String)
        ensures
            r@ == query_script_spec(sql@),
    {
        let mut v = chars_of(
            "SET MARKUP CSV ON QUOTE ON\nSET HEADING ON\nSET FEEDBACK OFF\nSET PAGESIZE 50000\nSET LINESIZE 32767\n",
        );
        let c = clean_sql_chars(sql);
        append_chars(&mut v, &c);
        append_str(&mut v, ";\nEXIT;\n");
        string_from(&v)
    }

    /// Connects with `config`, given what the version probe answered
    /// (`Ok` with its output, or `Err` with its error). Settings without a
    /// host, service name or user name are refused first, and nothing
    /// changes. A probe that answered makes a live connection with the
    /// banner it printed; a probe that the database refused (`ORA-`,
    /// `SP2-`) is refused with its message, and nothing changes; any other
    /// failure connects to the stand-in engine.
    pub fn connect(&mut self, config: ConnectionConfig, probe: Result<String, String>) -> (r: Result<(), String>)
        ensures
            missing_required(config@) ==> (r matches Err(e) && e@ == required_message()
                && final(self)@ == old(self)@),
            !missing_required(config@) ==> match probe {
                Ok(out) => r is Ok && final(self)@ == (DatabaseSessionView {
                    config: config@,
                    is_connected: true,
                    is_real_oracle: true,
                    db_version: banner_of(out@),
                    ..old(self)@
                }),
                Err(e) => if is_database_error(e@) {
                    r matches Err(m) && m@ == login_failed_message(e@) && final(self)@ == old(self)@
                } else {
                    r is Ok && final(self)@ == (DatabaseSessionView {
                        config: config@,
                        is_connected: true,
                        is_real_oracle: false,
                        db_version: simulated_banner(),
                        ..old(self)@
                    })
                },
            },
    {
        match DatabaseSession::check_required(&config) {
            Err(e) => {
                return Err(e);
            },
            Ok(()) => {},
        }
        match probe {
            Ok(out) => {
                let banner = find_banner(out.as_str());
                self.is_real_oracle = true;
                self.db_version = string_from(&banner);
            },
            Err(err) => {
                let ev = chars_of(err.as_str());
                if contains_str(&ev, "ORA-") || contains_str(&ev, "SP2-") {
                    let mut m = chars_of("오라클 접속 실패: ");
                    append_chars(&mut m, &ev);
                    return Err(string_from(&m));
                }
                self.is_real_oracle = false;
                self.db_version = String::from_str("Oracle 26ai (Simulated Engine)");
            },
        }
        self.config = config;
        self.is_connected = true;
        Ok(())
    }

    /// Splits SQL*Plus CSV output into column names and rows; see
    /// `csv_table`.
    pub fn parse_csv_output(csv: &str) -> (r: (Vec<String>, Vec<Vec<String>>))
        ensures
            (strings_view(r.0@), rows_view(r.1@)) == csv_table(csv@),
    {
        parse_csv_output(csv)
    }

    /// The trimmed fields of one CSV line; see `csv_fields`.
    pub fn parse_csv_line(line: &str) -> (r: Vec<String>)
        ensures
            strings_view(r@) == csv_fields(line@),
    {
        let v = chars_of(line);
        let f = csv_line(&v);
        strings_of(&f)
    }

    /// The plan nodes of `DBMS_XPLAN.DISPLAY` output; see
    /// `xplan::parse_xplan_spec`.
    pub fn parse_xplan_output(xplan: &str) -> (r: Vec<PlanNode>)
        ensures
            nodes_view(r@) == parse_xplan_spec(xplan@),
    {
        let x = chars_of(xplan);
        parse_xplan_chars(&x)
    }

    /// The plan nodes, the plan hash value and the SQL_ID of
    /// `DBMS_XPLAN.DISPLAY` output; see `xplan_meta`.
    pub fn parse_xplan_with_meta(xplan: &str) -> (r: (Vec<PlanNode>, Option<u64>, Option<String>))
        ensures
            (nodes_view(r.0@), r.1, opt_view(r.2)) == xplan_meta(xplan@),
    {
        let x = chars_of(xplan);
        let nodes = parse_xplan_chars(&x);
        let (hash, sql_id) = meta_of(&x);
        (nodes, hash, sql_id)
    }
}

// ---------------------------------------------------------------------------
// Statements and their results
// ---------------------------------------------------------------------------

/// What SQL*Plus gave back for a statement on a live connection: the
/// CSV output of the statement or its error, the plan output when the
/// plan script ran, and how long the statement took in microseconds.
pub struct LiveRun {
    pub query_output: Result<String, String>,
    pub plan_output: Option<String>,
    pub elapsed_us: u64,
}

/// The result shown for a failed statement: the error in a single
/// `ERROR` cell and in the message after `prefix`.
pub open spec fn error_result(e: Seq<char>, elapsed_us: u64, prefix: Seq<char>) -> QueryResultView {
    QueryResultView {
        columns: seq!["ERROR"@],
        rows: seq![seq![e]],
        elapsed_us,
        row_count: 0,
        sql_id: None,
        child_number: None,
        plan_hash_value: None,
        message: Some(prefix + e),
    }
}

/// The plan, plan hash and SQL_ID the session keeps after explaining
/// `sql`: those of the plan output when it holds at least one plan step,
/// else the stand-in engine's plan.
pub open spec fn kept_plan(sql: Seq<char>, plan_output: Option<Seq<char>>) -> (
    Seq<PlanNodeView>,
    Option<u64>,
    Option<Seq<char>>,
) {
    match plan_output {
        Some(o) if xplan_meta(o).0.len() > 0 => (xplan_meta(o).0, xplan_meta(o).1, or_live(xplan_meta(o).2)),
        _ => (mock_answer(sql).1, Some(mock_plan_hash()), Some(mock_sql_id())),
    }
}

/// The result of a statement that ran on a live connection.
pub open spec fn live_result(c: ConnectionConfigView, csv: Seq<char>, elapsed_us: u64) -> QueryResultView {
    let t = csv_table(csv);
    QueryResultView {
        columns: t.0,
        rows: t.1,
        elapsed_us,
        row_count: t.1.len() as usize,
        sql_id: Some(live_sql_id()),
        child_number: Some(0),
        plan_hash_value: Some(mock_plan_hash()),
        message: Some("● Oracle 26ai Live ("@ + c.username + "@"@ + c.service_name + ") - "@
            + dec_text(t.1.len()) + " rows in "@ + millis_text(elapsed_us as nat) + "ms"@),
    }
}

fn error_query_result(e: &String, elapsed_us: u64, prefix: &str) -> (r: QueryResult)
    ensures
        r@ == error_result(e@, elapsed_us, prefix@),
{
    let mut columns: Vec<String> = Vec::new();
    columns.push(String::from_str("ERROR"));
    let mut cell: Vec<String> = Vec::new();
    cell.push(copy_string(e));
    assert(strings_view(cell@) =~= seq![e@]);
    let ghost cv = cell@;
    let mut rows: Vec<Vec<String>> = Vec::new();
    rows.push(cell);
    assert(rows_view(rows@) =~= seq![strings_view(cv)]);
    let mut m = chars_of(prefix);
    let ev = chars_of(e.as_str());
    append_chars(&mut m, &ev);
    let r = QueryResult {
        columns,
        rows,
        elapsed_us,
        row_count: 0,
        sql_id: None,
        child_number: None,
        plan_hash_value: None,
        message: Some(string_from(&m)),
    };
    assert(strings_view(r.columns@) =~= seq!["ERROR"@]);
    assert(rows_view(r.rows@) =~= seq![seq![e@]]);
    r
}

impl DatabaseSession {
    fn keep_plan(&mut self, sql: &str, plan_output: Option<String>)
        ensures
            final(self)@ == (DatabaseSessionView {
                last_plan: Some(kept_plan(sql@, match plan_output { Some(o) => Some(o@), None => None }).0),
                last_plan_hash: kept_plan(sql@, match plan_output { Some(o) => Some(o@), None => None }).1,
                last_sql_id: kept_plan(sql@, match plan_output { Some(o) => Some(o@), None => None }).2,
                ..old(self)@
            }),
    {
        match plan_output {
            Some(o) => {
                let (nodes, hash, sql_id) = DatabaseSession::parse_xplan_with_meta(o.as_str());
                if nodes.len() > 0 {
                    self.last_plan = Some(nodes);
                    self.last_plan_hash = hash;
                    self.last_sql_id = match sql_id {
                        Some(s) => Some(s),
                        None => Some(String::from_str("ora26ai_live")),
                    };
                    return;
                }
            },
            None => {},
        }
        let (_, plan) = MockEngine::execute(sql);
        self.last_plan = Some(plan);
        self.last_plan_hash = Some(272002086);
        self.last_sql_id = Some(String::from_str("mock_ora26ai"));
    }

    /// Explains `sql`. On a live connection, `plan_output` is what the
    /// plan script printed (`None` when it failed); a plan with at least
    /// one step is kept with its hash and SQL_ID. Otherwise the stand-in
    /// engine's plan is kept. Nothing else changes.
    pub fn explain(&mut self, sql: &str, plan_output: Option<String>)
        ensures
            final(self)@ == (DatabaseSessionView {
                last_plan: Some(kept_plan(sql@, if old(self).is_real_oracle { match plan_output { Some(o) => Some(o@), None => None } } else { None }).0),
                last_plan_hash: kept_plan(sql@, if old(self).is_real_oracle { match plan_output { Some(o) => Some(o@), None => None } } else { None }).1,
                last_sql_id: kept_plan(sql@, if old(self).is_real_oracle { match plan_output { Some(o) => Some(o@), None => None } } else { None }).2,
                ..old(self)@
            }),
    {
        if self.is_real_oracle {
            self.keep_plan(sql, plan_output);
        } else {
            self.keep_plan(sql, None);
        }
    }

    /// Runs `sql`. On a live connection with the outcome of the run at
    /// hand, a statement that succeeded gives its CSV rows (and the plan
    /// is kept as `explain` keeps it), and one that failed gives its error;
    /// either result is kept as the last one. Otherwise the stand-in engine
    /// answers, and its result and plan are kept.
    pub fn execute(&mut self, sql: &str, live: Option<LiveRun>) -> (r: QueryResult)
        ensures
            match live {
                Some(run) if old(self).is_real_oracle => match run.query_output {
                    Ok(csv) => {
                        let kp = kept_plan(sql@, match run.plan_output { Some(o) => Some(o@), None => None });
                        &&& r@ == live_result(old(self).config@, csv@, run.elapsed_us)
                        &&& final(self)@ == (DatabaseSessionView {
                            last_query_result: Some(r@),
                            last_plan: Some(kp.0),
                            last_plan_hash: kp.1,
                            last_sql_id: kp.2,
                            ..old(self)@
                        })
                    },
                    Err(e) => {
                        &&& r@ == error_result(e@, run.elapsed_us, "Oracle Error: "@)
                        &&& final(self)@ == (DatabaseSessionView {
                            last_query_result: Some(r@),
                            ..old(self)@
                        })
                    },
                },
                _ => {
                    &&& r@ == mock_answer(sql@).0
                    &&& final(self)@ == (DatabaseSessionView {
                        last_query_result: Some(r@),
                        last_plan: Some(mock_answer(sql@).1),
                        last_plan_hash: Some(mock_plan_hash()),
                        last_sql_id: Some(mock_sql_id()),
                        ..old(self)@
                    })
                },
            },
    {
        if self.is_real_oracle {
            match live {
                Some(run) => {
                    match run.query_output {
                        Ok(csv) => {
                            let (cols, rows) = parse_csv_output(csv.as_str());
                            self.keep_plan(sql, run.plan_output);
                            let n = rows.len();
                            let mut m = chars_of("● Oracle 26ai Live (");
                            append_str(&mut m, self.config.username.as_str());
                            m.push('@');
                            append_str(&mut m, self.config.service_name.as_str());
                            append_str(&mut m, ") - ");
                            let nt = u64_text(n as u64);
                            append_chars(&mut m, &nt);
                            append_str(&mut m, " rows in ");
                            let ms = millis_chars(run.elapsed_us);
                            append_chars(&mut m, &ms);
                            append_str(&mut m, "ms");
                            proof {
                                reveal_strlit("@");
                            }
                            let res = QueryResult {
                                columns: cols,
                                rows,
                                elapsed_us: run.elapsed_us,
                                row_count: n,
                                sql_id: Some(String::from_str("ora26ai_live")),
                                child_number: Some(0),
                                plan_hash_value: Some(272002086),
                                message: Some(string_from(&m)),
                            };
                            assert(res@.message == live_result(self.config@, csv@, run.elapsed_us).message);
                            self.last_query_result = Some(res.copy());
                            return res;
                        },
                        Err(e) => {
                            let res = error_query_result(&e, run.elapsed_us, "Oracle Error: ");
                            self.last_query_result = Some(res.copy());
                            return res;
                        },
                    }
                },
                None => {},
            }
        }
        let (result, plan) = MockEngine::execute(sql);
        self.last_query_result = Some(result.copy());
        self.last_plan = Some(plan);
        self.last_plan_hash = Some(272002086);
        self.last_sql_id = Some(String::from_str("mock_ora26ai"));
        result
    }
}

// ---------------------------------------------------------------------------
// Results of statements run in the background
// ---------------------------------------------------------------------------

/// What a statement run in the background hands back.
pub struct ExecutionResult {
    pub query_result: QueryResult,
    pub plan_nodes: Option<Vec<PlanNode>>,
    pub plan_hash: Option<u64>,
    pub sql_id: Option<String>,
}

pub struct ExecutionResultView {
    pub query_result: QueryResultView,
    pub plan_nodes: Option<Seq<PlanNodeView>>,
    pub plan_hash: Option<u64>,
    pub sql_id: Option<Seq<char>>,
}

impl View for ExecutionResult {
    type V = ExecutionResultView;

    open spec fn view(&self) -> ExecutionResultView {
        ExecutionResultView {
            query_result: self.query_result@,
            plan_nodes: plan_opt_view(self.plan_nodes),
            plan_hash: self.plan_hash,
            sql_id: opt_view(self.sql_id),
        }
    }
}

/// The lines of the text, each in a row of its own.
pub open spec fn line_rows(x: Seq<char>) -> Seq<Seq<Seq<char>>> {
    lines_of(x).map_values(|l: Seq<char>| seq![l])
}

/// The outcome of explaining a statement on a live connection, given
/// what the plan script printed or its error.
pub open spec fn explained_spec(output: Result<Seq<char>, Seq<char>>, elapsed_us: u64) -> ExecutionResultView {
    match output {
        Ok(o) => {
            let m = xplan_meta(o);
            ExecutionResultView {
                query_result: QueryResultView {
                    columns: seq!["PLAN_TABLE_OUTPUT"@],
                    rows: line_rows(o),
                    elapsed_us,
                    row_count: m.0.len() as usize,
                    sql_id: or_live(m.2),
                    child_number: Some(0),
                    plan_hash_value: m.1,
                    message: Some("Oracle 26ai Explain 성공 ("@ + millis_text(elapsed_us as nat) + "ms)"@),
                },
                plan_nodes: Some(m.0),
                plan_hash: m.1,
                sql_id: or_live(m.2),
            }
        },
        Err(e) => ExecutionResultView {
            query_result: error_result(e, elapsed_us, "Explain 오류: "@),
            plan_nodes: None,
            plan_hash: None,
            sql_id: None,
        },
    }
}

/// The outcome of running a statement on a live connection, given its
/// CSV output or error, the plan output (when the plan script ran), how
/// long it took and how many bytes were read.
pub open spec fn fetched_spec(
    c: ConnectionConfigView,
    output: Result<Seq<char>, Seq<char>>,
    plan_output: Option<Seq<char>>,
    elapsed_us: u64,
    bytes_read: u64,
) -> ExecutionResultView {
    match output {
        Ok(csv) => {
            let t = csv_table(csv);
            let plan: (Option<Seq<PlanNodeView>>, Option<u64>, Option<Seq<char>>) = match plan_output {
                Some(o) => (Some(xplan_meta(o).0), xplan_meta(o).1, or_live(xplan_meta(o).2)),
                None => (None, None, None),
            };
            ExecutionResultView {
                query_result: QueryResultView {
                    columns: t.0,
                    rows: t.1,
                    elapsed_us,
                    row_count: t.1.len() as usize,
                    sql_id: plan.2,
                    child_number: Some(0),
                    plan_hash_value: plan.1,
                    message: Some("Oracle 26ai Live ("@ + c.username + "@"@ + c.service_name
                        + ") - "@ + dec_text(t.1.len()) + "건 인출 ("@ + size_text(bytes_read as nat)
                        + ") in "@ + millis_text(elapsed_us as nat) + "ms"@),
                },
                plan_nodes: plan.0,
                plan_hash: plan.1,
                sql_id: plan.2,
            }
        },
        Err(e) => ExecutionResultView {
            query_result: error_result(e, elapsed_us, "실행 오류: "@),
            plan_nodes: None,
            plan_hash: None,
            sql_id: None,
        },
    }
}

pub open spec fn result_text(r: Result<String, String>) -> Result<Seq<char>, Seq<char>> {
    match r {
        Ok(s) => Ok(s@),
        Err(e) => Err(e@),
    }
}

pub open spec fn text_opt(o: Option<String>) -> Option<Seq<char>> {
    opt_view(o)
}

fn line_rows_exec(x: &Vec<char>) -> (r: Vec<Vec<String>>)
    ensures
        rows_view(r@) == line_rows(x@),
{
    let lines = lines_exec(x);
    let ghost lv = lines_view(lines@);
    let mut rows: Vec<Vec<String>> = Vec::new();
    let mut i: usize = 0;
    while i < lines.len()
        invariant
            0 <= i <= lines.len(),
            lv == lines_view(lines@),
            lv == lines_of(x@),
            rows_view(rows@) == lv.map_values(|l: Seq<char>| seq![l]).take(i as int),
        decreases lines.len() - i,
    {
        let mut cell: Vec<String> = Vec::new();
        cell.push(string_from(&lines[i]));
        assert(strings_view(cell@) =~= seq![lv[i as int]]);
        let ghost before = rows_view(rows@);
        let ghost cv = cell@;
        rows.push(cell);
        assert(rows_view(rows@) =~= before.push(strings_view(cv)));
        i += 1;
        assert(rows_view(rows@) =~= lv.map_values(|l: Seq<char>| seq![l]).take(i as int));
    }
    assert(lv.map_values(|l: Seq<char>| seq![l]).take(lines.len() as int) =~= lv.map_values(|l: Seq<char>| seq![l]));
    rows
}

fn or_live_exec(o: Option<String>) -> (r: Option<String>)
    ensures
        opt_view(r) == or_live(opt_view(o)),
{
    match o {
        Some(s) => Some(s),
        None => Some(String::from_str("ora26ai_live")),
    }
}

impl ExecutionResult {
    /// The outcome of explaining a statement on a live connection; see
    /// `explained_spec`.
    pub fn explained(output: Result<String, String>, elapsed_us: u64) -> (r: ExecutionResult)
        ensures
            r@ == explained_spec(result_text(output), elapsed_us),
    {
        match output {
            Ok(o) => {
                let x = chars_of(o.as_str());
                let (nodes, hash, sql_id) = DatabaseSession::parse_xplan_with_meta(o.as_str());
                let rows = line_rows_exec(&x);
                let mut columns: Vec<String> = Vec::new();
                columns.push(String::from_str("PLAN_TABLE_OUTPUT"));
                assert(strings_view(columns@) =~= seq!["PLAN_TABLE_OUTPUT"@]);
                let mut m = chars_of("Oracle 26ai Explain 성공 (");
                let ms = millis_chars(elapsed_us);
                append_chars(&mut m, &ms);
                append_str(&mut m, "ms)");
                let sid = or_live_exec(copy_opt(&sql_id));
                let res = QueryResult {
                    columns,
                    rows,
                    elapsed_us,
                    row_count: nodes.len(),
                    sql_id: copy_opt(&sid),
                    child_number: Some(0),
                    plan_hash_value: hash,
                    message: Some(string_from(&m)),
                };
                ExecutionResult { query_result: res, plan_nodes: Some(nodes), plan_hash: hash, sql_id: sid }
            },
            Err(e) => {
                let res = error_query_result(&e, elapsed_us, "Explain 오류: ");
                ExecutionResult { query_result: res, plan_nodes: None, plan_hash: None, sql_id: None }
            },
        }
    }

    /// The outcome of running a statement on a live connection; see
    /// `fetched_spec`.
    pub fn fetched(
        config: &ConnectionConfig,
        output: Result<String, String>,
        plan_output: Option<String>,
        elapsed_us: u64,
        bytes_read: u64,
    ) -> (r: ExecutionResult)
        ensures
            r@ == fetched_spec(config@, result_text(output), text_opt(plan_output), elapsed_us, bytes_read),
    {
        match output {
            Ok(csv) => {
                let (cols, rows) = parse_csv_output(csv.as_str());
                let (plan_nodes, plan_hash, sql_id) = match plan_output {
                    Some(o) => {
                        let (p, h, s) = DatabaseSession::parse_xplan_with_meta(o.as_str());
                        (Some(p), h, or_live_exec(s))
                    },
                    None => (None, None, None),
                };
                let n = rows.len();
                let mut m = chars_of("Oracle 26ai Live (");
                append_str(&mut m, config.username.as_str());
                m.push('@');
                append_str(&mut m, config.service_name.as_str());
                append_str(&mut m, ") - ");
                let nt = u64_text(n as u64);
                append_chars(&mut m, &nt);
                append_str(&mut m, "건 인출 (");
                let sz = size_chars(bytes_read);
                append_chars(&mut m, &sz);
                append_str(&mut m, ") in ");
                let ms = millis_chars(elapsed_us);
                append_chars(&mut m, &ms);
                append_str(&mut m, "ms");
                proof {
                    reveal_strlit("@");
                }
                let res = QueryResult {
                    columns: cols,
                    rows,
                    elapsed_us,
                    row_count: n,
                    sql_id: copy_opt(&sql_id),
                    child_number: Some(0),
                    plan_hash_value: plan_hash,
                    message: Some(string_from(&m)),
                };
                let ghost want = fetched_spec(config@, result_text(Ok(csv)), text_opt(plan_output), elapsed_us, bytes_read);
                assert(res@.message == want.query_result.message);
                assert(plan_opt_view(plan_nodes) == want.plan_nodes);
                assert(plan_hash == want.plan_hash);
                assert(opt_view(sql_id) == want.sql_id);
                assert(res@ == want.query_result);
                ExecutionResult { query_result: res, plan_nodes, plan_hash, sql_id }
            },
            Err(e) => {
                let res = error_query_result(&e, elapsed_us, "실행 오류: ");
                ExecutionResult { query_result: res, plan_nodes: None, plan_hash: None, sql_id: None }
            },
        }
    }

    /// The outcome of a statement without a live connection: the stand-in
    /// engine's answer.
    pub fn simulated(sql: &str) -> (r: ExecutionResult)
        ensures
            r@ == (ExecutionResultView {
                query_result: mock_answer(sql@).0,
                plan_nodes: Some(mock_answer(sql@).1),
                plan_hash: Some(mock_plan_hash()),
                sql_id: Some(mock_sql_id()),
            }),
    {
        let (res, plan) = MockEngine::execute(sql);
        ExecutionResult {
            query_result: res,
            plan_nodes: Some(plan),
            plan_hash: Some(272002086),
            sql_id: Some(String::from_str("mock_ora26ai")),
        }
    }
}

} // verus!
