//! The state of the client's screens: the SQL worksheet, the result and
//! plan panes, the server list and the `tnsnames.ora` editor.
use vstd::prelude::*;
use crate::models::{copy_string, ConnectionConfig, ConnectionConfigView};
use crate::numfmt::{
    dec_text, div_round_even, format_num, grouped_text, millis_chars, millis_text, tenths_of_hundredths,
    tenths_text, whole_of_hundredths,
};
use crate::sqlfmt::{format_sql, format_sql_spec};
use crate::text::{chars_of, slice_of, string_from};
use crate::tns::{entries_view, parse_tns_spec, save_error_message, TnsEntry, TnsManager};

verus! {

/// The pane shown under the worksheet.
#[derive(Clone, Copy, PartialEq, Eq, Debug, Structural)]
pub enum BottomTab {
    Grid,
    PlanTree,
}

/// A request made on the workspace.
#[derive(Clone, Copy, PartialEq, Eq, Debug, Structural)]
pub enum WorkspaceEvent {
    /// Run the worksheet's SQL (the Run button or Ctrl+Enter).
    RunSql,
    /// Explain the worksheet's SQL (F10).
    ExplainSql,
    /// Run a statement the worksheet made, such as the bind-value query.
    RunCustomSql,
    /// The result-grid tab.
    GridTab,
    /// The plan-tree tab.
    PlanTab,
    /// Back to the server list.
    BackToServers,
}

/// What the session is asked to do for a request.
#[derive(Clone, Copy, PartialEq, Eq, Debug, Structural)]
pub enum SessionCall {
    ExecuteSql,
    ExecuteCustomSql,
    ExplainSql,
    Disconnect,
    Nothing,
}

/// The pane shown after a request, and the session call it makes: running
/// shows the grid, explaining the plan; the plan tab explains the
/// worksheet only when there is no plan yet.
pub open spec fn workspace_step_spec(tab: BottomTab, has_plan: bool, ev: WorkspaceEvent) -> (BottomTab, SessionCall) {
    match ev {
        WorkspaceEvent::RunSql => (BottomTab::Grid, SessionCall::ExecuteSql),
        WorkspaceEvent::ExplainSql => (BottomTab::PlanTree, SessionCall::ExplainSql),
        WorkspaceEvent::RunCustomSql => (BottomTab::Grid, SessionCall::ExecuteCustomSql),
        WorkspaceEvent::GridTab => (BottomTab::Grid, SessionCall::Nothing),
        WorkspaceEvent::PlanTab => (
            BottomTab::PlanTree,
            if has_plan {
                SessionCall::Nothing
            } else {
                SessionCall::ExplainSql
            },
        ),
        WorkspaceEvent::BackToServers => (tab, SessionCall::Disconnect),
    }
}

/// Decides a workspace request; see `workspace_step_spec`.
pub fn workspace_step(tab: BottomTab, has_plan: bool, ev: WorkspaceEvent) -> (r: (BottomTab, SessionCall))
    ensures
        r == workspace_step_spec(tab, has_plan, ev),
{
    match ev {
        WorkspaceEvent::RunSql => (BottomTab::Grid, SessionCall::ExecuteSql),
        WorkspaceEvent::ExplainSql => (BottomTab::PlanTree, SessionCall::ExplainSql),
        WorkspaceEvent::RunCustomSql => (BottomTab::Grid, SessionCall::ExecuteCustomSql),
        WorkspaceEvent::GridTab => (BottomTab::Grid, SessionCall::Nothing),
        WorkspaceEvent::PlanTab => {
            if has_plan {
                (BottomTab::PlanTree, SessionCall::Nothing)
            } else {
                (BottomTab::PlanTree, SessionCall::ExplainSql)
            }
        },
        WorkspaceEvent::BackToServers => (tab, SessionCall::Disconnect),
    }
}

/// What the user asked for on the worksheet during one frame.
pub struct EditorAction {
    pub run_requested: bool,
    pub explain_requested: bool,
    pub execute_custom_sql: Option<String>,
}

/// The SQL worksheet.
pub struct EditorView {
    pub sql: String,
    pub show_bind_panel: bool,
    pub copied_feedback: bool,
}

/// The statement the worksheet opens with.
pub open spec fn initial_sql() -> Seq<char> {
    "SELECT /*+ GATHER_PLAN_STATISTICS */\n       I.CENTER_CD,\n       I.ITEM_CD,\n       I.ALLOCATED_QTY,\n       M.ORDER_DATE,\n       M.MOVE_STATUS\n  FROM TB_CENTER_INVENTORY I\n  JOIN TB_INVENTORY_MOVE_ORDER M\n    ON I.ITEM_CD = M.ITEM_CD\n WHERE I.CENTER_CD = 'HUB_01'\n   AND M.MOVE_STATUS = 'READY';"@
}

impl EditorAction {
    /// Nothing requested.
    pub fn none() -> (r: Self)
        ensures
            !r.run_requested,
            !r.explain_requested,
            r.execute_custom_sql is None,
    {
        EditorAction { run_requested: false, explain_requested: false, execute_custom_sql: None }
    }
}

impl EditorView {
    /// The worksheet with the sample inventory statement, the bind panel
    /// closed.
    pub fn new() -> (r: Self)
        ensures
            r.sql@ == initial_sql(),
            !r.show_bind_panel,
            !r.copied_feedback,
    {
        EditorView {
            sql: String::from_str(
                "SELECT /*+ GATHER_PLAN_STATISTICS */\n       I.CENTER_CD,\n       I.ITEM_CD,\n       I.ALLOCATED_QTY,\n       M.ORDER_DATE,\n       M.MOVE_STATUS\n  FROM TB_CENTER_INVENTORY I\n  JOIN TB_INVENTORY_MOVE_ORDER M\n    ON I.ITEM_CD = M.ITEM_CD\n WHERE I.CENTER_CD = 'HUB_01'\n   AND M.MOVE_STATUS = 'READY';",
            ),
            show_bind_panel: false,
            copied_feedback: false,
        }
    }

    /// Replaces the statement by its formatted text.
    pub fn format(&mut self)
        ensures
            final(self).sql@ == format_sql_spec(old(self).sql@),
            final(self).show_bind_panel == old(self).show_bind_panel,
            final(self).copied_feedback == old(self).copied_feedback,
    {
        self.sql = format_sql(self.sql.as_str());
    }

    /// Opens or closes the bind panel; the copy confirmation goes.
    pub fn toggle_bind_panel(&mut self)
        ensures
            final(self).sql@ == old(self).sql@,
            final(self).show_bind_panel == !old(self).show_bind_panel,
            !final(self).copied_feedback,
    {
        self.show_bind_panel = !self.show_bind_panel;
        self.copied_feedback = false;
    }
}

/// The result grid.
pub struct GridView;

/// The plan tree pane.
pub struct PlanTreeView;

/// The plan pane's figures for a count: thousands separated by commas.
pub fn format_count(n: u64) -> (r: String)
    ensures
        r@ == grouped_text(n as nat),
{
    string_from(&format_num(n))
}

/// A duration in microseconds, as the panes show it: milliseconds with two
/// decimals.
pub fn millis_label(us: u64) -> (r: String)
    ensures
        r@ == millis_text(us as nat),
{
    string_from(&millis_chars(us))
}

/// The A-Rows/E-Rows ratio of a skewed node (given in hundredths), rounded
/// to a whole number.
pub fn ratio_label(x100: u64) -> (r: String)
    ensures
        r@ == dec_text(div_round_even(x100 as nat, 100)),
{
    string_from(&whole_of_hundredths(x100))
}

/// A node's share of the buffers (given in hundredths of a percent), with
/// one decimal.
pub fn percent_label(x100: u64) -> (r: String)
    ensures
        r@ == tenths_text(div_round_even(x100 as nat, 10)),
{
    string_from(&tenths_of_hundredths(x100))
}

/// The server list with its login dialog.
pub struct ServerListView {
    pub tns_manager: TnsManager,
    pub editor_open: bool,
    pub tns_editor: Option<TnsEditorView>,
    pub login_target: Option<TnsEntry>,
    pub username_input: String,
    pub password_input: String,
    pub remember_me: bool,
    pub error_message: Option<String>,
}

impl ServerListView {
    /// The list of the servers `tns_manager` read, with the editor and the
    /// login dialog closed and `SCOTT`/`tiger` filled in.
    pub fn new(tns_manager: TnsManager) -> (r: Self)
        ensures
            r.tns_manager.raw_content@ == tns_manager.raw_content@,
            entries_view(r.tns_manager.entries@) == entries_view(tns_manager.entries@),
            r.tns_manager.file_path@ == tns_manager.file_path@,
            !r.editor_open,
            r.tns_editor is None,
            r.login_target is None,
            r.username_input@ == "SCOTT"@,
            r.password_input@ == "tiger"@,
            r.remember_me,
            r.error_message is None,
    {
        ServerListView {
            tns_manager,
            editor_open: false,
            tns_editor: None,
            login_target: None,
            username_input: String::from_str("SCOTT"),
            password_input: String::from_str("tiger"),
            remember_me: true,
            error_message: None,
        }
    }

    /// Opens the login dialog for `server`, clearing any earlier error.
    pub fn select_server(&mut self, server: &TnsEntry)
        ensures
            final(self).login_target matches Some(t) && t@ == server@,
            final(self).error_message is None,
            final(self).username_input@ == old(self).username_input@,
            final(self).password_input@ == old(self).password_input@,
            final(self).remember_me == old(self).remember_me,
            final(self).editor_open == old(self).editor_open,
    {
        self.login_target = Some(server.copy());
        self.error_message = None;
    }

    /// Takes the outcome of a login. On success the dialog closes and the
    /// workspace opens, on the grid, with a worksheet that reads the
    /// version banner; on failure the dialog stays open and shows the error.
    pub fn login_outcome(&mut self, outcome: Result<(), String>) -> (r: Option<(EditorView, BottomTab)>)
        ensures
            final(self).username_input@ == old(self).username_input@,
            final(self).password_input@ == old(self).password_input@,
            final(self).remember_me == old(self).remember_me,
            final(self).editor_open == old(self).editor_open,
            match outcome {
                Ok(()) => {
                    &&& final(self).login_target is None
                    &&& final(self).error_message is None
                    &&& r matches Some((ed, tab)) && ed.sql@ == "SELECT banner FROM v$version;"@
                        && !ed.show_bind_panel && !ed.copied_feedback && tab == BottomTab::Grid
                },
                Err(e) => {
                    &&& r is None
                    &&& final(self).login_target == old(self).login_target
                    &&& final(self).error_message matches Some(m) && m@ == e@
                },
            },
    {
        match outcome {
            Ok(()) => {
                self.login_target = None;
                self.error_message = None;
                let editor = EditorView {
                    sql: String::from_str("SELECT banner FROM v$version;"),
                    show_bind_panel: false,
                    copied_feedback: false,
                };
                Some((editor, BottomTab::Grid))
            },
            Err(e) => {
                self.error_message = Some(e);
                None
            },
        }
    }

    /// Closes the login dialog and forgets its error.
    pub fn close_login(&mut self)
        ensures
            final(self).login_target is None,
            final(self).error_message is None,
            final(self).username_input@ == old(self).username_input@,
            final(self).password_input@ == old(self).password_input@,
            final(self).remember_me == old(self).remember_me,
            final(self).editor_open == old(self).editor_open,
    {
        self.login_target = None;
        self.error_message = None;
    }

    /// The settings for logging in to `server` with the user name and
    /// password typed in.
    pub fn login_config(&self, server: &TnsEntry) -> (r: ConnectionConfig)
        ensures
            r@ == (ConnectionConfigView {
                alias: server@.alias,
                host: server@.host,
                port: server@.port,
                service_name: server@.service_name,
                username: self.username_input@,
                password: self.password_input@,
            }),
    {
        ConnectionConfig {
            alias: copy_string(&server.alias),
            host: copy_string(&server.host),
            port: server.port,
            service_name: copy_string(&server.service_name),
            username: copy_string(&self.username_input),
            password: copy_string(&self.password_input),
        }
    }
}

/// The badge of a server in the list: the first two characters of its
/// alias, or the whole alias when it is no longer.
pub open spec fn initial_spec(alias: Seq<char>) -> Seq<char> {
    if alias.len() > 2 {
        alias.take(2)
    } else {
        alias
    }
}

/// The badge text of a server; see `initial_spec`.
pub fn server_initial(alias: &str) -> (r: String)
    ensures
        r@ == initial_spec(alias@),
{
    let v = chars_of(alias);
    if v.len() > 2 {
        string_from(&slice_of(&v, 0, 2))
    } else {
        string_from(&v)
    }
}

/// The `tnsnames.ora` editor.
pub struct TnsEditorView {
    pub content: String,
    pub status_message: Option<String>,
}

pub open spec fn reverted_message() -> Seq<char> {
    "파일 내용을 다시 불러왔습니다."@
}

pub open spec fn saved_message(n: nat) -> Seq<char> {
    "저장 완료! (총 "@ + crate::numfmt::dec_text(n) + "개 서버 인식)"@
}

impl TnsEditorView {
    /// An editor holding the text the manager read.
    pub fn new(manager: &TnsManager) -> (r: Self)
        ensures
            r.content@ == manager.raw_content@,
            r.status_message is None,
    {
        TnsEditorView { content: copy_string(&manager.raw_content), status_message: None }
    }

    /// Puts back the text the manager holds.
    pub fn revert(&mut self, manager: &TnsManager)
        ensures
            final(self).content@ == manager.raw_content@,
            final(self).status_message matches Some(m) && m@ == reverted_message(),
    {
        self.content = copy_string(&manager.raw_content);
        self.status_message = Some(String::from_str("파일 내용을 다시 불러왔습니다."));
    }

    /// Saves the edited text through the manager, given the outcome of
    /// writing the file, and reports how many servers it now lists or why
    /// the save failed.
    pub fn save(&mut self, manager: &mut TnsManager, written: Result<(), String>)
        ensures
            final(self).content@ == old(self).content@,
            final(manager).file_path@ == old(manager).file_path@,
            match written {
                Ok(()) => {
                    &&& final(manager).raw_content@ == old(self).content@
                    &&& entries_view(final(manager).entries@) == parse_tns_spec(old(self).content@)
                    &&& final(self).status_message matches Some(m)
                        && m@ == saved_message(parse_tns_spec(old(self).content@).len())
                },
                Err(e) => {
                    &&& final(manager).raw_content@ == old(manager).raw_content@
                    &&& entries_view(final(manager).entries@) == entries_view(old(manager).entries@)
                    &&& final(self).status_message matches Some(m) && m@ == save_error_message(e@)
                },
            },
    {
        match manager.save(self.content.as_str(), written) {
            Ok(()) => {
                let mut m = chars_of("저장 완료! (총 ");
                let n = crate::numfmt::u64_text(manager.entries.len() as u64);
                crate::text::append_chars(&mut m, &n);
                crate::text::append_str(&mut m, "개 서버 인식)");
                assert(entries_view(manager.entries@).len() == manager.entries@.len());
                self.status_message = Some(string_from(&m));
            },
            Err(e) => {
                self.status_message = Some(e);
            },
        }
    }
}

} // verus!
