use vstd::prelude::*;
use crate::gitanalyzer::{GitMsg, GitStats};
use crate::paths::{complete_path, completed_path, completes, first_completion};
use crate::scanner::{
    hosts_of, law_common_preset_is_named_services, law_other_presets, parse_hosts, parse_ports,
    port_listed, preset_of, preset_ports, service_of,
};
use crate::text::{append_decimal, decimal, string_pop, string_push};

verus! {

/// How the process list is ordered.
#[derive(PartialEq, Eq, Structural, Clone, Copy)]
pub enum ProcSort {
    Cpu,
    Mem,
    Pid,
    Name,
}

/// The key of a key press.
#[derive(PartialEq, Eq, Structural, Clone, Copy)]
pub enum KeyCode {
    Char(char),
    Enter,
    Esc,
    Tab,
    BackTab,
    Backspace,
    Up,
    Down,
    Home,
    End,
    F(u8),
    Other,
}

/// The modifier bits of a key press: Shift and Control; any other bit
/// stands for another modifier. A shortcut with modifiers matches only
/// when the bits are exactly its own.
pub const SHIFT: u8 = 0b0000_0001;

pub const CONTROL: u8 = 0b0000_0010;

/// A key press: its key and its modifier bits.
#[derive(PartialEq, Eq, Structural, Clone, Copy)]
pub struct Key {
    pub code: KeyCode,
    pub modifiers: u8,
}

/// What a mouse event does.
#[derive(PartialEq, Eq, Structural, Clone, Copy)]
pub enum MouseKind {
    LeftDown,
    ScrollUp,
    ScrollDown,
    Other,
}

/// What the program is to do after a key press, beyond the change of state.
#[derive(PartialEq, Eq, Structural, Clone, Copy)]
pub enum KeyAction {
    Nothing,
    Quit,
    /// complete the repository path from the directories on disk
    CompleteGitPath,
    StartGitAnalysis,
    StartScan,
    /// signal the selected process (SIGKILL where `force`, else SIGTERM)
    Kill { force: bool },
}

/// The state of the monitor's controls: the tabs, the input fields, the
/// selections and what the scanner and the repository analysis report.
pub struct UiState {
    pub tab: usize,
    pub tick: u64,
    pub tick_rate_ms: u64,
    pub show_help: bool,
    /// CPU load above the alert threshold
    pub alert_cpu: bool,
    /// memory use above the alert threshold
    pub alert_mem: bool,
    /// tick at which an alert was last raised
    pub alert_tick: u64,
    pub proc_sort: ProcSort,
    pub proc_selected: usize,
    pub proc_filter: String,
    pub proc_filter_active: bool,
    /// the number of processes listed
    pub proc_count: usize,
    pub scan_host: String,
    pub scan_ports: String,
    pub scan_timeout_ms: u64,
    pub scan_concurrency: usize,
    pub scan_running: bool,
    pub scan_status: String,
    pub scan_selected: usize,
    pub scan_show_closed: bool,
    /// 0 = host, 1 = ports
    pub scan_input_field: usize,
    pub scan_input_active: bool,
    pub scan_total: usize,
    /// results received (all of them are kept)
    pub scan_done: usize,
    /// results received for open ports
    pub scan_open: usize,
    pub git_path: String,
    pub git_input_active: bool,
    pub git_stats: Option<Box<GitStats>>,
    pub git_running: bool,
    pub git_status: String,
    pub git_progress: (usize, usize),
    /// 0 = overview, 1 = authors, 2 = hot files, 3 = heat map
    pub git_tab: usize,
    pub git_selected: usize,
}

/// `UiState` with its strings as character sequences.
pub ghost struct UiView {
    pub tab: usize,
    pub tick: u64,
    pub tick_rate_ms: u64,
    pub show_help: bool,
    pub alert_cpu: bool,
    pub alert_mem: bool,
    pub alert_tick: u64,
    pub proc_sort: ProcSort,
    pub proc_selected: usize,
    pub proc_filter: Seq<char>,
    pub proc_filter_active: bool,
    pub proc_count: usize,
    pub scan_host: Seq<char>,
    pub scan_ports: Seq<char>,
    pub scan_timeout_ms: u64,
    pub scan_concurrency: usize,
    pub scan_running: bool,
    pub scan_status: Seq<char>,
    pub scan_selected: usize,
    pub scan_show_closed: bool,
    pub scan_input_field: usize,
    pub scan_input_active: bool,
    pub scan_total: usize,
    pub scan_done: usize,
    pub scan_open: usize,
    pub git_path: Seq<char>,
    pub git_input_active: bool,
    pub git_stats: Option<Box<GitStats>>,
    pub git_running: bool,
    pub git_status: Seq<char>,
    pub git_progress: (usize, usize),
    pub git_tab: usize,
    pub git_selected: usize,
}

impl View for UiState {
    type V = UiView;

    open spec fn view(&self) -> UiView {
        UiView {
            tab: self.tab,
            tick: self.tick,
            tick_rate_ms: self.tick_rate_ms,
            show_help: self.show_help,
            alert_cpu: self.alert_cpu,
            alert_mem: self.alert_mem,
            alert_tick: self.alert_tick,
            proc_sort: self.proc_sort,
            proc_selected: self.proc_selected,
            proc_filter: self.proc_filter@,
            proc_filter_active: self.proc_filter_active,
            proc_count: self.proc_count,
            scan_host: self.scan_host@,
            scan_ports: self.scan_ports@,
            scan_timeout_ms: self.scan_timeout_ms,
            scan_concurrency: self.scan_concurrency,
            scan_running: self.scan_running,
            scan_status: self.scan_status@,
            scan_selected: self.scan_selected,
            scan_show_closed: self.scan_show_closed,
            scan_input_field: self.scan_input_field,
            scan_input_active: self.scan_input_active,
            scan_total: self.scan_total,
            scan_done: self.scan_done,
            scan_open: self.scan_open,
            git_path: self.git_path@,
            git_input_active: self.git_input_active,
            git_stats: self.git_stats,
            git_running: self.git_running,
            git_status: self.git_status@,
            git_progress: self.git_progress,
            git_tab: self.git_tab,
            git_selected: self.git_selected,
        }
    }
}

// ── What a key press does ────────────────────────────────────────────────────

/// The bounds that every state of the controls keeps.
pub open spec fn ui_wf(v: UiView) -> bool {
    &&& v.tab < 8
    &&& 200 <= v.tick_rate_ms <= 5000
    &&& v.scan_input_field <= 1
    &&& v.git_tab < 4
    &&& v.scan_open <= v.scan_done
    &&& (v.proc_selected == 0 || v.proc_selected < v.proc_count)
}

/// The number of scan results shown: all of them, or only the open ports.
pub open spec fn visible_results(v: UiView) -> usize {
    if v.scan_show_closed {
        v.scan_done
    } else {
        v.scan_open
    }
}

/// The number of rows of the repository view shown (authors or hot files).
pub open spec fn git_rows(v: UiView) -> usize {
    match v.git_stats {
        Some(s) => if v.git_tab == 1 {
            s.authors@.len() as usize
        } else if v.git_tab == 2 {
            s.hot_files@.len() as usize
        } else {
            0
        },
        None => 0,
    }
}

/// `n - 1`, or 0 where `n` is 0.
pub open spec fn sat_sub1(n: usize) -> usize {
    if n == 0 {
        0
    } else {
        (n - 1) as usize
    }
}

/// A key while the repository path is being typed.
pub open spec fn git_input_step(v: UiView, k: Key) -> (UiView, KeyAction) {
    match k.code {
        KeyCode::Esc => (UiView { git_input_active: false, ..v }, KeyAction::Nothing),
        KeyCode::Tab => (v, KeyAction::CompleteGitPath),
        KeyCode::Enter => (UiView { git_input_active: false, ..v }, KeyAction::StartGitAnalysis),
        KeyCode::Backspace => (UiView {
            git_path: if v.git_path.len() > 0 { v.git_path.drop_last() } else { v.git_path },
            ..v
        }, KeyAction::Nothing),
        KeyCode::Char(c) => (UiView { git_path: v.git_path.push(c), ..v }, KeyAction::Nothing),
        _ => (v, KeyAction::Nothing),
    }
}

/// A key while the scan target or ports are being typed.
pub open spec fn scan_input_step(v: UiView, k: Key) -> (UiView, KeyAction) {
    match k.code {
        KeyCode::Esc => (UiView { scan_input_active: false, ..v }, KeyAction::Nothing),
        KeyCode::Tab => (UiView { scan_input_field: (1 - v.scan_input_field) as usize, ..v }, KeyAction::Nothing),
        KeyCode::Enter => (UiView { scan_input_active: false, ..v }, KeyAction::StartScan),
        KeyCode::Backspace => if v.scan_input_field == 0 {
            (UiView {
                scan_host: if v.scan_host.len() > 0 { v.scan_host.drop_last() } else { v.scan_host },
                ..v
            }, KeyAction::Nothing)
        } else {
            (UiView {
                scan_ports: if v.scan_ports.len() > 0 { v.scan_ports.drop_last() } else { v.scan_ports },
                ..v
            }, KeyAction::Nothing)
        },
        KeyCode::Char(c) => if v.scan_input_field == 0 {
            (UiView { scan_host: v.scan_host.push(c), ..v }, KeyAction::Nothing)
        } else {
            (UiView { scan_ports: v.scan_ports.push(c), ..v }, KeyAction::Nothing)
        },
        _ => (v, KeyAction::Nothing),
    }
}

/// A key while the process filter is being typed.
pub open spec fn filter_step(v: UiView, k: Key) -> (UiView, KeyAction) {
    match k.code {
        KeyCode::Esc => (UiView { proc_filter: Seq::empty(), proc_filter_active: false, ..v }, KeyAction::Nothing),
        KeyCode::Enter => (UiView { proc_filter_active: false, ..v }, KeyAction::Nothing),
        KeyCode::Backspace => (UiView {
            proc_filter: if v.proc_filter.len() > 0 { v.proc_filter.drop_last() } else { v.proc_filter },
            ..v
        }, KeyAction::Nothing),
        KeyCode::Char(c) => (UiView { proc_filter: v.proc_filter.push(c), ..v }, KeyAction::Nothing),
        _ => (v, KeyAction::Nothing),
    }
}

/// Switches to tab `t`; the repository tab starts the path input.
pub open spec fn to_tab(v: UiView, t: usize) -> UiView {
    UiView { tab: t, git_input_active: if t == 7 { true } else { v.git_input_active }, ..v }
}

/// `Up` / `k`.
pub open spec fn select_up(v: UiView) -> UiView {
    if v.tab == 7 {
        UiView { git_selected: sat_sub1(v.git_selected), ..v }
    } else if v.tab == 6 {
        UiView { scan_selected: sat_sub1(v.scan_selected), ..v }
    } else {
        UiView { proc_selected: sat_sub1(v.proc_selected), ..v }
    }
}

/// `Down` / `j`.
pub open spec fn select_down(v: UiView) -> UiView {
    if v.tab == 7 {
        UiView {
            git_selected: if v.git_selected + 1 < git_rows(v) { (v.git_selected + 1) as usize } else { v.git_selected },
            ..v
        }
    } else if v.tab == 6 {
        UiView {
            scan_selected: if v.scan_selected + 1 < visible_results(v) {
                (v.scan_selected + 1) as usize
            } else {
                v.scan_selected
            },
            ..v
        }
    } else {
        UiView {
            proc_selected: if v.proc_selected + 1 < v.proc_count {
                (v.proc_selected + 1) as usize
            } else {
                v.proc_selected
            },
            ..v
        }
    }
}

/// `Esc` outside the input fields: clears the filter, cancels a running
/// scan and, on the repository tab, a running analysis.
pub open spec fn escape(v: UiView) -> UiView {
    let w = UiView { proc_filter: Seq::empty(), proc_filter_active: false, ..v };
    let w = if v.scan_running {
        UiView { scan_running: false, scan_status: "已取消"@, ..w }
    } else {
        w
    };
    if v.tab == 7 && v.git_running {
        UiView { git_running: false, git_status: "已取消"@, ..w }
    } else {
        w
    }
}

/// A character key that means the same on every tab.
pub open spec fn global_char(v: UiView, c: char, m: u8) -> (UiView, KeyAction) {
    if c == 'q' || (c == 'c' && m == CONTROL) {
        (v, KeyAction::Quit)
    } else if c == '?' {
        (UiView { show_help: !v.show_help, ..v }, KeyAction::Nothing)
    } else if '1' <= c && c <= '8' {
        (to_tab(v, (c as int - '1' as int) as usize), KeyAction::Nothing)
    } else if c == '+' || c == '=' {
        (UiView { tick_rate_ms: if v.tick_rate_ms >= 400 { (v.tick_rate_ms - 200) as u64 } else { 200 }, ..v },
            KeyAction::Nothing)
    } else if c == '-' {
        (UiView { tick_rate_ms: if v.tick_rate_ms + 500 <= 5000 { (v.tick_rate_ms + 500) as u64 } else { 5000 }, ..v },
            KeyAction::Nothing)
    } else if c == '/' {
        (UiView { tab: 5, proc_filter_active: true, ..v }, KeyAction::Nothing)
    } else {
        tab_char(v, c, m)
    }
}

/// A character key of the repository or scanner tab.
pub open spec fn tab_char(v: UiView, c: char, m: u8) -> (UiView, KeyAction) {
    let t = v.tab;
    if t == 7 && c == 'i' {
        (UiView { git_input_active: true, ..v }, KeyAction::Nothing)
    } else if t == 7 && c == 'a' {
        (UiView { git_tab: 1, ..v }, KeyAction::Nothing)
    } else if t == 7 && c == 'f' {
        (UiView { git_tab: 2, ..v }, KeyAction::Nothing)
    } else if t == 7 && c == 'h' {
        (UiView { git_tab: 3, ..v }, KeyAction::Nothing)
    } else if t == 7 && c == 'o' {
        (UiView { git_tab: 0, ..v }, KeyAction::Nothing)
    } else if t == 6 && c == 'i' {
        (UiView { scan_input_active: true, scan_input_field: 0, ..v }, KeyAction::Nothing)
    } else if t == 6 && (c == 'h' || c == 'H') {
        (UiView { scan_show_closed: !v.scan_show_closed, ..v }, KeyAction::Nothing)
    } else {
        list_char(v, c, m)
    }
}

/// A character key that moves in a list, orders the processes or signals one.
pub open spec fn list_char(v: UiView, c: char, m: u8) -> (UiView, KeyAction) {
    let t = v.tab;
    if c == 'k' {
        (select_up(v), KeyAction::Nothing)
    } else if c == 'j' {
        (select_down(v), KeyAction::Nothing)
    } else if c == 'g' {
        (select_first(v), KeyAction::Nothing)
    } else if c == 'G' {
        (select_last(v), KeyAction::Nothing)
    } else if t != 6 && c == 'c' {
        (UiView { proc_sort: ProcSort::Cpu, ..v }, KeyAction::Nothing)
    } else if t != 6 && c == 'm' {
        (UiView { proc_sort: ProcSort::Mem, ..v }, KeyAction::Nothing)
    } else if t != 6 && c == 'p' {
        (UiView { proc_sort: ProcSort::Pid, ..v }, KeyAction::Nothing)
    } else if t != 6 && c == 'n' {
        (UiView { proc_sort: ProcSort::Name, ..v }, KeyAction::Nothing)
    } else if t == 5 && c == 'K' {
        (v, KeyAction::Kill { force: m == SHIFT })
    } else {
        (v, KeyAction::Nothing)
    }
}

/// `Home` / `g`.
pub open spec fn select_first(v: UiView) -> UiView {
    if v.tab == 6 {
        UiView { scan_selected: 0, ..v }
    } else {
        UiView { proc_selected: 0, ..v }
    }
}

/// `End` / `G`.
pub open spec fn select_last(v: UiView) -> UiView {
    if v.tab == 6 {
        UiView { scan_selected: sat_sub1(visible_results(v)), ..v }
    } else {
        UiView { proc_selected: sat_sub1(v.proc_count), ..v }
    }
}

/// `Enter` outside the input fields: cancels the running job of the
/// repository or scanner tab, or opens its input.
pub open spec fn enter_command(v: UiView) -> UiView {
    if v.tab == 7 {
        if v.git_running {
            UiView { git_running: false, git_status: "已取消"@, ..v }
        } else {
            UiView { git_input_active: true, ..v }
        }
    } else if v.tab == 6 {
        if v.scan_running {
            UiView { scan_running: false, scan_status: "已取消"@, ..v }
        } else {
            UiView { scan_input_active: true, scan_input_field: 0, ..v }
        }
    } else {
        v
    }
}

/// `F1`..`F4` on the scanner tab: a preset list of ports.
pub open spec fn preset_key(v: UiView, n: u8) -> UiView {
    if v.tab == 6 && n == 1 {
        UiView { scan_ports: preset_of("常用"@), ..v }
    } else if v.tab == 6 && n == 2 {
        UiView { scan_ports: preset_of("Web"@), ..v }
    } else if v.tab == 6 && n == 3 {
        UiView { scan_ports: preset_of("数据库"@), ..v }
    } else if v.tab == 6 && n == 4 {
        UiView { scan_ports: preset_of("远程"@), ..v }
    } else {
        v
    }
}

/// A key outside the input fields.
pub open spec fn command_step(v: UiView, k: Key) -> (UiView, KeyAction) {
    match k.code {
        KeyCode::Char(c) => global_char(v, c, k.modifiers),
        KeyCode::Tab => (to_tab(v, ((v.tab + 1) % 8) as usize), KeyAction::Nothing),
        KeyCode::BackTab => (to_tab(v, ((v.tab + 7) % 8) as usize), KeyAction::Nothing),
        KeyCode::Esc => (escape(v), KeyAction::Nothing),
        KeyCode::Enter => (enter_command(v), KeyAction::Nothing),
        KeyCode::F(n) => (preset_key(v, n), KeyAction::Nothing),
        KeyCode::Up => (select_up(v), KeyAction::Nothing),
        KeyCode::Down => (select_down(v), KeyAction::Nothing),
        KeyCode::Home => (select_first(v), KeyAction::Nothing),
        KeyCode::End => (select_last(v), KeyAction::Nothing),
        _ => (v, KeyAction::Nothing),
    }
}

/// What a key press does: the help overlay closes on any key; an active
/// input field takes the key; otherwise the key is a command.
pub open spec fn key_step(v: UiView, k: Key) -> (UiView, KeyAction) {
    if v.show_help {
        (UiView { show_help: false, ..v }, KeyAction::Nothing)
    } else if v.git_input_active {
        git_input_step(v, k)
    } else if v.scan_input_active {
        scan_input_step(v, k)
    } else if v.proc_filter_active {
        filter_step(v, k)
    } else {
        command_step(v, k)
    }
}

/// Every key press keeps the bounds of `ui_wf`.
pub proof fn law_keys_keep_bounds(v: UiView, k: Key)
    requires
        ui_wf(v),
    ensures
        ui_wf(key_step(v, k).0),
{
    if !v.show_help && !v.git_input_active && !v.scan_input_active && !v.proc_filter_active {
        lemma_command_keeps_bounds(v, k);
    }
}

proof fn lemma_selection_keeps_bounds(v: UiView)
    requires
        ui_wf(v),
    ensures
        ui_wf(select_up(v)),
        ui_wf(select_down(v)),
        ui_wf(select_first(v)),
        ui_wf(select_last(v)),
{
}

proof fn lemma_list_char_keeps_bounds(v: UiView, c: char, m: u8)
    requires
        ui_wf(v),
    ensures
        ui_wf(list_char(v, c, m).0),
{
    lemma_selection_keeps_bounds(v);
}

proof fn lemma_global_char_keeps_bounds(v: UiView, c: char, m: u8)
    requires
        ui_wf(v),
    ensures
        ui_wf(global_char(v, c, m).0),
{
    lemma_list_char_keeps_bounds(v, c, m);
}

proof fn lemma_command_keeps_bounds(v: UiView, k: Key)
    requires
        ui_wf(v),
    ensures
        ui_wf(command_step(v, k).0),
{
    match k.code {
        KeyCode::Char(c) => lemma_global_char_keeps_bounds(v, c, k.modifiers),
        _ => {},
    }
}

/// While an input field is active, no key switches the tab and none quits.
pub proof fn law_input_captures_keys(v: UiView, k: Key)
    requires
        !v.show_help,
        v.git_input_active || v.scan_input_active || v.proc_filter_active,
    ensures
        key_step(v, k).0.tab == v.tab,
        key_step(v, k).1 != KeyAction::Quit,
{
}

/// Any key closes the help overlay and does nothing else.
pub proof fn law_help_closes_on_any_key(v: UiView, k: Key)
    requires
        v.show_help,
    ensures
        key_step(v, k) == (UiView { show_help: false, ..v }, KeyAction::Nothing),
{
}

// ── Mouse ────────────────────────────────────────────────────────────────────

/// What a mouse event at (`column`, `row`) does: a left click on the tab bar
/// (rows 0 to 2, tabs about ten columns wide from column 1) picks a tab; the
/// wheel moves the selection of the process, scanner or repository list.
pub open spec fn mouse_step(v: UiView, kind: MouseKind, column: u16, row: u16) -> UiView {
    match kind {
        MouseKind::LeftDown => {
            let idx = sat_sub1(column as usize) / 10;
            if row <= 2 && idx < 8 {
                UiView { tab: idx as usize, ..v }
            } else {
                v
            }
        },
        MouseKind::ScrollUp => {
            if v.tab == 5 && v.proc_selected > 0 {
                UiView { proc_selected: (v.proc_selected - 1) as usize, ..v }
            } else if v.tab == 6 && v.scan_selected > 0 {
                UiView { scan_selected: (v.scan_selected - 1) as usize, ..v }
            } else if v.tab == 7 && v.git_selected > 0 {
                UiView { git_selected: (v.git_selected - 1) as usize, ..v }
            } else {
                v
            }
        },
        MouseKind::ScrollDown => {
            if v.tab == 5 && v.proc_selected + 1 < v.proc_count {
                UiView { proc_selected: (v.proc_selected + 1) as usize, ..v }
            } else if v.tab == 6 && v.scan_selected + 1 < visible_results(v) {
                UiView { scan_selected: (v.scan_selected + 1) as usize, ..v }
            } else if v.tab == 7 && v.git_selected + 1 < git_rows(v) {
                UiView { git_selected: (v.git_selected + 1) as usize, ..v }
            } else {
                v
            }
        },
        MouseKind::Other => v,
    }
}

/// Every mouse event keeps the bounds of `ui_wf`.
pub proof fn law_mouse_keeps_bounds(v: UiView, kind: MouseKind, column: u16, row: u16)
    requires
        ui_wf(v),
    ensures
        ui_wf(mouse_step(v, kind, column, row)),
{
}

// ── Jobs: the port scan and the repository analysis ──────────────────────────

/// Some port from 1 to 65535 is named by the port list `s`.
pub open spec fn any_port_listed(s: Seq<char>) -> bool {
    exists|p: u16| port_listed(s, p as int)
}

/// `hosts` are the hosts that the target `input` names, in order.
pub open spec fn hosts_named(hosts: Seq<String>, input: Seq<char>) -> bool {
    &&& hosts.len() == hosts_of(input).len()
    &&& forall|k: int| 0 <= k < hosts.len() ==> #[trigger] hosts[k]@ == hosts_of(input)[k]
}

/// `ports` are the ports that the list `input` names, ascending, each once.
pub open spec fn ports_named(ports: Seq<u16>, input: Seq<char>) -> bool {
    &&& forall|i: int, j: int| 0 <= i < j < ports.len() ==> ports[i] < ports[j]
    &&& forall|p: u16| ports.contains(p) <==> port_listed(input, p as int)
}

pub open spec fn scan_started_text(hosts: nat, ports: nat) -> Seq<char> {
    "扫描中… "@ + decimal(hosts) + " 个主机 × "@ + decimal(ports) + " 个端口 = "@
        + decimal(hosts * ports) + " 个任务"@
}

pub open spec fn scan_done_text(total: nat, open: nat, seconds: Seq<char>) -> Seq<char> {
    "扫描完成  共 "@ + decimal(total) + " 个端口  开放 "@ + decimal(open) + "  耗时 "@ + seconds + "s"@
}

pub open spec fn git_progress_text(done: nat, total: nat) -> Seq<char> {
    "分析中… "@ + decimal(done) + "/"@ + decimal(total) + " commits"@
}

pub open spec fn git_done_text(commits: nat, authors: nat, files: nat) -> Seq<char> {
    "分析完成  "@ + decimal(commits) + " commits  "@ + decimal(authors) + " 作者  "@ + decimal(files) + " 文件"@
}

/// What asking for a scan does, given what came back (`job`) and the
/// state after (`w`): nothing while a scan runs; an error status where the
/// target names no host or the list no port; else the hosts and ports to
/// probe, with the counters restarted.
pub open spec fn scan_begun(v: UiView, w: UiView, job: Option<(Vec<String>, Vec<u16>)>) -> bool {
    if v.scan_running {
        job is None && w == v
    } else if hosts_of(v.scan_host).len() == 0 || !any_port_listed(v.scan_ports) {
        job is None && w == (UiView { scan_status: "地址或端口格式错误"@, ..v })
    } else {
        match job {
            Some((hosts, ports)) => {
                &&& hosts_named(hosts@, v.scan_host)
                &&& ports_named(ports@, v.scan_ports)
                &&& w == scan_started(v, hosts@.len(), ports@.len())
            },
            None => false,
        }
    }
}

pub open spec fn scan_started(v: UiView, hosts: nat, ports: nat) -> UiView {
    UiView {
        scan_selected: 0,
        scan_total: (hosts * ports) as usize,
        scan_done: 0,
        scan_open: 0,
        scan_running: true,
        scan_status: scan_started_text(hosts, ports),
        ..v
    }
}

/// One more port probed; `open` where it accepted the connection.
pub open spec fn result_recorded(v: UiView, open: bool) -> UiView {
    UiView {
        scan_done: (v.scan_done + 1) as usize,
        scan_open: if open { (v.scan_open + 1) as usize } else { v.scan_open },
        ..v
    }
}

pub open spec fn scan_finished(v: UiView, total: nat, open: nat, seconds: Seq<char>) -> UiView {
    UiView { scan_running: false, scan_status: scan_done_text(total, open, seconds), ..v }
}

pub open spec fn git_started(v: UiView) -> UiView {
    UiView {
        git_stats: None,
        git_selected: 0,
        git_progress: (0, 0),
        git_running: true,
        git_status: "正在打开仓库: "@ + v.git_path,
        ..v
    }
}

/// What a message of the repository analysis does, and whether the
/// analysis has ended with it.
pub open spec fn git_msg_step(v: UiView, msg: GitMsg) -> (UiView, bool) {
    match msg {
        GitMsg::Progress { done, total } => (
            UiView { git_progress: (done, total), git_status: git_progress_text(done as nat, total as nat), ..v },
            false,
        ),
        GitMsg::Done(stats) => (
            UiView {
                git_status: git_done_text(
                    stats.total_commits as nat,
                    stats.total_authors as nat,
                    stats.total_files as nat,
                ),
                git_stats: Some(stats),
                git_running: false,
                ..v
            },
            true,
        ),
        GitMsg::Error(e) => (UiView { git_status: "错误: "@ + e@, git_running: false, ..v }, true),
    }
}

/// One refresh with `proc_count` processes listed and the alert readings;
/// the flag says whether an alert came on that was off (the bell rings).
pub open spec fn tick_step(v: UiView, proc_count: usize, cpu_alert: bool, mem_alert: bool) -> (UiView, bool) {
    let bell = (cpu_alert && !v.alert_cpu) || (mem_alert && !v.alert_mem);
    let tick = (v.tick + 1) as u64;
    (
        UiView {
            tick: tick,
            proc_count: proc_count,
            proc_selected: if v.proc_selected <= sat_sub1(proc_count) {
                v.proc_selected
            } else {
                sat_sub1(proc_count)
            },
            alert_cpu: cpu_alert,
            alert_mem: mem_alert,
            alert_tick: if bell { tick } else { v.alert_tick },
            ..v
        },
        bell,
    )
}

/// The bell rings when an alert comes on, not again while it stays on: a
/// second tick with the same readings never rings.
pub proof fn law_bell_rings_once(v: UiView, n: usize, m: usize, cpu_alert: bool, mem_alert: bool)
    requires
        v.tick < u64::MAX - 1,
    ensures
        !tick_step(tick_step(v, n, cpu_alert, mem_alert).0, m, cpu_alert, mem_alert).1,
{
}

pub open spec fn kill_reported(v: UiView, force: bool, err: Seq<char>) -> UiView {
    UiView { scan_status: (if force { "SIGKILL 失败: "@ } else { "Kill 失败: "@ }) + err, ..v }
}

/// Completing the repository path from the directories `names` of `base`,
/// the directory of the path typed, whose last part is `prefix`: the path
/// becomes the first completing name (see `first_completion`), or stays.
pub open spec fn path_completed(
    v: UiView,
    w: UiView,
    names: Seq<String>,
    prefix: Seq<char>,
    base: Seq<char>,
    sep: char,
) -> bool {
    ||| (forall|j: int| 0 <= j < names.len() ==> !completes(#[trigger] names[j]@, prefix)) && w == v
    ||| exists|i: int| #[trigger] first_completion(names, prefix, i)
        && w == (UiView { git_path: completed_path(base, names[i]@, sep), ..v })
}

/// The state of the controls when the monitor starts.
pub open spec fn initial_view() -> UiView {
    UiView {
        tab: 0,
        tick: 0,
        tick_rate_ms: 1000,
        show_help: false,
        alert_cpu: false,
        alert_mem: false,
        alert_tick: 0,
        proc_sort: ProcSort::Cpu,
        proc_selected: 0,
        proc_filter: Seq::empty(),
        proc_filter_active: false,
        proc_count: 0,
        scan_host: "192.168.1.1"@,
        scan_ports: "21,22,80,443,3306,3389,8080"@,
        scan_timeout_ms: 500,
        scan_concurrency: 100,
        scan_running: false,
        scan_status: "输入目标地址和端口，按 Enter 开始扫描"@,
        scan_selected: 0,
        scan_show_closed: false,
        scan_input_field: 0,
        scan_input_active: false,
        scan_total: 0,
        scan_done: 0,
        scan_open: 0,
        git_path: Seq::empty(),
        git_input_active: false,
        git_stats: None,
        git_running: false,
        git_status: "输入 Git 仓库路径，按 Enter 开始分析"@,
        git_progress: (0, 0),
        git_tab: 0,
        git_selected: 0,
    }
}

/// Outside the input fields, Esc clears the process filter and cancels the
/// running scan and, on the repository tab, the running analysis.
pub proof fn law_escape_cancels_jobs(v: UiView, m: u8)
    requires
        !v.show_help,
        !v.git_input_active,
        !v.scan_input_active,
        !v.proc_filter_active,
    ensures
        ({
            let w = key_step(v, Key { code: KeyCode::Esc, modifiers: m }).0;
            &&& w.proc_filter.len() == 0
            &&& !w.scan_running
            &&& v.scan_running ==> w.scan_status == "已取消"@
            &&& v.tab == 7 ==> !w.git_running
            &&& v.tab == 7 && v.git_running ==> w.git_status == "已取消"@
            &&& v.tab != 7 ==> w.git_running == v.git_running
        }),
{
}

/// On the scanner tab, F1 to F4 load the port presets: F1 the ports that
/// have a service name, F2 the web ports, F3 the database ports, F4 the
/// remote-access ports; nothing else changes. Elsewhere they do nothing.
pub proof fn law_function_keys_load_presets(v: UiView, n: u8, m: u8, p: u16)
    requires
        !v.show_help,
        !v.git_input_active,
        !v.scan_input_active,
        !v.proc_filter_active,
    ensures
        ({
            let (w, act) = key_step(v, Key { code: KeyCode::F(n), modifiers: m });
            &&& act == KeyAction::Nothing
            &&& v.tab == 6 && 1 <= n <= 4 ==> w == (UiView { scan_ports: w.scan_ports, ..v })
            &&& !(v.tab == 6 && 1 <= n <= 4) ==> w == v
            &&& v.tab == 6 && n == 1 ==> (port_listed(w.scan_ports, p as int) <==> service_of(p) != ""@)
            &&& v.tab == 6 && n == 2 ==> (port_listed(w.scan_ports, p as int) <==> seq![
                80u16,
                443,
                8080,
                8443,
                8888,
                9090,
                9443,
            ].contains(p))
            &&& v.tab == 6 && n == 3 ==> (port_listed(w.scan_ports, p as int) <==> seq![
                1433u16,
                1521,
                3306,
                5432,
                6379,
                27017,
                9200,
            ].contains(p))
            &&& v.tab == 6 && n == 4 ==> (port_listed(w.scan_ports, p as int) <==> seq![
                22u16,
                23,
                3389,
                5900,
                5901,
            ].contains(p))
        }),
{
    law_common_preset_is_named_services(p);
    law_other_presets(p);
}

/// F1 and F2 load different port lists (SSH's port 22 is in the first only).
pub proof fn law_first_presets_differ(v: UiView, m: u8)
    requires
        !v.show_help,
        !v.git_input_active,
        !v.scan_input_active,
        !v.proc_filter_active,
        v.tab == 6,
    ensures
        key_step(v, Key { code: KeyCode::F(1), modifiers: m }).0.scan_ports != key_step(
            v,
            Key { code: KeyCode::F(2), modifiers: m },
        ).0.scan_ports,
{
    law_function_keys_load_presets(v, 1, m, 22);
    law_function_keys_load_presets(v, 2, m, 22);
    reveal_strlit("SSH");
    reveal_strlit("");
    assert(service_of(22u16) == "SSH"@);
    assert("SSH"@.len() == 3 && ""@.len() == 0);
    let web = seq![80u16, 443, 8080, 8443, 8888, 9090, 9443];
    assert(!web.contains(22u16)) by {
        if web.contains(22u16) {
            let k = choose|k: int| 0 <= k < web.len() && web[k] == 22u16;
            if k == 0 {} else if k == 1 {} else if k == 2 {} else if k == 3 {} else if k == 4 {} else if k == 5 {} else {}
        }
    }
    assert(port_listed(key_step(v, Key { code: KeyCode::F(1), modifiers: m }).0.scan_ports, 22));
    assert(!port_listed(key_step(v, Key { code: KeyCode::F(2), modifiers: m }).0.scan_ports, 22));
}

/// On the process, scanner and repository tabs the wheel moves the
/// selection as the arrow keys do: down by one while a row follows, up by
/// one while a row precedes; on the scanner tab within the results shown.
/// On the other tabs it moves nothing.
pub proof fn law_wheel_moves_like_arrows(v: UiView, c: u16, r: u16, m: u8)
    requires
        !v.show_help,
        !v.git_input_active,
        !v.scan_input_active,
        !v.proc_filter_active,
    ensures
        5 <= v.tab <= 7 ==> mouse_step(v, MouseKind::ScrollDown, c, r) == key_step(
            v,
            Key { code: KeyCode::Down, modifiers: m },
        ).0,
        5 <= v.tab <= 7 ==> mouse_step(v, MouseKind::ScrollUp, c, r) == key_step(
            v,
            Key { code: KeyCode::Up, modifiers: m },
        ).0,
        v.tab == 6 ==> mouse_step(v, MouseKind::ScrollDown, c, r) == (UiView {
            scan_selected: if v.scan_selected + 1 < (if v.scan_show_closed { v.scan_done } else { v.scan_open }) {
                (v.scan_selected + 1) as usize
            } else {
                v.scan_selected
            },
            ..v
        }),
        v.tab == 6 ==> mouse_step(v, MouseKind::ScrollUp, c, r) == (UiView {
            scan_selected: if v.scan_selected > 0 { (v.scan_selected - 1) as usize } else { 0 },
            ..v
        }),
        v.tab < 5 ==> mouse_step(v, MouseKind::ScrollDown, c, r) == v && mouse_step(v, MouseKind::ScrollUp, c, r) == v,
{
}

/// The bell rings exactly when an alert comes on that was off, CPU or
/// memory alike; the alert tick then becomes the new tick.
pub proof fn law_bell_on_new_alert(v: UiView, n: usize, cpu_alert: bool, mem_alert: bool)
    requires
        v.tick < u64::MAX,
    ensures
        tick_step(v, n, cpu_alert, mem_alert).1 == ((cpu_alert && !v.alert_cpu) || (mem_alert && !v.alert_mem)),
        tick_step(v, n, cpu_alert, mem_alert).0.alert_tick == if (cpu_alert && !v.alert_cpu) || (mem_alert
            && !v.alert_mem) {
            v.tick + 1
        } else {
            v.alert_tick as int
        },
        tick_step(v, n, cpu_alert, mem_alert).0.tick == v.tick + 1,
        tick_step(v, n, cpu_alert, mem_alert).0.alert_cpu == cpu_alert,
        tick_step(v, n, cpu_alert, mem_alert).0.alert_mem == mem_alert,
{
}

/// In an input field, Backspace takes back the character just typed.
pub proof fn law_backspace_undoes_typing(v: UiView, c: char, m: u8, m2: u8)
    requires
        !v.show_help,
        v.git_input_active || v.scan_input_active || v.proc_filter_active,
    ensures
        key_step(key_step(v, Key { code: KeyCode::Char(c), modifiers: m }).0, Key {
            code: KeyCode::Backspace,
            modifiers: m2,
        }).0 == v,
{
    assert(v.git_path.push(c).drop_last() =~= v.git_path);
    assert(v.scan_host.push(c).drop_last() =~= v.scan_host);
    assert(v.scan_ports.push(c).drop_last() =~= v.scan_ports);
    assert(v.proc_filter.push(c).drop_last() =~= v.proc_filter);
}

/// Outside the input fields, `?` opens the help and the next key, whatever
/// it is, returns to the state before.
pub proof fn law_help_round_trip(v: UiView, m: u8, k: Key)
    requires
        !v.show_help,
        !v.git_input_active,
        !v.scan_input_active,
        !v.proc_filter_active,
    ensures
        key_step(key_step(v, Key { code: KeyCode::Char('?'), modifiers: m }).0, k) == (v, KeyAction::Nothing),
{
}

impl UiState {
    fn git_input_key(&mut self, k: Key) -> (act: KeyAction)
        requires
            !old(self).show_help,
            old(self).git_input_active,
        ensures
            (final(self)@, act) == git_input_step(old(self)@, k),
    {
        match k.code {
            KeyCode::Esc => {
                self.git_input_active = false;
                KeyAction::Nothing
            },
            KeyCode::Tab => KeyAction::CompleteGitPath,
            KeyCode::Enter => {
                self.git_input_active = false;
                KeyAction::StartGitAnalysis
            },
            KeyCode::Backspace => {
                let _ = string_pop(&mut self.git_path);
                KeyAction::Nothing
            },
            KeyCode::Char(c) => {
                string_push(&mut self.git_path, c);
                KeyAction::Nothing
            },
            _ => KeyAction::Nothing,
        }
    }

    fn scan_input_key(&mut self, k: Key) -> (act: KeyAction)
        requires
            old(self).scan_input_field <= 1,
        ensures
            (final(self)@, act) == scan_input_step(old(self)@, k),
    {
        match k.code {
            KeyCode::Esc => {
                self.scan_input_active = false;
                KeyAction::Nothing
            },
            KeyCode::Tab => {
                self.scan_input_field = 1 - self.scan_input_field;
                KeyAction::Nothing
            },
            KeyCode::Enter => {
                self.scan_input_active = false;
                KeyAction::StartScan
            },
            KeyCode::Backspace => {
                if self.scan_input_field == 0 {
                    let _ = string_pop(&mut self.scan_host);
                } else {
                    let _ = string_pop(&mut self.scan_ports);
                }
                KeyAction::Nothing
            },
            KeyCode::Char(c) => {
                if self.scan_input_field == 0 {
                    string_push(&mut self.scan_host, c);
                } else {
                    string_push(&mut self.scan_ports, c);
                }
                KeyAction::Nothing
            },
            _ => KeyAction::Nothing,
        }
    }

    fn filter_key(&mut self, k: Key) -> (act: KeyAction)
        ensures
            (final(self)@, act) == filter_step(old(self)@, k),
    {
        match k.code {
            KeyCode::Esc => {
                self.proc_filter = String::new();
                self.proc_filter_active = false;
                KeyAction::Nothing
            },
            KeyCode::Enter => {
                self.proc_filter_active = false;
                KeyAction::Nothing
            },
            KeyCode::Backspace => {
                let _ = string_pop(&mut self.proc_filter);
                KeyAction::Nothing
            },
            KeyCode::Char(c) => {
                string_push(&mut self.proc_filter, c);
                KeyAction::Nothing
            },
            _ => KeyAction::Nothing,
        }
    }

    fn go_to_tab(&mut self, t: usize)
        ensures
            final(self)@ == to_tab(old(self)@, t),
    {
        self.tab = t;
        if t == 7 {
            self.git_input_active = true;
        }
    }

    /// Whether the state keeps the bounds of `ui_wf`, which the handlers of
    /// keys, mouse events, scans and refreshes ask for.
    pub fn bounds_hold(&self) -> (ok: bool)
        ensures
            ok == ui_wf(self@),
    {
        self.tab < 8 && 200 <= self.tick_rate_ms && self.tick_rate_ms <= 5000 && self.scan_input_field <= 1
            && self.git_tab < 4 && self.scan_open <= self.scan_done && (self.proc_selected == 0
            || self.proc_selected < self.proc_count)
    }

    /// The number of rows of the repository view shown.
    pub fn git_row_count(&self) -> (n: usize)
        ensures
            n == git_rows(self@),
    {
        match &self.git_stats {
            Some(s) => {
                if self.git_tab == 1 {
                    s.authors.len()
                } else if self.git_tab == 2 {
                    s.hot_files.len()
                } else {
                    0
                }
            },
            None => 0,
        }
    }

    /// The number of scan results shown.
    pub fn visible_result_count(&self) -> (n: usize)
        ensures
            n == visible_results(self@),
    {
        if self.scan_show_closed {
            self.scan_done
        } else {
            self.scan_open
        }
    }

    fn move_up(&mut self)
        ensures
            final(self)@ == select_up(old(self)@),
    {
        if self.tab == 7 {
            if self.git_selected > 0 {
                self.git_selected = self.git_selected - 1;
            }
        } else if self.tab == 6 {
            if self.scan_selected > 0 {
                self.scan_selected = self.scan_selected - 1;
            }
        } else if self.proc_selected > 0 {
            self.proc_selected = self.proc_selected - 1;
        }
    }

    fn move_down(&mut self)
        ensures
            final(self)@ == select_down(old(self)@),
    {
        if self.tab == 7 {
            let max = self.git_row_count();
            if self.git_selected < max && self.git_selected + 1 < max {
                self.git_selected = self.git_selected + 1;
            }
        } else if self.tab == 6 {
            let max = self.visible_result_count();
            if self.scan_selected < max && self.scan_selected + 1 < max {
                self.scan_selected = self.scan_selected + 1;
            }
        } else if self.proc_selected < self.proc_count && self.proc_selected + 1 < self.proc_count {
            self.proc_selected = self.proc_selected + 1;
        }
    }

    fn list_char_key(&mut self, c: char, m: u8) -> (act: KeyAction)
        ensures
            (final(self)@, act) == list_char(old(self)@, c, m),
    {
        let t = self.tab;
        if c == 'k' {
            self.move_up();
            KeyAction::Nothing
        } else if c == 'j' {
            self.move_down();
            KeyAction::Nothing
        } else if c == 'g' {
            self.move_first();
            KeyAction::Nothing
        } else if c == 'G' {
            self.move_last();
            KeyAction::Nothing
        } else if t != 6 && c == 'c' {
            self.proc_sort = ProcSort::Cpu;
            KeyAction::Nothing
        } else if t != 6 && c == 'm' {
            self.proc_sort = ProcSort::Mem;
            KeyAction::Nothing
        } else if t != 6 && c == 'p' {
            self.proc_sort = ProcSort::Pid;
            KeyAction::Nothing
        } else if t != 6 && c == 'n' {
            self.proc_sort = ProcSort::Name;
            KeyAction::Nothing
        } else if t == 5 && c == 'K' {
            KeyAction::Kill { force: m == SHIFT }
        } else {
            KeyAction::Nothing
        }
    }

    fn tab_char_key(&mut self, c: char, m: u8) -> (act: KeyAction)
        ensures
            (final(self)@, act) == tab_char(old(self)@, c, m),
    {
        let t = self.tab;
        if t == 7 && c == 'i' {
            self.git_input_active = true;
            KeyAction::Nothing
        } else if t == 7 && c == 'a' {
            self.git_tab = 1;
            KeyAction::Nothing
        } else if t == 7 && c == 'f' {
            self.git_tab = 2;
            KeyAction::Nothing
        } else if t == 7 && c == 'h' {
            self.git_tab = 3;
            KeyAction::Nothing
        } else if t == 7 && c == 'o' {
            self.git_tab = 0;
            KeyAction::Nothing
        } else if t == 6 && c == 'i' {
            self.scan_input_active = true;
            self.scan_input_field = 0;
            KeyAction::Nothing
        } else if t == 6 && (c == 'h' || c == 'H') {
            self.scan_show_closed = !self.scan_show_closed;
            KeyAction::Nothing
        } else {
            self.list_char_key(c, m)
        }
    }

    fn global_char_key(&mut self, c: char, m: u8) -> (act: KeyAction)
        requires
            old(self).tick_rate_ms <= 5000,
        ensures
            (final(self)@, act) == global_char(old(self)@, c, m),
    {
        if c == 'q' || (c == 'c' && m == CONTROL) {
            KeyAction::Quit
        } else if c == '?' {
            self.show_help = !self.show_help;
            KeyAction::Nothing
        } else if '1' <= c && c <= '8' {
            let n = (c as u32 - '1' as u32) as usize;
            self.go_to_tab(n);
            KeyAction::Nothing
        } else if c == '+' || c == '=' {
            self.tick_rate_ms = if self.tick_rate_ms >= 400 { self.tick_rate_ms - 200 } else { 200 };
            KeyAction::Nothing
        } else if c == '-' {
            self.tick_rate_ms = if self.tick_rate_ms + 500 <= 5000 { self.tick_rate_ms + 500 } else { 5000 };
            KeyAction::Nothing
        } else if c == '/' {
            self.tab = 5;
            self.proc_filter_active = true;
            KeyAction::Nothing
        } else {
            self.tab_char_key(c, m)
        }
    }

    fn move_first(&mut self)
        ensures
            final(self)@ == select_first(old(self)@),
    {
        if self.tab == 6 {
            self.scan_selected = 0;
        } else {
            self.proc_selected = 0;
        }
    }

    fn move_last(&mut self)
        ensures
            final(self)@ == select_last(old(self)@),
    {
        if self.tab == 6 {
            let max = self.visible_result_count();
            self.scan_selected = if max > 0 { max - 1 } else { 0 };
        } else {
            self.proc_selected = if self.proc_count > 0 { self.proc_count - 1 } else { 0 };
        }
    }

    fn enter_key(&mut self)
        ensures
            final(self)@ == enter_command(old(self)@),
    {
        if self.tab == 7 {
            if self.git_running {
                self.git_running = false;
                self.git_status = String::from_str("已取消");
            } else {
                self.git_input_active = true;
            }
        } else if self.tab == 6 {
            if self.scan_running {
                self.scan_running = false;
                self.scan_status = String::from_str("已取消");
            } else {
                self.scan_input_active = true;
                self.scan_input_field = 0;
            }
        }
    }

    fn function_key(&mut self, n: u8)
        ensures
            final(self)@ == preset_key(old(self)@, n),
    {
        if self.tab == 6 && n == 1 {
            self.scan_ports = String::from_str(preset_ports("常用"));
        } else if self.tab == 6 && n == 2 {
            self.scan_ports = String::from_str(preset_ports("Web"));
        } else if self.tab == 6 && n == 3 {
            self.scan_ports = String::from_str(preset_ports("数据库"));
        } else if self.tab == 6 && n == 4 {
            self.scan_ports = String::from_str(preset_ports("远程"));
        }
    }

    fn escape_key(&mut self)
        ensures
            final(self)@ == escape(old(self)@),
    {
        self.proc_filter = String::new();
        self.proc_filter_active = false;
        if self.scan_running {
            self.scan_running = false;
            self.scan_status = String::from_str("已取消");
        }
        if self.tab == 7 && self.git_running {
            self.git_running = false;
            self.git_status = String::from_str("已取消");
        }
    }

    fn command_key(&mut self, k: Key) -> (act: KeyAction)
        requires
            ui_wf(old(self)@),
        ensures
            (final(self)@, act) == command_step(old(self)@, k),
    {
        match k.code {
            KeyCode::Char(c) => self.global_char_key(c, k.modifiers),
            KeyCode::Tab => {
                self.go_to_tab((self.tab + 1) % 8);
                KeyAction::Nothing
            },
            KeyCode::BackTab => {
                self.go_to_tab((self.tab + 7) % 8);
                KeyAction::Nothing
            },
            KeyCode::Esc => {
                self.escape_key();
                KeyAction::Nothing
            },
            KeyCode::Enter => {
                self.enter_key();
                KeyAction::Nothing
            },
            KeyCode::F(n) => {
                self.function_key(n);
                KeyAction::Nothing
            },
            KeyCode::Up => {
                self.move_up();
                KeyAction::Nothing
            },
            KeyCode::Down => {
                self.move_down();
                KeyAction::Nothing
            },
            KeyCode::Home => {
                self.move_first();
                KeyAction::Nothing
            },
            KeyCode::End => {
                self.move_last();
                KeyAction::Nothing
            },
            _ => KeyAction::Nothing,
        }
    }

    /// Handles a key press; see `key_step`.
    pub fn on_key(&mut self, k: Key) -> (act: KeyAction)
        requires
            ui_wf(old(self)@),
        ensures
            (final(self)@, act) == key_step(old(self)@, k),
            ui_wf(final(self)@),
    {
        proof {
            law_keys_keep_bounds(self@, k);
        }
        if self.show_help {
            self.show_help = false;
            KeyAction::Nothing
        } else if self.git_input_active {
            self.git_input_key(k)
        } else if self.scan_input_active {
            self.scan_input_key(k)
        } else if self.proc_filter_active {
            self.filter_key(k)
        } else {
            self.command_key(k)
        }
    }

    /// The controls when the monitor starts.
    pub fn new() -> (s: UiState)
        ensures
            s@ == initial_view(),
            ui_wf(s@),
    {
        UiState {
            tab: 0,
            tick: 0,
            tick_rate_ms: 1000,
            show_help: false,
            alert_cpu: false,
            alert_mem: false,
            alert_tick: 0,
            proc_sort: ProcSort::Cpu,
            proc_selected: 0,
            proc_filter: String::new(),
            proc_filter_active: false,
            proc_count: 0,
            scan_host: String::from_str("192.168.1.1"),
            scan_ports: String::from_str("21,22,80,443,3306,3389,8080"),
            scan_timeout_ms: 500,
            scan_concurrency: 100,
            scan_running: false,
            scan_status: String::from_str("输入目标地址和端口，按 Enter 开始扫描"),
            scan_selected: 0,
            scan_show_closed: false,
            scan_input_field: 0,
            scan_input_active: false,
            scan_total: 0,
            scan_done: 0,
            scan_open: 0,
            git_path: String::new(),
            git_input_active: false,
            git_stats: None,
            git_running: false,
            git_status: String::from_str("输入 Git 仓库路径，按 Enter 开始分析"),
            git_progress: (0, 0),
            git_tab: 0,
            git_selected: 0,
        }
    }

    /// Handles a mouse event; see `mouse_step`.
    pub fn on_mouse(&mut self, kind: MouseKind, column: u16, row: u16)
        requires
            ui_wf(old(self)@),
        ensures
            final(self)@ == mouse_step(old(self)@, kind, column, row),
            ui_wf(final(self)@),
    {
        proof {
            law_mouse_keeps_bounds(self@, kind, column, row);
        }
        match kind {
            MouseKind::LeftDown => {
                let col = column as usize;
                let idx = (if col > 0 { col - 1 } else { 0 }) / 10;
                if row <= 2 && idx < 8 {
                    self.tab = idx;
                }
            },
            MouseKind::ScrollUp => {
                if self.tab == 5 && self.proc_selected > 0 {
                    self.proc_selected = self.proc_selected - 1;
                } else if self.tab == 6 && self.scan_selected > 0 {
                    self.scan_selected = self.scan_selected - 1;
                } else if self.tab == 7 && self.git_selected > 0 {
                    self.git_selected = self.git_selected - 1;
                }
            },
            MouseKind::ScrollDown => {
                let shown = self.visible_result_count();
                let rows = self.git_row_count();
                if self.tab == 5 && self.proc_selected < self.proc_count && self.proc_selected + 1 < self.proc_count {
                    self.proc_selected = self.proc_selected + 1;
                } else if self.tab == 6 && self.scan_selected < shown && self.scan_selected + 1 < shown {
                    self.scan_selected = self.scan_selected + 1;
                } else if self.tab == 7 && self.git_selected < rows && self.git_selected + 1 < rows {
                    self.git_selected = self.git_selected + 1;
                }
            },
            MouseKind::Other => {},
        }
    }

    /// Starts a port scan of the target and ports typed in: unless a scan is
    /// running, the hosts and ports are read; where either list is empty the
    /// status reports the error, else the counters restart and the hosts and
    /// ports to probe are returned.
    pub fn begin_scan(&mut self) -> (job: Option<(Vec<String>, Vec<u16>)>)
        requires
            ui_wf(old(self)@),
        ensures
            ui_wf(final(self)@),
            scan_begun(old(self)@, final(self)@, job),
    {
        if self.scan_running {
            return None;
        }
        let hosts = parse_hosts(self.scan_host.as_str());
        let ports = parse_ports(self.scan_ports.as_str());
        proof {
            if ports@.len() > 0 {
                assert(ports@.contains(ports@[0]));
            }
            if any_port_listed(self.scan_ports@) {
                let p = choose|p: u16| port_listed(self.scan_ports@, p as int);
                assert(ports@.contains(p));
            }
        }
        if hosts.len() == 0 || ports.len() == 0 {
            self.scan_status = String::from_str("地址或端口格式错误");
            return None;
        }
        let h = hosts.len();
        let p = ports.len();
        assert(h * p <= 256 * 0x10000) by (nonlinear_arith)
            requires
                h <= 256,
                p <= 0x10000,
        ;
        let total = h * p;
        self.scan_selected = 0;
        self.scan_total = total;
        self.scan_done = 0;
        self.scan_open = 0;
        self.scan_running = true;
        let mut status = String::from_str("扫描中… ");
        append_decimal(&mut status, h as u64);
        status.append(" 个主机 × ");
        append_decimal(&mut status, p as u64);
        status.append(" 个端口 = ");
        append_decimal(&mut status, total as u64);
        status.append(" 个任务");
        self.scan_status = status;
        Some((hosts, ports))
    }

    /// Counts one probed port; `open` where it accepted the connection.
    pub fn record_scan_result(&mut self, open: bool)
        requires
            ui_wf(old(self)@),
            old(self).scan_done < usize::MAX,
        ensures
            ui_wf(final(self)@),
            final(self)@ == result_recorded(old(self)@, open),
    {
        self.scan_done = self.scan_done + 1;
        if open {
            self.scan_open = self.scan_open + 1;
        }
    }

    /// Ends the scan: `total` ports probed, `open` of them open, in
    /// `seconds` (the elapsed time as the status shows it).
    pub fn finish_scan(&mut self, total: usize, open: usize, seconds: &str)
        ensures
            final(self)@ == scan_finished(old(self)@, total as nat, open as nat, seconds@),
    {
        let mut status = String::from_str("扫描完成  共 ");
        append_decimal(&mut status, total as u64);
        status.append(" 个端口  开放 ");
        append_decimal(&mut status, open as u64);
        status.append("  耗时 ");
        status.append(seconds);
        status.append("s");
        self.scan_running = false;
        self.scan_status = status;
    }

    /// Starts the analysis of the repository path typed in, unless one runs
    /// or the path is empty; returns whether it started.
    pub fn begin_git_analysis(&mut self) -> (started: bool)
        ensures
            started == (!old(self).git_running && old(self).git_path@.len() > 0),
            !started ==> final(self)@ == old(self)@,
            started ==> final(self)@ == git_started(old(self)@),
    {
        if self.git_running || self.git_path.as_str().is_empty() {
            return false;
        }
        self.git_stats = None;
        self.git_selected = 0;
        self.git_progress = (0, 0);
        self.git_running = true;
        let mut status = String::from_str("正在打开仓库: ");
        status.append(self.git_path.as_str());
        self.git_status = status;
        true
    }

    /// Takes in a message of the repository analysis; returns whether the
    /// analysis has ended (no more messages follow).
    pub fn on_git_msg(&mut self, msg: GitMsg) -> (ended: bool)
        ensures
            (final(self)@, ended) == git_msg_step(old(self)@, msg),
    {
        match msg {
            GitMsg::Progress { done, total } => {
                let mut status = String::from_str("分析中… ");
                append_decimal(&mut status, done as u64);
                status.append("/");
                append_decimal(&mut status, total as u64);
                status.append(" commits");
                self.git_progress = (done, total);
                self.git_status = status;
                false
            },
            GitMsg::Done(stats) => {
                let mut status = String::from_str("分析完成  ");
                append_decimal(&mut status, stats.total_commits as u64);
                status.append(" commits  ");
                append_decimal(&mut status, stats.total_authors as u64);
                status.append(" 作者  ");
                append_decimal(&mut status, stats.total_files as u64);
                status.append(" 文件");
                self.git_status = status;
                self.git_stats = Some(stats);
                self.git_running = false;
                true
            },
            GitMsg::Error(e) => {
                let mut status = String::from_str("错误: ");
                status.append(e.as_str());
                self.git_status = status;
                self.git_running = false;
                true
            },
        }
    }

    /// One refresh: the tick counts on, the process selection stays within
    /// the `proc_count` processes now listed, and the alerts take the new
    /// readings (`cpu_alert`, `mem_alert`: above the threshold).
    /// Returns whether to ring the bell: an alert came on that was off.
    #[verifier::rlimit(30)]
    pub fn on_tick(&mut self, proc_count: usize, cpu_alert: bool, mem_alert: bool) -> (bell: bool)
        requires
            ui_wf(old(self)@),
            old(self).tick < u64::MAX,
        ensures
            ui_wf(final(self)@),
            (final(self)@, bell) == tick_step(old(self)@, proc_count, cpu_alert, mem_alert),
            bell == ((cpu_alert && !old(self).alert_cpu) || (mem_alert && !old(self).alert_mem)),
            final(self).alert_tick == if bell { old(self).tick + 1 } else { old(self).alert_tick as int },
    {
        self.tick = self.tick + 1;
        self.proc_count = proc_count;
        let last = if proc_count > 0 { proc_count - 1 } else { 0 };
        if self.proc_selected > last {
            self.proc_selected = last;
        }
        let was_cpu = self.alert_cpu;
        let was_mem = self.alert_mem;
        self.alert_cpu = cpu_alert;
        self.alert_mem = mem_alert;
        let bell = (cpu_alert && !was_cpu) || (mem_alert && !was_mem);
        if bell {
            self.alert_tick = self.tick;
        }
        bell
    }

    /// Reports that signalling the selected process failed with `err`.
    pub fn kill_failed(&mut self, force: bool, err: &str)
        ensures
            final(self)@ == kill_reported(old(self)@, force, err@),
    {
        let mut status = if force {
            String::from_str("SIGKILL 失败: ")
        } else {
            String::from_str("Kill 失败: ")
        };
        status.append(err);
        self.scan_status = status;
    }

    /// Completes the repository path; see `path_completed`.
    pub fn complete_git_path(&mut self, names: &Vec<String>, prefix: &str, base: &str, sep: char)
        ensures
            path_completed(old(self)@, final(self)@, names@, prefix@, base@, sep),
    {
        match complete_path(names, prefix, base, sep) {
            Some(s) => {
                self.git_path = s;
            },
            None => {},
        }
    }
}

/// What a refresh on tab `tab` reads besides CPU and memory: the network
/// and disk counters (overview, network and disk tabs) and the processes
/// (overview and process tabs).
pub fn refresh_needs(tab: usize) -> (needs: (bool, bool))
    ensures
        needs == (tab == 0 || tab == 3 || tab == 4, tab == 0 || tab == 5),
{
    (tab == 0 || tab == 3 || tab == 4, tab == 0 || tab == 5)
}

} // verus!
