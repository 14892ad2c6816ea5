use sysmon::controls::{
    refresh_needs, Key, KeyAction, KeyCode, MouseKind, ProcSort, UiState, CONTROL, SHIFT,
};
use sysmon::gitanalyzer::{GitMsg, GitStats};

fn press(s: &mut UiState, code: KeyCode) -> KeyAction {
    s.on_key(Key { code, modifiers: 0 })
}

fn typed(s: &mut UiState, text: &str) {
    for c in text.chars() {
        press(s, KeyCode::Char(c));
    }
}

#[test]
fn starts_on_the_overview() {
    let s = UiState::new();
    assert_eq!(s.tab, 0);
    assert_eq!(s.tick_rate_ms, 1000);
    assert_eq!(s.scan_host, "192.168.1.1");
    assert_eq!(s.scan_ports, "21,22,80,443,3306,3389,8080");
    assert_eq!(s.scan_timeout_ms, 500);
    assert_eq!(s.scan_concurrency, 100);
    assert_eq!(s.scan_status, "输入目标地址和端口，按 Enter 开始扫描");
    assert_eq!(s.git_status, "输入 Git 仓库路径，按 Enter 开始分析");
    assert!(s.proc_sort == ProcSort::Cpu);
    assert!(!s.show_help);
}

#[test]
fn quit_keys() {
    let mut s = UiState::new();
    assert!(press(&mut s, KeyCode::Char('q')) == KeyAction::Quit);
    assert!(s.on_key(Key { code: KeyCode::Char('c'), modifiers: CONTROL }) == KeyAction::Quit);
    // a plain `c` orders the processes by CPU instead
    s.proc_sort = ProcSort::Name;
    assert!(press(&mut s, KeyCode::Char('c')) == KeyAction::Nothing);
    assert!(s.proc_sort == ProcSort::Cpu);
}

#[test]
fn number_keys_and_tab_switch_tabs() {
    let mut s = UiState::new();
    press(&mut s, KeyCode::Char('3'));
    assert_eq!(s.tab, 2);
    press(&mut s, KeyCode::Tab);
    assert_eq!(s.tab, 3);
    press(&mut s, KeyCode::BackTab);
    press(&mut s, KeyCode::BackTab);
    press(&mut s, KeyCode::BackTab);
    assert_eq!(s.tab, 0);
    press(&mut s, KeyCode::BackTab);
    assert_eq!(s.tab, 7);
    // the repository tab opens the path input
    assert!(s.git_input_active);
}

#[test]
fn help_closes_on_any_key() {
    let mut s = UiState::new();
    press(&mut s, KeyCode::Char('?'));
    assert!(s.show_help);
    // even `q` only closes the overlay
    assert!(press(&mut s, KeyCode::Char('q')) == KeyAction::Nothing);
    assert!(!s.show_help);
    assert_eq!(s.tab, 0);
}

#[test]
fn refresh_rate_stays_between_200_and_5000() {
    let mut s = UiState::new();
    press(&mut s, KeyCode::Char('+'));
    assert_eq!(s.tick_rate_ms, 800);
    for _ in 0..10 {
        press(&mut s, KeyCode::Char('='));
    }
    assert_eq!(s.tick_rate_ms, 200);
    press(&mut s, KeyCode::Char('-'));
    assert_eq!(s.tick_rate_ms, 700);
    for _ in 0..20 {
        press(&mut s, KeyCode::Char('-'));
    }
    assert_eq!(s.tick_rate_ms, 5000);
}

#[test]
fn process_filter_input() {
    let mut s = UiState::new();
    press(&mut s, KeyCode::Char('/'));
    assert_eq!(s.tab, 5);
    assert!(s.proc_filter_active);
    typed(&mut s, "fir8");
    press(&mut s, KeyCode::Backspace);
    assert_eq!(s.proc_filter, "fir");
    // the digit went into the filter, not to a tab
    assert_eq!(s.tab, 5);
    press(&mut s, KeyCode::Enter);
    assert!(!s.proc_filter_active);
    assert_eq!(s.proc_filter, "fir");
    press(&mut s, KeyCode::Esc);
    assert_eq!(s.proc_filter, "");
}

#[test]
fn kill_keys_on_the_process_tab() {
    let mut s = UiState::new();
    press(&mut s, KeyCode::Char('6'));
    assert!(press(&mut s, KeyCode::Char('K')) == KeyAction::Kill { force: false });
    assert!(s.on_key(Key { code: KeyCode::Char('K'), modifiers: SHIFT }) == KeyAction::Kill { force: true });
    s.kill_failed(true, "no such process");
    assert_eq!(s.scan_status, "SIGKILL 失败: no such process");
    s.kill_failed(false, "denied");
    assert_eq!(s.scan_status, "Kill 失败: denied");
    // elsewhere `K` does nothing
    press(&mut s, KeyCode::Char('1'));
    assert!(press(&mut s, KeyCode::Char('K')) == KeyAction::Nothing);
}

#[test]
fn process_sort_keys() {
    let mut s = UiState::new();
    press(&mut s, KeyCode::Char('m'));
    assert!(s.proc_sort == ProcSort::Mem);
    press(&mut s, KeyCode::Char('p'));
    assert!(s.proc_sort == ProcSort::Pid);
    press(&mut s, KeyCode::Char('n'));
    assert!(s.proc_sort == ProcSort::Name);
}

#[test]
fn list_navigation() {
    let mut s = UiState::new();
    press(&mut s, KeyCode::Char('6'));
    s.on_tick(5, false, false);
    press(&mut s, KeyCode::Down);
    press(&mut s, KeyCode::Char('j'));
    assert_eq!(s.proc_selected, 2);
    press(&mut s, KeyCode::Char('G'));
    assert_eq!(s.proc_selected, 4);
    press(&mut s, KeyCode::Down);
    assert_eq!(s.proc_selected, 4);
    press(&mut s, KeyCode::Up);
    assert_eq!(s.proc_selected, 3);
    press(&mut s, KeyCode::Home);
    assert_eq!(s.proc_selected, 0);
    press(&mut s, KeyCode::Char('k'));
    assert_eq!(s.proc_selected, 0);
    // fewer processes on the next refresh: the selection follows
    press(&mut s, KeyCode::End);
    s.on_tick(2, false, false);
    assert_eq!(s.proc_selected, 1);
}

#[test]
fn scan_input_and_start() {
    let mut s = UiState::new();
    press(&mut s, KeyCode::Char('7'));
    assert_eq!(s.tab, 6);
    press(&mut s, KeyCode::Enter);
    assert!(s.scan_input_active);
    assert_eq!(s.scan_input_field, 0);
    typed(&mut s, "0-2");
    assert_eq!(s.scan_host, "192.168.1.10-2");
    press(&mut s, KeyCode::Tab);
    assert_eq!(s.scan_input_field, 1);
    for _ in 0..27 {
        press(&mut s, KeyCode::Backspace);
    }
    typed(&mut s, "22,80");
    assert_eq!(s.scan_ports, "22,80");
    assert!(press(&mut s, KeyCode::Enter) == KeyAction::StartScan);
    assert!(!s.scan_input_active);
    // 10 > 2: the range names no host
    assert!(s.begin_scan().is_none());
    assert_eq!(s.scan_status, "地址或端口格式错误");
    assert!(!s.scan_running);

    s.scan_host = "10.0.0.1-3".to_string();
    let (hosts, ports) = s.begin_scan().unwrap();
    assert_eq!(hosts, vec!["10.0.0.1", "10.0.0.2", "10.0.0.3"]);
    assert_eq!(ports, vec![22, 80]);
    assert!(s.scan_running);
    assert_eq!(s.scan_total, 6);
    assert_eq!(s.scan_status, "扫描中… 3 个主机 × 2 个端口 = 6 个任务");
    // while it runs, a second start does nothing
    assert!(s.begin_scan().is_none());
    assert_eq!(s.scan_total, 6);

    s.record_scan_result(true);
    s.record_scan_result(false);
    s.record_scan_result(false);
    assert_eq!(s.scan_done, 3);
    assert_eq!(s.scan_open, 1);
    assert_eq!(s.visible_result_count(), 1);
    press(&mut s, KeyCode::Char('H'));
    assert_eq!(s.visible_result_count(), 3);
    s.finish_scan(6, 1, "0.5");
    assert!(!s.scan_running);
    assert_eq!(s.scan_status, "扫描完成  共 6 个端口  开放 1  耗时 0.5s");
}

#[test]
fn escape_and_enter_cancel_a_scan() {
    let mut s = UiState::new();
    press(&mut s, KeyCode::Char('7'));
    s.begin_scan().unwrap();
    press(&mut s, KeyCode::Esc);
    assert!(!s.scan_running);
    assert_eq!(s.scan_status, "已取消");
    s.begin_scan().unwrap();
    press(&mut s, KeyCode::Enter);
    assert!(!s.scan_running);
    assert_eq!(s.scan_status, "已取消");
    assert!(!s.scan_input_active);
}

#[test]
fn port_presets_on_the_scanner_tab() {
    let mut s = UiState::new();
    press(&mut s, KeyCode::F(2));
    assert_eq!(s.scan_ports, "21,22,80,443,3306,3389,8080");
    press(&mut s, KeyCode::Char('7'));
    press(&mut s, KeyCode::F(2));
    assert_eq!(s.scan_ports, "80,443,8080,8443,8888,9090,9443");
    press(&mut s, KeyCode::F(4));
    assert_eq!(s.scan_ports, "22,23,3389,5900,5901");
}

fn stats(commits: usize, authors: usize, files: usize) -> GitStats {
    GitStats {
        repo_path: "/r".to_string(),
        total_commits: commits,
        total_authors: authors,
        total_files: files,
        first_commit: String::new(),
        last_commit: String::new(),
        authors: Vec::new(),
        hot_files: Vec::new(),
        heatmap: [[0; 24]; 7],
        activity: vec![0; 364],
    }
}

#[test]
fn repository_analysis_messages() {
    let mut s = UiState::new();
    press(&mut s, KeyCode::Char('8'));
    assert!(s.git_input_active);
    assert!(press(&mut s, KeyCode::Enter) == KeyAction::StartGitAnalysis);
    // an empty path starts nothing
    assert!(!s.begin_git_analysis());
    assert!(!s.git_running);

    press(&mut s, KeyCode::Char('i'));
    typed(&mut s, "/src/x");
    assert!(press(&mut s, KeyCode::Tab) == KeyAction::CompleteGitPath);
    press(&mut s, KeyCode::Enter);
    assert!(s.begin_git_analysis());
    assert!(s.git_running);
    assert_eq!(s.git_status, "正在打开仓库: /src/x");
    assert!(!s.begin_git_analysis());

    assert!(!s.on_git_msg(GitMsg::Progress { done: 200, total: 1000 }));
    assert_eq!(s.git_progress, (200, 1000));
    assert_eq!(s.git_status, "分析中… 200/1000 commits");
    assert!(s.on_git_msg(GitMsg::Done(Box::new(stats(3, 2, 5)))));
    assert!(!s.git_running);
    assert_eq!(s.git_status, "分析完成  3 commits  2 作者  5 文件");
    assert_eq!(s.git_stats.as_ref().unwrap().total_files, 5);

    assert!(s.begin_git_analysis());
    assert!(s.git_stats.is_none());
    assert!(s.on_git_msg(GitMsg::Error("not a repository".to_string())));
    assert_eq!(s.git_status, "错误: not a repository");
    assert!(!s.git_running);
}

#[test]
fn repository_sub_views() {
    let mut s = UiState::new();
    press(&mut s, KeyCode::Char('8'));
    press(&mut s, KeyCode::Esc);
    assert!(!s.git_input_active);
    press(&mut s, KeyCode::Char('a'));
    assert_eq!(s.git_tab, 1);
    press(&mut s, KeyCode::Char('f'));
    assert_eq!(s.git_tab, 2);
    press(&mut s, KeyCode::Char('h'));
    assert_eq!(s.git_tab, 3);
    press(&mut s, KeyCode::Char('o'));
    assert_eq!(s.git_tab, 0);
    // Enter while an analysis runs cancels it
    s.git_running = true;
    press(&mut s, KeyCode::Enter);
    assert!(!s.git_running);
    assert_eq!(s.git_status, "已取消");
}

#[test]
fn mouse_clicks_and_wheel() {
    let mut s = UiState::new();
    s.on_mouse(MouseKind::LeftDown, 25, 1);
    assert_eq!(s.tab, 2);
    s.on_mouse(MouseKind::LeftDown, 0, 0);
    assert_eq!(s.tab, 0);
    s.on_mouse(MouseKind::LeftDown, 75, 2);
    assert_eq!(s.tab, 7);
    // below the tab bar, or right of the last tab: nothing
    s.on_mouse(MouseKind::LeftDown, 5, 3);
    assert_eq!(s.tab, 7);
    s.on_mouse(MouseKind::LeftDown, 90, 1);
    assert_eq!(s.tab, 7);
    // a click does not open the path input
    assert!(!s.git_input_active);

    s.on_mouse(MouseKind::LeftDown, 55, 1);
    assert_eq!(s.tab, 5);
    s.on_tick(3, false, false);
    s.on_mouse(MouseKind::ScrollDown, 0, 10);
    s.on_mouse(MouseKind::ScrollDown, 0, 10);
    s.on_mouse(MouseKind::ScrollDown, 0, 10);
    assert_eq!(s.proc_selected, 2);
    s.on_mouse(MouseKind::ScrollUp, 0, 10);
    assert_eq!(s.proc_selected, 1);
}

#[test]
fn bell_rings_when_an_alert_comes_on() {
    let mut s = UiState::new();
    assert!(!s.on_tick(0, false, false));
    assert!(s.on_tick(0, true, false));
    assert_eq!(s.alert_tick, 2);
    assert!(s.alert_cpu);
    // still on: no second bell
    assert!(!s.on_tick(0, true, false));
    assert!(s.on_tick(0, true, true));
    assert_eq!(s.alert_tick, 4);
    assert!(!s.on_tick(0, false, false));
    assert_eq!(s.tick, 5);
    assert_eq!(s.alert_tick, 4);
}

#[test]
fn path_completion_picks_the_first_directory() {
    let names: Vec<String> = ["src", "Scripts", "target", "docs"].iter().map(|n| n.to_string()).collect();
    let mut s = UiState::new();
    s.complete_git_path(&names, "s", ".", '/');
    assert_eq!(s.git_path, "Scripts/");
    s.complete_git_path(&names, "SR", "/home/u", '/');
    assert_eq!(s.git_path, "/home/u/src/");
    s.complete_git_path(&names, "x", "/home/u", '/');
    assert_eq!(s.git_path, "/home/u/src/");
    s.complete_git_path(&names, "", "/home/u", '/');
    assert_eq!(s.git_path, "/home/u/Scripts/");
}

#[test]
fn refresh_reads_only_what_the_tab_shows() {
    assert_eq!(refresh_needs(0), (true, true));
    assert_eq!(refresh_needs(2), (false, false));
    assert_eq!(refresh_needs(3), (true, false));
    assert_eq!(refresh_needs(4), (true, false));
    assert_eq!(refresh_needs(5), (false, true));
    assert_eq!(refresh_needs(7), (false, false));
}

#[test]
fn backspace_takes_back_a_typed_character() {
    let mut s = UiState::new();
    press(&mut s, KeyCode::Char('7'));
    press(&mut s, KeyCode::Char('i'));
    press(&mut s, KeyCode::Char('x'));
    assert_eq!(s.scan_host, "192.168.1.1x");
    press(&mut s, KeyCode::Backspace);
    assert_eq!(s.scan_host, "192.168.1.1");
    press(&mut s, KeyCode::Tab);
    press(&mut s, KeyCode::Char(','));
    press(&mut s, KeyCode::Backspace);
    assert_eq!(s.scan_ports, "21,22,80,443,3306,3389,8080");
    // on an empty field Backspace does nothing
    press(&mut s, KeyCode::Esc);
    press(&mut s, KeyCode::Char('8'));
    press(&mut s, KeyCode::Backspace);
    assert_eq!(s.git_path, "");
}

#[test]
fn help_opens_and_closes_without_other_effect() {
    let mut s = UiState::new();
    press(&mut s, KeyCode::Char('4'));
    press(&mut s, KeyCode::Char('?'));
    assert!(s.show_help);
    assert!(press(&mut s, KeyCode::Char('1')) == KeyAction::Nothing);
    assert!(!s.show_help);
    assert_eq!(s.tab, 3);
    press(&mut s, KeyCode::Char('?'));
    assert!(press(&mut s, KeyCode::Esc) == KeyAction::Nothing);
    assert!(!s.show_help);
    assert_eq!(s.tab, 3);
}

#[test]
fn escape_cancels_a_repository_analysis() {
    let mut s = UiState::new();
    press(&mut s, KeyCode::Char('8'));
    typed(&mut s, "/r");
    press(&mut s, KeyCode::Enter);
    assert!(s.begin_git_analysis());
    assert!(s.git_running);
    press(&mut s, KeyCode::Esc);
    assert!(!s.git_running);
    assert_eq!(s.git_status, "已取消");
    // on another tab Esc leaves a running analysis alone
    assert!(s.begin_git_analysis());
    press(&mut s, KeyCode::Char('1'));
    press(&mut s, KeyCode::Esc);
    assert!(s.git_running);
}
