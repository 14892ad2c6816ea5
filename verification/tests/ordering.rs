use sysmon::controls::ProcSort;
use sysmon::procs::{contains_text, order_processes, select_processes, ProcEntry};
use sysmon::ranking::{compare_text, rank_order, Rank, RankKey};
use sysmon::scanner::{order_results, ScanEntry};

fn chars(s: &str) -> Vec<char> {
    s.chars().collect()
}

#[test]
fn texts_in_dictionary_order() {
    assert!(compare_text(&chars("abc"), &chars("abd")) == Rank::Before);
    assert!(compare_text(&chars("abc"), &chars("ab")) == Rank::After);
    assert!(compare_text(&chars("ab"), &chars("abc")) == Rank::Before);
    assert!(compare_text(&chars("ab"), &chars("ab")) == Rank::Same);
    assert!(compare_text(&chars(""), &chars("a")) == Rank::Before);
    // upper case before lower case, as `str` orders them
    assert!(compare_text(&chars("Zed"), &chars("apple")) == Rank::Before);
    assert!(compare_text(&chars("é"), &chars("z")) == Rank::After);
}

fn key(first: u64, text: &str, last: u64) -> RankKey {
    RankKey { first, text: chars(text), last }
}

#[test]
fn rank_order_is_a_stable_sort() {
    let keys = vec![key(2, "b", 0), key(1, "z", 9), key(2, "a", 5), key(2, "b", 0), key(0, "", 0), key(2, "a", 1)];
    assert_eq!(rank_order(&keys), vec![4, 1, 5, 2, 0, 3]);
    assert_eq!(rank_order(&Vec::new()), Vec::<usize>::new());
}

#[test]
fn rank_order_of_many_keys() {
    let keys: Vec<RankKey> = (0..1000u64).map(|i| key((i * 7919) % 100, "", i % 3)).collect();
    let perm = rank_order(&keys);
    let mut expected: Vec<usize> = (0..1000).collect();
    expected.sort_by_key(|&i| ((i as u64 * 7919) % 100, i as u64 % 3));
    assert_eq!(perm, expected);
}

fn entry(host: &str, port: u16, open: bool) -> ScanEntry {
    ScanEntry { host: host.to_string(), port, open }
}

#[test]
fn scan_results_open_first_then_host_then_port() {
    let entries = vec![
        entry("10.0.0.2", 80, false),
        entry("10.0.0.10", 22, true),
        entry("10.0.0.1", 443, true),
        entry("10.0.0.1", 21, false),
        entry("10.0.0.1", 22, true),
    ];
    assert_eq!(order_results(&entries), vec![4, 2, 1, 3, 0]);
}

fn proc_entry(pid: u32, name: &str, cpu: u64, mem: u64) -> ProcEntry {
    ProcEntry { pid, name: name.to_string(), cpu_rank: cpu, mem_rank: mem }
}

#[test]
fn processes_in_each_order() {
    let procs = vec![
        proc_entry(300, "bash", 5, 10),
        proc_entry(12, "Xorg", 50, 10),
        proc_entry(7, "apache", 5, 99),
    ];
    assert_eq!(order_processes(ProcSort::Cpu, &procs), vec![1, 0, 2]);
    assert_eq!(order_processes(ProcSort::Mem, &procs), vec![2, 0, 1]);
    assert_eq!(order_processes(ProcSort::Pid, &procs), vec![2, 1, 0]);
    assert_eq!(order_processes(ProcSort::Name, &procs), vec![1, 2, 0]);
}

#[test]
fn substring_search() {
    assert!(contains_text(&chars("firefox-bin"), &chars("fox")));
    assert!(contains_text(&chars("abc"), &chars("")));
    assert!(contains_text(&chars("abc"), &chars("abc")));
    assert!(!contains_text(&chars("abc"), &chars("abcd")));
    assert!(!contains_text(&chars("aab"), &chars("abb")));
}

#[test]
fn filter_by_name_ignores_case() {
    let names: Vec<String> = ["Firefox", "bash", "firefox-bin", "FIRE"].iter().map(|n| n.to_string()).collect();
    assert_eq!(select_processes(&names, "FiRe"), vec![0, 2, 3]);
    assert_eq!(select_processes(&names, ""), vec![0, 1, 2, 3]);
    assert_eq!(select_processes(&names, "zsh"), Vec::<usize>::new());
    assert_eq!(select_processes(&names, "SH"), vec![1]);
}
