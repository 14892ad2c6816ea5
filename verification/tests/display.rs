use sysmon::display::{centered_rect, cpu_grid, short_path};
use sysmon::history::{push_sample, ring, HISTORY};
use sysmon::paths::{complete_path, pick_completion, split_for_completion};

#[test]
fn short_paths_stay_whole() {
    assert_eq!(short_path("src/main.rs"), "src/main.rs");
    let exactly_45 = "a".repeat(45);
    assert_eq!(short_path(&exactly_45), exactly_45);
}

#[test]
fn long_paths_keep_their_last_42_characters() {
    let long = format!("{}{}", "x".repeat(10), "y".repeat(36));
    assert_eq!(long.chars().count(), 46);
    assert_eq!(short_path(&long), format!("…{}{}", "x".repeat(6), "y".repeat(36)));
    let wide = "路径".repeat(30);
    assert_eq!(short_path(&wide), format!("…{}", "路径".repeat(21)));
}

#[test]
fn core_grid() {
    assert_eq!(cpu_grid(0), (1, 0));
    assert_eq!(cpu_grid(1), (1, 1));
    assert_eq!(cpu_grid(4), (1, 4));
    assert_eq!(cpu_grid(5), (2, 3));
    assert_eq!(cpu_grid(8), (2, 4));
    assert_eq!(cpu_grid(9), (4, 3));
    assert_eq!(cpu_grid(16), (4, 4));
    assert_eq!(cpu_grid(17), (4, 5));
}

#[test]
fn history_keeps_the_last_sixty_samples() {
    let mut h = ring(HISTORY, 0u32);
    assert_eq!(h.len(), 60);
    assert!(h.iter().all(|&v| v == 0));
    for i in 1..=100u32 {
        push_sample(&mut h, i);
        assert_eq!(h.len(), 60);
    }
    assert_eq!(h.front(), Some(&41));
    assert_eq!(h.back(), Some(&100));
    let mut short = ring(3, 7u8);
    push_sample(&mut short, 1);
    assert_eq!(short.iter().copied().collect::<Vec<_>>(), vec![7, 7, 7, 1]);
}

#[test]
fn completion_choice() {
    let names: Vec<String> = ["beta", "Alpha", "alpha", "gamma"].iter().map(|n| n.to_string()).collect();
    assert_eq!(pick_completion(&names, "AL"), Some(1));
    assert_eq!(pick_completion(&names, "g"), Some(3));
    assert_eq!(pick_completion(&names, "delta"), None);
    assert_eq!(complete_path(&names, "b", ".", '\\'), Some("beta\\".to_string()));
    assert_eq!(complete_path(&names, "b", "C:\\repos", '\\'), Some("C:\\repos\\beta\\".to_string()));
    let twice: Vec<String> = ["x", "x"].iter().map(|n| n.to_string()).collect();
    assert_eq!(pick_completion(&twice, ""), Some(0));
}

#[test]
fn popup_in_the_middle() {
    assert_eq!(centered_rect(60, 50, (0, 0, 100, 40)), (20, 10, 60, 20));
    assert_eq!(centered_rect(100, 100, (3, 4, 50, 20)), (3, 4, 50, 20));
    assert_eq!(centered_rect(50, 50, (10, 10, 80, 40)), (30, 20, 40, 20));
}

#[test]
fn where_a_typed_path_is_completed() {
    use_split("sr", '/', ".", "sr");
    use_split("/home/u/sr", '/', "/home/u", "sr");
    use_split("/sr", '/', "/", "sr");
    use_split("repos/", '/', "repos/", "");
    use_split("", '/', ".", "");
    use_split("C:\\repos\\x", '\\', "C:\\repos", "x");
    use_split("a\\b/c", '\\', "a\\b", "c");
    // components: `.` parts and doubled separators are passed over
    use_split("a/./b", '/', "a", "b");
    use_split("a//b", '/', "a", "b");
    use_split("./b", '/', ".", "b");
    use_split("x/../b", '/', "x/..", "b");
    use_split("//b", '/', "/", "b");
    use_split("a/.", '/', ".", "a");
    // a last `..` completes nothing in the directory before it
    use_split("a/..", '/', "a", "");
    use_split("..", '/', "", "");
    // a lone `.` names no directory to list; the root alone lists "."
    use_split(".", '/', "", "");
    use_split("/.", '/', ".", "");
}

fn use_split(path: &str, sep: char, dir: &str, prefix: &str) {
    assert_eq!(split_for_completion(path, sep), (dir.to_string(), prefix.to_string()));
}
