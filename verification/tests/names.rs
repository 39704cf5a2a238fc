use sf::names::{file_name, split_name, unique_path};
use std::collections::HashSet;
use std::path::Path;

fn words(alphabet: &[char], longest: usize) -> Vec<String> {
    let mut all: Vec<String> = vec![String::new()];
    let mut last: Vec<String> = vec![String::new()];
    for _ in 0..longest {
        let mut next: Vec<String> = Vec::new();
        for w in &last {
            for c in alphabet {
                let mut longer = w.clone();
                longer.push(*c);
                next.push(longer);
            }
        }
        all.extend(next.iter().cloned());
        last = next;
    }
    all
}

#[test]
fn last_components_agree_with_the_standard_library() {
    for p in words(&['a', '.', '/'], 8) {
        let expected = Path::new(&p).file_name().map(|n| n.to_string_lossy().into_owned());
        assert_eq!(file_name(&p), expected, "{}", p);
    }
}

#[test]
fn last_components_of_ordinary_paths() {
    assert_eq!(file_name("/home/me/照片.jpg"), Some("照片.jpg".to_string()));
    assert_eq!(file_name("a/b/"), Some("b".to_string()));
    assert_eq!(file_name("foo.txt/."), Some("foo.txt".to_string()));
    assert_eq!(file_name("foo.txt/.."), None);
    assert_eq!(file_name("/"), None);
    assert_eq!(file_name(""), None);
}

#[test]
fn stems_and_extensions_agree_with_the_standard_library() {
    for p in words(&['a', 'b', '.'], 7) {
        if Path::new(&p).file_name().map(|n| n.to_string_lossy().into_owned()) == Some(p.clone()) {
            let (stem, ext) = split_name(&p);
            let path = Path::new(&p);
            assert_eq!(Some(stem), path.file_stem().map(|s| s.to_string_lossy().into_owned()));
            assert_eq!(ext, path.extension().map(|s| s.to_string_lossy().into_owned()));
        }
    }
}

#[test]
fn stems_and_extensions_of_ordinary_names() {
    assert_eq!(split_name("a.tar.gz"), ("a.tar".to_string(), Some("gz".to_string())));
    assert_eq!(split_name(".profile"), (".profile".to_string(), None));
    assert_eq!(split_name("plain"), ("plain".to_string(), None));
    assert_eq!(split_name("end."), ("end".to_string(), Some(String::new())));
    assert_eq!(split_name(".."), ("..".to_string(), None));
}

#[test]
fn a_free_name_is_kept() {
    assert_eq!(unique_path("a.txt", |_| false, 1, false), "a.txt");
    assert_eq!(unique_path("../../etc/passwd", |_| false, 1, false), "passwd");
    assert_eq!(unique_path("..", |_| false, 1, false), "file");
    assert_eq!(unique_path("/", |_| false, 1, false), "file");
}

#[test]
fn a_taken_name_is_numbered() {
    let taken: HashSet<&str> = ["a.txt", "a (1).txt", "a (2).txt"].into_iter().collect();
    assert_eq!(unique_path("dir/a.txt", |n: &str| taken.contains(n), 1, false), "a (3).txt");
    assert_eq!(unique_path("README", |n: &str| n == "README", 1, false), "README (1)");
    assert_eq!(unique_path(".bashrc", |n: &str| n == ".bashrc", 1, false), ".bashrc (1)");
    assert_eq!(unique_path("a.tar.gz", |n: &str| n == "a.tar.gz", 1, false), "a.tar (1).gz");
    assert_eq!(unique_path("..", |n: &str| n == "file", 1, false), "file (1)");
}

#[test]
fn gaps_are_filled_first() {
    let taken: HashSet<&str> = ["a", "a (2)"].into_iter().collect();
    assert_eq!(unique_path("a", |n: &str| taken.contains(n), 1, false), "a (1)");
}

#[test]
fn the_last_candidate_is_still_used() {
    assert_eq!(unique_path("a.b", |n: &str| n != "a (9999).b", 42, false), "a (9999).b");
}

#[test]
fn where_all_are_taken_the_process_number_is_used() {
    assert_eq!(unique_path("a.b", |n: &str| n.ends_with(".b"), 4242, false), "a-4242");
    assert_eq!(unique_path("", |n: &str| !n.contains('-'), 0, false), "file-0");
}

#[test]
fn where_the_process_name_is_taken_it_is_numbered() {
    let taken = |n: &str| n.ends_with(".b") || n == "a-7";
    assert_eq!(unique_path("a.b", taken, 7, false), "a-7 (1)");
    let taken = |n: &str| n.ends_with(".b") || n == "a-7" || n == "a-7 (1)" || n == "a-7 (2)";
    assert_eq!(unique_path("a.b", taken, 7, false), "a-7 (3)");
}

#[test]
fn chosen_names_are_free() {
    let mut taken: HashSet<String> = (10..10_000).map(|k| format!("x ({}).y", k)).collect();
    let mut chosen: Vec<String> = Vec::new();
    for _ in 0..15 {
        let name = unique_path("x.y", |n: &str| taken.contains(n), 3, false);
        assert!(taken.insert(name.clone()));
        chosen.push(name);
    }
    assert_eq!(chosen[0], "x.y");
    assert_eq!(chosen[9], "x (9).y");
    assert_eq!(chosen[10], "x-3");
    assert_eq!(chosen[14], "x-3 (4)");
}

#[test]
fn chosen_names_stay_in_the_directory() {
    for p in words(&['a', '.', '/'], 6) {
        for pick in [
            unique_path(&p, |_| false, 7, false),
            unique_path(&p, |n: &str| !n.contains("-7"), 7, false),
            unique_path(&p, |n: &str| !n.contains("-7 "), 7, false),
        ] {
            assert!(!pick.is_empty() && !pick.contains('/') && pick != "." && pick != "..");
        }
    }
}

#[test]
fn candidates_are_distinct() {
    let tried: std::cell::RefCell<Vec<String>> = std::cell::RefCell::new(Vec::new());
    unique_path("a (1).txt", |n: &str| {
        tried.borrow_mut().push(n.to_string());
        tried.borrow().len() < 10_100
    }, 1, false);
    let all = tried.into_inner();
    let distinct: HashSet<&String> = all.iter().collect();
    assert_eq!(all.len(), 10_100);
    assert_eq!(distinct.len(), 10_100);
    assert_eq!(all[0], "a (1).txt");
    assert_eq!(all[1], "a (1) (1).txt");
    assert_eq!(all[9_999], "a (1) (9999).txt");
    assert_eq!(all[10_000], "a (1)-1");
    assert_eq!(all[10_001], "a (1)-1 (1)");
    assert_eq!(all[10_099], "a (1)-1 (99)");
}

#[test]
fn stem_and_extension_make_the_name() {
    for name in words(&['a', '.'], 8) {
        let (stem, ext) = split_name(&name);
        match ext {
            Some(e) => assert_eq!(format!("{}.{}", stem, e), name),
            None => assert_eq!(stem, name),
        }
    }
}

#[test]
fn on_windows_a_received_name_leads_nowhere_else() {
    let free = |_: &str| false;
    assert_eq!(unique_path("..\\..\\x.exe", free, 1, true), "x.exe");
    assert_eq!(unique_path("C:\\x.exe", free, 1, true), "x.exe");
    assert_eq!(unique_path("C:x.exe", free, 1, true), "x.exe");
    assert_eq!(unique_path("C:", free, 1, true), "file");
    assert_eq!(unique_path("a/C:x.exe", free, 1, true), "C_x.exe");
    assert_eq!(unique_path("a.txt:hidden", free, 1, true), "a.txt_hidden");
    assert_eq!(unique_path("12:30.jpg", free, 1, true), "12_30.jpg");
    assert_eq!(unique_path("\\\\?\\C:\\a/b", free, 1, true), "b");
    assert_eq!(unique_path("a\\..", free, 1, true), "file");
    assert_eq!(unique_path("照片 (1).jpg", free, 1, true), "照片 (1).jpg");
    assert_eq!(unique_path("C:\\a.b", |n: &str| n == "a.b", 1, true), "a (1).b");
}

#[test]
fn elsewhere_backslashes_and_colons_are_kept() {
    let free = |_: &str| false;
    assert_eq!(unique_path("..\\x.exe", free, 1, false), "..\\x.exe");
    assert_eq!(unique_path("12:30.jpg", free, 1, false), "12:30.jpg");
}

#[test]
fn on_windows_chosen_names_stay_in_the_directory() {
    for p in words(&['a', '.', '/', '\\', ':'], 5) {
        for pick in [
            unique_path(&p, |_: &str| false, 7, true),
            unique_path(&p, |n: &str| !n.contains("(2)"), 7, true),
        ] {
            assert!(!pick.is_empty() && pick != "." && pick != "..");
            assert!(!pick.contains(|c: char| c == '/' || c == '\\' || c == ':'));
        }
    }
}
