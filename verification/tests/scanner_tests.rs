use aimf_compiler::scanner::{compute_hash, should_ignore, sort_by_path, ScannedFile};
use aimf_compiler::types::CompilerConfig;

fn file(path: &str) -> ScannedFile {
    ScannedFile {
        path: path.to_string(),
        abs_path: path.to_string(),
        size: 0,
        hash: String::new(),
        content: None,
    }
}

#[test]
fn ignore_patterns() {
    let ps = CompilerConfig::default().ignore_patterns;
    assert!(should_ignore(".git/HEAD", &ps));
    assert!(should_ignore("node_modules/x/y.js", &ps));
    assert!(should_ignore("foo.pyc", &ps));
    assert!(should_ignore("a/b.lock", &ps));
    assert!(should_ignore(".DS_Store", &ps));
    assert!(!should_ignore("src/main.rs", &ps));
    // a directory pattern ignores the directory and what lies under it, not
    // other names that merely start with its name
    assert!(should_ignore("build/out.js", &ps));
    assert!(should_ignore("dist", &ps));
    assert!(!should_ignore(".gitignore", &ps));
    assert!(!should_ignore(".github/workflows/ci.yml", &ps));
    assert!(!should_ignore("build.rs", &ps));
    assert!(!should_ignore("distribution.md", &ps));
    assert!(!should_ignore("x", &Vec::new()));
    assert!(!should_ignore("anything", &vec![String::new()]));
    assert!(should_ignore("out/a.txt", &vec!["out/".to_string()]));
    assert!(should_ignore("a/b", &vec!["a/**/**".to_string()]));
}

#[test]
fn content_hash() {
    assert_eq!(compute_hash(&None), "00000000");
    assert_eq!(compute_hash(&Some(Vec::new())), "e3b0c442");
    assert_eq!(compute_hash(&Some(b"abc".to_vec())), "ba7816bf");
}

#[test]
fn listing_is_sorted_by_path() {
    let files = vec![file("b.rs"), file("a/b.rs"), file("a.rs"), file("a/a.rs"), file("B.rs")];
    let sorted = sort_by_path(files);
    let paths: Vec<&str> = sorted.iter().map(|f| f.path.as_str()).collect();
    assert_eq!(paths, vec!["B.rs", "a/a.rs", "a/b.rs", "a.rs", "b.rs"]);
    assert!(sort_by_path(Vec::new()).is_empty());
}
