use aimf_compiler::session_miner::{
    collect_paths, diagram_type, extract_file_paths, extract_mermaid_context,
    extract_title_from_mermaid, get_context_window, split_words, unescape,
};

fn pairs(v: &[(String, String)]) -> Vec<(&str, &str)> {
    v.iter().map(|(a, b)| (a.as_str(), b.as_str())).collect()
}

#[test]
fn titles_from_frontmatter() {
    assert_eq!(
        extract_title_from_mermaid("---\ntitle:  Auth Flow \n---\nsequenceDiagram\n"),
        Some("Auth Flow".to_string())
    );
    assert_eq!(extract_title_from_mermaid("graph TD\ntitle: x\n"), None);
    assert_eq!(extract_title_from_mermaid("---\nfoo: 1\n---\ntitle: late\n"), None);
    assert_eq!(extract_title_from_mermaid(""), None);
}

#[test]
fn diagram_types() {
    assert_eq!(diagram_type("%% comment\n\n  Graph TD\nA-->B"), "graph");
    assert_eq!(diagram_type("sequenceDiagram"), "sequencediagram");
    assert_eq!(diagram_type("%% only\n  \n"), "");
}

#[test]
fn unescaping_and_words() {
    assert_eq!(unescape("a\\nb\\tc\\\\n"), "a\nb\tc\\\n");
    let w = split_words(&"  Login  Flow\tx ".chars().collect::<Vec<_>>());
    let w: Vec<String> = w.iter().map(|v| v.iter().collect()).collect();
    assert_eq!(w, vec!["Login", "Flow", "x"]);
}

#[test]
fn context_window() {
    assert_eq!(get_context_window("hello world", 6, 3), "lo wor");
    assert_eq!(get_context_window("hello", 1, 500), "hello");
}

#[test]
fn file_paths() {
    let t = "a docs/auth.mmd b src/main.rs, c docs/auth.mmd d http_client.rs `abc.py`";
    assert_eq!(extract_file_paths(t), vec!["docs/auth.mmd", "src/main.rs", "abc.py"]);
    assert!(extract_file_paths("nothing here").is_empty());
    let caps = vec![
        (0, Some("a.rs".to_string())),
        (5, None),
        (9, Some("a.rs".to_string())),
        (12, Some("http.md".to_string())),
    ];
    assert_eq!(collect_paths(&caps), vec!["a.rs"]);
}

#[test]
fn mermaid_enrichments() {
    let content = "Here is docs/flow.mmd:\n```mermaid\n---\ntitle: Login Flow\n---\nsequenceDiagram\n```\n";
    let mut m = Vec::new();
    assert!(extract_mermaid_context(content, &mut m));
    assert_eq!(
        pairs(&m),
        vec![
            ("docs/flow.mmd", "Login Flow"),
            ("*login", "Login Flow"),
            ("*flow", "Login Flow"),
        ]
    );
    // an existing key keeps its description
    let content2 = "see docs/flow.mmd\\n```mermaid\\ngraph TD\\nA-->B\\n```";
    assert!(extract_mermaid_context(content2, &mut m));
    assert_eq!(m.len(), 3);
    let mut fresh = Vec::new();
    assert!(extract_mermaid_context(content2, &mut fresh));
    assert_eq!(pairs(&fresh), vec![("docs/flow.mmd", "graph diagram")]);
}

#[test]
fn window_inside_a_character_is_refused() {
    let content = format!("{}```mermaid\ngraph\n```", "€".repeat(200));
    let mut m = vec![("k".to_string(), "v".to_string())];
    assert!(!extract_mermaid_context(&content, &mut m));
    assert_eq!(pairs(&m), vec![("k", "v")]);
}
