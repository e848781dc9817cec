use aimf_compiler::partitioner::{
    assign_group, decide_hot_strategy, decide_load_when, default_groups, partition,
    select_hot,
};
use aimf_compiler::scanner::ScannedFile;
use aimf_compiler::types::{CompilerConfig, Group, GroupConfig, HotStrategy, LoadWhen, ResourceType};

fn file(path: &str, size: u64) -> ScannedFile {
    ScannedFile {
        path: path.to_string(),
        abs_path: format!("/p/{}", path),
        size,
        hash: "00000000".to_string(),
        content: None,
    }
}

#[test]
fn load_policies() {
    assert_eq!(decide_load_when(&ResourceType::BIN, "a.png", 10), LoadWhen::Never);
    assert_eq!(decide_load_when(&ResourceType::SRC, "main.rs", 60_000), LoadWhen::OnRequest);
    assert_eq!(decide_load_when(&ResourceType::CFG, "a.toml", 4095), LoadWhen::Always);
    assert_eq!(decide_load_when(&ResourceType::CFG, "a.toml", 4096), LoadWhen::OnRequest);
    assert_eq!(decide_load_when(&ResourceType::SRC, "src/main.rs", 100), LoadWhen::OnEdit);
    assert_eq!(decide_load_when(&ResourceType::SRC, "src/x.rs", 100), LoadWhen::OnRequest);
    assert_eq!(decide_load_when(&ResourceType::DOC, "README.md", 100), LoadWhen::Always);
    assert_eq!(decide_load_when(&ResourceType::DOC, "guide.md", 100), LoadWhen::OnRequest);
    assert_eq!(decide_load_when(&ResourceType::META, ".gitignore", 100), LoadWhen::OnGroup);
    assert_eq!(decide_load_when(&ResourceType::TEST, "t.rs", 100), LoadWhen::OnRequest);
    assert_eq!(decide_load_when(&ResourceType::MRM, "a.mmd", 100), LoadWhen::OnRequest);
    assert_eq!(decide_load_when(&ResourceType::OTHER, "a.x", 100), LoadWhen::OnRequest);
}

#[test]
fn hot_strategies() {
    let c = CompilerConfig::default();
    assert_eq!(decide_hot_strategy(&ResourceType::SRC, 2048, &c), HotStrategy::Full);
    assert_eq!(decide_hot_strategy(&ResourceType::SRC, 2049, &c), HotStrategy::Signature);
    assert_eq!(decide_hot_strategy(&ResourceType::SRC, 20481, &c), HotStrategy::Head(50));
    // documents up to the summary threshold are summarized, larger ones
    // keep only their head
    assert_eq!(decide_hot_strategy(&ResourceType::DOC, 5000, &c), HotStrategy::Summary);
    assert_eq!(decide_hot_strategy(&ResourceType::DOC, 20480, &c), HotStrategy::Summary);
    assert_eq!(decide_hot_strategy(&ResourceType::DOC, 30000, &c), HotStrategy::Head(100));
    assert_eq!(decide_hot_strategy(&ResourceType::CFG, 5000, &c), HotStrategy::Head(30));
}

#[test]
fn default_group_table() {
    let gs = default_groups();
    assert_eq!(gs.len(), 8);
    let ids: Vec<&str> = gs.iter().map(|g| g.id.as_str()).collect();
    assert_eq!(ids, vec!["G1", "G2", "G3", "G4", "G5", "G6", "G7", "G8"]);
    let labels: Vec<&str> = gs.iter().map(|g| g.label.as_str()).collect();
    assert_eq!(labels, vec!["core", "api", "cfg", "test", "doc", "ui", "build", "other"]);
    assert_eq!(gs[6].patterns, vec!["Cargo.*", "Makefile", "Dockerfile", "package.json"]);
    assert_eq!(gs[7].patterns, vec!["*"]);
}

#[test]
fn glob_matching() {
    let g = |id: &str, pat: &str| Group {
        id: id.to_string(),
        label: id.to_string(),
        patterns: vec![pat.to_string()],
    };
    assert_eq!(assign_group("any/path.rs", &vec![g("A", "*")]), "A");
    assert_eq!(assign_group("docs/a.md", &vec![g("A", "*.md")]), "A");
    assert_eq!(assign_group("Makefile", &vec![g("A", "Makefile")]), "A");
    assert_eq!(assign_group("makefile", &vec![g("A", "Makefile")]), "-");
    assert_eq!(assign_group("src/lib/a/b.rs", &vec![g("A", "src/lib/**")]), "A");
    // A pattern that glob refuses is skipped, the next group is tried.
    assert_eq!(assign_group("ab", &vec![g("A", "a**b"), g("B", "*")]), "B");
}

#[test]
fn first_matching_group_wins() {
    let gs = default_groups();
    assert_eq!(assign_group("src/lib/x.rs", &gs), "G1");
    assert_eq!(assign_group("src/api/h.rs", &gs), "G2");
    assert_eq!(assign_group("Cargo.toml", &gs), "G3");
    assert_eq!(assign_group("tests/a.rs", &gs), "G4");
    assert_eq!(assign_group("README.md", &gs), "G5");
    assert_eq!(assign_group("Makefile", &gs), "G7");
    assert_eq!(assign_group("foo/bar.txt", &gs), "G8");
    assert_eq!(assign_group("x", &Vec::new()), "-");
}

#[test]
fn partition_orders_hot_files() {
    let files = vec![
        file("README.md", 500),
        file("src/main.rs", 1000),
        file("Cargo.toml", 300),
        file("src/lib.rs", 3000),
        file("assets/logo.png", 10000),
    ];
    let config = CompilerConfig::default();
    let p = partition(&files, &config);
    let ids: Vec<&str> = p.resources.iter().map(|r| r.id.as_str()).collect();
    assert_eq!(ids, vec!["F1", "F2", "F3", "F4", "F5"]);
    assert_eq!(p.resources[4].resource_type, ResourceType::BIN);
    assert_eq!(p.resources[4].load_when, LoadWhen::Never);
    assert_eq!(p.resources[0].group_id, "G5");
    assert_eq!(p.resources[3].hint, "entry point");
    assert_eq!(p.resources[4].hint, "binary asset");
    // always before on_edit, then smaller first
    assert_eq!(p.hot_ids, vec!["F3", "F1", "F2", "F4"]);
    let strategies: Vec<(&str, HotStrategy)> =
        p.hot_strategies.iter().map(|(id, s)| (id.as_str(), *s)).collect();
    assert_eq!(
        strategies,
        vec![
            ("F3", HotStrategy::Full),
            ("F1", HotStrategy::Full),
            ("F2", HotStrategy::Full),
            ("F4", HotStrategy::Signature),
        ]
    );
}

#[test]
fn hot_list_is_limited() {
    let files = vec![file("README.md", 500), file("src/main.rs", 1000), file("Cargo.toml", 300)];
    let mut config = CompilerConfig::default();
    config.max_hot_files = 2;
    let p = partition(&files, &config);
    assert_eq!(p.hot_ids, vec!["F3", "F1"]);
    config.max_hot_files = 0;
    let p = partition(&files, &config);
    assert!(p.hot_ids.is_empty());
    assert!(select_hot(&p.resources, 10).len() == 3);
}

#[test]
fn equal_sizes_keep_listing_order() {
    let files = vec![file("b.toml", 100), file("a.toml", 100)];
    let p = partition(&files, &CompilerConfig::default());
    assert_eq!(p.hot_ids, vec!["F1", "F2"]);
}

#[test]
fn custom_groups_are_numbered() {
    let mut config = CompilerConfig::default();
    config.custom_groups = Some(vec![
        GroupConfig { label: "web".to_string(), patterns: vec!["web/**".to_string()] },
        GroupConfig { label: "rest".to_string(), patterns: vec!["*.rs".to_string()] },
    ]);
    let files = vec![file("web/a.js", 10), file("b.rs", 10), file("c.txt", 10)];
    let p = partition(&files, &config);
    assert_eq!(p.groups.len(), 2);
    assert_eq!(p.groups[1].id, "G2");
    assert_eq!(p.groups[1].label, "rest");
    let gids: Vec<&str> = p.resources.iter().map(|r| r.group_id.as_str()).collect();
    assert_eq!(gids, vec!["G1", "G2", "-"]);
}

#[test]
fn partition_cuts_long_hints_by_characters() {
    let parent = format!("{}é{}", "a".repeat(56), "b".repeat(10));
    let files = vec![file(&format!("{}/x.rs", parent), 10)];
    let p = partition(&files, &CompilerConfig::default());
    assert_eq!(p.resources[0].hint, format!("{}é...", "a".repeat(56)));
}
