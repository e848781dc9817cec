use aimf_compiler::emitter::{emit, emit_at, emit_deps_summary, emit_groups, emit_index};
use aimf_compiler::partitioner::{default_groups, partition};
use aimf_compiler::scanner::ScannedFile;
use aimf_compiler::types::{CompilerConfig, LoadWhen, Resource, ResourceType};

fn file(path: &str, size: u64, content: Option<&str>) -> ScannedFile {
    ScannedFile {
        path: path.to_string(),
        abs_path: format!("/p/{}", path),
        size,
        hash: "abcd1234".to_string(),
        content: content.map(|c| c.to_string()),
    }
}

fn text(v: &Vec<char>) -> String {
    v.iter().collect()
}

#[test]
fn whole_document_for_one_file() {
    let mut config = CompilerConfig::default();
    config.root = "/p".to_string();
    let files = vec![file("main.rs", 13, Some("fn main() {}\n"))];
    let p = partition(&files, &config);
    let doc = emit_at(&config, &files, &p, "20260101T000000Z");
    let expected = [
        "@H\nV:1\nR:1\nHOT:1\nGRP:8\nTS:20260101T000000Z\nROOT:/p\n\n",
        "@G\n",
        "G1|core|src/lib/**,src/core/**\n",
        "G2|api|src/api/**,src/routes/**,src/handlers/**\n",
        "G3|cfg|*.toml,*.yaml,*.yml,*.json\n",
        "G4|test|tests/**,test/**,__tests__/**\n",
        "G5|doc|docs/**,*.md\n",
        "G6|ui|src/ui/**,src/components/**,src/pages/**\n",
        "G7|build|Cargo.*,Makefile,Dockerfile,package.json\n",
        "G8|other|*\n",
        "\n",
        "@I\nF1|SRC|on_edit|main.rs|13|abcd1234|G8|entry point\n\n",
        "@M CTX\n<<task=initial compilation;focus=all>>\n\n",
        "@M ARCH\n<<Project structure: 1 resources in 8 groups.\nComposition: 1 SRC.\nother (G8): 1 files.\nEntry points: main.rs (F1).>>\n\n",
        "@M DEPS\n<<no dependency files detected>>\n\n",
        "@M F1\n<<fn main() {}\n>>\n\n",
    ]
    .concat();
    assert_eq!(doc, expected);
}

#[test]
fn header_lists_repo_branch_and_shard() {
    let mut config = CompilerConfig::default();
    config.root = "/r".to_string();
    config.repo = Some("o/r".to_string());
    config.branch = Some("main".to_string());
    config.shard_threshold = 1;
    config.custom_groups = Some(vec![]);
    let files = vec![file("a.xyz", 1, None), file("b.xyz", 1, None)];
    let p = partition(&files, &config);
    let doc = emit_at(&config, &files, &p, "T");
    assert!(doc.starts_with("@H\nV:1\nR:2\nHOT:0\nREPO:o/r\nBRANCH:main\nTS:T\nROOT:/r\nSHARD:1/1\n\n@I\n"));
    assert!(doc.contains("Composition: 2 OTHER.\n>>"));
    assert!(!doc.contains("@G"));
}

#[test]
fn dependency_files_are_summarized() {
    let mut config = CompilerConfig::default();
    config.root = "/p".to_string();
    let cargo: String = (1..=25).map(|i| format!("l{}\n", i)).collect();
    let files = vec![
        file("Cargo.toml", 100, Some(&cargo)),
        file("go.mod", 10, None),
        file("pkg/PACKAGE.JSON", 10, Some("{}")),
    ];
    let p = partition(&files, &config);
    let doc = emit_at(&config, &files, &p, "T");
    let first20: String = (1..=20).map(|i| format!("l{}", i)).collect::<Vec<_>>().join("\n");
    let expected = format!("@M DEPS\n<<[Cargo.toml]\n{}\n[package.json]\n{{}}\n>>\n\n", first20);
    assert!(doc.contains(&expected));
}

#[test]
fn composition_in_order_of_appearance() {
    let mut config = CompilerConfig::default();
    config.custom_groups = Some(vec![]);
    let files = vec![file("a.rs", 1, None), file("b.md", 1, None), file("c.rs", 1, None)];
    let p = partition(&files, &config);
    let doc = emit_at(&config, &files, &p, "T");
    assert!(doc.contains("Composition: 2 SRC, 1 DOC.\n"));
}

#[test]
fn groups_and_index_sections() {
    let mut out = Vec::new();
    emit_groups(&mut out, &Vec::new());
    assert!(out.is_empty());
    emit_groups(&mut out, &default_groups());
    assert!(text(&out).starts_with("@G\nG1|core|src/lib/**,src/core/**\n"));
    let r = Resource {
        id: "F7".to_string(),
        resource_type: ResourceType::META,
        load_when: LoadWhen::Never,
        path: "assets/logo.png".to_string(),
        size: 24576,
        hash: "deadbeef".to_string(),
        group_id: "G8".to_string(),
        hint: "binary asset".to_string(),
    };
    let mut out = Vec::new();
    emit_index(&mut out, &vec![r]);
    assert_eq!(text(&out), "@I\nF7|META|never|assets/logo.png|24576|deadbeef|G8|binary asset\n\n");
}

#[test]
fn emit_stamps_the_current_time() {
    let config = CompilerConfig::default();
    let files = vec![file("main.rs", 13, Some("fn main() {}\n"))];
    let p = partition(&files, &config);
    let doc = emit(&config, &files, &p).unwrap();
    let ts_line = doc.lines().find(|l| l.starts_with("TS:")).unwrap();
    assert_eq!(ts_line.len(), 3 + 16);
    assert!(ts_line.ends_with('Z'));
    assert_eq!(&ts_line[11..12], "T");
}

#[test]
fn every_hot_resource_gets_its_entry() {
    let config = CompilerConfig::default();
    let files = vec![
        file("Cargo.toml", 20, Some("[package]\nname = \"x\"\n")),
        file("README.md", 6, Some("# x\nhi")),
        file("notes.txt", 3, Some("n\n")),
        file("src/main.rs", 13, Some("fn main() {}\n")),
    ];
    let p = partition(&files, &config);
    assert_eq!(p.hot_ids, vec!["F2", "F1", "F4"]);
    let doc = emit_at(&config, &files, &p, "T");
    assert!(doc.contains("@M F1\n<<[package]\nname = \"x\"\n>>\n\n"));
    assert!(doc.contains("@M F2\n<<# x\nhi>>\n\n"));
    assert!(doc.contains("@M F4\n<<fn main() {}\n>>\n\n"));
    assert!(!doc.contains("@M F3"));
    assert_eq!(doc.matches("\n@M F").count(), p.hot_ids.len());
}

#[test]
fn payload_delimiters_are_escaped() {
    let config = CompilerConfig::default();
    let files = vec![file("main.rs", 13, Some("a >> b<<c>"))];
    let p = partition(&files, &config);
    let doc = emit_at(&config, &files, &p, "T");
    assert!(doc.contains("@M F1\n<<a > > b< <c> >>\n\n"));
}

#[test]
fn no_dependency_message_follows_the_open_marker() {
    let p = partition(&vec![file("a.rs", 1, None)], &CompilerConfig::default());
    let files = vec![file("a.rs", 1, None)];
    let mut out: Vec<char> = "x<<".chars().collect();
    emit_deps_summary(&mut out, &p, &files);
    assert_eq!(text(&out), "x<<no dependency files detected");
    let mut out: Vec<char> = Vec::new();
    emit_deps_summary(&mut out, &p, &files);
    assert!(out.is_empty());
}
