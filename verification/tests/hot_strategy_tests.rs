use aimf_compiler::hot_strategy::{
    apply_strategy, extract_signatures, is_signature_line, read_full, read_head,
};
use aimf_compiler::types::HotStrategy;

fn some(s: &str) -> Option<String> {
    Some(s.to_string())
}

#[test]
fn full_and_unreadable() {
    assert_eq!(read_full(&some("x\ny\n")), "x\ny\n");
    assert_eq!(read_full(&None), "[unreadable]");
    assert_eq!(apply_strategy("a.rs", &None, &HotStrategy::Full), "[unreadable]");
}

#[test]
fn head_marks_truncation() {
    let c = some("a\nb\nc\n");
    assert_eq!(read_head(&c, 2), "a\nb\n... [truncated]");
    assert_eq!(read_head(&c, 3), "a\nb\nc");
    assert_eq!(read_head(&c, 10), "a\nb\nc");
    assert_eq!(read_head(&some("a\r\nb"), 1), "a\n... [truncated]");
    assert_eq!(read_head(&some(""), 5), "");
    assert_eq!(read_head(&None, 5), "[unreadable]");
}

#[test]
fn signature_lines() {
    assert!(is_signature_line("pub fn a() {}", "rs"));
    assert!(is_signature_line("impl Foo {", "rs"));
    assert!(is_signature_line("pub async fn run() {", "rs"));
    assert!(is_signature_line("async fn run() {", "rs"));
    assert!(is_signature_line("pub(crate) fn helper() {", "rs"));
    assert!(is_signature_line("pub(super) struct S;", "rs"));
    assert!(is_signature_line("pub const fn k() -> u8 {", "rs"));
    assert!(is_signature_line("const fn k() -> u8 {", "rs"));
    assert!(!is_signature_line("const K: u8 = 1;", "rs"));
    assert!(!is_signature_line("let f = 1;", "rs"));
    assert!(!is_signature_line("// fn c", "rs"));
    assert!(!is_signature_line("#[derive(Debug)]", "rs"));
    assert!(!is_signature_line("", "rs"));
    assert!(is_signature_line("async def f():", "py"));
    assert!(is_signature_line("export const x = 1", "ts"));
    assert!(is_signature_line("x.map(y => {", "js"));
    assert!(is_signature_line("func main() {", "go"));
    assert!(is_signature_line("public void run() {", "java"));
    assert!(is_signature_line("data class P(val x: Int)", "kt"));
    assert!(!is_signature_line("public int x;", "java"));
    assert!(!is_signature_line("fn x", "c"));
}

#[test]
fn signatures_of_a_source_file() {
    let c = some("use std;\npub fn a() {}\n  fn b() {}\n// fn c\nstruct S;\n");
    assert_eq!(extract_signatures("/p/x.RS", &c), "pub fn a() {}\nfn b() {}\nstruct S;");
    // no signature: the first 30 lines instead
    assert_eq!(extract_signatures("/p/x.txt", &some("hello\nworld")), "hello\nworld");
    assert_eq!(extract_signatures("/p/x.rs", &None), "[unreadable]");
    assert_eq!(
        apply_strategy("/p/x.rs", &c, &HotStrategy::Signature),
        "pub fn a() {}\nfn b() {}\nstruct S;"
    );
}

#[test]
fn summary_and_delta() {
    assert_eq!(apply_strategy("a", &some("l1\nl2"), &HotStrategy::Summary), "[summary pending]\nl1\nl2");
    assert_eq!(apply_strategy("a", &None, &HotStrategy::Summary), "[summary pending]\n[unreadable]");
    assert_eq!(
        apply_strategy("a", &some("x"), &HotStrategy::Delta),
        "[delta: no previous compilation found]"
    );
    assert_eq!(apply_strategy("a", &some("1\n2\n3"), &HotStrategy::Head(1)), "1\n... [truncated]");
}
