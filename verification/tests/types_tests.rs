use aimf_compiler::types::{CompilerConfig, LoadWhen, ResourceType};

#[test]
fn type_and_policy_tokens() {
    assert_eq!(ResourceType::SRC.as_str(), "SRC");
    assert_eq!(ResourceType::OTHER.as_str(), "OTHER");
    assert_eq!(ResourceType::MRM.as_str(), "MRM");
    assert_eq!(LoadWhen::Always.as_str(), "always");
    assert_eq!(LoadWhen::OnEdit.as_str(), "on_edit");
    assert_eq!(LoadWhen::OnRequest.as_str(), "on_request");
    assert_eq!(LoadWhen::OnError.as_str(), "on_error");
    assert_eq!(LoadWhen::OnGroup.as_str(), "on_group");
    assert_eq!(LoadWhen::Never.as_str(), "never");
}

#[test]
fn default_configuration() {
    let c = CompilerConfig::default();
    assert_eq!(c.root, ".");
    assert_eq!(c.max_hot_files, 15);
    assert_eq!(c.max_hot_file_size, 2048);
    assert_eq!(c.summary_threshold, 20480);
    assert_eq!(c.token_budget, 100_000);
    assert_eq!(c.shard_threshold, 500);
    assert_eq!(c.ignore_patterns.len(), 9);
    assert_eq!(c.ignore_patterns[0], ".git/**");
    assert_eq!(c.ignore_patterns[8], "build/**");
    assert!(c.custom_groups.is_none());
    assert!(c.repo.is_none() && c.branch.is_none());
}
