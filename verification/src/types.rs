//! The data model of an AIMF document and of the compiler's configuration.
use vstd::prelude::*;

verus! {

// ─── Resource Types ─────────────────────────────────────────────

#[derive(Debug, Clone, Copy, PartialEq, Eq, Structural)]
pub enum ResourceType {
    SRC,
    CFG,
    DOC,
    TEST,
    MRM,
    BIN,
    META,
    OTHER,
}

/// The token a resource type is written as in the index.
pub open spec fn resource_type_name(t: ResourceType) -> Seq<char> {
    match t {
        ResourceType::SRC => "SRC"@,
        ResourceType::CFG => "CFG"@,
        ResourceType::DOC => "DOC"@,
        ResourceType::TEST => "TEST"@,
        ResourceType::MRM => "MRM"@,
        ResourceType::BIN => "BIN"@,
        ResourceType::META => "META"@,
        ResourceType::OTHER => "OTHER"@,
    }
}

impl ResourceType {
    pub fn as_str(&self) -> (res: &'static str)
        ensures
            res@ == resource_type_name(*self),
    {
        match self {
            ResourceType::SRC => "SRC",
            ResourceType::CFG => "CFG",
            ResourceType::DOC => "DOC",
            ResourceType::TEST => "TEST",
            ResourceType::MRM => "MRM",
            ResourceType::BIN => "BIN",
            ResourceType::META => "META",
            ResourceType::OTHER => "OTHER",
        }
    }
}

// ─── Load Strategy ──────────────────────────────────────────────

#[derive(Debug, Clone, Copy, PartialEq, Eq, Structural)]
pub enum LoadWhen {
    Always,
    OnEdit,
    OnRequest,
    OnError,
    OnGroup,
    Never,
}

/// The token a load policy is written as in the index.
pub open spec fn load_when_name(l: LoadWhen) -> Seq<char> {
    match l {
        LoadWhen::Always => "always"@,
        LoadWhen::OnEdit => "on_edit"@,
        LoadWhen::OnRequest => "on_request"@,
        LoadWhen::OnError => "on_error"@,
        LoadWhen::OnGroup => "on_group"@,
        LoadWhen::Never => "never"@,
    }
}

impl LoadWhen {
    pub fn as_str(&self) -> (res: &'static str)
        ensures
            res@ == load_when_name(*self),
    {
        match self {
            LoadWhen::Always => "always",
            LoadWhen::OnEdit => "on_edit",
            LoadWhen::OnRequest => "on_request",
            LoadWhen::OnError => "on_error",
            LoadWhen::OnGroup => "on_group",
            LoadWhen::Never => "never",
        }
    }
}

// ─── Hot Payload Strategy ───────────────────────────────────────

#[derive(Debug, Clone, Copy, PartialEq, Eq, Structural)]
pub enum HotStrategy {
    Full,
    Summary,
    Head(usize),  // first N lines
    Signature,  // function/struct signatures only
    Delta,  // diff since last compile
}

// ─── Core Data Structures ───────────────────────────────────────

#[derive(Debug, Clone)]
pub struct Resource {
    pub id: String,  // F1, F2, ...
    pub resource_type: ResourceType,
    pub load_when: LoadWhen,
    pub path: String,  // relative to root, '/'-separated
    pub size: u64,
    pub hash: String,  // 8-char hex
    pub group_id: String,  // G1, G2, ... or "-"
    pub hint: String,  // semantic hint, at most 60 bytes
}

#[derive(Debug, Clone)]
pub struct Group {
    pub id: String,  // G1, G2, ...
    pub label: String,
    pub patterns: Vec<String>,  // glob patterns
}

#[derive(Debug, Clone)]
pub struct HotEntry {
    pub key: String,  // ResourceID or special key (CTX, ARCH, DEPS, etc.)
    pub payload: String,
}

#[derive(Debug, Clone)]
pub struct ColdBlock {
    pub resource_id: String,
    pub payload: String,
}

#[derive(Debug, Clone)]
pub struct Header {
    pub version: u32,
    pub resource_count: usize,
    pub hot_count: usize,
    pub group_count: usize,
    pub repo: Option<String>,
    pub branch: Option<String>,
    pub commit: Option<String>,
    pub timestamp: String,
    pub root: String,
    pub shard: Option<String>,
}

#[derive(Debug, Clone)]
pub struct AimfDocument {
    pub header: Header,
    pub groups: Vec<Group>,
    pub resources: Vec<Resource>,
    pub hot_entries: Vec<HotEntry>,
    pub cold_blocks: Vec<ColdBlock>,
}

// ─── Compiler Configuration ─────────────────────────────────────

#[derive(Debug, Clone)]
pub struct CompilerConfig {
    pub root: String,
    pub repo: Option<String>,
    pub branch: Option<String>,
    pub max_hot_files: usize,
    pub max_hot_file_size: u64,  // bytes — files larger than this get summarized
    pub summary_threshold: u64,  // bytes — files larger than this get head-only
    pub token_budget: usize,  // max tokens for hot memory section
    pub ignore_patterns: Vec<String>,
    pub custom_groups: Option<Vec<GroupConfig>>,
    pub shard_threshold: usize,  // resource count to trigger sharding
}

#[derive(Debug, Clone)]
pub struct GroupConfig {
    pub label: String,
    pub patterns: Vec<String>,
}

/// The ignore patterns of the default configuration.
pub open spec fn default_ignore_patterns() -> Seq<Seq<char>> {
    seq![
        ".git/**"@,
        "node_modules/**"@,
        "target/**"@,
        "__pycache__/**"@,
        "*.pyc"@,
        ".DS_Store"@,
        "*.lock"@,
        "dist/**"@,
        "build/**"@,
    ]
}

impl Default for CompilerConfig {
    fn default() -> (res: Self)
        ensures
            res.root@ == "."@,
            res.repo.is_none(),
            res.branch.is_none(),
            res.max_hot_files == 15,
            res.max_hot_file_size == 2048,
            res.summary_threshold == 20480,
            res.token_budget == 100_000,
            res.ignore_patterns@.map_values(|p: String| p@) == default_ignore_patterns(),
            res.custom_groups.is_none(),
            res.shard_threshold == 500,
    {
        let mut ignore_patterns: Vec<String> = Vec::new();
        ignore_patterns.push(String::from_str(".git/**"));
        ignore_patterns.push(String::from_str("node_modules/**"));
        ignore_patterns.push(String::from_str("target/**"));
        ignore_patterns.push(String::from_str("__pycache__/**"));
        ignore_patterns.push(String::from_str("*.pyc"));
        ignore_patterns.push(String::from_str(".DS_Store"));
        ignore_patterns.push(String::from_str("*.lock"));
        ignore_patterns.push(String::from_str("dist/**"));
        ignore_patterns.push(String::from_str("build/**"));
        assert(ignore_patterns@.map_values(|p: String| p@) =~= default_ignore_patterns());
        CompilerConfig {
            root: String::from_str("."),
            repo: None,
            branch: None,
            max_hot_files: 15,
            max_hot_file_size: 2048,
            summary_threshold: 20480,
            token_budget: 100_000,
            ignore_patterns,
            custom_groups: None,
            shard_threshold: 500,
        }
    }
}

} // verus!
