//! Partitioning: classify every scanned file, assign it a group and a load
//! policy, and choose which files are hot and how their payload is made.
use vstd::prelude::*;
use vstd::utf8::is_ascii_chars;
use crate::classifier::{
    classify, classify_spec, generate_hint, hint_spec,
    is_entry_point, is_entry_point_spec, entry_point_names, ascii_file_name, lemma_path_parts_ascii,
};
use crate::scanner::ScannedFile;
use crate::text::{
    chars_of, clone_strings, dec, file_name, file_name_of, has_prefix, push_dec, push_str,
    starts_with_str, string_from, string_views, to_lowercase, unicode_lowercase,
};
use crate::types::{CompilerConfig, Group, GroupConfig, HotStrategy, LoadWhen, Resource, ResourceType};

verus! {

// ─── Glob matching (the `glob` crate) ──────────────────────────

/// Whether `glob::Pattern::new` accepts the pattern.
pub uninterp spec fn glob_pattern_valid(pattern: Seq<char>) -> bool;

/// Whether the compiled pattern matches the text (`glob::Pattern::matches`,
/// default options: case sensitive, `*` also matches `/`).
pub uninterp spec fn glob_pattern_matches(pattern: Seq<char>, text: Seq<char>) -> bool;

/// A pattern of plain characters: no metacharacter and no path separator.
pub open spec fn is_literal_glob(p: Seq<char>) -> bool {
    forall|i: int|
        0 <= i < p.len() ==> p[i] != '*' && p[i] != '?' && p[i] != '[' && p[i] != '/' && p[i]
            != '\\'
}

/// Compiles `pattern` with `glob::Pattern::new` and, when it compiles, tests
/// `text` with `Pattern::matches`.  `None` when the pattern is refused.
/// Beyond the two names, the contract states what the crate's source shows
/// directly: `*` compiles to a single any-sequence token that matches every
/// text, and a pattern of plain characters compiles to character tokens that
/// match exactly the equal text.
#[verifier::external_body]
pub(crate) fn glob_match(pattern: &str, text: &str) -> (res: Option<bool>)
    ensures
        res.is_some() == glob_pattern_valid(pattern@),
        res matches Some(m) ==> m == glob_pattern_matches(pattern@, text@),
        pattern@ == seq!['*'] ==> res == Some(true),
        is_literal_glob(pattern@) ==> res == Some(text@ == pattern@),
{
    match glob::Pattern::new(pattern) {
        Ok(matcher) => Some(matcher.matches(text)),
        Err(_) => None,
    }
}

// ─── Groups ────────────────────────────────────────────────────

/// A group as plain values: id, label, patterns.
pub open spec fn group_view(g: Group) -> (Seq<char>, Seq<char>, Seq<Seq<char>>) {
    (g.id@, g.label@, string_views(g.patterns@))
}

pub open spec fn groups_view(gs: Seq<Group>) -> Seq<(Seq<char>, Seq<char>, Seq<Seq<char>>)> {
    gs.map_values(|g: Group| group_view(g))
}

/// Default group definitions for when no custom groups are provided.
pub open spec fn default_group_table() -> Seq<(Seq<char>, Seq<char>, Seq<Seq<char>>)> {
    seq![
        ("G1"@, "core"@, seq!["src/lib/**"@, "src/core/**"@]),
        ("G2"@, "api"@, seq!["src/api/**"@, "src/routes/**"@, "src/handlers/**"@]),
        ("G3"@, "cfg"@, seq!["*.toml"@, "*.yaml"@, "*.yml"@, "*.json"@]),
        ("G4"@, "test"@, seq!["tests/**"@, "test/**"@, "__tests__/**"@]),
        ("G5"@, "doc"@, seq!["docs/**"@, "*.md"@]),
        ("G6"@, "ui"@, seq!["src/ui/**"@, "src/components/**"@, "src/pages/**"@]),
        ("G7"@, "build"@, seq!["Cargo.*"@, "Makefile"@, "Dockerfile"@, "package.json"@]),
        ("G8"@, "other"@, seq!["*"@]),
    ]
}

/// Custom groups are numbered `G1`, `G2`, ... in the order given.
pub open spec fn custom_group_table(cs: Seq<GroupConfig>) -> Seq<(Seq<char>, Seq<char>, Seq<Seq<char>>)> {
    Seq::new(
        cs.len(),
        |i: int| ("G"@ + dec((i + 1) as nat), cs[i].label@, string_views(cs[i].patterns@)),
    )
}

pub open spec fn groups_for(config: CompilerConfig) -> Seq<(Seq<char>, Seq<char>, Seq<Seq<char>>)> {
    match config.custom_groups {
        Some(cs) => custom_group_table(cs@),
        None => default_group_table(),
    }
}

/// Some pattern of the list compiles and matches the path.
pub open spec fn some_pattern_matches(path: Seq<char>, patterns: Seq<Seq<char>>) -> bool {
    exists|k: int|
        0 <= k < patterns.len() && glob_pattern_valid(patterns[k]) && glob_pattern_matches(
            patterns[k],
            path,
        )
}

/// The id of the first group with a matching pattern, or `-`.
pub open spec fn group_of(path: Seq<char>, gs: Seq<(Seq<char>, Seq<char>, Seq<Seq<char>>)>) -> Seq<char>
    decreases gs.len(),
{
    if gs.len() == 0 {
        "-"@
    } else if some_pattern_matches(path, gs[0].2) {
        gs[0].0
    } else {
        group_of(path, gs.drop_first())
    }
}

fn make_group(id: &str, label: &str, patterns: &[&str]) -> (res: Group)
    ensures
        group_view(res) == (id@, label@, patterns@.map_values(|p: &str| p@)),
{
    let mut pats: Vec<String> = Vec::new();
    let mut i: usize = 0;
    while i < patterns.len()
        invariant
            i <= patterns.len(),
            string_views(pats@) == patterns@.take(i as int).map_values(|p: &str| p@),
        decreases patterns.len() - i,
    {
        let ps = String::from_str(patterns[i]);
        let ghost before = pats@;
        pats.push(ps);
        assert(string_views(pats@) =~= string_views(before).push(patterns@[i as int]@));
        assert(patterns@.take(i + 1).map_values(|p: &str| p@) =~= patterns@.take(i as int).map_values(
            |p: &str| p@,
        ).push(patterns@[i as int]@));
        i += 1;
    }
    assert(patterns@.take(patterns.len() as int) =~= patterns@);
    Group { id: String::from_str(id), label: String::from_str(label), patterns: pats }
}

/// Default group definitions for when no custom groups are provided.
pub fn default_groups() -> (res: Vec<Group>)
    ensures
        groups_view(res@) == default_group_table(),
{
    let ghost t = default_group_table();
    let g1 = make_group("G1", "core", &["src/lib/**", "src/core/**"]);
    assert(group_view(g1) =~= t[0]);
    let g2 = make_group("G2", "api", &["src/api/**", "src/routes/**", "src/handlers/**"]);
    assert(group_view(g2) =~= t[1]);
    let g3 = make_group("G3", "cfg", &["*.toml", "*.yaml", "*.yml", "*.json"]);
    assert(group_view(g3) =~= t[2]);
    let g4 = make_group("G4", "test", &["tests/**", "test/**", "__tests__/**"]);
    assert(group_view(g4) =~= t[3]);
    let g5 = make_group("G5", "doc", &["docs/**", "*.md"]);
    assert(group_view(g5) =~= t[4]);
    let g6 = make_group("G6", "ui", &["src/ui/**", "src/components/**", "src/pages/**"]);
    assert(group_view(g6) =~= t[5]);
    let g7 = make_group("G7", "build", &["Cargo.*", "Makefile", "Dockerfile", "package.json"]);
    assert(group_view(g7) =~= t[6]);
    let g8 = make_group("G8", "other", &["*"]);
    assert(group_view(g8) =~= t[7]);
    let gs: Vec<Group> = vec![g1, g2, g3, g4, g5, g6, g7, g8];
    assert(groups_view(gs@) =~= default_group_table());
    gs
}

/// The groups of a configuration: its custom groups numbered in order, or the
/// default groups.
pub fn groups_of_config(config: &CompilerConfig) -> (res: Vec<Group>)
    ensures
        groups_view(res@) == groups_for(*config),
{
    match &config.custom_groups {
        Some(custom) => {
            let mut gs: Vec<Group> = Vec::new();
            let mut i: usize = 0;
            while i < custom.len()
                invariant
                    i <= custom.len(),
                    groups_view(gs@) == custom_group_table(custom@).take(i as int),
                decreases custom.len() - i,
            {
                let mut id: Vec<char> = Vec::new();
                id.push('G');
                push_dec(&mut id, i as u64 + 1);
                let g = Group {
                    id: string_from(&id),
                    label: custom[i].label.clone(),
                    patterns: clone_strings(&custom[i].patterns),
                };
                proof {
                    assert(seq!['G'] =~= "G"@) by {
                        reveal_strlit("G");
                    }
                    assert(group_view(g) == custom_group_table(custom@)[i as int]);
                }
                let ghost before = gs@;
                gs.push(g);
                assert(groups_view(gs@) =~= groups_view(before).push(group_view(g)));
                assert(custom_group_table(custom@).take(i + 1) =~= custom_group_table(custom@).take(
                    i as int,
                ).push(custom_group_table(custom@)[i as int]));
                i += 1;
            }
            assert(custom_group_table(custom@).take(custom.len() as int) =~= custom_group_table(custom@));
            gs
        },
        None => default_groups(),
    }
}

/// Whether some pattern in the list compiles and matches.
fn matches_any(path: &str, patterns: &Vec<String>) -> (res: bool)
    ensures
        res == some_pattern_matches(path@, string_views(patterns@)),
        string_views(patterns@).contains(seq!['*']) ==> res,
{
    let ghost ps = string_views(patterns@);
    let mut k: usize = 0;
    while k < patterns.len()
        invariant
            k <= patterns.len(),
            ps == string_views(patterns@),
            forall|j: int| 0 <= j < k ==> ps[j] != seq!['*'],
            forall|j: int|
                0 <= j < k ==> !(glob_pattern_valid(ps[j]) && glob_pattern_matches(ps[j], path@)),
        decreases patterns.len() - k,
    {
        match glob_match(patterns[k].as_str(), path) {
            Some(m) => {
                if m {
                    assert(ps[k as int] == patterns@[k as int]@);
                    return true;
                }
            },
            None => {},
        }
        k += 1;
    }
    false
}

/// Some group has the catch-all pattern `*`.
pub open spec fn has_catch_all(gs: Seq<(Seq<char>, Seq<char>, Seq<Seq<char>>)>) -> bool {
    exists|i: int| 0 <= i < gs.len() && gs[i].2.contains(seq!['*'])
}

/// Assign a file to a group based on glob pattern matching.  Where some
/// group has the pattern `*`, every file gets a group.
pub fn assign_group(path: &str, groups: &Vec<Group>) -> (res: String)
    ensures
        res@ == group_of(path@, groups_view(groups@)),
        has_catch_all(groups_view(groups@)) ==> exists|i: int|
            0 <= i < groups.len() && res@ == groups@[i].id@,
{
    let ghost gv = groups_view(groups@);
    let mut i: usize = 0;
    assert(gv.subrange(0, gv.len() as int) =~= gv);
    while i < groups.len()
        invariant
            i <= groups.len(),
            gv == groups_view(groups@),
            forall|j: int| 0 <= j < i ==> !gv[j].2.contains(seq!['*']),
            group_of(path@, gv) == group_of(path@, gv.subrange(i as int, gv.len() as int)),
        decreases groups.len() - i,
    {
        let ghost rest = gv.subrange(i as int, gv.len() as int);
        assert(rest.drop_first() =~= gv.subrange(i + 1, gv.len() as int));
        if matches_any(path, &groups[i].patterns) {
            let id = groups[i].id.clone();
            assert(id@ == groups@[i as int].id@);
            return id;
        }
        assert(!gv[i as int].2.contains(seq!['*']));
        i += 1;
    }
    assert(gv.subrange(i as int, gv.len() as int) =~= Seq::<(Seq<char>, Seq<char>, Seq<Seq<char>>)>::empty());
    String::from_str("-")
}

// ─── Load policy and hot strategy ──────────────────────────────

pub open spec fn load_when_spec(t: ResourceType, path: Seq<char>, size: u64) -> LoadWhen {
    load_when_named(t, size, unicode_lowercase(file_name(path)))
}

/// The load policy of a file, given its lowercased file name.
pub open spec fn load_when_named(t: ResourceType, size: u64, filename: Seq<char>) -> LoadWhen {
    if t == ResourceType::BIN {
        LoadWhen::Never
    } else if size > 50_000 {
        LoadWhen::OnRequest
    } else {
        match t {
            ResourceType::CFG => if size < 4096 {
                LoadWhen::Always
            } else {
                LoadWhen::OnRequest
            },
            ResourceType::SRC => if entry_point_names().contains(filename) {
                LoadWhen::OnEdit
            } else {
                LoadWhen::OnRequest
            },
            ResourceType::DOC => if has_prefix(filename, "readme"@) {
                LoadWhen::Always
            } else {
                LoadWhen::OnRequest
            },
            ResourceType::META => LoadWhen::OnGroup,
            _ => LoadWhen::OnRequest,
        }
    }
}

/// Decide the LoadWhen policy for a resource.
pub fn decide_load_when(resource_type: &ResourceType, path: &str, size: u64) -> (res: LoadWhen)
    ensures
        res == load_when_spec(*resource_type, path@, size),
        is_ascii_chars(path@) ==> res == load_when_named(*resource_type, size, ascii_file_name(path@)),
{
    proof {
        lemma_path_parts_ascii(path@);
    }
    // Binaries are never loaded into context
    if *resource_type == ResourceType::BIN {
        return LoadWhen::Never;
    }
    // Very large files default to on_request
    if size > 50_000 {
        return LoadWhen::OnRequest;
    }
    match resource_type {
        ResourceType::CFG => {
            // Small configs are always hot
            if size < 4096 {
                LoadWhen::Always
            } else {
                LoadWhen::OnRequest
            }
        },
        ResourceType::SRC => {
            if is_entry_point(path) {
                LoadWhen::OnEdit
            } else {
                LoadWhen::OnRequest
            }
        },
        ResourceType::DOC => {
            let pc = chars_of(path);
            let name_raw = string_from(&file_name_of(&pc));
            let filename = to_lowercase(name_raw.as_str());
            let f = chars_of(filename.as_str());
            if starts_with_str(&f, "readme") {
                LoadWhen::Always
            } else {
                LoadWhen::OnRequest
            }
        },
        ResourceType::TEST => LoadWhen::OnRequest,
        ResourceType::MRM => LoadWhen::OnRequest,
        ResourceType::META => LoadWhen::OnGroup,
        _ => LoadWhen::OnRequest,
    }
}

pub open spec fn hot_strategy_spec(t: ResourceType, size: u64, config: CompilerConfig) -> HotStrategy {
    if size <= config.max_hot_file_size {
        HotStrategy::Full
    } else {
        match t {
            ResourceType::SRC => if size <= config.summary_threshold {
                HotStrategy::Signature
            } else {
                HotStrategy::Head(50)
            },
            ResourceType::DOC => if size <= config.summary_threshold {
                HotStrategy::Summary
            } else {
                HotStrategy::Head(100)
            },
            _ => HotStrategy::Head(30),
        }
    }
}

/// Decide the hot payload strategy for a resource.
pub fn decide_hot_strategy(resource_type: &ResourceType, size: u64, config: &CompilerConfig) -> (res: HotStrategy)
    ensures
        res == hot_strategy_spec(*resource_type, size, *config),
{
    if size <= config.max_hot_file_size {
        return HotStrategy::Full;
    }
    match resource_type {
        ResourceType::SRC => {
            if size <= config.summary_threshold {
                HotStrategy::Signature
            } else {
                HotStrategy::Head(50)  // first 50 lines
            }
        },
        ResourceType::DOC => {
            // Up to the summary threshold a document is summarized; above it,
            // only its head is kept
            if size <= config.summary_threshold {
                HotStrategy::Summary
            } else {
                HotStrategy::Head(100)
            }
        },
        _ => HotStrategy::Head(30),
    }
}


// ─── Partitioning ──────────────────────────────────────────────

/// Result of partitioning: classified resources with group assignments and hot/cold decisions.
pub struct PartitionResult {
    pub groups: Vec<Group>,
    pub resources: Vec<Resource>,
    pub hot_ids: Vec<String>,  // ResourceIDs that should be in @M
    pub hot_strategies: Vec<(String, HotStrategy)>,  // ResourceID -> strategy
}

/// The id of the `i`-th resource: `F1`, `F2`, ...
pub open spec fn resource_id(i: int) -> Seq<char> {
    "F"@ + dec((i + 1) as nat)
}

/// What the `i`-th resource records of the `i`-th scanned file.
pub open spec fn resource_of(
    r: Resource,
    f: ScannedFile,
    i: int,
    gs: Seq<(Seq<char>, Seq<char>, Seq<Seq<char>>)>,
) -> bool {
    &&& r.id@ == resource_id(i)
    &&& r.resource_type == classify_spec(f.path@)
    &&& r.load_when == load_when_spec(r.resource_type, f.path@, f.size)
    &&& r.path@ == f.path@
    &&& r.size == f.size
    &&& r.hash@ == f.hash@
    &&& r.group_id@ == group_of(f.path@, gs)
    &&& r.hint@ == hint_spec(f.path@, r.resource_type)
}

/// Hot candidates are the resources loaded always or on edit.
pub open spec fn is_hot_candidate(r: Resource) -> bool {
    r.load_when == LoadWhen::Always || r.load_when == LoadWhen::OnEdit
}

pub open spec fn hot_priority(l: LoadWhen) -> int {
    match l {
        LoadWhen::Always => 0,
        LoadWhen::OnEdit => 1,
        _ => 2,
    }
}

/// The hot order: `always` before `on_edit`, then smaller files first, then
/// the order of the listing.
pub open spec fn hot_before(rs: Seq<Resource>, a: int, b: int) -> bool {
    let pa = hot_priority(rs[a].load_when);
    let pb = hot_priority(rs[b].load_when);
    ||| pa < pb
    ||| pa == pb && rs[a].size < rs[b].size
    ||| pa == pb && rs[a].size == rs[b].size && a < b
}

/// `h` lists the hot resources: candidates in the hot order, at most `max`
/// of them, all candidates when fewer than `max`, and every candidate left
/// out comes after every one chosen.
pub open spec fn is_hot_selection(rs: Seq<Resource>, max: nat, h: Seq<usize>) -> bool {
    &&& h.len() <= max
    &&& forall|k: int| 0 <= k < h.len() ==> #[trigger] h[k] < rs.len() && is_hot_candidate(rs[h[k] as int])
    &&& forall|k: int, l: int| 0 <= k < l < h.len() ==> hot_before(rs, h[k] as int, h[l] as int)
    &&& forall|c: int|
        0 <= c < rs.len() && is_hot_candidate(#[trigger] rs[c]) && !h.contains(c as usize) ==> {
            &&& h.len() == max
            &&& forall|k: int| 0 <= k < h.len() ==> hot_before(rs, h[k] as int, c)
        }
}

/// The hot lists name the resources of `h`, with their hot strategies.
pub open spec fn hot_lists(p: PartitionResult, h: Seq<usize>, config: CompilerConfig) -> bool {
    &&& p.hot_ids.len() == h.len()
    &&& p.hot_strategies.len() == h.len()
    &&& forall|k: int| 0 <= k < h.len() ==> {
        let r = #[trigger] p.resources@[h[k] as int];
        &&& p.hot_ids@[k]@ == r.id@
        &&& p.hot_strategies@[k].0@ == r.id@
        &&& p.hot_strategies@[k].1 == hot_strategy_spec(r.resource_type, r.size, config)
    }
}

/// What partitioning makes of a listing: the configured groups, one
/// resource per file in the same order, and the hot selection.
pub open spec fn is_partition_of(p: PartitionResult, files: Seq<ScannedFile>, config: CompilerConfig) -> bool {
    &&& groups_view(p.groups@) == groups_for(config)
    &&& p.resources.len() == files.len()
    &&& forall|i: int|
        0 <= i < files.len() ==> resource_of(#[trigger] p.resources@[i], files[i], i, groups_for(config))
    &&& exists|h: Seq<usize>|
        is_hot_selection(p.resources@, config.max_hot_files as nat, h) && hot_lists(p, h, config)
}

fn hot_before_exec(rs: &Vec<Resource>, a: usize, b: usize) -> (res: bool)
    requires
        a < rs.len(),
        b < rs.len(),
    ensures
        res == hot_before(rs@, a as int, b as int),
{
    let pa: u8 = match rs[a].load_when {
        LoadWhen::Always => 0,
        LoadWhen::OnEdit => 1,
        _ => 2,
    };
    let pb: u8 = match rs[b].load_when {
        LoadWhen::Always => 0,
        LoadWhen::OnEdit => 1,
        _ => 2,
    };
    pa < pb || (pa == pb && rs[a].size < rs[b].size) || (pa == pb && rs[a].size == rs[b].size
        && a < b)
}

fn is_candidate_exec(r: &Resource) -> (res: bool)
    ensures
        res == is_hot_candidate(*r),
{
    match r.load_when {
        LoadWhen::Always => true,
        LoadWhen::OnEdit => true,
        _ => false,
    }
}

/// Chooses the hot resources (see `is_hot_selection`).
pub fn select_hot(rs: &Vec<Resource>, max: usize) -> (res: Vec<usize>)
    ensures
        is_hot_selection(rs@, max as nat, res@),
{
    let mut chosen: Vec<usize> = Vec::new();
    loop
        invariant
            chosen.len() <= max,
            forall|k: int| 0 <= k < chosen.len() ==> #[trigger] chosen@[k] < rs.len() && is_hot_candidate(rs@[chosen@[k] as int]),
            forall|k: int, l: int| 0 <= k < l < chosen.len() ==> hot_before(rs@, chosen@[k] as int, chosen@[l] as int),
            forall|c: int|
                0 <= c < rs.len() && is_hot_candidate(#[trigger] rs@[c]) && !chosen@.contains(c as usize)
                    ==> forall|k: int| 0 <= k < chosen.len() ==> hot_before(rs@, chosen@[k] as int, c),
        ensures
            is_hot_selection(rs@, max as nat, chosen@),
        decreases max - chosen.len(),
    {
        if chosen.len() >= max {
            assert(is_hot_selection(rs@, max as nat, chosen@));
            break;
        }
        let mut best: Option<usize> = None;
        let mut i: usize = 0;
        while i < rs.len()
            invariant
                i <= rs.len(),
                chosen.len() < max,
                forall|k: int| 0 <= k < chosen.len() ==> #[trigger] chosen@[k] < rs.len(),
                match best {
                    Some(b) => b < i && is_hot_candidate(rs@[b as int]) && (chosen.len() == 0
                        || hot_before(rs@, chosen@.last() as int, b as int)) && forall|j: int|
                        0 <= j < i && is_hot_candidate(#[trigger] rs@[j]) && (chosen.len() == 0
                            || hot_before(rs@, chosen@.last() as int, j)) ==> j == b || hot_before(
                            rs@,
                            b as int,
                            j,
                        ),
                    None => forall|j: int|
                        0 <= j < i && is_hot_candidate(#[trigger] rs@[j]) ==> !(chosen.len() == 0
                            || hot_before(rs@, chosen@.last() as int, j)),
                },
            decreases rs.len() - i,
        {
            if is_candidate_exec(&rs[i]) && (chosen.len() == 0 || hot_before_exec(
                rs,
                chosen[chosen.len() - 1],
                i,
            )) {
                match best {
                    None => {
                        best = Some(i);
                    },
                    Some(b) => {
                        if hot_before_exec(rs, i, b) {
                            best = Some(i);
                        }
                    },
                }
            }
            i += 1;
        }
        match best {
            None => {
                proof {
                    assert forall|c: int|
                        0 <= c < rs.len() && is_hot_candidate(#[trigger] rs@[c]) && !chosen@.contains(
                            c as usize,
                        ) implies chosen.len() == max as nat by {
                        if chosen.len() > 0 {
                            assert(hot_before(rs@, chosen@[chosen.len() - 1] as int, c));
                        }
                    }
                    assert(is_hot_selection(rs@, max as nat, chosen@));
                }
                break;
            },
            Some(b) => {
                let ghost before = chosen@;
                chosen.push(b);
                proof {
                    assert forall|c: int|
                        0 <= c < rs.len() && is_hot_candidate(#[trigger] rs@[c]) && !chosen@.contains(
                            c as usize,
                        ) implies forall|k: int| 0 <= k < chosen.len() ==> hot_before(rs@, chosen@[k] as int, c) by {
                        assert(!before.contains(c as usize)) by {
                            if before.contains(c as usize) {
                                let k = choose|k: int| 0 <= k < before.len() && before[k] == c as usize;
                                assert(chosen@[k] == c as usize);
                            }
                        }
                        assert(c != b as int) by {
                            assert(chosen@[before.len() as int] == b);
                        }
                        if before.len() > 0 {
                            assert(hot_before(rs@, before.last() as int, c));
                        }
                        assert forall|k: int| 0 <= k < chosen.len() implies hot_before(rs@, chosen@[k] as int, c) by {
                            if k == before.len() {
                            } else {
                                assert(chosen@[k] == before[k]);
                            }
                        }
                    }
                    assert forall|k: int, l: int| 0 <= k < l < chosen.len() implies hot_before(rs@, chosen@[k] as int, chosen@[l] as int) by {
                        if l == before.len() {
                            if before.len() > 0 && k < before.len() - 1 {
                                assert(hot_before(rs@, before[k] as int, before.last() as int));
                            }
                        }
                    }
                }
            },
        }
    }
    chosen
}

/// Main partitioning pipeline: classify, group, and decide hot/cold for all scanned files.
pub fn partition(files: &Vec<ScannedFile>, config: &CompilerConfig) -> (res: PartitionResult)
    ensures
        is_partition_of(res, files@, *config),
        config.custom_groups is None ==> forall|i: int|
            0 <= i < files.len() ==> (#[trigger] res.resources@[i]).group_id@ != "-"@,
{
    let groups = groups_of_config(config);
    proof {
        if config.custom_groups is None {
            reveal_strlit("*");
            reveal_strlit("-");
            reveal_strlit("G1");
            reveal_strlit("G2");
            reveal_strlit("G3");
            reveal_strlit("G4");
            reveal_strlit("G5");
            reveal_strlit("G6");
            reveal_strlit("G7");
            reveal_strlit("G8");
            assert(groups_view(groups@)[7].2[0] == seq!['*']);
            assert(has_catch_all(groups_view(groups@)));
            assert forall|j: int| 0 <= j < groups.len() implies groups@[j].id@ != "-"@ by {
                assert(groups_view(groups@)[j] == group_view(groups@[j]));
                assert(groups@[j].id@ == default_group_table()[j].0);
                assert(0 <= j < 8);
                assert(default_group_table()[j].0[0] == 'G');
                assert("-"@[0] == '-');
            }
        }
    }
    let mut resources: Vec<Resource> = Vec::new();
    let mut i: usize = 0;
    while i < files.len()
        invariant
            i <= files.len(),
            groups_view(groups@) == groups_for(*config),
            resources.len() == i,
            forall|j: int|
                0 <= j < i ==> resource_of(#[trigger] resources@[j], files@[j], j, groups_for(*config)),
            config.custom_groups is None ==> has_catch_all(groups_view(groups@)) && forall|j: int|
                0 <= j < groups.len() ==> groups@[j].id@ != "-"@,
            config.custom_groups is None ==> forall|j: int|
                0 <= j < i ==> (#[trigger] resources@[j]).group_id@ != "-"@,
        decreases files.len() - i,
    {
        let file = &files[i];
        let resource_type = classify(file.path.as_str());
        let load_when = decide_load_when(&resource_type, file.path.as_str(), file.size);
        let group_id = assign_group(file.path.as_str(), &groups);
        let hint = generate_hint(file.path.as_str(), &resource_type);
        let mut id: Vec<char> = Vec::new();
        id.push('F');
        push_dec(&mut id, i as u64 + 1);
        proof {
            assert(seq!['F'] =~= "F"@) by {
                reveal_strlit("F");
            }
        }
        let resource = Resource {
            id: string_from(&id),
            resource_type,
            load_when,
            path: file.path.clone(),
            size: file.size,
            hash: file.hash.clone(),
            group_id,
            hint,
        };
        resources.push(resource);
        i += 1;
    }
    let chosen = select_hot(&resources, config.max_hot_files);
    let mut hot_ids: Vec<String> = Vec::new();
    let mut hot_strategies: Vec<(String, HotStrategy)> = Vec::new();
    let mut k: usize = 0;
    while k < chosen.len()
        invariant
            k <= chosen.len(),
            is_hot_selection(resources@, config.max_hot_files as nat, chosen@),
            config.custom_groups is None ==> forall|j: int|
                0 <= j < resources.len() ==> (#[trigger] resources@[j]).group_id@ != "-"@,
            hot_ids.len() == k,
            hot_strategies.len() == k,
            forall|j: int| 0 <= j < k ==> {
                let r = #[trigger] resources@[chosen@[j] as int];
                &&& hot_ids@[j]@ == r.id@
                &&& hot_strategies@[j].0@ == r.id@
                &&& hot_strategies@[j].1 == hot_strategy_spec(r.resource_type, r.size, *config)
            },
        decreases chosen.len() - k,
    {
        let r = &resources[chosen[k]];
        let strategy = decide_hot_strategy(&r.resource_type, r.size, config);
        hot_ids.push(r.id.clone());
        hot_strategies.push((r.id.clone(), strategy));
        k += 1;
    }
    let res = PartitionResult { groups, resources, hot_ids, hot_strategies };
    assert(hot_lists(res, chosen@, *config));
    res
}

// ─── Laws of the grouping ──────────────────────────────────────

proof fn lemma_group_of_is_listed(path: Seq<char>, gs: Seq<(Seq<char>, Seq<char>, Seq<Seq<char>>)>)
    ensures
        group_of(path, gs) == "-"@ || exists|k: int| 0 <= k < gs.len() && group_of(path, gs) == gs[k].0,
    decreases gs.len(),
{
    if gs.len() > 0 && !some_pattern_matches(path, gs[0].2) {
        lemma_group_of_is_listed(path, gs.drop_first());
        if group_of(path, gs) != "-"@ {
            let k = choose|k: int| 0 <= k < gs.len() - 1 && group_of(path, gs) == gs.drop_first()[k].0;
            assert(gs[k + 1].0 == gs.drop_first()[k].0);
        }
    } else if gs.len() > 0 {
        assert(group_of(path, gs) == gs[0].0);
    }
}

/// The group of every resource is one of the groups of the partition, or `-`.
pub proof fn resource_groups_are_listed(p: PartitionResult, files: Seq<ScannedFile>, config: CompilerConfig, i: int)
    requires
        is_partition_of(p, files, config),
        0 <= i < files.len(),
    ensures
        p.resources@[i].group_id@ == "-"@ || exists|k: int|
            0 <= k < p.groups.len() && p.resources@[i].group_id@ == p.groups@[k].id@,
{
    let gs = groups_for(config);
    assert(resource_of(p.resources@[i], files[i], i, gs));
    lemma_group_of_is_listed(files[i].path@, gs);
    if p.resources@[i].group_id@ != "-"@ {
        let k = choose|k: int| 0 <= k < gs.len() && group_of(files[i].path@, gs) == gs[k].0;
        assert(groups_view(p.groups@)[k] == group_view(p.groups@[k]));
    }
}

// ─── Laws of the hot selection ─────────────────────────────────

proof fn lemma_first_difference(rs: Seq<Resource>, max: nat, h1: Seq<usize>, h2: Seq<usize>, k: int)
    requires
        is_hot_selection(rs, max, h1),
        is_hot_selection(rs, max, h2),
        0 <= k < h1.len(),
        k < h2.len(),
        forall|j: int| 0 <= j < k ==> h1[j] == h2[j],
    ensures
        !hot_before(rs, h1[k] as int, h2[k] as int),
{
    let x = h1[k];
    if !hot_before(rs, h1[k] as int, h2[k] as int) {
        return;
    }
    assert(h1[k] < rs.len());
    assert(h2[k] < rs.len());
    if h2.contains(x) {
        let j = choose|j: int| 0 <= j < h2.len() && h2[j] == x;
        if j < k {
            assert(h1[j] == x);
            assert(hot_before(rs, h1[j] as int, h1[k] as int));
        } else if j > k {
            assert(hot_before(rs, h2[k] as int, h2[j] as int));
        }
    } else {
        assert(is_hot_candidate(rs[x as int]));
        assert(hot_before(rs, h2[k] as int, x as int));
    }
}

proof fn lemma_prefix_equal(rs: Seq<Resource>, max: nat, h1: Seq<usize>, h2: Seq<usize>, k: int)
    requires
        is_hot_selection(rs, max, h1),
        is_hot_selection(rs, max, h2),
        0 <= k <= h1.len(),
        k <= h2.len(),
    ensures
        forall|j: int| 0 <= j < k ==> h1[j] == h2[j],
    decreases k,
{
    if k > 0 {
        lemma_prefix_equal(rs, max, h1, h2, k - 1);
        let a = h1[k - 1];
        let b = h2[k - 1];
        assert(a < rs.len() && b < rs.len()) by {
            assert(h1[k - 1] < rs.len());
            assert(h2[k - 1] < rs.len());
        }
        if a != b {
            if hot_before(rs, a as int, b as int) {
                lemma_first_difference(rs, max, h1, h2, k - 1);
            } else {
                assert(hot_before(rs, b as int, a as int));
                lemma_first_difference(rs, max, h2, h1, k - 1);
            }
        }
    }
}

proof fn lemma_not_longer(rs: Seq<Resource>, max: nat, h1: Seq<usize>, h2: Seq<usize>)
    requires
        is_hot_selection(rs, max, h1),
        is_hot_selection(rs, max, h2),
        forall|j: int| 0 <= j < h2.len() && j < h1.len() ==> h1[j] == h2[j],
    ensures
        h1.len() <= h2.len(),
{
    if h1.len() > h2.len() {
        let n = h2.len() as int;
        let x = h1[n];
        assert(h1[n] < rs.len());
        if h2.contains(x) {
            let j = choose|j: int| 0 <= j < h2.len() && h2[j] == x;
            assert(h1[j] == x);
            assert(hot_before(rs, h1[j] as int, h1[n] as int));
        } else {
            assert(is_hot_candidate(rs[x as int]));
        }
    }
}

/// The hot selection is determined by the resources and the limit: any two
/// lists that both satisfy `is_hot_selection` are the same list.
pub proof fn hot_selection_is_unique(rs: Seq<Resource>, max: nat, h1: Seq<usize>, h2: Seq<usize>)
    requires
        is_hot_selection(rs, max, h1),
        is_hot_selection(rs, max, h2),
    ensures
        h1 == h2,
{
    let m = if h1.len() < h2.len() { h1.len() } else { h2.len() };
    lemma_prefix_equal(rs, max, h1, h2, m as int);
    lemma_not_longer(rs, max, h1, h2);
    lemma_not_longer(rs, max, h2, h1);
    assert(h1 =~= h2);
}

/// In the hot list every `always` resource comes before every `on_edit` one.
pub proof fn hot_selection_puts_always_first(rs: Seq<Resource>, max: nat, h: Seq<usize>, k: int, l: int)
    requires
        is_hot_selection(rs, max, h),
        0 <= k < h.len(),
        0 <= l < h.len(),
        rs[h[k] as int].load_when == LoadWhen::Always,
        rs[h[l] as int].load_when == LoadWhen::OnEdit,
    ensures
        k < l,
{
    if l < k {
        assert(hot_before(rs, h[l] as int, h[k] as int));
    }
}


/// At most `max_hot_files` resources are hot, and every hot id names a
/// resource that is loaded always or on edit.
pub proof fn hot_resources_are_few_and_eager(p: PartitionResult, files: Seq<ScannedFile>, config: CompilerConfig, k: int)
    requires
        is_partition_of(p, files, config),
        0 <= k < p.hot_ids.len(),
    ensures
        p.hot_ids.len() <= config.max_hot_files,
        exists|i: int|
            0 <= i < p.resources.len() && p.resources@[i].id@ == p.hot_ids@[k]@ && is_hot_candidate(
                #[trigger] p.resources@[i],
            ),
{
    let h = choose|h: Seq<usize>|
        is_hot_selection(p.resources@, config.max_hot_files as nat, h) && hot_lists(p, h, config);
    assert(h[k] < p.resources@.len() && is_hot_candidate(p.resources@[h[k] as int]));
    assert(p.resources@[h[k] as int].id@ == p.hot_ids@[k]@);
}


/// Binaries are never loaded, so a binary is never hot.
pub proof fn binaries_are_never_hot(p: PartitionResult, files: Seq<ScannedFile>, config: CompilerConfig, h: Seq<usize>, k: int)
    requires
        is_partition_of(p, files, config),
        is_hot_selection(p.resources@, config.max_hot_files as nat, h),
        0 <= k < h.len(),
    ensures
        p.resources@[h[k] as int].resource_type != ResourceType::BIN,
{
    let i = h[k] as int;
    assert(h[k] < p.resources@.len());
    assert(resource_of(p.resources@[i], files[i], i, groups_for(config)));
}

/// The `i`-th resource is named `F` followed by `i + 1`, so ids are distinct.
pub proof fn resource_ids_are_distinct(p: PartitionResult, files: Seq<ScannedFile>, config: CompilerConfig, i: int, j: int)
    requires
        is_partition_of(p, files, config),
        0 <= i < j < files.len(),
    ensures
        p.resources@[i].id@ != p.resources@[j].id@,
{
    assert(resource_of(p.resources@[i], files[i], i, groups_for(config)));
    assert(resource_of(p.resources@[j], files[j], j, groups_for(config)));
    lemma_dec_injective((i + 1) as nat, (j + 1) as nat);
    if p.resources@[i].id@ == p.resources@[j].id@ {
        let a = "F"@ + dec((i + 1) as nat);
        let b = "F"@ + dec((j + 1) as nat);
        assert(a.subrange(1, a.len() as int) =~= dec((i + 1) as nat)) by {
            reveal_strlit("F");
        }
        assert(b.subrange(1, b.len() as int) =~= dec((j + 1) as nat)) by {
            reveal_strlit("F");
        }
    }
}

proof fn lemma_dec_len(n: nat)
    ensures
        dec(n).len() >= 1,
    decreases n,
{
    if n >= 10 {
        lemma_dec_len(n / 10);
    }
}

/// Different numbers have different decimal representations.
pub proof fn lemma_dec_injective(a: nat, b: nat)
    requires
        a != b,
    ensures
        dec(a) != dec(b),
    decreases a + b,
{
    if a >= 10 && b >= 10 {
        if dec(a) == dec(b) {
            assert(dec(a).last() == dec(b).last());
            assert(dec(a).drop_last() =~= dec(a / 10));
            assert(dec(b).drop_last() =~= dec(b / 10));
            if a / 10 != b / 10 {
                lemma_dec_injective(a / 10, b / 10);
            } else {
                assert(a % 10 != b % 10);
                assert((a % 10 + 48) as u8 != (b % 10 + 48) as u8);
                let x = ((a % 10 + 48) as u8) as char;
                let y = ((b % 10 + 48) as u8) as char;
                assert(x as u32 == (a % 10 + 48) as u32);
                assert(y as u32 == (b % 10 + 48) as u32);
            }
        }
    } else if a >= 10 {
        lemma_dec_len(a / 10);
        assert(dec(a).len() >= 2);
    } else if b >= 10 {
        lemma_dec_len(b / 10);
        assert(dec(b).len() >= 2);
    } else {
        if dec(a) == dec(b) {
            assert(dec(a)[0] == dec(b)[0]);
            let x = ((a + 48) as u8) as char;
            let y = ((b + 48) as u8) as char;
            assert(x as u32 == (a + 48) as u32);
            assert(y as u32 == (b + 48) as u32);
        }
    }
}

} // verus!
