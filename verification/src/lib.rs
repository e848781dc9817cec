//! Compiler for AIMF (AI Minimal Format) navigation manifests: a project's
//! files are classified, grouped, given a load policy, and the most useful
//! ones are materialized as hot memory in a compact text document.
use vstd::prelude::*;

pub mod text;
pub mod types;
pub mod classifier;
pub mod scanner;
pub mod partitioner;
pub mod hot_strategy;
pub mod emitter;
pub mod session_miner;
pub mod laws;

use crate::emitter::{
    arch_text, delimit_escape, deps_body, deps_text, document_text, emit_architecture_summary,
    emit_at, emit_index, escape_payload, hot_entry_payload, hot_payload, index_text, is_clock_stamp,
    utc_timestamp,
};
use crate::partitioner::{is_partition_of, partition, PartitionResult};
use crate::scanner::ScannedFile;
use crate::text::{chars_of, has_suffix, push_str, string_from};
use crate::types::{AimfDocument, ColdBlock, CompilerConfig, Header, HotEntry, HotStrategy, Resource};

verus! {

// ─── The whole document ────────────────────────────────────────

/// Run the AIMF compilation pipeline on the scanned files of a project:
/// classify them, partition them, and emit the manifest, stamped with the
/// current time.  `None` where the system clock reads before the Unix epoch.
pub fn compile(config: &CompilerConfig, files: &Vec<ScannedFile>) -> (res: Option<String>)
    ensures
        res matches Some(t) ==> exists|p: PartitionResult, ts: Seq<char>|
            is_partition_of(p, files@, *config) && is_clock_stamp(ts) && has_suffix(ts, seq!['Z'])
                && t@ == document_text(*config, files@, p, ts),
{
    let p = partition(files, config);
    match utc_timestamp() {
        Some(ts) => {
            let text = emit_at(config, files, &p, ts.as_str());
            assert(is_partition_of(p, files@, *config) && is_clock_stamp(ts@) && has_suffix(ts@, seq!['Z']) && text@ == document_text(*config, files@, p, ts@));
            Some(text)
        },
        None => None,
    }
}

// ─── The structured document ───────────────────────────────────

pub open spec fn opt_string_view(o: Option<String>) -> Option<Seq<char>> {
    match o {
        Some(s) => Some(s@),
        None => None,
    }
}

pub open spec fn hot_entry_view(e: HotEntry) -> (Seq<char>, Seq<char>) {
    (e.key@, e.payload@)
}

/// The hot entries of the hot resources that were found, in order.
pub open spec fn resource_hot_entries(
    rs: Seq<Resource>,
    files: Seq<ScannedFile>,
    es: Seq<(String, HotStrategy)>,
) -> Seq<(Seq<char>, Seq<char>)>
    decreases es.len(),
{
    if es.len() == 0 {
        seq![]
    } else {
        let prev = resource_hot_entries(rs, files, es.drop_last());
        match hot_payload(rs, files, es.last()) {
            Some(pl) => prev.push((es.last().0@, delimit_escape(pl))),
            None => prev,
        }
    }
}

/// The document of a partition: its header, groups and resources, and the
/// hot entries `CTX`, `ARCH`, `DEPS` and those of the hot resources, each
/// payload escaped to stand between the delimiters; no cold blocks.
pub open spec fn is_document_of(
    d: AimfDocument,
    config: CompilerConfig,
    files: Seq<ScannedFile>,
    p: PartitionResult,
    ts: Seq<char>,
) -> bool {
    &&& d.header.version == 1
    &&& d.header.resource_count == p.resources.len()
    &&& d.header.hot_count == p.hot_ids.len()
    &&& d.header.group_count == p.groups.len()
    &&& opt_string_view(d.header.repo) == opt_string_view(config.repo)
    &&& opt_string_view(d.header.branch) == opt_string_view(config.branch)
    &&& d.header.commit is None
    &&& d.header.timestamp@ == ts
    &&& d.header.root@ == config.root@
    &&& opt_string_view(d.header.shard) == if p.resources.len() > config.shard_threshold {
        Some("1/1"@)
    } else {
        None
    }
    &&& d.groups@ == p.groups@
    &&& d.resources@ == p.resources@
    &&& d.hot_entries@.map_values(|e: HotEntry| hot_entry_view(e)) == seq![
        ("CTX"@, "task=initial compilation;focus=all"@),
        ("ARCH"@, delimit_escape(arch_text(p))),
        ("DEPS"@, delimit_escape(deps_text(p.resources@, files))),
    ] + resource_hot_entries(p.resources@, files, p.hot_strategies@)
    &&& d.cold_blocks.len() == 0
}

fn clone_opt(o: &Option<String>) -> (res: Option<String>)
    ensures
        opt_string_view(res) == opt_string_view(*o),
{
    match o {
        Some(s) => Some(s.clone()),
        None => None,
    }
}

fn hot_entry(key: &str, payload: Vec<char>) -> (res: HotEntry)
    ensures
        hot_entry_view(res) == (key@, payload@),
{
    HotEntry { key: String::from_str(key), payload: string_from(&payload) }
}

/// The document of a partition, for a given compilation timestamp.
pub fn document_at(config: &CompilerConfig, files: &Vec<ScannedFile>, p: PartitionResult, ts: String) -> (res: AimfDocument)
    ensures
        is_document_of(res, *config, files@, p, ts@),
{
    let mut entries: Vec<HotEntry> = Vec::new();
    entries.push(hot_entry("CTX", {
        let mut c: Vec<char> = Vec::new();
        push_str(&mut c, "task=initial compilation;focus=all");
        assert(c@ =~= "task=initial compilation;focus=all"@);
        c
    }));
    let mut arch: Vec<char> = Vec::new();
    emit_architecture_summary(&mut arch, &p);
    assert(arch@ =~= arch_text(p));
    entries.push(hot_entry("ARCH", escape_payload(&arch)));
    let deps = deps_body(&p, files);
    entries.push(hot_entry("DEPS", escape_payload(&deps)));
    let ghost base = entries@.map_values(|e: HotEntry| hot_entry_view(e));
    let ghost es = p.hot_strategies@;
    let mut i: usize = 0;
    while i < p.hot_strategies.len()
        invariant
            i <= p.hot_strategies.len(),
            es == p.hot_strategies@,
            entries@.map_values(|e: HotEntry| hot_entry_view(e)) == base + resource_hot_entries(
                p.resources@,
                files@,
                es.take(i as int),
            ),
        decreases p.hot_strategies.len() - i,
    {
        assert(es.take(i + 1).drop_last() =~= es.take(i as int));
        assert(es.take(i + 1).last() == es[i as int]);
        let e = &p.hot_strategies[i];
        match hot_entry_payload(&p.resources, files, e) {
            Some(payload) => {
                let ghost before = entries@;
                let pc = chars_of(payload.as_str());
                let esc = escape_payload(&pc);
                entries.push(HotEntry { key: e.0.clone(), payload: string_from(&esc) });
                assert(entries@.map_values(|e: HotEntry| hot_entry_view(e)) =~= before.map_values(
                    |e: HotEntry| hot_entry_view(e),
                ).push(hot_entry_view(entries@.last())));
            },
            None => {},
        }
        i += 1;
    }
    assert(es.take(p.hot_strategies.len() as int) =~= es);
    let shard = if p.resources.len() > config.shard_threshold {
        Some(String::from_str("1/1"))
    } else {
        None
    };
    let header = Header {
        version: 1,
        resource_count: p.resources.len(),
        hot_count: p.hot_ids.len(),
        group_count: p.groups.len(),
        repo: clone_opt(&config.repo),
        branch: clone_opt(&config.branch),
        commit: None,
        timestamp: ts,
        root: config.root.clone(),
        shard,
    };
    let ghost pg = p;
    let PartitionResult { groups, resources, hot_ids: _, hot_strategies: _ } = p;
    let doc = AimfDocument { header, groups, resources, hot_entries: entries, cold_blocks: Vec::new() };
    assert(doc.hot_entries@.map_values(|e: HotEntry| hot_entry_view(e)) =~= seq![
        ("CTX"@, "task=initial compilation;focus=all"@),
        ("ARCH"@, delimit_escape(arch_text(pg))),
        ("DEPS"@, delimit_escape(deps_text(pg.resources@, files@))),
    ] + resource_hot_entries(pg.resources@, files@, pg.hot_strategies@));
    doc
}

/// Compile and return the structured document, stamped with the current
/// time.  `None` where the system clock reads before the Unix epoch.
pub fn compile_to_doc(config: &CompilerConfig, files: &Vec<ScannedFile>) -> (res: Option<AimfDocument>)
    ensures
        res matches Some(d) ==> exists|p: PartitionResult, ts: Seq<char>|
            is_partition_of(p, files@, *config) && is_clock_stamp(ts) && has_suffix(ts, seq!['Z'])
                && is_document_of(d, *config, files@, p, ts),
{
    let p = partition(files, config);
    let ghost pg = p;
    match utc_timestamp() {
        Some(ts) => {
            let ghost tsv = ts@;
            let d = document_at(config, files, p, ts);
            assert(is_partition_of(pg, files@, *config) && is_clock_stamp(tsv) && has_suffix(tsv, seq!['Z']) && is_document_of(d, *config, files@, pg, tsv));
            Some(d)
        },
        None => None,
    }
}

// ─── Task handoff ──────────────────────────────────────────────

pub open spec fn ids_contain(ids: Seq<String>, x: Seq<char>) -> bool {
    exists|i: int| 0 <= i < ids.len() && ids[i]@ == x
}

/// The resources whose id is requested, or all of them when `*` is.
pub open spec fn selected_resources(rs: Seq<Resource>, ids: Seq<String>) -> Seq<Resource>
    decreases rs.len(),
{
    if rs.len() == 0 {
        seq![]
    } else {
        let prev = selected_resources(rs.drop_last(), ids);
        if ids_contain(ids, rs.last().id@) || ids_contain(ids, "*"@) {
            prev.push(rs.last())
        } else {
            prev
        }
    }
}

/// A task document: the index of the chosen resources, then the task in
/// Markdown after a `---` line.
pub open spec fn task_text(rs: Seq<Resource>, title: Seq<char>, body: Seq<char>) -> Seq<char> {
    index_text(rs) + "---\n# Task: "@ + title + "\n\n"@ + body + "\n"@
}

fn ids_contain_exec(ids: &[String], x: &String) -> (res: bool)
    ensures
        res == ids_contain(ids@, x@),
{
    let mut i: usize = 0;
    while i < ids.len()
        invariant
            i <= ids.len(),
            forall|j: int| 0 <= j < i ==> ids@[j]@ != x@,
        decreases ids.len() - i,
    {
        if ids[i] == *x {
            return true;
        }
        i += 1;
    }
    false
}

fn clone_resource(r: &Resource) -> (res: Resource)
    ensures
        res == *r,
{
    Resource {
        id: r.id.clone(),
        resource_type: r.resource_type,
        load_when: r.load_when,
        path: r.path.clone(),
        size: r.size,
        hash: r.hash.clone(),
        group_id: r.group_id.clone(),
        hint: r.hint.clone(),
    }
}

/// Generate a task handoff document for the resources named by
/// `resource_ids` (`*` names them all).
pub fn generate_task(
    config: &CompilerConfig,
    files: &Vec<ScannedFile>,
    task_title: &str,
    task_body: &str,
    resource_ids: &[String],  // Which index entries to include
) -> (res: String)
    ensures
        exists|p: PartitionResult|
            is_partition_of(p, files@, *config) && res@ == task_text(
                selected_resources(p.resources@, resource_ids@),
                task_title@,
                task_body@,
            ),
{
    let p = partition(files, config);
    let star = String::from_str("*");
    let all = ids_contain_exec(resource_ids, &star);
    // Filter to only requested resources
    let mut filtered: Vec<Resource> = Vec::new();
    let mut i: usize = 0;
    while i < p.resources.len()
        invariant
            i <= p.resources.len(),
            all == ids_contain(resource_ids@, "*"@),
            filtered@ == selected_resources(p.resources@.take(i as int), resource_ids@),
        decreases p.resources.len() - i,
    {
        assert(p.resources@.take(i + 1).drop_last() =~= p.resources@.take(i as int));
        let r = &p.resources[i];
        if ids_contain_exec(resource_ids, &r.id) || all {
            filtered.push(clone_resource(r));
        }
        i += 1;
    }
    assert(p.resources@.take(p.resources.len() as int) =~= p.resources@);
    let mut out: Vec<char> = Vec::new();
    emit_index(&mut out, &filtered);
    assert(out@ =~= index_text(filtered@));
    push_str(&mut out, "---\n# Task: ");
    push_str(&mut out, task_title);
    push_str(&mut out, "\n\n");
    push_str(&mut out, task_body);
    push_str(&mut out, "\n");
    let t = string_from(&out);
    assert(is_partition_of(p, files@, *config) && t@ == task_text(selected_resources(p.resources@, resource_ids@), task_title@, task_body@));
    t
}


/// `*` selects every resource, in order.
pub proof fn star_selects_everything(rs: Seq<Resource>, ids: Seq<String>)
    requires
        ids_contain(ids, "*"@),
    ensures
        selected_resources(rs, ids) == rs,
    decreases rs.len(),
{
    if rs.len() > 0 {
        star_selects_everything(rs.drop_last(), ids);
        assert(rs.drop_last().push(rs.last()) =~= rs);
    }
}

} // verus!
