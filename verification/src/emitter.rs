//! The AIMF text: header `@H`, groups `@G`, index `@I` and hot memory `@M`.
use vstd::prelude::*;
use vstd::utf8::is_ascii_chars;
use crate::classifier::lemma_path_parts_ascii;
use crate::hot_strategy::{apply_strategy, apply_strategy_spec, content_view};
use crate::partitioner::{is_partition_of, resource_ids_are_distinct, resource_of, groups_for, PartitionResult};
use crate::scanner::ScannedFile;
use crate::text::{
    ascii_lower, chars_of, concat, dec, eq_chars, file_name, file_name_of, first_where, has_suffix, join,
    lemma_first_where_found, lemma_first_where_none, lemma_first_where_props, lines, lines_of, push_chars, push_dec,
    push_join, push_join_strings, push_str, string_from, string_views, to_lowercase,
    unicode_lowercase, views,
};
use crate::types::{
    load_when_name, resource_type_name, CompilerConfig, Group, LoadWhen, Resource, ResourceType,
};

verus! {

// ─── Timestamp (the system clock and the `chrono` crate) ───────

/// `std::time::SystemTime`, carried through opaquely.
#[verifier::external_type_specification]
#[verifier::external_body]
pub struct ExSystemTime(std::time::SystemTime);

/// Calls `SystemTime::now`: the reading of the system clock, which the
/// contract does not know.
#[verifier::external_body]
fn system_now() -> (res: std::time::SystemTime) {
    std::time::SystemTime::now()
}

/// Calls `SystemTime::duration_since(UNIX_EPOCH)`: the time elapsed since the
/// Unix epoch, `None` where the clock reads before it (the error that the
/// documentation names).  The elapsed time itself depends on the clock
/// reading and is not stated.
#[verifier::external_body]
fn since_unix_epoch(t: &std::time::SystemTime) -> (res: Option<std::time::Duration>) {
    match t.duration_since(std::time::UNIX_EPOCH) {
        Ok(d) => Some(d),
        Err(_) => None,
    }
}

/// Calls `Duration::as_secs`: the whole seconds of a duration.  A duration
/// is opaque here and comes from the clock, so nothing is stated of the
/// number.
#[verifier::external_body]
fn whole_seconds(d: &std::time::Duration) -> (res: u64) {
    d.as_secs()
}

/// What `chrono` writes, with the format `%Y%m%dT%H%M%SZ`, for the UTC time
/// `secs` seconds after the Unix epoch; `None` where that time is out of
/// `chrono`'s range.
pub uninterp spec fn chrono_utc_stamp(secs: int) -> Option<Seq<char>>;

pub open spec fn opt_chars(o: Option<String>) -> Option<Seq<char>> {
    match o {
        Some(s) => Some(s@),
        None => None,
    }
}

/// The compact ISO 8601 form `YYYYMMDDTHHMMSSZ`.
pub open spec fn is_compact_stamp(t: Seq<char>) -> bool {
    &&& t.len() == 16
    &&& t[8] == 'T'
    &&& t[15] == 'Z'
    &&& forall|i: int| 0 <= i < 15 && i != 8 ==> '0' <= #[trigger] t[i] <= '9'
}

/// The first second of the year 10000, after which years take five digits.
pub const YEAR_10000_SECS: i64 = 253402300800;

/// Calls `DateTime::<Utc>::from_timestamp(secs, 0)` and formats the result
/// with `%Y%m%dT%H%M%SZ`.  The contract names the text (`chrono_utc_stamp`)
/// and states what the format string shows: the text ends with the literal
/// `Z`, and for a time from 1970 up to the end of the year 9999 (where the
/// year is written with four digits) the text is `YYYYMMDDTHHMMSSZ`.
#[verifier::external_body]
fn format_unix_time(secs: i64) -> (res: Option<String>)
    ensures
        opt_chars(res) == chrono_utc_stamp(secs as int),
        res matches Some(t) ==> has_suffix(t@, seq!['Z']),
        0 <= secs < YEAR_10000_SECS ==> res is Some && is_compact_stamp(res.unwrap()@),
{
    match chrono::DateTime::from_timestamp(secs, 0) {
        Some(dt) => Some(dt.format("%Y%m%dT%H%M%SZ").to_string()),
        None => None,
    }
}

/// A text that `chrono` writes for some time at or after the Unix epoch.
pub open spec fn is_clock_stamp(t: Seq<char>) -> bool {
    exists|secs: int| 0 <= secs <= i64::MAX && #[trigger] chrono_utc_stamp(secs) == Some(t)
}

/// The current UTC time written `%Y%m%dT%H%M%SZ`.  `None` where the system
/// clock reads before the Unix epoch.  Whatever the clock says, a returned
/// text is a stamp of a time after the epoch and ends with `Z`; up to the
/// year 9999 it has the compact 16-character form.
pub fn utc_timestamp() -> (res: Option<String>)
    ensures
        res matches Some(t) ==> is_clock_stamp(t@) && has_suffix(t@, seq!['Z']),
{
    let now = system_now();
    match since_unix_epoch(&now) {
        Some(d) => {
            let secs = whole_seconds(&d);
            if secs <= i64::MAX as u64 {
                let r = format_unix_time(secs as i64);
                assert(r matches Some(t) ==> chrono_utc_stamp(secs as int) == Some(t@));
                r
            } else {
                None
            }
        },
        None => None,
    }
}

// ─── Specification of the sections ─────────────────────────────

pub open spec fn opt_line(key: Seq<char>, v: Option<String>) -> Seq<char> {
    match v {
        Some(s) => key + s@ + "\n"@,
        None => seq![],
    }
}

/// The `@H` section.
pub open spec fn header_text(config: CompilerConfig, p: PartitionResult, ts: Seq<char>) -> Seq<char> {
    "@H\nV:1\nR:"@ + dec(p.resources.len() as nat) + "\nHOT:"@ + dec(p.hot_ids.len() as nat) + "\n"@
        + (if p.groups.len() > 0 {
        "GRP:"@ + dec(p.groups.len() as nat) + "\n"@
    } else {
        seq![]
    }) + opt_line("REPO:"@, config.repo) + opt_line("BRANCH:"@, config.branch) + "TS:"@ + ts
        + "\nROOT:"@ + config.root@ + "\n"@ + (if p.resources.len() > config.shard_threshold {
        "SHARD:1/1\n"@
    } else {
        seq![]
    }) + "\n"@
}

pub open spec fn group_line(g: Group) -> Seq<char> {
    g.id@ + "|"@ + g.label@ + "|"@ + join(string_views(g.patterns@), ","@) + "\n"@
}

/// The `@G` section (absent when there are no groups).
pub open spec fn groups_text(gs: Seq<Group>) -> Seq<char> {
    if gs.len() == 0 {
        seq![]
    } else {
        "@G\n"@ + concat(gs.map_values(|g: Group| group_line(g))) + "\n"@
    }
}

pub open spec fn index_line(r: Resource) -> Seq<char> {
    r.id@ + "|"@ + resource_type_name(r.resource_type) + "|"@ + load_when_name(r.load_when) + "|"@
        + r.path@ + "|"@ + dec(r.size as nat) + "|"@ + r.hash@ + "|"@ + r.group_id@ + "|"@ + r.hint@
        + "\n"@
}

/// The `@I` section: one line per resource.
pub open spec fn index_text(rs: Seq<Resource>) -> Seq<char> {
    "@I\n"@ + concat(rs.map_values(|r: Resource| index_line(r))) + "\n"@
}

// ─── Payload delimiters ────────────────────────────────────────

/// A payload made safe to stand between `<<` and `>>`: a space is put after
/// each `<` that is followed by `<`, and after each `>` that is followed by
/// `>` or ends the text.  Every other character is kept, in order.
pub open spec fn delimit_escape(s: Seq<char>) -> Seq<char>
    decreases s.len(),
{
    if s.len() == 0 {
        seq![]
    } else {
        let c = s[0];
        let r = s.drop_first();
        let gap = (c == '<' && r.len() > 0 && r[0] == '<') || (c == '>' && (r.len() == 0 || r[0]
            == '>'));
        (if gap {
            seq![c, ' ']
        } else {
            seq![c]
        }) + delimit_escape(r)
    }
}

/// No `<<` and no `>>` occur in the text, and it does not end with `>`: an
/// entry `<<text>>` ends at the first `>>` after its opening.
pub open spec fn is_delimited_payload(t: Seq<char>) -> bool {
    &&& forall|i: int|
        0 <= i < t.len() - 1 ==> !(t[i] == '<' && #[trigger] t[i + 1] == '<') && !(t[i] == '>'
            && t[i + 1] == '>')
    &&& t.len() > 0 ==> t.last() != '>'
}

/// Every escaped payload can stand between the delimiters.
pub proof fn escaped_payload_is_delimited(s: Seq<char>)
    ensures
        is_delimited_payload(delimit_escape(s)),
        s.len() > 0 ==> delimit_escape(s).len() > 0 && delimit_escape(s)[0] == s[0],
        s.len() == 0 ==> delimit_escape(s).len() == 0,
    decreases s.len(),
{
    if s.len() > 0 {
        let c = s[0];
        let r = s.drop_first();
        escaped_payload_is_delimited(r);
        let e = delimit_escape(s);
        let er = delimit_escape(r);
        let gap = (c == '<' && r.len() > 0 && r[0] == '<') || (c == '>' && (r.len() == 0 || r[0]
            == '>'));
        let h = if gap {
            seq![c, ' ']
        } else {
            seq![c]
        };
        assert(e == h + er);
        assert forall|i: int|
            0 <= i < e.len() - 1 implies !(e[i] == '<' && #[trigger] e[i + 1] == '<') && !(e[i]
                == '>' && e[i + 1] == '>') by {
            if i >= h.len() {
                let j = i - h.len();
                assert(e[i] == er[j]);
                assert(e[i + 1] == er[j + 1]);
            } else if gap {
                assert(e[0] == c);
                assert(e[1] == ' ');
            } else {
                assert(i == 0);
                assert(e[0] == c);
                assert(r.len() > 0);
                assert(e[1] == er[0]);
            }
        }
        if er.len() == 0 {
            assert(e =~= h);
        } else {
            assert(e.last() == er.last());
        }
    }
}

pub(crate) fn escape_payload(s: &[char]) -> (res: Vec<char>)
    ensures
        res@ == delimit_escape(s@),
{
    let mut out: Vec<char> = Vec::new();
    let mut i: usize = 0;
    assert(s@.subrange(0, s.len() as int) =~= s@);
    while i < s.len()
        invariant
            i <= s.len(),
            delimit_escape(s@) == out@ + delimit_escape(s@.subrange(i as int, s.len() as int)),
        decreases s.len() - i,
    {
        let ghost t = s@.subrange(i as int, s.len() as int);
        assert(t.drop_first() =~= s@.subrange(i + 1, s.len() as int));
        let c = s[i];
        out.push(c);
        let gap = (c == '<' && i + 1 < s.len() && s[i + 1] == '<') || (c == '>' && (i + 1 == s.len()
            || s[i + 1] == '>'));
        if gap {
            out.push(' ');
        }
        i += 1;
    }
    assert(s@.subrange(i as int, s.len() as int) =~= Seq::<char>::empty());
    assert(out@ + seq![] =~= out@);
    out
}

// ─── Emitting the sections ─────────────────────────────────────

fn push_opt_line(out: &mut Vec<char>, key: &str, v: &Option<String>)
    ensures
        final(out)@ == old(out)@ + opt_line(key@, *v),
{
    match v {
        Some(s) => {
            push_str(out, key);
            push_str(out, s.as_str());
            push_str(out, "\n");
        },
        None => {
            assert(old(out)@ + seq![] =~= old(out)@);
        },
    }
}

/// Emit the @H header section.
pub fn emit_header(out: &mut Vec<char>, config: &CompilerConfig, partition: &PartitionResult, ts: &str)
    ensures
        final(out)@ == old(out)@ + header_text(*config, *partition, ts@),
{
    let mut h: Vec<char> = Vec::new();
    push_str(&mut h, "@H\nV:1\nR:");
    assert(h@ =~= "@H\nV:1\nR:"@);
    push_dec(&mut h, partition.resources.len() as u64);
    push_str(&mut h, "\nHOT:");
    push_dec(&mut h, partition.hot_ids.len() as u64);
    push_str(&mut h, "\n");
    let mut g: Vec<char> = Vec::new();
    if partition.groups.len() > 0 {
        push_str(&mut g, "GRP:");
        assert(g@ =~= "GRP:"@);
        push_dec(&mut g, partition.groups.len() as u64);
        push_str(&mut g, "\n");
    }
    push_chars(&mut h, &g);
    let mut repo: Vec<char> = Vec::new();
    push_opt_line(&mut repo, "REPO:", &config.repo);
    assert(repo@ =~= opt_line("REPO:"@, config.repo));
    push_chars(&mut h, &repo);
    let mut branch: Vec<char> = Vec::new();
    push_opt_line(&mut branch, "BRANCH:", &config.branch);
    assert(branch@ =~= opt_line("BRANCH:"@, config.branch));
    push_chars(&mut h, &branch);
    push_str(&mut h, "TS:");
    push_str(&mut h, ts);
    push_str(&mut h, "\nROOT:");
    push_str(&mut h, config.root.as_str());
    push_str(&mut h, "\n");
    // Sharding marker
    let mut shard: Vec<char> = Vec::new();
    if partition.resources.len() > config.shard_threshold {
        push_str(&mut shard, "SHARD:1/1\n");
    }
    push_chars(&mut h, &shard);
    push_str(&mut h, "\n");
    assert(h@ =~= header_text(*config, *partition, ts@));
    push_chars(out, &h);
}

/// One `@G` line.
fn group_line_exec(group: &Group) -> (res: Vec<char>)
    ensures
        res@ == group_line(*group),
{
    let mut l: Vec<char> = Vec::new();
    push_str(&mut l, group.id.as_str());
    assert(l@ =~= group.id@);
    push_str(&mut l, "|");
    push_str(&mut l, group.label.as_str());
    push_str(&mut l, "|");
    let mut p: Vec<char> = Vec::new();
    push_join_strings(&mut p, &group.patterns, ",");
    assert(p@ =~= join(string_views(group.patterns@), ","@));
    push_chars(&mut l, &p);
    push_str(&mut l, "\n");
    l
}

/// Emit the @G groups section.
pub fn emit_groups(out: &mut Vec<char>, groups: &Vec<Group>)
    ensures
        final(out)@ == old(out)@ + groups_text(groups@),
{
    if groups.len() == 0 {
        assert(old(out)@ + seq![] =~= old(out)@);
        return;
    }
    let ghost ls = groups@.map_values(|g: Group| group_line(g));
    let mut body: Vec<char> = Vec::new();
    let mut i: usize = 0;
    while i < groups.len()
        invariant
            i <= groups.len(),
            ls == groups@.map_values(|g: Group| group_line(g)),
            body@ == concat(ls.take(i as int)),
        decreases groups.len() - i,
    {
        let line = group_line_exec(&groups[i]);
        push_chars(&mut body, &line);
        assert(ls.take(i + 1).drop_last() =~= ls.take(i as int));
        i += 1;
    }
    assert(ls.take(groups.len() as int) =~= ls);
    let mut sec: Vec<char> = Vec::new();
    push_str(&mut sec, "@G\n");
    assert(sec@ =~= "@G\n"@);
    push_chars(&mut sec, &body);
    push_str(&mut sec, "\n");
    push_chars(out, &sec);
}

/// One `@I` line.
fn index_line_exec(r: &Resource) -> (res: Vec<char>)
    ensures
        res@ == index_line(*r),
{
    let mut l: Vec<char> = Vec::new();
    push_str(&mut l, r.id.as_str());
    assert(l@ =~= r.id@);
    push_str(&mut l, "|");
    push_str(&mut l, r.resource_type.as_str());
    push_str(&mut l, "|");
    push_str(&mut l, r.load_when.as_str());
    push_str(&mut l, "|");
    push_str(&mut l, r.path.as_str());
    push_str(&mut l, "|");
    push_dec(&mut l, r.size);
    push_str(&mut l, "|");
    push_str(&mut l, r.hash.as_str());
    push_str(&mut l, "|");
    push_str(&mut l, r.group_id.as_str());
    push_str(&mut l, "|");
    push_str(&mut l, r.hint.as_str());
    push_str(&mut l, "\n");
    l
}

/// Emit the @I index section.
pub fn emit_index(out: &mut Vec<char>, resources: &Vec<Resource>)
    ensures
        final(out)@ == old(out)@ + index_text(resources@),
{
    let ghost ls = resources@.map_values(|r: Resource| index_line(r));
    let mut body: Vec<char> = Vec::new();
    let mut i: usize = 0;
    while i < resources.len()
        invariant
            i <= resources.len(),
            ls == resources@.map_values(|r: Resource| index_line(r)),
            body@ == concat(ls.take(i as int)),
        decreases resources.len() - i,
    {
        let line = index_line_exec(&resources[i]);
        push_chars(&mut body, &line);
        assert(ls.take(i + 1).drop_last() =~= ls.take(i as int));
        i += 1;
    }
    assert(ls.take(resources.len() as int) =~= ls);
    let mut sec: Vec<char> = Vec::new();
    push_str(&mut sec, "@I\n");
    assert(sec@ =~= "@I\n"@);
    push_chars(&mut sec, &body);
    push_str(&mut sec, "\n");
    push_chars(out, &sec);
}


// ─── Architecture summary ──────────────────────────────────────

/// How many resources have type `t`.
pub open spec fn count_type(rs: Seq<Resource>, t: ResourceType) -> nat
    decreases rs.len(),
{
    if rs.len() == 0 {
        0
    } else {
        count_type(rs.drop_last(), t) + if rs.last().resource_type == t {
            1nat
        } else {
            0nat
        }
    }
}

/// The resource types present, in order of first appearance.
pub open spec fn types_in_order(rs: Seq<Resource>) -> Seq<ResourceType>
    decreases rs.len(),
{
    if rs.len() == 0 {
        seq![]
    } else {
        let prev = types_in_order(rs.drop_last());
        if prev.contains(rs.last().resource_type) {
            prev
        } else {
            prev.push(rs.last().resource_type)
        }
    }
}

pub open spec fn composition_texts(rs: Seq<Resource>) -> Seq<Seq<char>> {
    types_in_order(rs).map_values(
        |t: ResourceType| dec(count_type(rs, t)) + " "@ + resource_type_name(t),
    )
}

/// How many resources are in group `gid`.
pub open spec fn count_group(rs: Seq<Resource>, gid: Seq<char>) -> nat
    decreases rs.len(),
{
    if rs.len() == 0 {
        0
    } else {
        count_group(rs.drop_last(), gid) + if rs.last().group_id@ == gid {
            1nat
        } else {
            0nat
        }
    }
}

pub open spec fn group_count_line(g: Group, rs: Seq<Resource>) -> Seq<char> {
    let c = count_group(rs, g.id@);
    if c > 0 {
        g.label@ + " ("@ + g.id@ + "): "@ + dec(c) + " files.\n"@
    } else {
        seq![]
    }
}

pub open spec fn is_entry(r: Resource) -> bool {
    r.load_when == LoadWhen::Always || r.load_when == LoadWhen::OnEdit
}

/// `path (id)` of each resource loaded always or on edit, in order.
pub open spec fn entry_texts(rs: Seq<Resource>) -> Seq<Seq<char>>
    decreases rs.len(),
{
    if rs.len() == 0 {
        seq![]
    } else {
        let prev = entry_texts(rs.drop_last());
        if is_entry(rs.last()) {
            prev.push(rs.last().path@ + " ("@ + rs.last().id@ + ")"@)
        } else {
            prev
        }
    }
}

/// The body of `@M ARCH`.  The composition lists each type present once, in
/// order of first appearance.
pub open spec fn arch_text(p: PartitionResult) -> Seq<char> {
    let rs = p.resources@;
    let e = entry_texts(rs);
    "Project structure: "@ + dec(rs.len() as nat) + " resources in "@ + dec(p.groups.len() as nat)
        + " groups.\n"@ + "Composition: "@ + join(composition_texts(rs), ", "@) + ".\n"@ + concat(
        p.groups@.map_values(|g: Group| group_count_line(g, rs)),
    ) + if e.len() > 0 {
        "Entry points: "@ + join(e, ", "@) + "."@
    } else {
        seq![]
    }
}

proof fn lemma_count_type_bounds(rs: Seq<Resource>, t: ResourceType)
    ensures
        count_type(rs, t) <= rs.len(),
        !types_in_order(rs).contains(t) ==> count_type(rs, t) == 0,
    decreases rs.len(),
{
    if rs.len() > 0 {
        lemma_count_type_bounds(rs.drop_last(), t);
        let prev = types_in_order(rs.drop_last());
        if !prev.contains(rs.last().resource_type) {
            assert(types_in_order(rs).contains(rs.last().resource_type)) by {
                assert(types_in_order(rs)[prev.len() as int] == rs.last().resource_type);
            }
        }
        if !types_in_order(rs).contains(t) && prev.contains(t) {
            let k = choose|k: int| 0 <= k < prev.len() && prev[k] == t;
            if !prev.contains(rs.last().resource_type) {
                assert(types_in_order(rs)[k] == t);
            }
        }
    }
}

proof fn lemma_types_distinct(rs: Seq<Resource>)
    ensures
        forall|i: int, j: int|
            0 <= i < j < types_in_order(rs).len() ==> types_in_order(rs)[i] != types_in_order(rs)[j],
    decreases rs.len(),
{
    if rs.len() > 0 {
        lemma_types_distinct(rs.drop_last());
        let prev = types_in_order(rs.drop_last());
        let cur = types_in_order(rs);
        if !prev.contains(rs.last().resource_type) {
            assert forall|i: int, j: int| 0 <= i < j < cur.len() implies cur[i] != cur[j] by {
                if j == prev.len() {
                    assert(cur[i] == prev[i]);
                } else {
                    assert(cur[i] == prev[i] && cur[j] == prev[j]);
                }
            }
        }
    }
}

proof fn lemma_count_group_bound(rs: Seq<Resource>, gid: Seq<char>)
    ensures
        count_group(rs, gid) <= rs.len(),
    decreases rs.len(),
{
    if rs.len() > 0 {
        lemma_count_group_bound(rs.drop_last(), gid);
    }
}

fn type_index(types: &Vec<ResourceType>, t: ResourceType) -> (res: Option<usize>)
    ensures
        match res {
            Some(k) => k < types.len() && types@[k as int] == t,
            None => !types@.contains(t),
        },
{
    let mut k: usize = 0;
    while k < types.len()
        invariant
            k <= types.len(),
            forall|j: int| 0 <= j < k ==> types@[j] != t,
        decreases types.len() - k,
    {
        if types[k] == t {
            return Some(k);
        }
        k += 1;
    }
    None
}

/// The `count type` entries of the composition line.
fn composition(rs: &Vec<Resource>) -> (res: Vec<Vec<char>>)
    ensures
        views(res@) == composition_texts(rs@),
{
    let mut types: Vec<ResourceType> = Vec::new();
    let mut counts: Vec<usize> = Vec::new();
    let mut i: usize = 0;
    while i < rs.len()
        invariant
            i <= rs.len(),
            types@ == types_in_order(rs@.take(i as int)),
            counts.len() == types.len(),
            forall|k: int| 0 <= k < counts.len() ==> counts@[k] == count_type(rs@.take(i as int), #[trigger] types@[k]),
        decreases rs.len() - i,
    {
        let t = rs[i].resource_type;
        let ghost s0 = rs@.take(i as int);
        let ghost s1 = rs@.take(i + 1);
        assert(s1.drop_last() =~= s0);
        assert(s1.last() == rs@[i as int]);
        proof {
            lemma_count_type_bounds(s0, t);
            lemma_types_distinct(s0);
        }
        let ghost old_types = types@;
        let ghost old_counts = counts@;
        match type_index(&types, t) {
            Some(k) => {
                let c = counts[k];
                counts.set(k, c + 1);
            },
            None => {
                types.push(t);
                counts.push(1);
            },
        }
        assert forall|k: int| 0 <= k < counts.len() implies counts@[k] == count_type(s1, #[trigger] types@[k]) by {
            let x = types@[k];
            assert(count_type(s1, x) == count_type(s0, x) + if t == x { 1nat } else { 0nat });
            if k < old_types.len() {
                assert(x == old_types[k]);
                assert(old_counts[k] == count_type(s0, old_types[k]));
                if x == t {
                    assert(counts@[k] == old_counts[k] + 1);
                } else {
                    assert(counts@[k] == old_counts[k]);
                }
            } else {
                assert(x == t);
                assert(!old_types.contains(t));
                assert(counts@[k] == 1);
            }
        }
        assert(types@ == types_in_order(s1));
        i += 1;
    }
    assert(rs@.take(rs.len() as int) =~= rs@);
    let mut res: Vec<Vec<char>> = Vec::new();
    let ghost want = composition_texts(rs@);
    let mut k: usize = 0;
    while k < types.len()
        invariant
            k <= types.len(),
            types@ == types_in_order(rs@),
            counts.len() == types.len(),
            forall|j: int| 0 <= j < counts.len() ==> counts@[j] == count_type(rs@, #[trigger] types@[j]),
            want == composition_texts(rs@),
            views(res@) == want.take(k as int),
        decreases types.len() - k,
    {
        let mut e: Vec<char> = Vec::new();
        push_dec(&mut e, counts[k] as u64);
        push_str(&mut e, " ");
        push_str(&mut e, types[k].as_str());
        let ghost before = res@;
        res.push(e);
        assert(views(res@) =~= views(before).push(e@));
        assert(want.take(k + 1) =~= want.take(k as int).push(want[k as int]));
        k += 1;
    }
    assert(want.take(types.len() as int) =~= want);
    res
}

fn count_in_group(rs: &Vec<Resource>, gid: &String) -> (res: usize)
    ensures
        res == count_group(rs@, gid@),
{
    let mut c: usize = 0;
    let mut i: usize = 0;
    while i < rs.len()
        invariant
            i <= rs.len(),
            c == count_group(rs@.take(i as int), gid@),
        decreases rs.len() - i,
    {
        assert(rs@.take(i + 1).drop_last() =~= rs@.take(i as int));
        proof {
            lemma_count_group_bound(rs@.take(i as int), gid@);
        }
        if rs[i].group_id == *gid {
            c += 1;
        }
        i += 1;
    }
    assert(rs@.take(rs.len() as int) =~= rs@);
    c
}

/// The `path (id)` texts of the entry points.
fn entries(rs: &Vec<Resource>) -> (res: Vec<Vec<char>>)
    ensures
        views(res@) == entry_texts(rs@),
{
    let mut res: Vec<Vec<char>> = Vec::new();
    let mut i: usize = 0;
    while i < rs.len()
        invariant
            i <= rs.len(),
            views(res@) == entry_texts(rs@.take(i as int)),
        decreases rs.len() - i,
    {
        assert(rs@.take(i + 1).drop_last() =~= rs@.take(i as int));
        let r = &rs[i];
        let is_e = match r.load_when {
            LoadWhen::Always => true,
            LoadWhen::OnEdit => true,
            _ => false,
        };
        if is_e {
            let mut e: Vec<char> = Vec::new();
            push_str(&mut e, r.path.as_str());
            assert(e@ =~= r.path@);
            push_str(&mut e, " (");
            push_str(&mut e, r.id.as_str());
            push_str(&mut e, ")");
            let ghost before = res@;
            res.push(e);
            assert(views(res@) =~= views(before).push(e@));
        }
        i += 1;
    }
    assert(rs@.take(rs.len() as int) =~= rs@);
    res
}

/// Generate a simple architecture summary from the resource structure.
pub fn emit_architecture_summary(out: &mut Vec<char>, partition: &PartitionResult)
    ensures
        final(out)@ == old(out)@ + arch_text(*partition),
{
    let rs = &partition.resources;
    let mut a: Vec<char> = Vec::new();
    push_str(&mut a, "Project structure: ");
    assert(a@ =~= "Project structure: "@);
    push_dec(&mut a, rs.len() as u64);
    push_str(&mut a, " resources in ");
    push_dec(&mut a, partition.groups.len() as u64);
    push_str(&mut a, " groups.\n");
    // Count by type
    push_str(&mut a, "Composition: ");
    let counts = composition(rs);
    let mut c: Vec<char> = Vec::new();
    push_join(&mut c, &counts, ", ");
    assert(c@ =~= join(composition_texts(rs@), ", "@));
    push_chars(&mut a, &c);
    push_str(&mut a, ".\n");
    // List groups with resource counts
    let ghost gl = partition.groups@.map_values(|g: Group| group_count_line(g, rs@));
    let mut gs: Vec<char> = Vec::new();
    let mut i: usize = 0;
    while i < partition.groups.len()
        invariant
            i <= partition.groups.len(),
            rs == &partition.resources,
            gl == partition.groups@.map_values(|g: Group| group_count_line(g, rs@)),
            gs@ == concat(gl.take(i as int)),
        decreases partition.groups.len() - i,
    {
        let group = &partition.groups[i];
        let count = count_in_group(rs, &group.id);
        let mut l: Vec<char> = Vec::new();
        if count > 0 {
            push_str(&mut l, group.label.as_str());
            assert(l@ =~= group.label@);
            push_str(&mut l, " (");
            push_str(&mut l, group.id.as_str());
            push_str(&mut l, "): ");
            push_dec(&mut l, count as u64);
            push_str(&mut l, " files.\n");
        }
        assert(l@ =~= gl[i as int]);
        push_chars(&mut gs, &l);
        assert(gl.take(i + 1).drop_last() =~= gl.take(i as int));
        i += 1;
    }
    assert(gl.take(partition.groups.len() as int) =~= gl);
    push_chars(&mut a, &gs);
    // List entry points
    let es = entries(rs);
    let mut e: Vec<char> = Vec::new();
    if es.len() > 0 {
        push_str(&mut e, "Entry points: ");
        assert(e@ =~= "Entry points: "@);
        push_join(&mut e, &es, ", ");
        push_str(&mut e, ".");
    }
    push_chars(&mut a, &e);
    assert(a@ =~= arch_text(*partition));
    push_chars(out, &a);
}


// ─── Dependency summary and hot entries ────────────────────────

pub open spec fn dep_file_names() -> Seq<Seq<char>> {
    seq!["Cargo.toml"@, "package.json"@, "requirements.txt"@, "go.mod"@, "Gemfile"@, "pyproject.toml"@]
}

/// The resource at an index has the file name `name`, both lowercased.
pub open spec fn is_named(rs: Seq<Resource>, name: Seq<char>) -> spec_fn(int) -> bool {
    |j: int| unicode_lowercase(file_name(rs[j].path@)) == unicode_lowercase(name)
}

/// The scanned file at an index has this path.
pub open spec fn is_at_path(files: Seq<ScannedFile>, path: Seq<char>) -> spec_fn(int) -> bool {
    |j: int| files[j].path@ == path
}

/// The resource at an index has this id.
pub open spec fn has_id(rs: Seq<Resource>, id: Seq<char>) -> spec_fn(int) -> bool {
    |j: int| rs[j].id@ == id
}

/// The first resource whose file name equals `name`, both lowercased; or -1.
pub open spec fn resource_named(rs: Seq<Resource>, name: Seq<char>) -> int {
    first_where(rs.len(), is_named(rs, name))
}

/// Every resource path is ASCII text.
pub open spec fn paths_ascii(rs: Seq<Resource>) -> bool {
    forall|j: int| 0 <= j < rs.len() ==> is_ascii_chars(#[trigger] rs[j].path@)
}

/// `is_named` where lowercasing is the ASCII one.
pub open spec fn is_named_ascii(rs: Seq<Resource>, name: Seq<char>) -> spec_fn(int) -> bool {
    |j: int| ascii_lower(file_name(rs[j].path@)) == ascii_lower(name)
}

/// `resource_named` where lowercasing is the ASCII one.
pub open spec fn resource_named_ascii(rs: Seq<Resource>, name: Seq<char>) -> int {
    first_where(rs.len(), is_named_ascii(rs, name))
}

/// The first scanned file with this path; or -1.
pub open spec fn file_at_path(files: Seq<ScannedFile>, path: Seq<char>) -> int {
    first_where(files.len(), is_at_path(files, path))
}

/// The first resource with this id; or -1.
pub open spec fn resource_with_id(rs: Seq<Resource>, id: Seq<char>) -> int {
    first_where(rs.len(), has_id(rs, id))
}

/// The first `n` lines.
pub open spec fn first_lines(t: Seq<char>, n: nat) -> Seq<Seq<char>> {
    let ls = lines_of(t);
    if n < ls.len() {
        ls.take(n as int)
    } else {
        ls
    }
}

/// The block a dependency file contributes: its name in brackets and its
/// first 20 lines; nothing when no readable file has that name.
pub open spec fn dep_block(rs: Seq<Resource>, files: Seq<ScannedFile>, name: Seq<char>) -> Seq<char> {
    dep_block_of(rs, files, name, resource_named(rs, name))
}

/// `dep_block` where lowercasing is the ASCII one.
pub open spec fn dep_block_ascii(rs: Seq<Resource>, files: Seq<ScannedFile>, name: Seq<char>) -> Seq<char> {
    dep_block_of(rs, files, name, resource_named_ascii(rs, name))
}

/// The block of the dependency file `name`, found as the resource `ri`
/// (none where `ri` is negative).
pub open spec fn dep_block_of(rs: Seq<Resource>, files: Seq<ScannedFile>, name: Seq<char>, ri: int) -> Seq<char> {
    if ri < 0 {
        seq![]
    } else {
        let fi = file_at_path(files, rs[ri].path@);
        if fi < 0 {
            seq![]
        } else {
            match files[fi].content {
                Some(c) => "["@ + name + "]\n"@ + join(first_lines(c@, 20), "\n"@) + "\n"@,
                None => seq![],
            }
        }
    }
}

/// The dependency blocks, in the order of `dep_file_names`.
pub open spec fn dep_blocks(rs: Seq<Resource>, files: Seq<ScannedFile>) -> Seq<char> {
    concat(dep_file_names().map_values(|d: Seq<char>| dep_block(rs, files, d)))
}

/// `dep_blocks` where lowercasing is the ASCII one.
pub open spec fn dep_blocks_ascii(rs: Seq<Resource>, files: Seq<ScannedFile>) -> Seq<char> {
    concat(dep_file_names().map_values(|d: Seq<char>| dep_block_ascii(rs, files, d)))
}

/// `deps_appended` where lowercasing is the ASCII one.
pub open spec fn deps_appended_ascii(out: Seq<char>, rs: Seq<Resource>, files: Seq<ScannedFile>) -> Seq<char> {
    let o = out + dep_blocks_ascii(rs, files);
    if has_suffix(o, "<<"@) {
        o + no_deps_message()
    } else {
        o
    }
}

/// The message written when the output still ends with the opening `<<`.
pub open spec fn no_deps_message() -> Seq<char> {
    "no dependency files detected"@
}

/// What `emit_deps_summary` appends to `out`: the dependency blocks, then the
/// message where the output so far ends with `<<`.
pub open spec fn deps_appended(out: Seq<char>, rs: Seq<Resource>, files: Seq<ScannedFile>) -> Seq<char> {
    let o = out + dep_blocks(rs, files);
    if has_suffix(o, "<<"@) {
        o + no_deps_message()
    } else {
        o
    }
}

/// The body of `@M DEPS`, written after the opening `<<`.
pub open spec fn deps_text(rs: Seq<Resource>, files: Seq<ScannedFile>) -> Seq<char> {
    let body = dep_blocks(rs, files);
    if body.len() == 0 {
        "no dependency files detected"@
    } else {
        body
    }
}

/// The payload of one hot resource: `None` when its id or its file is not
/// found.
pub open spec fn hot_payload(rs: Seq<Resource>, files: Seq<ScannedFile>, e: (String, crate::types::HotStrategy)) -> Option<Seq<char>> {
    let ri = resource_with_id(rs, e.0@);
    if ri < 0 {
        None
    } else {
        let fi = file_at_path(files, rs[ri].path@);
        if fi < 0 {
            None
        } else {
            Some(apply_strategy_spec(files[fi].abs_path@, content_view(files[fi].content), e.1))
        }
    }
}

/// The `@M` entry of one hot resource.
pub open spec fn hot_entry_text(rs: Seq<Resource>, files: Seq<ScannedFile>, e: (String, crate::types::HotStrategy)) -> Seq<char> {
    match hot_payload(rs, files, e) {
        Some(pl) => "@M "@ + e.0@ + "\n<<"@ + delimit_escape(pl) + ">>\n\n"@,
        None => seq![],
    }
}

/// The `@M` section.
pub open spec fn hot_memory_text(p: PartitionResult, files: Seq<ScannedFile>) -> Seq<char> {
    "@M CTX\n<<task=initial compilation;focus=all>>\n\n@M ARCH\n<<"@ + delimit_escape(arch_text(p))
        + ">>\n\n@M DEPS\n<<"@ + delimit_escape(deps_text(p.resources@, files)) + ">>\n\n"@ + concat(
        p.hot_strategies@.map_values(
            |e: (String, crate::types::HotStrategy)| hot_entry_text(p.resources@, files, e),
        ),
    )
}

/// The whole AIMF document.
pub open spec fn document_text(
    config: CompilerConfig,
    files: Seq<ScannedFile>,
    p: PartitionResult,
    ts: Seq<char>,
) -> Seq<char> {
    header_text(config, p, ts) + groups_text(p.groups@) + index_text(p.resources@) + hot_memory_text(
        p,
        files,
    )
}

fn find_resource_named(rs: &Vec<Resource>, name: &str) -> (res: Option<usize>)
    ensures
        match res {
            Some(k) => k < rs.len() && resource_named(rs@, name@) == k as int,
            None => resource_named(rs@, name@) == -1,
        },
        paths_ascii(rs@) && is_ascii_chars(name@) ==> resource_named_ascii(rs@, name@)
            == resource_named(rs@, name@),
{
    let ghost p = is_named(rs@, name@);
    let ghost pa = is_named_ascii(rs@, name@);
    let ghost asc = paths_ascii(rs@) && is_ascii_chars(name@);
    let want_s = to_lowercase(name);
    let want = chars_of(want_s.as_str());
    let mut i: usize = 0;
    while i < rs.len()
        invariant
            i <= rs.len(),
            want@ == unicode_lowercase(name@),
            asc == (paths_ascii(rs@) && is_ascii_chars(name@)),
            asc ==> want@ == ascii_lower(name@),
            p == is_named(rs@, name@),
            pa == is_named_ascii(rs@, name@),
            forall|j: int| 0 <= j < i ==> !#[trigger] p(j),
            asc ==> forall|j: int| 0 <= j < i ==> !#[trigger] pa(j),
        decreases rs.len() - i,
    {
        let pc = chars_of(rs[i].path.as_str());
        let f = string_from(&file_name_of(&pc));
        proof {
            lemma_path_parts_ascii(rs@[i as int].path@);
        }
        let fl = to_lowercase(f.as_str());
        let flc = chars_of(fl.as_str());
        if eq_chars(&flc, &want) {
            proof {
                assert(p(i as int));
                lemma_first_where_found(rs.len() as nat, p, i as int);
                if asc {
                    assert(is_ascii_chars(rs@[i as int].path@));
                    assert(pa(i as int));
                    lemma_first_where_found(rs.len() as nat, pa, i as int);
                }
            }
            return Some(i);
        }
        assert(!p(i as int));
        proof {
            if asc {
                assert(is_ascii_chars(rs@[i as int].path@));
                assert(!pa(i as int));
            }
        }
        i += 1;
    }
    proof {
        lemma_first_where_none(rs.len() as nat, p);
        if asc {
            lemma_first_where_none(rs.len() as nat, pa);
        }
    }
    None
}

fn find_file_at_path(files: &Vec<ScannedFile>, path: &String) -> (res: Option<usize>)
    ensures
        match res {
            Some(k) => k < files.len() && file_at_path(files@, path@) == k as int,
            None => file_at_path(files@, path@) == -1,
        },
{
    let ghost p = is_at_path(files@, path@);
    let mut i: usize = 0;
    while i < files.len()
        invariant
            i <= files.len(),
            p == is_at_path(files@, path@),
            forall|j: int| 0 <= j < i ==> !#[trigger] p(j),
        decreases files.len() - i,
    {
        if files[i].path == *path {
            proof {
                assert(p(i as int));
                lemma_first_where_found(files.len() as nat, p, i as int);
            }
            return Some(i);
        }
        assert(!p(i as int));
        i += 1;
    }
    proof {
        lemma_first_where_none(files.len() as nat, p);
    }
    None
}

fn find_resource_with_id(rs: &Vec<Resource>, id: &String) -> (res: Option<usize>)
    ensures
        match res {
            Some(k) => k < rs.len() && resource_with_id(rs@, id@) == k as int,
            None => resource_with_id(rs@, id@) == -1,
        },
{
    let ghost p = has_id(rs@, id@);
    let mut i: usize = 0;
    while i < rs.len()
        invariant
            i <= rs.len(),
            p == has_id(rs@, id@),
            forall|j: int| 0 <= j < i ==> !#[trigger] p(j),
        decreases rs.len() - i,
    {
        if rs[i].id == *id {
            proof {
                assert(p(i as int));
                lemma_first_where_found(rs.len() as nat, p, i as int);
            }
            return Some(i);
        }
        assert(!p(i as int));
        i += 1;
    }
    proof {
        lemma_first_where_none(rs.len() as nat, p);
    }
    None
}

fn dep_block_exec(rs: &Vec<Resource>, files: &Vec<ScannedFile>, name: &str) -> (res: Vec<char>)
    ensures
        res@ == dep_block(rs@, files@, name@),
        paths_ascii(rs@) && is_ascii_chars(name@) ==> res@ == dep_block_ascii(rs@, files@, name@),
{
    let mut b: Vec<char> = Vec::new();
    if let Some(ri) = find_resource_named(rs, name) {
        if let Some(fi) = find_file_at_path(files, &rs[ri].path) {
            if let Some(content) = &files[fi].content {
                // Include the first 20 lines of dependency files
                let cc = chars_of(content.as_str());
                let all = lines(&cc);
                let mut taken: Vec<Vec<char>> = Vec::new();
                let mut i: usize = 0;
                while i < 20 && i < all.len()
                    invariant
                        i <= all.len(),
                        i <= 20,
                        views(taken@) == views(all@).take(i as int),
                    decreases all.len() - i,
                {
                    let mut line: Vec<char> = Vec::new();
                    push_chars(&mut line, &all[i]);
                    let ghost before = taken@;
                    taken.push(line);
                    assert(views(taken@) =~= views(before).push(all@[i as int]@));
                    assert(views(all@).take(i + 1) =~= views(all@).take(i as int).push(all@[i as int]@));
                    i += 1;
                }
                proof {
                    if 20 >= views(all@).len() {
                        assert(views(all@).take(i as int) =~= views(all@));
                    }
                    assert(views(taken@) == first_lines(content@, 20));
                }
                push_str(&mut b, "[");
                assert(b@ =~= "["@);
                push_str(&mut b, name);
                push_str(&mut b, "]\n");
                let mut j: Vec<char> = Vec::new();
                push_join(&mut j, &taken, "\n");
                assert(j@ =~= join(first_lines(content@, 20), "\n"@));
                push_chars(&mut b, &j);
                push_str(&mut b, "\n");
            }
        }
    }
    b
}

proof fn lemma_dep_file_names_ascii()
    ensures
        forall|k: int| 0 <= k < 6 ==> is_ascii_chars(#[trigger] dep_file_names()[k]),
{
    reveal_strlit("Cargo.toml");
    reveal_strlit("package.json");
    reveal_strlit("requirements.txt");
    reveal_strlit("go.mod");
    reveal_strlit("Gemfile");
    reveal_strlit("pyproject.toml");
}

/// The dependency blocks (see `dep_blocks`).
fn dep_blocks_exec(partition: &PartitionResult, files: &Vec<ScannedFile>) -> (res: Vec<char>)
    ensures
        res@ == dep_blocks(partition.resources@, files@),
        paths_ascii(partition.resources@) ==> res@ == dep_blocks_ascii(partition.resources@, files@),
{
    proof {
        lemma_dep_file_names_ascii();
    }
    // Look for common dependency files
    let dep_files: [&str; 6] = ["Cargo.toml", "package.json", "requirements.txt", "go.mod", "Gemfile", "pyproject.toml"];
    let ghost names = dep_files@.map_values(|d: &str| d@);
    assert(names =~= dep_file_names());
    let ghost blocks = dep_file_names().map_values(|d: Seq<char>| dep_block(partition.resources@, files@, d));
    let ghost blocks_a = dep_file_names().map_values(|d: Seq<char>| dep_block_ascii(partition.resources@, files@, d));
    let ghost asc = paths_ascii(partition.resources@);
    let mut body: Vec<char> = Vec::new();
    let mut i: usize = 0;
    while i < 6
        invariant
            i <= 6,
            names == dep_files@.map_values(|d: &str| d@),
            names == dep_file_names(),
            forall|k: int| 0 <= k < 6 ==> is_ascii_chars(#[trigger] dep_file_names()[k]),
            blocks == dep_file_names().map_values(|d: Seq<char>| dep_block(partition.resources@, files@, d)),
            blocks_a == dep_file_names().map_values(|d: Seq<char>| dep_block_ascii(partition.resources@, files@, d)),
            asc == paths_ascii(partition.resources@),
            body@ == concat(blocks.take(i as int)),
            asc ==> body@ == concat(blocks_a.take(i as int)),
        decreases 6 - i,
    {
        assert(names[i as int] == dep_files[i as int]@);
        assert(is_ascii_chars(dep_file_names()[i as int]));
        let b = dep_block_exec(&partition.resources, files, dep_files[i]);
        assert(b@ == blocks[i as int]);
        assert(asc ==> b@ == blocks_a[i as int]);
        push_chars(&mut body, &b);
        assert(blocks.take(i + 1).drop_last() =~= blocks.take(i as int));
        assert(blocks_a.take(i + 1).drop_last() =~= blocks_a.take(i as int));
        i += 1;
    }
    assert(blocks.take(6) =~= blocks);
    assert(blocks_a.take(6) =~= blocks_a);
    body
}

/// Generate a dependency summary from config files: the blocks of the
/// dependency files found, then, where the output still ends with the
/// opening `<<`, the message that none was found.
pub fn emit_deps_summary(out: &mut Vec<char>, partition: &PartitionResult, files: &Vec<ScannedFile>)
    ensures
        final(out)@ == deps_appended(old(out)@, partition.resources@, files@),
        paths_ascii(partition.resources@) ==> final(out)@ == deps_appended_ascii(
            old(out)@,
            partition.resources@,
            files@,
        ),
{
    let body = dep_blocks_exec(partition, files);
    push_chars(out, &body);
    if ends_with_chars(out, "<<") {
        push_str(out, "no dependency files detected");
    }
}

fn ends_with_chars(out: &Vec<char>, p: &str) -> (res: bool)
    ensures
        res == has_suffix(out@, p@),
{
    crate::text::ends_with_str(out, p)
}

/// A dependency block is empty or ends with a newline.
proof fn lemma_dep_blocks_end(rs: Seq<Resource>, files: Seq<ScannedFile>, k: nat)
    requires
        k <= 6,
    ensures
        concat(dep_file_names().map_values(|d: Seq<char>| dep_block(rs, files, d)).take(k as int)).len() == 0
            || concat(dep_file_names().map_values(|d: Seq<char>| dep_block(rs, files, d)).take(k as int)).last()
            == '\n',
    decreases k,
{
    let blocks = dep_file_names().map_values(|d: Seq<char>| dep_block(rs, files, d));
    if k > 0 {
        lemma_dep_blocks_end(rs, files, (k - 1) as nat);
        let t = blocks.take(k as int);
        assert(t.drop_last() =~= blocks.take(k - 1));
        let b = blocks[k - 1];
        assert(t.last() == b);
        reveal_strlit("\n");
        if b.len() > 0 {
            assert(concat(t) == concat(t.drop_last()) + b);
            assert(concat(t).last() == b.last());
        } else {
            assert(concat(t) =~= concat(t.drop_last()));
        }
    }
}

/// Written after the opening `<<`, the dependency summary is `deps_text`.
proof fn lemma_deps_after_open(o: Seq<char>, rs: Seq<Resource>, files: Seq<ScannedFile>)
    requires
        has_suffix(o, "<<"@),
    ensures
        deps_appended(o, rs, files) == o + deps_text(rs, files),
{
    let d = dep_blocks(rs, files);
    let blocks = dep_file_names().map_values(|n: Seq<char>| dep_block(rs, files, n));
    lemma_dep_blocks_end(rs, files, 6);
    assert(blocks.take(6) =~= blocks);
    reveal_strlit("<<");
    if d.len() == 0 {
        assert(o + d =~= o);
    } else {
        let od = o + d;
        assert(od.last() == '\n');
        assert(!has_suffix(od, "<<"@)) by {
            if has_suffix(od, "<<"@) {
                assert(od.subrange(od.len() - 2, od.len() as int)[1] == od.last());
            }
        }
    }
}

/// The body of `@M DEPS` (see `deps_text`).
pub(crate) fn deps_body(partition: &PartitionResult, files: &Vec<ScannedFile>) -> (res: Vec<char>)
    ensures
        res@ == deps_text(partition.resources@, files@),
{
    let mut buf: Vec<char> = Vec::new();
    push_str(&mut buf, "<<");
    let ghost o = buf@;
    assert(o =~= "<<"@);
    proof {
        reveal_strlit("<<");
        assert(o.subrange(o.len() - 2, o.len() as int) =~= o);
        lemma_deps_after_open(o, partition.resources@, files@);
    }
    emit_deps_summary(&mut buf, partition, files);
    assert(buf@ == o + deps_text(partition.resources@, files@));
    assert(o.len() == 2) by {
        reveal_strlit("<<");
    }
    let res = crate::text::copy_range(&buf, 2, buf.len());
    assert(res@ =~= deps_text(partition.resources@, files@));
    res
}

/// The payload of one hot resource (see `hot_payload`).
pub fn hot_entry_payload(rs: &Vec<Resource>, files: &Vec<ScannedFile>, e: &(String, crate::types::HotStrategy)) -> (res: Option<String>)
    ensures
        match res {
            Some(pl) => hot_payload(rs@, files@, *e) == Some(pl@),
            None => hot_payload(rs@, files@, *e) is None,
        },
{
    // Find the corresponding scanned file
    if let Some(ri) = find_resource_with_id(rs, &e.0) {
        if let Some(fi) = find_file_at_path(files, &rs[ri].path) {
            let scanned = &files[fi];
            return Some(apply_strategy(scanned.abs_path.as_str(), &scanned.content, &e.1));
        }
    }
    None
}

fn hot_entry_exec(rs: &Vec<Resource>, files: &Vec<ScannedFile>, e: &(String, crate::types::HotStrategy)) -> (res: Vec<char>)
    ensures
        res@ == hot_entry_text(rs@, files@, *e),
{
    let mut out: Vec<char> = Vec::new();
    if let Some(payload) = hot_entry_payload(rs, files, e) {
        push_str(&mut out, "@M ");
        assert(out@ =~= "@M "@);
        push_str(&mut out, e.0.as_str());
        push_str(&mut out, "\n<<");
        let pc = chars_of(payload.as_str());
        let esc = escape_payload(&pc);
        push_chars(&mut out, &esc);
        push_str(&mut out, ">>\n\n");
    }
    out
}

/// Emit the @M hot memory section.
pub fn emit_hot_memory(out: &mut Vec<char>, files: &Vec<ScannedFile>, partition: &PartitionResult)
    ensures
        final(out)@ == old(out)@ + hot_memory_text(*partition, files@),
{
    let mut m: Vec<char> = Vec::new();
    // Emit CTX entry, then the ARCH summary
    push_str(&mut m, "@M CTX\n<<task=initial compilation;focus=all>>\n\n@M ARCH\n<<");
    assert(m@ =~= "@M CTX\n<<task=initial compilation;focus=all>>\n\n@M ARCH\n<<"@);
    let mut arch: Vec<char> = Vec::new();
    emit_architecture_summary(&mut arch, partition);
    assert(arch@ =~= arch_text(*partition));
    let arch_esc = escape_payload(&arch);
    push_chars(&mut m, &arch_esc);
    // Emit DEPS summary
    push_str(&mut m, ">>\n\n@M DEPS\n<<");
    let deps = deps_body(partition, files);
    let deps_esc = escape_payload(&deps);
    push_chars(&mut m, &deps_esc);
    push_str(&mut m, ">>\n\n");
    // Emit hot file entries
    let ghost es = partition.hot_strategies@.map_values(
        |e: (String, crate::types::HotStrategy)| hot_entry_text(partition.resources@, files@, e),
    );
    let mut hot: Vec<char> = Vec::new();
    let mut i: usize = 0;
    while i < partition.hot_strategies.len()
        invariant
            i <= partition.hot_strategies.len(),
            es == partition.hot_strategies@.map_values(
                |e: (String, crate::types::HotStrategy)| hot_entry_text(partition.resources@, files@, e),
            ),
            hot@ == concat(es.take(i as int)),
        decreases partition.hot_strategies.len() - i,
    {
        let h = hot_entry_exec(&partition.resources, files, &partition.hot_strategies[i]);
        push_chars(&mut hot, &h);
        assert(es.take(i + 1).drop_last() =~= es.take(i as int));
        i += 1;
    }
    assert(es.take(partition.hot_strategies.len() as int) =~= es);
    push_chars(&mut m, &hot);
    assert(m@ =~= hot_memory_text(*partition, files@));
    push_chars(out, &m);
}

/// Emit a complete AIMF document for a given compilation timestamp.
pub fn emit_at(config: &CompilerConfig, files: &Vec<ScannedFile>, partition: &PartitionResult, ts: &str) -> (res: String)
    ensures
        res@ == document_text(*config, files@, *partition, ts@),
{
    let mut out: Vec<char> = Vec::new();
    emit_header(&mut out, config, partition, ts);
    assert(out@ =~= header_text(*config, *partition, ts@));
    emit_groups(&mut out, &partition.groups);
    emit_index(&mut out, &partition.resources);
    emit_hot_memory(&mut out, files, partition);
    string_from(&out)
}

/// Emit a complete AIMF document as a string, stamped with the current time.
/// `None` where the system clock reads before the Unix epoch.
pub fn emit(config: &CompilerConfig, files: &Vec<ScannedFile>, partition: &PartitionResult) -> (res: Option<String>)
    ensures
        res matches Some(t) ==> exists|ts: Seq<char>|
            is_clock_stamp(ts) && has_suffix(ts, seq!['Z']) && t@ == document_text(
                *config,
                files@,
                *partition,
                ts,
            ),
{
    match utc_timestamp() {
        Some(ts) => {
            let t = emit_at(config, files, partition, ts.as_str());
            assert(is_clock_stamp(ts@) && has_suffix(ts@, seq!['Z']) && t@ == document_text(*config, files@, *partition, ts@));
            Some(t)
        },
        None => None,
    }
}


// ─── Laws of the hot memory ────────────────────────────────────

proof fn lemma_resource_with_id_at(rs: Seq<Resource>, id: Seq<char>, i: int)
    requires
        0 <= i < rs.len(),
        rs[i].id@ == id,
        forall|j: int| 0 <= j < i ==> rs[j].id@ != id,
    ensures
        resource_with_id(rs, id) == i,
{
    let p = has_id(rs, id);
    assert forall|j: int| 0 <= j < i implies !#[trigger] p(j) by {}
    lemma_first_where_found(rs.len(), p, i);
}

proof fn lemma_file_at_path_found(files: Seq<ScannedFile>, path: Seq<char>, i: int)
    requires
        0 <= i < files.len(),
        files[i].path@ == path,
    ensures
        0 <= file_at_path(files, path) <= i,
        files[file_at_path(files, path)].path@ == path,
{
    let p = is_at_path(files, path);
    assert(p(i));
    lemma_first_where_props(files.len(), p);
}

/// No path occurs twice in the listing.
pub open spec fn paths_distinct(files: Seq<ScannedFile>) -> bool {
    forall|i: int, j: int| 0 <= i < j < files.len() ==> files[i].path@ != files[j].path@
}

/// Every hot resource of a partition gets its `@M` entry: the resource with
/// the hot id is found, and so is a file at its path.  Where the listing names
/// no path twice, the payload is what the resource's strategy makes of its own
/// file.
pub proof fn every_hot_resource_is_materialized(
    p: PartitionResult,
    files: Seq<ScannedFile>,
    config: CompilerConfig,
    k: int,
    i: int,
)
    requires
        is_partition_of(p, files, config),
        0 <= k < p.hot_strategies.len(),
        0 <= i < files.len(),
        p.resources@[i].id@ == p.hot_strategies@[k].0@,
    ensures
        hot_payload(p.resources@, files, p.hot_strategies@[k]) is Some,
        paths_distinct(files) ==> hot_payload(p.resources@, files, p.hot_strategies@[k]) == Some(
            apply_strategy_spec(files[i].abs_path@, content_view(files[i].content), p.hot_strategies@[k].1),
        ),
{
    let rs = p.resources@;
    let id = p.hot_strategies@[k].0@;
    assert forall|j: int| 0 <= j < i implies rs[j].id@ != id by {
        resource_ids_are_distinct(p, files, config, j, i);
    }
    lemma_resource_with_id_at(rs, id, i);
    assert(resource_of(rs[i], files[i], i, groups_for(config)));
    lemma_file_at_path_found(files, rs[i].path@, i);
    let fi = file_at_path(files, rs[i].path@);
    if paths_distinct(files) && fi < i {
        assert(files[fi].path@ != files[i].path@);
    }
}

} // verus!
