//! Files discovered under the project root, and the computations made on
//! them: which paths are ignored, the content hash, and the order of the
//! listing.  Walking the directory and reading the files is left to the caller.
use vstd::prelude::*;
use crate::partitioner::{glob_match, glob_pattern_matches, glob_pattern_valid};
use crate::text::{chars_of, copy_range, eq_chars, has_prefix, has_suffix, occurs_at_exec, string_views};

verus! {

/// A raw file entry discovered during scanning.
#[derive(Debug)]
pub struct ScannedFile {
    pub path: String,  // relative to root, '/'-separated
    pub abs_path: String,  // absolute path for reading
    pub size: u64,
    pub hash: String,  // 8-char truncated SHA-256
    pub content: Option<String>,  // the file as UTF-8 text; None where unreadable
}

// ─── Ignore patterns ───────────────────────────────────────────

pub open spec fn glob_tail() -> Seq<char> {
    seq!['/', '*', '*']
}

/// `str::trim_end_matches("/**")`: every trailing `/**` removed.
pub open spec fn trim_glob_tail(p: Seq<char>) -> Seq<char>
    decreases p.len(),
{
    if p.len() >= 3 && has_suffix(p, glob_tail()) {
        trim_glob_tail(p.subrange(0, p.len() - 3))
    } else {
        p
    }
}

/// The path is the directory (or file) `d`, or lies under it: `d` is a
/// whole leading part of the path, ended by `/` or by the end of the path.
pub open spec fn under_prefix(path: Seq<char>, d: Seq<char>) -> bool {
    ||| path == d
    ||| has_prefix(path, d.push('/'))
    ||| d.len() > 0 && d.last() == '/' && has_prefix(path, d)
}

/// A path is ignored by a pattern when the pattern compiles and matches it,
/// or when the pattern stripped of its trailing `/**` is a directory prefix
/// of the path.
pub open spec fn ignored_by(path: Seq<char>, pattern: Seq<char>) -> bool {
    (glob_pattern_valid(pattern) && glob_pattern_matches(pattern, path)) || under_prefix(
        path,
        trim_glob_tail(pattern),
    )
}

pub open spec fn should_ignore_spec(path: Seq<char>, patterns: Seq<Seq<char>>) -> bool {
    exists|k: int| 0 <= k < patterns.len() && ignored_by(path, patterns[k])
}

fn trim_glob_tail_exec(p: &[char]) -> (res: Vec<char>)
    ensures
        res@ == trim_glob_tail(p@),
{
    let tail: [char; 3] = ['/', '*', '*'];
    assert(tail@ =~= glob_tail());
    let mut end: usize = p.len();
    assert(p@.subrange(0, p.len() as int) =~= p@);
    while end >= 3 && occurs_at_exec(p, &tail, end - 3)
        invariant
            end <= p.len(),
            tail@ == glob_tail(),
            trim_glob_tail(p@) == trim_glob_tail(p@.subrange(0, end as int)),
        decreases end,
    {
        proof {
            let q = p@.subrange(0, end as int);
            assert(q.subrange(q.len() - 3, q.len() as int) =~= p@.subrange(end - 3, end as int));
            assert(q.subrange(0, q.len() - 3) =~= p@.subrange(0, end - 3));
        }
        end -= 3;
    }
    proof {
        let q = p@.subrange(0, end as int);
        if end >= 3 {
            assert(q.subrange(q.len() - 3, q.len() as int) =~= p@.subrange(end - 3, end as int));
        }
        assert(trim_glob_tail(q) == q);
    }
    copy_range(p, 0, end)
}

fn under_prefix_exec(path: &[char], d: &Vec<char>) -> (res: bool)
    ensures
        res == under_prefix(path@, d@),
{
    if eq_chars(path, d) {
        return true;
    }
    let mut ds = copy_range(d, 0, d.len());
    assert(ds@ =~= d@);
    ds.push('/');
    assert(ds@ == d@.push('/'));
    if occurs_at_exec(path, &ds, 0) {
        return true;
    }
    if d.len() > 0 && d[d.len() - 1] == '/' {
        assert(d@.last() == '/');
        occurs_at_exec(path, d, 0)
    } else {
        false
    }
}

/// Check if a path matches any ignore pattern.
pub fn should_ignore(path: &str, patterns: &Vec<String>) -> (res: bool)
    ensures
        res == should_ignore_spec(path@, string_views(patterns@)),
{
    let pc = chars_of(path);
    let ghost ps = string_views(patterns@);
    let mut k: usize = 0;
    while k < patterns.len()
        invariant
            k <= patterns.len(),
            pc@ == path@,
            ps == string_views(patterns@),
            forall|j: int| 0 <= j < k ==> !ignored_by(path@, ps[j]),
        decreases patterns.len() - k,
    {
        let pattern = &patterns[k];
        assert(ps[k as int] == pattern@);
        if let Some(m) = glob_match(pattern.as_str(), path) {
            if m {
                return true;
            }
        }
        // Also check if the pattern is a directory prefix
        let pat = chars_of(pattern.as_str());
        let prefix = trim_glob_tail_exec(&pat);
        if under_prefix_exec(&pc, &prefix) {
            return true;
        }
        k += 1;
    }
    false
}

// ─── Content hash (the `sha2` and `hex` crates) ────────────────

/// The SHA-256 digest of the bytes.
pub uninterp spec fn sha256_digest(data: Seq<u8>) -> Seq<u8>;

/// Calls `sha2::Sha256::digest` (new, update, finalize).  The contract names
/// the digest and states its documented length, 32 bytes.
#[verifier::external_body]
pub(crate) fn sha256(data: &[u8]) -> (res: Vec<u8>)
    ensures
        res@ == sha256_digest(data@),
        res@.len() == 32,
{
    <sha2::Sha256 as sha2::Digest>::digest(data).to_vec()
}

pub open spec fn hex_digit(d: u8) -> char {
    if d < 10 {
        ((d + 48) as u8) as char
    } else {
        ((d + 87) as u8) as char
    }
}

/// Lowercase hexadecimal, two characters per byte, high nibble first.
pub open spec fn hex_lower(bytes: Seq<u8>) -> Seq<char>
    decreases bytes.len(),
{
    if bytes.len() == 0 {
        seq![]
    } else {
        hex_lower(bytes.drop_last()) + seq![
            hex_digit(bytes.last() / 16),
            hex_digit(bytes.last() % 16),
        ]
    }
}

/// Calls `hex::encode`, which writes each byte as two characters of
/// `0123456789abcdef`, high nibble first (as the crate's source shows).
#[verifier::external_body]
pub(crate) fn hex_encode(bytes: &[u8]) -> (res: String)
    ensures
        res@ == hex_lower(bytes@),
{
    hex::encode(bytes)
}

/// The hash written in the index: the first 4 bytes of the SHA-256 of the
/// content in hex, or `00000000` when the file could not be read.
pub open spec fn hash_spec(bytes: Option<Seq<u8>>) -> Seq<char> {
    match bytes {
        Some(b) => hex_lower(sha256_digest(b).take(4)),
        None => "00000000"@,
    }
}

/// Compute a truncated SHA-256 hash (8 hex chars).
pub fn compute_hash(bytes: &Option<Vec<u8>>) -> (res: String)
    ensures
        res@ == hash_spec(match bytes {
            Some(b) => Some(b@),
            None => None,
        }),
        res@.len() == 8,
{
    match bytes {
        Some(b) => {
            let digest = sha256(b.as_slice());
            let head = copy_bytes(&digest, 4);
            proof {
                hash_is_eight_hex_chars(Some(b@));
            }
            hex_encode(head.as_slice())  // 8 hex chars = 4 bytes
        },
        None => {
            proof {
                hash_is_eight_hex_chars(None);
            }
            String::from_str("00000000")
        },
    }
}

fn copy_bytes(v: &Vec<u8>, n: usize) -> (res: Vec<u8>)
    requires
        n <= v.len(),
    ensures
        res@ == v@.take(n as int),
{
    let mut res: Vec<u8> = Vec::new();
    let mut i: usize = 0;
    while i < n
        invariant
            i <= n <= v.len(),
            res@ == v@.take(i as int),
        decreases n - i,
    {
        res.push(v[i]);
        assert(v@.take(i + 1) =~= v@.take(i as int).push(v@[i as int]));
        i += 1;
    }
    res
}

/// Every hash is eight hexadecimal characters.
pub proof fn hash_is_eight_hex_chars(bytes: Option<Seq<u8>>)
    requires
        bytes matches Some(b) ==> sha256_digest(b).len() == 32,
    ensures
        hash_spec(bytes).len() == 8,
{
    match bytes {
        Some(b) => {
            let d = sha256_digest(b).take(4);
            assert(d.drop_last().drop_last().drop_last().drop_last().len() == 0);
            assert(hex_lower(d).len() == 8) by {
                reveal_with_fuel(hex_lower, 5);
            }
        },
        None => {
            reveal_strlit("00000000");
        },
    }
}

// ─── Order of the listing ──────────────────────────────────────

/// Path order: character by character, with `/` before every other
/// character, so a directory's files come before a sibling name that extends
/// the directory's name (the order of `Path`'s components).
pub open spec fn path_char_lt(a: char, b: char) -> bool {
    if a == '/' {
        b != '/'
    } else if b == '/' {
        false
    } else {
        (a as u32) < (b as u32)
    }
}

pub open spec fn path_lt(a: Seq<char>, b: Seq<char>) -> bool
    decreases a.len(),
{
    if a.len() == 0 {
        b.len() > 0
    } else if b.len() == 0 {
        false
    } else if a[0] == b[0] {
        path_lt(a.drop_first(), b.drop_first())
    } else {
        path_char_lt(a[0], b[0])
    }
}

pub open spec fn sorted_by_path(fs: Seq<ScannedFile>) -> bool {
    forall|i: int, j: int| 0 <= i < j < fs.len() ==> !path_lt(fs[j].path@, fs[i].path@)
}

fn path_lt_exec(a: &[char], b: &[char]) -> (res: bool)
    ensures
        res == path_lt(a@, b@),
{
    let mut i: usize = 0;
    assert(a@.subrange(0, a.len() as int) =~= a@);
    assert(b@.subrange(0, b.len() as int) =~= b@);
    while i < a.len() && i < b.len() && a[i] == b[i]
        invariant
            i <= a.len(),
            i <= b.len(),
            path_lt(a@, b@) == path_lt(a@.subrange(i as int, a.len() as int), b@.subrange(i as int, b.len() as int)),
        decreases a.len() - i,
    {
        proof {
            let x = a@.subrange(i as int, a.len() as int);
            let y = b@.subrange(i as int, b.len() as int);
            assert(x.drop_first() =~= a@.subrange(i + 1, a.len() as int));
            assert(y.drop_first() =~= b@.subrange(i + 1, b.len() as int));
        }
        i += 1;
    }
    proof {
        let x = a@.subrange(i as int, a.len() as int);
        let y = b@.subrange(i as int, b.len() as int);
        if i < a.len() && i < b.len() {
            assert(x[0] == a@[i as int] && y[0] == b@[i as int]);
        }
    }
    if i == a.len() {
        i < b.len()
    } else if i == b.len() {
        false
    } else {
        let x = a[i];
        let y = b[i];
        if x == '/' {
            y != '/'
        } else if y == '/' {
            false
        } else {
            (x as u32) < (y as u32)
        }
    }
}

/// Sort by path for deterministic output: the same files, ordered by path.
pub fn sort_by_path(files: Vec<ScannedFile>) -> (res: Vec<ScannedFile>)
    ensures
        res@.to_multiset() == files@.to_multiset(),
        sorted_by_path(res@),
{
    broadcast use vstd::seq_lib::group_to_multiset_ensures, vstd::multiset::group_multiset_axioms;

    let ghost orig = files@;
    let mut rest = files;
    let mut keys: Vec<Vec<char>> = Vec::new();
    let mut i: usize = 0;
    while i < rest.len()
        invariant
            i <= rest.len(),
            keys.len() == i,
            forall|k: int| 0 <= k < i ==> (#[trigger] keys@[k])@ == rest@[k].path@,
        decreases rest.len() - i,
    {
        keys.push(chars_of(rest[i].path.as_str()));
        i += 1;
    }
    let mut out: Vec<ScannedFile> = Vec::new();
    assert(out@.to_multiset().add(rest@.to_multiset()) =~= orig.to_multiset());
    while rest.len() > 0
        invariant
            keys.len() == rest.len(),
            forall|k: int| 0 <= k < rest.len() ==> (#[trigger] keys@[k])@ == rest@[k].path@,
            out@.to_multiset().add(rest@.to_multiset()) == orig.to_multiset(),
            sorted_by_path(out@),
            forall|a: int, b: int|
                0 <= a < out.len() && 0 <= b < rest.len() ==> !path_lt(
                    rest@[b].path@,
                    out@[a].path@,
                ),
        decreases rest.len(),
    {
        let mut m: usize = 0;
        let mut j: usize = 1;
        proof {
            lemma_path_lt_irreflexive(rest@[0].path@);
        }
        while j < rest.len()
            invariant
                0 < rest.len(),
                keys.len() == rest.len(),
                forall|k: int| 0 <= k < rest.len() ==> (#[trigger] keys@[k])@ == rest@[k].path@,
                m < j <= rest.len(),
                forall|k: int| 0 <= k < j ==> !path_lt(rest@[k].path@, rest@[m as int].path@),
            decreases rest.len() - j,
        {
            if path_lt_exec(&keys[j], &keys[m]) {
                proof {
                    lemma_path_lt_transitive_negation(rest@, m as int, j as int);
                }
                m = j;
            }
            j += 1;
        }
        let ghost r0 = rest@;
        let ghost o0 = out@;
        let f = rest.remove(m);
        let _k = keys.remove(m);
        out.push(f);
        proof {
            vstd::seq_lib::to_multiset_remove(r0, m as int);
            vstd::seq_lib::to_multiset_build(o0, f);
            assert(r0.remove(m as int) == rest@);
            assert(r0.to_multiset().count(f) > 0) by {
                vstd::seq_lib::to_multiset_contains(r0, f);
            }
            assert(out@.to_multiset().add(rest@.to_multiset()) =~= orig.to_multiset());
            assert forall|k: int| 0 <= k < rest.len() implies (#[trigger] keys@[k])@ == rest@[k].path@ by {
                if k < m {
                } else {
                    assert(rest@[k] == r0[k + 1]);
                }
            }
            assert forall|a: int, b: int|
                0 <= a < out.len() && 0 <= b < rest.len() implies !path_lt(
                    rest@[b].path@,
                    out@[a].path@,
                ) by {
                let bb = if b < m { b } else { b + 1 };
                assert(rest@[b] == r0[bb]);
            }
            assert forall|a: int, b: int| 0 <= a < b < out.len() implies !path_lt(
                out@[b].path@,
                out@[a].path@,
            ) by {
                if b == o0.len() {
                    assert(out@[b] == r0[m as int]);
                }
            }
        }
    }
    out
}

/// If `b` is not before `a` for all earlier items, and `j` is before `m`,
/// then no earlier item is before `j` either.
proof fn lemma_path_lt_transitive_negation(rs: Seq<ScannedFile>, m: int, j: int)
    requires
        0 <= m < rs.len(),
        0 <= j < rs.len(),
        path_lt(rs[j].path@, rs[m].path@),
        forall|k: int| 0 <= k < j ==> !path_lt(rs[k].path@, rs[m].path@),
    ensures
        forall|k: int| 0 <= k <= j ==> !path_lt(rs[k].path@, rs[j].path@),
{
    assert forall|k: int| 0 <= k <= j implies !path_lt(rs[k].path@, rs[j].path@) by {
        if k == j {
            lemma_path_lt_irreflexive(rs[j].path@);
        } else if path_lt(rs[k].path@, rs[j].path@) {
            lemma_path_lt_transitive(rs[k].path@, rs[j].path@, rs[m].path@);
        }
    }
}

/// The path order is total: of two different paths, one comes first.
pub proof fn path_order_is_total(a: Seq<char>, b: Seq<char>)
    requires
        a != b,
    ensures
        path_lt(a, b) || path_lt(b, a),
    decreases a.len(),
{
    if a.len() > 0 && b.len() > 0 && a[0] == b[0] {
        assert(a.drop_first() != b.drop_first()) by {
            if a.drop_first() == b.drop_first() {
                assert(a =~= seq![a[0]] + a.drop_first());
                assert(b =~= seq![b[0]] + b.drop_first());
            }
        }
        path_order_is_total(a.drop_first(), b.drop_first());
    } else if a.len() == 0 && b.len() == 0 {
        assert(a =~= b);
    } else if a.len() > 0 && b.len() > 0 {
        let x = a[0] as u32;
        let y = b[0] as u32;
        vstd::utf8::char_u32_cast(a[0], x);
        vstd::utf8::char_u32_cast(b[0], y);
        assert(x != y);
    }
}

pub proof fn lemma_path_lt_irreflexive(a: Seq<char>)
    ensures
        !path_lt(a, a),
    decreases a.len(),
{
    if a.len() > 0 {
        lemma_path_lt_irreflexive(a.drop_first());
    }
}

pub proof fn lemma_path_lt_transitive(a: Seq<char>, b: Seq<char>, c: Seq<char>)
    requires
        path_lt(a, b),
        path_lt(b, c),
    ensures
        path_lt(a, c),
    decreases a.len(),
{
    if a.len() > 0 && b.len() > 0 && c.len() > 0 {
        if a[0] == b[0] && b[0] == c[0] {
            lemma_path_lt_transitive(a.drop_first(), b.drop_first(), c.drop_first());
        }
    }
}

} // verus!
