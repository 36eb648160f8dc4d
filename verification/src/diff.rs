//! The diff engine: reconciles two collections of file metadata into
//! create/update/delete operations, and ranks operations for execution.

use rayon::iter::IntoParallelRefIterator;
use rayon::iter::ParallelIterator;
use vstd::prelude::*;
use vstd::seq_lib::*;
use vstd::string::StrSliceExecFns;
use vstd::string::StringExecFns;

use crate::{DiffResult, DiffStatistics, FileDiff, FileMetadata, MetaView, OpView, OperationKind};

verus! {

broadcast use vstd::seq_lib::group_seq_lib_default;

/// A path with every backslash rewritten to a forward slash. Two paths that
/// normalize to the same string name the same file; nothing else (case,
/// `.`/`..`, trailing slashes) is reconciled.
pub open spec fn normalize_spec(p: Seq<char>) -> Seq<char> {
    p.map_values(|c: char| if c == '\\' { '/' } else { c })
}

/// The destination record a source path is compared against: the *last*
/// record whose normalized path equals `np`. When duplicate normalized paths
/// occur within one side the last one wins and the others are silently
/// dropped from the comparison, mirroring map-insert-overwrite semantics.
pub open spec fn lookup_norm(recs: Seq<MetaView>, np: Seq<char>) -> Option<MetaView>
    decreases recs.len(),
{
    if recs.len() == 0 {
        None
    } else if normalize_spec(recs.last().path) == np {
        Some(recs.last())
    } else {
        lookup_norm(recs.drop_last(), np)
    }
}

/// Whether some record of `recs` has `np` as its normalized path.
pub open spec fn has_norm(recs: Seq<MetaView>, np: Seq<char>) -> bool {
    exists|i: int| 0 <= i < recs.len() && normalize_spec(recs[i].path) == np
}

/// Two records are equal — and produce no operation — only when both the
/// content hash and the size agree. The hash is the authoritative signal;
/// the size is checked defensively. Modified time and permissions are never
/// consulted.
pub open spec fn needs_update_spec(source: MetaView, dest: MetaView) -> bool {
    source.hash != dest.hash || source.size != dest.size
}

/// The operation (if any) emitted for one source record against the
/// destination collection.
pub open spec fn compare_spec(source: MetaView, dest: Seq<MetaView>) -> Option<OpView> {
    match lookup_norm(dest, normalize_spec(source.path)) {
        None => Some(
            (OpView {
                path: source.path,
                operation: OperationKind::Create,
                source_hash: source.hash,
                dest_hash: Seq::empty(),
                size: source.size,
            }),
        ),
        Some(d) => if needs_update_spec(source, d) {
            Some(
                (OpView {
                    path: source.path,
                    operation: OperationKind::Update,
                    source_hash: source.hash,
                    dest_hash: d.hash,
                    size: source.size,
                }),
            )
        } else {
            None
        },
    }
}

/// The full create/update pass: one comparison per source record, in source
/// order, records that compare equal contributing nothing.
pub open spec fn diff_ops_spec(source: Seq<MetaView>, dest: Seq<MetaView>) -> Seq<OpView> {
    source.filter_map(|s: MetaView| compare_spec(s, dest))
}

/// The delete operation (if any) emitted for one destination record: its
/// normalized path must be absent from the whole source collection.
pub open spec fn delete_spec(d: MetaView, source: Seq<MetaView>) -> Option<OpView> {
    if !has_norm(source, normalize_spec(d.path)) {
        Some(
            (OpView {
                path: d.path,
                operation: OperationKind::Delete,
                source_hash: Seq::empty(),
                dest_hash: d.hash,
                size: d.size,
            }),
        )
    } else {
        None
    }
}

/// The delete pass: one check per destination record, in destination order.
pub open spec fn delete_ops_spec(source: Seq<MetaView>, dest: Seq<MetaView>) -> Seq<OpView> {
    dest.filter_map(|d: MetaView| delete_spec(d, source))
}

/// ASCII-lowercase of one character; other characters are unchanged.
pub open spec fn lower_char_spec(c: char) -> char {
    if 'A' <= c && c <= 'Z' {
        ((c as u32 + 32) as u8) as char
    } else {
        c
    }
}

/// ASCII-lowercase of a string.
pub open spec fn lower_spec(s: Seq<char>) -> Seq<char> {
    s.map_values(|c: char| lower_char_spec(c))
}

/// Case-insensitive (ASCII) string equality.
pub open spec fn ci_eq(a: Seq<char>, b: Seq<char>) -> bool {
    lower_spec(a) == lower_spec(b)
}

/// Whether `c` separates path components.
pub open spec fn is_sep(c: char) -> bool {
    c == '/' || c == '\\'
}

/// The index of the last path separator in `p`, or -1 when there is none.
pub open spec fn last_sep(p: Seq<char>) -> int
    decreases p.len(),
{
    if p.len() == 0 {
        -1
    } else if is_sep(p.last()) {
        p.len() - 1
    } else {
        last_sep(p.drop_last())
    }
}

/// The file name: everything after the last path separator.
pub open spec fn filename_of(p: Seq<char>) -> Seq<char> {
    p.subrange(last_sep(p) + 1, p.len() as int)
}

/// The index of the last dot in a file name, or -1 when there is none.
pub open spec fn last_dot(f: Seq<char>) -> int
    decreases f.len(),
{
    if f.len() == 0 {
        -1
    } else if f.last() == '.' {
        f.len() - 1
    } else {
        last_dot(f.drop_last())
    }
}

/// The extension of a file name: everything after the last dot, provided
/// that dot is not the leading character (so a dotfile such as a hidden
/// configuration file has no extension).
pub open spec fn extension_of(f: Seq<char>) -> Option<Seq<char>> {
    let d = last_dot(f);
    if d > 0 {
        Some(f.subrange(d + 1, f.len() as int))
    } else {
        None
    }
}

/// Priority contribution of the operation kind: creations first, then
/// updates, then deletions.
pub open spec fn kind_bonus(k: OperationKind) -> int {
    match k {
        OperationKind::Create => 100,
        OperationKind::Update => 50,
        OperationKind::Delete => 10,
    }
}

/// Priority contribution of the size: small files first. The tiers break at
/// 1 MiB and 10 MiB.
pub open spec fn size_bonus(size: int) -> int {
    if size < 1048576 {
        20
    } else if size < 10485760 {
        10
    } else {
        0
    }
}

/// Priority contribution of the extension: configuration formats first, then
/// documentation, then source code. Matching is ASCII case-insensitive.
pub open spec fn extension_bonus(p: Seq<char>) -> int {
    match extension_of(filename_of(p)) {
        None => 0,
        Some(e) => if ci_eq(e, "json"@) || ci_eq(e, "yaml"@) || ci_eq(e, "yml"@) || ci_eq(
            e,
            "toml"@,
        ) || ci_eq(e, "ini"@) {
            30
        } else if ci_eq(e, "md"@) || ci_eq(e, "txt"@) || ci_eq(e, "readme"@) {
            25
        } else if ci_eq(e, "go"@) || ci_eq(e, "rs"@) || ci_eq(e, "py"@) || ci_eq(e, "js"@) || ci_eq(
            e,
            "ts"@,
        ) {
            20
        } else {
            0
        },
    }
}

/// Priority contribution of well-known file names, ASCII case-insensitive.
pub open spec fn filename_bonus(p: Seq<char>) -> int {
    let f = filename_of(p);
    if ci_eq(f, "makefile"@) || ci_eq(f, "dockerfile"@) || ci_eq(f, "readme.md"@) {
        40
    } else if ci_eq(f, "package.json"@) || ci_eq(f, "go.mod"@) || ci_eq(f, "cargo.toml"@) {
        35
    } else {
        0
    }
}

/// The deterministic priority score of an operation: the four signals are
/// additive and independent, higher means apply sooner.
pub open spec fn score_spec(op: OpView) -> int {
    kind_bonus(op.operation) + size_bonus(op.size) + extension_bonus(op.path) + filename_bonus(
        op.path,
    )
}

/// Descending order by score.
pub open spec fn sorted_by_score(ops: Seq<OpView>) -> bool {
    forall|i: int, j: int|
        #![trigger score_spec(ops[i]), score_spec(ops[j])]
        0 <= i < j < ops.len() ==> score_spec(ops[i]) >= score_spec(ops[j])
}

/// The subsequence of `ops` whose score is exactly `s`, in their original
/// order. A stable sort must preserve every score class.
pub open spec fn score_class(ops: Seq<OpView>, s: int) -> Seq<OpView> {
    ops.filter(|o: OpView| score_spec(o) == s)
}

/// The score class of a one-element sequence: the element itself when its
/// score is `s`, nothing otherwise.
proof fn lemma_score_class_singleton(x: OpView, s: int)
    ensures
        score_class(seq![x], s) == if score_spec(x) == s {
            seq![x]
        } else {
            Seq::<OpView>::empty()
        },
{
    reveal_with_fuel(Seq::filter, 3);
    assert(seq![x].drop_last() =~= Seq::<OpView>::empty());
    assert(score_class(Seq::<OpView>::empty(), s) =~= Seq::<OpView>::empty());
    if score_spec(x) == s {
        assert(score_class(seq![x], s) =~= seq![x]);
    } else {
        assert(score_class(seq![x], s) =~= Seq::<OpView>::empty());
    }
}

/// A sequence none of whose elements has score `s` has an empty `s` class.
proof fn lemma_score_class_absent(ops: Seq<OpView>, s: int)
    requires
        forall|k: int| 0 <= k < ops.len() ==> score_spec(#[trigger] ops[k]) != s,
    ensures
        score_class(ops, s) == Seq::<OpView>::empty(),
    decreases ops.len(),
{
    reveal(Seq::filter);
    if ops.len() > 0 {
        lemma_score_class_absent(ops.drop_last(), s);
    }
}

/// How many operations of kind `k` a pass emitted.
pub open spec fn count_kind(ops: Seq<OpView>, k: OperationKind) -> int {
    ops.filter(|o: OpView| o.operation == k).len() as int
}

/// The sum of the sizes attributed to the operations, in order.
pub open spec fn total_size_spec(ops: Seq<OpView>) -> int
    decreases ops.len(),
{
    if ops.len() == 0 {
        0
    } else {
        total_size_spec(ops.drop_last()) + ops.last().size
    }
}

/// Every prefix sum of the operation sizes stays within `i64`, so the
/// statistics accumulator cannot overflow.
pub open spec fn sizes_fit(ops: Seq<OpView>) -> bool {
    forall|k: int|
        0 <= k <= ops.len() ==> i64::MIN <= total_size_spec(#[trigger] ops.take(k)) <= i64::MAX
}

/// What the statistics of a create/update pass over `ops` must say, given
/// the two collection lengths.
pub open spec fn stats_match(
    n_source: int,
    n_dest: int,
    ops: Seq<OpView>,
    s: DiffStatistics,
) -> bool {
    &&& s.total_source_files == n_source
    &&& s.total_dest_files == n_dest
    &&& s.files_to_create == count_kind(ops, OperationKind::Create)
    &&& s.files_to_update == count_kind(ops, OperationKind::Update)
    &&& s.files_to_delete == count_kind(ops, OperationKind::Delete)
    &&& s.total_size == total_size_spec(ops)
}

/// ASCII-lowercase of one character.
fn char_lower(c: char) -> (r: char)
    ensures
        r == lower_char_spec(c),
{
    if 'A' <= c && c <= 'Z' {
        let u: u32 = c as u32;
        ((u + 32) as u8) as char
    } else {
        c
    }
}

/// Case-insensitive (ASCII) equality of two strings.
fn str_eq_ci(a: &str, b: &str) -> (r: bool)
    ensures
        r == ci_eq(a@, b@),
{
    let n = a.unicode_len();
    let m = b.unicode_len();
    if n != m {
        proof {
            assert(lower_spec(a@).len() == a@.len());
            assert(lower_spec(b@).len() == b@.len());
        }
        return false;
    }
    let mut i: usize = 0;
    while i < n
        invariant
            i <= n,
            n == a@.len() && n == b@.len(),
            forall|j: int| 0 <= j < i ==> lower_char_spec(a@[j]) == lower_char_spec(b@[j]),
        decreases n - i,
    {
        let ca = char_lower(a.get_char(i));
        let cb = char_lower(b.get_char(i));
        if ca != cb {
            proof {
                assert(lower_spec(a@)[i as int] != lower_spec(b@)[i as int]);
            }
            return false;
        }
        i = i + 1;
    }
    proof {
        assert(lower_spec(a@) =~= lower_spec(b@));
    }
    true
}

/// The index of the last path separator in `path`, scanning from the end.
fn find_last_sep(path: &str) -> (r: Option<usize>)
    ensures
        match r {
            Some(i) => last_sep(path@) == i && i < path@.len(),
            None => last_sep(path@) == -1,
        },
{
    let n = path.unicode_len();
    let mut i: usize = n;
    proof {
        assert(path@.take(n as int) =~= path@);
    }
    while i > 0
        invariant
            i <= n,
            n == path@.len(),
            last_sep(path@) == last_sep(path@.take(i as int)),
        decreases i,
    {
        i = i - 1;
        let c = path.get_char(i);
        proof {
            assert(path@.take(i + 1).last() == path@[i as int]);
            assert(path@.take(i + 1).drop_last() =~= path@.take(i as int));
        }
        if c == '/' || c == '\\' {
            return Some(i);
        }
    }
    proof {
        assert(path@.take(0) =~= Seq::<char>::empty());
    }
    None
}

/// The index of the last dot in a file name, scanning from the end.
fn find_last_dot(f: &str) -> (r: Option<usize>)
    ensures
        match r {
            Some(i) => last_dot(f@) == i && i < f@.len(),
            None => last_dot(f@) == -1,
        },
{
    let n = f.unicode_len();
    let mut i: usize = n;
    proof {
        assert(f@.take(n as int) =~= f@);
    }
    while i > 0
        invariant
            i <= n,
            n == f@.len(),
            last_dot(f@) == last_dot(f@.take(i as int)),
        decreases i,
    {
        i = i - 1;
        let c = f.get_char(i);
        proof {
            assert(f@.take(i + 1).last() == f@[i as int]);
            assert(f@.take(i + 1).drop_last() =~= f@.take(i as int));
        }
        if c == '.' {
            return Some(i);
        }
    }
    proof {
        assert(f@.take(0) =~= Seq::<char>::empty());
    }
    None
}

/// The operations of a pass that reference normalized path `np`.
pub open spec fn ops_for_path(ops: Seq<OpView>, np: Seq<char>) -> Seq<OpView> {
    ops.filter(|o: OpView| normalize_spec(o.path) == np)
}

/// No normalized path on one side occurs twice: the precondition under
/// which a record and its operations correspond one to one.
pub open spec fn distinct_norms(recs: Seq<MetaView>) -> bool {
    forall|a: int, b: int|
        #![trigger normalize_spec(recs[a].path), normalize_spec(recs[b].path)]
        0 <= a < b < recs.len() ==> normalize_spec(recs[a].path) != normalize_spec(recs[b].path)
}

/// `lookup_norm` finds a record exactly when one with that normalized path
/// exists.
pub proof fn lemma_lookup_has(recs: Seq<MetaView>, np: Seq<char>)
    ensures
        (lookup_norm(recs, np) is Some) <==> has_norm(recs, np),
    decreases recs.len(),
{
    if recs.len() == 0 {
    } else if normalize_spec(recs.last().path) == np {
        assert(normalize_spec(recs[recs.len() - 1].path) == np);
        assert(has_norm(recs, np));
    } else {
        lemma_lookup_has(recs.drop_last(), np);
        if has_norm(recs, np) {
            let i = choose|i: int| 0 <= i < recs.len() && normalize_spec(recs[i].path) == np;
            assert(i < recs.len() - 1);
            assert(recs.drop_last()[i] == recs[i]);
            assert(has_norm(recs.drop_last(), np));
        }
        if has_norm(recs.drop_last(), np) {
            let i = choose|i: int|
                0 <= i < recs.drop_last().len() && normalize_spec(recs.drop_last()[i].path) == np;
            assert(normalize_spec(recs[i].path) == np);
            assert(has_norm(recs, np));
        }
    }
}

/// The path class of a one-element sequence.
proof fn lemma_ops_for_path_singleton(op: OpView, np: Seq<char>)
    ensures
        ops_for_path(seq![op], np) == if normalize_spec(op.path) == np {
            seq![op]
        } else {
            Seq::<OpView>::empty()
        },
{
    reveal_with_fuel(Seq::filter, 3);
    assert(seq![op].drop_last() =~= Seq::<OpView>::empty());
    assert(ops_for_path(Seq::<OpView>::empty(), np) =~= Seq::<OpView>::empty());
    if normalize_spec(op.path) == np {
        assert(ops_for_path(seq![op], np) =~= seq![op]);
    } else {
        assert(ops_for_path(seq![op], np) =~= Seq::<OpView>::empty());
    }
}

/// A sequence of operations none of which references `np` has an empty
/// `np` class.
proof fn lemma_ops_for_path_absent(ops: Seq<OpView>, np: Seq<char>)
    requires
        forall|k: int| 0 <= k < ops.len() ==> normalize_spec((#[trigger] ops[k]).path) != np,
    ensures
        ops_for_path(ops, np) == Seq::<OpView>::empty(),
    decreases ops.len(),
{
    reveal(Seq::filter);
    if ops.len() > 0 {
        lemma_ops_for_path_absent(ops.drop_last(), np);
    }
}

/// Every operation of the create/update pass carries the path of some
/// source record.
proof fn lemma_diff_ops_paths(source: Seq<MetaView>, dest: Seq<MetaView>)
    ensures
        forall|t: int|
            0 <= t < diff_ops_spec(source, dest).len() ==> exists|k: int|
                0 <= k < source.len() && (#[trigger] diff_ops_spec(source, dest)[t]).path
                    == source[k].path,
    decreases source.len(),
{
    if source.len() > 0 {
        let rest = source.drop_last();
        lemma_diff_ops_paths(rest, dest);
        assert forall|t: int| 0 <= t < diff_ops_spec(source, dest).len() implies exists|k: int|
            0 <= k < source.len() && (#[trigger] diff_ops_spec(source, dest)[t]).path
                == source[k].path by {
            let ops = diff_ops_spec(source, dest);
            let ops_rest = diff_ops_spec(rest, dest);
            if t < ops_rest.len() {
                assert(ops[t] == ops_rest[t]);
                let k = choose|k: int|
                    0 <= k < rest.len() && (#[trigger] ops_rest[t]).path == rest[k].path;
                assert(source[k] == rest[k]);
                assert(0 <= k < source.len() && ops[t].path == source[k].path);
            } else {
                assert(ops[t].path == source[source.len() - 1].path);
                assert(0 <= source.len() - 1 < source.len() && ops[t].path == source[source.len()
                    - 1].path);
            }
        }
    }
}

/// With no duplicate normalized paths on the source side, the operations of
/// the create/update pass that reference record `i`'s normalized path are
/// exactly what comparing record `i` yields: one operation or none.
pub proof fn lemma_ops_for_record(source: Seq<MetaView>, dest: Seq<MetaView>, i: int)
    requires
        0 <= i < source.len(),
        distinct_norms(source),
    ensures
        ops_for_path(diff_ops_spec(source, dest), normalize_spec(source[i].path))
            == match compare_spec(source[i], dest) {
            Some(op) => seq![op],
            None => Seq::<OpView>::empty(),
        },
    decreases source.len(),
{
    let np = normalize_spec(source[i].path);
    let rest = source.drop_last();
    let ops = diff_ops_spec(source, dest);
    let ops_rest = diff_ops_spec(rest, dest);
    let last = source.last();
    if i == source.len() - 1 {
        lemma_diff_ops_paths(rest, dest);
        assert forall|t: int|
            0 <= t < ops_rest.len() implies normalize_spec((#[trigger] ops_rest[t]).path)
            != np by {
            let k = choose|k: int|
                0 <= k < rest.len() && (#[trigger] ops_rest[t]).path == rest[k].path;
            assert(rest[k] == source[k]);
            assert(normalize_spec(source[k].path) != normalize_spec(source[i].path));
        }
        lemma_ops_for_path_absent(ops_rest, np);
        match compare_spec(last, dest) {
            Some(op) => {
                assert(ops == ops_rest + seq![op]);
                assert(ops_for_path(ops, np) == ops_for_path(ops_rest, np) + ops_for_path(
                    seq![op],
                    np,
                ));
                lemma_ops_for_path_singleton(op, np);
                assert(normalize_spec(op.path) == np);
                assert(ops_for_path(ops, np) =~= seq![op]);
            },
            None => {
                assert(ops == ops_rest);
                assert(ops_for_path(ops, np) =~= Seq::<OpView>::empty());
            },
        }
    } else {
        assert(rest[i] == source[i]);
        assert(distinct_norms(rest)) by {
            assert(forall|a: int, b: int|
                #![trigger normalize_spec(rest[a].path), normalize_spec(rest[b].path)]
                0 <= a < b < rest.len() ==> normalize_spec(rest[a].path) != normalize_spec(
                    rest[b].path,
                ));
        }
        lemma_ops_for_record(rest, dest, i);
        assert(normalize_spec(last.path) != np);
        match compare_spec(last, dest) {
            Some(op) => {
                assert(ops == ops_rest + seq![op]);
                assert(ops_for_path(ops, np) == ops_for_path(ops_rest, np) + ops_for_path(
                    seq![op],
                    np,
                ));
                lemma_ops_for_path_singleton(op, np);
                assert(op.path == last.path);
                assert(ops_for_path(ops, np) =~= ops_for_path(ops_rest, np));
            },
            None => {
                assert(ops == ops_rest);
            },
        }
        assert(ops_for_path(ops, np) == ops_for_path(ops_rest, np));
    }
}

/// The mirror of `lemma_ops_for_record` for the delete pass: with no
/// duplicate normalized paths on the destination side, the deletes that
/// reference record `j`'s normalized path are exactly what checking record
/// `j` yields.
pub proof fn lemma_deletes_for_record(source: Seq<MetaView>, dest: Seq<MetaView>, j: int)
    requires
        0 <= j < dest.len(),
        distinct_norms(dest),
    ensures
        ops_for_path(delete_ops_spec(source, dest), normalize_spec(dest[j].path))
            == match delete_spec(dest[j], source) {
            Some(op) => seq![op],
            None => Seq::<OpView>::empty(),
        },
    decreases dest.len(),
{
    let np = normalize_spec(dest[j].path);
    let rest = dest.drop_last();
    let ops = delete_ops_spec(source, dest);
    let ops_rest = delete_ops_spec(source, rest);
    let last = dest.last();
    if j == dest.len() - 1 {
        assert forall|t: int|
            0 <= t < ops_rest.len() implies normalize_spec((#[trigger] ops_rest[t]).path)
            != np by {
            lemma_delete_ops_paths(source, rest);
            let k = choose|k: int|
                0 <= k < rest.len() && (#[trigger] ops_rest[t]).path == rest[k].path;
            assert(rest[k] == dest[k]);
            assert(normalize_spec(dest[k].path) != normalize_spec(dest[j].path));
        }
        lemma_ops_for_path_absent(ops_rest, np);
        match delete_spec(last, source) {
            Some(op) => {
                assert(ops == ops_rest + seq![op]);
                assert(ops_for_path(ops, np) == ops_for_path(ops_rest, np) + ops_for_path(
                    seq![op],
                    np,
                ));
                lemma_ops_for_path_singleton(op, np);
                assert(normalize_spec(op.path) == np);
                assert(ops_for_path(ops, np) =~= seq![op]);
            },
            None => {
                assert(ops == ops_rest);
                assert(ops_for_path(ops, np) =~= Seq::<OpView>::empty());
            },
        }
    } else {
        assert(rest[j] == dest[j]);
        assert(distinct_norms(rest)) by {
            assert(forall|a: int, b: int|
                #![trigger normalize_spec(rest[a].path), normalize_spec(rest[b].path)]
                0 <= a < b < rest.len() ==> normalize_spec(rest[a].path) != normalize_spec(
                    rest[b].path,
                ));
        }
        lemma_deletes_for_record(source, rest, j);
        assert(normalize_spec(last.path) != np);
        match delete_spec(last, source) {
            Some(op) => {
                assert(ops == ops_rest + seq![op]);
                assert(ops_for_path(ops, np) == ops_for_path(ops_rest, np) + ops_for_path(
                    seq![op],
                    np,
                ));
                lemma_ops_for_path_singleton(op, np);
                assert(op.path == last.path);
                assert(ops_for_path(ops, np) =~= ops_for_path(ops_rest, np));
            },
            None => {
                assert(ops == ops_rest);
            },
        }
        assert(ops_for_path(ops, np) == ops_for_path(ops_rest, np));
    }
}

/// Every delete operation carries the path of some destination record.
proof fn lemma_delete_ops_paths(source: Seq<MetaView>, dest: Seq<MetaView>)
    ensures
        forall|t: int|
            0 <= t < delete_ops_spec(source, dest).len() ==> exists|k: int|
                0 <= k < dest.len() && (#[trigger] delete_ops_spec(source, dest)[t]).path
                    == dest[k].path,
    decreases dest.len(),
{
    if dest.len() > 0 {
        let rest = dest.drop_last();
        lemma_delete_ops_paths(source, rest);
        assert forall|t: int| 0 <= t < delete_ops_spec(source, dest).len() implies exists|k: int|
            0 <= k < dest.len() && (#[trigger] delete_ops_spec(source, dest)[t]).path
                == dest[k].path by {
            let ops = delete_ops_spec(source, dest);
            let ops_rest = delete_ops_spec(source, rest);
            if t < ops_rest.len() {
                assert(ops[t] == ops_rest[t]);
                let k = choose|k: int|
                    0 <= k < rest.len() && (#[trigger] ops_rest[t]).path == rest[k].path;
                assert(dest[k] == rest[k]);
                assert(0 <= k < dest.len() && ops[t].path == dest[k].path);
            } else {
                assert(ops[t].path == dest[dest.len() - 1].path);
                assert(0 <= dest.len() - 1 < dest.len() && ops[t].path == dest[dest.len()
                    - 1].path);
            }
        }
    }
}

/// Idempotence: the create/update pass is a pure function of its two
/// inputs — any two outcomes that meet its contract, in whatever order the
/// parallel comparisons ran, are identical, operations and statistics both.
pub proof fn lemma_diff_idempotent(
    source: Seq<MetaView>,
    dest: Seq<MetaView>,
    ops1: Seq<OpView>,
    ops2: Seq<OpView>,
    stats1: DiffStatistics,
    stats2: DiffStatistics,
)
    requires
        ops1 == diff_ops_spec(source, dest),
        ops2 == diff_ops_spec(source, dest),
        stats_match(source.len() as int, dest.len() as int, ops1, stats1),
        stats_match(source.len() as int, dest.len() as int, ops2, stats2),
    ensures
        ops1 == ops2,
        stats1 == stats2,
{
}

/// Completeness: a source record whose normalized path is absent from the
/// destination yields exactly one operation for that path — a `Create`
/// carrying its path, hash and size, never an `Update` — provided the
/// source side has no duplicate normalized paths.
pub proof fn lemma_create_for_absent(source: Seq<MetaView>, dest: Seq<MetaView>, i: int)
    requires
        0 <= i < source.len(),
        distinct_norms(source),
        !has_norm(dest, normalize_spec(source[i].path)),
    ensures
        ({
            let ops = ops_for_path(diff_ops_spec(source, dest), normalize_spec(source[i].path));
            &&& ops.len() == 1
            &&& ops[0].operation == OperationKind::Create
            &&& ops[0].path == source[i].path
            &&& ops[0].source_hash == source[i].hash
            &&& ops[0].dest_hash == Seq::<char>::empty()
            &&& ops[0].size == source[i].size
        }),
{
    lemma_lookup_has(dest, normalize_spec(source[i].path));
    lemma_ops_for_record(source, dest, i);
}

/// Equality suppression: when the destination record joined to a source
/// record agrees with it in both hash and size, no operation references
/// that path.
pub proof fn lemma_equal_emits_nothing(source: Seq<MetaView>, dest: Seq<MetaView>, i: int)
    requires
        0 <= i < source.len(),
        distinct_norms(source),
        ({
            let found = lookup_norm(dest, normalize_spec(source[i].path));
            &&& found is Some
            &&& found->0.hash == source[i].hash
            &&& found->0.size == source[i].size
        }),
    ensures
        ops_for_path(diff_ops_spec(source, dest), normalize_spec(source[i].path)) == Seq::<
            OpView,
        >::empty(),
{
    lemma_ops_for_record(source, dest, i);
}

/// With no duplicate normalized paths, the join finds each record itself.
pub proof fn lemma_lookup_distinct_finds(recs: Seq<MetaView>, j: int)
    requires
        0 <= j < recs.len(),
        distinct_norms(recs),
    ensures
        lookup_norm(recs, normalize_spec(recs[j].path)) == Some(recs[j]),
    decreases recs.len(),
{
    let np = normalize_spec(recs[j].path);
    if j == recs.len() - 1 {
        assert(lookup_norm(recs, np) == Some(recs.last()));
    } else {
        assert(normalize_spec(recs[j].path) != normalize_spec(recs[recs.len() - 1].path));
        assert(distinct_norms(recs.drop_last())) by {
            assert(forall|a: int, b: int|
                #![trigger normalize_spec(recs.drop_last()[a].path), normalize_spec(recs.drop_last()[b].path)]
                0 <= a < b < recs.drop_last().len() ==> normalize_spec(recs.drop_last()[a].path)
                    != normalize_spec(recs.drop_last()[b].path));
        }
        lemma_lookup_distinct_finds(recs.drop_last(), j);
        assert(recs.drop_last()[j] == recs[j]);
    }
}

/// Equality suppression stated over the records themselves: a source record
/// and a destination record that share a normalized path and agree in both
/// hash and size give rise to no operation referencing that path — both
/// sides free of duplicate normalized paths, so the join finds exactly that
/// destination record.
pub proof fn lemma_equal_pair_emits_nothing(
    source: Seq<MetaView>,
    dest: Seq<MetaView>,
    i: int,
    j: int,
)
    requires
        0 <= i < source.len(),
        0 <= j < dest.len(),
        distinct_norms(source),
        distinct_norms(dest),
        normalize_spec(dest[j].path) == normalize_spec(source[i].path),
        dest[j].hash == source[i].hash,
        dest[j].size == source[i].size,
    ensures
        ops_for_path(diff_ops_spec(source, dest), normalize_spec(source[i].path)) == Seq::<
            OpView,
        >::empty(),
{
    lemma_lookup_distinct_finds(dest, j);
    lemma_ops_for_record(source, dest, i);
}

/// Update trigger: when the joined records differ in hash — or agree in
/// hash but differ in size — exactly one `Update` for that path is emitted,
/// carrying both hashes and the source size.
pub proof fn lemma_update_for_changed(source: Seq<MetaView>, dest: Seq<MetaView>, i: int)
    requires
        0 <= i < source.len(),
        distinct_norms(source),
        ({
            let found = lookup_norm(dest, normalize_spec(source[i].path));
            &&& found is Some
            &&& (found->0.hash != source[i].hash || found->0.size != source[i].size)
        }),
    ensures
        ({
            let found = lookup_norm(dest, normalize_spec(source[i].path));
            let ops = ops_for_path(diff_ops_spec(source, dest), normalize_spec(source[i].path));
            &&& ops.len() == 1
            &&& ops[0].operation == OperationKind::Update
            &&& ops[0].path == source[i].path
            &&& ops[0].source_hash == source[i].hash
            &&& ops[0].dest_hash == found->0.hash
            &&& ops[0].size == source[i].size
        }),
{
    lemma_ops_for_record(source, dest, i);
}

/// No delete ever references a normalized path present on the source side.
pub proof fn lemma_no_delete_for_present(source: Seq<MetaView>, dest: Seq<MetaView>, np: Seq<char>)
    requires
        has_norm(source, np),
    ensures
        ops_for_path(delete_ops_spec(source, dest), np) == Seq::<OpView>::empty(),
    decreases dest.len(),
{
    reveal(Seq::filter);
    if dest.len() > 0 {
        let rest = dest.drop_last();
        let ops = delete_ops_spec(source, dest);
        let ops_rest = delete_ops_spec(source, rest);
        lemma_no_delete_for_present(source, rest, np);
        match delete_spec(dest.last(), source) {
            Some(op) => {
                assert(ops == ops_rest + seq![op]);
                assert(ops_for_path(ops, np) == ops_for_path(ops_rest, np) + ops_for_path(
                    seq![op],
                    np,
                ));
                lemma_ops_for_path_singleton(op, np);
                assert(normalize_spec(op.path) != np);
                assert(ops_for_path(ops, np) =~= Seq::<OpView>::empty());
            },
            None => {
                assert(ops == ops_rest);
            },
        }
    }
}

/// Completeness of the delete pass: a destination record whose normalized
/// path is absent from the source yields exactly one `Delete` for that
/// path, carrying its path, hash and size — provided the destination side
/// has no duplicate normalized paths.
pub proof fn lemma_delete_for_absent(source: Seq<MetaView>, dest: Seq<MetaView>, j: int)
    requires
        0 <= j < dest.len(),
        distinct_norms(dest),
        !has_norm(source, normalize_spec(dest[j].path)),
    ensures
        ({
            let ops = ops_for_path(delete_ops_spec(source, dest), normalize_spec(dest[j].path));
            &&& ops.len() == 1
            &&& ops[0].operation == OperationKind::Delete
            &&& ops[0].path == dest[j].path
            &&& ops[0].source_hash == Seq::<char>::empty()
            &&& ops[0].dest_hash == dest[j].hash
            &&& ops[0].size == dest[j].size
        }),
{
    lemma_deletes_for_record(source, dest, j);
}

/// Computes file differences between a source and a destination collection.
pub struct DiffCalculator {}

impl DiffCalculator {
    /// A new diff calculator.
    pub fn new() -> (r: Self) {
        Self {  }
    }

    /// Rewrites every backslash in `path` to a forward slash, so that
    /// Windows-style and POSIX-style paths are comparable. No case folding,
    /// no traversal resolution, no trimming.
    pub fn normalize_path(&self, path: &str) -> (r: String)
        ensures
            r@ == normalize_spec(path@),
    {
        let n = path.unicode_len();
        let mut out = String::new();
        let mut i: usize = 0;
        proof {
            assert(path@.take(0) =~= Seq::<char>::empty());
            assert(normalize_spec(path@.take(0)) =~= Seq::<char>::empty());
        }
        while i < n
            invariant
                i <= n,
                n == path@.len(),
                out@ == normalize_spec(path@.take(i as int)),
            decreases n - i,
        {
            let c = path.get_char(i);
            if c == '\\' {
                out.append("/");
                proof {
                    reveal_strlit("/");
                    assert(normalize_spec(path@.take(i + 1)) =~= out@);
                }
            } else {
                let piece = path.substring_char(i, i + 1);
                out.append(piece);
                proof {
                    assert(piece@ =~= seq![path@[i as int]]);
                    assert(normalize_spec(path@.take(i + 1)) =~= out@);
                }
            }
            i = i + 1;
        }
        proof {
            assert(path@.take(n as int) =~= path@);
        }
        out
    }

    /// Whether the destination copy must be refreshed: true when the hashes
    /// differ, and also — defensively — when the hashes agree but the sizes
    /// do not.
    pub fn needs_update(&self, source_file: &FileMetadata, dest_file: &FileMetadata) -> (r: bool)
        ensures
            r == needs_update_spec(source_file@, dest_file@),
    {
        source_file.hash != dest_file.hash || source_file.size != dest_file.size
    }

    /// The destination record joined to `np`, scanning for the last record
    /// whose normalized path equals `np`.
    fn lookup_dest<'a>(&self, dest: &'a Vec<FileMetadata>, np: &String) -> (r: Option<
        &'a FileMetadata,
    >)
        ensures
            r.deep_view() == lookup_norm(dest.deep_view(), np@),
    {
        let ghost full = dest.deep_view();
        let mut i: usize = dest.len();
        proof {
            assert(full.take(i as int) =~= full);
        }
        while i > 0
            invariant
                i <= dest.len(),
                full == dest.deep_view(),
                full.len() == dest.len(),
                lookup_norm(full, np@) == lookup_norm(full.take(i as int), np@),
            decreases i,
        {
            i = i - 1;
            let np_i = self.normalize_path(dest[i].path.as_str());
            proof {
                assert(full[i as int] == dest[i as int].deep_view());
                assert(full.take(i + 1).last() == full[i as int]);
                assert(full.take(i + 1).drop_last() =~= full.take(i as int));
            }
            if np_i == *np {
                return Some(&dest[i]);
            }
        }
        proof {
            assert(full.take(0) =~= Seq::<MetaView>::empty());
        }
        None
    }

    /// Compares one source record against the destination collection and
    /// returns the operation it gives rise to, if any.
    fn compare_file(&self, source_file: &FileMetadata, dest_files: &Vec<FileMetadata>) -> (r:
        Option<FileDiff>)
        ensures
            r.deep_view() == compare_spec(source_file.deep_view(), dest_files.deep_view()),
    {
        let normalized_path = self.normalize_path(source_file.path.as_str());
        match self.lookup_dest(dest_files, &normalized_path) {
            Some(dest_file) => {
                if self.needs_update(source_file, dest_file) {
                    Some(
                        (FileDiff {
                            path: source_file.path.clone(),
                            operation: OperationKind::Update,
                            source_hash: source_file.hash.clone(),
                            dest_hash: dest_file.hash.clone(),
                            size: source_file.size,
                        }),
                    )
                } else {
                    None
                }
            },
            None => Some(
                (FileDiff {
                    path: source_file.path.clone(),
                    operation: OperationKind::Create,
                    source_hash: source_file.hash.clone(),
                    dest_hash: String::new(),
                    size: source_file.size,
                }),
            ),
        }
    }

    /// Runs the per-record comparison over every source record.
    ///
    /// Relies on rayon's `par_iter`: the records are compared in parallel,
    /// each worker reading only its own record and the shared read-only
    /// destination collection, and `collect` reassembles the results in the
    /// order of the underlying slice, so the outcome equals the sequential
    /// filter-map of the verified `compare_file` over the source records.
    #[verifier::external_body]
    fn compare_all(&self, source_files: &Vec<FileMetadata>, dest_files: &Vec<FileMetadata>) -> (r:
        Vec<FileDiff>)
        ensures
            r.deep_view() == diff_ops_spec(source_files.deep_view(), dest_files.deep_view()),
    {
        source_files.par_iter().filter_map(|f| self.compare_file(f, dest_files)).collect()
    }

    /// A sequential reduction over the operation list: counts per kind, and
    /// the sum of the operation sizes.
    fn calculate_statistics(
        &self,
        source_files: &Vec<FileMetadata>,
        dest_files: &Vec<FileMetadata>,
        differences: &Vec<FileDiff>,
    ) -> (r: DiffStatistics)
        requires
            sizes_fit(differences.deep_view()),
        ensures
            stats_match(
                source_files.deep_view().len() as int,
                dest_files.deep_view().len() as int,
                differences.deep_view(),
                r,
            ),
    {
        let ghost ops = differences.deep_view();
        let mut files_to_create: usize = 0;
        let mut files_to_update: usize = 0;
        let mut files_to_delete: usize = 0;
        let mut total_size: i64 = 0;
        let mut i: usize = 0;
        proof {
            assert(ops.take(0) =~= Seq::<OpView>::empty());
            assert(ops.take(0).filter(|o: OpView| o.operation == OperationKind::Create) =~= Seq::<
                OpView,
            >::empty());
            assert(ops.take(0).filter(|o: OpView| o.operation == OperationKind::Update) =~= Seq::<
                OpView,
            >::empty());
            assert(ops.take(0).filter(|o: OpView| o.operation == OperationKind::Delete) =~= Seq::<
                OpView,
            >::empty());
        }
        while i < differences.len()
            invariant
                i <= differences.len(),
                ops == differences.deep_view(),
                ops.len() == differences.len(),
                sizes_fit(ops),
                files_to_create == count_kind(ops.take(i as int), OperationKind::Create),
                files_to_update == count_kind(ops.take(i as int), OperationKind::Update),
                files_to_delete == count_kind(ops.take(i as int), OperationKind::Delete),
                files_to_create + files_to_update + files_to_delete <= i,
                total_size == total_size_spec(ops.take(i as int)),
            decreases differences.len() - i,
        {
            proof {
                assert(ops.take(i + 1) =~= ops.take(i as int).push(ops[i as int]));
                assert(ops.take(i + 1).drop_last() =~= ops.take(i as int));
                assert(i64::MIN <= total_size_spec(ops.take(i + 1)) <= i64::MAX);
                assert(ops[i as int] == differences[i as int].deep_view());
                ops.take(i as int).lemma_filter_push(
                    ops[i as int],
                    |o: OpView| o.operation == OperationKind::Create,
                );
                ops.take(i as int).lemma_filter_push(
                    ops[i as int],
                    |o: OpView| o.operation == OperationKind::Update,
                );
                ops.take(i as int).lemma_filter_push(
                    ops[i as int],
                    |o: OpView| o.operation == OperationKind::Delete,
                );
            }
            match differences[i].operation {
                OperationKind::Create => {
                    files_to_create = files_to_create + 1;
                },
                OperationKind::Update => {
                    files_to_update = files_to_update + 1;
                },
                OperationKind::Delete => {
                    files_to_delete = files_to_delete + 1;
                },
            }
            total_size = total_size + differences[i].size;
            i = i + 1;
        }
        proof {
            assert(ops.take(differences.len() as int) =~= ops);
        }
        DiffStatistics {
            total_source_files: source_files.len(),
            total_dest_files: dest_files.len(),
            files_to_create,
            files_to_update,
            files_to_delete,
            total_size,
        }
    }

    /// The create/update pass: every source record whose normalized path is
    /// absent from the destination yields a `Create`; every one present but
    /// unequal by `needs_update` yields an `Update`; equal records yield
    /// nothing. Statistics are reduced from the resulting list.
    pub fn calculate_differences(
        &self,
        source_files: &Vec<FileMetadata>,
        dest_files: &Vec<FileMetadata>,
    ) -> (r: Result<DiffResult, String>)
        requires
            sizes_fit(diff_ops_spec(source_files.deep_view(), dest_files.deep_view())),
        ensures
            r is Ok,
            r matches Ok(res) ==> {
                &&& res.differences.deep_view() == diff_ops_spec(
                    source_files.deep_view(),
                    dest_files.deep_view(),
                )
                &&& stats_match(
                    source_files.deep_view().len() as int,
                    dest_files.deep_view().len() as int,
                    res.differences.deep_view(),
                    res.statistics,
                )
            },
    {
        let differences = self.compare_all(source_files, dest_files);
        let statistics = self.calculate_statistics(source_files, dest_files, &differences);
        Ok(DiffResult { differences, statistics })
    }

    /// Whether some source record's normalized path equals `np`.
    fn source_contains(&self, source_files: &Vec<FileMetadata>, np: &String) -> (r: bool)
        ensures
            r == has_norm(source_files.deep_view(), np@),
    {
        let ghost full = source_files.deep_view();
        let mut i: usize = 0;
        while i < source_files.len()
            invariant
                i <= source_files.len(),
                full == source_files.deep_view(),
                full.len() == source_files.len(),
                forall|j: int| 0 <= j < i ==> normalize_spec(full[j].path) != np@,
            decreases source_files.len() - i,
        {
            let np_i = self.normalize_path(source_files[i].path.as_str());
            proof {
                assert(full[i as int] == source_files[i as int].deep_view());
            }
            if np_i == *np {
                return true;
            }
            i = i + 1;
        }
        false
    }

    /// Checks one destination record: emits a `Delete` when its normalized
    /// path is absent from the source collection.
    fn check_delete(&self, dest_file: &FileMetadata, source_files: &Vec<FileMetadata>) -> (r:
        Option<FileDiff>)
        ensures
            r.deep_view() == delete_spec(dest_file.deep_view(), source_files.deep_view()),
    {
        let normalized_path = self.normalize_path(dest_file.path.as_str());
        if !self.source_contains(source_files, &normalized_path) {
            Some(
                (FileDiff {
                    path: dest_file.path.clone(),
                    operation: OperationKind::Delete,
                    source_hash: String::new(),
                    dest_hash: dest_file.hash.clone(),
                    size: dest_file.size,
                }),
            )
        } else {
            None
        }
    }

    /// Runs the per-record delete check over every destination record.
    ///
    /// Relies on rayon's `par_iter`: workers read only their own record and
    /// the shared read-only source collection, and `collect` keeps the order
    /// of the underlying slice, so the outcome equals the sequential
    /// filter-map of the verified `check_delete` over the destination records.
    #[verifier::external_body]
    fn delete_all(&self, source_files: &Vec<FileMetadata>, dest_files: &Vec<FileMetadata>) -> (r:
        Vec<FileDiff>)
        ensures
            r.deep_view() == delete_ops_spec(source_files.deep_view(), dest_files.deep_view()),
    {
        dest_files.par_iter().filter_map(|f| self.check_delete(f, source_files)).collect()
    }

    /// The deterministic priority score of one operation, per the additive
    /// table: kind (create 100, update 50, delete 10), size tier (under
    /// 1 MiB 20, under 10 MiB 10, else 0), extension bucket (configuration
    /// 30, documentation 25, source code 20) and well-known file names
    /// (build/readme files 40, manifest files 35).
    pub fn get_file_priority(&self, diff: &FileDiff) -> (r: i32)
        ensures
            r as int == score_spec(diff@),
    {
        let mut priority: i32 = match diff.operation {
            OperationKind::Create => 100,
            OperationKind::Update => 50,
            OperationKind::Delete => 10,
        };
        if diff.size < 1048576 {
            priority = priority + 20;
        } else if diff.size < 10485760 {
            priority = priority + 10;
        }
        let path = diff.path.as_str();
        let n = path.unicode_len();
        let start: usize = match find_last_sep(path) {
            Some(i) => i + 1,
            None => 0,
        };
        let fname = path.substring_char(start, n);
        proof {
            assert(fname@ == filename_of(path@));
        }
        let m = fname.unicode_len();
        match find_last_dot(fname) {
            Some(d) => {
                if d > 0 {
                    let ext = fname.substring_char(d + 1, m);
                    proof {
                        assert(extension_of(fname@) == Some(ext@));
                    }
                    if str_eq_ci(ext, "json") || str_eq_ci(ext, "yaml") || str_eq_ci(ext, "yml")
                        || str_eq_ci(ext, "toml") || str_eq_ci(ext, "ini") {
                        priority = priority + 30;
                    } else if str_eq_ci(ext, "md") || str_eq_ci(ext, "txt") || str_eq_ci(
                        ext,
                        "readme",
                    ) {
                        priority = priority + 25;
                    } else if str_eq_ci(ext, "go") || str_eq_ci(ext, "rs") || str_eq_ci(ext, "py")
                        || str_eq_ci(ext, "js") || str_eq_ci(ext, "ts") {
                        priority = priority + 20;
                    }
                }
            },
            None => {},
        }
        if str_eq_ci(fname, "makefile") || str_eq_ci(fname, "dockerfile") || str_eq_ci(
            fname,
            "readme.md",
        ) {
            priority = priority + 40;
        } else if str_eq_ci(fname, "package.json") || str_eq_ci(fname, "go.mod") || str_eq_ci(
            fname,
            "cargo.toml",
        ) {
            priority = priority + 35;
        }
        priority
    }

    /// Inserts `x` into the descending-sorted `out`, after every element of
    /// equal or higher score, so that insertion in input order is stable.
    fn insert_ranked(&self, out: &mut Vec<FileDiff>, x: FileDiff)
        requires
            sorted_by_score(old(out).deep_view()),
        ensures
            sorted_by_score(final(out).deep_view()),
            final(out).deep_view().len() == old(out).deep_view().len() + 1,
            forall|s: int|
                #[trigger] score_class(final(out).deep_view(), s) == (if s == score_spec(x@) {
                    score_class(old(out).deep_view(), s).push(x@)
                } else {
                    score_class(old(out).deep_view(), s)
                }),
    {
        let ghost pre = out.deep_view();
        let ghost sxs = score_spec(x@);
        let sx = self.get_file_priority(&x);
        let mut p: usize = out.len();
        while p > 0 && self.get_file_priority(&out[p - 1]) < sx
            invariant
                p <= out.len(),
                *out == *old(out),
                pre == out.deep_view(),
                forall|k: int| p <= k < pre.len() ==> score_spec(#[trigger] pre[k]) < sxs,
                sx as int == sxs,
            decreases p,
        {
            p = p - 1;
        }
        proof {
            assert(forall|k: int| 0 <= k < p ==> score_spec(#[trigger] pre[k]) >= sxs) by {
                if p > 0 {
                    assert(score_spec(pre[p - 1]) >= sxs);
                }
            }
        }
        out.insert(p, x);
        let ghost post = out.deep_view();
        proof {
            let ghost a = pre.take(p as int);
            let ghost b = pre.skip(p as int);
            assert(pre =~= a + b);
            assert(post =~= (a + seq![x@]) + b);
            assert(forall|i: int| 0 <= i < p ==> post[i] == pre[i]);
            assert(post[p as int] == x@);
            assert(forall|i: int| p < i < post.len() ==> post[i] == pre[i - 1]);
            assert(sorted_by_score(post));
            assert forall|s: int|
                #[trigger] score_class(post, s) == (if s == sxs {
                    score_class(pre, s).push(x@)
                } else {
                    score_class(pre, s)
                }) by {
                lemma_score_class_singleton(x@, s);
                assert(score_class((a + seq![x@]) + b, s) == score_class(a + seq![x@], s)
                    + score_class(b, s));
                assert(score_class(a + seq![x@], s) == score_class(a, s) + score_class(
                    seq![x@],
                    s,
                ));
                assert(score_class(a + b, s) == score_class(a, s) + score_class(b, s));
                if s == sxs {
                    lemma_score_class_absent(b, s);
                    assert(score_class(post, s) =~= score_class(pre, s).push(x@));
                } else {
                    assert(score_class(post, s) =~= score_class(pre, s));
                }
            }
        }
    }

    /// Sorts the operation list in place by descending priority score. The
    /// sort is stable: operations with equal scores keep the relative order
    /// they had in the input, so repeated runs over the same input produce
    /// identical output ordering.
    pub fn sort_by_priority(&self, differences: &mut Vec<FileDiff>)
        ensures
            sorted_by_score(final(differences).deep_view()),
            final(differences).deep_view().len() == old(differences).deep_view().len(),
            forall|s: int|
                #[trigger] score_class(final(differences).deep_view(), s) == score_class(
                    old(differences).deep_view(),
                    s,
                ),
    {
        let ghost orig = old(differences).deep_view();
        let mut ranked: Vec<FileDiff> = Vec::new();
        proof {
            assert forall|s: int| #[trigger] score_class(orig, s) == score_class(
                ranked.deep_view(),
                s,
            ) + score_class(differences.deep_view(), s) by {
                lemma_score_class_absent(ranked.deep_view(), s);
                assert(ranked.deep_view() + differences.deep_view() =~= differences.deep_view());
                assert(score_class(ranked.deep_view() + differences.deep_view(), s) == score_class(
                    ranked.deep_view(),
                    s,
                ) + score_class(differences.deep_view(), s));
            }
        }
        while differences.len() > 0
            invariant
                sorted_by_score(ranked.deep_view()),
                ranked.deep_view().len() + differences.deep_view().len() == orig.len(),
                forall|s: int|
                    #[trigger] score_class(orig, s) == score_class(ranked.deep_view(), s)
                        + score_class(differences.deep_view(), s),
            decreases differences.len(),
        {
            let ghost rem_old = differences.deep_view();
            let ghost ranked_old = ranked.deep_view();
            let x = differences.remove(0);
            let ghost rem_new = differences.deep_view();
            proof {
                assert(rem_old =~= seq![x@] + rem_new);
            }
            self.insert_ranked(&mut ranked, x);
            proof {
                assert forall|s: int| #[trigger] score_class(orig, s) == score_class(
                    ranked.deep_view(),
                    s,
                ) + score_class(rem_new, s) by {
                    lemma_score_class_singleton(x@, s);
                    assert(score_class(seq![x@] + rem_new, s) == score_class(seq![x@], s)
                        + score_class(rem_new, s));
                    if s == score_spec(x@) {
                        assert(score_class(ranked.deep_view(), s) =~= score_class(ranked_old, s)
                            + seq![x@]);
                        assert(score_class(orig, s) =~= score_class(ranked_old, s) + (seq![x@]
                            + score_class(rem_new, s)));
                        assert(score_class(ranked_old, s) + (seq![x@] + score_class(rem_new, s))
                            =~= (score_class(ranked_old, s) + seq![x@]) + score_class(rem_new, s));
                    }
                }
            }
        }
        proof {
            assert forall|s: int| #[trigger] score_class(orig, s) == score_class(
                ranked.deep_view(),
                s,
            ) by {
                lemma_score_class_absent(differences.deep_view(), s);
                assert(score_class(ranked.deep_view(), s) + Seq::<OpView>::empty() =~= score_class(
                    ranked.deep_view(),
                    s,
                ));
            }
        }
        *differences = ranked;
    }

    /// The delete pass: every destination record whose normalized path is
    /// absent from the source collection yields a `Delete`.
    pub fn find_files_to_delete(
        &self,
        source_files: &Vec<FileMetadata>,
        dest_files: &Vec<FileMetadata>,
    ) -> (r: Vec<FileDiff>)
        ensures
            r.deep_view() == delete_ops_spec(source_files.deep_view(), dest_files.deep_view()),
    {
        self.delete_all(source_files, dest_files)
    }
}

impl Default for DiffCalculator {
    /// Same as `DiffCalculator::new`.
    fn default() -> (r: Self) {
        Self::new()
    }
}

} // verus!
