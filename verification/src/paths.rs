//! Why no file of an output is written twice.
//!
//! Every path of an output is claimed by the directory that gave out its
//! last name. The laws here show that a tree which was built by placing
//! files claims each path once: the path of a new file differs from the path
//! of every file that was created before, in whatever directory.

use crate::archive::{
    archive_012m_run, archive_ph3_run, compression_overhead, entries_012m_run, entries_ph3_run,
    entry_012m_run, entry_ph3_at, entry_ph3_run, kept, ph3_header_start, probe_limit, sought,
    starts_with, table_012m, transferred, warned, EntryModel, Ph3EntryModel,
    ARCHIVE_012M_MAGIC, ARCHIVE_PH3_MAGIC, COMPRESS_ZIP_MAGIC,
};
use crate::inflate::zlib_stream;
use crate::names::{
    first_free, is_forbidden, lemma_sanitize_is_safe, lemma_unique_name_is_free, normalize,
    sanitize, unique_name,
};
use crate::output::{
    created, emit, enter, find_subdir, join, joined, place, written, DirModel, OutputModel,
};
use crate::text::decimal;
use crate::wire::{bytes_at, le_u32, window};
use vstd::prelude::*;

verus! {

/// The path `path` lies below the directory at `base`.
pub open spec fn under(base: Seq<char>, path: Seq<char>) -> bool {
    &&& path.len() > base.len()
    &&& path.take(base.len() as int) == base
    &&& path[base.len() as int] == '/'
}

/// What follows `base` and the separator in `path`.
pub open spec fn name_below(base: Seq<char>, path: Seq<char>) -> Seq<char> {
    path.skip(base.len() as int + 1)
}

impl DirModel {
    /// A tidy directory is well-formed, gave out names without a
    /// separator only, and holds each subdirectory under a name that it gave
    /// out, all of them tidy and no two under one name.
    pub open spec fn tidy(self) -> bool
        decreases self,
    {
        &&& self.wf()
        &&& forall|n: Seq<char>| #[trigger] self.written.contains(n) ==> !n.contains('/')
        &&& forall|i: int|
            0 <= i < self.subdirs.len() ==> {
                let child = (#[trigger] self.subdirs[i]).1;
                &&& child.tidy()
                &&& child.base_path == join(self.base_path, name_below(self.base_path, child.base_path))
                &&& self.written.contains(name_below(self.base_path, child.base_path))
            }
        &&& forall|i: int, j: int|
            0 <= i < j < self.subdirs.len() ==> (#[trigger] self.subdirs[i]).1.base_path != (
            #[trigger] self.subdirs[j]).1.base_path
    }

    /// The directory, or one below it, gave out the last name of `path`.
    pub open spec fn claims(self, path: Seq<char>) -> bool
        decreases self,
    {
        ||| path == join(self.base_path, name_below(self.base_path, path)) && self.written.contains(
            name_below(self.base_path, path),
        )
        ||| exists|i: int|
            0 <= i < self.subdirs.len() && (#[trigger] self.subdirs[i]).1.claims(path)
    }
}

/// A tidy output has a tidy root, which claims the path of every file, and
/// no two files with one path.
pub open spec fn tidy_output(out: OutputModel) -> bool {
    &&& out.root.tidy()
    &&& forall|i: int| 0 <= i < out.files.len() ==> out.root.claims(#[trigger] out.files[i].path)
    &&& forall|i: int, j: int|
        0 <= i < j < out.files.len() ==> (#[trigger] out.files[i]).path != (
        #[trigger] out.files[j]).path
}

/// The name that follows a base in a joined path is the name that was joined.
pub proof fn lemma_name_below_join(base: Seq<char>, name: Seq<char>)
    ensures
        name_below(base, join(base, name)) == name,
        under(base, join(base, name)),
{
    assert(join(base, name).skip(base.len() as int + 1) =~= name);
    assert(join(base, name).take(base.len() as int) =~= base);
}

/// What lies below a subdirectory lies below the directory.
pub proof fn lemma_under_deeper(base: Seq<char>, name: Seq<char>, path: Seq<char>)
    requires
        under(join(base, name), path),
    ensures
        under(base, path),
        name_below(base, path).len() > name.len(),
        name_below(base, path)[name.len() as int] == '/',
        name_below(base, path).take(name.len() as int) == name,
{
    let sub = join(base, name);
    assert(path.take(base.len() as int) =~= sub.take(base.len() as int));
    assert(sub.take(base.len() as int) =~= base);
    assert(path[base.len() as int] == path.take(sub.len() as int)[base.len() as int]);
    assert(name_below(base, path).take(name.len() as int) =~= name) by {
        assert forall|k: int| 0 <= k < name.len() implies name_below(base, path)[k] == name[k] by {
            assert(path[base.len() + 1 + k] == path.take(sub.len() as int)[base.len() + 1 + k]);
        }
    }
}

/// Every decimal digit is a digit, so no separator.
pub proof fn lemma_decimal_has_no_separator(n: nat)
    ensures
        !decimal(n).contains('/'),
    decreases n,
{
    if n >= 10 {
        lemma_decimal_has_no_separator(n / 10);
    }
    assert forall|i: int| 0 <= i < decimal(n).len() implies decimal(n)[i] != '/' by {
        if n >= 10 && i < decimal(n / 10).len() {
            assert(decimal(n / 10).contains(decimal(n / 10)[i]));
        }
    }
}

/// A name that a directory gives out holds no separator.
pub proof fn lemma_unique_name_has_no_separator(taken: Set<Seq<char>>, name: Seq<char>)
    ensures
        !unique_name(taken, sanitize(name)).contains('/'),
{
    let base = sanitize(name);
    lemma_sanitize_is_safe(name);
    let given = unique_name(taken, base);
    assert forall|i: int| 0 <= i < given.len() implies given[i] != '/' by {
        if given != base {
            let k = first_free(taken, base);
            lemma_decimal_has_no_separator(k);
            if i < base.len() {
                assert(!is_forbidden(base[i]));
            } else if i > base.len() {
                assert(decimal(k).contains(decimal(k)[i - base.len() - 1]));
            }
        } else {
            assert(!is_forbidden(base[i]));
        }
    }
}

/// What a tidy directory claims lies below it.
pub proof fn lemma_claims_lie_under(dir: DirModel, path: Seq<char>)
    requires
        dir.tidy(),
        dir.claims(path),
    ensures
        under(dir.base_path, path),
    decreases dir,
{
    if path == join(dir.base_path, name_below(dir.base_path, path)) {
        lemma_name_below_join(dir.base_path, name_below(dir.base_path, path));
    } else {
        let i = choose|i: int|
            0 <= i < dir.subdirs.len() && (#[trigger] dir.subdirs[i]).1.claims(path);
        let child = dir.subdirs[i].1;
        lemma_claims_lie_under(child, path);
        lemma_under_deeper(dir.base_path, name_below(dir.base_path, child.base_path), path);
    }
}

/// A path lies below one subdirectory only: two names without a separator
/// that both lead to it are one name.
pub proof fn lemma_branches_apart(base: Seq<char>, a: Seq<char>, b: Seq<char>, path: Seq<char>)
    requires
        !a.contains('/'),
        !b.contains('/'),
        under(join(base, a), path),
        under(join(base, b), path),
    ensures
        a == b,
{
    lemma_under_deeper(base, a, path);
    lemma_under_deeper(base, b, path);
    let rest = name_below(base, path);
    if a.len() < b.len() {
        assert(b[a.len() as int] == rest.take(b.len() as int)[a.len() as int]);
        assert(b.contains(b[a.len() as int]));
    } else if b.len() < a.len() {
        assert(a[b.len() as int] == rest.take(a.len() as int)[b.len() as int]);
        assert(a.contains(a[b.len() as int]));
    } else {
        assert(a =~= b);
    }
}

/// A name without a separator does not lie below a subdirectory.
pub proof fn lemma_name_not_below(base: Seq<char>, sub: Seq<char>, name: Seq<char>)
    requires
        !name.contains('/'),
    ensures
        !under(join(base, sub), join(base, name)),
{
    if under(join(base, sub), join(base, name)) {
        lemma_under_deeper(base, sub, join(base, name));
        lemma_name_below_join(base, name);
        assert(name.contains(name[sub.len() as int]));
    }
}

/// Giving out a name keeps a directory tidy. The path of the new name was
/// claimed by nothing in the directory before and is claimed by it after,
/// and what was claimed stays claimed.
pub proof fn lemma_emit_claims(dir: DirModel, original_path: Seq<char>, name: Seq<char>)
    requires
        dir.tidy(),
    ensures
        emit(dir, original_path, name).dir.tidy(),
        !emit(dir, original_path, name).name.contains('/'),
        !dir.written.contains(emit(dir, original_path, name).name),
        !dir.claims(join(dir.base_path, emit(dir, original_path, name).name)),
        emit(dir, original_path, name).dir.claims(
            join(dir.base_path, emit(dir, original_path, name).name),
        ),
        forall|path: Seq<char>|
            dir.claims(path) ==> #[trigger] emit(dir, original_path, name).dir.claims(path),
{
    let e = emit(dir, original_path, name);
    let path = join(dir.base_path, e.name);
    lemma_unique_name_has_no_separator(dir.written, name);
    lemma_unique_name_is_free(dir.written, sanitize(name));
    lemma_name_below_join(dir.base_path, e.name);
    assert(e.dir.tidy()) by {
        assert forall|i: int| 0 <= i < e.dir.subdirs.len() implies {
            let child = (#[trigger] e.dir.subdirs[i]).1;
            &&& child.tidy()
            &&& child.base_path == join(e.dir.base_path, name_below(e.dir.base_path, child.base_path))
            &&& e.dir.written.contains(name_below(e.dir.base_path, child.base_path))
        } by {
            assert(dir.subdirs[i].1.tidy());
        }
    }
    if dir.claims(path) {
        let i = choose|i: int|
            0 <= i < dir.subdirs.len() && (#[trigger] dir.subdirs[i]).1.claims(path);
        let child = dir.subdirs[i].1;
        lemma_claims_lie_under(child, path);
        lemma_name_not_below(dir.base_path, name_below(dir.base_path, child.base_path), e.name);
    }
    assert forall|q: Seq<char>| dir.claims(q) implies #[trigger] e.dir.claims(q) by {
        if !(q == join(dir.base_path, name_below(dir.base_path, q)) && dir.written.contains(
            name_below(dir.base_path, q),
        )) {
            let i = choose|i: int|
                0 <= i < dir.subdirs.len() && (#[trigger] dir.subdirs[i]).1.claims(q);
            assert(e.dir.subdirs[i].1.claims(q));
        }
    }
}

/// Entering a subdirectory keeps a directory tidy, and what was claimed
/// stays claimed. The subdirectory is there afterwards.
pub proof fn lemma_enter_claims(dir: DirModel, original_path: Seq<char>, name: Seq<char>)
    requires
        dir.tidy(),
    ensures
        enter(dir, original_path, name).dir.tidy(),
        enter(dir, original_path, name).dir.base_path == dir.base_path,
        0 <= enter(dir, original_path, name).index < enter(
            dir,
            original_path,
            name,
        ).dir.subdirs.len(),
        forall|path: Seq<char>|
            dir.claims(path) ==> #[trigger] enter(dir, original_path, name).dir.claims(path),
{
    let entered = enter(dir, original_path, name);
    if find_subdir(dir.subdirs, name) is None {
        let e = emit(dir, original_path, name);
        lemma_emit_claims(dir, original_path, name);
        let child = DirModel::fresh(join(dir.base_path, e.name));
        let at = dir.subdirs.len() as int;
        lemma_name_below_join(dir.base_path, e.name);
        assert(child.tidy());
        assert(entered.dir.subdirs[at].1 == child);
        assert forall|i: int| 0 <= i < entered.dir.subdirs.len() implies {
            let c = (#[trigger] entered.dir.subdirs[i]).1;
            &&& c.tidy()
            &&& c.base_path == join(entered.dir.base_path, name_below(entered.dir.base_path, c.base_path))
            &&& entered.dir.written.contains(name_below(entered.dir.base_path, c.base_path))
        } by {
            if i < at {
                assert(e.dir.subdirs[i].1.tidy());
            }
        }
        assert forall|i: int, j: int| 0 <= i < j < entered.dir.subdirs.len() implies (
        #[trigger] entered.dir.subdirs[i]).1.base_path != (
        #[trigger] entered.dir.subdirs[j]).1.base_path by {
            if j == at {
                let other = dir.subdirs[i].1;
                assert(dir.written.contains(name_below(dir.base_path, other.base_path)));
            } else {
                assert(dir.subdirs[i].1.base_path != dir.subdirs[j].1.base_path);
            }
        }
        assert forall|i: int, j: int| 0 <= i < j < entered.dir.subdirs.len() implies (
        #[trigger] entered.dir.subdirs[i]).0 != (#[trigger] entered.dir.subdirs[j]).0 by {
            if j == at {
                assert(dir.subdirs[i].0 != name);
            } else {
                assert(dir.subdirs[i].0 != dir.subdirs[j].0);
            }
        }
        assert forall|q: Seq<char>| dir.claims(q) implies #[trigger] entered.dir.claims(q) by {
            assert(e.dir.claims(q));
            if !(q == join(dir.base_path, name_below(dir.base_path, q)) && e.dir.written.contains(
                name_below(dir.base_path, q),
            )) {
                let i = choose|i: int|
                    0 <= i < e.dir.subdirs.len() && (#[trigger] e.dir.subdirs[i]).1.claims(q);
                assert(entered.dir.subdirs[i].1.claims(q));
            }
        }
    }
}

/// Placing a file keeps a directory tidy. The file's path was claimed by
/// nothing in the tree before and is claimed after, and what was claimed
/// stays claimed.
pub proof fn lemma_place_claims(
    dir: DirModel,
    components: Seq<Seq<char>>,
    original_path: Seq<char>,
    name: Seq<char>,
)
    requires
        dir.tidy(),
    ensures
        place(dir, components, original_path, name).dir.tidy(),
        place(dir, components, original_path, name).dir.base_path == dir.base_path,
        under(dir.base_path, place(dir, components, original_path, name).path),
        !dir.claims(place(dir, components, original_path, name).path),
        place(dir, components, original_path, name).dir.claims(
            place(dir, components, original_path, name).path,
        ),
        forall|path: Seq<char>|
            dir.claims(path) ==> #[trigger] place(dir, components, original_path, name).dir.claims(
                path,
            ),
    decreases components.len(),
{
    let placed = place(dir, components, original_path, name);
    if components.len() == 0 {
        lemma_emit_claims(dir, original_path, name);
        lemma_name_below_join(dir.base_path, emit(dir, original_path, name).name);
    } else {
        let entered = enter(dir, original_path, components[0]);
        lemma_enter_claims(dir, original_path, components[0]);
        let at = entered.index;
        let base = dir.base_path;
        let child = entered.dir.subdirs[at].1;
        let sub = name_below(base, child.base_path);
        assert(child.tidy());
        lemma_place_claims(child, components.skip(1), original_path, name);
        let below = place(child, components.skip(1), original_path, name);
        let after = placed.dir;
        let path = placed.path;
        assert(after.subdirs == entered.dir.subdirs.update(at, (components[0], below.dir)));
        lemma_under_deeper(base, sub, path);
        assert(after.tidy()) by {
            assert forall|i: int| 0 <= i < after.subdirs.len() implies {
                let c = (#[trigger] after.subdirs[i]).1;
                &&& c.tidy()
                &&& c.base_path == join(after.base_path, name_below(after.base_path, c.base_path))
                &&& after.written.contains(name_below(after.base_path, c.base_path))
            } by {
                if i != at {
                    assert(entered.dir.subdirs[i].1.tidy());
                }
            }
            assert forall|i: int, j: int| 0 <= i < j < after.subdirs.len() implies (
            #[trigger] after.subdirs[i]).1.base_path != (#[trigger] after.subdirs[j]).1.base_path by {
                assert(entered.dir.subdirs[i].1.base_path != entered.dir.subdirs[j].1.base_path);
            }
            assert forall|i: int, j: int| 0 <= i < j < after.subdirs.len() implies (
            #[trigger] after.subdirs[i]).0 != (#[trigger] after.subdirs[j]).0 by {
                assert(entered.dir.subdirs[i].0 != entered.dir.subdirs[j].0);
            }
            assert forall|i: int| 0 <= i < after.subdirs.len() implies (
            #[trigger] after.subdirs[i]).1.wf() by {
                if i != at {
                    assert(entered.dir.subdirs[i].1.tidy());
                }
            }
        }
        assert(after.subdirs[at].1.claims(path));
        if entered.dir.claims(path) {
            if path == join(base, name_below(base, path)) && entered.dir.written.contains(
                name_below(base, path),
            ) {
                lemma_name_not_below(base, sub, name_below(base, path));
            } else {
                let j = choose|j: int|
                    0 <= j < entered.dir.subdirs.len() && (
                    #[trigger] entered.dir.subdirs[j]).1.claims(path);
                let other = entered.dir.subdirs[j].1;
                assert(other.tidy());
                lemma_claims_lie_under(other, path);
                lemma_branches_apart(base, name_below(base, other.base_path), sub, path);
                if j < at {
                    assert(entered.dir.subdirs[j].1.base_path != entered.dir.subdirs[at].1.base_path);
                } else if at < j {
                    assert(entered.dir.subdirs[at].1.base_path != entered.dir.subdirs[j].1.base_path);
                }
            }
        }
        assert forall|q: Seq<char>| dir.claims(q) implies #[trigger] after.claims(q) by {
            assert(entered.dir.claims(q));
            if !(q == join(base, name_below(base, q)) && entered.dir.written.contains(
                name_below(base, q),
            )) {
                let j = choose|j: int|
                    0 <= j < entered.dir.subdirs.len() && (
                    #[trigger] entered.dir.subdirs[j]).1.claims(q);
                assert(after.subdirs[j].1.claims(q));
            }
        }
    }
}

/// An output in which nothing was created yet is tidy.
pub proof fn lemma_fresh_output_is_tidy(base_path: Seq<char>)
    ensures
        tidy_output(
            OutputModel {
                root: DirModel::fresh(base_path),
                files: Seq::empty(),
                warnings: Seq::empty(),
            },
        ),
{
}

/// Creating a file keeps an output tidy: the new file's path differs from
/// the path of every file that was created before.
pub proof fn lemma_created_keeps_tidy(out: OutputModel, dir: Seq<char>, name: Seq<char>)
    requires
        tidy_output(out),
    ensures
        tidy_output(created(out, dir, name)),
        forall|i: int|
            0 <= i < out.files.len() ==> (#[trigger] out.files[i]).path != created(
                out,
                dir,
                name,
            ).files.last().path,
{
    let components = normalize(dir);
    lemma_place_claims(out.root, components, joined(components) + name, name);
    let after = created(out, dir, name);
    assert forall|i: int| 0 <= i < out.files.len() implies (#[trigger] out.files[i]).path
        != after.files.last().path by {
        assert(out.root.claims(out.files[i].path));
    }
    assert forall|i: int| 0 <= i < after.files.len() implies after.root.claims(
        #[trigger] after.files[i].path,
    ) by {
        if i < out.files.len() {
            assert(out.root.claims(out.files[i].path));
        }
    }
    assert forall|i: int, j: int| 0 <= i < j < after.files.len() implies (
    #[trigger] after.files[i]).path != (#[trigger] after.files[j]).path by {
        if j < out.files.len() {
            assert(out.files[i].path != out.files[j].path);
        } else {
            assert(out.files[i].path != after.files.last().path);
        }
    }
}

/// Writing to a file keeps an output tidy, and changes no path.
pub proof fn lemma_written_keeps_tidy(out: OutputModel, file: int, bytes: Seq<u8>)
    requires
        tidy_output(out),
        0 <= file < out.files.len(),
    ensures
        tidy_output(written(out, file, bytes)),
        written(out, file, bytes).files.len() == out.files.len(),
        forall|i: int|
            0 <= i < out.files.len() ==> (#[trigger] written(out, file, bytes).files[i]).path
                == out.files[i].path,
{
    let after = written(out, file, bytes);
    assert forall|i: int| 0 <= i < after.files.len() implies after.root.claims(
        #[trigger] after.files[i].path,
    ) by {
        assert(out.root.claims(out.files[i].path));
    }
    assert forall|i: int, j: int| 0 <= i < j < after.files.len() implies (
    #[trigger] after.files[i]).path != (#[trigger] after.files[j]).path by {
        assert(out.files[i].path != out.files[j].path);
    }
}

/// Transferring an entry keeps an output tidy: the entry gets a path that
/// no earlier file has, and the earlier files stay as they are.
pub proof fn lemma_transferred_keeps_tidy(
    out: OutputModel,
    dir: Seq<char>,
    name: Seq<char>,
    source: Seq<u8>,
    size: u64,
)
    requires
        tidy_output(out),
    ensures
        tidy_output(transferred(out, dir, name, source, size)),
        transferred(out, dir, name, source, size).files.len() == out.files.len() + 1,
        forall|i: int|
            0 <= i < out.files.len() ==> #[trigger] transferred(out, dir, name, source, size).files[i]
                == out.files[i] && out.files[i].path != transferred(
                out,
                dir,
                name,
                source,
                size,
            ).files.last().path,
{
    let opened = created(out, dir, name);
    lemma_created_keeps_tidy(out, dir, name);
    lemma_written_keeps_tidy(opened, out.files.len() as int, kept(source, size));
    let filled = written(opened, out.files.len() as int, kept(source, size));
    let after = transferred(out, dir, name, source, size);
    assert(after.files == filled.files);
    assert(after.root == filled.root);
    assert forall|i: int| 0 <= i < out.files.len() implies #[trigger] after.files[i]
        == out.files[i] && out.files[i].path != after.files.last().path by {
        assert(opened.files[i] == out.files[i]);
        assert(filled.files.last().path == opened.files.last().path);
    }
}

/// Extracting one entry of the flat layout keeps an output tidy.
pub proof fn lemma_entry_012m_keeps_tidy(data: Seq<u8>, entry: EntryModel, out: OutputModel)
    requires
        tidy_output(out),
    ensures
        tidy_output(entry_012m_run(data, entry, out).out),
{
    let run = entry_012m_run(data, entry, out);
    if run.out != out {
        let pos = sought(data, entry.offset);
        if starts_with(data.skip(pos), COMPRESS_ZIP_MAGIC@) {
            let behind = pos + COMPRESS_ZIP_MAGIC@.len();
            let size = le_u32(bytes_at(data, behind, 4)) as u64;
            let stream = window(data, behind + 4, entry.len - compression_overhead());
            lemma_transferred_keeps_tidy(
                out,
                ""@,
                entry.name,
                zlib_stream(stream, probe_limit(size))->0,
                size,
            );
        } else {
            lemma_transferred_keeps_tidy(
                out,
                ""@,
                entry.name,
                window(data, pos, entry.len as int),
                entry.len,
            );
        }
    }
}

/// Extracting entries of the flat layout keeps an output tidy.
pub proof fn lemma_entries_012m_keep_tidy(data: Seq<u8>, entries: Seq<EntryModel>, out: OutputModel)
    requires
        tidy_output(out),
    ensures
        tidy_output(entries_012m_run(data, entries, out).out),
    decreases entries.len(),
{
    if entries.len() > 0 {
        lemma_entry_012m_keeps_tidy(data, entries[0], out);
        let first = entry_012m_run(data, entries[0], out);
        if first.error is None {
            lemma_entries_012m_keep_tidy(data, entries.skip(1), first.out);
        }
    }
}

/// Extracting one entry of the nested layout keeps an output tidy.
pub proof fn lemma_entry_ph3_keeps_tidy(data: Seq<u8>, entry: Ph3EntryModel, out: OutputModel)
    requires
        tidy_output(out),
    ensures
        tidy_output(entry_ph3_run(data, entry, out).out),
{
    let run = entry_ph3_run(data, entry, out);
    if run.out != out {
        let pos = sought(data, entry.offset);
        if entry.compressed {
            let stream = window(data, pos, entry.compressed_len as int);
            lemma_transferred_keeps_tidy(
                out,
                entry.dir,
                entry.name,
                zlib_stream(stream, probe_limit(entry.uncompressed_len))->0,
                entry.uncompressed_len,
            );
        } else {
            lemma_transferred_keeps_tidy(
                out,
                entry.dir,
                entry.name,
                window(data, pos, entry.uncompressed_len as int),
                entry.uncompressed_len,
            );
        }
    }
}

/// Extracting entries of the nested layout keeps an output tidy.
pub proof fn lemma_entries_ph3_keep_tidy(
    header: Seq<u8>,
    pos: int,
    data: Seq<u8>,
    count: nat,
    out: OutputModel,
)
    requires
        tidy_output(out),
    ensures
        tidy_output(entries_ph3_run(header, pos, data, count, out).out),
    decreases count,
{
    if count > 0 {
        let first = entry_ph3_at(header, pos);
        let noted = warned(out, first.warnings);
        assert(tidy_output(noted));
        if first.entry is Some {
            lemma_entry_ph3_keeps_tidy(data, first.entry->0, noted);
            let step = entry_ph3_run(data, first.entry->0, noted);
            if step.error is None {
                lemma_entries_ph3_keep_tidy(header, first.next, data, (count - 1) as nat, step.out);
            }
        }
    }
}

/// Whatever a container holds, extracting it keeps an output tidy: every
/// file that the extraction adds has a path of its own, and no file that was
/// there before is touched. This holds where the extraction succeeds and
/// where it is given up.
pub proof fn lemma_extraction_keeps_tidy(data: Seq<u8>, out: OutputModel)
    requires
        tidy_output(out),
    ensures
        tidy_output(archive_012m_run(data, out).out),
        tidy_output(archive_ph3_run(data, out).out),
{
    let flat = archive_012m_run(data, out);
    if flat.out != out {
        let behind = ARCHIVE_012M_MAGIC@.len() as int;
        let count = le_u32(bytes_at(data, behind, 4)) as nat;
        let table = table_012m(data, behind + 4, count);
        let noted = warned(out, table.warnings);
        assert(tidy_output(noted));
        if table.complete {
            lemma_entries_012m_keep_tidy(data, table.entries, noted);
        }
    }
    let nested = archive_ph3_run(data, out);
    if nested.out != out {
        let fields = ARCHIVE_PH3_MAGIC@.len() as int;
        let count = le_u32(bytes_at(data, fields, 4)) as nat;
        let size = le_u32(bytes_at(data, fields + 5, 4));
        let block = bytes_at(data, ph3_header_start(), size);
        if data[fields + 4] != 0 {
            lemma_entries_ph3_keep_tidy(zlib_stream(block, u64::MAX)->0, 0, data, count, out);
        } else {
            lemma_entries_ph3_keep_tidy(block, 0, data, count, out);
        }
    }
}

} // verus!
