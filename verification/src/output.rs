//! The output tree: where each extracted entry is written, under which name,
//! and what it holds.
//!
//! The tree mirrors the directories that the entries name. Each directory
//! remembers the names it was asked for and the names it gave out, so that no
//! two entries are written to one place.

use crate::names::{
    first_free, forbidden, is_forbidden, is_reserved, lemma_first_free_unique,
    lemma_numbered_injective, lemma_sanitize_idempotent, lemma_sanitize_is_safe,
    lemma_unique_name_is_free, name_core,
    normalize, not_blank, numbered, pick_unused, replace_forbidden, reserved, sanitize, segments,
    strip_end, unique_name,
};
use crate::paths::{lemma_created_keeps_tidy, lemma_fresh_output_is_tidy, tidy_output};
use crate::report::{log_warning, warning_models, Warning, WarningModel};
use crate::text::{
    from_chars, is_blank, is_white_space, to_chars, trim_start, views, white_space,
};
use vstd::hash_set::StringHashSet;
use vstd::prelude::*;

verus! {

/// Makes `name` safe to use as the name of a file or directory: the white
/// space at its start and the white space and periods at its end are
/// removed, forbidden characters become `_`, a reserved name gets a `_`
/// appended, and an empty name becomes `no_name`.
pub fn validate_filename(name: &str) -> (safe: String)
    ensures
        safe@ == sanitize(name@),
        safe@.len() > 0,
        forall|i: int| 0 <= i < safe@.len() ==> !is_forbidden(#[trigger] safe@[i]),
        !is_reserved(safe@),
        !is_white_space(safe@[0]),
        !is_white_space(safe@.last()),
        safe@.last() != '.',
        sanitize(safe@) == safe@,
{
    let chars = to_chars(name);
    let mut start: usize = 0;
    assert(chars@.skip(0) == chars@);
    while start < chars.len() && white_space(chars[start])
        invariant
            start <= chars@.len(),
            trim_start(chars@) == trim_start(chars@.skip(start as int)),
        decreases chars@.len() - start,
    {
        assert(chars@.skip(start as int).skip(1) == chars@.skip(start + 1));
        start += 1;
    }
    let mut end: usize = chars.len();
    while end > start && (white_space(chars[end - 1]) || chars[end - 1] == '.')
        invariant
            start <= end <= chars@.len(),
            name_core(chars@) == strip_end(chars@.subrange(start as int, end as int)),
        decreases end,
    {
        assert(chars@.subrange(start as int, end as int).drop_last() == chars@.subrange(
            start as int,
            end - 1,
        ));
        end -= 1;
    }
    let mut out: Vec<char> = Vec::new();
    let mut i: usize = start;
    while i < end
        invariant
            start <= i <= end <= chars@.len(),
            out@ == chars@.subrange(start as int, i as int).map_values(
                |c: char| replace_forbidden(c),
            ),
        decreases end - i,
    {
        let c: char = chars[i];
        if forbidden(c) {
            out.push('_');
        } else {
            out.push(c);
        }
        i += 1;
    }
    if reserved(&out) {
        out.push('_');
    }
    proof {
        lemma_sanitize_is_safe(name@);
        lemma_sanitize_idempotent(name@);
    }
    if out.len() == 0 {
        String::from_str("no_name")
    } else {
        let safe = from_chars(&out, 0, out.len());
        assert(out@.subrange(0, out@.len() as int) == out@);
        safe
    }
}

/// Splits a directory path at `/` and `\`, and drops the segments that are
/// empty or hold white space only. The order of the others is kept.
pub fn normalize_path(path: &str) -> (components: Vec<String>)
    ensures
        views(components@) == normalize(path@),
{
    let chars = to_chars(path);
    let mut components: Vec<String> = Vec::new();
    let mut start: usize = 0;
    let mut blank: bool = true;
    let mut i: usize = 0;
    while i < chars.len()
        invariant
            start <= i <= chars@.len(),
            segments(chars@.take(i as int)).len() >= 1,
            segments(chars@.take(i as int)).last() == chars@.subrange(start as int, i as int),
            views(components@) == segments(chars@.take(i as int)).drop_last().filter(not_blank()),
            blank == is_blank(chars@.subrange(start as int, i as int)),
        decreases chars@.len() - i,
    {
        let c: char = chars[i];
        let ghost before = segments(chars@.take(i as int));
        let ghost current = chars@.subrange(start as int, i as int);
        proof {
            assert(chars@.take(i + 1).drop_last() == chars@.take(i as int));
            assert(before == before.drop_last().push(current));
            before.drop_last().lemma_filter_push(current, not_blank());
        }
        if c == '/' || c == '\\' {
            if !blank {
                let piece = from_chars(&chars, start, i);
                components.push(piece);
            }
            start = i + 1;
            blank = true;
            assert(before.push(Seq::<char>::empty()).drop_last() == before);
        } else {
            if !white_space(c) {
                blank = false;
            }
            assert(before.drop_last().push(current.push(c)).drop_last() == before.drop_last());
            assert(chars@.subrange(start as int, i + 1) == current.push(c));
            assert(is_blank(current.push(c)) == (is_blank(current) && is_white_space(c))) by {
                if !is_white_space(c) {
                    assert(current.push(c)[current.len() as int] == c);
                } else if !is_blank(current) {
                    let k = choose|k: int| 0 <= k < current.len() && !is_white_space(current[k]);
                    assert(current.push(c)[k] == current[k]);
                }
            }
        }
        i += 1;
    }
    let ghost all = segments(chars@);
    let ghost last = chars@.subrange(start as int, chars@.len() as int);
    proof {
        assert(chars@.take(chars@.len() as int) == chars@);
        assert(all == all.drop_last().push(last));
        all.drop_last().lemma_filter_push(last, not_blank());
    }
    if !blank {
        let piece = from_chars(&chars, start, chars.len());
        components.push(piece);
    }
    components
}

/// A directory of the output tree as a plain value.
pub struct DirModel {
    /// Where the directory lies: the root's path, then the names chosen on the way, joined by `/`.
    pub base_path: Seq<char>,
    /// The subdirectories, each under the name it was asked for, oldest first.
    pub subdirs: Seq<(Seq<char>, DirModel)>,
    /// The names, as the entries have them, that were asked for in this directory.
    pub encountered: Set<Seq<char>>,
    /// The names that were given out in this directory.
    pub written: Set<Seq<char>>,
}

impl DirModel {
    /// The directory at `base_path` in which nothing was asked for yet.
    pub open spec fn fresh(base_path: Seq<char>) -> DirModel {
        DirModel {
            base_path,
            subdirs: Seq::empty(),
            encountered: Set::empty(),
            written: Set::empty(),
        }
    }

    /// A well-formed directory holds finitely many names, no subdirectory
    /// twice, and well-formed subdirectories only.
    pub open spec fn wf(self) -> bool
        decreases self,
    {
        &&& self.encountered.finite()
        &&& self.written.finite()
        &&& forall|i: int| 0 <= i < self.subdirs.len() ==> (#[trigger] self.subdirs[i]).1.wf()
        &&& forall|i: int, j: int|
            0 <= i < j < self.subdirs.len() ==> (#[trigger] self.subdirs[i]).0 != (
            #[trigger] self.subdirs[j]).0
    }
}

/// The path of `name` inside the directory at `base`.
pub open spec fn join(base: Seq<char>, name: Seq<char>) -> Seq<char> {
    base + seq!['/'] + name
}

/// The directories of a path written out, each followed by `/`.
pub open spec fn joined(components: Seq<Seq<char>>) -> Seq<char>
    decreases components.len(),
{
    if components.len() == 0 {
        Seq::empty()
    } else {
        joined(components.drop_last()) + components.last() + seq!['/']
    }
}

/// Where among `subdirs` the one asked for as `name` stands, if it is there.
pub open spec fn find_subdir(subdirs: Seq<(Seq<char>, DirModel)>, name: Seq<char>) -> Option<int> {
    if exists|i: int| 0 <= i < subdirs.len() && (#[trigger] subdirs[i]).0 == name {
        Some(choose|i: int| 0 <= i < subdirs.len() && (#[trigger] subdirs[i]).0 == name)
    } else {
        None
    }
}

/// What giving out a name does: the directory afterwards, the name, and the warnings.
pub struct Emitted {
    pub dir: DirModel,
    pub name: Seq<char>,
    pub warnings: Seq<WarningModel>,
}

/// Gives out a name for the entry `original_name` in `dir`. The name is the
/// safe form of the entry's own, numbered where that is already written. The entry is
/// reported where its name was met before, where it is not safe as it stands,
/// and where it is written under another name.
pub open spec fn emit(dir: DirModel, original_path: Seq<char>, original_name: Seq<char>) -> Emitted {
    let base = sanitize(original_name);
    let name = unique_name(dir.written, base);
    let duplicate = if dir.encountered.contains(original_name) {
        seq![WarningModel::DuplicateFile { path: original_path }]
    } else {
        Seq::empty()
    };
    let invalid = if base != original_name {
        seq![WarningModel::InvalidFileName { path: original_path }]
    } else {
        Seq::empty()
    };
    let renamed = if name != original_name {
        seq![WarningModel::Renamed { path: original_path, output: name }]
    } else {
        Seq::empty()
    };
    Emitted {
        dir: DirModel {
            encountered: dir.encountered.insert(original_name),
            written: dir.written.insert(name),
            ..dir
        },
        name,
        warnings: duplicate + invalid + renamed,
    }
}

/// What entering a subdirectory does: the directory afterwards, where the
/// subdirectory stands in it, and the warnings.
pub struct Entered {
    pub dir: DirModel,
    pub index: int,
    pub warnings: Seq<WarningModel>,
}

/// Enters the subdirectory asked for as `original_name`. It is made, under a
/// name given out by `dir`, the first time it is asked for, and found again
/// every time after.
pub open spec fn enter(dir: DirModel, original_path: Seq<char>, original_name: Seq<char>) -> Entered {
    match find_subdir(dir.subdirs, original_name) {
        Some(i) => Entered { dir, index: i, warnings: Seq::empty() },
        None => {
            let e = emit(dir, original_path, original_name);
            let child = DirModel::fresh(join(dir.base_path, e.name));
            Entered {
                dir: DirModel { subdirs: e.dir.subdirs.push((original_name, child)), ..e.dir },
                index: dir.subdirs.len() as int,
                warnings: e.warnings,
            }
        },
    }
}

/// What placing a file does: the directory afterwards, the file's path, and the warnings.
pub struct Placed {
    pub dir: DirModel,
    pub path: Seq<char>,
    pub warnings: Seq<WarningModel>,
}

/// Places the file `name` below `dir`, in the directory that `components`
/// lead to: each of them is entered in turn, and the last one gives out the
/// file's name.
pub open spec fn place(
    dir: DirModel,
    components: Seq<Seq<char>>,
    original_path: Seq<char>,
    name: Seq<char>,
) -> Placed
    decreases components.len(),
{
    if components.len() == 0 {
        let e = emit(dir, original_path, name);
        Placed { dir: e.dir, path: join(dir.base_path, e.name), warnings: e.warnings }
    } else {
        let entered = enter(dir, original_path, components[0]);
        let child = entered.dir.subdirs[entered.index].1;
        let below = place(child, components.skip(1), original_path, name);
        Placed {
            dir: DirModel {
                subdirs: entered.dir.subdirs.update(entered.index, (components[0], below.dir)),
                ..entered.dir
            },
            path: below.path,
            warnings: entered.warnings + below.warnings,
        }
    }
}

/// The names that `dir` gives out to the entries `names`, asked for one after another.
pub open spec fn given_out(dir: DirModel, names: Seq<Seq<char>>) -> Seq<Seq<char>>
    decreases names.len(),
{
    if names.len() == 0 {
        Seq::empty()
    } else {
        let e = emit(dir, names[0], names[0]);
        seq![e.name] + given_out(e.dir, names.skip(1))
    }
}

/// Whatever the entries are called, the names that a directory gives out
/// differ from each other and from every name that was written in it before.
pub proof fn lemma_given_out_distinct(dir: DirModel, names: Seq<Seq<char>>)
    requires
        dir.written.finite(),
    ensures
        given_out(dir, names).len() == names.len(),
        forall|i: int|
            0 <= i < names.len() ==> !dir.written.contains(#[trigger] given_out(dir, names)[i]),
        forall|i: int, j: int|
            0 <= i < j < names.len() ==> given_out(dir, names)[i] != given_out(dir, names)[j],
    decreases names.len(),
{
    if names.len() > 0 {
        let e = emit(dir, names[0], names[0]);
        lemma_unique_name_is_free(dir.written, sanitize(names[0]));
        lemma_given_out_distinct(e.dir, names.skip(1));
    }
}

/// Entries whose names all have the safe form `base`, written into a
/// directory that holds `base` and `base_2` .. `base_m` but no later
/// number, are given the names `base_(m+1)`, `base_(m+2)`, ... in order.
pub proof fn lemma_given_out_numbered(dir: DirModel, names: Seq<Seq<char>>, base: Seq<char>, m: nat)
    requires
        dir.written.finite(),
        m >= 1,
        dir.written.contains(base),
        forall|k: nat| 2 <= k <= m ==> dir.written.contains(#[trigger] numbered(base, k)),
        forall|k: nat| k > m ==> !dir.written.contains(#[trigger] numbered(base, k)),
        forall|i: int| 0 <= i < names.len() ==> sanitize(#[trigger] names[i]) == base,
    ensures
        given_out(dir, names).len() == names.len(),
        forall|i: int|
            0 <= i < names.len() ==> #[trigger] given_out(dir, names)[i] == numbered(
                base,
                (m + 1 + i) as nat,
            ),
    decreases names.len(),
{
    if names.len() > 0 {
        let e = emit(dir, names[0], names[0]);
        lemma_first_free_unique(dir.written, base, m + 1, first_free(dir.written, base));
        assert forall|k: nat| k > m + 1 implies !e.dir.written.contains(
            #[trigger] numbered(base, k),
        ) by {
            if numbered(base, k) == numbered(base, m + 1) {
                lemma_numbered_injective(base, k, m + 1);
            }
        }
        lemma_given_out_numbered(e.dir, names.skip(1), base, m + 1);
    }
}

/// Entries whose names all have the safe form `base`, written into a
/// directory that holds neither `base` nor any `base_k`, are given the names
/// `base`, `base_2`, `base_3`, ... in order, each different from the others.
pub proof fn lemma_colliding_names(dir: DirModel, names: Seq<Seq<char>>, base: Seq<char>)
    requires
        dir.written.finite(),
        !dir.written.contains(base),
        forall|k: nat| k >= 2 ==> !dir.written.contains(#[trigger] numbered(base, k)),
        forall|i: int| 0 <= i < names.len() ==> sanitize(#[trigger] names[i]) == base,
    ensures
        given_out(dir, names).len() == names.len(),
        names.len() > 0 ==> given_out(dir, names)[0] == base,
        forall|i: int|
            1 <= i < names.len() ==> #[trigger] given_out(dir, names)[i] == numbered(
                base,
                (i + 1) as nat,
            ),
        forall|i: int, j: int|
            0 <= i < j < names.len() ==> given_out(dir, names)[i] != given_out(dir, names)[j],
{
    lemma_given_out_distinct(dir, names);
    if names.len() > 0 {
        let e = emit(dir, names[0], names[0]);
        lemma_given_out_numbered(e.dir, names.skip(1), base, 1);
    }
}

/// The directory that `components` lead to from `dir`, where each of them was entered before.
pub open spec fn dir_at(dir: DirModel, components: Seq<Seq<char>>) -> Option<DirModel>
    decreases components.len(),
{
    if components.len() == 0 {
        Some(dir)
    } else {
        match find_subdir(dir.subdirs, components[0]) {
            Some(i) => dir_at(dir.subdirs[i].1, components.skip(1)),
            None => None,
        }
    }
}

/// The paths of the files `names`, placed one after another in the
/// directory that `components` lead to.
pub open spec fn placed_paths(
    dir: DirModel,
    components: Seq<Seq<char>>,
    names: Seq<Seq<char>>,
) -> Seq<Seq<char>>
    decreases names.len(),
{
    if names.len() == 0 {
        Seq::empty()
    } else {
        let first = place(dir, components, joined(components) + names[0], names[0]);
        seq![first.path] + placed_paths(first.dir, components, names.skip(1))
    }
}

/// A file placed in a directory that was entered before goes through no
/// other directory: the directory gives out its name, and is found again, with
/// that name remembered, where it was.
pub proof fn lemma_place_in_known_dir(
    dir: DirModel,
    components: Seq<Seq<char>>,
    original_path: Seq<char>,
    name: Seq<char>,
)
    requires
        dir.wf(),
        dir_at(dir, components) is Some,
    ensures
        place(dir, components, original_path, name).dir.wf(),
        place(dir, components, original_path, name).path == join(
            dir_at(dir, components)->0.base_path,
            emit(dir_at(dir, components)->0, original_path, name).name,
        ),
        place(dir, components, original_path, name).warnings == emit(
            dir_at(dir, components)->0,
            original_path,
            name,
        ).warnings,
        dir_at(place(dir, components, original_path, name).dir, components) == Some(
            emit(dir_at(dir, components)->0, original_path, name).dir,
        ),
        dir_at(dir, components)->0.wf(),
    decreases components.len(),
{
    if components.len() > 0 {
        let i = find_subdir(dir.subdirs, components[0])->0;
        let child = dir.subdirs[i].1;
        lemma_place_in_known_dir(child, components.skip(1), original_path, name);
        let after = place(dir, components, original_path, name).dir;
        let found = find_subdir(after.subdirs, components[0])->0;
        if found < i {
            assert(after.subdirs[found].0 != after.subdirs[i].0);
        } else if i < found {
            assert(after.subdirs[i].0 != after.subdirs[found].0);
        }
    }
}

/// Placing a file keeps the tree well-formed, and leaves the directory that
/// the file went to in the tree.
pub proof fn lemma_place_reaches(
    dir: DirModel,
    components: Seq<Seq<char>>,
    original_path: Seq<char>,
    name: Seq<char>,
)
    requires
        dir.wf(),
    ensures
        place(dir, components, original_path, name).dir.wf(),
        place(dir, components, original_path, name).dir.base_path == dir.base_path,
        dir_at(place(dir, components, original_path, name).dir, components) is Some,
    decreases components.len(),
{
    let placed = place(dir, components, original_path, name);
    if components.len() > 0 {
        let entered = enter(dir, original_path, components[0]);
        let i = entered.index;
        let child = entered.dir.subdirs[i].1;
        lemma_place_reaches(child, components.skip(1), original_path, name);
        let after = placed.dir;
        let found = find_subdir(after.subdirs, components[0])->0;
        if found < i {
            assert(after.subdirs[found].0 != after.subdirs[i].0);
        } else if i < found {
            assert(after.subdirs[i].0 != after.subdirs[found].0);
        }
    }
}

/// Files placed one after another in one directory get the names that the
/// directory gives out, in order, below the directory's path.
pub proof fn lemma_placed_in_one_directory(
    dir: DirModel,
    components: Seq<Seq<char>>,
    names: Seq<Seq<char>>,
)
    requires
        dir.wf(),
        dir_at(dir, components) is Some,
    ensures
        placed_paths(dir, components, names).len() == names.len(),
        given_out(dir_at(dir, components)->0, names).len() == names.len(),
        forall|i: int|
            0 <= i < names.len() ==> #[trigger] placed_paths(dir, components, names)[i] == join(
                dir_at(dir, components)->0.base_path,
                given_out(dir_at(dir, components)->0, names)[i],
            ),
    decreases names.len(),
{
    if names.len() > 0 {
        let original_path = joined(components) + names[0];
        let first = place(dir, components, original_path, names[0]);
        lemma_place_in_known_dir(dir, components, original_path, names[0]);
        lemma_placed_in_one_directory(first.dir, components, names.skip(1));
    }
}

/// A directory found in a well-formed tree is well-formed.
pub proof fn lemma_dir_at_wf(dir: DirModel, components: Seq<Seq<char>>)
    requires
        dir.wf(),
        dir_at(dir, components) is Some,
    ensures
        dir_at(dir, components)->0.wf(),
    decreases components.len(),
{
    if components.len() > 0 {
        let i = find_subdir(dir.subdirs, components[0])->0;
        assert(dir.subdirs[i].1.wf());
        lemma_dir_at_wf(dir.subdirs[i].1, components.skip(1));
    }
}

/// Two names in one directory have two paths.
pub proof fn lemma_join_injective(base: Seq<char>, a: Seq<char>, b: Seq<char>)
    requires
        join(base, a) == join(base, b),
    ensures
        a == b,
{
    assert(join(base, a).skip(base.len() as int + 1) =~= a);
    assert(join(base, b).skip(base.len() as int + 1) =~= b);
}

/// Files placed one after another in one directory get paths that differ
/// from each other, whatever the files are called.
pub proof fn lemma_placed_paths_distinct(
    dir: DirModel,
    components: Seq<Seq<char>>,
    names: Seq<Seq<char>>,
)
    requires
        dir.wf(),
        dir_at(dir, components) is Some,
    ensures
        placed_paths(dir, components, names).len() == names.len(),
        forall|i: int, j: int|
            0 <= i < j < names.len() ==> placed_paths(dir, components, names)[i] != placed_paths(
                dir,
                components,
                names,
            )[j],
{
    let target = dir_at(dir, components)->0;
    lemma_dir_at_wf(dir, components);
    lemma_placed_in_one_directory(dir, components, names);
    lemma_given_out_distinct(target, names);
    let paths = placed_paths(dir, components, names);
    let given = given_out(target, names);
    assert forall|i: int, j: int| 0 <= i < j < names.len() implies paths[i] != paths[j] by {
        if paths[i] == paths[j] {
            lemma_join_injective(target.base_path, given[i], given[j]);
        }
    }
}

/// A directory of the output tree.
pub struct OutputDirNode {
    base_path: String,
    subdirs: Vec<(String, OutputDirNode)>,
    encountered_names: StringHashSet,
    written_names: StringHashSet,
}

impl OutputDirNode {
    /// The directory as a plain value.
    pub closed spec fn view(&self) -> DirModel
        decreases self,
    {
        DirModel {
            base_path: self.base_path@,
            subdirs: Seq::new(
                self.subdirs@.len(),
                |i: int|
                    if 0 <= i < self.subdirs@.len() {
                        (self.subdirs@[i].0@, self.subdirs@[i].1.view())
                    } else {
                        (Seq::empty(), arbitrary())
                    },
            ),
            encountered: self.encountered_names@,
            written: self.written_names@,
        }
    }

    /// The directory is well-formed.
    pub open spec fn wf(&self) -> bool {
        self@.wf()
    }

    /// The directory at `base_path`, in which nothing was asked for yet.
    pub fn new(base_path: String) -> (node: OutputDirNode)
        ensures
            node@ == DirModel::fresh(base_path@),
            node.wf(),
    {
        let node = OutputDirNode {
            base_path,
            subdirs: Vec::new(),
            encountered_names: StringHashSet::new(),
            written_names: StringHashSet::new(),
        };
        assert(node@.subdirs =~= Seq::empty());
        node
    }

    /// Gives out the name under which the entry `original_name` is written in this directory.
    fn uniq_name(&mut self, original_path: &str, original_name: &str, log: &mut Vec<Warning>) -> (name:
        String)
        requires
            old(self).wf(),
        ensures
            final(self).wf(),
            final(self)@ == emit(old(self)@, original_path@, original_name@).dir,
            name@ == emit(old(self)@, original_path@, original_name@).name,
            warning_models(final(log)@) == warning_models(old(log)@) + emit(
                old(self)@,
                original_path@,
                original_name@,
            ).warnings,
            !old(self)@.written.contains(name@),
    {
        let ghost before = self@;
        let original = String::from_str(original_name);
        if self.encountered_names.contains(original_name) {
            log_warning(log, Warning::DuplicateFile { path: String::from_str(original_path) });
        }
        self.encountered_names.insert(original.clone());
        let base = validate_filename(original_name);
        if base != original {
            log_warning(log, Warning::InvalidFileName { path: String::from_str(original_path) });
        }
        let name = pick_unused(&self.written_names, base);
        if name != original {
            log_warning(
                log,
                Warning::Renamed { path: String::from_str(original_path), output: name.clone() },
            );
        }
        self.written_names.insert(name.clone());
        assert(self@ == emit(before, original_path@, original_name@).dir);
        name
    }

    /// Where the subdirectory asked for as `name` stands, if it is there.
    fn lookup(&self, name: &str) -> (found: Option<usize>)
        requires
            self.wf(),
        ensures
            found matches Some(i) ==> i < self@.subdirs.len() && find_subdir(self@.subdirs, name@)
                == Some(i as int) && self@.subdirs[i as int].0 == name@,
            found is None ==> find_subdir(self@.subdirs, name@) is None,
    {
        let wanted = String::from_str(name);
        let mut i: usize = 0;
        while i < self.subdirs.len()
            invariant
                i <= self.subdirs@.len(),
                self.subdirs@.len() == self@.subdirs.len(),
                self.wf(),
                wanted@ == name@,
                forall|j: int| 0 <= j < i ==> (#[trigger] self@.subdirs[j]).0 != name@,
            decreases self.subdirs@.len() - i,
        {
            if self.subdirs[i].0 == wanted {
                assert(self@.subdirs[i as int].0 == name@);
                return Some(i);
            }
            i += 1;
        }
        None
    }

    /// Enters the subdirectory asked for as `original_name`, making it the
    /// first time it is asked for. Returns where it stands among the subdirectories.
    fn write_dir(&mut self, original_path: &str, original_name: &str, log: &mut Vec<Warning>) -> (index:
        usize)
        requires
            old(self).wf(),
        ensures
            final(self).wf(),
            final(self)@ == enter(old(self)@, original_path@, original_name@).dir,
            index == enter(old(self)@, original_path@, original_name@).index,
            index < final(self)@.subdirs.len(),
            final(self)@.subdirs[index as int].0 == original_name@,
            warning_models(final(log)@) == warning_models(old(log)@) + enter(
                old(self)@,
                original_path@,
                original_name@,
            ).warnings,
    {
        match self.lookup(original_name) {
            Some(index) => index,
            None => {
                let ghost before = self@;
                let name = self.uniq_name(original_path, original_name, log);
                let ghost emitted = self@;
                let mut path = self.base_path.clone();
                path.append("/");
                path.append(name.as_str());
                proof {
                    reveal_strlit("/");
                    assert(path@ =~= join(before.base_path, name@));
                }
                let child = OutputDirNode::new(path);
                let index: usize = self.subdirs.len();
                self.subdirs.push((String::from_str(original_name), child));
                proof {
                    assert(self@.subdirs =~= emitted.subdirs.push((original_name@, child@)));
                }
                index
            },
        }
    }

    /// Gives out the path of the file `original_name` in this directory.
    fn write_file(&mut self, original_path: &str, original_name: &str, log: &mut Vec<Warning>) -> (path:
        String)
        requires
            old(self).wf(),
        ensures
            final(self).wf(),
            final(self)@ == emit(old(self)@, original_path@, original_name@).dir,
            path@ == join(
                old(self)@.base_path,
                emit(old(self)@, original_path@, original_name@).name,
            ),
            warning_models(final(log)@) == warning_models(old(log)@) + emit(
                old(self)@,
                original_path@,
                original_name@,
            ).warnings,
    {
        let mut path = self.base_path.clone();
        let name = self.uniq_name(original_path, original_name, log);
        path.append("/");
        path.append(name.as_str());
        proof {
            reveal_strlit("/");
        }
        path
    }

    /// Places the file `name` in the directory that `components[at..]` lead
    /// to from here, and returns its path.
    fn place_file(
        &mut self,
        components: &Vec<String>,
        at: usize,
        original_path: &str,
        name: &str,
        log: &mut Vec<Warning>,
    ) -> (path: String)
        requires
            old(self).wf(),
            at <= components@.len(),
        ensures
            final(self).wf(),
            final(self)@ == place(
                old(self)@,
                views(components@).skip(at as int),
                original_path@,
                name@,
            ).dir,
            path@ == place(
                old(self)@,
                views(components@).skip(at as int),
                original_path@,
                name@,
            ).path,
            warning_models(final(log)@) == warning_models(old(log)@) + place(
                old(self)@,
                views(components@).skip(at as int),
                original_path@,
                name@,
            ).warnings,
        decreases components@.len() - at,
    {
        let ghost rest = views(components@).skip(at as int);
        if at == components.len() {
            self.write_file(original_path, name, log)
        } else {
            assert(rest.skip(1) =~= views(components@).skip(at + 1));
            let index = self.write_dir(original_path, components[at].as_str(), log);
            let ghost entered = self@;
            let child = &mut self.subdirs[index].1;
            let path = child.place_file(components, at + 1, original_path, name, log);
            proof {
                let below = place(entered.subdirs[index as int].1, rest.skip(1), original_path@, name@);
                assert(self@.subdirs =~= entered.subdirs.update(index as int, (rest[0], below.dir)));
            }
            path
        }
    }
}

/// A file of the output as a plain value.
pub struct FileModel {
    pub path: Seq<char>,
    pub data: Seq<u8>,
}

/// A file of the output: where it is written, and what it holds.
#[derive(Debug, PartialEq, Eq)]
pub struct OutputFile {
    /// The path, starting with the root directory, with `/` between the names.
    pub path: String,
    /// The contents.
    pub data: Vec<u8>,
}

impl View for OutputFile {
    type V = FileModel;

    open spec fn view(&self) -> FileModel {
        FileModel { path: self.path@, data: self.data@ }
    }
}

/// The files of a list as plain values, in order.
pub open spec fn file_models(files: Seq<OutputFile>) -> Seq<FileModel> {
    files.map_values(|f: OutputFile| f@)
}

/// An output as a plain value.
pub struct OutputModel {
    /// The root directory.
    pub root: DirModel,
    /// The files written so far, oldest first.
    pub files: Seq<FileModel>,
    /// The warnings given so far, oldest first.
    pub warnings: Seq<WarningModel>,
}

/// The name of the directory that the container called `stem` is extracted to.
pub open spec fn root_base(stem: Seq<char>) -> Seq<char> {
    stem + "_extracted"@
}

/// The output right after `create(dir, name)`: the file is placed in the
/// tree, and stands, still empty, at the end of the files.
pub open spec fn created(out: OutputModel, dir: Seq<char>, name: Seq<char>) -> OutputModel {
    let components = normalize(dir);
    let placed = place(out.root, components, joined(components) + name, name);
    OutputModel {
        root: placed.dir,
        files: out.files.push(FileModel { path: placed.path, data: Seq::empty() }),
        warnings: out.warnings + placed.warnings,
    }
}

/// A file created in the root directory gets the name that the root gives
/// out for it, and the root remembers it.
pub proof fn lemma_created_in_root(out: OutputModel, dir: Seq<char>, name: Seq<char>)
    requires
        normalize(dir).len() == 0,
    ensures
        created(out, dir, name).root == emit(out.root, name, name).dir,
        created(out, dir, name).files.last().path == join(
            out.root.base_path,
            emit(out.root, name, name).name,
        ),
        created(out, dir, name).warnings == out.warnings + emit(out.root, name, name).warnings,
{
}

/// The output right after `bytes` were written to its file number `file`.
pub open spec fn written(out: OutputModel, file: int, bytes: Seq<u8>) -> OutputModel {
    OutputModel {
        files: out.files.update(
            file,
            FileModel { path: out.files[file].path, data: out.files[file].data + bytes },
        ),
        ..out
    }
}

/// The output of one extraction: the tree of names, the files, and the warnings.
pub struct Output {
    root: OutputDirNode,
    files: Vec<OutputFile>,
    warnings: Vec<Warning>,
}

impl Output {
    /// The output as a plain value.
    pub closed spec fn view(&self) -> OutputModel {
        OutputModel {
            root: self.root@,
            files: file_models(self.files@),
            warnings: warning_models(self.warnings@),
        }
    }

    /// The output is well-formed.
    pub open spec fn wf(&self) -> bool {
        self@.root.wf()
    }

    /// The empty output for the container called `stem`. Its root directory
    /// is `<stem>_extracted`, or, where `existing` holds that name, the first
    /// of `<stem>_extracted_2`, `<stem>_extracted_3`, ... that it does not hold.
    pub fn for_path(stem: &str, existing: &Vec<String>) -> (out: Output)
        ensures
            out.wf(),
            out@ == (OutputModel {
                root: DirModel::fresh(unique_name(views(existing@).to_set(), root_base(stem@))),
                files: Seq::empty(),
                warnings: Seq::empty(),
            }),
            !views(existing@).contains(out@.root.base_path),
            tidy_output(out@),
    {
        let mut taken = StringHashSet::new();
        let mut i: usize = 0;
        while i < existing.len()
            invariant
                i <= existing@.len(),
                taken@.finite(),
                taken@ == views(existing@).take(i as int).to_set(),
            decreases existing@.len() - i,
        {
            taken.insert(existing[i].clone());
            i += 1;
            proof {
                let all = views(existing@);
                assert(all.take(i as int) == all.take(i - 1).push(all[i - 1]));
                all.take(i - 1).lemma_push_to_set_commute(all[i - 1]);
            }
        }
        assert(views(existing@).take(existing@.len() as int) == views(existing@));
        let mut base = String::from_str(stem);
        base.append("_extracted");
        let name = pick_unused(&taken, base);
        let out = Output { root: OutputDirNode::new(name), files: Vec::new(), warnings: Vec::new() };
        assert(out@.files =~= Seq::empty());
        assert(out@.warnings =~= Seq::empty());
        proof {
            lemma_fresh_output_is_tidy(out@.root.base_path);
        }
        out
    }

    /// The path of the root directory.
    pub fn display_out_path(&self) -> (path: &str)
        ensures
            path@ == self@.root.base_path,
    {
        self.root.base_path.as_str()
    }

    /// The number of files written so far.
    pub fn write_count(&self) -> (count: usize)
        ensures
            count == self@.files.len(),
    {
        self.files.len()
    }

    /// The files written so far, oldest first.
    pub fn files(&self) -> (files: &Vec<OutputFile>)
        ensures
            file_models(files@) == self@.files,
    {
        &self.files
    }

    /// The warnings given so far, oldest first.
    pub fn warnings(&self) -> (warnings: &Vec<Warning>)
        ensures
            warning_models(warnings@) == self@.warnings,
    {
        &self.warnings
    }

    /// Adds a warning.
    pub fn warn(&mut self, warning: Warning)
        ensures
            final(self)@ == (OutputModel {
                warnings: old(self)@.warnings.push(warning@),
                ..old(self)@
            }),
    {
        log_warning(&mut self.warnings, warning);
    }

    /// Adds the warnings of `log`, in order.
    pub fn warn_all(&mut self, log: Vec<Warning>)
        ensures
            final(self)@ == (OutputModel {
                warnings: old(self)@.warnings + warning_models(log@),
                ..old(self)@
            }),
    {
        let mut log = log;
        let ghost added = log@;
        let ghost before = self.warnings@;
        self.warnings.append(&mut log);
        assert(warning_models(self.warnings@) =~= warning_models(before) + warning_models(added));
    }

    /// Opens a new, empty file for the entry `name` of the directory `dir`,
    /// and returns its number. The directories that `dir` names are entered
    /// from the root, and made where they are asked for the first time; the
    /// last one gives out the file's name, which differs from every name it
    /// gave out before. In a tidy output the new file's path differs from
    /// the path of every earlier file.
    pub fn create(&mut self, dir: &str, name: &str) -> (file: usize)
        requires
            old(self).wf(),
        ensures
            final(self).wf(),
            final(self)@ == created(old(self)@, dir@, name@),
            file == old(self)@.files.len(),
            tidy_output(old(self)@) ==> tidy_output(final(self)@) && forall|i: int|
                0 <= i < file ==> (#[trigger] old(self)@.files[i]).path != created(
                    old(self)@,
                    dir@,
                    name@,
                ).files.last().path,
    {
        let split = normalize_path(dir);
        let mut original_path = String::new();
        let mut i: usize = 0;
        while i < split.len()
            invariant
                i <= split@.len(),
                original_path@ == joined(views(split@).take(i as int)),
            decreases split@.len() - i,
        {
            original_path.append(split[i].as_str());
            original_path.append("/");
            i += 1;
            proof {
                reveal_strlit("/");
                let done = views(split@).take(i as int);
                assert(done.drop_last() == views(split@).take(i - 1));
            }
        }
        original_path.append(name);
        proof {
            assert(views(split@).skip(0) == views(split@));
        }
        let path = self.root.place_file(&split, 0, original_path.as_str(), name, &mut self.warnings);
        let file: usize = self.files.len();
        let ghost files = self.files@;
        self.files.push(OutputFile { path, data: Vec::new() });
        proof {
            let placed = place(old(self)@.root, normalize(dir@), joined(normalize(dir@)) + name@, name@);
            assert(file_models(self.files@) =~= file_models(files).push(
                FileModel { path: placed.path, data: Seq::empty() },
            ));
            if tidy_output(old(self)@) {
                lemma_created_keeps_tidy(old(self)@, dir@, name@);
            }
        }
        file
    }

    /// Writes `bytes` at the end of the file number `file`.
    pub fn write(&mut self, file: usize, bytes: &[u8])
        requires
            file < old(self)@.files.len(),
        ensures
            final(self)@ == written(old(self)@, file as int, bytes@),
    {
        let ghost files = self.files@;
        let target = &mut self.files[file];
        target.data.extend_from_slice(bytes);
        proof {
            assert(self.files@[file as int].data@ =~= files[file as int].data@ + bytes@);
            assert(file_models(self.files@) =~= file_models(files).update(
                file as int,
                FileModel {
                    path: file_models(files)[file as int].path,
                    data: file_models(files)[file as int].data + bytes@,
                },
            ));
        }
    }
}

} // verus!
