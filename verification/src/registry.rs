//! The registry of watched files: which paths are tailed, how far each has
//! been read, and which file stood behind the path when it was last read.

use vstd::prelude::*;
use vstd::string::*;

verus! {

/// How far a file has been read, and the inode it had then.
#[derive(Clone, Copy, Debug, PartialEq, Eq, Structural)]
pub struct LogFileMeta {
    pub file_position: u64,
    pub inode: u64,
}

/// What the file system says of a file now.
#[derive(Clone, Copy, Debug, PartialEq, Eq, Structural)]
pub struct FileStat {
    pub inode: u64,
    pub len: u64,
}

/// A watched file.
#[derive(Debug)]
pub struct WatchedFile {
    /// The bytes of the path: they tell one file from another.
    pub path: Vec<u8>,
    /// The path written out, for messages.
    pub name: String,
    pub meta: LogFileMeta,
}

/// A path that the pattern matches now.
#[derive(Debug)]
pub struct MatchedFile {
    /// The bytes of the path.
    pub path: Vec<u8>,
    /// The path written out, for messages.
    pub name: String,
    /// The inode found behind the path, or `None` where the file system
    /// could not say. It is looked at only if the path is not watched yet.
    pub inode: Option<u64>,
}

/// A watched file as specifications see it.
pub struct FileView {
    pub path: Seq<u8>,
    pub name: Seq<char>,
    pub meta: LogFileMeta,
}

impl View for WatchedFile {
    type V = FileView;

    open spec fn view(&self) -> FileView {
        FileView { path: self.path@, name: self.name@, meta: self.meta }
    }
}

/// The views of the files held in a vector.
pub open spec fn files_view(files: Seq<WatchedFile>) -> Seq<FileView> {
    Seq::new(files.len(), |i: int| files[i]@)
}

/// Whether one of `files` has the path `path`.
pub open spec fn has_path(files: Seq<FileView>, path: Seq<u8>) -> bool {
    exists|i: int| 0 <= i < files.len() && (#[trigger] files[i]).path == path
}

/// Whether the pattern matches `path` now.
pub open spec fn is_matched(matched: Seq<MatchedFile>, path: Seq<u8>) -> bool {
    exists|i: int| 0 <= i < matched.len() && (#[trigger] matched[i]).path@ == path
}

/// Whether the pattern matches `path` now and its inode was found.
pub open spec fn is_found(matched: Seq<MatchedFile>, path: Seq<u8>) -> bool {
    exists|i: int|
        0 <= i < matched.len() && (#[trigger] matched[i]).path@ == path && matched[i].inode is Some
}

/// No path is watched twice.
pub open spec fn distinct_paths(files: Seq<FileView>) -> bool {
    forall|i: int, j: int|
        0 <= i < j < files.len() ==> (#[trigger] files[i]).path != (#[trigger] files[j]).path
}

/// The files that stay watched: those whose path still matches, in their
/// order and as they were.
pub open spec fn retain_matched_spec(files: Seq<FileView>, matched: Seq<MatchedFile>) -> Seq<
    FileView,
>
    decreases files.len(),
{
    if files.len() == 0 {
        Seq::empty()
    } else {
        let kept = retain_matched_spec(files.drop_last(), matched);
        if is_matched(matched, files.last().path) {
            kept.push(files.last())
        } else {
            kept
        }
    }
}

/// A file as it is when first watched: nothing read, the inode as found.
pub open spec fn fresh_file(found: MatchedFile, inode: u64) -> FileView {
    FileView {
        path: found.path@,
        name: found.name@,
        meta: LogFileMeta { file_position: 0, inode },
    }
}

/// The registry after the matched paths that were not watched have been
/// added, each once, in the order in which they were matched. A path whose
/// inode could not be found is left out: it is not watched until a later
/// refresh finds it.
pub open spec fn add_new_spec(files: Seq<FileView>, matched: Seq<MatchedFile>) -> Seq<FileView>
    decreases matched.len(),
{
    if matched.len() == 0 {
        files
    } else {
        let before = add_new_spec(files, matched.drop_last());
        if has_path(before, matched.last().path@) {
            before
        } else {
            match matched.last().inode {
                Some(inode) => before.push(fresh_file(matched.last(), inode)),
                None => before,
            }
        }
    }
}

/// The registry after a refresh.
pub open spec fn refresh_spec(files: Seq<FileView>, matched: Seq<MatchedFile>) -> Seq<FileView> {
    add_new_spec(retain_matched_spec(files, matched), matched)
}

/// The state of a file after its rotation was checked: read from the start
/// if another file stands behind the path or the file is shorter than what
/// was read, untouched otherwise.
pub open spec fn rotate_spec(meta: LogFileMeta, stat: FileStat) -> LogFileMeta {
    if meta.inode != stat.inode || meta.file_position > stat.len {
        LogFileMeta { file_position: 0, inode: stat.inode }
    } else {
        meta
    }
}

/// What stays watched was watched before, and keeps its place among the
/// others.
pub proof fn lemma_retain_matched(files: Seq<FileView>, matched: Seq<MatchedFile>)
    ensures
        retain_matched_spec(files, matched).len() <= files.len(),
        forall|path: Seq<u8>|
            has_path(retain_matched_spec(files, matched), path) <==> (has_path(files, path)
                && is_matched(matched, path)),
        distinct_paths(files) ==> distinct_paths(retain_matched_spec(files, matched)),
        forall|i: int|
            0 <= i < retain_matched_spec(files, matched).len() ==> exists|j: int|
                0 <= j < files.len() && files[j] == #[trigger] retain_matched_spec(
                    files,
                    matched,
                )[i],
    decreases files.len(),
{
    let kept_all = retain_matched_spec(files, matched);
    if files.len() > 0 {
        let init = files.drop_last();
        let kept = retain_matched_spec(init, matched);
        lemma_retain_matched(init, matched);
        assert forall|path: Seq<u8>| has_path(kept_all, path) <==> (has_path(files, path)
            && is_matched(matched, path)) by {
            if has_path(kept_all, path) {
                let i = choose|i: int| 0 <= i < kept_all.len() && kept_all[i].path == path;
                if i < kept.len() {
                    assert(kept[i].path == path);
                    assert(has_path(kept, path));
                    let j = choose|j: int| 0 <= j < init.len() && init[j].path == path;
                    assert(files[j].path == path);
                } else {
                    assert(files[files.len() - 1].path == path);
                }
            }
            if has_path(files, path) && is_matched(matched, path) {
                let j = choose|j: int| 0 <= j < files.len() && files[j].path == path;
                if j < init.len() {
                    assert(init[j].path == path);
                    assert(has_path(init, path));
                    let i = choose|i: int| 0 <= i < kept.len() && kept[i].path == path;
                    assert(kept_all[i].path == path);
                } else {
                    assert(kept_all[kept_all.len() - 1].path == path);
                }
            }
        }
        if distinct_paths(files) {
            assert(distinct_paths(init)) by {
                assert forall|i: int, j: int| 0 <= i < j < init.len() implies (
                #[trigger] init[i]).path != (#[trigger] init[j]).path by {
                    assert(files[i].path != files[j].path);
                }
            }
            assert forall|i: int, j: int| 0 <= i < j < kept_all.len() implies (
            #[trigger] kept_all[i]).path != (#[trigger] kept_all[j]).path by {
                if j == kept.len() {
                    assert(kept[i].path == kept_all[i].path);
                    assert(has_path(kept, kept_all[i].path));
                    let k = choose|k: int| 0 <= k < init.len() && init[k].path == kept_all[i].path;
                    assert(files[k].path != files[files.len() - 1].path);
                } else {
                    assert(kept[i].path != kept[j].path);
                }
            }
        }
        assert forall|i: int| 0 <= i < kept_all.len() implies exists|j: int|
            0 <= j < files.len() && files[j] == #[trigger] kept_all[i] by {
            if i < kept.len() {
                assert(kept_all[i] == kept[i]);
                let j = choose|j: int| 0 <= j < init.len() && init[j] == kept[i];
                assert(files[j] == kept_all[i]);
            } else {
                assert(files[files.len() - 1] == kept_all[i]);
            }
        }
    } else {
        assert forall|path: Seq<u8>| has_path(kept_all, path) <==> (has_path(files, path)
            && is_matched(matched, path)) by {}
    }
}

/// Adding the new paths keeps what was there, in place, and watches exactly
/// the paths that were watched or are matched with an inode; no path comes
/// to be watched twice.
pub proof fn lemma_add_new(files: Seq<FileView>, matched: Seq<MatchedFile>)
    ensures
        files.len() <= add_new_spec(files, matched).len(),
        add_new_spec(files, matched).take(files.len() as int) == files,
        forall|path: Seq<u8>|
            has_path(add_new_spec(files, matched), path) <==> (has_path(files, path) || is_found(
                matched,
                path,
            )),
        distinct_paths(files) ==> distinct_paths(add_new_spec(files, matched)),
        forall|i: int|
            files.len() <= i < add_new_spec(files, matched).len() ==> (#[trigger] add_new_spec(
                files,
                matched,
            )[i]).meta.file_position == 0,
    decreases matched.len(),
{
    let all = add_new_spec(files, matched);
    if matched.len() == 0 {
        assert(all.take(files.len() as int) =~= files);
        assert forall|path: Seq<u8>| has_path(all, path) <==> (has_path(files, path) || is_found(
            matched,
            path,
        )) by {}
    } else {
        let init = matched.drop_last();
        let before = add_new_spec(files, init);
        let last = matched.last();
        lemma_add_new(files, init);
        assert(all.take(files.len() as int) =~= before.take(files.len() as int));
        assert forall|path: Seq<u8>| has_path(all, path) <==> (has_path(files, path) || is_found(
            matched,
            path,
        )) by {
            if has_path(all, path) {
                let i = choose|i: int| 0 <= i < all.len() && all[i].path == path;
                if i < before.len() {
                    assert(before[i].path == path);
                    assert(has_path(before, path));
                    if is_found(init, path) {
                        let k = choose|k: int|
                            0 <= k < init.len() && (#[trigger] init[k]).path@ == path
                                && init[k].inode is Some;
                        assert(matched[k].path@ == path && matched[k].inode is Some);
                    }
                } else {
                    let k = matched.len() - 1;
                    assert(matched[k].path@ == path && matched[k].inode is Some);
                }
            }
            if has_path(files, path) || is_found(matched, path) {
                if has_path(files, path) || is_found(init, path) {
                    assert(has_path(before, path));
                    let i = choose|i: int| 0 <= i < before.len() && before[i].path == path;
                    assert(all[i].path == path);
                } else {
                    let k = choose|k: int|
                        0 <= k < matched.len() && (#[trigger] matched[k]).path@ == path
                            && matched[k].inode is Some;
                    if k < init.len() {
                        assert(init[k].path@ == path && init[k].inode is Some);
                    }
                    assert(path == last.path@);
                    if has_path(before, path) {
                    } else {
                        assert(all[all.len() - 1].path == path);
                    }
                }
            }
        }
        if distinct_paths(files) {
            assert forall|i: int, j: int| 0 <= i < j < all.len() implies (#[trigger] all[i]).path
                != (#[trigger] all[j]).path by {
                if j == before.len() {
                    assert(before[i].path == all[i].path);
                } else {
                    assert(before[i].path != before[j].path);
                }
            }
        }
    }
}

/// After a refresh the watched paths are those that were watched and are
/// still matched, and those that are matched with an inode; each is watched
/// once.
pub proof fn lemma_refresh(files: Seq<FileView>, matched: Seq<MatchedFile>)
    ensures
        forall|path: Seq<u8>|
            has_path(refresh_spec(files, matched), path) <==> ((has_path(files, path)
                && is_matched(matched, path)) || is_found(matched, path)),
        distinct_paths(files) ==> distinct_paths(refresh_spec(files, matched)),
{
    lemma_retain_matched(files, matched);
    lemma_add_new(retain_matched_spec(files, matched), matched);
}

/// Where every watched path is matched, nothing is forgotten.
pub proof fn lemma_retain_all(files: Seq<FileView>, matched: Seq<MatchedFile>)
    requires
        forall|i: int| 0 <= i < files.len() ==> is_matched(matched, (#[trigger] files[i]).path),
    ensures
        retain_matched_spec(files, matched) == files,
    decreases files.len(),
{
    if files.len() > 0 {
        let init = files.drop_last();
        assert forall|i: int| 0 <= i < init.len() implies is_matched(
            matched,
            (#[trigger] init[i]).path,
        ) by {
            assert(init[i] == files[i]);
        }
        lemma_retain_all(init, matched);
        assert(is_matched(matched, files[files.len() - 1].path));
        assert(init.push(files.last()) =~= files);
    } else {
        assert(retain_matched_spec(files, matched) =~= files);
    }
}

/// Where every matched path with an inode is watched, nothing is added.
pub proof fn lemma_add_none(files: Seq<FileView>, matched: Seq<MatchedFile>)
    requires
        forall|k: int|
            0 <= k < matched.len() && (#[trigger] matched[k]).inode is Some ==> has_path(
                files,
                matched[k].path@,
            ),
    ensures
        add_new_spec(files, matched) == files,
    decreases matched.len(),
{
    if matched.len() > 0 {
        let init = matched.drop_last();
        assert forall|k: int|
            0 <= k < init.len() && (#[trigger] init[k]).inode is Some implies has_path(
            files,
            init[k].path@,
        ) by {
            assert(init[k] == matched[k]);
        }
        lemma_add_none(files, init);
        let k = matched.len() - 1;
        assert(matched[k] == matched.last());
    }
}

/// A refresh with the matches of the refresh before changes nothing.
pub proof fn lemma_refresh_twice(files: Seq<FileView>, matched: Seq<MatchedFile>)
    ensures
        refresh_spec(refresh_spec(files, matched), matched) == refresh_spec(files, matched),
{
    let once = refresh_spec(files, matched);
    lemma_refresh(files, matched);
    assert forall|i: int| 0 <= i < once.len() implies is_matched(
        matched,
        (#[trigger] once[i]).path,
    ) by {
        let path = once[i].path;
        assert(has_path(once, path));
        if is_found(matched, path) {
            let k = choose|k: int|
                0 <= k < matched.len() && (#[trigger] matched[k]).path@ == path
                    && matched[k].inode is Some;
            assert(matched[k].path@ == path);
        }
    }
    lemma_retain_all(once, matched);
    assert forall|k: int|
        0 <= k < matched.len() && (#[trigger] matched[k]).inode is Some implies has_path(
        once,
        matched[k].path@,
    ) by {
        assert(is_found(matched, matched[k].path@));
    }
    lemma_add_none(once, matched);
}

/// A change to what is known of one file leaves the others and the paths as
/// they are.
pub proof fn lemma_meta_changed(
    before: Seq<WatchedFile>,
    after: Seq<WatchedFile>,
    index: int,
    meta: LogFileMeta,
)
    requires
        0 <= index < before.len(),
        after.len() == before.len(),
        after[index].path == before[index].path,
        after[index].name == before[index].name,
        after[index].meta == meta,
        forall|k: int| 0 <= k < before.len() && k != index ==> after[k] == before[k],
    ensures
        files_view(after) == files_view(before).update(
            index,
            FileView {
                path: files_view(before)[index].path,
                name: files_view(before)[index].name,
                meta,
            },
        ),
        distinct_paths(files_view(before)) ==> distinct_paths(files_view(after)),
{
    assert(files_view(after) =~= files_view(before).update(
        index,
        FileView {
            path: files_view(before)[index].path,
            name: files_view(before)[index].name,
            meta,
        },
    ));
    if distinct_paths(files_view(before)) {
        assert forall|i: int, j: int| 0 <= i < j < after.len() implies (#[trigger] files_view(
            after,
        )[i]).path != (#[trigger] files_view(after)[j]).path by {
            assert(files_view(before)[i].path != files_view(before)[j].path);
        }
    }
}

/// Checks whether the file behind a watched path was replaced or cut short,
/// and if so starts it over.
///
/// `stat` is what the file system said of the path: the file's inode and
/// length, or why they could not be had. In the second case the state is
/// left as it is and the error says so.
pub fn handle_file_rotation(stat: &Result<FileStat, String>, meta: &mut LogFileMeta) -> (result:
    Result<(), String>)
    ensures
        match stat {
            Ok(now) => result is Ok && *final(meta) == rotate_spec(*old(meta), *now),
            Err(reason) => *final(meta) == *old(meta) && (result matches Err(message) && message@
                == "Failed to get file metadata: "@ + reason@),
        },
{
    match stat {
        Err(reason) => {
            let mut message = String::from_str("Failed to get file metadata: ");
            message.append(reason.as_str());
            Err(message)
        },
        Ok(now) => {
            if meta.inode != now.inode || meta.file_position > now.len {
                meta.file_position = 0;
                meta.inode = now.inode;
            }
            Ok(())
        },
    }
}

/// Whether two vectors hold the same bytes.
pub fn same_bytes(a: &Vec<u8>, b: &Vec<u8>) -> (same: bool)
    ensures
        same == (a@ == b@),
{
    if a.len() != b.len() {
        return false;
    }
    let mut i: usize = 0;
    while i < a.len()
        invariant
            i <= a@.len(),
            a@.len() == b@.len(),
            forall|k: int| 0 <= k < i ==> a@[k] == b@[k],
        decreases a@.len() - i,
    {
        if a[i] != b[i] {
            return false;
        }
        i = i + 1;
    }
    assert(a@ =~= b@);
    true
}

/// A copy of a vector of bytes.
pub fn copy_bytes(bytes: &Vec<u8>) -> (copy: Vec<u8>)
    ensures
        copy@ == bytes@,
{
    let mut copy: Vec<u8> = Vec::new();
    let mut i: usize = 0;
    while i < bytes.len()
        invariant
            i <= bytes@.len(),
            copy@ == bytes@.take(i as int),
        decreases bytes@.len() - i,
    {
        copy.push(bytes[i]);
        assert(copy@ =~= bytes@.take(i + 1));
        i = i + 1;
    }
    assert(bytes@.take(bytes@.len() as int) =~= bytes@);
    copy
}

/// Finds the watched file with the path `path`.
pub fn find_path(files: &Vec<WatchedFile>, path: &Vec<u8>) -> (found: Option<usize>)
    ensures
        found is Some <==> has_path(files_view(files@), path@),
        found matches Some(i) ==> i < files@.len() && files@[i as int].path@ == path@,
{
    let mut i: usize = 0;
    while i < files.len()
        invariant
            i <= files@.len(),
            forall|k: int| 0 <= k < i ==> files@[k].path@ != path@,
        decreases files@.len() - i,
    {
        if same_bytes(&files[i].path, path) {
            assert(files_view(files@)[i as int].path == path@);
            return Some(i);
        }
        i = i + 1;
    }
    assert forall|k: int| 0 <= k < files_view(files@).len() implies (#[trigger] files_view(
        files@,
    )[k]).path != path@ by {
        assert(files@[k].path@ != path@);
    }
    None
}

/// Says whether the pattern matches `path` now.
pub fn find_matched(matched: &Vec<MatchedFile>, path: &Vec<u8>) -> (found: bool)
    ensures
        found == is_matched(matched@, path@),
{
    let mut i: usize = 0;
    while i < matched.len()
        invariant
            i <= matched@.len(),
            forall|k: int| 0 <= k < i ==> matched@[k].path@ != path@,
        decreases matched@.len() - i,
    {
        if same_bytes(&matched[i].path, path) {
            return true;
        }
        i = i + 1;
    }
    false
}

/// Drops the files whose path the pattern no longer matches.
pub fn retain_matched(files: &Vec<WatchedFile>, matched: &Vec<MatchedFile>) -> (kept: Vec<
    WatchedFile,
>)
    ensures
        files_view(kept@) == retain_matched_spec(files_view(files@), matched@),
{
    let mut kept: Vec<WatchedFile> = Vec::new();
    let mut i: usize = 0;
    assert(files_view(files@).take(0) =~= Seq::<FileView>::empty());
    assert(files_view(kept@) =~= Seq::<FileView>::empty());
    while i < files.len()
        invariant
            i <= files@.len(),
            files_view(kept@) == retain_matched_spec(files_view(files@).take(i as int), matched@),
        decreases files@.len() - i,
    {
        let ghost prefix = files_view(files@).take(i + 1);
        assert(prefix.drop_last() =~= files_view(files@).take(i as int));
        assert(prefix.last() == files@[i as int]@);
        if find_matched(matched, &files[i].path) {
            let file = WatchedFile {
                path: copy_bytes(&files[i].path),
                name: files[i].name.clone(),
                meta: files[i].meta,
            };
            assert(file@ == files@[i as int]@);
            assert(files_view(kept@.push(file)) =~= files_view(kept@).push(file@));
            kept.push(file);
        }
        i = i + 1;
    }
    assert(files_view(files@).take(files@.len() as int) =~= files_view(files@));
    kept
}

/// Starts to watch the matched paths that are not watched yet.
pub fn add_new(files: &mut Vec<WatchedFile>, matched: &Vec<MatchedFile>)
    ensures
        files_view(final(files)@) == add_new_spec(files_view(old(files)@), matched@),
{
    let mut i: usize = 0;
    assert(matched@.take(0) =~= Seq::<MatchedFile>::empty());
    while i < matched.len()
        invariant
            i <= matched@.len(),
            files_view(files@) == add_new_spec(files_view(old(files)@), matched@.take(i as int)),
        decreases matched@.len() - i,
    {
        let ghost prefix = matched@.take(i + 1);
        assert(prefix.drop_last() =~= matched@.take(i as int));
        assert(prefix.last() == matched@[i as int]);
        if find_path(files, &matched[i].path).is_none() {
            if let Some(inode) = matched[i].inode {
                let file = WatchedFile {
                    path: copy_bytes(&matched[i].path),
                    name: matched[i].name.clone(),
                    meta: LogFileMeta { file_position: 0, inode },
                };
                assert(file@ == fresh_file(matched@[i as int], inode));
                assert(files_view(files@.push(file)) =~= files_view(files@).push(file@));
                files.push(file);
            }
        }
        i = i + 1;
    }
    assert(matched@.take(matched@.len() as int) =~= matched@);
}

} // verus!
