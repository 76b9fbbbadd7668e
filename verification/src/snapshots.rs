//! Finding recorded snapshots by transaction ID.
//!
//! A snapshot is asked for by the path of its file, or by the ID of the transaction that was
//! recorded, of which a prefix will do where it tells snapshots apart. The snapshot of a
//! transaction is the file `<ID>.mdsnap` in one of the snapshot directories.
use vstd::prelude::*;
use vstd::string::*;

verus! {

/// The environment variable that names a directory to be searched first.
pub const SNAPSHOT_DIR_ENV: &'static str = "MIDEN_DEBUG_SNAPSHOTS";

// ---------------------------------------------------------------------------------------------
// File names
// ---------------------------------------------------------------------------------------------

/// The position of the last dot in a name.
pub open spec fn last_dot(name: Seq<char>) -> Option<int>
    decreases name.len(),
{
    if name.len() == 0 {
        None
    } else if name.last() == '.' {
        Some(name.len() - 1)
    } else {
        last_dot(name.drop_last())
    }
}

/// A file name without its extension.
pub open spec fn stem_of(name: Seq<char>) -> Seq<char> {
    match last_dot(name) {
        Some(at) => if at > 0 && name != ".."@ {
            name.take(at)
        } else {
            name
        },
        None => name,
    }
}

/// The extension of a file name: what stands behind the last dot, unless the name begins with it.
pub open spec fn extension_of(name: Seq<char>) -> Option<Seq<char>> {
    match last_dot(name) {
        Some(at) => if at > 0 && name != ".."@ {
            Some(name.skip(at + 1))
        } else {
            None
        },
        None => None,
    }
}

/// A name with an extension is made up of its stem, a dot, and its extension.
pub proof fn stem_and_extension_make_the_name(name: Seq<char>)
    ensures
        extension_of(name) matches Some(extension) ==> name == stem_of(name) + seq!['.']
            + extension,
        extension_of(name) is None ==> stem_of(name) == name,
{
    last_dot_is_a_dot(name);
    match last_dot(name) {
        Some(at) => {
            if at > 0 && name != ".."@ {
                assert(name =~= name.take(at) + seq!['.'] + name.skip(at + 1));
            }
        },
        None => {},
    }
}

proof fn last_dot_is_a_dot(name: Seq<char>)
    ensures
        last_dot(name) matches Some(at) ==> 0 <= at < name.len() && name[at] == '.',
    decreases name.len(),
{
    if name.len() > 0 && name.last() != '.' {
        last_dot_is_a_dot(name.drop_last());
    }
}

/// Splits a file name into its stem and its extension.
pub fn split_name(name: &str) -> (r: (String, Option<String>))
    ensures
        r.0@ == stem_of(name@),
        crate::debug::op::text_view(r.1) == extension_of(name@),
{
    let chars = crate::text::chars_of(name);
    let total: usize = chars.len();
    let mut i: usize = total;
    proof {
        assert(name@.take(i as int) =~= name@);
    }
    while i > 0 && chars[i - 1] != '.'
        invariant
            chars@ == name@,
            total == name@.len(),
            i <= total,
            last_dot(name@) == last_dot(name@.take(i as int)),
        decreases i,
    {
        proof {
            assert(name@.take(i as int).drop_last() =~= name@.take(i - 1));
        }
        i -= 1;
    }
    if i <= 1 || crate::text::same(name, "..") {
        return (name.to_owned(), None);
    }
    let stem = crate::text::string_of(&chars, 0, i - 1);
    let extension = crate::text::string_of(&chars, i, total);
    proof {
        assert(stem@ =~= name@.take(i - 1));
        assert(extension@ =~= name@.skip(i as int));
    }
    (stem, Some(extension))
}

// ---------------------------------------------------------------------------------------------
// Directories
// ---------------------------------------------------------------------------------------------

/// The directories that are searched, in order, each by the names that lead to it: the one that the
/// environment names, the one below the current directory, and the one below the home directory.
pub open spec fn search_dirs(
    named: Option<Seq<char>>,
    home: Option<Seq<char>>,
) -> Seq<Seq<Seq<char>>> {
    let first = match named {
        Some(dir) => seq![seq![dir]],
        None => Seq::empty(),
    };
    let last = match home {
        Some(dir) => seq![seq![dir, ".miden"@, "debug-snapshots"@]],
        None => Seq::empty(),
    };
    first + seq![seq![".miden"@, "debug-snapshots"@]] + last
}

/// The views of lists of names.
pub open spec fn names_views(dirs: Seq<Vec<String>>) -> Seq<Seq<Seq<char>>> {
    dirs.map_values(|names: Vec<String>| names@.map_values(|n: String| n@))
}

/// The directories that are searched, in order.
pub fn snapshot_search_dirs(named: Option<String>, home: Option<String>) -> (r: Vec<Vec<String>>)
    ensures
        names_views(r@) == search_dirs(
            crate::debug::op::text_view(named),
            crate::debug::op::text_view(home),
        ),
{
    let mut dirs: Vec<Vec<String>> = Vec::new();
    let ghost wanted = search_dirs(
        crate::debug::op::text_view(named),
        crate::debug::op::text_view(home),
    );
    if let Some(dir) = named {
        let names: Vec<String> = vec![dir];
        proof {
            assert(names@.map_values(|n: String| n@) =~= seq![dir@]);
        }
        dirs.push(names);
    }
    let local: Vec<String> = vec![".miden".to_owned(), "debug-snapshots".to_owned()];
    proof {
        assert(local@.map_values(|n: String| n@) =~= seq![".miden"@, "debug-snapshots"@]);
    }
    dirs.push(local);
    if let Some(dir) = home {
        let names: Vec<String> = vec![dir, ".miden".to_owned(), "debug-snapshots".to_owned()];
        proof {
            assert(names@.map_values(|n: String| n@) =~= seq![
                dir@,
                ".miden"@,
                "debug-snapshots"@,
            ]);
        }
        dirs.push(names);
    }
    proof {
        assert(names_views(dirs@) =~= wanted);
    }
    dirs
}

/// A file in a snapshot directory.
#[derive(Debug)]
pub struct SnapshotFile {
    pub name: String,
    pub path: String,
}

/// A snapshot directory.
#[derive(Debug)]
pub struct SnapshotDir {
    /// What the directory is printed as.
    pub path: String,
    /// The files in it, where it can be read.
    pub files: Option<Vec<SnapshotFile>>,
}

/// What a [`SnapshotFile`] says.
pub struct FileView {
    pub name: Seq<char>,
    pub path: Seq<char>,
}

/// What a [`SnapshotDir`] says.
pub struct DirView {
    pub path: Seq<char>,
    pub files: Seq<FileView>,
}

impl View for SnapshotFile {
    type V = FileView;

    open spec fn view(&self) -> FileView {
        FileView { name: self.name@, path: self.path@ }
    }
}

pub open spec fn file_views(files: Seq<SnapshotFile>) -> Seq<FileView> {
    files.map_values(|f: SnapshotFile| f@)
}

impl View for SnapshotDir {
    type V = DirView;

    /// A directory that cannot be read counts as empty.
    open spec fn view(&self) -> DirView {
        DirView {
            path: self.path@,
            files: match self.files {
                Some(files) => file_views(files@),
                None => Seq::empty(),
            },
        }
    }
}

pub open spec fn dir_views(dirs: Seq<SnapshotDir>) -> Seq<DirView> {
    dirs.map_values(|d: SnapshotDir| d@)
}

// ---------------------------------------------------------------------------------------------
// Transaction IDs
// ---------------------------------------------------------------------------------------------

/// Whether all of these characters are hexadecimal digits.
pub open spec fn all_hex(s: Seq<char>) -> bool {
    forall|i: int| 0 <= i < s.len() ==> crate::text::is_hex_digit(#[trigger] s[i])
}

/// Whether a text may be a transaction ID, or a prefix of one: `0x`, followed by hexadecimal
/// digits.
pub open spec fn is_transaction_id(s: Seq<char>) -> bool {
    s.len() > 2 && s[0] == '0' && s[1] == 'x' && all_hex(s.skip(2))
}

/// Whether a text may be a transaction ID, or a prefix of one: `0x`, followed by hexadecimal
/// digits.
pub fn looks_like_transaction_id(value: &str) -> (r: bool)
    ensures
        r == is_transaction_id(value@),
{
    let chars = crate::text::chars_of(value);
    if chars.len() <= 2 || chars[0] != '0' || chars[1] != 'x' {
        return false;
    }
    let ghost digits = value@.skip(2);
    let mut i: usize = 2;
    while i < chars.len()
        invariant
            chars@ == value@,
            digits == value@.skip(2),
            2 <= i <= chars@.len(),
            forall|k: int| 0 <= k < i - 2 ==> crate::text::is_hex_digit(#[trigger] digits[k]),
        decreases chars@.len() - i,
    {
        let c = chars[i];
        let hex = ('0' <= c && c <= '9') || ('a' <= c && c <= 'f') || ('A' <= c && c <= 'F');
        if !hex {
            assert(!crate::text::is_hex_digit(digits[i - 2]));
            return false;
        }
        i += 1;
    }
    true
}

// ---------------------------------------------------------------------------------------------
// Searching
// ---------------------------------------------------------------------------------------------

/// Whether a file is a snapshot of a transaction whose ID begins with `id`. Case makes no
/// difference.
pub open spec fn is_snapshot_of(file: FileView, id: Seq<char>) -> bool {
    &&& extension_of(file.name) matches Some(extension) && crate::text::lower(extension)
        == "mdsnap"@
    &&& crate::text::has_prefix(crate::text::lower(stem_of(file.name)), crate::text::lower(id))
}

/// Those of the files that are snapshots of such a transaction.
pub open spec fn snapshots_in(files: Seq<FileView>, id: Seq<char>) -> Seq<FileView>
    decreases files.len(),
{
    if files.len() == 0 {
        Seq::empty()
    } else {
        let others = snapshots_in(files.drop_last(), id);
        if is_snapshot_of(files.last(), id) {
            others.push(files.last())
        } else {
            others
        }
    }
}

/// The snapshots in the first directory that has any: the directories behind it may hold older
/// copies.
pub open spec fn first_snapshots(dirs: Seq<DirView>, id: Seq<char>) -> Seq<FileView>
    decreases dirs.len(),
{
    if dirs.len() == 0 {
        Seq::empty()
    } else {
        let here = snapshots_in(dirs[0].files, id);
        if here.len() > 0 {
            here
        } else {
            first_snapshots(dirs.skip(1), id)
        }
    }
}

/// A file put in its place among files that are in the order of their names.
pub open spec fn name_inserted(files: Seq<FileView>, file: FileView) -> Seq<FileView>
    decreases files.len(),
{
    if files.len() == 0 {
        seq![file]
    } else if crate::text::text_le(file.name, files[0].name) {
        seq![file] + files
    } else {
        seq![files[0]] + name_inserted(files.skip(1), file)
    }
}

/// The files in the order of their names.
pub open spec fn by_name(files: Seq<FileView>) -> Seq<FileView>
    decreases files.len(),
{
    if files.len() == 0 {
        Seq::empty()
    } else {
        name_inserted(by_name(files.drop_last()), files.last())
    }
}

/// Texts, separated by commas.
pub open spec fn listed(texts: Seq<Seq<char>>) -> Seq<char>
    decreases texts.len(),
{
    if texts.len() == 0 {
        Seq::empty()
    } else if texts.len() == 1 {
        texts[0]
    } else {
        listed(texts.drop_last()) + ", "@ + texts.last()
    }
}

pub open spec fn file_paths(files: Seq<FileView>) -> Seq<Seq<char>> {
    files.map_values(|f: FileView| f.path)
}

pub open spec fn dir_paths(dirs: Seq<DirView>) -> Seq<Seq<char>> {
    dirs.map_values(|d: DirView| d.path)
}

/// The path of the snapshot that `reference` stands for, or why there is none: a file is taken as
/// it is; else a transaction ID, or a prefix of one, must stand for one snapshot.
pub open spec fn snapshot_path(
    reference: Seq<char>,
    is_file: bool,
    dirs: Seq<DirView>,
) -> Result<Seq<char>, Seq<char>> {
    if is_file {
        Ok(reference)
    } else if !is_transaction_id(reference) {
        Err("snapshot file not found: "@ + reference)
    } else {
        let found = first_snapshots(dirs, reference);
        if found.len() == 1 {
            Ok(found[0].path)
        } else if found.len() == 0 {
            Err(
                "no recorded snapshot found for transaction '"@ + reference + "' (searched: "@
                    + listed(dir_paths(dirs))
                    + "). Record one with `miden-client ... --record`."@,
            )
        } else {
            Err(
                "transaction ID prefix '"@ + reference + "' is ambiguous; it matches: "@ + listed(
                    file_paths(by_name(found)),
                ),
            )
        }
    }
}

fn is_snapshot(name: &str, id: &str) -> (r: bool)
    ensures
        forall|path: Seq<char>| r == #[trigger] is_snapshot_of(FileView { name: name@, path }, id@),
{
    let (stem, extension) = split_name(name);
    match extension {
        Some(extension) => {
            let right = crate::text::same(crate::text::to_lower(extension.as_str()).as_str(), "mdsnap");
            right && crate::text::starts_with(
                crate::text::to_lower(stem.as_str()).as_str(),
                crate::text::to_lower(id).as_str(),
            )
        },
        None => false,
    }
}

/// The places of the snapshots of a transaction among some files.
fn find_snapshots(files: &Vec<SnapshotFile>, id: &str) -> (r: Vec<usize>)
    ensures
        picked(files@, r@) == snapshots_in(file_views(files@), id@),
        forall|i: int| 0 <= i < r@.len() ==> (#[trigger] r@[i]) < files@.len(),
{
    let mut found: Vec<usize> = Vec::new();
    let mut i: usize = 0;
    proof {
        assert(picked(files@, found@) =~= snapshots_in(file_views(files@.take(0)), id@));
    }
    while i < files.len()
        invariant
            i <= files@.len(),
            picked(files@, found@) == snapshots_in(file_views(files@.take(i as int)), id@),
            forall|k: int| 0 <= k < found@.len() ==> (#[trigger] found@[k]) < files@.len(),
        decreases files@.len() - i,
    {
        proof {
            let more = file_views(files@.take(i + 1));
            assert(more.drop_last() =~= file_views(files@.take(i as int)));
            assert(more.last() == files@[i as int]@);
        }
        let ghost before = found@;
        if is_snapshot(files[i].name.as_str(), id) {
            found.push(i);
            proof {
                assert(picked(files@, found@) =~= picked(files@, before).push(files@[i as int]@));
                assert(is_snapshot_of(
                    FileView { name: files@[i as int].name@, path: files@[i as int].path@ },
                    id@,
                ));
            }
        } else {
            proof {
                assert(!is_snapshot_of(
                    FileView { name: files@[i as int].name@, path: files@[i as int].path@ },
                    id@,
                ));
            }
        }
        i += 1;
    }
    proof {
        assert(files@.take(i as int) =~= files@);
    }
    found
}

/// The files at some places.
spec fn picked(files: Seq<SnapshotFile>, places: Seq<usize>) -> Seq<FileView> {
    places.map_values(|i: usize| files[i as int]@)
}

proof fn name_inserted_past(files: Seq<FileView>, n: nat, file: FileView)
    requires
        n <= files.len(),
        forall|i: int| 0 <= i < n ==> !crate::text::text_le(file.name, (#[trigger] files[i]).name),
    ensures
        name_inserted(files, file) == files.take(n as int) + name_inserted(
            files.skip(n as int),
            file,
        ),
    decreases n,
{
    if n == 0 {
        assert(files.skip(0) =~= files);
        assert(files.take(0) + name_inserted(files, file) =~= name_inserted(files, file));
    } else {
        let others = files.skip(1);
        assert forall|i: int| 0 <= i < n - 1 implies !crate::text::text_le(
            file.name,
            (#[trigger] others[i]).name,
        ) by {
            assert(others[i] == files[i + 1]);
        }
        name_inserted_past(others, (n - 1) as nat, file);
        assert(others.skip(n - 1) =~= files.skip(n as int));
        assert(seq![files[0]] + (others.take(n - 1) + name_inserted(files.skip(n as int), file))
            =~= files.take(n as int) + name_inserted(files.skip(n as int), file));
    }
}

fn sort_by_name(files: &Vec<SnapshotFile>, places: &Vec<usize>) -> (r: Vec<usize>)
    requires
        forall|i: int| 0 <= i < places@.len() ==> (#[trigger] places@[i]) < files@.len(),
    ensures
        picked(files@, r@) == by_name(picked(files@, places@)),
        forall|i: int| 0 <= i < r@.len() ==> (#[trigger] r@[i]) < files@.len(),
{
    let mut sorted: Vec<usize> = Vec::new();
    let mut i: usize = 0;
    proof {
        assert(picked(files@, sorted@) =~= by_name(picked(files@, places@.take(0))));
    }
    while i < places.len()
        invariant
            i <= places@.len(),
            forall|k: int| 0 <= k < places@.len() ==> (#[trigger] places@[k]) < files@.len(),
            forall|k: int| 0 <= k < sorted@.len() ==> (#[trigger] sorted@[k]) < files@.len(),
            picked(files@, sorted@) == by_name(picked(files@, places@.take(i as int))),
        decreases places@.len() - i,
    {
        let place: usize = places[i];
        let ghost file = files@[place as int]@;
        let ghost before = picked(files@, sorted@);
        let ghost old_sorted = sorted@;
        let mut at: usize = 0;
        while at < sorted.len() && !crate::text::not_after(
            files[place].name.as_str(),
            files[sorted[at]].name.as_str(),
        )
            invariant
                place < files@.len(),
                file == files@[place as int]@,
                sorted@ == old_sorted,
                before == picked(files@, sorted@),
                at <= sorted@.len(),
                forall|k: int| 0 <= k < sorted@.len() ==> (#[trigger] sorted@[k]) < files@.len(),
                forall|k: int|
                    0 <= k < at ==> !crate::text::text_le(file.name, (#[trigger] before[k]).name),
            decreases sorted@.len() - at,
        {
            assert(before[at as int] == files@[sorted@[at as int] as int]@);
            at += 1;
        }
        proof {
            name_inserted_past(before, at as nat, file);
            if at < sorted@.len() {
                assert(before.skip(at as int)[0] == files@[sorted@[at as int] as int]@);
            }
        }
        sorted.insert(at, place);
        proof {
            assert(picked(files@, sorted@) =~= before.take(at as int) + name_inserted(
                before.skip(at as int),
                file,
            ));
            let more = picked(files@, places@.take(i + 1));
            assert(more.drop_last() =~= picked(files@, places@.take(i as int)));
            assert(more.last() == file);
        }
        i += 1;
    }
    proof {
        assert(places@.take(i as int) =~= places@);
    }
    sorted
}

fn list_paths(files: &Vec<SnapshotFile>, places: &Vec<usize>) -> (r: String)
    requires
        forall|i: int| 0 <= i < places@.len() ==> (#[trigger] places@[i]) < files@.len(),
    ensures
        r@ == listed(file_paths(picked(files@, places@))),
{
    let mut out = String::new();
    let ghost all = file_paths(picked(files@, places@));
    let mut i: usize = 0;
    proof {
        assert(out@ =~= listed(all.take(0)));
    }
    while i < places.len()
        invariant
            i <= places@.len(),
            forall|k: int| 0 <= k < places@.len() ==> (#[trigger] places@[k]) < files@.len(),
            all == file_paths(picked(files@, places@)),
            out@ == listed(all.take(i as int)),
        decreases places@.len() - i,
    {
        proof {
            assert(all.take(i + 1).drop_last() =~= all.take(i as int));
        }
        if i > 0 {
            out.append(", ");
        }
        out.append(files[places[i]].path.as_str());
        i += 1;
        proof {
            assert(out@ =~= listed(all.take(i as int)));
        }
    }
    proof {
        assert(all.take(i as int) =~= all);
    }
    out
}

fn list_dirs(dirs: &Vec<SnapshotDir>) -> (r: String)
    ensures
        r@ == listed(dir_paths(dir_views(dirs@))),
{
    let mut out = String::new();
    let ghost all = dir_paths(dir_views(dirs@));
    let mut i: usize = 0;
    proof {
        assert(out@ =~= listed(all.take(0)));
    }
    while i < dirs.len()
        invariant
            i <= dirs@.len(),
            all == dir_paths(dir_views(dirs@)),
            out@ == listed(all.take(i as int)),
        decreases dirs@.len() - i,
    {
        proof {
            assert(all.take(i + 1).drop_last() =~= all.take(i as int));
        }
        if i > 0 {
            out.append(", ");
        }
        out.append(dirs[i].path.as_str());
        i += 1;
        proof {
            assert(out@ =~= listed(all.take(i as int)));
        }
    }
    proof {
        assert(all.take(i as int) =~= all);
    }
    out
}

/// The path of the snapshot that `reference` stands for, given whether it is the path of a file,
/// and what the snapshot directories hold.
pub fn resolve_snapshot_ref_in(reference: &str, is_file: bool, dirs: &Vec<SnapshotDir>) -> (r: Result<
    String,
    String,
>)
    ensures
        match r {
            Ok(path) => snapshot_path(reference@, is_file, dir_views(dirs@)) == Ok::<
                Seq<char>,
                Seq<char>,
            >(path@),
            Err(m) => snapshot_path(reference@, is_file, dir_views(dirs@)) == Err::<
                Seq<char>,
                Seq<char>,
            >(m@),
        },
{
    if is_file {
        return Ok(reference.to_owned());
    }
    if !looks_like_transaction_id(reference) {
        return Err(crate::text::concat("snapshot file not found: ", reference));
    }
    let ghost views = dir_views(dirs@);
    let mut i: usize = 0;
    proof {
        assert(views.skip(0) =~= views);
    }
    while i < dirs.len()
        invariant
            i <= dirs@.len(),
            !is_file,
            is_transaction_id(reference@),
            views == dir_views(dirs@),
            first_snapshots(views, reference@) == first_snapshots(views.skip(i as int), reference@),
        decreases dirs@.len() - i,
    {
        proof {
            assert(views.skip(i as int)[0] == dirs@[i as int]@);
            assert(views.skip(i as int).skip(1) =~= views.skip(i + 1));
        }
        if let Some(files) = &dirs[i].files {
            let found = find_snapshots(files, reference);
            let ghost here = picked(files@, found@);
            if found.len() == 1 {
                proof {
                    assert(here[0] == files@[found@[0] as int]@);
                }
                return Ok(files[found[0]].path.clone());
            }
            if found.len() > 1 {
                let sorted = sort_by_name(files, &found);
                let mut m = "transaction ID prefix '".to_owned();
                m.append(reference);
                m.append("' is ambiguous; it matches: ");
                m.append(list_paths(files, &sorted).as_str());
                return Err(m);
            }
        } else {
            proof {
                assert(snapshots_in(Seq::empty(), reference@) =~= Seq::empty());
            }
        }
        i += 1;
    }
    let mut m = "no recorded snapshot found for transaction '".to_owned();
    m.append(reference);
    m.append("' (searched: ");
    m.append(list_dirs(dirs).as_str());
    m.append("). Record one with `miden-client ... --record`.");
    Err(m)
}

/// The path of the snapshot that `reference` stands for, where these are the snapshot directories,
/// given whether it is the path of a file.
pub fn resolve_snapshot_ref(reference: &str, is_file: bool, dirs: &Vec<SnapshotDir>) -> (r: Result<
    String,
    String,
>)
    ensures
        match r {
            Ok(path) => snapshot_path(reference@, is_file, dir_views(dirs@)) == Ok::<
                Seq<char>,
                Seq<char>,
            >(path@),
            Err(m) => snapshot_path(reference@, is_file, dir_views(dirs@)) == Err::<
                Seq<char>,
                Seq<char>,
            >(m@),
        },
{
    resolve_snapshot_ref_in(reference, is_file, dirs)
}

// ---------------------------------------------------------------------------------------------
// What holds of every search
// ---------------------------------------------------------------------------------------------

/// What is found are snapshots whose names begin with the ID, and files of the directories that
/// were searched.
pub proof fn found_snapshots_match(dirs: Seq<DirView>, id: Seq<char>, i: int)
    requires
        0 <= i < first_snapshots(dirs, id).len(),
    ensures
        is_snapshot_of(first_snapshots(dirs, id)[i], id),
        exists|d: int|
            0 <= d < dirs.len() && #[trigger] dirs[d].files.contains(first_snapshots(dirs, id)[i]),
    decreases dirs.len(),
{
    let found = first_snapshots(dirs, id)[i];
    let here = snapshots_in(dirs[0].files, id);
    if here.len() > 0 {
        snapshots_are_files(dirs[0].files, id, i);
        assert(dirs[0].files.contains(found));
    } else {
        found_snapshots_match(dirs.skip(1), id, i);
        let d = choose|d: int|
            0 <= d < dirs.skip(1).len() && #[trigger] dirs.skip(1)[d].files.contains(found);
        assert(dirs[d + 1].files.contains(found));
    }
}

proof fn snapshots_are_files(files: Seq<FileView>, id: Seq<char>, i: int)
    requires
        0 <= i < snapshots_in(files, id).len(),
    ensures
        is_snapshot_of(snapshots_in(files, id)[i], id),
        files.contains(snapshots_in(files, id)[i]),
    decreases files.len(),
{
    let others = snapshots_in(files.drop_last(), id);
    if i < others.len() {
        snapshots_are_files(files.drop_last(), id, i);
        let k = choose|k: int|
            0 <= k < files.drop_last().len() && files.drop_last()[k] == snapshots_in(files, id)[i];
        assert(files[k] == snapshots_in(files, id)[i]);
    } else {
        assert(files[files.len() - 1] == files.last());
    }
}

/// Whether an ID is written in upper or in lower case makes no difference to what is found.
pub proof fn case_makes_no_difference(dirs: Seq<DirView>, a: Seq<char>, b: Seq<char>)
    requires
        crate::text::lower(a) == crate::text::lower(b),
    ensures
        first_snapshots(dirs, a) == first_snapshots(dirs, b),
    decreases dirs.len(),
{
    if dirs.len() > 0 {
        same_snapshots(dirs[0].files, a, b);
        case_makes_no_difference(dirs.skip(1), a, b);
    }
}

proof fn same_snapshots(files: Seq<FileView>, a: Seq<char>, b: Seq<char>)
    requires
        crate::text::lower(a) == crate::text::lower(b),
    ensures
        snapshots_in(files, a) == snapshots_in(files, b),
    decreases files.len(),
{
    if files.len() > 0 {
        same_snapshots(files.drop_last(), a, b);
    }
}

/// An existing file is used as it is, whatever the directories hold.
pub proof fn a_file_is_used_as_it_is(reference: Seq<char>, dirs: Seq<DirView>)
    ensures
        snapshot_path(reference, true, dirs) == Ok::<Seq<char>, Seq<char>>(reference),
{
}

/// What the directories behind one that has a snapshot hold makes no difference.
pub proof fn the_first_directory_counts(dirs: Seq<DirView>, more: Seq<DirView>, id: Seq<char>)
    requires
        first_snapshots(dirs, id).len() > 0,
    ensures
        first_snapshots(dirs + more, id) == first_snapshots(dirs, id),
    decreases dirs.len(),
{
    assert((dirs + more)[0] == dirs[0]);
    if snapshots_in(dirs[0].files, id).len() == 0 {
        the_first_directory_counts(dirs.skip(1), more, id);
        assert((dirs + more).skip(1) =~= dirs.skip(1) + more);
    }
}

/// A prefix that matches one snapshot only finds what the whole ID of that snapshot finds.
pub proof fn a_unique_prefix_is_enough(
    dirs: Seq<DirView>,
    prefix: Seq<char>,
    id: Seq<char>,
    file: FileView,
)
    requires
        crate::text::has_prefix(crate::text::lower(id), crate::text::lower(prefix)),
        first_snapshots(dirs, prefix) == seq![file],
        is_snapshot_of(file, id),
    ensures
        first_snapshots(dirs, id) == seq![file],
    decreases dirs.len(),
{
    let here = snapshots_in(dirs[0].files, prefix);
    matches_of_matches(dirs[0].files, prefix, id);
    reveal_with_fuel(snapshots_in, 2);
    if here.len() > 0 {
        assert(here.drop_last() =~= Seq::empty());
        assert(snapshots_in(here, id) =~= seq![file]);
    } else {
        a_unique_prefix_is_enough(dirs.skip(1), prefix, id, file);
    }
}

proof fn matches_of_matches(files: Seq<FileView>, prefix: Seq<char>, id: Seq<char>)
    requires
        crate::text::has_prefix(crate::text::lower(id), crate::text::lower(prefix)),
    ensures
        snapshots_in(files, id) == snapshots_in(snapshots_in(files, prefix), id),
    decreases files.len(),
{
    if files.len() > 0 {
        let others = snapshots_in(files.drop_last(), prefix);
        let last = files.last();
        matches_of_matches(files.drop_last(), prefix, id);
        if is_snapshot_of(last, prefix) {
            assert(others.push(last).drop_last() =~= others);
        } else if is_snapshot_of(last, id) {
            let stem = crate::text::lower(stem_of(last.name));
            let whole = crate::text::lower(id);
            let part = crate::text::lower(prefix);
            assert(stem.take(part.len() as int) =~= whole.take(part.len() as int));
        }
    }
}

/// The extension of a name holds no dot, and the stem is not empty where there is one; a name without
/// a dot, or that begins with its only dot, has none.
pub proof fn an_extension_is_behind_the_last_dot(name: Seq<char>, stem: Seq<char>, extension: Seq<char>)
    ensures
        extension_of(name) matches Some(e) ==> !e.contains('.') && stem_of(name).len() > 0,
        stem.len() > 0 && !extension.contains('.') && !(stem == seq!['.'] && extension.len() == 0)
            ==> extension_of(stem + seq!['.'] + extension) == Some(extension) && stem_of(
            stem + seq!['.'] + extension,
        ) == stem,
        !name.contains('.') ==> extension_of(name) is None && stem_of(name) == name,
{
    reveal_strlit("..");
    last_dot_is_last(name);
    if extension_of(name) is Some {
        let at = last_dot(name)->Some_0;
        let e = name.skip(at + 1);
        assert(!e.contains('.')) by {
            if e.contains('.') {
                let i = choose|i: int| 0 <= i < e.len() && e[i] == '.';
                assert(name[at + 1 + i] == '.');
            }
        }
    }
    if stem.len() > 0 && !extension.contains('.') && !(stem == seq!['.'] && extension.len() == 0) {
        let whole = stem + seq!['.'] + extension;
        last_dot_is_last(whole);
        assert(whole[stem.len() as int] == '.');
        assert(whole.contains('.'));
        let at = last_dot(whole)->Some_0;
        if at > stem.len() {
            assert(extension[at - stem.len() - 1] == '.');
            assert(false);
        }
        assert(at == stem.len());
        if whole == ".."@ {
            assert(whole.len() == 2 && whole[0] == '.');
            assert(whole[0] == stem[0]);
            assert(extension.len() == 0);
            assert(stem =~= seq!['.']);
            assert(false);
        }
        assert(whole.take(at) =~= stem);
        assert(whole.skip(at + 1) =~= extension);
    }
}

proof fn last_dot_is_last(name: Seq<char>)
    ensures
        match last_dot(name) {
            Some(at) => {
                &&& 0 <= at < name.len()
                &&& name[at] == '.'
                &&& forall|i: int| at < i < name.len() ==> name[i] != '.'
            },
            None => !name.contains('.'),
        },
    decreases name.len(),
{
    if name.len() > 0 && name.last() != '.' {
        let front = name.drop_last();
        last_dot_is_last(front);
        match last_dot(name) {
            Some(at) => {
                assert forall|i: int| at < i < name.len() implies name[i] != '.' by {
                    if i < front.len() {
                        assert(front[i] == name[i]);
                    }
                }
            },
            None => {
                if name.contains('.') {
                    let i = choose|i: int| 0 <= i < name.len() && name[i] == '.';
                    assert(front[i] == '.');
                }
            },
        }
    }
}

/// The snapshot of a transaction is named after it: a file whose name is the ID, or any that begins
/// with it, with the extension `mdsnap`, is one, and one with any other name is not.
pub proof fn a_snapshot_is_named_after_its_transaction(
    file: FileView,
    id: Seq<char>,
    rest: Seq<char>,
)
    ensures
        id.len() > 0 && file.name == id + rest + seq!['.', 'm', 'd', 's', 'n', 'a', 'p']
            ==> is_snapshot_of(file, id),
        is_snapshot_of(file, id) ==> exists|stem: Seq<char>, extension: Seq<char>|
            {
                &&& file.name == #[trigger] (stem + seq!['.'] + extension)
                &&& crate::text::lower(extension) == seq!['m', 'd', 's', 'n', 'a', 'p']
                &&& crate::text::lower(id).is_prefix_of(crate::text::lower(stem))
            },
{
    reveal_strlit("mdsnap");
    let wanted = seq!['m', 'd', 's', 'n', 'a', 'p'];
    assert("mdsnap"@ =~= wanted);
    assert(crate::text::lower(wanted) =~= wanted);
    if id.len() > 0 && file.name == id + rest + seq!['.', 'm', 'd', 's', 'n', 'a', 'p'] {
        let stem = id + rest;
        assert(file.name =~= stem + seq!['.'] + wanted);
        assert(!wanted.contains('.'));
        an_extension_is_behind_the_last_dot(file.name, stem, wanted);
        assert(crate::text::lower(stem).take(id.len() as int) =~= crate::text::lower(id));
    }
    if is_snapshot_of(file, id) {
        stem_and_extension_make_the_name(file.name);
        let stem = stem_of(file.name);
        crate::text::ends_of_texts(crate::text::lower(stem), crate::text::lower(id));
        assert(file.name == stem + seq!['.'] + extension_of(file.name)->Some_0);
    }
}

/// All snapshots of a transaction in a directory are found, in the order of the directory, and no
/// other files.
pub proof fn all_snapshots_of_a_directory_are_found(files: Seq<FileView>, id: Seq<char>)
    ensures
        snapshots_in(files, id) == files.filter(|f: FileView| is_snapshot_of(f, id)),
    decreases files.len(),
{
    reveal(Seq::filter);
    if files.len() > 0 {
        all_snapshots_of_a_directory_are_found(files.drop_last(), id);
    }
}

/// The snapshots of the first directory that has any are found; directories that have none make no
/// difference.
pub proof fn directories_without_snapshots_make_no_difference(
    without: Seq<DirView>,
    dir: DirView,
    more: Seq<DirView>,
    id: Seq<char>,
)
    requires
        forall|d: int, i: int|
            0 <= d < without.len() && 0 <= i < without[d].files.len() ==> !is_snapshot_of(
                #[trigger] without[d].files[i],
                id,
            ),
    ensures
        first_snapshots(without, id).len() == 0,
        dir.files.filter(|f: FileView| is_snapshot_of(f, id)).len() > 0 ==> first_snapshots(
            without + seq![dir] + more,
            id,
        ) == dir.files.filter(|f: FileView| is_snapshot_of(f, id)),
    decreases without.len(),
{
    all_snapshots_of_a_directory_are_found(dir.files, id);
    let all = without + seq![dir] + more;
    if without.len() == 0 {
        assert(all[0] == dir);
    } else {
        assert(all[0] == without[0]);
        let rest = without.skip(1);
        assert forall|d: int, i: int|
            0 <= d < rest.len() && 0 <= i < rest[d].files.len() implies !is_snapshot_of(
            #[trigger] rest[d].files[i],
            id,
        ) by {
            assert(rest[d].files[i] == without[d + 1].files[i]);
        }
        directories_without_snapshots_make_no_difference(rest, dir, more, id);
        assert(all.skip(1) =~= rest + seq![dir] + more);
        if snapshots_in(without[0].files, id).len() > 0 {
            snapshots_are_files(without[0].files, id, 0);
            let f = snapshots_in(without[0].files, id)[0];
            let i = choose|i: int| 0 <= i < without[0].files.len() && without[0].files[i] == f;
            assert(!is_snapshot_of(without[0].files[i], id));
            assert(false);
        }
    }
}

/// Files in the order of their names are the same files, and no name comes before one that stands in
/// front of it.
pub proof fn files_are_sorted_by_name(files: Seq<FileView>)
    ensures
        by_name(files).to_multiset() == files.to_multiset(),
        forall|i: int, j: int|
            0 <= i < j < by_name(files).len() ==> crate::text::text_le(
                (#[trigger] by_name(files)[i]).name,
                (#[trigger] by_name(files)[j]).name,
            ),
    decreases files.len(),
{
    broadcast use vstd::seq_lib::group_to_multiset_ensures;

    if files.len() > 0 {
        files_are_sorted_by_name(files.drop_last());
        inserted_stays_sorted(by_name(files.drop_last()), files.last());
        assert(files =~= files.drop_last().push(files.last()));
    }
}

proof fn inserted_stays_sorted(files: Seq<FileView>, file: FileView)
    requires
        forall|i: int, j: int|
            0 <= i < j < files.len() ==> crate::text::text_le(
                (#[trigger] files[i]).name,
                (#[trigger] files[j]).name,
            ),
    ensures
        name_inserted(files, file).to_multiset() == files.to_multiset().insert(file),
        name_inserted(files, file).len() == files.len() + 1,
        forall|i: int|
            0 <= i < name_inserted(files, file).len() ==> {
                let f = #[trigger] name_inserted(files, file)[i];
                f == file || files.contains(f)
            },
        forall|i: int, j: int|
            0 <= i < j < name_inserted(files, file).len() ==> crate::text::text_le(
                (#[trigger] name_inserted(files, file)[i]).name,
                (#[trigger] name_inserted(files, file)[j]).name,
            ),
    decreases files.len(),
{
    broadcast use vstd::seq_lib::group_to_multiset_ensures;

    let after = name_inserted(files, file);
    if files.len() == 0 {
        assert(after =~= files.push(file));
    } else if crate::text::text_le(file.name, files[0].name) {
        assert(after =~= files.insert(0, file));
        assert forall|i: int| 0 <= i < after.len() implies {
            let f = #[trigger] after[i];
            f == file || files.contains(f)
        } by {
            if i > 0 {
                assert(after[i] == files[i - 1]);
            }
        }
        assert forall|i: int, j: int| 0 <= i < j < after.len() implies crate::text::text_le(
            (#[trigger] after[i]).name,
            (#[trigger] after[j]).name,
        ) by {
            assert(after[j] == files[j - 1]);
            if i == 0 {
                if j > 1 {
                    assert(crate::text::text_le(files[0].name, files[j - 1].name));
                    crate::text::text_le_transitive(file.name, files[0].name, files[j - 1].name);
                }
            } else {
                assert(after[i] == files[i - 1]);
            }
        }
    } else {
        let others = files.skip(1);
        assert forall|i: int, j: int| 0 <= i < j < others.len() implies crate::text::text_le(
            (#[trigger] others[i]).name,
            (#[trigger] others[j]).name,
        ) by {
            assert(others[i] == files[i + 1] && others[j] == files[j + 1]);
        }
        inserted_stays_sorted(others, file);
        let rest = name_inserted(others, file);
        crate::text::text_le_total(file.name, files[0].name);
        assert forall|k: int| 0 <= k < rest.len() implies crate::text::text_le(
            files[0].name,
            (#[trigger] rest[k]).name,
        ) by {
            if rest[k] != file {
                assert(others.contains(rest[k]));
                let m = choose|m: int| 0 <= m < others.len() && others[m] == rest[k];
                assert(files[m + 1] == rest[k]);
            }
        }
        assert forall|i: int| 0 <= i < after.len() implies {
            let f = #[trigger] after[i];
            f == file || files.contains(f)
        } by {
            if i > 0 {
                assert(after[i] == rest[i - 1]);
                if rest[i - 1] != file {
                    let m = choose|m: int| 0 <= m < others.len() && others[m] == rest[i - 1];
                    assert(files[m + 1] == after[i]);
                }
            } else {
                assert(files[0] == after[0]);
            }
        }
        assert forall|i: int, j: int| 0 <= i < j < after.len() implies crate::text::text_le(
            (#[trigger] after[i]).name,
            (#[trigger] after[j]).name,
        ) by {
            assert(after[j] == rest[j - 1]);
            if i > 0 {
                assert(after[i] == rest[i - 1]);
            }
        }
        assert(after =~= rest.insert(0, files[0]));
        assert(files =~= others.insert(0, files[0]));
        assert(after.to_multiset() =~= files.to_multiset().insert(file));
    }
}

/// Texts are listed one after the other, with a comma and a blank between them.
pub proof fn texts_are_separated_by_commas(
    first: Seq<Seq<char>>,
    text: Seq<char>,
    later: Seq<Seq<char>>,
)
    ensures
        listed(Seq::empty()).len() == 0,
        listed(seq![text]) == text,
        first.len() > 0 && later.len() > 0 ==> listed(first + later) == listed(first)
            + seq![',', ' '] + listed(later),
    decreases later.len(),
{
    reveal_strlit(", ");
    assert(", "@ =~= seq![',', ' ']);
    if first.len() > 0 && later.len() > 0 {
        let all = first + later;
        assert(all.drop_last() =~= first + later.drop_last());
        if later.len() == 1 {
            assert(all.drop_last() =~= first);
        } else {
            texts_are_separated_by_commas(first, text, later.drop_last());
            assert(listed(all) =~= listed(first) + seq![',', ' '] + listed(later));
        }
    }
}

/// What is no file must be the ID of a transaction, or a prefix of one, and stand for one snapshot
/// only: none and several are both refused, and where there are several, all of them are named.
pub proof fn a_snapshot_must_be_the_only_one(reference: Seq<char>, dirs: Seq<DirView>)
    ensures
        ({
            let found = first_snapshots(dirs, reference);
            match snapshot_path(reference, false, dirs) {
                Ok(path) => {
                    &&& is_transaction_id(reference)
                    &&& found.len() == 1
                    &&& path == found[0].path
                },
                Err(message) => {
                    &&& !is_transaction_id(reference) || found.len() != 1
                    &&& !is_transaction_id(reference) ==> reference.is_suffix_of(message)
                    &&& is_transaction_id(reference) && found.len() > 1 ==> listed(
                        by_name(found).map_values(|f: FileView| f.path),
                    ).is_suffix_of(message)
                    &&& is_transaction_id(reference) ==> exists|at: int|
                        #[trigger] crate::text::occurs_at(
                            message,
                            seq!['\''] + reference + seq!['\''],
                            at,
                        )
                },
            }
        }),
{
    let found = first_snapshots(dirs, reference);
    if let Err(message) = snapshot_path(reference, false, dirs) {
        if !is_transaction_id(reference) {
            assert(message.subrange(message.len() - reference.len(), message.len() as int)
                =~= reference);
        } else {
            reveal_strlit("no recorded snapshot found for transaction '");
            reveal_strlit("' (searched: ");
            reveal_strlit("transaction ID prefix '");
            reveal_strlit("' is ambiguous; it matches: ");
            let quoted = seq!['\''] + reference + seq!['\''];
            let at = if found.len() == 0 {
                "no recorded snapshot found for transaction '"@.len() - 1
            } else {
                "transaction ID prefix '"@.len() - 1
            };
            assert(message.subrange(at, at + quoted.len()) =~= quoted);
            assert(crate::text::occurs_at(message, quoted, at));
            if found.len() > 1 {
                let paths = listed(file_paths(by_name(found)));
                assert(message.subrange(message.len() - paths.len(), message.len() as int)
                    =~= paths);
            }
        }
    }
}

/// The ID of a transaction is `0x`, followed by at least one hexadecimal digit and nothing else.
pub proof fn an_id_is_hexadecimal(s: Seq<char>)
    ensures
        is_transaction_id(s) <==> {
            &&& s.len() > 2
            &&& s[0] == '0'
            &&& s[1] == 'x'
            &&& forall|i: int|
                2 <= i < s.len() ==> {
                    let c = #[trigger] s[i];
                    ('0' <= c && c <= '9') || ('a' <= c && c <= 'f') || ('A' <= c && c <= 'F')
                }
        },
{
    if is_transaction_id(s) {
        assert forall|i: int| 2 <= i < s.len() implies {
            let c = #[trigger] s[i];
            ('0' <= c && c <= '9') || ('a' <= c && c <= 'f') || ('A' <= c && c <= 'F')
        } by {
            assert(crate::text::is_hex_digit(s.skip(2)[i - 2]));
        }
    }
    if s.len() > 2 && s[0] == '0' && s[1] == 'x' && (forall|i: int|
        2 <= i < s.len() ==> {
            let c = #[trigger] s[i];
            ('0' <= c && c <= '9') || ('a' <= c && c <= 'f') || ('A' <= c && c <= 'F')
        }) {
        assert forall|i: int| 0 <= i < s.skip(2).len() implies crate::text::is_hex_digit(
            #[trigger] s.skip(2)[i],
        ) by {
            assert(s.skip(2)[i] == s[i + 2]);
        }
    }
}

/// The directory that the environment names is searched first, then the one below the current
/// directory, and the one below the home directory last.
pub proof fn directories_are_searched_in_order(named: Option<Seq<char>>, home: Option<Seq<char>>)
    ensures
        ({
            let dirs = search_dirs(named, home);
            let here = seq![".miden"@, "debug-snapshots"@];
            &&& dirs.len() == 1 + (if named is Some { 1int } else { 0 }) + (if home is Some {
                1int
            } else {
                0
            })
            &&& named matches Some(dir) ==> dirs[0] == seq![dir] && dirs[1] == here
            &&& named is None ==> dirs[0] == here
            &&& home matches Some(dir) ==> dirs.last() == seq![dir] + here
        }),
{
    if let Some(dir) = home {
        assert(seq![dir, ".miden"@, "debug-snapshots"@] =~= seq![dir] + seq![
            ".miden"@,
            "debug-snapshots"@,
        ]);
    }
}

} // verus!
