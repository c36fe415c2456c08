//! Choosing the files of a directory by their extension.

use vstd::prelude::*;
use crate::order::{arranged, is_ascending_arrangement, order_by_name};
use crate::text::{holds_name, lowercase, to_lowercase};

verus! {

/// A regular file of a directory: its full path, where that is valid
/// Unicode, and its extension, where it has one that is.
#[derive(Debug)]
pub struct FileEntry {
    pub path: Option<String>,
    pub extension: Option<String>,
}

/// What a [`FileEntry`] is in contracts.
pub struct FileEntryView {
    pub path: Option<Seq<char>>,
    pub extension: Option<Seq<char>>,
}

impl View for FileEntry {
    type V = FileEntryView;

    open spec fn view(&self) -> FileEntryView {
        FileEntryView { path: self.path.deep_view(), extension: self.extension.deep_view() }
    }
}

impl DeepView for FileEntry {
    type V = FileEntryView;

    open spec fn deep_view(&self) -> FileEntryView {
        self@
    }
}

/// The extensions that a format in lower case stands for: `jpeg` stands
/// for `jpg` and `jpeg`, every other format for itself.
pub open spec fn extensions_of(lower: Seq<char>) -> Seq<Seq<char>> {
    if lower == "jpeg"@ {
        seq!["jpg"@, "jpeg"@]
    } else {
        seq![lower]
    }
}

/// The file has an extension that, in lower case, is one of `extensions`.
pub open spec fn entry_matches(extensions: Seq<Seq<char>>, e: FileEntryView) -> bool {
    e.extension matches Some(x) && extensions.contains(lowercase(x))
}

/// How many of the files match.
pub open spec fn matching_count(extensions: Seq<Seq<char>>, files: Seq<FileEntryView>) -> nat
    decreases files.len(),
{
    if files.len() == 0 {
        0
    } else {
        matching_count(extensions, files.drop_last()) + if entry_matches(
            extensions,
            files.last(),
        ) {
            1nat
        } else {
            0nat
        }
    }
}

/// The paths of the files that match and have one, in the order of the
/// files.
pub open spec fn matching_paths(extensions: Seq<Seq<char>>, files: Seq<FileEntryView>) -> Seq<
    Seq<char>,
>
    decreases files.len(),
{
    if files.len() == 0 {
        Seq::empty()
    } else {
        let rest = matching_paths(extensions, files.drop_last());
        if entry_matches(extensions, files.last()) && files.last().path is Some {
            rest.push(files.last().path.unwrap())
        } else {
            rest
        }
    }
}

/// The extensions that a format, already in lower case, stands for.
pub fn extensions_for_lowercase(ext_lower: String) -> (r: Vec<String>)
    ensures
        r.deep_view() == extensions_of(ext_lower@),
{
    let mut out: Vec<String> = Vec::new();
    if ext_lower == "jpeg".to_owned() {
        out.push("jpg".to_owned());
        out.push("jpeg".to_owned());
        assert(out.deep_view() =~= seq!["jpg"@, "jpeg"@]);
    } else {
        out.push(ext_lower);
        assert(out.deep_view() =~= seq![ext_lower@]);
    }
    out
}

/// The extensions that a format stands for, whatever the case of its
/// letters: `jpeg` stands for `jpg` and `jpeg`, every other format for
/// itself in lower case.
pub fn extensions_for_format(format: &str) -> (r: Vec<String>)
    ensures
        r.deep_view() == extensions_of(lowercase(format@)),
{
    extensions_for_lowercase(to_lowercase(format))
}

/// Whether a file has an extension that, in lower case, is one of
/// `extensions`.
pub fn matches_extensions(extensions: &Vec<String>, file: &FileEntry) -> (r: bool)
    ensures
        r == entry_matches(extensions.deep_view(), file@),
{
    match &file.extension {
        Some(x) => {
            let lower = to_lowercase(x.as_str());
            holds_name(extensions, &lower)
        },
        None => false,
    }
}

/// The number of files whose extension matches the format.
pub fn count_files_in_directory(files: &Vec<FileEntry>, format: &str) -> (r: u32)
    requires
        files.len() <= u32::MAX,
    ensures
        r == matching_count(extensions_of(lowercase(format@)), files.deep_view()),
{
    let extensions = extensions_for_format(format);
    let ghost all = files.deep_view();
    let mut count: u32 = 0;
    let mut i: usize = 0;
    assert(all.take(0) =~= Seq::<FileEntryView>::empty());
    while i < files.len()
        invariant
            i <= files.len(),
            files.len() <= u32::MAX,
            all == files.deep_view(),
            count <= i,
            count == matching_count(extensions.deep_view(), all.take(i as int)),
        decreases files.len() - i,
    {
        proof {
            assert(all.take(i + 1).drop_last() =~= all.take(i as int));
            assert(all.take(i + 1).last() == files[i as int]@);
        }
        if matches_extensions(&extensions, &files[i]) {
            count += 1;
        }
        i += 1;
    }
    assert(all.take(files.len() as int) =~= all);
    count
}

/// The paths of the files whose extension matches the format, in
/// ascending order.
pub fn list_files_in_directory(files: &Vec<FileEntry>, format: &str) -> (r: Vec<String>)
    ensures
        is_ascending_arrangement(
            r.deep_view(),
            matching_paths(extensions_of(lowercase(format@)), files.deep_view()),
        ),
{
    let extensions = extensions_for_format(format);
    let ghost all = files.deep_view();
    let mut paths: Vec<String> = Vec::new();
    let mut i: usize = 0;
    assert(all.take(0) =~= Seq::<FileEntryView>::empty());
    while i < files.len()
        invariant
            i <= files.len(),
            all == files.deep_view(),
            paths.deep_view() =~= matching_paths(extensions.deep_view(), all.take(i as int)),
        decreases files.len() - i,
    {
        proof {
            assert(all.take(i + 1).drop_last() =~= all.take(i as int));
            assert(all.take(i + 1).last() == files[i as int]@);
        }
        if matches_extensions(&extensions, &files[i]) {
            match &files[i].path {
                Some(p) => {
                    let ghost before = paths.deep_view();
                    paths.push(p.clone());
                    assert(paths.deep_view() =~= before.push(p@));
                },
                None => {},
            }
        }
        i += 1;
    }
    assert(all.take(files.len() as int) =~= all);
    let order = order_by_name(&paths);
    let mut out: Vec<String> = Vec::new();
    let mut k: usize = 0;
    while k < order.len()
        invariant
            k <= order.len(),
            out.len() == k,
            order.len() == paths.len(),
            forall|m: int| 0 <= m < order.len() ==> (#[trigger] order[m]) < paths.len(),
            forall|m: int| 0 <= m < k ==> (#[trigger] out[m])@ == paths[order[m] as int]@,
        decreases order.len() - k,
    {
        out.push(paths[order[k]].clone());
        k += 1;
    }
    proof {
        let ps = paths.deep_view();
        assert(out.deep_view() =~= arranged(ps, order@));
    }
    out
}

} // verus!
