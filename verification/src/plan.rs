//! Copy planning: classifying a source specification and computing, for each
//! concrete filesystem entry, the destination path it is copied to. The
//! caller probes the filesystem and walks directories or glob matches; this
//! module owns every decision about what the destination path is.

use vstd::prelude::*;

use crate::path::{find_first, join, joined, match_at, replace_first, replace_first_str};

verus! {

/// What a user-supplied source string resolved to.
#[derive(Clone, Copy, Debug, PartialEq, Eq, Structural)]
pub enum SourceKind {
    /// The path exists and is a regular file.
    SingleFile,
    /// The path exists and is a directory.
    Directory,
    /// Neither: the string is treated as a glob pattern.
    GlobPattern,
}

/// A planning failure that aborts the run.
#[derive(Clone, Copy, Debug, PartialEq, Eq, Structural)]
pub enum PlanError {
    /// A single file was to be copied, but the destination names an existing
    /// directory instead of a literal file path.
    DestIsDirectory,
}

impl PlanError {
    /// The diagnostic printed when the run aborts on this error.
    pub fn message(&self) -> (r: &'static str)
        ensures
            r@ == "USE A FILE PATH IN DEST"@,
    {
        "USE A FILE PATH IN DEST"
    }
}

/// Classifies a source from the two filesystem probes: an existing file wins,
/// then an existing directory; anything else is read as a glob pattern.
pub fn classify_source(is_file: bool, is_dir: bool) -> (k: SourceKind)
    ensures
        is_file ==> k == SourceKind::SingleFile,
        !is_file && is_dir ==> k == SourceKind::Directory,
        !is_file && !is_dir ==> k == SourceKind::GlobPattern,
{
    if is_file {
        SourceKind::SingleFile
    } else if is_dir {
        SourceKind::Directory
    } else {
        SourceKind::GlobPattern
    }
}

/// Destination of a single-file copy: the destination string itself, taken as
/// a literal file path. Copying a single file onto an existing directory is
/// an error, since no file name was given.
pub fn plan_single_file(dest: String, dest_is_dir: bool) -> (r: Result<String, PlanError>)
    ensures
        dest_is_dir ==> r == Result::<String, PlanError>::Err(PlanError::DestIsDirectory),
        !dest_is_dir ==> (r matches Ok(d) && d@ == dest@),
{
    if dest_is_dir {
        Err(PlanError::DestIsDirectory)
    } else {
        Ok(dest)
    }
}

/// The destination path of one walked entry.
///
/// An entry that already begins with `.` bypasses prefix stripping and is
/// joined under `dest` with its relative shape kept as written. Otherwise an
/// in-place directory copy removes the source prefix, and a glob-rooted copy
/// rewrites the glob root to `.`; either fragment is then joined under
/// `dest`.
pub open spec fn spec_entry_dest(
    entry: Seq<char>,
    source: Seq<char>,
    dest: Seq<char>,
    inplace: bool,
    root: Seq<char>,
) -> Seq<char> {
    if entry.len() > 0 && entry[0] == '.' {
        joined(dest, entry)
    } else if inplace {
        joined(dest, replace_first(entry, source, Seq::empty()))
    } else {
        joined(dest, replace_first(entry, root, seq!['.']))
    }
}

/// Computes where one walked entry lands under the destination root.
///
/// `entry` is the path of a file or directory found by walking `source` (or a
/// glob match when `inplace` is false); `root` is the canonical glob root of
/// the first source argument, as `glob_dir` computes it.
pub fn entry_dest(
    entry: &String,
    source: &String,
    dest: &String,
    inplace: bool,
    root: &String,
) -> (r: String)
    ensures
        r@ == spec_entry_dest(entry@, source@, dest@, inplace, root@),
{
    let n = entry.as_str().unicode_len();
    if n > 0 && entry.as_str().get_char(0) == '.' {
        join(dest.clone(), entry.clone())
    } else if inplace {
        let frag = replace_first_str(entry.as_str(), source.as_str(), "");
        proof {
            reveal_strlit("");
            assert(("")@ =~= Seq::<char>::empty());
        }
        join(dest.clone(), frag)
    } else {
        let frag = replace_first_str(entry.as_str(), root.as_str(), ".");
        proof {
            reveal_strlit(".");
            assert((".")@ =~= seq!['.']);
        }
        join(dest.clone(), frag)
    }
}

/// Destination paths for a whole batch of walked entries, in walk order.
/// A batch of zero entries (a glob that matched nothing) plans zero copies
/// and is not an error.
pub fn plan_entries(
    entries: &Vec<String>,
    source: &String,
    dest: &String,
    inplace: bool,
    root: &String,
) -> (r: Vec<String>)
    ensures
        r@.len() == entries@.len(),
        forall|i: int|
            0 <= i < entries@.len() ==> r@[i]@ == spec_entry_dest(
                entries@[i]@,
                source@,
                dest@,
                inplace,
                root@,
            ),
{
    let mut r: Vec<String> = Vec::new();
    let mut i: usize = 0;
    while i < entries.len()
        invariant
            i <= entries@.len(),
            r@.len() == i,
            forall|j: int|
                0 <= j < i ==> r@[j]@ == spec_entry_dest(
                    entries@[j]@,
                    source@,
                    dest@,
                    inplace,
                    root@,
                ),
        decreases entries@.len() - i,
    {
        let d = entry_dest(&entries[i], source, dest, inplace, root);
        r.push(d);
        i += 1;
    }
    r
}

/// Relative structure is preserved by an in-place directory copy: an entry
/// that is the source prefix followed by a relative fragment lands at the
/// fragment joined under the destination root.
pub proof fn lemma_inplace_dest_preserves_relative(
    entry: Seq<char>,
    source: Seq<char>,
    dest: Seq<char>,
    rel: Seq<char>,
)
    requires
        entry == source + rel,
        entry.len() > 0 ==> entry[0] != '.',
    ensures
        spec_entry_dest(entry, source, dest, true, source) == joined(dest, rel),
{
    assert(entry.subrange(0, source.len() as int) =~= source);
    assert(match_at(entry, source, 0));
    assert(find_first(entry, source) == 0);
    assert(replace_first(entry, source, Seq::empty()) =~= rel);
}

} // verus!
