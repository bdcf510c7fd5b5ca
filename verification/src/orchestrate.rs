//! The two-pass flow over in-memory file contents: a scan pass that fixes the
//! byte total, then a copy pass that copies every file chunk by chunk and
//! accounts each file as it is written. This is the whole orchestration the
//! copy tool performs, with the filesystem replaced by plain byte vectors;
//! a caller doing real I/O drives the same two passes with the same
//! accounting functions.

use vstd::prelude::*;

use crate::chunk::{chunk_split, concat_chunks, copy_in_chunks_bytes, lemma_chunks_rejoin};
use crate::path::joined;
use crate::plan::{lemma_inplace_dest_preserves_relative, spec_entry_dest};
use crate::progress::ProgressState;

verus! {

/// Round-trip fidelity of copying a directory tree in place: every walked
/// entry, the source prefix followed by its relative path, lands at exactly
/// that relative path joined under the destination root, and the chunked copy
/// of each file's contents writes back exactly those bytes.
pub proof fn lemma_tree_copy_round_trip(
    source: Seq<char>,
    dest: Seq<char>,
    rels: Seq<Seq<char>>,
    contents: Seq<Seq<u8>>,
    chunk: int,
)
    requires
        chunk >= 1,
        forall|i: int|
            0 <= i < rels.len() ==> ((source + rels[i]).len() > 0 ==> (source + rels[i])[0]
                != '.'),
    ensures
        forall|i: int|
            0 <= i < rels.len() ==> spec_entry_dest(source + rels[i], source, dest, true, source)
                == joined(dest, rels[i]),
        forall|i: int|
            0 <= i < contents.len() ==> concat_chunks(chunk_split(contents[i], chunk))
                == contents[i],
{
    assert forall|i: int| 0 <= i < rels.len() implies spec_entry_dest(
        source + rels[i],
        source,
        dest,
        true,
        source,
    ) == joined(dest, rels[i]) by {
        lemma_inplace_dest_preserves_relative(source + rels[i], source, dest, rels[i]);
    }
    assert forall|i: int| 0 <= i < contents.len() implies concat_chunks(
        chunk_split(contents[i], chunk),
    ) == contents[i] by {
        lemma_chunks_rejoin(contents[i], chunk);
    }
}

/// The total byte count of a list of file contents.
pub open spec fn total_bytes(files: Seq<Vec<u8>>) -> int
    decreases files.len(),
{
    if files.len() == 0 {
        0
    } else {
        files[0]@.len() + total_bytes(files.subrange(1, files.len() as int))
    }
}

/// Appending one file adds its size to the total.
pub proof fn lemma_total_bytes_push(files: Seq<Vec<u8>>, f: Vec<u8>)
    ensures
        total_bytes(files.push(f)) == total_bytes(files) + f@.len(),
    decreases files.len(),
{
    if files.len() == 0 {
        assert(files.push(f).subrange(1, 1) =~= Seq::<Vec<u8>>::empty());
        assert(total_bytes(Seq::<Vec<u8>>::empty()) == 0);
    } else {
        assert(files.push(f).subrange(1, files.len() as int + 1) =~= files.subrange(
            1,
            files.len() as int,
        ).push(f));
        lemma_total_bytes_push(files.subrange(1, files.len() as int), f);
    }
}

/// A prefix never totals more than the whole list.
pub proof fn lemma_total_bytes_prefix_le(files: Seq<Vec<u8>>, i: int)
    requires
        0 <= i <= files.len(),
    ensures
        total_bytes(files.subrange(0, i)) <= total_bytes(files),
    decreases files.len() - i,
{
    if i == files.len() {
        assert(files.subrange(0, i) =~= files);
    } else {
        lemma_total_bytes_prefix_le(files, i + 1);
        assert(files.subrange(0, i + 1) =~= files.subrange(0, i).push(files[i]));
        lemma_total_bytes_push(files.subrange(0, i), files[i]);
    }
}

/// Runs both passes over in-memory file contents: scan every file into the
/// progress total, freeze it, then copy every file in chunks, accounting the
/// bytes each copy actually wrote.
///
/// The results state the two central guarantees of the tool: every copied
/// file equals its source byte for byte, and the total the scan pass froze is
/// exactly the sum of the bytes the copy pass then wrote.
pub fn run_in_memory(files: &Vec<Vec<u8>>, chunk_size: usize) -> (r: (Vec<Vec<u8>>, ProgressState))
    requires
        chunk_size >= 1,
        total_bytes(files@) <= u64::MAX,
        files@.len() < u64::MAX,
    ensures
        r.0@.len() == files@.len(),
        forall|i: int| 0 <= i < files@.len() ==> r.0@[i]@ == files@[i]@,
        r.1.bytes_total == total_bytes(files@),
        r.1.bytes_done == r.1.bytes_total,
        r.1.files_seen == files@.len(),
        r.1.total_frozen,
{
    let mut progress = ProgressState::new();
    let mut i: usize = 0;
    while i < files.len()
        invariant
            i <= files@.len(),
            files@.len() < u64::MAX,
            total_bytes(files@) <= u64::MAX,
            progress.bytes_total == total_bytes(files@.subrange(0, i as int)),
            progress.files_seen == i,
            progress.bytes_done == 0,
            !progress.total_frozen,
        decreases files@.len() - i,
    {
        let size = files[i].len();
        proof {
            assert(files@.subrange(0, i + 1) =~= files@.subrange(0, i as int).push(
                files@[i as int],
            ));
            lemma_total_bytes_push(files@.subrange(0, i as int), files@[i as int]);
            lemma_total_bytes_prefix_le(files@, i + 1);
        }
        progress.record_scanned(size as u64);
        i += 1;
    }
    proof {
        assert(files@.subrange(0, files@.len() as int) =~= files@);
    }
    progress.freeze_total();
    let mut out: Vec<Vec<u8>> = Vec::new();
    let mut j: usize = 0;
    while j < files.len()
        invariant
            j <= files@.len(),
            chunk_size >= 1,
            total_bytes(files@) <= u64::MAX,
            out@.len() == j,
            forall|k: int| 0 <= k < j ==> out@[k]@ == files@[k]@,
            progress.bytes_done == total_bytes(files@.subrange(0, j as int)),
            progress.bytes_total == total_bytes(files@),
            progress.files_seen == files@.len(),
            progress.total_frozen,
        decreases files@.len() - j,
    {
        let copied = copy_in_chunks_bytes(&files[j], chunk_size);
        proof {
            assert(files@.subrange(0, j + 1) =~= files@.subrange(0, j as int).push(
                files@[j as int],
            ));
            lemma_total_bytes_push(files@.subrange(0, j as int), files@[j as int]);
            lemma_total_bytes_prefix_le(files@, j + 1);
        }
        progress.record_copied(copied.0.len() as u64);
        out.push(copied.0);
        j += 1;
    }
    proof {
        assert(files@.subrange(0, files@.len() as int) =~= files@);
    }
    (out, progress)
}

} // verus!
