//! Classifying entries and running a whole set of them through the
//! accumulator.
//!
//! The walker itself — reading directories, spawning one task per child —
//! performs I/O and lives outside the library. What it hands over per entry
//! is a plain record: the entry's kind, its path bytes, its mode, and its
//! payload. Everything decided about such records is here and verified: how
//! an entry is classified, which seed it contributes, and what the whole
//! collection folds to.

use vstd::prelude::*;

use crate::checksum::{
    combine, lemma_submit_order_immaterial, lemma_sum_seeds_push, sum_seeds, zero_digest, Checksum,
};
use crate::seed::{
    dir_seed, file_seed, seed_input, sha1_of, socket_seed, symlink_seed, TAG_DIR, TAG_FILE,
    TAG_SOCKET, TAG_SYMLINK,
};

verus! {

/// What a non-following metadata query said an entry is.
#[derive(Clone, Copy, PartialEq, Eq, Structural)]
pub enum EntryKind {
    File,
    Directory,
    Symlink,
    Socket,
    /// Any type the checksum does not handle: FIFO, device, and the like.
    Other,
}

/// What the classifier decides for one entry.
#[derive(Clone, Copy, PartialEq, Eq, Structural)]
pub enum Action {
    EncodeFile,
    EncodeDirectory,
    EncodeSymlink,
    EncodeSocket,
    /// Leave the entry out of the checksum without error.
    Skip,
    /// Report the entry as unsupported and stop the run.
    Fatal,
}

/// The classifier's decision rule: each handled kind goes to its encoder;
/// an unhandled kind is skipped or fatal as the configuration says.
pub open spec fn classification(kind: EntryKind, ignore_unknown_filetypes: bool) -> Action {
    match kind {
        EntryKind::File => Action::EncodeFile,
        EntryKind::Directory => Action::EncodeDirectory,
        EntryKind::Symlink => Action::EncodeSymlink,
        EntryKind::Socket => Action::EncodeSocket,
        EntryKind::Other => if ignore_unknown_filetypes {
            Action::Skip
        } else {
            Action::Fatal
        },
    }
}

/// Route an entry to its encoder, or to the skip or fatal path.
pub fn classify(kind: EntryKind, ignore_unknown_filetypes: bool) -> (r: Action)
    ensures
        r == classification(kind, ignore_unknown_filetypes),
{
    match kind {
        EntryKind::File => Action::EncodeFile,
        EntryKind::Directory => Action::EncodeDirectory,
        EntryKind::Symlink => Action::EncodeSymlink,
        EntryKind::Socket => Action::EncodeSocket,
        EntryKind::Other => if ignore_unknown_filetypes {
            Action::Skip
        } else {
            Action::Fatal
        },
    }
}

/// One filesystem entry as the walker hands it over: its kind, its path
/// relative to the run's root as raw bytes, its mode bits, and its payload —
/// a file's content, a symlink's target, empty otherwise.
pub struct EntryRecord {
    pub kind: EntryKind,
    pub name: Vec<u8>,
    pub mode: u32,
    pub payload: Vec<u8>,
}

/// The digest seed an entry contributes. Directories and sockets carry no
/// payload bytes; an unhandled entry never reaches the accumulator, so its
/// value here is immaterial.
pub open spec fn seed_of(e: EntryRecord) -> Seq<u8> {
    match e.kind {
        EntryKind::File => sha1_of(seed_input(e.name@, e.mode, TAG_FILE, e.payload@)),
        EntryKind::Directory => sha1_of(seed_input(e.name@, e.mode, TAG_DIR, Seq::<u8>::empty())),
        EntryKind::Symlink => sha1_of(seed_input(e.name@, e.mode, TAG_SYMLINK, e.payload@)),
        EntryKind::Socket => sha1_of(seed_input(e.name@, e.mode, TAG_SOCKET, Seq::<u8>::empty())),
        EntryKind::Other => zero_digest(),
    }
}

/// The seeds a run over these entries submits, in the order given; entries
/// of an unhandled kind contribute nothing.
pub open spec fn seeds_of(entries: Seq<EntryRecord>) -> Seq<Seq<u8>>
    decreases entries.len(),
{
    if entries.len() == 0 {
        Seq::<Seq<u8>>::empty()
    } else if entries.last().kind == EntryKind::Other {
        seeds_of(entries.drop_last())
    } else {
        seeds_of(entries.drop_last()).push(seed_of(entries.last()))
    }
}

/// An entry of an unhandled kind contributes nothing: a collection with such
/// an entry submits exactly the seeds of the collection with that entry
/// removed entirely.
pub proof fn lemma_skipped_entry_excluded(entries: Seq<EntryRecord>, i: int)
    requires
        0 <= i < entries.len(),
        entries[i].kind == EntryKind::Other,
    ensures
        seeds_of(entries) == seeds_of(entries.remove(i)),
    decreases entries.len(),
{
    if i == entries.len() - 1 {
        assert(entries.remove(i) =~= entries.drop_last());
    } else {
        lemma_skipped_entry_excluded(entries.drop_last(), i);
        assert(entries.remove(i).drop_last() =~= entries.drop_last().remove(i));
        assert(entries.remove(i).last() == entries.last());
    }
}

/// A handled entry's seed can be split off from any position: the fold over
/// the collection equals its seed combined into the fold over the rest.
proof fn lemma_seeds_of_remove(entries: Seq<EntryRecord>, i: int)
    requires
        0 <= i < entries.len(),
        entries[i].kind != EntryKind::Other,
    ensures
        sum_seeds(seeds_of(entries)) == combine(
            sum_seeds(seeds_of(entries.remove(i))),
            seed_of(entries[i]),
        ),
    decreases entries.len(),
{
    if i == entries.len() - 1 {
        assert(entries.remove(i) =~= entries.drop_last());
        lemma_sum_seeds_push(seeds_of(entries.drop_last()), seed_of(entries.last()));
        assert(seeds_of(entries) == seeds_of(entries.drop_last()).push(seed_of(entries.last())));
    } else {
        let rest = entries.drop_last();
        lemma_seeds_of_remove(rest, i);
        assert(entries.remove(i).drop_last() =~= rest.remove(i));
        assert(entries.remove(i).last() == entries.last());
        if entries.last().kind == EntryKind::Other {
            assert(seeds_of(entries) == seeds_of(rest));
            assert(seeds_of(entries.remove(i)) == seeds_of(rest.remove(i)));
        } else {
            lemma_sum_seeds_push(seeds_of(rest), seed_of(entries.last()));
            lemma_sum_seeds_push(seeds_of(rest.remove(i)), seed_of(entries.last()));
            assert(seeds_of(entries) == seeds_of(rest).push(seed_of(entries.last())));
            assert(seeds_of(entries.remove(i)) == seeds_of(rest.remove(i)).push(
                seed_of(entries.last()),
            ));
            lemma_submit_order_immaterial(
                sum_seeds(seeds_of(rest.remove(i))),
                seed_of(entries.last()),
                seed_of(entries[i]),
            );
        }
    }
}

/// Order independence: two runs that visit the same entries — however the
/// scheduler, thread count, or directory read order arranged them — fold to
/// the same checksum.
pub proof fn lemma_order_independence(e1: Seq<EntryRecord>, e2: Seq<EntryRecord>)
    requires
        e1.to_multiset() == e2.to_multiset(),
    ensures
        sum_seeds(seeds_of(e1)) == sum_seeds(seeds_of(e2)),
    decreases e1.len(),
{
    e1.to_multiset_ensures();
    e2.to_multiset_ensures();
    if e1.len() == 0 {
        assert(e2.len() == 0);
    } else {
        let a = e1.last();
        let last = e1.len() - 1;
        assert(e1.remove(last).to_multiset() =~= e1.to_multiset().remove(a));
        assert(e1.to_multiset().count(a) > 0);
        assert(e2.contains(a));
        let j = choose|j: int| 0 <= j < e2.len() && e2[j] == a;
        assert(e2.remove(j).to_multiset() =~= e2.to_multiset().remove(a));
        assert(e1.remove(last) =~= e1.drop_last());
        lemma_order_independence(e1.drop_last(), e2.remove(j));
        if a.kind == EntryKind::Other {
            assert(seeds_of(e1) == seeds_of(e1.drop_last()));
            lemma_skipped_entry_excluded(e2, j);
        } else {
            lemma_sum_seeds_push(seeds_of(e1.drop_last()), seed_of(a));
            assert(seeds_of(e1) == seeds_of(e1.drop_last()).push(seed_of(a)));
            lemma_seeds_of_remove(e2, j);
        }
    }
}

/// Idempotence: any two runs over the same unchanged entries fold to the
/// same checksum, because the result is a function of the entries alone.
pub proof fn lemma_runs_agree(entries: Seq<EntryRecord>, v1: Seq<u8>, v2: Seq<u8>)
    requires
        v1 == sum_seeds(seeds_of(entries)),
        v2 == sum_seeds(seeds_of(entries)),
    ensures
        v1 == v2,
{
}

/// Fold every entry's seed into one checksum, in the order given.
///
/// Returns the accumulated checksum, or — when unhandled kinds are fatal —
/// the index of the first entry of an unhandled kind.
pub fn checksum_of_entries(entries: &Vec<EntryRecord>, ignore_unknown_filetypes: bool) -> (r:
    Result<Checksum, usize>)
    ensures
        r is Ok <==> (ignore_unknown_filetypes || forall|i: int|
            0 <= i < entries@.len() ==> entries@[i].kind != EntryKind::Other),
        match r {
            Ok(c) => c.wf() && c@ == sum_seeds(seeds_of(entries@)),
            Err(i) => !ignore_unknown_filetypes && i < entries@.len()
                && entries@[i as int].kind == EntryKind::Other && forall|j: int|
                0 <= j < i ==> entries@[j].kind != EntryKind::Other,
        },
{
    let mut cs = Checksum::new();
    let mut i: usize = 0;
    while i < entries.len()
        invariant
            i <= entries@.len(),
            cs.wf(),
            cs@ == sum_seeds(seeds_of(entries@.take(i as int))),
            forall|j: int| 0 <= j < i ==> (ignore_unknown_filetypes || entries@[j].kind
                != EntryKind::Other),
        decreases entries@.len() - i,
    {
        let e = &entries[i];
        match classify(e.kind, ignore_unknown_filetypes) {
            Action::EncodeFile => {
                let s = file_seed(&e.name, e.mode, &e.payload);
                cs.put(&s);
            },
            Action::EncodeDirectory => {
                let s = dir_seed(&e.name, e.mode);
                cs.put(&s);
            },
            Action::EncodeSymlink => {
                let s = symlink_seed(&e.name, e.mode, &e.payload);
                cs.put(&s);
            },
            Action::EncodeSocket => {
                let s = socket_seed(&e.name, e.mode);
                cs.put(&s);
            },
            Action::Skip => {},
            Action::Fatal => {
                return Err(i);
            },
        }
        proof {
            let taken = entries@.take(i + 1);
            assert(taken.drop_last() =~= entries@.take(i as int));
            assert(taken.last() == entries@[i as int]);
            if entries@[i as int].kind != EntryKind::Other {
                crate::checksum::lemma_sum_seeds_push(
                    seeds_of(entries@.take(i as int)),
                    seed_of(entries@[i as int]),
                );
            }
        }
        i = i + 1;
    }
    proof {
        assert(entries@.take(entries@.len() as int) =~= entries@);
    }
    Ok(cs)
}

} // verus!

