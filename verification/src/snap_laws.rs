//! What holds of the device's memory and of its snapshots, word by word and byte by
//! byte.
use vstd::endian::{endianness, Endian};
use vstd::prelude::*;
use crate::boot::{fitted_meta, fresh_worker_word, is_fresh, recycled_meta, resized, Sizes};
use crate::snap::{file_error, first_error, free_error, free_slots, has_meta, holds, itrs_error, law_freelist_complete, law_words_bytes_injective, le_bytes, le_bytes64, links_free, node_free, state_error, var_free, walk, word_bytes, words_bytes, written, GpuSnap, SnapFiles, SnapPaths, SnapReads};

verus! {

/// Four bytes, the lowest first, stand for a word.
pub open spec fn word_of_bytes(b0: u8, b1: u8, b2: u8, b3: u8) -> int {
    b0 + 256 * b1 + 256 * 256 * b2 + 256 * 256 * 256 * b3
}

/// The bytes of words: four for each, in order. On a machine that has the lowest byte
/// first, the first of the four counts ones; on any other machine the last.
pub proof fn law_bytes_of_words(words: Seq<u32>, i: int)
    requires
        0 <= i < words.len(),
    ensures
        ({
            let b = words_bytes(words);
            &&& b.len() == 4 * words.len()
            &&& endianness() == Endian::Little ==> word_of_bytes(
                b[4 * i],
                b[4 * i + 1],
                b[4 * i + 2],
                b[4 * i + 3],
            ) == words[i]
            &&& endianness() != Endian::Little ==> word_of_bytes(
                b[4 * i + 3],
                b[4 * i + 2],
                b[4 * i + 1],
                b[4 * i],
            ) == words[i]
        }),
{
    let b = words_bytes(words);
    let w = words[i];
    let order = word_bytes(w, endianness());
    assert((4 * i) / 4 == i && (4 * i) % 4 == 0);
    assert((4 * i + 1) / 4 == i && (4 * i + 1) % 4 == 1);
    assert((4 * i + 2) / 4 == i && (4 * i + 2) % 4 == 2);
    assert((4 * i + 3) / 4 == i && (4 * i + 3) % 4 == 3);
    assert(b[4 * i] == order[0] && b[4 * i + 1] == order[1] && b[4 * i + 2] == order[2] && b[4 * i
        + 3] == order[3]);
    let x = le_bytes(w);
    assert(word_of_bytes(x[0], x[1], x[2], x[3]) == w) by {
        lemma_bytes(w);
    }
}

proof fn lemma_bytes(w: u32)
    ensures
        w == w % 0x100 + 256 * (w / 0x100 % 0x100) + 65536 * (w / 0x1_0000 % 0x100) + 16777216 * (w
            / 0x100_0000),
        w / 0x100_0000 < 0x100,
{
}

/// The bytes of a 64-bit number: eight, the lowest first.
pub proof fn law_bytes_of_count(n: u64)
    ensures
        le_bytes64(n).len() == 8,
        ({
            let b = le_bytes64(n);
            word_of_bytes(b[0], b[1], b[2], b[3]) + 0x1_0000_0000 * word_of_bytes(
                b[4],
                b[5],
                b[6],
                b[7],
            ) == n
        }),
{
    let lo = (n % 0x1_0000_0000) as u32;
    let hi = (n / 0x1_0000_0000) as u32;
    lemma_bytes(lo);
    lemma_bytes(hi);
    let b = le_bytes64(n);
    let x = le_bytes(lo);
    let y = le_bytes(hi);
    assert(b[0] == x[0] && b[1] == x[1] && b[2] == x[2] && b[3] == x[3]);
    assert(b[4] == y[0] && b[5] == y[1] && b[6] == y[2] && b[7] == y[3]);
    assert(word_of_bytes(x[0], x[1], x[2], x[3]) == lo);
    assert(word_of_bytes(y[0], y[1], y[2], y[3]) == hi);
}

/// Each part of a snapshot is in the file of its own: the bytes of a file are those
/// of no other words than those of that part.
pub proof fn law_files_of_a_snapshot(snap: GpuSnap, files: SnapFiles, words: Seq<u32>)
    requires
        written(snap, files),
    ensures
        files.node@ == words_bytes(words) <==> words == snap.node@,
        files.vars@ == words_bytes(words) <==> words == snap.vars@,
        files.rbag@ == words_bytes(words) <==> words == snap.rbag@,
        files.work@ == words_bytes(words) <==> words == snap.workers@,
        files.meta@ == words_bytes(words) <==> words == snap.meta@,
        files.nfree@ == words_bytes(words) <==> words == snap.nfree@,
        files.vfree@ == words_bytes(words) <==> words == snap.vfree@,
        files.itrs@ == le_bytes64(snap.itrs),
{
    if files.node@ == words_bytes(words) {
        law_words_bytes_injective(words, snap.node@);
    }
    if files.vars@ == words_bytes(words) {
        law_words_bytes_injective(words, snap.vars@);
    }
    if files.rbag@ == words_bytes(words) {
        law_words_bytes_injective(words, snap.rbag@);
    }
    if files.work@ == words_bytes(words) {
        law_words_bytes_injective(words, snap.workers@);
    }
    if files.meta@ == words_bytes(words) {
        law_words_bytes_injective(words, snap.meta@);
    }
    if files.nfree@ == words_bytes(words) {
        law_words_bytes_injective(words, snap.nfree@);
    }
    if files.vfree@ == words_bytes(words) {
        law_words_bytes_injective(words, snap.vfree@);
    }
}

/// What is read of the files of a snapshot is each part from its own file, and, where
/// there are free lists, the first sixteen words of the shared state. Without free
/// lists it is the first fourteen, and the two heads are found anew.
pub proof fn law_parts_of_a_snapshot(reads: SnapReads, heap: u32, snap: GpuSnap)
    requires
        holds(reads, heap, snap),
    ensures
        words_bytes(snap.node@) == reads.node->Ok_0@,
        words_bytes(snap.vars@) == reads.vars->Ok_0@,
        words_bytes(snap.rbag@) == reads.rbag->Ok_0@,
        words_bytes(snap.workers@) == reads.work->Ok_0@,
        le_bytes64(snap.itrs) == reads.itrs->Ok_0@,
        match reads.free {
            Some(free) => words_bytes(snap.meta@) == reads.meta->Ok_0@.take(64) && words_bytes(
                snap.nfree@,
            ) == free.0->Ok_0@ && words_bytes(snap.vfree@) == free.1->Ok_0@,
            None => words_bytes(snap.meta@.take(14)) == reads.meta->Ok_0@.take(56),
        },
{
}

/// A list of free nodes links every node but number zero whose two words are zero,
/// each once, in ascending order, and no other; a list of free variables every
/// variable but number zero whose word is zero.
pub proof fn law_free_lists(
    node: Seq<u32>,
    vars: Seq<u32>,
    nfree: Seq<u32>,
    vfree: Seq<u32>,
    nhead: u32,
    vhead: u32,
    heap: u32,
    i: int,
)
    requires
        links_free(nfree, nhead, |i: int| node_free(node, i), heap as int),
        links_free(vfree, vhead, |i: int| var_free(vars, i), heap as int),
    ensures
        walk(nfree, nhead as int, heap as nat).contains(i) <==> 1 <= i < heap && 2 * i + 1
            < node.len() && node[2 * i] == 0 && node[2 * i + 1] == 0,
        walk(vfree, vhead as int, heap as nat).contains(i) <==> 1 <= i < heap && i < vars.len()
            && vars[i] == 0,
        forall|j: int, k: int|
            0 <= j < k < walk(nfree, nhead as int, heap as nat).len() ==> #[trigger] walk(
                nfree,
                nhead as int,
                heap as nat,
            )[j] < #[trigger] walk(nfree, nhead as int, heap as nat)[k],
        forall|j: int, k: int|
            0 <= j < k < walk(vfree, vhead as int, heap as nat).len() ==> #[trigger] walk(
                vfree,
                vhead as int,
                heap as nat,
            )[j] < #[trigger] walk(vfree, vhead as int, heap as nat)[k],
        nfree.len() == heap,
        vfree.len() == heap,
        0 <= i < heap && !(1 <= i && 2 * i + 1 < node.len() && node[2 * i] == 0 && node[2 * i + 1]
            == 0) ==> nfree[i] == 0,
        0 <= i < heap && !(1 <= i && i < vars.len() && vars[i] == 0) ==> vfree[i] == 0,
{
    let nf = |i: int| node_free(node, i);
    let vf = |i: int| var_free(vars, i);
    law_freelist_complete(nfree, nhead, nf, heap as nat);
    law_freelist_complete(vfree, vhead, vf, heap as nat);
    assert(free_slots(nf, 1, heap as int).contains(i) <==> 1 <= i < heap && nf(i));
    assert(free_slots(vf, 1, heap as int).contains(i) <==> 1 <= i < heap && vf(i));
    if 0 <= i < heap {
        assert(nfree[i] >= 0 && vfree[i] >= 0);
    }
}

/// The memory at the start, word by word: the root variable has no value, the one
/// redex is a reference to the definition and the root, and all else is zero.
pub proof fn law_fresh_memory(snap: GpuSnap, sizes: Sizes, steps: u32, main_id: u32, i: int)
    requires
        sizes.valid(),
        is_fresh(snap, sizes, steps, main_id),
    ensures
        snap.node@.len() == 2 * sizes.heap,
        snap.vars@.len() == sizes.heap,
        snap.rbag@.len() == 2 * (sizes.nthreads * sizes.rspan + sizes.overflow),
        snap.nfree@.len() == sizes.heap,
        snap.vfree@.len() == sizes.heap,
        snap.itrs == 0,
        0 <= i < snap.node@.len() ==> snap.node@[i] == 0,
        snap.vars@[0] == 0xFFFF_FFFF,
        1 <= i < snap.vars@.len() ==> snap.vars@[i] == 0,
        main_id < 0x2000_0000 ==> snap.rbag@[0] == 8 * main_id + 1,
        snap.rbag@[1] == 0xFFFF_FFF8,
        2 <= i < snap.rbag@.len() ==> snap.rbag@[i] == 0,
        0 <= i < sizes.heap ==> snap.nfree@[i] == 0 && snap.vfree@[i] == 0,
{
    let m = main_id;
    assert(m < 0x2000_0000 ==> (m << 3u32) | 1u32 == 8 * m + 1) by (bit_vector);
}

/// The workers at the start: eight words for each lane. The first lane starts from
/// slot zero, and each further one as many slots behind the one before it as there
/// are for each, at least one, but never behind the last slot. The first lane has one
/// redex, and all else is zero.
pub proof fn law_fresh_workers(snap: GpuSnap, sizes: Sizes, steps: u32, main_id: u32, tid: int)
    requires
        sizes.valid(),
        is_fresh(snap, sizes, steps, main_id),
        0 <= tid < sizes.nthreads,
    ensures
        snap.workers@.len() == 8 * sizes.nthreads,
        snap.workers@[8 * tid + 1] == snap.workers@[8 * tid],
        tid == 0 ==> snap.workers@[0] == 0,
        tid + 1 < sizes.nthreads ==> ({
            let step = if sizes.heap >= sizes.nthreads {
                sizes.heap as int / sizes.nthreads as int
            } else {
                1
            };
            let here = snap.workers@[8 * tid] as int;
            let next = snap.workers@[8 * (tid + 1)] as int;
            next == if here + step < sizes.heap {
                here + step
            } else {
                sizes.heap - 1
            }
        }),
        snap.workers@[8 * tid + 4] == if tid == 0 {
            1int
        } else {
            0
        },
        snap.workers@[8 * tid + 6] == if tid == 0 {
            1int
        } else {
            0
        },
        snap.workers@[8 * tid + 2] == 0 && snap.workers@[8 * tid + 3] == 0 && snap.workers@[8 * tid
            + 5] == 0 && snap.workers@[8 * tid + 7] == 0,
{
    let w = snap.workers@;
    let k = 8 * tid;
    lemma_worker_word(snap, sizes, steps, main_id, tid, 0);
    lemma_worker_word(snap, sizes, steps, main_id, tid, 1);
    lemma_worker_word(snap, sizes, steps, main_id, tid, 2);
    lemma_worker_word(snap, sizes, steps, main_id, tid, 3);
    lemma_worker_word(snap, sizes, steps, main_id, tid, 4);
    lemma_worker_word(snap, sizes, steps, main_id, tid, 5);
    lemma_worker_word(snap, sizes, steps, main_id, tid, 6);
    lemma_worker_word(snap, sizes, steps, main_id, tid, 7);
    let span = sizes.span();
    let heap = sizes.heap as int;
    let n = sizes.nthreads as int;
    if tid == 0 {
        assert(0 * span == 0);
    }
    if heap < n {
        assert(heap / n == 0) by (nonlinear_arith)
            requires
                0 <= heap < n,
        ;
    } else {
        assert(heap / n >= 1) by (nonlinear_arith)
            requires
                1 <= n <= heap,
        ;
    }
    if tid + 1 < sizes.nthreads {
        lemma_worker_word(snap, sizes, steps, main_id, tid + 1, 0);
        assert((tid + 1) * span == tid * span + span) by (nonlinear_arith);
        assert(span >= 1);
    }
}

proof fn lemma_worker_word(
    snap: GpuSnap,
    sizes: Sizes,
    steps: u32,
    main_id: u32,
    tid: int,
    k: int,
)
    requires
        is_fresh(snap, sizes, steps, main_id),
        0 <= tid < sizes.nthreads,
        0 <= k < 8,
    ensures
        snap.workers@[8 * tid + k] == if k <= 1 {
            sizes.base(tid)
        } else if tid == 0 && (k == 4 || k == 6) {
            1
        } else {
            0
        },
{
    assert(snap.workers@[8 * tid + k] == fresh_worker_word(sizes, 8 * tid + k));
    assert((8 * tid + k) % 8 == k && (8 * tid + k) / 8 == tid);
}

/// The shared state at the start: the heap for nodes and for variables, the steps of
/// a dispatch, the lanes, the redexes of a lane, a one for each rover, where the
/// shared redexes start and how many there may be; all else is zero.
pub proof fn law_fresh_state(snap: GpuSnap, sizes: Sizes, steps: u32, main_id: u32)
    requires
        sizes.valid(),
        is_fresh(snap, sizes, steps, main_id),
    ensures
        ({
            let m = snap.meta@;
            &&& m.len() == 16
            &&& m[0] == 0 && m[1] == 0 && m[2] == 0
            &&& m[3] == sizes.heap
            &&& m[4] == sizes.heap
            &&& m[5] == steps
            &&& m[6] == sizes.nthreads
            &&& m[7] == sizes.rspan
            &&& m[8] == 0
            &&& m[9] == 1 && m[10] == 1
            &&& m[11] == 0
            &&& m[12] == sizes.nthreads * sizes.rspan
            &&& m[13] == sizes.overflow
            &&& m[14] == 0 && m[15] == 0
        }),
{
    assert(0 <= sizes.nthreads * sizes.rspan <= u32::MAX) by {
        assert(sizes.nthreads * sizes.rspan >= 0) by (nonlinear_arith)
            requires
                sizes.nthreads >= 0,
                sizes.rspan >= 0,
        ;
    }
}

/// The shared state that a worker begins with and that it leaves: the words that are
/// set, and every other word as it was.
pub proof fn law_shared_words(
    meta: Seq<u32>,
    nthreads: u32,
    heap: u32,
    remaining: u32,
    steps: u32,
    i: int,
)
    requires
        meta.len() == 16,
        0 <= i < 16,
    ensures
        fitted_meta(meta, nthreads, heap).len() == 16,
        fitted_meta(meta, nthreads, heap)[i] == if i == 6 {
            nthreads
        } else if i == 3 || i == 4 {
            heap
        } else {
            meta[i]
        },
        recycled_meta(meta, remaining, steps).len() == 16,
        recycled_meta(meta, remaining, steps)[i] == if i == 0 {
            0
        } else if i == 8 {
            remaining
        } else if i == 5 {
            steps
        } else {
            meta[i]
        },
{
}

/// A list that is cut or filled up keeps what it has, and what is added is zero.
pub proof fn law_resized(list: Seq<u32>, n: nat)
    ensures
        resized(list, n).len() == n,
        n <= list.len() ==> resized(list, n) == list.take(n as int),
        n >= list.len() ==> resized(list, n).take(list.len() as int) == list,
        forall|i: int| list.len() <= i < n ==> #[trigger] resized(list, n)[i] == 0,
{
    if n <= list.len() {
        assert(resized(list, n) =~= list.take(n as int));
    }
    if n >= list.len() {
        assert(resized(list, n).take(list.len() as int) =~= list);
    }
}

/// What is said of a file that cannot be read is its path and what went wrong; of one
/// that is no whole words, its path. Nothing is wrong with any other.
pub proof fn law_file_errors(path: Seq<char>, read: Result<Vec<u8>, String>, words: Seq<u32>)
    ensures
        match read {
            Ok(bytes) => {
                &&& bytes@ == words_bytes(words) ==> file_error(path, read) is None
                &&& bytes@.len() % 4 == 0 <==> file_error(path, read) is None
                &&& bytes@.len() % 4 != 0 ==> file_error(path, read) == Some(
                    path + ": not u32-aligned"@,
                )
            },
            Err(e) => file_error(path, read) == Some("read "@ + path + ": "@ + e@),
        },
{
    assert(words_bytes(words).len() == 4 * words.len());
}

/// What is said of a count of interactions that cannot be read is what went wrong; one
/// that is not eight bytes is said to be no count. Nothing is wrong with any other.
pub proof fn law_count_errors(read: Result<Vec<u8>, String>)
    ensures
        match read {
            Ok(bytes) => {
                &&& bytes@.len() == 8 <==> itrs_error(read) is None
                &&& bytes@.len() != 8 ==> itrs_error(read) == Some("itrs.bin"@)
            },
            Err(e) => itrs_error(read) == Some(e@),
        },
{
}

/// What is wrong with each file of a snapshot, in the order in which they are read:
/// the interactions, the nodes, the variables, the redexes, the workers, the shared
/// state, and then the free lists, where there are any.
pub open spec fn file_errors(paths: SnapPaths, reads: SnapReads) -> Seq<Option<Seq<char>>> {
    seq![
        itrs_error(reads.itrs),
        file_error(paths.node@, reads.node),
        file_error(paths.vars@, reads.vars),
        file_error(paths.rbag@, reads.rbag),
        file_error(paths.work@, reads.work),
        file_error(paths.meta@, reads.meta),
    ] + match reads.free {
        Some(free) => seq![file_error(paths.nfree@, free.0), file_error(paths.vfree@, free.1)],
        None => Seq::empty(),
    }
}

/// Of several files that are wrong, the first one is reported; and a snapshot is read
/// where none is wrong.
pub proof fn law_first_wrong_file(paths: SnapPaths, reads: SnapReads, i: int)
    ensures
        ({
            let errors = file_errors(paths, reads);
            let error = first_error(state_error(paths, reads), free_error(paths, reads));
            &&& 0 <= i < errors.len() && errors[i] is Some && (forall|j: int|
                0 <= j < i ==> #[trigger] errors[j] is None) ==> error == errors[i]
            &&& (forall|j: int| 0 <= j < errors.len() ==> #[trigger] errors[j] is None)
                ==> error is None
        }),
{
    let errors = file_errors(paths, reads);
    assert(errors[0] == itrs_error(reads.itrs));
    assert(errors[1] == file_error(paths.node@, reads.node));
    assert(errors[2] == file_error(paths.vars@, reads.vars));
    assert(errors[3] == file_error(paths.rbag@, reads.rbag));
    assert(errors[4] == file_error(paths.work@, reads.work));
    assert(errors[5] == file_error(paths.meta@, reads.meta));
    match reads.free {
        Some(free) => {
            assert(errors[6] == file_error(paths.nfree@, free.0));
            assert(errors[7] == file_error(paths.vfree@, free.1));
        },
        None => {},
    }
}

/// A snapshot can be asked for unless its shared state is cut short, at less than
/// sixty-four bytes, while nothing is wrong up to there.
pub proof fn law_short_state(paths: SnapPaths, reads: SnapReads)
    ensures
        has_meta(reads) <==> {
            ||| state_error(paths, reads) is Some
            ||| reads.meta->Ok_0@.len() >= 64
        },
{
}

} // verus!
