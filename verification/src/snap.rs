//! Snapshots of the device's memory.
use vstd::endian::{endianness, Endian};
use vstd::prelude::*;

verus! {

/// How many words of state host and device share.
pub const META_WORDS: usize = 16;

pub const M_ITRS: usize = 0;

pub const M_OOM: usize = 1;

pub const M_ERR: usize = 2;

pub const M_NLEN: usize = 3;

pub const M_VLEN: usize = 4;

pub const M_MAX: usize = 5;

pub const M_NTHREADS: usize = 6;

pub const M_RSPAN: usize = 7;

pub const M_RLEN: usize = 8;

pub const M_NROVER: usize = 9;

pub const M_VROVER: usize = 10;

pub const M_OFLOW: usize = 11;

pub const M_OFLOW_BASE: usize = 12;

pub const M_OFLOW_CAP: usize = 13;

pub const M_NFREE: usize = 14;

pub const M_VFREE: usize = 15;

/// The bytes of a word, the lowest first.
pub open spec fn le_bytes(word: u32) -> Seq<u8> {
    seq![
        (word % 0x100) as u8,
        (word / 0x100 % 0x100) as u8,
        (word / 0x1_0000 % 0x100) as u8,
        (word / 0x100_0000) as u8,
    ]
}

/// The bytes of a word in this order.
pub open spec fn word_bytes(word: u32, order: Endian) -> Seq<u8> {
    match order {
        Endian::Little => le_bytes(word),
        Endian::Big => le_bytes(word).reverse(),
    }
}

/// The bytes of words, one after the other, in the order of the machine.
pub open spec fn words_bytes(words: Seq<u32>) -> Seq<u8> {
    Seq::new(4 * words.len(), |i: int| word_bytes(words[i / 4], endianness())[i % 4])
}

/// `bytemuck::cast_slice`, from words to bytes: the same memory, so each word
/// as its four bytes in the order of the machine.
#[verifier::external_body]
fn cast_bytes(words: &[u32]) -> (r: &[u8])
    ensures
        r@ == words_bytes(words@),
{
    bytemuck::cast_slice(words)
}

/// `bytemuck::pod_read_unaligned`, of four bytes: the word that has these bytes
/// in the order of the machine.
#[verifier::external_body]
fn read_word(bytes: &[u8]) -> (r: u32)
    requires
        bytes@.len() == 4,
    ensures
        word_bytes(r, endianness()) == bytes@,
{
    bytemuck::pod_read_unaligned(bytes)
}

/// The bytes of the words, in the order of the machine.
pub fn words_to_bytes(words: &[u32]) -> (r: Vec<u8>)
    ensures
        r@ == words_bytes(words@),
{
    vstd::slice::slice_to_vec(cast_bytes(words))
}

/// A word is told by its bytes.
proof fn lemma_word_bytes_injective(a: u32, b: u32, order: Endian)
    requires
        word_bytes(a, order) == word_bytes(b, order),
    ensures
        a == b,
{
    let x = word_bytes(a, order);
    let y = word_bytes(b, order);
    assert(x[0] == y[0] && x[1] == y[1] && x[2] == y[2] && x[3] == y[3]);
}

/// Words are told by their bytes: what was written is what is read.
pub proof fn law_words_bytes_injective(a: Seq<u32>, b: Seq<u32>)
    requires
        words_bytes(a) == words_bytes(b),
    ensures
        a == b,
{
    assert(words_bytes(a).len() == 4 * a.len());
    assert(words_bytes(b).len() == 4 * b.len());
    assert(a.len() == b.len());
    assert forall|i: int| 0 <= i < a.len() implies a[i] == b[i] by {
        let x = word_bytes(a[i], endianness());
        let y = word_bytes(b[i], endianness());
        assert forall|k: int| 0 <= k < 4 implies x[k] == y[k] by {
            assert((4 * i + k) / 4 == i && (4 * i + k) % 4 == k);
            assert(words_bytes(a)[4 * i + k] == x[k]);
            assert(words_bytes(b)[4 * i + k] == y[k]);
        }
        assert(x =~= y);
        lemma_word_bytes_injective(a[i], b[i], endianness());
    }
    assert(a =~= b);
}

/// The words that have these bytes, in the order of the machine.
pub fn words_from_bytes(bytes: &[u8]) -> (r: Vec<u32>)
    requires
        bytes@.len() % 4 == 0,
    ensures
        words_bytes(r@) == bytes@,
{
    let mut words: Vec<u32> = Vec::new();
    let len = bytes.len();
    let mut i: usize = 0;
    proof {
        assert(words_bytes(words@) =~= bytes@.take(0));
    }
    while i < len
        invariant
            len == bytes@.len(),
            len % 4 == 0,
            i <= len,
            i == 4 * words@.len(),
            words_bytes(words@) == bytes@.take(i as int),
        decreases len - i,
    {
        let ghost before = words@;
        let word = read_word(vstd::slice::slice_subrange(bytes, i, i + 4));
        words.push(word);
        proof {
            let four = word_bytes(word, endianness());
            assert forall|k: int| 0 <= k < i + 4 implies words_bytes(words@)[k] == bytes@[k] by {
                if k < i {
                    assert(words_bytes(words@)[k] == words_bytes(before)[k]);
                    assert(words_bytes(before)[k] == bytes@.take(i as int)[k]);
                } else {
                    assert(k / 4 == before.len() && k % 4 == k - i);
                    assert(four[k - i] == bytes@.subrange(i as int, i + 4)[k - i]);
                }
            }
            assert(words_bytes(words@) =~= bytes@.take(i + 4));
        }
        i += 4;
    }
    proof {
        assert(bytes@.take(i as int) =~= bytes@);
    }
    words
}

/// What is said of a snapshot file at `path` that could not be read, or whose
/// bytes are no whole words. `read` is what reading it gave: its bytes, or what
/// went wrong.
pub open spec fn file_error(path: Seq<char>, read: Result<Vec<u8>, String>) -> Option<Seq<char>> {
    match read {
        Ok(bytes) => if bytes@.len() % 4 != 0 {
            Some(path + ": not u32-aligned"@)
        } else {
            None
        },
        Err(e) => Some("read "@ + path + ": "@ + e@),
    }
}

/// The words are those of a file that was read.
pub open spec fn file_holds(read: Result<Vec<u8>, String>, words: Seq<u32>) -> bool {
    read matches Ok(bytes) && words_bytes(words) == bytes@
}

/// The words of the snapshot file at `path`; an error where it could not be read
/// and where its bytes are no whole words.
pub fn read_snap_u32s(path: &str, read: &Result<Vec<u8>, String>) -> (r: Result<Vec<u32>, String>)
    ensures
        match r {
            Ok(words) => file_error(path@, *read) is None && file_holds(*read, words@),
            Err(e) => file_error(path@, *read) == Some(e@),
        },
{
    match read {
        Ok(bytes) => {
            if bytes.len() % 4 != 0 {
                let mut e = path.to_owned();
                e.append(": not u32-aligned");
                return Err(e);
            }
            Ok(words_from_bytes(bytes.as_slice()))
        },
        Err(io) => {
            let mut e = "read ".to_owned();
            e.append(path);
            e.append(": ");
            e.append(io.as_str());
            Err(e)
        },
    }
}

/// The bytes of a 64-bit number, the lowest first.
pub open spec fn le_bytes64(n: u64) -> Seq<u8> {
    le_bytes((n % 0x1_0000_0000) as u32) + le_bytes((n / 0x1_0000_0000) as u32)
}

fn push_le(out: &mut Vec<u8>, word: u32)
    ensures
        final(out)@ == old(out)@ + le_bytes(word),
{
    out.push((word % 0x100) as u8);
    out.push((word / 0x100 % 0x100) as u8);
    out.push((word / 0x1_0000 % 0x100) as u8);
    out.push((word / 0x100_0000) as u8);
}

fn itrs_to_bytes(itrs: u64) -> (r: Vec<u8>)
    ensures
        r@ == le_bytes64(itrs),
{
    let mut out: Vec<u8> = Vec::new();
    push_le(&mut out, (itrs % 0x1_0000_0000) as u32);
    push_le(&mut out, (itrs / 0x1_0000_0000) as u32);
    out
}

fn read_le(bytes: &Vec<u8>, i: usize) -> (r: u32)
    requires
        i + 4 <= bytes@.len(),
    ensures
        le_bytes(r) == bytes@.subrange(i as int, i + 4),
{
    let len = bytes.len();
    let b0 = bytes[i] as u32;
    let b1 = bytes[i + 1] as u32;
    let b2 = bytes[i + 2] as u32;
    let b3 = bytes[i + 3] as u32;
    let r: u32 = b0 + b1 * 0x100 + b2 * 0x1_0000 + b3 * 0x100_0000;
    proof {
        assert(r % 0x100 == b0 && r / 0x100 % 0x100 == b1 && r / 0x1_0000 % 0x100 == b2 && r
            / 0x100_0000 == b3) by (bit_vector)
            requires
                b0 < 0x100,
                b1 < 0x100,
                b2 < 0x100,
                b3 < 0x100,
                r == b0 + b1 * 0x100 + b2 * 0x1_0000 + b3 * 0x100_0000,
        ;
        assert(le_bytes(r) =~= bytes@.subrange(i as int, i + 4));
    }
    r
}

/// What is said of a count of interactions that could not be read or is not eight
/// bytes.
pub open spec fn itrs_error(read: Result<Vec<u8>, String>) -> Option<Seq<char>> {
    match read {
        Ok(bytes) => if bytes@.len() != 8 {
            Some("itrs.bin"@)
        } else {
            None
        },
        Err(e) => Some(e@),
    }
}

fn itrs_from_bytes(read: &Result<Vec<u8>, String>) -> (r: Result<u64, String>)
    ensures
        match r {
            Ok(itrs) => itrs_error(*read) is None && (*read matches Ok(bytes) && le_bytes64(itrs)
                == bytes@),
            Err(e) => itrs_error(*read) == Some(e@),
        },
{
    match read {
        Ok(bytes) => {
            if bytes.len() != 8 {
                return Err("itrs.bin".to_owned());
            }
            let low = read_le(bytes, 0);
            let high = read_le(bytes, 4);
            let itrs: u64 = low as u64 + high as u64 * 0x1_0000_0000;
            proof {
                assert(le_bytes64(itrs) =~= bytes@);
            }
            Ok(itrs)
        },
        Err(io) => Err(io.clone()),
    }
}

proof fn lemma_le_bytes64_injective(a: u64, b: u64)
    requires
        le_bytes64(a) == le_bytes64(b),
    ensures
        a == b,
{
    let x = le_bytes64(a);
    let y = le_bytes64(b);
    assert(le_bytes((a % 0x1_0000_0000) as u32) =~= x.take(4));
    assert(le_bytes((b % 0x1_0000_0000) as u32) =~= y.take(4));
    assert(le_bytes((a / 0x1_0000_0000) as u32) =~= x.skip(4));
    assert(le_bytes((b / 0x1_0000_0000) as u32) =~= y.skip(4));
    lemma_word_bytes_injective(
        (a % 0x1_0000_0000) as u32,
        (b % 0x1_0000_0000) as u32,
        Endian::Little,
    );
    lemma_word_bytes_injective(
        (a / 0x1_0000_0000) as u32,
        (b / 0x1_0000_0000) as u32,
        Endian::Little,
    );
}

/// Both words of node `i` are zero.
pub open spec fn node_free(node: Seq<u32>, i: int) -> bool {
    2 * i + 1 < node.len() && node[2 * i] == 0 && node[2 * i + 1] == 0
}

/// The word of variable `i` is zero.
pub open spec fn var_free(vars: Seq<u32>, i: int) -> bool {
    i < vars.len() && vars[i] == 0
}

/// The first free slot from `i` on below `n`; zero where there is none.
pub open spec fn next_free(free: spec_fn(int) -> bool, i: int, n: int) -> int
    decreases n - i,
{
    if i >= n {
        0
    } else if free(i) {
        i
    } else {
        next_free(free, i + 1, n)
    }
}

/// `list` links the free slots above zero and below `n` in ascending order:
/// `head` is the first, and each one names the next; zero ends the list and
/// stands at the other slots.
pub open spec fn links_free(
    list: Seq<u32>,
    head: u32,
    free: spec_fn(int) -> bool,
    n: int,
) -> bool {
    &&& list.len() == n
    &&& head == next_free(free, 1, n)
    &&& forall|i: int|
        0 <= i < n ==> #[trigger] list[i] == if i > 0 && free(i) {
            next_free(free, i + 1, n)
        } else {
            0
        }
}

/// The slots that a list links, from `at` on, at most `n` of them.
pub open spec fn walk(list: Seq<u32>, at: int, n: nat) -> Seq<int>
    decreases n,
{
    if at == 0 || n == 0 {
        Seq::empty()
    } else {
        seq![at] + walk(list, list[at] as int, (n - 1) as nat)
    }
}

/// The free slots from `i` on below `n`, in ascending order.
pub open spec fn free_slots(free: spec_fn(int) -> bool, i: int, n: int) -> Seq<int>
    decreases n - i,
{
    if i >= n {
        Seq::empty()
    } else if free(i) {
        seq![i] + free_slots(free, i + 1, n)
    } else {
        free_slots(free, i + 1, n)
    }
}

proof fn lemma_walk(list: Seq<u32>, head: u32, free: spec_fn(int) -> bool, n: int, i: int, m: nat)
    requires
        links_free(list, head, free, n),
        1 <= i,
        m >= n - i,
    ensures
        walk(list, next_free(free, i, n), m) == free_slots(free, i, n),
    decreases n - i,
{
    if i >= n {
    } else if free(i) {
        lemma_walk(list, head, free, n, i + 1, (m - 1) as nat);
        assert(list[i] == next_free(free, i + 1, n));
    } else {
        lemma_walk(list, head, free, n, i + 1, m);
    }
}

/// Following a list from its head meets every free slot but slot zero, each
/// once, in ascending order, and nothing else.
pub proof fn law_freelist_complete(
    list: Seq<u32>,
    head: u32,
    free: spec_fn(int) -> bool,
    n: nat,
)
    requires
        links_free(list, head, free, n as int),
    ensures
        walk(list, head as int, n) == free_slots(free, 1, n as int),
        forall|i: int|
            #![trigger free_slots(free, 1, n as int).contains(i)]
            free_slots(free, 1, n as int).contains(i) <==> 1 <= i < n && free(i),
        forall|i: int, j: int|
            0 <= i < j < free_slots(free, 1, n as int).len() ==> #[trigger] free_slots(
                free,
                1,
                n as int,
            )[i] < #[trigger] free_slots(free, 1, n as int)[j],
{
    lemma_walk(list, head, free, n as int, 1, n);
    assert forall|i: int|
        #![trigger free_slots(free, 1, n as int).contains(i)]
        free_slots(free, 1, n as int).contains(i) <==> 1 <= i < n && free(i) by {
        lemma_free_slots(free, 1, n as int, i);
    }
    lemma_free_slots_ascend(free, 1, n as int);
}

proof fn lemma_free_slots(free: spec_fn(int) -> bool, i: int, n: int, x: int)
    ensures
        free_slots(free, i, n).contains(x) <==> i <= x < n && free(x),
    decreases n - i,
{
    if i < n {
        let rest = free_slots(free, i + 1, n);
        lemma_free_slots(free, i + 1, n, x);
        if free(i) {
            let all = seq![i] + rest;
            if x == i {
                assert(all[0] == x);
            } else if rest.contains(x) {
                let k = choose|k: int| 0 <= k < rest.len() && rest[k] == x;
                assert(all[k + 1] == x);
            } else if all.contains(x) {
                let k = choose|k: int| 0 <= k < all.len() && all[k] == x;
                assert(rest[k - 1] == x);
            }
        }
    }
}

proof fn lemma_free_slots_ascend(free: spec_fn(int) -> bool, i: int, n: int)
    ensures
        forall|j: int, k: int|
            0 <= j < k < free_slots(free, i, n).len() ==> #[trigger] free_slots(free, i, n)[j]
                < #[trigger] free_slots(free, i, n)[k],
    decreases n - i,
{
    if i < n {
        lemma_free_slots_ascend(free, i + 1, n);
        if free(i) {
            let rest = free_slots(free, i + 1, n);
            let all = free_slots(free, i, n);
            assert forall|j: int, k: int| 0 <= j < k < all.len() implies #[trigger] all[j]
                < #[trigger] all[k] by {
                assert(all[k] == rest[k - 1]);
                if j == 0 {
                    lemma_free_slots(free, i + 1, n, rest[k - 1]);
                    assert(rest.contains(rest[k - 1]));
                } else {
                    assert(all[j] == rest[j - 1]);
                }
            }
        } else {
            assert(free_slots(free, i, n) == free_slots(free, i + 1, n));
        }
    }
}

/// Links every zero node and every zero variable below `heap`, but not number
/// zero, into a list each, and sets the heads of the lists.
pub fn rebuild_freelists(
    node: &Vec<u32>,
    vars: &Vec<u32>,
    heap: u32,
    meta: &mut [u32; 16],
) -> (r: (Vec<u32>, Vec<u32>))
    ensures
        final(meta)@ == old(meta)@.update(M_NFREE as int, final(meta)@[M_NFREE as int]).update(
            M_VFREE as int,
            final(meta)@[M_VFREE as int],
        ),
        links_free(
            r.0@,
            final(meta)@[M_NFREE as int],
            |i: int| node_free(node@, i),
            heap as int,
        ),
        links_free(
            r.1@,
            final(meta)@[M_VFREE as int],
            |i: int| var_free(vars@, i),
            heap as int,
        ),
{
    let n = heap as usize;
    let ghost nf = |i: int| node_free(node@, i);
    let ghost vf = |i: int| var_free(vars@, i);
    let mut nfree: Vec<u32> = vec![0u32; n];
    let mut vfree: Vec<u32> = vec![0u32; n];
    let mut nhead: u32 = 0;
    let mut vhead: u32 = 0;
    let mut i: usize = n;
    while i > 1
        invariant
            n == heap,
            i <= n,
            i >= 1 || n == 0,
            nf == (|i: int| node_free(node@, i)),
            vf == (|i: int| var_free(vars@, i)),
            nfree@.len() == n,
            vfree@.len() == n,
            nhead == next_free(nf, i as int, n as int),
            vhead == next_free(vf, i as int, n as int),
            forall|j: int|
                0 <= j < n ==> #[trigger] nfree@[j] == if j >= i && nf(j) {
                    next_free(nf, j + 1, n as int)
                } else {
                    0
                },
            forall|j: int|
                0 <= j < n ==> #[trigger] vfree@[j] == if j >= i && vf(j) {
                    next_free(vf, j + 1, n as int)
                } else {
                    0
                },
        decreases i,
    {
        i = i - 1;
        if i < node.len() / 2 && node[2 * i] == 0 && node[2 * i + 1] == 0 {
            nfree.set(i, nhead);
            nhead = i as u32;
        }
        if i < vars.len() && vars[i] == 0 {
            vfree.set(i, vhead);
            vhead = i as u32;
        }
    }
    meta[M_NFREE] = nhead;
    meta[M_VFREE] = vhead;
    (nfree, vfree)
}

/// The memory of the device between two runs: nodes as two words each,
/// variables, redexes as two words each, the workers' state, the shared state,
/// the free lists, and the interactions so far.
pub struct GpuSnap {
    pub node: Vec<u32>,
    pub vars: Vec<u32>,
    pub rbag: Vec<u32>,
    pub workers: Vec<u32>,
    pub meta: [u32; 16],
    pub nfree: Vec<u32>,
    pub vfree: Vec<u32>,
    pub itrs: u64,
}

/// The bytes of the files of a snapshot.
pub struct SnapFiles {
    pub node: Vec<u8>,
    pub vars: Vec<u8>,
    pub rbag: Vec<u8>,
    pub work: Vec<u8>,
    pub meta: Vec<u8>,
    pub itrs: Vec<u8>,
    pub nfree: Vec<u8>,
    pub vfree: Vec<u8>,
}

/// What reading the files of a snapshot gave: of each its bytes, or what went
/// wrong. The two free lists may be missing.
pub struct SnapReads {
    pub node: Result<Vec<u8>, String>,
    pub vars: Result<Vec<u8>, String>,
    pub rbag: Result<Vec<u8>, String>,
    pub work: Result<Vec<u8>, String>,
    pub meta: Result<Vec<u8>, String>,
    pub itrs: Result<Vec<u8>, String>,
    pub free: Option<(Result<Vec<u8>, String>, Result<Vec<u8>, String>)>,
}

/// The paths of the files of a snapshot: nodes, variables, redexes, workers,
/// shared state, interactions, free nodes and free variables.
pub struct SnapPaths {
    pub node: String,
    pub vars: String,
    pub rbag: String,
    pub work: String,
    pub meta: String,
    pub itrs: String,
    pub nfree: String,
    pub vfree: String,
}

/// The paths of the files of a snapshot. `join` is asked for the path of a file
/// in the directory of the snapshot, given by its name.
pub fn snap_paths<F: Fn(&'static str) -> String>(join: &F) -> (r: SnapPaths)
    requires
        forall|name: &'static str| #[trigger] join.requires((name,)),
    ensures
        join.ensures(("node.bin",), r.node),
        join.ensures(("vars.bin",), r.vars),
        join.ensures(("rbag.bin",), r.rbag),
        join.ensures(("work.bin",), r.work),
        join.ensures(("meta.bin",), r.meta),
        join.ensures(("itrs.bin",), r.itrs),
        join.ensures(("nfree.bin",), r.nfree),
        join.ensures(("vfree.bin",), r.vfree),
{
    SnapPaths {
        node: join("node.bin"),
        vars: join("vars.bin"),
        rbag: join("rbag.bin"),
        work: join("work.bin"),
        meta: join("meta.bin"),
        itrs: join("itrs.bin"),
        nfree: join("nfree.bin"),
        vfree: join("vfree.bin"),
    }
}

/// The files hold the snapshot.
pub open spec fn written(snap: GpuSnap, files: SnapFiles) -> bool {
    &&& files.node@ == words_bytes(snap.node@)
    &&& files.vars@ == words_bytes(snap.vars@)
    &&& files.rbag@ == words_bytes(snap.rbag@)
    &&& files.work@ == words_bytes(snap.workers@)
    &&& files.meta@ == words_bytes(snap.meta@)
    &&& files.itrs@ == le_bytes64(snap.itrs)
    &&& files.nfree@ == words_bytes(snap.nfree@)
    &&& files.vfree@ == words_bytes(snap.vfree@)
}

/// The files of the snapshot.
pub fn write_snap(snap: &GpuSnap) -> (r: SnapFiles)
    ensures
        written(*snap, r),
{
    SnapFiles {
        node: words_to_bytes(snap.node.as_slice()),
        vars: words_to_bytes(snap.vars.as_slice()),
        rbag: words_to_bytes(snap.rbag.as_slice()),
        work: words_to_bytes(snap.workers.as_slice()),
        meta: words_to_bytes(snap.meta.as_slice()),
        itrs: itrs_to_bytes(snap.itrs),
        nfree: words_to_bytes(snap.nfree.as_slice()),
        vfree: words_to_bytes(snap.vfree.as_slice()),
    }
}

/// What was read are the files.
pub open spec fn delivered(files: SnapFiles, reads: SnapReads) -> bool {
    &&& reads.node matches Ok(bytes) && bytes@ == files.node@
    &&& reads.vars matches Ok(bytes) && bytes@ == files.vars@
    &&& reads.rbag matches Ok(bytes) && bytes@ == files.rbag@
    &&& reads.work matches Ok(bytes) && bytes@ == files.work@
    &&& reads.meta matches Ok(bytes) && bytes@ == files.meta@
    &&& reads.itrs matches Ok(bytes) && bytes@ == files.itrs@
    &&& reads.free matches Some(free) && (free.0 matches Ok(bytes) && bytes@ == files.nfree@) && (
    free.1 matches Ok(bytes) && bytes@ == files.vfree@)
}

/// The first of two errors.
pub open spec fn first_error(a: Option<Seq<char>>, b: Option<Seq<char>>) -> Option<Seq<char>> {
    if a is Some {
        a
    } else {
        b
    }
}

/// The error with which reading a snapshot ends before the free lists, if any.
pub open spec fn state_error(paths: SnapPaths, reads: SnapReads) -> Option<Seq<char>> {
    first_error(
        itrs_error(reads.itrs),
        first_error(
            file_error(paths.node@, reads.node),
            first_error(
                file_error(paths.vars@, reads.vars),
                first_error(
                    file_error(paths.rbag@, reads.rbag),
                    first_error(
                        file_error(paths.work@, reads.work),
                        file_error(paths.meta@, reads.meta),
                    ),
                ),
            ),
        ),
    )
}

/// The error with which reading the free lists ends, if any.
pub open spec fn free_error(paths: SnapPaths, reads: SnapReads) -> Option<Seq<char>> {
    match reads.free {
        Some(free) => first_error(
            file_error(paths.nfree@, free.0),
            file_error(paths.vfree@, free.1),
        ),
        None => None,
    }
}

/// A file was read and its bytes are whole words.
pub open spec fn whole_words(read: Result<Vec<u8>, String>) -> bool {
    read matches Ok(bytes) && bytes@.len() % 4 == 0
}

/// Where nothing else is wrong before, the shared state that was read is as long
/// as it has to be.
pub open spec fn has_meta(reads: SnapReads) -> bool {
    itrs_error(reads.itrs) is None && whole_words(reads.node) && whole_words(reads.vars)
        && whole_words(reads.rbag) && whole_words(reads.work) && whole_words(reads.meta)
        ==> reads.meta->Ok_0@.len() >= 64
}

fn reads_well(read: &Result<Vec<u8>, String>) -> (r: bool)
    ensures
        r == whole_words(*read),
{
    match read {
        Ok(bytes) => bytes.len() % 4 == 0,
        Err(_) => false,
    }
}

/// Whether `read_snap` can be asked: the shared state that was read is as long as
/// it has to be, or something else is wrong before.
pub fn is_complete(reads: &SnapReads) -> (r: bool)
    ensures
        r == has_meta(*reads),
{
    let itrs = match &reads.itrs {
        Ok(bytes) => bytes.len() == 8,
        Err(_) => false,
    };
    if !(itrs && reads_well(&reads.node) && reads_well(&reads.vars) && reads_well(&reads.rbag)
        && reads_well(&reads.work) && reads_well(&reads.meta)) {
        return true;
    }
    match &reads.meta {
        Ok(bytes) => bytes.len() >= 64,
        Err(_) => true,
    }
}

/// The snapshot is what was read; free lists that are missing are rebuilt for a
/// heap of `heap` slots.
pub open spec fn holds(reads: SnapReads, heap: u32, snap: GpuSnap) -> bool {
    &&& file_holds(reads.node, snap.node@)
    &&& file_holds(reads.vars, snap.vars@)
    &&& file_holds(reads.rbag, snap.rbag@)
    &&& file_holds(reads.work, snap.workers@)
    &&& reads.itrs matches Ok(bytes) && le_bytes64(snap.itrs) == bytes@
    &&& reads.meta matches Ok(meta) && match reads.free {
        Some(free) => {
            &&& words_bytes(snap.meta@) == meta@.take(64)
            &&& file_holds(free.0, snap.nfree@)
            &&& file_holds(free.1, snap.vfree@)
        },
        None => {
            &&& words_bytes(snap.meta@.take(14)) == meta@.take(56)
            &&& links_free(
                snap.nfree@,
                snap.meta@[M_NFREE as int],
                |i: int| node_free(snap.node@, i),
                heap as int,
            )
            &&& links_free(
                snap.vfree@,
                snap.meta@[M_VFREE as int],
                |i: int| var_free(snap.vars@, i),
                heap as int,
            )
        },
    }
}

proof fn lemma_words_bytes_take(words: Seq<u32>, n: int)
    requires
        0 <= n <= words.len(),
    ensures
        words_bytes(words.take(n)) == words_bytes(words).take(4 * n),
{
    assert(words_bytes(words.take(n)) =~= words_bytes(words).take(4 * n));
}

/// The snapshot that was read from the files at these paths, for a heap of `heap`
/// slots. It is an error where a file could not be read or is no whole words, and
/// where the count of interactions is not eight bytes.
pub fn read_snap(paths: &SnapPaths, reads: &SnapReads, heap: u32) -> (r: Result<GpuSnap, String>)
    requires
        has_meta(*reads),
    ensures
        match r {
            Ok(snap) => state_error(*paths, *reads) is None && free_error(*paths, *reads) is None
                && holds(*reads, heap, snap),
            Err(e) => first_error(state_error(*paths, *reads), free_error(*paths, *reads)) == Some(
                e@,
            ),
        },
{
    let itrs = itrs_from_bytes(&reads.itrs)?;
    let node = read_snap_u32s(paths.node.as_str(), &reads.node)?;
    let vars = read_snap_u32s(paths.vars.as_str(), &reads.vars)?;
    let rbag = read_snap_u32s(paths.rbag.as_str(), &reads.rbag)?;
    let workers = read_snap_u32s(paths.work.as_str(), &reads.work)?;
    let words = read_snap_u32s(paths.meta.as_str(), &reads.meta)?;
    proof {
        assert(words_bytes(words@).len() == 4 * words@.len());
    }
    let mut meta: [u32; 16] = [0u32; 16];
    let mut i: usize = 0;
    while i < 16
        invariant
            i <= 16,
            words@.len() >= 16,
            meta@.len() == 16,
            forall|j: int| 0 <= j < i ==> meta@[j] == words@[j],
        decreases 16 - i,
    {
        meta[i] = words[i];
        i += 1;
    }
    proof {
        assert(meta@ =~= words@.take(16));
        lemma_words_bytes_take(words@, 16);
        lemma_words_bytes_take(words@, 14);
    }
    let (nfree, vfree) = match &reads.free {
        Some(free) => (
            read_snap_u32s(paths.nfree.as_str(), &free.0)?,
            read_snap_u32s(paths.vfree.as_str(), &free.1)?,
        ),
        None => {
            let free = rebuild_freelists(&node, &vars, heap, &mut meta);
            proof {
                assert(meta@.take(14) =~= words@.take(14));
            }
            free
        },
    };
    Ok(GpuSnap { node, vars, rbag, workers, meta, nfree, vfree, itrs })
}

/// A snapshot that is written and read again is the same.
pub proof fn law_snapshot_round_trip(
    snap: GpuSnap,
    files: SnapFiles,
    reads: SnapReads,
    heap: u32,
    back: GpuSnap,
)
    requires
        written(snap, files),
        delivered(files, reads),
        holds(reads, heap, back),
    ensures
        back.node@ == snap.node@,
        back.vars@ == snap.vars@,
        back.rbag@ == snap.rbag@,
        back.workers@ == snap.workers@,
        back.meta@ == snap.meta@,
        back.nfree@ == snap.nfree@,
        back.vfree@ == snap.vfree@,
        back.itrs == snap.itrs,
{
    law_words_bytes_injective(back.node@, snap.node@);
    law_words_bytes_injective(back.vars@, snap.vars@);
    law_words_bytes_injective(back.rbag@, snap.rbag@);
    law_words_bytes_injective(back.workers@, snap.workers@);
    law_words_bytes_injective(back.nfree@, snap.nfree@);
    law_words_bytes_injective(back.vfree@, snap.vfree@);
    assert(words_bytes(snap.meta@).take(64) =~= words_bytes(snap.meta@));
    law_words_bytes_injective(back.meta@, snap.meta@);
    lemma_le_bytes64_injective(back.itrs, snap.itrs);
}

/// What is written can be read: the files of a snapshot hold no error, wherever
/// they are.
pub proof fn law_written_readable(
    paths: SnapPaths,
    snap: GpuSnap,
    files: SnapFiles,
    reads: SnapReads,
)
    requires
        written(snap, files),
        delivered(files, reads),
    ensures
        state_error(paths, reads) is None,
        free_error(paths, reads) is None,
        has_meta(reads),
{
    assert(words_bytes(snap.node@).len() == 4 * snap.node@.len());
    assert(words_bytes(snap.vars@).len() == 4 * snap.vars@.len());
    assert(words_bytes(snap.rbag@).len() == 4 * snap.rbag@.len());
    assert(words_bytes(snap.workers@).len() == 4 * snap.workers@.len());
    assert(words_bytes(snap.meta@).len() == 4 * snap.meta@.len());
    assert(words_bytes(snap.nfree@).len() == 4 * snap.nfree@.len());
    assert(words_bytes(snap.vfree@).len() == 4 * snap.vfree@.len());
}

} // verus!
