//! The memory of the device at the start of a program and between workers.
use vstd::prelude::*;
use crate::hvm::{Book, NONE, Port, REF, ROOT};
use crate::pack::{can_pack, pack_book, pack_error, packed, packed_size};
use crate::snap::{GpuSnap, M_ITRS, M_MAX, M_NFREE, M_NLEN, M_NROVER, M_NTHREADS, M_OFLOW, M_OFLOW_BASE, M_OFLOW_CAP, M_RLEN, M_RSPAN, M_VFREE, M_VLEN, M_VROVER};

verus! {

/// Where in a worker's words its next node is.
pub const W_NPUT: usize = 0;

/// Where in a worker's words its next variable is.
pub const W_VPUT: usize = 1;

/// Where in a worker's words the number of its redexes is.
pub const W_RLEN: usize = 4;

/// Where in a worker's words the place of its next redex is.
pub const W_RPUT: usize = 6;

/// How many words a worker has.
pub const W_STRIDE: usize = 8;

/// The sizes of the device's memory: slots of the heap, lanes, redexes of a
/// lane, and redexes that the lanes share.
#[derive(Clone, Copy)]
pub struct Sizes {
    pub heap: u32,
    pub nthreads: u32,
    pub rspan: u32,
    pub overflow: u32,
}

impl Sizes {
    /// How many redexes there is room for.
    pub open spec fn rbag_len(self) -> nat {
        (self.nthreads * self.rspan + self.overflow) as nat
    }

    /// There is a slot, a lane and room for a redex, and the words of each part
    /// can be counted.
    pub open spec fn valid(self) -> bool {
        &&& self.heap >= 1
        &&& self.nthreads >= 1
        &&& 1 <= self.rbag_len() <= u32::MAX
        &&& 2 * self.heap <= usize::MAX
        &&& 2 * self.rbag_len() <= usize::MAX
        &&& 8 * self.nthreads <= usize::MAX
    }

    /// These sizes; nothing where the memory of a program cannot have them.
    pub fn new(heap: u32, nthreads: u32, rspan: u32, overflow: u32) -> (r: Option<Sizes>)
        ensures
            ({
                let sizes = Sizes { heap, nthreads, rspan, overflow };
                r == if sizes.valid() {
                    Some(sizes)
                } else {
                    None
                }
            }),
    {
        proof {
            assert(0 <= nthreads * rspan <= 0xffff_ffff * 0xffff_ffff) by (nonlinear_arith)
                requires
                    0 <= nthreads <= 0xffff_ffff,
                    0 <= rspan <= 0xffff_ffff,
            ;
        }
        let rbag_len: u128 = nthreads as u128 * rspan as u128 + overflow as u128;
        let max: u128 = usize::MAX as u128;
        if heap >= 1 && nthreads >= 1 && 1 <= rbag_len && rbag_len <= 0xffff_ffff && 2 * (
        heap as u128) <= max && 2 * rbag_len <= max && 8 * (nthreads as u128) <= max {
            Some(Sizes { heap, nthreads, rspan, overflow })
        } else {
            None
        }
    }

    /// How many slots of the heap each lane starts from.
    pub open spec fn span(self) -> int {
        if self.heap / self.nthreads >= 1 {
            (self.heap / self.nthreads) as int
        } else {
            1
        }
    }

    /// The slot that lane `tid` starts from.
    pub open spec fn base(self, tid: int) -> int {
        if tid * self.span() < self.heap {
            tid * self.span()
        } else {
            self.heap - 1
        }
    }
}

/// A word of the workers' state at the start: each lane has its own slot to start
/// from, and the first lane has the one redex.
pub open spec fn fresh_worker_word(sizes: Sizes, k: int) -> int {
    if k % 8 == W_NPUT || k % 8 == W_VPUT {
        sizes.base(k / 8)
    } else if k == W_RLEN || k == W_RPUT {
        1
    } else {
        0
    }
}

/// The shared state at the start.
pub open spec fn fresh_meta(sizes: Sizes, steps: u32) -> Seq<u32> {
    Seq::new(16, |i: int| 0u32).update(M_NLEN as int, sizes.heap).update(
        M_VLEN as int,
        sizes.heap,
    ).update(M_MAX as int, steps).update(M_NTHREADS as int, sizes.nthreads).update(
        M_RSPAN as int,
        sizes.rspan,
    ).update(M_NROVER as int, 1).update(M_VROVER as int, 1).update(
        M_OFLOW_BASE as int,
        (sizes.nthreads * sizes.rspan) as u32,
    ).update(M_OFLOW_CAP as int, sizes.overflow)
}

/// The snapshot is the memory at the start: no node, the root variable without a
/// value, and one redex that calls definition `main_id` and links it to the
/// root.
pub open spec fn is_fresh(snap: GpuSnap, sizes: Sizes, steps: u32, main_id: u32) -> bool {
    &&& snap.node@ == Seq::new((2 * sizes.heap) as nat, |i: int| 0u32)
    &&& snap.vars@ == Seq::new(sizes.heap as nat, |i: int| 0u32).update(0, NONE)
    &&& snap.rbag@ == Seq::new(2 * sizes.rbag_len(), |i: int| 0u32).update(
        0,
        (main_id << 3u32) | 1u32,
    ).update(1, ROOT)
    &&& snap.workers@.len() == 8 * sizes.nthreads
    &&& forall|k: int|
        0 <= k < snap.workers@.len() ==> #[trigger] snap.workers@[k] == fresh_worker_word(sizes, k)
    &&& snap.meta@ == fresh_meta(sizes, steps)
    &&& snap.nfree@ == Seq::new(sizes.heap as nat, |i: int| 0u32)
    &&& snap.vfree@ == Seq::new(sizes.heap as nat, |i: int| 0u32)
    &&& snap.itrs == 0
}

proof fn lemma_base_fits(sizes: Sizes, tid: int)
    requires
        sizes.valid(),
        0 <= tid < sizes.nthreads,
    ensures
        0 <= tid * sizes.span() <= u32::MAX,
        0 <= sizes.base(tid) < sizes.heap,
{
    let span = sizes.span();
    let heap = sizes.heap as int;
    let n = sizes.nthreads as int;
    assert(0 <= tid * span) by (nonlinear_arith)
        requires
            0 <= tid,
            0 <= span,
    ;
    if heap / n >= 1 {
        assert(tid * span <= heap) by (nonlinear_arith)
            requires
                0 <= tid < n,
                span == heap / n,
                heap >= 0,
        ;
    } else {
        assert(tid * span == tid);
    }
}

/// Every lane starts from a slot of the heap.
pub proof fn law_fresh_bases(snap: GpuSnap, sizes: Sizes, steps: u32, main_id: u32, tid: int)
    requires
        sizes.valid(),
        is_fresh(snap, sizes, steps, main_id),
        0 <= tid < sizes.nthreads,
    ensures
        snap.workers@[8 * tid + W_NPUT] < sizes.heap,
        snap.workers@[8 * tid + W_VPUT] < sizes.heap,
{
    lemma_base_fits(sizes, tid);
    assert((8 * tid + W_NPUT) % 8 == W_NPUT && (8 * tid + W_NPUT) / 8 == tid);
    assert((8 * tid + W_VPUT) % 8 == W_VPUT && (8 * tid + W_VPUT) / 8 == tid);
    assert(snap.workers@[8 * tid + W_NPUT] == fresh_worker_word(sizes, 8 * tid + W_NPUT));
    assert(snap.workers@[8 * tid + W_VPUT] == fresh_worker_word(sizes, 8 * tid + W_VPUT));
}

impl GpuSnap {
    /// The memory at the start of a program that begins with definition
    /// `main_id`; a dispatch makes at most `steps` steps.
    pub fn fresh(sizes: &Sizes, steps: u32, main_id: u32) -> (r: GpuSnap)
        requires
            sizes.valid(),
        ensures
            is_fresh(r, *sizes, steps, main_id),
    {
        let heap = sizes.heap as usize;
        let nthreads = sizes.nthreads as usize;
        proof {
            assert(0 <= sizes.nthreads * sizes.rspan) by (nonlinear_arith)
                requires
                    sizes.nthreads >= 0,
                    sizes.rspan >= 0,
            ;
        }
        let oflow_base: u32 = sizes.nthreads * sizes.rspan;
        let rbag_len: u32 = oflow_base + sizes.overflow;
        let node: Vec<u32> = vec![0u32; heap * 2];
        let mut vars: Vec<u32> = vec![0u32; heap];
        vars.set(0, NONE);
        let mut rbag: Vec<u32> = vec![0u32; rbag_len as usize * 2];
        rbag.set(0, Port::new(REF, main_id).0);
        rbag.set(1, ROOT);
        let mut workers: Vec<u32> = vec![0u32; nthreads * W_STRIDE];
        let quotient = sizes.heap / sizes.nthreads;
        let span = if quotient >= 1 { quotient } else { 1 };
        let mut tid: usize = 0;
        while tid < nthreads
            invariant
                nthreads == sizes.nthreads,
                sizes.valid(),
                span == sizes.span(),
                tid <= nthreads,
                workers@.len() == 8 * sizes.nthreads,
                forall|k: int|
                    0 <= k < workers@.len() ==> #[trigger] workers@[k] == if k / 8 < tid && (k % 8
                        == 0 || k % 8 == 1) {
                        sizes.base(k / 8)
                    } else {
                        0
                    },
            decreases nthreads - tid,
        {
            proof {
                lemma_base_fits(*sizes, tid as int);
            }
            let far: u32 = tid as u32 * span;
            let base = if far < sizes.heap { far } else { sizes.heap - 1 };
            let ghost before = workers@;
            workers.set(tid * W_STRIDE + W_NPUT, base);
            workers.set(tid * W_STRIDE + W_VPUT, base);
            proof {
                assert forall|k: int| 0 <= k < workers@.len() implies #[trigger] workers@[k] == if k
                    / 8 < tid + 1 && (k % 8 == 0 || k % 8 == 1) {
                    sizes.base(k / 8)
                } else {
                    0
                } by {
                    if k == tid * 8 || k == tid * 8 + 1 {
                        assert(k / 8 == tid);
                    } else {
                        assert(workers@[k] == before[k]);
                        assert(k / 8 == tid ==> !(k % 8 == 0 || k % 8 == 1));
                    }
                }
            }
            tid += 1;
        }
        workers.set(W_RLEN, 1);
        workers.set(W_RPUT, 1);
        let mut meta: [u32; 16] = [0u32; 16];
        meta[M_NLEN] = sizes.heap;
        meta[M_VLEN] = sizes.heap;
        meta[M_MAX] = steps;
        meta[M_NTHREADS] = sizes.nthreads;
        meta[M_RSPAN] = sizes.rspan;
        meta[M_NROVER] = 1;
        meta[M_VROVER] = 1;
        meta[M_OFLOW] = 0;
        meta[M_OFLOW_BASE] = oflow_base;
        meta[M_OFLOW_CAP] = sizes.overflow;
        meta[M_NFREE] = 0;
        meta[M_VFREE] = 0;
        let snap = GpuSnap {
            node,
            vars,
            rbag,
            workers,
            meta,
            nfree: vec![0u32; heap],
            vfree: vec![0u32; heap],
            itrs: 0,
        };
        proof {
            assert(snap.meta@ =~= fresh_meta(*sizes, steps));
            assert(snap.node@ =~= Seq::new((2 * sizes.heap) as nat, |i: int| 0u32));
            assert(snap.vars@ =~= Seq::new(sizes.heap as nat, |i: int| 0u32).update(0, NONE));
            assert(snap.rbag@ =~= Seq::new(2 * sizes.rbag_len(), |i: int| 0u32).update(
                0,
                (main_id << 3u32) | 1u32,
            ).update(1, ROOT));
            assert(snap.nfree@ =~= Seq::new(sizes.heap as nat, |i: int| 0u32));
            assert(snap.vfree@ =~= Seq::new(sizes.heap as nat, |i: int| 0u32));
            assert forall|k: int| 0 <= k < snap.workers@.len() implies #[trigger] snap.workers@[k]
                == fresh_worker_word(*sizes, k) by {}
        }
        snap
    }

    /// Sets the sizes that the lanes and the heap have now, and cuts the free
    /// lists to the heap or fills them up with zeros.
    pub fn fit(&mut self, nthreads: u32, heap: u32)
        ensures
            final(self).meta@ == fitted_meta(old(self).meta@, nthreads, heap),
            final(self).nfree@ == resized(old(self).nfree@, heap as nat),
            final(self).vfree@ == resized(old(self).vfree@, heap as nat),
            final(self).node == old(self).node,
            final(self).vars == old(self).vars,
            final(self).rbag == old(self).rbag,
            final(self).workers == old(self).workers,
            final(self).itrs == old(self).itrs,
    {
        self.meta[M_NTHREADS] = nthreads;
        self.meta[M_NLEN] = heap;
        self.meta[M_VLEN] = heap;
        if self.nfree.len() != heap as usize {
            self.nfree.resize(heap as usize, 0);
        }
        if self.vfree.len() != heap as usize {
            self.vfree.resize(heap as usize, 0);
        }
    }

    /// The snapshot that a worker leaves for the next one: what it read from the
    /// device, with the interactions counted, `remaining` redexes to go, and
    /// `steps` steps for the next dispatch.
    pub fn recycled(
        node: Vec<u32>,
        vars: Vec<u32>,
        rbag: Vec<u32>,
        workers: Vec<u32>,
        nfree: Vec<u32>,
        vfree: Vec<u32>,
        shared: &[u32; 16],
        itrs: u64,
        remaining: u32,
        steps: u32,
    ) -> (r: GpuSnap)
        ensures
            r.node == node,
            r.vars == vars,
            r.rbag == rbag,
            r.workers == workers,
            r.nfree == nfree,
            r.vfree == vfree,
            r.itrs == itrs,
            r.meta@ == recycled_meta(shared@, remaining, steps),
    {
        let mut meta: [u32; 16] = *shared;
        meta[M_ITRS] = 0;
        meta[M_RLEN] = remaining;
        meta[M_MAX] = steps;
        GpuSnap { node, vars, rbag, workers, meta, nfree, vfree, itrs }
    }
}

/// The shared state with the sizes that the lanes and the heap have now.
pub open spec fn fitted_meta(meta: Seq<u32>, nthreads: u32, heap: u32) -> Seq<u32> {
    meta.update(M_NTHREADS as int, nthreads).update(M_NLEN as int, heap).update(
        M_VLEN as int,
        heap,
    )
}

/// The shared state that a worker leaves for the next one: its interactions are
/// counted elsewhere, `remaining` redexes are to go, and a dispatch makes `steps`
/// steps.
pub open spec fn recycled_meta(shared: Seq<u32>, remaining: u32, steps: u32) -> Seq<u32> {
    shared.update(M_ITRS as int, 0).update(M_RLEN as int, remaining).update(M_MAX as int, steps)
}

/// `list` cut to `n` entries or filled up with zeros.
pub open spec fn resized(list: Seq<u32>, n: nat) -> Seq<u32> {
    Seq::new(
        n,
        |i: int|
            if i < list.len() {
                list[i]
            } else {
                0
            },
    )
}

/// A definition is called `main`.
pub open spec fn has_main(book: Book) -> bool {
    exists|i: int| book.is_first_named("main"@, i)
}

/// The error with which loading a book ends, if any: no definition is called
/// `main`, or the book cannot be packed.
pub open spec fn load_error(book: Book) -> Option<Seq<char>> {
    if !has_main(book) {
        Some("missing @main"@)
    } else {
        pack_error(book.defs@)
    }
}

/// Whether the book can be loaded: it is refused, or 32 bits can count its words.
pub fn can_load(book: &Book) -> (r: bool)
    ensures
        r == (load_error(*book) is None ==> packed_size(book.defs@) <= u32::MAX),
{
    match book.main_id() {
        Some(id) => {
            proof {
                assert(book.is_first_named("main"@, id as int));
            }
            can_pack(book)
        },
        None => true,
    }
}

/// The definition that the program starts from, and the words of the book. It is
/// an error where no definition is called `main`, and where the book cannot be
/// packed.
pub fn load_book(book: &Book) -> (r: Result<(u32, Vec<u32>), String>)
    requires
        load_error(*book) is None ==> packed_size(book.defs@) <= u32::MAX,
    ensures
        match r {
            Ok(loaded) => load_error(*book) is None && book.is_first_named(
                "main"@,
                loaded.0 as int,
            ) && loaded.1@ == packed(book.defs@),
            Err(e) => load_error(*book) == Some(e@),
        },
{
    match book.main_id() {
        Some(id) => {
            proof {
                assert(book.is_first_named("main"@, id as int));
            }
            let words = pack_book(book)?;
            Ok((id as u32, words))
        },
        None => Err("missing @main".to_owned()),
    }
}

/// Where there is a `main`, what packing a book is refused with is what loading it
/// is refused with, however large the book is.
pub proof fn law_pack_error_handed_on(book: Book, e: Seq<char>)
    requires
        has_main(book),
        pack_error(book.defs@) == Some(e),
    ensures
        load_error(book) == Some(e),
{
}

} // verus!
