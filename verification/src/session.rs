//! What the host decides between two dispatches of the device.
use vstd::arithmetic::power2::{lemma2_to64, lemma_pow2_strictly_increases, lemma_pow2_unfold, pow2};
use vstd::prelude::*;
use crate::boot::{fitted_meta, fresh_worker_word, is_fresh, recycled_meta, resized, Sizes, W_RLEN};
use crate::config::STEPS_PER_DISPATCH;
use crate::snap::{delivered, holds, law_snapshot_round_trip, written, GpuSnap, SnapFiles, SnapReads, M_ERR, M_ITRS, M_MAX, M_OFLOW, M_OOM};
use crate::text::{dec, push_dec};

verus! {

/// How many lanes a workgroup has.
pub const WG: u32 = 64;

/// How many dispatches a program may take.
pub const MAX_TURNS: u32 = 0x10_0000;

/// After how many dispatches a device is given up for a new one.
pub const RECYCLE_AFTER_KERNELS: u32 = 16;

/// After how many dispatches the shared state is looked at.
pub const CHECK_EVERY: u32 = 2;

/// How many looks in a row may find no progress.
pub const MAX_STALLS: u32 = 8;

/// The fewest steps that a dispatch is cut to.
pub const MIN_STEPS: u32 = 256;

/// The most steps that a dispatch is widened to.
pub const MAX_STEPS: u32 = 0x4_0000;

/// How many workgroups the lanes fill.
pub fn groups(nthreads: u32) -> (r: u32)
    ensures
        r * WG >= nthreads,
        r > 0 ==> (r - 1) * WG < nthreads,
{
    if nthreads % WG == 0 {
        nthreads / WG
    } else {
        nthreads / WG + 1
    }
}

/// What an error code of the device stands for.
pub open spec fn err_text(code: u32) -> Seq<char> {
    if code == 1 {
        "invalid fid in CALL"@
    } else if code == 2 {
        "attempt to clone a non-affine global reference"@
    } else if code == 3 {
        "def too large for nloc/vloc"@
    } else {
        "device error "@ + dec(code as nat)
    }
}

/// What an error code of the device stands for.
pub fn err_msg(code: u32) -> (r: String)
    ensures
        r@ == err_text(code),
{
    if code == 1 {
        "invalid fid in CALL".to_owned()
    } else if code == 2 {
        "attempt to clone a non-affine global reference".to_owned()
    } else if code == 3 {
        "def too large for nloc/vloc".to_owned()
    } else {
        let mut out = "device error ".to_owned();
        push_dec(&mut out, code as u64);
        out
    }
}

/// The steps of a worker's first dispatch: those that were asked for, or those
/// that the worker before it came to.
pub open spec fn steps_at_first(fixed: bool, resume: bool, saved: u32, steps: u32) -> u32 {
    if !fixed && resume && saved > 0 {
        saved
    } else {
        steps
    }
}

/// How many steps the first dispatch of a worker makes.
pub fn first_steps(fixed: bool, resume: bool, saved: u32, steps: u32) -> (r: u32)
    ensures
        r == steps_at_first(fixed, resume, saved, steps),
{
    if !fixed && resume && saved > 0 {
        saved
    } else {
        steps
    }
}

/// A worker's run: the sizes of the memory, whether the steps of a dispatch are
/// fixed, and how far it has come.
pub struct Session {
    pub heap: u32,
    pub nthreads: u32,
    pub rspan: u32,
    pub steps_fixed: bool,
    pub steps: u32,
    pub turns: u32,
    pub kernels: u32,
    pub prev_itrs: u32,
    pub stall: u32,
    pub itrs: u64,
}

/// What follows a dispatch: the next one, a look at the shared state, or the end
/// with an error.
pub enum AfterKernel {
    Launch,
    Check,
    Fail { message: String },
}

/// What follows a look at the shared state: the end with an error, the end of
/// the program, a snapshot for the next worker, or the next dispatch, for which
/// the steps may have changed.
pub enum Verdict {
    Fail { message: String },
    Done,
    Recycle { remaining: u32 },
    Launch { remaining: u32, steps_changed: bool },
}

/// What a verdict says.
pub enum VerdictModel {
    Fail { message: Seq<char> },
    Done,
    Recycle { remaining: u32 },
    Launch { remaining: u32, steps_changed: bool },
}

impl Verdict {
    pub open spec fn model(self) -> VerdictModel {
        match self {
            Verdict::Fail { message } => VerdictModel::Fail { message: message@ },
            Verdict::Done => VerdictModel::Done,
            Verdict::Recycle { remaining } => VerdictModel::Recycle { remaining },
            Verdict::Launch { remaining, steps_changed } => VerdictModel::Launch {
                remaining,
                steps_changed,
            },
        }
    }
}

/// How many redexes the first `n` lanes have.
pub open spec fn lane_redexes(workers: Seq<u32>, n: nat) -> nat
    decreases n,
{
    if n == 0 {
        0
    } else {
        lane_redexes(workers, (n - 1) as nat) + workers[8 * (n - 1) + W_RLEN] as nat
    }
}

/// How many redexes are left, as far as 32 bits can count.
pub open spec fn remaining_redexes(shared: Seq<u32>, workers: Seq<u32>, nthreads: u32) -> u32 {
    let all = shared[M_OFLOW as int] + lane_redexes(workers, nthreads as nat);
    if all > u32::MAX {
        u32::MAX
    } else {
        all as u32
    }
}

/// The steps of the next dispatch: twice as many after a short one that made
/// progress, half as many after a long one.
pub open spec fn adapted(steps: u32, itrs: u32, kernel_ms: u128) -> u32 {
    if itrs > 0 && kernel_ms < 600 && steps < MAX_STEPS {
        if 2 * steps < MAX_STEPS {
            (2 * steps) as u32
        } else {
            MAX_STEPS
        }
    } else if kernel_ms > 1600 && steps > MIN_STEPS {
        if steps / 2 > MIN_STEPS {
            steps / 2
        } else {
            MIN_STEPS
        }
    } else {
        steps
    }
}

/// The snapshot `snap` and the run `session` are those with which a worker begins,
/// from the memory `from`, which a worker before it left where `resume` says so.
/// `steps` are the steps that were asked for.
pub open spec fn begun(
    from: GpuSnap,
    resume: bool,
    sizes: Sizes,
    steps_fixed: bool,
    steps: u32,
    snap: GpuSnap,
    session: Session,
) -> bool {
    let meta = fitted_meta(from.meta@, sizes.nthreads, sizes.heap);
    let first = steps_at_first(steps_fixed, resume, meta[M_MAX as int], steps);
    &&& snap.node@ == from.node@
    &&& snap.vars@ == from.vars@
    &&& snap.rbag@ == from.rbag@
    &&& snap.workers@ == from.workers@
    &&& snap.meta@ == meta.update(M_MAX as int, first)
    &&& snap.nfree@ == resized(from.nfree@, sizes.heap as nat)
    &&& snap.vfree@ == resized(from.vfree@, sizes.heap as nat)
    &&& snap.itrs == from.itrs
    &&& session == Session::at_start(
        sizes.heap,
        sizes.nthreads,
        sizes.rspan,
        steps_fixed,
        first,
        from.itrs,
    )
}

/// The memory and the run with which a worker begins: from the snapshot that the
/// worker before it left, or at the start of a program that begins with
/// definition `main_id`. `steps` are the steps that were asked for.
pub fn begin(
    saved: Option<GpuSnap>,
    sizes: &Sizes,
    steps_fixed: bool,
    steps: u32,
    main_id: u32,
) -> (r: (GpuSnap, Session))
    requires
        sizes.valid(),
    ensures
        match saved {
            Some(from) => begun(from, true, *sizes, steps_fixed, steps, r.0, r.1),
            None => exists|from: GpuSnap| #[trigger]
                is_fresh(from, *sizes, steps, main_id) && begun(
                    from,
                    false,
                    *sizes,
                    steps_fixed,
                    steps,
                    r.0,
                    r.1,
                ),
        },
{
    let (from, resume) = match saved {
        Some(snap) => (snap, true),
        None => (GpuSnap::fresh(sizes, steps, main_id), false),
    };
    let ghost before = from;
    let mut snap = from;
    snap.fit(sizes.nthreads, sizes.heap);
    let first = first_steps(steps_fixed, resume, snap.meta[M_MAX], steps);
    snap.meta[M_MAX] = first;
    let session = Session::new(
        sizes.heap,
        sizes.nthreads,
        sizes.rspan,
        steps_fixed,
        first,
        snap.itrs,
    );
    proof {
        assert(begun(before, resume, *sizes, steps_fixed, steps, snap, session));
    }
    (snap, session)
}

/// Adapting keeps the steps of a dispatch between their bounds.
pub proof fn law_steps_bounded(steps: u32, itrs: u32, kernel_ms: u128)
    requires
        MIN_STEPS <= steps <= MAX_STEPS,
    ensures
        MIN_STEPS <= adapted(steps, itrs, kernel_ms) <= MAX_STEPS,
{
}

impl Session {
    /// Another dispatch may follow.
    pub open spec fn running(self) -> bool {
        self.turns < MAX_TURNS && self.stall < MAX_STALLS
    }

    /// A worker's run at its start.
    pub open spec fn at_start(
        heap: u32,
        nthreads: u32,
        rspan: u32,
        steps_fixed: bool,
        steps: u32,
        itrs: u64,
    ) -> Session {
        Session {
            heap,
            nthreads,
            rspan,
            steps_fixed,
            steps,
            turns: 0,
            kernels: 0,
            prev_itrs: u32::MAX,
            stall: 0,
            itrs,
        }
    }

    /// A worker's run at its start.
    pub fn new(
        heap: u32,
        nthreads: u32,
        rspan: u32,
        steps_fixed: bool,
        steps: u32,
        itrs: u64,
    ) -> (r: Session)
        ensures
            r == Session::at_start(heap, nthreads, rspan, steps_fixed, steps, itrs),
            r.running(),
    {
        Session {
            heap,
            nthreads,
            rspan,
            steps_fixed,
            steps,
            turns: 0,
            kernels: 0,
            prev_itrs: u32::MAX,
            stall: 0,
            itrs,
        }
    }

    /// The shared state is looked at after a dispatch: now and then, at the end
    /// of the device's time, and when the dispatch took long.
    pub open spec fn look_due(self, kernel_ms: u128) -> bool {
        self.kernels >= RECYCLE_AFTER_KERNELS || self.kernels % CHECK_EVERY == 0 || kernel_ms > 1400
    }

    /// The run after one more dispatch.
    pub open spec fn counted(self) -> Session {
        Session {
            turns: (self.turns + 1) as u32,
            kernels: if self.kernels < u32::MAX {
                (self.kernels + 1) as u32
            } else {
                u32::MAX
            },
            ..self
        }
    }

    /// What is said when the dispatches are used up without a look.
    pub open spec fn turn_cap_text(self) -> Seq<char> {
        "turn cap ("@ + dec(MAX_TURNS as nat) + ") itrs="@ + dec(self.itrs as nat)
    }

    /// Counts a dispatch that took `kernel_ms` milliseconds and says what
    /// follows.
    pub fn after_kernel(&mut self, kernel_ms: u128) -> (r: AfterKernel)
        requires
            old(self).turns < MAX_TURNS,
        ensures
            *final(self) == old(self).counted(),
            match r {
                AfterKernel::Check => final(self).look_due(kernel_ms),
                AfterKernel::Launch => !final(self).look_due(kernel_ms) && final(self).turns
                    < MAX_TURNS,
                AfterKernel::Fail { message } => !final(self).look_due(kernel_ms)
                    && final(self).turns == MAX_TURNS && message@ == final(self).turn_cap_text(),
            },
    {
        self.kernels = self.kernels.saturating_add(1);
        self.turns = self.turns + 1;
        if self.kernels >= RECYCLE_AFTER_KERNELS || self.kernels % CHECK_EVERY == 0 || kernel_ms
            > 1400 {
            return AfterKernel::Check;
        }
        if self.turns >= MAX_TURNS {
            let mut message = "turn cap (".to_owned();
            push_dec(&mut message, MAX_TURNS as u64);
            message.append(") itrs=");
            push_dec(&mut message, self.itrs);
            return AfterKernel::Fail { message };
        }
        AfterKernel::Launch
    }

    pub open spec fn oom_text(self, itrs: nat) -> Seq<char> {
        "OOM after "@ + dec(itrs) + " itrs (heap="@ + dec(self.heap as nat) + ", threads="@ + dec(
            self.nthreads as nat,
        ) + ", rspan="@ + dec(self.rspan as nat) + "). Set HVM_WGPU_HEAP larger."@
    }

    pub open spec fn stalled_text(self, itrs: nat, remaining: u32) -> Seq<char> {
        "stalled at "@ + dec(itrs) + " itrs with remain="@ + dec(remaining as nat) + " (heap="@
            + dec(self.heap as nat) + ", threads="@ + dec(self.nthreads as nat) + ")"@
    }

    pub open spec fn capped_text(self, itrs: nat, remaining: u32) -> Seq<char> {
        "turn cap ("@ + dec(MAX_TURNS as nat) + ") with remain="@ + dec(remaining as nat)
            + " itrs="@ + dec(itrs)
    }

    /// How many looks in a row, this one too, have found no progress.
    pub open spec fn stalls(self, itrs: u32) -> int {
        if self.turns > CHECK_EVERY && itrs == self.prev_itrs {
            self.stall + 1
        } else {
            0
        }
    }

    /// The steps of the dispatches from now on.
    pub open spec fn next_steps(self, itrs: u32, kernel_ms: u128) -> u32 {
        if self.steps_fixed {
            self.steps
        } else {
            adapted(self.steps, itrs, kernel_ms)
        }
    }

    /// The device has had its time, or part of it and a long dispatch.
    pub open spec fn worn(self, kernel_ms: u128) -> bool {
        self.kernels >= RECYCLE_AFTER_KERNELS || self.kernels >= 8 && kernel_ms > 1400
    }

    /// What follows from the shared state and the workers' state after a dispatch
    /// that took `kernel_ms` milliseconds.
    pub open spec fn judge(
        self,
        shared: Seq<u32>,
        workers: Seq<u32>,
        kernel_ms: u128,
    ) -> VerdictModel {
        let itrs = shared[M_ITRS as int];
        let total = (self.itrs + itrs) as nat;
        let remaining = remaining_redexes(shared, workers, self.nthreads);
        if shared[M_ERR as int] != 0 {
            VerdictModel::Fail { message: err_text(shared[M_ERR as int]) }
        } else if shared[M_OOM as int] != 0 {
            VerdictModel::Fail { message: self.oom_text(total) }
        } else if remaining == 0 {
            VerdictModel::Done
        } else if self.stalls(itrs) >= MAX_STALLS {
            VerdictModel::Fail { message: self.stalled_text(total, remaining) }
        } else if self.turns >= MAX_TURNS {
            VerdictModel::Fail { message: self.capped_text(total, remaining) }
        } else if self.worn(kernel_ms) {
            VerdictModel::Recycle { remaining }
        } else {
            VerdictModel::Launch {
                remaining,
                steps_changed: self.next_steps(itrs, kernel_ms) != self.steps,
            }
        }
    }

    /// The run after a look that found `itrs` interactions. They are added to the
    /// count where the worker ends there.
    pub open spec fn looked(self, itrs: u32, kernel_ms: u128, verdict: VerdictModel) -> Session {
        match verdict {
            VerdictModel::Done => Session { itrs: (self.itrs + itrs) as u64, ..self },
            VerdictModel::Recycle { .. } => Session {
                itrs: (self.itrs + itrs) as u64,
                stall: self.stalls(itrs) as u32,
                prev_itrs: itrs,
                steps: self.next_steps(itrs, kernel_ms),
                ..self
            },
            VerdictModel::Fail { .. } => self,
            VerdictModel::Launch { .. } => Session {
                stall: self.stalls(itrs) as u32,
                prev_itrs: itrs,
                steps: self.next_steps(itrs, kernel_ms),
                ..self
            },
        }
    }

    /// Takes in the shared state and the workers' state after a dispatch that
    /// took `kernel_ms` milliseconds, and says what follows.
    pub fn after_check(
        &mut self,
        shared: &[u32; 16],
        workers: &Vec<u32>,
        kernel_ms: u128,
    ) -> (r: Verdict)
        requires
            old(self).stall < MAX_STALLS,
            workers@.len() >= 8 * old(self).nthreads,
            old(self).itrs + shared@[M_ITRS as int] <= u64::MAX,
        ensures
            r.model() == old(self).judge(shared@, workers@, kernel_ms),
            *final(self) == old(self).looked(shared@[M_ITRS as int], kernel_ms, r.model()),
            r is Launch ==> final(self).running(),
    {
        if shared[M_ERR] != 0 {
            return Verdict::Fail { message: err_msg(shared[M_ERR]) };
        }
        let itrs = shared[M_ITRS];
        let total: u64 = self.itrs + itrs as u64;
        if shared[M_OOM] != 0 {
            let mut message = "OOM after ".to_owned();
            push_dec(&mut message, total);
            message.append(" itrs (heap=");
            push_dec(&mut message, self.heap as u64);
            message.append(", threads=");
            push_dec(&mut message, self.nthreads as u64);
            message.append(", rspan=");
            push_dec(&mut message, self.rspan as u64);
            message.append("). Set HVM_WGPU_HEAP larger.");
            return Verdict::Fail { message };
        }
        let remaining = count_redexes(shared, workers, self.nthreads);
        if remaining == 0 {
            self.itrs = total;
            return Verdict::Done;
        }
        let stall: u32 = if self.turns > CHECK_EVERY && itrs == self.prev_itrs {
            self.stall + 1
        } else {
            0
        };
        if stall >= MAX_STALLS {
            let mut message = "stalled at ".to_owned();
            push_dec(&mut message, total);
            message.append(" itrs with remain=");
            push_dec(&mut message, remaining as u64);
            message.append(" (heap=");
            push_dec(&mut message, self.heap as u64);
            message.append(", threads=");
            push_dec(&mut message, self.nthreads as u64);
            message.append(")");
            return Verdict::Fail { message };
        }
        if self.turns >= MAX_TURNS {
            let mut message = "turn cap (".to_owned();
            push_dec(&mut message, MAX_TURNS as u64);
            message.append(") with remain=");
            push_dec(&mut message, remaining as u64);
            message.append(" itrs=");
            push_dec(&mut message, total);
            return Verdict::Fail { message };
        }
        self.stall = stall;
        self.prev_itrs = itrs;
        let before = self.steps;
        if !self.steps_fixed {
            self.steps = adapt_steps(before, itrs, kernel_ms);
        }
        if self.kernels >= RECYCLE_AFTER_KERNELS || self.kernels >= 8 && kernel_ms > 1400 {
            self.itrs = total;
            return Verdict::Recycle { remaining };
        }
        Verdict::Launch { remaining, steps_changed: self.steps != before }
    }
}

fn adapt_steps(steps: u32, itrs: u32, kernel_ms: u128) -> (r: u32)
    ensures
        r == adapted(steps, itrs, kernel_ms),
{
    if itrs > 0 && kernel_ms < 600 && steps < MAX_STEPS {
        if 2 * steps < MAX_STEPS {
            2 * steps
        } else {
            MAX_STEPS
        }
    } else if kernel_ms > 1600 && steps > MIN_STEPS {
        if steps / 2 > MIN_STEPS {
            steps / 2
        } else {
            MIN_STEPS
        }
    } else {
        steps
    }
}

fn count_redexes(shared: &[u32; 16], workers: &Vec<u32>, nthreads: u32) -> (r: u32)
    requires
        workers@.len() >= 8 * nthreads,
    ensures
        r == remaining_redexes(shared@, workers@, nthreads),
{
    let len = workers.len();
    let mut remaining: u32 = shared[M_OFLOW];
    let mut tid: u32 = 0;
    while tid < nthreads
        invariant
            tid <= nthreads,
            len == workers@.len(),
            len >= 8 * nthreads,
            remaining == remaining_redexes(shared@, workers@, tid),
        decreases nthreads - tid,
    {
        remaining = remaining.saturating_add(workers[tid as usize * 8 + W_RLEN]);
        tid += 1;
    }
    remaining
}

/// A worker ends on its device's last dispatch at the latest: after it the shared
/// state is looked at, and no further dispatch follows.
pub proof fn law_worker_ends(
    session: Session,
    shared: Seq<u32>,
    workers: Seq<u32>,
    kernel_ms: u128,
)
    requires
        session.kernels >= RECYCLE_AFTER_KERNELS,
    ensures
        session.look_due(kernel_ms),
        !(session.judge(shared, workers, kernel_ms) is Launch),
{
}

/// A program is done exactly when the device reports no error and no redex is
/// left, neither with a lane nor shared.
pub proof fn law_done(session: Session, shared: Seq<u32>, workers: Seq<u32>, kernel_ms: u128)
    ensures
        session.judge(shared, workers, kernel_ms) is Done <==> {
            &&& shared[M_ERR as int] == 0
            &&& shared[M_OOM as int] == 0
            &&& shared[M_OFLOW as int] == 0
            &&& forall|tid: int|
                0 <= tid < session.nthreads ==> #[trigger] workers[8 * tid + W_RLEN] == 0
        },
{
    lemma_lane_redexes(workers, session.nthreads as nat);
}

/// The steps that a worker came to are those that the next worker starts with,
/// whatever sizes the memory has then: a cut that one dispatch called for is not
/// undone.
pub proof fn law_steps_survive(
    shared: Seq<u32>,
    remaining: u32,
    steps: u32,
    nthreads: u32,
    heap: u32,
    default: u32,
)
    requires
        shared.len() == 16,
        steps > 0,
    ensures
        steps_at_first(
            false,
            true,
            fitted_meta(recycled_meta(shared, remaining, steps), nthreads, heap)[M_MAX as int],
            default,
        ) == steps,
{
}

/// Interactions are counted once: those that a snapshot counts and those that its
/// shared state still holds are as many as there were before.
pub proof fn law_itrs_counted_once(
    session: Session,
    shared: Seq<u32>,
    workers: Seq<u32>,
    kernel_ms: u128,
)
    requires
        shared.len() == 16,
        session.itrs + shared[M_ITRS as int] <= u64::MAX,
        session.judge(shared, workers, kernel_ms) is Recycle,
    ensures
        ({
            let itrs = shared[M_ITRS as int];
            let verdict = session.judge(shared, workers, kernel_ms);
            let after = session.looked(itrs, kernel_ms, verdict);
            after.itrs + recycled_meta(shared, verdict->Recycle_remaining, after.steps)[M_ITRS as int]
                == session.itrs + itrs
        }),
{
}

/// A look at the shared state: the run that it finds, what it sees, and how long
/// the dispatch before it took.
pub struct Look {
    pub state: Session,
    pub shared: Seq<u32>,
    pub workers: Seq<u32>,
    pub kernel_ms: u128,
}

impl Look {
    /// What follows the look.
    pub open spec fn verdict(self) -> VerdictModel {
        self.state.judge(self.shared, self.workers, self.kernel_ms)
    }

    /// The interactions that the device has counted.
    pub open spec fn itrs(self) -> u32 {
        self.shared[M_ITRS as int]
    }

    /// The run after the look.
    pub open spec fn after(self) -> Session {
        self.state.looked(self.itrs(), self.kernel_ms, self.verdict())
    }
}

/// How one worker takes over from another: the snapshot that is left, its files,
/// what is read of them, the snapshot that this gives, and the memory and the run
/// with which the next worker begins.
pub struct Handover {
    pub left: GpuSnap,
    pub files: SnapFiles,
    pub reads: SnapReads,
    pub back: GpuSnap,
    pub sizes: Sizes,
    pub memory: GpuSnap,
    pub start: Session,
}

/// The run after `n` dispatches without a look.
pub open spec fn dispatched(session: Session, n: nat) -> Session
    decreases n,
{
    if n == 0 {
        session
    } else {
        dispatched(session, (n - 1) as nat).counted()
    }
}

/// Dispatches lead from one state of a run to another.
pub open spec fn launched(a: Session, b: Session) -> bool {
    exists|n: nat| b == dispatched(a, n)
}

/// After `look` one worker takes over from another as `h` says, and `next` is a
/// later state of its run.
pub open spec fn taken_over(
    look: Look,
    h: Handover,
    next: Session,
    steps_fixed: bool,
    steps: u32,
) -> bool {
    &&& h.left.itrs == look.after().itrs
    &&& h.left.meta@ == recycled_meta(
        look.shared,
        look.verdict()->Recycle_remaining,
        look.after().steps,
    )
    &&& written(h.left, h.files)
    &&& delivered(h.files, h.reads)
    &&& holds(h.reads, h.sizes.heap, h.back)
    &&& begun(h.back, true, h.sizes, steps_fixed, steps, h.memory, h.start)
    &&& launched(h.start, next)
}

/// Look `i` is followed by further dispatches, or by the next worker.
pub open spec fn goes_on(
    looks: Seq<Look>,
    handovers: Seq<Handover>,
    steps_fixed: bool,
    steps: u32,
    i: int,
) -> bool {
    match looks[i].verdict() {
        VerdictModel::Launch { .. } => launched(looks[i].after(), looks[i + 1].state),
        VerdictModel::Recycle { .. } => taken_over(
            looks[i],
            handovers[i],
            looks[i + 1].state,
            steps_fixed,
            steps,
        ),
        _ => false,
    }
}

/// The looks of a program that begins with `start`, over as many workers as it
/// takes: a look is followed by further dispatches, or by the next worker. All
/// workers are asked for the same steps, and 64 bits can count the interactions.
pub open spec fn is_run(
    start: Session,
    looks: Seq<Look>,
    handovers: Seq<Handover>,
    steps_fixed: bool,
    steps: u32,
) -> bool {
    &&& looks.len() > 0
    &&& start.steps_fixed == steps_fixed
    &&& launched(start, looks[0].state)
    &&& forall|i: int|
        0 <= i < looks.len() ==> (#[trigger] looks[i]).shared.len() == 16 && looks[i].state.itrs
            + looks[i].itrs() <= u64::MAX
    &&& forall|i: int|
        0 <= i < looks.len() - 1 ==> #[trigger] goes_on(looks, handovers, steps_fixed, steps, i)
}

/// What the devices have counted, of each the last count that was looked at
/// before the next worker took over or the program was done.
pub open spec fn device_counts(looks: Seq<Look>) -> nat
    decreases looks.len(),
{
    if looks.len() == 0 {
        0
    } else {
        let last = looks.last();
        device_counts(looks.drop_last()) + if last.verdict() is Recycle || last.verdict() is Done {
            last.itrs() as nat
        } else {
            0
        }
    }
}

proof fn lemma_launched(a: Session, b: Session)
    requires
        launched(a, b),
    ensures
        b.itrs == a.itrs,
        b.steps == a.steps,
        b.steps_fixed == a.steps_fixed,
{
    let n = choose|n: nat| b == dispatched(a, n);
    lemma_dispatched(a, n);
}

proof fn lemma_dispatched(a: Session, n: nat)
    ensures
        dispatched(a, n).itrs == a.itrs,
        dispatched(a, n).steps == a.steps,
        dispatched(a, n).steps_fixed == a.steps_fixed,
    decreases n,
{
    if n > 0 {
        lemma_dispatched(a, (n - 1) as nat);
    }
}

/// From one look to the next the count goes on from where it was, and so do the
/// steps.
proof fn lemma_next_look(
    start: Session,
    looks: Seq<Look>,
    handovers: Seq<Handover>,
    steps_fixed: bool,
    steps: u32,
    i: int,
)
    requires
        is_run(start, looks, handovers, steps_fixed, steps),
        0 <= i < looks.len() - 1,
    ensures
        looks[i].verdict() is Launch || looks[i].verdict() is Recycle,
        looks[i + 1].state.itrs == looks[i].after().itrs,
        looks[i + 1].state.steps_fixed == if looks[i].verdict() is Launch {
            looks[i].state.steps_fixed
        } else {
            steps_fixed
        },
        looks[i].verdict() is Launch || !steps_fixed && looks[i].after().steps > 0
            ==> looks[i + 1].state.steps == looks[i].after().steps,
        looks[i].verdict() is Recycle && steps_fixed ==> looks[i + 1].state.steps == steps,
{
    let look = looks[i];
    let next = looks[i + 1].state;
    assert(goes_on(looks, handovers, steps_fixed, steps, i));
    if look.verdict() is Launch {
        lemma_launched(look.after(), next);
    } else {
        let h = handovers[i];
        law_snapshot_round_trip(h.left, h.files, h.reads, h.sizes.heap, h.back);
        lemma_launched(h.start, next);
    }
}

/// Over all the workers that a program takes, the count at its end is the sum of
/// what the devices have counted: handing over neither loses nor repeats an
/// interaction.
pub proof fn law_itrs_add_up(
    start: Session,
    looks: Seq<Look>,
    handovers: Seq<Handover>,
    steps_fixed: bool,
    steps: u32,
)
    requires
        is_run(start, looks, handovers, steps_fixed, steps),
        looks.last().verdict() is Done,
    ensures
        looks.last().after().itrs == start.itrs + device_counts(looks),
{
    lemma_itrs_so_far(start, looks, handovers, steps_fixed, steps, looks.len() - 1);
    assert(looks.drop_last() =~= looks.take(looks.len() - 1));
}

proof fn lemma_itrs_so_far(
    start: Session,
    looks: Seq<Look>,
    handovers: Seq<Handover>,
    steps_fixed: bool,
    steps: u32,
    i: int,
)
    requires
        is_run(start, looks, handovers, steps_fixed, steps),
        0 <= i < looks.len(),
    ensures
        looks[i].state.itrs == start.itrs + device_counts(looks.take(i)),
    decreases i,
{
    if i == 0 {
        lemma_launched(start, looks[0].state);
        assert(looks.take(0).len() == 0);
    } else {
        lemma_itrs_so_far(start, looks, handovers, steps_fixed, steps, i - 1);
        lemma_next_look(start, looks, handovers, steps_fixed, steps, i - 1);
        assert(looks.take(i).drop_last() =~= looks.take(i - 1));
        assert(looks.take(i).last() == looks[i - 1]);
        assert(looks[i - 1].shared.len() == 16);
    }
}

/// A number of steps that adapting can come to from the default: a power of two
/// between the bounds.
pub open spec fn is_step_count(steps: u32) -> bool {
    exists|k: nat| 8 <= k <= 18 && steps == #[trigger] pow2(k)
}

/// Adapting such a number of steps keeps it, doubles it after a short dispatch
/// that made progress, or halves it after a long one, and gives such a number
/// again.
pub proof fn law_steps_doubled_or_halved(steps: u32, itrs: u32, kernel_ms: u128)
    requires
        is_step_count(steps),
    ensures
        is_step_count(adapted(steps, itrs, kernel_ms)),
        MIN_STEPS <= adapted(steps, itrs, kernel_ms) <= MAX_STEPS,
        adapted(steps, itrs, kernel_ms) != steps ==> {
            ||| adapted(steps, itrs, kernel_ms) == 2 * steps && kernel_ms < 600 && itrs > 0
            ||| 2 * adapted(steps, itrs, kernel_ms) == steps && kernel_ms > 1600
        },
{
    let k = choose|k: nat| 8 <= k <= 18 && steps == #[trigger] pow2(k);
    lemma2_to64();
    if k < 18 {
        lemma_pow2_unfold(k + 1);
        assert(pow2(k + 1) == 2 * steps);
        if k + 1 < 18 {
            lemma_pow2_strictly_increases(k + 1, 18);
        }
        lemma_pow2_strictly_increases(k, 18);
    }
    if k > 8 {
        lemma_pow2_unfold(k);
        assert(2 * pow2((k - 1) as nat) == steps);
        if k - 1 > 8 {
            lemma_pow2_strictly_increases(8, (k - 1) as nat);
        }
        lemma_pow2_strictly_increases(8, k);
    }
}

/// Over all the workers that a program takes, a number of steps that was fixed
/// never changes. Otherwise the dispatches start with the default, always make a
/// number of steps between the bounds, go on from one look to the next with the
/// steps that the look came to, and each look keeps the steps, doubles them after
/// a short dispatch that made progress, or halves them after a long one.
pub proof fn law_steps_of_a_run(
    start: Session,
    looks: Seq<Look>,
    handovers: Seq<Handover>,
    steps_fixed: bool,
    steps: u32,
    saved: u32,
    i: int,
)
    requires
        is_run(start, looks, handovers, steps_fixed, steps),
        start.steps == steps_at_first(steps_fixed, false, saved, steps),
        !steps_fixed ==> steps == STEPS_PER_DISPATCH,
        0 <= i < looks.len(),
    ensures
        steps_fixed ==> looks[i].state.steps == steps && looks[i].after().steps == steps,
        i == 0 ==> looks[i].state.steps == steps,
        i > 0 ==> looks[i].state.steps == looks[i - 1].after().steps,
        !steps_fixed ==> MIN_STEPS <= looks[i].state.steps <= MAX_STEPS,
        !steps_fixed ==> MIN_STEPS <= looks[i].after().steps <= MAX_STEPS,
        looks[i].after().steps != looks[i].state.steps ==> {
            ||| looks[i].after().steps == 2 * looks[i].state.steps && looks[i].kernel_ms < 600
                && looks[i].itrs() > 0
            ||| 2 * looks[i].after().steps == looks[i].state.steps && looks[i].kernel_ms > 1600
        },
{
    lemma_steps_so_far(start, looks, handovers, steps_fixed, steps, i);
    if i > 0 {
        lemma_steps_so_far(start, looks, handovers, steps_fixed, steps, i - 1);
        lemma_next_look(start, looks, handovers, steps_fixed, steps, i - 1);
        if !steps_fixed {
            lemma_step_count_bounds(looks[i - 1].after().steps);
        }
    } else {
        lemma_launched(start, looks[0].state);
    }
    lemma_steps_of_a_look(looks[i]);
}

/// What a look does to the steps.
proof fn lemma_steps_of_a_look(look: Look)
    requires
        look.state.steps_fixed || is_step_count(look.state.steps),
    ensures
        look.state.steps_fixed ==> look.after().steps == look.state.steps,
        !look.state.steps_fixed ==> is_step_count(look.after().steps) && MIN_STEPS
            <= look.state.steps <= MAX_STEPS && MIN_STEPS <= look.after().steps <= MAX_STEPS,
        look.after().steps != look.state.steps ==> {
            ||| look.after().steps == 2 * look.state.steps && look.kernel_ms < 600 && look.itrs() > 0
            ||| 2 * look.after().steps == look.state.steps && look.kernel_ms > 1600
        },
{
    if !look.state.steps_fixed {
        law_steps_doubled_or_halved(look.state.steps, look.itrs(), look.kernel_ms);
        lemma_step_count_bounds(look.state.steps);
    }
}

proof fn lemma_step_count_bounds(steps: u32)
    requires
        is_step_count(steps),
    ensures
        MIN_STEPS <= steps <= MAX_STEPS,
{
    let k = choose|k: nat| 8 <= k <= 18 && steps == #[trigger] pow2(k);
    lemma2_to64();
    if k > 8 {
        lemma_pow2_strictly_increases(8, k);
    }
    if k < 18 {
        lemma_pow2_strictly_increases(k, 18);
    }
}

proof fn lemma_steps_so_far(
    start: Session,
    looks: Seq<Look>,
    handovers: Seq<Handover>,
    steps_fixed: bool,
    steps: u32,
    i: int,
)
    requires
        is_run(start, looks, handovers, steps_fixed, steps),
        start.steps == steps,
        !steps_fixed ==> steps == STEPS_PER_DISPATCH,
        0 <= i < looks.len(),
    ensures
        looks[i].state.steps_fixed == steps_fixed,
        steps_fixed ==> looks[i].state.steps == steps && looks[i].after().steps == steps,
        !steps_fixed ==> is_step_count(looks[i].state.steps) && is_step_count(
            looks[i].after().steps,
        ),
    decreases i,
{
    if i == 0 {
        lemma_launched(start, looks[0].state);
        lemma2_to64();
        assert(pow2(13) == STEPS_PER_DISPATCH);
    } else {
        lemma_steps_so_far(start, looks, handovers, steps_fixed, steps, i - 1);
        lemma_next_look(start, looks, handovers, steps_fixed, steps, i - 1);
        if !steps_fixed {
            lemma_step_count_bounds(looks[i - 1].after().steps);
        }
    }
    lemma_steps_of_a_look(looks[i]);
}

/// A program has exactly one redex to go at its start.
pub proof fn law_fresh_one_redex(snap: GpuSnap, sizes: Sizes, steps: u32, main_id: u32)
    requires
        sizes.valid(),
        is_fresh(snap, sizes, steps, main_id),
    ensures
        remaining_redexes(snap.meta@, snap.workers@, sizes.nthreads) == 1,
{
    lemma_fresh_redexes(snap, sizes, steps, main_id, sizes.nthreads as nat);
}

proof fn lemma_fresh_redexes(
    snap: GpuSnap,
    sizes: Sizes,
    steps: u32,
    main_id: u32,
    n: nat,
)
    requires
        is_fresh(snap, sizes, steps, main_id),
        1 <= n <= sizes.nthreads,
    ensures
        lane_redexes(snap.workers@, n) == 1,
    decreases n,
{
    let k = 8 * (n - 1) + W_RLEN;
    assert(snap.workers@[k] == fresh_worker_word(sizes, k));
    assert(k % 8 == 4);
    if n > 1 {
        lemma_fresh_redexes(snap, sizes, steps, main_id, (n - 1) as nat);
    } else {
        assert(lane_redexes(snap.workers@, 0) == 0);
    }
}

proof fn lemma_lane_redexes(workers: Seq<u32>, n: nat)
    ensures
        lane_redexes(workers, n) == 0 <==> (forall|tid: int|
            0 <= tid < n ==> #[trigger] workers[8 * tid + W_RLEN] == 0),
    decreases n,
{
    if n > 0 {
        lemma_lane_redexes(workers, (n - 1) as nat);
        assert(workers[8 * (n - 1) + W_RLEN] >= 0);
    }
}

} // verus!
