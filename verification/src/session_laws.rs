//! What holds of a worker's run: what a look at the shared state leads to, and what
//! is said where it ends with an error.
use vstd::prelude::*;
use crate::boot::Sizes;
use crate::reading::{decimal_of, law_dec_value};
use crate::session::{adapted, begun, err_text, lane_redexes, remaining_redexes, Session, Verdict, VerdictModel};
use crate::snap::GpuSnap;
use crate::text::{dec, lemma_dec_injective};

verus! {

/// No two error codes of the device stand for the same, and a code that has no text
/// of its own is named by its numeral.
pub proof fn law_errors_told_apart(a: u32, b: u32)
    ensures
        err_text(a) == err_text(b) <==> a == b,
        a == 0 || a > 3 ==> exists|d: Seq<char>| #[trigger]
            decimal_of(d, a as int) && err_text(a) == "device error "@ + d,
        a == 1 ==> err_text(a) == "invalid fid in CALL"@,
        a == 2 ==> err_text(a) == "attempt to clone a non-affine global reference"@,
        a == 3 ==> err_text(a) == "def too large for nloc/vloc"@,
{
    reveal_strlit("invalid fid in CALL");
    reveal_strlit("attempt to clone a non-affine global reference");
    reveal_strlit("def too large for nloc/vloc");
    reveal_strlit("device error ");
    law_dec_value(a as nat);
    law_dec_value(b as nat);
    assert(decimal_of(dec(a as nat), a as int));
    if err_text(a) == err_text(b) && a != b {
        let one = "invalid fid in CALL"@;
        let two = "attempt to clone a non-affine global reference"@;
        let three = "def too large for nloc/vloc"@;
        assert(one[0] == 'i' && two[0] == 'a' && three[0] == 'd' && three[2] == 'f');
        if (a == 0 || a > 3) && (b == 0 || b > 3) {
            let p = "device error "@;
            assert(err_text(a).skip(p.len() as int) =~= dec(a as nat));
            assert(err_text(b).skip(p.len() as int) =~= dec(b as nat));
            lemma_dec_injective(a as nat, b as nat);
        } else {
            assert(a == 0 || a > 3 ==> err_text(a)[0] == 'd' && err_text(a)[2] == 'v');
            assert(b == 0 || b > 3 ==> err_text(b)[0] == 'd' && err_text(b)[2] == 'v');
            assert(a == 1 ==> err_text(a)[0] == 'i');
            assert(b == 1 ==> err_text(b)[0] == 'i');
            assert(a == 2 ==> err_text(a)[0] == 'a');
            assert(b == 2 ==> err_text(b)[0] == 'a');
            assert(a == 3 ==> err_text(a)[0] == 'd' && err_text(a)[2] == 'f');
            assert(b == 3 ==> err_text(b)[0] == 'd' && err_text(b)[2] == 'f');
        }
    }
}

/// Redexes are counted lane by lane, each lane in the fifth of its eight words: a
/// lane that has `x` redexes in place of those it had changes the count by just
/// that, and a word that counts no redexes changes nothing. Lanes without a redex
/// count nothing.
pub proof fn law_redexes_by_lane(workers: Seq<u32>, n: nat, k: int, x: u32)
    requires
        8 * n <= workers.len(),
        0 <= k < workers.len(),
    ensures
        lane_redexes(workers.update(k, x), n) == lane_redexes(workers, n) + if k % 8 == 4 && k / 8
            < n {
            x - workers[k]
        } else {
            0
        },
        (forall|tid: int| 0 <= tid < n ==> #[trigger] workers[8 * tid + 4] == 0) ==> lane_redexes(
            workers,
            n,
        ) == 0,
    decreases n,
{
    if n > 0 {
        law_redexes_by_lane(workers, (n - 1) as nat, k, x);
        let m = 8 * (n - 1) + 4;
        if k == m {
            assert(k / 8 == n - 1 && k % 8 == 4);
        } else {
            assert(workers.update(k, x)[m] == workers[m]);
            if k % 8 == 4 && k / 8 < n {
                assert(k / 8 < n - 1);
            }
        }
    }
}

/// The redexes that are left are those that the lanes share and those of each lane,
/// as far as 32 bits can count.
pub proof fn law_redexes_left(shared: Seq<u32>, workers: Seq<u32>, nthreads: u32)
    ensures
        ({
            let left = remaining_redexes(shared, workers, nthreads);
            let all = shared[11] + lane_redexes(workers, nthreads as nat);
            &&& left <= all
            &&& left < 0xFFFF_FFFF ==> left == all
        }),
{
}

/// No progress for the eighth look in a row.
pub open spec fn eighth_stall(s: Session, shared: Seq<u32>) -> bool {
    s.turns > 2 && shared[0] == s.prev_itrs && s.stall >= 7
}

/// What follows a look, whatever it sees. The device's errors come before all else,
/// and the program is done where no redex is left. A worker gives up after eight
/// looks without progress and after 1048576 dispatches. It hands over to the next
/// worker after sixteen dispatches, and after eight where one took more than 1.4
/// seconds.
pub proof fn law_what_follows_a_look(
    s: Session,
    shared: Seq<u32>,
    workers: Seq<u32>,
    kernel_ms: u128,
)
    ensures
        ({
            let v = s.judge(shared, workers, kernel_ms);
            let left = remaining_redexes(shared, workers, s.nthreads);
            let healthy = shared[2] == 0 && shared[1] == 0;
            let stuck = eighth_stall(s, shared) || s.turns >= 1048576;
            let tired = s.kernels >= 16 || s.kernels >= 8 && kernel_ms > 1400;
            &&& v is Fail <==> !healthy || left > 0 && stuck
            &&& v is Done <==> healthy && left == 0
            &&& v is Recycle <==> healthy && left > 0 && !stuck && tired
            &&& v is Launch <==> healthy && left > 0 && !stuck && !tired
            &&& v is Recycle ==> v->Recycle_remaining == left
            &&& v is Launch ==> v->Launch_remaining == left
            &&& v is Launch ==> (v->steps_changed <==> !s.steps_fixed && adapted(
                s.steps,
                shared[0],
                kernel_ms,
            ) != s.steps)
        }),
{
}

/// What a worker says when it gives up: an error of the device by its code, before
/// anything else; where memory ran out, the interactions, the heap, the lanes and
/// the room for redexes.
pub proof fn law_device_failure_said(
    s: Session,
    shared: Seq<u32>,
    workers: Seq<u32>,
    kernel_ms: u128,
)
    requires
        shared[2] != 0 || shared[1] != 0,
    ensures
        ({
            let message = s.judge(shared, workers, kernel_ms)->Fail_message;
            &&& shared[2] != 0 ==> message == err_text(shared[2])
            &&& shared[2] == 0 ==> exists|a: Seq<char>, b: Seq<char>, c: Seq<char>, d: Seq<char>|
                #[trigger] decimal_of(a, s.itrs + shared[0]) && #[trigger] decimal_of(
                    b,
                    s.heap as int,
                ) && #[trigger] decimal_of(c, s.nthreads as int) && #[trigger] decimal_of(
                    d,
                    s.rspan as int,
                ) && message == "OOM after "@ + a + " itrs (heap="@ + b + ", threads="@ + c
                    + ", rspan="@ + d + "). Set HVM_WGPU_HEAP larger."@
        }),
{
    law_dec_value((s.itrs + shared[0]) as nat);
    law_dec_value(s.heap as nat);
    law_dec_value(s.nthreads as nat);
    law_dec_value(s.rspan as nat);
    assert(decimal_of(dec((s.itrs + shared[0]) as nat), s.itrs + shared[0]));
    assert(decimal_of(dec(s.heap as nat), s.heap as int));
    assert(decimal_of(dec(s.nthreads as nat), s.nthreads as int));
    assert(decimal_of(dec(s.rspan as nat), s.rspan as int));
}

/// What a worker says when it makes no progress: the interactions, the redexes that
/// are left, the heap and the lanes; and when its dispatches are used up: the
/// redexes that are left and the interactions.
pub proof fn law_giving_up_said(s: Session, shared: Seq<u32>, workers: Seq<u32>, kernel_ms: u128)
    requires
        shared[2] == 0,
        shared[1] == 0,
        s.judge(shared, workers, kernel_ms) is Fail,
    ensures
        ({
            let message = s.judge(shared, workers, kernel_ms)->Fail_message;
            let left = remaining_redexes(shared, workers, s.nthreads);
            &&& eighth_stall(s, shared) ==> exists|
                a: Seq<char>,
                b: Seq<char>,
                c: Seq<char>,
                d: Seq<char>,
            |
                #[trigger] decimal_of(a, s.itrs + shared[0]) && #[trigger] decimal_of(
                    b,
                    left as int,
                ) && #[trigger] decimal_of(c, s.heap as int) && #[trigger] decimal_of(
                    d,
                    s.nthreads as int,
                ) && message == "stalled at "@ + a + " itrs with remain="@ + b + " (heap="@ + c
                    + ", threads="@ + d + ")"@
            &&& !eighth_stall(s, shared) ==> exists|a: Seq<char>, b: Seq<char>, c: Seq<char>|
                #[trigger] decimal_of(a, 1048576) && #[trigger] decimal_of(b, left as int)
                    && #[trigger] decimal_of(c, s.itrs + shared[0]) && message == "turn cap ("@ + a
                    + ") with remain="@ + b + " itrs="@ + c
        }),
{
    let left = remaining_redexes(shared, workers, s.nthreads);
    law_dec_value((s.itrs + shared[0]) as nat);
    law_dec_value(left as nat);
    law_dec_value(s.heap as nat);
    law_dec_value(s.nthreads as nat);
    law_dec_value(1048576);
    assert(decimal_of(dec((s.itrs + shared[0]) as nat), s.itrs + shared[0]));
    assert(decimal_of(dec(left as nat), left as int));
    assert(decimal_of(dec(s.heap as nat), s.heap as int));
    assert(decimal_of(dec(s.nthreads as nat), s.nthreads as int));
    assert(decimal_of(dec(1048576), 1048576));
}

/// What a worker says when its dispatches are used up without a look: how many there
/// were, and the interactions that are counted.
pub proof fn law_turn_cap_said(s: Session)
    ensures
        exists|a: Seq<char>, b: Seq<char>| #[trigger]
            decimal_of(a, 1048576) && #[trigger] decimal_of(b, s.itrs as int) && s.turn_cap_text()
                == "turn cap ("@ + a + ") itrs="@ + b,
{
    law_dec_value(1048576);
    law_dec_value(s.itrs as nat);
    assert(decimal_of(dec(1048576), 1048576));
    assert(decimal_of(dec(s.itrs as nat), s.itrs as int));
}

/// When the shared state is looked at: after each second dispatch, after the
/// sixteenth and each one behind it, and after one that took more than 1.4 seconds.
/// A dispatch is counted once, and nothing else of the run changes.
pub proof fn law_dispatch_counted(s: Session, kernel_ms: u128)
    requires
        s.turns < 1048576,
    ensures
        ({
            let t = s.counted();
            &&& t.turns == s.turns + 1
            &&& s.kernels < u32::MAX ==> t.kernels == s.kernels + 1
            &&& s.kernels == u32::MAX ==> t.kernels == u32::MAX
            &&& t.heap == s.heap && t.nthreads == s.nthreads && t.rspan == s.rspan
            &&& t.steps_fixed == s.steps_fixed && t.steps == s.steps
            &&& t.prev_itrs == s.prev_itrs && t.stall == s.stall && t.itrs == s.itrs
        }),
        s.look_due(kernel_ms) <==> s.kernels >= 16 || s.kernels % 2 == 0 || kernel_ms > 1400,
{
}

/// What a look changes of the run. Interactions are counted where the worker ends.
/// Where the run goes on, the stalls in a row are counted, what the device has
/// counted is kept for the next look, and the steps are adapted unless they are
/// fixed. The sizes and the dispatches never change.
pub proof fn law_look_counted(
    s: Session,
    shared: Seq<u32>,
    workers: Seq<u32>,
    kernel_ms: u128,
)
    requires
        s.stall < 8,
        s.itrs + shared[0] <= u64::MAX,
    ensures
        ({
            let v = s.judge(shared, workers, kernel_ms);
            let t = s.looked(shared[0], kernel_ms, v);
            &&& t.heap == s.heap && t.nthreads == s.nthreads && t.rspan == s.rspan
            &&& t.steps_fixed == s.steps_fixed && t.turns == s.turns && t.kernels == s.kernels
            &&& t.itrs == s.itrs + if v is Done || v is Recycle {
                shared[0] as int
            } else {
                0
            }
            &&& v is Fail || v is Done ==> t.stall == s.stall && t.prev_itrs == s.prev_itrs
                && t.steps == s.steps
            &&& v is Recycle || v is Launch ==> {
                &&& t.prev_itrs == shared[0]
                &&& t.stall == if s.turns > 2 && shared[0] == s.prev_itrs {
                    s.stall + 1
                } else {
                    0
                }
                &&& t.stall < 8
                &&& t.steps == if s.steps_fixed {
                    s.steps
                } else {
                    adapted(s.steps, shared[0], kernel_ms)
                }
            }
        }),
{
}

/// When the steps of a dispatch change, and to what, from any number of steps: they
/// are doubled after a dispatch under 600 milliseconds that made progress, up to
/// 262144; they are halved after one over 1600 milliseconds, down to 256; otherwise
/// they stay. They are never moved past a bound, nor away from it on the far side.
pub proof fn law_when_steps_change(steps: u32, itrs: u32, kernel_ms: u128)
    ensures
        ({
            let next = adapted(steps, itrs, kernel_ms);
            let short = itrs > 0 && kernel_ms < 600;
            let long = kernel_ms > 1600;
            &&& !short && !long ==> next == steps
            &&& short && steps <= 131072 ==> next == 2 * steps
            &&& short && 131072 <= steps <= 262144 ==> next == 262144
            &&& short && steps >= 262144 ==> next == steps
            &&& long && steps >= 514 ==> 2 * next <= steps < 2 * next + 2
            &&& long && 256 <= steps < 514 ==> next == 256
            &&& long && steps <= 256 ==> next == steps
        }),
{
}

/// With what a worker begins: the memory that it takes over, of which only the words
/// for the heap, the lanes and the steps are set anew, and a run at its start with
/// the interactions so far. The steps are those that were asked for, but for those
/// that a worker before it came to where none were fixed.
pub proof fn law_worker_begins(
    from: GpuSnap,
    resume: bool,
    sizes: Sizes,
    steps_fixed: bool,
    steps: u32,
    snap: GpuSnap,
    session: Session,
    i: int,
)
    requires
        begun(from, resume, sizes, steps_fixed, steps, snap, session),
        from.meta@.len() == 16,
        0 <= i < 16,
    ensures
        snap.node@ == from.node@,
        snap.vars@ == from.vars@,
        snap.rbag@ == from.rbag@,
        snap.workers@ == from.workers@,
        snap.itrs == from.itrs,
        snap.meta@.len() == 16,
        i == 3 || i == 4 ==> snap.meta@[i] == sizes.heap,
        i == 6 ==> snap.meta@[i] == sizes.nthreads,
        i == 5 ==> snap.meta@[i] == if steps_fixed || !resume || from.meta@[5] == 0 {
            steps
        } else {
            from.meta@[5]
        },
        i < 3 || i > 6 ==> snap.meta@[i] == from.meta@[i],
        snap.nfree@.len() == sizes.heap,
        snap.vfree@.len() == sizes.heap,
        forall|k: int|
            0 <= k < sizes.heap && k < from.nfree@.len() ==> #[trigger] snap.nfree@[k]
                == from.nfree@[k],
        forall|k: int|
            0 <= k < sizes.heap && k < from.vfree@.len() ==> #[trigger] snap.vfree@[k]
                == from.vfree@[k],
        session.heap == sizes.heap,
        session.nthreads == sizes.nthreads,
        session.rspan == sizes.rspan,
        session.steps_fixed == steps_fixed,
        session.steps == snap.meta@[5],
        session.turns == 0,
        session.kernels == 0,
        session.prev_itrs == 0xFFFF_FFFF,
        session.stall == 0,
        session.itrs == from.itrs,
{
}

/// What a verdict says is what it holds, each part in its place.
pub proof fn law_verdict_holds(v: Verdict)
    ensures
        match v {
            Verdict::Fail { message } => v.model() == (VerdictModel::Fail { message: message@ }),
            Verdict::Done => v.model() == VerdictModel::Done,
            Verdict::Recycle { remaining } => v.model() == (VerdictModel::Recycle { remaining }),
            Verdict::Launch { remaining, steps_changed } => v.model() == (VerdictModel::Launch {
                remaining,
                steps_changed,
            }),
        },
{
}

} // verus!
