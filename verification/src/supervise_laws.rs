//! What holds of the supervisors: what each exit code leads to, how long the device
//! rests, and what is said where a run is given up.
use vstd::prelude::*;
use crate::reading::{decimal_of, law_dec_value, law_signed_value};
use crate::supervise::{code_text, EpochEnded, EpochEndedModel, Outer, Supervisor, WorkerEnded, WorkerEndedModel};
use crate::text::{dec, signed_dec};

verus! {

/// `s` is the numeral of `n`, with a minus sign before it where `n` is negative.
pub open spec fn signed_decimal_of(s: Seq<char>, n: int) -> bool {
    if n < 0 {
        s.len() > 0 && s[0] == '-' && decimal_of(s.skip(1), -n)
    } else {
        decimal_of(s, n)
    }
}

/// An exit code is reported by its numeral, and no two are reported alike.
pub proof fn law_codes_reported(a: Option<i32>, b: Option<i32>)
    ensures
        code_text(a) == code_text(b) <==> a == b,
        a is None ==> code_text(a) == "None"@,
        a is Some ==> exists|d: Seq<char>| #[trigger]
            signed_decimal_of(d, a->0 as int) && code_text(a) == "Some("@ + d + ")"@,
{
    reveal_strlit("Some(");
    reveal_strlit(")");
    reveal_strlit("None");
    reveal_strlit("-");
    assert("Some("@[0] == 'S' && "None"@[0] == 'N');
    if a is Some {
        law_signed_value(a->0 as int);
        assert(signed_decimal_of(signed_dec(a->0 as int), a->0 as int));
        assert(code_text(a)[0] == 'S');
    }
    if b is Some {
        assert(code_text(b)[0] == 'S');
    }
    if code_text(a) == code_text(b) && a is Some && b is Some {
        let x = signed_dec(a->0 as int);
        let y = signed_dec(b->0 as int);
        assert(code_text(a).subrange(5, code_text(a).len() - 1) =~= x);
        assert(code_text(b).subrange(5, code_text(b).len() - 1) =~= y);
        law_signed_value(b->0 as int);
    }
}

/// A worker ended without a code, or with the one of a lost device.
pub open spec fn lost(code: Option<i32>) -> bool {
    code is None || code == Some(101i32)
}

/// What a supervisor does when a worker ends, for every code. It is done after code
/// zero; its share is used up with the third worker that leaves a snapshot; a lost
/// device with a snapshot is left to the outer supervisor; and it fails after the
/// fourth failure in a row, and after any other code.
pub proof fn law_what_follows_a_worker(
    s: Supervisor,
    code: Option<i32>,
    has_snap: bool,
    recycle_ms: u64,
    lost_ms: u64,
)
    requires
        s.running(),
    ensures
        ({
            let r = s.judge(code, has_snap, recycle_ms, lost_ms);
            let retried = lost(code) && !has_snap || code == Some(1i32) && has_snap;
            &&& r is Done <==> code == Some(0i32)
            &&& r is EndEpoch <==> code == Some(10i32) && s.rounds >= 2
            &&& r is LeaveLost <==> lost(code) && has_snap
            &&& r is Again <==> code == Some(10i32) && s.rounds < 2 || retried && s.retries < 3
            &&& r is Fail <==> retried && s.retries >= 3 || !retried && !lost(code) && code != Some(
                0i32,
            ) && code != Some(10i32)
        }),
{
}

/// How long the device rests before the next worker: as long as is set for a worker
/// that left a snapshot or for one that failed; for a lost device as long as is set,
/// once more for each failure in a row, but five minutes at most. Only for a lost
/// device it is reset.
pub proof fn law_rest_before_a_worker(
    s: Supervisor,
    code: Option<i32>,
    has_snap: bool,
    recycle_ms: u64,
    lost_ms: u64,
)
    requires
        s.running(),
        s.judge(code, has_snap, recycle_ms, lost_ms) is Again,
    ensures
        ({
            let r = s.judge(code, has_snap, recycle_ms, lost_ms);
            let rest = r->Again_rest_ms;
            let due = lost_ms * (s.retries + 1);
            &&& code == Some(10i32) ==> rest == recycle_ms
            &&& code == Some(1i32) ==> rest == lost_ms
            &&& lost(code) ==> rest <= 300000 && rest <= due && (rest == 300000 || rest == due)
            &&& r->reset <==> lost(code)
        }),
{
    let n = (s.retries + 1) as u32;
    assert(lost_ms * n >= 0) by (nonlinear_arith)
        requires
            lost_ms >= 0,
            n >= 0,
    ;
    assert(n == s.retries + 1);
}

/// What a supervisor counts where another worker follows or its share is used up: a
/// worker that left a snapshot is one more of its share and clears the failures, any
/// other is one more failure.
pub proof fn law_workers_counted(s: Supervisor, code: Option<i32>)
    requires
        s.running(),
    ensures
        code == Some(10i32) ==> s.after(code).rounds == s.rounds + 1 && s.after(code).retries == 0,
        code != Some(10i32) ==> s.after(code).rounds == s.rounds && s.after(code).retries
            == s.retries + 1,
{
}

/// What a supervisor says when it fails: the code of the worker, and, where workers
/// were tried again, how often.
pub proof fn law_worker_failure_said(
    s: Supervisor,
    code: Option<i32>,
    has_snap: bool,
    recycle_ms: u64,
    lost_ms: u64,
)
    requires
        s.running(),
        s.judge(code, has_snap, recycle_ms, lost_ms) is Fail,
    ensures
        ({
            let message = s.judge(code, has_snap, recycle_ms, lost_ms)->Fail_message;
            &&& lost(code) ==> exists|d: Seq<char>| #[trigger]
                decimal_of(d, s.retries + 1) && message == "worker exited "@ + code_text(code)
                    + " after "@ + d + " retr"@ + "ies"@ + "."@
            &&& code == Some(1i32) && has_snap ==> exists|d: Seq<char>| #[trigger]
                decimal_of(d, s.retries + 1) && message == "worker exited Some(1) after "@ + d
                    + " retries"@
            &&& !lost(code) && !(code == Some(1i32) && has_snap) ==> message == "worker exited "@
                + code_text(code)
        }),
{
    law_dec_value((s.retries + 1) as nat);
    assert(decimal_of(dec((s.retries + 1) as nat), s.retries + 1));
}

/// The exit code of a supervisor: zero where it is done, eleven where its share is
/// used up, 101 where the device is lost, and one where it failed.
pub proof fn law_supervisor_codes(r: WorkerEndedModel)
    ensures
        r is Done <==> r.exit_code() == Some(0i32),
        r is EndEpoch <==> r.exit_code() == Some(11i32),
        r is LeaveLost <==> r.exit_code() == Some(101i32),
        r is Fail <==> r.exit_code() == Some(1i32),
        r is Again <==> r.exit_code() is None,
{
}

/// What the outer supervisor does when a supervisor ends, for every code. It is done
/// after code zero; it goes on after a share that is used up, and after a lost device
/// or a failure with a snapshot for the third time in a row at most. It keeps the
/// snapshot where it gives up after that, and only there.
pub proof fn law_what_follows_an_epoch(
    o: Outer,
    code: i32,
    has_snap: bool,
    snap: Seq<char>,
    recycle_ms: u64,
)
    requires
        o.running(),
    ensures
        ({
            let r = o.judge(code, has_snap, snap, recycle_ms);
            let retried = (code == 101 || code == 1) && has_snap;
            &&& r is Done <==> code == 0
            &&& r is Again <==> code == 11 || retried && o.lost < 3
            &&& r is Fail <==> code != 0 && code != 11 && !(retried && o.lost < 3)
            &&& r is Fail ==> (r->keep_snap <==> retried)
            &&& r is Again && code == 11 ==> r->Again_rest_ms == recycle_ms
            &&& r is Again && code != 11 ==> r->Again_rest_ms == 30000 * (o.lost + 1)
        }),
{
}

/// What the outer supervisor counts where another supervisor follows: a share that is
/// used up is one more epoch and clears the losses, anything else is one more loss.
pub proof fn law_epochs_counted(o: Outer, code: i32)
    requires
        o.running(),
        o.epochs < u32::MAX,
    ensures
        code == 11 ==> o.after(code).epochs == o.epochs + 1 && o.after(code).lost == 0,
        code != 11 ==> o.after(code).epochs == o.epochs && o.after(code).lost == o.lost + 1,
{
}

/// What the outer supervisor says when it fails: how often the device was lost and
/// where the snapshot is, where it keeps one, and otherwise the supervisor's code.
pub proof fn law_epoch_failure_said(
    o: Outer,
    code: i32,
    has_snap: bool,
    snap: Seq<char>,
    recycle_ms: u64,
)
    requires
        o.running(),
        o.judge(code, has_snap, snap, recycle_ms) is Fail,
    ensures
        ({
            let message = o.judge(code, has_snap, snap, recycle_ms)->Fail_message;
            let retried = (code == 101 || code == 1) && has_snap;
            &&& retried ==> exists|d: Seq<char>| #[trigger]
                decimal_of(d, o.lost + 1) && message == "device-lost "@ + d
                    + " times in a row at snap "@ + snap + "; giving up"@
            &&& !retried ==> message == "supervisor exited "@ + code_text(Some(code))
        }),
{
    law_dec_value((o.lost + 1) as nat);
    assert(decimal_of(dec((o.lost + 1) as nat), o.lost + 1));
}

/// What the supervisors decide is what the decision holds, each part in its place.
pub proof fn law_decisions_hold(w: WorkerEnded, e: EpochEnded)
    ensures
        match w {
            WorkerEnded::Done => w.model() == WorkerEndedModel::Done,
            WorkerEnded::EndEpoch => w.model() == WorkerEndedModel::EndEpoch,
            WorkerEnded::LeaveLost => w.model() == WorkerEndedModel::LeaveLost,
            WorkerEnded::Fail { message } => w.model() == (WorkerEndedModel::Fail {
                message: message@,
            }),
            WorkerEnded::Again { rest_ms, reset } => w.model() == (WorkerEndedModel::Again {
                rest_ms: rest_ms as int,
                reset,
            }),
        },
        match e {
            EpochEnded::Done => e.model() == EpochEndedModel::Done,
            EpochEnded::Fail { message, keep_snap } => e.model() == (EpochEndedModel::Fail {
                message: message@,
                keep_snap,
            }),
            EpochEnded::Again { rest_ms } => e.model() == (EpochEndedModel::Again {
                rest_ms: rest_ms as int,
            }),
        },
{
}

} // verus!
