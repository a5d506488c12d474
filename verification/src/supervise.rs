//! What the supervisors of a run decide when a child process ends.
use vstd::prelude::*;
use crate::config::is_on;
use crate::text::{dec, push_dec, push_signed_dec, signed_dec};

verus! {

/// The exit code of a worker that left a snapshot for the next one.
pub const WORKER_RECYCLE: i32 = 10;

/// The exit code of a supervisor whose share of workers is used up.
pub const SUPERVISOR_EPOCH: i32 = 11;

/// The exit code of a process that lost its device.
pub const DEVICE_LOST: i32 = 101;

/// How many workers a supervisor starts.
pub const WORKERS_PER_EPOCH: u32 = 3;

/// How often in a row a worker is started again after a failure.
pub const MAX_WORKER_RETRIES: u32 = 3;

/// How often in a row a supervisor is started again after it lost its device.
pub const MAX_LOST: u32 = 3;

/// The longest rest of a lost device, in milliseconds.
pub const MAX_WAIT_MS: u64 = 300_000;

/// The rest of a device that a supervisor lost, in milliseconds, each time in a
/// row.
pub const LOST_REST_MS: u64 = 30_000;

/// What a process does: it drives the device, it starts workers, or it starts
/// supervisors.
#[derive(Clone, Copy, PartialEq, Eq, Structural, Debug)]
pub enum Role {
    Worker,
    Supervisor,
    Outer,
}

/// What a process with these settings does.
pub fn role_of(worker: Option<&str>, supervisor: Option<&str>) -> (r: Role)
    ensures
        r == if worker matches Some(s) && s@ == "1"@ {
            Role::Worker
        } else if supervisor matches Some(s) && s@ == "1"@ {
            Role::Supervisor
        } else {
            Role::Outer
        },
{
    if is_on(worker) {
        Role::Worker
    } else if is_on(supervisor) {
        Role::Supervisor
    } else {
        Role::Outer
    }
}

/// The exit code of a worker: the program is done, there is a snapshot for the
/// next worker, or there was an error.
pub fn worker_exit(result: &Result<bool, String>) -> (r: i32)
    ensures
        r == match *result {
            Ok(true) => 0,
            Ok(false) => WORKER_RECYCLE as int,
            Err(_) => 1,
        },
{
    match result {
        Ok(done) => if *done { 0 } else { WORKER_RECYCLE },
        Err(_) => 1,
    }
}

/// An exit code as it is reported; there is none where a signal ended the
/// process.
pub open spec fn code_text(code: Option<i32>) -> Seq<char> {
    match code {
        Some(n) => "Some("@ + signed_dec(n as int) + ")"@,
        None => "None"@,
    }
}

fn code_string(code: Option<i32>) -> (r: String)
    ensures
        r@ == code_text(code),
{
    match code {
        Some(n) => {
            let mut out = "Some(".to_owned();
            push_signed_dec(&mut out, n as i64);
            out.append(")");
            out
        },
        None => "None".to_owned(),
    }
}

/// A rest of `ms` milliseconds `times` times over, as far as 64 bits can count.
pub open spec fn times_ms(ms: u64, times: u32) -> int {
    if ms * times > u64::MAX {
        u64::MAX as int
    } else {
        ms * times
    }
}

fn saturating_times(ms: u64, times: u32) -> (r: u64)
    ensures
        r == times_ms(ms, times),
{
    proof {
        assert(0 <= ms * times <= 0xffff_ffff_ffff_ffff * 0xffff_ffff) by (nonlinear_arith)
            requires
                0 <= ms <= 0xffff_ffff_ffff_ffff,
                0 <= times <= 0xffff_ffff,
        ;
    }
    let product = ms as u128 * times as u128;
    if product > 0xffff_ffff_ffff_ffff {
        0xffff_ffff_ffff_ffff
    } else {
        product as u64
    }
}

/// A supervisor: the workers that left a snapshot, and the failures in a row.
#[derive(Clone, Copy)]
pub struct Supervisor {
    pub rounds: u32,
    pub retries: u32,
}

/// What a supervisor does when a worker ends: it ends too, with success, because
/// its share of workers is used up, because the device is lost, or with an
/// error, for which the snapshot is removed; or it starts another worker, after a
/// rest, for which the device may be reset first.
pub enum WorkerEnded {
    Done,
    EndEpoch,
    LeaveLost,
    Fail { message: String },
    Again { rest_ms: u64, reset: bool },
}

/// What a supervisor does when a worker ends.
pub enum WorkerEndedModel {
    Done,
    EndEpoch,
    LeaveLost,
    Fail { message: Seq<char> },
    Again { rest_ms: int, reset: bool },
}

impl WorkerEndedModel {
    /// The exit code of a supervisor that ends so; none where it goes on.
    pub open spec fn exit_code(self) -> Option<i32> {
        match self {
            WorkerEndedModel::Done => Some(0i32),
            WorkerEndedModel::EndEpoch => Some(SUPERVISOR_EPOCH),
            WorkerEndedModel::LeaveLost => Some(DEVICE_LOST),
            WorkerEndedModel::Fail { .. } => Some(1i32),
            WorkerEndedModel::Again { .. } => None,
        }
    }
}

impl WorkerEnded {
    /// The exit code of a supervisor that ends so; none where it goes on.
    pub fn exit_code(&self) -> (r: Option<i32>)
        ensures
            r == self.model().exit_code(),
    {
        match self {
            WorkerEnded::Done => Some(0),
            WorkerEnded::EndEpoch => Some(SUPERVISOR_EPOCH),
            WorkerEnded::LeaveLost => Some(DEVICE_LOST),
            WorkerEnded::Fail { .. } => Some(1),
            WorkerEnded::Again { .. } => None,
        }
    }

    pub open spec fn model(self) -> WorkerEndedModel {
        match self {
            WorkerEnded::Done => WorkerEndedModel::Done,
            WorkerEnded::EndEpoch => WorkerEndedModel::EndEpoch,
            WorkerEnded::LeaveLost => WorkerEndedModel::LeaveLost,
            WorkerEnded::Fail { message } => WorkerEndedModel::Fail { message: message@ },
            WorkerEnded::Again { rest_ms, reset } => WorkerEndedModel::Again {
                rest_ms: rest_ms as int,
                reset,
            },
        }
    }
}

impl Supervisor {
    /// Another worker may follow.
    pub open spec fn running(self) -> bool {
        self.rounds < WORKERS_PER_EPOCH && self.retries <= MAX_WORKER_RETRIES
    }

    /// A supervisor at its start.
    pub fn new() -> (r: Supervisor)
        ensures
            r == (Supervisor { rounds: 0, retries: 0 }),
            r.running(),
    {
        Supervisor { rounds: 0, retries: 0 }
    }

    /// What follows when a worker ends with this exit code. `has_snap` says
    /// whether there is a snapshot to go on from.
    pub open spec fn judge(
        self,
        code: Option<i32>,
        has_snap: bool,
        recycle_ms: u64,
        lost_ms: u64,
    ) -> WorkerEndedModel {
        if code == Some(0i32) {
            WorkerEndedModel::Done
        } else if code == Some(WORKER_RECYCLE) {
            if self.rounds + 1 >= WORKERS_PER_EPOCH {
                WorkerEndedModel::EndEpoch
            } else {
                WorkerEndedModel::Again { rest_ms: recycle_ms as int, reset: false }
            }
        } else if code == Some(DEVICE_LOST) || code is None {
            if has_snap {
                WorkerEndedModel::LeaveLost
            } else if self.retries + 1 > MAX_WORKER_RETRIES {
                WorkerEndedModel::Fail {
                    message: "worker exited "@ + code_text(code) + " after "@ + dec(
                        (self.retries + 1) as nat,
                    ) + " retr"@ + if self.retries + 1 == 1 {
                        "y"@
                    } else {
                        "ies"@
                    } + "."@,
                }
            } else {
                let wait = times_ms(lost_ms, (self.retries + 1) as u32);
                WorkerEndedModel::Again {
                    rest_ms: if wait < MAX_WAIT_MS {
                        wait
                    } else {
                        MAX_WAIT_MS as int
                    },
                    reset: true,
                }
            }
        } else if code == Some(1i32) && has_snap {
            if self.retries + 1 > MAX_WORKER_RETRIES {
                WorkerEndedModel::Fail {
                    message: "worker exited Some(1) after "@ + dec((self.retries + 1) as nat)
                        + " retries"@,
                }
            } else {
                WorkerEndedModel::Again { rest_ms: lost_ms as int, reset: false }
            }
        } else {
            WorkerEndedModel::Fail { message: "worker exited "@ + code_text(code) }
        }
    }

    /// The supervisor after a worker that ended with this exit code, where
    /// another one follows.
    pub open spec fn after(self, code: Option<i32>) -> Supervisor {
        if code == Some(WORKER_RECYCLE) {
            Supervisor { rounds: (self.rounds + 1) as u32, retries: 0 }
        } else {
            Supervisor { rounds: self.rounds, retries: (self.retries + 1) as u32 }
        }
    }

    /// Takes in the exit code of a worker and says what follows.
    pub fn worker_ended(
        &mut self,
        code: Option<i32>,
        has_snap: bool,
        recycle_ms: u64,
        lost_ms: u64,
    ) -> (r: WorkerEnded)
        requires
            old(self).running(),
        ensures
            r.model() == old(self).judge(code, has_snap, recycle_ms, lost_ms),
            r is Again || r is EndEpoch ==> *final(self) == old(self).after(code),
            r is Again ==> final(self).running(),
            !(r is Again || r is EndEpoch) ==> *final(self) == *old(self),
    {
        let is_lost = match code {
            Some(n) => n == DEVICE_LOST,
            None => true,
        };
        if is_lost {
            // A retry in the same process dies at the same place: the next epoch
            // has to start outside of it.
            if has_snap {
                return WorkerEnded::LeaveLost;
            }
            let retries: u32 = self.retries + 1;
            if retries > MAX_WORKER_RETRIES {
                let mut message = "worker exited ".to_owned();
                let text = code_string(code);
                message.append(text.as_str());
                message.append(" after ");
                push_dec(&mut message, retries as u64);
                message.append(" retr");
                message.append(if retries == 1 { "y" } else { "ies" });
                message.append(".");
                return WorkerEnded::Fail { message };
            }
            self.retries = retries;
            let wait = saturating_times(lost_ms, retries);
            return WorkerEnded::Again {
                rest_ms: if wait < MAX_WAIT_MS { wait } else { MAX_WAIT_MS },
                reset: true,
            };
        }
        let n = code.unwrap();
        if n == 0 {
            WorkerEnded::Done
        } else if n == WORKER_RECYCLE {
            self.rounds = self.rounds + 1;
            self.retries = 0;
            if self.rounds >= WORKERS_PER_EPOCH {
                return WorkerEnded::EndEpoch;
            }
            WorkerEnded::Again { rest_ms: recycle_ms, reset: false }
        } else if n == 1 && has_snap {
            let retries: u32 = self.retries + 1;
            if retries > MAX_WORKER_RETRIES {
                let mut message = "worker exited Some(1) after ".to_owned();
                push_dec(&mut message, retries as u64);
                message.append(" retries");
                return WorkerEnded::Fail { message };
            }
            self.retries = retries;
            WorkerEnded::Again { rest_ms: lost_ms, reset: false }
        } else {
            let mut message = "worker exited ".to_owned();
            let text = code_string(code);
            message.append(text.as_str());
            WorkerEnded::Fail { message }
        }
    }

    /// How many more workers there can be at most.
    pub open spec fn fuel(self) -> int {
        (WORKERS_PER_EPOCH - self.rounds) * (MAX_WORKER_RETRIES + 1) - self.retries
    }
}

/// A supervisor comes to an end whatever its workers do: each worker that is
/// followed by another one uses up a part of a bounded measure.
pub proof fn law_supervisor_ends(
    s: Supervisor,
    code: Option<i32>,
    has_snap: bool,
    recycle_ms: u64,
    lost_ms: u64,
)
    requires
        s.running(),
        s.judge(code, has_snap, recycle_ms, lost_ms) is Again,
    ensures
        s.after(code).running(),
        0 <= s.after(code).fuel() < s.fuel(),
{
}

/// A lost device with a snapshot is never retried in the same process, whatever
/// came before, and a healthy worker clears the failures before it.
pub proof fn law_lost_leaves(s: Supervisor, recycle_ms: u64, lost_ms: u64)
    ensures
        s.judge(Some(DEVICE_LOST), true, recycle_ms, lost_ms) is LeaveLost,
        s.judge(None, true, recycle_ms, lost_ms) is LeaveLost,
        s.after(Some(WORKER_RECYCLE)).retries == 0,
{
}

/// The outer supervisor: the epochs so far, and the losses in a row.
#[derive(Clone, Copy)]
pub struct Outer {
    pub epochs: u32,
    pub lost: u32,
}

/// What the outer supervisor does when a supervisor ends: it ends with success,
/// for which the snapshot is removed; it ends with an error, for which the
/// snapshot may be kept; or it starts another supervisor, after a rest.
pub enum EpochEnded {
    Done,
    Fail { message: String, keep_snap: bool },
    Again { rest_ms: u64 },
}

/// What the outer supervisor does when a supervisor ends.
pub enum EpochEndedModel {
    Done,
    Fail { message: Seq<char>, keep_snap: bool },
    Again { rest_ms: int },
}

impl EpochEnded {
    pub open spec fn model(self) -> EpochEndedModel {
        match self {
            EpochEnded::Done => EpochEndedModel::Done,
            EpochEnded::Fail { message, keep_snap } => EpochEndedModel::Fail {
                message: message@,
                keep_snap,
            },
            EpochEnded::Again { rest_ms } => EpochEndedModel::Again { rest_ms: rest_ms as int },
        }
    }
}

impl Outer {
    /// Another supervisor may follow.
    pub open spec fn running(self) -> bool {
        self.lost <= MAX_LOST
    }

    /// The outer supervisor at its start.
    pub fn new() -> (r: Outer)
        ensures
            r == (Outer { epochs: 0, lost: 0 }),
            r.running(),
    {
        Outer { epochs: 0, lost: 0 }
    }

    /// What follows when a supervisor ends with this exit code. `has_snap` says
    /// whether there is a snapshot, in the directory `snap`, to go on from.
    pub open spec fn judge(
        self,
        code: i32,
        has_snap: bool,
        snap: Seq<char>,
        recycle_ms: u64,
    ) -> EpochEndedModel {
        if code == 0 {
            EpochEndedModel::Done
        } else if code == SUPERVISOR_EPOCH {
            EpochEndedModel::Again { rest_ms: recycle_ms as int }
        } else if (code == DEVICE_LOST || code == 1) && has_snap {
            if self.lost + 1 > MAX_LOST {
                EpochEndedModel::Fail {
                    message: "device-lost "@ + dec((self.lost + 1) as nat)
                        + " times in a row at snap "@ + snap + "; giving up"@,
                    keep_snap: true,
                }
            } else {
                EpochEndedModel::Again { rest_ms: LOST_REST_MS * (self.lost + 1) }
            }
        } else {
            EpochEndedModel::Fail {
                message: "supervisor exited "@ + code_text(Some(code)),
                keep_snap: false,
            }
        }
    }

    /// The outer supervisor after a supervisor that ended with this exit code,
    /// where another one follows.
    pub open spec fn after(self, code: i32) -> Outer {
        if code == SUPERVISOR_EPOCH {
            Outer { epochs: (self.epochs + 1) as u32, lost: 0 }
        } else {
            Outer { epochs: self.epochs, lost: (self.lost + 1) as u32 }
        }
    }

    /// Takes in the exit code of a supervisor and says what follows.
    pub fn epoch_ended(
        &mut self,
        code: i32,
        has_snap: bool,
        snap: &str,
        recycle_ms: u64,
    ) -> (r: EpochEnded)
        requires
            old(self).running(),
            code == SUPERVISOR_EPOCH ==> old(self).epochs < u32::MAX,
        ensures
            r.model() == old(self).judge(code, has_snap, snap@, recycle_ms),
            r is Again ==> *final(self) == old(self).after(code) && final(self).running(),
            r !is Again ==> *final(self) == *old(self),
    {
        if code == 0 {
            EpochEnded::Done
        } else if code == SUPERVISOR_EPOCH {
            self.epochs = self.epochs + 1;
            self.lost = 0;
            EpochEnded::Again { rest_ms: recycle_ms }
        } else if (code == DEVICE_LOST || code == 1) && has_snap {
            let lost: u32 = self.lost + 1;
            if lost > MAX_LOST {
                let mut message = "device-lost ".to_owned();
                push_dec(&mut message, lost as u64);
                message.append(" times in a row at snap ");
                message.append(snap);
                message.append("; giving up");
                return EpochEnded::Fail { message, keep_snap: true };
            }
            self.lost = lost;
            EpochEnded::Again { rest_ms: LOST_REST_MS * lost as u64 }
        } else {
            let mut message = "supervisor exited ".to_owned();
            let text = code_string(Some(code));
            message.append(text.as_str());
            EpochEnded::Fail { message, keep_snap: false }
        }
    }
}

/// A lost device rests longer each time in a row, and after the third time the
/// outer supervisor gives up but keeps the snapshot; an epoch that ends well
/// clears the losses before it.
pub proof fn law_outer_gives_up(o: Outer, code: i32, snap: Seq<char>, recycle_ms: u64)
    requires
        o.running(),
        code == DEVICE_LOST || code == 1,
    ensures
        match o.judge(code, true, snap, recycle_ms) {
            EpochEndedModel::Again { rest_ms } => o.lost < MAX_LOST && rest_ms == LOST_REST_MS
                * o.after(code).lost && o.after(code).lost > o.lost,
            EpochEndedModel::Fail { keep_snap, .. } => o.lost == MAX_LOST && keep_snap,
            EpochEndedModel::Done => false,
        },
        o.after(SUPERVISOR_EPOCH).lost == 0,
{
}

/// A lost device is never taken for one whose share of workers is used up: where
/// a supervisor leaves because of it, the outer supervisor lets it have the long
/// rest or gives up.
pub proof fn law_lost_device_rests(
    s: Supervisor,
    o: Outer,
    code: Option<i32>,
    snap: Seq<char>,
    recycle_ms: u64,
    lost_ms: u64,
)
    requires
        o.running(),
        code == Some(DEVICE_LOST) || code is None,
    ensures
        ({
            let left = s.judge(code, true, recycle_ms, lost_ms).exit_code();
            left is Some && match o.judge(left->0, true, snap, recycle_ms) {
                EpochEndedModel::Again { rest_ms } => rest_ms >= LOST_REST_MS,
                EpochEndedModel::Fail { keep_snap, .. } => keep_snap,
                EpochEndedModel::Done => false,
            }
        }),
{
}

} // verus!
