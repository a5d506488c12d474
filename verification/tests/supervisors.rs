use hvm::scripts::{epoch_bat, epoch_loop_bat, exit_text, wait_epoch_ps, wait_loop_ps};
use hvm::supervise::{role_of, worker_exit, EpochEnded, Outer, Role, Supervisor, WorkerEnded};

fn ended(s: &mut Supervisor, code: Option<i32>, has_snap: bool) -> WorkerEnded {
    s.worker_ended(code, has_snap, 2000, 8000)
}

fn rest(ended: WorkerEnded) -> (u64, bool) {
    match ended {
        WorkerEnded::Again { rest_ms, reset } => (rest_ms, reset),
        _ => panic!("no further worker"),
    }
}

fn failure(ended: WorkerEnded) -> String {
    match ended {
        WorkerEnded::Fail { message } => message,
        _ => panic!("no failure"),
    }
}

fn epoch(o: &mut Outer, code: i32, has_snap: bool) -> EpochEnded {
    o.epoch_ended(code, has_snap, "/tmp/s", 2000)
}

fn epoch_rest(ended: EpochEnded) -> u64 {
    match ended {
        EpochEnded::Again { rest_ms } => rest_ms,
        _ => panic!("no further supervisor"),
    }
}

#[test]
fn roles_of_a_process() {
    assert_eq!(role_of(Some("1"), None), Role::Worker);
    assert_eq!(role_of(Some("1"), Some("1")), Role::Worker);
    assert_eq!(role_of(Some("0"), Some("1")), Role::Supervisor);
    assert_eq!(role_of(None, Some("1")), Role::Supervisor);
    assert_eq!(role_of(None, Some("yes")), Role::Outer);
    assert_eq!(role_of(None, None), Role::Outer);
}

#[test]
fn exit_codes_of_a_worker() {
    assert_eq!(worker_exit(&Ok(true)), 0);
    assert_eq!(worker_exit(&Ok(false)), 10);
    assert_eq!(worker_exit(&Err("no GPU".to_string())), 1);
}

#[test]
fn workers_of_an_epoch() {
    let mut s = Supervisor::new();
    assert_eq!(rest(ended(&mut s, Some(10), true)), (2000, false));
    assert_eq!(rest(ended(&mut s, Some(10), true)), (2000, false));
    let last = ended(&mut s, Some(10), true);
    assert!(matches!(last, WorkerEnded::EndEpoch));
    assert_eq!(last.exit_code(), Some(11));
    let mut s = Supervisor::new();
    let done = ended(&mut s, Some(0), true);
    assert!(matches!(done, WorkerEnded::Done));
    assert_eq!(done.exit_code(), Some(0));
}

#[test]
fn lost_devices_with_a_snapshot() {
    for code in [Some(101), None] {
        let mut s = Supervisor::new();
        let left = ended(&mut s, code, true);
        assert!(matches!(left, WorkerEnded::LeaveLost));
        assert_eq!(left.exit_code(), Some(101));
        let mut o = Outer::new();
        assert_eq!(epoch_rest(epoch(&mut o, 101, true)), 30_000);
    }
}

#[test]
fn lost_devices_without_a_snapshot() {
    for (code, text) in [
        (Some(101), "worker exited Some(101) after 4 retries."),
        (None, "worker exited None after 4 retries."),
    ] {
        let mut s = Supervisor::new();
        assert_eq!(rest(ended(&mut s, code, false)), (8000, true));
        assert_eq!(rest(ended(&mut s, code, false)), (16000, true));
        assert_eq!(rest(ended(&mut s, code, false)), (24000, true));
        let last = ended(&mut s, code, false);
        assert_eq!(last.exit_code(), Some(1));
        assert_eq!(failure(last), text);
    }
    let mut s = Supervisor::new();
    let long = s.worker_ended(None, false, 1, 200_000);
    assert_eq!(rest(long), (200_000, true));
    assert_eq!(rest(s.worker_ended(None, false, 1, 200_000)), (300_000, true));
    let mut s = Supervisor { rounds: 0, retries: 2 };
    assert_eq!(rest(s.worker_ended(None, false, 1, u64::MAX)), (300_000, true));
}

#[test]
fn worker_errors() {
    let mut s = Supervisor::new();
    assert_eq!(rest(ended(&mut s, Some(1), true)), (8000, false));
    assert_eq!(rest(ended(&mut s, Some(1), true)), (8000, false));
    assert_eq!(rest(ended(&mut s, Some(1), true)), (8000, false));
    assert_eq!(failure(ended(&mut s, Some(1), true)), "worker exited Some(1) after 4 retries");
    let mut s = Supervisor::new();
    assert_eq!(failure(ended(&mut s, Some(1), false)), "worker exited Some(1)");
    assert_eq!(failure(ended(&mut s, Some(-9), true)), "worker exited Some(-9)");
    assert!(ended(&mut s, Some(10), true).exit_code().is_none());
}

#[test]
fn a_healthy_worker_clears_failures() {
    let mut s = Supervisor::new();
    ended(&mut s, Some(1), true);
    ended(&mut s, Some(1), true);
    assert_eq!(s.retries, 2);
    ended(&mut s, Some(10), true);
    assert_eq!((s.rounds, s.retries), (1, 0));
}

#[test]
fn a_supervisor_comes_to_an_end() {
    let mut s = Supervisor::new();
    let mut workers = 0;
    loop {
        workers += 1;
        let code = if workers % 4 == 0 { Some(10) } else { Some(1) };
        if ended(&mut s, code, true).exit_code().is_some() {
            break;
        }
    }
    assert_eq!(workers, 12);
}

#[test]
fn epochs() {
    let mut o = Outer::new();
    assert_eq!(epoch_rest(epoch(&mut o, 11, false)), 2000);
    assert_eq!(epoch_rest(epoch(&mut o, 11, true)), 2000);
    assert_eq!((o.epochs, o.lost), (2, 0));
    assert!(matches!(epoch(&mut o, 0, true), EpochEnded::Done));
}

#[test]
fn lost_epochs() {
    let mut o = Outer::new();
    assert_eq!(epoch_rest(epoch(&mut o, 101, true)), 30_000);
    assert_eq!(epoch_rest(epoch(&mut o, 1, true)), 60_000);
    assert_eq!(epoch_rest(epoch(&mut o, 101, true)), 90_000);
    match epoch(&mut o, 101, true) {
        EpochEnded::Fail { message, keep_snap } => {
            assert_eq!(message, "device-lost 4 times in a row at snap /tmp/s; giving up");
            assert!(keep_snap);
        }
        _ => panic!("goes on"),
    }
    epoch(&mut o, 11, true);
    assert_eq!(o.lost, 0);
}

#[test]
fn failed_epochs() {
    for (code, has_snap, text) in [
        (101, false, "supervisor exited Some(101)"),
        (1, false, "supervisor exited Some(1)"),
        (-3, true, "supervisor exited Some(-3)"),
    ] {
        let mut o = Outer::new();
        match epoch(&mut o, code, has_snap) {
            EpochEnded::Fail { message, keep_snap } => {
                assert_eq!(message, text);
                assert!(!keep_snap);
            }
            _ => panic!("goes on"),
        }
    }
}

#[test]
fn script_of_an_epoch_loop() {
    let args = vec!["run-wgpu".to_string(), "a b.hvm".to_string()];
    let bat = epoch_loop_bat("C:\\hvm.exe", &args, "C:\\s", "C:\\s\\epoch.log", true, 2500);
    assert_eq!(
        bat,
        "@echo off\r\nsetlocal\r\nset HVM_WGPU_SUPERVISOR=1\r\nset HVM_WGPU_WORKER=\r\n\
         set \"HVM_WGPU_SNAP=C:\\s\"\r\nset HVM_WGPU_DEBUG=1\r\n:loop\r\n\
         \"C:\\hvm.exe\" \"run-wgpu\" \"a b.hvm\" >>\"C:\\s\\epoch.log\" 2>&1\r\n\
         set EC=%ERRORLEVEL%\r\n\
         if %EC%==0 (\r\n>\"%HVM_WGPU_SNAP%\\done.txt\" echo 0\r\nexit /b 0\r\n)\r\n\
         if %EC%==11 (\r\nping -n 3 127.0.0.1 >nul\r\ngoto loop\r\n)\r\n\
         >\"%HVM_WGPU_SNAP%\\done.txt\" echo %EC%\r\nexit /b %EC%\r\n",
    );
    let quick = epoch_loop_bat("hvm", &Vec::new(), "s", "l", false, 10);
    assert!(quick.contains("ping -n 2 127.0.0.1"));
    assert!(quick.contains("set \"HVM_WGPU_SNAP=s\"\r\n:loop\r\n\"hvm\" >>\"l\" 2>&1\r\n"));
}

#[test]
fn script_of_one_epoch() {
    let args = vec!["run-wgpu".to_string()];
    let bat = epoch_bat("h.exe", &args, "s", "l", "x", true, Some("gl"), None, Some("4"), Some("256"));
    assert_eq!(
        bat,
        "@echo off\r\nset HVM_WGPU_SUPERVISOR=1\r\nset HVM_WGPU_WORKER=\r\n\
         set \"HVM_WGPU_SNAP=s\"\r\nset HVM_WGPU_DEBUG=1\r\nset \"HVM_WGPU_BACKEND=gl\"\r\n\
         set \"HVM_WGPU_THREADS=4\"\r\nset \"HVM_WGPU_STEPS=256\"\r\n\
         \"h.exe\" \"run-wgpu\" >>\"l\" 2>&1\r\n>\"x\" echo %ERRORLEVEL%\r\n",
    );
    let bare = epoch_bat("h", &Vec::new(), "s", "l", "x", false, None, Some("32"), None, None);
    assert!(bare.contains("set \"HVM_WGPU_SNAP=s\"\r\nset \"HVM_WGPU_HEAP=32\"\r\n\"h\" >>"));
}

#[test]
fn scripts_that_wait() {
    let ps = wait_loop_ps("C:\\it's\\done.txt", "C:\\it's\\loop.cmd");
    assert!(ps.starts_with(
        "$done = 'C:\\it''s\\done.txt'\r\n$r = Invoke-CimMethod -ClassName Win32_Process \
         -MethodName Create -Arguments @{ CommandLine = 'cmd.exe /d /c \"C:\\it''s\\loop.cmd\"' }\r\n",
    ));
    assert!(ps.contains("$deadline = (Get-Date).AddHours(6)\r\n"));
    assert!(ps.ends_with("  Start-Sleep -Milliseconds 800\r\n}\r\n"));
    let ps = wait_epoch_ps("exit.txt", "run.cmd");
    assert!(ps.starts_with("$exit = 'exit.txt'\r\n"));
    assert!(ps.contains("'cmd.exe /d /c \"run.cmd\"' }\r\n"));
    assert!(ps.contains("$deadline = (Get-Date).AddHours(2)\r\n"));
    assert!(ps.ends_with("  Start-Sleep -Milliseconds 400\r\n}\r\n"));
}

#[test]
fn exit_codes_in_files() {
    for text in ["0\r\n", " 11 ", "-5\n", "\u{a0}\u{3000}7\u{2028}", "", "  ", "x", "1 2", "\u{200b}1", "4294967296"] {
        assert_eq!(exit_text(text), text.trim().parse::<i32>().ok());
    }
    assert_eq!(exit_text("101 \r\n"), Some(101));
}

#[test]
fn the_last_epoch_that_can_be_counted() {
    let mut o = Outer { epochs: u32::MAX, lost: 0 };
    assert!(matches!(epoch(&mut o, 0, true), EpochEnded::Done));
    assert_eq!(epoch_rest(epoch(&mut o, 101, true)), 30_000);
    assert_eq!(o.epochs, u32::MAX);
}
