use hvm::boot::Sizes;
use hvm::config::{backend_of, check_features, check_storage, heap_len_for, is_on, nthreads_len, u32_setting, u64_setting};
use hvm::config::{Backend, DEFAULT_HEAP, DEFAULT_NTHREADS};
use hvm::session::{begin, err_msg, first_steps, groups, AfterKernel, Session, Verdict};
use hvm::snap::{GpuSnap, M_ERR, M_ITRS, M_MAX, M_OFLOW, M_OOM};

fn session() -> Session {
    Session::new(1024, 2, 16, false, 8192, 1000)
}

fn workers(first: u32, second: u32) -> Vec<u32> {
    let mut w = vec![0; 16];
    w[4] = first;
    w[12] = second;
    w
}

fn shared(itrs: u32) -> [u32; 16] {
    let mut m = [0u32; 16];
    m[M_ITRS] = itrs;
    m
}

fn message(verdict: Verdict) -> String {
    match verdict {
        Verdict::Fail { message } => message,
        _ => panic!("no failure"),
    }
}

fn launched(verdict: Verdict) -> (u32, bool) {
    match verdict {
        Verdict::Launch { remaining, steps_changed } => (remaining, steps_changed),
        _ => panic!("no further dispatch"),
    }
}

#[test]
fn workgroups() {
    assert_eq!(groups(1), 1);
    assert_eq!(groups(64), 1);
    assert_eq!(groups(65), 2);
    assert_eq!(groups(0), 0);
    assert_eq!(groups(u32::MAX), 1 << 26);
}

#[test]
fn device_errors() {
    assert_eq!(err_msg(1), "invalid fid in CALL");
    assert_eq!(err_msg(2), "attempt to clone a non-affine global reference");
    assert_eq!(err_msg(3), "def too large for nloc/vloc");
    assert_eq!(err_msg(17), "device error 17");
}

#[test]
fn steps_of_the_first_dispatch() {
    assert_eq!(first_steps(true, true, 256, 8192), 8192);
    assert_eq!(first_steps(false, true, 256, 8192), 256);
    assert_eq!(first_steps(false, true, 0, 8192), 8192);
    assert_eq!(first_steps(false, false, 256, 8192), 8192);
}

#[test]
fn looks_after_dispatches() {
    let mut s = session();
    assert!(matches!(s.after_kernel(10), AfterKernel::Launch));
    assert!(matches!(s.after_kernel(10), AfterKernel::Check));
    assert!(matches!(s.after_kernel(1400), AfterKernel::Launch));
    assert!(matches!(s.after_kernel(10), AfterKernel::Check));
    assert!(matches!(s.after_kernel(1401), AfterKernel::Check));
    assert_eq!((s.turns, s.kernels), (5, 5));
    s.kernels = 16;
    assert!(matches!(s.after_kernel(10), AfterKernel::Check));
}

#[test]
fn dispatches_are_used_up() {
    let mut s = session();
    s.turns = (1 << 20) - 1;
    match s.after_kernel(10) {
        AfterKernel::Fail { message } => assert_eq!(message, "turn cap (1048576) itrs=1000"),
        _ => panic!("goes on"),
    }
    let mut s = session();
    s.turns = 1 << 20;
    let text = message(s.after_check(&shared(5), &workers(1, 2), 700));
    assert_eq!(text, "turn cap (1048576) with remain=3 itrs=1005");
}

#[test]
fn errors_come_first() {
    let mut m = shared(5);
    m[M_ERR] = 2;
    m[M_OOM] = 1;
    let text = message(session().after_check(&m, &workers(0, 0), 10));
    assert_eq!(text, "attempt to clone a non-affine global reference");
    m[M_ERR] = 0;
    let text = message(session().after_check(&m, &workers(0, 0), 10));
    assert_eq!(
        text,
        "OOM after 1005 itrs (heap=1024, threads=2, rspan=16). Set HVM_WGPU_HEAP larger.",
    );
}

#[test]
fn a_program_is_done() {
    let mut s = session();
    assert!(matches!(s.after_check(&shared(5), &workers(0, 0), 10), Verdict::Done));
    assert_eq!(s.itrs, 1005);
    let mut m = shared(5);
    m[M_OFLOW] = 1;
    assert_eq!(launched(session().after_check(&m, &workers(0, 0), 700)), (1, false));
    assert_eq!(launched(session().after_check(&shared(5), &workers(0, 4), 700)), (4, false));
}

#[test]
fn redexes_are_counted_as_far_as_possible() {
    let mut m = shared(5);
    m[M_OFLOW] = u32::MAX;
    assert_eq!(launched(session().after_check(&m, &workers(3, 4), 700)), (u32::MAX, false));
}

#[test]
fn steps_are_adapted() {
    let run = |steps: u32, itrs: u32, ms: u128| {
        let mut s = session();
        s.steps = steps;
        let (_, changed) = launched(s.after_check(&shared(itrs), &workers(1, 0), ms));
        assert_eq!(changed, s.steps != steps);
        s.steps
    };
    assert_eq!(run(8192, 5, 599), 16384);
    assert_eq!(run(8192, 5, 600), 8192);
    assert_eq!(run(8192, 0, 10), 8192);
    assert_eq!(run(200_000, 5, 10), 1 << 18);
    assert_eq!(run(1 << 18, 5, 10), 1 << 18);
    assert_eq!(run(8192, 5, 1600), 8192);
    assert_eq!(run(8192, 5, 1601), 4096);
    assert_eq!(run(300, 5, 2000), 256);
    assert_eq!(run(256, 5, 2000), 256);
    assert_eq!(run(100, 5, 2000), 100);
    let mut s = session();
    s.steps_fixed = true;
    assert_eq!(launched(s.after_check(&shared(5), &workers(1, 0), 10)), (1, false));
    assert_eq!(s.steps, 8192);
}

#[test]
fn a_run_without_progress() {
    let mut s = session();
    s.turns = 3;
    for stall in 0..8 {
        assert_eq!(launched(s.after_check(&shared(7), &workers(2, 0), 700)), (2, false));
        assert_eq!(s.stall, stall);
    }
    let text = message(s.after_check(&shared(7), &workers(2, 0), 700));
    assert_eq!(text, "stalled at 1007 itrs with remain=2 (heap=1024, threads=2)");
    assert_eq!(launched(s.after_check(&shared(8), &workers(2, 0), 700)), (2, false));
    assert_eq!(s.stall, 0);
}

#[test]
fn early_looks_do_not_stall() {
    let mut s = session();
    s.turns = 2;
    s.prev_itrs = 7;
    launched(s.after_check(&shared(7), &workers(2, 0), 700));
    assert_eq!(s.stall, 0);
}

#[test]
fn a_device_has_had_its_time() {
    for (kernels, ms, recycled) in [(16, 10, true), (15, 1400, false), (8, 1401, true), (7, 1401, false)] {
        let mut s = session();
        s.kernels = kernels;
        let verdict = s.after_check(&shared(5), &workers(2, 1), ms);
        assert_eq!(matches!(verdict, Verdict::Recycle { remaining: 3 }), recycled);
        assert_eq!(s.itrs, if recycled { 1005 } else { 1000 });
    }
}

#[test]
fn a_worker_ends_in_time() {
    let mut s = session();
    let mut dispatches = 0;
    loop {
        dispatches += 1;
        if matches!(s.after_kernel(10), AfterKernel::Check) {
            let m = shared(dispatches);
            if matches!(s.after_check(&m, &workers(1, 0), 10), Verdict::Recycle { .. }) {
                break;
            }
        }
    }
    assert_eq!(dispatches, 16);
}

#[test]
fn steps_survive_a_snapshot() {
    let snap = GpuSnap::recycled(vec![], vec![], vec![], vec![], vec![], vec![], &shared(9), 1009, 3, 512);
    let mut snap = snap;
    snap.fit(4, 32);
    assert_eq!(first_steps(false, true, snap.meta[M_MAX], 8192), 512);
    assert_eq!(snap.itrs + snap.meta[M_ITRS] as u64, 1009);
}

#[test]
fn one_redex_at_the_start() {
    let sizes = Sizes { heap: 64, nthreads: 4, rspan: 8, overflow: 8 };
    let snap = GpuSnap::fresh(&sizes, 100, 0);
    let mut s = Session::new(64, 4, 8, true, 100, 0);
    assert_eq!(launched(s.after_check(&snap.meta, &snap.workers, 10)), (1, false));
}

#[test]
fn settings() {
    assert_eq!(u32_setting(None, 5), 5);
    assert_eq!(u32_setting(Some("12"), 5), 12);
    assert_eq!(u32_setting(Some("+12"), 5), 12);
    assert_eq!(u32_setting(Some("twelve"), 5), 5);
    assert_eq!(u32_setting(Some("4294967296"), 5), 5);
    assert_eq!(u64_setting(Some("4294967296"), 5), 4294967296);
    assert_eq!(u64_setting(Some("-1"), 2000), 2000);
    assert!(is_on(Some("1")));
    assert!(!is_on(Some("01")));
    assert!(!is_on(None));
}

#[test]
fn heap_sizes() {
    assert_eq!(heap_len_for(1 << 40, DEFAULT_HEAP), 1 << 23);
    assert_eq!(heap_len_for(1 << 40, 0), 16);
    assert_eq!(heap_len_for(1 << 40, 17), 32);
    assert_eq!(heap_len_for(1 << 40, 1000), 1024);
    assert_eq!(heap_len_for(800, 1000), 128);
    assert_eq!(heap_len_for(0, 1000), 16);
    assert_eq!(heap_len_for(u64::MAX, 1 << 31), 1 << 31);
}

#[test]
fn lane_counts() {
    assert_eq!(nthreads_len(1 << 23, DEFAULT_NTHREADS), 8);
    assert_eq!(nthreads_len(1 << 23, 0), 1);
    assert_eq!(nthreads_len(64, 8), 4);
    assert_eq!(nthreads_len(16, 8), 1);
    assert_eq!(nthreads_len(8, 8), 1);
}

#[test]
fn storage_that_is_needed() {
    let sizes = Sizes { heap: 1024, nthreads: 2, rspan: 16, overflow: 8 };
    assert_eq!(check_storage(&sizes, 10, 8192), Ok(()));
    assert_eq!(
        check_storage(&sizes, 10, 8191),
        Err("adapter max_storage_buffer_binding_size=8191 < needed 8192 (lower HVM_WGPU_HEAP)".to_string()),
    );
    let sizes = Sizes { heap: 16, nthreads: 2, rspan: 16, overflow: 8 };
    assert!(check_storage(&sizes, 10, 320).is_ok());
    assert!(check_storage(&sizes, 10, 319).is_err());
    assert!(check_storage(&sizes, 100, 400).is_ok());
    assert!(check_storage(&sizes, 100, 399).is_err());
}

#[test]
fn features_that_are_needed() {
    assert_eq!(check_features(true, true), Ok(()));
    for (int64, atomics) in [(true, false), (false, true), (false, false)] {
        let e = check_features(int64, atomics).unwrap_err();
        assert_eq!(
            e,
            "this adapter lacks SHADER_INT64_ATOMIC_ALL_OPS; run-wgpu needs 64-bit pair atomics \
             so parallel lanes do not tear CON/DUP ports (which looks like cloning a non-affine REF)",
        );
    }
}

#[test]
fn backends() {
    assert_eq!(backend_of("dx12"), Backend::Dx12);
    assert_eq!(backend_of("D3D12"), Backend::Dx12);
    assert_eq!(backend_of("gl"), Backend::Gl);
    assert_eq!(backend_of("GLes"), Backend::Gl);
    assert_eq!(backend_of("vulkan"), Backend::Vulkan);
    assert_eq!(backend_of("metal"), Backend::Vulkan);
    assert_eq!(backend_of(""), Backend::Vulkan);
}

#[test]
fn a_worker_begins() {
    let sizes = Sizes { heap: 64, nthreads: 4, rspan: 8, overflow: 8 };
    let (snap, s) = begin(None, &sizes, false, 8192, 3);
    assert_eq!(snap.meta[M_MAX], 8192);
    assert_eq!(snap.rbag[0], 3 * 8 + 1);
    assert_eq!((s.heap, s.nthreads, s.rspan, s.steps, s.itrs), (64, 4, 8, 8192, 0));
    let left = GpuSnap::recycled(vec![7], vec![], vec![], vec![], vec![1, 2], vec![], &shared(9), 50, 1, 512);
    let (snap, s) = begin(Some(left), &sizes, false, 8192, 3);
    assert_eq!((snap.meta[M_MAX], s.steps, s.itrs), (512, 512, 50));
    assert_eq!(snap.node, vec![7]);
    assert_eq!(snap.nfree.len(), 64);
    let left = GpuSnap::recycled(vec![], vec![], vec![], vec![], vec![], vec![], &shared(9), 50, 1, 512);
    let (snap, s) = begin(Some(left), &sizes, true, 100, 3);
    assert_eq!((snap.meta[M_MAX], s.steps), (100, 100));
}

#[test]
fn interactions_add_up_over_workers() {
    let sizes = Sizes { heap: 64, nthreads: 2, rspan: 8, overflow: 8 };
    let mut saved = None;
    let mut total = 0;
    for device in [100u32, 20, 3] {
        let (_, mut s) = begin(saved, &sizes, false, 8192, 0);
        s.kernels = 16;
        let last = device == 3;
        let w = workers(if last { 0 } else { 1 }, 0);
        match s.after_check(&shared(device), &w, 10) {
            Verdict::Recycle { remaining } => {
                assert!(!last);
                saved = Some(GpuSnap::recycled(
                    vec![], vec![], vec![], w, vec![], vec![], &shared(device), s.itrs, remaining, s.steps,
                ));
            }
            Verdict::Done => {
                assert!(last);
                saved = None;
            }
            _ => panic!("goes on"),
        }
        total = s.itrs;
    }
    assert_eq!(total, 123);
}

#[test]
fn steps_double_and_halve() {
    let mut s = Session::new(64, 2, 8, false, 8192, 0);
    let mut seen = vec![s.steps];
    for (i, ms) in [10u128, 10, 10, 10, 10, 10, 2000, 2000, 700].into_iter().enumerate() {
        launched(s.after_check(&shared(i as u32 + 1), &workers(1, 0), ms));
        seen.push(s.steps);
    }
    assert_eq!(seen, vec![8192, 16384, 32768, 65536, 131072, 262144, 262144, 131072, 65536, 65536]);
}
