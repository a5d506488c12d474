use hvm::boot::Sizes;
use hvm::snap::{is_complete, read_snap, read_snap_u32s, rebuild_freelists, snap_paths, words_from_bytes, words_to_bytes};
use hvm::snap::{write_snap, GpuSnap, SnapFiles, SnapPaths, SnapReads, M_ITRS, M_MAX, M_NFREE, M_NLEN, M_NTHREADS, M_RLEN, M_VFREE, M_VLEN};

fn meta() -> [u32; 16] {
    let mut meta = [0u32; 16];
    for (i, word) in meta.iter_mut().enumerate() {
        *word = 100 + i as u32;
    }
    meta
}

fn sample() -> GpuSnap {
    GpuSnap {
        node: vec![1, 2, 0, 0, 0xDEAD_BEEF, 0, 0, 0],
        vars: vec![7, 0, 0, 9],
        rbag: vec![3, 4],
        workers: vec![5; 8],
        meta: meta(),
        nfree: vec![0, 3, 0, 0],
        vfree: vec![0, 2, 0, 0],
        itrs: 0x0102_0304_0506_0708,
    }
}

#[test]
fn words_and_bytes() {
    let words = [1u32, 0x0403_0201, u32::MAX];
    let bytes = words_to_bytes(&words);
    let expected: Vec<u8> = words.iter().flat_map(|w| w.to_ne_bytes()).collect();
    assert_eq!(bytes, expected);
    assert_eq!(words_from_bytes(&bytes), words.to_vec());
    assert_eq!(words_from_bytes(&bytes[4..8]), vec![0x0403_0201]);
    assert_eq!(words_to_bytes(&[]), Vec::<u8>::new());
}

#[test]
fn words_at_an_odd_address() {
    let mut bytes = vec![0u8];
    bytes.extend_from_slice(&words_to_bytes(&[11, 12, 13]));
    assert_eq!(words_from_bytes(&bytes[1..]), vec![11, 12, 13]);
}

fn paths() -> SnapPaths {
    snap_paths(&|name: &'static str| format!("d\\{name}"))
}

fn reads(files: SnapFiles) -> SnapReads {
    SnapReads {
        node: Ok(files.node),
        vars: Ok(files.vars),
        rbag: Ok(files.rbag),
        work: Ok(files.work),
        meta: Ok(files.meta),
        itrs: Ok(files.itrs),
        free: Some((Ok(files.nfree), Ok(files.vfree))),
    }
}

fn grow(read: &mut Result<Vec<u8>, String>) {
    read.as_mut().unwrap().push(0);
}

#[test]
fn words_of_a_file() {
    assert_eq!(read_snap_u32s("a/b", &Ok(words_to_bytes(&[5, 6]))), Ok(vec![5, 6]));
    assert_eq!(read_snap_u32s("a/b", &Ok(vec![1, 2, 3])), Err("a/b: not u32-aligned".to_string()));
    assert_eq!(read_snap_u32s("a/b", &Ok(Vec::new())), Ok(Vec::new()));
    assert_eq!(read_snap_u32s("a/b", &Err("gone".to_string())), Err("read a/b: gone".to_string()));
}

#[test]
fn paths_of_a_snapshot() {
    let paths = snap_paths(&|name: &'static str| format!("/tmp/s/{name}"));
    assert_eq!(paths.node, "/tmp/s/node.bin");
    assert_eq!(paths.vars, "/tmp/s/vars.bin");
    assert_eq!(paths.rbag, "/tmp/s/rbag.bin");
    assert_eq!(paths.work, "/tmp/s/work.bin");
    assert_eq!(paths.meta, "/tmp/s/meta.bin");
    assert_eq!(paths.itrs, "/tmp/s/itrs.bin");
    assert_eq!(paths.nfree, "/tmp/s/nfree.bin");
    assert_eq!(paths.vfree, "/tmp/s/vfree.bin");
}

#[test]
fn writing_and_reading() {
    let snap = sample();
    let files = write_snap(&snap);
    assert_eq!(files.itrs, vec![8, 7, 6, 5, 4, 3, 2, 1]);
    assert_eq!(files.vars, words_to_bytes(&[7, 0, 0, 9]));
    let back = read_snap(&paths(), &reads(files), 4).unwrap();
    assert_eq!(back.node, snap.node);
    assert_eq!(back.vars, snap.vars);
    assert_eq!(back.rbag, snap.rbag);
    assert_eq!(back.workers, snap.workers);
    assert_eq!(back.meta, snap.meta);
    assert_eq!(back.nfree, snap.nfree);
    assert_eq!(back.vfree, snap.vfree);
    assert_eq!(back.itrs, snap.itrs);
}

#[test]
fn reading_without_free_lists() {
    let snap = sample();
    let mut got = reads(write_snap(&snap));
    got.free = None;
    let back = read_snap(&paths(), &got, 4).unwrap();
    assert_eq!(back.nfree, vec![0, 3, 0, 0]);
    assert_eq!(back.vfree, vec![0, 2, 0, 0]);
    assert_eq!(back.meta[..14], snap.meta[..14]);
    assert_eq!(back.meta[M_NFREE], 1);
    assert_eq!(back.meta[M_VFREE], 1);
}

#[test]
fn reading_broken_files() {
    let fail = |f: fn(&mut SnapReads)| {
        let mut got = reads(write_snap(&sample()));
        f(&mut got);
        assert!(is_complete(&got));
        read_snap(&paths(), &got, 4).err()
    };
    let odd = |name: &str| Some(format!("d\\{name}: not u32-aligned"));
    assert_eq!(fail(|_| ()), None);
    assert_eq!(fail(|r| grow(&mut r.itrs)), Some("itrs.bin".to_string()));
    assert_eq!(fail(|r| grow(&mut r.node)), odd("node.bin"));
    assert_eq!(fail(|r| grow(&mut r.vars)), odd("vars.bin"));
    assert_eq!(fail(|r| grow(&mut r.rbag)), odd("rbag.bin"));
    assert_eq!(fail(|r| grow(&mut r.work)), odd("work.bin"));
    assert_eq!(fail(|r| grow(&mut r.meta)), odd("meta.bin"));
    assert_eq!(fail(|r| grow(&mut r.free.as_mut().unwrap().0)), odd("nfree.bin"));
    assert_eq!(fail(|r| grow(&mut r.free.as_mut().unwrap().1)), odd("vfree.bin"));
}

#[test]
fn the_first_error_counts() {
    let fail = |f: fn(&mut SnapReads)| {
        let mut got = reads(write_snap(&sample()));
        f(&mut got);
        read_snap(&paths(), &got, 4).err().unwrap()
    };
    let both = fail(|r| {
        grow(&mut r.rbag);
        grow(&mut r.node);
    });
    assert_eq!(both, "d\\node.bin: not u32-aligned");
    let later = fail(|r| {
        grow(&mut r.node);
        r.vars = Err("gone".to_string());
    });
    assert_eq!(later, "d\\node.bin: not u32-aligned");
    let earlier = fail(|r| {
        grow(&mut r.vars);
        r.node = Err("gone".to_string());
    });
    assert_eq!(earlier, "read d\\node.bin: gone");
    let counts = fail(|r| {
        r.itrs = Err("no count".to_string());
        r.node = Err("gone".to_string());
    });
    assert_eq!(counts, "no count");
}

#[test]
fn a_shared_state_that_is_too_short() {
    let mut got = reads(write_snap(&sample()));
    got.meta = Ok(vec![0; 60]);
    assert!(!is_complete(&got));
    got.meta = Ok(vec![0; 61]);
    assert!(is_complete(&got));
    got.meta = Ok(vec![0; 60]);
    got.node = Err("gone".to_string());
    assert!(is_complete(&got));
}

#[test]
fn free_lists_of_a_heap() {
    let node = vec![0, 0, 0, 0, 1, 0, 0, 0, 0, 2, 0, 0];
    let vars = vec![0, 5, 0, 0];
    let mut shared = meta();
    let (nfree, vfree) = rebuild_freelists(&node, &vars, 6, &mut shared);
    assert_eq!(nfree, vec![0, 3, 0, 5, 0, 0]);
    assert_eq!(vfree, vec![0, 0, 3, 0, 0, 0]);
    assert_eq!(shared[M_NFREE], 1);
    assert_eq!(shared[M_VFREE], 2);
    assert_eq!(shared[..14], meta()[..14]);
}

#[test]
fn free_lists_are_complete() {
    let node: Vec<u32> = (0..40u32).map(|i| if i / 2 % 3 == 0 { 1 } else { 0 }).collect();
    let vars: Vec<u32> = (0..20u32).map(|i| i % 2).collect();
    let mut shared = [0u32; 16];
    let (nfree, vfree) = rebuild_freelists(&node, &vars, 20, &mut shared);
    let walk = |list: &Vec<u32>, head: u32| {
        let mut seen = Vec::new();
        let mut at = head;
        while at != 0 {
            seen.push(at);
            at = list[at as usize];
        }
        seen
    };
    let free: Vec<u32> = (1..20).filter(|i| i % 3 != 0).collect();
    assert_eq!(walk(&nfree, shared[M_NFREE]), free);
    let free: Vec<u32> = (1..20).filter(|i| i % 2 == 0).collect();
    assert_eq!(walk(&vfree, shared[M_VFREE]), free);
}

#[test]
fn free_lists_of_small_heaps() {
    let mut shared = meta();
    assert_eq!(rebuild_freelists(&vec![0; 8], &vec![0; 4], 0, &mut shared), (vec![], vec![]));
    assert_eq!(rebuild_freelists(&vec![0; 8], &vec![0; 4], 1, &mut shared), (vec![0], vec![0]));
    assert_eq!(shared[M_NFREE], 0);
    assert_eq!(rebuild_freelists(&vec![0; 3], &vec![], 4, &mut shared), (vec![0; 4], vec![0; 4]));
}

#[test]
fn memory_at_the_start() {
    let sizes = Sizes { heap: 20, nthreads: 3, rspan: 4, overflow: 5 };
    let snap = GpuSnap::fresh(&sizes, 77, 6);
    assert_eq!(snap.node, vec![0; 40]);
    assert_eq!(snap.vars[0], u32::MAX);
    assert_eq!(snap.vars[1..], vec![0; 19]);
    assert_eq!(snap.rbag.len(), 34);
    assert_eq!(snap.rbag[..3], [6 * 8 + 1, 0xFFFF_FFF8, 0]);
    let mut workers = vec![0; 24];
    workers[4] = 1;
    workers[6] = 1;
    workers[8] = 6;
    workers[9] = 6;
    workers[16] = 12;
    workers[17] = 12;
    assert_eq!(snap.workers, workers);
    assert_eq!(snap.meta, [0, 0, 0, 20, 20, 77, 3, 4, 0, 1, 1, 0, 12, 5, 0, 0]);
    assert_eq!(snap.nfree, vec![0; 20]);
    assert_eq!(snap.vfree, vec![0; 20]);
    assert_eq!(snap.itrs, 0);
}

#[test]
fn lanes_start_inside_the_heap() {
    let sizes = Sizes { heap: 2, nthreads: 4, rspan: 1, overflow: 0 };
    let snap = GpuSnap::fresh(&sizes, 1, 0);
    let bases: Vec<u32> = (0..4).map(|tid| snap.workers[8 * tid]).collect();
    assert_eq!(bases, vec![0, 1, 1, 1]);
}

#[test]
fn fitting_a_snapshot() {
    let mut snap = sample();
    snap.fit(2, 6);
    let mut expected = meta();
    expected[M_NTHREADS] = 2;
    expected[M_NLEN] = 6;
    expected[M_VLEN] = 6;
    assert_eq!(snap.meta, expected);
    assert_eq!(snap.nfree, vec![0, 3, 0, 0, 0, 0]);
    snap.fit(2, 3);
    assert_eq!(snap.vfree, vec![0, 2, 0]);
    assert_eq!(snap.node, sample().node);
}

#[test]
fn leaving_a_snapshot() {
    let s = sample();
    let snap = GpuSnap::recycled(s.node, s.vars, s.rbag, s.workers, s.nfree, s.vfree, &meta(), 99, 5, 4096);
    let mut expected = meta();
    expected[M_ITRS] = 0;
    expected[M_RLEN] = 5;
    expected[M_MAX] = 4096;
    assert_eq!(snap.meta, expected);
    assert_eq!(snap.itrs, 99);
    assert_eq!(snap.workers, vec![5; 8]);
}

#[test]
fn sizes_of_the_memory() {
    let sizes = Sizes::new(16, 2, 4, 8).unwrap();
    assert_eq!((sizes.heap, sizes.nthreads, sizes.rspan, sizes.overflow), (16, 2, 4, 8));
    assert!(Sizes::new(0, 2, 4, 8).is_none());
    assert!(Sizes::new(16, 0, 4, 8).is_none());
    assert!(Sizes::new(16, 2, 0, 0).is_none());
    assert!(Sizes::new(16, 1 << 16, 1 << 16, 0).is_none());
    assert!(Sizes::new(16, 1, u32::MAX, 1).is_none());
    assert!(Sizes::new(16, 1, u32::MAX, 0).is_some());
}
