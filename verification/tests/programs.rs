use hvm::emit::{gen_c, gen_cu};
use hvm::threads::{built_tpc_l2, cli_threads, default_tpc, tpc_l2};

#[test]
fn thread_counts() {
    let logs: Vec<u32> = [0, 1, 2, 3, 4, 7, 8, 15, 16, 31, 64].into_iter().map(tpc_l2).collect();
    assert_eq!(logs, vec![0, 0, 1, 1, 2, 2, 3, 3, 4, 4, 4]);
    let counts: Vec<u32> = [0, 1, 2, 3, 4, 7, 8, 15, 16, 64].into_iter().map(default_tpc).collect();
    assert_eq!(counts, vec![1, 1, 2, 2, 4, 4, 8, 8, 8, 8]);
}

#[test]
fn thread_settings() {
    assert_eq!(built_tpc_l2(None, 12), 3);
    assert_eq!(built_tpc_l2(Some("5"), 12), 5);
    assert_eq!(built_tpc_l2(Some("9"), 12), 8);
    assert_eq!(built_tpc_l2(Some("many"), 12), 3);
    assert_eq!(cli_threads(None, None, 6), 4);
    assert_eq!(cli_threads(None, Some("12"), 6), 12);
    assert_eq!(cli_threads(None, Some("x"), 6), 4);
    assert_eq!(cli_threads(Some(2), Some("12"), 6), 2);
    assert_eq!(cli_threads(Some(32), None, 6), 16);
}

#[test]
fn a_c_program() {
    let template = "#include \"hvm_os.h\"\n#define INTERPRETED\n#define WITHOUT_MAIN\n#define TPC_L2 0\n\
                    //COMPILED_BOOK_BUF//\n///COMPILED_INTERACT_CALL///\n";
    let runner = "#include \"hvm.c\"\nint io;\n";
    let program = gen_c(template, "/*os*/", runner, "calls();", &vec![1, 20, 255], 6);
    assert_eq!(
        program,
        "#define IO\n\n/*os*/\n#define COMPILED\n#define WITH_MAIN\n#define TPC_L2 2 // 6 cores\n\
         static const u8 BOOK_BUF[] = {1, 20, 255};\ncalls();\n\n\n\nint io;\n",
    );
    let single = gen_c("#define TPC_L2 0", "", "", "", &Vec::new(), 0);
    assert_eq!(single, "#define IO\n\n#define TPC_L2 0 // 1 cores\n\n");
}

#[test]
fn a_cuda_program() {
    let template = "#include \"hvm_os.h\"\n#define INTERPRETED\n#define WITHOUT_MAIN\n//COMPILED_BOOK_BUF//\n";
    let runner = "#include \"hvm.cu\"\n#include \"hvm_os.h\"\n";
    assert_eq!(
        gen_cu(template, "/*os*/", runner, &Vec::new()),
        "#define IO\n\n/*os*/\n#define INTERPRETED\n#define WITH_MAIN\n\
         static const u8 BOOK_BUF[] = {};\n\n\n\n/*os*/\n",
    );
}
