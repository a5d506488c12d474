//! Standalone programs in other languages, made from their templates.
use vstd::prelude::*;
use crate::text::{dec, push_dec, replace_all, replace_str};
use crate::threads::{capped_log2, tpc_l2};

verus! {

/// The numbers with a comma and a blank between two of them.
pub open spec fn listed(bytes: Seq<u8>) -> Seq<char>
    decreases bytes.len(),
{
    if bytes.len() == 0 {
        Seq::empty()
    } else if bytes.len() == 1 {
        dec(bytes[0] as nat)
    } else {
        listed(bytes.drop_last()) + ", "@ + dec(bytes.last() as nat)
    }
}

/// The declaration of a book's bytes.
pub open spec fn book_buf_text(bytes: Seq<u8>) -> Seq<char> {
    "static const u8 BOOK_BUF[] = {"@ + listed(bytes) + "};"@
}

fn push_listed(out: &mut String, bytes: &Vec<u8>)
    ensures
        final(out)@ == old(out)@ + listed(bytes@),
{
    let ghost before = out@;
    let mut i: usize = 0;
    proof {
        assert(bytes@.take(0) =~= Seq::empty());
        assert(before + Seq::<char>::empty() =~= before);
    }
    while i < bytes.len()
        invariant
            i <= bytes@.len(),
            out@ == before + listed(bytes@.take(i as int)),
        decreases bytes@.len() - i,
    {
        if i > 0 {
            out.append(", ");
        }
        push_dec(out, bytes[i] as u64);
        proof {
            assert(bytes@.take(i + 1).drop_last() =~= bytes@.take(i as int));
            assert(out@ =~= before + listed(bytes@.take(i + 1)));
        }
        i += 1;
    }
    proof {
        assert(bytes@.take(i as int) =~= bytes@);
    }
}

fn book_buf(bytes: &Vec<u8>) -> (r: String)
    ensures
        r@ == book_buf_text(bytes@),
{
    let mut out = "static const u8 BOOK_BUF[] = {".to_owned();
    push_listed(&mut out, bytes);
    out.append("};");
    out
}

/// The line that says how many threads a standalone program has.
pub open spec fn tpc_text(cores: nat) -> Seq<char> {
    "#define TPC_L2 "@ + dec(capped_log2(cores as int, 4) as nat) + " // "@ + dec(cores) + " cores"@
}

/// The C program: the template with input and output, with the header, the
/// compiled calls, the bytes of the book and the number of threads put in, and
/// the runner after it.
pub open spec fn c_program(
    template: Seq<char>,
    os_header: Seq<char>,
    runner: Seq<char>,
    calls: Seq<char>,
    book: Seq<u8>,
    cores: nat,
) -> Seq<char> {
    let a = "#define IO\n\n"@ + replace_all(template, "#include \"hvm_os.h\""@, os_header);
    let b = replace_all(a, "///COMPILED_INTERACT_CALL///"@, calls);
    let c = replace_all(b, "#define INTERPRETED"@, "#define COMPILED"@);
    let d = replace_all(c, "//COMPILED_BOOK_BUF//"@, book_buf_text(book));
    let e = replace_all(d, "#define WITHOUT_MAIN"@, "#define WITH_MAIN"@);
    let f = replace_all(e, "#define TPC_L2 0"@, tpc_text(cores));
    replace_all(f + "\n\n"@ + runner, "#include \"hvm.c\""@, ""@)
}

/// The standalone C program of a book, for a machine with so many cores.
pub fn gen_c(
    template: &str,
    os_header: &str,
    runner: &str,
    calls: &str,
    book: &Vec<u8>,
    cores: usize,
) -> (r: String)
    ensures
        r@ == c_program(
            template@,
            os_header@,
            runner@,
            calls@,
            book@,
            if cores >= 1 {
                cores as nat
            } else {
                1
            },
        ),
{
    proof {
        reveal_strlit("#include \"hvm_os.h\"");
        reveal_strlit("///COMPILED_INTERACT_CALL///");
        reveal_strlit("#define INTERPRETED");
        reveal_strlit("//COMPILED_BOOK_BUF//");
        reveal_strlit("#define WITHOUT_MAIN");
        reveal_strlit("#define TPC_L2 0");
        reveal_strlit("#include \"hvm.c\"");
    }
    let cores = if cores >= 1 { cores } else { 1 };
    let l2 = tpc_l2(cores);
    let bytes = book_buf(book);
    let mut tpc = "#define TPC_L2 ".to_owned();
    push_dec(&mut tpc, l2 as u64);
    tpc.append(" // ");
    push_dec(&mut tpc, cores as u64);
    tpc.append(" cores");
    let with_os = replace_str(template, "#include \"hvm_os.h\"", os_header);
    let mut out = "#define IO\n\n".to_owned();
    out.append(with_os.as_str());
    let out = replace_str(out.as_str(), "///COMPILED_INTERACT_CALL///", calls);
    let out = replace_str(out.as_str(), "#define INTERPRETED", "#define COMPILED");
    let out = replace_str(out.as_str(), "//COMPILED_BOOK_BUF//", bytes.as_str());
    let out = replace_str(out.as_str(), "#define WITHOUT_MAIN", "#define WITH_MAIN");
    let mut out = replace_str(out.as_str(), "#define TPC_L2 0", tpc.as_str());
    out.append("\n\n");
    out.append(runner);
    replace_str(out.as_str(), "#include \"hvm.c\"", "")
}

/// The CUDA program: the template with input and output, with the bytes of the
/// book put in, the runner after it, and the header put in. It interprets the
/// book.
pub open spec fn cuda_program(
    template: Seq<char>,
    os_header: Seq<char>,
    runner: Seq<char>,
    book: Seq<u8>,
) -> Seq<char> {
    let a = replace_all(
        "#define IO\n\n"@ + template,
        "//COMPILED_BOOK_BUF//"@,
        book_buf_text(book),
    );
    let b = replace_all(a, "#define WITHOUT_MAIN"@, "#define WITH_MAIN"@);
    let c = replace_all(b + "\n\n"@ + runner, "#include \"hvm_os.h\""@, os_header);
    replace_all(c, "#include \"hvm.cu\""@, ""@)
}

/// The standalone CUDA program of a book.
pub fn gen_cu(template: &str, os_header: &str, runner: &str, book: &Vec<u8>) -> (r: String)
    ensures
        r@ == cuda_program(template@, os_header@, runner@, book@),
{
    proof {
        reveal_strlit("//COMPILED_BOOK_BUF//");
        reveal_strlit("#define WITHOUT_MAIN");
        reveal_strlit("#include \"hvm_os.h\"");
        reveal_strlit("#include \"hvm.cu\"");
    }
    let bytes = book_buf(book);
    let mut out = "#define IO\n\n".to_owned();
    out.append(template);
    let out = replace_str(out.as_str(), "//COMPILED_BOOK_BUF//", bytes.as_str());
    let mut out = replace_str(out.as_str(), "#define WITHOUT_MAIN", "#define WITH_MAIN");
    out.append("\n\n");
    out.append(runner);
    let out = replace_str(out.as_str(), "#include \"hvm_os.h\"", os_header);
    replace_str(out.as_str(), "#include \"hvm.cu\"", "")
}

} // verus!
