//! What holds of standalone programs: the bytes of the book can be read from
//! them, and each line of a template stands for a line, or lines, of the program.
use vstd::arithmetic::logarithm::{lemma_log0, lemma_log_nonnegative, lemma_log_s, log};
use vstd::arithmetic::power2::{lemma2_to64, lemma_pow2_unfold, pow2};
use vstd::prelude::*;
use crate::emit::{book_buf_text, c_program, cuda_program, listed, tpc_text};
use crate::reading::{digit_value, is_numeral, lacks, law_dec_value, law_replace, lemma_split_join, lemma_split_one, numeral_value, split};
use crate::text::{dec, lemma_find_from, occurs_at, replace_all};
use crate::threads::capped_log2;

verus! {

/// The list of bytes, read at its commas: there is a numeral for each byte, in
/// order, zeros too, which is read as that byte; a blank is before each but the
/// first. An empty list is an empty text.
pub proof fn law_list_read(bytes: Seq<u8>)
    ensures
        bytes.len() == 0 ==> listed(bytes).len() == 0,
        bytes.len() > 0 ==> split(listed(bytes), ',').len() == bytes.len(),
        bytes.len() > 0 ==> is_numeral(split(listed(bytes), ',')[0], 10) && numeral_value(
            split(listed(bytes), ',')[0],
            10,
        ) == bytes[0],
        forall|i: int|
            1 <= i < bytes.len() ==> {
                let piece = #[trigger] split(listed(bytes), ',')[i];
                &&& piece.len() > 1
                &&& piece[0] == ' '
                &&& is_numeral(piece.skip(1), 10)
                &&& numeral_value(piece.skip(1), 10) == bytes[i]
            },
    decreases bytes.len(),
{
    if bytes.len() == 1 {
        lemma_dec_plain(bytes[0] as nat);
        lemma_split_one(dec(bytes[0] as nat), ',');
    } else if bytes.len() > 1 {
        let init = bytes.drop_last();
        let last = dec(bytes.last() as nat);
        let piece = seq![' '] + last;
        law_list_read(init);
        lemma_dec_plain(bytes.last() as nat);
        reveal_strlit(", ");
        assert(listed(bytes) =~= listed(init) + seq![','] + piece);
        lemma_split_join(listed(init), ',', piece);
        assert(lacks(piece, ',')) by {
            assert forall|i: int| 0 <= i < piece.len() implies #[trigger] piece[i] != ',' by {
                if i > 0 {
                    assert(piece[i] == last[i - 1]);
                }
            }
        }
        lemma_split_one(piece, ',');
        assert(piece.skip(1) =~= last);
        let pieces = split(listed(bytes), ',');
        assert(pieces =~= split(listed(init), ',') + seq![piece]);
        assert forall|i: int| 1 <= i < bytes.len() implies {
            let piece = #[trigger] pieces[i];
            &&& piece.len() > 1
            &&& piece[0] == ' '
            &&& is_numeral(piece.skip(1), 10)
            &&& numeral_value(piece.skip(1), 10) == bytes[i]
        } by {
            if i < init.len() {
                assert(pieces[i] == split(listed(init), ',')[i]);
            }
        }
    }
}

proof fn lemma_dec_plain(n: nat)
    ensures
        is_numeral(dec(n), 10),
        numeral_value(dec(n), 10) == n,
        lacks(dec(n), ','),
        lacks(dec(n), '#'),
        lacks(dec(n), '\n'),
{
    law_dec_value(n);
    assert forall|i: int| 0 <= i < dec(n).len() implies #[trigger] dec(n)[i] != ',' && dec(n)[i]
        != '#' && dec(n)[i] != '\n' by {
        assert(0 <= digit_value(dec(n)[i]) < 10);
    }
}

/// Different books have different lists, and different declarations.
pub proof fn law_lists_differ(a: Seq<u8>, b: Seq<u8>)
    ensures
        listed(a) == listed(b) ==> a == b,
        book_buf_text(a) == book_buf_text(b) ==> a == b,
{
    let open = "static const u8 BOOK_BUF[] = {"@;
    let close = "};"@;
    if book_buf_text(a) == book_buf_text(b) {
        assert(book_buf_text(a).subrange(
            open.len() as int,
            book_buf_text(a).len() - close.len(),
        ) =~= listed(a));
        assert(book_buf_text(b).subrange(
            open.len() as int,
            book_buf_text(b).len() - close.len(),
        ) =~= listed(b));
    }
    if listed(a) == listed(b) {
        law_list_read(a);
        law_list_read(b);
        if a.len() == 0 || b.len() == 0 {
            if a.len() > 0 {
                assert(listed(a).len() == 0);
                assert(split(listed(a), ',')[0].len() > 0);
            }
            if b.len() > 0 {
                assert(listed(b).len() == 0);
                assert(split(listed(b), ',')[0].len() > 0);
            }
        }
        assert forall|i: int| 0 <= i < a.len() implies a[i] == b[i] by {
            let piece = split(listed(a), ',')[i];
            assert(piece == split(listed(b), ',')[i]);
        }
        assert(a =~= b);
    }
}

/// The declaration is one line: the list of bytes between braces.
pub proof fn law_declaration(bytes: Seq<u8>)
    ensures
        ({
            let s = book_buf_text(bytes);
            &&& s.len() == 32 + listed(bytes).len()
            &&& s.take(30) == "static const u8 BOOK_BUF[] = {"@
            &&& s.subrange(30, s.len() - 2) == listed(bytes)
            &&& s.skip(s.len() - 2) == "};"@
            &&& lacks(s, '\n')
        }),
{
    let s = book_buf_text(bytes);
    reveal_strlit("static const u8 BOOK_BUF[] = {");
    reveal_strlit("};");
    assert(s.take(30) =~= "static const u8 BOOK_BUF[] = {"@);
    assert(s.subrange(30, s.len() - 2) =~= listed(bytes));
    assert(s.skip(s.len() - 2) =~= "};"@);
    lemma_list_plain(bytes);
    lemma_declaration_plain(bytes);
}

proof fn lemma_list_plain(bytes: Seq<u8>)
    ensures
        lacks(listed(bytes), '#'),
        lacks(listed(bytes), '\n'),
    decreases bytes.len(),
{
    if bytes.len() == 1 {
        lemma_dec_plain(bytes[0] as nat);
    } else if bytes.len() > 1 {
        lemma_list_plain(bytes.drop_last());
        lemma_dec_plain(bytes.last() as nat);
        reveal_strlit(", ");
    }
}

proof fn lemma_declaration_plain(bytes: Seq<u8>)
    ensures
        lacks(book_buf_text(bytes), '#'),
        lacks(book_buf_text(bytes), '\n'),
{
    lemma_list_plain(bytes);
    assert(lacks("static const u8 BOOK_BUF[] = {"@, '#') && lacks(
        "static const u8 BOOK_BUF[] = {"@,
        '\n',
    )) by {
        reveal_strlit("static const u8 BOOK_BUF[] = {");
    }
    assert(lacks("};"@, '#') && lacks("};"@, '\n')) by {
        reveal_strlit("};");
    }
}

/// What is before the first place where `pat` stands, and what is behind it.
proof fn lemma_first_place(a: Seq<char>, pat: Seq<char>) -> (r: (Seq<char>, Seq<char>))
    requires
        exists|k: int| occurs_at(a, pat, k),
    ensures
        a == r.0 + pat + r.1,
        forall|k: int| 0 <= k < r.0.len() ==> !occurs_at(a, pat, k),
{
    lemma_find_from(a, pat, 0);
    let k = choose|k: int| occurs_at(a, pat, k);
    let j = crate::text::find_from(a, pat, 0)->0;
    assert(a.subrange(j, j + pat.len()) == pat);
    let x = a.take(j);
    let y = a.skip(j + pat.len());
    assert(a =~= x + pat + y);
    (x, y)
}

proof fn lemma_regroup(a: Seq<char>, b: Seq<char>, c: Seq<char>, d: Seq<char>, e: Seq<char>)
    ensures
        a + b + c + d + e == a + b + (c + d + e),
        a + b + c + d + e == a + (b + c + d + e),
        a + b + (c + d + e) == a + b + c + d + e,
{
    assert(a + b + c + d + e =~= a + b + (c + d + e));
    assert(a + b + c + d + e =~= a + (b + c + d + e));
}

/// Replacing a text that has no line break goes line by line.
pub proof fn law_replace_by_lines(a: Seq<char>, b: Seq<char>, pat: Seq<char>, with: Seq<char>)
    requires
        pat.len() > 0,
        lacks(pat, '\n'),
    ensures
        replace_all(a + seq!['\n'] + b, pat, with) == replace_all(a, pat, with) + seq!['\n']
            + replace_all(b, pat, with),
    decreases a.len(),
{
    if exists|k: int| occurs_at(a, pat, k) {
        let (x, y) = lemma_first_place(a, pat);
        law_replace_by_lines(y, b, pat, with);
        lemma_replace_line_head(a, b, pat, with, x, y);
    } else {
        law_replace(a, Seq::empty(), pat, with);
        lemma_replace_line_tail(a, b, pat, with);
    }
}

proof fn lemma_replace_line_head(
    a: Seq<char>,
    b: Seq<char>,
    pat: Seq<char>,
    with: Seq<char>,
    x: Seq<char>,
    y: Seq<char>,
)
    requires
        pat.len() > 0,
        lacks(pat, '\n'),
        a == x + pat + y,
        forall|k: int| 0 <= k < x.len() ==> !occurs_at(a, pat, k),
        replace_all(y + seq!['\n'] + b, pat, with) == replace_all(y, pat, with) + seq!['\n']
            + replace_all(b, pat, with),
    ensures
        replace_all(a + seq!['\n'] + b, pat, with) == replace_all(a, pat, with) + seq!['\n']
            + replace_all(b, pat, with),
{
    let nl = seq!['\n'];
    let s = a + nl + b;
    lemma_regroup(x, pat, y, nl, b);
    assert(s == x + pat + (y + nl + b));
    assert forall|k: int| 0 <= k < x.len() implies !occurs_at(s, pat, k) by {
        if occurs_at(s, pat, k) {
            lemma_not_over_break(a, b, pat, k);
        }
    }
    law_replace(x, y + nl + b, pat, with);
    law_replace(x, y, pat, with);
    lemma_regroup(x, with, replace_all(y, pat, with), nl, replace_all(b, pat, with));
}

proof fn lemma_replace_line_tail(a: Seq<char>, b: Seq<char>, pat: Seq<char>, with: Seq<char>)
    requires
        pat.len() > 0,
        lacks(pat, '\n'),
        forall|k: int| !occurs_at(a, pat, k),
    ensures
        replace_all(a + seq!['\n'] + b, pat, with) == a + seq!['\n'] + replace_all(b, pat, with),
{
    let nl = seq!['\n'];
    let s = a + nl + b;
    if exists|k: int| occurs_at(b, pat, k) {
        let (x, y) = lemma_first_place(b, pat);
        let front = a + nl + x;
        lemma_regroup(a, nl, x, pat, y);
        assert(s == front + pat + y);
        assert forall|k: int| 0 <= k < front.len() implies !occurs_at(s, pat, k) by {
            if occurs_at(s, pat, k) {
                lemma_not_over_break(a, b, pat, k);
            }
        }
        law_replace(front, y, pat, with);
        law_replace(x, y, pat, with);
        lemma_regroup(a, nl, x, with, replace_all(y, pat, with));
    } else {
        law_replace(b, Seq::empty(), pat, with);
        assert forall|k: int| !occurs_at(s, pat, k) by {
            if occurs_at(s, pat, k) {
                lemma_not_over_break(a, b, pat, k);
            }
        }
        law_replace(s, Seq::empty(), pat, with);
    }
}

/// A text without a line break stands before one or behind it.
proof fn lemma_not_over_break(a: Seq<char>, b: Seq<char>, pat: Seq<char>, k: int)
    requires
        pat.len() > 0,
        lacks(pat, '\n'),
        occurs_at(a + seq!['\n'] + b, pat, k),
    ensures
        occurs_at(a, pat, k) || k > a.len() && occurs_at(b, pat, k - a.len() - 1),
{
    let s = a + seq!['\n'] + b;
    let sub = s.subrange(k, k + pat.len());
    if k <= a.len() < k + pat.len() {
        assert(sub[a.len() - k] == '\n');
        assert(pat[a.len() - k] != '\n');
    } else if k + pat.len() <= a.len() {
        assert(a.subrange(k, k + pat.len()) =~= sub);
    } else {
        let m = k - a.len() - 1;
        assert(b.subrange(m, m + pat.len()) =~= sub);
    }
}

/// `pat` stands nowhere in `s`.
pub open spec fn absent(s: Seq<char>, pat: Seq<char>) -> bool {
    forall|k: int| !occurs_at(s, pat, k)
}

/// None of the marks of a C template stands in `s`.
pub open spec fn no_c_mark(s: Seq<char>) -> bool {
    &&& absent(s, "#include \"hvm_os.h\""@)
    &&& absent(s, "///COMPILED_INTERACT_CALL///"@)
    &&& no_late_mark(s)
}

/// None of the marks that are looked for once the calls are put in stands in `s`.
pub open spec fn no_late_mark(s: Seq<char>) -> bool {
    &&& absent(s, "#define INTERPRETED"@)
    &&& absent(s, "//COMPILED_BOOK_BUF//"@)
    &&& absent(s, "#define WITHOUT_MAIN"@)
    &&& absent(s, "#define TPC_L2 0"@)
    &&& absent(s, "#include \"hvm.c\""@)
}

/// What the template became in a C program: what is behind `#define IO` and an
/// empty line, and before an empty line and the runner.
pub open spec fn c_part(program: Seq<char>, runner: Seq<char>) -> Seq<char> {
    program.subrange(
        12,
        program.len() - 2 - replace_all(runner, "#include \"hvm.c\""@, ""@).len(),
    )
}

/// What the template became in a CUDA program.
pub open spec fn cuda_part(
    program: Seq<char>,
    os_header: Seq<char>,
    runner: Seq<char>,
) -> Seq<char> {
    program.subrange(
        12,
        program.len() - 2 - replace_all(
            replace_all(runner, "#include \"hvm_os.h\""@, os_header),
            "#include \"hvm.cu\""@,
            ""@,
        ).len(),
    )
}

proof fn lemma_absent_start(s: Seq<char>, pat: Seq<char>, m: int)
    requires
        pat.len() > 0,
        forall|k: int| 0 < k < s.len() ==> #[trigger] s[k] != pat[0],
        pat.len() > s.len() || 0 <= m < pat.len() && s[m] != pat[m],
    ensures
        absent(s, pat),
{
    assert forall|k: int| !occurs_at(s, pat, k) by {
        if occurs_at(s, pat, k) {
            let sub = s.subrange(k, k + pat.len());
            assert(sub[0] == pat[0]);
            if k == 0 {
                assert(sub[m] == pat[m]);
            }
        }
    }
}

proof fn lemma_absent_lacks(s: Seq<char>, pat: Seq<char>)
    requires
        pat.len() > 0,
        lacks(s, pat[0]),
    ensures
        absent(s, pat),
{
    assert forall|k: int| !occurs_at(s, pat, k) by {
        if occurs_at(s, pat, k) {
            assert(s.subrange(k, k + pat.len())[0] == pat[0]);
        }
    }
}

proof fn lemma_whole(pat: Seq<char>, with: Seq<char>)
    requires
        pat.len() > 0,
    ensures
        replace_all(pat, pat, with) == with,
{
    let e = Seq::<char>::empty();
    law_replace(e, e, pat, with);
    assert(e + pat + e =~= pat);
    assert forall|k: int| !occurs_at(e, pat, k) by {}
    assert(e + with + e =~= with);
}

proof fn lemma_unchanged(s: Seq<char>, pat: Seq<char>, with: Seq<char>)
    requires
        pat.len() > 0,
        absent(s, pat),
    ensures
        replace_all(s, pat, with) == s,
{
    law_replace(s, Seq::empty(), pat, with);
}

/// The marks: each is one line.
proof fn lemma_marks()
    ensures
        lacks("#include \"hvm_os.h\""@, '\n') && "#include \"hvm_os.h\""@.len() > 12,
        lacks("///COMPILED_INTERACT_CALL///"@, '\n') && "///COMPILED_INTERACT_CALL///"@.len() > 12,
        lacks("#define INTERPRETED"@, '\n') && "#define INTERPRETED"@.len() > 12,
        lacks("//COMPILED_BOOK_BUF//"@, '\n') && "//COMPILED_BOOK_BUF//"@.len() > 12,
        lacks("#define WITHOUT_MAIN"@, '\n') && "#define WITHOUT_MAIN"@.len() > 12,
        lacks("#define TPC_L2 0"@, '\n') && "#define TPC_L2 0"@.len() > 12,
        lacks("#include \"hvm.c\""@, '\n') && "#include \"hvm.c\""@.len() > 12,
        lacks("#include \"hvm.cu\""@, '\n') && "#include \"hvm.cu\""@.len() > 12,
        ""@.len() == 0,
{
    reveal_strlit("");
    reveal_strlit("#include \"hvm_os.h\"");
    reveal_strlit("///COMPILED_INTERACT_CALL///");
    reveal_strlit("#define INTERPRETED");
    reveal_strlit("//COMPILED_BOOK_BUF//");
    reveal_strlit("#define WITHOUT_MAIN");
    reveal_strlit("#define TPC_L2 0");
    reveal_strlit("#include \"hvm.c\"");
    reveal_strlit("#include \"hvm.cu\"");
}

/// The first line and the empty line behind it stay as they are.
proof fn lemma_head_stays(h: Seq<char>, pat: Seq<char>, with: Seq<char>)
    requires
        pat.len() > 12,
        lacks(pat, '\n'),
    ensures
        replace_all("#define IO\n\n"@ + h, pat, with) == "#define IO\n\n"@ + replace_all(
            h,
            pat,
            with,
        ),
{
    let d = "#define IO"@;
    let e = Seq::<char>::empty();
    let nl = seq!['\n'];
    let r = replace_all(h, pat, with);
    reveal_strlit("#define IO");
    reveal_strlit("#define IO\n\n");
    assert("#define IO\n\n"@ =~= d + nl + e + nl);
    assert("#define IO\n\n"@ + h =~= d + nl + (e + nl + h));
    law_replace_by_lines(d, e + nl + h, pat, with);
    law_replace_by_lines(e, h, pat, with);
    assert forall|k: int| !occurs_at(d, pat, k) by {}
    assert forall|k: int| !occurs_at(e, pat, k) by {}
    law_replace(d, e, pat, with);
    law_replace(e, e, pat, with);
    assert(d + nl + (e + nl + r) =~= "#define IO\n\n"@ + r);
}

/// Behind an empty line the runner is replaced on its own.
proof fn lemma_runner_apart(f: Seq<char>, runner: Seq<char>, pat: Seq<char>, with: Seq<char>)
    requires
        pat.len() > 12,
        lacks(pat, '\n'),
    ensures
        replace_all(f + "\n\n"@ + runner, pat, with) == replace_all(f, pat, with) + "\n\n"@
            + replace_all(runner, pat, with),
{
    let e = Seq::<char>::empty();
    let nl = seq!['\n'];
    let x = replace_all(f, pat, with);
    let r = replace_all(runner, pat, with);
    reveal_strlit("\n\n");
    assert(f + "\n\n"@ + runner =~= f + nl + (e + nl + runner));
    law_replace_by_lines(f, e + nl + runner, pat, with);
    law_replace_by_lines(e, runner, pat, with);
    assert forall|k: int| !occurs_at(e, pat, k) by {}
    law_replace(e, e, pat, with);
    assert(x + nl + (e + nl + r) =~= x + "\n\n"@ + r);
}

spec fn c_steps(t: Seq<char>, os: Seq<char>, calls: Seq<char>, book: Seq<u8>, cores: nat) -> Seq<
    char,
> {
    let a = replace_all(t, "#include \"hvm_os.h\""@, os);
    let b = replace_all(a, "///COMPILED_INTERACT_CALL///"@, calls);
    let c = replace_all(b, "#define INTERPRETED"@, "#define COMPILED"@);
    let d = replace_all(c, "//COMPILED_BOOK_BUF//"@, book_buf_text(book));
    let e = replace_all(d, "#define WITHOUT_MAIN"@, "#define WITH_MAIN"@);
    let f = replace_all(e, "#define TPC_L2 0"@, tpc_text(cores));
    replace_all(f, "#include \"hvm.c\""@, ""@)
}

proof fn lemma_c_frame(
    t: Seq<char>,
    os: Seq<char>,
    runner: Seq<char>,
    calls: Seq<char>,
    book: Seq<u8>,
    cores: nat,
)
    ensures
        c_program(t, os, runner, calls, book, cores) == "#define IO\n\n"@ + c_steps(
            t,
            os,
            calls,
            book,
            cores,
        ) + "\n\n"@ + replace_all(runner, "#include \"hvm.c\""@, ""@),
        c_part(c_program(t, os, runner, calls, book, cores), runner) == c_steps(
            t,
            os,
            calls,
            book,
            cores,
        ),
{
    lemma_marks();
    let io = "#define IO\n\n"@;
    let a = replace_all(t, "#include \"hvm_os.h\""@, os);
    let b = replace_all(a, "///COMPILED_INTERACT_CALL///"@, calls);
    let c = replace_all(b, "#define INTERPRETED"@, "#define COMPILED"@);
    let d = replace_all(c, "//COMPILED_BOOK_BUF//"@, book_buf_text(book));
    let e = replace_all(d, "#define WITHOUT_MAIN"@, "#define WITH_MAIN"@);
    let f = replace_all(e, "#define TPC_L2 0"@, tpc_text(cores));
    lemma_head_stays(a, "///COMPILED_INTERACT_CALL///"@, calls);
    lemma_head_stays(b, "#define INTERPRETED"@, "#define COMPILED"@);
    lemma_head_stays(c, "//COMPILED_BOOK_BUF//"@, book_buf_text(book));
    lemma_head_stays(d, "#define WITHOUT_MAIN"@, "#define WITH_MAIN"@);
    lemma_head_stays(e, "#define TPC_L2 0"@, tpc_text(cores));
    lemma_runner_apart(io + f, runner, "#include \"hvm.c\""@, ""@);
    lemma_head_stays(f, "#include \"hvm.c\""@, ""@);
    let part = c_steps(t, os, calls, book, cores);
    let r = replace_all(runner, "#include \"hvm.c\""@, ""@);
    let program = io + part + "\n\n"@ + r;
    reveal_strlit("#define IO\n\n");
    reveal_strlit("\n\n");
    assert(program.subrange(12, program.len() - 2 - r.len()) =~= part);
}

/// A C program is a first line that asks for input and output, what became of the
/// template, and the runner without the line that would put the template in once
/// more, with empty lines between them.
pub proof fn law_c_frame(
    template: Seq<char>,
    os_header: Seq<char>,
    runner: Seq<char>,
    calls: Seq<char>,
    book: Seq<u8>,
    cores: nat,
)
    ensures
        ({
            let program = c_program(template, os_header, runner, calls, book, cores);
            program == "#define IO\n\n"@ + c_part(program, runner) + "\n\n"@ + replace_all(
                runner,
                "#include \"hvm.c\""@,
                ""@,
            )
        }),
{
    lemma_c_frame(template, os_header, runner, calls, book, cores);
}

/// Each line of a C template becomes what it would become alone.
pub proof fn law_c_lines(
    a: Seq<char>,
    b: Seq<char>,
    os_header: Seq<char>,
    runner: Seq<char>,
    calls: Seq<char>,
    book: Seq<u8>,
    cores: nat,
)
    ensures
        c_part(c_program(a + seq!['\n'] + b, os_header, runner, calls, book, cores), runner) == c_part(
            c_program(a, os_header, runner, calls, book, cores),
            runner,
        ) + seq!['\n'] + c_part(c_program(b, os_header, runner, calls, book, cores), runner),
{
    let os = os_header;
    lemma_marks();
    lemma_c_frame(a, os, runner, calls, book, cores);
    lemma_c_frame(b, os, runner, calls, book, cores);
    lemma_c_frame(a + seq!['\n'] + b, os, runner, calls, book, cores);
    let p1 = "#include \"hvm_os.h\""@;
    let p2 = "///COMPILED_INTERACT_CALL///"@;
    let p3 = "#define INTERPRETED"@;
    let p4 = "//COMPILED_BOOK_BUF//"@;
    let p5 = "#define WITHOUT_MAIN"@;
    let p6 = "#define TPC_L2 0"@;
    let p7 = "#include \"hvm.c\""@;
    let w3 = "#define COMPILED"@;
    let w4 = book_buf_text(book);
    let w5 = "#define WITH_MAIN"@;
    let w6 = tpc_text(cores);
    let (a1, b1) = (replace_all(a, p1, os), replace_all(b, p1, os));
    let (a2, b2) = (replace_all(a1, p2, calls), replace_all(b1, p2, calls));
    let (a3, b3) = (replace_all(a2, p3, w3), replace_all(b2, p3, w3));
    let (a4, b4) = (replace_all(a3, p4, w4), replace_all(b3, p4, w4));
    let (a5, b5) = (replace_all(a4, p5, w5), replace_all(b4, p5, w5));
    let (a6, b6) = (replace_all(a5, p6, w6), replace_all(b5, p6, w6));
    law_replace_by_lines(a, b, p1, os);
    law_replace_by_lines(a1, b1, p2, calls);
    law_replace_by_lines(a2, b2, p3, w3);
    law_replace_by_lines(a3, b3, p4, w4);
    law_replace_by_lines(a4, b4, p5, w5);
    law_replace_by_lines(a5, b5, p6, w6);
    law_replace_by_lines(a6, b6, p7, ""@);
}

/// A line of a C template with no mark in it stays as it is.
pub proof fn law_c_plain_line(
    line: Seq<char>,
    os_header: Seq<char>,
    runner: Seq<char>,
    calls: Seq<char>,
    book: Seq<u8>,
    cores: nat,
)
    requires
        no_c_mark(line),
    ensures
        c_part(c_program(line, os_header, runner, calls, book, cores), runner) == line,
{
    lemma_marks();
    lemma_c_frame(line, os_header, runner, calls, book, cores);
    lemma_unchanged(line, "#include \"hvm_os.h\""@, os_header);
    lemma_unchanged(line, "///COMPILED_INTERACT_CALL///"@, calls);
    lemma_c_late(line, book, cores);
}

proof fn lemma_c_late(line: Seq<char>, book: Seq<u8>, cores: nat)
    requires
        no_late_mark(line),
    ensures
        replace_all(line, "#define INTERPRETED"@, "#define COMPILED"@) == line,
        replace_all(line, "//COMPILED_BOOK_BUF//"@, book_buf_text(book)) == line,
        replace_all(line, "#define WITHOUT_MAIN"@, "#define WITH_MAIN"@) == line,
        replace_all(line, "#define TPC_L2 0"@, tpc_text(cores)) == line,
        replace_all(line, "#include \"hvm.c\""@, ""@) == line,
{
    lemma_marks();
    lemma_unchanged(line, "#define INTERPRETED"@, "#define COMPILED"@);
    lemma_unchanged(line, "//COMPILED_BOOK_BUF//"@, book_buf_text(book));
    lemma_unchanged(line, "#define WITHOUT_MAIN"@, "#define WITH_MAIN"@);
    lemma_unchanged(line, "#define TPC_L2 0"@, tpc_text(cores));
    lemma_unchanged(line, "#include \"hvm.c\""@, ""@);
}

proof fn lemma_mark_alone_0()
    ensures
        absent("#include \"hvm_os.h\""@, "///COMPILED_INTERACT_CALL///"@),
        absent("#include \"hvm_os.h\""@, "#define INTERPRETED"@),
        absent("#include \"hvm_os.h\""@, "//COMPILED_BOOK_BUF//"@),
        absent("#include \"hvm_os.h\""@, "#define WITHOUT_MAIN"@),
        absent("#include \"hvm_os.h\""@, "#define TPC_L2 0"@),
        absent("#include \"hvm_os.h\""@, "#include \"hvm.c\""@),
        absent("#include \"hvm_os.h\""@, "#include \"hvm.cu\""@),
{
    let line = "#include \"hvm_os.h\""@;
    reveal_strlit("#include \"hvm_os.h\"");
    reveal_strlit("///COMPILED_INTERACT_CALL///");
    reveal_strlit("#define INTERPRETED");
    reveal_strlit("//COMPILED_BOOK_BUF//");
    reveal_strlit("#define WITHOUT_MAIN");
    reveal_strlit("#define TPC_L2 0");
    reveal_strlit("#include \"hvm.c\"");
    reveal_strlit("#include \"hvm.cu\"");
    lemma_absent_lacks(line, "///COMPILED_INTERACT_CALL///"@);
    lemma_absent_start(line, "#define INTERPRETED"@, 1);
    lemma_absent_lacks(line, "//COMPILED_BOOK_BUF//"@);
    lemma_absent_start(line, "#define WITHOUT_MAIN"@, 0);
    lemma_absent_start(line, "#define TPC_L2 0"@, 1);
    lemma_absent_start(line, "#include \"hvm.c\""@, 13);
    lemma_absent_start(line, "#include \"hvm.cu\""@, 13);
}

proof fn lemma_mark_alone_1()
    ensures
        absent("#define INTERPRETED"@, "#include \"hvm_os.h\""@),
        absent("#define INTERPRETED"@, "///COMPILED_INTERACT_CALL///"@),
        absent("#define INTERPRETED"@, "//COMPILED_BOOK_BUF//"@),
        absent("#define INTERPRETED"@, "#define WITHOUT_MAIN"@),
        absent("#define INTERPRETED"@, "#define TPC_L2 0"@),
        absent("#define INTERPRETED"@, "#include \"hvm.c\""@),
        absent("#define INTERPRETED"@, "#include \"hvm.cu\""@),
{
    let line = "#define INTERPRETED"@;
    reveal_strlit("#define INTERPRETED");
    reveal_strlit("#include \"hvm_os.h\"");
    reveal_strlit("///COMPILED_INTERACT_CALL///");
    reveal_strlit("//COMPILED_BOOK_BUF//");
    reveal_strlit("#define WITHOUT_MAIN");
    reveal_strlit("#define TPC_L2 0");
    reveal_strlit("#include \"hvm.c\"");
    reveal_strlit("#include \"hvm.cu\"");
    lemma_absent_start(line, "#include \"hvm_os.h\""@, 1);
    lemma_absent_lacks(line, "///COMPILED_INTERACT_CALL///"@);
    lemma_absent_lacks(line, "//COMPILED_BOOK_BUF//"@);
    lemma_absent_start(line, "#define WITHOUT_MAIN"@, 0);
    lemma_absent_start(line, "#define TPC_L2 0"@, 8);
    lemma_absent_start(line, "#include \"hvm.c\""@, 1);
    lemma_absent_start(line, "#include \"hvm.cu\""@, 1);
}

proof fn lemma_mark_alone_2()
    ensures
        absent("#define WITHOUT_MAIN"@, "#include \"hvm_os.h\""@),
        absent("#define WITHOUT_MAIN"@, "///COMPILED_INTERACT_CALL///"@),
        absent("#define WITHOUT_MAIN"@, "#define INTERPRETED"@),
        absent("#define WITHOUT_MAIN"@, "//COMPILED_BOOK_BUF//"@),
        absent("#define WITHOUT_MAIN"@, "#define TPC_L2 0"@),
        absent("#define WITHOUT_MAIN"@, "#include \"hvm.c\""@),
        absent("#define WITHOUT_MAIN"@, "#include \"hvm.cu\""@),
{
    let line = "#define WITHOUT_MAIN"@;
    reveal_strlit("#define WITHOUT_MAIN");
    reveal_strlit("#include \"hvm_os.h\"");
    reveal_strlit("///COMPILED_INTERACT_CALL///");
    reveal_strlit("#define INTERPRETED");
    reveal_strlit("//COMPILED_BOOK_BUF//");
    reveal_strlit("#define TPC_L2 0");
    reveal_strlit("#include \"hvm.c\"");
    reveal_strlit("#include \"hvm.cu\"");
    lemma_absent_start(line, "#include \"hvm_os.h\""@, 1);
    lemma_absent_lacks(line, "///COMPILED_INTERACT_CALL///"@);
    lemma_absent_start(line, "#define INTERPRETED"@, 8);
    lemma_absent_lacks(line, "//COMPILED_BOOK_BUF//"@);
    lemma_absent_start(line, "#define TPC_L2 0"@, 8);
    lemma_absent_start(line, "#include \"hvm.c\""@, 1);
    lemma_absent_start(line, "#include \"hvm.cu\""@, 1);
}

proof fn lemma_mark_alone_3()
    ensures
        absent("#define TPC_L2 0"@, "#include \"hvm_os.h\""@),
        absent("#define TPC_L2 0"@, "///COMPILED_INTERACT_CALL///"@),
        absent("#define TPC_L2 0"@, "#define INTERPRETED"@),
        absent("#define TPC_L2 0"@, "//COMPILED_BOOK_BUF//"@),
        absent("#define TPC_L2 0"@, "#define WITHOUT_MAIN"@),
        absent("#define TPC_L2 0"@, "#include \"hvm.c\""@),
        absent("#define TPC_L2 0"@, "#include \"hvm.cu\""@),
{
    let line = "#define TPC_L2 0"@;
    reveal_strlit("#define TPC_L2 0");
    reveal_strlit("#include \"hvm_os.h\"");
    reveal_strlit("///COMPILED_INTERACT_CALL///");
    reveal_strlit("#define INTERPRETED");
    reveal_strlit("//COMPILED_BOOK_BUF//");
    reveal_strlit("#define WITHOUT_MAIN");
    reveal_strlit("#include \"hvm.c\"");
    reveal_strlit("#include \"hvm.cu\"");
    lemma_absent_start(line, "#include \"hvm_os.h\""@, 0);
    lemma_absent_lacks(line, "///COMPILED_INTERACT_CALL///"@);
    lemma_absent_start(line, "#define INTERPRETED"@, 0);
    lemma_absent_lacks(line, "//COMPILED_BOOK_BUF//"@);
    lemma_absent_start(line, "#define WITHOUT_MAIN"@, 0);
    lemma_absent_start(line, "#include \"hvm.c\""@, 1);
    lemma_absent_start(line, "#include \"hvm.cu\""@, 0);
}

proof fn lemma_mark_alone_4()
    ensures
        absent("#include \"hvm.c\""@, "#include \"hvm_os.h\""@),
        absent("#include \"hvm.c\""@, "///COMPILED_INTERACT_CALL///"@),
        absent("#include \"hvm.c\""@, "#define INTERPRETED"@),
        absent("#include \"hvm.c\""@, "//COMPILED_BOOK_BUF//"@),
        absent("#include \"hvm.c\""@, "#define WITHOUT_MAIN"@),
        absent("#include \"hvm.c\""@, "#define TPC_L2 0"@),
        absent("#include \"hvm.c\""@, "#include \"hvm.cu\""@),
{
    let line = "#include \"hvm.c\""@;
    reveal_strlit("#include \"hvm.c\"");
    reveal_strlit("#include \"hvm_os.h\"");
    reveal_strlit("///COMPILED_INTERACT_CALL///");
    reveal_strlit("#define INTERPRETED");
    reveal_strlit("//COMPILED_BOOK_BUF//");
    reveal_strlit("#define WITHOUT_MAIN");
    reveal_strlit("#define TPC_L2 0");
    reveal_strlit("#include \"hvm.cu\"");
    lemma_absent_start(line, "#include \"hvm_os.h\""@, 0);
    lemma_absent_lacks(line, "///COMPILED_INTERACT_CALL///"@);
    lemma_absent_start(line, "#define INTERPRETED"@, 0);
    lemma_absent_lacks(line, "//COMPILED_BOOK_BUF//"@);
    lemma_absent_start(line, "#define WITHOUT_MAIN"@, 0);
    lemma_absent_start(line, "#define TPC_L2 0"@, 1);
    lemma_absent_start(line, "#include \"hvm.cu\""@, 0);
}

proof fn lemma_mark_alone_5()
    ensures
        absent("#include \"hvm.cu\""@, "#include \"hvm_os.h\""@),
        absent("#include \"hvm.cu\""@, "///COMPILED_INTERACT_CALL///"@),
        absent("#include \"hvm.cu\""@, "#define INTERPRETED"@),
        absent("#include \"hvm.cu\""@, "//COMPILED_BOOK_BUF//"@),
        absent("#include \"hvm.cu\""@, "#define WITHOUT_MAIN"@),
        absent("#include \"hvm.cu\""@, "#define TPC_L2 0"@),
        absent("#include \"hvm.cu\""@, "#include \"hvm.c\""@),
{
    let line = "#include \"hvm.cu\""@;
    reveal_strlit("#include \"hvm.cu\"");
    reveal_strlit("#include \"hvm_os.h\"");
    reveal_strlit("///COMPILED_INTERACT_CALL///");
    reveal_strlit("#define INTERPRETED");
    reveal_strlit("//COMPILED_BOOK_BUF//");
    reveal_strlit("#define WITHOUT_MAIN");
    reveal_strlit("#define TPC_L2 0");
    reveal_strlit("#include \"hvm.c\"");
    lemma_absent_start(line, "#include \"hvm_os.h\""@, 0);
    lemma_absent_lacks(line, "///COMPILED_INTERACT_CALL///"@);
    lemma_absent_start(line, "#define INTERPRETED"@, 0);
    lemma_absent_lacks(line, "//COMPILED_BOOK_BUF//"@);
    lemma_absent_start(line, "#define WITHOUT_MAIN"@, 0);
    lemma_absent_start(line, "#define TPC_L2 0"@, 1);
    lemma_absent_start(line, "#include \"hvm.c\""@, 15);
}

proof fn lemma_mark_alone_6()
    ensures
        absent("///COMPILED_INTERACT_CALL///"@, "#include \"hvm_os.h\""@),
        absent("///COMPILED_INTERACT_CALL///"@, "#define INTERPRETED"@),
        absent("///COMPILED_INTERACT_CALL///"@, "//COMPILED_BOOK_BUF//"@),
        absent("///COMPILED_INTERACT_CALL///"@, "#define WITHOUT_MAIN"@),
        absent("///COMPILED_INTERACT_CALL///"@, "#define TPC_L2 0"@),
        absent("///COMPILED_INTERACT_CALL///"@, "#include \"hvm.c\""@),
        absent("///COMPILED_INTERACT_CALL///"@, "#include \"hvm.cu\""@),
{
    let line = "///COMPILED_INTERACT_CALL///"@;
    reveal_strlit("///COMPILED_INTERACT_CALL///");
    reveal_strlit("#include \"hvm_os.h\"");
    reveal_strlit("#define INTERPRETED");
    reveal_strlit("//COMPILED_BOOK_BUF//");
    reveal_strlit("#define WITHOUT_MAIN");
    reveal_strlit("#define TPC_L2 0");
    reveal_strlit("#include \"hvm.c\"");
    reveal_strlit("#include \"hvm.cu\"");
    lemma_absent_lacks(line, "#include \"hvm_os.h\""@);
    lemma_absent_lacks(line, "#define INTERPRETED"@);
    assert forall|k: int| !occurs_at(line, "//COMPILED_BOOK_BUF//"@, k) by {
        if occurs_at(line, "//COMPILED_BOOK_BUF//"@, k) {
            let sub = line.subrange(k, k + "//COMPILED_BOOK_BUF//"@.len());
            assert(sub[0] == '/' && sub[1] == '/' && sub[2] == "//COMPILED_BOOK_BUF//"@[2] && sub[11] == "//COMPILED_BOOK_BUF//"@[11]);
        }
    }
    lemma_absent_lacks(line, "#define WITHOUT_MAIN"@);
    lemma_absent_lacks(line, "#define TPC_L2 0"@);
    lemma_absent_lacks(line, "#include \"hvm.c\""@);
    lemma_absent_lacks(line, "#include \"hvm.cu\""@);
}

proof fn lemma_mark_alone_7()
    ensures
        absent("//COMPILED_BOOK_BUF//"@, "#include \"hvm_os.h\""@),
        absent("//COMPILED_BOOK_BUF//"@, "///COMPILED_INTERACT_CALL///"@),
        absent("//COMPILED_BOOK_BUF//"@, "#define INTERPRETED"@),
        absent("//COMPILED_BOOK_BUF//"@, "#define WITHOUT_MAIN"@),
        absent("//COMPILED_BOOK_BUF//"@, "#define TPC_L2 0"@),
        absent("//COMPILED_BOOK_BUF//"@, "#include \"hvm.c\""@),
        absent("//COMPILED_BOOK_BUF//"@, "#include \"hvm.cu\""@),
{
    let line = "//COMPILED_BOOK_BUF//"@;
    reveal_strlit("//COMPILED_BOOK_BUF//");
    reveal_strlit("#include \"hvm_os.h\"");
    reveal_strlit("///COMPILED_INTERACT_CALL///");
    reveal_strlit("#define INTERPRETED");
    reveal_strlit("#define WITHOUT_MAIN");
    reveal_strlit("#define TPC_L2 0");
    reveal_strlit("#include \"hvm.c\"");
    reveal_strlit("#include \"hvm.cu\"");
    lemma_absent_lacks(line, "#include \"hvm_os.h\""@);
    assert forall|k: int| !occurs_at(line, "///COMPILED_INTERACT_CALL///"@, k) by {
        if occurs_at(line, "///COMPILED_INTERACT_CALL///"@, k) {
            let sub = line.subrange(k, k + "///COMPILED_INTERACT_CALL///"@.len());
            assert(sub[0] == '/' && sub[1] == '/' && sub[2] == "///COMPILED_INTERACT_CALL///"@[2] && sub[11] == "///COMPILED_INTERACT_CALL///"@[11]);
        }
    }
    lemma_absent_lacks(line, "#define INTERPRETED"@);
    lemma_absent_lacks(line, "#define WITHOUT_MAIN"@);
    lemma_absent_lacks(line, "#define TPC_L2 0"@);
    lemma_absent_lacks(line, "#include \"hvm.c\""@);
    lemma_absent_lacks(line, "#include \"hvm.cu\""@);
}

proof fn lemma_mark_alone_8()
    ensures
        absent("#define COMPILED"@, "#include \"hvm_os.h\""@),
        absent("#define COMPILED"@, "///COMPILED_INTERACT_CALL///"@),
        absent("#define COMPILED"@, "#define INTERPRETED"@),
        absent("#define COMPILED"@, "//COMPILED_BOOK_BUF//"@),
        absent("#define COMPILED"@, "#define WITHOUT_MAIN"@),
        absent("#define COMPILED"@, "#define TPC_L2 0"@),
        absent("#define COMPILED"@, "#include \"hvm.c\""@),
        absent("#define COMPILED"@, "#include \"hvm.cu\""@),
{
    let line = "#define COMPILED"@;
    reveal_strlit("#define COMPILED");
    reveal_strlit("#include \"hvm_os.h\"");
    reveal_strlit("///COMPILED_INTERACT_CALL///");
    reveal_strlit("#define INTERPRETED");
    reveal_strlit("//COMPILED_BOOK_BUF//");
    reveal_strlit("#define WITHOUT_MAIN");
    reveal_strlit("#define TPC_L2 0");
    reveal_strlit("#include \"hvm.c\"");
    reveal_strlit("#include \"hvm.cu\"");
    lemma_absent_start(line, "#include \"hvm_os.h\""@, 0);
    lemma_absent_lacks(line, "///COMPILED_INTERACT_CALL///"@);
    lemma_absent_start(line, "#define INTERPRETED"@, 0);
    lemma_absent_lacks(line, "//COMPILED_BOOK_BUF//"@);
    lemma_absent_start(line, "#define WITHOUT_MAIN"@, 0);
    lemma_absent_start(line, "#define TPC_L2 0"@, 8);
    lemma_absent_start(line, "#include \"hvm.c\""@, 1);
    lemma_absent_start(line, "#include \"hvm.cu\""@, 0);
}

proof fn lemma_mark_alone_9()
    ensures
        absent("#define WITH_MAIN"@, "#include \"hvm_os.h\""@),
        absent("#define WITH_MAIN"@, "///COMPILED_INTERACT_CALL///"@),
        absent("#define WITH_MAIN"@, "#define INTERPRETED"@),
        absent("#define WITH_MAIN"@, "//COMPILED_BOOK_BUF//"@),
        absent("#define WITH_MAIN"@, "#define WITHOUT_MAIN"@),
        absent("#define WITH_MAIN"@, "#define TPC_L2 0"@),
        absent("#define WITH_MAIN"@, "#include \"hvm.c\""@),
        absent("#define WITH_MAIN"@, "#include \"hvm.cu\""@),
{
    let line = "#define WITH_MAIN"@;
    reveal_strlit("#define WITH_MAIN");
    reveal_strlit("#include \"hvm_os.h\"");
    reveal_strlit("///COMPILED_INTERACT_CALL///");
    reveal_strlit("#define INTERPRETED");
    reveal_strlit("//COMPILED_BOOK_BUF//");
    reveal_strlit("#define WITHOUT_MAIN");
    reveal_strlit("#define TPC_L2 0");
    reveal_strlit("#include \"hvm.c\"");
    reveal_strlit("#include \"hvm.cu\"");
    lemma_absent_start(line, "#include \"hvm_os.h\""@, 0);
    lemma_absent_lacks(line, "///COMPILED_INTERACT_CALL///"@);
    lemma_absent_start(line, "#define INTERPRETED"@, 0);
    lemma_absent_lacks(line, "//COMPILED_BOOK_BUF//"@);
    lemma_absent_start(line, "#define WITHOUT_MAIN"@, 0);
    lemma_absent_start(line, "#define TPC_L2 0"@, 8);
    lemma_absent_start(line, "#include \"hvm.c\""@, 1);
    lemma_absent_start(line, "#include \"hvm.cu\""@, 1);
}

/// What the marks of a C template become, each on a line of its own: the header and
/// the calls, where there is no mark in them; the declaration of the book; and the
/// settings of a compiled program that has a `main`. The line that would put the
/// template in becomes empty.
pub proof fn law_c_marks(
    os_header: Seq<char>,
    runner: Seq<char>,
    calls: Seq<char>,
    book: Seq<u8>,
    cores: nat,
)
    ensures
        ({
            let part = |line: Seq<char>|
                c_part(c_program(line, os_header, runner, calls, book, cores), runner);
            &&& absent(os_header, "///COMPILED_INTERACT_CALL///"@) && no_late_mark(os_header)
                ==> part("#include \"hvm_os.h\""@) == os_header
            &&& no_late_mark(calls) ==> part("///COMPILED_INTERACT_CALL///"@) == calls
            &&& part("#define INTERPRETED"@) == "#define COMPILED"@
            &&& part("//COMPILED_BOOK_BUF//"@) == book_buf_text(book)
            &&& part("#define WITHOUT_MAIN"@) == "#define WITH_MAIN"@
            &&& part("#define TPC_L2 0"@) == tpc_text(cores)
            &&& part("#include \"hvm.c\""@) == ""@
        }),
{
    lemma_c_early_marks(os_header, runner, calls, book, cores);
    lemma_c_late_marks(os_header, runner, calls, book, cores);
}

proof fn lemma_c_early_marks(
    os: Seq<char>,
    runner: Seq<char>,
    calls: Seq<char>,
    book: Seq<u8>,
    cores: nat,
)
    ensures
        absent(os, "///COMPILED_INTERACT_CALL///"@) && no_late_mark(os) ==> c_part(
            c_program("#include \"hvm_os.h\""@, os, runner, calls, book, cores),
            runner,
        ) == os,
        no_late_mark(calls) ==> c_part(
            c_program("///COMPILED_INTERACT_CALL///"@, os, runner, calls, book, cores),
            runner,
        ) == calls,
        c_part(c_program("#define INTERPRETED"@, os, runner, calls, book, cores), runner)
            == "#define COMPILED"@,
{
    let p1 = "#include \"hvm_os.h\""@;
    let p2 = "///COMPILED_INTERACT_CALL///"@;
    let p3 = "#define INTERPRETED"@;
    lemma_marks();
    lemma_c_frame(p1, os, runner, calls, book, cores);
    lemma_c_frame(p2, os, runner, calls, book, cores);
    lemma_c_frame(p3, os, runner, calls, book, cores);
    if absent(os, p2) && no_late_mark(os) {
        lemma_whole(p1, os);
        lemma_unchanged(os, p2, calls);
        lemma_c_late(os, book, cores);
    }
    lemma_mark_alone_6();
    lemma_unchanged(p2, p1, os);
    if no_late_mark(calls) {
        lemma_whole(p2, calls);
        lemma_c_late(calls, book, cores);
    }
    lemma_mark_alone_1();
    lemma_mark_alone_8();
    lemma_unchanged(p3, p1, os);
    lemma_unchanged(p3, p2, calls);
    let w3 = "#define COMPILED"@;
    lemma_whole(p3, w3);
    lemma_c_late(w3, book, cores);
}

proof fn lemma_c_late_marks(
    os: Seq<char>,
    runner: Seq<char>,
    calls: Seq<char>,
    book: Seq<u8>,
    cores: nat,
)
    ensures
        c_part(c_program("//COMPILED_BOOK_BUF//"@, os, runner, calls, book, cores), runner)
            == book_buf_text(book),
        c_part(c_program("#define WITHOUT_MAIN"@, os, runner, calls, book, cores), runner)
            == "#define WITH_MAIN"@,
        c_part(c_program("#define TPC_L2 0"@, os, runner, calls, book, cores), runner) == tpc_text(
            cores,
        ),
        c_part(c_program("#include \"hvm.c\""@, os, runner, calls, book, cores), runner) == ""@,
{
    let p1 = "#include \"hvm_os.h\""@;
    let p2 = "///COMPILED_INTERACT_CALL///"@;
    let p3 = "#define INTERPRETED"@;
    let p4 = "//COMPILED_BOOK_BUF//"@;
    let p5 = "#define WITHOUT_MAIN"@;
    let p6 = "#define TPC_L2 0"@;
    let p7 = "#include \"hvm.c\""@;
    let w3 = "#define COMPILED"@;
    let w4 = book_buf_text(book);
    let w5 = "#define WITH_MAIN"@;
    let w6 = tpc_text(cores);
    lemma_marks();
    lemma_c_frame(p4, os, runner, calls, book, cores);
    lemma_c_frame(p5, os, runner, calls, book, cores);
    lemma_c_frame(p6, os, runner, calls, book, cores);
    lemma_c_frame(p7, os, runner, calls, book, cores);
    lemma_mark_alone_7();
    lemma_unchanged(p4, p1, os);
    lemma_unchanged(p4, p2, calls);
    lemma_unchanged(p4, p3, w3);
    lemma_whole(p4, w4);
    lemma_declaration_absent(book);
    lemma_unchanged(w4, p5, w5);
    lemma_unchanged(w4, p6, w6);
    lemma_unchanged(w4, p7, ""@);
    lemma_mark_alone_2();
    lemma_unchanged(p5, p1, os);
    lemma_unchanged(p5, p2, calls);
    lemma_unchanged(p5, p3, w3);
    lemma_unchanged(p5, p4, w4);
    lemma_whole(p5, w5);
    lemma_mark_alone_9();
    lemma_unchanged(w5, p6, w6);
    lemma_unchanged(w5, p7, ""@);
    lemma_mark_alone_3();
    lemma_unchanged(p6, p1, os);
    lemma_unchanged(p6, p2, calls);
    lemma_unchanged(p6, p3, w3);
    lemma_unchanged(p6, p4, w4);
    lemma_unchanged(p6, p5, w5);
    lemma_whole(p6, w6);
    lemma_tpc_absent(cores);
    lemma_unchanged(w6, p7, ""@);
    lemma_mark_alone_4();
    lemma_unchanged(p7, p1, os);
    lemma_unchanged(p7, p2, calls);
    lemma_unchanged(p7, p3, w3);
    lemma_unchanged(p7, p4, w4);
    lemma_unchanged(p7, p5, w5);
    lemma_unchanged(p7, p6, w6);
    lemma_whole(p7, ""@);
}

proof fn lemma_declaration_absent(book: Seq<u8>)
    ensures
        absent(book_buf_text(book), "#define WITHOUT_MAIN"@),
        absent(book_buf_text(book), "#define TPC_L2 0"@),
        absent(book_buf_text(book), "#include \"hvm.c\""@),
        absent(book_buf_text(book), "#include \"hvm_os.h\""@),
        absent(book_buf_text(book), "#include \"hvm.cu\""@),
{
    lemma_declaration_plain(book);
    reveal_strlit("#define WITHOUT_MAIN");
    reveal_strlit("#define TPC_L2 0");
    reveal_strlit("#include \"hvm.c\"");
    reveal_strlit("#include \"hvm_os.h\"");
    reveal_strlit("#include \"hvm.cu\"");
    lemma_absent_lacks(book_buf_text(book), "#define WITHOUT_MAIN"@);
    lemma_absent_lacks(book_buf_text(book), "#define TPC_L2 0"@);
    lemma_absent_lacks(book_buf_text(book), "#include \"hvm.c\""@);
    lemma_absent_lacks(book_buf_text(book), "#include \"hvm_os.h\""@);
    lemma_absent_lacks(book_buf_text(book), "#include \"hvm.cu\""@);
}

proof fn lemma_tpc_absent(cores: nat)
    ensures
        absent(tpc_text(cores), "#include \"hvm.c\""@),
{
    let l2 = capped_log2(cores as int, 4) as nat;
    let s = tpc_text(cores);
    lemma_dec_plain(l2);
    lemma_dec_plain(cores);
    reveal_strlit("#define TPC_L2 ");
    reveal_strlit(" // ");
    reveal_strlit(" cores");
    reveal_strlit("#include \"hvm.c\"");
    lemma_absent_start(s, "#include \"hvm.c\""@, 1);
}

/// The line that says how many threads a program has: after `#define TPC_L2` the
/// binary logarithm of their number, which is the largest that the cores allow, but
/// four at most; and in a comment the number of cores.
pub proof fn law_threads_line(cores: nat)
    requires
        cores >= 1,
    ensures
        ({
            let s = tpc_text(cores);
            let l2 = digit_value(s[15]);
            &&& s.len() > 26
            &&& s.take(15) == "#define TPC_L2 "@
            &&& 0 <= l2 <= 4
            &&& pow2(l2 as nat) <= cores
            &&& l2 < 4 ==> cores < pow2((l2 + 1) as nat)
            &&& s.subrange(16, 20) == " // "@
            &&& is_numeral(s.subrange(20, s.len() - 6), 10)
            &&& numeral_value(s.subrange(20, s.len() - 6), 10) == cores
            &&& s.skip(s.len() - 6) == " cores"@
        }),
{
    law_log2(cores as int, 4);
    let l2 = capped_log2(cores as int, 4) as nat;
    let s = tpc_text(cores);
    law_dec_value(l2);
    law_dec_value(cores);
    reveal_strlit("#define TPC_L2 ");
    reveal_strlit(" // ");
    reveal_strlit(" cores");
    reveal_with_fuel(numeral_value, 2);
    assert(dec(l2).len() == 1);
    assert(dec(l2).drop_last().len() == 0);
    assert(digit_value(dec(l2)[0]) == l2);
    assert(s[15] == dec(l2)[0]);
    assert(s.take(15) =~= "#define TPC_L2 "@);
    assert(s.subrange(16, 20) =~= " // "@);
    assert(s.subrange(20, s.len() - 6) =~= dec(cores));
    assert(s.skip(s.len() - 6) =~= " cores"@);
}

/// A logarithm that is rounded down and capped: its power of two is not more than
/// the number, and, below the cap, the next power is.
pub proof fn law_log2(n: int, cap: int)
    requires
        n >= 1,
        cap >= 0,
    ensures
        0 <= capped_log2(n, cap) <= cap,
        pow2(capped_log2(n, cap) as nat) <= n,
        capped_log2(n, cap) < cap ==> n < pow2((capped_log2(n, cap) + 1) as nat),
{
    lemma_log_bounds(n);
    lemma_log_nonnegative(2, n);
    if capped_log2(n, cap) < log(2, n) {
        vstd::arithmetic::power2::lemma_pow2_strictly_increases(cap as nat, log(2, n) as nat);
    }
}

proof fn lemma_log_bounds(n: int)
    requires
        n >= 1,
    ensures
        log(2, n) >= 0,
        pow2(log(2, n) as nat) <= n < pow2((log(2, n) + 1) as nat),
    decreases n,
{
    lemma2_to64();
    if n < 2 {
        lemma_log0(2, n);
    } else {
        lemma_log_s(2, n);
        lemma_log_bounds(n / 2);
        let k = log(2, n / 2) as nat;
        lemma_pow2_unfold(k + 1);
        lemma_pow2_unfold(k + 2);
    }
}

spec fn cuda_steps(t: Seq<char>, os: Seq<char>, book: Seq<u8>) -> Seq<char> {
    let a = replace_all(t, "//COMPILED_BOOK_BUF//"@, book_buf_text(book));
    let b = replace_all(a, "#define WITHOUT_MAIN"@, "#define WITH_MAIN"@);
    let c = replace_all(b, "#include \"hvm_os.h\""@, os);
    replace_all(c, "#include \"hvm.cu\""@, ""@)
}

proof fn lemma_cuda_frame(t: Seq<char>, os: Seq<char>, runner: Seq<char>, book: Seq<u8>)
    ensures
        cuda_program(t, os, runner, book) == "#define IO\n\n"@ + cuda_steps(t, os, book) + "\n\n"@
            + replace_all(
            replace_all(runner, "#include \"hvm_os.h\""@, os),
            "#include \"hvm.cu\""@,
            ""@,
        ),
        cuda_part(cuda_program(t, os, runner, book), os, runner) == cuda_steps(t, os, book),
{
    lemma_marks();
    let io = "#define IO\n\n"@;
    let p1 = "#include \"hvm_os.h\""@;
    let p8 = "#include \"hvm.cu\""@;
    let a = replace_all(t, "//COMPILED_BOOK_BUF//"@, book_buf_text(book));
    let b = replace_all(a, "#define WITHOUT_MAIN"@, "#define WITH_MAIN"@);
    let c = replace_all(b, p1, os);
    lemma_head_stays(t, "//COMPILED_BOOK_BUF//"@, book_buf_text(book));
    lemma_head_stays(a, "#define WITHOUT_MAIN"@, "#define WITH_MAIN"@);
    lemma_runner_apart(io + b, runner, p1, os);
    lemma_head_stays(b, p1, os);
    lemma_runner_apart(io + c, replace_all(runner, p1, os), p8, ""@);
    lemma_head_stays(c, p8, ""@);
    let part = cuda_steps(t, os, book);
    let r = replace_all(replace_all(runner, p1, os), p8, ""@);
    let program = io + part + "\n\n"@ + r;
    reveal_strlit("#define IO\n\n");
    reveal_strlit("\n\n");
    assert(program.subrange(12, program.len() - 2 - r.len()) =~= part);
}

/// A CUDA program is a first line that asks for input and output, what became of
/// the template, and the runner, with the header put in and without the line that
/// would put the template in once more, with empty lines between them.
pub proof fn law_cuda_frame(
    template: Seq<char>,
    os_header: Seq<char>,
    runner: Seq<char>,
    book: Seq<u8>,
)
    ensures
        ({
            let program = cuda_program(template, os_header, runner, book);
            program == "#define IO\n\n"@ + cuda_part(program, os_header, runner) + "\n\n"@
                + replace_all(
                replace_all(runner, "#include \"hvm_os.h\""@, os_header),
                "#include \"hvm.cu\""@,
                ""@,
            )
        }),
{
    lemma_cuda_frame(template, os_header, runner, book);
}

/// Each line of a CUDA template becomes what it would become alone.
pub proof fn law_cuda_lines(
    a: Seq<char>,
    b: Seq<char>,
    os_header: Seq<char>,
    runner: Seq<char>,
    book: Seq<u8>,
)
    ensures
        cuda_part(
            cuda_program(a + seq!['\n'] + b, os_header, runner, book),
            os_header,
            runner,
        ) == cuda_part(cuda_program(a, os_header, runner, book), os_header, runner) + seq!['\n']
            + cuda_part(cuda_program(b, os_header, runner, book), os_header, runner),
{
    let os = os_header;
    lemma_marks();
    lemma_cuda_frame(a, os, runner, book);
    lemma_cuda_frame(b, os, runner, book);
    lemma_cuda_frame(a + seq!['\n'] + b, os, runner, book);
    let p1 = "#include \"hvm_os.h\""@;
    let p4 = "//COMPILED_BOOK_BUF//"@;
    let p5 = "#define WITHOUT_MAIN"@;
    let w4 = book_buf_text(book);
    let w5 = "#define WITH_MAIN"@;
    let (a1, b1) = (replace_all(a, p4, w4), replace_all(b, p4, w4));
    let (a2, b2) = (replace_all(a1, p5, w5), replace_all(b1, p5, w5));
    let (a3, b3) = (replace_all(a2, p1, os), replace_all(b2, p1, os));
    law_replace_by_lines(a, b, p4, w4);
    law_replace_by_lines(a1, b1, p5, w5);
    law_replace_by_lines(a2, b2, p1, os);
    law_replace_by_lines(a3, b3, "#include \"hvm.cu\""@, ""@);
}

/// What the lines of a CUDA template become: the declaration of the book, the
/// setting of a program that has a `main`, the header, where there is no mark in
/// it, an empty line for the line that would put the template in, and the same line
/// for a line with no mark in it.
pub proof fn law_cuda_marks(
    line: Seq<char>,
    os_header: Seq<char>,
    runner: Seq<char>,
    book: Seq<u8>,
)
    ensures
        ({
            let part = |line: Seq<char>|
                cuda_part(cuda_program(line, os_header, runner, book), os_header, runner);
            &&& part("//COMPILED_BOOK_BUF//"@) == book_buf_text(book)
            &&& part("#define WITHOUT_MAIN"@) == "#define WITH_MAIN"@
            &&& absent(os_header, "#include \"hvm.cu\""@) ==> part("#include \"hvm_os.h\""@)
                == os_header
            &&& part("#include \"hvm.cu\""@) == ""@
            &&& absent(line, "//COMPILED_BOOK_BUF//"@) && absent(line, "#define WITHOUT_MAIN"@)
                && absent(line, "#include \"hvm_os.h\""@) && absent(line, "#include \"hvm.cu\""@)
                ==> part(line) == line
        }),
{
    let os = os_header;
    let p1 = "#include \"hvm_os.h\""@;
    let p4 = "//COMPILED_BOOK_BUF//"@;
    let p5 = "#define WITHOUT_MAIN"@;
    let p8 = "#include \"hvm.cu\""@;
    let w4 = book_buf_text(book);
    let w5 = "#define WITH_MAIN"@;
    lemma_marks();
    lemma_cuda_frame(p1, os, runner, book);
    lemma_cuda_frame(p4, os, runner, book);
    lemma_cuda_frame(p5, os, runner, book);
    lemma_cuda_frame(p8, os, runner, book);
    lemma_cuda_frame(line, os, runner, book);
    lemma_whole(p4, w4);
    lemma_declaration_absent(book);
    lemma_unchanged(w4, p5, w5);
    lemma_unchanged(w4, p1, os);
    lemma_unchanged(w4, p8, ""@);
    lemma_mark_alone_2();
    lemma_unchanged(p5, p4, w4);
    lemma_whole(p5, w5);
    lemma_mark_alone_9();
    lemma_unchanged(w5, p1, os);
    lemma_unchanged(w5, p8, ""@);
    lemma_mark_alone_0();
    lemma_unchanged(p1, p4, w4);
    lemma_unchanged(p1, p5, w5);
    lemma_whole(p1, os);
    if absent(os, p8) {
        lemma_unchanged(os, p8, ""@);
    }
    lemma_mark_alone_5();
    lemma_unchanged(p8, p4, w4);
    lemma_unchanged(p8, p5, w5);
    lemma_unchanged(p8, p1, os);
    lemma_whole(p8, ""@);
    if absent(line, p4) && absent(line, p5) && absent(line, p1) && absent(line, p8) {
        lemma_unchanged(line, p4, w4);
        lemma_unchanged(line, p5, w5);
        lemma_unchanged(line, p1, os);
        lemma_unchanged(line, p8, ""@);
    }
}

} // verus!
