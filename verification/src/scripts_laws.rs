//! What holds of the scripts: which lines they have, and how arguments and paths
//! stand in them.
use vstd::prelude::*;
use crate::reading::{decimal_of, lacks, law_dec_value, law_replace, lemma_split_join, lemma_split_one, split};
use crate::scripts::{args_text, debug_line, epoch_loop_text, epoch_text, quoted, rest_seconds, set_line, set_line_if, wait_epoch_text, wait_loop_text};
use crate::text::{dec, lemma_find_from, occurs_at, replace_all};

verus! {

/// The arguments of two lists, one behind the other, are written one behind the
/// other; one argument is written in quotation marks after a blank.
pub proof fn law_args_in_order(a: Seq<String>, b: Seq<String>, arg: String)
    ensures
        args_text(a + b) == args_text(a) + args_text(b),
        args_text(seq![arg]) == " \""@ + arg@ + "\""@,
        args_text(Seq::empty()) == Seq::<char>::empty(),
    decreases b.len(),
{
    reveal_with_fuel(args_text, 2);
    let one = seq![arg];
    assert(one.drop_last().len() == 0);
    assert(args_text(one) =~= " \""@ + arg@ + "\""@);
    if b.len() == 0 {
        assert(a + b =~= a);
        assert(args_text(a) =~= args_text(a) + args_text(b));
    } else {
        law_args_in_order(a, b.drop_last(), arg);
        assert((a + b).drop_last() =~= a + b.drop_last());
        assert((a + b).last() == b.last());
        let x = args_text(a);
        let y = args_text(b.drop_last());
        let l = b.last()@;
        assert(x + y + " \""@ + l + "\""@ =~= x + (y + " \""@ + l + "\""@));
    }
}

/// A single quotation mark is doubled, every other character stays, and a text is
/// quoted character by character.
pub proof fn law_quoted_by_character(a: Seq<char>, b: Seq<char>, c: char)
    ensures
        quoted(Seq::empty()) == Seq::<char>::empty(),
        quoted(seq!['\'']) == seq!['\'', '\''],
        c != '\'' ==> quoted(seq![c]) == seq![c],
        quoted(a + b) == quoted(a) + quoted(b),
    decreases a.len(),
{
    lemma_quoted_none();
    lemma_quoted_first('\'', Seq::empty());
    lemma_quoted_first(c, Seq::empty());
    assert(seq!['\''] + Seq::<char>::empty() =~= seq!['\'']);
    assert(seq!['\'', '\''] + Seq::<char>::empty() =~= seq!['\'', '\'']);
    assert(seq![c] + Seq::<char>::empty() =~= seq![c]);
    if a.len() == 0 {
        assert(a =~= Seq::<char>::empty());
        assert(a + b =~= b);
        assert(quoted(a) + quoted(b) =~= quoted(b));
    } else {
        let t = a.skip(1);
        law_quoted_by_character(t, b, c);
        lemma_quoted_first(a[0], t);
        lemma_quoted_first(a[0], t + b);
        assert(seq![a[0]] + t =~= a);
        assert(seq![a[0]] + (t + b) =~= a + b);
        assert(quoted(a + b) =~= quoted(a) + quoted(b));
    }
}

proof fn lemma_quoted_none()
    ensures
        quoted(Seq::empty()) == Seq::<char>::empty(),
{
    reveal_strlit("'");
    let e = Seq::<char>::empty();
    assert forall|k: int| !occurs_at(e, "'"@, k) by {}
    law_replace(e, e, "'"@, "''"@);
}

proof fn lemma_quoted_first(c: char, s: Seq<char>)
    ensures
        quoted(seq![c] + s) == if c == '\'' {
            seq!['\'', '\''] + quoted(s)
        } else {
            seq![c] + quoted(s)
        },
{
    reveal_strlit("'");
    reveal_strlit("''");
    let p = "'"@;
    assert(p =~= seq!['\'']);
    assert("''"@ =~= seq!['\'', '\'']);
    let e = Seq::<char>::empty();
    if c == '\'' {
        law_replace(e, s, p, "''"@);
        assert(e + p + s =~= seq![c] + s);
        assert(e + "''"@ + replace_all(s, p, "''"@) =~= seq!['\'', '\''] + quoted(s));
    } else {
        lemma_find_from(s, p, 0);
        match crate::text::find(s, p) {
            Some(i) => {
                let x = s.take(i);
                let y = s.skip(i + 1);
                assert(s.subrange(i, i + 1) =~= p);
                assert(s =~= x + p + y);
                law_replace(x, y, p, "''"@);
                let cx = seq![c] + x;
                assert(cx + p + y =~= seq![c] + s);
                assert forall|k: int| 0 <= k < cx.len() implies !occurs_at(cx + p + y, p, k) by {
                    let t = cx + p + y;
                    if occurs_at(t, p, k) {
                        assert(t.subrange(k, k + 1)[0] == '\'');
                        assert(t[k] == '\'');
                        assert(k > 0);
                        assert(s[k - 1] == '\'');
                        assert(s.subrange(k - 1, k) =~= p);
                        assert(occurs_at(s, p, k - 1));
                    }
                }
                law_replace(cx, y, p, "''"@);
                assert(cx + "''"@ + replace_all(y, p, "''"@) =~= seq![c] + (x + "''"@ + replace_all(
                    y,
                    p,
                    "''"@,
                )));
            },
            None => {
                let t = seq![c] + s;
                assert forall|k: int| !occurs_at(t, p, k) by {
                    if occurs_at(t, p, k) {
                        assert(t.subrange(k, k + 1)[0] == '\'');
                        assert(t[k] == '\'');
                        assert(k > 0);
                        assert(s.subrange(k - 1, k) =~= p);
                        assert(occurs_at(s, p, k - 1));
                    }
                }
                law_replace(t, e, p, "''"@);
                assert forall|k: int| !occurs_at(s, p, k) by {
                    if occurs_at(s, p, k) {
                        assert(0 <= k);
                    }
                }
                law_replace(s, e, p, "''"@);
            },
        }
    }
}

/// The lines of a text, without the line feeds between them.
pub open spec fn lines(s: Seq<char>) -> Seq<Seq<char>> {
    split(s, '\n')
}

/// The lines that set a variable, where there is a value for it.
pub open spec fn setting_lines(name: Seq<char>, value: Option<&str>) -> Seq<Seq<char>> {
    match value {
        Some(v) => lines("set \""@ + name + "="@ + v@ + "\"\r"@),
        None => Seq::empty(),
    }
}

/// The line that asks for reports, where they are wanted.
pub open spec fn report_lines(debug: bool) -> Seq<Seq<char>> {
    if debug {
        seq!["set HVM_WGPU_DEBUG=1\r"@]
    } else {
        Seq::empty()
    }
}

/// `u` is made of these lines, each with its line feed.
spec fn made_of(u: Seq<char>, ls: Seq<Seq<char>>) -> bool {
    (u.len() == 0 || u.last() == '\n') && lines(u) == ls + seq![Seq::<char>::empty()]
}

proof fn lemma_made_of_none()
    ensures
        made_of(Seq::empty(), Seq::empty()),
{
    assert(Seq::<Seq<char>>::empty() + seq![Seq::<char>::empty()] =~= seq![Seq::<char>::empty()]);
}

proof fn lemma_add_line(u: Seq<char>, ls: Seq<Seq<char>>, x: Seq<char>)
    requires
        made_of(u, ls),
    ensures
        made_of(u + (x + seq!['\n']), ls + lines(x)),
{
    let nl = seq!['\n'];
    let e = Seq::<char>::empty();
    lemma_split_join(x, '\n', e);
    assert(x + nl + e =~= x + nl);
    assert(lines(e) =~= seq![e]);
    if u.len() == 0 {
        assert(ls.len() == 0) by {
            assert(lines(u).len() == 1);
        }
        assert(u + (x + nl) =~= x + nl);
        assert(ls + lines(x) + seq![e] =~= lines(x) + seq![e]);
    } else {
        let v = u.drop_last();
        assert(u =~= v + nl + e);
        lemma_split_join(v, '\n', e);
        assert(lines(v) =~= ls) by {
            assert(lines(u) == lines(v) + seq![e]);
            assert(lines(u).drop_last() =~= lines(v));
            assert((ls + seq![e]).drop_last() =~= ls);
        }
        lemma_split_join(v, '\n', x + nl);
        assert(u + (x + nl) =~= v + nl + (x + nl));
        assert(ls + lines(x) + seq![e] =~= lines(v) + (lines(x) + seq![e]));
    }
}

proof fn lemma_add_literal(u: Seq<char>, ls: Seq<Seq<char>>, x: Seq<char>, with_feed: Seq<char>)
    requires
        made_of(u, ls),
        lacks(x, '\n'),
        with_feed == x + seq!['\n'],
    ensures
        made_of(u + with_feed, ls + seq![x]),
{
    lemma_add_line(u, ls, x);
    lemma_split_one(x, '\n');
}

proof fn lemma_add_set(u: Seq<char>, ls: Seq<Seq<char>>, name: Seq<char>, value: Seq<char>)
    requires
        made_of(u, ls),
    ensures
        made_of(
            u + set_line(name, value),
            ls + lines("set \""@ + name + "="@ + value + "\"\r"@),
        ),
{
    reveal_strlit("\"\r\n");
    reveal_strlit("\"\r");
    let x = "set \""@ + name + "="@ + value;
    lemma_add_line(u, ls, x + "\"\r"@);
    assert("\"\r\n"@ =~= "\"\r"@ + seq!['\n']);
    assert(x + "\"\r\n"@ =~= (x + "\"\r"@) + seq!['\n']);
}

proof fn lemma_add_setting(u: Seq<char>, ls: Seq<Seq<char>>, name: Seq<char>, value: Option<&str>)
    requires
        made_of(u, ls),
    ensures
        made_of(u + set_line_if(name, value), ls + setting_lines(name, value)),
{
    match value {
        Some(v) => {
            lemma_add_set(u, ls, name, v@);
        },
        None => {
            assert(u + Seq::<char>::empty() =~= u);
            assert(ls + Seq::<Seq<char>>::empty() =~= ls);
        },
    }
}

proof fn lemma_add_report(u: Seq<char>, ls: Seq<Seq<char>>, debug: bool)
    requires
        made_of(u, ls),
    ensures
        made_of(u + debug_line(debug), ls + report_lines(debug)),
{
    if debug {
        reveal_strlit("set HVM_WGPU_DEBUG=1\r\n");
        reveal_strlit("set HVM_WGPU_DEBUG=1\r");
        assert("set HVM_WGPU_DEBUG=1\r\n"@ =~= "set HVM_WGPU_DEBUG=1\r"@ + seq!['\n']);
        lemma_add_literal(u, ls, "set HVM_WGPU_DEBUG=1\r"@, "set HVM_WGPU_DEBUG=1\r\n"@);
    } else {
        assert(u + Seq::<char>::empty() =~= u);
        assert(ls + Seq::<Seq<char>>::empty() =~= ls);
    }
}

/// The line that starts the program `exe` with its arguments and has its output in
/// the file `log`.
pub open spec fn start_line(exe: Seq<char>, args: Seq<String>, log: Seq<char>) -> Seq<char> {
    "\""@ + exe + "\""@ + args_text(args) + " >>\""@ + log + "\" 2>&1\r"@
}

/// The lines of the batch file that starts one supervisor: each setting that has a
/// value is set, in this order, and no other; then the program is started, and its
/// exit code goes to the file `exit`.
pub proof fn law_epoch_lines(
    exe: Seq<char>,
    args: Seq<String>,
    snap: Seq<char>,
    log: Seq<char>,
    exit: Seq<char>,
    debug: bool,
    backend: Option<&str>,
    heap: Option<&str>,
    threads: Option<&str>,
    steps: Option<&str>,
)
    ensures
        lines(epoch_text(exe, args, snap, log, exit, debug, backend, heap, threads, steps)) == seq![
            "@echo off\r"@,
        ] + seq!["set HVM_WGPU_SUPERVISOR=1\r"@] + seq!["set HVM_WGPU_WORKER=\r"@] + lines(
            "set \""@ + "HVM_WGPU_SNAP"@ + "="@ + snap + "\"\r"@,
        ) + report_lines(debug) + setting_lines("HVM_WGPU_BACKEND"@, backend) + setting_lines(
            "HVM_WGPU_HEAP"@,
            heap,
        ) + setting_lines("HVM_WGPU_THREADS"@, threads) + setting_lines("HVM_WGPU_STEPS"@, steps)
            + lines(start_line(exe, args, log)) + lines(">\""@ + exit + "\" echo %ERRORLEVEL%\r"@)
            + seq![Seq::<char>::empty()],
{
    let u0 = lemma_heading();
    let l0 = seq!["@echo off\r"@] + seq!["set HVM_WGPU_SUPERVISOR=1\r"@] + seq![
        "set HVM_WGPU_WORKER=\r"@,
    ];
    let u1 = u0 + set_line("HVM_WGPU_SNAP"@, snap);
    let l1 = l0 + lines("set \""@ + "HVM_WGPU_SNAP"@ + "="@ + snap + "\"\r"@);
    lemma_add_set(u0, l0, "HVM_WGPU_SNAP"@, snap);
    let u2 = u1 + debug_line(debug);
    let l2 = l1 + report_lines(debug);
    lemma_add_report(u1, l1, debug);
    let u3 = u2 + set_line_if("HVM_WGPU_BACKEND"@, backend);
    let l3 = l2 + setting_lines("HVM_WGPU_BACKEND"@, backend);
    lemma_add_setting(u2, l2, "HVM_WGPU_BACKEND"@, backend);
    let u4 = u3 + set_line_if("HVM_WGPU_HEAP"@, heap);
    let l4 = l3 + setting_lines("HVM_WGPU_HEAP"@, heap);
    lemma_add_setting(u3, l3, "HVM_WGPU_HEAP"@, heap);
    let u5 = u4 + set_line_if("HVM_WGPU_THREADS"@, threads);
    let l5 = l4 + setting_lines("HVM_WGPU_THREADS"@, threads);
    lemma_add_setting(u4, l4, "HVM_WGPU_THREADS"@, threads);
    let u6 = u5 + set_line_if("HVM_WGPU_STEPS"@, steps);
    let l6 = l5 + setting_lines("HVM_WGPU_STEPS"@, steps);
    lemma_add_setting(u5, l5, "HVM_WGPU_STEPS"@, steps);
    lemma_start_and_exit(u6, l6, exe, args, log, exit);
}

proof fn lemma_heading() -> (u: Seq<char>)
    ensures
        u == "@echo off\r\n"@ + "set HVM_WGPU_SUPERVISOR=1\r\n"@ + "set HVM_WGPU_WORKER=\r\n"@,
        made_of(
            u,
            seq!["@echo off\r"@] + seq!["set HVM_WGPU_SUPERVISOR=1\r"@] + seq![
                "set HVM_WGPU_WORKER=\r"@,
            ],
        ),
{
    reveal_strlit("@echo off\r\n");
    reveal_strlit("@echo off\r");
    reveal_strlit("set HVM_WGPU_SUPERVISOR=1\r\n");
    reveal_strlit("set HVM_WGPU_SUPERVISOR=1\r");
    reveal_strlit("set HVM_WGPU_WORKER=\r\n");
    reveal_strlit("set HVM_WGPU_WORKER=\r");
    let e = Seq::<char>::empty();
    let n = Seq::<Seq<char>>::empty();
    lemma_made_of_none();
    assert("@echo off\r\n"@ =~= "@echo off\r"@ + seq!['\n']);
    lemma_add_literal(e, n, "@echo off\r"@, "@echo off\r\n"@);
    assert(e + "@echo off\r\n"@ =~= "@echo off\r\n"@);
    assert(n + seq!["@echo off\r"@] =~= seq!["@echo off\r"@]);
    let u1 = "@echo off\r\n"@;
    let l1 = seq!["@echo off\r"@];
    assert("set HVM_WGPU_SUPERVISOR=1\r\n"@ =~= "set HVM_WGPU_SUPERVISOR=1\r"@ + seq!['\n']);
    lemma_add_literal(u1, l1, "set HVM_WGPU_SUPERVISOR=1\r"@, "set HVM_WGPU_SUPERVISOR=1\r\n"@);
    let u2 = u1 + "set HVM_WGPU_SUPERVISOR=1\r\n"@;
    let l2 = l1 + seq!["set HVM_WGPU_SUPERVISOR=1\r"@];
    assert("set HVM_WGPU_WORKER=\r\n"@ =~= "set HVM_WGPU_WORKER=\r"@ + seq!['\n']);
    lemma_add_literal(u2, l2, "set HVM_WGPU_WORKER=\r"@, "set HVM_WGPU_WORKER=\r\n"@);
    u2 + "set HVM_WGPU_WORKER=\r\n"@
}

proof fn lemma_assoc(u: Seq<char>, a: Seq<char>, b: Seq<char>)
    ensures
        u + a + b == u + (a + b),
{
    assert(u + a + b =~= u + (a + b));
}

/// A text that is added piece by piece is added as one.
proof fn lemma_add_start(
    u: Seq<char>,
    exe: Seq<char>,
    args: Seq<String>,
    log: Seq<char>,
    last: Seq<char>,
)
    ensures
        u + "\""@ + exe + "\""@ + args_text(args) + " >>\""@ + log + last == u + ("\""@ + exe
            + "\""@ + args_text(args) + " >>\""@ + log + last),
{
    let q = "\""@;
    let a = args_text(args);
    let r = " >>\""@;
    lemma_assoc(u, q, exe);
    lemma_assoc(u, q + exe, q);
    lemma_assoc(u, q + exe + q, a);
    lemma_assoc(u, q + exe + q + a, r);
    lemma_assoc(u, q + exe + q + a + r, log);
    lemma_assoc(u, q + exe + q + a + r + log, last);
}

proof fn lemma_start_and_exit(
    u: Seq<char>,
    ls: Seq<Seq<char>>,
    exe: Seq<char>,
    args: Seq<String>,
    log: Seq<char>,
    exit: Seq<char>,
)
    requires
        made_of(u, ls),
    ensures
        made_of(
            u + "\""@ + exe + "\""@ + args_text(args) + " >>\""@ + log + "\" 2>&1\r\n>\""@ + exit
                + "\" echo %ERRORLEVEL%\r\n"@,
            ls + lines(start_line(exe, args, log)) + lines(
                ">\""@ + exit + "\" echo %ERRORLEVEL%\r"@,
            ),
        ),
{
    let s = start_line(exe, args, log);
    let body = "\""@ + exe + "\""@ + args_text(args) + " >>\""@ + log;
    reveal_strlit("\" 2>&1\r\n>\"");
    reveal_strlit("\" 2>&1\r");
    reveal_strlit(">\"");
    reveal_strlit("\" echo %ERRORLEVEL%\r\n");
    reveal_strlit("\" echo %ERRORLEVEL%\r");
    let nl = seq!['\n'];
    let mid = "\" 2>&1\r\n>\""@;
    let end = "\" echo %ERRORLEVEL%\r\n"@;
    assert(mid =~= "\" 2>&1\r"@ + nl + ">\""@);
    assert(end =~= "\" echo %ERRORLEVEL%\r"@ + nl);
    lemma_add_start(u, exe, args, log, mid);
    lemma_add_line(u, ls, s);
    let v = u + (s + nl);
    let x = ">\""@ + exit + "\" echo %ERRORLEVEL%\r"@;
    lemma_add_line(v, ls + lines(s), x);
    assert(u + (body + mid) + exit + end =~= v + (x + nl)) by {
        assert(body + mid =~= s + nl + ">\""@);
        assert(u + (s + nl + ">\""@) =~= v + ">\""@);
        lemma_assoc(v, ">\""@, exit);
        lemma_assoc(v, ">\""@ + exit, end);
        assert(">\""@ + exit + end =~= x + nl);
    }
}

/// The rest between two supervisors in the batch file, in whole seconds: no more than
/// what is set, unless that is under one second, and less than a second short of it.
pub proof fn law_rest_seconds(ms: u64)
    ensures
        rest_seconds(ms) >= 1,
        ms >= 1000 ==> 1000 * rest_seconds(ms) <= ms < 1000 * rest_seconds(ms) + 1000,
        ms < 1000 ==> rest_seconds(ms) == 1,
{
}

proof fn lemma_add_two(
    u: Seq<char>,
    ls: Seq<Seq<char>>,
    x: Seq<char>,
    y: Seq<char>,
    text: Seq<char>,
)
    requires
        made_of(u, ls),
        lacks(x, '\n'),
        lacks(y, '\n'),
        text == x + seq!['\n'] + y + seq!['\n'],
    ensures
        made_of(u + text, ls + seq![x] + seq![y]),
{
    let nl = seq!['\n'];
    lemma_add_literal(u, ls, x, x + nl);
    lemma_add_literal(u + (x + nl), ls + seq![x], y, y + nl);
    assert(u + text =~= u + (x + nl) + (y + nl));
}

proof fn lemma_loop_heading() -> (u: Seq<char>)
    ensures
        u == "@echo off\r\nsetlocal\r\n"@
            + "set HVM_WGPU_SUPERVISOR=1\r\nset HVM_WGPU_WORKER=\r\n"@,
        made_of(
            u,
            seq!["@echo off\r"@] + seq!["setlocal\r"@] + seq!["set HVM_WGPU_SUPERVISOR=1\r"@]
                + seq!["set HVM_WGPU_WORKER=\r"@],
        ),
{
    reveal_strlit("@echo off\r\nsetlocal\r\n");
    reveal_strlit("@echo off\r");
    reveal_strlit("setlocal\r");
    reveal_strlit("set HVM_WGPU_SUPERVISOR=1\r\nset HVM_WGPU_WORKER=\r\n");
    reveal_strlit("set HVM_WGPU_SUPERVISOR=1\r");
    reveal_strlit("set HVM_WGPU_WORKER=\r");
    let nl = seq!['\n'];
    let e = Seq::<char>::empty();
    let n = Seq::<Seq<char>>::empty();
    let a = "@echo off\r\nsetlocal\r\n"@;
    let b = "set HVM_WGPU_SUPERVISOR=1\r\nset HVM_WGPU_WORKER=\r\n"@;
    lemma_made_of_none();
    assert(a =~= "@echo off\r"@ + nl + "setlocal\r"@ + nl);
    assert(b =~= "set HVM_WGPU_SUPERVISOR=1\r"@ + nl + "set HVM_WGPU_WORKER=\r"@ + nl);
    lemma_add_two(e, n, "@echo off\r"@, "setlocal\r"@, a);
    assert(e + a =~= a);
    assert(n + seq!["@echo off\r"@] =~= seq!["@echo off\r"@]);
    lemma_add_two(
        a,
        seq!["@echo off\r"@] + seq!["setlocal\r"@],
        "set HVM_WGPU_SUPERVISOR=1\r"@,
        "set HVM_WGPU_WORKER=\r"@,
        b,
    );
    a + b
}

proof fn lemma_loop_start(
    u: Seq<char>,
    ls: Seq<Seq<char>>,
    exe: Seq<char>,
    args: Seq<String>,
    log: Seq<char>,
)
    requires
        made_of(u, ls),
    ensures
        made_of(
            u + ":loop\r\n\""@ + exe + "\""@ + args_text(args) + " >>\""@ + log
                + "\" 2>&1\r\nset EC=%ERRORLEVEL%\r\n"@,
            ls + seq![":loop\r"@] + lines(start_line(exe, args, log)) + seq![
                "set EC=%ERRORLEVEL%\r"@,
            ],
        ),
{
    reveal_strlit(":loop\r\n\"");
    reveal_strlit(":loop\r");
    reveal_strlit("\"");
    reveal_strlit("\" 2>&1\r\nset EC=%ERRORLEVEL%\r\n");
    reveal_strlit("\" 2>&1\r");
    reveal_strlit("set EC=%ERRORLEVEL%\r");
    let nl = seq!['\n'];
    let q = "\""@;
    let s = start_line(exe, args, log);
    let body = q + exe + q + args_text(args) + " >>\""@ + log;
    let last = "\" 2>&1\r\nset EC=%ERRORLEVEL%\r\n"@;
    let code = "set EC=%ERRORLEVEL%\r"@;
    assert(":loop\r\n\""@ =~= ":loop\r"@ + nl + q);
    assert(last =~= "\" 2>&1\r"@ + nl + code + nl);
    lemma_add_literal(u, ls, ":loop\r"@, ":loop\r"@ + nl);
    let v = u + (":loop\r"@ + nl);
    let lv = ls + seq![":loop\r"@];
    assert(u + ":loop\r\n\""@ =~= v + q);
    lemma_add_start(v, exe, args, log, last);
    lemma_add_line(v, lv, s);
    lemma_add_literal(v + (s + nl), lv + lines(s), code, code + nl);
    assert(body + last =~= s + nl + (code + nl));
    assert(v + (body + last) =~= v + (s + nl) + (code + nl));
}

proof fn lemma_loop_done(u: Seq<char>, ls: Seq<Seq<char>>)
    requires
        made_of(u, ls),
    ensures
        made_of(
            u
                + "if %EC%==0 (\r\n>\"%HVM_WGPU_SNAP%\\done.txt\" echo 0\r\nexit /b 0\r\n)\r\n"@,
            ls + seq!["if %EC%==0 (\r"@] + seq![">\"%HVM_WGPU_SNAP%\\done.txt\" echo 0\r"@] + seq![
                "exit /b 0\r"@,
            ] + seq![")\r"@],
        ),
{
    reveal_strlit("if %EC%==0 (\r\n>\"%HVM_WGPU_SNAP%\\done.txt\" echo 0\r\nexit /b 0\r\n)\r\n");
    reveal_strlit("if %EC%==0 (\r");
    reveal_strlit(">\"%HVM_WGPU_SNAP%\\done.txt\" echo 0\r");
    reveal_strlit("exit /b 0\r");
    reveal_strlit(")\r");
    let nl = seq!['\n'];
    let a = "if %EC%==0 (\r"@;
    let b = ">\"%HVM_WGPU_SNAP%\\done.txt\" echo 0\r"@;
    let c = "exit /b 0\r"@;
    let d = ")\r"@;
    let x = a + nl + b + nl;
    let y = c + nl + d + nl;
    assert("if %EC%==0 (\r\n>\"%HVM_WGPU_SNAP%\\done.txt\" echo 0\r\nexit /b 0\r\n)\r\n"@ =~= x + y);
    lemma_add_two(u, ls, a, b, x);
    lemma_add_two(u + x, ls + seq![a] + seq![b], c, d, y);
    lemma_assoc(u, x, y);
}

proof fn lemma_loop_again(u: Seq<char>, ls: Seq<Seq<char>>, a: Seq<char>, b: Seq<char>)
    requires
        made_of(u, ls),
    ensures
        made_of(
            u + "if %EC%=="@ + a + " (\r\nping -n "@ + b
                + " 127.0.0.1 >nul\r\ngoto loop\r\n)\r\n"@,
            ls + lines("if %EC%=="@ + a + " (\r"@) + lines("ping -n "@ + b + " 127.0.0.1 >nul\r"@)
                + seq!["goto loop\r"@] + seq![")\r"@],
        ),
{
    reveal_strlit(" (\r\nping -n ");
    reveal_strlit(" (\r");
    reveal_strlit("ping -n ");
    reveal_strlit(" 127.0.0.1 >nul\r\ngoto loop\r\n)\r\n");
    reveal_strlit(" 127.0.0.1 >nul\r");
    reveal_strlit("goto loop\r");
    reveal_strlit(")\r");
    let nl = seq!['\n'];
    let i = "if %EC%=="@;
    let mid = " (\r\nping -n "@;
    let last = " 127.0.0.1 >nul\r\ngoto loop\r\n)\r\n"@;
    let x = i + a + " (\r"@;
    let y = "ping -n "@ + b + " 127.0.0.1 >nul\r"@;
    let z = "goto loop\r"@ + nl + ")\r"@ + nl;
    assert(mid =~= " (\r"@ + nl + "ping -n "@);
    assert(last =~= " 127.0.0.1 >nul\r"@ + nl + z);
    lemma_add_line(u, ls, x);
    let v = u + (x + nl);
    lemma_add_line(v, ls + lines(x), y);
    let w = v + (y + nl);
    lemma_add_two(w, ls + lines(x) + lines(y), "goto loop\r"@, ")\r"@, z);
    lemma_assoc(u, i, a);
    lemma_assoc(u, i + a, mid);
    lemma_assoc(u, i + a + mid, b);
    lemma_assoc(u, i + a + mid + b, last);
    assert(i + a + mid =~= x + nl + "ping -n "@);
    assert(i + a + mid + b + last =~= x + nl + (y + nl) + z);
    assert(u + (x + nl + (y + nl) + z) =~= w + z);
}

proof fn lemma_loop_end(u: Seq<char>, ls: Seq<Seq<char>>)
    requires
        made_of(u, ls),
    ensures
        made_of(
            u + ">\"%HVM_WGPU_SNAP%\\done.txt\" echo %EC%\r\nexit /b %EC%\r\n"@,
            ls + seq![">\"%HVM_WGPU_SNAP%\\done.txt\" echo %EC%\r"@] + seq!["exit /b %EC%\r"@],
        ),
{
    reveal_strlit(">\"%HVM_WGPU_SNAP%\\done.txt\" echo %EC%\r\nexit /b %EC%\r\n");
    reveal_strlit(">\"%HVM_WGPU_SNAP%\\done.txt\" echo %EC%\r");
    reveal_strlit("exit /b %EC%\r");
    let nl = seq!['\n'];
    let a = ">\"%HVM_WGPU_SNAP%\\done.txt\" echo %EC%\r"@;
    let b = "exit /b %EC%\r"@;
    let t = ">\"%HVM_WGPU_SNAP%\\done.txt\" echo %EC%\r\nexit /b %EC%\r\n"@;
    assert(t =~= a + nl + b + nl);
    lemma_add_two(u, ls, a, b, t);
}

/// The lines of the batch file that starts supervisors one after the other, where `a`
/// is the exit code of a supervisor whose share of workers is used up, and `b` how
/// often a host is to be asked so that the rest goes by.
pub open spec fn loop_lines(
    exe: Seq<char>,
    args: Seq<String>,
    snap: Seq<char>,
    log: Seq<char>,
    debug: bool,
    a: Seq<char>,
    b: Seq<char>,
) -> Seq<Seq<char>> {
    seq!["@echo off\r"@] + seq!["setlocal\r"@] + seq!["set HVM_WGPU_SUPERVISOR=1\r"@] + seq![
        "set HVM_WGPU_WORKER=\r"@,
    ] + lines("set \""@ + "HVM_WGPU_SNAP"@ + "="@ + snap + "\"\r"@) + report_lines(debug) + seq![
        ":loop\r"@,
    ] + lines(start_line(exe, args, log)) + seq!["set EC=%ERRORLEVEL%\r"@] + seq![
        "if %EC%==0 (\r"@,
    ] + seq![">\"%HVM_WGPU_SNAP%\\done.txt\" echo 0\r"@] + seq!["exit /b 0\r"@] + seq![")\r"@]
        + lines("if %EC%=="@ + a + " (\r"@) + lines("ping -n "@ + b + " 127.0.0.1 >nul\r"@) + seq![
        "goto loop\r"@,
    ] + seq![")\r"@] + seq![">\"%HVM_WGPU_SNAP%\\done.txt\" echo %EC%\r"@] + seq![
        "exit /b %EC%\r"@,
    ] + seq![Seq::<char>::empty()]
}

/// The batch file that starts supervisors one after the other goes on after exit code
/// eleven, with a rest: a host is asked once a second, and once at the start of it.
pub proof fn law_epoch_loop_lines(
    exe: Seq<char>,
    args: Seq<String>,
    snap: Seq<char>,
    log: Seq<char>,
    debug: bool,
    recycle_ms: u64,
)
    ensures
        exists|a: Seq<char>, b: Seq<char>| #[trigger]
            decimal_of(a, 11) && #[trigger] decimal_of(b, rest_seconds(recycle_ms) + 1) && lines(
                epoch_loop_text(exe, args, snap, log, debug, recycle_ms),
            ) == loop_lines(exe, args, snap, log, debug, a, b),
{
    let n = rest_seconds(recycle_ms) + 1;
    let a = dec(11);
    let b = dec(n as nat);
    law_dec_value(11);
    law_dec_value(n as nat);
    assert(decimal_of(a, 11));
    assert(decimal_of(b, n));
    let u0 = lemma_loop_heading();
    let l0 = seq!["@echo off\r"@] + seq!["setlocal\r"@] + seq!["set HVM_WGPU_SUPERVISOR=1\r"@]
        + seq!["set HVM_WGPU_WORKER=\r"@];
    let u1 = u0 + set_line("HVM_WGPU_SNAP"@, snap);
    let l1 = l0 + lines("set \""@ + "HVM_WGPU_SNAP"@ + "="@ + snap + "\"\r"@);
    lemma_add_set(u0, l0, "HVM_WGPU_SNAP"@, snap);
    let u2 = u1 + debug_line(debug);
    let l2 = l1 + report_lines(debug);
    lemma_add_report(u1, l1, debug);
    lemma_loop_start(u2, l2, exe, args, log);
    let u3 = u2 + ":loop\r\n\""@ + exe + "\""@ + args_text(args) + " >>\""@ + log
        + "\" 2>&1\r\nset EC=%ERRORLEVEL%\r\n"@;
    let l3 = l2 + seq![":loop\r"@] + lines(start_line(exe, args, log)) + seq![
        "set EC=%ERRORLEVEL%\r"@,
    ];
    lemma_loop_done(u3, l3);
    let u4 = u3
        + "if %EC%==0 (\r\n>\"%HVM_WGPU_SNAP%\\done.txt\" echo 0\r\nexit /b 0\r\n)\r\n"@;
    let l4 = l3 + seq!["if %EC%==0 (\r"@] + seq![">\"%HVM_WGPU_SNAP%\\done.txt\" echo 0\r"@] + seq![
        "exit /b 0\r"@,
    ] + seq![")\r"@];
    lemma_loop_again(u4, l4, a, b);
    let u5 = u4 + "if %EC%=="@ + a + " (\r\nping -n "@ + b
        + " 127.0.0.1 >nul\r\ngoto loop\r\n)\r\n"@;
    let l5 = l4 + lines("if %EC%=="@ + a + " (\r"@) + lines("ping -n "@ + b + " 127.0.0.1 >nul\r"@)
        + seq!["goto loop\r"@] + seq![")\r"@];
    lemma_loop_end(u5, l5);
}

/// The scripts that wait differ from one another only by the two paths, each of which
/// stands in its place with the quotation marks in it doubled: the first after nine
/// characters, the second where the command line starts.
pub proof fn law_paths_of_wait_scripts(path: Seq<char>, bat: Seq<char>)
    ensures
        ({
            let none = Seq::<char>::empty();
            let n = 9int
                + "'\r\n$r = Invoke-CimMethod -ClassName Win32_Process -MethodName Create -Arguments @{ CommandLine = 'cmd.exe /d /c \""@.len();
            let looped = wait_loop_text(none, none);
            let once = wait_epoch_text(none, none);
            &&& looped.take(9) == "$done = '"@
            &&& once.take(9) == "$exit = '"@
            &&& looped.subrange(9, n) == once.subrange(9, n)
            &&& wait_loop_text(path, bat) == looped.take(9) + quoted(path) + looped.subrange(9, n)
                + quoted(bat) + looped.skip(n)
            &&& wait_epoch_text(path, bat) == once.take(9) + quoted(path) + once.subrange(9, n)
                + quoted(bat) + once.skip(n)
        }),
{
    reveal_strlit("$done = '");
    reveal_strlit("$exit = '");
    lemma_quoted_none();
    let none = Seq::<char>::empty();
    let call = "'\r\n$r = Invoke-CimMethod -ClassName Win32_Process -MethodName Create -Arguments @{ CommandLine = 'cmd.exe /d /c \""@;
    let n = 9int + call.len();
    let looped = wait_loop_text(none, none);
    let once = wait_epoch_text(none, none);
    assert(looped.take(9) =~= "$done = '"@);
    assert(once.take(9) =~= "$exit = '"@);
    assert(looped.subrange(9, n) =~= call);
    assert(once.subrange(9, n) =~= call);
    assert(wait_loop_text(path, bat) =~= "$done = '"@ + quoted(path) + call + quoted(bat)
        + looped.skip(n));
    assert(wait_epoch_text(path, bat) =~= "$exit = '"@ + quoted(path) + call + quoted(bat)
        + once.skip(n));
}

} // verus!
