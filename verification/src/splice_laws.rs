//! What holds of the program that is made from a template: which parts of the
//! template stay, and what stands in place of the others.
use vstd::prelude::*;
use crate::hvm::Def;
use crate::text::{find, lemma_find_from, occurs_at, replace_all};
use crate::wgsl::{has_access_marks, interact_text, is_template, plain_access, program, spliced, with_plain_access};

verus! {

/// The header of the function that calls the definitions.
pub open spec fn call_mark() -> Seq<char> {
    "fn interact_call(a: u32, b: u32)"@
}

/// The start of the header of the function behind it.
pub open spec fn one_mark() -> Seq<char> {
    "fn interact_one("@
}

/// `pat` stands in `s` for the first time at `i`.
pub open spec fn first_at(s: Seq<char>, pat: Seq<char>, i: int) -> bool {
    occurs_at(s, pat, i) && forall|k: int| 0 <= k < i ==> !occurs_at(s, pat, k)
}

proof fn lemma_first_at(s: Seq<char>, pat: Seq<char>, i: int)
    requires
        first_at(s, pat, i),
    ensures
        find(s, pat) == Some(i),
{
    lemma_find_from(s, pat, 0);
    match find(s, pat) {
        Some(j) => {
            assert(occurs_at(s, pat, j));
        },
        None => {},
    }
}

/// The program for several lanes: what is before the function that calls the
/// definitions, the functions of the book in its place, and everything from the
/// function behind it on. What stood between is gone.
pub proof fn law_template_spliced(
    a: Seq<char>,
    m: Seq<char>,
    c: Seq<char>,
    defs: Seq<Def>,
    nthreads: u32,
)
    requires
        nthreads > 1,
        first_at(a + call_mark() + m + one_mark() + c, call_mark(), a.len() as int),
        first_at(
            a + call_mark() + m + one_mark() + c,
            one_mark(),
            (a + call_mark() + m).len() as int,
        ),
    ensures
        is_template(a + call_mark() + m + one_mark() + c, defs, nthreads),
        program(a + call_mark() + m + one_mark() + c, defs, nthreads) == a + interact_text(defs)
            + seq!['\n'] + one_mark() + c,
{
    let t = a + call_mark() + m + one_mark() + c;
    let n = (a + call_mark() + m).len() as int;
    lemma_first_at(t, call_mark(), a.len() as int);
    lemma_first_at(t, one_mark(), n);
    reveal_strlit("\n");
    assert("\n"@ =~= seq!['\n']);
    assert(t.take(a.len() as int) =~= a);
    assert(t.skip(n) =~= one_mark() + c);
    assert(a + interact_text(defs) + seq!['\n'] + (one_mark() + c) =~= a + interact_text(defs)
        + seq!['\n'] + one_mark() + c);
}

/// The program for a single lane is that for several, with plain access functions in
/// place of everything from the start mark to the end mark, and with the two
/// declarations that have atomics replaced wherever they stand. One lane and none are
/// the same.
pub proof fn law_single_lane(
    template: Seq<char>,
    defs: Seq<Def>,
    a: Seq<char>,
    m: Seq<char>,
    c: Seq<char>,
)
    requires
        program(template, defs, 2) == a + "// NODE_ACCESS_START"@ + m + "// NODE_ACCESS_END"@ + c,
        first_at(program(template, defs, 2), "// NODE_ACCESS_START"@, a.len() as int),
        first_at(
            program(template, defs, 2),
            "// NODE_ACCESS_END"@,
            (a + "// NODE_ACCESS_START"@ + m).len() as int,
        ),
    ensures
        has_access_marks(program(template, defs, 2)),
        program(template, defs, 0) == program(template, defs, 1),
        program(template, defs, 1) == replace_all(
            replace_all(
                a + plain_access() + c,
                "var<storage, read_write> node: array<atomic<u64>>;"@,
                "var<storage, read_write> node: array<u64>;"@,
            ),
            "var<storage, read_write> vars: array<atomic<u32>>;"@,
            "var<storage, read_write> vars: array<u32>;"@,
        ),
{
    let p = program(template, defs, 2);
    let n = (a + "// NODE_ACCESS_START"@ + m).len() as int;
    let e = "// NODE_ACCESS_END"@;
    lemma_first_at(p, "// NODE_ACCESS_START"@, a.len() as int);
    lemma_first_at(p, e, n);
    assert(p == spliced(template, defs));
    assert(p.take(a.len() as int) =~= a);
    assert(p.skip(n + e.len()) =~= c);
    assert(with_plain_access(p) =~= a + plain_access() + c);
}

/// A template is good for several lanes where it has both functions, wherever they
/// are; for a single lane the program needs the marks too.
pub proof fn law_good_templates(template: Seq<char>, defs: Seq<Def>, nthreads: u32, i: int, j: int)
    ensures
        nthreads > 1 && occurs_at(template, call_mark(), i) && occurs_at(template, one_mark(), j)
            ==> is_template(template, defs, nthreads),
        (forall|k: int| !occurs_at(template, call_mark(), k)) ==> !is_template(
            template,
            defs,
            nthreads,
        ),
        (forall|k: int| !occurs_at(template, one_mark(), k)) ==> !is_template(
            template,
            defs,
            nthreads,
        ),
        nthreads <= 1 ==> (is_template(template, defs, nthreads) <==> is_template(template, defs, 2)
            && has_access_marks(program(template, defs, 2))),
{
    lemma_find_from(template, call_mark(), 0);
    lemma_find_from(template, one_mark(), 0);
}

} // verus!
