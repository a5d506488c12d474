//! What holds of the device programs of books.
use vstd::prelude::*;
use crate::hvm::{Def, Pair};
use crate::pack::{same_but_names, same_def};
use crate::text::{clash, dec, differs, find, hex_upper, is_digit, lemma_dec_digits, lemma_dec_injective, lemma_find_from, lemma_hex_upper_digits, lemma_replace_keeps, lemma_replaced_holds, lemma_replaced_lacks, occurs_at, replace_all};
use crate::wgsl::{atomic_node, atomic_vars, case_text, cases_text, def_text, defs_text, interact_text, is_template, links_text, nodes_text, plain_access, plain_node, plain_vars, port_text, program, spliced, vars_text, with_plain_access};

verus! {

/// The start of the function of definition `fid`.
pub open spec fn fn_head(fid: nat) -> Seq<char> {
    "fn ic_"@ + dec(fid) + "("@
}

/// The start of the case of definition `fid`.
pub open spec fn case_head(fid: nat) -> Seq<char> {
    "case "@ + dec(fid) + "u:"@
}

/// `pat` stands in `s` at index `i` and nowhere else.
pub open spec fn occurs_only_at(s: Seq<char>, pat: Seq<char>, i: int) -> bool {
    &&& occurs_at(s, pat, i)
    &&& forall|j: int| occurs_at(s, pat, j) ==> j == i
}

/// The names of definitions have no influence on the functions of a book.
pub proof fn law_names_not_compiled(a: Seq<Def>, b: Seq<Def>)
    requires
        same_but_names(a, b),
    ensures
        interact_text(a) == interact_text(b),
{
    lemma_same_defs_text(a, b);
}

proof fn lemma_same_defs_text(a: Seq<Def>, b: Seq<Def>)
    requires
        same_but_names(a, b),
    ensures
        defs_text(a) == defs_text(b),
    decreases a.len(),
{
    if a.len() > 0 {
        let x = a.drop_last();
        let y = b.drop_last();
        assert forall|i: int| 0 <= i < x.len() implies same_def(#[trigger] x[i], y[i]) by {
            assert(same_def(a[i], b[i]));
        }
        lemma_same_defs_text(x, y);
        assert(same_def(a[a.len() - 1], b[a.len() - 1]));
    }
}

/// `x` and `y` stand next to each other in `s`, at index `i`.
spec fn meets(s: Seq<char>, x: char, y: char, i: int) -> bool {
    0 <= i < s.len() - 1 && s[i] == x && s[i + 1] == y
}

/// `s` does not end in `x`.
spec fn ends_off(s: Seq<char>, x: char) -> bool {
    s.len() > 0 ==> s.last() != x
}

/// `x` never stands before `y` in `s`, nor at its end.
spec fn calm(s: Seq<char>, x: char, y: char) -> bool {
    &&& forall|i: int| !#[trigger] meets(s, x, y, i)
    &&& ends_off(s, x)
}

/// The pairs of characters that tell functions, cases and declarations.
spec fn watched(x: char, y: char) -> bool {
    x == 'f' && y == 'n' || x == 'e' && y == ' ' || x == 'r' && y == '<'
}

proof fn lemma_join(a: Seq<char>, b: Seq<char>, x: char, y: char)
    requires
        ends_off(a, x),
        ends_off(b, x),
    ensures
        ends_off(a + b, x),
        forall|i: int| #[trigger]
            meets(a + b, x, y, i) <==> meets(a, x, y, i) || meets(b, x, y, i - a.len()),
{
    assert forall|i: int| #[trigger]
        meets(a + b, x, y, i) <==> meets(a, x, y, i) || meets(b, x, y, i - a.len()) by {
        if a.len() > 0 && i == a.len() - 1 {
            assert(a[i] == a.last());
        }
    }
    if b.len() > 0 {
        assert((a + b).last() == b.last());
    } else if a.len() > 0 {
        assert((a + b).last() == a.last());
    }
}

/// What is calm adds nothing.
proof fn lemma_add_calm(a: Seq<char>, b: Seq<char>, x: char, y: char)
    requires
        ends_off(a, x),
        calm(b, x, y),
    ensures
        ends_off(a + b, x),
        forall|i: int| #[trigger] meets(a + b, x, y, i) <==> meets(a, x, y, i),
{
    lemma_join(a, b, x, y);
}

proof fn lemma_dec_calm(n: nat, x: char, y: char)
    requires
        watched(x, y),
    ensures
        calm(dec(n), x, y),
{
    lemma_dec_digits(n);
    assert forall|i: int| !#[trigger] meets(dec(n), x, y, i) by {
        if meets(dec(n), x, y, i) {
            assert(is_digit(dec(n)[i]));
        }
    }
    assert(is_digit(dec(n)[dec(n).len() - 1]));
}

proof fn lemma_hex_calm(n: nat, width: nat, x: char, y: char)
    requires
        watched(x, y),
    ensures
        calm(hex_upper(n, width), x, y),
{
    lemma_hex_upper_digits(n, width);
    let s = hex_upper(n, width);
    assert forall|i: int| !#[trigger] meets(s, x, y, i) by {
        if meets(s, x, y, i) {
            assert(is_digit(s[i]) || 'A' <= s[i] <= 'F');
        }
    }
    if s.len() > 0 {
        assert(is_digit(s[s.len() - 1]) || 'A' <= s[s.len() - 1] <= 'F');
    }
}

proof fn lemma_port_calm(word: u32, x: char, y: char)
    requires
        watched(x, y),
    ensures
        calm(port_text(word), x, y),
{
    reveal_strlit("adjust_port(0x");
    reveal_strlit("u)");
    let hex = hex_upper(word as nat, 8);
    lemma_hex_calm(word as nat, 8, x, y);
    lemma_add_calm("adjust_port(0x"@, hex, x, y);
    lemma_add_calm("adjust_port(0x"@ + hex, "u)"@, x, y);
    assert(calm("adjust_port(0x"@, x, y));
}

proof fn lemma_vars_calm(n: nat, x: char, y: char)
    requires
        watched(x, y),
    ensures
        calm(vars_text(n), x, y),
    decreases n,
{
    if n > 0 {
        let m = (n - 1) as nat;
        reveal_strlit("  vst(vloc[");
        reveal_strlit("u], NONE);\n");
        lemma_vars_calm(m, x, y);
        lemma_dec_calm(m, x, y);
        let a = vars_text(m);
        let b = a + "  vst(vloc["@;
        let c = b + dec(m);
        lemma_add_calm(a, "  vst(vloc["@, x, y);
        lemma_add_calm(b, dec(m), x, y);
        lemma_add_calm(c, "u], NONE);\n"@, x, y);
    }
}

proof fn lemma_nodes_calm(node: Seq<Pair>, x: char, y: char)
    requires
        watched(x, y),
    ensures
        calm(nodes_text(node), x, y),
    decreases node.len(),
{
    if node.len() > 0 {
        let m = (node.len() - 1) as nat;
        let fst = port_text(node.last().fst().0);
        let snd = port_text(node.last().snd().0);
        reveal_strlit("  node_store(nloc[");
        reveal_strlit("u], vec2<u32>(");
        reveal_strlit(", ");
        reveal_strlit("));\n");
        lemma_nodes_calm(node.drop_last(), x, y);
        lemma_dec_calm(m, x, y);
        lemma_port_calm(node.last().fst().0, x, y);
        lemma_port_calm(node.last().snd().0, x, y);
        let a = nodes_text(node.drop_last());
        let b = a + "  node_store(nloc["@;
        let c = b + dec(m);
        let d = c + "u], vec2<u32>("@;
        let e = d + fst;
        let f = e + ", "@;
        let g = f + snd;
        lemma_add_calm(a, "  node_store(nloc["@, x, y);
        lemma_add_calm(b, dec(m), x, y);
        lemma_add_calm(c, "u], vec2<u32>("@, x, y);
        lemma_add_calm(d, fst, x, y);
        lemma_add_calm(e, ", "@, x, y);
        lemma_add_calm(f, snd, x, y);
        lemma_add_calm(g, "));\n"@, x, y);
    }
}

proof fn lemma_links_calm(rbag: Seq<Pair>, x: char, y: char)
    requires
        watched(x, y),
    ensures
        calm(links_text(rbag), x, y),
    decreases rbag.len(),
{
    if rbag.len() > 0 {
        let fst = port_text(rbag.last().fst().0);
        let snd = port_text(rbag.last().snd().0);
        reveal_strlit("  link(");
        reveal_strlit(", ");
        reveal_strlit(");\n");
        lemma_links_calm(rbag.drop_last(), x, y);
        lemma_port_calm(rbag.last().fst().0, x, y);
        lemma_port_calm(rbag.last().snd().0, x, y);
        let a = links_text(rbag.drop_last());
        let b = a + "  link("@;
        let c = b + fst;
        let d = c + ", "@;
        let e = d + snd;
        lemma_add_calm(a, "  link("@, x, y);
        lemma_add_calm(b, fst, x, y);
        lemma_add_calm(c, ", "@, x, y);
        lemma_add_calm(d, snd, x, y);
        lemma_add_calm(e, ");\n"@, x, y);
    }
}

proof fn lemma_safe_line_calm(x: char, y: char)
    requires
        watched(x, y),
    ensures
        calm("  if tag_of(b) == DUP { return interact_eras(a, b); }\n"@, x, y),
{
    reveal_strlit("  if tag_of(b) == DUP { return interact_eras(a, b); }\n");
}

proof fn lemma_def_lines_calm(x: char, y: char)
    requires
        watched(x, y),
    ensures
        calm("(a: u32, b: u32) -> bool {\n"@, x, y),
        calm("  if !get_resources("@, x, y),
        calm("u, "@, x, y),
        calm("u) { return false; }\n"@, x, y),
        calm("  link("@, x, y),
        calm(", b);\n  return true;\n}\n\n"@, x, y),
{
    reveal_strlit("(a: u32, b: u32) -> bool {\n");
    reveal_strlit("  if !get_resources(");
    reveal_strlit("u, ");
    reveal_strlit("u) { return false; }\n");
    reveal_strlit("  link(");
    reveal_strlit(", b);\n  return true;\n}\n\n");
}

/// In the function of a definition a watched pair stands at its start at most.
proof fn lemma_def_meets(fid: nat, def: Def, x: char, y: char)
    requires
        watched(x, y),
    ensures
        ends_off(def_text(fid, def), x),
        forall|i: int| #[trigger]
            meets(def_text(fid, def), x, y, i) <==> i == 0 && x == 'f',
        occurs_at(def_text(fid, def), fn_head(fid), 0),
{
    let safe = if def.safe {
        "  if tag_of(b) == DUP { return interact_eras(a, b); }\n"@
    } else {
        Seq::empty()
    };
    let nodes = dec(def.node@.len());
    let vars = dec(def.vars as nat);
    lemma_safe_line_calm(x, y);
    lemma_def_lines_calm(x, y);
    lemma_dec_calm(fid, x, y);
    lemma_dec_calm(def.node@.len(), x, y);
    lemma_dec_calm(def.vars as nat, x, y);
    lemma_vars_calm(def.vars as nat, x, y);
    lemma_nodes_calm(def.node@, x, y);
    lemma_links_calm(def.rbag@, x, y);
    lemma_port_calm(def.root.0, x, y);
    let a = "fn ic_"@;
    let b = a + dec(fid);
    let c = b + "(a: u32, b: u32) -> bool {\n"@;
    let d = c + safe;
    let e = d + "  if !get_resources("@;
    let f = e + nodes;
    let g = f + "u, "@;
    let h = g + vars;
    let i = h + "u) { return false; }\n"@;
    let j = i + vars_text(def.vars as nat);
    let k = j + nodes_text(def.node@);
    let l = k + links_text(def.rbag@);
    let m = l + "  link("@;
    let n = m + port_text(def.root.0);
    let o = n + ", b);\n  return true;\n}\n\n"@;
    assert(ends_off(a, x) && forall|z: int| #[trigger] meets(a, x, y, z) <==> z == 0 && x == 'f') by {
        reveal_strlit("fn ic_");
    }
    lemma_add_calm(a, dec(fid), x, y);
    lemma_add_calm(b, "(a: u32, b: u32) -> bool {\n"@, x, y);
    lemma_add_calm(c, safe, x, y);
    lemma_add_calm(d, "  if !get_resources("@, x, y);
    lemma_add_calm(e, nodes, x, y);
    lemma_add_calm(f, "u, "@, x, y);
    lemma_add_calm(g, vars, x, y);
    lemma_add_calm(h, "u) { return false; }\n"@, x, y);
    lemma_add_calm(i, vars_text(def.vars as nat), x, y);
    lemma_add_calm(j, nodes_text(def.node@), x, y);
    lemma_add_calm(k, links_text(def.rbag@), x, y);
    lemma_add_calm(l, "  link("@, x, y);
    lemma_add_calm(m, port_text(def.root.0), x, y);
    lemma_add_calm(n, ", b);\n  return true;\n}\n\n"@, x, y);
    assert(o == def_text(fid, def));
    assert(occurs_at(c, fn_head(fid), 0)) by {
        reveal_strlit("(a: u32, b: u32) -> bool {\n");
        reveal_strlit("(");
        assert(c.subrange(0, fn_head(fid).len() as int) =~= fn_head(fid));
    }
    lemma_occurs_more(c, safe, fn_head(fid), 0);
    lemma_occurs_more(d, "  if !get_resources("@, fn_head(fid), 0);
    lemma_occurs_more(e, nodes, fn_head(fid), 0);
    lemma_occurs_more(f, "u, "@, fn_head(fid), 0);
    lemma_occurs_more(g, vars, fn_head(fid), 0);
    lemma_occurs_more(h, "u) { return false; }\n"@, fn_head(fid), 0);
    lemma_occurs_more(i, vars_text(def.vars as nat), fn_head(fid), 0);
    lemma_occurs_more(j, nodes_text(def.node@), fn_head(fid), 0);
    lemma_occurs_more(k, links_text(def.rbag@), fn_head(fid), 0);
    lemma_occurs_more(l, "  link("@, fn_head(fid), 0);
    lemma_occurs_more(m, port_text(def.root.0), fn_head(fid), 0);
    lemma_occurs_more(n, ", b);\n  return true;\n}\n\n"@, fn_head(fid), 0);
}

proof fn lemma_occurs_more(a: Seq<char>, b: Seq<char>, pat: Seq<char>, i: int)
    requires
        occurs_at(a, pat, i),
    ensures
        occurs_at(a + b, pat, i),
{
    assert((a + b).subrange(i, i + pat.len()) =~= a.subrange(i, i + pat.len()));
}

proof fn lemma_occurs_behind(a: Seq<char>, b: Seq<char>, pat: Seq<char>, i: int)
    requires
        occurs_at(b, pat, i),
    ensures
        occurs_at(a + b, pat, a.len() + i),
{
    assert((a + b).subrange(a.len() + i, a.len() + i + pat.len()) =~= b.subrange(
        i,
        i + pat.len(),
    ));
}

proof fn lemma_occurs_in(s: Seq<char>, t: Seq<char>, pat: Seq<char>, i: int, j: int)
    requires
        occurs_at(s, t, i),
        occurs_at(t, pat, j),
    ensures
        occurs_at(s, pat, i + j),
{
    assert forall|k: int| 0 <= k < pat.len() implies s[i + j + k] == pat[k] by {
        assert(s.subrange(i, i + t.len())[j + k] == t[j + k]);
        assert(t.subrange(j, j + pat.len())[k] == pat[k]);
    }
    assert(s.subrange(i + j, i + j + pat.len()) =~= pat);
}

/// Where the function of definition `k` starts.
spec fn def_start(defs: Seq<Def>, k: int) -> int {
    defs_text(defs.take(k)).len() as int
}

/// Where in the functions of definitions watched pairs stand.
proof fn lemma_defs_meet(defs: Seq<Def>, x: char, y: char)
    requires
        watched(x, y),
    ensures
        ends_off(defs_text(defs), x),
        forall|i: int| #[trigger]
            meets(defs_text(defs), x, y, i) ==> x == 'f' && exists|k: int|
                0 <= k < defs.len() && i == #[trigger] def_start(defs, k),
    decreases defs.len(),
{
    if defs.len() > 0 {
        let init = defs.drop_last();
        let n = defs.len() - 1;
        let last = def_text(n as nat, defs.last());
        lemma_defs_meet(init, x, y);
        lemma_def_meets(n as nat, defs.last(), x, y);
        lemma_join(defs_text(init), last, x, y);
        assert forall|i: int| #[trigger] meets(defs_text(defs), x, y, i) implies x == 'f' && exists|
            k: int,
        |
            0 <= k < defs.len() && i == #[trigger] def_start(defs, k) by {
            assert(meets(defs_text(init) + last, x, y, i));
            if meets(defs_text(init), x, y, i) {
                let k = choose|k: int| 0 <= k < init.len() && i == #[trigger] def_start(init, k);
                assert(init.take(k) =~= defs.take(k));
                assert(i == def_start(defs, k));
            } else {
                assert(defs.take(n) =~= init);
                assert(i == def_start(defs, n));
            }
        }
    }
}

/// The function of definition `k` stands where it starts.
proof fn lemma_def_stands(defs: Seq<Def>, k: int)
    requires
        0 <= k < defs.len(),
    ensures
        occurs_at(defs_text(defs), def_text(k as nat, defs[k]), def_start(defs, k)),
    decreases defs.len(),
{
    let init = defs.drop_last();
    let n = defs.len() - 1;
    let last = def_text(n as nat, defs.last());
    if k < n {
        lemma_def_stands(init, k);
        assert(init.take(k) =~= defs.take(k));
        lemma_occurs_more(defs_text(init), last, def_text(k as nat, defs[k]), def_start(defs, k));
    } else {
        assert(defs.take(n) =~= init);
        assert(last.subrange(0, last.len() as int) =~= last);
        lemma_occurs_behind(defs_text(init), last, last, 0);
    }
}

/// Two numerals that stand at one place, before the same character that is no
/// digit, are of one number.
proof fn lemma_dec_before(s: Seq<char>, i: int, a: nat, b: nat, c: char)
    requires
        occurs_at(s, dec(a).push(c), i),
        occurs_at(s, dec(b).push(c), i),
        !is_digit(c),
    ensures
        a == b,
{
    let p = dec(a).push(c);
    let q = dec(b).push(c);
    assert forall|j: int| 0 <= j < p.len() implies s[i + j] == #[trigger] p[j] by {
        assert(s.subrange(i, i + p.len())[j] == p[j]);
    }
    assert forall|j: int| 0 <= j < q.len() implies s[i + j] == #[trigger] q[j] by {
        assert(s.subrange(i, i + q.len())[j] == q[j]);
    }
    lemma_dec_digits(a);
    lemma_dec_digits(b);
    let m = dec(a).len() as int;
    let n = dec(b).len() as int;
    if m < n {
        assert(p[m] == c && q[m] == dec(b)[m]);
    } else if n < m {
        assert(q[n] == c && p[n] == dec(a)[n]);
    } else {
        assert forall|j: int| 0 <= j < m implies dec(a)[j] == dec(b)[j] by {
            assert(p[j] == dec(a)[j] && q[j] == dec(b)[j]);
        }
        assert(dec(a) =~= dec(b));
        lemma_dec_injective(a, b);
    }
}

proof fn lemma_case_meets(fid: nat, x: char, y: char)
    requires
        watched(x, y),
    ensures
        ends_off(case_text(fid), x),
        forall|i: int| #[trigger] meets(case_text(fid), x, y, i) <==> i == 7 && x == 'e',
        occurs_at(case_text(fid), case_head(fid), 4),
{
    reveal_strlit("u: { return ic_");
    reveal_strlit("(a, b); }\n");
    lemma_dec_calm(fid, x, y);
    let a = "    case "@;
    let b = a + dec(fid);
    let c = b + "u: { return ic_"@;
    let d = c + dec(fid);
    let e = d + "(a, b); }\n"@;
    assert(ends_off(a, x) && forall|z: int| #[trigger] meets(a, x, y, z) <==> z == 7 && x == 'e') by {
        reveal_strlit("    case ");
    }
    lemma_add_calm(a, dec(fid), x, y);
    lemma_add_calm(b, "u: { return ic_"@, x, y);
    lemma_add_calm(c, dec(fid), x, y);
    lemma_add_calm(d, "(a, b); }\n"@, x, y);
    assert(e == case_text(fid));
    assert(occurs_at(c, case_head(fid), 4)) by {
        reveal_strlit("    case ");
        reveal_strlit("case ");
        reveal_strlit("u:");
        assert(c.subrange(4, 4int + case_head(fid).len()) =~= case_head(fid));
    }
    lemma_occurs_more(c, dec(fid), case_head(fid), 4);
    lemma_occurs_more(d, "(a, b); }\n"@, case_head(fid), 4);
}

/// Where the case of definition `k` starts.
spec fn case_start(k: nat) -> int {
    cases_text(k).len() as int
}

proof fn lemma_cases_meet(n: nat, x: char, y: char)
    requires
        watched(x, y),
    ensures
        ends_off(cases_text(n), x),
        forall|i: int| #[trigger]
            meets(cases_text(n), x, y, i) ==> x == 'e' && exists|k: nat|
                k < n && i == #[trigger] case_start(k) + 7,
    decreases n,
{
    if n > 0 {
        let m = (n - 1) as nat;
        lemma_cases_meet(m, x, y);
        lemma_case_meets(m, x, y);
        lemma_join(cases_text(m), case_text(m), x, y);
        assert forall|i: int| #[trigger] meets(cases_text(n), x, y, i) implies x == 'e' && exists|
            k: nat,
        |
            k < n && i == #[trigger] case_start(k) + 7 by {
            assert(meets(cases_text(m) + case_text(m), x, y, i));
            if meets(cases_text(m), x, y, i) {
                let k = choose|k: nat| k < m && i == #[trigger] case_start(k) + 7;
                assert(k < n && i == case_start(k) + 7);
            } else {
                assert(m < n && i == case_start(m) + 7);
            }
        }
    }
}

proof fn lemma_case_stands(n: nat, k: nat)
    requires
        k < n,
    ensures
        occurs_at(cases_text(n), case_text(k), case_start(k)),
    decreases n,
{
    let m = (n - 1) as nat;
    let last = case_text(m);
    if k < m {
        lemma_case_stands(m, k);
        lemma_occurs_more(cases_text(m), last, case_text(k), case_start(k));
    } else {
        assert(last.subrange(0, last.len() as int) =~= last);
        lemma_occurs_behind(cases_text(m), last, last, 0);
    }
}

proof fn lemma_call_lines_calm(x: char, y: char)
    requires
        watched(x, y),
    ensures
        calm("  if book[0] == 0u { atomicStore(&ctl[M_ERR], 1u); return false; }\n"@, x, y),
        calm("  let fid = val_of(a) & 0x0FFFFFFFu;\n"@, x, y),
        calm("  switch fid {\n"@, x, y),
{
    reveal_strlit("  if book[0] == 0u { atomicStore(&ctl[M_ERR], 1u); return false; }\n");
    reveal_strlit("  let fid = val_of(a) & 0x0FFFFFFFu;\n");
    reveal_strlit("  switch fid {\n");
}

proof fn lemma_default_lines_calm(x: char, y: char)
    requires
        watched(x, y),
    ensures
        calm("    default: { atomicStore(&ctl[M_ERR], 1u); return false; }\n"@, x, y),
        calm("  }\n}\n"@, x, y),
{
    reveal_strlit("    default: { atomicStore(&ctl[M_ERR], 1u); return false; }\n");
    reveal_strlit("  }\n}\n");
}

/// The functions of a book up to the cases.
spec fn before_cases(defs: Seq<Def>) -> Seq<char> {
    defs_text(defs) + "fn interact_call(a: u32, b: u32) -> bool {\n"@
        + "  if book[0] == 0u { atomicStore(&ctl[M_ERR], 1u); return false; }\n"@
        + "  let fid = val_of(a) & 0x0FFFFFFFu;\n"@ + "  switch fid {\n"@
}

/// Where in the functions of a book watched pairs stand: at the start of each
/// function and in each case.
proof fn lemma_text_meets(defs: Seq<Def>, x: char, y: char)
    requires
        watched(x, y),
    ensures
        ends_off(interact_text(defs), x),
        forall|i: int| #[trigger]
            meets(interact_text(defs), x, y, i) ==> {
                ||| x == 'f' && i == defs_text(defs).len()
                ||| x == 'f' && exists|k: int|
                    0 <= k < defs.len() && i == #[trigger] def_start(defs, k)
                ||| x == 'e' && exists|k: nat|
                    k < defs.len() && i == before_cases(defs).len() + #[trigger] case_start(k) + 7
            },
{
    lemma_defs_meet(defs, x, y);
    lemma_cases_meet(defs.len(), x, y);
    lemma_call_lines_calm(x, y);
    lemma_default_lines_calm(x, y);
    let t0 = "fn interact_call(a: u32, b: u32) -> bool {\n"@;
    let t1 = "  if book[0] == 0u { atomicStore(&ctl[M_ERR], 1u); return false; }\n"@;
    let t2 = "  let fid = val_of(a) & 0x0FFFFFFFu;\n"@;
    let t3 = "  switch fid {\n"@;
    let t4 = "    default: { atomicStore(&ctl[M_ERR], 1u); return false; }\n"@;
    let t5 = "  }\n}\n"@;
    let a = defs_text(defs);
    let b = a + t0;
    let c = b + t1;
    let d = c + t2;
    let e = d + t3;
    let f = e + cases_text(defs.len());
    let g = f + t4;
    let h = g + t5;
    assert(ends_off(t0, x) && forall|z: int| #[trigger] meets(t0, x, y, z) <==> z == 0 && x == 'f')
        by {
        reveal_strlit("fn interact_call(a: u32, b: u32) -> bool {\n");
    }
    lemma_join(a, t0, x, y);
    lemma_add_calm(b, t1, x, y);
    lemma_add_calm(c, t2, x, y);
    lemma_add_calm(d, t3, x, y);
    lemma_join(e, cases_text(defs.len()), x, y);
    lemma_add_calm(f, t4, x, y);
    lemma_add_calm(g, t5, x, y);
    assert(h == interact_text(defs));
    assert(e == before_cases(defs));
    assert forall|i: int| #[trigger] meets(interact_text(defs), x, y, i) implies {
        ||| x == 'f' && i == defs_text(defs).len()
        ||| x == 'f' && exists|k: int| 0 <= k < defs.len() && i == #[trigger] def_start(defs, k)
        ||| x == 'e' && exists|k: nat|
            k < defs.len() && i == before_cases(defs).len() + #[trigger] case_start(k) + 7
    } by {
        assert(meets(g, x, y, i));
        assert(meets(f, x, y, i));
        if meets(cases_text(defs.len()), x, y, i - e.len()) {
            let k = choose|k: nat| k < defs.len() && i - e.len() == #[trigger] case_start(k) + 7;
            assert(k < defs.len() && i == before_cases(defs).len() + case_start(k) + 7);
        } else {
            assert(meets(e, x, y, i));
            assert(meets(d, x, y, i));
            assert(meets(c, x, y, i));
            assert(meets(b, x, y, i));
        }
    }
}

/// What stands in the functions of definitions stands in the functions of the
/// book; what stands in the cases, behind what comes before them.
proof fn lemma_text_holds(defs: Seq<Def>, pat: Seq<char>, i: int)
    ensures
        occurs_at(defs_text(defs), pat, i) ==> occurs_at(interact_text(defs), pat, i),
        occurs_at(cases_text(defs.len()), pat, i) ==> occurs_at(
            interact_text(defs),
            pat,
            before_cases(defs).len() + i,
        ),
{
    let t0 = "fn interact_call(a: u32, b: u32) -> bool {\n"@;
    let t1 = "  if book[0] == 0u { atomicStore(&ctl[M_ERR], 1u); return false; }\n"@;
    let t2 = "  let fid = val_of(a) & 0x0FFFFFFFu;\n"@;
    let t3 = "  switch fid {\n"@;
    let t4 = "    default: { atomicStore(&ctl[M_ERR], 1u); return false; }\n"@;
    let t5 = "  }\n}\n"@;
    let a = defs_text(defs);
    let b = a + t0;
    let c = b + t1;
    let d = c + t2;
    let e = d + t3;
    let cases = cases_text(defs.len());
    if occurs_at(a, pat, i) {
        lemma_occurs_more(a, t0, pat, i);
        lemma_occurs_more(b, t1, pat, i);
        lemma_occurs_more(c, t2, pat, i);
        lemma_occurs_more(d, t3, pat, i);
        lemma_occurs_more(e, cases, pat, i);
        lemma_occurs_more(e + cases, t4, pat, i);
        lemma_occurs_more(e + cases + t4, t5, pat, i);
    }
    if occurs_at(cases, pat, i) {
        lemma_occurs_behind(e, cases, pat, i);
        lemma_occurs_more(e + cases, t4, pat, e.len() + i);
        lemma_occurs_more(e + cases + t4, t5, pat, e.len() + i);
    }
}

/// Every definition has its function in the program of a book, exactly one, and
/// there is no function for any other number.
pub proof fn law_each_function_once(defs: Seq<Def>, fid: nat)
    ensures
        fid < defs.len() ==> exists|i: int| #[trigger]
            occurs_only_at(interact_text(defs), fn_head(fid), i) && occurs_at(
                interact_text(defs),
                def_text(fid, defs[fid as int]),
                i,
            ),
        fid >= defs.len() ==> forall|i: int| !occurs_at(interact_text(defs), fn_head(fid), i),
{
    let text = interact_text(defs);
    lemma_text_meets(defs, 'f', 'n');
    assert forall|i: int| occurs_at(text, fn_head(fid), i) implies fid < defs.len() && i
        == def_start(defs, fid as int) by {
        let head = fn_head(fid);
        reveal_strlit("fn ic_");
        reveal_strlit("(");
        let sub = text.subrange(i, i + head.len());
        assert(sub[0] == 'f' && sub[1] == 'n' && sub[4] == 'c');
        assert(meets(text, 'f', 'n', i));
        if i == defs_text(defs).len() {
            let t0 = "fn interact_call(a: u32, b: u32) -> bool {\n"@;
            reveal_strlit("fn interact_call(a: u32, b: u32) -> bool {\n");
            lemma_call_stands(defs);
            assert(text.subrange(i, i + t0.len())[4] == t0[4]);
            assert(text[i + 4] == 'n');
            assert(text[i + 4] == 'c');
        } else {
            let k = choose|k: int| 0 <= k < defs.len() && i == #[trigger] def_start(defs, k);
            lemma_function_stands(defs, k);
            lemma_head_numeral(text, fid, i);
            lemma_head_numeral(text, k as nat, i);
            lemma_dec_before(text, i + 6, fid, k as nat, '(');
        }
    }
    if fid < defs.len() {
        let i = def_start(defs, fid as int);
        lemma_function_stands(defs, fid as int);
        assert(occurs_only_at(text, fn_head(fid), i));
    }
}

/// Books with one program have equally many definitions.
pub(crate) proof fn lemma_same_count(a: Seq<Def>, b: Seq<Def>)
    requires
        interact_text(a) == interact_text(b),
    ensures
        a.len() == b.len(),
{
    if a.len() < b.len() {
        law_each_function_once(a, a.len());
        law_each_function_once(b, a.len());
    } else if b.len() < a.len() {
        law_each_function_once(a, b.len());
        law_each_function_once(b, b.len());
    }
}

/// The functions of definitions end at the same place in one program.
proof fn lemma_same_end(a: Seq<Def>, b: Seq<Def>)
    requires
        interact_text(a) == interact_text(b),
    ensures
        defs_text(a).len() == defs_text(b).len(),
{
    let text = interact_text(a);
    let i = defs_text(b).len() as int;
    let t0 = "fn interact_call(a: u32, b: u32) -> bool {\n"@;
    lemma_text_meets(a, 'f', 'n');
    lemma_call_stands(b);
    reveal_strlit("fn interact_call(a: u32, b: u32) -> bool {\n");
    let sub = text.subrange(i, i + t0.len());
    assert(sub[0] == 'f' && sub[1] == 'n' && sub[4] == 'n');
    assert(meets(text, 'f', 'n', i));
    if i != defs_text(a).len() {
        let k = choose|k: int| 0 <= k < a.len() && i == #[trigger] def_start(a, k);
        lemma_function_stands(a, k);
        reveal_strlit("fn ic_");
        let head = fn_head(k as nat);
        assert(text.subrange(i, i + head.len())[4] == head[4]);
    }
}

/// The function of a definition starts at the same place in one program.
proof fn lemma_same_start(a: Seq<Def>, b: Seq<Def>, k: int)
    requires
        interact_text(a) == interact_text(b),
        0 <= k < a.len(),
        a.len() == b.len(),
    ensures
        def_start(a, k) == def_start(b, k),
{
    law_each_function_once(a, k as nat);
    let text = interact_text(a);
    lemma_function_stands(a, k);
    lemma_function_stands(b, k);
    let i = choose|i: int| #[trigger]
        occurs_only_at(text, fn_head(k as nat), i) && occurs_at(text, def_text(k as nat, a[k]), i);
    assert(occurs_at(text, fn_head(k as nat), def_start(a, k)));
    assert(occurs_at(text, fn_head(k as nat), def_start(b, k)));
}

proof fn lemma_def_end(defs: Seq<Def>, k: int)
    requires
        0 <= k < defs.len(),
    ensures
        def_start(defs, k) + def_text(k as nat, defs[k]).len() == if k + 1 < defs.len() {
            def_start(defs, k + 1)
        } else {
            defs_text(defs).len() as int
        },
{
    assert(defs.take(k + 1).drop_last() =~= defs.take(k));
    if k + 1 == defs.len() {
        assert(defs.take(k + 1) =~= defs);
    }
}

/// The function of each definition is the same in one program.
pub(crate) proof fn lemma_same_function(a: Seq<Def>, b: Seq<Def>, k: int)
    requires
        interact_text(a) == interact_text(b),
        0 <= k < a.len(),
        a.len() == b.len(),
    ensures
        def_text(k as nat, a[k]) == def_text(k as nat, b[k]),
{
    lemma_same_start(a, b, k);
    lemma_same_end(a, b);
    if k + 1 < a.len() {
        lemma_same_start(a, b, k + 1);
    }
    lemma_def_end(a, k);
    lemma_def_end(b, k);
    lemma_function_stands(a, k);
    lemma_function_stands(b, k);
}

proof fn lemma_call_stands(defs: Seq<Def>)
    ensures
        occurs_at(
            interact_text(defs),
            "fn interact_call(a: u32, b: u32) -> bool {\n"@,
            defs_text(defs).len() as int,
        ),
{
    let t0 = "fn interact_call(a: u32, b: u32) -> bool {\n"@;
    let t1 = "  if book[0] == 0u { atomicStore(&ctl[M_ERR], 1u); return false; }\n"@;
    let t2 = "  let fid = val_of(a) & 0x0FFFFFFFu;\n"@;
    let t3 = "  switch fid {\n"@;
    let t4 = "    default: { atomicStore(&ctl[M_ERR], 1u); return false; }\n"@;
    let t5 = "  }\n}\n"@;
    let a = defs_text(defs);
    let i = a.len() as int;
    let cases = cases_text(defs.len());
    assert(t0.subrange(0, t0.len() as int) =~= t0);
    lemma_occurs_behind(a, t0, t0, 0);
    lemma_occurs_more(a + t0, t1, t0, i);
    lemma_occurs_more(a + t0 + t1, t2, t0, i);
    lemma_occurs_more(a + t0 + t1 + t2, t3, t0, i);
    lemma_occurs_more(a + t0 + t1 + t2 + t3, cases, t0, i);
    lemma_occurs_more(a + t0 + t1 + t2 + t3 + cases, t4, t0, i);
    lemma_occurs_more(a + t0 + t1 + t2 + t3 + cases + t4, t5, t0, i);
}

proof fn lemma_function_stands(defs: Seq<Def>, k: int)
    requires
        0 <= k < defs.len(),
    ensures
        occurs_at(interact_text(defs), def_text(k as nat, defs[k]), def_start(defs, k)),
        occurs_at(interact_text(defs), fn_head(k as nat), def_start(defs, k)),
{
    lemma_def_stands(defs, k);
    lemma_text_holds(defs, def_text(k as nat, defs[k]), def_start(defs, k));
    lemma_def_meets(k as nat, defs[k], 'f', 'n');
    lemma_occurs_in(
        interact_text(defs),
        def_text(k as nat, defs[k]),
        fn_head(k as nat),
        def_start(defs, k),
        0,
    );
}

proof fn lemma_head_numeral(s: Seq<char>, fid: nat, i: int)
    requires
        occurs_at(s, fn_head(fid), i),
    ensures
        occurs_at(s, dec(fid).push('('), i + 6),
{
    reveal_strlit("fn ic_");
    reveal_strlit("(");
    let part = dec(fid).push('(');
    assert(fn_head(fid).subrange(6, 6int + part.len()) =~= part);
    lemma_occurs_in(s, fn_head(fid), part, i, 6);
}

/// Every definition has its case in the program of a book, exactly one, which
/// calls its function, and there is no case for any other number.
pub proof fn law_each_case_once(defs: Seq<Def>, fid: nat)
    ensures
        fid < defs.len() ==> exists|i: int| #[trigger]
            occurs_only_at(interact_text(defs), case_head(fid), i) && occurs_at(
                interact_text(defs),
                case_text(fid),
                i - 4,
            ),
        fid >= defs.len() ==> forall|i: int| !occurs_at(interact_text(defs), case_head(fid), i),
{
    let text = interact_text(defs);
    let base = before_cases(defs).len() as int;
    lemma_text_meets(defs, 'e', ' ');
    assert forall|i: int| occurs_at(text, case_head(fid), i) implies fid < defs.len() && i == base
        + case_start(fid) + 4 by {
        let head = case_head(fid);
        reveal_strlit("case ");
        reveal_strlit("u:");
        let sub = text.subrange(i, i + head.len());
        assert(sub[3] == 'e' && sub[4] == ' ');
        assert(meets(text, 'e', ' ', i + 3));
        let k = choose|k: nat|
            k < defs.len() && i + 3 == before_cases(defs).len() + #[trigger] case_start(k) + 7;
        lemma_case_function_stands(defs, k);
        lemma_case_numeral(text, fid, i);
        lemma_case_numeral(text, k, i);
        lemma_dec_before(text, i + 5, fid, k, 'u');
    }
    if fid < defs.len() {
        let i = base + case_start(fid) + 4;
        lemma_case_function_stands(defs, fid);
        assert(occurs_only_at(text, case_head(fid), i));
    }
}

proof fn lemma_case_function_stands(defs: Seq<Def>, k: nat)
    requires
        k < defs.len(),
    ensures
        occurs_at(interact_text(defs), case_text(k), before_cases(defs).len() + case_start(k)),
        occurs_at(interact_text(defs), case_head(k), before_cases(defs).len() + case_start(k) + 4),
{
    lemma_case_stands(defs.len(), k);
    lemma_text_holds(defs, case_text(k), case_start(k));
    lemma_case_meets(k, 'e', ' ');
    lemma_occurs_in(
        interact_text(defs),
        case_text(k),
        case_head(k),
        before_cases(defs).len() + case_start(k),
        4,
    );
}

proof fn lemma_case_numeral(s: Seq<char>, fid: nat, i: int)
    requires
        occurs_at(s, case_head(fid), i),
    ensures
        occurs_at(s, dec(fid).push('u'), i + 5),
{
    reveal_strlit("case ");
    reveal_strlit("u:");
    let part = dec(fid).push('u');
    assert(case_head(fid).subrange(5, 5int + part.len()) =~= part);
    lemma_occurs_in(s, case_head(fid), part, i, 5);
}

/// In the plain access functions `r` never stands before `<`.
proof fn lemma_plain_calm()
    ensures
        calm(plain_access(), 'r', '<'),
        plain_access().len() > 3,
        plain_access()[0] == '/',
        forall|i: int|
            plain_access().len() - 3 <= i < plain_access().len() ==> #[trigger] plain_access()[i]
                != 'v',
{
    let l0 = "// NODE_ACCESS_START — replaced by a non-atomic copy when nthreads==1\n"@;
    let l1 = "fn nld(i: u32) -> u64 { return node[i]; }\nfn nst(i: u32, v: u64) { node[i] = v; }\n"@;
    let l2 = "fn nxchg(i: u32, v: u64) -> u64 { let t = node[i]; node[i] = v; return t; }\n"@;
    let l3 = "fn ncas0(i: u32) -> bool {\n  if node[i] != u64(0) { return false; }\n"@;
    let l4 = "  node[i] = u64(1);\n  return true;\n}\nfn vld(i: u32) -> u32 { return vars[i]; }\n"@;
    let l5 = "fn vst(i: u32, v: u32) { vars[i] = v; }\n"@;
    let l6 = "fn vxchg(i: u32, v: u32) -> u32 { let t = vars[i]; vars[i] = v; return t; }\n"@;
    let l7 = "fn vcas(i: u32, exp: u32, v: u32) -> bool {\n  if vars[i] != exp { return false; }\n"@;
    let l8 = "  vars[i] = v;\n  return true;\n}\n"@;
    let l9 = "// NODE_ACCESS_END"@;
    assert(calm(l0, 'r', '<')) by {
        reveal_strlit("// NODE_ACCESS_START — replaced by a non-atomic copy when nthreads==1\n");
    }
    assert(calm(l1, 'r', '<')) by {
        reveal_strlit("fn nld(i: u32) -> u64 { return node[i]; }\nfn nst(i: u32, v: u64) { node[i] = v; }\n");
    }
    assert(calm(l2, 'r', '<')) by {
        reveal_strlit("fn nxchg(i: u32, v: u64) -> u64 { let t = node[i]; node[i] = v; return t; }\n");
    }
    assert(calm(l3, 'r', '<')) by {
        reveal_strlit("fn ncas0(i: u32) -> bool {\n  if node[i] != u64(0) { return false; }\n");
    }
    assert(calm(l4, 'r', '<')) by {
        reveal_strlit("  node[i] = u64(1);\n  return true;\n}\nfn vld(i: u32) -> u32 { return vars[i]; }\n");
    }
    assert(calm(l5, 'r', '<')) by {
        reveal_strlit("fn vst(i: u32, v: u32) { vars[i] = v; }\n");
    }
    assert(calm(l6, 'r', '<')) by {
        reveal_strlit("fn vxchg(i: u32, v: u32) -> u32 { let t = vars[i]; vars[i] = v; return t; }\n");
    }
    assert(calm(l7, 'r', '<')) by {
        reveal_strlit("fn vcas(i: u32, exp: u32, v: u32) -> bool {\n  if vars[i] != exp { return false; }\n");
    }
    assert(calm(l8, 'r', '<')) by {
        reveal_strlit("  vars[i] = v;\n  return true;\n}\n");
    }
    assert(calm(l9, 'r', '<')) by {
        reveal_strlit("// NODE_ACCESS_END");
    }
    let s0 = l0;
    let s1 = s0 + l1;
    lemma_add_calm(s0, l1, 'r', '<');
    let s2 = s1 + l2;
    lemma_add_calm(s1, l2, 'r', '<');
    let s3 = s2 + l3;
    lemma_add_calm(s2, l3, 'r', '<');
    let s4 = s3 + l4;
    lemma_add_calm(s3, l4, 'r', '<');
    let s5 = s4 + l5;
    lemma_add_calm(s4, l5, 'r', '<');
    let s6 = s5 + l6;
    lemma_add_calm(s5, l6, 'r', '<');
    let s7 = s6 + l7;
    lemma_add_calm(s6, l7, 'r', '<');
    let s8 = s7 + l8;
    lemma_add_calm(s7, l8, 'r', '<');
    let s9 = s8 + l9;
    lemma_add_calm(s8, l9, 'r', '<');
    assert(s9 == plain_access());
    reveal_strlit("// NODE_ACCESS_START — replaced by a non-atomic copy when nthreads==1\n");
    reveal_strlit("// NODE_ACCESS_END");
}

/// A declaration with atomics: it starts with `var<`, and what tells where it can
/// overlap something else.
spec fn is_declaration(p: Seq<char>) -> bool {
    &&& p.len() > 4
    &&& p[0] == 'v'
    &&& p[2] == 'r'
    &&& p[3] == '<'
    &&& forall|k: int| 0 <= k < p.len() ==> #[trigger] p[k] != '/' && p[k] != 'f'
}

proof fn lemma_declarations()
    ensures
        is_declaration(atomic_node()),
        is_declaration(atomic_vars()),
{
    reveal_strlit("var<storage, read_write> node: array<atomic<u64>>;");
    reveal_strlit("var<storage, read_write> vars: array<atomic<u32>>;");
}

/// A declaration overlaps no text that is calm and has other characters at its
/// ends.
proof fn lemma_declaration_clashes(p: Seq<char>, w: Seq<char>)
    requires
        is_declaration(p),
        calm(w, 'r', '<'),
        w.len() > 3,
        w[0] == '/' || w[0] == 'f',
        forall|i: int| w.len() - 3 <= i < w.len() ==> #[trigger] w[i] != 'v',
    ensures
        clash(p, w),
{
    assert forall|d: int| -(p.len() as int) < d < w.len() implies #[trigger] differs(p, w, d) by {
        if d < 0 {
            assert(p[-d] != w[d + -d]);
        } else if d + 3 < w.len() {
            assert(!meets(w, 'r', '<', d + 2));
            if w[d + 2] != 'r' {
                assert(p[2] != w[d + 2]);
            } else {
                assert(p[3] != w[d + 3]);
            }
        } else {
            assert(p[0] != w[d + 0]);
        }
    }
}

/// The letter `v` stands in a declaration of nodes at its start only, and in a
/// declaration of variables at the start of their name too.
proof fn lemma_letters()
    ensures
        forall|k: int| 0 < k < atomic_node().len() ==> #[trigger] atomic_node()[k] != 'v',
        forall|k: int| 0 < k < plain_node().len() ==> #[trigger] plain_node()[k] != 'v',
        forall|k: int|
            0 < k < atomic_vars().len() && k != 25 ==> #[trigger] atomic_vars()[k] != 'v',
        forall|k: int| 0 < k < plain_vars().len() && k != 25 ==> #[trigger] plain_vars()[k] != 'v',
{
    reveal_strlit("var<storage, read_write> node: array<atomic<u64>>;");
    reveal_strlit("var<storage, read_write> node: array<u64>;");
    reveal_strlit("var<storage, read_write> vars: array<atomic<u32>>;");
    reveal_strlit("var<storage, read_write> vars: array<u32>;");
}

spec fn is_vars(s: Seq<char>) -> bool {
    s.len() > 38 && s[0] == 'v' && s[3] == '<' && s[25] == 'v' && s[28] == 's'
}

spec fn is_node(s: Seq<char>) -> bool {
    s.len() > 38 && s[0] == 'v' && s[3] == '<' && s[25] == 'n'
}

proof fn lemma_declared()
    ensures
        is_node(atomic_node()),
        is_node(plain_node()),
        is_vars(atomic_vars()),
        is_vars(plain_vars()),
        atomic_node()[37] == 'a',
        atomic_vars()[37] == 'a',
        plain_node()[37] == 'u',
        plain_vars()[37] == 'u',
{
    reveal_strlit("var<storage, read_write> node: array<atomic<u64>>;");
    reveal_strlit("var<storage, read_write> node: array<u64>;");
    reveal_strlit("var<storage, read_write> vars: array<atomic<u32>>;");
    reveal_strlit("var<storage, read_write> vars: array<u32>;");
}

/// Two declarations that differ at some index cannot overlap.
proof fn lemma_two_declarations(p: Seq<char>, w: Seq<char>, at: int)
    requires
        is_node(p) || is_vars(p),
        is_node(w) || is_vars(w),
        forall|k: int| 0 < k < p.len() && (is_node(p) || k != 25) ==> #[trigger] p[k] != 'v',
        forall|k: int| 0 < k < w.len() && (is_node(w) || k != 25) ==> #[trigger] w[k] != 'v',
        0 <= at < p.len(),
        at < w.len(),
        p[at] != w[at],
    ensures
        clash(p, w),
{
    assert forall|d: int| -(p.len() as int) < d < w.len() implies #[trigger] differs(p, w, d) by {
        if d == 0 {
            assert(p[at] != w[d + at]);
        } else if d > 0 {
            if is_vars(w) && d == 25 {
                assert(p[3] != w[d + 3]);
            } else {
                assert(p[0] != w[d + 0]);
            }
        } else {
            if is_vars(p) && -d == 25 {
                assert(p[28] != w[d + 28]);
            } else {
                assert(p[-d] != w[d + -d]);
            }
        }
    }
}

proof fn lemma_declarations_clash()
    ensures
        clash(atomic_node(), plain_node()),
        clash(atomic_node(), plain_vars()),
        clash(atomic_node(), atomic_vars()),
        clash(atomic_vars(), plain_vars()),
        clash(atomic_vars(), plain_node()),
{
    lemma_letters();
    lemma_declared();
    lemma_two_declarations(atomic_node(), plain_node(), 37);
    lemma_two_declarations(atomic_node(), plain_vars(), 25);
    lemma_two_declarations(atomic_node(), atomic_vars(), 25);
    lemma_two_declarations(atomic_vars(), plain_vars(), 37);
    lemma_two_declarations(atomic_vars(), plain_node(), 25);
}

/// What neither declaration with atomics can overlap is still there without
/// atomics.
proof fn lemma_survives(s: Seq<char>, keep: Seq<char>, at: int) -> (k: int)
    requires
        keep.len() > 0,
        clash(atomic_node(), keep),
        clash(atomic_vars(), keep),
        occurs_at(s, keep, at),
    ensures
        occurs_at(
            replace_all(
                replace_all(s, atomic_node(), plain_node()),
                atomic_vars(),
                plain_vars(),
            ),
            keep,
            k,
        ),
{
    lemma_declared();
    let j = lemma_replace_keeps(s, atomic_node(), plain_node(), keep, 0, at);
    let t = replace_all(s, atomic_node(), plain_node());
    lemma_occurs_index(t, keep, j);
    lemma_replace_keeps(t, atomic_vars(), plain_vars(), keep, 0, j)
}

proof fn lemma_occurs_index(s: Seq<char>, pat: Seq<char>, i: int)
    requires
        occurs_at(s, pat, i),
    ensures
        0 <= i,
{
}

/// The program for a single lane declares neither nodes nor variables with
/// atomics. It holds the plain access functions, between the marks. A declaration
/// that stood there with atomics stands there without.
pub proof fn law_single_lane(template: Seq<char>, defs: Seq<Def>, nthreads: u32)
    requires
        nthreads <= 1,
        is_template(template, defs, nthreads),
    ensures
        forall|i: int| !occurs_at(program(template, defs, nthreads), atomic_node(), i),
        forall|i: int| !occurs_at(program(template, defs, nthreads), atomic_vars(), i),
        exists|i: int| occurs_at(program(template, defs, nthreads), plain_access(), i),
        occurs_at(plain_access(), "// NODE_ACCESS_START"@, 0),
        occurs_at(
            plain_access(),
            "// NODE_ACCESS_END"@,
            plain_access().len() - "// NODE_ACCESS_END"@.len(),
        ),
        (exists|i: int|
            occurs_at(with_plain_access(spliced(template, defs)), atomic_node(), i)) ==> exists|
            i: int,
        |
            occurs_at(program(template, defs, nthreads), plain_node(), i),
        (exists|i: int|
            occurs_at(with_plain_access(spliced(template, defs)), atomic_vars(), i)) ==> exists|
            i: int,
        |
            occurs_at(program(template, defs, nthreads), plain_vars(), i),
{
    let p = spliced(template, defs);
    let s = with_plain_access(p);
    let t = replace_all(s, atomic_node(), plain_node());
    let r = program(template, defs, nthreads);
    lemma_declared();
    lemma_declarations();
    lemma_declarations_clash();
    lemma_replaced_lacks(s, atomic_node(), plain_node(), atomic_node(), 0);
    lemma_replaced_lacks(t, atomic_vars(), plain_vars(), atomic_node(), 0);
    lemma_replaced_lacks(t, atomic_vars(), plain_vars(), atomic_vars(), 0);
    lemma_plain_calm();
    lemma_declaration_clashes(atomic_node(), plain_access());
    lemma_declaration_clashes(atomic_vars(), plain_access());
    let at = find(p, "// NODE_ACCESS_START"@)->0;
    lemma_find_from(p, "// NODE_ACCESS_START"@, 0);
    assert(s.subrange(at, at + plain_access().len()) =~= plain_access());
    assert(occurs_at(s, plain_access(), at));
    let i = lemma_survives(s, plain_access(), at);
    assert(occurs_at(r, plain_access(), i));
    lemma_plain_marks();
    if exists|i: int| occurs_at(s, atomic_node(), i) {
        let i = choose|i: int| occurs_at(s, atomic_node(), i);
        let j = lemma_replaced_holds(s, atomic_node(), plain_node(), i);
        lemma_occurs_index(t, plain_node(), j);
        let k = lemma_replace_keeps(t, atomic_vars(), plain_vars(), plain_node(), 0, j);
        assert(occurs_at(r, plain_node(), k));
    }
    if exists|i: int| occurs_at(s, atomic_vars(), i) {
        let i = choose|i: int| occurs_at(s, atomic_vars(), i);
        lemma_occurs_index(s, atomic_vars(), i);
        let j = lemma_replace_keeps(s, atomic_node(), plain_node(), atomic_vars(), 0, i);
        let k = lemma_replaced_holds(t, atomic_vars(), plain_vars(), j);
        assert(occurs_at(r, plain_vars(), k));
    }
}

proof fn lemma_plain_marks()
    ensures
        occurs_at(plain_access(), "// NODE_ACCESS_START"@, 0),
        occurs_at(
            plain_access(),
            "// NODE_ACCESS_END"@,
            plain_access().len() - "// NODE_ACCESS_END"@.len(),
        ),
{
    let first = "// NODE_ACCESS_START — replaced by a non-atomic copy when nthreads==1\n"@;
    let start = "// NODE_ACCESS_START"@;
    let end = "// NODE_ACCESS_END"@;
    let all = plain_access();
    reveal_strlit("// NODE_ACCESS_START — replaced by a non-atomic copy when nthreads==1\n");
    reveal_strlit("// NODE_ACCESS_START");
    assert(all.subrange(0, start.len() as int) =~= start);
    assert(all.subrange(all.len() - end.len(), all.len() as int) =~= end);
}

/// The program holds the functions of the book in place of the template's own
/// function of that name. For a single lane the access functions are marked, and
/// it is enough that the marks are on one side of the functions of the book.
pub proof fn law_program_holds_book(template: Seq<char>, defs: Seq<Def>, nthreads: u32)
    requires
        is_template(template, defs, nthreads),
        nthreads <= 1 ==> {
            let p = spliced(template, defs);
            let at = find(template, "fn interact_call(a: u32, b: u32)"@)->0;
            ||| find(p, "// NODE_ACCESS_END"@)->0 + "// NODE_ACCESS_END"@.len() <= at
            ||| find(p, "// NODE_ACCESS_START"@)->0 >= at + interact_text(defs).len()
        },
    ensures
        exists|i: int| occurs_at(program(template, defs, nthreads), interact_text(defs), i),
{
    let p = spliced(template, defs);
    let at = find(template, "fn interact_call(a: u32, b: u32)"@)->0;
    let text = interact_text(defs);
    lemma_find_from(template, "fn interact_call(a: u32, b: u32)"@, 0);
    assert(p.subrange(at, at + text.len()) =~= text);
    assert(occurs_at(p, text, at));
    if nthreads <= 1 {
        let s = with_plain_access(p);
        let start = find(p, "// NODE_ACCESS_START"@)->0;
        let end = find(p, "// NODE_ACCESS_END"@)->0 + "// NODE_ACCESS_END"@.len();
        lemma_find_from(p, "// NODE_ACCESS_START"@, 0);
        lemma_find_from(p, "// NODE_ACCESS_END"@, 0);
        let j = if end <= at {
            start + plain_access().len() + (at - end)
        } else {
            at
        };
        assert(s.subrange(j, j + text.len()) =~= text);
        assert(occurs_at(s, text, j));
        lemma_text_meets(defs, 'r', '<');
        lemma_text_ends(defs);
        lemma_declarations();
        lemma_declaration_clashes(atomic_node(), text);
        lemma_declaration_clashes(atomic_vars(), text);
        let k = lemma_survives(s, text, j);
        assert(occurs_at(program(template, defs, nthreads), text, k));
    } else {
        assert(occurs_at(program(template, defs, nthreads), text, at));
    }
}

proof fn lemma_text_ends(defs: Seq<Def>)
    ensures
        interact_text(defs).len() > 3,
        interact_text(defs)[0] == 'f',
        forall|i: int|
            interact_text(defs).len() - 3 <= i < interact_text(defs).len()
                ==> #[trigger] interact_text(defs)[i] != 'v',
{
    let text = interact_text(defs);
    reveal_strlit("  }\n}\n");
    if defs.len() == 0 {
        let t0 = "fn interact_call(a: u32, b: u32) -> bool {\n"@;
        reveal_strlit("fn interact_call(a: u32, b: u32) -> bool {\n");
        lemma_call_stands(defs);
        assert(text.subrange(0, t0.len() as int)[0] == t0[0]);
    } else {
        let head = fn_head(0);
        reveal_strlit("fn ic_");
        lemma_function_stands(defs, 0);
        assert(defs_text(defs.take(0)).len() == 0);
        assert(text.subrange(0, head.len() as int)[0] == head[0]);
    }
}

/// How many lanes there are matters to the program only as far as there is one or
/// there are more: none is like one.
pub proof fn law_lanes_of_a_program(template: Seq<char>, defs: Seq<Def>, m: u32, n: u32)
    requires
        m <= 1 <==> n <= 1,
    ensures
        program(template, defs, m) == program(template, defs, n),
{
}

/// Texts one after the other.
pub open spec fn joined(parts: Seq<Seq<char>>) -> Seq<char>
    decreases parts.len(),
{
    if parts.len() == 0 {
        Seq::empty()
    } else {
        joined(parts.drop_last()) + parts.last()
    }
}

/// The line that stops a duplicator.
pub open spec fn guard_line() -> Seq<char> {
    "  if tag_of(b) == DUP { return interact_eras(a, b); }\n"@
}

/// The line that clears variable `i`.
pub open spec fn var_line(i: int) -> Seq<char> {
    "  vst(vloc["@ + dec(i as nat) + "u], NONE);\n"@
}

/// The line that stores a node as node `i`.
pub open spec fn node_line(i: int, p: Pair) -> Seq<char> {
    "  node_store(nloc["@ + dec(i as nat) + "u], vec2<u32>("@ + port_text(p.fst().0) + ", "@
        + port_text(p.snd().0) + "));\n"@
}

/// The line that links a redex.
pub open spec fn link_line(p: Pair) -> Seq<char> {
    "  link("@ + port_text(p.fst().0) + ", "@ + port_text(p.snd().0) + ");\n"@
}

/// The function of definition `fid` by its lines: its head; a guard, if the
/// definition is safe; the request for room; a line for each variable, each node
/// and each redex; the line that links the root; and its end.
pub open spec fn def_lines(fid: nat, def: Def) -> Seq<Seq<char>> {
    seq!["fn ic_"@ + dec(fid) + "(a: u32, b: u32) -> bool {\n"@] + (if def.safe {
        seq![guard_line()]
    } else {
        Seq::empty()
    }) + seq![
        "  if !get_resources("@ + dec(def.node@.len()) + "u, "@ + dec(def.vars as nat)
            + "u) { return false; }\n"@,
    ] + Seq::new(def.vars as nat, |i: int| var_line(i)) + Seq::new(
        def.node@.len(),
        |i: int| node_line(i, def.node@[i]),
    ) + Seq::new(def.rbag@.len(), |i: int| link_line(def.rbag@[i])) + seq![
        "  link("@ + port_text(def.root.0) + ", b);\n  return true;\n}\n\n"@,
    ]
}

proof fn lemma_joined_push(parts: Seq<Seq<char>>, last: Seq<char>)
    ensures
        joined(parts.push(last)) == joined(parts) + last,
{
    assert(parts.push(last).drop_last() =~= parts);
}

proof fn lemma_joined_add(a: Seq<Seq<char>>, b: Seq<Seq<char>>)
    ensures
        joined(a + b) == joined(a) + joined(b),
    decreases b.len(),
{
    if b.len() == 0 {
        assert(a + b =~= a);
        assert(joined(a) + joined(b) =~= joined(a));
    } else {
        lemma_joined_add(a, b.drop_last());
        assert(a + b =~= (a + b.drop_last()).push(b.last()));
        lemma_joined_push(a + b.drop_last(), b.last());
        assert(joined(a) + joined(b.drop_last()) + b.last() =~= joined(a) + joined(b));
    }
}

proof fn lemma_joined_one(s: Seq<char>)
    ensures
        joined(seq![s]) == s,
{
    assert(seq![s].drop_last() =~= Seq::<Seq<char>>::empty());
    assert(joined(Seq::<Seq<char>>::empty()) + s =~= s);
}

proof fn lemma_vars_lines(n: nat)
    ensures
        vars_text(n) == joined(Seq::new(n, |i: int| var_line(i))),
    decreases n,
{
    let lines = Seq::new(n, |i: int| var_line(i));
    if n > 0 {
        let m = (n - 1) as nat;
        lemma_vars_lines(m);
        assert(lines.drop_last() =~= Seq::new(m, |i: int| var_line(i)));
        assert(vars_text(n) =~= vars_text(m) + var_line(m as int));
    }
}

proof fn lemma_nodes_lines(node: Seq<Pair>)
    ensures
        nodes_text(node) == joined(Seq::new(node.len(), |i: int| node_line(i, node[i]))),
    decreases node.len(),
{
    let lines = Seq::new(node.len(), |i: int| node_line(i, node[i]));
    if node.len() > 0 {
        let init = node.drop_last();
        lemma_nodes_lines(init);
        assert(lines.drop_last() =~= Seq::new(init.len(), |i: int| node_line(i, init[i])));
        assert(nodes_text(node) =~= nodes_text(init) + node_line(node.len() - 1, node.last()));
    }
}

proof fn lemma_links_lines(rbag: Seq<Pair>)
    ensures
        links_text(rbag) == joined(Seq::new(rbag.len(), |i: int| link_line(rbag[i]))),
    decreases rbag.len(),
{
    let lines = Seq::new(rbag.len(), |i: int| link_line(rbag[i]));
    if rbag.len() > 0 {
        let init = rbag.drop_last();
        lemma_links_lines(init);
        assert(lines.drop_last() =~= Seq::new(init.len(), |i: int| link_line(init[i])));
        assert(links_text(rbag) =~= links_text(init) + link_line(rbag.last()));
    }
}

/// The function of a definition is made of these lines and nothing else.
pub proof fn law_lines_of_a_function(fid: nat, def: Def)
    ensures
        def_text(fid, def) == joined(def_lines(fid, def)),
        def_lines(fid, def).len() == 3 + (if def.safe {
            1int
        } else {
            0
        }) + def.vars + def.node@.len() + def.rbag@.len(),
{
    let head = "fn ic_"@ + dec(fid) + "(a: u32, b: u32) -> bool {\n"@;
    let guard = if def.safe {
        guard_line()
    } else {
        Seq::empty()
    };
    let guards = if def.safe {
        seq![guard_line()]
    } else {
        Seq::empty()
    };
    let room = "  if !get_resources("@ + dec(def.node@.len()) + "u, "@ + dec(def.vars as nat)
        + "u) { return false; }\n"@;
    let vars = Seq::new(def.vars as nat, |i: int| var_line(i));
    let nodes = Seq::new(def.node@.len(), |i: int| node_line(i, def.node@[i]));
    let links = Seq::new(def.rbag@.len(), |i: int| link_line(def.rbag@[i]));
    let last = "  link("@ + port_text(def.root.0) + ", b);\n  return true;\n}\n\n"@;
    lemma_joined_one(head);
    lemma_joined_one(guard_line());
    lemma_joined_one(room);
    lemma_joined_one(last);
    lemma_vars_lines(def.vars as nat);
    lemma_nodes_lines(def.node@);
    lemma_links_lines(def.rbag@);
    let a = seq![head];
    let b = a + guards;
    let c = b + seq![room];
    let d = c + vars;
    let e = d + nodes;
    let f = e + links;
    lemma_joined_add(a, guards);
    lemma_joined_add(b, seq![room]);
    lemma_joined_add(c, vars);
    lemma_joined_add(d, nodes);
    lemma_joined_add(e, links);
    lemma_joined_add(f, seq![last]);
    assert(joined(guards) == guard);
    lemma_def_parts(
        head + guard,
        "  if !get_resources("@,
        dec(def.node@.len()),
        "u, "@,
        dec(def.vars as nat),
        "u) { return false; }\n"@,
    );
    let g = head + guard + room + vars_text(def.vars as nat) + nodes_text(def.node@) + links_text(
        def.rbag@,
    );
    assert(g + "  link("@ + port_text(def.root.0) + ", b);\n  return true;\n}\n\n"@ =~= g + last);
}

proof fn lemma_def_parts(
    a: Seq<char>,
    b: Seq<char>,
    c: Seq<char>,
    d: Seq<char>,
    e: Seq<char>,
    f: Seq<char>,
)
    ensures
        a + b + c + d + e + f == a + (b + c + d + e + f),
{
    assert(a + b + c + d + e + f =~= a + (b + c + d + e + f));
}

} // verus!
