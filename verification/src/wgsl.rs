//! The device program of a book.
use vstd::prelude::*;
use crate::hvm::{Book, Def, Pair};
use crate::text::{dec, find, find_str, hex_upper, lemma_find_from, push_dec, push_hex_upper, replace_all, replace_str};

verus! {

/// The access functions that do without atomics, for a single lane.
pub open spec fn plain_access() -> Seq<char> {
    "// NODE_ACCESS_START — replaced by a non-atomic copy when nthreads==1\n"@
        + "fn nld(i: u32) -> u64 { return node[i]; }\nfn nst(i: u32, v: u64) { node[i] = v; }\n"@
        + "fn nxchg(i: u32, v: u64) -> u64 { let t = node[i]; node[i] = v; return t; }\n"@
        + "fn ncas0(i: u32) -> bool {\n  if node[i] != u64(0) { return false; }\n"@
        + "  node[i] = u64(1);\n  return true;\n}\nfn vld(i: u32) -> u32 { return vars[i]; }\n"@
        + "fn vst(i: u32, v: u32) { vars[i] = v; }\n"@
        + "fn vxchg(i: u32, v: u32) -> u32 { let t = vars[i]; vars[i] = v; return t; }\n"@
        + "fn vcas(i: u32, exp: u32, v: u32) -> bool {\n  if vars[i] != exp { return false; }\n"@
        + "  vars[i] = v;\n  return true;\n}\n"@
        + "// NODE_ACCESS_END"@
}

/// The access functions that do without atomics, for a single lane.
pub fn plain_node_access() -> (r: String)
    ensures
        r@ == plain_access(),
{
    let mut out = "// NODE_ACCESS_START — replaced by a non-atomic copy when nthreads==1\n".to_owned();
    out.append("fn nld(i: u32) -> u64 { return node[i]; }\nfn nst(i: u32, v: u64) { node[i] = v; }\n");
    out.append("fn nxchg(i: u32, v: u64) -> u64 { let t = node[i]; node[i] = v; return t; }\n");
    out.append("fn ncas0(i: u32) -> bool {\n  if node[i] != u64(0) { return false; }\n");
    out.append("  node[i] = u64(1);\n  return true;\n}\nfn vld(i: u32) -> u32 { return vars[i]; }\n");
    out.append("fn vst(i: u32, v: u32) { vars[i] = v; }\n");
    out.append("fn vxchg(i: u32, v: u32) -> u32 { let t = vars[i]; vars[i] = v; return t; }\n");
    out.append("fn vcas(i: u32, exp: u32, v: u32) -> bool {\n  if vars[i] != exp { return false; }\n");
    out.append("  vars[i] = v;\n  return true;\n}\n");
    out.append("// NODE_ACCESS_END");
    out
}

/// A port as an argument: its word in base sixteen, adjusted to where the call
/// put its nodes and variables.
pub open spec fn port_text(word: u32) -> Seq<char> {
    "adjust_port(0x"@ + hex_upper(word as nat, 8) + "u)"@
}

/// The lines that clear the first `n` variables.
pub open spec fn vars_text(n: nat) -> Seq<char>
    decreases n,
{
    if n == 0 {
        Seq::empty()
    } else {
        vars_text((n - 1) as nat) + "  vst(vloc["@ + dec((n - 1) as nat) + "u], NONE);\n"@
    }
}

/// The lines that store these nodes.
pub open spec fn nodes_text(node: Seq<Pair>) -> Seq<char>
    decreases node.len(),
{
    if node.len() == 0 {
        Seq::empty()
    } else {
        nodes_text(node.drop_last()) + "  node_store(nloc["@ + dec((node.len() - 1) as nat)
            + "u], vec2<u32>("@ + port_text(node.last().fst().0) + ", "@ + port_text(
            node.last().snd().0,
        ) + "));\n"@
    }
}

/// The lines that link these redexes.
pub open spec fn links_text(rbag: Seq<Pair>) -> Seq<char>
    decreases rbag.len(),
{
    if rbag.len() == 0 {
        Seq::empty()
    } else {
        links_text(rbag.drop_last()) + "  link("@ + port_text(rbag.last().fst().0) + ", "@
            + port_text(rbag.last().snd().0) + ");\n"@
    }
}

/// The function of definition `fid`.
pub open spec fn def_text(fid: nat, def: Def) -> Seq<char> {
    "fn ic_"@ + dec(fid) + "(a: u32, b: u32) -> bool {\n"@ + (if def.safe {
        "  if tag_of(b) == DUP { return interact_eras(a, b); }\n"@
    } else {
        Seq::empty()
    }) + "  if !get_resources("@ + dec(def.node@.len()) + "u, "@ + dec(def.vars as nat)
        + "u) { return false; }\n"@ + vars_text(def.vars as nat) + nodes_text(def.node@)
        + links_text(def.rbag@) + "  link("@ + port_text(def.root.0)
        + ", b);\n  return true;\n}\n\n"@
}

/// The functions of definitions, one after the other.
pub open spec fn defs_text(defs: Seq<Def>) -> Seq<char>
    decreases defs.len(),
{
    if defs.len() == 0 {
        Seq::empty()
    } else {
        defs_text(defs.drop_last()) + def_text((defs.len() - 1) as nat, defs.last())
    }
}

/// The case that calls the function of definition `fid`.
pub open spec fn case_text(fid: nat) -> Seq<char> {
    "    case "@ + dec(fid) + "u: { return ic_"@ + dec(fid) + "(a, b); }\n"@
}

/// The cases that choose among the functions of `n` definitions.
pub open spec fn cases_text(n: nat) -> Seq<char>
    decreases n,
{
    if n == 0 {
        Seq::empty()
    } else {
        cases_text((n - 1) as nat) + case_text((n - 1) as nat)
    }
}

/// The functions of a book and the one that calls them by definition.
pub open spec fn interact_text(defs: Seq<Def>) -> Seq<char> {
    defs_text(defs) + "fn interact_call(a: u32, b: u32) -> bool {\n"@
        + "  if book[0] == 0u { atomicStore(&ctl[M_ERR], 1u); return false; }\n"@
        + "  let fid = val_of(a) & 0x0FFFFFFFu;\n"@ + "  switch fid {\n"@ + cases_text(defs.len())
        + "    default: { atomicStore(&ctl[M_ERR], 1u); return false; }\n"@ + "  }\n}\n"@
}

fn push_port(out: &mut String, word: u32)
    ensures
        final(out)@ == old(out)@ + port_text(word),
{
    out.append("adjust_port(0x");
    push_hex_upper(out, word, 8);
    out.append("u)");
}

fn push_vars(out: &mut String, n: usize)
    ensures
        final(out)@ == old(out)@ + vars_text(n as nat),
{
    let ghost before = out@;
    let mut i: usize = 0;
    while i < n
        invariant
            i <= n,
            out@ == before + vars_text(i as nat),
        decreases n - i,
    {
        out.append("  vst(vloc[");
        push_dec(out, i as u64);
        out.append("u], NONE);\n");
        i += 1;
        proof {
            assert(out@ =~= before + vars_text(i as nat));
        }
    }
}

fn push_nodes(out: &mut String, node: &Vec<Pair>)
    ensures
        final(out)@ == old(out)@ + nodes_text(node@),
{
    let ghost before = out@;
    let mut i: usize = 0;
    while i < node.len()
        invariant
            i <= node@.len(),
            out@ == before + nodes_text(node@.take(i as int)),
        decreases node@.len() - i,
    {
        let p = node[i];
        out.append("  node_store(nloc[");
        push_dec(out, i as u64);
        out.append("u], vec2<u32>(");
        push_port(out, p.get_fst().0);
        out.append(", ");
        push_port(out, p.get_snd().0);
        out.append("));\n");
        proof {
            assert(node@.take(i + 1).drop_last() =~= node@.take(i as int));
            assert(out@ =~= before + nodes_text(node@.take(i + 1)));
        }
        i += 1;
    }
    proof {
        assert(node@.take(i as int) =~= node@);
    }
}

fn push_links(out: &mut String, rbag: &Vec<Pair>)
    ensures
        final(out)@ == old(out)@ + links_text(rbag@),
{
    let ghost before = out@;
    let mut i: usize = 0;
    while i < rbag.len()
        invariant
            i <= rbag@.len(),
            out@ == before + links_text(rbag@.take(i as int)),
        decreases rbag@.len() - i,
    {
        let p = rbag[i];
        out.append("  link(");
        push_port(out, p.get_fst().0);
        out.append(", ");
        push_port(out, p.get_snd().0);
        out.append(");\n");
        proof {
            assert(rbag@.take(i + 1).drop_last() =~= rbag@.take(i as int));
            assert(out@ =~= before + links_text(rbag@.take(i + 1)));
        }
        i += 1;
    }
    proof {
        assert(rbag@.take(i as int) =~= rbag@);
    }
}

fn def_string(fid: usize, def: &Def) -> (r: String)
    ensures
        r@ == def_text(fid as nat, *def),
{
    let mut out = "fn ic_".to_owned();
    push_dec(&mut out, fid as u64);
    out.append("(a: u32, b: u32) -> bool {\n");
    let ghost before = out@;
    if def.safe {
        out.append("  if tag_of(b) == DUP { return interact_eras(a, b); }\n");
    }
    proof {
        assert(before + Seq::<char>::empty() =~= before);
    }
    out.append("  if !get_resources(");
    push_dec(&mut out, def.node.len() as u64);
    out.append("u, ");
    push_dec(&mut out, def.vars as u64);
    out.append("u) { return false; }\n");
    push_vars(&mut out, def.vars);
    push_nodes(&mut out, &def.node);
    push_links(&mut out, &def.rbag);
    out.append("  link(");
    push_port(&mut out, def.root.0);
    out.append(", b);\n  return true;\n}\n\n");
    out
}

/// The functions of the book and the one that calls them by definition.
pub fn compile_interact_wgsl(book: &Book) -> (r: String)
    ensures
        r@ == interact_text(book.defs@),
{
    let ghost defs = book.defs@;
    let mut out = String::new();
    let mut i: usize = 0;
    while i < book.defs.len()
        invariant
            defs == book.defs@,
            i <= defs.len(),
            out@ == defs_text(defs.take(i as int)),
        decreases defs.len() - i,
    {
        let text = def_string(i, &book.defs[i]);
        out.append(text.as_str());
        proof {
            assert(defs.take(i + 1).drop_last() =~= defs.take(i as int));
        }
        i += 1;
    }
    proof {
        assert(defs.take(i as int) =~= defs);
    }
    out.append("fn interact_call(a: u32, b: u32) -> bool {\n");
    // The test keeps `book` bound: the compiled definitions do not load it.
    out.append("  if book[0] == 0u { atomicStore(&ctl[M_ERR], 1u); return false; }\n");
    out.append("  let fid = val_of(a) & 0x0FFFFFFFu;\n");
    out.append("  switch fid {\n");
    let ghost before = out@;
    let mut i: usize = 0;
    while i < book.defs.len()
        invariant
            defs == book.defs@,
            i <= defs.len(),
            out@ == before + cases_text(i as nat),
        decreases defs.len() - i,
    {
        out.append("    case ");
        push_dec(&mut out, i as u64);
        out.append("u: { return ic_");
        push_dec(&mut out, i as u64);
        out.append("(a, b); }\n");
        i += 1;
        proof {
            assert(out@ =~= before + cases_text(i as nat));
        }
    }
    out.append("    default: { atomicStore(&ctl[M_ERR], 1u); return false; }\n");
    out.append("  }\n}\n");
    proof {
        assert(out@ =~= interact_text(defs));
    }
    out
}

/// The template up to its `interact_call`, the functions of the book, and the
/// template from its `interact_one` on.
pub open spec fn spliced(template: Seq<char>, defs: Seq<Def>) -> Seq<char> {
    template.take(find(template, "fn interact_call(a: u32, b: u32)"@)->0) + interact_text(defs)
        + "\n"@ + template.skip(find(template, "fn interact_one("@)->0)
}

/// `program` with the plain access functions in place of those that use
/// atomics.
pub open spec fn with_plain_access(program: Seq<char>) -> Seq<char> {
    program.take(find(program, "// NODE_ACCESS_START"@)->0) + plain_access() + program.skip(
        find(program, "// NODE_ACCESS_END"@)->0 + "// NODE_ACCESS_END"@.len(),
    )
}

/// The declaration of the nodes with atomics.
pub open spec fn atomic_node() -> Seq<char> {
    "var<storage, read_write> node: array<atomic<u64>>;"@
}

/// The declaration of the nodes without atomics.
pub open spec fn plain_node() -> Seq<char> {
    "var<storage, read_write> node: array<u64>;"@
}

/// The declaration of the variables with atomics.
pub open spec fn atomic_vars() -> Seq<char> {
    "var<storage, read_write> vars: array<atomic<u32>>;"@
}

/// The declaration of the variables without atomics.
pub open spec fn plain_vars() -> Seq<char> {
    "var<storage, read_write> vars: array<u32>;"@
}

/// `program` without atomics.
pub open spec fn without_atomics(program: Seq<char>) -> Seq<char> {
    replace_all(
        replace_all(with_plain_access(program), atomic_node(), plain_node()),
        atomic_vars(),
        plain_vars(),
    )
}

/// The program of a book for `nthreads` lanes, made from `template`. For a single
/// lane it does without atomics.
pub open spec fn program(template: Seq<char>, defs: Seq<Def>, nthreads: u32) -> Seq<char> {
    if nthreads > 1 {
        spliced(template, defs)
    } else {
        without_atomics(spliced(template, defs))
    }
}

/// The places where the program has its access functions are marked, the start
/// before the end of the end mark.
pub open spec fn has_access_marks(program: Seq<char>) -> bool {
    &&& find(program, "// NODE_ACCESS_START"@) is Some
    &&& find(program, "// NODE_ACCESS_END"@) is Some
    &&& find(program, "// NODE_ACCESS_START"@)->0 <= find(program, "// NODE_ACCESS_END"@)->0
        + "// NODE_ACCESS_END"@.len()
}

/// `template` has the functions and marks that a program for this book and this
/// number of lanes is made from.
pub open spec fn is_template(template: Seq<char>, defs: Seq<Def>, nthreads: u32) -> bool {
    &&& find(template, "fn interact_call(a: u32, b: u32)"@) is Some
    &&& find(template, "fn interact_one("@) is Some
    &&& nthreads <= 1 ==> has_access_marks(spliced(template, defs))
}

fn splice(template: &str, book: &Book, start: usize, end: usize) -> (r: String)
    requires
        find(template@, "fn interact_call(a: u32, b: u32)"@) == Some(start as int),
        find(template@, "fn interact_one("@) == Some(end as int),
    ensures
        r@ == spliced(template@, book.defs@),
{
    proof {
        lemma_find_from(template@, "fn interact_call(a: u32, b: u32)"@, 0);
        lemma_find_from(template@, "fn interact_one("@, 0);
        assert(template@.take(start as int) =~= template@.subrange(0, start as int));
        assert(template@.skip(end as int) =~= template@.subrange(
            end as int,
            template@.len() as int,
        ));
    }
    let mut out = template.substring_char(0, start).to_owned();
    let calls = compile_interact_wgsl(book);
    out.append(calls.as_str());
    out.append("\n");
    out.append(template.substring_char(end, template.unicode_len()));
    out
}

/// Whether `template` has the functions and marks that a program for this book
/// and this number of lanes is made from.
pub fn fits_template(template: &str, book: &Book, nthreads: u32) -> (r: bool)
    ensures
        r == is_template(template@, book.defs@, nthreads),
{
    match (
        find_str(template, "fn interact_call(a: u32, b: u32)"),
        find_str(template, "fn interact_one("),
    ) {
        (Some(start), Some(end)) => {
            if nthreads > 1 {
                return true;
            }
            let program = splice(template, book, start, end);
            match (
                find_str(program.as_str(), "// NODE_ACCESS_START"),
                find_str(program.as_str(), "// NODE_ACCESS_END"),
            ) {
                (Some(start), Some(end)) => {
                    proof {
                        reveal_strlit("// NODE_ACCESS_END");
                    }
                    start <= end || start - end <= 18
                },
                _ => false,
            }
        },
        _ => false,
    }
}

/// The program of the book for `nthreads` lanes, made from `template`. For a
/// single lane it does without atomics.
pub fn shader_for_book(template: &str, book: &Book, nthreads: u32) -> (r: String)
    requires
        is_template(template@, book.defs@, nthreads),
    ensures
        r@ == program(template@, book.defs@, nthreads),
{
    let start = find_str(template, "fn interact_call(a: u32, b: u32)").unwrap();
    let end = find_str(template, "fn interact_one(").unwrap();
    let out = splice(template, book, start, end);
    if nthreads > 1 {
        return out;
    }
    let program = out.as_str();
    let start = find_str(program, "// NODE_ACCESS_START").unwrap();
    let end = find_str(program, "// NODE_ACCESS_END").unwrap();
    let len = program.unicode_len();
    proof {
        lemma_find_from(program@, "// NODE_ACCESS_START"@, 0);
        lemma_find_from(program@, "// NODE_ACCESS_END"@, 0);
        reveal_strlit("// NODE_ACCESS_END");
        reveal_strlit("var<storage, read_write> node: array<atomic<u64>>;");
        reveal_strlit("var<storage, read_write> vars: array<atomic<u32>>;");
        assert(program@.take(start as int) =~= program@.subrange(0, start as int));
        assert(program@.skip(end + 18) =~= program@.subrange(end + 18, len as int));
    }
    let mut plain = program.substring_char(0, start).to_owned();
    let access = plain_node_access();
    plain.append(access.as_str());
    plain.append(program.substring_char(end + 18, len));
    let plain = replace_str(
        plain.as_str(),
        "var<storage, read_write> node: array<atomic<u64>>;",
        "var<storage, read_write> node: array<u64>;",
    );
    replace_str(
        plain.as_str(),
        "var<storage, read_write> vars: array<atomic<u32>>;",
        "var<storage, read_write> vars: array<u32>;",
    )
}

} // verus!
