//! Reading the device program of a book: what each of its lines says, and that the
//! lines say what the definitions of the book are.
use vstd::prelude::*;
use crate::hvm::{Def, Pair};
use crate::pack::{same_but_names, same_def};
use crate::reading::{decimal_of, digit_value, is_numeral, lacks, law_dec_value, law_word_numeral, numeral_value, split};
use crate::text::{dec, hex_upper};
use crate::wgsl::{case_text, cases_text, def_text, defs_text, interact_text, links_text, nodes_text, port_text, vars_text};

verus! {

/// What a line of a device program says.
pub enum Command {
    /// The function of a definition begins.
    Begin { fid: int },
    /// A duplicator is stopped.
    Guard,
    /// Room is asked for so many nodes and variables.
    Room { nodes: int, vars: int },
    /// A variable is cleared.
    Clear { var: int },
    /// A node with these two words is stored.
    Store { node: int, fst: int, snd: int },
    /// Two ports with these words are linked.
    Link { fst: int, snd: int },
    /// A port with this word is linked to what the definition is called with.
    LinkRoot { port: int },
    Return,
    End,
    Blank,
    /// The function that calls the others begins.
    BeginCall,
    TestBook,
    TakeFid,
    Switch,
    /// A number is taken to the function of a definition.
    Case { fid: int, callee: int },
    Default,
    EndSwitch,
}

/// `s` is a numeral of eight digits in base sixteen that stands for `n`.
pub open spec fn word_of(s: Seq<char>, n: int) -> bool {
    s.len() == 8 && is_numeral(s, 16) && numeral_value(s, 16) == n
}

/// The line begins the function of definition `fid`.
pub open spec fn begins(line: Seq<char>, fid: int) -> bool {
    exists|d: Seq<char>| #[trigger]
            decimal_of(d, fid) && line == "fn ic_"@ + d + "(a: u32, b: u32) -> bool {"@
}

/// The line asks for room for so many nodes and variables.
pub open spec fn asks_for(line: Seq<char>, nodes: int, vars: int) -> bool {
    exists|d: Seq<char>, e: Seq<char>| #[trigger]
            decimal_of(d, nodes) && #[trigger] decimal_of(e, vars) && line == "  if !get_resources("@
                + d + "u, "@ + e + "u) { return false; }"@
}

/// The line clears a variable.
pub open spec fn clears(line: Seq<char>, var: int) -> bool {
    exists|d: Seq<char>| #[trigger]
            decimal_of(d, var) && line == "  vst(vloc["@ + d + "u], NONE);"@
}

/// The line stores a node with these two words.
pub open spec fn stores(line: Seq<char>, node: int, fst: int, snd: int) -> bool {
    exists|d: Seq<char>, x: Seq<char>, y: Seq<char>|
            #[trigger]
            decimal_of(d, node) && #[trigger] word_of(x, fst) && #[trigger] word_of(y, snd) && line
                == "  node_store(nloc["@ + d + "u], vec2<u32>(adjust_port(0x"@ + x
                + "u), adjust_port(0x"@ + y + "u)));"@
}

/// The line links two ports with these words.
pub open spec fn links(line: Seq<char>, fst: int, snd: int) -> bool {
    exists|x: Seq<char>, y: Seq<char>| #[trigger]
            word_of(x, fst) && #[trigger] word_of(y, snd) && line == "  link(adjust_port(0x"@ + x
                + "u), adjust_port(0x"@ + y + "u));"@
}

/// The line links a port with this word to what the definition is called with.
pub open spec fn links_root(line: Seq<char>, port: int) -> bool {
    exists|x: Seq<char>| #[trigger]
            word_of(x, port) && line == "  link(adjust_port(0x"@ + x + "u), b);"@
}

/// The line takes a number to the function of a definition.
pub open spec fn takes(line: Seq<char>, fid: int, callee: int) -> bool {
    exists|d: Seq<char>, e: Seq<char>| #[trigger]
            decimal_of(d, fid) && #[trigger] decimal_of(e, callee) && line == "    case "@ + d
                + "u: { return ic_"@ + e + "(a, b); }"@
}

/// The line says this.
pub open spec fn says(line: Seq<char>, command: Command) -> bool {
    match command {
        Command::Begin { fid } => begins(line, fid),
        Command::Guard => line == "  if tag_of(b) == DUP { return interact_eras(a, b); }"@,
        Command::Room { nodes, vars } => asks_for(line, nodes, vars),
        Command::Clear { var } => clears(line, var),
        Command::Store { node, fst, snd } => stores(line, node, fst, snd),
        Command::Link { fst, snd } => links(line, fst, snd),
        Command::LinkRoot { port } => links_root(line, port),
        Command::Return => line == "  return true;"@,
        Command::End => line == "}"@,
        Command::Blank => line == ""@,
        Command::BeginCall => line == "fn interact_call(a: u32, b: u32) -> bool {"@,
        Command::TestBook => line
            == "  if book[0] == 0u { atomicStore(&ctl[M_ERR], 1u); return false; }"@,
        Command::TakeFid => line == "  let fid = val_of(a) & 0x0FFFFFFFu;"@,
        Command::Switch => line == "  switch fid {"@,
        Command::Case { fid, callee } => takes(line, fid, callee),
        Command::Default => line
            == "    default: { atomicStore(&ctl[M_ERR], 1u); return false; }"@,
        Command::EndSwitch => line == "  }"@,
    }
}

/// The lines of `text`, each with its line break, say these commands, one each.
pub open spec fn reads(text: Seq<char>, commands: Seq<Command>) -> bool {
    let lines = split(text, '\n');
    &&& lines.len() == commands.len() + 1
    &&& lines.last().len() == 0
    &&& forall|k: int| 0 <= k < commands.len() ==> says(lines[k], #[trigger] commands[k])
}

/// What the function of a definition has to say: a guard where the definition is
/// safe; how many nodes and variables it has; each variable; each node, the low half
/// of its two words first; each redex in the same way; and its root.
pub open spec fn def_commands(fid: nat, def: Def) -> Seq<Command> {
    seq![Command::Begin { fid: fid as int }] + (if def.safe {
        seq![Command::Guard]
    } else {
        Seq::empty()
    }) + seq![Command::Room { nodes: def.node@.len() as int, vars: def.vars as int }] + Seq::new(
        def.vars as nat,
        |i: int| Command::Clear { var: i },
    ) + Seq::new(
        def.node@.len(),
        |i: int|
            Command::Store {
                node: i,
                fst: def.node@[i].0 as int % 0x1_0000_0000,
                snd: def.node@[i].0 as int / 0x1_0000_0000,
            },
    ) + Seq::new(
        def.rbag@.len(),
        |i: int|
            Command::Link {
                fst: def.rbag@[i].0 as int % 0x1_0000_0000,
                snd: def.rbag@[i].0 as int / 0x1_0000_0000,
            },
    ) + seq![
        Command::LinkRoot { port: def.root.0 as int },
        Command::Return,
        Command::End,
        Command::Blank,
    ]
}

/// What the functions of definitions have to say, one after the other.
pub open spec fn defs_commands(defs: Seq<Def>) -> Seq<Command>
    decreases defs.len(),
{
    if defs.len() == 0 {
        Seq::empty()
    } else {
        defs_commands(defs.drop_last()) + def_commands((defs.len() - 1) as nat, defs.last())
    }
}

/// What the functions of a book have to say: each definition, and a function that
/// takes each number to the function of that definition.
pub open spec fn book_commands(defs: Seq<Def>) -> Seq<Command> {
    defs_commands(defs) + seq![
        Command::BeginCall,
        Command::TestBook,
        Command::TakeFid,
        Command::Switch,
    ] + Seq::new(defs.len(), |i: int| Command::Case { fid: i, callee: i }) + seq![
        Command::Default,
        Command::EndSwitch,
        Command::End,
    ]
}

proof fn lemma_split_add(a: Seq<char>, b: Seq<char>, c: char)
    ensures
        split(a, c).len() > 0,
        split(b, c).len() > 0,
        split(a + b, c) == split(a, c).drop_last() + seq![split(a, c).last() + split(b, c)[0]]
            + split(b, c).skip(1),
    decreases a.len(),
{
    lemma_split_some(b, c);
    let pb = split(b, c);
    if a.len() == 0 {
        assert(a + b =~= b);
        let pa = split(a, c);
        assert(pa.drop_last() =~= Seq::<Seq<char>>::empty());
        assert(pa.last() + pb[0] =~= pb[0]);
        assert(pb =~= pa.drop_last() + seq![pb[0]] + pb.skip(1));
    } else {
        let t = a.skip(1);
        assert((a + b).skip(1) =~= t + b);
        assert((a + b)[0] == a[0]);
        lemma_split_add(t, b, c);
        let pt = split(t, c);
        let rest = split(t + b, c);
        let pa = split(a, c);
        let whole = split(a + b, c);
        if a[0] == c {
            assert(pa =~= seq![Seq::<char>::empty()] + pt);
            assert(whole =~= seq![Seq::<char>::empty()] + rest);
            assert(pa.last() == pt.last());
            assert(pa.drop_last() =~= seq![Seq::<char>::empty()] + pt.drop_last());
        } else {
            let x = seq![a[0]];
            assert(pa =~= seq![x + pt[0]] + pt.skip(1));
            assert(whole =~= seq![x + rest[0]] + rest.skip(1));
            if pt.len() == 1 {
                assert(pt.drop_last() =~= Seq::<Seq<char>>::empty());
                assert(rest[0] == pt[0] + pb[0]);
                assert(x + (pt[0] + pb[0]) =~= x + pt[0] + pb[0]);
                assert(pa.last() == x + pt[0]);
                assert(pa.drop_last() =~= Seq::<Seq<char>>::empty());
                assert(rest.skip(1) =~= pb.skip(1));
            } else {
                assert(rest[0] == pt[0]);
                assert(pa.last() == pt.last());
                assert(pa.drop_last() =~= seq![x + pt[0]] + pt.drop_last().skip(1));
                assert(rest.skip(1) =~= pt.drop_last().skip(1) + seq![pt.last() + pb[0]] + pb.skip(
                    1,
                ));
            }
        }
        assert(whole =~= pa.drop_last() + seq![pa.last() + pb[0]] + pb.skip(1));
    }
}

proof fn lemma_split_some(s: Seq<char>, c: char)
    ensures
        split(s, c).len() > 0,
{
}

/// Texts one after the other say what they say, one after the other.
proof fn lemma_reads_add(a: Seq<char>, x: Seq<Command>, b: Seq<char>, y: Seq<Command>)
    requires
        reads(a, x),
        reads(b, y),
    ensures
        reads(a + b, x + y),
{
    lemma_split_add(a, b, '\n');
    let pa = split(a, '\n');
    let pb = split(b, '\n');
    let p = split(a + b, '\n');
    assert(pa.last() + pb[0] =~= pb[0]);
    assert(p =~= pa.drop_last() + pb);
    assert forall|k: int| 0 <= k < (x + y).len() implies says(p[k], #[trigger] (x + y)[k]) by {
        if k < x.len() {
            assert(p[k] == pa[k]);
            assert(says(pa[k], x[k]));
        } else {
            assert(p[k] == pb[k - x.len()]);
            assert(says(pb[k - x.len()], y[k - x.len()]));
        }
    }
}

proof fn lemma_reads_line(line: Seq<char>, command: Command)
    requires
        lacks(line, '\n'),
        says(line, command),
    ensures
        reads(line + seq!['\n'], seq![command]),
{
    let e = Seq::<char>::empty();
    assert(line + seq!['\n'] =~= line + seq!['\n'] + e);
    crate::reading::lemma_split_piece(line, '\n', e);
    assert(split(e, '\n') =~= seq![e]);
    assert(split(line + seq!['\n'], '\n') =~= seq![line, e]);
}

proof fn lemma_reads_none()
    ensures
        reads(Seq::<char>::empty(), Seq::<Command>::empty()),
{
}

proof fn lemma_decimal(n: nat)
    ensures
        decimal_of(dec(n), n as int),
        lacks(dec(n), '\n'),
{
    law_dec_value(n);
    assert forall|i: int| 0 <= i < dec(n).len() implies #[trigger] dec(n)[i] != '\n' by {
        assert(0 <= digit_value(dec(n)[i]) < 10);
    }
}

proof fn lemma_word(word: u32)
    ensures
        word_of(hex_upper(word as nat, 8), word as int),
        lacks(hex_upper(word as nat, 8), '\n'),
{
    law_word_numeral(word);
    let s = hex_upper(word as nat, 8);
    assert forall|i: int| 0 <= i < s.len() implies #[trigger] s[i] != '\n' by {
        assert(0 <= digit_value(s[i]) < 16);
    }
}

/// A port in the device program, read: the eight characters behind
/// `adjust_port(0x` are the numeral of its word, whatever the word is.
pub proof fn law_port_read(word: u32)
    ensures
        ({
            let s = port_text(word);
            &&& s.len() == 24
            &&& s.take(14) == "adjust_port(0x"@
            &&& word_of(s.subrange(14, 22), word as int)
            &&& s.skip(22) == "u)"@
        }),
{
    let s = port_text(word);
    lemma_word(word);
    reveal_strlit("adjust_port(0x");
    reveal_strlit("u)");
    assert(s.take(14) =~= "adjust_port(0x"@);
    assert(s.subrange(14, 22) =~= hex_upper(word as nat, 8));
    assert(s.skip(22) =~= "u)"@);
}

proof fn lemma_vars_read(n: nat)
    ensures
        reads(vars_text(n), Seq::new(n, |i: int| Command::Clear { var: i })),
    decreases n,
{
    let commands = Seq::new(n, |i: int| Command::Clear { var: i });
    if n == 0 {
        lemma_reads_none();
        assert(commands =~= Seq::empty());
    } else {
        let m = (n - 1) as nat;
        let d = dec(m);
        let line = "  vst(vloc["@ + d + "u], NONE);"@;
        let command = Command::Clear { var: m as int };
        lemma_vars_read(m);
        lemma_decimal(m);
        reveal_strlit("  vst(vloc[");
        reveal_strlit("u], NONE);");
        reveal_strlit("u], NONE);\n");
        assert(says(line, command)) by {
            assert(decimal_of(d, m as int));
        }
        lemma_reads_line(line, command);
        assert(vars_text(n) =~= vars_text(m) + (line + seq!['\n']));
        let before = Seq::new(m, |i: int| Command::Clear { var: i });
        lemma_reads_add(vars_text(m), before, line + seq!['\n'], seq![command]);
        assert(commands =~= before + seq![command]);
    }
}

spec fn store(node: Seq<Pair>, i: int) -> Command {
    Command::Store {
        node: i,
        fst: node[i].0 as int % 0x1_0000_0000,
        snd: node[i].0 as int / 0x1_0000_0000,
    }
}

spec fn link(rbag: Seq<Pair>, i: int) -> Command {
    Command::Link {
        fst: rbag[i].0 as int % 0x1_0000_0000,
        snd: rbag[i].0 as int / 0x1_0000_0000,
    }
}

proof fn lemma_store_line(i: nat, p: Pair)
    ensures
        ({
            let text = "  node_store(nloc["@ + dec(i) + "u], vec2<u32>("@ + port_text(p.fst().0)
                + ", "@ + port_text(p.snd().0) + "));\n"@;
            reads(
                text,
                seq![
                    Command::Store {
                        node: i as int,
                        fst: p.0 as int % 0x1_0000_0000,
                        snd: p.0 as int / 0x1_0000_0000,
                    },
                ],
            )
        }),
{
    let d = dec(i);
    let x = hex_upper(p.fst().0 as nat, 8);
    let y = hex_upper(p.snd().0 as nat, 8);
    let command = Command::Store {
        node: i as int,
        fst: p.0 as int % 0x1_0000_0000,
        snd: p.0 as int / 0x1_0000_0000,
    };
    let line = "  node_store(nloc["@ + d + "u], vec2<u32>(adjust_port(0x"@ + x
        + "u), adjust_port(0x"@ + y + "u)));"@;
    let text = "  node_store(nloc["@ + d + "u], vec2<u32>("@ + port_text(p.fst().0) + ", "@
        + port_text(p.snd().0) + "));\n"@;
    lemma_decimal(i);
    lemma_word(p.fst().0);
    lemma_word(p.snd().0);
    assert(decimal_of(d, i as int) && word_of(x, p.0 as int % 0x1_0000_0000) && word_of(
        y,
        p.0 as int / 0x1_0000_0000,
    ));
    assert(says(line, command));
    lemma_store_text(d, x, y);
    lemma_reads_line(line, command);
}

proof fn lemma_store_text(d: Seq<char>, x: Seq<char>, y: Seq<char>)
    requires
        lacks(d, '\n'),
        lacks(x, '\n'),
        lacks(y, '\n'),
    ensures
        ({
            let line = "  node_store(nloc["@ + d + "u], vec2<u32>(adjust_port(0x"@ + x
                + "u), adjust_port(0x"@ + y + "u)));"@;
            let text = "  node_store(nloc["@ + d + "u], vec2<u32>("@ + ("adjust_port(0x"@ + x
                + "u)"@) + ", "@ + ("adjust_port(0x"@ + y + "u)"@) + "));\n"@;
            &&& lacks(line, '\n')
            &&& text == line + seq!['\n']
        }),
{
    reveal_strlit("  node_store(nloc[");
    reveal_strlit("u], vec2<u32>(adjust_port(0x");
    reveal_strlit("u], vec2<u32>(");
    reveal_strlit("adjust_port(0x");
    reveal_strlit("u), adjust_port(0x");
    reveal_strlit("u)");
    reveal_strlit(", ");
    reveal_strlit("u)));");
    reveal_strlit("));\n");
    let a = "  node_store(nloc["@;
    let p = "adjust_port(0x"@;
    assert("u], vec2<u32>(adjust_port(0x"@ =~= "u], vec2<u32>("@ + p);
    assert("u), adjust_port(0x"@ =~= "u)"@ + ", "@ + p);
    assert("u)));"@ + seq!['\n'] =~= "u)"@ + "));\n"@);
    let v = "u], vec2<u32>("@;
    let u = "u)"@;
    let k = ", "@;
    let z = "));\n"@;
    assert(a + d + (v + p) + x + (u + k + p) + y + (u + z) =~= a + d + v + (p + x + u) + k + (p + y
        + u) + z);
    assert(a + d + (v + p) + x + (u + k + p) + y + "u)));"@ + seq!['\n'] =~= a + d + (v + p) + x + (
    u + k + p) + y + ("u)));"@ + seq!['\n']));
}

proof fn lemma_link_line(p: Pair)
    ensures
        ({
            let text = "  link("@ + port_text(p.fst().0) + ", "@ + port_text(p.snd().0) + ");\n"@;
            reads(
                text,
                seq![
                    Command::Link {
                        fst: p.0 as int % 0x1_0000_0000,
                        snd: p.0 as int / 0x1_0000_0000,
                    },
                ],
            )
        }),
{
    let x = hex_upper(p.fst().0 as nat, 8);
    let y = hex_upper(p.snd().0 as nat, 8);
    let command = Command::Link {
        fst: p.0 as int % 0x1_0000_0000,
        snd: p.0 as int / 0x1_0000_0000,
    };
    let line = "  link(adjust_port(0x"@ + x + "u), adjust_port(0x"@ + y + "u));"@;
    lemma_word(p.fst().0);
    lemma_word(p.snd().0);
    assert(word_of(x, p.0 as int % 0x1_0000_0000) && word_of(y, p.0 as int / 0x1_0000_0000));
    assert(says(line, command));
    lemma_link_text(x, y);
    lemma_reads_line(line, command);
}

proof fn lemma_link_text(x: Seq<char>, y: Seq<char>)
    requires
        lacks(x, '\n'),
        lacks(y, '\n'),
    ensures
        ({
            let line = "  link(adjust_port(0x"@ + x + "u), adjust_port(0x"@ + y + "u));"@;
            let text = "  link("@ + ("adjust_port(0x"@ + x + "u)"@) + ", "@ + ("adjust_port(0x"@ + y
                + "u)"@) + ");\n"@;
            &&& lacks(line, '\n')
            &&& text == line + seq!['\n']
        }),
{
    reveal_strlit("  link(adjust_port(0x");
    reveal_strlit("  link(");
    reveal_strlit("adjust_port(0x");
    reveal_strlit("u), adjust_port(0x");
    reveal_strlit("u)");
    reveal_strlit(", ");
    reveal_strlit("u));");
    reveal_strlit(");\n");
    let a = "  link("@;
    let p = "adjust_port(0x"@;
    let u = "u)"@;
    let k = ", "@;
    let z = ");\n"@;
    assert("  link(adjust_port(0x"@ =~= a + p);
    assert("u), adjust_port(0x"@ =~= u + k + p);
    assert("u));"@ + seq!['\n'] =~= u + z);
    assert((a + p) + x + (u + k + p) + y + (u + z) =~= a + (p + x + u) + k + (p + y + u) + z);
    assert((a + p) + x + (u + k + p) + y + "u));"@ + seq!['\n'] =~= (a + p) + x + (u + k + p) + y
        + ("u));"@ + seq!['\n']));
}

proof fn lemma_nodes_read(node: Seq<Pair>)
    ensures
        reads(nodes_text(node), Seq::new(node.len(), |i: int| store(node, i))),
    decreases node.len(),
{
    let commands = Seq::new(node.len(), |i: int| store(node, i));
    if node.len() == 0 {
        lemma_reads_none();
        assert(commands =~= Seq::empty());
    } else {
        let init = node.drop_last();
        let m = init.len();
        let p = node.last();
        let text = "  node_store(nloc["@ + dec(m) + "u], vec2<u32>("@ + port_text(p.fst().0) + ", "@
            + port_text(p.snd().0) + "));\n"@;
        let before = Seq::new(m, |i: int| store(init, i));
        lemma_nodes_read(init);
        lemma_store_line(m, p);
        lemma_reads_add(nodes_text(init), before, text, seq![store(node, m as int)]);
        assert(commands =~= before + seq![store(node, m as int)]);
        assert(nodes_text(node) =~= nodes_text(init) + text);
    }
}

proof fn lemma_links_read(rbag: Seq<Pair>)
    ensures
        reads(links_text(rbag), Seq::new(rbag.len(), |i: int| link(rbag, i))),
    decreases rbag.len(),
{
    let commands = Seq::new(rbag.len(), |i: int| link(rbag, i));
    if rbag.len() == 0 {
        lemma_reads_none();
        assert(commands =~= Seq::empty());
    } else {
        let init = rbag.drop_last();
        let m = init.len();
        let p = rbag.last();
        let text = "  link("@ + port_text(p.fst().0) + ", "@ + port_text(p.snd().0) + ");\n"@;
        let before = Seq::new(m, |i: int| link(init, i));
        lemma_links_read(init);
        lemma_link_line(p);
        lemma_reads_add(links_text(init), before, text, seq![link(rbag, m as int)]);
        assert(commands =~= before + seq![link(rbag, m as int)]);
        assert(links_text(rbag) =~= links_text(init) + text);
    }
}

proof fn lemma_head_read(fid: nat)
    ensures
        reads(
            "fn ic_"@ + dec(fid) + "(a: u32, b: u32) -> bool {\n"@,
            seq![Command::Begin { fid: fid as int }],
        ),
{
    let d = dec(fid);
    let line = "fn ic_"@ + d + "(a: u32, b: u32) -> bool {"@;
    lemma_decimal(fid);
    reveal_strlit("fn ic_");
    reveal_strlit("(a: u32, b: u32) -> bool {");
    reveal_strlit("(a: u32, b: u32) -> bool {\n");
    assert("(a: u32, b: u32) -> bool {\n"@ =~= "(a: u32, b: u32) -> bool {"@ + seq!['\n']);
    assert("fn ic_"@ + d + "(a: u32, b: u32) -> bool {\n"@ =~= line + seq!['\n']);
    assert(says(line, Command::Begin { fid: fid as int })) by {
        assert(decimal_of(d, fid as int));
    }
    lemma_reads_line(line, Command::Begin { fid: fid as int });
}

proof fn lemma_guard_read()
    ensures
        reads("  if tag_of(b) == DUP { return interact_eras(a, b); }\n"@, seq![Command::Guard]),
{
    let line = "  if tag_of(b) == DUP { return interact_eras(a, b); }"@;
    reveal_strlit("  if tag_of(b) == DUP { return interact_eras(a, b); }");
    reveal_strlit("  if tag_of(b) == DUP { return interact_eras(a, b); }\n");
    assert("  if tag_of(b) == DUP { return interact_eras(a, b); }\n"@ =~= line + seq!['\n']);
    lemma_reads_line(line, Command::Guard);
}

proof fn lemma_room_read(nodes: nat, vars: nat)
    ensures
        reads(
            "  if !get_resources("@ + dec(nodes) + "u, "@ + dec(vars) + "u) { return false; }\n"@,
            seq![Command::Room { nodes: nodes as int, vars: vars as int }],
        ),
{
    let d = dec(nodes);
    let e = dec(vars);
    let command = Command::Room { nodes: nodes as int, vars: vars as int };
    let line = "  if !get_resources("@ + d + "u, "@ + e + "u) { return false; }"@;
    lemma_decimal(nodes);
    lemma_decimal(vars);
    reveal_strlit("  if !get_resources(");
    reveal_strlit("u, ");
    reveal_strlit("u) { return false; }");
    reveal_strlit("u) { return false; }\n");
    assert("u) { return false; }\n"@ =~= "u) { return false; }"@ + seq!['\n']);
    assert("  if !get_resources("@ + d + "u, "@ + e + "u) { return false; }\n"@ =~= line
        + seq!['\n']);
    assert(says(line, command)) by {
        assert(decimal_of(d, nodes as int) && decimal_of(e, vars as int));
    }
    lemma_reads_line(line, command);
}

proof fn lemma_last_read(root: u32)
    ensures
        reads(
            "  link("@ + port_text(root) + ", b);\n  return true;\n}\n\n"@,
            seq![
                Command::LinkRoot { port: root as int },
                Command::Return,
                Command::End,
                Command::Blank,
            ],
        ),
{
    let x = hex_upper(root as nat, 8);
    let nl = seq!['\n'];
    let line = "  link(adjust_port(0x"@ + x + "u), b);"@;
    let back = "  return true;"@;
    let end = "}"@;
    let blank = ""@;
    let command = Command::LinkRoot { port: root as int };
    lemma_word(root);
    reveal_strlit("  link(adjust_port(0x");
    reveal_strlit("  link(");
    reveal_strlit("adjust_port(0x");
    reveal_strlit("u)");
    reveal_strlit("u), b);");
    reveal_strlit("  return true;");
    reveal_strlit("}");
    reveal_strlit("");
    reveal_strlit(", b);\n  return true;\n}\n\n");
    assert(says(line, command)) by {
        assert(word_of(x, root as int));
    }
    lemma_reads_line(line, command);
    lemma_reads_line(back, Command::Return);
    lemma_reads_line(end, Command::End);
    lemma_reads_line(blank, Command::Blank);
    let a = line + nl;
    let b = a + (back + nl);
    let c = b + (end + nl);
    let d = c + (blank + nl);
    lemma_reads_add(a, seq![command], back + nl, seq![Command::Return]);
    lemma_reads_add(b, seq![command] + seq![Command::Return], end + nl, seq![Command::End]);
    lemma_reads_add(
        c,
        seq![command] + seq![Command::Return] + seq![Command::End],
        blank + nl,
        seq![Command::Blank],
    );
    assert(seq![command] + seq![Command::Return] + seq![Command::End] + seq![Command::Blank]
        =~= seq![command, Command::Return, Command::End, Command::Blank]);
    assert("  link(adjust_port(0x"@ =~= "  link("@ + "adjust_port(0x"@);
    assert("  link("@ + port_text(root) + ", b);\n  return true;\n}\n\n"@ =~= d);
}

proof fn lemma_def_read(fid: nat, def: Def)
    ensures
        reads(def_text(fid, def), def_commands(fid, def)),
{
    let head = "fn ic_"@ + dec(fid) + "(a: u32, b: u32) -> bool {\n"@;
    let begin = seq![Command::Begin { fid: fid as int }];
    let guard = if def.safe {
        "  if tag_of(b) == DUP { return interact_eras(a, b); }\n"@
    } else {
        Seq::empty()
    };
    let guards = if def.safe {
        seq![Command::Guard]
    } else {
        Seq::empty()
    };
    let nodes = def.node@.len();
    let vars = def.vars as nat;
    let room = "  if !get_resources("@ + dec(nodes) + "u, "@ + dec(vars)
        + "u) { return false; }\n"@;
    let rooms = seq![Command::Room { nodes: nodes as int, vars: vars as int }];
    let clears = Seq::new(vars, |i: int| Command::Clear { var: i });
    let stores = Seq::new(nodes, |i: int| store(def.node@, i));
    let links = Seq::new(def.rbag@.len(), |i: int| link(def.rbag@, i));
    let last = "  link("@ + port_text(def.root.0) + ", b);\n  return true;\n}\n\n"@;
    let lasts = seq![
        Command::LinkRoot { port: def.root.0 as int },
        Command::Return,
        Command::End,
        Command::Blank,
    ];
    lemma_head_read(fid);
    lemma_guard_read();
    lemma_reads_none();
    lemma_room_read(nodes, vars);
    lemma_vars_read(vars);
    lemma_nodes_read(def.node@);
    lemma_links_read(def.rbag@);
    lemma_last_read(def.root.0);
    lemma_reads_add(head, begin, guard, guards);
    let b = head + guard;
    let xb = begin + guards;
    lemma_reads_add(b, xb, room, rooms);
    let c = b + room;
    let xc = xb + rooms;
    lemma_reads_add(c, xc, vars_text(vars), clears);
    let d = c + vars_text(vars);
    let xd = xc + clears;
    lemma_reads_add(d, xd, nodes_text(def.node@), stores);
    let e = d + nodes_text(def.node@);
    let xe = xd + stores;
    lemma_reads_add(e, xe, links_text(def.rbag@), links);
    let f = e + links_text(def.rbag@);
    let xf = xe + links;
    lemma_reads_add(f, xf, last, lasts);
    lemma_six(
        b,
        "  if !get_resources("@,
        dec(nodes),
        "u, "@,
        dec(vars),
        "u) { return false; }\n"@,
    );
    lemma_three(f, "  link("@, port_text(def.root.0), ", b);\n  return true;\n}\n\n"@);
    assert(def_text(fid, def) == f + last);
    assert(stores =~= Seq::new(
        nodes,
        |i: int|
            Command::Store {
                node: i,
                fst: def.node@[i].0 as int % 0x1_0000_0000,
                snd: def.node@[i].0 as int / 0x1_0000_0000,
            },
    ));
    assert(links =~= Seq::new(
        def.rbag@.len(),
        |i: int|
            Command::Link {
                fst: def.rbag@[i].0 as int % 0x1_0000_0000,
                snd: def.rbag@[i].0 as int / 0x1_0000_0000,
            },
    ));
}

proof fn lemma_six(
    a: Seq<char>,
    b: Seq<char>,
    c: Seq<char>,
    d: Seq<char>,
    e: Seq<char>,
    f: Seq<char>,
)
    ensures
        a + b + c + d + e + f == a + (b + c + d + e + f),
{
    assert(a + b + c + d + e + f =~= a + (b + c + d + e + f));
}

proof fn lemma_three(a: Seq<char>, b: Seq<char>, c: Seq<char>, d: Seq<char>)
    ensures
        a + b + c + d == a + (b + c + d),
{
    assert(a + b + c + d =~= a + (b + c + d));
}

proof fn lemma_defs_read(defs: Seq<Def>)
    ensures
        reads(defs_text(defs), defs_commands(defs)),
    decreases defs.len(),
{
    if defs.len() == 0 {
        lemma_reads_none();
    } else {
        let init = defs.drop_last();
        let n = init.len();
        lemma_defs_read(init);
        lemma_def_read(n, defs.last());
        lemma_reads_add(
            defs_text(init),
            defs_commands(init),
            def_text(n, defs.last()),
            def_commands(n, defs.last()),
        );
    }
}

proof fn lemma_cases_read(n: nat)
    ensures
        reads(cases_text(n), Seq::new(n, |i: int| Command::Case { fid: i, callee: i })),
    decreases n,
{
    let commands = Seq::new(n, |i: int| Command::Case { fid: i, callee: i });
    if n == 0 {
        lemma_reads_none();
        assert(commands =~= Seq::empty());
    } else {
        let m = (n - 1) as nat;
        let d = dec(m);
        let line = "    case "@ + d + "u: { return ic_"@ + d + "(a, b); }"@;
        let command = Command::Case { fid: m as int, callee: m as int };
        lemma_cases_read(m);
        lemma_decimal(m);
        reveal_strlit("    case ");
        reveal_strlit("u: { return ic_");
        reveal_strlit("(a, b); }");
        reveal_strlit("(a, b); }\n");
        assert(says(line, command)) by {
            assert(decimal_of(d, m as int));
        }
        lemma_reads_line(line, command);
        assert("(a, b); }\n"@ =~= "(a, b); }"@ + seq!['\n']);
        assert(case_text(m) =~= line + seq!['\n']);
        let before = Seq::new(m, |i: int| Command::Case { fid: i, callee: i });
        lemma_reads_add(cases_text(m), before, case_text(m), seq![command]);
        assert(commands =~= before + seq![command]);
    }
}

proof fn lemma_fixed_lines()
    ensures
        reads("fn interact_call(a: u32, b: u32) -> bool {\n"@, seq![Command::BeginCall]),
        reads(
            "  if book[0] == 0u { atomicStore(&ctl[M_ERR], 1u); return false; }\n"@,
            seq![Command::TestBook],
        ),
        reads("  let fid = val_of(a) & 0x0FFFFFFFu;\n"@, seq![Command::TakeFid]),
        reads("  switch fid {\n"@, seq![Command::Switch]),
        reads(
            "    default: { atomicStore(&ctl[M_ERR], 1u); return false; }\n"@,
            seq![Command::Default],
        ),
        reads("  }\n}\n"@, seq![Command::EndSwitch, Command::End]),
{
    let nl = seq!['\n'];
    let a = "fn interact_call(a: u32, b: u32) -> bool {"@;
    let b = "  if book[0] == 0u { atomicStore(&ctl[M_ERR], 1u); return false; }"@;
    let c = "  let fid = val_of(a) & 0x0FFFFFFFu;"@;
    let d = "  switch fid {"@;
    let e = "    default: { atomicStore(&ctl[M_ERR], 1u); return false; }"@;
    let f = "  }"@;
    let g = "}"@;
    assert(lacks(a, '\n') && "fn interact_call(a: u32, b: u32) -> bool {\n"@ =~= a + nl) by {
        reveal_strlit("fn interact_call(a: u32, b: u32) -> bool {");
        reveal_strlit("fn interact_call(a: u32, b: u32) -> bool {\n");
    }
    assert(lacks(b, '\n')
        && "  if book[0] == 0u { atomicStore(&ctl[M_ERR], 1u); return false; }\n"@ =~= b + nl) by {
        reveal_strlit("  if book[0] == 0u { atomicStore(&ctl[M_ERR], 1u); return false; }");
        reveal_strlit("  if book[0] == 0u { atomicStore(&ctl[M_ERR], 1u); return false; }\n");
    }
    assert(lacks(c, '\n') && "  let fid = val_of(a) & 0x0FFFFFFFu;\n"@ =~= c + nl) by {
        reveal_strlit("  let fid = val_of(a) & 0x0FFFFFFFu;");
        reveal_strlit("  let fid = val_of(a) & 0x0FFFFFFFu;\n");
    }
    assert(lacks(d, '\n') && "  switch fid {\n"@ =~= d + nl) by {
        reveal_strlit("  switch fid {");
        reveal_strlit("  switch fid {\n");
    }
    assert(lacks(e, '\n') && "    default: { atomicStore(&ctl[M_ERR], 1u); return false; }\n"@ =~= e
        + nl) by {
        reveal_strlit("    default: { atomicStore(&ctl[M_ERR], 1u); return false; }");
        reveal_strlit("    default: { atomicStore(&ctl[M_ERR], 1u); return false; }\n");
    }
    assert(lacks(f, '\n') && lacks(g, '\n') && "  }\n}\n"@ =~= f + nl + (g + nl)) by {
        reveal_strlit("  }");
        reveal_strlit("}");
        reveal_strlit("  }\n}\n");
    }
    lemma_reads_line(a, Command::BeginCall);
    lemma_reads_line(b, Command::TestBook);
    lemma_reads_line(c, Command::TakeFid);
    lemma_reads_line(d, Command::Switch);
    lemma_reads_line(e, Command::Default);
    lemma_reads_line(f, Command::EndSwitch);
    lemma_reads_line(g, Command::End);
    lemma_reads_add(f + nl, seq![Command::EndSwitch], g + nl, seq![Command::End]);
    assert(seq![Command::EndSwitch] + seq![Command::End] =~= seq![Command::EndSwitch, Command::End]);
}

/// The functions of a book, read line by line, say what its definitions are, in
/// order, with every word of every node, redex and root, and take each number to the
/// function of its definition.
pub proof fn law_program_read(defs: Seq<Def>)
    ensures
        reads(interact_text(defs), book_commands(defs)),
{
    let t0 = "fn interact_call(a: u32, b: u32) -> bool {\n"@;
    let t1 = "  if book[0] == 0u { atomicStore(&ctl[M_ERR], 1u); return false; }\n"@;
    let t2 = "  let fid = val_of(a) & 0x0FFFFFFFu;\n"@;
    let t3 = "  switch fid {\n"@;
    let t4 = "    default: { atomicStore(&ctl[M_ERR], 1u); return false; }\n"@;
    let t5 = "  }\n}\n"@;
    let cases = Seq::new(defs.len(), |i: int| Command::Case { fid: i, callee: i });
    lemma_defs_read(defs);
    lemma_cases_read(defs.len());
    lemma_fixed_lines();
    let a = defs_text(defs);
    let xa = defs_commands(defs);
    lemma_reads_add(a, xa, t0, seq![Command::BeginCall]);
    let b = a + t0;
    let xb = xa + seq![Command::BeginCall];
    lemma_reads_add(b, xb, t1, seq![Command::TestBook]);
    let c = b + t1;
    let xc = xb + seq![Command::TestBook];
    lemma_reads_add(c, xc, t2, seq![Command::TakeFid]);
    let d = c + t2;
    let xd = xc + seq![Command::TakeFid];
    lemma_reads_add(d, xd, t3, seq![Command::Switch]);
    let e = d + t3;
    let xe = xd + seq![Command::Switch];
    lemma_reads_add(e, xe, cases_text(defs.len()), cases);
    let f = e + cases_text(defs.len());
    let xf = xe + cases;
    lemma_reads_add(f, xf, t4, seq![Command::Default]);
    let g = f + t4;
    let xg = xf + seq![Command::Default];
    lemma_reads_add(g, xg, t5, seq![Command::EndSwitch, Command::End]);
    assert(xg + seq![Command::EndSwitch, Command::End] =~= book_commands(defs));
}

/// Two numerals in base ten behind the same text, each before something that is no
/// digit, are the same.
proof fn lemma_same_numeral(
    line: Seq<char>,
    p: Seq<char>,
    d: Seq<char>,
    e: Seq<char>,
    q: Seq<char>,
    r: Seq<char>,
)
    requires
        line == p + d + q,
        line == p + e + r,
        is_numeral(d, 10),
        is_numeral(e, 10),
        q.len() > 0,
        r.len() > 0,
        digit_value(q[0]) < 0,
        digit_value(r[0]) < 0,
    ensures
        d == e,
        q == r,
{
    let m = d.len() as int;
    let n = e.len() as int;
    let k = p.len() as int;
    if m < n {
        assert(line[k + m] == q[0]);
        assert(line[k + m] == e[m]);
        assert(0 <= digit_value(e[m]) < 10);
    } else if n < m {
        assert(line[k + n] == r[0]);
        assert(line[k + n] == d[n]);
        assert(0 <= digit_value(d[n]) < 10);
    }
    assert(line.subrange(k, k + m) =~= d);
    assert(line.subrange(k, k + m) =~= e);
    assert(line.skip(k + m) =~= q);
    assert(line.skip(k + m) =~= r);
}

proof fn lemma_room_told(line: Seq<char>, n: int, v: int, n2: int, v2: int)
    requires
        asks_for(line, n, v),
        asks_for(line, n2, v2),
    ensures
        n == n2,
        v == v2,
{
    let p = "  if !get_resources("@;
    let k = "u, "@;
    let z = "u) { return false; }"@;
    reveal_strlit("u, ");
    reveal_strlit("u) { return false; }");
    let (d, e) = choose|d: Seq<char>, e: Seq<char>| #[trigger]
        decimal_of(d, n) && #[trigger] decimal_of(e, v) && line == p + d + k + e + z;
    let (d2, e2) = choose|d: Seq<char>, e: Seq<char>| #[trigger]
        decimal_of(d, n2) && #[trigger] decimal_of(e, v2) && line == p + d + k + e + z;
    assert(p + d + k + e + z =~= p + d + (k + e + z));
    assert(p + d2 + k + e2 + z =~= p + d2 + (k + e2 + z));
    lemma_same_numeral(line, p, d, d2, k + e + z, k + e2 + z);
    lemma_same_numeral(k + e + z, k, e, e2, z, z);
}

proof fn lemma_store_told(line: Seq<char>, i: int, f: int, s: int, f2: int, s2: int)
    requires
        stores(line, i, f, s),
        stores(line, i, f2, s2),
    ensures
        f == f2,
        s == s2,
{
    let p = "  node_store(nloc["@;
    let k = "u], vec2<u32>(adjust_port(0x"@;
    let m = "u), adjust_port(0x"@;
    let z = "u)));"@;
    reveal_strlit("u], vec2<u32>(adjust_port(0x");
    let (d, x, y) = choose|d: Seq<char>, x: Seq<char>, y: Seq<char>| #[trigger]
        decimal_of(d, i) && #[trigger] word_of(x, f) && #[trigger] word_of(y, s) && line == p + d + k
            + x + m + y + z;
    let (d2, x2, y2) = choose|d: Seq<char>, x: Seq<char>, y: Seq<char>| #[trigger]
        decimal_of(d, i) && #[trigger] word_of(x, f2) && #[trigger] word_of(y, s2) && line == p + d
            + k + x + m + y + z;
    assert(p + d + k + x + m + y + z =~= p + d + (k + x + m + y + z));
    assert(p + d2 + k + x2 + m + y2 + z =~= p + d2 + (k + x2 + m + y2 + z));
    lemma_same_numeral(line, p, d, d2, k + x + m + y + z, k + x2 + m + y2 + z);
    let q = k + x + m + y + z;
    assert(q.subrange(k.len() as int, k.len() as int + 8) =~= x);
    assert(q.subrange(k.len() as int, k.len() as int + 8) =~= x2);
    let at = k.len() + 8 + m.len();
    assert(q.subrange(at as int, at as int + 8) =~= y);
    assert(q.subrange(at as int, at as int + 8) =~= y2);
}

proof fn lemma_link_told(line: Seq<char>, f: int, s: int, f2: int, s2: int)
    requires
        links(line, f, s),
        links(line, f2, s2),
    ensures
        f == f2,
        s == s2,
{
    let k = "  link(adjust_port(0x"@;
    let m = "u), adjust_port(0x"@;
    let z = "u));"@;
    let (x, y) = choose|x: Seq<char>, y: Seq<char>| #[trigger]
        word_of(x, f) && #[trigger] word_of(y, s) && line == k + x + m + y + z;
    let (x2, y2) = choose|x: Seq<char>, y: Seq<char>| #[trigger]
        word_of(x, f2) && #[trigger] word_of(y, s2) && line == k + x + m + y + z;
    assert(line.subrange(k.len() as int, k.len() as int + 8) =~= x);
    assert(line.subrange(k.len() as int, k.len() as int + 8) =~= x2);
    let at = k.len() + 8 + m.len();
    assert(line.subrange(at as int, at as int + 8) =~= y);
    assert(line.subrange(at as int, at as int + 8) =~= y2);
}

proof fn lemma_root_told(line: Seq<char>, a: int, b: int)
    requires
        links_root(line, a),
        links_root(line, b),
    ensures
        a == b,
{
    let k = "  link(adjust_port(0x"@;
    let z = "u), b);"@;
    let x = choose|x: Seq<char>| #[trigger] word_of(x, a) && line == k + x + z;
    let y = choose|x: Seq<char>| #[trigger] word_of(x, b) && line == k + x + z;
    assert(line.subrange(k.len() as int, k.len() as int + 8) =~= x);
    assert(line.subrange(k.len() as int, k.len() as int + 8) =~= y);
}

proof fn lemma_guard_told(line: Seq<char>, n: int, v: int)
    requires
        says(line, Command::Guard),
    ensures
        !asks_for(line, n, v),
{
    reveal_strlit("  if tag_of(b) == DUP { return interact_eras(a, b); }");
    reveal_strlit("  if !get_resources(");
    if asks_for(line, n, v) {
        let (d, e) = choose|d: Seq<char>, e: Seq<char>| #[trigger]
            decimal_of(d, n) && #[trigger] decimal_of(e, v) && line == "  if !get_resources("@ + d
                + "u, "@ + e + "u) { return false; }"@;
        assert(line[5] == '!');
        assert(line[5] == 't');
    }
}

/// Where in the commands of a definition its parts stand.
proof fn lemma_commands_at(fid: nat, def: Def)
    ensures
        ({
            let c = def_commands(fid, def);
            let g = if def.safe {
                1int
            } else {
                0
            };
            let v = def.vars as int;
            let n = def.node@.len() as int;
            let r = def.rbag@.len() as int;
            &&& c.len() == 6 + g + v + n + r
            &&& def.safe ==> c[1] == Command::Guard
            &&& c[1 + g] == (Command::Room { nodes: n, vars: v })
            &&& forall|i: int| 0 <= i < n ==> #[trigger] c[2 + g + v + i] == store(def.node@, i)
            &&& forall|i: int|
                0 <= i < r ==> #[trigger] c[2 + g + v + n + i] == link(def.rbag@, i)
            &&& c[2 + g + v + n + r] == (Command::LinkRoot { port: def.root.0 as int })
        }),
{
}

/// Definitions whose functions are the same agree in everything but their names.
proof fn lemma_def_told(fid: nat, d: Def, e: Def)
    requires
        def_text(fid, d) == def_text(fid, e),
    ensures
        same_def(d, e),
{
    let text = def_text(fid, d);
    let lines = split(text, '\n');
    let x = def_commands(fid, d);
    let y = def_commands(fid, e);
    lemma_def_read(fid, d);
    lemma_def_read(fid, e);
    lemma_commands_at(fid, d);
    lemma_commands_at(fid, e);
    assert(says(lines[1], x[1]) && says(lines[1], y[1]));
    if d.safe != e.safe {
        if d.safe {
            lemma_guard_told(lines[1], e.node@.len() as int, e.vars as int);
        } else {
            lemma_guard_told(lines[1], d.node@.len() as int, d.vars as int);
        }
    }
    let g = if d.safe {
        1int
    } else {
        0
    };
    assert(says(lines[1 + g], x[1 + g]) && says(lines[1 + g], y[1 + g]));
    lemma_room_told(
        lines[1 + g],
        d.node@.len() as int,
        d.vars as int,
        e.node@.len() as int,
        e.vars as int,
    );
    let v = d.vars as int;
    let n = d.node@.len() as int;
    let r = d.rbag@.len() as int;
    assert(e.rbag@.len() == r);
    assert forall|i: int| 0 <= i < n implies d.node@[i] == e.node@[i] by {
        let k = 2 + g + v + i;
        assert(x[2 + g + v + i] == store(d.node@, i));
        assert(y[2 + g + v + i] == store(e.node@, i));
        assert(says(lines[k], x[k]) && says(lines[k], y[k]));
        lemma_store_told(
            lines[k],
            i,
            d.node@[i].0 as int % 0x1_0000_0000,
            d.node@[i].0 as int / 0x1_0000_0000,
            e.node@[i].0 as int % 0x1_0000_0000,
            e.node@[i].0 as int / 0x1_0000_0000,
        );
    }
    assert forall|i: int| 0 <= i < r implies d.rbag@[i] == e.rbag@[i] by {
        let k = 2 + g + v + n + i;
        assert(x[2 + g + v + n + i] == link(d.rbag@, i));
        assert(y[2 + g + v + n + i] == link(e.rbag@, i));
        assert(says(lines[k], x[k]) && says(lines[k], y[k]));
        lemma_link_told(
            lines[k],
            d.rbag@[i].0 as int % 0x1_0000_0000,
            d.rbag@[i].0 as int / 0x1_0000_0000,
            e.rbag@[i].0 as int % 0x1_0000_0000,
            e.rbag@[i].0 as int / 0x1_0000_0000,
        );
    }
    let k = 2 + g + v + n + r;
    assert(says(lines[k], x[k]) && says(lines[k], y[k]));
    lemma_root_told(lines[k], d.root.0 as int, e.root.0 as int);
    assert(d.node@ =~= e.node@);
    assert(d.rbag@ =~= e.rbag@);
}

/// Books have the same device program exactly where they agree in everything but
/// the names of their definitions: a program tells every word of every definition.
pub proof fn law_programs_tell_books(a: Seq<Def>, b: Seq<Def>)
    ensures
        interact_text(a) == interact_text(b) <==> same_but_names(a, b),
{
    if same_but_names(a, b) {
        crate::wgsl_laws::law_names_not_compiled(a, b);
    }
    if interact_text(a) == interact_text(b) {
        crate::wgsl_laws::lemma_same_count(a, b);
        assert forall|i: int| 0 <= i < a.len() implies same_def(#[trigger] a[i], b[i]) by {
            crate::wgsl_laws::lemma_same_function(a, b, i);
            lemma_def_told(i as nat, a[i], b[i]);
        }
    }
}

} // verus!
