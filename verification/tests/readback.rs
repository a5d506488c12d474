use std::collections::BTreeMap;

use hvm::hvm::{Book, Def, Pair, Port, CON, DUP, ERA, NONE, NUM, OPR, REF, ROOT, SWI, VAR};
use hvm::hvm::{FP_DIV, FP_REM, FP_SHL, FP_SHR, FP_SUB, OP_ADD, OP_AND, OP_DIV, OP_EQ, OP_GT, OP_LT, OP_MUL};
use hvm::hvm::{OP_NEQ, OP_OR, OP_REM, OP_SHL, OP_SHR, OP_SUB, OP_XOR, TY_F24, TY_I24, TY_SYM, TY_U24};
use hvm::net::{remap_port, GNet};
use hvm::readback::{device_result, result_line, Net, Numb, Tree};

fn float(bits: u32) -> String {
    format!("{:?}", f32::from_bits(bits))
}

fn numb(typ: u8, val: u32) -> Numb {
    Numb((val << 5) | typ as u32)
}

fn f24(x: f32) -> Numb {
    numb(TY_F24, x.to_bits() >> 8)
}

fn num(typ: u8, val: u32) -> Port {
    Port::new(NUM, numb(typ, val).0)
}

fn names(of: &[&str]) -> BTreeMap<u32, String> {
    of.iter().enumerate().map(|(i, n)| (i as u32, n.to_string())).collect()
}

fn book(of: &[&str]) -> Book {
    let defs = of
        .iter()
        .map(|n| Def {
            name: n.to_string(),
            safe: true,
            root: Port(0),
            rbag: Vec::new(),
            node: Vec::new(),
            vars: 0,
        })
        .collect();
    Book { defs }
}

fn var(nam: &str) -> Box<Tree> {
    Box::new(Tree::Var { nam: nam.to_string() })
}

#[test]
fn unsigned_numbers() {
    assert_eq!(numb(TY_U24, 0).show(&float), "0");
    assert_eq!(numb(TY_U24, 28).show(&float), "28");
    assert_eq!(numb(TY_U24, 0xFF_FFFF).show(&float), "16777215");
}

#[test]
fn signed_numbers() {
    assert_eq!(numb(TY_I24, 0).show(&float), "+0");
    assert_eq!(numb(TY_I24, 5).show(&float), "+5");
    assert_eq!(numb(TY_I24, 0xFF_FFFF).show(&float), "-1");
    assert_eq!(numb(TY_I24, 0x7F_FFFF).show(&float), "+8388607");
    assert_eq!(numb(TY_I24, 0x80_0000).show(&float), "-8388608");
}

#[test]
fn float_numbers() {
    assert_eq!(f24(1.5).show(&float), "1.5");
    assert_eq!(f24(-0.0).show(&float), "-0.0");
    assert_eq!(f24(100.0).show(&float), "100.0");
    assert_eq!(f24(f32::INFINITY).show(&float), "+inf");
    assert_eq!(f24(f32::NEG_INFINITY).show(&float), "-inf");
    assert_eq!(f24(f32::NAN).show(&float), "+NaN");
    assert_eq!(numb(TY_F24, 0xFF_C000).show(&float), "+NaN");
}

#[test]
fn operation_signs() {
    let signs = [
        (OP_ADD, "+"),
        (OP_SUB, "-"),
        (FP_SUB, ":-"),
        (OP_MUL, "*"),
        (OP_DIV, "/"),
        (FP_DIV, ":/"),
        (OP_REM, "%"),
        (FP_REM, ":%"),
        (OP_EQ, "="),
        (OP_NEQ, "!"),
        (OP_LT, "<"),
        (OP_GT, ">"),
        (OP_AND, "&"),
        (OP_OR, "|"),
        (OP_XOR, "^"),
        (OP_SHL, "<<"),
        (FP_SHL, ":<<"),
        (OP_SHR, ">>"),
        (FP_SHR, ":>>"),
        (0x17, "?"),
        (0x1F, "?"),
    ];
    for (op, sign) in signs {
        assert_eq!(numb(TY_SYM, op as u32).show(&float), format!("[{sign}]"));
        assert_eq!(numb(op, 0x2A).show(&float), format!("[{sign}0x000002A]"));
    }
    assert_eq!(numb(TY_SYM, TY_U24 as u32).show(&float), "[u24]");
    assert_eq!(numb(TY_SYM, TY_I24 as u32).show(&float), "[i24]");
    assert_eq!(numb(TY_SYM, TY_F24 as u32).show(&float), "[f24]");
    assert_eq!(numb(TY_SYM, 0).show(&float), "[?]");
    assert_eq!(Numb(0xFFFF_FFE4).show(&float), "[+0x7FFFFFF]");
}

#[test]
fn trees_as_text() {
    let num = || Box::new(Tree::Num { val: numb(TY_U24, 7) });
    let era = || Box::new(Tree::Era);
    assert_eq!(Tree::Era.show(&float), "*");
    assert_eq!(Tree::Ref { nam: "main".to_string() }.show(&float), "@main");
    assert_eq!(Tree::Con { fst: var("va"), snd: num() }.show(&float), "(va 7)");
    assert_eq!(Tree::Dup { fst: var("vb"), snd: era() }.show(&float), "{vb *}");
    assert_eq!(Tree::Opr { fst: num(), snd: era() }.show(&float), "$(7 *)");
    assert_eq!(Tree::Swi { fst: num(), snd: era() }.show(&float), "?(7 *)");
    let inner = Box::new(Tree::Con { fst: Box::new(Tree::Num { val: f24(0.5) }), snd: era() });
    let tree = Tree::Dup { fst: inner, snd: Box::new(Tree::Num { val: f24(-2.0) }) };
    assert_eq!(tree.show(&float), "{(0.5 *) -2.0}");
    assert_eq!(tree.clone(), tree);
    assert_eq!(Net { root: tree, rbag: Vec::new() }.show(&float), "{(0.5 *) -2.0}");
}

#[test]
fn reading_back_leaves() {
    let net = GNet::new(4, 4);
    let fids = names(&["main", "sum"]);
    let read = |p: Port| Tree::readback(&net, p, &fids);
    assert_eq!(read(Port::new(REF, 1)), Some(Tree::Ref { nam: "sum".to_string() }));
    assert_eq!(read(Port::new(REF, 2)), None);
    assert_eq!(read(Port::new(ERA, 0)), Some(Tree::Era));
    assert_eq!(read(num(TY_U24, 9)), Some(Tree::Num { val: numb(TY_U24, 9) }));
    assert_eq!(read(Port::new(VAR, 3)), Some(*var("v3")));
}

#[test]
fn reading_back_nodes() {
    let mut net = GNet::new(8, 32);
    let fids = names(&["main"]);
    net.node_create(1, Pair::new(Port::new(VAR, 1), Port::new(DUP, 2)));
    net.node_create(2, Pair::new(Port::new(OPR, 3), Port::new(SWI, 4)));
    net.node_create(3, Pair::new(num(TY_SYM, OP_ADD as u32), Port::new(VAR, 31)));
    net.node_create(4, Pair::new(Port::new(ERA, 0), Port::new(REF, 0)));
    net.vars_create(1, Port::new(VAR, 2));
    net.vars_create(2, num(TY_I24, 3));
    net.vars_create(31, Port(NONE));
    let tree = Tree::readback(&net, Port::new(CON, 1), &fids).unwrap();
    assert_eq!(tree.show(&float), "(+3 {$([+] v1f) ?(* @main)})");
    net.node_create(4, Pair::new(Port::new(REF, 9), Port::new(REF, 0)));
    assert_eq!(Tree::readback(&net, Port::new(CON, 1), &fids), None);
}

#[test]
fn substitutions_are_followed() {
    let mut net = GNet::new(1, 4);
    net.vars_create(0, Port::new(VAR, 1));
    net.vars_create(1, Port::new(VAR, 2));
    net.vars_create(2, Port(NONE));
    assert_eq!(net.enter(Port::new(VAR, 0)), Port::new(VAR, 2));
    assert_eq!(net.enter(Port::new(VAR, 3)), Port::new(VAR, 3));
    assert_eq!(net.enter(Port::new(CON, 77)), Port::new(CON, 77));
    assert_eq!(net.enter(net.enter(Port::new(VAR, 0))), Port::new(VAR, 2));
    assert_eq!(net.try_enter(Port::new(VAR, 0)), Some(Port::new(VAR, 2)));
    assert_eq!(net.try_enter(Port::new(VAR, 4)), None);
    net.vars_create(2, Port::new(VAR, 1));
    assert_eq!(net.try_enter(Port::new(VAR, 0)), None);
}

#[test]
fn walks_without_an_end() {
    let mut net = GNet::new(4, 2);
    let fids = names(&[]);
    net.node_create(0, Pair::new(Port::new(CON, 0), Port::new(ERA, 0)));
    assert_eq!(Tree::try_readback(&net, Port::new(CON, 0), &fids), None);
    assert_eq!(Tree::try_readback(&net, Port::new(CON, 4), &fids), None);
    assert_eq!(Tree::try_readback(&net, Port::new(VAR, 2), &fids), None);
    assert_eq!(Tree::try_readback(&net, Port::new(REF, 0), &fids), Some(None));
    assert_eq!(Tree::try_readback(&net, Port::new(ERA, 0), &fids), Some(Some(Tree::Era)));
    net.node_create(0, Pair::new(Port::new(REF, 0), Port::new(CON, 0)));
    assert_eq!(Tree::try_readback(&net, Port::new(CON, 0), &fids), Some(None));
}

#[test]
fn reading_back_a_deep_chain() {
    let n: u32 = 1000;
    let mut net = GNet::new(n as usize, 1);
    for i in 0..n {
        let next = if i + 1 < n { Port::new(CON, i + 1) } else { Port::new(ERA, 0) };
        net.node_create(i as usize, Pair::new(Port::new(ERA, 0), next));
    }
    let text = Tree::readback(&net, Port::new(CON, 0), &names(&[])).unwrap().show(&float);
    assert_eq!(text, format!("{}*{}", "(* ".repeat(1000), ")".repeat(1000)));
}

#[test]
fn reading_back_a_net() {
    let mut net = GNet { node: Vec::new(), vars: vec![Port(0); 0x2000_0000] };
    let root = Port(ROOT);
    net.vars_create(root.get_val() as usize, num(TY_U24, 42));
    let got = Net::readback(&net, &book(&["main"])).unwrap();
    assert_eq!(got.root, Tree::Num { val: numb(TY_U24, 42) });
    assert!(got.rbag.is_empty());
    net.vars_create(root.get_val() as usize, Port::new(REF, 5));
    assert_eq!(Net::readback(&net, &book(&["main"])), None);
}

#[test]
fn device_words_as_the_host_reads_them() {
    assert_eq!(remap_port(ROOT, 16), 0);
    assert_eq!(remap_port(15 * 8, 16), 15 * 8);
    assert_eq!(remap_port(16 * 8, 16), 0);
    assert_eq!(remap_port(16 * 8 + 4, 16), 16 * 8 + 4);
    assert_eq!(remap_port(NONE, 16), NONE);
}

#[test]
fn a_net_from_the_device() {
    let nodes = vec![0, 0, 8 + 4, ROOT, 2, 64, 0, 0];
    let vars = vec![12, 0, NONE, 8];
    let net = GNet::from_device(&nodes, &vars, 4);
    assert_eq!(net.node, vec![
        Pair(0),
        Pair::new(Port(12), Port(0)),
        Pair::new(Port(2), Port(0)),
        Pair(0),
    ]);
    assert_eq!(net.vars, vec![Port(12), Port(0), Port(NONE), Port(8)]);
}

#[test]
fn result_lines() {
    let book = book(&["main"]);
    let net = GNet::from_device(
        &vec![0, 0, num(TY_U24, 1).0, num(TY_F24, 1.5f32.to_bits() >> 8).0],
        &vec![12, 0],
        2,
    );
    let line = |root: Port| result_line(&net, root, &book, &float);
    assert_eq!(line(Port(12)), Some("Result: (1 1.5)".to_string()));
    assert_eq!(line(Port(0)), Some("Readback failed (empty root).".to_string()));
    assert_eq!(line(Port(NONE)), Some("Readback failed (empty root).".to_string()));
    assert_eq!(line(Port::new(REF, 0)), Some("Result: @main".to_string()));
    assert_eq!(line(Port::new(REF, 1)), Some("Readback failed.".to_string()));
    assert_eq!(line(Port::new(CON, 2)), None);
    assert_eq!(line(Port::new(VAR, 1)), Some("Result: v1".to_string()));
}

#[test]
fn results_of_the_device() {
    let book = book(&["main"]);
    let nodes = vec![0, 0, num(TY_U24, 1).0, ROOT];
    let line = |first: u32| device_result(&nodes, &vec![first, 0], 2, &book, &float);
    assert_eq!(line(num(TY_I24, 5).0), Some("Result: +5".to_string()));
    assert_eq!(line(NONE), Some("Readback failed (empty root).".to_string()));
    assert_eq!(line(ROOT), Some("Readback failed (empty root).".to_string()));
    assert_eq!(line(16), Some("Readback failed (empty root).".to_string()));
    assert_eq!(line(Port::new(REF, 3).0), Some("Readback failed.".to_string()));
    assert_eq!(line(Port::new(CON, 5).0), None);
    let tied = device_result(&vec![0, 0, 8, 8], &vec![12, num(TY_U24, 2).0], 2, &book, &float);
    assert_eq!(tied, Some("Result: (2 2)".to_string()));
}

#[test]
fn texts_tell_the_type() {
    assert_eq!(numb(TY_U24, 3).show(&float), "3");
    assert_eq!(numb(TY_I24, 3).show(&float), "+3");
    assert_eq!(f24(3.0).show(&float), "3.0");
}

#[test]
fn redexes_are_not_shown() {
    let bare = Net { root: Tree::Era, rbag: Vec::new() };
    let busy = Net { root: Tree::Era, rbag: vec![(true, Tree::Era, *var("va"))] };
    assert_eq!(bare.show(&float), busy.show(&float));
    assert_eq!(busy.show(&float), busy.root.show(&float));
}
