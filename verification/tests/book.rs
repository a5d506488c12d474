use hvm::boot::{can_load, load_book};
use hvm::hvm::{Book, Def, Numb, Pair, Port, CON, ERA, NUM, REF, VAR};
use hvm::pack::{can_pack, pack_book, packed_len, unpack_book};
use hvm::wgsl::{compile_interact_wgsl, fits_template, plain_node_access, shader_for_book};

fn def(name: &str, safe: bool, root: Port, rbag: Vec<Pair>, node: Vec<Pair>, vars: usize) -> Def {
    Def { name: name.to_string(), safe, root, rbag, node, vars }
}

fn sample() -> Book {
    Book {
        defs: vec![
            def(
                "main",
                false,
                Port::new(VAR, 0),
                vec![Pair::new(Port::new(REF, 1), Port::new(CON, 0))],
                vec![Pair::new(Port(0x1234_5678), Port::new(VAR, 0))],
                1,
            ),
            def("id", true, Port::new(ERA, 0), vec![], vec![], 0),
        ],
    }
}

fn sample_words() -> Vec<u32> {
    vec![
        2,
        0, 1, 1, 1, 0, 17, 19, 0,
        1, 0, 0, 0, 2, 21, 21, 0,
        9, 4,
        0x1234_5678, 0,
    ]
}

#[test]
fn ports_and_pairs() {
    for (tag, val) in [(VAR, 0), (CON, 5), (NUM, 0x1FFF_FFFF)] {
        let port = Port::new(tag, val);
        assert_eq!(port.0, val * 8 + tag as u32);
        assert_eq!(port.get_tag(), tag);
        assert_eq!(port.get_val(), val);
    }
    let pair = Pair::new(Port(0xAAAA_BBBB), Port(0xCCCC_DDDD));
    assert_eq!(pair.0, 0xCCCC_DDDD_AAAA_BBBB);
    assert_eq!(pair.get_fst(), Port(0xAAAA_BBBB));
    assert_eq!(pair.get_snd(), Port(0xCCCC_DDDD));
}

#[test]
fn parts_of_a_number() {
    let n = Numb((0xFF_FFFE << 5) | 0x02);
    assert_eq!(n.get_typ(), 2);
    assert_eq!(n.get_u24(), 0xFF_FFFE);
    assert_eq!(n.get_i24(), -2);
    assert_eq!(n.get_sym(), 0xFE);
    assert_eq!(Numb((0x3F_C000 << 5) | 3).get_f24_bits(), 1.5f32.to_bits());
}

#[test]
fn names_by_index() {
    let book = sample();
    assert_eq!(book.main_id(), Some(0));
    let fids = book.fids();
    assert_eq!(fids.len(), 2);
    assert_eq!(fids.get(&1), Some(&"id".to_string()));
    assert_eq!(Book { defs: Vec::new() }.main_id(), None);
}

#[test]
fn words_of_a_book() {
    assert_eq!(packed_len(&sample()), Some(21));
    assert_eq!(pack_book(&sample()), Ok(sample_words()));
}

#[test]
fn words_of_an_empty_definition() {
    let book = Book { defs: vec![def("main", false, Port(2), vec![], vec![], 0)] };
    assert_eq!(pack_book(&book), Ok(vec![1, 0, 0, 0, 0, 2, 9, 9, 0]));
}

#[test]
fn books_that_cannot_be_packed() {
    assert_eq!(pack_book(&Book { defs: Vec::new() }), Err("empty book".to_string()));
    let wide = Book { defs: vec![def("w", false, Port(0), vec![], vec![], 1025)] };
    assert_eq!(
        pack_book(&wide),
        Err("def 'w' too large for wgpu v1 (nodes=0, vars=1025, max=1024)".to_string()),
    );
    let mut long = sample();
    long.defs.push(def("long", false, Port(0), vec![], vec![Pair(0); 1025], 3));
    long.defs.push(def("w", false, Port(0), vec![], vec![], 9999));
    assert_eq!(
        pack_book(&long),
        Err("def 'long' too large for wgpu v1 (nodes=1025, vars=3, max=1024)".to_string()),
    );
    let fits = Book { defs: vec![def("f", false, Port(0), vec![], vec![Pair(0); 1024], 1024)] };
    assert_eq!(pack_book(&fits).unwrap().len(), 9 + 2048);
}

#[test]
fn books_that_can_be_packed() {
    assert!(can_pack(&sample()) && can_load(&sample()));
    assert!(can_pack(&Book { defs: Vec::new() }));
    let wide = Book { defs: vec![def("w", false, Port(0), vec![], vec![], 1025)] };
    assert!(can_pack(&wide) && can_load(&wide));
}

#[test]
fn loading_a_book() {
    assert_eq!(load_book(&sample()), Ok((0, sample_words())));
    let mut book = sample();
    book.defs.swap(0, 1);
    assert_eq!(load_book(&book).unwrap().0, 1);
    book.defs.pop();
    assert_eq!(load_book(&book), Err("missing @main".to_string()));
    book.defs.push(def("main", false, Port(0), vec![], vec![], 2000));
    assert_eq!(
        load_book(&book),
        Err("def 'main' too large for wgpu v1 (nodes=0, vars=2000, max=1024)".to_string()),
    );
}

#[test]
fn packing_and_unpacking() {
    let names = vec!["main".to_string(), "id".to_string()];
    let book = unpack_book(&sample_words(), &names).unwrap();
    assert_eq!(book.defs.len(), 2);
    assert_eq!(book.defs[0].name, "main");
    assert_eq!(book.defs[0].safe, false);
    assert_eq!(book.defs[0].root, Port::new(VAR, 0));
    assert_eq!(book.defs[0].rbag, vec![Pair::new(Port::new(REF, 1), Port::new(CON, 0))]);
    assert_eq!(book.defs[0].node, vec![Pair::new(Port(0x1234_5678), Port::new(VAR, 0))]);
    assert_eq!(book.defs[0].vars, 1);
    assert_eq!(book.defs[1].name, "id");
    assert_eq!(book.defs[1].safe, true);
    assert_eq!(pack_book(&book), Ok(sample_words()));
}

#[test]
fn words_that_are_no_book() {
    let names = vec!["main".to_string(), "id".to_string()];
    assert!(unpack_book(&Vec::new(), &Vec::new()).is_none());
    assert!(unpack_book(&sample_words(), &names[..1].to_vec()).is_none());
    assert!(unpack_book(&sample_words()[..16].to_vec(), &names).is_none());
    assert!(unpack_book(&sample_words()[..20].to_vec(), &names).is_none());
    let mut words = sample_words();
    words[6] = u32::MAX;
    assert!(unpack_book(&words, &names).is_none());
}

fn sample_functions() -> String {
    "fn ic_0(a: u32, b: u32) -> bool {
  if !get_resources(1u, 1u) { return false; }
  vst(vloc[0u], NONE);
  node_store(nloc[0u], vec2<u32>(adjust_port(0x12345678u), adjust_port(0x00000000u)));
  link(adjust_port(0x00000009u), adjust_port(0x00000004u));
  link(adjust_port(0x00000000u), b);
  return true;
}

fn ic_1(a: u32, b: u32) -> bool {
  if tag_of(b) == DUP { return interact_eras(a, b); }
  if !get_resources(0u, 0u) { return false; }
  link(adjust_port(0x00000002u), b);
  return true;
}

fn interact_call(a: u32, b: u32) -> bool {
  if book[0] == 0u { atomicStore(&ctl[M_ERR], 1u); return false; }
  let fid = val_of(a) & 0x0FFFFFFFu;
  switch fid {
    case 0u: { return ic_0(a, b); }
    case 1u: { return ic_1(a, b); }
    default: { atomicStore(&ctl[M_ERR], 1u); return false; }
  }
}
"
    .to_string()
}

const HEAD: &str = "var<storage, read_write> node: array<atomic<u64>>;
var<storage, read_write> vars: array<atomic<u32>>;
// NODE_ACCESS_START
fn nld(i: u32) -> u64 { return atomicLoad(&node[i]); }
// NODE_ACCESS_END — é
";

const TAIL: &str = "fn interact_one(a: u32) -> bool { return interact_call(a, a); }
";

fn template() -> String {
    format!("{HEAD}fn interact_call(a: u32, b: u32) -> bool {{ return false; }}\n{TAIL}")
}

#[test]
fn functions_of_a_book() {
    assert_eq!(compile_interact_wgsl(&sample()), sample_functions());
}

#[test]
fn program_for_many_lanes() {
    let template = template();
    assert!(fits_template(&template, &sample(), 8));
    assert_eq!(
        shader_for_book(&template, &sample(), 8),
        format!("{HEAD}{}\n{TAIL}", sample_functions()),
    );
}

#[test]
fn program_for_one_lane() {
    let template = template();
    assert!(fits_template(&template, &sample(), 1));
    let access = plain_node_access();
    let head = format!(
        "var<storage, read_write> node: array<u64>;
var<storage, read_write> vars: array<u32>;
{access} — é
",
    );
    for lanes in [0, 1] {
        assert_eq!(
            shader_for_book(&template, &sample(), lanes),
            format!("{head}{}\n{TAIL}", sample_functions()),
        );
    }
}

#[test]
fn plain_access_functions() {
    assert_eq!(
        plain_node_access(),
        "// NODE_ACCESS_START — replaced by a non-atomic copy when nthreads==1
fn nld(i: u32) -> u64 { return node[i]; }
fn nst(i: u32, v: u64) { node[i] = v; }
fn nxchg(i: u32, v: u64) -> u64 { let t = node[i]; node[i] = v; return t; }
fn ncas0(i: u32) -> bool {
  if node[i] != u64(0) { return false; }
  node[i] = u64(1);
  return true;
}
fn vld(i: u32) -> u32 { return vars[i]; }
fn vst(i: u32, v: u32) { vars[i] = v; }
fn vxchg(i: u32, v: u32) -> u32 { let t = vars[i]; vars[i] = v; return t; }
fn vcas(i: u32, exp: u32, v: u32) -> bool {
  if vars[i] != exp { return false; }
  vars[i] = v;
  return true;
}
// NODE_ACCESS_END",
    );
}

#[test]
fn every_definition_once() {
    let mut book = sample();
    for i in 2..12 {
        book.defs.push(def(&format!("d{i}"), i % 2 == 0, Port(2), vec![], vec![], i));
    }
    let text = compile_interact_wgsl(&book);
    for fid in 0..14 {
        let once = if fid < 12 { 1 } else { 0 };
        assert_eq!(text.matches(&format!("fn ic_{fid}(")).count(), once);
        assert_eq!(text.matches(&format!("case {fid}u:")).count(), once);
        assert_eq!(text.matches(&format!("    case {fid}u: {{ return ic_{fid}(a, b); }}\n")).count(), once);
    }
}

#[test]
fn lines_of_a_function() {
    let text = compile_interact_wgsl(&sample());
    let function = text.split("\n\n").next().unwrap();
    assert_eq!(function.matches("  vst(vloc[").count(), 1);
    assert_eq!(function.matches("  node_store(").count(), 1);
    assert_eq!(function.matches("  link(").count(), 2);
    assert_eq!(function.matches("interact_eras").count(), 0);
}

#[test]
fn names_have_no_influence() {
    let mut renamed = sample();
    renamed.defs[1].name = "identity".to_string();
    assert_eq!(compile_interact_wgsl(&renamed), compile_interact_wgsl(&sample()));
    assert_eq!(pack_book(&renamed), pack_book(&sample()));
    let mut changed = sample();
    changed.defs[1].vars = 1;
    assert_ne!(pack_book(&changed), pack_book(&sample()));
}

#[test]
fn one_lane_needs_no_atomics() {
    let template = template();
    let single = shader_for_book(&template, &sample(), 1);
    assert!(!single.contains("array<atomic<u64>>"));
    assert!(!single.contains("array<atomic<u32>>"));
    assert!(single.contains(&plain_node_access()));
    assert!(single.contains(&sample_functions()));
    assert_eq!(shader_for_book(&template, &sample(), 2), shader_for_book(&template, &sample(), 64));
}

#[test]
fn texts_that_are_no_template() {
    let book = sample();
    assert!(!fits_template("", &book, 8));
    assert!(!fits_template("fn interact_call(a: u32, b: u32)", &book, 8));
    let bare = "fn interact_call(a: u32, b: u32) fn interact_one(";
    assert!(fits_template(bare, &book, 8));
    assert!(!fits_template(bare, &book, 1));
    let crossed = format!("// NODE_ACCESS_END{}// NODE_ACCESS_START{bare}", " ".repeat(30));
    assert!(!fits_template(&crossed, &book, 1));
}
