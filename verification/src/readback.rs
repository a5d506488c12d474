//! Reading a net back as a tree, and the text of trees.
use std::collections::BTreeMap;
use vstd::prelude::*;
use crate::hvm;
use crate::hvm::{CON, DUP, ERA, NUM, OPR, REF, VAR};
use crate::net::{device_net, remap_port, remapped, GNet, NetModel};
use crate::text::{dec, hex, hex_upper, is_digit, lemma_dec_digits, plus_dec, push_dec, push_hex, push_hex_upper};

verus! {

/// A number of a tree, as a port holds it.
#[derive(Clone, Copy, Hash, PartialEq, Eq, Debug)]
pub struct Numb(pub u32);

/// A tree of an interaction net.
#[derive(Hash, PartialEq, Eq, Debug)]
pub enum Tree {
    Var { nam: String },
    Ref { nam: String },
    Era,
    Num { val: Numb },
    Con { fst: Box<Tree>, snd: Box<Tree> },
    Dup { fst: Box<Tree>, snd: Box<Tree> },
    Opr { fst: Box<Tree>, snd: Box<Tree> },
    Swi { fst: Box<Tree>, snd: Box<Tree> },
}

pub type Redex = (bool, Tree, Tree);

/// A net: its root and its redexes.
#[derive(Clone, Hash, PartialEq, Eq, Debug)]
pub struct Net {
    pub root: Tree,
    pub rbag: Vec<Redex>,
}

/// What a tree holds, with names as sequences of characters.
pub enum TreeModel {
    Var { nam: Seq<char> },
    Ref { nam: Seq<char> },
    Era,
    Num { val: u32 },
    Con { fst: Box<TreeModel>, snd: Box<TreeModel> },
    Dup { fst: Box<TreeModel>, snd: Box<TreeModel> },
    Opr { fst: Box<TreeModel>, snd: Box<TreeModel> },
    Swi { fst: Box<TreeModel>, snd: Box<TreeModel> },
}

/// The sign of an operation; a question mark where the code is none.
pub open spec fn op_text(op: nat) -> Seq<char> {
    if op == hvm::OP_ADD {
        "+"@
    } else if op == hvm::OP_SUB {
        "-"@
    } else if op == hvm::FP_SUB {
        ":-"@
    } else if op == hvm::OP_MUL {
        "*"@
    } else if op == hvm::OP_DIV {
        "/"@
    } else if op == hvm::FP_DIV {
        ":/"@
    } else if op == hvm::OP_REM {
        "%"@
    } else if op == hvm::FP_REM {
        ":%"@
    } else if op == hvm::OP_EQ {
        "="@
    } else if op == hvm::OP_NEQ {
        "!"@
    } else if op == hvm::OP_LT {
        "<"@
    } else if op == hvm::OP_GT {
        ">"@
    } else if op == hvm::OP_AND {
        "&"@
    } else if op == hvm::OP_OR {
        "|"@
    } else if op == hvm::OP_XOR {
        "^"@
    } else if op == hvm::OP_SHL {
        "<<"@
    } else if op == hvm::FP_SHL {
        ":<<"@
    } else if op == hvm::OP_SHR {
        ">>"@
    } else if op == hvm::FP_SHR {
        ":>>"@
    } else {
        "?"@
    }
}

/// The name of a symbol: of a number type or of an operation.
pub open spec fn sym_text(sym: nat) -> Seq<char> {
    if sym == hvm::TY_U24 {
        "u24"@
    } else if sym == hvm::TY_I24 {
        "i24"@
    } else if sym == hvm::TY_F24 {
        "f24"@
    } else {
        op_text(sym)
    }
}

/// The binary32 number with these bits is not finite: its exponent is all ones.
pub open spec fn not_finite(bits: u32) -> bool {
    bits / 0x80_0000 % 256 == 255
}

/// The finite binary32 number that `n` holds, given by its bits; nothing where
/// it holds none.
pub open spec fn numb_floats(n: hvm::Numb) -> Seq<u32> {
    if n.typ() == hvm::TY_F24 && !not_finite(n.f24_bits()) {
        seq![n.f24_bits()]
    } else {
        Seq::empty()
    }
}

/// The text of a number. `decimals` holds the text of the finite binary32
/// number in it, if it is one.
pub open spec fn numb_text(n: hvm::Numb, decimals: Seq<Seq<char>>) -> Seq<char> {
    if n.typ() == hvm::TY_SYM {
        "["@ + sym_text(n.sym()) + "]"@
    } else if n.typ() == hvm::TY_U24 {
        dec(n.u24())
    } else if n.typ() == hvm::TY_I24 {
        plus_dec(n.i24())
    } else if n.typ() == hvm::TY_F24 {
        if !not_finite(n.f24_bits()) {
            decimals[0]
        } else if n.f24_bits() % 0x80_0000 != 0 {
            "+NaN"@
        } else if n.f24_bits() < 0x8000_0000 {
            "+inf"@
        } else {
            "-inf"@
        }
    } else {
        "["@ + op_text(n.typ()) + "0x"@ + hex_upper(n.u24(), 7) + "]"@
    }
}

/// `s` is a text that `f` may give for `bits`.
pub open spec fn answer<F: Fn(u32) -> String>(f: F, bits: u32, s: Seq<char>) -> bool {
    exists|r: String| #[trigger] f.ensures((bits,), r) && r@ == s
}

/// `decimals` holds for each of these numbers a text that `f` may give for it.
pub open spec fn answers<F: Fn(u32) -> String>(
    f: F,
    floats: Seq<u32>,
    decimals: Seq<Seq<char>>,
) -> bool {
    &&& decimals.len() == floats.len()
    &&& forall|i: int| 0 <= i < floats.len() ==> answer(f, floats[i], #[trigger] decimals[i])
}

impl TreeModel {
    /// The finite binary32 numbers in a tree, given by their bits, from left to
    /// right.
    pub open spec fn floats(self) -> Seq<u32>
        decreases self,
    {
        match self {
            TreeModel::Num { val } => numb_floats(hvm::Numb(val)),
            TreeModel::Con { fst, snd } => fst.floats() + snd.floats(),
            TreeModel::Dup { fst, snd } => fst.floats() + snd.floats(),
            TreeModel::Opr { fst, snd } => fst.floats() + snd.floats(),
            TreeModel::Swi { fst, snd } => fst.floats() + snd.floats(),
            _ => Seq::empty(),
        }
    }

    /// The text of a tree. `decimals` holds the texts of the finite binary32
    /// numbers in it, from left to right.
    pub open spec fn text(self, decimals: Seq<Seq<char>>) -> Seq<char>
        decreases self,
    {
        match self {
            TreeModel::Var { nam } => nam,
            TreeModel::Ref { nam } => "@"@ + nam,
            TreeModel::Era => "*"@,
            TreeModel::Num { val } => numb_text(hvm::Numb(val), decimals),
            TreeModel::Con { fst, snd } => "("@ + fst.text(
                decimals.take(fst.floats().len() as int),
            ) + " "@ + snd.text(decimals.skip(fst.floats().len() as int)) + ")"@,
            TreeModel::Dup { fst, snd } => "{"@ + fst.text(
                decimals.take(fst.floats().len() as int),
            ) + " "@ + snd.text(decimals.skip(fst.floats().len() as int)) + "}"@,
            TreeModel::Opr { fst, snd } => "$("@ + fst.text(
                decimals.take(fst.floats().len() as int),
            ) + " "@ + snd.text(decimals.skip(fst.floats().len() as int)) + ")"@,
            TreeModel::Swi { fst, snd } => "?("@ + fst.text(
                decimals.take(fst.floats().len() as int),
            ) + " "@ + snd.text(decimals.skip(fst.floats().len() as int)) + ")"@,
        }
    }
}

/// `s` is a text of the tree, with the texts that `f` may give for the finite
/// binary32 numbers in it.
pub open spec fn shown<F: Fn(u32) -> String>(tree: TreeModel, f: F, s: Seq<char>) -> bool {
    exists|decimals: Seq<Seq<char>>| #[trigger]
        answers(f, tree.floats(), decimals) && s == tree.text(decimals)
}

/// Where `f` computes a function, the texts that it gives are that function's.
pub proof fn law_answers_of_function<F: Fn(u32) -> String>(
    f: F,
    floats: Seq<u32>,
    decimals: Seq<Seq<char>>,
    decimal: spec_fn(u32) -> Seq<char>,
)
    requires
        answers(f, floats, decimals),
        forall|bits: u32, r: String| #[trigger] f.ensures((bits,), r) ==> r@ == decimal(bits),
    ensures
        decimals == floats.map_values(decimal),
{
    assert(decimals =~= floats.map_values(decimal)) by {
        assert forall|i: int| 0 <= i < floats.len() implies decimals[i] == decimal(floats[i]) by {
            assert(answer(f, floats[i], decimals[i]));
        }
    }
}

proof fn lemma_answers_join<F: Fn(u32) -> String>(
    f: F,
    a: Seq<u32>,
    b: Seq<u32>,
    da: Seq<Seq<char>>,
    db: Seq<Seq<char>>,
)
    requires
        answers(f, a, da),
        answers(f, b, db),
    ensures
        answers(f, a + b, da + db),
        (da + db).take(a.len() as int) == da,
        (da + db).skip(a.len() as int) == db,
{
    assert((da + db).take(a.len() as int) =~= da);
    assert((da + db).skip(a.len() as int) =~= db);
    assert forall|i: int| 0 <= i < (a + b).len() implies answer(
        f,
        (a + b)[i],
        #[trigger] (da + db)[i],
    ) by {
        if i < a.len() {
            assert(answer(f, a[i], da[i]));
        } else {
            assert(answer(f, b[i - a.len()], db[i - a.len()]));
        }
    }
}

fn op_str(op: u8) -> (r: &'static str)
    ensures
        r@ == op_text(op as nat),
{
    match op {
        0x04 => "+",
        0x05 => "-",
        0x06 => ":-",
        0x07 => "*",
        0x08 => "/",
        0x09 => ":/",
        0x0A => "%",
        0x0B => ":%",
        0x0C => "=",
        0x0D => "!",
        0x0E => "<",
        0x0F => ">",
        0x10 => "&",
        0x11 => "|",
        0x12 => "^",
        0x13 => "<<",
        0x14 => ":<<",
        0x15 => ">>",
        0x16 => ":>>",
        _ => "?",
    }
}

impl Numb {
    /// Appends the text of the number; `f24` is asked for the text of a finite
    /// binary32 number, given by its bits.
    fn push_show<F: Fn(u32) -> String>(&self, out: &mut String, f24: &F)
        requires
            forall|bits: u32| #[trigger] f24.requires((bits,)),
        ensures
            exists|decimals: Seq<Seq<char>>| #[trigger]
                answers(*f24, numb_floats(hvm::Numb(self.0)), decimals) && final(out)@ == old(out)@
                    + numb_text(hvm::Numb(self.0), decimals),
    {
        let ghost before = out@;
        let ghost mut decimals: Seq<Seq<char>> = Seq::empty();
        let numb = hvm::Numb(self.0);
        let typ = numb.get_typ();
        if typ == hvm::TY_SYM {
            let sym = numb.get_sym();
            out.append("[");
            if sym == hvm::TY_U24 {
                out.append("u24");
            } else if sym == hvm::TY_I24 {
                out.append("i24");
            } else if sym == hvm::TY_F24 {
                out.append("f24");
            } else {
                out.append(op_str(sym));
            }
            out.append("]");
        } else if typ == hvm::TY_U24 {
            push_dec(out, numb.get_u24() as u64);
        } else if typ == hvm::TY_I24 {
            let val = numb.get_i24();
            if val < 0 {
                out.append("-");
                push_dec(out, (-val) as u64);
            } else {
                out.append("+");
                push_dec(out, val as u64);
            }
        } else if typ == hvm::TY_F24 {
            let bits = numb.get_f24_bits();
            if bits / 0x80_0000 % 256 != 255 {
                let val = f24(bits);
                out.append(val.as_str());
                proof {
                    decimals = seq![val@];
                    assert(answer(*f24, bits, val@));
                }
            } else if bits % 0x80_0000 != 0 {
                out.append("+NaN");
            } else if bits < 0x8000_0000 {
                out.append("+inf");
            } else {
                out.append("-inf");
            }
        } else {
            out.append("[");
            out.append(op_str(typ));
            out.append("0x");
            push_hex_upper(out, numb.get_u24(), 7);
            out.append("]");
        }
        proof {
            assert(answers(*f24, numb_floats(numb), decimals));
            assert(out@ =~= before + numb_text(numb, decimals));
        }
    }

    /// The text of the number. `f24` is asked for the text of a finite binary32
    /// number, given by its bits.
    pub fn show<F: Fn(u32) -> String>(&self, f24: &F) -> (r: String)
        requires
            forall|bits: u32| #[trigger] f24.requires((bits,)),
        ensures
            shown(TreeModel::Num { val: self.0 }, *f24, r@),
    {
        let mut out = String::new();
        self.push_show(&mut out, f24);
        proof {
            let n = hvm::Numb(self.0);
            let d = choose|d: Seq<Seq<char>>| #[trigger]
                answers(*f24, numb_floats(n), d) && out@ == Seq::<char>::empty() + numb_text(n, d);
            assert(answers(*f24, TreeModel::Num { val: self.0 }.floats(), d));
            assert(out@ =~= numb_text(n, d));
        }
        out
    }
}

impl Clone for Tree {
    fn clone(&self) -> (r: Self)
        ensures
            r == *self,
        decreases self,
    {
        match self {
            Tree::Var { nam } => Tree::Var { nam: nam.clone() },
            Tree::Ref { nam } => Tree::Ref { nam: nam.clone() },
            Tree::Era => Tree::Era,
            Tree::Num { val } => Tree::Num { val: *val },
            Tree::Con { fst, snd } => Tree::Con {
                fst: Box::new((&**fst).clone()),
                snd: Box::new((&**snd).clone()),
            },
            Tree::Dup { fst, snd } => Tree::Dup {
                fst: Box::new((&**fst).clone()),
                snd: Box::new((&**snd).clone()),
            },
            Tree::Opr { fst, snd } => Tree::Opr {
                fst: Box::new((&**fst).clone()),
                snd: Box::new((&**snd).clone()),
            },
            Tree::Swi { fst, snd } => Tree::Swi {
                fst: Box::new((&**fst).clone()),
                snd: Box::new((&**snd).clone()),
            },
        }
    }
}

impl Tree {
    /// What the tree holds.
    pub open spec fn model(self) -> TreeModel
        decreases self,
    {
        match self {
            Tree::Var { nam } => TreeModel::Var { nam: nam@ },
            Tree::Ref { nam } => TreeModel::Ref { nam: nam@ },
            Tree::Era => TreeModel::Era,
            Tree::Num { val } => TreeModel::Num { val: val.0 },
            Tree::Con { fst, snd } => TreeModel::Con {
                fst: Box::new(fst.model()),
                snd: Box::new(snd.model()),
            },
            Tree::Dup { fst, snd } => TreeModel::Dup {
                fst: Box::new(fst.model()),
                snd: Box::new(snd.model()),
            },
            Tree::Opr { fst, snd } => TreeModel::Opr {
                fst: Box::new(fst.model()),
                snd: Box::new(snd.model()),
            },
            Tree::Swi { fst, snd } => TreeModel::Swi {
                fst: Box::new(fst.model()),
                snd: Box::new(snd.model()),
            },
        }
    }

    fn push_leaf<F: Fn(u32) -> String>(&self, out: &mut String, f24: &F)
        requires
            forall|bits: u32| #[trigger] f24.requires((bits,)),
            self is Var || self is Ref || self is Era || self is Num,
        ensures
            exists|decimals: Seq<Seq<char>>| #[trigger]
                answers(*f24, self.model().floats(), decimals) && final(out)@ == old(out)@
                    + self.model().text(decimals),
    {
        let ghost before = out@;
        let ghost mut decimals: Seq<Seq<char>> = Seq::empty();
        match self {
            Tree::Var { nam } => {
                out.append(nam.as_str());
            },
            Tree::Ref { nam } => {
                out.append("@");
                out.append(nam.as_str());
            },
            Tree::Num { val } => {
                val.push_show(out, f24);
                proof {
                    let n = hvm::Numb(val.0);
                    let d = choose|d: Seq<Seq<char>>| #[trigger]
                        answers(*f24, numb_floats(n), d) && out@ == before + numb_text(n, d);
                    decimals = d;
                }
            },
            _ => {
                out.append("*");
            },
        }
        proof {
            assert(answers(*f24, self.model().floats(), decimals));
            assert(out@ =~= before + self.model().text(decimals));
        }
    }

    fn push_show<F: Fn(u32) -> String>(&self, out: &mut String, f24: &F)
        requires
            forall|bits: u32| #[trigger] f24.requires((bits,)),
        ensures
            exists|decimals: Seq<Seq<char>>| #[trigger]
                answers(*f24, self.model().floats(), decimals) && final(out)@ == old(out)@
                    + self.model().text(decimals),
        decreases self,
    {
        let ghost before = out@;
        let (open, fst, snd, close) = match self {
            Tree::Con { fst, snd } => ("(", fst, snd, ")"),
            Tree::Dup { fst, snd } => ("{", fst, snd, "}"),
            Tree::Opr { fst, snd } => ("$(", fst, snd, ")"),
            Tree::Swi { fst, snd } => ("?(", fst, snd, ")"),
            _ => {
                self.push_leaf(out, f24);
                return ;
            },
        };
        out.append(open);
        let ghost mid = out@;
        fst.push_show(out, f24);
        let ghost da = choose|d: Seq<Seq<char>>| #[trigger]
            answers(*f24, fst.model().floats(), d) && out@ == mid + fst.model().text(d);
        out.append(" ");
        let ghost mid = out@;
        snd.push_show(out, f24);
        let ghost db = choose|d: Seq<Seq<char>>| #[trigger]
            answers(*f24, snd.model().floats(), d) && out@ == mid + snd.model().text(d);
        out.append(close);
        proof {
            lemma_answers_join(*f24, fst.model().floats(), snd.model().floats(), da, db);
            assert(answers(*f24, self.model().floats(), da + db));
            assert(out@ =~= before + self.model().text(da + db));
        }
    }

    /// The text of the tree. `f24` is asked for the text of a finite binary32
    /// number, given by its bits.
    pub fn show<F: Fn(u32) -> String>(&self, f24: &F) -> (r: String)
        requires
            forall|bits: u32| #[trigger] f24.requires((bits,)),
        ensures
            shown(self.model(), *f24, r@),
    {
        let mut out = String::new();
        self.push_show(&mut out, f24);
        proof {
            let tree = self.model();
            let d = choose|d: Seq<Seq<char>>| #[trigger]
                answers(*f24, tree.floats(), d) && out@ == Seq::<char>::empty() + tree.text(d);
            assert(out@ =~= tree.text(d));
        }
        out
    }
}

/// The tree of a node with this tag and these two subtrees.
pub open spec fn node_model(tag: nat, fst: TreeModel, snd: TreeModel) -> TreeModel {
    if tag == CON {
        TreeModel::Con { fst: Box::new(fst), snd: Box::new(snd) }
    } else if tag == DUP {
        TreeModel::Dup { fst: Box::new(fst), snd: Box::new(snd) }
    } else if tag == OPR {
        TreeModel::Opr { fst: Box::new(fst), snd: Box::new(snd) }
    } else {
        TreeModel::Swi { fst: Box::new(fst), snd: Box::new(snd) }
    }
}

/// What the walk from `port` reads, where it goes at most `depth` ports deep:
/// a tree, or no tree because a reference has no name. Nothing where the walk
/// goes deeper, runs in a circle or leaves the net. Of a node's two subtrees the
/// second is not walked where the first is no tree.
pub open spec fn read(
    net: NetModel,
    port: hvm::Port,
    fids: Map<u32, String>,
    depth: nat,
) -> Option<Option<TreeModel>>
    decreases depth,
{
    if port.tag() == VAR {
        if !net.ends(port) {
            None
        } else if net.entered(port) == port {
            Some(Some(TreeModel::Var { nam: "v"@ + hex(port.val()) }))
        } else if depth == 0 {
            None
        } else {
            read(net, net.entered(port), fids, (depth - 1) as nat)
        }
    } else if port.tag() == REF {
        if fids.contains_key(port.val() as u32) {
            Some(Some(TreeModel::Ref { nam: fids[port.val() as u32]@ }))
        } else {
            Some(None)
        }
    } else if port.tag() == ERA {
        Some(Some(TreeModel::Era))
    } else if port.tag() == NUM {
        Some(Some(TreeModel::Num { val: port.val() as u32 }))
    } else if port.val() >= net.node.len() || depth == 0 {
        None
    } else {
        let pair = net.node[port.val() as int];
        match read(net, pair.fst(), fids, (depth - 1) as nat) {
            None => None,
            Some(None) => Some(None),
            Some(Some(fst)) => match read(net, pair.snd(), fids, (depth - 1) as nat) {
                None => None,
                Some(None) => Some(None),
                Some(Some(snd)) => Some(Some(node_model(port.tag(), fst, snd))),
            },
        }
    }
}

/// The walk from `port` comes to an end inside the net.
pub open spec fn readable(net: NetModel, port: hvm::Port, fids: Map<u32, String>) -> bool {
    exists|depth: nat| read(net, port, fids, depth) is Some
}

/// What the walk from `port` reads.
pub open spec fn read_back(net: NetModel, port: hvm::Port, fids: Map<u32, String>) -> Option<TreeModel>
    recommends
        readable(net, port, fids),
{
    read(net, port, fids, choose|depth: nat| read(net, port, fids, depth) is Some)->0
}

/// What an optional tree holds.
pub open spec fn tree_model(t: Option<Tree>) -> Option<TreeModel> {
    match t {
        Some(t) => Some(t.model()),
        None => None,
    }
}

pub(crate) proof fn lemma_read_more(
    net: NetModel,
    port: hvm::Port,
    fids: Map<u32, String>,
    n: nat,
    m: nat,
)
    requires
        n <= m,
        read(net, port, fids, n) is Some,
    ensures
        read(net, port, fids, m) == read(net, port, fids, n),
    decreases n,
{
    if port.tag() == VAR {
        if net.entered(port) != port {
            lemma_read_more(net, net.entered(port), fids, (n - 1) as nat, (m - 1) as nat);
        }
    } else if port.tag() >= 4 {
        let pair = net.node[port.val() as int];
        lemma_read_more(net, pair.fst(), fids, (n - 1) as nat, (m - 1) as nat);
        if read(net, pair.fst(), fids, (n - 1) as nat)->0 is Some {
            lemma_read_more(net, pair.snd(), fids, (n - 1) as nat, (m - 1) as nat);
        }
    }
}

/// However deep the walk may go, what it reads is the same.
pub proof fn law_read_back_unique(
    net: NetModel,
    port: hvm::Port,
    fids: Map<u32, String>,
    depth: nat,
)
    requires
        read(net, port, fids, depth) is Some,
    ensures
        readable(net, port, fids),
        read(net, port, fids, depth) == Some(read_back(net, port, fids)),
{
    let c = choose|c: nat| read(net, port, fids, c) is Some;
    if depth <= c {
        lemma_read_more(net, port, fids, depth, c);
    } else {
        lemma_read_more(net, port, fids, c, depth);
    }
}

/// `n` is the least depth at which the walk from `port` ends.
spec fn least_depth(net: NetModel, port: hvm::Port, fids: Map<u32, String>, n: nat) -> bool {
    read(net, port, fids, n) is Some && (n == 0 || read(net, port, fids, (n - 1) as nat) is None)
}

proof fn lemma_descend(net: NetModel, port: hvm::Port, fids: Map<u32, String>, n: nat) -> (c: hvm::Port)
    requires
        n > 0,
        least_depth(net, port, fids, n),
    ensures
        least_depth(net, c, fids, (n - 1) as nat),
{
    if port.tag() == VAR {
        net.entered(port)
    } else {
        let pair = net.node[port.val() as int];
        if n == 1 {
            pair.fst()
        } else {
            let f = (n - 2) as nat;
            if read(net, pair.fst(), fids, f) is None {
                pair.fst()
            } else {
                lemma_read_more(net, pair.fst(), fids, f, (n - 1) as nat);
                pair.snd()
            }
        }
    }
}

proof fn lemma_chain(net: NetModel, port: hvm::Port, fids: Map<u32, String>, n: nat) -> (ports: Seq<
    hvm::Port,
>)
    requires
        least_depth(net, port, fids, n),
    ensures
        ports.len() == n,
        forall|i: int|
            0 <= i < n ==> least_depth(net, #[trigger] ports[i], fids, (i + 1) as nat),
    decreases n,
{
    if n == 0 {
        Seq::empty()
    } else {
        let c = lemma_descend(net, port, fids, n);
        let below = lemma_chain(net, c, fids, (n - 1) as nat);
        below.push(port)
    }
}

proof fn lemma_least_depth(net: NetModel, port: hvm::Port, fids: Map<u32, String>, c: nat) -> (n: nat)
    requires
        read(net, port, fids, c) is Some,
    ensures
        least_depth(net, port, fids, n),
    decreases c,
{
    if c > 0 && read(net, port, fids, (c - 1) as nat) is Some {
        lemma_least_depth(net, port, fids, (c - 1) as nat)
    } else {
        c
    }
}

/// A number for each port that a walk can go on from.
spec fn inner_key(net: NetModel, port: hvm::Port) -> int {
    if port.tag() == VAR {
        port.val() as int
    } else {
        net.vars.len() + 4 * port.val() + port.tag() - 4
    }
}

/// How deep a walk of this net can go and still come to an end.
pub open spec fn depth_limit(net: NetModel) -> nat {
    net.vars.len() + 4 * net.node.len()
}

/// A walk that ends goes no deeper than the size of the net allows.
pub proof fn law_depth_limit(net: NetModel, port: hvm::Port, fids: Map<u32, String>)
    requires
        readable(net, port, fids),
    ensures
        read(net, port, fids, depth_limit(net)) is Some,
{
    let limit = depth_limit(net);
    let c = choose|c: nat| read(net, port, fids, c) is Some;
    let n = lemma_least_depth(net, port, fids, c);
    if n <= limit {
        lemma_read_more(net, port, fids, n, limit);
    } else {
        let ports = lemma_chain(net, port, fids, n);
        let keys = ports.map_values(|p: hvm::Port| inner_key(net, p));
        assert forall|i: int| 0 <= i < n implies 0 <= #[trigger] keys[i] < limit && (
        ports[i].tag() == VAR ==> keys[i] < net.vars.len()) && (ports[i].tag() != VAR
            ==> keys[i] >= net.vars.len() && ports[i].tag() >= 4) by {
            let p = ports[i];
            assert(least_depth(net, p, fids, (i + 1) as nat));
            if p.tag() == VAR {
                let e = choose|e: nat| net.follow(p, e) is Some;
                assert(net.bound(p));
            }
        }
        assert(keys.no_duplicates()) by {
            assert forall|i: int, j: int| 0 <= i < j < keys.len() implies keys[i] != keys[j] by {
                let p = ports[i];
                let q = ports[j];
                assert(least_depth(net, p, fids, (i + 1) as nat));
                assert(least_depth(net, q, fids, (j + 1) as nat));
                if keys[i] == keys[j] {
                    assert(p.tag() == q.tag() && p.val() == q.val());
                    assert(p == q);
                    lemma_read_more(net, p, fids, (i + 1) as nat, j as nat);
                }
            }
        }
        keys.unique_seq_to_set();
        let range = vstd::set_lib::set_int_range(0, limit as int);
        vstd::set_lib::lemma_int_range(0, limit as int);
        assert(keys.to_set().subset_of(range));
        vstd::set_lib::lemma_len_subset(keys.to_set(), range);
    }
}

impl Tree {
    fn read_within(
        net: &GNet,
        port: hvm::Port,
        fids: &BTreeMap<u32, String>,
        depth: u128,
    ) -> (r: Option<Option<Tree>>)
        ensures
            match r {
                Some(t) => read(net@, port, fids@, depth as nat) == Some(tree_model(t)),
                None => read(net@, port, fids@, depth as nat) is None,
            },
        decreases depth,
    {
        let tag = port.get_tag();
        let val = port.get_val();
        if tag == VAR {
            match net.try_enter(port) {
                Some(got) => {
                    if got.0 == port.0 {
                        let mut nam = "v".to_owned();
                        push_hex(&mut nam, val);
                        Some(Some(Tree::Var { nam }))
                    } else if depth == 0 {
                        None
                    } else {
                        Tree::read_within(net, got, fids, depth - 1)
                    }
                },
                None => None,
            }
        } else if tag == REF {
            match fids.get(&val) {
                Some(nam) => Some(Some(Tree::Ref { nam: nam.clone() })),
                None => Some(None),
            }
        } else if tag == ERA {
            Some(Some(Tree::Era))
        } else if tag == NUM {
            Some(Some(Tree::Num { val: Numb(val) }))
        } else if val as u64 >= net.node.len() as u64 || depth == 0 {
            None
        } else {
            let pair = net.node_load(val as usize);
            match Tree::read_within(net, pair.get_fst(), fids, depth - 1) {
                None => None,
                Some(None) => Some(None),
                Some(Some(fst)) => match Tree::read_within(net, pair.get_snd(), fids, depth - 1) {
                    None => None,
                    Some(None) => Some(None),
                    Some(Some(snd)) => {
                        let fst = Box::new(fst);
                        let snd = Box::new(snd);
                        if tag == CON {
                            Some(Some(Tree::Con { fst, snd }))
                        } else if tag == DUP {
                            Some(Some(Tree::Dup { fst, snd }))
                        } else if tag == OPR {
                            Some(Some(Tree::Opr { fst, snd }))
                        } else {
                            Some(Some(Tree::Swi { fst, snd }))
                        }
                    },
                },
            }
        }
    }

    /// The tree at `port`, or no tree because a reference has no name; nothing
    /// where the walk from `port` runs in a circle or leaves the net.
    pub fn try_readback(
        net: &GNet,
        port: hvm::Port,
        fids: &BTreeMap<u32, String>,
    ) -> (r: Option<Option<Tree>>)
        ensures
            match r {
                Some(t) => readable(net@, port, fids@) && tree_model(t) == read_back(
                    net@,
                    port,
                    fids@,
                ),
                None => !readable(net@, port, fids@),
            },
    {
        let limit = net.vars.len() as u128 + 4 * (net.node.len() as u128);
        proof {
            if readable(net@, port, fids@) {
                law_depth_limit(net@, port, fids@);
            }
            if read(net@, port, fids@, limit as nat) is Some {
                law_read_back_unique(net@, port, fids@, limit as nat);
            }
        }
        Tree::read_within(net, port, fids, limit)
    }

    /// The tree at `port`, with `fids` for the names of the definitions; no tree
    /// where a reference on the way has no name.
    pub fn readback(net: &GNet, port: hvm::Port, fids: &BTreeMap<u32, String>) -> (r: Option<Tree>)
        requires
            readable(net@, port, fids@),
        ensures
            tree_model(r) == read_back(net@, port, fids@),
    {
        match Tree::try_readback(net, port, fids) {
            Some(t) => t,
            None => None,
        }
    }
}

impl Net {
    /// The text of the root; see `Tree::show`.
    pub fn show<F: Fn(u32) -> String>(&self, f24: &F) -> (r: String)
        requires
            forall|bits: u32| #[trigger] f24.requires((bits,)),
        ensures
            shown(self.root.model(), *f24, r@),
    {
        self.root.show(f24)
    }

    /// The net that the root variable leads to, without redexes, with the names
    /// of `book`; no net where a reference is to no definition of `book`.
    pub fn readback(net: &GNet, book: &hvm::Book) -> (r: Option<Net>)
        requires
            book.defs@.len() <= 0x1_0000_0000,
            net@.ends(hvm::Port(hvm::ROOT)),
            readable(net@, net@.entered(hvm::Port(hvm::ROOT)), book.names()),
        ensures
            match r {
                Some(n) => read_back(net@, net@.entered(hvm::Port(hvm::ROOT)), book.names()) == Some(
                    n.root.model(),
                ) && n.rbag@ == Seq::<Redex>::empty(),
                None => read_back(
                    net@,
                    net@.entered(hvm::Port(hvm::ROOT)),
                    book.names(),
                ) is None,
            },
    {
        let fids = book.fids();
        match Tree::readback(net, net.enter(hvm::Port(hvm::ROOT)), &fids) {
            Some(root) => Some(Net { root, rbag: Vec::new() }),
            None => None,
        }
    }
}

/// The root of the device's memory holds nothing.
pub open spec fn empty_root(root: hvm::Port) -> bool {
    root.0 == hvm::FREE || root.0 == hvm::NONE
}

/// `line` is what is said of the result of a program that left `net`, with its
/// value at `root`. Nothing is said where the walk from the value runs in a circle
/// or leaves the net.
pub open spec fn is_result<F: Fn(u32) -> String>(
    net: NetModel,
    root: hvm::Port,
    names: Map<u32, String>,
    f24: F,
    line: Option<Seq<char>>,
) -> bool {
    if empty_root(root) {
        line == Some("Readback failed (empty root)."@)
    } else if !(net.ends(root) && readable(net, net.entered(root), names)) {
        line is None
    } else {
        match read_back(net, net.entered(root), names) {
            Some(tree) => exists|text: Seq<char>| #[trigger]
                shown(tree, f24, text) && line == Some("Result: "@ + text),
            None => line == Some("Readback failed."@),
        }
    }
}

/// The characters of a text, where there is one.
pub open spec fn text_view(text: Option<String>) -> Option<Seq<char>> {
    match text {
        Some(text) => Some(text@),
        None => None,
    }
}

/// What is said of the result of a program that left `net`, with its value at
/// `root`. Nothing where the walk from the value runs in a circle or leaves the
/// net.
pub fn result_line<F: Fn(u32) -> String>(
    net: &GNet,
    root: hvm::Port,
    book: &hvm::Book,
    f24: &F,
) -> (r: Option<String>)
    requires
        book.defs@.len() <= 0x1_0000_0000,
        forall|bits: u32| #[trigger] f24.requires((bits,)),
    ensures
        is_result(net@, root, book.names(), *f24, text_view(r)),
{
    if root.0 == hvm::FREE || root.0 == hvm::NONE {
        return Some("Readback failed (empty root).".to_owned());
    }
    let fids = book.fids();
    match net.try_enter(root) {
        Some(at) => match Tree::try_readback(net, at, &fids) {
            Some(Some(tree)) => {
                let text = tree.show(f24);
                let mut line = "Result: ".to_owned();
                line.append(text.as_str());
                proof {
                    assert(shown(tree.model(), *f24, text@));
                }
                Some(line)
            },
            Some(None) => Some("Readback failed.".to_owned()),
            None => None,
        },
        None => None,
    }
}

/// What is said of the result that the device's memory holds, in a heap of `heap`
/// slots: its value is what variable zero stands for. Nothing where the walk from
/// the value runs in a circle or leaves the heap.
pub fn device_result<F: Fn(u32) -> String>(
    nodes: &Vec<u32>,
    vars: &Vec<u32>,
    heap: u32,
    book: &hvm::Book,
    f24: &F,
) -> (r: Option<String>)
    requires
        heap > 0,
        nodes@.len() >= 2 * heap,
        vars@.len() >= heap,
        book.defs@.len() <= 0x1_0000_0000,
        forall|bits: u32| #[trigger] f24.requires((bits,)),
    ensures
        is_result(
            device_net(nodes@, vars@, heap),
            hvm::Port(remapped(vars@[0], heap)),
            book.names(),
            *f24,
            text_view(r),
        ),
{
    let net = GNet::from_device(nodes, vars, heap);
    result_line(&net, hvm::Port(remap_port(vars[0], heap)), book, f24)
}

/// The redexes of a net are never shown: nets with one root have one text, where
/// the texts of binary32 numbers are a function of their bits.
pub proof fn law_redexes_not_shown<F: Fn(u32) -> String>(
    a: Net,
    b: Net,
    f24: F,
    decimal: spec_fn(u32) -> Seq<char>,
    s: Seq<char>,
    t: Seq<char>,
)
    requires
        a.root.model() == b.root.model(),
        forall|bits: u32, r: String| #[trigger] f24.ensures((bits,), r) ==> r@ == decimal(bits),
        shown(a.root.model(), f24, s),
        shown(b.root.model(), f24, t),
    ensures
        s == t,
        s == a.root.model().text(a.root.model().floats().map_values(decimal)),
{
    let tree = a.root.model();
    let da = choose|d: Seq<Seq<char>>| #[trigger]
        answers(f24, tree.floats(), d) && s == tree.text(d);
    let db = choose|d: Seq<Seq<char>>| #[trigger]
        answers(f24, tree.floats(), d) && t == tree.text(d);
    law_answers_of_function(f24, tree.floats(), da, decimal);
    law_answers_of_function(f24, tree.floats(), db, decimal);
}

/// A text that a number with a fraction or an exponent has: a point or an `e` is
/// in it.
pub open spec fn is_float_text(s: Seq<char>) -> bool {
    exists|i: int| 0 <= i < s.len() && (#[trigger] s[i] == '.' || s[i] == 'e')
}

/// The text of a number tells its type: an unsigned number, a signed number and a
/// binary32 number have three different texts, whatever their values are. Of the
/// text of a finite binary32 number it is enough that a point or an `e` is in it.
pub proof fn law_text_tells_type(
    a: hvm::Numb,
    b: hvm::Numb,
    da: Seq<Seq<char>>,
    db: Seq<Seq<char>>,
)
    requires
        a.typ() == hvm::TY_U24 || a.typ() == hvm::TY_I24 || a.typ() == hvm::TY_F24,
        b.typ() == hvm::TY_U24 || b.typ() == hvm::TY_I24 || b.typ() == hvm::TY_F24,
        a.typ() != b.typ(),
        da.len() == numb_floats(a).len(),
        db.len() == numb_floats(b).len(),
        forall|i: int| 0 <= i < da.len() ==> is_float_text(#[trigger] da[i]),
        forall|i: int| 0 <= i < db.len() ==> is_float_text(#[trigger] db[i]),
    ensures
        numb_text(a, da) != numb_text(b, db),
{
    if a.typ() == hvm::TY_F24 {
        lemma_float_text(a, da);
        lemma_whole_text(b, db);
    } else if b.typ() == hvm::TY_F24 {
        lemma_float_text(b, db);
        lemma_whole_text(a, da);
    } else if a.typ() == hvm::TY_U24 {
        lemma_whole_text(a, da);
        lemma_signed_text(b, db);
        assert(is_digit(numb_text(a, da)[0]));
    } else {
        lemma_whole_text(b, db);
        lemma_signed_text(a, da);
        assert(is_digit(numb_text(b, db)[0]));
    }
}

/// The text of a whole number is made of digits and signs, that of an unsigned
/// one of digits.
proof fn lemma_whole_text(n: hvm::Numb, decimals: Seq<Seq<char>>)
    requires
        n.typ() == hvm::TY_U24 || n.typ() == hvm::TY_I24,
    ensures
        numb_text(n, decimals).len() > 0,
        forall|i: int|
            0 <= i < numb_text(n, decimals).len() ==> {
                let c = #[trigger] numb_text(n, decimals)[i];
                is_digit(c) || n.typ() == hvm::TY_I24 && (c == '+' || c == '-')
            },
{
    lemma_dec_digits(n.u24());
    let i24 = n.i24();
    lemma_dec_digits(
        (if i24 < 0 {
            -i24
        } else {
            i24
        }) as nat,
    );
    reveal_strlit("+");
    reveal_strlit("-");
}

proof fn lemma_signed_text(n: hvm::Numb, decimals: Seq<Seq<char>>)
    requires
        n.typ() == hvm::TY_I24,
    ensures
        numb_text(n, decimals).len() > 0,
        !is_digit(numb_text(n, decimals)[0]),
{
    reveal_strlit("+");
    reveal_strlit("-");
}

/// In the text of a binary32 number there is something that is no digit and no
/// sign.
proof fn lemma_float_text(n: hvm::Numb, decimals: Seq<Seq<char>>)
    requires
        n.typ() == hvm::TY_F24,
        decimals.len() == numb_floats(n).len(),
        forall|i: int| 0 <= i < decimals.len() ==> is_float_text(#[trigger] decimals[i]),
    ensures
        exists|i: int|
            0 <= i < numb_text(n, decimals).len() && {
                let c = #[trigger] numb_text(n, decimals)[i];
                !is_digit(c) && c != '+' && c != '-'
            },
{
    let text = numb_text(n, decimals);
    if !not_finite(n.f24_bits()) {
        assert(is_float_text(decimals[0]));
        let i = choose|i: int| 0 <= i < text.len() && (#[trigger] text[i] == '.' || text[i] == 'e');
        assert(text[i] == '.' || text[i] == 'e');
    } else {
        reveal_strlit("+NaN");
        reveal_strlit("+inf");
        reveal_strlit("-inf");
        assert(text[1] == 'N' || text[1] == 'i');
    }
}

} // verus!
