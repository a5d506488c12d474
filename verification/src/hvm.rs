//! The memory of the machine: ports, pairs, numbers, nets and books.
use std::collections::BTreeMap;
use vstd::prelude::*;

verus! {

pub type Tag = u8;

pub type Val = u32;

/// The tag of a variable.
pub const VAR: Tag = 0;

/// The tag of a reference to a definition.
pub const REF: Tag = 1;

/// The tag of an eraser.
pub const ERA: Tag = 2;

/// The tag of a number.
pub const NUM: Tag = 3;

/// The tag of a constructor.
pub const CON: Tag = 4;

/// The tag of a duplicator.
pub const DUP: Tag = 5;

/// The tag of an operator.
pub const OPR: Tag = 6;

/// The tag of a switch.
pub const SWI: Tag = 7;

/// The number types and operations, as a number's lowest five bits hold them.
pub const TY_SYM: Tag = 0x00;

pub const TY_U24: Tag = 0x01;

pub const TY_I24: Tag = 0x02;

pub const TY_F24: Tag = 0x03;

pub const OP_ADD: Tag = 0x04;

pub const OP_SUB: Tag = 0x05;

pub const FP_SUB: Tag = 0x06;

pub const OP_MUL: Tag = 0x07;

pub const OP_DIV: Tag = 0x08;

pub const FP_DIV: Tag = 0x09;

pub const OP_REM: Tag = 0x0A;

pub const FP_REM: Tag = 0x0B;

pub const OP_EQ: Tag = 0x0C;

pub const OP_NEQ: Tag = 0x0D;

pub const OP_LT: Tag = 0x0E;

pub const OP_GT: Tag = 0x0F;

pub const OP_AND: Tag = 0x10;

pub const OP_OR: Tag = 0x11;

pub const OP_XOR: Tag = 0x12;

pub const OP_SHL: Tag = 0x13;

pub const FP_SHL: Tag = 0x14;

pub const OP_SHR: Tag = 0x15;

pub const FP_SHR: Tag = 0x16;

/// One end of a wire: a tag in the lowest three bits, a value in the others.
#[derive(Clone, Copy, PartialEq, Eq, Structural, Hash, Debug)]
pub struct Port(pub u32);

/// The word of a free slot.
pub const FREE: u32 = 0;

/// The word of the variable that the result of a program is linked to.
pub const ROOT: u32 = 0xFFFF_FFF8;

/// The word that stands for no port.
pub const NONE: u32 = 0xFFFF_FFFF;

impl Port {
    pub open spec fn tag(self) -> nat {
        (self.0 % 8) as nat
    }

    pub open spec fn val(self) -> nat {
        (self.0 / 8) as nat
    }

    /// The port of a tag below eight and a value of at most 29 bits; of a wider
    /// value the highest bits are lost.
    pub fn new(tag: Tag, val: Val) -> (r: Port)
        ensures
            r.0 == (val << 3u32) | (tag as u32),
            tag < 8 && val < 0x2000_0000 ==> r.tag() == tag && r.val() == val,
    {
        let t = tag as u32;
        assert(t < 8 && val < 0x2000_0000 ==> (val << 3u32) | t == val * 8 + t) by (bit_vector);
        Port((val << 3) | t)
    }

    pub fn get_tag(&self) -> (r: Tag)
        ensures
            r == self.tag(),
    {
        (self.0 % 8) as u8
    }

    pub fn get_val(&self) -> (r: Val)
        ensures
            r == self.val(),
    {
        self.0 / 8
    }
}

/// Two ports: the first in the low half, the second in the high half.
#[derive(Clone, Copy, PartialEq, Eq, Structural, Hash, Debug)]
pub struct Pair(pub u64);

impl Pair {
    pub open spec fn fst(self) -> Port {
        Port((self.0 % 0x1_0000_0000) as u32)
    }

    pub open spec fn snd(self) -> Port {
        Port((self.0 / 0x1_0000_0000) as u32)
    }

    pub fn new(fst: Port, snd: Port) -> (r: Pair)
        ensures
            r.0 == snd.0 * 0x1_0000_0000 + fst.0,
            r.fst() == fst,
            r.snd() == snd,
    {
        Pair(snd.0 as u64 * 0x1_0000_0000 + fst.0 as u64)
    }

    pub fn get_fst(&self) -> (r: Port)
        ensures
            r == self.fst(),
    {
        Port((self.0 % 0x1_0000_0000) as u32)
    }

    pub fn get_snd(&self) -> (r: Port)
        ensures
            r == self.snd(),
    {
        Port((self.0 / 0x1_0000_0000) as u32)
    }
}

/// A number: a type or an operation in the lowest five bits, the 24 bits of the
/// value above them.
#[derive(Clone, Copy, PartialEq, Eq, Structural, Hash, Debug)]
pub struct Numb(pub u32);

impl Numb {
    pub open spec fn typ(self) -> nat {
        (self.0 % 32) as nat
    }

    pub open spec fn u24(self) -> nat {
        (self.0 / 32) as nat
    }

    pub open spec fn sym(self) -> nat {
        self.u24() % 256
    }

    /// The lowest 24 bits above the type as a signed number.
    pub open spec fn i24(self) -> int {
        let low = self.u24() % 0x100_0000;
        if low < 0x80_0000 {
            low as int
        } else {
            low - 0x100_0000
        }
    }

    /// The same 24 bits as the highest bits of a binary32 number.
    pub open spec fn f24_bits(self) -> u32 {
        (self.u24() % 0x100_0000 * 256) as u32
    }

    pub fn get_typ(&self) -> (r: Tag)
        ensures
            r == self.typ(),
    {
        (self.0 % 32) as u8
    }

    pub fn get_sym(&self) -> (r: Tag)
        ensures
            r == self.sym(),
    {
        (self.0 / 32 % 256) as u8
    }

    pub fn get_u24(&self) -> (r: u32)
        ensures
            r == self.u24(),
    {
        self.0 / 32
    }

    pub fn get_i24(&self) -> (r: i32)
        ensures
            r == self.i24(),
    {
        let low = (self.0 / 32) % 0x100_0000;
        if low < 0x80_0000 {
            low as i32
        } else {
            low as i32 - 0x100_0000
        }
    }

    pub fn get_f24_bits(&self) -> (r: u32)
        ensures
            r == self.f24_bits(),
    {
        (self.0 / 32) % 0x100_0000 * 256
    }
}

/// A definition: its name, whether a duplicator may copy a reference to it, its
/// root, its redexes and nodes, and how many variables it has.
pub struct Def {
    pub name: String,
    pub safe: bool,
    pub root: Port,
    pub rbag: Vec<Pair>,
    pub node: Vec<Pair>,
    pub vars: usize,
}

/// The definitions of a program; a reference holds the index of one.
pub struct Book {
    pub defs: Vec<Def>,
}

impl Book {
    /// `i` is the first definition that is called `name`.
    pub open spec fn is_first_named(self, name: Seq<char>, i: int) -> bool {
        &&& 0 <= i < self.defs@.len()
        &&& self.defs@[i].name@ == name
        &&& forall|j: int| 0 <= j < i ==> (#[trigger] self.defs@[j]).name@ != name
    }

    /// The index of the definition that a program starts from.
    pub fn main_id(&self) -> (r: Option<usize>)
        ensures
            match r {
                Some(i) => self.is_first_named("main"@, i as int),
                None => forall|j: int|
                    0 <= j < self.defs@.len() ==> (#[trigger] self.defs@[j]).name@ != "main"@,
            },
    {
        let main = "main".to_owned();
        let mut i: usize = 0;
        while i < self.defs.len()
            invariant
                i <= self.defs@.len(),
                main@ == "main"@,
                forall|j: int| 0 <= j < i ==> (#[trigger] self.defs@[j]).name@ != "main"@,
            decreases self.defs@.len() - i,
        {
            if self.defs[i].name == main {
                return Some(i);
            }
            i += 1;
        }
        None
    }

    /// The names of the definitions by their indices.
    pub open spec fn names(self) -> Map<u32, String> {
        Map::new(|fid: u32| fid < self.defs@.len(), |fid: u32| self.defs@[fid as int].name)
    }

    /// The names of the definitions by their indices.
    pub fn fids(&self) -> (r: BTreeMap<u32, String>)
        requires
            self.defs@.len() <= 0x1_0000_0000,
        ensures
            r@ == self.names(),
    {
        let mut fids: BTreeMap<u32, String> = BTreeMap::new();
        let mut i: usize = 0;
        while i < self.defs.len()
            invariant
                i <= self.defs@.len() <= 0x1_0000_0000,
                fids@ == Map::new(
                    |fid: u32| fid < i,
                    |fid: u32| self.defs@[fid as int].name,
                ),
            decreases self.defs@.len() - i,
        {
            fids.insert(i as u32, self.defs[i].name.clone());
            i += 1;
        }
        fids
    }
}

} // verus!
