//! What holds of reading a net back: port by port, and what is said of the result.
use vstd::prelude::*;
use crate::hvm;
use crate::hvm::Port;
use crate::net::{device_net, NetModel};
use crate::reading::{is_numeral, law_hex_value, numeral_value};
use crate::readback::{is_result, law_read_back_unique, read, read_back, readable, shown, TreeModel};
use crate::text::hex;

verus! {

proof fn lemma_not_readable(net: NetModel, port: Port, fids: Map<u32, String>)
    requires
        forall|d: nat| read(net, port, fids, d) is None,
    ensures
        !readable(net, port, fids),
{
}

/// What an eraser, a number and a reference are read as: a number by all the bits
/// above its tag, a reference by the name of the definition that it is to, if there
/// is one.
pub proof fn law_read_leaf(net: NetModel, port: Port, fids: Map<u32, String>)
    ensures
        port.0 % 8 == 1 ==> readable(net, port, fids) && read_back(net, port, fids)
            == if fids.contains_key(port.0 / 8) {
            Some(TreeModel::Ref { nam: fids[port.0 / 8]@ })
        } else {
            None
        },
        port.0 % 8 == 2 ==> readable(net, port, fids) && read_back(net, port, fids) == Some(
            TreeModel::Era,
        ),
        port.0 % 8 == 3 ==> readable(net, port, fids) && read_back(net, port, fids) == Some(
            TreeModel::Num { val: port.0 / 8 },
        ),
{
    if 1 <= port.0 % 8 <= 3 {
        assert(read(net, port, fids, 0) is Some);
        law_read_back_unique(net, port, fids, 0);
    }
}

/// What a node is read as: it has to be in the net. Of its two words the low half is
/// the port of its first subtree and the high half that of its second. Its tag says
/// what it is. It is no tree where the first subtree is none, or else the second.
pub proof fn law_read_node(net: NetModel, port: Port, fids: Map<u32, String>)
    requires
        port.0 % 8 >= 4,
    ensures
        port.0 / 8 >= net.node.len() ==> !readable(net, port, fids),
        port.0 / 8 < net.node.len() ==> ({
            let words = net.node[(port.0 / 8) as int].0;
            let fst = Port((words % 0x1_0000_0000) as u32);
            let snd = Port((words / 0x1_0000_0000) as u32);
            &&& readable(net, port, fids) <==> readable(net, fst, fids) && (read_back(
                net,
                fst,
                fids,
            ) is None || readable(net, snd, fids))
            &&& readable(net, port, fids) && read_back(net, fst, fids) is None ==> read_back(
                net,
                port,
                fids,
            ) is None
            &&& readable(net, port, fids) && read_back(net, fst, fids) is Some && read_back(
                net,
                snd,
                fids,
            ) is None ==> read_back(net, port, fids) is None
            &&& readable(net, port, fids) && read_back(net, fst, fids) is Some && read_back(
                net,
                snd,
                fids,
            ) is Some ==> ({
                let a = Box::new(read_back(net, fst, fids)->0);
                let b = Box::new(read_back(net, snd, fids)->0);
                let tree = read_back(net, port, fids);
                &&& port.0 % 8 == 4 ==> tree == Some(TreeModel::Con { fst: a, snd: b })
                &&& port.0 % 8 == 5 ==> tree == Some(TreeModel::Dup { fst: a, snd: b })
                &&& port.0 % 8 == 6 ==> tree == Some(TreeModel::Opr { fst: a, snd: b })
                &&& port.0 % 8 == 7 ==> tree == Some(TreeModel::Swi { fst: a, snd: b })
            })
        }),
{
    if port.0 / 8 < net.node.len() {
        let pair = net.node[(port.0 / 8) as int];
        let fst = Port((pair.0 % 0x1_0000_0000) as u32);
        let snd = Port((pair.0 / 0x1_0000_0000) as u32);
        assert(pair.fst() == fst && pair.snd() == snd);
        if readable(net, port, fids) {
            let d = choose|d: nat| read(net, port, fids, d) is Some;
            law_read_back_unique(net, port, fids, d);
            assert(read(net, fst, fids, (d - 1) as nat) is Some);
            law_read_back_unique(net, fst, fids, (d - 1) as nat);
            if read_back(net, fst, fids) is Some {
                assert(read(net, snd, fids, (d - 1) as nat) is Some);
                law_read_back_unique(net, snd, fids, (d - 1) as nat);
            }
        }
        if readable(net, fst, fids) && (read_back(net, fst, fids) is None || readable(
            net,
            snd,
            fids,
        )) {
            let a = choose|a: nat| read(net, fst, fids, a) is Some;
            law_read_back_unique(net, fst, fids, a);
            if read_back(net, fst, fids) is Some {
                let b = choose|b: nat| read(net, snd, fids, b) is Some;
                let m = if a >= b {
                    a
                } else {
                    b
                };
                crate::readback::lemma_read_more(net, fst, fids, a, m);
                crate::readback::lemma_read_more(net, snd, fids, b, m);
                assert(read(net, port, fids, m + 1) is Some);
            } else {
                assert(read(net, port, fids, a + 1) is Some);
            }
        }
    }
}

/// What a variable is read as: it has to be in the net. Where its word is zero or
/// all ones, it has no substitution and is read as a name: a `v`, and its number in
/// base sixteen. Otherwise it is read as the port that its word is.
pub proof fn law_read_var(net: NetModel, port: Port, fids: Map<u32, String>)
    requires
        port.0 % 8 == 0,
    ensures
        port.0 / 8 >= net.vars.len() ==> !readable(net, port, fids),
        port.0 / 8 < net.vars.len() ==> ({
            let word = net.vars[(port.0 / 8) as int].0;
            &&& word == 0 || word == 0xFFFF_FFFF ==> readable(net, port, fids) && (read_back(
                net,
                port,
                fids,
            ) matches Some(TreeModel::Var { nam }) && nam.len() > 1 && nam[0] == 'v' && is_numeral(
                nam.skip(1),
                16,
            ) && numeral_value(nam.skip(1), 16) == port.0 / 8 && (nam.len() > 2 ==> nam[1] != '0')
                && forall|i: int| 0 <= i < nam.len() ==> !('A' <= #[trigger] nam[i] <= 'Z'))
            &&& word != 0 && word != 0xFFFF_FFFF ==> (readable(net, port, fids) <==> readable(
                net,
                Port(word),
                fids,
            )) && (readable(net, port, fids) ==> read_back(net, port, fids) == read_back(
                net,
                Port(word),
                fids,
            ))
        }),
{
    if port.0 / 8 >= net.vars.len() {
        assert forall|n: nat| net.follow(port, n) is None by {}
        assert(!net.ends(port));
    } else {
        let word = net.vars[(port.0 / 8) as int].0;
        if word == 0 || word == 0xFFFF_FFFF {
            law_enter_step(net, port);
            assert(read(net, port, fids, 0) is Some);
            law_read_back_unique(net, port, fids, 0);
            law_hex_value(port.val());
            reveal_strlit("v");
            let nam = "v"@ + hex(port.val());
            assert(nam.skip(1) =~= hex(port.val()));
            assert forall|i: int| 0 <= i < nam.len() implies !('A' <= #[trigger] nam[i] <= 'Z') by {
                if i > 0 {
                    assert(nam[i] == hex(port.val())[i - 1]);
                }
            }
        } else {
            lemma_read_bound(net, port, fids);
        }
    }
}

/// Where entering a port leads: a port that is no variable, and a variable of the
/// net whose word is zero or all ones, to itself; any other variable of the net to
/// where the port leads that its word is; a variable outside the net nowhere.
pub proof fn law_enter_step(net: NetModel, port: Port)
    ensures
        port.0 % 8 != 0 ==> net.ends(port) && net.entered(port) == port,
        port.0 % 8 == 0 && port.0 / 8 >= net.vars.len() ==> !net.ends(port),
        port.0 % 8 == 0 && port.0 / 8 < net.vars.len() ==> ({
            let word = net.vars[(port.0 / 8) as int].0;
            &&& word == 0 || word == 0xFFFF_FFFF ==> net.ends(port) && net.entered(port) == port
            &&& word != 0 && word != 0xFFFF_FFFF ==> (net.ends(port) <==> net.ends(Port(word))) && (
            net.ends(port) ==> net.entered(port) == net.entered(Port(word)))
        }),
{
    if port.0 % 8 == 0 && port.0 / 8 >= net.vars.len() {
        assert forall|n: nat| net.follow(port, n) is None by {}
    } else if net.settled(port) {
        assert(net.follow(port, 0) == Some(port));
        net.lemma_entered(port, 0);
    } else {
        let sub = net.vars[(port.0 / 8) as int];
        assert(net.bound(port));
        if net.ends(port) {
            let n = choose|n: nat| net.follow(port, n) is Some;
            net.lemma_entered(port, n);
            assert(net.follow(sub, (n - 1) as nat) is Some);
            net.lemma_entered(sub, (n - 1) as nat);
        }
        if net.ends(sub) {
            let n = choose|n: nat| net.follow(sub, n) is Some;
            assert(net.follow(port, n + 1) == net.follow(sub, n));
            net.lemma_entered(port, n + 1);
        }
    }
}

proof fn lemma_read_bound(net: NetModel, port: Port, fids: Map<u32, String>)
    requires
        net.bound(port),
    ensures
        ({
            let sub = net.vars[port.val() as int];
            &&& readable(net, port, fids) <==> readable(net, sub, fids)
            &&& readable(net, port, fids) ==> read_back(net, port, fids) == read_back(net, sub, fids)
        }),
{
    let sub = net.vars[port.val() as int];
    law_enter_step(net, port);
    if net.ends(port) {
        net.law_enter_once(port);
        let end = net.entered(port);
        assert(end != port);
        assert(net.entered(sub) == end);
        assert forall|d: nat| read(net, port, fids, d + 1) == read(net, end, fids, d) by {}
        if sub.0 % 8 == 0 && end != sub {
            assert forall|d: nat| read(net, sub, fids, d + 1) == read(net, end, fids, d) by {}
        } else if sub.0 % 8 != 0 {
            law_enter_step(net, sub);
            assert(end == sub);
        }
        if readable(net, port, fids) {
            let d = choose|d: nat| read(net, port, fids, d) is Some;
            assert(d > 0);
            assert(read(net, port, fids, ((d - 1) as nat) + 1) == read(net, end, fids, (d - 1) as nat));
            law_read_back_unique(net, port, fids, d);
            law_read_back_unique(net, end, fids, (d - 1) as nat);
            if end != sub {
                assert(read(net, sub, fids, ((d - 1) as nat) + 1) == read(
                    net,
                    end,
                    fids,
                    (d - 1) as nat,
                ));
                law_read_back_unique(net, sub, fids, d);
            }
        }
        if readable(net, sub, fids) {
            let d = choose|d: nat| read(net, sub, fids, d) is Some;
            if end == sub {
                assert(read(net, port, fids, d + 1) == read(net, end, fids, d));
            } else {
                assert(d > 0);
                assert(read(net, sub, fids, ((d - 1) as nat) + 1) == read(
                    net,
                    end,
                    fids,
                    (d - 1) as nat,
                ));
                assert(read(net, port, fids, ((d - 1) as nat) + 1) == read(
                    net,
                    end,
                    fids,
                    (d - 1) as nat,
                ));
            }
        }
    } else {
        assert(!net.ends(sub));
        assert(sub.0 % 8 == 0) by {
            law_enter_step(net, sub);
        }
        assert forall|d: nat| read(net, port, fids, d) is None by {}
        assert forall|d: nat| read(net, sub, fids, d) is None by {}
    }
}

/// Two variables without a substitution have different names.
pub proof fn law_names_differ(net: NetModel, p: Port, q: Port, fids: Map<u32, String>)
    requires
        p != q,
        p.0 % 8 == 0,
        q.0 % 8 == 0,
        p.0 / 8 < net.vars.len(),
        q.0 / 8 < net.vars.len(),
        net.vars[(p.0 / 8) as int].0 == 0 || net.vars[(p.0 / 8) as int].0 == 0xFFFF_FFFF,
        net.vars[(q.0 / 8) as int].0 == 0 || net.vars[(q.0 / 8) as int].0 == 0xFFFF_FFFF,
    ensures
        read_back(net, p, fids) != read_back(net, q, fids),
{
    law_read_var(net, p, fids);
    law_read_var(net, q, fids);
}

/// What is said of a result: `Result:`, a blank and a text of the tree that is read;
/// or that there is nothing at the root; or that there is no tree.
pub proof fn law_result_said<F: Fn(u32) -> String>(
    net: NetModel,
    root: Port,
    names: Map<u32, String>,
    f24: F,
    line: Option<Seq<char>>,
)
    requires
        is_result(net, root, names, f24, line),
    ensures
        root.0 == 0 || root.0 == 0xFFFF_FFFF <==> line == Some("Readback failed (empty root)."@),
        line is None <==> root.0 != 0 && root.0 != 0xFFFF_FFFF && !readable(net, root, names),
        root.0 != 0 && root.0 != 0xFFFF_FFFF && readable(net, root, names) ==> match read_back(
            net,
            root,
            names,
        ) {
            Some(tree) => line is Some && (line->0).len() >= 8 && (line->0).take(8) == "Result: "@
                && shown(tree, f24, (line->0).skip(8)),
            None => line == Some("Readback failed."@),
        },
{
    reveal_strlit("Readback failed (empty root).");
    reveal_strlit("Readback failed.");
    reveal_strlit("Result: ");
    if root.0 != 0 && root.0 != 0xFFFF_FFFF {
        lemma_enter_then_read(net, root, names);
        if net.ends(root) && readable(net, net.entered(root), names) {
            match read_back(net, net.entered(root), names) {
                Some(tree) => {
                    let text = choose|text: Seq<char>| #[trigger]
                        shown(tree, f24, text) && line == Some("Result: "@ + text);
                    let l = "Result: "@ + text;
                    assert(l.take(8) =~= "Result: "@);
                    assert(l.skip(8) =~= text);
                    assert(l[2] == 's');
                },
                None => {
                    assert("Readback failed."@.len() == 16);
                },
            }
        }
    }
}

proof fn lemma_enter_then_read(net: NetModel, root: Port, names: Map<u32, String>)
    ensures
        readable(net, root, names) <==> net.ends(root) && readable(net, net.entered(root), names),
        readable(net, root, names) ==> read_back(net, root, names) == read_back(
            net,
            net.entered(root),
            names,
        ),
{
    if root.0 % 8 != 0 {
        law_enter_step(net, root);
    } else if net.ends(root) {
        let end = net.entered(root);
        if end != root {
            assert forall|d: nat| read(net, root, names, d + 1) == read(net, end, names, d) by {}
            if readable(net, root, names) {
                let d = choose|d: nat| read(net, root, names, d) is Some;
                assert(d > 0);
                assert(read(net, root, names, ((d - 1) as nat) + 1) == read(
                    net,
                    end,
                    names,
                    (d - 1) as nat,
                ));
                law_read_back_unique(net, root, names, d);
                law_read_back_unique(net, end, names, (d - 1) as nat);
            }
            if readable(net, end, names) {
                let d = choose|d: nat| read(net, end, names, d) is Some;
                assert(read(net, root, names, d + 1) == read(net, end, names, d));
            }
        }
    } else {
        assert forall|d: nat| read(net, root, names, d) is None by {}
    }
}

/// The net that the device's words hold, word by word: of a node its two words, of a
/// variable its word; a word that names the root or a variable outside the heap
/// stands for variable zero, and any other word for itself.
pub proof fn law_device_words(nodes: Seq<u32>, vars: Seq<u32>, heap: u32, i: int)
    requires
        0 <= i < heap,
    ensures
        ({
            let net = device_net(nodes, vars, heap);
            let seen = |w: u32|
                if w == 0xFFFF_FFF8 || w % 8 == 0 && w / 8 >= heap {
                    0u32
                } else {
                    w
                };
            &&& net.node.len() == heap
            &&& net.vars.len() == heap
            &&& net.node[i].0 % 0x1_0000_0000 == seen(nodes[2 * i])
            &&& net.node[i].0 / 0x1_0000_0000 == seen(nodes[2 * i + 1])
            &&& net.vars[i].0 == seen(vars[i])
        }),
{
}

/// The definitions by their numbers: each number below their count has the name of
/// that definition.
pub proof fn law_names_by_number(book: hvm::Book, fid: u32)
    ensures
        book.names().contains_key(fid) <==> fid < book.defs@.len(),
        fid < book.defs@.len() ==> book.names()[fid]@ == book.defs@[fid as int].name@,
{
}

} // verus!
