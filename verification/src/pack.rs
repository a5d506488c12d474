//! A book as the words that the device reads.
use vstd::prelude::*;
use crate::hvm::{Book, Def, Pair, Port};
use crate::text::{dec, push_dec};

verus! {

/// The most nodes, and the most variables, that a definition may have.
pub const MAX_DEF_SLOTS: usize = 1024;

/// The words of pairs: of each its first port, then its second.
pub open spec fn pair_words(pairs: Seq<Pair>) -> Seq<u32> {
    Seq::new(
        2 * pairs.len(),
        |i: int|
            if i % 2 == 0 {
                pairs[i / 2].fst().0
            } else {
                pairs[i / 2].snd().0
            },
    )
}

/// The pairs of a definition: its redexes, then its nodes.
pub open spec fn def_words(def: Def) -> Seq<u32> {
    pair_words(def.rbag@) + pair_words(def.node@)
}

/// The pairs of definitions, one after the other.
pub open spec fn body_words(defs: Seq<Def>) -> Seq<u32>
    decreases defs.len(),
{
    if defs.len() == 0 {
        Seq::empty()
    } else {
        body_words(defs.drop_last()) + def_words(defs.last())
    }
}

/// Where in the words the redexes of definition `i` start.
pub open spec fn rbag_offset(defs: Seq<Def>, i: int) -> nat {
    1 + 8 * defs.len() + body_words(defs.take(i)).len()
}

/// Where in the words the nodes of definition `i` start.
pub open spec fn node_offset(defs: Seq<Def>, i: int) -> nat {
    rbag_offset(defs, i) + 2 * defs[i].rbag@.len()
}

/// The header of definition `i`.
pub open spec fn header(defs: Seq<Def>, i: int) -> Seq<u32> {
    seq![
        if defs[i].safe {
            1u32
        } else {
            0u32
        },
        defs[i].rbag@.len() as u32,
        defs[i].node@.len() as u32,
        defs[i].vars as u32,
        defs[i].root.0,
        rbag_offset(defs, i) as u32,
        node_offset(defs, i) as u32,
        0u32,
    ]
}

/// The headers of the first `n` definitions.
pub open spec fn headers(defs: Seq<Def>, n: nat) -> Seq<u32>
    decreases n,
{
    if n == 0 {
        Seq::empty()
    } else {
        headers(defs, (n - 1) as nat) + header(defs, n - 1)
    }
}

/// The words of a book: how many definitions it has, their headers, and their
/// pairs.
pub open spec fn packed(defs: Seq<Def>) -> Seq<u32> {
    seq![defs.len() as u32] + headers(defs, defs.len()) + body_words(defs)
}

/// How many words a book takes.
pub open spec fn packed_size(defs: Seq<Def>) -> nat {
    1 + 8 * defs.len() + body_words(defs).len()
}

/// The definition has more nodes or variables than the device has room for.
pub open spec fn too_large(def: Def) -> bool {
    def.node@.len() > MAX_DEF_SLOTS || def.vars > MAX_DEF_SLOTS
}

/// What is said of a definition that is too large.
pub open spec fn too_large_text(def: Def) -> Seq<char> {
    "def '"@ + def.name@ + "' too large for wgpu v1 (nodes="@ + dec(def.node@.len()) + ", vars="@
        + dec(def.vars as nat) + ", max="@ + dec(MAX_DEF_SLOTS as nat) + ")"@
}

/// `i` is the first definition that is too large.
pub open spec fn first_too_large(defs: Seq<Def>, i: int) -> bool {
    &&& 0 <= i < defs.len()
    &&& too_large(defs[i])
    &&& forall|j: int| 0 <= j < i ==> !too_large(#[trigger] defs[j])
}

/// The error with which packing a book ends, if any: it is empty, or a definition
/// is too large, of which the first is named.
pub open spec fn pack_error(defs: Seq<Def>) -> Option<Seq<char>> {
    if defs.len() == 0 {
        Some("empty book"@)
    } else if exists|i: int| first_too_large(defs, i) {
        Some(too_large_text(defs[choose|i: int| first_too_large(defs, i)]))
    } else {
        None
    }
}

proof fn lemma_headers_len(defs: Seq<Def>, n: nat)
    ensures
        headers(defs, n).len() == 8 * n,
    decreases n,
{
    if n > 0 {
        lemma_headers_len(defs, (n - 1) as nat);
    }
}

proof fn lemma_body_prefix(defs: Seq<Def>, i: int)
    requires
        0 <= i <= defs.len(),
    ensures
        body_words(defs.take(i)).len() <= body_words(defs).len(),
        i < defs.len() ==> body_words(defs.take(i + 1)) == body_words(defs.take(i)) + def_words(
            defs[i],
        ),
    decreases defs.len() - i,
{
    if i < defs.len() {
        assert(defs.take(i + 1).drop_last() =~= defs.take(i));
        lemma_body_prefix(defs, i + 1);
    } else {
        assert(defs.take(i) =~= defs);
    }
}

fn push_pairs(out: &mut Vec<u32>, pairs: &Vec<Pair>)
    ensures
        final(out)@ == old(out)@ + pair_words(pairs@),
{
    let ghost before = out@;
    let mut i: usize = 0;
    proof {
        assert(pair_words(pairs@.take(0)) =~= Seq::empty());
    }
    while i < pairs.len()
        invariant
            i <= pairs@.len(),
            out@ == before + pair_words(pairs@.take(i as int)),
        decreases pairs@.len() - i,
    {
        let p = pairs[i];
        out.push(p.get_fst().0);
        out.push(p.get_snd().0);
        proof {
            assert(out@ =~= before + pair_words(pairs@.take(i + 1)));
        }
        i += 1;
    }
    proof {
        assert(pairs@.take(i as int) =~= pairs@);
    }
}

/// How many words the book takes; nothing where they are more than 32 bits can
/// count.
pub fn packed_len(book: &Book) -> (r: Option<u32>)
    ensures
        match r {
            Some(n) => n == packed_size(book.defs@),
            None => packed_size(book.defs@) > u32::MAX,
        },
{
    let ghost defs = book.defs@;
    if book.defs.len() as u128 * 8 >= 0xffff_ffff {
        return None;
    }
    let mut n: u64 = 1 + 8 * (book.defs.len() as u64);
    let mut i: usize = 0;
    proof {
        assert(defs.take(0) =~= Seq::empty());
    }
    while i < book.defs.len()
        invariant
            defs == book.defs@,
            i <= defs.len(),
            n == 1 + 8 * defs.len() + body_words(defs.take(i as int)).len(),
            n <= u32::MAX,
        decreases defs.len() - i,
    {
        proof {
            lemma_body_prefix(defs, i as int);
            lemma_body_prefix(defs, i + 1);
        }
        let def = &book.defs[i];
        let more = 2 * (def.rbag.len() as u128 + def.node.len() as u128);
        if n as u128 + more > 0xffff_ffff {
            return None;
        }
        n = n + more as u64;
        i += 1;
    }
    proof {
        assert(defs.take(i as int) =~= defs);
    }
    Some(n as u32)
}

fn too_large_message(def: &Def) -> (r: String)
    ensures
        r@ == too_large_text(*def),
{
    let mut out = "def '".to_owned();
    out.append(def.name.as_str());
    out.append("' too large for wgpu v1 (nodes=");
    push_dec(&mut out, def.node.len() as u64);
    out.append(", vars=");
    push_dec(&mut out, def.vars as u64);
    out.append(", max=");
    push_dec(&mut out, MAX_DEF_SLOTS as u64);
    out.append(")");
    out
}

fn find_too_large(book: &Book) -> (r: Option<usize>)
    ensures
        match r {
            Some(i) => first_too_large(book.defs@, i as int),
            None => forall|i: int| !first_too_large(book.defs@, i),
        },
{
    let mut i: usize = 0;
    while i < book.defs.len()
        invariant
            i <= book.defs@.len(),
            forall|j: int| 0 <= j < i ==> !too_large(#[trigger] book.defs@[j]),
        decreases book.defs@.len() - i,
    {
        let def = &book.defs[i];
        if def.node.len() > MAX_DEF_SLOTS || def.vars > MAX_DEF_SLOTS {
            return Some(i);
        }
        i += 1;
    }
    None
}

/// Whether the book can be packed: it is refused, or 32 bits can count its words.
pub fn can_pack(book: &Book) -> (r: bool)
    ensures
        r == (pack_error(book.defs@) is None ==> packed_size(book.defs@) <= u32::MAX),
{
    if book.defs.len() == 0 {
        return true;
    }
    match find_too_large(book) {
        Some(i) => {
            proof {
                assert(first_too_large(book.defs@, i as int));
            }
            true
        },
        None => match packed_len(book) {
            Some(_) => true,
            None => false,
        },
    }
}

/// The words of the book. An empty book is an error, and so is one with a
/// definition that is too large, of which the first is named.
pub fn pack_book(book: &Book) -> (r: Result<Vec<u32>, String>)
    requires
        pack_error(book.defs@) is None ==> packed_size(book.defs@) <= u32::MAX,
    ensures
        match r {
            Ok(words) => pack_error(book.defs@) is None && words@ == packed(book.defs@),
            Err(e) => pack_error(book.defs@) == Some(e@),
        },
{
    let ghost defs = book.defs@;
    if book.defs.len() == 0 {
        return Err("empty book".to_owned());
    }
    match find_too_large(book) {
        Some(i) => {
            proof {
                let first = choose|j: int| first_too_large(defs, j);
                assert(first_too_large(defs, i as int));
                assert(first == i);
            }
            return Err(too_large_message(&book.defs[i]));
        },
        None => {},
    }
    let ndefs = book.defs.len() as u32;
    let header_words: u32 = 1 + ndefs * 8;
    let mut pairs: Vec<u32> = Vec::new();
    let mut out: Vec<u32> = Vec::new();
    out.push(ndefs);
    let mut i: usize = 0;
    proof {
        assert(defs.take(0) =~= Seq::empty());
    }
    while i < book.defs.len()
        invariant
            defs == book.defs@,
            packed_size(defs) <= u32::MAX,
            i <= defs.len(),
            ndefs == defs.len(),
            header_words == 1 + 8 * defs.len(),
            pairs@ == body_words(defs.take(i as int)),
            out@ == seq![ndefs] + headers(defs, i as nat),
            forall|j: int| !first_too_large(defs, j),
        decreases defs.len() - i,
    {
        let def = &book.defs[i];
        proof {
            lemma_none_too_large(defs, i as int);
            lemma_body_prefix(defs, i as int);
            lemma_body_prefix(defs, i + 1);
        }
        let ghost before = pairs@;
        let rbag_off: u32 = header_words + pairs.len() as u32;
        push_pairs(&mut pairs, &def.rbag);
        let node_off: u32 = header_words + pairs.len() as u32;
        push_pairs(&mut pairs, &def.node);
        let ghost head = out@;
        out.push(if def.safe { 1 } else { 0 });
        out.push(def.rbag.len() as u32);
        out.push(def.node.len() as u32);
        out.push(def.vars as u32);
        out.push(def.root.0);
        out.push(rbag_off);
        out.push(node_off);
        out.push(0);
        proof {
            assert(pairs@ =~= before + def_words(defs[i as int]));
            assert(out@ =~= head + header(defs, i as int));
            assert(out@ =~= seq![ndefs] + headers(defs, (i + 1) as nat));
        }
        i += 1;
    }
    proof {
        assert(defs.take(i as int) =~= defs);
    }
    out.append(&mut pairs);
    Ok(out)
}

proof fn lemma_none_too_large(defs: Seq<Def>, i: int)
    requires
        forall|j: int| !first_too_large(defs, j),
        0 <= i < defs.len(),
    ensures
        !too_large(defs[i]),
    decreases i,
{
    assert forall|j: int| 0 <= j < i implies !too_large(#[trigger] defs[j]) by {
        lemma_none_too_large(defs, j);
    }
    assert(!first_too_large(defs, i));
}

/// A book is packed exactly where it has a definition and none of its definitions
/// is too large.
pub proof fn law_packed_books(defs: Seq<Def>)
    ensures
        pack_error(defs) is None <==> defs.len() > 0 && forall|i: int|
            0 <= i < defs.len() ==> !too_large(#[trigger] defs[i]),
{
    if forall|j: int| !first_too_large(defs, j) {
        assert forall|i: int| 0 <= i < defs.len() implies !too_large(#[trigger] defs[i]) by {
            lemma_none_too_large(defs, i);
        }
    } else {
        let j = choose|j: int| first_too_large(defs, j);
        assert(too_large(defs[j]));
    }
}

/// What a definition holds.
#[verifier::ext_equal]
pub struct DefModel {
    pub name: Seq<char>,
    pub safe: bool,
    pub root: Port,
    pub rbag: Seq<Pair>,
    pub node: Seq<Pair>,
    pub vars: nat,
}

/// What a definition holds.
pub open spec fn def_model(def: Def) -> DefModel {
    DefModel {
        name: def.name@,
        safe: def.safe,
        root: def.root,
        rbag: def.rbag@,
        node: def.node@,
        vars: def.vars as nat,
    }
}

/// The `n` pairs that stand in `words` from `offset` on.
pub open spec fn pairs_at(words: Seq<u32>, offset: nat, n: nat) -> Seq<Pair> {
    Seq::new(
        n,
        |j: int|
            Pair((words[offset + 2 * j + 1] * 0x1_0000_0000 + words[offset + 2 * j]) as u64),
    )
}

/// The pairs of definition `i` lie inside the words.
pub open spec fn def_inside(words: Seq<u32>, i: int) -> bool {
    &&& words[8 * i + 6] + 2 * words[8 * i + 2] <= words.len()
    &&& words[8 * i + 7] + 2 * words[8 * i + 3] <= words.len()
}

/// The words are those of a book with these names.
pub open spec fn is_image(words: Seq<u32>, names: Seq<String>) -> bool {
    &&& words.len() > 0
    &&& words[0] == names.len()
    &&& 1 + 8 * names.len() <= words.len()
    &&& forall|i: int| 0 <= i < names.len() ==> #[trigger] def_inside(words, i)
}

/// The definition that the header at `i` describes.
pub open spec fn def_at(words: Seq<u32>, name: Seq<char>, i: int) -> DefModel {
    DefModel {
        name,
        safe: words[8 * i + 1] != 0,
        root: Port(words[8 * i + 5]),
        rbag: pairs_at(words, words[8 * i + 6] as nat, words[8 * i + 2] as nat),
        node: pairs_at(words, words[8 * i + 7] as nat, words[8 * i + 3] as nat),
        vars: words[8 * i + 4] as nat,
    }
}

proof fn lemma_header_at(defs: Seq<Def>, n: nat, i: int)
    requires
        0 <= i < n,
    ensures
        headers(defs, n).subrange(8 * i, 8 * i + 8) == header(defs, i),
    decreases n,
{
    lemma_headers_len(defs, n);
    lemma_headers_len(defs, (n - 1) as nat);
    if i < n - 1 {
        lemma_header_at(defs, (n - 1) as nat, i);
        assert(headers(defs, n).subrange(8 * i, 8 * i + 8) =~= headers(
            defs,
            (n - 1) as nat,
        ).subrange(8 * i, 8 * i + 8));
    } else {
        assert(headers(defs, n).subrange(8 * i, 8 * i + 8) =~= header(defs, i));
    }
}

proof fn lemma_body_at(defs: Seq<Def>, i: int)
    requires
        0 <= i < defs.len(),
    ensures
        ({
            let start = body_words(defs.take(i)).len() as int;
            let len = def_words(defs[i]).len() as int;
            start + len <= body_words(defs).len() && body_words(defs).subrange(start, start + len)
                == def_words(defs[i])
        }),
    decreases defs.len(),
{
    let start = body_words(defs.take(i)).len() as int;
    let len = def_words(defs[i]).len() as int;
    let init = defs.drop_last();
    if i < defs.len() - 1 {
        assert(init.take(i) =~= defs.take(i));
        lemma_body_at(init, i);
        assert(body_words(defs).subrange(start, start + len) =~= body_words(init).subrange(
            start,
            start + len,
        ));
    } else {
        assert(defs.take(i) =~= init);
        assert(body_words(defs).subrange(start, start + len) =~= def_words(defs[i]));
    }
}

/// The words of a book hold how many definitions there are and, of each, its
/// header and, where the header says, its redexes and its nodes.
pub proof fn law_packed_def(defs: Seq<Def>, i: int)
    requires
        packed_size(defs) <= u32::MAX,
        0 <= i < defs.len(),
    ensures
        packed(defs).len() == packed_size(defs),
        packed(defs)[0] == defs.len(),
        packed(defs).subrange(8 * i + 1, 8 * i + 9) == header(defs, i),
        node_offset(defs, i) + 2 * defs[i].node@.len() <= packed_size(defs),
        packed(defs).subrange(rbag_offset(defs, i) as int, node_offset(defs, i) as int)
            == pair_words(defs[i].rbag@),
        packed(defs).subrange(
            node_offset(defs, i) as int,
            node_offset(defs, i) as int + 2 * defs[i].node@.len(),
        ) == pair_words(defs[i].node@),
{
    let words = packed(defs);
    let n = defs.len();
    lemma_headers_len(defs, n);
    lemma_header_at(defs, n, i);
    lemma_body_at(defs, i);
    let start = body_words(defs.take(i)).len() as int;
    let rbag = pair_words(defs[i].rbag@);
    let node = pair_words(defs[i].node@);
    let body = def_words(defs[i]);
    assert(words.subrange(8 * i + 1, 8 * i + 9) =~= headers(defs, n).subrange(8 * i, 8 * i + 8));
    assert forall|j: int| 0 <= j < body.len() implies #[trigger] words[rbag_offset(defs, i) + j]
        == body[j] by {
        assert(body_words(defs).subrange(start, start + body.len())[j] == body[j]);
    }
    assert(words.subrange(rbag_offset(defs, i) as int, node_offset(defs, i) as int) =~= rbag) by {
        assert forall|j: int| 0 <= j < rbag.len() implies words[rbag_offset(defs, i) + j]
            == rbag[j] by {
            assert(body[j] == rbag[j]);
        }
    }
    let end = node_offset(defs, i) as int + 2 * defs[i].node@.len();
    assert(words.subrange(node_offset(defs, i) as int, end) =~= node) by {
        assert forall|j: int| 0 <= j < node.len() implies words[node_offset(defs, i) + j]
            == node[j] by {
            assert(words[rbag_offset(defs, i) + (rbag.len() + j)] == body[rbag.len() + j]);
            assert(body[rbag.len() + j] == node[j]);
        }
    }
}

proof fn lemma_pairs_back(words: Seq<u32>, offset: nat, pairs: Seq<Pair>)
    requires
        offset + 2 * pairs.len() <= words.len(),
        words.subrange(offset as int, offset as int + 2 * pairs.len()) == pair_words(pairs),
    ensures
        pairs_at(words, offset, pairs.len()) == pairs,
{
    let got = pairs_at(words, offset, pairs.len());
    assert forall|j: int| 0 <= j < pairs.len() implies got[j] == pairs[j] by {
        let sub = words.subrange(offset as int, offset as int + 2 * pairs.len());
        assert(sub[2 * j] == pair_words(pairs)[2 * j]);
        assert(sub[2 * j + 1] == pair_words(pairs)[2 * j + 1]);
        assert(words[offset + 2 * j] == pairs[j].fst().0);
        assert(words[offset + 2 * j + 1] == pairs[j].snd().0);
    }
    assert(got =~= pairs);
}

/// Packing loses nothing: what the words of a book describe are its definitions.
pub proof fn law_unpack_packed(defs: Seq<Def>, names: Seq<String>)
    requires
        packed_size(defs) <= u32::MAX,
        names.len() == defs.len(),
        forall|i: int| 0 <= i < defs.len() ==> names[i]@ == (#[trigger] defs[i]).name@,
        forall|i: int| 0 <= i < defs.len() ==> (#[trigger] defs[i]).vars <= u32::MAX,
    ensures
        is_image(packed(defs), names),
        forall|i: int|
            0 <= i < defs.len() ==> def_at(packed(defs), names[i]@, i) == def_model(
                #[trigger] defs[i],
            ),
{
    let words = packed(defs);
    lemma_headers_len(defs, defs.len());
    assert forall|i: int| 0 <= i < defs.len() implies #[trigger] def_inside(words, i) by {
        lemma_def_back(defs, i);
    }
    assert forall|i: int| 0 <= i < defs.len() implies def_at(words, names[i]@, i) == def_model(
        #[trigger] defs[i],
    ) by {
        lemma_def_back(defs, i);
    }
}

proof fn lemma_def_back(defs: Seq<Def>, i: int)
    requires
        packed_size(defs) <= u32::MAX,
        0 <= i < defs.len(),
        defs[i].vars <= u32::MAX,
    ensures
        def_inside(packed(defs), i),
        def_at(packed(defs), defs[i].name@, i) == def_model(defs[i]),
{
    let words = packed(defs);
    law_packed_def(defs, i);
    let h = words.subrange(8 * i + 1, 8 * i + 9);
    assert(h[0] == words[8 * i + 1]);
    assert(h[1] == words[8 * i + 2]);
    assert(h[2] == words[8 * i + 3]);
    assert(h[3] == words[8 * i + 4]);
    assert(h[4] == words[8 * i + 5]);
    assert(h[5] == words[8 * i + 6]);
    assert(h[6] == words[8 * i + 7]);
    lemma_pairs_back(words, rbag_offset(defs, i), defs[i].rbag@);
    lemma_pairs_back(words, node_offset(defs, i), defs[i].node@);
}

/// Two definitions agree in everything but their names.
pub open spec fn same_def(a: Def, b: Def) -> bool {
    &&& a.safe == b.safe
    &&& a.root == b.root
    &&& a.rbag@ == b.rbag@
    &&& a.node@ == b.node@
    &&& a.vars == b.vars
}

/// Two books have equally many definitions, and these agree in everything but
/// their names.
pub open spec fn same_but_names(a: Seq<Def>, b: Seq<Def>) -> bool {
    &&& a.len() == b.len()
    &&& forall|i: int|
        0 <= i < a.len() ==> same_def(#[trigger] a[i], b[i])
}

proof fn lemma_same_body(a: Seq<Def>, b: Seq<Def>)
    requires
        same_but_names(a, b),
    ensures
        body_words(a) == body_words(b),
    decreases a.len(),
{
    if a.len() > 0 {
        let x = a.drop_last();
        let y = b.drop_last();
        assert forall|i: int| 0 <= i < x.len() implies same_def(#[trigger] x[i], y[i]) by {
            assert(x[i] == a[i] && y[i] == b[i]);
        }
        lemma_same_body(x, y);
        assert(same_def(a[a.len() - 1], b[a.len() - 1]));
    }
}

proof fn lemma_same_headers(a: Seq<Def>, b: Seq<Def>, n: nat)
    requires
        same_but_names(a, b),
        n <= a.len(),
    ensures
        headers(a, n) == headers(b, n),
    decreases n,
{
    if n > 0 {
        lemma_same_headers(a, b, (n - 1) as nat);
        let i = n - 1;
        assert(same_def(a[i], b[i]));
        let x = a.take(i);
        let y = b.take(i);
        assert forall|j: int| 0 <= j < x.len() implies same_def(#[trigger] x[j], y[j]) by {
            assert(x[j] == a[j] && y[j] == b[j]);
        }
        lemma_same_body(x, y);
        assert(header(a, i) =~= header(b, i));
    }
}

/// Two books that can be packed have the same words exactly where they agree in
/// everything but the names of their definitions.
pub proof fn law_same_words(a: Seq<Def>, b: Seq<Def>)
    requires
        pack_error(a) is None,
        pack_error(b) is None,
        packed_size(a) <= u32::MAX,
        packed_size(b) <= u32::MAX,
    ensures
        packed(a) == packed(b) <==> same_but_names(a, b),
{
    law_packed_books(a);
    law_packed_books(b);
    if same_but_names(a, b) {
        lemma_same_body(a, b);
        lemma_same_headers(a, b, a.len());
    }
    if packed(a) == packed(b) {
        lemma_headers_len(a, a.len());
        lemma_headers_len(b, b.len());
        assert(packed(a)[0] == a.len() as u32 && packed(b)[0] == b.len() as u32);
        assert forall|i: int| 0 <= i < a.len() implies same_def(#[trigger] a[i], b[i]) by {
            assert(!too_large(a[i]) && !too_large(b[i]));
            lemma_def_back(a, i);
            lemma_def_back(b, i);
            assert(def_at(packed(a), a[i].name@, i).node == def_at(packed(b), b[i].name@, i).node);
        }
    }
}

fn read_pairs(words: &Vec<u32>, offset: usize, n: usize) -> (r: Vec<Pair>)
    requires
        offset + 2 * n <= words@.len(),
    ensures
        r@ == pairs_at(words@, offset as nat, n as nat),
{
    let len = words.len();
    let mut out: Vec<Pair> = Vec::new();
    while out.len() < n
        invariant
            len == words@.len(),
            offset + 2 * n <= words@.len(),
            out@.len() <= n,
            out@ == pairs_at(words@, offset as nat, out@.len()),
        decreases n - out@.len(),
    {
        let j = out.len();
        let pair = Pair::new(Port(words[offset + 2 * j]), Port(words[offset + 2 * j + 1]));
        out.push(pair);
        proof {
            assert(out@ =~= pairs_at(words@, offset as nat, out@.len()));
        }
    }
    out
}

/// The book that the words describe, with these names; nothing where they
/// describe none.
pub fn unpack_book(words: &Vec<u32>, names: &Vec<String>) -> (r: Option<Book>)
    ensures
        match r {
            Some(book) => is_image(words@, names@) && book.defs@.len() == names@.len() && (
            forall|i: int|
                0 <= i < names@.len() ==> def_model(#[trigger] book.defs@[i]) == def_at(
                    words@,
                    names@[i]@,
                    i,
                )),
            None => !is_image(words@, names@),
        },
{
    if words.len() == 0 || words[0] as u64 != names.len() as u64 {
        return None;
    }
    if names.len() as u128 * 8 >= words.len() as u128 {
        return None;
    }
    let len = words.len();
    let mut defs: Vec<Def> = Vec::new();
    while defs.len() < names.len()
        invariant
            len == words@.len(),
            words@.len() > 0,
            words@[0] == names@.len(),
            1 + 8 * names@.len() <= words@.len(),
            defs@.len() <= names@.len(),
            forall|i: int| 0 <= i < defs@.len() ==> #[trigger] def_inside(words@, i),
            forall|i: int|
                0 <= i < defs@.len() ==> def_model(#[trigger] defs@[i]) == def_at(
                    words@,
                    names@[i]@,
                    i,
                ),
        decreases names@.len() - defs@.len(),
    {
        let i = defs.len();
        let h = 8 * i;
        let rbag_len = words[h + 2];
        let node_len = words[h + 3];
        let rbag_off = words[h + 6];
        let node_off = words[h + 7];
        if rbag_off as u64 + 2 * (rbag_len as u64) > len as u64 || node_off as u64 + 2 * (
        node_len as u64) > len as u64 {
            proof {
                assert(!def_inside(words@, i as int));
            }
            return None;
        }
        let ghost before = defs@;
        let def = Def {
            name: names[i].clone(),
            safe: words[h + 1] != 0,
            root: Port(words[h + 5]),
            rbag: read_pairs(words, rbag_off as usize, rbag_len as usize),
            node: read_pairs(words, node_off as usize, node_len as usize),
            vars: words[h + 4] as usize,
        };
        proof {
            assert(def_model(def) =~= def_at(words@, names@[i as int]@, i as int));
        }
        defs.push(def);
    }
    Some(Book { defs })
}

/// The words of a book, word by word. The first says how many definitions there
/// are. Then there are eight words for each: whether it is safe, how many redexes,
/// nodes and variables it has, its root, where its redexes and where its nodes
/// start, and a zero. The redexes of the first definition follow at once, and the
/// nodes of each definition its redexes, and the redexes of the next one its nodes,
/// up to the last word. Of each redex and each node the low half comes first, then
/// the high half.
pub proof fn law_words_of_a_book(defs: Seq<Def>, i: int)
    requires
        packed_size(defs) <= u32::MAX,
        0 <= i < defs.len(),
        defs[i].vars <= u32::MAX,
    ensures
        ({
            let w = packed(defs);
            let d = defs[i];
            let rbag = w[8 * i + 6] as int;
            let node = w[8 * i + 7] as int;
            &&& w[0] == defs.len()
            &&& w[8 * i + 1] == if d.safe {
                1int
            } else {
                0
            }
            &&& w[8 * i + 2] == d.rbag@.len()
            &&& w[8 * i + 3] == d.node@.len()
            &&& w[8 * i + 4] == d.vars
            &&& w[8 * i + 5] == d.root.0
            &&& w[8 * i + 8] == 0
            &&& i == 0 ==> rbag == 1 + 8 * defs.len()
            &&& node == rbag + 2 * d.rbag@.len()
            &&& i + 1 < defs.len() ==> w[8 * (i + 1) + 6] == node + 2 * d.node@.len()
            &&& i + 1 == defs.len() ==> w.len() == node + 2 * d.node@.len()
            &&& forall|j: int|
                0 <= j < d.rbag@.len() ==> w[rbag + 2 * j] == (#[trigger] d.rbag@[j]).0
                    % 0x1_0000_0000 && w[rbag + 2 * j + 1] == d.rbag@[j].0 / 0x1_0000_0000
            &&& forall|j: int|
                0 <= j < d.node@.len() ==> w[node + 2 * j] == (#[trigger] d.node@[j]).0
                    % 0x1_0000_0000 && w[node + 2 * j + 1] == d.node@[j].0 / 0x1_0000_0000
        }),
{
    let w = packed(defs);
    let d = defs[i];
    law_packed_def(defs, i);
    let h = w.subrange(8 * i + 1, 8 * i + 9);
    assert(h[0] == w[8 * i + 1] && h[1] == w[8 * i + 2] && h[2] == w[8 * i + 3]);
    assert(h[3] == w[8 * i + 4] && h[4] == w[8 * i + 5] && h[5] == w[8 * i + 6]);
    assert(h[6] == w[8 * i + 7] && h[7] == w[8 * i + 8]);
    let rbag = w[8 * i + 6] as int;
    let node = w[8 * i + 7] as int;
    assert(rbag == rbag_offset(defs, i) && node == node_offset(defs, i));
    if i == 0 {
        assert(defs.take(0) =~= Seq::empty());
    }
    lemma_body_prefix(defs, i);
    assert(body_words(defs.take(i + 1)).len() == body_words(defs.take(i)).len() + def_words(
        d,
    ).len());
    if i + 1 < defs.len() {
        law_packed_def(defs, i + 1);
        let g = w.subrange(8 * (i + 1) + 1, 8 * (i + 1) + 9);
        assert(g[5] == w[8 * (i + 1) + 6]);
    } else {
        assert(defs.take(i + 1) =~= defs);
    }
    assert forall|j: int| 0 <= j < d.rbag@.len() implies w[rbag + 2 * j] == (
    #[trigger] d.rbag@[j]).0 % 0x1_0000_0000 && w[rbag + 2 * j + 1] == d.rbag@[j].0
        / 0x1_0000_0000 by {
        let sub = w.subrange(rbag, node);
        assert(sub[2 * j] == pair_words(d.rbag@)[2 * j]);
        assert(sub[2 * j + 1] == pair_words(d.rbag@)[2 * j + 1]);
    }
    assert forall|j: int| 0 <= j < d.node@.len() implies w[node + 2 * j] == (
    #[trigger] d.node@[j]).0 % 0x1_0000_0000 && w[node + 2 * j + 1] == d.node@[j].0
        / 0x1_0000_0000 by {
        let sub = w.subrange(node, node + 2 * d.node@.len());
        assert(sub[2 * j] == pair_words(d.node@)[2 * j]);
        assert(sub[2 * j + 1] == pair_words(d.node@)[2 * j + 1]);
    }
}

/// The definition that words describe, word by word: it is safe unless its first
/// word is zero; the other words are its counts, its root and its offsets; of each
/// redex and each node the low half comes first, then the high half.
pub proof fn law_def_of_words(words: Seq<u32>, name: Seq<char>, i: int)
    requires
        0 <= i,
        8 * i + 8 < words.len(),
        def_inside(words, i),
    ensures
        ({
            let d = def_at(words, name, i);
            let rbag = words[8 * i + 6];
            let node = words[8 * i + 7];
            &&& d.name == name
            &&& d.safe <==> words[8 * i + 1] != 0
            &&& d.rbag.len() == words[8 * i + 2]
            &&& d.node.len() == words[8 * i + 3]
            &&& d.vars == words[8 * i + 4]
            &&& d.root.0 == words[8 * i + 5]
            &&& rbag + 2 * d.rbag.len() <= words.len()
            &&& node + 2 * d.node.len() <= words.len()
            &&& forall|j: int|
                0 <= j < d.rbag.len() ==> (#[trigger] d.rbag[j]).0 % 0x1_0000_0000 == words[rbag
                    + 2 * j] && d.rbag[j].0 / 0x1_0000_0000 == words[rbag + 2 * j + 1]
            &&& forall|j: int|
                0 <= j < d.node.len() ==> (#[trigger] d.node[j]).0 % 0x1_0000_0000 == words[node
                    + 2 * j] && d.node[j].0 / 0x1_0000_0000 == words[node + 2 * j + 1]
        }),
{
}

/// The redexes that header `i` speaks of are inside the words.
pub open spec fn redexes_fit(words: Seq<u32>, i: int) -> bool {
    words[8 * i + 6] + words[8 * i + 2] + words[8 * i + 2] <= words.len()
}

/// The nodes that header `i` speaks of are inside the words.
pub open spec fn nodes_fit(words: Seq<u32>, i: int) -> bool {
    words[8 * i + 7] + words[8 * i + 3] + words[8 * i + 3] <= words.len()
}

/// Words are those of a book exactly where their first word counts the names,
/// there are eight words for each, and the pairs of each definition are inside.
pub proof fn law_images(words: Seq<u32>, names: Seq<String>)
    ensures
        is_image(words, names) <==> {
            &&& 8 * names.len() < words.len()
            &&& words[0] == names.len()
            &&& forall|i: int|
                0 <= i < names.len() ==> #[trigger] redexes_fit(words, i)
            &&& forall|i: int|
                0 <= i < names.len() ==> #[trigger] nodes_fit(words, i)
        },
{
    assert forall|i: int| #[trigger] def_inside(words, i) <==> redexes_fit(words, i) && nodes_fit(
        words,
        i,
    ) by {}
    if forall|i: int| 0 <= i < names.len() ==> #[trigger] def_inside(words, i) {
        assert forall|i: int| 0 <= i < names.len() implies #[trigger] redexes_fit(words, i) by {
            assert(def_inside(words, i));
        }
        assert forall|i: int| 0 <= i < names.len() implies #[trigger] nodes_fit(words, i) by {
            assert(def_inside(words, i));
        }
    } else {
        let i = choose|i: int| 0 <= i < names.len() && !#[trigger] def_inside(words, i);
        assert(!redexes_fit(words, i) || !nodes_fit(words, i));
    }
}

/// How many words a book takes: one for the count, and for each definition eight, two
/// for each redex and two for each node.
pub proof fn law_packed_size(defs: Seq<Def>, def: Def)
    ensures
        packed_size(Seq::empty()) == 1,
        packed_size(defs.push(def)) == packed_size(defs) + 8 + 2 * def.rbag@.len() + 2
            * def.node@.len(),
{
    assert(defs.push(def).drop_last() =~= defs);
    assert(body_words(Seq::<Def>::empty()).len() == 0);
}

} // verus!
