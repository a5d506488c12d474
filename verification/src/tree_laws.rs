//! What holds of the text of numbers and trees: they can be read from it.
use vstd::prelude::*;
use crate::hvm;
use crate::reading::{digit_value, is_numeral, lacks, law_dec_value, law_hex_upper_value, law_signed_value, lemma_pow16, numeral_value};
use crate::readback::{answer, answers, numb_floats, numb_text, op_text, shown, sym_text, Tree, TreeModel};
use crate::text::hex_upper;

verus! {

/// The code of the operation that has this sign.
pub open spec fn op_code(sign: Seq<char>) -> Option<int> {
    if sign == seq!['+'] {
        Some(4)
    } else if sign == seq!['-'] {
        Some(5)
    } else if sign == seq![':', '-'] {
        Some(6)
    } else if sign == seq!['*'] {
        Some(7)
    } else if sign == seq!['/'] {
        Some(8)
    } else if sign == seq![':', '/'] {
        Some(9)
    } else if sign == seq!['%'] {
        Some(10)
    } else if sign == seq![':', '%'] {
        Some(11)
    } else if sign == seq!['='] {
        Some(12)
    } else if sign == seq!['!'] {
        Some(13)
    } else if sign == seq!['<'] {
        Some(14)
    } else if sign == seq!['>'] {
        Some(15)
    } else if sign == seq!['&'] {
        Some(16)
    } else if sign == seq!['|'] {
        Some(17)
    } else if sign == seq!['^'] {
        Some(18)
    } else if sign == seq!['<', '<'] {
        Some(19)
    } else if sign == seq![':', '<', '<'] {
        Some(20)
    } else if sign == seq!['>', '>'] {
        Some(21)
    } else if sign == seq![':', '>', '>'] {
        Some(22)
    } else {
        None
    }
}

/// Separators of the text of a tree do not stand in `s`.
pub open spec fn unbroken(s: Seq<char>) -> bool {
    lacks(s, ' ') && lacks(s, ')') && lacks(s, '}')
}

proof fn lemma_op_text(op: nat)
    ensures
        4 <= op <= 22 ==> op_code(op_text(op)) == Some(op as int),
        !(4 <= op <= 22) ==> op_text(op) == seq!['?'],
        1 <= op_text(op).len() <= 3,
        unbroken(op_text(op)),
{
    reveal_strlit("+");
    reveal_strlit("-");
    reveal_strlit(":-");
    reveal_strlit("*");
    reveal_strlit("/");
    reveal_strlit(":/");
    reveal_strlit("%");
    reveal_strlit(":%");
    reveal_strlit("=");
    reveal_strlit("!");
    reveal_strlit("<");
    reveal_strlit(">");
    reveal_strlit("&");
    reveal_strlit("|");
    reveal_strlit("^");
    reveal_strlit("<<");
    reveal_strlit(":<<");
    reveal_strlit(">>");
    reveal_strlit(":>>");
    reveal_strlit("?");
    let s = op_text(op);
    if s.len() == 1 {
        assert(s =~= seq![s[0]]);
    } else if s.len() == 2 {
        assert(s =~= seq![s[0], s[1]]);
    } else {
        assert(s =~= seq![s[0], s[1], s[2]]);
    }
    lemma_op_code(s);
}

/// What tells signs apart.
proof fn lemma_op_code(s: Seq<char>)
    ensures
        s.len() == 1 ==> op_code(s) == match s[0] {
            '+' => Some(4int),
            '-' => Some(5int),
            '*' => Some(7int),
            '/' => Some(8int),
            '%' => Some(10int),
            '=' => Some(12int),
            '!' => Some(13int),
            '<' => Some(14int),
            '>' => Some(15int),
            '&' => Some(16int),
            '|' => Some(17int),
            '^' => Some(18int),
            _ => None,
        },
        s.len() == 2 && s[0] == ':' ==> op_code(s) == match s[1] {
            '-' => Some(6int),
            '/' => Some(9int),
            '%' => Some(11int),
            _ => None,
        },
        s.len() == 2 && s[0] == '<' && s[1] == '<' ==> op_code(s) == Some(19int),
        s.len() == 2 && s[0] == '>' && s[1] == '>' ==> op_code(s) == Some(21int),
        s.len() == 3 && s[0] == ':' && s[1] == '<' && s[2] == '<' ==> op_code(s) == Some(20int),
        s.len() == 3 && s[0] == ':' && s[1] == '>' && s[2] == '>' ==> op_code(s) == Some(22int),
{
    if s.len() == 1 {
        let c = s[0];
        assert(s =~= seq![c]);
        assert forall|d: char| (s == #[trigger] seq![d]) <==> c == d by {
            assert(seq![d][0] == d);
        }
        lemma_lengths(s);
    } else if s.len() == 2 {
        assert(s =~= seq![s[0], s[1]]);
        assert forall|a: char, b: char| (s == #[trigger] seq![a, b]) <==> s[0] == a && s[1] == b by {
            assert(seq![a, b][0] == a && seq![a, b][1] == b);
        }
        lemma_lengths(s);
    } else if s.len() == 3 {
        assert(s =~= seq![s[0], s[1], s[2]]);
        assert forall|a: char, b: char, c: char|
            (s == #[trigger] seq![a, b, c]) <==> s[0] == a && s[1] == b && s[2] == c by {
            assert(seq![a, b, c][0] == a && seq![a, b, c][1] == b && seq![a, b, c][2] == c);
        }
        lemma_lengths(s);
    }
}

proof fn lemma_lengths(s: Seq<char>)
    ensures
        s.len() != 1 ==> forall|a: char| s != #[trigger] seq![a],
        s.len() != 2 ==> forall|a: char, b: char| s != #[trigger] seq![a, b],
        s.len() != 3 ==> forall|a: char, b: char, c: char| s != #[trigger] seq![a, b, c],
{
    assert forall|a: char| (#[trigger] seq![a]).len() == 1 by {}
    assert forall|a: char, b: char| (#[trigger] seq![a, b]).len() == 2 by {}
    assert forall|a: char, b: char, c: char| (#[trigger] seq![a, b, c]).len() == 3 by {}
}

/// The 24 bits of a value above its five bits of type.
pub open spec fn low24(n: u32) -> int {
    (n / 32) as int % 0x100_0000
}

/// The number holds a binary32 number, of which it has the highest 24 bits, that is
/// finite: not all of its eight bits of exponent are ones.
pub open spec fn is_finite_float(n: u32) -> bool {
    n % 32 == 3 && low24(n) / 0x8000 % 256 != 255
}

/// The text of an unsigned number is its numeral in base ten, without a sign.
pub proof fn law_unsigned_text(n: u32, decimals: Seq<Seq<char>>)
    requires
        n % 32 == 1,
    ensures
        is_numeral(numb_text(hvm::Numb(n), decimals), 10),
        numeral_value(numb_text(hvm::Numb(n), decimals), 10) == n / 32,
        numb_text(hvm::Numb(n), decimals).len() > 1 ==> numb_text(hvm::Numb(n), decimals)[0] != '0',
{
    law_dec_value((n / 32) as nat);
}

/// The text of a signed number is a sign and its numeral in base ten. The highest of
/// its 24 bits counts negatively.
pub proof fn law_signed_text(n: u32, decimals: Seq<Seq<char>>)
    requires
        n % 32 == 2,
    ensures
        ({
            let text = numb_text(hvm::Numb(n), decimals);
            let low = low24(n);
            &&& text.len() > 1
            &&& is_numeral(text.skip(1), 10)
            &&& low < 0x80_0000 ==> text[0] == '+' && numeral_value(text.skip(1), 10) == low
            &&& low >= 0x80_0000 ==> text[0] == '-' && numeral_value(text.skip(1), 10) == 0x100_0000
                - low
        }),
{
    law_signed_value(hvm::Numb(n).i24());
}

/// The text of a binary32 number is what is given for it, where it is finite; its
/// bits are the 24 bits of the number and eight zeros. Of the others, those with a
/// zero fraction are infinite, with their sign.
pub proof fn law_float_text(n: u32, decimals: Seq<Seq<char>>)
    requires
        n % 32 == 3,
    ensures
        is_finite_float(n) ==> numb_floats(hvm::Numb(n)) == seq![(low24(n) * 256) as u32]
            && numb_text(hvm::Numb(n), decimals) == decimals[0],
        !is_finite_float(n) ==> numb_floats(hvm::Numb(n)).len() == 0,
        !is_finite_float(n) && low24(n) % 0x8000 != 0 ==> numb_text(hvm::Numb(n), decimals)
            == "+NaN"@,
        !is_finite_float(n) && low24(n) % 0x8000 == 0 && low24(n) < 0x80_0000 ==> numb_text(
            hvm::Numb(n),
            decimals,
        ) == "+inf"@,
        !is_finite_float(n) && low24(n) % 0x8000 == 0 && low24(n) >= 0x80_0000 ==> numb_text(
            hvm::Numb(n),
            decimals,
        ) == "-inf"@,
{
    let bits = hvm::Numb(n).f24_bits();
    let low = low24(n);
    assert(bits == low * 256);
    assert(bits as int / 0x80_0000 == low / 0x8000);
    assert(bits as int % 0x80_0000 == (low % 0x8000) * 256);
}

/// The text of a symbol is a name in brackets: that of a number type or the sign of
/// an operation; a question mark where there is none.
pub proof fn law_symbol_text(n: u32, decimals: Seq<Seq<char>>)
    requires
        n % 32 == 0,
    ensures
        ({
            let text = numb_text(hvm::Numb(n), decimals);
            let name = text.subrange(1, text.len() - 1);
            let sym = n / 32 % 256;
            &&& text.len() > 2
            &&& text[0] == '['
            &&& text.last() == ']'
            &&& numb_floats(hvm::Numb(n)).len() == 0
            &&& sym == 1 ==> name == seq!['u', '2', '4']
            &&& sym == 2 ==> name == seq!['i', '2', '4']
            &&& sym == 3 ==> name == seq!['f', '2', '4']
            &&& 4 <= sym <= 22 ==> op_code(name) == Some(sym as int)
            &&& sym == 0 || sym > 22 ==> name == seq!['?']
        }),
{
    let sym = (n / 32 % 256) as nat;
    let text = numb_text(hvm::Numb(n), decimals);
    lemma_op_text(sym);
    reveal_strlit("[");
    reveal_strlit("]");
    reveal_strlit("u24");
    reveal_strlit("i24");
    reveal_strlit("f24");
    assert(hvm::Numb(n).sym() == sym);
    assert(text.subrange(1, text.len() - 1) =~= sym_text(sym));
    assert("u24"@ =~= seq!['u', '2', '4']);
    assert("i24"@ =~= seq!['i', '2', '4']);
    assert("f24"@ =~= seq!['f', '2', '4']);
}

/// The text of an operation with a value: in brackets, the sign of the operation, or
/// a question mark, then `0x` and the value as seven digits in base sixteen.
pub proof fn law_operation_text(n: u32, decimals: Seq<Seq<char>>)
    requires
        n % 32 >= 4,
    ensures
        ({
            let text = numb_text(hvm::Numb(n), decimals);
            let len = text.len();
            let sign = text.subrange(1, len - 10);
            let digits = text.subrange(len - 8, len - 1);
            &&& len > 11
            &&& text[0] == '['
            &&& text.last() == ']'
            &&& text[len - 10] == '0'
            &&& text[len - 9] == 'x'
            &&& numb_floats(hvm::Numb(n)).len() == 0
            &&& n % 32 <= 22 ==> op_code(sign) == Some((n % 32) as int)
            &&& n % 32 > 22 ==> sign == seq!['?']
            &&& is_numeral(digits, 16)
            &&& numeral_value(digits, 16) == n / 32
        }),
{
    let text = numb_text(hvm::Numb(n), decimals);
    let len = text.len();
    lemma_op_text((n % 32) as nat);
    lemma_pow16();
    law_hex_upper_value((n / 32) as nat, 7);
    reveal_strlit("[");
    reveal_strlit("0x");
    reveal_strlit("]");
    assert(text.subrange(1, len - 10) =~= op_text((n % 32) as nat));
    assert(text.subrange(len - 8, len - 1) =~= hex_upper((n / 32) as nat, 7));
}

/// What stands in the text of a tree: a word, or a pair of such texts in brackets of
/// one of four kinds.
pub enum Shape {
    Word { text: Seq<char> },
    Con { fst: Box<Shape>, snd: Box<Shape> },
    Dup { fst: Box<Shape>, snd: Box<Shape> },
    Opr { fst: Box<Shape>, snd: Box<Shape> },
    Swi { fst: Box<Shape>, snd: Box<Shape> },
}

/// How many characters of `s` are before the first blank or closing bracket.
pub open spec fn word_len(s: Seq<char>) -> nat
    decreases s.len(),
{
    if s.len() == 0 || s[0] == ' ' || s[0] == ')' || s[0] == '}' {
        0
    } else {
        1 + word_len(s.skip(1))
    }
}

/// Reads what stands at the start of `s`, at most `depth` brackets deep: round
/// brackets are a constructor, curly ones a duplicator, round ones behind a dollar
/// sign an operator, round ones behind a question mark a switch; anything else is a
/// word. What is left of `s` is handed back too.
pub open spec fn parse(s: Seq<char>, depth: nat) -> Option<(Shape, Seq<char>)>
    decreases depth, 0nat,
{
    if s.len() == 0 {
        None
    } else if s[0] == '(' {
        if depth == 0 {
            None
        } else {
            match parse_pair(s.skip(1), ')', (depth - 1) as nat) {
                Some((a, b, rest)) => Some((Shape::Con { fst: Box::new(a), snd: Box::new(b) }, rest)),
                None => None,
            }
        }
    } else if s[0] == '{' {
        if depth == 0 {
            None
        } else {
            match parse_pair(s.skip(1), '}', (depth - 1) as nat) {
                Some((a, b, rest)) => Some((Shape::Dup { fst: Box::new(a), snd: Box::new(b) }, rest)),
                None => None,
            }
        }
    } else if s[0] == '$' && s.len() > 1 && s[1] == '(' {
        if depth == 0 {
            None
        } else {
            match parse_pair(s.skip(2), ')', (depth - 1) as nat) {
                Some((a, b, rest)) => Some((Shape::Opr { fst: Box::new(a), snd: Box::new(b) }, rest)),
                None => None,
            }
        }
    } else if s[0] == '?' && s.len() > 1 && s[1] == '(' {
        if depth == 0 {
            None
        } else {
            match parse_pair(s.skip(2), ')', (depth - 1) as nat) {
                Some((a, b, rest)) => Some((Shape::Swi { fst: Box::new(a), snd: Box::new(b) }, rest)),
                None => None,
            }
        }
    } else if word_len(s) == 0 {
        None
    } else {
        Some((Shape::Word { text: s.take(word_len(s) as int) }, s.skip(word_len(s) as int)))
    }
}

/// Reads two texts with a blank between them, and the closing bracket.
pub open spec fn parse_pair(s: Seq<char>, close: char, depth: nat) -> Option<
    (Shape, Shape, Seq<char>),
>
    decreases depth, 1nat,
{
    match parse(s, depth) {
        Some((a, r)) => if r.len() > 0 && r[0] == ' ' {
            match parse(r.skip(1), depth) {
                Some((b, q)) => if q.len() > 0 && q[0] == close {
                    Some((a, b, q.skip(1)))
                } else {
                    None
                },
                None => None,
            }
        } else {
            None
        },
        None => None,
    }
}

/// `s` is a word: it is not empty, no blank and no closing bracket is in it, and it
/// does not start like a bracket.
pub open spec fn is_word(s: Seq<char>) -> bool {
    &&& s.len() > 0
    &&& unbroken(s)
    &&& s[0] != '('
    &&& s[0] != '{'
    &&& !((s[0] == '$' || s[0] == '?') && s.len() > 1 && s[1] == '(')
}

/// How many finite binary32 numbers there are in a tree.
pub open spec fn float_count(tree: TreeModel) -> nat
    decreases tree,
{
    match tree {
        TreeModel::Num { val } => if is_finite_float(val) {
            1
        } else {
            0
        },
        TreeModel::Con { fst, snd } => float_count(*fst) + float_count(*snd),
        TreeModel::Dup { fst, snd } => float_count(*fst) + float_count(*snd),
        TreeModel::Opr { fst, snd } => float_count(*fst) + float_count(*snd),
        TreeModel::Swi { fst, snd } => float_count(*fst) + float_count(*snd),
        _ => 0,
    }
}

/// How deep a tree is.
pub open spec fn height(tree: TreeModel) -> nat
    decreases tree,
{
    match tree {
        TreeModel::Con { fst, snd } => 1 + deeper(height(*fst), height(*snd)),
        TreeModel::Dup { fst, snd } => 1 + deeper(height(*fst), height(*snd)),
        TreeModel::Opr { fst, snd } => 1 + deeper(height(*fst), height(*snd)),
        TreeModel::Swi { fst, snd } => 1 + deeper(height(*fst), height(*snd)),
        _ => 0,
    }
}

/// The larger of two depths.
pub open spec fn deeper(a: nat, b: nat) -> nat {
    if a >= b {
        a
    } else {
        b
    }
}

/// What has to be read from the text of a tree: the same pairs, each with its first
/// subtree first, of the same kinds, and at the leaves the names, a star for an
/// eraser, and the texts of the numbers. `decimals` holds the texts of the finite
/// binary32 numbers, from left to right.
pub open spec fn shape_of(tree: TreeModel, decimals: Seq<Seq<char>>) -> Shape
    decreases tree,
{
    match tree {
        TreeModel::Var { nam } => Shape::Word { text: nam },
        TreeModel::Ref { nam } => Shape::Word { text: seq!['@'] + nam },
        TreeModel::Era => Shape::Word { text: seq!['*'] },
        TreeModel::Num { val } => Shape::Word { text: numb_text(hvm::Numb(val), decimals) },
        TreeModel::Con { fst, snd } => Shape::Con {
            fst: Box::new(shape_of(*fst, decimals.take(float_count(*fst) as int))),
            snd: Box::new(shape_of(*snd, decimals.skip(float_count(*fst) as int))),
        },
        TreeModel::Dup { fst, snd } => Shape::Dup {
            fst: Box::new(shape_of(*fst, decimals.take(float_count(*fst) as int))),
            snd: Box::new(shape_of(*snd, decimals.skip(float_count(*fst) as int))),
        },
        TreeModel::Opr { fst, snd } => Shape::Opr {
            fst: Box::new(shape_of(*fst, decimals.take(float_count(*fst) as int))),
            snd: Box::new(shape_of(*snd, decimals.skip(float_count(*fst) as int))),
        },
        TreeModel::Swi { fst, snd } => Shape::Swi {
            fst: Box::new(shape_of(*fst, decimals.take(float_count(*fst) as int))),
            snd: Box::new(shape_of(*snd, decimals.skip(float_count(*fst) as int))),
        },
    }
}

/// The names in a tree are words, and there is a word for each finite binary32
/// number in it.
pub open spec fn named_by_words(tree: TreeModel, decimals: Seq<Seq<char>>) -> bool {
    &&& decimals.len() == float_count(tree)
    &&& forall|i: int| 0 <= i < decimals.len() ==> is_word(#[trigger] decimals[i])
    &&& has_words(tree)
}

/// The names in a tree are words.
pub open spec fn has_words(tree: TreeModel) -> bool
    decreases tree,
{
    match tree {
        TreeModel::Var { nam } => is_word(nam),
        TreeModel::Ref { nam } => unbroken(nam),
        TreeModel::Con { fst, snd } => has_words(*fst) && has_words(*snd),
        TreeModel::Dup { fst, snd } => has_words(*fst) && has_words(*snd),
        TreeModel::Opr { fst, snd } => has_words(*fst) && has_words(*snd),
        TreeModel::Swi { fst, snd } => has_words(*fst) && has_words(*snd),
        _ => true,
    }
}

/// A word cannot go on with `rest`.
spec fn cut_off(rest: Seq<char>) -> bool {
    rest.len() > 0 ==> rest[0] == ' ' || rest[0] == ')' || rest[0] == '}'
}

proof fn lemma_word_len(w: Seq<char>, rest: Seq<char>)
    requires
        unbroken(w),
        cut_off(rest),
    ensures
        word_len(w + rest) == w.len(),
    decreases w.len(),
{
    let s = w + rest;
    if w.len() == 0 {
        assert(s =~= rest);
    } else {
        assert(w[0] != ' ' && w[0] != ')' && w[0] != '}');
        let t = w.skip(1);
        assert(s.skip(1) =~= t + rest);
        assert forall|i: int| 0 <= i < t.len() implies #[trigger] t[i] != ' ' && t[i] != ')' && t[i]
            != '}' by {
            assert(w[i + 1] != ' ' && w[i + 1] != ')' && w[i + 1] != '}');
        }
        lemma_word_len(t, rest);
    }
}

proof fn lemma_parse_word(w: Seq<char>, rest: Seq<char>, depth: nat)
    requires
        is_word(w),
        cut_off(rest),
    ensures
        parse(w + rest, depth) == Some((Shape::Word { text: w }, rest)),
{
    let s = w + rest;
    lemma_word_len(w, rest);
    assert(s[0] == w[0]);
    if s.len() > 1 && w.len() > 1 {
        assert(s[1] == w[1]);
    }
    assert(s.take(w.len() as int) =~= w);
    assert(s.skip(w.len() as int) =~= rest);
}

proof fn lemma_float_count(tree: TreeModel)
    ensures
        tree.floats().len() == float_count(tree),
    decreases tree,
{
    match tree {
        TreeModel::Num { val } => {
            if val % 32 == 3 {
                law_float_text(val, seq![]);
            }
        },
        TreeModel::Con { fst, snd } => {
            lemma_float_count(*fst);
            lemma_float_count(*snd);
        },
        TreeModel::Dup { fst, snd } => {
            lemma_float_count(*fst);
            lemma_float_count(*snd);
        },
        TreeModel::Opr { fst, snd } => {
            lemma_float_count(*fst);
            lemma_float_count(*snd);
        },
        TreeModel::Swi { fst, snd } => {
            lemma_float_count(*fst);
            lemma_float_count(*snd);
        },
        _ => {},
    }
}

proof fn lemma_digits_unbroken(s: Seq<char>, base: int)
    requires
        is_numeral(s, base),
    ensures
        unbroken(s),
{
    assert forall|i: int| 0 <= i < s.len() implies #[trigger] s[i] != ' ' && s[i] != ')' && s[i]
        != '}' by {
        assert(0 <= digit_value(s[i]) < base);
    }
}

/// The text of a number is a word.
proof fn lemma_number_word(n: u32, decimals: Seq<Seq<char>>)
    requires
        is_finite_float(n) ==> decimals.len() == 1 && is_word(decimals[0]),
    ensures
        is_word(numb_text(hvm::Numb(n), decimals)),
{
    let text = numb_text(hvm::Numb(n), decimals);
    if n % 32 == 1 {
        law_unsigned_text(n, decimals);
        lemma_digits_unbroken(text, 10);
        assert(0 <= digit_value(text[0]) < 10);
    } else if n % 32 == 2 {
        law_signed_text(n, decimals);
        let digits = text.skip(1);
        lemma_digits_unbroken(digits, 10);
        assert forall|i: int| 0 <= i < text.len() implies #[trigger] text[i] != ' ' && text[i]
            != ')' && text[i] != '}' by {
            if i > 0 {
                assert(text[i] == digits[i - 1]);
            }
        }
    } else if n % 32 == 3 {
        law_float_text(n, decimals);
        reveal_strlit("+NaN");
        reveal_strlit("+inf");
        reveal_strlit("-inf");
    } else if n % 32 == 0 {
        let sym = (n / 32 % 256) as nat;
        lemma_op_text(sym);
        reveal_strlit("[");
        reveal_strlit("]");
        reveal_strlit("u24");
        reveal_strlit("i24");
        reveal_strlit("f24");
    } else {
        lemma_op_text((n % 32) as nat);
        lemma_pow16();
        law_hex_upper_value((n / 32) as nat, 7);
        lemma_digits_unbroken(hex_upper((n / 32) as nat, 7), 16);
        reveal_strlit("[");
        reveal_strlit("0x");
        reveal_strlit("]");
    }
}

proof fn lemma_parse_pair(
    a: Seq<char>,
    b: Seq<char>,
    close: char,
    rest: Seq<char>,
    depth: nat,
    x: Shape,
    y: Shape,
)
    requires
        parse(a + (seq![' '] + b + seq![close] + rest), depth) == Some(
            (x, seq![' '] + b + seq![close] + rest),
        ),
        parse(b + (seq![close] + rest), depth) == Some((y, seq![close] + rest)),
    ensures
        parse_pair(a + seq![' '] + b + seq![close] + rest, close, depth) == Some((x, y, rest)),
{
    let r = seq![' '] + b + seq![close] + rest;
    assert(a + seq![' '] + b + seq![close] + rest =~= a + r);
    assert(r.skip(1) =~= b + (seq![close] + rest));
    assert((seq![close] + rest).skip(1) =~= rest);
}

/// The text of a tree is read as that tree, whatever may follow it.
proof fn lemma_text_parsed(
    tree: TreeModel,
    decimals: Seq<Seq<char>>,
    rest: Seq<char>,
    depth: nat,
)
    requires
        named_by_words(tree, decimals),
        cut_off(rest),
        depth >= height(tree),
    ensures
        parse(tree.text(decimals) + rest, depth) == Some((shape_of(tree, decimals), rest)),
    decreases height(tree), 0nat,
{
    reveal_strlit("@");
    reveal_strlit("*");
    reveal_strlit("(");
    reveal_strlit("{");
    reveal_strlit("$(");
    reveal_strlit("?(");
    reveal_strlit(" ");
    reveal_strlit(")");
    reveal_strlit("}");
    assert(")"@ =~= seq![')']);
    assert("}"@ =~= seq!['}']);
    let text = tree.text(decimals);
    match tree {
        TreeModel::Var { nam } => {
            lemma_parse_word(nam, rest, depth);
        },
        TreeModel::Ref { nam } => {
            assert("@"@ =~= seq!['@']);
            lemma_parse_word(seq!['@'] + nam, rest, depth);
        },
        TreeModel::Era => {
            assert("*"@ =~= seq!['*']);
            lemma_parse_word(seq!['*'], rest, depth);
        },
        TreeModel::Num { val } => {
            lemma_number_word(val, decimals);
            lemma_parse_word(text, rest, depth);
        },
        TreeModel::Con { fst, snd } => {
            lemma_node_parsed(*fst, *snd, decimals, ')', rest, (depth - 1) as nat);
            lemma_bracket("("@, *fst, *snd, decimals, ")"@, ')', rest);
        },
        TreeModel::Dup { fst, snd } => {
            lemma_node_parsed(*fst, *snd, decimals, '}', rest, (depth - 1) as nat);
            lemma_bracket("{"@, *fst, *snd, decimals, "}"@, '}', rest);
        },
        TreeModel::Opr { fst, snd } => {
            lemma_node_parsed(*fst, *snd, decimals, ')', rest, (depth - 1) as nat);
            lemma_bracket("$("@, *fst, *snd, decimals, ")"@, ')', rest);
        },
        TreeModel::Swi { fst, snd } => {
            lemma_node_parsed(*fst, *snd, decimals, ')', rest, (depth - 1) as nat);
            lemma_bracket("?("@, *fst, *snd, decimals, ")"@, ')', rest);
        },
    }
}

/// The text of a node behind its opening bracket.
spec fn inside(fst: TreeModel, snd: TreeModel, decimals: Seq<Seq<char>>, close: char) -> Seq<char> {
    fst.text(decimals.take(float_count(fst) as int)) + seq![' '] + snd.text(
        decimals.skip(float_count(fst) as int),
    ) + seq![close]
}

proof fn lemma_bracket(
    open: Seq<char>,
    fst: TreeModel,
    snd: TreeModel,
    decimals: Seq<Seq<char>>,
    close: Seq<char>,
    c: char,
    rest: Seq<char>,
)
    requires
        close == seq![c],
    ensures
        ({
            let text = open + fst.text(decimals.take(fst.floats().len() as int)) + " "@ + snd.text(
                decimals.skip(fst.floats().len() as int),
            ) + close;
            &&& (text + rest).len() >= open.len()
            &&& forall|i: int| 0 <= i < open.len() ==> (text + rest)[i] == open[i]
            &&& (text + rest).skip(open.len() as int) == inside(fst, snd, decimals, c) + rest
        }),
{
    lemma_float_count(fst);
    reveal_strlit(" ");
    assert(" "@ =~= seq![' ']);
    let a = fst.text(decimals.take(float_count(fst) as int));
    let b = snd.text(decimals.skip(float_count(fst) as int));
    let text = open + a + " "@ + b + close;
    assert((text + rest).skip(open.len() as int) =~= a + seq![' '] + b + seq![c] + rest);
}

proof fn lemma_node_parsed(
    fst: TreeModel,
    snd: TreeModel,
    decimals: Seq<Seq<char>>,
    close: char,
    rest: Seq<char>,
    depth: nat,
)
    requires
        close == ')' || close == '}',
        decimals.len() == float_count(fst) + float_count(snd),
        forall|i: int| 0 <= i < decimals.len() ==> is_word(#[trigger] decimals[i]),
        has_words(fst),
        has_words(snd),
        depth >= height(fst),
        depth >= height(snd),
    ensures
        parse_pair(inside(fst, snd, decimals, close) + rest, close, depth) == Some(
            (
                shape_of(fst, decimals.take(float_count(fst) as int)),
                shape_of(snd, decimals.skip(float_count(fst) as int)),
                rest,
            ),
        ),
    decreases deeper(height(fst), height(snd)), 1nat,
{
    let n = float_count(fst) as int;
    let da = decimals.take(n);
    let db = decimals.skip(n);
    let a = fst.text(da);
    let b = snd.text(db);
    assert forall|i: int| 0 <= i < da.len() implies is_word(#[trigger] da[i]) by {
        assert(is_word(decimals[i]));
    }
    assert forall|i: int| 0 <= i < db.len() implies is_word(#[trigger] db[i]) by {
        assert(is_word(decimals[n + i]));
    }
    lemma_text_parsed(fst, da, seq![' '] + b + seq![close] + rest, depth);
    lemma_text_parsed(snd, db, seq![close] + rest, depth);
    lemma_parse_pair(a, b, close, rest, depth, shape_of(fst, da), shape_of(snd, db));
}

/// A tree can be read from its text: reading it gives back the same pairs, each with
/// its first subtree first and its second behind it, of the same kinds, and the same
/// words at the leaves.
pub proof fn law_text_read_back(tree: TreeModel, decimals: Seq<Seq<char>>)
    requires
        named_by_words(tree, decimals),
    ensures
        parse(tree.text(decimals), height(tree)) == Some(
            (shape_of(tree, decimals), Seq::<char>::empty()),
        ),
{
    let e = Seq::<char>::empty();
    lemma_text_parsed(tree, decimals, e, height(tree));
    assert(tree.text(decimals) + e =~= tree.text(decimals));
}

/// Trees with one text have one shape: the same pairs, in the same order, of the
/// same kinds, with the same words at the leaves.
pub proof fn law_texts_tell_trees(
    a: TreeModel,
    b: TreeModel,
    da: Seq<Seq<char>>,
    db: Seq<Seq<char>>,
)
    requires
        named_by_words(a, da),
        named_by_words(b, db),
        a.text(da) == b.text(db),
    ensures
        shape_of(a, da) == shape_of(b, db),
{
    let e = Seq::<char>::empty();
    let depth = deeper(height(a), height(b));
    lemma_text_parsed(a, da, e, depth);
    lemma_text_parsed(b, db, e, depth);
}

/// In the text of a node the texts of its subtrees stand in order, the first behind
/// the opening bracket, the second behind a blank, before the closing bracket.
pub proof fn law_node_text(fst: TreeModel, snd: TreeModel, decimals: Seq<Seq<char>>)
    ensures
        ({
            let n = float_count(fst) as int;
            let a = fst.text(decimals.take(n));
            let b = snd.text(decimals.skip(n));
            let con = TreeModel::Con { fst: Box::new(fst), snd: Box::new(snd) };
            let dup = TreeModel::Dup { fst: Box::new(fst), snd: Box::new(snd) };
            let opr = TreeModel::Opr { fst: Box::new(fst), snd: Box::new(snd) };
            let swi = TreeModel::Swi { fst: Box::new(fst), snd: Box::new(snd) };
            &&& con.text(decimals) == seq!['('] + a + seq![' '] + b + seq![')']
            &&& dup.text(decimals) == seq!['{'] + a + seq![' '] + b + seq!['}']
            &&& opr.text(decimals) == seq!['$', '('] + a + seq![' '] + b + seq![')']
            &&& swi.text(decimals) == seq!['?', '('] + a + seq![' '] + b + seq![')']
        }),
{
    lemma_float_count(fst);
    reveal_strlit("(");
    reveal_strlit("{");
    reveal_strlit("$(");
    reveal_strlit("?(");
    reveal_strlit(" ");
    reveal_strlit(")");
    reveal_strlit("}");
    assert("("@ =~= seq!['(']);
    assert("{"@ =~= seq!['{']);
    assert("$("@ =~= seq!['$', '(']);
    assert("?("@ =~= seq!['?', '(']);
    assert(" "@ =~= seq![' ']);
    assert(")"@ =~= seq![')']);
    assert("}"@ =~= seq!['}']);
}

/// The numbers that are asked for are the finite binary32 numbers of the tree, from
/// left to right: those of the first subtree before those of the second.
pub proof fn law_floats_in_order(tree: TreeModel)
    ensures
        tree.floats().len() == float_count(tree),
        match tree {
            TreeModel::Num { val } => is_finite_float(val) ==> tree.floats()[0] == low24(val) * 256,
            TreeModel::Con { fst, snd } => tree.floats() == fst.floats() + snd.floats(),
            TreeModel::Dup { fst, snd } => tree.floats() == fst.floats() + snd.floats(),
            TreeModel::Opr { fst, snd } => tree.floats() == fst.floats() + snd.floats(),
            TreeModel::Swi { fst, snd } => tree.floats() == fst.floats() + snd.floats(),
            _ => tree.floats().len() == 0,
        },
{
    lemma_float_count(tree);
    match tree {
        TreeModel::Num { val } => {
            if val % 32 == 3 {
                law_float_text(val, seq![]);
            }
        },
        _ => {},
    }
}

/// The text of a leaf: a variable by its name, a reference by an at sign and its name,
/// an eraser by an asterisk, whatever the names are.
pub proof fn law_leaf_text(nam: Seq<char>, val: u32, decimals: Seq<Seq<char>>)
    ensures
        (TreeModel::Var { nam }).text(decimals) == nam,
        (TreeModel::Ref { nam }).text(decimals) == seq!['@'] + nam,
        TreeModel::Era.text(decimals) == seq!['*'],
        (TreeModel::Num { val }).text(decimals) == numb_text(hvm::Numb(val), decimals),
{
    reveal_strlit("@");
    reveal_strlit("*");
    assert("@"@ =~= seq!['@']);
    assert("*"@ =~= seq!['*']);
}

/// What a tree holds is what its parts hold, each in its place.
pub proof fn law_tree_holds(tree: Tree)
    ensures
        match tree {
            Tree::Var { nam } => tree.model() == (TreeModel::Var { nam: nam@ }),
            Tree::Ref { nam } => tree.model() == (TreeModel::Ref { nam: nam@ }),
            Tree::Era => tree.model() == TreeModel::Era,
            Tree::Num { val } => tree.model() == (TreeModel::Num { val: val.0 }),
            Tree::Con { fst, snd } => tree.model() matches TreeModel::Con { fst: a, snd: b } && *a
                == fst.model() && *b == snd.model(),
            Tree::Dup { fst, snd } => tree.model() matches TreeModel::Dup { fst: a, snd: b } && *a
                == fst.model() && *b == snd.model(),
            Tree::Opr { fst, snd } => tree.model() matches TreeModel::Opr { fst: a, snd: b } && *a
                == fst.model() && *b == snd.model(),
            Tree::Swi { fst, snd } => tree.model() matches TreeModel::Swi { fst: a, snd: b } && *a
                == fst.model() && *b == snd.model(),
        },
{
}

/// The decimals in the text of a tree are those that `f` gave for its finite binary32
/// numbers, one for each, in order.
pub proof fn law_decimals_asked_for<F: Fn(u32) -> String>(tree: TreeModel, f: F, s: Seq<char>)
    requires
        shown(tree, f, s),
    ensures
        exists|given: Seq<String>|
            #![trigger given.len()]
            given.len() == tree.floats().len() && (forall|i: int|
                0 <= i < given.len() ==> f.ensures((tree.floats()[i],), #[trigger] given[i])) && s
                == tree.text(Seq::new(given.len(), |i: int| given[i]@)),
{
    let floats = tree.floats();
    let decimals = choose|d: Seq<Seq<char>>| #[trigger]
        answers(f, floats, d) && s == tree.text(d);
    let given = Seq::new(
        floats.len(),
        |i: int| choose|r: String| #[trigger] f.ensures((floats[i],), r) && r@ == decimals[i],
    );
    assert forall|i: int| 0 <= i < given.len() implies f.ensures((floats[i],), #[trigger] given[i])
        && given[i]@ == decimals[i] by {
        assert(answer(f, floats[i], decimals[i]));
        let r = choose|r: String| #[trigger] f.ensures((floats[i],), r) && r@ == decimals[i];
        assert(given[i] == r);
    }
    assert(Seq::new(given.len(), |i: int| given[i]@) =~= decimals);
}

} // verus!
