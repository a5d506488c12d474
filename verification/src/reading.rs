//! How texts are read: numerals, pieces and occurrences, and what reading gives
//! back of the texts that are written.
use vstd::arithmetic::power::pow;
use vstd::prelude::*;
use crate::text::{ascii_lower, dec, digit_char, digits_value, find, hex, hex_upper, is_white, lemma_find_from, lower_char, occurs_at, parsed, parsed_i32, plus_dec, replace_all, replace_from, signed_dec, trimmed, trimmed_end, trimmed_start};

verus! {

/// The number that a character stands for as a digit; it is negative where the
/// character is no digit.
pub open spec fn digit_value(c: char) -> int {
    if '0' <= c <= '9' {
        c as int - '0' as int
    } else if 'a' <= c <= 'f' {
        c as int - 'a' as int + 10
    } else if 'A' <= c <= 'F' {
        c as int - 'A' as int + 10
    } else {
        -1
    }
}

/// `s` is a numeral in this base.
pub open spec fn is_numeral(s: Seq<char>, base: int) -> bool {
    s.len() > 0 && forall|i: int| 0 <= i < s.len() ==> 0 <= digit_value(#[trigger] s[i]) < base
}

/// The number that a numeral in this base stands for.
pub open spec fn numeral_value(s: Seq<char>, base: int) -> int
    decreases s.len(),
{
    if s.len() == 0 {
        0
    } else {
        base * numeral_value(s.drop_last(), base) + digit_value(s.last())
    }
}

/// `s` is a numeral in base ten that stands for `n`.
pub open spec fn decimal_of(s: Seq<char>, n: int) -> bool {
    is_numeral(s, 10) && numeral_value(s, 10) == n
}

/// The numeral of a number in base ten is read as that number, and it has no
/// digit too many.
pub proof fn law_dec_value(n: nat)
    ensures
        is_numeral(dec(n), 10),
        numeral_value(dec(n), 10) == n,
        dec(n).len() > 1 ==> dec(n)[0] != '0',
    decreases n,
{
    reveal_with_fuel(numeral_value, 2);
    assert(digit_value(digit_char(n % 10, false)) == n % 10) by {
        assert(digit_char(n % 10, false) as int == 48 + n % 10);
    }
    if n >= 10 {
        law_dec_value(n / 10);
        assert(dec(n).drop_last() =~= dec(n / 10));
        assert forall|i: int| 0 <= i < dec(n).len() implies 0 <= digit_value(#[trigger] dec(n)[i])
            < 10 by {
            if i < dec(n / 10).len() {
                assert(dec(n)[i] == dec(n / 10)[i]);
            }
        }
        if dec(n / 10).len() == 1 {
            assert(dec(n)[0] == dec(n / 10)[0]);
            assert(digit_value(dec(n / 10)[0]) == n / 10) by {
                assert(dec(n / 10).drop_last().len() == 0);
            }
        } else {
            assert(dec(n)[0] == dec(n / 10)[0]);
        }
    } else {
        assert(dec(n).drop_last().len() == 0);
        assert(n % 10 == n);
    }
}

/// The numeral of a number in base sixteen is read as that number, and it has no
/// digit too many.
pub proof fn law_hex_value(n: nat)
    ensures
        is_numeral(hex(n), 16),
        numeral_value(hex(n), 16) == n,
        hex(n).len() > 1 ==> hex(n)[0] != '0',
        forall|i: int| 0 <= i < hex(n).len() ==> !('A' <= #[trigger] hex(n)[i] <= 'Z'),
    decreases n,
{
    reveal_with_fuel(numeral_value, 2);
    let d = n % 16;
    let c = digit_char(d, false);
    assert(digit_value(c) == d && !('A' <= c <= 'Z')) by {
        assert(d < 10 ==> c as int == 48 + d);
        assert(d >= 10 ==> c as int == 87 + d);
    }
    if n >= 16 {
        law_hex_value(n / 16);
        let init = hex(n / 16);
        assert(hex(n).drop_last() =~= init);
        assert forall|i: int| 0 <= i < hex(n).len() implies 0 <= digit_value(#[trigger] hex(n)[i])
            < 16 && !('A' <= hex(n)[i] <= 'Z') by {
            if i < init.len() {
                assert(hex(n)[i] == init[i]);
            }
        }
        assert(hex(n)[0] == init[0]);
        if init.len() == 1 {
            assert(init.drop_last().len() == 0);
            assert(digit_value(init[0]) == n / 16);
        }
    } else {
        assert(hex(n).drop_last().len() == 0);
    }
}

/// The numeral of a number with so many digits in base sixteen, where they are
/// enough, is read as that number. Its letters are capital letters.
pub proof fn law_hex_upper_value(n: nat, width: nat)
    requires
        n < pow(16, width),
    ensures
        hex_upper(n, width).len() == width,
        width > 0 ==> is_numeral(hex_upper(n, width), 16),
        numeral_value(hex_upper(n, width), 16) == n,
        forall|i: int|
            0 <= i < width ==> !('a' <= #[trigger] hex_upper(n, width)[i] <= 'z'),
    decreases width,
{
    reveal(pow);
    if width > 0 {
        let m = (width - 1) as nat;
        assert(pow(16, width) == 16 * pow(16, m));
        assert(n / 16 < pow(16, m));
        law_hex_upper_value(n / 16, m);
        let d = n % 16;
        let c = digit_char(d, true);
        assert(digit_value(c) == d && !('a' <= c <= 'z')) by {
            assert(d < 10 ==> c as int == 48 + d);
            assert(d >= 10 ==> c as int == 55 + d);
        }
        let init = hex_upper(n / 16, m);
        assert(hex_upper(n, width).drop_last() =~= init);
        assert forall|i: int| 0 <= i < width implies 0 <= digit_value(
            #[trigger] hex_upper(n, width)[i],
        ) < 16 && !('a' <= hex_upper(n, width)[i] <= 'z') by {
            if i < init.len() {
                assert(hex_upper(n, width)[i] == init[i]);
            }
        }
    }
}

/// Every 32-bit word has a numeral of eight digits in base sixteen, which is read
/// as that word.
pub proof fn law_word_numeral(word: u32)
    ensures
        hex_upper(word as nat, 8).len() == 8,
        is_numeral(hex_upper(word as nat, 8), 16),
        numeral_value(hex_upper(word as nat, 8), 16) == word,
{
    lemma_pow16();
    law_hex_upper_value(word as nat, 8);
}

pub(crate) proof fn lemma_pow16()
    ensures
        pow(16, 7) == 0x1000_0000,
        pow(16, 8) == 0x1_0000_0000,
{
    reveal(pow);
    reveal_with_fuel(pow, 9);
}

/// The numeral of a signed number: a minus sign before the numeral of a negative
/// one; a plus sign before that of another one, where signs are asked for.
pub proof fn law_signed_value(n: int)
    ensures
        n < 0 ==> signed_dec(n)[0] == '-' && is_numeral(signed_dec(n).skip(1), 10)
            && numeral_value(signed_dec(n).skip(1), 10) == -n,
        n >= 0 ==> is_numeral(signed_dec(n), 10) && numeral_value(signed_dec(n), 10) == n,
        plus_dec(n).len() > 1,
        plus_dec(n)[0] == if n < 0 {
            '-'
        } else {
            '+'
        },
        is_numeral(plus_dec(n).skip(1), 10),
        numeral_value(plus_dec(n).skip(1), 10) == if n < 0 {
            -n
        } else {
            n
        },
{
    reveal_strlit("-");
    reveal_strlit("+");
    if n < 0 {
        law_dec_value((-n) as nat);
        assert(signed_dec(n).skip(1) =~= dec((-n) as nat));
        assert(plus_dec(n).skip(1) =~= dec((-n) as nat));
    } else {
        law_dec_value(n as nat);
        assert(plus_dec(n).skip(1) =~= dec(n as nat));
    }
}

/// `s` is made of decimal digits, at least one.
pub open spec fn is_decimal(s: Seq<char>) -> bool {
    s.len() > 0 && forall|i: int| 0 <= i < s.len() ==> '0' <= #[trigger] s[i] <= '9'
}

/// The value of decimal digits is that of the numeral, and so not negative.
pub(crate) proof fn lemma_digits_value(s: Seq<char>)
    requires
        forall|i: int| 0 <= i < s.len() ==> '0' <= #[trigger] s[i] <= '9',
    ensures
        digits_value(s) == numeral_value(s, 10),
        numeral_value(s, 10) >= 0,
    decreases s.len(),
{
    if s.len() > 0 {
        lemma_digits_value(s.drop_last());
        assert('0' <= s[s.len() - 1] <= '9');
    }
}

/// What a setting is read as: a decimal numeral, with or without a plus sign, is
/// its value, if that is not too large; anything else is no number.
pub proof fn law_parsed(s: Seq<char>, max: nat)
    ensures
        is_decimal(s) ==> parsed(s, max) == if numeral_value(s, 10) <= max {
            Some(numeral_value(s, 10) as nat)
        } else {
            None
        },
        is_decimal(s) ==> parsed(seq!['+'] + s, max) == parsed(s, max),
        !is_decimal(s) && !(s.len() > 0 && s[0] == '+' && is_decimal(s.skip(1))) ==> parsed(s, max)
            is None,
{
    let p = seq!['+'] + s;
    assert(p.skip(1) =~= s);
    if is_decimal(s) {
        lemma_digits_value(s);
        assert('0' <= s[0] <= '9');
    }
}

/// A number is read from its numeral.
pub proof fn law_parsed_dec(n: nat, max: nat)
    ensures
        parsed(dec(n), max) == if n <= max {
            Some(n)
        } else {
            None
        },
{
    law_dec_value(n);
    assert forall|i: int| 0 <= i < dec(n).len() implies '0' <= #[trigger] dec(n)[i] <= '9' by {
        assert(0 <= digit_value(dec(n)[i]) < 10);
    }
    law_parsed(dec(n), max);
}

/// An exit code is read from its numeral, whatever white space is around it.
pub proof fn law_exit_code_read(n: i32, a: Seq<char>, b: Seq<char>)
    requires
        forall|i: int| 0 <= i < a.len() ==> is_white(#[trigger] a[i]),
        forall|i: int| 0 <= i < b.len() ==> is_white(#[trigger] b[i]),
    ensures
        parsed_i32(trimmed(a + signed_dec(n as int) + b)) == Some(n as int),
{
    let s = signed_dec(n as int);
    law_signed_value(n as int);
    assert(!is_white(s[0]) && !is_white(s.last())) by {
        if n < 0 {
            let d = s.skip(1);
            assert(s.last() == d[d.len() - 1]);
            assert(0 <= digit_value(d[d.len() - 1]) < 10);
        } else {
            assert(0 <= digit_value(s[0]) < 10);
            assert(0 <= digit_value(s[s.len() - 1]) < 10);
        }
    }
    lemma_trim_start_exact(a, s + b);
    lemma_trim_end_exact(s, b);
    assert(a + s + b =~= a + (s + b));
    lemma_parsed_signed(n);
}

proof fn lemma_trim_start_exact(a: Seq<char>, s: Seq<char>)
    requires
        forall|i: int| 0 <= i < a.len() ==> is_white(#[trigger] a[i]),
        s.len() > 0,
        !is_white(s[0]),
    ensures
        trimmed_start(a + s) == s,
    decreases a.len(),
{
    if a.len() > 0 {
        assert(is_white(a[0]));
        assert((a + s)[0] == a[0]);
        assert((a + s).skip(1) =~= a.skip(1) + s);
        lemma_trim_start_exact(a.skip(1), s);
    } else {
        assert(a + s =~= s);
    }
}

proof fn lemma_trim_end_exact(s: Seq<char>, b: Seq<char>)
    requires
        forall|i: int| 0 <= i < b.len() ==> is_white(#[trigger] b[i]),
        s.len() > 0,
        !is_white(s.last()),
    ensures
        trimmed_end(s + b) == s,
    decreases b.len(),
{
    if b.len() > 0 {
        assert(is_white(b[b.len() - 1]));
        assert((s + b).last() == b.last());
        assert((s + b).drop_last() =~= s + b.drop_last());
        lemma_trim_end_exact(s, b.drop_last());
    } else {
        assert(s + b =~= s);
    }
}

proof fn lemma_parsed_signed(n: i32)
    ensures
        parsed_i32(signed_dec(n as int)) == Some(n as int),
{
    let s = signed_dec(n as int);
    law_signed_value(n as int);
    if n < 0 {
        let d = s.skip(1);
        assert forall|i: int| 0 <= i < d.len() implies '0' <= #[trigger] d[i] <= '9' by {
            assert(0 <= digit_value(d[i]) < 10);
        }
        lemma_digits_value(d);
    } else {
        law_parsed_dec(n as nat, 0x7fff_ffff);
        assert(0 <= digit_value(s[0]) < 10);
    }
}

/// Trimming takes white space away at both ends and nothing else, and leaves none
/// there.
pub proof fn law_trimmed(s: Seq<char>)
    ensures
        exists|a: Seq<char>, b: Seq<char>|
            s == #[trigger] (a + trimmed(s) + b) && (forall|i: int|
                0 <= i < a.len() ==> is_white(#[trigger] a[i])) && (forall|i: int|
                0 <= i < b.len() ==> is_white(#[trigger] b[i])),
        trimmed(s).len() > 0 ==> !is_white(trimmed(s)[0]) && !is_white(trimmed(s).last()),
{
    let t = trimmed_start(s);
    let a = lemma_trimmed_start(s);
    let b = lemma_trimmed_end(t);
    assert(s =~= a + trimmed(s) + b);
    if trimmed(s).len() > 0 {
        assert(trimmed(s)[0] == t[0]);
    }
}

proof fn lemma_trimmed_start(s: Seq<char>) -> (a: Seq<char>)
    ensures
        s == a + trimmed_start(s),
        forall|i: int| 0 <= i < a.len() ==> is_white(#[trigger] a[i]),
        trimmed_start(s).len() > 0 ==> !is_white(trimmed_start(s)[0]),
    decreases s.len(),
{
    if s.len() > 0 && is_white(s[0]) {
        let b = lemma_trimmed_start(s.skip(1));
        let a = seq![s[0]] + b;
        assert(s =~= seq![s[0]] + s.skip(1));
        assert(seq![s[0]] + (b + trimmed_start(s)) =~= a + trimmed_start(s));
        a
    } else {
        assert(s =~= Seq::<char>::empty() + s);
        Seq::empty()
    }
}

proof fn lemma_trimmed_end(s: Seq<char>) -> (b: Seq<char>)
    ensures
        s == trimmed_end(s) + b,
        forall|i: int| 0 <= i < b.len() ==> is_white(#[trigger] b[i]),
        trimmed_end(s).len() > 0 ==> !is_white(trimmed_end(s).last()),
    decreases s.len(),
{
    if s.len() > 0 && is_white(s.last()) {
        let a = lemma_trimmed_end(s.drop_last());
        let b = a.push(s.last());
        assert(s =~= s.drop_last().push(s.last()));
        assert((trimmed_end(s) + a).push(s.last()) =~= trimmed_end(s) + b);
        b
    } else {
        assert(s =~= s + Seq::<char>::empty());
        Seq::empty()
    }
}

/// Small letters: only the capital letters of ASCII change, each to the letter
/// that is 32 places behind it.
pub proof fn law_lower(s: Seq<char>)
    ensures
        ascii_lower(s).len() == s.len(),
        forall|i: int|
            0 <= i < s.len() ==> #[trigger] ascii_lower(s)[i] as int == s[i] as int + if 'A' <= s[i]
                <= 'Z' {
                32int
            } else {
                0
            },
        ascii_lower(ascii_lower(s)) == ascii_lower(s),
{
    assert forall|i: int| 0 <= i < s.len() implies #[trigger] ascii_lower(s)[i] as int == s[i] as int
        + if 'A' <= s[i] <= 'Z' {
        32int
    } else {
        0
    } by {
        assert(ascii_lower(s)[i] == lower_char(s[i]));
    }
    assert(ascii_lower(ascii_lower(s)) =~= ascii_lower(s)) by {
        assert forall|i: int| 0 <= i < s.len() implies ascii_lower(ascii_lower(s))[i] == ascii_lower(
            s,
        )[i] by {
            assert(ascii_lower(s)[i] as int == s[i] as int + if 'A' <= s[i] <= 'Z' {
                32int
            } else {
                0
            });
        }
    }
}

/// Searching finds the first place where the text stands, if there is one.
pub proof fn law_find(s: Seq<char>, pat: Seq<char>)
    ensures
        match find(s, pat) {
            Some(i) => 0 <= i && i + pat.len() <= s.len() && s.subrange(i, i + pat.len()) == pat && (
            forall|k: int|
                0 <= k < i ==> #[trigger] s.subrange(k, k + pat.len()) != pat),
            None => forall|k: int|
                0 <= k && k + pat.len() <= s.len() ==> #[trigger] s.subrange(k, k + pat.len())
                    != pat,
        },
{
    lemma_find_from(s, pat, 0);
    match find(s, pat) {
        Some(i) => {
            assert forall|k: int| 0 <= k < i implies #[trigger] s.subrange(k, k + pat.len()) != pat by {
                assert(!occurs_at(s, pat, k));
            }
        },
        None => {
            assert forall|k: int| 0 <= k && k + pat.len() <= s.len() implies #[trigger] s.subrange(
                k,
                k + pat.len(),
            ) != pat by {
                assert(!occurs_at(s, pat, k));
            }
        },
    }
}

/// Replacing leaves a text as it is where there is nothing to replace. Otherwise
/// what is before the first place stays, the replacement stands there, and the rest
/// is replaced on its own.
pub proof fn law_replace(a: Seq<char>, b: Seq<char>, pat: Seq<char>, with: Seq<char>)
    requires
        pat.len() > 0,
    ensures
        (forall|k: int| !occurs_at(a, pat, k)) ==> replace_all(a, pat, with) == a,
        (forall|k: int| 0 <= k < a.len() ==> !occurs_at(a + pat + b, pat, k)) ==> replace_all(
            a + pat + b,
            pat,
            with,
        ) == a + with + replace_all(b, pat, with),
{
    if forall|k: int| !occurs_at(a, pat, k) {
        lemma_find_from(a, pat, 0);
        assert(a.skip(0) =~= a);
    }
    let s = a + pat + b;
    if forall|k: int| 0 <= k < a.len() ==> !occurs_at(s, pat, k) {
        lemma_find_from(s, pat, 0);
        assert(s.subrange(a.len() as int, a.len() as int + pat.len()) =~= pat);
        assert(occurs_at(s, pat, a.len() as int));
        assert(find(s, pat) == Some(a.len() as int));
        assert(s.subrange(0, a.len() as int) =~= a);
        assert(s.skip(a.len() as int + pat.len()) =~= b);
        lemma_replace_shift(s, pat, with, a.len() as int + pat.len(), 0);
        assert(b.skip(0) =~= b);
    }
}

/// Replacing from an index on is replacing in what stands from there on.
pub(crate) proof fn lemma_replace_shift(
    s: Seq<char>,
    pat: Seq<char>,
    with: Seq<char>,
    n: int,
    i: int,
)
    requires
        pat.len() > 0,
        0 <= n <= s.len(),
        0 <= i <= s.len() - n,
    ensures
        replace_from(s, pat, with, n + i) == replace_from(s.skip(n), pat, with, i),
    decreases s.len() - n - i,
{
    let t = s.skip(n);
    lemma_find_from(s, pat, n + i);
    lemma_find_from(t, pat, i);
    assert forall|k: int| i <= k implies (occurs_at(t, pat, k) <==> occurs_at(s, pat, n + k)) by {
        if k + pat.len() <= t.len() {
            assert(t.subrange(k, k + pat.len()) =~= s.subrange(n + k, n + k + pat.len()));
        }
    }
    match crate::text::find_from(t, pat, i) {
        Some(j) => {
            assert(occurs_at(s, pat, n + j));
            let m = crate::text::find_from(s, pat, n + i);
            assert(m is Some);
            let j2 = m->0;
            assert(occurs_at(t, pat, j2 - n));
            assert(j2 == n + j);
            lemma_replace_shift(s, pat, with, n, j + pat.len());
            assert(t.subrange(i, j) =~= s.subrange(n + i, n + j));
        },
        None => {
            let m = crate::text::find_from(s, pat, n + i);
            if m is Some {
                assert(occurs_at(t, pat, m->0 - n));
            }
            assert(t.skip(i) =~= s.skip(n + i));
        },
    }
}

/// The pieces of `s` between the places where `c` stands.
pub open spec fn split(s: Seq<char>, c: char) -> Seq<Seq<char>>
    decreases s.len(),
{
    if s.len() == 0 {
        seq![Seq::empty()]
    } else {
        let rest = split(s.skip(1), c);
        if s[0] == c {
            seq![Seq::empty()] + rest
        } else {
            seq![seq![s[0]] + rest[0]] + rest.skip(1)
        }
    }
}

/// `c` does not stand in `s`.
pub open spec fn lacks(s: Seq<char>, c: char) -> bool {
    forall|i: int| 0 <= i < s.len() ==> #[trigger] s[i] != c
}

/// A piece and what follows the next separator.
pub(crate) proof fn lemma_split_piece(a: Seq<char>, c: char, b: Seq<char>)
    requires
        lacks(a, c),
    ensures
        split(a + seq![c] + b, c) == seq![a] + split(b, c),
    decreases a.len(),
{
    let s = a + seq![c] + b;
    if a.len() == 0 {
        assert(s.skip(1) =~= b);
        assert(a =~= Seq::<char>::empty());
    } else {
        let t = a.skip(1);
        assert(s.skip(1) =~= t + seq![c] + b);
        assert forall|i: int| 0 <= i < t.len() implies #[trigger] t[i] != c by {
            assert(a[i + 1] != c);
        }
        lemma_split_piece(t, c, b);
        assert(a[0] != c);
        assert(seq![s[0]] + t =~= a);
        let rest = split(s.skip(1), c);
        assert(rest.skip(1) =~= split(b, c));
        assert(rest[0] == t);
    }
}

/// A text without a separator is one piece.
pub(crate) proof fn lemma_split_one(a: Seq<char>, c: char)
    requires
        lacks(a, c),
    ensures
        split(a, c) == seq![a],
    decreases a.len(),
{
    if a.len() > 0 {
        let t = a.skip(1);
        assert forall|i: int| 0 <= i < t.len() implies #[trigger] t[i] != c by {
            assert(a[i + 1] != c);
        }
        lemma_split_one(t, c);
        assert(a[0] != c);
        assert(seq![a[0]] + t =~= a);
        assert(split(a, c) =~= seq![a]);
    } else {
        assert(a =~= Seq::<char>::empty());
    }
}

/// The pieces of two texts with a separator between them are the pieces of both.
pub(crate) proof fn lemma_split_join(a: Seq<char>, c: char, b: Seq<char>)
    ensures
        split(a + seq![c] + b, c) == split(a, c) + split(b, c),
        split(a, c).len() > 0,
    decreases a.len(),
{
    let s = a + seq![c] + b;
    if a.len() == 0 {
        assert(s.skip(1) =~= b);
    } else {
        let t = a.skip(1);
        assert(s.skip(1) =~= t + seq![c] + b);
        lemma_split_join(t, c, b);
        let rest = split(s.skip(1), c);
        assert(rest[0] == split(t, c)[0]);
        assert(rest.skip(1) =~= split(t, c).skip(1) + split(b, c));
        assert(split(s, c) =~= split(a, c) + split(b, c));
    }
}

/// What an exit code is read as: a decimal numeral, with or without a sign, is its
/// value, if that fits in 32 bits with a sign; anything else is no code.
pub proof fn law_parsed_i32(s: Seq<char>)
    ensures
        is_decimal(s) ==> parsed_i32(s) == if numeral_value(s, 10) < 0x8000_0000 {
            Some(numeral_value(s, 10))
        } else {
            None
        },
        is_decimal(s) ==> parsed_i32(seq!['+'] + s) == parsed_i32(s),
        is_decimal(s) ==> parsed_i32(seq!['-'] + s) == if numeral_value(s, 10) <= 0x8000_0000 {
            Some(-numeral_value(s, 10))
        } else {
            None
        },
        !is_decimal(s) && !(s.len() > 0 && (s[0] == '+' || s[0] == '-') && is_decimal(s.skip(1)))
            ==> parsed_i32(s) is None,
{
    law_parsed(s, 0x7fff_ffff);
    assert((seq!['-'] + s).skip(1) =~= s);
    if is_decimal(s) {
        lemma_digits_value(s);
        assert('0' <= s[0] <= '9');
    }
}

} // verus!
