//! Text: numerals, searching and replacing, over the characters of a string.
use vstd::prelude::*;

verus! {

/// The character of a digit below sixteen, with capital letters or small ones.
pub open spec fn digit_char(d: nat, upper: bool) -> char {
    if d < 10 {
        (48 + d) as char
    } else if upper {
        (55 + d) as char
    } else {
        (87 + d) as char
    }
}

/// `n` in base ten, without leading zeros.
pub open spec fn dec(n: nat) -> Seq<char>
    decreases n,
{
    if n < 10 {
        seq![digit_char(n, false)]
    } else {
        dec(n / 10).push(digit_char(n % 10, false))
    }
}

/// `n` in base ten; a minus sign stands before a negative number.
pub open spec fn signed_dec(n: int) -> Seq<char> {
    if n < 0 {
        "-"@ + dec((-n) as nat)
    } else {
        dec(n as nat)
    }
}

/// `n` in base ten with its sign, also where it is not negative.
pub open spec fn plus_dec(n: int) -> Seq<char> {
    if n < 0 {
        "-"@ + dec((-n) as nat)
    } else {
        "+"@ + dec(n as nat)
    }
}

/// `n` in base sixteen, without leading zeros, with small letters.
pub open spec fn hex(n: nat) -> Seq<char>
    decreases n,
{
    if n < 16 {
        seq![digit_char(n, false)]
    } else {
        hex(n / 16).push(digit_char(n % 16, false))
    }
}

/// The last `width` digits of `n` in base sixteen, with capital letters.
pub open spec fn hex_upper(n: nat, width: nat) -> Seq<char>
    decreases width,
{
    if width == 0 {
        Seq::empty()
    } else {
        hex_upper(n / 16, (width - 1) as nat).push(digit_char(n % 16, true))
    }
}

/// `c` is a decimal digit.
pub open spec fn is_digit(c: char) -> bool {
    '0' <= c <= '9'
}

/// A decimal numeral is made of digits, and there is at least one.
pub proof fn lemma_dec_digits(n: nat)
    ensures
        dec(n).len() > 0,
        forall|i: int| 0 <= i < dec(n).len() ==> is_digit(#[trigger] dec(n)[i]),
    decreases n,
{
    if n >= 10 {
        lemma_dec_digits(n / 10);
    }
}

/// A number is told by its decimal numeral.
pub proof fn lemma_dec_injective(a: nat, b: nat)
    requires
        dec(a) == dec(b),
    ensures
        a == b,
    decreases a,
{
    let x = digit_char(a % 10, false);
    let y = digit_char(b % 10, false);
    assert(x as int == 48 + a % 10);
    assert(y as int == 48 + b % 10);
    assert(dec(a).last() == x);
    assert(dec(b).last() == y);
    assert(a % 10 == b % 10);
    if a < 10 || b < 10 {
        lemma_dec_digits(a / 10);
        lemma_dec_digits(b / 10);
        assert(dec(a).len() == dec(b).len());
    } else {
        assert(dec(a).drop_last() =~= dec(a / 10));
        assert(dec(b).drop_last() =~= dec(b / 10));
        lemma_dec_injective(a / 10, b / 10);
    }
}

/// A numeral of base sixteen is made of digits and the first capital letters.
pub proof fn lemma_hex_upper_digits(n: nat, width: nat)
    ensures
        forall|i: int|
            0 <= i < hex_upper(n, width).len() ==> is_digit(#[trigger] hex_upper(n, width)[i])
                || 'A' <= hex_upper(n, width)[i] <= 'F',
    decreases width,
{
    if width > 0 {
        lemma_hex_upper_digits(n / 16, (width - 1) as nat);
        let d = n % 16;
        let init = hex_upper(n / 16, (width - 1) as nat);
        let c = digit_char(d, true);
        assert(d < 10 ==> c as int == 48 + d);
        assert(d >= 10 ==> c as int == 55 + d);
        assert(is_digit(c) || 'A' <= c <= 'F');
        assert forall|i: int| 0 <= i < hex_upper(n, width).len() implies is_digit(
            #[trigger] hex_upper(n, width)[i],
        ) || 'A' <= hex_upper(n, width)[i] <= 'F' by {
            if i < init.len() {
                assert(hex_upper(n, width)[i] == init[i]);
            }
        }
    }
}

fn digit_str(d: u32, upper: bool) -> (r: &'static str)
    requires
        d < 16,
    ensures
        r@ == seq![digit_char(d as nat, upper)],
{
    proof {
        reveal_strlit("0");
        reveal_strlit("1");
        reveal_strlit("2");
        reveal_strlit("3");
        reveal_strlit("4");
        reveal_strlit("5");
        reveal_strlit("6");
        reveal_strlit("7");
        reveal_strlit("8");
        reveal_strlit("9");
        reveal_strlit("a");
        reveal_strlit("b");
        reveal_strlit("c");
        reveal_strlit("d");
        reveal_strlit("e");
        reveal_strlit("f");
        reveal_strlit("A");
        reveal_strlit("B");
        reveal_strlit("C");
        reveal_strlit("D");
        reveal_strlit("E");
        reveal_strlit("F");
    }
    match d {
        0 => "0",
        1 => "1",
        2 => "2",
        3 => "3",
        4 => "4",
        5 => "5",
        6 => "6",
        7 => "7",
        8 => "8",
        9 => "9",
        10 => if upper { "A" } else { "a" },
        11 => if upper { "B" } else { "b" },
        12 => if upper { "C" } else { "c" },
        13 => if upper { "D" } else { "d" },
        14 => if upper { "E" } else { "e" },
        _ => if upper { "F" } else { "f" },
    }
}

/// Appends `n` in base ten.
pub fn push_dec(out: &mut String, n: u64)
    ensures
        final(out)@ == old(out)@ + dec(n as nat),
    decreases n,
{
    if n >= 10 {
        push_dec(out, n / 10);
    }
    out.append(digit_str((n % 10) as u32, false));
}

/// Appends `n` in base ten, with a minus sign where it is negative.
pub fn push_signed_dec(out: &mut String, n: i64)
    ensures
        final(out)@ == old(out)@ + signed_dec(n as int),
{
    if n < 0 {
        out.append("-");
        push_dec(out, (-(n as i128)) as u64);
    } else {
        push_dec(out, n as u64);
    }
}

/// Appends `n` in base sixteen with small letters.
pub fn push_hex(out: &mut String, n: u32)
    ensures
        final(out)@ == old(out)@ + hex(n as nat),
    decreases n,
{
    if n >= 16 {
        push_hex(out, n / 16);
    }
    out.append(digit_str(n % 16, false));
}

/// Appends the last `width` digits of `n` in base sixteen with capital letters.
pub fn push_hex_upper(out: &mut String, n: u32, width: u32)
    ensures
        final(out)@ == old(out)@ + hex_upper(n as nat, width as nat),
    decreases width,
{
    if width > 0 {
        push_hex_upper(out, n / 16, width - 1);
        out.append(digit_str(n % 16, true));
    }
}

/// `pat` stands in `s` at index `i`.
pub open spec fn occurs_at(s: Seq<char>, pat: Seq<char>, i: int) -> bool {
    0 <= i && i + pat.len() <= s.len() && s.subrange(i, i + pat.len()) == pat
}

/// The first index from `i` on at which `pat` stands in `s`.
pub open spec fn find_from(s: Seq<char>, pat: Seq<char>, i: int) -> Option<int>
    decreases s.len() - i + 1,
{
    if i + pat.len() > s.len() {
        None
    } else if occurs_at(s, pat, i) {
        Some(i)
    } else {
        find_from(s, pat, i + 1)
    }
}

/// The first index at which `pat` stands in `s`.
pub open spec fn find(s: Seq<char>, pat: Seq<char>) -> Option<int> {
    find_from(s, pat, 0)
}

/// What `find_from` finds is the first occurrence from `i` on; it finds
/// nothing only where there is no occurrence.
pub proof fn lemma_find_from(s: Seq<char>, pat: Seq<char>, i: int)
    requires
        0 <= i,
    ensures
        match find_from(s, pat, i) {
            Some(j) => i <= j && occurs_at(s, pat, j) && (forall|k: int|
                i <= k < j ==> !occurs_at(s, pat, k)),
            None => forall|k: int| i <= k ==> !occurs_at(s, pat, k),
        },
    decreases s.len() - i + 1,
{
    if i + pat.len() <= s.len() && !occurs_at(s, pat, i) {
        lemma_find_from(s, pat, i + 1);
    }
}

/// `s` from index `i` on, with `with` in place of each occurrence of `pat`;
/// the occurrences are taken from the left and do not overlap.
pub open spec fn replace_from(s: Seq<char>, pat: Seq<char>, with: Seq<char>, i: int) -> Seq<char>
    decreases s.len() - i,
    when 0 <= i <= s.len() && pat.len() > 0
{
    match find_from(s, pat, i) {
        Some(j) => {
            proof {
                lemma_find_from(s, pat, i);
            }
            s.subrange(i, j) + with + replace_from(s, pat, with, j + pat.len())
        },
        None => s.skip(i),
    }
}

/// `s` with `with` in place of each occurrence of `pat`.
pub open spec fn replace_all(s: Seq<char>, pat: Seq<char>, with: Seq<char>) -> Seq<char> {
    replace_from(s, pat, with, 0)
}

/// Where `p` is laid over `w` from index `d` of `w` on, some character differs.
pub open spec fn differs(p: Seq<char>, w: Seq<char>, d: int) -> bool {
    exists|k: int| 0 <= k < p.len() && 0 <= d + k < w.len() && #[trigger] p[k] != w[d + k]
}

/// `p` and `w` cannot overlap: wherever `p` is laid over a part of `w`, some
/// character differs.
pub open spec fn clash(p: Seq<char>, w: Seq<char>) -> bool {
    forall|d: int| -(p.len() as int) < d < w.len() ==> #[trigger] differs(p, w, d)
}

/// What cannot overlap does not overlap.
proof fn lemma_clash(s: Seq<char>, p: Seq<char>, w: Seq<char>, i: int, j: int)
    requires
        clash(p, w),
        occurs_at(s, p, i),
        occurs_at(s, w, j),
    ensures
        i + p.len() <= j || j + w.len() <= i,
{
    if i + p.len() > j && j + w.len() > i {
        assert(differs(p, w, i - j));
        let k = choose|k: int|
            0 <= k < p.len() && 0 <= i - j + k < w.len() && #[trigger] p[k] != w[i - j + k];
        assert(s.subrange(i, i + p.len())[k] == p[k]);
        assert(s.subrange(j, j + w.len())[i - j + k] == w[i - j + k]);
    }
}

/// No text `p` that cannot overlap `with` comes about by replacing `pat` with
/// `with`: there is none where there was none, and none is left of `pat` itself.
pub proof fn lemma_replaced_lacks(
    s: Seq<char>,
    pat: Seq<char>,
    with: Seq<char>,
    p: Seq<char>,
    i: int,
)
    requires
        0 <= i <= s.len(),
        pat.len() > 0,
        with.len() > 0,
        p.len() > 0,
        clash(p, with),
        p == pat || forall|k: int| !occurs_at(s, p, k),
    ensures
        forall|k: int| !occurs_at(replace_from(s, pat, with, i), p, k),
    decreases s.len() - i,
{
    lemma_find_from(s, pat, i);
    let r = replace_from(s, pat, with, i);
    match find_from(s, pat, i) {
        Some(j) => {
            let a = s.subrange(i, j);
            let rest = replace_from(s, pat, with, j + pat.len());
            lemma_replaced_lacks(s, pat, with, p, j + pat.len());
            assert(r.subrange(a.len() as int, a.len() as int + with.len()) =~= with);
            assert(occurs_at(r, with, a.len() as int));
            assert forall|k: int| !occurs_at(r, p, k) by {
                if occurs_at(r, p, k) {
                    lemma_clash(r, p, with, k, a.len() as int);
                    let sub = r.subrange(k, k + p.len());
                    if k + p.len() <= a.len() {
                        assert(s.subrange(i + k, i + k + p.len()) =~= sub);
                        assert(occurs_at(s, p, i + k));
                    } else {
                        let k2 = k - a.len() - with.len();
                        assert(rest.subrange(k2, k2 + p.len()) =~= sub);
                        assert(occurs_at(rest, p, k2));
                    }
                }
            }
        },
        None => {
            assert forall|k: int| !occurs_at(r, p, k) by {
                if occurs_at(r, p, k) {
                    assert(s.subrange(i + k, i + k + p.len()) =~= r.subrange(k, k + p.len()));
                    assert(occurs_at(s, p, i + k));
                }
            }
        },
    }
}

/// What `pat` cannot overlap is still there after `pat` is replaced.
pub proof fn lemma_replace_keeps(
    s: Seq<char>,
    pat: Seq<char>,
    with: Seq<char>,
    keep: Seq<char>,
    i: int,
    at: int,
) -> (k: int)
    requires
        0 <= i <= at,
        pat.len() > 0,
        keep.len() > 0,
        clash(pat, keep),
        occurs_at(s, keep, at),
    ensures
        occurs_at(replace_from(s, pat, with, i), keep, k),
    decreases s.len() - i,
{
    lemma_find_from(s, pat, i);
    let r = replace_from(s, pat, with, i);
    match find_from(s, pat, i) {
        Some(j) => {
            let a = s.subrange(i, j);
            let rest = replace_from(s, pat, with, j + pat.len());
            lemma_clash(s, pat, keep, j, at);
            if j + pat.len() <= at {
                let k2 = lemma_replace_keeps(s, pat, with, keep, j + pat.len(), at);
                let k = a.len() + with.len() + k2;
                assert(r.subrange(k, k + keep.len()) =~= rest.subrange(k2, k2 + keep.len()));
                k
            } else {
                let k = at - i;
                assert(r.subrange(k, k + keep.len()) =~= s.subrange(at, at + keep.len()));
                k
            }
        },
        None => {
            let k = at - i;
            assert(r.subrange(k, k + keep.len()) =~= s.subrange(at, at + keep.len()));
            k
        },
    }
}

/// Where `pat` was, `with` is after it is replaced.
pub proof fn lemma_replaced_holds(
    s: Seq<char>,
    pat: Seq<char>,
    with: Seq<char>,
    at: int,
) -> (k: int)
    requires
        pat.len() > 0,
        occurs_at(s, pat, at),
    ensures
        occurs_at(replace_all(s, pat, with), with, k),
{
    lemma_find_from(s, pat, 0);
    let r = replace_all(s, pat, with);
    let j = find_from(s, pat, 0)->0;
    assert(r.subrange(j, j + with.len()) =~= with);
    j
}

fn chars_of(s: &str) -> (r: Vec<char>)
    ensures
        r@ == s@,
{
    let mut r: Vec<char> = Vec::new();
    for c in it: s.chars()
        invariant
            r@ == s@.take(it.index() as int),
            it.seq() == s@,
    {
        proof {
            assert(s@.take(it.index() + 1) =~= s@.take(it.index() as int).push(c));
        }
        r.push(c);
    }
    proof {
        assert(s@.take(s@.len() as int) =~= s@);
    }
    r
}

fn stands_at(s: &Vec<char>, pat: &Vec<char>, i: usize) -> (r: bool)
    requires
        i + pat@.len() <= s@.len(),
    ensures
        r == occurs_at(s@, pat@, i as int),
{
    let len = s.len();
    let mut k: usize = 0;
    while k < pat.len()
        invariant
            k <= pat@.len(),
            len == s@.len(),
            i + pat@.len() <= s@.len(),
            forall|j: int| 0 <= j < k ==> s@[i + j] == pat@[j],
        decreases pat@.len() - k,
    {
        if s[i + k] != pat[k] {
            proof {
                let sub = s@.subrange(i as int, i + pat@.len());
                assert(sub[k as int] != pat@[k as int]);
            }
            return false;
        }
        k += 1;
    }
    proof {
        assert(s@.subrange(i as int, i + pat@.len()) =~= pat@);
    }
    true
}

fn find_chars(s: &Vec<char>, pat: &Vec<char>, from: usize) -> (r: Option<usize>)
    requires
        from <= s@.len(),
    ensures
        match r {
            Some(i) => find_from(s@, pat@, from as int) == Some(i as int),
            None => find_from(s@, pat@, from as int) is None,
        },
{
    let mut i: usize = from;
    while i <= s.len() && pat.len() <= s.len() - i
        invariant
            find_from(s@, pat@, from as int) == find_from(s@, pat@, i as int),
            i <= s@.len() + 1,
        decreases s@.len() + 1 - i,
    {
        if stands_at(s, pat, i) {
            return Some(i);
        }
        if i == s.len() {
            proof {
                assert(find_from(s@, pat@, i + 1) is None);
            }
            return None;
        }
        i += 1;
    }
    None
}

/// The first index, in characters, at which `pat` stands in `s`.
pub fn find_str(s: &str, pat: &str) -> (r: Option<usize>)
    ensures
        match r {
            Some(i) => find(s@, pat@) == Some(i as int),
            None => find(s@, pat@) is None,
        },
{
    find_chars(&chars_of(s), &chars_of(pat), 0)
}

/// `s` with `with` in place of each occurrence of `pat`.
pub fn replace_str(s: &str, pat: &str, with: &str) -> (r: String)
    requires
        pat@.len() > 0,
    ensures
        r@ == replace_all(s@, pat@, with@),
{
    let text = chars_of(s);
    let pattern = chars_of(pat);
    let mut out = String::new();
    let len = text.len();
    let mut i: usize = 0;
    loop
        invariant_except_break
            replace_all(s@, pat@, with@) == out@ + replace_from(s@, pat@, with@, i as int),
        invariant
            text@ == s@,
            len == s@.len(),
            pattern@ == pat@,
            pat@.len() > 0,
            i <= s@.len(),
        ensures
            out@ == replace_all(s@, pat@, with@),
        decreases s@.len() - i,
    {
        proof {
            lemma_find_from(s@, pat@, i as int);
        }
        match find_chars(&text, &pattern, i) {
            Some(j) => {
                out.append(s.substring_char(i, j));
                out.append(with);
                i = j + pattern.len();
            },
            None => {
                out.append(s.substring_char(i, text.len()));
                proof {
                    assert(s@.skip(i as int) =~= s@.subrange(i as int, s@.len() as int));
                }
                break;
            },
        }
    }
    out
}

/// `s` is one decimal digit or more.
pub open spec fn all_digits(s: Seq<char>) -> bool {
    s.len() > 0 && forall|i: int| 0 <= i < s.len() ==> '0' <= #[trigger] s[i] <= '9'
}

/// The number that a sequence of decimal digits stands for.
pub open spec fn digits_value(s: Seq<char>) -> nat
    decreases s.len(),
{
    if s.len() == 0 {
        0
    } else {
        digits_value(s.drop_last()) * 10 + (s.last() as nat - 48) as nat
    }
}

/// The number that `s` stands for as an optional plus sign and decimal digits;
/// nothing where it is no such numeral or is larger than `max`.
pub open spec fn parsed(s: Seq<char>, max: nat) -> Option<nat> {
    let d = if s.len() > 0 && s[0] == '+' {
        s.skip(1)
    } else {
        s
    };
    if all_digits(d) && digits_value(d) <= max {
        Some(digits_value(d))
    } else {
        None
    }
}

/// The number that `s` stands for as an optional sign and decimal digits;
/// nothing where it is no such numeral or does not fit in 32 bits.
pub open spec fn parsed_i32(s: Seq<char>) -> Option<int> {
    if s.len() > 0 && s[0] == '-' {
        let d = s.skip(1);
        if all_digits(d) && digits_value(d) <= 0x8000_0000 {
            Some(-(digits_value(d) as int))
        } else {
            None
        }
    } else {
        match parsed(s, 0x7fff_ffff) {
            Some(n) => Some(n as int),
            None => None,
        }
    }
}

proof fn lemma_digits_value_grows(s: Seq<char>, k: int)
    requires
        0 <= k <= s.len(),
        forall|i: int| 0 <= i < s.len() ==> '0' <= #[trigger] s[i] <= '9',
    ensures
        digits_value(s.take(k)) <= digits_value(s),
    decreases s.len(),
{
    if k == s.len() {
        assert(s.take(k) =~= s);
    } else {
        assert(s.drop_last().take(k) =~= s.take(k));
        lemma_digits_value_grows(s.drop_last(), k);
    }
}

fn parse_digits(text: &Vec<char>, from: usize, max: u64) -> (r: Option<u64>)
    requires
        from <= text@.len(),
    ensures
        ({
            let d = text@.skip(from as int);
            match r {
                Some(n) => all_digits(d) && digits_value(d) <= max && n == digits_value(d),
                None => !(all_digits(d) && digits_value(d) <= max),
            }
        }),
{
    let ghost d = text@.skip(from as int);
    if from == text.len() {
        return None;
    }
    let mut i: usize = from;
    let mut n: u64 = 0;
    proof {
        assert(d.take(0) =~= Seq::<char>::empty());
    }
    while i < text.len()
        invariant
            from <= i <= text@.len(),
            d == text@.skip(from as int),
            forall|j: int| 0 <= j < i - from ==> '0' <= #[trigger] d[j] <= '9',
            n == digits_value(d.take(i - from)),
            n <= max,
        decreases text@.len() - i,
    {
        let c = text[i];
        proof {
            assert(d[i - from] == c);
            assert(d.take(i - from + 1).drop_last() =~= d.take(i - from));
            assert(d.take(i - from + 1).last() == c);
        }
        if c < '0' || '9' < c {
            return None;
        }
        let digit: u64 = c as u64 - 48;
        if n > (u64::MAX - digit) / 10 || n * 10 + digit > max {
            proof {
                if all_digits(d) {
                    lemma_digits_value_grows(d, i - from + 1);
                }
            }
            return None;
        }
        n = n * 10 + digit;
        i += 1;
    }
    proof {
        assert(d.take(text@.len() - from) =~= d);
    }
    Some(n)
}

/// The number that `s` stands for as an optional plus sign and decimal digits.
pub fn parse_u64(s: &str, max: u64) -> (r: Option<u64>)
    ensures
        match r {
            Some(n) => parsed(s@, max as nat) == Some(n as nat),
            None => parsed(s@, max as nat) is None,
        },
{
    let text = chars_of(s);
    if text.len() > 0 && text[0] == '+' {
        parse_digits(&text, 1, max)
    } else {
        proof {
            assert(text@.skip(0) =~= text@);
        }
        parse_digits(&text, 0, max)
    }
}

/// The number that `s` stands for as an optional plus sign and decimal digits.
pub fn parse_u32(s: &str) -> (r: Option<u32>)
    ensures
        match r {
            Some(n) => parsed(s@, u32::MAX as nat) == Some(n as nat),
            None => parsed(s@, u32::MAX as nat) is None,
        },
{
    match parse_u64(s, 0xffff_ffff) {
        Some(n) => Some(n as u32),
        None => None,
    }
}

/// The number that `s` stands for as an optional sign and decimal digits.
pub fn parse_i32(s: &str) -> (r: Option<i32>)
    ensures
        match r {
            Some(n) => parsed_i32(s@) == Some(n as int),
            None => parsed_i32(s@) is None,
        },
{
    let text = chars_of(s);
    if text.len() > 0 && text[0] == '-' {
        match parse_digits(&text, 1, 0x8000_0000) {
            Some(n) => Some((-(n as i64)) as i32),
            None => None,
        }
    } else {
        match parse_u64(s, 0x7fff_ffff) {
            Some(n) => Some(n as i32),
            None => None,
        }
    }
}

/// `c` is white space.
pub open spec fn is_white(c: char) -> bool {
    ||| '\u{9}' <= c <= '\u{d}'
    ||| c == ' '
    ||| c == '\u{85}'
    ||| c == '\u{a0}'
    ||| c == '\u{1680}'
    ||| '\u{2000}' <= c <= '\u{200a}'
    ||| c == '\u{2028}'
    ||| c == '\u{2029}'
    ||| c == '\u{202f}'
    ||| c == '\u{205f}'
    ||| c == '\u{3000}'
}

/// `s` without the white space at its start.
pub open spec fn trimmed_start(s: Seq<char>) -> Seq<char>
    decreases s.len(),
{
    if s.len() > 0 && is_white(s[0]) {
        trimmed_start(s.skip(1))
    } else {
        s
    }
}

/// `s` without the white space at its end.
pub open spec fn trimmed_end(s: Seq<char>) -> Seq<char>
    decreases s.len(),
{
    if s.len() > 0 && is_white(s.last()) {
        trimmed_end(s.drop_last())
    } else {
        s
    }
}

/// `s` without the white space around it.
pub open spec fn trimmed(s: Seq<char>) -> Seq<char> {
    trimmed_end(trimmed_start(s))
}

fn white(c: char) -> (r: bool)
    ensures
        r == is_white(c),
{
    '\u{9}' <= c && c <= '\u{d}' || c == ' ' || c == '\u{85}' || c == '\u{a0}' || c == '\u{1680}'
        || '\u{2000}' <= c && c <= '\u{200a}' || c == '\u{2028}' || c == '\u{2029}' || c == '\u{202f}'
        || c == '\u{205f}' || c == '\u{3000}'
}

/// `s` without the white space around it.
pub fn trim_str(s: &str) -> (r: String)
    ensures
        r@ == trimmed(s@),
{
    let text = chars_of(s);
    let mut lo: usize = 0;
    proof {
        assert(text@.skip(0) =~= text@);
    }
    while lo < text.len() && white(text[lo])
        invariant
            lo <= text@.len(),
            trimmed_start(text@) == trimmed_start(text@.skip(lo as int)),
        decreases text@.len() - lo,
    {
        proof {
            assert(text@.skip(lo as int).skip(1) =~= text@.skip(lo + 1));
        }
        lo += 1;
    }
    let ghost rest = text@.skip(lo as int);
    let mut hi = text.len();
    proof {
        assert(text@.subrange(lo as int, hi as int) =~= rest);
    }
    while lo < hi && white(text[hi - 1])
        invariant
            lo <= hi <= text@.len(),
            trimmed_end(rest) == trimmed_end(text@.subrange(lo as int, hi as int)),
        decreases hi,
    {
        proof {
            assert(text@.subrange(lo as int, hi as int).drop_last() =~= text@.subrange(
                lo as int,
                hi - 1,
            ));
        }
        hi -= 1;
    }
    s.substring_char(lo, hi).to_owned()
}

/// A capital letter of ASCII as a small one; any other character as it is.
pub open spec fn lower_char(c: char) -> char {
    if 'A' <= c <= 'Z' {
        (c as u32 + 32) as char
    } else {
        c
    }
}

/// `s` with the capital letters of ASCII as small ones.
pub open spec fn ascii_lower(s: Seq<char>) -> Seq<char> {
    s.map_values(|c: char| lower_char(c))
}

/// Whether `s`, with the capital letters of ASCII as small ones, is `word`.
pub fn lower_is(s: &str, word: &str) -> (r: bool)
    ensures
        r == (ascii_lower(s@) == word@),
{
    let a = chars_of(s);
    let b = chars_of(word);
    if a.len() != b.len() {
        return false;
    }
    let mut i: usize = 0;
    while i < a.len()
        invariant
            a@ == s@,
            b@ == word@,
            a@.len() == b@.len(),
            i <= a@.len(),
            forall|j: int| 0 <= j < i ==> lower_char(a@[j]) == b@[j],
        decreases a@.len() - i,
    {
        let c = a[i];
        let low = if 'A' <= c && c <= 'Z' { (c as u8 + 32) as char } else { c };
        if low != b[i] {
            proof {
                assert(ascii_lower(s@)[i as int] != word@[i as int]);
            }
            return false;
        }
        i += 1;
    }
    proof {
        assert(ascii_lower(s@) =~= word@);
    }
    true
}

/// Whether the two strings are the same.
pub fn same_str(s: &str, t: &str) -> (r: bool)
    ensures
        r == (s@ == t@),
{
    let a = s.to_owned();
    let b = t.to_owned();
    a == b
}

} // verus!
