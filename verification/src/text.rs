//! Character-level helpers shared by the record codec: decimal and
//! hexadecimal digit strings, whitespace trimming, and splitting a record
//! on the two-character field delimiter.

use vstd::prelude::*;
use vstd::string::*;
use vstd::arithmetic::div_mod::lemma_fundamental_div_mod;

verus! {

// ---------------------------------------------------------------------------
// Character classes
// ---------------------------------------------------------------------------

/// The whitespace characters that field trimming removes: the Unicode
/// White_Space set, the same set `str::trim` strips.
pub open spec fn is_space(c: char) -> bool {
    let u = c as u32;
    ||| u == 0x09
    ||| u == 0x0A
    ||| u == 0x0B
    ||| u == 0x0C
    ||| u == 0x0D
    ||| u == 0x20
    ||| u == 0x85
    ||| u == 0xA0
    ||| u == 0x1680
    ||| (0x2000 <= u && u <= 0x200A)
    ||| u == 0x2028
    ||| u == 0x2029
    ||| u == 0x202F
    ||| u == 0x205F
    ||| u == 0x3000
}

/// Runtime counterpart of `is_space`.
pub fn is_space_exec(c: char) -> (r: bool)
    ensures
        r == is_space(c),
{
    let u = c as u32;
    u == 0x09 || u == 0x0A || u == 0x0B || u == 0x0C || u == 0x0D || u == 0x20 || u == 0x85
        || u == 0xA0 || u == 0x1680 || (0x2000 <= u && u <= 0x200A) || u == 0x2028
        || u == 0x2029 || u == 0x202F || u == 0x205F || u == 0x3000
}

/// The numeric value of a digit character (hex in either case), or -1.
pub open spec fn digit_val(c: char) -> int {
    if c == '0' { 0 }
    else if c == '1' { 1 }
    else if c == '2' { 2 }
    else if c == '3' { 3 }
    else if c == '4' { 4 }
    else if c == '5' { 5 }
    else if c == '6' { 6 }
    else if c == '7' { 7 }
    else if c == '8' { 8 }
    else if c == '9' { 9 }
    else if c == 'a' || c == 'A' { 10 }
    else if c == 'b' || c == 'B' { 11 }
    else if c == 'c' || c == 'C' { 12 }
    else if c == 'd' || c == 'D' { 13 }
    else if c == 'e' || c == 'E' { 14 }
    else if c == 'f' || c == 'F' { 15 }
    else { -1 }
}

/// The digit character for a value in `0..16`.
pub open spec fn digit_char(v: int) -> char {
    if v == 0 { '0' }
    else if v == 1 { '1' }
    else if v == 2 { '2' }
    else if v == 3 { '3' }
    else if v == 4 { '4' }
    else if v == 5 { '5' }
    else if v == 6 { '6' }
    else if v == 7 { '7' }
    else if v == 8 { '8' }
    else if v == 9 { '9' }
    else if v == 10 { 'a' }
    else if v == 11 { 'b' }
    else if v == 12 { 'c' }
    else if v == 13 { 'd' }
    else if v == 14 { 'e' }
    else { 'f' }
}

/// Runtime counterpart of `digit_val`.
pub fn digit_val_exec(c: char) -> (r: Option<u8>)
    ensures
        r is Some <==> digit_val(c) >= 0,
        r is Some ==> r->0 == digit_val(c),
{
    match c {
        '0' => Some(0),
        '1' => Some(1),
        '2' => Some(2),
        '3' => Some(3),
        '4' => Some(4),
        '5' => Some(5),
        '6' => Some(6),
        '7' => Some(7),
        '8' => Some(8),
        '9' => Some(9),
        'a' | 'A' => Some(10),
        'b' | 'B' => Some(11),
        'c' | 'C' => Some(12),
        'd' | 'D' => Some(13),
        'e' | 'E' => Some(14),
        'f' | 'F' => Some(15),
        _ => None,
    }
}

/// The digit character as a one-character string slice.
pub fn digit_str(v: u128) -> (r: &'static str)
    requires
        v < 16,
    ensures
        r@ =~= seq![digit_char(v as int)],
{
    proof {
        reveal_strlit("0");
        reveal_strlit("1");
        reveal_strlit("2");
        reveal_strlit("3");
        reveal_strlit("4");
        reveal_strlit("5");
        reveal_strlit("6");
        reveal_strlit("7");
        reveal_strlit("8");
        reveal_strlit("9");
        reveal_strlit("a");
        reveal_strlit("b");
        reveal_strlit("c");
        reveal_strlit("d");
        reveal_strlit("e");
        reveal_strlit("f");
    }
    match v {
        0 => "0",
        1 => "1",
        2 => "2",
        3 => "3",
        4 => "4",
        5 => "5",
        6 => "6",
        7 => "7",
        8 => "8",
        9 => "9",
        10 => "a",
        11 => "b",
        12 => "c",
        13 => "d",
        14 => "e",
        _ => "f",
    }
}

// ---------------------------------------------------------------------------
// Fixed-width digit strings
// ---------------------------------------------------------------------------

/// `base` to the power `n`.
pub open spec fn power(base: int, n: nat) -> int
    decreases n,
{
    if n == 0 { 1 } else { base * power(base, (n - 1) as nat) }
}

/// The `n` least significant base-`base` digits of `v`, most significant first.
pub open spec fn digits_seq(v: int, n: nat, base: int) -> Seq<char>
    decreases n,
{
    if n == 0 {
        Seq::empty()
    } else {
        digits_seq(v / base, (n - 1) as nat, base).push(digit_char(v % base))
    }
}

/// Every character of `s` is a digit below `base`.
pub open spec fn all_digits(s: Seq<char>, base: int) -> bool {
    forall|i: int| 0 <= i < s.len() ==> 0 <= digit_val(#[trigger] s[i]) < base
}

/// The numeric value of a digit string, most significant digit first.
pub open spec fn parse_digits(s: Seq<char>, base: int) -> int
    decreases s.len(),
{
    if s.len() == 0 {
        0
    } else {
        parse_digits(s.drop_last(), base) * base + digit_val(s.last())
    }
}

pub proof fn lemma_digits_seq_len(v: int, n: nat, base: int)
    ensures
        digits_seq(v, n, base).len() == n,
    decreases n,
{
    if n > 0 {
        lemma_digits_seq_len(v / base, (n - 1) as nat, base);
    }
}

pub proof fn lemma_power16_32()
    ensures
        power(16, 32) == 0x1_0000_0000_0000_0000_0000_0000_0000_0000,
{
    reveal_with_fuel(power, 33);
}

pub proof fn lemma_power10_small()
    ensures
        power(10, 2) == 100,
        power(10, 4) == 10000,
{
    reveal_with_fuel(power, 5);
}

pub proof fn lemma_power_pos(base: int, n: nat)
    requires
        base >= 1,
    ensures
        power(base, n) >= 1,
    decreases n,
{
    if n > 0 {
        lemma_power_pos(base, (n - 1) as nat);
        assert(base * power(base, (n - 1) as nat) >= 1) by (nonlinear_arith)
            requires
                base >= 1,
                power(base, (n - 1) as nat) >= 1,
        ;
    }
}

/// Emitting `n` digits of a value below `base^n` and parsing them back
/// yields the value again.
pub proof fn lemma_digits_roundtrip(v: int, n: nat, base: int)
    requires
        base == 10 || base == 16,
        0 <= v < power(base, n),
    ensures
        digits_seq(v, n, base).len() == n,
        all_digits(digits_seq(v, n, base), base),
        parse_digits(digits_seq(v, n, base), base) == v,
    decreases n,
{
    if n == 0 {
    } else {
        let q = v / base;
        let d = v % base;
        lemma_fundamental_div_mod(v, base);
        assert(0 <= d < base);
        assert(q < power(base, (n - 1) as nat)) by (nonlinear_arith)
            requires
                v < power(base, n),
                power(base, n) == base * power(base, (n - 1) as nat),
                base > 0,
                q == v / base,
                v >= 0,
        ;
        assert(q >= 0) by (nonlinear_arith)
            requires
                v >= 0,
                base > 0,
                q == v / base,
        ;
        lemma_digits_roundtrip(q, (n - 1) as nat, base);
        let s = digits_seq(v, n, base);
        assert(s.drop_last() =~= digits_seq(q, (n - 1) as nat, base));
        assert(s.last() == digit_char(d));
        assert(digit_val(digit_char(d)) == d);
    }
}

/// The value of a digit string is below `base^len`.
pub proof fn lemma_parse_digits_bound(s: Seq<char>, base: int)
    requires
        base == 10 || base == 16,
        all_digits(s, base),
    ensures
        0 <= parse_digits(s, base) < power(base, s.len()),
    decreases s.len(),
{
    if s.len() == 0 {
    } else {
        let p = s.drop_last();
        assert(all_digits(p, base)) by {
            assert(forall|i: int| 0 <= i < p.len() ==> p[i] == s[i]);
        }
        lemma_parse_digits_bound(p, base);
        let q = parse_digits(p, base);
        let d = digit_val(s.last());
        let v = parse_digits(s, base);
        assert(v == q * base + d);
        assert(0 <= v < power(base, s.len())) by (nonlinear_arith)
            requires
                0 <= q < power(base, (s.len() - 1) as nat),
                0 <= d < base,
                v == q * base + d,
                power(base, s.len()) == base * power(base, (s.len() - 1) as nat),
                base > 0,
        ;
    }
}

/// Builds the `n`-digit string of `v`, most significant digit first.
pub fn digits_string(v: u128, n: usize, base: u128) -> (r: String)
    requires
        base == 10 || base == 16,
    ensures
        r@ == digits_seq(v as int, n as nat, base as int),
    decreases n,
{
    if n == 0 {
        String::new()
    } else {
        let mut r = digits_string(v / base, n - 1, base);
        let d = v % base;
        r.append(digit_str(d));
        proof {
            assert(r@ =~= digits_seq(v as int, n as nat, base as int));
        }
        r
    }
}

/// Parses the characters of `s` in `from..to` as a fixed-width digit
/// string; fails when any character is not a digit below `base`.
pub fn parse_fixed_digits(s: &str, from: usize, to: usize, base: u128) -> (r: Option<u128>)
    requires
        from <= to <= s@.len(),
        base == 10 || base == 16,
        power(base as int, (to - from) as nat) <= 0x1_0000_0000_0000_0000_0000_0000_0000_0000,
    ensures
        r is Some <==> all_digits(s@.subrange(from as int, to as int), base as int),
        r is Some ==> r->0 == parse_digits(s@.subrange(from as int, to as int), base as int),
{
    let ghost whole = s@.subrange(from as int, to as int);
    let mut acc: u128 = 0;
    let mut i: usize = from;
    while i < to
        invariant
            from <= i <= to <= s@.len(),
            base == 10 || base == 16,
            power(base as int, (to - from) as nat) <= 0x1_0000_0000_0000_0000_0000_0000_0000_0000,
            whole == s@.subrange(from as int, to as int),
            all_digits(s@.subrange(from as int, i as int), base as int),
            acc == parse_digits(s@.subrange(from as int, i as int), base as int),
            acc < power(base as int, (i - from) as nat),
        decreases to - i,
    {
        let c = s.get_char(i);
        let d = match digit_val_exec(c) {
            Some(d) => d,
            None => {
                proof {
                    assert(whole[i - from] == c);
                    assert(!(0 <= digit_val(c) < base));
                }
                return None;
            }
        };
        if d as u128 >= base {
            proof {
                assert(whole[i - from] == c);
                assert(!(0 <= digit_val(c) < base));
            }
            return None;
        }
        proof {
            assert(power(base as int, (i + 1 - from) as nat)
                == base * power(base as int, (i - from) as nat));
            assert(acc * base + d < power(base as int, (i + 1 - from) as nat)) by (nonlinear_arith)
                requires
                    acc < power(base as int, (i - from) as nat),
                    acc >= 0,
                    0 <= d < base,
                    base > 0,
                    power(base as int, (i + 1 - from) as nat)
                        == base * power(base as int, (i - from) as nat),
            ;
            lemma_power_monotonic(base as int, (i + 1 - from) as nat, (to - from) as nat);
            let prev = s@.subrange(from as int, i as int);
            let cur = s@.subrange(from as int, i + 1 as int);
            assert(cur.drop_last() =~= prev);
            assert(cur.last() == c);
        }
        acc = acc * base + d as u128;
        i = i + 1;
    }
    proof {
        assert(s@.subrange(from as int, i as int) == whole);
    }
    Some(acc)
}

pub proof fn lemma_power_monotonic(base: int, m: nat, n: nat)
    requires
        base >= 1,
        m <= n,
    ensures
        power(base, m) <= power(base, n),
    decreases n,
{
    if m < n && n > 0 {
        lemma_power_monotonic(base, m, (n - 1) as nat);
        lemma_power_pos(base, (n - 1) as nat);
        assert(power(base, n) == base * power(base, (n - 1) as nat));
        assert(base * power(base, (n - 1) as nat) >= power(base, (n - 1) as nat)) by (nonlinear_arith)
            requires
                base >= 1,
                power(base, (n - 1) as nat) >= 1,
        ;
    }
}

// ---------------------------------------------------------------------------
// Trimming
// ---------------------------------------------------------------------------

/// `s` without its leading whitespace.
pub open spec fn trim_start_spec(s: Seq<char>) -> Seq<char>
    decreases s.len(),
{
    if s.len() > 0 && is_space(s[0]) {
        trim_start_spec(s.subrange(1, s.len() as int))
    } else {
        s
    }
}

/// `s` without its trailing whitespace.
pub open spec fn trim_end_spec(s: Seq<char>) -> Seq<char>
    decreases s.len(),
{
    if s.len() > 0 && is_space(s[s.len() - 1]) {
        trim_end_spec(s.subrange(0, s.len() - 1))
    } else {
        s
    }
}

/// `s` without leading and trailing whitespace.
pub open spec fn trim_spec(s: Seq<char>) -> Seq<char> {
    trim_end_spec(trim_start_spec(s))
}

/// `s` carries no leading or trailing whitespace.
pub open spec fn trimmed(s: Seq<char>) -> bool {
    trim_spec(s) == s
}

proof fn lemma_trim_start_skip(s: Seq<char>, a: int)
    requires
        0 <= a <= s.len(),
        forall|j: int| 0 <= j < a ==> is_space(s[j]),
    ensures
        trim_start_spec(s) == trim_start_spec(s.subrange(a, s.len() as int)),
    decreases a,
{
    if a > 0 {
        assert(is_space(s[0]));
        let t = s.subrange(1, s.len() as int);
        lemma_trim_start_skip(t, a - 1);
        assert(t.subrange(a - 1, t.len() as int) =~= s.subrange(a, s.len() as int));
    } else {
        assert(s.subrange(0, s.len() as int) =~= s);
    }
}

proof fn lemma_trim_end_skip(s: Seq<char>, b: int)
    requires
        0 <= b <= s.len(),
        forall|j: int| b <= j < s.len() ==> is_space(s[j]),
    ensures
        trim_end_spec(s) == trim_end_spec(s.subrange(0, b)),
    decreases s.len() - b,
{
    if b < s.len() {
        assert(is_space(s[s.len() - 1]));
        let t = s.subrange(0, s.len() - 1);
        assert(forall|j: int| b <= j < t.len() ==> is_space(t[j]));
        lemma_trim_end_skip(t, b);
        assert(t.subrange(0, b) =~= s.subrange(0, b));
    } else {
        assert(s.subrange(0, s.len() as int) =~= s);
    }
}

/// Removes leading and trailing whitespace.
pub fn trim_exec(s: &str) -> (r: String)
    ensures
        r@ == trim_spec(s@),
{
    let n = s.unicode_len();
    let mut a: usize = 0;
    while a < n && is_space_exec(s.get_char(a))
        invariant
            0 <= a <= n,
            n == s@.len(),
            forall|j: int| 0 <= j < a ==> is_space(s@[j]),
        decreases n - a,
    {
        a = a + 1;
    }
    let mut b: usize = n;
    while b > a && is_space_exec(s.get_char(b - 1))
        invariant
            a <= b <= n,
            n == s@.len(),
            forall|j: int| b <= j < n ==> is_space(s@[j]),
        decreases b,
    {
        b = b - 1;
    }
    let r = s.substring_char(a, b);
    proof {
        lemma_trim_start_skip(s@, a as int);
        let u = s@.subrange(a as int, n as int);
        if a < n {
            assert(!is_space(u[0]));
        }
        assert(trim_start_spec(s@) == u);
        assert(forall|j: int| (b - a) <= j < u.len() ==> is_space(u[j]));
        lemma_trim_end_skip(u, b - a);
        let w = u.subrange(0, b - a);
        if b > a {
            assert(w[w.len() - 1] == s@[b - 1]);
            assert(!is_space(w[w.len() - 1]));
        }
        assert(trim_end_spec(u) == w);
        assert(r@ =~= w);
    }
    String::from_str(r)
}

// ---------------------------------------------------------------------------
// Conversion error messages
// ---------------------------------------------------------------------------

/// The message reported when a token cannot be converted to a field type.
pub open spec fn convert_err_msg(tok: Seq<char>, ty: Seq<char>) -> Seq<char> {
    "Unable to convert "@ + tok + " to "@ + ty
}

/// Builds the conversion error message for a token and a type name.
pub fn convert_err(tok: &str, ty: &str) -> (r: String)
    ensures
        r@ == convert_err_msg(tok@, ty@),
{
    let mut r = String::from_str("Unable to convert ");
    r.append(tok);
    r.append(" to ");
    r.append(ty);
    r
}

// ---------------------------------------------------------------------------
// The field delimiter
// ---------------------------------------------------------------------------

/// The two-character field delimiter of a record.
pub open spec fn delim() -> Seq<char> {
    seq!['^', '^']
}

/// The delimiter occurs in `s` at position `i`.
pub open spec fn delim_at(s: Seq<char>, i: int) -> bool {
    0 <= i && i + 2 <= s.len() && s[i] == '^' && s[i + 1] == '^'
}

/// The position of the first delimiter occurrence in `s`, or a position
/// `p` with `p + 2 > s.len()` when there is none.
pub open spec fn find_delim(s: Seq<char>) -> nat
    decreases s.len(),
{
    if s.len() < 2 {
        s.len()
    } else if s[0] == '^' && s[1] == '^' {
        0
    } else {
        1 + find_delim(s.subrange(1, s.len() as int))
    }
}

/// `find_delim` returns the first occurrence, or an out-of-range
/// position exactly when there is none.
pub proof fn lemma_find_delim(s: Seq<char>)
    ensures
        find_delim(s) <= s.len(),
        find_delim(s) + 2 <= s.len() ==> delim_at(s, find_delim(s) as int),
        forall|j: int| 0 <= j < find_delim(s) ==> !delim_at(s, j),
        find_delim(s) + 2 > s.len() ==> forall|j: int| !delim_at(s, j),
        find_delim(s) + 2 > s.len() ==> find_delim(s) == s.len(),
    decreases s.len(),
{
    if s.len() < 2 {
    } else if s[0] == '^' && s[1] == '^' {
    } else {
        let t = s.subrange(1, s.len() as int);
        lemma_find_delim(t);
        assert(forall|j: int| 1 <= j ==> delim_at(s, j) == delim_at(t, j - 1));
        assert(!delim_at(s, 0));
    }
}

/// The fields of `s`, splitting on each delimiter occurrence.
pub open spec fn split_fields(s: Seq<char>) -> Seq<Seq<char>>
    decreases s.len(),
{
    let f = find_delim(s);
    if f + 2 <= s.len() {
        seq![s.subrange(0, f as int)] + split_fields(s.subrange(f as int + 2, s.len() as int))
    } else {
        seq![s]
    }
}

/// Joins fields back together with the delimiter between them.
pub open spec fn join_fields(toks: Seq<Seq<char>>) -> Seq<char>
    decreases toks.len(),
{
    if toks.len() == 0 {
        Seq::empty()
    } else if toks.len() == 1 {
        toks[0]
    } else {
        toks[0] + delim() + join_fields(toks.subrange(1, toks.len() as int))
    }
}

/// Splitting is a partition: joining the fields restores the input.
pub proof fn lemma_join_split(s: Seq<char>)
    ensures
        join_fields(split_fields(s)) == s,
    decreases s.len(),
{
    let f = find_delim(s);
    lemma_find_delim(s);
    if f + 2 <= s.len() {
        let rest = s.subrange(f as int + 2, s.len() as int);
        lemma_join_split(rest);
        let toks = split_fields(s);
        assert(toks == seq![s.subrange(0, f as int)] + split_fields(rest));
        assert(toks.len() >= 1);
        if split_fields(rest).len() == 0 {
            assert(false) by {
                lemma_split_fields_nonempty(rest);
            }
        }
        assert(toks.subrange(1, toks.len() as int) =~= split_fields(rest));
        assert(delim_at(s, f as int));
        assert(join_fields(toks) =~= s);
    } else {
        assert(join_fields(seq![s]) == s);
    }
}

pub proof fn lemma_split_fields_nonempty(s: Seq<char>)
    ensures
        split_fields(s).len() >= 1,
{
    let f = find_delim(s);
    if f + 2 <= s.len() {
    } else {
    }
}

/// Joining exactly eight fields, written out.
pub proof fn lemma_join_eight(toks: Seq<Seq<char>>)
    requires
        toks.len() == 8,
    ensures
        join_fields(toks) == toks[0] + delim() + toks[1] + delim() + toks[2] + delim() + toks[3]
            + delim() + toks[4] + delim() + toks[5] + delim() + toks[6] + delim() + toks[7],
{
    let s1 = toks.subrange(1, 8);
    let s2 = toks.subrange(2, 8);
    let s3 = toks.subrange(3, 8);
    let s4 = toks.subrange(4, 8);
    let s5 = toks.subrange(5, 8);
    let s6 = toks.subrange(6, 8);
    let s7 = toks.subrange(7, 8);
    assert(s1.subrange(1, 7) =~= s2);
    assert(s2.subrange(1, 6) =~= s3);
    assert(s3.subrange(1, 5) =~= s4);
    assert(s4.subrange(1, 4) =~= s5);
    assert(s5.subrange(1, 3) =~= s6);
    assert(s6.subrange(1, 2) =~= s7);
    assert(join_fields(s7) == toks[7]);
    assert(join_fields(s6) == toks[6] + delim() + join_fields(s7));
    assert(join_fields(s5) == toks[5] + delim() + join_fields(s6));
    assert(join_fields(s4) == toks[4] + delim() + join_fields(s5));
    assert(join_fields(s3) == toks[3] + delim() + join_fields(s4));
    assert(join_fields(s2) == toks[2] + delim() + join_fields(s3));
    assert(join_fields(s1) == toks[1] + delim() + join_fields(s2));
    assert(join_fields(toks) == toks[0] + delim() + join_fields(s1));
    assert(join_fields(toks) =~= toks[0] + delim() + toks[1] + delim() + toks[2] + delim()
        + toks[3] + delim() + toks[4] + delim() + toks[5] + delim() + toks[6] + delim()
        + toks[7]);
}

/// `s` contains no `'^'` at all, so it cannot interfere with the delimiter.
pub open spec fn no_caret(s: Seq<char>) -> bool {
    forall|i: int| 0 <= i < s.len() ==> s[i] != '^'
}

/// A free-text field that survives a record round trip: it contains no
/// delimiter occurrence, does not end in `'^'`, holds no line break, and
/// carries no surrounding whitespace.
pub open spec fn field_text_ok(s: Seq<char>) -> bool {
    &&& forall|j: int| !delim_at(s, j)
    &&& (s.len() > 0 ==> s[s.len() - 1] != '^')
    &&& forall|i: int| 0 <= i < s.len() ==> s[i] != '\n' && s[i] != '\r'
    &&& trimmed(s)
}

/// Splitting off the first field: if `f` holds no delimiter and does not
/// end in `'^'`, the first split of `f ++ delim ++ rest` is exactly `f`.
pub proof fn lemma_split_prefix(f: Seq<char>, rest: Seq<char>)
    requires
        forall|j: int| !delim_at(f, j),
        f.len() > 0 ==> f[f.len() - 1] != '^',
    ensures
        split_fields(f + delim() + rest) == seq![f] + split_fields(rest),
{
    let s = f + delim() + rest;
    let n = f.len() as int;
    assert(s.len() == f.len() + 2 + rest.len());
    assert(s[n] == '^' && s[n + 1] == '^');
    assert(delim_at(s, n));
    assert forall|j: int| 0 <= j < n implies !delim_at(s, j) by {
        if j + 1 < n {
            assert(s[j] == f[j] && s[j + 1] == f[j + 1]);
            assert(!delim_at(f, j));
        } else {
            assert(j == n - 1);
            assert(s[j] == f[f.len() - 1]);
        }
    }
    lemma_find_delim(s);
    let fd = find_delim(s);
    assert(fd + 2 <= s.len()) by {
        if fd + 2 > s.len() {
            assert(!delim_at(s, n));
        }
    }
    assert(fd == n) by {
        if fd < n {
            assert(delim_at(s, fd as int));
        }
        if fd > n {
            assert(!delim_at(s, n));
        }
    }
    assert(s.subrange(0, n) =~= f);
    assert(s.subrange(n + 2, s.len() as int) =~= rest);
}

/// A field with no delimiter occurrence splits into itself alone.
pub proof fn lemma_split_single(f: Seq<char>)
    requires
        forall|j: int| !delim_at(f, j),
    ensures
        split_fields(f) == seq![f],
{
    lemma_find_delim(f);
    let fd = find_delim(f);
    if fd + 2 <= f.len() {
        assert(delim_at(f, fd as int));
    }
}

/// A field is safe next to the delimiter: it holds no delimiter
/// occurrence and does not end in `'^'`.
pub open spec fn field_delim_safe(f: Seq<char>) -> bool {
    &&& forall|j: int| !delim_at(f, j)
    &&& (f.len() > 0 ==> f[f.len() - 1] != '^')
}

/// Splitting the join of delimiter-safe fields yields exactly those
/// fields.
pub proof fn lemma_split_join(toks: Seq<Seq<char>>)
    requires
        toks.len() >= 1,
        forall|k: int| 0 <= k < toks.len() ==> field_delim_safe(#[trigger] toks[k]),
    ensures
        split_fields(join_fields(toks)) == toks,
    decreases toks.len(),
{
    if toks.len() == 1 {
        lemma_split_single(toks[0]);
        assert(join_fields(toks) == toks[0]);
        assert(seq![toks[0]] =~= toks);
    } else {
        let rest = toks.subrange(1, toks.len() as int);
        assert(forall|k: int| 0 <= k < rest.len() ==> field_delim_safe(#[trigger] rest[k]));
        lemma_split_join(rest);
        assert(join_fields(toks) == toks[0] + delim() + join_fields(rest));
        lemma_split_prefix(toks[0], join_fields(rest));
        assert(seq![toks[0]] + rest =~= toks);
    }
}

/// No-caret text satisfies the delimiter-freedom half of `field_text_ok`.
pub proof fn lemma_no_caret_no_delim(s: Seq<char>)
    requires
        no_caret(s),
    ensures
        forall|j: int| !delim_at(s, j),
        s.len() > 0 ==> s[s.len() - 1] != '^',
{
    assert forall|j: int| !delim_at(s, j) by {
        if delim_at(s, j) {
            assert(s[j] == '^');
        }
    }
}

} // verus!
