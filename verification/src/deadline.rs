//! Deadlines: a calendar timestamp with a timezone offset, held as plain
//! field values. The encoder emits the fixed-width canonical form
//! `YYYY-MM-DD HH:MM:SS +HH:MM`; the parser also accepts the common
//! timestamp shapes found in persisted records (a `T` separator, a
//! fractional second, a `Z` or colon-less offset) and maps them to the
//! same plain fields, so the canonical form round-trips exactly.

use vstd::prelude::*;
use vstd::string::*;
use crate::text::{
    all_digits, convert_err_msg, digit_val, digits_seq, digits_string, lemma_digits_seq_len,
    lemma_digits_roundtrip, lemma_parse_digits_bound, lemma_power10_small, no_caret,
    parse_digits, parse_fixed_digits,
};

verus! {

/// A timestamp with a timezone offset, as plain calendar fields.
#[derive(PartialEq, Eq, Structural, Clone, Copy, Hash, Debug)]
pub struct Deadline {
    pub year: u16,
    pub month: u8,
    pub day: u8,
    pub hour: u8,
    pub minute: u8,
    pub second: u8,
    pub offset_negative: bool,
    pub offset_hour: u8,
    pub offset_minute: u8,
}

/// The field ranges of a well-formed deadline.
pub open spec fn wf_deadline(d: Deadline) -> bool {
    &&& d.year <= 9999
    &&& 1 <= d.month <= 12
    &&& 1 <= d.day <= 31
    &&& d.hour <= 23
    &&& d.minute <= 59
    &&& d.second <= 59
    &&& d.offset_hour <= 23
    &&& d.offset_minute <= 59
}

/// The text form of a deadline: `YYYY-MM-DD HH:MM:SS +HH:MM`, 26
/// characters, with `-` in place of `+` for a negative offset.
pub open spec fn deadline_chars(d: Deadline) -> Seq<char> {
    digits_seq(d.year as int, 4, 10) + seq!['-'] + digits_seq(d.month as int, 2, 10)
        + seq!['-'] + digits_seq(d.day as int, 2, 10) + seq![' ']
        + digits_seq(d.hour as int, 2, 10) + seq![':'] + digits_seq(d.minute as int, 2, 10)
        + seq![':'] + digits_seq(d.second as int, 2, 10) + seq![' ']
        + seq![if d.offset_negative { '-' } else { '+' }]
        + digits_seq(d.offset_hour as int, 2, 10) + seq![':']
        + digits_seq(d.offset_minute as int, 2, 10)
}

/// The number of leading decimal-digit characters of `t`.
pub open spec fn digit_run(t: Seq<char>) -> nat
    decreases t.len(),
{
    if t.len() > 0 && 0 <= digit_val(t[0]) < 10 {
        1 + digit_run(t.subrange(1, t.len() as int))
    } else {
        0
    }
}

/// Parses a timezone offset token: `Z` for the zero offset, or a sign
/// followed by two-digit hours and minutes, with or without a colon.
pub open spec fn parse_offset_spec(o: Seq<char>) -> Option<(bool, int, int)> {
    if o.len() == 1 && o[0] == 'Z' {
        Some((false, 0, 0))
    } else if o.len() == 6 && (o[0] == '+' || o[0] == '-') && all_digits(o.subrange(1, 3), 10)
        && o[3] == ':' && all_digits(o.subrange(4, 6), 10) {
        Some((o[0] == '-', parse_digits(o.subrange(1, 3), 10), parse_digits(o.subrange(4, 6), 10)))
    } else if o.len() == 5 && (o[0] == '+' || o[0] == '-') && all_digits(o.subrange(1, 5), 10) {
        Some((o[0] == '-', parse_digits(o.subrange(1, 3), 10), parse_digits(o.subrange(3, 5), 10)))
    } else {
        None
    }
}

/// Parses a deadline token. The grammar covers what the encoder emits
/// and the common timestamp shapes found in persisted records:
/// `YYYY-MM-DD`, then a space or `T`, then `HH:MM:SS`, an optional
/// fraction of a second (a dot and at least one digit, dropped on
/// parsing), and the offset, optionally after one space: `Z`,
/// `+HH:MM`, `-HH:MM`, `+HHMM` or `-HHMM`. Any other shape, and any
/// out-of-range field, is rejected.
pub open spec fn parse_deadline_spec(s: Seq<char>) -> Option<Deadline> {
    if s.len() >= 20 && s[4] == '-' && s[7] == '-' && (s[10] == ' ' || s[10] == 'T')
        && s[13] == ':' && s[16] == ':'
        && all_digits(s.subrange(0, 4), 10) && all_digits(s.subrange(5, 7), 10)
        && all_digits(s.subrange(8, 10), 10) && all_digits(s.subrange(11, 13), 10)
        && all_digits(s.subrange(14, 16), 10) && all_digits(s.subrange(17, 19), 10)
    {
        let tail = s.subrange(19, s.len() as int);
        let frac: int = if tail.len() >= 2 && tail[0] == '.'
            && digit_run(tail.subrange(1, tail.len() as int)) > 0 {
            1 + digit_run(tail.subrange(1, tail.len() as int)) as int
        } else {
            0
        };
        let rest = tail.subrange(frac, tail.len() as int);
        let off = if rest.len() >= 1 && rest[0] == ' ' {
            rest.subrange(1, rest.len() as int)
        } else {
            rest
        };
        match parse_offset_spec(off) {
            Some(parts) => {
                let d = Deadline {
                    year: parse_digits(s.subrange(0, 4), 10) as u16,
                    month: parse_digits(s.subrange(5, 7), 10) as u8,
                    day: parse_digits(s.subrange(8, 10), 10) as u8,
                    hour: parse_digits(s.subrange(11, 13), 10) as u8,
                    minute: parse_digits(s.subrange(14, 16), 10) as u8,
                    second: parse_digits(s.subrange(17, 19), 10) as u8,
                    offset_negative: parts.0,
                    offset_hour: parts.1 as u8,
                    offset_minute: parts.2 as u8,
                };
                if wf_deadline(d) {
                    Some(d)
                } else {
                    None
                }
            },
            None => None,
        }
    } else {
        None
    }
}

/// A deadline token that is exactly the text the encoder emits for its
/// value: the parse accepts more shapes, but only this one survives a
/// re-encoding unchanged.
pub open spec fn canonical_deadline_text(s: Seq<char>) -> bool {
    parse_deadline_spec(s) is Some && deadline_chars(parse_deadline_spec(s)->0) == s
}

/// The message reported for an unparsable deadline token.
pub open spec fn deadline_err_msg(tok: Seq<char>) -> Seq<char> {
    convert_err_msg(tok, "Deadline"@)
}

/// Parsing the text of a well-formed deadline restores the deadline.
pub proof fn lemma_deadline_roundtrip(d: Deadline)
    requires
        wf_deadline(d),
    ensures
        parse_deadline_spec(deadline_chars(d)) == Some(d),
{
    lemma_power10_small();
    lemma_digits_roundtrip(d.year as int, 4, 10);
    lemma_digits_roundtrip(d.month as int, 2, 10);
    lemma_digits_roundtrip(d.day as int, 2, 10);
    lemma_digits_roundtrip(d.hour as int, 2, 10);
    lemma_digits_roundtrip(d.minute as int, 2, 10);
    lemma_digits_roundtrip(d.second as int, 2, 10);
    lemma_digits_roundtrip(d.offset_hour as int, 2, 10);
    lemma_digits_roundtrip(d.offset_minute as int, 2, 10);
    let s = deadline_chars(d);
    assert(s.len() == 26);
    assert(s.subrange(0, 4) =~= digits_seq(d.year as int, 4, 10));
    assert(s.subrange(5, 7) =~= digits_seq(d.month as int, 2, 10));
    assert(s.subrange(8, 10) =~= digits_seq(d.day as int, 2, 10));
    assert(s.subrange(11, 13) =~= digits_seq(d.hour as int, 2, 10));
    assert(s.subrange(14, 16) =~= digits_seq(d.minute as int, 2, 10));
    assert(s.subrange(17, 19) =~= digits_seq(d.second as int, 2, 10));
    assert(s.subrange(21, 23) =~= digits_seq(d.offset_hour as int, 2, 10));
    assert(s.subrange(24, 26) =~= digits_seq(d.offset_minute as int, 2, 10));
    assert(s[4] == '-' && s[7] == '-' && s[10] == ' ' && s[13] == ':' && s[16] == ':'
        && s[19] == ' ');
    assert(s[20] == (if d.offset_negative { '-' } else { '+' }));
    let tail = s.subrange(19, s.len() as int);
    assert(tail[0] == ' ');
    assert(tail.subrange(0, tail.len() as int) =~= tail);
    let off = s.subrange(20, 26);
    assert(tail.subrange(1, tail.len() as int) =~= off);
    assert(off.len() == 6);
    assert(off[0] == s[20] && off[3] == s[23]);
    assert(off.subrange(1, 3) =~= s.subrange(21, 23));
    assert(off.subrange(4, 6) =~= s.subrange(24, 26));
    assert(parse_offset_spec(off) == Some((
        d.offset_negative,
        d.offset_hour as int,
        d.offset_minute as int,
    )));
}

proof fn lemma_digit_run(t: Seq<char>, m: int)
    requires
        0 <= m <= t.len(),
        forall|j: int| 0 <= j < m ==> 0 <= digit_val(#[trigger] t[j]) < 10,
        m == t.len() || !(0 <= digit_val(t[m]) < 10),
    ensures
        digit_run(t) == m,
    decreases m,
{
    if m == 0 {
    } else {
        let t2 = t.subrange(1, t.len() as int);
        assert(forall|j: int| 0 <= j < m - 1 ==> 0 <= digit_val(#[trigger] t2[j]) < 10) by {
            assert(forall|j: int| 0 <= j < m - 1 ==> t2[j] == t[j + 1]);
        }
        assert(m - 1 == t2.len() || !(0 <= digit_val(t2[m - 1]) < 10));
        lemma_digit_run(t2, m - 1);
    }
}

/// The deadline text never holds a caret.
pub proof fn lemma_deadline_no_caret(d: Deadline)
    ensures
        no_caret(deadline_chars(d)),
{
    lemma_digits_seq_len(d.year as int, 4, 10);
    lemma_digits_seq_len(d.month as int, 2, 10);
    lemma_digits_seq_len(d.day as int, 2, 10);
    lemma_digits_seq_len(d.hour as int, 2, 10);
    lemma_digits_seq_len(d.minute as int, 2, 10);
    lemma_digits_seq_len(d.second as int, 2, 10);
    lemma_digits_seq_len(d.offset_hour as int, 2, 10);
    lemma_digits_seq_len(d.offset_minute as int, 2, 10);
    let s = deadline_chars(d);
    assert forall|i: int| 0 <= i < s.len() implies s[i] != '^' by {
        if i == 4 || i == 7 || i == 10 || i == 13 || i == 16 || i == 19 || i == 20 || i == 23 {
            assert(s[i] != '^');
        } else {
            assert(crate::text::digit_val(s[i]) >= 0) by {
                lemma_digits_all(d);
            }
        }
    }
}

proof fn lemma_digits_all(d: Deadline)
    ensures
        all_digits(digits_seq(d.year as int, 4, 10), 10),
        all_digits(digits_seq(d.month as int, 2, 10), 10),
        all_digits(digits_seq(d.day as int, 2, 10), 10),
        all_digits(digits_seq(d.hour as int, 2, 10), 10),
        all_digits(digits_seq(d.minute as int, 2, 10), 10),
        all_digits(digits_seq(d.second as int, 2, 10), 10),
        all_digits(digits_seq(d.offset_hour as int, 2, 10), 10),
        all_digits(digits_seq(d.offset_minute as int, 2, 10), 10),
{
    lemma_digits_all_general(d.year as int, 4);
    lemma_digits_all_general(d.month as int, 2);
    lemma_digits_all_general(d.day as int, 2);
    lemma_digits_all_general(d.hour as int, 2);
    lemma_digits_all_general(d.minute as int, 2);
    lemma_digits_all_general(d.second as int, 2);
    lemma_digits_all_general(d.offset_hour as int, 2);
    lemma_digits_all_general(d.offset_minute as int, 2);
}

proof fn lemma_digits_all_general(v: int, n: nat)
    requires
        v >= 0,
    ensures
        all_digits(digits_seq(v, n, 10), 10),
    decreases n,
{
    if n > 0 {
        assert(v / 10 >= 0) by (nonlinear_arith)
            requires
                v >= 0,
        ;
        lemma_digits_all_general(v / 10, (n - 1) as nat);
        assert(0 <= v % 10 < 10);
        lemma_digits_seq_len(v / 10, (n - 1) as nat, 10);
    }
}

impl Deadline {
    /// Builds a deadline after checking every field range.
    pub fn checked(
        year: u16,
        month: u8,
        day: u8,
        hour: u8,
        minute: u8,
        second: u8,
        offset_negative: bool,
        offset_hour: u8,
        offset_minute: u8,
    ) -> (r: Option<Deadline>)
        ensures
            match r {
                Some(d) => wf_deadline(d) && d == (Deadline {
                    year, month, day, hour, minute, second,
                    offset_negative, offset_hour, offset_minute,
                }),
                None => !wf_deadline(Deadline {
                    year, month, day, hour, minute, second,
                    offset_negative, offset_hour, offset_minute,
                }),
            },
    {
        let d = Deadline {
            year, month, day, hour, minute, second,
            offset_negative, offset_hour, offset_minute,
        };
        if year <= 9999 && 1 <= month && month <= 12 && 1 <= day && day <= 31 && hour <= 23
            && minute <= 59 && second <= 59 && offset_hour <= 23 && offset_minute <= 59 {
            Some(d)
        } else {
            None
        }
    }

    /// Renders the fixed-width text form.
    pub fn to_text(&self) -> (r: String)
        ensures
            r@ == deadline_chars(*self),
    {
        let mut r = digits_string(self.year as u128, 4, 10);
        r.append("-");
        let p = digits_string(self.month as u128, 2, 10);
        r.append(p.as_str());
        r.append("-");
        let p = digits_string(self.day as u128, 2, 10);
        r.append(p.as_str());
        r.append(" ");
        let p = digits_string(self.hour as u128, 2, 10);
        r.append(p.as_str());
        r.append(":");
        let p = digits_string(self.minute as u128, 2, 10);
        r.append(p.as_str());
        r.append(":");
        let p = digits_string(self.second as u128, 2, 10);
        r.append(p.as_str());
        r.append(" ");
        if self.offset_negative {
            r.append("-");
        } else {
            r.append("+");
        }
        let p = digits_string(self.offset_hour as u128, 2, 10);
        r.append(p.as_str());
        r.append(":");
        let p = digits_string(self.offset_minute as u128, 2, 10);
        r.append(p.as_str());
        proof {
            reveal_strlit("-");
            reveal_strlit("+");
            reveal_strlit(" ");
            reveal_strlit(":");
            assert(r@ =~= deadline_chars(*self));
        }
        r
    }

    /// Parses a deadline token; the accepted grammar is the one
    /// `parse_deadline_spec` describes.
    #[verifier::loop_isolation(false)]
    #[verifier::rlimit(60)]
    pub fn parse_text(s: &str) -> (r: Option<Deadline>)
        ensures
            r == parse_deadline_spec(s@),
    {
        let n = s.unicode_len();
        if n < 20 {
            return None;
        }
        let sep = s.get_char(10);
        if s.get_char(4) != '-' || s.get_char(7) != '-' || (sep != ' ' && sep != 'T')
            || s.get_char(13) != ':' || s.get_char(16) != ':' {
            return None;
        }
        proof {
            lemma_power10_small();
        }
        let year = match parse_fixed_digits(s, 0, 4, 10) {
            Some(v) => v,
            None => { return None; },
        };
        let month = match parse_fixed_digits(s, 5, 7, 10) {
            Some(v) => v,
            None => { return None; },
        };
        let day = match parse_fixed_digits(s, 8, 10, 10) {
            Some(v) => v,
            None => { return None; },
        };
        let hour = match parse_fixed_digits(s, 11, 13, 10) {
            Some(v) => v,
            None => { return None; },
        };
        let minute = match parse_fixed_digits(s, 14, 16, 10) {
            Some(v) => v,
            None => { return None; },
        };
        let second = match parse_fixed_digits(s, 17, 19, 10) {
            Some(v) => v,
            None => { return None; },
        };
        let ghost tail = s@.subrange(19, n as int);
        let ghost tail1 = s@.subrange(20, n as int);
        proof {
            assert(tail.subrange(1, tail.len() as int) =~= tail1);
            assert(tail[0] == s@[19]);
        }
        let mut pos: usize = 19;
        if s.get_char(19) == '.' {
            let mut k: usize = 20;
            while k < n && is_digit10(s.get_char(k))
                invariant
                    20 <= k <= n,
                    forall|j: int| 20 <= j < k ==> 0 <= digit_val(#[trigger] s@[j]) < 10,
                decreases n - k,
            {
                k = k + 1;
            }
            proof {
                assert(forall|j: int| 0 <= j < k - 20 ==> 0 <= digit_val(#[trigger] tail1[j]) < 10);
                if (k as int) < n {
                    assert(tail1[k - 20] == s@[k as int]);
                }
                lemma_digit_run(tail1, k - 20);
            }
            if k == 20 {
                proof {
                    let rest = tail.subrange(0, tail.len() as int);
                    assert(rest =~= tail);
                    assert(rest[0] == '.');
                    if rest.len() >= 1 && rest[0] == ' ' {
                        assert(false);
                    }
                    assert(parse_offset_spec(rest) is None);
                }
                return None;
            }
            pos = k;
            proof {
                assert(digit_run(tail1) == k - 20);
                assert(tail.len() >= 2 && tail[0] == '.');
            }
        }
        let ghost frac: int = if tail.len() >= 2 && tail[0] == '.'
            && digit_run(tail.subrange(1, tail.len() as int)) > 0 {
            1 + digit_run(tail.subrange(1, tail.len() as int)) as int
        } else {
            0
        };
        let ghost rest = tail.subrange(frac, tail.len() as int);
        proof {
            assert(frac == pos - 19);
            assert(rest =~= s@.subrange(pos as int, n as int));
        }
        let off_start = if pos < n && s.get_char(pos) == ' ' { pos + 1 } else { pos };
        let ghost off = if rest.len() >= 1 && rest[0] == ' ' {
            rest.subrange(1, rest.len() as int)
        } else {
            rest
        };
        proof {
            assert(off =~= s@.subrange(off_start as int, n as int));
        }
        let olen = n - off_start;
        let parsed: (bool, u128, u128) = if olen == 1 && s.get_char(off_start) == 'Z' {
            (false, 0, 0)
        } else if olen == 6 {
            let sign = s.get_char(off_start);
            if sign != '+' && sign != '-' {
                return None;
            }
            if s.get_char(off_start + 3) != ':' {
                return None;
            }
            proof {
                assert(off.subrange(1, 3) =~= s@.subrange(off_start + 1, off_start + 3));
                assert(off.subrange(4, 6) =~= s@.subrange(off_start + 4, off_start + 6));
            }
            let oh = match parse_fixed_digits(s, off_start + 1, off_start + 3, 10) {
                Some(v) => v,
                None => { return None; },
            };
            let om = match parse_fixed_digits(s, off_start + 4, off_start + 6, 10) {
                Some(v) => v,
                None => { return None; },
            };
            proof {
                lemma_parse_digits_bound(s@.subrange(off_start + 1, off_start + 3), 10);
                lemma_parse_digits_bound(s@.subrange(off_start + 4, off_start + 6), 10);
            }
            (sign == '-', oh, om)
        } else if olen == 5 {
            let sign = s.get_char(off_start);
            if sign != '+' && sign != '-' {
                return None;
            }
            proof {
                assert(off.subrange(1, 3) =~= s@.subrange(off_start + 1, off_start + 3));
                assert(off.subrange(3, 5) =~= s@.subrange(off_start + 3, off_start + 5));
                assert(off.subrange(1, 5) =~= s@.subrange(off_start + 1, off_start + 5));
            }
            let oh = match parse_fixed_digits(s, off_start + 1, off_start + 3, 10) {
                Some(v) => v,
                None => {
                    proof {
                        assert(!all_digits(off.subrange(1, 5), 10)) by {
                            assert(forall|j: int| 0 <= j < 2
                                ==> off.subrange(1, 5)[j] == #[trigger] off.subrange(1, 3)[j]);
                        }
                    }
                    return None;
                },
            };
            let om = match parse_fixed_digits(s, off_start + 3, off_start + 5, 10) {
                Some(v) => v,
                None => {
                    proof {
                        assert(!all_digits(off.subrange(1, 5), 10)) by {
                            assert(forall|j: int| 0 <= j < 2
                                ==> off.subrange(1, 5)[j + 2] == #[trigger] off.subrange(3, 5)[j]);
                        }
                    }
                    return None;
                },
            };
            proof {
                assert(all_digits(off.subrange(1, 5), 10)) by {
                    assert(forall|j: int| 0 <= j < 4 ==> #[trigger] off.subrange(1, 5)[j]
                        == (if j < 2 { off.subrange(1, 3)[j] } else { off.subrange(3, 5)[j - 2] }));
                }
                lemma_parse_digits_bound(s@.subrange(off_start + 1, off_start + 3), 10);
                lemma_parse_digits_bound(s@.subrange(off_start + 3, off_start + 5), 10);
            }
            (sign == '-', oh, om)
        } else {
            return None;
        };
        let offset_negative = parsed.0;
        let offset_hour = parsed.1;
        let offset_minute = parsed.2;
        proof {
            assert(parse_offset_spec(off) == Some((
                offset_negative,
                offset_hour as int,
                offset_minute as int,
            )));
            lemma_parse_digits_bound(s@.subrange(0, 4), 10);
            lemma_parse_digits_bound(s@.subrange(5, 7), 10);
            lemma_parse_digits_bound(s@.subrange(8, 10), 10);
            lemma_parse_digits_bound(s@.subrange(11, 13), 10);
            lemma_parse_digits_bound(s@.subrange(14, 16), 10);
            lemma_parse_digits_bound(s@.subrange(17, 19), 10);
        }
        let d = Deadline {
            year: year as u16,
            month: month as u8,
            day: day as u8,
            hour: hour as u8,
            minute: minute as u8,
            second: second as u8,
            offset_negative,
            offset_hour: offset_hour as u8,
            offset_minute: offset_minute as u8,
        };
        if year <= 9999 && 1 <= month && month <= 12 && 1 <= day && day <= 31 && hour <= 23
            && minute <= 59 && second <= 59 && offset_hour <= 23 && offset_minute <= 59 {
            Some(d)
        } else {
            None
        }
    }
}

/// Whether a character is a decimal digit.
fn is_digit10(c: char) -> (r: bool)
    ensures
        r == (0 <= digit_val(c) < 10),
{
    match crate::text::digit_val_exec(c) {
        Some(d) => d < 10,
        None => false,
    }
}

/// The default deadline: the start of the Unix epoch, zero offset.
pub open spec fn default_deadline() -> Deadline {
    Deadline {
        year: 1970u16, month: 1u8, day: 1u8, hour: 0u8, minute: 0u8, second: 0u8,
        offset_negative: false, offset_hour: 0u8, offset_minute: 0u8,
    }
}

impl Default for Deadline {
    /// The start of the Unix epoch, with a zero offset.
    fn default() -> (r: Deadline)
        ensures
            r == default_deadline(),
            wf_deadline(r),
    {
        Deadline {
            year: 1970,
            month: 1,
            day: 1,
            hour: 0,
            minute: 0,
            second: 0,
            offset_negative: false,
            offset_hour: 0,
            offset_minute: 0,
        }
    }
}

} // verus!
