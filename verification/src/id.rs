//! Task identifiers: a 128-bit value with the canonical hyphenated
//! lower-case hexadecimal text form, generated once at creation.

use vstd::prelude::*;
use vstd::string::*;
use crate::text::{
    all_digits, convert_err, convert_err_msg, digits_seq, digits_string, lemma_digits_seq_len,
    lemma_digits_roundtrip, lemma_power16_32, no_caret,
    parse_digits, parse_fixed_digits, power,
};

verus! {

/// A globally unique task identifier, assigned at creation and never
/// reassigned.
#[derive(PartialEq, Eq, Structural, Clone, Copy, Hash, Debug)]
pub struct TaskId {
    value: u128,
}

impl View for TaskId {
    type V = u128;

    closed spec fn view(&self) -> u128 {
        self.value
    }
}

/// The canonical text form of an identifier value: 32 lower-case hex
/// digits in five hyphen-separated groups of 8, 4, 4, 4 and 12.
pub open spec fn id_chars(v: u128) -> Seq<char> {
    let h = digits_seq(v as int, 32, 16);
    h.subrange(0, 8) + seq!['-'] + h.subrange(8, 12) + seq!['-'] + h.subrange(12, 16)
        + seq!['-'] + h.subrange(16, 20) + seq!['-'] + h.subrange(20, 32)
}

/// Parses the hyphenated text form back to the identifier value, with
/// the hex digits accepted in either case; any other shape is rejected.
pub open spec fn parse_id_spec(s: Seq<char>) -> Option<u128> {
    if s.len() == 36 && s[8] == '-' && s[13] == '-' && s[18] == '-' && s[23] == '-' {
        let h = s.subrange(0, 8) + s.subrange(9, 13) + s.subrange(14, 18) + s.subrange(19, 23)
            + s.subrange(24, 36);
        if all_digits(h, 16) {
            Some(parse_digits(h, 16) as u128)
        } else {
            None
        }
    } else {
        None
    }
}

/// The message reported for an unparsable identifier token.
pub open spec fn id_err_msg(tok: Seq<char>) -> Seq<char> {
    convert_err_msg(tok, "TaskId"@)
}

/// Parsing the canonical text of an identifier restores the identifier.
pub proof fn lemma_id_roundtrip(v: u128)
    ensures
        parse_id_spec(id_chars(v)) == Some(v),
{
    lemma_power16_32();
    lemma_digits_roundtrip(v as int, 32, 16);
    let h = digits_seq(v as int, 32, 16);
    let s = id_chars(v);
    assert(s.len() == 36);
    assert(s[8] == '-' && s[13] == '-' && s[18] == '-' && s[23] == '-');
    let h2 = s.subrange(0, 8) + s.subrange(9, 13) + s.subrange(14, 18) + s.subrange(19, 23)
        + s.subrange(24, 36);
    assert(h2 =~= h);
    assert(parse_digits(h2, 16) == v);
}

/// An identifier token that is exactly the text the encoder emits for
/// its value: the parse accepts more shapes (upper-case hex among
/// them), but only this one survives a re-encoding unchanged.
pub open spec fn canonical_id_text(s: Seq<char>) -> bool {
    parse_id_spec(s) is Some && id_chars(parse_id_spec(s)->0) == s
}

/// The canonical identifier text never holds a caret.
pub proof fn lemma_id_no_caret(v: u128)
    ensures
        no_caret(id_chars(v)),
{
    lemma_power16_32();
    lemma_digits_roundtrip(v as int, 32, 16);
    let h = digits_seq(v as int, 32, 16);
    let s = id_chars(v);
    assert forall|i: int| 0 <= i < s.len() implies s[i] != '^' by {
        if i == 8 || i == 13 || i == 18 || i == 23 {
            assert(s[i] == '-');
        } else {
            assert(crate::text::digit_val(s[i]) >= 0);
        }
    }
}

/// Two identifiers are equal exactly when their values are.
pub proof fn lemma_id_view_injective(a: TaskId, b: TaskId)
    ensures
        (a@ == b@) <==> (a == b),
{
}

/// Relies on uuid::Uuid::new_v4 for a freshly generated random
/// version-4 UUID, taken as its 128-bit value.
#[verifier::external_body]
fn fresh_uuid_value() -> u128 {
    uuid::Uuid::new_v4().as_u128()
}

impl TaskId {
    /// Generates a fresh identifier.
    pub fn generate() -> TaskId {
        TaskId { value: fresh_uuid_value() }
    }

    /// An identifier with a caller-chosen value.
    pub fn from_value(value: u128) -> (r: TaskId)
        ensures
            r@ == value,
    {
        TaskId { value }
    }

    /// The identifier's 128-bit value.
    pub fn value(&self) -> (r: u128)
        ensures
            r == self@,
    {
        self.value
    }

    /// Renders the canonical hyphenated hexadecimal text.
    pub fn to_text(&self) -> (r: String)
        ensures
            r@ == id_chars(self@),
    {
        proof {
            lemma_digits_seq_len(self.value as int, 32, 16);
        }
        let h = digits_string(self.value, 32, 16);
        let hs = h.as_str();
        let mut r = String::from_str(hs.substring_char(0, 8));
        r.append("-");
        r.append(hs.substring_char(8, 12));
        r.append("-");
        r.append(hs.substring_char(12, 16));
        r.append("-");
        r.append(hs.substring_char(16, 20));
        r.append("-");
        r.append(hs.substring_char(20, 32));
        proof {
            reveal_strlit("-");
            assert(r@ =~= id_chars(self@));
        }
        r
    }

    /// Parses the hyphenated text form, accepting the hex digits in
    /// either case; any other input is rejected with a conversion error
    /// message.
    pub fn try_from(s: &str) -> (r: Result<TaskId, String>)
        ensures
            match r {
                Ok(id) => parse_id_spec(s@) == Some(id@),
                Err(e) => parse_id_spec(s@) is None && e@ == id_err_msg(s@),
            },
    {
        let n = s.unicode_len();
        if n != 36 {
            return Err(convert_err(s, "TaskId"));
        }
        if s.get_char(8) != '-' || s.get_char(13) != '-' || s.get_char(18) != '-'
            || s.get_char(23) != '-' {
            return Err(convert_err(s, "TaskId"));
        }
        let mut h = String::from_str(s.substring_char(0, 8));
        h.append(s.substring_char(9, 13));
        h.append(s.substring_char(14, 18));
        h.append(s.substring_char(19, 23));
        h.append(s.substring_char(24, 36));
        proof {
            lemma_power16_32();
            assert(h@ =~= s@.subrange(0, 8) + s@.subrange(9, 13) + s@.subrange(14, 18)
                + s@.subrange(19, 23) + s@.subrange(24, 36));
            assert(h@.len() == 32);
            assert(h@.subrange(0, 32) =~= h@);
        }
        match parse_fixed_digits(h.as_str(), 0, 32, 16) {
            Some(v) => Ok(TaskId { value: v }),
            None => Err(convert_err(s, "TaskId")),
        }
    }
}

} // verus!
