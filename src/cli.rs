use vstd::prelude::*;
use vstd::string::*;

verus! {

/// Why an `ID:REPS` argument was rejected.
#[derive(Debug, Clone, Copy, PartialEq, Eq, Structural)]
pub enum KeyValError {
    /// The text holds no `:`.
    NoSeparator,
    /// What follows the first `:` is not a repetition count.
    InvalidCount,
}

pub open spec fn is_digit(c: char) -> bool {
    '0' <= c <= '9'
}

/// The number written by a sequence of decimal digits.
pub open spec fn digits_value(s: Seq<char>) -> int
    decreases s.len(),
{
    if s.len() == 0 {
        0
    } else {
        digits_value(s.drop_last()) * 10 + (s.last() as int - '0' as int)
    }
}

/// The digits of an unsigned number's text: a single leading `+` is dropped.
pub open spec fn unsigned_digits(s: Seq<char>) -> Seq<char> {
    if s.len() > 0 && s[0] == '+' { s.drop_first() } else { s }
}

/// The text is an optional `+` and one or more decimal digits whose value fits in a `u32`.
pub open spec fn is_u32_text(s: Seq<char>) -> bool {
    let d = unsigned_digits(s);
    &&& d.len() > 0
    &&& forall|i: int| 0 <= i < d.len() ==> is_digit(#[trigger] d[i])
    &&& digits_value(d) <= u32::MAX
}

/// Relies on `u32`'s `FromStr`: an optional `+` followed by one or more ASCII
/// digits whose value fits in `u32`; anything else is an error.
#[verifier::external_body]
fn parse_u32(s: &str) -> (r: Option<u32>)
    ensures
        r is Some <==> is_u32_text(s@),
        r matches Some(v) ==> v == digits_value(unsigned_digits(s@)),
{
    s.parse::<u32>().ok()
}

/// Index of the first `:` of `s`, if any.
pub open spec fn first_colon(s: Seq<char>) -> Option<int> {
    if exists|i: int| 0 <= i < s.len() && s[i] == ':' {
        Some(choose|i: int| 0 <= i < s.len() && s[i] == ':' && forall|j: int| 0 <= j < i ==> s[j] != ':')
    } else {
        None
    }
}

/// Splits `ID:REPS` at its first `:` into the exercise id and its repetition target.
pub fn parse_key_val(s: &str) -> (r: Result<(String, u32), KeyValError>)
    ensures
        (r == Err::<(String, u32), KeyValError>(KeyValError::NoSeparator)) <==> !s@.contains(':'),
        (r == Err::<(String, u32), KeyValError>(KeyValError::InvalidCount)) <==> (s@.contains(':') && !is_u32_text(
            s@.subrange(first_colon(s@)->Some_0 + 1, s@.len() as int),
        )),
        r matches Ok((id, reps)) ==> {
            let p = first_colon(s@)->Some_0;
            &&& id@ == s@.subrange(0, p)
            &&& reps == digits_value(unsigned_digits(s@.subrange(p + 1, s@.len() as int)))
        },
{
    let n = s.unicode_len();
    let mut i: usize = 0;
    while i < n
        invariant
            i <= n,
            n == s@.len(),
            forall|j: int| 0 <= j < i ==> s@[j] != ':',
        ensures
            i <= n,
            forall|j: int| 0 <= j < i ==> s@[j] != ':',
            i < n ==> s@[i as int] == ':',
        decreases n - i,
    {
        if s.get_char(i) == ':' {
            break;
        }
        i = i + 1;
    }
    if i == n {
        assert(!s@.contains(':'));
        return Err(KeyValError::NoSeparator);
    }
    proof {
        assert(s@[i as int] == ':');
        assert(s@.contains(':'));
        let p = first_colon(s@)->Some_0;
        assert(0 <= p < s@.len() && s@[p] == ':' && forall|j: int| 0 <= j < p ==> s@[j] != ':');
        assert(p == i);
    }
    let id = s.substring_char(0, i).to_owned();
    let rest = s.substring_char(i + 1, n);
    match parse_u32(rest) {
        Some(v) => Ok((id, v)),
        None => Err(KeyValError::InvalidCount),
    }
}

} // verus!
