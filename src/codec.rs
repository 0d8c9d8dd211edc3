use vstd::prelude::*;
use vstd::arithmetic::div_mod::lemma_fundamental_div_mod;
use vstd::string::*;

use crate::record::{CommandRecord, RecordView};

verus! {

// Stored form of a record: `<count>:<output length>:<output><author id>`,
// both numbers in decimal and the length counted in characters.

pub open spec fn is_digit(c: char) -> bool {
    48 <= (c as u32) && (c as u32) <= 57
}

pub open spec fn digit_value(c: char) -> nat {
    ((c as u32) - 48) as nat
}

pub open spec fn digit_char(d: nat) -> char {
    (d + 48) as char
}

/// Decimal digits of `n`, most significant first, without leading zeros.
pub open spec fn decimal(n: nat) -> Seq<char>
    decreases n,
{
    if n < 10 {
        seq![digit_char(n)]
    } else {
        decimal(n / 10).push(digit_char(n % 10))
    }
}

/// The number that a string of decimal digits denotes.
pub open spec fn value_of(s: Seq<char>) -> nat
    decreases s.len(),
{
    if s.len() == 0 {
        0
    } else {
        value_of(s.drop_last()) * 10 + digit_value(s.last())
    }
}

/// The first index at or after `i` that holds no digit (or the length).
pub open spec fn run_end(s: Seq<char>, i: int) -> int
    decreases s.len() - i,
{
    if i >= s.len() || !is_digit(s[i]) {
        i
    } else {
        run_end(s, i + 1)
    }
}

/// The stored text of a record.
pub open spec fn encoding(r: RecordView) -> Seq<char> {
    decimal(r.invocation_count) + seq![':'] + decimal(r.output.len()) + seq![':'] + r.output
        + r.author_id
}

/// The record that a stored text denotes, if it is well formed.
pub open spec fn parse_record(s: Seq<char>) -> Option<RecordView> {
    let a = run_end(s, 0);
    let b = run_end(s, a + 1);
    let count = value_of(s.subrange(0, a));
    let len = value_of(s.subrange(a + 1, b));
    if 0 < a && a < s.len() && s[a] == ':' && a + 1 < b && b < s.len() && s[b] == ':' && b + 1
        + len <= s.len() && count <= usize::MAX {
        Some(
            RecordView {
                output: s.subrange(b + 1, b + 1 + len),
                author_id: s.subrange(b + 1 + len, s.len() as int),
                invocation_count: count,
            },
        )
    } else {
        None
    }
}

proof fn lemma_decimal(n: nat)
    ensures
        decimal(n).len() >= 1,
        forall|i: int| 0 <= i < decimal(n).len() ==> is_digit(#[trigger] decimal(n)[i]),
        value_of(decimal(n)) == n,
    decreases n,
{
    let d = n % 10;
    assert(digit_char(d) as u32 == d + 48);
    assert(digit_value(digit_char(d)) == d);
    lemma_fundamental_div_mod(n as int, 10);
    if n < 10 {
        assert(decimal(n).drop_last() =~= Seq::<char>::empty());
        assert(value_of(Seq::<char>::empty()) == 0);
        assert(value_of(decimal(n)) == value_of(Seq::<char>::empty()) * 10 + d);
    } else {
        lemma_decimal(n / 10);
        assert(decimal(n).drop_last() =~= decimal(n / 10));
        assert(value_of(decimal(n)) == (n / 10) * 10 + d);
    }
}

proof fn lemma_run_end(s: Seq<char>, i: int, j: int)
    requires
        0 <= i <= j <= s.len(),
        forall|k: int| i <= k < j ==> is_digit(#[trigger] s[k]),
        j == s.len() || !is_digit(s[j]),
    ensures
        run_end(s, i) == j,
    decreases j - i,
{
    if i < j {
        lemma_run_end(s, i + 1, j);
    }
}

proof fn lemma_run_end_bounds(s: Seq<char>, i: int)
    requires
        0 <= i <= s.len(),
    ensures
        i <= run_end(s, i) <= s.len(),
    decreases s.len() - i,
{
    if i < s.len() && is_digit(s[i]) {
        lemma_run_end_bounds(s, i + 1);
    }
}

proof fn lemma_value_grows(s: Seq<char>, lo: int, k: int, j: int)
    requires
        0 <= lo <= k <= j <= s.len(),
    ensures
        value_of(s.subrange(lo, k)) <= value_of(s.subrange(lo, j)),
    decreases j - k,
{
    if k < j {
        lemma_value_grows(s, lo, k, j - 1);
        assert(s.subrange(lo, j).drop_last() =~= s.subrange(lo, j - 1));
    }
}

/// Reading back the stored text of a valid record gives that record.
pub proof fn lemma_round_trip(r: RecordView)
    requires
        r.is_valid(),
    ensures
        parse_record(encoding(r)) == Some(r),
{
    let d1 = decimal(r.invocation_count);
    let d2 = decimal(r.output.len());
    let s = encoding(r);
    lemma_decimal(r.invocation_count);
    lemma_decimal(r.output.len());
    let a = d1.len() as int;
    let b = a + 1 + d2.len();
    assert(s[a] == ':');
    assert(s[b] == ':');
    assert forall|k: int| 0 <= k < a implies is_digit(#[trigger] s[k]) by {
        assert(s[k] == d1[k]);
    }
    lemma_run_end(s, 0, a);
    assert forall|k: int| a + 1 <= k < b implies is_digit(#[trigger] s[k]) by {
        assert(s[k] == d2[k - a - 1]);
    }
    lemma_run_end(s, a + 1, b);
    assert(s.subrange(0, a) =~= d1);
    assert(s.subrange(a + 1, b) =~= d2);
    let len = r.output.len() as int;
    assert(s.subrange(b + 1, b + 1 + len) =~= r.output);
    assert(s.subrange(b + 1 + len, s.len() as int) =~= r.author_id);
}

/// Relies on String::push: appends one character to the string.
#[verifier::external_body]
fn push_char(s: &mut String, c: char)
    ensures
        final(s)@ == old(s)@.push(c),
{
    s.push(c)
}

/// Appends the decimal digits of `n`.
pub(crate) fn push_decimal(s: &mut String, n: usize)
    ensures
        final(s)@ == old(s)@ + decimal(n as nat),
    decreases n,
{
    let ghost start = s@;
    if n >= 10 {
        push_decimal(s, n / 10);
    }
    let d: u8 = (n % 10) as u8;
    let c: char = (d + 48) as char;
    assert(c == digit_char((n % 10) as nat));
    push_char(s, c);
    assert(s@ =~= start + decimal(n as nat));
}

/// The stored text of a record.
pub fn encode_record(rec: &CommandRecord) -> (r: String)
    ensures
        r@ == encoding(rec@),
{
    let mut s = String::new();
    push_decimal(&mut s, rec.invocation_count);
    push_char(&mut s, ':');
    let len = rec.output.as_str().unicode_len();
    push_decimal(&mut s, len);
    push_char(&mut s, ':');
    s.append(rec.output.as_str());
    s.append(rec.author_id.as_str());
    assert(s@ =~= encoding(rec@));
    s
}

/// Reads the run of digits that starts at `start`, with its value and where it ends.
/// `None` when the value does not fit in a `usize`.
fn parse_number(text: &str, start: usize, n: usize) -> (r: Option<(usize, usize)>)
    requires
        n == text@.len(),
        start <= n,
    ensures
        match r {
            Some((v, e)) => e == run_end(text@, start as int) && v == value_of(
                text@.subrange(start as int, e as int),
            ),
            None => value_of(text@.subrange(start as int, run_end(text@, start as int)))
                > usize::MAX,
        },
{
    let mut i: usize = start;
    let mut v: usize = 0;
    assert(text@.subrange(start as int, start as int) =~= Seq::<char>::empty());
    loop
        invariant
            start <= i <= n,
            n == text@.len(),
            v == value_of(text@.subrange(start as int, i as int)),
            run_end(text@, start as int) == run_end(text@, i as int),
        ensures
            start <= i <= n,
            v == value_of(text@.subrange(start as int, i as int)),
            run_end(text@, start as int) == i,
        decreases n - i,
    {
        if i == n {
            assert(run_end(text@, i as int) == i);
            break;
        }
        let c = text.get_char(i);
        let code = c as u32;
        if code < 48 || code > 57 {
            assert(!is_digit(text@[i as int]));
            assert(run_end(text@, i as int) == i);
            break;
        }
        let d = (code - 48) as usize;
        let ghost next = text@.subrange(start as int, i + 1);
        assert(next.drop_last() =~= text@.subrange(start as int, i as int));
        assert(value_of(next) == v * 10 + d);
        proof {
            lemma_run_end_bounds(text@, i + 1);
            lemma_value_grows(text@, start as int, i + 1, run_end(text@, i + 1));
        }
        match v.checked_mul(10) {
            None => {
                return None;
            },
            Some(t) => match t.checked_add(d) {
                None => {
                    return None;
                },
                Some(w) => {
                    v = w;
                },
            },
        }
        i = i + 1;
    }
    Some((v, i))
}

/// The record that a stored text denotes; `None` when the text is malformed.
pub fn decode_record(text: &str) -> (r: Option<CommandRecord>)
    ensures
        match r {
            Some(rec) => parse_record(text@) == Some(rec@),
            None => parse_record(text@) is None,
        },
{
    let n = text.unicode_len();
    proof {
        lemma_run_end_bounds(text@, 0);
    }
    let (count, a) = match parse_number(text, 0, n) {
        Some(p) => p,
        None => {
            return None;
        },
    };
    if a == 0 || a >= n || text.get_char(a) != ':' {
        return None;
    }
    proof {
        lemma_run_end_bounds(text@, a + 1);
    }
    let (len, b) = match parse_number(text, a + 1, n) {
        Some(p) => p,
        None => {
            return None;
        },
    };
    if b == a + 1 || b >= n || text.get_char(b) != ':' {
        return None;
    }
    let body = b + 1;
    if len > n - body {
        return None;
    }
    let output = String::from_str(text.substring_char(body, body + len));
    let author_id = String::from_str(text.substring_char(body + len, n));
    Some(CommandRecord { output, author_id, invocation_count: count })
}

} // verus!
