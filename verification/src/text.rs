//! Character-level text helpers: lexicographic order, substring search,
//! decimal formatting and case folding.

use vstd::prelude::*;

verus! {

/// Whether `a` comes strictly before `b` in lexicographic order over
/// characters, comparing from position `i` on.
pub open spec fn lex_lt_from(a: Seq<char>, b: Seq<char>, i: int) -> bool
    decreases a.len() - i,
{
    if i < 0 {
        false
    } else if i >= a.len() {
        i < b.len()
    } else if i >= b.len() {
        false
    } else if a[i] != b[i] {
        (a[i] as u32) < (b[i] as u32)
    } else {
        lex_lt_from(a, b, i + 1)
    }
}

/// Whether `a` comes strictly before `b` in lexicographic order over
/// characters.
pub open spec fn lex_lt(a: Seq<char>, b: Seq<char>) -> bool {
    lex_lt_from(a, b, 0)
}

fn str_lt_from(a: &str, b: &str, i: usize, a_len: usize, b_len: usize) -> (r: bool)
    requires
        i <= a_len,
        i <= b_len,
        a_len == a@.len(),
        b_len == b@.len(),
    ensures
        r == lex_lt_from(a@, b@, i as int),
    decreases a_len - i,
{
    if i >= a_len {
        i < b_len
    } else if i >= b_len {
        false
    } else {
        let ca = a.get_char(i);
        let cb = b.get_char(i);
        if ca != cb {
            (ca as u32) < (cb as u32)
        } else {
            str_lt_from(a, b, i + 1, a_len, b_len)
        }
    }
}

/// Whether `a` comes strictly before `b` in lexicographic order.
pub fn str_lt(a: &str, b: &str) -> (r: bool)
    ensures
        r == lex_lt(a@, b@),
{
    let a_len = a.unicode_len();
    let b_len = b.unicode_len();
    str_lt_from(a, b, 0, a_len, b_len)
}

/// Whether `sub` occurs in `text` as a contiguous run starting at `i`.
pub open spec fn occurs_at(text: Seq<char>, sub: Seq<char>, i: int) -> bool {
    0 <= i && i + sub.len() <= text.len() && text.subrange(i, i + sub.len() as int) == sub
}

/// Whether `sub` occurs somewhere in `text`.
pub open spec fn contains_sub(text: Seq<char>, sub: Seq<char>) -> bool {
    exists|i: int| occurs_at(text, sub, i)
}

fn matches_at(text: &Vec<char>, sub: &Vec<char>, i: usize) -> (r: bool)
    requires
        i + sub@.len() <= text@.len(),
    ensures
        r == occurs_at(text@, sub@, i as int),
{
    let text_len = text.len();
    let mut j: usize = 0;
    while j < sub.len()
        invariant
            j <= sub@.len(),
            i + sub@.len() <= text@.len(),
            text_len == text@.len(),
            forall|k: int| 0 <= k < j ==> text@[i + k] == sub@[k],
        decreases sub@.len() - j,
    {
        if text[i + j] != sub[j] {
            assert(text@.subrange(i as int, i + sub@.len() as int)[j as int] != sub@[j as int]);
            return false;
        }
        j = j + 1;
    }
    proof {
        assert(text@.subrange(i as int, i + sub@.len() as int) =~= sub@);
    }
    true
}

/// Whether `sub` occurs in `text` as a contiguous run of characters.
pub fn chars_contain(text: &Vec<char>, sub: &Vec<char>) -> (r: bool)
    ensures
        r == contains_sub(text@, sub@),
{
    if sub.len() > text.len() {
        proof {
            assert forall|i: int| !occurs_at(text@, sub@, i) by {}
        }
        return false;
    }
    if sub.len() == 0 {
        proof {
            assert(text@.subrange(0, 0) =~= sub@);
            assert(occurs_at(text@, sub@, 0));
        }
        return true;
    }
    let tlen = text.len();
    let last = tlen - sub.len();
    let mut i: usize = 0;
    while i <= last
        invariant
            tlen == text@.len(),
            last == text@.len() - sub@.len(),
            last < tlen,
            sub@.len() >= 1,
            i <= last + 1,
            forall|k: int| 0 <= k < i ==> !occurs_at(text@, sub@, k),
        decreases last + 1 - i,
    {
        if matches_at(text, sub, i) {
            return true;
        }
        i = i + 1;
    }
    proof {
        assert forall|k: int| !occurs_at(text@, sub@, k) by {
            if k > last {
                assert(!occurs_at(text@, sub@, k));
            }
        }
    }
    false
}

/// The characters of `s`, in order.
pub fn to_chars(s: &str) -> (r: Vec<char>)
    ensures
        r@ == s@,
{
    let len = s.unicode_len();
    let mut r: Vec<char> = Vec::new();
    let mut i: usize = 0;
    while i < len
        invariant
            i <= len,
            len == s@.len(),
            r@ == s@.subrange(0, i as int),
        decreases len - i,
    {
        r.push(s.get_char(i));
        proof {
            assert(r@ =~= s@.subrange(0, i + 1));
        }
        i = i + 1;
    }
    proof {
        assert(s@.subrange(0, len as int) =~= s@);
    }
    r
}

/// Appends one character to a string.
/// Relies on `String::push`: it appends exactly the given character.
#[verifier::external_body]
pub fn push_char(s: &mut String, c: char)
    ensures
        final(s)@ == old(s)@.push(c),
{
    s.push(c);
}

/// A string holding the characters of `chars[lo..hi]`, in order.
pub fn from_chars_range(chars: &Vec<char>, lo: usize, hi: usize) -> (r: String)
    requires
        lo <= hi <= chars@.len(),
    ensures
        r@ == chars@.subrange(lo as int, hi as int),
{
    let mut r = String::new();
    let mut i: usize = lo;
    while i < hi
        invariant
            lo <= i <= hi <= chars@.len(),
            r@ == chars@.subrange(lo as int, i as int),
        decreases hi - i,
    {
        push_char(&mut r, chars[i]);
        proof {
            assert(r@ =~= chars@.subrange(lo as int, i + 1));
        }
        i = i + 1;
    }
    r
}

/// The decimal digit character for `d`.
pub open spec fn digit_char(d: int) -> char {
    if d == 0 {
        '0'
    } else if d == 1 {
        '1'
    } else if d == 2 {
        '2'
    } else if d == 3 {
        '3'
    } else if d == 4 {
        '4'
    } else if d == 5 {
        '5'
    } else if d == 6 {
        '6'
    } else if d == 7 {
        '7'
    } else if d == 8 {
        '8'
    } else {
        '9'
    }
}

/// The decimal writing of `n`, without sign.
pub open spec fn dec_digits(n: nat) -> Seq<char>
    decreases n,
{
    if n < 10 {
        seq![digit_char(n as int)]
    } else {
        dec_digits(n / 10) + seq![digit_char((n % 10) as int)]
    }
}

/// The decimal writing of `n`: a minus sign for negative numbers, then
/// the digits of the magnitude.
pub open spec fn dec_int(n: int) -> Seq<char> {
    if n >= 0 {
        dec_digits(n as nat)
    } else {
        seq!['-'] + dec_digits((-n) as nat)
    }
}

fn digit_to_char(d: u64) -> (c: char)
    requires
        d < 10,
    ensures
        c == digit_char(d as int),
{
    if d == 0 {
        '0'
    } else if d == 1 {
        '1'
    } else if d == 2 {
        '2'
    } else if d == 3 {
        '3'
    } else if d == 4 {
        '4'
    } else if d == 5 {
        '5'
    } else if d == 6 {
        '6'
    } else if d == 7 {
        '7'
    } else if d == 8 {
        '8'
    } else {
        '9'
    }
}

/// The decimal writing of `n`.
pub fn u64_to_string(n: u64) -> (r: String)
    ensures
        r@ == dec_digits(n as nat),
    decreases n,
{
    if n < 10 {
        let mut r = String::new();
        push_char(&mut r, digit_to_char(n));
        proof {
            assert(r@ =~= dec_digits(n as nat));
        }
        r
    } else {
        let mut r = u64_to_string(n / 10);
        push_char(&mut r, digit_to_char(n % 10));
        proof {
            assert(r@ =~= dec_digits(n as nat));
        }
        r
    }
}

/// The decimal writing of `n`, with a minus sign when negative.
pub fn i64_to_string(n: i64) -> (r: String)
    ensures
        r@ == dec_int(n as int),
{
    if n >= 0 {
        u64_to_string(n as u64)
    } else {
        let magnitude: u64 = ((-(n + 1)) as u64) + 1;
        let mut r = String::new();
        push_char(&mut r, '-');
        let digits = u64_to_string(magnitude);
        let r = r.concat(digits.as_str());
        proof {
            assert(r@ =~= dec_int(n as int));
        }
        r
    }
}

/// The lowercase folding of a sequence of characters, as computed by the
/// standard library.
pub uninterp spec fn lower_of(s: Seq<char>) -> Seq<char>;

/// Relies on `str::to_lowercase`: the result depends on the characters
/// alone, and an empty string stays empty.
#[verifier::external_body]
pub fn to_lowercase(s: &str) -> (r: String)
    ensures
        r@ == lower_of(s@),
        s@.len() == 0 ==> r@.len() == 0,
{
    s.to_lowercase()
}

} // verus!
