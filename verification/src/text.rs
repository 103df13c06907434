//! Character-level text helpers shared by the parser, the interpreter and the
//! layout engine: character classes, trimming, and conversions between
//! strings and character vectors.

use vstd::prelude::*;

verus! {

/// Whitespace as this library normalizes it: space, tab, newline, carriage
/// return.
pub open spec fn is_space_char(c: char) -> bool {
    c == ' ' || c == '\t' || c == '\n' || c == '\r'
}

/// Executable test for `is_space_char`.
pub fn is_space(c: char) -> (r: bool)
    ensures
        r == is_space_char(c),
{
    c == ' ' || c == '\t' || c == '\n' || c == '\r'
}

/// An ASCII letter.
pub open spec fn is_letter_char(c: char) -> bool {
    ('a' <= c && c <= 'z') || ('A' <= c && c <= 'Z')
}

/// Executable test for `is_letter_char`.
pub fn is_letter(c: char) -> (r: bool)
    ensures
        r == is_letter_char(c),
{
    ('a' <= c && c <= 'z') || ('A' <= c && c <= 'Z')
}

/// An ASCII digit.
pub open spec fn is_digit_char(c: char) -> bool {
    '0' <= c && c <= '9'
}

/// Executable test for `is_digit_char`.
pub fn is_digit(c: char) -> (r: bool)
    ensures
        r == is_digit_char(c),
{
    '0' <= c && c <= '9'
}

/// A character that may stand in a macro reference name: ASCII letter, digit
/// or underscore.
pub open spec fn is_word_char(c: char) -> bool {
    is_letter_char(c) || is_digit_char(c) || c == '_'
}

/// Executable test for `is_word_char`.
pub fn is_word(c: char) -> (r: bool)
    ensures
        r == is_word_char(c),
{
    is_letter(c) || is_digit(c) || c == '_'
}

/// Character-by-character string equality; equal strings have equal views.
pub fn str_eq(a: &str, b: &str) -> (r: bool)
    ensures
        r == (a@ == b@),
{
    let la = a.unicode_len();
    let lb = b.unicode_len();
    if la != lb {
        return false;
    }
    let mut i: usize = 0;
    while i < la
        invariant
            la == a@.len(),
            la == b@.len(),
            i <= la,
            forall|j: int| 0 <= j < i ==> a@[j] == b@[j],
        decreases la - i,
    {
        if a.get_char(i) != b.get_char(i) {
            return false;
        }
        i = i + 1;
    }
    proof {
        assert(a@ =~= b@);
    }
    true
}

/// The characters of a string as a vector, in order.
pub fn str_to_chars(s: &str) -> (v: Vec<char>)
    ensures
        v@ == s@,
{
    let n = s.unicode_len();
    let mut v: Vec<char> = Vec::new();
    let mut i: usize = 0;
    while i < n
        invariant
            n == s@.len(),
            i <= n,
            v@ =~= s@.subrange(0, i as int),
        decreases n - i,
    {
        v.push(s.get_char(i));
        i = i + 1;
    }
    proof {
        assert(v@ =~= s@);
    }
    v
}

/// Relies on `String::push`: appends the given character at the end of the
/// string.
#[verifier::external_body]
fn push_char(s: &mut String, c: char)
    ensures
        final(s)@ == old(s)@.push(c),
{
    s.push(c);
}

/// Appends `v[from..to]` at the end of `out`.
pub fn append_range(out: &mut Vec<char>, v: &Vec<char>, from: usize, to: usize)
    requires
        from <= to <= v@.len(),
    ensures
        final(out)@ == old(out)@ + v@.subrange(from as int, to as int),
{
    let ghost base = out@;
    let mut i = from;
    while i < to
        invariant
            from <= i <= to <= v@.len(),
            out@ =~= base + v@.subrange(from as int, i as int),
        decreases to - i,
    {
        out.push(v[i]);
        proof {
            assert(out@ =~= base + v@.subrange(from as int, i as int + 1));
        }
        i = i + 1;
    }
    proof {
        assert(out@ =~= base + v@.subrange(from as int, to as int));
    }
}

/// A string holding exactly the characters `v[from..to]`, in order.
pub fn chars_range_to_string(v: &Vec<char>, from: usize, to: usize) -> (s: String)
    requires
        from <= to <= v@.len(),
    ensures
        s@ == v@.subrange(from as int, to as int),
{
    let mut s = String::new();
    let mut i: usize = from;
    while i < to
        invariant
            from <= i <= to <= v@.len(),
            s@ =~= v@.subrange(from as int, i as int),
        decreases to - i,
    {
        push_char(&mut s, v[i]);
        proof {
            assert(s@ =~= v@.subrange(from as int, i as int + 1));
        }
        i = i + 1;
    }
    s
}

/// A string holding exactly the characters of `v`, in order.
pub fn chars_to_string(v: &Vec<char>) -> (s: String)
    ensures
        s@ == v@,
{
    let s = chars_range_to_string(v, 0, v.len());
    proof {
        assert(v@.subrange(0, v@.len() as int) =~= v@);
    }
    s
}

/// The character of a single decimal digit.
pub open spec fn digit_char(d: int) -> char {
    if d == 0 {
        '0'
    } else if d == 1 {
        '1'
    } else if d == 2 {
        '2'
    } else if d == 3 {
        '3'
    } else if d == 4 {
        '4'
    } else if d == 5 {
        '5'
    } else if d == 6 {
        '6'
    } else if d == 7 {
        '7'
    } else if d == 8 {
        '8'
    } else {
        '9'
    }
}

/// The decimal digits of a non-negative number, most significant first.
pub open spec fn dec_spec(n: int) -> Seq<char>
    decreases n,
{
    if n < 0 {
        Seq::empty()
    } else if n < 10 {
        seq![digit_char(n)]
    } else {
        dec_spec(n / 10).push(digit_char(n % 10))
    }
}

/// Executable twin of `digit_char`.
fn to_digit_char(d: u32) -> (c: char)
    requires
        d < 10,
    ensures
        c == digit_char(d as int),
{
    if d == 0 {
        '0'
    } else if d == 1 {
        '1'
    } else if d == 2 {
        '2'
    } else if d == 3 {
        '3'
    } else if d == 4 {
        '4'
    } else if d == 5 {
        '5'
    } else if d == 6 {
        '6'
    } else if d == 7 {
        '7'
    } else if d == 8 {
        '8'
    } else {
        '9'
    }
}

/// The decimal rendering of a number.
#[verifier::loop_isolation(false)]
pub fn u32_decimal(x: u32) -> (s: String)
    ensures
        s@ == dec_spec(x as int),
{
    let mut out: Vec<char> = Vec::new();
    if x == 0 {
        out.push('0');
        return chars_to_string(&out);
    }
    let mut n = x;
    while n > 0
        invariant
            dec_spec(x as int) == (if n > 0 {
                dec_spec(n as int)
            } else {
                Seq::<char>::empty()
            }) + out@,
        decreases n,
    {
        let ghost n_old = n as int;
        let ghost out_old = out@;
        let d = n % 10;
        out.insert(0, to_digit_char(d));
        proof {
            assert(out@ =~= seq![digit_char(d as int)] + out_old);
        }
        n = n / 10;
        proof {
            assert(n as int == n_old / 10);
            if n_old < 10 {
                assert(dec_spec(n_old) =~= seq![digit_char(d as int)]);
                assert(dec_spec(n_old) + out_old =~= Seq::<char>::empty() + out@);
            } else {
                assert(dec_spec(n_old) == dec_spec(n_old / 10).push(digit_char(n_old % 10)));
                assert(dec_spec(n_old / 10).push(digit_char(n_old % 10)) =~= dec_spec(n_old / 10)
                    + seq![digit_char(d as int)]);
                assert((dec_spec(n_old / 10) + seq![digit_char(d as int)]) + out_old
                    =~= dec_spec(n as int) + out@);
            }
        }
    }
    proof {
        assert(Seq::<char>::empty() + out@ =~= out@);
    }
    chars_to_string(&out)
}

/// The sequence with its leading whitespace removed.
pub open spec fn trim_front_spec(s: Seq<char>) -> Seq<char>
    decreases s.len(),
{
    if s.len() > 0 && is_space_char(s[0]) {
        trim_front_spec(s.skip(1))
    } else {
        s
    }
}

/// The sequence with its trailing whitespace removed.
pub open spec fn trim_back_spec(s: Seq<char>) -> Seq<char>
    decreases s.len(),
{
    if s.len() > 0 && is_space_char(s.last()) {
        trim_back_spec(s.drop_last())
    } else {
        s
    }
}

/// The sequence with leading and trailing whitespace removed.
pub open spec fn trim_spec(s: Seq<char>) -> Seq<char> {
    trim_back_spec(trim_front_spec(s))
}

/// The bounds of `v[from..to]` after trimming whitespace on both sides:
/// `v[lo..hi]` is the trimmed text.
pub fn trim_range(v: &Vec<char>, from: usize, to: usize) -> (r: (usize, usize))
    requires
        from <= to <= v@.len(),
    ensures
        from <= r.0 <= r.1 <= to,
        v@.subrange(r.0 as int, r.1 as int) == trim_spec(v@.subrange(from as int, to as int)),
{
    let mut lo: usize = from;
    while lo < to && is_space(v[lo])
        invariant
            from <= lo <= to <= v@.len(),
            trim_front_spec(v@.subrange(from as int, to as int)) == trim_front_spec(
                v@.subrange(lo as int, to as int),
            ),
        decreases to - lo,
    {
        proof {
            let cur = v@.subrange(lo as int, to as int);
            assert(cur[0] == v@[lo as int]);
            assert(cur.skip(1) =~= v@.subrange(lo as int + 1, to as int));
        }
        lo = lo + 1;
    }
    proof {
        let cur = v@.subrange(lo as int, to as int);
        if lo < to {
            assert(cur[0] == v@[lo as int]);
        }
        assert(trim_front_spec(cur) == cur);
    }
    let mut hi: usize = to;
    while hi > lo && is_space(v[hi - 1])
        invariant
            from <= lo <= hi <= to <= v@.len(),
            v@.subrange(lo as int, to as int) == trim_front_spec(
                v@.subrange(from as int, to as int),
            ),
            trim_back_spec(v@.subrange(lo as int, to as int)) == trim_back_spec(
                v@.subrange(lo as int, hi as int),
            ),
        decreases hi,
    {
        proof {
            let cur = v@.subrange(lo as int, hi as int);
            assert(cur.last() == v@[hi as int - 1]);
            assert(cur.drop_last() =~= v@.subrange(lo as int, hi as int - 1));
        }
        hi = hi - 1;
    }
    proof {
        let cur = v@.subrange(lo as int, hi as int);
        if hi > lo {
            assert(cur.last() == v@[hi as int - 1]);
        }
        assert(trim_back_spec(cur) == cur);
    }
    (lo, hi)
}

} // verus!
