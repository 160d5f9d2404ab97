//! Character-level text utilities: trimming, decimal integers, and the two
//! depth-tracking splitters that the decoder is built on.

use vstd::prelude::*;
use vstd::string::*;

verus! {

/// The character sequences a sequence of `String`s stands for.
pub open spec fn strs_of(v: Seq<String>) -> Seq<Seq<char>> {
    Seq::new(v.len(), |i: int| v[i]@)
}

/// The character sequences a sequence of `Vec<char>`s stands for.
pub open spec fn seqs_of(v: Seq<Vec<char>>) -> Seq<Seq<char>> {
    Seq::new(v.len(), |i: int| v[i]@)
}

/// The characters this library treats as blank when trimming.
pub open spec fn is_space(c: char) -> bool {
    c == ' ' || c == '\t' || c == '\n' || c == '\r'
}

pub open spec fn trim_left(s: Seq<char>) -> Seq<char>
    decreases s.len(),
{
    if s.len() > 0 && is_space(s[0]) {
        trim_left(s.subrange(1, s.len() as int))
    } else {
        s
    }
}

pub open spec fn trim_right(s: Seq<char>) -> Seq<char>
    decreases s.len(),
{
    if s.len() > 0 && is_space(s[s.len() - 1]) {
        trim_right(s.subrange(0, s.len() - 1))
    } else {
        s
    }
}

/// A sequence with leading and trailing blanks removed.
pub open spec fn spec_trim(s: Seq<char>) -> Seq<char> {
    trim_right(trim_left(s))
}

pub proof fn lemma_trim_left_len(s: Seq<char>)
    ensures
        trim_left(s).len() <= s.len(),
    decreases s.len(),
{
    if s.len() > 0 && is_space(s[0]) {
        lemma_trim_left_len(s.subrange(1, s.len() as int));
    }
}

pub proof fn lemma_trim_right_len(s: Seq<char>)
    ensures
        trim_right(s).len() <= s.len(),
    decreases s.len(),
{
    if s.len() > 0 && is_space(s[s.len() - 1]) {
        lemma_trim_right_len(s.subrange(0, s.len() - 1));
    }
}

pub proof fn lemma_trim_len(s: Seq<char>)
    ensures
        spec_trim(s).len() <= s.len(),
{
    lemma_trim_left_len(s);
    lemma_trim_right_len(trim_left(s));
}

fn is_space_char(c: char) -> (b: bool)
    ensures
        b == is_space(c),
{
    c == ' ' || c == '\t' || c == '\n' || c == '\r'
}

/// Copies `s` without its leading and trailing blanks.
pub fn trim_chars(s: &[char]) -> (r: Vec<char>)
    ensures
        r@ == spec_trim(s@),
{
    let len: usize = s.len();
    let mut lo: usize = 0;
    proof {
        assert(s@.subrange(0, len as int) =~= s@);
    }
    while lo < len && is_space_char(s[lo])
        invariant
            len == s@.len(),
            lo <= len,
            trim_left(s@) == trim_left(s@.subrange(lo as int, len as int)),
        decreases len - lo,
    {
        proof {
            let tail = s@.subrange(lo as int, len as int);
            assert(tail.subrange(1, tail.len() as int) =~= s@.subrange(lo + 1, len as int));
        }
        lo = lo + 1;
    }
    proof {
        let tail = s@.subrange(lo as int, len as int);
        assert(trim_left(s@) == tail);
    }
    let mut hi: usize = len;
    while hi > lo && is_space_char(s[hi - 1])
        invariant
            len == s@.len(),
            lo <= hi <= len,
            trim_right(s@.subrange(lo as int, len as int)) == trim_right(
                s@.subrange(lo as int, hi as int),
            ),
        decreases hi,
    {
        proof {
            let cur = s@.subrange(lo as int, hi as int);
            assert(cur.subrange(0, cur.len() - 1) =~= s@.subrange(lo as int, hi - 1));
        }
        hi = hi - 1;
    }
    proof {
        assert(trim_right(s@.subrange(lo as int, hi as int)) == s@.subrange(lo as int, hi as int));
    }
    let mut out: Vec<char> = Vec::new();
    let mut i: usize = lo;
    while i < hi
        invariant
            lo <= i <= hi <= len,
            len == s@.len(),
            out@ =~= s@.subrange(lo as int, i as int),
        decreases hi - i,
    {
        out.push(s[i]);
        proof {
            assert(out@ =~= s@.subrange(lo as int, i + 1));
        }
        i = i + 1;
    }
    proof {
        assert(out@ =~= spec_trim(s@));
    }
    out
}

/// Reads the characters of a string slice into a vector.
pub fn str_to_chars(s: &str) -> (r: Vec<char>)
    ensures
        r@ == s@,
{
    let len: usize = s.unicode_len();
    let mut out: Vec<char> = Vec::new();
    let mut i: usize = 0;
    while i < len
        invariant
            len == s@.len(),
            i <= len,
            out@ =~= s@.subrange(0, i as int),
        decreases len - i,
    {
        out.push(s.get_char(i));
        proof {
            assert(out@ =~= s@.subrange(0, i + 1));
        }
        i = i + 1;
    }
    proof {
        assert(out@ =~= s@);
    }
    out
}

/// Relies on std's `FromIterator<char>` for `String`: collecting an iterator
/// of characters yields the string made of exactly those characters in order.
#[verifier::external_body]
pub fn chars_to_string(v: &Vec<char>) -> (r: String)
    ensures
        r@ == v@,
{
    v.iter().collect()
}

/// Appends the characters of `s` to `out`.
pub fn push_str_chars(out: &mut Vec<char>, s: &str)
    ensures
        final(out)@ == old(out)@ + s@,
{
    let len: usize = s.unicode_len();
    let mut i: usize = 0;
    proof {
        assert(out@ =~= old(out)@ + s@.subrange(0, 0));
    }
    while i < len
        invariant
            len == s@.len(),
            i <= len,
            out@ == old(out)@ + s@.subrange(0, i as int),
        decreases len - i,
    {
        out.push(s.get_char(i));
        proof {
            assert(out@ =~= old(out)@ + s@.subrange(0, i + 1));
        }
        i = i + 1;
    }
    proof {
        assert(out@ =~= old(out)@ + s@);
    }
}

/// True when the slice holds exactly the characters of `lit`.
pub fn chars_eq_str(s: &[char], lit: &str) -> (b: bool)
    ensures
        b == (s@ == lit@),
{
    let n: usize = lit.unicode_len();
    if s.len() != n {
        return false;
    }
    let mut i: usize = 0;
    while i < n
        invariant
            n == lit@.len(),
            s@.len() == n,
            i <= n,
            forall|j: int| 0 <= j < i ==> s@[j] == lit@[j],
        decreases n - i,
    {
        if s[i] != lit.get_char(i) {
            return false;
        }
        i = i + 1;
    }
    proof {
        assert(s@ =~= lit@);
    }
    true
}

/// Decimal digit predicates and values.
pub open spec fn is_digit(c: char) -> bool {
    48 <= c as u32 <= 57
}

pub open spec fn all_digits(s: Seq<char>) -> bool {
    forall|i: int| 0 <= i < s.len() ==> is_digit(s[i])
}

pub fn is_digit_char(c: char) -> (b: bool)
    ensures
        b == is_digit(c),
{
    let u: u32 = c as u32;
    48 <= u && u <= 57
}

pub open spec fn digit_val(c: char) -> int {
    c as u32 - 48
}

/// Numeric value of a digit string, most significant digit first.
pub open spec fn digits_value(s: Seq<char>) -> int
    decreases s.len(),
{
    if s.len() == 0 {
        0
    } else {
        digits_value(s.subrange(0, s.len() - 1)) * 10 + digit_val(s[s.len() - 1])
    }
}

pub proof fn lemma_digits_value_nonneg(s: Seq<char>)
    requires
        all_digits(s),
    ensures
        digits_value(s) >= 0,
    decreases s.len(),
{
    if s.len() > 0 {
        let pre = s.subrange(0, s.len() - 1);
        assert(all_digits(pre));
        lemma_digits_value_nonneg(pre);
    }
}

/// A digit string's value only grows as digits are appended.
pub proof fn lemma_digits_value_prefix(s: Seq<char>, k: int)
    requires
        all_digits(s),
        0 <= k <= s.len(),
    ensures
        digits_value(s.subrange(0, k)) <= digits_value(s),
    decreases s.len() - k,
{
    if k < s.len() {
        let next = s.subrange(0, k + 1);
        assert(next.subrange(0, k) =~= s.subrange(0, k));
        assert(all_digits(s.subrange(0, k)));
        lemma_digits_value_nonneg(s.subrange(0, k));
        assert(digits_value(next) == digits_value(s.subrange(0, k)) * 10 + digit_val(s[k]));
        lemma_digits_value_prefix(s, k + 1);
    } else {
        assert(s.subrange(0, k) =~= s);
    }
}

pub open spec fn digit_char(d: nat) -> char {
    ((48 + d) as u8) as char
}

/// Canonical decimal text of a non-negative number.
pub open spec fn dec_digits(n: nat) -> Seq<char>
    decreases n,
{
    if n < 10 {
        seq![digit_char(n)]
    } else {
        dec_digits(n / 10).push(digit_char(n % 10))
    }
}

/// Canonical decimal text of an integer, `-` first when negative.
pub open spec fn spec_int_text(i: int) -> Seq<char> {
    if i < 0 {
        seq!['-'] + dec_digits((-i) as nat)
    } else {
        dec_digits(i as nat)
    }
}

fn digit_to_char(d: u64) -> (c: char)
    requires
        d < 10,
    ensures
        c == digit_char(d as nat),
{
    ((48 + d as u8)) as char
}

/// Appends the decimal text of `n`.
pub fn push_u64_digits(out: &mut Vec<char>, n: u64)
    ensures
        final(out)@ == old(out)@ + dec_digits(n as nat),
    decreases n,
{
    if n < 10 {
        out.push(digit_to_char(n));
        proof {
            assert(final(out)@ =~= old(out)@ + dec_digits(n as nat));
        }
    } else {
        push_u64_digits(out, n / 10);
        out.push(digit_to_char(n % 10));
        proof {
            assert(final(out)@ =~= old(out)@ + dec_digits(n as nat));
        }
    }
}

/// Appends the decimal text of a signed integer.
pub fn push_i64_digits(out: &mut Vec<char>, n: i64)
    ensures
        final(out)@ == old(out)@ + spec_int_text(n as int),
{
    if n < 0 {
        out.push('-');
        let mag: u64 = if n == i64::MIN {
            9223372036854775808u64
        } else {
            (-n) as u64
        };
        proof {
            assert(mag as nat == (-(n as int)) as nat);
        }
        push_u64_digits(out, mag);
        proof {
            assert(final(out)@ =~= old(out)@ + spec_int_text(n as int));
        }
    } else {
        push_u64_digits(out, n as u64);
    }
}

/// Appends the decimal text of a count.
pub fn push_usize_digits(out: &mut Vec<char>, n: usize)
    ensures
        final(out)@ == old(out)@ + dec_digits(n as nat),
{
    push_u64_digits(out, n as u64);
}

/// What parsing decimal text as a signed 64-bit integer yields: an optional
/// sign followed by one or more digits whose value fits, and nothing else.
pub open spec fn spec_parse_i64(s: Seq<char>) -> Option<i64> {
    let neg = s.len() > 0 && s[0] == '-';
    let signed = s.len() > 0 && (s[0] == '-' || s[0] == '+');
    let ds = if signed {
        s.subrange(1, s.len() as int)
    } else {
        s
    };
    if ds.len() > 0 && all_digits(ds) {
        let v = digits_value(ds);
        if !neg && v <= i64::MAX as int {
            Some(v as i64)
        } else if neg && v <= 9223372036854775808int {
            Some((-v) as i64)
        } else {
            None
        }
    } else {
        None
    }
}

/// Parses decimal text as the notation's number lane does.
pub fn parse_i64_chars(s: &[char]) -> (r: Option<i64>)
    ensures
        r == spec_parse_i64(s@),
{
    let len: usize = s.len();
    if len == 0 {
        return None;
    }
    let neg: bool = s[0] == '-';
    let signed: bool = s[0] == '-' || s[0] == '+';
    let start: usize = if signed {
        1
    } else {
        0
    };
    let ghost ds = if signed {
        s@.subrange(1, len as int)
    } else {
        s@
    };
    if start == len {
        return None;
    }
    let mut acc: u128 = 0;
    let mut i: usize = start;
    while i < len
        invariant
            len == s@.len(),
            len > 0,
            start <= i <= len,
            neg == (s@[0] == '-'),
            signed == (s@[0] == '-' || s@[0] == '+'),
            start == (if signed { 1int } else { 0int }),
            ds == (if signed { s@.subrange(1, len as int) } else { s@ }),
            ds.len() == len - start,
            forall|j: int| 0 <= j < i - start ==> ds[j] == s@[j + start] && is_digit(ds[j]),
            acc as int == digits_value(ds.subrange(0, i - start)),
            acc <= 9223372036854775808u128,
        decreases len - i,
    {
        let c = s[i];
        if !is_digit_char(c) {
            proof {
                assert(ds[i - start] == s@[i as int]);
                assert(!is_digit(ds[i - start]));
                assert(!all_digits(ds));
            }
            return None;
        }
        proof {
            assert(c as u32 >= 48);
        }
        let d: u128 = (c as u32 as u128) - 48;
        proof {
            let m = i - start;
            let next = ds.subrange(0, m + 1);
            assert(next.subrange(0, m) =~= ds.subrange(0, m));
            assert(next[m] == ds[m]) by {
                assert(ds[m] == s@[i as int]);
            }
            assert(digits_value(next) == digits_value(ds.subrange(0, m)) * 10 + digit_val(ds[m]));
        }
        acc = acc * 10 + d;
        i = i + 1;
        if acc > 9223372036854775808u128 {
            proof {
                let m = i - start;
                assert(acc as int == digits_value(ds.subrange(0, m)));
                if all_digits(ds) {
                    lemma_digits_value_prefix(ds, m);
                    assert(digits_value(ds) >= acc as int);
                    assert(spec_parse_i64(s@) is None);
                } else {
                    assert(spec_parse_i64(s@) is None);
                }
            }
            return None;
        }
    }
    proof {
        assert(ds.subrange(0, ds.len() as int) =~= ds);
        assert(acc as int == digits_value(ds));
        assert(all_digits(ds));
    }
    if neg {
        if acc == 9223372036854775808u128 {
            Some(i64::MIN)
        } else {
            Some(-((acc as u64) as i64))
        }
    } else {
        if acc <= i64::MAX as u128 {
            Some(acc as i64)
        } else {
            None
        }
    }
}

/// Decimal digits carry their own value back: rendering then revaluing a
/// number is the identity.
pub proof fn lemma_dec_digits_value(n: nat)
    ensures
        dec_digits(n).len() >= 1,
        all_digits(dec_digits(n)),
        digits_value(dec_digits(n)) == n,
        is_digit(dec_digits(n)[0]),
    decreases n,
{
    if n < 10 {
        assert(digit_char(n) as u32 == 48 + n);
        assert(digit_val(digit_char(n)) == n);
        assert(dec_digits(n) == seq![digit_char(n)]);
        assert(is_digit(digit_char(n)));
        assert(dec_digits(n).subrange(0, 0) =~= Seq::<char>::empty());
        assert(digits_value(Seq::<char>::empty()) == 0);
        assert(digits_value(dec_digits(n)) == digits_value(dec_digits(n).subrange(0, 0)) * 10
            + digit_val(dec_digits(n)[0]));
    } else {
        lemma_dec_digits_value(n / 10);
        let pre = dec_digits(n / 10);
        let whole = pre.push(digit_char((n % 10) as nat));
        assert(whole.subrange(0, whole.len() - 1) =~= pre);
        assert(is_digit(digit_char((n % 10) as nat)));
        assert(all_digits(whole)) by {
            assert(forall|i: int|
                0 <= i < whole.len() ==> #[trigger] whole[i] == (if i < pre.len() {
                    pre[i]
                } else {
                    digit_char((n % 10) as nat)
                }));
        }
        assert(digit_char((n % 10) as nat) as u32 == 48 + n % 10);
        assert(digit_val(digit_char((n % 10) as nat)) == n % 10);
        assert(digits_value(whole) == digits_value(pre) * 10 + digit_val(digit_char(
            (n % 10) as nat,
        )));
        assert(digits_value(pre) * 10 + n % 10 == n) by {
            vstd::arithmetic::div_mod::lemma_fundamental_div_mod(n as int, 10);
        }
    }
}

/// A sequence of digits (optionally after a sign) has no blanks to trim.
pub proof fn lemma_trim_no_space(s: Seq<char>)
    requires
        s.len() > 0,
        !is_space(s[0]),
        !is_space(s[s.len() - 1]),
    ensures
        spec_trim(s) == s,
{
}

/// Parsing the canonical decimal text of a 64-bit integer returns it.
pub proof fn lemma_parse_int_text(n: i64)
    ensures
        spec_parse_i64(spec_int_text(n as int)) == Some(n),
{
    if n >= 0 {
        lemma_dec_digits_value(n as nat);
        let s = spec_int_text(n as int);
        assert(s == dec_digits(n as nat));
    } else {
        let mag = (-(n as int)) as nat;
        lemma_dec_digits_value(mag);
        let s = spec_int_text(n as int);
        assert(s == seq!['-'] + dec_digits(mag));
        assert(s[0] == '-');
        assert(s.subrange(1, s.len() as int) =~= dec_digits(mag));
    }
}

/// State of the depth-tracking splitter after some prefix of the input.
pub struct SplitState {
    pub parts: Seq<Seq<char>>,
    pub buf: Seq<char>,
    pub dp: int,
    pub db: int,
}

pub open spec fn split_init() -> SplitState {
    SplitState { parts: Seq::empty(), buf: Seq::empty(), dp: 0, db: 0 }
}

/// One splitter step: track `(`/`)` and `[`/`]` depth, and close the current
/// part on a delimiter only at depth zero.  Parts are trimmed as they close.
pub open spec fn split_step(st: SplitState, c: char, delim: char) -> SplitState {
    if c == '(' {
        SplitState { parts: st.parts, buf: st.buf.push(c), dp: st.dp + 1, db: st.db }
    } else if c == ')' {
        SplitState { parts: st.parts, buf: st.buf.push(c), dp: st.dp - 1, db: st.db }
    } else if c == '[' {
        SplitState { parts: st.parts, buf: st.buf.push(c), dp: st.dp, db: st.db + 1 }
    } else if c == ']' {
        SplitState { parts: st.parts, buf: st.buf.push(c), dp: st.dp, db: st.db - 1 }
    } else if c == delim && st.dp == 0 && st.db == 0 {
        SplitState { parts: st.parts.push(spec_trim(st.buf)), buf: Seq::empty(), dp: 0, db: 0 }
    } else {
        SplitState { parts: st.parts, buf: st.buf.push(c), dp: st.dp, db: st.db }
    }
}

pub open spec fn split_run(s: Seq<char>, n: int, delim: char) -> SplitState
    decreases n,
{
    if n <= 0 {
        split_init()
    } else {
        split_step(split_run(s, n - 1, delim), s[n - 1], delim)
    }
}

/// Splitting on a delimiter at bracket depth zero; each part is trimmed, and
/// a last part is kept only if it is non-blank.
pub open spec fn spec_split(s: Seq<char>, delim: char) -> Seq<Seq<char>> {
    let st = split_run(s, s.len() as int, delim);
    if spec_trim(st.buf).len() > 0 {
        st.parts.push(spec_trim(st.buf))
    } else {
        st.parts
    }
}

proof fn lemma_split_run_bounds(s: Seq<char>, n: int, delim: char)
    requires
        0 <= n <= s.len(),
    ensures
        split_run(s, n, delim).buf.len() <= n,
        forall|i: int|
            0 <= i < split_run(s, n, delim).parts.len() ==> #[trigger] split_run(
                s,
                n,
                delim,
            ).parts[i].len() <= n,
    decreases n,
{
    if n > 0 {
        lemma_split_run_bounds(s, n - 1, delim);
        let prev = split_run(s, n - 1, delim);
        lemma_trim_len(prev.buf);
    }
}

/// Every part a split yields is no longer than the split input.
pub proof fn lemma_split_parts_len(s: Seq<char>, delim: char)
    ensures
        forall|i: int|
            0 <= i < spec_split(s, delim).len() ==> #[trigger] spec_split(s, delim)[i].len()
                <= s.len(),
{
    lemma_split_run_bounds(s, s.len() as int, delim);
    let st = split_run(s, s.len() as int, delim);
    lemma_trim_len(st.buf);
}

/// Core splitter shared by the comma and semicolon entry points.
pub(crate) fn split_top_level(s: &[char], delim: char) -> (r: Vec<Vec<char>>)
    ensures
        seqs_of(r@) == spec_split(s@, delim),
{
    let len: usize = s.len();
    let mut parts: Vec<Vec<char>> = Vec::new();
    let mut buf: Vec<char> = Vec::new();
    let mut dp: i128 = 0;
    let mut db: i128 = 0;
    let mut i: usize = 0;
    proof {
        assert(seqs_of(parts@) =~= Seq::<Seq<char>>::empty());
        assert(split_run(s@, 0, delim) == (SplitState {
            parts: seqs_of(parts@),
            buf: buf@,
            dp: dp as int,
            db: db as int,
        }));
    }
    while i < len
        invariant
            len == s@.len(),
            i <= len,
            -(i as int) <= dp as int <= i as int,
            -(i as int) <= db as int <= i as int,
            split_run(s@, i as int, delim) == (SplitState {
                parts: seqs_of(parts@),
                buf: buf@,
                dp: dp as int,
                db: db as int,
            }),
        decreases len - i,
    {
        let ghost pre = split_run(s@, i as int, delim);
        let c = s[i];
        if c == '(' {
            buf.push(c);
            dp = dp + 1;
        } else if c == ')' {
            buf.push(c);
            dp = dp - 1;
        } else if c == '[' {
            buf.push(c);
            db = db + 1;
        } else if c == ']' {
            buf.push(c);
            db = db - 1;
        } else if c == delim && dp == 0 && db == 0 {
            let t = trim_chars(buf.as_slice());
            parts.push(t);
            buf = Vec::new();
        } else {
            buf.push(c);
        }
        i = i + 1;
        proof {
            let post = split_step(pre, s@[i - 1], delim);
            assert(split_run(s@, i as int, delim) == post);
            assert(seqs_of(parts@) =~= post.parts);
            assert(buf@ =~= post.buf);
            assert(split_run(s@, i as int, delim) == (SplitState {
                parts: seqs_of(parts@),
                buf: buf@,
                dp: dp as int,
                db: db as int,
            }));
        }
    }
    let t = trim_chars(buf.as_slice());
    if t.len() > 0 {
        parts.push(t);
        proof {
            assert(seqs_of(parts@) =~= spec_split(s@, delim));
        }
    } else {
        proof {
            assert(seqs_of(parts@) =~= spec_split(s@, delim));
        }
    }
    parts
}

/// Splits `s` on commas that sit outside every parenthesis and bracket pair.
pub fn split_top_level_commas(s: &str) -> (r: Vec<String>)
    ensures
        strs_of(r@) == spec_split(s@, ','),
{
    let chars = str_to_chars(s);
    let parts = split_top_level(chars.as_slice(), ',');
    vecs_to_strings(parts)
}

/// Splits `s` on semicolons that sit outside every parenthesis and bracket
/// pair.
pub fn split_top_level_semicolons(s: &str) -> (r: Vec<String>)
    ensures
        strs_of(r@) == spec_split(s@, ';'),
{
    let chars = str_to_chars(s);
    let parts = split_top_level(chars.as_slice(), ';');
    vecs_to_strings(parts)
}

fn vecs_to_strings(parts: Vec<Vec<char>>) -> (r: Vec<String>)
    ensures
        strs_of(r@) == seqs_of(parts@),
{
    let mut out: Vec<String> = Vec::new();
    let mut i: usize = 0;
    while i < parts.len()
        invariant
            i <= parts@.len(),
            out@.len() == i,
            forall|j: int| 0 <= j < i ==> out@[j]@ == parts@[j]@,
        decreases parts@.len() - i,
    {
        out.push(chars_to_string(&parts[i]));
        i = i + 1;
    }
    proof {
        assert(strs_of(out@) =~= seqs_of(parts@));
    }
    out
}

} // verus!
