//! Character-level scanning helpers shared by the IRI, literal and line
//! parsers: character classes, first/last-occurrence searches over string
//! slices, and decimal numeral reading and printing.
use vstd::prelude::*;

verus! {

/// ASCII whitespace: space, tab, line feed, carriage return, form feed.
pub open spec fn spec_is_ws(c: char) -> bool {
    c == ' ' || c == '\t' || c == '\n' || c == '\r' || c == '\x0c'
}

#[verifier::when_used_as_spec(spec_is_ws)]
pub fn is_ws(c: char) -> (r: bool)
    ensures
        r == spec_is_ws(c),
{
    c == ' ' || c == '\t' || c == '\n' || c == '\r' || c == '\x0c'
}

/// Decimal digit `'0'..='9'`.
pub open spec fn spec_is_digit(c: char) -> bool {
    48 <= (c as u32) && (c as u32) <= 57
}

#[verifier::when_used_as_spec(spec_is_digit)]
pub fn is_digit(c: char) -> (r: bool)
    ensures
        r == spec_is_digit(c),
{
    let u = c as u32;
    48 <= u && u <= 57
}

/// The character classes that the parsers scan for.
#[derive(Clone, Copy, PartialEq, Eq, Structural, Debug)]
pub enum CharClass {
    /// Any character that is not ASCII whitespace.
    NonWs,
    /// ASCII whitespace.
    Ws,
    Colon,
    AtSign,
    Gt,
    Hash,
    Amp,
    EqSign,
    Dot,
    /// `?` or `#`: ends the path part of an IRI.
    PathEnd,
    /// `/`, `?` or `#`: ends the authority part of an IRI.
    AuthEnd,
    /// Whitespace, `<`, `"` or `'`: ends a blank-node token.
    BnodeEnd,
}

pub open spec fn class_matches(k: CharClass, c: char) -> bool {
    match k {
        CharClass::NonWs => !spec_is_ws(c),
        CharClass::Ws => spec_is_ws(c),
        CharClass::Colon => c == ':',
        CharClass::AtSign => c == '@',
        CharClass::Gt => c == '>',
        CharClass::Hash => c == '#',
        CharClass::Amp => c == '&',
        CharClass::EqSign => c == '=',
        CharClass::Dot => c == '.',
        CharClass::PathEnd => c == '?' || c == '#',
        CharClass::AuthEnd => c == '/' || c == '?' || c == '#',
        CharClass::BnodeEnd => spec_is_ws(c) || c == '<' || c == '"' || c == '\'',
    }
}

#[verifier::when_used_as_spec(class_matches)]
pub fn matches_class(k: CharClass, c: char) -> (r: bool)
    ensures
        r == class_matches(k, c),
{
    match k {
        CharClass::NonWs => !is_ws(c),
        CharClass::Ws => is_ws(c),
        CharClass::Colon => c == ':',
        CharClass::AtSign => c == '@',
        CharClass::Gt => c == '>',
        CharClass::Hash => c == '#',
        CharClass::Amp => c == '&',
        CharClass::EqSign => c == '=',
        CharClass::Dot => c == '.',
        CharClass::PathEnd => c == '?' || c == '#',
        CharClass::AuthEnd => c == '/' || c == '?' || c == '#',
        CharClass::BnodeEnd => is_ws(c) || c == '<' || c == '"' || c == '\'',
    }
}

/// Index of the first character at or after `from` that belongs to class
/// `k`, or `s.len()` when there is none.
pub open spec fn sfind(s: Seq<char>, k: CharClass, from: int) -> int
    decreases s.len() - from,
{
    if from < 0 || from >= s.len() {
        s.len() as int
    } else if class_matches(k, s[from]) {
        from
    } else {
        sfind(s, k, from + 1)
    }
}

pub proof fn lemma_sfind_bounds(s: Seq<char>, k: CharClass, from: int)
    requires
        0 <= from <= s.len(),
    ensures
        from <= sfind(s, k, from) <= s.len(),
        sfind(s, k, from) < s.len() ==> class_matches(k, s[sfind(s, k, from)]),
        forall|j: int| from <= j < sfind(s, k, from) ==> !class_matches(k, s[j]),
    decreases s.len() - from,
{
    if from < s.len() && !class_matches(k, s[from]) {
        lemma_sfind_bounds(s, k, from + 1);
    }
}

/// Exact characterisation of `sfind`: if nothing in `[from, upto)` matches
/// and `upto` is the length or a match, then `sfind` is `upto`.
pub proof fn lemma_sfind_is(s: Seq<char>, k: CharClass, from: int, upto: int)
    requires
        0 <= from <= upto <= s.len(),
        forall|j: int| from <= j < upto ==> !class_matches(k, s[j]),
        upto == s.len() || class_matches(k, s[upto]),
    ensures
        sfind(s, k, from) == upto,
    decreases upto - from,
{
    if from < upto {
        lemma_sfind_is(s, k, from + 1, upto);
    }
}

/// First index at or after `from` of a character of class `k`, or the
/// length of `s` when no such character remains.
pub fn find_class(s: &str, k: CharClass, from: usize) -> (r: usize)
    requires
        from <= s@.len(),
    ensures
        r == sfind(s@, k, from as int),
        from <= r <= s@.len(),
{
    let n = s.unicode_len();
    let mut i = from;
    while i < n
        invariant
            from <= i <= n,
            n == s@.len(),
            sfind(s@, k, from as int) == sfind(s@, k, i as int),
        decreases n - i,
    {
        let c = s.get_char(i);
        if matches_class(k, c) {
            proof {
                lemma_sfind_bounds(s@, k, i as int);
            }
            return i;
        }
        i += 1;
    }
    proof {
        lemma_sfind_bounds(s@, k, i as int);
    }
    i
}

/// A run of `n` copies of `c` starting at position `p` of `s`.
pub open spec fn delim_at(s: Seq<char>, p: int, c: char, n: int) -> bool {
    0 <= p && p + n <= s.len() && (forall|j: int| 0 <= j < n ==> #[trigger] s[p + j] == c)
}

pub fn delim_at_exec(s: &str, p: usize, c: char, n: usize) -> (r: bool)
    requires
        p <= s@.len(),
    ensures
        r == delim_at(s@, p as int, c, n as int),
{
    let len = s.unicode_len();
    if len - p < n {
        return false;
    }
    let mut j: usize = 0;
    while j < n
        invariant
            0 <= j <= n,
            p + n <= len,
            len == s@.len(),
            forall|x: int| 0 <= x < j ==> #[trigger] s@[p + x] == c,
        decreases n - j,
    {
        if s.get_char(p + j) != c {
            return false;
        }
        j += 1;
    }
    true
}

/// First position at or after `from` where an unescaped run of `n` copies
/// of `c` starts (a run whose preceding character is not a backslash), or
/// `s.len()` when there is none.  `n` must be at least 1.
pub open spec fn sfind_close(s: Seq<char>, c: char, n: int, from: int) -> int
    decreases s.len() - from,
{
    if n < 1 || from < 0 || from + n > s.len() {
        s.len() as int
    } else if delim_at(s, from, c, n) && (from == 0 || s[from - 1] != '\\') {
        from
    } else {
        sfind_close(s, c, n, from + 1)
    }
}

pub fn find_close(s: &str, c: char, n: usize, from: usize) -> (r: usize)
    requires
        1 <= n,
        from <= s@.len(),
    ensures
        r == sfind_close(s@, c, n as int, from as int),
{
    let len = s.unicode_len();
    if n > len {
        return len;
    }
    let mut i = from;
    while i <= len - n
        invariant
            from <= i,
            i <= len + 1,
            1 <= n <= len,
            len == s@.len(),
            sfind_close(s@, c, n as int, from as int) == sfind_close(s@, c, n as int, i as int),
        decreases len + 1 - i,
    {
        if delim_at_exec(s, i, c, n) && (i == 0 || s.get_char(i - 1) != '\\') {
            return i;
        }
        i += 1;
    }
    len
}

/// Last position `p >= 1` at or before `p0` where an unescaped run of `n`
/// copies of `c` starts, or `-1` when there is none.
pub open spec fn srfind_close(s: Seq<char>, c: char, n: int, p0: int) -> int
    decreases p0,
{
    if p0 < 1 {
        -1
    } else if delim_at(s, p0, c, n) && s[p0 - 1] != '\\' {
        p0
    } else {
        srfind_close(s, c, n, p0 - 1)
    }
}

pub fn rfind_close(s: &str, c: char, n: usize, p0: usize) -> (r: Option<usize>)
    requires
        p0 <= s@.len(),
    ensures
        match r {
            Some(p) => p == srfind_close(s@, c, n as int, p0 as int) && 1 <= p <= p0,
            None => srfind_close(s@, c, n as int, p0 as int) == -1,
        },
{
    let mut i = p0;
    while i >= 1
        invariant
            i <= p0 <= s@.len(),
            srfind_close(s@, c, n as int, p0 as int) == srfind_close(s@, c, n as int, i as int),
        decreases i,
    {
        if delim_at_exec(s, i, c, n) && s.get_char(i - 1) != '\\' {
            return Some(i);
        }
        i -= 1;
    }
    None
}

/// Numeric value of a digit character.
pub open spec fn digit_val(c: char) -> int {
    (c as u32) as int - 48
}

pub open spec fn all_digits(s: Seq<char>) -> bool {
    forall|i: int| 0 <= i < s.len() ==> spec_is_digit(s[i])
}

/// Value of a sequence of decimal digits, most significant first.
pub open spec fn dec_val(s: Seq<char>) -> int
    decreases s.len(),
{
    if s.len() == 0 {
        0
    } else {
        dec_val(s.drop_last()) * 10 + digit_val(s.last())
    }
}

pub proof fn lemma_dec_val_nonneg(s: Seq<char>)
    requires
        all_digits(s),
    ensures
        dec_val(s) >= 0,
    decreases s.len(),
{
    if s.len() > 0 {
        assert(all_digits(s.drop_last()));
        lemma_dec_val_nonneg(s.drop_last());
    }
}

/// Extending a digit string on the right can only increase its value.
pub proof fn lemma_dec_val_prefix(s: Seq<char>, i: int)
    requires
        all_digits(s),
        0 <= i <= s.len(),
    ensures
        dec_val(s.subrange(0, i)) <= dec_val(s),
    decreases s.len() - i,
{
    if i < s.len() {
        lemma_dec_val_prefix(s, i + 1);
        let a = s.subrange(0, i);
        let b = s.subrange(0, i + 1);
        assert(b.drop_last() =~= a);
        assert(all_digits(a));
        lemma_dec_val_nonneg(a);
        assert(dec_val(b) == dec_val(a) * 10 + digit_val(b.last()));
        assert(dec_val(a) * 10 >= dec_val(a)) by {
            lemma_dec_val_nonneg(a);
        }
    } else {
        assert(s.subrange(0, i) =~= s);
    }
}

/// The digit character for a value in `0..=9`.
pub open spec fn digit_char(d: int) -> char {
    if d == 0 {
        '0'
    } else if d == 1 {
        '1'
    } else if d == 2 {
        '2'
    } else if d == 3 {
        '3'
    } else if d == 4 {
        '4'
    } else if d == 5 {
        '5'
    } else if d == 6 {
        '6'
    } else if d == 7 {
        '7'
    } else if d == 8 {
        '8'
    } else {
        '9'
    }
}

pub fn digit_char_exec(d: u64) -> (c: char)
    requires
        d < 10,
    ensures
        c == digit_char(d as int),
{
    match d {
        0 => '0',
        1 => '1',
        2 => '2',
        3 => '3',
        4 => '4',
        5 => '5',
        6 => '6',
        7 => '7',
        8 => '8',
        _ => '9',
    }
}

/// Canonical decimal digits of a non-negative number.
pub open spec fn spec_digits(n: int) -> Seq<char>
    decreases n,
{
    if n < 10 {
        seq![digit_char(n)]
    } else {
        spec_digits(n / 10).push(digit_char(n % 10))
    }
}

pub proof fn lemma_spec_digits(n: int)
    requires
        n >= 0,
    ensures
        all_digits(spec_digits(n)),
        dec_val(spec_digits(n)) == n,
        spec_digits(n).len() >= 1,
    decreases n,
{
    if n < 10 {
        assert(spec_is_digit(digit_char(n)));
        assert(digit_val(digit_char(n)) == n);
        let s = spec_digits(n);
        assert(s.drop_last() =~= Seq::<char>::empty());
        assert(dec_val(s) == dec_val(s.drop_last()) * 10 + digit_val(s.last()));
    } else {
        lemma_spec_digits(n / 10);
        let s = spec_digits(n);
        let p = spec_digits(n / 10);
        assert(s == p.push(digit_char(n % 10)));
        assert(s.drop_last() =~= p);
        assert(s.last() == digit_char(n % 10));
        assert(0 <= n % 10 < 10);
        assert(digit_val(digit_char(n % 10)) == n % 10);
        assert(dec_val(s) == dec_val(p) * 10 + n % 10);
        assert((n / 10) * 10 + n % 10 == n) by (nonlinear_arith);
        assert(all_digits(s)) by {
            assert(forall|i: int| 0 <= i < p.len() ==> s[i] == p[i]);
            assert(spec_is_digit(s[s.len() - 1]));
        }
    }
}

/// The canonical digits of a non-negative number.
pub fn u64_to_string(n: u64) -> (r: String)
    ensures
        r@ == spec_digits(n as int),
    decreases n,
{
    if n < 10 {
        let mut s = String::new();
        push_char(&mut s, digit_char_exec(n));
        proof {
            assert(s@ =~= spec_digits(n as int));
        }
        s
    } else {
        let mut s = u64_to_string(n / 10);
        push_char(&mut s, digit_char_exec(n % 10));
        s
    }
}

/// Relies on `String::push`: appends one character to the string.
#[verifier::external_body]
pub fn push_char(s: &mut String, c: char)
    ensures
        final (s)@ == old(s)@.push(c),
{
    s.push(c);
}

/// Standard-library reading of an unsigned decimal numeral: an optional
/// leading `+`, then one or more digits, within `bound`.
pub open spec fn spec_parse_uint(s: Seq<char>, bound: int) -> Option<int> {
    let ds = if s.len() > 0 && s[0] == '+' {
        s.subrange(1, s.len() as int)
    } else {
        s
    };
    if ds.len() >= 1 && all_digits(ds) && dec_val(ds) <= bound {
        Some(dec_val(ds))
    } else {
        None
    }
}

/// Reads the digit part `s[from..]`, all of which must be digits for a
/// result; matches `u32::from_str` after sign stripping.
fn parse_digits_u64(s: &str, from: usize, bound: u64) -> (r: Option<u64>)
    requires
        from <= s@.len(),
        10 <= bound,
    ensures
        ({
            let ds = s@.subrange(from as int, s@.len() as int);
            match r {
                Some(v) => ds.len() >= 1 && all_digits(ds) && dec_val(ds) == v && v <= bound,
                None => !(ds.len() >= 1 && all_digits(ds) && dec_val(ds) <= bound),
            }
        }),
{
    let ghost ds = s@.subrange(from as int, s@.len() as int);
    let n = s.unicode_len();
    if from == n {
        return None;
    }
    let mut acc: u64 = 0;
    let mut i = from;
    while i < n
        invariant
            from <= i <= n,
            n == s@.len(),
            ds == s@.subrange(from as int, s@.len() as int),
            all_digits(ds.subrange(0, i - from)),
            acc == dec_val(ds.subrange(0, i - from)),
            acc <= bound,
            10 <= bound,
        decreases n - i,
    {
        let c = s.get_char(i);
        if !is_digit(c) {
            proof {
                assert(ds[i - from] == s@[i as int]);
                assert(!all_digits(ds));
            }
            return None;
        }
        let d: u64 = ((c as u32) - 48) as u64;
        proof {
            let pre = ds.subrange(0, i - from);
            let pre2 = ds.subrange(0, i + 1 - from);
            assert(pre2.drop_last() =~= pre);
            assert(pre2.last() == s@[i as int]);
        }
        if acc > (bound - d) / 10 {
            proof {
                let pre = ds.subrange(0, i - from);
                let pre2 = ds.subrange(0, i + 1 - from);
                assert(acc * 10 + d > bound) by (nonlinear_arith)
                    requires
                        acc > (bound - d) / 10,
                        0 <= d < 10,
                        10 <= bound,
                        acc >= 0,
                ;
                assert(dec_val(pre2) == dec_val(pre) * 10 + digit_val(s@[i as int]));
                assert(dec_val(pre2) > bound);
                if all_digits(ds) {
                    lemma_dec_val_prefix(ds, i + 1 - from);
                    assert(dec_val(ds) >= dec_val(pre2));
                }
            }
            return None;
        }
        proof {
            assert(acc * 10 + d <= bound) by (nonlinear_arith)
                requires
                    acc <= (bound - d) / 10,
                    0 <= d < 10,
                    0 <= bound,
                    acc >= 0,
            ;
        }
        acc = acc * 10 + d;
        i += 1;
    }
    proof {
        assert(ds.subrange(0, i - from) =~= ds);
    }
    Some(acc)
}

/// `u32::from_str` on the character content of `s[from..]`.
pub fn parse_u32_str(s: &str, from: usize) -> (r: Option<u32>)
    requires
        from <= s@.len(),
    ensures
        ({
            let t = s@.subrange(from as int, s@.len() as int);
            match r {
                Some(v) => spec_parse_uint(t, u32::MAX as int) == Some(v as int),
                None => spec_parse_uint(t, u32::MAX as int) is None,
            }
        }),
{
    let ghost t = s@.subrange(from as int, s@.len() as int);
    let n = s.unicode_len();
    let start = if from < n && s.get_char(from) == '+' {
        from + 1
    } else {
        from
    };
    proof {
        let ds = if t.len() > 0 && t[0] == '+' {
            t.subrange(1, t.len() as int)
        } else {
            t
        };
        assert(ds =~= s@.subrange(start as int, s@.len() as int));
    }
    match parse_digits_u64(s, start, u32::MAX as u64) {
        Some(v) => Some(v as u32),
        None => None,
    }
}

/// `i64::from_str` on the character content of `s`: optional sign, then
/// digits, within the signed 64-bit range.
pub open spec fn spec_parse_i64(s: Seq<char>) -> Option<int> {
    if s.len() >= 1 && s[0] == '-' {
        let ds = s.subrange(1, s.len() as int);
        if ds.len() >= 1 && all_digits(ds) && dec_val(ds) <= 0x8000_0000_0000_0000 {
            Some(-dec_val(ds))
        } else {
            None
        }
    } else {
        spec_parse_uint(s, i64::MAX as int)
    }
}

pub fn parse_i64_str(s: &str) -> (r: Option<i64>)
    ensures
        match r {
            Some(v) => spec_parse_i64(s@) == Some(v as int),
            None => spec_parse_i64(s@) is None,
        },
{
    let n = s.unicode_len();
    if n >= 1 && s.get_char(0) == '-' {
        proof {
            assert(s@.subrange(1, s@.len() as int) =~= s@.subrange(1, s@.len() as int));
        }
        match parse_digits_u64(s, 1, 0x8000_0000_0000_0000u64) {
            Some(v) => {
                if v == 0x8000_0000_0000_0000u64 {
                    Some(i64::MIN)
                } else {
                    Some(-(v as i64))
                }
            },
            None => None,
        }
    } else {
        let start = if n >= 1 && s.get_char(0) == '+' {
            1
        } else {
            0
        };
        proof {
            let t = s@;
            let ds = if t.len() > 0 && t[0] == '+' {
                t.subrange(1, t.len() as int)
            } else {
                t
            };
            assert(ds =~= s@.subrange(start as int, s@.len() as int));
        }
        match parse_digits_u64(s, start, i64::MAX as u64) {
            Some(v) => Some(v as i64),
            None => None,
        }
    }
}

/// Canonical decimal form of a signed number: `-` for negatives, then the
/// digits of the magnitude.
pub open spec fn spec_i64_str(v: int) -> Seq<char> {
    if v < 0 {
        seq!['-'] + spec_digits(-v)
    } else {
        spec_digits(v)
    }
}

pub fn i64_to_string(v: i64) -> (r: String)
    ensures
        r@ == spec_i64_str(v as int),
{
    if v >= 0 {
        u64_to_string(v as u64)
    } else {
        let mag: u64 = if v == i64::MIN {
            0x8000_0000_0000_0000u64
        } else {
            (-v) as u64
        };
        let mut s = String::new();
        push_char(&mut s, '-');
        let digits = u64_to_string(mag);
        s.append(digits.as_str());
        proof {
            assert(s@ =~= seq!['-'] + spec_digits(mag as int));
        }
        s
    }
}

/// Printing then reading an unsigned numeral gives the number back.
pub proof fn lemma_uint_round_trip(n: int, bound: int)
    requires
        0 <= n <= bound,
    ensures
        spec_parse_uint(spec_digits(n), bound) == Some(n),
{
    lemma_spec_digits(n);
    let s = spec_digits(n);
    assert(spec_is_digit(s[0]));
    assert(s[0] != '+');
}

/// Compares the character content of two string slices.
pub fn str_eq(a: &str, b: &str) -> (r: bool)
    ensures
        r == (a@ == b@),
{
    let na = a.unicode_len();
    let nb = b.unicode_len();
    if na != nb {
        return false;
    }
    let mut i: usize = 0;
    while i < na
        invariant
            0 <= i <= na,
            na == a@.len(),
            na == b@.len(),
            forall|j: int| 0 <= j < i ==> a@[j] == b@[j],
        decreases na - i,
    {
        if a.get_char(i) != b.get_char(i) {
            return false;
        }
        i += 1;
    }
    proof {
        assert(a@ =~= b@);
    }
    true
}

} // verus!

verus! {

/// The close search answers the length when nothing is found, and a
/// position within bounds otherwise.
pub proof fn lemma_sfind_close_bounds(s: Seq<char>, c: char, n: int, from: int)
    requires
        0 <= from,
    ensures
        sfind_close(s, c, n, from) == s.len() || (from <= sfind_close(s, c, n, from)
            && sfind_close(s, c, n, from) + n <= s.len()),
    decreases s.len() - from,
{
    if !(n < 1 || from + n > s.len()) {
        if !(delim_at(s, from, c, n) && (from == 0 || s[from - 1] != '\\')) {
            lemma_sfind_close_bounds(s, c, n, from + 1);
        }
    }
}

} // verus!

verus! {

/// Exact characterisation of the backward close search: if position `at`
/// holds an unescaped run and no later position up to `p0` does, the
/// search answers `at`.
pub proof fn lemma_srfind_is(s: Seq<char>, c: char, n: int, p0: int, at: int)
    requires
        1 <= at <= p0,
        delim_at(s, at, c, n),
        s[at - 1] != '\\',
        forall|j: int| at < j <= p0 ==> !(delim_at(s, j, c, n) && s[j - 1] != '\\'),
    ensures
        srfind_close(s, c, n, p0) == at,
    decreases p0 - at,
{
    if p0 > at {
        lemma_srfind_is(s, c, n, p0 - 1, at);
    }
}

} // verus!
