//! Character-sequence helpers shared by the header, listing and label code:
//! decimal formatting and parsing, trimming, prefixes and substring search,
//! all specified over `Seq<char>`.
use vstd::prelude::*;

verus! {

/// Appends one character (`String::push`).
#[verifier::external_body]
pub(crate) fn push_char(s: &mut String, c: char)
    ensures
        final(s)@ == old(s)@.push(c),
{
    s.push(c);
}

/// The characters of a string slice, in order.
pub fn chars_of(s: &str) -> (v: Vec<char>)
    ensures
        v@ == s@,
{
    let mut v: Vec<char> = Vec::new();
    for c in it: s.chars()
        invariant
            v@ == it.seq().take(it.index() as int),
            it.seq() == s@,
    {
        v.push(c);
    }
    v
}

/// A string holding exactly the given characters.
pub fn string_of(chars: &[char]) -> (s: String)
    ensures
        s@ == chars@,
{
    let mut s = String::new();
    let mut i: usize = 0;
    while i < chars.len()
        invariant
            i <= chars@.len(),
            s@ == chars@.subrange(0, i as int),
        decreases chars@.len() - i,
    {
        push_char(&mut s, chars[i]);
        proof {
            assert(chars@.subrange(0, i as int + 1) =~= chars@.subrange(0, i as int).push(chars@[i as int]));
        }
        i = i + 1;
    }
    proof {
        assert(chars@.subrange(0, chars@.len() as int) =~= chars@);
    }
    s
}


// ---------------------------------------------------------------------------
// Character classes
// ---------------------------------------------------------------------------

/// Unicode `White_Space` (what `char::is_whitespace` and `str::trim` use).
pub open spec fn is_white_space(c: char) -> bool {
    let v = c as u32;
    (0x9 <= v <= 0xd) || v == 0x20 || v == 0x85 || v == 0xa0 || v == 0x1680 || (0x2000 <= v
        <= 0x200a) || v == 0x2028 || v == 0x2029 || v == 0x202f || v == 0x205f || v == 0x3000
}

pub fn char_is_white_space(c: char) -> (b: bool)
    ensures
        b == is_white_space(c),
{
    let v = c as u32;
    (0x9 <= v && v <= 0xd) || v == 0x20 || v == 0x85 || v == 0xa0 || v == 0x1680 || (0x2000 <= v
        && v <= 0x200a) || v == 0x2028 || v == 0x2029 || v == 0x202f || v == 0x205f || v == 0x3000
}

/// General category `Cc` (what `char::is_control` tests).
pub open spec fn is_control(c: char) -> bool {
    let v = c as u32;
    v <= 0x1f || (0x7f <= v <= 0x9f)
}

pub fn char_is_control(c: char) -> (b: bool)
    ensures
        b == is_control(c),
{
    let v = c as u32;
    v <= 0x1f || (0x7f <= v && v <= 0x9f)
}

pub open spec fn is_ascii_digit(c: char) -> bool {
    '0' <= c <= '9'
}

pub open spec fn is_ascii_hexdigit(c: char) -> bool {
    ('0' <= c <= '9') || ('a' <= c <= 'f') || ('A' <= c <= 'F')
}

pub fn char_is_ascii_hexdigit(c: char) -> (b: bool)
    ensures
        b == is_ascii_hexdigit(c),
{
    ('0' <= c && c <= '9') || ('a' <= c && c <= 'f') || ('A' <= c && c <= 'F')
}

pub open spec fn ascii_lower(c: char) -> char {
    if 'A' <= c <= 'Z' {
        ((c as u32) + 32) as char
    } else {
        c
    }
}

pub fn char_ascii_lower(c: char) -> (l: char)
    ensures
        l == ascii_lower(c),
{
    if 'A' <= c && c <= 'Z' {
        let v: u32 = (c as u32) + 32;
        assert(0x61 <= v <= 0x7a);
        proof {
            assert(v == ((c as u32) + 32));
        }
        // 'a'..='z' are valid scalar values
        char_from_ascii(v as u8)
    } else {
        c
    }
}

/// The character with the given ASCII code.
pub fn char_from_ascii(b: u8) -> (c: char)
    requires
        b < 128,
    ensures
        c as u32 == b as u32,
{
    b as char
}

pub open spec fn lower_seq(s: Seq<char>) -> Seq<char> {
    Seq::new(s.len(), |i: int| ascii_lower(s[i]))
}

pub open spec fn eq_ignore_ascii_case(a: Seq<char>, b: Seq<char>) -> bool {
    lower_seq(a) == lower_seq(b)
}

pub fn chars_eq_ignore_ascii_case(a: &[char], b: &[char]) -> (r: bool)
    ensures
        r == eq_ignore_ascii_case(a@, b@),
{
    if a.len() != b.len() {
        proof {
            assert(lower_seq(a@).len() != lower_seq(b@).len());
        }
        return false;
    }
    let mut i: usize = 0;
    while i < a.len()
        invariant
            a@.len() == b@.len(),
            i <= a@.len(),
            forall|j: int| 0 <= j < i ==> ascii_lower(a@[j]) == ascii_lower(b@[j]),
        decreases a@.len() - i,
    {
        if char_ascii_lower(a[i]) != char_ascii_lower(b[i]) {
            proof {
                assert(lower_seq(a@)[i as int] != lower_seq(b@)[i as int]);
            }
            return false;
        }
        i = i + 1;
    }
    proof {
        assert(lower_seq(a@) =~= lower_seq(b@));
    }
    true
}

pub fn lowercase_ascii(s: &[char]) -> (l: Vec<char>)
    ensures
        l@ == lower_seq(s@),
{
    let mut l: Vec<char> = Vec::new();
    let mut i: usize = 0;
    while i < s.len()
        invariant
            i <= s@.len(),
            l@ == lower_seq(s@).subrange(0, i as int),
        decreases s@.len() - i,
    {
        let c = char_ascii_lower(s[i]);
        l.push(c);
        proof {
            assert(lower_seq(s@).subrange(0, i as int + 1) =~= lower_seq(s@).subrange(0, i as int).push(c));
        }
        i = i + 1;
    }
    proof {
        assert(lower_seq(s@).subrange(0, s@.len() as int) =~= lower_seq(s@));
    }
    l
}

// ---------------------------------------------------------------------------
// Sequences
// ---------------------------------------------------------------------------

pub open spec fn has_prefix(s: Seq<char>, p: Seq<char>) -> bool {
    p.len() <= s.len() && s.subrange(0, p.len() as int) == p
}

pub open spec fn has_suffix(s: Seq<char>, p: Seq<char>) -> bool {
    p.len() <= s.len() && s.subrange(s.len() - p.len(), s.len() as int) == p
}

pub open spec fn occurs_at(s: Seq<char>, sub: Seq<char>, i: int) -> bool {
    0 <= i && i + sub.len() <= s.len() && s.subrange(i, i + sub.len()) == sub
}

pub open spec fn contains_seq(s: Seq<char>, sub: Seq<char>) -> bool {
    exists|i: int| occurs_at(s, sub, i)
}

pub fn starts_with(s: &[char], p: &[char]) -> (r: bool)
    ensures
        r == has_prefix(s@, p@),
{
    if p.len() > s.len() {
        return false;
    }
    let mut i: usize = 0;
    while i < p.len()
        invariant
            p@.len() <= s@.len(),
            i <= p@.len(),
            forall|j: int| 0 <= j < i ==> s@[j] == p@[j],
        decreases p@.len() - i,
    {
        if s[i] != p[i] {
            proof {
                assert(s@.subrange(0, p@.len() as int)[i as int] != p@[i as int]);
            }
            return false;
        }
        i = i + 1;
    }
    proof {
        assert(s@.subrange(0, p@.len() as int) =~= p@);
    }
    true
}

pub fn ends_with(s: &[char], p: &[char]) -> (r: bool)
    ensures
        r == has_suffix(s@, p@),
{
    if p.len() > s.len() {
        return false;
    }
    let off = s.len() - p.len();
    let mut i: usize = 0;
    while i < p.len()
        invariant
            p@.len() <= s@.len(),
            s.len() == s@.len(),
            off == s@.len() - p@.len(),
            i <= p@.len(),
            forall|j: int| 0 <= j < i ==> s@[off + j] == p@[j],
        decreases p@.len() - i,
    {
        if s[off + i] != p[i] {
            proof {
                assert(s@.subrange(off as int, s@.len() as int)[i as int] != p@[i as int]);
            }
            return false;
        }
        i = i + 1;
    }
    proof {
        assert(s@.subrange(off as int, s@.len() as int) =~= p@);
    }
    true
}

pub fn occurs_at_exec(s: &[char], sub: &[char], i: usize) -> (r: bool)
    ensures
        r == occurs_at(s@, sub@, i as int),
{
    if i > s.len() || sub.len() > s.len() - i {
        return false;
    }
    let mut j: usize = 0;
    while j < sub.len()
        invariant
            i + sub@.len() <= s@.len(),
            s.len() == s@.len(),
            j <= sub@.len(),
            forall|t: int| 0 <= t < j ==> s@[i + t] == sub@[t],
        decreases sub@.len() - j,
    {
        if s[i + j] != sub[j] {
            proof {
                assert(s@.subrange(i as int, i + sub@.len())[j as int] != sub@[j as int]);
            }
            return false;
        }
        j = j + 1;
    }
    proof {
        assert(s@.subrange(i as int, i + sub@.len()) =~= sub@);
    }
    true
}

pub fn contains(s: &[char], sub: &[char]) -> (r: bool)
    ensures
        r == contains_seq(s@, sub@),
{
    let mut i: usize = 0;
    while i < s.len()
        invariant
            i <= s@.len(),
            forall|j: int| 0 <= j < i ==> !occurs_at(s@, sub@, j),
        decreases s@.len() - i,
    {
        if occurs_at_exec(s, sub, i) {
            return true;
        }
        i = i + 1;
    }
    if occurs_at_exec(s, sub, i) {
        return true;
    }
    proof {
        assert forall|j: int| !occurs_at(s@, sub@, j) by {
            if 0 <= j && j < i {
            } else if j > i {
                if occurs_at(s@, sub@, j) {
                    assert(j + sub@.len() <= s@.len());
                }
            }
        }
    }
    false
}

/// Index of the first character that is not white space (or the length).
pub open spec fn trim_start_index(s: Seq<char>) -> int
    decreases s.len(),
{
    if s.len() == 0 {
        0
    } else if is_white_space(s[0]) {
        1 + trim_start_index(s.drop_first())
    } else {
        0
    }
}

/// Index one past the last character that is not white space (or zero).
pub open spec fn trim_end_index(s: Seq<char>) -> int
    decreases s.len(),
{
    if s.len() == 0 {
        0
    } else if is_white_space(s.last()) {
        trim_end_index(s.drop_last())
    } else {
        s.len() as int
    }
}

pub open spec fn trim_end(s: Seq<char>) -> Seq<char> {
    s.subrange(0, trim_end_index(s))
}

pub open spec fn trim_start(s: Seq<char>) -> Seq<char> {
    s.subrange(trim_start_index(s), s.len() as int)
}

/// `str::trim`: leading and trailing white space removed.
pub open spec fn trim(s: Seq<char>) -> Seq<char> {
    trim_start(trim_end(s))
}

proof fn lemma_trim_start_index_char(s: Seq<char>, k: int)
    requires
        0 <= k <= s.len(),
        forall|j: int| 0 <= j < k ==> is_white_space(#[trigger] s[j]),
        k < s.len() ==> !is_white_space(s[k]),
    ensures
        trim_start_index(s) == k,
    decreases s.len(),
{
    if s.len() > 0 && k > 0 {
        assert(is_white_space(s[0]));
        assert forall|j: int| 0 <= j < k - 1 implies is_white_space(#[trigger] s.drop_first()[j]) by {
            assert(s.drop_first()[j] == s[j + 1]);
        }
        lemma_trim_start_index_char(s.drop_first(), k - 1);
    }
}

proof fn lemma_trim_end_index_char(s: Seq<char>, k: int)
    requires
        0 <= k <= s.len(),
        forall|j: int| k <= j < s.len() ==> is_white_space(#[trigger] s[j]),
        k > 0 ==> !is_white_space(s[k - 1]),
    ensures
        trim_end_index(s) == k,
    decreases s.len(),
{
    if s.len() > 0 && k < s.len() {
        assert(is_white_space(s.last()));
        assert forall|j: int| k <= j < s.len() - 1 implies is_white_space(#[trigger] s.drop_last()[j]) by {
            assert(s.drop_last()[j] == s[j]);
        }
        lemma_trim_end_index_char(s.drop_last(), k);
    }
}

/// Bounds `[start, end)` of `trim(s)` inside `s`.
pub fn trim_bounds(s: &[char]) -> (r: (usize, usize))
    ensures
        r.0 <= r.1 <= s@.len(),
        s@.subrange(r.0 as int, r.1 as int) == trim(s@),
{
    let mut end = s.len();
    while end > 0 && char_is_white_space(s[end - 1])
        invariant
            end <= s@.len(),
            forall|j: int| end <= j < s@.len() ==> is_white_space(#[trigger] s@[j]),
        decreases end,
    {
        end = end - 1;
    }
    proof {
        lemma_trim_end_index_char(s@, end as int);
    }
    let mut start: usize = 0;
    while start < end && char_is_white_space(s[start])
        invariant
            start <= end <= s@.len(),
            forall|j: int| 0 <= j < start ==> is_white_space(#[trigger] s@[j]),
        decreases end - start,
    {
        start = start + 1;
    }
    proof {
        let t = s@.subrange(0, end as int);
        assert forall|j: int| 0 <= j < start implies is_white_space(#[trigger] t[j]) by {
            assert(t[j] == s@[j]);
        }
        lemma_trim_start_index_char(t, start as int);
        assert(t.subrange(start as int, end as int) =~= s@.subrange(start as int, end as int));
    }
    (start, end)
}

/// `str::trim_end`.
pub fn trim_end_chars(s: &[char]) -> (t: Vec<char>)
    ensures
        t@ == trim_end(s@),
{
    let mut end = s.len();
    while end > 0 && char_is_white_space(s[end - 1])
        invariant
            end <= s@.len(),
            forall|j: int| end <= j < s@.len() ==> is_white_space(#[trigger] s@[j]),
        decreases end,
    {
        end = end - 1;
    }
    proof {
        lemma_trim_end_index_char(s@, end as int);
    }
    slice_range(s, 0, end)
}

pub fn trim_chars(s: &[char]) -> (t: Vec<char>)
    ensures
        t@ == trim(s@),
{
    let (a, b) = trim_bounds(s);
    slice_range(s, a, b)
}

pub fn slice_range(s: &[char], a: usize, b: usize) -> (t: Vec<char>)
    requires
        a <= b <= s@.len(),
    ensures
        t@ == s@.subrange(a as int, b as int),
{
    let mut t: Vec<char> = Vec::new();
    let mut i: usize = a;
    while i < b
        invariant
            a <= i <= b <= s@.len(),
            t@ == s@.subrange(a as int, i as int),
        decreases b - i,
    {
        t.push(s[i]);
        proof {
            assert(s@.subrange(a as int, i as int + 1) =~= s@.subrange(a as int, i as int).push(s@[i as int]));
        }
        i = i + 1;
    }
    t
}

// ---------------------------------------------------------------------------
// Decimal numbers
// ---------------------------------------------------------------------------

pub open spec fn digit_char(d: nat) -> char {
    ((d % 10) + 48) as char
}

/// Canonical decimal rendering of a natural number (what `{}` prints for unsigned integers).
pub open spec fn dec(n: nat) -> Seq<char>
    decreases n,
{
    if n < 10 {
        seq![digit_char(n)]
    } else {
        dec(n / 10).push(digit_char(n))
    }
}

/// Appends the decimal rendering of `n`.
pub fn push_decimal(s: &mut String, n: u64)
    ensures
        final(s)@ == old(s)@ + dec(n as nat),
    decreases n,
{
    if n >= 10 {
        push_decimal(s, n / 10);
    }
    let d: u8 = (n % 10) as u8;
    let c = char_from_ascii(d + 48);
    proof {
        assert(c == digit_char(n as nat));
    }
    push_char(s, c);
    proof {
        if n >= 10 {
            assert(final(s)@ =~= old(s)@ + dec(n as nat));
        } else {
            assert(final(s)@ =~= old(s)@ + dec(n as nat));
        }
    }
}

pub fn decimal_string(n: u64) -> (s: String)
    ensures
        s@ == dec(n as nat),
{
    let mut s = String::new();
    push_decimal(&mut s, n);
    proof {
        assert(s@ =~= dec(n as nat));
    }
    s
}

pub open spec fn digit_value(c: char) -> nat {
    ((c as u32) - 48) as nat
}

/// Value of a sequence of decimal digits.
pub open spec fn digits_value(s: Seq<char>) -> nat
    decreases s.len(),
{
    if s.len() == 0 {
        0
    } else {
        digits_value(s.drop_last()) * 10 + digit_value(s.last())
    }
}

pub open spec fn all_digits(s: Seq<char>) -> bool {
    forall|i: int| 0 <= i < s.len() ==> is_ascii_digit(#[trigger] s[i])
}

/// `u64::from_str`: an optional `+`, then one or more ASCII digits whose value fits.
pub open spec fn parse_u64(s: Seq<char>) -> Option<u64> {
    let body = if s.len() > 0 && s[0] == '+' {
        s.drop_first()
    } else {
        s
    };
    if body.len() > 0 && all_digits(body) && digits_value(body) <= u64::MAX {
        Some(digits_value(body) as u64)
    } else {
        None
    }
}

proof fn lemma_digits_value_grows(s: Seq<char>, k: int)
    requires
        0 <= k <= s.len(),
        all_digits(s),
    ensures
        digits_value(s.subrange(0, k)) <= digits_value(s),
    decreases s.len() - k,
{
    if k < s.len() {
        lemma_digits_value_grows(s, k + 1);
        let t = s.subrange(0, k + 1);
        assert(t.drop_last() =~= s.subrange(0, k));
        assert(digits_value(t) == digits_value(s.subrange(0, k)) * 10 + digit_value(t.last()));
    } else {
        assert(s.subrange(0, k) =~= s);
    }
}

fn parse_digits(s: &[char], from: usize) -> (r: Option<u64>)
    requires
        from <= s@.len(),
    ensures
        ({
            let body = s@.subrange(from as int, s@.len() as int);
            r == if body.len() > 0 && all_digits(body) && digits_value(body) <= u64::MAX {
                Some(digits_value(body) as u64)
            } else {
                None::<u64>
            }
        }),
{
    let ghost body = s@.subrange(from as int, s@.len() as int);
    if from == s.len() {
        return None;
    }
    let mut acc: u64 = 0;
    let mut i: usize = from;
    let mut overflow = false;
    while i < s.len()
        invariant
            from <= i <= s@.len(),
            body == s@.subrange(from as int, s@.len() as int),
            all_digits(s@.subrange(from as int, i as int)),
            !overflow ==> acc == digits_value(s@.subrange(from as int, i as int)),
            overflow ==> digits_value(s@.subrange(from as int, i as int)) > u64::MAX,
        decreases s@.len() - i,
    {
        let c = s[i];
        if !('0' <= c && c <= '9') {
            proof {
                assert(body[i - from] == c);
                assert(!all_digits(body));
            }
            return None;
        }
        let d: u64 = (c as u32 - 48) as u64;
        proof {
            let p = s@.subrange(from as int, i as int);
            let q = s@.subrange(from as int, i as int + 1);
            assert(q.drop_last() =~= p);
            assert(q.last() == c);
            assert(digits_value(q) == digits_value(p) * 10 + d);
            assert forall|j: int| 0 <= j < q.len() implies is_ascii_digit(#[trigger] q[j]) by {
                if j < p.len() {
                    assert(q[j] == p[j]);
                }
            }
        }
        if !overflow {
            if acc > (u64::MAX - d) / 10 {
                overflow = true;
                proof {
                    assert(acc * 10 + d > u64::MAX) by (nonlinear_arith)
                        requires
                            acc > (u64::MAX - d) / 10,
                            d <= 9,
                    ;
                }
            } else {
                proof {
                    assert(acc * 10 + d <= u64::MAX) by (nonlinear_arith)
                        requires
                            acc <= (u64::MAX - d) / 10,
                            d <= 9,
                    ;
                }
                acc = acc * 10 + d;
            }
        } else {
            proof {
                let p = s@.subrange(from as int, i as int);
                assert(digits_value(p) * 10 + d > u64::MAX) by (nonlinear_arith)
                    requires
                        digits_value(p) > u64::MAX,
                ;
            }
        }
        i = i + 1;
    }
    proof {
        assert(s@.subrange(from as int, i as int) =~= body);
    }
    if overflow {
        None
    } else {
        Some(acc)
    }
}

/// `u64::from_str` over the characters of a string.
pub fn parse_u64_chars(s: &[char]) -> (r: Option<u64>)
    ensures
        r == parse_u64(s@),
{
    if s.len() > 0 && s[0] == '+' {
        let r = parse_digits(s, 1);
        proof {
            assert(s@.subrange(1, s@.len() as int) =~= s@.drop_first());
        }
        r
    } else {
        let r = parse_digits(s, 0);
        proof {
            assert(s@.subrange(0, s@.len() as int) =~= s@);
        }
        r
    }
}


// ---------------------------------------------------------------------------
// Searching and splitting
// ---------------------------------------------------------------------------

/// `i` is the first position where `sub` occurs in `s`.
pub open spec fn first_occurrence(s: Seq<char>, sub: Seq<char>, i: int) -> bool {
    occurs_at(s, sub, i) && forall|j: int| 0 <= j < i ==> !occurs_at(s, sub, j)
}

/// Position of the first occurrence of `sub` in `s`.
pub open spec fn find_seq(s: Seq<char>, sub: Seq<char>) -> Option<int> {
    if exists|i: int| first_occurrence(s, sub, i) {
        Some(choose|i: int| first_occurrence(s, sub, i))
    } else {
        None
    }
}

proof fn lemma_first_occurrence_unique(s: Seq<char>, sub: Seq<char>, i: int, j: int)
    requires
        first_occurrence(s, sub, i),
        first_occurrence(s, sub, j),
    ensures
        i == j,
{
    if i < j {
        assert(!occurs_at(s, sub, i));
    } else if j < i {
        assert(!occurs_at(s, sub, j));
    }
}

pub fn find(s: &[char], sub: &[char]) -> (r: Option<usize>)
    ensures
        match r {
            Some(i) => find_seq(s@, sub@) == Some(i as int) && occurs_at(s@, sub@, i as int),
            None => find_seq(s@, sub@) is None && !contains_seq(s@, sub@),
        },
{
    let mut i: usize = 0;
    while i < s.len()
        invariant
            i <= s@.len(),
            forall|j: int| 0 <= j < i ==> !occurs_at(s@, sub@, j),
        decreases s@.len() - i,
    {
        if occurs_at_exec(s, sub, i) {
            proof {
                assert(first_occurrence(s@, sub@, i as int));
                let c = choose|k: int| first_occurrence(s@, sub@, k);
                lemma_first_occurrence_unique(s@, sub@, i as int, c);
            }
            return Some(i);
        }
        i = i + 1;
    }
    if occurs_at_exec(s, sub, i) {
        proof {
            assert(first_occurrence(s@, sub@, i as int));
            let c = choose|k: int| first_occurrence(s@, sub@, k);
            lemma_first_occurrence_unique(s@, sub@, i as int, c);
        }
        return Some(i);
    }
    proof {
        assert forall|j: int| !occurs_at(s@, sub@, j) by {
            if j > i {
                if occurs_at(s@, sub@, j) {
                    assert(j + sub@.len() <= s@.len());
                }
            }
        }
        assert(!exists|k: int| first_occurrence(s@, sub@, k));
    }
    None
}

/// `str::split` on a single character: the pieces between separators, empty
/// pieces included.
pub open spec fn split_on(s: Seq<char>, c: char) -> Seq<Seq<char>>
    decreases s.len(),
{
    match find_seq(s, seq![c]) {
        Some(i) => if 0 <= i < s.len() {
            seq![s.subrange(0, i)] + split_on(s.subrange(i + 1, s.len() as int), c)
        } else {
            seq![s]
        },
        None => seq![s],
    }
}

pub fn split_chars(s: &[char], c: char) -> (parts: Vec<Vec<char>>)
    ensures
        parts@.len() == split_on(s@, c).len(),
        forall|k: int| 0 <= k < parts@.len() ==> #[trigger] parts@[k]@ == split_on(s@, c)[k],
    decreases s@.len(),
{
    let sep = vec![c];
    proof {
        assert(sep@ == seq![c]);
    }
    match find(s, sep.as_slice()) {
        Some(i) => {
            proof {
                assert(occurs_at(s@, seq![c], i as int));
                assert(i + 1 <= s@.len());
            }
            let n = s.len();
            let head = slice_range(s, 0, i);
            let rest = slice_range(s, i + 1, n);
            let tail = split_chars(rest.as_slice(), c);
            let mut parts: Vec<Vec<char>> = Vec::new();
            parts.push(head);
            let mut k: usize = 0;
            while k < tail.len()
                invariant
                    k <= tail@.len(),
                    i <= s@.len(),
                    parts@.len() == k + 1,
                    parts@[0]@ == s@.subrange(0, i as int),
                    forall|t: int| 0 <= t < k ==> #[trigger] parts@[t + 1]@ == tail@[t]@,
                decreases tail@.len() - k,
            {
                let piece = slice_range(tail[k].as_slice(), 0, tail[k].len());
                proof {
                    assert(piece@ =~= tail@[k as int]@);
                }
                parts.push(piece);
                k = k + 1;
            }
            proof {
                let expect = split_on(s@, c);
                assert(occurs_at(s@, seq![c], i as int));
                assert(expect == seq![s@.subrange(0, i as int)] + split_on(s@.subrange(i + 1, s@.len() as int), c));
                assert forall|t: int| 0 <= t < parts@.len() implies #[trigger] parts@[t]@ == expect[t] by {
                    if t > 0 {
                        assert(parts@[(t - 1) + 1]@ == tail@[t - 1]@);
                    }
                }
            }
            parts
        },
        None => {
            let whole = slice_range(s, 0, s.len());
            proof {
                assert(whole@ =~= s@);
            }
            let mut parts: Vec<Vec<char>> = Vec::new();
            parts.push(whole);
            parts
        },
    }
}

/// `str::strip_prefix`.
pub open spec fn strip_prefix(s: Seq<char>, p: Seq<char>) -> Option<Seq<char>> {
    if has_prefix(s, p) {
        Some(s.subrange(p.len() as int, s.len() as int))
    } else {
        None
    }
}

pub fn strip_prefix_chars(s: &[char], p: &[char]) -> (r: Option<Vec<char>>)
    ensures
        match r {
            Some(t) => strip_prefix(s@, p@) == Some(t@),
            None => strip_prefix(s@, p@) is None,
        },
{
    if starts_with(s, p) {
        Some(slice_range(s, p.len(), s.len()))
    } else {
        None
    }
}

pub open spec fn strip_start_count(s: Seq<char>, c: char) -> int
    decreases s.len(),
{
    if s.len() > 0 && s[0] == c {
        1 + strip_start_count(s.drop_first(), c)
    } else {
        0
    }
}

pub open spec fn strip_end_count(s: Seq<char>, c: char) -> int
    decreases s.len(),
{
    if s.len() > 0 && s.last() == c {
        1 + strip_end_count(s.drop_last(), c)
    } else {
        0
    }
}

/// `str::trim_matches` with one character: every leading and trailing copy removed.
pub open spec fn trim_matches(s: Seq<char>, c: char) -> Seq<char> {
    let a = strip_start_count(s, c);
    if a >= s.len() {
        Seq::empty()
    } else {
        s.subrange(a, s.len() - strip_end_count(s, c))
    }
}

proof fn lemma_strip_start(s: Seq<char>, c: char, k: int)
    requires
        0 <= k <= s.len(),
        forall|j: int| 0 <= j < k ==> s[j] == c,
        k < s.len() ==> s[k] != c,
    ensures
        strip_start_count(s, c) == k,
    decreases s.len(),
{
    if k > 0 {
        assert forall|j: int| 0 <= j < k - 1 implies s.drop_first()[j] == c by {
            assert(s.drop_first()[j] == s[j + 1]);
        }
        lemma_strip_start(s.drop_first(), c, k - 1);
    }
}

proof fn lemma_strip_end(s: Seq<char>, c: char, k: int)
    requires
        0 <= k <= s.len(),
        forall|j: int| s.len() - k <= j < s.len() ==> s[j] == c,
        k < s.len() ==> s[s.len() - k - 1] != c,
    ensures
        strip_end_count(s, c) == k,
    decreases s.len(),
{
    if k > 0 {
        assert forall|j: int| s.drop_last().len() - (k - 1) <= j < s.drop_last().len() implies s.drop_last()[j] == c by {
            assert(s.drop_last()[j] == s[j]);
        }
        lemma_strip_end(s.drop_last(), c, k - 1);
    }
}

pub fn trim_matches_chars(s: &[char], c: char) -> (t: Vec<char>)
    ensures
        t@ == trim_matches(s@, c),
{
    let n = s.len();
    let mut a: usize = 0;
    while a < n && s[a] == c
        invariant
            n == s@.len(),
            a <= n,
            forall|j: int| 0 <= j < a ==> s@[j] == c,
        decreases n - a,
    {
        a = a + 1;
    }
    proof {
        lemma_strip_start(s@, c, a as int);
    }
    if a == n {
        return Vec::new();
    }
    let mut b: usize = 0;
    while b < n && s[n - 1 - b] == c
        invariant
            n == s@.len(),
            b <= n,
            forall|j: int| n - b <= j < n ==> s@[j] == c,
        decreases n - b,
    {
        b = b + 1;
    }
    proof {
        lemma_strip_end(s@, c, b as int);
        // the character at `a` is not `c`, so the trailing run stops after it
        if n - b <= a {
            assert(s@[a as int] == c);
        }
    }
    slice_range(s, a, n - b)
}

/// Whether two character sequences are equal.
pub fn chars_equal(a: &[char], b: &[char]) -> (r: bool)
    ensures
        r == (a@ == b@),
{
    if a.len() != b.len() {
        return false;
    }
    let r = starts_with(a, b);
    proof {
        assert(a@.subrange(0, b@.len() as int) =~= a@);
        if a@ == b@ {
            assert(has_prefix(a@, b@));
        }
    }
    r
}

// ---------------------------------------------------------------------------
// UTF-8 length
// ---------------------------------------------------------------------------

/// Bytes in the UTF-8 encoding of one character.
pub open spec fn utf8_width(c: char) -> nat {
    let v = c as u32;
    if v < 0x80 {
        1
    } else if v < 0x800 {
        2
    } else if v < 0x10000 {
        3
    } else {
        4
    }
}

/// Bytes in the UTF-8 encoding of a character sequence (what `str::len` reports).
pub open spec fn utf8_len(s: Seq<char>) -> nat
    decreases s.len(),
{
    if s.len() == 0 {
        0
    } else {
        utf8_len(s.drop_last()) + utf8_width(s.last())
    }
}

pub fn utf8_length(s: &[char]) -> (n: u128)
    ensures
        n == utf8_len(s@),
{
    let mut n: u128 = 0;
    let mut i: usize = 0;
    while i < s.len()
        invariant
            i <= s@.len(),
            n == utf8_len(s@.subrange(0, i as int)),
            n <= 4 * i,
        decreases s@.len() - i,
    {
        proof {
            assert(s@.subrange(0, i as int + 1).drop_last() =~= s@.subrange(0, i as int));
        }
        let v = s[i] as u32;
        let w: u128 = if v < 0x80 {
            1
        } else if v < 0x800 {
            2
        } else if v < 0x10000 {
            3
        } else {
            4
        };
        n = n + w;
        i = i + 1;
    }
    proof {
        assert(s@.subrange(0, s@.len() as int) =~= s@);
    }
    n
}

} // verus!
