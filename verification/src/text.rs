//! Character-level text model: whitespace, trimming, prefixes, searching,
//! words and decimal numbers, each with an executable counterpart.
use vstd::prelude::*;

verus! {

broadcast use vstd::string::group_string_axioms;

// ---------------------------------------------------------------------------
// Whitespace and trimming
// ---------------------------------------------------------------------------

/// `c` has the Unicode `White_Space` property (the set that `char::is_whitespace`
/// and `str::trim` use).
pub open spec fn is_ws(c: char) -> bool {
    let u = c as u32;
    ||| 0x9 <= u <= 0xd
    ||| u == 0x20
    ||| u == 0x85
    ||| u == 0xa0
    ||| u == 0x1680
    ||| 0x2000 <= u <= 0x200a
    ||| u == 0x2028
    ||| u == 0x2029
    ||| u == 0x202f
    ||| u == 0x205f
    ||| u == 0x3000
}

/// The first index at or after `i` that does not hold whitespace (or the length).
pub open spec fn ws_end(s: Seq<char>, i: int) -> int
    decreases s.len() - i,
{
    if 0 <= i < s.len() && is_ws(s[i]) {
        ws_end(s, i + 1)
    } else {
        i
    }
}

/// Walking back from `j`, the first index whose preceding character is not whitespace.
pub open spec fn ws_back(s: Seq<char>, j: int) -> int
    decreases j,
{
    if 0 < j <= s.len() && is_ws(s[j - 1]) {
        ws_back(s, j - 1)
    } else {
        j
    }
}

/// `s` without its leading whitespace.
pub open spec fn trim_start(s: Seq<char>) -> Seq<char> {
    s.skip(ws_end(s, 0))
}

/// `s` without its trailing whitespace.
pub open spec fn trim_end(s: Seq<char>) -> Seq<char> {
    s.take(ws_back(s, s.len() as int))
}

/// `s` without leading and trailing whitespace.
pub open spec fn trim(s: Seq<char>) -> Seq<char> {
    trim_end(trim_start(s))
}

/// `s` begins with `p`.
pub open spec fn starts_with(s: Seq<char>, p: Seq<char>) -> bool {
    p.len() <= s.len() && s.take(p.len() as int) == p
}

/// Walking back from `j`, the first index whose preceding character is not `c`.
pub open spec fn char_back(s: Seq<char>, c: char, j: int) -> int
    decreases j,
{
    if 0 < j <= s.len() && s[j - 1] == c {
        char_back(s, c, j - 1)
    } else {
        j
    }
}

/// `s` without any trailing run of the character `c`.
pub open spec fn trim_end_char(s: Seq<char>, c: char) -> Seq<char> {
    s.take(char_back(s, c, s.len() as int))
}

/// The first index at or after `i` that holds whitespace (or the length).
pub open spec fn word_end(s: Seq<char>, i: int) -> int
    decreases s.len() - i,
{
    if 0 <= i < s.len() && !is_ws(s[i]) {
        word_end(s, i + 1)
    } else {
        i
    }
}

/// The first maximal run of non-whitespace characters of `s`, if there is one.
pub open spec fn first_word(s: Seq<char>) -> Option<Seq<char>> {
    let a = ws_end(s, 0);
    let b = word_end(s, a);
    if a < b {
        Some(s.subrange(a, b))
    } else {
        None
    }
}

/// `w` is one of the maximal whitespace-free runs of `s`, found at index `i`.
pub open spec fn word_at(s: Seq<char>, w: Seq<char>, i: int) -> bool {
    &&& 0 <= i
    &&& i + w.len() <= s.len()
    &&& s.subrange(i, i + w.len()) == w
    &&& (i == 0 || is_ws(s[i - 1]))
    &&& (i + w.len() == s.len() || is_ws(s[i + w.len()]))
}

/// Splitting `s` at whitespace yields the item `w` (for a nonempty `w`
/// without whitespace).
pub open spec fn has_word(s: Seq<char>, w: Seq<char>) -> bool {
    exists|i: int| word_at(s, w, i)
}

/// `p` occurs in `s` starting at index `i`.
pub open spec fn occurs_at(s: Seq<char>, p: Seq<char>, i: int) -> bool {
    0 <= i && i + p.len() <= s.len() && s.subrange(i, i + p.len()) == p
}

/// The first index at or after `i` at which `p` occurs in `s`.
pub open spec fn find_from(s: Seq<char>, p: Seq<char>, i: int) -> Option<int>
    decreases s.len() + 1 - i,
{
    if i < 0 || i + p.len() > s.len() {
        None
    } else if occurs_at(s, p, i) {
        Some(i)
    } else {
        find_from(s, p, i + 1)
    }
}

/// `p` occurs somewhere in `s`.
pub open spec fn contains(s: Seq<char>, p: Seq<char>) -> bool {
    exists|i: int| occurs_at(s, p, i)
}

// ---------------------------------------------------------------------------
// Decimal numbers
// ---------------------------------------------------------------------------

pub open spec fn is_digit(c: char) -> bool {
    0x30 <= (c as u32) <= 0x39
}

pub open spec fn digit_value(c: char) -> int {
    (c as u32) - 0x30
}

pub open spec fn digit_char(d: int) -> char {
    if d == 0 { '0' }
    else if d == 1 { '1' }
    else if d == 2 { '2' }
    else if d == 3 { '3' }
    else if d == 4 { '4' }
    else if d == 5 { '5' }
    else if d == 6 { '6' }
    else if d == 7 { '7' }
    else if d == 8 { '8' }
    else { '9' }
}

pub open spec fn all_digits(s: Seq<char>) -> bool {
    forall|i: int| 0 <= i < s.len() ==> is_digit(#[trigger] s[i])
}

/// The number that the decimal digits `s` denote.
pub open spec fn digits_value(s: Seq<char>) -> int
    decreases s.len(),
{
    if s.len() == 0 {
        0
    } else {
        digits_value(s.drop_last()) * 10 + digit_value(s.last())
    }
}

/// What `u32::from_str` gives: an optional `+`, then one or more ASCII
/// digits whose value fits in a `u32`.
pub open spec fn parse_u32(s: Seq<char>) -> Option<u32> {
    let body = if s.len() > 0 && s[0] == '+' { s.drop_first() } else { s };
    if body.len() > 0 && all_digits(body) && digits_value(body) <= u32::MAX {
        Some(digits_value(body) as u32)
    } else {
        None
    }
}

/// The decimal representation of `n`, without leading zeros.
pub open spec fn decimal(n: nat) -> Seq<char>
    decreases n,
{
    if n < 10 {
        seq![digit_char(n as int)]
    } else {
        decimal(n / 10).push(digit_char((n % 10) as int))
    }
}

// ---------------------------------------------------------------------------
// Lemmas
// ---------------------------------------------------------------------------

pub proof fn lemma_ws_end_bounds(s: Seq<char>, i: int)
    requires
        0 <= i <= s.len(),
    ensures
        i <= ws_end(s, i) <= s.len(),
        forall|k: int| i <= k < ws_end(s, i) ==> is_ws(#[trigger] s[k]),
        ws_end(s, i) < s.len() ==> !is_ws(s[ws_end(s, i)]),
    decreases s.len() - i,
{
    if i < s.len() && is_ws(s[i]) {
        lemma_ws_end_bounds(s, i + 1);
    }
}

pub proof fn lemma_ws_back_bounds(s: Seq<char>, j: int)
    requires
        0 <= j <= s.len(),
    ensures
        0 <= ws_back(s, j) <= j,
        forall|k: int| ws_back(s, j) <= k < j ==> is_ws(#[trigger] s[k]),
        ws_back(s, j) > 0 ==> !is_ws(s[ws_back(s, j) - 1]),
    decreases j,
{
    if 0 < j && is_ws(s[j - 1]) {
        lemma_ws_back_bounds(s, j - 1);
    }
}

/// A string whose first and last characters are not whitespace, surrounded by
/// whitespace, trims to itself.
pub proof fn lemma_trim_padded(pad: Seq<char>, x: Seq<char>, tail: Seq<char>)
    requires
        x.len() > 0,
        !is_ws(x[0]),
        !is_ws(x.last()),
        forall|k: int| 0 <= k < pad.len() ==> is_ws(#[trigger] pad[k]),
        forall|k: int| 0 <= k < tail.len() ==> is_ws(#[trigger] tail[k]),
    ensures
        trim(pad + x + tail) == x,
{
    let s = pad + x + tail;
    lemma_ws_end_from(s, 0, pad.len() as int);
    let t = trim_start(s);
    assert(t =~= x + tail);
    lemma_ws_back_from(t, t.len() as int, x.len() as int);
    assert(trim_end(t) =~= x);
}

pub proof fn lemma_ws_end_from(s: Seq<char>, i: int, k: int)
    requires
        0 <= i <= k < s.len(),
        forall|m: int| i <= m < k ==> is_ws(#[trigger] s[m]),
        !is_ws(s[k]),
    ensures
        ws_end(s, i) == k,
    decreases k - i,
{
    if i < k {
        lemma_ws_end_from(s, i + 1, k);
    }
}

pub proof fn lemma_ws_back_from(s: Seq<char>, j: int, k: int)
    requires
        0 < k <= j <= s.len(),
        forall|m: int| k <= m < j ==> is_ws(#[trigger] s[m]),
        !is_ws(s[k - 1]),
    ensures
        ws_back(s, j) == k,
    decreases j - k,
{
    if k < j {
        lemma_ws_back_from(s, j - 1, k);
    }
}

pub proof fn lemma_find_from(s: Seq<char>, p: Seq<char>, j: int)
    requires
        0 <= j,
    ensures
        match find_from(s, p, j) {
            Some(k) => {
                &&& j <= k
                &&& occurs_at(s, p, k)
                &&& forall|i: int| j <= i < k ==> !occurs_at(s, p, i)
            },
            None => forall|i: int| j <= i ==> !occurs_at(s, p, i),
        },
    decreases s.len() + 1 - j,
{
    if j + p.len() <= s.len() && !occurs_at(s, p, j) {
        lemma_find_from(s, p, j + 1);
    }
}

pub proof fn lemma_digit_char(d: int)
    requires
        0 <= d < 10,
    ensures
        is_digit(digit_char(d)),
        digit_value(digit_char(d)) == d,
{
}

pub proof fn lemma_decimal(n: nat)
    ensures
        decimal(n).len() > 0,
        all_digits(decimal(n)),
        digits_value(decimal(n)) == n,
    decreases n,
{
    if n >= 10 {
        assert(decimal(n).last() == digit_char((n % 10) as int));
        lemma_decimal(n / 10);
        let d = decimal(n / 10);
        lemma_digit_char((n % 10) as int);
        assert(decimal(n).drop_last() =~= d);
        assert(digits_value(decimal(n)) == digits_value(d) * 10 + digit_value(digit_char((n % 10) as int)));
        assert(n == (n / 10) * 10 + n % 10);
        assert forall|i: int| 0 <= i < decimal(n).len() implies is_digit(#[trigger] decimal(n)[i]) by {
            if i < d.len() {
                assert(decimal(n)[i] == d[i]);
            }
        }
    } else {
        lemma_digit_char(n as int);
        assert(decimal(n).drop_last() =~= Seq::<char>::empty());
        assert(digits_value(decimal(n)) == digits_value(Seq::<char>::empty()) * 10 + digit_value(digit_char(n as int)));
    }
}

/// Reading back the decimal representation of a `u32` gives the number.
pub proof fn lemma_parse_decimal(n: u32)
    ensures
        parse_u32(decimal(n as nat)) == Some(n),
{
    lemma_decimal(n as nat);
}

// ---------------------------------------------------------------------------
// Executable counterparts
// ---------------------------------------------------------------------------

/// Appends one character to a string.
///
/// Trusted: calls `String::push`, whose documentation says it appends the
/// given `char` to the end of the string; the contract states exactly that.
#[verifier::external_body]
pub(crate) fn push_char(s: &mut String, c: char)
    ensures
        final(s)@ == old(s)@.push(c),
{
    s.push(c);
}

/// The characters of `s`, in order.
pub fn chars_of(s: &str) -> (v: Vec<char>)
    ensures
        v@ == s@,
{
    let mut v: Vec<char> = Vec::new();
    for c in it: s.chars()
        invariant
            v@ == it.seq().take(it.index() as int),
    {
        v.push(c);
    }
    v
}

/// A string holding the characters `v[lo..hi]`.
pub fn string_of(v: &Vec<char>, lo: usize, hi: usize) -> (s: String)
    requires
        lo <= hi <= v.len(),
    ensures
        s@ == v@.subrange(lo as int, hi as int),
{
    let mut s = String::new();
    let mut i = lo;
    while i < hi
        invariant
            lo <= i <= hi <= v.len(),
            s@ == v@.subrange(lo as int, i as int),
        decreases hi - i,
    {
        push_char(&mut s, v[i]);
        i = i + 1;
        assert(s@ =~= v@.subrange(lo as int, i as int));
    }
    s
}

/// The characters `v[lo..hi]` as a vector of their own.
pub fn slice_chars(v: &Vec<char>, lo: usize, hi: usize) -> (r: Vec<char>)
    requires
        lo <= hi <= v.len(),
    ensures
        r@ == v@.subrange(lo as int, hi as int),
{
    let mut r: Vec<char> = Vec::new();
    let mut i = lo;
    while i < hi
        invariant
            lo <= i <= hi <= v.len(),
            r@ == v@.subrange(lo as int, i as int),
        decreases hi - i,
    {
        r.push(v[i]);
        i = i + 1;
        assert(r@ =~= v@.subrange(lo as int, i as int));
    }
    r
}

/// Whether `c` is whitespace.
pub fn is_ws_char(c: char) -> (r: bool)
    ensures
        r == is_ws(c),
{
    let u = c as u32;
    (0x9 <= u && u <= 0xd) || u == 0x20 || u == 0x85 || u == 0xa0 || u == 0x1680 || (0x2000 <= u
        && u <= 0x200a) || u == 0x2028 || u == 0x2029 || u == 0x202f || u == 0x205f || u == 0x3000
}

/// `v` without its leading whitespace.
pub fn trim_start_chars(v: &Vec<char>) -> (r: Vec<char>)
    ensures
        r@ == trim_start(v@),
{
    let n = v.len();
    let mut a: usize = 0;
    while a < n && is_ws_char(v[a])
        invariant
            0 <= a <= n == v.len(),
            ws_end(v@, 0) == ws_end(v@, a as int),
        decreases n - a,
    {
        a = a + 1;
    }
    slice_chars(v, a, n)
}

/// `v` without its trailing whitespace.
pub fn trim_end_chars(v: &Vec<char>) -> (r: Vec<char>)
    ensures
        r@ == trim_end(v@),
{
    let m = v.len();
    let mut b: usize = m;
    while b > 0 && is_ws_char(v[b - 1])
        invariant
            0 <= b <= m == v.len(),
            ws_back(v@, m as int) == ws_back(v@, b as int),
        decreases b,
    {
        b = b - 1;
    }
    slice_chars(v, 0, b)
}

/// `v` without leading and trailing whitespace.
pub fn trim_chars(v: &Vec<char>) -> (r: Vec<char>)
    ensures
        r@ == trim(v@),
{
    let t = trim_start_chars(v);
    trim_end_chars(&t)
}

/// `v` begins with the characters of `p`.
pub fn starts_with_str(v: &Vec<char>, p: &str) -> (r: bool)
    ensures
        r == starts_with(v@, p@),
{
    let pv = chars_of(p);
    let n = pv.len();
    if n > v.len() {
        return false;
    }
    let mut i: usize = 0;
    while i < n
        invariant
            0 <= i <= n == pv.len() <= v.len(),
            pv@ == p@,
            v@.take(i as int) == pv@.take(i as int),
        decreases n - i,
    {
        if v[i] != pv[i] {
            assert(v@.take(n as int)[i as int] != p@[i as int]);
            return false;
        }
        i = i + 1;
        assert(v@.take(i as int) =~= pv@.take(i as int));
    }
    assert(pv@.take(n as int) =~= pv@);
    true
}

/// `v` holds exactly the characters of `p`.
pub fn equals_str(v: &Vec<char>, p: &str) -> (r: bool)
    ensures
        r == (v@ == p@),
{
    let pv = chars_of(p);
    if pv.len() != v.len() {
        return false;
    }
    let r = starts_with_str(v, p);
    assert(v@.take(v.len() as int) =~= v@);
    r
}

/// `v` without any trailing run of `c`.
pub fn trim_end_char_chars(v: &Vec<char>, c: char) -> (r: Vec<char>)
    ensures
        r@ == trim_end_char(v@, c),
{
    let n = v.len();
    let mut b: usize = n;
    while b > 0 && v[b - 1] == c
        invariant
            0 <= b <= n == v.len(),
            char_back(v@, c, n as int) == char_back(v@, c, b as int),
        decreases b,
    {
        b = b - 1;
    }
    slice_chars(v, 0, b)
}

/// The first whitespace-separated word of `v`, if any.
pub fn first_word_chars(v: &Vec<char>) -> (r: Option<Vec<char>>)
    ensures
        match r {
            Some(w) => first_word(v@) == Some(w@),
            None => first_word(v@) is None,
        },
{
    let n = v.len();
    let mut a: usize = 0;
    while a < n && is_ws_char(v[a])
        invariant
            0 <= a <= n == v.len(),
            ws_end(v@, 0) == ws_end(v@, a as int),
        decreases n - a,
    {
        a = a + 1;
    }
    let mut b: usize = a;
    while b < n && !is_ws_char(v[b])
        invariant
            a <= b <= n == v.len(),
            word_end(v@, a as int) == word_end(v@, b as int),
        decreases n - b,
    {
        b = b + 1;
    }
    if a < b {
        Some(slice_chars(v, a, b))
    } else {
        None
    }
}

/// `w` (given as `wv`) occurs in `v` at `i` as a whitespace-delimited word.
fn word_at_exec(v: &Vec<char>, wv: &Vec<char>, i: usize) -> (r: bool)
    requires
        i + wv.len() <= v.len(),
    ensures
        r == word_at(v@, wv@, i as int),
{
    let n = v.len();
    let m = wv.len();
    let before_ok = i == 0 || is_ws_char(v[i - 1]);
    let after_ok = i + m == n || is_ws_char(v[i + m]);
    if !(before_ok && after_ok) {
        return false;
    }
    let mut k: usize = 0;
    assert(v@.subrange(i as int, i as int) =~= wv@.take(0));
    while k < m
        invariant
            0 <= k <= m,
            i + m <= n == v.len(),
            m == wv.len(),
            v@.subrange(i as int, (i + k) as int) == wv@.take(k as int),
        decreases m - k,
    {
        if v[i + k] != wv[k] {
            assert(v@.subrange(i as int, (i + m) as int)[k as int] == v@[(i + k) as int]);
            assert(wv@[k as int] != v@[(i + k) as int]);
            return false;
        }
        k = k + 1;
        assert(v@.subrange(i as int, (i + k) as int) =~= wv@.take(k as int));
    }
    assert(wv@.take(m as int) =~= wv@);
    true
}

/// Splitting `v` at whitespace yields an item equal to `w`.
pub fn has_word_chars(v: &Vec<char>, w: &str) -> (r: bool)
    ensures
        r == has_word(v@, w@),
{
    let wv = chars_of(w);
    let n = v.len();
    let m = wv.len();
    if m > n {
        assert forall|i: int| !word_at(v@, w@, i) by {}
        return false;
    }
    let last = n - m;
    let mut i: usize = 0;
    while i < last
        invariant
            0 <= i <= last == n - m,
            m <= n == v.len(),
            m == wv.len(),
            wv@ == w@,
            forall|j: int| 0 <= j < i ==> !word_at(v@, w@, j),
        decreases last - i,
    {
        if word_at_exec(v, &wv, i) {
            return true;
        }
        i = i + 1;
    }
    if word_at_exec(v, &wv, last) {
        return true;
    }
    assert forall|j: int| !word_at(v@, w@, j) by {}
    false
}

/// The first index at or after `from` at which `p` occurs in `v`.
pub fn find_str(v: &Vec<char>, p: &str, from: usize) -> (r: Option<usize>)
    requires
        from <= v.len(),
    ensures
        match r {
            Some(i) => find_from(v@, p@, from as int) == Some(i as int),
            None => find_from(v@, p@, from as int) is None,
        },
{
    let pv = chars_of(p);
    let n = v.len();
    let m = pv.len();
    let mut i = from;
    while m <= n - i
        invariant
            from <= i <= n,
            n == v.len(),
            m == pv.len(),
            pv@ == p@,
            find_from(v@, p@, from as int) == find_from(v@, p@, i as int),
        decreases n + 1 - i,
    {
        let mut k: usize = 0;
        let mut same = true;
        assert(v@.subrange(i as int, i as int) =~= pv@.take(0));
        while k < m && same
            invariant
                0 <= k <= m,
                i + m <= n == v.len(),
                m == pv.len(),
                same == (v@.subrange(i as int, (i + k) as int) == pv@.take(k as int)),
            decreases m - k,
        {
            if v[i + k] != pv[k] {
                assert(v@.subrange(i as int, (i + k + 1) as int)[k as int] != pv@.take(
                    (k + 1) as int,
                )[k as int]);
                same = false;
                proof {
                    assert forall|kk: int| k < kk <= m implies v@.subrange(i as int, i + kk)
                        != pv@.take(kk) by {
                        assert(v@.subrange(i as int, i + kk)[k as int] == v@[(i + k) as int]);
                    }
                }
            } else {
                assert(v@.subrange(i as int, (i + k + 1) as int) =~= pv@.take((k + 1) as int));
            }
            k = k + 1;
        }
        if same && k == m {
            assert(pv@.take(m as int) =~= pv@);
            return Some(i);
        }
        proof {
            assert(pv@.take(m as int) =~= pv@);
            if !same {
                // a mismatch at an earlier position rules out an occurrence here
                assert(!occurs_at(v@, p@, i as int)) by {
                    if occurs_at(v@, p@, i as int) {
                        let kk = k as int;
                        assert(v@.subrange(i as int, i + kk) =~= v@.subrange(
                            i as int,
                            i + m as int,
                        ).take(kk));
                        assert(pv@.take(kk) =~= pv@.take(kk));
                    }
                }
            }
        }
        i = i + 1;
    }
    None
}

/// The number that `v` denotes when read as `u32::from_str` would read it.
pub fn parse_u32_chars(v: &Vec<char>) -> (r: Option<u32>)
    ensures
        r == parse_u32(v@),
{
    let start: usize = if v.len() > 0 && v[0] == '+' { 1 } else { 0 };
    let body = slice_chars(v, start, v.len());
    assert(start == 1 ==> body@ =~= v@.drop_first());
    assert(start == 0 ==> body@ =~= v@);
    let ghost sbody = if v@.len() > 0 && v@[0] == '+' { v@.drop_first() } else { v@ };
    assert(body@ == sbody);
    let n = body.len();
    if n == 0 {
        return None;
    }
    let mut acc: u64 = 0;
    let mut overflow = false;
    let mut i: usize = 0;
    while i < n
        invariant
            0 <= i <= n == body.len(),
            body@ == (if v@.len() > 0 && v@[0] == '+' { v@.drop_first() } else { v@ }),
            all_digits(body@.take(i as int)),
            !overflow ==> acc == digits_value(body@.take(i as int)) && acc <= u32::MAX,
            overflow ==> digits_value(body@.take(i as int)) > u32::MAX,
        decreases n - i,
    {
        let c = body[i];
        let u = c as u32;
        if !(0x30 <= u && u <= 0x39) {
            assert(!all_digits(body@)) by {
                assert(body@[i as int] == c);
            }
            return None;
        }
        proof {
            let t = body@.take((i + 1) as int);
            assert(t.drop_last() =~= body@.take(i as int));
            assert(t.last() == c);
            assert(all_digits(t)) by {
                assert forall|k: int| 0 <= k < t.len() implies is_digit(#[trigger] t[k]) by {
                    if k < i {
                        assert(t[k] == body@.take(i as int)[k]);
                    }
                }
            }
        }
        if !overflow {
            let next = acc * 10 + (u - 0x30) as u64;
            if next > 0xffff_ffff {
                overflow = true;
            } else {
                acc = next;
            }
        }
        i = i + 1;
    }
    assert(body@.take(n as int) =~= body@);
    if overflow {
        None
    } else {
        Some(acc as u32)
    }
}

/// Appends the decimal representation of `n`.
pub fn push_decimal(out: &mut String, n: u32)
    ensures
        final(out)@ == old(out)@ + decimal(n as nat),
    decreases n,
{
    if n >= 10 {
        push_decimal(out, n / 10);
    }
    let d = n % 10;
    let c = if d == 0 { '0' }
    else if d == 1 { '1' }
    else if d == 2 { '2' }
    else if d == 3 { '3' }
    else if d == 4 { '4' }
    else if d == 5 { '5' }
    else if d == 6 { '6' }
    else if d == 7 { '7' }
    else if d == 8 { '8' }
    else { '9' };
    push_char(out, c);
    assert(final(out)@ =~= old(out)@ + decimal(n as nat)) by {
        if n >= 10 {
            assert(decimal(n as nat) == decimal((n / 10) as nat).push(digit_char((n % 10) as int)));
        }
    }
}

/// `s` followed by spaces up to `width` characters (unchanged when it is
/// already that long).
pub open spec fn padded(s: Seq<char>, width: nat) -> Seq<char> {
    if s.len() >= width {
        s
    } else {
        s + Seq::new((width - s.len()) as nat, |i: int| ' ')
    }
}

/// `s` padded with spaces to `width` characters, as `{:<width}` formats it.
pub fn pad_end(s: &str, width: usize) -> (r: String)
    ensures
        r@ == padded(s@, width as nat),
{
    let v = chars_of(s);
    let n = v.len();
    let mut r = string_of(&v, 0, n);
    assert(v@.subrange(0, n as int) =~= s@);
    let mut k = n;
    while k < width
        invariant
            n == s@.len(),
            n <= k,
            k == n || k <= width,
            r@ =~= s@ + Seq::new((k - n) as nat, |i: int| ' '),
        decreases width - k,
    {
        push_char(&mut r, ' ');
        k = k + 1;
    }
    r
}

} // verus!
