//! Text primitives shared by the monitor's logic: conversions between `str`
//! and character vectors, Unicode whitespace trimming, separators, substring
//! search, number formatting and UTF-16 decoding.

use vstd::prelude::*;

verus! {

// ---------------------------------------------------------------------------
// Conversions
// ---------------------------------------------------------------------------

/// The characters of `s`, in order.
pub fn chars_of(s: &str) -> (v: Vec<char>)
    ensures
        v@ == s@,
{
    let mut v: Vec<char> = Vec::new();
    for c in it: s.chars()
        invariant
            v@ == it.seq().take(it.index() as int),
    {
        v.push(c);
    }
    v
}

/// Appends one character; a wrapper for `String::push`, whose documented
/// effect is exactly that the character is added at the end.
#[verifier::external_body]
fn push_char(s: &mut String, c: char)
    ensures
        final(s)@ == old(s)@.push(c),
{
    s.push(c);
}

/// Appends the characters `v[from..to]` to `s`.
pub fn push_chars(s: &mut String, v: &[char], from: usize, to: usize)
    requires
        from <= to <= v@.len(),
    ensures
        final(s)@ == old(s)@ + v@.subrange(from as int, to as int),
{
    let mut i = from;
    while i < to
        invariant
            from <= i <= to <= v@.len(),
            s@ == old(s)@ + v@.subrange(from as int, i as int),
        decreases to - i,
    {
        push_char(s, v[i]);
        i = i + 1;
        assert(v@.subrange(from as int, i as int) =~= v@.subrange(from as int, i - 1 as int).push(
            v@[i - 1],
        ));
    }
}

/// A `String` holding exactly the characters of `v`.
pub fn string_from_chars(v: &[char]) -> (s: String)
    ensures
        s@ == v@,
{
    let mut s = String::new();
    push_chars(&mut s, v, 0, v.len());
    assert(v@.subrange(0, v@.len() as int) =~= v@);
    s
}

/// The concatenation `a + b` as a new `String`.
pub fn concat_str(a: &str, b: &str) -> (s: String)
    ensures
        s@ == a@ + b@,
{
    let mut s = a.to_owned();
    s.append(b);
    s
}

// ---------------------------------------------------------------------------
// Lowercasing (Unicode case mapping, delegated to std)
// ---------------------------------------------------------------------------

/// The result of `str::to_lowercase` on a string with the characters `s`.
pub uninterp spec fn lowercase(s: Seq<char>) -> Seq<char>;

/// A wrapper for `str::to_lowercase`. Its result depends only on the
/// characters of the argument (the Unicode case tables, no locale); the
/// contract names that result and says nothing more about the mapping.
#[verifier::external_body]
pub fn to_lowercase(s: &str) -> (r: String)
    ensures
        r@ == lowercase(s@),
{
    s.to_lowercase()
}

// ---------------------------------------------------------------------------
// Unicode whitespace and trimming
// ---------------------------------------------------------------------------

/// The Unicode `White_Space` property, which `char::is_whitespace` (and so
/// `str::trim`) uses.
pub open spec fn is_white_space(c: char) -> bool {
    let u = c as u32;
    ||| 0x9 <= u <= 0xD
    ||| u == 0x20
    ||| u == 0x85
    ||| u == 0xA0
    ||| u == 0x1680
    ||| 0x2000 <= u <= 0x200A
    ||| u == 0x2028
    ||| u == 0x2029
    ||| u == 0x202F
    ||| u == 0x205F
    ||| u == 0x3000
}

pub fn is_white_space_char(c: char) -> (b: bool)
    ensures
        b == is_white_space(c),
{
    let u = c as u32;
    (0x9 <= u && u <= 0xD) || u == 0x20 || u == 0x85 || u == 0xA0 || u == 0x1680 || (0x2000 <= u
        && u <= 0x200A) || u == 0x2028 || u == 0x2029 || u == 0x202F || u == 0x205F || u == 0x3000
}

/// `s` without its leading whitespace.
pub open spec fn trim_start(s: Seq<char>) -> Seq<char>
    decreases s.len(),
{
    if s.len() > 0 && is_white_space(s[0]) {
        trim_start(s.drop_first())
    } else {
        s
    }
}

/// `s` without its trailing whitespace.
pub open spec fn trim_end(s: Seq<char>) -> Seq<char>
    decreases s.len(),
{
    if s.len() > 0 && is_white_space(s.last()) {
        trim_end(s.drop_last())
    } else {
        s
    }
}

/// What `str::trim` returns: `s` without leading and trailing whitespace.
pub open spec fn trim(s: Seq<char>) -> Seq<char> {
    trim_end(trim_start(s))
}

proof fn lemma_trim_start_skips(s: Seq<char>, i: int)
    requires
        0 <= i <= s.len(),
        forall|k: int| 0 <= k < i ==> is_white_space(#[trigger] s[k]),
    ensures
        trim_start(s) == trim_start(s.subrange(i, s.len() as int)),
    decreases i,
{
    if i > 0 {
        assert(s.drop_first().subrange(i - 1, s.drop_first().len() as int) =~= s.subrange(
            i,
            s.len() as int,
        ));
        lemma_trim_start_skips(s.drop_first(), i - 1);
    } else {
        assert(s.subrange(0, s.len() as int) =~= s);
    }
}

proof fn lemma_trim_end_skips(s: Seq<char>, j: int)
    requires
        0 <= j <= s.len(),
        forall|k: int| j <= k < s.len() ==> is_white_space(#[trigger] s[k]),
    ensures
        trim_end(s) == trim_end(s.subrange(0, j)),
    decreases s.len() - j,
{
    if j < s.len() {
        assert(s.drop_last().subrange(0, j) =~= s.subrange(0, j));
        lemma_trim_end_skips(s.drop_last(), j);
    } else {
        assert(s.subrange(0, j) =~= s);
    }
}

proof fn lemma_trim_start_front(s: Seq<char>)
    ensures
        trim_start(s).len() > 0 ==> !is_white_space(trim_start(s)[0]),
    decreases s.len(),
{
    if s.len() > 0 && is_white_space(s[0]) {
        lemma_trim_start_front(s.drop_first());
    }
}

proof fn lemma_trim_end_back(s: Seq<char>)
    ensures
        trim_end(s).len() > 0 ==> !is_white_space(trim_end(s).last()),
    decreases s.len(),
{
    if s.len() > 0 && is_white_space(s.last()) {
        lemma_trim_end_back(s.drop_last());
    }
}

proof fn lemma_trim_end_keeps_front(s: Seq<char>)
    requires
        s.len() > 0,
        !is_white_space(s[0]),
    ensures
        trim_end(s).len() > 0,
        trim_end(s)[0] == s[0],
    decreases s.len(),
{
    if is_white_space(s.last()) {
        assert(s.len() > 1);
        assert(s.drop_last()[0] == s[0]);
        lemma_trim_end_keeps_front(s.drop_last());
    }
}

/// Trimming is idempotent: trimmed text has nothing more to trim.
pub proof fn lemma_trim_idempotent(s: Seq<char>)
    ensures
        trim(trim(s)) == trim(s),
{
    let a = trim_start(s);
    let t = trim_end(a);
    lemma_trim_start_front(s);
    lemma_trim_end_back(a);
    if t.len() > 0 {
        assert(a.len() > 0);
        lemma_trim_end_keeps_front(a);
        assert(trim_start(t) == t);
        assert(trim_end(t) == t);
    } else {
        assert(trim_start(t) == t);
    }
}

/// `str::trim`: the characters of `s` without leading and trailing Unicode
/// whitespace.
pub fn trim_str(s: &str) -> (r: String)
    ensures
        r@ == trim(s@),
{
    let v = chars_of(s);
    let n = v.len();
    let mut i: usize = 0;
    while i < n && is_white_space_char(v[i])
        invariant
            n == v@.len(),
            i <= n,
            forall|k: int| 0 <= k < i ==> is_white_space(#[trigger] v@[k]),
        decreases n - i,
    {
        i = i + 1;
    }
    let mut j: usize = n;
    while j > i && is_white_space_char(v[j - 1])
        invariant
            n == v@.len(),
            i <= j <= n,
            forall|k: int| j <= k < n ==> is_white_space(#[trigger] v@[k]),
        decreases j - i,
    {
        j = j - 1;
    }
    let mut r = String::new();
    push_chars(&mut r, v.as_slice(), i, j);
    proof {
        let t = v@.subrange(i as int, n as int);
        lemma_trim_start_skips(v@, i as int);
        assert(trim_start(t) == t);
        assert forall|k: int| j - i <= k < t.len() implies is_white_space(#[trigger] t[k]) by {
            assert(t[k] == v@[k + i]);
        }
        lemma_trim_end_skips(t, j - i);
        assert(t.subrange(0, j - i) =~= v@.subrange(i as int, j as int));
        assert(trim_end(v@.subrange(i as int, j as int)) == v@.subrange(i as int, j as int));
        assert(r@ =~= v@.subrange(i as int, j as int));
    }
    r
}

// ---------------------------------------------------------------------------
// Separators
// ---------------------------------------------------------------------------

/// `s.rsplit(sep).next()`: the text after the last `sep`, or all of `s`.
pub open spec fn after_last(s: Seq<char>, sep: char) -> Seq<char>
    decreases s.len(),
{
    if s.len() == 0 {
        s
    } else if s.last() == sep {
        Seq::empty()
    } else {
        after_last(s.drop_last(), sep).push(s.last())
    }
}

/// `s.split(sep).next()`: the text before the first `sep`, or all of `s`.
pub open spec fn before_first(s: Seq<char>, sep: char) -> Seq<char>
    decreases s.len(),
{
    if s.len() == 0 {
        s
    } else if s[0] == sep {
        Seq::empty()
    } else {
        seq![s[0]] + before_first(s.drop_first(), sep)
    }
}

/// The text after the first `sep`, or nothing when `s` has none.
pub open spec fn after_first(s: Seq<char>, sep: char) -> Option<Seq<char>>
    decreases s.len(),
{
    if s.len() == 0 {
        None
    } else if s[0] == sep {
        Some(s.drop_first())
    } else {
        after_first(s.drop_first(), sep)
    }
}

proof fn lemma_after_last_at(s: Seq<char>, sep: char, k: int)
    requires
        0 <= k <= s.len(),
        k == 0 || s[k - 1] == sep,
        forall|t: int| k <= t < s.len() ==> #[trigger] s[t] != sep,
    ensures
        after_last(s, sep) == s.subrange(k, s.len() as int),
    decreases s.len(),
{
    if s.len() == 0 {
        assert(s.subrange(k, 0) =~= s);
    } else if k == s.len() {
        assert(s.subrange(k, k) =~= Seq::<char>::empty());
    } else {
        lemma_after_last_at(s.drop_last(), sep, k);
        assert(s.subrange(k, s.len() as int) =~= s.drop_last().subrange(
            k,
            s.len() - 1,
        ).push(s.last()));
    }
}

/// The text after the last separator holds no separator and ends `s`.
pub proof fn lemma_after_last_is_last_component(s: Seq<char>, sep: char)
    ensures
        !after_last(s, sep).contains(sep),
        after_last(s, sep).len() <= s.len(),
        after_last(s, sep) == s.subrange(s.len() - after_last(s, sep).len(), s.len() as int),
    decreases s.len(),
{
    if s.len() > 0 {
        if s.last() == sep {
            assert(s.subrange(s.len() as int, s.len() as int) =~= Seq::<char>::empty());
        } else {
            let r = after_last(s.drop_last(), sep);
            lemma_after_last_is_last_component(s.drop_last(), sep);
            assert forall|i: int| 0 <= i < r.push(s.last()).len() implies r.push(s.last())[i]
                != sep by {
                if i < r.len() {
                    assert(r[i] != sep);
                }
            }
            assert(r.push(s.last()) =~= s.subrange(
                s.len() - r.push(s.last()).len(),
                s.len() as int,
            ));
        }
    }
}

proof fn lemma_before_first_at(s: Seq<char>, sep: char, k: int)
    requires
        0 <= k <= s.len(),
        k == s.len() || s[k] == sep,
        forall|t: int| 0 <= t < k ==> #[trigger] s[t] != sep,
    ensures
        before_first(s, sep) == s.subrange(0, k),
        after_first(s, sep) == (if k == s.len() {
            None
        } else {
            Some(s.subrange(k + 1, s.len() as int))
        }),
    decreases s.len(),
{
    if s.len() == 0 {
        assert(s.subrange(0, 0) =~= s);
    } else if k == 0 {
        assert(s.subrange(0, 0) =~= Seq::<char>::empty());
        assert(s.drop_first() =~= s.subrange(1, s.len() as int));
    } else {
        assert forall|t: int| 0 <= t < k - 1 implies #[trigger] s.drop_first()[t] != sep by {
            assert(s.drop_first()[t] == s[t + 1]);
        }
        lemma_before_first_at(s.drop_first(), sep, k - 1);
        assert(s.subrange(0, k) =~= seq![s[0]] + s.drop_first().subrange(0, k - 1));
        if k < s.len() {
            assert(s.drop_first().subrange(k, s.len() - 1) =~= s.subrange(
                k + 1,
                s.len() as int,
            ));
        }
    }
}

/// Index just past the last `sep` in `v` (0 when there is none).
fn last_sep_end(v: &Vec<char>, sep: char) -> (k: usize)
    ensures
        k <= v@.len(),
        k == 0 || v@[k - 1] == sep,
        forall|t: int| k <= t < v@.len() ==> #[trigger] v@[t] != sep,
{
    let mut k = v.len();
    while k > 0 && v[k - 1] != sep
        invariant
            k <= v@.len(),
            forall|t: int| k <= t < v@.len() ==> #[trigger] v@[t] != sep,
        decreases k,
    {
        k = k - 1;
    }
    k
}

/// Index of the first `sep` in `v` (its length when there is none).
fn first_sep(v: &Vec<char>, sep: char) -> (k: usize)
    ensures
        k <= v@.len(),
        k == v@.len() || v@[k as int] == sep,
        forall|t: int| 0 <= t < k ==> #[trigger] v@[t] != sep,
{
    let mut k: usize = 0;
    while k < v.len() && v[k] != sep
        invariant
            k <= v@.len(),
            forall|t: int| 0 <= t < k ==> #[trigger] v@[t] != sep,
        decreases v@.len() - k,
    {
        k = k + 1;
    }
    k
}

/// `s.rsplit(sep).next()`.
pub fn after_last_str(s: &str, sep: char) -> (r: String)
    ensures
        r@ == after_last(s@, sep),
{
    let v = chars_of(s);
    let k = last_sep_end(&v, sep);
    let mut r = String::new();
    push_chars(&mut r, v.as_slice(), k, v.len());
    proof {
        lemma_after_last_at(v@, sep, k as int);
    }
    r
}

/// `s.split(sep).next()`.
pub fn before_first_str(s: &str, sep: char) -> (r: String)
    ensures
        r@ == before_first(s@, sep),
{
    let v = chars_of(s);
    let k = first_sep(&v, sep);
    let mut r = String::new();
    push_chars(&mut r, v.as_slice(), 0, k);
    proof {
        lemma_before_first_at(v@, sep, k as int);
    }
    r
}

/// Splits `s` at its first `sep`: the text before it, and the text after it
/// when there is one.
pub fn split_once_char(s: &str, sep: char) -> (r: (String, Option<String>))
    ensures
        r.0@ == before_first(s@, sep),
        r.1 is Some <==> after_first(s@, sep) is Some,
        r.1 matches Some(t) ==> t@ == after_first(s@, sep)->0,
{
    let v = chars_of(s);
    let k = first_sep(&v, sep);
    let mut head = String::new();
    push_chars(&mut head, v.as_slice(), 0, k);
    proof {
        lemma_before_first_at(v@, sep, k as int);
    }
    if k == v.len() {
        (head, None)
    } else {
        let mut tail = String::new();
        push_chars(&mut tail, v.as_slice(), k + 1, v.len());
        (head, Some(tail))
    }
}

/// Every `from` replaced by `to`.
pub open spec fn replace_char(s: Seq<char>, from: char, to: char) -> Seq<char> {
    s.map_values(|c: char| if c == from { to } else { c })
}

/// `str::replace` with a single-character pattern and replacement.
pub fn replace_char_str(s: &str, from: char, to: char) -> (r: String)
    ensures
        r@ == replace_char(s@, from, to),
{
    let v = chars_of(s);
    let mut r = String::new();
    let mut i: usize = 0;
    while i < v.len()
        invariant
            i <= v@.len(),
            r@ =~= replace_char(v@.take(i as int), from, to),
        decreases v@.len() - i,
    {
        let c = v[i];
        if c == from {
            push_char(&mut r, to);
        } else {
            push_char(&mut r, c);
        }
        i = i + 1;
        assert(v@.take(i as int) =~= v@.take(i - 1 as int).push(c));
    }
    assert(v@.take(v@.len() as int) =~= v@);
    r
}

// ---------------------------------------------------------------------------
// Search and comparison
// ---------------------------------------------------------------------------

/// `a == b` on string slices: the same characters.
pub fn same_text(a: &str, b: &str) -> (r: bool)
    ensures
        r == (a@ == b@),
{
    let x = chars_of(a);
    let y = chars_of(b);
    if x.len() != y.len() {
        return false;
    }
    let mut i: usize = 0;
    while i < x.len()
        invariant
            x@ == a@,
            y@ == b@,
            x@.len() == y@.len(),
            i <= x@.len(),
            forall|k: int| 0 <= k < i ==> x@[k] == y@[k],
        decreases x@.len() - i,
    {
        if x[i] != y[i] {
            assert(a@[i as int] != b@[i as int]);
            return false;
        }
        i = i + 1;
    }
    assert(x@ =~= y@);
    true
}

/// `needle` occurs in `hay` at position `i`.
pub open spec fn occurs_at(hay: Seq<char>, needle: Seq<char>, i: int) -> bool {
    0 <= i && i + needle.len() <= hay.len() && hay.subrange(i, i + needle.len()) == needle
}

/// `str::contains` with a string pattern.
pub open spec fn contains_seq(hay: Seq<char>, needle: Seq<char>) -> bool {
    exists|i: int| occurs_at(hay, needle, i)
}

fn occurs_at_exec(hay: &Vec<char>, needle: &Vec<char>, i: usize) -> (b: bool)
    requires
        i + needle@.len() <= hay@.len(),
    ensures
        b == occurs_at(hay@, needle@, i as int),
{
    let hl = hay.len();
    let mut k: usize = 0;
    while k < needle.len()
        invariant
            hl == hay@.len(),
            i + needle@.len() <= hay@.len(),
            k <= needle@.len(),
            forall|t: int| 0 <= t < k ==> hay@[i + t] == #[trigger] needle@[t],
        decreases needle@.len() - k,
    {
        if hay[i + k] != needle[k] {
            assert(hay@.subrange(i as int, i + needle@.len())[k as int] != needle@[k as int]);
            return false;
        }
        k = k + 1;
    }
    assert(hay@.subrange(i as int, i + needle@.len()) =~= needle@);
    true
}

/// Whether `needle` occurs in `hay`.
pub fn contains_str(hay: &str, needle: &str) -> (b: bool)
    ensures
        b == contains_seq(hay@, needle@),
{
    let h = chars_of(hay);
    let n = chars_of(needle);
    if n.len() > h.len() {
        assert forall|i: int| !occurs_at(h@, n@, i) by {}
        return false;
    }
    let last = h.len() - n.len();
    let mut i: usize = 0;
    while i < last
        invariant
            h@ == hay@,
            n@ == needle@,
            last == h@.len() - n@.len(),
            n@.len() <= h@.len(),
            i <= last,
            forall|t: int| 0 <= t < i ==> !occurs_at(h@, n@, t),
        decreases last - i,
    {
        if occurs_at_exec(&h, &n, i) {
            assert(occurs_at(h@, n@, i as int));
            return true;
        }
        i = i + 1;
    }
    if occurs_at_exec(&h, &n, last) {
        assert(occurs_at(h@, n@, last as int));
        return true;
    }
    assert forall|t: int| !occurs_at(h@, n@, t) by {
        if 0 <= t < i {
        }
    }
    false
}

/// ASCII case folding of one character, as a code point.
pub open spec fn ascii_fold(c: char) -> u32 {
    if 65 <= (c as u32) <= 90 {
        (c as u32 + 32) as u32
    } else {
        c as u32
    }
}

/// `str::eq_ignore_ascii_case`.
pub open spec fn eq_ignore_ascii_case(a: Seq<char>, b: Seq<char>) -> bool {
    a.len() == b.len() && forall|i: int| 0 <= i < a.len() ==> ascii_fold(a[i]) == ascii_fold(b[i])
}

fn ascii_fold_exec(c: char) -> (r: u32)
    ensures
        r == ascii_fold(c),
{
    let u = c as u32;
    if 65 <= u && u <= 90 {
        u + 32
    } else {
        u
    }
}

pub fn eq_ignore_ascii_case_str(a: &str, b: &str) -> (r: bool)
    ensures
        r == eq_ignore_ascii_case(a@, b@),
{
    let x = chars_of(a);
    let y = chars_of(b);
    if x.len() != y.len() {
        return false;
    }
    let mut i: usize = 0;
    while i < x.len()
        invariant
            x@ == a@,
            y@ == b@,
            x@.len() == y@.len(),
            i <= x@.len(),
            forall|k: int| 0 <= k < i ==> ascii_fold(x@[k]) == ascii_fold(y@[k]),
        decreases x@.len() - i,
    {
        if ascii_fold_exec(x[i]) != ascii_fold_exec(y[i]) {
            assert(!(ascii_fold(a@[i as int]) == ascii_fold(b@[i as int])));
            return false;
        }
        i = i + 1;
    }
    true
}

// ---------------------------------------------------------------------------
// Number formatting
// ---------------------------------------------------------------------------

/// The lowercase hexadecimal digit for `d` (`0`-`9`, `a`-`f`).
pub open spec fn hex_digit(d: nat) -> char {
    if d == 0 {
        '0'
    } else if d == 1 {
        '1'
    } else if d == 2 {
        '2'
    } else if d == 3 {
        '3'
    } else if d == 4 {
        '4'
    } else if d == 5 {
        '5'
    } else if d == 6 {
        '6'
    } else if d == 7 {
        '7'
    } else if d == 8 {
        '8'
    } else if d == 9 {
        '9'
    } else if d == 10 {
        'a'
    } else if d == 11 {
        'b'
    } else if d == 12 {
        'c'
    } else if d == 13 {
        'd'
    } else if d == 14 {
        'e'
    } else {
        'f'
    }
}

fn hex_digit_char(d: u32) -> (c: char)
    requires
        d < 16,
    ensures
        c == hex_digit(d as nat),
{
    if d == 0 {
        '0'
    } else if d == 1 {
        '1'
    } else if d == 2 {
        '2'
    } else if d == 3 {
        '3'
    } else if d == 4 {
        '4'
    } else if d == 5 {
        '5'
    } else if d == 6 {
        '6'
    } else if d == 7 {
        '7'
    } else if d == 8 {
        '8'
    } else if d == 9 {
        '9'
    } else if d == 10 {
        'a'
    } else if d == 11 {
        'b'
    } else if d == 12 {
        'c'
    } else if d == 13 {
        'd'
    } else if d == 14 {
        'e'
    } else {
        'f'
    }
}

/// The decimal digits of `n`, most significant first, without leading zeros
/// (what `Display` prints for an unsigned integer).
pub open spec fn decimal(n: nat) -> Seq<char>
    decreases n,
{
    if n < 10 {
        seq![hex_digit(n)]
    } else {
        decimal(n / 10).push(hex_digit(n % 10))
    }
}

/// Appends the decimal digits of `n`.
pub fn push_decimal(s: &mut String, n: u32)
    ensures
        final(s)@ == old(s)@ + decimal(n as nat),
    decreases n,
{
    if n >= 10 {
        push_decimal(s, n / 10);
    }
    push_char(s, hex_digit_char(n % 10));
    proof {
        if n >= 10 {
            assert(decimal(n as nat) == decimal((n / 10) as nat).push(hex_digit((n % 10) as nat)));
        }
    }
}

/// `format!("{:04x}", v)` for a 16-bit value: exactly four lowercase digits.
pub open spec fn hex4(v: u16) -> Seq<char> {
    seq![
        hex_digit((v / 4096) as nat),
        hex_digit(((v / 256) % 16) as nat),
        hex_digit(((v / 16) % 16) as nat),
        hex_digit((v % 16) as nat),
    ]
}

/// Appends `format!("{:04x}", v)`.
pub fn push_hex4(s: &mut String, v: u16)
    ensures
        final(s)@ == old(s)@ + hex4(v),
{
    let w = v as u32;
    push_char(s, hex_digit_char(w / 4096));
    push_char(s, hex_digit_char((w / 256) % 16));
    push_char(s, hex_digit_char((w / 16) % 16));
    push_char(s, hex_digit_char(w % 16));
    assert(final(s)@ =~= old(s)@ + hex4(v));
}

// ---------------------------------------------------------------------------
// Joining
// ---------------------------------------------------------------------------

/// `parts.join(sep)`.
pub open spec fn join(parts: Seq<Seq<char>>, sep: Seq<char>) -> Seq<char>
    decreases parts.len(),
{
    if parts.len() == 0 {
        Seq::empty()
    } else if parts.len() == 1 {
        parts[0]
    } else {
        join(parts.drop_last(), sep) + sep + parts.last()
    }
}

/// The character sequences of a list of strings.
pub open spec fn views_of(parts: Seq<String>) -> Seq<Seq<char>> {
    parts.map_values(|p: String| p@)
}

/// `parts.join(sep)` over a list of strings.
pub fn join_strings(parts: &Vec<String>, sep: &str) -> (r: String)
    ensures
        r@ == join(views_of(parts@), sep@),
{
    let mut r = String::new();
    let ghost vs = views_of(parts@);
    let mut i: usize = 0;
    while i < parts.len()
        invariant
            vs == views_of(parts@),
            i <= parts@.len(),
            r@ == join(vs.take(i as int), sep@),
        decreases parts@.len() - i,
    {
        if i > 0 {
            r.append(sep);
        }
        r.append(parts[i].as_str());
        proof {
            let t = vs.take(i + 1);
            assert(t.drop_last() =~= vs.take(i as int));
            assert(t.last() == parts@[i as int]@);
            if i == 0 {
                assert(join(t, sep@) == t[0]);
                assert(r@ =~= t[0]);
            }
        }
        i = i + 1;
    }
    assert(vs.take(parts@.len() as int) =~= vs);
    r
}

// ---------------------------------------------------------------------------
// UTF-16
// ---------------------------------------------------------------------------

pub open spec fn is_high_surrogate(u: u16) -> bool {
    0xD800 <= u <= 0xDBFF
}

pub open spec fn is_low_surrogate(u: u16) -> bool {
    0xDC00 <= u <= 0xDFFF
}

/// The code points that `String::from_utf16_lossy` produces from `s`: a
/// high surrogate followed by a low one is combined, any other surrogate
/// becomes U+FFFD, and every other unit stands for itself.
pub open spec fn utf16_scalars(s: Seq<u16>) -> Seq<u32>
    decreases s.len(),
{
    if s.len() == 0 {
        Seq::empty()
    } else if s.len() >= 2 && is_high_surrogate(s[0]) && is_low_surrogate(s[1]) {
        seq![(0x10000 + (s[0] - 0xD800) * 0x400 + (s[1] - 0xDC00)) as u32] + utf16_scalars(
            s.subrange(2, s.len() as int),
        )
    } else if 0xD800 <= s[0] <= 0xDFFF {
        seq![0xFFFDu32] + utf16_scalars(s.drop_first())
    } else {
        seq![s[0] as u32] + utf16_scalars(s.drop_first())
    }
}

/// The code points of a character sequence.
pub open spec fn code_points(s: Seq<char>) -> Seq<u32> {
    s.map_values(|c: char| c as u32)
}

/// A wrapper for `char::from_u32`, which the documentation defines as: the
/// character with that code point when it is a Unicode scalar value
/// (below 0x110000 and not a surrogate), otherwise `None`.
#[verifier::external_body]
fn char_from_u32(v: u32) -> (r: Option<char>)
    ensures
        r is Some <==> (v < 0xD800 || (0xE000 <= v && v < 0x110000)),
        r matches Some(c) ==> c as u32 == v,
{
    char::from_u32(v)
}

/// `String::from_utf16_lossy`.
pub fn decode_utf16_lossy(s: &[u16]) -> (r: String)
    ensures
        code_points(r@) == utf16_scalars(s@),
{
    let n = s.len();
    let mut r = String::new();
    let mut i: usize = 0;
    assert(s@.subrange(0, n as int) =~= s@);
    assert(code_points(r@) + utf16_scalars(s@) =~= utf16_scalars(s@));
    while i < n
        invariant
            n == s@.len(),
            i <= n,
            utf16_scalars(s@) == code_points(r@) + utf16_scalars(s@.subrange(i as int, n as int)),
        decreases n - i,
    {
        let ghost old_r = r@;
        let ghost rest = s@.subrange(i as int, n as int);
        let u = s[i];
        if i + 1 < n && 0xD800 <= u && u <= 0xDBFF && 0xDC00 <= s[i + 1] && s[i + 1] <= 0xDFFF {
            let lo = s[i + 1];
            let v: u32 = 0x10000 + (u as u32 - 0xD800) * 0x400 + (lo as u32 - 0xDC00);
            let c = char_from_u32(v);
            match c {
                Some(ch) => push_char(&mut r, ch),
                None => {},
            }
            proof {
                assert(rest.subrange(2, rest.len() as int) =~= s@.subrange(i + 2, n as int));
                assert(code_points(r@) =~= code_points(old_r) + seq![v]);
            }
            i = i + 2;
        } else {
            if 0xD800 <= u && u <= 0xDFFF {
                push_char(&mut r, '\u{FFFD}');
                proof {
                    assert(code_points(r@) =~= code_points(old_r) + seq![0xFFFDu32]);
                }
            } else {
                let c = char_from_u32(u as u32);
                match c {
                    Some(ch) => push_char(&mut r, ch),
                    None => {},
                }
                proof {
                    assert(code_points(r@) =~= code_points(old_r) + seq![u as u32]);
                }
            }
            proof {
                assert(rest.drop_first() =~= s@.subrange(i + 1, n as int));
            }
            i = i + 1;
        }
    }
    assert(s@.subrange(n as int, n as int) =~= Seq::<u16>::empty());
    assert(code_points(r@) + Seq::<u32>::empty() =~= code_points(r@));
    r
}

// ---------------------------------------------------------------------------
// UTF-8
// ---------------------------------------------------------------------------

/// The characters that `String::from_utf8_lossy` decodes from `b`.
pub uninterp spec fn utf8_lossy(b: Seq<u8>) -> Seq<char>;

/// A wrapper for `String::from_utf8_lossy` (made owned). The result depends
/// only on the bytes; the contract names it and leaves the decoding rules
/// (U+FFFD for each maximal invalid subsequence) unstated.
#[verifier::external_body]
pub fn decode_utf8_lossy(b: &[u8]) -> (r: String)
    ensures
        r@ == utf8_lossy(b@),
{
    String::from_utf8_lossy(b).into_owned()
}

} // verus!
