//! Character-level text primitives the rest of the library is written in.
//!
//! Strings are read once into a `Vec<char>` and reasoned about as
//! `Seq<char>`; every function here states its result over that view.

use vstd::prelude::*;

verus! {

/// The characters of `s`, in order (std `str::chars`, collected).
#[verifier::external_body]
pub fn chars_of(s: &str) -> (v: Vec<char>)
    ensures
        v@ == s@,
{
    s.chars().collect()
}

/// The string spelled by `v` (std `FromIterator<&char>` for `String`).
#[verifier::external_body]
pub fn string_of(v: &Vec<char>) -> (s: String)
    ensures
        s@ == v@,
{
    v.iter().collect()
}

/// Whether `p` is a prefix of `s`.
pub open spec fn starts(s: Seq<char>, p: Seq<char>) -> bool {
    p.len() <= s.len() && s.subrange(0, p.len() as int) == p
}

/// Whether `p` is a suffix of `s`.
pub open spec fn ends(s: Seq<char>, p: Seq<char>) -> bool {
    p.len() <= s.len() && s.subrange(s.len() - p.len(), s.len() as int) == p
}

/// Whether `p` occurs in `s` at position `i`.
pub open spec fn occurs_at(s: Seq<char>, p: Seq<char>, i: int) -> bool {
    0 <= i && i + p.len() <= s.len() && s.subrange(i, i + p.len()) == p
}

/// Whether `p` occurs anywhere in `s`.
pub open spec fn contains(s: Seq<char>, p: Seq<char>) -> bool {
    exists|i: int| occurs_at(s, p, i)
}

pub fn starts_with(s: &Vec<char>, p: &Vec<char>) -> (r: bool)
    ensures
        r == starts(s@, p@),
{
    if p.len() > s.len() {
        return false;
    }
    let mut i: usize = 0;
    while i < p.len()
        invariant
            p.len() <= s.len(),
            i <= p.len(),
            forall|j: int| 0 <= j < i ==> s@[j] == p@[j],
        decreases p.len() - i,
    {
        if s[i] != p[i] {
            assert(s@.subrange(0, p.len() as int)[i as int] != p@[i as int]);
            return false;
        }
        i += 1;
    }
    assert(s@.subrange(0, p.len() as int) =~= p@);
    true
}

/// Whether `p` occurs in `s` at `at`.
pub fn matches_at(s: &Vec<char>, p: &Vec<char>, at: usize) -> (r: bool)
    ensures
        r == occurs_at(s@, p@, at as int),
{
    if at > s.len() || p.len() > s.len() - at {
        return false;
    }
    let mut i: usize = 0;
    while i < p.len()
        invariant
            at + p.len() <= s.len(),
            i <= p.len(),
            forall|j: int| 0 <= j < i ==> s@[at + j] == p@[j],
        decreases p.len() - i,
    {
        if s[at + i] != p[i] {
            assert(s@.subrange(at as int, at + p.len())[i as int] != p@[i as int]);
            return false;
        }
        i += 1;
    }
    assert(s@.subrange(at as int, at + p.len()) =~= p@);
    true
}

pub fn ends_with(s: &Vec<char>, p: &Vec<char>) -> (r: bool)
    ensures
        r == ends(s@, p@),
{
    if p.len() > s.len() {
        return false;
    }
    let r = matches_at(s, p, s.len() - p.len());
    r
}

/// The first position at or after `from` where `p` occurs in `s`.
pub fn find_from(s: &Vec<char>, p: &Vec<char>, from: usize) -> (r: Option<usize>)
    ensures
        match r {
            Some(i) => from <= i && occurs_at(s@, p@, i as int) && forall|j: int|
                from <= j < i ==> !occurs_at(s@, p@, j),
            None => forall|j: int| from <= j ==> !occurs_at(s@, p@, j),
        },
{
    let mut i = from;
    while i <= s.len() && p.len() <= s.len() - i
        invariant
            from <= i,
            forall|j: int| from <= j < i ==> !occurs_at(s@, p@, j),
        decreases s.len() + 1 - i,
    {
        if matches_at(s, p, i) {
            return Some(i);
        }
        if i == s.len() {
            return None;
        }
        i += 1;
    }
    None
}

/// `s[lo..hi]`.
pub fn slice(s: &Vec<char>, lo: usize, hi: usize) -> (r: Vec<char>)
    requires
        lo <= hi <= s.len(),
    ensures
        r@ == s@.subrange(lo as int, hi as int),
{
    let mut r: Vec<char> = Vec::new();
    let mut i = lo;
    while i < hi
        invariant
            lo <= i <= hi <= s.len(),
            r@ == s@.subrange(lo as int, i as int),
        decreases hi - i,
    {
        r.push(s[i]);
        i += 1;
        assert(r@ =~= s@.subrange(lo as int, i as int));
    }
    r
}

/// `a` followed by `b`.
pub fn concat(a: &Vec<char>, b: &Vec<char>) -> (r: Vec<char>)
    ensures
        r@ == a@ + b@,
{
    let mut r = slice(a, 0, a.len());
    let mut i: usize = 0;
    while i < b.len()
        invariant
            i <= b.len(),
            r@ == a@ + b@.subrange(0, i as int),
        decreases b.len() - i,
    {
        r.push(b[i]);
        i += 1;
        assert(r@ =~= a@ + b@.subrange(0, i as int));
    }
    assert(b@.subrange(0, b.len() as int) =~= b@);
    r
}

/// Appends `b` to `a` in place.
pub fn append(a: &mut Vec<char>, b: &Vec<char>)
    ensures
        final(a)@ == old(a)@ + b@,
{
    let mut i: usize = 0;
    while i < b.len()
        invariant
            i <= b.len(),
            a@ == old(a)@ + b@.subrange(0, i as int),
        decreases b.len() - i,
    {
        a.push(b[i]);
        i += 1;
        assert(a@ =~= old(a)@ + b@.subrange(0, i as int));
    }
    assert(b@.subrange(0, b.len() as int) =~= b@);
}

/// Appends the characters of `b` to `a` in place.
pub fn append_str(a: &mut Vec<char>, b: &str)
    ensures
        final(a)@ == old(a)@ + b@,
{
    let v = chars_of(b);
    append(a, &v);
}

/// Whether two character sequences are equal.
pub fn same(a: &Vec<char>, b: &Vec<char>) -> (r: bool)
    ensures
        r == (a@ == b@),
{
    if a.len() != b.len() {
        return false;
    }
    let r = starts_with(a, b);
    assert(a@.subrange(0, b.len() as int) =~= a@);
    r
}

/// The position of the first `c` in `s`, or -1 when `s` holds none.
pub open spec fn first_of(s: Seq<char>, c: char) -> int {
    if exists|k: int| is_first(s, c, k) {
        choose|k: int| is_first(s, c, k)
    } else {
        -1
    }
}

pub open spec fn is_first(s: Seq<char>, c: char, k: int) -> bool {
    0 <= k < s.len() && s[k] == c && forall|j: int| 0 <= j < k ==> s[j] != c
}

/// The position of the last `c` in `s`, or -1 when `s` holds none.
pub open spec fn last_of(s: Seq<char>, c: char) -> int {
    if exists|k: int| is_last(s, c, k) {
        choose|k: int| is_last(s, c, k)
    } else {
        -1
    }
}

pub open spec fn is_last(s: Seq<char>, c: char, k: int) -> bool {
    0 <= k < s.len() && s[k] == c && forall|j: int| k < j < s.len() ==> s[j] != c
}

pub proof fn lemma_first_of(s: Seq<char>, c: char, k: int)
    requires
        is_first(s, c, k),
    ensures
        first_of(s, c) == k,
{
    let w = choose|k: int| is_first(s, c, k);
    assert(is_first(s, c, w));
    if w < k {
        assert(s[w] != c);
    } else if w > k {
        assert(s[k] != c);
    }
}

pub proof fn lemma_last_of(s: Seq<char>, c: char, k: int)
    requires
        is_last(s, c, k),
    ensures
        last_of(s, c) == k,
{
    let w = choose|k: int| is_last(s, c, k);
    assert(is_last(s, c, w));
    if w < k {
        assert(s[k] != c);
    } else if w > k {
        assert(s[w] != c);
    }
}

/// The first `c` in `s`, if any.
pub fn position(s: &Vec<char>, c: char) -> (r: Option<usize>)
    ensures
        match r {
            Some(k) => is_first(s@, c, k as int) && first_of(s@, c) == k,
            None => first_of(s@, c) == -1 && forall|j: int| 0 <= j < s.len() ==> s@[j] != c,
        },
{
    let mut i: usize = 0;
    while i < s.len()
        invariant
            i <= s.len(),
            forall|j: int| 0 <= j < i ==> s@[j] != c,
        decreases s.len() - i,
    {
        if s[i] == c {
            proof {
                lemma_first_of(s@, c, i as int);
            }
            return Some(i);
        }
        i += 1;
    }
    None
}

/// The last `c` in `s`, if any.
pub fn last_position(s: &Vec<char>, c: char) -> (r: Option<usize>)
    ensures
        match r {
            Some(k) => is_last(s@, c, k as int) && last_of(s@, c) == k,
            None => last_of(s@, c) == -1 && forall|j: int| 0 <= j < s.len() ==> s@[j] != c,
        },
{
    let mut i: usize = s.len();
    while i > 0
        invariant
            i <= s.len(),
            forall|j: int| i <= j < s.len() ==> s@[j] != c,
        decreases i,
    {
        if s[i - 1] == c {
            proof {
                lemma_last_of(s@, c, i - 1);
            }
            return Some(i - 1);
        }
        i -= 1;
    }
    None
}

/// Strict lexicographic order by code point — the order `str` compares in.
pub open spec fn lex_lt(a: Seq<char>, b: Seq<char>) -> bool {
    exists|k: int| lex_at(a, b, k)
}

/// `a` and `b` agree before `k`, and at `k` either `a` ends while `b` goes
/// on or `a` holds the smaller character.
pub open spec fn lex_at(a: Seq<char>, b: Seq<char>, k: int) -> bool {
    &&& 0 <= k <= a.len()
    &&& k <= b.len()
    &&& forall|j: int| 0 <= j < k ==> a[j] == b[j]
    &&& (k == a.len() && k < b.len()) || (k < a.len() && k < b.len() && a[k] < b[k])
}

pub proof fn lemma_lex_irreflexive(a: Seq<char>)
    ensures
        !lex_lt(a, a),
{
}

pub proof fn lemma_lex_asymmetric(a: Seq<char>, b: Seq<char>)
    requires
        lex_lt(a, b),
    ensures
        !lex_lt(b, a),
        a != b,
{
    let k = choose|k: int| lex_at(a, b, k);
    if lex_lt(b, a) {
        let m = choose|m: int| lex_at(b, a, m);
        if m < k {
            assert(a[m] == b[m]);
        } else if k < m {
            assert(b[k] == a[k]);
        }
    }
}

pub proof fn lemma_lex_transitive(a: Seq<char>, b: Seq<char>, c: Seq<char>)
    requires
        lex_lt(a, b),
        lex_lt(b, c),
    ensures
        lex_lt(a, c),
{
    let k1 = choose|k: int| lex_at(a, b, k);
    let k2 = choose|k: int| lex_at(b, c, k);
    if k1 < k2 {
        assert(b[k1] == c[k1]);
        assert(lex_at(a, c, k1));
    } else if k2 < k1 {
        assert(a[k2] == b[k2]);
        assert(lex_at(a, c, k2));
    } else {
        assert(lex_at(a, c, k1));
    }
}

pub proof fn lemma_lex_total(a: Seq<char>, b: Seq<char>)
    ensures
        a == b || lex_lt(a, b) || lex_lt(b, a),
{
    if a != b {
        if exists|k: int| 0 <= k < a.len() && k < b.len() && a[k] != b[k] {
            let k = choose|k: int| 0 <= k < a.len() && k < b.len() && a[k] != b[k];
            let m = lemma_first_difference(a, b, k);
            if a[m] < b[m] {
                assert(lex_at(a, b, m));
            } else {
                assert forall|j: int| 0 <= j < m implies b[j] == a[j] by {}
                assert(lex_at(b, a, m));
            }
        } else if a.len() < b.len() {
            assert(lex_at(a, b, a.len() as int));
        } else if b.len() < a.len() {
            assert(lex_at(b, a, b.len() as int));
        } else {
            assert(a =~= b);
        }
    }
}

proof fn lemma_first_difference(a: Seq<char>, b: Seq<char>, k: int) -> (m: int)
    requires
        0 <= k < a.len(),
        k < b.len(),
        a[k] != b[k],
    ensures
        0 <= m <= k,
        a[m] != b[m],
        forall|j: int| 0 <= j < m ==> a[j] == b[j],
    decreases k,
{
    if exists|j: int| 0 <= j < k && a[j] != b[j] {
        let j = choose|j: int| 0 <= j < k && a[j] != b[j];
        lemma_first_difference(a, b, j)
    } else {
        k
    }
}

/// Whether `a` sorts strictly before `b`.
pub fn lex_less(a: &Vec<char>, b: &Vec<char>) -> (r: bool)
    ensures
        r == lex_lt(a@, b@),
{
    let mut i: usize = 0;
    while i < a.len() && i < b.len() && a[i] == b[i]
        invariant
            i <= a.len(),
            i <= b.len(),
            forall|j: int| 0 <= j < i ==> a@[j] == b@[j],
        decreases a.len() - i,
    {
        i += 1;
    }
    let r = if i < a.len() && i < b.len() {
        a[i] < b[i]
    } else {
        i == a.len() && i < b.len()
    };
    proof {
        if r {
            assert(lex_at(a@, b@, i as int));
        } else if lex_lt(a@, b@) {
            let k = choose|k: int| lex_at(a@, b@, k);
            if k < i {
                assert(a@[k] == b@[k]);
            } else if k > i {
                assert(a@[i as int] == b@[i as int]);
            }
        }
    }
    r
}

/// The decimal digit for `d < 10`.
pub open spec fn digit(d: nat) -> char {
    if d == 0 { '0' } else if d == 1 { '1' } else if d == 2 { '2' } else if d == 3 { '3' }
    else if d == 4 { '4' } else if d == 5 { '5' } else if d == 6 { '6' } else if d == 7 { '7' }
    else if d == 8 { '8' } else { '9' }
}

/// `n` written in decimal, without leading zeros (`0` for zero).
pub open spec fn decimal(n: nat) -> Seq<char>
    decreases n,
{
    if n < 10 {
        seq![digit(n)]
    } else {
        decimal(n / 10).push(digit(n % 10))
    }
}

/// `n` written in decimal, left-padded with zeros to at least `width`.
pub open spec fn padded(n: nat, width: nat) -> Seq<char> {
    let d = decimal(n);
    if d.len() >= width {
        d
    } else {
        Seq::new((width - d.len()) as nat, |i: int| '0') + d
    }
}

fn digit_char(d: u64) -> (c: char)
    requires
        d < 10,
    ensures
        c == digit(d as nat),
{
    if d == 0 { '0' } else if d == 1 { '1' } else if d == 2 { '2' } else if d == 3 { '3' }
    else if d == 4 { '4' } else if d == 5 { '5' } else if d == 6 { '6' } else if d == 7 { '7' }
    else if d == 8 { '8' } else { '9' }
}

/// `n` in decimal.
pub fn decimal_chars(n: u64) -> (r: Vec<char>)
    ensures
        r@ == decimal(n as nat),
    decreases n,
{
    if n < 10 {
        let mut r = Vec::new();
        r.push(digit_char(n));
        assert(r@ =~= decimal(n as nat));
        r
    } else {
        let mut r = decimal_chars(n / 10);
        r.push(digit_char(n % 10));
        r
    }
}

/// `n` in decimal, zero-padded to at least `width` characters.
pub fn padded_chars(n: u64, width: usize) -> (r: Vec<char>)
    ensures
        r@ == padded(n as nat, width as nat),
{
    let d = decimal_chars(n);
    if d.len() >= width {
        return d;
    }
    let mut r: Vec<char> = Vec::new();
    let pad = width - d.len();
    let mut i: usize = 0;
    while i < pad
        invariant
            i <= pad,
            r@ == Seq::new(i as nat, |k: int| '0'),
        decreases pad - i,
    {
        r.push('0');
        i += 1;
        assert(r@ =~= Seq::new(i as nat, |k: int| '0'));
    }
    append(&mut r, &d);
    r
}

/// `n` in decimal, as a string.
pub fn decimal_string(n: u64) -> (s: String)
    ensures
        s@ == decimal(n as nat),
{
    let v = decimal_chars(n);
    string_of(&v)
}

/// `items` joined by `sep`.
pub open spec fn joined(items: Seq<Seq<char>>, sep: Seq<char>) -> Seq<char>
    decreases items.len(),
{
    if items.len() == 0 {
        Seq::<char>::empty()
    } else if items.len() == 1 {
        items[0]
    } else {
        joined(items.drop_last(), sep) + sep + items.last()
    }
}

/// The views of a list of string slices.
pub open spec fn views(items: Seq<&str>) -> Seq<Seq<char>> {
    items.map_values(|s: &str| s@)
}

/// `items` joined by `sep`.
pub fn join(items: &Vec<&str>, sep: &str) -> (r: Vec<char>)
    ensures
        r@ == joined(views(items@), sep@),
{
    let mut r: Vec<char> = Vec::new();
    let mut i: usize = 0;
    while i < items.len()
        invariant
            i <= items.len(),
            r@ == joined(views(items@.take(i as int)), sep@),
        decreases items.len() - i,
    {
        proof {
            assert(views(items@.take(i + 1)).drop_last() =~= views(items@.take(i as int)));
            assert(views(items@.take(i + 1)).last() == items@[i as int]@);
        }
        if i > 0 {
            append_str(&mut r, sep);
        }
        append_str(&mut r, items[i]);
        proof {
            if i == 0 {
                assert(r@ =~= views(items@.take(1))[0]);
            }
        }
        i += 1;
    }
    proof {
        assert(items@.take(items.len() as int) =~= items@);
    }
    r
}

/// `s` as Rust's `Debug` renders a string: quoted, with escapes.
pub uninterp spec fn debug_quote(s: Seq<char>) -> Seq<char>;

/// `s` quoted and escaped as std's `Debug` for `str` renders it.
#[verifier::external_body]
pub fn debug_quoted(s: &str) -> (r: String)
    ensures
        r@ == debug_quote(s@),
{
    format!("{s:?}")
}

/// Unicode `White_Space` — what std's `char::is_whitespace` tests.
pub open spec fn is_white(c: char) -> bool {
    ('\u{9}' <= c && c <= '\u{d}') || c == ' ' || c == '\u{85}' || c == '\u{a0}' || c == '\u{1680}'
        || ('\u{2000}' <= c && c <= '\u{200a}') || c == '\u{2028}' || c == '\u{2029}' || c
        == '\u{202f}' || c == '\u{205f}' || c == '\u{3000}'
}

pub fn white(c: char) -> (r: bool)
    ensures
        r == is_white(c),
{
    ('\u{9}' <= c && c <= '\u{d}') || c == ' ' || c == '\u{85}' || c == '\u{a0}' || c == '\u{1680}'
        || ('\u{2000}' <= c && c <= '\u{200a}') || c == '\u{2028}' || c == '\u{2029}' || c
        == '\u{202f}' || c == '\u{205f}' || c == '\u{3000}'
}

/// Nothing but whitespace (the empty string included).
pub open spec fn blank(s: Seq<char>) -> bool {
    forall|i: int| 0 <= i < s.len() ==> is_white(#[trigger] s[i])
}

pub fn is_blank(s: &str) -> (r: bool)
    ensures
        r == blank(s@),
{
    let v = chars_of(s);
    let mut i: usize = 0;
    while i < v.len()
        invariant
            i <= v.len(),
            v@ == s@,
            forall|j: int| 0 <= j < i ==> is_white(#[trigger] v@[j]),
        decreases v.len() - i,
    {
        if !white(v[i]) {
            return false;
        }
        i += 1;
    }
    true
}

/// The positions `j < len` that `keep` admits, in order.
pub open spec fn kept(len: nat, keep: spec_fn(int) -> bool) -> Seq<int>
    decreases len,
{
    if len == 0 {
        Seq::<int>::empty()
    } else if keep(len - 1) {
        kept((len - 1) as nat, keep).push(len - 1)
    } else {
        kept((len - 1) as nat, keep)
    }
}

pub proof fn lemma_kept_bounds(len: nat, keep: spec_fn(int) -> bool)
    ensures
        kept(len, keep).len() <= len,
        forall|k: int| 0 <= k < kept(len, keep).len() ==> 0 <= #[trigger] kept(len, keep)[k] < len && keep(kept(len, keep)[k]),
    decreases len,
{
    if len > 0 {
        lemma_kept_bounds((len - 1) as nat, keep);
    }
}

/// Every index below `len` that `keep` accepts is kept.
pub proof fn lemma_kept_complete(len: nat, keep: spec_fn(int) -> bool, j: int)
    requires
        0 <= j < len,
        keep(j),
    ensures
        exists|k: int| 0 <= k < kept(len, keep).len() && #[trigger] kept(len, keep)[k] == j,
    decreases len,
{
    if j == len - 1 {
        let k = kept((len - 1) as nat, keep).len() as int;
        assert(kept(len, keep)[k] == j);
    } else {
        lemma_kept_complete((len - 1) as nat, keep, j);
        let k = choose|k: int| 0 <= k < kept((len - 1) as nat, keep).len() && #[trigger] kept((len - 1) as nat, keep)[k] == j;
        assert(kept(len, keep)[k] == j);
    }
}

/// Where `s` starts once leading whitespace is dropped.
pub open spec fn is_lead(s: Seq<char>, k: int) -> bool {
    0 <= k < s.len() && !is_white(s[k]) && forall|j: int| 0 <= j < k ==> is_white(#[trigger] s[j])
}

pub open spec fn is_tail_end(s: Seq<char>, k: int) -> bool {
    0 < k <= s.len() && !is_white(s[k - 1]) && forall|j: int| k <= j < s.len() ==> is_white(#[trigger] s[j])
}

pub open spec fn lead(s: Seq<char>) -> int {
    if exists|k: int| is_lead(s, k) {
        choose|k: int| is_lead(s, k)
    } else {
        s.len() as int
    }
}

/// Where `s` ends once trailing whitespace is dropped.
pub open spec fn tail_end(s: Seq<char>) -> int {
    if exists|k: int| is_tail_end(s, k) {
        choose|k: int| is_tail_end(s, k)
    } else {
        0
    }
}

/// `s` without leading and trailing whitespace (std `str::trim`).
pub open spec fn trimmed(s: Seq<char>) -> Seq<char> {
    if lead(s) < tail_end(s) {
        s.subrange(lead(s), tail_end(s))
    } else {
        Seq::<char>::empty()
    }
}

/// The bounds `[lo, hi)` of `s` without surrounding whitespace.
pub fn trim_bounds(s: &Vec<char>) -> (r: (usize, usize))
    ensures
        r.0 <= r.1 <= s.len(),
        s@.subrange(r.0 as int, r.1 as int) == trimmed(s@),
{
    let mut lo: usize = 0;
    while lo < s.len() && white(s[lo])
        invariant
            lo <= s.len(),
            forall|j: int| 0 <= j < lo ==> is_white(#[trigger] s@[j]),
        decreases s.len() - lo,
    {
        lo += 1;
    }
    let mut hi: usize = s.len();
    while hi > lo && white(s[hi - 1])
        invariant
            lo <= hi <= s.len(),
            forall|j: int| hi <= j < s.len() ==> is_white(#[trigger] s@[j]),
        decreases hi,
    {
        hi -= 1;
    }
    proof {
        if lo < s.len() {
            assert(is_lead(s@, lo as int));
            let w = choose|k: int| is_lead(s@, k);
            assert(lo as int == w) by {
                if w < lo {
                    assert(is_white(s@[w]));
                }
                if w > lo {
                    assert(is_white(s@[lo as int]));
                }
            }
            assert(hi > lo);
            assert(is_tail_end(s@, hi as int));
            let e = choose|k: int| is_tail_end(s@, k);
            assert(hi as int == e) by {
                if e < hi {
                    assert(is_white(s@[hi - 1]));
                }
                if e > hi {
                    assert(is_white(s@[e - 1]));
                }
            }
        } else {
            assert(lo == hi);
            if exists|k: int| is_tail_end(s@, k) {
                let e = choose|k: int| is_tail_end(s@, k);
                assert(is_white(s@[e - 1]));
            }
            if exists|k: int| is_lead(s@, k) {
                let e = choose|k: int| is_lead(s@, k);
                assert(is_white(s@[e]));
            }
        }
    }
    (lo, hi)
}

/// `s` without surrounding whitespace.
pub fn trim(s: &str) -> (r: String)
    ensures
        r@ == trimmed(s@),
{
    let v = chars_of(s);
    let (lo, hi) = trim_bounds(&v);
    string_of(&slice(&v, lo, hi))
}

/// Whether `s` is one of the strings in `v`.
pub open spec fn listed(v: Seq<String>, s: Seq<char>) -> bool {
    exists|i: int| 0 <= i < v.len() && #[trigger] v[i]@ == s
}

/// Inserts `x` into a strictly increasing list unless it is already there.
pub fn insert_sorted(ids: &mut Vec<String>, x: String)
    requires
        forall|i: int, j: int| 0 <= i < j < old(ids).len() ==> lex_lt(old(ids)[i]@, old(ids)[j]@),
    ensures
        forall|i: int, j: int| 0 <= i < j < final(ids).len() ==> lex_lt(final(ids)[i]@, final(ids)[j]@),
        final(ids).len() <= old(ids).len() + 1,
        forall|s: Seq<char>|
            #[trigger] listed(final(ids)@, s) <==> (s == x@ || listed(old(ids)@, s)),
{
    let xv = chars_of(x.as_str());
    let mut k: usize = 0;
    while k < ids.len()
        invariant
            k <= ids.len(),
            ids == old(ids),
            xv@ == x@,
            forall|j: int| 0 <= j < k ==> lex_lt(ids[j]@, x@),
        ensures
            k <= ids.len(),
            ids == old(ids),
            forall|j: int| 0 <= j < k ==> lex_lt(ids[j]@, x@),
            k < ids.len() ==> !lex_lt(ids[k as int]@, x@),
        decreases ids.len() - k,
    {
        let cur = chars_of(ids[k].as_str());
        if !lex_less(&cur, &xv) {
            break;
        }
        k += 1;
    }
    if k < ids.len() {
        let cur = chars_of(ids[k].as_str());
        if same(&cur, &xv) {
            return;
        }
        proof {
            lemma_lex_total(x@, ids[k as int]@);
            assert forall|m: int| k <= m < ids.len() implies lex_lt(x@, #[trigger] ids[m]@) by {
                if m > k {
                    lemma_lex_transitive(x@, ids[k as int]@, ids[m]@);
                }
            }
        }
    }
    let ghost before = ids@;
    assert(forall|m: int| k <= m < before.len() ==> lex_lt(x@, #[trigger] before[m]@));
    ids.insert(k, x);
    proof {
        assert forall|i: int, j: int| 0 <= i < j < ids.len() implies lex_lt(ids[i]@, ids[j]@) by {
            if j < k {
                assert(ids[i] == before[i] && ids[j] == before[j]);
            } else if i > k {
                assert(ids[i] == before[i - 1] && ids[j] == before[j - 1]);
            } else if i == k {
                assert(ids[j] == before[j - 1]);
            } else if j == k {
                assert(ids[i] == before[i]);
            } else {
                assert(ids[i] == before[i] && ids[j] == before[j - 1]);
                assert(lex_lt(x@, before[j - 1]@));
                lemma_lex_transitive(before[i]@, x@, before[j - 1]@);
            }
        }
        assert forall|s: Seq<char>|
            #[trigger] listed(ids@, s) <==> (s == x@ || listed(before, s)) by {
            if listed(before, s) {
                let i = choose|i: int| 0 <= i < before.len() && #[trigger] before[i]@ == s;
                if i < k {
                    assert(ids[i] == before[i]);
                } else {
                    assert(ids[i + 1] == before[i]);
                }
            }
            if s == x@ {
                assert(ids[k as int]@ == s);
            }
            if listed(ids@, s) {
                let i = choose|i: int| 0 <= i < ids.len() && #[trigger] ids@[i]@ == s;
                if i < k {
                    assert(ids[i] == before[i]);
                } else if i > k {
                    assert(ids[i] == before[i - 1]);
                }
            }
        }
    }
}

/// Whether `p` is one of the strings in `v`, decided.
pub fn is_listed(v: &Vec<String>, p: &Vec<char>) -> (r: bool)
    ensures
        r == listed(v@, p@),
{
    let mut i: usize = 0;
    while i < v.len()
        invariant
            i <= v.len(),
            forall|j: int| 0 <= j < i ==> v@[j]@ != p@,
        decreases v.len() - i,
    {
        let c = chars_of(v[i].as_str());
        if same(&c, p) {
            return true;
        }
        i += 1;
    }
    false
}

/// The texts of a list of strings.
pub open spec fn strings(v: Seq<String>) -> Seq<Seq<char>> {
    v.map_values(|s: String| s@)
}

pub proof fn lemma_listed_strings(v: Seq<String>, s: Seq<char>)
    ensures
        listed(v, s) <==> strings(v).contains(s),
{
    if listed(v, s) {
        let i = choose|i: int| 0 <= i < v.len() && #[trigger] v[i]@ == s;
        assert(strings(v)[i] == s);
    }
    if strings(v).contains(s) {
        let i = choose|i: int| 0 <= i < strings(v).len() && strings(v)[i] == s;
        assert(v[i]@ == s);
    }
}

/// Two strictly increasing lists with the same members are the same list.
pub proof fn lemma_sorted_unique(a: Seq<Seq<char>>, b: Seq<Seq<char>>)
    requires
        forall|i: int, j: int| 0 <= i < j < a.len() ==> lex_lt(a[i], a[j]),
        forall|i: int, j: int| 0 <= i < j < b.len() ==> lex_lt(b[i], b[j]),
        forall|t: Seq<char>| a.contains(t) <==> b.contains(t),
    ensures
        a == b,
    decreases a.len(),
{
    if a.len() == 0 {
        if b.len() > 0 {
            assert(b.contains(b[0]));
        }
        assert(a =~= b);
    } else {
        assert(a.contains(a[0]));
        assert(b.len() > 0);
        assert(b.contains(b[0]));
        let k = choose|k: int| 0 <= k < a.len() && a[k] == b[0];
        let m = choose|m: int| 0 <= m < b.len() && b[m] == a[0];
        if k > 0 && m > 0 {
            lemma_lex_asymmetric(a[0], b[0]);
        }
        assert(a[0] == b[0]);
        let a1 = a.drop_first();
        let b1 = b.drop_first();
        assert forall|t: Seq<char>| a1.contains(t) <==> b1.contains(t) by {
            if a1.contains(t) {
                let i = choose|i: int| 0 <= i < a1.len() && a1[i] == t;
                assert(a.contains(t) && a[i + 1] == t);
                lemma_lex_irreflexive(t);
                let j = choose|j: int| 0 <= j < b.len() && b[j] == t;
                assert(j != 0);
                assert(b1[j - 1] == t);
            }
            if b1.contains(t) {
                let i = choose|i: int| 0 <= i < b1.len() && b1[i] == t;
                assert(b.contains(t) && b[i + 1] == t);
                lemma_lex_irreflexive(t);
                let j = choose|j: int| 0 <= j < a.len() && a[j] == t;
                assert(j != 0);
                assert(a1[j - 1] == t);
            }
        }
        lemma_sorted_unique(a1, b1);
        assert(a =~= seq![a[0]] + a1);
        assert(b =~= seq![b[0]] + b1);
    }
}

/// Strictly increasing, so sorted and free of repeats.
pub open spec fn strictly_sorted(v: Seq<Seq<char>>) -> bool {
    forall|i: int, j: int| 0 <= i < j < v.len() ==> lex_lt(v[i], v[j])
}

/// The pieces `s` splits into at each `sep` (std `str::split` with a
/// character), empty pieces included.
pub open spec fn split_on(s: Seq<char>, sep: char) -> Seq<Seq<char>>
    decreases s.len(),
{
    if s.len() == 0 {
        seq![Seq::<char>::empty()]
    } else {
        let before = split_on(s.drop_last(), sep);
        if s.last() != sep {
            before.update(before.len() - 1, before.last().push(s.last()))
        } else {
            before.push(Seq::<char>::empty())
        }
    }
}

pub proof fn lemma_split_nonempty(s: Seq<char>, sep: char)
    ensures
        split_on(s, sep).len() >= 1,
    decreases s.len(),
{
    if s.len() > 0 {
        lemma_split_nonempty(s.drop_last(), sep);
    }
}

pub open spec fn char_views(v: Seq<Vec<char>>) -> Seq<Seq<char>> {
    v.map_values(|x: Vec<char>| x@)
}

/// `s` split at each `sep`.
pub fn split_chars(s: &Vec<char>, sep: char) -> (r: Vec<Vec<char>>)
    ensures
        char_views(r@) == split_on(s@, sep),
{
    let mut r: Vec<Vec<char>> = Vec::new();
    let mut cur: Vec<char> = Vec::new();
    let mut i: usize = 0;
    assert(s@.take(0) =~= Seq::<char>::empty());
    while i < s.len()
        invariant
            i <= s.len(),
            split_on(s@.take(i as int), sep).len() >= 1,
            char_views(r@) + seq![cur@] == split_on(s@.take(i as int), sep),
        decreases s.len() - i,
    {
        let c = s[i];
        let ghost before = split_on(s@.take(i as int), sep);
        proof {
            assert(s@.take(i + 1).drop_last() =~= s@.take(i as int));
            lemma_split_nonempty(s@.take(i + 1), sep);
        }
        if c != sep {
            let ghost old_r = char_views(r@);
            cur.push(c);
            proof {
                assert(old_r + seq![cur@] =~= before.update(before.len() - 1, before.last().push(c)));
            }
        } else {
            let ghost old_r = char_views(r@);
            let ghost old_cur = cur@;
            r.push(cur);
            cur = Vec::new();
            proof {
                assert(char_views(r@) =~= old_r.push(old_cur));
                assert(char_views(r@) + seq![cur@] =~= before.push(Seq::<char>::empty()));
            }
        }
        i += 1;
    }
    let ghost old_r = char_views(r@);
    let ghost old_cur = cur@;
    r.push(cur);
    proof {
        assert(s@.take(i as int) =~= s@);
        assert(char_views(r@) =~= old_r + seq![old_cur]);
    }
    r
}

/// Whether `k` is where `p` first occurs in `s`.
pub open spec fn is_first_occurrence(s: Seq<char>, p: Seq<char>, k: int) -> bool {
    occurs_at(s, p, k) && forall|j: int| 0 <= j < k ==> !occurs_at(s, p, j)
}

/// Where `p` first occurs in `s`, or -1.
pub open spec fn first_occurrence(s: Seq<char>, p: Seq<char>) -> int {
    if exists|k: int| is_first_occurrence(s, p, k) {
        choose|k: int| is_first_occurrence(s, p, k)
    } else {
        -1
    }
}

/// Where `p` first occurs in `s`, found.
pub fn find(s: &Vec<char>, p: &Vec<char>) -> (r: Option<usize>)
    ensures
        match r {
            Some(k) => first_occurrence(s@, p@) == k as int && occurs_at(s@, p@, k as int),
            None => first_occurrence(s@, p@) == -1 && !contains(s@, p@),
        },
{
    let r = find_from(s, p, 0);
    match r {
        Some(k) => {
            proof {
                assert(is_first_occurrence(s@, p@, k as int));
                let w = choose|w: int| is_first_occurrence(s@, p@, w);
                if w < k {
                    assert(!occurs_at(s@, p@, w));
                }
                if w > k {
                    assert(!occurs_at(s@, p@, k as int));
                }
            }
        },
        None => {
            proof {
                if exists|w: int| is_first_occurrence(s@, p@, w) {
                    let w = choose|w: int| is_first_occurrence(s@, p@, w);
                    assert(!occurs_at(s@, p@, w));
                }
                if contains(s@, p@) {
                    let w = choose|w: int| occurs_at(s@, p@, w);
                    assert(!occurs_at(s@, p@, w));
                }
            }
        },
    }
    r
}

/// `s` without leading whitespace (std `str::trim_start`).
pub open spec fn trimmed_start(s: Seq<char>) -> Seq<char> {
    s.skip(lead(s))
}

/// How many leading characters of `s` are not whitespace.
pub open spec fn word_len(s: Seq<char>) -> nat
    decreases s.len(),
{
    if s.len() == 0 || is_white(s[0]) {
        0
    } else {
        1 + word_len(s.drop_first())
    }
}

/// The first whitespace-separated word of `s`, or nothing (std
/// `split_whitespace().next()`).
pub open spec fn first_word(s: Seq<char>) -> Seq<char> {
    let t = trimmed_start(s);
    t.take(word_len(t) as int)
}

proof fn lemma_word_len(s: Seq<char>, k: int)
    requires
        0 <= k <= s.len(),
        forall|j: int| 0 <= j < k ==> !is_white(#[trigger] s[j]),
        k == s.len() || is_white(s[k]),
    ensures
        word_len(s) == k,
    decreases s.len(),
{
    if s.len() > 0 && k > 0 {
        assert forall|j: int| 0 <= j < k - 1 implies !is_white(#[trigger] s.drop_first()[j]) by {
            assert(s.drop_first()[j] == s[j + 1]);
        }
        if k < s.len() {
            assert(s.drop_first()[k - 1] == s[k]);
        }
        lemma_word_len(s.drop_first(), k - 1);
    }
}

/// Where `s` starts once leading whitespace is dropped, found.
pub fn lead_of(s: &Vec<char>) -> (r: usize)
    ensures
        r == lead(s@),
        r <= s.len(),
{
    let mut lo: usize = 0;
    while lo < s.len() && white(s[lo])
        invariant
            lo <= s.len(),
            forall|j: int| 0 <= j < lo ==> is_white(#[trigger] s@[j]),
        decreases s.len() - lo,
    {
        lo += 1;
    }
    proof {
        if lo < s.len() {
            assert(is_lead(s@, lo as int));
            let w = choose|k: int| is_lead(s@, k);
            if w < lo {
                assert(is_white(s@[w]));
            }
            if w > lo {
                assert(is_white(s@[lo as int]));
            }
        } else {
            if exists|k: int| is_lead(s@, k) {
                let w = choose|k: int| is_lead(s@, k);
                assert(is_white(s@[w]));
            }
        }
    }
    lo
}

/// The first whitespace-separated word of `s`.
pub fn word_of(s: &Vec<char>) -> (r: Vec<char>)
    ensures
        r@ == first_word(s@),
{
    let lo = lead_of(s);
    let mut hi: usize = lo;
    while hi < s.len() && !white(s[hi])
        invariant
            lo <= hi <= s.len(),
            forall|j: int| lo <= j < hi ==> !is_white(#[trigger] s@[j]),
        decreases s.len() - hi,
    {
        hi += 1;
    }
    proof {
        let t = s@.skip(lo as int);
        assert forall|j: int| 0 <= j < hi - lo implies !is_white(#[trigger] t[j]) by {
            assert(t[j] == s@[lo + j]);
        }
        if hi < s.len() {
            assert(t[hi - lo] == s@[hi as int]);
        }
        lemma_word_len(t, hi - lo);
        assert(s@.subrange(lo as int, hi as int) =~= t.take(hi - lo));
    }
    slice(s, lo, hi)
}

/// The whitespace-separated words of `s`, in order (std
/// `str::split_whitespace`).
pub open spec fn words(s: Seq<char>) -> Seq<Seq<char>>
    decreases s.len(),
{
    let t = trimmed_start(s);
    if t.len() == 0 {
        Seq::empty()
    } else {
        proof {
            lemma_lead_bounds(s);
            lemma_word_len_bounds(t);
        }
        seq![first_word(t)] + words(t.skip(word_len(t) as int))
    }
}

pub proof fn lemma_lead_bounds(s: Seq<char>)
    ensures
        0 <= lead(s) <= s.len(),
        lead(s) < s.len() ==> !is_white(s[lead(s)]),
        forall|j: int| 0 <= j < lead(s) ==> is_white(#[trigger] s[j]),
{
    if exists|k: int| is_lead(s, k) {
        let k = choose|k: int| is_lead(s, k);
        assert(is_lead(s, k));
    } else {
        assert forall|j: int| 0 <= j < s.len() implies is_white(#[trigger] s[j]) by {
            if !is_white(s[j]) {
                let mut m = j;
                assert(exists|k: int| 0 <= k <= j && !is_white(s[k]));
                lemma_first_non_white(s, j);
            }
        }
    }
}

proof fn lemma_first_non_white(s: Seq<char>, j: int)
    requires
        0 <= j < s.len(),
        !is_white(s[j]),
    ensures
        exists|k: int| is_lead(s, k),
    decreases j,
{
    if forall|i: int| 0 <= i < j ==> is_white(#[trigger] s[i]) {
        assert(is_lead(s, j));
    } else {
        let i = choose|i: int| 0 <= i < j && !is_white(#[trigger] s[i]);
        lemma_first_non_white(s, i);
    }
}

pub proof fn lemma_word_len_bounds(s: Seq<char>)
    ensures
        word_len(s) <= s.len(),
        s.len() > 0 && !is_white(s[0]) ==> word_len(s) >= 1,
    decreases s.len(),
{
    if s.len() > 0 && !is_white(s[0]) {
        lemma_word_len_bounds(s.drop_first());
    }
}

/// The first word of `rest` and what follows it, when `rest` holds one.
fn next_word(rest: &Vec<char>) -> (r: Option<(Vec<char>, Vec<char>)>)
    ensures
        match r {
            Some((w, next)) => words(rest@) == seq![w@] + words(next@) && next@.len() < rest@.len(),
            None => words(rest@) == Seq::<Seq<char>>::empty(),
        },
{
    let lo = lead_of(rest);
    proof {
        lemma_lead_bounds(rest@);
    }
    if lo == rest.len() {
        assert(trimmed_start(rest@) =~= Seq::<char>::empty());
        return None;
    }
    let t = slice(rest, lo, rest.len());
    assert(t@ =~= trimmed_start(rest@));
    let mut hi: usize = 0;
    while hi < t.len() && !white(t[hi])
        invariant
            hi <= t.len(),
            forall|j: int| 0 <= j < hi ==> !is_white(#[trigger] t@[j]),
        decreases t.len() - hi,
    {
        hi += 1;
    }
    proof {
        lemma_word_len(t@, hi as int);
    }
    let w = slice(&t, 0, hi);
    let next = slice(&t, hi, t.len());
    proof {
        assert(w@ =~= t@.take(hi as int));
        assert(next@ =~= t@.skip(hi as int));
        assert(!is_white(t@[0]));
        assert(is_lead(t@, 0));
        let z = choose|k: int| is_lead(t@, k);
        if z > 0 {
            assert(is_white(t@[0]));
        }
        assert(lead(t@) == 0);
        assert(trimmed_start(t@) =~= t@);
        assert(first_word(t@) == w@);
        assert(words(rest@) == seq![first_word(t@)] + words(t@.skip(word_len(t@) as int)));
    }
    Some((w, next))
}

/// The words of `s`.
pub fn split_words(s: &Vec<char>) -> (r: Vec<Vec<char>>)
    ensures
        char_views(r@) == words(s@),
{
    let mut r: Vec<Vec<char>> = Vec::new();
    let mut rest = slice(s, 0, s.len());
    assert(rest@ =~= s@);
    loop
        invariant
            char_views(r@) + words(rest@) == words(s@),
        ensures
            char_views(r@) == words(s@),
        decreases rest.len(),
    {
        match next_word(&rest) {
            Some((w, next)) => {
                let ghost before = char_views(r@);
                r.push(w);
                assert(char_views(r@) =~= before.push(w@));
                assert(char_views(r@) + words(next@) =~= before + words(rest@));
                rest = next;
            },
            None => {
                assert(char_views(r@) =~= char_views(r@) + words(rest@));
                break;
            },
        }
    }
    r
}

/// The decimal value of a run of digits.
pub open spec fn digits_value(s: Seq<char>) -> nat
    decreases s.len(),
{
    if s.len() == 0 {
        0
    } else {
        digits_value(s.drop_last()) * 10 + (s.last() as nat - '0' as nat) as nat
    }
}

pub open spec fn all_digits(s: Seq<char>) -> bool {
    forall|i: int| 0 <= i < s.len() ==> '0' <= #[trigger] s[i] <= '9'
}

/// A count as std's `u64::from_str` reads one: an optional `+`, then one
/// or more digits, and a value that fits.
pub open spec fn parsed_count(s: Seq<char>) -> Option<u64> {
    let d = if s.len() > 0 && s[0] == '+' {
        s.skip(1)
    } else {
        s
    };
    if d.len() == 0 || !all_digits(d) || digits_value(d) > u64::MAX {
        None
    } else {
        Some(digits_value(d) as u64)
    }
}

pub fn parse_count(s: &str) -> (r: Option<u64>)
    ensures
        r == parsed_count(s@),
{
    let v = chars_of(s);
    let start: usize = if v.len() > 0 && v[0] == '+' {
        1
    } else {
        0
    };
    let d = slice(&v, start, v.len());
    assert(d@ =~= if s@.len() > 0 && s@[0] == '+' { s@.skip(1) } else { s@ });
    if d.len() == 0 {
        return None;
    }
    let mut value: u64 = 0;
    let mut i: usize = 0;
    while i < d.len()
        invariant
            i <= d.len(),
            d@ == (if s@.len() > 0 && s@[0] == '+' { s@.skip(1) } else { s@ }),
            all_digits(d@.take(i as int)),
            value == digits_value(d@.take(i as int)),
        decreases d.len() - i,
    {
        let c = d[i];
        assert(d@.take(i + 1).drop_last() =~= d@.take(i as int));
        if c < '0' || c > '9' {
            assert(!all_digits(d@)) by {
                assert(!('0' <= d@[i as int] <= '9'));
            }
            return None;
        }
        let digit: u64 = (c as u32 - '0' as u32) as u64;
        if value > (u64::MAX - digit) / 10 {
            proof {
                assert(digits_value(d@.take(i + 1)) == value * 10 + digit);
                assert(value * 10 + digit > u64::MAX) by (nonlinear_arith)
                    requires
                        value > (u64::MAX - digit) / 10,
                        digit <= 9,
                ;
                if all_digits(d@) {
                    lemma_digits_grow(d@, i as int + 1);
                }
            }
            return None;
        }
        proof {
            assert(value * 10 + digit <= u64::MAX) by (nonlinear_arith)
                requires
                    value <= (u64::MAX - digit) / 10,
                    digit <= 9,
            ;
        }
        value = value * 10 + digit;
        assert(all_digits(d@.take(i + 1)));
        i += 1;
    }
    assert(d@.take(i as int) =~= d@);
    Some(value)
}

/// A longer run of digits is worth at least as much as its prefix.
proof fn lemma_digits_grow(s: Seq<char>, n: int)
    requires
        0 <= n <= s.len(),
        all_digits(s),
    ensures
        digits_value(s.take(n)) <= digits_value(s),
    decreases s.len() - n,
{
    if n < s.len() {
        lemma_digits_grow(s, n + 1);
        assert(s.take(n + 1).drop_last() =~= s.take(n));
        assert('0' <= s[n] <= '9');
    }
    if n == s.len() {
        assert(s.take(n) =~= s);
    }
}

} // verus!
