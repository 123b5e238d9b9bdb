//! Character-level text handling over `Seq<char>`: trimming, line and word
//! splitting, and the conversions between `&str`, `String` and `Vec<char>`.

use vstd::prelude::*;

verus! {

/// Unicode `White_Space`, the set `char::is_whitespace` tests.
pub open spec fn is_space(c: char) -> bool {
    ||| c == '\t'
    ||| c == '\n'
    ||| c == '\x0B'
    ||| c == '\x0C'
    ||| c == '\r'
    ||| c == ' '
    ||| c == '\u{85}'
    ||| c == '\u{A0}'
    ||| c == '\u{1680}'
    ||| ('\u{2000}' <= c && c <= '\u{200A}')
    ||| c == '\u{2028}'
    ||| c == '\u{2029}'
    ||| c == '\u{202F}'
    ||| c == '\u{205F}'
    ||| c == '\u{3000}'
}

pub fn space(c: char) -> (b: bool)
    ensures
        b == is_space(c),
{
    c == '\t' || c == '\n' || c == '\x0B' || c == '\x0C' || c == '\r' || c == ' ' || c == '\u{85}'
        || c == '\u{A0}' || c == '\u{1680}' || ('\u{2000}' <= c && c <= '\u{200A}') || c
        == '\u{2028}' || c == '\u{2029}' || c == '\u{202F}' || c == '\u{205F}' || c == '\u{3000}'
}

pub open spec fn is_digit(c: char) -> bool {
    '0' <= c && c <= '9'
}

pub open spec fn is_hex_digit(c: char) -> bool {
    ||| ('0' <= c && c <= '9')
    ||| ('a' <= c && c <= 'f')
    ||| ('A' <= c && c <= 'F')
}

pub fn digit(c: char) -> (b: bool)
    ensures
        b == is_digit(c),
{
    '0' <= c && c <= '9'
}

pub fn hex_digit(c: char) -> (b: bool)
    ensures
        b == is_hex_digit(c),
{
    ('0' <= c && c <= '9') || ('a' <= c && c <= 'f') || ('A' <= c && c <= 'F')
}

/// `s` without its leading white space.
pub open spec fn trim_start(s: Seq<char>) -> Seq<char>
    decreases s.len(),
{
    if s.len() > 0 && is_space(s[0]) {
        trim_start(s.drop_first())
    } else {
        s
    }
}

/// `s` without its trailing white space.
pub open spec fn trim_end(s: Seq<char>) -> Seq<char>
    decreases s.len(),
{
    if s.len() > 0 && is_space(s.last()) {
        trim_end(s.drop_last())
    } else {
        s
    }
}

/// `s` without white space at either end, as `str::trim` gives it.
pub open spec fn trim(s: Seq<char>) -> Seq<char> {
    trim_end(trim_start(s))
}

/// A text with no white space at either end trims to itself.
pub proof fn lemma_trim_fixed(s: Seq<char>)
    requires
        s.len() > 0 ==> !is_space(s[0]) && !is_space(s.last()),
    ensures
        trim(s) == s,
{
    assert(trim_start(s) == s);
    assert(trim_end(s) == s);
}

proof fn lemma_trim_start_shape(s: Seq<char>)
    ensures
        trim_start(s).len() > 0 ==> !is_space(trim_start(s)[0]),
        exists|k: int| 0 <= k <= s.len() && trim_start(s) == s.subrange(k, s.len() as int),
    decreases s.len(),
{
    if s.len() > 0 && is_space(s[0]) {
        lemma_trim_start_shape(s.drop_first());
        let k = choose|k: int| 0 <= k <= s.drop_first().len() && trim_start(s.drop_first()) == s.drop_first().subrange(k, s.drop_first().len() as int);
        assert(s.drop_first().subrange(k, s.drop_first().len() as int) =~= s.subrange(k + 1, s.len() as int));
    } else {
        assert(s.subrange(0, s.len() as int) =~= s);
    }
}

proof fn lemma_trim_end_shape(s: Seq<char>)
    ensures
        trim_end(s).len() > 0 ==> !is_space(trim_end(s).last()),
        exists|k: int| 0 <= k <= s.len() && trim_end(s) == s.subrange(0, k),
    decreases s.len(),
{
    if s.len() > 0 && is_space(s.last()) {
        lemma_trim_end_shape(s.drop_last());
        let k = choose|k: int| 0 <= k <= s.drop_last().len() && trim_end(s.drop_last()) == s.drop_last().subrange(0, k);
        assert(s.drop_last().subrange(0, k) =~= s.subrange(0, k));
    } else {
        assert(s.subrange(0, s.len() as int) =~= s);
    }
}

/// Trimming is idempotent.
pub proof fn lemma_trim_idempotent(s: Seq<char>)
    ensures
        trim(trim(s)) == trim(s),
{
    let a = trim_start(s);
    lemma_trim_start_shape(s);
    lemma_trim_end_shape(a);
    let t = trim_end(a);
    if t.len() > 0 {
        let k = choose|k: int| 0 <= k <= a.len() && t == a.subrange(0, k);
        assert(t[0] == a[0]);
    }
    lemma_trim_fixed(t);
}

/// A trimmed text is a stretch of the original that neither starts nor ends
/// with white space.
pub proof fn lemma_trim_shape(s: Seq<char>)
    ensures
        trim(s).len() > 0 ==> !is_space(trim(s)[0]) && !is_space(trim(s).last()),
        exists|i: int, j: int| 0 <= i <= j <= s.len() && trim(s) == s.subrange(i, j),
{
    let a = trim_start(s);
    lemma_trim_start_shape(s);
    lemma_trim_end_shape(a);
    let t = trim_end(a);
    let i = choose|i: int| 0 <= i <= s.len() && a == s.subrange(i, s.len() as int);
    let k = choose|k: int| 0 <= k <= a.len() && t == a.subrange(0, k);
    assert(t =~= s.subrange(i, i + k));
    if t.len() > 0 {
        assert(t[0] == a[0]);
    }
}

/// Trailing white space does not change what a text trims to.
pub proof fn lemma_trim_drop_space(s: Seq<char>)
    requires
        s.len() > 0,
        is_space(s.last()),
    ensures
        trim(s) == trim(s.drop_last()),
    decreases s.len(),
{
    if s.len() == 1 {
        assert(s.drop_first().len() == 0);
        assert(trim_start(s) == trim_start(s.drop_first()));
        assert(s.drop_last().len() == 0);
    } else if is_space(s[0]) {
        let d = s.drop_first();
        assert(d.last() == s.last());
        lemma_trim_drop_space(d);
        assert(trim_start(s) == trim_start(d));
        let l = s.drop_last();
        assert(l[0] == s[0]);
        assert(trim_start(l) == trim_start(l.drop_first()));
        assert(l.drop_first() =~= d.drop_last());
    } else {
        let l = s.drop_last();
        assert(l[0] == s[0]);
        assert(trim_start(s) == s);
        assert(trim_start(l) == l);
        assert(trim_end(s) == trim_end(l));
    }
}

/// A carriage return ending a line does not change what it trims to.
pub proof fn lemma_trim_strip_cr(s: Seq<char>)
    ensures
        trim(strip_cr(s)) == trim(s),
{
    if s.len() > 0 && s.last() == '\r' {
        lemma_trim_drop_space(s);
    }
}

/// The characters of a string slice, in order.
pub fn chars_of(s: &str) -> (v: Vec<char>)
    ensures
        v@ == s@,
{
    let mut v: Vec<char> = Vec::new();
    for c in it: s.chars()
        invariant
            it.seq() == s@,
            v@ == it.seq().take(it.index() as int),
    {
        proof {
            assert(it.seq().take(it.index() + 1) =~= it.seq().take(it.index() as int).push(c));
        }
        v.push(c);
    }
    v
}

/// `String::push`, trusted to append `c` to the text and change nothing
/// else.
#[verifier::external_body]
pub(crate) fn push_char(s: &mut String, c: char)
    ensures
        final(s)@ == old(s)@.push(c),
{
    s.push(c);
}

/// A string holding the characters `v[lo..hi]`.
pub fn string_of(v: &Vec<char>, lo: usize, hi: usize) -> (s: String)
    requires
        lo <= hi <= v.len(),
    ensures
        s@ == v@.subrange(lo as int, hi as int),
{
    let mut s = String::new();
    let mut i: usize = lo;
    while i < hi
        invariant
            lo <= i <= hi <= v.len(),
            s@ == v@.subrange(lo as int, i as int),
        decreases hi - i,
    {
        push_char(&mut s, v[i]);
        proof {
            assert(v@.subrange(lo as int, i + 1) =~= v@.subrange(lo as int, i as int).push(v@[i as int]));
        }
        i += 1;
    }
    s
}

proof fn lemma_trim_start_step(s: Seq<char>, lo: int)
    requires
        0 <= lo < s.len(),
        is_space(s[lo]),
    ensures
        trim_start(s.subrange(lo, s.len() as int)) == trim_start(s.subrange(lo + 1, s.len() as int)),
{
    assert(s.subrange(lo, s.len() as int).drop_first() =~= s.subrange(lo + 1, s.len() as int));
}

proof fn lemma_trim_end_step(s: Seq<char>, lo: int, hi: int)
    requires
        0 <= lo < hi <= s.len(),
        is_space(s[hi - 1]),
    ensures
        trim_end(s.subrange(lo, hi)) == trim_end(s.subrange(lo, hi - 1)),
{
    assert(s.subrange(lo, hi).drop_last() =~= s.subrange(lo, hi - 1));
}

/// The bounds of `trim(v)` inside `v`.
pub fn trim_bounds(v: &Vec<char>, lo: usize, hi: usize) -> (r: (usize, usize))
    requires
        lo <= hi <= v.len(),
    ensures
        lo <= r.0 <= r.1 <= hi,
        v@.subrange(r.0 as int, r.1 as int) == trim(v@.subrange(lo as int, hi as int)),
{
    let ghost w = v@.subrange(lo as int, hi as int);
    let mut a: usize = lo;
    while a < hi && space(v[a])
        invariant
            lo <= a <= hi <= v.len(),
            w == v@.subrange(lo as int, hi as int),
            trim_start(w) == trim_start(v@.subrange(a as int, hi as int)),
        decreases hi - a,
    {
        proof {
            lemma_trim_start_step(v@.subrange(0, hi as int), a as int);
            assert(v@.subrange(0, hi as int).subrange(a as int, hi as int) =~= v@.subrange(a as int, hi as int));
            assert(v@.subrange(0, hi as int).subrange(a + 1, hi as int) =~= v@.subrange(a + 1, hi as int));
        }
        a += 1;
    }
    assert(trim_start(v@.subrange(a as int, hi as int)) == v@.subrange(a as int, hi as int));
    let mut b: usize = hi;
    while b > a && space(v[b - 1])
        invariant
            lo <= a <= b <= hi <= v.len(),
            trim(w) == trim_end(v@.subrange(a as int, b as int)),
        decreases b - a,
    {
        proof {
            lemma_trim_end_step(v@, a as int, b as int);
        }
        b -= 1;
    }
    (a, b)
}

/// The text between `v[lo..hi]`, trimmed, as a new string.
pub fn trimmed(v: &Vec<char>, lo: usize, hi: usize) -> (s: String)
    requires
        lo <= hi <= v.len(),
    ensures
        s@ == trim(v@.subrange(lo as int, hi as int)),
{
    let (a, b): (usize, usize) = trim_bounds(v, lo, hi);
    string_of(v, a, b)
}

/// `str::trim` on a string slice, as a new string.
pub fn trim_str(s: &str) -> (r: String)
    ensures
        r@ == trim(s@),
{
    let v = chars_of(s);
    assert(v@.subrange(0, v@.len() as int) =~= v@);
    trimmed(&v, 0, v.len())
}

} // verus!

verus! {

/// The views of a sequence of strings.
pub open spec fn views(v: Seq<String>) -> Seq<Seq<char>> {
    v.map_values(|x: String| x@)
}

/// `s` without one trailing carriage return, if it has one.
pub open spec fn strip_cr(s: Seq<char>) -> Seq<char> {
    if s.len() > 0 && s.last() == '\r' {
        s.drop_last()
    } else {
        s
    }
}

/// Splits `s` into lines as `str::lines` does, `cur` being the part of the
/// current line already read: lines end at `\n`, one `\r` before the `\n` is
/// dropped, and an empty last piece (after a final `\n`) is not a line.
pub open spec fn lines_from(s: Seq<char>, cur: Seq<char>) -> Seq<Seq<char>>
    decreases s.len(),
{
    if s.len() == 0 {
        if cur.len() == 0 {
            Seq::empty()
        } else {
            seq![cur]
        }
    } else if s[0] == '\n' {
        seq![strip_cr(cur)] + lines_from(s.drop_first(), Seq::empty())
    } else {
        lines_from(s.drop_first(), cur.push(s[0]))
    }
}

/// The lines of `s`, as `str::lines` yields them.
pub open spec fn lines(s: Seq<char>) -> Seq<Seq<char>> {
    lines_from(s, Seq::empty())
}

/// Splits `s` at runs of white space, as `str::split_whitespace` does, `cur`
/// being the part of the current word already read.
pub open spec fn words_from(s: Seq<char>, cur: Seq<char>) -> Seq<Seq<char>>
    decreases s.len(),
{
    if s.len() == 0 {
        if cur.len() == 0 {
            Seq::empty()
        } else {
            seq![cur]
        }
    } else if is_space(s[0]) {
        if cur.len() == 0 {
            words_from(s.drop_first(), Seq::empty())
        } else {
            seq![cur] + words_from(s.drop_first(), Seq::empty())
        }
    } else {
        words_from(s.drop_first(), cur.push(s[0]))
    }
}

/// The words of `s`, as `str::split_whitespace` yields them.
pub open spec fn words(s: Seq<char>) -> Seq<Seq<char>> {
    words_from(s, Seq::empty())
}

/// `p` is a prefix of `s`.
pub open spec fn has_prefix(s: Seq<char>, p: Seq<char>) -> bool {
    p.len() <= s.len() && s.subrange(0, p.len() as int) == p
}

/// `p` is a suffix of `s`.
pub open spec fn has_suffix(s: Seq<char>, p: Seq<char>) -> bool {
    p.len() <= s.len() && s.subrange(s.len() - p.len(), s.len() as int) == p
}

/// `p` occurs in `s` at position `i`.
pub open spec fn occurs_at(s: Seq<char>, p: Seq<char>, i: int) -> bool {
    0 <= i && i + p.len() <= s.len() && s.subrange(i, i + p.len()) == p
}

/// `p` occurs somewhere in `s`, as `str::contains` tests.
pub open spec fn contains(s: Seq<char>, p: Seq<char>) -> bool {
    exists|i: int| occurs_at(s, p, i)
}

/// Lexicographic order by code point, which is the order of `str` and
/// `String` (their UTF-8 bytes compare in the same order).
pub open spec fn lex_lt(a: Seq<char>, b: Seq<char>) -> bool
    decreases a.len(),
{
    if a.len() == 0 {
        b.len() > 0
    } else if b.len() == 0 {
        false
    } else if a[0] < b[0] {
        true
    } else if a[0] == b[0] {
        lex_lt(a.drop_first(), b.drop_first())
    } else {
        false
    }
}

/// Lexicographic order is irreflexive.
pub proof fn lemma_lex_irreflexive(a: Seq<char>)
    ensures
        !lex_lt(a, a),
    decreases a.len(),
{
    if a.len() > 0 {
        lemma_lex_irreflexive(a.drop_first());
    }
}

/// Lexicographic order is transitive.
pub proof fn lemma_lex_transitive(a: Seq<char>, b: Seq<char>, c: Seq<char>)
    requires
        lex_lt(a, b),
        lex_lt(b, c),
    ensures
        lex_lt(a, c),
    decreases a.len(),
{
    if a.len() > 0 && b.len() > 0 && c.len() > 0 && a[0] == b[0] && b[0] == c[0] {
        lemma_lex_transitive(a.drop_first(), b.drop_first(), c.drop_first());
    }
}

/// Lexicographic order is total.
pub proof fn lemma_lex_total(a: Seq<char>, b: Seq<char>)
    ensures
        lex_lt(a, b) || lex_lt(b, a) || a == b,
    decreases a.len(),
{
    if a.len() > 0 && b.len() > 0 && a[0] == b[0] {
        lemma_lex_total(a.drop_first(), b.drop_first());
        if a.drop_first() == b.drop_first() {
            assert(a =~= seq![a[0]] + a.drop_first());
            assert(b =~= seq![b[0]] + b.drop_first());
        }
    } else if a.len() == 0 && b.len() == 0 {
        assert(a =~= b);
    }
}

/// Whether `a[alo..ahi]` comes before `b[blo..bhi]` in lexicographic order.
pub fn lex_less(a: &Vec<char>, alo: usize, ahi: usize, b: &Vec<char>, blo: usize, bhi: usize) -> (r: bool)
    requires
        alo <= ahi <= a.len(),
        blo <= bhi <= b.len(),
    ensures
        r == lex_lt(a@.subrange(alo as int, ahi as int), b@.subrange(blo as int, bhi as int)),
{
    let mut i: usize = alo;
    let mut j: usize = blo;
    while i < ahi && j < bhi && a[i] == b[j]
        invariant
            alo <= i <= ahi <= a.len(),
            blo <= j <= bhi <= b.len(),
            i - alo == j - blo,
            lex_lt(a@.subrange(alo as int, ahi as int), b@.subrange(blo as int, bhi as int))
                == lex_lt(a@.subrange(i as int, ahi as int), b@.subrange(j as int, bhi as int)),
        decreases ahi - i,
    {
        assert(a@.subrange(i as int, ahi as int).drop_first() =~= a@.subrange(i + 1, ahi as int));
        assert(b@.subrange(j as int, bhi as int).drop_first() =~= b@.subrange(j + 1, bhi as int));
        i += 1;
        j += 1;
    }
    if i == ahi {
        j < bhi
    } else if j == bhi {
        false
    } else {
        a[i] < b[j]
    }
}

/// Whether `v[lo..]` starts with `p`.
pub fn starts_with_at(v: &Vec<char>, lo: usize, hi: usize, p: &str) -> (r: bool)
    requires
        lo <= hi <= v.len(),
    ensures
        r == has_prefix(v@.subrange(lo as int, hi as int), p@),
{
    let pv = chars_of(p);
    if pv.len() > hi - lo {
        return false;
    }
    let mut k: usize = 0;
    while k < pv.len()
        invariant
            lo <= hi <= v.len(),
            pv@ == p@,
            pv.len() <= hi - lo,
            k <= pv.len(),
            forall|m: int| 0 <= m < k ==> v@[lo + m] == pv@[m],
        decreases pv.len() - k,
    {
        if v[lo + k] != pv[k] {
            assert(v@.subrange(lo as int, hi as int).subrange(0, pv.len() as int)[k as int] != pv@[k as int]);
            return false;
        }
        k += 1;
    }
    assert(v@.subrange(lo as int, hi as int).subrange(0, pv.len() as int) =~= pv@);
    true
}

/// Whether `p` occurs in `v[lo..hi]` at offset `i` (relative to `lo`).
fn matches_at(v: &Vec<char>, lo: usize, hi: usize, pv: &Vec<char>, i: usize) -> (r: bool)
    requires
        lo <= hi <= v.len(),
        i <= hi - lo,
    ensures
        r == occurs_at(v@.subrange(lo as int, hi as int), pv@, i as int),
{
    if pv.len() > hi - lo - i {
        return false;
    }
    let mut k: usize = 0;
    while k < pv.len()
        invariant
            lo <= hi <= v.len(),
            i <= hi - lo,
            pv.len() <= hi - lo - i,
            k <= pv.len(),
            forall|m: int| 0 <= m < k ==> v@[lo + i + m] == pv@[m],
        decreases pv.len() - k,
    {
        if v[lo + i + k] != pv[k] {
            assert(v@.subrange(lo as int, hi as int).subrange(i as int, i + pv.len())[k as int] != pv@[k as int]);
            return false;
        }
        k += 1;
    }
    assert(v@.subrange(lo as int, hi as int).subrange(i as int, i + pv.len()) =~= pv@);
    true
}

/// Whether `p` occurs in `v[lo..hi]`.
pub fn contains_at(v: &Vec<char>, lo: usize, hi: usize, p: &str) -> (r: bool)
    requires
        lo <= hi <= v.len(),
    ensures
        r == contains(v@.subrange(lo as int, hi as int), p@),
{
    let pv = chars_of(p);
    let ghost s = v@.subrange(lo as int, hi as int);
    if pv.len() > hi - lo {
        assert forall|m: int| !occurs_at(s, p@, m) by {}
        return false;
    }
    let limit = hi - lo - pv.len();
    let mut i: usize = 0;
    loop
        invariant
            lo <= hi <= v.len(),
            s == v@.subrange(lo as int, hi as int),
            pv@ == p@,
            limit == hi - lo - pv.len(),
            i <= limit,
            forall|m: int| 0 <= m < i ==> !occurs_at(s, p@, m),
        ensures
            forall|m: int| 0 <= m <= limit ==> !occurs_at(s, p@, m),
        decreases limit - i,
    {
        if matches_at(v, lo, hi, &pv, i) {
            return true;
        }
        if i == limit {
            break;
        }
        i += 1;
    }
    assert forall|m: int| !occurs_at(s, p@, m) by {
        if 0 <= m && m + p@.len() <= s.len() {
            assert(m <= limit);
        }
    }
    false
}

/// Whether `p` occurs in `s` (`str::contains`).
pub fn str_contains(s: &str, p: &str) -> (r: bool)
    ensures
        r == contains(s@, p@),
{
    let v = chars_of(s);
    assert(v@.subrange(0, v@.len() as int) =~= v@);
    contains_at(&v, 0, v.len(), p)
}

/// Whether `s` starts with `p` (`str::starts_with`).
pub fn str_starts_with(s: &str, p: &str) -> (r: bool)
    ensures
        r == has_prefix(s@, p@),
{
    let v = chars_of(s);
    assert(v@.subrange(0, v@.len() as int) =~= v@);
    starts_with_at(&v, 0, v.len(), p)
}

/// A string holding the characters of a slice.
pub fn lit(s: &str) -> (r: String)
    ensures
        r@ == s@,
{
    s.to_owned()
}

/// The lines of `s` (`str::lines`), each as a new string.
pub fn lines_of(s: &str) -> (r: Vec<String>)
    ensures
        views(r@) == lines(s@),
{
    let v = chars_of(s);
    let mut out: Vec<String> = Vec::new();
    let mut start: usize = 0;
    let mut i: usize = 0;
    assert(v@.subrange(0, v.len() as int) =~= v@);
    assert(v@.subrange(0, 0) =~= Seq::<char>::empty());
    assert(views(out@) =~= Seq::<Seq<char>>::empty());
    while i < v.len()
        invariant
            v@ == s@,
            start <= i <= v.len(),
            lines(s@) == views(out@) + lines_from(v@.subrange(i as int, v.len() as int), v@.subrange(start as int, i as int)),
        decreases v.len() - i,
    {
        let ghost rest = v@.subrange(i as int, v.len() as int);
        assert(rest.drop_first() =~= v@.subrange(i + 1, v.len() as int));
        if v[i] == '\n' {
            let mut end: usize = i;
            if end > start && v[end - 1] == '\r' {
                end -= 1;
            }
            let line = string_of(&v, start, end);
            proof {
                assert(line@ =~= strip_cr(v@.subrange(start as int, i as int)));
                assert(v@.subrange(i + 1, i + 1) =~= Seq::<char>::empty());
            }
            let ghost before = out@;
            out.push(line);
            proof {
                assert(views(out@) =~= views(before).push(line@));
            }
            start = i + 1;
        } else {
            assert(v@.subrange(start as int, i + 1) =~= v@.subrange(start as int, i as int).push(v@[i as int]));
        }
        i += 1;
    }
    proof {
        assert(v@.subrange(i as int, v.len() as int) =~= Seq::<char>::empty());
    }
    if start < v.len() {
        let line = string_of(&v, start, v.len());
        let ghost before = out@;
        out.push(line);
        proof {
            assert(views(out@) =~= views(before).push(line@));
        }
    }
    proof {
        assert(views(out@) =~= lines(s@));
    }
    out
}

/// The views of a sequence of character vectors.
pub open spec fn cviews(v: Seq<Vec<char>>) -> Seq<Seq<char>> {
    v.map_values(|x: Vec<char>| x@)
}

/// The parts joined with `sep` between each two, as `[T]::join` gives it.
pub open spec fn join(parts: Seq<Seq<char>>, sep: Seq<char>) -> Seq<char>
    decreases parts.len(),
{
    if parts.len() == 0 {
        Seq::empty()
    } else if parts.len() == 1 {
        parts[0]
    } else {
        join(parts.drop_last(), sep) + sep + parts.last()
    }
}

/// `v[lo..hi]` as a vector of its own.
pub fn slice_vec(v: &Vec<char>, lo: usize, hi: usize) -> (r: Vec<char>)
    requires
        lo <= hi <= v.len(),
    ensures
        r@ == v@.subrange(lo as int, hi as int),
{
    let mut r: Vec<char> = Vec::new();
    let mut i: usize = lo;
    while i < hi
        invariant
            lo <= i <= hi <= v.len(),
            r@ == v@.subrange(lo as int, i as int),
        decreases hi - i,
    {
        r.push(v[i]);
        assert(v@.subrange(lo as int, i + 1) =~= v@.subrange(lo as int, i as int).push(v@[i as int]));
        i += 1;
    }
    r
}

/// Appends the characters of `v` to `s`.
pub fn push_all(s: &mut String, v: &Vec<char>)
    ensures
        final(s)@ == old(s)@ + v@,
{
    let mut i: usize = 0;
    while i < v.len()
        invariant
            i <= v.len(),
            s@ == old(s)@ + v@.subrange(0, i as int),
        decreases v.len() - i,
    {
        push_char(s, v[i]);
        assert(v@.subrange(0, i + 1) =~= v@.subrange(0, i as int).push(v@[i as int]));
        i += 1;
    }
    assert(v@.subrange(0, v.len() as int) =~= v@);
}

/// The parts joined with the character `sep` between each two.
pub fn join_chars(parts: &Vec<Vec<char>>, sep: char) -> (r: String)
    ensures
        r@ == join(cviews(parts@), seq![sep]),
{
    let mut r = String::new();
    let mut i: usize = 0;
    while i < parts.len()
        invariant
            i <= parts.len(),
            r@ == join(cviews(parts@).take(i as int), seq![sep]),
        decreases parts.len() - i,
    {
        let ghost pre = cviews(parts@).take(i as int);
        let ghost cur = cviews(parts@).take(i + 1);
        assert(cur.drop_last() =~= pre);
        if i > 0 {
            push_char(&mut r, sep);
        }
        push_all(&mut r, &parts[i]);
        proof {
            if i == 0 {
                assert(pre =~= Seq::<Seq<char>>::empty());
            }
        }
        i += 1;
    }
    assert(cviews(parts@).take(parts.len() as int) =~= cviews(parts@));
    r
}

/// The strings joined with the character `sep` between each two.
pub fn join_strings(parts: &Vec<String>, sep: char) -> (r: String)
    ensures
        r@ == join(views(parts@), seq![sep]),
{
    let mut r = String::new();
    let mut i: usize = 0;
    while i < parts.len()
        invariant
            i <= parts.len(),
            r@ == join(views(parts@).take(i as int), seq![sep]),
        decreases parts.len() - i,
    {
        let ghost pre = views(parts@).take(i as int);
        let ghost cur = views(parts@).take(i + 1);
        assert(cur.drop_last() =~= pre);
        if i > 0 {
            push_char(&mut r, sep);
        }
        r.append(parts[i].as_str());
        proof {
            if i == 0 {
                assert(pre =~= Seq::<Seq<char>>::empty());
            }
        }
        i += 1;
    }
    assert(views(parts@).take(parts.len() as int) =~= views(parts@));
    r
}

/// `i` is where `p` first occurs in `s`.
pub open spec fn first_occurrence(s: Seq<char>, p: Seq<char>, i: int) -> bool {
    occurs_at(s, p, i) && forall|j: int| 0 <= j < i ==> !occurs_at(s, p, j)
}

/// `s` with the first occurrence of `p` replaced by `w`, as
/// `str::replacen(p, w, 1)` gives it; `s` itself when `p` does not occur.
pub open spec fn replace_first(s: Seq<char>, p: Seq<char>, w: Seq<char>) -> Seq<char> {
    if contains(s, p) {
        let i = choose|i: int| first_occurrence(s, p, i);
        s.subrange(0, i) + w + s.subrange(i + p.len(), s.len() as int)
    } else {
        s
    }
}

proof fn lemma_first_occurrence_unique(s: Seq<char>, p: Seq<char>, i: int, k: int)
    requires
        first_occurrence(s, p, i),
        first_occurrence(s, p, k),
    ensures
        i == k,
{
}

/// Replaces the first occurrence of `p` in `s` by `w` (`str::replacen` with
/// a count of one).
pub fn replace_first_str(s: &str, p: &str, w: &str) -> (r: String)
    requires
        p@.len() > 0,
    ensures
        r@ == replace_first(s@, p@, w@),
{
    let v = chars_of(s);
    let pv = chars_of(p);
    let n: usize = v.len();
    assert(v@.subrange(0, n as int) =~= v@);
    if pv.len() > n {
        assert(!contains(s@, p@));
        return string_of(&v, 0, n);
    }
    let limit: usize = n - pv.len();
    let mut i: usize = 0;
    loop
        invariant
            v@ == s@,
            pv@ == p@,
            n == v.len(),
            limit == n - pv.len(),
            i <= limit,
            forall|j: int| 0 <= j < i ==> !occurs_at(s@, p@, j),
        ensures
            forall|j: int| 0 <= j <= limit ==> !occurs_at(s@, p@, j),
        decreases limit - i,
    {
        if matches_at(&v, 0, n, &pv, i) {
            assert(v@.subrange(0, n as int) =~= v@);
            proof {
                assert(first_occurrence(s@, p@, i as int));
                let k = choose|k: int| first_occurrence(s@, p@, k);
                lemma_first_occurrence_unique(s@, p@, i as int, k);
            }
            let mut r = string_of(&v, 0, i);
            r.append(w);
            let rest = string_of(&v, i + pv.len(), n);
            r.append(rest.as_str());
            return r;
        }
        assert(v@.subrange(0, n as int) =~= v@);
        if i == limit {
            break;
        }
        i += 1;
    }
    assert(!contains(s@, p@)) by {
        assert forall|j: int| !occurs_at(s@, p@, j) by {
            if 0 <= j && j + p@.len() <= s@.len() {
                assert(j <= limit);
            }
        }
    }
    string_of(&v, 0, n)
}

/// The first of `ls` that starts with `p`, if any.
pub open spec fn find_prefixed(ls: Seq<Seq<char>>, p: Seq<char>) -> Option<Seq<char>>
    decreases ls.len(),
{
    if ls.len() == 0 {
        None
    } else if has_prefix(ls[0], p) {
        Some(ls[0])
    } else {
        find_prefixed(ls.drop_first(), p)
    }
}

/// The first line of `content` that starts with `p`, if any.
pub fn find_line_with_prefix(content: &str, p: &str) -> (r: Option<String>)
    ensures
        match r {
            Some(l) => find_prefixed(lines(content@), p@) == Some(l@) && has_prefix(l@, p@),
            None => find_prefixed(lines(content@), p@) is None,
        },
{
    let ls = lines_of(content);
    let ghost l = lines(content@);
    let mut i: usize = 0;
    assert(l.subrange(0, l.len() as int) =~= l);
    while i < ls.len()
        invariant
            i <= ls.len(),
            views(ls@) == l,
            l == lines(content@),
            find_prefixed(l, p@) == find_prefixed(l.subrange(i as int, l.len() as int), p@),
        decreases ls.len() - i,
    {
        let v = chars_of(ls[i].as_str());
        assert(views(ls@)[i as int] == ls@[i as int]@);
        assert(v@.subrange(0, v@.len() as int) =~= v@);
        let ghost rest = l.subrange(i as int, l.len() as int);
        assert(rest[0] == v@);
        assert(rest.drop_first() =~= l.subrange(i + 1, l.len() as int));
        if starts_with_at(&v, 0, v.len(), p) {
            let r = ls[i].clone();
            assert(r@ == v@);
            return Some(r);
        }
        i += 1;
    }
    assert(l.subrange(i as int, l.len() as int) =~= Seq::<Seq<char>>::empty());
    None
}

/// The words of `s` (`str::split_whitespace`), each as a new string.
pub fn words_of(s: &str) -> (r: Vec<String>)
    ensures
        views(r@) == words(s@),
{
    let v = chars_of(s);
    let mut out: Vec<String> = Vec::new();
    let mut start: usize = 0;
    let mut i: usize = 0;
    assert(v@.subrange(0, v.len() as int) =~= v@);
    assert(v@.subrange(0, 0) =~= Seq::<char>::empty());
    assert(views(out@) =~= Seq::<Seq<char>>::empty());
    while i < v.len()
        invariant
            v@ == s@,
            start <= i <= v.len(),
            words(s@) == views(out@) + words_from(v@.subrange(i as int, v.len() as int), v@.subrange(start as int, i as int)),
        decreases v.len() - i,
    {
        let ghost rest = v@.subrange(i as int, v.len() as int);
        assert(rest.drop_first() =~= v@.subrange(i + 1, v.len() as int));
        if space(v[i]) {
            if start < i {
                let word = string_of(&v, start, i);
                let ghost before = out@;
                out.push(word);
                proof {
                    assert(views(out@) =~= views(before).push(word@));
                }
            }
            assert(v@.subrange(i + 1, i + 1) =~= Seq::<char>::empty());
            start = i + 1;
        } else {
            assert(v@.subrange(start as int, i + 1) =~= v@.subrange(start as int, i as int).push(v@[i as int]));
        }
        i += 1;
    }
    proof {
        assert(v@.subrange(i as int, v.len() as int) =~= Seq::<char>::empty());
    }
    if start < v.len() {
        let word = string_of(&v, start, v.len());
        let ghost before = out@;
        out.push(word);
        proof {
            assert(views(out@) =~= views(before).push(word@));
        }
    }
    proof {
        assert(views(out@) =~= words(s@));
    }
    out
}

/// Whether two strings hold the same text.
pub fn str_eq(a: &str, b: &str) -> (r: bool)
    ensures
        r == (a@ == b@),
{
    let v = chars_of(a);
    let w = chars_of(b);
    if v.len() != w.len() {
        return false;
    }
    let mut i: usize = 0;
    while i < v.len()
        invariant
            v@ == a@,
            w@ == b@,
            v.len() == w.len(),
            i <= v.len(),
            forall|k: int| 0 <= k < i ==> v@[k] == w@[k],
        decreases v.len() - i,
    {
        if v[i] != w[i] {
            return false;
        }
        i += 1;
    }
    assert(v@ =~= w@);
    true
}

/// `s` holds no line feed.
pub open spec fn no_newline(s: Seq<char>) -> bool {
    forall|i: int| 0 <= i < s.len() ==> s[i] != '\n'
}

/// Texts that `lines` gives back unchanged once joined by `\n`: none holds a
/// line feed or ends with a carriage return, and the last is not empty.
pub open spec fn plain_lines(xs: Seq<Seq<char>>) -> bool {
    &&& forall|i: int| 0 <= i < xs.len() ==> no_newline(#[trigger] xs[i])
    &&& forall|i: int| 0 <= i < xs.len() ==> strip_cr(#[trigger] xs[i]) == xs[i]
    &&& xs.len() > 0 ==> xs.last().len() > 0
}

/// A stretch without line feeds only extends the current line.
pub proof fn lemma_lines_chunk(a: Seq<char>, rest: Seq<char>, cur: Seq<char>)
    requires
        no_newline(a),
    ensures
        lines_from(a + rest, cur) == lines_from(rest, cur + a),
    decreases a.len(),
{
    if a.len() == 0 {
        assert(a + rest =~= rest);
        assert(cur + a =~= cur);
    } else {
        assert((a + rest)[0] == a[0]);
        assert((a + rest).drop_first() =~= a.drop_first() + rest);
        lemma_lines_chunk(a.drop_first(), rest, cur.push(a[0]));
        assert(cur.push(a[0]) + a.drop_first() =~= cur + a);
    }
}

/// A line feed ends the current line.
pub proof fn lemma_lines_newline(rest: Seq<char>, cur: Seq<char>)
    ensures
        lines_from(seq!['\n'] + rest, cur) == seq![strip_cr(cur)] + lines_from(rest, Seq::empty()),
{
    assert((seq!['\n'] + rest)[0] == '\n');
    assert((seq!['\n'] + rest).drop_first() =~= rest);
}

/// Each text with one trailing carriage return dropped.
pub open spec fn strip_crs(xs: Seq<Seq<char>>) -> Seq<Seq<char>> {
    xs.map_values(|x: Seq<char>| strip_cr(x))
}

proof fn lemma_lines_join_rest(xs: Seq<Seq<char>>, rest: Seq<char>)
    requires
        xs.len() >= 1,
        forall|i: int| 0 <= i < xs.len() ==> no_newline(#[trigger] xs[i]),
    ensures
        lines_from(join(xs, seq!['\n']) + seq!['\n'] + rest, Seq::empty()) == strip_crs(xs) + lines_from(rest, Seq::empty()),
    decreases xs.len(),
{
    let e = Seq::<char>::empty();
    if xs.len() == 1 {
        let x = xs[0];
        assert(join(xs, seq!['\n']) == x);
        assert(x + seq!['\n'] + rest =~= x + (seq!['\n'] + rest));
        lemma_lines_chunk(x, seq!['\n'] + rest, e);
        assert(e + x =~= x);
        lemma_lines_newline(rest, x);
        assert(seq![strip_cr(x)] + lines_from(rest, e) =~= strip_crs(xs) + lines_from(rest, e));
    } else {
        let p = xs.drop_last();
        let y = xs.last();
        assert(join(xs, seq!['\n']) == join(p, seq!['\n']) + seq!['\n'] + y);
        let rest2 = y + seq!['\n'] + rest;
        assert(join(xs, seq!['\n']) + seq!['\n'] + rest =~= join(p, seq!['\n']) + seq!['\n'] + rest2);
        assert forall|i: int| 0 <= i < p.len() implies no_newline(#[trigger] p[i]) by {
            assert(p[i] == xs[i]);
        }
        lemma_lines_join_rest(p, rest2);
        assert(no_newline(xs[xs.len() - 1]));
        assert(rest2 =~= y + (seq!['\n'] + rest));
        lemma_lines_chunk(y, seq!['\n'] + rest, e);
        assert(e + y =~= y);
        lemma_lines_newline(rest, y);
        assert(strip_crs(p) + (seq![strip_cr(y)] + lines_from(rest, e)) =~= strip_crs(xs) + lines_from(rest, e));
    }
}

/// Lines joined by `\n` split back into the same lines, except that a
/// carriage return ending any but the last is dropped; this needs that none
/// holds a line feed and that the last is not empty.
pub proof fn lemma_lines_join_any(xs: Seq<Seq<char>>)
    requires
        forall|i: int| 0 <= i < xs.len() ==> no_newline(#[trigger] xs[i]),
        xs.len() > 0 ==> xs.last().len() > 0,
    ensures
        xs.len() > 0 ==> lines(join(xs, seq!['\n'])) == strip_crs(xs.drop_last()).push(xs.last()),
        xs.len() == 0 ==> lines(join(xs, seq!['\n'])) == xs,
{
    let e = Seq::<char>::empty();
    if xs.len() == 0 {
    } else if xs.len() == 1 {
        let x = xs[0];
        assert(x + e =~= x);
        assert(no_newline(xs[0]));
        lemma_lines_chunk(x, e, e);
        assert(e + x =~= x);
        assert(lines_from(e, x) == seq![x]);
        assert(strip_crs(xs.drop_last()).push(xs.last()) =~= seq![x]);
    } else {
        let p = xs.drop_last();
        let y = xs.last();
        assert forall|i: int| 0 <= i < p.len() implies no_newline(#[trigger] p[i]) by {
            assert(p[i] == xs[i]);
        }
        lemma_lines_join_rest(p, y);
        assert(no_newline(xs[xs.len() - 1]));
        assert(y + e =~= y);
        lemma_lines_chunk(y, e, e);
        assert(e + y =~= y);
        assert(lines_from(e, y) == seq![y]);
        assert(strip_crs(p) + seq![y] =~= strip_crs(p).push(y));
    }
}

/// Lines joined by `\n` split back into the same lines, when none holds a
/// line feed or ends with a carriage return and the last is not empty.
pub proof fn lemma_lines_join(xs: Seq<Seq<char>>)
    requires
        plain_lines(xs),
    ensures
        lines(join(xs, seq!['\n'])) == xs,
{
    lemma_lines_join_any(xs);
    if xs.len() > 0 {
        assert(strip_crs(xs.drop_last()).push(xs.last()) =~= xs);
    }
}

/// No line of a text holds a line feed.
pub proof fn lemma_lines_no_newline(s: Seq<char>, cur: Seq<char>)
    requires
        no_newline(cur),
    ensures
        forall|i: int| 0 <= i < lines_from(s, cur).len() ==> no_newline(#[trigger] lines_from(s, cur)[i]),
    decreases s.len(),
{
    let r = lines_from(s, cur);
    if s.len() == 0 {
        assert forall|i: int| 0 <= i < r.len() implies no_newline(#[trigger] r[i]) by {
            assert(r == seq![cur]);
        }
    } else if s[0] == '\n' {
        let c = strip_cr(cur);
        assert(no_newline(c)) by {
            assert forall|i: int| 0 <= i < c.len() implies c[i] != '\n' by {
                assert(c[i] == cur[i]);
            }
        }
        lemma_lines_no_newline(s.drop_first(), Seq::empty());
        let t = lines_from(s.drop_first(), Seq::<char>::empty());
        assert(r == seq![c] + t);
        assert forall|i: int| 0 <= i < r.len() implies no_newline(#[trigger] r[i]) by {
            if i > 0 {
                assert(r[i] == t[i - 1]);
            } else {
                assert(r[0] == c);
            }
        }
    } else {
        let c = cur.push(s[0]);
        assert(no_newline(c)) by {
            assert forall|i: int| 0 <= i < c.len() implies c[i] != '\n' by {
                if i < cur.len() {
                    assert(c[i] == cur[i]);
                }
            }
        }
        lemma_lines_no_newline(s.drop_first(), c);
        assert(r == lines_from(s.drop_first(), c));
    }
}

/// A text that ends with a line feed splits into its own lines followed by
/// those of what comes after it.
pub proof fn lemma_lines_concat(a: Seq<char>, b: Seq<char>, cur: Seq<char>)
    requires
        a.len() > 0,
        a.last() == '\n',
    ensures
        lines_from(a + b, cur) == lines_from(a, cur) + lines_from(b, Seq::empty()),
    decreases a.len(),
{
    let e = Seq::<char>::empty();
    assert((a + b)[0] == a[0]);
    assert((a + b).drop_first() =~= a.drop_first() + b);
    if a[0] == '\n' {
        if a.len() == 1 {
            assert(a.drop_first() =~= e);
            assert(a.drop_first() + b =~= b);
            assert(lines_from(a.drop_first(), e) == Seq::<Seq<char>>::empty());
            assert(seq![strip_cr(cur)] + lines_from(b, e) =~= (seq![strip_cr(cur)] + Seq::<Seq<char>>::empty()) + lines_from(b, e));
        } else {
            assert(a.drop_first().last() == a.last());
            lemma_lines_concat(a.drop_first(), b, e);
            assert(seq![strip_cr(cur)] + (lines_from(a.drop_first(), e) + lines_from(b, e)) =~= (seq![strip_cr(cur)] + lines_from(a.drop_first(), e)) + lines_from(b, e));
        }
    } else {
        assert(a.len() >= 2);
        assert(a.drop_first().last() == a.last());
        lemma_lines_concat(a.drop_first(), b, cur.push(a[0]));
    }
}

/// A text without line feeds is one line, or none when empty.
pub proof fn lemma_lines_single(x: Seq<char>)
    requires
        no_newline(x),
    ensures
        lines(x) == (if x.len() == 0 {
            Seq::<Seq<char>>::empty()
        } else {
            seq![x]
        }),
{
    let e = Seq::<char>::empty();
    lemma_lines_chunk(x, e, e);
    assert(x + e =~= x);
    assert(e + x =~= x);
}

/// Every text is its complete lines (empty, or ending with a line feed)
/// followed by a last stretch without line feeds.
pub proof fn lemma_split_last_line(s: Seq<char>)
    ensures
        exists|p: Seq<char>, q: Seq<char>|
            {
                &&& s == p + q
                &&& p.len() == 0 || p.last() == '\n'
                &&& no_newline(q)
            },
    decreases s.len(),
{
    let e = Seq::<char>::empty();
    if s.len() == 0 {
        assert(s =~= e + e);
    } else if s.last() == '\n' {
        assert(s =~= s + e);
    } else {
        lemma_split_last_line(s.drop_last());
        let (p, q) = choose|p: Seq<char>, q: Seq<char>|
            {
                &&& s.drop_last() == p + q
                &&& p.len() == 0 || p.last() == '\n'
                &&& no_newline(q)
            };
        let q2 = q.push(s.last());
        assert(s =~= s.drop_last().push(s.last()));
        assert((p + q).push(s.last()) =~= p + q2);
        assert(no_newline(q2)) by {
            assert forall|i: int| 0 <= i < q2.len() implies q2[i] != '\n' by {
                if i < q.len() {
                    assert(q2[i] == q[i]);
                }
            }
        }
    }
}

/// Appending a line (without a line feed) to a text that is empty or ends
/// with a line feed adds that line, if it is not empty.
pub proof fn lemma_lines_append(c: Seq<char>, x: Seq<char>)
    requires
        c.len() == 0 || c.last() == '\n',
        no_newline(x),
    ensures
        lines(c + x) == lines(c) + lines(x),
        lines(x) == (if x.len() == 0 {
            Seq::<Seq<char>>::empty()
        } else {
            seq![x]
        }),
{
    lemma_lines_single(x);
    if c.len() == 0 {
        assert(c + x =~= x);
        assert(lines(c) == Seq::<Seq<char>>::empty());
        assert(lines(c) + lines(x) =~= lines(x));
    } else {
        lemma_lines_concat(c, x, Seq::empty());
    }
}

} // verus!
