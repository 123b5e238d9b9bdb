//! The package list TrickyStore reads (`target.txt`): the third-party
//! packages, less the user's exclusions, plus the user's additions, sorted.
//!
//! The set is kept as a strictly sorted list of character vectors rather
//! than a `BTreeSet<String>`: vstd's `BTreeSet` specifications hold only
//! for key types that obey its ordering laws (`obeys_cmp`), which it does
//! not establish for `String`, so nothing could be proved through them. The
//! list's invariant (each entry before every later one) gives what the set
//! gave: no entry twice, and the order of `String`.

use vstd::prelude::*;
use crate::text::{
    chars_of, cviews, has_prefix, join, join_chars, lemma_lex_irreflexive, lemma_lex_total,
    lemma_lex_transitive, lex_less, lex_lt, lines, lines_of, slice_vec, starts_with_at, string_of,
    trim, trim_bounds, views, lemma_lines_append, lemma_lines_join, no_newline, strip_cr,
    is_space, lemma_lines_chunk, lemma_lines_concat, lemma_lines_newline, lemma_lines_no_newline,
    lemma_lines_single, lemma_split_last_line, lemma_trim_shape, lemma_trim_strip_cr,
};

verus! {

/// Each text comes before every later one: sorted, with no repeats.
pub open spec fn strictly_sorted(s: Seq<Seq<char>>) -> bool {
    forall|i: int, j: int| 0 <= i < j < s.len() ==> lex_lt(#[trigger] s[i], #[trigger] s[j])
}

/// A trimmed line of a list file names an entry when it is not empty and is
/// no `#` comment.
pub open spec fn is_entry(e: Seq<char>) -> bool {
    e.len() > 0 && e[0] != '#'
}

/// The entries the first `n` lines of a list file name.
pub open spec fn entries_upto(ls: Seq<Seq<char>>, n: int) -> Set<Seq<char>> {
    Set::new(|e: Seq<char>| exists|i: int| 0 <= i < n && #[trigger] trim(ls[i]) == e && is_entry(e))
}

/// The entries a list file names: its trimmed lines that are neither empty
/// nor comments.
pub open spec fn entries(content: Seq<char>) -> Set<Seq<char>> {
    entries_upto(lines(content), lines(content).len() as int)
}

/// The entries of an optional list file (none when the file is missing).
pub open spec fn entries_of(content: Option<Seq<char>>) -> Set<Seq<char>> {
    match content {
        Some(c) => entries(c),
        None => Set::empty(),
    }
}

/// The packages TrickyStore is to target: the installed third-party
/// packages, less the entries of the user's exclusion list, plus the entries
/// of the additions list.
pub open spec fn target_set(
    packages: Seq<Seq<char>>,
    usr: Option<Seq<char>>,
    sys: Option<Seq<char>>,
) -> Set<Seq<char>> {
    packages.to_set().difference(entries_of(usr)).union(entries_of(sys))
}

pub open spec fn opt_view(o: Option<&str>) -> Option<Seq<char>> {
    match o {
        Some(s) => Some(s@),
        None => None,
    }
}

/// The packages that `pm list packages` reports, one per `package:` line.
pub open spec fn package_lines(output: Seq<char>) -> Seq<Seq<char>> {
    lines(output).filter(is_package_line()).map_values(package_of())
}

/// A line of `pm list packages` output that names a package.
pub open spec fn is_package_line() -> spec_fn(Seq<char>) -> bool {
    |l: Seq<char>| has_prefix(l, "package:"@)
}

/// The package a `package:` line names.
pub open spec fn package_of() -> spec_fn(Seq<char>) -> Seq<char> {
    |l: Seq<char>| l.subrange(8, l.len() as int)
}

proof fn lemma_push_to_set(s: Seq<Seq<char>>, x: Seq<char>)
    ensures
        s.push(x).to_set() == s.to_set().insert(x),
{
    let t = s.push(x);
    assert forall|e: Seq<char>| t.to_set().contains(e) == s.to_set().insert(x).contains(e) by {
        if t.contains(e) {
            let i = choose|i: int| 0 <= i < t.len() && t[i] == e;
            if i < s.len() {
                assert(s[i] == e);
            }
        }
        if s.contains(e) {
            let i = choose|i: int| 0 <= i < s.len() && s[i] == e;
            assert(t[i] == e);
        }
        if e == x {
            assert(t[s.len() as int] == e);
        }
    }
    assert(t.to_set() =~= s.to_set().insert(x));
}

/// Inserts `x` into a strictly sorted list.
fn sorted_insert(acc: &mut Vec<Vec<char>>, x: Vec<char>)
    requires
        strictly_sorted(cviews(old(acc)@)),
    ensures
        strictly_sorted(cviews(final(acc)@)),
        cviews(final(acc)@).to_set() == cviews(old(acc)@).to_set().insert(x@),
{
    let ghost s = cviews(acc@);
    let mut p: usize = 0;
    while p < acc.len() && lex_less(&acc[p], 0, acc[p].len(), &x, 0, x.len())
        invariant
            p <= acc.len(),
            s == cviews(acc@),
            forall|k: int| 0 <= k < p ==> lex_lt(#[trigger] s[k], x@),
        decreases acc.len() - p,
    {
        assert(acc[p as int]@.subrange(0, acc[p as int]@.len() as int) =~= acc[p as int]@);
        assert(x@.subrange(0, x@.len() as int) =~= x@);
        p += 1;
    }
    if p < acc.len() {
        assert(acc[p as int]@.subrange(0, acc[p as int]@.len() as int) =~= acc[p as int]@);
        assert(x@.subrange(0, x@.len() as int) =~= x@);
        assert(s[p as int] == acc@[p as int]@);
        assert(!lex_lt(s[p as int], x@));
        if !lex_less(&x, 0, x.len(), &acc[p], 0, acc[p].len()) {
            proof {
                lemma_lex_total(s[p as int], x@);
                assert(s.to_set().insert(x@) =~= s.to_set()) by {
                    assert(s.contains(x@));
                }
            }
            return;
        }
    }
    let ghost pos = p as int;
    acc.insert(p, x);
    proof {
        let t = cviews(acc@);
        assert(t =~= s.insert(pos, x@));
        assert forall|i: int, j: int| 0 <= i < j < t.len() implies lex_lt(#[trigger] t[i], #[trigger] t[j]) by {
            if j < pos {
            } else if j == pos {
                assert(t[i] == s[i]);
            } else if i < pos {
                assert(t[j] == s[j - 1]);
                if j - 1 > pos {
                    assert(lex_lt(s[pos], s[j - 1]));
                }
                lemma_lex_total(s[pos], x@);
                assert(lex_lt(x@, s[pos]));
                lemma_lex_transitive(s[i], x@, s[pos]);
                if j - 1 > pos {
                    lemma_lex_transitive(s[i], s[pos], s[j - 1]);
                }
            } else if i == pos {
                lemma_lex_total(s[pos], x@);
                if j - 1 > pos {
                    lemma_lex_transitive(x@, s[pos], s[j - 1]);
                }
            } else {
                assert(t[i] == s[i - 1]);
                assert(t[j] == s[j - 1]);
            }
        }
        assert forall|e: Seq<char>| t.to_set().contains(e) == s.to_set().insert(x@).contains(e) by {
            if t.contains(e) {
                let i = choose|i: int| 0 <= i < t.len() && t[i] == e;
                if i < pos {
                    assert(s[i] == e);
                } else if i > pos {
                    assert(s[i - 1] == e);
                }
            }
            if s.contains(e) {
                let i = choose|i: int| 0 <= i < s.len() && s[i] == e;
                if i < pos {
                    assert(t[i] == e);
                } else {
                    assert(t[i + 1] == e);
                }
            }
            if e == x@ {
                assert(t[pos] == e);
            }
        }
        assert(t.to_set() =~= s.to_set().insert(x@));
    }
}

/// Removes `x` from a strictly sorted list.
fn sorted_remove(acc: &mut Vec<Vec<char>>, x: &Vec<char>)
    requires
        strictly_sorted(cviews(old(acc)@)),
    ensures
        strictly_sorted(cviews(final(acc)@)),
        cviews(final(acc)@).to_set() == cviews(old(acc)@).to_set().remove(x@),
{
    let ghost s = cviews(acc@);
    let mut p: usize = 0;
    while p < acc.len() && lex_less(&acc[p], 0, acc[p].len(), x, 0, x.len())
        invariant
            p <= acc.len(),
            s == cviews(acc@),
            forall|k: int| 0 <= k < p ==> lex_lt(#[trigger] s[k], x@),
        decreases acc.len() - p,
    {
        assert(acc[p as int]@.subrange(0, acc[p as int]@.len() as int) =~= acc[p as int]@);
        assert(x@.subrange(0, x@.len() as int) =~= x@);
        p += 1;
    }
    assert(x@.subrange(0, x@.len() as int) =~= x@);
    if p < acc.len() {
        assert(acc[p as int]@.subrange(0, acc[p as int]@.len() as int) =~= acc[p as int]@);
        assert(s[p as int] == acc@[p as int]@);
        if !lex_less(x, 0, x.len(), &acc[p], 0, acc[p].len()) {
            let ghost pos = p as int;
            proof {
                lemma_lex_total(s[pos], x@);
            }
            acc.remove(p);
            proof {
                let t = cviews(acc@);
                assert(t =~= s.remove(pos));
                assert forall|i: int, j: int| 0 <= i < j < t.len() implies lex_lt(#[trigger] t[i], #[trigger] t[j]) by {
                    if i < pos {
                        assert(t[i] == s[i]);
                    } else {
                        assert(t[i] == s[i + 1]);
                    }
                    if j < pos {
                        assert(t[j] == s[j]);
                    } else {
                        assert(t[j] == s[j + 1]);
                    }
                }
                assert forall|e: Seq<char>| t.to_set().contains(e) == s.to_set().remove(x@).contains(e) by {
                    if t.contains(e) {
                        let i = choose|i: int| 0 <= i < t.len() && t[i] == e;
                        if i < pos {
                            assert(s[i] == e);
                            assert(lex_lt(s[i], s[pos]));
                            lemma_lex_irreflexive(e);
                        } else {
                            assert(s[i + 1] == e);
                            assert(lex_lt(s[pos], s[i + 1]));
                            lemma_lex_irreflexive(e);
                        }
                    }
                    if s.contains(e) && e != x@ {
                        let i = choose|i: int| 0 <= i < s.len() && s[i] == e;
                        if i < pos {
                            assert(t[i] == e);
                        } else {
                            assert(i != pos);
                            assert(t[i - 1] == e);
                        }
                    }
                }
                assert(t.to_set() =~= s.to_set().remove(x@));
            }
            return;
        }
        proof {
            assert(lex_lt(x@, s[p as int]));
        }
    }
    proof {
        assert forall|e: Seq<char>| s.to_set().contains(e) implies e != x@ by {
            let i = choose|i: int| 0 <= i < s.len() && s[i] == e;
            if i < p {
                lemma_lex_irreflexive(x@);
            } else {
                assert(p < acc.len());
                if i > p {
                    lemma_lex_transitive(x@, s[p as int], s[i]);
                }
                lemma_lex_irreflexive(x@);
            }
        }
        assert(s.to_set().remove(x@) =~= s.to_set());
    }
}

/// The trimmed line `line` as an entry, if it names one.
fn line_entry(line: &str) -> (r: Option<Vec<char>>)
    ensures
        r is Some <==> is_entry(trim(line@)),
        r matches Some(e) ==> e@ == trim(line@),
{
    let v = chars_of(line);
    assert(v@.subrange(0, v@.len() as int) =~= v@);
    let (a, b): (usize, usize) = trim_bounds(&v, 0, v.len());
    if a < b && v[a] != '#' {
        Some(slice_vec(&v, a, b))
    } else {
        None
    }
}

proof fn lemma_entries_step(ls: Seq<Seq<char>>, i: int)
    requires
        0 <= i < ls.len(),
    ensures
        entries_upto(ls, i + 1) == (if is_entry(trim(ls[i])) {
            entries_upto(ls, i).insert(trim(ls[i]))
        } else {
            entries_upto(ls, i)
        }),
{
    let next = if is_entry(trim(ls[i])) {
        entries_upto(ls, i).insert(trim(ls[i]))
    } else {
        entries_upto(ls, i)
    };
    assert forall|e: Seq<char>| entries_upto(ls, i + 1).contains(e) == next.contains(e) by {
        if entries_upto(ls, i + 1).contains(e) {
            let k = choose|k: int| 0 <= k < i + 1 && #[trigger] trim(ls[k]) == e && is_entry(e);
            if k < i {
                assert(entries_upto(ls, i).contains(e));
            }
        }
        if entries_upto(ls, i).contains(e) {
            let k = choose|k: int| 0 <= k < i && #[trigger] trim(ls[k]) == e && is_entry(e);
            assert(0 <= k < i + 1 && trim(ls[k]) == e && is_entry(e));
        }
        if is_entry(trim(ls[i])) && e == trim(ls[i]) {
            assert(0 <= i < i + 1 && trim(ls[i]) == e && is_entry(e));
        }
    }
    assert(entries_upto(ls, i + 1) =~= next);
}

/// Removes from `acc` the entries that the list file `content` names.
fn remove_entries(acc: &mut Vec<Vec<char>>, content: &str)
    requires
        strictly_sorted(cviews(old(acc)@)),
    ensures
        strictly_sorted(cviews(final(acc)@)),
        cviews(final(acc)@).to_set() == cviews(old(acc)@).to_set().difference(entries(content@)),
{
    let ls = lines_of(content);
    let ghost base = cviews(acc@).to_set();
    let mut i: usize = 0;
    assert(base.difference(entries_upto(lines(content@), 0)) =~= base);
    while i < ls.len()
        invariant
            i <= ls.len(),
            views(ls@) == lines(content@),
            strictly_sorted(cviews(acc@)),
            cviews(acc@).to_set() == base.difference(entries_upto(lines(content@), i as int)),
        decreases ls.len() - i,
    {
        proof {
            lemma_entries_step(lines(content@), i as int);
            assert(views(ls@)[i as int] == ls@[i as int]@);
        }
        match line_entry(ls[i].as_str()) {
            Some(e) => {
                sorted_remove(acc, &e);
                assert(base.difference(entries_upto(lines(content@), i + 1)) =~= base.difference(
                    entries_upto(lines(content@), i as int),
                ).remove(e@));
            },
            None => {},
        }
        i += 1;
    }
}

/// Adds to `acc` the entries that the list file `content` names.
fn add_entries(acc: &mut Vec<Vec<char>>, content: &str)
    requires
        strictly_sorted(cviews(old(acc)@)),
    ensures
        strictly_sorted(cviews(final(acc)@)),
        cviews(final(acc)@).to_set() == cviews(old(acc)@).to_set().union(entries(content@)),
{
    let ls = lines_of(content);
    let ghost base = cviews(acc@).to_set();
    let mut i: usize = 0;
    assert(base.union(entries_upto(lines(content@), 0)) =~= base);
    while i < ls.len()
        invariant
            i <= ls.len(),
            views(ls@) == lines(content@),
            strictly_sorted(cviews(acc@)),
            cviews(acc@).to_set() == base.union(entries_upto(lines(content@), i as int)),
        decreases ls.len() - i,
    {
        proof {
            lemma_entries_step(lines(content@), i as int);
            assert(views(ls@)[i as int] == ls@[i as int]@);
        }
        match line_entry(ls[i].as_str()) {
            Some(e) => {
                let ghost ev = e@;
                sorted_insert(acc, e);
                assert(base.union(entries_upto(lines(content@), i + 1)) =~= base.union(
                    entries_upto(lines(content@), i as int),
                ).insert(ev));
            },
            None => {},
        }
        i += 1;
    }
}

/// The body of `target.txt`: the packages of [`target_set`], sorted, one per
/// line (no newline after the last). `packages` are the installed
/// third-party packages, `usr` and `sys` the contents of the exclusion and
/// addition lists (`None` for a missing file).
pub fn target(packages: &Vec<String>, usr: Option<&str>, sys: Option<&str>) -> (r: String)
    ensures
        exists|order: Seq<Seq<char>>|
            {
                &&& strictly_sorted(order)
                &&& order.to_set() == target_set(views(packages@), opt_view(usr), opt_view(sys))
                &&& r@ == join(order, seq!['\n'])
            },
{
    let mut acc: Vec<Vec<char>> = Vec::new();
    let ghost pv = views(packages@);
    assert(cviews(acc@).to_set() =~= pv.take(0).to_set());
    let mut i: usize = 0;
    while i < packages.len()
        invariant
            i <= packages.len(),
            pv == views(packages@),
            strictly_sorted(cviews(acc@)),
            cviews(acc@).to_set() == pv.take(i as int).to_set(),
        decreases packages.len() - i,
    {
        let x = chars_of(packages[i].as_str());
        sorted_insert(&mut acc, x);
        proof {
            assert(pv.take(i + 1) =~= pv.take(i as int).push(pv[i as int]));
            lemma_push_to_set(pv.take(i as int), pv[i as int]);
        }
        i += 1;
    }
    assert(pv.take(packages.len() as int) =~= pv);
    match usr {
        Some(u) => remove_entries(&mut acc, u),
        None => {},
    }
    assert(cviews(acc@).to_set() =~= pv.to_set().difference(entries_of(opt_view(usr))));
    match sys {
        Some(c) => add_entries(&mut acc, c),
        None => {},
    }
    assert(cviews(acc@).to_set() =~= target_set(pv, opt_view(usr), opt_view(sys)));
    join_chars(&acc, '\n')
}

/// The package names in the output of `pm list packages`: the rest of each
/// line that starts with `package:`, in order.
pub fn package_names(output: &str) -> (r: Vec<String>)
    ensures
        views(r@) == package_lines(output@),
{
    let ls = lines_of(output);
    let ghost l = lines(output@);
    let ghost pred = is_package_line();
    let ghost f = package_of();
    let mut r: Vec<String> = Vec::new();
    let mut i: usize = 0;
    proof {
        reveal_strlit("package:");
        reveal_with_fuel(Seq::<_>::filter, 1);
        assert(l.take(0).filter(pred) =~= Seq::<Seq<char>>::empty());
        assert(views(r@) =~= l.take(0).filter(pred).map_values(f));
    }
    while i < ls.len()
        invariant
            i <= ls.len(),
            views(ls@) == l,
            l == lines(output@),
            "package:"@.len() == 8,
            pred == is_package_line(),
            f == package_of(),
            views(r@) == l.take(i as int).filter(pred).map_values(f),
        decreases ls.len() - i,
    {
        let v = chars_of(ls[i].as_str());
        assert(views(ls@)[i as int] == ls@[i as int]@);
        assert(l.take(i + 1).drop_last() =~= l.take(i as int));
        proof {
            assert(v@.subrange(0, v@.len() as int) =~= v@);
            let tt = l.take(i + 1);
            assert(tt.last() == v@);
            assert(tt.len() > 0);
            reveal_with_fuel(Seq::<_>::filter, 1);
            assert(tt.filter(pred) == if pred(tt.last()) {
                tt.drop_last().filter(pred).push(tt.last())
            } else {
                tt.drop_last().filter(pred)
            });
            assert(pred(tt.last()) == has_prefix(v@, "package:"@));
        }
        if starts_with_at(&v, 0, v.len(), "package:") {
            let name = string_of(&v, 8, v.len());
            let ghost before = r@;
            r.push(name);
            proof {
                reveal_with_fuel(Seq::<_>::filter, 1);
                assert(views(r@) =~= views(before).push(name@));
                assert(l.take(i + 1).filter(pred) == l.take(i as int).filter(pred).push(l[i as int]));
                assert(l.take(i + 1).filter(pred).map_values(f) =~= l.take(i as int).filter(pred).map_values(f).push(f(l[i as int])));
            }
        } else {
            proof {
                reveal_with_fuel(Seq::<_>::filter, 1);
                assert(l.take(i + 1).filter(pred) == l.take(i as int).filter(pred));
            }
        }
        i += 1;
    }
    assert(l.take(ls.len() as int) =~= l);
    r
}

/// A package is targeted exactly when it is installed and not excluded, or
/// listed as an addition: additions always win over exclusions.
pub proof fn lemma_target_membership(
    packages: Seq<Seq<char>>,
    usr: Option<Seq<char>>,
    sys: Option<Seq<char>>,
    e: Seq<char>,
)
    ensures
        target_set(packages, usr, sys).contains(e) <==> (packages.contains(e) && !entries_of(
            usr,
        ).contains(e)) || entries_of(sys).contains(e),
{
}

/// The target list is the same whatever order the installed packages come
/// in, and repeats among them do not matter.
pub proof fn lemma_target_order_free(
    p1: Seq<Seq<char>>,
    p2: Seq<Seq<char>>,
    usr: Option<Seq<char>>,
    sys: Option<Seq<char>>,
)
    requires
        p1.to_set() == p2.to_set(),
    ensures
        target_set(p1, usr, sys) == target_set(p2, usr, sys),
{
}

/// A strictly sorted list is fixed by what it holds: two such lists with the
/// same elements are equal, so `target` has one possible result.
pub proof fn lemma_sorted_unique(a: Seq<Seq<char>>, b: Seq<Seq<char>>)
    requires
        strictly_sorted(a),
        strictly_sorted(b),
        a.to_set() == b.to_set(),
    ensures
        a == b,
    decreases a.len() + b.len(),
{
    if a.len() == 0 || b.len() == 0 {
        if a.len() > 0 {
            assert(a.to_set().contains(a[0]));
            assert(b.to_set().contains(a[0]));
        }
        if b.len() > 0 {
            assert(b.to_set().contains(b[0]));
            assert(a.to_set().contains(b[0]));
        }
        assert(a =~= b);
    } else {
        let x = a.last();
        let y = b.last();
        assert(a.to_set().contains(x));
        assert(b.to_set().contains(y));
        assert(b.to_set().contains(x));
        assert(a.to_set().contains(y));
        let i = choose|i: int| 0 <= i < b.len() && b[i] == x;
        let j = choose|j: int| 0 <= j < a.len() && a[j] == y;
        if i < b.len() - 1 {
            assert(lex_lt(x, y));
            if j < a.len() - 1 {
                assert(lex_lt(y, x));
                lemma_lex_transitive(x, y, x);
                lemma_lex_irreflexive(x);
            } else {
                lemma_lex_irreflexive(x);
            }
        }
        assert(x == y);
        let a2 = a.drop_last();
        let b2 = b.drop_last();
        assert forall|e: Seq<char>| a2.to_set().contains(e) == b2.to_set().contains(e) by {
            if a2.contains(e) {
                let k = choose|k: int| 0 <= k < a2.len() && a2[k] == e;
                assert(lex_lt(e, x));
                assert(b.contains(e)) by {
                    assert(a.contains(e));
                    assert(a.to_set().contains(e));
                }
                let m = choose|m: int| 0 <= m < b.len() && b[m] == e;
                if m == b.len() - 1 {
                    lemma_lex_irreflexive(e);
                }
                assert(b2[m] == e);
            }
            if b2.contains(e) {
                let k = choose|k: int| 0 <= k < b2.len() && b2[k] == e;
                assert(lex_lt(e, y));
                assert(a.contains(e)) by {
                    assert(b.contains(e));
                    assert(b.to_set().contains(e));
                }
                let m = choose|m: int| 0 <= m < a.len() && a[m] == e;
                if m == a.len() - 1 {
                    lemma_lex_irreflexive(e);
                }
                assert(a2[m] == e);
            }
        }
        assert(a2.to_set() =~= b2.to_set());
        lemma_sorted_unique(a2, b2);
        assert(a =~= a2.push(x));
        assert(b =~= b2.push(y));
    }
}

/// Reading `target.txt` back line by line gives exactly the targeted
/// packages, in order, when none of them is empty, holds a line feed or ends
/// with a carriage return.
pub proof fn lemma_target_reads_back(
    packages: Seq<Seq<char>>,
    usr: Option<Seq<char>>,
    sys: Option<Seq<char>>,
    order: Seq<Seq<char>>,
)
    requires
        strictly_sorted(order),
        order.to_set() == target_set(packages, usr, sys),
        forall|e: Seq<char>|
            #[trigger] target_set(packages, usr, sys).contains(e) ==> e.len() > 0 && no_newline(e)
                && strip_cr(e) == e,
    ensures
        lines(join(order, seq!['\n'])) == order,
{
    assert forall|i: int| 0 <= i < order.len() implies no_newline(#[trigger] order[i]) && strip_cr(order[i]) == order[i] && order[i].len() > 0 by {
        assert(order.to_set().contains(order[i]));
        assert(target_set(packages, usr, sys).contains(order[i]));
    }
    if order.len() > 0 {
        assert(order.last() == order[order.len() - 1]);
    }
    lemma_lines_join(order);
}

/// Adding entries to the additions list, or taking entries out of the
/// exclusion list, never drops a package from the target list.
pub proof fn lemma_target_monotone(
    packages: Seq<Seq<char>>,
    usr1: Option<Seq<char>>,
    usr2: Option<Seq<char>>,
    sys1: Option<Seq<char>>,
    sys2: Option<Seq<char>>,
)
    requires
        entries_of(sys1).subset_of(entries_of(sys2)),
        entries_of(usr2).subset_of(entries_of(usr1)),
    ensures
        target_set(packages, usr1, sys1).subset_of(target_set(packages, usr2, sys2)),
{
}

/// One more entry line, anywhere in the additions list, adds exactly that
/// package.
pub proof fn lemma_target_add_addition(
    packages: Seq<Seq<char>>,
    usr: Option<Seq<char>>,
    a: Seq<char>,
    b: Seq<char>,
    x: Seq<char>,
    sys2: Seq<char>,
)
    requires
        with_line(a, b, x, sys2),
        is_entry(trim(x)),
    ensures
        target_set(packages, usr, Some(sys2)) == target_set(packages, usr, Some(a + b)).insert(trim(x)),
{
    lemma_entries_with_line(a, b, x, sys2);
    assert(target_set(packages, usr, Some(sys2)) =~= target_set(packages, usr, Some(a + b)).insert(trim(x)));
}

/// One more entry line, anywhere in the exclusion list, removes exactly
/// that package, unless the additions list names it.
pub proof fn lemma_target_add_exclusion(
    packages: Seq<Seq<char>>,
    sys: Option<Seq<char>>,
    a: Seq<char>,
    b: Seq<char>,
    x: Seq<char>,
    usr2: Seq<char>,
)
    requires
        with_line(a, b, x, usr2),
        is_entry(trim(x)),
    ensures
        target_set(packages, Some(usr2), sys) == (if entries_of(sys).contains(trim(x)) {
            target_set(packages, Some(a + b), sys)
        } else {
            target_set(packages, Some(a + b), sys).remove(trim(x))
        }),
{
    lemma_entries_with_line(a, b, x, usr2);
    if entries_of(sys).contains(trim(x)) {
        assert(target_set(packages, Some(usr2), sys) =~= target_set(packages, Some(a + b), sys));
    } else {
        assert(target_set(packages, Some(usr2), sys) =~= target_set(packages, Some(a + b), sys).remove(trim(x)));
    }
}

/// The entries a list of lines names.
pub open spec fn line_entries(ls: Seq<Seq<char>>) -> Set<Seq<char>> {
    entries_upto(ls, ls.len() as int)
}

/// The entry one line names, as a set: empty when it names none.
pub open spec fn entry_of(l: Seq<char>) -> Set<Seq<char>> {
    if is_entry(trim(l)) {
        set![trim(l)]
    } else {
        Set::empty()
    }
}

proof fn lemma_line_entries_concat(l1: Seq<Seq<char>>, l2: Seq<Seq<char>>)
    ensures
        line_entries(l1 + l2) == line_entries(l1).union(line_entries(l2)),
{
    let l = l1 + l2;
    let n = l1.len() as int;
    assert forall|e: Seq<char>| line_entries(l).contains(e) == line_entries(l1).union(line_entries(l2)).contains(e) by {
        if line_entries(l).contains(e) {
            let i = choose|i: int| 0 <= i < l.len() && #[trigger] trim(l[i]) == e && is_entry(e);
            if i < n {
                assert(l[i] == l1[i]);
                assert(line_entries(l1).contains(e));
            } else {
                assert(l[i] == l2[i - n]);
                assert(trim(l2[i - n]) == e);
                assert(line_entries(l2).contains(e));
            }
        }
        if line_entries(l1).contains(e) {
            let i = choose|i: int| 0 <= i < l1.len() && #[trigger] trim(l1[i]) == e && is_entry(e);
            assert(l[i] == l1[i]);
            assert(line_entries(l).contains(e));
        }
        if line_entries(l2).contains(e) {
            let i = choose|i: int| 0 <= i < l2.len() && #[trigger] trim(l2[i]) == e && is_entry(e);
            assert(l[i + n] == l2[i]);
            assert(trim(l[i + n]) == e);
            assert(line_entries(l).contains(e));
        }
    }
    assert(line_entries(l) =~= line_entries(l1).union(line_entries(l2)));
}

proof fn lemma_line_entries_single(y: Seq<char>)
    ensures
        line_entries(seq![y]) == entry_of(y),
        line_entries(Seq::<Seq<char>>::empty()) == Set::<Seq<char>>::empty(),
{
    let l = seq![y];
    assert forall|e: Seq<char>| line_entries(l).contains(e) == entry_of(y).contains(e) by {
        if line_entries(l).contains(e) {
            let i = choose|i: int| 0 <= i < l.len() && #[trigger] trim(l[i]) == e && is_entry(e);
            assert(i == 0);
        }
        if entry_of(y).contains(e) {
            assert(trim(l[0]) == e);
        }
    }
    assert(line_entries(l) =~= entry_of(y));
    assert(line_entries(Seq::<Seq<char>>::empty()) =~= Set::<Seq<char>>::empty());
}

/// `after` is the list file `a + b` with the line `x` added: put in before
/// the lines of `b` (with a line feed after it), or at the very end of the
/// file, with or without a line feed of its own. `a` is empty or ends with
/// a line feed, except when `x` goes after a last line that has none.
pub open spec fn with_line(a: Seq<char>, b: Seq<char>, x: Seq<char>, after: Seq<char>) -> bool {
    let nl = seq!['\n'];
    &&& no_newline(x)
    &&& {
        ||| (a.len() == 0 || a.last() == '\n') && after == a + x + nl + b
        ||| (a.len() == 0 || a.last() == '\n') && b.len() == 0 && after == a + x
        ||| a.len() > 0 && a.last() != '\n' && b.len() == 0 && (after == a + nl + x || after == a + nl
            + x + nl)
    }
}

proof fn lemma_lines_line_then(q: Seq<char>, rest: Seq<char>)
    requires
        no_newline(q),
    ensures
        lines(q + seq!['\n'] + rest) == seq![strip_cr(q)] + lines(rest),
{
    let e = Seq::<char>::empty();
    assert(q + seq!['\n'] + rest =~= q + (seq!['\n'] + rest));
    lemma_lines_chunk(q, seq!['\n'] + rest, e);
    assert(e + q =~= q);
    lemma_lines_newline(rest, q);
}

proof fn lemma_lines_after(a: Seq<char>, rest: Seq<char>)
    requires
        a.len() == 0 || a.last() == '\n',
    ensures
        lines(a + rest) == lines(a) + lines(rest),
{
    if a.len() == 0 {
        assert(a + rest =~= rest);
        assert(lines(a) == Seq::<Seq<char>>::empty());
        assert(lines(a) + lines(rest) =~= lines(rest));
    } else {
        lemma_lines_concat(a, rest, Seq::empty());
    }
}

/// Adding the line `x` to a list file adds its trimmed text to the entries
/// when it names one, and changes nothing else.
pub proof fn lemma_entries_with_line(a: Seq<char>, b: Seq<char>, x: Seq<char>, after: Seq<char>)
    requires
        with_line(a, b, x, after),
    ensures
        entries(after) == entries(a + b).union(entry_of(x)),
{
    let nl = seq!['\n'];
    let e = Seq::<char>::empty();
    lemma_trim_strip_cr(x);
    lemma_line_entries_single(x);
    lemma_line_entries_single(strip_cr(x));
    assert(entry_of(strip_cr(x)) == entry_of(x));
    if (a.len() == 0 || a.last() == '\n') && after == a + x + nl + b {
        assert(after =~= a + (x + nl + b));
        lemma_lines_after(a, x + nl + b);
        lemma_lines_line_then(x, b);
        lemma_lines_after(a, b);
        lemma_line_entries_concat(lines(a), seq![strip_cr(x)] + lines(b));
        lemma_line_entries_concat(seq![strip_cr(x)], lines(b));
        lemma_line_entries_concat(lines(a), lines(b));
        assert(lines(after) =~= lines(a) + (seq![strip_cr(x)] + lines(b)));
        assert(entries(after) =~= entries(a + b).union(entry_of(x)));
    } else if (a.len() == 0 || a.last() == '\n') && b.len() == 0 && after == a + x {
        assert(a + b =~= a);
        lemma_lines_append(a, x);
        lemma_line_entries_concat(lines(a), lines(x));
        assert(entries(after) =~= entries(a + b).union(entry_of(x)));
    } else {
        assert(a + b =~= a);
        lemma_split_last_line(a);
        let (p, q) = choose|p: Seq<char>, q: Seq<char>|
            {
                &&& a == p + q
                &&& p.len() == 0 || p.last() == '\n'
                &&& no_newline(q)
            };
        assert(q.len() > 0) by {
            if q.len() == 0 {
                assert(a =~= p);
            }
        }
        assert(q.last() == a.last());
        lemma_lines_after(p, q);
        lemma_lines_single(q);
        lemma_trim_strip_cr(q);
        lemma_line_entries_single(q);
        lemma_line_entries_single(strip_cr(q));
        assert(entry_of(strip_cr(q)) == entry_of(q));
        lemma_line_entries_concat(lines(p), seq![q]);
        let tail = if after == a + nl + x { x } else { x + nl };
        assert(after =~= p + (q + nl + tail));
        lemma_lines_after(p, q + nl + tail);
        lemma_lines_line_then(q, tail);
        lemma_line_entries_concat(lines(p), seq![strip_cr(q)] + lines(tail));
        lemma_line_entries_concat(seq![strip_cr(q)], lines(tail));
        assert(lines(after) =~= lines(p) + (seq![strip_cr(q)] + lines(tail)));
        if after == a + nl + x {
            lemma_lines_single(x);
            if x.len() == 0 {
                assert(trim(x) == x);
            }
        } else {
            assert(x + nl =~= x + nl + e);
            lemma_lines_line_then(x, e);
            assert(lines(e) == Seq::<Seq<char>>::empty());
            assert(lines(tail) =~= seq![strip_cr(x)]);
        }
        assert(entries(after) =~= entries(a + b).union(entry_of(x)));
    }
}

/// What a list file names is never empty, holds no line feed and does not
/// end with a carriage return.
pub proof fn lemma_entries_plain(c: Seq<char>, e: Seq<char>)
    requires
        entries(c).contains(e),
    ensures
        e.len() > 0,
        no_newline(e),
        strip_cr(e) == e,
{
    let ls = lines(c);
    let i = choose|i: int| 0 <= i < ls.len() && #[trigger] trim(ls[i]) == e && is_entry(e);
    lemma_lines_no_newline(c, Seq::empty());
    assert(no_newline(ls[i]));
    lemma_trim_shape(ls[i]);
    let (j, k) = choose|j: int, k: int| 0 <= j <= k <= ls[i].len() && trim(ls[i]) == ls[i].subrange(j, k);
    assert forall|m: int| 0 <= m < e.len() implies e[m] != '\n' by {
        assert(e[m] == ls[i][j + m]);
    }
    assert(is_space('\r'));
}

proof fn lemma_target_plain(packages: Seq<Seq<char>>, usr: Option<Seq<char>>, sys: Option<Seq<char>>)
    requires
        forall|p: Seq<char>| #[trigger] packages.contains(p) ==> p.len() > 0 && no_newline(p) && strip_cr(p) == p,
    ensures
        forall|e: Seq<char>|
            #[trigger] target_set(packages, usr, sys).contains(e) ==> e.len() > 0 && no_newline(e)
                && strip_cr(e) == e,
{
    assert forall|e: Seq<char>| #[trigger] target_set(packages, usr, sys).contains(e) implies e.len() > 0
        && no_newline(e) && strip_cr(e) == e by {
        if entries_of(sys).contains(e) {
            lemma_entries_plain(sys->0, e);
        } else {
            assert(packages.to_set().contains(e));
        }
    }
}

/// A line with a package added anywhere in the additions list: the lines of
/// `target.txt` are those of before, with that package among them (in its
/// sorted place). `order1` and `order2` are the sorted target lists of the
/// two runs, as `target` writes them; the installed package names are
/// plain (not empty, no line feed, no trailing carriage return).
pub proof fn lemma_target_file_addition(
    packages: Seq<Seq<char>>,
    usr: Option<Seq<char>>,
    a: Seq<char>,
    b: Seq<char>,
    x: Seq<char>,
    sys2: Seq<char>,
    order1: Seq<Seq<char>>,
    order2: Seq<Seq<char>>,
)
    requires
        with_line(a, b, x, sys2),
        is_entry(trim(x)),
        forall|p: Seq<char>| #[trigger] packages.contains(p) ==> p.len() > 0 && no_newline(p) && strip_cr(p) == p,
        strictly_sorted(order1),
        order1.to_set() == target_set(packages, usr, Some(a + b)),
        strictly_sorted(order2),
        order2.to_set() == target_set(packages, usr, Some(sys2)),
    ensures
        lines(join(order1, seq!['\n'])) == order1,
        lines(join(order2, seq!['\n'])) == order2,
        lines(join(order2, seq!['\n'])).to_set() == lines(join(order1, seq!['\n'])).to_set().insert(trim(x)),
{
    lemma_target_plain(packages, usr, Some(a + b));
    lemma_target_plain(packages, usr, Some(sys2));
    lemma_target_reads_back(packages, usr, Some(a + b), order1);
    lemma_target_reads_back(packages, usr, Some(sys2), order2);
    lemma_target_add_addition(packages, usr, a, b, x, sys2);
}

/// A line with a package added anywhere in the exclusion list: the lines of
/// `target.txt` are those of before without that package, or the same when
/// the additions list names it. Same conditions as for an addition.
pub proof fn lemma_target_file_exclusion(
    packages: Seq<Seq<char>>,
    sys: Option<Seq<char>>,
    a: Seq<char>,
    b: Seq<char>,
    x: Seq<char>,
    usr2: Seq<char>,
    order1: Seq<Seq<char>>,
    order2: Seq<Seq<char>>,
)
    requires
        with_line(a, b, x, usr2),
        is_entry(trim(x)),
        forall|p: Seq<char>| #[trigger] packages.contains(p) ==> p.len() > 0 && no_newline(p) && strip_cr(p) == p,
        strictly_sorted(order1),
        order1.to_set() == target_set(packages, Some(a + b), sys),
        strictly_sorted(order2),
        order2.to_set() == target_set(packages, Some(usr2), sys),
    ensures
        lines(join(order1, seq!['\n'])) == order1,
        lines(join(order2, seq!['\n'])) == order2,
        lines(join(order2, seq!['\n'])).to_set() == (if entries_of(sys).contains(trim(x)) {
            lines(join(order1, seq!['\n'])).to_set()
        } else {
            lines(join(order1, seq!['\n'])).to_set().remove(trim(x))
        }),
{
    lemma_target_plain(packages, Some(a + b), sys);
    lemma_target_plain(packages, Some(usr2), sys);
    lemma_target_reads_back(packages, Some(a + b), sys, order1);
    lemma_target_reads_back(packages, Some(usr2), sys, order2);
    lemma_target_add_exclusion(packages, sys, a, b, x, usr2);
}

} // verus!
