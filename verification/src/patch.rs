//! Security patch level: normalising the stored date, finding the latest
//! date in the Pixel bulletin page, and what `patch-sync` / `patch-fetch` do
//! with them.

use vstd::prelude::*;
use crate::props::{PropWrite, write_pairs};
use crate::text::{lemma_trim_idempotent, lit, trim_str, lex_less, lex_lt, lemma_lex_transitive, chars_of, digit, is_digit, is_space, push_char, string_of, trim, trim_bounds, trim_end, trim_start};

verus! {

/// `YYYY-MM-DD`: ten characters, `-` at 4 and 7, decimal digits elsewhere.
pub open spec fn is_dashed_date(t: Seq<char>) -> bool {
    &&& t.len() == 10
    &&& t[4] == '-'
    &&& t[7] == '-'
    &&& forall|i: int| 0 <= i < 10 && i != 4 && i != 7 ==> is_digit(#[trigger] t[i])
}

/// `YYYYMMDD`: eight digits.
pub open spec fn is_compact_date(t: Seq<char>) -> bool {
    &&& t.len() == 8
    &&& forall|i: int| 0 <= i < 8 ==> is_digit(#[trigger] t[i])
}

/// The date a stored patch level stands for, as `YYYY-MM-DD`, or the empty
/// text when it is neither `YYYY-MM-DD` nor `YYYYMMDD` (after trimming).
pub open spec fn normalized_date(s: Seq<char>) -> Seq<char> {
    let t = trim(s);
    if is_dashed_date(t) {
        t
    } else if is_compact_date(t) {
        t.subrange(0, 4) + seq!['-'] + t.subrange(4, 6) + seq!['-'] + t.subrange(6, 8)
    } else {
        Seq::empty()
    }
}

/// Normalises a date: accepts `YYYY-MM-DD` or `YYYYMMDD` in ASCII digits,
/// surrounded by white space or not, and returns `YYYY-MM-DD`; anything else
/// gives "".
pub fn normalize_date(s: &str) -> (r: String)
    ensures
        r@ == normalized_date(s@),
{
    let v = chars_of(s);
    assert(v@.subrange(0, v@.len() as int) =~= v@);
    let (a, b): (usize, usize) = trim_bounds(&v, 0, v.len());
    let ghost t = trim(s@);
    assert(v@.subrange(a as int, b as int) == t);
    if b - a == 10 && v[a + 4] == '-' && v[a + 7] == '-' {
        let mut k: usize = 0;
        let mut ok = true;
        while k < 10
            invariant
                a + 10 == b <= v.len(),
                t == v@.subrange(a as int, b as int),
                k <= 10,
                ok == (forall|i: int| 0 <= i < k && i != 4 && i != 7 ==> is_digit(#[trigger] t[i])),
            decreases 10 - k,
        {
            let c = v[a + k];
            assert(t[k as int] == c);
            if k != 4 && k != 7 {
                ok = ok && digit(c);
            }
            k += 1;
        }
        if ok {
            return string_of(&v, a, b);
        }
    }
    if b - a == 8 {
        let mut k: usize = 0;
        let mut ok = true;
        while k < 8
            invariant
                a + 8 == b <= v.len(),
                t == v@.subrange(a as int, b as int),
                k <= 8,
                ok == (forall|i: int| 0 <= i < k ==> is_digit(#[trigger] t[i])),
            decreases 8 - k,
        {
            assert(t[k as int] == v@[a + k]);
            ok = ok && digit(v[a + k]);
            k += 1;
        }
        if ok {
            let mut r = string_of(&v, a, a + 4);
            push_char(&mut r, '-');
            r.append(string_of(&v, a + 4, a + 6).as_str());
            push_char(&mut r, '-');
            r.append(string_of(&v, a + 6, a + 8).as_str());
            proof {
                assert(r@ =~= t.subrange(0, 4) + seq!['-'] + t.subrange(4, 6) + seq!['-'] + t.subrange(6, 8));
            }
            return r;
        }
    }
    String::new()
}

/// The numeric value of a decimal digit.
pub open spec fn digit_value(c: char) -> int {
    c as int - '0' as int
}

/// `s[j..j + 10]` has the shape `DDDD-DD-DD` (D a decimal digit).
pub open spec fn date_shape_at(s: Seq<char>, j: int) -> bool {
    &&& 0 <= j
    &&& j + 10 <= s.len()
    &&& is_digit(s[j])
    &&& is_digit(s[j + 1])
    &&& is_digit(s[j + 2])
    &&& is_digit(s[j + 3])
    &&& s[j + 4] == '-'
    &&& is_digit(s[j + 5])
    &&& is_digit(s[j + 6])
    &&& s[j + 7] == '-'
    &&& is_digit(s[j + 8])
    &&& is_digit(s[j + 9])
}

/// The year written by the four digits at `s[j..j + 4]`.
pub open spec fn year_at(s: Seq<char>, j: int) -> int {
    1000 * digit_value(s[j]) + 100 * digit_value(s[j + 1]) + 10 * digit_value(s[j + 2])
        + digit_value(s[j + 3])
}

/// A patch date starts at `j`: the shape `DDDD-DD-DD` with a year from
/// 2020 to 2035.
pub open spec fn patch_date_at(s: Seq<char>, j: int) -> bool {
    date_shape_at(s, j) && 2020 <= year_at(s, j) <= 2035
}

/// The ten characters starting at `j`.
pub open spec fn date_text(s: Seq<char>, j: int) -> Seq<char> {
    s.subrange(j, j + 10)
}

fn year_in_range(v: &Vec<char>, j: usize) -> (r: bool)
    requires
        j + 10 <= v.len(),
        date_shape_at(v@, j as int),
    ensures
        r == (2020 <= year_at(v@, j as int) <= 2035),
{
    let d0: u32 = (v[j] as u32) - ('0' as u32);
    let d1: u32 = (v[j + 1] as u32) - ('0' as u32);
    let d2: u32 = (v[j + 2] as u32) - ('0' as u32);
    let d3: u32 = (v[j + 3] as u32) - ('0' as u32);
    let year: u32 = 1000 * d0 + 100 * d1 + 10 * d2 + d3;
    2020 <= year && year <= 2035
}

fn date_shape(v: &Vec<char>, j: usize) -> (r: bool)
    requires
        j + 10 <= v.len(),
    ensures
        r == date_shape_at(v@, j as int),
{
    digit(v[j]) && digit(v[j + 1]) && digit(v[j + 2]) && digit(v[j + 3]) && v[j + 4] == '-'
        && digit(v[j + 5]) && digit(v[j + 6]) && v[j + 7] == '-' && digit(v[j + 8]) && digit(
        v[j + 9],
    )
}

/// The latest security patch date in the bulletin page: of all `DDDD-DD-DD`
/// texts in it whose year is from 2020 to 2035, the greatest (in the order
/// of strings); "" when there is none.
pub fn extract_patch_date(html: &str) -> (r: String)
    ensures
        (r@.len() == 0) == (forall|j: int| !patch_date_at(html@, j)),
        r@.len() > 0 ==> exists|j: int| patch_date_at(html@, j) && r@ == date_text(html@, j),
        forall|j: int| patch_date_at(html@, j) ==> !lex_lt(r@, #[trigger] date_text(html@, j)),
{
    let v = chars_of(html);
    let ghost s = html@;
    let n: usize = v.len();
    let mut best: Option<usize> = None;
    if n < 10 {
        assert forall|j: int| !patch_date_at(s, j) by {}
        return String::new();
    }
    let mut i: usize = 0;
    while i <= n - 10
        invariant
            v@ == s,
            n == v.len(),
            n >= 10,
            i <= n - 9,
            best matches Some(b) ==> b < i && patch_date_at(s, b as int),
            best is None ==> forall|j: int| 0 <= j < i ==> !patch_date_at(s, j),
            forall|j: int|
                0 <= j < i && patch_date_at(s, j) ==> (best matches Some(b) && !lex_lt(
                    date_text(s, b as int),
                    #[trigger] date_text(s, j),
                )),
        decreases n - i,
    {
        if date_shape(&v, i) && year_in_range(&v, i) {
            match best {
                None => {
                    best = Some(i);
                    proof {
                        crate::text::lemma_lex_irreflexive(date_text(s, i as int));
                    }
                },
                Some(b) => {
                    if lex_less(&v, b, b + 10, &v, i, i + 10) {
                        proof {
                            assert forall|j: int|
                                0 <= j < i + 1 && patch_date_at(s, j) implies !lex_lt(
                                date_text(s, i as int),
                                #[trigger] date_text(s, j),
                            ) by {
                                if j < i {
                                    if lex_lt(date_text(s, i as int), date_text(s, j)) {
                                        lemma_lex_transitive(
                                            date_text(s, b as int),
                                            date_text(s, i as int),
                                            date_text(s, j),
                                        );
                                    }
                                } else {
                                    crate::text::lemma_lex_irreflexive(date_text(s, i as int));
                                }
                            }
                        }
                        best = Some(i);
                    } else {
                        assert(!lex_lt(date_text(s, b as int), date_text(s, i as int)));
                    }
                },
            }
        }
        i += 1;
    }
    match best {
        None => {
            assert forall|j: int| !patch_date_at(s, j) by {
                if patch_date_at(s, j) {
                    assert(0 <= j < i);
                }
            }
            String::new()
        },
        Some(b) => {
            assert forall|j: int| patch_date_at(s, j) implies !lex_lt(
                date_text(s, b as int),
                #[trigger] date_text(s, j),
            ) by {
                assert(0 <= j < i);
            }
            string_of(&v, b, b + 10)
        },
    }
}

/// The file, in the toolkit's configuration directory, that holds the
/// security patch level to apply.
pub const PATCH_FILE: &'static str = "security_patch.txt";

/// The process killed after a new patch level is set, so that it reads it
/// again.
pub const GMS_UNSTABLE: &'static str = "com.google.android.gms.unstable";

/// The page the latest patch level is read from.
pub const BULLETIN_URL: &'static str = "https://source.android.com/docs/security/bulletin/pixel";

/// What `patch-sync` does.
pub enum SyncOutcome {
    /// No patch file: nothing to do.
    NoFile,
    /// Set these properties, then restart the GMS unstable process.
    Apply(Vec<PropWrite>),
}

/// The properties that carry the security patch level.
pub open spec fn patch_writes(date: Seq<char>) -> Seq<(Seq<char>, Seq<char>)> {
    seq![
        ("ro.vendor.build.security_patch"@, date),
        ("ro.build.version.security_patch"@, date),
    ]
}

/// `patch-sync`, given the content of the patch file (`None` when there is
/// no such file): nothing when the file is missing; the error "invalid date"
/// when it holds no date; else the two patch level properties set to the
/// normalised date.
pub fn sync(stored: Option<&str>) -> (r: Result<SyncOutcome, String>)
    ensures
        stored is None ==> r matches Ok(SyncOutcome::NoFile),
        stored matches Some(raw) ==> {
            let date = normalized_date(raw@);
            if date.len() == 0 {
                r matches Err(e) && e@ == "invalid date"@
            } else {
                r matches Ok(SyncOutcome::Apply(w)) && write_pairs(w@) == patch_writes(date)
            }
        },
{
    match stored {
        None => Ok(SyncOutcome::NoFile),
        Some(raw) => {
            let trimmed = trim_str(raw);
            let date = normalize_date(trimmed.as_str());
            proof {
                lemma_trim_idempotent(raw@);
            }
            if date.as_str().is_empty() {
                return Err(lit("invalid date"));
            }
            let mut w: Vec<PropWrite> = Vec::new();
            w.push(PropWrite::new("ro.vendor.build.security_patch", date.as_str()));
            w.push(PropWrite::new("ro.build.version.security_patch", date.as_str()));
            assert(write_pairs(w@) =~= patch_writes(date@));
            Ok(SyncOutcome::Apply(w))
        },
    }
}

/// `patch-fetch`, given the bulletin page (empty when the download failed):
/// the date to store, which is the latest patch date in the page, or the
/// error for an empty page or a page without a date.
pub fn fetch(body: &str) -> (r: Result<String, String>)
    ensures
        body@.len() == 0 ==> (r matches Err(e) && e@
            == "patch-fetch: failed to download bulletin page"@),
        body@.len() > 0 && (forall|j: int| !patch_date_at(body@, j)) ==> (r matches Err(e) && e@
            == "patch-fetch: could not parse date from bulletin"@),
        r matches Ok(d) ==> d@.len() > 0 && (exists|j: int|
            patch_date_at(body@, j) && d@ == date_text(body@, j)) && (forall|j: int|
            patch_date_at(body@, j) ==> !lex_lt(d@, #[trigger] date_text(body@, j))),
        body@.len() > 0 && (exists|j: int| patch_date_at(body@, j)) ==> r is Ok,
{
    if body.is_empty() {
        return Err(lit("patch-fetch: failed to download bulletin page"));
    }
    let date = extract_patch_date(body);
    if date.as_str().is_empty() {
        return Err(lit("patch-fetch: could not parse date from bulletin"));
    }
    Ok(date)
}

/// Normalising is idempotent: a normalised date normalises to itself, and
/// so does the empty text.
pub proof fn lemma_normalize_idempotent(s: Seq<char>)
    ensures
        normalized_date(normalized_date(s)) == normalized_date(s),
{
    let n = normalized_date(s);
    if n.len() > 0 {
        let t = trim(s);
        if !is_dashed_date(t) {
            assert(is_compact_date(t));
            assert forall|i: int| 0 <= i < 10 && i != 4 && i != 7 implies is_digit(#[trigger] n[i]) by {
                if i < 4 {
                    assert(n[i] == t[i]);
                } else if 4 < i < 7 {
                    assert(n[i] == t[i - 1]);
                } else if 7 < i {
                    assert(n[i] == t[i - 2]);
                }
            }
        }
        assert(is_dashed_date(n));
        assert(!is_space(n[0]) && !is_space(n.last())) by {
            assert(is_digit(n[0]));
            assert(is_digit(n[9]));
        }
        assert(trim_start(n) == n);
        assert(trim_end(n) == n);
    } else {
        assert(trim_start(n) == n);
        assert(trim_end(n) == n);
    }
}

/// A normalised date is either empty or in the `YYYY-MM-DD` shape.
pub proof fn lemma_normalized_shape(s: Seq<char>)
    ensures
        normalized_date(s).len() == 0 || is_dashed_date(normalized_date(s)),
{
    let n = normalized_date(s);
    let t = trim(s);
    if n.len() > 0 && !is_dashed_date(t) {
        assert forall|i: int| 0 <= i < 10 && i != 4 && i != 7 implies is_digit(#[trigger] n[i]) by {
            if i < 4 {
                assert(n[i] == t[i]);
            } else if 4 < i < 7 {
                assert(n[i] == t[i - 1]);
            } else if 7 < i {
                assert(n[i] == t[i - 2]);
            }
        }
    }
}

} // verus!
