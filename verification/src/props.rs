//! System property rules: which properties `propstate` sets and when, and
//! how `vbhash` decides on the VBMeta digest.

use vstd::prelude::*;
use crate::text::{
    chars_of, contains, find_line_with_prefix, find_prefixed, has_suffix, hex_digit, is_digit,
    is_hex_digit, lines, lines_of, lit, push_char, str_contains, str_eq, string_of, trim, trim_str,
    views, words, words_of,
};

verus! {

/// One `resetprop name value` to perform.
pub struct PropWrite {
    pub name: String,
    pub value: String,
}

impl PropWrite {
    /// The name and value as text.
    pub open spec fn pair(&self) -> (Seq<char>, Seq<char>) {
        (self.name@, self.value@)
    }

    pub fn new(name: &str, value: &str) -> (r: PropWrite)
        ensures
            r.pair() == (name@, value@),
    {
        PropWrite { name: name.to_owned(), value: value.to_owned() }
    }
}

/// The name/value pairs of a list of property writes.
pub open spec fn write_pairs(w: Seq<PropWrite>) -> Seq<(Seq<char>, Seq<char>)> {
    w.map_values(|x: PropWrite| x.pair())
}

/// A VBMeta digest as stored and set: 64 hexadecimal digits.
pub open spec fn is_hash(h: Seq<char>) -> bool {
    h.len() == 64 && forall|i: int| 0 <= i < h.len() ==> is_hex_digit(#[trigger] h[i])
}

fn all_hex(v: &Vec<char>, lo: usize, hi: usize) -> (r: bool)
    requires
        lo <= hi <= v.len(),
    ensures
        r == forall|i: int| 0 <= i < hi - lo ==> is_hex_digit(#[trigger] v@.subrange(lo as int, hi as int)[i]),
{
    let mut k: usize = lo;
    while k < hi
        invariant
            lo <= k <= hi <= v.len(),
            forall|i: int| 0 <= i < k - lo ==> is_hex_digit(#[trigger] v@.subrange(lo as int, hi as int)[i]),
        decreases hi - k,
    {
        if !hex_digit(v[k]) {
            assert(v@.subrange(lo as int, hi as int)[k - lo] == v@[k as int]);
            return false;
        }
        assert(v@.subrange(lo as int, hi as int)[k - lo] == v@[k as int]);
        k += 1;
    }
    true
}

/// The first line of a text ("" when it has none).
pub open spec fn first_line(c: Seq<char>) -> Seq<char> {
    if lines(c).len() > 0 {
        lines(c)[0]
    } else {
        Seq::empty()
    }
}

/// The digest kept in the cache file: its first line, trimmed, when that is
/// a digest.
pub open spec fn cached_hash(content: Seq<char>) -> Option<Seq<char>> {
    let h = trim(first_line(content));
    if is_hash(h) {
        Some(h)
    } else {
        None
    }
}

/// Reads the cached digest out of the cache file's content.
pub fn read_cached_hash(content: &str) -> (r: Option<String>)
    ensures
        match r {
            Some(h) => cached_hash(content@) == Some(h@),
            None => cached_hash(content@) is None,
        },
{
    let ls = lines_of(content);
    let first = if ls.len() > 0 {
        ls[0].clone()
    } else {
        String::new()
    };
    assert(ls.len() > 0 ==> views(ls@)[0] == ls@[0]@);
    let h = trim_str(first.as_str());
    let v = chars_of(h.as_str());
    assert(v@.subrange(0, v@.len() as int) =~= v@);
    if v.len() == 64 && all_hex(&v, 0, v.len()) {
        Some(h)
    } else {
        None
    }
}

/// The marker the service app puts after the digest.
pub const VBHASH_TAG: &'static str = "=VBHash";

/// `s` without every trailing repetition of `p` (`str::trim_end_matches`).
pub open spec fn strip_suffixes(s: Seq<char>, p: Seq<char>) -> Seq<char>
    decreases s.len(),
{
    if p.len() > 0 && has_suffix(s, p) {
        strip_suffixes(s.subrange(0, s.len() - p.len()), p)
    } else {
        s
    }
}

/// The digest a word holds in the `<hash>=VBHash` form, if it does.
pub open spec fn tagged_hash(w: Seq<char>) -> Option<Seq<char>> {
    if has_suffix(w, VBHASH_TAG@) && is_hash(strip_suffixes(w, VBHASH_TAG@)) {
        Some(strip_suffixes(w, VBHASH_TAG@))
    } else {
        None
    }
}

/// The hexadecimal digits of `w`, in order.
pub open spec fn hex_chars(w: Seq<char>) -> Seq<char> {
    w.filter(|c: char| is_hex_digit(c))
}

/// The first tagged digest among the words.
pub open spec fn first_tagged(ws: Seq<Seq<char>>) -> Option<Seq<char>>
    decreases ws.len(),
{
    if ws.len() == 0 {
        None
    } else if tagged_hash(ws[0]) is Some {
        tagged_hash(ws[0])
    } else {
        first_tagged(ws.drop_first())
    }
}

/// The hexadecimal digits of the first word that has exactly 64 of them.
pub open spec fn first_hex64(ws: Seq<Seq<char>>) -> Option<Seq<char>>
    decreases ws.len(),
{
    if ws.len() == 0 {
        None
    } else if hex_chars(ws[0]).len() == 64 {
        Some(hex_chars(ws[0]))
    } else {
        first_hex64(ws.drop_first())
    }
}

/// The digest in the service app's reply: the first `<hash>=VBHash` word,
/// else the hex digits of the first word with 64 of them.
pub open spec fn vbhash_in(output: Seq<char>) -> Option<Seq<char>> {
    match first_tagged(words(output)) {
        Some(h) => Some(h),
        None => first_hex64(words(output)),
    }
}

proof fn lemma_strip_len(s: Seq<char>, p: Seq<char>)
    ensures
        strip_suffixes(s, p).len() <= s.len(),
        p.len() > 0 && has_suffix(s, p) ==> strip_suffixes(s, p).len() < s.len(),
    decreases s.len(),
{
    if p.len() > 0 && has_suffix(s, p) {
        lemma_strip_len(s.subrange(0, s.len() - p.len()), p);
    }
}

fn strip_tag(v: &Vec<char>) -> (r: usize)
    ensures
        r <= v.len(),
        v@.subrange(0, r as int) == strip_suffixes(v@, VBHASH_TAG@),
{
    let tag = chars_of(VBHASH_TAG);
    proof {
        reveal_strlit("=VBHash");
    }
    let mut end: usize = v.len();
    assert(v@.subrange(0, end as int) =~= v@);
    loop
        invariant
            end <= v.len(),
            tag@ == VBHASH_TAG@,
            tag@.len() == 7,
            strip_suffixes(v@, VBHASH_TAG@) == strip_suffixes(v@.subrange(0, end as int), VBHASH_TAG@),
        decreases end,
    {
        if end < 7 {
            return end;
        }
        let mut k: usize = 0;
        let mut ok = true;
        while k < 7
            invariant
                7 <= end <= v.len(),
                tag@.len() == 7,
                k <= 7,
                ok == forall|m: int| 0 <= m < k ==> v@[end - 7 + m] == tag@[m],
            decreases 7 - k,
        {
            ok = ok && v[end - 7 + k] == tag[k];
            k += 1;
        }
        let ghost w = v@.subrange(0, end as int);
        assert(has_suffix(w, tag@) == ok) by {
            if ok {
                assert(w.subrange(w.len() - 7, w.len() as int) =~= tag@);
            } else {
                let m = choose|m: int| 0 <= m < 7 && v@[end - 7 + m] != tag@[m];
                assert(w.subrange(w.len() - 7, w.len() as int)[m] != tag@[m]);
            }
        }
        if !ok {
            return end;
        }
        assert(w.subrange(0, w.len() - 7) =~= v@.subrange(0, end - 7));
        end -= 7;
    }
}

/// The tagged digest in a word, if it holds one.
fn word_tagged_hash(word: &str) -> (r: Option<String>)
    ensures
        match r {
            Some(h) => tagged_hash(word@) == Some(h@),
            None => tagged_hash(word@) is None,
        },
{
    let v = chars_of(word);
    proof {
        reveal_strlit("=VBHash");
    }
    let end: usize = strip_tag(&v);
    if end == v.len() {
        // no tag at the end
        proof {
            assert(v@.subrange(0, v@.len() as int) =~= v@);
            lemma_strip_len(word@, VBHASH_TAG@);
        }
        return None;
    }
    if end == 64 && all_hex(&v, 0, end) {
        Some(string_of(&v, 0, end))
    } else {
        None
    }
}

/// The hexadecimal digits of a word, in order.
fn word_hex_chars(word: &str) -> (r: Vec<char>)
    ensures
        r@ == hex_chars(word@),
{
    let v = chars_of(word);
    let ghost pred = |c: char| is_hex_digit(c);
    let mut r: Vec<char> = Vec::new();
    let mut i: usize = 0;
    proof {
        reveal_with_fuel(Seq::<_>::filter, 1);
        assert(v@.take(0) =~= Seq::<char>::empty());
    }
    while i < v.len()
        invariant
            i <= v.len(),
            v@ == word@,
            pred == (|c: char| is_hex_digit(c)),
            r@ == v@.take(i as int).filter(pred),
        decreases v.len() - i,
    {
        proof {
            reveal_with_fuel(Seq::<_>::filter, 1);
            assert(v@.take(i + 1).drop_last() =~= v@.take(i as int));
            assert(v@.take(i + 1).last() == v@[i as int]);
        }
        if hex_digit(v[i]) {
            r.push(v[i]);
        }
        i += 1;
    }
    assert(v@.take(v.len() as int) =~= v@);
    r
}

/// The digest in the service app's reply (`content call` output): the
/// first word `<64 hex digits>=VBHash` (the tag stripped, repeated or not),
/// else the hex digits of the first word that has exactly 64 of them.
pub fn extract_vbhash(output: &str) -> (r: Option<String>)
    ensures
        match r {
            Some(h) => vbhash_in(output@) == Some(h@),
            None => vbhash_in(output@) is None,
        },
{
    let ws = words_of(output);
    let ghost w = words(output@);
    let mut i: usize = 0;
    assert(w.subrange(0, w.len() as int) =~= w);
    while i < ws.len()
        invariant
            i <= ws.len(),
            views(ws@) == w,
            w == words(output@),
            first_tagged(w) == first_tagged(w.subrange(i as int, w.len() as int)),
        decreases ws.len() - i,
    {
        assert(views(ws@)[i as int] == ws@[i as int]@);
        assert(w.subrange(i as int, w.len() as int).drop_first() =~= w.subrange(i + 1, w.len() as int));
        match word_tagged_hash(ws[i].as_str()) {
            Some(h) => {
                return Some(h);
            },
            None => {},
        }
        i += 1;
    }
    assert(w.subrange(i as int, w.len() as int) =~= Seq::<Seq<char>>::empty());
    let mut j: usize = 0;
    while j < ws.len()
        invariant
            j <= ws.len(),
            views(ws@) == w,
            w == words(output@),
            first_tagged(w) is None,
            first_hex64(w) == first_hex64(w.subrange(j as int, w.len() as int)),
        decreases ws.len() - j,
    {
        assert(views(ws@)[j as int] == ws@[j as int]@);
        assert(w.subrange(j as int, w.len() as int).drop_first() =~= w.subrange(j + 1, w.len() as int));
        let cleaned = word_hex_chars(ws[j].as_str());
        if cleaned.len() == 64 {
            return Some(string_of(&cleaned, 0, cleaned.len()));
        }
        j += 1;
    }
    assert(w.subrange(j as int, w.len() as int) =~= Seq::<Seq<char>>::empty());
    None
}

/// The lower-case hexadecimal digit for `d` (below 16).
pub open spec fn hex_char(d: int) -> char {
    if d < 10 {
        (('0' as int) + d) as char
    } else {
        (('a' as int) + d - 10) as char
    }
}

/// Bytes as lower-case hex, two digits each (`format!("{b:02x}")`).
pub open spec fn hex_of(b: Seq<u8>) -> Seq<char>
    decreases b.len(),
{
    if b.len() == 0 {
        Seq::empty()
    } else {
        hex_of(b.drop_last()) + seq![hex_char(b.last() as int / 16), hex_char(b.last() as int % 16)]
    }
}

fn hex_digit_char(d: u8) -> (c: char)
    requires
        d < 16,
    ensures
        c == hex_char(d as int),
{
    if d < 10 {
        ((48 + d) as char)
    } else {
        ((87 + d) as char)
    }
}

/// A fallback digest: the given random bytes as lower-case hex. With 32
/// bytes this is a 64-digit digest.
pub fn generate_random_hex(random: &[u8]) -> (r: String)
    ensures
        r@ == hex_of(random@),
{
    let mut r = String::new();
    let mut i: usize = 0;
    while i < random.len()
        invariant
            i <= random.len(),
            r@ == hex_of(random@.take(i as int)),
        decreases random.len() - i,
    {
        let b: u8 = random[i];
        assert(random@.take(i + 1).drop_last() =~= random@.take(i as int));
        push_char(&mut r, hex_digit_char(b / 16));
        push_char(&mut r, hex_digit_char(b % 16));
        i += 1;
    }
    assert(random@.take(random.len() as int) =~= random@);
    r
}

/// The value of a string of decimal digits.
pub open spec fn decimal_value(d: Seq<char>) -> nat
    decreases d.len(),
{
    if d.len() == 0 {
        0
    } else {
        (10 * decimal_value(d.drop_last()) + (d.last() as int - '0' as int)) as nat
    }
}

/// `s` without one leading `+`.
pub open spec fn unsigned_digits(s: Seq<char>) -> Seq<char> {
    if s.len() > 0 && s[0] == '+' {
        s.drop_first()
    } else {
        s
    }
}

/// Every character of `d` is a decimal digit.
pub open spec fn all_digits(d: Seq<char>) -> bool {
    forall|i: int| 0 <= i < d.len() ==> is_digit(#[trigger] d[i])
}

/// `u32::from_str`: an optional `+`, then one or more decimal digits whose
/// value fits in a `u32`.
pub open spec fn parsed_u32(s: Seq<char>) -> Option<u32> {
    let d = unsigned_digits(s);
    if d.len() > 0 && all_digits(d) && decimal_value(d) <= u32::MAX {
        Some(decimal_value(d) as u32)
    } else {
        None
    }
}

/// Parses a `u32` as `str::parse::<u32>` does.
pub fn parse_u32(s: &str) -> (r: Option<u32>)
    ensures
        r == parsed_u32(s@),
{
    let v = chars_of(s);
    let start: usize = if v.len() > 0 && v[0] == '+' {
        1
    } else {
        0
    };
    let ghost d = unsigned_digits(s@);
    assert(d =~= v@.subrange(start as int, v.len() as int));
    if start == v.len() {
        return None;
    }
    let mut val: u64 = 0;
    let mut over = false;
    let mut i: usize = start;
    while i < v.len()
        invariant
            start <= i <= v.len(),
            v@ == s@,
            d == unsigned_digits(s@),
            d == v@.subrange(start as int, v.len() as int),
            forall|k: int| 0 <= k < i - start ==> is_digit(#[trigger] d[k]),
            !over ==> val == decimal_value(d.take(i - start)) && val <= u32::MAX,
            over ==> decimal_value(d.take(i - start)) > u32::MAX,
        decreases v.len() - i,
    {
        let c = v[i];
        assert(d[i - start] == c);
        if !('0' <= c && c <= '9') {
            assert(!is_digit(d[i - start]));
            return None;
        }
        assert(d.take(i - start + 1).drop_last() =~= d.take(i - start));
        assert(d.take(i - start + 1).last() == c);
        if !over {
            val = val * 10 + ((c as u64) - 48);
            if val > 4294967295 {
                over = true;
            }
        }
        i += 1;
    }
    assert(d.take(d.len() as int) =~= d);
    if over {
        None
    } else {
        Some(val as u32)
    }
}

/// The property that holds the VBMeta digest.
pub const VBMETA_DIGEST: &'static str = "ro.boot.vbmeta.digest";

/// The package of the service app that reports the digest.
pub const PROVIDER_PKG: &'static str = "io.github.frblanapps.untrickystore";

/// The `versionCode` a TrickyStore `module.prop` (`None` when missing)
/// states; 0 when it states none that parses.
pub open spec fn version_code(prop: Option<Seq<char>>) -> u32 {
    match prop {
        None => 0,
        Some(c) => match find_prefixed(lines(c), "versionCode="@) {
            Some(l) => match parsed_u32(trim(l.subrange(12, l.len() as int))) {
                Some(v) => v,
                None => 0,
            },
            None => 0,
        },
    }
}

/// Reads the `versionCode` of TrickyStore's `module.prop`.
pub fn ts_version_code(prop: Option<&str>) -> (r: u32)
    ensures
        r == version_code(match prop {
            Some(c) => Some(c@),
            None => None,
        }),
{
    match prop {
        None => 0,
        Some(c) => match find_line_with_prefix(c, "versionCode=") {
            Some(l) => {
                proof {
                    reveal_strlit("versionCode=");
                }
                let v = chars_of(l.as_str());
                let rest = string_of(&v, 12, v.len());
                let t = trim_str(rest.as_str());
                match parse_u32(t.as_str()) {
                    Some(n) => n,
                    None => 0,
                }
            },
            None => 0,
        },
    }
}

/// How `vbhash` starts.
pub enum VbhashStart {
    /// The cached digest is the current one: nothing to do.
    CachedCurrent,
    /// Set the digest property to the cached digest.
    RestoreCached(String),
    /// Ask the service app; `persist` says whether to cache its answer.
    Query { persist: bool },
}

/// TrickyStore takes a digest from outside from `versionCode` 245 on.
pub open spec fn accepts_external_hash(prop: Option<Seq<char>>) -> bool {
    version_code(prop) >= 245
}

/// Whether `vbhash` reads the cache file: only with a TrickyStore from
/// `versionCode` 245 on.
pub fn reads_cache(ts_prop: Option<&str>) -> (r: bool)
    ensures
        r == accepts_external_hash(match ts_prop {
            Some(c) => Some(c@),
            None => None,
        }),
{
    ts_version_code(ts_prop) >= 245
}

/// `vbhash`'s first decision, given the current digest property, the
/// content of TrickyStore's `module.prop` (`None` when missing) and of the
/// cache file ("" when missing or not read, see [`reads_cache`]): with a TrickyStore from 245 on and a valid
/// cached digest, either nothing (it is current) or restore it; else ask the
/// service app, caching its answer with TrickyStore from 245 on.
pub fn vbhash(now: &str, ts_prop: Option<&str>, cache: &str) -> (r: VbhashStart)
    ensures
        ({
            let prop = match ts_prop {
                Some(c) => Some(c@),
                None => None,
            };
            match r {
                VbhashStart::CachedCurrent => accepts_external_hash(prop) && cached_hash(cache@)
                    == Some(now@),
                VbhashStart::RestoreCached(h) => accepts_external_hash(prop) && cached_hash(cache@)
                    == Some(h@) && h@ != now@,
                VbhashStart::Query { persist } => persist == accepts_external_hash(prop) && (
                !persist || cached_hash(cache@) is None),
            }
        }),
{
    let ver: u32 = ts_version_code(ts_prop);
    let is_ts245 = ver >= 245;
    if is_ts245 {
        match read_cached_hash(cache) {
            Some(persisted) => {
                let same = str_eq(persisted.as_str(), now);
                if same {
                    return VbhashStart::CachedCurrent;
                }
                return VbhashStart::RestoreCached(persisted);
            },
            None => {},
        }
    }
    VbhashStart::Query { persist: is_ts245 }
}

/// The digest to use after asking the service app: the error when the app
/// could not be installed; else the digest in its reply, or, when it has
/// none, the given random bytes in hex.
pub fn query_content_provider(installed: bool, output: &str, random: &[u8]) -> (r: Result<String, String>)
    ensures
        !installed ==> (r matches Err(e) && e@ == "vbhash: failed to install service.apk"@),
        installed ==> (r matches Ok(h) && h@ == match vbhash_in(output@) {
            Some(x) => x,
            None => hex_of(random@),
        }),
        installed && random@.len() == 32 ==> (r matches Ok(h) && is_hash(h@)),
{
    proof {
        lemma_vbhash_in_is_hash(output@);
        lemma_hex_is_hash(random@);
    }
    if !installed {
        return Err(lit("vbhash: failed to install service.apk"));
    }
    match extract_vbhash(output) {
        Some(h) => Ok(h),
        None => Ok(generate_random_hex(random)),
    }
}

/// What `vbhash` does with the digest obtained from the service app.
pub struct VbhashUpdate {
    /// The digest to set (`resetprop -n`), when it differs from the current.
    pub set_digest: Option<String>,
    /// The digest to write to the cache file.
    pub cache: Option<String>,
}

/// `vbhash`'s last step: an empty digest is the error "vbhash: empty hash
/// from ContentProvider"; else set it when it differs from `now`, and cache
/// it when `persist`.
pub fn vbhash_update(now: &str, hash: String, persist: bool) -> (r: Result<VbhashUpdate, String>)
    ensures
        hash@.len() == 0 ==> (r matches Err(e) && e@ == "vbhash: empty hash from ContentProvider"@),
        hash@.len() > 0 ==> (r matches Ok(u) && (match u.set_digest {
            Some(d) => d@ == hash@ && hash@ != now@,
            None => hash@ == now@,
        }) && (match u.cache {
            Some(c) => c@ == hash@ && persist,
            None => !persist,
        })),
{
    if hash.as_str().is_empty() {
        return Err(lit("vbhash: empty hash from ContentProvider"));
    }
    let same = str_eq(hash.as_str(), now);
    let cache = if persist {
        Some(hash.clone())
    } else {
        None
    };
    let set_digest = if same {
        None
    } else {
        Some(hash)
    };
    Ok(VbhashUpdate { set_digest, cache })
}

/// How a property rule decides on a write, given the current value.
pub enum RuleKind {
    /// Always set this value.
    Always(String),
    /// Set the value when the property is empty or different; when it is
    /// empty the write is made twice.
    MissingOrMismatch(String),
    /// Set `value` when the current value contains `needle`.
    ContainsReset { needle: String, value: String },
    /// Set the value when the property is empty.
    Missing(String),
    /// Set the value when the property is set to something else.
    Mismatch(String),
}

/// A rule kind as plain values.
pub enum KindView {
    Always(Seq<char>),
    MissingOrMismatch(Seq<char>),
    ContainsReset(Seq<char>, Seq<char>),
    Missing(Seq<char>),
    Mismatch(Seq<char>),
}

/// One property that `propstate` checks.
pub struct PropRule {
    pub name: String,
    pub kind: RuleKind,
}

impl PropRule {
    pub open spec fn view_kind(&self) -> KindView {
        match self.kind {
            RuleKind::Always(v) => KindView::Always(v@),
            RuleKind::MissingOrMismatch(v) => KindView::MissingOrMismatch(v@),
            RuleKind::ContainsReset { needle, value } => KindView::ContainsReset(needle@, value@),
            RuleKind::Missing(v) => KindView::Missing(v@),
            RuleKind::Mismatch(v) => KindView::Mismatch(v@),
        }
    }

    pub open spec fn rule_view(&self) -> (Seq<char>, KindView) {
        (self.name@, self.view_kind())
    }

    fn set(name: &str, v: &str) -> (r: PropRule)
        ensures
            r.rule_view() == (name@, KindView::Always(v@)),
    {
        PropRule { name: lit(name), kind: RuleKind::Always(lit(v)) }
    }

    fn missing_or_mismatch(name: &str, v: &str) -> (r: PropRule)
        ensures
            r.rule_view() == (name@, KindView::MissingOrMismatch(v@)),
    {
        PropRule { name: lit(name), kind: RuleKind::MissingOrMismatch(lit(v)) }
    }

    fn contains_reset(name: &str, needle: &str, value: &str) -> (r: PropRule)
        ensures
            r.rule_view() == (name@, KindView::ContainsReset(needle@, value@)),
    {
        PropRule { name: lit(name), kind: RuleKind::ContainsReset { needle: lit(needle), value: lit(value) } }
    }

    fn missing(name: &str, v: &str) -> (r: PropRule)
        ensures
            r.rule_view() == (name@, KindView::Missing(v@)),
    {
        PropRule { name: lit(name), kind: RuleKind::Missing(lit(v)) }
    }

    fn mismatch(name: &str, v: &str) -> (r: PropRule)
        ensures
            r.rule_view() == (name@, KindView::Mismatch(v@)),
    {
        PropRule { name: lit(name), kind: RuleKind::Mismatch(lit(v)) }
    }

    /// Whether the rule needs the property's current value.
    pub fn reads_current(&self) -> (r: bool)
        ensures
            r == !(self.kind is Always),
    {
        match self.kind {
            RuleKind::Always(_) => false,
            _ => true,
        }
    }

    /// The writes the rule makes when the property's current value is
    /// `current` (as `getprop` prints it, trimmed; "" when unset).
    pub fn writes(&self, current: &str) -> (r: Vec<PropWrite>)
        ensures
            write_pairs(r@) == rule_writes(self.rule_view(), current@),
    {
        let mut r: Vec<PropWrite> = Vec::new();
        let empty = current.is_empty();
        match &self.kind {
            RuleKind::Always(v) => {
                r.push(PropWrite::new(self.name.as_str(), v.as_str()));
            },
            RuleKind::MissingOrMismatch(v) => {
                if empty || !str_eq(current, v.as_str()) {
                    r.push(PropWrite::new(self.name.as_str(), v.as_str()));
                }
                if empty {
                    r.push(PropWrite::new(self.name.as_str(), v.as_str()));
                }
            },
            RuleKind::ContainsReset { needle, value } => {
                if str_contains(current, needle.as_str()) {
                    r.push(PropWrite::new(self.name.as_str(), value.as_str()));
                }
            },
            RuleKind::Missing(v) => {
                if empty {
                    r.push(PropWrite::new(self.name.as_str(), v.as_str()));
                }
            },
            RuleKind::Mismatch(v) => {
                if !empty && !str_eq(current, v.as_str()) {
                    r.push(PropWrite::new(self.name.as_str(), v.as_str()));
                }
            },
        }
        assert(write_pairs(r@) =~= rule_writes(self.rule_view(), current@));
        r
    }
}

/// The writes a rule makes when the property's current value is `cur`.
pub open spec fn rule_writes(rule: (Seq<char>, KindView), cur: Seq<char>) -> Seq<(Seq<char>, Seq<char>)> {
    let name = rule.0;
    match rule.1 {
        KindView::Always(v) => seq![(name, v)],
        KindView::MissingOrMismatch(v) => if cur.len() == 0 {
            seq![(name, v), (name, v)]
        } else if cur != v {
            seq![(name, v)]
        } else {
            Seq::empty()
        },
        KindView::ContainsReset(needle, v) => if contains(cur, needle) {
            seq![(name, v)]
        } else {
            Seq::empty()
        },
        KindView::Missing(v) => if cur.len() == 0 {
            seq![(name, v)]
        } else {
            Seq::empty()
        },
        KindView::Mismatch(v) => if cur.len() > 0 && cur != v {
            seq![(name, v)]
        } else {
            Seq::empty()
        },
    }
}

pub open spec fn rule_views(r: Seq<PropRule>) -> Seq<(Seq<char>, KindView)> {
    r.map_values(|x: PropRule| x.rule_view())
}

/// The properties `propstate` checks, in order, with how each is fixed:
/// the bootloader shown locked and verified, recovery boot modes hidden,
/// VBMeta properties filled in (the size being `size`), and debug or
/// unlocked values replaced.
pub open spec fn propstate_table(size: Seq<char>) -> Seq<(Seq<char>, KindView)> {
    seq![
        (("sys.usb.adb.disabled"@), KindView::Always(" "@)),
        (("ro.boot.vbmeta.device_state"@), KindView::MissingOrMismatch("locked"@)),
        (("ro.boot.verifiedbootstate"@), KindView::MissingOrMismatch("green"@)),
        (("ro.boot.veritymode"@), KindView::MissingOrMismatch("enforcing"@)),
        (("ro.boot.warranty_bit"@), KindView::MissingOrMismatch("0"@)),
        (("ro.boot.flash.locked"@), KindView::MissingOrMismatch("1"@)),
        (("vendor.boot.bootmode"@), KindView::ContainsReset("recovery"@, "unknown"@)),
        (("ro.boot.bootmode"@), KindView::ContainsReset("recovery"@, "unknown"@)),
        (("ro.bootmode"@), KindView::ContainsReset("recovery"@, "unknown"@)),
        (("ro.boot.vbmeta.invalidate_on_error"@), KindView::Missing("yes"@)),
        (("ro.boot.vbmeta.size"@), KindView::Missing(size)),
        (("ro.boot.vbmeta.hash_alg"@), KindView::Missing("sha256"@)),
        (("ro.boot.vbmeta.avb_version"@), KindView::Missing("1.2"@)),
        (("vendor.boot.vbmeta.device_state"@), KindView::Mismatch("locked"@)),
        (("vendor.boot.verifiedbootstate"@), KindView::Mismatch("green"@)),
        (("ro.secureboot.lockstate"@), KindView::Mismatch("locked"@)),
        (("ro.boot.realmebootstate"@), KindView::Mismatch("green"@)),
        (("ro.vendor.boot.warranty_bit"@), KindView::Mismatch("0"@)),
        (("sys.oem_unlock_allowed"@), KindView::Mismatch("0"@)),
        (("ro.boot.realme.lockstate"@), KindView::Mismatch("1"@)),
        (("ro.build.tags"@), KindView::Mismatch("release-keys"@)),
        (("ro.crypto.state"@), KindView::Mismatch("encrypted"@)),
        (("ro.vendor.warranty_bit"@), KindView::Mismatch("0"@)),
        (("ro.force.debuggable"@), KindView::Mismatch("0"@)),
        (("ro.build.type"@), KindView::Mismatch("user"@)),
        (("ro.warranty_bit"@), KindView::Mismatch("0"@)),
        (("ro.debuggable"@), KindView::Mismatch("0"@)),
        (("ro.kernel.qemu"@), KindView::Mismatch(""@)),
        (("ro.adb.secure"@), KindView::Mismatch("1"@)),
        (("ro.secure"@), KindView::Mismatch("1"@)),
    ]
}

/// The rules of `propstate`, given the VBMeta block size to report.
pub fn propstate(vbmeta_size: &str) -> (r: Vec<PropRule>)
    ensures
        rule_views(r@) == propstate_table(vbmeta_size@),
{
    let mut r: Vec<PropRule> = Vec::new();
    r.push(PropRule::set("sys.usb.adb.disabled", " "));
    r.push(PropRule::missing_or_mismatch("ro.boot.vbmeta.device_state", "locked"));
    r.push(PropRule::missing_or_mismatch("ro.boot.verifiedbootstate", "green"));
    r.push(PropRule::missing_or_mismatch("ro.boot.veritymode", "enforcing"));
    r.push(PropRule::missing_or_mismatch("ro.boot.warranty_bit", "0"));
    r.push(PropRule::missing_or_mismatch("ro.boot.flash.locked", "1"));
    r.push(PropRule::contains_reset("vendor.boot.bootmode", "recovery", "unknown"));
    r.push(PropRule::contains_reset("ro.boot.bootmode", "recovery", "unknown"));
    r.push(PropRule::contains_reset("ro.bootmode", "recovery", "unknown"));
    r.push(PropRule::missing("ro.boot.vbmeta.invalidate_on_error", "yes"));
    r.push(PropRule::missing("ro.boot.vbmeta.size", vbmeta_size));
    r.push(PropRule::missing("ro.boot.vbmeta.hash_alg", "sha256"));
    r.push(PropRule::missing("ro.boot.vbmeta.avb_version", "1.2"));
    r.push(PropRule::mismatch("vendor.boot.vbmeta.device_state", "locked"));
    r.push(PropRule::mismatch("vendor.boot.verifiedbootstate", "green"));
    r.push(PropRule::mismatch("ro.secureboot.lockstate", "locked"));
    r.push(PropRule::mismatch("ro.boot.realmebootstate", "green"));
    r.push(PropRule::mismatch("ro.vendor.boot.warranty_bit", "0"));
    r.push(PropRule::mismatch("sys.oem_unlock_allowed", "0"));
    r.push(PropRule::mismatch("ro.boot.realme.lockstate", "1"));
    r.push(PropRule::mismatch("ro.build.tags", "release-keys"));
    r.push(PropRule::mismatch("ro.crypto.state", "encrypted"));
    r.push(PropRule::mismatch("ro.vendor.warranty_bit", "0"));
    r.push(PropRule::mismatch("ro.force.debuggable", "0"));
    r.push(PropRule::mismatch("ro.build.type", "user"));
    r.push(PropRule::mismatch("ro.warranty_bit", "0"));
    r.push(PropRule::mismatch("ro.debuggable", "0"));
    r.push(PropRule::mismatch("ro.kernel.qemu", ""));
    r.push(PropRule::mismatch("ro.adb.secure", "1"));
    r.push(PropRule::mismatch("ro.secure", "1"));
    assert(rule_views(r@) =~= propstate_table(vbmeta_size@));
    r
}

/// The VBMeta block device for a slot suffix.
pub fn vbmeta_device(slot: &str) -> (r: String)
    ensures
        r@ == "/dev/block/by-name/vbmeta"@ + slot@,
{
    let mut r = lit("/dev/block/by-name/vbmeta");
    r.append(slot);
    r
}

/// The VBMeta block size to report, from what `blockdev --getbsz` printed:
/// the trimmed output, or 4096 when there is none.
pub fn vbmeta_size(output: &str) -> (r: String)
    ensures
        r@ == (if trim(output@).len() == 0 {
            "4096"@
        } else {
            trim(output@)
        }),
{
    let t = trim_str(output);
    if t.as_str().is_empty() {
        lit("4096")
    } else {
        t
    }
}

/// The value a property holds after a list of writes to it, starting from
/// `cur`.
pub open spec fn value_after(cur: Seq<char>, w: Seq<(Seq<char>, Seq<char>)>) -> Seq<char> {
    if w.len() == 0 {
        cur
    } else {
        w.last().1
    }
}

/// Each `propstate` rule leaves its property as the rule wants it, whatever
/// it held: set to the value (always, or when it was missing or different),
/// non-empty when it was missing, the expected value or still unset, and
/// free of the searched text when the replacement does not contain it.
pub proof fn lemma_rule_outcome(rule: (Seq<char>, KindView), cur: Seq<char>)
    ensures
        ({
            let w = rule_writes(rule, cur);
            let after = value_after(cur, w);
            &&& forall|i: int| 0 <= i < w.len() ==> (#[trigger] w[i]).0 == rule.0
            &&& match rule.1 {
                KindView::Always(v) => after == v,
                KindView::MissingOrMismatch(v) => after == v,
                KindView::ContainsReset(needle, v) => !contains(v, needle) ==> !contains(
                    after,
                    needle,
                ),
                KindView::Missing(v) => v.len() > 0 ==> after.len() > 0,
                KindView::Mismatch(v) => after == v || after.len() == 0,
            }
        }),
{
}

/// A rule for the property `name` among `rules`.
pub open spec fn has_rule(rules: Seq<(Seq<char>, KindView)>, name: Seq<char>) -> bool {
    exists|i: int| 0 <= i < rules.len() && (#[trigger] rules[i]).0 == name
}

/// `propstate` makes the bootloader look locked and verified. Each of its
/// rules, applied to what its property holds (`cur`, empty when unset),
/// writes only that property and leaves it as a locked, verified, release
/// device shows it: the verified-boot state `green`, the VBMeta device
/// state `locked`, verity `enforcing`, warranty bit `0`, flash lock `1`,
/// ADB never flagged disabled, a recovery boot mode read as `unknown`,
/// missing VBMeta properties filled in (the size with `size`), and the
/// vendor, build and debug properties that are set given their locked,
/// release values.
pub proof fn lemma_propstate_spoofs(size: Seq<char>, i: int, cur: Seq<char>)
    requires
        0 <= i < propstate_table(size).len(),
    ensures
        ({
            let rule = propstate_table(size)[i];
            let w = rule_writes(rule, cur);
            let after = value_after(cur, w);
            &&& forall|k: int| 0 <= k < w.len() ==> (#[trigger] w[k]).0 == rule.0
            &&& rule.0 == "sys.usb.adb.disabled"@ ==> after == " "@
            &&& rule.0 == "ro.boot.vbmeta.device_state"@ ==> after == "locked"@
            &&& rule.0 == "ro.boot.verifiedbootstate"@ ==> after == "green"@
            &&& rule.0 == "ro.boot.veritymode"@ ==> after == "enforcing"@
            &&& rule.0 == "ro.boot.warranty_bit"@ ==> after == "0"@
            &&& rule.0 == "ro.boot.flash.locked"@ ==> after == "1"@
            &&& rule.0 == "vendor.boot.bootmode"@ ==> after == (if contains(cur, "recovery"@) { "unknown"@ } else { cur })
            &&& rule.0 == "ro.boot.bootmode"@ ==> after == (if contains(cur, "recovery"@) { "unknown"@ } else { cur })
            &&& rule.0 == "ro.bootmode"@ ==> after == (if contains(cur, "recovery"@) { "unknown"@ } else { cur })
            &&& rule.0 == "ro.boot.vbmeta.invalidate_on_error"@ ==> after == (if cur.len() == 0 { "yes"@ } else { cur })
            &&& rule.0 == "ro.boot.vbmeta.size"@ ==> after == (if cur.len() == 0 { size } else { cur })
            &&& rule.0 == "ro.boot.vbmeta.hash_alg"@ ==> after == (if cur.len() == 0 { "sha256"@ } else { cur })
            &&& rule.0 == "ro.boot.vbmeta.avb_version"@ ==> after == (if cur.len() == 0 { "1.2"@ } else { cur })
            &&& rule.0 == "vendor.boot.vbmeta.device_state"@ ==> after == (if cur.len() == 0 { cur } else { "locked"@ })
            &&& rule.0 == "vendor.boot.verifiedbootstate"@ ==> after == (if cur.len() == 0 { cur } else { "green"@ })
            &&& rule.0 == "ro.secureboot.lockstate"@ ==> after == (if cur.len() == 0 { cur } else { "locked"@ })
            &&& rule.0 == "ro.boot.realmebootstate"@ ==> after == (if cur.len() == 0 { cur } else { "green"@ })
            &&& rule.0 == "ro.vendor.boot.warranty_bit"@ ==> after == (if cur.len() == 0 { cur } else { "0"@ })
            &&& rule.0 == "sys.oem_unlock_allowed"@ ==> after == (if cur.len() == 0 { cur } else { "0"@ })
            &&& rule.0 == "ro.boot.realme.lockstate"@ ==> after == (if cur.len() == 0 { cur } else { "1"@ })
            &&& rule.0 == "ro.build.tags"@ ==> after == (if cur.len() == 0 { cur } else { "release-keys"@ })
            &&& rule.0 == "ro.crypto.state"@ ==> after == (if cur.len() == 0 { cur } else { "encrypted"@ })
            &&& rule.0 == "ro.vendor.warranty_bit"@ ==> after == (if cur.len() == 0 { cur } else { "0"@ })
            &&& rule.0 == "ro.force.debuggable"@ ==> after == (if cur.len() == 0 { cur } else { "0"@ })
            &&& rule.0 == "ro.build.type"@ ==> after == (if cur.len() == 0 { cur } else { "user"@ })
            &&& rule.0 == "ro.warranty_bit"@ ==> after == (if cur.len() == 0 { cur } else { "0"@ })
            &&& rule.0 == "ro.debuggable"@ ==> after == (if cur.len() == 0 { cur } else { "0"@ })
            &&& rule.0 == "ro.kernel.qemu"@ ==> after == (if cur.len() == 0 { cur } else { ""@ })
            &&& rule.0 == "ro.adb.secure"@ ==> after == (if cur.len() == 0 { cur } else { "1"@ })
            &&& rule.0 == "ro.secure"@ ==> after == (if cur.len() == 0 { cur } else { "1"@ })
        }),
{
    reveal_strlit("sys.usb.adb.disabled");
    reveal_strlit("ro.boot.vbmeta.device_state");
    reveal_strlit("ro.boot.verifiedbootstate");
    reveal_strlit("ro.boot.veritymode");
    reveal_strlit("ro.boot.warranty_bit");
    reveal_strlit("ro.boot.flash.locked");
    reveal_strlit("vendor.boot.bootmode");
    reveal_strlit("ro.boot.bootmode");
    reveal_strlit("ro.bootmode");
    reveal_strlit("ro.boot.vbmeta.invalidate_on_error");
    reveal_strlit("ro.boot.vbmeta.size");
    reveal_strlit("ro.boot.vbmeta.hash_alg");
    reveal_strlit("ro.boot.vbmeta.avb_version");
    reveal_strlit("vendor.boot.vbmeta.device_state");
    reveal_strlit("vendor.boot.verifiedbootstate");
    reveal_strlit("ro.secureboot.lockstate");
    reveal_strlit("ro.boot.realmebootstate");
    reveal_strlit("ro.vendor.boot.warranty_bit");
    reveal_strlit("sys.oem_unlock_allowed");
    reveal_strlit("ro.boot.realme.lockstate");
    reveal_strlit("ro.build.tags");
    reveal_strlit("ro.crypto.state");
    reveal_strlit("ro.vendor.warranty_bit");
    reveal_strlit("ro.force.debuggable");
    reveal_strlit("ro.build.type");
    reveal_strlit("ro.warranty_bit");
    reveal_strlit("ro.debuggable");
    reveal_strlit("ro.kernel.qemu");
    reveal_strlit("ro.adb.secure");
    reveal_strlit("ro.secure");
    assert("sys.usb.adb.disabled"@.len() == 20);
    assert("ro.boot.vbmeta.device_state"@.len() == 27);
    assert("ro.boot.verifiedbootstate"@.len() == 25);
    assert("ro.boot.veritymode"@.len() == 18);
    assert("ro.boot.warranty_bit"@.len() == 20);
    assert("ro.boot.flash.locked"@.len() == 20);
    assert("vendor.boot.bootmode"@.len() == 20);
    assert("ro.boot.bootmode"@.len() == 16);
    assert("ro.bootmode"@.len() == 11);
    assert("ro.boot.vbmeta.invalidate_on_error"@.len() == 34);
    assert("ro.boot.vbmeta.size"@.len() == 19);
    assert("ro.boot.vbmeta.hash_alg"@.len() == 23);
    assert("ro.boot.vbmeta.avb_version"@.len() == 26);
    assert("vendor.boot.vbmeta.device_state"@.len() == 31);
    assert("vendor.boot.verifiedbootstate"@.len() == 29);
    assert("ro.secureboot.lockstate"@.len() == 23);
    assert("ro.boot.realmebootstate"@.len() == 23);
    assert("ro.vendor.boot.warranty_bit"@.len() == 27);
    assert("sys.oem_unlock_allowed"@.len() == 22);
    assert("ro.boot.realme.lockstate"@.len() == 24);
    assert("ro.build.tags"@.len() == 13);
    assert("ro.crypto.state"@.len() == 15);
    assert("ro.vendor.warranty_bit"@.len() == 22);
    assert("ro.force.debuggable"@.len() == 19);
    assert("ro.build.type"@.len() == 13);
    assert("ro.warranty_bit"@.len() == 15);
    assert("ro.debuggable"@.len() == 13);
    assert("ro.kernel.qemu"@.len() == 14);
    assert("ro.adb.secure"@.len() == 13);
    assert("ro.secure"@.len() == 9);
    assert("sys.usb.adb.disabled"@[0] != "ro.boot.warranty_bit"@[0]);
    assert("sys.usb.adb.disabled"@[0] != "ro.boot.flash.locked"@[0]);
    assert("sys.usb.adb.disabled"@[0] != "vendor.boot.bootmode"@[0]);
    assert("ro.boot.vbmeta.device_state"@[3] != "ro.vendor.boot.warranty_bit"@[3]);
    assert("ro.boot.warranty_bit"@[8] != "ro.boot.flash.locked"@[8]);
    assert("ro.boot.warranty_bit"@[0] != "vendor.boot.bootmode"@[0]);
    assert("ro.boot.flash.locked"@[0] != "vendor.boot.bootmode"@[0]);
    assert("ro.boot.vbmeta.size"@[3] != "ro.force.debuggable"@[3]);
    assert("ro.boot.vbmeta.hash_alg"@[3] != "ro.secureboot.lockstate"@[3]);
    assert("ro.boot.vbmeta.hash_alg"@[8] != "ro.boot.realmebootstate"@[8]);
    assert("ro.secureboot.lockstate"@[3] != "ro.boot.realmebootstate"@[3]);
    assert("sys.oem_unlock_allowed"@[0] != "ro.vendor.warranty_bit"@[0]);
    assert("ro.build.tags"@[10] != "ro.build.type"@[10]);
    assert("ro.build.tags"@[3] != "ro.debuggable"@[3]);
    assert("ro.build.tags"@[3] != "ro.adb.secure"@[3]);
    assert("ro.crypto.state"@[3] != "ro.warranty_bit"@[3]);
    assert("ro.build.type"@[3] != "ro.debuggable"@[3]);
    assert("ro.build.type"@[3] != "ro.adb.secure"@[3]);
    assert("ro.debuggable"@[3] != "ro.adb.secure"@[3]);
    lemma_rule_outcome(propstate_table(size)[i], cur);
    let t = propstate_table(size);
    if i == 0 {
        assert(t[0] == (("sys.usb.adb.disabled"@), KindView::Always(" "@)));
    }
    if i == 1 {
        assert(t[1] == (("ro.boot.vbmeta.device_state"@), KindView::MissingOrMismatch("locked"@)));
    }
    if i == 2 {
        assert(t[2] == (("ro.boot.verifiedbootstate"@), KindView::MissingOrMismatch("green"@)));
    }
    if i == 3 {
        assert(t[3] == (("ro.boot.veritymode"@), KindView::MissingOrMismatch("enforcing"@)));
    }
    if i == 4 {
        assert(t[4] == (("ro.boot.warranty_bit"@), KindView::MissingOrMismatch("0"@)));
    }
    if i == 5 {
        assert(t[5] == (("ro.boot.flash.locked"@), KindView::MissingOrMismatch("1"@)));
    }
    if i == 6 {
        assert(t[6] == (("vendor.boot.bootmode"@), KindView::ContainsReset("recovery"@, "unknown"@)));
    }
    if i == 7 {
        assert(t[7] == (("ro.boot.bootmode"@), KindView::ContainsReset("recovery"@, "unknown"@)));
    }
    if i == 8 {
        assert(t[8] == (("ro.bootmode"@), KindView::ContainsReset("recovery"@, "unknown"@)));
    }
    if i == 9 {
        assert(t[9] == (("ro.boot.vbmeta.invalidate_on_error"@), KindView::Missing("yes"@)));
    }
    if i == 10 {
        assert(t[10] == (("ro.boot.vbmeta.size"@), KindView::Missing(size)));
    }
    if i == 11 {
        assert(t[11] == (("ro.boot.vbmeta.hash_alg"@), KindView::Missing("sha256"@)));
    }
    if i == 12 {
        assert(t[12] == (("ro.boot.vbmeta.avb_version"@), KindView::Missing("1.2"@)));
    }
    if i == 13 {
        assert(t[13] == (("vendor.boot.vbmeta.device_state"@), KindView::Mismatch("locked"@)));
    }
    if i == 14 {
        assert(t[14] == (("vendor.boot.verifiedbootstate"@), KindView::Mismatch("green"@)));
    }
    if i == 15 {
        assert(t[15] == (("ro.secureboot.lockstate"@), KindView::Mismatch("locked"@)));
    }
    if i == 16 {
        assert(t[16] == (("ro.boot.realmebootstate"@), KindView::Mismatch("green"@)));
    }
    if i == 17 {
        assert(t[17] == (("ro.vendor.boot.warranty_bit"@), KindView::Mismatch("0"@)));
    }
    if i == 18 {
        assert(t[18] == (("sys.oem_unlock_allowed"@), KindView::Mismatch("0"@)));
    }
    if i == 19 {
        assert(t[19] == (("ro.boot.realme.lockstate"@), KindView::Mismatch("1"@)));
    }
    if i == 20 {
        assert(t[20] == (("ro.build.tags"@), KindView::Mismatch("release-keys"@)));
    }
    if i == 21 {
        assert(t[21] == (("ro.crypto.state"@), KindView::Mismatch("encrypted"@)));
    }
    if i == 22 {
        assert(t[22] == (("ro.vendor.warranty_bit"@), KindView::Mismatch("0"@)));
    }
    if i == 23 {
        assert(t[23] == (("ro.force.debuggable"@), KindView::Mismatch("0"@)));
    }
    if i == 24 {
        assert(t[24] == (("ro.build.type"@), KindView::Mismatch("user"@)));
    }
    if i == 25 {
        assert(t[25] == (("ro.warranty_bit"@), KindView::Mismatch("0"@)));
    }
    if i == 26 {
        assert(t[26] == (("ro.debuggable"@), KindView::Mismatch("0"@)));
    }
    if i == 27 {
        assert(t[27] == (("ro.kernel.qemu"@), KindView::Mismatch(""@)));
    }
    if i == 28 {
        assert(t[28] == (("ro.adb.secure"@), KindView::Mismatch("1"@)));
    }
    if i == 29 {
        assert(t[29] == (("ro.secure"@), KindView::Mismatch("1"@)));
    }
}

/// `propstate` has a rule for each of the thirty properties it spoofs, and
/// no more rules than that.
pub proof fn lemma_propstate_covers(size: Seq<char>)
    ensures
        propstate_table(size).len() == 30,
        has_rule(propstate_table(size), "sys.usb.adb.disabled"@),
        has_rule(propstate_table(size), "ro.boot.vbmeta.device_state"@),
        has_rule(propstate_table(size), "ro.boot.verifiedbootstate"@),
        has_rule(propstate_table(size), "ro.boot.veritymode"@),
        has_rule(propstate_table(size), "ro.boot.warranty_bit"@),
        has_rule(propstate_table(size), "ro.boot.flash.locked"@),
        has_rule(propstate_table(size), "vendor.boot.bootmode"@),
        has_rule(propstate_table(size), "ro.boot.bootmode"@),
        has_rule(propstate_table(size), "ro.bootmode"@),
        has_rule(propstate_table(size), "ro.boot.vbmeta.invalidate_on_error"@),
        has_rule(propstate_table(size), "ro.boot.vbmeta.size"@),
        has_rule(propstate_table(size), "ro.boot.vbmeta.hash_alg"@),
        has_rule(propstate_table(size), "ro.boot.vbmeta.avb_version"@),
        has_rule(propstate_table(size), "vendor.boot.vbmeta.device_state"@),
        has_rule(propstate_table(size), "vendor.boot.verifiedbootstate"@),
        has_rule(propstate_table(size), "ro.secureboot.lockstate"@),
        has_rule(propstate_table(size), "ro.boot.realmebootstate"@),
        has_rule(propstate_table(size), "ro.vendor.boot.warranty_bit"@),
        has_rule(propstate_table(size), "sys.oem_unlock_allowed"@),
        has_rule(propstate_table(size), "ro.boot.realme.lockstate"@),
        has_rule(propstate_table(size), "ro.build.tags"@),
        has_rule(propstate_table(size), "ro.crypto.state"@),
        has_rule(propstate_table(size), "ro.vendor.warranty_bit"@),
        has_rule(propstate_table(size), "ro.force.debuggable"@),
        has_rule(propstate_table(size), "ro.build.type"@),
        has_rule(propstate_table(size), "ro.warranty_bit"@),
        has_rule(propstate_table(size), "ro.debuggable"@),
        has_rule(propstate_table(size), "ro.kernel.qemu"@),
        has_rule(propstate_table(size), "ro.adb.secure"@),
        has_rule(propstate_table(size), "ro.secure"@),
{
    assert(propstate_table(size)[0].0 == "sys.usb.adb.disabled"@);
    assert(propstate_table(size)[1].0 == "ro.boot.vbmeta.device_state"@);
    assert(propstate_table(size)[2].0 == "ro.boot.verifiedbootstate"@);
    assert(propstate_table(size)[3].0 == "ro.boot.veritymode"@);
    assert(propstate_table(size)[4].0 == "ro.boot.warranty_bit"@);
    assert(propstate_table(size)[5].0 == "ro.boot.flash.locked"@);
    assert(propstate_table(size)[6].0 == "vendor.boot.bootmode"@);
    assert(propstate_table(size)[7].0 == "ro.boot.bootmode"@);
    assert(propstate_table(size)[8].0 == "ro.bootmode"@);
    assert(propstate_table(size)[9].0 == "ro.boot.vbmeta.invalidate_on_error"@);
    assert(propstate_table(size)[10].0 == "ro.boot.vbmeta.size"@);
    assert(propstate_table(size)[11].0 == "ro.boot.vbmeta.hash_alg"@);
    assert(propstate_table(size)[12].0 == "ro.boot.vbmeta.avb_version"@);
    assert(propstate_table(size)[13].0 == "vendor.boot.vbmeta.device_state"@);
    assert(propstate_table(size)[14].0 == "vendor.boot.verifiedbootstate"@);
    assert(propstate_table(size)[15].0 == "ro.secureboot.lockstate"@);
    assert(propstate_table(size)[16].0 == "ro.boot.realmebootstate"@);
    assert(propstate_table(size)[17].0 == "ro.vendor.boot.warranty_bit"@);
    assert(propstate_table(size)[18].0 == "sys.oem_unlock_allowed"@);
    assert(propstate_table(size)[19].0 == "ro.boot.realme.lockstate"@);
    assert(propstate_table(size)[20].0 == "ro.build.tags"@);
    assert(propstate_table(size)[21].0 == "ro.crypto.state"@);
    assert(propstate_table(size)[22].0 == "ro.vendor.warranty_bit"@);
    assert(propstate_table(size)[23].0 == "ro.force.debuggable"@);
    assert(propstate_table(size)[24].0 == "ro.build.type"@);
    assert(propstate_table(size)[25].0 == "ro.warranty_bit"@);
    assert(propstate_table(size)[26].0 == "ro.debuggable"@);
    assert(propstate_table(size)[27].0 == "ro.kernel.qemu"@);
    assert(propstate_table(size)[28].0 == "ro.adb.secure"@);
    assert(propstate_table(size)[29].0 == "ro.secure"@);
}

/// `vbhash` ends with the property holding the service app's digest: it is
/// set unless it already held it.
pub proof fn lemma_vbhash_sets_digest(now: Seq<char>, hash: Seq<char>, set_digest: Option<Seq<char>>)
    requires
        hash.len() > 0,
        match set_digest {
            Some(d) => d == hash && hash != now,
            None => hash == now,
        },
    ensures
        (match set_digest {
            Some(d) => d,
            None => now,
        }) == hash,
{
}

proof fn lemma_first_tagged_is_hash(ws: Seq<Seq<char>>)
    ensures
        first_tagged(ws) matches Some(h) ==> is_hash(h),
    decreases ws.len(),
{
    if ws.len() > 0 && tagged_hash(ws[0]) is None {
        lemma_first_tagged_is_hash(ws.drop_first());
    }
}

proof fn lemma_first_hex64_is_hash(ws: Seq<Seq<char>>)
    ensures
        first_hex64(ws) matches Some(h) ==> is_hash(h),
    decreases ws.len(),
{
    if ws.len() > 0 {
        if hex_chars(ws[0]).len() == 64 {
            let h = hex_chars(ws[0]);
            assert forall|i: int| 0 <= i < h.len() implies is_hex_digit(#[trigger] h[i]) by {
                ws[0].lemma_filter_pred(|c: char| is_hex_digit(c), i);
            }
        } else {
            lemma_first_hex64_is_hash(ws.drop_first());
        }
    }
}

/// Whatever digest the service app's reply yields is a well-formed one.
pub proof fn lemma_vbhash_in_is_hash(output: Seq<char>)
    ensures
        vbhash_in(output) matches Some(h) ==> is_hash(h),
{
    lemma_first_tagged_is_hash(words(output));
    lemma_first_hex64_is_hash(words(output));
}

/// Hex of `n` bytes has `2n` hexadecimal digits; so 32 random bytes make a
/// well-formed digest.
pub proof fn lemma_hex_is_hash(b: Seq<u8>)
    ensures
        hex_of(b).len() == 2 * b.len(),
        forall|i: int| 0 <= i < hex_of(b).len() ==> is_hex_digit(#[trigger] hex_of(b)[i]),
        b.len() == 32 ==> is_hash(hex_of(b)),
    decreases b.len(),
{
    if b.len() > 0 {
        lemma_hex_is_hash(b.drop_last());
        let h = hex_of(b);
        let p = hex_of(b.drop_last());
        assert forall|i: int| 0 <= i < h.len() implies is_hex_digit(#[trigger] h[i]) by {
            if i < p.len() {
                assert(h[i] == p[i]);
            }
        }
    }
}

} // verus!
