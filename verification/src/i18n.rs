//! Translation of messages through a gettext catalog, chosen by the
//! device's locale.

use vstd::prelude::*;
use crate::text::{contains, replace_first, replace_first_str, str_contains};
use gettext::Catalog;

verus! {

/// `gettext::Catalog`, carried as an opaque value.
#[verifier::external_type_specification]
#[verifier::external_body]
pub struct ExCatalog(gettext::Catalog);

/// What a catalog holds: for each key it stores (a message id, or a context
/// and an id joined by `\u{4}`) whose message has a translated form, the
/// first (singular) form.
pub uninterp spec fn catalog_messages(c: Catalog) -> Map<Seq<char>, Seq<char>>;

/// What gettext's MO parser, with the plural formula fixed (so that the
/// file's `Plural-Forms` header is not read), makes of an MO file: the
/// messages of the catalog, or `None` where it refuses the bytes.
pub uninterp spec fn parsed_messages(mo: Seq<u8>) -> Option<Map<Seq<char>, Seq<char>>>;

/// The plural form for `n` things in English: the singular for one, else
/// the plural. Only singular lookups are made.
pub fn plural_form(n: u64) -> (r: usize)
    ensures
        r == (if n == 1 { 0usize } else { 1usize }),
{
    if n == 1 {
        0
    } else {
        1
    }
}

/// The 32-bit word at `p` of an MO file, big- or little-endian.
pub open spec fn mo_word(mo: Seq<u8>, big: bool, p: int) -> int {
    if big {
        mo[p] * 0x1000000 + mo[p + 1] * 0x10000 + mo[p + 2] * 0x100 + mo[p + 3]
    } else {
        mo[p] + mo[p + 1] * 0x100 + mo[p + 2] * 0x10000 + mo[p + 3] * 0x1000000
    }
}

/// A string-table entry (length, then offset) at `p`, where the file has
/// one, whose end (offset + length + the closing NUL) is a `usize`.
pub open spec fn mo_entry_fits(mo: Seq<u8>, big: bool, p: int) -> bool {
    p + 8 <= mo.len() ==> mo_word(mo, big, p) + mo_word(mo, big, p + 4) + 1 <= usize::MAX
}

/// Row `i` of the original-string table at `ot` and the translation table
/// at `tt` fits.
pub open spec fn mo_row_fits(mo: Seq<u8>, big: bool, ot: int, tt: int, i: int) -> bool {
    mo_entry_fits(mo, big, ot + 8 * i) && mo_entry_fits(mo, big, tt + 8 * i)
}

/// The MO file's magic number in the order its words are stored:
/// `Some(true)` big-endian, `Some(false)` little-endian, `None` no MO file.
pub open spec fn mo_order(mo: Seq<u8>) -> Option<bool> {
    if mo[0] == 0xde && mo[1] == 0x12 && mo[2] == 0x04 && mo[3] == 0x95 {
        Some(false)
    } else if mo[0] == 0x95 && mo[1] == 0x04 && mo[2] == 0x12 && mo[3] == 0xde {
        Some(true)
    } else {
        None
    }
}

/// The only sums gettext's MO parser forms that can exceed `usize` are the
/// ends of string-table entries, each offset and length being below 2^32;
/// this holds when each entry of the header's string count that lies in the
/// file ends within `usize`. Files too short for a header, without the
/// magic number, or whose tables start past their end are refused before
/// any such sum. With 64-bit `usize` it holds of every file.
pub open spec fn mo_offsets_fit(mo: Seq<u8>) -> bool {
    ||| mo.len() < 28
    ||| mo_order(mo) is None
    ||| {
        let big = mo_order(mo)->0;
        let num = mo_word(mo, big, 8);
        let ot = mo_word(mo, big, 12);
        let tt = mo_word(mo, big, 16);
        ||| mo.len() < ot
        ||| mo.len() < tt
        ||| forall|i: int| 0 <= i < num ==> #[trigger] mo_row_fits(mo, big, ot, tt, i)
    }
}

fn read_word(mo: &[u8], big: bool, p: u64) -> (r: u64)
    requires
        p + 4 <= mo@.len(),
    ensures
        r == mo_word(mo@, big, p as int),
        r < 0x1_0000_0000,
{
    let q = p as usize;
    let b0 = mo[q] as u64;
    let b1 = mo[q + 1] as u64;
    let b2 = mo[q + 2] as u64;
    let b3 = mo[q + 3] as u64;
    if big {
        b0 * 0x1000000 + b1 * 0x10000 + b2 * 0x100 + b3
    } else {
        b0 + b1 * 0x100 + b2 * 0x10000 + b3 * 0x1000000
    }
}

fn entry_fits(mo: &[u8], big: bool, p: u64) -> (r: bool)
    ensures
        r == mo_entry_fits(mo@, big, p as int),
{
    if p > (mo.len() as u64) || (mo.len() as u64) - p < 8 {
        return true;
    }
    let len = read_word(mo, big, p);
    let off = read_word(mo, big, p + 4);
    (len as u128) + (off as u128) + 1 <= (usize::MAX as u128)
}

/// Whether gettext's MO parser can take `mo` without its offset arithmetic
/// overflowing (see [`mo_offsets_fit`]).
pub fn offsets_fit(mo: &[u8]) -> (r: bool)
    ensures
        r == mo_offsets_fit(mo@),
{
    let n = mo.len() as u64;
    if n < 28 {
        return true;
    }
    let big = if mo[0] == 0xde && mo[1] == 0x12 && mo[2] == 0x04 && mo[3] == 0x95 {
        false
    } else if mo[0] == 0x95 && mo[1] == 0x04 && mo[2] == 0x12 && mo[3] == 0xde {
        true
    } else {
        return true;
    };
    assert(mo_order(mo@) == Some(big));
    let num = read_word(mo, big, 8);
    let ot = read_word(mo, big, 12);
    let tt = read_word(mo, big, 16);
    if n < ot || n < tt {
        return true;
    }
    let mut i: u64 = 0;
    while i < num
        invariant
            i <= num < 0x1_0000_0000,
            ot < 0x1_0000_0000,
            tt < 0x1_0000_0000,
            n == mo@.len(),
            n >= 28,
            mo_order(mo@) == Some(big),
            num == mo_word(mo@, big, 8),
            ot == mo_word(mo@, big, 12),
            tt == mo_word(mo@, big, 16),
            ot <= n,
            tt <= n,
            forall|k: int| 0 <= k < i ==> #[trigger] mo_row_fits(mo@, big, ot as int, tt as int, k),
        decreases num - i,
    {
        let po = ot + 8 * i;
        let pt = tt + 8 * i;
        if po + 8 > n && pt + 8 > n {
            assert forall|k: int| 0 <= k < num implies #[trigger] mo_row_fits(mo@, big, ot as int, tt as int, k) by {
                if k >= i {
                    assert(ot + 8 * k + 8 > n);
                    assert(tt + 8 * k + 8 > n);
                }
            }
            return true;
        }
        if !entry_fits(mo, big, po) || !entry_fits(mo, big, pt) {
            assert(!mo_row_fits(mo@, big, ot as int, tt as int, i as int));
            return false;
        }
        i += 1;
    }
    true
}

/// `gettext::Catalog::gettext`: the singular translation of `msgid` when the
/// catalog holds one, else `msgid` itself.
#[verifier::external_body]
fn catalog_gettext(c: &Catalog, msgid: &str) -> (r: String)
    ensures
        r@ == (if catalog_messages(*c).contains_key(msgid@) {
            catalog_messages(*c)[msgid@]
        } else {
            msgid@
        }),
{
    c.gettext(msgid).to_string()
}

/// `gettext::ParseOptions::parse` on the bytes of an MO file, with the
/// plural formula forced to [`plural_form`] and the error dropped: a catalog
/// exactly when the bytes parse, holding the messages they give. Forcing the
/// formula keeps the parser from reading the file's `Plural-Forms`
/// expression, whose parser can panic on malformed input; the `requires`
/// keeps its offset arithmetic from overflowing.
#[verifier::external_body]
fn parse_catalog(mo: &[u8]) -> (r: Option<Catalog>)
    requires
        mo_offsets_fit(mo@),
    ensures
        r is Some <==> parsed_messages(mo@) is Some,
        r matches Some(c) ==> catalog_messages(c) == parsed_messages(mo@)->0,
{
    gettext::ParseOptions::new().force_plural(plural_form).parse(mo).ok()
}

/// The locale is Chinese when either locale property mentions `zh`.
pub open spec fn chinese_locale(locale: Seq<char>, product: Seq<char>) -> bool {
    contains(locale, "zh"@) || contains(product, "zh"@)
}

/// Whether the device speaks Chinese, given the `persist.sys.locale` and
/// `ro.product.locale` properties.
pub fn is_chinese(locale: &str, product: &str) -> (r: bool)
    ensures
        r == chinese_locale(locale@, product@),
{
    str_contains(locale, "zh") || str_contains(product, "zh")
}

/// The catalog to translate with: the Chinese one, parsed from its MO file,
/// on a Chinese device; none (messages pass through) otherwise or when the
/// file does not parse. A file on which gettext's parser would overflow
/// (see [`mo_offsets_fit`]; possible with 32-bit `usize` only) gives none
/// too, where the parser itself would panic.
///
/// The file is parsed with the plural formula fixed to [`plural_form`]
/// instead of the one its `Plural-Forms` header gives. Only singular
/// lookups are made, and for them the formula plays no part, so the
/// translations are the same; but where that header holds an expression
/// gettext cannot parse, gettext's own reading of it refuses the file (or,
/// for some malformed headers, panics), while here the file still loads.
pub fn init(zh_cn_mo: &[u8], chinese: bool) -> (r: Option<Catalog>)
    ensures
        !chinese || !mo_offsets_fit(zh_cn_mo@) ==> r is None,
        chinese && mo_offsets_fit(zh_cn_mo@) ==> (r is Some <==> parsed_messages(zh_cn_mo@) is Some),
        r matches Some(c) ==> catalog_messages(c) == parsed_messages(zh_cn_mo@)->0,
{
    if chinese && offsets_fit(zh_cn_mo) {
        parse_catalog(zh_cn_mo)
    } else {
        None
    }
}

/// The translation of `msgid` under an optional catalog.
pub open spec fn translated(catalog: Option<Catalog>, msgid: Seq<char>) -> Seq<char> {
    match catalog {
        Some(c) => if catalog_messages(c).contains_key(msgid) {
            catalog_messages(c)[msgid]
        } else {
            msgid
        },
        None => msgid,
    }
}

pub open spec fn opt_catalog(catalog: Option<&Catalog>) -> Option<Catalog> {
    match catalog {
        Some(c) => Some(*c),
        None => None,
    }
}

/// Translates a message; `msgid` itself when there is no catalog or no
/// translation.
pub fn t(catalog: Option<&Catalog>, msgid: &str) -> (r: String)
    ensures
        r@ == translated(opt_catalog(catalog), msgid@),
{
    match catalog {
        Some(c) => catalog_gettext(c, msgid),
        None => msgid.to_owned(),
    }
}

/// Translates a message and puts `arg` in place of its first `%s`.
pub fn t_fmt(catalog: Option<&Catalog>, msgid: &str, arg: &str) -> (r: String)
    ensures
        r@ == replace_first(translated(opt_catalog(catalog), msgid@), "%s"@, arg@),
{
    let m = t(catalog, msgid);
    proof {
        reveal_strlit("%s");
    }
    replace_first_str(m.as_str(), "%s", arg)
}

} // verus!
