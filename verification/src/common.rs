//! Where the toolkit and TrickyStore keep their files on the device.

use vstd::prelude::*;
use crate::props::{all_digits, decimal_value};
use crate::text::{lines, lines_of, trim, trim_str, chars_of, is_digit, lit, push_char, views, words, words_of};

verus! {

pub const ADB: &'static str = "/data/adb";

pub const MODULES: &'static str = "/data/adb/modules";

pub const SERVICE_D: &'static str = "/data/adb/service.d";

pub const TS: &'static str = "tricky_store";

pub const UTS: &'static str = "untrickystore";

/// The user's exclusion list, in the configuration directory.
pub const USR_LIST: &'static str = "usr.txt";

/// The list of packages always targeted, in the configuration directory.
pub const SYS_LIST: &'static str = "sys.txt";

/// TrickyStore's package list, in its module directory.
pub const TARGET_FILE: &'static str = "target.txt";

/// The detected root solution, in the configuration directory.
pub const ROOT_FILE: &'static str = "root.txt";

/// Root solutions present only in the kernel, in the configuration directory.
pub const KERNEL_FILE: &'static str = "kernel.txt";

/// The active root solutions when there are several, in the configuration
/// directory.
pub const MULTIPLE_FILE: &'static str = "multiple.txt";

/// A module's properties, in its module directory.
pub const MODULE_PROP: &'static str = "module.prop";

/// TrickyStore's start script, in its module directory.
pub const SERVICE_SH: &'static str = "service.sh";

/// The service app that reports the VBMeta digest, in this module's directory.
pub const SERVICE_APK: &'static str = "service.apk";

/// The bundled WebUI host, in this module's directory.
pub const WEBUI_APK: &'static str = "webui.apk";

/// The cached VBMeta digest, in the configuration directory.
pub const VBHASH_CACHE: &'static str = "verifiedboothash.txt";

/// `base/name`.
pub fn join_path(base: &str, name: &str) -> (r: String)
    ensures
        r@ == base@ + seq!['/'] + name@,
{
    let mut r = base.to_owned();
    r.append("/");
    proof {
        reveal_strlit("/");
    }
    r.append(name);
    r
}

/// TrickyStore's module directory.
pub fn ts_dir() -> (r: String)
    ensures
        r@ == MODULES@ + seq!['/'] + TS@,
{
    join_path(MODULES, TS)
}

/// This toolkit's module directory.
pub fn uts_dir() -> (r: String)
    ensures
        r@ == MODULES@ + seq!['/'] + UTS@,
{
    join_path(MODULES, UTS)
}

/// This toolkit's configuration directory.
pub fn uts_cfg() -> (r: String)
    ensures
        r@ == ADB@ + seq!['/'] + UTS@,
{
    join_path(ADB, UTS)
}

/// TrickyStore's configuration directory.
pub fn ts_cfg() -> (r: String)
    ensures
        r@ == ADB@ + seq!['/'] + TS@,
{
    join_path(ADB, TS)
}

/// The directory of this toolkit's executables.
pub fn uts_bin() -> (r: String)
    ensures
        r@ == MODULES@ + seq!['/'] + UTS@ + seq!['/'] + "bin"@,
{
    join_path(uts_dir().as_str(), "bin")
}

/// The log file.
pub fn log_path() -> (r: String)
    ensures
        r@ == ADB@ + seq!['/'] + UTS@ + seq!['/'] + "log"@ + seq!['/'] + "log.log"@,
{
    let dir = join_path(uts_cfg().as_str(), "log");
    join_path(dir.as_str(), "log.log")
}

/// A file in the toolkit's configuration directory.
pub fn cfg_file(name: &str) -> (r: String)
    ensures
        r@ == ADB@ + seq!['/'] + UTS@ + seq!['/'] + name@,
{
    join_path(uts_cfg().as_str(), name)
}

/// A file in TrickyStore's module directory.
pub fn ts_file(name: &str) -> (r: String)
    ensures
        r@ == MODULES@ + seq!['/'] + TS@ + seq!['/'] + name@,
{
    join_path(ts_dir().as_str(), name)
}

/// A file in this toolkit's module directory.
pub fn uts_file(name: &str) -> (r: String)
    ensures
        r@ == MODULES@ + seq!['/'] + UTS@ + seq!['/'] + name@,
{
    join_path(uts_dir().as_str(), name)
}

/// The directories `init-cfg` creates in the configuration directory.
pub fn init_cfg_dirs() -> (r: Vec<String>)
    ensures
        views(r@) == seq![
            ADB@ + seq!['/'] + UTS@ + seq!['/'] + "keybox"@,
            ADB@ + seq!['/'] + UTS@ + seq!['/'] + "log"@,
        ],
{
    let mut r: Vec<String> = Vec::new();
    r.push(cfg_file("keybox"));
    r.push(cfg_file("log"));
    assert(views(r@) =~= seq![
        ADB@ + seq!['/'] + UTS@ + seq!['/'] + "keybox"@,
        ADB@ + seq!['/'] + UTS@ + seq!['/'] + "log"@,
    ]);
    r
}

/// The files `init-cfg` creates, empty, when they are missing.
pub fn init_cfg_files() -> (r: Vec<String>)
    ensures
        views(r@) == seq![
            ADB@ + seq!['/'] + UTS@ + seq!['/'] + "usr.txt"@,
            ADB@ + seq!['/'] + UTS@ + seq!['/'] + "sys.txt"@,
            ADB@ + seq!['/'] + UTS@ + seq!['/'] + "security_patch.txt"@,
        ],
{
    let mut r: Vec<String> = Vec::new();
    r.push(cfg_file("usr.txt"));
    r.push(cfg_file("sys.txt"));
    r.push(cfg_file("security_patch.txt"));
    assert(views(r@) =~= seq![
        ADB@ + seq!['/'] + UTS@ + seq!['/'] + "usr.txt"@,
        ADB@ + seq!['/'] + UTS@ + seq!['/'] + "sys.txt"@,
        ADB@ + seq!['/'] + UTS@ + seq!['/'] + "security_patch.txt"@,
    ]);
    r
}

/// The decimal digit for `d` (below 10).
pub open spec fn digit_char(d: int) -> char {
    (('0' as int) + d) as char
}

/// The decimal digits of `n`, without leading zeros.
pub open spec fn decimal(n: nat) -> Seq<char>
    decreases n,
{
    if n < 10 {
        seq![digit_char(n as int)]
    } else {
        decimal(n / 10).push(digit_char((n % 10) as int))
    }
}

/// `n` in decimal, with a `-` when negative (`Display` for integers).
pub open spec fn int_text(n: int) -> Seq<char> {
    if n < 0 {
        seq!['-'] + decimal((-n) as nat)
    } else {
        decimal(n as nat)
    }
}

/// `n` as `format!("{n:0w$}")` writes it: the sign, then zeros up to a total
/// width of `w`, then the digits.
pub open spec fn zero_padded(n: int, w: nat) -> Seq<char> {
    let sign = if n < 0 {
        seq!['-']
    } else {
        Seq::<char>::empty()
    };
    let digits = decimal((if n < 0 { -n } else { n }) as nat);
    let used = sign.len() + digits.len();
    sign + Seq::new(if w > used { (w - used) as nat } else { 0 }, |i: int| '0') + digits
}

/// Appends the decimal digits of `n`.
pub fn push_decimal(s: &mut String, n: u64)
    ensures
        final(s)@ == old(s)@ + decimal(n as nat),
    decreases n,
{
    if n >= 10 {
        push_decimal(s, n / 10);
    }
    let d: u8 = (n % 10) as u8;
    push_char(s, ((48 + d) as char));
    proof {
        assert(((48 + d) as char) == digit_char((n % 10) as int));
    }
}

fn magnitude(n: i64) -> (r: u64)
    ensures
        r as int == (if n < 0 { -(n as int) } else { n as int }),
{
    if n < 0 {
        ((-(n + 1)) as u64) + 1
    } else {
        n as u64
    }
}

/// `n` in decimal (`n.to_string()`).
pub fn int_to_text(n: i64) -> (r: String)
    ensures
        r@ == int_text(n as int),
{
    let mut s = String::new();
    if n < 0 {
        push_char(&mut s, '-');
    }
    push_decimal(&mut s, magnitude(n));
    s
}

spec fn pow10(k: nat) -> nat
    decreases k,
{
    if k == 0 {
        1
    } else {
        10 * pow10((k - 1) as nat)
    }
}

proof fn lemma_decimal_len(n: nat, k: nat)
    requires
        k >= 1,
        n < pow10(k),
    ensures
        decimal(n).len() <= k,
    decreases k,
{
    if n >= 10 {
        if k == 1 {
            assert(pow10(1) == 10 * pow10(0));
        } else {
            assert(pow10(k) == 10 * pow10((k - 1) as nat));
            lemma_decimal_len(n / 10, (k - 1) as nat);
        }
    }
}

/// `n` zero-padded to width `w` (`format!("{n:0w$}")`).
pub fn pad_int(n: i64, w: usize) -> (r: String)
    ensures
        r@ == zero_padded(n as int, w as nat),
{
    let mut digits = String::new();
    let m: u64 = magnitude(n);
    push_decimal(&mut digits, m);
    let ghost sign = if n < 0 {
        seq!['-']
    } else {
        Seq::<char>::empty()
    };
    let mut s = String::new();
    let mut used: usize = digits.as_str().unicode_len();
    if n < 0 {
        push_char(&mut s, '-');
        used = if used < usize::MAX { used + 1 } else { used };
    }
    proof {
        reveal_with_fuel(pow10, 21);
        assert(pow10(20) == 100000000000000000000nat);
        lemma_decimal_len(m as nat, 20);
    }
    assert(used as int == sign.len() + digits@.len());
    let zeros: usize = if w > used { w - used } else { 0 };
    let mut k: usize = 0;
    while k < zeros
        invariant
            k <= zeros,
            s@ == sign + Seq::new(k as nat, |i: int| '0'),
        decreases zeros - k,
    {
        push_char(&mut s, '0');
        assert(Seq::new((k + 1) as nat, |i: int| '0') =~= Seq::new(k as nat, |i: int| '0').push('0'));
        k += 1;
    }
    s.append(digits.as_str());
    s
}

/// The severity of a log record.
#[derive(PartialEq, Eq, Structural, Clone, Copy, Debug)]
pub enum LogLevel {
    Error,
    Warn,
    Info,
    Debug,
    Trace,
}

/// The letter a level is logged with: E, W, or I for the rest.
pub open spec fn level_letter(l: LogLevel) -> char {
    match l {
        LogLevel::Error => 'E',
        LogLevel::Warn => 'W',
        _ => 'I',
    }
}

/// A line of the log file, in logcat's layout:
/// `<time>  <pid>  <pid> <level> System.out: [UTS]<<tag>><message>` and a
/// newline.
pub open spec fn log_line(ts: Seq<char>, pid: int, level: LogLevel, tag: Seq<char>, msg: Seq<char>) -> Seq<char> {
    ts + "  "@ + int_text(pid) + "  "@ + int_text(pid) + seq![' ', level_letter(level)]
        + " System.out: [UTS]<"@ + tag + ">"@ + msg + seq!['\n']
}

/// Formats a log record as a line of the log file.
pub fn format_log_line(ts: &str, pid: i32, level: LogLevel, tag: &str, msg: &str) -> (r: String)
    ensures
        r@ == log_line(ts@, pid as int, level, tag@, msg@),
{
    let p = int_to_text(pid as i64);
    let mut r = lit(ts);
    r.append("  ");
    r.append(p.as_str());
    r.append("  ");
    r.append(p.as_str());
    push_char(&mut r, ' ');
    let letter = match level {
        LogLevel::Error => 'E',
        LogLevel::Warn => 'W',
        _ => 'I',
    };
    push_char(&mut r, letter);
    r.append(" System.out: [UTS]<");
    r.append(tag);
    r.append(">");
    r.append(msg);
    push_char(&mut r, '\n');
    r
}

/// The time stamp of a log line, `MM-DD hh:mm:ss.mmm`, from the fields of
/// the local time (`tm_mon` counting from 0) and the nanoseconds.
pub open spec fn timestamp_text(mon: int, mday: int, hour: int, min: int, sec: int, nsec: int) -> Seq<char> {
    zero_padded(mon + 1, 2) + seq!['-'] + zero_padded(mday, 2) + seq![' '] + zero_padded(hour, 2)
        + seq![':'] + zero_padded(min, 2) + seq![':'] + zero_padded(sec, 2) + seq!['.']
        + zero_padded(millis_of(nsec), 3)
}

/// Whole milliseconds in `nsec` nanoseconds, rounded toward zero as integer
/// division does.
pub open spec fn millis_of(nsec: int) -> int {
    if nsec >= 0 {
        nsec / 1000000
    } else {
        -((-nsec) / 1000000)
    }
}

/// Formats the time stamp of a log line.
pub fn format_timestamp(tm_mon: i32, tm_mday: i32, tm_hour: i32, tm_min: i32, tm_sec: i32, tv_nsec: i64) -> (r: String)
    ensures
        r@ == timestamp_text(tm_mon as int, tm_mday as int, tm_hour as int, tm_min as int, tm_sec as int, tv_nsec as int),
{
    let mut r = pad_int(tm_mon as i64 + 1, 2);
    push_char(&mut r, '-');
    r.append(pad_int(tm_mday as i64, 2).as_str());
    push_char(&mut r, ' ');
    r.append(pad_int(tm_hour as i64, 2).as_str());
    push_char(&mut r, ':');
    r.append(pad_int(tm_min as i64, 2).as_str());
    push_char(&mut r, ':');
    r.append(pad_int(tm_sec as i64, 2).as_str());
    push_char(&mut r, '.');
    let m: u64 = magnitude(tv_nsec) / 1000000;
    let millis: i64 = if tv_nsec >= 0 {
        m as i64
    } else {
        0 - (m as i64)
    };
    r.append(pad_int(millis, 3).as_str());
    r
}

/// `s` without one leading sign.
pub open spec fn signed_digits(s: Seq<char>) -> Seq<char> {
    if s.len() > 0 && (s[0] == '+' || s[0] == '-') {
        s.drop_first()
    } else {
        s
    }
}

/// `i32::from_str`: an optional sign, then one or more decimal digits whose
/// signed value fits in an `i32`.
pub open spec fn parsed_i32(s: Seq<char>) -> Option<i32> {
    let neg = s.len() > 0 && s[0] == '-';
    let d = signed_digits(s);
    let v = if neg {
        -(decimal_value(d) as int)
    } else {
        decimal_value(d) as int
    };
    if d.len() > 0 && all_digits(d) && i32::MIN <= v <= i32::MAX {
        Some(v as i32)
    } else {
        None
    }
}

/// Parses an `i32` as `str::parse::<i32>` does.
pub fn parse_i32(s: &str) -> (r: Option<i32>)
    ensures
        r == parsed_i32(s@),
{
    let v = chars_of(s);
    let neg = v.len() > 0 && v[0] == '-';
    let start: usize = if v.len() > 0 && (v[0] == '+' || v[0] == '-') {
        1
    } else {
        0
    };
    let ghost d = v@.subrange(start as int, v.len() as int);
    assert(start == 1 ==> d =~= s@.drop_first());
    assert(start == 0 ==> d =~= s@);
    if start == v.len() {
        return None;
    }
    let mut val: u64 = 0;
    let mut over = false;
    let mut i: usize = start;
    while i < v.len()
        invariant
            start <= i <= v.len(),
            v@ == s@,
            d == signed_digits(s@),
            d == v@.subrange(start as int, v.len() as int),
            forall|k: int| 0 <= k < i - start ==> is_digit(#[trigger] d[k]),
            !over ==> val == decimal_value(d.take(i - start)) && val <= 2147483648,
            over ==> decimal_value(d.take(i - start)) > 2147483648,
        decreases v.len() - i,
    {
        let c = v[i];
        assert(d[i - start] == c);
        if !('0' <= c && c <= '9') {
            assert(!is_digit(d[i - start]));
            assert(!all_digits(d));
            return None;
        }
        assert(d.take(i - start + 1).drop_last() =~= d.take(i - start));
        assert(d.take(i - start + 1).last() == c);
        if !over {
            val = val * 10 + ((c as u64) - 48);
            if val > 2147483648 {
                over = true;
            }
        }
        i += 1;
    }
    assert(d.take(d.len() as int) =~= d);
    assert(all_digits(d));
    if over {
        None
    } else if neg {
        Some((0 - (val as i64)) as i32)
    } else if val <= 2147483647 {
        Some(val as i32)
    } else {
        None
    }
}

/// The process ids in `pidof` output: each word that parses as an `i32`.
pub open spec fn pids_in(output: Seq<char>) -> Seq<i32> {
    words(output).filter(|w: Seq<char>| parsed_i32(w) is Some).map_values(|w: Seq<char>| parsed_i32(w)->0)
}

/// The process ids `kill_9` signals, read from `pidof` output.
pub fn parse_pids(output: &str) -> (r: Vec<i32>)
    ensures
        r@ == pids_in(output@),
{
    let ws = words_of(output);
    let ghost w = words(output@);
    let ghost pred = |x: Seq<char>| parsed_i32(x) is Some;
    let ghost f = |x: Seq<char>| parsed_i32(x)->0;
    let mut r: Vec<i32> = Vec::new();
    let mut i: usize = 0;
    proof {
        reveal_with_fuel(Seq::<_>::filter, 1);
        assert(w.take(0) =~= Seq::<Seq<char>>::empty());
        assert(r@ =~= w.take(0).filter(pred).map_values(f));
    }
    while i < ws.len()
        invariant
            i <= ws.len(),
            views(ws@) == w,
            w == words(output@),
            pred == (|x: Seq<char>| parsed_i32(x) is Some),
            f == (|x: Seq<char>| parsed_i32(x)->0),
            r@ == w.take(i as int).filter(pred).map_values(f),
        decreases ws.len() - i,
    {
        assert(views(ws@)[i as int] == ws@[i as int]@);
        let ghost tt = w.take(i + 1);
        proof {
            reveal_with_fuel(Seq::<_>::filter, 1);
            assert(tt.drop_last() =~= w.take(i as int));
            assert(tt.last() == ws@[i as int]@);
        }
        match parse_i32(ws[i].as_str()) {
            Some(p) => {
                r.push(p);
                proof {
                    reveal_with_fuel(Seq::<_>::filter, 1);
                    assert(tt.filter(pred) == w.take(i as int).filter(pred).push(tt.last()));
                    assert(r@ =~= tt.filter(pred).map_values(f));
                }
            },
            None => {
                proof {
                    reveal_with_fuel(Seq::<_>::filter, 1);
                    assert(tt.filter(pred) == w.take(i as int).filter(pred));
                }
            },
        }
        i += 1;
    }
    assert(w.take(ws.len() as int) =~= w);
    r
}

/// The lines of a file's content that are not blank (white space only).
pub open spec fn nonblank_lines(content: Seq<char>) -> Seq<Seq<char>> {
    lines(content).filter(|l: Seq<char>| trim(l).len() > 0)
}

/// The non-blank lines of a file, given its content (the reading is the
/// caller's; a missing file reads as "").
pub fn read_lines(content: &str) -> (r: Vec<String>)
    ensures
        views(r@) == nonblank_lines(content@),
{
    let ls = lines_of(content);
    let ghost l = lines(content@);
    let ghost pred = |x: Seq<char>| trim(x).len() > 0;
    let mut r: Vec<String> = Vec::new();
    let mut i: usize = 0;
    proof {
        reveal_with_fuel(Seq::<_>::filter, 1);
        assert(l.take(0) =~= Seq::<Seq<char>>::empty());
        assert(views(r@) =~= l.take(0).filter(pred));
    }
    while i < ls.len()
        invariant
            i <= ls.len(),
            views(ls@) == l,
            l == lines(content@),
            pred == (|x: Seq<char>| trim(x).len() > 0),
            views(r@) == l.take(i as int).filter(pred),
        decreases ls.len() - i,
    {
        assert(views(ls@)[i as int] == ls@[i as int]@);
        let ghost tt = l.take(i + 1);
        proof {
            reveal_with_fuel(Seq::<_>::filter, 1);
            assert(tt.drop_last() =~= l.take(i as int));
            assert(tt.last() == ls@[i as int]@);
        }
        let t = trim_str(ls[i].as_str());
        if !t.as_str().is_empty() {
            let ghost before = r@;
            r.push(ls[i].clone());
            proof {
                reveal_with_fuel(Seq::<_>::filter, 1);
                assert(views(r@) =~= views(before).push(tt.last()));
            }
        } else {
            proof {
                reveal_with_fuel(Seq::<_>::filter, 1);
            }
        }
        i += 1;
    }
    assert(l.take(ls.len() as int) =~= l);
    r
}

} // verus!
