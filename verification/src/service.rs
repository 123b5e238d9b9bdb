//! Service control for TrickyStore and this toolkit's daemon, and the
//! module description `status` writes.

use vstd::prelude::*;
use crate::common::{join_path, ts_dir, MODULES, TS, UTS};
use crate::daemon::uts_bin_path;
use crate::i18n::{opt_catalog, t, t_fmt, translated};
use crate::text::{
    contains, find_line_with_prefix, find_prefixed, has_prefix, join, join_strings, lines,
    lines_of, lit, str_eq, lemma_lines_join_any, lemma_lines_no_newline, no_newline, strip_cr, strip_crs, replace_first, starts_with_at, str_contains, chars_of, trim, trim_str, views,
};
use gettext::Catalog;

verus! {

/// The TrickyStore build installed, told apart by its module description.
#[derive(PartialEq, Eq, Structural, Clone, Copy, Debug)]
pub enum TsVariant {
    /// No TrickyStore `module.prop`.
    Unknown,
    /// TrickyStoreOSS.
    Oss,
    /// TEESimulator.
    Simulator,
    /// Any other build.
    Standard,
}

/// The variant a TrickyStore `module.prop` (`None` when missing) names: by
/// what its first `description=` line mentions.
pub open spec fn ts_variant_of(prop: Option<Seq<char>>) -> TsVariant {
    match prop {
        None => TsVariant::Unknown,
        Some(c) => {
            let desc = match find_prefixed(lines(c), "description="@) {
                Some(l) => l,
                None => Seq::empty(),
            };
            if contains(desc, "OSS"@) || contains(desc, "oss"@) {
                TsVariant::Oss
            } else if contains(desc, "Simulator"@) || contains(desc, "simulator"@) {
                TsVariant::Simulator
            } else {
                TsVariant::Standard
            }
        },
    }
}

/// Detects the TrickyStore variant from the content of its `module.prop`
/// (`None` when the file is missing).
pub fn detect_ts_variant(prop: Option<&str>) -> (r: TsVariant)
    ensures
        r == ts_variant_of(match prop {
            Some(c) => Some(c@),
            None => None,
        }),
{
    match prop {
        None => TsVariant::Unknown,
        Some(c) => {
            let desc = match find_line_with_prefix(c, "description=") {
                Some(l) => l,
                None => String::new(),
            };
            let d = desc.as_str();
            if str_contains(d, "OSS") || str_contains(d, "oss") {
                TsVariant::Oss
            } else if str_contains(d, "Simulator") || str_contains(d, "simulator") {
                TsVariant::Simulator
            } else {
                TsVariant::Standard
            }
        },
    }
}

/// The process name of TrickyStore's daemon for a variant.
pub open spec fn daemon_name_of(v: TsVariant) -> Seq<char> {
    match v {
        TsVariant::Simulator => "trick_simulator"@,
        _ => "trick_store"@,
    }
}

/// The process name of TrickyStore's daemon.
pub fn ts_daemon_name(v: TsVariant) -> (r: String)
    ensures
        r@ == daemon_name_of(v),
{
    match v {
        TsVariant::Oss => lit("trick_store"),
        TsVariant::Simulator => lit("trick_simulator"),
        _ => lit("trick_store"),
    }
}

/// What `ts-ctl` and `uts-ctl` are asked to do.
#[derive(PartialEq, Eq, Structural, Clone, Copy, Debug)]
pub enum CtlAction {
    Stop,
    Start,
    Restart,
}

/// The action an argument names, if any.
pub open spec fn action_of(a: Seq<char>) -> Option<CtlAction> {
    if a == "stop"@ {
        Some(CtlAction::Stop)
    } else if a == "start"@ {
        Some(CtlAction::Start)
    } else if a == "restart"@ {
        Some(CtlAction::Restart)
    } else {
        None
    }
}

/// Parses the action argument of `cmd` (`ts-ctl` or `uts-ctl`); an unknown
/// action is the error `<cmd>: unknown action '<action>'`.
pub fn parse_action(cmd: &str, action: &str) -> (r: Result<CtlAction, String>)
    ensures
        match action_of(action@) {
            Some(a) => r == Ok::<CtlAction, String>(a),
            None => r matches Err(e) && e@ == cmd@ + ": unknown action '"@ + action@ + "'"@,
        },
{
    if str_eq(action, "stop") {
        Ok(CtlAction::Stop)
    } else if str_eq(action, "start") {
        Ok(CtlAction::Start)
    } else if str_eq(action, "restart") {
        Ok(CtlAction::Restart)
    } else {
        let mut e = cmd.to_owned();
        e.append(": unknown action '");
        e.append(action);
        e.append("'");
        Err(e)
    }
}

/// One thing a service control command does, in order.
pub enum CtlStep {
    /// `kill -9` every process of this name.
    Kill(String),
    /// Wait this many milliseconds.
    Sleep(u64),
    /// Start `sh <script>` in the background.
    RunScript(String),
    /// Start `<program> daemon` in the background.
    StartDaemon(String),
}

/// The steps as plain values.
pub enum StepView {
    Kill(Seq<char>),
    Sleep(u64),
    RunScript(Seq<char>),
    StartDaemon(Seq<char>),
}

pub open spec fn step_view(s: CtlStep) -> StepView {
    match s {
        CtlStep::Kill(n) => StepView::Kill(n@),
        CtlStep::Sleep(ms) => StepView::Sleep(ms),
        CtlStep::RunScript(p) => StepView::RunScript(p@),
        CtlStep::StartDaemon(p) => StepView::StartDaemon(p@),
    }
}

pub open spec fn step_views(s: Seq<CtlStep>) -> Seq<StepView> {
    s.map_values(|x: CtlStep| step_view(x))
}

/// TrickyStore's start script.
pub open spec fn service_sh_path() -> Seq<char> {
    MODULES@ + seq!['/'] + TS@ + seq!['/'] + "service.sh"@
}

/// The steps of `ts-ctl`: stop kills the daemon; start does nothing when
/// it runs already, runs `service.sh` when that exists and otherwise fails
/// with the (translated) message "TrickyStore service.sh not found";
/// restart kills, waits half a second and runs `service.sh` if it exists.
pub open spec fn ts_ctl_steps(
    action: CtlAction,
    variant: TsVariant,
    running: bool,
    service_sh_exists: bool,
    catalog: Option<Catalog>,
) -> Result<Seq<StepView>, Seq<char>> {
    let d = daemon_name_of(variant);
    match action {
        CtlAction::Stop => Ok(seq![StepView::Kill(d)]),
        CtlAction::Start => if running {
            Ok(Seq::empty())
        } else if service_sh_exists {
            Ok(seq![StepView::RunScript(service_sh_path())])
        } else {
            Err(translated(catalog, "TrickyStore service.sh not found"@))
        },
        CtlAction::Restart => if service_sh_exists {
            Ok(seq![StepView::Kill(d), StepView::Sleep(500), StepView::RunScript(service_sh_path())])
        } else {
            Ok(seq![StepView::Kill(d), StepView::Sleep(500)])
        },
    }
}

/// `ts-ctl`: the steps to take, given the variant installed, whether its
/// daemon runs and whether its `service.sh` exists.
pub fn ts_ctl_plan(
    action: CtlAction,
    variant: TsVariant,
    running: bool,
    service_sh_exists: bool,
    catalog: Option<&Catalog>,
) -> (r: Result<Vec<CtlStep>, String>)
    ensures
        match (r, ts_ctl_steps(action, variant, running, service_sh_exists, opt_catalog(catalog))) {
            (Ok(s), Ok(t)) => step_views(s@) == t,
            (Err(e), Err(m)) => e@ == m,
            _ => false,
        },
{
    let d = ts_daemon_name(variant);
    let script = join_path(ts_dir().as_str(), "service.sh");
    let mut steps: Vec<CtlStep> = Vec::new();
    match action {
        CtlAction::Stop => {
            steps.push(CtlStep::Kill(d));
        },
        CtlAction::Start => {
            if !running {
                if service_sh_exists {
                    steps.push(CtlStep::RunScript(script));
                } else {
                    return Err(t(catalog, "TrickyStore service.sh not found"));
                }
            }
        },
        CtlAction::Restart => {
            steps.push(CtlStep::Kill(d));
            steps.push(CtlStep::Sleep(500));
            if service_sh_exists {
                steps.push(CtlStep::RunScript(script));
            }
        },
    }
    proof {
        let t = ts_ctl_steps(action, variant, running, service_sh_exists, opt_catalog(catalog));
        assert(step_views(steps@) =~= t->Ok_0);
    }
    Ok(steps)
}

/// This toolkit's daemon process name.
pub const UTS_PROCESS: &'static str = "uts";

/// The steps of `uts-ctl`: stop kills `uts`; start does nothing when it runs
/// already and else starts `<bin>/uts daemon`; restart kills, waits half a
/// second and starts it.
pub open spec fn uts_ctl_steps(action: CtlAction, running: bool) -> Seq<StepView> {
    let bin = MODULES@ + seq!['/'] + UTS@ + seq!['/'] + "bin"@ + seq!['/'] + "uts"@;
    match action {
        CtlAction::Stop => seq![StepView::Kill("uts"@)],
        CtlAction::Start => if running {
            Seq::empty()
        } else {
            seq![StepView::StartDaemon(bin)]
        },
        CtlAction::Restart => seq![
            StepView::Kill("uts"@),
            StepView::Sleep(500),
            StepView::StartDaemon(bin),
        ],
    }
}

/// `uts-ctl`: the steps to take, given whether the daemon runs.
pub fn uts_ctl_plan(action: CtlAction, running: bool) -> (r: Vec<CtlStep>)
    ensures
        step_views(r@) == uts_ctl_steps(action, running),
{
    let bin = uts_bin_path();
    let mut steps: Vec<CtlStep> = Vec::new();
    match action {
        CtlAction::Stop => {
            steps.push(CtlStep::Kill(lit(UTS_PROCESS)));
        },
        CtlAction::Start => {
            if !running {
                steps.push(CtlStep::StartDaemon(bin));
            }
        },
        CtlAction::Restart => {
            steps.push(CtlStep::Kill(lit(UTS_PROCESS)));
            steps.push(CtlStep::Sleep(500));
            steps.push(CtlStep::StartDaemon(bin));
        },
    }
    assert(step_views(steps@) =~= uts_ctl_steps(action, running));
    steps
}

/// What `status` reads before it writes the description: the contents of
/// the toolkit's `root.txt`, `kernel.txt`, `multiple.txt` and
/// `security_patch.txt` (`None` for a missing file), and which daemons run.
pub struct StatusInfo {
    pub root: Option<String>,
    pub kernel: Option<String>,
    pub multiple: Option<String>,
    pub patch: Option<String>,
    pub ts_running: bool,
    pub uts_running: bool,
}

pub open spec fn opt_str(o: Option<String>) -> Option<Seq<char>> {
    match o {
        Some(s) => Some(s@),
        None => None,
    }
}

/// The trimmed content of an optional file; "" for a missing one.
pub open spec fn trimmed_or_empty(o: Option<Seq<char>>) -> Seq<char> {
    match o {
        Some(c) => trim(c),
        None => Seq::empty(),
    }
}

/// `pre + x + post` when `x` is not empty, else "".
pub open spec fn wrap_nonempty(pre: Seq<char>, x: Seq<char>, post: Seq<char>) -> Seq<char> {
    if x.len() == 0 {
        Seq::empty()
    } else {
        pre + x + post
    }
}

/// The mark for a running (or stopped) daemon.
pub open spec fn run_mark(running: bool) -> Seq<char> {
    if running {
        "✅"@
    } else {
        "❌"@
    }
}

/// The module description: root solution, kernel-level extras, a warning
/// when several roots are active, both daemons' state and the patch level.
pub open spec fn description(
    root: Option<Seq<char>>,
    kernel: Option<Seq<char>>,
    multiple: Option<Seq<char>>,
    patch: Option<Seq<char>>,
    ts_running: bool,
    uts_running: bool,
    catalog: Option<Catalog>,
) -> Seq<char> {
    let root_name = match root {
        Some(c) => trim(c),
        None => "Unknown"@,
    };
    let m = trimmed_or_empty(multiple);
    let multi_warn = if m.len() == 0 {
        Seq::empty()
    } else {
        " ⚠"@ + replace_first(translated(catalog, "Multi: %s"@), "%s"@, m)
    };
    root_name + wrap_nonempty(" ("@, trimmed_or_empty(kernel), ")"@) + multi_warn + " | TS: "@
        + run_mark(ts_running) + " UTS: "@ + run_mark(uts_running) + wrap_nonempty(
        " | SPL: "@,
        trimmed_or_empty(patch),
        Seq::empty(),
    )
}

fn trimmed_opt(o: &Option<String>) -> (r: String)
    ensures
        r@ == trimmed_or_empty(opt_str(*o)),
{
    match o {
        Some(c) => trim_str(c.as_str()),
        None => String::new(),
    }
}

fn mark(running: bool) -> (r: String)
    ensures
        r@ == run_mark(running),
{
    if running {
        lit("✅")
    } else {
        lit("❌")
    }
}

fn wrap(pre: &str, x: &String, post: &str) -> (r: String)
    ensures
        r@ == wrap_nonempty(pre@, x@, post@),
{
    if x.as_str().is_empty() {
        String::new()
    } else {
        let mut r = pre.to_owned();
        r.append(x.as_str());
        r.append(post);
        r
    }
}

fn multi_warning(m: &String, catalog: Option<&Catalog>) -> (r: String)
    ensures
        r@ == (if m@.len() == 0 {
            Seq::empty()
        } else {
            " ⚠"@ + replace_first(translated(opt_catalog(catalog), "Multi: %s"@), "%s"@, m@)
        }),
{
    if m.as_str().is_empty() {
        String::new()
    } else {
        let mut r = lit(" ⚠");
        let w = t_fmt(catalog, "Multi: %s", m.as_str());
        r.append(w.as_str());
        r
    }
}

/// Builds the module description from what `status` gathered.
pub fn build_description(info: &StatusInfo, catalog: Option<&Catalog>) -> (r: String)
    ensures
        r@ == description(
            opt_str(info.root),
            opt_str(info.kernel),
            opt_str(info.multiple),
            opt_str(info.patch),
            info.ts_running,
            info.uts_running,
            opt_catalog(catalog),
        ),
{
    let root_name = match &info.root {
        Some(c) => trim_str(c.as_str()),
        None => lit("Unknown"),
    };
    let kernel = wrap(" (", &trimmed_opt(&info.kernel), ")");
    let multi = multi_warning(&trimmed_opt(&info.multiple), catalog);
    let patch = wrap(" | SPL: ", &trimmed_opt(&info.patch), "");
    let ts = mark(info.ts_running);
    let uts = mark(info.uts_running);
    let mut d = root_name;
    d.append(kernel.as_str());
    d.append(multi.as_str());
    d.append(" | TS: ");
    d.append(ts.as_str());
    d.append(" UTS: ");
    d.append(uts.as_str());
    d.append(patch.as_str());
    proof {
        reveal_strlit("");
    }
    d
}

/// `module.prop` with its description set: every `description=` line
/// replaced by `description=<desc>`, or that line added at the end when
/// there is none; the lines joined by `\n`.
pub open spec fn with_description(prop: Seq<char>, desc: Seq<char>) -> Seq<char> {
    let ls = lines(prop);
    let line = "description="@ + desc;
    let replaced = ls.map_values(
        |l: Seq<char>|
            if has_prefix(l, "description="@) {
                line
            } else {
                l
            },
    );
    if has_description(ls) {
        join(replaced, seq!['\n'])
    } else {
        join(replaced.push(line), seq!['\n'])
    }
}

/// Sets the description line of a `module.prop`.
pub fn set_description(prop: &str, desc: &str) -> (r: String)
    ensures
        r@ == with_description(prop@, desc@),
{
    let ls = lines_of(prop);
    let ghost l = lines(prop@);
    let mut line = lit("description=");
    line.append(desc);
    let ghost lv = line@;
    let ghost f = |x: Seq<char>|
        if has_prefix(x, "description="@) {
            lv
        } else {
            x
        };
    let mut out: Vec<String> = Vec::new();
    let mut found = false;
    let mut i: usize = 0;
    while i < ls.len()
        invariant
            i <= ls.len(),
            views(ls@) == l,
            l == lines(prop@),
            line@ == lv,
            lv == "description="@ + desc@,
            f == (|x: Seq<char>|
                if has_prefix(x, "description="@) {
                    lv
                } else {
                    x
                }),
            views(out@) == l.take(i as int).map_values(f),
            found == exists|k: int| 0 <= k < i && has_prefix(#[trigger] l[k], "description="@),
        decreases ls.len() - i,
    {
        let v = chars_of(ls[i].as_str());
        assert(views(ls@)[i as int] == ls@[i as int]@);
        assert(v@.subrange(0, v@.len() as int) =~= v@);
        let ghost before = out@;
        let is_desc = starts_with_at(&v, 0, v.len(), "description=");
        let next = if is_desc {
            found = true;
            line.clone()
        } else {
            ls[i].clone()
        };
        assert(next@ == f(l[i as int]));
        out.push(next);
        proof {
            assert(views(out@) =~= views(before).push(next@));
            assert(views(out@) =~= l.take(i + 1).map_values(f)) by {
                assert(l.take(i + 1) =~= l.take(i as int).push(l[i as int]));
            }
            if is_desc {
                assert(has_prefix(l[i as int], "description="@));
            }
        }
        i += 1;
    }
    assert(l.take(ls.len() as int) =~= l);
    if !found {
        let ghost before = out@;
        out.push(line);
        assert(views(out@) =~= views(before).push(lv));
    }
    join_strings(&out, '\n')
}

/// `status`, given the content of the toolkit's `module.prop` (`None` when
/// missing) and what it gathered: the new `module.prop` content, or the
/// error "status: module.prop not found".
pub fn status(module_prop: Option<&str>, info: &StatusInfo, catalog: Option<&Catalog>) -> (r: Result<String, String>)
    ensures
        match module_prop {
            None => r matches Err(e) && e@ == "status: module.prop not found"@,
            Some(p) => r matches Ok(c) && c@ == with_description(
                p@,
                description(
                    opt_str(info.root),
                    opt_str(info.kernel),
                    opt_str(info.multiple),
                    opt_str(info.patch),
                    info.ts_running,
                    info.uts_running,
                    opt_catalog(catalog),
                ),
            ),
        },
{
    match module_prop {
        None => Err(lit("status: module.prop not found")),
        Some(p) => {
            let desc = build_description(info, catalog);
            Ok(set_description(p, desc.as_str()))
        },
    }
}

/// `module.prop` has a description line.
pub open spec fn has_description(ls: Seq<Seq<char>>) -> bool {
    exists|i: int| 0 <= i < ls.len() && has_prefix(#[trigger] ls[i], "description="@)
}

/// Refreshing the description twice with the same one-line text gives what
/// refreshing once gives. It fails only where reading the written file back
/// changes a line other than the description: a line ending in a carriage
/// return that is followed by another line, or an empty last line after the
/// description line (the final newline is not written back).
pub proof fn lemma_status_refresh_idempotent(prop: Seq<char>, desc: Seq<char>)
    requires
        no_newline(desc),
        forall|i: int|
            0 <= i < lines(prop).len() && !has_prefix(#[trigger] lines(prop)[i], "description="@) && (i
                < lines(prop).len() - 1 || !has_description(lines(prop))) ==> strip_cr(lines(prop)[i])
                == lines(prop)[i],
        has_description(lines(prop)) ==> lines(prop).last().len() > 0,
    ensures
        with_description(with_description(prop, desc), desc) == with_description(prop, desc),
{
    reveal_strlit("description=");
    let ls = lines(prop);
    let key = "description="@;
    let line = key + desc;
    let f = |l: Seq<char>|
        if has_prefix(l, key) {
            line
        } else {
            l
        };
    let replaced = ls.map_values(f);
    let found = has_description(ls);
    let out1 = if found {
        replaced
    } else {
        replaced.push(line)
    };
    assert(with_description(prop, desc) == join(out1, seq!['\n']));
    assert(line.subrange(0, 12) =~= key);
    assert(has_prefix(line, key));
    assert(has_prefix(strip_cr(line), key)) by {
        if desc.len() > 0 && line.last() == '\r' {
            assert(strip_cr(line).subrange(0, 12) =~= key);
        }
    }
    assert(no_newline(line)) by {
        assert forall|i: int| 0 <= i < line.len() implies line[i] != '\n' by {
            if i >= 12 {
                assert(line[i] == desc[i - 12]);
            }
        }
    }
    lemma_lines_no_newline(prop, Seq::empty());
    assert forall|i: int| 0 <= i < out1.len() implies no_newline(#[trigger] out1[i]) && (has_prefix(
        out1[i],
        key,
    ) ==> out1[i] == line) && (!has_prefix(out1[i], key) ==> i < ls.len() && out1[i] == ls[i]) by {
        if i < ls.len() {
            assert(out1[i] == f(ls[i]));
        } else {
            assert(out1[i] == line);
        }
    }
    assert(out1.last().len() > 0) by {
        if found {
            assert(out1.last() == f(ls.last()));
        }
    }
    lemma_lines_join_any(out1);
    let back = lines(join(out1, seq!['\n']));
    assert(back == strip_crs(out1.drop_last()).push(out1.last()));
    let replaced2 = back.map_values(f);
    assert forall|i: int| 0 <= i < out1.len() implies #[trigger] replaced2[i] == out1[i] by {
        if i < out1.len() - 1 {
            assert(back[i] == strip_cr(out1[i]));
            if has_prefix(out1[i], key) {
                assert(out1[i] == line);
            } else {
                assert(i < ls.len());
                assert(i < ls.len() - 1 || !found);
                assert(strip_cr(ls[i]) == ls[i]);
            }
        } else {
            assert(back[i] == out1[i]);
        }
    }
    assert(replaced2 =~= out1);
    let k = if found {
        choose|i: int| 0 <= i < ls.len() && has_prefix(#[trigger] ls[i], key)
    } else {
        ls.len() as int
    };
    assert(0 <= k < out1.len() && out1[k] == line) by {
        if found {
            assert(out1[k] == f(ls[k]));
        }
    }
    assert(has_prefix(back[k], key)) by {
        if k < out1.len() - 1 {
            assert(back[k] == strip_cr(line));
        } else {
            assert(back[k] == line);
        }
    }
    assert(has_description(back));
}

/// `ts-ctl <action>`: an unknown action is the error
/// `ts-ctl: unknown action '<action>'` and nothing is done; otherwise the
/// steps of [`ts_ctl_steps`].
pub fn ts_ctl(
    action: &str,
    variant: TsVariant,
    running: bool,
    service_sh_exists: bool,
    catalog: Option<&Catalog>,
) -> (r: Result<Vec<CtlStep>, String>)
    ensures
        match action_of(action@) {
            None => r matches Err(e) && e@ == "ts-ctl: unknown action '"@ + action@ + "'"@,
            Some(a) => match (r, ts_ctl_steps(a, variant, running, service_sh_exists, opt_catalog(catalog))) {
                (Ok(s), Ok(t)) => step_views(s@) == t,
                (Err(e), Err(m)) => e@ == m,
                _ => false,
            },
        },
{
    proof {
        reveal_strlit("ts-ctl");
        reveal_strlit(": unknown action '");
        reveal_strlit("ts-ctl: unknown action '");
        assert("ts-ctl"@ + ": unknown action '"@ =~= "ts-ctl: unknown action '"@);
    }
    match parse_action("ts-ctl", action) {
        Ok(a) => ts_ctl_plan(a, variant, running, service_sh_exists, catalog),
        Err(e) => Err(e),
    }
}

/// `uts-ctl <action>`: an unknown action is the error
/// `uts-ctl: unknown action '<action>'` and nothing is done; otherwise the
/// steps of [`uts_ctl_steps`].
pub fn uts_ctl(action: &str, running: bool) -> (r: Result<Vec<CtlStep>, String>)
    ensures
        match action_of(action@) {
            None => r matches Err(e) && e@ == "uts-ctl: unknown action '"@ + action@ + "'"@,
            Some(a) => r matches Ok(s) && step_views(s@) == uts_ctl_steps(a, running),
        },
{
    proof {
        reveal_strlit("uts-ctl");
        reveal_strlit(": unknown action '");
        reveal_strlit("uts-ctl: unknown action '");
        assert("uts-ctl"@ + ": unknown action '"@ =~= "uts-ctl: unknown action '"@);
    }
    match parse_action("uts-ctl", action) {
        Ok(a) => Ok(uts_ctl_plan(a, running)),
        Err(e) => Err(e),
    }
}

/// Whether a process named `name` runs after `steps`, having run before
/// them exactly when `running`: killing that name stops it, and running the
/// script or starting the program `starter` starts it.
pub open spec fn runs_after(steps: Seq<StepView>, name: Seq<char>, starter: Seq<char>, running: bool) -> bool
    decreases steps.len(),
{
    if steps.len() == 0 {
        running
    } else {
        let before = runs_after(steps.drop_last(), name, starter, running);
        match steps.last() {
            StepView::Kill(n) => if n == name {
                false
            } else {
                before
            },
            StepView::Sleep(_) => before,
            StepView::RunScript(p) => if p == starter {
                true
            } else {
                before
            },
            StepView::StartDaemon(p) => if p == starter {
                true
            } else {
                before
            },
        }
    }
}

/// `uts-ctl` does what its action says, whether or not the daemon was
/// running: after `stop` no `uts` process is left, after `start` or
/// `restart` `/data/adb/modules/untrickystore/bin/uts` runs; `start` leaves
/// a running daemon alone, while `restart` kills it first and waits half a
/// second; `stop` and `restart` take the same steps either way.
pub proof fn lemma_uts_ctl_effect(running: bool, other: bool)
    ensures
        !runs_after(uts_ctl_steps(CtlAction::Stop, running), "uts"@, "/data/adb/modules/untrickystore/bin/uts"@, running),
        runs_after(uts_ctl_steps(CtlAction::Start, running), "uts"@, "/data/adb/modules/untrickystore/bin/uts"@, running),
        runs_after(uts_ctl_steps(CtlAction::Restart, running), "uts"@, "/data/adb/modules/untrickystore/bin/uts"@, running),
        running ==> uts_ctl_steps(CtlAction::Start, running).len() == 0,
        uts_ctl_steps(CtlAction::Restart, running)[0] == StepView::Kill("uts"@),
        uts_ctl_steps(CtlAction::Restart, running)[1] == StepView::Sleep(500),
        uts_ctl_steps(CtlAction::Stop, running) == uts_ctl_steps(CtlAction::Stop, other),
        uts_ctl_steps(CtlAction::Restart, running) == uts_ctl_steps(CtlAction::Restart, other),
{
    reveal_strlit("uts");
    reveal_strlit("/data/adb/modules");
    reveal_strlit("untrickystore");
    reveal_strlit("bin");
    reveal_strlit("/data/adb/modules/untrickystore/bin/uts");
    let bin = MODULES@ + seq!['/'] + UTS@ + seq!['/'] + "bin"@ + seq!['/'] + "uts"@;
    assert(bin =~= "/data/adb/modules/untrickystore/bin/uts"@);
    reveal_with_fuel(runs_after, 4);
    let r = uts_ctl_steps(CtlAction::Restart, running);
    assert(r.drop_last().drop_last() =~= seq![StepView::Kill("uts"@)]);
    assert(r.drop_last().drop_last().drop_last() =~= Seq::<StepView>::empty());
    let st = uts_ctl_steps(CtlAction::Stop, running);
    assert(st.drop_last() =~= Seq::<StepView>::empty());
    if !running {
        assert(uts_ctl_steps(CtlAction::Start, running).drop_last() =~= Seq::<StepView>::empty());
    }
}

/// `ts-ctl` does what its action says: `stop` leaves no TrickyStore daemon
/// (`trick_simulator` for the simulator build, `trick_store` otherwise);
/// `restart` kills it first, waits half a second, and ends with it running
/// exactly when `/data/adb/modules/tricky_store/service.sh` exists, to start
/// it again;
/// `start` leaves a running daemon alone, starts a stopped one through that
/// script, and without the script fails with the (translated) message
/// "TrickyStore service.sh not found". `stop` and `restart` take the same
/// steps whether or not the daemon was running.
pub proof fn lemma_ts_ctl_effect(
    variant: TsVariant,
    running: bool,
    other: bool,
    service_sh_exists: bool,
    catalog: Option<Catalog>,
)
    ensures
        ({
            let name = if variant == TsVariant::Simulator { "trick_simulator"@ } else { "trick_store"@ };
            let script = "/data/adb/modules/tricky_store/service.sh"@;
            let stop = ts_ctl_steps(CtlAction::Stop, variant, running, service_sh_exists, catalog);
            let start = ts_ctl_steps(CtlAction::Start, variant, running, service_sh_exists, catalog);
            let restart = ts_ctl_steps(CtlAction::Restart, variant, running, service_sh_exists, catalog);
            &&& stop matches Ok(s) && !runs_after(s, name, script, running)
            &&& restart matches Ok(s) && s[0] == StepView::Kill(name) && s[1] == StepView::Sleep(500)
                && runs_after(s, name, script, running) == service_sh_exists
            &&& running ==> start == Ok::<Seq<StepView>, Seq<char>>(Seq::empty())
            &&& !running && service_sh_exists ==> (start matches Ok(s) && runs_after(s, name, script, running))
            &&& !running && !service_sh_exists ==> (start matches Err(e) && e == translated(
                catalog,
                "TrickyStore service.sh not found"@,
            ))
            &&& stop == ts_ctl_steps(CtlAction::Stop, variant, other, service_sh_exists, catalog)
            &&& restart == ts_ctl_steps(CtlAction::Restart, variant, other, service_sh_exists, catalog)
        }),
{
    reveal_strlit("trick_simulator");
    reveal_strlit("trick_store");
    reveal_strlit("/data/adb/modules");
    reveal_strlit("tricky_store");
    reveal_strlit("service.sh");
    reveal_strlit("/data/adb/modules/tricky_store/service.sh");
    assert(service_sh_path() =~= "/data/adb/modules/tricky_store/service.sh"@);
    reveal_with_fuel(runs_after, 4);
    let d = daemon_name_of(variant);
    let k = seq![StepView::Kill(d)];
    assert(k.drop_last() =~= Seq::<StepView>::empty());
    let ks = seq![StepView::Kill(d), StepView::Sleep(500)];
    assert(ks.drop_last() =~= k);
    let ksr = seq![StepView::Kill(d), StepView::Sleep(500), StepView::RunScript(service_sh_path())];
    assert(ksr.drop_last() =~= ks);
    let r = seq![StepView::RunScript(service_sh_path())];
    assert(r.drop_last() =~= Seq::<StepView>::empty());
}

} // verus!
