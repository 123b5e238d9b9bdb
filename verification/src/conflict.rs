//! Modules and apps that conflict with TrickyStore setups, and what is done
//! about them.

use vstd::prelude::*;
use crate::common::{join_path, MODULES};
use crate::text::{lit, str_eq, views};

verus! {

/// Module ids that conflict: they are disabled and marked for removal.
pub open spec fn conflict_modules() -> Seq<Seq<char>> {
    seq![
        "Yurikey"@,
        "xiaocaiye"@,
        "safetynet-fix"@,
        "vbmeta-fixer"@,
        "playintegrity"@,
        "integrity_box"@,
        "SukiSU_module"@,
        "Reset_BootHash"@,
        "PlayIntegrityFix"@,
        "Tricky_store-bm"@,
        "Hide_Bootloader"@,
        "ShaikoManager"@,
        "extreme_hide_root"@,
        "Tricky_Store-xiaoyi"@,
        "tricky_store_assistant"@,
        "extreme_hide_bootloader"@,
        "wjw_hiderootauxiliarymod"@,
    ]
}

/// Module ids that are removed outright.
pub open spec fn rmrf_modules() -> Seq<Seq<char>> {
    seq!["TA_utl"@, ".TA_utl"@, "yamabukiko"@]
}

/// Packages of apps that conflict.
pub open spec fn conflict_apps() -> Seq<Seq<char>> {
    seq!["com.lingqiaohan.appbl"@, "com.topmiaohuan.hidebllist"@]
}

/// The module ids that conflict.
pub fn conflict_module_ids() -> (r: Vec<String>)
    ensures
        views(r@) == conflict_modules(),
{
    let mut r: Vec<String> = Vec::new();
    r.push(lit("Yurikey"));
    r.push(lit("xiaocaiye"));
    r.push(lit("safetynet-fix"));
    r.push(lit("vbmeta-fixer"));
    r.push(lit("playintegrity"));
    r.push(lit("integrity_box"));
    r.push(lit("SukiSU_module"));
    r.push(lit("Reset_BootHash"));
    r.push(lit("PlayIntegrityFix"));
    r.push(lit("Tricky_store-bm"));
    r.push(lit("Hide_Bootloader"));
    r.push(lit("ShaikoManager"));
    r.push(lit("extreme_hide_root"));
    r.push(lit("Tricky_Store-xiaoyi"));
    r.push(lit("tricky_store_assistant"));
    r.push(lit("extreme_hide_bootloader"));
    r.push(lit("wjw_hiderootauxiliarymod"));
    assert(views(r@) =~= conflict_modules());
    r
}

/// The module ids that are removed outright.
pub fn rmrf_module_ids() -> (r: Vec<String>)
    ensures
        views(r@) == rmrf_modules(),
{
    let mut r: Vec<String> = Vec::new();
    r.push(lit("TA_utl"));
    r.push(lit(".TA_utl"));
    r.push(lit("yamabukiko"));
    assert(views(r@) =~= rmrf_modules());
    r
}

/// The module roots searched: the modules directory and its `_update` twin.
pub fn module_roots() -> (r: Vec<String>)
    ensures
        views(r@) == seq![MODULES@, MODULES@ + "_update"@],
{
    let mut r: Vec<String> = Vec::new();
    r.push(lit(MODULES));
    let mut u = lit(MODULES);
    u.append("_update");
    r.push(u);
    assert(views(r@) =~= seq![MODULES@, MODULES@ + "_update"@]);
    r
}

/// The directory of module `id` under a module root.
pub fn module_dir(base: &str, id: &str) -> (r: String)
    ensures
        r@ == base@ + seq!['/'] + id@,
{
    join_path(base, id)
}

/// The marker files that disable a module and mark it for removal.
pub fn marker_files(dir: &str) -> (r: (String, String))
    ensures
        r.0@ == dir@ + seq!['/'] + "disable"@,
        r.1@ == dir@ + seq!['/'] + "remove"@,
{
    (join_path(dir, "disable"), join_path(dir, "remove"))
}

/// `p` is one of the installed packages.
pub open spec fn is_installed(installed: Seq<Seq<char>>, p: Seq<char>) -> bool {
    exists|i: int| 0 <= i < installed.len() && installed[i] == p
}

/// Whether `p` is among the installed packages.
pub(crate) fn installed_has(installed: &Vec<String>, p: &str) -> (r: bool)
    ensures
        r == is_installed(views(installed@), p@),
{
    let mut i: usize = 0;
    while i < installed.len()
        invariant
            i <= installed.len(),
            forall|k: int| 0 <= k < i ==> views(installed@)[k] != p@,
        decreases installed.len() - i,
    {
        assert(views(installed@)[i as int] == installed@[i as int]@);
        if str_eq(installed[i].as_str(), p) {
            return true;
        }
        i += 1;
    }
    false
}

/// `conflict-app`, given the installed third-party packages: the
/// conflicting apps to uninstall, in list order.
pub fn conflict_app(installed: &Vec<String>) -> (r: Vec<String>)
    ensures
        views(r@) == conflict_apps().filter(|p: Seq<char>| is_installed(views(installed@), p)),
{
    let mut r: Vec<String> = Vec::new();
    let ghost pred = |p: Seq<char>| is_installed(views(installed@), p);
    proof {
        reveal_with_fuel(Seq::<_>::filter, 3);
        assert(conflict_apps().take(2) =~= conflict_apps());
        assert(conflict_apps().take(1) =~= conflict_apps().take(2).drop_last());
        assert(conflict_apps().take(0) =~= conflict_apps().take(1).drop_last());
    }
    if installed_has(installed, "com.lingqiaohan.appbl") {
        r.push(lit("com.lingqiaohan.appbl"));
    }
    if installed_has(installed, "com.topmiaohuan.hidebllist") {
        r.push(lit("com.topmiaohuan.hidebllist"));
    }
    proof {
        reveal_with_fuel(Seq::<_>::filter, 3);
        assert(views(r@) =~= conflict_apps().filter(pred));
    }
    r
}

/// What `conflict-mod` found about one conflicting module under a root.
pub struct ModuleState {
    /// The module's directory exists.
    pub present: bool,
    /// Its `disable` marker exists.
    pub disabled: bool,
    /// Its `remove` marker exists.
    pub marked: bool,
}

/// One thing `conflict-mod` does.
pub enum ModAction {
    /// Delete the directory `dir` of module `id` and all it holds.
    RemoveDir { dir: String, id: String },
    /// Create this marker file, empty.
    CreateMarker(String),
    /// The module with this id is tagged.
    Tagged(String),
}

/// The actions as plain values: 0 removes (the directory, then the module
/// id), 1 creates a marker (its path), 2 tags (the module id).
pub open spec fn action_view(a: ModAction) -> (int, Seq<char>, Seq<char>) {
    match a {
        ModAction::RemoveDir { dir, id } => (0, dir@, id@),
        ModAction::CreateMarker(p) => (1, p@, Seq::empty()),
        ModAction::Tagged(id) => (2, id@, Seq::empty()),
    }
}

pub open spec fn action_views(a: Seq<ModAction>) -> Seq<(int, Seq<char>, Seq<char>)> {
    a.map_values(|x: ModAction| action_view(x))
}

/// The parts, one after the other.
pub open spec fn concat_all(parts: Seq<Seq<(int, Seq<char>, Seq<char>)>>) -> Seq<(int, Seq<char>, Seq<char>)>
    decreases parts.len(),
{
    if parts.len() == 0 {
        Seq::empty()
    } else {
        concat_all(parts.drop_last()) + parts.last()
    }
}

/// What is done about the outright-removed module `id`: its directory is
/// deleted when present.
pub open spec fn rmrf_step(base: Seq<char>, id: Seq<char>, present: bool) -> Seq<(int, Seq<char>, Seq<char>)> {
    if present {
        seq![(0, base + seq!['/'] + id, id)]
    } else {
        Seq::empty()
    }
}

/// What is done about the conflicting module `id`: when present, its
/// missing markers are created and it is tagged.
pub open spec fn conflict_step(base: Seq<char>, id: Seq<char>, st: (bool, bool, bool)) -> Seq<(int, Seq<char>, Seq<char>)> {
    let dir = base + seq!['/'] + id;
    if st.0 {
        (if st.1 {
            Seq::empty()
        } else {
            seq![(1, dir + seq!['/'] + "disable"@, Seq::empty())]
        }) + (if st.2 {
            Seq::empty()
        } else {
            seq![(1, dir + seq!['/'] + "remove"@, Seq::empty())]
        }) + seq![(2, id, Seq::empty())]
    } else {
        Seq::empty()
    }
}

pub open spec fn state_view(s: ModuleState) -> (bool, bool, bool) {
    (s.present, s.disabled, s.marked)
}

/// `conflict-mod` under one existing module root `base`, given which of the
/// outright-removed modules are present and the state of each conflicting
/// module (both in list order): delete the former, then tag the latter.
pub fn conflict_mod(base: &str, rmrf_present: &Vec<bool>, states: &Vec<ModuleState>) -> (r: Vec<ModAction>)
    requires
        rmrf_present.len() == rmrf_modules().len(),
        states.len() == conflict_modules().len(),
    ensures
        action_views(r@) == concat_all(Seq::new(3, |i: int| rmrf_step(base@, rmrf_modules()[i], rmrf_present@[i])))
            + concat_all(Seq::new(17, |i: int| conflict_step(base@, conflict_modules()[i], state_view(states@[i])))),
{
    let rm = rmrf_module_ids();
    let ids = conflict_module_ids();
    let ghost first = Seq::new(3, |i: int| rmrf_step(base@, rmrf_modules()[i], rmrf_present@[i]));
    let ghost second = Seq::new(17, |i: int| conflict_step(base@, conflict_modules()[i], state_view(states@[i])));
    let mut out: Vec<ModAction> = Vec::new();
    let mut i: usize = 0;
    assert(first.take(0) =~= Seq::<Seq<(int, Seq<char>, Seq<char>)>>::empty());
    assert(action_views(out@) =~= concat_all(first.take(0)));
    while i < rm.len()
        invariant
            i <= rm.len(),
            rm.len() == 3,
            views(rm@) == rmrf_modules(),
            rmrf_present.len() == 3,
            first == Seq::new(3, |i: int| rmrf_step(base@, rmrf_modules()[i], rmrf_present@[i])),
            action_views(out@) == concat_all(first.take(i as int)),
        decreases rm.len() - i,
    {
        assert(first.take(i + 1).drop_last() =~= first.take(i as int));
        assert(views(rm@)[i as int] == rm@[i as int]@);
        let ghost before = out@;
        if rmrf_present[i] {
            out.push(ModAction::RemoveDir { dir: module_dir(base, rm[i].as_str()), id: rm[i].clone() });
        }
        assert(action_views(out@) =~= action_views(before) + first[i as int]);
        i += 1;
    }
    assert(first.take(3) =~= first);
    let ghost mid = out@;
    let mut j: usize = 0;
    assert(second.take(0) =~= Seq::<Seq<(int, Seq<char>, Seq<char>)>>::empty());
    assert(action_views(out@) =~= action_views(mid) + concat_all(second.take(0)));
    while j < ids.len()
        invariant
            j <= ids.len(),
            ids.len() == 17,
            views(ids@) == conflict_modules(),
            states.len() == 17,
            second == Seq::new(17, |i: int| conflict_step(base@, conflict_modules()[i], state_view(states@[i]))),
            action_views(out@) == action_views(mid) + concat_all(second.take(j as int)),
        decreases ids.len() - j,
    {
        assert(second.take(j + 1).drop_last() =~= second.take(j as int));
        assert(views(ids@)[j as int] == ids@[j as int]@);
        let ghost before = out@;
        let st = &states[j];
        if st.present {
            let dir = module_dir(base, ids[j].as_str());
            let (disable, remove) = marker_files(dir.as_str());
            if !st.disabled {
                out.push(ModAction::CreateMarker(disable));
            }
            if !st.marked {
                out.push(ModAction::CreateMarker(remove));
            }
            out.push(ModAction::Tagged(ids[j].clone()));
        }
        assert(action_views(out@) =~= action_views(before) + second[j as int]);
        j += 1;
    }
    assert(second.take(17) =~= second);
    out
}

/// The modules treated as conflicting are exactly these seventeen: among them PlayIntegrityFix, safetynet-fix and the TrickyStore
/// add-ons that fight over its files.
pub proof fn lemma_conflict_modules_listed()
    ensures
        conflict_modules().to_set() == set!["Yurikey"@, "xiaocaiye"@, "safetynet-fix"@, "vbmeta-fixer"@, "playintegrity"@, "integrity_box"@, "SukiSU_module"@, "Reset_BootHash"@, "PlayIntegrityFix"@, "Tricky_store-bm"@, "Hide_Bootloader"@, "ShaikoManager"@, "extreme_hide_root"@, "Tricky_Store-xiaoyi"@, "tricky_store_assistant"@, "extreme_hide_bootloader"@, "wjw_hiderootauxiliarymod"@],
        conflict_modules().len() == 17,
{
    reveal_strlit("Yurikey");
    reveal_strlit("xiaocaiye");
    reveal_strlit("safetynet-fix");
    reveal_strlit("vbmeta-fixer");
    reveal_strlit("playintegrity");
    reveal_strlit("integrity_box");
    reveal_strlit("SukiSU_module");
    reveal_strlit("Reset_BootHash");
    reveal_strlit("PlayIntegrityFix");
    reveal_strlit("Tricky_store-bm");
    reveal_strlit("Hide_Bootloader");
    reveal_strlit("ShaikoManager");
    reveal_strlit("extreme_hide_root");
    reveal_strlit("Tricky_Store-xiaoyi");
    reveal_strlit("tricky_store_assistant");
    reveal_strlit("extreme_hide_bootloader");
    reveal_strlit("wjw_hiderootauxiliarymod");
    assert(conflict_modules()[0] == "Yurikey"@);
    assert(conflict_modules()[1] == "xiaocaiye"@);
    assert(conflict_modules()[2] == "safetynet-fix"@);
    assert(conflict_modules()[3] == "vbmeta-fixer"@);
    assert(conflict_modules()[4] == "playintegrity"@);
    assert(conflict_modules()[5] == "integrity_box"@);
    assert(conflict_modules()[6] == "SukiSU_module"@);
    assert(conflict_modules()[7] == "Reset_BootHash"@);
    assert(conflict_modules()[8] == "PlayIntegrityFix"@);
    assert(conflict_modules()[9] == "Tricky_store-bm"@);
    assert(conflict_modules()[10] == "Hide_Bootloader"@);
    assert(conflict_modules()[11] == "ShaikoManager"@);
    assert(conflict_modules()[12] == "extreme_hide_root"@);
    assert(conflict_modules()[13] == "Tricky_Store-xiaoyi"@);
    assert(conflict_modules()[14] == "tricky_store_assistant"@);
    assert(conflict_modules()[15] == "extreme_hide_bootloader"@);
    assert(conflict_modules()[16] == "wjw_hiderootauxiliarymod"@);
    assert(conflict_modules().to_set() =~= set!["Yurikey"@, "xiaocaiye"@, "safetynet-fix"@, "vbmeta-fixer"@, "playintegrity"@, "integrity_box"@, "SukiSU_module"@, "Reset_BootHash"@, "PlayIntegrityFix"@, "Tricky_store-bm"@, "Hide_Bootloader"@, "ShaikoManager"@, "extreme_hide_root"@, "Tricky_Store-xiaoyi"@, "tricky_store_assistant"@, "extreme_hide_bootloader"@, "wjw_hiderootauxiliarymod"@]);
}

/// The modules removed outright are exactly TA_utl, .TA_utl and
/// yamabukiko.
pub proof fn lemma_rmrf_modules_listed()
    ensures
        rmrf_modules().to_set() == set!["TA_utl"@, ".TA_utl"@, "yamabukiko"@],
        rmrf_modules().len() == 3,
{
    reveal_strlit("TA_utl");
    reveal_strlit(".TA_utl");
    reveal_strlit("yamabukiko");
    assert(rmrf_modules()[0] == "TA_utl"@);
    assert(rmrf_modules()[1] == ".TA_utl"@);
    assert(rmrf_modules()[2] == "yamabukiko"@);
    assert(rmrf_modules().to_set() =~= set!["TA_utl"@, ".TA_utl"@, "yamabukiko"@]);
}

/// The apps uninstalled as conflicting are exactly these two, each once.
pub proof fn lemma_conflict_apps_listed()
    ensures
        conflict_apps().to_set() == set!["com.lingqiaohan.appbl"@, "com.topmiaohuan.hidebllist"@],
        conflict_apps().no_duplicates(),
{
    reveal_strlit("com.lingqiaohan.appbl");
    reveal_strlit("com.topmiaohuan.hidebllist");
    assert(conflict_apps()[0] == "com.lingqiaohan.appbl"@);
    assert(conflict_apps()[1] == "com.topmiaohuan.hidebllist"@);
    assert(conflict_apps().to_set() =~= set!["com.lingqiaohan.appbl"@, "com.topmiaohuan.hidebllist"@]);
}

} // verus!
