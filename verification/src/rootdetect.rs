//! Which root solution is active, decided from the kernel log and the files
//! each solution leaves in `/data/adb`.

use vstd::prelude::*;
use crate::common::{join_path, ADB};
use crate::text::{contains, join, lit, str_contains, views};

verus! {

/// The primary root solution reported.
#[derive(PartialEq, Eq, Structural, Clone, Copy, Debug)]
pub enum RootKind {
    Multiple,
    KernelSU,
    SuckySU,
    APatch,
    Magisk,
    Null,
}

/// The name written to `root.txt`.
pub open spec fn root_name(k: RootKind) -> Seq<char> {
    match k {
        RootKind::Multiple => "Multiple"@,
        RootKind::KernelSU => "KernelSU"@,
        RootKind::SuckySU => "SuckySU"@,
        RootKind::APatch => "APatch"@,
        RootKind::Magisk => "Magisk"@,
        RootKind::Null => "NULL"@,
    }
}

impl RootKind {
    /// The name written to `root.txt` and printed.
    pub fn name(&self) -> (r: String)
        ensures
            r@ == root_name(*self),
    {
        match self {
            RootKind::Multiple => lit("Multiple"),
            RootKind::KernelSU => lit("KernelSU"),
            RootKind::SuckySU => lit("SuckySU"),
            RootKind::APatch => lit("APatch"),
            RootKind::Magisk => lit("Magisk"),
            RootKind::Null => lit("NULL"),
        }
    }
}

/// Which of the files each root solution leaves exist: the directories
/// `ksu`, `ap` and `magisk` and the files `ksud`, `apd` and `magisk.db` in
/// `/data/adb`.
pub struct RootFiles {
    pub ksu_dir: bool,
    pub ksud_file: bool,
    pub ap_dir: bool,
    pub apd_file: bool,
    pub magisk_dir: bool,
    pub magisk_db: bool,
}

/// The paths [`RootFiles`] speaks of, in its order.
pub fn root_probe_paths() -> (r: Vec<String>)
    ensures
        views(r@) == seq![
            ADB@ + seq!['/'] + "ksu"@,
            ADB@ + seq!['/'] + "ksud"@,
            ADB@ + seq!['/'] + "ap"@,
            ADB@ + seq!['/'] + "apd"@,
            ADB@ + seq!['/'] + "magisk"@,
            ADB@ + seq!['/'] + "magisk.db"@,
        ],
{
    let mut r: Vec<String> = Vec::new();
    r.push(join_path(ADB, "ksu"));
    r.push(join_path(ADB, "ksud"));
    r.push(join_path(ADB, "ap"));
    r.push(join_path(ADB, "apd"));
    r.push(join_path(ADB, "magisk"));
    r.push(join_path(ADB, "magisk.db"));
    assert(views(r@) =~= seq![
        ADB@ + seq!['/'] + "ksu"@,
        ADB@ + seq!['/'] + "ksud"@,
        ADB@ + seq!['/'] + "ap"@,
        ADB@ + seq!['/'] + "apd"@,
        ADB@ + seq!['/'] + "magisk"@,
        ADB@ + seq!['/'] + "magisk.db"@,
    ]);
    r
}

/// KernelSU shows in the kernel log.
pub open spec fn ksu_in_kernel(dmesg: Seq<char>) -> bool {
    contains(dmesg, "KernelSU"@)
}

/// APatch shows in the kernel log.
pub open spec fn apatch_in_kernel(dmesg: Seq<char>) -> bool {
    contains(dmesg, "KP I commit_common_su"@)
}

/// Magisk shows in the kernel log.
pub open spec fn magisk_in_kernel(dmesg: Seq<char>) -> bool {
    contains(dmesg, "/debug_ramdisk/magisk"@) || contains(dmesg, "magiskinit"@)
}

/// KernelSU is in the kernel and its files are there.
pub open spec fn ksu_present(dmesg: Seq<char>, f: RootFiles) -> bool {
    ksu_in_kernel(dmesg) && f.ksu_dir && f.ksud_file
}

/// Whether `ksud -V` has to be asked whether it is SukiSU: only when
/// KernelSU is present and the kernel log does not already say so.
pub open spec fn needs_ksud_probe(dmesg: Seq<char>, f: RootFiles) -> bool {
    ksu_present(dmesg, f) && !contains(dmesg, "KP hook sukisu_kpm"@)
}

/// The active solutions: KernelSU, SukiSU (reported as SuckySU), APatch,
/// Magisk. `zako` is whether `ksud -V` printed `zako` on its error output.
pub open spec fn sukisu_active(dmesg: Seq<char>, f: RootFiles, zako: bool) -> bool {
    ksu_present(dmesg, f) && (contains(dmesg, "KP hook sukisu_kpm"@) || zako)
}

pub open spec fn kernelsu_active(dmesg: Seq<char>, f: RootFiles, zako: bool) -> bool {
    ksu_present(dmesg, f) && !sukisu_active(dmesg, f, zako)
}

pub open spec fn apatch_active(dmesg: Seq<char>, f: RootFiles) -> bool {
    apatch_in_kernel(dmesg) && f.ap_dir && f.apd_file
}

pub open spec fn magisk_active(dmesg: Seq<char>, f: RootFiles) -> bool {
    magisk_in_kernel(dmesg) && f.magisk_dir && f.magisk_db
}

pub open spec fn count(b: bool) -> int {
    if b {
        1
    } else {
        0
    }
}

/// The names of the flags that hold, in order, as a list.
pub open spec fn names_if(flags: Seq<(bool, Seq<char>)>) -> Seq<Seq<char>>
    decreases flags.len(),
{
    if flags.len() == 0 {
        Seq::empty()
    } else if flags.last().0 {
        names_if(flags.drop_last()).push(flags.last().1)
    } else {
        names_if(flags.drop_last())
    }
}

/// The primary root: "Multiple" when more than one is active, else the
/// active one, else NULL.
pub open spec fn primary_root(dmesg: Seq<char>, f: RootFiles, zako: bool) -> RootKind {
    let k = kernelsu_active(dmesg, f, zako);
    let s = sukisu_active(dmesg, f, zako);
    let a = apatch_active(dmesg, f);
    let m = magisk_active(dmesg, f);
    if count(k) + count(s) + count(a) + count(m) > 1 {
        RootKind::Multiple
    } else if k {
        RootKind::KernelSU
    } else if s {
        RootKind::SuckySU
    } else if a {
        RootKind::APatch
    } else if m {
        RootKind::Magisk
    } else {
        RootKind::Null
    }
}

/// The content of `multiple.txt` when several roots are active: their
/// names, Magisk, KernelSU, APatch, SuckySU in that order, comma-separated.
pub open spec fn multiple_text(dmesg: Seq<char>, f: RootFiles, zako: bool) -> Seq<char> {
    join(
        names_if(
            seq![
                (magisk_active(dmesg, f), "Magisk"@),
                (kernelsu_active(dmesg, f, zako), "KernelSU"@),
                (apatch_active(dmesg, f), "APatch"@),
                (sukisu_active(dmesg, f, zako), "SuckySU"@),
            ],
        ),
        ","@,
    )
}

/// What becomes of `kernel.txt`.
pub enum KernelFile {
    /// Write this text.
    Write(String),
    /// Leave the file as it is.
    Keep,
    /// Delete the file.
    Remove,
}

/// The solutions present in the kernel besides the primary one, when more
/// than one is in the kernel and the primary is not "Multiple": Magisk,
/// KernelSU, APatch in that order (KernelSU counts as primary for SuckySU).
pub open spec fn kernel_extras(dmesg: Seq<char>, root: RootKind) -> Seq<Seq<char>> {
    names_if(
        seq![
            (magisk_in_kernel(dmesg) && root != RootKind::Magisk, "Magisk"@),
            (ksu_in_kernel(dmesg) && root != RootKind::KernelSU && root != RootKind::SuckySU, "KernelSU"@),
            (apatch_in_kernel(dmesg) && root != RootKind::APatch, "APatch"@),
        ],
    )
}

/// Whether `kernel.txt` is written (`Some`), kept (`None` inside) or
/// removed (`None`).
pub open spec fn kernel_file(dmesg: Seq<char>, root: RootKind) -> Option<Option<Seq<char>>> {
    let n = count(ksu_in_kernel(dmesg)) + count(apatch_in_kernel(dmesg)) + count(magisk_in_kernel(dmesg));
    if n > 1 && root != RootKind::Multiple {
        let extras = kernel_extras(dmesg, root);
        if extras.len() > 0 {
            Some(Some(join(extras, ","@)))
        } else {
            Some(None)
        }
    } else {
        None
    }
}

/// What `rootdetect` reports.
pub struct RootReport {
    /// The primary root.
    pub root: RootKind,
    /// The content of `multiple.txt`, written when several roots are active.
    pub multiple: Option<String>,
    /// What becomes of `kernel.txt`.
    pub kernel: KernelFile,
}

/// Whether `ksud -V` has to be run (see [`needs_ksud_probe`]).
pub fn ksud_probe_needed(dmesg: &str, f: &RootFiles) -> (r: bool)
    ensures
        r == needs_ksud_probe(dmesg@, *f),
{
    str_contains(dmesg, "KernelSU") && f.ksu_dir && f.ksud_file && !str_contains(dmesg, "KP hook sukisu_kpm")
}

fn join_names(names: &Vec<String>) -> (r: String)
    ensures
        r@ == join(views(names@), ","@),
{
    proof {
        reveal_strlit(",");
        assert(","@ =~= seq![',']);
    }
    crate::text::join_strings(names, ',')
}

/// `rootdetect`, given the kernel log, which files exist and whether
/// `ksud -V` mentioned `zako` (false when it was not run).
pub fn detect(dmesg: &str, f: &RootFiles, zako: bool) -> (r: RootReport)
    ensures
        r.root == primary_root(dmesg@, *f, zako),
        match r.multiple {
            Some(m) => r.root == RootKind::Multiple && m@ == multiple_text(dmesg@, *f, zako),
            None => r.root != RootKind::Multiple,
        },
        match r.kernel {
            KernelFile::Write(k) => kernel_file(dmesg@, r.root) == Some(Some(k@)),
            KernelFile::Keep => kernel_file(dmesg@, r.root) == Some(None::<Seq<char>>),
            KernelFile::Remove => kernel_file(dmesg@, r.root) is None,
        },
{
    let ksu_ktag = str_contains(dmesg, "KernelSU");
    let apatch_ktag = str_contains(dmesg, "KP I commit_common_su");
    let magisk_ktag = str_contains(dmesg, "/debug_ramdisk/magisk") || str_contains(dmesg, "magiskinit");
    let ksu_tag = ksu_ktag && f.ksu_dir && f.ksud_file;
    let suckysu_tag = ksu_tag && (str_contains(dmesg, "KP hook sukisu_kpm") || zako);
    let kernelsu_tag = ksu_tag && !suckysu_tag;
    let apatch_tag = apatch_ktag && f.ap_dir && f.apd_file;
    let magisk_tag = magisk_ktag && f.magisk_dir && f.magisk_db;
    let active: u8 = (if kernelsu_tag { 1u8 } else { 0u8 }) + (if suckysu_tag { 1u8 } else { 0u8 })
        + (if apatch_tag { 1u8 } else { 0u8 }) + (if magisk_tag { 1u8 } else { 0u8 });
    let mut multiple: Option<String> = None;
    let root = if active > 1 {
        let mut parts: Vec<String> = Vec::new();
        if magisk_tag {
            parts.push(lit("Magisk"));
        }
        if kernelsu_tag {
            parts.push(lit("KernelSU"));
        }
        if apatch_tag {
            parts.push(lit("APatch"));
        }
        if suckysu_tag {
            parts.push(lit("SuckySU"));
        }
        proof {
            let fl = seq![
                (magisk_tag, "Magisk"@),
                (kernelsu_tag, "KernelSU"@),
                (apatch_tag, "APatch"@),
                (suckysu_tag, "SuckySU"@),
            ];
            reveal_with_fuel(names_if, 5);
            assert(fl.drop_last().drop_last().drop_last().drop_last() =~= Seq::<(bool, Seq<char>)>::empty());
            assert(fl.drop_last().drop_last().drop_last() =~= seq![(magisk_tag, "Magisk"@)]);
            assert(fl.drop_last().drop_last() =~= seq![(magisk_tag, "Magisk"@), (kernelsu_tag, "KernelSU"@)]);
            assert(fl.drop_last() =~= seq![(magisk_tag, "Magisk"@), (kernelsu_tag, "KernelSU"@), (apatch_tag, "APatch"@)]);
            assert(views(parts@) =~= names_if(fl));
        }
        multiple = Some(join_names(&parts));
        RootKind::Multiple
    } else if kernelsu_tag {
        RootKind::KernelSU
    } else if suckysu_tag {
        RootKind::SuckySU
    } else if apatch_tag {
        RootKind::APatch
    } else if magisk_tag {
        RootKind::Magisk
    } else {
        RootKind::Null
    };
    let kcount: u8 = (if ksu_ktag { 1u8 } else { 0u8 }) + (if apatch_ktag { 1u8 } else { 0u8 })
        + (if magisk_ktag { 1u8 } else { 0u8 });
    let kernel = if kcount > 1 && root != RootKind::Multiple {
        let mut kparts: Vec<String> = Vec::new();
        if magisk_ktag && root != RootKind::Magisk {
            kparts.push(lit("Magisk"));
        }
        if ksu_ktag && root != RootKind::KernelSU && root != RootKind::SuckySU {
            kparts.push(lit("KernelSU"));
        }
        if apatch_ktag && root != RootKind::APatch {
            kparts.push(lit("APatch"));
        }
        proof {
            let fl = seq![
                (magisk_ktag && root != RootKind::Magisk, "Magisk"@),
                (ksu_ktag && root != RootKind::KernelSU && root != RootKind::SuckySU, "KernelSU"@),
                (apatch_ktag && root != RootKind::APatch, "APatch"@),
            ];
            reveal_with_fuel(names_if, 4);
            assert(fl.drop_last().drop_last().drop_last() =~= Seq::<(bool, Seq<char>)>::empty());
            assert(fl.drop_last().drop_last() =~= seq![fl[0]]);
            assert(fl.drop_last() =~= seq![fl[0], fl[1]]);
            assert(views(kparts@) =~= names_if(fl));
        }
        if kparts.len() > 0 {
            KernelFile::Write(join_names(&kparts))
        } else {
            KernelFile::Keep
        }
    } else {
        KernelFile::Remove
    };
    RootReport { root, multiple, kernel }
}

/// With exactly one root solution active, it is the one reported; with
/// none, NULL; with more, "Multiple".
pub proof fn lemma_primary_root(dmesg: Seq<char>, f: RootFiles, zako: bool)
    ensures
        ({
            let k = kernelsu_active(dmesg, f, zako);
            let s = sukisu_active(dmesg, f, zako);
            let a = apatch_active(dmesg, f);
            let m = magisk_active(dmesg, f);
            let n = count(k) + count(s) + count(a) + count(m);
            let r = primary_root(dmesg, f, zako);
            &&& (n > 1 <==> r == RootKind::Multiple)
            &&& (n == 0 <==> r == RootKind::Null)
            &&& (n == 1 ==> (k <==> r == RootKind::KernelSU) && (s <==> r == RootKind::SuckySU) && (a
                <==> r == RootKind::APatch) && (m <==> r == RootKind::Magisk))
        }),
{
}

/// KernelSU and SukiSU exclude each other.
pub proof fn lemma_ksu_exclusive(dmesg: Seq<char>, f: RootFiles, zako: bool)
    ensures
        !(kernelsu_active(dmesg, f, zako) && sukisu_active(dmesg, f, zako)),
{
}

/// Each root solution is written under its own name (`Multiple`,
/// `KernelSU`, `SuckySU`, `APatch`, `Magisk`, or `NULL` for none), so no
/// two are written alike and `root.txt` tells which one was found.
pub proof fn lemma_root_names(k1: RootKind, k2: RootKind)
    ensures
        root_name(RootKind::Multiple) == "Multiple"@,
        root_name(RootKind::KernelSU) == "KernelSU"@,
        root_name(RootKind::SuckySU) == "SuckySU"@,
        root_name(RootKind::APatch) == "APatch"@,
        root_name(RootKind::Magisk) == "Magisk"@,
        root_name(RootKind::Null) == "NULL"@,
        root_name(k1) == root_name(k2) ==> k1 == k2,
{
    reveal_strlit("Multiple");
    reveal_strlit("KernelSU");
    reveal_strlit("SuckySU");
    reveal_strlit("APatch");
    reveal_strlit("Magisk");
    reveal_strlit("NULL");
    if root_name(k1) == root_name(k2) {
        assert(root_name(k1).len() == root_name(k2).len());
        assert(root_name(k1)[0] == root_name(k2)[0]);
        assert(root_name(k1)[1] == root_name(k2)[1]);
    }
}

} // verus!
