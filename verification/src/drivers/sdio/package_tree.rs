//! The plan of a package tree: which directories and files a package root
//! must contain, decided (and refused) before any destination object exists.
//!
//! Names compare ASCII case-insensitively, as Windows compares them (every
//! accepted path is ASCII). Hostile input is refused, never normalized: a
//! collision is an error, not something to merge. Creating, sealing and
//! destroying the planned tree needs Windows object handles and happens
//! outside the library.
use vstd::prelude::*;
use crate::text::{append_chars, chars_of, eq_ic, eq_ignore_case, first_idx, has_char, lemma_first_idx_bound, lemma_split_first, lemma_split_none, lower, owned, pieces, split_char, split_vec, string_of};
use crate::drivers::sdio::extraction::{ExtractionError};
use crate::drivers::sdio::local_pack::{MAX_ARCHIVE_MEMBER_COMPONENTS};
use crate::drivers::sdio::payload_inventory::{payload_component_ok, source_path_ok, validate_source_path};

verus! {

/// Root-level files a package may carry (an INF and a catalog).
pub const MAX_PACKAGE_ROOT_LEAVES: usize = 2;
/// Relative-path files beyond the root leaves.
pub const MAX_PACKAGE_PATH_FILES: usize = 1024;
pub const MAX_PACKAGE_FILES: usize = 1026;
pub const MAX_PACKAGE_DIRS: usize = 4096;
pub const MAX_PACKAGE_RETAINED_PATH_BYTES: usize = 8_388_608;

/// Why a package tree was not planned, built or kept.
#[derive(Debug, PartialEq, Eq)]
pub enum PackageTreeError {
    PlatformUnsupported,
    InvalidPackagePath { relative_path: String },
    PathCollision { first: String, second: String },
    TooManyFiles,
    TooManyDirectories,
    RetainedPathBudgetExceeded,
    InvalidStagingRoot(String),
    PackRootCollision,
    Filesystem(ExtractionError),
    /// An I/O failure (the error's text).
    Io(String),
    PackageChanged { relative_path: String },
    CleanupFailed(String),
    /// A failure after the package root existed whose rollback left residue.
    Rollback { cause: Box<PackageTreeError>, residue: String },
}

/// One directory to create, parent before child; `parent` indexes the
/// directories, `None` is the package root.
pub struct PlannedDir {
    pub rel: String,
    pub parent: Option<usize>,
    pub leaf: String,
}

/// One file to create: root leaves first, then paths.
pub struct PlannedFile {
    pub rel: String,
    pub parent: Option<usize>,
    pub leaf: String,
}

pub struct PackagePlan {
    pub dirs: Vec<PlannedDir>,
    pub files: Vec<PlannedFile>,
}

/// A planned directory or file with its strings as character sequences.
pub struct PlannedView {
    pub rel: Seq<char>,
    pub parent: Option<usize>,
    pub leaf: Seq<char>,
}

pub open spec fn dir_views(v: Seq<PlannedDir>) -> Seq<PlannedView> {
    v.map_values(|d: PlannedDir| PlannedView { rel: d.rel@, parent: d.parent, leaf: d.leaf@ })
}

pub open spec fn file_views(v: Seq<PlannedFile>) -> Seq<PlannedView> {
    v.map_values(|f: PlannedFile| PlannedView { rel: f.rel@, parent: f.parent, leaf: f.leaf@ })
}

/// The planner's state: directories and files so far and the path text
/// retained.
pub struct PlanState {
    pub dirs: Seq<PlannedView>,
    pub files: Seq<PlannedView>,
    pub retained: nat,
}

/// Why planning was refused, with its strings as character sequences.
pub enum PlanRefusal {
    TooManyFiles,
    InvalidPath(Seq<char>),
    Collision(Seq<char>, Seq<char>),
    TooManyDirectories,
    BudgetExceeded,
}

/// What a name is taken by, if anything.
pub enum Taken {
    File(Seq<char>),
    Dir(int),
}

/// The first of `v` whose path equals `p` up to ASCII case.
pub open spec fn find_rel(v: Seq<PlannedView>, p: Seq<char>, n: int) -> Option<int>
    decreases n,
{
    if n <= 0 {
        None
    } else if find_rel(v, p, n - 1) is Some {
        find_rel(v, p, n - 1)
    } else if eq_ic(v[n - 1].rel, p) {
        Some(n - 1)
    } else {
        None
    }
}

/// What takes the name `p` (compared up to ASCII case).
pub open spec fn taken(st: PlanState, p: Seq<char>) -> Option<Taken> {
    match find_rel(st.files, p, st.files.len() as int) {
        Some(k) => Some(Taken::File(st.files[k].rel)),
        None => match find_rel(st.dirs, p, st.dirs.len() as int) {
            Some(ix) => Some(Taken::Dir(ix)),
            None => None,
        },
    }
}

/// The first `i + 1` components joined by `/`.
pub open spec fn prefix_of(comps: Seq<Seq<char>>, i: int) -> Seq<char>
    decreases i,
{
    if i <= 0 {
        comps[0]
    } else {
        prefix_of(comps, i - 1) + seq!['/'] + comps[i]
    }
}

/// Plan the components of `rel` from component `i` on, under `parent`: a
/// name taken by a file, or a leaf taken by a directory, collides; a
/// directory already planned is reused; a new directory or the file itself
/// is planned, each charging its path and leaf text to the budget.
pub open spec fn add_comps(
    st: PlanState,
    rel: Seq<char>,
    comps: Seq<Seq<char>>,
    i: int,
    parent: Option<usize>,
    budget: nat,
) -> Result<PlanState, PlanRefusal>
    decreases comps.len() - i,
{
    if i < 0 || i >= comps.len() {
        Ok(st)
    } else {
        let prefix = prefix_of(comps, i);
        let comp = comps[i];
        let leaf = i + 1 == comps.len();
        match taken(st, prefix) {
            Some(Taken::File(first)) => Err(PlanRefusal::Collision(first, rel)),
            Some(Taken::Dir(ix)) => if leaf {
                Err(PlanRefusal::Collision(st.dirs[ix].rel, rel))
            } else {
                add_comps(st, rel, comps, i + 1, Some(ix as usize), budget)
            },
            None => if leaf {
                if st.retained + rel.len() + comp.len() > budget {
                    Err(PlanRefusal::BudgetExceeded)
                } else {
                    Ok(
                        PlanState {
                            dirs: st.dirs,
                            files: st.files.push(PlannedView { rel, parent, leaf: comp }),
                            retained: st.retained + rel.len() + comp.len(),
                        },
                    )
                }
            } else if st.dirs.len() >= MAX_PACKAGE_DIRS {
                Err(PlanRefusal::TooManyDirectories)
            } else if st.retained + prefix.len() + comp.len() > budget {
                Err(PlanRefusal::BudgetExceeded)
            } else {
                add_comps(
                    PlanState {
                        dirs: st.dirs.push(PlannedView { rel: prefix, parent, leaf: comp }),
                        files: st.files,
                        retained: st.retained + prefix.len() + comp.len(),
                    },
                    rel,
                    comps,
                    i + 1,
                    Some(st.dirs.len() as usize),
                    budget,
                )
            },
        }
    }
}

/// Plan one file: a path that is not a safe source path, or that holds
/// `~` (an 8.3 alias could shadow it), is refused.
pub open spec fn add_file(st: PlanState, rel: Seq<char>, budget: nat) -> Result<PlanState, PlanRefusal> {
    if !source_path_ok(rel) || rel.contains('~') {
        Err(PlanRefusal::InvalidPath(rel))
    } else {
        add_comps(st, rel, split_char(rel, '/'), 0, None, budget)
    }
}

/// Plan the first `n` root leaves (each a single component).
pub open spec fn add_leaves(st: PlanState, leaves: Seq<Seq<char>>, n: int, budget: nat) -> Result<
    PlanState,
    PlanRefusal,
>
    decreases n,
{
    if n <= 0 {
        Ok(st)
    } else {
        match add_leaves(st, leaves, n - 1, budget) {
            Err(e) => Err(e),
            Ok(s2) => if leaves[n - 1].contains('/') {
                Err(PlanRefusal::InvalidPath(leaves[n - 1]))
            } else {
                add_file(s2, leaves[n - 1], budget)
            },
        }
    }
}

/// Plan the first `n` paths.
pub open spec fn add_paths(st: PlanState, paths: Seq<Seq<char>>, n: int, budget: nat) -> Result<
    PlanState,
    PlanRefusal,
>
    decreases n,
{
    if n <= 0 {
        Ok(st)
    } else {
        match add_paths(st, paths, n - 1, budget) {
            Err(e) => Err(e),
            Ok(s2) => add_file(s2, paths[n - 1], budget),
        }
    }
}

pub open spec fn empty_plan_state() -> PlanState {
    PlanState { dirs: Seq::empty(), files: Seq::empty(), retained: 0 }
}

/// The plan of a package: too many leaves or paths are refused; then the
/// root leaves, then the paths, in order.
pub open spec fn plan_spec(leaves: Seq<Seq<char>>, paths: Seq<Seq<char>>, budget: nat) -> Result<
    PlanState,
    PlanRefusal,
> {
    if leaves.len() > MAX_PACKAGE_ROOT_LEAVES || paths.len() > MAX_PACKAGE_PATH_FILES {
        Err(PlanRefusal::TooManyFiles)
    } else {
        match add_leaves(empty_plan_state(), leaves, leaves.len() as int, budget) {
            Err(e) => Err(e),
            Ok(s) => add_paths(s, paths, paths.len() as int, budget),
        }
    }
}

/// The error a refusal is reported as.
pub open spec fn refusal_is(e: PackageTreeError, r: PlanRefusal) -> bool {
    match r {
        PlanRefusal::TooManyFiles => e == PackageTreeError::TooManyFiles,
        PlanRefusal::InvalidPath(p) => e matches PackageTreeError::InvalidPackagePath {
            relative_path,
        } && relative_path@ == p,
        PlanRefusal::Collision(a, b) => e matches PackageTreeError::PathCollision { first, second }
            && first@ == a && second@ == b,
        PlanRefusal::TooManyDirectories => e == PackageTreeError::TooManyDirectories,
        PlanRefusal::BudgetExceeded => e == PackageTreeError::RetainedPathBudgetExceeded,
    }
}

pub open spec fn str_seqs(v: Seq<&str>) -> Seq<Seq<char>> {
    v.map_values(|s: &str| s@)
}

/// The plan's state as the spec sees it.
pub open spec fn state_of(dirs: Seq<PlannedDir>, files: Seq<PlannedFile>, retained: nat) -> PlanState {
    PlanState { dirs: dir_views(dirs), files: file_views(files), retained }
}

/// Checked running total of retained path text against `budget`.
fn charge_within(running: usize, add: usize, budget: usize) -> (r: Result<usize, PackageTreeError>)
    ensures
        running + add <= budget ==> r == Ok::<usize, PackageTreeError>((running + add) as usize),
        running + add > budget ==> r == Err::<usize, PackageTreeError>(
            PackageTreeError::RetainedPathBudgetExceeded,
        ),
{
    match running.checked_add(add) {
        Some(v) => {
            if v <= budget {
                Ok(v)
            } else {
                Err(PackageTreeError::RetainedPathBudgetExceeded)
            }
        },
        None => Err(PackageTreeError::RetainedPathBudgetExceeded),
    }
}

/// The retained-path charge against the package budget.
pub fn test_charge_retained_path_bytes(running: usize, add: usize) -> (r: Result<
    usize,
    PackageTreeError,
>)
    ensures
        running + add <= MAX_PACKAGE_RETAINED_PATH_BYTES ==> r == Ok::<usize, PackageTreeError>(
            (running + add) as usize,
        ),
        running + add > MAX_PACKAGE_RETAINED_PATH_BYTES ==> r == Err::<usize, PackageTreeError>(
            PackageTreeError::RetainedPathBudgetExceeded,
        ),
{
    charge_within(running, add, MAX_PACKAGE_RETAINED_PATH_BYTES)
}

fn find_rel_in_dirs(v: &Vec<PlannedDir>, p: &[char]) -> (r: Option<usize>)
    ensures
        match find_rel(dir_views(v@), p@, v@.len() as int) {
            Some(k) => r == Some(k as usize),
            None => r is None,
        },
{
    let mut k: usize = 0;
    while k < v.len()
        invariant
            k <= v@.len(),
            find_rel(dir_views(v@), p@, k as int) is None,
        decreases v.len() - k,
    {
        let c = chars_of(v[k].rel.as_str());
        proof {
            assert(dir_views(v@)[k as int].rel == v@[k as int].rel@);
        }
        if eq_ignore_case(c.as_slice(), p) {
            proof {
                lemma_find_rel_stable(dir_views(v@), p@, k + 1, v@.len() as int);
            }
            return Some(k);
        }
        k = k + 1;
    }
    None
}

fn find_rel_in_files(v: &Vec<PlannedFile>, p: &[char]) -> (r: Option<usize>)
    ensures
        match find_rel(file_views(v@), p@, v@.len() as int) {
            Some(k) => r == Some(k as usize),
            None => r is None,
        },
{
    let mut k: usize = 0;
    while k < v.len()
        invariant
            k <= v@.len(),
            find_rel(file_views(v@), p@, k as int) is None,
        decreases v.len() - k,
    {
        let c = chars_of(v[k].rel.as_str());
        proof {
            assert(file_views(v@)[k as int].rel == v@[k as int].rel@);
        }
        if eq_ignore_case(c.as_slice(), p) {
            proof {
                lemma_find_rel_stable(file_views(v@), p@, k + 1, v@.len() as int);
            }
            return Some(k);
        }
        k = k + 1;
    }
    None
}

proof fn lemma_find_rel_stable(v: Seq<PlannedView>, p: Seq<char>, i: int, n: int)
    requires
        0 <= i <= n,
        find_rel(v, p, i) is Some,
    ensures
        find_rel(v, p, n) == find_rel(v, p, i),
    decreases n - i,
{
    if i < n {
        lemma_find_rel_stable(v, p, i, n - 1);
    }
}

proof fn lemma_find_rel_bound(v: Seq<PlannedView>, p: Seq<char>, n: int)
    ensures
        find_rel(v, p, n) matches Some(k) ==> 0 <= k < n,
    decreases n,
{
    if n > 0 {
        lemma_find_rel_bound(v, p, n - 1);
    }
}

/// The planner itself: `(dirs, files, retained)` grown file by file.
struct Planner {
    dirs: Vec<PlannedDir>,
    files: Vec<PlannedFile>,
    retained: usize,
    budget: usize,
}

impl Planner {
    spec fn view_state(&self) -> PlanState {
        state_of(self.dirs@, self.files@, self.retained as nat)
    }

    /// Plan one file, as `add_file` says.
    #[verifier::loop_isolation(false)]
    fn add_file(&mut self, rel: &str) -> (r: Result<(), PackageTreeError>)
        requires
            old(self).dirs@.len() <= MAX_PACKAGE_DIRS,
            old(self).retained <= old(self).budget,
        ensures
            final(self).budget == old(self).budget,
            final(self).dirs@.len() <= MAX_PACKAGE_DIRS,
            final(self).files@.len() <= old(self).files@.len() + 1,
            final(self).retained <= final(self).budget,
            match add_file(old(self).view_state(), rel@, old(self).budget as nat) {
                Ok(s) => r is Ok && final(self).view_state() == s,
                Err(e) => r matches Err(x) && refusal_is(x, e),
            },
    {
        let v = chars_of(rel);
        let invalid = PackageTreeError::InvalidPackagePath { relative_path: owned(rel) };
        match validate_source_path(0, rel) {
            Err(_) => {
                return Err(invalid);
            },
            Ok(()) => {},
        }
        if has_char(v.as_slice(), '~') {
            return Err(invalid);
        }
        let comps = split_vec(v.as_slice(), '/');
        let ghost cs = split_char(v@, '/');
        proof {
            assert(pieces(comps@) == cs);
            assert(pieces(comps@).len() == comps@.len());
            lemma_split_first(v@, '/');
        }
        let ghost st0 = self.view_state();
        let mut parent: Option<usize> = None;
        let mut prefix: Vec<char> = Vec::new();
        let mut i: usize = 0;
        while i < comps.len()
            invariant
                0 <= i <= comps@.len() == cs.len(),
                cs.len() >= 1,
                pieces(comps@) == cs,
                v@ == rel@,
                self.budget == old(self).budget,
                self.retained <= self.budget,
                self.dirs@.len() <= MAX_PACKAGE_DIRS,
                i < cs.len() ==> self.files@ == old(self).files@,
                self.files@.len() <= old(self).files@.len() + 1,
                i > 0 ==> prefix@ == prefix_of(cs, i - 1),
                i == 0 ==> prefix@.len() == 0,
                prefix@.len() <= 256 * i,
                parent matches Some(ix) ==> ix < self.dirs@.len(),
                add_comps(st0, rel@, cs, 0, None, self.budget as nat) == add_comps(
                    self.view_state(),
                    rel@,
                    cs,
                    i as int,
                    parent,
                    self.budget as nat,
                ),
            decreases comps.len() - i,
        {
            let comp = &comps[i];
            proof {
                assert(comp@ == cs[i as int]);
                assert(payload_component_ok(cs[i as int]));
                assert(cs.len() <= MAX_ARCHIVE_MEMBER_COMPONENTS);
            }
            if i > 0 {
                prefix.push('/');
            }
            append_chars(&mut prefix, comp.as_slice());
            proof {
                if i == 0 {
                    assert(prefix@ =~= cs[0]);
                } else {
                    assert(prefix@ =~= prefix_of(cs, i - 1) + seq!['/'] + cs[i as int]);
                }
                assert(prefix@ == prefix_of(cs, i as int));
            }
            let is_leaf = i + 1 == comps.len();
            let ghost st = self.view_state();
            let pslice = prefix.as_slice();
            let found_file = find_rel_in_files(&self.files, pslice);
            proof {
                assert(pslice@ == prefix@);
                lemma_find_rel_bound(file_views(self.files@), prefix@, self.files@.len() as int);
            }
            match found_file {
                Some(k) => {
                    proof {
                        lemma_find_rel_bound(file_views(self.files@), prefix@, self.files@.len() as int);
                        assert(file_views(self.files@)[k as int].rel == self.files@[k as int].rel@);
                        assert(st.files == file_views(self.files@));
                        assert(st.files.len() == self.files@.len());
                        let ghost fr = find_rel(file_views(self.files@), prefix@, self.files@.len() as int);
                        assert(self.files@.len() == self.files.len());
                        assert(0 <= fr->0 < self.files@.len());
                        assert(find_rel(st.files, prefix@, st.files.len() as int) == Some(k as int));
                        assert(taken(st, prefix@) == Some(Taken::File(st.files[k as int].rel)));
                        assert(add_comps(st, rel@, cs, i as int, parent, self.budget as nat) == Err::<
                            PlanState,
                            PlanRefusal,
                        >(PlanRefusal::Collision(st.files[k as int].rel, rel@)));
                    }
                    return Err(
                        PackageTreeError::PathCollision {
                            first: owned(self.files[k].rel.as_str()),
                            second: owned(rel),
                        },
                    );
                },
                None => {},
            }
            match find_rel_in_dirs(&self.dirs, prefix.as_slice()) {
                Some(ix) => {
                    proof {
                        assert(self.dirs@.len() == self.dirs.len());
                        lemma_find_rel_bound(dir_views(self.dirs@), prefix@, self.dirs@.len() as int);
                        assert(dir_views(self.dirs@)[ix as int].rel == self.dirs@[ix as int].rel@);
                    }
                    if is_leaf {
                        return Err(
                            PackageTreeError::PathCollision {
                                first: owned(self.dirs[ix].rel.as_str()),
                                second: owned(rel),
                            },
                        );
                    }
                    parent = Some(ix);
                },
                None => {
                    if is_leaf {
                        let add = v.len() + comp.len();
                        let charged = match charge_within(self.retained, add, self.budget) {
                            Err(e) => {
                                return Err(e);
                            },
                            Ok(c) => c,
                        };
                        self.retained = charged;
                        let ghost before = file_views(self.files@);
                        self.files.push(
                            PlannedFile {
                                rel: owned(rel),
                                parent,
                                leaf: string_of(comp.as_slice()),
                            },
                        );
                        proof {
                            assert(file_views(self.files@) =~= before.push(
                                PlannedView { rel: rel@, parent, leaf: cs[i as int] },
                            ));
                        }
                    } else {
                        if self.dirs.len() >= MAX_PACKAGE_DIRS {
                            return Err(PackageTreeError::TooManyDirectories);
                        }
                        let add = prefix.len() + comp.len();
                        let charged = match charge_within(self.retained, add, self.budget) {
                            Err(e) => {
                                return Err(e);
                            },
                            Ok(c) => c,
                        };
                        self.retained = charged;
                        let ix = self.dirs.len();
                        let ghost before = dir_views(self.dirs@);
                        self.dirs.push(
                            PlannedDir {
                                rel: string_of(prefix.as_slice()),
                                parent,
                                leaf: string_of(comp.as_slice()),
                            },
                        );
                        proof {
                            assert(dir_views(self.dirs@) =~= before.push(
                                PlannedView { rel: prefix@, parent, leaf: cs[i as int] },
                            ));
                        }
                        parent = Some(ix);
                    }
                },
            }
            i = i + 1;
        }
        Ok(())
    }
}

/// The plan of a package tree for `root_leaves` (single names directly in
/// the root) and `paths` (relative, `/`-separated), with `budget` bytes of
/// retained path text.
#[verifier::loop_isolation(false)]
#[verifier::rlimit(50)]
pub fn plan_package_with_budget(root_leaves: &[&str], paths: &[&str], budget: usize) -> (r: Result<
    PackagePlan,
    PackageTreeError,
>)
    ensures
        match plan_spec(str_seqs(root_leaves@), str_seqs(paths@), budget as nat) {
            Ok(s) => r matches Ok(p) && state_of(p.dirs@, p.files@, s.retained) == s,
            Err(e) => r matches Err(x) && refusal_is(x, e),
        },
{
    if root_leaves.len() > MAX_PACKAGE_ROOT_LEAVES || paths.len() > MAX_PACKAGE_PATH_FILES {
        return Err(PackageTreeError::TooManyFiles);
    }
    let mut p = Planner { dirs: Vec::new(), files: Vec::new(), retained: 0, budget };
    proof {
        assert(dir_views(p.dirs@) =~= Seq::<PlannedView>::empty());
        assert(file_views(p.files@) =~= Seq::<PlannedView>::empty());
        assert(p.view_state() == empty_plan_state());
    }
    let ghost leaves = str_seqs(root_leaves@);
    let mut i: usize = 0;
    while i < root_leaves.len()
        invariant
            i <= root_leaves@.len() <= MAX_PACKAGE_ROOT_LEAVES,
            leaves == str_seqs(root_leaves@),
            p.budget == budget,
            p.retained <= p.budget,
            p.dirs@.len() <= MAX_PACKAGE_DIRS,
            p.files@.len() <= i,
            add_leaves(empty_plan_state(), leaves, i as int, budget as nat) == Ok::<
                PlanState,
                PlanRefusal,
            >(p.view_state()),
        decreases root_leaves.len() - i,
    {
        let leaf = root_leaves[i];
        proof {
            assert(leaves[i as int] == leaf@);
        }
        let lv = chars_of(leaf);
        if has_char(lv.as_slice(), '/') {
            proof {
                assert(add_leaves(empty_plan_state(), leaves, i + 1, budget as nat) == Err::<
                    PlanState,
                    PlanRefusal,
                >(PlanRefusal::InvalidPath(leaves[i as int])));
                lemma_add_leaves_err(empty_plan_state(), leaves, i + 1, leaves.len() as int, budget as nat);
                assert(plan_spec(leaves, str_seqs(paths@), budget as nat) == Err::<
                    PlanState,
                    PlanRefusal,
                >(PlanRefusal::InvalidPath(leaves[i as int])));
            }
            return Err(PackageTreeError::InvalidPackagePath { relative_path: owned(leaf) });
        }
        match p.add_file(leaf) {
            Err(e) => {
                proof {
                    lemma_add_leaves_err(empty_plan_state(), leaves, i + 1, leaves.len() as int, budget as nat);
                }
                return Err(e);
            },
            Ok(()) => {},
        }
        i = i + 1;
    }
    let ghost ps = str_seqs(paths@);
    let ghost s0 = p.view_state();
    let mut j: usize = 0;
    while j < paths.len()
        invariant
            j <= paths@.len() <= MAX_PACKAGE_PATH_FILES,
            ps == str_seqs(paths@),
            p.budget == budget,
            p.retained <= p.budget,
            p.dirs@.len() <= MAX_PACKAGE_DIRS,
            p.files@.len() <= MAX_PACKAGE_ROOT_LEAVES + j,
            add_paths(s0, ps, j as int, budget as nat) == Ok::<PlanState, PlanRefusal>(p.view_state()),
        decreases paths.len() - j,
    {
        let path = paths[j];
        proof {
            assert(ps[j as int] == path@);
        }
        match p.add_file(path) {
            Err(e) => {
                proof {
                    lemma_add_paths_err(s0, ps, j + 1, ps.len() as int, budget as nat);
                }
                return Err(e);
            },
            Ok(()) => {},
        }
        j = j + 1;
    }
    Ok(PackagePlan { dirs: p.dirs, files: p.files })
}

proof fn lemma_add_leaves_err(st: PlanState, leaves: Seq<Seq<char>>, i: int, n: int, budget: nat)
    requires
        0 <= i <= n,
        add_leaves(st, leaves, i, budget) is Err,
    ensures
        add_leaves(st, leaves, n, budget) == add_leaves(st, leaves, i, budget),
    decreases n - i,
{
    if i < n {
        lemma_add_leaves_err(st, leaves, i, n - 1, budget);
    }
}

proof fn lemma_add_paths_err(st: PlanState, paths: Seq<Seq<char>>, i: int, n: int, budget: nat)
    requires
        0 <= i <= n,
        add_paths(st, paths, i, budget) is Err,
    ensures
        add_paths(st, paths, n, budget) == add_paths(st, paths, i, budget),
    decreases n - i,
{
    if i < n {
        lemma_add_paths_err(st, paths, i, n - 1, budget);
    }
}

/// The plan's `(directories, files)` counts, or its refusal, at the package
/// budget.
pub fn test_plan_package(root_leaves: &[&str], paths: &[&str]) -> (r: Result<
    (usize, usize),
    PackageTreeError,
>)
    ensures
        match plan_spec(
            str_seqs(root_leaves@),
            str_seqs(paths@),
            MAX_PACKAGE_RETAINED_PATH_BYTES as nat,
        ) {
            Ok(s) => r == Ok::<(usize, usize), PackageTreeError>(
                (s.dirs.len() as usize, s.files.len() as usize),
            ),
            Err(e) => r matches Err(x) && refusal_is(x, e),
        },
{
    test_plan_package_with_budget(root_leaves, paths, MAX_PACKAGE_RETAINED_PATH_BYTES)
}

/// The plan's `(directories, files)` counts, or its refusal, at an explicit
/// retained-text budget.
pub fn test_plan_package_with_budget(root_leaves: &[&str], paths: &[&str], budget: usize) -> (r:
    Result<(usize, usize), PackageTreeError>)
    ensures
        match plan_spec(str_seqs(root_leaves@), str_seqs(paths@), budget as nat) {
            Ok(s) => r == Ok::<(usize, usize), PackageTreeError>(
                (s.dirs.len() as usize, s.files.len() as usize),
            ),
            Err(e) => r matches Err(x) && refusal_is(x, e),
        },
{
    match plan_package_with_budget(root_leaves, paths, budget) {
        Ok(p) => {
            let d = p.dirs.len();
            let f = p.files.len();
            Ok((d, f))
        },
        Err(e) => Err(e),
    }
}

// ---------------------------------------------------------------------------
// Laws
// ---------------------------------------------------------------------------

/// No two planned names are equal up to ASCII case, every directory's
/// parent is planned before it, and every file's parent is a planned
/// directory.
pub open spec fn plan_well_formed(st: PlanState) -> bool {
    &&& forall|i: int, j: int|
        0 <= i < j < st.dirs.len() ==> !eq_ic(#[trigger] st.dirs[i].rel, #[trigger] st.dirs[j].rel)
    &&& forall|i: int, j: int|
        0 <= i < j < st.files.len() ==> !eq_ic(
            #[trigger] st.files[i].rel,
            #[trigger] st.files[j].rel,
        )
    &&& forall|i: int, j: int|
        0 <= i < st.dirs.len() && 0 <= j < st.files.len() ==> !eq_ic(
            #[trigger] st.dirs[i].rel,
            #[trigger] st.files[j].rel,
        )
    &&& forall|i: int|
        0 <= i < st.dirs.len() ==> ((#[trigger] st.dirs[i]).parent matches Some(p) ==> p < i)
    &&& forall|j: int|
        0 <= j < st.files.len() ==> ((#[trigger] st.files[j]).parent matches Some(p) ==> p
            < st.dirs.len())
}

proof fn lemma_find_rel_none(v: Seq<PlannedView>, p: Seq<char>, n: int)
    requires
        0 <= n <= v.len(),
        find_rel(v, p, n) is None,
    ensures
        forall|i: int| 0 <= i < n ==> !eq_ic(#[trigger] v[i].rel, p),
    decreases n,
{
    if n > 0 {
        lemma_find_rel_none(v, p, n - 1);
    }
}

proof fn lemma_eq_ic_symmetric(a: Seq<char>, b: Seq<char>)
    ensures
        eq_ic(a, b) == eq_ic(b, a),
{
    if eq_ic(a, b) {
        assert forall|i: int| 0 <= i < b.len() implies lower(#[trigger] b[i]) == lower(a[i]) by {
            assert(lower(a[i]) == lower(b[i]));
        }
    }
    if eq_ic(b, a) {
        assert forall|i: int| 0 <= i < a.len() implies lower(#[trigger] a[i]) == lower(b[i]) by {
            assert(lower(b[i]) == lower(a[i]));
        }
    }
}

proof fn lemma_add_comps_wf(
    st: PlanState,
    rel: Seq<char>,
    comps: Seq<Seq<char>>,
    i: int,
    parent: Option<usize>,
    budget: nat,
)
    requires
        plan_well_formed(st),
        parent matches Some(p) ==> p < st.dirs.len(),
        comps == split_char(rel, '/'),
    ensures
        add_comps(st, rel, comps, i, parent, budget) matches Ok(s2) ==> plan_well_formed(s2),
    decreases comps.len() - i,
{
    if 0 <= i < comps.len() {
        let prefix = prefix_of(comps, i);
        let comp = comps[i];
        lemma_find_rel_bound(st.dirs, prefix, st.dirs.len() as int);
        match taken(st, prefix) {
            Some(Taken::File(_)) => {},
            Some(Taken::Dir(ix)) => {
                if i + 1 != comps.len() {
                    lemma_add_comps_wf(st, rel, comps, i + 1, Some(ix as usize), budget);
                }
            },
            None => {
                lemma_find_rel_none(st.files, prefix, st.files.len() as int);
                lemma_find_rel_none(st.dirs, prefix, st.dirs.len() as int);
                if i + 1 == comps.len() {
                    if st.retained + rel.len() + comp.len() <= budget {
                        let f = PlannedView { rel, parent, leaf: comp };
                        let s2 = PlanState {
                            dirs: st.dirs,
                            files: st.files.push(f),
                            retained: st.retained + rel.len() + comp.len(),
                        };
                        assert(prefix == rel) by {
                            lemma_prefix_last_is_rel(rel, comps, i);
                        }
                        assert(plan_well_formed(s2)) by {
                            assert forall|a: int, b: int| 0 <= a < b < s2.files.len() implies !eq_ic(
                                #[trigger] s2.files[a].rel,
                                #[trigger] s2.files[b].rel,
                            ) by {
                                if b == s2.files.len() - 1 {
                                    assert(s2.files[a] == st.files[a]);
                                } else {
                                    assert(s2.files[a] == st.files[a]);
                                    assert(s2.files[b] == st.files[b]);
                                }
                            }
                            assert forall|a: int, b: int|
                                0 <= a < s2.dirs.len() && 0 <= b < s2.files.len() implies !eq_ic(
                                #[trigger] s2.dirs[a].rel,
                                #[trigger] s2.files[b].rel,
                            ) by {
                                if b < st.files.len() {
                                    assert(s2.files[b] == st.files[b]);
                                }
                            }
                            assert forall|b: int| 0 <= b < s2.files.len() implies ((
                            #[trigger] s2.files[b]).parent matches Some(p) ==> p
                                < s2.dirs.len()) by {
                                if b < st.files.len() {
                                    assert(s2.files[b] == st.files[b]);
                                }
                            }
                        }
                    }
                } else if st.dirs.len() < MAX_PACKAGE_DIRS && st.retained + prefix.len() + comp.len()
                    <= budget {
                    let d = PlannedView { rel: prefix, parent, leaf: comp };
                    let s2 = PlanState {
                        dirs: st.dirs.push(d),
                        files: st.files,
                        retained: st.retained + prefix.len() + comp.len(),
                    };
                    assert(plan_well_formed(s2)) by {
                        assert forall|a: int, b: int| 0 <= a < b < s2.dirs.len() implies !eq_ic(
                            #[trigger] s2.dirs[a].rel,
                            #[trigger] s2.dirs[b].rel,
                        ) by {
                            if b == s2.dirs.len() - 1 {
                                assert(s2.dirs[a] == st.dirs[a]);
                            } else {
                                assert(s2.dirs[a] == st.dirs[a]);
                                assert(s2.dirs[b] == st.dirs[b]);
                            }
                        }
                        assert forall|a: int, b: int|
                            0 <= a < s2.dirs.len() && 0 <= b < s2.files.len() implies !eq_ic(
                            #[trigger] s2.dirs[a].rel,
                            #[trigger] s2.files[b].rel,
                        ) by {
                            if a == s2.dirs.len() - 1 {
                                assert(!eq_ic(st.files[b].rel, prefix));
                                lemma_eq_ic_symmetric(st.files[b].rel, prefix);
                            } else {
                                assert(s2.dirs[a] == st.dirs[a]);
                            }
                        }
                        assert forall|a: int| 0 <= a < s2.dirs.len() implies ((
                        #[trigger] s2.dirs[a]).parent matches Some(p) ==> p < a) by {
                            if a < st.dirs.len() {
                                assert(s2.dirs[a] == st.dirs[a]);
                            }
                        }
                    }
                    lemma_add_comps_wf(s2, rel, comps, i + 1, Some(st.dirs.len() as usize), budget);
                }
            },
        }
    }
}

/// The last prefix of the components of a path is the path itself.
proof fn lemma_prefix_last_is_rel(rel: Seq<char>, comps: Seq<Seq<char>>, i: int)
    requires
        comps == split_char(rel, '/'),
        i == comps.len() - 1,
        i >= 0,
    ensures
        prefix_of(comps, i) == rel,
{
    lemma_join_split(rel);
}

/// Joining the pieces of `s.split('/')` with `/` gives `s` back.
proof fn lemma_join_split(s: Seq<char>)
    ensures
        split_char(s, '/').len() >= 1,
        prefix_of(split_char(s, '/'), split_char(s, '/').len() - 1) == s,
    decreases s.len(),
{
    lemma_first_idx_bound(s, '/');
    let f = first_idx(s, '/');
    if f < s.len() {
        let rest = s.skip(f + 1int);
        lemma_join_split(rest);
        let cr = split_char(rest, '/');
        let cs = split_char(s, '/');
        assert(cs == seq![s.take(f as int)] + cr);
        lemma_prefix_shift(s.take(f as int), cr, cr.len() - 1);
        assert(s =~= s.take(f as int) + seq!['/'] + rest);
    } else {
        lemma_split_none(s, '/');
    }
}

/// Prefixes of `[h] + t` are `h`, `/` and the prefixes of `t`.
proof fn lemma_prefix_shift(h: Seq<char>, t: Seq<Seq<char>>, k: int)
    requires
        0 <= k < t.len(),
    ensures
        prefix_of(seq![h] + t, k + 1) == h + seq!['/'] + prefix_of(t, k),
    decreases k,
{
    let cs = seq![h] + t;
    assert(prefix_of(cs, k + 1) == prefix_of(cs, k) + seq!['/'] + cs[k + 1]);
    if k > 0 {
        lemma_prefix_shift(h, t, k - 1);
        assert(cs[k + 1] == t[k]);
        assert(prefix_of(t, k) == prefix_of(t, k - 1) + seq!['/'] + t[k]);
        assert(h + seq!['/'] + prefix_of(t, k - 1) + seq!['/'] + t[k] =~= h + seq!['/'] + (
        prefix_of(t, k - 1) + seq!['/'] + t[k]));
    } else {
        assert(cs[0] == h);
        assert(cs[1] == t[0]);
        assert(prefix_of(cs, 0) == h);
        assert(prefix_of(t, 0) == t[0]);
    }
}

proof fn lemma_add_leaves_wf(st: PlanState, leaves: Seq<Seq<char>>, n: int, budget: nat)
    requires
        plan_well_formed(st),
    ensures
        add_leaves(st, leaves, n, budget) matches Ok(s2) ==> plan_well_formed(s2),
    decreases n,
{
    if n > 0 {
        lemma_add_leaves_wf(st, leaves, n - 1, budget);
        if let Ok(s1) = add_leaves(st, leaves, n - 1, budget) {
            lemma_add_comps_wf(s1, leaves[n - 1], split_char(leaves[n - 1], '/'), 0, None, budget);
        }
    }
}

proof fn lemma_add_paths_wf(st: PlanState, paths: Seq<Seq<char>>, n: int, budget: nat)
    requires
        plan_well_formed(st),
    ensures
        add_paths(st, paths, n, budget) matches Ok(s2) ==> plan_well_formed(s2),
    decreases n,
{
    if n > 0 {
        lemma_add_paths_wf(st, paths, n - 1, budget);
        if let Ok(s1) = add_paths(st, paths, n - 1, budget) {
            lemma_add_comps_wf(s1, paths[n - 1], split_char(paths[n - 1], '/'), 0, None, budget);
        }
    }
}

/// Whatever names are requested, an accepted plan never holds two names
/// equal up to ASCII case (a collision is refused, never merged), plans
/// every directory after its parent, and places every file in the root or
/// a planned directory.
pub proof fn planned_names_never_collide(leaves: Seq<Seq<char>>, paths: Seq<Seq<char>>, budget: nat)
    ensures
        plan_spec(leaves, paths, budget) matches Ok(s) ==> plan_well_formed(s),
{
    lemma_add_leaves_wf(empty_plan_state(), leaves, leaves.len() as int, budget);
    if let Ok(s1) = add_leaves(empty_plan_state(), leaves, leaves.len() as int, budget) {
        lemma_add_paths_wf(s1, paths, paths.len() as int, budget);
    }
}

} // verus!
