//! Copying, moving and syncing files under the media root: the plan of
//! steps that an operation takes. Every file that an operation would
//! overwrite or remove goes to the trash first.
use vstd::prelude::*;
use crate::text::push_str;
use crate::types::str_eq;
use crate::error::{KijukuError, joined};
use crate::import::{split_char, lemma_split_char_nonempty};
use crate::records::{chars_of, string_of};

verus! {

broadcast use vstd::std_specs::vec::group_vec_axioms;

/// Options of a file operation.
#[derive(Debug, Clone, Copy, PartialEq, Eq, Structural)]
pub struct FileOpOptions {
    /// Carry the plan out; when `false` (the default) the plan is only shown.
    pub apply: bool,
    /// Follow the move in the database paths (accepted, not yet acted on).
    pub update_db: bool,
}

impl Default for FileOpOptions {
    fn default() -> (r: Self)
        ensures
            !r.apply,
            !r.update_db,
    {
        FileOpOptions { apply: false, update_db: false }
    }
}

/// One step of a file operation; paths are relative to the media root.
pub enum FileOpStep {
    Copy { from: String, to: String },
    Move { from: String, to: String },
    Trash { path: String, reason: String },
}

/// Value of a step.
pub enum StepView {
    Copy { from: Seq<char>, to: Seq<char> },
    Move { from: Seq<char>, to: Seq<char> },
    Trash { path: Seq<char>, reason: Seq<char> },
}

impl View for FileOpStep {
    type V = StepView;

    open spec fn view(&self) -> StepView {
        match self {
            FileOpStep::Copy { from, to } => StepView::Copy { from: from@, to: to@ },
            FileOpStep::Move { from, to } => StepView::Move { from: from@, to: to@ },
            FileOpStep::Trash { path, reason } => StepView::Trash { path: path@, reason: reason@ },
        }
    }
}

/// The plan of an operation, and whether it is to be carried out.
pub struct FileOpResult {
    pub steps: Vec<FileOpStep>,
    pub applied: bool,
}

/// Values of steps.
pub open spec fn step_views(s: Seq<FileOpStep>) -> Seq<StepView> {
    s.map_values(|x: FileOpStep| x@)
}

/// A file of the source directory of a sync.
pub struct SyncSource {
    /// Path relative to the source directory.
    pub rel: String,
    /// Whether its content differs from the file at the same place in the
    /// destination (also when either cannot be read).
    pub differs: bool,
    /// Whether a file exists at that place in the destination.
    pub target_exists: bool,
}

/// A path relative to the root, joined from a directory relative to the
/// root (empty for the root itself) and a path relative to it.
pub open spec fn join_rel(dir: Seq<char>, rel: Seq<char>) -> Seq<char> {
    if dir.len() == 0 { rel } else { dir + "/"@ + rel }
}

fn join_path(dir: &str, rel: &str) -> (r: String)
    ensures
        r@ == join_rel(dir@, rel@),
{
    let mut s = String::new();
    if !dir.is_empty() {
        push_str(&mut s, dir);
        push_str(&mut s, "/");
    }
    push_str(&mut s, rel);
    proof {
        if dir@.len() == 0 {
            assert(s@ =~= rel@);
        } else {
            assert(s@ =~= dir@ + "/"@ + rel@);
        }
    }
    s
}

fn text(s: &str) -> (r: String)
    ensures
        r@ == s@,
{
    s.to_string()
}

/// The plan of a copy or a move from `src` to `dst`: the existing
/// destination goes to the trash first.
pub open spec fn transfer_plan(src: Seq<char>, dst: Seq<char>, dst_exists: bool, moving: bool) -> Seq<StepView> {
    let last = if moving { StepView::Move { from: src, to: dst } } else { StepView::Copy { from: src, to: dst } };
    let reason = if moving { "media_mv overwrite"@ } else { "media_cp overwrite"@ };
    if dst_exists {
        seq![StepView::Trash { path: dst, reason }, last]
    } else {
        seq![last]
    }
}

/// Plans copying `src` to `dst` (paths relative to the media root, as
/// resolved); `dst_exists` tells whether the destination exists.
pub fn media_cp(src: &str, dst: &str, dst_exists: bool, opts: &FileOpOptions) -> (r: FileOpResult)
    ensures
        step_views(r.steps@) == transfer_plan(src@, dst@, dst_exists, false),
        r.applied == opts.apply,
{
    let mut steps: Vec<FileOpStep> = Vec::new();
    if dst_exists {
        steps.push(FileOpStep::Trash { path: text(dst), reason: text("media_cp overwrite") });
    }
    steps.push(FileOpStep::Copy { from: text(src), to: text(dst) });
    assert(step_views(steps@) =~= transfer_plan(src@, dst@, dst_exists, false));
    FileOpResult { steps, applied: opts.apply }
}

/// Plans moving `src` to `dst` (paths relative to the media root, as
/// resolved); `dst_exists` tells whether the destination exists.
pub fn media_mv(src: &str, dst: &str, dst_exists: bool, opts: &FileOpOptions) -> (r: FileOpResult)
    ensures
        step_views(r.steps@) == transfer_plan(src@, dst@, dst_exists, true),
        r.applied == opts.apply,
{
    let mut steps: Vec<FileOpStep> = Vec::new();
    if dst_exists {
        steps.push(FileOpStep::Trash { path: text(dst), reason: text("media_mv overwrite") });
    }
    steps.push(FileOpStep::Move { from: text(src), to: text(dst) });
    assert(step_views(steps@) =~= transfer_plan(src@, dst@, dst_exists, true));
    FileOpResult { steps, applied: opts.apply }
}

/// Whether `rel` is the path of one of the source files.
pub open spec fn in_sources(srcs: Seq<SyncSource>, rel: Seq<char>) -> bool {
    exists|i: int| 0 <= i < srcs.len() && #[trigger] srcs[i].rel@ == rel
}

/// Trash steps for the destination files that the source lacks, in order.
pub open spec fn extra_steps(dst_dir: Seq<char>, srcs: Seq<SyncSource>, dsts: Seq<String>) -> Seq<StepView>
    decreases dsts.len(),
{
    if dsts.len() == 0 {
        Seq::empty()
    } else {
        let rest = extra_steps(dst_dir, srcs, dsts.drop_last());
        if in_sources(srcs, dsts.last()@) {
            rest
        } else {
            rest.push(StepView::Trash { path: join_rel(dst_dir, dsts.last()@), reason: "media_sync extra"@ })
        }
    }
}

/// Steps for one source file: none when it is the same as its counterpart;
/// else the old counterpart to the trash (when there is one) and a copy.
pub open spec fn update_steps_of(src_dir: Seq<char>, dst_dir: Seq<char>, s: SyncSource) -> Seq<StepView> {
    let copy = StepView::Copy { from: join_rel(src_dir, s.rel@), to: join_rel(dst_dir, s.rel@) };
    if !s.differs {
        Seq::empty()
    } else if s.target_exists {
        seq![StepView::Trash { path: join_rel(dst_dir, s.rel@), reason: "media_sync update"@ }, copy]
    } else {
        seq![copy]
    }
}

/// Steps for the source files, in order.
pub open spec fn update_steps(src_dir: Seq<char>, dst_dir: Seq<char>, srcs: Seq<SyncSource>) -> Seq<StepView>
    decreases srcs.len(),
{
    if srcs.len() == 0 {
        Seq::empty()
    } else {
        update_steps(src_dir, dst_dir, srcs.drop_last()) + update_steps_of(src_dir, dst_dir, srcs.last())
    }
}

fn in_sources_exec(srcs: &Vec<SyncSource>, rel: &str) -> (r: bool)
    ensures
        r == in_sources(srcs@, rel@),
{
    let mut i: usize = 0;
    while i < srcs.len()
        invariant
            i <= srcs@.len(),
            forall|j: int| 0 <= j < i ==> #[trigger] srcs@[j].rel@ != rel@,
        decreases srcs@.len() - i,
    {
        if str_eq(srcs[i].rel.as_str(), rel) {
            return true;
        }
        i = i + 1;
    }
    false
}

/// Plans syncing the directory `src_dir` into `dst_dir` (paths relative to
/// the media root, as resolved): the destination files that the source
/// lacks go to the trash; each source file that differs from its
/// counterpart is copied over, the old counterpart going to the trash first.
pub fn media_sync(src_dir: &str, dst_dir: &str, srcs: &Vec<SyncSource>, dsts: &Vec<String>, opts: &FileOpOptions)
    -> (r: FileOpResult)
    ensures
        step_views(r.steps@) == extra_steps(dst_dir@, srcs@, dsts@) + update_steps(src_dir@, dst_dir@, srcs@),
        r.applied == opts.apply,
{
    let mut steps: Vec<FileOpStep> = Vec::new();
    let mut i: usize = 0;
    while i < dsts.len()
        invariant
            i <= dsts@.len(),
            step_views(steps@) == extra_steps(dst_dir@, srcs@, dsts@.take(i as int)),
        decreases dsts@.len() - i,
    {
        let ghost before = steps@;
        if !in_sources_exec(srcs, dsts[i].as_str()) {
            steps.push(FileOpStep::Trash { path: join_path(dst_dir, dsts[i].as_str()), reason: text("media_sync extra") });
        }
        proof {
            assert(dsts@.take(i + 1).drop_last() =~= dsts@.take(i as int));
            assert(step_views(steps@) =~= extra_steps(dst_dir@, srcs@, dsts@.take(i + 1)));
        }
        i = i + 1;
    }
    assert(dsts@.take(dsts@.len() as int) =~= dsts@);
    let ghost head = step_views(steps@);
    let mut j: usize = 0;
    while j < srcs.len()
        invariant
            j <= srcs@.len(),
            step_views(steps@) == head + update_steps(src_dir@, dst_dir@, srcs@.take(j as int)),
        decreases srcs@.len() - j,
    {
        let s = &srcs[j];
        let ghost mid = steps@;
        if s.differs {
            if s.target_exists {
                steps.push(FileOpStep::Trash { path: join_path(dst_dir, s.rel.as_str()), reason: text("media_sync update") });
            }
            steps.push(FileOpStep::Copy { from: join_path(src_dir, s.rel.as_str()), to: join_path(dst_dir, s.rel.as_str()) });
        }
        proof {
            let t = srcs@.take(j + 1);
            assert(t.drop_last() =~= srcs@.take(j as int));
            assert(t.last() == srcs@[j as int]);
            assert(update_steps(src_dir@, dst_dir@, t) == update_steps(src_dir@, dst_dir@, srcs@.take(j as int))
                + update_steps_of(src_dir@, dst_dir@, *s));
            assert(step_views(steps@) =~= step_views(mid) + update_steps_of(src_dir@, dst_dir@, *s));
            assert(step_views(steps@) =~= head + update_steps(src_dir@, dst_dir@, srcs@.take(j + 1)));
        }
        j = j + 1;
    }
    assert(srcs@.take(srcs@.len() as int) =~= srcs@);
    FileOpResult { steps, applied: opts.apply }
}

/// The non-empty pieces among `ps`, in order.
pub open spec fn nonempty_pieces(ps: Seq<Seq<char>>) -> Seq<Seq<char>>
    decreases ps.len(),
{
    if ps.len() == 0 {
        Seq::empty()
    } else if ps.last().len() == 0 {
        nonempty_pieces(ps.drop_last())
    } else {
        nonempty_pieces(ps.drop_last()).push(ps.last())
    }
}

/// The components of a path text: the pieces between `/`s, empty ones left
/// out.
pub open spec fn path_components(p: Seq<char>) -> Seq<Seq<char>> {
    nonempty_pieces(split_char(p, '/'))
}

/// Path `target` is `root` or lies under it: the components of `root` begin
/// those of `target`.
pub open spec fn path_under(target: Seq<char>, root: Seq<char>) -> bool {
    let t = path_components(target);
    let r = path_components(root);
    r.len() <= t.len() && t.take(r.len() as int) == r
}

/// The components of a path text (see `path_components`).
pub fn components_of(p: &str) -> (r: Vec<String>)
    ensures
        r@.map_values(|c: String| c@) == path_components(p@),
{
    let cs = chars_of(p);
    let mut out: Vec<String> = Vec::new();
    let mut start: usize = 0;
    let mut i: usize = 0;
    proof {
        assert(cs@.take(0) =~= Seq::<char>::empty());
        assert(split_char(Seq::<char>::empty(), '/').drop_last() =~= Seq::<Seq<char>>::empty());
        assert(cs@.subrange(0, 0) =~= Seq::<char>::empty());
        assert(out@.map_values(|c: String| c@) =~= Seq::<Seq<char>>::empty());
    }
    while i < cs.len()
        invariant
            cs@ == p@,
            start <= i <= cs@.len(),
            split_char(cs@.take(i as int), '/').len() >= 1,
            split_char(cs@.take(i as int), '/').last() == cs@.subrange(start as int, i as int),
            out@.map_values(|c: String| c@) == nonempty_pieces(split_char(cs@.take(i as int), '/').drop_last()),
        decreases cs@.len() - i,
    {
        let ghost sc = split_char(cs@.take(i as int), '/');
        proof {
            assert(cs@.take(i + 1).drop_last() =~= cs@.take(i as int));
            assert(cs@.take(i + 1).last() == cs@[i as int]);
        }
        if cs[i] == '/' {
            let ghost sc2 = split_char(cs@.take(i + 1), '/');
            assert(sc2 == sc.push(Seq::<char>::empty()));
            assert(sc2.drop_last() =~= sc);
            if start < i {
                let ghost before = out@;
                out.push(string_of(&cs, start, i));
                assert(out@.map_values(|c: String| c@) =~= before.map_values(|c: String| c@).push(cs@.subrange(start as int, i as int)));
            }
            start = i + 1;
            assert(cs@.subrange(start as int, start as int) =~= Seq::<char>::empty());
        } else {
            let ghost sc2 = split_char(cs@.take(i + 1), '/');
            assert(sc2 == sc.update(sc.len() - 1, sc.last().push(cs@[i as int])));
            assert(sc2.drop_last() =~= sc.drop_last());
            assert(sc2.last() =~= cs@.subrange(start as int, i + 1));
        }
        i = i + 1;
    }
    proof {
        assert(cs@.take(cs@.len() as int) =~= cs@);
    }
    if start < i {
        let ghost before = out@;
        out.push(string_of(&cs, start, i));
        assert(out@.map_values(|c: String| c@) =~= before.map_values(|c: String| c@).push(cs@.subrange(start as int, i as int)));
    }
    out
}

/// Whether path `target` is `root` or lies under it (see `path_under`).
pub fn is_under(target: &str, root: &str) -> (r: bool)
    ensures
        r == path_under(target@, root@),
{
    let t = components_of(target);
    let rc = components_of(root);
    let ghost tv = t@.map_values(|c: String| c@);
    let ghost rv = rc@.map_values(|c: String| c@);
    assert(tv.len() == t@.len() && rv.len() == rc@.len());
    if rc.len() > t.len() {
        return false;
    }
    let mut k: usize = 0;
    while k < rc.len()
        invariant
            rc@.len() <= t@.len(),
            k <= rc@.len(),
            tv == t@.map_values(|c: String| c@),
            rv == rc@.map_values(|c: String| c@),
            tv.len() == t@.len(),
            rv.len() == rc@.len(),
            tv == path_components(target@),
            rv == path_components(root@),
            forall|j: int| 0 <= j < k ==> tv[j] == rv[j],
        decreases rc@.len() - k,
    {
        assert(tv[k as int] == t@[k as int]@ && rv[k as int] == rc@[k as int]@);
        if !str_eq(t[k].as_str(), rc[k].as_str()) {
            assert(tv.take(rv.len() as int)[k as int] != rv[k as int]);
            assert(tv.take(rv.len() as int) != rv);
            return false;
        }
        k = k + 1;
    }
    assert(tv.take(rv.len() as int) =~= rv);
    true
}

/// The message of a path outside the media root.
pub open spec fn outside_root_text(target: Seq<char>, root: Seq<char>) -> Seq<char> {
    "target is not under media root: "@ + target + " (root: "@ + root + ")"@
}

/// Path `target` relative to `root`: the components of `target` past those
/// of `root`, joined with `/` (empty for the root itself, and when `target`
/// has no more components than `root`).
pub open spec fn rel_path(target: Seq<char>, root: Seq<char>) -> Seq<char> {
    let t = path_components(target);
    let n = path_components(root).len();
    if n <= t.len() { joined(t.skip(n as int), "/"@) } else { Seq::empty() }
}

/// Path `target` relative to `root` (see `rel_path`).
fn relative_path(target: &str, root: &str) -> (r: String)
    ensures
        r@ == rel_path(target@, root@),
{
    let t = components_of(target);
    let n = components_of(root).len();
    let ghost tv = t@.map_values(|c: String| c@);
    assert(tv.len() == t@.len());
    let mut s = String::new();
    if n > t.len() {
        return s;
    }
    let mut i: usize = n;
    assert(tv.subrange(n as int, n as int) =~= Seq::<Seq<char>>::empty());
    while i < t.len()
        invariant
            n <= i <= t@.len(),
            tv == t@.map_values(|c: String| c@),
            tv.len() == t@.len(),
            s@ == joined(tv.subrange(n as int, i as int), "/"@),
        decreases t@.len() - i,
    {
        if i > n {
            push_str(&mut s, "/");
        }
        push_str(&mut s, t[i].as_str());
        proof {
            let u = tv.subrange(n as int, i + 1);
            assert(u.drop_last() =~= tv.subrange(n as int, i as int));
            assert(u.last() == t@[i as int]@);
            assert(s@ =~= joined(u, "/"@));
        }
        i = i + 1;
    }
    assert(tv.subrange(n as int, tv.len() as int) =~= tv.skip(n as int));
    s
}

/// Path `p` lies under one of the `protected` paths.
pub open spec fn is_protected(p: Seq<char>, protected: Seq<String>) -> bool {
    exists|i: int| 0 <= i < protected.len() && path_under(p, (#[trigger] protected[i])@)
}

fn any_protected(p: &str, protected: &Vec<String>) -> (r: bool)
    ensures
        r == is_protected(p@, protected@),
{
    let mut i: usize = 0;
    while i < protected.len()
        invariant
            i <= protected@.len(),
            forall|j: int| 0 <= j < i ==> !path_under(p@, (#[trigger] protected@[j])@),
        decreases protected@.len() - i,
    {
        if is_under(p, protected[i].as_str()) {
            return true;
        }
        i = i + 1;
    }
    false
}

/// The message of a protected source or destination.
pub open spec fn protected_pair_text(src: Seq<char>, dst: Seq<char>) -> Seq<char> {
    "source or destination is a protected path (src: "@ + src + ", dst: "@ + dst + ")"@
}

/// Why the pair of (canonical) paths `src` and `dst` is refused, if it is:
/// the source outside the media root, else the destination outside it, else
/// either of them under a protected path.
pub open spec fn pair_refusal(root: Seq<char>, src: Seq<char>, dst: Seq<char>, protected: Seq<String>) -> Option<Seq<char>> {
    if !path_under(src, root) {
        Some(outside_root_text(src, root))
    } else if !path_under(dst, root) {
        Some(outside_root_text(dst, root))
    } else if is_protected(src, protected) || is_protected(dst, protected) {
        Some(protected_pair_text(src, dst))
    } else {
        None
    }
}

fn outside_root_error(target: &str, root: &str) -> (r: KijukuError)
    ensures
        r matches KijukuError::Validation(m) && m@ == outside_root_text(target@, root@),
{
    let mut m = String::new();
    push_str(&mut m, "target is not under media root: ");
    push_str(&mut m, target);
    push_str(&mut m, " (root: ");
    push_str(&mut m, root);
    push_str(&mut m, ")");
    assert(m@ =~= outside_root_text(target@, root@));
    KijukuError::Validation(m)
}

/// Checks the source and destination (canonical paths) of a file operation:
/// both under the media root `root`, neither under a `protected` path.
pub fn check_pair(root: &str, src: &str, dst: &str, protected: &Vec<String>) -> (r: Result<(), KijukuError>)
    ensures
        r is Ok <==> pair_refusal(root@, src@, dst@, protected@) is None,
        pair_refusal(root@, src@, dst@, protected@) matches Some(t)
            ==> (r matches Err(KijukuError::Validation(m)) && m@ == t),
{
    if !is_under(src, root) {
        return Err(outside_root_error(src, root));
    }
    if !is_under(dst, root) {
        return Err(outside_root_error(dst, root));
    }
    if any_protected(src, protected) || any_protected(dst, protected) {
        let mut m = String::new();
        push_str(&mut m, "source or destination is a protected path (src: ");
        push_str(&mut m, src);
        push_str(&mut m, ", dst: ");
        push_str(&mut m, dst);
        push_str(&mut m, ")");
        assert(m@ =~= protected_pair_text(src@, dst@));
        return Err(KijukuError::Validation(m));
    }
    Ok(())
}

/// Copy of `src` to `dst`, given as canonical paths under the media root
/// `root`: refused as `check_pair` refuses; else the plan of `media_cp` on
/// the paths relative to the root.
pub fn media_cp_within(root: &str, src: &str, dst: &str, dst_exists: bool, protected: &Vec<String>, opts: &FileOpOptions)
    -> (r: Result<FileOpResult, KijukuError>)
    ensures
        pair_refusal(root@, src@, dst@, protected@) matches Some(t)
            ==> (r matches Err(KijukuError::Validation(m)) && m@ == t),
        pair_refusal(root@, src@, dst@, protected@) is None ==> (r matches Ok(res)
            && step_views(res.steps@) == transfer_plan(rel_path(src@, root@), rel_path(dst@, root@), dst_exists, false)
            && res.applied == opts.apply),
{
    check_pair(root, src, dst, protected)?;
    let s = relative_path(src, root);
    let d = relative_path(dst, root);
    Ok(media_cp(s.as_str(), d.as_str(), dst_exists, opts))
}

/// Move of `src` to `dst`, given as canonical paths under the media root
/// `root`: refused as `check_pair` refuses; else the plan of `media_mv` on
/// the paths relative to the root.
pub fn media_mv_within(root: &str, src: &str, dst: &str, dst_exists: bool, protected: &Vec<String>, opts: &FileOpOptions)
    -> (r: Result<FileOpResult, KijukuError>)
    ensures
        pair_refusal(root@, src@, dst@, protected@) matches Some(t)
            ==> (r matches Err(KijukuError::Validation(m)) && m@ == t),
        pair_refusal(root@, src@, dst@, protected@) is None ==> (r matches Ok(res)
            && step_views(res.steps@) == transfer_plan(rel_path(src@, root@), rel_path(dst@, root@), dst_exists, true)
            && res.applied == opts.apply),
{
    check_pair(root, src, dst, protected)?;
    let s = relative_path(src, root);
    let d = relative_path(dst, root);
    Ok(media_mv(s.as_str(), d.as_str(), dst_exists, opts))
}

/// The message of a sync whose source is not a directory.
pub open spec fn not_dir_text(src: Seq<char>) -> Seq<char> {
    "media_sync source must be a directory: "@ + src
}

/// Sync of directory `src` into `dst`, given as canonical paths under the
/// media root `root`: refused as `check_pair` refuses, else when `src` is
/// not a directory; else the plan of `media_sync` on the paths relative to
/// the root.
pub fn media_sync_within(root: &str, src: &str, dst: &str, src_is_dir: bool, protected: &Vec<String>,
    srcs: &Vec<SyncSource>, dsts: &Vec<String>, opts: &FileOpOptions) -> (r: Result<FileOpResult, KijukuError>)
    ensures
        pair_refusal(root@, src@, dst@, protected@) matches Some(t)
            ==> (r matches Err(KijukuError::Validation(m)) && m@ == t),
        pair_refusal(root@, src@, dst@, protected@) is None && !src_is_dir
            ==> (r matches Err(KijukuError::Validation(m)) && m@ == not_dir_text(src@)),
        pair_refusal(root@, src@, dst@, protected@) is None && src_is_dir ==> (r matches Ok(res)
            && step_views(res.steps@) == extra_steps(rel_path(dst@, root@), srcs@, dsts@)
                + update_steps(rel_path(src@, root@), rel_path(dst@, root@), srcs@)
            && res.applied == opts.apply),
{
    check_pair(root, src, dst, protected)?;
    if !src_is_dir {
        let mut m = String::new();
        push_str(&mut m, "media_sync source must be a directory: ");
        push_str(&mut m, src);
        assert(m@ =~= not_dir_text(src@));
        return Err(KijukuError::Validation(m));
    }
    let s = relative_path(src, root);
    let d = relative_path(dst, root);
    Ok(media_sync(s.as_str(), d.as_str(), srcs, dsts, opts))
}

} // verus!
