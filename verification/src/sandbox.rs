//! Path sandbox: every path a tool reads or writes must resolve inside the
//! agent folder.
//!
//! The filesystem itself (canonicalisation, existence checks, directory
//! creation) is driven by the caller; the functions here decide, from the
//! paths and the answers the filesystem gave, what happens next.
use vstd::prelude::*;

use crate::error::CoreError;
use crate::paths::{
    file_name_spec, join_spec, lexically_normalize, normalize_spec, parent_spec, starts_with_spec,
    ComponentView, FsPath,
};

verus! {

/// The path that has to be canonicalised to check `requested` against
/// `agent_folder`: `requested` itself when absolute, else joined onto the
/// folder.
pub fn in_folder_target(agent_folder: &FsPath, requested: &FsPath) -> (r: FsPath)
    ensures
        r@ == join_spec(agent_folder@, requested@),
{
    agent_folder.join(requested)
}

/// The outcome of the folder check, given the canonical form of the target
/// and of the agent folder (or the reason either could not be resolved).
pub open spec fn in_folder_outcome(
    canonical_requested: Result<Seq<ComponentView>, String>,
    canonical_root: Result<Seq<ComponentView>, String>,
) -> Result<Seq<ComponentView>, CoreError> {
    match canonical_requested {
        Err(e) => Err(CoreError::PathInvalid(e)),
        Ok(req) => match canonical_root {
            Err(e) => Err(CoreError::PathInvalid(e)),
            Ok(root) => if starts_with_spec(req, root) {
                Ok(req)
            } else {
                Err(CoreError::PathOutsideAgentFolder)
            },
        },
    }
}

/// The view of a path-or-message result.
pub open spec fn path_result_view(r: Result<FsPath, String>) -> Result<Seq<ComponentView>, String> {
    match r {
        Ok(p) => Ok(p@),
        Err(e) => Err(e),
    }
}

/// The view of a path-or-error result.
pub open spec fn outcome_view(r: Result<FsPath, CoreError>) -> Result<Seq<ComponentView>, CoreError> {
    match r {
        Ok(p) => Ok(p@),
        Err(e) => Err(e),
    }
}

/// Decide whether the requested path lies inside the agent folder.
///
/// `canonical_requested` is the canonical form of `in_folder_target(..)`,
/// `canonical_root` that of the agent folder; a failure to canonicalise
/// either (a missing file, say) is `PathInvalid` with its reason. On success
/// the canonical path is returned, which lies inside the canonical folder,
/// so a symlink pointing outside is refused.
pub fn ensure_in_agent_folder(
    canonical_requested: Result<FsPath, String>,
    canonical_root: Result<FsPath, String>,
) -> (r: Result<FsPath, CoreError>)
    ensures
        outcome_view(r) == in_folder_outcome(
            path_result_view(canonical_requested),
            path_result_view(canonical_root),
        ),
{
    match canonical_requested {
        Err(e) => Err(CoreError::PathInvalid(e)),
        Ok(req) => match canonical_root {
            Err(e) => Err(CoreError::PathInvalid(e)),
            Ok(root) => {
                if req.starts_with(&root) {
                    Ok(req)
                } else {
                    Err(CoreError::PathOutsideAgentFolder)
                }
            },
        },
    }
}

/// Like `ensure_in_agent_folder`, for a preview read: any failure yields
/// `None`, so a preview never falls back to unsandboxed content.
pub fn resolve_for_preview(
    canonical_requested: Result<FsPath, String>,
    canonical_root: Result<FsPath, String>,
) -> (r: Option<FsPath>)
    ensures
        match in_folder_outcome(
            path_result_view(canonical_requested),
            path_result_view(canonical_root),
        ) {
            Ok(p) => r is Some && r->Some_0@ == p,
            Err(_) => r is None,
        },
{
    match ensure_in_agent_folder(canonical_requested, canonical_root) {
        Ok(p) => Some(p),
        Err(_) => None,
    }
}

/// A successful folder check returns a path inside the canonical folder,
/// and it is the canonical form of the requested path itself.
pub proof fn lemma_in_folder_ok_is_inside(
    canonical_requested: Result<Seq<ComponentView>, String>,
    canonical_root: Result<Seq<ComponentView>, String>,
)
    ensures
        in_folder_outcome(canonical_requested, canonical_root) is Ok ==> {
            &&& canonical_requested is Ok
            &&& canonical_root is Ok
            &&& in_folder_outcome(canonical_requested, canonical_root)->Ok_0
                == canonical_requested->Ok_0
            &&& starts_with_spec(
                in_folder_outcome(canonical_requested, canonical_root)->Ok_0,
                canonical_root->Ok_0,
            )
        },
{
}

/// The folder check accepts exactly the canonical paths that begin with
/// every component of the canonical folder, at any depth below it, and
/// returns that path unchanged; any other canonical path is refused as
/// outside the folder, and a path that could not be canonicalised is
/// invalid with its reason.
pub proof fn lemma_in_folder_accepts_exactly_inside(
    canonical_requested: Result<Seq<ComponentView>, String>,
    canonical_root: Result<Seq<ComponentView>, String>,
)
    ensures
        canonical_requested matches Err(e) ==> in_folder_outcome(
            canonical_requested,
            canonical_root,
        ) == Err::<Seq<ComponentView>, CoreError>(CoreError::PathInvalid(e)),
        canonical_requested is Ok ==> (canonical_root matches Err(e) ==> in_folder_outcome(
            canonical_requested,
            canonical_root,
        ) == Err::<Seq<ComponentView>, CoreError>(CoreError::PathInvalid(e))),
        canonical_requested matches Ok(req) ==> (canonical_root matches Ok(root) ==> {
            &&& (root.len() <= req.len() && req.subrange(0, root.len() as int) == root)
                ==> in_folder_outcome(canonical_requested, canonical_root) == Ok::<
                Seq<ComponentView>,
                CoreError,
            >(req)
            &&& !(root.len() <= req.len() && req.subrange(0, root.len() as int) == root)
                ==> in_folder_outcome(canonical_requested, canonical_root) == Err::<
                Seq<ComponentView>,
                CoreError,
            >(CoreError::PathOutsideAgentFolder)
        }),
{
    if let Ok(req) = canonical_requested {
        if let Ok(root) = canonical_root {
            if root.len() <= req.len() && req.subrange(0, root.len() as int) == root {
                assert(starts_with_spec(req, root));
            } else {
                assert(!starts_with_spec(req, root));
            }
        }
    }
}

/// Any path below the folder, however deep, passes the folder check: the
/// folder joined with any names is accepted and returned as it is.
pub proof fn lemma_in_folder_accepts_any_depth(root: Seq<ComponentView>, below: Seq<ComponentView>)
    ensures
        in_folder_outcome(Ok(root + below), Ok(root)) == Ok::<Seq<ComponentView>, CoreError>(
            root + below,
        ),
{
    assert((root + below).subrange(0, root.len() as int) =~= root);
}

/// A filesystem operation the sandbox check asks its caller to perform.
#[derive(Debug)]
pub enum FsRequest {
    /// Canonicalise the path (resolving symlinks); answer with `Canonical`.
    Canonicalize(FsPath),
    /// Does the path exist? Answer with `Exists`.
    Exists(FsPath),
    /// Create the directory and its missing parents; answer with `Created`.
    CreateDirAll(FsPath),
}

/// The caller's answer to a `FsRequest`.
#[derive(Debug)]
pub enum FsReply {
    Canonical(Result<FsPath, String>),
    Exists(bool),
    Created(Result<(), String>),
}

/// What the check does next: ask for a filesystem operation, or finish.
#[derive(Debug)]
pub enum SandboxStep {
    Io(FsRequest),
    Done(Result<FsPath, CoreError>),
}

pub enum FsRequestView {
    Canonicalize(Seq<ComponentView>),
    Exists(Seq<ComponentView>),
    CreateDirAll(Seq<ComponentView>),
}

pub enum FsReplyView {
    Canonical(Result<Seq<ComponentView>, String>),
    Exists(bool),
    Created(Result<(), String>),
}

pub enum SandboxStepView {
    Io(FsRequestView),
    Done(Result<Seq<ComponentView>, CoreError>),
}

impl View for FsRequest {
    type V = FsRequestView;

    open spec fn view(&self) -> FsRequestView {
        match self {
            FsRequest::Canonicalize(p) => FsRequestView::Canonicalize(p@),
            FsRequest::Exists(p) => FsRequestView::Exists(p@),
            FsRequest::CreateDirAll(p) => FsRequestView::CreateDirAll(p@),
        }
    }
}

impl View for FsReply {
    type V = FsReplyView;

    open spec fn view(&self) -> FsReplyView {
        match self {
            FsReply::Canonical(r) => FsReplyView::Canonical(path_result_view(*r)),
            FsReply::Exists(b) => FsReplyView::Exists(*b),
            FsReply::Created(r) => FsReplyView::Created(*r),
        }
    }
}

impl View for SandboxStep {
    type V = SandboxStepView;

    open spec fn view(&self) -> SandboxStepView {
        match self {
            SandboxStep::Io(q) => SandboxStepView::Io(q@),
            SandboxStep::Done(r) => SandboxStepView::Done(outcome_view(*r)),
        }
    }
}

/// Where a check for a possibly not yet existing target stands.
#[derive(Debug)]
pub enum InsideState {
    /// Waiting for the canonical agent folder.
    AwaitRoot,
    /// Walking up from the target: waiting to hear whether `probe` exists.
    AwaitExists { root: FsPath, normalized: FsPath, probe: FsPath },
    /// Waiting for the canonical form of the deepest existing ancestor.
    AwaitAncestor { root: FsPath, normalized: FsPath },
    /// Waiting for the missing parent directories to be created.
    AwaitCreated { root: FsPath, normalized: FsPath, parent: FsPath },
    /// Waiting for the canonical form of the (now existing) parent.
    AwaitParent { root: FsPath, normalized: FsPath },
    /// The check has finished.
    Finished,
}

pub enum InsideStateView {
    AwaitRoot,
    AwaitExists { root: Seq<ComponentView>, normalized: Seq<ComponentView>, probe: Seq<ComponentView> },
    AwaitAncestor { root: Seq<ComponentView>, normalized: Seq<ComponentView> },
    AwaitCreated { root: Seq<ComponentView>, normalized: Seq<ComponentView>, parent: Seq<ComponentView> },
    AwaitParent { root: Seq<ComponentView>, normalized: Seq<ComponentView> },
    Finished,
}

impl View for InsideState {
    type V = InsideStateView;

    open spec fn view(&self) -> InsideStateView {
        match self {
            InsideState::AwaitRoot => InsideStateView::AwaitRoot,
            InsideState::AwaitExists { root, normalized, probe } => InsideStateView::AwaitExists {
                root: root@,
                normalized: normalized@,
                probe: probe@,
            },
            InsideState::AwaitAncestor { root, normalized } => InsideStateView::AwaitAncestor {
                root: root@,
                normalized: normalized@,
            },
            InsideState::AwaitCreated { root, normalized, parent } => InsideStateView::AwaitCreated {
                root: root@,
                normalized: normalized@,
                parent: parent@,
            },
            InsideState::AwaitParent { root, normalized } => InsideStateView::AwaitParent {
                root: root@,
                normalized: normalized@,
            },
            InsideState::Finished => InsideStateView::Finished,
        }
    }
}

/// The answer a state expects.
pub open spec fn inside_accepts(s: InsideStateView, reply: FsReplyView) -> bool {
    match s {
        InsideStateView::AwaitRoot => reply is Canonical,
        InsideStateView::AwaitExists { .. } => reply is Exists,
        InsideStateView::AwaitAncestor { .. } => reply is Canonical,
        InsideStateView::AwaitCreated { .. } => reply is Created,
        InsideStateView::AwaitParent { .. } => reply is Canonical,
        InsideStateView::Finished => false,
    }
}

pub open spec fn invalid(display: String) -> (InsideStateView, SandboxStepView) {
    (
        InsideStateView::Finished,
        SandboxStepView::Done(Err(CoreError::PathInvalid(display))),
    )
}

pub open spec fn fail_with(e: String) -> (InsideStateView, SandboxStepView) {
    (InsideStateView::Finished, SandboxStepView::Done(Err(CoreError::PathInvalid(e))))
}

pub open spec fn outside() -> (InsideStateView, SandboxStepView) {
    (InsideStateView::Finished, SandboxStepView::Done(Err(CoreError::PathOutsideAgentFolder)))
}

/// One transition of the check for a target that may not exist yet.
///
/// 1. The target is resolved against the canonical folder and normalised
///    lexically; it is refused at once unless it starts inside the folder.
/// 2. Walking up from the target, the deepest existing ancestor is found and
///    canonicalised; it is refused unless it lies inside the folder.
/// 3. Only then are the missing parent directories created, the parent is
///    canonicalised and checked once more, and the file name is appended.
pub open spec fn inside_next(
    s: InsideStateView,
    requested: Seq<ComponentView>,
    display: String,
    reply: FsReplyView,
) -> (InsideStateView, SandboxStepView) {
    match (s, reply) {
        (InsideStateView::AwaitRoot, FsReplyView::Canonical(Err(e))) => fail_with(e),
        (InsideStateView::AwaitRoot, FsReplyView::Canonical(Ok(root))) => {
            let normalized = normalize_spec(join_spec(root, requested));
            if !starts_with_spec(normalized, root) {
                outside()
            } else {
                (
                    InsideStateView::AwaitExists { root, normalized, probe: normalized },
                    SandboxStepView::Io(FsRequestView::Exists(normalized)),
                )
            }
        },
        (InsideStateView::AwaitExists { root, normalized, probe }, FsReplyView::Exists(true)) => (
            InsideStateView::AwaitAncestor { root, normalized },
            SandboxStepView::Io(FsRequestView::Canonicalize(probe)),
        ),
        (InsideStateView::AwaitExists { root, normalized, probe }, FsReplyView::Exists(false)) => {
            match parent_spec(probe) {
                None => invalid(display),
                Some(up) => (
                    InsideStateView::AwaitExists { root, normalized, probe: up },
                    SandboxStepView::Io(FsRequestView::Exists(up)),
                ),
            }
        },
        (InsideStateView::AwaitAncestor { .. }, FsReplyView::Canonical(Err(e))) => fail_with(e),
        (InsideStateView::AwaitAncestor { root, normalized }, FsReplyView::Canonical(Ok(ancestor))) => {
            if !starts_with_spec(ancestor, root) {
                outside()
            } else {
                match parent_spec(normalized) {
                    None => invalid(display),
                    Some(parent) => (
                        InsideStateView::AwaitCreated { root, normalized, parent },
                        SandboxStepView::Io(FsRequestView::CreateDirAll(parent)),
                    ),
                }
            }
        },
        (InsideStateView::AwaitCreated { .. }, FsReplyView::Created(Err(e))) => fail_with(e),
        (InsideStateView::AwaitCreated { root, normalized, parent }, FsReplyView::Created(Ok(()))) => (
            InsideStateView::AwaitParent { root, normalized },
            SandboxStepView::Io(FsRequestView::Canonicalize(parent)),
        ),
        (InsideStateView::AwaitParent { .. }, FsReplyView::Canonical(Err(e))) => fail_with(e),
        (InsideStateView::AwaitParent { root, normalized }, FsReplyView::Canonical(Ok(parent))) => {
            if !starts_with_spec(parent, root) {
                outside()
            } else {
                match file_name_spec(normalized) {
                    None => invalid(display),
                    Some(name) => (
                        InsideStateView::Finished,
                        SandboxStepView::Done(Ok(parent.push(ComponentView::Normal(name)))),
                    ),
                }
            }
        },
        _ => (InsideStateView::Finished, SandboxStepView::Done(Err(CoreError::PathInvalid(display)))),
    }
}

/// What holds of every state a check reaches: the stored target is the
/// lexical normalisation of the request resolved against the stored
/// canonical folder, it starts inside that folder, the probe is an ancestor
/// of it and the stored parent is its parent.
pub open spec fn inside_wf(s: InsideStateView, requested: Seq<ComponentView>) -> bool {
    match s {
        InsideStateView::AwaitExists { root, normalized, probe } => {
            &&& normalized == normalize_spec(join_spec(root, requested))
            &&& starts_with_spec(normalized, root)
            &&& starts_with_spec(normalized, probe)
        },
        InsideStateView::AwaitAncestor { root, normalized } => {
            &&& normalized == normalize_spec(join_spec(root, requested))
            &&& starts_with_spec(normalized, root)
        },
        InsideStateView::AwaitCreated { root, normalized, parent } => {
            &&& normalized == normalize_spec(join_spec(root, requested))
            &&& starts_with_spec(normalized, root)
            &&& parent_spec(normalized) == Some(parent)
        },
        InsideStateView::AwaitParent { root, normalized } => {
            &&& normalized == normalize_spec(join_spec(root, requested))
            &&& starts_with_spec(normalized, root)
        },
        _ => true,
    }
}

/// Boundary law of the check for not yet existing targets: every state it
/// reaches keeps `inside_wf`; a directory is only ever created after the
/// lexical target was found inside the canonical folder and the canonical
/// form of its deepest existing ancestor was found inside it too, and the
/// directory created is the target's parent, which lies inside the folder
/// or is an (existing) ancestor of it; and a successful check returns a path
/// inside the canonical folder.
pub proof fn lemma_inside_step_safe(
    s: InsideStateView,
    requested: Seq<ComponentView>,
    display: String,
    reply: FsReplyView,
)
    requires
        inside_wf(s, requested),
    ensures
        inside_wf(inside_next(s, requested, display, reply).0, requested),
        inside_next(s, requested, display, reply).1 matches SandboxStepView::Io(
            FsRequestView::CreateDirAll(p),
        ) ==> {
            &&& s matches InsideStateView::AwaitAncestor { root, normalized }
            &&& reply matches FsReplyView::Canonical(Ok(ancestor))
            &&& starts_with_spec(ancestor, root)
            &&& starts_with_spec(normalized, root)
            &&& parent_spec(normalized) == Some(p)
            &&& (starts_with_spec(p, root) || starts_with_spec(root, p))
        },
        inside_next(s, requested, display, reply).1 matches SandboxStepView::Done(Ok(t)) ==> {
            &&& s matches InsideStateView::AwaitParent { root, normalized }
            &&& starts_with_spec(t, root)
        },
{
    let (s2, st) = inside_next(s, requested, display, reply);
    match (s, reply) {
        (InsideStateView::AwaitRoot, FsReplyView::Canonical(Ok(root))) => {
            let normalized = normalize_spec(join_spec(root, requested));
            if starts_with_spec(normalized, root) {
                assert(normalized.subrange(0, normalized.len() as int) =~= normalized);
            }
        },
        (InsideStateView::AwaitExists { root, normalized, probe }, FsReplyView::Exists(false)) => {
            if let Some(up) = parent_spec(probe) {
                assert(normalized.subrange(0, up.len() as int) =~= probe.subrange(
                    0,
                    up.len() as int,
                ));
                assert(probe.subrange(0, up.len() as int) =~= up);
            }
        },
        (
            InsideStateView::AwaitAncestor { root, normalized },
            FsReplyView::Canonical(Ok(ancestor)),
        ) => {
            if starts_with_spec(ancestor, root) {
                if let Some(p) = parent_spec(normalized) {
                    if p.len() >= root.len() {
                        assert(p.subrange(0, root.len() as int) =~= normalized.subrange(
                            0,
                            root.len() as int,
                        ));
                    } else {
                        assert(root.subrange(0, p.len() as int) =~= normalized.subrange(
                            0,
                            p.len() as int,
                        ));
                        assert(normalized.subrange(0, p.len() as int) =~= p);
                    }
                }
            }
        },
        (InsideStateView::AwaitParent { root, normalized }, FsReplyView::Canonical(Ok(parent))) => {
            if starts_with_spec(parent, root) {
                if let Some(name) = file_name_spec(normalized) {
                    let t = parent.push(ComponentView::Normal(name));
                    assert(t.subrange(0, root.len() as int) =~= parent.subrange(
                        0,
                        root.len() as int,
                    ));
                }
            }
        },
        _ => {},
    }
}

/// `p` begins with every component of `base`, written out.
pub open spec fn below(p: Seq<ComponentView>, base: Seq<ComponentView>) -> bool {
    base.len() <= p.len() && p.subrange(0, base.len() as int) == base
}

/// The check refuses a target as outside the folder only when a path it
/// compared does not begin with the canonical folder: the lexical target
/// (when the folder's canonical form arrives), the canonical deepest
/// existing ancestor, or the canonical parent. A target that stays inside
/// at every comparison is never refused as outside, whatever its depth.
pub proof fn lemma_refused_only_when_outside(
    s: InsideStateView,
    requested: Seq<ComponentView>,
    display: String,
    reply: FsReplyView,
)
    ensures
        inside_next(s, requested, display, reply).1 == SandboxStepView::Done(
            Err(CoreError::PathOutsideAgentFolder),
        ) ==> match s {
            InsideStateView::AwaitRoot => reply matches FsReplyView::Canonical(Ok(root)) && !(
            root.len() <= normalize_spec(join_spec(root, requested)).len() && normalize_spec(
                join_spec(root, requested),
            ).subrange(0, root.len() as int) == root),
            InsideStateView::AwaitAncestor { root, .. } => reply matches FsReplyView::Canonical(
                Ok(ancestor),
            ) && !(root.len() <= ancestor.len() && ancestor.subrange(0, root.len() as int)
                == root),
            InsideStateView::AwaitParent { root, .. } => reply matches FsReplyView::Canonical(
                Ok(parent),
            ) && !(root.len() <= parent.len() && parent.subrange(0, root.len() as int) == root),
            _ => false,
        },
{
}

/// A target inside the folder goes all the way through: once the folder's
/// canonical form is known, the check asks whether the target exists; for
/// an existing target it then canonicalises it, creates the parent, and,
/// when the canonical ancestor and parent both lie inside the folder,
/// returns the canonical parent joined with the target's file name.
pub proof fn lemma_inside_target_accepted(
    requested: Seq<ComponentView>,
    display: String,
    root: Seq<ComponentView>,
    ancestor: Seq<ComponentView>,
    parent: Seq<ComponentView>,
    name: Seq<u8>,
)
    requires
        below(normalize_spec(join_spec(root, requested)), root),
        normalize_spec(join_spec(root, requested)).len() > 0,
        normalize_spec(join_spec(root, requested)).last() == ComponentView::Normal(name),
        below(ancestor, root),
        below(parent, root),
    ensures
        ({
            let n = normalize_spec(join_spec(root, requested));
            let (s1, st1) = inside_next(
                InsideStateView::AwaitRoot,
                requested,
                display,
                FsReplyView::Canonical(Ok(root)),
            );
            let (s2, st2) = inside_next(s1, requested, display, FsReplyView::Exists(true));
            let (s3, st3) = inside_next(s2, requested, display, FsReplyView::Canonical(Ok(ancestor)));
            let (s4, st4) = inside_next(s3, requested, display, FsReplyView::Created(Ok(())));
            let (s5, st5) = inside_next(s4, requested, display, FsReplyView::Canonical(Ok(parent)));
            &&& st1 == SandboxStepView::Io(FsRequestView::Exists(n))
            &&& st2 == SandboxStepView::Io(FsRequestView::Canonicalize(n))
            &&& st3 == SandboxStepView::Io(FsRequestView::CreateDirAll(n.drop_last()))
            &&& st4 == SandboxStepView::Io(FsRequestView::Canonicalize(n.drop_last()))
            &&& st5 == SandboxStepView::Done(
                Ok::<Seq<ComponentView>, CoreError>(parent.push(ComponentView::Normal(name))),
            )
        }),
{
}

/// A target that does not exist yet is walked up one component at a time:
/// each missing probe inside the folder leads to asking about its parent.
pub proof fn lemma_missing_probe_walks_up(
    root: Seq<ComponentView>,
    normalized: Seq<ComponentView>,
    probe: Seq<ComponentView>,
    requested: Seq<ComponentView>,
    display: String,
)
    requires
        probe.len() > 0,
        !(probe.last() is Root),
    ensures
        inside_next(
            InsideStateView::AwaitExists { root, normalized, probe },
            requested,
            display,
            FsReplyView::Exists(false),
        ) == (
            InsideStateView::AwaitExists { root, normalized, probe: probe.drop_last() },
            SandboxStepView::Io(FsRequestView::Exists(probe.drop_last())),
        ),
{
}

/// A new check starts in a state that satisfies `inside_wf`.
pub proof fn lemma_inside_start_wf(requested: Seq<ComponentView>)
    ensures
        inside_wf(InsideStateView::AwaitRoot, requested),
{
}

/// A check, in progress, that a possibly not yet existing target lies inside
/// the agent folder; creates the target's missing parent directories only
/// after both boundary checks passed.
#[derive(Debug)]
pub struct InsideSandbox {
    pub requested: FsPath,
    pub display: String,
    pub state: InsideState,
}

/// Begin the check of `requested` (shown as `display` in error messages)
/// against `agent_folder`. The first request canonicalises the folder.
pub fn ensure_inside_sandbox(agent_folder: &FsPath, requested: FsPath, display: String) -> (r: (
    InsideSandbox,
    SandboxStep,
))
    ensures
        r.0.requested@ == requested@,
        r.0.display == display,
        r.0.state@ == InsideStateView::AwaitRoot,
        r.1@ == SandboxStepView::Io(FsRequestView::Canonicalize(agent_folder@)),
{
    (
        InsideSandbox { requested, display, state: InsideState::AwaitRoot },
        SandboxStep::Io(FsRequest::Canonicalize(agent_folder.duplicate())),
    )
}

impl InsideSandbox {
    /// Whether `reply` is the kind of answer the check is waiting for.
    pub fn accepts(&self, reply: &FsReply) -> (b: bool)
        ensures
            b == inside_accepts(self.state@, reply@),
    {
        match (&self.state, reply) {
            (InsideState::AwaitRoot, FsReply::Canonical(_)) => true,
            (InsideState::AwaitExists { .. }, FsReply::Exists(_)) => true,
            (InsideState::AwaitAncestor { .. }, FsReply::Canonical(_)) => true,
            (InsideState::AwaitCreated { .. }, FsReply::Created(_)) => true,
            (InsideState::AwaitParent { .. }, FsReply::Canonical(_)) => true,
            _ => false,
        }
    }

    /// Feed the answer to the last request and get the next step.
    pub fn resume(self, reply: FsReply) -> (r: (InsideSandbox, SandboxStep))
        requires
            inside_accepts(self.state@, reply@),
        ensures
            r.0.requested@ == self.requested@,
            r.0.display == self.display,
            (r.0.state@, r.1@) == inside_next(self.state@, self.requested@, self.display, reply@),
    {
        let InsideSandbox { requested, display, state } = self;
        match state {
            InsideState::AwaitRoot => {
                match reply {
                    FsReply::Canonical(Err(e)) => {
                        let step = SandboxStep::Done(Err(CoreError::PathInvalid(e)));
                        (InsideSandbox { requested, display, state: InsideState::Finished }, step)
                    },
                    FsReply::Canonical(Ok(root)) => {
                        let raw = root.join(&requested);
                        let normalized = lexically_normalize(&raw);
                        if !normalized.starts_with(&root) {
                            let step = SandboxStep::Done(Err(CoreError::PathOutsideAgentFolder));
                            (
                                InsideSandbox { requested, display, state: InsideState::Finished },
                                step,
                            )
                        } else {
                            let probe = normalized.duplicate();
                            let ask = normalized.duplicate();
                            (
                                InsideSandbox {
                                    requested,
                                    display,
                                    state: InsideState::AwaitExists { root, normalized, probe },
                                },
                                SandboxStep::Io(FsRequest::Exists(ask)),
                            )
                        }
                    },
                    _ => {
                        let step = SandboxStep::Done(Err(CoreError::PathInvalid(display.clone())));
                        (InsideSandbox { requested, display, state: InsideState::Finished }, step)
                    },
                }
            },
            InsideState::AwaitExists { root, normalized, probe } => {
                match reply {
                    FsReply::Exists(true) => {
                        (
                            InsideSandbox {
                                requested,
                                display,
                                state: InsideState::AwaitAncestor { root, normalized },
                            },
                            SandboxStep::Io(FsRequest::Canonicalize(probe)),
                        )
                    },
                    FsReply::Exists(false) => {
                        match probe.parent() {
                            None => {
                                let step = SandboxStep::Done(
                                    Err(CoreError::PathInvalid(display.clone())),
                                );
                                (
                                    InsideSandbox {
                                        requested,
                                        display,
                                        state: InsideState::Finished,
                                    },
                                    step,
                                )
                            },
                            Some(up) => {
                                let ask = up.duplicate();
                                (
                                    InsideSandbox {
                                        requested,
                                        display,
                                        state: InsideState::AwaitExists {
                                            root,
                                            normalized,
                                            probe: up,
                                        },
                                    },
                                    SandboxStep::Io(FsRequest::Exists(ask)),
                                )
                            },
                        }
                    },
                    _ => {
                        let step = SandboxStep::Done(Err(CoreError::PathInvalid(display.clone())));
                        (InsideSandbox { requested, display, state: InsideState::Finished }, step)
                    },
                }
            },
            InsideState::AwaitAncestor { root, normalized } => {
                match reply {
                    FsReply::Canonical(Err(e)) => {
                        let step = SandboxStep::Done(Err(CoreError::PathInvalid(e)));
                        (InsideSandbox { requested, display, state: InsideState::Finished }, step)
                    },
                    FsReply::Canonical(Ok(ancestor)) => {
                        if !ancestor.starts_with(&root) {
                            let step = SandboxStep::Done(Err(CoreError::PathOutsideAgentFolder));
                            (
                                InsideSandbox { requested, display, state: InsideState::Finished },
                                step,
                            )
                        } else {
                            match normalized.parent() {
                                None => {
                                    let step = SandboxStep::Done(
                                        Err(CoreError::PathInvalid(display.clone())),
                                    );
                                    (
                                        InsideSandbox {
                                            requested,
                                            display,
                                            state: InsideState::Finished,
                                        },
                                        step,
                                    )
                                },
                                Some(parent) => {
                                    let ask = parent.duplicate();
                                    (
                                        InsideSandbox {
                                            requested,
                                            display,
                                            state: InsideState::AwaitCreated {
                                                root,
                                                normalized,
                                                parent,
                                            },
                                        },
                                        SandboxStep::Io(FsRequest::CreateDirAll(ask)),
                                    )
                                },
                            }
                        }
                    },
                    _ => {
                        let step = SandboxStep::Done(Err(CoreError::PathInvalid(display.clone())));
                        (InsideSandbox { requested, display, state: InsideState::Finished }, step)
                    },
                }
            },
            InsideState::AwaitCreated { root, normalized, parent } => {
                match reply {
                    FsReply::Created(Err(e)) => {
                        let step = SandboxStep::Done(Err(CoreError::PathInvalid(e)));
                        (InsideSandbox { requested, display, state: InsideState::Finished }, step)
                    },
                    FsReply::Created(Ok(())) => {
                        (
                            InsideSandbox {
                                requested,
                                display,
                                state: InsideState::AwaitParent { root, normalized },
                            },
                            SandboxStep::Io(FsRequest::Canonicalize(parent)),
                        )
                    },
                    _ => {
                        let step = SandboxStep::Done(Err(CoreError::PathInvalid(display.clone())));
                        (InsideSandbox { requested, display, state: InsideState::Finished }, step)
                    },
                }
            },
            InsideState::AwaitParent { root, normalized } => {
                match reply {
                    FsReply::Canonical(Err(e)) => {
                        let step = SandboxStep::Done(Err(CoreError::PathInvalid(e)));
                        (InsideSandbox { requested, display, state: InsideState::Finished }, step)
                    },
                    FsReply::Canonical(Ok(parent)) => {
                        if !parent.starts_with(&root) {
                            let step = SandboxStep::Done(Err(CoreError::PathOutsideAgentFolder));
                            (
                                InsideSandbox { requested, display, state: InsideState::Finished },
                                step,
                            )
                        } else {
                            match normalized.file_name() {
                                None => {
                                    let step = SandboxStep::Done(
                                        Err(CoreError::PathInvalid(display.clone())),
                                    );
                                    (
                                        InsideSandbox {
                                            requested,
                                            display,
                                            state: InsideState::Finished,
                                        },
                                        step,
                                    )
                                },
                                Some(name) => {
                                    let target = parent.with_name(&name);
                                    (
                                        InsideSandbox {
                                            requested,
                                            display,
                                            state: InsideState::Finished,
                                        },
                                        SandboxStep::Done(Ok(target)),
                                    )
                                },
                            }
                        }
                    },
                    _ => {
                        let step = SandboxStep::Done(Err(CoreError::PathInvalid(display.clone())));
                        (InsideSandbox { requested, display, state: InsideState::Finished }, step)
                    },
                }
            },
            InsideState::Finished => {
                let step = SandboxStep::Done(Err(CoreError::PathInvalid(display.clone())));
                (InsideSandbox { requested, display, state: InsideState::Finished }, step)
            },
        }
    }
}

} // verus!
