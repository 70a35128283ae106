//! A component model of filesystem paths.
//!
//! A path is the sequence of components that `std::path::Path::components`
//! yields on a Unix system: an optional leading root, `.` (only ever at the
//! start), `..` and normal names. Normal names are kept as raw bytes so that
//! equality is exact even for names that are not valid UTF-8.
use vstd::prelude::*;

verus! {

/// The mathematical view of one path component.
pub enum ComponentView {
    Root,
    Cur,
    Parent,
    Normal(Seq<u8>),
}

/// One component of a path.
#[derive(Debug)]
pub enum PathComponent {
    /// The leading `/` of an absolute path.
    RootDir,
    /// A leading `.`.
    CurDir,
    /// A `..` component.
    ParentDir,
    /// An ordinary name, as raw bytes.
    Normal(Vec<u8>),
}

impl View for PathComponent {
    type V = ComponentView;

    open spec fn view(&self) -> ComponentView {
        match self {
            PathComponent::RootDir => ComponentView::Root,
            PathComponent::CurDir => ComponentView::Cur,
            PathComponent::ParentDir => ComponentView::Parent,
            PathComponent::Normal(n) => ComponentView::Normal(n@),
        }
    }
}

/// A path as the list of its components.
#[derive(Debug)]
pub struct FsPath {
    pub components: Vec<PathComponent>,
}

/// The view of a component list.
pub open spec fn components_view(v: Seq<PathComponent>) -> Seq<ComponentView> {
    v.map_values(|c: PathComponent| c@)
}

impl View for FsPath {
    type V = Seq<ComponentView>;

    open spec fn view(&self) -> Seq<ComponentView> {
        components_view(self.components@)
    }
}

/// A path is absolute when its first component is the root.
pub open spec fn is_absolute_spec(p: Seq<ComponentView>) -> bool {
    p.len() > 0 && p[0] is Root
}

/// `p` begins with every component of `base`, in order.
pub open spec fn starts_with_spec(p: Seq<ComponentView>, base: Seq<ComponentView>) -> bool {
    base.len() <= p.len() && p.subrange(0, base.len() as int) == base
}

/// `PathBuf::join`: an absolute second path replaces the first, a relative
/// one is appended to it.
pub open spec fn join_spec(base: Seq<ComponentView>, rel: Seq<ComponentView>) -> Seq<ComponentView> {
    if is_absolute_spec(rel) {
        rel
    } else {
        base + rel
    }
}

/// `Path::parent`: `None` for the empty path and for a path that ends in the
/// root, otherwise the path without its last component.
pub open spec fn parent_spec(p: Seq<ComponentView>) -> Option<Seq<ComponentView>> {
    if p.len() == 0 || p.last() is Root {
        None
    } else {
        Some(p.drop_last())
    }
}

/// `Path::file_name`: the last component when it is a normal name.
pub open spec fn file_name_spec(p: Seq<ComponentView>) -> Option<Seq<u8>> {
    if p.len() > 0 && p.last() is Normal {
        Some(p.last()->Normal_0)
    } else {
        None
    }
}

/// `PathBuf::pop` applied to a list of components.
pub open spec fn pop_spec(out: Seq<ComponentView>) -> Seq<ComponentView> {
    if out.len() == 0 || out.last() is Root {
        out
    } else {
        out.drop_last()
    }
}

/// One step of lexical normalisation.
pub open spec fn normalize_step(out: Seq<ComponentView>, c: ComponentView) -> Seq<ComponentView> {
    match c {
        ComponentView::Parent => pop_spec(out),
        ComponentView::Cur => out,
        ComponentView::Root => seq![ComponentView::Root],
        ComponentView::Normal(n) => out.push(ComponentView::Normal(n)),
    }
}

/// Lexical normalisation of `rest`, continuing from the already normalised
/// prefix `out`.
pub open spec fn normalize_from(out: Seq<ComponentView>, rest: Seq<ComponentView>) -> Seq<
    ComponentView,
>
    decreases rest.len(),
{
    if rest.len() == 0 {
        out
    } else {
        normalize_from(normalize_step(out, rest[0]), rest.drop_first())
    }
}

/// `.` and `..` resolved without touching the filesystem.
pub open spec fn normalize_spec(p: Seq<ComponentView>) -> Seq<ComponentView> {
    normalize_from(Seq::empty(), p)
}

/// A path made of an optional leading root followed by normal names only.
pub open spec fn is_normal_form(p: Seq<ComponentView>) -> bool {
    forall|i: int|
        0 <= i < p.len() ==> (#[trigger] p[i] is Normal || (i == 0 && p[i] is Root))
}

/// Viewing a list extended by one component extends its view by that
/// component's view.
pub proof fn lemma_view_push(v: Seq<PathComponent>, c: PathComponent)
    ensures
        components_view(v.push(c)) == components_view(v).push(c@),
{
    assert(components_view(v.push(c)) =~= components_view(v).push(c@));
}

/// Byte-wise equality of two byte vectors.
pub fn bytes_equal(a: &Vec<u8>, b: &Vec<u8>) -> (r: bool)
    ensures
        r == (a@ == b@),
{
    if a.len() != b.len() {
        return false;
    }
    let mut i: usize = 0;
    while i < a.len()
        invariant
            a.len() == b.len(),
            i <= a.len(),
            forall|j: int| 0 <= j < i ==> a@[j] == b@[j],
        decreases a.len() - i,
    {
        if a[i] != b[i] {
            return false;
        }
        i = i + 1;
    }
    assert(a@ =~= b@);
    true
}

/// A byte vector with the same contents.
pub fn copy_bytes(a: &Vec<u8>) -> (r: Vec<u8>)
    ensures
        r@ == a@,
{
    let mut out: Vec<u8> = Vec::new();
    let mut i: usize = 0;
    while i < a.len()
        invariant
            i <= a.len(),
            out@ == a@.subrange(0, i as int),
        decreases a.len() - i,
    {
        out.push(a[i]);
        i = i + 1;
        assert(out@ =~= a@.subrange(0, i as int));
    }
    assert(a@.subrange(0, a.len() as int) =~= a@);
    out
}

impl PathComponent {
    /// A component equal to this one.
    pub fn duplicate(&self) -> (r: PathComponent)
        ensures
            r@ == self@,
    {
        match self {
            PathComponent::RootDir => PathComponent::RootDir,
            PathComponent::CurDir => PathComponent::CurDir,
            PathComponent::ParentDir => PathComponent::ParentDir,
            PathComponent::Normal(n) => PathComponent::Normal(copy_bytes(n)),
        }
    }

    /// Component equality (names compared byte-wise).
    pub fn same_as(&self, other: &PathComponent) -> (r: bool)
        ensures
            r == (self@ == other@),
    {
        match (self, other) {
            (PathComponent::RootDir, PathComponent::RootDir) => true,
            (PathComponent::CurDir, PathComponent::CurDir) => true,
            (PathComponent::ParentDir, PathComponent::ParentDir) => true,
            (PathComponent::Normal(a), PathComponent::Normal(b)) => bytes_equal(a, b),
            _ => false,
        }
    }
}

impl FsPath {
    /// The path with no components.
    pub fn empty() -> (r: FsPath)
        ensures
            r@ == Seq::<ComponentView>::empty(),
    {
        let r = FsPath { components: Vec::new() };
        assert(r.components@ =~= Seq::<PathComponent>::empty());
        assert(r@ =~= Seq::<ComponentView>::empty());
        r
    }

    /// A path equal to this one.
    pub fn duplicate(&self) -> (r: FsPath)
        ensures
            r@ == self@,
    {
        let mut out: Vec<PathComponent> = Vec::new();
        let mut i: usize = 0;
        while i < self.components.len()
            invariant
                i <= self.components.len(),
                components_view(out@) == self@.subrange(0, i as int),
            decreases self.components.len() - i,
        {
            let c = self.components[i].duplicate();
            proof {
                lemma_view_push(out@, c);
            }
            out.push(c);
            i = i + 1;
            assert(components_view(out@) =~= self@.subrange(0, i as int));
        }
        assert(self@.subrange(0, self.components.len() as int) =~= self@);
        FsPath { components: out }
    }

    /// Component-wise equality of two paths.
    pub fn equals(&self, other: &FsPath) -> (b: bool)
        ensures
            b == (self@ == other@),
    {
        assert(self@.len() == self.components@.len());
        assert(other@.len() == other.components@.len());
        if self.components.len() != other.components.len() {
            return false;
        }
        let mut i: usize = 0;
        while i < self.components.len()
            invariant
                self.components.len() == other.components.len(),
                i <= self.components.len(),
                forall|j: int| 0 <= j < i ==> self@[j] == other@[j],
            decreases self.components.len() - i,
        {
            if !self.components[i].same_as(&other.components[i]) {
                assert(self@[i as int] == self.components@[i as int]@);
                assert(other@[i as int] == other.components@[i as int]@);
                return false;
            }
            assert(self@[i as int] == self.components@[i as int]@);
            assert(other@[i as int] == other.components@[i as int]@);
            i = i + 1;
        }
        assert(self@ =~= other@);
        true
    }

    /// Number of components.
    pub fn len(&self) -> (n: usize)
        ensures
            n == self@.len(),
    {
        self.components.len()
    }

    /// `Path::is_absolute` on Unix: the path starts at the root.
    pub fn is_absolute(&self) -> (b: bool)
        ensures
            b == is_absolute_spec(self@),
    {
        if self.components.len() == 0 {
            false
        } else {
            match &self.components[0] {
                PathComponent::RootDir => true,
                _ => false,
            }
        }
    }

    /// `Path::starts_with`: component-wise prefix test.
    pub fn starts_with(&self, base: &FsPath) -> (b: bool)
        ensures
            b == starts_with_spec(self@, base@),
    {
        if base.components.len() > self.components.len() {
            return false;
        }
        let mut i: usize = 0;
        while i < base.components.len()
            invariant
                base.components.len() <= self.components.len(),
                i <= base.components.len(),
                forall|j: int| 0 <= j < i ==> self@[j] == base@[j],
            decreases base.components.len() - i,
        {
            if !self.components[i].same_as(&base.components[i]) {
                assert(self@.subrange(0, base@.len() as int)[i as int] != base@[i as int]);
                return false;
            }
            i = i + 1;
        }
        assert(self@.subrange(0, base@.len() as int) =~= base@);
        true
    }

    /// `Path::join`.
    pub fn join(&self, rel: &FsPath) -> (r: FsPath)
        ensures
            r@ == join_spec(self@, rel@),
    {
        if rel.is_absolute() {
            return rel.duplicate();
        }
        let mut out = self.duplicate();
        let mut i: usize = 0;
        while i < rel.components.len()
            invariant
                i <= rel.components.len(),
                out@ == self@ + rel@.subrange(0, i as int),
            decreases rel.components.len() - i,
        {
            let c = rel.components[i].duplicate();
            proof {
                lemma_view_push(out.components@, c);
            }
            out.components.push(c);
            i = i + 1;
            assert(out@ =~= self@ + rel@.subrange(0, i as int));
        }
        assert(rel@.subrange(0, rel.components.len() as int) =~= rel@);
        out
    }

    /// `Path::parent`.
    pub fn parent(&self) -> (r: Option<FsPath>)
        ensures
            match (r, parent_spec(self@)) {
                (Some(p), Some(q)) => p@ == q,
                (None, None) => true,
                _ => false,
            },
    {
        let n = self.components.len();
        if n == 0 {
            return None;
        }
        match &self.components[n - 1] {
            PathComponent::RootDir => None,
            _ => {
                let mut out: Vec<PathComponent> = Vec::new();
                let mut i: usize = 0;
                while i + 1 < n
                    invariant
                        n == self.components.len(),
                        n > 0,
                        i + 1 <= n,
                        components_view(out@) == self@.subrange(0, i as int),
                    decreases n - i,
                {
                    let c = self.components[i].duplicate();
                    proof {
                        lemma_view_push(out@, c);
                    }
                    out.push(c);
                    i = i + 1;
                    assert(components_view(out@) =~= self@.subrange(0, i as int));
                }
                let r = FsPath { components: out };
                assert(r@ =~= self@.drop_last());
                Some(r)
            }
        }
    }

    /// `Path::file_name`.
    pub fn file_name(&self) -> (r: Option<Vec<u8>>)
        ensures
            match (r, file_name_spec(self@)) {
                (Some(a), Some(b)) => a@ == b,
                (None, None) => true,
                _ => false,
            },
    {
        let n = self.components.len();
        if n == 0 {
            return None;
        }
        match &self.components[n - 1] {
            PathComponent::Normal(name) => Some(copy_bytes(name)),
            _ => None,
        }
    }

    /// The path extended by one normal name.
    pub fn with_name(&self, name: &Vec<u8>) -> (r: FsPath)
        ensures
            r@ == self@.push(ComponentView::Normal(name@)),
    {
        let mut out = self.duplicate();
        let c = PathComponent::Normal(copy_bytes(name));
        proof {
            lemma_view_push(out.components@, c);
        }
        out.components.push(c);
        assert(out@ =~= self@.push(ComponentView::Normal(name@)));
        out
    }
}

/// Resolve `.` and `..` without touching the filesystem. `..` past the root
/// of an absolute path stays at the root.
pub fn lexically_normalize(path: &FsPath) -> (r: FsPath)
    ensures
        r@ == normalize_spec(path@),
{
    let mut out: Vec<PathComponent> = Vec::new();
    let mut i: usize = 0;
    proof {
        assert(path@.skip(0) =~= path@);
        assert(components_view(out@) =~= Seq::<ComponentView>::empty());
    }
    while i < path.components.len()
        invariant
            i <= path.components.len(),
            normalize_from(components_view(out@), path@.skip(i as int)) == normalize_spec(path@),
        decreases path.components.len() - i,
    {
        let ghost before = components_view(out@);
        proof {
            assert(path@.skip(i as int).drop_first() =~= path@.skip(i + 1));
            assert(path@.skip(i as int)[0] == path@[i as int]);
        }
        match &path.components[i] {
            PathComponent::ParentDir => {
                let n = out.len();
                if n > 0 {
                    let is_root = match &out[n - 1] {
                        PathComponent::RootDir => true,
                        _ => false,
                    };
                    if !is_root {
                        out.pop();
                        assert(components_view(out@) =~= before.drop_last());
                    }
                }
            },
            PathComponent::CurDir => {},
            PathComponent::RootDir => {
                out = Vec::new();
                out.push(PathComponent::RootDir);
                assert(out@ =~= seq![PathComponent::RootDir]);
                assert(components_view(out@) =~= seq![ComponentView::Root]);
            },
            PathComponent::Normal(name) => {
                let c = PathComponent::Normal(copy_bytes(name));
                proof {
                    lemma_view_push(out@, c);
                }
                out.push(c);
                assert(components_view(out@) =~= before.push(path@[i as int]));
            },
        }
        assert(components_view(out@) == normalize_step(before, path@[i as int]));
        i = i + 1;
    }
    FsPath { components: out }
}

/// Every component produced by one normalisation step on a normal-form
/// prefix keeps the prefix in normal form.
proof fn lemma_step_keeps_normal_form(out: Seq<ComponentView>, c: ComponentView)
    requires
        is_normal_form(out),
    ensures
        is_normal_form(normalize_step(out, c)),
{
    let r = normalize_step(out, c);
    match c {
        ComponentView::Parent => {
            assert forall|i: int| 0 <= i < r.len() implies (#[trigger] r[i] is Normal || (i == 0
                && r[i] is Root)) by {
                assert(r[i] == out[i]);
            }
        },
        ComponentView::Cur => {},
        ComponentView::Root => {},
        ComponentView::Normal(n) => {
            assert forall|i: int| 0 <= i < r.len() implies (#[trigger] r[i] is Normal || (i == 0
                && r[i] is Root)) by {
                if i < out.len() {
                    assert(r[i] == out[i]);
                }
            }
        },
    }
}

proof fn lemma_normalize_from_normal_form(out: Seq<ComponentView>, rest: Seq<ComponentView>)
    requires
        is_normal_form(out),
    ensures
        is_normal_form(normalize_from(out, rest)),
    decreases rest.len(),
{
    if rest.len() > 0 {
        lemma_step_keeps_normal_form(out, rest[0]);
        lemma_normalize_from_normal_form(normalize_step(out, rest[0]), rest.drop_first());
    }
}

/// Normalisation leaves no `.` and no `..` behind: the result is an optional
/// root followed by normal names.
pub proof fn lemma_normalize_is_normal_form(p: Seq<ComponentView>)
    ensures
        is_normal_form(normalize_spec(p)),
{
    lemma_normalize_from_normal_form(Seq::empty(), p);
}

proof fn lemma_normalize_from_fixed(out: Seq<ComponentView>, rest: Seq<ComponentView>)
    requires
        is_normal_form(rest),
        rest.len() > 0 ==> !(rest[0] is Root),
    ensures
        normalize_from(out, rest) == out + rest,
    decreases rest.len(),
{
    if rest.len() == 0 {
        assert(out + rest =~= out);
    } else {
        let c = rest[0];
        assert(c is Normal);
        let tail = rest.drop_first();
        assert forall|i: int| 0 <= i < tail.len() implies (#[trigger] tail[i] is Normal || (i
            == 0 && tail[i] is Root)) by {
            assert(tail[i] == rest[i + 1]);
        }
        lemma_normalize_from_fixed(normalize_step(out, c), tail);
        assert(out.push(c) + tail =~= out + rest);
    }
}

/// A path already in normal form is left unchanged by normalisation.
pub proof fn lemma_normalize_fixes_normal_form(p: Seq<ComponentView>)
    requires
        is_normal_form(p),
    ensures
        normalize_spec(p) == p,
{
    if p.len() > 0 && p[0] is Root {
        let tail = p.drop_first();
        assert forall|i: int| 0 <= i < tail.len() implies (#[trigger] tail[i] is Normal || (i
            == 0 && tail[i] is Root)) by {
            assert(tail[i] == p[i + 1]);
        }
        if tail.len() > 0 {
            assert(tail[0] == p[1]);
        }
        lemma_normalize_from_fixed(seq![ComponentView::Root], tail);
        assert(seq![ComponentView::Root] + tail =~= p);
    } else {
        if p.len() > 0 {
            assert(p[0] is Normal);
        }
        lemma_normalize_from_fixed(Seq::empty(), p);
        assert(Seq::<ComponentView>::empty() + p =~= p);
    }
}

/// Normalising twice gives the same path as normalising once.
pub proof fn lemma_normalize_idempotent(p: Seq<ComponentView>)
    ensures
        normalize_spec(normalize_spec(p)) == normalize_spec(p),
{
    lemma_normalize_is_normal_form(p);
    lemma_normalize_fixes_normal_form(normalize_spec(p));
}

proof fn lemma_normalize_from_keeps_root(out: Seq<ComponentView>, rest: Seq<ComponentView>)
    requires
        out.len() > 0,
        out[0] is Root,
    ensures
        normalize_from(out, rest).len() > 0,
        normalize_from(out, rest)[0] is Root,
    decreases rest.len(),
{
    if rest.len() > 0 {
        let next = normalize_step(out, rest[0]);
        assert(next.len() > 0 && next[0] is Root) by {
            match rest[0] {
                ComponentView::Parent => {
                    if !(out.len() == 0 || out.last() is Root) {
                        assert(out.len() > 1);
                        assert(next[0] == out[0]);
                    }
                },
                ComponentView::Normal(n) => {
                    assert(next[0] == out[0]);
                },
                _ => {},
            }
        }
        lemma_normalize_from_keeps_root(next, rest.drop_first());
    }
}

/// An absolute path stays absolute under normalisation: `..` can never climb
/// above the root.
pub proof fn lemma_normalize_keeps_absolute(p: Seq<ComponentView>)
    requires
        is_absolute_spec(p),
    ensures
        is_absolute_spec(normalize_spec(p)),
{
    lemma_normalize_from_keeps_root(seq![ComponentView::Root], p.drop_first());
    assert(normalize_step(Seq::<ComponentView>::empty(), p[0]) =~= seq![ComponentView::Root]);
}

} // verus!
