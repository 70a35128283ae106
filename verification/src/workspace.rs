//! Workspace orientation for the system prompt: a bounded, dated overview of
//! the agent folder.
//!
//! The caller lists the folder (and each of its subfolders) into a
//! `WorkspaceSnapshot`; this module decides what is shown and renders it.
//! Junk files and symlinks are left out, folders come before files and
//! names are ordered case-insensitively; the root's entries and the
//! immediate children of its subfolders are shown, deeper folders only as a
//! header line, and at most `WORKSPACE_MAX_ENTRIES` lines are emitted.
use vstd::prelude::*;

use crate::keyed::{lemma_text_lt_irreflexive, lemma_text_lt_total, lemma_text_lt_transitive};
use crate::preview_pptx::strings_view;
use crate::text::{chars_lt, lowercase_text, str_chars, str_equal, text_lt, to_lowercase};

verus! {

broadcast use vstd::string::group_string_axioms;

/// Hard cap on emitted entries.
pub const WORKSPACE_MAX_ENTRIES: usize = 40;

/// What kind of filesystem object an entry is.
#[derive(Debug, Clone, Copy, PartialEq, Eq)]
pub enum FileKind {
    Dir,
    Symlink,
    /// A regular file or any other object that is neither.
    NonDir,
}

/// The labels shown for a file: its size and its modification date.
#[derive(Debug)]
pub struct EntryLabels {
    pub size: String,
    pub modified: String,
}

/// One entry of a folder listing, as the caller read it.
#[derive(Debug)]
pub struct ListedEntry {
    /// The entry's name (lossily decoded).
    pub name: String,
    /// The entry's type; `None` when it could not be read.
    pub file_type: Option<FileKind>,
    /// The entry's labels; `None` when its metadata could not be read.
    pub labels: Option<EntryLabels>,
}

/// The agent folder as read for one prompt.
#[derive(Debug)]
pub struct WorkspaceSnapshot {
    /// The root's entries, in the order the OS listed them; `None` when the
    /// folder cannot be resolved, is not a directory or cannot be read.
    pub root: Option<Vec<ListedEntry>>,
    /// For each root entry (same position): the listing of that entry when
    /// it is a folder that could be read, else `None`.
    pub subfolders: Vec<Option<Vec<ListedEntry>>>,
}

pub struct ListedView {
    pub name: Seq<char>,
    pub file_type: Option<FileKind>,
    pub labels: Option<(Seq<char>, Seq<char>)>,
}

impl View for ListedEntry {
    type V = ListedView;

    open spec fn view(&self) -> ListedView {
        ListedView {
            name: self.name@,
            file_type: self.file_type,
            labels: match self.labels {
                Some(l) => Some((l.size@, l.modified@)),
                None => None,
            },
        }
    }
}

/// The views of a listing.
pub open spec fn listing_view(v: Seq<ListedEntry>) -> Seq<ListedView> {
    v.map_values(|e: ListedEntry| e@)
}

/// The view of an optional listing.
pub open spec fn opt_listing_view(o: Option<Vec<ListedEntry>>) -> Option<Seq<ListedView>> {
    match o {
        Some(v) => Some(listing_view(v@)),
        None => None,
    }
}

/// Names that are never shown.
pub open spec fn is_denied(name: Seq<char>) -> bool {
    name == ".DS_Store"@ || name == "Thumbs.db"@ || name == ".Spotlight-V100"@
}

/// An entry that is shown: not junk, of a known type, not a symlink, with
/// readable metadata.
pub open spec fn is_listed(e: ListedView) -> bool {
    &&& !is_denied(e.name)
    &&& e.file_type is Some
    &&& e.file_type != Some(FileKind::Symlink)
    &&& e.labels is Some
}

/// The positions of the shown entries among the first `n`, in listing order.
pub open spec fn listed_positions(list: Seq<ListedView>, n: int) -> Seq<int>
    decreases n,
{
    if n <= 0 {
        Seq::empty()
    } else if is_listed(list[n - 1]) {
        listed_positions(list, n - 1).push(n - 1)
    } else {
        listed_positions(list, n - 1)
    }
}

/// The sort key of an entry: folders first, then the lower-cased name.
pub open spec fn sort_key(e: ListedView) -> (bool, Seq<char>) {
    (e.file_type == Some(FileKind::Dir), lowercase_text(e.name))
}

/// `a` sorts strictly after `b`.
pub open spec fn key_gt(a: (bool, Seq<char>), b: (bool, Seq<char>)) -> bool {
    if a.0 != b.0 {
        b.0
    } else {
        text_lt(b.1, a.1)
    }
}

/// The first position in `sorted` whose entry sorts strictly after `key`.
pub open spec fn upper_bound(list: Seq<ListedView>, sorted: Seq<int>, key: (bool, Seq<char>)) -> int
    decreases sorted.len(),
{
    if sorted.len() == 0 {
        0
    } else if key_gt(sort_key(list[sorted[0]]), key) {
        0
    } else {
        1 + upper_bound(list, sorted.drop_first(), key)
    }
}

/// Stable insertion sort of positions by the entries' keys (what
/// `slice::sort_by` yields: equal keys keep their listing order).
pub open spec fn sort_positions(list: Seq<ListedView>, ps: Seq<int>) -> Seq<int>
    decreases ps.len(),
{
    if ps.len() == 0 {
        Seq::empty()
    } else {
        let sorted = sort_positions(list, ps.drop_last());
        let i = ps.last();
        sorted.insert(upper_bound(list, sorted, sort_key(list[i])), i)
    }
}

/// The shown entries of a listing, in display order, by position.
pub open spec fn display_order(list: Seq<ListedView>) -> Seq<int> {
    sort_positions(list, listed_positions(list, list.len() as int))
}

/// `depth` levels of indentation.
pub open spec fn indent(depth: nat) -> Seq<char>
    decreases depth,
{
    if depth == 0 {
        Seq::empty()
    } else {
        indent((depth - 1) as nat) + "  "@
    }
}

/// The line for one entry.
pub open spec fn entry_line(depth: nat, e: ListedView) -> Seq<char> {
    if e.file_type == Some(FileKind::Dir) {
        indent(depth) + "📁 "@ + e.name + "/\n"@
    } else {
        let (size, modified) = e.labels->Some_0;
        indent(depth) + "📄 "@ + e.name + "  ("@ + size + " · "@ + modified + ")\n"@
    }
}

/// The lines for the entries `order[..n]` of a subfolder listing.
pub open spec fn sub_lines(sub: Seq<ListedView>, order: Seq<int>, n: int) -> Seq<Seq<char>>
    decreases n,
{
    if n <= 0 {
        Seq::empty()
    } else {
        sub_lines(sub, order, n - 1).push(entry_line(1, sub[order[n - 1]]))
    }
}

/// The lines a root entry contributes: its own line, then, for a folder
/// that could be read, one line per shown child.
pub open spec fn root_entry_lines(
    root: Seq<ListedView>,
    subs: Seq<Option<Seq<ListedView>>>,
    p: int,
) -> Seq<Seq<char>> {
    let head = seq![entry_line(0, root[p])];
    if root[p].file_type == Some(FileKind::Dir) && 0 <= p < subs.len() && subs[p] is Some {
        let sub = subs[p]->Some_0;
        head + sub_lines(sub, display_order(sub), display_order(sub).len() as int)
    } else {
        head
    }
}

/// All lines for the root entries `order[..n]`, without the cap.
pub open spec fn all_lines(
    root: Seq<ListedView>,
    subs: Seq<Option<Seq<ListedView>>>,
    order: Seq<int>,
    n: int,
) -> Seq<Seq<char>>
    decreases n,
{
    if n <= 0 {
        Seq::empty()
    } else {
        all_lines(root, subs, order, n - 1) + root_entry_lines(root, subs, order[n - 1])
    }
}

/// The concatenation of the lines.
pub open spec fn concat_lines(lines: Seq<Seq<char>>) -> Seq<char>
    decreases lines.len(),
{
    if lines.len() == 0 {
        Seq::empty()
    } else {
        concat_lines(lines.drop_last()) + lines.last()
    }
}

/// The note appended when entries were left out.
pub open spec fn capped_note() -> Seq<char> {
    "… weitere Einträge ausgelassen — nutze list_folder/grep_in_files\n"@
}

/// The overview: `None` when the folder cannot be read or shows nothing;
/// otherwise the first `WORKSPACE_MAX_ENTRIES` lines, followed by a note when
/// there were more.
pub open spec fn workspace_tree_spec(
    root: Option<Seq<ListedView>>,
    subs: Seq<Option<Seq<ListedView>>>,
) -> Option<Seq<char>> {
    match root {
        None => None,
        Some(r) => {
            let order = display_order(r);
            let lines = all_lines(r, subs, order, order.len() as int);
            if lines.len() == 0 {
                None
            } else if lines.len() > WORKSPACE_MAX_ENTRIES {
                Some(concat_lines(lines.take(WORKSPACE_MAX_ENTRIES as int)) + capped_note())
            } else {
                Some(concat_lines(lines))
            }
        },
    }
}

fn is_denied_name(name: &str) -> (r: bool)
    ensures
        r == is_denied(name@),
{
    str_equal(name, ".DS_Store") || str_equal(name, "Thumbs.db") || str_equal(
        name,
        ".Spotlight-V100",
    )
}

fn entry_is_listed(e: &ListedEntry) -> (r: bool)
    ensures
        r == is_listed(e@),
{
    if is_denied_name(e.name.as_str()) {
        return false;
    }
    match e.file_type {
        None => false,
        Some(FileKind::Symlink) => false,
        Some(_) => e.labels.is_some(),
    }
}

/// A shown entry with its sort key.
struct Keyed {
    pos: usize,
    is_dir: bool,
    key: Vec<char>,
}

/// Whether `k` sorts strictly after the key `(is_dir, key)`.
fn sorts_after(k: &Keyed, is_dir: bool, key: &Vec<char>) -> (r: bool)
    ensures
        r == key_gt((k.is_dir, k.key@), (is_dir, key@)),
{
    if k.is_dir != is_dir {
        is_dir
    } else {
        chars_lt(key, &k.key)
    }
}

spec fn keyed_ok(list: Seq<ListedView>, k: Keyed) -> bool {
    &&& 0 <= k.pos < list.len()
    &&& (k.is_dir, k.key@) == sort_key(list[k.pos as int])
}

/// The display order of a listing: positions of shown entries, folders
/// first, then by lower-cased name, ties in listing order.
fn display_positions(list: &Vec<ListedEntry>) -> (r: Vec<usize>)
    ensures
        r@.map_values(|p: usize| p as int) == display_order(listing_view(list@)),
        forall|i: int| 0 <= i < r@.len() ==> r@[i] < list@.len(),
{
    let ghost lv = listing_view(list@);
    let mut sorted: Vec<Keyed> = Vec::new();
    let mut i: usize = 0;
    while i < list.len()
        invariant
            i <= list.len(),
            lv == listing_view(list@),
            forall|j: int| 0 <= j < sorted@.len() ==> keyed_ok(lv, #[trigger] sorted@[j]),
            sorted@.map_values(|k: Keyed| k.pos as int) == sort_positions(
                lv,
                listed_positions(lv, i as int),
            ),
        decreases list.len() - i,
    {
        let e = &list[i];
        if entry_is_listed(e) {
            let lower = to_lowercase(e.name.as_str());
            let key = str_chars(lower.as_str());
            let is_dir = match e.file_type {
                Some(FileKind::Dir) => true,
                _ => false,
            };
            let ghost sv = sorted@.map_values(|k: Keyed| k.pos as int);
            let ghost ikey = sort_key(lv[i as int]);
            let mut p: usize = 0;
            assert(sv.skip(0) =~= sv);
            while p < sorted.len() && !sorts_after(&sorted[p], is_dir, &key)
                invariant
                    p <= sorted.len(),
                    lv == listing_view(list@),
                    i < list.len(),
                    ikey == sort_key(lv[i as int]),
                    (is_dir, key@) == ikey,
                    forall|j: int| 0 <= j < sorted@.len() ==> keyed_ok(lv, #[trigger] sorted@[j]),
                    sv == sorted@.map_values(|k: Keyed| k.pos as int),
                    upper_bound(lv, sv, ikey) == p + upper_bound(lv, sv.skip(p as int), ikey),
                decreases sorted.len() - p,
            {
                proof {
                    assert(sv.skip(p as int).drop_first() =~= sv.skip(p + 1));
                    assert(sv.skip(p as int)[0] == sorted@[p as int].pos as int);
                    assert(keyed_ok(lv, sorted@[p as int]));
                }
                p = p + 1;
            }
            proof {
                if p < sorted.len() {
                    assert(sv.skip(p as int)[0] == sorted@[p as int].pos as int);
                    assert(keyed_ok(lv, sorted@[p as int]));
                }
                assert(upper_bound(lv, sv, ikey) == p);
                assert(listed_positions(lv, i + 1) == listed_positions(lv, i as int).push(
                    i as int,
                ));
                assert(listed_positions(lv, i + 1).drop_last() =~= listed_positions(
                    lv,
                    i as int,
                ));
            }
            let ghost old_sorted = sorted@;
            let item = Keyed { pos: i, is_dir, key };
            assert(keyed_ok(lv, item));
            sorted.insert(p, item);
            proof {
                assert(sorted@.map_values(|k: Keyed| k.pos as int) =~= sv.insert(
                    p as int,
                    i as int,
                ));
                assert forall|j: int| 0 <= j < sorted@.len() implies keyed_ok(
                    lv,
                    #[trigger] sorted@[j],
                ) by {
                    if j < p {
                        assert(sorted@[j] == old_sorted[j]);
                    } else if j > p {
                        assert(sorted@[j] == old_sorted[j - 1]);
                    }
                }
            }
        } else {
            assert(listed_positions(lv, i + 1) == listed_positions(lv, i as int));
        }
        i = i + 1;
    }
    let mut out: Vec<usize> = Vec::new();
    let mut j: usize = 0;
    assert(out@.map_values(|p: usize| p as int) =~= Seq::<int>::empty());
    while j < sorted.len()
        invariant
            j <= sorted.len(),
            forall|t: int| 0 <= t < sorted@.len() ==> keyed_ok(lv, #[trigger] sorted@[t]),
            lv.len() == list@.len(),
            out@.map_values(|p: usize| p as int) == sorted@.map_values(|k: Keyed| k.pos as int).take(
                j as int,
            ),
            forall|t: int| 0 <= t < out@.len() ==> out@[t] < list@.len(),
        decreases sorted.len() - j,
    {
        assert(keyed_ok(lv, sorted@[j as int]));
        let ghost before = out@;
        out.push(sorted[j].pos);
        assert(out@.map_values(|p: usize| p as int) =~= before.map_values(|p: usize| p as int).push(
            sorted@[j as int].pos as int,
        ));
        j = j + 1;
        assert(out@.map_values(|p: usize| p as int) =~= sorted@.map_values(
            |k: Keyed| k.pos as int,
        ).take(j as int));
    }
    assert(sorted@.map_values(|k: Keyed| k.pos as int).take(sorted.len() as int) =~= sorted@.map_values(
        |k: Keyed| k.pos as int,
    ));
    out
}

/// The line for one shown entry at depth 0 or 1.
fn entry_line_text(depth: usize, e: &ListedEntry) -> (r: String)
    requires
        depth <= 1,
        is_listed(e@),
    ensures
        r@ == entry_line(depth as nat, e@),
{
    let mut out = String::new();
    if depth == 1 {
        out.push_str("  ");
    }
    proof {
        reveal_with_fuel(indent, 2);
        if depth == 1 {
            assert(indent(1) =~= "  "@);
        } else {
            assert(indent(0) =~= Seq::<char>::empty());
        }
    }
    let is_dir = match e.file_type {
        Some(FileKind::Dir) => true,
        _ => false,
    };
    if is_dir {
        out.push_str("📁 ");
        out.push_str(e.name.as_str());
        out.push_str("/\n");
    } else {
        match &e.labels {
            Some(l) => {
                out.push_str("📄 ");
                out.push_str(e.name.as_str());
                out.push_str("  (");
                out.push_str(l.size.as_str());
                out.push_str(" · ");
                out.push_str(l.modified.as_str());
                out.push_str(")\n");
            },
            None => {},
        }
    }
    assert(out@ =~= entry_line(depth as nat, e@));
    out
}

/// Render the overview of the agent folder for the system prompt.
///
/// `None` when the folder could not be read or shows no entry. Otherwise an
/// indented tree — folders (with `/`) before files (with size and date),
/// names compared case-insensitively — of at most `WORKSPACE_MAX_ENTRIES`
/// lines, with a closing note when entries were left out.
pub fn build_workspace_tree(snapshot: &WorkspaceSnapshot) -> (r: Option<String>)
    ensures
        match (r, workspace_tree_spec(
            opt_listing_view(snapshot.root),
            snapshot.subfolders@.map_values(|o: Option<Vec<ListedEntry>>| opt_listing_view(o)),
        )) {
            (Some(a), Some(b)) => a@ == b,
            (None, None) => true,
            _ => false,
        },
{
    let root = match &snapshot.root {
        None => {
            return None;
        },
        Some(r) => r,
    };
    let ghost rv = listing_view(root@);
    let ghost subs = snapshot.subfolders@.map_values(
        |o: Option<Vec<ListedEntry>>| opt_listing_view(o),
    );
    let order = display_positions(root);
    let ghost ov = order@.map_values(|p: usize| p as int);
    let mut lines: Vec<String> = Vec::new();
    assert(strings_view(lines@) =~= Seq::<Seq<char>>::empty());
    let mut k: usize = 0;
    while k < order.len()
        invariant
            k <= order.len(),
            rv == listing_view(root@),
            subs == snapshot.subfolders@.map_values(
                |o: Option<Vec<ListedEntry>>| opt_listing_view(o),
            ),
            ov == order@.map_values(|p: usize| p as int),
            ov == display_order(rv),
            forall|t: int| 0 <= t < order@.len() ==> order@[t] < root@.len(),
            strings_view(lines@) == all_lines(rv, subs, ov, k as int),
        decreases order.len() - k,
    {
        let p = order[k];
        proof {
            lemma_display_order_listed(rv);
            assert(ov[k as int] == p as int);
        }
        let head = entry_line_text(0, &root[p]);
        let ghost before = strings_view(lines@);
        lines.push(head);
        assert(strings_view(lines@) =~= before + seq![entry_line(0, rv[p as int])]);
        let is_dir = match root[p].file_type {
            Some(FileKind::Dir) => true,
            _ => false,
        };
        if is_dir && p < snapshot.subfolders.len() {
            match &snapshot.subfolders[p] {
                Some(sub) => {
                    let ghost sv = listing_view(sub@);
                    assert(subs[p as int] == Some(sv));
                    let sub_order = display_positions(sub);
                    let ghost sov = sub_order@.map_values(|q: usize| q as int);
                    let ghost mid = strings_view(lines@);
                    let mut m: usize = 0;
                    while m < sub_order.len()
                        invariant
                            m <= sub_order.len(),
                            sv == listing_view(sub@),
                            sov == sub_order@.map_values(|q: usize| q as int),
                            sov == display_order(sv),
                            forall|t: int| 0 <= t < sub_order@.len() ==> sub_order@[t] < sub@.len(),
                            strings_view(lines@) == mid + sub_lines(sv, sov, m as int),
                        decreases sub_order.len() - m,
                    {
                        let q = sub_order[m];
                        proof {
                            lemma_display_order_listed(sv);
                            assert(sov[m as int] == q as int);
                        }
                        let line = entry_line_text(1, &sub[q]);
                        let ghost b2 = strings_view(lines@);
                        lines.push(line);
                        assert(strings_view(lines@) =~= b2.push(entry_line(1, sv[q as int])));
                        m = m + 1;
                    }
                    assert(strings_view(lines@) =~= all_lines(rv, subs, ov, k + 1));
                },
                None => {
                    assert(strings_view(lines@) =~= all_lines(rv, subs, ov, k + 1));
                },
            }
        } else {
            assert(strings_view(lines@) =~= all_lines(rv, subs, ov, k + 1));
        }
        k = k + 1;
    }
    let ghost lv = strings_view(lines@);
    if lines.len() == 0 {
        return None;
    }
    let limit = if lines.len() > WORKSPACE_MAX_ENTRIES {
        WORKSPACE_MAX_ENTRIES
    } else {
        lines.len()
    };
    let mut out = String::new();
    let mut t: usize = 0;
    while t < limit
        invariant
            t <= limit,
            limit <= lines.len(),
            lv == strings_view(lines@),
            out@ == concat_lines(lv.take(t as int)),
        decreases limit - t,
    {
        proof {
            assert(lv.take(t + 1).drop_last() =~= lv.take(t as int));
            assert(lv.take(t + 1).last() == lines@[t as int]@);
        }
        out.push_str(lines[t].as_str());
        t = t + 1;
    }
    if lines.len() > WORKSPACE_MAX_ENTRIES {
        out.push_str("… weitere Einträge ausgelassen — nutze list_folder/grep_in_files\n");
    } else {
        assert(lv.take(limit as int) =~= lv);
    }
    Some(out)
}

/// Every position in a display order names a shown entry of the listing.
pub proof fn lemma_display_order_listed(list: Seq<ListedView>)
    ensures
        forall|i: int|
            0 <= i < display_order(list).len() ==> 0 <= #[trigger] display_order(list)[i]
                < list.len() && is_listed(list[display_order(list)[i]]),
{
    lemma_listed_positions(list, list.len() as int);
    lemma_sort_positions_members(list, listed_positions(list, list.len() as int));
}

proof fn lemma_listed_positions(list: Seq<ListedView>, n: int)
    requires
        0 <= n <= list.len(),
    ensures
        forall|i: int|
            0 <= i < listed_positions(list, n).len() ==> 0 <= #[trigger] listed_positions(
                list,
                n,
            )[i] < n && is_listed(list[listed_positions(list, n)[i]]),
    decreases n,
{
    if n > 0 {
        lemma_listed_positions(list, n - 1);
        let prev = listed_positions(list, n - 1);
        let cur = listed_positions(list, n);
        if is_listed(list[n - 1]) {
            assert forall|i: int| 0 <= i < cur.len() implies 0 <= #[trigger] cur[i] < n
                && is_listed(list[cur[i]]) by {
                if i < prev.len() {
                    assert(cur[i] == prev[i]);
                } else {
                    assert(cur[i] == n - 1);
                }
            }
        } else {
            assert(cur == prev);
        }
    }
}

proof fn lemma_sort_positions_members(list: Seq<ListedView>, ps: Seq<int>)
    ensures
        forall|i: int|
            0 <= i < sort_positions(list, ps).len() ==> ps.contains(
                #[trigger] sort_positions(list, ps)[i],
            ),
        sort_positions(list, ps).len() == ps.len(),
    decreases ps.len(),
{
    if ps.len() > 0 {
        let sorted = sort_positions(list, ps.drop_last());
        lemma_sort_positions_members(list, ps.drop_last());
        let i = ps.last();
        lemma_upper_bound_range(list, sorted, sort_key(list[i]));
        let r = sort_positions(list, ps);
        let u = upper_bound(list, sorted, sort_key(list[i]));
        assert forall|j: int| 0 <= j < r.len() implies ps.contains(#[trigger] r[j]) by {
            if j < u {
                assert(r[j] == sorted[j]);
                assert(ps.drop_last().contains(sorted[j]));
                let w = choose|w: int| 0 <= w < ps.drop_last().len() && ps.drop_last()[w] == sorted[j];
                assert(ps[w] == sorted[j]);
            } else if j == u {
                assert(ps[ps.len() - 1] == i);
            } else {
                assert(r[j] == sorted[j - 1]);
                assert(ps.drop_last().contains(sorted[j - 1]));
                let w = choose|w: int|
                    0 <= w < ps.drop_last().len() && ps.drop_last()[w] == sorted[j - 1];
                assert(ps[w] == sorted[j - 1]);
            }
        }
    }
}

proof fn lemma_upper_bound_range(list: Seq<ListedView>, sorted: Seq<int>, key: (bool, Seq<char>))
    ensures
        0 <= upper_bound(list, sorted, key) <= sorted.len(),
    decreases sorted.len(),
{
    if sorted.len() > 0 {
        lemma_upper_bound_range(list, sorted.drop_first(), key);
    }
}


/// Positions whose entries never sort after a later one.
pub open spec fn key_sorted(list: Seq<ListedView>, s: Seq<int>) -> bool {
    forall|i: int, j: int|
        0 <= i < j < s.len() ==> !key_gt(sort_key(list[s[i]]), sort_key(list[s[j]]))
}

proof fn lemma_key_gt_order(a: (bool, Seq<char>), b: (bool, Seq<char>), c: (bool, Seq<char>))
    ensures
        !key_gt(a, a),
        a != b ==> key_gt(a, b) || key_gt(b, a),
        !(key_gt(a, b) && key_gt(b, a)),
        key_gt(a, b) && key_gt(b, c) ==> key_gt(a, c),
{
    lemma_text_lt_irreflexive(a.1);
    lemma_text_lt_total(a.1, b.1);
    if key_gt(a, b) && key_gt(b, c) && a.0 == b.0 && b.0 == c.0 {
        lemma_text_lt_transitive(c.1, b.1, a.1);
    }
}

proof fn lemma_upper_bound_split(list: Seq<ListedView>, sorted: Seq<int>, key: (bool, Seq<char>))
    requires
        key_sorted(list, sorted),
    ensures
        forall|k: int|
            0 <= k < upper_bound(list, sorted, key) ==> !key_gt(
                sort_key(list[#[trigger] sorted[k]]),
                key,
            ),
        forall|k: int|
            upper_bound(list, sorted, key) <= k < sorted.len() ==> key_gt(
                sort_key(list[#[trigger] sorted[k]]),
                key,
            ),
    decreases sorted.len(),
{
    lemma_upper_bound_range(list, sorted, key);
    if sorted.len() > 0 {
        let rest = sorted.drop_first();
        assert forall|i: int, j: int| 0 <= i < j < rest.len() implies !key_gt(
            sort_key(list[rest[i]]),
            sort_key(list[rest[j]]),
        ) by {
            assert(rest[i] == sorted[i + 1] && rest[j] == sorted[j + 1]);
        }
        lemma_upper_bound_split(list, rest, key);
        if key_gt(sort_key(list[sorted[0]]), key) {
            assert forall|k: int| 0 <= k < sorted.len() implies key_gt(
                sort_key(list[#[trigger] sorted[k]]),
                key,
            ) by {
                if k > 0 {
                    let x = sort_key(list[sorted[0]]);
                    let y = sort_key(list[sorted[k]]);
                    lemma_key_gt_order(y, x, key);
                    lemma_key_gt_order(x, y, key);
                }
            }
        } else {
            assert forall|k: int| 0 < k < sorted.len() implies #[trigger] sorted[k] == rest[k - 1] by {}
        }
    }
}

/// The stable sort orders positions by key.
pub proof fn lemma_sort_positions_sorted(list: Seq<ListedView>, ps: Seq<int>)
    ensures
        key_sorted(list, sort_positions(list, ps)),
    decreases ps.len(),
{
    if ps.len() > 0 {
        let t = sort_positions(list, ps.drop_last());
        lemma_sort_positions_sorted(list, ps.drop_last());
        let x = ps.last();
        let key = sort_key(list[x]);
        lemma_upper_bound_split(list, t, key);
        lemma_upper_bound_range(list, t, key);
        let p = upper_bound(list, t, key);
        let r = t.insert(p, x);
        assert forall|i: int, j: int| 0 <= i < j < r.len() implies !key_gt(
            sort_key(list[r[i]]),
            sort_key(list[r[j]]),
        ) by {
            if j < p {
                assert(r[i] == t[i] && r[j] == t[j]);
            } else if j == p {
                assert(r[i] == t[i]);
            } else if i < p {
                assert(r[i] == t[i] && r[j] == t[j - 1]);
                let a = sort_key(list[t[i]]);
                let b = sort_key(list[t[j - 1]]);
                lemma_key_gt_order(a, key, b);
                lemma_key_gt_order(key, b, a);
                lemma_key_gt_order(b, a, key);
                lemma_key_gt_order(a, b, key);
            } else if i == p {
                assert(r[j] == t[j - 1]);
                lemma_key_gt_order(key, sort_key(list[t[j - 1]]), key);
            } else {
                assert(r[i] == t[i - 1] && r[j] == t[j - 1]);
            }
        }
    }
}

/// Shown entries come in display order: folders before files, each group
/// by lower-cased name, and no entry after one that sorts before it.
pub proof fn lemma_display_order_sorted(list: Seq<ListedView>)
    ensures
        key_sorted(list, display_order(list)),
        forall|i: int, j: int|
            #![trigger display_order(list)[i], display_order(list)[j]]
            0 <= i < j < display_order(list).len() ==> {
                let a = list[display_order(list)[i]];
                let b = list[display_order(list)[j]];
                &&& (b.file_type == Some(FileKind::Dir) ==> a.file_type == Some(FileKind::Dir))
                &&& ((a.file_type == Some(FileKind::Dir)) == (b.file_type == Some(FileKind::Dir))
                    ==> !text_lt(lowercase_text(b.name), lowercase_text(a.name)))
            },
{
    let d = display_order(list);
    lemma_sort_positions_sorted(list, listed_positions(list, list.len() as int));
    assert forall|i: int, j: int| 0 <= i < j < d.len() implies {
        let a = list[#[trigger] d[i]];
        let b = list[#[trigger] d[j]];
        &&& (b.file_type == Some(FileKind::Dir) ==> a.file_type == Some(FileKind::Dir))
        &&& ((a.file_type == Some(FileKind::Dir)) == (b.file_type == Some(FileKind::Dir))
            ==> !text_lt(lowercase_text(b.name), lowercase_text(a.name)))
    } by {
        assert(!key_gt(sort_key(list[d[i]]), sort_key(list[d[j]])));
    }
}


proof fn lemma_listed_positions_empty(list: Seq<ListedView>, n: int)
    requires
        0 <= n <= list.len(),
    ensures
        listed_positions(list, n).len() == 0 <==> forall|i: int|
            0 <= i < n ==> !is_listed(#[trigger] list[i]),
    decreases n,
{
    if n > 0 {
        lemma_listed_positions_empty(list, n - 1);
    }
}

proof fn lemma_all_lines_len(
    root: Seq<ListedView>,
    subs: Seq<Option<Seq<ListedView>>>,
    order: Seq<int>,
    n: int,
)
    requires
        0 <= n,
    ensures
        all_lines(root, subs, order, n).len() >= n,
    decreases n,
{
    if n > 0 {
        lemma_all_lines_len(root, subs, order, n - 1);
    }
}

/// The overview is absent exactly when the folder could not be read or
/// holds no entry that is shown (junk names, symlinks and entries whose
/// type or metadata could not be read are not shown).
pub proof fn lemma_workspace_none(root: Option<Seq<ListedView>>, subs: Seq<Option<Seq<ListedView>>>)
    ensures
        workspace_tree_spec(root, subs) is None <==> match root {
            None => true,
            Some(r) => forall|i: int| 0 <= i < r.len() ==> !is_listed(#[trigger] r[i]),
        },
{
    if let Some(r) = root {
        let ps = listed_positions(r, r.len() as int);
        lemma_sort_positions_members(r, ps);
        lemma_listed_positions_empty(r, r.len() as int);
        let order = display_order(r);
        lemma_all_lines_len(r, subs, order, order.len() as int);
    }
}

} // verus!
