//! The project index: candidate project directories gathered from scanned
//! roots and explicit include paths, sorted case-insensitively by their leaf
//! name, together with the selection cursor and the bounded viewport over the
//! currently filtered list.

use vstd::prelude::*;
use vstd::string::StrSliceExecFns;
use crate::error::Error;
use crate::fuzzy::{fuzzy_is_match, fuzzy_score, MAX_SCORED_LEN};
use crate::strutil::{
    lemma_lex_le_total, lemma_lex_le_trans, lex_le, lower_of, starts_with, str_lex_le,
    str_starts_with, str_to_lower,
};

verus! {

/// One indexed project directory: its path and the cached lowercase form of
/// the path's leaf component, under which it is displayed and sorted.
#[derive(Debug, Clone)]
pub struct ProjectEntry {
    pub path: String,
    pub name_lower: String,
}

/// One entry a directory walk yielded: its path and its depth below the
/// walked root.
#[derive(Debug, Clone)]
pub struct ScanEntry {
    pub path: String,
    pub depth: usize,
}

/// A walked root: the root path, the directory name to ignore below it, and
/// every entry the walk yielded up to depth two.
#[derive(Debug, Clone)]
pub struct RootScan {
    pub root: String,
    pub ignore_dir: String,
    pub entries: Vec<ScanEntry>,
}

/// A compound project: a name that opens two other projects together.
#[derive(Debug, Clone)]
pub struct CompoundProject {
    pub name: String,
    pub first: String,
    pub second: String,
}

/// The mathematical content of a [`ProjectEntry`].
pub ghost struct EntryView {
    pub path: Seq<char>,
    pub name: Seq<char>,
}

/// The view of one entry.
pub open spec fn entry_view(e: ProjectEntry) -> EntryView {
    EntryView { path: e.path@, name: e.name_lower@ }
}

/// The views of a sequence of entries.
pub open spec fn entry_views(s: Seq<ProjectEntry>) -> Seq<EntryView> {
    s.map_values(|e: ProjectEntry| entry_view(e))
}

/// The index of the last `/` in `s`, or a negative value when none occurs.
pub open spec fn last_slash(s: Seq<char>) -> int
    decreases s.len(),
{
    if s.len() == 0 {
        -1
    } else if s.last() == '/' {
        s.len() - 1
    } else {
        last_slash(s.drop_last())
    }
}

/// The path's leaf component: the characters after the last `/`, or the whole
/// path when it has none.
pub open spec fn leaf_of(s: Seq<char>) -> Seq<char> {
    s.skip(last_slash(s) + 1)
}

proof fn lemma_last_slash_props(s: Seq<char>)
    ensures
        -1 <= last_slash(s) < s.len(),
        last_slash(s) >= 0 ==> s[last_slash(s)] == '/' && (forall|j: int|
            last_slash(s) < j < s.len() ==> s[j] != '/'),
        last_slash(s) < 0 ==> (forall|j: int| 0 <= j < s.len() ==> s[j] != '/'),
    decreases s.len(),
{
    if s.len() > 0 && s.last() != '/' {
        lemma_last_slash_props(s.drop_last());
        assert forall|j: int| last_slash(s) < j < s.len() implies s[j] != '/' by {
            if j < s.len() - 1 {
                assert(s.drop_last()[j] != '/');
            }
        }
        if last_slash(s) < 0 {
            assert forall|j: int| 0 <= j < s.len() implies s[j] != '/' by {
                if j < s.len() - 1 {
                    assert(s.drop_last()[j] != '/');
                }
            }
        }
    }
}

/// The view an index entry for path `p` takes: the path itself and the
/// lowercase form of its leaf.
pub open spec fn entry_view_of_path(p: Seq<char>) -> EntryView {
    EntryView { path: p, name: lower_of(leaf_of(p)) }
}

/// The ignore prefix below a root: `root/<ignore_dir>`.
pub open spec fn ignore_prefix_of(root: Seq<char>, ignore_dir: Seq<char>) -> Seq<char> {
    root + "/"@ + ignore_dir
}

/// Whether path `p` lies at or below `prefix`, comparing whole components.
pub open spec fn path_starts_with(p: Seq<char>, prefix: Seq<char>) -> bool {
    p == prefix || starts_with(p, prefix + "/"@)
}

/// Whether path `p` ends with the component sequence `q`: the paths are equal
/// or `p` ends in `/` followed by `q`.
pub open spec fn path_ends_with(p: Seq<char>, q: Seq<char>) -> bool {
    p == q || (p.len() > q.len() && p.skip(p.len() - q.len() - 1) == seq!['/'] + q)
}

/// The entries a walked root contributes: those at exactly depth two whose
/// path does not lie below the ignore prefix, in walk order, each viewed
/// under its lowercase leaf name.
pub open spec fn kept_views(ig: Seq<char>, entries: Seq<ScanEntry>) -> Seq<EntryView>
    decreases entries.len(),
{
    if entries.len() == 0 {
        Seq::empty()
    } else {
        let init = kept_views(ig, entries.drop_last());
        let e = entries.last();
        if e.depth == 2 && !path_starts_with(e.path@, ig) {
            init.push(entry_view_of_path(e.path@))
        } else {
            init
        }
    }
}

/// What all the walked roots contribute, in order.
pub open spec fn scans_views(scans: Seq<RootScan>) -> Seq<EntryView>
    decreases scans.len(),
{
    if scans.len() == 0 {
        Seq::empty()
    } else {
        scans_views(scans.drop_last()) + kept_views(
            ignore_prefix_of(scans.last().root@, scans.last().ignore_dir@),
            scans.last().entries@,
        )
    }
}

/// The views of the include paths, appended verbatim.
pub open spec fn include_views(inc: Seq<String>) -> Seq<EntryView> {
    inc.map_values(|p: String| entry_view_of_path(p@))
}

/// The whole unsorted index: scanned entries, then include paths.
pub open spec fn combined_views(scans: Seq<RootScan>, inc: Seq<String>) -> Seq<EntryView> {
    scans_views(scans) + include_views(inc)
}

/// Whether some indexed entry already has path `p`.
pub open spec fn contains_path(s: Seq<EntryView>, p: Seq<char>) -> bool {
    exists|i: int| 0 <= i < s.len() && s[i].path == p
}

/// The include paths that are pushed although their path is already indexed
/// (by a scan or an earlier include): each one draws a duplicate warning but
/// stays in the index.
pub open spec fn dup_warnings(base: Seq<EntryView>, inc: Seq<String>) -> Seq<Seq<char>>
    decreases inc.len(),
{
    if inc.len() == 0 {
        Seq::empty()
    } else {
        let prev = dup_warnings(base, inc.drop_last());
        let sofar = base + include_views(inc.drop_last());
        if contains_path(sofar, inc.last()@) {
            prev.push(inc.last()@)
        } else {
            prev
        }
    }
}

/// Whether an entry's display name is short enough to score.
pub open spec fn name_ok(v: EntryView) -> bool {
    v.name.len() <= MAX_SCORED_LEN
}

/// Whether every entry's display name is short enough to score.
pub open spec fn all_names_ok(s: Seq<EntryView>) -> bool {
    forall|i: int| 0 <= i < s.len() ==> name_ok(#[trigger] s[i])
}

/// Non-decreasing by display name, in lexicographic order.
pub open spec fn sorted_by_name(s: Seq<EntryView>) -> bool {
    forall|i: int, j: int| 0 <= i < j < s.len() ==> lex_le(#[trigger] s[i].name, #[trigger] s[j].name)
}

/// Inserts `e` into `s` after every entry whose name compares less than or
/// equal: an equal name keeps the earlier entry first.
pub open spec fn insert_sorted(e: EntryView, s: Seq<EntryView>) -> Seq<EntryView>
    decreases s.len(),
{
    if s.len() == 0 {
        seq![e]
    } else if lex_le(s[0].name, e.name) {
        seq![s[0]] + insert_sorted(e, s.skip(1))
    } else {
        seq![e] + s
    }
}

/// The stable sort of the index by display name: each entry, in input order,
/// inserted after its equals.
pub open spec fn sort_by_name(s: Seq<EntryView>) -> Seq<EntryView>
    decreases s.len(),
{
    if s.len() == 0 {
        s
    } else {
        insert_sorted(s.last(), sort_by_name(s.drop_last()))
    }
}

/// Where the insertion lands: `e` goes to the first position whose entry's
/// name does not compare less than or equal to `e`'s.
proof fn lemma_insert_sorted_shape(e: EntryView, s: Seq<EntryView>) -> (k: int)
    ensures
        0 <= k <= s.len(),
        insert_sorted(e, s) == s.take(k) + seq![e] + s.skip(k),
        forall|j: int| 0 <= j < k ==> lex_le(#[trigger] s[j].name, e.name),
        k < s.len() ==> !lex_le(s[k].name, e.name),
    decreases s.len(),
{
    if s.len() == 0 {
        assert(insert_sorted(e, s) =~= s.take(0) + seq![e] + s.skip(0));
        0
    } else if lex_le(s[0].name, e.name) {
        let k1 = lemma_insert_sorted_shape(e, s.skip(1));
        let k = k1 + 1;
        assert(s.skip(1).take(k1) =~= s.take(k).skip(1));
        assert(seq![s[0]] + (s.skip(1).take(k1) + seq![e] + s.skip(1).skip(k1)) =~= s.take(k)
            + seq![e] + s.skip(k));
        assert forall|j: int| 0 <= j < k implies lex_le(#[trigger] s[j].name, e.name) by {
            if j > 0 {
                assert(lex_le(s.skip(1)[j - 1].name, e.name));
            }
        }
        if k < s.len() {
            assert(s.skip(1)[k1] == s[k]);
        }
        k
    } else {
        assert(insert_sorted(e, s) =~= s.take(0) + seq![e] + s.skip(0));
        0
    }
}

/// Insertion keeps the sequence sorted.
proof fn lemma_insert_sorted_sorted(e: EntryView, s: Seq<EntryView>)
    requires
        sorted_by_name(s),
    ensures
        sorted_by_name(insert_sorted(e, s)),
{
    let k = lemma_insert_sorted_shape(e, s);
    let r = insert_sorted(e, s);
    if k < s.len() {
        lemma_lex_le_total(s[k].name, e.name);
    }
    assert forall|i: int, j: int| 0 <= i < j < r.len() implies lex_le(
        #[trigger] r[i].name,
        #[trigger] r[j].name,
    ) by {
        let vi = if i < k {
            s[i]
        } else if i == k {
            e
        } else {
            s[i - 1]
        };
        let vj = if j < k {
            s[j]
        } else if j == k {
            e
        } else {
            s[j - 1]
        };
        assert(r[i] == vi);
        assert(r[j] == vj);
        if i < k && j == k {
        } else if i == k && j > k {
            assert(lex_le(e.name, s[k].name));
            if j - 1 > k {
                assert(lex_le(s[k].name, s[j - 1].name));
                lemma_lex_le_trans(e.name, s[k].name, s[j - 1].name);
            }
        } else if i < k && j > k {
            if j - 1 == i {
            } else {
                assert(lex_le(s[i].name, s[j - 1].name));
            }
        }
    }
}

/// The sort is sorted: ranking any index by display name yields a
/// non-decreasing sequence.
pub proof fn lemma_sort_by_name_sorted(s: Seq<EntryView>)
    ensures
        sorted_by_name(sort_by_name(s)),
    decreases s.len(),
{
    if s.len() > 0 {
        lemma_sort_by_name_sorted(s.drop_last());
        lemma_insert_sorted_sorted(s.last(), sort_by_name(s.drop_last()));
    }
}

/// Compares two strings for equality, character by character.
pub fn str_eq(a: &str, b: &str) -> (r: bool)
    ensures
        r == (a@ == b@),
{
    let an = a.unicode_len();
    let bn = b.unicode_len();
    if an != bn {
        proof {
            assert(a@ != b@);
        }
        return false;
    }
    let mut i: usize = 0;
    while i < an
        invariant
            i <= an,
            an == a@.len() == b@.len(),
            forall|j: int| 0 <= j < i ==> a@[j] == b@[j],
        decreases an - i,
    {
        if a.get_char(i) != b.get_char(i) {
            return false;
        }
        i = i + 1;
    }
    proof {
        assert(a@ =~= b@);
    }
    true
}

/// Whether path `p` lies at or below `prefix`, comparing whole components.
pub fn path_starts_with_exec(p: &str, prefix: &String) -> (r: bool)
    ensures
        r == path_starts_with(p@, prefix@),
{
    if str_eq(p, prefix.as_str()) {
        true
    } else {
        let ps = prefix.clone().concat("/");
        str_starts_with(p, ps.as_str())
    }
}

/// The path's leaf component, as a borrowed slice.
pub fn leaf_str<'a>(path: &'a str) -> (r: &'a str)
    ensures
        r@ == leaf_of(path@),
{
    let n = path.unicode_len();
    let mut k: usize = 0;
    let mut i: usize = 0;
    while i < n
        invariant
            k <= i <= n,
            n == path@.len(),
            k > 0 ==> path@[k - 1] == '/',
            forall|j: int| k <= j < i ==> path@[j] != '/',
        decreases n - i,
    {
        if path.get_char(i) == '/' {
            k = i + 1;
        }
        i = i + 1;
    }
    proof {
        lemma_last_slash_props(path@);
        let ls = last_slash(path@);
        if k > 0 {
            if ls < k - 1 {
                assert(path@[k - 1] == '/');
                assert(false);
            }
            if ls > k - 1 {
                assert(path@[ls] != '/');
                assert(false);
            }
        } else {
            if ls >= 0 {
                assert(path@[ls] != '/');
                assert(false);
            }
        }
    }
    path.substring_char(k, n)
}

/// A field-by-field copy of an entry.
fn clone_entry(e: &ProjectEntry) -> (r: ProjectEntry)
    ensures
        r == *e,
{
    ProjectEntry { path: e.path.clone(), name_lower: e.name_lower.clone() }
}

/// Sorts the index by display name with a stable insertion sort: each entry,
/// in input order, lands after every entry whose name compares less than or
/// equal to its own.
fn sort_entries(v: &Vec<ProjectEntry>) -> (r: Vec<ProjectEntry>)
    ensures
        entry_views(r@) == sort_by_name(entry_views(v@)),
{
    let mut out: Vec<ProjectEntry> = Vec::new();
    let n = v.len();
    let mut i: usize = 0;
    proof {
        assert(v@.take(0) =~= Seq::<ProjectEntry>::empty());
        assert(entry_views(out@) =~= sort_by_name(entry_views(v@.take(0))));
    }
    while i < n
        invariant
            i <= n,
            n == v@.len(),
            out@.len() == i,
            entry_views(out@) == sort_by_name(entry_views(v@.take(i as int))),
        decreases n - i,
    {
        let e = clone_entry(&v[i]);
        let ghost ev = entry_view(e);
        let ghost old_out = out@;
        let ghost old_views = entry_views(out@);
        let mut j: usize = 0;
        loop
            invariant
                j <= out@.len(),
                out@ == old_out,
                out@.len() == i,
                e == v@[i as int],
                ev == entry_view(e),
                forall|jj: int| 0 <= jj < j ==> lex_le(
                    #[trigger] entry_views(out@)[jj].name,
                    ev.name,
                ),
            ensures
                j <= out@.len(),
                out@ == old_out,
                forall|jj: int| 0 <= jj < j ==> lex_le(
                    #[trigger] entry_views(out@)[jj].name,
                    ev.name,
                ),
                j < out@.len() ==> !lex_le(entry_views(out@)[j as int].name, ev.name),
            decreases out@.len() - j,
        {
            if j >= out.len() {
                break ;
            }
            proof {
                assert(entry_views(out@)[j as int] == entry_view(out@[j as int]));
            }
            if !str_lex_le(out[j].name_lower.as_str(), e.name_lower.as_str()) {
                break ;
            }
            j = j + 1;
        }
        proof {
            let k = lemma_insert_sorted_shape(ev, old_views);
            if j < k {
                assert(lex_le(old_views[j as int].name, ev.name));
                assert(false);
            }
            if k < j {
                assert(lex_le(old_views[k].name, ev.name));
                assert(false);
            }
        }
        out.insert(j, e);
        i = i + 1;
        proof {
            assert(entry_views(out@) =~= old_views.take(j as int) + seq![ev] + old_views.skip(
                j as int,
            ));
            assert(entry_views(out@) == insert_sorted(ev, old_views));
            assert(v@.take(i as int).drop_last() =~= v@.take(i - 1));
            assert(entry_views(v@.take(i as int)).drop_last() =~= entry_views(v@.take(i - 1)));
            assert(entry_views(v@.take(i as int)).last() == ev);
        }
    }
    proof {
        assert(v@.take(n as int) =~= v@);
    }
    out
}

/// The names under which the entries are displayed and filtered.
pub open spec fn names_of(s: Seq<EntryView>) -> Seq<Seq<char>> {
    s.map_values(|e: EntryView| e.name)
}

/// The views of a sequence of strings.
pub open spec fn str_views(s: Seq<String>) -> Seq<Seq<char>> {
    s.map_values(|x: String| x@)
}

/// The project index with its selection state: the sorted candidate
/// directories, the currently filtered display names, the cursor into them,
/// and the fixed height of the viewport.
#[derive(Debug)]
pub struct Projects {
    /// Cursor into `filtered_items`.
    pub selected_idx: usize,
    /// Every indexed project directory, sorted by display name.
    pub dir_items: Vec<ProjectEntry>,
    /// The display names the current filter keeps.
    pub filtered_items: Vec<String>,
    /// Whether the interactive selector drives this index (and so renders a
    /// cursor marker).
    pub cli_no_arg: bool,
    /// The viewport's height in rows.
    pub buffer_rows: usize,
    /// Compound projects, filterable beside the scanned directories.
    pub compound_projects: Vec<CompoundProject>,
}

impl Projects {
    /// The index's invariant: the cursor stays inside the filtered list
    /// whenever that list is non-empty, the viewport has at least one row,
    /// and every display name is short enough to score.
    pub open spec fn wf(self) -> bool {
        &&& self.filtered_items@.len() > 0 ==> self.selected_idx < self.filtered_items@.len()
        &&& self.filtered_items@.len() == 0 ==> self.selected_idx == 0
        &&& self.buffer_rows >= 1
        &&& all_names_ok(entry_views(self.dir_items@))
        &&& forall|i: int| 0 <= i < self.filtered_items@.len() ==> (
        #[trigger] self.filtered_items@[i])@.len() <= MAX_SCORED_LEN
    }

    /// Builds the index from the walked roots and the include paths: keeps
    /// exactly the depth-two entries outside each root's ignore directory,
    /// appends the include paths verbatim (warning about, but keeping, any
    /// whose path is already indexed), and sorts by lowercase leaf name,
    /// ties in input order. Fails only when a display name is too long to
    /// score.
    pub fn new(
        scans: Vec<RootScan>,
        include_paths: Vec<String>,
        compound_projects: Vec<CompoundProject>,
        cli_no_arg: bool,
    ) -> (r: Result<(Projects, Vec<String>), Error>)
        ensures
            (match r {
                Ok(pw) => {
                    &&& all_names_ok(combined_views(scans@, include_paths@))
                    &&& entry_views(pw.0.dir_items@) == sort_by_name(
                        combined_views(scans@, include_paths@),
                    )
                    &&& str_views(pw.0.filtered_items@) == names_of(
                        sort_by_name(combined_views(scans@, include_paths@)),
                    )
                    &&& pw.0.selected_idx == 0
                    &&& pw.0.buffer_rows == 10
                    &&& pw.0.cli_no_arg == cli_no_arg
                    &&& pw.0.compound_projects == compound_projects
                    &&& str_views(pw.1@) == dup_warnings(scans_views(scans@), include_paths@)
                    &&& pw.0.wf()
                },
                Err(e) => !all_names_ok(combined_views(scans@, include_paths@)) && e is Any,
            }),
    {
        let mut dir_items: Vec<ProjectEntry> = Vec::new();
        let ghost svs = scans_views(scans@);

        let ns = scans.len();
        let mut si: usize = 0;
        proof {
            assert(scans@.take(0) =~= Seq::<RootScan>::empty());
            assert(entry_views(dir_items@) =~= scans_views(scans@.take(0)));
        }
        while si < ns
            invariant
                si <= ns,
                ns == scans@.len(),
                entry_views(dir_items@) == scans_views(scans@.take(si as int)),
            decreases ns - si,
        {
            let scan = &scans[si];
            let ignore_prefix = scan.root.clone().concat("/").concat(scan.ignore_dir.as_str());
            let ghost ig = ignore_prefix_of(scan.root@, scan.ignore_dir@);
            proof {
                assert(ignore_prefix@ == ig);
            }
            let ne = scan.entries.len();
            let mut k: usize = 0;
            let ghost base = entry_views(dir_items@);
            proof {
                assert(scan.entries@.take(0) =~= Seq::<ScanEntry>::empty());
                assert(entry_views(dir_items@) =~= base + kept_views(ig, scan.entries@.take(0)));
            }
            while k < ne
                invariant
                    k <= ne,
                    ne == scan.entries@.len(),
                    scan == scans@[si as int],
                    si < scans@.len(),
                    ignore_prefix@ == ig,
                    entry_views(dir_items@) == base + kept_views(ig, scan.entries@.take(k as int)),
                decreases ne - k,
            {
                let e = &scan.entries[k];
                let keep = e.depth == 2 && !path_starts_with_exec(e.path.as_str(), &ignore_prefix);
                if keep {
                    let leaf = leaf_str(e.path.as_str());
                    let name = str_to_lower(leaf);
                    let ghost before = entry_views(dir_items@);
                    dir_items.push(ProjectEntry { path: e.path.clone(), name_lower: name });
                    proof {
                        assert(entry_views(dir_items@) =~= before.push(
                            entry_view_of_path(e.path@),
                        ));
                    }
                }
                k = k + 1;
                proof {
                    assert(scan.entries@.take(k as int).drop_last() =~= scan.entries@.take(k - 1));
                    assert(scan.entries@.take(k as int).last() == scan.entries@[k - 1]);
                }
            }
            si = si + 1;
            proof {
                assert(scan.entries@.take(ne as int) =~= scan.entries@);
                assert(scans@.take(si as int).drop_last() =~= scans@.take(si - 1));
                assert(scans@.take(si as int).last() == scans@[si - 1]);
            }
        }
        proof {
            assert(scans@.take(ns as int) =~= scans@);
        }

        // The include paths, each checked for an already-indexed duplicate
        // first, then pushed regardless.
        let mut warnings: Vec<String> = Vec::new();
        let ni = include_paths.len();
        let mut ii: usize = 0;
        proof {
            assert(include_paths@.take(0) =~= Seq::<String>::empty());
            assert(include_views(include_paths@.take(0)) =~= Seq::<EntryView>::empty());
            assert(entry_views(dir_items@) =~= svs + include_views(include_paths@.take(0)));
            assert(str_views(warnings@) =~= dup_warnings(svs, include_paths@.take(0)));
        }
        while ii < ni
            invariant
                ii <= ni,
                ni == include_paths@.len(),
                entry_views(dir_items@) == svs + include_views(include_paths@.take(ii as int)),
                str_views(warnings@) == dup_warnings(svs, include_paths@.take(ii as int)),
            decreases ni - ii,
        {
            let p = &include_paths[ii];
            let mut dup = false;
            let m = dir_items.len();
            let mut di: usize = 0;
            while di < m
                invariant
                    di <= m,
                    m == dir_items@.len(),
                    p == include_paths@[ii as int],
                    ii < include_paths@.len(),
                    dup ==> contains_path(entry_views(dir_items@), p@),
                    !dup ==> (forall|j: int|
                        0 <= j < di ==> entry_views(dir_items@)[j].path != p@),
                decreases m - di,
            {
                if str_eq(dir_items[di].path.as_str(), p.as_str()) {
                    dup = true;
                    proof {
                        assert(entry_views(dir_items@)[di as int].path == p@);
                    }
                }
                di = di + 1;
            }
            let ghost views_before = entry_views(dir_items@);
            let ghost warns_before = str_views(warnings@);
            if dup {
                warnings.push(p.clone());
                proof {
                    assert(str_views(warnings@) =~= warns_before.push(p@));
                }
            } else {
                proof {
                    assert(!contains_path(views_before, p@));
                }
            }
            let leaf = leaf_str(p.as_str());
            let name = str_to_lower(leaf);
            dir_items.push(ProjectEntry { path: p.clone(), name_lower: name });
            ii = ii + 1;
            proof {
                assert(entry_views(dir_items@) =~= views_before.push(entry_view_of_path(p@)));
                assert(include_paths@.take(ii as int).drop_last() =~= include_paths@.take(ii - 1));
                assert(include_paths@.take(ii as int).last() == include_paths@[ii - 1]);
                assert(include_views(include_paths@.take(ii as int)).drop_last() =~= include_views(
                    include_paths@.take(ii - 1),
                ));
                assert(include_views(include_paths@.take(ii as int)).last() == entry_view_of_path(
                    include_paths@[ii - 1]@,
                ));
                assert(entry_views(dir_items@) =~= svs + include_views(
                    include_paths@.take(ii as int),
                ));
            }
        }
        proof {
            assert(include_paths@.take(ni as int) =~= include_paths@);
            assert(entry_views(dir_items@) == combined_views(scans@, include_paths@));
        }

        // Every display name must be short enough to score.
        let nd = dir_items.len();
        let mut ci: usize = 0;
        while ci < nd
            invariant
                ci <= nd,
                nd == dir_items@.len(),
                entry_views(dir_items@) == combined_views(scans@, include_paths@),
                forall|j: int| 0 <= j < ci ==> name_ok(#[trigger] entry_views(dir_items@)[j]),
            decreases nd - ci,
        {
            if dir_items[ci].name_lower.as_str().unicode_len() as u64 > MAX_SCORED_LEN {
                proof {
                    assert(!name_ok(entry_views(dir_items@)[ci as int]));
                }
                return Err(Error::Any(String::from_str("project name too long to rank")));
            }
            ci = ci + 1;
        }

        let sorted = sort_entries(&dir_items);

        let mut filtered_items: Vec<String> = Vec::new();
        let nf = sorted.len();
        let mut fi: usize = 0;
        proof {
            assert(str_views(filtered_items@) =~= names_of(entry_views(sorted@).take(0)));
        }
        while fi < nf
            invariant
                fi <= nf,
                nf == sorted@.len(),
                str_views(filtered_items@) == names_of(entry_views(sorted@).take(fi as int)),
                filtered_items@.len() == fi,
            decreases nf - fi,
        {
            let ghost before = str_views(filtered_items@);
            filtered_items.push(sorted[fi].name_lower.clone());
            fi = fi + 1;
            proof {
                assert(str_views(filtered_items@) =~= before.push(sorted@[fi - 1].name_lower@));
                assert(entry_views(sorted@)[fi - 1] == entry_view(sorted@[fi - 1]));
                assert(names_of(entry_views(sorted@).take(fi as int)) =~= before.push(
                    sorted@[fi - 1].name_lower@,
                ));
            }
        }
        proof {
            assert(entry_views(sorted@).take(nf as int) =~= entry_views(sorted@));
            assert(str_views(filtered_items@) == names_of(entry_views(sorted@)));
        }

        let projects = Projects {
            selected_idx: 0,
            dir_items: sorted,
            filtered_items,
            cli_no_arg,
            buffer_rows: 10,
            compound_projects,
        };
        proof {
            lemma_sort_permutes_names_ok(combined_views(scans@, include_paths@));
            assert forall|i: int| 0 <= i < projects.filtered_items@.len() implies (
            #[trigger] projects.filtered_items@[i])@.len() <= MAX_SCORED_LEN by {
                assert(str_views(projects.filtered_items@)[i] == projects.filtered_items@[i]@);
                assert(names_of(entry_views(projects.dir_items@))[i] == entry_views(
                    projects.dir_items@,
                )[i].name);
                assert(name_ok(entry_views(projects.dir_items@)[i]));
            }
        }
        Ok((projects, warnings))
    }
}

/// The sort keeps every name short enough whenever the input's names all
/// are.
proof fn lemma_insert_names_ok(e: EntryView, s: Seq<EntryView>)
    requires
        name_ok(e),
        all_names_ok(s),
    ensures
        all_names_ok(insert_sorted(e, s)),
{
    let k = lemma_insert_sorted_shape(e, s);
    let r = insert_sorted(e, s);
    assert forall|i: int| 0 <= i < r.len() implies name_ok(#[trigger] r[i]) by {
        if i < k {
            assert(r[i] == s[i]);
        } else if i == k {
            assert(r[i] == e);
        } else {
            assert(r[i] == s[i - 1]);
        }
    }
}

proof fn lemma_sort_permutes_names_ok(s: Seq<EntryView>)
    requires
        all_names_ok(s),
    ensures
        all_names_ok(sort_by_name(s)),
    decreases s.len(),
{
    if s.len() > 0 {
        assert(all_names_ok(s.drop_last())) by {
            assert forall|i: int| 0 <= i < s.drop_last().len() implies name_ok(
                #[trigger] s.drop_last()[i],
            ) by {
                assert(s.drop_last()[i] == s[i]);
            }
        }
        lemma_sort_permutes_names_ok(s.drop_last());
        lemma_insert_names_ok(s.last(), sort_by_name(s.drop_last()));
    }
}

/// The entries of `s` whose display name is `key`, in order.
pub open spec fn entries_named(s: Seq<EntryView>, key: Seq<char>) -> Seq<EntryView>
    decreases s.len(),
{
    if s.len() == 0 {
        s
    } else {
        let rest = entries_named(s.drop_last(), key);
        if s.last().name == key {
            rest.push(s.last())
        } else {
            rest
        }
    }
}

proof fn lemma_entries_named_add(a: Seq<EntryView>, b: Seq<EntryView>, key: Seq<char>)
    ensures
        entries_named(a + b, key) == entries_named(a, key) + entries_named(b, key),
    decreases b.len(),
{
    if b.len() == 0 {
        assert(a + b =~= a);
        assert(entries_named(a, key) + entries_named(b, key) =~= entries_named(a, key));
    } else {
        lemma_entries_named_add(a, b.drop_last(), key);
        assert((a + b).drop_last() =~= a + b.drop_last());
        assert((a + b).last() == b.last());
        if b.last().name == key {
            assert(entries_named(a, key) + entries_named(b, key) =~= (entries_named(a, key)
                + entries_named(b.drop_last(), key)).push(b.last()));
        }
    }
}

proof fn lemma_insert_sorted_named(e: EntryView, s: Seq<EntryView>, key: Seq<char>)
    requires
        sorted_by_name(s),
    ensures
        entries_named(insert_sorted(e, s), key) == (if e.name == key {
            entries_named(s, key).push(e)
        } else {
            entries_named(s, key)
        }),
{
    let k = lemma_insert_sorted_shape(e, s);
    let single = seq![e];
    assert(single.drop_last() =~= Seq::<EntryView>::empty());
    assert(entries_named(Seq::<EntryView>::empty(), key) =~= Seq::<EntryView>::empty());
    assert(entries_named(single, key) == (if e.name == key {
        Seq::<EntryView>::empty().push(e)
    } else {
        Seq::<EntryView>::empty()
    }));
    lemma_entries_named_add(s.take(k), single, key);
    lemma_entries_named_add(s.take(k) + single, s.skip(k), key);
    lemma_entries_named_add(s.take(k), s.skip(k), key);
    assert(s.take(k) + s.skip(k) =~= s);
    let en_take = entries_named(s.take(k), key);
    let en_skip = entries_named(s.skip(k), key);
    assert(entries_named(insert_sorted(e, s), key) == en_take + entries_named(single, key)
        + en_skip);
    assert(entries_named(s, key) == en_take + en_skip);
    if e.name == key {
        // Every entry named `key` sits before the insertion point: the
        // entry there compares strictly greater, and order is kept after it.
        assert(entries_named(s.skip(k), key) =~= Seq::<EntryView>::empty()) by {
            if entries_named(s.skip(k), key).len() > 0 {
                lemma_entries_named_member(s.skip(k), key);
                let j = choose|j: int|
                    0 <= j < s.skip(k).len() && (#[trigger] s.skip(k)[j]).name == key;
                assert(s[k + j].name == key);
                if k + j > k {
                    assert(lex_le(s[k].name, s[k + j].name));
                }
                lemma_lex_le_refl(e.name);
                assert(false);
            }
        }
        assert(entries_named(insert_sorted(e, s), key) =~= entries_named(s, key).push(e));
    } else {
        assert(entries_named(insert_sorted(e, s), key) =~= entries_named(s, key));
    }
}

/// A non-empty selection has a witness index.
proof fn lemma_entries_named_member(s: Seq<EntryView>, key: Seq<char>)
    requires
        entries_named(s, key).len() > 0,
    ensures
        exists|j: int| 0 <= j < s.len() && (#[trigger] s[j]).name == key,
    decreases s.len(),
{
    if s.last().name == key {
        assert(s[s.len() - 1].name == key);
    } else {
        lemma_entries_named_member(s.drop_last(), key);
        let j = choose|j: int| 0 <= j < s.drop_last().len() && (#[trigger] s.drop_last()[j]).name
            == key;
        assert(s[j].name == key);
    }
}

/// The sort is stable: for any display name, the entries under that name
/// come out exactly as they went in, in the same order.
pub proof fn lemma_sort_by_name_stable(s: Seq<EntryView>, key: Seq<char>)
    ensures
        entries_named(sort_by_name(s), key) == entries_named(s, key),
    decreases s.len(),
{
    if s.len() > 0 {
        lemma_sort_by_name_stable(s.drop_last(), key);
        lemma_sort_by_name_sorted(s.drop_last());
        lemma_insert_sorted_named(s.last(), sort_by_name(s.drop_last()), key);
    }
}

proof fn lemma_insert_sorted_multiset(e: EntryView, s: Seq<EntryView>)
    ensures
        insert_sorted(e, s).to_multiset() == s.to_multiset().insert(e),
{
    broadcast use vstd::seq_lib::group_to_multiset_ensures;

    let k = lemma_insert_sorted_shape(e, s);
    let single = seq![e];
    vstd::seq_lib::lemma_multiset_commutative(s.take(k) + single, s.skip(k));
    vstd::seq_lib::lemma_multiset_commutative(s.take(k), single);
    vstd::seq_lib::lemma_multiset_commutative(s.take(k), s.skip(k));
    assert(s.take(k) + s.skip(k) =~= s);
    assert(single =~= Seq::<EntryView>::empty().push(e));
    assert(insert_sorted(e, s).to_multiset() =~= s.to_multiset().insert(e));
}

/// The sort is a permutation: it neither drops, adds nor duplicates an
/// entry.
pub proof fn lemma_sort_by_name_permutes(s: Seq<EntryView>)
    ensures
        sort_by_name(s).to_multiset() == s.to_multiset(),
    decreases s.len(),
{
    broadcast use vstd::seq_lib::group_to_multiset_ensures;

    if s.len() > 0 {
        lemma_sort_by_name_permutes(s.drop_last());
        lemma_insert_sorted_multiset(s.last(), sort_by_name(s.drop_last()));
        assert(s.drop_last().push(s.last()) =~= s);
    }
}

/// `lex_le` is reflexive.
proof fn lemma_lex_le_refl(a: Seq<char>)
    ensures
        lex_le(a, a),
    decreases a.len(),
{
    if a.len() > 0 {
        lemma_lex_le_refl(a.skip(1));
    }
}

/// The bounded viewport: everything when the list fits, else exactly
/// `window` rows anchored at the selection, pinned to the end of the list
/// when the selection is close to it.
pub open spec fn spec_window(total: int, selected: int, window: int) -> (int, int) {
    if window > total {
        (0, total)
    } else {
        (
            if total - selected < window {
                total - window
            } else {
                selected
            },
            if selected + window < total {
                selected + window
            } else {
                total
            },
        )
    }
}

/// Computes the visible half-open row range `(from, upto)` for a list of
/// `total` rows, a cursor at `selected` and a viewport of `window` rows. The
/// whole list is shown when it fits; otherwise the window has exactly
/// `window` rows, the cursor is its first row except near the end of the
/// list, where the window pins to the end.
pub fn compute_window(total: usize, selected: usize, window: usize) -> (r: (usize, usize))
    requires
        total > 0 ==> selected < total,
        selected <= total,
        selected + window <= usize::MAX,
    ensures
        (r.0 as int, r.1 as int) == spec_window(total as int, selected as int, window as int),
        r.0 <= r.1 <= total,
        window <= total ==> r.1 - r.0 == window,
        0 < window <= total ==> r.0 <= selected < r.1,
{
    if window > total {
        (0, total)
    } else {
        let from: usize = if total - selected < window {
            total - window
        } else {
            selected
        };
        let upto: usize = if selected + window < total {
            selected + window
        } else {
            total
        };
        (from, upto)
    }
}

/// One rendered row: the cursor marker (in interactive mode), the display
/// name, and a line feed unless the row's offset reaches the end of the
/// whole filtered list.
pub open spec fn row_view(
    items: Seq<Seq<char>>,
    selected: int,
    from: int,
    no_arg: bool,
    full_len: int,
    i: int,
) -> Seq<char> {
    (if no_arg {
        if i == selected {
            ">> "@
        } else {
            "   "@
        }
    } else {
        Seq::empty()
    }) + items[i] + (if i - from < full_len - 1 {
        "\n"@
    } else {
        Seq::empty()
    })
}

/// The rendering of rows `from..upto`.
pub open spec fn render_rows(
    items: Seq<Seq<char>>,
    selected: int,
    from: int,
    upto: int,
    no_arg: bool,
    full_len: int,
) -> Seq<char>
    decreases upto - from,
{
    if upto <= from {
        Seq::empty()
    } else {
        render_rows(items, selected, from, upto - 1, no_arg, full_len) + row_view(
            items,
            selected,
            from,
            no_arg,
            full_len,
            upto - 1,
        )
    }
}

/// A ranked match the filter kept: its display name and its score.
pub ghost struct MatchView {
    pub name: Seq<char>,
    pub score: int,
}

/// The mathematical content of one returned match tuple.
pub open spec fn match_view(t: (String, (bool, i64))) -> MatchView {
    MatchView { name: t.0@, score: t.1.1 as int }
}

/// The views of the returned match list.
pub open spec fn match_views(s: Seq<(String, (bool, i64))>) -> Seq<MatchView> {
    s.map_values(|t: (String, (bool, i64))| match_view(t))
}

/// The display names that match the pattern, in list order, each with its
/// score.
pub open spec fn matches_of(pat: Seq<char>, names: Seq<Seq<char>>) -> Seq<MatchView>
    decreases names.len(),
{
    if names.len() == 0 {
        Seq::empty()
    } else {
        let init = matches_of(pat, names.drop_last());
        if fuzzy_is_match(pat, names.last()) {
            init.push(MatchView { name: names.last(), score: fuzzy_score(pat, names.last()) })
        } else {
            init
        }
    }
}

/// The compound projects whose lowercased name matches the pattern; one
/// whose lowercased name is too long to score is left out.
pub open spec fn compound_matches(pat: Seq<char>, comps: Seq<CompoundProject>) -> Seq<MatchView>
    decreases comps.len(),
{
    if comps.len() == 0 {
        Seq::empty()
    } else {
        let init = compound_matches(pat, comps.drop_last());
        let nm = lower_of(comps.last().name@);
        if nm.len() <= MAX_SCORED_LEN && fuzzy_is_match(pat, nm) {
            init.push(MatchView { name: nm, score: fuzzy_score(pat, nm) })
        } else {
            init
        }
    }
}

/// Inserts `e` after every match whose score is at least `e`'s: an equal
/// score keeps the earlier match first.
pub open spec fn insert_desc(e: MatchView, s: Seq<MatchView>) -> Seq<MatchView>
    decreases s.len(),
{
    if s.len() == 0 {
        seq![e]
    } else if s[0].score >= e.score {
        seq![s[0]] + insert_desc(e, s.skip(1))
    } else {
        seq![e] + s
    }
}

/// The stable sort of the matches by score, highest first: each match, in
/// input order, inserted after its equals.
pub open spec fn sort_desc(s: Seq<MatchView>) -> Seq<MatchView>
    decreases s.len(),
{
    if s.len() == 0 {
        s
    } else {
        insert_desc(s.last(), sort_desc(s.drop_last()))
    }
}

/// Non-increasing by score.
pub open spec fn sorted_desc(s: Seq<MatchView>) -> bool {
    forall|i: int, j: int| 0 <= i < j < s.len() ==> #[trigger] s[i].score >= #[trigger] s[j].score
}

proof fn lemma_insert_desc_shape(e: MatchView, s: Seq<MatchView>) -> (k: int)
    ensures
        0 <= k <= s.len(),
        insert_desc(e, s) == s.take(k) + seq![e] + s.skip(k),
        forall|j: int| 0 <= j < k ==> (#[trigger] s[j].score) >= e.score,
        k < s.len() ==> !(s[k].score >= e.score),
    decreases s.len(),
{
    if s.len() == 0 {
        assert(insert_desc(e, s) =~= s.take(0) + seq![e] + s.skip(0));
        0
    } else if s[0].score >= e.score {
        let k1 = lemma_insert_desc_shape(e, s.skip(1));
        let k = k1 + 1;
        assert(s.skip(1).take(k1) =~= s.take(k).skip(1));
        assert(seq![s[0]] + (s.skip(1).take(k1) + seq![e] + s.skip(1).skip(k1)) =~= s.take(k)
            + seq![e] + s.skip(k));
        assert forall|j: int| 0 <= j < k implies (#[trigger] s[j].score) >= e.score by {
            if j > 0 {
                assert(s.skip(1)[j - 1].score >= e.score);
            }
        }
        if k < s.len() {
            assert(s.skip(1)[k1] == s[k]);
        }
        k
    } else {
        assert(insert_desc(e, s) =~= s.take(0) + seq![e] + s.skip(0));
        0
    }
}

proof fn lemma_insert_desc_sorted(e: MatchView, s: Seq<MatchView>)
    requires
        sorted_desc(s),
    ensures
        sorted_desc(insert_desc(e, s)),
{
    let k = lemma_insert_desc_shape(e, s);
    let r = insert_desc(e, s);
    assert forall|i: int, j: int| 0 <= i < j < r.len() implies (#[trigger] r[i].score) >= (
    #[trigger] r[j].score) by {
        let vi = if i < k {
            s[i]
        } else if i == k {
            e
        } else {
            s[i - 1]
        };
        let vj = if j < k {
            s[j]
        } else if j == k {
            e
        } else {
            s[j - 1]
        };
        assert(r[i] == vi);
        assert(r[j] == vj);
    }
}

/// Ranking any set of matches by score, highest first, yields a
/// non-increasing score sequence.
pub proof fn lemma_sort_desc_sorted(s: Seq<MatchView>)
    ensures
        sorted_desc(sort_desc(s)),
    decreases s.len(),
{
    if s.len() > 0 {
        lemma_sort_desc_sorted(s.drop_last());
        lemma_insert_desc_sorted(s.last(), sort_desc(s.drop_last()));
    }
}

/// The matches of `s` whose score is `key`, in order.
pub open spec fn matches_scored(s: Seq<MatchView>, key: int) -> Seq<MatchView>
    decreases s.len(),
{
    if s.len() == 0 {
        s
    } else {
        let rest = matches_scored(s.drop_last(), key);
        if s.last().score == key {
            rest.push(s.last())
        } else {
            rest
        }
    }
}

proof fn lemma_matches_scored_add(a: Seq<MatchView>, b: Seq<MatchView>, key: int)
    ensures
        matches_scored(a + b, key) == matches_scored(a, key) + matches_scored(b, key),
    decreases b.len(),
{
    if b.len() == 0 {
        assert(a + b =~= a);
        assert(matches_scored(a, key) + matches_scored(b, key) =~= matches_scored(a, key));
    } else {
        lemma_matches_scored_add(a, b.drop_last(), key);
        assert((a + b).drop_last() =~= a + b.drop_last());
        assert((a + b).last() == b.last());
        if b.last().score == key {
            assert(matches_scored(a, key) + matches_scored(b, key) =~= (matches_scored(a, key)
                + matches_scored(b.drop_last(), key)).push(b.last()));
        }
    }
}

proof fn lemma_matches_scored_member(s: Seq<MatchView>, key: int)
    requires
        matches_scored(s, key).len() > 0,
    ensures
        exists|j: int| 0 <= j < s.len() && (#[trigger] s[j]).score == key,
    decreases s.len(),
{
    if s.last().score == key {
        assert(s[s.len() - 1].score == key);
    } else {
        lemma_matches_scored_member(s.drop_last(), key);
        let j = choose|j: int|
            0 <= j < s.drop_last().len() && (#[trigger] s.drop_last()[j]).score == key;
        assert(s[j].score == key);
    }
}

proof fn lemma_insert_desc_scored(e: MatchView, s: Seq<MatchView>, key: int)
    requires
        sorted_desc(s),
    ensures
        matches_scored(insert_desc(e, s), key) == (if e.score == key {
            matches_scored(s, key).push(e)
        } else {
            matches_scored(s, key)
        }),
{
    let k = lemma_insert_desc_shape(e, s);
    let single = seq![e];
    assert(single.drop_last() =~= Seq::<MatchView>::empty());
    assert(matches_scored(Seq::<MatchView>::empty(), key) =~= Seq::<MatchView>::empty());
    assert(matches_scored(single, key) == (if e.score == key {
        Seq::<MatchView>::empty().push(e)
    } else {
        Seq::<MatchView>::empty()
    }));
    lemma_matches_scored_add(s.take(k), single, key);
    lemma_matches_scored_add(s.take(k) + single, s.skip(k), key);
    lemma_matches_scored_add(s.take(k), s.skip(k), key);
    assert(s.take(k) + s.skip(k) =~= s);
    let sc_take = matches_scored(s.take(k), key);
    let sc_skip = matches_scored(s.skip(k), key);
    assert(matches_scored(insert_desc(e, s), key) == sc_take + matches_scored(single, key)
        + sc_skip);
    assert(matches_scored(s, key) == sc_take + sc_skip);
    if e.score == key {
        // Every match with this score sits before the insertion point: the
        // match there scores strictly less, and scores fall from it on.
        assert(matches_scored(s.skip(k), key) =~= Seq::<MatchView>::empty()) by {
            if matches_scored(s.skip(k), key).len() > 0 {
                lemma_matches_scored_member(s.skip(k), key);
                let j = choose|j: int|
                    0 <= j < s.skip(k).len() && (#[trigger] s.skip(k)[j]).score == key;
                assert(s[k + j].score == key);
                if k + j > k {
                    assert(s[k].score >= s[k + j].score);
                }
                assert(false);
            }
        }
        assert(matches_scored(insert_desc(e, s), key) =~= matches_scored(s, key).push(e));
    } else {
        assert(matches_scored(insert_desc(e, s), key) =~= matches_scored(s, key));
    }
}

/// The ranking is stable: for any score, the matches with that score come
/// out exactly as they went in, in the same order.
pub proof fn lemma_sort_desc_stable(s: Seq<MatchView>, key: int)
    ensures
        matches_scored(sort_desc(s), key) == matches_scored(s, key),
    decreases s.len(),
{
    if s.len() > 0 {
        lemma_sort_desc_stable(s.drop_last(), key);
        lemma_sort_desc_sorted(s.drop_last());
        lemma_insert_desc_scored(s.last(), sort_desc(s.drop_last()), key);
    }
}

proof fn lemma_insert_desc_multiset(e: MatchView, s: Seq<MatchView>)
    ensures
        insert_desc(e, s).to_multiset() == s.to_multiset().insert(e),
{
    broadcast use vstd::seq_lib::group_to_multiset_ensures;

    let k = lemma_insert_desc_shape(e, s);
    let single = seq![e];
    vstd::seq_lib::lemma_multiset_commutative(s.take(k) + single, s.skip(k));
    vstd::seq_lib::lemma_multiset_commutative(s.take(k), single);
    vstd::seq_lib::lemma_multiset_commutative(s.take(k), s.skip(k));
    assert(s.take(k) + s.skip(k) =~= s);
    assert(single =~= Seq::<MatchView>::empty().push(e));
    assert(insert_desc(e, s).to_multiset() =~= s.to_multiset().insert(e));
}

/// The ranking is a permutation: it neither drops, adds nor duplicates a
/// match.
pub proof fn lemma_sort_desc_permutes(s: Seq<MatchView>)
    ensures
        sort_desc(s).to_multiset() == s.to_multiset(),
    decreases s.len(),
{
    broadcast use vstd::seq_lib::group_to_multiset_ensures;

    if s.len() > 0 {
        lemma_sort_desc_permutes(s.drop_last());
        lemma_insert_desc_multiset(s.last(), sort_desc(s.drop_last()));
        assert(s.drop_last().push(s.last()) =~= s);
    }
}

/// A match tuple the filter may return: flagged as a match, with a name
/// short enough to score.
pub open spec fn match_item_ok(t: (String, (bool, i64))) -> bool {
    t.1.0 && t.0@.len() <= MAX_SCORED_LEN
}

impl Projects {
    /// Resets the cursor to the top of the filtered list.
    pub fn select_initial(&mut self)
        ensures
            final(self).selected_idx == 0,
            final(self).dir_items == old(self).dir_items,
            final(self).filtered_items == old(self).filtered_items,
            final(self).cli_no_arg == old(self).cli_no_arg,
            final(self).buffer_rows == old(self).buffer_rows,
            final(self).compound_projects == old(self).compound_projects,
    {
        self.selected_idx = 0;
    }

    /// Moves the cursor down one row, staying put on the last row.
    pub fn select_next(&mut self)
        requires
            old(self).filtered_items@.len() > 0,
        ensures
            final(self).selected_idx == (if old(self).selected_idx + 1
                < old(self).filtered_items@.len() {
                old(self).selected_idx + 1
            } else {
                old(self).selected_idx as int
            }),
            final(self).dir_items == old(self).dir_items,
            final(self).filtered_items == old(self).filtered_items,
            final(self).cli_no_arg == old(self).cli_no_arg,
            final(self).buffer_rows == old(self).buffer_rows,
            final(self).compound_projects == old(self).compound_projects,
    {
        if self.selected_idx < self.filtered_items.len() - 1 {
            self.selected_idx = self.selected_idx + 1;
        }
    }

    /// Moves the cursor up one row, staying put on the first row.
    pub fn select_previous(&mut self)
        ensures
            final(self).selected_idx == (if old(self).selected_idx > 0 {
                old(self).selected_idx - 1
            } else {
                0int
            }),
            final(self).dir_items == old(self).dir_items,
            final(self).filtered_items == old(self).filtered_items,
            final(self).cli_no_arg == old(self).cli_no_arg,
            final(self).buffer_rows == old(self).buffer_rows,
            final(self).compound_projects == old(self).compound_projects,
    {
        if self.selected_idx > 0 {
            self.selected_idx = self.selected_idx - 1;
        }
    }

    /// Fails with `NoProjectsFound` when the filtered list is empty, and
    /// hands the index back unchanged otherwise.
    pub fn catch_empty_project_list(self) -> (r: Result<Projects, Error>)
        ensures
            (match r {
                Ok(p) => p == self && self.filtered_items@.len() > 0,
                Err(e) => self.filtered_items@.len() == 0 && e is NoProjectsFound,
            }),
    {
        if self.filtered_items.is_empty() {
            Err(Error::NoProjectsFound)
        } else {
            Ok(self)
        }
    }

    /// The first indexed entry whose path ends with the given name, compared
    /// whole components at a time.
    pub fn matching_project(&self, project_name: &str) -> (r: Option<&ProjectEntry>)
        ensures
            (match r {
                Some(e) => exists|i: int|
                    0 <= i < self.dir_items@.len() && *e == self.dir_items@[i] && path_ends_with(
                        self.dir_items@[i].path@,
                        project_name@,
                    ) && (forall|j: int|
                        0 <= j < i ==> !path_ends_with(
                            (#[trigger] self.dir_items@[j]).path@,
                            project_name@,
                        )),
                None => forall|i: int|
                    0 <= i < self.dir_items@.len() ==> !path_ends_with(
                        (#[trigger] self.dir_items@[i]).path@,
                        project_name@,
                    ),
            }),
    {
        let n = self.dir_items.len();
        let mut i: usize = 0;
        while i < n
            invariant
                i <= n,
                n == self.dir_items@.len(),
                forall|j: int|
                    0 <= j < i ==> !path_ends_with(
                        (#[trigger] self.dir_items@[j]).path@,
                        project_name@,
                    ),
            decreases n - i,
        {
            if str_path_ends_with(self.dir_items[i].path.as_str(), project_name) {
                return Some(&self.dir_items[i]);
            }
            i = i + 1;
        }
        None
    }

    /// Renders rows `from..upto` of the filtered list, one per line: in
    /// interactive mode each row carries a cursor marker column, and a line
    /// feed follows every row whose offset has not reached the end of the
    /// whole filtered list.
    pub fn display_fmt(&self, from: usize, upto: usize) -> (r: String)
        requires
            from <= upto <= self.filtered_items@.len(),
            self.cli_no_arg ==> from <= self.selected_idx,
        ensures
            r@ == render_rows(
                str_views(self.filtered_items@),
                self.selected_idx as int,
                from as int,
                upto as int,
                self.cli_no_arg,
                self.filtered_items@.len() as int,
            ),
    {
        let ghost items = str_views(self.filtered_items@);
        let ghost full_len = self.filtered_items@.len() as int;
        let mut output = String::new();
        let mut i: usize = from;
        while i < upto
            invariant
                from <= i <= upto <= self.filtered_items@.len(),
                items == str_views(self.filtered_items@),
                full_len == self.filtered_items@.len() as int,
                self.cli_no_arg ==> from <= self.selected_idx,
                output@ == render_rows(
                    items,
                    self.selected_idx as int,
                    from as int,
                    i as int,
                    self.cli_no_arg,
                    full_len,
                ),
            decreases upto - i,
        {
            let ghost out0 = output@;
            if self.cli_no_arg {
                if i - from == self.selected_idx - from {
                    output.append(">> ");
                } else {
                    output.append("   ");
                }
            }
            output.append(self.filtered_items[i].as_str());
            if i - from < self.filtered_items.len() - 1 {
                output.append("\n");
            }
            i = i + 1;
            proof {
                assert(items[i - 1] == self.filtered_items@[i - 1]@);
                assert(output@ =~= out0 + row_view(
                    items,
                    self.selected_idx as int,
                    from as int,
                    self.cli_no_arg,
                    full_len,
                    i - 1,
                ));
            }
        }
        output
    }

    /// Renders the currently visible window of the filtered list, computed
    /// from the cursor and the viewport height.
    pub fn select_ui_fmt(&self) -> (r: String)
        requires
            self.wf(),
            self.selected_idx + self.buffer_rows <= usize::MAX,
        ensures
            ({
                let w = spec_window(
                    self.filtered_items@.len() as int,
                    self.selected_idx as int,
                    self.buffer_rows as int,
                );
                r@ == render_rows(
                    str_views(self.filtered_items@),
                    self.selected_idx as int,
                    w.0,
                    w.1,
                    self.cli_no_arg,
                    self.filtered_items@.len() as int,
                )
            }),
    {
        let (from, upto) = compute_window(
            self.filtered_items.len(),
            self.selected_idx,
            self.buffer_rows,
        );
        self.display_fmt(from, upto)
    }

    /// Scores every indexed display name and every compound project name
    /// against the filter string, keeps the matches in list order, and ranks
    /// them by score, highest first, ties in input order. The score sequence
    /// of the result is non-increasing.
    pub fn filter_project_list(&self, filter_string: &str) -> (r: Vec<(String, (bool, i64))>)
        requires
            self.wf(),
        ensures
            match_views(r@) == sort_desc(
                matches_of(filter_string@, names_of(entry_views(self.dir_items@)))
                    + compound_matches(filter_string@, self.compound_projects@),
            ),
            forall|i: int| 0 <= i < r@.len() ==> match_item_ok(#[trigger] r@[i]),
            forall|i: int, j: int| 0 <= i < j < r@.len() ==> (#[trigger] r@[i]).1.1 >= (
            #[trigger] r@[j]).1.1,
    {
        let ghost pat = filter_string@;
        let mut list: Vec<(String, (bool, i64))> = Vec::new();

        let n = self.dir_items.len();
        let mut i: usize = 0;
        proof {
            assert(entry_views(self.dir_items@).take(0) =~= Seq::<EntryView>::empty());
            assert(names_of(entry_views(self.dir_items@).take(0)) =~= Seq::<Seq<char>>::empty());
            assert(match_views(list@) =~= matches_of(
                pat,
                names_of(entry_views(self.dir_items@).take(0)),
            ));
        }
        while i < n
            invariant
                i <= n,
                n == self.dir_items@.len(),
                self.wf(),
                pat == filter_string@,
                match_views(list@) == matches_of(
                    pat,
                    names_of(entry_views(self.dir_items@).take(i as int)),
                ),
                forall|k: int| 0 <= k < list@.len() ==> match_item_ok(#[trigger] list@[k]),
            decreases n - i,
        {
            let f_name = self.dir_items[i].name_lower.clone();
            proof {
                assert(entry_views(self.dir_items@)[i as int] == entry_view(
                    self.dir_items@[i as int],
                ));
                assert(name_ok(entry_views(self.dir_items@)[i as int]));
            }
            let fuz = crate::fuzzy::scored_fuzzy_search(filter_string, f_name.as_str());
            let ghost before = match_views(list@);
            if fuz.0 {
                list.push((f_name, fuz));
                proof {
                    assert(match_views(list@) =~= before.push(
                        MatchView { name: self.dir_items@[i as int].name_lower@, score: fuz.1 as int },
                    ));
                }
            }
            i = i + 1;
            proof {
                let nms = names_of(entry_views(self.dir_items@).take(i as int));
                assert(nms.drop_last() =~= names_of(entry_views(self.dir_items@).take(i - 1)));
                assert(nms.last() == entry_views(self.dir_items@)[i - 1].name);
            }
        }
        proof {
            assert(entry_views(self.dir_items@).take(n as int) =~= entry_views(self.dir_items@));
        }

        let ghost dir_ms = matches_of(pat, names_of(entry_views(self.dir_items@)));
        let nc = self.compound_projects.len();
        let mut ci: usize = 0;
        proof {
            assert(self.compound_projects@.take(0) =~= Seq::<CompoundProject>::empty());
            assert(match_views(list@) =~= dir_ms + compound_matches(
                pat,
                self.compound_projects@.take(0),
            ));
        }
        while ci < nc
            invariant
                ci <= nc,
                nc == self.compound_projects@.len(),
                pat == filter_string@,
                match_views(list@) == dir_ms + compound_matches(
                    pat,
                    self.compound_projects@.take(ci as int),
                ),
                forall|k: int| 0 <= k < list@.len() ==> match_item_ok(#[trigger] list@[k]),
            decreases nc - ci,
        {
            let cp_name = str_to_lower(self.compound_projects[ci].name.as_str());
            let ghost before = match_views(list@);
            if cp_name.as_str().unicode_len() as u64 <= MAX_SCORED_LEN {
                let fuz = crate::fuzzy::scored_fuzzy_search(filter_string, cp_name.as_str());
                if fuz.0 {
                    let ghost nm = cp_name@;
                    list.push((cp_name, fuz));
                    proof {
                        assert(match_views(list@) =~= before.push(
                            MatchView { name: nm, score: fuz.1 as int },
                        ));
                    }
                }
            }
            ci = ci + 1;
            proof {
                assert(self.compound_projects@.take(ci as int).drop_last()
                    =~= self.compound_projects@.take(ci - 1));
                assert(self.compound_projects@.take(ci as int).last()
                    == self.compound_projects@[ci - 1]);
            }
        }
        proof {
            assert(self.compound_projects@.take(nc as int) =~= self.compound_projects@);
        }

        let ghost unsorted = dir_ms + compound_matches(pat, self.compound_projects@);

        // Stable insertion sort by score, highest first.
        let mut out: Vec<(String, (bool, i64))> = Vec::new();
        let m = list.len();
        let mut si: usize = 0;
        proof {
            assert(list@.take(0) =~= Seq::<(String, (bool, i64))>::empty());
            assert(match_views(list@.take(0)) =~= Seq::<MatchView>::empty());
            assert(match_views(out@) =~= sort_desc(match_views(list@.take(0))));
        }
        while si < m
            invariant
                si <= m,
                m == list@.len(),
                out@.len() == si,
                match_views(out@) == sort_desc(match_views(list@.take(si as int))),
                forall|k: int| 0 <= k < list@.len() ==> match_item_ok(#[trigger] list@[k]),
                forall|k: int| 0 <= k < out@.len() ==> match_item_ok(#[trigger] out@[k]),
            decreases m - si,
        {
            let e = (list[si].0.clone(), (list[si].1.0, list[si].1.1));
            let ghost ev = match_view(e);
            proof {
                assert(match_view(list@[si as int]) == ev);
                assert(match_item_ok(list@[si as int]));
            }
            let ghost old_out = out@;
            let ghost old_views = match_views(out@);
            let mut j: usize = 0;
            loop
                invariant
                    j <= out@.len(),
                    out@ == old_out,
                    out@.len() == si,
                    ev == match_view(e),
                    forall|jj: int|
                        0 <= jj < j ==> (#[trigger] match_views(out@)[jj].score) >= ev.score,
                ensures
                    j <= out@.len(),
                    out@ == old_out,
                    forall|jj: int|
                        0 <= jj < j ==> (#[trigger] match_views(out@)[jj].score) >= ev.score,
                    j < out@.len() ==> !(match_views(out@)[j as int].score >= ev.score),
                decreases out@.len() - j,
            {
                if j >= out.len() {
                    break ;
                }
                proof {
                    assert(match_views(out@)[j as int] == match_view(out@[j as int]));
                }
                if !(out[j].1.1 >= e.1.1) {
                    break ;
                }
                j = j + 1;
            }
            proof {
                let k = lemma_insert_desc_shape(ev, old_views);
                if j < k {
                    assert(old_views[j as int].score >= ev.score);
                    assert(false);
                }
                if k < j {
                    assert(old_views[k].score >= ev.score);
                    assert(false);
                }
            }
            out.insert(j, e);
            si = si + 1;
            proof {
                assert(match_views(out@) =~= old_views.take(j as int) + seq![ev] + old_views.skip(
                    j as int,
                ));
                assert(match_views(out@) == insert_desc(ev, old_views));
                assert(list@.take(si as int).drop_last() =~= list@.take(si - 1));
                assert(match_views(list@.take(si as int)).drop_last() =~= match_views(
                    list@.take(si - 1),
                ));
                assert(match_views(list@.take(si as int)).last() == ev);
                assert forall|k: int| 0 <= k < out@.len() implies match_item_ok(
                    #[trigger] out@[k],
                ) by {
                    if k < j {
                        assert(out@[k] == old_out[k]);
                    } else if k == j {
                        assert(out@[k] == e);
                    } else {
                        assert(out@[k] == old_out[k - 1]);
                    }
                }
            }
        }
        proof {
            assert(list@.take(m as int) =~= list@);
            assert(match_views(out@) == sort_desc(unsorted));
            lemma_sort_desc_sorted(unsorted);
            assert forall|i2: int, j2: int| 0 <= i2 < j2 < out@.len() implies (
            #[trigger] out@[i2]).1.1 >= (#[trigger] out@[j2]).1.1 by {
                assert(match_views(out@)[i2] == match_view(out@[i2]));
                assert(match_views(out@)[j2] == match_view(out@[j2]));
                assert(match_views(out@)[i2].score >= match_views(out@)[j2].score);
            }
            assert forall|i2: int| 0 <= i2 < out@.len() implies (#[trigger] out@[i2]).1.0 by {
                assert(match_item_ok(out@[i2]));
            }
        }
        out
    }
}

/// The display names of a ranked match list.
pub open spec fn match_names(ms: Seq<MatchView>) -> Seq<Seq<char>> {
    ms.map_values(|m: MatchView| m.name)
}

/// The display names the filter string keeps, ranked by score.
pub open spec fn filtered_names(
    dir_items: Seq<ProjectEntry>,
    comps: Seq<CompoundProject>,
    pat: Seq<char>,
) -> Seq<Seq<char>> {
    match_names(
        sort_desc(matches_of(pat, names_of(entry_views(dir_items))) + compound_matches(pat, comps)),
    )
}

impl Projects {
    /// Applies a changed filter string: resets the cursor to the top and
    /// replaces the filtered list with the ranked display names the filter
    /// keeps.
    pub fn apply_filter(&mut self, filter_string: &str)
        requires
            old(self).wf(),
        ensures
            final(self).wf(),
            final(self).selected_idx == 0,
            final(self).dir_items == old(self).dir_items,
            final(self).cli_no_arg == old(self).cli_no_arg,
            final(self).buffer_rows == old(self).buffer_rows,
            final(self).compound_projects == old(self).compound_projects,
            str_views(final(self).filtered_items@) == filtered_names(
                old(self).dir_items@,
                old(self).compound_projects@,
                filter_string@,
            ),
    {
        self.select_initial();
        let list = self.filter_project_list(filter_string);
        let ghost ms = match_views(list@);
        let mut filtered: Vec<String> = Vec::new();
        let n = list.len();
        let mut i: usize = 0;
        proof {
            assert(str_views(filtered@) =~= match_names(ms).take(0));
        }
        while i < n
            invariant
                i <= n,
                n == list@.len(),
                ms == match_views(list@),
                str_views(filtered@) == match_names(ms).take(i as int),
                forall|k: int| 0 <= k < list@.len() ==> match_item_ok(#[trigger] list@[k]),
                filtered@.len() == i,
            decreases n - i,
        {
            let ghost before = str_views(filtered@);
            filtered.push(list[i].0.clone());
            i = i + 1;
            proof {
                assert(match_views(list@)[i - 1] == match_view(list@[i - 1]));
                assert(str_views(filtered@) =~= before.push(list@[i - 1].0@));
                assert(match_names(ms).take(i as int) =~= before.push(match_names(ms)[i - 1]));
            }
        }
        proof {
            assert(match_names(ms).take(n as int) =~= match_names(ms));
        }
        self.filtered_items = filtered;
        proof {
            assert forall|k: int| 0 <= k < self.filtered_items@.len() implies (
            #[trigger] self.filtered_items@[k])@.len() <= MAX_SCORED_LEN by {
                assert(str_views(self.filtered_items@)[k] == self.filtered_items@[k]@);
                assert(match_names(ms)[k] == ms[k].name);
                assert(ms[k] == match_view(list@[k]));
                assert(match_item_ok(list@[k]));
            }
        }
    }
}

/// Whether path `p` ends with the component sequence `q`.
pub fn str_path_ends_with(p: &str, q: &str) -> (r: bool)
    ensures
        r == path_ends_with(p@, q@),
{
    let n = p.unicode_len();
    let m = q.unicode_len();
    if n == m {
        let r = str_eq(p, q);
        proof {
            if !r {
                assert(!path_ends_with(p@, q@));
            }
        }
        r
    } else if n > m {
        let start = n - m - 1;
        if p.get_char(start) != '/' {
            proof {
                assert(p@.skip(start as int)[0] != (seq!['/'] + q@)[0]);
            }
            return false;
        }
        let mut i: usize = 0;
        while i < m
            invariant
                i <= m,
                m == q@.len(),
                n == p@.len(),
                n > m,
                start == n - m - 1,
                p@[start as int] == '/',
                forall|j: int| 0 <= j < i ==> p@[start + 1 + j] == q@[j],
            decreases m - i,
        {
            if p.get_char(start + 1 + i) != q.get_char(i) {
                proof {
                    assert(p@.skip(start as int)[1 + i] != (seq!['/'] + q@)[1 + i]);
                }
                return false;
            }
            i = i + 1;
        }
        proof {
            assert(p@.skip(start as int) =~= seq!['/'] + q@);
        }
        true
    } else {
        proof {
            assert(!path_ends_with(p@, q@));
        }
        false
    }
}

} // verus!
