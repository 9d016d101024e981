use vstd::prelude::*;
use crate::colmap::{merge_columns_maps, ColumnMap};
use crate::dbt::{dbt_file_edges, DbtScanner};
use crate::error::LineageError;
use crate::lineage::{extract_column_lineage, sql_file_lineage};
use crate::node::{lineages_view, strings_view, ColumnLineage, EdgeView, LineageEdge, LineageView};
use crate::python::{python_file_edges, PythonScanner};
use crate::sql::{edges_view, extract_columns_from_sql, sql_file_columns, sql_file_edges, SqlScanner};
use crate::text::{ascii_case_eq, copy_str, eq_ignore_ascii_case, has_substring};

verus! {

/// Extracts lineage edges from source files of some kinds.
pub trait Scanner: Send + Sync {
    /// The edges the scanner finds in a file.
    spec fn spec_scan(&self, path: Seq<char>, content: Seq<char>) -> Seq<EdgeView>;

    /// The file extensions the scanner reads.
    spec fn spec_extensions(&self) -> Seq<Seq<char>>;

    /// The file extensions the scanner reads (for example `sql`).
    fn extensions(&self) -> (r: &'static [&'static str])
        ensures
            r@.map_values(|e: &str| e@) == self.spec_extensions();

    /// Scans one file: the lineage edges it declares.
    fn scan_file(&self, path: &str, content: &str) -> (r: Result<Vec<LineageEdge>, LineageError>)
        ensures
            r matches Ok(v) ==> edges_view(v@) == self.spec_scan(path@, content@);
}

/// One of the extensions `exts` is `ext`, ignoring ASCII case.
pub open spec fn exts_match(exts: Seq<Seq<char>>, ext: Seq<char>) -> bool {
    exists|i: int| 0 <= i < exts.len() && ascii_case_eq(#[trigger] exts[i], ext)
}

/// What a directory scan found.
pub struct ScanResult {
    /// The edges of all scanned files, in the order found.
    pub edges: Vec<LineageEdge>,
    /// The number of files some scanner read.
    pub files_scanned: u64,
    /// The directory scanned.
    pub root: String,
    /// Table name to column names, from the select lists of SQL files.
    pub column_map: ColumnMap,
    /// Column-level lineage of the SQL files.
    pub col_lineage: Vec<ColumnLineage>,
}

/// Dispatches source files to the scanners that read their extension.
pub struct ScanOrchestrator {
    scanners: Vec<Box<dyn Scanner>>,
}

/// The positions of the scanners among the first `n` of `scanners` that read
/// extension `ext`, in order.
pub open spec fn matching_upto(scanners: Seq<Box<dyn Scanner>>, ext: Seq<char>, n: nat) -> Seq<int>
    decreases n,
{
    if n == 0 {
        Seq::empty()
    } else {
        matching_upto(scanners, ext, (n - 1) as nat) + if exts_match(scanners[n - 1].spec_extensions(), ext) {
            seq![n - 1]
        } else {
            Seq::empty()
        }
    }
}

/// The positions of the scanners that read extension `ext`, in order.
pub open spec fn matching(scanners: Seq<Box<dyn Scanner>>, ext: Seq<char>) -> Seq<int> {
    matching_upto(scanners, ext, scanners.len())
}

/// The edges the scanners at positions `picked` find in a file, one scanner after
/// the other.
pub open spec fn picked_edges(scanners: Seq<Box<dyn Scanner>>, picked: Seq<int>, path: Seq<char>, content: Seq<char>) -> Seq<EdgeView>
    decreases picked.len(),
{
    if picked.len() == 0 {
        Seq::empty()
    } else {
        picked_edges(scanners, picked.drop_last(), path, content) + scanners[picked.last()].spec_scan(path, content)
    }
}

/// The positions `matching_upto` gives are those below `n` of the scanners that
/// read `ext`, increasing.
proof fn lemma_matching_upto(scanners: Seq<Box<dyn Scanner>>, ext: Seq<char>, n: nat)
    requires
        n <= scanners.len(),
    ensures
        forall|k: int| 0 <= k < matching_upto(scanners, ext, n).len() ==> {
            let i = #[trigger] matching_upto(scanners, ext, n)[k];
            0 <= i < n && exts_match(scanners[i].spec_extensions(), ext)
        },
        forall|i: int| 0 <= i < n && exts_match(scanners[i].spec_extensions(), ext) ==> matching_upto(scanners, ext, n).contains(i),
    decreases n,
{
    if n > 0 {
        lemma_matching_upto(scanners, ext, (n - 1) as nat);
        let prev = matching_upto(scanners, ext, (n - 1) as nat);
        let cur = matching_upto(scanners, ext, n);
        assert forall|i: int| 0 <= i < n && exts_match(scanners[i].spec_extensions(), ext) implies cur.contains(i) by {
            if i < n - 1 {
                assert(prev.contains(i));
                let k = choose|k: int| 0 <= k < prev.len() && prev[k] == i;
                assert(cur[k] == i);
            } else {
                assert(cur[prev.len() as int] == i);
            }
        }
    }
}

impl ScanOrchestrator {
    /// The scanners, in order.
    pub closed spec fn scanner_seq(&self) -> Seq<Box<dyn Scanner>> {
        self.scanners@
    }

    /// An orchestrator with the given scanners.
    pub fn new(scanners: Vec<Box<dyn Scanner>>) -> (r: Self)
        ensures
            r.scanner_seq() == scanners@,
    {
        ScanOrchestrator { scanners }
    }

    /// The built-in scanners: dbt, SQL, Python, in this order.
    pub fn default_scanners() -> (r: Self)
        ensures
            r.scanner_seq().len() == 3,
            r.scanner_seq()[0].spec_extensions() == seq!["sql"@],
            r.scanner_seq()[1].spec_extensions() == seq!["sql"@],
            r.scanner_seq()[2].spec_extensions() == seq!["py"@],
            forall|p: Seq<char>, c: Seq<char>| #[trigger] r.scanner_seq()[0].spec_scan(p, c) == dbt_file_edges(p, c),
            forall|p: Seq<char>, c: Seq<char>| #[trigger] r.scanner_seq()[1].spec_scan(p, c) == sql_file_edges(p, c),
            forall|p: Seq<char>, c: Seq<char>| #[trigger] r.scanner_seq()[2].spec_scan(p, c) == python_file_edges(p, c),
    {
        let scanners: Vec<Box<dyn Scanner>> = vec![Box::new(DbtScanner), Box::new(SqlScanner), Box::new(PythonScanner)];
        ScanOrchestrator { scanners }
    }

    /// Some scanner reads files with extension `ext`.
    pub open spec fn handles(&self, ext: Seq<char>) -> bool {
        exists|i: int| 0 <= i < self.scanner_seq().len() && exts_match(self.scanner_seq()[i].spec_extensions(), ext)
    }

    fn reads(s: &Box<dyn Scanner>, ext: &str) -> (r: bool)
        ensures
            r == exts_match(s.spec_extensions(), ext@),
    {
        let exts = s.extensions();
        let ghost ev = exts@.map_values(|e: &str| e@);
        let mut i: usize = 0;
        while i < exts.len()
            invariant
                ev == exts@.map_values(|e: &str| e@),
                ev == s.spec_extensions(),
                i <= exts@.len(),
                forall|j: int| 0 <= j < i ==> !ascii_case_eq(ev[j], ext@),
            decreases exts@.len() - i,
        {
            if eq_ignore_ascii_case(exts[i], ext) {
                proof {
                    assert(ev[i as int] == exts@[i as int]@);
                    assert(ascii_case_eq(s.spec_extensions()[i as int], ext@));
                    assert(exts_match(s.spec_extensions(), ext@));
                }
                return true;
            }
            proof {
                assert(ev[i as int] == exts@[i as int]@);
            }
            i = i + 1;
        }
        false
    }

    /// The positions of the scanners that read files with extension `ext`
    /// (ignoring ASCII case), in order.
    pub fn find_scanners(&self, ext: &str) -> (r: Vec<usize>)
        ensures
            r@.map_values(|i: usize| i as int) == matching(self.scanner_seq(), ext@),
    {
        let mut r: Vec<usize> = Vec::new();
        let mut i: usize = 0;
        while i < self.scanners.len()
            invariant
                i <= self.scanner_seq().len(),
                r@.map_values(|k: usize| k as int) == matching_upto(self.scanner_seq(), ext@, i as nat),
            decreases self.scanner_seq().len() - i,
        {
            let ghost before = r@;
            let b = Self::reads(&self.scanners[i], ext);
            proof {
                assert(b == exts_match(self.scanner_seq()[i as int].spec_extensions(), ext@));
            }
            if b {
                r.push(i);
            }
            proof {
                assert(r@.map_values(|k: usize| k as int) =~= matching_upto(self.scanner_seq(), ext@, (i + 1) as nat));
            }
            i = i + 1;
        }
        r
    }

    /// Whether some scanner reads files with extension `ext` (ignoring ASCII case).
    pub fn handles_extension(&self, ext: &str) -> (r: bool)
        ensures
            r == self.handles(ext@),
            r == (matching(self.scanner_seq(), ext@).len() > 0),
    {
        let found = self.find_scanners(ext);
        proof {
            lemma_matching_upto(self.scanner_seq(), ext@, self.scanner_seq().len());
            let m = matching(self.scanner_seq(), ext@);
            assert(m.len() == found@.len());
            if m.len() > 0 {
                assert(exts_match(self.scanner_seq()[m[0]].spec_extensions(), ext@));
            }
            if self.handles(ext@) {
                let i = choose|i: int| 0 <= i < self.scanner_seq().len() && exts_match(self.scanner_seq()[i].spec_extensions(), ext@);
                assert(m.contains(i));
            }
        }
        found.len() > 0
    }

    /// Scans one file with every scanner that reads its extension, adding what they
    /// find to `result`: their edges, scanner by scanner; and, for a `.sql` file, its
    /// tables' columns (appended to those already known) and its column-level
    /// lineage. A file no scanner reads leaves `result` as it is and is not counted.
    /// A scanner's error is passed on.
    pub fn scan_source(&self, result: &mut ScanResult, path: &str, ext: &str, content: &str) -> (r: Result<(), LineageError>)
        requires
            old(result).column_map.wf(),
            old(result).files_scanned < u64::MAX,
        ensures
            final(result).column_map.wf(),
            final(result).root == old(result).root,
            !self.handles(ext@) ==> {
                &&& r is Ok
                &&& final(result).files_scanned == old(result).files_scanned
                &&& edges_view(final(result).edges@) == edges_view(old(result).edges@)
                &&& final(result).column_map@ == old(result).column_map@
                &&& lineages_view(final(result).col_lineage@) == lineages_view(old(result).col_lineage@)
            },
            self.handles(ext@) && r is Ok ==> {
                &&& final(result).files_scanned == old(result).files_scanned + 1
                &&& edges_view(final(result).edges@) == edges_view(old(result).edges@)
                    + picked_edges(self.scanner_seq(), matching(self.scanner_seq(), ext@), path@, content@)
                &&& ascii_case_eq(ext@, "sql"@) ==> final(result).column_map@ == merge_columns_maps(old(result).column_map@, sql_file_columns(content@))
                &&& ascii_case_eq(ext@, "sql"@) ==> lineages_view(final(result).col_lineage@) == lineages_view(old(result).col_lineage@) + sql_file_lineage(content@)
                &&& !ascii_case_eq(ext@, "sql"@) ==> final(result).column_map@ == old(result).column_map@
                &&& !ascii_case_eq(ext@, "sql"@) ==> lineages_view(final(result).col_lineage@) == lineages_view(old(result).col_lineage@)
            },
    {
        let picked = self.find_scanners(ext);
        let ghost m = matching(self.scanner_seq(), ext@);
        proof {
            lemma_matching_upto(self.scanner_seq(), ext@, self.scanner_seq().len());
            if picked.len() > 0 {
                assert(exts_match(self.scanner_seq()[m[0]].spec_extensions(), ext@));
            }
            if self.handles(ext@) {
                let i = choose|i: int| 0 <= i < self.scanner_seq().len() && exts_match(self.scanner_seq()[i].spec_extensions(), ext@);
                assert(m.contains(i));
            }
        }
        if picked.len() == 0 {
            return Ok(());
        }

        result.files_scanned = result.files_scanned + 1;
        let ghost base = edges_view(result.edges@);
        let mut j: usize = 0;
        proof {
            assert(m.subrange(0, 0) =~= Seq::<int>::empty());
            assert(edges_view(result.edges@) =~= base + picked_edges(self.scanner_seq(), m.subrange(0, 0), path@, content@));
        }
        while j < picked.len()
            invariant
                j <= picked@.len(),
                self.handles(ext@),
                picked@.map_values(|k: usize| k as int) == m,
                forall|k: int| 0 <= k < m.len() ==> 0 <= #[trigger] m[k] < self.scanner_seq().len(),
                result.column_map.wf(),
                result.column_map@ == old(result).column_map@,
                result.col_lineage@ == old(result).col_lineage@,
                result.root == old(result).root,
                result.files_scanned == old(result).files_scanned + 1,
                edges_view(result.edges@) == base + picked_edges(self.scanner_seq(), m.subrange(0, j as int), path@, content@),
            decreases picked@.len() - j,
        {
            proof {
                assert(m.subrange(0, j + 1).drop_last() =~= m.subrange(0, j as int));
                assert(m[j as int] == picked@[j as int] as int);
            }
            let found = match self.scanners[picked[j]].scan_file(path, content) {
                Ok(v) => v,
                Err(e) => {
                    return Err(e);
                },
            };
            let mut found = found;
            let ghost f0 = found@;
            let ghost before = result.edges@;
            result.edges.append(&mut found);
            proof {
                assert(edges_view(result.edges@) =~= edges_view(before) + edges_view(f0));
                assert(edges_view(result.edges@) =~= base + picked_edges(self.scanner_seq(), m.subrange(0, j + 1), path@, content@));
            }
            j = j + 1;
        }
        proof {
            assert(m.subrange(0, j as int) =~= m);
        }
        if eq_ignore_ascii_case(ext, "sql") {
            let cols = extract_columns_from_sql(content);
            result.column_map.merge_from(&cols);
            let mut lineage = extract_column_lineage(content);
            let ghost l0 = lineage@;
            let ghost before = result.col_lineage@;
            result.col_lineage.append(&mut lineage);
            proof {
                assert(lineages_view(result.col_lineage@) =~= lineages_view(before) + lineages_view(l0));
            }
        }
        Ok(())
    }
}

impl ScanResult {
    /// A scan of `root` that has found nothing yet.
    pub fn empty(root: &str) -> (r: Self)
        ensures
            r.edges@.len() == 0,
            r.files_scanned == 0,
            r.root@ == root@,
            r.column_map.wf(),
            r.column_map@ == Map::<Seq<char>, Seq<Seq<char>>>::empty(),
            r.col_lineage@.len() == 0,
    {
        ScanResult {
            edges: Vec::new(),
            files_scanned: 0,
            root: copy_str(root),
            column_map: ColumnMap::new(),
            col_lineage: Vec::new(),
        }
    }
}

/// Templated SQL is left to the dbt scanner: a file holding `{{` gives the SQL
/// scanner no edges, no columns and no column lineage.
pub proof fn law_templated_sql_skipped(path: Seq<char>, content: Seq<char>)
    requires
        has_substring(content, "{{"@),
    ensures
        sql_file_edges(path, content) == Seq::<EdgeView>::empty(),
        sql_file_columns(content) == Map::<Seq<char>, Seq<Seq<char>>>::empty(),
        sql_file_lineage(content) == Seq::<LineageView>::empty(),
{
}

} // verus!
