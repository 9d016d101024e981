use vstd::prelude::*;
use vstd::utf8::encode_utf8;
use crate::error::LineageError;
use crate::node::{EdgeRelation, EdgeView, LineageEdge, NodeId};
use crate::pattern::{byte_offset_to_line, captures_view, group, line_of, path_without_extension, regex_captures, regex_captures_all, without_extension, CaptureView};
use crate::sql::edges_view;
use crate::chars::lemma_concat_contains;
use crate::text::{contains_str, copy_str, has_substring, lowercase, to_lowercase};

verus! {

/// `read_sql("table")`, `read_sql_table(...)`, `read_sql_query(...)`.
pub const READ_SQL_PATTERN: &'static str = r#"read_sql(?:_table|_query)?\s*\(\s*["']([^"']+)["']"#;

/// `spark.table("table")`.
pub const SPARK_TABLE_PATTERN: &'static str = r#"spark\.table\s*\(\s*["']([^"']+)["']"#;

/// `.sql("SELECT ... FROM table")`.
pub const SPARK_SQL_PATTERN: &'static str = r#"\.sql\s*\(\s*["'](?i:SELECT\s.*?FROM\s+)([a-zA-Z_][\w.]*)"#;

/// `.to_sql("table")`.
pub const TO_SQL_PATTERN: &'static str = r#"\.to_sql\s*\(\s*["']([^"']+)["']"#;

/// `.saveAsTable("table")`.
pub const SAVE_AS_TABLE_PATTERN: &'static str = r#"\.saveAsTable\s*\(\s*["']([^"']+)["']"#;

/// `.insertInto("table")`.
pub const INSERT_INTO_PATTERN: &'static str = r#"\.insertInto\s*\(\s*["']([^"']+)["']"#;

/// `.write ... .save("path")`.
pub const WRITE_SAVE_PATTERN: &'static str = r#"\.write\b.*?\.save\s*\(\s*["']([^"']+)["']"#;

/// The node a Python file stands for: its path without extension, lower-cased.
pub open spec fn python_node(path: Seq<char>) -> Seq<char> {
    lowercase(path_without_extension(path))
}

/// A captured name is taken for a table: no space, no slash, no backslash, and
/// fewer than 128 bytes.
pub open spec fn table_like(s: Seq<char>) -> bool {
    &&& !has_substring(s, " "@)
    &&& !has_substring(s, "/"@)
    &&& !has_substring(s, "\\"@)
    &&& encode_utf8(s).len() < 128
}

/// The edges of the matches of one pattern: for each match whose group 1 looks like
/// a table, an edge from the table to the file's node (a read) or from the node to
/// the table (a write).
pub open spec fn etl_edges(cs: Seq<CaptureView>, path: Seq<char>, content: Seq<char>, read: bool) -> Seq<EdgeView>
    decreases cs.len(),
{
    if cs.len() == 0 {
        Seq::empty()
    } else {
        let rest = etl_edges(cs.drop_last(), path, content, read);
        let c = cs.last();
        match group(c, 1) {
            Some(t) => if table_like(t) {
                rest.push(EdgeView {
                    source: if read { lowercase(t) } else { python_node(path) },
                    target: if read { python_node(path) } else { lowercase(t) },
                    relation: EdgeRelation::PythonReadWrite,
                    source_file: path,
                    line_number: line_of(content, c.0),
                })
            } else {
                rest
            },
            None => rest,
        }
    }
}

/// The edges of one pattern over a file.
pub open spec fn pattern_edges(pattern: Seq<char>, path: Seq<char>, content: Seq<char>, read: bool) -> Seq<EdgeView> {
    match regex_captures(pattern, content) {
        Some(cs) => etl_edges(cs, path, content, read),
        None => Seq::empty(),
    }
}

/// The edges of a Python ETL script: the reads of each read pattern, then the writes
/// of each write pattern, in the order of the patterns and of the matches.
pub open spec fn python_file_edges(path: Seq<char>, content: Seq<char>) -> Seq<EdgeView> {
    pattern_edges(READ_SQL_PATTERN@, path, content, true)
        + pattern_edges(SPARK_TABLE_PATTERN@, path, content, true)
        + pattern_edges(SPARK_SQL_PATTERN@, path, content, true)
        + pattern_edges(TO_SQL_PATTERN@, path, content, false)
        + pattern_edges(SAVE_AS_TABLE_PATTERN@, path, content, false)
        + pattern_edges(INSERT_INTO_PATTERN@, path, content, false)
        + pattern_edges(WRITE_SAVE_PATTERN@, path, content, false)
}

/// The node a Python file stands for, as `python_node` states.
pub fn python_node_name(path: &str) -> (r: String)
    ensures
        r@ == python_node(path@),
{
    to_lowercase(without_extension(path).as_str())
}

/// Whether a captured name is taken for a table, as `table_like` states.
pub fn looks_like_table_name(s: &str) -> (r: bool)
    ensures
        r == table_like(s@),
{
    let short = s.as_bytes().len() < 128;
    let space = contains_str(s, " ");
    let slash = contains_str(s, "/");
    let backslash = contains_str(s, "\\");
    !space && !slash && !backslash && short
}

fn push_pattern_edges(edges: &mut Vec<LineageEdge>, pattern: &str, path: &str, content: &str, node: &str, read: bool)
    requires
        node@ == python_node(path@),
    ensures
        edges_view(final(edges)@) == edges_view(old(edges)@) + pattern_edges(pattern@, path@, content@, read),
{
    let ghost base = edges_view(edges@);
    match regex_captures_all(pattern, content) {
        Some(caps) => {
            let ghost cv = captures_view(caps@);
            let mut i: usize = 0;
            proof {
                assert(cv.subrange(0, 0) =~= Seq::<CaptureView>::empty());
                assert(edges_view(edges@) =~= base + etl_edges(cv.subrange(0, 0), path@, content@, read));
            }
            while i < caps.len()
                invariant
                    cv == captures_view(caps@),
                    i <= caps@.len(),
                    node@ == python_node(path@),
                    forall|k: int| 0 <= k < caps@.len() ==> caps@[k].0 <= encode_utf8(content@).len(),
                    edges_view(edges@) == base + etl_edges(cv.subrange(0, i as int), path@, content@, read),
                decreases caps@.len() - i,
            {
                proof {
                    assert(cv.subrange(0, i + 1).drop_last() =~= cv.subrange(0, i as int));
                    assert(cv.subrange(0, i + 1).last() == cv[i as int]);
                }
                let (start, groups) = &caps[i];
                if groups.len() > 1 {
                    match &groups[1] {
                        Some(t) => {
                            if looks_like_table_name(t.as_str()) {
                                let table = NodeId::from(t.as_str());
                                let job = NodeId(copy_str(node));
                                let (source, target) = if read { (table, job) } else { (job, table) };
                                let edge = LineageEdge {
                                    source,
                                    target,
                                    relation: EdgeRelation::PythonReadWrite,
                                    source_file: copy_str(path),
                                    line_number: byte_offset_to_line(content, *start),
                                };
                                let ghost before = edges@;
                                edges.push(edge);
                                proof {
                                    assert(edges_view(edges@) =~= edges_view(before).push(edge@));
                                }
                            }
                        },
                        None => {},
                    }
                }
                i = i + 1;
            }
            proof {
                assert(cv.subrange(0, i as int) =~= cv);
            }
        },
        None => {
            proof {
                assert(edges_view(edges@) =~= base + Seq::<EdgeView>::empty());
            }
        },
    }
}

/// Extracts lineage from Python ETL scripts by their reads (`read_sql`,
/// `spark.table`, `.sql("SELECT ... FROM t")`) and writes (`to_sql`, `saveAsTable`,
/// `insertInto`, `.write ... .save`).
pub struct PythonScanner;

impl crate::scanner::Scanner for PythonScanner {
    open spec fn spec_scan(&self, path: Seq<char>, content: Seq<char>) -> Seq<EdgeView> {
        python_file_edges(path, content)
    }

    open spec fn spec_extensions(&self) -> Seq<Seq<char>> {
        seq!["py"@]
    }

    fn extensions(&self) -> (r: &'static [&'static str]) {
        &["py"]
    }

    /// The edges of a Python script, as `python_file_edges` states. It never fails.
    fn scan_file(&self, path: &str, content: &str) -> (r: Result<Vec<LineageEdge>, crate::error::LineageError>)
        ensures
            r is Ok,
    {
        let node = python_node_name(path);
        let mut edges: Vec<LineageEdge> = Vec::new();
        proof {
            assert(edges_view(edges@) =~= Seq::<EdgeView>::empty());
        }
        push_pattern_edges(&mut edges, READ_SQL_PATTERN, path, content, node.as_str(), true);
        push_pattern_edges(&mut edges, SPARK_TABLE_PATTERN, path, content, node.as_str(), true);
        push_pattern_edges(&mut edges, SPARK_SQL_PATTERN, path, content, node.as_str(), true);
        push_pattern_edges(&mut edges, TO_SQL_PATTERN, path, content, node.as_str(), false);
        push_pattern_edges(&mut edges, SAVE_AS_TABLE_PATTERN, path, content, node.as_str(), false);
        push_pattern_edges(&mut edges, INSERT_INTO_PATTERN, path, content, node.as_str(), false);
        push_pattern_edges(&mut edges, WRITE_SAVE_PATTERN, path, content, node.as_str(), false);
        proof {
            assert(edges_view(edges@) =~= python_file_edges(path@, content@));
        }
        Ok(edges)
    }
}


proof fn lemma_etl_edges_contain(cs: Seq<CaptureView>, path: Seq<char>, content: Seq<char>, read: bool, k: int, t: Seq<char>)
    requires
        0 <= k < cs.len(),
        group(cs[k], 1) == Some(t),
        table_like(t),
    ensures
        etl_edges(cs, path, content, read).contains(
            EdgeView {
                source: if read { lowercase(t) } else { python_node(path) },
                target: if read { python_node(path) } else { lowercase(t) },
                relation: EdgeRelation::PythonReadWrite,
                source_file: path,
                line_number: line_of(content, cs[k].0),
            },
        ),
    decreases cs.len(),
{
    let x = EdgeView {
        source: if read { lowercase(t) } else { python_node(path) },
        target: if read { python_node(path) } else { lowercase(t) },
        relation: EdgeRelation::PythonReadWrite,
        source_file: path,
        line_number: line_of(content, cs[k].0),
    };
    let rest = etl_edges(cs.drop_last(), path, content, read);
    if k == cs.len() - 1 {
        assert(etl_edges(cs, path, content, read) == rest.push(x));
        assert(rest.push(x)[rest.len() as int] == x);
    } else {
        assert(cs.drop_last()[k] == cs[k]);
        lemma_etl_edges_contain(cs.drop_last(), path, content, read, k, t);
        let j = choose|j: int| 0 <= j < rest.len() && rest[j] == x;
        let whole = etl_edges(cs, path, content, read);
        assert(whole == rest || (whole.len() == rest.len() + 1 && whole.drop_last() == rest));
        assert(whole[j] == x);
    }
}

/// `edges` of one pattern within the edges of all seven, in their order.
proof fn lemma_pattern_in_file(path: Seq<char>, content: Seq<char>, m: int, x: EdgeView)
    requires
        0 <= m < 7,
        pattern_edges(
            if m == 0 {
                READ_SQL_PATTERN@
            } else if m == 1 {
                SPARK_TABLE_PATTERN@
            } else if m == 2 {
                SPARK_SQL_PATTERN@
            } else if m == 3 {
                TO_SQL_PATTERN@
            } else if m == 4 {
                SAVE_AS_TABLE_PATTERN@
            } else if m == 5 {
                INSERT_INTO_PATTERN@
            } else {
                WRITE_SAVE_PATTERN@
            },
            path,
            content,
            m < 3,
        ).contains(x),
    ensures
        python_file_edges(path, content).contains(x),
{
    let p0 = pattern_edges(READ_SQL_PATTERN@, path, content, true);
    let p1 = pattern_edges(SPARK_TABLE_PATTERN@, path, content, true);
    let p2 = pattern_edges(SPARK_SQL_PATTERN@, path, content, true);
    let p3 = pattern_edges(TO_SQL_PATTERN@, path, content, false);
    let p4 = pattern_edges(SAVE_AS_TABLE_PATTERN@, path, content, false);
    let p5 = pattern_edges(INSERT_INTO_PATTERN@, path, content, false);
    let p6 = pattern_edges(WRITE_SAVE_PATTERN@, path, content, false);
    let s1 = p0 + p1;
    let s2 = s1 + p2;
    let s3 = s2 + p3;
    let s4 = s3 + p4;
    let s5 = s4 + p5;
    let s6 = s5 + p6;
    assert(python_file_edges(path, content) == s6);
    if m <= 1 {
        lemma_concat_contains(p0, p1, x);
    }
    if m <= 2 {
        lemma_concat_contains(s1, p2, x);
    }
    if m <= 3 {
        lemma_concat_contains(s2, p3, x);
    }
    if m <= 4 {
        lemma_concat_contains(s3, p4, x);
    }
    if m <= 5 {
        lemma_concat_contains(s4, p5, x);
    }
    lemma_concat_contains(s5, p6, x);
}

/// Reads flow into the job: for every match of a read pattern (`read_sql`,
/// `spark.table`, `.sql("SELECT ... FROM t")`) whose captured name looks like a
/// table, the scan of the script has an edge from that table (lower-cased) to the
/// script's node, at the match's line.
pub proof fn law_python_reads_flow_into_the_job(
    path: Seq<char>,
    content: Seq<char>,
    pattern: Seq<char>,
    cs: Seq<CaptureView>,
    k: int,
    t: Seq<char>,
)
    requires
        pattern == READ_SQL_PATTERN@ || pattern == SPARK_TABLE_PATTERN@ || pattern == SPARK_SQL_PATTERN@,
        regex_captures(pattern, content) == Some(cs),
        0 <= k < cs.len(),
        group(cs[k], 1) == Some(t),
        table_like(t),
    ensures
        python_file_edges(path, content).contains(
            EdgeView {
                source: lowercase(t),
                target: python_node(path),
                relation: EdgeRelation::PythonReadWrite,
                source_file: path,
                line_number: line_of(content, cs[k].0),
            },
        ),
{
    lemma_etl_edges_contain(cs, path, content, true, k, t);
    let m: int = if pattern == READ_SQL_PATTERN@ {
        0
    } else if pattern == SPARK_TABLE_PATTERN@ {
        1
    } else {
        2
    };
    lemma_pattern_in_file(
        path,
        content,
        m,
        EdgeView {
            source: lowercase(t),
            target: python_node(path),
            relation: EdgeRelation::PythonReadWrite,
            source_file: path,
            line_number: line_of(content, cs[k].0),
        },
    );
}

/// Writes flow out of the job: for every match of a write pattern (`to_sql`,
/// `saveAsTable`, `insertInto`, `.write ... .save`) whose captured name looks like
/// a table, the scan of the script has an edge from the script's node to that
/// table (lower-cased), at the match's line.
pub proof fn law_python_writes_flow_out_of_the_job(
    path: Seq<char>,
    content: Seq<char>,
    pattern: Seq<char>,
    cs: Seq<CaptureView>,
    k: int,
    t: Seq<char>,
)
    requires
        pattern == TO_SQL_PATTERN@ || pattern == SAVE_AS_TABLE_PATTERN@ || pattern == INSERT_INTO_PATTERN@
            || pattern == WRITE_SAVE_PATTERN@,
        regex_captures(pattern, content) == Some(cs),
        0 <= k < cs.len(),
        group(cs[k], 1) == Some(t),
        table_like(t),
    ensures
        python_file_edges(path, content).contains(
            EdgeView {
                source: python_node(path),
                target: lowercase(t),
                relation: EdgeRelation::PythonReadWrite,
                source_file: path,
                line_number: line_of(content, cs[k].0),
            },
        ),
{
    lemma_etl_edges_contain(cs, path, content, false, k, t);
    let m: int = if pattern == TO_SQL_PATTERN@ {
        3
    } else if pattern == SAVE_AS_TABLE_PATTERN@ {
        4
    } else if pattern == INSERT_INTO_PATTERN@ {
        5
    } else {
        6
    };
    lemma_pattern_in_file(
        path,
        content,
        m,
        EdgeView {
            source: python_node(path),
            target: lowercase(t),
            relation: EdgeRelation::PythonReadWrite,
            source_file: path,
            line_number: line_of(content, cs[k].0),
        },
    );
}

} // verus!
