use vstd::prelude::*;
use vstd::string::StringExecFns;
use crate::error::LineageError;
use crate::node::{EdgeRelation, EdgeView, LineageEdge, NodeId};
use crate::pattern::{byte_offset_to_line, captures_view, file_stem, group, line_of, path_file_stem, regex_captures, regex_captures_all, CaptureView};
use crate::sql::edges_view;
use crate::text::{contains_str, copy_str, has_substring, lowercase, to_lowercase};

verus! {

/// `{{ ref('model') }}`, with the model's name as group 1.
pub const DBT_REF_PATTERN: &'static str = r#"\{\{\s*ref\(\s*['"]([\w.]+)['"]\s*\)\s*\}\}"#;

/// `{{ source('source', 'table') }}`, with the source's and the table's names as
/// groups 1 and 2.
pub const DBT_SOURCE_PATTERN: &'static str = r#"\{\{\s*source\(\s*['"]([\w.]+)['"],\s*['"]([\w.]+)['"]\s*\)\s*\}\}"#;

/// The model a dbt file defines: its file stem (`unknown` when it has none),
/// lower-cased.
pub open spec fn model_name(path: Seq<char>) -> Seq<char> {
    lowercase(
        match path_file_stem(path) {
            Some(s) => s,
            None => "unknown"@,
        },
    )
}

/// The `DbtRef` edges of the `ref()` matches: from each referenced model to the file's model.
pub open spec fn ref_edges(cs: Seq<CaptureView>, path: Seq<char>, content: Seq<char>) -> Seq<EdgeView>
    decreases cs.len(),
{
    if cs.len() == 0 {
        Seq::empty()
    } else {
        let rest = ref_edges(cs.drop_last(), path, content);
        let c = cs.last();
        match group(c, 1) {
            Some(m) => rest.push(EdgeView {
                source: lowercase(m),
                target: model_name(path),
                relation: EdgeRelation::DbtRef,
                source_file: path,
                line_number: line_of(content, c.0),
            }),
            None => rest,
        }
    }
}

/// The `DbtSource` edges of the `source()` matches: from `source.table` to the file's model.
pub open spec fn source_edges(cs: Seq<CaptureView>, path: Seq<char>, content: Seq<char>) -> Seq<EdgeView>
    decreases cs.len(),
{
    if cs.len() == 0 {
        Seq::empty()
    } else {
        let rest = source_edges(cs.drop_last(), path, content);
        let c = cs.last();
        match (group(c, 1), group(c, 2)) {
            (Some(s), Some(t)) => rest.push(EdgeView {
                source: lowercase(s + "."@ + t),
                target: model_name(path),
                relation: EdgeRelation::DbtSource,
                source_file: path,
                line_number: line_of(content, c.0),
            }),
            _ => rest,
        }
    }
}

/// The edges of a dbt model file: none unless it holds Jinja (`{{`); otherwise one
/// per `ref()` call, then one per `source()` call, in the order they appear.
pub open spec fn dbt_file_edges(path: Seq<char>, content: Seq<char>) -> Seq<EdgeView> {
    if !has_substring(content, "{{"@) {
        Seq::empty()
    } else {
        (match regex_captures(DBT_REF_PATTERN@, content) {
            Some(cs) => ref_edges(cs, path, content),
            None => Seq::empty(),
        }) + (match regex_captures(DBT_SOURCE_PATTERN@, content) {
            Some(cs) => source_edges(cs, path, content),
            None => Seq::empty(),
        })
    }
}

/// The model a dbt file defines, as `model_name` states.
pub fn model_name_from_path(path: &str) -> (r: String)
    ensures
        r@ == model_name(path@),
{
    match file_stem(path) {
        Some(s) => to_lowercase(s.as_str()),
        None => to_lowercase("unknown"),
    }
}

/// Extracts lineage from dbt models by their `ref()` and `source()` calls.
pub struct DbtScanner;

impl crate::scanner::Scanner for DbtScanner {
    open spec fn spec_scan(&self, path: Seq<char>, content: Seq<char>) -> Seq<EdgeView> {
        dbt_file_edges(path, content)
    }

    open spec fn spec_extensions(&self) -> Seq<Seq<char>> {
        seq!["sql"@]
    }

    fn extensions(&self) -> (r: &'static [&'static str]) {
        &["sql"]
    }

    /// The edges of a dbt model file, as `dbt_file_edges` states. It never fails.
    fn scan_file(&self, path: &str, content: &str) -> (r: Result<Vec<LineageEdge>, crate::error::LineageError>)
        ensures
            r is Ok,
    {
        let mut edges: Vec<LineageEdge> = Vec::new();
        if !contains_str(content, "{{") {
            proof {
                assert(edges_view(edges@) =~= Seq::<EdgeView>::empty());
            }
            return Ok(edges);
        }
        let target = model_name_from_path(path);
        let ghost spec_refs = match regex_captures(DBT_REF_PATTERN@, content@) {
            Some(cs) => ref_edges(cs, path@, content@),
            None => Seq::empty(),
        };
        match regex_captures_all(DBT_REF_PATTERN, content) {
            Some(caps) => {
                let ghost cv = captures_view(caps@);
                let mut i: usize = 0;
                proof {
                    assert(cv.subrange(0, 0) =~= Seq::<CaptureView>::empty());
                    assert(edges_view(edges@) =~= ref_edges(cv.subrange(0, 0), path@, content@));
                }
                while i < caps.len()
                    invariant
                        cv == captures_view(caps@),
                        i <= caps@.len(),
                        target@ == model_name(path@),
                        forall|k: int| 0 <= k < caps@.len() ==> caps@[k].0 <= vstd::utf8::encode_utf8(content@).len(),
                        edges_view(edges@) == ref_edges(cv.subrange(0, i as int), path@, content@),
                    decreases caps@.len() - i,
                {
                    proof {
                        assert(cv.subrange(0, i + 1).drop_last() =~= cv.subrange(0, i as int));
                        assert(cv.subrange(0, i + 1).last() == cv[i as int]);
                    }
                    let (start, groups) = &caps[i];
                    if groups.len() > 1 {
                        match &groups[1] {
                            Some(m) => {
                                let edge = LineageEdge {
                                    source: NodeId::from(m.as_str()),
                                    target: NodeId(target.clone()),
                                    relation: EdgeRelation::DbtRef,
                                    source_file: copy_str(path),
                                    line_number: byte_offset_to_line(content, *start),
                                };
                                let ghost before = edges@;
                                edges.push(edge);
                                proof {
                                    assert(edges_view(edges@) =~= edges_view(before).push(edge@));
                                }
                            },
                            None => {},
                        }
                    }
                    i = i + 1;
                }
                proof {
                    assert(cv.subrange(0, i as int) =~= cv);
                }
            },
            None => {
                proof {
                    assert(edges_view(edges@) =~= Seq::<EdgeView>::empty());
                }
            },
        }
        let ghost after_refs = edges@;
        proof {
            assert(edges_view(after_refs) == spec_refs);
        }
        match regex_captures_all(DBT_SOURCE_PATTERN, content) {
            Some(caps) => {
                let ghost cv = captures_view(caps@);
                let mut i: usize = 0;
                proof {
                    assert(cv.subrange(0, 0) =~= Seq::<CaptureView>::empty());
                    assert(edges_view(edges@) =~= spec_refs + source_edges(cv.subrange(0, 0), path@, content@));
                }
                while i < caps.len()
                    invariant
                        cv == captures_view(caps@),
                        i <= caps@.len(),
                        target@ == model_name(path@),
                        forall|k: int| 0 <= k < caps@.len() ==> caps@[k].0 <= vstd::utf8::encode_utf8(content@).len(),
                        edges_view(edges@) == spec_refs + source_edges(cv.subrange(0, i as int), path@, content@),
                    decreases caps@.len() - i,
                {
                    proof {
                        assert(cv.subrange(0, i + 1).drop_last() =~= cv.subrange(0, i as int));
                        assert(cv.subrange(0, i + 1).last() == cv[i as int]);
                    }
                    let (start, groups) = &caps[i];
                    if groups.len() > 2 {
                        match (&groups[1], &groups[2]) {
                            (Some(s), Some(t)) => {
                                let mut name = s.clone();
                                name.append(".");
                                name.append(t.as_str());
                                proof {
                                    reveal_strlit(".");
                                }
                                let edge = LineageEdge {
                                    source: NodeId::from(name.as_str()),
                                    target: NodeId(target.clone()),
                                    relation: EdgeRelation::DbtSource,
                                    source_file: copy_str(path),
                                    line_number: byte_offset_to_line(content, *start),
                                };
                                let ghost before = edges@;
                                edges.push(edge);
                                proof {
                                    assert(edges_view(edges@) =~= edges_view(before).push(edge@));
                                }
                            },
                            _ => {},
                        }
                    }
                    i = i + 1;
                }
                proof {
                    assert(cv.subrange(0, i as int) =~= cv);
                }
            },
            None => {
                proof {
                    assert(edges_view(edges@) =~= spec_refs + Seq::<EdgeView>::empty());
                }
            },
        }
        Ok(edges)
    }
}

} // verus!
