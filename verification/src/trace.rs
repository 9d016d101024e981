use vstd::prelude::*;
use vstd::string::StringExecFns;
use vstd::utf8::{encode_scalar, encode_utf8};
use crate::chars::slice_chars;
use crate::node::{transform_label, ColumnLineage, LineageView, SourceColumn, SourceView, TransformKind, TransformView, lineages_view, sources_view};
use crate::text::{chars_of, copy_str, lowercase, str_eq, string_from_chars, to_lowercase};

verus! {

/// The number of bytes of the UTF-8 encoding of `s`.
pub open spec fn byte_len(s: Seq<char>) -> nat {
    encode_utf8(s).len()
}

proof fn lemma_encode_concat(a: Seq<char>, b: Seq<char>)
    ensures
        encode_utf8(a + b) == encode_utf8(a) + encode_utf8(b),
    decreases a.len(),
{
    if a.len() == 0 {
        assert(a + b =~= b);
        assert(encode_utf8(a) =~= Seq::<u8>::empty());
        assert(encode_utf8(a) + encode_utf8(b) =~= encode_utf8(b));
    } else {
        lemma_encode_concat(a.drop_first(), b);
        assert((a + b).drop_first() =~= a.drop_first() + b);
        assert((a + b)[0] == a[0]);
        assert(encode_utf8(a + b) =~= encode_scalar(a[0] as u32) + encode_utf8(a.drop_first() + b));
        assert(encode_utf8(a) =~= encode_scalar(a[0] as u32) + encode_utf8(a.drop_first()));
    }
}

proof fn lemma_char_bytes(c: char)
    ensures
        1 <= byte_len(seq![c]) <= 4,
        byte_len(seq![c]) == if (c as u32) <= 0x7f {
            1nat
        } else if (c as u32) <= 0x7ff {
            2nat
        } else if (c as u32) <= 0xffff {
            3nat
        } else {
            4nat
        },
{
    broadcast use vstd::utf8::char_is_scalar;
    let s = seq![c];
    assert(s.drop_first() =~= Seq::<char>::empty());
    assert(encode_utf8(s) =~= encode_scalar(c as u32) + encode_utf8(Seq::<char>::empty()));
    assert(encode_utf8(Seq::<char>::empty()) =~= Seq::<u8>::empty());
}

/// Adding characters at the end never shortens the encoding, and adding one
/// lengthens it.
proof fn lemma_take_bytes(s: Seq<char>, j: int, k: int)
    requires
        0 <= j <= k <= s.len(),
    ensures
        byte_len(s.take(j)) <= byte_len(s.take(k)),
        j < k ==> byte_len(s.take(j)) < byte_len(s.take(k)),
{
    lemma_encode_concat(s.take(j), s.subrange(j, k));
    assert(s.take(j) + s.subrange(j, k) =~= s.take(k));
    if j < k {
        let rest = s.subrange(j, k);
        lemma_encode_concat(seq![rest[0]], rest.drop_first());
        assert(seq![rest[0]] + rest.drop_first() =~= rest);
        lemma_char_bytes(rest[0]);
    }
}

/// The number of UTF-8 bytes of `c`.
fn char_len_utf8(c: char) -> (r: usize)
    ensures
        r == byte_len(seq![c]),
{
    proof {
        lemma_char_bytes(c);
    }
    let u = c as u32;
    if u <= 0x7f {
        1
    } else if u <= 0x7ff {
        2
    } else if u <= 0xffff {
        3
    } else {
        4
    }
}

/// The number of characters of `e` whose UTF-8 encoding takes 57 bytes.
pub open spec fn cut_at(e: Seq<char>) -> int {
    choose|k: int| 0 <= k <= e.len() && byte_len(e.take(k)) == 57
}

/// An expression whose encoding is longer than 60 bytes can be cut after 57
/// bytes without splitting a character.
pub open spec fn cuttable(e: Seq<char>) -> bool {
    byte_len(e) > 60 ==> exists|k: int| 0 <= k <= e.len() && byte_len(e.take(k)) == 57
}

/// An expression as the trace shows it: one longer than 60 bytes cut after 57
/// bytes and followed by an ellipsis.
pub open spec fn shown_expression(e: Seq<char>) -> Seq<char> {
    if byte_len(e) > 60 {
        e.take(cut_at(e)) + "…"@
    } else {
        e
    }
}

/// An expression as the trace shows it.
fn shorten_expression(e: &str) -> (r: String)
    requires
        cuttable(e@),
    ensures
        r@ == shown_expression(e@),
{
    let cs = chars_of(e);
    let mut total: usize = 0;
    let mut j: usize = 0;
    proof {
        assert(cs@.take(0) =~= Seq::<char>::empty());
        assert(encode_utf8(Seq::<char>::empty()) =~= Seq::<u8>::empty());
    }
    while j < cs.len() && total <= 60
        invariant
            cs@ == e@,
            j <= cs@.len(),
            total == byte_len(cs@.take(j as int)),
            total <= 64,
        decreases cs@.len() - j,
    {
        proof {
            lemma_encode_concat(cs@.take(j as int), seq![cs@[j as int]]);
            assert(cs@.take(j as int) + seq![cs@[j as int]] =~= cs@.take(j + 1));
            lemma_char_bytes(cs@[j as int]);
        }
        let n = char_len_utf8(cs[j]);
        total = total + n;
        j = j + 1;
    }
    proof {
        assert(cs@.take(cs@.len() as int) =~= cs@);
        lemma_take_bytes(cs@, j as int, cs@.len() as int);
    }
    if total <= 60 {
        return copy_str(e);
    }
    let ghost k57 = cut_at(e@);
    let mut b: usize = 0;
    let mut i: usize = 0;
    while i < cs.len() && b < 57
        invariant
            cs@ == e@,
            0 <= k57 <= cs@.len(),
            byte_len(cs@.take(k57)) == 57,
            i <= cs@.len(),
            i <= k57,
            b == byte_len(cs@.take(i as int)),
        decreases cs@.len() - i,
    {
        proof {
            lemma_encode_concat(cs@.take(i as int), seq![cs@[i as int]]);
            assert(cs@.take(i as int) + seq![cs@[i as int]] =~= cs@.take(i + 1));
            if k57 <= i {
                lemma_take_bytes(cs@, k57, i as int);
            }
            lemma_take_bytes(cs@, (i + 1) as int, k57);
        }
        let n = char_len_utf8(cs[i]);
        b = b + n;
        i = i + 1;
    }
    proof {
        if i < k57 {
            lemma_take_bytes(cs@, i as int, k57);
            if i == cs@.len() {
                assert(false);
            }
        }
    }
    let head = slice_chars(&cs, 0, i);
    let mut r = string_from_chars(head.as_slice());
    r.append("…");
    proof {
        assert(head@ =~= e@.take(i as int));
    }
    r
}

/// How an upstream column is shown: `table.column`, or the column alone.
pub open spec fn source_text(s: SourceView) -> Seq<char> {
    match s.table {
        Some(t) => t + "."@ + s.column,
        None => s.column,
    }
}

/// Parts joined with `, `.
pub open spec fn join_comma(parts: Seq<Seq<char>>) -> Seq<char>
    decreases parts.len(),
{
    if parts.len() == 0 {
        Seq::empty()
    } else if parts.len() == 1 {
        parts[0]
    } else {
        join_comma(parts.drop_last()) + ", "@ + parts.last()
    }
}

/// How the upstream columns of a column are shown: joined with `, `, or a mark
/// for none.
pub open spec fn sources_text(srcs: Seq<SourceView>) -> Seq<char> {
    if srcs.len() == 0 {
        "（無）"@
    } else {
        join_comma(srcs.map_values(|s: SourceView| source_text(s)))
    }
}

/// The row the trace shows for a column: its name, its transform, its upstream
/// columns, its expression.
pub type RowView = (Seq<char>, Seq<char>, Seq<char>, Seq<char>);

/// The row of one column lineage.
pub open spec fn row_of(l: LineageView) -> RowView {
    (l.target_column, transform_label(l.transform), sources_text(l.source_columns), shown_expression(l.expression))
}

/// The column lineages of `ls` whose output table is `table`, in order.
pub open spec fn lineages_of(ls: Seq<LineageView>, table: Seq<char>) -> Seq<LineageView>
    decreases ls.len(),
{
    if ls.len() == 0 {
        Seq::empty()
    } else {
        lineages_of(ls.drop_last(), table) + if ls.last().target_table == table {
            seq![ls.last()]
        } else {
            Seq::empty()
        }
    }
}

/// The number of lineages of `ls` whose transform satisfies `p`.
pub open spec fn count_transforms(ls: Seq<LineageView>, p: spec_fn(TransformView) -> bool) -> nat
    decreases ls.len(),
{
    if ls.len() == 0 {
        0
    } else {
        count_transforms(ls.drop_last(), p) + if p(ls.last().transform) {
            1nat
        } else {
            0nat
        }
    }
}

/// The transform is a direct mapping.
pub open spec fn is_direct(t: TransformView) -> bool {
    t is Direct
}

/// The transform is an aggregation.
pub open spec fn is_aggregation(t: TransformView) -> bool {
    t is Aggregation
}

/// The transform is neither a direct mapping nor an aggregation.
pub open spec fn is_other(t: TransformView) -> bool {
    !(t is Direct) && !(t is Aggregation)
}

/// One row of a trace.
#[derive(Debug)]
pub struct TraceRow {
    pub column: String,
    pub transform: String,
    pub sources: String,
    pub expression: String,
}

/// The column-level lineage of one table: a row per column, and the numbers of
/// direct mappings, of aggregations and of other transforms.
#[derive(Debug)]
pub struct TraceReport {
    pub rows: Vec<TraceRow>,
    pub direct: usize,
    pub aggregations: usize,
    pub others: usize,
}

/// The abstract values of a list of rows.
pub open spec fn rows_view(v: Seq<TraceRow>) -> Seq<RowView> {
    v.map_values(|r: TraceRow| (r.column@, r.transform@, r.sources@, r.expression@))
}

/// How an upstream column is shown.
fn source_string(s: &SourceColumn) -> (r: String)
    ensures
        r@ == source_text(s@),
{
    match &s.table {
        Some(t) => {
            let mut r = copy_str(t.as_str());
            r.append(".");
            r.append(s.column.as_str());
            r
        },
        None => copy_str(s.column.as_str()),
    }
}

/// How the upstream columns of a column are shown.
fn sources_string(srcs: &Vec<SourceColumn>) -> (r: String)
    ensures
        r@ == sources_text(sources_view(srcs@)),
{
    if srcs.len() == 0 {
        return copy_str("（無）");
    }
    let ghost parts = sources_view(srcs@).map_values(|s: SourceView| source_text(s));
    let mut r = String::new();
    let mut i: usize = 0;
    proof {
        assert(parts.take(0) =~= Seq::<Seq<char>>::empty());
    }
    while i < srcs.len()
        invariant
            parts == sources_view(srcs@).map_values(|s: SourceView| source_text(s)),
            i <= srcs@.len(),
            r@ == join_comma(parts.take(i as int)),
        decreases srcs@.len() - i,
    {
        proof {
            assert(parts.take(i + 1).drop_last() =~= parts.take(i as int));
            assert(parts[i as int] == source_text(srcs@[i as int]@));
        }
        if i > 0 {
            r.append(", ");
        }
        let piece = source_string(&srcs[i]);
        r.append(piece.as_str());
        proof {
            if i == 0 {
                assert(parts.take(0) =~= Seq::<Seq<char>>::empty());
                assert(r@ =~= parts.take(1)[0]);
            }
        }
        i = i + 1;
    }
    proof {
        assert(parts.take(i as int) =~= parts);
    }
    r
}

/// The column-level lineage of table `table` (compared in lower case) among
/// `col_lineage`.
pub fn trace_table(col_lineage: &Vec<ColumnLineage>, table: &str) -> (r: TraceReport)
    requires
        forall|i: int| 0 <= i < col_lineage@.len() && #[trigger] col_lineage@[i].target_table@ == lowercase(table@)
            ==> cuttable(col_lineage@[i].expression@),
    ensures
        ({
            let m = lineages_of(lineages_view(col_lineage@), lowercase(table@));
            &&& rows_view(r.rows@) == m.map_values(|l: LineageView| row_of(l))
            &&& r.direct == count_transforms(m, |t: TransformView| is_direct(t))
            &&& r.aggregations == count_transforms(m, |t: TransformView| is_aggregation(t))
            &&& r.others == count_transforms(m, |t: TransformView| is_other(t))
        }),
{
    let lower = to_lowercase(table);
    let ghost ls = lineages_view(col_lineage@);
    let ghost t = lower@;
    let mut rows: Vec<TraceRow> = Vec::new();
    let mut direct: usize = 0;
    let mut aggregations: usize = 0;
    let mut others: usize = 0;
    let mut i: usize = 0;
    proof {
        assert(ls.take(0) =~= Seq::<LineageView>::empty());
        assert(rows_view(rows@) =~= Seq::<RowView>::empty());
    }
    while i < col_lineage.len()
        invariant
            ls == lineages_view(col_lineage@),
            t == lowercase(table@),
            t == lower@,
            forall|j: int| 0 <= j < col_lineage@.len() && #[trigger] col_lineage@[j].target_table@ == t
                ==> cuttable(col_lineage@[j].expression@),
            i <= col_lineage@.len(),
            rows@.len() <= i,
            direct <= i,
            aggregations <= i,
            others <= i,
            rows_view(rows@) == lineages_of(ls.take(i as int), t).map_values(|l: LineageView| row_of(l)),
            direct == count_transforms(lineages_of(ls.take(i as int), t), |x: TransformView| is_direct(x)),
            aggregations == count_transforms(lineages_of(ls.take(i as int), t), |x: TransformView| is_aggregation(x)),
            others == count_transforms(lineages_of(ls.take(i as int), t), |x: TransformView| is_other(x)),
        decreases col_lineage@.len() - i,
    {
        let cl = &col_lineage[i];
        let ghost m0 = lineages_of(ls.take(i as int), t);
        proof {
            assert(ls.take(i + 1).drop_last() =~= ls.take(i as int));
            assert(ls.take(i + 1).last() == cl@);
        }
        let ghost li = ls.take(i + 1);
        proof {
            assert(li.len() > 0);
            assert(lineages_of(li, t) == lineages_of(li.drop_last(), t) + if li.last().target_table == t {
                seq![li.last()]
            } else {
                Seq::empty()
            });
        }
        let same = str_eq(cl.target_table.as_str(), lower.as_str());
        proof {
            assert(same == (cl.target_table@ == lower@));
            assert(*cl == col_lineage@[i as int]);
        }
        if same {
            proof {
                assert(cl.target_table@ == t);
                assert(col_lineage@[i as int].target_table@ == t);
            }
            let row = TraceRow {
                column: copy_str(cl.target_column.as_str()),
                transform: cl.transform.to_string(),
                sources: sources_string(&cl.source_columns),
                expression: shorten_expression(cl.expression.as_str()),
            };
            let ghost before = rows@;
            proof {
                assert((row.column@, row.transform@, row.sources@, row.expression@) == row_of(cl@));
            }
            rows.push(row);
            let ghost m1 = m0.push(cl@);
            proof {
                assert(lineages_of(ls.take(i + 1), t) =~= m1);
                assert(m1.drop_last() =~= m0);
                assert(rows_view(rows@) =~= rows_view(before).push(row_of(cl@)));
                assert(m1.map_values(|l: LineageView| row_of(l)) =~= m0.map_values(|l: LineageView| row_of(l)).push(row_of(cl@)));
            }
            match &cl.transform {
                TransformKind::Direct => {
                    direct = direct + 1;
                },
                TransformKind::Aggregation(_) => {
                    aggregations = aggregations + 1;
                },
                _ => {
                    others = others + 1;
                },
            }
        } else {
            proof {
                assert(lineages_of(ls.take(i + 1), t) =~= m0);
            }
        }
        i = i + 1;
    }
    proof {
        assert(ls.take(i as int) =~= ls);
    }
    TraceReport { rows, direct, aggregations, others }
}

/// Every column of a trace is counted once: as a direct mapping, an aggregation or
/// another transform.
pub proof fn law_trace_counts_sum(m: Seq<LineageView>)
    ensures
        count_transforms(m, |t: TransformView| is_direct(t)) + count_transforms(m, |t: TransformView| is_aggregation(t))
            + count_transforms(m, |t: TransformView| is_other(t)) == m.len(),
    decreases m.len(),
{
    if m.len() > 0 {
        law_trace_counts_sum(m.drop_last());
    }
}

/// Whether an expression can be shown: when its encoding is longer than 60 bytes,
/// its first 57 bytes end at a character boundary.
pub fn is_cuttable(e: &str) -> (r: bool)
    ensures
        r == cuttable(e@),
{
    let cs = chars_of(e);
    let mut total: usize = 0;
    let mut j: usize = 0;
    let mut cut: Option<usize> = None;
    proof {
        assert(cs@.take(0) =~= Seq::<char>::empty());
        assert(encode_utf8(Seq::<char>::empty()) =~= Seq::<u8>::empty());
    }
    while j < cs.len() && total <= 60
        invariant
            cs@ == e@,
            j <= cs@.len(),
            total == byte_len(cs@.take(j as int)),
            total <= 64,
            match cut {
                Some(k) => k <= j && byte_len(cs@.take(k as int)) == 57,
                None => forall|k: int| 0 <= k <= j ==> byte_len(#[trigger] cs@.take(k)) != 57,
            },
        decreases cs@.len() - j,
    {
        proof {
            lemma_encode_concat(cs@.take(j as int), seq![cs@[j as int]]);
            assert(cs@.take(j as int) + seq![cs@[j as int]] =~= cs@.take(j + 1));
            lemma_char_bytes(cs@[j as int]);
        }
        let n = char_len_utf8(cs[j]);
        total = total + n;
        j = j + 1;
        if total == 57 {
            cut = Some(j);
        }
    }
    proof {
        assert(cs@.take(cs@.len() as int) =~= cs@);
        lemma_take_bytes(cs@, j as int, cs@.len() as int);
    }
    if total <= 60 {
        return true;
    }
    match cut {
        Some(_) => true,
        None => {
            proof {
                assert forall|k: int| 0 <= k <= e@.len() implies byte_len(#[trigger] e@.take(k)) != 57 by {
                    if k > j {
                        lemma_take_bytes(cs@, j as int, k);
                    }
                }
            }
            false
        },
    }
}

/// The column-level lineage of table `table`, or nothing when the expression of
/// one of its columns is longer than 60 bytes and cannot be cut after 57 bytes
/// at a character boundary.
pub fn trace_table_checked(col_lineage: &Vec<ColumnLineage>, table: &str) -> (r: Option<TraceReport>)
    ensures
        ({
            let t = lowercase(table@);
            let ok = forall|i: int| 0 <= i < col_lineage@.len() && #[trigger] col_lineage@[i].target_table@ == t
                ==> cuttable(col_lineage@[i].expression@);
            let m = lineages_of(lineages_view(col_lineage@), t);
            &&& (r is Some <==> ok)
            &&& (r matches Some(rep) ==> {
                &&& rows_view(rep.rows@) == m.map_values(|l: LineageView| row_of(l))
                &&& rep.direct == count_transforms(m, |x: TransformView| is_direct(x))
                &&& rep.aggregations == count_transforms(m, |x: TransformView| is_aggregation(x))
                &&& rep.others == count_transforms(m, |x: TransformView| is_other(x))
            })
        }),
{
    let lower = to_lowercase(table);
    let mut i: usize = 0;
    while i < col_lineage.len()
        invariant
            lower@ == lowercase(table@),
            i <= col_lineage@.len(),
            forall|j: int| 0 <= j < i && #[trigger] col_lineage@[j].target_table@ == lower@ ==> cuttable(col_lineage@[j].expression@),
        decreases col_lineage@.len() - i,
    {
        if str_eq(col_lineage[i].target_table.as_str(), lower.as_str()) && !is_cuttable(col_lineage[i].expression.as_str()) {
            return None;
        }
        i = i + 1;
    }
    Some(trace_table(col_lineage, table))
}


/// Where piece `i` begins when `parts` are written one after another with `, `
/// between them.
pub open spec fn piece_start(parts: Seq<Seq<char>>, i: int) -> int
    decreases i,
{
    if i <= 0 {
        0
    } else {
        piece_start(parts, i - 1) + parts[i - 1].len() + 2
    }
}

proof fn lemma_piece_start_prefix(parts: Seq<Seq<char>>, n: int, i: int)
    requires
        0 <= i <= n <= parts.len(),
    ensures
        piece_start(parts.take(n), i) == piece_start(parts, i),
    decreases i,
{
    if i > 0 {
        lemma_piece_start_prefix(parts, n, i - 1);
        assert(parts.take(n)[i - 1] == parts[i - 1]);
    }
}

/// `join_comma` writes every part, in order, with `, ` between two parts and
/// nothing else.
proof fn lemma_join_comma_pieces(parts: Seq<Seq<char>>)
    requires
        parts.len() > 0,
    ensures
        join_comma(parts).len() == piece_start(parts, parts.len() - 1) + parts.last().len(),
        forall|i: int| 0 <= i < parts.len() ==> #[trigger] join_comma(parts).subrange(
            piece_start(parts, i),
            piece_start(parts, i) + parts[i].len(),
        ) == parts[i],
        forall|i: int| 0 < i < parts.len() ==> #[trigger] join_comma(parts).subrange(
            piece_start(parts, i) - 2,
            piece_start(parts, i),
        ) == ", "@,
    decreases parts.len(),
{
    reveal_strlit(", ");
    if parts.len() == 1 {
        assert(join_comma(parts) == parts[0]);
        assert(join_comma(parts).subrange(0, parts[0].len() as int) =~= parts[0]);
    } else {
        let n = parts.len() - 1;
        let front = parts.drop_last();
        assert(front =~= parts.take(n));
        lemma_join_comma_pieces(front);
        let j = join_comma(front);
        let t = join_comma(parts);
        assert(t == j + ", "@ + parts.last());
        lemma_piece_start_prefix(parts, n, n - 1);
        lemma_piece_start_prefix(parts, n, n);
        assert(piece_start(parts, n) == piece_start(parts, n - 1) + parts[n - 1].len() + 2);
        assert(j.len() == piece_start(parts, n - 1) + parts[n - 1].len());
        assert forall|i: int| 0 <= i < parts.len() implies #[trigger] t.subrange(
            piece_start(parts, i),
            piece_start(parts, i) + parts[i].len(),
        ) == parts[i] by {
            if i < n {
                lemma_piece_start_prefix(parts, n, i);
                lemma_piece_start_prefix(parts, n, i + 1);
                assert(front[i] == parts[i]);
                lemma_piece_start_mono(front, 0, i);
                assert(piece_start(front, i) == piece_start(parts, i));
                assert(j.subrange(piece_start(front, i), piece_start(front, i) + front[i].len()) == front[i]);
                assert(piece_start(front, i) + front[i].len() <= j.len()) by {
                    lemma_piece_start_mono(front, i + 1, n);
                }
                assert(t.subrange(piece_start(parts, i), piece_start(parts, i) + parts[i].len()) =~= j.subrange(
                    piece_start(front, i),
                    piece_start(front, i) + front[i].len(),
                ));
            } else {
                assert(t.subrange(piece_start(parts, i), piece_start(parts, i) + parts[i].len()) =~= parts.last());
            }
        }
        assert forall|i: int| 0 < i < parts.len() implies #[trigger] t.subrange(
            piece_start(parts, i) - 2,
            piece_start(parts, i),
        ) == ", "@ by {
            if i < n {
                lemma_piece_start_prefix(parts, n, i);
                lemma_piece_start_mono(front, 1, i);
                assert(piece_start(front, 0) == 0);
                assert(piece_start(front, 1) == front[0].len() + 2);
                assert(piece_start(front, i) == piece_start(parts, i));
                assert(j.subrange(piece_start(front, i) - 2, piece_start(front, i)) == ", "@);
                assert(piece_start(front, i) <= j.len()) by {
                    lemma_piece_start_mono(front, i, n - 1);
                }
                assert(t.subrange(piece_start(parts, i) - 2, piece_start(parts, i)) =~= j.subrange(
                    piece_start(front, i) - 2,
                    piece_start(front, i),
                ));
            } else {
                assert(t.subrange(piece_start(parts, i) - 2, piece_start(parts, i)) =~= ", "@);
            }
        }
    }
}

proof fn lemma_piece_start_mono(parts: Seq<Seq<char>>, i: int, k: int)
    requires
        0 <= i <= k <= parts.len(),
    ensures
        piece_start(parts, i) <= piece_start(parts, k),
        i < k ==> piece_start(parts, i) + parts[i].len() + 2 <= piece_start(parts, k),
    decreases k,
{
    if i < k {
        lemma_piece_start_mono(parts, i, k - 1);
    }
}

/// The sources shown in a trace row name every upstream column of the column, in
/// order: piece `i` of the text (pieces written one after another with `, ` between
/// them) is the text of upstream column `i`, and there is nothing more. A column
/// with no upstream column shows a mark instead.
pub proof fn law_trace_row_names_every_source(l: LineageView)
    ensures
        ({
            let t = row_of(l).2;
            let texts = l.source_columns.map_values(|s: SourceView| source_text(s));
            l.source_columns.len() > 0 ==> {
                &&& t.len() == piece_start(texts, texts.len() - 1) + texts.last().len()
                &&& forall|i: int| 0 <= i < texts.len() ==> #[trigger] t.subrange(
                    piece_start(texts, i),
                    piece_start(texts, i) + texts[i].len(),
                ) == source_text(l.source_columns[i])
                &&& forall|i: int| 0 < i < texts.len() ==> #[trigger] t.subrange(piece_start(texts, i) - 2, piece_start(texts, i))
                    == ", "@
            }
        }),
        l.source_columns.len() == 0 ==> row_of(l).2 == "（無）"@,
{
    if l.source_columns.len() > 0 {
        let texts = l.source_columns.map_values(|s: SourceView| source_text(s));
        lemma_join_comma_pieces(texts);
        assert forall|i: int| 0 <= i < texts.len() implies texts[i] == source_text(l.source_columns[i]) by {}
    }
}

} // verus!
