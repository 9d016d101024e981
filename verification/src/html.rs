use vstd::prelude::*;
use vstd::string::StringExecFns;
use crate::graph::LineageGraph;
use crate::node::{kind_label, lineages_view, relation_label, sources_view, transform_label, ColumnLineage, EdgeView, LineageEdge, LineageView, Node, NodeView, SourceColumn, SourceView};
use crate::text::{chars_of, string_from_chars};

verus! {

/// The page up to the list of nodes: styles, header, legend and the opening of the script.
pub const HTML_HEAD: &'static str = r#"<!DOCTYPE html>
<html lang="zh-TW">
<head>
<meta charset="UTF-8">
<title>lineage-lite — Data Lineage Graph</title>
<style>
* { margin: 0; padding: 0; box-sizing: border-box; }
body { font-family: -apple-system, BlinkMacSystemFont, 'Segoe UI', sans-serif; background: #0f1117; color: #e0e0e0; overflow: hidden; }
#header { position: fixed; top: 0; left: 0; right: 0; z-index: 100; background: #161922; border-bottom: 1px solid #2a2d3a; padding: 12px 24px; display: flex; align-items: center; justify-content: space-between; }
#header h1 { font-size: 16px; font-weight: 600; color: #fff; }
#header h1 span { color: #6c7ae0; }
#legend { display: flex; gap: 16px; font-size: 12px; }
.legend-item { display: flex; align-items: center; gap: 5px; }
.legend-dot { width: 10px; height: 10px; border-radius: 50%; }
#info { position: fixed; bottom: 20px; left: 20px; z-index: 100; background: #1e2030; border: 1px solid #2a2d3a; border-radius: 8px; padding: 14px 18px; font-size: 13px; max-width: 380px; display: none; box-shadow: 0 4px 20px rgba(0,0,0,0.4); }
#info h3 { color: #6c7ae0; margin-bottom: 6px; font-size: 14px; }
#info .detail { color: #999; margin-top: 4px; line-height: 1.5; }
#info .detail strong { color: #ccc; }
#stats { position: fixed; top: 56px; right: 20px; z-index: 100; background: #1e2030; border: 1px solid #2a2d3a; border-radius: 8px; padding: 10px 14px; font-size: 12px; color: #888; }
#search { position: fixed; top: 56px; left: 20px; z-index: 100; }
#search input { background: #1e2030; border: 1px solid #2a2d3a; border-radius: 6px; padding: 8px 12px; color: #e0e0e0; font-size: 13px; width: 220px; outline: none; }
#search input:focus { border-color: #6c7ae0; }
svg { width: 100vw; height: 100vh; }
.link { fill: none; stroke-opacity: 0.35; }
.node-label { font-size: 11px; fill: #bbb; pointer-events: none; font-weight: 500; }
.node-circle { cursor: pointer; stroke-width: 2; transition: filter 0.15s; }
.node-circle:hover { stroke-width: 3; filter: brightness(1.3) drop-shadow(0 0 6px rgba(108,122,224,0.5)); }
.node-circle.highlight { stroke: #fff !important; stroke-width: 3; filter: brightness(1.4) drop-shadow(0 0 8px rgba(108,122,224,0.7)); }
.link.highlight { stroke-opacity: 0.9; stroke-width: 2.5; }
.node-circle.dimmed { opacity: 0.15; }
.node-label.dimmed { opacity: 0.1; }
.link.dimmed { stroke-opacity: 0.05; }
</style>
</head>
<body>
<div id="header">
  <h1><span>lineage-lite</span> — Data Lineage Graph</h1>
  <div id="legend">
    <div class="legend-item"><div class="legend-dot" style="background:#6c7ae0"></div>dbt Model</div>
    <div class="legend-item"><div class="legend-dot" style="background:#e0a356"></div>dbt Source</div>
    <div class="legend-item"><div class="legend-dot" style="background:#56b886"></div>SQL Table/View</div>
    <div class="legend-item"><div class="legend-dot" style="background:#e06c8a"></div>Python ETL</div>
  </div>
</div>
<div id="search"><input type="text" placeholder="搜尋節點…" id="searchInput" /></div>
<div id="stats"></div>
<div id="info"></div>
<svg></svg>

<script>
const nodesData = ["#;

/// What stands between the list of nodes and the list of edges.
pub const HTML_AFTER_NODES: &'static str = r#"];
const edgesData = ["#;

/// What stands between the list of edges and the column-level lineage.
pub const HTML_AFTER_EDGES: &'static str = r#"];
const colLineage = ["#;

/// The rest of the page: the script that lays out and draws the graph.
pub const HTML_TAIL: &'static str = r#"];

const kindColor = {
  'dbt Model': '#6c7ae0',
  'dbt Source': '#e0a356',
  'SQL Table': '#56b886',
  'SQL View':  '#56b886',
  'Python ETL':'#e06c8a',
};
function getColor(kind) { return kindColor[kind] || '#888'; }

document.getElementById('stats').innerHTML =
  nodesData.length + ' nodes &middot; ' + edgesData.length + ' edges';

const width = window.innerWidth;
const height = window.innerHeight;
const ns = 'http://www.w3.org/2000/svg';
const svg = document.querySelector('svg');
svg.setAttribute('viewBox', '0 0 ' + width + ' ' + height);

// Defs: 箭頭 marker
const defs = document.createElementNS(ns, 'defs');
const marker = document.createElementNS(ns, 'marker');
marker.id = 'arrow';
['viewBox','refX','refY','markerWidth','markerHeight','orient'].forEach((a, i) =>
  marker.setAttribute(a, ['0 0 10 10','22','5','6','6','auto'][i]));
const mp = document.createElementNS(ns, 'path');
mp.setAttribute('d', 'M 0 0 L 10 5 L 0 10 z');
mp.setAttribute('fill', '#555');
marker.appendChild(mp);
defs.appendChild(marker);
svg.appendChild(defs);

const gEl = document.createElementNS(ns, 'g');
svg.appendChild(gEl);

// ===== 拓撲排序分層佈局 =====
const nodeMap = new Map();
nodesData.forEach(n => nodeMap.set(n.id, { ...n, x: 0, y: 0, layer: 0 }));

const children = new Map();
const parents = new Map();
nodeMap.forEach((_, id) => { children.set(id, []); parents.set(id, []); });
edgesData.forEach(e => {
  if (children.has(e.source)) children.get(e.source).push(e.target);
  if (parents.has(e.target)) parents.get(e.target).push(e.source);
});

// 用最長路徑決定 layer
function assignLayers() {
  const inDeg = new Map();
  nodeMap.forEach((_, id) => inDeg.set(id, (parents.get(id) || []).length));
  const queue = [];
  inDeg.forEach((d, id) => { if (d === 0) queue.push(id); });

  while (queue.length > 0) {
    const id = queue.shift();
    const n = nodeMap.get(id);
    (children.get(id) || []).forEach(cid => {
      const cn = nodeMap.get(cid);
      if (cn) cn.layer = Math.max(cn.layer, n.layer + 1);
      const newDeg = inDeg.get(cid) - 1;
      inDeg.set(cid, newDeg);
      if (newDeg === 0) queue.push(cid);
    });
  }
  // 若有未處理的節點（cycle），給它們 layer 0
  nodeMap.forEach(n => { if (n.layer === undefined) n.layer = 0; });
}
assignLayers();

const maxLayer = Math.max(...[...nodeMap.values()].map(n => n.layer), 0);
const layerGroups = new Map();
nodeMap.forEach(n => {
  if (!layerGroups.has(n.layer)) layerGroups.set(n.layer, []);
  layerGroups.get(n.layer).push(n.id);
});

const xPad = 120;
const yPad = 80;
const layerSpacing = Math.max(Math.min((width - xPad * 2) / (maxLayer + 1), 280), 180);
const nodeSpacing = 56;

layerGroups.forEach((ids, layer) => {
  const totalH = ids.length * nodeSpacing;
  const startY = Math.max((height - totalH) / 2, yPad);
  ids.forEach((id, i) => {
    const n = nodeMap.get(id);
    n.x = xPad + layer * layerSpacing;
    n.y = startY + i * nodeSpacing;
  });
});

// ===== 繪製邊 =====
const edgeEls = [];
edgesData.forEach((e, idx) => {
  const s = nodeMap.get(e.source);
  const t = nodeMap.get(e.target);
  if (!s || !t) return;

  const line = document.createElementNS(ns, 'path');
  const mx = (s.x + t.x) / 2;
  line.setAttribute('d', 'M' + s.x + ',' + s.y + ' C' + mx + ',' + s.y + ' ' + mx + ',' + t.y + ' ' + t.x + ',' + t.y);
  line.setAttribute('class', 'link');
  line.setAttribute('stroke', getColor(s.kind));
  line.setAttribute('stroke-width', '1.5');
  line.setAttribute('marker-end', 'url(#arrow)');
  line.dataset.source = e.source;
  line.dataset.target = e.target;
  gEl.appendChild(line);
  edgeEls.push(line);
});

// ===== 繪製節點 =====
const nodeEls = new Map();
nodeMap.forEach((n) => {
  const circle = document.createElementNS(ns, 'circle');
  circle.setAttribute('cx', n.x);
  circle.setAttribute('cy', n.y);
  circle.setAttribute('r', '8');
  circle.setAttribute('fill', getColor(n.kind));
  circle.setAttribute('stroke', getColor(n.kind));
  circle.setAttribute('class', 'node-circle');
  circle.dataset.id = n.id;
  gEl.appendChild(circle);

  const label = document.createElementNS(ns, 'text');
  label.setAttribute('x', n.x + 14);
  label.setAttribute('y', n.y + 4);
  label.setAttribute('class', 'node-label');
  label.dataset.id = n.id;
  label.textContent = shortName(n.id);
  gEl.appendChild(label);

  nodeEls.set(n.id, { circle, label });

  circle.addEventListener('click', (ev) => {
    ev.stopPropagation();
    highlightNode(n.id);
    showInfo(n);
  });
});

function shortName(id) {
  const parts = id.split('/');
  return parts[parts.length - 1];
}

// ===== 高亮連鎖 =====
function highlightNode(id) {
  const related = new Set([id]);
  edgesData.forEach(e => {
    if (e.source === id) related.add(e.target);
    if (e.target === id) related.add(e.source);
  });

  nodeEls.forEach((els, nid) => {
    if (related.has(nid)) {
      els.circle.classList.remove('dimmed');
      els.circle.classList.toggle('highlight', nid === id);
      els.label.classList.remove('dimmed');
    } else {
      els.circle.classList.add('dimmed');
      els.circle.classList.remove('highlight');
      els.label.classList.add('dimmed');
    }
  });
  edgeEls.forEach(el => {
    if (el.dataset.source === id || el.dataset.target === id) {
      el.classList.add('highlight');
      el.classList.remove('dimmed');
    } else {
      el.classList.add('dimmed');
      el.classList.remove('highlight');
    }
  });
}

function clearHighlight() {
  nodeEls.forEach(els => {
    els.circle.classList.remove('dimmed', 'highlight');
    els.label.classList.remove('dimmed');
  });
  edgeEls.forEach(el => {
    el.classList.remove('dimmed', 'highlight');
  });
  document.getElementById('info').style.display = 'none';
}

// ===== 資訊面板 =====
function showInfo(n) {
  const info = document.getElementById('info');
  const ups = edgesData.filter(e => e.target === n.id);
  const downs = edgesData.filter(e => e.source === n.id);
  const cols = colLineage.filter(c => c.table === n.id);

  let html =
    '<h3>' + shortName(n.id) + '</h3>' +
    '<div class="detail"><strong>ID:</strong> ' + n.id + '</div>' +
    '<div class="detail"><strong>類型:</strong> ' + n.kind + '</div>' +
    '<div class="detail"><strong>上游 (' + ups.length + '):</strong> ' +
      (ups.map(e => shortName(e.source)).join(', ') || '無') + '</div>' +
    '<div class="detail"><strong>下游 (' + downs.length + '):</strong> ' +
      (downs.map(e => shortName(e.target)).join(', ') || '無') + '</div>';

  if (cols.length > 0) {
    html += '<div class="detail" style="margin-top:8px"><strong>欄位 Lineage:</strong></div>';
    html += '<table style="width:100%;font-size:11px;margin-top:4px;border-collapse:collapse">';
    html += '<tr style="color:#6c7ae0;border-bottom:1px solid #2a2d3a"><td>欄位</td><td>轉換</td><td>來源</td></tr>';
    cols.forEach(c => {
      const src = c.sources.map(s => s.table ? s.table.split('.').pop() + '.' + s.column : s.column).join(', ') || '—';
      const trColor = c.transform.includes('()') ? '#e0a356' : (c.transform === 'expression' ? '#e06c8a' : '#888');
      html += '<tr style="border-bottom:1px solid #1a1c28">' +
        '<td style="padding:2px 4px;color:#ccc">' + c.column + '</td>' +
        '<td style="padding:2px 4px;color:' + trColor + '">' + c.transform + '</td>' +
        '<td style="padding:2px 4px;color:#888">' + src + '</td></tr>';
    });
    html += '</table>';
  }

  info.style.display = 'block';
  info.innerHTML = html;
}

svg.addEventListener('click', (e) => {
  if (e.target === svg || e.target === gEl) clearHighlight();
});

// ===== 搜尋 =====
document.getElementById('searchInput').addEventListener('input', function() {
  const q = this.value.toLowerCase();
  if (!q) { clearHighlight(); return; }
  const match = [...nodeMap.keys()].find(id => id.toLowerCase().includes(q));
  if (match) {
    highlightNode(match);
    showInfo(nodeMap.get(match));
  }
});

// ===== Zoom & Pan =====
let scale = 1, tx = 0, ty = 0;
function updateTransform() {
  gEl.setAttribute('transform', 'translate(' + tx + ',' + ty + ') scale(' + scale + ')');
}
svg.addEventListener('wheel', (e) => {
  e.preventDefault();
  const rect = svg.getBoundingClientRect();
  const mx = e.clientX - rect.left;
  const my = e.clientY - rect.top;
  const factor = e.deltaY > 0 ? 0.92 : 1.08;
  const newScale = Math.max(0.1, Math.min(5, scale * factor));
  tx = mx - (mx - tx) * (newScale / scale);
  ty = my - (my - ty) * (newScale / scale);
  scale = newScale;
  updateTransform();
});
let dragging = false, lastX, lastY;
svg.addEventListener('mousedown', (e) => {
  if (e.target.classList.contains('node-circle')) return;
  dragging = true; lastX = e.clientX; lastY = e.clientY;
  svg.style.cursor = 'grabbing';
});
svg.addEventListener('mousemove', (e) => {
  if (!dragging) return;
  tx += e.clientX - lastX; ty += e.clientY - lastY;
  lastX = e.clientX; lastY = e.clientY;
  updateTransform();
});
svg.addEventListener('mouseup', () => { dragging = false; svg.style.cursor = 'default'; });
svg.addEventListener('mouseleave', () => { dragging = false; });

// 初始 fit-to-view
const allX = [...nodeMap.values()].map(n => n.x);
const allY = [...nodeMap.values()].map(n => n.y);
if (allX.length > 0) {
  const minX = Math.min(...allX) - 60, maxX = Math.max(...allX) + 180;
  const minY = Math.min(...allY) - 40, maxY = Math.max(...allY) + 40;
  const gW = maxX - minX, gH = maxY - minY;
  scale = Math.min(width / gW, (height - 80) / gH, 1.5) * 0.85;
  tx = (width - gW * scale) / 2 - minX * scale;
  ty = (height - gH * scale) / 2 - minY * scale + 30;
  updateTransform();
}
</script>
</body>
</html>"#;

/// The JavaScript string-literal form of a character: backslash, double quote and
/// newline escaped with a backslash.
pub open spec fn escape_char(c: char) -> Seq<char> {
    if c == '\\' {
        seq!['\\', '\\']
    } else if c == '"' {
        seq!['\\', '"']
    } else if c == '\n' {
        seq!['\\', 'n']
    } else {
        seq![c]
    }
}

/// `s` escaped for a JavaScript string literal.
pub open spec fn escaped(s: Seq<char>) -> Seq<char>
    decreases s.len(),
{
    if s.len() == 0 {
        Seq::empty()
    } else {
        escaped(s.drop_last()) + escape_char(s.last())
    }
}

/// Escapes backslashes, double quotes and newlines for a JavaScript string literal.
pub fn escape_js(s: &str) -> (r: String)
    ensures
        r@ == escaped(s@),
{
    let cs = chars_of(s);
    let mut out: Vec<char> = Vec::new();
    let mut i: usize = 0;
    proof {
        assert(cs@.take(0) =~= Seq::<char>::empty());
    }
    while i < cs.len()
        invariant
            cs@ == s@,
            i <= cs@.len(),
            out@ == escaped(cs@.take(i as int)),
        decreases cs@.len() - i,
    {
        let c = cs[i];
        let ghost before = out@;
        if c == '\\' {
            out.push('\\');
            out.push('\\');
        } else if c == '"' {
            out.push('\\');
            out.push('"');
        } else if c == '\n' {
            out.push('\\');
            out.push('n');
        } else {
            out.push(c);
        }
        proof {
            assert(cs@.take(i + 1).drop_last() =~= cs@.take(i as int));
            assert(cs@.take(i + 1).last() == c);
            assert(out@ =~= before + escape_char(c));
        }
        i = i + 1;
    }
    proof {
        assert(cs@.take(i as int) =~= cs@);
    }
    string_from_chars(out.as_slice())
}

/// Parts joined with commas.
pub open spec fn join_commas(parts: Seq<Seq<char>>) -> Seq<char>
    decreases parts.len(),
{
    if parts.len() == 0 {
        Seq::empty()
    } else if parts.len() == 1 {
        parts[0]
    } else {
        join_commas(parts.drop_last()) + ","@ + parts.last()
    }
}

/// The JSON object of a node.
pub open spec fn node_json(n: NodeView) -> Seq<char> {
    "{\"id\":\""@ + escaped(n.id) + "\",\"kind\":\""@ + escaped(kind_label(n.kind)) + "\"}"@
}

/// The JSON object of an edge.
pub open spec fn edge_json(e: EdgeView) -> Seq<char> {
    "{\"source\":\""@ + escaped(e.source) + "\",\"target\":\""@ + escaped(e.target) + "\",\"relation\":\""@
        + escaped(relation_label(e.relation)) + "\"}"@
}

/// The JSON object of an upstream column; its table is `null` when unknown.
pub open spec fn source_json(s: SourceView) -> Seq<char> {
    "{\"table\":"@ + match s.table {
        Some(t) => "\""@ + escaped(t) + "\""@,
        None => "null"@,
    } + ",\"column\":\""@ + escaped(s.column) + "\"}"@
}

/// The JSON object of a column lineage.
pub open spec fn lineage_json(l: LineageView) -> Seq<char> {
    "{\"table\":\""@ + escaped(l.target_table) + "\",\"column\":\""@ + escaped(l.target_column)
        + "\",\"transform\":\""@ + escaped(transform_label(l.transform)) + "\",\"sources\":["@
        + join_commas(l.source_columns.map_values(|s: SourceView| source_json(s))) + "],\"expr\":\""@
        + escaped(l.expression) + "\"}"@
}

/// The page of a graph and its column lineage: the template with the JSON lists of
/// nodes, edges and column lineages in their places.
pub open spec fn graph_page(ns: Seq<NodeView>, es: Seq<EdgeView>, ls: Seq<LineageView>) -> Seq<char> {
    HTML_HEAD@ + join_commas(ns.map_values(|n: NodeView| node_json(n))) + HTML_AFTER_NODES@
        + join_commas(es.map_values(|e: EdgeView| edge_json(e))) + HTML_AFTER_EDGES@
        + join_commas(ls.map_values(|l: LineageView| lineage_json(l))) + HTML_TAIL@
}

} // verus!

verus! {

proof fn lemma_take_push<A>(s: Seq<A>, i: int)
    requires
        0 <= i < s.len(),
    ensures
        s.take(i + 1) == s.take(i).push(s[i]),
{
    assert(s.take(i + 1) =~= s.take(i).push(s[i]));
}

/// Joins parts with commas.
fn join_with_commas(parts: &Vec<String>) -> (r: String)
    ensures
        r@ == join_commas(crate::node::strings_view(parts@)),
{
    let ghost sv = crate::node::strings_view(parts@);
    let mut r = String::new();
    let mut i: usize = 0;
    proof {
        assert(sv.take(0) =~= Seq::<Seq<char>>::empty());
    }
    while i < parts.len()
        invariant
            i <= parts@.len(),
            sv == crate::node::strings_view(parts@),
            r@ == join_commas(sv.take(i as int)),
        decreases parts@.len() - i,
    {
        proof {
            assert(sv.take(i + 1).drop_last() =~= sv.take(i as int));
            assert(sv.take(i + 1).last() == parts@[i as int]@);
        }
        if i > 0 {
            r.append(",");
        }
        r.append(parts[i].as_str());
        proof {
            if i == 0 {
                assert(r@ =~= sv.take(1)[0]);
            }
        }
        i = i + 1;
    }
    proof {
        assert(sv.take(i as int) =~= sv);
    }
    r
}

fn node_json_string(n: &Node) -> (r: String)
    ensures
        r@ == node_json(n@),
{
    let mut r = String::new();
    r.append("{\"id\":\"");
    r.append(escape_js(n.id.0.as_str()).as_str());
    r.append("\",\"kind\":\"");
    r.append(escape_js(n.kind.label()).as_str());
    r.append("\"}");
    r
}

fn edge_json_string(e: &LineageEdge) -> (r: String)
    ensures
        r@ == edge_json(e@),
{
    let mut r = String::new();
    r.append("{\"source\":\"");
    r.append(escape_js(e.source.0.as_str()).as_str());
    r.append("\",\"target\":\"");
    r.append(escape_js(e.target.0.as_str()).as_str());
    r.append("\",\"relation\":\"");
    r.append(escape_js(e.relation.label()).as_str());
    r.append("\"}");
    r
}

fn source_json_string(s: &SourceColumn) -> (r: String)
    ensures
        r@ == source_json(s@),
{
    let mut r = String::new();
    r.append("{\"table\":");
    match &s.table {
        Some(t) => {
            r.append("\"");
            r.append(escape_js(t.as_str()).as_str());
            r.append("\"");
        },
        None => {
            r.append("null");
        },
    }
    r.append(",\"column\":\"");
    r.append(escape_js(s.column.as_str()).as_str());
    r.append("\"}");
    r
}

fn lineage_json_string(l: &ColumnLineage) -> (r: String)
    ensures
        r@ == lineage_json(l@),
{
    let mut sources: Vec<String> = Vec::new();
    let mut i: usize = 0;
    while i < l.source_columns.len()
        invariant
            i <= l.source_columns@.len(),
            crate::node::strings_view(sources@) == sources_view(l.source_columns@).map_values(|s: SourceView| source_json(s)).take(i as int),
        decreases l.source_columns@.len() - i,
    {
        let ghost before = sources@;
        let piece = source_json_string(&l.source_columns[i]);
        let ghost pv = piece@;
        sources.push(piece);
        proof {
            assert(crate::node::strings_view(sources@) =~= crate::node::strings_view(before).push(pv));
            lemma_take_push(sources_view(l.source_columns@).map_values(|s: SourceView| source_json(s)), i as int);
            assert(crate::node::strings_view(sources@) =~= sources_view(l.source_columns@).map_values(|s: SourceView| source_json(s)).take(i + 1));
        }
        i = i + 1;
    }
    proof {
        assert(sources_view(l.source_columns@).map_values(|s: SourceView| source_json(s)).take(i as int) =~= sources_view(l.source_columns@).map_values(|s: SourceView| source_json(s)));
    }
    let mut r = String::new();
    r.append("{\"table\":\"");
    r.append(escape_js(l.target_table.as_str()).as_str());
    r.append("\",\"column\":\"");
    r.append(escape_js(l.target_column.as_str()).as_str());
    r.append("\",\"transform\":\"");
    r.append(escape_js(l.transform.to_string().as_str()).as_str());
    r.append("\",\"sources\":[");
    r.append(join_with_commas(&sources).as_str());
    r.append("],\"expr\":\"");
    r.append(escape_js(l.expression.as_str()).as_str());
    r.append("\"}");
    r
}

/// Renders a graph and its column-level lineage as a self-contained HTML page that
/// draws the graph in the browser.
pub fn render_graph_html(graph: &LineageGraph, col_lineage: &Vec<ColumnLineage>) -> (r: String)
    requires
        graph.wf(),
    ensures
        r@ == graph_page(
            graph.node_views(),
            graph.edge_seq().map_values(|e: (int, int, LineageEdge)| e.2@),
            lineages_view(col_lineage@),
        ),
{
    let nodes = graph.nodes();
    let ghost ns = graph.node_views();
    let mut nj: Vec<String> = Vec::new();
    let mut i: usize = 0;
    while i < nodes.len()
        invariant
            graph.wf(),
            ns == graph.node_views(),
            nodes@.len() == graph.node_seq().len(),
            forall|j: int| 0 <= j < nodes@.len() ==> *nodes@[j] == graph.node_seq()[j],
            i <= nodes@.len(),
            crate::node::strings_view(nj@) == ns.map_values(|n: NodeView| node_json(n)).take(i as int),
        decreases nodes@.len() - i,
    {
        let piece = node_json_string(nodes[i]);
        let ghost before = nj@;
        let ghost pv = piece@;
        nj.push(piece);
        proof {
            assert(crate::node::strings_view(nj@) =~= crate::node::strings_view(before).push(pv));
            lemma_take_push(ns.map_values(|n: NodeView| node_json(n)), i as int);
            assert(ns[i as int] == nodes@[i as int]@);
            assert(crate::node::strings_view(nj@) =~= ns.map_values(|n: NodeView| node_json(n)).take(i + 1));
        }
        i = i + 1;
    }
    proof {
        assert(ns.map_values(|n: NodeView| node_json(n)).take(i as int) =~= ns.map_values(|n: NodeView| node_json(n)));
    }
    let edges = graph.edges();
    let ghost es = graph.edge_seq().map_values(|e: (int, int, LineageEdge)| e.2@);
    let mut ej: Vec<String> = Vec::new();
    let mut k: usize = 0;
    while k < edges.len()
        invariant
            graph.wf(),
            es == graph.edge_seq().map_values(|e: (int, int, LineageEdge)| e.2@),
            edges@.len() == graph.edge_seq().len(),
            forall|j: int| 0 <= j < edges@.len() ==> *edges@[j] == graph.edge_seq()[j].2,
            k <= edges@.len(),
            crate::node::strings_view(ej@) == es.map_values(|e: EdgeView| edge_json(e)).take(k as int),
        decreases edges@.len() - k,
    {
        let piece = edge_json_string(edges[k]);
        let ghost before = ej@;
        let ghost pv = piece@;
        ej.push(piece);
        proof {
            assert(crate::node::strings_view(ej@) =~= crate::node::strings_view(before).push(pv));
            lemma_take_push(es.map_values(|e: EdgeView| edge_json(e)), k as int);
            assert(es[k as int] == edges@[k as int]@);
            assert(crate::node::strings_view(ej@) =~= es.map_values(|e: EdgeView| edge_json(e)).take(k + 1));
        }
        k = k + 1;
    }
    proof {
        assert(es.map_values(|e: EdgeView| edge_json(e)).take(k as int) =~= es.map_values(|e: EdgeView| edge_json(e)));
    }
    let ghost ls = lineages_view(col_lineage@);
    let mut lj: Vec<String> = Vec::new();
    let mut c: usize = 0;
    while c < col_lineage.len()
        invariant
            ls == lineages_view(col_lineage@),
            c <= col_lineage@.len(),
            crate::node::strings_view(lj@) == ls.map_values(|l: LineageView| lineage_json(l)).take(c as int),
        decreases col_lineage@.len() - c,
    {
        let piece = lineage_json_string(&col_lineage[c]);
        let ghost before = lj@;
        let ghost pv = piece@;
        lj.push(piece);
        proof {
            assert(crate::node::strings_view(lj@) =~= crate::node::strings_view(before).push(pv));
            lemma_take_push(ls.map_values(|l: LineageView| lineage_json(l)), c as int);
            assert(crate::node::strings_view(lj@) =~= ls.map_values(|l: LineageView| lineage_json(l)).take(c + 1));
        }
        c = c + 1;
    }
    proof {
        assert(ls.map_values(|l: LineageView| lineage_json(l)).take(c as int) =~= ls.map_values(|l: LineageView| lineage_json(l)));
    }
    write_html(join_with_commas(&nj).as_str(), join_with_commas(&ej).as_str(), join_with_commas(&lj).as_str())
}

/// The page with the given JSON lists of nodes, edges and column lineages.
pub fn write_html(nodes_json: &str, edges_json: &str, col_lineage_json: &str) -> (r: String)
    ensures
        r@ == HTML_HEAD@ + nodes_json@ + HTML_AFTER_NODES@ + edges_json@ + HTML_AFTER_EDGES@ + col_lineage_json@ + HTML_TAIL@,
{
    let mut r = String::new();
    r.append(HTML_HEAD);
    r.append(nodes_json);
    r.append(HTML_AFTER_NODES);
    r.append(edges_json);
    r.append(HTML_AFTER_EDGES);
    r.append(col_lineage_json);
    r.append(HTML_TAIL);
    r
}

} // verus!

verus! {

/// Escaped text holds no line break, so that it fits in a one-line JavaScript
/// string literal.
pub proof fn law_escaped_one_line(s: Seq<char>)
    ensures
        !escaped(s).contains('\n'),
    decreases s.len(),
{
    if s.len() > 0 {
        law_escaped_one_line(s.drop_last());
        let a = escaped(s.drop_last());
        let b = escape_char(s.last());
        assert(!b.contains('\n'));
        if (a + b).contains('\n') {
            let k = choose|k: int| 0 <= k < (a + b).len() && (a + b)[k] == '\n';
            if k < a.len() {
                assert(a[k] == '\n');
            } else {
                assert(b[k - a.len()] == '\n');
            }
        }
    }
}


/// Reads escaped text back, left to right: a backslash and the character after it
/// stand for that character (`n` for a line break); any other character stands
/// for itself.
pub open spec fn unescaped(t: Seq<char>) -> Seq<char>
    decreases t.len(),
{
    if t.len() == 0 {
        Seq::empty()
    } else if t[0] == '\\' && t.len() >= 2 {
        seq![if t[1] == 'n' { '\n' } else { t[1] }] + unescaped(t.subrange(2, t.len() as int))
    } else {
        seq![t[0]] + unescaped(t.subrange(1, t.len() as int))
    }
}

/// Escaping a concatenation escapes each part.
proof fn lemma_escaped_concat(a: Seq<char>, b: Seq<char>)
    ensures
        escaped(a + b) == escaped(a) + escaped(b),
    decreases b.len(),
{
    if b.len() == 0 {
        assert(a + b =~= a);
        assert(escaped(a) + escaped(b) =~= escaped(a));
    } else {
        assert((a + b).drop_last() =~= a + b.drop_last());
        assert((a + b).last() == b.last());
        lemma_escaped_concat(a, b.drop_last());
        assert(escaped(a + b) =~= escaped(a) + escaped(b));
    }
}

/// Reading back the escape of one character gives that character.
proof fn lemma_unescape_char(c: char, t: Seq<char>)
    ensures
        unescaped(escape_char(c) + t) == seq![c] + unescaped(t),
{
    let u = escape_char(c) + t;
    if c == '\\' || c == '"' || c == '\n' {
        assert(u[0] == '\\');
        assert(u.subrange(2, u.len() as int) =~= t);
    } else {
        assert(u[0] == c);
        assert(u.subrange(1, u.len() as int) =~= t);
    }
}

/// Escaping loses nothing: reading escaped text back gives the original text.
pub proof fn law_escape_round_trip(s: Seq<char>)
    ensures
        unescaped(escaped(s)) == s,
    decreases s.len(),
{
    if s.len() > 0 {
        let rest = s.subrange(1, s.len() as int);
        assert(s =~= seq![s[0]] + rest);
        lemma_escaped_concat(seq![s[0]], rest);
        let one = seq![s[0]];
        assert(one.drop_last() =~= Seq::<char>::empty());
        assert(escaped(Seq::<char>::empty()) == Seq::<char>::empty());
        assert(escaped(one) == escaped(one.drop_last()) + escape_char(one.last()));
        assert(escaped(one) =~= escape_char(s[0]));
        law_escape_round_trip(rest);
        lemma_unescape_char(s[0], escaped(rest));
        assert(unescaped(escaped(s)) =~= seq![s[0]] + rest);
    }
}


/// The number of backslashes just before position `i` of `t`.
pub open spec fn backslashes_before(t: Seq<char>, i: int) -> nat
    decreases i,
{
    if i <= 0 || i > t.len() || t[i - 1] != '\\' {
        0
    } else {
        1 + backslashes_before(t, i - 1)
    }
}

/// Every double quote of `t` follows an odd run of backslashes, so that it is
/// escaped and does not end a JavaScript string literal.
pub open spec fn quotes_escaped(t: Seq<char>) -> bool {
    forall|k: int| 0 <= k < t.len() && t[k] == '"' ==> #[trigger] backslashes_before(t, k) % 2 == 1
}

/// Appending text does not change the backslashes before a position of the prefix.
proof fn lemma_backslashes_prefix(a: Seq<char>, b: Seq<char>, k: int)
    requires
        0 <= k <= a.len(),
    ensures
        backslashes_before(a + b, k) == backslashes_before(a, k),
    decreases k,
{
    if k > 0 {
        lemma_backslashes_prefix(a, b, k - 1);
        assert((a + b)[k - 1] == a[k - 1]);
    }
}

/// Escaped text has its double quotes escaped and ends in an even run of
/// backslashes.
proof fn lemma_escaped_quotes(s: Seq<char>)
    ensures
        quotes_escaped(escaped(s)),
        backslashes_before(escaped(s), escaped(s).len() as int) % 2 == 0,
    decreases s.len(),
{
    if s.len() > 0 {
        let t = escaped(s.drop_last());
        let c = s.last();
        let b = escape_char(c);
        let u = t + b;
        let n = t.len() as int;
        assert(escaped(s) == u);
        lemma_escaped_quotes(s.drop_last());
        lemma_backslashes_prefix(t, b, n);
        assert(u[n] == b[0]);
        if b.len() == 2 {
            assert(u[n + 1] == b[1]);
            assert(b[0] == '\\');
            assert(backslashes_before(u, n + 1) == 1 + backslashes_before(u, n));
        }
        assert forall|k: int| 0 <= k < u.len() && u[k] == '"' implies #[trigger] backslashes_before(u, k) % 2 == 1 by {
            if k < n {
                lemma_backslashes_prefix(t, b, k);
                assert(u[k] == t[k]);
                assert(backslashes_before(t, k) % 2 == 1);
            } else if k == n {
                assert(c != '"');
                assert(b[0] != '"');
            } else {
                assert(k == n + 1);
                assert(c == '"');
            }
        }
        if b.len() == 2 {
            if b[1] == '\\' {
                assert(backslashes_before(u, n + 2) == 1 + backslashes_before(u, n + 1));
            } else {
                assert(backslashes_before(u, n + 2) == 0);
            }
        } else {
            assert(c != '\\');
            assert(backslashes_before(u, n + 1) == 0);
        }
    }
}

/// In escaped text every double quote follows an odd run of backslashes, so none
/// of them ends the JavaScript string literal it is written into.
pub proof fn law_escaped_quotes_escaped(s: Seq<char>)
    ensures
        quotes_escaped(escaped(s)),
{
    lemma_escaped_quotes(s);
}

} // verus!
