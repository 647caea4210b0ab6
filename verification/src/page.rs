//! The page of the HTML report: dark, monospace, terminal-tool feel.
//!
//! The page is a single file: all measurement data is inlined as JSON, so it opens with no network
//! access beyond the Chart.js CDN script.
use vstd::prelude::*;

verus! {

/// The page of the given records, as a JSON array, rendered at the given time.
pub open spec fn page_text(time: Seq<char>, data: Seq<char>) -> Seq<char> {
    PAGE_HEAD@ + time + PAGE_BODY@ + data + PAGE_SCRIPT@
}

/// The page of the given records, as a JSON array, rendered at the given time.
pub fn render_page(time: &str, data: &str) -> (r: String)
    ensures
        r@ == page_text(time@, data@),
{
    let mut r = String::from_str(PAGE_HEAD);
    r.append(time);
    r.append(PAGE_BODY);
    r.append(data);
    r.append(PAGE_SCRIPT);
    r
}

/// The page up to the time of rendering.
pub const PAGE_HEAD: &'static str = r####"<!doctype html>
<html lang="en">
<head>
<meta charset="utf-8">
<meta name="viewport" content="width=device-width, initial-scale=1">
<title>zkbench report</title>
<script src="https://cdn.jsdelivr.net/npm/chart.js@4.4.4/dist/chart.umd.min.js"></script>
<style>
  :root {
    --bg: #0d1117; --panel: #161b22; --border: #30363d;
    --text: #c9d1d9; --muted: #8b949e; --accent: #58a6ff;
    --witness: #58a6ff; --prove: #f85149; --mem: #bc8cff; --gates: #3fb950;
    --warn: #f0883e;
  }
  * { box-sizing: border-box; }
  body {
    margin: 0; padding: 32px 20px; background: var(--bg); color: var(--text);
    font-family: 'JetBrains Mono','SFMono-Regular',ui-monospace,Consolas,monospace;
    line-height: 1.5;
  }
  .wrap { max-width: 1100px; margin: 0 auto; }
  h1 { margin: 0 0 4px; font-size: 22px; }
  h1 .dim { color: var(--muted); font-weight: normal; }
  .sub { color: var(--muted); font-size: 13px; margin-bottom: 6px; }
  .versions { font-size: 13px; margin-bottom: 4px; }
  .badge {
    display: inline-block; padding: 2px 8px; border-radius: 6px;
    background: var(--panel); border: 1px solid var(--border); font-size: 12px;
  }
  .warn { color: var(--warn); border-color: var(--warn); }
  section { margin-top: 28px; }
  section h2 {
    font-size: 14px; color: var(--muted); text-transform: uppercase;
    letter-spacing: 0.06em; margin: 0 0 10px; font-weight: 600;
  }
  table { width: 100%; border-collapse: collapse; font-size: 13px; }
  th, td { text-align: right; padding: 8px 12px; border-bottom: 1px solid var(--border); }
  th:first-child, td:first-child { text-align: left; }
  th { color: var(--muted); font-weight: 600; }
  tbody tr:hover { background: var(--panel); }
  .grid { display: grid; grid-template-columns: 1fr 1fr; gap: 16px; }
  @media (max-width: 720px) { .grid { grid-template-columns: 1fr; } }
  .card {
    background: var(--panel); border: 1px solid var(--border);
    border-radius: 10px; padding: 14px 16px;
  }
  .card h3 { margin: 0 0 10px; font-size: 13px; font-weight: 600; }
  .chart-box { position: relative; height: 260px; }
  footer { margin-top: 32px; color: var(--muted); font-size: 12px; text-align: center; }
  code { color: var(--accent); }
</style>
</head>
<body>
<div class="wrap">
  <h1>zkbench <span class="dim">report</span></h1>
  <div class="sub">generated "####;

/// The page from the time of rendering up to the records.
pub const PAGE_BODY: &'static str = r####"</div>
  <div class="versions"><span id="versions" class="badge"></span> <span id="mixed"></span></div>

  <section>
    <h2>Comparison</h2>
    <table>
      <thead><tr>
        <th>circuit</th><th>constraints</th><th>witness (ms)</th>
        <th>prove (ms)</th><th>prove (MB)</th>
      </tr></thead>
      <tbody id="cmp"></tbody>
    </table>
  </section>

  <section>
    <h2>Charts</h2>
    <div class="grid">
      <div class="card"><h3>prove time (ms)</h3><div class="chart-box"><canvas id="cProveTime"></canvas></div></div>
      <div class="card"><h3>prove memory (MB)</h3><div class="chart-box"><canvas id="cProveMem"></canvas></div></div>
      <div class="card"><h3>constraints vs prove time</h3><div class="chart-box"><canvas id="cScatter"></canvas></div></div>
      <div class="card"><h3>time breakdown (witness + prove)</h3><div class="chart-box"><canvas id="cStacked"></canvas></div></div>
    </div>
  </section>

  <section>
    <h2>Toolchain per circuit</h2>
    <table>
      <thead><tr><th>circuit</th><th>nargo</th><th>bb</th><th>backend</th><th>measured at</th></tr></thead>
      <tbody id="tc"></tbody>
    </table>
  </section>

  <footer>zkbench &middot; self-contained report &middot; data inlined, no external fetch</footer>
</div>

<script>
const DATA = "####;

/// The page after the records.
pub const PAGE_SCRIPT: &'static str = r####";
// Defensive: ensure ascending constraint order for every view.
DATA.sort((a, b) => a.constraints - b.constraints);
const labels = DATA.map(d => d.circuit);

// ---- header: distinct toolchain versions (highlight if mixed) ----
const nargos = [...new Set(DATA.map(d => d.tool_versions.nargo))];
const bbs = [...new Set(DATA.map(d => d.tool_versions.bb))];
document.getElementById('versions').textContent =
  'nargo: ' + nargos.join(', ') + '  ·  bb: ' + bbs.join(', ');
if (nargos.length > 1 || bbs.length > 1) {
  const m = document.getElementById('mixed');
  m.className = 'badge warn';
  m.textContent = '⚠ mixed toolchain versions';
}

// ---- comparison table ----
const cmp = document.getElementById('cmp');
DATA.forEach(d => {
  const tr = document.createElement('tr');
  tr.innerHTML =
    '<td>' + d.circuit + '</td>' +
    '<td>' + d.constraints.toLocaleString() + '</td>' +
    '<td>' + d.witness_time_ms + '</td>' +
    '<td>' + d.prove_time_ms + '</td>' +
    '<td>' + d.peak_mem_mb.prove.toFixed(2) + '</td>';
  cmp.appendChild(tr);
});

// ---- toolchain table ----
const tc = document.getElementById('tc');
DATA.forEach(d => {
  const tr = document.createElement('tr');
  tr.innerHTML =
    '<td>' + d.circuit + '</td>' +
    '<td>' + d.tool_versions.nargo + '</td>' +
    '<td>' + d.tool_versions.bb + '</td>' +
    '<td>' + d.backend + '</td>' +
    '<td>' + d.timestamp + '</td>';
  tc.appendChild(tr);
});

// ---- Chart.js dark defaults ----
const css = getComputedStyle(document.documentElement);
const c = n => css.getPropertyValue(n).trim();
Chart.defaults.color = c('--text');
Chart.defaults.font.family = "'JetBrains Mono','SFMono-Regular',Consolas,monospace";
const gridColor = c('--border');
const axis = (xTitle, yTitle) => ({
  x: { grid: { color: gridColor }, title: { display: !!xTitle, text: xTitle } },
  y: { grid: { color: gridColor }, title: { display: !!yTitle, text: yTitle } },
});

// prove time — horizontal bar
new Chart(document.getElementById('cProveTime'), {
  type: 'bar',
  data: { labels, datasets: [{ data: DATA.map(d => d.prove_time_ms), backgroundColor: c('--witness') }] },
  options: { indexAxis: 'y', responsive: true, maintainAspectRatio: false,
    plugins: { legend: { display: false } }, scales: axis('ms', null) },
});

// prove memory — horizontal bar
new Chart(document.getElementById('cProveMem'), {
  type: 'bar',
  data: { labels, datasets: [{ data: DATA.map(d => d.peak_mem_mb.prove), backgroundColor: c('--mem') }] },
  options: { indexAxis: 'y', responsive: true, maintainAspectRatio: false,
    plugins: { legend: { display: false } }, scales: axis('MB', null) },
});

// constraints vs prove time — scatter (relationship of size to time)
new Chart(document.getElementById('cScatter'), {
  type: 'scatter',
  data: { datasets: [{
    data: DATA.map(d => ({ x: d.constraints, y: d.prove_time_ms, circuit: d.circuit })),
    backgroundColor: c('--gates'), pointRadius: 6, pointHoverRadius: 8,
  }] },
  options: { responsive: true, maintainAspectRatio: false,
    plugins: { legend: { display: false },
      tooltip: { callbacks: { label: ctx =>
        ctx.raw.circuit + ': ' + ctx.raw.x.toLocaleString() + ' gates, ' + ctx.raw.y + ' ms' } } },
    scales: axis('constraints', 'prove time (ms)') },
});

// witness + prove — stacked horizontal bar
new Chart(document.getElementById('cStacked'), {
  type: 'bar',
  data: { labels, datasets: [
    { label: 'witness', data: DATA.map(d => d.witness_time_ms), backgroundColor: c('--witness') },
    { label: 'prove',   data: DATA.map(d => d.prove_time_ms),   backgroundColor: c('--prove') },
  ] },
  options: { indexAxis: 'y', responsive: true, maintainAspectRatio: false,
    plugins: { legend: { position: 'bottom' } },
    scales: { x: { stacked: true, grid: { color: gridColor }, title: { display: true, text: 'ms' } },
              y: { stacked: true, grid: { color: gridColor } } } },
});
</script>
</body>
</html>
"####;

} // verus!
