//! The control-flow graph pane: a DOT description of a body for the layout
//! engine, and the overlay that marks the current position on the rendered graph.
use vstd::prelude::*;
use crate::text::{decimal, html_escaped, push_decimal, escape_html};

verus! {

/// A program point: a block and a statement index inside it. A statement
/// index equal to the block's statement count stands for its terminator.
#[derive(Clone, Copy, Debug, PartialEq, Eq, Structural)]
pub struct Location {
    pub block: usize,
    pub statement_index: usize,
}

/// One statement: its textual form, whether it is shown only as a
/// placeholder, and its source span (an index into the frame's span table).
pub struct Statement {
    pub text: String,
    pub hidden: bool,
    pub span: usize,
}

/// How a block ends, with its successor blocks.
pub enum TerminatorKind {
    Goto { target: usize },
    SwitchInt { targets: Vec<usize> },
    Drop { target: usize, unwind: Option<usize> },
    DropAndReplace { target: usize, unwind: Option<usize> },
    Call { destination: Option<usize>, cleanup: Option<usize> },
    /// Any other terminator, with its successors in order; none of them is
    /// coloured as taken.
    Other { successors: Vec<usize> },
}

/// A terminator: its kind, its textual head (kind and operands, without the
/// successor list), the labels of its successor edges in order, and its
/// source span.
pub struct Terminator {
    pub kind: TerminatorKind,
    pub head: String,
    pub labels: Vec<String>,
    pub span: usize,
}

/// A basic block: its statements and its terminator.
pub struct BasicBlockData {
    pub statements: Vec<Statement>,
    pub terminator: Terminator,
}

/// A control-flow unit: its blocks, indexed by position, and the span of the
/// whole unit.
pub struct Body {
    pub blocks: Vec<BasicBlockData>,
    pub span: usize,
}

/// The program points that carry a breakpoint.
pub struct Breakpoints {
    pub locations: Vec<Location>,
}

/// Where execution stands in the frame being shown.
#[derive(Clone, Copy, Debug, PartialEq, Eq, Structural)]
pub enum FramePosition {
    At(Location),
    Unwinding,
}

/// Whether a successor is reached on the normal path or while unwinding.
#[derive(Clone, Copy, Debug, PartialEq, Eq, Structural)]
pub enum EdgeRole {
    Normal,
    Unwind,
}

pub open spec fn opt_seq(o: Option<usize>) -> Seq<usize> {
    match o {
        Some(t) => seq![t],
        None => Seq::empty(),
    }
}

/// Every successor of a terminator kind, in edge order.
pub open spec fn successors(k: TerminatorKind) -> Seq<usize> {
    match k {
        TerminatorKind::Goto { target } => seq![target],
        TerminatorKind::SwitchInt { targets } => targets@,
        TerminatorKind::Drop { target, unwind } => seq![target] + opt_seq(unwind),
        TerminatorKind::DropAndReplace { target, unwind } => seq![target] + opt_seq(unwind),
        TerminatorKind::Call { destination, cleanup } => opt_seq(destination) + opt_seq(cleanup),
        TerminatorKind::Other { successors } => successors@,
    }
}

pub open spec fn with_role(s: Seq<usize>, r: EdgeRole) -> Seq<(usize, EdgeRole)> {
    s.map_values(|t: usize| (t, r))
}

/// The successors that the current-position overlay colours, each with its role.
pub open spec fn taken_edges(k: TerminatorKind) -> Seq<(usize, EdgeRole)> {
    match k {
        TerminatorKind::Goto { target } => with_role(seq![target], EdgeRole::Normal),
        TerminatorKind::SwitchInt { targets } => with_role(targets@, EdgeRole::Normal),
        TerminatorKind::Drop { target, unwind } => with_role(seq![target], EdgeRole::Normal)
            + with_role(opt_seq(unwind), EdgeRole::Unwind),
        TerminatorKind::DropAndReplace { target, unwind } => with_role(seq![target], EdgeRole::Normal)
            + with_role(opt_seq(unwind), EdgeRole::Unwind),
        TerminatorKind::Call { destination, cleanup } => with_role(opt_seq(destination), EdgeRole::Normal)
            + with_role(opt_seq(cleanup), EdgeRole::Unwind),
        TerminatorKind::Other { .. } => Seq::empty(),
    }
}

impl Breakpoints {
    pub open spec fn contains(&self, loc: Location) -> bool {
        self.locations@.contains(loc)
    }

    /// Whether a breakpoint is set at exactly `loc`.
    pub fn breakpoint_exists(&self, loc: Location) -> (r: bool)
        ensures
            r == self.contains(loc),
    {
        let mut i: usize = 0;
        while i < self.locations.len()
            invariant
                i <= self.locations@.len(),
                forall|j: int| 0 <= j < i ==> self.locations@[j] != loc,
            decreases self.locations@.len() - i,
        {
            if self.locations[i] == loc {
                return true;
            }
            i = i + 1;
        }
        false
    }
}


/// The name of a block's node: `bb<index>`, or `promoted<tag>.<index>` inside
/// a promoted unit.
pub open spec fn node_name(promoted: Option<usize>, block: nat) -> Seq<char> {
    match promoted {
        Some(p) => "promoted"@ + decimal(p as nat) + "."@ + decimal(block),
        None => "bb"@ + decimal(block),
    }
}

/// One statement row of a node's table: a breakpoint indicator, then the
/// escaped statement text or the placeholder of a hidden statement.
pub open spec fn statement_row(bps: Breakpoints, block: usize, i: int, s: Statement) -> Seq<char> {
    (if bps.contains(Location { block, statement_index: i as usize }) {
        "+ "@
    } else {
        "&nbsp; "@
    }) + (if s.hidden {
        "&lt;+&gt;<br/>"@
    } else {
        html_escaped(s.text@) + "<br/>"@
    })
}

pub open spec fn statement_rows(bps: Breakpoints, block: usize, stmts: Seq<Statement>) -> Seq<Seq<char>> {
    Seq::new(stmts.len(), |i: int| statement_row(bps, block, i, stmts[i]))
}

/// The HTML-like table that labels a block's node: its name, its statements
/// (when it has any) and its terminator head.
pub open spec fn node_label(body: Body, bps: Breakpoints, promoted: Option<usize>, block: usize) -> Seq<char> {
    let data = body.blocks@[block as int];
    "<table border=\"0\" cellborder=\"1\" cellspacing=\"0\">"@
        + "<tr><td bgcolor=\"gray\" align=\"center\">"@ + node_name(promoted, block as nat) + "</td></tr>"@
        + (if data.statements@.len() == 0 {
            Seq::empty()
        } else {
            "<tr><td align=\"left\" balign=\"left\">"@
                + statement_rows(bps, block, data.statements@).flatten() + "</td></tr>"@
        })
        + "<tr><td align=\"left\">"@ + html_escaped(data.terminator.head@) + "</td></tr>"@
        + "</table>\n"@
}

/// The DOT line of a block's node.
pub open spec fn node_line(body: Body, bps: Breakpoints, promoted: Option<usize>, block: usize) -> Seq<char> {
    "    \""@ + node_name(promoted, block as nat) + "\" [shape=\"none\", label=<"@
        + node_label(body, bps, promoted, block) + ">];\n"@
}

/// One DOT line per block, in block order.
pub open spec fn node_lines(body: Body, bps: Breakpoints, promoted: Option<usize>) -> Seq<Seq<char>> {
    Seq::new(body.blocks@.len(), |b: int| node_line(body, bps, promoted, b as usize))
}

/// The label of the `i`-th successor edge; empty where the terminator gives none.
pub open spec fn edge_label(labels: Seq<String>, i: int) -> Seq<char> {
    if i < labels.len() {
        labels[i]@
    } else {
        Seq::empty()
    }
}

pub open spec fn edge_line(promoted: Option<usize>, source: nat, target: nat, label: Seq<char>) -> Seq<char> {
    "    \""@ + node_name(promoted, source) + "\" -> \""@ + node_name(promoted, target) + "\" [label=\""@ + label
        + "\"];\n"@
}

/// One DOT line per successor of a block, in successor order.
pub open spec fn edge_lines(body: Body, promoted: Option<usize>, source: usize) -> Seq<Seq<char>> {
    let t = body.blocks@[source as int].terminator;
    let succ = successors(t.kind);
    Seq::new(succ.len(), |i: int| edge_line(promoted, source as nat, succ[i] as nat, edge_label(t.labels@, i)))
}

pub open spec fn all_edge_lines(body: Body, promoted: Option<usize>) -> Seq<Seq<char>> {
    Seq::new(body.blocks@.len(), |b: int| edge_lines(body, promoted, b as usize).flatten())
}

pub open spec fn dot_header(promoted: Option<usize>) -> Seq<char> {
    (match promoted {
        Some(p) => "digraph promoted"@ + decimal(p as nat) + " {\n"@,
        None => "digraph Body {\n"@,
    }) + "    graph [fontname=\"monospace\"];\n"@ + "    node [fontname=\"monospace\"];\n"@
        + "    edge [fontname=\"monospace\"];\n"@
}

/// The whole DOT description of a body: the header, every node, every edge.
pub open spec fn dot_text(body: Body, bps: Breakpoints, promoted: Option<usize>) -> Seq<char> {
    dot_header(promoted) + node_lines(body, bps, promoted).flatten() + all_edge_lines(body, promoted).flatten()
        + "}\n"@
}

fn push_node_name(out: &mut String, promoted: Option<usize>, block: usize)
    ensures
        final(out)@ == old(out)@ + node_name(promoted, block as nat),
{
    match promoted {
        Some(p) => {
            out.append("promoted");
            push_decimal(out, p);
            out.append(".");
            push_decimal(out, block);
        },
        None => {
            out.append("bb");
            push_decimal(out, block);
        },
    }
}

fn write_node_label(out: &mut String, body: &Body, bps: &Breakpoints, promoted: Option<usize>, block: usize)
    requires
        block < body.blocks@.len(),
    ensures
        final(out)@ == old(out)@ + node_label(*body, *bps, promoted, block),
{
    let ghost start = old(out)@;
    let data = &body.blocks[block];
    out.append("<table border=\"0\" cellborder=\"1\" cellspacing=\"0\">");
    out.append("<tr><td bgcolor=\"gray\" align=\"center\">");
    push_node_name(out, promoted, block);
    out.append("</td></tr>");
    let ghost mid = out@;
    let ghost rows = statement_rows(*bps, block, data.statements@);
    if data.statements.len() > 0 {
        out.append("<tr><td align=\"left\" balign=\"left\">");
        let ghost rows_start = out@;
        let mut i: usize = 0;
        while i < data.statements.len()
            invariant
                i <= data.statements@.len(),
                data == body.blocks@[block as int],
                rows == statement_rows(*bps, block, data.statements@),
                out@ == rows_start + rows.take(i as int).flatten(),
            decreases data.statements@.len() - i,
        {
            let stmt = &data.statements[i];
            let ghost before = out@;
            if bps.breakpoint_exists(Location { block, statement_index: i }) {
                out.append("+ ");
            } else {
                out.append("&nbsp; ");
            }
            if stmt.hidden {
                out.append("&lt;+&gt;<br/>");
            } else {
                let esc = escape_html(stmt.text.as_str());
                out.append(esc.as_str());
                out.append("<br/>");
            }
            proof {
                assert(out@ =~= before + rows[i as int]);
                assert(rows.take(i + 1) =~= rows.take(i as int).push(rows[i as int]));
                rows.take(i as int).lemma_flatten_push(rows[i as int]);
            }
            i = i + 1;
        }
        assert(rows.take(i as int) =~= rows);
        out.append("</td></tr>");
    }
    out.append("<tr><td align=\"left\">");
    let head = escape_html(data.terminator.head.as_str());
    out.append(head.as_str());
    out.append("</td></tr>");
    out.append("</table>\n");
    assert(out@ =~= start + node_label(*body, *bps, promoted, block));
}

fn write_node(out: &mut String, body: &Body, bps: &Breakpoints, promoted: Option<usize>, block: usize)
    requires
        block < body.blocks@.len(),
    ensures
        final(out)@ == old(out)@ + node_line(*body, *bps, promoted, block),
{
    let ghost start = old(out)@;
    out.append("    \"");
    push_node_name(out, promoted, block);
    out.append("\" [shape=\"none\", label=<");
    write_node_label(out, body, bps, promoted, block);
    out.append(">];\n");
    assert(out@ =~= start + node_line(*body, *bps, promoted, block));
}

fn successor_list(kind: &TerminatorKind) -> (r: Vec<usize>)
    ensures
        r@ == successors(*kind),
{
    match kind {
        TerminatorKind::Goto { target } => vec![*target],
        TerminatorKind::SwitchInt { targets } => targets.clone(),
        TerminatorKind::Drop { target, unwind } | TerminatorKind::DropAndReplace { target, unwind } => {
            let mut r = vec![*target];
            if let Some(u) = unwind {
                r.push(*u);
            }
            assert(r@ =~= successors(*kind));
            r
        },
        TerminatorKind::Call { destination, cleanup } => {
            let mut r: Vec<usize> = Vec::new();
            if let Some(d) = destination {
                r.push(*d);
            }
            if let Some(c) = cleanup {
                r.push(*c);
            }
            assert(r@ =~= successors(*kind));
            r
        },
        TerminatorKind::Other { successors } => successors.clone(),
    }
}

fn write_edges(out: &mut String, body: &Body, promoted: Option<usize>, source: usize)
    requires
        source < body.blocks@.len(),
    ensures
        final(out)@ == old(out)@ + edge_lines(*body, promoted, source).flatten(),
{
    let ghost start = old(out)@;
    let t = &body.blocks[source].terminator;
    let succ = successor_list(&t.kind);
    let ghost lines = edge_lines(*body, promoted, source);
    let mut i: usize = 0;
    while i < succ.len()
        invariant
            i <= succ@.len(),
            t == body.blocks@[source as int].terminator,
            succ@ == successors(t.kind),
            lines == edge_lines(*body, promoted, source),
            lines.len() == succ@.len(),
            out@ == start + lines.take(i as int).flatten(),
        decreases succ@.len() - i,
    {
        let ghost before = out@;
        out.append("    \"");
        push_node_name(out, promoted, source);
        out.append("\" -> \"");
        push_node_name(out, promoted, succ[i]);
        out.append("\" [label=\"");
        if i < t.labels.len() {
            out.append(t.labels[i].as_str());
        }
        out.append("\"];\n");
        proof {
            assert(out@ =~= before + lines[i as int]);
            assert(lines.take(i + 1) =~= lines.take(i as int).push(lines[i as int]));
            lines.take(i as int).lemma_flatten_push(lines[i as int]);
        }
        i = i + 1;
    }
    assert(lines.take(i as int) =~= lines);
}

/// The graph of `mir` as the DOT text from which the layout engine draws the
/// SVG image: one node per block, labelled with its statements (breakpoints
/// marked) and terminator head, and one labelled edge per successor.
pub fn render_mir_svg(mir: &Body, breakpoints: &Breakpoints, promoted: Option<usize>) -> (r: String)
    ensures
        r@ == dot_text(*mir, *breakpoints, promoted),
{
    let mut out = String::new();
    match promoted {
        Some(p) => {
            out.append("digraph promoted");
            push_decimal(&mut out, p);
            out.append(" {\n");
        },
        None => {
            out.append("digraph Body {\n");
        },
    }
    out.append("    graph [fontname=\"monospace\"];\n");
    out.append("    node [fontname=\"monospace\"];\n");
    out.append("    edge [fontname=\"monospace\"];\n");
    let ghost header = out@;
    assert(header =~= dot_header(promoted));
    let ghost nodes = node_lines(*mir, *breakpoints, promoted);
    let mut b: usize = 0;
    while b < mir.blocks.len()
        invariant
            b <= mir.blocks@.len(),
            nodes == node_lines(*mir, *breakpoints, promoted),
            out@ == header + nodes.take(b as int).flatten(),
        decreases mir.blocks@.len() - b,
    {
        let ghost before = out@;
        write_node(&mut out, mir, breakpoints, promoted, b);
        proof {
            assert(nodes.take(b + 1) =~= nodes.take(b as int).push(nodes[b as int]));
            nodes.take(b as int).lemma_flatten_push(nodes[b as int]);
        }
        b = b + 1;
    }
    assert(nodes.take(b as int) =~= nodes);
    let ghost after_nodes = out@;
    let ghost edges = all_edge_lines(*mir, promoted);
    let mut s: usize = 0;
    while s < mir.blocks.len()
        invariant
            s <= mir.blocks@.len(),
            edges == all_edge_lines(*mir, promoted),
            out@ == after_nodes + edges.take(s as int).flatten(),
        decreases mir.blocks@.len() - s,
    {
        write_edges(&mut out, mir, promoted, s);
        proof {
            assert(edges.take(s + 1) =~= edges.take(s as int).push(edges[s as int]));
            edges.take(s as int).lemma_flatten_push(edges[s as int]);
        }
        s = s + 1;
    }
    assert(edges.take(s as int) =~= edges);
    out.append("}\n");
    assert(out@ =~= dot_text(*mir, *breakpoints, promoted));
    out
}


/// Row offset of the first statement row in a rendered node: the rows before
/// it are the node's fixed header rows.
pub const STATEMENT_ROW_OFFSET: usize = 6;

/// Row offset of the terminator row after the statement rows of a node that
/// has statements.
pub const TERMINATOR_ROW_OFFSET: usize = 7;

/// The row of a rendered node that stands for statement `index` of a block
/// with `count` statements (`index == count` is the terminator).
pub open spec fn current_row(count: nat, index: nat) -> nat {
    if index == count {
        if count == 0 {
            STATEMENT_ROW_OFFSET as nat
        } else {
            count + TERMINATOR_ROW_OFFSET as nat
        }
    } else {
        index + STATEMENT_ROW_OFFSET as nat
    }
}

/// Two different program points of one block are marked on different rows.
pub proof fn lemma_current_row_distinct(count: nat, i: nat, j: nat)
    requires
        i <= count,
        j <= count,
        i != j,
    ensures
        current_row(count, i) != current_row(count, j),
{
}

/// The graph description has one node per block and, for each block, one
/// edge per successor of its terminator.
pub proof fn lemma_nodes_and_edges_counted(body: Body, bps: Breakpoints, promoted: Option<usize>)
    ensures
        node_lines(body, bps, promoted).len() == body.blocks@.len(),
        all_edge_lines(body, promoted).len() == body.blocks@.len(),
        forall|b: usize|
            b < body.blocks@.len() ==> #[trigger] edge_lines(body, promoted, b).len() == successors(
                body.blocks@[b as int].terminator.kind,
            ).len(),
{
}

/// Computes the row that marks statement `index` of a block with `count` statements.
pub fn current_statement_row(count: usize, index: usize) -> (r: usize)
    requires
        index <= count,
        count + TERMINATOR_ROW_OFFSET <= usize::MAX,
    ensures
        r as nat == current_row(count as nat, index as nat),
{
    if index == count {
        if count == 0 {
            STATEMENT_ROW_OFFSET
        } else {
            count + TERMINATOR_ROW_OFFSET
        }
    } else {
        index + STATEMENT_ROW_OFFSET
    }
}

pub open spec fn color_name(r: EdgeRole) -> Seq<char> {
    match r {
        EdgeRole::Normal => "green"@,
        EdgeRole::Unwind => "red"@,
    }
}

/// One entry of the overlay's edge colour table, keyed by the edge's title.
pub open spec fn color_entry(from: nat, e: (usize, EdgeRole)) -> Seq<char> {
    "'bb"@ + decimal(from) + "->bb"@ + decimal(e.0 as nat) + "':'"@ + color_name(e.1) + "'"@
}

/// The entries of the edge colour table, separated by commas.
pub open spec fn color_entries(from: nat, es: Seq<(usize, EdgeRole)>) -> Seq<char>
    decreases es.len(),
{
    if es.len() == 0 {
        Seq::empty()
    } else if es.len() == 1 {
        color_entry(from, es[0])
    } else {
        color_entries(from, es.drop_last()) + ","@ + color_entry(from, es.last())
    }
}

/// The style and script appended to the rendered graph: they mark row `row` of
/// node `node_id` and colour the edges listed in `es`, all leaving block `from`.
pub open spec fn overlay(node_id: nat, row: nat, from: nat, es: Seq<(usize, EdgeRole)>) -> Seq<char> {
    "<style>\n        #node"@ + decimal(node_id) + " > text:nth-child("@ + decimal(row) + ") {\n            fill: red;\n        }\n        .edge-green > path, .edge-green > polygon, .edge-green > text {\n            fill: green;\n            stroke: green;\n        }\n        .edge-red > path, .edge-red > polygon, .edge-red > text {\n            fill: red;\n            stroke: red;\n        }\n        .edge > path {\n            fill: none;\n        }\n        </style>\n        <script>\n        "@ + "let edge_colors = {"@
        + color_entries(from, es) + "};"@ + "\n        for(let el of document.querySelectorAll(\"#mir > svg #graph0 .edge\")) {\n            let title = el.querySelector(\"title\").textContent;\n            if(title in edge_colors) {\n                el.classList.add(\"edge-\" + edge_colors[title]);\n            }\n        }\n        </script>"@
}

/// The graph pane: the rendered graph, followed by the current-position
/// overlay when execution stands at a location, or by an unwinding notice.
pub open spec fn graph_pane(svg: Seq<char>, body: Body, position: Option<FramePosition>) -> Seq<char> {
    match position {
        None => svg,
        Some(FramePosition::Unwinding) => svg + "<div style='color: red;'>Unwinding</div>"@,
        Some(FramePosition::At(loc)) => {
            let data = body.blocks@[loc.block as int];
            svg + overlay(
                loc.block as nat + 1,
                current_row(data.statements@.len(), loc.statement_index as nat),
                loc.block as nat,
                taken_edges(data.terminator.kind),
            )
        },
    }
}

/// A position that names an existing block and a statement or terminator in it.
pub open spec fn valid_position(body: Body, position: Option<FramePosition>) -> bool {
    match position {
        Some(FramePosition::At(loc)) => loc.block < body.blocks@.len()
            && loc.statement_index <= body.blocks@[loc.block as int].statements@.len()
            && body.blocks@[loc.block as int].statements@.len() + TERMINATOR_ROW_OFFSET <= usize::MAX,
        _ => true,
    }
}

fn taken_edge_list(kind: &TerminatorKind) -> (r: Vec<(usize, EdgeRole)>)
    ensures
        r@ == taken_edges(*kind),
{
    match kind {
        TerminatorKind::Goto { target } => {
            let r = vec![(*target, EdgeRole::Normal)];
            assert(r@ =~= taken_edges(*kind));
            r
        },
        TerminatorKind::SwitchInt { targets } => {
            let mut r: Vec<(usize, EdgeRole)> = Vec::new();
            let mut i: usize = 0;
            while i < targets.len()
                invariant
                    i <= targets@.len(),
                    r@ =~= with_role(targets@.take(i as int), EdgeRole::Normal),
                decreases targets@.len() - i,
            {
                r.push((targets[i], EdgeRole::Normal));
                i = i + 1;
            }
            assert(targets@.take(i as int) =~= targets@);
            r
        },
        TerminatorKind::Drop { target, unwind } | TerminatorKind::DropAndReplace { target, unwind } => {
            let mut r = vec![(*target, EdgeRole::Normal)];
            if let Some(u) = unwind {
                r.push((*u, EdgeRole::Unwind));
            }
            assert(r@ =~= taken_edges(*kind));
            r
        },
        TerminatorKind::Call { destination, cleanup } => {
            let mut r: Vec<(usize, EdgeRole)> = Vec::new();
            if let Some(d) = destination {
                r.push((*d, EdgeRole::Normal));
            }
            if let Some(c) = cleanup {
                r.push((*c, EdgeRole::Unwind));
            }
            assert(r@ =~= taken_edges(*kind));
            r
        },
        TerminatorKind::Other { .. } => Vec::new(),
    }
}

fn push_color_entries(out: &mut String, from: usize, es: &Vec<(usize, EdgeRole)>)
    ensures
        final(out)@ == old(out)@ + color_entries(from as nat, es@),
{
    let ghost start = old(out)@;
    let mut i: usize = 0;
    while i < es.len()
        invariant
            i <= es@.len(),
            out@ == start + color_entries(from as nat, es@.take(i as int)),
        decreases es@.len() - i,
    {
        let ghost before = out@;
        if i > 0 {
            out.append(",");
        }
        out.append("'bb");
        push_decimal(out, from);
        out.append("->bb");
        push_decimal(out, es[i].0);
        out.append("':'");
        match es[i].1 {
            EdgeRole::Normal => out.append("green"),
            EdgeRole::Unwind => out.append("red"),
        }
        out.append("'");
        proof {
            let t = es@.take(i + 1);
            assert(t.drop_last() =~= es@.take(i as int));
            assert(t.last() == es@[i as int]);
            if i == 0 {
                assert(color_entries(from as nat, es@.take(0)) =~= Seq::empty());
                assert(out@ =~= start + color_entries(from as nat, t));
            } else {
                assert(out@ =~= start + color_entries(from as nat, t));
            }
        }
        i = i + 1;
    }
    assert(es@.take(i as int) =~= es@);
}

/// Appends to the rendered graph `svg` what marks the current position: for a
/// location, a style that marks its row in its block's node and a script that
/// colours the edges leaving that block, green on the normal path and red on
/// the unwind path; while unwinding, a notice; with no position, nothing.
pub fn render_html(svg: &str, mir: &Body, position: Option<FramePosition>) -> (r: String)
    requires
        valid_position(*mir, position),
    ensures
        r@ == graph_pane(svg@, *mir, position),
{
    let mut out = String::new();
    out.append(svg);
    match position {
        None => {},
        Some(FramePosition::Unwinding) => {
            out.append("<div style='color: red;'>Unwinding</div>");
        },
        Some(FramePosition::At(loc)) => {
            let n_blocks = mir.blocks.len();
            let data = &mir.blocks[loc.block];
            let row = current_statement_row(data.statements.len(), loc.statement_index);
            let es = taken_edge_list(&data.terminator.kind);
            out.append("<style>\n        #node");
            push_decimal(&mut out, loc.block + 1);
            out.append(" > text:nth-child(");
            push_decimal(&mut out, row);
            out.append(") {\n            fill: red;\n        }\n        .edge-green > path, .edge-green > polygon, .edge-green > text {\n            fill: green;\n            stroke: green;\n        }\n        .edge-red > path, .edge-red > polygon, .edge-red > text {\n            fill: red;\n            stroke: red;\n        }\n        .edge > path {\n            fill: none;\n        }\n        </style>\n        <script>\n        ");
            out.append("let edge_colors = {");
            push_color_entries(&mut out, loc.block, &es);
            out.append("};");
            out.append("\n        for(let el of document.querySelectorAll(\"#mir > svg #graph0 .edge\")) {\n            let title = el.querySelector(\"title\").textContent;\n            if(title in edge_colors) {\n                el.classList.add(\"edge-\" + edge_colors[title]);\n            }\n        }\n        </script>");
        },
    }
    assert(out@ =~= graph_pane(svg@, *mir, position));
    out
}

} // verus!
