use priroda_render::graph::{
    current_statement_row, render_html, render_mir_svg, BasicBlockData, Body, Breakpoints,
    FramePosition, Location, Statement, Terminator, TerminatorKind,
};
use priroda_render::highlight::{mark_span, syntax_highlight, HighlightCache, RustHighlighter, StyledRange};
use priroda_render::source::{pretty_src_path, render_source, SpanInfo, SpanSource, SpanTable};
use priroda_render::text::{background_style, push_decimal};
use syntect::highlighting::{Theme, ThemeSet};
use syntect::parsing::SyntaxSet;

fn stmt(text: &str, span: usize) -> Statement {
    Statement { text: text.to_string(), hidden: false, span }
}

fn branch_body() -> Body {
    Body {
        blocks: vec![BasicBlockData {
            statements: vec![stmt("_1 = const 1_i32", 0), stmt("_2 = Lt(_1, const 3_i32)", 0)],
            terminator: Terminator {
                kind: TerminatorKind::SwitchInt { targets: vec![1, 2] },
                head: "switchInt(move _2)".to_string(),
                labels: vec!["false".to_string(), "otherwise".to_string()],
                span: 0,
            },
        }],
        span: 0,
    }
}

fn call_body() -> Body {
    Body {
        blocks: vec![
            BasicBlockData {
                statements: vec![],
                terminator: Terminator {
                    kind: TerminatorKind::Call { destination: Some(1), cleanup: Some(2) },
                    head: "_0 = f()".to_string(),
                    labels: vec!["return".to_string(), "unwind".to_string()],
                    span: 0,
                },
            },
            BasicBlockData {
                statements: vec![stmt("_3 = _0", 0)],
                terminator: Terminator {
                    kind: TerminatorKind::Other { successors: vec![] },
                    head: "return".to_string(),
                    labels: vec![],
                    span: 0,
                },
            },
            BasicBlockData {
                statements: vec![],
                terminator: Terminator {
                    kind: TerminatorKind::Other { successors: vec![] },
                    head: "resume".to_string(),
                    labels: vec![],
                    span: 0,
                },
            },
        ],
        span: 0,
    }
}

fn no_breakpoints() -> Breakpoints {
    Breakpoints { locations: vec![] }
}

fn highlighting() -> (SyntaxSet, Theme) {
    let ss = SyntaxSet::load_defaults_newlines();
    let theme = ThemeSet::load_defaults().themes["Solarized (dark)"].clone();
    (ss, theme)
}

fn strip_tags(html: &str) -> String {
    let mut out = String::new();
    let mut in_tag = false;
    for c in html.chars() {
        if c == '<' {
            in_tag = true;
        } else if c == '>' {
            in_tag = false;
        } else if !in_tag {
            out.push(c);
        }
    }
    out
}

fn assert_partition(ranges: &[StyledRange], len: usize) {
    let mut at = 0;
    for r in ranges {
        assert_eq!(r.start, at);
        assert!(r.start <= r.end);
        at = r.end;
    }
    assert_eq!(at, len);
}

#[test]
fn decimal_numbers() {
    let mut s = String::from("n=");
    push_decimal(&mut s, 0);
    push_decimal(&mut s, 907);
    assert_eq!(s, "n=0907");
}

#[test]
fn html_escaping_of_statements_and_heads() {
    let mut body = branch_body();
    body.blocks[0].statements[0].text = "<a & 'b'>/`\"".to_string();
    body.blocks[0].terminator.head = "plain".to_string();
    let dot = render_mir_svg(&body, &no_breakpoints(), None);
    assert!(dot.contains("&nbsp; &lt;a &amp; &#x27;b&#x27;&gt;&#x2F;&#96;&quot;<br/>"));
    assert!(dot.contains("<tr><td align=\"left\">plain</td></tr>"));
}

#[test]
fn dot_has_one_node_per_block_and_one_edge_per_successor() {
    let body = call_body();
    let dot = render_mir_svg(&body, &no_breakpoints(), None);
    assert!(dot.starts_with("digraph Body {\n"));
    assert_eq!(dot.matches("[shape=\"none\", label=<").count(), 3);
    assert_eq!(dot.matches(" -> ").count(), 2);
    assert!(dot.contains("    \"bb0\" -> \"bb1\" [label=\"return\"];\n"));
    assert!(dot.contains("    \"bb0\" -> \"bb2\" [label=\"unwind\"];\n"));
    assert!(dot.ends_with("}\n"));
}

#[test]
fn dot_exact_single_block() {
    let body = branch_body();
    let bps = Breakpoints { locations: vec![Location { block: 0, statement_index: 1 }] };
    let dot = render_mir_svg(&body, &bps, Some(4));
    let expected = [
        "digraph promoted4 {\n",
        "    graph [fontname=\"monospace\"];\n",
        "    node [fontname=\"monospace\"];\n",
        "    edge [fontname=\"monospace\"];\n",
        "    \"promoted4.0\" [shape=\"none\", label=<",
        "<table border=\"0\" cellborder=\"1\" cellspacing=\"0\">",
        "<tr><td bgcolor=\"gray\" align=\"center\">promoted4.0</td></tr>",
        "<tr><td align=\"left\" balign=\"left\">",
        "&nbsp; _1 = const 1_i32<br/>",
        "+ _2 = Lt(_1, const 3_i32)<br/>",
        "</td></tr>",
        "<tr><td align=\"left\">switchInt(move _2)</td></tr>",
        "</table>\n",
        ">];\n",
        "    \"promoted4.0\" -> \"promoted4.1\" [label=\"false\"];\n",
        "    \"promoted4.0\" -> \"promoted4.2\" [label=\"otherwise\"];\n",
        "}\n",
    ]
    .join("");
    assert_eq!(dot, expected);
}

#[test]
fn hidden_statement_and_missing_label() {
    let mut body = branch_body();
    body.blocks[0].statements[0].hidden = true;
    body.blocks[0].terminator.labels = vec!["false".to_string()];
    let dot = render_mir_svg(&body, &no_breakpoints(), None);
    assert!(dot.contains("&nbsp; &lt;+&gt;<br/>"));
    assert!(dot.contains("    \"bb0\" -> \"bb2\" [label=\"\"];\n"));
}

#[test]
fn statement_rows() {
    assert_eq!(current_statement_row(2, 0), 6);
    assert_eq!(current_statement_row(2, 1), 7);
    assert_eq!(current_statement_row(2, 2), 9);
    assert_eq!(current_statement_row(0, 0), 6);
}

#[test]
fn current_statement_overlay_with_branch() {
    let body = branch_body();
    let pos = Some(FramePosition::At(Location { block: 0, statement_index: 1 }));
    let html = render_html("<svg/>", &body, pos);
    assert!(html.starts_with("<svg/><style>"));
    assert!(html.contains("#node1 > text:nth-child(7) {"));
    assert!(html.contains("let edge_colors = {'bb0->bb1':'green','bb0->bb2':'green'};"));
    assert!(!html.contains(":'red'"));
}

#[test]
fn call_overlay_colours_unwind_edge() {
    let body = call_body();
    let pos = Some(FramePosition::At(Location { block: 0, statement_index: 0 }));
    let html = render_html("", &body, pos);
    assert!(html.contains("#node1 > text:nth-child(6) {"));
    assert!(html.contains("let edge_colors = {'bb0->bb1':'green','bb0->bb2':'red'};"));
    let pos = Some(FramePosition::At(Location { block: 1, statement_index: 1 }));
    let html = render_html("", &body, pos);
    assert!(html.contains("#node2 > text:nth-child(8) {"));
    assert!(html.contains("let edge_colors = {};"));
}

#[test]
fn unwinding_and_no_position() {
    let body = branch_body();
    assert_eq!(render_html("<svg/>", &body, None), "<svg/>");
    assert_eq!(
        render_html("<svg/>", &body, Some(FramePosition::Unwinding)),
        "<svg/><div style='color: red;'>Unwinding</div>"
    );
}

#[test]
fn breakpoint_lookup() {
    let bps = Breakpoints {
        locations: vec![Location { block: 2, statement_index: 0 }, Location { block: 0, statement_index: 3 }],
    };
    assert!(bps.breakpoint_exists(Location { block: 0, statement_index: 3 }));
    assert!(!bps.breakpoint_exists(Location { block: 0, statement_index: 2 }));
}

#[test]
fn highlight_ranges_partition_text() {
    let (ss, theme) = highlighting();
    let hl = RustHighlighter::new(&ss, &theme).unwrap();
    let src = "fn main() {\n    let x = \"é\";\n}\nno newline at end";
    let ranges = syntax_highlight(&hl, src);
    assert!(ranges.len() > 3);
    assert_partition(&ranges, src.len());
    for r in &ranges {
        assert!(src.is_char_boundary(r.start) && src.is_char_boundary(r.end));
        if r.end > r.start {
            assert!(!src.as_bytes()[r.start..r.end - 1].contains(&b'\n'));
        }
    }
    let empty = syntax_highlight(&hl, "");
    assert!(empty.is_empty());
}

#[test]
fn cache_computes_once_per_text() {
    let (ss, theme) = highlighting();
    let hl = RustHighlighter::new(&ss, &theme).unwrap();
    let mut cache = HighlightCache::new();
    let text = "fn f() -> u8 { 1 }\n".to_string();
    let a = cache.get_or_compute(&hl, &text);
    assert_eq!(cache.computations(), 1);
    let first: Vec<(usize, usize)> = cache.entry(a).highlighted.iter().map(|r| (r.start, r.end)).collect();
    let b = cache.get_or_compute(&hl, &text);
    assert_eq!(a, b);
    assert_eq!(cache.computations(), 1);
    let second: Vec<(usize, usize)> = cache.entry(b).highlighted.iter().map(|r| (r.start, r.end)).collect();
    assert_eq!(first, second);
    let other = "struct S;\n".to_string();
    let c = cache.get_or_compute(&hl, &other);
    assert_ne!(a, c);
    assert_eq!(cache.computations(), 2);
    assert_eq!(cache.entry(c).string, other);
}

#[test]
fn mark_zero_width_span() {
    let (ss, theme) = highlighting();
    let hl = RustHighlighter::new(&ss, &theme).unwrap();
    let text = "fn main() {}\n";
    let ranges = syntax_highlight(&hl, text);
    let html = mark_span(text, &ranges, 3, 3).unwrap();
    assert!(html.contains("padding: 1px;'>\u{2190}</span>"));
    assert_eq!(strip_tags(&html), "fn \u{2190}main() {}\n");
}

#[test]
fn mark_span_shows_exactly_the_span() {
    let (ss, theme) = highlighting();
    let hl = RustHighlighter::new(&ss, &theme).unwrap();
    let text = "fn main() {}\n";
    let ranges = syntax_highlight(&hl, text);
    let html = mark_span(text, &ranges, 3, 7).unwrap();
    assert_eq!(strip_tags(&html), text);
    let marker = "<span style='background-color: lightcoral; border-radius: 5px; padding: 1px;'>";
    let at = html.find(marker).unwrap();
    assert_eq!(strip_tags(&html[..at]), "fn ");
    assert!(strip_tags(&html[at..]).starts_with("main"));
}

#[test]
fn mark_span_rejects_bad_offsets() {
    let (ss, theme) = highlighting();
    let hl = RustHighlighter::new(&ss, &theme).unwrap();
    let text = "let s = \"é\";\n";
    let ranges = syntax_highlight(&hl, text);
    assert!(mark_span(text, &ranges, 5, 4).is_none());
    assert!(mark_span(text, &ranges, 0, text.len() + 1).is_none());
    assert!(mark_span(text, &ranges, 10, 10).is_none());
    assert!(mark_span(text, &ranges, 0, text.len()).is_some());
}

#[test]
fn pretty_paths() {
    assert_eq!(
        pretty_src_path("/rustc/0123abc/library/core/src/ops.rs:3:1: 3:5", &None),
        "<rust>/library/core/src/ops.rs:3:1: 3:5"
    );
    let std_src = Some("/home/u/sysroot/lib/rustlib/src/rust/".to_string());
    assert_eq!(
        pretty_src_path("/home/u/sysroot/lib/rustlib/src/rust/library/std/src/io.rs:1:1", &std_src),
        "<rust>/library/std/src/io.rs:1:1"
    );
    assert_eq!(pretty_src_path("src/main.rs:2:5: 2:9", &std_src), "src/main.rs:2:5: 2:9");
}

fn unresolved(label: &str, call_site: Option<usize>) -> SpanInfo {
    SpanInfo { label: label.to_string(), source: Err(format!("<{} unresolved>", label)), call_site }
}

#[test]
fn macro_chain_is_shown_outermost_first() {
    let (ss, theme) = highlighting();
    let hl = RustHighlighter::new(&ss, &theme).unwrap();
    let mut body = branch_body();
    body.blocks[0].statements[1].span = 0;
    let table = SpanTable {
        spans: vec![unresolved("A", Some(1)), unresolved("B", Some(2)), unresolved("C", None)],
    };
    let mut cache = HighlightCache::new();
    let pos = Some(FramePosition::At(Location { block: 0, statement_index: 1 }));
    let pane = render_source(&mut cache, &hl, &body, &table, pos, &None);
    let labels: Vec<&str> = pane.iter().map(|(l, _)| l.as_str()).collect();
    assert_eq!(labels, vec!["C", "B", "A"]);
    assert_eq!(pane[0].1, "<C unresolved>");
    assert_eq!(cache.computations(), 0);
}

#[test]
fn source_pane_marks_terminator_span() {
    let (ss, theme) = highlighting();
    let hl = RustHighlighter::new(&ss, &theme).unwrap();
    let mut body = branch_body();
    body.blocks[0].terminator.span = 1;
    let text = "fn main() {\n    if x { }\n}\n".to_string();
    let table = SpanTable {
        spans: vec![
            unresolved("unused", None),
            SpanInfo {
                label: "/rustc/ff00/src/main.rs:2:8: 2:9".to_string(),
                source: Ok(SpanSource { text: text.clone(), lo: 19, hi: 20 }),
                call_site: None,
            },
        ],
    };
    let mut cache = HighlightCache::new();
    let pos = Some(FramePosition::At(Location { block: 0, statement_index: 2 }));
    let pane = render_source(&mut cache, &hl, &body, &table, pos, &None);
    assert_eq!(pane.len(), 1);
    assert_eq!(pane[0].0, "<rust>/src/main.rs:2:8: 2:9");
    assert_eq!(strip_tags(&pane[0].1), text);
    assert_eq!(cache.computations(), 1);
    let again = render_source(&mut cache, &hl, &body, &table, pos, &None);
    assert_eq!(again, pane);
    assert_eq!(cache.computations(), 1);
}

#[test]
fn source_pane_bad_offsets_placeholder() {
    let (ss, theme) = highlighting();
    let hl = RustHighlighter::new(&ss, &theme).unwrap();
    let body = branch_body();
    let table = SpanTable {
        spans: vec![SpanInfo {
            label: "src/lib.rs:1:1: 1:2".to_string(),
            source: Ok(SpanSource { text: "fn a() {}\n".to_string(), lo: 4, hi: 40 }),
            call_site: None,
        }],
    };
    let mut cache = HighlightCache::new();
    let pane = render_source(&mut cache, &hl, &body, &table, Some(FramePosition::Unwinding), &None);
    assert_eq!(pane, vec![("src/lib.rs:1:1: 1:2".to_string(), "<span offsets do not fit the file>".to_string())]);
}

#[test]
fn no_position_renders_empty_panes() {
    let (ss, theme) = highlighting();
    let hl = RustHighlighter::new(&ss, &theme).unwrap();
    let body = branch_body();
    let table = SpanTable { spans: vec![unresolved("A", None)] };
    let mut cache = HighlightCache::new();
    let pane = render_source(&mut cache, &hl, &body, &table, None, &None);
    assert!(pane.is_empty());
    assert_eq!(render_html("<svg></svg>", &body, None), "<svg></svg>");
}

#[test]
fn promoted_edges_join_emitted_nodes() {
    let body = call_body();
    let dot = render_mir_svg(&body, &no_breakpoints(), Some(3));
    assert!(dot.contains("    \"promoted3.0\" -> \"promoted3.1\" [label=\"return\"];\n"));
    assert!(dot.contains("    \"promoted3.0\" -> \"promoted3.2\" [label=\"unwind\"];\n"));
    assert!(!dot.contains("\"bb"));
}

#[test]
fn background_style_hex() {
    assert_eq!(background_style(0, 43, 54), "background-color: #002b36; display: block;");
    assert_eq!(background_style(255, 16, 9), "background-color: #ff1009; display: block;");
}

#[test]
fn no_rust_syntax_in_empty_set() {
    let ss = SyntaxSet::new();
    let theme = ThemeSet::load_defaults().themes["Solarized (dark)"].clone();
    assert!(RustHighlighter::new(&ss, &theme).is_none());
}
