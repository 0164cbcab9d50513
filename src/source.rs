//! The source pane: the chain of spans from the executing code out through
//! its macro call sites, each shown in its file with the span marked.
use vstd::prelude::*;
use crate::graph::{Body, FramePosition, valid_position};
use crate::highlight::{markable, marked_html, mark_span, byte_len, HighlightCache, RustHighlighter};

verus! {

/// Where a span lies: the whole text of its file, and its byte offsets in it.
pub struct SpanSource {
    pub text: String,
    pub lo: usize,
    pub hi: usize,
}

/// One span: its printed form, its file text and offsets (or why they could
/// not be had), and the span of the macro call that produced it, if any.
pub struct SpanInfo {
    pub label: String,
    pub source: Result<SpanSource, String>,
    pub call_site: Option<usize>,
}

/// The spans a frame refers to; statements, terminators and bodies name
/// them by index.
pub struct SpanTable {
    pub spans: Vec<SpanInfo>,
}

impl SpanTable {
    /// Every call site names a span of the table.
    pub open spec fn wf(&self) -> bool {
        forall|i: int|
            0 <= i < self.spans@.len() ==> (#[trigger] self.spans@[i].call_site matches Some(p) ==> p
                < self.spans@.len())
    }
}

/// The span the frame executes: that of the current statement, of the
/// terminator when the position is past the statements, or of the whole body
/// while unwinding.
pub open spec fn initial_span(body: Body, position: FramePosition) -> usize {
    match position {
        FramePosition::At(loc) => {
            let data = body.blocks@[loc.block as int];
            if loc.statement_index == data.statements@.len() {
                data.terminator.span
            } else {
                data.statements@[loc.statement_index as int].span
            }
        },
        FramePosition::Unwinding => body.span,
    }
}

/// The chain after `k` steps out from `start`: each step appends the call
/// site of the last span, while there is one.
pub open spec fn walk(t: Seq<SpanInfo>, start: usize, k: nat) -> Seq<usize>
    decreases k,
{
    if k == 0 {
        seq![start]
    } else {
        let w = walk(t, start, (k - 1) as nat);
        match t[w.last() as int].call_site {
            Some(p) => w.push(p),
            None => w,
        }
    }
}

/// The macro-expansion chain of `start`, innermost first. A chain without a
/// cycle is complete after as many steps as the table has spans.
pub open spec fn span_chain(t: Seq<SpanInfo>, start: usize) -> Seq<usize> {
    walk(t, start, t.len())
}

proof fn lemma_walk_in_table(t: Seq<SpanInfo>, start: usize, k: nat)
    requires
        start < t.len(),
        forall|i: int| 0 <= i < t.len() ==> (#[trigger] t[i].call_site matches Some(p) ==> p < t.len()),
    ensures
        walk(t, start, k).len() >= 1,
        forall|j: int| 0 <= j < walk(t, start, k).len() ==> #[trigger] walk(t, start, k)[j] < t.len(),
    decreases k,
{
    if k > 0 {
        lemma_walk_in_table(t, start, (k - 1) as nat);
        let w = walk(t, start, (k - 1) as nat);
        assert(t[w.last() as int].call_site matches Some(p) ==> p < t.len());
    }
}

fn chain_of(table: &SpanTable, start: usize) -> (r: Vec<usize>)
    requires
        table.wf(),
        start < table.spans@.len(),
    ensures
        r@ == span_chain(table.spans@, start),
        r@.len() >= 1,
        forall|j: int| 0 <= j < r@.len() ==> #[trigger] r@[j] < table.spans@.len(),
{
    let mut chain: Vec<usize> = vec![start];
    let mut k: usize = 0;
    assert(chain@ =~= walk(table.spans@, start, 0));
    while k < table.spans.len()
        invariant
            k <= table.spans@.len(),
            table.wf(),
            start < table.spans@.len(),
            chain@ == walk(table.spans@, start, k as nat),
        decreases table.spans@.len() - k,
    {
        proof {
            lemma_walk_in_table(table.spans@, start, k as nat);
        }
        let last = chain[chain.len() - 1];
        match table.spans[last].call_site {
            Some(p) => chain.push(p),
            None => {},
        }
        k = k + 1;
    }
    proof {
        lemma_walk_in_table(table.spans@, start, k as nat);
    }
    chain
}


/// What the regex crate makes of `text` when its first match of
/// `/rustc/\w+/` is replaced by `<rust>/`.
pub uninterp spec fn rustc_prefix_collapsed(text: Seq<char>) -> Seq<char>;

/// Relies on regex's `Regex::new` and `Regex::replace`: the text with its
/// leftmost match of `/rustc/\w+/` replaced by `<rust>/`. The pattern is
/// valid, so compiling it does not fail.
#[verifier::external_body]
fn collapse_rustc_prefix(text: &str) -> (r: String)
    ensures
        r@ == rustc_prefix_collapsed(text@),
{
    regex::Regex::new("/rustc/\\w+/").unwrap().replace(text, "<rust>/").into_owned()
}

/// What `str::replace` makes of `text`.
pub uninterp spec fn str_replaced(text: Seq<char>, from: Seq<char>, to: Seq<char>) -> Seq<char>;

/// Relies on `str::replace`: every match of `from`, left to right and without
/// overlap, replaced by `to`.
#[verifier::external_body]
fn replace_all(text: &str, from: &str, to: &str) -> (r: String)
    ensures
        r@ == str_replaced(text@, from@, to@),
{
    text.replace(from, to)
}

/// The path with the standard library's source directory, when known,
/// collapsed to `<rust>/`.
pub open spec fn collapse_std_src(path: Seq<char>, std_src: Option<String>) -> Seq<char> {
    match std_src {
        Some(p) => str_replaced(path, p@, "<rust>/"@),
        None => path,
    }
}

/// The display form of the span printed as `label`: its `/rustc/<hash>/`
/// prefix and then the standard library's source directory collapsed to
/// `<rust>/`.
pub open spec fn pretty_path(label: Seq<char>, std_src: Option<String>) -> Seq<char> {
    collapse_std_src(rustc_prefix_collapsed(label), std_src)
}

/// The display form of a span's printed form: paths into the compiler's or the
/// standard library's sources are shortened to `<rust>/...`.
pub fn pretty_src_path(label: &str, std_src: &Option<String>) -> (r: String)
    ensures
        r@ == pretty_path(label@, *std_src),
{
    let collapsed = collapse_rustc_prefix(label);
    match std_src {
        Some(p) => replace_all(collapsed.as_str(), p.as_str(), "<rust>/"),
        None => collapsed,
    }
}

/// The placeholder shown for a span whose offsets cannot be marked in its file.
pub open spec fn bad_offsets_text() -> Seq<char> {
    "<span offsets do not fit the file>"@
}

/// `out` is the source-pane entry of span `i`: its printed form and the reason
/// where its file is unknown; else its display path and its file with the span
/// marked, under the styles cached for that file.
pub open spec fn pane_entry(
    t: Seq<SpanInfo>,
    i: usize,
    c: HighlightCache,
    std_src: Option<String>,
    out: (String, String),
) -> bool {
    match t[i as int].source {
        Err(msg) => out.0@ == t[i as int].label@ && out.1@ == msg@,
        Ok(src) => c.holds(src.text@) && {
            let rs = c.ranges_of(src.text@);
            if markable(src.text@, rs, src.lo as int, src.hi as int) {
                out.0@ == pretty_path(t[i as int].label@, std_src) && out.1@ == marked_html(
                    src.text@,
                    rs,
                    src.lo as int,
                    src.hi as int,
                )
            } else {
                out.0@ == t[i as int].label@ && out.1@ == bad_offsets_text()
            }
        },
    }
}

proof fn lemma_pane_entry_kept(
    t: Seq<SpanInfo>,
    i: usize,
    c1: HighlightCache,
    c2: HighlightCache,
    std_src: Option<String>,
    out: (String, String),
)
    requires
        c1.wf(),
        c2.wf(),
        c1.extended_by(c2),
        pane_entry(t, i, c1, std_src, out),
    ensures
        pane_entry(t, i, c2, std_src, out),
{
    match t[i as int].source {
        Err(_) => {},
        Ok(src) => {
            let j = choose|j: int| 0 <= j < c1.entries@.len() && #[trigger] c1.entries@[j].string@ == src.text@;
            assert(c2.entries@[j] == c1.entries@[j]);
            c1.lemma_ranges_of(j);
            c2.lemma_ranges_of(j);
        },
    }
}

/// Every file text of the table has a length that fits in `usize`.
pub open spec fn texts_fit(t: Seq<SpanInfo>) -> bool {
    forall|i: int|
        0 <= i < t.len() ==> (#[trigger] t[i].source matches Ok(src) ==> byte_len(src.text@) <= usize::MAX)
}

/// `v` is the source pane of `chain` (innermost span first): one entry per
/// span, outermost first.
pub open spec fn source_pane(
    t: Seq<SpanInfo>,
    chain: Seq<usize>,
    c: HighlightCache,
    std_src: Option<String>,
    v: Seq<(String, String)>,
) -> bool {
    &&& v.len() == chain.len()
    &&& forall|k: int|
        0 <= k < v.len() ==> pane_entry(t, #[trigger] chain[chain.len() - 1 - k], c, std_src, v[k])
}

/// Every file text that a span of `chain` resolves to is cached in `c`.
pub open spec fn chain_cached(t: Seq<SpanInfo>, chain: Seq<usize>, c: HighlightCache) -> bool {
    forall|j: int|
        0 <= j < chain.len() ==> (#[trigger] t[chain[j] as int].source matches Ok(src) ==> c.holds(
            src.text@,
        ))
}

/// An entry of the source pane is fixed by the span, the cache and the
/// standard library's directory: two entries made under the same ones read
/// the same.
pub proof fn lemma_pane_entry_determined(
    t: Seq<SpanInfo>,
    i: usize,
    c: HighlightCache,
    std_src: Option<String>,
    a: (String, String),
    b: (String, String),
)
    requires
        pane_entry(t, i, c, std_src, a),
        pane_entry(t, i, c, std_src, b),
    ensures
        a.0@ == b.0@,
        a.1@ == b.1@,
{
}

/// Rendering the same chain twice under the same cache gives the same pane.
pub proof fn lemma_source_pane_repeatable(
    t: Seq<SpanInfo>,
    chain: Seq<usize>,
    c: HighlightCache,
    std_src: Option<String>,
    v: Seq<(String, String)>,
    w: Seq<(String, String)>,
)
    requires
        source_pane(t, chain, c, std_src, v),
        source_pane(t, chain, c, std_src, w),
    ensures
        v.len() == w.len(),
        forall|k: int| 0 <= k < v.len() ==> #[trigger] v[k].0@ == w[k].0@ && v[k].1@ == w[k].1@,
{
    assert forall|k: int| 0 <= k < v.len() implies #[trigger] v[k].0@ == w[k].0@ && v[k].1@ == w[k].1@ by {
        lemma_pane_entry_determined(t, chain[chain.len() - 1 - k], c, std_src, v[k], w[k]);
    }
}

/// The source pane: with no position, no entry; else one entry per span of the
/// macro-expansion chain of the executing span, outermost first. Files are
/// highlighted through `cache`, which keeps what it had; when it already holds
/// every file of the chain it is left as it is.
pub fn render_source(
    cache: &mut HighlightCache,
    hl: &RustHighlighter,
    body: &Body,
    table: &SpanTable,
    position: Option<FramePosition>,
    std_src: &Option<String>,
) -> (r: Vec<(String, String)>)
    requires
        old(cache).wf(),
        table.wf(),
        texts_fit(table.spans@),
        valid_position(*body, position),
        position matches Some(p) ==> initial_span(*body, p) < table.spans@.len(),
    ensures
        final(cache).wf(),
        old(cache).extended_by(*final(cache)),
        position is None ==> r@.len() == 0 && *final(cache) == *old(cache),
        position is Some ==> {
            let chain = span_chain(table.spans@, initial_span(*body, position.unwrap()));
            &&& source_pane(table.spans@, chain, *final(cache), *std_src, r@)
            &&& chain_cached(table.spans@, chain, *final(cache))
            &&& chain_cached(table.spans@, chain, *old(cache)) ==> *final(cache) == *old(cache)
        },
{
    let pos = match position {
        None => {
            return Vec::new();
        },
        Some(p) => p,
    };
    let start = match pos {
        FramePosition::At(loc) => {
            let data = &body.blocks[loc.block];
            if loc.statement_index == data.statements.len() {
                data.terminator.span
            } else {
                data.statements[loc.statement_index].span
            }
        },
        FramePosition::Unwinding => body.span,
    };
    let chain = chain_of(table, start);
    let n = chain.len();
    let mut out: Vec<(String, String)> = Vec::new();
    let mut k: usize = 0;
    while k < n
        invariant
            k <= n,
            n == chain@.len(),
            chain@ == span_chain(table.spans@, start),
            forall|j: int| 0 <= j < chain@.len() ==> #[trigger] chain@[j] < table.spans@.len(),
            cache.wf(),
            old(cache).extended_by(*cache),
            texts_fit(table.spans@),
            out@.len() == k,
            chain_cached(table.spans@, chain@, *old(cache)) ==> *cache == *old(cache),
            forall|j: int| 0 <= j < k ==> (#[trigger] table.spans@[chain@[n - 1 - j] as int].source matches Ok(src)
                ==> cache.holds(src.text@)),
            forall|j: int|
                0 <= j < k ==> pane_entry(table.spans@, #[trigger] chain@[n - 1 - j], *cache, *std_src, out@[j]),
        decreases n - k,
    {
        let idx = chain[n - 1 - k];
        let info = &table.spans[idx];
        let ghost before = *cache;
        let entry_out: (String, String) = match &info.source {
            Err(msg) => (info.label.clone(), msg.clone()),
            Ok(src) => {
                assert(table.spans@[idx as int].source matches Ok(s) ==> byte_len(s.text@) <= usize::MAX);
                assert(table.spans@[chain@[n - 1 - k] as int].source matches Ok(s) ==> (
                chain_cached(table.spans@, chain@, *old(cache)) ==> old(cache).holds(s.text@)));
                let e = cache.get_or_compute(hl, &src.text);
                let entry = cache.entry(e);
                proof {
                    cache.lemma_ranges_of(e as int);
                    assert(cache.entries@[e as int].wf());
                }
                match mark_span(entry.string.as_str(), &entry.highlighted, src.lo, src.hi) {
                    Some(html) => (pretty_src_path(info.label.as_str(), std_src), html),
                    None => {
                        let mut placeholder = String::new();
                        placeholder.append("<span offsets do not fit the file>");
                        (info.label.clone(), placeholder)
                    },
                }
            },
        };
        proof {
            assert(old(cache).extended_by(*cache)) by {
                assert forall|i: int| 0 <= i < old(cache).entries@.len() implies #[trigger] cache.entries@[i]
                    == old(cache).entries@[i] by {
                    assert(before.entries@[i] == old(cache).entries@[i]);
                }
            }
            assert forall|j: int| 0 <= j < k implies pane_entry(
                table.spans@,
                #[trigger] chain@[n - 1 - j],
                *cache,
                *std_src,
                out@[j],
            ) by {
                lemma_pane_entry_kept(table.spans@, chain@[n - 1 - j], before, *cache, *std_src, out@[j]);
            }
        }
        let ghost prev = out@;
        out.push(entry_out);
        proof {
            assert forall|j: int| 0 <= j < k + 1 implies pane_entry(
                table.spans@,
                #[trigger] chain@[n - 1 - j],
                *cache,
                *std_src,
                out@[j],
            ) by {
                if j < k {
                    assert(out@[j] == prev[j]);
                }
            }
        }
        k = k + 1;
    }
    proof {
        assert forall|j: int| 0 <= j < chain@.len() implies (#[trigger] table.spans@[chain@[j] as int].source matches Ok(src)
            ==> cache.holds(src.text@)) by {
            assert(chain@[j] == chain@[n - 1 - (n - 1 - j)]);
        }
    }
    out
}

} // verus!
