//! Syntax highlighting of whole files into styled byte ranges, and the cache
//! that keeps one decomposition per distinct file content.
use vstd::prelude::*;
use vstd::string::StringSliceAdditionalSpecFns;
use vstd::utf8::{
    encode_utf8, encode_utf8_valid_utf8, is_char_boundary, is_char_boundary_iff_is_leading_byte,
    is_char_boundary_iff_not_is_continuation_byte, is_char_boundary_start_end_of_seq, is_leading_byte_width_1,
    pop_first_scalar, valid_utf8, valid_utf8_split,
};
use syntect::easy::HighlightLines;
use syntect::highlighting::{Style, Theme};
use syntect::parsing::{SyntaxReference, SyntaxSet};

verus! {

#[verifier::external_type_specification]
#[verifier::external_body]
pub struct ExSyntaxSet(SyntaxSet);

#[verifier::external_type_specification]
#[verifier::external_body]
pub struct ExTheme(Theme);

#[verifier::external_type_specification]
#[verifier::external_body]
pub struct ExSyntaxReference(SyntaxReference);

#[verifier::external_type_specification]
#[verifier::external_body]
pub struct ExStyle(Style);

#[verifier::external_type_specification]
#[verifier::external_body]
pub struct ExHighlightLines<'a>(HighlightLines<'a>);

/// A style applied to the bytes `start..end` of a text.
#[derive(Clone, Copy)]
pub struct StyledRange {
    pub style: Style,
    pub start: usize,
    pub end: usize,
}

/// `rs` lies end to end from byte `from` to byte `to`: each range starts where
/// the one before it ends, none runs backwards, and together they leave no gap.
pub open spec fn covers(rs: Seq<StyledRange>, from: int, to: int) -> bool
    decreases rs.len(),
{
    if rs.len() == 0 {
        from == to
    } else {
        rs.last().start <= rs.last().end && rs.last().end == to && covers(
            rs.drop_last(),
            from,
            rs.last().start as int,
        )
    }
}

pub proof fn lemma_covers_ordered(rs: Seq<StyledRange>, from: int, to: int)
    requires
        covers(rs, from, to),
    ensures
        from <= to,
        forall|i: int| 0 <= i < rs.len() ==> from <= #[trigger] rs[i].start <= rs[i].end <= to,
    decreases rs.len(),
{
    if rs.len() > 0 {
        lemma_covers_ordered(rs.drop_last(), from, rs.last().start as int);
        assert forall|i: int| 0 <= i < rs.len() implies from <= #[trigger] rs[i].start
            <= rs[i].end <= to by {
            if i < rs.len() - 1 {
                assert(rs[i] == rs.drop_last()[i]);
            }
        }
    }
}

/// Total byte length of a line's tokens.
pub open spec fn token_bytes(ts: Seq<(Style, usize)>) -> nat
    decreases ts.len(),
{
    if ts.len() == 0 {
        0
    } else {
        token_bytes(ts.drop_last()) + ts.last().1 as nat
    }
}

proof fn lemma_token_bytes_prefix(ts: Seq<(Style, usize)>, j: int)
    requires
        0 <= j <= ts.len(),
    ensures
        token_bytes(ts.take(j)) <= token_bytes(ts),
    decreases ts.len() - j,
{
    if j < ts.len() {
        lemma_token_bytes_prefix(ts, j + 1);
        assert(ts.take(j + 1).drop_last() =~= ts.take(j));
    } else {
        assert(ts.take(j) =~= ts);
    }
}

/// Relies on syntect's `SyntaxSet::find_syntax_by_extension`: the syntax for
/// files with the extension, if the set has one.
#[verifier::external_body]
fn find_syntax<'a>(ss: &'a SyntaxSet, ext: &str) -> (r: Option<&'a SyntaxReference>) {
    ss.find_syntax_by_extension(ext)
}

/// A syntax set, its syntax for Rust files and a theme. The syntax always
/// comes from the set, which is where highlighting looks up its contexts.
pub struct RustHighlighter<'a> {
    ss: &'a SyntaxSet,
    syntax: &'a SyntaxReference,
    theme: &'a Theme,
}

impl<'a> RustHighlighter<'a> {
    /// The Rust highlighter of `ss` under `theme`; `None` when the set has no
    /// syntax for Rust files.
    pub fn new(ss: &'a SyntaxSet, theme: &'a Theme) -> (r: Option<RustHighlighter<'a>>) {
        match find_syntax(ss, "rs") {
            Some(syntax) => Some(RustHighlighter { ss, syntax, theme }),
            None => None,
        }
    }
}

/// A line highlighter in progress, beside the syntax set its syntax came from.
struct LineHighlighter<'a> {
    lines: HighlightLines<'a>,
    ss: &'a SyntaxSet,
}

/// Relies on syntect's `HighlightLines::new`: a line highlighter for the
/// Rust syntax and theme of `hl`, in its initial state, kept with `hl`'s set.
#[verifier::external_body]
fn new_line_highlighter<'a>(hl: &RustHighlighter<'a>) -> (r: LineHighlighter<'a>) {
    LineHighlighter { lines: HighlightLines::new(hl.syntax, hl.theme), ss: hl.ss }
}

/// Relies on syntect's `HighlightLines::highlight`: the tokens of one line, in
/// order, whose texts put together make the line. Each token is a slice of the
/// line, so each ends on a character. Each keeps its style and its length in
/// bytes.
#[verifier::external_body]
fn highlight_line(h: &mut LineHighlighter, line: &str) -> (r: Vec<(Style, usize)>)
    ensures
        token_bytes(r@) == line.spec_bytes().len(),
        forall|j: int|
            0 <= j <= r@.len() ==> is_char_boundary(line.spec_bytes(), #[trigger] token_bytes(r@.take(j)) as int),
{
    h.lines.highlight(line, h.ss).into_iter().map(|(style, text)| (style, text.len())).collect()
}

/// In UTF-8, the byte after a line feed begins a character, or is the end.
proof fn lemma_boundary_after_newline(bytes: Seq<u8>, k: int)
    requires
        valid_utf8(bytes),
        0 <= k < bytes.len(),
        bytes[k] == 10u8,
    ensures
        is_char_boundary(bytes, k + 1),
{
    if k + 1 == bytes.len() {
        is_char_boundary_start_end_of_seq(bytes);
    } else {
        is_char_boundary_iff_is_leading_byte(bytes, k);
        assert(is_leading_byte_width_1(bytes[k]));
        valid_utf8_split(bytes, k);
        let s = bytes.subrange(k, bytes.len() as int);
        assert(valid_utf8(s));
        let t = pop_first_scalar(s);
        assert(t =~= bytes.subrange(k + 1, bytes.len() as int));
        assert(valid_utf8(t));
        is_char_boundary_iff_not_is_continuation_byte(t, 0);
        is_char_boundary_iff_not_is_continuation_byte(bytes, k + 1);
    }
}

/// A character boundary of a window `bytes[ls..e]` that starts and ends on
/// characters is a character boundary of `bytes`.
proof fn lemma_boundary_transfer(bytes: Seq<u8>, ls: int, e: int, p: int)
    requires
        valid_utf8(bytes),
        0 <= ls <= e <= bytes.len(),
        valid_utf8(bytes.subrange(ls, e)),
        is_char_boundary(bytes, e),
        0 <= p <= e - ls,
        is_char_boundary(bytes.subrange(ls, e), p),
    ensures
        is_char_boundary(bytes, ls + p),
{
    let sub = bytes.subrange(ls, e);
    if p < e - ls {
        is_char_boundary_iff_not_is_continuation_byte(sub, p);
        is_char_boundary_iff_not_is_continuation_byte(bytes, ls + p);
        assert(sub[p] == bytes[ls + p]);
    }
}

/// Every range of `rs` starts and ends on a character of the text `bytes`.
pub open spec fn on_characters(rs: Seq<StyledRange>, bytes: Seq<u8>) -> bool {
    forall|i: int|
        0 <= i < rs.len() ==> is_char_boundary(bytes, #[trigger] rs[i].start as int) && is_char_boundary(
            bytes,
            rs[i].end as int,
        )
}

/// No range of `rs` runs over a line feed of `bytes`, but as its last byte.
pub open spec fn within_lines(rs: Seq<StyledRange>, bytes: Seq<u8>) -> bool {
    forall|i: int, k: int|
        #![trigger rs[i], bytes[k]]
        0 <= i < rs.len() && rs[i].start <= k < rs[i].end - 1 ==> bytes[k] != 10u8
}

/// The byte length of the first line of `s`, its line terminator included.
fn first_line_len(s: &str) -> (r: usize)
    requires
        s.spec_bytes().len() > 0,
    ensures
        0 < r <= s.spec_bytes().len(),
        r < s.spec_bytes().len() ==> s.spec_bytes()[r - 1] == 10u8,
        forall|k: int| 0 <= k < r - 1 ==> s.spec_bytes()[k] != 10u8,
{
    let bytes = s.as_bytes();
    let mut k: usize = 0;
    while k < bytes.len() && bytes[k] != 10u8
        invariant
            k <= bytes@.len(),
            bytes@ == s.spec_bytes(),
            forall|j: int| 0 <= j < k ==> bytes@[j] != 10u8,
        decreases bytes@.len() - k,
    {
        k = k + 1;
    }
    if k < bytes.len() {
        k + 1
    } else {
        k
    }
}

/// Tokenizes the Rust source `src` line by line, each line with its
/// terminator, and turns each token into the range of bytes it covers in the
/// whole text. The ranges cover `src` exactly; an empty text has none.
pub fn syntax_highlight(hl: &RustHighlighter, src: &str) -> (r: Vec<StyledRange>)
    requires
        src.spec_bytes().len() <= usize::MAX,
    ensures
        covers(r@, 0, src.spec_bytes().len() as int),
        src.spec_bytes().len() == 0 ==> r@.len() == 0,
        within_lines(r@, src.spec_bytes()),
        on_characters(r@, src.spec_bytes()),
{
    let mut h = new_line_highlighter(hl);
    let mut out: Vec<StyledRange> = Vec::new();
    let mut index: usize = 0;
    let mut rest: &str = src;
    proof {
        encode_utf8_valid_utf8(src@);
        is_char_boundary_start_end_of_seq(src.spec_bytes());
    }
    while rest.len() > 0
        invariant
            index + rest.spec_bytes().len() == src.spec_bytes().len(),
            src.spec_bytes().len() <= usize::MAX,
            covers(out@, 0, index as int),
            src.spec_bytes().len() == 0 ==> out@.len() == 0,
            rest.spec_bytes() =~= src.spec_bytes().subrange(index as int, src.spec_bytes().len() as int),
            within_lines(out@, src.spec_bytes()),
            on_characters(out@, src.spec_bytes()),
            is_char_boundary(src.spec_bytes(), index as int),
        decreases rest.spec_bytes().len(),
    {
        let cut = first_line_len(rest);
        proof {
            encode_utf8_valid_utf8(rest@);
            if cut < rest.spec_bytes().len() {
                lemma_boundary_after_newline(rest.spec_bytes(), cut - 1);
            } else {
                is_char_boundary_start_end_of_seq(rest.spec_bytes());
            }
        }
        let (line, tail) = rest.split_at(cut);
        proof {
            let b = src.spec_bytes();
            let n = b.len() as int;
            encode_utf8_valid_utf8(src@);
            encode_utf8_valid_utf8(line@);
            is_char_boundary_start_end_of_seq(b);
            assert(rest.spec_bytes() =~= b.subrange(index as int, n));
            lemma_boundary_transfer(b, index as int, n, cut as int);
            assert(line.spec_bytes() =~= b.subrange(index as int, index + cut));
        }
        let tokens = highlight_line(&mut h, line);
        let ghost line_start = index;
        proof {
            assert forall|q: int| line_start <= q < line_start + cut - 1 implies #[trigger] src.spec_bytes()[q]
                != 10u8 by {
                assert(src.spec_bytes()[q] == rest.spec_bytes()[q - line_start]);
            }
        }
        let mut j: usize = 0;
        while j < tokens.len()
            invariant
                j <= tokens@.len(),
                token_bytes(tokens@) == line.spec_bytes().len(),
                line.spec_bytes().len() + tail.spec_bytes().len() == rest.spec_bytes().len(),
                index + rest.spec_bytes().len() == src.spec_bytes().len() + (index - line_start),
                index == line_start + token_bytes(tokens@.take(j as int)),
                line_start + line.spec_bytes().len() <= src.spec_bytes().len(),
                src.spec_bytes().len() <= usize::MAX,
                src.spec_bytes().len() > 0,
                line.spec_bytes().len() == cut,
                tail.spec_bytes() =~= src.spec_bytes().subrange(line_start + cut, src.spec_bytes().len() as int),
                forall|q: int| line_start <= q < line_start + cut - 1 ==> #[trigger] src.spec_bytes()[q] != 10u8,
                within_lines(out@, src.spec_bytes()),
                on_characters(out@, src.spec_bytes()),
                is_char_boundary(src.spec_bytes(), index as int),
                is_char_boundary(src.spec_bytes(), line_start + cut),
                valid_utf8(src.spec_bytes()),
                line.spec_bytes() =~= src.spec_bytes().subrange(line_start as int, line_start + cut),
                valid_utf8(line.spec_bytes()),
                forall|jj: int|
                    0 <= jj <= tokens@.len() ==> is_char_boundary(line.spec_bytes(), #[trigger] token_bytes(tokens@.take(jj)) as int),
                covers(out@, 0, index as int),
            decreases tokens@.len() - j,
        {
            proof {
                assert(tokens@.take(j + 1).drop_last() =~= tokens@.take(j as int));
                lemma_token_bytes_prefix(tokens@, j + 1);
            }
            let (style, len) = tokens[j];
            let r = StyledRange { style, start: index, end: index + len };
            proof {
                let b = src.spec_bytes();
                assert(is_char_boundary(line.spec_bytes(), token_bytes(tokens@.take(j + 1)) as int));
                lemma_boundary_transfer(b, line_start as int, line_start + cut, token_bytes(tokens@.take(j + 1)) as int);
            }
            let ghost prev = out@;
            out.push(r);
            assert(out@.drop_last() =~= prev);
            proof {
                let b = src.spec_bytes();
                assert forall|ii: int| 0 <= ii < out@.len() implies is_char_boundary(b, #[trigger] out@[ii].start as int)
                    && is_char_boundary(b, out@[ii].end as int) by {
                    if ii < prev.len() {
                        assert(out@[ii] == prev[ii]);
                    }
                }
            }
            proof {
                let b = src.spec_bytes();
                assert forall|ii: int, kk: int|
                    #![trigger out@[ii], b[kk]]
                    0 <= ii < out@.len() && out@[ii].start <= kk < out@[ii].end - 1 implies b[kk] != 10u8 by {
                    if ii < prev.len() {
                        assert(out@[ii] == prev[ii]);
                    }
                }
            }
            index = index + len;
            j = j + 1;
        }
        assert(tokens@.take(j as int) =~= tokens@);
        rest = tail;
    }
    out
}


/// The length in bytes of a text's UTF-8 encoding.
pub open spec fn byte_len(s: Seq<char>) -> nat {
    encode_utf8(s).len()
}

/// One cached file: its text and the styled ranges that cover it.
pub struct HighlightCacheEntry {
    pub string: String,
    pub highlighted: Vec<StyledRange>,
}

impl HighlightCacheEntry {
    /// The ranges cover the text, stay within its lines and cut it only
    /// between characters.
    pub open spec fn wf(&self) -> bool {
        &&& covers(self.highlighted@, 0, byte_len(self.string@) as int)
        &&& within_lines(self.highlighted@, encode_utf8(self.string@))
        &&& on_characters(self.highlighted@, encode_utf8(self.string@))
    }
}

/// The styled-range decompositions computed so far, one per distinct file
/// content, with a count of how many were computed.
pub struct HighlightCache {
    pub entries: Vec<HighlightCacheEntry>,
    pub computations: u64,
}

impl HighlightCache {
    /// Every entry covers its text, and no text is cached twice.
    pub open spec fn wf(&self) -> bool {
        &&& forall|i: int| 0 <= i < self.entries@.len() ==> #[trigger] self.entries@[i].wf()
        &&& forall|i: int, j: int|
            0 <= i < j < self.entries@.len() ==> #[trigger] self.entries@[i].string@
                != #[trigger] self.entries@[j].string@
    }

    /// `other` keeps every entry of `self` where it was, and may add more.
    pub open spec fn extended_by(&self, other: HighlightCache) -> bool {
        &&& self.entries@.len() <= other.entries@.len()
        &&& forall|i: int| 0 <= i < self.entries@.len() ==> #[trigger] other.entries@[i] == self.entries@[i]
    }

    /// The styled ranges cached for `text`.
    pub open spec fn ranges_of(&self, text: Seq<char>) -> Seq<StyledRange> {
        let i = choose|i: int| 0 <= i < self.entries@.len() && #[trigger] self.entries@[i].string@ == text;
        self.entries@[i].highlighted@
    }

    pub proof fn lemma_ranges_of(&self, i: int)
        requires
            self.wf(),
            0 <= i < self.entries@.len(),
        ensures
            self.ranges_of(self.entries@[i].string@) == self.entries@[i].highlighted@,
    {
        let text = self.entries@[i].string@;
        let j = choose|j: int| 0 <= j < self.entries@.len() && #[trigger] self.entries@[j].string@ == text;
        assert(0 <= j < self.entries@.len() && self.entries@[j].string@ == text);
        if j < i {
            assert(self.entries@[j].string@ != self.entries@[i].string@);
        } else if i < j {
            assert(self.entries@[i].string@ != self.entries@[j].string@);
        }
    }

    pub open spec fn holds(&self, text: Seq<char>) -> bool {
        exists|i: int| 0 <= i < self.entries@.len() && #[trigger] self.entries@[i].string@ == text
    }

    /// An empty cache.
    pub fn new() -> (r: HighlightCache)
        ensures
            r.wf(),
            r.entries@.len() == 0,
            r.computations == 0,
    {
        HighlightCache { entries: Vec::new(), computations: 0 }
    }

    /// How many decompositions this cache has computed.
    pub fn computations(&self) -> (r: u64)
        ensures
            r == self.computations,
    {
        self.computations
    }

    /// The index of the entry for `text`: the one already cached, left as it
    /// is with nothing recomputed, or a new one computed now and appended.
    pub fn get_or_compute(&mut self, hl: &RustHighlighter, text: &String) -> (r: usize)
        requires
            old(self).wf(),
            byte_len(text@) <= usize::MAX,
        ensures
            final(self).wf(),
            r < final(self).entries@.len(),
            final(self).entries@[r as int].string@ == text@,
            old(self).extended_by(*final(self)),
            old(self).holds(text@) ==> *final(self) == *old(self),
            !old(self).holds(text@) ==> {
                &&& final(self).entries@.len() == old(self).entries@.len() + 1
                &&& final(self).entries@.drop_last() == old(self).entries@
                &&& final(self).computations == if old(self).computations < u64::MAX {
                    (old(self).computations + 1) as u64
                } else {
                    old(self).computations
                }
            },
    {
        let mut i: usize = 0;
        while i < self.entries.len()
            invariant
                i <= self.entries@.len(),
                *self == *old(self),
                old(self).wf(),
                forall|j: int| 0 <= j < i ==> self.entries@[j].string@ != text@,
            decreases self.entries@.len() - i,
        {
            if self.entries[i].string == *text {
                return i;
            }
            i = i + 1;
        }
        assert(!self.holds(text@));
        let highlighted = syntax_highlight(hl, text.as_str());
        let entry = HighlightCacheEntry { string: text.clone(), highlighted };
        let ghost prev = self.entries@;
        let at = self.entries.len();
        self.entries.push(entry);
        if self.computations < u64::MAX {
            self.computations = self.computations + 1;
        }
        assert(self.entries@.drop_last() =~= prev);
        assert(self.entries@[prev.len() as int].wf());
        assert forall|a: int, b: int|
            0 <= a < b < self.entries@.len() implies #[trigger] self.entries@[a].string@
            != #[trigger] self.entries@[b].string@ by {
            if b == prev.len() {
                assert(self.entries@[a] == prev[a]);
            } else {
                assert(self.entries@[a] == prev[a] && self.entries@[b] == prev[b]);
            }
        }
        at
    }

    /// The entry at `i`.
    pub fn entry(&self, i: usize) -> (r: &HighlightCacheEntry)
        requires
            i < self.entries@.len(),
        ensures
            *r == self.entries@[i as int],
    {
        &self.entries[i]
    }
}


pub open spec fn max_int(a: int, b: int) -> int {
    if a < b { b } else { a }
}

pub open spec fn min_int(a: int, b: int) -> int {
    if a < b { a } else { b }
}

/// The pieces of `rs` that fall inside the bytes `a..b`, each cut to that
/// window; pieces that do not reach into it are left out.
pub open spec fn clip(rs: Seq<StyledRange>, a: int, b: int) -> Seq<StyledRange>
    decreases rs.len(),
{
    if rs.len() == 0 {
        Seq::empty()
    } else {
        let l = rs.last();
        let s = max_int(l.start as int, a);
        let e = min_int(l.end as int, b);
        clip(rs.drop_last(), a, b) + if s < e {
            seq![StyledRange { style: l.style, start: s as usize, end: e as usize }]
        } else {
            Seq::empty()
        }
    }
}

pub open spec fn clamp(x: int, lo: int, hi: int) -> int {
    if x < lo { lo } else if x > hi { hi } else { x }
}

proof fn lemma_clip_nonempty(rs: Seq<StyledRange>, a: int, b: int)
    ensures
        forall|i: int| 0 <= i < clip(rs, a, b).len() ==> #[trigger] clip(rs, a, b)[i].start < clip(rs, a, b)[i].end,
    decreases rs.len(),
{
    if rs.len() > 0 {
        lemma_clip_nonempty(rs.drop_last(), a, b);
        let c = clip(rs, a, b);
        let ci = clip(rs.drop_last(), a, b);
        assert forall|i: int| 0 <= i < c.len() implies #[trigger] c[i].start < c[i].end by {
            if i < ci.len() {
                assert(c[i] == ci[i]);
            }
        }
    }
}

proof fn lemma_covers_point_empty(rs: Seq<StyledRange>, x: int)
    requires
        covers(rs, x, x),
        forall|i: int| 0 <= i < rs.len() ==> #[trigger] rs[i].start < rs[i].end,
    ensures
        rs.len() == 0,
{
    if rs.len() > 0 {
        lemma_covers_ordered(rs, x, x);
        assert(rs[rs.len() - 1].start < rs[rs.len() - 1].end);
    }
}

proof fn lemma_clip_covers(rs: Seq<StyledRange>, s0: int, n: int, a: int, b: int)
    requires
        covers(rs, s0, n),
        a <= b,
    ensures
        covers(clip(rs, a, b), clamp(a, s0, n), clamp(b, s0, n)),
    decreases rs.len(),
{
    lemma_covers_ordered(rs, s0, n);
    if rs.len() > 0 {
        let l = rs.last();
        let m = l.start as int;
        let init = rs.drop_last();
        assert(covers(init, s0, m));
        assert(l.end == n);
        lemma_clip_covers(init, s0, m, a, b);
        lemma_covers_ordered(init, s0, m);
        lemma_clip_nonempty(init, a, b);
        let ci = clip(init, a, b);
        let s = max_int(m, a);
        let e = min_int(n, b);
        assert(covers(ci, clamp(a, s0, m), clamp(b, s0, m)));
        if s < e {
            let x = StyledRange { style: l.style, start: s as usize, end: e as usize };
            assert(clip(rs, a, b) =~= ci.push(x));
            assert(clip(rs, a, b).drop_last() =~= ci);
            assert(clip(rs, a, b).last() == x);
            assert(x.end == clamp(b, s0, n));
            if a > m {
                lemma_covers_point_empty(ci, m);
                assert(clamp(a, s0, n) == a);
                assert(covers(ci, a, a));
            } else {
                assert(clamp(a, s0, n) == clamp(a, s0, m));
            }
            assert(covers(clip(rs, a, b), clamp(a, s0, n), clamp(b, s0, n)));
        } else {
            assert(clip(rs, a, b) =~= ci);
            if b <= m {
                assert(clamp(b, s0, n) == clamp(b, s0, m));
                assert(clamp(a, s0, n) == clamp(a, s0, m));
            } else if n == m {
            } else {
                lemma_covers_point_empty(ci, m);
                assert(clamp(a, s0, n) == clamp(b, s0, n));
            }
        }
    }
}

/// Within ranges that cover a text, the pieces cut to the bytes `lo..hi` cover
/// exactly those bytes, so the marked part shows exactly the text of the span;
/// for an empty span there is no piece at all.
pub proof fn lemma_marked_pieces_are_span(rs: Seq<StyledRange>, n: int, lo: int, hi: int)
    requires
        covers(rs, 0, n),
        0 <= lo <= hi <= n,
    ensures
        covers(clip(rs, lo, hi), lo, hi),
        lo == hi ==> clip(rs, lo, hi).len() == 0,
{
    lemma_clip_covers(rs, 0, n, lo, hi);
    if lo == hi {
        lemma_clip_nonempty(rs, lo, hi);
        lemma_covers_point_empty(clip(rs, lo, hi), lo);
    }
}

fn clip_ranges(rs: &Vec<StyledRange>, a: usize, b: usize) -> (r: Vec<StyledRange>)
    ensures
        r@ == clip(rs@, a as int, b as int),
{
    let mut out: Vec<StyledRange> = Vec::new();
    let mut i: usize = 0;
    while i < rs.len()
        invariant
            i <= rs@.len(),
            out@ == clip(rs@.take(i as int), a as int, b as int),
        decreases rs@.len() - i,
    {
        let l = rs[i];
        let s = if l.start < a { a } else { l.start };
        let e = if l.end < b { l.end } else { b };
        proof {
            assert(rs@.take(i + 1).drop_last() =~= rs@.take(i as int));
        }
        if s < e {
            out.push(StyledRange { style: l.style, start: s, end: e });
        }
        proof {
            assert(out@ =~= clip(rs@.take(i + 1), a as int, b as int));
        }
        i = i + 1;
    }
    assert(rs@.take(i as int) =~= rs@);
    out
}

/// Byte `k` of `text` begins a character, or is its end.
pub open spec fn cuts_at(text: Seq<char>, k: int) -> bool {
    is_char_boundary(encode_utf8(text), k)
}

/// Every range of `rs` starts and ends on a character of `text`.
pub open spec fn on_char_boundaries(text: Seq<char>, rs: Seq<StyledRange>) -> bool {
    forall|i: int|
        0 <= i < rs.len() ==> #[trigger] cuts_at(text, rs[i].start as int) && cuts_at(text, rs[i].end as int)
}

fn check_boundaries(text: &str, rs: &Vec<StyledRange>) -> (r: bool)
    ensures
        r == on_char_boundaries(text@, rs@),
{
    let mut i: usize = 0;
    while i < rs.len()
        invariant
            i <= rs@.len(),
            forall|j: int|
                0 <= j < i ==> #[trigger] cuts_at(text@, rs@[j].start as int) && cuts_at(text@, rs@[j].end as int),
        decreases rs@.len() - i,
    {
        let b1 = text.is_char_boundary(rs[i].start);
        let b2 = text.is_char_boundary(rs[i].end);
        assert(text.spec_bytes() == encode_utf8(text@));
        assert(b1 == cuts_at(text@, rs@[i as int].start as int));
        assert(b2 == cuts_at(text@, rs@[i as int].end as int));
        if !b1 || !b2 {
            return false;
        }
        assert forall|j: int| 0 <= j < i + 1 implies #[trigger] cuts_at(text@, rs@[j].start as int)
            && cuts_at(text@, rs@[j].end as int) by {
            if j == i {
                assert(cuts_at(text@, rs@[i as int].start as int));
            }
        }
        i = i + 1;
    }
    assert(on_char_boundaries(text@, rs@));
    true
}

/// What syntect's HTML rendering makes of the pieces `ranges` of `text`.
pub uninterp spec fn highlighted_html(text: Seq<char>, ranges: Seq<StyledRange>) -> Seq<char>;

/// Relies on syntect's `styled_line_to_highlighted_html`, without background
/// colours: one styled `<span>` per run of pieces, and no output for no pieces.
#[verifier::external_body]
fn styled_html(text: &str, ranges: &Vec<StyledRange>) -> (r: String)
    requires
        on_char_boundaries(text@, ranges@),
        forall|i: int| 0 <= i < ranges@.len() ==> #[trigger] ranges@[i].start <= ranges@[i].end
            <= text.spec_bytes().len(),
    ensures
        r@ == highlighted_html(text@, ranges@),
        ranges@.len() == 0 ==> r@.len() == 0,
{
    let pieces: Vec<(Style, &str)> = ranges.iter().map(|r| (r.style, &text[r.start..r.end])).collect();
    syntect::html::styled_line_to_highlighted_html(&pieces, syntect::html::IncludeBackground::No)
}

/// Whether the bytes `lo..hi` of `text` can be marked: they lie in order inside
/// the text, and every cut falls on a character.
pub open spec fn markable(text: Seq<char>, rs: Seq<StyledRange>, lo: int, hi: int) -> bool {
    &&& lo <= hi <= byte_len(text)
    &&& on_char_boundaries(text, clip(rs, 0, lo))
    &&& on_char_boundaries(text, clip(rs, lo, hi))
    &&& on_char_boundaries(text, clip(rs, hi, byte_len(text) as int))
}

/// The highlighted text with the bytes `lo..hi` marked: the HTML of what comes
/// before, the marker (a pointer glyph for an empty span, else the HTML of the
/// span inside it), the HTML of what comes after.
pub open spec fn marked_html(text: Seq<char>, rs: Seq<StyledRange>, lo: int, hi: int) -> Seq<char> {
    highlighted_html(text, clip(rs, 0, lo))
        + "<span style='background-color: lightcoral; border-radius: 5px; padding: 1px;'>"@
        + (if lo == hi { "\u{2190}"@ } else { highlighted_html(text, clip(rs, lo, hi)) })
        + "</span>"@ + highlighted_html(text, clip(rs, hi, byte_len(text) as int))
}

/// Marks the bytes `lo..hi` of the highlighted `text`; `None` where they
/// cannot be marked.
pub fn mark_span(text: &str, highlighted: &Vec<StyledRange>, lo: usize, hi: usize) -> (r: Option<String>)
    requires
        covers(highlighted@, 0, byte_len(text@) as int),
        byte_len(text@) <= usize::MAX,
    ensures
        r is Some <==> markable(text@, highlighted@, lo as int, hi as int),
        r matches Some(m) ==> m@ == marked_html(text@, highlighted@, lo as int, hi as int),
{
    let n = text.len();
    assert(text.spec_bytes() == encode_utf8(text@));
    if lo > hi || hi > n {
        return None;
    }
    let before = clip_ranges(highlighted, 0, lo);
    let it = clip_ranges(highlighted, lo, hi);
    let after = clip_ranges(highlighted, hi, n);
    if !check_boundaries(text, &before) || !check_boundaries(text, &it) || !check_boundaries(text, &after) {
        return None;
    }
    proof {
        lemma_marked_pieces_are_span(highlighted@, n as int, 0, lo as int);
        lemma_marked_pieces_are_span(highlighted@, n as int, lo as int, hi as int);
        lemma_marked_pieces_are_span(highlighted@, n as int, hi as int, n as int);
        lemma_covers_ordered(before@, 0, lo as int);
        lemma_covers_ordered(it@, lo as int, hi as int);
        lemma_covers_ordered(after@, hi as int, n as int);
        assert(n as int == text.spec_bytes().len());
        assert(forall|i: int| 0 <= i < before@.len() ==> #[trigger] before@[i].start <= before@[i].end
            <= text.spec_bytes().len());
    }
    let before_html = styled_html(text, &before);
    let it_html = styled_html(text, &it);
    let after_html = styled_html(text, &after);
    let mut out = String::new();
    out.append(before_html.as_str());
    out.append("<span style='background-color: lightcoral; border-radius: 5px; padding: 1px;'>");
    if lo == hi {
        out.append("\u{2190}");
    } else {
        out.append(it_html.as_str());
    }
    out.append("</span>");
    out.append(after_html.as_str());
    assert(out@ =~= marked_html(text@, highlighted@, lo as int, hi as int));
    Some(out)
}

} // verus!
