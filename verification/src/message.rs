//! Diagnostic messages about places in a source file, and the errors that carry them.

use crate::source::{SourceFile, SourceLocation};
use crate::span::SourceSpan;
use crate::text::{
    byte_len, byte_offset, char_index, is_char_offset, lemma_byte_offset_monotone,
    lemma_char_index, push_char,
};
use annotate_snippets::renderer::DecorStyle;
use annotate_snippets::{AnnotationKind, Level, Renderer, Snippet};
use std::ops::Range;
use vstd::prelude::*;

verus! {

/// How severe a message is.
#[derive(Debug, Copy, Clone, PartialEq, Eq, Structural)]
pub enum SourceMessageLevel {
    Error,
    Warning,
    Info,
}

/// A text attached to a span of the source.
pub struct SourceLabel {
    span: SourceSpan,
    label: String,
}

impl SourceLabel {
    pub closed spec fn spec_span(&self) -> SourceSpan {
        self.span
    }

    pub closed spec fn spec_label(&self) -> Seq<char> {
        self.label@
    }

    pub fn new(span: SourceSpan, label: String) -> (r: Self)
        ensures
            r.spec_span() == span,
            r.spec_label() == label@,
    {
        SourceLabel { span, label }
    }

    pub fn span(&self) -> (r: &SourceSpan)
        ensures
            *r == self.spec_span(),
    {
        &self.span
    }

    pub fn label(&self) -> (r: &str)
        ensures
            r@ == self.spec_label(),
    {
        self.label.as_str()
    }
}

impl Clone for SourceLabel {
    fn clone(&self) -> (r: Self)
        ensures
            r == *self,
    {
        SourceLabel { span: self.span.clone(), label: self.label.clone() }
    }
}

/// The number of occurrences of `c` among `s[a..b]`.
pub open spec fn count_range(s: Seq<char>, c: char, a: int, b: int) -> nat
    decreases b - a,
{
    if b <= a {
        0
    } else {
        count_range(s, c, a, b - 1) + if s[b - 1] == c {
            1nat
        } else {
            0nat
        }
    }
}

/// The number of line breaks in `s`.
pub open spec fn newline_count(s: Seq<char>) -> nat {
    count_range(s, '\n', 0, s.len() as int)
}

/// `span` covers whole characters of `text`, in order.
pub open spec fn span_in_text(span: SourceSpan, text: Seq<char>) -> bool {
    &&& span.range.start <= span.range.end
    &&& is_char_offset(text, span.range.start as int)
    &&& is_char_offset(text, span.range.end as int)
}

/// `span`, shifted back by `offset`, covers whole characters of `excerpt`.
pub open spec fn label_fits(span: SourceSpan, excerpt: Seq<char>, offset: usize) -> bool {
    &&& offset <= span.range.start <= span.range.end
    &&& is_char_offset(excerpt, span.range.start - offset)
    &&& is_char_offset(excerpt, span.range.end - offset)
}

/// An excerpt of a source file together with the labels placed on it.
pub struct SourceSnippet {
    file_path: String,
    source_excerpt: String,
    start_line: usize,
    start_offset_in_bytes: usize,
    labels: Vec<SourceLabel>,
}

impl SourceSnippet {
    #[verifier::type_invariant]
    spec fn wf(&self) -> bool {
        &&& self.start_line + newline_count(self.source_excerpt@) + 4 <= usize::MAX
        &&& forall|i: int|
            0 <= i < self.labels@.len() ==> label_fits(
                #[trigger] self.labels@[i].spec_span(),
                self.source_excerpt@,
                self.start_offset_in_bytes,
            )
    }

    pub closed spec fn spec_file_path(&self) -> Seq<char> {
        self.file_path@
    }

    pub closed spec fn spec_excerpt(&self) -> Seq<char> {
        self.source_excerpt@
    }

    pub closed spec fn spec_start_line(&self) -> usize {
        self.start_line
    }

    pub closed spec fn spec_offset(&self) -> usize {
        self.start_offset_in_bytes
    }

    pub closed spec fn spec_labels(&self) -> Seq<SourceLabel> {
        self.labels@
    }

    pub fn new(file_path: &str, source_excerpt: &str, start_line: usize, start_offset_in_bytes: usize) -> (r: Self)
        requires
            start_line + newline_count(source_excerpt@) + 4 <= usize::MAX,
        ensures
            r.spec_file_path() == file_path@,
            r.spec_excerpt() == source_excerpt@,
            r.spec_start_line() == start_line,
            r.spec_offset() == start_offset_in_bytes,
            r.spec_labels() == Seq::<SourceLabel>::empty(),
    {
        SourceSnippet {
            file_path: file_path.to_owned(),
            source_excerpt: source_excerpt.to_owned(),
            start_line,
            start_offset_in_bytes,
            labels: Vec::new(),
        }
    }

    pub fn file_path(&self) -> (r: &str)
        ensures
            r@ == self.spec_file_path(),
    {
        self.file_path.as_str()
    }

    pub fn source_excerpt(&self) -> (r: &str)
        ensures
            r@ == self.spec_excerpt(),
    {
        self.source_excerpt.as_str()
    }

    pub fn start_line(&self) -> (r: usize)
        ensures
            r == self.spec_start_line(),
    {
        self.start_line
    }

    pub fn labels(&self) -> (r: &Vec<SourceLabel>)
        ensures
            r@ == self.spec_labels(),
    {
        &self.labels
    }

    pub fn set_labels(&mut self, labels: Vec<SourceLabel>)
        requires
            forall|i: int|
                0 <= i < labels@.len() ==> label_fits(
                    #[trigger] labels@[i].spec_span(),
                    old(self).spec_excerpt(),
                    old(self).spec_offset(),
                ),
        ensures
            final(self).spec_labels() == labels@,
            final(self).spec_file_path() == old(self).spec_file_path(),
            final(self).spec_excerpt() == old(self).spec_excerpt(),
            final(self).spec_start_line() == old(self).spec_start_line(),
            final(self).spec_offset() == old(self).spec_offset(),
    {
        proof {
            use_type_invariant(&*self);
        }
        self.labels = labels;
    }

    pub fn start_offset_in_bytes(&self) -> (r: usize)
        ensures
            r == self.spec_offset(),
    {
        self.start_offset_in_bytes
    }

    pub fn add_label(&mut self, label: SourceLabel)
        requires
            label_fits(label.spec_span(), old(self).spec_excerpt(), old(self).spec_offset()),
        ensures
            final(self).spec_labels() == old(self).spec_labels().push(label),
            final(self).spec_file_path() == old(self).spec_file_path(),
            final(self).spec_excerpt() == old(self).spec_excerpt(),
            final(self).spec_start_line() == old(self).spec_start_line(),
            final(self).spec_offset() == old(self).spec_offset(),
    {
        proof {
            use_type_invariant(&*self);
        }
        let mut labels = self.labels.clone();
        assert(labels@ =~= self.labels@);
        labels.push(label);
        self.labels = labels;
    }
}


/// The index just after the last line break before index `k`, or 0.
pub open spec fn line_start_index(s: Seq<char>, k: int) -> int
    decreases k,
{
    if k <= 0 {
        0
    } else if s[k - 1] == '\n' {
        k
    } else {
        line_start_index(s, k - 1)
    }
}

/// The index of the first line break at or after index `k`, or the end of `s`.
pub open spec fn line_end_index(s: Seq<char>, k: int) -> int
    decreases s.len() - k,
{
    if k >= s.len() {
        s.len() as int
    } else if s[k] == '\n' {
        k
    } else {
        line_end_index(s, k + 1)
    }
}

/// The smallest start among the spans of `labels[..i]`.
pub open spec fn min_start_upto(labels: Seq<SourceLabel>, i: int) -> usize
    decreases i,
{
    if i <= 1 {
        labels[0].spec_span().range.start
    } else {
        let m = min_start_upto(labels, i - 1);
        let x = labels[i - 1].spec_span().range.start;
        if x < m {
            x
        } else {
            m
        }
    }
}

/// The largest end among the spans of `labels[..i]`.
pub open spec fn max_end_upto(labels: Seq<SourceLabel>, i: int) -> usize
    decreases i,
{
    if i <= 1 {
        labels[0].spec_span().range.end
    } else {
        let m = max_end_upto(labels, i - 1);
        let x = labels[i - 1].spec_span().range.end;
        if x > m {
            x
        } else {
            m
        }
    }
}

pub proof fn lemma_line_bounds(s: Seq<char>, k: int)
    requires
        0 <= k <= s.len(),
    ensures
        0 <= line_start_index(s, k) <= k,
        k <= line_end_index(s, k) <= s.len(),
    decreases s.len() - k,
{
    lemma_line_start_bound(s, k);
    if k < s.len() && s[k] != '\n' {
        lemma_line_bounds(s, k + 1);
    }
}

proof fn lemma_line_start_bound(s: Seq<char>, k: int)
    requires
        0 <= k <= s.len(),
    ensures
        0 <= line_start_index(s, k) <= k,
    decreases k,
{
    if k > 0 && s[k - 1] != '\n' {
        lemma_line_start_bound(s, k - 1);
    }
}

pub proof fn lemma_count_split(s: Seq<char>, c: char, a: int, m: int, b: int)
    requires
        a <= m <= b,
    ensures
        count_range(s, c, a, b) == count_range(s, c, a, m) + count_range(s, c, m, b),
        count_range(s, c, a, b) <= b - a,
    decreases b - m,
{
    if b > m {
        lemma_count_split(s, c, a, m, b - 1);
    } else {
        lemma_count_bound(s, c, a, b);
    }
    lemma_count_bound(s, c, a, b);
}

/// No line break lies between the start of a line and a position on it.
pub proof fn lemma_line_start_no_newline(s: Seq<char>, k: int)
    requires
        0 <= k <= s.len(),
    ensures
        count_range(s, '\n', line_start_index(s, k), k) == 0,
    decreases k,
{
    if k > 0 && s[k - 1] != '\n' {
        lemma_line_start_no_newline(s, k - 1);
        lemma_line_start_bound(s, k - 1);
    }
}

proof fn lemma_count_bound(s: Seq<char>, c: char, a: int, b: int)
    requires
        a <= b,
    ensures
        count_range(s, c, a, b) <= b - a,
    decreases b - a,
{
    if b > a {
        lemma_count_bound(s, c, a, b - 1);
    }
}

pub proof fn lemma_count_subrange(s: Seq<char>, c: char, a: int, b: int)
    requires
        0 <= a <= b <= s.len(),
    ensures
        count_range(s.subrange(a, b), c, 0, b - a) == count_range(s, c, a, b),
    decreases b - a,
{
    if b > a {
        lemma_count_subrange(s, c, a, b - 1);
        assert(count_range(s.subrange(a, b), c, 0, b - 1 - a) == count_range(
            s.subrange(a, b - 1),
            c,
            0,
            b - 1 - a,
        )) by {
            lemma_count_same(s.subrange(a, b), s.subrange(a, b - 1), c, b - 1 - a);
        }
    }
}

proof fn lemma_count_same(s: Seq<char>, t: Seq<char>, c: char, k: int)
    requires
        0 <= k <= s.len(),
        k <= t.len(),
        forall|i: int| 0 <= i < k ==> s[i] == t[i],
    ensures
        count_range(s, c, 0, k) == count_range(t, c, 0, k),
    decreases k,
{
    if k > 0 {
        lemma_count_same(s, t, c, k - 1);
    }
}

/// Byte offsets inside an excerpt are the byte offsets in the whole text, less the excerpt's start.
pub proof fn lemma_byte_offset_subrange(s: Seq<char>, a: int, b: int, k: int)
    requires
        0 <= a <= k <= b <= s.len(),
    ensures
        byte_offset(s.subrange(a, b), k - a) + byte_offset(s, a) == byte_offset(s, k),
    decreases k - a,
{
    if k > a {
        lemma_byte_offset_subrange(s, a, b, k - 1);
        assert(s.subrange(a, b)[k - 1 - a] == s[k - 1]);
        assert(byte_offset(s.subrange(a, b), k - a) == byte_offset(s.subrange(a, b), k - 1 - a)
            + crate::text::char_width(s.subrange(a, b)[k - 1 - a]));
    }
}

proof fn lemma_min_start(labels: Seq<SourceLabel>, i: int) -> (j: int)
    requires
        1 <= i <= labels.len(),
    ensures
        0 <= j < i,
        min_start_upto(labels, i) == labels[j].spec_span().range.start,
        forall|k: int| 0 <= k < i ==> min_start_upto(labels, i) <= #[trigger] labels[k].spec_span().range.start,
    decreases i,
{
    if i == 1 {
        0
    } else {
        let j0 = lemma_min_start(labels, i - 1);
        if labels[i - 1].spec_span().range.start < min_start_upto(labels, i - 1) {
            i - 1
        } else {
            j0
        }
    }
}

proof fn lemma_max_end(labels: Seq<SourceLabel>, i: int) -> (j: int)
    requires
        1 <= i <= labels.len(),
    ensures
        0 <= j < i,
        max_end_upto(labels, i) == labels[j].spec_span().range.end,
        forall|k: int| 0 <= k < i ==> max_end_upto(labels, i) >= #[trigger] labels[k].spec_span().range.end,
    decreases i,
{
    if i == 1 {
        0
    } else {
        let j0 = lemma_max_end(labels, i - 1);
        if labels[i - 1].spec_span().range.end > max_end_upto(labels, i - 1) {
            i - 1
        } else {
            j0
        }
    }
}

/// A span of `text` that lies within `text[a..b]` fits an excerpt holding those characters.
proof fn lemma_span_fits_excerpt(text: Seq<char>, a: int, b: int, span: SourceSpan)
    requires
        0 <= a <= b <= text.len(),
        span_in_text(span, text),
        byte_offset(text, a) <= span.range.start,
        span.range.end <= byte_offset(text, b),
    ensures
        label_fits(span, text.subrange(a, b), byte_offset(text, a) as usize),
{
    let ks = char_index(text, span.range.start as int);
    let ke = char_index(text, span.range.end as int);
    assert(0 <= ks <= text.len() && byte_offset(text, ks) == span.range.start);
    assert(0 <= ke <= text.len() && byte_offset(text, ke) == span.range.end);
    if ks > ke {
        lemma_byte_offset_monotone(text, ke, ks);
    }
    if ks < a {
        lemma_byte_offset_monotone(text, ks, a);
    }
    if ke > b {
        lemma_byte_offset_monotone(text, b, ke);
    }
    lemma_byte_offset_subrange(text, a, b, ks);
    lemma_byte_offset_subrange(text, a, b, ke);
    let e = text.subrange(a, b);
    assert(0 <= ks - a <= e.len() && byte_offset(e, ks - a) == span.range.start - byte_offset(text, a));
    assert(0 <= ke - a <= e.len() && byte_offset(e, ke - a) == span.range.end - byte_offset(text, a));
}

/// The excerpt around the labels: the lines from the one holding the smallest label start
/// to the one holding the largest label end, numbered from the first of them.
pub fn create_source_snippet_from_labels(source_file: &SourceFile, labels: Vec<SourceLabel>) -> (r: SourceSnippet)
    requires
        labels@.len() > 0,
        forall|i: int| 0 <= i < labels@.len() ==> span_in_text(#[trigger] labels@[i].spec_span(), source_file.text()),
    ensures
        ({
            let text = source_file.text();
            let ks = char_index(text, min_start_upto(labels@, labels@.len() as int) as int);
            let ke = char_index(text, max_end_upto(labels@, labels@.len() as int) as int);
            let ls = line_start_index(text, ks);
            let le = line_end_index(text, ke);
            &&& r.spec_file_path() == source_file.file_path()
            &&& r.spec_excerpt() == text.subrange(ls, le)
            &&& r.spec_start_line() == count_range(text, '\n', 0, ks) + 1
            &&& r.spec_offset() == byte_offset(text, ls)
            &&& r.spec_labels() == labels@
        }),
{
    let ghost text = source_file.text();
    let ghost n = labels@.len() as int;
    let mut start = labels[0].span().start();
    let mut end = labels[0].span().end();
    let mut i: usize = 0;
    while i < labels.len()
        invariant
            labels@.len() == n,
            n > 0,
            i <= n,
            start == min_start_upto(labels@, if i == 0 { 1 } else { i as int }),
            end == max_end_upto(labels@, if i == 0 { 1 } else { i as int }),
        decreases n - i,
    {
        let s = labels[i].span().start();
        let e = labels[i].span().end();
        if s < start {
            start = s;
        }
        if e > end {
            end = e;
        }
        i = i + 1;
    }
    let ghost jmin = lemma_min_start(labels@, n);
    let ghost jmax = lemma_max_end(labels@, n);
    assert(span_in_text(labels@[jmin].spec_span(), text));
    assert(span_in_text(labels@[jmax].spec_span(), text));
    let ks = match source_file.index_of_offset(start) {
        Some(k) => k,
        None => {
            assert(false);
            0
        },
    };
    let ke = match source_file.index_of_offset(end) {
        Some(k) => k,
        None => {
            assert(false);
            0
        },
    };
    proof {
        lemma_char_index(text, ks as int);
        lemma_char_index(text, ke as int);
        assert(span_in_text(labels@[0].spec_span(), text));
        if ks > ke {
            lemma_byte_offset_monotone(text, ke as int, ks as int);
        }
    }
    let total = source_file.char_count();
    let mut count: usize = 0;
    let mut line_start: usize = 0;
    let mut j: usize = 0;
    while j < ks
        invariant
            text == source_file.text(),
            ks <= total == text.len(),
            j <= ks,
            count == count_range(text, '\n', 0, j as int),
            count <= j,
            line_start == line_start_index(text, j as int),
        decreases ks - j,
    {
        if source_file.char_at(j) == '\n' {
            count = count + 1;
            line_start = j + 1;
        }
        j = j + 1;
    }
    let mut line_end: usize = ke;
    while line_end < total && source_file.char_at(line_end) != '\n'
        invariant
            text == source_file.text(),
            total == text.len(),
            ke <= line_end <= total,
            line_end_index(text, line_end as int) == line_end_index(text, ke as int),
        decreases total - line_end,
    {
        line_end = line_end + 1;
    }
    proof {
        lemma_line_bounds(text, ks as int);
        lemma_line_bounds(text, ke as int);
    }
    let excerpt = source_file.substring(line_start, line_end);
    let offset = source_file.offset_of(line_start);
    let _ = source_file.byte_len();
    proof {
        lemma_count_split(text, '\n', 0, line_start as int, line_end as int);
        lemma_count_split(text, '\n', 0, line_start as int, ks as int);
        lemma_count_subrange(text, '\n', line_start as int, line_end as int);
        lemma_count_split(text, '\n', 0, ks as int, line_end as int);
        lemma_line_start_no_newline(text, ks as int);
        lemma_byte_offset_monotone(text, line_end as int, text.len() as int);
        lemma_byte_offset_monotone(text, 0, text.len() as int);
        assert(newline_count(excerpt@) == count_range(text, '\n', line_start as int, line_end as int));
        assert forall|i: int| 0 <= i < labels@.len() implies label_fits(
            #[trigger] labels@[i].spec_span(),
            excerpt@,
            offset,
        ) by {
            let sp = labels@[i].spec_span();
            assert(span_in_text(sp, text));
            lemma_byte_offset_monotone(text, line_start as int, ks as int);
            lemma_byte_offset_monotone(text, ke as int, line_end as int);
            lemma_span_fits_excerpt(text, line_start as int, line_end as int, sp);
        }
    }
    SourceSnippet {
        file_path: source_file.path().clone(),
        source_excerpt: excerpt,
        start_line: count + 1,
        start_offset_in_bytes: offset,
        labels,
    }
}


/// The excerpt holding the lines of `span`; the span is moved to be relative to the excerpt.
pub fn create_source_snippet_from_span(span: &mut SourceSpan, source_file: &SourceFile) -> (r: SourceSnippet)
    requires
        span_in_text(*old(span), source_file.text()),
    ensures
        ({
            let text = source_file.text();
            let ks = char_index(text, old(span).range.start as int);
            let ke = char_index(text, old(span).range.end as int);
            let ls = line_start_index(text, ks);
            let le = line_end_index(text, ke);
            &&& r.spec_file_path() == source_file.file_path()
            &&& r.spec_excerpt() == text.subrange(ls, le)
            &&& r.spec_start_line() == count_range(text, '\n', 0, ks) + 1
            &&& r.spec_offset() == byte_offset(text, ls)
            &&& r.spec_labels() == Seq::<SourceLabel>::empty()
            &&& final(span).range.start == old(span).range.start - byte_offset(text, ls)
            &&& final(span).range.end == old(span).range.end - byte_offset(text, ls)
        }),
{
    let label = SourceLabel::new(span.clone(), String::new());
    let mut labels: Vec<SourceLabel> = Vec::new();
    labels.push(label);
    let snippet = create_source_snippet_from_labels(source_file, labels);
    let offset = snippet.start_offset_in_bytes();
    proof {
        use_type_invariant(&snippet);
        assert(label_fits(snippet.spec_labels()[0].spec_span(), snippet.spec_excerpt(), offset));
    }
    span.range = Range { start: span.range.start - offset, end: span.range.end - offset };
    SourceSnippet {
        file_path: snippet.file_path().to_owned(),
        source_excerpt: snippet.source_excerpt().to_owned(),
        start_line: snippet.start_line(),
        start_offset_in_bytes: offset,
        labels: Vec::new(),
    }
}

/// The text that `annotate_snippets` renders for one titled snippet with primary annotations,
/// with Unicode decorations and default styling.
pub uninterp spec fn rendered_report(
    level: SourceMessageLevel,
    title: Seq<char>,
    excerpt: Seq<char>,
    line_start: usize,
    path: Seq<char>,
    annotations: Seq<(usize, usize, Seq<char>)>,
) -> Seq<char>;

/// The annotations in the form `rendered_report` takes them.
pub open spec fn annotation_views(a: Seq<(usize, usize, String)>) -> Seq<(usize, usize, Seq<char>)> {
    a.map_values(|x: (usize, usize, String)| (x.0, x.1, x.2@))
}

/// Renders a report with `annotate_snippets` (`Renderer::styled` with Unicode decorations):
/// one group titled `title` at `level`, holding the snippet `excerpt` numbered from `line_start`,
/// with `path` as its origin, unfolded, with one primary annotation per entry.
/// The result is named `rendered_report` of these arguments; nothing more of it is stated.
/// The renderer slices the excerpt at the annotation offsets and numbers lines from
/// `line_start`, looking up to four lines past the start of an annotation that spans lines;
/// so the offsets must lie on character boundaries and those line numbers must fit.
#[verifier::external_body]
fn render_report(
    level: SourceMessageLevel,
    title: &String,
    excerpt: &String,
    line_start: usize,
    path: &String,
    annotations: &Vec<(usize, usize, String)>,
) -> (r: String)
    requires
        line_start + newline_count(excerpt@) + 4 <= usize::MAX,
        forall|i: int|
            0 <= i < annotations@.len() ==> {
                &&& (#[trigger] annotations@[i]).0 <= annotations@[i].1
                &&& is_char_offset(excerpt@, annotations@[i].0 as int)
                &&& is_char_offset(excerpt@, annotations@[i].1 as int)
            },
    ensures
        r@ == rendered_report(level, title@, excerpt@, line_start, path@, annotation_views(annotations@)),
{
    let level = match level {
        SourceMessageLevel::Error => Level::ERROR,
        SourceMessageLevel::Warning => Level::WARNING,
        SourceMessageLevel::Info => Level::INFO,
    };
    let snippet = Snippet::source(excerpt.as_str()).line_start(line_start).path(path.as_str()).fold(
        false,
    ).annotations(
        annotations.iter().map(|a| AnnotationKind::Primary.span(a.0..a.1).label(a.2.as_str())),
    );
    let report = vec![level.primary_title(title.as_str()).element(snippet)];
    Renderer::styled().decor_style(DecorStyle::Unicode).render(&report)
}

/// The labels of a snippet as annotations relative to its excerpt.
pub open spec fn relative_annotations(labels: Seq<SourceLabel>, offset: usize) -> Seq<(usize, usize, Seq<char>)> {
    labels.map_values(
        |l: SourceLabel|
            (
                (l.spec_span().range.start - offset) as usize,
                (l.spec_span().range.end - offset) as usize,
                l.spec_label(),
            ),
    )
}

/// A diagnostic: a level, a message, and an annotated source excerpt.
pub struct SourceMessage {
    level: SourceMessageLevel,
    message: String,
    source_snippet: SourceSnippet,
}

impl SourceMessage {
    pub closed spec fn spec_level(&self) -> SourceMessageLevel {
        self.level
    }

    pub closed spec fn spec_message(&self) -> Seq<char> {
        self.message@
    }

    pub closed spec fn spec_snippet(&self) -> SourceSnippet {
        self.source_snippet
    }

    /// What `render` gives back for this message.
    pub open spec fn spec_render(&self) -> Seq<char> {
        rendered_report(
            self.spec_level(),
            self.spec_message(),
            self.spec_snippet().spec_excerpt(),
            self.spec_snippet().spec_start_line(),
            self.spec_snippet().spec_file_path(),
            relative_annotations(self.spec_snippet().spec_labels(), self.spec_snippet().spec_offset()),
        )
    }

    pub fn new(level: SourceMessageLevel, message: String, source_snippet: SourceSnippet) -> (r: Self)
        ensures
            r.spec_level() == level,
            r.spec_message() == message@,
            r.spec_snippet() == source_snippet,
    {
        SourceMessage { level, message, source_snippet }
    }

    pub fn builder<'a>(source_file: &'a SourceFile, level: SourceMessageLevel, message: String) -> (r:
        SourceMessageBuilder<'a>)
        ensures
            r.spec_file() == source_file,
            r.spec_level() == level,
            r.spec_message() == message@,
            r.spec_labels() == Seq::<SourceLabel>::empty(),
    {
        SourceMessageBuilder::new(source_file, level, message)
    }

    pub fn error_builder<'a>(source_file: &'a SourceFile, message: String) -> (r: SourceMessageBuilder<'a>)
        ensures
            r.spec_file() == source_file,
            r.spec_level() == SourceMessageLevel::Error,
            r.spec_message() == message@,
            r.spec_labels() == Seq::<SourceLabel>::empty(),
    {
        SourceMessageBuilder::new(source_file, SourceMessageLevel::Error, message)
    }

    pub fn error(message: String, source_snippet: SourceSnippet) -> (r: Self)
        ensures
            r.spec_level() == SourceMessageLevel::Error,
            r.spec_message() == message@,
            r.spec_snippet() == source_snippet,
    {
        Self::new(SourceMessageLevel::Error, message, source_snippet)
    }

    pub fn warning(message: String, source_snippet: SourceSnippet) -> (r: Self)
        ensures
            r.spec_level() == SourceMessageLevel::Warning,
            r.spec_message() == message@,
            r.spec_snippet() == source_snippet,
    {
        Self::new(SourceMessageLevel::Warning, message, source_snippet)
    }

    pub fn info(message: String, source_snippet: SourceSnippet) -> (r: Self)
        ensures
            r.spec_level() == SourceMessageLevel::Info,
            r.spec_message() == message@,
            r.spec_snippet() == source_snippet,
    {
        Self::new(SourceMessageLevel::Info, message, source_snippet)
    }

    /// Adds a label to the message's snippet.
    pub fn add_label(&mut self, label: SourceLabel)
        requires
            label_fits(label.spec_span(), old(self).spec_snippet().spec_excerpt(), old(self).spec_snippet().spec_offset()),
        ensures
            final(self).spec_level() == old(self).spec_level(),
            final(self).spec_message() == old(self).spec_message(),
            final(self).spec_snippet().spec_labels() == old(self).spec_snippet().spec_labels().push(label),
            final(self).spec_snippet().spec_file_path() == old(self).spec_snippet().spec_file_path(),
            final(self).spec_snippet().spec_excerpt() == old(self).spec_snippet().spec_excerpt(),
            final(self).spec_snippet().spec_start_line() == old(self).spec_snippet().spec_start_line(),
            final(self).spec_snippet().spec_offset() == old(self).spec_snippet().spec_offset(),
    {
        self.source_snippet.add_label(label);
    }

    /// The message rendered as a terminal report.
    pub fn render(&self) -> (r: String)
        ensures
            r@ == self.spec_render(),
    {
        let snippet = &self.source_snippet;
        proof {
            use_type_invariant(snippet);
        }
        let offset = snippet.start_offset_in_bytes();
        let labels = snippet.labels();
        let mut annotations: Vec<(usize, usize, String)> = Vec::new();
        let mut i: usize = 0;
        while i < labels.len()
            invariant
                labels@ == snippet.spec_labels(),
                offset == snippet.spec_offset(),
                i <= labels@.len(),
                annotations@.len() == i,
                annotation_views(annotations@) =~= relative_annotations(labels@, offset).take(i as int),
                forall|j: int|
                    0 <= j < labels@.len() ==> label_fits(
                        #[trigger] labels@[j].spec_span(),
                        snippet.spec_excerpt(),
                        offset,
                    ),
                forall|j: int|
                    0 <= j < i ==> {
                        &&& (#[trigger] annotations@[j]).0 <= annotations@[j].1
                        &&& is_char_offset(snippet.spec_excerpt(), annotations@[j].0 as int)
                        &&& is_char_offset(snippet.spec_excerpt(), annotations@[j].1 as int)
                    },
            decreases labels@.len() - i,
        {
            let label = &labels[i];
            assert(label_fits(labels@[i as int].spec_span(), snippet.spec_excerpt(), offset));
            let start = label.span().start() - offset;
            let end = label.span().end() - offset;
            annotations.push((start, end, label.label().to_owned()));
            i = i + 1;
        }
        assert(annotation_views(annotations@) =~= relative_annotations(labels@, offset));
        render_report(
            self.level,
            &self.message,
            &snippet.source_excerpt,
            snippet.start_line,
            &snippet.file_path,
            &annotations,
        )
    }
}

/// Collects the labels of a message about a source file, then builds the message
/// with the excerpt that holds them.
pub struct SourceMessageBuilder<'source> {
    source_file: &'source SourceFile,
    level: SourceMessageLevel,
    message: String,
    labels: Vec<SourceLabel>,
}

impl<'source> SourceMessageBuilder<'source> {
    pub closed spec fn spec_file(&self) -> &'source SourceFile {
        self.source_file
    }

    pub closed spec fn spec_level(&self) -> SourceMessageLevel {
        self.level
    }

    pub closed spec fn spec_message(&self) -> Seq<char> {
        self.message@
    }

    pub closed spec fn spec_labels(&self) -> Seq<SourceLabel> {
        self.labels@
    }

    pub fn new(source_file: &'source SourceFile, level: SourceMessageLevel, message: String) -> (r: Self)
        ensures
            r.spec_file() == source_file,
            r.spec_level() == level,
            r.spec_message() == message@,
            r.spec_labels() == Seq::<SourceLabel>::empty(),
    {
        SourceMessageBuilder { source_file, level, message, labels: Vec::new() }
    }

    pub fn label(self, span: SourceSpan, label: &str) -> (r: Self)
        ensures
            r.spec_file() == self.spec_file(),
            r.spec_level() == self.spec_level(),
            r.spec_message() == self.spec_message(),
            r.spec_labels().len() == self.spec_labels().len() + 1,
            r.spec_labels().drop_last() == self.spec_labels(),
            r.spec_labels().last().spec_span() == span,
            r.spec_labels().last().spec_label() == label@,
    {
        let mut labels = self.labels;
        labels.push(SourceLabel::new(span, label.to_owned()));
        assert(labels@.drop_last() =~= self.labels@);
        SourceMessageBuilder { source_file: self.source_file, level: self.level, message: self.message, labels }
    }

    /// The message, with the excerpt spanning the lines of all labels.
    pub fn build(self) -> (r: SourceMessage)
        requires
            self.spec_labels().len() > 0,
            forall|i: int|
                0 <= i < self.spec_labels().len() ==> span_in_text(
                    #[trigger] self.spec_labels()[i].spec_span(),
                    self.spec_file().text(),
                ),
        ensures
            r.spec_level() == self.spec_level(),
            r.spec_message() == self.spec_message(),
            is_snippet_of(r.spec_snippet(), *self.spec_file(), self.spec_labels()),
    {
        let snippet = create_source_snippet_from_labels(self.source_file, self.labels);
        SourceMessage::new(self.level, self.message, snippet)
    }

    pub fn build_error_result<T>(self) -> (r: Result<T, EffyError>)
        requires
            self.spec_labels().len() > 0,
            forall|i: int|
                0 <= i < self.spec_labels().len() ==> span_in_text(
                    #[trigger] self.spec_labels()[i].spec_span(),
                    self.spec_file().text(),
                ),
        ensures
            r matches Err(e) && is_source_error(
                e,
                *self.spec_file(),
                self.spec_level(),
                self.spec_message(),
                self.spec_labels(),
            ),
    {
        Err(self.build_error())
    }

    pub fn build_error(self) -> (r: EffyError)
        requires
            self.spec_labels().len() > 0,
            forall|i: int|
                0 <= i < self.spec_labels().len() ==> span_in_text(
                    #[trigger] self.spec_labels()[i].spec_span(),
                    self.spec_file().text(),
                ),
        ensures
            is_source_error(r, *self.spec_file(), self.spec_level(), self.spec_message(), self.spec_labels()),
    {
        EffyError::Source(SourceError::new(self.build()))
    }
}

/// `snippet` is the excerpt `create_source_snippet_from_labels` makes for `labels` in `file`.
pub open spec fn is_snippet_of(snippet: SourceSnippet, file: SourceFile, labels: Seq<SourceLabel>) -> bool {
    let text = file.text();
    let ks = char_index(text, min_start_upto(labels, labels.len() as int) as int);
    let ke = char_index(text, max_end_upto(labels, labels.len() as int) as int);
    let ls = line_start_index(text, ks);
    let le = line_end_index(text, ke);
    &&& snippet.spec_file_path() == file.file_path()
    &&& snippet.spec_excerpt() == text.subrange(ls, le)
    &&& snippet.spec_start_line() == count_range(text, '\n', 0, ks) + 1
    &&& snippet.spec_offset() == byte_offset(text, ls)
    &&& snippet.spec_labels() == labels
}

/// `e` is the error a message builder makes for `file`, `level`, `message` and `labels`.
pub open spec fn is_source_error(
    e: EffyError,
    file: SourceFile,
    level: SourceMessageLevel,
    message: Seq<char>,
    labels: Seq<SourceLabel>,
) -> bool {
    &&& e matches EffyError::Source(se)
    &&& se.source_message.spec_level() == level
    &&& se.source_message.spec_message() == message
    &&& is_snippet_of(se.source_message.spec_snippet(), file, labels)
}

/// `e` is the error a message builder makes for `file` with `message` at error level and
/// the single label `label` on `span`.
pub open spec fn is_labelled_error(e: EffyError, file: SourceFile, message: Seq<char>, span: SourceSpan, label: Seq<char>) -> bool {
    &&& e matches EffyError::Source(se)
    &&& se.source_message.spec_level() == SourceMessageLevel::Error
    &&& se.source_message.spec_message() == message
    &&& se.source_message.spec_snippet().spec_labels().len() == 1
    &&& se.source_message.spec_snippet().spec_labels()[0].spec_span() == span
    &&& se.source_message.spec_snippet().spec_labels()[0].spec_label() == label
    &&& is_snippet_of(se.source_message.spec_snippet(), file, se.source_message.spec_snippet().spec_labels())
}

/// An error that points into a source file.
pub struct SourceError {
    pub source_message: SourceMessage,
}

impl SourceError {
    pub fn new(source_message: SourceMessage) -> (r: Self)
        ensures
            r.source_message == source_message,
    {
        SourceError { source_message }
    }

    /// The text the error is displayed as: its message, rendered.
    pub fn to_display_string(&self) -> (r: String)
        ensures
            r@ == self.source_message.spec_render(),
    {
        self.source_message.render()
    }
}

/// The errors of this library: an annotated source error, or a plain message.
pub enum EffyError {
    Source(SourceError),
    Message(String),
}

/// The text an error is displayed as.
pub open spec fn error_text(e: EffyError) -> Seq<char> {
    match e {
        EffyError::Source(se) => se.source_message.spec_render(),
        EffyError::Message(m) => m@,
    }
}

impl EffyError {
    /// An error that is just a message.
    pub fn message(message: &str) -> (r: Self)
        ensures
            r matches EffyError::Message(m) && m@ == message@,
            error_text(r) == message@,
    {
        EffyError::Message(message.to_owned())
    }

    /// The text the error is displayed as: a source error is rendered.
    pub fn to_display_string(&self) -> (r: String)
        ensures
            r@ == error_text(*self),
    {
        match self {
            EffyError::Source(e) => e.source_message.render(),
            EffyError::Message(m) => m.clone(),
        }
    }
}

/// A source error with one label, over the whole file (numbered from line 1).
pub fn make_source_error(
    source_file: &SourceFile,
    primary_message: String,
    annotation_message: String,
    source_location: SourceLocation,
) -> (r: SourceError)
    requires
        span_in_text(source_location.span, source_file.text()),
    ensures
        r.source_message.spec_level() == SourceMessageLevel::Error,
        r.source_message.spec_message() == primary_message@,
        r.source_message.spec_snippet().spec_file_path() == source_file.file_path(),
        r.source_message.spec_snippet().spec_excerpt() == source_file.text(),
        r.source_message.spec_snippet().spec_start_line() == 1,
        r.source_message.spec_snippet().spec_offset() == 0,
        r.source_message.spec_snippet().spec_labels().len() == 1,
        r.source_message.spec_snippet().spec_labels()[0].spec_span() == source_location.span,
        r.source_message.spec_snippet().spec_labels()[0].spec_label() == annotation_message@,
{
    let _ = source_file.byte_len();
    proof {
        let text = source_file.text();
        lemma_count_split(text, '\n', 0, text.len() as int, text.len() as int);
        lemma_byte_offset_monotone(text, 0, text.len() as int);
        assert(text.subrange(0, text.len() as int) =~= text);
        let ke = char_index(text, source_location.span.range.end as int);
        assert(0 <= ke <= text.len() && byte_offset(text, ke) == source_location.span.range.end);
        lemma_byte_offset_monotone(text, ke, text.len() as int);
        lemma_span_fits_excerpt(text, 0, text.len() as int, source_location.span);
    }
    let mut source_snippet = SourceSnippet::new(
        source_file.path().as_str(),
        source_file.content().as_str(),
        1,
        0,
    );
    source_snippet.add_label(SourceLabel::new(source_location.span.clone(), annotation_message));
    let source_message = SourceMessage::error(primary_message, source_snippet);
    SourceError::new(source_message)
}

/// `make_source_error` as the error of a result.
pub fn make_source_error_result<T>(
    source_file: &SourceFile,
    primary_message: String,
    annotation_message: String,
    source_location: SourceLocation,
) -> (r: Result<T, EffyError>)
    requires
        span_in_text(source_location.span, source_file.text()),
    ensures
        r matches Err(EffyError::Source(se)) && {
            &&& se.source_message.spec_message() == primary_message@
            &&& se.source_message.spec_snippet().spec_excerpt() == source_file.text()
            &&& se.source_message.spec_snippet().spec_labels()[0].spec_span() == source_location.span
            &&& se.source_message.spec_snippet().spec_labels()[0].spec_label() == annotation_message@
        },
{
    Err(EffyError::Source(make_source_error(source_file, primary_message, annotation_message, source_location)))
}

/// The text `strip_ansi_escapes` leaves of `s` once its ANSI escape sequences are removed.
pub uninterp spec fn ansi_stripped(s: Seq<char>) -> Seq<char>;

/// `strip_ansi_escapes::strip_str`: `s` without its ANSI escape sequences.
/// The result is named `ansi_stripped` of `s`; nothing more of it is stated.
#[verifier::external_body]
pub fn unansi(string: &str) -> (r: String)
    ensures
        r@ == ansi_stripped(string@),
{
    strip_ansi_escapes::strip_str(string)
}

/// The error as a test sees it: its display followed by a line break, without ANSI escapes.
pub fn to_test_string(err: &EffyError) -> (r: String)
    ensures
        r@ == ansi_stripped(error_text(*err).push('\n')),
{
    let mut test_string = err.to_display_string();
    push_char(&mut test_string, '\n');
    unansi(test_string.as_str())
}


/// `e` is a source error in `file` whose excerpt is the whole text, numbered from line 1,
/// with `message` and the single label `label` on `span`.
pub open spec fn is_whole_file_error(
    e: EffyError,
    file: SourceFile,
    message: Seq<char>,
    span: SourceSpan,
    label: Seq<char>,
) -> bool {
    &&& e matches EffyError::Source(se)
    &&& se.source_message.spec_level() == SourceMessageLevel::Error
    &&& se.source_message.spec_message() == message
    &&& se.source_message.spec_snippet().spec_file_path() == file.file_path()
    &&& se.source_message.spec_snippet().spec_excerpt() == file.text()
    &&& se.source_message.spec_snippet().spec_start_line() == 1
    &&& se.source_message.spec_snippet().spec_offset() == 0
    &&& se.source_message.spec_snippet().spec_labels().len() == 1
    &&& se.source_message.spec_snippet().spec_labels()[0].spec_span() == span
    &&& se.source_message.spec_snippet().spec_labels()[0].spec_label() == label
}

/// The error of `make_source_error` for `span`, as an `EffyError`.
pub fn whole_file_error(source_file: &SourceFile, message: String, span: SourceSpan, label: String) -> (r: EffyError)
    requires
        span_in_text(span, source_file.text()),
    ensures
        is_whole_file_error(r, *source_file, message@, span, label@),
{
    EffyError::Source(make_source_error(source_file, message, label, SourceLocation::new(source_file, span)))
}

} // verus!
