//! The diff-to-annotation pipeline: the comment matcher, the annotation
//! scanner, the hunk reducer and the patchset walker.

use vstd::prelude::*;
use vstd::string::StrSliceExecFns;
use vstd::string::StringExecFns;

use crate::error::PipelineError;
use crate::issue_tracker::{render_ok, spec_issue, Issue, IssueV, Templates, TemplatesV};
use crate::text::{
    digit_run_end, is_space, is_space_char, lemma_skip_ws_at, sat_add, saturating_add_u64,
    skip_digits, skip_ws, spec_lines, split_lines,
};

verus! {

/// One recognized annotation: the target-file line it sits on, the file it
/// belongs to, and the marker's payload.
#[derive(Debug, PartialEq)]
pub struct Comment {
    pub line: u64,
    pub file: String,
    pub details: String,
}

/// A typed annotation: the marker keyword decides the variant.
#[derive(Debug, PartialEq)]
pub enum Annotation {
    FixMe(Comment),
    Todo(Comment),
}

impl Annotation {
    /// The shared payload of either variant.
    pub open spec fn comment(&self) -> Comment {
        match self {
            Annotation::FixMe(c) => *c,
            Annotation::Todo(c) => *c,
        }
    }
}

/// The marker keyword a line carries.
#[derive(Debug, PartialEq, Eq, Structural, Clone, Copy)]
pub enum Marker {
    Todo,
    FixMe,
}

pub open spec fn todo_keyword() -> Seq<char> {
    seq!['T', 'O', 'D', 'O']
}

pub open spec fn fixme_keyword() -> Seq<char> {
    seq!['F', 'I', 'X', 'M', 'E']
}

/// Does one of the marker keywords, followed by its colon, stand at `p`?
/// Yields the marker and the index just past the colon.
pub open spec fn marker_at(s: Seq<char>, p: int) -> Option<(Marker, int)> {
    if p + 5 <= s.len() && s.subrange(p, p + 4) == todo_keyword() && s[p + 4] == ':' {
        Some((Marker::Todo, p + 5))
    } else if p + 6 <= s.len() && s.subrange(p, p + 5) == fixme_keyword() && s[p + 5] == ':' {
        Some((Marker::FixMe, p + 6))
    } else {
        None
    }
}

/// The payload of a match: what follows the colon, with the leading
/// whitespace dropped — except that a payload of nothing but whitespace
/// keeps its last character, which is the shortest non-empty remainder.
pub open spec fn details_of(rest: Seq<char>) -> Seq<char> {
    let w = skip_ws(rest, 0);
    if w == rest.len() {
        rest.skip(rest.len() - 1)
    } else {
        rest.skip(w)
    }
}

/// The comment matcher: a line matches only if, after optional leading
/// whitespace, it starts with `//`, then at most one whitespace character,
/// then `TODO` or `FIXME`, a colon, and a non-empty remainder.
pub open spec fn spec_match(s: Seq<char>) -> Option<(Marker, Seq<char>)> {
    let i = skip_ws(s, 0);
    if i + 2 <= s.len() && s[i] == '/' && s[i + 1] == '/' {
        let p = if i + 2 < s.len() && is_space(s[i + 2]) {
            i + 3
        } else {
            i + 2
        };
        match marker_at(s, p) {
            Some((m, after)) => {
                if after < s.len() {
                    Some((m, details_of(s.subrange(after, s.len() as int))))
                } else {
                    None
                }
            },
            None => None,
        }
    } else {
        None
    }
}

/// Recognizes an annotation marker inside a single line of text.
pub fn match_comment(line: &str) -> (r: Option<(Marker, String)>)
    ensures
        match r {
            Some(p) => spec_match(line@) == Some((p.0, p.1@)),
            None => spec_match(line@) is None,
        },
{
    let n = line.unicode_len();
    let mut i: usize = 0;
    while i < n && is_space_char(line.get_char(i))
        invariant
            line@.len() == n,
            0 <= i <= n,
            forall|k: int| 0 <= k < i ==> is_space(line@[k]),
        decreases n - i,
    {
        i = i + 1;
    }
    proof {
        lemma_skip_ws_at(line@, 0, i as int);
    }
    if !(i < n && line.get_char(i) == '/' && i + 1 < n && line.get_char(i + 1) == '/') {
        return None;
    }
    let mut p = i + 2;
    if p < n && is_space_char(line.get_char(p)) {
        p = p + 1;
    }
    let (marker, after) = if n - p >= 5 && line.get_char(p) == 'T' && line.get_char(p + 1) == 'O'
        && line.get_char(p + 2) == 'D' && line.get_char(p + 3) == 'O' && line.get_char(p + 4)
        == ':' {
        proof {
            assert(line@.subrange(p as int, p + 4) =~= todo_keyword());
        }
        (Marker::Todo, p + 5)
    } else if n - p >= 6 && line.get_char(p) == 'F' && line.get_char(p + 1) == 'I' && line.get_char(
        p + 2,
    ) == 'X' && line.get_char(p + 3) == 'M' && line.get_char(p + 4) == 'E' && line.get_char(p + 5)
        == ':' {
        proof {
            assert(line@.subrange(p as int, p + 5) =~= fixme_keyword());
        }
        (Marker::FixMe, p + 6)
    } else {
        proof {
            if marker_at(line@, p as int) is Some {
                if line@.subrange(p as int, p + 4) == todo_keyword() {
                    assert(line@[p as int] == 'T' && line@[p + 1] == 'O' && line@[p + 2] == 'D'
                        && line@[p + 3] == 'O');
                }
                if p + 6 <= n && line@.subrange(p as int, p + 5) == fixme_keyword() {
                    assert(line@[p as int] == 'F' && line@[p + 1] == 'I' && line@[p + 2] == 'X'
                        && line@[p + 3] == 'M' && line@[p + 4] == 'E');
                }
            }
        }
        return None;
    };
    if after >= n {
        return None;
    }
    let ghost rest = line@.subrange(after as int, n as int);
    let mut j = after;
    while j < n && is_space_char(line.get_char(j))
        invariant
            line@.len() == n,
            after <= j <= n,
            forall|k: int| after <= k < j ==> is_space(line@[k]),
        decreases n - j,
    {
        j = j + 1;
    }
    proof {
        assert forall|k: int| 0 <= k < j - after implies is_space(rest[k]) by {
            assert(rest[k] == line@[after + k]);
        }
        lemma_skip_ws_at(rest, 0, j - after as int);
    }
    let dstart = if j == n {
        n - 1
    } else {
        j
    };
    let details = String::from_str(line.substring_char(dstart, n));
    proof {
        assert(details@ =~= details_of(rest));
    }
    Some((marker, details))
}

/// What the template engine yields for a template applied to a comment's
/// fields: the rendered body, or nothing when rendering fails.
pub uninterp spec fn rendered_template(
    template: Seq<char>,
    line: u64,
    file: Seq<char>,
    details: Seq<char>,
) -> Option<Seq<char>>;

/// Relies on handlebars::Handlebars::render_template: with the default
/// registry, rendering a template string against the same three fields is
/// a function of those values alone.
#[verifier::external_body]
fn render_comment_template(template: &str, line: u64, file: &str, details: &str) -> (r: Result<
    String,
    handlebars::RenderError,
>)
    ensures
        match r {
            Ok(s) => rendered_template(template@, line, file@, details@) == Some(s@),
            Err(_) => rendered_template(template@, line, file@, details@) is None,
        },
{
    let mut data = serde_json::Map::new();
    data.insert(String::from("line"), serde_json::Value::from(line));
    data.insert(String::from("file"), serde_json::Value::from(file));
    data.insert(String::from("details"), serde_json::Value::from(details));
    handlebars::Handlebars::new().render_template(template, &serde_json::Value::Object(data))
}

impl Comment {
    /// Renders a template with this comment's fields addressable as
    /// `line`, `file` and `details`.
    pub fn render(&self, template: &str) -> (r: Result<String, PipelineError>)
        ensures
            match r {
                Ok(s) => rendered_template(template@, self.line, self.file@, self.details@)
                    == Some(s@),
                Err(e) => e is TemplateError && rendered_template(
                    template@,
                    self.line,
                    self.file@,
                    self.details@,
                ) is None,
            },
    {
        match render_comment_template(template, self.line, self.file.as_str(), self.details.as_str())
        {
            Ok(s) => Ok(s),
            Err(e) => Err(PipelineError::TemplateError(e)),
        }
    }
}

/// The ghost shape of one emitted annotation.
pub struct AnnSpec {
    pub fixme: bool,
    pub line: u64,
    pub details: Seq<char>,
}

/// The ghost shape of an `Annotation` value.
pub open spec fn ann_view(a: Annotation) -> AnnSpec {
    AnnSpec {
        fixme: a is FixMe,
        line: a.comment().line,
        details: a.comment().details@,
    }
}

/// What the scanner emits for the lines `k..` of a blob whose first line
/// is line `offset` of the target file. Line numbers cap at `u64::MAX`.
pub open spec fn scan_from(lines: Seq<Seq<char>>, offset: u64, k: int) -> Seq<AnnSpec>
    decreases lines.len() - k,
{
    if k < 0 || k >= lines.len() {
        Seq::empty()
    } else {
        let rest = scan_from(lines, offset, k + 1);
        match spec_match(lines[k]) {
            Some(p) => seq![
                AnnSpec { fixme: p.0 is FixMe, line: sat_add(offset, k), details: p.1 },
            ] + rest,
            None => rest,
        }
    }
}

/// What the scanner emits for a whole blob.
pub open spec fn scan_view(lines: Seq<Seq<char>>, offset: u64) -> Seq<AnnSpec> {
    scan_from(lines, offset, 0)
}

/// Scans a text blob whose first line is line `offset` of `filename`,
/// emitting one typed annotation per matching line, in line order.
pub fn scan(input: &str, filename: &str, offset: u64) -> (r: Vec<Annotation>)
    ensures
        r@.map_values(|a: Annotation| ann_view(a)) == scan_view(spec_lines(input@), offset),
        forall|k: int| 0 <= k < r@.len() ==> (#[trigger] r@[k]).comment().file@ == filename@,
{
    let lines = split_lines(input);
    let ghost glines = spec_lines(input@);
    let mut r: Vec<Annotation> = Vec::new();
    let mut k: usize = 0;
    while k < lines.len()
        invariant
            lines@.len() == glines.len(),
            forall|t: int| 0 <= t < glines.len() ==> lines@[t]@ == glines[t],
            0 <= k <= lines.len(),
            r@.map_values(|a: Annotation| ann_view(a)) + scan_from(glines, offset, k as int)
                == scan_view(glines, offset),
            forall|t: int| 0 <= t < r@.len() ==> (#[trigger] r@[t]).comment().file@ == filename@,
        decreases lines.len() - k,
    {
        let ghost old_r = r@;
        match match_comment(lines[k].as_str()) {
            Some((marker, details)) => {
                let line_no = saturating_add_u64(offset, k as u64);
                let comment = Comment { line: line_no, file: String::from_str(filename), details };
                let ann = match marker {
                    Marker::Todo => Annotation::Todo(comment),
                    Marker::FixMe => Annotation::FixMe(comment),
                };
                r.push(ann);
                proof {
                    assert(r@.map_values(|a: Annotation| ann_view(a)) =~= old_r.map_values(
                        |a: Annotation| ann_view(a),
                    ) + seq![ann_view(r@[r@.len() - 1])]);
                }
            },
            None => {},
        }
        k = k + 1;
    }
    proof {
        assert(scan_from(glines, offset, k as int) =~= Seq::<AnnSpec>::empty());
        assert(r@.map_values(|a: Annotation| ann_view(a)) =~= scan_view(glines, offset));
    }
    r
}

/// Scans one whole file's text for annotation markers: the blob's first
/// line is line 1 of the file.
pub fn parse(input: &str, filename: &str) -> (r: Vec<Annotation>)
    ensures
        r@.map_values(|a: Annotation| ann_view(a)) == scan_view(spec_lines(input@), 1),
        forall|k: int| 0 <= k < r@.len() ==> (#[trigger] r@[k]).comment().file@ == filename@,
{
    scan(input, filename, 1)
}

/// One line of a parsed diff hunk: whether the diff marks it as added, the
/// target-file line number it carries, and its text.
pub struct DiffLine {
    pub added: bool,
    pub target_line: Option<u64>,
    pub value: String,
}

/// The ghost shape of a `DiffLine`.
pub struct LineV {
    pub added: bool,
    pub target_line: Option<u64>,
    pub value: Seq<char>,
}

impl View for DiffLine {
    type V = LineV;

    open spec fn view(&self) -> LineV {
        LineV { added: self.added, target_line: self.target_line, value: self.value@ }
    }
}

/// One hunk: a contiguous block of diff lines.
pub struct DiffHunk {
    pub lines: Vec<DiffLine>,
}

impl View for DiffHunk {
    type V = Seq<LineV>;

    open spec fn view(&self) -> Seq<LineV> {
        self.lines@.map_values(|l: DiffLine| l@)
    }
}

/// One changed file of a parsed diff: its target path and its hunks.
pub struct DiffFile {
    pub target_file: String,
    pub hunks: Vec<DiffHunk>,
}

/// The ghost shape of a `DiffFile`.
pub struct FileV {
    pub target_file: Seq<char>,
    pub hunks: Seq<Seq<LineV>>,
}

impl View for DiffFile {
    type V = FileV;

    open spec fn view(&self) -> FileV {
        FileV {
            target_file: self.target_file@,
            hunks: self.hunks@.map_values(|h: DiffHunk| h@),
        }
    }
}

/// A parsed patchset: its modified files and its added files.
pub struct DiffPatchSet {
    pub modified: Vec<DiffFile>,
    pub added: Vec<DiffFile>,
}

/// The ghost shape of a `DiffPatchSet`.
pub struct PatchV {
    pub modified: Seq<FileV>,
    pub added: Seq<FileV>,
}

impl View for DiffPatchSet {
    type V = PatchV;

    open spec fn view(&self) -> PatchV {
        PatchV {
            modified: self.modified@.map_values(|f: DiffFile| f@),
            added: self.added@.map_values(|f: DiffFile| f@),
        }
    }
}

/// A line counts as added when the diff marks it so and it carries a
/// target-file line number.
pub open spec fn is_added_line(l: LineV) -> bool {
    l.added && l.target_line is Some
}

/// The text of a hunk's added lines, in hunk order.
pub open spec fn added_vals(h: Seq<LineV>) -> Seq<Seq<char>>
    decreases h.len(),
{
    if h.len() == 0 {
        Seq::empty()
    } else {
        let rest = added_vals(h.drop_first());
        if is_added_line(h[0]) {
            seq![h[0].value] + rest
        } else {
            rest
        }
    }
}

/// The target-file line number of a hunk's first added line.
pub open spec fn first_added(h: Seq<LineV>) -> Option<u64>
    decreases h.len(),
{
    if h.len() == 0 {
        None
    } else if is_added_line(h[0]) {
        h[0].target_line
    } else {
        first_added(h.drop_first())
    }
}

/// The given pieces joined with single newlines: equivalently, each piece
/// followed by a newline, with exactly one trailing newline trimmed.
pub open spec fn join_nl(vals: Seq<Seq<char>>) -> Seq<char>
    decreases vals.len(),
{
    if vals.len() == 0 {
        Seq::empty()
    } else if vals.len() == 1 {
        vals[0]
    } else {
        vals[0] + seq!['\n'] + join_nl(vals.drop_first())
    }
}

/// The hunk reducer's result: the first added line's target line number
/// and the joined added-line text, or nothing for a hunk without added
/// lines.
pub open spec fn hunk_fragment(h: Seq<LineV>) -> Option<(u64, Seq<char>)> {
    match first_added(h) {
        Some(start) => Some((start, join_nl(added_vals(h)))),
        None => None,
    }
}

proof fn lemma_added_vals_push(h: Seq<LineV>, e: LineV)
    ensures
        added_vals(h.push(e)) == if is_added_line(e) {
            added_vals(h).push(e.value)
        } else {
            added_vals(h)
        },
    decreases h.len(),
{
    if h.len() == 0 {
        assert(h.push(e).drop_first() =~= Seq::<LineV>::empty());
        assert(h =~= Seq::<LineV>::empty());
        if is_added_line(e) {
            assert(added_vals(h.push(e)) =~= added_vals(h).push(e.value));
        }
    } else {
        assert(h.push(e).drop_first() =~= h.drop_first().push(e));
        lemma_added_vals_push(h.drop_first(), e);
        assert(h.push(e)[0] == h[0]);
        if is_added_line(e) {
            if is_added_line(h[0]) {
                assert(seq![h[0].value] + added_vals(h.drop_first()).push(e.value) =~= (
                seq![h[0].value] + added_vals(h.drop_first())).push(e.value));
            }
        }
    }
}

proof fn lemma_first_added_push(h: Seq<LineV>, e: LineV)
    ensures
        first_added(h.push(e)) == if first_added(h) is Some {
            first_added(h)
        } else if is_added_line(e) {
            e.target_line
        } else {
            None::<u64>
        },
    decreases h.len(),
{
    let hp = h.push(e);
    if h.len() == 0 {
        assert(hp.drop_first() =~= Seq::<LineV>::empty());
        assert(hp[0] == e);
        if is_added_line(e) {
            assert(first_added(hp) == e.target_line);
        } else {
            assert(first_added(hp) == first_added(hp.drop_first()));
        }
    } else {
        assert(hp.drop_first() =~= h.drop_first().push(e));
        lemma_first_added_push(h.drop_first(), e);
        assert(hp[0] == h[0]);
        if is_added_line(h[0]) {
            assert(first_added(h) == h[0].target_line);
            assert(first_added(hp) == hp[0].target_line);
        } else {
            assert(first_added(hp) == first_added(hp.drop_first()));
            assert(first_added(h) == first_added(h.drop_first()));
        }
    }
}

proof fn lemma_join_nl_push(vals: Seq<Seq<char>>, v: Seq<char>)
    requires
        vals.len() >= 1,
    ensures
        join_nl(vals.push(v)) == join_nl(vals) + seq!['\n'] + v,
    decreases vals.len(),
{
    if vals.len() == 1 {
        assert(vals.push(v).drop_first() =~= seq![v]);
        assert(join_nl(vals.push(v).drop_first()) == v);
    } else {
        assert(vals.push(v).drop_first() =~= vals.drop_first().push(v));
        lemma_join_nl_push(vals.drop_first(), v);
        assert(vals.push(v)[0] == vals[0]);
        assert(vals[0] + seq!['\n'] + (join_nl(vals.drop_first()) + seq!['\n'] + v) =~= (vals[0]
            + seq!['\n'] + join_nl(vals.drop_first())) + seq!['\n'] + v);
    }
}

/// A hunk has a first added line exactly when it has any added line.
pub proof fn lemma_first_added_iff(h: Seq<LineV>)
    ensures
        first_added(h) is Some <==> added_vals(h).len() > 0,
    decreases h.len(),
{
    if h.len() > 0 {
        lemma_first_added_iff(h.drop_first());
    }
}

/// The hunk reducer: collects a hunk's added-line text and the target
/// line number where it starts, or nothing if no line was added.
pub fn reduce_hunk(h: &DiffHunk) -> (r: Option<(u64, String)>)
    ensures
        match r {
            Some(p) => hunk_fragment(h@) == Some((p.0, p.1@)),
            None => hunk_fragment(h@) is None,
        },
{
    proof {
        reveal_strlit("\n");
    }
    let mut first: Option<u64> = None;
    let mut text = String::new();
    let mut k: usize = 0;
    while k < h.lines.len()
        invariant
            h@ == h.lines@.map_values(|l: DiffLine| l@),
            0 <= k <= h.lines.len(),
            first == first_added(h@.take(k as int)),
            first is Some ==> text@ == join_nl(added_vals(h@.take(k as int))),
        decreases h.lines.len() - k,
    {
        let ghost pre = h@.take(k as int);
        let ghost lv = h@[k as int];
        proof {
            assert(lv == h.lines@[k as int]@);
            assert(h@.take(k + 1) =~= pre.push(lv));
            lemma_added_vals_push(pre, lv);
            lemma_first_added_push(pre, lv);
            lemma_first_added_iff(pre);
        }
        let l = &h.lines[k];
        if l.added && l.target_line.is_some() {
            match first {
                None => {
                    first = Some(l.target_line.unwrap());
                    text = l.value.clone();
                    proof {
                        assert(added_vals(pre) =~= Seq::<Seq<char>>::empty());
                        assert(added_vals(h@.take(k + 1)) =~= seq![lv.value]);
                    }
                },
                Some(_) => {
                    let ghost t0 = text@;
                    text.append("\n");
                    text.append(l.value.as_str());
                    proof {
                        reveal_strlit("\n");
                        lemma_join_nl_push(added_vals(pre), lv.value);
                        assert(t0 == join_nl(added_vals(pre)));
                        assert(l.value@ == lv.value);
                        assert("\n"@ =~= seq!['\n']);
                        assert(text@ == t0 + "\n"@ + l.value@);
                        assert(text@ =~= join_nl(added_vals(pre)) + seq!['\n'] + lv.value);
                    }
                },
            }
        }
        k = k + 1;
    }
    proof {
        assert(h@.take(h.lines@.len() as int) =~= h@);
        lemma_first_added_iff(h@);
    }
    match first {
        Some(start) => Some((start, text)),
        None => None,
    }
}

/// A diff target path with its first two characters stripped: the
/// conventional `b/` prefix removed.
pub open spec fn normalize_path(p: Seq<char>) -> Seq<char> {
    if p.len() >= 2 {
        p.skip(2)
    } else {
        Seq::empty()
    }
}

/// One per-hunk fragment of added text, located in the target file.
pub struct PatchedFile {
    pub line: u64,
    pub filename: String,
    pub diff: String,
}

/// The ghost shape of a `PatchedFile`.
pub struct FragV {
    pub line: u64,
    pub filename: Seq<char>,
    pub diff: Seq<char>,
}

impl View for PatchedFile {
    type V = FragV;

    open spec fn view(&self) -> FragV {
        FragV { line: self.line, filename: self.filename@, diff: self.diff@ }
    }
}

/// The fragments of one file's hunks, in hunk order.
pub open spec fn hunk_frags(name: Seq<char>, hunks: Seq<Seq<LineV>>) -> Seq<FragV>
    decreases hunks.len(),
{
    if hunks.len() == 0 {
        Seq::empty()
    } else {
        let rest = hunk_frags(name, hunks.drop_first());
        match hunk_fragment(hunks[0]) {
            Some(p) => seq![FragV { line: p.0, filename: name, diff: p.1 }] + rest,
            None => rest,
        }
    }
}

/// The fragments of one changed file, under its normalized path.
pub open spec fn file_fragments(f: FileV) -> Seq<FragV> {
    hunk_frags(normalize_path(f.target_file), f.hunks)
}

/// The fragments of a run of changed files, in file order.
pub open spec fn files_fragments(fs: Seq<FileV>) -> Seq<FragV>
    decreases fs.len(),
{
    if fs.len() == 0 {
        Seq::empty()
    } else {
        file_fragments(fs[0]) + files_fragments(fs.drop_first())
    }
}

/// The patchset walker's result: modified files first, then added files,
/// each file's hunks in order.
pub open spec fn patch_fragments(p: PatchV) -> Seq<FragV> {
    files_fragments(p.modified) + files_fragments(p.added)
}

fn normalize_path_str(p: &str) -> (r: String)
    ensures
        r@ == normalize_path(p@),
{
    let n = p.unicode_len();
    if n >= 2 {
        let r = String::from_str(p.substring_char(2, n));
        proof {
            assert(r@ =~= p@.skip(2));
        }
        r
    } else {
        String::new()
    }
}

fn append_file_fragments(r: &mut Vec<PatchedFile>, f: &DiffFile)
    ensures
        final(r)@.map_values(|x: PatchedFile| x@) == old(r)@.map_values(|x: PatchedFile| x@)
            + file_fragments(f@),
{
    let name = normalize_path_str(f.target_file.as_str());
    let ghost hunks = f@.hunks;
    let mut j: usize = 0;
    proof {
        assert(hunks.skip(0) =~= hunks);
    }
    while j < f.hunks.len()
        invariant
            f@ == (FileV {
                target_file: f.target_file@,
                hunks: f.hunks@.map_values(|h: DiffHunk| h@),
            }),
            hunks == f@.hunks,
            name@ == normalize_path(f.target_file@),
            0 <= j <= f.hunks.len(),
            r@.map_values(|x: PatchedFile| x@) + hunk_frags(name@, hunks.skip(j as int)) == old(
                r,
            )@.map_values(|x: PatchedFile| x@) + hunk_frags(name@, hunks),
        decreases f.hunks.len() - j,
    {
        let ghost old_r = r@;
        proof {
            assert(hunks.skip(j as int).drop_first() =~= hunks.skip(j + 1));
            assert(hunks.skip(j as int)[0] == hunks[j as int]);
        }
        match reduce_hunk(&f.hunks[j]) {
            Some((start, text)) => {
                r.push(PatchedFile { line: start, filename: name.clone(), diff: text });
                proof {
                    assert(r@.map_values(|x: PatchedFile| x@) =~= old_r.map_values(
                        |x: PatchedFile| x@,
                    ) + seq![r@[r@.len() - 1]@]);
                }
            },
            None => {},
        }
        j = j + 1;
    }
    proof {
        assert(hunk_frags(name@, hunks.skip(f.hunks@.len() as int)) =~= Seq::<FragV>::empty());
        assert(r@.map_values(|x: PatchedFile| x@) =~= old(r)@.map_values(|x: PatchedFile| x@)
            + file_fragments(f@));
    }
}

/// The patchset walker: the fragments of the patchset's modified files,
/// then of its added files, each file's hunks in their original order.
pub fn get_patched_or_added_files(patch: &DiffPatchSet) -> (r: Vec<PatchedFile>)
    ensures
        r@.map_values(|x: PatchedFile| x@) == patch_fragments(patch@),
{
    let mut r: Vec<PatchedFile> = Vec::new();
    let ghost m = patch@.modified;
    let ghost a = patch@.added;
    let mut i: usize = 0;
    proof {
        assert(r@.map_values(|x: PatchedFile| x@) =~= Seq::<FragV>::empty());
        assert(m.skip(0) =~= m);
    }
    while i < patch.modified.len()
        invariant
            m == patch@.modified,
            a == patch@.added,
            patch@.modified == patch.modified@.map_values(|f: DiffFile| f@),
            0 <= i <= patch.modified.len(),
            r@.map_values(|x: PatchedFile| x@) + files_fragments(m.skip(i as int))
                == files_fragments(m),
        decreases patch.modified.len() - i,
    {
        proof {
            assert(m.skip(i as int).drop_first() =~= m.skip(i + 1));
            assert(m.skip(i as int)[0] == m[i as int]);
        }
        append_file_fragments(&mut r, &patch.modified[i]);
        i = i + 1;
    }
    proof {
        assert(files_fragments(m.skip(patch.modified@.len() as int)) =~= Seq::<FragV>::empty());
    }
    let mut j: usize = 0;
    proof {
        assert(a.skip(0) =~= a);
    }
    while j < patch.added.len()
        invariant
            m == patch@.modified,
            a == patch@.added,
            patch@.added == patch.added@.map_values(|f: DiffFile| f@),
            0 <= j <= patch.added.len(),
            r@.map_values(|x: PatchedFile| x@) + files_fragments(a.skip(j as int))
                == files_fragments(m) + files_fragments(a),
        decreases patch.added.len() - j,
    {
        proof {
            assert(a.skip(j as int).drop_first() =~= a.skip(j + 1));
            assert(a.skip(j as int)[0] == a[j as int]);
        }
        append_file_fragments(&mut r, &patch.added[j]);
        j = j + 1;
    }
    proof {
        assert(files_fragments(a.skip(patch.added@.len() as int)) =~= Seq::<FragV>::empty());
    }
    r
}

/// Whether one line is safe to hand to the external diff parser. A line
/// that does not begin with `@@ -` is never read as a hunk header and
/// always passes. A line that does begin so and has the header shape
/// `@@ -a[,b] +c[,d] @@ ...` over ASCII digits is admitted exactly when
/// each numeral is a run of at most nine digits: nine digits stay within
/// the parser's integer type on every platform, additions included,
/// while its unchecked integer conversion cannot take longer runs. A
/// line that begins `@@ -` without that shape is inert to the parser and
/// passes when it is wholly ASCII; one carrying non-ASCII text is turned
/// away, because the parser's digit class reaches beyond ASCII, where a
/// digit would match its header pattern and still defeat the conversion.
pub open spec fn line_header_ok(s: Seq<char>) -> bool {
    if s.len() >= 4 && s[0] == '@' && s[1] == '@' && s[2] == ' ' && s[3] == '-' {
        let e1 = skip_digits(s, 4);
        if e1 == 4 {
            vstd::utf8::is_ascii_chars(s)
        } else {
            let b2 = e1 < s.len() && s[e1] == ',' && skip_digits(s, e1 + 1) > e1 + 1;
            let p1 = if b2 {
                skip_digits(s, e1 + 1)
            } else {
                e1
            };
            if p1 + 2 <= s.len() && s[p1] == ' ' && s[p1 + 1] == '+' {
                let c0 = p1 + 2;
                let e3 = skip_digits(s, c0);
                if e3 == c0 {
                    vstd::utf8::is_ascii_chars(s)
                } else {
                    let b4 = e3 < s.len() && s[e3] == ',' && skip_digits(s, e3 + 1) > e3 + 1;
                    let p2 = if b4 {
                        skip_digits(s, e3 + 1)
                    } else {
                        e3
                    };
                    if p2 + 3 <= s.len() && s[p2] == ' ' && s[p2 + 1] == '@' && s[p2 + 2] == '@' {
                        &&& e1 - 4 <= 9
                        &&& e3 - c0 <= 9
                        &&& (b2 ==> skip_digits(s, e1 + 1) - (e1 + 1) <= 9)
                        &&& (b4 ==> skip_digits(s, e3 + 1) - (e3 + 1) <= 9)
                    } else {
                        vstd::utf8::is_ascii_chars(s)
                    }
                }
            } else {
                vstd::utf8::is_ascii_chars(s)
            }
        }
    } else {
        true
    }
}

/// A source-file header line, as the external parser recognizes one:
/// `--- ` followed by at least one character that is not a tab.
pub open spec fn is_source_header(s: Seq<char>) -> bool {
    s.len() >= 5 && s[0] == '-' && s[1] == '-' && s[2] == '-' && s[3] == ' ' && s[4] != '\t'
}

/// A target-file header line, as the external parser recognizes one:
/// `+++ ` followed by at least one character that is not a tab.
pub open spec fn is_target_header(s: Seq<char>) -> bool {
    s.len() >= 5 && s[0] == '+' && s[1] == '+' && s[2] == '+' && s[3] == ' ' && s[4] != '\t'
}

/// Whether every target-file header line has a source-file header line
/// somewhere before it. The external parser pairs each `+++ ` header
/// with the `--- ` header it keeps from before, and reads it with an
/// unchecked unwrap that a pairless `+++ ` header defeats.
pub open spec fn headers_paired(lines: Seq<Seq<char>>) -> bool {
    forall|k: int|
        0 <= k < lines.len() && is_target_header(#[trigger] lines[k]) ==> exists|j: int|
            0 <= j < k && is_source_header(#[trigger] lines[j])
}

/// Whether the blob's lines are safe to hand to the external diff
/// parser: every line in hunk-header position is admissible, and every
/// target-file header is preceded by a source-file header.
pub open spec fn diff_lines_ok(input: Seq<char>) -> bool {
    &&& forall|k: int|
        0 <= k < spec_lines(input).len() ==> line_header_ok(#[trigger] spec_lines(input)[k])
    &&& headers_paired(spec_lines(input))
}

fn line_header_fit(line: &str) -> (r: bool)
    ensures
        r == line_header_ok(line@),
{
    let n = line.unicode_len();
    if !(4 <= n && line.get_char(0) == '@' && line.get_char(1) == '@' && line.get_char(2) == ' '
        && line.get_char(3) == '-') {
        return true;
    }
    let e1 = digit_run_end(line, n, 4);
    if e1 == 4 {
        return line.is_ascii();
    }
    let mut p1 = e1;
    let mut len2: usize = 0;
    if e1 < n && line.get_char(e1) == ',' {
        let e2 = digit_run_end(line, n, e1 + 1);
        if e2 > e1 + 1 {
            len2 = e2 - (e1 + 1);
            p1 = e2;
        }
    }
    if !(p1 < n && p1 + 1 < n && line.get_char(p1) == ' ' && line.get_char(p1 + 1) == '+') {
        return line.is_ascii();
    }
    let c0 = p1 + 2;
    let e3 = digit_run_end(line, n, c0);
    if e3 == c0 {
        return line.is_ascii();
    }
    let mut p2 = e3;
    let mut len4: usize = 0;
    if e3 < n && line.get_char(e3) == ',' {
        let e4 = digit_run_end(line, n, e3 + 1);
        if e4 > e3 + 1 {
            len4 = e4 - (e3 + 1);
            p2 = e4;
        }
    }
    if !(p2 < n && p2 + 1 < n && p2 + 2 < n && line.get_char(p2) == ' ' && line.get_char(p2 + 1)
        == '@' && line.get_char(p2 + 2) == '@') {
        return line.is_ascii();
    }
    e1 - 4 <= 9 && len2 <= 9 && e3 - c0 <= 9 && len4 <= 9
}

fn is_header_line(line: &str, lead: char) -> (r: bool)
    ensures
        lead == '-' ==> r == is_source_header(line@),
        lead == '+' ==> r == is_target_header(line@),
{
    let n = line.unicode_len();
    5 <= n && line.get_char(0) == lead && line.get_char(1) == lead && line.get_char(2) == lead
        && line.get_char(3) == ' ' && line.get_char(4) != '\t'
}

/// Decides whether a blob's lines are safe to hand to the external diff
/// parser.
pub fn diff_lines_fit(input: &str) -> (r: bool)
    ensures
        r == diff_lines_ok(input@),
{
    let lines = split_lines(input);
    let ghost glines = spec_lines(input@);
    let mut seen_source = false;
    let mut k: usize = 0;
    while k < lines.len()
        invariant
            glines == spec_lines(input@),
            lines@.len() == glines.len(),
            forall|t: int| 0 <= t < glines.len() ==> lines@[t]@ == glines[t],
            0 <= k <= lines.len(),
            forall|t: int| 0 <= t < k ==> line_header_ok(#[trigger] glines[t]),
            seen_source ==> exists|j: int| 0 <= j < k && is_source_header(#[trigger] glines[j]),
            !seen_source ==> forall|j: int| 0 <= j < k ==> !is_source_header(#[trigger] glines[j]),
            forall|t: int|
                0 <= t < k && is_target_header(#[trigger] glines[t]) ==> exists|j: int|
                    0 <= j < t && is_source_header(#[trigger] glines[j]),
        decreases lines.len() - k,
    {
        if !line_header_fit(lines[k].as_str()) {
            proof {
                assert(!line_header_ok(glines[k as int]));
                assert(!diff_lines_ok(input@)) by {
                    if diff_lines_ok(input@) {
                        assert(line_header_ok(glines[k as int]));
                    }
                }
            }
            return false;
        }
        if is_header_line(lines[k].as_str(), '+') && !seen_source {
            proof {
                assert(is_target_header(glines[k as int]));
                assert(!headers_paired(glines)) by {
                    if headers_paired(glines) {
                        let j = choose|j: int|
                            0 <= j < k && is_source_header(#[trigger] glines[j]);
                        assert(!is_source_header(glines[j]));
                    }
                }
            }
            return false;
        }
        if is_header_line(lines[k].as_str(), '-') {
            seen_source = true;
        }
        proof {
            assert(lines@[k as int]@ == glines[k as int]);
            assert(line_header_ok(glines[k as int]));
            if is_target_header(glines[k as int]) {
                assert(seen_source);
            }
        }
        k = k + 1;
    }
    true
}

/// What the external unified-diff parser yields for a blob: the parsed
/// patchset for a well-formed diff, nothing for a malformed one.
pub uninterp spec fn parsed_diff(input: Seq<char>) -> Option<PatchV>;

/// The contents of a parsed patchset, in the library's diff model.
pub uninterp spec fn patch_set_view(ps: unidiff::PatchSet) -> PatchV;

/// The external parser's patchset type, opaque to the pipeline.
#[verifier::external_type_specification]
#[verifier::external_body]
pub struct ExPatchSet(unidiff::PatchSet);

/// Relies on unidiff::PatchSet::parse: whether a blob parses, and what it
/// parses to, is a function of the blob alone. Two of the parser's reads
/// are unchecked and panic when they fail, so `diff_lines_ok` keeps both
/// out: the integer conversion of each hunk-header numeral, which only
/// runs of at most nine ASCII digits accommodate on every platform,
/// additions included; and the unwrap of the remembered source-file
/// header when a target-file header arrives, which demands that some
/// `--- ` header line precede every `+++ ` header line.
#[verifier::external_body]
fn parse_patch_set(input: &str) -> (r: Result<unidiff::PatchSet, unidiff::Error>)
    requires
        diff_lines_ok(input@),
    ensures
        match r {
            Ok(ps) => parsed_diff(input@) == Some(patch_set_view(ps)),
            Err(_) => parsed_diff(input@) is None,
        },
{
    let mut ps = unidiff::PatchSet::new();
    match ps.parse(input) {
        Ok(()) => Ok(ps),
        Err(e) => Err(e),
    }
}

/// Relies on unidiff::PatchSet::modified_files / added_files and the
/// public fields of unidiff's Line: converts the parsed patchset into the
/// library's diff model, field by field.
#[verifier::external_body]
fn patch_set_files(ps: unidiff::PatchSet) -> (r: DiffPatchSet)
    ensures
        r@ == patch_set_view(ps),
{
    let conv = |files: Vec<unidiff::PatchedFile>| -> Vec<DiffFile> {
        files.into_iter().map(|f| DiffFile {
            target_file: f.target_file.clone(),
            hunks: f.into_iter().map(|h| DiffHunk {
                lines: h.into_iter().map(|l| DiffLine {
                    added: l.is_added(),
                    target_line: l.target_line_no.map(|n| n as u64),
                    value: l.value,
                }).collect(),
            }).collect(),
        }).collect()
    };
    DiffPatchSet { modified: conv(ps.modified_files()), added: conv(ps.added_files()) }
}

/// The issues owed for a run of annotations found in one file.
pub open spec fn issues_view(anns: Seq<AnnSpec>, file: Seq<char>, t: TemplatesV) -> Seq<IssueV> {
    anns.map_values(|a: AnnSpec| spec_issue(a, file, t))
}

/// Whether every annotation of a run renders.
pub open spec fn all_render_ok(anns: Seq<AnnSpec>, file: Seq<char>, t: TemplatesV) -> bool {
    forall|k: int| 0 <= k < anns.len() ==> render_ok(anns[k], file, t)
}

/// Scans a blob whose first line is line `offset` of `filename` and
/// renders every annotation found into an issue, in line order. The first
/// annotation whose configured template fails to render aborts the run.
pub fn parse_string(input: String, filename: String, offset: u64, templates: &Templates) -> (r:
    Result<Vec<Issue>, PipelineError>)
    ensures
        ({
            let anns = scan_view(spec_lines(input@), offset);
            match r {
                Ok(issues) => all_render_ok(anns, filename@, templates@)
                    && issues@.map_values(|i: Issue| i@) == issues_view(
                    anns,
                    filename@,
                    templates@,
                ),
                Err(e) => !all_render_ok(anns, filename@, templates@) && e is TemplateError,
            }
        }),
{
    let mut annotations = scan(input.as_str(), filename.as_str(), offset);
    let ghost anns = scan_view(spec_lines(input@), offset);
    let mut issues: Vec<Issue> = Vec::new();
    let ghost mut k: int = 0;
    proof {
        assert(anns.skip(0) =~= anns);
        assert(issues@.map_values(|i: Issue| i@) =~= issues_view(
            anns.take(0),
            filename@,
            templates@,
        ));
    }
    while annotations.len() > 0
        invariant
            anns == scan_view(spec_lines(input@), offset),
            0 <= k <= anns.len(),
            annotations@.map_values(|a: Annotation| ann_view(a)) == anns.skip(k),
            forall|t: int|
                0 <= t < annotations@.len() ==> (#[trigger] annotations@[t]).comment().file@
                    == filename@,
            issues@.map_values(|i: Issue| i@) == issues_view(anns.take(k), filename@, templates@),
            forall|t: int| 0 <= t < k ==> render_ok(anns[t], filename@, templates@),
        decreases annotations@.len(),
    {
        let ghost old_rem = annotations@;
        let ann = annotations.remove(0);
        proof {
            assert(old_rem.map_values(|a: Annotation| ann_view(a))[0] == ann_view(ann));
            assert(old_rem.len() > 0);
            assert(anns.skip(k).len() == old_rem.len());
            assert(anns.skip(k) =~= anns.subrange(k, anns.len() as int));
            assert(anns.subrange(k, anns.len() as int)[0] == anns[k]);
            assert(ann_view(ann) == anns[k]);
            assert(annotations@ =~= old_rem.subrange(1, old_rem.len() as int));
            assert(anns.skip(k + 1) =~= anns.subrange(k + 1, anns.len() as int));
            assert forall|t: int| 0 <= t < annotations@.len() implies ann_view(
                #[trigger] annotations@[t],
            ) == anns.subrange(k + 1, anns.len() as int)[t] by {
                assert(annotations@[t] == old_rem[t + 1]);
                assert(old_rem.map_values(|a: Annotation| ann_view(a))[t + 1] == ann_view(
                    old_rem[t + 1],
                ));
                assert(anns.skip(k)[t + 1] == anns.subrange(k, anns.len() as int)[t + 1]);
            }
            assert(annotations@.map_values(|a: Annotation| ann_view(a)) =~= anns.skip(k + 1));
        }
        match Issue::from(ann, templates) {
            Ok(issue) => {
                let ghost old_issues = issues@;
                issues.push(issue);
                proof {
                    assert(issues@.map_values(|i: Issue| i@) =~= old_issues.map_values(
                        |i: Issue| i@,
                    ).push(issues@[issues@.len() - 1]@));
                    assert(anns.take(k + 1) =~= anns.take(k).push(anns[k]));
                    assert(issues@.map_values(|i: Issue| i@) =~= issues_view(
                        anns.take(k + 1),
                        filename@,
                        templates@,
                    ));
                }
            },
            Err(e) => {
                proof {
                    assert(0 <= k < anns.len());
                    assert(!render_ok(anns[k], filename@, templates@));
                    assert(!all_render_ok(anns, filename@, templates@)) by {
                        if all_render_ok(anns, filename@, templates@) {
                            assert(render_ok(anns[k], filename@, templates@));
                        }
                    }
                }
                return Err(e);
            },
        }
        proof {
            k = k + 1;
        }
    }
    proof {
        assert(anns.skip(k).len() == 0);
        assert(anns.take(k) =~= anns);
    }
    Ok(issues)
}

/// Whether every fragment of a walked patchset renders in full.
pub open spec fn frags_all_ok(frags: Seq<FragV>, t: TemplatesV) -> bool {
    forall|i: int|
        0 <= i < frags.len() ==> all_render_ok(
            scan_view(spec_lines((#[trigger] frags[i]).diff), frags[i].line),
            frags[i].filename,
            t,
        )
}

/// The issues owed for a walked patchset's fragments, in fragment order.
pub open spec fn frags_issues(frags: Seq<FragV>, t: TemplatesV) -> Seq<IssueV>
    decreases frags.len(),
{
    if frags.len() == 0 {
        Seq::empty()
    } else {
        issues_view(
            scan_view(spec_lines(frags[0].diff), frags[0].line),
            frags[0].filename,
            t,
        ) + frags_issues(frags.drop_first(), t)
    }
}

/// Parses a unified-diff blob and renders every annotation found in its
/// added lines, in file order, then hunk order, then line order. A
/// malformed diff or a failing template render aborts the run.
pub fn parse_git_diff(input: String, templates: &Templates) -> (r: Result<
    Vec<Issue>,
    PipelineError,
>)
    ensures
        ({
            if !diff_lines_ok(input@) {
                r matches Err(e) && e is UnsupportedDiffShape
            } else {
                match parsed_diff(input@) {
                    None => r matches Err(e) && e is ParseError,
                    Some(p) => {
                        let frags = patch_fragments(p);
                        match r {
                            Ok(issues) => frags_all_ok(frags, templates@) && issues@.map_values(
                                |i: Issue| i@,
                            ) == frags_issues(frags, templates@),
                            Err(e) => !frags_all_ok(frags, templates@) && e is TemplateError,
                        }
                    },
                }
            }
        }),
{
    if !diff_lines_fit(input.as_str()) {
        return Err(PipelineError::UnsupportedDiffShape);
    }
    let ps = match parse_patch_set(input.as_str()) {
        Ok(ps) => ps,
        Err(e) => {
            return Err(PipelineError::ParseError(e));
        },
    };
    let patch = patch_set_files(ps);
    let files = get_patched_or_added_files(&patch);
    let ghost frags = patch_fragments(patch@);
    let mut issues: Vec<Issue> = Vec::new();
    let mut i: usize = 0;
    proof {
        assert(frags.skip(0) =~= frags);
    }
    while i < files.len()
        invariant
            diff_lines_ok(input@),
            files@.map_values(|x: PatchedFile| x@) == frags,
            parsed_diff(input@) == Some(patch@),
            frags == patch_fragments(patch@),
            0 <= i <= files@.len(),
            issues@.map_values(|x: Issue| x@) + frags_issues(frags.skip(i as int), templates@)
                == frags_issues(frags, templates@),
            forall|t: int|
                0 <= t < i ==> all_render_ok(
                    scan_view(spec_lines((#[trigger] frags[t]).diff), frags[t].line),
                    frags[t].filename,
                    templates@,
                ),
        decreases files@.len() - i,
    {
        proof {
            assert(frags.skip(i as int).drop_first() =~= frags.skip(i + 1));
            assert(frags.skip(i as int)[0] == frags[i as int]);
            assert(files@[i as int]@ == frags[i as int]);
        }
        let f = &files[i];
        match parse_string(f.diff.clone(), f.filename.clone(), f.line, templates) {
            Ok(mut v) => {
                let ghost old_issues = issues@;
                let ghost old_v = v@;
                issues.append(&mut v);
                proof {
                    assert(issues@.map_values(|x: Issue| x@) =~= old_issues.map_values(
                        |x: Issue| x@,
                    ) + old_v.map_values(|x: Issue| x@));
                }
            },
            Err(e) => {
                return Err(e);
            },
        }
        i = i + 1;
    }
    proof {
        assert(frags_issues(frags.skip(files@.len() as int), templates@) =~= Seq::<
            IssueV,
        >::empty());
        assert(issues@.map_values(|x: Issue| x@) =~= frags_issues(frags, templates@));
    }
    Ok(issues)
}

/// A line that does not begin, after its leading whitespace, with `//`
/// never matches: block comments and mid-line markers yield nothing.
pub proof fn lemma_match_needs_comment(s: Seq<char>)
    ensures
        spec_match(s) is Some ==> {
            let i = skip_ws(s, 0);
            i + 2 <= s.len() && s[i] == '/' && s[i + 1] == '/'
        },
{
}

/// A line without a colon never matches.
pub proof fn lemma_match_needs_colon(s: Seq<char>)
    requires
        forall|k: int| 0 <= k < s.len() ==> s[k] != ':',
    ensures
        spec_match(s) is None,
{
    crate::text::lemma_skip_ws(s, 0);
    let i = skip_ws(s, 0);
    if i + 2 <= s.len() && s[i] == '/' && s[i + 1] == '/' {
        let p = if i + 2 < s.len() && is_space(s[i + 2]) {
            i + 3
        } else {
            i + 2
        };
        assert(0 <= p);
        if p + 5 <= s.len() && s.subrange(p, p + 4) == todo_keyword() && s[p + 4] == ':' {
            assert(0 <= p + 4 < s.len());
            assert(false);
        }
        if p + 6 <= s.len() && s.subrange(p, p + 5) == fixme_keyword() && s[p + 5] == ':' {
            assert(0 <= p + 5 < s.len());
            assert(false);
        }
        assert(marker_at(s, p) is None);
    }
}

/// The matched variant and the keyword stand in one-to-one
/// correspondence: a match is `FixMe` exactly when `FIXME` stands at the
/// marker position, and `Todo` exactly when `TODO` does.
pub proof fn lemma_marker_keyword(s: Seq<char>, m: Marker, d: Seq<char>)
    requires
        spec_match(s) == Some((m, d)),
    ensures
        ({
            let i = skip_ws(s, 0);
            let p = if i + 2 < s.len() && is_space(s[i + 2]) {
                i + 3
            } else {
                i + 2
            };
            &&& (m is Todo <==> p + 4 <= s.len() && s.subrange(p, p + 4) == todo_keyword())
            &&& (m is FixMe <==> p + 5 <= s.len() && s.subrange(p, p + 5) == fixme_keyword())
        }),
{
    crate::text::lemma_skip_ws(s, 0);
    let i = skip_ws(s, 0);
    let p = if i + 2 < s.len() && is_space(s[i + 2]) {
        i + 3
    } else {
        i + 2
    };
    if p + 5 <= s.len() && s.subrange(p, p + 4) == todo_keyword() && s[p + 4] == ':' {
        assert(m is Todo);
        if p + 5 <= s.len() && s.subrange(p, p + 5) == fixme_keyword() {
            assert(s.subrange(p, p + 5)[0] == 'F');
            assert(s.subrange(p, p + 4)[0] == 'T');
            assert(false);
        }
    } else if p + 6 <= s.len() && s.subrange(p, p + 5) == fixme_keyword() && s[p + 5] == ':' {
        assert(m is FixMe);
        if p + 4 <= s.len() && s.subrange(p, p + 4) == todo_keyword() {
            assert(s.subrange(p, p + 4)[0] == 'T');
            assert(s.subrange(p, p + 5)[0] == 'F');
            assert(false);
        }
    } else {
        assert(marker_at(s, p) is None);
        assert(false);
    }
}

/// The scanner is deterministic and order-stable: two runs over the same
/// lines with the same offset agree, annotation by annotation, in
/// variant, line number, and details.
pub proof fn lemma_scan_idempotent(
    r1: Seq<Annotation>,
    r2: Seq<Annotation>,
    lines: Seq<Seq<char>>,
    offset: u64,
)
    requires
        r1.map_values(|a: Annotation| ann_view(a)) == scan_view(lines, offset),
        r2.map_values(|a: Annotation| ann_view(a)) == scan_view(lines, offset),
    ensures
        r1.len() == r2.len(),
        forall|k: int| 0 <= k < r1.len() ==> ann_view(#[trigger] r1[k]) == ann_view(r2[k]),
{
    assert(r1.map_values(|a: Annotation| ann_view(a)).len() == r1.len());
    assert(r2.map_values(|a: Annotation| ann_view(a)).len() == r2.len());
    assert forall|k: int| 0 <= k < r1.len() implies ann_view(#[trigger] r1[k]) == ann_view(
        r2[k],
    ) by {
        assert(0 <= k < r2.len());
        assert(r1.map_values(|a: Annotation| ann_view(a))[k] == ann_view(r1[k]));
        assert(r2.map_values(|a: Annotation| ann_view(a))[k] == ann_view(r2[k]));
    }
}

proof fn lemma_line_number_from(lines: Seq<Seq<char>>, offset: u64, t: int, k: int)
    requires
        0 <= t <= k < lines.len(),
        spec_match(lines[k]) is Some,
        offset + k <= u64::MAX,
    ensures
        ({
            match spec_match(lines[k]) {
                Some(p) => exists|j: int|
                    0 <= j < scan_from(lines, offset, t).len() && #[trigger] scan_from(
                        lines,
                        offset,
                        t,
                    )[j] == (AnnSpec {
                        fixme: p.0 is FixMe,
                        line: (offset + k) as u64,
                        details: p.1,
                    }),
                None => true,
            }
        }),
    decreases k - t,
{
    let target = match spec_match(lines[k]) {
        Some(p) => AnnSpec { fixme: p.0 is FixMe, line: (offset + k) as u64, details: p.1 },
        None => AnnSpec { fixme: false, line: 0, details: Seq::empty() },
    };
    if t == k {
        assert(sat_add(offset, k) == (offset + k) as u64);
        assert(scan_from(lines, offset, t)[0] == target);
    } else {
        lemma_line_number_from(lines, offset, t + 1, k);
        let j = choose|j: int|
            0 <= j < scan_from(lines, offset, t + 1).len() && #[trigger] scan_from(
                lines,
                offset,
                t + 1,
            )[j] == target;
        match spec_match(lines[t]) {
            Some(_) => {
                assert(scan_from(lines, offset, t)[j + 1] == target);
            },
            None => {
                assert(scan_from(lines, offset, t)[j] == target);
            },
        }
    }
}

/// Line-number correctness: when the blob's first line is line `offset`
/// of the target file, a match on the blob's `k`-th line (zero-indexed)
/// is reported at line `offset + k`.
pub proof fn lemma_line_number(lines: Seq<Seq<char>>, offset: u64, k: int)
    requires
        0 <= k < lines.len(),
        spec_match(lines[k]) is Some,
        offset + k <= u64::MAX,
    ensures
        ({
            match spec_match(lines[k]) {
                Some(p) => exists|j: int|
                    0 <= j < scan_view(lines, offset).len() && #[trigger] scan_view(
                        lines,
                        offset,
                    )[j] == (AnnSpec {
                        fixme: p.0 is FixMe,
                        line: (offset + k) as u64,
                        details: p.1,
                    }),
                None => true,
            }
        }),
{
    lemma_line_number_from(lines, offset, 0, k);
    match spec_match(lines[k]) {
        Some(pp) => {
            let target = AnnSpec { fixme: pp.0 is FixMe, line: (offset + k) as u64, details: pp.1 };
            let j = choose|j: int|
                0 <= j < scan_from(lines, offset, 0).len() && #[trigger] scan_from(
                    lines,
                    offset,
                    0,
                )[j] == target;
            assert(scan_view(lines, offset)[j] == target);
        },
        None => {},
    }
}

/// A hunk with no added line produces no fragment.
pub proof fn lemma_no_added_no_fragment(h: Seq<LineV>)
    requires
        forall|i: int| 0 <= i < h.len() ==> !is_added_line(#[trigger] h[i]),
    ensures
        hunk_fragment(h) is None,
    decreases h.len(),
{
    if h.len() > 0 {
        assert forall|i: int| 0 <= i < h.drop_first().len() implies !is_added_line(
            #[trigger] h.drop_first()[i],
        ) by {
            assert(h.drop_first()[i] == h[i + 1]);
        }
        lemma_no_added_no_fragment(h.drop_first());
    }
}

proof fn lemma_hunk_frags_name(name: Seq<char>, hunks: Seq<Seq<LineV>>, j: int)
    requires
        0 <= j < hunk_frags(name, hunks).len(),
    ensures
        hunk_frags(name, hunks)[j].filename == name,
    decreases hunks.len(),
{
    if hunks.len() > 0 {
        match hunk_fragment(hunks[0]) {
            Some(_) => {
                if j > 0 {
                    lemma_hunk_frags_name(name, hunks.drop_first(), j - 1);
                }
            },
            None => {
                lemma_hunk_frags_name(name, hunks.drop_first(), j);
            },
        }
    }
}

/// File-path normalization: every fragment of a file is stored under the
/// file's target path with its first two characters stripped.
pub proof fn lemma_fragment_filenames(f: FileV, j: int)
    requires
        0 <= j < file_fragments(f).len(),
    ensures
        file_fragments(f)[j].filename == normalize_path(f.target_file),
{
    lemma_hunk_frags_name(normalize_path(f.target_file), f.hunks, j);
}

} // verus!
