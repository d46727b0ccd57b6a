//! Spans and source positions.
//!
//! Spans are byte offsets into a compilation unit; line and column are a
//! rendering concern, computed from the text on demand. Columns count
//! characters rather than bytes, so a caret stays put after an em-dash.
use vstd::prelude::*;
use vstd::string::*;
use vstd::utf8::*;

verus! {

/// A byte range in a compilation unit.
#[derive(Clone, Copy, PartialEq, Eq, Debug, Structural)]
pub struct Span {
    pub start: u32,
    pub end: u32,
}

impl Span {
    /// The span from the start of `self` to the end of `other`: a binary
    /// expression's span is `lhs.span.to(rhs.span)`.
    pub fn to(self, other: Span) -> (r: Span)
        ensures
            r.start == self.start,
            r.end == other.end,
    {
        Span { start: self.start, end: other.end }
    }
}

/// Whether a diagnostic stops compilation.
///
/// The line is drawn at soundness: an error means the rule set cannot be
/// lowered; a warning means it lowers to something that runs but is
/// near-certainly wrong.
#[derive(Clone, Copy, PartialEq, Eq, Debug, Structural)]
pub enum Severity {
    Error,
    Warning,
}

#[derive(Debug)]
pub struct Diagnostic {
    pub severity: Severity,
    pub message: String,
    pub span: Span,
}

impl Diagnostic {
    pub fn error(span: Span, message: String) -> (d: Diagnostic)
        ensures
            d.severity == Severity::Error,
            d.message@ == message@,
            d.span == span,
    {
        Diagnostic { severity: Severity::Error, message, span }
    }

    pub fn warning(span: Span, message: String) -> (d: Diagnostic)
        ensures
            d.severity == Severity::Warning,
            d.message@ == message@,
            d.span == span,
    {
        Diagnostic { severity: Severity::Warning, message, span }
    }

    pub open spec fn is_error_spec(&self) -> bool {
        self.severity == Severity::Error
    }

    pub fn is_error(&self) -> (b: bool)
        ensures
            b == (self.severity == Severity::Error),
    {
        match self.severity {
            Severity::Error => true,
            Severity::Warning => false,
        }
    }
}

/// A 1-based line and a 1-based column, the column counted in characters.
#[derive(Clone, Copy, PartialEq, Eq, Debug, Structural)]
pub struct LineColumn {
    pub line: u32,
    pub col: u32,
}

/// The offsets at which lines begin among the first `n` bytes: zero, and one
/// past every newline.
pub open spec fn starts_upto(b: Seq<u8>, n: int) -> Seq<u32>
    decreases n,
{
    if n <= 0 {
        seq![0u32]
    } else if b[n - 1] == 10u8 {
        starts_upto(b, n - 1).push(n as u32)
    } else {
        starts_upto(b, n - 1)
    }
}

/// Where every line of `b` begins.
pub open spec fn line_starts_of(b: Seq<u8>) -> Seq<u32> {
    starts_upto(b, b.len() as int)
}

/// Lines begin at zero and then one past each newline, in ascending order,
/// never past the end of the text.
pub proof fn lemma_line_starts_ascend(b: Seq<u8>)
    requires
        b.len() < u32::MAX,
    ensures
        line_starts_of(b).len() >= 1,
        line_starts_of(b)[0] == 0,
        forall|i: int, j: int|
            0 <= i < j < line_starts_of(b).len() ==> line_starts_of(b)[i] < line_starts_of(b)[j],
        forall|k: int|
            0 < k < line_starts_of(b).len() ==> 1 <= #[trigger] line_starts_of(b)[k] <= b.len() && b[line_starts_of(b)[k] - 1] == 10u8,
        line_starts_of(b).len() == 1 + newlines(b, b.len() as int),
{
    lemma_starts_upto(b, b.len() as int);
    lemma_starts_count(b, b.len() as int);
}

/// How many newlines the first `n` bytes hold.
pub open spec fn newlines(b: Seq<u8>, n: int) -> nat
    decreases n,
{
    if n <= 0 {
        0
    } else {
        newlines(b, n - 1) + if b[n - 1] == 10u8 {
            1nat
        } else {
            0nat
        }
    }
}

proof fn lemma_starts_count(b: Seq<u8>, n: int)
    requires
        0 <= n <= b.len(),
    ensures
        starts_upto(b, n).len() == 1 + newlines(b, n),
    decreases n,
{
    if n > 0 {
        lemma_starts_count(b, n - 1);
    }
}

/// The line starts among the first `m` bytes come first, and every later
/// one lies past `m`.
proof fn lemma_starts_prefix(b: Seq<u8>, m: int, n: int)
    requires
        0 <= m <= n <= b.len(),
        b.len() < u32::MAX,
    ensures
        starts_upto(b, m).len() <= starts_upto(b, n).len(),
        forall|k: int| 0 <= k < starts_upto(b, m).len() ==> #[trigger] starts_upto(b, n)[k] == starts_upto(b, m)[k],
        forall|k: int| starts_upto(b, m).len() <= k < starts_upto(b, n).len() ==> #[trigger] starts_upto(b, n)[k] > m,
    decreases n,
{
    if n > m {
        lemma_starts_prefix(b, m, n - 1);
        let p = starts_upto(b, n - 1);
        if b[n - 1] == 10u8 {
            assert(starts_upto(b, n) == p.push(n as u32));
            assert forall|k: int| 0 <= k < starts_upto(b, m).len() implies #[trigger] starts_upto(b, n)[k]
                == starts_upto(b, m)[k] by {
                assert(starts_upto(b, n)[k] == p[k]);
            }
            assert forall|k: int| starts_upto(b, m).len() <= k < starts_upto(b, n).len() implies #[trigger] starts_upto(b, n)[k] > m by {
                if k < p.len() {
                    assert(starts_upto(b, n)[k] == p[k]);
                }
            }
        }
    }
}

/// The line an offset falls on is one past the number of newlines before it.
pub proof fn lemma_line_is_newlines_before(b: Seq<u8>, offset: int)
    requires
        b.len() < u32::MAX,
        0 <= offset <= b.len(),
    ensures
        last_at_most(line_starts_of(b), offset) == newlines(b, offset),
{
    let s = line_starts_of(b);
    let n = b.len() as int;
    lemma_starts_upto(b, n);
    lemma_starts_upto(b, offset);
    lemma_starts_count(b, offset);
    lemma_starts_prefix(b, offset, n);
    lemma_last_at_most_le(s, offset);
    let k0 = newlines(b, offset) as int;
    let last = last_at_most(s, offset);
    assert(s[k0] == starts_upto(b, offset)[k0]);
    if k0 > 0 {
        assert(starts_upto(b, offset)[k0] <= offset);
    }
    if last < k0 {
        assert(s[k0] > offset);
    }
    if last > k0 {
        assert(s[last] > offset);
    }
}

/// The index of the last element of `s` that is at most `x`, or -1.
pub open spec fn last_at_most(s: Seq<u32>, x: int) -> int
    decreases s.len(),
{
    if s.len() == 0 {
        -1
    } else if s.last() <= x {
        s.len() - 1
    } else {
        last_at_most(s.drop_last(), x)
    }
}

/// How many characters the UTF-8 bytes `b` encode: every character has exactly
/// one byte that is not a continuation byte.
pub open spec fn count_chars(b: Seq<u8>) -> nat
    decreases b.len(),
{
    if b.len() == 0 {
        0
    } else {
        count_chars(b.drop_last()) + if is_continuation_byte(b.last()) {
            0nat
        } else {
            1nat
        }
    }
}

/// `hi` with every trailing `c` in `b[lo..hi]` removed.
pub open spec fn trim_end(b: Seq<u8>, lo: int, hi: int, c: u8) -> int
    decreases hi - lo,
{
    if hi > lo && b[hi - 1] == c {
        trim_end(b, lo, hi - 1, c)
    } else {
        hi
    }
}

proof fn lemma_starts_upto(b: Seq<u8>, n: int)
    requires
        0 <= n <= b.len(),
        b.len() < u32::MAX,
    ensures
        1 <= starts_upto(b, n).len() <= n + 1,
        starts_upto(b, n)[0] == 0,
        forall|k: int|
            0 < k < starts_upto(b, n).len() ==> 1 <= #[trigger] starts_upto(b, n)[k] <= n && b[
                starts_upto(b, n)[k] - 1] == 10u8,
        forall|k: int, j: int|
            0 <= k < j < starts_upto(b, n).len() ==> starts_upto(b, n)[k] < starts_upto(b, n)[j],
    decreases n,
{
    if n > 0 {
        lemma_starts_upto(b, n - 1);
    }
}

/// In valid UTF-8, the byte after an ASCII byte that starts a character starts
/// one too.
proof fn lemma_ascii_boundary_step(b: Seq<u8>, j: int)
    requires
        valid_utf8(b),
        0 <= j < b.len(),
        is_char_boundary(b, j),
        b[j] < 0x80,
    ensures
        is_char_boundary(b, j + 1),
    decreases b.len(),
{
    let l = length_of_first_scalar(b);
    let rest = pop_first_scalar(b);
    if j == 0 {
        assert(l == 1);
        assert(is_char_boundary(rest, 0));
    } else {
        assert(is_char_boundary(rest, j - l));
        assert(j - l >= 0);
        assert(rest[j - l] == b[j]);
        lemma_ascii_boundary_step(rest, j - l);
    }
}

/// A byte right after an ASCII byte starts a character.
proof fn lemma_after_ascii_is_boundary(b: Seq<u8>, i: int)
    requires
        valid_utf8(b),
        1 <= i <= b.len(),
        b[i - 1] < 0x80,
    ensures
        is_char_boundary(b, i),
{
    is_char_boundary_iff_not_is_continuation_byte(b, i - 1);
    lemma_ascii_boundary_step(b, i - 1);
}

/// Every line of a text begins on a character boundary of its UTF-8 bytes.
pub proof fn lemma_line_starts_on_boundaries(text: Seq<char>)
    requires
        encode_utf8(text).len() < u32::MAX,
    ensures
        forall|k: int|
            0 <= k < line_starts_of(encode_utf8(text)).len() ==> is_char_boundary(
                encode_utf8(text),
                #[trigger] line_starts_of(encode_utf8(text))[k] as int,
            ),
{
    let b = encode_utf8(text);
    encode_utf8_valid_utf8(text);
    is_char_boundary_start_end_of_seq(b);
    lemma_line_starts_ascend(b);
    assert forall|k: int| 0 <= k < line_starts_of(b).len() implies is_char_boundary(
        b,
        #[trigger] line_starts_of(b)[k] as int,
    ) by {
        if k > 0 {
            lemma_after_ascii_is_boundary(b, line_starts_of(b)[k] as int);
        }
    }
}

/// One file's text, and where its lines begin.
pub struct SourceFile {
    pub name: String,
    text: String,
    line_starts: Vec<u32>,
}

impl SourceFile {
    /// The file's text as UTF-8 bytes.
    pub open spec fn bytes(&self) -> Seq<u8> {
        encode_utf8(self.text_view())
    }

    pub closed spec fn name_view(&self) -> Seq<char> {
        self.name@
    }

    pub closed spec fn text_view(&self) -> Seq<char> {
        self.text@
    }

    pub closed spec fn line_starts_view(&self) -> Seq<u32> {
        self.line_starts@
    }

    pub closed spec fn wf(&self) -> bool {
        &&& self.bytes().len() < u32::MAX
        &&& self.line_starts@ == line_starts_of(self.bytes())
    }

    /// The line and column of a byte offset, as `line_column` computes them.
    pub open spec fn spec_line_column(&self, offset: int) -> LineColumn {
        let k = last_at_most(self.line_starts_view(), offset);
        let ls = self.line_starts_view()[k];
        LineColumn {
            line: (k + 1) as u32,
            col: (count_chars(self.bytes().subrange(ls as int, offset)) + 1) as u32,
        }
    }

    /// A well-formed file keeps where each of its lines begins.
    pub proof fn lemma_wf_line_starts(&self)
        requires
            self.wf(),
        ensures
            self.line_starts_view() == line_starts_of(self.bytes()),
            self.bytes().len() < u32::MAX,
    {
    }

    /// Where every line begins. A trailing newline opens an empty last line.
    pub fn compute_line_starts(text: &str) -> (starts: Vec<u32>)
        requires
            text.spec_bytes().len() < u32::MAX,
        ensures
            starts@ == line_starts_of(text.spec_bytes()),
            starts@.len() == 1 + newlines(text.spec_bytes(), text.spec_bytes().len() as int),
            starts@[0] == 0,
            forall|i: int, j: int| 0 <= i < j < starts@.len() ==> starts@[i] < starts@[j],
            forall|k: int|
                0 < k < starts@.len() ==> 1 <= #[trigger] starts@[k] <= text.spec_bytes().len()
                    && text.spec_bytes()[starts@[k] - 1] == 10u8,
            forall|k: int|
                0 <= k < starts@.len() ==> is_char_boundary(text.spec_bytes(), #[trigger] starts@[k] as int),
    {
        proof {
            lemma_starts_count(text.spec_bytes(), text.spec_bytes().len() as int);
            lemma_line_starts_ascend(text.spec_bytes());
            lemma_line_starts_on_boundaries(text@);
        }
        let bytes = text.as_bytes();
        let mut starts: Vec<u32> = Vec::new();
        starts.push(0);
        let mut i: usize = 0;
        while i < bytes.len()
            invariant
                bytes@ == text.spec_bytes(),
                bytes@.len() < u32::MAX,
                i <= bytes@.len(),
                starts@ == starts_upto(bytes@, i as int),
            decreases bytes@.len() - i,
        {
            if bytes[i] == 10u8 {
                starts.push((i + 1) as u32);
            }
            i += 1;
        }
        starts
    }

    pub fn new(name: String, text: String) -> (f: SourceFile)
        requires
            encode_utf8(text@).len() < u32::MAX,
        ensures
            f.wf(),
            f.name_view() == name@,
            f.text_view() == text@,
    {
        let line_starts = Self::compute_line_starts(text.as_str());
        SourceFile { name, text, line_starts }
    }

    pub fn text(&self) -> (t: &str)
        ensures
            t@ == self.text_view(),
            t.spec_bytes() == self.bytes(),
    {
        self.text.as_str()
    }

    /// The 1-based line and character column of a byte offset.
    pub fn line_column(&self, offset: u32) -> (lc: LineColumn)
        requires
            self.wf(),
            offset <= self.bytes().len(),
        ensures
            lc == self.spec_line_column(offset as int),
            1 <= lc.line <= self.line_starts_view().len(),
            self.line_starts_view()[lc.line - 1] <= offset,
            lc.line < self.line_starts_view().len() ==> offset < self.line_starts_view()[lc.line as int],
            1 <= lc.col <= offset - self.line_starts_view()[lc.line - 1] + 1,
            lc.line == 1 + newlines(self.bytes(), offset as int),
            lc.col == 1 + count_chars(
                self.bytes().subrange(line_starts_of(self.bytes())[lc.line - 1] as int, offset as int),
            ),
    {
        proof {
            lemma_line_is_newlines_before(self.bytes(), offset as int);
            lemma_starts_upto(self.bytes(), self.bytes().len() as int);
            lemma_last_at_most_le(self.line_starts@, offset as int);
        }
        let line = partition_at_most(&self.line_starts, offset) - 1;
        let ls = self.line_starts[line] as usize;
        let bytes = self.text.as_str().as_bytes();
        let mut col: u32 = 0;
        let mut j: usize = ls;
        while j < offset as usize
            invariant
                bytes@ == self.bytes(),
                ls <= j <= offset <= bytes@.len() < u32::MAX,
                col == count_chars(bytes@.subrange(ls as int, j as int)),
                col <= j - ls,
            decreases offset - j,
        {
            assert(bytes@.subrange(ls as int, j + 1).drop_last() =~= bytes@.subrange(
                ls as int,
                j as int,
            ));
            if !(0x80u8 <= bytes[j] && bytes[j] <= 0xbfu8) {
                col += 1;
            }
            j += 1;
        }
        LineColumn { line: (line + 1) as u32, col: col + 1 }
    }

    /// The text of a 1-based line, without its line ending.
    pub fn line_text(&self, line: u32) -> (t: &str)
        requires
            self.wf(),
            1 <= line <= self.line_starts_view().len(),
        ensures
            ({
                let s = self.line_starts_view();
                let i = line - 1;
                let start = s[i] as int;
                let end = if i + 1 < s.len() {
                    s[i + 1] as int
                } else {
                    self.bytes().len() as int
                };
                let e1 = trim_end(self.bytes(), start, end, 10u8);
                let e2 = trim_end(self.bytes(), start, e1, 13u8);
                t.spec_bytes() == self.bytes().subrange(start, e2)
            }),
    {
        proof {
            lemma_starts_upto(self.bytes(), self.bytes().len() as int);
            encode_utf8_valid_utf8(self.text@);
            is_char_boundary_start_end_of_seq(self.bytes());
        }
        let ghost b = self.bytes();
        let i = (line - 1) as usize;
        let s = self.text.as_str();
        let bytes = s.as_bytes();
        let start = self.line_starts[i] as usize;
        let end = if i + 1 < self.line_starts.len() {
            self.line_starts[i + 1] as usize
        } else {
            bytes.len()
        };
        proof {
            if start > 0 {
                lemma_after_ascii_is_boundary(b, start as int);
            }
            if i + 1 < self.line_starts@.len() {
                lemma_after_ascii_is_boundary(b, end as int);
            }
        }
        let mut e = end;
        while e > start && bytes[e - 1] == 10u8
            invariant
                bytes@ == b,
                valid_utf8(b),
                start <= e <= end <= b.len(),
                trim_end(b, start as int, e as int, 10u8) == trim_end(
                    b,
                    start as int,
                    end as int,
                    10u8,
                ),
                is_char_boundary(b, e as int),
            decreases e - start,
        {
            e -= 1;
            proof {
                is_char_boundary_iff_not_is_continuation_byte(b, e as int);
            }
        }
        let ghost e1 = e;
        while e > start && bytes[e - 1] == 13u8
            invariant
                bytes@ == b,
                valid_utf8(b),
                start <= e <= e1 <= b.len(),
                trim_end(b, start as int, e as int, 13u8) == trim_end(
                    b,
                    start as int,
                    e1 as int,
                    13u8,
                ),
                is_char_boundary(b, e as int),
            decreases e - start,
        {
            e -= 1;
            proof {
                is_char_boundary_iff_not_is_continuation_byte(b, e as int);
            }
        }
        let (head, _) = s.split_at(e);
        proof {
            valid_utf8_split(b, e as int);
            let hb = b.subrange(0, e as int);
            if start > 0 && start < e {
                is_char_boundary_iff_not_is_continuation_byte(b, start as int);
                {
                    is_char_boundary_iff_not_is_continuation_byte(hb, start as int);
                }
            }
            is_char_boundary_start_end_of_seq(hb);
        }
        let (_, line_text) = head.split_at(start);
        line_text
    }
}

/// How many leading elements of `v` are at most `x`, when `v` is read from the
/// end: one past the last element that is at most `x`.
fn partition_at_most(v: &Vec<u32>, x: u32) -> (r: usize)
    ensures
        r == last_at_most(v@, x as int) + 1,
{
    let mut i = v.len();
    assert(v@.subrange(0, i as int) =~= v@);
    while i > 0 && v[i - 1] > x
        invariant
            i <= v@.len(),
            last_at_most(v@, x as int) == last_at_most(v@.subrange(0, i as int), x as int),
        decreases i,
    {
        assert(v@.subrange(0, i as int).drop_last() =~= v@.subrange(0, i - 1));
        i -= 1;
    }
    i
}

/// The files of one compilation unit, laid end to end in a single span space.
///
/// Files are separated by one virtual byte, so the end-of-file span of one file
/// cannot be read as the first byte of the next.
pub struct SourceMap {
    files: Vec<SourceFile>,
    /// Unit offset where each file begins, parallel to `files`.
    bases: Vec<u32>,
    next: u32,
}

impl SourceMap {
    pub closed spec fn files_view(&self) -> Seq<SourceFile> {
        self.files@
    }

    pub closed spec fn bases_view(&self) -> Seq<u32> {
        self.bases@
    }

    pub closed spec fn next_base(&self) -> u32 {
        self.next
    }

    pub closed spec fn wf(&self) -> bool {
        &&& self.files@.len() == self.bases@.len()
        &&& forall|i: int| 0 <= i < self.files@.len() ==> #[trigger] self.files@[i].wf()
        &&& self.files@.len() == 0 ==> self.next == 0
        &&& self.bases@.len() > 0 ==> self.bases@[0] == 0
    }

    pub fn new() -> (m: SourceMap)
        ensures
            m.wf(),
            m.files_view().len() == 0,
            m.bases_view().len() == 0,
            m.next_base() == 0,
    {
        SourceMap { files: Vec::new(), bases: Vec::new(), next: 0 }
    }

    /// Adds a file and returns the offset its spans must be shifted by.
    ///
    /// The next file starts one separator byte past this one's end, saturating
    /// so a pathological unit degrades to overlapping spans rather than a panic.
    pub fn add(&mut self, name: String, text: String) -> (base: u32)
        requires
            old(self).wf(),
            encode_utf8(text@).len() < u32::MAX,
        ensures
            final(self).wf(),
            base == old(self).next_base(),
            final(self).bases_view() == old(self).bases_view().push(base),
            final(self).files_view().len() == old(self).files_view().len() + 1,
            forall|i: int|
                0 <= i < old(self).files_view().len() ==> final(self).files_view()[i] == old(
                    self,
                ).files_view()[i],
            final(self).files_view().last().text_view() == text@,
            final(self).files_view().last().name_view() == name@,
            final(self).next_base() == if base + encode_utf8(text@).len() + 1 <= u32::MAX {
                (base + encode_utf8(text@).len() + 1) as u32
            } else {
                u32::MAX
            },
    {
        let base = self.next;
        let len = text.as_str().len() as u32;
        self.next = base.saturating_add(len).saturating_add(1);
        let f = SourceFile::new(name, text);
        self.files.push(f);
        self.bases.push(base);
        base
    }

    pub fn files(&self) -> (f: &[SourceFile])
        ensures
            f@ == self.files_view(),
    {
        self.files.as_slice()
    }

    /// The file an offset falls in, and where in it.
    ///
    /// `None` only when no file starts at or before the offset — for a unit
    /// built by `add`, only an empty map. An offset on a separator byte is
    /// clamped to the end of the file before it.
    pub fn resolve(&self, offset: u32) -> (r: Option<(&SourceFile, LineColumn)>)
        requires
            self.wf(),
        ensures
            r is None <==> self.files_view().len() == 0,
            ({
                let i = last_at_most(self.bases_view(), offset as int);
                match r {
                    None => i < 0,
                    Some((file, lc)) => {
                        &&& 0 <= i < self.files_view().len()
                        &&& *file == self.files_view()[i]
                        &&& self.bases_view()[i] <= offset
                        &&& forall|j: int| i < j < self.bases_view().len() ==> self.bases_view()[j] > offset
                        &&& {
                            let local = offset - self.bases_view()[i];
                            let clamped = if local <= file.bytes().len() {
                                local
                            } else {
                                file.bytes().len() as int
                            };
                            lc == file.spec_line_column(clamped)
                        }
                    },
                }
            }),
    {
        let n = partition_at_most(&self.bases, offset);
        if n == 0 {
            proof {
                lemma_last_at_most_le(self.bases@, offset as int);
            }
            return None;
        }
        let i = n - 1;
        proof {
            // `last_at_most` only ever answers with an element that is at most
            // the offset.
            lemma_last_at_most_le(self.bases@, offset as int);
        }
        let file = &self.files[i];
        let len = file.text().len();
        let local = offset - self.bases[i];
        let clamped = if (local as usize) <= len {
            local
        } else {
            len as u32
        };
        let lc = file.line_column(clamped);
        assert(*file == self.files@[i as int]);
        assert(i as int == last_at_most(self.bases@, offset as int));
        assert(lc == file.spec_line_column(clamped as int));
        Some((file, lc))
    }
}

proof fn lemma_last_at_most_le(s: Seq<u32>, x: int)
    ensures
        -1 <= last_at_most(s, x) < s.len(),
        last_at_most(s, x) >= 0 ==> s[last_at_most(s, x)] <= x,
        s.len() > 0 && s[0] <= x ==> last_at_most(s, x) >= 0,
        forall|j: int| last_at_most(s, x) < j < s.len() ==> s[j] > x,
    decreases s.len(),
{
    if s.len() > 0 && s.last() > x {
        lemma_last_at_most_le(s.drop_last(), x);
        assert forall|j: int| last_at_most(s, x) < j < s.len() implies s[j] > x by {
            if j < s.len() - 1 {
                assert(s.drop_last()[j] == s[j]);
            }
        }
    }
}

} // verus!
