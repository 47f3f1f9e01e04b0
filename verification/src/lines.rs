//! Reading text lines of limited length from a byte stream that arrives in chunks.
use vstd::prelude::*;
use vstd::utf8::{encode_utf8, valid_utf8};

use crate::text::{decimal, join2, join3, u64_text};

verus! {

/// What the error of `String::from_utf8` says of bytes that are not valid UTF-8.
pub uninterp spec fn utf8_fault(bytes: Seq<u8>) -> Seq<char>;

/// `String::from_utf8` takes bytes that are valid UTF-8 for the text they encode, and refuses all
/// others; what its error says depends on the bytes alone.
#[verifier::external_body]
fn text_from_utf8(bytes: Vec<u8>) -> (res: Result<String, String>)
    ensures
        res is Ok <==> valid_utf8(bytes@),
        res matches Ok(s) ==> encode_utf8(s@) == bytes@,
        res matches Err(e) ==> e@ == utf8_fault(bytes@),
{
    String::from_utf8(bytes).map_err(|e| e.to_string())
}

/// Why a line could not be read.
#[derive(Debug)]
pub enum LineError {
    /// The line is longer than allowed.
    TooLong,
    /// The line is not valid UTF-8, and what is wrong with it.
    NotUtf8(String),
}

/// Why a line could not be read.
pub enum LineErrorView {
    TooLong,
    NotUtf8(Seq<char>),
}

impl View for LineError {
    type V = LineErrorView;

    open spec fn view(&self) -> LineErrorView {
        match self {
            LineError::TooLong => LineErrorView::TooLong,
            LineError::NotUtf8(detail) => LineErrorView::NotUtf8(detail@),
        }
    }
}

/// What came of a chunk.
#[derive(Debug)]
pub enum LineStep {
    /// The line goes on; the whole chunk belongs to it.
    More,
    /// The line is complete; so many bytes of the chunk belong to it.
    Line { text: String, consumed: usize },
    /// The stream has ended and no line was begun.
    End,
    /// The line cannot be read.
    Failed(LineError),
}

/// What a step says: the bytes of the line and how much of the chunk they took.
#[verifier::ext_equal]
pub enum StepView {
    More { line: Seq<u8> },
    Line { line: Seq<u8>, consumed: nat },
    End,
    Failed(LineErrorView),
}

/// The position after the first line feed, or the length where there is none.
pub open spec fn line_end(chunk: Seq<u8>) -> int
    decreases chunk.len(),
{
    if chunk.len() == 0 {
        0
    } else if chunk[0] == 10 {
        1
    } else {
        1 + line_end(chunk.drop_first())
    }
}

/// Whether there is a line feed.
pub open spec fn has_line_feed(chunk: Seq<u8>) -> bool {
    chunk.contains(10u8)
}

/// A complete line of bytes.
pub open spec fn complete(line: Seq<u8>, consumed: nat) -> StepView {
    if valid_utf8(line) {
        StepView::Line { line, consumed }
    } else {
        StepView::Failed(LineErrorView::NotUtf8(utf8_fault(line)))
    }
}

/// What comes of a chunk after the bytes of the line so far. An empty chunk is the end of the
/// stream.
pub open spec fn line_step(line: Seq<u8>, chunk: Seq<u8>, max: nat) -> StepView {
    if chunk.len() == 0 {
        if line.len() == 0 {
            StepView::End
        } else {
            complete(line, 0)
        }
    } else {
        let n = line_end(chunk);
        if line.len() + n > max {
            StepView::Failed(LineErrorView::TooLong)
        } else if has_line_feed(chunk) {
            complete(line + chunk.take(n), n as nat)
        } else {
            StepView::More { line: line + chunk }
        }
    }
}

/// The end of the line in a chunk, in words: right after the first line feed, or the whole chunk.
pub proof fn line_end_meaning(chunk: Seq<u8>)
    ensures
        0 <= line_end(chunk) <= chunk.len(),
        chunk.len() > 0 ==> line_end(chunk) > 0,
        forall|i: int| 0 <= i < line_end(chunk) - 1 ==> chunk[i] != 10,
        has_line_feed(chunk) ==> chunk[line_end(chunk) - 1] == 10,
        !has_line_feed(chunk) ==> line_end(chunk) == chunk.len(),
    decreases chunk.len(),
{
    if chunk.len() > 0 {
        let rest = chunk.drop_first();
        line_end_meaning(rest);
        if chunk[0] != 10 {
            if has_line_feed(chunk) {
                let k = choose|k: int| 0 <= k < chunk.len() && chunk[k] == 10u8;
                assert(rest[k - 1] == 10u8);
                assert(rest[line_end(rest) - 1] == chunk[line_end(chunk) - 1]);
            }
            if has_line_feed(rest) {
                let k = choose|k: int| 0 <= k < rest.len() && rest[k] == 10u8;
                assert(chunk[k + 1] == 10u8);
            }
            assert forall|i: int| 0 <= i < line_end(chunk) - 1 implies chunk[i] != 10 by {
                if i > 0 {
                    assert(rest[i - 1] == chunk[i]);
                }
            }
        } else {
            assert(chunk.contains(chunk[0]));
        }
    }
}

/// Collects the bytes of a line.
#[derive(Debug)]
pub struct LineReader {
    pub line: Vec<u8>,
    pub max_bytes: usize,
}

/// What a step says.
pub open spec fn step_view(step: LineStep, line: Seq<u8>) -> StepView {
    match step {
        LineStep::More => StepView::More { line },
        LineStep::Line { text, consumed } => StepView::Line {
            line: encode_utf8(text@),
            consumed: consumed as nat,
        },
        LineStep::End => StepView::End,
        LineStep::Failed(e) => StepView::Failed(e@),
    }
}

impl LineReader {
    /// A reader for lines of at most so many bytes, line feed included.
    pub fn new(max_bytes: usize) -> (res: Self)
        ensures
            res.line@.len() == 0,
            res.max_bytes == max_bytes,
    {
        LineReader { line: Vec::new(), max_bytes }
    }

    fn finish(&mut self, consumed: usize) -> (res: LineStep)
        ensures
            step_view(res, Seq::empty()) == complete(old(self).line@, consumed as nat),
            final(self).line@.len() == 0,
            final(self).max_bytes == old(self).max_bytes,
    {
        let mut bytes: Vec<u8> = Vec::new();
        std::mem::swap(&mut bytes, &mut self.line);
        match text_from_utf8(bytes) {
            Ok(text) => LineStep::Line { text, consumed },
            Err(detail) => LineStep::Failed(LineError::NotUtf8(detail)),
        }
    }

    fn extend(&mut self, chunk: &[u8], n: usize)
        requires
            n <= chunk@.len(),
        ensures
            final(self).line@ == old(self).line@ + chunk@.take(n as int),
            final(self).max_bytes == old(self).max_bytes,
    {
        let ghost start = self.line@;
        let mut i: usize = 0;
        assert(start + chunk@.take(0) =~= start);
        while i < n
            invariant
                i <= n <= chunk@.len(),
                self.line@ == start + chunk@.take(i as int),
                self.max_bytes == old(self).max_bytes,
            decreases n - i,
        {
            self.line.push(chunk[i]);
            assert(start + chunk@.take(i + 1) =~= (start + chunk@.take(i as int)).push(
                chunk@[i as int],
            ));
            i = i + 1;
        }
    }

    /// Takes the next chunk of the stream. An empty chunk is its end. After a line, and after its
    /// end, the next line begins.
    pub fn push(&mut self, chunk: &[u8]) -> (res: LineStep)
        requires
            old(self).line@.len() <= old(self).max_bytes,
        ensures
            step_view(res, final(self).line@) == line_step(
                old(self).line@,
                chunk@,
                old(self).max_bytes as nat,
            ),
            final(self).max_bytes == old(self).max_bytes,
            final(self).line@.len() <= final(self).max_bytes,
            res is Line ==> final(self).line@.len() == 0,
    {
        if chunk.len() == 0 {
            if self.line.len() == 0 {
                return LineStep::End;
            }
            return self.finish(0);
        }
        let mut n: usize = 0;
        let mut found = false;
        assert(chunk@.skip(0) =~= chunk@);
        while n < chunk.len() && !found
            invariant
                n <= chunk@.len(),
                !found ==> line_end(chunk@) == n + line_end(chunk@.skip(n as int)),
                !found ==> forall|i: int| 0 <= i < n ==> chunk@[i] != 10,
                found ==> line_end(chunk@) == n && has_line_feed(chunk@),
            decreases chunk@.len() - n,
        {
            assert(chunk@.skip(n as int).drop_first() =~= chunk@.skip(n + 1));
            if chunk[n] == 10 {
                found = true;
                assert(chunk@.contains(chunk@[n as int]));
            }
            n = n + 1;
        }
        if !found {
            assert(chunk@.skip(n as int).len() == 0);
            assert(!has_line_feed(chunk@));
        }
        if n > self.max_bytes - self.line.len() {
            return LineStep::Failed(LineError::TooLong);
        }
        self.extend(chunk, n);
        if found {
            return self.finish(n);
        }
        assert(chunk@.take(n as int) =~= chunk@);
        LineStep::More
    }

    /// The text of an error.
    pub fn error_text(&self, error: LineError) -> (res: String)
        ensures
            res@ == (match error@ {
                LineErrorView::TooLong => "line exceeds maximum size of "@ + decimal(
                    self.max_bytes as nat,
                ) + " bytes"@,
                LineErrorView::NotUtf8(detail) => "line is not valid UTF-8: "@ + detail,
            }),
    {
        match error {
            LineError::TooLong => {
                let n = u64_text(self.max_bytes as u64);
                join3("line exceeds maximum size of ", n.as_str(), " bytes")
            },
            LineError::NotUtf8(detail) => join2("line is not valid UTF-8: ", detail.as_str()),
        }
    }
}

/// How a stream is cut into chunks does not matter: a chunk without line feed and the next one come
/// to the same as both in one piece.
pub proof fn chunking_does_not_matter(line: Seq<u8>, a: Seq<u8>, b: Seq<u8>, max: nat)
    requires
        a.len() > 0,
        b.len() > 0,
        !has_line_feed(a),
    ensures
        line_step(line, a, max) matches StepView::More { line: l } ==> (match line_step(l, b, max) {
            StepView::Line { line: x, consumed } => line_step(line, a + b, max) == (
            StepView::Line { line: x, consumed: consumed + a.len() }),
            other => line_step(line, a + b, max) == other,
        }),
        line_step(line, a, max) !is More ==> line_step(line, a + b, max) == line_step(line, a, max),
{
    let c = a + b;
    line_end_meaning(a);
    line_end_meaning(b);
    line_end_meaning(c);
    lemma_line_end_add(a, b);
    assert(line_end(c) == a.len() + line_end(b));
    assert(line + c.take(line_end(c)) =~= (line + a) + b.take(line_end(b)));
    assert((line + a) + b =~= line + c);
    if has_line_feed(b) {
        let k = choose|k: int| 0 <= k < b.len() && b[k] == 10u8;
        assert(c[a.len() + k] == 10u8);
    }
    if has_line_feed(c) {
        let k = choose|k: int| 0 <= k < c.len() && c[k] == 10u8;
        if k < a.len() {
            assert(a[k] == 10u8);
        } else {
            assert(b[k - a.len()] == 10u8);
        }
    }
}

proof fn lemma_line_end_add(a: Seq<u8>, b: Seq<u8>)
    requires
        !has_line_feed(a),
    ensures
        line_end(a + b) == a.len() + line_end(b),
    decreases a.len(),
{
    if a.len() == 0 {
        assert(a + b =~= b);
    } else {
        assert(a.contains(a[0]));
        assert(!has_line_feed(a.drop_first())) by {
            if has_line_feed(a.drop_first()) {
                let k = choose|k: int| 0 <= k < a.len() - 1 && a.drop_first()[k] == 10u8;
                assert(a[k + 1] == 10u8);
            }
        }
        lemma_line_end_add(a.drop_first(), b);
        assert((a + b).drop_first() =~= a.drop_first() + b);
    }
}

/// A line ends behind the first line feed. It is taken where it is text and not too long; up to its
/// end nothing of the chunk is lost, and nothing behind it is used up.
pub proof fn lines_end_at_the_line_feed(line: Seq<u8>, chunk: Seq<u8>, max: nat, k: int)
    requires
        0 <= k < chunk.len(),
        chunk[k] == 10,
        forall|j: int| 0 <= j < k ==> chunk[j] != 10,
    ensures
        line.len() + k + 1 > max ==> line_step(line, chunk, max) == StepView::Failed(
            LineErrorView::TooLong,
        ),
        line.len() + k + 1 <= max ==> ({
            let whole = line + chunk.take(k + 1);
            &&& valid_utf8(whole) ==> line_step(line, chunk, max) == (StepView::Line {
                line: whole,
                consumed: (k + 1) as nat,
            })
            &&& !valid_utf8(whole) ==> line_step(line, chunk, max) == StepView::Failed(
                LineErrorView::NotUtf8(utf8_fault(whole)),
            )
        }),
{
    line_end_meaning(chunk);
    assert(has_line_feed(chunk));
    let n = line_end(chunk);
    assert(chunk[n - 1] == 10);
    assert(n == k + 1);
}

/// Without a line feed a chunk is kept for the line, as long as the line is not too long. At the end
/// of the input what is left is a line, and nothing left is the end.
pub proof fn lines_go_on_without_a_line_feed(line: Seq<u8>, chunk: Seq<u8>, max: nat)
    requires
        forall|j: int| 0 <= j < chunk.len() ==> chunk[j] != 10,
    ensures
        chunk.len() > 0 && line.len() + chunk.len() > max ==> line_step(line, chunk, max)
            == StepView::Failed(LineErrorView::TooLong),
        chunk.len() > 0 && line.len() + chunk.len() <= max ==> line_step(line, chunk, max) == (
        StepView::More { line: line + chunk }),
        chunk.len() == 0 && line.len() == 0 ==> line_step(line, chunk, max) == StepView::End,
        chunk.len() == 0 && line.len() > 0 && valid_utf8(line) ==> line_step(line, chunk, max) == (
        StepView::Line { line, consumed: 0 }),
        chunk.len() == 0 && line.len() > 0 && !valid_utf8(line) ==> line_step(line, chunk, max)
            == StepView::Failed(LineErrorView::NotUtf8(utf8_fault(line))),
{
    line_end_meaning(chunk);
    assert(!has_line_feed(chunk));
}

/// What a step is told by is what it gave.
pub proof fn steps_in_full(text: String, consumed: usize, e: LineError, detail: String, line: Seq<u8>)
    ensures
        step_view(LineStep::More, line) == (StepView::More { line }),
        step_view(LineStep::Line { text, consumed }, line) == (StepView::Line {
            line: encode_utf8(text@),
            consumed: consumed as nat,
        }),
        step_view(LineStep::End, line) == StepView::End,
        step_view(LineStep::Failed(e), line) == StepView::Failed(e@),
        LineError::TooLong@ == LineErrorView::TooLong,
        LineError::NotUtf8(detail)@ == LineErrorView::NotUtf8(detail@),
{
}

} // verus!
