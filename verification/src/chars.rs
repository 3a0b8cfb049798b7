//! A character stream that tracks its position — absolute offset, line and
//! column — as it advances, hands out token boundaries as [`Span`]s, and
//! supports arbitrary lookahead through [`Checkpoint`].

use vstd::prelude::*;
use vstd::string::StrSliceExecFns;

use itertools::PeekNth;
use owned_chars::OwnedChars;
use owned_chars::OwnedCharsExt;

use crate::AbsoluteSpan;
use crate::LineAndColumn;
use crate::RelativeSpan;
use crate::Span;

verus! {

/// A buffered character source: the characters of a text, handed out one at
/// a time, with arbitrary lookahead. Verus sees it only through
/// [`source_contents`] and the trusted operations below.
#[verifier::external_body]
pub struct CharSource {
    inner: PeekNth<OwnedChars>,
}

/// The characters a source has yet to yield, in order.
pub uninterp spec fn source_contents(s: CharSource) -> Seq<char>;

/// Relies on `owned_chars::OwnedCharsExt::into_chars` and
/// `itertools::peek_nth`: the source yields exactly the characters of the
/// copied text, in order. The character count is below `usize::MAX` because
/// the text's byte length is bounded by `isize::MAX` and each character
/// occupies at least one byte.
#[verifier::external_body]
fn source_new(text: &str) -> (r: CharSource)
    ensures
        source_contents(r) == text@,
        source_contents(r).len() < usize::MAX,
{
    CharSource { inner: itertools::peek_nth(OwnedCharsExt::into_chars(text.to_string())) }
}

/// Relies on `itertools::PeekNth::peek_nth`: returns the character at the
/// given depth without advancing past it, or nothing when the depth lies
/// beyond the end. The depth must be below `usize::MAX`: the call computes
/// `n + 1`, which would overflow — and panic under overflow checks — on
/// `usize::MAX` itself.
#[verifier::external_body]
fn source_peek_nth(s: &mut CharSource, n: usize) -> (r: Option<char>)
    requires
        n < usize::MAX,
    ensures
        source_contents(*final(s)) == source_contents(*old(s)),
        r == (if n < source_contents(*old(s)).len() {
            Some(source_contents(*old(s))[n as int])
        } else {
            None::<char>
        }),
{
    s.inner.peek_nth(n).copied()
}

/// Relies on `itertools::PeekNth::next` over a fused iterator: yields the
/// first remaining character, or nothing — forever — once the source is
/// exhausted.
#[verifier::external_body]
fn source_next(s: &mut CharSource) -> (r: Option<char>)
    ensures
        source_contents(*old(s)).len() == 0 ==> r is None && source_contents(*final(s))
            == source_contents(*old(s)),
        source_contents(*old(s)).len() > 0 ==> r == Some(source_contents(*old(s))[0])
            && source_contents(*final(s)) == source_contents(*old(s)).skip(1),
{
    s.inner.next()
}

/// The line a cursor is on after consuming `s`: lines are 1-indexed and a
/// newline begins a new line.
pub open spec fn line_of(s: Seq<char>) -> int
    decreases s.len(),
{
    if s.len() == 0 {
        1
    } else if s.last() == '\n' {
        line_of(s.drop_last()) + 1
    } else {
        line_of(s.drop_last())
    }
}

/// The column a cursor is on after consuming `s`: columns are 1-indexed and
/// a newline resets the count.
pub open spec fn col_of(s: Seq<char>) -> int
    decreases s.len(),
{
    if s.len() == 0 {
        1
    } else if s.last() == '\n' {
        1
    } else {
        col_of(s.drop_last()) + 1
    }
}

/// How many newline characters `s` holds.
pub open spec fn newline_count(s: Seq<char>) -> int
    decreases s.len(),
{
    if s.len() == 0 {
        0
    } else if s.last() == '\n' {
        newline_count(s.drop_last()) + 1
    } else {
        newline_count(s.drop_last())
    }
}

/// Line and column are 1-indexed and together never outrun the number of
/// characters consumed.
proof fn lemma_line_col_bounds(s: Seq<char>)
    ensures
        1 <= line_of(s),
        1 <= col_of(s),
        line_of(s) + col_of(s) <= s.len() + 2,
    decreases s.len(),
{
    if s.len() > 0 {
        lemma_line_col_bounds(s.drop_last());
    }
}

/// How consuming one more character moves the position: a newline bumps the
/// line and resets the column to 1; any other character moves one column
/// right on the same line.
pub proof fn lemma_position_step(s: Seq<char>, c: char)
    ensures
        line_of(s.push(c)) == line_of(s) + (if c == '\n' {
            1int
        } else {
            0int
        }),
        col_of(s.push(c)) == (if c == '\n' {
            1int
        } else {
            col_of(s) + 1
        }),
{
    assert(s.push(c).drop_last() =~= s);
}

/// The line a cursor is on is one more than the number of newline
/// characters it has consumed.
pub proof fn lemma_line_counts_newlines(s: Seq<char>)
    ensures
        line_of(s) == 1 + newline_count(s),
    decreases s.len(),
{
    if s.len() > 0 {
        lemma_line_counts_newlines(s.drop_last());
    }
}

/// The (line, column) pair moves only forward, lexicographically, as a
/// stream consumes: having consumed a prefix of what another cursor has
/// consumed puts a cursor at a position no later than the other's. Lets a
/// caller conclude that a span closed with [`Chars::end_token`] is ordered
/// ([`Span::wf`]) when its handle was taken on the same stream earlier.
pub proof fn lemma_position_monotone(s: Seq<char>, t: Seq<char>)
    requires
        s.is_prefix_of(t),
    ensures
        s.len() <= t.len(),
        line_of(s) < line_of(t) || (line_of(s) == line_of(t) && col_of(s) <= col_of(t)),
    decreases t.len(),
{
    if s.len() < t.len() {
        assert(s.is_prefix_of(t.drop_last()));
        lemma_position_monotone(s, t.drop_last());
        lemma_position_step(t.drop_last(), t.last());
        assert(t.drop_last().push(t.last()) =~= t);
    } else {
        assert(s =~= t);
    }
}

/// A position inside a text: characters consumed so far, and the 1-indexed
/// line and column of the cursor.
#[derive(Copy, Clone)]
struct Position {
    loc: usize,
    line: usize,
    col: usize,
}

/// An opaque capture of the stream position where a token begins, produced
/// by [`Chars::start_token`] and consumed by [`Chars::end_token`].
pub struct TokenHandle {
    start: Position,
}

impl TokenHandle {
    /// Characters that had been consumed when the handle was taken.
    pub closed spec fn offset(self) -> usize {
        self.start.loc
    }

    /// Line the stream was on when the handle was taken.
    pub closed spec fn line(self) -> usize {
        self.start.line
    }

    /// Column the stream was on when the handle was taken.
    pub closed spec fn column(self) -> usize {
        self.start.col
    }
}

/// A character stream over a text that yields one character at a time and
/// tracks the exact source position: absolute offset (0-indexed) plus line
/// and column (1-indexed). [`Chars::start_token`] and [`Chars::end_token`]
/// capture the region consumed between them as a [`Span`].
pub struct Chars {
    source: CharSource,
    current: Position,
    consumed: Ghost<Seq<char>>,
}

/// The span from the position a handle captured to a stream's current
/// position, in both absolute and line/column form.
pub open spec fn token_span(h: TokenHandle, c: Chars) -> Span {
    Span {
        absolute: Some(AbsoluteSpan { start: h.offset(), end: c.offset() }),
        relative: RelativeSpan {
            start: LineAndColumn { line: h.line(), column: h.column() },
            end: LineAndColumn { line: c.line(), column: c.column() },
        },
    }
}

/// Two streams that cannot be told apart: same history, same remainder,
/// same position.
pub open spec fn same_stream(a: Chars, b: Chars) -> bool {
    &&& a.consumed_chars() == b.consumed_chars()
    &&& a.remaining() == b.remaining()
    &&& a.offset() == b.offset()
    &&& a.line() == b.line()
    &&& a.column() == b.column()
}

impl Chars {
    /// The characters consumed so far, in order.
    pub closed spec fn consumed_chars(self) -> Seq<char> {
        self.consumed@
    }

    /// The characters not yet consumed, in order.
    pub closed spec fn remaining(self) -> Seq<char> {
        source_contents(self.source)
    }

    /// Number of characters consumed so far.
    pub closed spec fn offset(self) -> usize {
        self.current.loc
    }

    /// Current line, 1-indexed.
    pub closed spec fn line(self) -> usize {
        self.current.line
    }

    /// Current column, 1-indexed.
    pub closed spec fn column(self) -> usize {
        self.current.col
    }

    /// The stream invariant: the tracked position is exactly what the
    /// consumed prefix dictates, and the whole text fits in a `usize` count.
    pub open spec fn wf(self) -> bool {
        &&& self.offset() == self.consumed_chars().len()
        &&& self.line() == line_of(self.consumed_chars())
        &&& self.column() == col_of(self.consumed_chars())
        &&& self.consumed_chars().len() + self.remaining().len() < usize::MAX
    }

    /// A stream over the characters of `text`, positioned at its start:
    /// offset 0, line 1, column 1.
    pub fn new(text: &str) -> (r: Chars)
        ensures
            r.wf(),
            r.consumed_chars() == Seq::<char>::empty(),
            r.remaining() == text@,
            r.offset() == 0,
            r.line() == 1,
            r.column() == 1,
    {
        Chars {
            source: source_new(text),
            current: Position { loc: 0, line: 1, col: 1 },
            consumed: Ghost(Seq::empty()),
        }
    }

    /// Consume and return the next character, updating the position: a
    /// newline moves to column 1 of the next line, any other character moves
    /// one column right. Yields nothing — and changes nothing — once the
    /// text is exhausted.
    pub fn next(&mut self) -> (r: Option<char>)
        requires
            old(self).wf(),
        ensures
            final(self).wf(),
            old(self).remaining().len() == 0 ==> r is None && same_stream(*final(self), *old(self)),
            old(self).remaining().len() > 0 ==> {
                &&& r == Some(old(self).remaining()[0])
                &&& final(self).consumed_chars() == old(self).consumed_chars().push(
                    old(self).remaining()[0],
                )
                &&& final(self).remaining() == old(self).remaining().skip(1)
            },
    {
        let next = source_next(&mut self.source);
        match next {
            None => None,
            Some(c) => {
                proof {
                    lemma_line_col_bounds(self.consumed@);
                    lemma_position_step(self.consumed@, c);
                }
                self.current.loc = self.current.loc + 1;
                if c == '\n' {
                    self.current.line = self.current.line + 1;
                    self.current.col = 1;
                } else {
                    self.current.col = self.current.col + 1;
                }
                self.consumed = Ghost(self.consumed@.push(c));
                Some(c)
            },
        }
    }

    /// Look at the next character without consuming it. Repeated calls
    /// return the same value until the stream advances, and do not change
    /// what the next advance yields.
    pub fn peek(&mut self) -> (r: Option<char>)
        requires
            old(self).wf(),
        ensures
            final(self).wf(),
            same_stream(*final(self), *old(self)),
            r == (if old(self).remaining().len() > 0 {
                Some(old(self).remaining()[0])
            } else {
                None::<char>
            }),
    {
        source_peek_nth(&mut self.source, 0)
    }

    /// Consume the longest prefix of characters accepted by `test` and
    /// return it. Each character is consumed only after the test accepts it:
    /// a character the test rejects is left in the stream, so consuming the
    /// remainder afterwards starts exactly at the first rejected character.
    pub fn peek_while<F: Fn(char) -> bool>(&mut self, test: F) -> (r: Vec<char>)
        requires
            old(self).wf(),
            forall|c: char| call_requires(test, (c,)),
        ensures
            final(self).wf(),
            r@.len() <= old(self).remaining().len(),
            r@ == old(self).remaining().take(r@.len() as int),
            final(self).consumed_chars() == old(self).consumed_chars() + r@,
            final(self).remaining() == old(self).remaining().skip(r@.len() as int),
            forall|i: int| 0 <= i < r@.len() ==> call_ensures(test, (r@[i],), true),
            r@.len() < old(self).remaining().len() ==> call_ensures(
                test,
                (old(self).remaining()[r@.len() as int],),
                false,
            ),
    {
        let ghost text0 = self.consumed@;
        let ghost rest0 = self.remaining();
        let mut taken: Vec<char> = Vec::new();
        loop
            invariant
                self.wf(),
                forall|c: char| call_requires(test, (c,)),
                taken@.len() <= rest0.len(),
                taken@ == rest0.take(taken@.len() as int),
                self.consumed_chars() == text0 + taken@,
                self.remaining() == rest0.skip(taken@.len() as int),
                forall|i: int| 0 <= i < taken@.len() ==> call_ensures(test, (taken@[i],), true),
            ensures
                self.wf(),
                taken@.len() <= rest0.len(),
                taken@ == rest0.take(taken@.len() as int),
                self.consumed_chars() == text0 + taken@,
                self.remaining() == rest0.skip(taken@.len() as int),
                forall|i: int| 0 <= i < taken@.len() ==> call_ensures(test, (taken@[i],), true),
                taken@.len() < rest0.len() ==> call_ensures(
                    test,
                    (rest0[taken@.len() as int],),
                    false,
                ),
            decreases rest0.len() - taken@.len(),
        {
            let c = match self.peek() {
                Some(c) => c,
                None => {
                    break;
                },
            };
            if !test(c) {
                break;
            }
            let consumed = self.next();
            proof {
                assert(consumed == Some(c));
                assert(taken@.push(c) =~= rest0.take(taken@.len() as int + 1));
                assert(text0 + taken@.push(c) =~= (text0 + taken@).push(c));
            }
            taken.push(c);
        }
        taken
    }

    /// Capture the current position as the start of a token.
    pub fn start_token(&self) -> (h: TokenHandle)
        ensures
            h.offset() == self.offset(),
            h.line() == self.line(),
            h.column() == self.column(),
    {
        TokenHandle { start: self.current }
    }

    /// Close a token opened with [`Chars::start_token`]: the span runs from
    /// the position the handle captured to the current position.
    pub fn end_token(&self, handle: TokenHandle) -> (r: Span)
        ensures
            r == token_span(handle, *self),
    {
        Span {
            absolute: Some(AbsoluteSpan { start: handle.start.loc, end: self.current.loc }),
            relative: RelativeSpan {
                start: LineAndColumn { line: handle.start.line, column: handle.start.col },
                end: LineAndColumn { line: self.current.line, column: self.current.col },
            },
        }
    }

    /// Open a speculative lookahead over this stream. The stream moves into
    /// the checkpoint and comes back out of [`Checkpoint::commit`] or
    /// [`Checkpoint::abort`].
    pub fn checkpoint(self) -> (cp: Checkpoint)
        requires
            self.wf(),
        ensures
            cp.wf(),
            cp.stream() == self,
            cp.lookahead_count() == 0,
    {
        Checkpoint { chars: self, peeked: 0 }
    }
}

/// Where a well-formed stream stands, whatever was consumed to get there:
/// its line is one more than the newlines consumed, and its column is 1
/// exactly when it is at the start of the text or just after a newline.
pub proof fn lemma_stream_position(c: Chars)
    requires
        c.wf(),
    ensures
        c.line() == 1 + newline_count(c.consumed_chars()),
        c.column() == 1 <==> (c.consumed_chars().len() == 0 || c.consumed_chars().last() == '\n'),
{
    lemma_line_counts_newlines(c.consumed_chars());
    if c.consumed_chars().len() > 0 && c.consumed_chars().last() != '\n' {
        lemma_line_col_bounds(c.consumed_chars().drop_last());
    }
}

/// A speculative lookahead over a [`Chars`] stream: it yields upcoming
/// characters without moving the stream's committed position, and ends in
/// either [`Checkpoint::commit`] — which advances the stream across
/// everything the checkpoint yielded — or [`Checkpoint::abort`], which
/// returns the stream untouched.
pub struct Checkpoint {
    chars: Chars,
    peeked: usize,
}

impl Checkpoint {
    /// The underlying stream, still at its committed position.
    pub closed spec fn stream(self) -> Chars {
        self.chars
    }

    /// How many characters the checkpoint has yielded so far.
    pub closed spec fn lookahead_count(self) -> usize {
        self.peeked
    }

    /// The characters the checkpoint has yielded so far.
    pub open spec fn lookahead(self) -> Seq<char> {
        self.stream().remaining().take(self.lookahead_count() as int)
    }

    /// The characters still ahead of the checkpoint's cursor.
    pub open spec fn pending(self) -> Seq<char> {
        self.stream().remaining().skip(self.lookahead_count() as int)
    }

    /// The checkpoint invariant: a well-formed stream, and a cursor no
    /// further than the end of the text.
    pub open spec fn wf(self) -> bool {
        &&& self.stream().wf()
        &&& self.lookahead_count() <= self.stream().remaining().len()
    }

    /// Yield the next character of the lookahead, or nothing past the end of
    /// the text. The underlying stream's committed position never moves.
    pub fn next(&mut self) -> (r: Option<char>)
        requires
            old(self).wf(),
        ensures
            final(self).wf(),
            same_stream(final(self).stream(), old(self).stream()),
            old(self).pending().len() == 0 ==> r is None && final(self).lookahead_count()
                == old(self).lookahead_count(),
            old(self).pending().len() > 0 ==> r == Some(old(self).pending()[0])
                && final(self).lookahead_count() == old(self).lookahead_count() + 1,
    {
        let r = source_peek_nth(&mut self.chars.source, self.peeked);
        match r {
            Some(c) => {
                self.peeked = self.peeked + 1;
                Some(c)
            },
            None => None,
        }
    }

    /// Look at the character the next [`Checkpoint::next`] would yield,
    /// without moving the lookahead cursor.
    pub fn peek(&mut self) -> (r: Option<char>)
        requires
            old(self).wf(),
        ensures
            final(self).wf(),
            same_stream(final(self).stream(), old(self).stream()),
            final(self).lookahead_count() == old(self).lookahead_count(),
            r == (if old(self).pending().len() > 0 {
                Some(old(self).pending()[0])
            } else {
                None::<char>
            }),
    {
        source_peek_nth(&mut self.chars.source, self.peeked)
    }

    /// Release the checkpoint, returning the stream with no effect on it.
    pub fn abort(self) -> (r: Chars)
        ensures
            r == self.stream(),
    {
        self.chars
    }

    /// Commit the checkpoint: advance the stream across exactly the
    /// characters the checkpoint yielded — position tracking included, as if
    /// they had been consumed directly — and return it.
    pub fn commit(self) -> (r: Chars)
        requires
            self.wf(),
        ensures
            r.wf(),
            r.consumed_chars() == self.stream().consumed_chars() + self.lookahead(),
            r.remaining() == self.pending(),
    {
        let ghost st0 = self.stream();
        let ghost count = self.peeked;
        let Checkpoint { chars: mut chars, peeked } = self;
        let mut i: usize = 0;
        while i < peeked
            invariant
                peeked == count,
                st0.wf(),
                count <= st0.remaining().len(),
                i <= count,
                chars.wf(),
                chars.consumed_chars() == st0.consumed_chars() + st0.remaining().take(i as int),
                chars.remaining() == st0.remaining().skip(i as int),
            decreases count - i,
        {
            proof {
                assert(chars.remaining().len() > 0);
                assert(chars.remaining()[0] == st0.remaining()[i as int]);
            }
            let _c = chars.next();
            proof {
                assert(st0.remaining().take(i as int).push(st0.remaining()[i as int])
                    =~= st0.remaining().take(i + 1));
                assert((st0.consumed_chars() + st0.remaining().take(i as int)).push(
                    st0.remaining()[i as int],
                ) =~= st0.consumed_chars() + st0.remaining().take(i + 1));
                assert(st0.remaining().skip(i as int).skip(1) =~= st0.remaining().skip(i + 1));
            }
            i = i + 1;
        }
        chars
    }

    /// Produce exactly as many characters as `expected` holds — or as many
    /// as remain, if fewer — and report whether they match `expected`.
    ///
    /// The lookahead cursor moves past the compared region even on a
    /// mismatch, so after a `false` result the right move is
    /// [`Checkpoint::abort`]: further reads continue beyond the compared
    /// window, not from its start.
    pub fn head_matches(&mut self, expected: &str) -> (r: bool)
        requires
            old(self).wf(),
        ensures
            final(self).wf(),
            same_stream(final(self).stream(), old(self).stream()),
            final(self).lookahead_count() == old(self).lookahead_count() + (if expected@.len()
                <= old(self).pending().len() {
                expected@.len()
            } else {
                old(self).pending().len()
            }),
            r == (expected@.len() <= old(self).pending().len() && old(self).pending().take(
                expected@.len() as int,
            ) == expected@),
    {
        let ghost st0 = self.stream();
        let ghost pend0 = self.pending();
        let ghost count0 = self.lookahead_count();
        let n = expected.unicode_len();
        let mut i: usize = 0;
        let mut ok = true;
        while i < n
            invariant
                n == expected@.len(),
                i <= n,
                self.wf(),
                same_stream(self.stream(), st0),
                pend0 == st0.remaining().skip(count0 as int),
                count0 <= st0.remaining().len(),
                self.lookahead_count() == count0 + (if i <= pend0.len() {
                    i as int
                } else {
                    pend0.len() as int
                }),
                ok == (i <= pend0.len() && (forall|j: int|
                    0 <= j < i ==> pend0[j] == expected@[j])),
            decreases n - i,
        {
            let ghost taken = self.lookahead_count() - count0;
            proof {
                assert(pend0 =~= st0.remaining().skip(count0 as int));
                assert(self.pending() =~= pend0.skip(taken));
            }
            match self.next() {
                Some(c) => {
                    proof {
                        assert(i < pend0.len());
                        assert(c == pend0[i as int]);
                    }
                    if c != expected.get_char(i) {
                        ok = false;
                    }
                },
                None => {
                    proof {
                        assert(i >= pend0.len());
                    }
                    ok = false;
                },
            }
            i = i + 1;
        }
        proof {
            if n <= pend0.len() && (forall|j: int| 0 <= j < n ==> pend0[j] == expected@[j]) {
                assert(pend0.take(n as int) =~= expected@);
            }
            if n <= pend0.len() && pend0.take(n as int) == expected@ {
                assert forall|j: int| 0 <= j < n implies pend0[j] == expected@[j] by {
                    assert(pend0.take(n as int)[j] == pend0[j]);
                }
            }
        }
        ok
    }
}

} // verus!
