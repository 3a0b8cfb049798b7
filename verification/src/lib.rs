//! Position-tracking primitives for a lexer front end: a character stream
//! that records byte offset, line and column as it advances, a speculative
//! lookahead over such a stream, and a [`Span`] value recording a region of
//! source text, with a sentinel for unknown regions and an operation merging
//! several spans into their covering region.

use vstd::prelude::*;
use vstd::string::StringExecFns;

mod chars;

pub use chars::col_of;
pub use chars::lemma_line_counts_newlines;
pub use chars::lemma_position_monotone;
pub use chars::lemma_position_step;
pub use chars::lemma_stream_position;
pub use chars::line_of;
pub use chars::newline_count;
pub use chars::same_stream;
pub use chars::token_span;
pub use chars::Chars;
pub use chars::Checkpoint;
pub use chars::TokenHandle;

verus! {

/// A line/column pair, both 1-indexed.
#[derive(Debug, Copy, Clone, PartialEq, Eq, Structural)]
pub struct LineAndColumn {
    /// Line number, 1-indexed.
    pub line: usize,
    /// Column on that line, 1-indexed.
    pub column: usize,
}

/// A half-open range of absolute character offsets, 0-indexed.
#[derive(Debug, Copy, Clone, PartialEq, Eq, Structural)]
pub struct AbsoluteSpan {
    /// Offset of the first character of the region.
    pub start: usize,
    /// Offset one past the last character of the region.
    pub end: usize,
}

/// A region in line/column form: where it starts and where it ends.
#[derive(Debug, Copy, Clone, PartialEq, Eq, Structural)]
pub struct RelativeSpan {
    /// Line and column of the first character of the region.
    pub start: LineAndColumn,
    /// Line and column one past the last character of the region.
    pub end: LineAndColumn,
}

/// Represents a region of a source file, in both absolute-offset and
/// line/column form.
///
/// A span with no absolute range is the "unknown" placeholder produced by
/// [`Span::unknown`]; its line/column fields hold a maximal sentinel and are
/// never meaningful. Equality treats an unknown span as equal to every span
/// (see [`spec_span_eq`]), which deliberately breaks transitivity so that a
/// real span can be compared against the placeholder without special cases.
#[derive(Debug, Copy, Clone)]
pub struct Span {
    /// Absolute character range, absent for the unknown placeholder.
    pub absolute: Option<AbsoluteSpan>,
    /// The same region in line/column form.
    pub relative: RelativeSpan,
}

/// `a` comes no later than `b` in lexicographic (line, column) order.
pub open spec fn lc_le(a: LineAndColumn, b: LineAndColumn) -> bool {
    a.line < b.line || (a.line == b.line && a.column <= b.column)
}

/// The earlier of two positions; on a tie, the first.
pub open spec fn lc_min(a: LineAndColumn, b: LineAndColumn) -> LineAndColumn {
    if lc_le(a, b) {
        a
    } else {
        b
    }
}

/// The later of two positions; on a tie, the second.
pub open spec fn lc_max(a: LineAndColumn, b: LineAndColumn) -> LineAndColumn {
    if lc_le(a, b) {
        b
    } else {
        a
    }
}

impl LineAndColumn {
    /// The lexicographically smaller of two positions.
    pub fn min(a: LineAndColumn, b: LineAndColumn) -> (r: LineAndColumn)
        ensures
            r == lc_min(a, b),
    {
        if a.line < b.line {
            a
        } else if b.line < a.line {
            b
        } else if a.column <= b.column {
            a
        } else {
            b
        }
    }

    /// The lexicographically larger of two positions.
    pub fn max(a: LineAndColumn, b: LineAndColumn) -> (r: LineAndColumn)
        ensures
            r == lc_max(a, b),
    {
        if a.line < b.line {
            b
        } else if b.line < a.line {
            a
        } else if a.column <= b.column {
            b
        } else {
            a
        }
    }
}

/// The smallest absolute range covering both arguments, or nothing if either
/// is absent.
pub open spec fn spec_absolute_add(
    a: Option<AbsoluteSpan>,
    b: Option<AbsoluteSpan>,
) -> Option<AbsoluteSpan> {
    match (a, b) {
        (Some(x), Some(y)) => Some(
            (AbsoluteSpan {
                start: if x.start <= y.start {
                    x.start
                } else {
                    y.start
                },
                end: if x.end >= y.end {
                    x.end
                } else {
                    y.end
                },
            }),
        ),
        _ => None,
    }
}

impl AbsoluteSpan {
    /// The smallest absolute range covering both arguments, or `None` if
    /// either is absent.
    pub fn add(a: Option<AbsoluteSpan>, b: Option<AbsoluteSpan>) -> (r: Option<AbsoluteSpan>)
        ensures
            r == spec_absolute_add(a, b),
    {
        match (a, b) {
            (Some(x), Some(y)) => Some(
                AbsoluteSpan {
                    start: if x.start <= y.start {
                        x.start
                    } else {
                        y.start
                    },
                    end: if x.end >= y.end {
                        x.end
                    } else {
                        y.end
                    },
                },
            ),
            _ => None,
        }
    }
}

/// The smallest line/column range covering both arguments.
pub open spec fn spec_relative_add(a: RelativeSpan, b: RelativeSpan) -> RelativeSpan {
    RelativeSpan { start: lc_min(a.start, b.start), end: lc_max(a.end, b.end) }
}

impl RelativeSpan {
    /// The smallest line/column range covering both arguments.
    pub fn add(a: RelativeSpan, b: RelativeSpan) -> (r: RelativeSpan)
        ensures
            r == spec_relative_add(a, b),
    {
        RelativeSpan {
            start: LineAndColumn::min(a.start, b.start),
            end: LineAndColumn::max(a.end, b.end),
        }
    }
}

/// The unknown placeholder span: no absolute range, maximal sentinel
/// line/column fields.
pub open spec fn unknown_span() -> Span {
    Span {
        absolute: None,
        relative: RelativeSpan {
            start: LineAndColumn { line: usize::MAX, column: usize::MAX },
            end: LineAndColumn { line: usize::MAX, column: usize::MAX },
        },
    }
}

/// Span equality: an unknown span equals everything; two spans with absolute
/// ranges are equal exactly when all their fields agree.
///
/// This relation is deliberately not transitive: two distinct spans each
/// compare equal to the unknown placeholder.
pub open spec fn spec_span_eq(a: Span, b: Span) -> bool {
    a.absolute is None || b.absolute is None || (a.absolute == b.absolute && a.relative
        == b.relative)
}

/// The covering span of two spans, with the unknown span as identity: if
/// either side is unknown the other is returned unchanged.
pub open spec fn spec_span_add(a: Span, b: Span) -> Span {
    if a.absolute is None {
        b
    } else if b.absolute is None {
        a
    } else {
        Span {
            absolute: spec_absolute_add(a.absolute, b.absolute),
            relative: spec_relative_add(a.relative, b.relative),
        }
    }
}

impl Span {
    /// The placeholder for an unknown span.
    pub fn unknown() -> (r: Span)
        ensures
            r == unknown_span(),
    {
        Span {
            absolute: None,
            relative: RelativeSpan {
                start: LineAndColumn { line: usize::MAX, column: usize::MAX },
                end: LineAndColumn { line: usize::MAX, column: usize::MAX },
            },
        }
    }

    /// True exactly for the unknown placeholder.
    pub open spec fn spec_is_unknown(&self) -> bool {
        self.absolute is None
    }

    /// Check whether the span is the unknown placeholder. Needed because
    /// equality treats the unknown span as equal to every span.
    #[verifier::when_used_as_spec(spec_is_unknown)]
    pub fn is_unknown(&self) -> (r: bool)
        ensures
            r == self.spec_is_unknown(),
    {
        self.absolute.is_none()
    }

    /// The smallest span covering both arguments; the unknown span acts as
    /// the identity element.
    pub fn add(a: Span, b: Span) -> (r: Span)
        ensures
            r == spec_span_add(a, b),
    {
        if a.is_unknown() {
            return b;
        }
        if b.is_unknown() {
            return a;
        }
        Span {
            absolute: AbsoluteSpan::add(a.absolute, b.absolute),
            relative: RelativeSpan::add(a.relative, b.relative),
        }
    }

    /// The span invariant: when an absolute range is present, it and the
    /// line/column range are both ordered.
    pub open spec fn wf(self) -> bool {
        match self.absolute {
            Some(a) => a.start <= a.end && lc_le(self.relative.start, self.relative.end),
            None => true,
        }
    }

    /// A span the library itself would produce: if it is unknown, it is
    /// exactly the placeholder, sentinel fields included.
    pub open spec fn is_canonical(self) -> bool {
        self.spec_is_unknown() ==> self == unknown_span()
    }

    /// Take a list of spans and produce a span that covers all of them.
    ///
    /// Folds the list with [`Span::add`]. An empty list (and likewise a list
    /// of only unknown spans) yields the unknown placeholder; handing an
    /// empty list to this operation signals a caller bug, and callers that
    /// want that surfaced eagerly should check `is_unknown` on the result.
    pub fn aggregate(spans: &[Span]) -> (r: Span)
        ensures
            r == spec_aggregate(spans@),
            spans@.len() == 0 ==> r == unknown_span(),
    {
        let mut result = Span::unknown();
        let n = spans.len();
        let mut i: usize = 0;
        while i < n
            invariant
                n == spans@.len(),
                i <= n,
                result == spec_aggregate(spans@.take(i as int)),
            decreases n - i,
        {
            proof {
                assert(spans@.take(i + 1).drop_last() =~= spans@.take(i as int));
                assert(spans@.take(i + 1).last() == spans@[i as int]);
            }
            result = Span::add(result, spans[i]);
            i = i + 1;
        }
        proof {
            assert(spans@.take(n as int) =~= spans@);
        }
        result
    }

    /// Start line of the region, 1-indexed; nothing for the unknown span.
    pub fn start_line(&self) -> (r: Option<usize>)
        ensures
            r == (if self.spec_is_unknown() {
                None::<usize>
            } else {
                Some(self.relative.start.line)
            }),
    {
        match self.absolute {
            Some(_) => Some(self.relative.start.line),
            None => None,
        }
    }

    /// Column of the region's first character on its start line, 1-indexed;
    /// nothing for the unknown span.
    pub fn start_position_on_start_line(&self) -> (r: Option<usize>)
        ensures
            r == (if self.spec_is_unknown() {
                None::<usize>
            } else {
                Some(self.relative.start.column)
            }),
    {
        match self.absolute {
            Some(_) => Some(self.relative.start.column),
            None => None,
        }
    }

    /// End line of the region, 1-indexed; nothing for the unknown span.
    pub fn end_line(&self) -> (r: Option<usize>)
        ensures
            r == (if self.spec_is_unknown() {
                None::<usize>
            } else {
                Some(self.relative.end.line)
            }),
    {
        match self.absolute {
            Some(_) => Some(self.relative.end.line),
            None => None,
        }
    }

    /// Column one past the region's last character on its end line,
    /// 1-indexed; nothing for the unknown span.
    pub fn end_position_on_end_line(&self) -> (r: Option<usize>)
        ensures
            r == (if self.spec_is_unknown() {
                None::<usize>
            } else {
                Some(self.relative.end.column)
            }),
    {
        match self.absolute {
            Some(_) => Some(self.relative.end.column),
            None => None,
        }
    }

    /// Absolute offset of the start of the region; nothing for the unknown
    /// span.
    pub fn start(&self) -> (r: Option<usize>)
        ensures
            r == (if self.spec_is_unknown() {
                None::<usize>
            } else {
                Some(self.absolute->0.start)
            }),
    {
        match self.absolute {
            Some(a) => Some(a.start),
            None => None,
        }
    }

    /// Number of characters the region covers (it may cross lines); nothing
    /// for the unknown span.
    pub fn len(&self) -> (r: Option<usize>)
        requires
            self.wf(),
        ensures
            r == (if self.spec_is_unknown() {
                None::<usize>
            } else {
                Some((self.absolute->0.end - self.absolute->0.start) as usize)
            }),
    {
        match self.absolute {
            Some(a) => Some(a.end - a.start),
            None => None,
        }
    }
}

/// The covering span of a whole list, the unknown placeholder for an empty
/// list; folds left with [`spec_span_add`].
pub open spec fn spec_aggregate(spans: Seq<Span>) -> Span
    decreases spans.len(),
{
    if spans.len() == 0 {
        unknown_span()
    } else {
        spec_span_add(spec_aggregate(spans.drop_last()), spans.last())
    }
}

/// The digit character for a value below ten.
pub open spec fn digit_char(d: nat) -> char {
    if d == 0 {
        '0'
    } else if d == 1 {
        '1'
    } else if d == 2 {
        '2'
    } else if d == 3 {
        '3'
    } else if d == 4 {
        '4'
    } else if d == 5 {
        '5'
    } else if d == 6 {
        '6'
    } else if d == 7 {
        '7'
    } else if d == 8 {
        '8'
    } else {
        '9'
    }
}

/// The decimal rendering of a number, most significant digit first.
pub open spec fn dec_str(n: nat) -> Seq<char>
    decreases n,
{
    if n < 10 {
        seq![digit_char(n)]
    } else {
        dec_str(n / 10).push(digit_char(n % 10))
    }
}

/// The one-character string for a digit.
fn digit_str(d: usize) -> (r: &'static str)
    requires
        d < 10,
    ensures
        r@ == seq![digit_char(d as nat)],
{
    proof {
        reveal_strlit("0");
        reveal_strlit("1");
        reveal_strlit("2");
        reveal_strlit("3");
        reveal_strlit("4");
        reveal_strlit("5");
        reveal_strlit("6");
        reveal_strlit("7");
        reveal_strlit("8");
        reveal_strlit("9");
    }
    let r = if d == 0 {
        "0"
    } else if d == 1 {
        "1"
    } else if d == 2 {
        "2"
    } else if d == 3 {
        "3"
    } else if d == 4 {
        "4"
    } else if d == 5 {
        "5"
    } else if d == 6 {
        "6"
    } else if d == 7 {
        "7"
    } else if d == 8 {
        "8"
    } else {
        "9"
    };
    proof {
        assert(r@ =~= seq![digit_char(d as nat)]);
    }
    r
}

/// Render a number in decimal.
fn decimal(n: usize) -> (r: String)
    ensures
        r@ == dec_str(n as nat),
    decreases n,
{
    if n < 10 {
        String::from_str(digit_str(n))
    } else {
        let mut s = decimal(n / 10);
        s.append(digit_str(n % 10));
        proof {
            assert(s@ =~= dec_str(n as nat));
        }
        s
    }
}

/// The text [`Span::display`] produces: `???` for the unknown span, else the
/// start position, then — only in detailed mode and only for a region wider
/// than one character — the end position, the end line being left out when it
/// matches the start line.
pub open spec fn spec_render(s: Span, detailed: bool) -> Seq<char> {
    if s.absolute is None {
        "???"@
    } else {
        let head = "line "@ + dec_str(s.relative.start.line as nat) + " column "@ + dec_str(
            s.relative.start.column as nat,
        );
        if s.relative.start == s.relative.end {
            head
        } else if s.relative.start.line == s.relative.end.line && s.relative.start.column + 1
            == s.relative.end.column {
            head
        } else if !detailed {
            head
        } else {
            let end_line = if s.relative.end.line != s.relative.start.line {
                " line "@ + dec_str(s.relative.end.line as nat)
            } else {
                Seq::<char>::empty()
            };
            head + " to"@ + end_line + " column "@ + dec_str(s.relative.end.column as nat)
        }
    }
}

impl Span {
    /// Human-readable form of the span. Compact mode prints only where the
    /// region starts; detailed mode also prints where a region wider than one
    /// character ends.
    pub fn display(&self, detailed: bool) -> (r: String)
        ensures
            r@ == spec_render(*self, detailed),
    {
        if self.is_unknown() {
            return String::from_str("???");
        }
        let rel = self.relative;
        let mut out = String::from_str("line ");
        let start_line = decimal(rel.start.line);
        out.append(start_line.as_str());
        out.append(" column ");
        let start_column = decimal(rel.start.column);
        out.append(start_column.as_str());
        proof {
            assert(out@ =~= "line "@ + dec_str(rel.start.line as nat) + " column "@ + dec_str(
                rel.start.column as nat,
            ));
        }
        // An empty region stops at its start position.
        if rel.start == rel.end {
            return out;
        }
        // So does a region exactly one character wide.
        if rel.start.line == rel.end.line && rel.end.column > rel.start.column && rel.end.column
            - rel.start.column == 1 {
            return out;
        }
        if !detailed {
            return out;
        }
        out.append(" to");
        if rel.end.line != rel.start.line {
            out.append(" line ");
            let end_line = decimal(rel.end.line);
            out.append(end_line.as_str());
        }
        out.append(" column ");
        let end_column = decimal(rel.end.column);
        out.append(end_column.as_str());
        proof {
            assert(out@ =~= spec_render(*self, detailed));
        }
        out
    }
}

impl PartialEq for Span {
    /// Span equality, with the unknown span as a universal wildcard: see
    /// [`spec_span_eq`].
    fn eq(&self, other: &Span) -> (r: bool) {
        if self.is_unknown() || other.is_unknown() {
            true
        } else {
            match (self.absolute, other.absolute) {
                (Some(a), Some(b)) => a.start == b.start && a.end == b.end && self.relative
                    == other.relative,
                _ => true,
            }
        }
    }
}

impl vstd::std_specs::cmp::PartialEqSpecImpl for Span {
    open spec fn obeys_eq_spec() -> bool {
        true
    }

    open spec fn eq_spec(&self, other: &Span) -> bool {
        spec_span_eq(*self, *other)
    }
}

/// The unknown span compares equal to every span, on either side — itself
/// included.
pub proof fn lemma_unknown_eq_wildcard(s: Span)
    ensures
        spec_span_eq(unknown_span(), s),
        spec_span_eq(s, unknown_span()),
{
}

/// Between two spans that are not unknown, equality is exact agreement of
/// all fields; in particular, differing absolute ranges make them unequal.
pub proof fn lemma_known_eq_exact(a: Span, b: Span)
    requires
        !a.spec_is_unknown(),
        !b.spec_is_unknown(),
    ensures
        spec_span_eq(a, b) <==> (a.absolute == b.absolute && a.relative == b.relative),
{
}

/// Merging is commutative on the spans the library produces.
pub proof fn lemma_add_commutative(a: Span, b: Span)
    requires
        a.is_canonical(),
        b.is_canonical(),
    ensures
        spec_span_add(a, b) == spec_span_add(b, a),
{
}

/// Merging is associative.
pub proof fn lemma_add_associative(a: Span, b: Span, c: Span)
    ensures
        spec_span_add(spec_span_add(a, b), c) == spec_span_add(a, spec_span_add(b, c)),
{
}

/// Merging preserves being a span the library produces.
pub proof fn lemma_add_canonical(a: Span, b: Span)
    requires
        a.is_canonical(),
        b.is_canonical(),
    ensures
        spec_span_add(a, b).is_canonical(),
{
}

/// Aggregating a single span yields that span back, unknown or not.
pub proof fn lemma_aggregate_singleton(a: Span)
    ensures
        spec_aggregate(seq![a]) == a,
{
    let s = seq![a];
    assert(s.last() == a);
    assert(s.drop_last() =~= Seq::<Span>::empty());
    assert(spec_aggregate(s.drop_last()) == unknown_span());
}

/// Aggregating spans the library produces yields such a span.
pub proof fn lemma_aggregate_canonical(spans: Seq<Span>)
    requires
        forall|i: int| 0 <= i < spans.len() ==> spans[i].is_canonical(),
    ensures
        spec_aggregate(spans).is_canonical(),
    decreases spans.len(),
{
    if spans.len() > 0 {
        lemma_aggregate_canonical(spans.drop_last());
        lemma_add_canonical(spec_aggregate(spans.drop_last()), spans.last());
    }
}

/// Folding from the front agrees with the definition's fold from the back.
proof fn lemma_aggregate_cons(x: Span, spans: Seq<Span>)
    requires
        x.is_canonical(),
    ensures
        spec_aggregate(seq![x] + spans) == spec_span_add(x, spec_aggregate(spans)),
    decreases spans.len(),
{
    if spans.len() == 0 {
        assert(seq![x] + spans =~= seq![x]);
        lemma_aggregate_singleton(x);
    } else {
        let whole = seq![x] + spans;
        assert(whole.drop_last() =~= seq![x] + spans.drop_last());
        lemma_aggregate_cons(x, spans.drop_last());
        lemma_add_associative(x, spec_aggregate(spans.drop_last()), spans.last());
    }
}

/// The aggregate of a list is unknown exactly when every span in the list
/// is unknown — in particular, the aggregate of a list holding at least one
/// real span is a real span.
pub proof fn lemma_aggregate_unknown_iff(spans: Seq<Span>)
    ensures
        spec_aggregate(spans).spec_is_unknown() <==> (forall|i: int|
            0 <= i < spans.len() ==> (#[trigger] spans[i]).spec_is_unknown()),
    decreases spans.len(),
{
    if spans.len() > 0 {
        let front = spans.drop_last();
        lemma_aggregate_unknown_iff(front);
        if spec_aggregate(spans).spec_is_unknown() {
            assert(spec_aggregate(front).spec_is_unknown() && spans.last().spec_is_unknown());
            assert forall|i: int| 0 <= i < spans.len() implies (
            #[trigger] spans[i]).spec_is_unknown() by {
                if i < spans.len() - 1 {
                    assert(front[i] == spans[i]);
                    assert(front[i].spec_is_unknown());
                } else {
                    assert(spans[i] == spans.last());
                }
            }
        }
        if forall|i: int| 0 <= i < spans.len() ==> (#[trigger] spans[i]).spec_is_unknown() {
            assert forall|i: int| 0 <= i < front.len() implies (
            #[trigger] front[i]).spec_is_unknown() by {
                assert(front[i] == spans[i]);
            }
            assert(spec_aggregate(front).spec_is_unknown());
            assert(spans.last() == spans[spans.len() - 1]);
            assert(spec_aggregate(spans).spec_is_unknown());
        }
    }
}

/// Any span that is not unknown can be pulled out of a fold: merging it
/// last gives the same result as merging it in place.
proof fn lemma_aggregate_remove_known(spans: Seq<Span>, j: int)
    requires
        0 <= j < spans.len(),
        !spans[j].spec_is_unknown(),
    ensures
        spec_aggregate(spans) == spec_span_add(spec_aggregate(spans.remove(j)), spans[j]),
    decreases spans.len(),
{
    if j == spans.len() - 1 {
        assert(spans.remove(j) =~= spans.drop_last());
    } else {
        let u = spans.drop_last();
        let y = spans.last();
        let u_r = u.remove(j);
        assert(u[j] == spans[j]);
        lemma_aggregate_remove_known(u, j);
        assert(spec_aggregate(spans) == spec_span_add(
            spec_span_add(spec_aggregate(u_r), u[j]),
            y,
        ));
        lemma_add_associative(spec_aggregate(u_r), u[j], y);
        // A merge with a real span on one side is symmetric even when the
        // other side is an arbitrary unknown span.
        assert(spec_span_add(u[j], y) == spec_span_add(y, u[j]));
        lemma_add_associative(spec_aggregate(u_r), y, u[j]);
        assert(spec_aggregate(spans) == spec_span_add(
            spec_span_add(spec_aggregate(u_r), y),
            u[j],
        ));
        assert(u_r.push(y) =~= spans.remove(j));
        assert(u_r.push(y).drop_last() =~= u_r);
        assert(u_r.push(y).last() == y);
        assert(spec_aggregate(u_r.push(y)) == spec_span_add(spec_aggregate(u_r), y));
    }
}

/// Aggregation sees its list as a bag: two lists that hold the same spans,
/// in any order, aggregate to the very same span, provided at least one of
/// the spans is not unknown.
pub proof fn lemma_aggregate_permutation(xs: Seq<Span>, ys: Seq<Span>)
    requires
        xs.to_multiset() == ys.to_multiset(),
        exists|i: int| 0 <= i < xs.len() && !(#[trigger] xs[i]).spec_is_unknown(),
    ensures
        spec_aggregate(xs) == spec_aggregate(ys),
    decreases xs.len(),
{
    broadcast use vstd::seq_lib::group_to_multiset_ensures;

    let i = choose|i: int| 0 <= i < xs.len() && !(#[trigger] xs[i]).spec_is_unknown();
    let x = xs[i];
    assert(xs.contains(x));
    assert(ys.to_multiset().count(x) > 0);
    assert(ys.contains(x));
    let j = ys.index_of(x);
    assert(0 <= j < ys.len() && ys[j] == x);
    let xs_r = xs.remove(i);
    let ys_r = ys.remove(j);
    assert(xs_r.to_multiset() =~= xs.to_multiset().remove(x));
    assert(ys_r.to_multiset() =~= ys.to_multiset().remove(x));
    lemma_aggregate_remove_known(xs, i);
    lemma_aggregate_remove_known(ys, j);
    if exists|k: int| 0 <= k < xs_r.len() && !(#[trigger] xs_r[k]).spec_is_unknown() {
        lemma_aggregate_permutation(xs_r, ys_r);
    } else {
        // Only unknown spans are left on either side, so both leftover
        // aggregates are unknown and the pulled-out span decides alone.
        assert forall|k: int| 0 <= k < ys_r.len() implies (#[trigger] ys_r[k]).spec_is_unknown()
        by {
            assert(ys_r.to_multiset().count(ys_r[k]) > 0);
            assert(xs_r.contains(ys_r[k]));
        }
        lemma_aggregate_unknown_iff(xs_r);
        lemma_aggregate_unknown_iff(ys_r);
    }
}

/// Aggregation does not depend on the order of the list: reversing the
/// spans yields the very same covering span.
pub proof fn lemma_aggregate_reverse(spans: Seq<Span>)
    requires
        forall|i: int| 0 <= i < spans.len() ==> spans[i].is_canonical(),
    ensures
        spec_aggregate(spans.reverse()) == spec_aggregate(spans),
    decreases spans.len(),
{
    if spans.len() > 0 {
        let front = spans.drop_last();
        let y = spans.last();
        assert(spans.reverse() =~= seq![y] + front.reverse());
        lemma_aggregate_cons(y, front.reverse());
        assert(forall|i: int| 0 <= i < front.len() ==> front[i].is_canonical());
        lemma_aggregate_reverse(front);
        lemma_aggregate_canonical(front);
        lemma_add_commutative(y, spec_aggregate(front));
    }
}

} // verus!
