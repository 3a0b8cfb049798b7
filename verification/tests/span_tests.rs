use span::AbsoluteSpan;
use span::Chars;
use span::LineAndColumn;
use span::RelativeSpan;
use span::Span;

fn span_of(text: &str, skip: usize, take: usize) -> Span {
    let mut chars = Chars::new(text);
    for _ in 0..skip {
        let _ = chars.next();
    }
    let start = chars.start_token();
    for _ in 0..take {
        let _ = chars.next();
    }
    chars.end_token(start)
}

#[test]
fn aggregate_empty_list() {
    assert_eq!(Span::aggregate(&[]), Span::unknown());
    assert!(Span::aggregate(&[]).is_unknown());
}

#[test]
fn add() {
    let left = RelativeSpan {
        start: LineAndColumn { line: 1, column: 2 },
        end: LineAndColumn { line: 3, column: 4 },
    };
    let right = RelativeSpan {
        start: LineAndColumn { line: 5, column: 6 },
        end: LineAndColumn { line: 7, column: 8 },
    };
    let expected = RelativeSpan {
        start: LineAndColumn { line: 1, column: 2 },
        end: LineAndColumn { line: 7, column: 8 },
    };
    assert_eq!(expected, RelativeSpan::add(left, right));
}

#[test]
fn min() {
    let left = LineAndColumn { line: 1, column: 2 };
    let right = LineAndColumn { line: 3, column: 4 };
    assert_eq!(left, LineAndColumn::min(left, right));
}

#[test]
fn max() {
    let left = LineAndColumn { line: 1, column: 2 };
    let right = LineAndColumn { line: 3, column: 4 };
    assert_eq!(right, LineAndColumn::max(left, right));
}

#[test]
fn absolute_add_cases() {
    assert_eq!(None, AbsoluteSpan::add(None, None));
    assert_eq!(
        None,
        AbsoluteSpan::add(Some(AbsoluteSpan { start: 1, end: 2 }), None)
    );
    assert_eq!(
        None,
        AbsoluteSpan::add(None, Some(AbsoluteSpan { start: 3, end: 4 }))
    );
    assert_eq!(
        Some(AbsoluteSpan { start: 1, end: 4 }),
        AbsoluteSpan::add(
            Some(AbsoluteSpan { start: 1, end: 2 }),
            Some(AbsoluteSpan { start: 3, end: 4 }),
        )
    );
}

#[test]
fn span_add_unknown_is_identity() {
    let known = Span {
        absolute: Some(AbsoluteSpan { start: 1, end: 2 }),
        relative: RelativeSpan {
            start: LineAndColumn { line: 4, column: 5 },
            end: LineAndColumn { line: 6, column: 7 },
        },
    };
    let merged = Span::add(known, Span::unknown());
    assert!(!merged.is_unknown());
    assert_eq!(merged, known);
    assert_eq!(merged.start(), Some(1));
    let merged = Span::add(Span::unknown(), known);
    assert_eq!(merged.start(), Some(1));
    assert!(Span::add(Span::unknown(), Span::unknown()).is_unknown());
}

#[test]
fn span_add_covers_both_operands() {
    let a = Span {
        absolute: Some(AbsoluteSpan { start: 1, end: 2 }),
        relative: RelativeSpan {
            start: LineAndColumn { line: 4, column: 5 },
            end: LineAndColumn { line: 6, column: 7 },
        },
    };
    let b = Span {
        absolute: Some(AbsoluteSpan { start: 8, end: 9 }),
        relative: RelativeSpan {
            start: LineAndColumn { line: 10, column: 11 },
            end: LineAndColumn { line: 12, column: 13 },
        },
    };
    let m = Span::add(a, b);
    assert_eq!(m.start(), Some(1));
    assert_eq!(m.len(), Some(8));
    assert_eq!(m.start_line(), Some(4));
    assert_eq!(m.start_position_on_start_line(), Some(5));
    assert_eq!(m.end_line(), Some(12));
    assert_eq!(m.end_position_on_end_line(), Some(13));
    // Order does not matter.
    let n = Span::add(b, a);
    assert_eq!(m, n);
    assert!(!m.is_unknown());
}

#[test]
fn unknown_equals_every_span() {
    let mut chars = Chars::new("123456");
    let span1 = {
        let start = chars.start_token();
        for _ in 0..3 {
            let _ = chars.next();
        }
        chars.end_token(start)
    };
    let span2 = {
        let start = chars.start_token();
        for _ in 0..3 {
            let _ = chars.next();
        }
        chars.end_token(start)
    };
    assert_eq!(span1, span1);
    assert_ne!(span1, span2);
    assert_eq!(span1, Span::unknown());
    assert_eq!(Span::unknown(), span1);
    assert_eq!(span2, Span::unknown());
    assert_eq!(Span::unknown(), Span::unknown());
}

#[test]
fn aggregate_singleton_yields_the_span() {
    let a = span_of("123456", 1, 3);
    let agg = Span::aggregate(&[a]);
    assert!(!agg.is_unknown());
    assert_eq!(agg.start(), a.start());
    assert_eq!(agg.len(), a.len());
    assert_eq!(agg.start_line(), a.start_line());
    assert_eq!(agg.end_position_on_end_line(), a.end_position_on_end_line());
}

#[test]
fn aggregate_ignores_order() {
    let a = span_of("123\n456\n789", 0, 3);
    let b = span_of("123\n456\n789", 4, 3);
    let c = span_of("123\n456\n789", 8, 3);
    let forward = Span::aggregate(&[a, b, c]);
    let backward = Span::aggregate(&[c, b, a]);
    assert_eq!(forward, backward);
    assert_eq!(forward.start(), backward.start());
    assert_eq!(forward.len(), backward.len());
    assert_eq!(forward.display(true), backward.display(true));
    assert_eq!(forward.display(true), "line 1 column 1 to line 3 column 4");
}

#[test]
fn aggregate_ignores_permutation() {
    let a = span_of("123\n456\n789", 0, 3);
    let b = span_of("123\n456\n789", 4, 3);
    let c = span_of("123\n456\n789", 8, 3);
    let orders = [
        [a, b, c],
        [a, c, b],
        [b, a, c],
        [b, c, a],
        [c, a, b],
        [c, b, a],
    ];
    let expected = Span::aggregate(&[a, b, c]);
    for spans in orders.iter() {
        let agg = Span::aggregate(spans);
        assert!(!agg.is_unknown());
        assert_eq!(agg.start(), expected.start());
        assert_eq!(agg.len(), expected.len());
        assert_eq!(agg.start_line(), expected.start_line());
        assert_eq!(
            agg.start_position_on_start_line(),
            expected.start_position_on_start_line()
        );
        assert_eq!(agg.end_line(), expected.end_line());
        assert_eq!(agg.end_position_on_end_line(), expected.end_position_on_end_line());
    }
    // An unknown span in the bag changes nothing, wherever it sits.
    let with_unknown = Span::aggregate(&[b, Span::unknown(), a, c]);
    assert_eq!(with_unknown.start(), expected.start());
    assert_eq!(with_unknown.len(), expected.len());
}

#[test]
fn aggregate_pairs() {
    let span1 = span_of("123\n456\n789", 0, 3);
    let span2 = span_of("123\n456\n789", 4, 3);
    let span3 = span_of("123\n456\n789", 8, 3);
    assert_eq!(span1.display(true), "line 1 column 1 to column 4");
    assert_eq!(span2.display(true), "line 2 column 1 to column 4");
    assert_eq!(span3.display(true), "line 3 column 1 to column 4");
    assert_eq!(
        Span::aggregate(&[span1, span2, span3]).display(true),
        "line 1 column 1 to line 3 column 4"
    );
    assert_eq!(
        Span::aggregate(&[span1, span3]).display(true),
        "line 1 column 1 to line 3 column 4"
    );
    assert_eq!(
        Span::aggregate(&[span2, span3]).display(true),
        "line 2 column 1 to line 3 column 4"
    );
    assert_eq!(
        Span::aggregate(&[span1, span2]).display(true),
        "line 1 column 1 to line 2 column 4"
    );
}

#[test]
fn display_unknown() {
    assert_eq!(Span::unknown().display(false), "???");
    assert_eq!(Span::unknown().display(true), "???");
}

#[test]
fn display_empty_span() {
    let span = span_of("123456", 0, 0);
    assert_eq!(span.display(false), "line 1 column 1");
    assert_eq!(span.display(true), "line 1 column 1");
}

#[test]
fn display_single_character_span() {
    let span = span_of("123456", 0, 1);
    assert_eq!(span.display(false), "line 1 column 1");
    assert_eq!(span.display(true), "line 1 column 1");
}

#[test]
fn display_single_line_span() {
    let span = span_of("123456", 0, 4);
    assert_eq!(span.display(false), "line 1 column 1");
    assert_eq!(span.display(true), "line 1 column 1 to column 5");
}

#[test]
fn display_multi_line_span() {
    let span = span_of("123\n456", 0, 5);
    assert_eq!(span.display(false), "line 1 column 1");
    assert_eq!(span.display(true), "line 1 column 1 to line 2 column 2");
}

#[test]
fn display_multi_digit_numbers() {
    let span = span_of("abcdefghijklmnop", 0, 12);
    assert_eq!(span.display(true), "line 1 column 1 to column 13");
}

#[test]
fn accessors_on_known_and_unknown_spans() {
    let span1 = span_of("123\n456", 0, 3);
    let span2 = span_of("123\n456", 4, 3);
    assert_eq!(span1.start_line(), Some(1));
    assert_eq!(span2.start_line(), Some(2));
    assert_eq!(Span::unknown().start_line(), None);
    assert_eq!(span1.start_position_on_start_line(), Some(1));
    assert_eq!(span2.start_position_on_start_line(), Some(1));
    assert_eq!(Span::unknown().start_position_on_start_line(), None);
    assert_eq!(span1.end_line(), Some(1));
    assert_eq!(span2.end_line(), Some(2));
    assert_eq!(Span::unknown().end_line(), None);
    assert_eq!(span1.end_position_on_end_line(), Some(4));
    assert_eq!(span2.end_position_on_end_line(), Some(4));
    assert_eq!(Span::unknown().end_position_on_end_line(), None);
    assert_eq!(span1.start(), Some(0));
    assert_eq!(span2.start(), Some(4));
    assert_eq!(Span::unknown().start(), None);
    assert_eq!(span1.len(), Some(3));
    assert_eq!(span2.len(), Some(3));
    assert_eq!(Span::unknown().len(), None);
}

#[test]
fn consecutive_tokens_on_one_line() {
    let mut chars = Chars::new("123456");
    let span1 = {
        let start = chars.start_token();
        for _ in 0..3 {
            let _ = chars.next();
        }
        chars.end_token(start)
    };
    let span2 = {
        let start = chars.start_token();
        for _ in 0..3 {
            let _ = chars.next();
        }
        chars.end_token(start)
    };
    assert_eq!(span1.start(), Some(0));
    assert_eq!(span2.start(), Some(3));
    assert_eq!(span1.start_position_on_start_line(), Some(1));
    assert_eq!(span2.start_position_on_start_line(), Some(4));
    assert_eq!(span1.end_position_on_end_line(), Some(4));
    assert_eq!(span2.end_position_on_end_line(), Some(7));
}
