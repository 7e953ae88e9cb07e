use param_scanner::diag::{Diagnostics, ErrorKind, Span};
use param_scanner::iter::ParamIter;
use param_scanner::param::Param;

fn span_of(template: &[u8], lo: usize) -> Span {
    Span { lo, hi: lo + template.len() }
}

fn scanner(template: &[u8]) -> ParamIter {
    ParamIter::new(template.to_vec(), span_of(template, 0))
}

#[test]
fn single_param() {
    let t = b"<id>";
    let mut it = scanner(t);
    let mut d = Diagnostics::new();
    let p = it.next(&mut d).expect("one descriptor");
    match &p {
        Param::Single(si) => {
            assert_eq!(si.node, b"id".to_vec());
            assert_eq!(si.span, Span { lo: 0, hi: 4 });
        }
        Param::Many(_) => panic!("expected Single"),
    }
    assert!(it.next(&mut d).is_none());
    assert_eq!(d.len(), 0);
}

#[test]
fn many_param_strips_marker() {
    let t = b"<rest..>";
    let mut it = scanner(t);
    let mut d = Diagnostics::new();
    let p = it.next(&mut d).expect("one descriptor");
    match &p {
        Param::Many(si) => {
            assert_eq!(si.node, b"rest".to_vec());
            assert_eq!(si.span, Span { lo: 0, hi: 8 });
        }
        Param::Single(_) => panic!("expected Many"),
    }
    assert!(it.next(&mut d).is_none());
    assert_eq!(d.len(), 0);
}

#[test]
fn two_params_in_order() {
    let t = b"/a/<id>/<rest..>";
    let mut it = scanner(t);
    let mut d = Diagnostics::new();

    let first = it.next(&mut d).expect("first descriptor");
    assert!(!first.is_many());
    assert_eq!(first.ident(), &b"id".to_vec());
    assert_eq!(first.inner().span, Span { lo: 3, hi: 7 });

    let second = it.next(&mut d).expect("second descriptor");
    assert!(second.is_many());
    assert_eq!(second.ident(), &b"rest".to_vec());
    assert_eq!(second.inner().span, Span { lo: 8, hi: 16 });

    // the spans do not overlap and sit at their own bracketed substrings
    assert!(first.inner().span.hi <= second.inner().span.lo);
    assert_eq!(&t[3..7], b"<id>");
    assert_eq!(&t[8..16], b"<rest..>");

    assert!(it.next(&mut d).is_none());
    assert_eq!(d.len(), 0);
}

#[test]
fn unterminated_bracket_reports_full_span() {
    let t = b"/a/<id";
    let mut it = scanner(t);
    let mut d = Diagnostics::new();
    assert!(it.next(&mut d).is_none());
    assert_eq!(d.len(), 1);
    let r = d.report(0);
    assert_eq!(r.span, Span { lo: 0, hi: 6 });
    assert_eq!(r.kind, ErrorKind::MalformedParameters);
}

#[test]
fn stray_close_reports_full_span() {
    // a `>` before the next `<` is an ordering violation
    let t = b"/a/id><x>";
    let mut it = scanner(t);
    let mut d = Diagnostics::new();
    assert!(it.next(&mut d).is_none());
    assert_eq!(d.len(), 1);
    let r = d.report(0);
    assert_eq!(r.span, Span { lo: 0, hi: 9 });
    assert_eq!(r.kind, ErrorKind::MalformedParameters);
}

#[test]
fn close_without_any_open_is_terminal() {
    // with no `<` anywhere the sequence is simply finished: a stray `>` is
    // only faulted when a `<` follows it
    let t = b"/a/id>";
    let mut it = scanner(t);
    let mut d = Diagnostics::new();
    assert!(it.next(&mut d).is_none());
    assert_eq!(d.len(), 0);
}

#[test]
fn close_before_open_reports_even_with_later_pair() {
    let t = b"a>b<c>";
    let mut it = scanner(t);
    let mut d = Diagnostics::new();
    assert!(it.next(&mut d).is_none());
    assert_eq!(d.len(), 1);
    assert_eq!(d.report(0).span, Span { lo: 0, hi: 6 });
}

#[test]
fn no_params_is_not_an_error() {
    let t = b"no params here";
    let mut it = scanner(t);
    let mut d = Diagnostics::new();
    assert!(it.next(&mut d).is_none());
    assert_eq!(d.len(), 0);
    assert!(!d.has_errors());
}

#[test]
fn exhaustion_is_idempotent_after_clean_end() {
    let t = b"/a/<id>";
    let mut it = scanner(t);
    let mut d = Diagnostics::new();
    assert!(it.next(&mut d).is_some());
    assert!(it.next(&mut d).is_none());
    // further requests keep signalling exhaustion without re-scanning
    assert!(it.next(&mut d).is_none());
    assert!(it.next(&mut d).is_none());
    assert_eq!(d.len(), 0);
}

#[test]
fn exhaustion_is_idempotent_after_error_and_reports_once() {
    let t = b"/a/<id";
    let mut it = scanner(t);
    let mut d = Diagnostics::new();
    assert!(it.next(&mut d).is_none());
    assert!(it.next(&mut d).is_none());
    assert!(it.next(&mut d).is_none());
    // the one malformed template yields exactly one report
    assert_eq!(d.len(), 1);
}

#[test]
fn error_after_valid_prefix_still_covers_full_span() {
    let t = b"/a/<id>/<x";
    let mut it = scanner(t);
    let mut d = Diagnostics::new();
    let p = it.next(&mut d).expect("valid prefix descriptor");
    assert_eq!(p.ident(), &b"id".to_vec());
    assert!(it.next(&mut d).is_none());
    assert_eq!(d.len(), 1);
    // reported against the whole original span, not just the remainder
    assert_eq!(d.report(0).span, Span { lo: 0, hi: 10 });
}

#[test]
fn spans_follow_a_shifted_coordinate_origin() {
    let t = b"<a>/<b..>";
    let mut it = ParamIter::new(t.to_vec(), span_of(t, 100));
    let mut d = Diagnostics::new();
    let first = it.next(&mut d).expect("first descriptor");
    assert_eq!(first.inner().span, Span { lo: 100, hi: 103 });
    let second = it.next(&mut d).expect("second descriptor");
    assert_eq!(second.inner().span, Span { lo: 104, hi: 109 });
    assert!(it.next(&mut d).is_none());
    assert_eq!(d.len(), 0);
}

#[test]
fn empty_ident_and_bare_marker() {
    let t = b"<>x<..>";
    let mut it = scanner(t);
    let mut d = Diagnostics::new();
    let first = it.next(&mut d).expect("empty Single");
    assert!(!first.is_many());
    assert_eq!(first.ident(), &Vec::<u8>::new());
    assert_eq!(first.inner().span, Span { lo: 0, hi: 2 });
    let second = it.next(&mut d).expect("empty Many");
    assert!(second.is_many());
    assert_eq!(second.ident(), &Vec::<u8>::new());
    assert_eq!(second.inner().span, Span { lo: 3, hi: 7 });
    assert!(it.next(&mut d).is_none());
    assert_eq!(d.len(), 0);
}

#[test]
fn single_dot_is_not_a_marker() {
    let t = b"<a.>";
    let mut it = scanner(t);
    let mut d = Diagnostics::new();
    let p = it.next(&mut d).expect("one descriptor");
    assert!(!p.is_many());
    assert_eq!(p.ident(), &b"a.".to_vec());
}

#[test]
fn second_open_before_close_is_absorbed() {
    // a second `<` inside a token is absorbed into the raw text
    let t = b"<a<b>";
    let mut it = scanner(t);
    let mut d = Diagnostics::new();
    let p = it.next(&mut d).expect("one descriptor");
    assert!(!p.is_many());
    assert_eq!(p.ident(), &b"a<b".to_vec());
    assert_eq!(p.inner().span, Span { lo: 0, hi: 5 });
    assert!(it.next(&mut d).is_none());
    assert_eq!(d.len(), 0);
}

#[test]
fn three_tokens_reproduce_the_template() {
    let t: &[u8] = b"/x/<a>/y/<b..>/<c>";
    let mut it = scanner(t);
    let mut d = Diagnostics::new();
    let mut got: Vec<Param> = Vec::new();
    while let Some(p) = it.next(&mut d) {
        got.push(p);
    }
    assert_eq!(got.len(), 3);
    assert_eq!(d.len(), 0);
    // left-to-right order, each span at its own token
    let spans: Vec<Span> = got.iter().map(|p| p.inner().span).collect();
    assert_eq!(spans[0], Span { lo: 3, hi: 6 });
    assert_eq!(spans[1], Span { lo: 9, hi: 14 });
    assert_eq!(spans[2], Span { lo: 15, hi: 18 });
    assert!(spans[0].hi <= spans[1].lo && spans[1].hi <= spans[2].lo);
    // concatenating the text around the tokens with the tokens themselves
    // reproduces the original template
    let mut rebuilt: Vec<u8> = Vec::new();
    rebuilt.extend_from_slice(&t[..spans[0].lo]);
    rebuilt.extend_from_slice(&t[spans[0].lo..spans[0].hi]);
    rebuilt.extend_from_slice(&t[spans[0].hi..spans[1].lo]);
    rebuilt.extend_from_slice(&t[spans[1].lo..spans[1].hi]);
    rebuilt.extend_from_slice(&t[spans[1].hi..spans[2].lo]);
    rebuilt.extend_from_slice(&t[spans[2].lo..spans[2].hi]);
    rebuilt.extend_from_slice(&t[spans[2].hi..]);
    assert_eq!(rebuilt, t.to_vec());
    // identifiers in order
    assert_eq!(got[0].ident(), &b"a".to_vec());
    assert_eq!(got[1].ident(), &b"b".to_vec());
    assert_eq!(got[2].ident(), &b"c".to_vec());
    assert!(!got[0].is_many());
    assert!(got[1].is_many());
    assert!(!got[2].is_many());
}

#[test]
fn collect_all_matches_step_by_step() {
    let t = b"/a/<id>/<rest..>";
    let mut it = scanner(t);
    let mut d = Diagnostics::new();
    let all = it.collect_all(&mut d);
    assert_eq!(all.len(), 2);
    assert_eq!(all[0].ident(), &b"id".to_vec());
    assert_eq!(all[1].ident(), &b"rest".to_vec());
    assert_eq!(d.len(), 0);
    // exhausted afterwards
    assert!(it.next(&mut d).is_none());
}

#[test]
fn collect_all_on_malformed_keeps_prefix_and_reports() {
    let t = b"<a>oops<b";
    let mut it = scanner(t);
    let mut d = Diagnostics::new();
    let all = it.collect_all(&mut d);
    assert_eq!(all.len(), 1);
    assert_eq!(all[0].ident(), &b"a".to_vec());
    assert_eq!(d.len(), 1);
    assert_eq!(d.report(0).span, Span { lo: 0, hi: 9 });
    assert_eq!(d.report(0).kind, ErrorKind::MalformedParameters);
}

#[test]
fn error_message_constant() {
    assert_eq!(ErrorKind::MalformedParameters.message(), "malformed parameters");
}

#[test]
fn sink_keeps_earlier_reports() {
    let mut d = Diagnostics::new();
    d.span_err(Span { lo: 1, hi: 2 }, ErrorKind::MalformedParameters);
    let t = b"<x";
    let mut it = scanner(t);
    assert!(it.next(&mut d).is_none());
    assert_eq!(d.len(), 2);
    assert_eq!(d.report(0).span, Span { lo: 1, hi: 2 });
    assert_eq!(d.report(1).span, Span { lo: 0, hi: 2 });
    assert!(d.has_errors());
}
