//! The parameter scanner: a cursor over the template that yields one
//! descriptor per well-placed bracket pair, reports a malformed template to
//! the diagnostic sink once, and then stays exhausted.

use vstd::prelude::*;

use crate::diag::{Diagnostics, ErrorKind, Report, Span};
use crate::param::{Param, SpannedIdent};
use crate::scan::{
    consumed, find_first, lemma_find_first, lemma_scan_reports_bounds, param_model, raw_text,
    scan_finished, scan_has_param, scan_malformed, scan_model, scan_reports, CLOSE_DELIM,
    DOT_BYTE, OPEN_DELIM,
};

verus! {

/// Index of the first occurrence of `c` in `v` at or after `from`, or
/// `v.len()` when `c` does not occur there.
fn find_byte(v: &Vec<u8>, from: usize, c: u8) -> (r: usize)
    requires
        from <= v@.len(),
    ensures
        from <= r <= v@.len(),
        r - from == find_first(v@.subrange(from as int, v@.len() as int), c),
{
    let ghost rem = v@.subrange(from as int, v@.len() as int);
    proof {
        lemma_find_first(rem, c);
    }
    let mut i: usize = from;
    while i < v.len()
        invariant
            from <= i <= v@.len(),
            rem == v@.subrange(from as int, v@.len() as int),
            forall|j: int| from <= j < i ==> v@[j] != c,
        decreases v@.len() - i,
    {
        if v[i] == c {
            proof {
                lemma_find_first(rem, c);
                assert(rem[i - from] == c);
                assert forall|j: int| 0 <= j < i - from implies rem[j] != c by {
                    assert(rem[j] == v@[from + j]);
                }
                if find_first(rem, c) < i - from {
                    assert(rem[find_first(rem, c)] == c);
                }
            }
            return i;
        }
        i += 1;
    }
    proof {
        lemma_find_first(rem, c);
        if find_first(rem, c) < rem.len() {
            assert(v@[from + find_first(rem, c)] == c);
        }
    }
    v.len()
}

/// A fresh vector holding the bytes of `v` from `from` up to but excluding
/// `to`.
fn copy_range(v: &Vec<u8>, from: usize, to: usize) -> (out: Vec<u8>)
    requires
        from <= to <= v@.len(),
    ensures
        out@ == v@.subrange(from as int, to as int),
{
    let mut out: Vec<u8> = Vec::new();
    let mut i: usize = from;
    while i < to
        invariant
            from <= i <= to <= v@.len(),
            out@ == v@.subrange(from as int, i as int),
        decreases to - i,
    {
        out.push(v[i]);
        proof {
            assert(out@ =~= v@.subrange(from as int, i + 1 as int));
        }
        i += 1;
    }
    out
}

/// The parameter scanner. It owns the template bytes and the span covering
/// them in the original source, and keeps a cursor: the suffix at and after
/// `pos` is unconsumed, and its first byte sits at source offset
/// `span.lo + pos`. Spans of produced descriptors are always computed in the
/// coordinate space of the original template.
pub struct ParamIter {
    string: Vec<u8>,
    span: Span,
    pos: usize,
    done: bool,
}

impl ParamIter {
    /// The full template text the scanner was built over.
    pub closed spec fn template(self) -> Seq<u8> {
        self.string@
    }

    /// The span covering the full template in the original source.
    pub closed spec fn orig_span(self) -> Span {
        self.span
    }

    /// How many bytes of the template have been consumed.
    pub closed spec fn spec_pos(self) -> int {
        self.pos as int
    }

    /// Whether the scanner has terminated, by exhaustion or by an error.
    pub closed spec fn is_done(self) -> bool {
        self.done
    }

    /// The cursor stays within the template and the span covers exactly the
    /// template's bytes.
    pub open spec fn wf(self) -> bool {
        &&& self.spec_pos() <= self.template().len()
        &&& self.orig_span().lo + self.template().len() == self.orig_span().hi
    }

    /// The unconsumed suffix of the template.
    pub open spec fn remaining(self) -> Seq<u8> {
        self.template().subrange(self.spec_pos(), self.template().len() as int)
    }

    /// Absolute source offset of the first unconsumed byte.
    pub open spec fn base(self) -> int {
        self.orig_span().lo + self.spec_pos()
    }

    /// A scanner over `string`, located at `span` in the original source.
    /// The span must cover exactly the template's bytes.
    pub fn new(string: Vec<u8>, span: Span) -> (it: ParamIter)
        requires
            span.lo + string@.len() == span.hi,
        ensures
            it.wf(),
            it.template() == string@,
            it.orig_span() == span,
            it.spec_pos() == 0,
            !it.is_done(),
    {
        ParamIter { string, span, pos: 0, done: false }
    }

    /// Produce the next parameter descriptor, or `None` when the sequence is
    /// over. A malformed template is reported to `diag` once, against the
    /// original full span, and terminates the sequence; afterwards the
    /// scanner keeps signalling exhaustion without re-scanning or reporting
    /// again.
    pub fn next(&mut self, diag: &mut Diagnostics) -> (r: Option<Param>)
        requires
            old(self).wf(),
        ensures
            final(self).wf(),
            final(self).template() == old(self).template(),
            final(self).orig_span() == old(self).orig_span(),
            // once terminated, always terminated, with no further effects
            old(self).is_done() ==> {
                &&& r is None
                &&& *final(self) == *old(self)
                &&& final(diag)@ == old(diag)@
            },
            // no `<` remains: terminal, not an error
            !old(self).is_done() && scan_finished(old(self).remaining()) ==> {
                &&& r is None
                &&& final(self).is_done()
                &&& final(self).spec_pos() == old(self).spec_pos()
                &&& final(diag)@ == old(diag)@
            },
            // malformed brackets: one report against the original full span
            !old(self).is_done() && scan_malformed(old(self).remaining()) ==> {
                &&& r is None
                &&& final(self).is_done()
                &&& final(self).spec_pos() == old(self).spec_pos()
                &&& final(diag)@ == old(diag)@.push(
                    (Report {
                        span: old(self).orig_span(),
                        kind: ErrorKind::MalformedParameters,
                    }),
                )
            },
            // a well-placed bracket pair: one descriptor, cursor advanced
            !old(self).is_done() && scan_has_param(old(self).remaining()) ==> {
                &&& r matches Some(p)
                &&& p.fits(param_model(old(self).remaining(), old(self).base()))
                &&& p.spec_inner().wf_within(old(self).orig_span())
                &&& !final(self).is_done()
                &&& final(self).spec_pos() == old(self).spec_pos() + consumed(
                    old(self).remaining(),
                )
                &&& final(diag)@ == old(diag)@
            },
    {
        if self.done {
            return None;
        }
        let ghost rem = self.remaining();
        let ghost base0 = self.base();
        proof {
            lemma_find_first(rem, OPEN_DELIM);
            lemma_find_first(rem, CLOSE_DELIM);
        }
        let n = self.string.len();
        let start = find_byte(&self.string, self.pos, OPEN_DELIM);
        if start == n {
            self.done = true;
            return None;
        }
        let close = find_byte(&self.string, self.pos, CLOSE_DELIM);
        if close == n || close <= start {
            self.done = true;
            diag.span_err(self.span, ErrorKind::MalformedParameters);
            return None;
        }
        proof {
            assert(scan_has_param(rem));
            assert(raw_text(rem) =~= self.string@.subrange(start + 1, close as int));
        }
        let raw = copy_range(&self.string, start + 1, close);
        let many = raw.len() >= 2 && raw[raw.len() - 2] == DOT_BYTE && raw[raw.len() - 1]
            == DOT_BYTE;
        let node = if many {
            let stripped = copy_range(&raw, 0, raw.len() - 2);
            stripped
        } else {
            raw
        };
        let p_span = Span { lo: self.span.lo + start, hi: self.span.lo + close + 1 };
        self.pos = close + 1;
        let si = SpannedIdent { node, span: p_span };
        if many {
            Some(Param::Many(si))
        } else {
            Some(Param::Single(si))
        }
    }

    /// Drive the scanner to exhaustion, collecting every descriptor it
    /// yields. The collected sequence is exactly the modelled scan of the
    /// unconsumed text, in left-to-right order; the sink receives one report,
    /// against the original full span, exactly when the scan runs into a
    /// malformed bracket, and keeps every earlier report untouched.
    pub fn collect_all(&mut self, diag: &mut Diagnostics) -> (out: Vec<Param>)
        requires
            old(self).wf(),
            !old(self).is_done(),
        ensures
            final(self).wf(),
            final(self).is_done(),
            out@.len() == scan_model(old(self).remaining(), old(self).base()).len(),
            forall|i: int|
                0 <= i < out@.len() ==> out@[i].fits(
                    scan_model(old(self).remaining(), old(self).base())[i],
                ),
            final(diag)@.len() == old(diag)@.len() + scan_reports(old(self).remaining()),
            forall|i: int| 0 <= i < old(diag)@.len() ==> final(diag)@[i] == old(diag)@[i],
            scan_reports(old(self).remaining()) == 1 ==> final(diag)@.last() == (Report {
                span: old(self).orig_span(),
                kind: ErrorKind::MalformedParameters,
            }),
    {
        let ghost rem0 = self.remaining();
        let ghost base0 = self.base();
        let ghost models = scan_model(rem0, base0);
        let ghost diag0 = diag@;
        let ghost tmpl = self.template();
        let ghost sp0 = self.orig_span();
        let mut out: Vec<Param> = Vec::new();
        proof {
            lemma_scan_reports_bounds(rem0);
            assert(models.subrange(0, models.len() as int) =~= models);
        }
        loop
            invariant
                self.wf(),
                self.template() == tmpl,
                self.orig_span() == sp0,
                models == scan_model(rem0, base0),
                0 <= scan_reports(rem0) <= 1,
                out@.len() <= models.len(),
                forall|i: int| 0 <= i < out@.len() ==> out@[i].fits(models[i]),
                !self.is_done() ==> {
                    &&& scan_model(self.remaining(), self.base()) == models.subrange(
                        out@.len() as int,
                        models.len() as int,
                    )
                    &&& scan_reports(self.remaining()) == scan_reports(rem0)
                    &&& diag@ == diag0
                },
                self.is_done() ==> {
                    &&& out@.len() == models.len()
                    &&& diag@.len() == diag0.len() + scan_reports(rem0)
                    &&& (forall|i: int| 0 <= i < diag0.len() ==> diag@[i] == diag0[i])
                    &&& (scan_reports(rem0) == 1 ==> diag@.last() == (Report {
                        span: sp0,
                        kind: ErrorKind::MalformedParameters,
                    }))
                },
            ensures
                self.wf(),
                self.template() == tmpl,
                self.orig_span() == sp0,
                self.is_done(),
                out@.len() == models.len(),
                forall|i: int| 0 <= i < out@.len() ==> out@[i].fits(models[i]),
                diag@.len() == diag0.len() + scan_reports(rem0),
                forall|i: int| 0 <= i < diag0.len() ==> diag@[i] == diag0[i],
                scan_reports(rem0) == 1 ==> diag@.last() == (Report {
                    span: sp0,
                    kind: ErrorKind::MalformedParameters,
                }),
            decreases
                    self.template().len() - self.spec_pos() + (if self.is_done() {
                        0int
                    } else {
                        1int
                    }),
        {
            if self.done {
                break;
            }
            let ghost rem_cur = self.remaining();
            let ghost base_cur = self.base();
            let ghost k = out@.len() as int;
            let p = self.next(diag);
            match p {
                Some(param) => {
                    proof {
                        lemma_find_first(rem_cur, OPEN_DELIM);
                        lemma_find_first(rem_cur, CLOSE_DELIM);
                        assert(scan_has_param(rem_cur));
                        let tail_rem = rem_cur.subrange(consumed(rem_cur), rem_cur.len() as int);
                        assert(scan_model(rem_cur, base_cur) == seq![
                            param_model(rem_cur, base_cur),
                        ] + scan_model(tail_rem, base_cur + consumed(rem_cur)));
                        assert(param.fits(models[k])) by {
                            assert(models.subrange(k, models.len() as int)[0] == models[k]);
                        }
                        assert(self.remaining() =~= tail_rem);
                        assert(self.base() == base_cur + consumed(rem_cur));
                        assert(scan_model(self.remaining(), self.base()) =~= models.subrange(
                            k + 1,
                            models.len() as int,
                        )) by {
                            assert forall|i: int|
                                0 <= i < models.len() - k - 1 implies scan_model(
                                self.remaining(),
                                self.base(),
                            )[i] == models[k + 1 + i] by {
                                assert(scan_model(tail_rem, base_cur + consumed(rem_cur))[i]
                                    == models.subrange(k, models.len() as int)[i + 1]);
                            }
                        }
                    }
                    out.push(param);
                },
                None => {
                },
            }
        }
        out
    }
}

} // verus!
