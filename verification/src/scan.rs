//! Mathematical model of the scan: where the next bracketed token lies in
//! the remaining template text, what descriptor it yields, and what a full
//! left-to-right scan produces.

use vstd::prelude::*;

verus! {

/// Byte value of the opening delimiter `<`.
pub const OPEN_DELIM: u8 = 60;

/// Byte value of the closing delimiter `>`.
pub const CLOSE_DELIM: u8 = 62;

/// Byte value of `.`, two of which form the trailing `..` marker.
pub const DOT_BYTE: u8 = 46;

/// Index of the first occurrence of `c` in `s`, or `s.len()` when `c` does
/// not occur.
pub open spec fn find_first(s: Seq<u8>, c: u8) -> int
    decreases s.len(),
{
    if s.len() == 0 {
        0
    } else if s[0] == c {
        0
    } else {
        1 + find_first(s.drop_first(), c)
    }
}

/// `find_first` lands in bounds, hits `c` when anything is left, and nothing
/// before it is `c`.
pub proof fn lemma_find_first(s: Seq<u8>, c: u8)
    ensures
        0 <= find_first(s, c) <= s.len(),
        find_first(s, c) < s.len() ==> s[find_first(s, c)] == c,
        forall|j: int| 0 <= j < find_first(s, c) ==> s[j] != c,
    decreases s.len(),
{
    if s.len() == 0 {
    } else if s[0] == c {
    } else {
        lemma_find_first(s.drop_first(), c);
        assert forall|j: int| 0 <= j < find_first(s, c) implies s[j] != c by {
            if j > 0 {
                assert(s.drop_first()[j - 1] == s[j]);
            }
        }
    }
}

/// No `<` is left: the sequence is finished, which is terminal and not an
/// error.
pub open spec fn scan_finished(rem: Seq<u8>) -> bool {
    find_first(rem, OPEN_DELIM) == rem.len()
}

/// A `<` is left but either no `>` follows anywhere in the remaining text,
/// or the first `>` sits at or before the first `<`.
pub open spec fn scan_malformed(rem: Seq<u8>) -> bool {
    &&& !scan_finished(rem)
    &&& (find_first(rem, CLOSE_DELIM) == rem.len() || find_first(rem, CLOSE_DELIM) <= find_first(rem, OPEN_DELIM))
}

/// A well-placed bracket pair is left: the next step yields a descriptor.
pub open spec fn scan_has_param(rem: Seq<u8>) -> bool {
    !scan_finished(rem) && !scan_malformed(rem)
}

/// The raw parameter text: everything strictly between the first `<` and the
/// first `>`, both delimiters excluded.
pub open spec fn raw_text(rem: Seq<u8>) -> Seq<u8>
    recommends
        scan_has_param(rem),
{
    rem.subrange(find_first(rem, OPEN_DELIM) + 1, find_first(rem, CLOSE_DELIM))
}

/// A raw text ending in the two-character marker `..` declares a parameter
/// that matches the remainder of the path.
pub open spec fn is_many_text(raw: Seq<u8>) -> bool {
    raw.len() >= 2 && raw[raw.len() - 2] == DOT_BYTE && raw[raw.len() - 1] == DOT_BYTE
}

/// The identifier text: the raw text with a trailing `..` marker stripped,
/// or the raw text itself when there is no marker.
pub open spec fn ident_text(raw: Seq<u8>) -> Seq<u8> {
    if is_many_text(raw) {
        raw.subrange(0, raw.len() - 2)
    } else {
        raw
    }
}

/// How many bytes one successful step consumes: everything through the first
/// `>`.
pub open spec fn consumed(rem: Seq<u8>) -> int
    recommends
        scan_has_param(rem),
{
    find_first(rem, CLOSE_DELIM) + 1
}

/// Ghost description of one produced descriptor: its kind, its identifier
/// text, and the absolute byte offsets of the whole bracketed token,
/// delimiters included.
#[verifier::ext_equal]
pub struct ParamModel {
    pub many: bool,
    pub ident: Seq<u8>,
    pub lo: int,
    pub hi: int,
}

/// The descriptor one successful step yields, when the remaining text starts
/// at absolute source offset `base`.
pub open spec fn param_model(rem: Seq<u8>, base: int) -> ParamModel
    recommends
        scan_has_param(rem),
{
    ParamModel {
        many: is_many_text(raw_text(rem)),
        ident: ident_text(raw_text(rem)),
        lo: base + find_first(rem, OPEN_DELIM),
        hi: base + find_first(rem, CLOSE_DELIM) + 1,
    }
}

/// Every descriptor a full left-to-right scan of `rem` yields, in order,
/// when `rem` starts at absolute source offset `base`. The scan stops at the
/// first malformed bracket, so a malformed template contributes only the
/// descriptors found before the fault.
pub open spec fn scan_model(rem: Seq<u8>, base: int) -> Seq<ParamModel>
    decreases rem.len(),
{
    if scan_has_param(rem) {
        proof {
            lemma_find_first(rem, OPEN_DELIM);
            lemma_find_first(rem, CLOSE_DELIM);
        }
        seq![param_model(rem, base)] + scan_model(
            rem.subrange(consumed(rem), rem.len() as int),
            base + consumed(rem),
        )
    } else {
        Seq::empty()
    }
}

/// How many error reports a full scan of `rem` makes: one when the scan runs
/// into a malformed bracket, none otherwise.
pub open spec fn scan_reports(rem: Seq<u8>) -> int
    decreases rem.len(),
{
    if scan_has_param(rem) {
        proof {
            lemma_find_first(rem, OPEN_DELIM);
            lemma_find_first(rem, CLOSE_DELIM);
        }
        scan_reports(rem.subrange(consumed(rem), rem.len() as int))
    } else if scan_malformed(rem) {
        1
    } else {
        0
    }
}

/// Text containing neither delimiter: what may stand between two tokens.
pub open spec fn no_delims(s: Seq<u8>) -> bool {
    forall|i: int| 0 <= i < s.len() ==> s[i] != OPEN_DELIM && s[i] != CLOSE_DELIM
}

/// Text containing no closing delimiter: what may stand inside a token.
/// A further `<` inside is absorbed into the raw text, deliberately.
pub open spec fn no_close(s: Seq<u8>) -> bool {
    forall|i: int| 0 <= i < s.len() ==> s[i] != CLOSE_DELIM
}

/// Text containing no opening delimiter.
pub open spec fn no_open(s: Seq<u8>) -> bool {
    forall|i: int| 0 <= i < s.len() ==> s[i] != OPEN_DELIM
}

/// A template with no `<` at all scans to nothing: no descriptors and no
/// error report, whatever else it contains.
pub proof fn lemma_scan_no_params(s: Seq<u8>, base: int)
    requires
        no_open(s),
    ensures
        scan_finished(s),
        scan_model(s, base) == Seq::<ParamModel>::empty(),
        scan_reports(s) == 0,
{
    lemma_find_first(s, OPEN_DELIM);
    if find_first(s, OPEN_DELIM) < s.len() {
        assert(s[find_first(s, OPEN_DELIM)] == OPEN_DELIM);
    }
}

/// One well-formed token at the front: a template that starts with
/// delimiter-free text, then `<`, a `>`-free body, and `>`, scans to that
/// token's descriptor followed by whatever the rest of the template scans
/// to, and reports exactly what the rest reports.
pub proof fn lemma_scan_token(gap: Seq<u8>, body: Seq<u8>, rest: Seq<u8>, base: int)
    requires
        no_delims(gap),
        no_close(body),
    ensures
        ({
            let s = gap + seq![OPEN_DELIM] + body + seq![CLOSE_DELIM] + rest;
            let offset = gap.len() + body.len() + 2;
            &&& scan_has_param(s)
            &&& param_model(s, base) == (ParamModel {
                many: is_many_text(body),
                ident: ident_text(body),
                lo: base + gap.len(),
                hi: base + offset,
            })
            &&& scan_model(s, base) == seq![param_model(s, base)] + scan_model(
                rest,
                base + offset,
            )
            &&& scan_reports(s) == scan_reports(rest)
        }),
{
    let s = gap + seq![OPEN_DELIM] + body + seq![CLOSE_DELIM] + rest;
    let gl = gap.len() as int;
    let bl = body.len() as int;
    lemma_find_first(s, OPEN_DELIM);
    lemma_find_first(s, CLOSE_DELIM);
    assert(s.len() == gl + bl + 2 + rest.len());
    assert(forall|j: int| 0 <= j < gl ==> s[j] == gap[j]);
    assert(s[gl] == OPEN_DELIM);
    assert(forall|j: int| 0 <= j < bl ==> s[gl + 1 + j] == body[j]);
    assert(s[gl + 1 + bl] == CLOSE_DELIM);
    assert(forall|j: int| 0 <= j < rest.len() ==> s[gl + bl + 2 + j] == rest[j]);
    let flt = find_first(s, OPEN_DELIM);
    if flt < gl {
        assert(s[flt] == gap[flt]);
        assert(false);
    }
    if flt > gl {
        assert(s[gl] != OPEN_DELIM);
        assert(false);
    }
    let fgt = find_first(s, CLOSE_DELIM);
    if fgt < gl {
        assert(s[fgt] == gap[fgt]);
        assert(false);
    }
    if gl < fgt < gl + 1 + bl {
        assert(s[fgt] == body[fgt - gl - 1]);
        assert(false);
    }
    if fgt > gl + 1 + bl {
        assert(s[gl + 1 + bl] != CLOSE_DELIM);
        assert(false);
    }
    assert(fgt == gl + 1 + bl);
    assert(scan_has_param(s));
    assert(raw_text(s) =~= body);
    assert(consumed(s) == gl + bl + 2);
    assert(s.subrange(gl + bl + 2, s.len() as int) =~= rest);
    assert(param_model(s, base) =~= (ParamModel {
        many: is_many_text(body),
        ident: ident_text(body),
        lo: base + gl,
        hi: base + gl + bl + 2,
    }));
}

/// A template assembled from `n + 1` delimiter-free gaps and `n` bracketed
/// parameter texts, interleaved as
/// `gaps[0] ++ <bodies[0]> ++ gaps[1] ++ ... ++ <bodies[n-1]> ++ gaps[n]`.
/// Concatenating the gaps and bracketed tokens in order is, by this very
/// definition, the template itself.
pub open spec fn assemble(gaps: Seq<Seq<u8>>, bodies: Seq<Seq<u8>>) -> Seq<u8>
    recommends
        gaps.len() == bodies.len() + 1,
    decreases bodies.len(),
{
    if bodies.len() == 0 {
        gaps[0]
    } else {
        gaps[0] + seq![OPEN_DELIM] + bodies[0] + seq![CLOSE_DELIM] + assemble(
            gaps.drop_first(),
            bodies.drop_first(),
        )
    }
}

/// The descriptors an assembled template ought to scan to: one per body, in
/// order, each with the kind and identifier its body declares and the span
/// of its own bracketed token.
pub open spec fn expected_models(gaps: Seq<Seq<u8>>, bodies: Seq<Seq<u8>>, base: int) -> Seq<
    ParamModel,
>
    recommends
        gaps.len() == bodies.len() + 1,
    decreases bodies.len(),
{
    if bodies.len() == 0 {
        Seq::empty()
    } else {
        seq![
            ParamModel {
                many: is_many_text(bodies[0]),
                ident: ident_text(bodies[0]),
                lo: base + gaps[0].len(),
                hi: base + gaps[0].len() + bodies[0].len() + 2,
            },
        ] + expected_models(
            gaps.drop_first(),
            bodies.drop_first(),
            base + gaps[0].len() + bodies[0].len() + 2,
        )
    }
}

/// A template containing `n` non-overlapping well-formed bracketed tokens,
/// separated by delimiter-free text, scans to exactly `n` descriptors in
/// left-to-right order — each with its body's kind and identifier and the
/// span of its own token — and reports no error.
pub proof fn lemma_scan_assembled(gaps: Seq<Seq<u8>>, bodies: Seq<Seq<u8>>, base: int)
    requires
        gaps.len() == bodies.len() + 1,
        forall|i: int| 0 <= i < gaps.len() ==> no_delims(#[trigger] gaps[i]),
        forall|i: int| 0 <= i < bodies.len() ==> no_close(#[trigger] bodies[i]),
    ensures
        scan_model(assemble(gaps, bodies), base) == expected_models(gaps, bodies, base),
        scan_reports(assemble(gaps, bodies)) == 0,
    decreases bodies.len(),
{
    if bodies.len() == 0 {
        assert(no_delims(gaps[0]));
        lemma_scan_no_params(gaps[0], base);
    } else {
        let rest = assemble(gaps.drop_first(), bodies.drop_first());
        let offset = gaps[0].len() + bodies[0].len() + 2;
        assert(no_delims(gaps[0]));
        assert(no_close(bodies[0]));
        lemma_scan_token(gaps[0], bodies[0], rest, base);
        assert forall|i: int|
            0 <= i < gaps.drop_first().len() implies no_delims(
            #[trigger] gaps.drop_first()[i],
        ) by {
            assert(gaps.drop_first()[i] == gaps[i + 1]);
        }
        assert forall|i: int|
            0 <= i < bodies.drop_first().len() implies no_close(
            #[trigger] bodies.drop_first()[i],
        ) by {
            assert(bodies.drop_first()[i] == bodies[i + 1]);
        }
        lemma_scan_assembled(gaps.drop_first(), bodies.drop_first(), base + offset);
        assert(scan_model(assemble(gaps, bodies), base) =~= expected_models(
            gaps,
            bodies,
            base,
        ));
    }
}

/// The spans of the modelled descriptors sit inside the scanned text, cover
/// at least the two delimiters each, and follow one another left to right
/// without overlapping.
pub proof fn lemma_scan_spans_ordered(rem: Seq<u8>, base: int)
    ensures
        forall|i: int|
            0 <= i < scan_model(rem, base).len() ==> {
                &&& base <= #[trigger] scan_model(rem, base)[i].lo
                &&& scan_model(rem, base)[i].lo + 2 <= scan_model(rem, base)[i].hi
                &&& scan_model(rem, base)[i].hi <= base + rem.len()
            },
        forall|i: int|
            0 <= i < scan_model(rem, base).len() - 1 ==> #[trigger] scan_model(rem, base)[i].hi
                <= scan_model(rem, base)[i + 1].lo,
    decreases rem.len(),
{
    if scan_has_param(rem) {
        lemma_find_first(rem, OPEN_DELIM);
        lemma_find_first(rem, CLOSE_DELIM);
        let tail = rem.subrange(consumed(rem), rem.len() as int);
        let tail_base = base + consumed(rem);
        lemma_scan_spans_ordered(tail, tail_base);
        let models = scan_model(rem, base);
        assert forall|i: int| 0 <= i < models.len() implies {
            &&& base <= #[trigger] models[i].lo
            &&& models[i].lo + 2 <= models[i].hi
            &&& models[i].hi <= base + rem.len()
        } by {
            if i > 0 {
                assert(models[i] == scan_model(tail, tail_base)[i - 1]);
            }
        }
        assert forall|i: int| 0 <= i < models.len() - 1 implies #[trigger] models[i].hi
            <= models[i + 1].lo by {
            if i == 0 {
                assert(models[1] == scan_model(tail, tail_base)[0]);
            } else {
                assert(models[i] == scan_model(tail, tail_base)[i - 1]);
                assert(models[i + 1] == scan_model(tail, tail_base)[i]);
            }
        }
    }
}

/// A scan reports at most one error: it terminates at the first fault.
pub proof fn lemma_scan_reports_bounds(rem: Seq<u8>)
    ensures
        0 <= scan_reports(rem) <= 1,
    decreases rem.len(),
{
    if scan_has_param(rem) {
        lemma_find_first(rem, OPEN_DELIM);
        lemma_find_first(rem, CLOSE_DELIM);
        lemma_scan_reports_bounds(rem.subrange(consumed(rem), rem.len() as int));
    }
}

} // verus!
