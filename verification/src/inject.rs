//! The text stream injector: the first secret reference of a line is
//! replaced, in place, by the value it resolves to.

use vstd::prelude::*;
use vstd::string::*;
use vstd::utf8::*;
use crate::failure::{Failure, FailureView};
use crate::reference::{
    is_reference, parse_reference, scheme, spec_parse, ReferenceView, SecretReference,
};
use crate::store::{
    outcome_view, select_field, spec_select, text_view, Fields, ReadOutcome, StoreFault,
};
use crate::text::{occurs_at, occurs_in};

verus! {

/// The pattern of a reference inside a line: the scheme prefix and then one
/// or more word characters or slashes.
pub const REFERENCE_PATTERN: &'static str = "vault://[\\w/]+";

/// `regex::Error`, the reason why a pattern was not accepted. It is carried
/// through unopened.
#[verifier::external_type_specification]
#[verifier::external_body]
pub struct ExPatternError(regex::Error);

/// The span of the first match of the regular expression `pattern` in
/// `haystack`, as the byte offsets of its start and of its end in the UTF-8
/// form of `haystack`, and `None` where nothing matches.
pub uninterp spec fn regex_first_match(pattern: Seq<char>, haystack: Seq<char>) -> Option<
    (usize, usize),
>;

/// Whether `regex::Regex::new` accepts `pattern` as a regular expression,
/// under the limits that it applies when none are set.
pub uninterp spec fn regex_accepts(pattern: Seq<char>) -> bool;

/// `from` and `to` are byte offsets that delimit a stretch of whole
/// characters of `text`.
pub open spec fn is_span(text: Seq<char>, from: int, to: int) -> bool {
    &&& 0 <= from <= to <= encode_utf8(text).len()
    &&& is_char_boundary(encode_utf8(text), from)
    &&& is_char_boundary(encode_utf8(text), to)
}

/// The characters of `text` between two byte offsets.
pub open spec fn byte_slice(text: Seq<char>, from: int, to: int) -> Seq<char> {
    decode_utf8(encode_utf8(text).subrange(from, to))
}

/// Compiles `pattern` with `regex::Regex::new` and searches `haystack` with
/// `regex::Regex::find`.
///
/// Trusted: the call fails exactly when `Regex::new` does not accept the
/// pattern, which depends on the pattern alone. An accepted pattern yields
/// the first match that the regex crate defines for the two texts, and
/// `Match::start` and `Match::end` of that match are ordered byte offsets
/// into the haystack that fall on character boundaries. Which patterns are
/// accepted, and what matches, is named and not spelled out.
#[verifier::external_body]
fn first_match(pattern: &str, haystack: &str) -> (r: Result<Option<(usize, usize)>, regex::Error>)
    ensures
        r is Ok <==> regex_accepts(pattern@),
        r matches Ok(found) ==> found == regex_first_match(pattern@, haystack@),
        r matches Ok(Some(span)) ==> is_span(haystack@, span.0 as int, span.1 as int),
{
    let compiled = regex::Regex::new(pattern)?;
    Ok(compiled.find(haystack).map(|m| (m.start(), m.end())))
}

/// A line in which a reference was found, held until its secret is read.
#[derive(Debug, Clone, PartialEq, Eq)]
pub struct PendingLine {
    /// The line up to the reference.
    pub before: String,
    /// The secret that the reference addresses.
    pub reference: SecretReference,
    /// The line after the reference.
    pub after: String,
}

/// What is to be done with a line.
#[derive(Debug, Clone, PartialEq, Eq)]
pub enum LineStep {
    /// Write this text out; nothing has to be read.
    Emit(String),
    /// Read the secret, then finish the line with [`finish_line`].
    Resolve(PendingLine),
}

/// A [`LineStep`] with its texts as sequences of characters.
pub enum LineStepView {
    Emit(Seq<char>),
    Resolve { before: Seq<char>, reference: ReferenceView, after: Seq<char> },
}

impl View for LineStep {
    type V = LineStepView;

    open spec fn view(&self) -> LineStepView {
        match *self {
            LineStep::Emit(text) => LineStepView::Emit(text@),
            LineStep::Resolve(pending) => LineStepView::Resolve {
                before: pending.before@,
                reference: pending.reference@,
                after: pending.after@,
            },
        }
    }
}

/// The view of a step or of the failure in its place.
pub open spec fn step_view(r: Result<LineStep, Failure>) -> Result<LineStepView, FailureView> {
    match r {
        Ok(step) => Ok(step@),
        Err(e) => Err(e@),
    }
}

/// What is to be done with `line` when the search for a reference in it
/// ended in `found`.
///
/// A line without a match is written out as it is, and so is one whose
/// match does not begin with the scheme prefix. Otherwise the matched text
/// is parsed as a reference: one that does not parse is fatal, and one that
/// does splits the line around itself.
pub open spec fn spec_begin_line(line: Seq<char>, found: Option<(usize, usize)>) -> Result<
    LineStepView,
    FailureView,
> {
    match found {
        None => Ok(LineStepView::Emit(line)),
        Some((from, to)) => match spec_parse(byte_slice(line, from as int, to as int)) {
            Err(e) => Err(e),
            Ok(None) => Ok(LineStepView::Emit(line)),
            Ok(Some(reference)) => Ok(
                LineStepView::Resolve {
                    before: byte_slice(line, 0, from as int),
                    reference,
                    after: byte_slice(line, to as int, encode_utf8(line).len() as int),
                },
            ),
        },
    }
}

/// The line that is written out for a pending line once the read of its
/// secret ended in `outcome`: the plaintext of the field between the two
/// untouched parts of the line.
pub open spec fn spec_finish_line(
    before: Seq<char>,
    field: Seq<char>,
    after: Seq<char>,
    outcome: Result<Fields, StoreFault>,
) -> Result<Seq<char>, FailureView> {
    match spec_select(field, Some(outcome)) {
        Ok(plaintext) => Ok(before + plaintext + after),
        Err(e) => Err(e),
    }
}

proof fn lemma_boundary_in_suffix(bytes: Seq<u8>, from: int, to: int)
    requires
        valid_utf8(bytes),
        0 <= from <= to <= bytes.len(),
        is_char_boundary(bytes, from),
        is_char_boundary(bytes, to),
    ensures
        valid_utf8(bytes.subrange(from, bytes.len() as int)),
        is_char_boundary(bytes.subrange(from, bytes.len() as int), to - from),
{
    let suffix = bytes.subrange(from, bytes.len() as int);
    valid_utf8_split(bytes, from);
    if to == bytes.len() {
        is_char_boundary_start_end_of_seq(suffix);
    } else {
        is_char_boundary_iff_not_is_continuation_byte(bytes, to);
        is_char_boundary_iff_not_is_continuation_byte(suffix, to - from);
        assert(suffix[to - from] == bytes[to]);
    }
}

/// The three slices around a span make up the text.
pub proof fn lemma_slices_make_text(text: Seq<char>, from: int, to: int)
    requires
        is_span(text, from, to),
    ensures
        byte_slice(text, 0, from) + byte_slice(text, from, to) + byte_slice(
            text,
            to,
            encode_utf8(text).len() as int,
        ) == text,
{
    let bytes = encode_utf8(text);
    let end = bytes.len() as int;
    let suffix = bytes.subrange(from, end);
    encode_utf8_valid_utf8(text);
    encode_utf8_decode_utf8(text);
    lemma_boundary_in_suffix(bytes, from, to);
    decode_utf8_split(bytes, from);
    decode_utf8_split(suffix, to - from);
    assert(suffix.subrange(0, to - from) =~= bytes.subrange(from, to));
    assert(suffix.subrange(to - from, suffix.len() as int) =~= bytes.subrange(to, end));
}

/// Cuts `text` in three at the two ends of a span.
fn cut_around<'a>(text: &'a str, from: usize, to: usize) -> (parts: (&'a str, &'a str, &'a str))
    requires
        is_span(text@, from as int, to as int),
    ensures
        parts.0@ == byte_slice(text@, 0, from as int),
        parts.1@ == byte_slice(text@, from as int, to as int),
        parts.2@ == byte_slice(text@, to as int, encode_utf8(text@).len() as int),
{
    proof {
        encode_utf8_valid_utf8(text@);
        lemma_boundary_in_suffix(text.spec_bytes(), from as int, to as int);
    }
    let (before, tail) = text.split_at(from);
    let (middle, after) = tail.split_at(to - from);
    proof {
        let bytes = text.spec_bytes();
        let end = bytes.len() as int;
        assert(middle.spec_bytes() =~= bytes.subrange(from as int, to as int));
        assert(after.spec_bytes() =~= bytes.subrange(to as int, end));
        encode_utf8_decode_utf8(before@);
        encode_utf8_decode_utf8(middle@);
        encode_utf8_decode_utf8(after@);
    }
    (before, middle, after)
}

/// Decides what to do with `line` from the span `found` of the reference in
/// it, if there is one.
pub fn begin_line_at(line: &str, found: Option<(usize, usize)>) -> (r: Result<LineStep, Failure>)
    requires
        found matches Some(span) ==> is_span(line@, span.0 as int, span.1 as int),
    ensures
        step_view(r) == spec_begin_line(line@, found),
        !occurs_in(scheme(), line@) ==> step_view(r) == Ok::<LineStepView, FailureView>(
            LineStepView::Emit(line@),
        ),
{
    match found {
        None => Ok(LineStep::Emit(line.to_owned())),
        Some((from, to)) => {
            proof {
                if !occurs_in(scheme(), line@) {
                    law_line_without_scheme_is_unchanged(line@, found);
                }
            }
            let (before, token, after) = cut_around(line, from, to);
            match parse_reference(token) {
                Err(e) => Err(e),
                Ok(None) => Ok(LineStep::Emit(line.to_owned())),
                Ok(Some(reference)) => Ok(
                    LineStep::Resolve(
                        PendingLine { before: before.to_owned(), reference, after: after.to_owned() },
                    ),
                ),
            }
        },
    }
}

/// The span of the first match of `pattern` in `text`, if there is one.
/// The search fails exactly when the pattern is not accepted.
pub fn find_match(pattern: &str, text: &str) -> (r: Result<Option<(usize, usize)>, Failure>)
    ensures
        r is Ok <==> regex_accepts(pattern@),
        match r {
            Ok(found) => {
                &&& found == regex_first_match(pattern@, text@)
                &&& found matches Some(span) ==> is_span(text@, span.0 as int, span.1 as int)
            },
            Err(e) => e == Failure::PatternRejected,
        },
{
    match first_match(pattern, text) {
        Ok(found) => Ok(found),
        Err(_) => Err(Failure::PatternRejected),
    }
}

/// Searches `line` for a reference and decides what to do with the line.
///
/// The search fails with [`Failure::PatternRejected`] exactly when the
/// reference pattern is not accepted as a regular expression, whatever the
/// line. Otherwise the result is the one that the first match of the
/// pattern in the line calls for.
pub fn begin_line(line: &str) -> (r: Result<LineStep, Failure>)
    ensures
        r matches Err(Failure::PatternRejected) <==> !regex_accepts(REFERENCE_PATTERN@),
        regex_accepts(REFERENCE_PATTERN@) ==> step_view(r) == spec_begin_line(
            line@,
            regex_first_match(REFERENCE_PATTERN@, line@),
        ),
        regex_accepts(REFERENCE_PATTERN@) && !occurs_in(scheme(), line@) ==> step_view(r) == Ok::<
            LineStepView,
            FailureView,
        >(LineStepView::Emit(line@)),
{
    match find_match(REFERENCE_PATTERN, line) {
        Err(e) => Err(e),
        Ok(found) => begin_line_at(line, found),
    }
}

/// Finishes a pending line with what the read of its secret ended in.
pub fn finish_line(pending: &PendingLine, outcome: &ReadOutcome) -> (r: Result<String, Failure>)
    ensures
        text_view(r) == spec_finish_line(
            pending.before@,
            pending.reference.field@,
            pending.after@,
            outcome_view(Some(outcome))->Some_0,
        ),
{
    match select_field(pending.reference.field.as_str(), Some(outcome)) {
        Err(e) => Err(e),
        Ok(plaintext) => {
            let mut line = pending.before.clone();
            line.append(plaintext.as_str());
            line.append(pending.after.as_str());
            Ok(line)
        },
    }
}

/// A line in which the scheme prefix does not occur is written out as it
/// came in, whatever the search for a reference reported.
pub proof fn law_line_without_scheme_is_unchanged(line: Seq<char>, found: Option<(usize, usize)>)
    requires
        !occurs_in(scheme(), line),
        found matches Some(span) ==> is_span(line, span.0 as int, span.1 as int),
    ensures
        spec_begin_line(line, found) == Ok::<LineStepView, FailureView>(LineStepView::Emit(line)),
{
    if let Some((from, to)) = found {
        let before = byte_slice(line, 0, from as int);
        let token = byte_slice(line, from as int, to as int);
        lemma_slices_make_text(line, from as int, to as int);
        if is_reference(token) {
            let at = before.len() as int;
            assert(line.subrange(at, at + scheme().len()) =~= token.subrange(
                0,
                scheme().len() as int,
            ));
            assert(occurs_at(scheme(), line, at));
        }
    }
}

/// Where a reference was found, the line is the text before it, the
/// reference as written, and the text after it: writing the plaintext
/// between the two outer parts replaces the reference and nothing else.
pub proof fn law_pending_line_keeps_rest(line: Seq<char>, found: Option<(usize, usize)>)
    requires
        found matches Some(span) ==> is_span(line, span.0 as int, span.1 as int),
        spec_begin_line(line, found) matches Ok(LineStepView::Resolve { .. }),
    ensures
        found matches Some(span) && spec_begin_line(line, found) matches Ok(
            LineStepView::Resolve { before, reference, after },
        ) && line == before + byte_slice(line, span.0 as int, span.1 as int) + after,
{
    let span = found->Some_0;
    lemma_slices_make_text(line, span.0 as int, span.1 as int);
}

} // verus!
