//! Styling a listing for a terminal: the names that stand between `||`
//! marks become name segments, without their marks; in the text between
//! them, what the search regex finds becomes match segments; the rest is
//! plain. Segments are byte ranges of the text.

use vstd::prelude::*;
use vstd::string::*;
use vstd::utf8::{
    decode_utf8, encode_utf8, encode_utf8_decode_utf8, encode_utf8_valid_utf8, is_char_boundary,
    is_char_boundary_iff_not_is_continuation_byte, is_char_boundary_start_end_of_seq,
    valid_utf8_split,
};
use regex::Regex;
use crate::text::{byte_count, byte_length};

verus! {

/// The matches of a regex in a text, in order: for each the byte offsets of
/// its start and its end, as `Regex::find_iter` yields them.
pub uninterp spec fn regex_spans(re: Regex, text: Seq<char>) -> Seq<(usize, usize)>;

/// `Regex::find_iter`, each match turned into the pair of its byte
/// offsets. Nothing is claimed about the offsets; the library checks them
/// before it uses them.
#[verifier::external_body]
fn find_spans(re: &Regex, text: &str) -> (res: Vec<(usize, usize)>)
    ensures
        res@ == regex_spans(*re, text@),
{
    re.find_iter(text).map(|m| (m.start(), m.end())).collect()
}

/// The pattern that finds the marked names of a listing: from the first
/// `||` of a line to its last.
pub const NAME_MARKS: &'static str = "\\|\\|.*\\|\\|";

/// How a segment is shown.
#[derive(Clone, Copy, Debug, PartialEq, Eq, Structural)]
pub enum Style {
    Plain,
    Name,
    Match,
}

/// A range of bytes of the text, from `start` up to `end`, and its style.
#[derive(Clone, Copy, Debug, PartialEq, Eq, Structural)]
pub struct Segment {
    pub start: usize,
    pub end: usize,
    pub style: Style,
}

/// The byte offset lies in the text and between two characters.
pub open spec fn on_boundary(text: Seq<char>, at: int) -> bool {
    0 <= at <= byte_length(text) && is_char_boundary(encode_utf8(text), at)
}

/// The text of the bytes from `from` up to `to`, where both offsets lie
/// between characters.
pub open spec fn cut(text: Seq<char>, from: int, to: int) -> Option<Seq<char>> {
    if from <= to && on_boundary(text, from) && on_boundary(text, to) {
        Some(decode_utf8(encode_utf8(text).subrange(from, to)))
    } else {
        None
    }
}

/// The start and the end of a text lie between characters.
pub proof fn lemma_ends_on_boundary(text: Seq<char>)
    ensures
        on_boundary(text, 0),
        on_boundary(text, byte_length(text) as int),
{
    encode_utf8_valid_utf8(text);
    is_char_boundary_start_end_of_seq(encode_utf8(text));
}

proof fn lemma_boundary_in_head(text: Seq<char>, from: int, to: int)
    requires
        from <= to,
        on_boundary(text, from),
        on_boundary(text, to),
    ensures
        is_char_boundary(encode_utf8(text).subrange(0, to), from),
{
    let bytes = encode_utf8(text);
    let head = bytes.subrange(0, to);
    encode_utf8_valid_utf8(text);
    valid_utf8_split(bytes, to);
    if from == to {
        is_char_boundary_start_end_of_seq(head);
    } else if from > 0 {
        is_char_boundary_iff_not_is_continuation_byte(bytes, from);
        is_char_boundary_iff_not_is_continuation_byte(head, from);
    }
}

/// The part of a text between two byte offsets, if both lie between
/// characters.
pub fn slice<'a>(text: &'a str, from: usize, to: usize) -> (res: Option<&'a str>)
    ensures
        match cut(text@, from as int, to as int) {
            Some(part) => res matches Some(s) && s@ == part,
            None => res is None,
        },
{
    if from > to || to > byte_count(text) || !text.is_char_boundary(from) || !text.is_char_boundary(to) {
        return None;
    }
    let (head, _) = text.split_at(to);
    proof {
        lemma_boundary_in_head(text@, from as int, to as int);
    }
    let (_, part) = head.split_at(from);
    proof {
        assert(part.spec_bytes() =~= text.spec_bytes().subrange(from as int, to as int));
        encode_utf8_decode_utf8(part@);
    }
    Some(part)
}

/// The segment lies in the text, from `from` on, with both ends between
/// characters.
pub open spec fn fits(text: Seq<char>, segment: Segment, from: int) -> bool {
    from <= segment.start <= segment.end && on_boundary(text, segment.start as int) && on_boundary(
        text,
        segment.end as int,
    )
}

/// Every segment lies in the text with its ends between characters, and
/// each starts where the one before it ends, or later.
pub open spec fn in_order(text: Seq<char>, segments: Seq<Segment>) -> bool {
    &&& forall|i: int| 0 <= i < segments.len() ==> fits(text, #[trigger] segments[i], 0)
    &&& forall|i: int, j: int|
        0 <= i < j < segments.len() ==> (#[trigger] segments[i]).end <= (#[trigger] segments[j]).start
}

/// A match can be used in the part of the text from `from` up to `to`: it
/// starts at or after `done`, both counted from `from`, ends inside the
/// part, and both of its ends lie between characters.
pub open spec fn usable_match(
    text: Seq<char>,
    from: int,
    to: int,
    done: int,
    span: (usize, usize),
) -> bool {
    done <= span.0 <= span.1 <= to - from && on_boundary(text, from + span.0) && on_boundary(
        text,
        from + span.1,
    )
}

/// The segments of the part of the text from `from + done` up to `to`, in
/// which `spans` are the matches still to come: before each usable match a
/// plain segment, then the match; after the last a plain segment up to
/// `to`. A match that cannot be used is passed over.
pub open spec fn gap_segments(
    text: Seq<char>,
    from: int,
    to: int,
    spans: Seq<(usize, usize)>,
    done: int,
) -> Seq<Segment>
    decreases spans.len(),
{
    if spans.len() == 0 {
        seq![Segment { start: (from + done) as usize, end: to as usize, style: Style::Plain }]
    } else if usable_match(text, from, to, done, spans[0]) {
        seq![
            Segment {
                start: (from + done) as usize,
                end: (from + spans[0].0) as usize,
                style: Style::Plain,
            },
            Segment {
                start: (from + spans[0].0) as usize,
                end: (from + spans[0].1) as usize,
                style: Style::Match,
            },
        ] + gap_segments(text, from, to, spans.drop_first(), spans[0].1 as int)
    } else {
        gap_segments(text, from, to, spans.drop_first(), done)
    }
}

/// What the regex finds in the part of the text from `from` up to `to`.
pub open spec fn gap_matches(re: Regex, text: Seq<char>, from: int, to: int) -> Seq<(usize, usize)> {
    match cut(text, from, to) {
        Some(part) => regex_spans(re, part),
        None => Seq::empty(),
    }
}

/// A marked name can be used: it starts at or after `done`, holds at least
/// the two marks, ends inside the text, and the ends of both marks lie
/// between characters.
pub open spec fn usable_mark(text: Seq<char>, done: int, span: (usize, usize)) -> bool {
    &&& done <= span.0
    &&& span.0 + 4 <= span.1 <= byte_length(text)
    &&& on_boundary(text, span.0 as int)
    &&& on_boundary(text, span.0 + 2)
    &&& on_boundary(text, span.1 - 2)
    &&& on_boundary(text, span.1 as int)
}

/// The segments of the text from `done` on, in which `marks` are the marked
/// names still to come: before each usable one the segments of the text up
/// to it, then the name without its marks; after the last the segments of
/// the rest.
pub open spec fn marked_segments(
    re: Regex,
    text: Seq<char>,
    marks: Seq<(usize, usize)>,
    done: int,
) -> Seq<Segment>
    decreases marks.len(),
{
    if marks.len() == 0 {
        gap_segments(
            text,
            done,
            byte_length(text) as int,
            gap_matches(re, text, done, byte_length(text) as int),
            0,
        )
    } else if usable_mark(text, done, marks[0]) {
        gap_segments(
            text,
            done,
            marks[0].0 as int,
            gap_matches(re, text, done, marks[0].0 as int),
            0,
        ) + seq![
            Segment {
                start: (marks[0].0 + 2) as usize,
                end: (marks[0].1 - 2) as usize,
                style: Style::Name,
            },
        ] + marked_segments(re, text, marks.drop_first(), marks[0].1 as int)
    } else {
        marked_segments(re, text, marks.drop_first(), done)
    }
}

/// The segments of a text: `marks` finds the marked names, `re` what is
/// searched for.
pub open spec fn highlighted(marks: Regex, re: Regex, text: Seq<char>) -> Seq<Segment> {
    marked_segments(re, text, regex_spans(marks, text), 0)
}

fn push_gap(segments: &mut Vec<Segment>, text: &str, from: usize, to: usize, re: &Regex)
    requires
        from <= to,
        on_boundary(text@, from as int),
        on_boundary(text@, to as int),
        in_order(text@, old(segments)@),
        forall|i: int| 0 <= i < old(segments)@.len() ==> (#[trigger] old(segments)@[i]).end <= from,
    ensures
        in_order(text@, final(segments)@),
        forall|i: int| 0 <= i < final(segments)@.len() ==> (#[trigger] final(segments)@[i]).end <= to,
        final(segments)@ == old(segments)@ + gap_segments(
            text@,
            from as int,
            to as int,
            gap_matches(*re, text@, from as int, to as int),
            0,
        ),
{
    let spans = match slice(text, from, to) {
        Some(part) => find_spans(re, part),
        None => Vec::new(),
    };
    let ghost all = gap_matches(*re, text@, from as int, to as int);
    assert(spans@ =~= all);
    let mut done: usize = 0;
    let mut i: usize = 0;
    assert(spans@.skip(0) =~= spans@);
    while i < spans.len()
        invariant
            i <= spans.len(),
            from <= to <= byte_length(text@),
            done <= to - from,
            spans@ == all,
            on_boundary(text@, from + done),
            on_boundary(text@, to as int),
            in_order(text@, segments@),
            forall|k: int| 0 <= k < segments@.len() ==> (#[trigger] segments@[k]).end <= from + done,
            segments@ + gap_segments(text@, from as int, to as int, spans@.skip(i as int), done as int)
                == old(segments)@ + gap_segments(text@, from as int, to as int, all, 0),
        decreases spans.len() - i,
    {
        let (a, b) = spans[i];
        assert(spans@.skip(i as int)[0] == spans@[i as int]);
        assert(spans@.skip(i as int).drop_first() =~= spans@.skip(i + 1));
        let ghost rest = gap_segments(text@, from as int, to as int, spans@.skip(i + 1), b as int);
        if done <= a && a <= b && b <= to - from && text.is_char_boundary(from + a)
            && text.is_char_boundary(from + b) {
            let ghost before = segments@;
            segments.push(Segment { start: from + done, end: from + a, style: Style::Plain });
            segments.push(Segment { start: from + a, end: from + b, style: Style::Match });
            assert(segments@ + rest =~= before + (seq![
                Segment { start: (from + done) as usize, end: (from + a) as usize, style: Style::Plain },
                Segment { start: (from + a) as usize, end: (from + b) as usize, style: Style::Match },
            ] + rest));
            done = b;
        }
        i += 1;
    }
    let ghost before = segments@;
    segments.push(Segment { start: from + done, end: to, style: Style::Plain });
    assert(spans@.skip(spans.len() as int) =~= Seq::<(usize, usize)>::empty());
    assert(segments@ =~= before + gap_segments(
        text@,
        from as int,
        to as int,
        spans@.skip(spans.len() as int),
        done as int,
    ));
}

/// Cuts a text into segments for display. `marks` is the regex that finds
/// the marked names, `re` the regex of the search.
pub fn highlight(text: &str, marks: &Regex, re: &Regex) -> (segments: Vec<Segment>)
    ensures
        segments@ == highlighted(*marks, *re, text@),
        in_order(text@, segments@),
{
    proof {
        lemma_ends_on_boundary(text@);
    }
    let len = byte_count(text);
    let names = find_spans(marks, text);
    let mut segments: Vec<Segment> = Vec::new();
    let mut done: usize = 0;
    let mut i: usize = 0;
    assert(names@.skip(0) =~= names@);
    while i < names.len()
        invariant
            i <= names.len(),
            len == byte_length(text@),
            done <= len,
            names@ == regex_spans(*marks, text@),
            on_boundary(text@, done as int),
            on_boundary(text@, len as int),
            in_order(text@, segments@),
            forall|k: int| 0 <= k < segments@.len() ==> (#[trigger] segments@[k]).end <= done,
            segments@ + marked_segments(*re, text@, names@.skip(i as int), done as int)
                == highlighted(*marks, *re, text@),
        decreases names.len() - i,
    {
        let (a, b) = names[i];
        assert(names@.skip(i as int)[0] == names@[i as int]);
        assert(names@.skip(i as int).drop_first() =~= names@.skip(i + 1));
        if done <= a && a <= b && b - a >= 4 && b <= len && text.is_char_boundary(a)
            && text.is_char_boundary(a + 2) && text.is_char_boundary(b - 2) && text.is_char_boundary(
            b,
        ) {
            let ghost before = segments@;
            let ghost rest = marked_segments(*re, text@, names@.skip(i + 1), b as int);
            push_gap(&mut segments, text, done, a, re);
            let ghost gap = gap_segments(
                text@,
                done as int,
                a as int,
                gap_matches(*re, text@, done as int, a as int),
                0,
            );
            let name = Segment { start: a + 2, end: b - 2, style: Style::Name };
            segments.push(name);
            assert(segments@ + rest =~= before + (gap + seq![name] + rest));
            done = b;
        }
        i += 1;
    }
    assert(names@.skip(names.len() as int) =~= Seq::<(usize, usize)>::empty());
    push_gap(&mut segments, text, done, len, re);
    segments
}

} // verus!
