//! The detail card: a record as coloured, indented lines.

use vstd::prelude::*;
use vstd::string::StringExecFns;
use crate::io::json::{number_text, parse_json, parsed_json, JsonValue};
use crate::text::{lemma_split_on, split, split_on, string_from_chars, texts_of};
use crate::ui::style::Color;

verus! {

/// Columns that a nested value is indented by.
pub const PADDING_INCR: usize = 2;

/// The colour of the name of a member.
pub const KEY_COLOR: Color = Color::Red;

/// The colour of a text.
pub const STRING_COLOR: Color = Color::LightGreen;

/// The colour of a number, a boolean and null.
pub const LITERAL_COLOR: Color = Color::LightCyan;

/// The colour of punctuation.
pub const SYNTAX_COLOR: Color = Color::Yellow;

/// A piece of a line with one colour, or with none.
#[derive(Debug, PartialEq)]
pub struct Span {
    pub text: String,
    pub color: Option<Color>,
}

/// What a span shows: its text and its colour.
pub type Piece = (Seq<char>, Option<Color>);

/// What a span shows.
pub open spec fn piece_of(span: Span) -> Piece {
    (span.text@, span.color)
}

/// What the spans of a line show.
pub open spec fn line_of(line: Seq<Span>) -> Seq<Piece> {
    Seq::new(line.len(), |k: int| piece_of(line[k]))
}

/// What the lines of a card show.
pub open spec fn lines_of(lines: Seq<Vec<Span>>) -> Seq<Seq<Piece>> {
    Seq::new(lines.len(), |k: int| line_of(lines[k]@))
}

/// The indentation of a line: that many blanks, without a colour.
pub open spec fn padding_piece(padding: nat) -> Piece {
    (Seq::new(padding, |i: int| ' '), None)
}

/// A text in a colour.
pub open spec fn colored(text: Seq<char>, color: Color) -> Piece {
    (text, Some(color))
}

/// A line that holds one coloured text behind its indentation.
pub open spec fn plain_line(padding: nat, text: Seq<char>, color: Color) -> Seq<Piece> {
    seq![padding_piece(padding), colored(text, color)]
}

/// The indentation of what is nested in a value indented by `padding`: two
/// columns more, as long as that can be counted.
pub open spec fn nested(padding: nat) -> nat {
    if padding + PADDING_INCR <= usize::MAX {
        (padding + PADDING_INCR) as nat
    } else {
        padding
    }
}

/// The lines of a text: one per line of the text, behind a line with a bar
/// where the text has more than one line.
pub open spec fn text_lines(text: Seq<char>, padding: nat) -> Seq<Seq<Piece>> {
    if text.len() == 0 {
        seq![plain_line(padding, seq!['"', '"'], STRING_COLOR)]
    } else {
        let pieces = split_on(text, '\n');
        let lines = Seq::new(pieces.len(), |k: int| plain_line(padding, pieces[k], STRING_COLOR));
        if pieces.len() > 1 {
            seq![plain_line(padding, seq!['|'], SYNTAX_COLOR)] + lines
        } else {
            lines
        }
    }
}

/// Whether a value is shown below the name of its member rather than
/// beside it: an object with members is.
pub open spec fn is_multiline(value: JsonValue) -> bool {
    value matches JsonValue::Object(members) && members.len() > 0
}

/// The lines of a value indented by `padding`. A boolean, a number and
/// null are one line; so is an array, which is shown closed, and an object
/// without members. A text has a line per line. An object has the lines of
/// its members in order.
pub open spec fn yaml_lines(value: JsonValue, padding: nat) -> Seq<Seq<Piece>>
    decreases value, 0nat,
{
    match value {
        JsonValue::Bool(b) => seq![
            plain_line(
                padding,
                if b {
                    "true"@
                } else {
                    "false"@
                },
                LITERAL_COLOR,
            ),
        ],
        JsonValue::Number(n) => seq![plain_line(padding, number_text(n), LITERAL_COLOR)],
        JsonValue::String(s) => text_lines(s@, padding),
        JsonValue::Null => seq![plain_line(padding, "null"@, LITERAL_COLOR)],
        JsonValue::Array(_) => seq![plain_line(padding, "[]"@, SYNTAX_COLOR)],
        JsonValue::Object(members) => if members.len() == 0 {
            seq![plain_line(padding, "{}"@, SYNTAX_COLOR)]
        } else {
            member_lines(members@, members.len() as nat, padding)
        },
    }
}

/// The lines of the first `n` members of an object. A member starts with
/// a line of its name and a colon. A value that is shown beside the name
/// continues that line with its first line, without the indentation, and
/// its other lines follow; a value that is shown below has all its lines
/// follow.
pub open spec fn member_lines(members: Seq<(String, JsonValue)>, n: nat, padding: nat) -> Seq<
    Seq<Piece>,
>
    decreases members, n,
{
    if n == 0 || n > members.len() {
        Seq::empty()
    } else {
        let member = members[n - 1];
        let head = seq![
            padding_piece(padding),
            colored(member.0@, KEY_COLOR),
            colored(": "@, SYNTAX_COLOR),
        ];
        let body = yaml_lines(member.1, nested(padding));
        member_lines(members, (n - 1) as nat, padding) + (if is_multiline(member.1) {
            seq![head] + body
        } else {
            seq![head + body[0].skip(1)] + body.skip(1)
        })
    }
}


/// A value that is shown beside the name of its member has a first line,
/// and that line starts with the indentation.
pub proof fn lemma_first_line(value: JsonValue, padding: nat)
    requires
        !is_multiline(value),
    ensures
        yaml_lines(value, padding).len() >= 1,
        yaml_lines(value, padding)[0].len() >= 1,
{
    match value {
        JsonValue::String(s) => {
            lemma_split_on(s@, '\n');
        },
        _ => {},
    }
}

/// The indentation of a line.
fn padding_span(padding: usize) -> (span: Span)
    ensures
        piece_of(span) == padding_piece(padding as nat),
{
    let mut blanks: Vec<char> = Vec::new();
    let mut i: usize = 0;
    while i < padding
        invariant
            i <= padding,
            blanks.len() == i,
            forall|k: int| 0 <= k < i ==> #[trigger] blanks[k] == ' ',
        decreases padding - i,
    {
        blanks.push(' ');
        i += 1;
    }
    let text = string_from_chars(&blanks);
    assert(text@ =~= Seq::new(padding as nat, |i: int| ' '));
    Span { text, color: None }
}

/// A text in a colour.
pub fn colored_text(txt: String, color: Color) -> (span: Span)
    ensures
        piece_of(span) == colored(txt@, color),
{
    Span { text: txt, color: Some(color) }
}

/// A fixed text in a colour.
pub fn colored_text_ref(txt: &'static str, color: Color) -> (span: Span)
    ensures
        piece_of(span) == colored(txt@, color),
{
    Span { text: String::from_str(txt), color: Some(color) }
}

/// A line that holds one coloured text behind its indentation.
fn new_line(padding: usize, span: Span) -> (line: Vec<Span>)
    ensures
        line_of(line@) == seq![padding_piece(padding as nat), piece_of(span)],
{
    let mut line: Vec<Span> = Vec::new();
    line.push(padding_span(padding));
    line.push(span);
    assert(line_of(line@) =~= seq![padding_piece(padding as nat), piece_of(span)]);
    line
}

/// The lines of a text: see [`text_lines`].
fn serialize_text(text: &String, padding: usize) -> (lines: Vec<Vec<Span>>)
    ensures
        lines_of(lines@) == text_lines(text@, padding as nat),
{
    let mut lines: Vec<Vec<Span>> = Vec::new();
    if text.as_str().is_empty() {
        proof {
            reveal_strlit("\"\"");
        }
        lines.push(new_line(padding, colored_text_ref("\"\"", STRING_COLOR)));
        assert("\"\""@ =~= seq!['"', '"']);
        assert(lines_of(lines@) =~= text_lines(text@, padding as nat));
        return lines;
    }
    let pieces = split(text.as_str(), '\n');
    let ghost parts = split_on(text@, '\n');
    let ghost shown = Seq::new(
        parts.len(),
        |k: int| plain_line(padding as nat, parts[k], STRING_COLOR),
    );
    let ghost bar: Seq<Seq<Piece>> = Seq::empty();
    if pieces.len() > 1 {
        proof {
            reveal_strlit("|");
            bar = seq![plain_line(padding as nat, seq!['|'], SYNTAX_COLOR)];
        }
        lines.push(new_line(padding, colored_text_ref("|", SYNTAX_COLOR)));
        assert("|"@ =~= seq!['|']);
        assert(lines_of(lines@) =~= bar);
    }
    let mut k: usize = 0;
    while k < pieces.len()
        invariant
            k <= pieces.len(),
            texts_of(pieces@) == parts,
            shown == Seq::new(parts.len(), |k: int| plain_line(padding as nat, parts[k], STRING_COLOR)),
            lines_of(lines@) == bar + shown.take(k as int),
        decreases pieces.len() - k,
    {
        let ghost before = lines_of(lines@);
        assert(parts[k as int] == pieces[k as int]@);
        let line = new_line(padding, colored_text(pieces[k].clone(), STRING_COLOR));
        lines.push(line);
        assert(lines_of(lines@) =~= before.push(shown[k as int]));
        assert(bar + shown.take(k + 1) =~= (bar + shown.take(k as int)).push(shown[k as int]));
        k += 1;
    }
    assert(shown.take(k as int) =~= shown);
    lines
}

/// A copy of a span.
fn copy_span(span: &Span) -> (copy: Span)
    ensures
        piece_of(copy) == piece_of(*span),
{
    Span { text: span.text.clone(), color: span.color }
}

/// Appends copies of the spans of `from`, from position `start` on, to
/// `line`.
fn extend_line(line: &mut Vec<Span>, from: &Vec<Span>, start: usize)
    requires
        start <= from.len(),
    ensures
        line_of(final(line)@) == line_of(old(line)@) + line_of(from@).skip(start as int),
{
    let ghost initial = line_of(line@);
    let mut k: usize = start;
    while k < from.len()
        invariant
            start <= k <= from.len(),
            line_of(line@) == initial + line_of(from@).subrange(start as int, k as int),
        decreases from.len() - k,
    {
        let ghost before = line_of(line@);
        line.push(copy_span(&from[k]));
        assert(line_of(line@) =~= before.push(line_of(from@)[k as int]));
        assert(initial + line_of(from@).subrange(start as int, k + 1) =~= (initial + line_of(
            from@,
        ).subrange(start as int, k as int)).push(line_of(from@)[k as int]));
        k += 1;
    }
    assert(line_of(from@).subrange(start as int, from.len() as int) =~= line_of(from@).skip(
        start as int,
    ));
}

/// Appends copies of the lines of `from`, from position `start` on, to
/// `lines`.
fn extend_lines(lines: &mut Vec<Vec<Span>>, from: &Vec<Vec<Span>>, start: usize)
    requires
        start <= from.len(),
    ensures
        lines_of(final(lines)@) == lines_of(old(lines)@) + lines_of(from@).skip(start as int),
{
    let ghost initial = lines_of(lines@);
    let mut k: usize = start;
    while k < from.len()
        invariant
            start <= k <= from.len(),
            lines_of(lines@) == initial + lines_of(from@).subrange(start as int, k as int),
        decreases from.len() - k,
    {
        let ghost before = lines_of(lines@);
        let mut line: Vec<Span> = Vec::new();
        assert(line_of(line@) =~= Seq::<Piece>::empty());
        extend_line(&mut line, &from[k], 0);
        assert(line_of(line@) =~= line_of(from[k as int]@));
        lines.push(line);
        assert(lines_of(lines@) =~= before.push(lines_of(from@)[k as int]));
        assert(initial + lines_of(from@).subrange(start as int, k + 1) =~= (initial + lines_of(
            from@,
        ).subrange(start as int, k as int)).push(lines_of(from@)[k as int]));
        k += 1;
    }
    assert(lines_of(from@).subrange(start as int, from.len() as int) =~= lines_of(from@).skip(
        start as int,
    ));
}

/// The lines of a value indented by `padding`, and whether the value is
/// shown below the name of its member: see [`yaml_lines`] and
/// [`is_multiline`].
fn serialize_obj(obj: &JsonValue, padding: usize) -> (r: (Vec<Vec<Span>>, bool))
    ensures
        lines_of(r.0@) == yaml_lines(*obj, padding as nat),
        r.1 == is_multiline(*obj),
    decreases obj,
{
    let mut lines: Vec<Vec<Span>> = Vec::new();
    match obj {
        JsonValue::Bool(v) => {
            lines.push(
                new_line(
                    padding,
                    colored_text_ref(
                        if *v {
                            "true"
                        } else {
                            "false"
                        },
                        LITERAL_COLOR,
                    ),
                ),
            );
            assert(lines_of(lines@) =~= yaml_lines(*obj, padding as nat));
            (lines, false)
        },
        JsonValue::Number(v) => {
            lines.push(new_line(padding, colored_text(v.to_string(), LITERAL_COLOR)));
            assert(lines_of(lines@) =~= yaml_lines(*obj, padding as nat));
            (lines, false)
        },
        JsonValue::String(v) => (serialize_text(v, padding), false),
        JsonValue::Null => {
            lines.push(new_line(padding, colored_text_ref("null", LITERAL_COLOR)));
            assert(lines_of(lines@) =~= yaml_lines(*obj, padding as nat));
            (lines, false)
        },
        JsonValue::Array(_) => {
            lines.push(new_line(padding, colored_text_ref("[]", SYNTAX_COLOR)));
            assert(lines_of(lines@) =~= yaml_lines(*obj, padding as nat));
            (lines, false)
        },
        JsonValue::Object(v) => {
            if v.len() == 0 {
                lines.push(new_line(padding, colored_text_ref("{}", SYNTAX_COLOR)));
                assert(lines_of(lines@) =~= yaml_lines(*obj, padding as nat));
                return (lines, false);
            }
            let inner = if padding <= usize::MAX - PADDING_INCR {
                padding + PADDING_INCR
            } else {
                padding
            };
            assert(lines_of(lines@) =~= member_lines(v@, 0, padding as nat));
            let mut k: usize = 0;
            while k < v.len()
                invariant
                    k <= v.len(),
                    *obj == JsonValue::Object(*v),
                    inner == nested(padding as nat),
                    lines_of(lines@) == member_lines(v@, k as nat, padding as nat),
                decreases v.len() - k,
            {
                let ghost before = lines_of(lines@);
                let ghost member = v@[k as int];
                let mut head: Vec<Span> = Vec::new();
                head.push(padding_span(padding));
                head.push(colored_text(v[k].0.clone(), KEY_COLOR));
                head.push(colored_text_ref(": ", SYNTAX_COLOR));
                let ghost start = seq![
                    padding_piece(padding as nat),
                    colored(member.0@, KEY_COLOR),
                    colored(": "@, SYNTAX_COLOR),
                ];
                assert(line_of(head@) =~= start);
                assert(decreases_to!(obj => obj->Object_0));
                assert(decreases_to!(obj->Object_0 => obj->Object_0@));
                assert(decreases_to!(obj->Object_0@ => obj->Object_0@[k as int]));
                assert(decreases_to!(obj->Object_0@[k as int] => obj->Object_0@[k as int].1));
                let (value, multiline) = serialize_obj(&v[k].1, inner);
                let ghost body = yaml_lines(member.1, inner as nat);
                if multiline {
                    lines.push(head);
                    assert(lines_of(lines@) =~= before + seq![start]);
                    extend_lines(&mut lines, &value, 0);
                    assert(body.skip(0) =~= body);
                    assert(lines_of(lines@) =~= before + (seq![start] + body));
                } else {
                    proof {
                        lemma_first_line(member.1, inner as nat);
                    }
                    assert(lines_of(value@)[0] == line_of(value[0]@));
                    extend_line(&mut head, &value[0], 1);
                    let ghost joined = line_of(head@);
                    lines.push(head);
                    assert(lines_of(lines@) =~= before + seq![joined]);
                    extend_lines(&mut lines, &value, 1);
                    assert(lines_of(lines@) =~= before + (seq![start + body[0].skip(1)] + body.skip(
                        1,
                    )));
                }
                k += 1;
            }
            (lines, true)
        },
    }
}

/// The lines of a record: see [`yaml_lines`].
pub fn to_colored_yaml(obj: &JsonValue) -> (lines: Vec<Vec<Span>>)
    ensures
        lines_of(lines@) == yaml_lines(*obj, 0),
{
    serialize_obj(obj, 0).0
}


/// The height of a card of `lines` lines: one more for its border, as
/// long as that can be counted.
pub open spec fn card_height(lines: nat) -> nat {
    if lines < usize::MAX {
        lines + 1
    } else {
        lines
    }
}

/// The detail card of a record.
#[derive(Debug, PartialEq)]
pub struct CardView {
    pub lines: Vec<Vec<Span>>,
    pub height: usize,
}

impl CardView {
    /// The card of a record.
    pub fn from_json(record: &JsonValue) -> (card: CardView)
        ensures
            lines_of(card.lines@) == yaml_lines(*record, 0),
            card.height == card_height(card.lines.len() as nat),
    {
        let lines = to_colored_yaml(record);
        let height = if lines.len() < usize::MAX {
            lines.len() + 1
        } else {
            lines.len()
        };
        CardView { lines, height }
    }

    /// The card of the record that `txt` holds as JSON, where it holds
    /// one.
    pub fn new(txt: &str) -> (card: Option<CardView>)
        ensures
            card is Some == parsed_json(txt@) is Some,
            card matches Some(c) ==> lines_of(c.lines@) == yaml_lines(parsed_json(txt@)->0, 0)
                && c.height == card_height(c.lines.len() as nat),
    {
        match parse_json(txt) {
            Some(record) => Some(CardView::from_json(&record)),
            None => None,
        }
    }

    /// The rows that the card takes on the display.
    pub fn get_height(&self) -> (height: usize)
        ensures
            height == self.height,
    {
        self.height
    }
}

} // verus!
