//! Telling people where a JSON file is wrong.
use crate::text::{decimal, decimal_text, join, join_all, joined, same_text, surround, views};
use vstd::prelude::*;

verus! {

/// How far it got to read one field of a JSON file.
#[derive(Debug, Clone)]
pub enum FieldProblem {
    /// The file could not be opened.
    NotOpened,
    /// What is in the file is not JSON.
    NotParsed,
    /// The file does not hold an object.
    RootNotObject,
    /// The object does not have the field.
    FieldMissing,
    /// The field is not of the type that was asked for; its value is given.
    WrongType { value: String },
}

/// What is said of a problem with a field. The path is written as a program would write it, in
/// quotes.
pub open spec fn field_problem_text(
    problem: FieldProblem,
    path: Seq<char>,
    field: Seq<char>,
) -> Seq<char> {
    match problem {
        FieldProblem::NotOpened => "Failed to open file: "@ + path,
        FieldProblem::NotParsed => "Failed to parse JSON from file: "@ + path,
        FieldProblem::RootNotObject => "JSON root is not an object in file: "@ + path,
        FieldProblem::FieldMissing => "Field '"@ + field + "' not found in JSON file: "@ + path,
        FieldProblem::WrongType { value } => "Failed to deserialize field '"@ + field
            + "' (value: "@ + value@ + ") to the expected type from file: "@ + path,
    }
}

/// Says what is wrong with a field.
pub fn field_problem_message(problem: &FieldProblem, path: &str, field: &str) -> (message: String)
    ensures
        message@ == field_problem_text(*problem, path@, field@),
{
    match problem {
        FieldProblem::NotOpened => join("Failed to open file: ", path),
        FieldProblem::NotParsed => join("Failed to parse JSON from file: ", path),
        FieldProblem::RootNotObject => join("JSON root is not an object in file: ", path),
        FieldProblem::FieldMissing => {
            let mut message = join("Field '", field);
            message.append("' not found in JSON file: ");
            message.append(path);
            message
        },
        FieldProblem::WrongType { value } => {
            let mut message = join("Failed to deserialize field '", field);
            message.append("' (value: ");
            message.append(value.as_str());
            message.append(") to the expected type from file: ");
            message.append(path);
            message
        },
    }
}

/// A member of a JSON object: its name, its value written as JSON, and its value as a programmer is
/// shown it.
#[derive(Clone, Debug, PartialEq, Eq)]
pub struct JsonMember {
    pub name: String,
    pub value: String,
    pub shown: String,
}

/// What a member says.
pub struct JsonMemberView {
    pub name: Seq<char>,
    pub value: Seq<char>,
    pub shown: Seq<char>,
}

impl View for JsonMember {
    type V = JsonMemberView;

    open spec fn view(&self) -> JsonMemberView {
        JsonMemberView { name: self.name@, value: self.value@, shown: self.shown@ }
    }
}

/// What some bytes hold.
#[derive(Clone, Debug, PartialEq, Eq)]
pub enum JsonRoot {
    /// They are not JSON.
    NotJson,
    /// They are JSON, but no object.
    NotObject,
    /// The members of an object, each name once.
    Object(Vec<JsonMember>),
}

/// What some bytes hold, as it is said of them.
pub enum JsonRootView {
    NotJson,
    NotObject,
    Object(Seq<JsonMemberView>),
}

impl View for JsonRoot {
    type V = JsonRootView;

    open spec fn view(&self) -> JsonRootView {
        match self {
            JsonRoot::NotJson => JsonRootView::NotJson,
            JsonRoot::NotObject => JsonRootView::NotObject,
            JsonRoot::Object(members) => JsonRootView::Object(
                members@.map_values(|member: JsonMember| member@),
            ),
        }
    }
}

/// What `serde_json` makes of some bytes.
pub uninterp spec fn json_root(bytes: Seq<u8>) -> JsonRootView;

/// Calls `serde_json::from_slice` for a `serde_json::Value` and reads the members off an object, in
/// the order of its map, each value through `Display` and `Debug`. All of it is determined by the
/// bytes.
#[verifier::external_body]
pub(crate) fn parse_json(bytes: &[u8]) -> (root: JsonRoot)
    ensures
        root@ == json_root(bytes@),
{
    match serde_json::from_slice::<serde_json::Value>(bytes) {
        Ok(serde_json::Value::Object(members)) => JsonRoot::Object(
            members
                .iter()
                .map(|(name, value)| JsonMember {
                    name: name.to_string(),
                    value: value.to_string(),
                    shown: format!("{value:?}"),
                })
                .collect(),
        ),
        Ok(_) => JsonRoot::NotObject,
        Err(_) => JsonRoot::NotJson,
    }
}

/// Whether a member is the first of its name.
pub open spec fn is_first_named(
    members: Seq<JsonMemberView>,
    name: Seq<char>,
    member: JsonMemberView,
) -> bool {
    exists|i: int|
        {
            &&& 0 <= i < members.len()
            &&& #[trigger] members[i] == member
            &&& member.name == name
            &&& forall|j: int| 0 <= j < i ==> (#[trigger] members[j]).name != name
        }
}

/// Whether an answer is right for the field of what some bytes hold.
pub open spec fn answers_field(
    root: JsonRootView,
    field: Seq<char>,
    found: Result<JsonMember, FieldProblem>,
) -> bool {
    match root {
        JsonRootView::NotJson => found matches Err(FieldProblem::NotParsed),
        JsonRootView::NotObject => found matches Err(FieldProblem::RootNotObject),
        JsonRootView::Object(members) => match found {
            Ok(member) => is_first_named(members, field, member@),
            Err(problem) => problem is FieldMissing && forall|i: int|
                0 <= i < members.len() ==> (#[trigger] members[i]).name != field,
        },
    }
}

/// Looks a field up in what some bytes hold.
pub fn member_of(root: JsonRoot, field: &str) -> (found: Result<JsonMember, FieldProblem>)
    ensures
        answers_field(root@, field@, found),
{
    let members = match root {
        JsonRoot::NotJson => {
            return Err(FieldProblem::NotParsed);
        },
        JsonRoot::NotObject => {
            return Err(FieldProblem::RootNotObject);
        },
        JsonRoot::Object(members) => members,
    };
    let ghost all = members@;
    let ghost said = members@.map_values(|member: JsonMember| member@);
    for member in iter: members
        invariant
            iter.seq() == all,
            said == all.map_values(|member: JsonMember| member@),
            root@ == JsonRootView::Object(said),
            forall|j: int| 0 <= j < iter.index() ==> (#[trigger] said[j]).name != field@,
    {
        let ghost at = iter.index() as int;
        assert(member == all[at]);
        assert(said[at] == member@);
        if same_text(member.name.as_str(), field) {
            return Ok(member);
        }
    }
    Err(FieldProblem::FieldMissing)
}

/// Reads one field of a JSON file, whose bytes are given where it could be opened. The value of the
/// field is still to be read as the type that is asked for.
pub fn file_json_field(bytes: Option<&[u8]>, field: &str) -> (found: Result<
    JsonMember,
    FieldProblem,
>)
    ensures
        match bytes {
            Some(bytes) => answers_field(json_root(bytes@), field@, found),
            None => found matches Err(FieldProblem::NotOpened),
        },
{
    match bytes {
        Some(bytes) => member_of(parse_json(bytes), field),
        None => Err(FieldProblem::NotOpened),
    }
}

/// Where the first line break in a text is, or the text's length where there is none.
pub open spec fn line_end(text: Seq<char>) -> nat
    decreases text.len(),
{
    if text.len() == 0 || text[0] == '\n' {
        0
    } else {
        1 + line_end(text.drop_first())
    }
}

proof fn lemma_line_end(text: Seq<char>)
    ensures
        line_end(text) <= text.len(),
        line_end(text) < text.len() ==> text[line_end(text) as int] == '\n',
        forall|i: int| 0 <= i < line_end(text) ==> text[i] != '\n',
    decreases text.len(),
{
    if text.len() > 0 && text[0] != '\n' {
        let rest = text.drop_first();
        lemma_line_end(rest);
        assert forall|i: int| 0 <= i < line_end(text) implies text[i] != '\n' by {
            if i > 0 {
                assert(text[i] == rest[i - 1]);
            }
        }
    }
}

/// A line without the carriage return that may stand before its line break.
pub open spec fn without_return(line: Seq<char>) -> Seq<char> {
    if line.len() > 0 && line.last() == '\r' {
        line.drop_last()
    } else {
        line
    }
}

/// The lines of a text. A line break at the end of the text begins no further line.
pub open spec fn lines_of(text: Seq<char>) -> Seq<Seq<char>>
    decreases text.len(),
    via lines_of_decreases
{
    let end = line_end(text) as int;
    if text.len() == 0 {
        Seq::empty()
    } else if end == text.len() {
        seq![text]
    } else {
        seq![without_return(text.take(end))] + lines_of(text.skip(end + 1))
    }
}

#[via_fn]
proof fn lines_of_decreases(text: Seq<char>) {
    lemma_line_end(text);
}

/// The lines of a text that begins with a line that is already known up to some place.
proof fn lemma_lines_of_run(text: Seq<char>, end: int)
    requires
        0 <= end <= text.len(),
        forall|i: int| 0 <= i < end ==> text[i] != '\n',
    ensures
        end < text.len() && text[end] == '\n' ==> line_end(text) == end,
        end == text.len() ==> line_end(text) == end,
    decreases end,
{
    if end > 0 {
        let rest = text.drop_first();
        assert forall|i: int| 0 <= i < end - 1 implies rest[i] != '\n' by {
            assert(rest[i] == text[i + 1]);
        }
        lemma_lines_of_run(rest, end - 1);
    }
}

fn drop_return(line: &mut String)
    ensures
        final(line)@ == without_return(old(line)@),
{
    let length = line.as_str().unicode_len();
    if length > 0 && line.as_str().get_char(length - 1) == '\r' {
        let kept = String::from_str(line.as_str().substring_char(0, length - 1));
        assert(kept@ =~= line@.drop_last());
        *line = kept;
    }
}

/// Takes a text apart into its lines.
pub fn lines(text: &str) -> (lines: Vec<String>)
    ensures
        views(lines@) == lines_of(text@),
{
    let mut lines: Vec<String> = Vec::new();
    let mut line = String::new();
    let ghost mut begin: int = 0;
    assert(text@.skip(0) =~= text@);
    for character in iter: text.chars()
        invariant
            iter.seq() == text@,
            0 <= begin <= iter.index() <= text@.len(),
            line@ == text@.subrange(begin, iter.index() as int),
            forall|i: int| 0 <= i < line@.len() ==> line@[i] != '\n',
            lines_of(text@) =~= views(lines@) + lines_of(text@.skip(begin)),
    {
        let ghost at = iter.index() as int;
        if character == '\n' {
            let ghost rest = text@.skip(begin);
            let ghost whole = line@;
            proof {
                assert(whole =~= rest.take(at - begin));
                lemma_lines_of_run(rest, at - begin);
                assert(rest.skip(at - begin + 1) =~= text@.skip(at + 1));
            }
            drop_return(&mut line);
            let ghost before = lines@;
            lines.push(line);
            proof {
                assert(views(lines@) =~= views(before).push(without_return(whole)));
                assert(lines_of(rest) =~= seq![without_return(whole)] + lines_of(
                    text@.skip(at + 1),
                ));
                begin = at + 1;
            }
            line = String::new();
            assert(line@ =~= text@.subrange(begin, at + 1));
        } else {
            line.push(character);
            assert(line@ =~= text@.subrange(begin, at + 1));
        }
    }
    proof {
        let rest = text@.skip(begin);
        assert(line@ =~= rest);
        lemma_lines_of_run(rest, rest.len() as int);
    }
    if line.as_str().unicode_len() > 0 {
        let ghost before = lines@;
        let ghost whole = line@;
        lines.push(line);
        assert(views(lines@) =~= views(before).push(whole));
    }
    assert(views(lines@) =~= lines_of(text@));
    lines
}

/// Stands before the line with the error.
pub const ERROR_PREFIX: &'static str = ">>     ";

/// A text repeated.
pub open spec fn repeated(character: char, times: nat) -> Seq<char> {
    Seq::new(times, |i: int| character)
}

/// A number with at least six digits.
pub open spec fn six_places(number: nat) -> Seq<char> {
    let digits = decimal_text(number);
    if digits.len() < 6 {
        repeated('0', (6 - digits.len()) as nat) + digits
    } else {
        digits
    }
}

fn repeat(character: char, times: usize) -> (text: String)
    ensures
        text@ == repeated(character, times as nat),
{
    let mut text = String::new();
    let mut index: usize = 0;
    while index < times
        invariant
            index <= times,
            text@ == repeated(character, index as nat),
        decreases times - index,
    {
        text.push(character);
        index += 1;
        assert(text@ =~= repeated(character, index as nat));
    }
    text
}

fn six_digits(number: u64) -> (text: String)
    ensures
        text@ == six_places(number as nat),
{
    let digits = decimal(number);
    let length = digits.as_str().unicode_len();
    if length < 6 {
        let zeros = repeat('0', 6 - length);
        join(zeros.as_str(), digits.as_str())
    } else {
        digits
    }
}

/// One line of the report; lines are counted from zero, and shown counted from one.
pub open spec fn shown_line(lines: Seq<Seq<char>>, index: int, line: int) -> Seq<char> {
    if index == line {
        ">>     "@ + lines[index]
    } else {
        six_places((index + 1) as nat) + " "@ + lines[index]
    }
}

/// The first line that is shown.
pub open spec fn shown_from(line: int) -> int {
    if line < 2 {
        0
    } else {
        line - 2
    }
}

/// The line after the last one that is shown.
pub open spec fn shown_until(lines: Seq<Seq<char>>, line: int) -> int {
    if line + 3 < lines.len() {
        line + 3
    } else {
        lines.len() as int
    }
}

/// The lines around an error: two before it, the line itself and two after it, as far as the file
/// has them.
pub open spec fn shown_lines(lines: Seq<Seq<char>>, line: int) -> Seq<Seq<char>> {
    let from = shown_from(line);
    let until = shown_until(lines, line);
    if from <= until {
        Seq::new((until - from) as nat, |i: int| shown_line(lines, from + i, line))
    } else {
        Seq::empty()
    }
}

/// The lines around an error, with a mark under the place where it is.
pub open spec fn marked_lines(lines: Seq<Seq<char>>, line: int, column: nat) -> Seq<Seq<char>> {
    let shown = shown_lines(lines, line);
    let at = line - shown_from(line);
    if at < shown.len() {
        shown.insert(at + 1, repeated('_', column + 7).push('^'))
    } else {
        shown
    }
}

/// The report of an error in a file; `line` and `column` are counted from one.
pub open spec fn report_text(
    filename: Seq<char>,
    json: Seq<char>,
    line: nat,
    column: nat,
) -> Seq<char> {
    let start = "JSON parsing error in "@ + filename;
    if lines_of(json).len() == 0 {
        start + ": File is empty."@
    } else {
        start + ": Line "@ + decimal_text(line) + ", column "@ + decimal_text(column) + ":\n"@
            + joined(
            marked_lines(
                lines_of(json),
                if line == 0 {
                    0
                } else {
                    line - 1
                },
                if column == 0 {
                    0
                } else {
                    (column - 1) as nat
                },
            ),
            "\n"@,
        )
    }
}

fn show_line(lines: &Vec<String>, index: usize, line: usize) -> (text: String)
    requires
        index < lines@.len(),
    ensures
        text@ == shown_line(views(lines@), index as int, line as int),
{
    if index == line {
        join(ERROR_PREFIX, lines[index].as_str())
    } else {
        assert(lines.len() == lines@.len());
        let number = six_digits((index + 1) as u64);
        surround(number.as_str(), " ", lines[index].as_str())
    }
}

fn show_lines(lines: &Vec<String>, line: usize, from: usize) -> (shown: Vec<String>)
    requires
        from == shown_from(line as int),
        line + 3 <= usize::MAX,
    ensures
        views(shown@) == shown_lines(views(lines@), line as int),
{
    let until: usize = if line + 3 < lines.len() {
        line + 3
    } else {
        lines.len()
    };
    let mut shown: Vec<String> = Vec::new();
    let mut index: usize = from;
    while index < until
        invariant
            from <= index,
            until <= lines@.len(),
            from <= until ==> index <= until,
            from > until ==> index == from,
            views(shown@) =~= Seq::new(
                (index - from) as nat,
                |i: int| shown_line(views(lines@), from + i, line as int),
            ),
        decreases until - index,
    {
        let text = show_line(lines, index, line);
        let ghost before = shown@;
        shown.push(text);
        index += 1;
        proof {
            assert(views(shown@) =~= views(before).push(text@));
        }
    }
    assert(views(shown@) =~= shown_lines(views(lines@), line as int));
    shown
}

/// Reports an error in a file. `line` and `column` are counted from one.
pub fn json_error_report(filename: &str, json: &str, line: usize, column: usize) -> (report: String)
    requires
        line + 2 <= usize::MAX,
        column + 6 <= usize::MAX,
    ensures
        report@ == report_text(filename@, json@, line as nat, column as nat),
{
    let json_lines = lines(json);
    let mut report = join("JSON parsing error in ", filename);
    proof {
        assert(views(json_lines@).len() == json_lines@.len());
    }
    if json_lines.len() == 0 {
        report.append(": File is empty.");
        return report;
    }
    let index: usize = if line == 0 {
        0
    } else {
        line - 1
    };
    let from: usize = if index < 2 {
        0
    } else {
        index - 2
    };
    let mut shown = show_lines(&json_lines, index, from);
    let offset: usize = if column == 0 {
        0
    } else {
        column - 1
    };
    proof {
        assert(views(shown@).len() == shown@.len());
    }
    if index - from < shown.len() {
        let mut mark = repeat('_', offset + 7);
        mark.push('^');
        let ghost before = shown@;
        shown.insert(index - from + 1, mark);
        assert(views(shown@) =~= views(before).insert(index - from + 1, mark@));
    }
    assert(views(shown@) == marked_lines(views(json_lines@), index as int, offset as nat));
    report.append(": Line ");
    report.append(decimal(line as u64).as_str());
    report.append(", column ");
    report.append(decimal(column as u64).as_str());
    report.append(":\n");
    report.append(join_all(shown.as_slice(), "\n").as_str());
    report
}

} // verus!
