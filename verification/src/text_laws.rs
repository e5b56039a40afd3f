//! What text that is put together or taken apart amounts to.
use crate::json_errors::{
    field_problem_message, file_json_field, json_error_report, json_root, line_end, lines,
    lines_of, marked_lines, member_of, shown_from, shown_lines, shown_until, six_places,
    without_return, FieldProblem, JsonMember, JsonRoot,
};
use crate::paths::{after_last_slash, last_part_of, path_in};
use crate::text::{
    contains_text, decimal, decimal_text, digit_char, join, join_all, joined, replace_char,
    same_text, strip_prefix, surround, trim_start, trimmed_start, views,
};
use vstd::prelude::*;

verus! {

proof fn lemma_decimal(number: nat)
    ensures
        decimal_text(number).len() > 0,
        decimal_text(number).len() > 1 ==> decimal_text(number)[0] != '0',
        forall|i: int|
            0 <= i < decimal_text(number).len() ==> '0' <= #[trigger] decimal_text(number)[i]
                <= '9',
        decimal_text(number).fold_left(
            0int,
            |value: int, digit: char| 10 * value + (digit as int - '0' as int),
        ) == number,
        number > 0 ==> decimal_text(number)[0] != '0',
    decreases number,
{
    let text = decimal_text(number);
    let value = |value: int, digit: char| 10 * value + (digit as int - '0' as int);
    if number >= 10 {
        lemma_decimal(number / 10);
        let before = decimal_text(number / 10);
        assert(text.drop_last() =~= before);
        assert(text.fold_left(0int, value) == value(
            text.drop_last().fold_left(0int, value),
            text.last(),
        ));
        assert forall|i: int| 0 <= i < text.len() implies '0' <= #[trigger] text[i] <= '9' by {
            if i < before.len() {
                assert(text[i] == before[i]);
            }
        }
        assert(text[0] == before[0]);
    } else {
        assert(text.drop_last() =~= Seq::<char>::empty());
        assert(text.drop_last().fold_left(0int, value) == 0);
        assert(text.fold_left(0int, value) == value(0int, text.last()));
    }
}

/// A number in decimal is made of digits, does not begin with a zero unless it is zero, and its
/// digits, each ten times what follows it, add up to the number.
pub proof fn law_decimals_add_up(number: u64, text: String)
    requires
        call_ensures(decimal, (number,), text),
    ensures
        text@.len() > 0,
        text@.len() > 1 ==> text@[0] != '0',
        forall|i: int| 0 <= i < text@.len() ==> '0' <= #[trigger] text@[i] <= '9',
        text@.fold_left(0int, |value: int, digit: char| 10 * value + (digit as int - '0' as int))
            == number,
{
    lemma_decimal(number as nat);
}

/// Texts are joined by putting a separator before each but the first.
pub proof fn law_separators_stand_between_texts(
    texts: &[String],
    separator: &str,
    text: String,
    fewer: &[String],
    shorter: String,
)
    requires
        call_ensures(join_all, (texts, separator), text),
        call_ensures(join_all, (fewer, separator), shorter),
        texts@.len() > 0,
        fewer@ == texts@.drop_last(),
    ensures
        fewer@.len() == 0 ==> text@ == texts@[0]@ && shorter@.len() == 0,
        fewer@.len() > 0 ==> text@ == shorter@ + separator@ + texts@.last()@,
{
    assert(views(texts@).drop_last() =~= views(fewer@));
    assert(views(texts@).last() == texts@.last()@);
}

/// Putting texts behind each other keeps them as they are.
pub proof fn law_joined_texts_stay_as_they_are(
    first: &str,
    second: &str,
    third: &str,
    both: String,
    all: String,
    same: bool,
)
    requires
        call_ensures(join, (first, second), both),
        call_ensures(surround, (first, second, third), all),
        call_ensures(same_text, (first, second), same),
    ensures
        both@.len() == first@.len() + second@.len(),
        both@.take(first@.len() as int) == first@,
        both@.skip(first@.len() as int) == second@,
        all@ == both@ + third@,
        same <==> first@ == second@,
{
    assert(both@.take(first@.len() as int) =~= first@);
    assert(both@.skip(first@.len() as int) =~= second@);
}

/// A prefix can be taken off exactly where the text begins with it; then prefix and rest make up
/// the text.
pub proof fn law_prefix_and_rest_make_up_the_text(
    text: &str,
    prefix: &str,
    rest: Option<String>,
    other: Seq<char>,
)
    requires
        call_ensures(strip_prefix, (text, prefix), rest),
    ensures
        rest matches Some(rest) ==> text@ == prefix@ + rest@,
        rest is None ==> text@ != prefix@ + other,
{
    if rest is None && text@ == prefix@ + other {
        assert(text@.take(prefix@.len() as int) =~= prefix@);
    }
    if let Some(rest) = rest {
        assert(text@ =~= prefix@ + rest@);
    }
}

proof fn lemma_trimmed(text: Seq<char>, character: char)
    ensures
        trimmed_start(text, character).len() <= text.len(),
        trimmed_start(text, character) == text.skip(
            text.len() - trimmed_start(text, character).len(),
        ),
        trimmed_start(text, character).len() > 0 ==> trimmed_start(text, character)[0] != character,
        forall|i: int|
            0 <= i < text.len() - trimmed_start(text, character).len() ==> #[trigger] text[i]
                == character,
    decreases text.len(),
{
    let trimmed = trimmed_start(text, character);
    if text.len() > 0 && text[0] == character {
        let rest = text.drop_first();
        lemma_trimmed(rest, character);
        assert(rest.skip(rest.len() - trimmed.len()) =~= text.skip(text.len() - trimmed.len()));
        assert forall|i: int| 0 <= i < text.len() - trimmed.len() implies #[trigger] text[i]
            == character by {
            if i > 0 {
                assert(rest[i - 1] == text[i]);
            }
        }
    } else {
        assert(text.skip(0) =~= text);
    }
}

/// What is trimmed off the start of a text is nothing but the character, and all of it.
pub proof fn law_only_the_character_is_trimmed(text: &str, character: char, trimmed: String)
    requires
        call_ensures(trim_start, (text, character), trimmed),
    ensures
        trimmed@.len() <= text@.len(),
        trimmed@ == text@.skip(text@.len() - trimmed@.len()),
        trimmed@.len() > 0 ==> trimmed@[0] != character,
        forall|i: int|
            0 <= i < text@.len() - trimmed@.len() ==> #[trigger] text@[i] == character,
{
    lemma_trimmed(text@, character);
}

/// Replacing a character changes it wherever it stands, and nothing else.
pub proof fn law_characters_are_replaced_everywhere(
    text: &str,
    from: char,
    to: char,
    changed: String,
    i: int,
)
    requires
        call_ensures(replace_char, (text, from, to), changed),
    ensures
        changed@.len() == text@.len(),
        0 <= i < text@.len() ==> changed@[i] == (if text@[i] == from {
            to
        } else {
            text@[i]
        }),
{
}

/// A text is among others exactly where one of them is the same.
pub proof fn law_a_text_is_found_where_it_is(texts: &[String], text: &str, found: bool)
    requires
        call_ensures(contains_text, (texts, text), found),
    ensures
        found <==> exists|i: int| 0 <= i < texts@.len() && (#[trigger] texts@[i])@ == text@,
{
}

proof fn lemma_after_slash(path: Seq<char>)
    ensures
        after_last_slash(path).len() <= path.len(),
        after_last_slash(path) == path.skip(path.len() - after_last_slash(path).len()),
        forall|i: int|
            0 <= i < after_last_slash(path).len() ==> #[trigger] after_last_slash(path)[i] != '/',
        after_last_slash(path).len() < path.len() ==> path[path.len() - after_last_slash(path).len()
            - 1] == '/',
    decreases path.len(),
{
    let part = after_last_slash(path);
    if path.len() > 0 && path.last() != '/' {
        let before = path.drop_last();
        lemma_after_slash(before);
        let shorter = after_last_slash(before);
        assert(shorter.push(path.last()) =~= path.skip(path.len() - part.len()));
        assert forall|i: int| 0 <= i < part.len() implies #[trigger] part[i] != '/' by {
            if i < shorter.len() {
                assert(part[i] == shorter[i]);
            }
        }
    } else {
        assert(path.skip(path.len() as int) =~= Seq::<char>::empty());
    }
}

/// The last part of a path is its end: it holds no slash and follows one, or is the whole path
/// where the path has no slash or ends with one.
pub proof fn law_last_part_follows_the_last_slash(path: &str, part: String)
    requires
        call_ensures(last_part_of, (path,), part),
    ensures
        part@.len() <= path@.len(),
        part@ == path@.skip(path@.len() - part@.len()),
        path@.len() > 0 && path@.last() != '/' ==> !part@.contains('/'),
        part@.len() < path@.len() ==> path@[path@.len() - part@.len() - 1] == '/'
            && !part@.contains('/') && part@.len() > 0,
        path@.len() > 0 && path@.last() == '/' ==> part@ == path@,
{
    lemma_after_slash(path@);
    assert(path@.skip(0) =~= path@);
}

/// A file lies in its directory: its path is the directory, a slash unless the directory brings one
/// or is empty, and the name of the file.
pub proof fn law_files_lie_in_their_directory(dir: &str, name: &str, path: String)
    requires
        call_ensures(path_in, (dir, name), path),
    ensures
        path@.take(dir@.len() as int) == dir@,
        path@.skip(path@.len() - name@.len()) == name@,
        path@.len() == dir@.len() + name@.len() + (if dir@.len() == 0 || dir@.last() == '/' {
            0int
        } else {
            1int
        }),
        dir@.len() > 0 && dir@.last() != '/' ==> path@[dir@.len() as int] == '/',
{
    reveal_strlit("/");
    assert("/"@.len() == 1 && "/"@[0] == '/');
    assert(path@.take(dir@.len() as int) =~= dir@);
    assert(path@.skip(path@.len() - name@.len()) =~= name@);
}

proof fn lemma_line_end(text: Seq<char>, end: int)
    requires
        0 <= end <= text.len(),
        forall|i: int| 0 <= i < end ==> #[trigger] text[i] != '\n',
        end < text.len() ==> text[end] == '\n',
    ensures
        line_end(text) == end,
    decreases text.len(),
{
    if end > 0 {
        assert(text[0] != '\n');
        let rest = text.drop_first();
        assert forall|i: int| 0 <= i < end - 1 implies #[trigger] rest[i] != '\n' by {
            assert(rest[i] == text[i + 1]);
        }
        lemma_line_end(rest, end - 1);
    }
}

/// The lines of a text are what stands up to its first line break, without a carriage return before
/// it, and the lines of what follows; a text without a line break is one line, an empty one none.
pub proof fn law_lines_end_at_line_breaks(
    text: &str,
    found: Vec<String>,
    rest: &str,
    rest_found: Vec<String>,
    line: Seq<char>,
)
    requires
        call_ensures(lines, (text,), found),
        call_ensures(lines, (rest,), rest_found),
        !line.contains('\n'),
        text@ == line.push('\n') + rest@,
    ensures
        found@.len() == rest_found@.len() + 1,
        line.len() == 0 || line.last() != '\r' ==> found@[0]@ == line,
        line.len() > 0 && line.last() == '\r' ==> found@[0]@ == line.drop_last(),
        forall|i: int|
            0 <= i < rest_found@.len() ==> (#[trigger] rest_found@[i])@ == found@[i + 1]@,
{
    let all = views(found@);
    let end = line.len() as int;
    assert(text@[end] == '\n');
    assert forall|i: int| 0 <= i < end implies #[trigger] text@[i] != '\n' by {
        assert(text@[i] == line[i]);
        assert(line.contains(line[i]));
    }
    lemma_line_end(text@, end);
    assert(text@.take(end) =~= line);
    assert(text@.skip(end + 1) =~= rest@);
    assert(all == seq![without_return(line)] + lines_of(rest@));
    assert(all.len() == found@.len());
    assert(views(rest_found@).len() == rest_found@.len());
    assert(found@[0]@ == all[0]);
    assert forall|i: int| 0 <= i < rest_found@.len() implies (#[trigger] rest_found@[i])@
        == found@[i + 1]@ by {
        assert(views(rest_found@)[i] == rest_found@[i]@);
        assert(all[i + 1] == found@[i + 1]@);
    }
}

/// A text without a line break is one line, and an empty text none.
pub proof fn law_text_without_a_line_break_is_one_line(text: &str, found: Vec<String>)
    requires
        call_ensures(lines, (text,), found),
        !text@.contains('\n'),
    ensures
        text@.len() == 0 ==> found@.len() == 0,
        text@.len() > 0 ==> found@.len() == 1 && found@[0]@ == text@,
{
    assert forall|i: int| 0 <= i < text@.len() implies #[trigger] text@[i] != '\n' by {
        assert(text@.contains(text@[i]));
    }
    lemma_line_end(text@, text@.len() as int);
    assert(views(found@).len() == found@.len());
    if text@.len() > 0 {
        assert(views(found@)[0] == found@[0]@);
    }
}

/// A report on an empty file says so. Any other one tells the line and the column, and shows the
/// line after a mark, with an arrow below the column, between the two lines before it and the two
/// lines behind it, as far as there are any, each after its number.
pub proof fn law_reports_show_the_line(
    filename: &str,
    json: &str,
    line: usize,
    column: usize,
    report: String,
    found: Vec<String>,
    i: int,
) -> (shown: Seq<Seq<char>>)
    requires
        1 <= line,
        1 <= column,
        call_ensures(json_error_report, (filename, json, line, column), report),
        call_ensures(lines, (json,), found),
    ensures
        found@.len() == 0 ==> report@ == "JSON parsing error in "@ + filename@
            + ": File is empty."@,
        found@.len() > 0 ==> report@ == "JSON parsing error in "@ + filename@ + ": Line "@
            + decimal_text(line as nat) + ", column "@ + decimal_text(column as nat) + ":\n"@
            + joined(shown, "\n"@),
        found@.len() >= line ==> {
            let first = if line <= 3 {
                1
            } else {
                line - 2
            };
            let last = if line + 2 <= found@.len() {
                line + 2
            } else {
                found@.len() as int
            };
            let at = line - first;
            let zeros = Seq::new(
                if decimal_text(i as nat).len() < 6 {
                    (6 - decimal_text(i as nat).len()) as nat
                } else {
                    0
                },
                |k: int| '0',
            );
            &&& shown.len() == last - first + 2
            &&& shown[at] == ">>     "@ + found@[line - 1]@
            &&& shown[at + 1].len() == column + 7
            &&& shown[at + 1].last() == '^'
            &&& forall|k: int| 0 <= k < column + 6 ==> #[trigger] shown[at + 1][k] == '_'
            &&& first <= i < line ==> shown[i - first] == zeros + decimal_text(i as nat) + " "@
                + found@[i - 1]@
            &&& line < i <= last ==> shown[i - first + 1] == zeros + decimal_text(i as nat) + " "@
                + found@[i - 1]@
        },
{
    let all = lines_of(json@);
    assert(views(found@).len() == found@.len());
    let shown = marked_lines(all, line - 1, (column - 1) as nat);
    if found@.len() >= line {
        let first = shown_from(line - 1) + 1;
        let plain = shown_lines(all, line - 1);
        let at = line - first;
        assert(views(found@)[line - 1] == found@[line - 1]@);
        assert(plain[at] == ">>     "@ + all[line - 1]);
        let digits = decimal_text(i as nat);
        let zeros = Seq::new(
            if digits.len() < 6 {
                (6 - digits.len()) as nat
            } else {
                0
            },
            |k: int| '0',
        );
        assert(six_places(i as nat) =~= zeros + digits);
        if first <= i < line {
            assert(views(found@)[i - 1] == found@[i - 1]@);
            assert(shown[i - first] == plain[i - first]);
        }
        if line < i <= shown_until(all, line - 1) {
            assert(views(found@)[i - 1] == found@[i - 1]@);
            assert(shown[i - first + 1] == plain[i - first]);
        }
    }
    shown
}

/// A member is found under its name, the first of that name; what is no object has none.
pub proof fn law_the_first_member_of_a_name_is_found(
    root: JsonRoot,
    field: &str,
    found: Result<JsonMember, FieldProblem>,
)
    requires
        call_ensures(member_of, (root, field), found),
    ensures
        found matches Ok(member) ==> member.name@ == field@ && root is Object,
        root is NotJson <==> found is Err && found->Err_0 is NotParsed,
        root is NotObject <==> found is Err && found->Err_0 is RootNotObject,
        root matches JsonRoot::Object(members) ==> {
            &&& found is Ok <==> exists|i: int|
                0 <= i < members@.len() && (#[trigger] members@[i]).name@ == field@
            &&& found is Err ==> found->Err_0 is FieldMissing
            &&& found matches Ok(member) ==> exists|i: int|
                0 <= i < members@.len() && (#[trigger] members@[i])@ == member@ && forall|j: int|
                    0 <= j < i ==> (#[trigger] members@[j]).name@ != field@
        },
{
    if let JsonRoot::Object(members) = root {
        let all = root@->Object_0;
        assert(all =~= members@.map_values(|member: JsonMember| member@));
        if let Ok(member) = found {
            let i = choose|i: int|
                {
                    &&& 0 <= i < all.len()
                    &&& #[trigger] all[i] == member@
                    &&& member@.name == field@
                    &&& forall|j: int| 0 <= j < i ==> (#[trigger] all[j]).name != field@
                };
            assert(members@[i].name@ == field@);
            assert forall|j: int| 0 <= j < i implies (#[trigger] members@[j]).name@ != field@ by {
                assert(all[j].name != field@);
            }
            assert(members@[i]@ == member@);
        }
        if found is Err {
            assert forall|i: int| 0 <= i < members@.len() implies (#[trigger] members@[i]).name@
                != field@ by {
                assert(all[i].name != field@);
            }
        }
    }
}

/// What is wrong with a field is told with the file, and from the moment that the file could be
/// read with the field.
pub proof fn law_field_problems_tell_file_and_field(
    problem: &FieldProblem,
    path: &str,
    field: &str,
    message: String,
)
    requires
        call_ensures(field_problem_message, (problem, path, field), message),
    ensures
        message@ == (match *problem {
            FieldProblem::NotOpened => "Failed to open file: "@,
            FieldProblem::NotParsed => "Failed to parse JSON from file: "@,
            FieldProblem::RootNotObject => "JSON root is not an object in file: "@,
            FieldProblem::FieldMissing => "Field '"@ + field@ + "' not found in JSON file: "@,
            FieldProblem::WrongType { value } => "Failed to deserialize field '"@ + field@
                + "' (value: "@ + value@ + ") to the expected type from file: "@,
        }) + path@,
{
}

/// A field of a file is what is found under its name in what the file's bytes hold; of a file that
/// could not be opened nothing is found.
pub proof fn law_fields_are_looked_up_in_what_the_file_holds(
    bytes: Option<&[u8]>,
    field: &str,
    found: Result<JsonMember, FieldProblem>,
    root: JsonRoot,
    looked_up: Result<JsonMember, FieldProblem>,
)
    requires
        call_ensures(file_json_field, (bytes, field), found),
        bytes matches Some(read) ==> root@ == json_root(read@),
        call_ensures(member_of, (root, field), looked_up),
    ensures
        bytes is None ==> (found matches Err(problem) && problem is NotOpened),
        bytes is Some ==> (found is Ok <==> looked_up is Ok),
        bytes is Some ==> (found matches Ok(member) ==> member@ == looked_up->Ok_0@),
        bytes is Some ==> (found matches Err(problem) ==> {
            &&& problem is NotParsed <==> root is NotJson
            &&& problem is RootNotObject <==> root is NotObject
            &&& problem is FieldMissing <==> root is Object
        }),
{
}

} // verus!
