//! The project in the configuration of the gcloud tool.

use crate::text::{
    joined, law_joined_append, law_joined_one, law_prefix_and_rest, opt_view, strip_prefix,
    to_chars, trim, trim_start, trimmed, trimmed_start, without_prefix,
};
use vstd::prelude::*;
use vstd::string::*;

verus! {

/// The name of the active configuration: the trimmed text of the file that names
/// it, or else `default`.
pub fn active_configuration(file: &Option<String>) -> (name: String)
    ensures
        name@ == match opt_view(*file) {
            Some(text) => trimmed(text),
            None => "default"@,
        },
{
    match file {
        Some(text) => trim(text.as_str()),
        None => "default".to_owned(),
    }
}

/// The name of the file that holds a configuration.
pub fn configuration_file(name: &str) -> (file: String)
    ensures
        file@ == "config_"@ + name@,
{
    let mut file = "config_".to_owned();
    file.append(name);
    file
}

/// The project that a line names: what follows `project` and an equals sign. White
/// space around these does not count.
pub open spec fn line_project(line: Seq<char>) -> Option<Seq<char>> {
    match without_prefix(trimmed(line), "project"@) {
        Some(rest) => match without_prefix(trimmed_start(rest), "="@) {
            Some(value) => Some(trimmed(value)),
            None => None,
        },
        None => None,
    }
}

/// The lines of a text; the last one is what follows the last line end.
pub open spec fn split_lines(text: Seq<char>) -> Seq<Seq<char>>
    decreases text.len(),
{
    if text.len() == 0 {
        seq![seq![]]
    } else {
        let before = split_lines(text.drop_last());
        if text.last() == '\n' {
            before.push(seq![])
        } else {
            before.drop_last().push(before.last().push(text.last()))
        }
    }
}

/// The project that the first of the lines names that names one.
pub open spec fn first_project(lines: Seq<Seq<char>>) -> Option<Seq<char>>
    decreases lines.len(),
{
    if lines.len() == 0 {
        None
    } else {
        match first_project(lines.drop_last()) {
            Some(project) => Some(project),
            None => line_project(lines.last()),
        }
    }
}

fn project_of(line: &str) -> (project: Option<String>)
    ensures
        opt_view(project) == line_project(line@),
{
    let bare = trim(line);
    match strip_prefix(bare.as_str(), "project") {
        Some(rest) => {
            let value = trim_start(rest.as_str());
            match strip_prefix(value.as_str(), "=") {
                Some(name) => Some(trim(name.as_str())),
                None => None,
            }
        },
        None => None,
    }
}

/// The project that a configuration names.
pub fn find_project(config: &str) -> (project: Option<String>)
    ensures
        opt_view(project) == first_project(split_lines(config@)),
{
    let chars = to_chars(config);
    let mut found: Option<String> = None;
    let mut start: usize = 0;
    let mut i: usize = 0;
    proof {
        assert(chars@.take(0) =~= seq![]);
        assert(chars@.subrange(0, 0) =~= seq![]);
        assert(split_lines(chars@.take(0)).drop_last() =~= seq![]);
    }
    while i < chars.len()
        invariant
            chars@ == config@,
            start <= i <= chars@.len(),
            split_lines(chars@.take(i as int)).len() > 0,
            split_lines(chars@.take(i as int)).last() == chars@.subrange(start as int, i as int),
            opt_view(found) == first_project(split_lines(chars@.take(i as int)).drop_last()),
        decreases chars@.len() - i,
    {
        let ghost before = split_lines(chars@.take(i as int));
        proof {
            let step = chars@.take(i + 1);
            assert(step.drop_last() =~= chars@.take(i as int));
            assert(step.last() == chars@[i as int]);
        }
        if chars[i] == '\n' {
            if found.is_none() {
                found = project_of(config.substring_char(start, i));
            }
            start = i + 1;
            proof {
                assert(chars@.subrange(start as int, i + 1) =~= seq![]);
                assert(split_lines(chars@.take(i + 1)).drop_last() =~= before);
            }
        } else {
            proof {
                assert(chars@.subrange(start as int, i + 1) =~= chars@.subrange(
                    start as int,
                    i as int,
                ).push(chars@[i as int]));
                assert(split_lines(chars@.take(i + 1)).drop_last() =~= before.drop_last());
            }
        }
        i += 1;
    }
    assert(chars@.take(chars@.len() as int) =~= chars@);
    if found.is_none() {
        found = project_of(config.substring_char(start, chars.len()));
    }
    found
}

/// The lines of a text are without line ends, and put together again with line ends
/// between them they are the text.
pub proof fn law_lines_make_up_the_text(text: Seq<char>)
    ensures
        split_lines(text).len() > 0,
        joined(split_lines(text), seq!['\n']) == text,
        forall|i: int, j: int|
            0 <= i < split_lines(text).len() && 0 <= j < split_lines(text)[i].len()
                ==> #[trigger] split_lines(text)[i][j] != '\n',
    decreases text.len(),
{
    let sep = seq!['\n'];
    if text.len() == 0 {
        assert(joined(split_lines(text), sep) =~= text);
    } else {
        let shorter = text.drop_last();
        let before = split_lines(shorter);
        let lines = split_lines(text);
        law_lines_make_up_the_text(shorter);
        assert(text =~= shorter.push(text.last()));
        if text.last() == '\n' {
            law_joined_append(before, seq![seq![]], sep);
            law_joined_one(seq![], sep);
            assert(lines =~= before + seq![seq![]]);
            assert(joined(lines, sep) =~= text);
        } else {
            let head = before.drop_last();
            let longer = before.last().push(text.last());
            law_joined_append(head, seq![before.last()], sep);
            law_joined_append(head, seq![longer], sep);
            law_joined_one(before.last(), sep);
            law_joined_one(longer, sep);
            assert(before =~= head + seq![before.last()]);
            assert(lines =~= head + seq![longer]);
            assert(joined(lines, sep) =~= joined(before, sep).push(text.last()));
            assert forall|i: int, j: int|
                0 <= i < lines.len() && 0 <= j < lines[i].len() implies #[trigger] lines[i][j]
                != '\n' by {
                if i < head.len() {
                    assert(lines[i] == before[i]);
                    assert(before[i][j] != '\n');
                } else if j < before.last().len() {
                    assert(before[before.len() - 1][j] != '\n');
                    assert(lines[i][j] == before[before.len() - 1][j]);
                }
            }
        }
    }
}

/// The first line that names a project decides.
pub proof fn law_first_project_counts(lines: Seq<Seq<char>>, i: int)
    requires
        0 <= i < lines.len(),
        forall|j: int| 0 <= j < i ==> line_project(#[trigger] lines[j]) is None,
        line_project(lines[i]) is Some,
    ensures
        first_project(lines) == line_project(lines[i]),
    decreases lines.len(),
{
    let before = lines.drop_last();
    if i < lines.len() - 1 {
        assert forall|j: int| 0 <= j < i implies line_project(#[trigger] before[j]) is None by {
            assert(before[j] == lines[j]);
        }
        law_first_project_counts(before, i);
    } else {
        assert forall|j: int| 0 <= j < before.len() implies line_project(#[trigger] before[j])
            is None by {
            assert(before[j] == lines[j]);
        }
        law_no_project(before);
    }
}

/// Where no line names a project there is none.
pub proof fn law_no_project(lines: Seq<Seq<char>>)
    requires
        forall|j: int| 0 <= j < lines.len() ==> line_project(#[trigger] lines[j]) is None,
    ensures
        first_project(lines) is None,
    decreases lines.len(),
{
    if lines.len() > 0 {
        let before = lines.drop_last();
        assert forall|j: int| 0 <= j < before.len() implies line_project(#[trigger] before[j])
            is None by {
            assert(before[j] == lines[j]);
        }
        law_no_project(before);
        assert(line_project(lines[lines.len() - 1]) is None);
    }
}

/// A line names a project exactly when it is, but for white space around it, the
/// word for it, an equals sign, before which white space may stand, and a value;
/// then it names the value without the white space around it.
pub proof fn law_line_names_a_project(line: Seq<char>, rest: Seq<char>, value: Seq<char>)
    ensures
        trimmed(line) == "project"@ + rest && trimmed_start(rest) == "="@ + value ==> line_project(
            line,
        ) == Some(trimmed(value)),
        !"project"@.is_prefix_of(trimmed(line)) ==> line_project(line) is None,
        trimmed(line) == "project"@ + rest && !"="@.is_prefix_of(trimmed_start(rest))
            ==> line_project(line) is None,
{
    law_prefix_and_rest(trimmed(line), "project"@, rest);
    law_prefix_and_rest(trimmed_start(rest), "="@, value);
}

} // verus!
