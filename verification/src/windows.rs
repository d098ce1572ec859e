//! Commands on Windows, where batch files that stand in for programs have to go
//! through the command interpreter.

use vstd::prelude::*;

use crate::paths::{program_extension, program_extension_outcome};
use crate::text::{
    chars_of, concat, contains_char, join, joined, law_joined_in_places, law_pieces_make_the_text,
    pieces, text_view, texts, trim, trimmed,
};

verus! {

/// Why a command cannot go through the command interpreter.
pub const REFUSED_MESSAGE: &'static str =
    "Windows cmd.exe arguments cannot contain %, !, or newlines";

/// Whether the command interpreter would take a character for more than itself even
/// when it is quoted.
pub open spec fn is_refused(c: char) -> bool {
    c == '%' || c == '!' || c == '\r' || c == '\n'
}

/// Whether an argument cannot be quoted.
pub open spec fn has_refused(argument: Seq<char>) -> bool {
    exists|i: int| 0 <= i < argument.len() && is_refused(#[trigger] argument[i])
}

/// A character as it is written between quotes.
pub open spec fn escaped_char(c: char) -> Seq<char> {
    if c == '"' || c == '^' {
        seq!['^', c]
    } else {
        seq![c]
    }
}

/// Text as it is written between quotes.
pub open spec fn escaped(text: Seq<char>) -> Seq<char>
    decreases text.len(),
{
    if text.len() == 0 {
        seq![]
    } else {
        escaped_char(text[0]) + escaped(text.drop_first())
    }
}

/// An argument in quotes.
pub open spec fn quoted(argument: Seq<char>) -> Seq<char> {
    seq!['"'] + escaped(argument) + seq!['"']
}

/// The arguments in quotes.
pub open spec fn all_quoted(command: Seq<Seq<char>>) -> Seq<Seq<char>> {
    command.map_values(|argument: Seq<char>| quoted(argument))
}

/// The command line of a command.
pub open spec fn command_line(command: Seq<Seq<char>>) -> Seq<char> {
    joined(all_quoted(command), " "@)
}

/// Whether some argument cannot be quoted.
pub open spec fn is_unquotable(command: Seq<Seq<char>>) -> bool {
    exists|i: int| 0 <= i < command.len() && has_refused(#[trigger] command[i])
}

fn find_refused(chars: &Vec<char>) -> (found: bool)
    ensures
        found == has_refused(chars@),
{
    let mut i: usize = 0;
    while i < chars.len()
        invariant
            i <= chars@.len(),
            forall|j: int| 0 <= j < i ==> !is_refused(#[trigger] chars@[j]),
        decreases chars@.len() - i,
    {
        let c = chars[i];
        if c == '%' || c == '!' || c == '\r' || c == '\n' {
            assert(is_refused(chars@[i as int]));
            return true;
        }
        i += 1;
    }
    false
}

/// An argument in quotes.
pub fn quote(argument: &str) -> (text: String)
    ensures
        text@ == quoted(argument@),
{
    let chars = chars_of(argument);
    let mut text = String::new();
    text.push('"');
    let mut i: usize = 0;
    assert(chars@.skip(0) =~= chars@);
    assert(text@ =~= seq!['"']);
    while i < chars.len()
        invariant
            i <= chars@.len(),
            text@ + escaped(chars@.skip(i as int)) == seq!['"'] + escaped(chars@),
        decreases chars@.len() - i,
    {
        let ghost before = text@;
        let c = chars[i];
        assert(chars@.skip(i as int).drop_first() =~= chars@.skip(i + 1));
        if c == '"' || c == '^' {
            text.push('^');
        }
        text.push(c);
        assert(text@ =~= before + escaped_char(c));
        assert(text@ + escaped(chars@.skip(i + 1)) =~= before + escaped(chars@.skip(i as int)));
        i += 1;
    }
    assert(text@ =~= seq!['"'] + escaped(chars@));
    text.push('"');
    assert(text@ =~= quoted(argument@));
    text
}

/// The command line of a command, or why it has none.
pub fn windows_command_line(command: &Vec<String>) -> (line: Result<String, String>)
    ensures
        match line {
            Ok(text) => !is_unquotable(texts(command@)) && text@ == command_line(texts(command@)),
            Err(message) => is_unquotable(texts(command@)) && message@ == REFUSED_MESSAGE@,
        },
{
    let mut arguments: Vec<String> = Vec::new();
    let mut i: usize = 0;
    while i < command.len()
        invariant
            i <= command@.len(),
            arguments@.len() == i,
            forall|j: int| 0 <= j < i ==> !has_refused(#[trigger] texts(command@)[j]),
            forall|j: int| 0 <= j < i ==> (#[trigger] arguments@[j])@ == quoted(command@[j]@),
        decreases command@.len() - i,
    {
        let chars = chars_of(command[i].as_str());
        assert(texts(command@)[i as int] == command@[i as int]@);
        if find_refused(&chars) {
            return Err(REFUSED_MESSAGE.to_owned());
        }
        arguments.push(quote(command[i].as_str()));
        i += 1;
    }
    assert(texts(arguments@) =~= all_quoted(texts(command@)));
    Ok(join(&arguments, " "))
}

/// What the command interpreter is started with to run a command, or why it is not.
pub fn windows_command(command: &Vec<String>) -> (argument: Result<String, String>)
    ensures
        match argument {
            Ok(text) => !is_unquotable(texts(command@)) && text@ == " /D /S /C \""@ + command_line(
                texts(command@),
            ) + "\""@,
            Err(message) => is_unquotable(texts(command@)) && message@ == REFUSED_MESSAGE@,
        },
{
    match windows_command_line(command) {
        Ok(line) => Ok(concat(concat(" /D /S /C \"", line.as_str()).as_str(), "\"")),
        Err(message) => Err(message),
    }
}

/// The first argument of a line that stands behind its opening quote, and what follows
/// the closing quote.
pub open spec fn take_argument(line: Seq<char>) -> (Seq<char>, Seq<char>)
    decreases line.len(),
{
    if line.len() == 0 {
        (seq![], seq![])
    } else if line[0] == '"' {
        (seq![], line.skip(1))
    } else if line[0] == '^' && line.len() > 1 {
        let rest = take_argument(line.skip(2));
        (seq![line[1]] + rest.0, rest.1)
    } else {
        let rest = take_argument(line.skip(1));
        (seq![line[0]] + rest.0, rest.1)
    }
}

/// An argument is read back from its quoted form, whatever follows.
pub proof fn law_quoting_is_undone(argument: Seq<char>, rest: Seq<char>)
    ensures
        take_argument(escaped(argument) + seq!['"'] + rest) == (argument, rest),
    decreases argument.len(),
{
    let line = escaped(argument) + seq!['"'] + rest;
    if argument.len() == 0 {
        assert(line.skip(1) =~= rest);
        assert(argument =~= Seq::<char>::empty());
    } else {
        let c = argument[0];
        let tail = argument.drop_first();
        let short = escaped(tail) + seq!['"'] + rest;
        law_quoting_is_undone(tail, rest);
        assert(line =~= escaped_char(c) + short);
        if c == '"' || c == '^' {
            assert(line[0] == '^' && line[1] == c);
            assert(line.skip(2) =~= short);
        } else {
            assert(line[0] == c);
            assert(line.skip(1) =~= short);
        }
        assert(seq![c] + tail =~= argument);
    }
}

/// Two arguments with the same quoted form are the same.
pub proof fn law_quoting_is_unambiguous(left: Seq<char>, right: Seq<char>)
    requires
        quoted(left) == quoted(right),
    ensures
        left == right,
{
    law_quoting_is_undone(left, seq![]);
    law_quoting_is_undone(right, seq![]);
    assert(escaped(left) + seq!['"'] + Seq::<char>::empty() =~= quoted(left).skip(1));
    assert(escaped(right) + seq!['"'] + Seq::<char>::empty() =~= quoted(right).skip(1));
}

/// The arguments of a command line: what stands in quotes, one space apart.
pub open spec fn split_line(line: Seq<char>) -> Seq<Seq<char>>
    decreases line.len(),
{
    if line.len() == 0 {
        seq![]
    } else {
        proof {
            lemma_take_argument(line.skip(1));
        }
        let (argument, rest) = take_argument(line.skip(1));
        seq![argument] + split_line(
            if rest.len() > 0 {
                rest.skip(1)
            } else {
                rest
            },
        )
    }
}

/// What follows an argument is not longer than the line.
pub proof fn lemma_take_argument(line: Seq<char>)
    ensures
        take_argument(line).1.len() <= line.len(),
    decreases line.len(),
{
    if line.len() > 0 && line[0] != '"' {
        if line[0] == '^' && line.len() > 1 {
            lemma_take_argument(line.skip(2));
        } else {
            lemma_take_argument(line.skip(1));
        }
    }
}

proof fn lemma_joined_from_front(parts: Seq<Seq<char>>, separator: Seq<char>)
    requires
        parts.len() > 1,
    ensures
        joined(parts, separator) == parts[0] + separator + joined(parts.drop_first(), separator),
    decreases parts.len(),
{
    let rest = parts.drop_first();
    if parts.len() == 2 {
        assert(joined(parts.drop_last(), separator) == parts[0]);
        assert(joined(rest, separator) == parts[1]);
    } else {
        lemma_joined_from_front(parts.drop_last(), separator);
        assert(parts.drop_last().drop_first() =~= rest.drop_last());
        assert(joined(parts, separator) =~= parts[0] + separator + joined(rest, separator));
    }
}

/// The arguments of a command are read back from its command line.
pub proof fn law_command_line_read_back(command: Seq<Seq<char>>)
    ensures
        split_line(command_line(command)) == command,
    decreases command.len(),
{
    reveal_strlit(" ");
    let parts = all_quoted(command);
    let line = command_line(command);
    if command.len() == 0 {
        assert(line =~= Seq::<char>::empty());
        assert(command =~= Seq::<Seq<char>>::empty());
    } else {
        let tail = command.drop_first();
        law_command_line_read_back(tail);
        assert(all_quoted(tail) =~= parts.drop_first());
        let rest = if command.len() == 1 {
            seq![]
        } else {
            seq![' '] + command_line(tail)
        };
        if command.len() > 1 {
            lemma_joined_from_front(parts, " "@);
            assert(" "@ =~= seq![' ']);
        }
        assert(line =~= quoted(command[0]) + rest);
        assert(line.skip(1) =~= escaped(command[0]) + seq!['"'] + rest);
        law_quoting_is_undone(command[0], rest);
        if command.len() > 1 {
            assert(rest.skip(1) =~= command_line(tail));
        } else {
            assert(command_line(tail) =~= Seq::<char>::empty());
        }
        assert(seq![command[0]] + tail =~= command);
    }
}

/// A letter as its small form, if it is one of the basic alphabet.
pub open spec fn small(c: char) -> char {
    if 'A' <= c <= 'Z' {
        (c as int + 32) as char
    } else {
        c
    }
}

/// Whether two texts differ at most in the case of basic letters.
pub open spec fn same_but_for_case(left: Seq<char>, right: Seq<char>) -> bool {
    left.len() == right.len() && forall|i: int|
        0 <= i < left.len() ==> small(#[trigger] left[i]) == small(right[i])
}

fn to_small(c: char) -> (lower: char)
    ensures
        lower == small(c),
{
    if 'A' <= c && c <= 'Z' {
        (c as u8 + 32) as char
    } else {
        c
    }
}

/// Whether two texts differ at most in the case of basic letters.
pub fn eq_ignore_ascii_case(left: &str, right: &str) -> (same: bool)
    ensures
        same == same_but_for_case(left@, right@),
{
    let a = chars_of(left);
    let b = chars_of(right);
    if a.len() != b.len() {
        return false;
    }
    let mut i: usize = 0;
    while i < a.len()
        invariant
            i <= a@.len(),
            a@ == left@,
            b@ == right@,
            a@.len() == b@.len(),
            forall|j: int| 0 <= j < i ==> small(#[trigger] left@[j]) == small(right@[j]),
        decreases a@.len() - i,
    {
        if to_small(a[i]) != to_small(b[i]) {
            assert(small(left@[i as int]) != small(right@[i as int]));
            return false;
        }
        i += 1;
    }
    true
}

/// The extensions of programs that a list of them names, in order.
pub open spec fn listed_extensions(parts: Seq<Seq<char>>) -> Seq<Seq<char>>
    decreases parts.len(),
{
    if parts.len() == 0 {
        seq![]
    } else {
        let before = listed_extensions(parts.drop_last());
        let extension = trimmed(parts.last());
        if extension.len() > 0 {
            before.push(extension)
        } else {
            before
        }
    }
}

/// The extensions that the system takes for those of programs.
pub open spec fn program_extensions(pathext: Seq<char>) -> Seq<Seq<char>> {
    listed_extensions(pieces(pathext, ';'))
}

fn split_pieces(text: &str, separator: char) -> (parts: Vec<String>)
    ensures
        texts(parts@) == pieces(text@, separator),
{
    let chars = chars_of(text);
    let mut parts: Vec<String> = Vec::new();
    let mut piece = String::new();
    let mut i: usize = 0;
    assert(texts(parts@).push(piece@) =~= pieces(chars@.take(0), separator));
    while i < chars.len()
        invariant
            i <= chars@.len(),
            texts(parts@).push(piece@) == pieces(chars@.take(i as int), separator),
        decreases chars@.len() - i,
    {
        let ghost before = parts@;
        let ghost done = texts(parts@).push(piece@);
        assert(chars@.take(i + 1).drop_last() =~= chars@.take(i as int));
        assert(done.drop_last() =~= texts(before));
        if chars[i] == separator {
            parts.push(piece);
            piece = String::new();
            assert(texts(parts@) =~= done);
            assert(texts(parts@).push(piece@) =~= done.push(seq![]));
        } else {
            piece.push(chars[i]);
        }
        i += 1;
    }
    assert(chars@.take(i as int) =~= chars@);
    let ghost before = parts@;
    parts.push(piece);
    assert(texts(parts@) =~= texts(before).push(piece@));
    parts
}

/// The extensions that the system takes for those of programs.
pub fn split_extensions(pathext: &str) -> (extensions: Vec<String>)
    ensures
        texts(extensions@) == program_extensions(pathext@),
{
    let parts = split_pieces(pathext, ';');
    let mut extensions: Vec<String> = Vec::new();
    let mut i: usize = 0;
    assert(texts(extensions@) =~= Seq::<Seq<char>>::empty());
    while i < parts.len()
        invariant
            i <= parts@.len(),
            texts(extensions@) == listed_extensions(texts(parts@).take(i as int)),
        decreases parts@.len() - i,
    {
        let ghost before = extensions@;
        assert(texts(parts@).take(i + 1).drop_last() =~= texts(parts@).take(i as int));
        let extension = trim(parts[i].as_str());
        if !extension.as_str().is_empty() {
            extensions.push(extension);
            assert(texts(extensions@) =~= texts(before).push(extension@));
        }
        i += 1;
    }
    assert(texts(parts@).take(i as int) =~= texts(parts@));
    extensions
}

/// The names of the files that can be a program, in the order in which each directory
/// is searched for them.
pub fn program_candidates(program: &str, pathext: &str) -> (names: Vec<String>)
    ensures
        texts(names@) == program_extensions(pathext@).map_values(
            |extension: Seq<char>| program@ + extension,
        ),
{
    let extensions = split_extensions(pathext);
    let ghost wanted = program_extensions(pathext@).map_values(
        |extension: Seq<char>| program@ + extension,
    );
    let mut names: Vec<String> = Vec::new();
    let mut i: usize = 0;
    while i < extensions.len()
        invariant
            i <= extensions@.len(),
            texts(extensions@) == program_extensions(pathext@),
            names@.len() == i,
            forall|j: int|
                0 <= j < i ==> (#[trigger] names@[j])@ == program@ + texts(extensions@)[j],
        decreases extensions@.len() - i,
    {
        names.push(concat(program, extensions[i].as_str()));
        i += 1;
    }
    assert(texts(names@) =~= wanted);
    names
}

/// Whether an extension, with its dot or without it, is that of a batch file.
pub open spec fn is_batch_extension(extension: Seq<char>, dotted: bool) -> bool {
    if dotted {
        same_but_for_case(extension, ".cmd"@) || same_but_for_case(extension, ".bat"@)
    } else {
        same_but_for_case(extension, "cmd"@) || same_but_for_case(extension, "bat"@)
    }
}

/// The first column at which a row of findings is true, among `extensions` of them.
pub open spec fn first_found(row: Seq<bool>, extensions: nat, from: int) -> Option<int>
    decreases extensions - from,
{
    if from < 0 || from >= extensions || from >= row.len() {
        None
    } else if row[from] {
        Some(from)
    } else {
        first_found(row, extensions, from + 1)
    }
}

/// Whether a search, directory by directory and in each extension by extension, first
/// comes upon a batch file.
pub open spec fn finds_batch_file(rows: Seq<Vec<bool>>, extensions: Seq<Seq<char>>) -> bool
    decreases rows.len(),
{
    if rows.len() == 0 {
        false
    } else {
        match first_found(rows[0]@, extensions.len(), 0) {
            Some(column) => is_batch_extension(extensions[column], true),
            None => finds_batch_file(rows.drop_first(), extensions),
        }
    }
}

/// Whether a command is that of a batch file, given the extension of its program.
/// `found` tells for each directory that is searched, and for each extension of
/// programs, whether there is such a file.
pub open spec fn is_batch_command(
    command: Seq<Seq<char>>,
    extension: Option<Seq<char>>,
    found: Seq<Vec<bool>>,
    pathext: Seq<char>,
) -> bool {
    if command.len() == 0 {
        false
    } else {
        match extension {
            Some(e) => is_batch_extension(e, false),
            None => !command[0].contains('/') && !command[0].contains('\\') && finds_batch_file(
                found,
                program_extensions(pathext),
            ),
        }
    }
}

fn batch_extension(extension: &str, dotted: bool) -> (batch: bool)
    ensures
        batch == is_batch_extension(extension@, dotted),
{
    if dotted {
        eq_ignore_ascii_case(extension, ".cmd") || eq_ignore_ascii_case(extension, ".bat")
    } else {
        eq_ignore_ascii_case(extension, "cmd") || eq_ignore_ascii_case(extension, "bat")
    }
}

fn find_in_row(row: &Vec<bool>, extensions: usize) -> (column: Option<usize>)
    ensures
        match column {
            Some(c) => first_found(row@, extensions as nat, 0) == Some(c as int) && c < extensions,
            None => first_found(row@, extensions as nat, 0) is None,
        },
{
    let mut i: usize = 0;
    while i < row.len() && i < extensions
        invariant
            i <= row@.len(),
            i <= extensions,
            first_found(row@, extensions as nat, 0) == first_found(
                row@,
                extensions as nat,
                i as int,
            ),
        decreases row@.len() - i,
    {
        if row[i] {
            return Some(i);
        }
        i += 1;
    }
    None
}

/// Whether a search first comes upon a batch file.
pub fn search_finds_batch_file(found: &Vec<Vec<bool>>, extensions: &Vec<String>) -> (batch: bool)
    ensures
        batch == finds_batch_file(found@, texts(extensions@)),
{
    let mut i: usize = 0;
    assert(found@.skip(0) =~= found@);
    while i < found.len()
        invariant
            i <= found@.len(),
            finds_batch_file(found@, texts(extensions@)) == finds_batch_file(
                found@.skip(i as int),
                texts(extensions@),
            ),
        decreases found@.len() - i,
    {
        assert(found@.skip(i as int).drop_first() =~= found@.skip(i + 1));
        if let Some(column) = find_in_row(&found[i], extensions.len()) {
            return batch_extension(extensions[column].as_str(), true);
        }
        i += 1;
    }
    false
}

/// Whether a command is that of a batch file, given the extension of its program.
pub fn is_windows_shim(
    command: &Vec<String>,
    extension: Option<String>,
    found: &Vec<Vec<bool>>,
    pathext: &str,
) -> (shim: bool)
    ensures
        shim == is_batch_command(texts(command@), text_view(extension), found@, pathext@),
{
    if command.len() == 0 {
        return false;
    }
    if let Some(extension) = extension {
        return batch_extension(extension.as_str(), false);
    }
    let program = chars_of(command[0].as_str());
    if contains_char(program.as_slice(), '/') || contains_char(program.as_slice(), '\\') {
        return false;
    }
    let extensions = split_extensions(pathext);
    search_finds_batch_file(found, &extensions)
}

/// Whether a command is that of a batch file. A program that is named with its
/// extension goes by that; one that is named bare is searched for.
pub fn is_windows_shim_with_env(
    command: &Vec<String>,
    found: &Vec<Vec<bool>>,
    pathext: &str,
) -> (shim: bool)
    ensures
        if command@.len() == 0 {
            !shim
        } else {
            exists|extension: Option<Seq<char>>| #[trigger]
                program_extension_outcome(command@[0]@, extension) && shim == is_batch_command(
                    texts(command@),
                    extension,
                    found@,
                    pathext@,
                )
        },
{
    if command.len() == 0 {
        return false;
    }
    let extension = program_extension(command[0].as_str());
    assert(program_extension_outcome(command@[0]@, text_view(extension)));
    is_windows_shim(command, extension, found, pathext)
}

/// What to do about a command that could not be started directly.
#[derive(Debug)]
pub enum SpawnRetry {
    /// Report why the direct start failed.
    GiveUp,
    /// Report that the command cannot go through the command interpreter.
    Refuse(String),
    /// Start the command interpreter with this argument.
    Interpret(String),
}

/// What to do about a command that could not be started directly: only a batch file
/// goes through the command interpreter.
pub fn spawn_windows_command(command: &Vec<String>, shim: bool) -> (retry: SpawnRetry)
    ensures
        match retry {
            SpawnRetry::GiveUp => !shim,
            SpawnRetry::Refuse(message) => shim && is_unquotable(texts(command@)) && message@
                == REFUSED_MESSAGE@,
            SpawnRetry::Interpret(argument) => shim && !is_unquotable(texts(command@))
                && argument@ == " /D /S /C \""@ + command_line(texts(command@)) + "\""@,
        },
{
    if !shim {
        return SpawnRetry::GiveUp;
    }
    match windows_command(command) {
        Ok(argument) => SpawnRetry::Interpret(argument),
        Err(message) => SpawnRetry::Refuse(message),
    }
}

/// The first file that a search comes upon decides, directory by directory and in each
/// extension by extension: it is a batch file exactly by its extension. Directories
/// without a finding in front of it make no difference, and without any there is none.
pub proof fn law_first_finding_decides(
    rows: Seq<Vec<bool>>,
    extensions: Seq<Seq<char>>,
    r: int,
    c: int,
)
    requires
        0 <= r <= rows.len(),
        forall|i: int, j: int|
            0 <= i < r && 0 <= j < extensions.len() && j < rows[i]@.len()
                ==> !#[trigger] rows[i]@[j],
        r < rows.len() ==> 0 <= c < extensions.len() && c < rows[r]@.len() && rows[r]@[c] && forall|
            j: int,
        |
            0 <= j < c ==> !#[trigger] rows[r]@[j],
    ensures
        finds_batch_file(rows, extensions) <==> (r < rows.len() && (same_but_for_case(
            extensions[c],
            seq!['.', 'c', 'm', 'd'],
        ) || same_but_for_case(extensions[c], seq!['.', 'b', 'a', 't']))),
    decreases rows.len(),
{
    reveal_strlit(".cmd");
    reveal_strlit(".bat");
    assert(".cmd"@ =~= seq!['.', 'c', 'm', 'd']);
    assert(".bat"@ =~= seq!['.', 'b', 'a', 't']);
    if rows.len() > 0 {
        if r == 0 {
            lemma_first_found(rows[0]@, extensions.len(), 0, c);
        } else {
            lemma_nothing_found(rows[0]@, extensions.len(), 0);
            let rest = rows.drop_first();
            assert forall|i: int, j: int|
                0 <= i < r - 1 && 0 <= j < extensions.len() && j < rest[i]@.len() implies
                !#[trigger] rest[i]@[j] by {
                assert(rest[i] == rows[i + 1]);
                assert(!rows[i + 1]@[j]);
            }
            if r < rows.len() {
                assert(rest[r - 1] == rows[r]);
            }
            law_first_finding_decides(rest, extensions, r - 1, c);
        }
    }
}

proof fn lemma_first_found(row: Seq<bool>, extensions: nat, from: int, c: int)
    requires
        0 <= from <= c < extensions,
        c < row.len(),
        row[c],
        forall|j: int| from <= j < c ==> !#[trigger] row[j],
    ensures
        first_found(row, extensions, from) == Some(c),
    decreases c - from,
{
    if from < c {
        assert(!row[from]);
        lemma_first_found(row, extensions, from + 1, c);
    }
}

proof fn lemma_nothing_found(row: Seq<bool>, extensions: nat, from: int)
    requires
        0 <= from,
        forall|j: int| from <= j < extensions && j < row.len() ==> !#[trigger] row[j],
    ensures
        first_found(row, extensions, from) is None,
    decreases extensions - from,
{
    if from < extensions && from < row.len() {
        assert(!row[from]);
        lemma_nothing_found(row, extensions, from + 1);
    }
}

/// Directories without a finding in front make no difference to a search.
pub proof fn law_empty_directories_are_passed_over(
    before: Seq<Vec<bool>>,
    rows: Seq<Vec<bool>>,
    extensions: Seq<Seq<char>>,
)
    requires
        forall|i: int, j: int|
            0 <= i < before.len() && 0 <= j < extensions.len() && j < before[i]@.len()
                ==> !#[trigger] before[i]@[j],
    ensures
        finds_batch_file(before + rows, extensions) == finds_batch_file(rows, extensions),
    decreases before.len(),
{
    let all = before + rows;
    if before.len() == 0 {
        assert(all =~= rows);
    } else {
        lemma_nothing_found(before[0]@, extensions.len(), 0);
        let rest = before.drop_first();
        assert forall|i: int, j: int|
            0 <= i < rest.len() && 0 <= j < extensions.len() && j < rest[i]@.len() implies
            !#[trigger] rest[i]@[j] by {
            assert(rest[i] == before[i + 1]);
            assert(!before[i + 1]@[j]);
        }
        law_empty_directories_are_passed_over(rest, rows, extensions);
        assert(all.drop_first() =~= rest + rows);
        assert(all[0] == before[0]);
    }
}

/// Two letters are the same but for case if they are the same, or one is the capital of
/// the other in the basic alphabet.
pub proof fn law_same_but_for_case(left: Seq<char>, right: Seq<char>)
    ensures
        same_but_for_case(left, right) <==> (left.len() == right.len() && forall|i: int|
            0 <= i < left.len() ==> {
                ||| #[trigger] left[i] == right[i]
                ||| 'A' <= left[i] <= 'Z' && right[i] as int == left[i] as int + 32
                ||| 'A' <= right[i] <= 'Z' && left[i] as int == right[i] as int + 32
            }),
{
    assert forall|a: char, b: char|
        #![trigger small(a), small(b)]
        small(a) == small(b) <==> {
            ||| a == b
            ||| 'A' <= a <= 'Z' && b as int == a as int + 32
            ||| 'A' <= b <= 'Z' && a as int == b as int + 32
        } by {
        lemma_small(a);
        lemma_small(b);
    }
}

proof fn lemma_small(c: char)
    ensures
        'A' <= c <= 'Z' ==> small(c) as int == c as int + 32,
        !('A' <= c <= 'Z') ==> small(c) == c,
{
}

/// The extension of a batch file is `cmd` or `bat`, in letters of any case.
pub proof fn law_batch_extension(extension: Seq<char>)
    ensures
        is_batch_extension(extension, false) <==> (same_but_for_case(extension, seq!['c', 'm', 'd'])
            || same_but_for_case(extension, seq!['b', 'a', 't'])),
        is_batch_extension(seq!['.'] + extension, true) <==> is_batch_extension(extension, false),
        extension.len() > 0 && extension[0] != '.' ==> !is_batch_extension(extension, true),
{
    reveal_strlit("cmd");
    reveal_strlit("bat");
    reveal_strlit(".cmd");
    reveal_strlit(".bat");
    assert("cmd"@ =~= seq!['c', 'm', 'd']);
    assert("bat"@ =~= seq!['b', 'a', 't']);
    lemma_dotted(extension, "cmd"@);
    lemma_dotted(extension, "bat"@);
    assert(".cmd"@ =~= seq!['.'] + "cmd"@);
    assert(".bat"@ =~= seq!['.'] + "bat"@);
    if extension.len() > 0 && extension[0] != '.' {
        lemma_small(extension[0]);
        assert(small('.') == '.');
        if same_but_for_case(extension, ".cmd"@) {
            assert(small(extension[0]) == small(".cmd"@[0]));
        }
        if same_but_for_case(extension, ".bat"@) {
            assert(small(extension[0]) == small(".bat"@[0]));
        }
    }
}

proof fn lemma_dotted(left: Seq<char>, right: Seq<char>)
    ensures
        same_but_for_case(seq!['.'] + left, seq!['.'] + right) <==> same_but_for_case(left, right),
{
    let l = seq!['.'] + left;
    let r = seq!['.'] + right;
    if same_but_for_case(l, r) {
        assert forall|i: int| 0 <= i < left.len() implies small(#[trigger] left[i]) == small(
            right[i],
        ) by {
            assert(l[i + 1] == left[i]);
            assert(r[i + 1] == right[i]);
            assert(small(l[i + 1]) == small(r[i + 1]));
        }
    }
    if same_but_for_case(left, right) {
        assert forall|i: int| 0 <= i < l.len() implies small(#[trigger] l[i]) == small(r[i]) by {
            if i > 0 {
                assert(l[i] == left[i - 1]);
                assert(r[i] == right[i - 1]);
                assert(small(left[i - 1]) == small(right[i - 1]));
            }
        }
    }
}

/// A program that is named with an extension goes by that; one that is named with a
/// directory and without an extension is no batch file; a bare one is searched for.
pub proof fn law_batch_command(
    command: Seq<Seq<char>>,
    extension: Option<Seq<char>>,
    found: Seq<Vec<bool>>,
    pathext: Seq<char>,
)
    ensures
        command.len() == 0 ==> !is_batch_command(command, extension, found, pathext),
        command.len() > 0 && extension is Some ==> (is_batch_command(
            command,
            extension,
            found,
            pathext,
        ) <==> is_batch_extension(extension->0, false)),
        command.len() > 0 && extension is None && (command[0].contains('/') || command[0].contains(
            '\\',
        )) ==> !is_batch_command(command, extension, found, pathext),
        command.len() > 0 && extension is None && !command[0].contains('/') && !command[0].contains(
            '\\',
        ) ==> (is_batch_command(command, extension, found, pathext) <==> finds_batch_file(
            found,
            program_extensions(pathext),
        )),
{
}

/// The extensions of programs are listed in order, without the white space around them
/// and without those that are blank.
pub proof fn law_extensions_are_listed_in_order(left: Seq<Seq<char>>, right: Seq<Seq<char>>)
    ensures
        listed_extensions(left + right) == listed_extensions(left) + listed_extensions(right),
        left.len() == 1 && trimmed(left[0]).len() > 0 ==> listed_extensions(left) == seq![
            trimmed(left[0]),
        ],
        left.len() == 1 && trimmed(left[0]).len() == 0 ==> listed_extensions(left).len() == 0,
    decreases right.len(),
{
    reveal_with_fuel(listed_extensions, 2);
    let all = left + right;
    if right.len() == 0 {
        assert(all =~= left);
    } else {
        law_extensions_are_listed_in_order(left, right.drop_last());
        assert(all.drop_last() =~= left + right.drop_last());
        assert(all.last() == right.last());
    }
    assert(listed_extensions(all) =~= listed_extensions(left) + listed_extensions(right));
    if left.len() == 1 && trimmed(left[0]).len() > 0 {
        assert(listed_extensions(left) =~= seq![trimmed(left[0])]);
    }
}

/// The list of extensions is divided at semicolons.
pub proof fn law_extensions_are_divided_at_semicolons(pathext: Seq<char>)
    ensures
        program_extensions(pathext) == listed_extensions(pieces(pathext, ';')),
        joined(pieces(pathext, ';'), seq![';']) == pathext,
{
    law_pieces_make_the_text(pathext, ';');
}

/// Text is quoted character by character: quotes and carets behind a caret, all others as
/// they are.
pub proof fn law_quoting_character_by_character(left: Seq<char>, right: Seq<char>, c: char)
    ensures
        escaped(left + right) == escaped(left) + escaped(right),
        c == '"' || c == '^' ==> escaped(seq![c]) == seq!['^', c],
        c != '"' && c != '^' ==> escaped(seq![c]) == seq![c],
        quoted(left) == seq!['"'] + escaped(left) + seq!['"'],
    decreases left.len(),
{
    reveal_with_fuel(escaped, 2);
    assert(seq![c].drop_first() =~= Seq::<char>::empty());
    assert(escaped(seq![c]) =~= escaped_char(c));
    let all = left + right;
    if left.len() == 0 {
        assert(all =~= right);
    } else {
        law_quoting_character_by_character(left.drop_first(), right, c);
        assert(all.drop_first() =~= left.drop_first() + right);
        assert(all[0] == left[0]);
    }
    assert(escaped(all) =~= escaped(left) + escaped(right));
}

/// The arguments of a command line stand in quotes, a space between each two.
pub proof fn law_arguments_stand_in_quotes(left: Seq<Seq<char>>, right: Seq<Seq<char>>)
    ensures
        left.len() == 1 ==> command_line(left) == quoted(left[0]),
        left.len() > 0 && right.len() > 0 ==> command_line(left + right) == command_line(left)
            + seq![' '] + command_line(right),
{
    reveal_strlit(" ");
    assert(" "@ =~= seq![' ']);
    assert(all_quoted(left + right) =~= all_quoted(left) + all_quoted(right));
    law_joined_in_places(all_quoted(left), all_quoted(right), " "@);
}

/// A command cannot be quoted exactly if some argument holds a percent sign, an
/// exclamation mark or a line end.
pub proof fn law_unquotable_commands(command: Seq<Seq<char>>)
    ensures
        is_unquotable(command) <==> exists|i: int|
            0 <= i < command.len() && ((#[trigger] command[i]).contains('%')
                || command[i].contains('!') || command[i].contains('\r') || command[i].contains(
                '\n',
            )),
{
    if is_unquotable(command) {
        let i = choose|i: int| 0 <= i < command.len() && has_refused(#[trigger] command[i]);
        let j = choose|j: int| 0 <= j < command[i].len() && is_refused(#[trigger] command[i][j]);
        assert(command[i].contains(command[i][j]));
    }
    if exists|i: int|
        0 <= i < command.len() && ((#[trigger] command[i]).contains('%') || command[i].contains('!')
            || command[i].contains('\r') || command[i].contains('\n')) {
        let i = choose|i: int|
            0 <= i < command.len() && ((#[trigger] command[i]).contains('%')
                || command[i].contains('!') || command[i].contains('\r') || command[i].contains(
                '\n',
            ));
        let argument = command[i];
        let c = if argument.contains('%') {
            '%'
        } else if argument.contains('!') {
            '!'
        } else if argument.contains('\r') {
            '\r'
        } else {
            '\n'
        };
        let j = choose|j: int| 0 <= j < argument.len() && argument[j] == c;
        assert(is_refused(argument[j]));
        assert(has_refused(command[i]));
    }
}

} // verus!
