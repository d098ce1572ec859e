//! Paths of session stores.

use std::path::PathBuf;

use vstd::prelude::*;

use crate::text::{
    chars_of, find_last, join, last_index, lemma_last_index, occurs_at, same_text, string_of,
    text_view, texts,
};

verus! {

/// A path of the file system, carried only.
#[verifier::external_type_specification]
#[verifier::external_body]
pub struct ExPathBuf(PathBuf);

/// The clone of a `std::path::PathBuf` is the same path.
pub assume_specification[ <std::path::PathBuf as Clone>::clone ](
    path: &std::path::PathBuf,
) -> (copy: std::path::PathBuf)
    ensures
        copy == *path,
;

/// A path below a directory, which is carried only: the names that lead down from it.
/// The names of the directory itself are no names of the path.
pub struct FsPath {
    base: PathBuf,
    names: Vec<String>,
}

#[verifier::ext_equal]
pub struct FsPathView {
    pub base: PathBuf,
    pub names: Seq<Seq<char>>,
}

impl View for FsPath {
    type V = FsPathView;

    closed spec fn view(&self) -> FsPathView {
        FsPathView { base: self.base, names: texts(self.names@) }
    }
}

/// The name that stands `up` levels above the last one, if there is one. Two dots,
/// which lead up, are no name.
pub open spec fn name_above(path: FsPathView, up: int) -> Option<Seq<char>> {
    if 0 <= up < path.names.len() && path.names[path.names.len() - 1 - up] != ".."@ {
        Some(path.names[path.names.len() - 1 - up])
    } else {
        None
    }
}

/// Where the extension of a file name begins: behind its last dot, unless that is
/// the first character. Two dots have none.
pub open spec fn extension_dot(name: Seq<char>) -> Option<int> {
    match last_index(name, '.', name.len() as int) {
        Some(dot) => if dot == 0 || name == ".."@ {
            None
        } else {
            Some(dot)
        },
        None => None,
    }
}

/// The part of a file name behind its last dot. A dot that begins the name does
/// not count.
pub open spec fn extension_of(name: Seq<char>) -> Option<Seq<char>> {
    match extension_dot(name) {
        Some(dot) => Some(name.skip(dot + 1)),
        None => None,
    }
}

/// A file name without its extension.
pub open spec fn stem_of(name: Seq<char>) -> Seq<char> {
    match extension_dot(name) {
        Some(dot) => name.take(dot),
        None => name,
    }
}

/// The extension of the last name of a path.
pub open spec fn path_extension(path: FsPathView) -> Option<Seq<char>> {
    match name_above(path, 0) {
        Some(name) => extension_of(name),
        None => None,
    }
}

/// The last name of a path without its extension.
pub open spec fn path_stem(path: FsPathView) -> Option<Seq<char>> {
    match name_above(path, 0) {
        Some(name) => Some(stem_of(name)),
        None => None,
    }
}

/// The path `name` below `path`. A single dot leads nowhere else, nor does nothing.
pub open spec fn below(path: FsPathView, name: Seq<char>) -> FsPathView {
    if name == "."@ || name.len() == 0 {
        path
    } else {
        FsPathView { base: path.base, names: path.names.push(name) }
    }
}

fn find_extension_dot(name: &[char]) -> (place: Option<usize>)
    ensures
        match place {
            Some(dot) => extension_dot(name@) == Some(dot as int) && 0 < dot < name@.len(),
            None => extension_dot(name@) is None,
        },
{
    proof {
        reveal_strlit("..");
    }
    let two_dots = name.len() == 2 && name[0] == '.' && name[1] == '.';
    assert(two_dots == (name@ =~= ".."@));
    match find_last(name, '.') {
        Some(dot) => if dot == 0 || two_dots {
            None
        } else {
            Some(dot)
        },
        None => None,
    }
}

/// The extension of a file name.
pub fn name_extension(name: &str) -> (extension: Option<String>)
    ensures
        match extension {
            Some(e) => extension_of(name@) == Some(e@),
            None => extension_of(name@) is None,
        },
{
    let chars = chars_of(name);
    let count = chars.len();
    match find_extension_dot(chars.as_slice()) {
        Some(dot) => {
            assert(chars@.skip(dot + 1) =~= chars@.subrange(dot + 1, chars@.len() as int));
            Some(string_of(chars.as_slice(), dot + 1, count))
        },
        None => None,
    }
}

/// A file name without its extension.
pub fn name_stem(name: &str) -> (stem: String)
    ensures
        stem@ == stem_of(name@),
{
    let chars = chars_of(name);
    match find_extension_dot(chars.as_slice()) {
        Some(dot) => {
            assert(chars@.take(dot as int) =~= chars@.subrange(0, dot as int));
            string_of(chars.as_slice(), 0, dot)
        },
        None => name.to_owned(),
    }
}

impl Clone for FsPath {
    fn clone(&self) -> (copy: Self)
        ensures
            copy@ == self@,
    {
        let mut names: Vec<String> = Vec::new();
        let mut i: usize = 0;
        while i < self.names.len()
            invariant
                i <= self.names@.len(),
                names@ == self.names@.take(i as int),
            decreases self.names@.len() - i,
        {
            names.push(self.names[i].clone());
            i += 1;
        }
        assert(names@ =~= self.names@);
        FsPath { base: self.base.clone(), names }
    }
}

impl FsPath {
    /// The path of the place itself.
    pub fn at(base: PathBuf) -> (path: Self)
        ensures
            path@ == (FsPathView { base, names: seq![] }),
    {
        let path = FsPath { base, names: Vec::new() };
        assert(texts(path.names@) =~= Seq::<Seq<char>>::empty());
        path
    }

    /// The path `name` below this one.
    pub fn join(&self, name: &str) -> (path: Self)
        ensures
            path@ == below(self@, name@),
    {
        let mut path = self.clone();
        if same_text(name, ".") || name.is_empty() {
            return path;
        }
        let ghost before = path.names@;
        path.names.push(name.to_owned());
        assert(texts(path.names@) =~= texts(before).push(name@));
        path
    }

    /// The place from which the names lead down.
    pub fn base(&self) -> (base: &PathBuf)
        ensures
            *base == self@.base,
    {
        &self.base
    }

    /// The names that lead down from the place.
    pub fn names(&self) -> (names: &Vec<String>)
        ensures
            texts(names@) == self@.names,
    {
        &self.names
    }

    /// The name `up` levels above the last one.
    pub fn name_above(&self, up: usize) -> (name: Option<&String>)
        ensures
            match name {
                Some(n) => name_above(self@, up as int) == Some(n@),
                None => name_above(self@, up as int) is None,
            },
    {
        let count = self.names.len();
        if up < count && !same_text(self.names[count - 1 - up].as_str(), "..") {
            Some(&self.names[count - 1 - up])
        } else {
            None
        }
    }

    /// The extension of the last name.
    pub fn extension(&self) -> (extension: Option<String>)
        ensures
            match extension {
                Some(e) => path_extension(self@) == Some(e@),
                None => path_extension(self@) is None,
            },
    {
        match self.name_above(0) {
            Some(name) => name_extension(name.as_str()),
            None => None,
        }
    }

    /// The last name without its extension.
    pub fn file_stem(&self) -> (stem: Option<String>)
        ensures
            match stem {
                Some(s) => path_stem(self@) == Some(s@),
                None => path_stem(self@) is None,
            },
    {
        match self.name_above(0) {
            Some(name) => Some(name_stem(name.as_str())),
            None => None,
        }
    }

    /// Whether the extension of the last name is `extension`.
    pub fn has_extension(&self, extension: &str) -> (has: bool)
        ensures
            has == (path_extension(self@) == Some(extension@)),
    {
        match self.extension() {
            Some(found) => same_text(found.as_str(), extension),
            None => false,
        }
    }
}

pub open spec fn is_separator(c: char) -> bool {
    c == '/' || c == '\\'
}

/// Whether a path can be absolute, or relative: one that begins neither with a separator
/// nor with a drive and a separator is relative.
pub open spec fn absolute_outcome(path: Seq<char>, absolute: bool) -> bool {
    absolute ==> (path.len() > 0 && is_separator(path[0])) || (path.len() > 2 && path[1] == ':'
        && is_separator(path[2]))
}

/// Calls `std::path::Path::is_absolute`. An absolute path begins with its root, or with a
/// prefix and its root: a separator, or a drive and a separator. Which characters
/// separate, and whether there are prefixes, differ between systems; which of the paths
/// that begin so are absolute is left unsaid.
#[verifier::external_body]
pub(crate) fn is_absolute(path: &str) -> (absolute: bool)
    ensures
        absolute_outcome(path@, absolute),
{
    std::path::Path::new(path).is_absolute()
}

/// Whether `parent` is what is left of a path without its end.
pub open spec fn is_shortened(path: Seq<char>, parent: Seq<char>) -> bool {
    parent.is_prefix_of(path) && (path.len() > 0 ==> parent.len() < path.len())
}

/// The directory above a path, where it is the same on every system: slashes separate
/// the names, the last name is a name, and what stands before its slash ends in one too.
pub open spec fn plain_parent(path: Seq<char>) -> Option<Seq<char>> {
    if path.len() == 0 || path.contains('\\') || path.contains(':') || occurs_at(path, "//"@, 0) {
        None
    } else {
        match last_index(path, '/', path.len() as int) {
            Some(slash) => {
                let above = path.take(slash);
                let name = path.skip(slash + 1);
                if name.len() == 0 || name == "."@ {
                    None
                } else if slash == 0 {
                    Some(seq!['/'])
                } else if above.last() == '/' || (above.len() > 1 && above[above.len() - 2] == '/'
                    && above.last() == '.') {
                    None
                } else {
                    Some(above)
                }
            },
            None => Some(seq![]),
        }
    }
}

/// What can be the directory above a path.
pub open spec fn parent_outcome(path: Seq<char>, parent: Option<Seq<char>>) -> bool {
    match parent {
        Some(p) => path.len() > 0 && is_shortened(path, p) && (plain_parent(path) is Some ==> p
            == plain_parent(path)->0),
        None => plain_parent(path) is None,
    }
}

/// Calls `std::path::Path::parent` and shows the result as text: the path without its
/// last component, so a beginning of the path; the empty path has no parent. Where
/// slashes separate plain names, the parent is what stands before the last slash, the
/// root for a name at the root, and the empty path for a single name. How far the last
/// component reaches in other paths depends on separators, prefixes and roots, which
/// differ between systems, and is left unsaid.
#[verifier::external_body]
pub(crate) fn parent_directory(path: &str) -> (parent: Option<String>)
    ensures
        parent_outcome(path@, text_view(parent)),
{
    std::path::Path::new(path).parent().map(|parent| parent.display().to_string())
}

/// A plain parent is a beginning of the path.
pub proof fn lemma_plain_parent(path: Seq<char>)
    ensures
        plain_parent(path) matches Some(parent) ==> is_shortened(path, parent),
{
    lemma_last_index(path, '/', path.len() as int);
    if let Some(slash) = last_index(path, '/', path.len() as int) {
        if slash == 0 && plain_parent(path) is Some {
            assert(seq!['/'].is_prefix_of(path)) by {
                assert(path.take(1) =~= seq!['/']);
            }
        }
    }
}

/// The directory above a name is the one that the name was joined to.
pub proof fn law_parent_of_joined_name(above: Seq<char>, name: Seq<char>)
    requires
        above.len() > 0,
        above.last() != '/',
        !(above.len() > 1 && above[above.len() - 2] == '/' && above.last() == '.'),
        name.len() > 0,
        !name.contains('/'),
        name != "."@,
        !(above + seq!['/'] + name).contains('\\'),
        !(above + seq!['/'] + name).contains(':'),
        !occurs_at(above, "//"@, 0),
    ensures
        plain_parent(above + seq!['/'] + name) == Some(above),
{
    let path = above + seq!['/'] + name;
    let slash = above.len() as int;
    reveal_strlit("//");
    lemma_last_index(path, '/', path.len() as int);
    assert(path[slash] == '/');
    assert forall|i: int| slash < i < path.len() implies path[i] != '/' by {
        assert(path[i] == name[i - slash - 1]);
    }
    assert(last_index(path, '/', path.len() as int) == Some(slash));
    assert(path.take(slash) =~= above);
    assert(path.skip(slash + 1) =~= name);
    if occurs_at(path, "//"@, 0) {
        let two = path.subrange(0, 2);
        assert(two[0] == path[0] && two[1] == path[1]);
        assert(above.len() > 1) by {
            if above.len() == 1 {
                assert(above.last() == path[0]);
            }
        }
        assert(above.subrange(0, 2) =~= two);
    }
}

/// Where the last name of a program begins, among the characters before `end`.
pub open spec fn name_start(program: Seq<char>, end: int) -> int
    decreases end,
{
    if end <= 0 || end > program.len() {
        0
    } else if is_separator(program[end - 1]) || program[end - 1] == ':' {
        end
    } else {
        name_start(program, end - 1)
    }
}

/// The extension of a program, where it is the same on every system: that of a bare
/// name; the one of the last name behind separators or a drive, if it has one; and none
/// for a name behind a slash that has none.
pub open spec fn plain_extension(program: Seq<char>) -> Option<Option<Seq<char>>> {
    let start = name_start(program, program.len() as int);
    let name = program.skip(start);
    if name == ".."@ {
        None
    } else if start == 0 {
        Some(extension_of(program))
    } else if program.len() > 1 && is_separator(program[0]) && is_separator(program[1]) {
        None
    } else if extension_of(name) is Some {
        Some(extension_of(name))
    } else if program[start - 1] == '/' && name.len() > 0 && name != "."@ {
        Some(None)
    } else {
        None
    }
}

/// Extensions that a program can have.
pub open spec fn program_extension_outcome(
    program: Seq<char>,
    extension: Option<Seq<char>>,
) -> bool {
    plain_extension(program) is Some ==> extension == plain_extension(program)->0
}

/// Calls `std::path::Path::extension` on a path that is text: the part of its file name
/// behind the last dot, unless the name has no dot or begins with the only one. What
/// separates names differs between systems: for a last name without an extension behind
/// a backslash or a colon, for a path that ends in a separator or in dots, and for one
/// that begins with two separators, the answer is left unsaid.
#[verifier::external_body]
pub(crate) fn program_extension(program: &str) -> (extension: Option<String>)
    ensures
        program_extension_outcome(program@, text_view(extension)),
{
    std::path::Path::new(program).extension().map(|e| e.to_string_lossy().into_owned())
}

/// A name is its stem, a dot and its extension.
pub proof fn law_stem_and_extension(name: Seq<char>)
    ensures
        match extension_of(name) {
            Some(extension) => name == stem_of(name) + seq!['.'] + extension && stem_of(name).len()
                > 0 && !extension.contains('.'),
            None => name == stem_of(name),
        },
{
    lemma_last_index(name, '.', name.len() as int);
    if let Some(dot) = extension_dot(name) {
        assert(name =~= stem_of(name) + seq!['.'] + extension_of(name)->0);
        assert forall|i: int| 0 <= i < extension_of(name)->0.len() implies extension_of(name)->0[i]
            != '.' by {
            assert(extension_of(name)->0[i] == name[dot + 1 + i]);
        }
    }
}

/// A name has no extension only if it has no dot, or none but the first character, or is
/// two dots.
pub proof fn law_names_without_extensions(name: Seq<char>)
    ensures
        extension_of(name) is None <==> (name == seq!['.', '.'] || forall|i: int|
            0 < i < name.len() ==> #[trigger] name[i] != '.'),
{
    reveal_strlit("..");
    assert(".."@ =~= seq!['.', '.']);
    lemma_last_index(name, '.', name.len() as int);
}

/// Going down by a name and looking up again finds the name, and behind it what was found
/// before.
pub proof fn law_names_are_found_where_they_were_joined(
    path: FsPathView,
    name: Seq<char>,
    up: int,
)
    requires
        name.len() > 0 && name != seq!['.'],
        up >= 0,
    ensures
        below(path, name).base == path.base,
        name_above(below(path, name), up + 1) == name_above(path, up),
        name != seq!['.', '.'] ==> name_above(below(path, name), 0) == Some(name),
        name == seq!['.', '.'] ==> name_above(below(path, name), 0) is None,
        below(path, seq!['.']) == path,
        below(path, seq![]) == path,
{
    reveal_strlit(".");
    reveal_strlit("..");
    assert("."@ =~= seq!['.']);
    assert(".."@ =~= seq!['.', '.']);
}

/// The stem and the extension of a path are those of its last name.
pub proof fn law_last_name_counts(path: FsPathView)
    ensures
        name_above(path, 0) matches Some(name) ==> path_stem(path) == Some(stem_of(name))
            && path_extension(path) == extension_of(name),
        name_above(path, 0) is None ==> path_stem(path) is None && path_extension(path) is None,
{
}

/// A program that is named bare, or behind directories, has the extension of its last
/// name.
pub proof fn law_program_extension(
    above: Seq<char>,
    stem: Seq<char>,
    extension: Seq<char>,
    found: Option<Seq<char>>,
)
    requires
        stem.len() > 0,
        forall|i: int|
            0 <= i < stem.len() ==> !is_separator(#[trigger] stem[i]) && stem[i] != ':',
        forall|i: int|
            0 <= i < extension.len() ==> !is_separator(#[trigger] extension[i]) && extension[i]
                != ':' && extension[i] != '.',
        extension.len() > 0,
        above.len() == 0 || is_separator(above.last()),
        !(above.len() > 1 && is_separator(above[0]) && is_separator(above[1])),
        program_extension_outcome(above + (stem + seq!['.'] + extension), found),
    ensures
        found == Some(extension),
{
    let name = stem + seq!['.'] + extension;
    let program = above + name;
    reveal_strlit("..");
    lemma_name_start(program, program.len() as int, above.len() as int);
    assert(program.skip(above.len() as int) =~= name);
    lemma_last_index(name, '.', name.len() as int);
    let dot = stem.len() as int;
    assert(name[dot] == '.');
    assert forall|i: int| dot < i < name.len() implies name[i] != '.' by {
        assert(name[i] == extension[i - dot - 1]);
    }
    assert(last_index(name, '.', name.len() as int) == Some(dot));
    assert(name.last() == extension.last());
    assert(name != ".."@) by {
        assert(name.last() != '.');
    }
    assert(name.skip(dot + 1) =~= extension);
    if above.len() == 0 {
        assert(program =~= name);
    } else if above.len() == 1 {
        assert(!is_separator(stem[0]));
        assert(program[1] == stem[0]);
    } else {
        assert(program[0] == above[0] && program[1] == above[1]);
    }
}

proof fn lemma_name_start(program: Seq<char>, end: int, start: int)
    requires
        0 <= start <= end <= program.len(),
        start > 0 ==> is_separator(program[start - 1]) || program[start - 1] == ':',
        forall|i: int|
            start <= i < end ==> !is_separator(#[trigger] program[i]) && program[i] != ':',
    ensures
        name_start(program, end) == start,
    decreases end,
{
    if end > start {
        assert(!is_separator(program[end - 1]) && program[end - 1] != ':');
        lemma_name_start(program, end - 1, start);
    }
}

/// What is relative on every system is never taken for absolute.
pub proof fn law_relative_paths(path: Seq<char>, absolute: bool)
    requires
        absolute_outcome(path, absolute),
        path.len() == 0 || (path[0] != '/' && path[0] != '\\' && !(path.len() > 1 && path[1]
            == ':')),
    ensures
        !absolute,
{
}

/// The directory above a name at the root is the root, and the one above a single name is
/// the empty path.
pub proof fn law_parent_of_a_first_name(name: Seq<char>, parent: Option<Seq<char>>)
    requires
        name.len() > 0,
        !name.contains('/'),
        !name.contains('\\'),
        !name.contains(':'),
        name != seq!['.'],
    ensures
        parent_outcome(seq!['/'] + name, parent) <==> parent == Some(seq!['/']),
        parent_outcome(name, parent) <==> parent == Some(Seq::<char>::empty()),
{
    reveal_strlit("//");
    reveal_strlit(".");
    assert("."@ =~= seq!['.']);
    let rooted = seq!['/'] + name;
    assert forall|i: int| 1 <= i < rooted.len() implies #[trigger] rooted[i] == name[i - 1]
        && rooted[i] != '/' && rooted[i] != '\\' && rooted[i] != ':' by {}
    assert(!rooted.contains('\\') && !rooted.contains(':'));
    if occurs_at(rooted, "//"@, 0) {
        assert(rooted.subrange(0, 2)[1] == rooted[1]);
    }
    if occurs_at(name, "//"@, 0) {
        assert(name.subrange(0, 2)[0] == name[0]);
    }
    lemma_last_index(rooted, '/', rooted.len() as int);
    lemma_last_index(name, '/', name.len() as int);
    assert(rooted[0] == '/');
    assert(last_index(rooted, '/', rooted.len() as int) == Some(0int));
    assert(rooted.skip(1) =~= name);
    lemma_plain_parent(rooted);
    lemma_plain_parent(name);
}

/// A path that begins with a slash of either kind can be absolute on some system, and any
/// path can be relative on one.
pub proof fn law_rooted_paths(path: Seq<char>)
    ensures
        path.len() > 0 && (path[0] == '/' || path[0] == '\\') ==> absolute_outcome(path, true),
        path.len() > 2 && path[1] == ':' && (path[2] == '/' || path[2] == '\\')
            ==> absolute_outcome(path, true),
        absolute_outcome(path, false),
{
}

} // verus!
