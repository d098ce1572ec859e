//! Locations given as URLs.

use vstd::prelude::*;
use vstd::slice::slice_subrange;
use vstd::utf8::{encode_utf8, is_ascii_chars_encode_utf8, valid_utf8};

use crate::paths::is_separator;
use crate::percent::{
    law_plain_name_is_kept, lemma_plain_bytes, percent_decode, percent_decoded, unescaped,
};
use crate::text::{
    chars_of, concat, is_control, joined, law_pieces_make_the_text, lossy_utf8, occurs_at, pieces,
    same_text, text_view,
};

verus! {

/// The scheme of a text that is a URL.
pub uninterp spec fn parsed_scheme(text: Seq<char>) -> Option<Seq<char>>;

/// The host of a text that is a URL with one.
pub uninterp spec fn parsed_host(text: Seq<char>) -> Option<Seq<char>>;

/// The path of a text that is a URL, with its escapes.
pub uninterp spec fn parsed_path(text: Seq<char>) -> Option<Seq<char>>;

/// Whether a text is a file URL without a host whose path keeps its names when it is
/// read: it begins with a single slash and does not end in a space, no character ends
/// it or is turned into another, and no name is made of one or two dots.
pub open spec fn is_plain_file_url(text: Seq<char>) -> bool {
    let path = text.skip(7);
    &&& occurs_at(text, "file:///"@, 0)
    &&& !occurs_at(path, "//"@, 0)
    &&& path.last() != ' '
    &&& forall|i: int| 0 <= i < path.len() ==> is_kept_in_url(#[trigger] path[i])
    &&& forall|i: int|
        0 <= i < pieces(path, '/').len() ==> !is_dots(
            percent_decoded(#[trigger] pieces(path, '/')[i]),
        )
}

pub open spec fn is_kept_in_url(c: char) -> bool {
    !is_control(c) && c != '\\' && c != '|' && c != '?' && c != '#'
}

pub open spec fn is_dots(name: Seq<char>) -> bool {
    name == "."@ || name == ".."@
}

/// The path that a plain file URL spells, if the text is short enough for the lengths
/// of a URL, escapes and all.
pub open spec fn spelled_path(text: Seq<char>) -> Option<Seq<char>> {
    if is_plain_file_url(text) && 3 * encode_utf8(text).len() <= u32::MAX {
        Some(text.skip(7))
    } else {
        None
    }
}

/// The names in the path of a URL, each without its escapes.
pub open spec fn url_names(url: Seq<char>) -> Seq<Seq<u8>> {
    pieces(url, '/').map_values(|name: Seq<char>| unescaped(encode_utf8(name)))
}

pub open spec fn is_letter(c: char) -> bool {
    'a' <= c <= 'z' || 'A' <= c <= 'Z'
}

/// The drive that a name in a URL stands for: a letter and a colon, which can be an
/// escape.
pub open spec fn drive_of(name: Seq<char>) -> Option<Seq<char>> {
    if name.len() == 2 && is_letter(name[0]) && name[1] == ':' {
        Some(name)
    } else if name.len() == 4 && is_letter(name[0]) && name[1] == '%' && name[2] == '3' && (name[3]
        == 'a' || name[3] == 'A') {
        Some(seq![name[0], ':'])
    } else {
        None
    }
}

/// The drive with which the path of a URL begins.
pub open spec fn url_drive(url: Seq<char>) -> Option<Seq<char>> {
    let names = pieces(url, '/');
    if names.len() >= 2 && names[0].len() == 0 {
        drive_of(names[1])
    } else {
        None
    }
}

/// Whether two paths of URLs differ at most in which characters are escaped, with
/// their drives alike.
pub open spec fn spelled_alike(left: Seq<char>, right: Seq<char>) -> bool {
    &&& unescaped(encode_utf8(left)) == unescaped(encode_utf8(right))
    &&& url_names(left) == url_names(right)
    &&& url_drive(left) == url_drive(right)
}

/// Whether a path is, where a text is a plain file URL, the one that it spells.
pub open spec fn reads_as_spelled(text: Seq<char>, path: Option<Seq<char>>) -> bool {
    spelled_path(text) matches Some(spelled) ==> path is Some && spelled_alike(path->0, spelled)
}

/// The scheme of a text that is a URL: a plain file URL is one.
pub open spec fn text_scheme(text: Seq<char>) -> Option<Seq<char>> {
    if spelled_path(text) is Some {
        Some("file"@)
    } else {
        parsed_scheme(text)
    }
}

/// Calls `url::Url::parse` and `Url::scheme`: whether the text is a URL, and which
/// scheme it has, depends on the text alone. A plain file URL is one.
#[verifier::external_body]
pub(crate) fn url_scheme(text: &str) -> (scheme: Option<String>)
    ensures
        text_view(scheme) == parsed_scheme(text@),
        spelled_path(text@) is Some ==> text_view(scheme) == Some("file"@),
{
    url::Url::parse(text).ok().map(|url| url.scheme().to_string())
}

/// Calls `url::Url::parse` and `Url::host_str`: the host depends on the text alone. A
/// plain file URL has none.
#[verifier::external_body]
pub(crate) fn url_host(text: &str) -> (host: Option<String>)
    ensures
        text_view(host) == parsed_host(text@),
        is_plain_file_url(text@) ==> host is None,
{
    url::Url::parse(text).ok()?.host_str().map(|host| host.to_string())
}

/// Calls `url::Url::parse` and `Url::path`: the path depends on the text alone. That of
/// a plain file URL is the one that the text spells, with more characters escaped.
#[verifier::external_body]
pub(crate) fn url_path(text: &str) -> (path: Option<String>)
    ensures
        text_view(path) == parsed_path(text@),
        reads_as_spelled(text@, text_view(path)),
{
    url::Url::parse(text).ok().map(|url| url.path().to_string())
}

/// Whether a URL with this host names something on this computer.
pub open spec fn is_local(host: Option<Seq<char>>) -> bool {
    host is None || host == Some("localhost"@)
}

/// Whether the path of a URL is a drive and nothing below it.
pub open spec fn is_bare_drive(url: Seq<char>) -> bool {
    url_drive(url) is Some && pieces(url, '/').len() == 2
}

/// Whether the path of a URL does not begin with a name that a host can share.
pub open spec fn lacks_share(url: Seq<char>) -> bool {
    let path = percent_decoded(url);
    path.len() < 2 || is_separator(path[1])
}

pub open spec fn is_letter_byte(byte: u8) -> bool {
    0x61 <= byte <= 0x7a || 0x41 <= byte <= 0x5a
}

/// The path of a URL as one from the root: without its escapes, and with a slash behind
/// a drive that would end it.
pub open spec fn slashed_path(url: Seq<char>) -> Seq<char> {
    let bytes = unescaped(encode_utf8(url));
    let n = bytes.len() as int;
    if n > 2 && is_letter_byte(bytes[n - 2]) && (bytes[n - 1] == 0x3a || bytes[n - 1] == 0x7c) {
        lossy_utf8(bytes.push(0x2f))
    } else {
        lossy_utf8(bytes)
    }
}

/// Names, each behind a backslash.
pub open spec fn backslashed(names: Seq<Seq<u8>>) -> Seq<char>
    decreases names.len(),
{
    if names.len() == 0 {
        seq![]
    } else {
        backslashed(names.drop_last()) + seq!['\\'] + lossy_utf8(names.last())
    }
}

/// Whether the path of a URL leads down from a drive, by names that are text.
pub open spec fn is_below_drive(url: Seq<char>) -> bool {
    &&& url_drive(url) is Some
    &&& url_names(url).len() > 2
    &&& forall|i: int| 2 <= i < url_names(url).len() ==> valid_utf8(#[trigger] url_names(url)[i])
}

/// The paths that a URL can name by its host and path. Without a host that is the path
/// from the root, in some systems behind a scheme, or in others the one below a drive;
/// with one it is, if any, the path below what the host shares. Only what leads down
/// from a drive is a path in every system.
pub open spec fn system_path_outcome(
    host: Option<Seq<char>>,
    url: Seq<char>,
    path: Option<Seq<char>>,
) -> bool {
    match path {
        Some(p) => if is_local(host) {
            ||| p == slashed_path(url)
            ||| p == "file:"@ + slashed_path(url)
            ||| url_drive(url) is Some && p == url_drive(url)->0 + backslashed(
                url_names(url).skip(2),
            )
        } else {
            p == seq!['\\', '\\'] + host->0 + backslashed(url_names(url).skip(1))
        },
        None => !(is_local(host) && is_below_drive(url)),
    }
}

/// Calls `url::Url::parse` and `Url::to_file_path`, and shows the path as text. A text
/// that is not a URL has none. The others name what their host and path do, in the form
/// of the system; which of the forms that is, and whether a path without a drive or one
/// of a host counts at all, differs between systems and is left unsaid. That memory for
/// the path can be had is taken for granted. A drive alone and a host without a share
/// are no paths from a root, which the call asserts of what it makes.
#[verifier::external_body]
pub(crate) fn url_file_path(text: &str) -> (path: Option<String>)
    requires
        parsed_path(text@) matches Some(url) ==> if is_local(parsed_host(text@)) {
            !is_bare_drive(url)
        } else {
            !lacks_share(url)
        },
    ensures
        match parsed_path(text@) {
            Some(url) => system_path_outcome(parsed_host(text@), url, text_view(path)),
            None => path is None,
        },
{
    let path = url::Url::parse(text).ok()?.to_file_path().ok()?;
    Some(path.to_string_lossy().into_owned())
}

/// The paths that a URL can stand for: those that it names. A drive alone stands for
/// its root, and a host without a share for nothing.
pub open spec fn named_path_outcome(
    host: Option<Seq<char>>,
    url: Seq<char>,
    path: Option<Seq<char>>,
) -> bool {
    if is_local(host) && is_bare_drive(url) {
        system_path_outcome(None, seq!['/'] + url_drive(url)->0 + seq!['/'], path)
    } else if !is_local(host) && lacks_share(url) {
        path is None
    } else {
        system_path_outcome(host, url, path)
    }
}

/// The paths that a text can stand for as a URL: none, where it is no URL. A plain file
/// URL stands for the path that it spells.
pub open spec fn file_url_outcome(text: Seq<char>, path: Option<Seq<char>>) -> bool {
    match spelled_path(text) {
        Some(url) => named_path_outcome(None, url, path),
        None => match parsed_path(text) {
            Some(url) => named_path_outcome(parsed_host(text), url, path),
            None => path is None,
        },
    }
}

/// A path without slashes but the first has one name behind that.
proof fn lemma_single_name(name: Seq<char>)
    requires
        forall|i: int| 0 <= i < name.len() ==> name[i] != '/',
    ensures
        pieces(seq!['/'] + name, '/') == seq![Seq::<char>::empty(), name],
    decreases name.len(),
{
    let url = seq!['/'] + name;
    if name.len() == 0 {
        assert(url.drop_last() =~= Seq::<char>::empty());
        assert(url.last() == '/');
        assert(name =~= Seq::<char>::empty());
        assert(pieces(url.drop_last(), '/') =~= seq![Seq::<char>::empty()]);
        assert(pieces(url, '/') =~= seq![Seq::<char>::empty(), name]);
    } else {
        lemma_single_name(name.drop_last());
        assert(url.drop_last() =~= seq!['/'] + name.drop_last());
        let before = pieces(url.drop_last(), '/');
        assert(before.last().push(name.last()) =~= name);
        assert(url.last() == name.last());
        assert(pieces(url, '/') =~= seq![Seq::<char>::empty(), name]);
    }
}

/// A drive alone is a slash and the name of the drive.
proof fn lemma_bare_drive(url: Seq<char>)
    ensures
        is_bare_drive(url) == (url.len() > 0 && url[0] == '/' && drive_of(url.skip(1)) is Some),
        is_bare_drive(url) ==> url_drive(url) == drive_of(url.skip(1)),
{
    if is_bare_drive(url) {
        let names = pieces(url, '/');
        law_pieces_make_the_text(url, '/');
        reveal_with_fuel(joined, 3);
        assert(names.drop_last() =~= seq![names[0]]);
        assert(url =~= seq!['/'] + names[1]);
        assert(url.skip(1) =~= names[1]);
    }
    if url.len() > 0 && url[0] == '/' && drive_of(url.skip(1)) is Some {
        lemma_single_name(url.skip(1));
        assert(seq!['/'] + url.skip(1) =~= url);
    }
}

/// The root of a drive is written plainly, and is more than the drive.
proof fn lemma_drive_root(drive: Seq<char>)
    requires
        drive_of(drive) == Some(drive),
    ensures
        spelled_path("file:///"@ + drive + "/"@) == Some(seq!['/'] + drive + seq!['/']),
        pieces(seq!['/'] + drive + seq!['/'], '/').len() == 3,
{
    let text = "file:///"@ + drive + "/"@;
    let path = seq!['/'] + drive + seq!['/'];
    reveal_strlit("file:///");
    reveal_strlit("/");
    reveal_strlit("//");
    reveal_strlit(".");
    reveal_strlit("..");
    assert(text.skip(7) =~= path);
    assert(text.subrange(0, 8) =~= "file:///"@);
    assert(path.subrange(0, 2)[1] == drive[0]);
    assert("//"@[1] == '/');
    lemma_single_name(drive);
    assert(path.drop_last() =~= seq!['/'] + drive);
    let names = pieces(path, '/');
    assert(names =~= seq![Seq::<char>::empty(), drive, Seq::<char>::empty()]);
    assert forall|i: int| 0 <= i < names.len() implies !is_dots(
        percent_decoded(#[trigger] names[i]),
    ) by {
        is_ascii_chars_encode_utf8(names[i]);
        law_plain_name_is_kept(names[i]);
    }
    is_ascii_chars_encode_utf8(text);
}

/// The paths that the root of a drive can be.
fn drive_root(drive: &str) -> (path: Option<String>)
    requires
        drive_of(drive@) == Some(drive@),
    ensures
        system_path_outcome(None, seq!['/'] + drive@ + seq!['/'], text_view(path)),
{
    let text = concat(concat("file:///", drive).as_str(), "/");
    proof {
        lemma_drive_root(drive@);
    }
    match (url_host(text.as_str()), url_path(text.as_str())) {
        (None, Some(url)) => {
            assert(url_names(url@).len() == pieces(url@, '/').len());
            assert(url_names(seq!['/'] + drive@ + seq!['/']).len() == 3);
            url_file_path(text.as_str())
        },
        _ => None,
    }
}

fn find_drive(name: &[char]) -> (drive: Option<String>)
    ensures
        text_view(drive) == drive_of(name@),
        drive matches Some(d) ==> drive_of(d@) == Some(d@),
{
    let count = name.len();
    let escaped = count == 4 && name[1] == '%' && name[2] == '3' && (name[3] == 'a' || name[3]
        == 'A');
    let plain = count == 2 && name[1] == ':';
    if !escaped && !plain {
        return None;
    }
    let letter = name[0];
    if 'a' <= letter && letter <= 'z' || 'A' <= letter && letter <= 'Z' {
        let mut drive = String::new();
        drive.push(letter);
        drive.push(':');
        assert(drive@ =~= seq![letter, ':']);
        Some(drive)
    } else {
        None
    }
}

/// There is always a path, or none, that a text can stand for as a URL.
pub proof fn lemma_some_path(text: Seq<char>)
    ensures
        exists|path: Option<Seq<char>>| file_url_outcome(text, path),
{
    let (host, url) = match (spelled_path(text), parsed_path(text)) {
        (Some(url), _) => (None, url),
        (None, Some(url)) => (parsed_host(text), url),
        (None, None) => (None, seq![]),
    };
    let root = seq!['/'] + url_drive(url)->0 + seq!['/'];
    if is_local(host) && is_bare_drive(url) {
        assert(system_path_outcome(None, root, Some(slashed_path(root))));
        assert(named_path_outcome(host, url, Some(slashed_path(root))));
    } else if is_local(host) {
        assert(named_path_outcome(host, url, Some(slashed_path(url))));
    } else {
        assert(named_path_outcome(host, url, None));
    }
    assert(file_url_outcome(text, None) || file_url_outcome(text, Some(slashed_path(url)))
        || file_url_outcome(text, Some(slashed_path(root))));
}

/// The path that a text stands for as a URL. What it looks like depends on the system.
pub fn file_url_path(text: &str) -> (path: Option<String>)
    ensures
        file_url_outcome(text@, text_view(path)),
{
    let url = match url_path(text) {
        Some(url) => url,
        None => return None,
    };
    let host = url_host(text);
    let local = match &host {
        Some(host) => same_text(host.as_str(), "localhost"),
        None => true,
    };
    if local {
        let chars = chars_of(url.as_str());
        proof {
            lemma_bare_drive(url@);
        }
        if chars.len() > 0 && chars[0] == '/' {
            assert(url@.skip(1) =~= chars@.subrange(1, chars@.len() as int));
            if let Some(drive) = find_drive(slice_subrange(chars.as_slice(), 1, chars.len())) {
                return drive_root(drive.as_str());
            }
        }
    } else {
        let path = chars_of(percent_decode(url.as_str()).as_str());
        if path.len() < 2 || path[1] == '/' || path[1] == '\\' {
            return None;
        }
    }
    url_file_path(text)
}

/// A plain file URL without escapes or colons in its path stands for the path as it is
/// written, in some systems behind a scheme, or for none.
pub proof fn law_plain_url_stands_for_its_path(text: Seq<char>, path: Option<Seq<char>>)
    requires
        spelled_path(text) matches Some(url) && url_drive(url) is None && !encode_utf8(
            url,
        ).contains(0x25u8) && !encode_utf8(url).contains(0x3au8) && !encode_utf8(url).contains(
            0x7cu8,
        ),
        file_url_outcome(text, path),
    ensures
        path matches Some(p) ==> p == text.skip(7) || p == "file:"@ + text.skip(7),
{
    let url = text.skip(7);
    law_plain_name_is_kept(url);
    lemma_plain_bytes(encode_utf8(url));
    let bytes = encode_utf8(url);
    if bytes.len() > 0 {
        assert(bytes.contains(bytes[bytes.len() - 1]));
    }
    assert(slashed_path(url) == url);
}

/// A drive is a letter and a colon, which can be escaped, and nothing more.
pub proof fn law_drive_of(letter: char, name: Seq<char>)
    ensures
        ('a' <= letter <= 'z' || 'A' <= letter <= 'Z') ==> drive_of(seq![letter, ':']) == Some(
            seq![letter, ':'],
        ) && drive_of(seq![letter, '%', '3', 'A']) == Some(seq![letter, ':']) && drive_of(
            seq![letter, '%', '3', 'a'],
        ) == Some(seq![letter, ':']),
        drive_of(name) matches Some(drive) ==> {
            &&& drive.len() == 2 && drive[0] == name[0] && drive[1] == ':'
            &&& 'a' <= drive[0] <= 'z' || 'A' <= drive[0] <= 'Z'
            &&& name.len() == 2 || name.len() == 4
        },
{
}

/// A path from the root is the path of its URL without the escapes, and with a slash more
/// exactly where it would end in a drive.
pub proof fn law_slashed_path(url: Seq<char>)
    ensures
        ({
            let bytes = unescaped(encode_utf8(url));
            let n = bytes.len() as int;
            let drive = n > 2 && (0x61 <= bytes[n - 2] <= 0x7a || 0x41 <= bytes[n - 2] <= 0x5a) && (
            bytes[n - 1] == 0x3a || bytes[n - 1] == 0x7c);
            &&& !drive ==> slashed_path(url) == percent_decoded(url)
            &&& drive ==> slashed_path(url) == lossy_utf8(bytes + seq![0x2fu8])
        }),
{
    let bytes = unescaped(encode_utf8(url));
    assert(bytes.push(0x2fu8) =~= bytes + seq![0x2fu8]);
}

/// Names stand behind backslashes in order.
pub proof fn law_backslashed_names(left: Seq<Seq<u8>>, right: Seq<Seq<u8>>)
    ensures
        backslashed(left + right) == backslashed(left) + backslashed(right),
        left.len() == 1 ==> backslashed(left) == seq!['\\'] + lossy_utf8(left[0]),
    decreases right.len(),
{
    reveal_with_fuel(backslashed, 2);
    let all = left + right;
    if right.len() == 0 {
        assert(all =~= left);
    } else {
        law_backslashed_names(left, right.drop_last());
        assert(all.drop_last() =~= left + right.drop_last());
        assert(all.last() == right.last());
    }
    assert(backslashed(all) =~= backslashed(left) + backslashed(right));
    if left.len() == 1 {
        assert(backslashed(left) =~= seq!['\\'] + lossy_utf8(left[0]));
    }
}

/// A plain file URL stands for the path that it spells, in one of the forms of systems,
/// and always for one where it leads down from a drive; a drive alone stands for its root.
pub proof fn law_plain_url_stands_for_a_path(text: Seq<char>, path: Option<Seq<char>>)
    requires
        spelled_path(text) is Some,
        file_url_outcome(text, path),
    ensures
        ({
            let url = text.skip(7);
            let alone = url_drive(url) is Some && pieces(url, '/').len() == 2;
            let whole = if alone {
                seq!['/'] + url_drive(url)->0 + seq!['/']
            } else {
                url
            };
            &&& path matches Some(p) ==> {
                ||| p == slashed_path(whole)
                ||| p == seq!['f', 'i', 'l', 'e', ':'] + slashed_path(whole)
                ||| url_drive(whole) is Some && p == url_drive(whole)->0 + backslashed(
                    url_names(whole).skip(2),
                )
            }
            &&& !alone && url_drive(url) is Some && url_names(url).len() > 2 && (forall|i: int|
                2 <= i < url_names(url).len() ==> valid_utf8(#[trigger] url_names(url)[i]))
                ==> path is Some
        }),
{
    reveal_strlit("file:");
    assert("file:"@ =~= seq!['f', 'i', 'l', 'e', ':']);
}

/// A URL that names another computer stands for the path below what that shares, or for
/// none, and for none where nothing is shared.
pub proof fn law_url_of_another_computer(
    host: Seq<char>,
    url: Seq<char>,
    path: Option<Seq<char>>,
)
    requires
        host != "localhost"@,
        named_path_outcome(Some(host), url, path),
    ensures
        path matches Some(p) ==> p == seq!['\\', '\\'] + host + backslashed(url_names(url).skip(1)),
        percent_decoded(url).len() < 2 || percent_decoded(url)[1] == '/' || percent_decoded(url)[1]
            == '\\' ==> path is None,
{
}

/// The names of a URL are what stands between its slashes, without the escapes.
pub proof fn law_names_of_a_url(url: Seq<char>, i: int)
    requires
        0 <= i < pieces(url, '/').len(),
    ensures
        url_names(url).len() == pieces(url, '/').len(),
        url_names(url)[i] == unescaped(encode_utf8(pieces(url, '/')[i])),
        joined(pieces(url, '/'), seq!['/']) == url,
{
    law_pieces_make_the_text(url, '/');
}

/// A URL that names this computer stands for what it stands for without a name.
pub proof fn law_url_of_this_computer(url: Seq<char>, path: Option<Seq<char>>)
    ensures
        named_path_outcome(Some("localhost"@), url, path) == named_path_outcome(None, url, path),
{
}

/// A text that spells a path as a file URL has the scheme of files.
pub proof fn law_scheme_of_a_plain_url(text: Seq<char>)
    requires
        spelled_path(text) is Some,
    ensures
        text_scheme(text) == Some(seq!['f', 'i', 'l', 'e']),
        spelled_path(text) == Some(text.skip(7)),
        text.take(8) == seq!['f', 'i', 'l', 'e', ':', '/', '/', '/'],
{
    reveal_strlit("file");
    reveal_strlit("file:///");
    assert("file"@ =~= seq!['f', 'i', 'l', 'e']);
    assert("file:///"@ =~= seq!['f', 'i', 'l', 'e', ':', '/', '/', '/']);
    assert(text.take(8) =~= text.subrange(0, 8));
}

} // verus!
