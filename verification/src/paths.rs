//! Texts that are paths of files.
//!
//! Paths are taken apart and put together by `std::path`, whose rules differ between platforms.
//! What is said here of them holds on all.

use vstd::prelude::*;
use vstd::string::{StrSliceExecFns, StringExecFns};

verus! {

/// Whether `name` is the name of a file on every platform, with nothing before it.
pub open spec fn is_plain_name(name: Seq<char>) -> bool {
    &&& name.len() > 0
    &&& name != seq!['.']
    &&& name != seq!['.', '.']
    &&& !name.contains('/')
    &&& !name.contains('\\')
    &&& !name.contains(':')
}

/// Whether `c` separates the parts of a path on some platform.
pub open spec fn is_separator(c: char) -> bool {
    c == '/' || c == '\\'
}

/// Whether no part ends with `c` on any platform.
pub open spec fn is_name_char(c: char) -> bool {
    !is_separator(c) && c != ':'
}

/// Whether two separators come first in `path`, as before the name of another machine.
pub open spec fn starts_with_two_separators(path: Seq<char>) -> bool {
    path.len() >= 2 && is_separator(path[0]) && is_separator(path[1])
}

/// Where the name of the file begins in `path`: behind the last separator or colon.
///
/// Where a backslash or a colon does not end a part, the name begins further to the front.
pub open spec fn name_start(path: Seq<char>) -> int
    decreases path.len(),
{
    if path.len() == 0 {
        0
    } else if !is_name_char(path.last()) {
        path.len() as int
    } else {
        name_start(path.drop_last())
    }
}

/// The name of the file.
pub open spec fn file_name_of(path: Seq<char>) -> Seq<char> {
    path.skip(name_start(path))
}

/// Whether `path` leads to no file by its name on any platform: it is empty, the root, or ends with
/// the directory above.
pub open spec fn has_no_name(path: Seq<char>) -> bool {
    &&& has_slashes_alone(path)
    &&& !starts_with_two_separators(path)
    &&& path.len() == 0 || path == seq!['/'] || file_name_of(path) == seq!['.', '.']
}

/// Whether nothing but slashes separates the parts of `path` on any platform.
pub open spec fn has_slashes_alone(path: Seq<char>) -> bool {
    !path.contains('\\') && !path.contains(':')
}

/// Where the last dot stands in `name`, if there is one.
pub open spec fn last_dot(name: Seq<char>) -> Option<int>
    decreases name.len(),
{
    if name.len() == 0 {
        None
    } else if name.last() == '.' {
        Some(name.len() - 1)
    } else {
        last_dot(name.drop_last())
    }
}

/// What stands behind the last dot of `name`, unless that dot comes first.
pub open spec fn extension_of(name: Seq<char>) -> Option<Seq<char>> {
    match last_dot(name) {
        Some(dot) => if dot > 0 {
            Some(name.skip(dot + 1))
        } else {
            None
        },
        None => None,
    }
}

/// `path` up to its last dot, or all of it if there is none.
pub open spec fn before_last_dot(path: Seq<char>) -> Seq<char> {
    match last_dot(path) {
        Some(dot) => path.take(dot),
        None => path,
    }
}

/// What stands behind the last dot of `path`, or nothing if there is none.
pub open spec fn behind_last_dot(path: Seq<char>) -> Seq<char> {
    match last_dot(path) {
        Some(dot) => path.skip(dot + 1),
        None => Seq::empty(),
    }
}

/// Whether `text` has no separator of any platform.
pub open spec fn has_no_separator(text: Seq<char>) -> bool {
    !text.contains('/') && !text.contains('\\')
}

/// `path` with `extension` behind a dot, in the place of what stands behind its last dot or not.
pub open spec fn extended(path: Seq<char>, extension: Seq<char>, in_place: bool) -> Seq<char> {
    (if in_place {
        before_last_dot(path)
    } else {
        path
    }) + seq!['.'] + extension
}

/// Whether `r` may be `path` with another extension, where the name of the file is plain: it comes
/// in the place of the one that the name has, or is put behind it if there is none.
///
/// The platform decides where the name has none but could begin further to the front, and whether
/// what follows two separators is the name of a file at all; if it is not, the path stays.
pub open spec fn is_extended(path: Seq<char>, extension: Seq<char>, r: Seq<char>) -> bool {
    if starts_with_two_separators(path) {
        ||| r == path
        ||| r == extended(path, extension, true)
        ||| r == extended(path, extension, false)
    } else if extension_of(file_name_of(path)) is Some {
        r == extended(path, extension, true)
    } else if has_slashes_alone(path) {
        r == extended(path, extension, false)
    } else {
        r == extended(path, extension, true) || r == extended(path, extension, false)
    }
}

/// Whether `r` may be `path` with `suffix` behind its extension, or behind an empty one if it has
/// none. A path that leads to no file stays.
///
/// The platform decides where the name of the file has no extension but could begin further to the
/// front, and whether what follows two separators is the name of a file at all. Nothing is said
/// where the name is not plain.
pub open spec fn is_suffixed(path: Seq<char>, suffix: Seq<char>, r: Seq<char>) -> bool {
    if has_no_name(path) {
        r == path
    } else if !is_plain_name(file_name_of(path)) {
        true
    } else if !starts_with_two_separators(path) && extension_of(file_name_of(path)) is Some {
        r == path + seq!['.'] + suffix
    } else if !starts_with_two_separators(path) && has_slashes_alone(path) {
        r == path + seq!['.', '.'] + suffix
    } else {
        ||| is_extended(path, behind_last_dot(path) + seq!['.'] + suffix, r)
        ||| is_extended(path, seq!['.'] + suffix, r)
    }
}

/// The last dot of a path stands in the name of the file if that has one.
proof fn lemma_last_dot(path: Seq<char>)
    requires
        last_dot(file_name_of(path)) is Some,
    ensures
        last_dot(path) == Some(name_start(path) + last_dot(file_name_of(path))->Some_0),
        0 <= name_start(path) <= path.len(),
        0 <= last_dot(file_name_of(path))->Some_0 < file_name_of(path).len(),
        path[last_dot(path)->Some_0] == '.',
    decreases path.len(),
{
    lemma_name_start(path);
    let name = file_name_of(path);
    if name.len() > 0 {
        assert(name.last() == path.last());
        assert(name.drop_last() =~= file_name_of(path.drop_last()));
        if name.last() != '.' {
            lemma_last_dot(path.drop_last());
        }
    }
}

proof fn lemma_name_start(path: Seq<char>)
    ensures
        0 <= name_start(path) <= path.len(),
    decreases path.len(),
{
    if path.len() > 0 {
        lemma_name_start(path.drop_last());
    }
}

/// No dot follows the last.
proof fn lemma_no_dot_behind(path: Seq<char>)
    ensures
        last_dot(path) matches Some(dot) ==> 0 <= dot < path.len() && path[dot] == '.' && forall|
            k: int,
        |
            dot < k < path.len() ==> #[trigger] path[k] != '.',
    decreases path.len(),
{
    if path.len() > 0 && path.last() != '.' {
        let front = path.drop_last();
        lemma_no_dot_behind(front);
        if let Some(dot) = last_dot(path) {
            assert forall|k: int| dot < k < path.len() implies #[trigger] path[k] != '.' by {
                if k < front.len() {
                    assert(front[k] == path[k]);
                }
            }
        }
    }
}

/// A path with a suffix is another path.
pub proof fn lemma_suffixed_is_another(path: Seq<char>, suffix: Seq<char>, r: Seq<char>)
    requires
        is_suffixed(path, suffix, r),
        is_plain_name(file_name_of(path)),
        !starts_with_two_separators(path),
    ensures
        r != path,
{
    assert(!has_no_name(path)) by {
        if path == seq!['/'] {
            assert(file_name_of(path).len() == 0);
        }
    }
    lemma_no_dot_behind(path);
    if let Some(dot) = last_dot(path) {
        let dots = extended(path, seq!['.'] + suffix, true);
        assert(dots[dot + 1] == '.');
        assert(dots.len() >= dot + 2);
    }
}

/// What stands behind a separator or a colon, or comes first, and has none, is the name of the
/// file.
pub proof fn lemma_name_behind(front: Seq<char>, name: Seq<char>)
    requires
        front.len() > 0 ==> !is_name_char(front.last()),
        is_plain_name(name),
    ensures
        file_name_of(front + name) == name,
{
    assert forall|k: int| 0 <= k < name.len() implies is_name_char(#[trigger] name[k]) by {
        assert(name.contains(name[k]));
    }
    lemma_name_start_behind(front, name);
    assert((front + name).skip(front.len() as int) =~= name);
}

proof fn lemma_name_start_behind(front: Seq<char>, name: Seq<char>)
    requires
        front.len() > 0 ==> !is_name_char(front.last()),
        forall|k: int| 0 <= k < name.len() ==> is_name_char(#[trigger] name[k]),
    ensures
        name_start(front + name) == front.len(),
    decreases name.len(),
{
    let path = front + name;
    if name.len() > 0 {
        assert(path.last() == name[name.len() - 1]);
        assert(path.drop_last() =~= front + name.drop_last());
        lemma_name_start_behind(front, name.drop_last());
    } else {
        assert(path =~= front);
    }
}

/// Whether `path` may be that of `name` in `dir`, where the name is plain: the two are joined by a
/// separator of the platform, unless one is there already, the directory is that of a drive, or it
/// is empty.
pub open spec fn is_joined(dir: Seq<char>, name: Seq<char>, path: Seq<char>) -> bool {
    if dir.len() == 0 {
        path == name
    } else if dir.last() == '/' {
        path == dir + name
    } else {
        ||| path == dir + seq!['/'] + name
        ||| path == dir + seq!['\\'] + name
        ||| (dir.last() == '\\' || dir.last() == ':') && path == dir + name
    }
}

/// Whether `path` is to be taken literally where drives have letters.
pub open spec fn is_verbatim(path: Seq<char>) -> bool {
    path.len() >= 4 && path.take(4) == seq!['\\', '\\', '?', '\\']
}

/// Whether something is known of how `name` is joined to `dir`.
pub open spec fn can_join(dir: Seq<char>, name: Seq<char>) -> bool {
    is_plain_name(name) && !is_verbatim(dir)
}

/// The path of `name` in `dir`, by `Path::join`.
///
/// Said only where the name is plain, and the directory is not to be taken literally.
#[verifier::external_body]
pub(crate) fn join(dir: &str, name: &str) -> (r: String)
    ensures
        can_join(dir@, name@) ==> is_joined(dir@, name@, r@),
{
    std::path::Path::new(dir).join(name).to_string_lossy().into_owned()
}

/// The extension of a path, by `Path::extension`.
///
/// There is none if there is no name. Otherwise it is said only where the name is plain: if there
/// is an extension, it is what stands behind the last dot. Where two separators do not come first,
/// there is one if that dot stands in the name and does not come first, and none if it does not
/// stand there and nothing but slashes separates the parts.
#[verifier::external_body]
pub(crate) fn extension(path: &str) -> (r: Option<String>)
    ensures
        has_no_name(path@) ==> r is None,
        is_plain_name(file_name_of(path@)) ==> match r {
            Some(extension) => {
                &&& extension@ == behind_last_dot(path@)
                &&& starts_with_two_separators(path@) || extension_of(file_name_of(path@)) is Some
                    || !has_slashes_alone(path@)
            },
            None => starts_with_two_separators(path@) || extension_of(file_name_of(path@)) is None,
        },
{
    std::path::Path::new(path).extension()?.to_str().map(|extension| extension.to_string())
}

/// A path with another extension, by `Path::with_extension`, which takes none with a separator.
///
/// A path without a name stays. Otherwise it is said only where the name is plain, and the
/// extension is not empty.
#[verifier::external_body]
pub(crate) fn with_extension(path: &str, extension: &str) -> (r: String)
    requires
        has_no_separator(extension@),
    ensures
        has_no_name(path@) ==> r@ == path@,
        is_plain_name(file_name_of(path@)) && extension@.len() > 0 ==> is_extended(
            path@,
            extension@,
            r@,
        ),
{
    std::path::Path::new(path).with_extension(extension).to_string_lossy().into_owned()
}

/// The path of a file that stands beside another, with a suffix behind its extension.
pub fn path_with_suffix(path: &str, suffix: &str) -> (r: String)
    requires
        has_no_separator(suffix@),
    ensures
        is_suffixed(path@, suffix@, r@),
{
    proof {
        reveal_strlit(".");
        lemma_plain_name(path@);
    }
    let found = match extension(path) {
        Some(extension) => extension,
        None => String::new(),
    };
    let ghost dots = seq!['.'] + suffix@;
    let ghost behind = behind_last_dot(path@) + seq!['.'] + suffix@;
    proof {
        assert(Seq::<char>::empty() + seq!['.'] + suffix@ =~= dots);
        assert(path@ + seq!['.'] + dots =~= path@ + seq!['.', '.'] + suffix@);
        if let Some(dot) = last_dot(path@) {
            lemma_no_dot_behind(path@);
            assert(extended(path@, behind, true) =~= path@ + seq!['.'] + suffix@);
        }
    }
    if lacks_separator(found.as_str()) {
        let extension = found.concat(".").concat(suffix);
        assert(extension@ =~= found@ + seq!['.'] + suffix@);
        assert(has_no_separator(extension@)) by {
            assert forall|c: char| is_separator(c) implies !extension@.contains(c) by {
                if extension@.contains(c) {
                    let k = extension@.index_of(c);
                    if k < found@.len() {
                        assert(found@[k] == c);
                        assert(found@.contains(c));
                    } else if k > found@.len() {
                        assert(suffix@[k - found@.len() - 1] == c);
                        assert(suffix@.contains(c));
                    }
                }
            }
        }
        with_extension(path, extension.as_str())
    } else {
        let r = path.to_owned().concat(".").concat(suffix);
        proof {
            assert(r@ =~= path@ + seq!['.'] + suffix@);
            assert(found@.len() > 0);
            if is_plain_name(file_name_of(path@)) {
                assert(last_dot(path@) is Some);
                assert(r@ == extended(path@, behind, true));
            }
        }
        r
    }
}

/// What stands behind the last dot has no separator if that dot stands in a plain name, and the
/// root has no name.
proof fn lemma_plain_name(path: Seq<char>)
    ensures
        is_plain_name(file_name_of(path)) ==> !has_no_name(path),
        is_plain_name(file_name_of(path)) && extension_of(file_name_of(path)) is Some
            ==> last_dot(path) is Some && has_no_separator(behind_last_dot(path)),
{
    let name = file_name_of(path);
    if is_plain_name(name) {
        if path == seq!['/'] {
            assert(name.len() == 0);
        }
        if extension_of(name) is Some {
            lemma_last_dot(path);
            let behind = behind_last_dot(path);
            let dot = last_dot(name)->Some_0;
            assert forall|c: char| is_separator(c) implies !behind.contains(c) by {
                if behind.contains(c) {
                    let k = behind.index_of(c);
                    assert(name[dot + 1 + k] == c);
                    assert(name.contains(c));
                }
            }
            assert(is_separator('/') && is_separator('\\'));
        }
    }
}

/// A path whose last part is a plain name has a name.
pub proof fn lemma_plain_name_is_a_name(path: Seq<char>)
    ensures
        is_plain_name(file_name_of(path)) ==> !has_no_name(path),
{
    lemma_plain_name(path);
}

/// Whether `text` has no separator of any platform.
pub fn lacks_separator(text: &str) -> (b: bool)
    ensures
        b == has_no_separator(text@),
{
    let len: usize = text.unicode_len();
    for k in 0..len
        invariant
            len == text@.len(),
            forall|j: int| 0 <= j < k ==> #[trigger] text@[j] != '/' && text@[j] != '\\',
    {
        let c = text.get_char(k);
        if c == '/' || c == '\\' {
            assert(text@[k as int] == c);
            return false;
        }
    }
    true
}

} // verus!
