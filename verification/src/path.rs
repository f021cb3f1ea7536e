//! Paths as text. A path is a run of characters in which `/` separates the
//! directories from one another and from the file name: the file name is what
//! follows the last `/`, or the whole path if there is none. Within the file
//! name the last `.` that is not its first character separates the stem from
//! the extension.

use vstd::prelude::*;
use crate::text::{chars_of, push_range, push_text, string_of};

verus! {

/// Where the file name starts: just behind the last `/`, or at 0.
pub open spec fn name_start(path: Seq<char>) -> int
    decreases path.len(),
{
    if path.len() == 0 {
        0
    } else if path.last() == '/' {
        path.len() as int
    } else {
        name_start(path.drop_last())
    }
}

/// The position of the last `.` in `name`, or -1 if it has none.
pub open spec fn last_dot(name: Seq<char>) -> int
    decreases name.len(),
{
    if name.len() == 0 {
        -1
    } else if name.last() == '.' {
        name.len() - 1
    } else {
        last_dot(name.drop_last())
    }
}

/// The path up to and including its last `/`; empty if it has none.
pub open spec fn dir_prefix(path: Seq<char>) -> Seq<char> {
    path.take(name_start(path))
}

/// What follows the last `/` of the path.
pub open spec fn file_name(path: Seq<char>) -> Seq<char> {
    path.skip(name_start(path))
}

/// The file name without its extension.
pub open spec fn stem_of(name: Seq<char>) -> Seq<char> {
    if last_dot(name) > 0 {
        name.take(last_dot(name))
    } else {
        name
    }
}

/// What follows the last `.` of the file name, if that `.` is not its first
/// character.
pub open spec fn extension_of(name: Seq<char>) -> Option<Seq<char>> {
    if last_dot(name) > 0 {
        Some(name.skip(last_dot(name) + 1))
    } else {
        None
    }
}

/// The stem of the path's file name.
pub open spec fn file_stem(path: Seq<char>) -> Seq<char> {
    stem_of(file_name(path))
}

/// The extension of the path's file name.
pub open spec fn extension(path: Seq<char>) -> Option<Seq<char>> {
    extension_of(file_name(path))
}

/// A `.` and the extension, or nothing where there is no extension.
pub open spec fn dotted_extension(path: Seq<char>) -> Seq<char> {
    match extension(path) {
        Some(e) => seq!['.'] + e,
        None => Seq::empty(),
    }
}

/// The path with its file name replaced by `name`.
pub open spec fn with_file_name(path: Seq<char>, name: Seq<char>) -> Seq<char> {
    dir_prefix(path) + name
}

/// The path with `suffix` put between stem and extension.
pub open spec fn with_suffix(path: Seq<char>, suffix: Seq<char>) -> Seq<char> {
    dir_prefix(path) + file_stem(path) + suffix + dotted_extension(path)
}

/// Whether the text holds no `/`.
pub open spec fn no_separator(text: Seq<char>) -> bool {
    forall|i: int| 0 <= i < text.len() ==> text[i] != '/'
}

/// The file name starts inside the path, behind a `/` if not at 0, and holds
/// no `/`.
pub proof fn lemma_name_start(path: Seq<char>)
    ensures
        0 <= name_start(path) <= path.len(),
        name_start(path) > 0 ==> path[name_start(path) - 1] == '/',
        no_separator(file_name(path)),
    decreases path.len(),
{
    if path.len() == 0 {
    } else if path.last() == '/' {
    } else {
        let front = path.drop_last();
        lemma_name_start(front);
        assert forall|i: int| 0 <= i < file_name(path).len() implies file_name(path)[i]
            != '/' by {
            if i < file_name(front).len() {
                assert(file_name(front)[i] == file_name(path)[i]);
            }
        }
    }
}

/// The last `.` lies inside the name and nothing behind it is a `.`.
pub proof fn lemma_last_dot(name: Seq<char>)
    ensures
        -1 <= last_dot(name) < name.len(),
        last_dot(name) >= 0 ==> name[last_dot(name)] == '.',
        forall|i: int| last_dot(name) < i < name.len() ==> name[i] != '.',
    decreases name.len(),
{
    if name.len() == 0 {
    } else if name.last() == '.' {
    } else {
        let front = name.drop_last();
        lemma_last_dot(front);
        assert forall|i: int| last_dot(name) < i < name.len() implies name[i] != '.' by {
            if i < front.len() {
                assert(front[i] == name[i]);
            }
        }
    }
}

/// A path falls into its directory prefix and its file name.
pub proof fn lemma_path_parts(path: Seq<char>)
    ensures
        dir_prefix(path) + file_name(path) == path,
        dir_prefix(path).len() == 0 || dir_prefix(path).last() == '/',
{
    lemma_name_start(path);
    assert(dir_prefix(path) + file_name(path) =~= path);
}

/// Behind a prefix that is empty or ends in `/`, a text without `/` is the
/// file name.
pub proof fn lemma_name_start_behind(prefix: Seq<char>, name: Seq<char>)
    requires
        prefix.len() == 0 || prefix.last() == '/',
        no_separator(name),
    ensures
        name_start(prefix + name) == prefix.len(),
        dir_prefix(prefix + name) == prefix,
        file_name(prefix + name) == name,
    decreases name.len(),
{
    let whole = prefix + name;
    if name.len() == 0 {
        assert(whole =~= prefix);
        if prefix.len() > 0 {
        }
    } else {
        assert(whole.last() == name.last());
        assert(whole.drop_last() =~= prefix + name.drop_last());
        lemma_name_start_behind(prefix, name.drop_last());
    }
    assert(dir_prefix(whole) =~= prefix);
    assert(file_name(whole) =~= name);
}

/// Replacing the file name by a text without `/` keeps the directory and
/// makes that text the file name.
pub proof fn lemma_with_file_name(path: Seq<char>, name: Seq<char>)
    requires
        no_separator(name),
    ensures
        dir_prefix(with_file_name(path, name)) == dir_prefix(path),
        file_name(with_file_name(path, name)) == name,
{
    lemma_path_parts(path);
    lemma_name_start_behind(dir_prefix(path), name);
}

/// Where the parts of a path lie in it.
struct Parts {
    /// Start of the file name.
    name: usize,
    /// End of the stem.
    stem_end: usize,
    /// Whether an extension follows the stem, behind one `.`.
    dotted: bool,
}

fn parts_of(chars: &Vec<char>) -> (parts: Parts)
    ensures
        parts.name == name_start(chars@),
        parts.name <= parts.stem_end <= chars.len(),
        parts.dotted == (last_dot(file_name(chars@)) > 0),
        parts.dotted ==> parts.stem_end == parts.name + last_dot(file_name(chars@)),
        !parts.dotted ==> parts.stem_end == chars.len(),
{
    let n = chars.len();
    let mut name: usize = 0;
    let mut i: usize = 0;
    while i < n
        invariant
            i <= n == chars.len(),
            name == name_start(chars@.take(i as int)),
            name <= i,
        decreases n - i,
    {
        assert(chars@.take(i + 1).drop_last() =~= chars@.take(i as int));
        if chars[i] == '/' {
            name = i + 1;
        }
        i += 1;
    }
    assert(chars@.take(n as int) =~= chars@);
    let ghost tail = file_name(chars@);
    let mut dot: usize = 0;
    let mut found = false;
    let mut j: usize = name;
    while j < n
        invariant
            name <= j <= n == chars.len(),
            tail == chars@.skip(name as int),
            found ==> name <= dot < j && last_dot(tail.take(j - name)) == dot - name,
            !found ==> last_dot(tail.take(j - name)) == -1,
        decreases n - j,
    {
        assert(tail.take(j + 1 - name).drop_last() =~= tail.take(j - name));
        assert(tail.take(j + 1 - name).last() == chars@[j as int]);
        if chars[j] == '.' {
            dot = j;
            found = true;
        }
        j += 1;
    }
    assert(tail.take(n - name) =~= tail);
    if found && dot > name {
        Parts { name, stem_end: dot, dotted: true }
    } else {
        Parts { name, stem_end: n, dotted: false }
    }
}

/// The file name of `path`.
pub fn file_name_of(path: &str) -> (out: String)
    ensures
        out@ == file_name(path@),
{
    let chars = chars_of(path);
    let parts = parts_of(&chars);
    string_of(&chars, parts.name, chars.len())
}

/// The stem of `path`: its file name without the extension.
pub fn file_stem_of(path: &str) -> (out: String)
    ensures
        out@ == file_stem(path@),
{
    let chars = chars_of(path);
    let parts = parts_of(&chars);
    let out = string_of(&chars, parts.name, parts.stem_end);
    assert(out@ =~= file_stem(path@));
    out
}

/// The extension of `path`, if its file name has one.
pub fn extension_of_path(path: &str) -> (out: Option<String>)
    ensures
        match out {
            Some(e) => extension(path@) == Some(e@),
            None => extension(path@) is None,
        },
{
    let chars = chars_of(path);
    let parts = parts_of(&chars);
    if parts.dotted {
        proof {
            lemma_last_dot(file_name(path@));
        }
        let e = string_of(&chars, parts.stem_end + 1, chars.len());
        proof {
            assert(e@ =~= file_name(path@).skip(last_dot(file_name(path@)) + 1));
        }
        Some(e)
    } else {
        None
    }
}

/// `path` with its file name replaced by `name`.
pub fn replace_file_name(path: &str, name: &str) -> (out: String)
    ensures
        out@ == with_file_name(path@, name@),
{
    let chars = chars_of(path);
    let parts = parts_of(&chars);
    let mut out = string_of(&chars, 0, parts.name);
    push_text(&mut out, name);
    out
}

/// `p` with `suffix` put behind the stem of its file name, in front of the
/// `.` of the extension if there is one.
pub fn append_suffix_before_ext(p: &str, suffix: &str) -> (out: String)
    ensures
        out@ == with_suffix(p@, suffix@),
{
    let chars = chars_of(p);
    let parts = parts_of(&chars);
    let mut out = string_of(&chars, 0, parts.stem_end);
    push_text(&mut out, suffix);
    push_range(&mut out, &chars, parts.stem_end, chars.len());
    proof {
        let name = file_name(p@);
        lemma_last_dot(name);
        lemma_name_start(p@);
        assert(chars@.subrange(0, parts.stem_end as int) =~= dir_prefix(p@) + file_stem(p@));
        assert(chars@.subrange(parts.stem_end as int, chars.len() as int) =~= dotted_extension(
            p@,
        ));
    }
    out
}

} // verus!
