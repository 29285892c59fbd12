//! Paths of shared files.
//!
//! The server separates the parts of a path with backslashes; here they are separated with slashes.

use vstd::prelude::*;
use vstd::string::{StrSliceExecFns, StringExecFns};

verus! {

/// A path with slashes in place of backslashes.
pub open spec fn slashed(path: Seq<char>) -> Seq<char> {
    Seq::new(
        path.len(),
        |i: int|
            if path[i] == '\\' {
                '/'
            } else {
                path[i]
            },
    )
}

/// Where in `path` the part after the last `separator` begins, if there is a separator.
pub open spec fn is_last(path: Seq<char>, separator: char, at: int) -> bool {
    &&& 0 <= at < path.len()
    &&& path[at] == separator
    &&& forall|i: int| at < i < path.len() ==> #[trigger] path[i] != separator
}

/// Where the name of the file begins: after the last slash or, without slashes, after the last backslash.
pub open spec fn name_starts(path: Seq<char>, at: int) -> bool {
    if path.contains('/') {
        is_last(path, '/', at - 1)
    } else if path.contains('\\') {
        is_last(path, '\\', at - 1)
    } else {
        at == 0
    }
}

/// The name of a file.
pub open spec fn name_of(path: Seq<char>) -> Seq<char> {
    path.skip(choose|at: int| name_starts(path, at))
}

/// The path of an entry of a directory.
pub open spec fn joined(parent: Seq<char>, name: Seq<char>) -> Seq<char> {
    if parent.len() > 0 && parent.last() == '/' {
        parent + name
    } else {
        parent + seq!['/'] + name
    }
}

/// Whether an entry of a directory stands for the directory itself or the one above.
pub open spec fn is_dots(name: Seq<char>) -> bool {
    name == seq!['.'] || name == seq!['.', '.']
}

/// The path that the server means, below the shared directory.
pub fn full_path(base: &str, path: &str) -> (r: String)
    ensures
        r@ == base@ + slashed(path@),
{
    let mut out: String = String::from_str(base);
    let len: usize = path.unicode_len();
    let mut i: usize = 0;
    proof {
        reveal_strlit("/");
        assert("/"@ =~= seq!['/']);
    }
    assert(out@ =~= base@ + slashed(path@).take(0));
    while i < len
        invariant
            i <= len == path@.len(),
            out@ == base@ + slashed(path@).take(i as int),
            "/"@ == seq!['/'],
        decreases len - i,
    {
        if path.get_char(i) == '\\' {
            out.append("/");
        } else {
            out.append(path.substring_char(i, i + 1));
        }
        i = i + 1;
        assert(out@ =~= base@ + slashed(path@).take(i as int));
    }
    assert(slashed(path@).take(i as int) =~= slashed(path@));
    out
}

/// Where the last `separator` stands.
fn rfind(path: &str, separator: char) -> (r: Option<usize>)
    ensures
        match r {
            Some(at) => is_last(path@, separator, at as int),
            None => !path@.contains(separator),
        },
{
    let len: usize = path.unicode_len();
    let mut i: usize = len;
    while i > 0
        invariant
            i <= len == path@.len(),
            forall|k: int| i <= k < len ==> #[trigger] path@[k] != separator,
        decreases i,
    {
        i = i - 1;
        if path.get_char(i) == separator {
            return Some(i);
        }
    }
    None
}

proof fn lemma_last_is_unique(path: Seq<char>, separator: char, a: int, b: int)
    requires
        is_last(path, separator, a),
        is_last(path, separator, b),
    ensures
        a == b,
{
    if a < b {
        assert(path[b] != separator);
    } else if b < a {
        assert(path[a] != separator);
    }
}

pub proof fn lemma_name(path: Seq<char>, at: int)
    requires
        name_starts(path, at),
    ensures
        name_of(path) == path.skip(at),
{
    let other = choose|at: int| name_starts(path, at);
    assert(name_starts(path, other));
    if path.contains('/') {
        lemma_last_is_unique(path, '/', at - 1, other - 1);
    } else if path.contains('\\') {
        lemma_last_is_unique(path, '\\', at - 1, other - 1);
    }
}

/// The name of a file.
pub fn file_name(path: &str) -> (r: &str)
    ensures
        r@ == name_of(path@),
{
    let len: usize = path.unicode_len();
    let at: usize = match rfind(path, '/') {
        Some(i) => i + 1,
        None => match rfind(path, '\\') {
            Some(i) => i + 1,
            None => 0,
        },
    };
    proof {
        lemma_name(path@, at as int);
        assert(path@.skip(at as int) =~= path@.subrange(at as int, len as int));
    }
    path.substring_char(at, len)
}

/// The path of an entry of a directory, unless the entry stands for the directory itself or the one
/// above.
pub fn entry_path(parent: &str, name: &str) -> (r: Option<String>)
    ensures
        match r {
            Some(path) => !is_dots(name@) && path@ == joined(parent@, name@),
            None => is_dots(name@),
        },
{
    let len: usize = name.unicode_len();
    proof {
        reveal_strlit("/");
        assert("/"@ =~= seq!['/']);
    }
    if len == 1 && name.get_char(0) == '.' {
        assert(name@ =~= seq!['.']);
        return None;
    }
    if len == 2 && name.get_char(0) == '.' && name.get_char(1) == '.' {
        assert(name@ =~= seq!['.', '.']);
        return None;
    }
    let parent_len: usize = parent.unicode_len();
    let mut full: String = String::from_str(parent);
    if parent_len == 0 || parent.get_char(parent_len - 1) != '/' {
        full.append("/");
    }
    full.append(name);
    Some(full)
}

/// The directory that a search pattern asks for: what stands before a star at the end.
pub fn searched_directory(pattern: &str) -> (r: Option<&str>)
    ensures
        match r {
            Some(path) => pattern@.len() > 0 && pattern@.last() == '*' && path@ == pattern@.drop_last(),
            None => pattern@.len() == 0 || pattern@.last() != '*',
        },
{
    let len: usize = pattern.unicode_len();
    if len > 0 && pattern.get_char(len - 1) == '*' {
        assert(pattern@.drop_last() =~= pattern@.subrange(0, len - 1));
        Some(pattern.substring_char(0, len - 1))
    } else {
        None
    }
}

/// Whether a name marks a hidden file: it begins with a dot, and something other than a dot follows.
pub open spec fn is_hidden(name: Seq<char>) -> bool {
    name.len() > 1 && name[0] == '.' && name[1] != '.'
}

pub fn hidden_name(name: &str) -> (r: bool)
    ensures
        r == is_hidden(name@),
{
    name.unicode_len() > 1 && name.get_char(0) == '.' && name.get_char(1) != '.'
}

/// The path of an entry of a directory ends in the name of the entry.
pub proof fn law_entry_keeps_its_name(parent: Seq<char>, name: Seq<char>)
    requires
        !name.contains('/'),
    ensures
        name_of(joined(parent, name)) == name,
{
    let path = joined(parent, name);
    let at = path.len() - name.len();
    assert(path[at - 1] == '/');
    assert(path.contains('/'));
    assert forall|i: int| at - 1 < i < path.len() implies #[trigger] path[i] != '/' by {
        assert(path[i] == name[i - at]);
        assert(name.contains(name[i - at]));
    }
    assert(name_starts(path, at));
    lemma_name(path, at);
    assert(path.skip(at) =~= name);
}

} // verus!
