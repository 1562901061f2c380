//! Resolution of a watched path into a repository name and a status file.
use vstd::prelude::*;
use vstd::string::*;

verus! {

/// Index of the last occurrence of `c` in `s`, or -1 when `c` does not occur.
pub open spec fn last_index_of(s: Seq<char>, c: char) -> int
    decreases s.len(),
{
    if s.len() == 0 {
        -1
    } else if s.last() == c {
        s.len() - 1
    } else {
        last_index_of(s.drop_last(), c)
    }
}

/// The last component of a path: what follows its last `/`.
pub open spec fn file_name_of(p: Seq<char>) -> Seq<char> {
    p.subrange(last_index_of(p, '/') + 1, p.len() as int)
}

/// A file name has an extension when it holds a `.` after its first character.
pub open spec fn has_extension_spec(name: Seq<char>) -> bool {
    last_index_of(name, '.') > 0
}

/// The text after the last `.` of a file name that has an extension.
pub open spec fn extension_of(name: Seq<char>) -> Seq<char> {
    name.subrange(last_index_of(name, '.') + 1, name.len() as int)
}

pub open spec fn status_prefix() -> Seq<char> {
    seq!['s', 't', 'a', 't', 'u', 's', '_']
}

pub open spec fn json_extension() -> Seq<char> {
    seq!['j', 's', 'o', 'n']
}

/// A status file is named `status_*` with the extension `json`.
pub open spec fn is_status_file_name(name: Seq<char>) -> bool {
    &&& name.len() >= status_prefix().len()
    &&& name.subrange(0, status_prefix().len() as int) == status_prefix()
    &&& has_extension_spec(name)
    &&& extension_of(name) == json_extension()
}

/// The first status file among the names of a directory's entries.
pub open spec fn first_status_name(names: Seq<Seq<char>>) -> Option<Seq<char>>
    decreases names.len(),
{
    if names.len() == 0 {
        None
    } else if is_status_file_name(names[0]) {
        Some(names[0])
    } else {
        first_status_name(names.drop_first())
    }
}

/// A directory path joined with a name inside it.
pub open spec fn join_of(dir: Seq<char>, name: Seq<char>) -> Seq<char> {
    if dir.len() > 0 && dir.last() == '/' {
        dir + name
    } else {
        dir + seq!['/'] + name
    }
}

pub open spec fn names_of(v: Seq<String>) -> Seq<Seq<char>> {
    v.map_values(|s: String| s@)
}

proof fn lemma_last_index(s: Seq<char>, c: char, j: int)
    requires
        -1 <= j < s.len(),
        j >= 0 ==> s[j] == c,
        forall|k: int| j < k < s.len() ==> s[k] != c,
    ensures
        last_index_of(s, c) == j,
    decreases s.len(),
{
    if s.len() > 0 && s.len() - 1 != j {
        lemma_last_index(s.drop_last(), c, j);
    }
}

proof fn lemma_last_index_bounds(s: Seq<char>, c: char)
    ensures
        -1 <= last_index_of(s, c) < s.len(),
        last_index_of(s, c) >= 0 ==> s[last_index_of(s, c)] == c,
    decreases s.len(),
{
    if s.len() > 0 && s.last() != c {
        lemma_last_index_bounds(s.drop_last(), c);
    }
}

/// Position of the last `c` in `s`, if any.
fn find_last(s: &str, c: char) -> (r: Option<usize>)
    ensures
        match r {
            None => last_index_of(s@, c) == -1,
            Some(i) => i == last_index_of(s@, c),
        },
{
    let n = s.unicode_len();
    let mut i: usize = n;
    while i > 0
        invariant
            i <= n,
            n == s@.len(),
            forall|k: int| i <= k < n ==> s@[k] != c,
        decreases i,
    {
        if s.get_char(i - 1) == c {
            proof {
                lemma_last_index(s@, c, i - 1);
            }
            return Some(i - 1);
        }
        i = i - 1;
    }
    proof {
        lemma_last_index(s@, c, -1);
    }
    None
}

/// Whether `s` holds the text `lit` starting at position `start`.
pub(crate) fn holds_at(s: &str, start: usize, lit: &str) -> (r: bool)
    ensures
        r == (start + lit@.len() <= s@.len() && s@.subrange(start as int, start + lit@.len())
            == lit@),
{
    let n = s.unicode_len();
    let m = lit.unicode_len();
    if start > n || m > n - start {
        return false;
    }
    let mut i: usize = 0;
    while i < m
        invariant
            i <= m,
            m == lit@.len(),
            n == s@.len(),
            start + m <= n,
            forall|k: int| 0 <= k < i ==> s@[start + k] == lit@[k],
        decreases m - i,
    {
        if s.get_char(start + i) != lit.get_char(i) {
            assert(s@.subrange(start as int, start + m)[i as int] != lit@[i as int]);
            return false;
        }
        i = i + 1;
    }
    assert(s@.subrange(start as int, start + m) =~= lit@);
    true
}

/// The last component of `path`.
pub fn file_name(path: &str) -> (r: String)
    ensures
        r@ == file_name_of(path@),
{
    proof {
        lemma_last_index_bounds(path@, '/');
    }
    let n = path.unicode_len();
    let start: usize = match find_last(path, '/') {
        None => 0,
        Some(i) => i + 1,
    };
    path.substring_char(start, n).to_string()
}

/// Whether a file name has an extension.
pub fn has_extension(name: &str) -> (r: bool)
    ensures
        r == has_extension_spec(name@),
{
    match find_last(name, '.') {
        None => false,
        Some(i) => i > 0,
    }
}

/// Whether a file name is that of a status file.
pub fn is_status_file(name: &str) -> (r: bool)
    ensures
        r == is_status_file_name(name@),
{
    proof {
        reveal_strlit("status_");
        reveal_strlit("json");
        lemma_last_index_bounds(name@, '.');
    }
    if !holds_at(name, 0, "status_") {
        assert("status_"@ =~= status_prefix());
        return false;
    }
    assert("status_"@ =~= status_prefix());
    match find_last(name, '.') {
        None => false,
        Some(i) => {
            if i == 0 {
                return false;
            }
            let n = name.unicode_len();
            let r = n - (i + 1) == 4 && holds_at(name, i + 1, "json");
            assert("json"@ =~= json_extension());
            assert(r ==> extension_of(name@) =~= json_extension());
            assert(extension_of(name@) == json_extension() ==> extension_of(name@).len() == 4);
            r
        },
    }
}

/// The first entry of a directory listing that names a status file.
pub fn discover_status_file(entries: &Vec<String>) -> (r: Option<String>)
    ensures
        match r {
            None => first_status_name(names_of(entries@)) is None,
            Some(f) => first_status_name(names_of(entries@)) == Some(f@),
        },
{
    let ghost names = names_of(entries@);
    let mut i: usize = 0;
    assert(names.subrange(0, names.len() as int) =~= names);
    while i < entries.len()
        invariant
            i <= entries@.len(),
            names == names_of(entries@),
            first_status_name(names) == first_status_name(names.subrange(i as int, names.len() as int)),
        decreases entries@.len() - i,
    {
        let ghost rest = names.subrange(i as int, names.len() as int);
        assert(rest[0] == entries@[i as int]@);
        if is_status_file(entries[i].as_str()) {
            return Some(entries[i].clone());
        }
        assert(rest.drop_first() =~= names.subrange(i + 1, names.len() as int));
        i = i + 1;
    }
    assert(names.subrange(i as int, names.len() as int).len() == 0);
    None
}

/// `dir` joined with `name`, with one `/` between them.
pub fn join_path(dir: &str, name: &str) -> (r: String)
    ensures
        r@ == join_of(dir@, name@),
{
    proof {
        reveal_strlit("/");
    }
    let n = dir.unicode_len();
    let base = dir.to_string();
    if n > 0 && dir.get_char(n - 1) == '/' {
        base.concat(name)
    } else {
        let with_slash = base.concat("/");
        assert("/"@ =~= seq!['/']);
        with_slash.concat(name)
    }
}

/// A directory listing with exactly one status file resolves to that file.
pub proof fn lemma_single_status_file(names: Seq<Seq<char>>, j: int)
    requires
        0 <= j < names.len(),
        is_status_file_name(names[j]),
        forall|k: int| 0 <= k < names.len() && k != j ==> !is_status_file_name(names[k]),
    ensures
        first_status_name(names) == Some(names[j]),
    decreases names.len(),
{
    if j > 0 {
        let rest = names.drop_first();
        assert forall|k: int| 0 <= k < rest.len() && k != j - 1 implies !is_status_file_name(
            rest[k],
        ) by {
            assert(rest[k] == names[k + 1]);
        }
        lemma_single_status_file(rest, j - 1);
    }
}

/// A directory listing with no status file resolves to nothing.
pub proof fn lemma_no_status_file(names: Seq<Seq<char>>)
    requires
        forall|k: int| 0 <= k < names.len() ==> !is_status_file_name(names[k]),
    ensures
        first_status_name(names) is None,
    decreases names.len(),
{
    if names.len() > 0 {
        let rest = names.drop_first();
        assert forall|k: int| 0 <= k < rest.len() implies !is_status_file_name(rest[k]) by {
            assert(rest[k] == names[k + 1]);
        }
        lemma_no_status_file(rest);
    }
}

} // verus!
