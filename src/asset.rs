//! An asset file: its bytes and its path. Paths use `/` between components.

use vstd::prelude::*;
use vstd::string::{StrSliceExecFns, StringExecFns};

verus! {

/// The index of the last `c` in `s`, or -1.
pub open spec fn last_index_of(s: Seq<char>, c: char) -> int
    decreases s.len(),
{
    if s.len() == 0 {
        -1
    } else if s.last() == c {
        s.len() - 1
    } else {
        last_index_of(s.drop_last(), c)
    }
}

/// The length of `path` once trailing `/` and trailing `/.` are taken off, as
/// path components read it.
pub open spec fn trimmed_len(path: Seq<char>) -> nat
    decreases path.len(),
{
    if path.len() > 0 && path.last() == '/' {
        trimmed_len(path.drop_last())
    } else if path.len() >= 2 && path.last() == '.' && path[path.len() - 2] == '/' {
        trimmed_len(path.drop_last())
    } else {
        path.len()
    }
}

/// The length of `path` once trailing `/` are taken off.
pub open spec fn slashless_len(path: Seq<char>) -> nat
    decreases path.len(),
{
    if path.len() > 0 && path.last() == '/' {
        slashless_len(path.drop_last())
    } else {
        path.len()
    }
}

/// `path` without trailing separators and `.` components.
pub open spec fn trimmed(path: Seq<char>) -> Seq<char> {
    path.take(trimmed_len(path) as int)
}

/// The last component of a path, after its final `/`.
pub open spec fn last_component(path: Seq<char>) -> Seq<char> {
    let t = trimmed(path);
    t.subrange(last_index_of(t, '/') + 1, t.len() as int)
}

/// The name of the file: the last component, or nothing when that is `.` or
/// `..`.
pub open spec fn file_name(path: Seq<char>) -> Seq<char> {
    let c = last_component(path);
    if c == seq!['.'] || c == seq!['.', '.'] {
        seq![]
    } else {
        c
    }
}

/// The name of a file without its extension. A leading dot starts no
/// extension.
pub open spec fn file_stem(path: Seq<char>) -> Seq<char> {
    let name = file_name(path);
    let dot = last_index_of(name, '.');
    if dot > 0 {
        name.subrange(0, dot)
    } else {
        name
    }
}

/// What follows the last dot of the file name, or nothing.
pub open spec fn file_extension(path: Seq<char>) -> Seq<char> {
    let name = file_name(path);
    let dot = last_index_of(name, '.');
    if dot > 0 {
        name.subrange(dot + 1, name.len() as int)
    } else {
        seq![]
    }
}

/// `c` in lower case when it is an ASCII capital letter.
pub open spec fn ascii_lower_char(c: char) -> char {
    if 'A' <= c && c <= 'Z' {
        ((c as u32 + 32) as u32) as char
    } else {
        c
    }
}

/// `s` with its ASCII capital letters in lower case.
pub open spec fn ascii_lower(s: Seq<char>) -> Seq<char> {
    s.map_values(|c: char| ascii_lower_char(c))
}

/// The path has a last component, so a parent.
pub open spec fn has_parent(path: Seq<char>) -> bool {
    trimmed_len(path) > 0
}

/// The directory that holds the file: the path before its last component,
/// without trailing `/`; the root itself when nothing else is left before it;
/// nothing for a path of one component.
pub open spec fn parent_path(path: Seq<char>) -> Seq<char> {
    let t = trimmed(path);
    let slash = last_index_of(t, '/');
    if slash < 0 {
        seq![]
    } else {
        let before = t.take(slash);
        let kept = slashless_len(before);
        if kept == 0 {
            seq!['/']
        } else {
            before.take(kept as int)
        }
    }
}

/// Relies on `str::to_ascii_lowercase`: ASCII capitals become lower case,
/// every other character is kept.
#[verifier::external_body]
fn ascii_lowercase(s: &str) -> (r: String)
    ensures
        r@ == ascii_lower(s@),
{
    s.to_ascii_lowercase()
}

proof fn lemma_trimmed_len(s: Seq<char>)
    ensures
        trimmed_len(s) <= s.len(),
        slashless_len(s) <= s.len(),
    decreases s.len(),
{
    if s.len() > 0 {
        lemma_trimmed_len(s.drop_last());
    }
}

/// How long `s` stays once trailing `/` and `/.` are taken off.
fn trim_end(s: &str) -> (r: usize)
    ensures
        r == trimmed_len(s@),
{
    let n = s.unicode_len();
    let mut end = n;
    assert(s@.take(n as int) =~= s@);
    while end > 0
        invariant
            n == s@.len(),
            end <= n,
            trimmed_len(s@.take(end as int)) == trimmed_len(s@),
        decreases end,
    {
        let ghost t = s@.take(end as int);
        assert(t.drop_last() =~= s@.take(end - 1));
        if s.get_char(end - 1) == '/' {
            end = end - 1;
        } else if end >= 2 && s.get_char(end - 1) == '.' && s.get_char(end - 2) == '/' {
            end = end - 1;
        } else {
            assert(trimmed_len(t) == end);
            assert(s@.take(n as int) =~= s@);
            return end;
        }
    }
    assert(trimmed_len(s@.take(0)) == 0);
    0
}

/// How long the first `end` characters of `s` stay once trailing `/` are
/// taken off.
fn trim_slashes(s: &str, end: usize) -> (r: usize)
    requires
        end <= s@.len(),
    ensures
        r == slashless_len(s@.take(end as int)),
{
    let mut k = end;
    while k > 0
        invariant
            k <= end <= s@.len(),
            slashless_len(s@.take(k as int)) == slashless_len(s@.take(end as int)),
        decreases k,
    {
        assert(s@.take(k as int).drop_last() =~= s@.take(k - 1));
        if s.get_char(k - 1) == '/' {
            k = k - 1;
        } else {
            return k;
        }
    }
    k
}

proof fn lemma_last_index_bounds(s: Seq<char>, c: char)
    ensures
        -1 <= last_index_of(s, c) < s.len(),
        last_index_of(s, c) >= 0 ==> s[last_index_of(s, c)] == c,
    decreases s.len(),
{
    if s.len() > 0 {
        lemma_last_index_bounds(s.drop_last(), c);
    }
}

fn find_last(s: &str, end: usize, c: char) -> (r: Option<usize>)
    requires
        end <= s@.len(),
    ensures
        match r {
            Some(i) => i == last_index_of(s@.take(end as int), c),
            None => last_index_of(s@.take(end as int), c) == -1,
        },
{
    let mut found: Option<usize> = None;
    let mut i: usize = 0;
    while i < end
        invariant
            end <= s@.len(),
            i <= end,
            match found {
                Some(k) => k == last_index_of(s@.take(i as int), c),
                None => last_index_of(s@.take(i as int), c) == -1,
            },
        decreases end - i,
    {
        assert(s@.take(i + 1).drop_last() =~= s@.take(i as int));
        if s.get_char(i) == c {
            found = Some(i);
        }
        i = i + 1;
    }
    found
}

/// The bytes of a file and the path it was read from or is written to.
#[derive(Clone, Debug, PartialEq)]
pub struct Asset {
    pub bytes: Vec<u8>,
    pub path: String,
}

impl Asset {
    pub fn new(bytes: Vec<u8>, path: &str) -> (r: Asset)
        ensures
            r.bytes@ == bytes@,
            r.path@ == path@,
    {
        Asset { bytes, path: String::from_str(path) }
    }

    pub fn path(&self) -> (r: &str)
        ensures
            r@ == self.path@,
    {
        self.path.as_str()
    }

    /// Where the last component of the path starts and ends.
    fn component_bounds(&self) -> (r: (usize, usize))
        ensures
            r.1 == trimmed_len(self.path@),
            r.0 == last_index_of(trimmed(self.path@), '/') + 1,
            r.0 <= r.1 <= self.path@.len(),
    {
        let path = self.path.as_str();
        let end = trim_end(path);
        proof {
            lemma_trimmed_len(path@);
            lemma_last_index_bounds(trimmed(path@), '/');
        }
        match find_last(path, end, '/') {
            Some(i) => (i + 1, end),
            None => (0, end),
        }
    }

    /// The name of the file, as a slice of the path.
    fn file_name_str(&self) -> (r: &str)
        ensures
            r@ == file_name(self.path@),
    {
        let path = self.path.as_str();
        let (start, end) = self.component_bounds();
        let component = path.substring_char(start, end);
        assert(component@ =~= last_component(path@));
        let n = end - start;
        let dots = (n == 1 && component.get_char(0) == '.') || (n == 2 && component.get_char(0)
            == '.' && component.get_char(1) == '.');
        if dots {
            assert(component@ =~= seq!['.'] || component@ =~= seq!['.', '.']);
            component.substring_char(0, 0)
        } else {
            proof {
                if component@ == seq!['.'] {
                    assert(component@[0] == '.');
                }
                if component@ == seq!['.', '.'] {
                    assert(component@[0] == '.' && component@[1] == '.');
                }
            }
            component
        }
    }

    /// The file name without its extension.
    pub fn name(&self) -> (r: &str)
        ensures
            r@ == file_stem(self.path@),
    {
        let name = self.file_name_str();
        let n = name.unicode_len();
        proof {
            lemma_last_index_bounds(name@, '.');
            assert(name@.take(n as int) =~= name@);
        }
        match find_last(name, n, '.') {
            Some(dot) => {
                if dot > 0 {
                    name.substring_char(0, dot)
                } else {
                    name
                }
            },
            None => name,
        }
    }

    /// What follows the last dot of the file name, in ASCII lower case, or
    /// nothing.
    pub fn extension(&self) -> (r: String)
        ensures
            r@ == ascii_lower(file_extension(self.path@)),
    {
        let name = self.file_name_str();
        let m = name.unicode_len();
        proof {
            lemma_last_index_bounds(name@, '.');
            assert(name@.take(m as int) =~= name@);
        }
        let text = match find_last(name, m, '.') {
            Some(dot) => {
                if dot > 0 {
                    name.substring_char(dot + 1, m)
                } else {
                    name.substring_char(0, 0)
                }
            },
            None => name.substring_char(0, 0),
        };
        ascii_lowercase(text)
    }

    /// Whether the path has a last component, so a directory holding it.
    pub fn has_parent_dir(&self) -> (r: bool)
        ensures
            r == has_parent(self.path@),
    {
        trim_end(self.path.as_str()) > 0
    }

    /// The directory of the file. The path must have a last component.
    pub fn parent_dir(&self) -> (r: &str)
        requires
            has_parent(self.path@),
        ensures
            r@ == parent_path(self.path@),
    {
        let path = self.path.as_str();
        let end = trim_end(path);
        proof {
            lemma_trimmed_len(path@);
            lemma_last_index_bounds(trimmed(path@), '/');
        }
        match find_last(path, end, '/') {
            Some(slash) => {
                let kept = trim_slashes(path, slash);
                proof {
                    let t = trimmed(path@);
                    assert(t.take(slash as int) =~= path@.take(slash as int));
                    lemma_trimmed_len(path@.take(slash as int));
                }
                if kept == 0 {
                    proof {
                        lemma_last_index_bounds(trimmed(path@), '/');
                        assert(path@[slash as int] == '/');
                    }
                    path.substring_char(slash, slash + 1)
                } else {
                    path.substring_char(0, kept)
                }
            },
            None => path.substring_char(0, 0),
        }
    }
}

} // verus!
