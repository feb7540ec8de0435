//! One filesystem entry.
//!
//! A [`File`] records what the listing pipeline needs to know about a
//! path: its final component (the display name), the lowercased
//! extension of that name, the raw path it came from, and whether the
//! path is a directory. Classifying the path is the caller's business,
//! since it takes a metadata read; everything derived from the path
//! string is computed, and proved, here.

use vstd::prelude::*;

verus! {

/// The path with every trailing `/` removed.
pub open spec fn spec_strip_trailing_slashes(p: Seq<char>) -> Seq<char>
    decreases p.len(),
{
    if p.len() > 0 && p.last() == '/' {
        spec_strip_trailing_slashes(p.drop_last())
    } else {
        p
    }
}

/// The suffix after the last `/`, or the whole sequence when it has none.
pub open spec fn spec_after_last_slash(p: Seq<char>) -> Seq<char>
    decreases p.len(),
{
    if p.len() == 0 {
        p
    } else if p.last() == '/' {
        Seq::empty()
    } else {
        spec_after_last_slash(p.drop_last()).push(p.last())
    }
}

/// The display name of a path: its last component. Trailing slashes are
/// ignored, and a path of slashes alone (the root) names itself.
pub open spec fn spec_filename(p: Seq<char>) -> Seq<char> {
    let s = spec_strip_trailing_slashes(p);
    if s.len() == 0 {
        "/"@
    } else {
        spec_after_last_slash(s)
    }
}

/// The part of a name after its last `.`: absent when the name has no
/// `.`, empty when the name ends in one.
pub open spec fn spec_ext_of_name(n: Seq<char>) -> Option<Seq<char>>
    decreases n.len(),
{
    if n.len() == 0 {
        None
    } else if n.last() == '.' {
        Some(Seq::empty())
    } else {
        match spec_ext_of_name(n.drop_last()) {
            Some(e) => Some(e.push(n.last())),
            None => None,
        }
    }
}

/// ASCII upper-case letters map to lower case; every other character is
/// kept as it is.
pub open spec fn lower_char(c: char) -> char {
    if ('A' as u32) <= (c as u32) && (c as u32) <= ('Z' as u32) {
        (((c as u32) + 32) as char)
    } else {
        c
    }
}

/// [`lower_char`], applied to every character.
pub open spec fn lower_chars(s: Seq<char>) -> Seq<char> {
    s.map(|i: int, c: char| lower_char(c))
}

/// The extension of a path: the lowercased text after the last `.` of its
/// name. The names `.`, `..` and `/` have none, and a name without a `.`
/// has none.
pub open spec fn spec_extension(p: Seq<char>) -> Option<Seq<char>> {
    if p.len() == 0 {
        None
    } else {
        let n = spec_filename(p);
        if n == "."@ || n == ".."@ || n == "/"@ {
            None
        } else {
            match spec_ext_of_name(n) {
                Some(e) => Some(lower_chars(e)),
                None => None,
            }
        }
    }
}

/// A name marks a dotfile when it starts with `.`.
pub open spec fn spec_is_dotfile(f: File) -> bool {
    f.name@.len() > 0 && f.name@[0] == '.'
}

/// One filesystem path, as the listing pipeline sees it.
#[derive(Debug)]
pub struct File {
    /// The final path component.
    pub name: String,
    /// Lowercased text after the last `.` of the name, if any.
    pub extension: Option<String>,
    /// The path the entry was made from, kept for error reporting.
    pub path: String,
    /// Whether the path is a directory (a symlink counts as one when its
    /// target is one).
    pub directory: bool,
}

/// The suffix after the last slash holds no slash.
proof fn lemma_after_last_slash_no_slash(p: Seq<char>)
    ensures
        forall|j: int|
            0 <= j < spec_after_last_slash(p).len() ==> #[trigger] spec_after_last_slash(p)[j]
                != '/',
    decreases p.len(),
{
    if p.len() == 0 {
    } else if p.last() == '/' {
    } else {
        lemma_after_last_slash_no_slash(p.drop_last());
        let r = spec_after_last_slash(p);
        let q = spec_after_last_slash(p.drop_last());
        assert forall|j: int| 0 <= j < r.len() implies r[j] != '/' by {
            if j < q.len() {
                assert(r[j] == q[j]);
            } else {
                assert(r[j] == p.last());
            }
        }
    }
}

/// What stripping trailing slashes leaves never ends in a slash.
proof fn lemma_strip_trailing_slashes_last(p: Seq<char>)
    ensures
        spec_strip_trailing_slashes(p).len() > 0 ==> spec_strip_trailing_slashes(p).last() != '/',
    decreases p.len(),
{
    if p.len() > 0 && p.last() == '/' {
        lemma_strip_trailing_slashes_last(p.drop_last());
    }
}

/// On a sequence without slashes, taking the suffix after the last
/// slash changes nothing.
proof fn lemma_after_last_slash_slashless(p: Seq<char>)
    requires
        forall|j: int| 0 <= j < p.len() ==> p[j] != '/',
    ensures
        spec_after_last_slash(p) == p,
    decreases p.len(),
{
    if p.len() > 0 {
        lemma_after_last_slash_slashless(p.drop_last());
        assert(p.drop_last().push(p.last()) =~= p);
    }
}

/// Name extraction is idempotent: the name of a name is the name
/// itself.
pub proof fn lemma_filename_idempotent(p: Seq<char>)
    requires
        p.len() > 0,
    ensures
        spec_filename(spec_filename(p)) == spec_filename(p),
{
    reveal_strlit("/");
    assert("/"@.len() == 1);
    let s = spec_strip_trailing_slashes(p);
    if s.len() == 0 {
        assert(spec_filename(p) == "/"@);
        assert("/"@.last() == '/');
        assert(spec_strip_trailing_slashes("/"@) == spec_strip_trailing_slashes("/"@.drop_last()));
        assert("/"@.drop_last().len() == 0);
    } else {
        let n = spec_after_last_slash(s);
        lemma_strip_trailing_slashes_last(p);
        assert(s.last() != '/');
        assert(n.len() > 0);
        lemma_after_last_slash_no_slash(s);
        assert(n.last() != '/');
        assert(spec_strip_trailing_slashes(n) == n);
        lemma_after_last_slash_slashless(n);
    }
}

/// When a name has no `.` at all, it has no extension.
proof fn lemma_ext_of_name_no_dot(n: Seq<char>)
    requires
        forall|j: int| 0 <= j < n.len() ==> n[j] != '.',
    ensures
        spec_ext_of_name(n) == None::<Seq<char>>,
    decreases n.len(),
{
    if n.len() > 0 {
        lemma_ext_of_name_no_dot(n.drop_last());
    }
}

/// When the last `.` of a name stands at `k`, the extension before
/// lowercasing is everything after `k`.
proof fn lemma_ext_of_name_dot_at(n: Seq<char>, k: int)
    requires
        0 <= k < n.len(),
        n[k] == '.',
        forall|j: int| k < j < n.len() ==> n[j] != '.',
    ensures
        spec_ext_of_name(n) == Some(n.skip(k + 1)),
    decreases n.len(),
{
    if k == n.len() - 1 {
        assert(n.skip(k + 1) =~= Seq::<char>::empty());
    } else {
        lemma_ext_of_name_dot_at(n.drop_last(), k);
        assert(n.drop_last().skip(k + 1).push(n.last()) =~= n.skip(k + 1));
    }
}

/// Relies on `str::to_ascii_lowercase`: ASCII upper-case letters are
/// mapped to lower case and every other character is kept as it is.
#[verifier::external_body]
fn ascii_lowercase(s: &str) -> (r: String)
    ensures
        r@ == lower_chars(s@),
{
    s.to_ascii_lowercase()
}

impl File {
    /// The display name of a path: its last component.
    pub fn filename(path: &str) -> (r: String)
        requires
            path@.len() > 0,
        ensures
            r@ == spec_filename(path@),
    {
        let len = path.unicode_len();
        let mut end = len;
        proof {
            assert(path@.take(len as int) =~= path@);
        }
        loop
            invariant
                end <= len,
                len == path@.len(),
                spec_strip_trailing_slashes(path@) == spec_strip_trailing_slashes(
                    path@.take(end as int),
                ),
            ensures
                end <= path@.len(),
                spec_strip_trailing_slashes(path@) == path@.take(end as int),
            decreases end,
        {
            if end == 0 {
                break ;
            }
            let c = path.get_char(end - 1);
            if c != '/' {
                proof {
                    assert(path@.take(end as int).last() == c);
                }
                break ;
            }
            proof {
                assert(path@.take(end as int).last() == c);
                assert(path@.take(end as int).drop_last() =~= path@.take(end - 1));
            }
            end = end - 1;
        }
        if end == 0 {
            proof {
                assert(spec_filename(path@) == "/"@);
            }
            String::from_str("/")
        } else {
            let mut start = end;
            proof {
                assert(spec_after_last_slash(path@.take(end as int)) + path@.subrange(
                    end as int,
                    end as int,
                ) =~= spec_after_last_slash(path@.take(end as int)));
            }
            loop
                invariant
                    start <= end,
                    end <= path@.len(),
                    spec_after_last_slash(path@.take(end as int)) == spec_after_last_slash(
                        path@.take(start as int),
                    ) + path@.subrange(start as int, end as int),
                ensures
                    start <= end <= path@.len(),
                    spec_after_last_slash(path@.take(end as int)) == path@.subrange(
                        start as int,
                        end as int,
                    ),
                decreases start,
            {
                if start == 0 {
                    proof {
                        assert(Seq::<char>::empty() + path@.subrange(0, end as int)
                            =~= path@.subrange(0, end as int));
                    }
                    break ;
                }
                let c = path.get_char(start - 1);
                if c == '/' {
                    proof {
                        assert(path@.take(start as int).last() == c);
                        assert(Seq::<char>::empty() + path@.subrange(start as int, end as int)
                            =~= path@.subrange(start as int, end as int));
                    }
                    break ;
                }
                proof {
                    assert(path@.take(start as int).last() == c);
                    assert(path@.take(start as int).drop_last() =~= path@.take(start - 1));
                    assert(spec_after_last_slash(path@.take(start - 1)).push(c) + path@.subrange(
                        start as int,
                        end as int,
                    ) =~= spec_after_last_slash(path@.take(start - 1)) + path@.subrange(
                        start - 1,
                        end as int,
                    ));
                }
                start = start - 1;
            }
            let seg = path.substring_char(start, end);
            seg.to_owned()
        }
    }

    /// The extension of a path: the lowercased text after the last `.` of
    /// its name, absent when the name has none.
    pub fn extension(path: &str) -> (r: Option<String>)
        ensures
            r.deep_view() == spec_extension(path@),
    {
        if path.unicode_len() == 0 {
            return None;
        }
        let name = File::filename(path);
        if name == String::from_str(".") || name == String::from_str("..") || name
            == String::from_str("/") {
            return None;
        }
        let n = name.as_str().unicode_len();
        let mut i = n;
        loop
            invariant
                i <= n,
                n == name@.len(),
                forall|j: int| i <= j < n ==> name@[j] != '.',
            ensures
                i <= n,
                forall|j: int| i <= j < n ==> name@[j] != '.',
                i > 0 ==> name@[i - 1] == '.',
            decreases i,
        {
            if i == 0 {
                break ;
            }
            if name.as_str().get_char(i - 1) == '.' {
                break ;
            }
            i = i - 1;
        }
        if i == 0 {
            proof {
                lemma_ext_of_name_no_dot(name@);
            }
            None
        } else {
            let raw = name.as_str().substring_char(i, n);
            let low = ascii_lowercase(raw);
            proof {
                lemma_ext_of_name_dot_at(name@, i - 1);
                assert(name@.subrange(i as int, n as int) =~= name@.skip(i as int));
            }
            Some(low)
        }
    }

    /// Whether the entry is a directory.
    pub fn is_dir(&self) -> (r: bool)
        ensures
            r == self.directory,
    {
        self.directory
    }

    /// Whether the entry's name starts with `.`.
    pub fn is_dotfile(&self) -> (r: bool)
        ensures
            r == spec_is_dotfile(*self),
    {
        if self.name.as_str().unicode_len() == 0 {
            false
        } else {
            self.name.as_str().get_char(0) == '.'
        }
    }

    /// Builds the entry for a path whose classification the caller has
    /// read from the filesystem.
    pub fn new(path: String, directory: bool) -> (r: File)
        requires
            path@.len() > 0,
        ensures
            r.name@ == spec_filename(path@),
            r.extension.deep_view() == spec_extension(path@),
            r.path == path,
            r.directory == directory,
    {
        let name = File::filename(path.as_str());
        let extension = File::extension(path.as_str());
        File { name, extension, path, directory }
    }
}

} // verus!
