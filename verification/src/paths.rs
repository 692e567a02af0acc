use vstd::prelude::*;
use vstd::string::*;

verus! {

/// Lower-case an ASCII capital letter; any other character is unchanged.
pub open spec fn spec_ascii_lower(c: char) -> char {
    if 'A' <= c && c <= 'Z' {
        (((c as u8) + 32) as char)
    } else {
        c
    }
}

/// ASCII-lower-casing of a whole character sequence.
pub open spec fn spec_lower(s: Seq<char>) -> Seq<char> {
    s.map_values(|c: char| spec_ascii_lower(c))
}

/// The index of the last '.' in `s`, or -1 when there is none.
pub open spec fn spec_last_dot(s: Seq<char>) -> int
    decreases s.len(),
{
    if s.len() == 0 {
        -1
    } else if s.last() == '.' {
        s.len() - 1
    } else {
        spec_last_dot(s.drop_last())
    }
}

/// Whether a file name carries one of the supported image extensions —
/// jpg, jpeg, png or heic, compared without regard to ASCII case.  Only
/// such files are eligible for the index.
pub open spec fn supported_extension(s: Seq<char>) -> bool {
    &&& spec_last_dot(s) >= 0
    &&& {
        let e = spec_lower(s.skip(spec_last_dot(s) + 1));
        ||| e =~= seq!['j', 'p', 'g']
        ||| e =~= seq!['j', 'p', 'e', 'g']
        ||| e =~= seq!['p', 'n', 'g']
        ||| e =~= seq!['h', 'e', 'i', 'c']
    }
}

proof fn lemma_last_dot_at(s: Seq<char>, d: int)
    requires
        0 <= d < s.len(),
        s[d] == '.',
        forall|j: int| d < j < s.len() ==> s[j] != '.',
    ensures
        spec_last_dot(s) == d,
    decreases s.len(),
{
    if d < s.len() - 1 {
        lemma_last_dot_at(s.drop_last(), d);
    }
}

proof fn lemma_no_dot(s: Seq<char>)
    requires
        forall|j: int| 0 <= j < s.len() ==> s[j] != '.',
    ensures
        spec_last_dot(s) == -1,
    decreases s.len(),
{
    if s.len() > 0 {
        lemma_no_dot(s.drop_last());
    }
}

fn ascii_lower_char(c: char) -> (r: char)
    ensures
        r == spec_ascii_lower(c),
{
    if c >= 'A' && c <= 'Z' {
        (((c as u8) + 32) as char)
    } else {
        c
    }
}

/// Whether this file name is eligible for the image index: it ends in a
/// supported image extension, compared case-insensitively.
pub fn has_supported_extension(name: &str) -> (b: bool)
    ensures
        b == supported_extension(name@),
{
    let n = name.unicode_len();
    let mut i: usize = n;
    while i > 0
        invariant
            i <= n,
            n == name@.len(),
            forall|j: int| i <= j < n ==> name@[j] != '.',
        decreases i,
    {
        if name.get_char(i - 1) == '.' {
            proof {
                lemma_last_dot_at(name@, i - 1);
            }
            let ghost ext = spec_lower(name@.skip(i as int));
            assert(ext.len() == n - i);
            let e = n - i;
            if e == 3 {
                let c0 = ascii_lower_char(name.get_char(i));
                let c1 = ascii_lower_char(name.get_char(i + 1));
                let c2 = ascii_lower_char(name.get_char(i + 2));
                assert(ext[0] == c0 && ext[1] == c1 && ext[2] == c2);
                let m = (c0 == 'j' && c1 == 'p' && c2 == 'g') || (c0 == 'p' && c1 == 'n' && c2
                    == 'g');
                proof {
                    if m {
                        if c0 == 'j' {
                            assert(ext =~= seq!['j', 'p', 'g']);
                        } else {
                            assert(ext =~= seq!['p', 'n', 'g']);
                        }
                    } else {
                        assert(!(ext =~= seq!['j', 'p', 'g']));
                        assert(!(ext =~= seq!['p', 'n', 'g']));
                        assert(!(ext =~= seq!['j', 'p', 'e', 'g']));
                        assert(!(ext =~= seq!['h', 'e', 'i', 'c']));
                    }
                }
                return m;
            } else if e == 4 {
                let c0 = ascii_lower_char(name.get_char(i));
                let c1 = ascii_lower_char(name.get_char(i + 1));
                let c2 = ascii_lower_char(name.get_char(i + 2));
                let c3 = ascii_lower_char(name.get_char(i + 3));
                assert(ext[0] == c0 && ext[1] == c1 && ext[2] == c2 && ext[3] == c3);
                let m = (c0 == 'j' && c1 == 'p' && c2 == 'e' && c3 == 'g') || (c0 == 'h' && c1
                    == 'e' && c2 == 'i' && c3 == 'c');
                proof {
                    if m {
                        if c0 == 'j' {
                            assert(ext =~= seq!['j', 'p', 'e', 'g']);
                        } else {
                            assert(ext =~= seq!['h', 'e', 'i', 'c']);
                        }
                    } else {
                        assert(!(ext =~= seq!['j', 'p', 'e', 'g']));
                        assert(!(ext =~= seq!['h', 'e', 'i', 'c']));
                        assert(!(ext =~= seq!['j', 'p', 'g']));
                        assert(!(ext =~= seq!['p', 'n', 'g']));
                    }
                }
                return m;
            } else {
                proof {
                    assert(!(ext =~= seq!['j', 'p', 'g']));
                    assert(!(ext =~= seq!['p', 'n', 'g']));
                    assert(!(ext =~= seq!['j', 'p', 'e', 'g']));
                    assert(!(ext =~= seq!['h', 'e', 'i', 'c']));
                }
                return false;
            }
        }
        i -= 1;
    }
    proof {
        lemma_no_dot(name@);
    }
    false
}

/// Join a root directory and a relative path with a single '/'.  The
/// cache root mirrors the storage root's relative paths through this.
pub fn join_path(root: &str, rel: &str) -> (r: String)
    ensures
        r@ == root@ + seq!['/'] + rel@,
{
    proof {
        reveal_strlit("/");
        assert(("/")@ =~= seq!['/']);
    }
    let mut s = root.to_owned();
    s.append("/");
    s.append(rel);
    assert(s@ =~= root@ + seq!['/'] + rel@);
    s
}

/// A `..` path component starts at position `i`: two dots bounded by
/// the start or a separator on the left and the end or a separator on
/// the right.  Dots inside a component, as in `a..b.jpg`, are ordinary
/// name characters.
pub open spec fn dot_dot_at(s: Seq<char>, i: int) -> bool {
    &&& s[i] == '.' && s[i + 1] == '.'
    &&& (i == 0 || s[i - 1] == '/')
    &&& (i + 2 == s.len() || s[i + 2] == '/')
}

/// A relative path that is safe to resolve under a root: non-empty, not
/// absolute, and without a parent-directory (`..`) component.  Requests
/// that fail this test are refused before any path is joined, which
/// keeps every cache write and storage read inside its root.
pub open spec fn spec_clean_relative(s: Seq<char>) -> bool {
    &&& s.len() > 0
    &&& s[0] != '/'
    &&& forall|i: int| 0 <= i && i + 1 < s.len() ==> !dot_dot_at(s, i)
}

/// Whether a requested path may be resolved under the storage and cache
/// roots.
pub fn is_clean_relative(path: &str) -> (b: bool)
    ensures
        b == spec_clean_relative(path@),
{
    let n = path.unicode_len();
    if n == 0 {
        return false;
    }
    if path.get_char(0) == '/' {
        return false;
    }
    let mut at_start: bool = true;
    let mut i: usize = 0;
    while i < n
        invariant
            i <= n,
            n == path@.len(),
            forall|j: int| 0 <= j && j + 1 < n && j < i ==> !dot_dot_at(path@, j),
            at_start == (i == 0 || path@[i - 1] == '/'),
        decreases n - i,
    {
        let c = path.get_char(i);
        if at_start && c == '.' && i + 1 < n && path.get_char(i + 1) == '.' && (i + 2 == n
            || path.get_char(i + 2) == '/') {
            assert(dot_dot_at(path@, i as int));
            return false;
        }
        at_start = c == '/';
        i += 1;
    }
    true
}

} // verus!
