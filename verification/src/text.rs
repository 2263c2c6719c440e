//! Small text utilities of the core: truncation that never panics, and
//! the whitespace trimming applied to user-supplied names.

use vstd::prelude::*;
use vstd::string::StrSliceExecFns;

verus! {

/// Truncate a string to at most `len` characters without panicking: a
/// short enough string is returned unchanged, a longer one is cut to
/// exactly its first `len` characters.
pub fn safe_truncate(s: String, len: usize) -> (r: String)
    ensures
        s@.len() <= len ==> r@ == s@,
        s@.len() > len ==> r@ == s@.subrange(0, len as int),
{
    let n = s.as_str().unicode_len();
    if n <= len {
        return s;
    }
    let front = s.as_str().substring_char(0, len);
    front.to_owned()
}

/// Whether a character counts as trimmable whitespace.
pub open spec fn is_space(c: char) -> bool {
    c == ' ' || c == '\t' || c == '\n' || c == '\r'
}

/// A sequence without its leading whitespace.
pub open spec fn trim_front(s: Seq<char>) -> Seq<char>
    decreases s.len(),
{
    if s.len() == 0 {
        s
    } else if is_space(s[0]) {
        trim_front(s.drop_first())
    } else {
        s
    }
}

/// A sequence without its trailing whitespace.
pub open spec fn trim_back(s: Seq<char>) -> Seq<char>
    decreases s.len(),
{
    if s.len() == 0 {
        s
    } else if is_space(s.last()) {
        trim_back(s.drop_last())
    } else {
        s
    }
}

/// A sequence without its leading and trailing whitespace.
pub open spec fn trim_spec(s: Seq<char>) -> Seq<char> {
    trim_back(trim_front(s))
}

/// The whitespace check of [`trim_spaces`].
fn is_space_char(c: char) -> (r: bool)
    ensures
        r == is_space(c),
{
    c == ' ' || c == '\t' || c == '\n' || c == '\r'
}

/// Strip leading and trailing whitespace from a string.
pub fn trim_spaces(s: &str) -> (r: String)
    ensures
        r@ == trim_spec(s@),
{
    let n = s.unicode_len();
    proof {
        assert(s@.subrange(0, n as int) =~= s@);
    }
    let mut a: usize = 0;
    while a < n && is_space_char(s.get_char(a))
        invariant
            a <= n,
            n == s@.len(),
            trim_front(s@) == trim_front(s@.subrange(a as int, n as int)),
        decreases n - a,
    {
        proof {
            let cur = s@.subrange(a as int, n as int);
            assert(cur[0] == s@[a as int]);
            assert(cur.drop_first() =~= s@.subrange(a as int + 1, n as int));
        }
        a = a + 1;
    }
    proof {
        let cur = s@.subrange(a as int, n as int);
        if a < n {
            assert(cur[0] == s@[a as int]);
        }
        assert(trim_front(s@) == cur);
    }
    let mut b: usize = n;
    while b > a && is_space_char(s.get_char(b - 1))
        invariant
            a <= b <= n,
            n == s@.len(),
            trim_front(s@) == s@.subrange(a as int, n as int),
            trim_back(s@.subrange(a as int, n as int)) == trim_back(s@.subrange(a as int, b as int)),
        decreases b,
    {
        proof {
            let cur = s@.subrange(a as int, b as int);
            assert(cur.last() == s@[b as int - 1]);
            assert(cur.drop_last() =~= s@.subrange(a as int, b as int - 1));
        }
        b = b - 1;
    }
    proof {
        let cur = s@.subrange(a as int, b as int);
        if b > a {
            assert(cur.last() == s@[b as int - 1]);
        }
        assert(trim_back(s@.subrange(a as int, b as int)) == cur);
        assert(trim_spec(s@) == s@.subrange(a as int, b as int));
    }
    let trimmed = s.substring_char(a, b);
    trimmed.to_owned()
}

} // verus!
