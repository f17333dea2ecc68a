use vstd::prelude::*;

verus! {

/// Characters allowed in a URL scheme: ASCII letters, digits, `+`, `-`, `.`.
pub open spec fn scheme_char(c: char) -> bool {
    ||| 'a' <= c && c <= 'z'
    ||| 'A' <= c && c <= 'Z'
    ||| '0' <= c && c <= '9'
    ||| c == '+'
    ||| c == '-'
    ||| c == '.'
}

/// Characters allowed after the scheme separator: anything except the
/// separator characters of the cache format.
pub open spec fn url_body_char(c: char) -> bool {
    c != ' ' && c != '\n' && c != '\r'
}

/// `s` reads as `<scheme>://<rest>` with the `:` at position `i`.
pub open spec fn url_shape_at(s: Seq<char>, i: int) -> bool {
    &&& 1 <= i
    &&& i + 3 < s.len()
    &&& (forall|k: int| 0 <= k < i ==> scheme_char(#[trigger] s[k]))
    &&& s[i] == ':'
    &&& s[i + 1] == '/'
    &&& s[i + 2] == '/'
    &&& (forall|k: int| i + 3 <= k < s.len() ==> url_body_char(#[trigger] s[k]))
}

/// A URL, as far as this format cares: a non-empty scheme of letters,
/// digits, `+`, `-` or `.`, then `://`, then a non-empty remainder free of
/// spaces and line breaks.
pub open spec fn is_url(s: Seq<char>) -> bool {
    exists|i: int| url_shape_at(s, i)
}

/// A URL never contains a space or a line break, so it survives the
/// format's positional token split intact.
pub proof fn lemma_url_free_of_separators(s: Seq<char>)
    requires
        is_url(s),
    ensures
        s.len() > 0,
        forall|k: int| 0 <= k < s.len() ==> url_body_char(#[trigger] s[k]),
{
    let i = choose|i: int| url_shape_at(s, i);
    assert forall|k: int| 0 <= k < s.len() implies url_body_char(#[trigger] s[k]) by {
        if k < i {
            assert(scheme_char(s[k]));
        }
    }
}

/// A witness position for `is_url` is forced: it is the first position
/// holding a character outside the scheme alphabet.
proof fn lemma_url_shape_position(s: Seq<char>, i: int, j: int)
    requires
        0 <= i <= s.len(),
        forall|k: int| 0 <= k < i ==> scheme_char(#[trigger] s[k]),
        i == s.len() || !scheme_char(s[i]),
        url_shape_at(s, j),
    ensures
        j == i,
{
    if j < i {
        assert(scheme_char(s[j]));
        assert(s[j] == ':');
    }
    if j > i {
        assert(scheme_char(s[i]));
    }
}

/// Decides whether `c` belongs to the scheme alphabet.
fn is_scheme_char(c: char) -> (r: bool)
    ensures
        r == scheme_char(c),
{
    ('a' <= c && c <= 'z') || ('A' <= c && c <= 'Z') || ('0' <= c && c <= '9') || c == '+'
        || c == '-' || c == '.'
}

/// Length of the leading run of scheme characters in `s`.
fn scheme_run(s: &str, n: usize) -> (i: usize)
    requires
        n == s@.len(),
    ensures
        i <= n,
        forall|k: int| 0 <= k < i ==> scheme_char(#[trigger] s@[k]),
        i == n || !scheme_char(s@[i as int]),
{
    let mut i: usize = 0;
    loop
        invariant
            i <= n,
            n == s@.len(),
            forall|k: int| 0 <= k < i ==> scheme_char(#[trigger] s@[k]),
        decreases n - i,
    {
        if i == n {
            return i;
        }
        if !is_scheme_char(s.get_char(i)) {
            return i;
        }
        i = i + 1;
    }
}

/// Decides whether `s` is a well-formed URL for this format.
pub fn check_url(s: &str) -> (r: bool)
    ensures
        r == is_url(s@),
{
    let n = s.unicode_len();
    let i = scheme_run(s, n);
    if i == 0 || n - i < 4 {
        proof {
            if is_url(s@) {
                let w = choose|w: int| url_shape_at(s@, w);
                lemma_url_shape_position(s@, i as int, w);
            }
        }
        return false;
    }
    if s.get_char(i) != ':' || s.get_char(i + 1) != '/' || s.get_char(i + 2) != '/' {
        proof {
            if is_url(s@) {
                let w = choose|w: int| url_shape_at(s@, w);
                lemma_url_shape_position(s@, i as int, w);
            }
        }
        return false;
    }
    let mut j: usize = i + 3;
    loop
        invariant
            i + 3 <= j <= n,
            n == s@.len(),
            1 <= i,
            i + 3 < n,
            forall|k: int| 0 <= k < i ==> scheme_char(#[trigger] s@[k]),
            !scheme_char(s@[i as int]),
            s@[i as int] == ':',
            s@[i + 1] == '/',
            s@[i + 2] == '/',
            forall|k: int| i + 3 <= k < j ==> url_body_char(#[trigger] s@[k]),
        decreases n - j,
    {
        if j == n {
            proof {
                assert(url_shape_at(s@, i as int));
            }
            return true;
        }
        let c = s.get_char(j);
        if c == ' ' || c == '\n' || c == '\r' {
            proof {
                if is_url(s@) {
                    let w = choose|w: int| url_shape_at(s@, w);
                    lemma_url_shape_position(s@, i as int, w);
                }
            }
            return false;
        }
        j = j + 1;
    }
}

} // verus!
