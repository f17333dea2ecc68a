use vstd::prelude::*;

verus! {

/// Index of the first occurrence of `sep` in `s`, or `-1` if there is none.
pub open spec fn find_char(s: Seq<char>, sep: char) -> int
    decreases s.len(),
{
    if s.len() == 0 {
        -1
    } else if s[0] == sep {
        0
    } else if find_char(s.drop_first(), sep) == -1 {
        -1
    } else {
        find_char(s.drop_first(), sep) + 1
    }
}

/// `find_char` returns the position of the first `sep`, or `-1` when `s`
/// holds no `sep` at all.
pub proof fn lemma_find_char(s: Seq<char>, sep: char)
    ensures
        -1 <= find_char(s, sep) < s.len(),
        find_char(s, sep) >= 0 ==> s[find_char(s, sep)] == sep,
        find_char(s, sep) >= 0 ==> forall|k: int| 0 <= k < find_char(s, sep) ==> s[k] != sep,
        find_char(s, sep) == -1 ==> forall|k: int| 0 <= k < s.len() ==> s[k] != sep,
    decreases s.len(),
{
    if s.len() > 0 && s[0] != sep {
        let t = s.drop_first();
        lemma_find_char(t, sep);
        let f = find_char(s, sep);
        if find_char(t, sep) == -1 {
            assert forall|k: int| 0 <= k < s.len() implies s[k] != sep by {
                if k > 0 {
                    assert(t[k - 1] != sep);
                }
            }
        } else {
            assert(s[f] == t[f - 1]);
            assert forall|k: int| 0 <= k < f implies s[k] != sep by {
                if k > 0 {
                    assert(t[k - 1] != sep);
                }
            }
        }
    }
}

/// `find_char` is pinned by its characterization: if position `i` holds
/// `sep` and nothing before it does, the first occurrence is `i`.
pub proof fn lemma_find_char_is(s: Seq<char>, sep: char, i: int)
    requires
        0 <= i < s.len(),
        s[i] == sep,
        forall|k: int| 0 <= k < i ==> s[k] != sep,
    ensures
        find_char(s, sep) == i,
{
    lemma_find_char(s, sep);
    let f = find_char(s, sep);
    if f == -1 {
        assert(s[i] != sep);
    } else if f < i {
        assert(s[f] != sep);
    } else if f > i {
        assert(s[i] != sep);
    }
}

/// In `a + b` with `a` free of `sep` and `b` starting with `sep`, the first
/// occurrence of `sep` sits exactly at the seam.
pub proof fn lemma_find_char_at_seam(a: Seq<char>, b: Seq<char>, sep: char)
    requires
        forall|k: int| 0 <= k < a.len() ==> a[k] != sep,
        b.len() > 0,
        b[0] == sep,
    ensures
        find_char(a + b, sep) == a.len(),
{
    let s = a + b;
    assert(s[a.len() as int] == b[0]);
    assert forall|k: int| 0 <= k < a.len() implies s[k] != sep by {
        assert(s[k] == a[k]);
    }
    lemma_find_char_is(s, sep, a.len() as int);
}

/// `s` split on `sep`: the (possibly empty) pieces between occurrences of
/// `sep`, in order. Splitting the empty sequence yields one empty piece.
pub open spec fn split_char(s: Seq<char>, sep: char) -> Seq<Seq<char>>
    decreases s.len(),
    via split_char_decreases
{
    let i = find_char(s, sep);
    if i < 0 {
        seq![s]
    } else {
        seq![s.take(i)] + split_char(s.skip(i + 1), sep)
    }
}

#[via_fn]
proof fn split_char_decreases(s: Seq<char>, sep: char) {
    lemma_find_char(s, sep);
}

/// Splitting always yields at least one piece.
pub proof fn lemma_split_char_nonempty(s: Seq<char>, sep: char)
    ensures
        split_char(s, sep).len() >= 1,
{
}

/// A sequence free of `sep` splits into itself alone.
pub proof fn lemma_split_char_whole(s: Seq<char>, sep: char)
    requires
        forall|k: int| 0 <= k < s.len() ==> s[k] != sep,
    ensures
        split_char(s, sep) == seq![s],
{
    lemma_find_char(s, sep);
    if find_char(s, sep) >= 0 {
        assert(s[find_char(s, sep)] != sep);
    }
}

/// Splitting steps over the first separator: with `a` free of `sep`,
/// `a + [sep] + rest` splits into `a` followed by the split of `rest`.
pub proof fn lemma_split_char_step(a: Seq<char>, rest: Seq<char>, sep: char)
    requires
        forall|k: int| 0 <= k < a.len() ==> a[k] != sep,
    ensures
        split_char(a + seq![sep] + rest, sep) == seq![a] + split_char(rest, sep),
{
    let s = a + seq![sep] + rest;
    assert(a + seq![sep] + rest =~= a + (seq![sep] + rest));
    assert((seq![sep] + rest)[0] == sep);
    lemma_find_char_at_seam(a, seq![sep] + rest, sep);
    assert(find_char(s, sep) == a.len());
    assert(s.take(a.len() as int) =~= a);
    assert(s.skip(a.len() as int + 1) =~= rest);
}

/// The lines of `s`: the pieces between `\n` separators, except that a
/// final empty piece (from a terminating newline, or from empty input) is
/// not a line of its own.
pub open spec fn split_lines(s: Seq<char>) -> Seq<Seq<char>> {
    let p = split_char(s, '\n');
    if p.last().len() == 0 {
        p.drop_last()
    } else {
        p
    }
}

/// `s` contains the marker substring `IP`.
pub open spec fn contains_marker(s: Seq<char>) -> bool {
    exists|i: int| 0 <= i && i + 1 < s.len() && #[trigger] s[i] == 'I' && s[i + 1] == 'P'
}

/// Finds the first occurrence of `sep` in `s`, if any.
fn find_in(s: &str, sep: char) -> (r: Option<usize>)
    ensures
        match r {
            Some(i) => find_char(s@, sep) == i as int && i < s@.len(),
            None => find_char(s@, sep) == -1,
        },
{
    let n = s.unicode_len();
    let mut i: usize = 0;
    loop
        invariant
            i <= n,
            n == s@.len(),
            forall|k: int| 0 <= k < i ==> s@[k] != sep,
        decreases n - i,
    {
        if i == n {
            proof {
                lemma_find_char(s@, sep);
                if find_char(s@, sep) >= 0 {
                    assert(s@[find_char(s@, sep)] != sep);
                }
            }
            return None;
        }
        if s.get_char(i) == sep {
            proof {
                lemma_find_char_is(s@, sep, i as int);
            }
            return Some(i);
        }
        i = i + 1;
    }
}

/// Splits `s` on `sep`, matching `split_char` piece for piece.
pub fn split_by<'a>(s: &'a str, sep: char) -> (r: Vec<&'a str>)
    ensures
        r@.map_values(|t: &str| t@) == split_char(s@, sep),
    decreases s@.len(),
{
    match find_in(s, sep) {
        None => {
            let mut r: Vec<&str> = Vec::new();
            r.push(s);
            proof {
                assert(r@.map_values(|t: &str| t@) =~= seq![s@]);
            }
            r
        },
        Some(i) => {
            let n = s.unicode_len();
            let head = s.substring_char(0, i);
            let tail = s.substring_char(i + 1, n);
            let mut rest = split_by(tail, sep);
            let ghost rest_view = rest@.map_values(|t: &str| t@);
            rest.insert(0, head);
            proof {
                assert(head@ =~= s@.take(i as int));
                assert(tail@ =~= s@.skip(i + 1));
                assert(rest@.map_values(|t: &str| t@) =~= seq![head@] + rest_view);
            }
            rest
        },
    }
}

/// The lines of `s`, matching `split_lines` line for line.
pub fn lines_of<'a>(s: &'a str) -> (r: Vec<&'a str>)
    ensures
        r@.map_values(|t: &str| t@) == split_lines(s@),
{
    let mut p = split_by(s, '\n');
    let ghost p_view = p@.map_values(|t: &str| t@);
    proof {
        lemma_split_char_nonempty(s@, '\n');
    }
    let last: usize = p.len() - 1;
    if p[last].is_empty() {
        let _ = p.pop();
        proof {
            assert(p@.map_values(|t: &str| t@) =~= p_view.drop_last());
        }
    }
    p
}

/// Decides whether `s` contains the marker substring `IP`.
pub fn find_marker(s: &str) -> (r: bool)
    ensures
        r == contains_marker(s@),
{
    let n = s.unicode_len();
    if n < 2 {
        return false;
    }
    let mut i: usize = 0;
    loop
        invariant
            i <= n - 1,
            n == s@.len(),
            2 <= n,
            forall|k: int| 0 <= k < i ==> !(#[trigger] s@[k] == 'I' && s@[k + 1] == 'P'),
        decreases n - i,
    {
        if i + 1 == n {
            return false;
        }
        if s.get_char(i) == 'I' && s.get_char(i + 1) == 'P' {
            return true;
        }
        i = i + 1;
    }
}

} // verus!
