use vstd::prelude::*;
use vstd::string::*;

verus! {

/// Character-by-character equality of two string slices.
pub fn str_eq(a: &str, b: &str) -> (r: bool)
    ensures
        r == (a@ == b@),
{
    let alen = a.unicode_len();
    let blen = b.unicode_len();
    if alen != blen {
        proof {
            assert(a@ != b@);
        }
        return false;
    }
    let mut i: usize = 0;
    while i < alen
        invariant
            0 <= i <= alen,
            alen == a@.len(),
            alen == b@.len(),
            forall|j: int| 0 <= j < i ==> a@[j] == b@[j],
        decreases alen - i,
    {
        if a.get_char(i) != b.get_char(i) {
            proof {
                assert(a@[i as int] != b@[i as int]);
                assert(a@ != b@);
            }
            return false;
        }
        i += 1;
    }
    proof {
        assert(a@ =~= b@);
    }
    true
}

/// Copy a string slice into an owned string.
pub fn str_to_string(s: &str) -> (r: String)
    ensures
        r@ == s@,
{
    s.to_owned()
}

/// The index of the first occurrence of `c` in `s`, or -1 when absent.
pub open spec fn spec_find(s: Seq<char>, c: char) -> int
    decreases s.len(),
{
    if s.len() == 0 {
        -1
    } else if s[0] == c {
        0
    } else if spec_find(s.drop_first(), c) == -1 {
        -1
    } else {
        1 + spec_find(s.drop_first(), c)
    }
}

/// What `spec_find` returns: either -1 and the character is absent, or
/// the first position holding the character.
pub proof fn lemma_find_props(s: Seq<char>, c: char)
    ensures
        spec_find(s, c) == -1 ==> forall|j: int| 0 <= j < s.len() ==> s[j] != c,
        spec_find(s, c) != -1 ==> 0 <= spec_find(s, c) < s.len() && s[spec_find(s, c)] == c
            && forall|j: int| 0 <= j < spec_find(s, c) ==> s[j] != c,
    decreases s.len(),
{
    if s.len() > 0 && s[0] != c {
        let t = s.drop_first();
        lemma_find_props(t, c);
        assert(forall|j: int| 0 <= j < t.len() ==> t[j] == s[j + 1]);
        if spec_find(t, c) == -1 {
            assert(spec_find(s, c) == -1);
            assert forall|j: int| 0 <= j < s.len() implies s[j] != c by {
                if j > 0 {
                    assert(t[j - 1] != c);
                    assert(t[j - 1] == s[j]);
                }
            }
        } else {
            assert(spec_find(s, c) == 1 + spec_find(t, c));
            assert(s[spec_find(s, c)] == t[spec_find(t, c)]);
            assert forall|j: int| 0 <= j < spec_find(s, c) implies s[j] != c by {
                if j > 0 {
                    assert(t[j - 1] != c);
                    assert(t[j - 1] == s[j]);
                }
            }
        }
    }
}

proof fn lemma_find_skip(s: Seq<char>, c: char, i: int)
    requires
        0 <= i <= s.len(),
        forall|j: int| 0 <= j < i ==> s[j] != c,
    ensures
        spec_find(s, c) == if spec_find(s.skip(i), c) == -1 {
            -1
        } else {
            i + spec_find(s.skip(i), c)
        },
    decreases i,
{
    if i == 0 {
        assert(s.skip(0) =~= s);
    } else {
        lemma_find_skip(s, c, i - 1);
        let t = s.skip(i - 1);
        assert(t[0] == s[i - 1]);
        assert(s[i - 1] != c);
        assert(t.drop_first() =~= s.skip(i));
        lemma_find_props(s.skip(i), c);
    }
}

/// Find the first occurrence of a character in a string.
pub fn find_char(s: &str, c: char) -> (r: Option<usize>)
    ensures
        r is None <==> spec_find(s@, c) == -1,
        r matches Some(i) ==> i == spec_find(s@, c),
{
    let n = s.unicode_len();
    let mut i: usize = 0;
    while i < n
        invariant
            0 <= i <= n == s@.len(),
            forall|j: int| 0 <= j < i ==> s@[j] != c,
        decreases n - i,
    {
        if s.get_char(i) == c {
            proof {
                lemma_find_skip(s@, c, i as int);
                assert(s@.skip(i as int)[0] == s@[i as int]);
            }
            return Some(i);
        }
        i += 1;
    }
    proof {
        lemma_find_skip(s@, c, n as int);
        assert(s@.skip(n as int) =~= Seq::<char>::empty());
    }
    None
}

/// The string without its trailing spaces.
pub open spec fn trim_end_spaces(s: Seq<char>) -> Seq<char>
    decreases s.len(),
{
    if s.len() > 0 && s.last() == ' ' {
        trim_end_spaces(s.drop_last())
    } else {
        s
    }
}

/// The string without its leading spaces and tabs.
pub open spec fn trim_start_ws(s: Seq<char>) -> Seq<char>
    decreases s.len(),
{
    if s.len() > 0 && (s[0] == ' ' || s[0] == '\t') {
        trim_start_ws(s.drop_first())
    } else {
        s
    }
}

/// Once the last non-space position is known, trimming is a prefix.
pub proof fn lemma_trim_end(s: Seq<char>, j: int)
    requires
        0 <= j <= s.len(),
        forall|t: int| j <= t < s.len() ==> s[t] == ' ',
        j == 0 || s[j - 1] != ' ',
    ensures
        trim_end_spaces(s) == s.subrange(0, j),
    decreases s.len(),
{
    if s.len() == j {
        assert(s.subrange(0, j) =~= s);
    } else {
        assert(s.last() == ' ');
        let t = s.drop_last();
        assert(forall|u: int| j <= u < t.len() ==> t[u] == s[u]);
        lemma_trim_end(t, j);
        assert(t.subrange(0, j) =~= s.subrange(0, j));
    }
}

/// The string without the carriage returns and newlines at its end.
pub open spec fn trim_line_end(s: Seq<char>) -> Seq<char>
    decreases s.len(),
{
    if s.len() > 0 && (s.last() == '\r' || s.last() == '\n') {
        trim_line_end(s.drop_last())
    } else {
        s
    }
}

proof fn lemma_trim_line_end(s: Seq<char>, j: int)
    requires
        0 <= j <= s.len(),
        forall|t: int| j <= t < s.len() ==> s[t] == '\r' || s[t] == '\n',
        j == 0 || !(s[j - 1] == '\r' || s[j - 1] == '\n'),
    ensures
        trim_line_end(s) == s.subrange(0, j),
    decreases s.len(),
{
    if s.len() == j {
        assert(s.subrange(0, j) =~= s);
    } else {
        assert(s.last() == '\r' || s.last() == '\n');
        let t = s.drop_last();
        assert(forall|u: int| j <= u < t.len() ==> t[u] == s[u]);
        lemma_trim_line_end(t, j);
        assert(t.subrange(0, j) =~= s.subrange(0, j));
    }
}

/// Strip the line ending a line was read with, however it was written.
pub fn trim_crlf(s: &str) -> (r: String)
    ensures
        r@ == trim_line_end(s@),
{
    let n = s.unicode_len();
    let mut j: usize = n;
    while j > 0 && (s.get_char(j - 1) == '\r' || s.get_char(j - 1) == '\n')
        invariant
            0 <= j <= n == s@.len(),
            forall|t: int| j <= t < n ==> s@[t] == '\r' || s@[t] == '\n',
        decreases j,
    {
        j -= 1;
    }
    let out = s.substring_char(0, j);
    proof {
        lemma_trim_line_end(s@, j as int);
    }
    out.to_owned()
}

/// Once the first non-blank position is known, trimming is a suffix.
pub proof fn lemma_trim_start(s: Seq<char>, j: int)
    requires
        0 <= j <= s.len(),
        forall|t: int| 0 <= t < j ==> s[t] == ' ' || s[t] == '\t',
        j == s.len() || !(s[j] == ' ' || s[j] == '\t'),
    ensures
        trim_start_ws(s) == s.subrange(j, s.len() as int),
    decreases j,
{
    if j == 0 {
        assert(s.subrange(0, s.len() as int) =~= s);
    } else {
        let t = s.drop_first();
        assert(s[0] == ' ' || s[0] == '\t');
        assert(forall|u: int| 0 <= u < t.len() ==> t[u] == s[u + 1]);
        lemma_trim_start(t, j - 1);
        assert(t.subrange(j - 1, t.len() as int) =~= s.subrange(j, s.len() as int));
    }
}

} // verus!
