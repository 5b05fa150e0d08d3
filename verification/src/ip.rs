use vstd::prelude::*;
use vstd::string::*;
use crate::numbers::{all_digits, digit_value, is_digit, spec_dec_value};
use crate::resolver::IpAddress;

verus! {

/// Splitting, processed left to right: fields finished so far, the
/// field being built, and the rest of the input.
pub open spec fn spec_split_rec(
    done: Seq<Seq<char>>,
    cur: Seq<char>,
    rest: Seq<char>,
    sep: char,
) -> Seq<Seq<char>>
    decreases rest.len(),
{
    if rest.len() == 0 {
        done.push(cur)
    } else if rest[0] == sep {
        spec_split_rec(done.push(cur), Seq::empty(), rest.drop_first(), sep)
    } else {
        spec_split_rec(done, cur.push(rest[0]), rest.drop_first(), sep)
    }
}

/// The fields of `s` between occurrences of `sep`, empty fields kept:
/// one more field than there are separators.
pub open spec fn spec_split(s: Seq<char>, sep: char) -> Seq<Seq<char>> {
    spec_split_rec(Seq::empty(), Seq::empty(), s, sep)
}

/// Split a character sequence at every occurrence of `sep`.
pub fn split_chars(v: &Vec<char>, sep: char) -> (r: Vec<Vec<char>>)
    ensures
        r.deep_view() == spec_split(v@, sep),
{
    let mut done: Vec<Vec<char>> = Vec::new();
    let mut cur: Vec<char> = Vec::new();
    let n = v.len();
    let mut i: usize = 0;
    proof {
        assert(v@.skip(0) =~= v@);
        assert(done.deep_view() =~= Seq::<Seq<char>>::empty());
        assert(cur@ =~= Seq::<char>::empty());
    }
    while i < n
        invariant
            0 <= i <= n == v@.len(),
            spec_split_rec(done.deep_view(), cur@, v@.skip(i as int), sep) == spec_split(v@, sep),
        decreases n - i,
    {
        let c = v[i];
        proof {
            assert(v@.skip(i as int)[0] == v@[i as int]);
            assert(v@.skip(i as int).drop_first() =~= v@.skip(i as int + 1));
        }
        if c == sep {
            let ghost done0 = done.deep_view();
            let ghost cur0 = cur@;
            done.push(cur);
            cur = Vec::new();
            proof {
                assert(done.deep_view() =~= done0.push(cur0)) by {
                    assert(forall|t: int|
                        0 <= t < done0.len() ==> done.deep_view()[t] == done0[t]);
                    assert(done.deep_view()[done0.len() as int] =~= cur0);
                }
                assert(cur@ =~= Seq::<char>::empty());
            }
        } else {
            cur.push(c);
        }
        i += 1;
    }
    proof {
        assert(v@.skip(n as int) =~= Seq::<char>::empty());
    }
    let ghost done0 = done.deep_view();
    let ghost cur0 = cur@;
    done.push(cur);
    proof {
        assert(done.deep_view() =~= done0.push(cur0)) by {
            assert(forall|t: int| 0 <= t < done0.len() ==> done.deep_view()[t] == done0[t]);
            assert(done.deep_view()[done0.len() as int] =~= cur0);
        }
    }
    done
}

/// Copy a string into its sequence of characters.
pub fn to_chars(s: &str) -> (r: Vec<char>)
    ensures
        r@ == s@,
{
    let n = s.unicode_len();
    let mut out: Vec<char> = Vec::new();
    let mut i: usize = 0;
    while i < n
        invariant
            0 <= i <= n == s@.len(),
            out@ =~= s@.subrange(0, i as int),
        decreases n - i,
    {
        out.push(s.get_char(i));
        proof {
            assert(out@ =~= s@.subrange(0, i as int + 1));
        }
        i += 1;
    }
    proof {
        assert(s@.subrange(0, n as int) =~= s@);
    }
    out
}

/// A decimal octet as written in an address: one to three digits, no
/// leading zero unless it is the single digit zero, value at most 255.
pub open spec fn valid_octet(f: Seq<char>) -> bool {
    &&& 1 <= f.len() <= 3
    &&& all_digits(f)
    &&& (f.len() == 1 || f[0] != '0')
    &&& spec_dec_value(f) <= 255
}

/// A literal IPv4 address: four valid octets separated by dots.
pub open spec fn is_ipv4_literal(s: Seq<char>) -> bool {
    let fs = spec_split(s, '.');
    fs.len() == 4 && (forall|k: int| 0 <= k < 4 ==> valid_octet(#[trigger] fs[k]))
}

/// The largest value a string of at most `k` digits can denote.
spec fn max_dec(k: int) -> int {
    if k <= 0 {
        0
    } else if k == 1 {
        9
    } else if k == 2 {
        99
    } else {
        999
    }
}

proof fn lemma_dec_value_step_bound(p: Seq<char>, k: int)
    requires
        all_digits(p),
        p.len() == k,
        0 <= k <= 3,
    ensures
        spec_dec_value(p) <= max_dec(k),
    decreases k,
{
    if k > 0 {
        let q = p.drop_last();
        assert(all_digits(q)) by {
            assert(forall|t: int| 0 <= t < q.len() ==> q[t] == p[t]);
        }
        lemma_dec_value_step_bound(q, k - 1);
        assert(is_digit(p.last()));
        assert(spec_dec_value(p) == spec_dec_value(q) * 10 + digit_value(p.last()));
    }
}

fn check_octet(f: &Vec<char>) -> (r: bool)
    ensures
        r == valid_octet(f@),
{
    let len = f.len();
    if len < 1 || len > 3 {
        return false;
    }
    if len > 1 && f[0] == '0' {
        return false;
    }
    let mut val: u32 = 0;
    let mut k: usize = 0;
    while k < len
        invariant
            0 <= k <= len == f@.len() <= 3,
            all_digits(f@.subrange(0, k as int)),
            val == spec_dec_value(f@.subrange(0, k as int)),
            val <= max_dec(k as int),
        decreases len - k,
    {
        let c = f[k];
        if c < '0' || c > '9' {
            proof {
                assert(!is_digit(f@[k as int]));
            }
            return false;
        }
        proof {
            assert(f@.subrange(0, k as int + 1).drop_last() =~= f@.subrange(0, k as int));
            assert(f@.subrange(0, k as int + 1).last() == f@[k as int]);
            lemma_dec_value_step_bound(f@.subrange(0, k as int + 1), k as int + 1);
            assert(all_digits(f@.subrange(0, k as int + 1))) by {
                assert(forall|t: int|
                    0 <= t < k ==> f@.subrange(0, k as int + 1)[t] == f@.subrange(0, k as int)[t]);
                assert(f@.subrange(0, k as int + 1)[k as int] == f@[k as int]);
            }
        }
        val = val * 10 + (c as u32 - '0' as u32);
        k += 1;
    }
    proof {
        assert(f@.subrange(0, len as int) =~= f@);
    }
    val <= 255
}

/// Check that a character sequence is a literal IPv4 address.
pub fn check_ipv4_chars(v: &Vec<char>) -> (r: bool)
    ensures
        r == is_ipv4_literal(v@),
{
    let fs = split_chars(v, '.');
    let n = fs.len();
    proof {
        assert(fs.deep_view().len() == n);
    }
    if n != 4 {
        return false;
    }
    let mut k: usize = 0;
    while k < 4
        invariant
            0 <= k <= 4,
            fs@.len() == 4,
            fs.deep_view() == spec_split(v@, '.'),
            forall|t: int| 0 <= t < k ==> valid_octet(#[trigger] fs.deep_view()[t]),
        decreases 4 - k,
    {
        let ok = check_octet(&fs[k]);
        proof {
            assert(fs.deep_view()[k as int] == fs@[k as int]@);
        }
        if !ok {
            return false;
        }
        k += 1;
    }
    true
}

pub open spec fn is_hex_digit(c: char) -> bool {
    ('0' <= c <= '9') || ('a' <= c <= 'f') || ('A' <= c <= 'F')
}

/// A group between colons: one to four hexadecimal digits.
pub open spec fn valid_hex_group(f: Seq<char>) -> bool {
    1 <= f.len() <= 4 && (forall|k: int| 0 <= k < f.len() ==> is_hex_digit(#[trigger] f[k]))
}

pub open spec fn none_empty(fs: Seq<Seq<char>>, lo: int, hi: int) -> bool {
    forall|k: int| lo <= k < hi ==> (#[trigger] fs[k]).len() != 0
}

pub open spec fn all_hex_groups(fs: Seq<Seq<char>>, lo: int, hi: int) -> bool {
    forall|k: int| lo <= k < hi ==> valid_hex_group(#[trigger] fs[k])
}

/// No `::` compression: eight hex groups, or six and a trailing
/// embedded IPv4 address standing for the last two.
pub open spec fn ipv6_no_compress(fs: Seq<Seq<char>>) -> bool {
    let n = fs.len() as int;
    none_empty(fs, 0, n) && ((n == 8 && all_hex_groups(fs, 0, 8)) || (n == 7 && all_hex_groups(
        fs,
        0,
        6,
    ) && is_ipv4_literal(fs[6])))
}

/// A `::` between two nonempty runs: colon-splitting leaves one empty
/// field strictly inside. The compression stands for at least one zero
/// group, so the written groups number at most seven.
pub open spec fn ipv6_mid_compress(fs: Seq<Seq<char>>) -> bool {
    let n = fs.len() as int;
    exists|j: int|
        1 <= j <= n - 2 && (#[trigger] fs[j]).len() == 0 && none_empty(fs, 0, j) && none_empty(
            fs,
            j + 1,
            n,
        ) && all_hex_groups(fs, 0, j) && ((all_hex_groups(fs, j + 1, n) && n <= 8) || (
        all_hex_groups(fs, j + 1, n - 1) && is_ipv4_literal(fs[n - 1]) && n <= 7))
}

/// A leading `::`: colon-splitting leaves two empty fields in front.
pub open spec fn ipv6_head_compress(fs: Seq<Seq<char>>) -> bool {
    let n = fs.len() as int;
    n >= 3 && fs[0].len() == 0 && fs[1].len() == 0 && none_empty(fs, 2, n) && ((all_hex_groups(
        fs,
        2,
        n,
    ) && n <= 9) || (all_hex_groups(fs, 2, n - 1) && is_ipv4_literal(fs[n - 1]) && n <= 8))
}

/// A trailing `::`: colon-splitting leaves two empty fields at the end.
pub open spec fn ipv6_tail_compress(fs: Seq<Seq<char>>) -> bool {
    let n = fs.len() as int;
    n >= 3 && fs[n - 2].len() == 0 && fs[n - 1].len() == 0 && none_empty(fs, 0, n - 2)
        && all_hex_groups(fs, 0, n - 2) && n <= 9
}

/// The bare `::`, the all-zeros address: three empty fields.
pub open spec fn ipv6_all_compress(fs: Seq<Seq<char>>) -> bool {
    let n = fs.len() as int;
    n == 3 && fs[0].len() == 0 && fs[1].len() == 0 && fs[2].len() == 0
}

/// A literal IPv6 address, written as hex groups separated by colons,
/// with at most one `::` compression and an optional embedded IPv4
/// address as the last two groups.
pub open spec fn is_ipv6_literal(s: Seq<char>) -> bool {
    let fs = spec_split(s, ':');
    ipv6_no_compress(fs) || ipv6_mid_compress(fs) || ipv6_head_compress(fs) || ipv6_tail_compress(
        fs,
    ) || ipv6_all_compress(fs)
}

fn check_hex_group(f: &Vec<char>) -> (r: bool)
    ensures
        r == valid_hex_group(f@),
{
    let len = f.len();
    if len < 1 || len > 4 {
        return false;
    }
    let mut k: usize = 0;
    while k < len
        invariant
            0 <= k <= len == f@.len(),
            forall|t: int| 0 <= t < k ==> is_hex_digit(#[trigger] f@[t]),
        decreases len - k,
    {
        let c = f[k];
        let ok = ('0' <= c && c <= '9') || ('a' <= c && c <= 'f') || ('A' <= c && c <= 'F');
        if !ok {
            proof {
                assert(!is_hex_digit(f@[k as int]));
            }
            return false;
        }
        k += 1;
    }
    true
}

fn range_nonempty(fs: &Vec<Vec<char>>, lo: usize, hi: usize) -> (r: bool)
    requires
        lo <= hi <= fs@.len(),
    ensures
        r == none_empty(fs.deep_view(), lo as int, hi as int),
{
    let mut k: usize = lo;
    while k < hi
        invariant
            lo <= k <= hi <= fs@.len(),
            forall|t: int| lo <= t < k ==> (#[trigger] fs.deep_view()[t]).len() != 0,
        decreases hi - k,
    {
        if fs[k].len() == 0 {
            proof {
                assert(fs.deep_view()[k as int] == fs@[k as int]@);
            }
            return false;
        }
        proof {
            assert(fs.deep_view()[k as int] == fs@[k as int]@);
        }
        k += 1;
    }
    true
}

fn range_hex(fs: &Vec<Vec<char>>, lo: usize, hi: usize) -> (r: bool)
    requires
        lo <= hi <= fs@.len(),
    ensures
        r == all_hex_groups(fs.deep_view(), lo as int, hi as int),
{
    let mut k: usize = lo;
    while k < hi
        invariant
            lo <= k <= hi <= fs@.len(),
            forall|t: int| lo <= t < k ==> valid_hex_group(#[trigger] fs.deep_view()[t]),
        decreases hi - k,
    {
        let ok = check_hex_group(&fs[k]);
        proof {
            assert(fs.deep_view()[k as int] == fs@[k as int]@);
        }
        if !ok {
            return false;
        }
        k += 1;
    }
    true
}

/// The position of the first empty field, if any.
fn first_empty(fs: &Vec<Vec<char>>) -> (r: Option<usize>)
    ensures
        r matches Some(j) ==> (j < fs@.len() && fs.deep_view()[j as int].len() == 0 && none_empty(
            fs.deep_view(),
            0,
            j as int,
        )),
        r is None ==> none_empty(fs.deep_view(), 0, fs@.len() as int),
{
    let n = fs.len();
    let mut k: usize = 0;
    while k < n
        invariant
            0 <= k <= n == fs@.len(),
            forall|t: int| 0 <= t < k ==> (#[trigger] fs.deep_view()[t]).len() != 0,
        decreases n - k,
    {
        proof {
            assert(fs.deep_view()[k as int] == fs@[k as int]@);
        }
        if fs[k].len() == 0 {
            return Some(k);
        }
        k += 1;
    }
    None
}

/// Parse a character sequence as a literal IPv6 address: the address
/// it denotes when it is one, nothing when it is not.
fn parse_ipv6_chars(v: &Vec<char>) -> (r: Option<IpAddress>)
    ensures
        r is Some <==> is_ipv6_literal(v@),
        r matches Some(a) ==> a == spec_ipv6_addr(v@),
{
    let fs = split_chars(v, ':');
    let ghost gfs = fs.deep_view();
    let n = fs.len();
    proof {
        assert(gfs.len() == n);
    }
    let empty_head: Vec<u16> = Vec::new();
    proof {
        assert(empty_head@ =~= Seq::<u16>::empty());
    }
    match first_empty(&fs) {
        None => {
            // no compression anywhere
            proof {
                assert(!ipv6_mid_compress(gfs));
                assert(!ipv6_head_compress(gfs));
                assert(!ipv6_tail_compress(gfs)) by {
                    if n >= 3 {
                        assert(gfs[n - 2].len() != 0);
                    }
                }
                assert(!ipv6_all_compress(gfs));
            }
            if n == 8 {
                if !range_hex(&fs, 0, 8) {
                    return None;
                }
                proof {
                    assert(ipv6_no_compress(gfs));
                    assert(valid_hex_group(gfs[7]));
                    lemma_ipv4_needs_dots(gfs[7]);
                }
                let tl = tail_groups_vals(&fs, 0, 8);
                return Some(assemble_v6(empty_head, tl));
            }
            if n == 7 {
                proof {
                    assert(gfs[6] == fs@[6]@);
                }
                if !range_hex(&fs, 0, 6) {
                    return None;
                }
                if !check_ipv4_chars(&fs[6]) {
                    return None;
                }
                proof {
                    assert(ipv6_no_compress(gfs));
                }
                let tl = tail_groups_vals(&fs, 0, 7);
                return Some(assemble_v6(empty_head, tl));
            }
            None
        },
        Some(j1) => {
            // fields before j1 are nonempty; fs[j1] is empty
            proof {
                assert(!ipv6_no_compress(gfs));
            }
            if 1 <= j1 && n >= 2 && j1 <= n - 2 && range_nonempty(&fs, j1 + 1, n) {
                // exactly one empty field, strictly inside
                proof {
                    assert(!ipv6_head_compress(gfs));
                    assert(!ipv6_tail_compress(gfs)) by {
                        if n >= 3 {
                            assert(gfs[n - 1].len() != 0);
                        }
                    }
                    assert(!ipv6_all_compress(gfs));
                }
                let hex_head = range_hex(&fs, 0, j1);
                if !hex_head {
                    proof {
                        assert(!ipv6_mid_compress(gfs)) by {
                            assert forall|j: int|
                                !(1 <= j <= n - 2 && (#[trigger] gfs[j]).len() == 0 && none_empty(
                                    gfs,
                                    0,
                                    j,
                                ) && none_empty(gfs, j + 1, n as int) && all_hex_groups(gfs, 0, j)
                                    && ((all_hex_groups(gfs, j + 1, n as int) && n <= 8) || (
                                all_hex_groups(gfs, j + 1, n as int - 1) && is_ipv4_literal(
                                    gfs[n - 1],
                                ) && n <= 7))) by {
                                if 1 <= j <= n - 2 && gfs[j].len() == 0 && none_empty(gfs, 0, j)
                                    && none_empty(gfs, j + 1, n as int) {
                                    assert(j == j1);
                                }
                            }
                        }
                    }
                    return None;
                }
                proof {
                    assert(gfs[n - 1] == fs@[n - 1]@);
                }
                if range_hex(&fs, j1 + 1, n) {
                    if n <= 8 {
                        proof {
                            assert(ipv6_mid_compress(gfs)) by {
                                let j = j1 as int;
                                assert(1 <= j <= n - 2 && gfs[j].len() == 0 && none_empty(gfs, 0, j)
                                    && none_empty(gfs, j + 1, n as int) && all_hex_groups(gfs, 0, j)
                                    && all_hex_groups(gfs, j + 1, n as int) && n <= 8);
                            }
                            lemma_spec_first_empty(gfs, j1 as int);
                            assert(valid_hex_group(gfs[n - 1]));
                            lemma_ipv4_needs_dots(gfs[n - 1]);
                        }
                        let hd = hex_groups_vals(&fs, 0, j1);
                        let tl = tail_groups_vals(&fs, j1 + 1, n);
                        return Some(assemble_v6(hd, tl));
                    }
                    proof {
                        assert(!ipv6_mid_compress(gfs)) by {
                            assert forall|j: int|
                                !(1 <= j <= n - 2 && (#[trigger] gfs[j]).len() == 0 && none_empty(
                                    gfs,
                                    0,
                                    j,
                                ) && none_empty(gfs, j + 1, n as int) && all_hex_groups(gfs, 0, j)
                                    && ((all_hex_groups(gfs, j + 1, n as int) && n <= 8) || (
                                all_hex_groups(gfs, j + 1, n as int - 1) && is_ipv4_literal(
                                    gfs[n - 1],
                                ) && n <= 7))) by {
                                if 1 <= j <= n - 2 && gfs[j].len() == 0 && none_empty(gfs, 0, j)
                                    && none_empty(gfs, j + 1, n as int) {
                                    assert(j == j1);
                                    assert(valid_hex_group(gfs[n - 1]));
                                    assert(gfs[n - 1].len() <= 4);
                                    assert(!is_ipv4_literal(gfs[n - 1])) by {
                                        lemma_ipv4_needs_dots(gfs[n - 1]);
                                    }
                                }
                            }
                        }
                    }
                    return None;
                }
                let tail_hex_short = range_hex(&fs, j1 + 1, n - 1);
                let last_v4 = check_ipv4_chars(&fs[n - 1]);
                if tail_hex_short && last_v4 && n <= 7 {
                    proof {
                        assert(ipv6_mid_compress(gfs)) by {
                            let j = j1 as int;
                            assert(1 <= j <= n - 2 && gfs[j].len() == 0 && none_empty(gfs, 0, j)
                                && none_empty(gfs, j + 1, n as int) && all_hex_groups(gfs, 0, j)
                                && all_hex_groups(gfs, j + 1, n as int - 1) && is_ipv4_literal(
                                gfs[n - 1],
                            ) && n <= 7);
                        }
                        lemma_spec_first_empty(gfs, j1 as int);
                    }
                    let hd = hex_groups_vals(&fs, 0, j1);
                    let tl = tail_groups_vals(&fs, j1 + 1, n);
                    return Some(assemble_v6(hd, tl));
                }
                proof {
                    assert(!ipv6_mid_compress(gfs)) by {
                        assert forall|j: int|
                            !(1 <= j <= n - 2 && (#[trigger] gfs[j]).len() == 0 && none_empty(
                                gfs,
                                0,
                                j,
                            ) && none_empty(gfs, j + 1, n as int) && all_hex_groups(gfs, 0, j) && ((
                            all_hex_groups(gfs, j + 1, n as int) && n <= 8) || (all_hex_groups(
                                gfs,
                                j + 1,
                                n as int - 1,
                            ) && is_ipv4_literal(gfs[n - 1]) && n <= 7))) by {
                            if 1 <= j <= n - 2 && gfs[j].len() == 0 && none_empty(gfs, 0, j)
                                && none_empty(gfs, j + 1, n as int) {
                                assert(j == j1);
                            }
                        }
                    }
                }
                return None;
            }
            proof {
                assert(!ipv6_mid_compress(gfs)) by {
                    assert forall|j: int|
                        !(1 <= j <= n - 2 && (#[trigger] gfs[j]).len() == 0 && none_empty(gfs, 0, j)
                            && none_empty(gfs, j + 1, n as int) && all_hex_groups(gfs, 0, j) && ((
                        all_hex_groups(gfs, j + 1, n as int) && n <= 8) || (all_hex_groups(
                            gfs,
                            j + 1,
                            n as int - 1,
                        ) && is_ipv4_literal(gfs[n - 1]) && n <= 7))) by {
                        if 1 <= j <= n - 2 && gfs[j].len() == 0 && none_empty(gfs, 0, j)
                            && none_empty(gfs, j + 1, n as int) {
                            assert(j == j1);
                        }
                    }
                }
            }
            if j1 == 0 && n >= 3 {
                if fs[1].len() == 0 {
                    proof {
                        assert(gfs[1] == fs@[1]@);
                    }
                    if n == 3 && fs[2].len() == 0 {
                        // the bare all-zeros address
                        proof {
                            assert(gfs[2] == fs@[2]@);
                            assert(ipv6_all_compress(gfs));
                            assert(!ipv6_head_compress(gfs)) by {
                                assert(gfs[2].len() == 0);
                            }
                            assert(!ipv6_tail_compress(gfs)) by {
                                assert(gfs[0].len() == 0);
                            }
                        }
                        let empty_tail: Vec<u16> = Vec::new();
                        proof {
                            assert(empty_tail@ =~= Seq::<u16>::empty());
                        }
                        return Some(assemble_v6(empty_head, empty_tail));
                    }
                    // a leading compression: the rest must be nonempty
                    if !range_nonempty(&fs, 2, n) {
                        proof {
                            assert(!ipv6_head_compress(gfs));
                            assert(!ipv6_tail_compress(gfs));
                            assert(!ipv6_all_compress(gfs)) by {
                                if n == 3 {
                                    assert(gfs[2] == fs@[2]@);
                                }
                            }
                        }
                        return None;
                    }
                    proof {
                        assert(!ipv6_tail_compress(gfs)) by {
                            if n >= 3 && gfs[n - 2].len() == 0 && gfs[n - 1].len() == 0 {
                                if n >= 4 {
                                    assert(gfs[n - 2].len() != 0);
                                } else {
                                    assert(gfs[n - 1].len() != 0);
                                }
                            }
                        }
                        assert(!ipv6_all_compress(gfs)) by {
                            if n == 3 {
                                assert(gfs[2].len() != 0);
                            }
                        }
                        assert(gfs[n - 1] == fs@[n - 1]@);
                    }
                    if range_hex(&fs, 2, n) {
                        if n <= 9 {
                            proof {
                                assert(ipv6_head_compress(gfs));
                                assert(valid_hex_group(gfs[n - 1]));
                                lemma_ipv4_needs_dots(gfs[n - 1]);
                            }
                            let tl = tail_groups_vals(&fs, 2, n);
                            return Some(assemble_v6(empty_head, tl));
                        }
                        proof {
                            assert(!ipv6_head_compress(gfs)) by {
                                assert(valid_hex_group(gfs[n - 1]));
                                assert(!is_ipv4_literal(gfs[n - 1])) by {
                                    lemma_ipv4_needs_dots(gfs[n - 1]);
                                }
                            }
                        }
                        return None;
                    }
                    let tail_hex_short = range_hex(&fs, 2, n - 1);
                    let last_v4 = check_ipv4_chars(&fs[n - 1]);
                    if tail_hex_short && last_v4 && n <= 8 {
                        proof {
                            assert(ipv6_head_compress(gfs));
                        }
                        let tl = tail_groups_vals(&fs, 2, n);
                        return Some(assemble_v6(empty_head, tl));
                    }
                    proof {
                        assert(!ipv6_head_compress(gfs));
                    }
                    return None;
                }
                // a single leading empty field: no pattern allows it
                proof {
                    assert(gfs[1] == fs@[1]@);
                    assert(!ipv6_head_compress(gfs));
                    assert(!ipv6_all_compress(gfs));
                    assert(!ipv6_tail_compress(gfs)) by {
                        if n >= 3 && none_empty(gfs, 0, n as int - 2) {
                            if n == 3 {
                                assert(gfs[n - 2].len() != 0);
                            } else {
                                assert(gfs[0].len() != 0);
                            }
                        }
                    }
                }
                return None;
            }
            if n >= 3 && j1 == n - 2 {
                // candidate trailing compression
                proof {
                    assert(gfs[n - 1] == fs@[n - 1]@);
                    assert(!ipv6_head_compress(gfs)) by {
                        if gfs[0].len() == 0 {
                            assert(0 >= j1);
                        }
                    }
                    assert(!ipv6_all_compress(gfs)) by {
                        if n == 3 && gfs[0].len() == 0 {
                            assert(0 >= j1);
                        }
                    }
                }
                if fs[n - 1].len() == 0 {
                    if range_hex(&fs, 0, n - 2) {
                        if n <= 9 {
                            proof {
                                assert(ipv6_tail_compress(gfs));
                            }
                            let hd = hex_groups_vals(&fs, 0, n - 2);
                            let empty_tail: Vec<u16> = Vec::new();
                            proof {
                                assert(empty_tail@ =~= Seq::<u16>::empty());
                            }
                            return Some(assemble_v6(hd, empty_tail));
                        }
                        return None;
                    }
                    return None;
                }
                proof {
                    assert(!ipv6_tail_compress(gfs));
                }
                return None;
            }
            proof {
                assert(!ipv6_head_compress(gfs)) by {
                    if n >= 3 && gfs[0].len() == 0 && gfs[1].len() == 0 {
                        assert(j1 == 0);
                    }
                }
                assert(!ipv6_all_compress(gfs)) by {
                    if n == 3 && gfs[0].len() == 0 {
                        assert(j1 == 0);
                    }
                }
                assert(!ipv6_tail_compress(gfs)) by {
                    if n >= 3 && gfs[n - 2].len() == 0 && none_empty(gfs, 0, n as int - 2) {
                        assert(j1 == n - 2);
                    }
                }
            }
            None
        },
    }
}

/// Check that a character sequence is a literal IPv6 address.
pub fn check_ipv6_chars(v: &Vec<char>) -> (r: bool)
    ensures
        r == is_ipv6_literal(v@),
{
    parse_ipv6_chars(v).is_some()
}

/// The lengths of all fields, added up.
spec fn sum_len(fs: Seq<Seq<char>>) -> int
    decreases fs.len(),
{
    if fs.len() == 0 {
        0
    } else {
        sum_len(fs.drop_last()) + fs.last().len()
    }
}

/// Fields and separators together account for the whole input: the
/// split has one separator between adjacent fields and nothing else.
proof fn lemma_split_total(done: Seq<Seq<char>>, cur: Seq<char>, rest: Seq<char>, sep: char)
    ensures
        ({
            let r = spec_split_rec(done, cur, rest, sep);
            r.len() - 1 + sum_len(r) == done.len() + sum_len(done) + cur.len() + rest.len()
        }),
    decreases rest.len(),
{
    if rest.len() == 0 {
        let r = done.push(cur);
        assert(r.drop_last() =~= done);
        assert(sum_len(r) == sum_len(done) + cur.len());
    } else if rest[0] == sep {
        lemma_split_total(done.push(cur), Seq::empty(), rest.drop_first(), sep);
        let d = done.push(cur);
        assert(d.drop_last() =~= done);
        assert(sum_len(d) == sum_len(done) + cur.len());
    } else {
        lemma_split_total(done, cur.push(rest[0]), rest.drop_first(), sep);
    }
}

/// A hex group never reads as an IPv4 address: four octets and three
/// dots need at least seven characters, a group has at most four.
proof fn lemma_ipv4_needs_dots(f: Seq<char>)
    requires
        f.len() <= 4,
    ensures
        !is_ipv4_literal(f),
{
    if is_ipv4_literal(f) {
        let fs = spec_split(f, '.');
        lemma_split_total(Seq::empty(), Seq::empty(), f, '.');
        assert(sum_len(Seq::<Seq<char>>::empty()) == 0);
        assert(fs.len() == 4);
        assert(sum_len(fs) == f.len() - 3);
        let f3 = fs.drop_last();
        let f2 = f3.drop_last();
        let f1 = f2.drop_last();
        assert(sum_len(fs) == sum_len(f3) + fs[3].len());
        assert(sum_len(f3) == sum_len(f2) + fs[2].len()) by {
            assert(f3.last() == fs[2]);
        }
        assert(sum_len(f2) == sum_len(f1) + fs[1].len()) by {
            assert(f2.last() == fs[1]);
        }
        assert(sum_len(f1) == fs[0].len()) by {
            assert(f1.last() == fs[0]);
            assert(f1.drop_last() =~= Seq::<Seq<char>>::empty());
        }
        assert(fs[0].len() >= 1 && fs[1].len() >= 1 && fs[2].len() >= 1 && fs[3].len() >= 1);
        assert(false);
    }
}

/// The numeric value of a hexadecimal digit.
pub open spec fn hex_digit_value(c: char) -> int {
    if '0' <= c <= '9' {
        c as int - '0' as int
    } else if 'a' <= c <= 'f' {
        c as int - 'a' as int + 10
    } else {
        c as int - 'A' as int + 10
    }
}

/// The number that a string of hexadecimal digits denotes.
pub open spec fn spec_hex_value(f: Seq<char>) -> int
    decreases f.len(),
{
    if f.len() == 0 {
        0
    } else {
        spec_hex_value(f.drop_last()) * 16 + hex_digit_value(f.last())
    }
}

/// The address an IPv4 literal denotes: its four octet values.
pub open spec fn spec_ipv4_addr(s: Seq<char>) -> IpAddress {
    let fs = spec_split(s, '.');
    IpAddress::V4(
        spec_dec_value(fs[0]) as u8,
        spec_dec_value(fs[1]) as u8,
        spec_dec_value(fs[2]) as u8,
        spec_dec_value(fs[3]) as u8,
    )
}

/// The two 16-bit groups an embedded IPv4 address stands for.
pub open spec fn v4_group_pair(f: Seq<char>) -> Seq<u16> {
    let qs = spec_split(f, '.');
    seq![
        (spec_dec_value(qs[0]) * 256 + spec_dec_value(qs[1])) as u16,
        (spec_dec_value(qs[2]) * 256 + spec_dec_value(qs[3])) as u16,
    ]
}

/// The group values of a run of hex fields.
pub open spec fn hex_groups_seq(fs: Seq<Seq<char>>, lo: int, hi: int) -> Seq<u16> {
    Seq::new((hi - lo) as nat, |i: int| spec_hex_value(fs[lo + i]) as u16)
}

/// The group values of a run that may end in an embedded IPv4 address,
/// which stands for two groups.
pub open spec fn tail_groups_seq(fs: Seq<Seq<char>>, lo: int, hi: int) -> Seq<u16> {
    if hi > lo && is_ipv4_literal(fs[hi - 1]) {
        hex_groups_seq(fs, lo, hi - 1) + v4_group_pair(fs[hi - 1])
    } else {
        hex_groups_seq(fs, lo, hi)
    }
}

/// This many zero groups.
pub open spec fn zeros_pad(k: int) -> Seq<u16> {
    Seq::new(
        if k >= 0 {
            k as nat
        } else {
            0
        },
        |i: int| 0u16,
    )
}

/// The groups written before and after a compression, with the zero
/// groups the compression stands for between them.
pub open spec fn pad_groups(a: Seq<u16>, b: Seq<u16>) -> Seq<u16> {
    a + zeros_pad(8 - a.len() - b.len()) + b
}

/// The position of the first empty field, or the field count when
/// none is empty.
pub open spec fn spec_first_empty(fs: Seq<Seq<char>>) -> int
    decreases fs.len(),
{
    if fs.len() == 0 {
        0
    } else if fs[0].len() == 0 {
        0
    } else {
        1 + spec_first_empty(fs.drop_first())
    }
}

proof fn lemma_spec_first_empty(fs: Seq<Seq<char>>, j: int)
    requires
        0 <= j <= fs.len(),
        forall|k: int| 0 <= k < j ==> (#[trigger] fs[k]).len() != 0,
        j == fs.len() || fs[j].len() == 0,
    ensures
        spec_first_empty(fs) == j,
    decreases j,
{
    if j > 0 {
        let t = fs.drop_first();
        assert(fs[0].len() != 0);
        assert(forall|k: int| 0 <= k < t.len() ==> t[k] == fs[k + 1]);
        assert forall|k: int| 0 <= k < j - 1 implies (#[trigger] t[k]).len() != 0 by {
            assert(t[k] == fs[k + 1]);
        }
        if j < fs.len() {
            assert(t[j - 1] == fs[j]);
        }
        lemma_spec_first_empty(t, j - 1);
    }
}

/// The eight group values of an IPv6 literal, the compression expanded
/// to its zero groups.
pub open spec fn spec_ipv6_groups(s: Seq<char>) -> Seq<u16> {
    let fs = spec_split(s, ':');
    let n = fs.len() as int;
    if ipv6_no_compress(fs) {
        pad_groups(Seq::empty(), tail_groups_seq(fs, 0, n))
    } else if ipv6_mid_compress(fs) {
        let j = spec_first_empty(fs);
        pad_groups(hex_groups_seq(fs, 0, j), tail_groups_seq(fs, j + 1, n))
    } else if ipv6_head_compress(fs) {
        pad_groups(Seq::empty(), tail_groups_seq(fs, 2, n))
    } else if ipv6_tail_compress(fs) {
        pad_groups(hex_groups_seq(fs, 0, n - 2), Seq::empty())
    } else {
        pad_groups(Seq::empty(), Seq::empty())
    }
}

/// An address from eight groups.
pub open spec fn groups_to_addr(g: Seq<u16>) -> IpAddress {
    IpAddress::V6(g[0], g[1], g[2], g[3], g[4], g[5], g[6], g[7])
}

/// The address an IPv6 literal denotes.
pub open spec fn spec_ipv6_addr(s: Seq<char>) -> IpAddress {
    groups_to_addr(spec_ipv6_groups(s))
}

/// The address a host string denotes, when it is a literal at all.
pub open spec fn spec_ip_of(s: Seq<char>) -> Option<IpAddress> {
    if is_ipv4_literal(s) {
        Some(spec_ipv4_addr(s))
    } else if is_ipv6_literal(s) {
        Some(spec_ipv6_addr(s))
    } else {
        None
    }
}

/// The value of one octet field, for fields the grammar accepts.
fn octet_val(f: &Vec<char>) -> (r: u8)
    requires
        valid_octet(f@),
    ensures
        r == spec_dec_value(f@),
{
    let len = f.len();
    let mut val: u32 = 0;
    let mut k: usize = 0;
    while k < len
        invariant
            0 <= k <= len == f@.len() <= 3,
            all_digits(f@),
            val == spec_dec_value(f@.subrange(0, k as int)),
            val <= max_dec(k as int),
        decreases len - k,
    {
        let c = f[k];
        proof {
            assert(is_digit(f@[k as int]));
            assert(f@.subrange(0, k as int + 1).drop_last() =~= f@.subrange(0, k as int));
            assert(f@.subrange(0, k as int + 1).last() == f@[k as int]);
            assert(all_digits(f@.subrange(0, k as int + 1))) by {
                assert(forall|t: int|
                    0 <= t <= k ==> f@.subrange(0, k as int + 1)[t] == f@[t]);
            }
            lemma_dec_value_step_bound(f@.subrange(0, k as int + 1), k as int + 1);
        }
        val = val * 10 + (c as u32 - '0' as u32);
        k += 1;
    }
    proof {
        assert(f@.subrange(0, len as int) =~= f@);
    }
    val as u8
}

/// The largest value a string of at most `k` hex digits can denote.
spec fn max_hex(k: int) -> int {
    if k <= 0 {
        0
    } else if k == 1 {
        0xf
    } else if k == 2 {
        0xff
    } else if k == 3 {
        0xfff
    } else {
        0xffff
    }
}

proof fn lemma_hex_value_step_bound(p: Seq<char>, k: int)
    requires
        forall|t: int| 0 <= t < p.len() ==> is_hex_digit(#[trigger] p[t]),
        p.len() == k,
        0 <= k <= 4,
    ensures
        0 <= spec_hex_value(p) <= max_hex(k),
    decreases k,
{
    if k > 0 {
        let q = p.drop_last();
        assert(forall|t: int| 0 <= t < q.len() ==> q[t] == p[t]);
        lemma_hex_value_step_bound(q, k - 1);
        assert(is_hex_digit(p.last()));
        assert(0 <= hex_digit_value(p.last()) <= 15);
        assert(spec_hex_value(p) == spec_hex_value(q) * 16 + hex_digit_value(p.last()));
    }
}

/// The value of one hex group, for groups the grammar accepts.
fn hex_val(f: &Vec<char>) -> (r: u16)
    requires
        valid_hex_group(f@),
    ensures
        r == spec_hex_value(f@),
{
    let len = f.len();
    let mut val: u32 = 0;
    let mut k: usize = 0;
    while k < len
        invariant
            0 <= k <= len == f@.len() <= 4,
            forall|t: int| 0 <= t < f@.len() ==> is_hex_digit(#[trigger] f@[t]),
            val == spec_hex_value(f@.subrange(0, k as int)),
            val <= max_hex(k as int),
        decreases len - k,
    {
        let c = f[k];
        let d: u32 = if '0' <= c && c <= '9' {
            c as u32 - '0' as u32
        } else if 'a' <= c && c <= 'f' {
            c as u32 - 'a' as u32 + 10
        } else {
            c as u32 - 'A' as u32 + 10
        };
        proof {
            assert(is_hex_digit(f@[k as int]));
            assert(d == hex_digit_value(f@[k as int]));
            assert(f@.subrange(0, k as int + 1).drop_last() =~= f@.subrange(0, k as int));
            assert(f@.subrange(0, k as int + 1).last() == f@[k as int]);
            assert(forall|t: int|
                0 <= t < k + 1 ==> f@.subrange(0, k as int + 1)[t] == f@[t]);
            lemma_hex_value_step_bound(f@.subrange(0, k as int + 1), k as int + 1);
        }
        val = val * 16 + d;
        k += 1;
    }
    proof {
        assert(f@.subrange(0, len as int) =~= f@);
    }
    val as u16
}

/// The address value of an IPv4 literal.
fn ipv4_addr_of(v: &Vec<char>) -> (r: IpAddress)
    requires
        is_ipv4_literal(v@),
    ensures
        r == spec_ipv4_addr(v@),
{
    let fs = split_chars(v, '.');
    proof {
        assert(fs.deep_view().len() == fs@.len());
        assert(fs.deep_view()[0] == fs@[0]@);
        assert(fs.deep_view()[1] == fs@[1]@);
        assert(fs.deep_view()[2] == fs@[2]@);
        assert(fs.deep_view()[3] == fs@[3]@);
    }
    let a = octet_val(&fs[0]);
    let b = octet_val(&fs[1]);
    let c = octet_val(&fs[2]);
    let d = octet_val(&fs[3]);
    IpAddress::V4(a, b, c, d)
}

/// The two groups an embedded IPv4 address stands for.
fn v4_pair_vals(f: &Vec<char>) -> (r: (u16, u16))
    requires
        is_ipv4_literal(f@),
    ensures
        seq![r.0, r.1] == v4_group_pair(f@),
{
    let qs = split_chars(f, '.');
    proof {
        assert(qs.deep_view().len() == qs@.len());
        assert(qs.deep_view()[0] == qs@[0]@);
        assert(qs.deep_view()[1] == qs@[1]@);
        assert(qs.deep_view()[2] == qs@[2]@);
        assert(qs.deep_view()[3] == qs@[3]@);
    }
    let a = octet_val(&qs[0]);
    let b = octet_val(&qs[1]);
    let c = octet_val(&qs[2]);
    let d = octet_val(&qs[3]);
    let hi: u16 = (a as u16) * 256 + (b as u16);
    let lo: u16 = (c as u16) * 256 + (d as u16);
    proof {
        assert(seq![hi, lo] =~= v4_group_pair(f@));
    }
    (hi, lo)
}

/// The group values of a hex run.
fn hex_groups_vals(fs: &Vec<Vec<char>>, lo: usize, hi: usize) -> (r: Vec<u16>)
    requires
        lo <= hi <= fs@.len(),
        all_hex_groups(fs.deep_view(), lo as int, hi as int),
    ensures
        r@ == hex_groups_seq(fs.deep_view(), lo as int, hi as int),
{
    let mut out: Vec<u16> = Vec::new();
    let mut k: usize = lo;
    while k < hi
        invariant
            lo <= k <= hi <= fs@.len(),
            all_hex_groups(fs.deep_view(), lo as int, hi as int),
            out@ =~= hex_groups_seq(fs.deep_view(), lo as int, k as int),
        decreases hi - k,
    {
        proof {
            assert(fs.deep_view()[k as int] == fs@[k as int]@);
            assert(valid_hex_group(fs.deep_view()[k as int]));
        }
        let g = hex_val(&fs[k]);
        out.push(g);
        proof {
            assert(out@ =~= hex_groups_seq(fs.deep_view(), lo as int, k as int + 1));
        }
        k += 1;
    }
    out
}

/// The group values of a run that may end in an embedded IPv4 address.
fn tail_groups_vals(fs: &Vec<Vec<char>>, lo: usize, hi: usize) -> (r: Vec<u16>)
    requires
        lo <= hi <= fs@.len(),
        all_hex_groups(fs.deep_view(), lo as int, hi as int) || (hi > lo && all_hex_groups(
            fs.deep_view(),
            lo as int,
            hi as int - 1,
        ) && is_ipv4_literal(fs.deep_view()[hi - 1])),
    ensures
        r@ == tail_groups_seq(fs.deep_view(), lo as int, hi as int),
{
    let ghost gfs = fs.deep_view();
    if hi > lo {
        proof {
            assert(gfs[hi - 1] == fs@[hi - 1]@);
        }
        if check_ipv4_chars(&fs[hi - 1]) {
            let mut out = hex_groups_vals(fs, lo, hi - 1);
            proof {
                if all_hex_groups(gfs, lo as int, hi as int) {
                    assert(valid_hex_group(gfs[hi - 1]));
                    lemma_ipv4_needs_dots(gfs[hi - 1]);
                }
            }
            let (g1, g2) = v4_pair_vals(&fs[hi - 1]);
            out.push(g1);
            out.push(g2);
            proof {
                assert(out@ =~= hex_groups_seq(gfs, lo as int, hi as int - 1) + v4_group_pair(
                    gfs[hi - 1],
                ));
            }
            return out;
        }
        proof {
            assert(!is_ipv4_literal(gfs[hi - 1]));
        }
    }
    hex_groups_vals(fs, lo, hi)
}

/// Eight groups from the written head and tail runs, zero groups for
/// the compression between them.
fn assemble_v6(head: Vec<u16>, tail: Vec<u16>) -> (r: IpAddress)
    requires
        head@.len() + tail@.len() <= 8,
    ensures
        r == groups_to_addr(pad_groups(head@, tail@)),
{
    let mut g = head;
    let ghost h0 = g@;
    let zeros: usize = 8 - g.len() - tail.len();
    let mut z: usize = 0;
    while z < zeros
        invariant
            0 <= z <= zeros,
            g@ =~= h0 + zeros_pad(z as int),
        decreases zeros - z,
    {
        g.push(0);
        proof {
            assert(g@ =~= h0 + zeros_pad(z as int + 1));
        }
        z += 1;
    }
    let mut t: usize = 0;
    let tn = tail.len();
    let ghost hz = g@;
    while t < tn
        invariant
            0 <= t <= tn == tail@.len(),
            g@ =~= hz + tail@.subrange(0, t as int),
        decreases tn - t,
    {
        g.push(tail[t]);
        proof {
            assert(g@ =~= hz + tail@.subrange(0, t as int + 1));
        }
        t += 1;
    }
    proof {
        assert(tail@.subrange(0, tn as int) =~= tail@);
        assert(g@ =~= pad_groups(h0, tail@));
        assert(g@.len() == 8);
    }
    IpAddress::V6(g[0], g[1], g[2], g[3], g[4], g[5], g[6], g[7])
}

/// Checks whether a host name is a literal IP address, as written in a
/// URL host: a dotted IPv4 quad or a colon-separated IPv6 address.
pub fn domain_is_ipaddr(domain: &str) -> (r: bool)
    ensures
        r == (is_ipv4_literal(domain@) || is_ipv6_literal(domain@)),
{
    let chars = to_chars(domain);
    let v4 = check_ipv4_chars(&chars);
    if v4 {
        return true;
    }
    check_ipv6_chars(&chars)
}

/// Parse a host string as a literal IP address: the dotted quad's
/// octets, or the colon form's eight groups with any compression
/// expanded to zeros, or nothing when the string is no literal.
pub fn parse_ip_literal(s: &str) -> (r: Option<IpAddress>)
    ensures
        r == spec_ip_of(s@),
        r is Some <==> (is_ipv4_literal(s@) || is_ipv6_literal(s@)),
{
    let chars = to_chars(s);
    if check_ipv4_chars(&chars) {
        return Some(ipv4_addr_of(&chars));
    }
    parse_ipv6_chars(&chars)
}

} // verus!
