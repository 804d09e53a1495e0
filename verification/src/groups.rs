//! The supplementary groups of a process, read from the text of its status
//! file (`/proc/<pid>/task/<pid>/status` on Linux): the numbers on its
//! `Groups:` line.

use vstd::prelude::*;
use vstd::string::*;

verus! {

/// `c` is white space: it has the Unicode `White_Space` property, which is
/// what `char::is_whitespace` tests.
pub open spec fn is_white(c: char) -> bool {
    let n = c as u32;
    ||| 0x9 <= n <= 0xd
    ||| n == 0x20
    ||| n == 0x85
    ||| n == 0xa0
    ||| n == 0x1680
    ||| 0x2000 <= n <= 0x200a
    ||| n == 0x2028
    ||| n == 0x2029
    ||| n == 0x202f
    ||| n == 0x205f
    ||| n == 0x3000
}

/// The end of the line of `s` that begins at `p`: the next `\n`, or the
/// end of `s`.
pub open spec fn line_end(s: Seq<char>, p: int) -> int
    decreases s.len() - p,
{
    if p >= s.len() || s[p] == '\n' {
        p
    } else {
        line_end(s, p + 1)
    }
}

/// A line runs from where it begins to the next `\n`, or to the end.
pub proof fn lemma_line_end(s: Seq<char>, p: int)
    ensures
        p <= s.len() ==> p <= line_end(s, p) <= s.len(),
        p <= s.len() ==> forall|j: int| p <= j < line_end(s, p) ==> s[j] != '\n',
        line_end(s, p) < s.len() ==> s[line_end(s, p)] == '\n',
        p > s.len() ==> line_end(s, p) == p,
    decreases s.len() - p,
{
    if p < s.len() && s[p] != '\n' {
        lemma_line_end(s, p + 1);
    }
}

/// The text of the line of `s` from `p` to its end `q`, without the `\r`
/// of a `\r\n` ending.
pub open spec fn line_text(s: Seq<char>, p: int, q: int) -> Seq<char> {
    if p < q < s.len() && s[q - 1] == '\r' {
        s.subrange(p, q - 1)
    } else {
        s.subrange(p, q)
    }
}

/// The text that begins the line of a process's groups.
pub open spec fn groups_tag() -> Seq<char> {
    seq!['G', 'r', 'o', 'u', 'p', 's', ':']
}

/// The first line of `s`, from the one that begins at `p` on, that begins
/// with `Groups:`.
pub open spec fn groups_line_from(s: Seq<char>, p: int) -> Option<Seq<char>>
    decreases s.len() - p,
{
    if p < 0 || p >= s.len() {
        None
    } else {
        let q = line_end(s, p);
        let line = line_text(s, p, q);
        if line.len() >= 7 && line.take(7) == groups_tag() {
            Some(line)
        } else if q >= s.len() {
            None
        } else {
            proof {
                lemma_line_end(s, p);
            }
            groups_line_from(s, q + 1)
        }
    }
}

/// The pieces of `t` between ` ` separators, empty ones included.
pub open spec fn split_space(t: Seq<char>) -> Seq<Seq<char>>
    decreases t.len(),
{
    if t.len() == 0 {
        seq![Seq::<char>::empty()]
    } else {
        let prev = split_space(t.drop_last());
        if t.last() == ' ' {
            prev.push(Seq::<char>::empty())
        } else {
            prev.update(prev.len() - 1, prev.last().push(t.last()))
        }
    }
}

/// `t` holds nothing but white space.
pub open spec fn all_white(t: Seq<char>) -> bool
    decreases t.len(),
{
    t.len() == 0 || (is_white(t.last()) && all_white(t.drop_last()))
}

/// The pieces that hold something other than white space.
pub open spec fn kept_tokens(ts: Seq<Seq<char>>) -> Seq<Seq<char>>
    decreases ts.len(),
{
    if ts.len() == 0 {
        Seq::empty()
    } else {
        let prev = kept_tokens(ts.drop_last());
        if all_white(ts.last()) {
            prev
        } else {
            prev.push(ts.last())
        }
    }
}

/// `d` holds nothing but ASCII digits.
pub open spec fn all_digits(d: Seq<char>) -> bool
    decreases d.len(),
{
    d.len() == 0 || ('0' <= d.last() <= '9' && all_digits(d.drop_last()))
}

/// The number the decimal digits `d` write.
pub open spec fn digits_value(d: Seq<char>) -> nat
    decreases d.len(),
{
    if d.len() == 0 {
        0
    } else {
        digits_value(d.drop_last()) * 10 + ((d.last() as u32) - ('0' as u32)) as nat
    }
}

/// The number a token writes, as `u32::from_str` reads it: an optional `+`
/// then at least one ASCII digit, the value fitting in 32 bits.
pub open spec fn parse_u32_spec(t: Seq<char>) -> Option<u32> {
    let d = if t.len() > 0 && t[0] == '+' {
        t.skip(1)
    } else {
        t
    };
    if d.len() > 0 && all_digits(d) && digits_value(d) <= u32::MAX {
        Some(digits_value(d) as u32)
    } else {
        None
    }
}

/// The numbers the tokens write, in order, if every one writes one.
pub open spec fn parse_all(ts: Seq<Seq<char>>) -> Option<Seq<u32>>
    decreases ts.len(),
{
    if ts.len() == 0 {
        Some(Seq::empty())
    } else {
        match (parse_all(ts.drop_last()), parse_u32_spec(ts.last())) {
            (Some(v), Some(x)) => Some(v.push(x)),
            _ => None,
        }
    }
}

/// The groups a status text lists: the numbers that follow `Groups:` and
/// one separating character on the first line that begins with it,
/// separated by spaces (pieces of nothing but white space are skipped);
/// none without such a line. `None` stands for a text that cannot be read
/// so: a `Groups:` line with nothing after the tag, a separating character
/// that is not ASCII, or a piece that is not a number.
pub open spec fn groups_of(status: Seq<char>) -> Option<Seq<u32>> {
    match groups_line_from(status, 0) {
        None => Some(Seq::empty()),
        Some(line) => if line.len() < 8 || (line[7] as u32) >= 128 {
            None
        } else {
            parse_all(kept_tokens(split_space(line.skip(8))))
        },
    }
}

proof fn lemma_split_space_step(t: Seq<char>, i: int)
    requires
        0 <= i < t.len(),
    ensures
        split_space(t.take(i + 1)) == (if t[i] == ' ' {
            split_space(t.take(i)).push(Seq::<char>::empty())
        } else {
            let p = split_space(t.take(i));
            p.update(p.len() - 1, p.last().push(t[i]))
        }),
{
    assert(t.take(i + 1).drop_last() =~= t.take(i));
}

proof fn lemma_split_space_len(t: Seq<char>)
    ensures
        split_space(t).len() >= 1,
    decreases t.len(),
{
    if t.len() > 0 {
        lemma_split_space_len(t.drop_last());
    }
}

/// Whether `c` is white space.
fn char_is_white(c: char) -> (r: bool)
    ensures
        r == is_white(c),
{
    let n = c as u32;
    (0x9 <= n && n <= 0xd) || n == 0x20 || n == 0x85 || n == 0xa0 || n == 0x1680 || (0x2000 <= n && n
        <= 0x200a) || n == 0x2028 || n == 0x2029 || n == 0x202f || n == 0x205f || n == 0x3000
}

/// Whether the characters `from..to` of `s` are all white space.
fn range_all_white(s: &str, from: usize, to: usize) -> (r: bool)
    requires
        from <= to <= s@.len(),
    ensures
        r == all_white(s@.subrange(from as int, to as int)),
{
    let mut ok = true;
    let mut k = from;
    while k < to
        invariant
            from <= k <= to <= s@.len(),
            ok == all_white(s@.subrange(from as int, k as int)),
        decreases to - k,
    {
        let c = s.get_char(k);
        proof {
            assert(s@.subrange(from as int, k + 1).drop_last() =~= s@.subrange(from as int, k as int));
        }
        ok = ok && char_is_white(c);
        k = k + 1;
    }
    ok
}

/// The number the characters `from..to` of `s` write: see
/// `parse_u32_spec`.
fn parse_range(s: &str, from: usize, to: usize) -> (r: Option<u32>)
    requires
        from <= to <= s@.len(),
    ensures
        r == parse_u32_spec(s@.subrange(from as int, to as int)),
{
    let ghost t = s@.subrange(from as int, to as int);
    let mut k = from;
    if k < to && s.get_char(k) == '+' {
        k = k + 1;
    }
    let ghost d = s@.subrange(k as int, to as int);
    proof {
        if from < to && t[0] == '+' {
            assert(d =~= t.skip(1));
        } else {
            assert(d =~= t);
        }
    }
    let start = k;
    let mut digits = true;
    let mut big = false;
    let mut v: u64 = 0;
    while k < to
        invariant
            start <= k <= to <= s@.len(),
            d == s@.subrange(start as int, to as int),
            digits == all_digits(s@.subrange(start as int, k as int)),
            v <= 0xffff_ffff,
            digits ==> (big <==> digits_value(s@.subrange(start as int, k as int)) > u32::MAX),
            digits && !big ==> v == digits_value(s@.subrange(start as int, k as int)),
        decreases to - k,
    {
        let c = s.get_char(k);
        let ghost prefix = s@.subrange(start as int, k as int);
        proof {
            assert(s@.subrange(start as int, k + 1).drop_last() =~= prefix);
            assert(s@.subrange(start as int, k + 1).last() == c);
        }
        let is_digit = '0' <= c && c <= '9';
        if digits && is_digit && !big {
            let next = v * 10 + ((c as u32) - ('0' as u32)) as u64;
            if next > 0xffff_ffff {
                big = true;
            } else {
                v = next;
            }
        }
        digits = digits && is_digit;
        k = k + 1;
    }
    proof {
        assert(s@.subrange(start as int, k as int) =~= d);
    }
    if start < to && digits && !big {
        Some(v as u32)
    } else {
        None
    }
}

/// Whether the characters `lo..hi` of `s` begin with `Groups:`.
fn has_groups_tag(s: &str, lo: usize, hi: usize) -> (r: bool)
    requires
        lo <= hi <= s@.len(),
    ensures
        r == (s@.subrange(lo as int, hi as int).len() >= 7 && s@.subrange(lo as int, hi as int).take(7) == groups_tag()),
{
    if hi - lo < 7 {
        return false;
    }
    let r = s.get_char(lo) == 'G' && s.get_char(lo + 1) == 'r' && s.get_char(lo + 2) == 'o' && s.get_char(lo + 3) == 'u'
        && s.get_char(lo + 4) == 'p' && s.get_char(lo + 5) == 's' && s.get_char(lo + 6) == ':';
    proof {
        let t = s@.subrange(lo as int, hi as int).take(7);
        if r {
            assert(t =~= groups_tag());
        } else {
            assert(t != groups_tag() ) by {
                if t == groups_tag() {
                    assert(t[0] == 'G' && t[1] == 'r' && t[2] == 'o' && t[3] == 'u' && t[4] == 'p' && t[5] == 's' && t[6] == ':');
                }
            }
        }
    }
    r
}

/// The numbers of the pieces between spaces of the characters `from..to`
/// of `s`: see `groups_of`.
fn parse_tokens(s: &str, from: usize, to: usize) -> (r: Option<Vec<u32>>)
    requires
        from <= to <= s@.len(),
    ensures
        match parse_all(kept_tokens(split_space(s@.subrange(from as int, to as int)))) {
            Some(g) => r matches Some(v) && v@ == g,
            None => r is None,
        },
{
    let ghost t = s@.subrange(from as int, to as int);
    let ghost mut done: Seq<Seq<char>> = Seq::empty();
    let mut acc: Vec<u32> = Vec::new();
    let mut ok = true;
    let mut ts = from;
    let mut i = from;
    proof {
        assert(t.take(0) =~= Seq::<char>::empty());
        assert(s@.subrange(from as int, from as int) =~= Seq::<char>::empty());
        assert(done.push(Seq::<char>::empty()) =~= seq![Seq::<char>::empty()]);
    }
    while i < to
        invariant
            from <= ts <= i <= to <= s@.len(),
            t == s@.subrange(from as int, to as int),
            split_space(t.take(i - from)) == done.push(s@.subrange(ts as int, i as int)),
            ok ==> parse_all(kept_tokens(done)) == Some(acc@),
            !ok ==> parse_all(kept_tokens(done)) is None,
        decreases to - i,
    {
        let c = s.get_char(i);
        proof {
            lemma_split_space_step(t, i - from);
            assert(t[i - from] == c);
        }
        if c == ' ' {
            let ghost tok = s@.subrange(ts as int, i as int);
            if !range_all_white(s, ts, i) {
                match parse_range(s, ts, i) {
                    Some(x) => {
                        if ok {
                            acc.push(x);
                        }
                    },
                    None => {
                        ok = false;
                    },
                }
            }
            proof {
                let nd = done.push(tok);
                assert(nd.drop_last() =~= done);
                assert(kept_tokens(nd).len() >= 0);
                if !all_white(tok) {
                    assert(kept_tokens(nd).drop_last() =~= kept_tokens(done));
                }
                done = nd;
                assert(s@.subrange((i + 1) as int, (i + 1) as int) =~= Seq::<char>::empty());
            }
            ts = i + 1;
        } else {
            proof {
                assert(s@.subrange(ts as int, i + 1) =~= s@.subrange(ts as int, i as int).push(c));
                assert(done.push(s@.subrange(ts as int, i as int)).update(done.len() as int, s@.subrange(ts as int, i + 1))
                    =~= done.push(s@.subrange(ts as int, i + 1)));
            }
        }
        i = i + 1;
    }
    let ghost tok = s@.subrange(ts as int, to as int);
    proof {
        assert(t.take(to - from) =~= t);
    }
    if !range_all_white(s, ts, to) {
        match parse_range(s, ts, to) {
            Some(x) => {
                if ok {
                    acc.push(x);
                }
            },
            None => {
                ok = false;
            },
        }
    }
    proof {
        let nd = done.push(tok);
        assert(nd.drop_last() =~= done);
        if !all_white(tok) {
            assert(kept_tokens(nd).drop_last() =~= kept_tokens(done));
        }
    }
    if ok {
        Some(acc)
    } else {
        None
    }
}

/// The groups a process's status text lists (read, on Linux, from
/// `/proc/<pid>/task/<pid>/status`): see `groups_of`; `None` where the
/// text cannot be read so.
pub fn get_groups(status: &str) -> (r: Option<Vec<u32>>)
    ensures
        match groups_of(status@) {
            Some(g) => r matches Some(v) && v@ == g,
            None => r is None,
        },
{
    let ghost s = status@;
    let n = status.unicode_len();
    let mut p: usize = 0;
    while p < n
        invariant
            n == s.len(),
            s == status@,
            p <= n,
            groups_line_from(s, 0) == groups_line_from(s, p as int),
        decreases n - p,
    {
        let mut q = p;
        while q < n && status.get_char(q) != '\n'
            invariant
                n == s.len(),
                s == status@,
                p <= q <= n,
                line_end(s, p as int) == line_end(s, q as int),
            decreases n - q,
        {
            q = q + 1;
        }
        proof {
            lemma_line_end(s, p as int);
        }
        let hi = if q < n && q > p && status.get_char(q - 1) == '\r' { q - 1 } else { q };
        proof {
            assert(status@.subrange(p as int, hi as int) == line_text(s, p as int, q as int));
        }
        if has_groups_tag(status, p, hi) {
            return parse_line(status, p, hi);
        }
        if q >= n {
            return Some(Vec::new());
        }
        p = q + 1;
    }
    Some(Vec::new())
}

/// The groups on the line `lo..hi` of `s`, which begins with `Groups:`.
fn parse_line(s: &str, lo: usize, hi: usize) -> (r: Option<Vec<u32>>)
    requires
        lo <= hi <= s@.len(),
    ensures
        ({
            let line = s@.subrange(lo as int, hi as int);
            if line.len() < 8 || (line[7] as u32) >= 128 {
                r is None
            } else {
                match parse_all(kept_tokens(split_space(line.skip(8)))) {
                    Some(g) => r matches Some(v) && v@ == g,
                    None => r is None,
                }
            }
        }),
{
    if hi - lo < 8 {
        return None;
    }
    let c = s.get_char(lo + 7);
    if (c as u32) >= 128 {
        return None;
    }
    proof {
        assert(s@.subrange(lo as int, hi as int).skip(8) =~= s@.subrange(lo + 8, hi as int));
    }
    parse_tokens(s, lo + 8, hi)
}

} // verus!
