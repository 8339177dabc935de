//! String helpers shared by the cookie parser and the proxy-list loader:
//! finding characters, splitting on a separator, trimming surrounding
//! whitespace, and splitting text into lines.

use vstd::prelude::*;
use vstd::string::*;

verus! {

/// The whitespace characters that may surround a `name=value` pair in a
/// cookie header: space, tab, carriage return and line feed.
pub open spec fn is_ws(c: char) -> bool {
    c == ' ' || c == '\t' || c == '\r' || c == '\n'
}

/// Index of the first occurrence of `c` in `s`, or -1 if `s` has none.
pub open spec fn first_index_of(s: Seq<char>, c: char) -> int
    decreases s.len(),
{
    if s.len() == 0 {
        -1
    } else if s[0] == c {
        0
    } else {
        let r = first_index_of(s.drop_first(), c);
        if r == -1 {
            -1
        } else {
            r + 1
        }
    }
}

pub proof fn lemma_first_index_of(s: Seq<char>, c: char)
    ensures
        first_index_of(s, c) == -1 ==> forall|j: int| 0 <= j < s.len() ==> s[j] != c,
        first_index_of(s, c) != -1 ==> {
            let i = first_index_of(s, c);
            &&& 0 <= i < s.len()
            &&& s[i] == c
            &&& forall|j: int| 0 <= j < i ==> s[j] != c
        },
    decreases s.len(),
{
    if s.len() > 0 && s[0] != c {
        let t = s.drop_first();
        lemma_first_index_of(t, c);
        if first_index_of(t, c) == -1 {
            assert forall|j: int| 0 <= j < s.len() implies s[j] != c by {
                if j > 0 {
                    assert(t[j - 1] != c);
                }
            }
        } else {
            let i = first_index_of(t, c);
            assert(s[i + 1] == t[i]);
            assert forall|j: int| 0 <= j < i + 1 implies s[j] != c by {
                if j > 0 {
                    assert(t[j - 1] != c);
                }
            }
        }
    }
}

/// Conversely: if `c` first appears at position `i`, then `first_index_of`
/// returns `i`; if it appears nowhere, `first_index_of` returns -1.
pub proof fn lemma_first_index_of_unique(s: Seq<char>, c: char, i: int)
    requires
        0 <= i < s.len(),
        s[i] == c,
        forall|j: int| 0 <= j < i ==> s[j] != c,
    ensures
        first_index_of(s, c) == i,
    decreases s.len(),
{
    if i > 0 {
        lemma_first_index_of_unique(s.drop_first(), c, i - 1);
    }
}

pub proof fn lemma_first_index_of_none(s: Seq<char>, c: char)
    requires
        forall|j: int| 0 <= j < s.len() ==> s[j] != c,
    ensures
        first_index_of(s, c) == -1,
    decreases s.len(),
{
    if s.len() > 0 {
        lemma_first_index_of_none(s.drop_first(), c);
    }
}

/// Scan `s` from position `from` for the character `c`.
pub fn find_char(s: &str, from: usize, c: char) -> (r: Option<usize>)
    requires
        from <= s@.len(),
    ensures
        match r {
            Some(i) => {
                &&& from <= i < s@.len()
                &&& s@[i as int] == c
                &&& forall|j: int| from <= j < i ==> s@[j] != c
            },
            None => forall|j: int| from <= j < s@.len() ==> s@[j] != c,
        },
{
    let n: usize = s.unicode_len();
    let mut i: usize = from;
    while i < n
        invariant
            from <= i <= n,
            n == s@.len(),
            forall|j: int| from <= j < i ==> s@[j] != c,
        decreases n - i,
    {
        if s.get_char(i) == c {
            return Some(i);
        }
        i = i + 1;
    }
    None
}

/// The segments of `s` between occurrences of the separator `c`. A string
/// without the separator is one segment; every separator opens a new
/// (possibly empty) segment.
pub open spec fn split_on(s: Seq<char>, c: char) -> Seq<Seq<char>>
    decreases s.len(),
    via split_on_dec
{
    let i = first_index_of(s, c);
    if i == -1 {
        seq![s]
    } else {
        seq![s.take(i)] + split_on(s.subrange(i + 1, s.len() as int), c)
    }
}

#[via_fn]
proof fn split_on_dec(s: Seq<char>, c: char) {
    lemma_first_index_of(s, c);
}

/// Split `s` into the segments between occurrences of `c`.
pub fn split_str(s: &str, c: char) -> (parts: Vec<String>)
    ensures
        parts@.map_values(|p: String| p@) == split_on(s@, c),
{
    let n: usize = s.unicode_len();
    let mut parts: Vec<String> = Vec::new();
    let mut pos: usize = 0;
    proof {
        assert(s@.subrange(0, n as int) =~= s@);
        assert(parts@.map_values(|p: String| p@) + split_on(s@.subrange(0, n as int), c)
            =~= split_on(s@, c));
    }
    loop
        invariant
            pos <= n,
            n == s@.len(),
            parts@.map_values(|p: String| p@) + split_on(s@.subrange(pos as int, n as int), c)
                =~= split_on(s@, c),
        decreases n - pos,
    {
        let ghost suffix = s@.subrange(pos as int, n as int);
        match find_char(s, pos, c) {
            Some(i) => {
                let piece = s.substring_char(pos, i).to_owned();
                proof {
                    assert forall|j: int| 0 <= j < i - pos implies suffix[j] != c by {
                        assert(suffix[j] == s@[pos + j]);
                    }
                    assert(suffix[i - pos] == c);
                    lemma_first_index_of_unique(suffix, c, i - pos);
                    assert(suffix.take(i - pos) =~= s@.subrange(pos as int, i as int));
                    assert(suffix.subrange(i - pos + 1, suffix.len() as int) =~= s@.subrange(
                        i + 1,
                        n as int,
                    ));
                    assert((parts@.push(piece)).map_values(|p: String| p@) =~= parts@.map_values(
                        |p: String| p@,
                    ).push(piece@));
                    assert(parts@.map_values(|p: String| p@).push(suffix.take(i - pos)) + split_on(
                        s@.subrange(i + 1, n as int),
                        c,
                    ) =~= parts@.map_values(|p: String| p@) + split_on(suffix, c));
                }
                parts.push(piece);
                pos = i + 1;
            },
            None => {
                let piece = s.substring_char(pos, n).to_owned();
                proof {
                    lemma_first_index_of_none(suffix, c);
                    assert((parts@.push(piece)).map_values(|p: String| p@) =~= parts@.map_values(
                        |p: String| p@,
                    ).push(piece@));
                    assert(parts@.map_values(|p: String| p@).push(suffix) =~= parts@.map_values(
                        |p: String| p@,
                    ) + split_on(suffix, c));
                }
                parts.push(piece);
                return parts;
            },
        }
    }
}

/// Compare two string slices character by character.
pub fn str_eq(a: &str, b: &str) -> (r: bool)
    ensures
        r == (a@ == b@),
{
    let na: usize = a.unicode_len();
    let nb: usize = b.unicode_len();
    if na != nb {
        return false;
    }
    let mut i: usize = 0;
    while i < na
        invariant
            0 <= i <= na,
            na == a@.len(),
            na == b@.len(),
            forall|j: int| 0 <= j < i ==> a@[j] == b@[j],
        decreases na - i,
    {
        if a.get_char(i) != b.get_char(i) {
            return false;
        }
        i = i + 1;
    }
    proof {
        assert(a@ =~= b@);
    }
    true
}

/// `s` without its leading whitespace.
pub open spec fn trim_start_spec(s: Seq<char>) -> Seq<char>
    decreases s.len(),
{
    if s.len() > 0 && is_ws(s[0]) {
        trim_start_spec(s.drop_first())
    } else {
        s
    }
}

/// `s` without its trailing whitespace.
pub open spec fn trim_end_spec(s: Seq<char>) -> Seq<char>
    decreases s.len(),
{
    if s.len() > 0 && is_ws(s.last()) {
        trim_end_spec(s.drop_last())
    } else {
        s
    }
}

/// `s` without its leading and trailing whitespace.
pub open spec fn trim_spec(s: Seq<char>) -> Seq<char> {
    trim_end_spec(trim_start_spec(s))
}

proof fn lemma_trim_start_at(s: Seq<char>, a: int)
    requires
        0 <= a <= s.len(),
        forall|j: int| 0 <= j < a ==> is_ws(s[j]),
        a == s.len() || !is_ws(s[a]),
    ensures
        trim_start_spec(s) == s.subrange(a, s.len() as int),
    decreases a,
{
    if a == 0 {
        assert(s.subrange(0, s.len() as int) =~= s);
    } else {
        let t = s.drop_first();
        assert(is_ws(s[0]));
        assert forall|j: int| 0 <= j < a - 1 implies is_ws(t[j]) by {
            assert(t[j] == s[j + 1]);
        }
        lemma_trim_start_at(t, a - 1);
        assert(t.subrange(a - 1, t.len() as int) =~= s.subrange(a, s.len() as int));
    }
}

proof fn lemma_trim_end_at(s: Seq<char>, b: int)
    requires
        0 <= b <= s.len(),
        forall|j: int| b <= j < s.len() ==> is_ws(s[j]),
        b == 0 || !is_ws(s[b - 1]),
    ensures
        trim_end_spec(s) == s.take(b),
    decreases s.len(),
{
    if b == s.len() {
        assert(s.take(b) =~= s);
    } else {
        let t = s.drop_last();
        assert(is_ws(s.last()));
        assert forall|j: int| b <= j < t.len() implies is_ws(t[j]) by {
            assert(t[j] == s[j]);
        }
        lemma_trim_end_at(t, b);
        assert(t.take(b) =~= s.take(b));
    }
}

/// An executable test for the whitespace class used by `trim`.
pub fn is_ws_char(c: char) -> (r: bool)
    ensures
        r == is_ws(c),
{
    c == ' ' || c == '\t' || c == '\r' || c == '\n'
}

/// `s` with surrounding whitespace removed.
pub fn trim(s: &str) -> (r: &str)
    ensures
        r@ == trim_spec(s@),
{
    let n: usize = s.unicode_len();
    let mut a: usize = 0;
    while a < n && is_ws_char(s.get_char(a))
        invariant
            0 <= a <= n,
            n == s@.len(),
            forall|j: int| 0 <= j < a ==> is_ws(s@[j]),
        decreases n - a,
    {
        a = a + 1;
    }
    let mut b: usize = n;
    while b > a && is_ws_char(s.get_char(b - 1))
        invariant
            a <= b <= n,
            n == s@.len(),
            forall|j: int| b <= j < n ==> is_ws(s@[j]),
        decreases b,
    {
        b = b - 1;
    }
    let r = s.substring_char(a, b);
    proof {
        lemma_trim_start_at(s@, a as int);
        let t = s@.subrange(a as int, n as int);
        if b == a {
            // everything from `a` on is whitespace
            lemma_trim_end_at(t, 0);
        } else {
            assert(!is_ws(s@[b - 1]));
            assert forall|j: int| b - a <= j < t.len() implies is_ws(t[j]) by {
                assert(t[j] == s@[a + j]);
            }
            assert(t[b - a - 1] == s@[b as int - 1]);
            lemma_trim_end_at(t, b - a);
        }
        assert(t.take(b - a) =~= s@.subrange(a as int, b as int));
    }
    r
}

/// `l` without one trailing carriage return, as a line separator of the form
/// `\r\n` leaves one on the segment before `\n`.
pub open spec fn strip_cr(l: Seq<char>) -> Seq<char> {
    if l.len() > 0 && l.last() == '\r' {
        l.drop_last()
    } else {
        l
    }
}

/// The lines of `s`: segments between `\n` separators, each without a
/// trailing `\r`, and without a final empty segment when `s` ends in `\n`.
pub open spec fn split_lines_spec(s: Seq<char>) -> Seq<Seq<char>> {
    if s.len() == 0 {
        Seq::empty()
    } else {
        let ps = split_on(s, '\n');
        let qs = if s.last() == '\n' {
            ps.drop_last()
        } else {
            ps
        };
        qs.map_values(|l: Seq<char>| strip_cr(l))
    }
}

/// Every split has at least one segment, and a string ending in the
/// separator has an empty last segment.
proof fn lemma_split_on_last(s: Seq<char>, c: char)
    ensures
        split_on(s, c).len() >= 1,
        s.len() > 0 && s.last() == c ==> split_on(s, c).last() =~= Seq::<char>::empty(),
    decreases s.len(),
{
    lemma_first_index_of(s, c);
    let i = first_index_of(s, c);
    if i != -1 {
        let rest = s.subrange(i + 1, s.len() as int);
        lemma_split_on_last(rest, c);
        assert(split_on(s, c).last() == split_on(rest, c).last());
        if s.len() > 0 && s.last() == c {
            if rest.len() == 0 {
                assert(split_on(rest, c) =~= seq![rest]);
                assert(rest =~= Seq::<char>::empty());
            } else {
                assert(rest.last() == s.last());
            }
        }
    }
}

/// Split `s` into lines, as a proxy list held one endpoint per line is read.
pub fn split_lines(s: &str) -> (r: Vec<String>)
    ensures
        r@.map_values(|p: String| p@) == split_lines_spec(s@),
{
    let n: usize = s.unicode_len();
    if n == 0 {
        let r: Vec<String> = Vec::new();
        proof {
            assert(r@.map_values(|p: String| p@) =~= split_lines_spec(s@));
        }
        return r;
    }
    let mut parts = split_str(s, '\n');
    proof {
        lemma_split_on_last(s@, '\n');
    }
    if s.get_char(n - 1) == '\n' {
        parts.pop();
    }
    let ghost qs = if s@.last() == '\n' {
        split_on(s@, '\n').drop_last()
    } else {
        split_on(s@, '\n')
    };
    proof {
        assert(parts@.map_values(|p: String| p@) =~= qs);
    }
    let mut out: Vec<String> = Vec::new();
    let mut k: usize = 0;
    while k < parts.len()
        invariant
            0 <= k <= parts@.len(),
            parts@.map_values(|p: String| p@) =~= qs,
            out@.map_values(|p: String| p@) =~= qs.take(k as int).map_values(
                |l: Seq<char>| strip_cr(l),
            ),
        decreases parts@.len() - k,
    {
        let line: &String = &parts[k];
        let m: usize = line.as_str().unicode_len();
        let stripped: String = if m > 0 && line.as_str().get_char(m - 1) == '\r' {
            line.as_str().substring_char(0, m - 1).to_owned()
        } else {
            line.clone()
        };
        proof {
            assert(line@ == qs[k as int]);
            if m > 0 && line@.last() == '\r' {
                assert(line@.subrange(0, m - 1) =~= line@.drop_last());
            }
            assert(stripped@ == strip_cr(qs[k as int]));
            assert(out@.push(stripped).map_values(|p: String| p@) =~= out@.map_values(
                |p: String| p@,
            ).push(stripped@));
            assert(qs.take(k + 1).map_values(|l: Seq<char>| strip_cr(l)) =~= qs.take(
                k as int,
            ).map_values(|l: Seq<char>| strip_cr(l)).push(strip_cr(qs[k as int])));
        }
        out.push(stripped);
        k = k + 1;
    }
    proof {
        assert(qs.take(qs.len() as int) =~= qs);
        assert(out@.map_values(|p: String| p@) =~= split_lines_spec(s@));
    }
    out
}

} // verus!
