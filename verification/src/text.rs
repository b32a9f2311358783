//! Verified helpers on character sequences: equality, searching for a
//! character from either end, substring containment, and prefix tests.

use vstd::prelude::*;
use vstd::string::StringExecFns;
use vstd::string::StrSliceExecFns;

verus! {

/// Compares two string slices by content.
pub fn str_eq(a: &str, b: &str) -> (r: bool)
    ensures
        r == (a@ == b@),
{
    let sa = String::from_str(a);
    let sb = String::from_str(b);
    sa == sb
}

/// The index of the last occurrence of `c` in `s`, or -1 if there is none.
pub open spec fn find_last_in(s: Seq<char>, c: char) -> int
    decreases s.len(),
{
    if s.len() == 0 {
        -1
    } else if s.last() == c {
        s.len() - 1
    } else {
        find_last_in(s.drop_last(), c)
    }
}

/// The index of the first occurrence of `c` in `s`, or -1 if there is none.
pub open spec fn find_first_in(s: Seq<char>, c: char) -> int
    decreases s.len(),
{
    if s.len() == 0 {
        -1
    } else if s[0] == c {
        0
    } else {
        let r = find_first_in(s.drop_first(), c);
        if r == -1 {
            -1
        } else {
            r + 1
        }
    }
}

pub proof fn lemma_find_last_none(s: Seq<char>, c: char)
    requires
        forall|j: int| 0 <= j < s.len() ==> s[j] != c,
    ensures
        find_last_in(s, c) == -1,
    decreases s.len(),
{
    if s.len() > 0 {
        lemma_find_last_none(s.drop_last(), c);
    }
}

pub proof fn lemma_find_last_at(s: Seq<char>, c: char, i: int)
    requires
        0 <= i < s.len(),
        s[i] == c,
        forall|j: int| i < j < s.len() ==> s[j] != c,
    ensures
        find_last_in(s, c) == i,
    decreases s.len(),
{
    if i == s.len() - 1 {
    } else {
        assert(s.last() != c);
        lemma_find_last_at(s.drop_last(), c, i);
    }
}

pub proof fn lemma_find_first_none(s: Seq<char>, c: char)
    requires
        forall|j: int| 0 <= j < s.len() ==> s[j] != c,
    ensures
        find_first_in(s, c) == -1,
    decreases s.len(),
{
    if s.len() > 0 {
        lemma_find_first_none(s.drop_first(), c);
    }
}

pub proof fn lemma_find_first_at(s: Seq<char>, c: char, i: int)
    requires
        0 <= i < s.len(),
        s[i] == c,
        forall|j: int| 0 <= j < i ==> s[j] != c,
    ensures
        find_first_in(s, c) == i,
    decreases s.len(),
{
    if i == 0 {
    } else {
        assert(s[0] != c);
        assert(s.drop_first()[i - 1] == c);
        lemma_find_first_at(s.drop_first(), c, i - 1);
    }
}

/// Looks for the last occurrence of `c` strictly before index `end`.
pub fn rfind_char(s: &str, c: char, end: usize) -> (r: Option<usize>)
    requires
        end <= s@.len(),
    ensures
        match r {
            Some(i) => i < end && find_last_in(s@.subrange(0, end as int), c) == i as int,
            None => find_last_in(s@.subrange(0, end as int), c) == -1,
        },
{
    let mut i = end;
    while i > 0
        invariant
            i <= end,
            end <= s@.len(),
            forall|j: int| i <= j < end ==> s@[j] != c,
        decreases i,
    {
        i = i - 1;
        if s.get_char(i) == c {
            proof {
                let t = s@.subrange(0, end as int);
                assert(t[i as int] == c);
                lemma_find_last_at(t, c, i as int);
            }
            return Some(i);
        }
    }
    proof {
        lemma_find_last_none(s@.subrange(0, end as int), c);
    }
    None
}

/// Looks for the first occurrence of `c` in `s`.
pub fn find_char(s: &str, c: char) -> (r: Option<usize>)
    ensures
        match r {
            Some(i) => i < s@.len() && find_first_in(s@, c) == i as int,
            None => find_first_in(s@, c) == -1,
        },
{
    let n = s.unicode_len();
    let mut i: usize = 0;
    while i < n
        invariant
            i <= n,
            n == s@.len(),
            forall|j: int| 0 <= j < i ==> s@[j] != c,
        decreases n - i,
    {
        if s.get_char(i) == c {
            proof {
                lemma_find_first_at(s@, c, i as int);
            }
            return Some(i);
        }
        i = i + 1;
    }
    proof {
        lemma_find_first_none(s@, c);
    }
    None
}

/// Whether `nee` occurs in `hay` starting at index `i`.
pub open spec fn is_substring_at(hay: Seq<char>, nee: Seq<char>, i: int) -> bool {
    0 <= i && i + nee.len() <= hay.len() && hay.subrange(i, i + nee.len()) == nee
}

/// Whether `nee` occurs somewhere in `hay` as a contiguous run.
pub open spec fn contains_seq(hay: Seq<char>, nee: Seq<char>) -> bool {
    exists|i: int| is_substring_at(hay, nee, i)
}

/// Substring search: whether `nee` occurs anywhere in `hay`.
pub fn contains_str(hay: &str, nee: &str) -> (r: bool)
    ensures
        r == contains_seq(hay@, nee@),
{
    let h = hay.unicode_len();
    let n = nee.unicode_len();
    if n == 0 {
        proof {
            assert(hay@.subrange(0, 0) =~= nee@);
            assert(is_substring_at(hay@, nee@, 0));
        }
        return true;
    }
    if n > h {
        proof {
            assert(forall|i: int| !is_substring_at(hay@, nee@, i));
        }
        return false;
    }
    let mut i: usize = 0;
    while i <= h - n
        invariant
            1 <= n <= h,
            h == hay@.len(),
            n == nee@.len(),
            i <= h - n + 1,
            forall|k: int| 0 <= k < i ==> !is_substring_at(hay@, nee@, k),
        decreases h - n - i + 1,
    {
        let mut j: usize = 0;
        let mut ok = true;
        while ok && j < n
            invariant
                i + n <= h,
                h == hay@.len(),
                n == nee@.len(),
                j <= n,
                ok ==> forall|l: int| 0 <= l < j ==> hay@[i + l] == nee@[l],
                !ok ==> !is_substring_at(hay@, nee@, i as int),
            decreases n - j + (if ok { 1int } else { 0int }),
        {
            if hay.get_char(i + j) != nee.get_char(j) {
                proof {
                    assert(hay@.subrange(i as int, i + nee@.len())[j as int] != nee@[j as int]);
                }
                ok = false;
            } else {
                j = j + 1;
            }
        }
        if ok {
            proof {
                assert(hay@.subrange(i as int, i + nee@.len()) =~= nee@);
                assert(is_substring_at(hay@, nee@, i as int));
            }
            return true;
        }
        i = i + 1;
    }
    proof {
        assert(forall|k: int| is_substring_at(hay@, nee@, k) ==> 0 <= k <= h - n);
    }
    false
}

/// Looks for the first occurrence of `c` at or after index `from`.
pub fn find_char_from(s: &str, c: char, from: usize) -> (r: Option<usize>)
    requires
        from <= s@.len(),
    ensures
        match r {
            Some(i) => from <= i && i < s@.len() && find_first_in(s@.skip(from as int), c) == i
                - from,
            None => find_first_in(s@.skip(from as int), c) == -1,
        },
{
    let n = s.unicode_len();
    let mut i: usize = from;
    while i < n
        invariant
            from <= i <= n,
            n == s@.len(),
            forall|j: int| from <= j < i ==> s@[j] != c,
        decreases n - i,
    {
        if s.get_char(i) == c {
            proof {
                let t = s@.skip(from as int);
                assert(t[i - from] == c);
                assert(forall|j: int| 0 <= j < i - from ==> t[j] == s@[from + j]);
                lemma_find_first_at(t, c, i - from);
            }
            return Some(i);
        }
        i = i + 1;
    }
    proof {
        let t = s@.skip(from as int);
        assert(forall|j: int| 0 <= j < t.len() ==> t[j] == s@[from + j]);
        lemma_find_first_none(t, c);
    }
    None
}

/// One line as a text reader yields it: a trailing carriage return that
/// preceded the line break is dropped.
pub open spec fn strip_cr(l: Seq<char>) -> Seq<char> {
    if l.len() > 0 && l.last() == '\r' {
        l.drop_last()
    } else {
        l
    }
}

/// The lines of a text: split at every line break, one trailing
/// carriage return stripped from each piece, and no empty final line
/// after a trailing break.
pub open spec fn split_lines_spec(s: Seq<char>) -> Seq<Seq<char>>
    decreases s.len(),
{
    if s.len() == 0 {
        Seq::empty()
    } else {
        let j = find_first_in(s, '\n');
        if !(0 <= j < s.len()) {
            seq![strip_cr(s)]
        } else {
            seq![strip_cr(s.subrange(0, j))] + split_lines_spec(s.skip(j + 1))
        }
    }
}

/// The text whose lines are `lines`, each closed by a line break.
pub open spec fn joined_lines(lines: Seq<Seq<char>>) -> Seq<char>
    decreases lines.len(),
{
    if lines.len() == 0 {
        Seq::empty()
    } else {
        lines[0] + seq!['\n'] + joined_lines(lines.drop_first())
    }
}

/// Splitting undoes joining, for lines that hold no line break and do
/// not end in a carriage return.
pub proof fn lemma_split_joined_lines(lines: Seq<Seq<char>>)
    requires
        forall|i: int, j: int|
            0 <= i < lines.len() && 0 <= j < lines[i].len() ==> #[trigger] lines[i][j] != '\n',
        forall|i: int|
            0 <= i < lines.len() && lines[i].len() > 0 ==> (#[trigger] lines[i]).last() != '\r',
    ensures
        split_lines_spec(joined_lines(lines)) == lines,
    decreases lines.len(),
{
    if lines.len() == 0 {
        assert(split_lines_spec(joined_lines(lines)) =~= lines);
    } else {
        let c = joined_lines(lines);
        let head = lines[0];
        let hl = head.len() as int;
        assert(c.len() == hl + 1 + joined_lines(lines.drop_first()).len());
        assert(forall|j: int| 0 <= j < hl ==> c[j] == head[j]);
        assert(c[hl] == '\n');
        lemma_find_first_at(c, '\n', hl);
        assert(c.subrange(0, hl) =~= head);
        assert(strip_cr(head) == head);
        assert(c.skip(hl + 1) =~= joined_lines(lines.drop_first()));
        assert(forall|i: int, j: int|
            0 <= i < lines.drop_first().len() && 0 <= j < lines.drop_first()[i].len()
                ==> #[trigger] lines.drop_first()[i][j] != '\n') by {
            assert(forall|i: int|
                0 <= i < lines.drop_first().len() ==> lines.drop_first()[i] == lines[i + 1]);
        }
        assert(forall|i: int|
            0 <= i < lines.drop_first().len() && lines.drop_first()[i].len() > 0 ==> (
            #[trigger] lines.drop_first()[i]).last() != '\r');
        lemma_split_joined_lines(lines.drop_first());
        assert(split_lines_spec(c) =~= lines);
    }
}

/// Appending one more line extends the joined text at its end.
pub proof fn lemma_joined_lines_push(lines: Seq<Seq<char>>, l: Seq<char>)
    ensures
        joined_lines(lines.push(l)) == joined_lines(lines) + l + seq!['\n'],
    decreases lines.len(),
{
    if lines.len() == 0 {
        reveal_with_fuel(joined_lines, 3);
        assert(lines.push(l)[0] == l);
        assert(lines.push(l).drop_first() =~= Seq::<Seq<char>>::empty());
        assert(joined_lines(lines.push(l)) =~= joined_lines(lines) + l + seq!['\n']);
    } else {
        let lp = lines.push(l);
        assert(lp.drop_first() =~= lines.drop_first().push(l));
        lemma_joined_lines_push(lines.drop_first(), l);
        assert(lp[0] == lines[0]);
        assert(joined_lines(lp) == lp[0] + seq!['\n'] + joined_lines(lp.drop_first()));
        assert(joined_lines(lp.drop_first()) == joined_lines(lines.drop_first()) + l + seq![
            '\n',
        ]);
        assert(joined_lines(lines) == lines[0] + seq!['\n'] + joined_lines(lines.drop_first()));
        assert(joined_lines(lp) =~= joined_lines(lines) + l + seq!['\n']);
    }
}

/// Splits a text into its lines, as a buffered reader would hand them
/// out: at every line break, with one trailing carriage return dropped
/// per line, and no empty final line after a trailing break.
pub fn split_lines(s: &str) -> (r: Vec<String>)
    ensures
        r.deep_view() == split_lines_spec(s@),
{
    let n = s.unicode_len();
    let mut out: Vec<String> = Vec::new();
    let mut start: usize = 0;
    proof {
        assert(s@.skip(0) =~= s@);
    }
    while start < n
        invariant
            start <= n,
            n == s@.len(),
            out.deep_view() + split_lines_spec(s@.skip(start as int)) == split_lines_spec(s@),
        decreases n - start,
    {
        let ghost rest = s@.skip(start as int);
        let ghost prev = out.deep_view();
        match find_char_from(s, '\n', start) {
            Some(j) => {
                let piece = cut_line(s, start, j);
                out.push(piece);
                proof {
                    assert(rest.subrange(0, j - start) =~= s@.subrange(start as int, j as int));
                    assert(rest.skip(j - start + 1) =~= s@.skip(j + 1));
                    assert(split_lines_spec(rest) == seq![
                        strip_cr(s@.subrange(start as int, j as int)),
                    ] + split_lines_spec(s@.skip(j + 1)));
                    assert(out.deep_view() =~= prev.push(
                        strip_cr(s@.subrange(start as int, j as int)),
                    ));
                    assert(out.deep_view() + split_lines_spec(s@.skip(j + 1)) =~= split_lines_spec(
                        s@,
                    ));
                }
                start = j + 1;
            },
            None => {
                let piece = cut_line(s, start, n);
                out.push(piece);
                proof {
                    assert(rest.subrange(0, n - start as int) =~= s@.subrange(
                        start as int,
                        n as int,
                    ));
                    assert(rest.len() > 0);
                    assert(strip_cr(rest) == strip_cr(s@.subrange(start as int, n as int)));
                    assert(split_lines_spec(rest) =~= seq![
                        strip_cr(s@.subrange(start as int, n as int)),
                    ]);
                    assert(out.deep_view() =~= prev.push(
                        strip_cr(s@.subrange(start as int, n as int)),
                    ));
                    assert(s@.skip(n as int) =~= Seq::<char>::empty());
                    assert(out.deep_view() + split_lines_spec(s@.skip(n as int))
                        =~= split_lines_spec(s@));
                }
                start = n;
            },
        }
    }
    proof {
        assert(s@.skip(start as int) =~= Seq::<char>::empty());
        assert(out.deep_view() =~= split_lines_spec(s@));
    }
    out
}

/// The piece of `s` between `from` and `to`, with one carriage return
/// before `to` dropped.
fn cut_line(s: &str, from: usize, to: usize) -> (r: String)
    requires
        from <= to <= s@.len(),
    ensures
        r@ == strip_cr(s@.subrange(from as int, to as int)),
{
    let piece = if to > from && s.get_char(to - 1) == '\r' {
        proof {
            assert(s@.subrange(from as int, to as int).last() == '\r');
            assert(s@.subrange(from as int, to as int).drop_last() =~= s@.subrange(
                from as int,
                to as int - 1,
            ));
        }
        s.substring_char(from, to - 1)
    } else {
        proof {
            if to > from {
                assert(s@.subrange(from as int, to as int).last() == s@[to - 1]);
            }
        }
        s.substring_char(from, to)
    };
    String::from_str(piece)
}

/// Whether `p` is a prefix of `s`.
pub open spec fn starts_with_seq(s: Seq<char>, p: Seq<char>) -> bool {
    p.len() <= s.len() && s.subrange(0, p.len() as int) == p
}

pub fn starts_with(s: &str, p: &str) -> (r: bool)
    ensures
        r == starts_with_seq(s@, p@),
{
    let n = s.unicode_len();
    let m = p.unicode_len();
    if m > n {
        return false;
    }
    let mut j: usize = 0;
    while j < m
        invariant
            m <= n,
            n == s@.len(),
            m == p@.len(),
            j <= m,
            forall|l: int| 0 <= l < j ==> s@[l] == p@[l],
        decreases m - j,
    {
        if s.get_char(j) != p.get_char(j) {
            proof {
                assert(s@.subrange(0, p@.len() as int)[j as int] != p@[j as int]);
            }
            return false;
        }
        j = j + 1;
    }
    proof {
        assert(s@.subrange(0, p@.len() as int) =~= p@);
    }
    true
}

} // verus!
