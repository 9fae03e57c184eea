//! Character-sequence helpers shared by the selector, version-spec and
//! feature-grammar parsers: finding a character, trimming whitespace,
//! splitting on a separator and joining tokens.
use vstd::prelude::*;

verus! {

pub open spec fn spec_is_digit(c: char) -> bool {
    '0' <= c && c <= '9'
}

pub open spec fn spec_is_space(c: char) -> bool {
    c == ' ' || c == '\t' || c == '\n' || c == '\r'
}

pub fn is_digit_char(c: char) -> (r: bool)
    ensures
        r == spec_is_digit(c),
{
    '0' <= c && c <= '9'
}

pub fn is_space_char(c: char) -> (r: bool)
    ensures
        r == spec_is_space(c),
{
    c == ' ' || c == '\t' || c == '\n' || c == '\r'
}

/// Index of the first occurrence of `c` in `s`, or `s.len()` if `c` is absent.
pub open spec fn first_ix(s: Seq<char>, c: char) -> int
    decreases s.len(),
{
    if s.len() == 0 {
        0
    } else if s[0] == c {
        0
    } else {
        1 + first_ix(s.drop_first(), c)
    }
}

pub proof fn lemma_first_ix_bounds(s: Seq<char>, c: char)
    ensures
        0 <= first_ix(s, c) <= s.len(),
        first_ix(s, c) < s.len() ==> s[first_ix(s, c)] == c,
        forall|j: int| 0 <= j < first_ix(s, c) ==> s[j] != c,
    decreases s.len(),
{
    if s.len() > 0 && s[0] != c {
        lemma_first_ix_bounds(s.drop_first(), c);
        assert forall|j: int| 0 <= j < first_ix(s, c) implies s[j] != c by {
            if j > 0 {
                assert(s.drop_first()[j - 1] == s[j]);
            }
        }
    }
}

/// `first_ix` is pinned down by "no occurrence before `i`, occurrence (or end) at `i`".
pub proof fn lemma_first_ix_is(s: Seq<char>, c: char, i: int)
    requires
        0 <= i <= s.len(),
        forall|j: int| 0 <= j < i ==> s[j] != c,
        i < s.len() ==> s[i] == c,
    ensures
        first_ix(s, c) == i,
    decreases s.len(),
{
    if s.len() > 0 && s[0] != c {
        lemma_first_ix_is(s.drop_first(), c, i - 1);
    }
}

/// `s` with leading whitespace removed.
pub open spec fn trim_left(s: Seq<char>) -> Seq<char>
    decreases s.len(),
{
    if s.len() > 0 && spec_is_space(s[0]) {
        trim_left(s.drop_first())
    } else {
        s
    }
}

/// `s` with trailing whitespace removed.
pub open spec fn trim_right(s: Seq<char>) -> Seq<char>
    decreases s.len(),
{
    if s.len() > 0 && spec_is_space(s.last()) {
        trim_right(s.drop_last())
    } else {
        s
    }
}

/// `s` with leading and trailing whitespace removed.
pub open spec fn trim(s: Seq<char>) -> Seq<char> {
    trim_right(trim_left(s))
}

pub proof fn lemma_trim_left_is(s: Seq<char>, a: int)
    requires
        0 <= a <= s.len(),
        forall|j: int| 0 <= j < a ==> spec_is_space(s[j]),
        a < s.len() ==> !spec_is_space(s[a]),
    ensures
        trim_left(s) =~= s.subrange(a, s.len() as int),
    decreases s.len(),
{
    if s.len() > 0 && spec_is_space(s[0]) {
        lemma_trim_left_is(s.drop_first(), a - 1);
        assert(s.drop_first().subrange(a - 1, s.drop_first().len() as int) =~= s.subrange(
            a,
            s.len() as int,
        ));
    } else {
        assert(a == 0);
    }
}

pub proof fn lemma_trim_right_is(s: Seq<char>, b: int)
    requires
        0 <= b <= s.len(),
        forall|j: int| b <= j < s.len() ==> spec_is_space(s[j]),
        b > 0 ==> !spec_is_space(s[b - 1]),
    ensures
        trim_right(s) =~= s.subrange(0, b),
    decreases s.len(),
{
    if s.len() > 0 && spec_is_space(s.last()) {
        lemma_trim_right_is(s.drop_last(), b);
        assert(s.drop_last().subrange(0, b) =~= s.subrange(0, b));
    } else {
        assert(b == s.len());
    }
}

/// Split `s` on `sep`, trim every segment, and drop the segments that are
/// then empty.  This is the shape shared by the target selector and by a
/// bracketed feature list.
pub open spec fn split_clean(s: Seq<char>, sep: char) -> Seq<Seq<char>>
    decreases s.len(),
{
    let i = first_ix(s, sep);
    let t = trim(s.subrange(0, i));
    let head: Seq<Seq<char>> = if t.len() == 0 {
        Seq::empty()
    } else {
        seq![t]
    };
    if 0 <= i < s.len() {
        head + split_clean(s.subrange(i + 1, s.len() as int), sep)
    } else {
        head
    }
}

/// The tokens joined with a single space between each pair.
pub open spec fn join_space(toks: Seq<Seq<char>>) -> Seq<char>
    decreases toks.len(),
{
    if toks.len() == 0 {
        Seq::empty()
    } else if toks.len() == 1 {
        toks[0]
    } else {
        join_space(toks.drop_last()) + seq![' '] + toks.last()
    }
}

/// Whether two string slices hold the same characters.
pub fn str_eq(a: &str, b: &str) -> (r: bool)
    ensures
        r == (a@ == b@),
{
    let la = a.unicode_len();
    let lb = b.unicode_len();
    if la != lb {
        assert(a@ != b@);
        return false;
    }
    let mut i: usize = 0;
    while i < la
        invariant
            la == a@.len(),
            la == b@.len(),
            0 <= i <= la,
            forall|j: int| 0 <= j < i ==> a@[j] == b@[j],
        decreases la - i,
    {
        if a.get_char(i) != b.get_char(i) {
            assert(a@ != b@);
            return false;
        }
        i += 1;
    }
    assert(a@ =~= b@);
    true
}

/// First position in `from .. to` holding `c`, or `to` if there is none.
pub fn find_in(s: &str, from: usize, to: usize, c: char) -> (r: usize)
    requires
        from <= to <= s@.len(),
    ensures
        from <= r <= to,
        r as int - from == first_ix(s@.subrange(from as int, to as int), c),
        r < to ==> s@[r as int] == c,
        forall|j: int| from <= j < r ==> s@[j] != c,
{
    let mut i: usize = from;
    while i < to
        invariant
            from <= i <= to <= s@.len(),
            forall|j: int| from <= j < i ==> s@[j] != c,
        decreases to - i,
    {
        if s.get_char(i) == c {
            proof {
                lemma_first_ix_is(s@.subrange(from as int, to as int), c, i as int - from);
            }
            return i;
        }
        i += 1;
    }
    proof {
        lemma_first_ix_is(s@.subrange(from as int, to as int), c, to as int - from);
    }
    to
}

/// The characters of `s@.subrange(a, b)` with surrounding whitespace removed,
/// as an owned string.
pub fn trim_range(s: &str, a: usize, b: usize) -> (r: String)
    requires
        a <= b <= s@.len(),
    ensures
        r@ == trim(s@.subrange(a as int, b as int)),
{
    let mut lo: usize = a;
    while lo < b && is_space_char(s.get_char(lo))
        invariant
            a <= lo <= b <= s@.len(),
            forall|j: int| a <= j < lo ==> spec_is_space(s@[j]),
        decreases b - lo,
    {
        lo += 1;
    }
    let mut hi: usize = b;
    while hi > lo && is_space_char(s.get_char(hi - 1))
        invariant
            a <= lo <= hi <= b <= s@.len(),
            forall|j: int| hi <= j < b ==> spec_is_space(s@[j]),
        decreases hi,
    {
        hi -= 1;
    }
    proof {
        let full = s@.subrange(a as int, b as int);
        lemma_trim_left_is(full, lo as int - a);
        let rest = full.subrange(lo as int - a, full.len() as int);
        lemma_trim_right_is(rest, hi as int - lo);
        assert(rest.subrange(0, hi as int - lo) =~= s@.subrange(lo as int, hi as int));
    }
    let r = s.substring_char(lo, hi);
    r.to_owned()
}

/// Split `s@.subrange(a, b)` on `sep`, trimming each segment and dropping
/// the segments that are then empty.
pub fn split_clean_range(s: &str, a: usize, b: usize, sep: char) -> (r: Vec<String>)
    requires
        a <= b <= s@.len(),
    ensures
        r.deep_view() == split_clean(s@.subrange(a as int, b as int), sep),
{
    let ghost full = s@.subrange(a as int, b as int);
    let mut r: Vec<String> = Vec::new();
    let mut pos: usize = a;
    let mut fin: bool = false;
    while !fin
        invariant
            a <= pos <= b <= s@.len(),
            fin ==> r.deep_view() == split_clean(full, sep),
            !fin ==> split_clean(full, sep) == r.deep_view() + split_clean(
                s@.subrange(pos as int, b as int),
                sep,
            ),
        decreases b - pos + (if fin { 0int } else { 1int }),
    {
        let ghost rest = s@.subrange(pos as int, b as int);
        let i = find_in(s, pos, b, sep);
        proof {
            assert(rest.subrange(0, i as int - pos) =~= s@.subrange(pos as int, i as int));
            assert(first_ix(rest, sep) == i as int - pos);
        }
        let t = trim_range(s, pos, i);
        let ghost r0 = r.deep_view();
        if t.unicode_len() > 0 {
            r.push(t);
            proof {
                assert(r.deep_view() =~= r0.push(t@));
            }
        } else {
            proof {
                assert(r.deep_view() =~= r0);
            }
        }
        if i == b {
            fin = true;
            proof {
                assert(r.deep_view() + Seq::<Seq<char>>::empty() =~= r.deep_view());
            }
        } else {
            proof {
                assert(rest.subrange(i as int - pos + 1, rest.len() as int) =~= s@.subrange(
                    i as int + 1,
                    b as int,
                ));
            }
            pos = i + 1;
        }
    }
    r
}

/// The tokens joined with a single space between each pair, as one string.
pub fn join_with_space(toks: &Vec<String>) -> (r: String)
    ensures
        r@ == join_space(toks.deep_view()),
{
    let mut r = String::new();
    let mut i: usize = 0;
    while i < toks.len()
        invariant
            0 <= i <= toks.len(),
            r@ == join_space(toks.deep_view().subrange(0, i as int)),
        decreases toks.len() - i,
    {
        let ghost pre = toks.deep_view().subrange(0, i as int);
        let ghost pre1 = toks.deep_view().subrange(0, i as int + 1);
        if i > 0 {
            r.append(" ");
            proof {
                reveal_strlit(" ");
            }
        }
        r.append(toks[i].as_str());
        proof {
            assert(pre1.drop_last() =~= pre);
            assert(pre1.last() == toks.deep_view()[i as int]);
            if i == 0 {
                assert(join_space(pre1) == pre1[0]);
                assert(Seq::<char>::empty() + toks.deep_view()[0] =~= toks.deep_view()[0]);
            }
        }
        i += 1;
    }
    proof {
        assert(toks.deep_view().subrange(0, toks.len() as int) =~= toks.deep_view());
    }
    r
}

} // verus!

