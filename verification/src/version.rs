//! Version-spec classification and normalization: the shapes a version
//! constraint may take on the command line, and the plain three-part
//! numeric versions the registry resolution compares.
use vstd::prelude::*;

use crate::error::WorkError;
use crate::text::{
    find_in, first_ix, is_digit_char, spec_is_digit, trim_range,
};

verus! {

/// How many times `c` occurs in `s`.
pub open spec fn count_char(s: Seq<char>, c: char) -> nat
    decreases s.len(),
{
    if s.len() == 0 {
        0
    } else {
        count_char(s.drop_last(), c) + if s.last() == c {
            1nat
        } else {
            0nat
        }
    }
}

/// A string is an exact version iff it splits into exactly three
/// dot-separated all-digit components: two dots, and nothing but digits
/// around them.
pub open spec fn spec_exact_version(s: Seq<char>) -> bool {
    count_char(s, '.') == 2 && forall|i: int|
        0 <= i < s.len() ==> s[i] == '.' || spec_is_digit(s[i])
}

/// Whether `s` is a literal three-part numeric version such as `1.2.3`.
pub fn is_exact_version(s: &str) -> (r: bool)
    ensures
        r == spec_exact_version(s@),
{
    let len = s.unicode_len();
    let mut dots: usize = 0;
    let mut i: usize = 0;
    while i < len
        invariant
            0 <= i <= len,
            len == s@.len(),
            dots == count_char(s@.subrange(0, i as int), '.'),
            dots <= i,
            forall|j: int| 0 <= j < i ==> s@[j] == '.' || spec_is_digit(s@[j]),
        decreases len - i,
    {
        let c = s.get_char(i);
        proof {
            assert(s@.subrange(0, i as int + 1).drop_last() =~= s@.subrange(0, i as int));
            assert(s@.subrange(0, i as int + 1).last() == s@[i as int]);
        }
        if c == '.' {
            dots += 1;
        } else if !is_digit_char(c) {
            assert(!spec_exact_version(s@));
            return false;
        }
        i += 1;
    }
    proof {
        assert(s@.subrange(0, len as int) =~= s@);
    }
    dots == 2
}

/// Whether the constraint already carries a range operator.
pub open spec fn spec_starts_op(s: Seq<char>) -> bool {
    s.len() > 0 && (s[0] == '^' || s[0] == '~' || s[0] == '>' || s[0] == '<')
}

/// Whether `s` holds nothing but digits and dots.
pub open spec fn spec_all_num_dotted(s: Seq<char>) -> bool {
    forall|i: int| 0 <= i < s.len() ==> s[i] == '.' || spec_is_digit(s[i])
}

/// Bring a constraint into range form: one already starting with an
/// operator passes through unchanged, an all-numeric dotted literal gains a
/// leading caret, and any other shape is rejected.
pub fn normalize_range(raw: &str) -> (r: Result<String, WorkError>)
    ensures
        spec_starts_op(raw@) ==> (r matches Ok(s) && s@ == raw@),
        !spec_starts_op(raw@) && spec_all_num_dotted(raw@) ==> (r matches Ok(s) && s@ == seq![
            '^',
        ] + raw@),
        !spec_starts_op(raw@) && !spec_all_num_dotted(raw@) ==> (r matches Err(e)
            && e matches WorkError::InvalidSpec { text } && text@ == raw@),
{
    let len = raw.unicode_len();
    let mut isop = false;
    if len > 0 {
        let c = raw.get_char(0);
        isop = c == '^' || c == '~' || c == '>' || c == '<';
    }
    assert(isop == spec_starts_op(raw@));
    if isop {
        return Ok(raw.to_owned());
    }
    let mut i: usize = 0;
    while i < len
        invariant
            0 <= i <= len,
            len == raw@.len(),
            !spec_starts_op(raw@),
            forall|j: int| 0 <= j < i ==> raw@[j] == '.' || spec_is_digit(raw@[j]),
        decreases len - i,
    {
        let c = raw.get_char(i);
        if c != '.' && !is_digit_char(c) {
            return Err(WorkError::InvalidSpec { text: raw.to_owned() });
        }
        i += 1;
    }
    let mut out = String::new();
    out.append("^");
    out.append(raw);
    proof {
        reveal_strlit("^");
        assert(out@ =~= seq!['^'] + raw@);
    }
    Ok(out)
}

/// The portion of a dependency token before its first `@`, used to match
/// a feature request against the requested dependency names.
pub open spec fn base_of(s: Seq<char>) -> Seq<char> {
    s.subrange(0, first_ix(s, '@'))
}

/// Split a dependency token into its base name and the optional version
/// constraint after the first `@`.
pub fn parse_dep_spec(s: &str) -> (r: (String, Option<String>))
    ensures
        r.0@ == base_of(s@),
        first_ix(s@, '@') == s@.len() ==> r.1 is None,
        first_ix(s@, '@') < s@.len() ==> (r.1 matches Some(v) && v@ == s@.subrange(
            first_ix(s@, '@') + 1,
            s@.len() as int,
        )),
{
    let len = s.unicode_len();
    let i = find_in(s, 0, len, '@');
    proof {
        lemma_first_ix_whole(s@, '@', i as int);
    }
    let name = s.substring_char(0, i).to_owned();
    if i == len {
        (name, None)
    } else {
        let v = s.substring_char(i + 1, len).to_owned();
        (name, Some(v))
    }
}

proof fn lemma_first_ix_whole(s: Seq<char>, c: char, i: int)
    requires
        0 <= i <= s.len(),
        i - 0 == first_ix(s.subrange(0, s.len() as int), c),
    ensures
        first_ix(s, c) == i,
{
    assert(s.subrange(0, s.len() as int) =~= s);
}

/// A plain three-part numeric version.
#[derive(Debug, Clone, Copy, PartialEq, Eq, Structural)]
pub struct SemVer {
    pub major: u64,
    pub minor: u64,
    pub patch: u64,
}

/// Strict lexicographic order on version triples.
pub open spec fn triple_lt(a: SemVer, b: SemVer) -> bool {
    a.major < b.major || (a.major == b.major && (a.minor < b.minor || (a.minor == b.minor
        && a.patch < b.patch)))
}

pub open spec fn triple_le(a: SemVer, b: SemVer) -> bool {
    triple_lt(a, b) || a == b
}

/// Whether `a` precedes `b` in version order.
pub fn triple_less(a: &SemVer, b: &SemVer) -> (r: bool)
    ensures
        r == triple_lt(*a, *b),
{
    a.major < b.major || (a.major == b.major && (a.minor < b.minor || (a.minor == b.minor
        && a.patch < b.patch)))
}

/// The numeric value of an all-digit string.
pub open spec fn digits_val(s: Seq<char>) -> nat
    decreases s.len(),
{
    if s.len() == 0 {
        0
    } else {
        (digits_val(s.drop_last()) * 10 + (s.last() as int - '0' as int)) as nat
    }
}

/// A usable numeric component: non-empty, all digits, and within `u64`.
pub open spec fn wf_num(s: Seq<char>) -> bool {
    s.len() > 0 && (forall|i: int| 0 <= i < s.len() ==> spec_is_digit(s[i])) && digits_val(s)
        <= u64::MAX
}

proof fn lemma_digits_val_step(s: Seq<char>, k: int)
    requires
        0 <= k < s.len(),
        spec_is_digit(s[k]),
    ensures
        digits_val(s.subrange(0, k + 1)) == digits_val(s.subrange(0, k)) * 10 + (s[k] as int
            - '0' as int),
{
    assert(s.subrange(0, k + 1).drop_last() =~= s.subrange(0, k));
    assert(s.subrange(0, k + 1).last() == s[k]);
}

proof fn lemma_digits_val_monotone(s: Seq<char>, k: int, m: int)
    requires
        0 <= k <= m <= s.len(),
        forall|i: int| 0 <= i < s.len() ==> spec_is_digit(s[i]),
    ensures
        digits_val(s.subrange(0, k)) <= digits_val(s.subrange(0, m)),
    decreases m - k,
{
    if k < m {
        lemma_digits_val_step(s, m - 1);
        lemma_digits_val_monotone(s, k, m - 1);
    }
}

/// Parse `s@.subrange(a, b)` as a numeric component.
pub fn parse_num_range(s: &str, a: usize, b: usize) -> (r: Option<u64>)
    requires
        a <= b <= s@.len(),
    ensures
        ({
            let part = s@.subrange(a as int, b as int);
            match r {
                Some(v) => wf_num(part) && v == digits_val(part),
                None => !wf_num(part),
            }
        }),
{
    let ghost part = s@.subrange(a as int, b as int);
    if a == b {
        return None;
    }
    let mut acc: u64 = 0;
    let mut i: usize = a;
    while i < b
        invariant
            a <= i <= b <= s@.len(),
            part == s@.subrange(a as int, b as int),
            forall|j: int| a <= j < i ==> spec_is_digit(s@[j]),
            acc == digits_val(part.subrange(0, i as int - a)),
        decreases b - i,
    {
        let c = s.get_char(i);
        if !is_digit_char(c) {
            assert(part[i as int - a] == s@[i as int]);
            return None;
        }
        let d: u64 = (c as u32 - '0' as u32) as u64;
        proof {
            assert(part[i as int - a] == s@[i as int]);
            lemma_digits_val_step(part, i as int - a);
        }
        let step = match acc.checked_mul(10) {
            Some(m) => m.checked_add(d),
            None => None,
        };
        match step {
            Some(v) => {
                acc = v;
            },
            None => {
                proof {
                    assert(forall|j: int| 0 <= j < part.len() ==> part[j] == s@[a + j]);
                    if forall|j: int| 0 <= j < part.len() ==> spec_is_digit(part[j]) {
                        lemma_digits_val_monotone(part, i as int - a + 1, part.len() as int);
                        assert(part.subrange(0, part.len() as int) =~= part);
                        assert(digits_val(part) > u64::MAX);
                    }
                }
                return None;
            },
        }
        i += 1;
    }
    proof {
        assert(part.subrange(0, b as int - a) =~= part);
        assert(forall|j: int| 0 <= j < part.len() ==> part[j] == s@[a + j]);
    }
    Some(acc)
}

/// Parse `s@.subrange(a, b)` as a three-part numeric version.
pub open spec fn parse_triple(t: Seq<char>) -> Option<SemVer> {
    let i = first_ix(t, '.');
    if i >= t.len() {
        None
    } else {
        let rest = t.subrange(i + 1, t.len() as int);
        let j = first_ix(rest, '.');
        if j >= rest.len() {
            None
        } else {
            let p0 = t.subrange(0, i);
            let p1 = rest.subrange(0, j);
            let p2 = rest.subrange(j + 1, rest.len() as int);
            if wf_num(p0) && wf_num(p1) && wf_num(p2) && first_ix(p2, '.') == p2.len() {
                Some(
                    SemVer {
                        major: digits_val(p0) as u64,
                        minor: digits_val(p1) as u64,
                        patch: digits_val(p2) as u64,
                    },
                )
            } else {
                None
            }
        }
    }
}

/// Parse a whole string slice as a three-part numeric version.
#[verifier::rlimit(60)]
pub fn parse_version(s: &str) -> (r: Option<SemVer>)
    ensures
        r == parse_triple(s@),
{
    let len = s.unicode_len();
    let i = find_in(s, 0, len, '.');
    proof {
        assert(s@.subrange(0, len as int) =~= s@);
    }
    if i == len {
        return None;
    }
    let ghost rest = s@.subrange(i as int + 1, len as int);
    let j = find_in(s, i + 1, len, '.');
    proof {
        assert(rest =~= s@.subrange(i as int + 1, len as int));
    }
    if j == len {
        assert(first_ix(rest, '.') == rest.len());
        return None;
    }
    assert(first_ix(rest, '.') == j - (i + 1));
    let k = find_in(s, j + 1, len, '.');
    let ghost p0 = s@.subrange(0, i as int);
    let ghost p1 = rest.subrange(0, j as int - (i as int + 1));
    let ghost p2 = rest.subrange(j as int - i as int, rest.len() as int);
    proof {
        assert(p1 =~= s@.subrange(i as int + 1, j as int));
        assert(p2 =~= s@.subrange(j as int + 1, len as int));
        assert(p2.subrange(0, k as int - (j as int + 1)) =~= s@.subrange(j as int + 1, k as int));
    }
    if k < len {
        proof {
            assert(p2[k as int - (j as int + 1)] == '.');
            crate::text::lemma_first_ix_bounds(p2, '.');
        }
        return None;
    }
    proof {
        crate::text::lemma_first_ix_is(p2, '.', p2.len() as int);
    }
    let n0 = parse_num_range(s, 0, i);
    let n1 = parse_num_range(s, i + 1, j);
    let n2 = parse_num_range(s, j + 1, len);
    match (n0, n1, n2) {
        (Some(x), Some(y), Some(z)) => Some(SemVer { major: x, minor: y, patch: z }),
        _ => None,
    }
}

} // verus!
