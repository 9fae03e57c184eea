//! The in-memory model of the workspace's documents, and the target
//! selector.  The root document holds the ordered member list and the shared
//! dependency table; each member document holds its own dependency table,
//! where an entry is either managed directly by the member or an indirect
//! reference into the shared table.
use vstd::prelude::*;

use crate::error::WorkError;
use crate::text::{split_clean, split_clean_range, str_eq};

verus! {

/// A member-side dependency entry: either the member's own explicit
/// specification (not managed by this engine) or a marker meaning "use the
/// shared table's entry for this name".
#[derive(Debug, Clone, Copy, PartialEq, Eq, Structural)]
pub enum DepEntry {
    Direct,
    Indirect,
}

/// A shared-table entry: the resolved version and the requested features.
#[derive(Debug, Clone)]
pub struct DepSpec {
    pub version: String,
    pub features: Vec<String>,
}

/// One member project's document: its dependency table in file order.
#[derive(Debug, Clone)]
pub struct MemberDoc {
    pub deps: Vec<(String, DepEntry)>,
}

/// The root document: the declared member list and the shared dependency
/// table, both in file order.
#[derive(Debug, Clone)]
pub struct WorkspaceDoc {
    pub members: Vec<String>,
    pub shared: Vec<(String, DepSpec)>,
}

/// The abstract value of a shared-table entry.
#[verifier::ext_equal]
pub struct DepVal {
    pub version: Seq<char>,
    pub features: Seq<Seq<char>>,
}

/// The shared table as the contracts speak of it: names and entry values
/// as character sequences, in file order.
pub open spec fn shared_view(m: Seq<(String, DepSpec)>) -> Seq<(Seq<char>, DepVal)> {
    Seq::new(
        m.len(),
        |i: int|
            (
                m[i].0@,
                DepVal { version: m[i].1.version@, features: m[i].1.features.deep_view() },
            ),
    )
}

/// A member's dependency table as the contracts speak of it.
pub open spec fn deps_view(m: Seq<(String, DepEntry)>) -> Seq<(Seq<char>, DepEntry)> {
    Seq::new(m.len(), |i: int| (m[i].0@, m[i].1))
}

/// Position of `k` in a member's dependency table.
pub fn find_dep(m: &Vec<(String, DepEntry)>, k: &str) -> (r: usize)
    ensures
        r as int == crate::alist::gkey_ix(deps_view(m@), k@),
{
    let mut i: usize = 0;
    while i < m.len()
        invariant
            0 <= i <= m@.len(),
            forall|j: int| 0 <= j < i ==> deps_view(m@)[j].0 != k@,
        decreases m@.len() - i,
    {
        if str_eq(m[i].0.as_str(), k) {
            proof {
                crate::alist::lemma_gkey_ix_is(deps_view(m@), k@, i as int);
            }
            return i;
        }
        i += 1;
    }
    proof {
        crate::alist::lemma_gkey_ix_is(deps_view(m@), k@, deps_view(m@).len() as int);
    }
    i
}

/// Position of `k` in the shared table.
pub fn find_shared(m: &Vec<(String, DepSpec)>, k: &str) -> (r: usize)
    ensures
        r as int == crate::alist::gkey_ix(shared_view(m@), k@),
{
    let mut i: usize = 0;
    while i < m.len()
        invariant
            0 <= i <= m@.len(),
            forall|j: int| 0 <= j < i ==> shared_view(m@)[j].0 != k@,
        decreases m@.len() - i,
    {
        if str_eq(m[i].0.as_str(), k) {
            proof {
                crate::alist::lemma_gkey_ix_is(shared_view(m@), k@, i as int);
            }
            return i;
        }
        i += 1;
    }
    proof {
        crate::alist::lemma_gkey_ix_is(shared_view(m@), k@, shared_view(m@).len() as int);
    }
    i
}

/// Copy a member document, keeping its table.
pub fn clone_member(doc: &MemberDoc) -> (r: MemberDoc)
    ensures
        deps_view(r.deps@) == deps_view(doc.deps@),
{
    let mut deps: Vec<(String, DepEntry)> = Vec::new();
    let mut i: usize = 0;
    while i < doc.deps.len()
        invariant
            0 <= i <= doc.deps@.len(),
            deps@.len() == i,
            forall|j: int| 0 <= j < i ==> deps_view(deps@)[j] == deps_view(doc.deps@)[j],
        decreases doc.deps@.len() - i,
    {
        let name = doc.deps[i].0.clone();
        let entry = doc.deps[i].1;
        proof {
            assert(name == doc.deps@[i as int].0);
        }
        let ghost pre = deps@;
        deps.push((name, entry));
        proof {
            assert(deps@[i as int] == (doc.deps@[i as int].0, doc.deps@[i as int].1));
            assert forall|j: int| 0 <= j < i + 1 implies deps_view(deps@)[j] == deps_view(
                doc.deps@,
            )[j] by {
                if j < i {
                    assert(deps@[j] == pre[j]);
                    assert(deps_view(pre)[j] == deps_view(doc.deps@)[j]);
                }
            }
        }
        i += 1;
    }
    proof {
        assert(deps_view(deps@) =~= deps_view(doc.deps@));
    }
    MemberDoc { deps }
}

/// The members a selector denotes: `all` is the whole declared member list;
/// anything else is split on commas, trimmed, and cleared of empty
/// segments, and is invalid if nothing remains or if `all` is mixed with
/// explicit names.
pub open spec fn spec_targets(sel: Seq<char>, members: Seq<Seq<char>>) -> Option<Seq<Seq<char>>> {
    if sel == "all"@ {
        Some(members)
    } else {
        let ts = split_clean(sel, ',');
        if ts.len() == 0 || ts.contains("all"@) {
            None
        } else {
            Some(ts)
        }
    }
}

/// Whether some string of `v` reads `k`.
pub fn str_contains(v: &Vec<String>, k: &str) -> (r: bool)
    ensures
        r == v.deep_view().contains(k@),
{
    let mut i: usize = 0;
    while i < v.len()
        invariant
            0 <= i <= v@.len(),
            forall|j: int| 0 <= j < i ==> v.deep_view()[j] != k@,
        decreases v@.len() - i,
    {
        if str_eq(v[i].as_str(), k) {
            assert(v.deep_view()[i as int] == k@);
            return true;
        }
        i += 1;
    }
    assert(forall|j: int| 0 <= j < v.deep_view().len() ==> v.deep_view()[j] != k@);
    false
}

/// Clone a vector of strings, keeping its contents.
pub fn clone_strings(v: &Vec<String>) -> (r: Vec<String>)
    ensures
        r@ == v@,
{
    let r = v.clone();
    proof {
        assert forall|i: int| 0 <= i < v@.len() implies r@[i] == v@[i] by {
            assert(cloned(v@[i], r@[i]));
        }
        assert(r@ =~= v@);
    }
    r
}

/// Expand a target selector into concrete member names.
pub fn resolve_targets(input: &str, members: &Vec<String>) -> (r: Result<
    Vec<String>,
    WorkError,
>)
    ensures
        match spec_targets(input@, members.deep_view()) {
            Some(ts) => r matches Ok(v) && v.deep_view() == ts,
            None => r matches Err(e) && (e matches WorkError::InvalidSelector { selector }
                && selector@ == input@),
        },
{
    if str_eq(input, "all") {
        let r = clone_strings(members);
        proof {
            assert(r.deep_view() =~= members.deep_view());
        }
        return Ok(r);
    }
    let len = input.unicode_len();
    let ts = split_clean_range(input, 0, len, ',');
    proof {
        assert(input@.subrange(0, input@.len() as int) =~= input@);
    }
    if ts.len() == 0 {
        return Err(WorkError::InvalidSelector { selector: input.to_owned() });
    }
    let mut i: usize = 0;
    while i < ts.len()
        invariant
            0 <= i <= ts@.len(),
            input@ != "all"@,
            ts.deep_view() == split_clean(input@, ','),
            forall|j: int| 0 <= j < i ==> ts.deep_view()[j] != "all"@,
        decreases ts@.len() - i,
    {
        if str_eq(ts[i].as_str(), "all") {
            proof {
                assert(ts.deep_view()[i as int] == "all"@);
                assert(split_clean(input@, ',').contains("all"@));
            }
            return Err(WorkError::InvalidSelector { selector: input.to_owned() });
        }
        i += 1;
    }
    proof {
        assert forall|j: int| 0 <= j < ts.deep_view().len() implies ts.deep_view()[j] != "all"@
            by {}
        assert(!split_clean(input@, ',').contains("all"@));
    }
    Ok(ts)
}

} // verus!
