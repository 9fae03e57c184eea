//! Listing the shared table: each shared dependency with its version, its
//! features, and the members whose own table holds an indirect reference to
//! it.  A member whose document could not be read is skipped.
use vstd::prelude::*;

use crate::alist::{ghas_key, gkey_val, lemma_gkey_ix};
use crate::error::WorkError;
use crate::workspace::{
    clone_strings, deps_view, find_dep, shared_view, DepEntry, MemberDoc, WorkspaceDoc,
};

verus! {

/// One line of the listing.
pub struct ListEntry {
    pub name: String,
    pub version: String,
    pub features: Vec<String>,
    pub used_by: Vec<String>,
}

/// Whether member `j`'s document holds an indirect reference to `name`.
pub open spec fn member_uses(docs: Seq<Option<MemberDoc>>, j: int, name: Seq<char>) -> bool {
    match docs[j] {
        Some(d) => ghas_key(deps_view(d.deps@), name) && gkey_val(deps_view(d.deps@), name)
            == DepEntry::Indirect,
        None => false,
    }
}

/// The members below `k` whose document holds an indirect reference to
/// `name`, in member-list order.
pub open spec fn users_upto(
    members: Seq<String>,
    docs: Seq<Option<MemberDoc>>,
    name: Seq<char>,
    k: int,
) -> Seq<Seq<char>>
    decreases k,
{
    if k <= 0 {
        Seq::empty()
    } else {
        let p = users_upto(members, docs, name, k - 1);
        if member_uses(docs, k - 1, name) {
            p.push(members[k - 1]@)
        } else {
            p
        }
    }
}

/// What one reported line must hold, for shared entry `i`.
pub open spec fn entry_ok(
    e: ListEntry,
    root: WorkspaceDoc,
    docs: Seq<Option<MemberDoc>>,
    i: int,
) -> bool {
    let sv = shared_view(root.shared@)[i];
    &&& e.name@ == sv.0
    &&& e.version@ == sv.1.version
    &&& e.features.deep_view() == sv.1.features
    &&& e.used_by.deep_view() == users_upto(root.members@, docs, sv.0, root.members@.len() as int)
}

/// Report every shared dependency with its version, features, and the
/// members that reference it indirectly.  `member_docs` are the documents
/// of the declared members in order; `None` marks one that could not be
/// read.
#[verifier::loop_isolation(false)]
pub fn handle(root: &WorkspaceDoc, member_docs: &Vec<Option<MemberDoc>>) -> (r: Vec<ListEntry>)
    requires
        member_docs@.len() == root.members@.len(),
    ensures
        r@.len() == root.shared@.len(),
        forall|i: int| 0 <= i < r@.len() ==> entry_ok(r@[i], *root, member_docs@, i),
{
    let mut out: Vec<ListEntry> = Vec::new();
    let mut i: usize = 0;
    while i < root.shared.len()
        invariant
            0 <= i <= root.shared@.len(),
            out@.len() == i,
            forall|x: int| 0 <= x < i ==> entry_ok(out@[x], *root, member_docs@, x),
        decreases root.shared@.len() - i,
    {
        let name = root.shared[i].0.clone();
        let version = root.shared[i].1.version.clone();
        let features = clone_strings(&root.shared[i].1.features);
        let mut used_by: Vec<String> = Vec::new();
        let mut j: usize = 0;
        proof {
            assert(used_by.deep_view() =~= users_upto(root.members@, member_docs@, name@, 0));
        }
        while j < member_docs.len()
            invariant
                0 <= j <= member_docs@.len(),
                used_by.deep_view() == users_upto(root.members@, member_docs@, name@, j as int),
            decreases member_docs@.len() - j,
        {
            let ghost pre = used_by.deep_view();
            match &member_docs[j] {
                Some(d) => {
                    let ix = find_dep(&d.deps, name.as_str());
                    proof {
                        lemma_gkey_ix(deps_view(d.deps@), name@);
                    }
                    if ix < d.deps.len() {
                        let indirect = match d.deps[ix].1 {
                            DepEntry::Indirect => true,
                            DepEntry::Direct => false,
                        };
                        if indirect {
                            used_by.push(root.members[j].clone());
                            proof {
                                assert(member_uses(member_docs@, j as int, name@));
                                assert(used_by.deep_view() =~= pre.push(root.members@[j as int]@));
                            }
                        } else {
                            proof {
                                assert(!member_uses(member_docs@, j as int, name@));
                            }
                        }
                    } else {
                        proof {
                            assert(!member_uses(member_docs@, j as int, name@));
                        }
                    }
                },
                None => {
                    proof {
                        assert(!member_uses(member_docs@, j as int, name@));
                    }
                },
            }
            j += 1;
        }
        let ghost sv = shared_view(root.shared@)[i as int];
        proof {
            assert(name@ == sv.0);
        }
        out.push(ListEntry { name, version, features, used_by });
        i += 1;
    }
    out
}

} // verus!
