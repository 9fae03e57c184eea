//! Re-synchronizing members with the shared table: every member entry whose
//! name the shared table also holds is forced back to an indirect
//! reference.  Sync repairs drift; it never inserts a key a member does not
//! already have.
use vstd::prelude::*;

use crate::alist::ghas_key;
use crate::error::WorkError;
use crate::workspace::{
    deps_view, find_shared, resolve_targets, shared_view, spec_targets, DepEntry, MemberDoc,
    WorkspaceDoc,
};

verus! {

/// A member's table after a sync: the same names in the same order, with
/// the entries whose name the shared table holds turned indirect and every
/// other entry untouched.
pub open spec fn sync_entries(
    d: Seq<(Seq<char>, DepEntry)>,
    shared: Seq<(Seq<char>, crate::workspace::DepVal)>,
) -> Seq<(Seq<char>, DepEntry)> {
    Seq::new(
        d.len(),
        |i: int|
            (
                d[i].0,
                if ghas_key(shared, d[i].0) {
                    DepEntry::Indirect
                } else {
                    d[i].1
                },
            ),
    )
}

/// Force every target member's entry for a shared name to an indirect
/// reference.
#[verifier::loop_isolation(false)]
pub fn handle(to: &str, root: &WorkspaceDoc, target_docs: &Vec<MemberDoc>) -> (r: Result<
    Vec<MemberDoc>,
    WorkError,
>)
    requires
        spec_targets(to@, root.members.deep_view()) matches Some(ts) ==> target_docs@.len()
            == ts.len(),
    ensures
        match spec_targets(to@, root.members.deep_view()) {
            None => r matches Err(e) && (e matches WorkError::InvalidSelector { selector }
                && selector@ == to@),
            Some(ts) => r matches Ok(v) && v@.len() == target_docs@.len() && forall|t: int|
                0 <= t < target_docs@.len() ==> deps_view(v@[t].deps@) == sync_entries(
                    deps_view(target_docs@[t].deps@),
                    shared_view(root.shared@),
                ),
        },
{
    let targets = match resolve_targets(to, &root.members) {
        Ok(t) => t,
        Err(e) => {
            return Err(e);
        },
    };
    let mut out: Vec<MemberDoc> = Vec::new();
    let mut t: usize = 0;
    while t < target_docs.len()
        invariant
            0 <= t <= target_docs@.len(),
            out@.len() == t,
            forall|j: int|
                0 <= j < t ==> deps_view(out@[j].deps@) == sync_entries(
                    deps_view(target_docs@[j].deps@),
                    shared_view(root.shared@),
                ),
        decreases target_docs@.len() - t,
    {
        let doc = &target_docs[t];
        let mut deps: Vec<(String, DepEntry)> = Vec::new();
        let mut i: usize = 0;
        while i < doc.deps.len()
            invariant
                0 <= i <= doc.deps@.len(),
                deps@.len() == i,
                forall|j: int|
                    0 <= j < i ==> deps_view(deps@)[j] == sync_entries(
                        deps_view(doc.deps@),
                        shared_view(root.shared@),
                    )[j],
            decreases doc.deps@.len() - i,
        {
            let name = doc.deps[i].0.clone();
            let ix = find_shared(&root.shared, name.as_str());
            proof {
                crate::alist::lemma_gkey_ix(shared_view(root.shared@), name@);
            }
            let entry = if ix < root.shared.len() {
                DepEntry::Indirect
            } else {
                doc.deps[i].1
            };
            let ghost pre = deps@;
            deps.push((name, entry));
            proof {
                assert forall|j: int| 0 <= j < i + 1 implies deps_view(deps@)[j] == sync_entries(
                    deps_view(doc.deps@),
                    shared_view(root.shared@),
                )[j] by {
                    if j < i {
                        assert(deps@[j] == pre[j]);
                        assert(deps_view(pre)[j] == sync_entries(
                            deps_view(doc.deps@),
                            shared_view(root.shared@),
                        )[j]);
                    }
                }
            }
            i += 1;
        }
        proof {
            assert(deps_view(deps@) =~= sync_entries(
                deps_view(doc.deps@),
                shared_view(root.shared@),
            ));
        }
        out.push(MemberDoc { deps });
        t += 1;
    }
    Ok(out)
}

} // verus!
