//! Removing dependencies, in three phases: delete the named keys from every
//! target member, rescan the whole workspace for names still referenced,
//! and prune from the shared table only the names no member uses any more.
use vstd::prelude::*;

use crate::alist::{ghas_key, lemma_gkey_ix};
use crate::error::WorkError;
use crate::workspace::{
    clone_member, clone_strings, deps_view, find_dep, resolve_targets, shared_view, spec_targets,
    str_contains, DepEntry, DepSpec, DepVal, MemberDoc, WorkspaceDoc,
};

verus! {

/// A member's table with every entry named in `names` deleted.
pub open spec fn remove_keys(d: Seq<(Seq<char>, DepEntry)>, names: Seq<Seq<char>>) -> Seq<
    (Seq<char>, DepEntry),
>
    decreases d.len(),
{
    if d.len() == 0 {
        Seq::empty()
    } else {
        let p = remove_keys(d.drop_last(), names);
        if names.contains(d.last().0) {
            p
        } else {
            p.push(d.last())
        }
    }
}

/// What member `j`'s table looks like after the removal phase: edited if the
/// member is a target, untouched otherwise.
pub open spec fn post_member(
    docs: Seq<MemberDoc>,
    members: Seq<Seq<char>>,
    ts: Seq<Seq<char>>,
    names: Seq<Seq<char>>,
    j: int,
) -> Seq<(Seq<char>, DepEntry)> {
    if ts.contains(members[j]) {
        remove_keys(deps_view(docs[j].deps@), names)
    } else {
        deps_view(docs[j].deps@)
    }
}

/// Whether, after the removal phase, any workspace member still lists `name`.
pub open spec fn still_used(
    docs: Seq<MemberDoc>,
    members: Seq<Seq<char>>,
    ts: Seq<Seq<char>>,
    names: Seq<Seq<char>>,
    name: Seq<char>,
) -> bool {
    exists|j: int|
        0 <= j < members.len() && ghas_key(post_member(docs, members, ts, names, j), name)
}

/// The shared table with every removed name no member still uses pruned.
pub open spec fn sweep_shared(
    m: Seq<(Seq<char>, DepVal)>,
    docs: Seq<MemberDoc>,
    members: Seq<Seq<char>>,
    ts: Seq<Seq<char>>,
    names: Seq<Seq<char>>,
) -> Seq<(Seq<char>, DepVal)>
    decreases m.len(),
{
    if m.len() == 0 {
        Seq::empty()
    } else {
        let p = sweep_shared(m.drop_last(), docs, members, ts, names);
        if names.contains(m.last().0) && !still_used(docs, members, ts, names, m.last().0) {
            p
        } else {
            p.push(m.last())
        }
    }
}

/// Delete the named keys from one member's table.
pub fn remove_deps(doc: &MemberDoc, deps: &Vec<String>) -> (r: MemberDoc)
    ensures
        deps_view(r.deps@) == remove_keys(deps_view(doc.deps@), deps.deep_view()),
{
    let mut out: Vec<(String, DepEntry)> = Vec::new();
    let mut i: usize = 0;
    proof {
        assert(deps_view(doc.deps@).subrange(0, 0) =~= Seq::<(Seq<char>, DepEntry)>::empty());
        assert(remove_keys(deps_view(doc.deps@).subrange(0, 0), deps.deep_view()) =~= out@.map(
            |k: int, p: (String, DepEntry)| (p.0@, p.1),
        ));
    }
    while i < doc.deps.len()
        invariant
            0 <= i <= doc.deps@.len(),
            deps_view(out@) == remove_keys(
                deps_view(doc.deps@).subrange(0, i as int),
                deps.deep_view(),
            ),
        decreases doc.deps@.len() - i,
    {
        let ghost pre1 = deps_view(doc.deps@).subrange(0, i as int + 1);
        proof {
            assert(pre1.drop_last() =~= deps_view(doc.deps@).subrange(0, i as int));
            assert(pre1.last() == deps_view(doc.deps@)[i as int]);
        }
        let name = doc.deps[i].0.clone();
        let entry = doc.deps[i].1;
        let ghost preout = out@;
        if str_contains(deps, name.as_str()) {
            proof {
                assert(deps.deep_view().contains(pre1.last().0));
            }
        } else {
            proof {
                assert(!deps.deep_view().contains(pre1.last().0));
            }
            out.push((name, entry));
            proof {
                assert(deps_view(out@) =~~= deps_view(preout).push(
                    deps_view(doc.deps@)[i as int],
                ));
            }
        }
        i += 1;
    }
    proof {
        assert(deps_view(doc.deps@).subrange(0, doc.deps@.len() as int) =~= deps_view(doc.deps@));
    }
    MemberDoc { deps: out }
}

/// The outcome of a removal: the edited target documents and the pruned
/// root document.
pub struct RemoveOutcome {
    pub root: WorkspaceDoc,
    pub target_docs: Vec<MemberDoc>,
}

/// Remove the named dependencies from every target member, then prune from
/// the shared table the names no workspace member references any more.
/// `member_docs` are the documents of the declared members, in member-list
/// order; `target_docs` those of the targets the selector denotes.
#[verifier::loop_isolation(false)]
#[verifier::rlimit(100)]
pub fn handle(
    deps: &Vec<String>,
    from: &str,
    root: &WorkspaceDoc,
    member_docs: &Vec<MemberDoc>,
    target_docs: &Vec<MemberDoc>,
) -> (r: Result<RemoveOutcome, WorkError>)
    requires
        member_docs@.len() == root.members@.len(),
        spec_targets(from@, root.members.deep_view()) matches Some(ts) ==> target_docs@.len()
            == ts.len(),
    ensures
        match spec_targets(from@, root.members.deep_view()) {
            None => r matches Err(e) && (e matches WorkError::InvalidSelector { selector }
                && selector@ == from@),
            Some(ts) => r matches Ok(out) && {
                let names = deps.deep_view();
                let members = root.members.deep_view();
                &&& out.target_docs@.len() == target_docs@.len()
                &&& forall|t: int|
                    0 <= t < target_docs@.len() ==> deps_view(out.target_docs@[t].deps@)
                        == remove_keys(deps_view(target_docs@[t].deps@), names)
                &&& out.root.members@ == root.members@
                &&& shared_view(out.root.shared@) == sweep_shared(
                    shared_view(root.shared@),
                    member_docs@,
                    members,
                    ts,
                    names,
                )
            },
        },
{
    let targets = match resolve_targets(from, &root.members) {
        Ok(t) => t,
        Err(e) => {
            return Err(e);
        },
    };
    let ghost ts = targets.deep_view();
    let ghost names = deps.deep_view();
    let ghost members = root.members.deep_view();
    // phase one: edit the target documents
    let mut new_targets: Vec<MemberDoc> = Vec::new();
    let mut t: usize = 0;
    while t < target_docs.len()
        invariant
            0 <= t <= target_docs@.len(),
            new_targets@.len() == t,
            forall|j: int|
                0 <= j < t ==> deps_view(new_targets@[j].deps@) == remove_keys(
                    deps_view(target_docs@[j].deps@),
                    names,
                ),
        decreases target_docs@.len() - t,
    {
        new_targets.push(remove_deps(&target_docs[t], deps));
        t += 1;
    }
    // phase two and three: rescan every member and prune the shared table
    let mut post_docs: Vec<MemberDoc> = Vec::new();
    let mut j: usize = 0;
    while j < member_docs.len()
        invariant
            0 <= j <= member_docs@.len(),
            member_docs@.len() == members.len(),
            post_docs@.len() == j,
            forall|i: int|
                0 <= i < j ==> deps_view(post_docs@[i].deps@) == post_member(
                    member_docs@,
                    members,
                    ts,
                    names,
                    i,
                ),
        decreases member_docs@.len() - j,
    {
        if str_contains(&targets, root.members[j].as_str()) {
            post_docs.push(remove_deps(&member_docs[j], deps));
        } else {
            post_docs.push(clone_member(&member_docs[j]));
        }
        j += 1;
    }
    let mut shared: Vec<(String, DepSpec)> = Vec::new();
    let mut i: usize = 0;
    proof {
        assert(shared_view(root.shared@).subrange(0, 0) =~= Seq::<(Seq<char>, DepVal)>::empty());
        assert(shared_view(shared@) =~= Seq::<(Seq<char>, DepVal)>::empty());
    }
    while i < root.shared.len()
        invariant
            0 <= i <= root.shared@.len(),
            shared_view(shared@) == sweep_shared(
                shared_view(root.shared@).subrange(0, i as int),
                member_docs@,
                members,
                ts,
                names,
            ),
        decreases root.shared@.len() - i,
    {
        let ghost pre1 = shared_view(root.shared@).subrange(0, i as int + 1);
        proof {
            assert(pre1.drop_last() =~= shared_view(root.shared@).subrange(0, i as int));
            assert(pre1.last() == shared_view(root.shared@)[i as int]);
        }
        let name = root.shared[i].0.clone();
        let doomed = if str_contains(deps, name.as_str()) {
            let mut used = false;
            let mut m: usize = 0;
            while m < post_docs.len()
                invariant
                    0 <= m <= post_docs@.len(),
                    post_docs@.len() == members.len(),
                    forall|x: int|
                        0 <= x < post_docs@.len() ==> deps_view(post_docs@[x].deps@)
                            == post_member(member_docs@, members, ts, names, x),
                    used == exists|x: int|
                        0 <= x < m && ghas_key(
                            post_member(member_docs@, members, ts, names, x),
                            name@,
                        ),
                decreases post_docs@.len() - m,
            {
                let ix = find_dep(&post_docs[m].deps, name.as_str());
                if ix < post_docs[m].deps.len() {
                    proof {
                        lemma_gkey_ix(deps_view(post_docs@[m as int].deps@), name@);
                        assert(ghas_key(post_member(member_docs@, members, ts, names, m as int),
                        name@));
                    }
                    used = true;
                }
                m += 1;
            }
            !used
        } else {
            false
        };
        let ghost preout = shared@;
        if doomed {
            proof {
                assert(names.contains(pre1.last().0) && !still_used(
                    member_docs@,
                    members,
                    ts,
                    names,
                    pre1.last().0,
                ));
            }
        } else {
            let version = root.shared[i].1.version.clone();
            let features = clone_strings(&root.shared[i].1.features);
            shared.push((name, DepSpec { version, features }));
            proof {
                assert(!(names.contains(pre1.last().0) && !still_used(
                    member_docs@,
                    members,
                    ts,
                    names,
                    pre1.last().0,
                )));
                assert(shared_view(shared@) =~~= shared_view(preout).push(
                    shared_view(root.shared@)[i as int],
                ));
            }
        }
        i += 1;
    }
    proof {
        assert(shared_view(root.shared@).subrange(0, root.shared@.len() as int) =~= shared_view(
            root.shared@,
        ));
    }
    let members_out = clone_strings(&root.members);
    Ok(
        RemoveOutcome {
            root: WorkspaceDoc { members: members_out, shared },
            target_docs: new_targets,
        },
    )
}

} // verus!
