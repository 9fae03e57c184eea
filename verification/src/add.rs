//! Adding dependencies: the inline bracket grammar for per-dependency
//! feature requests, and the document mutations that record a resolved
//! dependency in the shared table and as indirect references in the target
//! members.
use vstd::prelude::*;

use crate::alist::{ghas_key, gkey_ix, gkey_val, lemma_gkey_ix, lemma_gkey_ix_is};
use crate::error::{FeatFault, WorkError};
use crate::text::{
    find_in, first_ix, is_space_char, join_space, join_with_space, spec_is_space, split_clean,
    split_clean_range, str_eq, trim, trim_range,
};
use crate::registry::ResolvedCrate;
use crate::version::{base_of, parse_dep_spec};
use crate::workspace::{deps_view, shared_view, spec_targets, DepEntry, DepSpec, DepVal, MemberDoc, WorkspaceDoc};

verus! {

/// The accumulated feature requests: base name to feature list, in
/// encounter order.
pub type FeatMap = Seq<(Seq<char>, Seq<Seq<char>>)>;

/// Whether `base` names one of the requested dependencies, compared by the
/// portion before any `@`.
pub open spec fn dep_known(deps: Seq<Seq<char>>, base: Seq<char>) -> bool {
    exists|i: int| 0 <= i < deps.len() && base_of(deps[i]) == base
}

/// Record one bracket's features: append to an existing entry for the same
/// base name, or add a new entry at the end.
pub open spec fn fmap_add(m: FeatMap, base: Seq<char>, feats: Seq<Seq<char>>) -> FeatMap {
    let ix = gkey_ix(m, base);
    if ix < m.len() {
        m.update(ix, (base, m[ix].1 + feats))
    } else {
        m.push((base, feats))
    }
}

/// The bracket grammar, applied to the remaining input: skip whitespace,
/// read a name up to `[`, require it to be a known dependency, read the
/// bracket body up to `]` (or the end), and require at least one feature.
/// `Err` carries the fault and the name it was found at.
pub open spec fn parse_feats(s: Seq<char>, deps: Seq<Seq<char>>, acc: FeatMap) -> Result<
    FeatMap,
    (FeatFault, Seq<char>),
>
    decreases s.len(),
{
    if s.len() == 0 {
        Ok(acc)
    } else if spec_is_space(s[0]) {
        parse_feats(s.drop_first(), deps, acc)
    } else {
        let i = first_ix(s, '[');
        let lib = trim(s.subrange(0, i));
        if lib.len() == 0 {
            Err((FeatFault::EmptyName, lib))
        } else {
            let base = base_of(lib);
            if !dep_known(deps, base) {
                Err((FeatFault::UnknownDep, base))
            } else if !(0 <= i < s.len()) {
                Err((FeatFault::MissingBracket, base))
            } else {
                let rest0 = s.subrange(i + 1, s.len() as int);
                let j = first_ix(rest0, ']');
                let body = rest0.subrange(0, j);
                let feats = split_clean(body, ',');
                if feats.len() == 0 {
                    Err((FeatFault::NoFeatures, base))
                } else {
                    let acc2 = fmap_add(acc, base, feats);
                    if 0 <= j < rest0.len() {
                        parse_feats(rest0.subrange(j + 1, rest0.len() as int), deps, acc2)
                    } else {
                        Ok(acc2)
                    }
                }
            }
        }
    }
}

/// The whole grammar applied to the tokens joined with single spaces.
pub open spec fn spec_feature_map(raw: Seq<Seq<char>>, deps: Seq<Seq<char>>) -> Result<
    FeatMap,
    (FeatFault, Seq<char>),
> {
    parse_feats(join_space(raw), deps, Seq::empty())
}

fn dep_known_exec(deps: &Vec<String>, base: &str) -> (r: bool)
    ensures
        r == dep_known(deps.deep_view(), base@),
{
    let mut k: usize = 0;
    while k < deps.len()
        invariant
            0 <= k <= deps@.len(),
            forall|j: int| 0 <= j < k ==> base_of(deps.deep_view()[j]) != base@,
        decreases deps@.len() - k,
    {
        let (db, _) = parse_dep_spec(deps[k].as_str());
        if str_eq(db.as_str(), base) {
            assert(base_of(deps.deep_view()[k as int]) == base@);
            return true;
        }
        k += 1;
    }
    assert(forall|j: int| 0 <= j < deps.deep_view().len() ==> base_of(deps.deep_view()[j])
        != base@);
    false
}

fn find_feat_key(map: &Vec<(String, Vec<String>)>, k: &str) -> (r: usize)
    ensures
        r as int == gkey_ix(map.deep_view(), k@),
{
    let mut i: usize = 0;
    while i < map.len()
        invariant
            0 <= i <= map@.len(),
            forall|j: int| 0 <= j < i ==> map.deep_view()[j].0 != k@,
        decreases map@.len() - i,
    {
        if str_eq(map[i].0.as_str(), k) {
            proof {
                assert(map.deep_view()[i as int].0 == k@);
                lemma_gkey_ix_is(map.deep_view(), k@, i as int);
            }
            return i;
        }
        i += 1;
    }
    proof {
        lemma_gkey_ix_is(map.deep_view(), k@, map.deep_view().len() as int);
    }
    i
}

/// Parse the inline feature tokens against the requested dependency names.
/// Entries for the same base name accumulate in encounter order.
#[verifier::loop_isolation(false)]
#[verifier::rlimit(100)]
pub fn parse_features_bracket(raw: &Vec<String>, deps: &Vec<String>) -> (r: Result<
    Vec<(String, Vec<String>)>,
    WorkError,
>)
    ensures
        ({
            let model = spec_feature_map(raw.deep_view(), deps.deep_view());
            match r {
                Ok(m) => model == Ok::<FeatMap, (FeatFault, Seq<char>)>(m.deep_view()),
                Err(e) => model matches Err(f) && e matches WorkError::InvalidFeatureSpec {
                    fault,
                    name,
                } && fault == f.0 && name@ == f.1,
            }
        }),
{
    let input = join_with_space(raw);
    let s = input.as_str();
    let len = s.unicode_len();
    let ghost full = s@;
    let ghost depsv = deps.deep_view();
    let mut map: Vec<(String, Vec<String>)> = Vec::new();
    let mut pos: usize = 0;
    let mut done = false;
    proof {
        assert(full.subrange(0, len as int) =~= full);
        assert(map.deep_view() =~= Seq::<(Seq<char>, Seq<Seq<char>>)>::empty());
    }
    while !done
        invariant
            0 <= pos <= len,
            len == full.len(),
            full == s@,
            done ==> parse_feats(full, depsv, Seq::empty()) == Ok::<FeatMap, (FeatFault, Seq<
                char,
            >)>(map.deep_view()),
            !done ==> parse_feats(full, depsv, Seq::empty()) == parse_feats(
                full.subrange(pos as int, len as int),
                depsv,
                map.deep_view(),
            ),
        decreases len - pos + (if done { 0int } else { 1int }),
    {
        let ghost pos0 = pos;
        // skip the whitespace between entries
        while pos < len && is_space_char(s.get_char(pos))
            invariant
                pos0 <= pos <= len,
                parse_feats(full, depsv, Seq::empty()) == parse_feats(
                    full.subrange(pos as int, len as int),
                    depsv,
                    map.deep_view(),
                ),
            decreases len - pos,
        {
            proof {
                assert(full.subrange(pos as int, len as int).drop_first() =~= full.subrange(
                    pos as int + 1,
                    len as int,
                ));
            }
            pos += 1;
        }
        if pos == len {
            proof {
                assert(full.subrange(len as int, len as int).len() == 0);
            }
            done = true;
        } else {
            let ghost suff = full.subrange(pos as int, len as int);
            assert(!spec_is_space(suff[0]));
            let i = find_in(s, pos, len, '[');
            proof {
                assert(suff.subrange(0, i as int - pos) =~= full.subrange(pos as int, i as int));
                assert(first_ix(suff, '[') == i as int - pos);
            }
            let lib = trim_range(s, pos, i);
            if lib.unicode_len() == 0 {
                return Err(
                    WorkError::InvalidFeatureSpec { fault: FeatFault::EmptyName, name: lib },
                );
            }
            let (base, _) = parse_dep_spec(lib.as_str());
            if !dep_known_exec(deps, base.as_str()) {
                return Err(
                    WorkError::InvalidFeatureSpec { fault: FeatFault::UnknownDep, name: base },
                );
            }
            if i == len {
                return Err(
                    WorkError::InvalidFeatureSpec { fault: FeatFault::MissingBracket, name: base },
                );
            }
            let ghost rest0 = full.subrange(i as int + 1, len as int);
            let j = find_in(s, i + 1, len, ']');
            proof {
                assert(suff.subrange(i as int - pos + 1, suff.len() as int) =~= rest0);
                assert(rest0.subrange(0, j as int - (i as int + 1)) =~= full.subrange(
                    i as int + 1,
                    j as int,
                ));
                assert(first_ix(rest0, ']') == j as int - (i as int + 1));
            }
            let feats = split_clean_range(s, i + 1, j, ',');
            if feats.len() == 0 {
                return Err(
                    WorkError::InvalidFeatureSpec { fault: FeatFault::NoFeatures, name: base },
                );
            }
            let ghost acc0 = map.deep_view();
            let ghost featsd = feats.deep_view();
            let ix = find_feat_key(&map, base.as_str());
            proof {
                lemma_gkey_ix(acc0, base@);
            }
            if ix < map.len() {
                let pair = map.remove(ix);
                let ghost oldfl = pair.1.deep_view();
                let name0 = pair.0;
                let mut fl = pair.1;
                let mut tail = feats;
                fl.append(&mut tail);
                proof {
                    assert(fl.deep_view() =~~= oldfl + featsd);
                }
                map.insert(ix, (name0, fl));
                proof {
                    assert(map.deep_view() =~~= fmap_add(acc0, base@, featsd));
                }
            } else {
                map.push((base, feats));
                proof {
                    assert(map.deep_view() =~~= fmap_add(acc0, base@, featsd));
                }
            }
            if j == len {
                done = true;
                proof {
                    assert(!(0 <= first_ix(rest0, ']') < rest0.len()));
                }
            } else {
                proof {
                    assert(rest0.subrange(
                        j as int - (i as int + 1) + 1,
                        rest0.len() as int,
                    ) =~= full.subrange(j as int + 1, len as int));
                }
                pos = j + 1;
            }
        }
    }
    Ok(map)
}

/// The value a resolved dependency writes into the shared table.
pub open spec fn rc_val(rc: ResolvedCrate) -> DepVal {
    DepVal { version: rc.version@, features: rc.features.deep_view() }
}

/// The names of the resolved dependencies, in resolution order.
pub open spec fn rc_names(rcs: Seq<ResolvedCrate>) -> Seq<Seq<char>> {
    Seq::new(rcs.len(), |i: int| rcs[i].name@)
}

/// Write `name -> v` into the shared table: overwrite in place if the name
/// is present, else append.
pub open spec fn upsert_one(m: Seq<(Seq<char>, DepVal)>, name: Seq<char>, v: DepVal) -> Seq<
    (Seq<char>, DepVal),
> {
    let ix = gkey_ix(m, name);
    if ix < m.len() {
        m.update(ix, (name, v))
    } else {
        m.push((name, v))
    }
}

/// Write every resolved dependency into the shared table, in order; a later
/// entry for the same name overwrites an earlier one.
pub open spec fn upsert_all(m: Seq<(Seq<char>, DepVal)>, rcs: Seq<ResolvedCrate>) -> Seq<
    (Seq<char>, DepVal),
>
    decreases rcs.len(),
{
    if rcs.len() == 0 {
        m
    } else {
        upsert_one(upsert_all(m, rcs.drop_last()), rcs.last().name@, rc_val(rcs.last()))
    }
}

/// Add an indirect reference for each name not already present; existing
/// entries, direct or indirect, are left untouched.
pub open spec fn add_indirect(d: Seq<(Seq<char>, DepEntry)>, names: Seq<Seq<char>>) -> Seq<
    (Seq<char>, DepEntry),
>
    decreases names.len(),
{
    if names.len() == 0 {
        d
    } else {
        let p = add_indirect(d, names.drop_last());
        if ghas_key(p, names.last()) {
            p
        } else {
            p.push((names.last(), DepEntry::Indirect))
        }
    }
}

/// Record the resolved dependencies in the shared table, overwriting any
/// entry of the same name in place.
pub fn update_workspace_dependencies(root: &WorkspaceDoc, resolved: &Vec<ResolvedCrate>) -> (r:
    WorkspaceDoc)
    ensures
        r.members@ == root.members@,
        shared_view(r.shared@) == upsert_all(shared_view(root.shared@), resolved@),
{
    let members = crate::workspace::clone_strings(&root.members);
    let mut shared: Vec<(String, DepSpec)> = Vec::new();
    let mut i: usize = 0;
    while i < root.shared.len()
        invariant
            0 <= i <= root.shared@.len(),
            shared@.len() == i,
            forall|j: int| 0 <= j < i ==> shared_view(shared@)[j] == shared_view(root.shared@)[j],
        decreases root.shared@.len() - i,
    {
        let name = root.shared[i].0.clone();
        let version = root.shared[i].1.version.clone();
        let features = crate::workspace::clone_strings(&root.shared[i].1.features);
        let ghost pre = shared@;
        shared.push((name, DepSpec { version, features }));
        proof {
            assert forall|j: int| 0 <= j < i + 1 implies shared_view(shared@)[j] == shared_view(
                root.shared@,
            )[j] by {
                if j < i {
                    assert(shared@[j] == pre[j]);
                    assert(shared_view(pre)[j] == shared_view(root.shared@)[j]);
                } else {
                    assert(shared_view(shared@)[j] =~~= shared_view(root.shared@)[j]);
                }
            }
        }
        i += 1;
    }
    proof {
        assert(shared_view(shared@) =~~= shared_view(root.shared@));
    }
    let mut k: usize = 0;
    while k < resolved.len()
        invariant
            0 <= k <= resolved@.len(),
            shared_view(shared@) == upsert_all(
                shared_view(root.shared@),
                resolved@.subrange(0, k as int),
            ),
        decreases resolved@.len() - k,
    {
        let rc = &resolved[k];
        let ghost prefix1 = resolved@.subrange(0, k as int + 1);
        proof {
            assert(prefix1.drop_last() =~= resolved@.subrange(0, k as int));
            assert(prefix1.last() == resolved@[k as int]);
            crate::alist::lemma_gkey_ix(shared_view(shared@), rc.name@);
        }
        let ix = crate::workspace::find_shared(&shared, rc.name.as_str());
        let spec_new = DepSpec {
            version: rc.version.clone(),
            features: crate::workspace::clone_strings(&rc.features),
        };
        if ix < shared.len() {
            let pair = shared.remove(ix);
            shared.insert(ix, (pair.0, spec_new));
            proof {
                assert(shared_view(shared@) =~~= upsert_one(
                    upsert_all(shared_view(root.shared@), resolved@.subrange(0, k as int)),
                    rc.name@,
                    rc_val(*rc),
                ));
            }
        } else {
            shared.push((rc.name.clone(), spec_new));
            proof {
                assert(shared_view(shared@) =~~= upsert_one(
                    upsert_all(shared_view(root.shared@), resolved@.subrange(0, k as int)),
                    rc.name@,
                    rc_val(*rc),
                ));
            }
        }
        k += 1;
    }
    proof {
        assert(resolved@.subrange(0, resolved@.len() as int) =~= resolved@);
    }
    WorkspaceDoc { members, shared }
}

/// Give one member an indirect reference for each resolved name it does not
/// already list.
pub fn add_indirects(doc: &MemberDoc, resolved: &Vec<ResolvedCrate>) -> (r: MemberDoc)
    ensures
        deps_view(r.deps@) == add_indirect(deps_view(doc.deps@), rc_names(resolved@)),
{
    let mut out = crate::workspace::clone_member(doc);
    let mut k: usize = 0;
    proof {
        assert(rc_names(resolved@).subrange(0, 0) =~= rc_names(resolved@.subrange(0, 0)));
    }
    while k < resolved.len()
        invariant
            0 <= k <= resolved@.len(),
            deps_view(out.deps@) == add_indirect(
                deps_view(doc.deps@),
                rc_names(resolved@).subrange(0, k as int),
            ),
        decreases resolved@.len() - k,
    {
        let rc = &resolved[k];
        let ghost names1 = rc_names(resolved@).subrange(0, k as int + 1);
        proof {
            assert(names1.drop_last() =~= rc_names(resolved@).subrange(0, k as int));
            assert(names1.last() == rc.name@);
            crate::alist::lemma_gkey_ix(deps_view(out.deps@), rc.name@);
        }
        let ix = crate::workspace::find_dep(&out.deps, rc.name.as_str());
        if ix == out.deps.len() {
            out.deps.push((rc.name.clone(), DepEntry::Indirect));
            proof {
                assert(deps_view(out.deps@) =~~= add_indirect(deps_view(doc.deps@), names1));
            }
        } else {
            proof {
                assert(deps_view(out.deps@) =~~= add_indirect(deps_view(doc.deps@), names1));
            }
        }
        k += 1;
    }
    proof {
        assert(rc_names(resolved@).subrange(0, rc_names(resolved@).len() as int) =~= rc_names(
            resolved@,
        ));
    }
    out
}

/// Give every target member its indirect references.
pub fn update_target_crates(docs: &Vec<MemberDoc>, resolved: &Vec<ResolvedCrate>) -> (r: Vec<
    MemberDoc,
>)
    ensures
        r@.len() == docs@.len(),
        forall|t: int|
            0 <= t < docs@.len() ==> deps_view(r@[t].deps@) == add_indirect(
                deps_view(docs@[t].deps@),
                rc_names(resolved@),
            ),
{
    let mut out: Vec<MemberDoc> = Vec::new();
    let mut t: usize = 0;
    while t < docs.len()
        invariant
            0 <= t <= docs@.len(),
            out@.len() == t,
            forall|j: int|
                0 <= j < t ==> deps_view(out@[j].deps@) == add_indirect(
                    deps_view(docs@[j].deps@),
                    rc_names(resolved@),
                ),
        decreases docs@.len() - t,
    {
        out.push(add_indirects(&docs[t], resolved));
        t += 1;
    }
    out
}

/// The version constraint embedded in a dependency token after `@`, if any.
pub open spec fn req_vreq(dep: Seq<char>) -> Option<Seq<char>> {
    if first_ix(dep, '@') == dep.len() {
        None
    } else {
        Some(dep.subrange(first_ix(dep, '@') + 1, dep.len() as int))
    }
}

/// The features requested for a dependency token: its base name's entry in
/// the parsed feature map, or nothing.
pub open spec fn req_feats(fm: FeatMap, dep: Seq<char>) -> Seq<Seq<char>> {
    if ghas_key(fm, base_of(dep)) {
        gkey_val(fm, base_of(dep))
    } else {
        Seq::empty()
    }
}

/// The outcome of an add: the resolved dependencies, the updated root
/// document, and the updated target documents.
pub struct AddOutcome {
    pub root: WorkspaceDoc,
    pub target_docs: Vec<MemberDoc>,
    pub resolved: Vec<ResolvedCrate>,
}

/// Add the named dependencies: resolve the targets, parse the feature
/// requests, resolve each dependency against its registry metadata, record
/// each result in the shared table, and give each target member an indirect
/// reference for each name it does not already list.  `registry[k]` is the
/// registry's answer for the base name of `deps[k]`.
#[verifier::loop_isolation(false)]
#[verifier::rlimit(100)]
pub fn handle(
    deps: &Vec<String>,
    raw_features: &Vec<String>,
    to: &str,
    root: &WorkspaceDoc,
    target_docs: &Vec<MemberDoc>,
    registry: &Vec<crate::registry::CrateMetadata>,
) -> (r: Result<AddOutcome, WorkError>)
    requires
        registry@.len() == deps@.len(),
        spec_targets(to@, root.members.deep_view()) matches Some(ts) ==> target_docs@.len()
            == ts.len(),
    ensures
        match spec_targets(to@, root.members.deep_view()) {
            None => r matches Err(e) && (e matches WorkError::InvalidSelector { selector }
                && selector@ == to@),
            Some(ts) => match spec_feature_map(raw_features.deep_view(), deps.deep_view()) {
                Err(f) => r matches Err(e) && (e matches WorkError::InvalidFeatureSpec {
                    fault,
                    name,
                } && fault == f.0 && name@ == f.1),
                Ok(fm) => {
                    let dv = deps.deep_view();
                    &&& (r is Ok <==> forall|k: int|
                        0 <= k < dv.len() ==> crate::registry::resolution_ok(
                            req_vreq(dv[k]),
                            req_feats(fm, dv[k]),
                            registry@[k],
                        ))
                    &&& r matches Err(e) ==> exists|k: int|
                        0 <= k < dv.len() && !crate::registry::resolution_ok(
                            req_vreq(dv[k]),
                            req_feats(fm, dv[k]),
                            registry@[k],
                        ) && (forall|j: int|
                            0 <= j < k ==> crate::registry::resolution_ok(
                                req_vreq(dv[j]),
                                req_feats(fm, dv[j]),
                                registry@[j],
                            )) && crate::registry::resolution_err(
                            base_of(dv[k]),
                            req_vreq(dv[k]),
                            req_feats(fm, dv[k]),
                            registry@[k],
                            e,
                        )
                    &&& r matches Ok(out) ==> {
                        &&& out.resolved@.len() == dv.len()
                        &&& forall|k: int|
                            0 <= k < dv.len() ==> crate::registry::rc_matches(
                                base_of(dv[k]),
                                req_vreq(dv[k]),
                                req_feats(fm, dv[k]),
                                registry@[k],
                                out.resolved@[k],
                            )
                        &&& out.root.members@ == root.members@
                        &&& shared_view(out.root.shared@) == upsert_all(
                            shared_view(root.shared@),
                            out.resolved@,
                        )
                        &&& out.target_docs@.len() == target_docs@.len()
                        &&& forall|t: int|
                            0 <= t < target_docs@.len() ==> deps_view(out.target_docs@[t].deps@)
                                == add_indirect(
                                deps_view(target_docs@[t].deps@),
                                rc_names(out.resolved@),
                            )
                    }
                },
            },
        },
{
    if let Err(e) = crate::workspace::resolve_targets(to, &root.members) {
        return Err(e);
    }
    let fmap = match parse_features_bracket(raw_features, deps) {
        Ok(m) => m,
        Err(e) => {
            return Err(e);
        },
    };
    let ghost fm = fmap.deep_view();
    let ghost dv = deps.deep_view();
    let mut resolved: Vec<ResolvedCrate> = Vec::new();
    let mut k: usize = 0;
    while k < deps.len()
        invariant
            0 <= k <= dv.len(),
            dv.len() == registry@.len(),
            resolved@.len() == k,
            forall|j: int|
                0 <= j < k ==> crate::registry::resolution_ok(
                    req_vreq(dv[j]),
                    req_feats(fm, dv[j]),
                    registry@[j],
                ),
            forall|j: int|
                0 <= j < k ==> crate::registry::rc_matches(
                    base_of(dv[j]),
                    req_vreq(dv[j]),
                    req_feats(fm, dv[j]),
                    registry@[j],
                    resolved@[j],
                ),
        decreases dv.len() - k,
    {
        let (base, vreq) = parse_dep_spec(deps[k].as_str());
        proof {
            assert(dv[k as int] == deps@[k as int]@);
            assert(base@ == base_of(dv[k as int]));
            crate::text::lemma_first_ix_bounds(dv[k as int], '@');
            match req_vreq(dv[k as int]) {
                Some(v) => {
                    assert(vreq matches Some(s) && s@ == v);
                },
                None => {
                    assert(vreq is None);
                },
            }
        }
        let ix = find_feat_key(&fmap, base.as_str());
        proof {
            lemma_gkey_ix(fm, base@);
        }
        let feats: Vec<String> = if ix < fmap.len() {
            crate::workspace::clone_strings(&fmap[ix].1)
        } else {
            Vec::new()
        };
        proof {
            assert(feats.deep_view() =~= req_feats(fm, dv[k as int]));
        }
        let vreq_ref: Option<&str> = match &vreq {
            Some(v) => Some(v.as_str()),
            None => None,
        };
        match crate::registry::resolve_crate(base.as_str(), vreq_ref, &feats, &registry[k]) {
            Ok(rc) => {
                resolved.push(rc);
            },
            Err(e) => {
                return Err(e);
            },
        }
        k += 1;
    }
    let new_root = update_workspace_dependencies(root, &resolved);
    let new_docs = update_target_crates(target_docs, &resolved);
    Ok(AddOutcome { root: new_root, target_docs: new_docs, resolved })
}

} // verus!
