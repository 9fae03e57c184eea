use cargo_work::add;
use cargo_work::error::WorkError;
use cargo_work::list;
use cargo_work::registry::{CrateMetadata, VersionInfo};
use cargo_work::remove;
use cargo_work::sync;
use cargo_work::workspace::{resolve_targets, DepEntry, DepSpec, MemberDoc, WorkspaceDoc};

fn strs(xs: &[&str]) -> Vec<String> {
    xs.iter().map(|s| s.to_string()).collect()
}

fn simple_meta(nums: &[&str]) -> CrateMetadata {
    CrateMetadata {
        known: true,
        versions: nums
            .iter()
            .map(|n| VersionInfo { num: n.to_string(), yanked: false, features: vec![] })
            .collect(),
    }
}

fn root(members: &[&str], shared: &[(&str, &str)]) -> WorkspaceDoc {
    WorkspaceDoc {
        members: strs(members),
        shared: shared
            .iter()
            .map(|(n, v)| {
                (n.to_string(), DepSpec { version: v.to_string(), features: vec![] })
            })
            .collect(),
    }
}

fn member(deps: &[(&str, DepEntry)]) -> MemberDoc {
    MemberDoc { deps: deps.iter().map(|(n, e)| (n.to_string(), *e)).collect() }
}

#[test]
fn selector_all_expands_to_member_list() {
    let ms = strs(&["a", "b"]);
    assert_eq!(resolve_targets("all", &ms).unwrap(), strs(&["a", "b"]));
    assert_eq!(resolve_targets(" a , b ,", &ms).unwrap(), strs(&["a", "b"]));
}

#[test]
fn selector_rejects_empty_and_mixed_all() {
    let ms = strs(&["a"]);
    assert!(matches!(
        resolve_targets("", &ms),
        Err(WorkError::InvalidSelector { .. })
    ));
    assert!(matches!(
        resolve_targets(" , ", &ms),
        Err(WorkError::InvalidSelector { .. })
    ));
    assert!(matches!(
        resolve_targets("all,a", &ms),
        Err(WorkError::InvalidSelector { .. })
    ));
}

#[test]
fn round_trip_add_list_remove() {
    let r = root(&["a"], &[]);
    let a = member(&[]);
    let out = add::handle(
        &strs(&["foo"]),
        &strs(&[]),
        "a",
        &r,
        &vec![a],
        &vec![simple_meta(&["1.0.0"])],
    )
    .unwrap();
    assert_eq!(out.root.shared.len(), 1);
    assert_eq!(out.root.shared[0].0, "foo");
    assert_eq!(out.root.shared[0].1.version, "1.0.0");
    let listing = list::handle(&out.root, &vec![Some(clone_member(&out.target_docs[0]))]);
    assert_eq!(listing.len(), 1);
    assert_eq!(listing[0].name, "foo");
    assert_eq!(listing[0].used_by, strs(&["a"]));

    let out2 = remove::handle(
        &strs(&["foo"]),
        "a",
        &out.root,
        &vec![clone_member(&out.target_docs[0])],
        &vec![clone_member(&out.target_docs[0])],
    )
    .unwrap();
    assert!(out2.root.shared.is_empty());
    assert!(out2.target_docs[0].deps.is_empty());
    let listing2 = list::handle(&out2.root, &vec![Some(clone_member(&out2.target_docs[0]))]);
    assert!(listing2.is_empty());
}

fn clone_member(m: &MemberDoc) -> MemberDoc {
    MemberDoc { deps: m.deps.iter().map(|(n, e)| (n.clone(), *e)).collect() }
}

#[test]
fn mark_and_sweep_keeps_entries_still_used_elsewhere() {
    let r = root(&["a", "b"], &[("foo", "1.0.0")]);
    let a = member(&[("foo", DepEntry::Indirect)]);
    let b = member(&[("foo", DepEntry::Indirect)]);
    let out = remove::handle(
        &strs(&["foo"]),
        "a",
        &r,
        &vec![clone_member(&a), clone_member(&b)],
        &vec![clone_member(&a)],
    )
    .unwrap();
    // `a` no longer lists foo, but `b` still does: the shared entry survives
    assert!(out.target_docs[0].deps.is_empty());
    assert_eq!(out.root.shared.len(), 1);
    assert_eq!(out.root.shared[0].0, "foo");
}

#[test]
fn removal_prunes_entries_nobody_uses() {
    let r = root(&["a", "b"], &[("foo", "1.0.0"), ("bar", "2.0.0")]);
    let a = member(&[("foo", DepEntry::Indirect)]);
    let b = member(&[("bar", DepEntry::Indirect)]);
    let out = remove::handle(
        &strs(&["foo"]),
        "a",
        &r,
        &vec![clone_member(&a), clone_member(&b)],
        &vec![clone_member(&a)],
    )
    .unwrap();
    // foo is gone everywhere; bar is untouched
    assert_eq!(out.root.shared.len(), 1);
    assert_eq!(out.root.shared[0].0, "bar");
}

#[test]
fn add_twice_with_identical_arguments_changes_nothing_more() {
    let r = root(&["a"], &[]);
    let a = member(&[("other", DepEntry::Direct)]);
    let deps = strs(&["foo"]);
    let reg = vec![simple_meta(&["1.0.0", "1.1.0"])];
    let out1 = add::handle(&deps, &strs(&[]), "a", &r, &vec![clone_member(&a)], &reg).unwrap();
    let out2 = add::handle(
        &deps,
        &strs(&[]),
        "a",
        &out1.root,
        &vec![clone_member(&out1.target_docs[0])],
        &reg,
    )
    .unwrap();
    assert_eq!(out1.root.shared.len(), 1);
    assert_eq!(out2.root.shared.len(), 1);
    assert_eq!(out2.root.shared[0].0, out1.root.shared[0].0);
    assert_eq!(out2.root.shared[0].1.version, out1.root.shared[0].1.version);
    // the member reference is not duplicated
    assert_eq!(out1.target_docs[0].deps.len(), 2);
    assert_eq!(out2.target_docs[0].deps.len(), 2);
    assert_eq!(out2.target_docs[0].deps[1].0, "foo");
    assert_eq!(out2.target_docs[0].deps[1].1, DepEntry::Indirect);
}

#[test]
fn add_leaves_existing_member_entries_untouched() {
    let r = root(&["a"], &[]);
    let a = member(&[("foo", DepEntry::Direct)]);
    let out = add::handle(
        &strs(&["foo"]),
        &strs(&[]),
        "a",
        &r,
        &vec![a],
        &vec![simple_meta(&["1.0.0"])],
    )
    .unwrap();
    // the shared entry is written, but the member's own entry stays direct
    assert_eq!(out.root.shared[0].0, "foo");
    assert_eq!(out.target_docs[0].deps.len(), 1);
    assert_eq!(out.target_docs[0].deps[0].1, DepEntry::Direct);
}

#[test]
fn add_resolves_features_per_dependency() {
    let r = root(&["a"], &[]);
    let a = member(&[]);
    let meta = CrateMetadata {
        known: true,
        versions: vec![VersionInfo {
            num: "1.0.0".to_string(),
            yanked: false,
            features: strs(&["serde", "std"]),
        }],
    };
    let out = add::handle(
        &strs(&["foo"]),
        &strs(&["foo[serde]"]),
        "a",
        &r,
        &vec![a],
        &vec![meta],
    )
    .unwrap();
    assert_eq!(out.root.shared[0].1.features, strs(&["serde"]));
    assert_eq!(out.resolved[0].features, strs(&["serde"]));
}

#[test]
fn sync_converts_stale_entries_but_inserts_nothing() {
    let r = root(&["a"], &[("foo", "1.0.0"), ("bar", "2.0.0")]);
    let a = member(&[("foo", DepEntry::Direct), ("other", DepEntry::Direct)]);
    let docs = sync::handle("a", &r, &vec![a]).unwrap();
    let d = &docs[0];
    // foo is shared and present: coerced to indirect
    assert_eq!(d.deps[0].0, "foo");
    assert_eq!(d.deps[0].1, DepEntry::Indirect);
    // other is not shared: untouched
    assert_eq!(d.deps[1].0, "other");
    assert_eq!(d.deps[1].1, DepEntry::Direct);
    // bar is shared but absent from the member: not inserted
    assert_eq!(d.deps.len(), 2);
}

#[test]
fn list_reports_versions_features_and_users() {
    let mut r = root(&["a", "b"], &[]);
    r.shared.push((
        "foo".to_string(),
        DepSpec { version: "1.2.3".to_string(), features: strs(&["x"]) },
    ));
    let a = member(&[("foo", DepEntry::Indirect)]);
    let b = member(&[("foo", DepEntry::Direct)]);
    let listing = list::handle(&r, &vec![Some(a), Some(b)]);
    assert_eq!(listing.len(), 1);
    assert_eq!(listing[0].version, "1.2.3");
    assert_eq!(listing[0].features, strs(&["x"]));
    // only the indirect reference counts as a user
    assert_eq!(listing[0].used_by, strs(&["a"]));
}

#[test]
fn list_skips_unreadable_member_documents() {
    let r = root(&["a", "b"], &[("foo", "1.0.0")]);
    let b = member(&[("foo", DepEntry::Indirect)]);
    let listing = list::handle(&r, &vec![None, Some(b)]);
    assert_eq!(listing[0].used_by, strs(&["b"]));
}

#[test]
fn add_with_bad_selector_or_unknown_feature_dep_fails() {
    let r = root(&["a"], &[]);
    assert!(matches!(
        add::handle(&strs(&["foo"]), &strs(&[]), "all,a", &r, &vec![], &vec![simple_meta(&["1.0.0"])]),
        Err(WorkError::InvalidSelector { .. })
    ));
    assert!(matches!(
        add::handle(
            &strs(&["foo"]),
            &strs(&["bar[x]"]),
            "a",
            &r,
            &vec![member(&[])],
            &vec![simple_meta(&["1.0.0"])]
        ),
        Err(WorkError::InvalidFeatureSpec { .. })
    ));
}
