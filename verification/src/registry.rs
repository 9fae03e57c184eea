//! Registry-backed version resolution.  The caller supplies the crate's
//! registry metadata (version numbers, yanked flags, feature names) as plain
//! values; resolution picks the highest non-yanked version satisfying the
//! constraint and validates the requested features against it.  Range
//! matching is delegated to the semver crate behind a trusted wrapper.
use vstd::prelude::*;

use crate::error::{NotFoundKind, WorkError};
use crate::version::{
    is_exact_version, normalize_range, parse_triple, parse_version, spec_all_num_dotted,
    spec_exact_version, spec_starts_op, triple_le, triple_less, triple_lt, SemVer,
};
use crate::workspace::clone_strings;

verus! {

/// The outcome of resolving one dependency.
#[derive(Debug, Clone)]
pub struct ResolvedCrate {
    pub name: String,
    pub version: String,
    pub features: Vec<String>,
}

/// One version as the registry reports it.
#[derive(Debug, Clone)]
pub struct VersionInfo {
    pub num: String,
    pub yanked: bool,
    pub features: Vec<String>,
}

/// What the registry answered for one crate name.
#[derive(Debug, Clone)]
pub struct CrateMetadata {
    pub known: bool,
    pub versions: Vec<VersionInfo>,
}

/// Whether `range` is a well-formed semver requirement.
pub uninterp spec fn range_wf(range: Seq<char>) -> bool;

/// Whether the well-formed requirement `range` admits version
/// `major.minor.patch`.
pub uninterp spec fn range_admits(range: Seq<char>, major: int, minor: int, patch: int) -> bool;

/// Relies on semver::VersionReq::parse and semver::VersionReq::matches:
/// whether `range` parses as a requirement, and whether it then admits the
/// given three-part version.  Both results depend on the arguments alone.
#[verifier::external_body]
fn range_match(range: &str, major: u64, minor: u64, patch: u64) -> (r: Option<bool>)
    ensures
        r is Some <==> range_wf(range@),
        r matches Some(b) ==> b == range_admits(
            range@,
            major as int,
            minor as int,
            patch as int,
        ),
{
    match semver::VersionReq::parse(range) {
        Ok(req) => Some(req.matches(&semver::Version::new(major, minor, patch))),
        Err(_) => None,
    }
}

/// Version `i` of the metadata is usable: listed, not yanked, and a plain
/// three-part numeric version.
pub open spec fn cand(vs: Seq<VersionInfo>, i: int) -> bool {
    0 <= i < vs.len() && !vs[i].yanked && parse_triple(vs[i].num@) is Some
}

pub open spec fn cand_ver(vs: Seq<VersionInfo>, i: int) -> SemVer {
    parse_triple(vs[i].num@)->Some_0
}

pub open spec fn any_candidate(vs: Seq<VersionInfo>) -> bool {
    exists|i: int| cand(vs, i)
}

/// The constraint a version spec denotes: anything, one exact triple, or a
/// semver range.  The second field of `Exact` and `Range` keeps the text
/// reported when nothing satisfies the constraint.
pub enum VerConstraint {
    Any,
    Exact(SemVer, Seq<char>),
    Range(Seq<char>, Seq<char>),
}

pub open spec fn admits(c: VerConstraint, v: SemVer) -> bool {
    match c {
        VerConstraint::Any => true,
        VerConstraint::Exact(e, _) => v == e,
        VerConstraint::Range(n, _) => range_admits(n, v.major as int, v.minor as int, v.patch as int),
    }
}

/// Classify a version spec, mirroring the documented grammar: absent means
/// anything; `=` or a literal triple demand that exact version; an operator
/// range passes through; an all-numeric dotted literal becomes a caret
/// range; anything else is invalid.  `Err` carries the text to report.
pub open spec fn spec_constraint_of(vreq: Option<Seq<char>>) -> Result<VerConstraint, Seq<char>> {
    match vreq {
        None => Ok(VerConstraint::Any),
        Some(raw) => {
            if raw.len() > 0 && raw[0] == '=' {
                let v = raw.subrange(1, raw.len() as int);
                match parse_triple(v) {
                    Some(t) => Ok(VerConstraint::Exact(t, v)),
                    None => Err(v),
                }
            } else if spec_exact_version(raw) {
                match parse_triple(raw) {
                    Some(t) => Ok(VerConstraint::Exact(t, raw)),
                    None => Err(raw),
                }
            } else if spec_starts_op(raw) {
                if range_wf(raw) {
                    Ok(VerConstraint::Range(raw, raw))
                } else {
                    Err(raw)
                }
            } else if spec_all_num_dotted(raw) {
                let n = seq!['^'] + raw;
                if range_wf(n) {
                    Ok(VerConstraint::Range(n, raw))
                } else {
                    Err(raw)
                }
            } else {
                Err(raw)
            }
        },
    }
}

/// The first index below `upto` holding the highest usable version that
/// satisfies `c`, or `-1` if none does.
pub open spec fn best_ix(vs: Seq<VersionInfo>, c: VerConstraint, upto: int) -> int
    decreases upto,
{
    if upto <= 0 {
        -1
    } else {
        let p = best_ix(vs, c, upto - 1);
        let i = upto - 1;
        if cand(vs, i) && admits(c, cand_ver(vs, i)) && (p == -1 || triple_lt(
            cand_ver(vs, p),
            cand_ver(vs, i),
        )) {
            i
        } else {
            p
        }
    }
}

pub open spec fn spec_best(vs: Seq<VersionInfo>, c: VerConstraint) -> int {
    best_ix(vs, c, vs.len() as int)
}

pub proof fn lemma_best_ix(vs: Seq<VersionInfo>, c: VerConstraint, upto: int)
    requires
        0 <= upto <= vs.len(),
    ensures
        -1 <= best_ix(vs, c, upto) < upto || (upto == 0 && best_ix(vs, c, upto) == -1),
        best_ix(vs, c, upto) == -1 ==> forall|i: int|
            0 <= i < upto ==> !(cand(vs, i) && admits(c, cand_ver(vs, i))),
        best_ix(vs, c, upto) != -1 ==> cand(vs, best_ix(vs, c, upto)) && admits(
            c,
            cand_ver(vs, best_ix(vs, c, upto)),
        ),
        best_ix(vs, c, upto) != -1 ==> forall|i: int|
            0 <= i < upto && cand(vs, i) && admits(c, cand_ver(vs, i)) ==> triple_le(
                cand_ver(vs, i),
                cand_ver(vs, best_ix(vs, c, upto)),
            ),
    decreases upto,
{
    if upto > 0 {
        lemma_best_ix(vs, c, upto - 1);
    }
}

/// Whether some listed feature name reads `f`.
pub open spec fn has_feature(avail: Seq<String>, f: Seq<char>) -> bool {
    exists|i: int| 0 <= i < avail.len() && avail[i]@ == f
}

/// The index of the first requested feature at or after `k` that the chosen
/// version lacks, or the number of requests if all are present.
pub open spec fn first_missing(avail: Seq<String>, req: Seq<Seq<char>>, k: int) -> int
    decreases req.len() - k,
{
    if k < 0 || k >= req.len() {
        req.len() as int
    } else if !has_feature(avail, req[k]) {
        k
    } else {
        first_missing(avail, req, k + 1)
    }
}

/// Resolution succeeds exactly when the crate is known, some version is
/// usable, the constraint is well formed, some usable version satisfies it,
/// and the chosen version carries every requested feature.
pub open spec fn resolution_ok(vreq: Option<Seq<char>>, req: Seq<Seq<char>>, meta: CrateMetadata) -> bool {
    &&& meta.known
    &&& any_candidate(meta.versions@)
    &&& spec_constraint_of(vreq) is Ok
    &&& spec_best(meta.versions@, spec_constraint_of(vreq)->Ok_0) >= 0
    &&& first_missing(
        meta.versions@[spec_best(meta.versions@, spec_constraint_of(vreq)->Ok_0)].features@,
        req,
        0,
    ) == req.len()
}

/// The index of the version that a successful resolution picks.
pub open spec fn resolution_ix(vreq: Option<Seq<char>>, meta: CrateMetadata) -> int {
    spec_best(meta.versions@, spec_constraint_of(vreq)->Ok_0)
}

/// What a successful resolution hands back: the crate's name, the chosen
/// version's registry string, and the requested features unchanged.
pub open spec fn rc_matches(
    name: Seq<char>,
    vreq: Option<Seq<char>>,
    req: Seq<Seq<char>>,
    meta: CrateMetadata,
    rc: ResolvedCrate,
) -> bool {
    &&& rc.name@ == name
    &&& rc.version@ == meta.versions@[resolution_ix(vreq, meta)].num@
    &&& rc.features.deep_view() == req
}

/// The error a failed resolution reports, for each way it can fail.
pub open spec fn resolution_err(
    name: Seq<char>,
    vreq: Option<Seq<char>>,
    req: Seq<Seq<char>>,
    meta: CrateMetadata,
    e: WorkError,
) -> bool {
    let vs = meta.versions@;
    if !meta.known {
        e matches WorkError::NotFound { kind, subject, krate } && kind
            == NotFoundKind::UnknownCrate && krate@ == name
    } else if !any_candidate(vs) {
        e matches WorkError::NotFound { kind, subject, krate } && kind == NotFoundKind::NoVersions
            && krate@ == name
    } else {
        match spec_constraint_of(vreq) {
            Err(t) => e matches WorkError::InvalidSpec { text } && text@ == t,
            Ok(c) => {
                let b = spec_best(vs, c);
                if b == -1 {
                    match c {
                        VerConstraint::Any => false,
                        VerConstraint::Exact(_, t) => e matches WorkError::NotFound {
                            kind,
                            subject,
                            krate,
                        } && kind == NotFoundKind::Version && subject@ == t && krate@ == name,
                        VerConstraint::Range(_, t) => e matches WorkError::NotFound {
                            kind,
                            subject,
                            krate,
                        } && kind == NotFoundKind::NoMatch && subject@ == t && krate@ == name,
                    }
                } else {
                    let fmix = first_missing(vs[b].features@, req, 0);
                    &&& fmix < req.len()
                    &&& e matches WorkError::NotFound { kind, subject, krate } && kind
                        == NotFoundKind::Feature && subject@ == req[fmix] && krate@ == name
                }
            },
        }
    }
}

fn has_feat(avail: &Vec<String>, f: &str) -> (r: bool)
    ensures
        r == has_feature(avail@, f@),
{
    let mut i: usize = 0;
    while i < avail.len()
        invariant
            0 <= i <= avail@.len(),
            forall|j: int| 0 <= j < i ==> avail@[j]@ != f@,
        decreases avail@.len() - i,
    {
        if crate::text::str_eq(avail[i].as_str(), f) {
            assert(avail@[i as int]@ == f@);
            return true;
        }
        i += 1;
    }
    false
}

/// The exec-side constraint, carrying the report texts as owned strings.
enum Constraint {
    Any,
    Exact(SemVer, String),
    Range(String, String),
}

impl Constraint {
    spec fn model(self) -> VerConstraint {
        match self {
            Constraint::Any => VerConstraint::Any,
            Constraint::Exact(t, s) => VerConstraint::Exact(t, s@),
            Constraint::Range(n, r) => VerConstraint::Range(n@, r@),
        }
    }

    spec fn wf(self) -> bool {
        self matches Constraint::Range(n, _) ==> range_wf(n@)
    }
}

fn admits_exec(c: &Constraint, v: &SemVer) -> (r: bool)
    requires
        c.wf(),
    ensures
        r == admits(c.model(), *v),
{
    match c {
        Constraint::Any => true,
        Constraint::Exact(t, _) => v.major == t.major && v.minor == t.minor && v.patch == t.patch,
        Constraint::Range(n, _) => {
            match range_match(n.as_str(), v.major, v.minor, v.patch) {
                Some(b) => b,
                None => {
                    proof {
                        assert(false);
                    }
                    false
                },
            }
        },
    }
}

pub open spec fn spec_vreq(o: Option<&str>) -> Option<Seq<char>> {
    match o {
        Some(s) => Some(s@),
        None => None,
    }
}

/// Resolve one dependency against its registry metadata: reject an unknown
/// crate and an unusable version list, classify the constraint, choose the
/// highest usable version satisfying it, and demand every requested feature
/// of that version.
#[verifier::rlimit(100)]
#[verifier::loop_isolation(false)]
pub fn resolve_crate(
    name: &str,
    version_req: Option<&str>,
    requested_features: &Vec<String>,
    meta: &CrateMetadata,
) -> (r: Result<ResolvedCrate, WorkError>)
    ensures
        ({
            let vreq = spec_vreq(version_req);
            let req = requested_features.deep_view();
            match r {
                Ok(rc) => resolution_ok(vreq, req, *meta) && rc_matches(
                    name@,
                    vreq,
                    req,
                    *meta,
                    rc,
                ),
                Err(e) => !resolution_ok(vreq, req, *meta) && resolution_err(
                    name@,
                    vreq,
                    req,
                    *meta,
                    e,
                ),
            }
        }),
        r is Ok ==> ({
            let c = spec_constraint_of(spec_vreq(version_req))->Ok_0;
            let vs = meta.versions@;
            forall|i: int|
                cand(vs, i) && admits(c, cand_ver(vs, i)) ==> triple_le(
                    cand_ver(vs, i),
                    cand_ver(vs, spec_best(vs, c)),
                )
        }),
{
    let ghost vs = meta.versions@;
    if !meta.known {
        return Err(
            WorkError::NotFound {
                kind: NotFoundKind::UnknownCrate,
                subject: name.to_owned(),
                krate: name.to_owned(),
            },
        );
    }
    let n = meta.versions.len();
    let mut any = false;
    let mut i: usize = 0;
    while i < n
        invariant
            0 <= i <= n,
            n == vs.len(),
            vs == meta.versions@,
            any == exists|j: int| 0 <= j < i && cand(vs, j),
        decreases n - i,
    {
        let vi = &meta.versions[i];
        if !vi.yanked && parse_version(vi.num.as_str()).is_some() {
            assert(cand(vs, i as int));
            any = true;
        }
        i += 1;
    }
    if !any {
        return Err(
            WorkError::NotFound {
                kind: NotFoundKind::NoVersions,
                subject: name.to_owned(),
                krate: name.to_owned(),
            },
        );
    }
    let con: Constraint = match version_req {
        None => Constraint::Any,
        Some(raw) => {
            let rlen = raw.unicode_len();
            if rlen > 0 && raw.get_char(0) == '=' {
                let v = raw.substring_char(1, rlen).to_owned();
                proof {
                    assert(v@ =~= raw@.subrange(1, raw@.len() as int));
                }
                match parse_version(v.as_str()) {
                    Some(t) => Constraint::Exact(t, v),
                    None => {
                        return Err(WorkError::InvalidSpec { text: v });
                    },
                }
            } else if is_exact_version(raw) {
                match parse_version(raw) {
                    Some(t) => Constraint::Exact(t, raw.to_owned()),
                    None => {
                        return Err(WorkError::InvalidSpec { text: raw.to_owned() });
                    },
                }
            } else {
                match normalize_range(raw) {
                    Err(e) => {
                        return Err(e);
                    },
                    Ok(norm) => {
                        match range_match(norm.as_str(), 0, 0, 0) {
                            None => {
                                return Err(WorkError::InvalidSpec { text: raw.to_owned() });
                            },
                            Some(_) => Constraint::Range(norm, raw.to_owned()),
                        }
                    },
                }
            }
        },
    };
    let ghost c = con.model();
    proof {
        assert(spec_constraint_of(spec_vreq(version_req)) == Ok::<VerConstraint, Seq<char>>(c));
    }
    let mut has_best = false;
    let mut best: usize = 0;
    let mut best_ver = SemVer { major: 0, minor: 0, patch: 0 };
    let mut i: usize = 0;
    while i < n
        invariant
            0 <= i <= n,
            n == vs.len(),
            vs == meta.versions@,
            con.wf(),
            c == con.model(),
            !has_best ==> best_ix(vs, c, i as int) == -1,
            has_best ==> best < i && best as int == best_ix(vs, c, i as int) && best_ver
                == cand_ver(vs, best as int),
        decreases n - i,
    {
        let vi = &meta.versions[i];
        if !vi.yanked {
            match parse_version(vi.num.as_str()) {
                Some(t) => {
                    assert(cand(vs, i as int) && cand_ver(vs, i as int) == t);
                    if admits_exec(&con, &t) {
                        if !has_best {
                            has_best = true;
                            best = i;
                            best_ver = t;
                        } else if triple_less(&best_ver, &t) {
                            best = i;
                            best_ver = t;
                        }
                    }
                },
                None => {
                    assert(!cand(vs, i as int));
                },
            }
        } else {
            assert(!cand(vs, i as int));
        }
        i += 1;
    }
    proof {
        lemma_best_ix(vs, c, vs.len() as int);
    }
    if !has_best {
        match con {
            Constraint::Any => {
                proof {
                    let w = choose|j: int| cand(vs, j);
                    assert(cand(vs, w) && admits(c, cand_ver(vs, w)));
                    assert(false);
                }
                return Err(
                    WorkError::NotFound {
                        kind: NotFoundKind::NoVersions,
                        subject: name.to_owned(),
                        krate: name.to_owned(),
                    },
                );
            },
            Constraint::Exact(_, t) => {
                return Err(
                    WorkError::NotFound {
                        kind: NotFoundKind::Version,
                        subject: t,
                        krate: name.to_owned(),
                    },
                );
            },
            Constraint::Range(_, t) => {
                return Err(
                    WorkError::NotFound {
                        kind: NotFoundKind::NoMatch,
                        subject: t,
                        krate: name.to_owned(),
                    },
                );
            },
        }
    }
    let b = best;
    let avail = &meta.versions[b].features;
    let mut k: usize = 0;
    while k < requested_features.len()
        invariant
            0 <= k <= requested_features@.len(),
            avail == &meta.versions@[b as int].features,
            vs == meta.versions@,
            0 <= b < vs.len(),
            first_missing(avail@, requested_features.deep_view(), 0) == first_missing(
                avail@,
                requested_features.deep_view(),
                k as int,
            ),
        decreases requested_features@.len() - k,
    {
        if !has_feat(avail, requested_features[k].as_str()) {
            assert(first_missing(avail@, requested_features.deep_view(), k as int) == k);
            return Err(
                WorkError::NotFound {
                    kind: NotFoundKind::Feature,
                    subject: requested_features[k].clone(),
                    krate: name.to_owned(),
                },
            );
        }
        k += 1;
    }
    assert(first_missing(avail@, requested_features.deep_view(), 0) == requested_features@.len());
    Ok(
        ResolvedCrate {
            name: name.to_owned(),
            version: meta.versions[b].num.clone(),
            features: clone_strings(requested_features),
        },
    )
}

} // verus!
