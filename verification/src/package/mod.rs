//! Packages: their manifests, their validation, and the resolution of their
//! dependencies.
//!
//! Resolution walks the dependencies depth first. Fetching a package is outside
//! work: the resolver says which package it needs next, the caller fetches it
//! and hands it back, and the resolver goes on.
use vstd::prelude::*;
use crate::error::{IoError, ErrorKind};
use crate::text::{push_str, to_owned_string, str_eq};

pub mod registry;

verus! {

/// A package manifest: name, version, dependencies (name and version
/// requirement, each name once) and the path of the entry point.
#[derive(Debug)]
pub struct Package {
    pub name: String,
    pub version: String,
    pub dependencies: Vec<(String, String)>,
    pub entry_point: String,
}

/// The texts of (name, version) pairs.
pub open spec fn pairs_view(v: Seq<(String, String)>) -> Seq<(Seq<char>, Seq<char>)> {
    v.map_values(|p: (String, String)| (p.0@, p.1@))
}

/// The index of the pair whose name is `name`, or -1.
pub open spec fn pair_index(v: Seq<(Seq<char>, Seq<char>)>, name: Seq<char>) -> int
    decreases v.len(),
{
    if v.len() == 0 {
        -1
    } else if v.last().0 == name {
        v.len() - 1
    } else {
        pair_index(v.drop_last(), name)
    }
}

/// The pairs with `(name, version)` put in: replacing the version of the pair
/// with that name, or added at the end.
pub open spec fn insert_pair(v: Seq<(Seq<char>, Seq<char>)>, name: Seq<char>, version: Seq<char>) -> Seq<(Seq<char>, Seq<char>)> {
    let i = pair_index(v, name);
    if i >= 0 {
        v.update(i, (name, version))
    } else {
        v.push((name, version))
    }
}

/// Where the pair with the name stands.
pub proof fn lemma_pair_index(v: Seq<(Seq<char>, Seq<char>)>, name: Seq<char>)
    ensures
        -1 <= pair_index(v, name) < v.len(),
        pair_index(v, name) >= 0 ==> v[pair_index(v, name)].0 == name,
        pair_index(v, name) < 0 ==> forall|k: int| 0 <= k < v.len() ==> v[k].0 != name,
    decreases v.len(),
{
    if v.len() > 0 && v.last().0 != name {
        lemma_pair_index(v.drop_last(), name);
        if pair_index(v, name) < 0 {
            assert forall|k: int| 0 <= k < v.len() implies v[k].0 != name by {
                if k < v.len() - 1 {
                    assert(v.drop_last()[k] == v[k]);
                }
            }
        }
    }
}

/// The index of the pair with the name, searching from the end.
pub fn find_pair(v: &Vec<(String, String)>, name: &str) -> (r: Option<usize>)
    ensures
        match r {
            Some(i) => i < v@.len() && i as int == pair_index(pairs_view(v@), name@),
            None => pair_index(pairs_view(v@), name@) == -1,
        },
{
    let ghost pv = pairs_view(v@);
    proof {
        lemma_pair_index(pv, name@);
        assert(pv.subrange(0, pv.len() as int) =~= pv);
    }
    let mut i: usize = v.len();
    while i > 0
        invariant
            i <= v@.len(),
            pv == pairs_view(v@),
            pair_index(pv, name@) == pair_index(pv.subrange(0, i as int), name@),
        decreases i,
    {
        let ghost pre = pv.subrange(0, i as int);
        if str_eq(v[i - 1].0.as_str(), name) {
            proof {
                assert(pre.last() == pv[i - 1]);
            }
            return Some(i - 1);
        }
        proof {
            assert(pre.drop_last() =~= pv.subrange(0, i - 1));
        }
        i = i - 1;
    }
    None
}

/// Whether `text` matches the regular expression `pattern`, as the regex crate
/// decides it; `None` when the pattern does not compile.
pub uninterp spec fn regex_match_result(pattern: Seq<char>, text: Seq<char>) -> Option<bool>;

/// Compiles `pattern` with `regex::Regex::new` and tests `text` with
/// `Regex::is_match`. The contract names the result and claims nothing more of
/// what a regular expression matches.
#[verifier::external_body]
fn regex_is_match(pattern: &str, text: &str) -> (r: Option<bool>)
    ensures
        r == regex_match_result(pattern@, text@),
{
    match regex::Regex::new(pattern) {
        Ok(re) => Some(re.is_match(text)),
        Err(_) => None,
    }
}

/// The pattern of a package name: a lower-case letter, then lower-case
/// letters, digits, underscores and hyphens.
pub open spec fn name_pattern() -> Seq<char> {
    "^[a-z][a-z0-9_-]*$"@
}

/// The pattern of a version: three dot-separated numbers and an optional
/// alphanumeric pre-release tag.
pub open spec fn version_pattern() -> Seq<char> {
    "^\\d+\\.\\d+\\.\\d+(-[a-zA-Z0-9]+)?$"@
}

/// Whether the name is a valid package name.
pub open spec fn valid_name(name: Seq<char>) -> bool {
    regex_match_result(name_pattern(), name) == Some(true)
}

/// Whether the text is a valid version.
pub open spec fn valid_version(version: Seq<char>) -> bool {
    regex_match_result(version_pattern(), version) == Some(true)
}

/// Whether the name is a valid package name.
pub fn is_valid_package_name(name: &str) -> (r: bool)
    ensures
        r == valid_name(name@),
{
    match regex_is_match("^[a-z][a-z0-9_-]*$", name) {
        Some(b) => b,
        None => false,
    }
}

/// Whether the text is a valid version.
pub fn is_valid_version(version: &str) -> (r: bool)
    ensures
        r == valid_version(version@),
{
    match regex_is_match("^\\d+\\.\\d+\\.\\d+(-[a-zA-Z0-9]+)?$", version) {
        Some(b) => b,
        None => false,
    }
}

/// What the checks of a package found: whether the name, the version and each
/// dependency's name and version are valid, and whether the entry point exists.
pub struct PackageChecks {
    pub name_valid: bool,
    pub version_valid: bool,
    pub entry_point_exists: bool,
    pub dependencies_valid: Vec<(bool, bool)>,
}

/// The first dependency, from `i` on, whose name or version the checks reject,
/// with the message for it; `None` if there is none.
pub open spec fn first_bad_dependency(deps: Seq<(Seq<char>, Seq<char>)>, checks: Seq<(bool, bool)>, i: nat) -> Option<Seq<char>>
    decreases deps.len() - i,
{
    if i >= deps.len() || i >= checks.len() {
        None
    } else if !checks[i as int].0 {
        Some("Invalid dependency name: "@ + deps[i as int].0)
    } else if !checks[i as int].1 {
        Some("Invalid dependency version: "@ + deps[i as int].1)
    } else {
        first_bad_dependency(deps, checks, i + 1)
    }
}

/// The message of the first check that fails, in the order name, version, entry
/// point, dependencies; `None` when all pass.
pub open spec fn validation_failure(deps: Seq<(Seq<char>, Seq<char>)>, name_valid: bool, version_valid: bool, entry_exists: bool, checks: Seq<(bool, bool)>) -> Option<Seq<char>> {
    if !name_valid {
        Some("Invalid package name"@)
    } else if !version_valid {
        Some("Invalid version format"@)
    } else if !entry_exists {
        Some("Entry point file not found"@)
    } else {
        first_bad_dependency(deps, checks, 0)
    }
}

/// No name occurs twice among the pairs.
pub open spec fn pair_names_distinct(v: Seq<(Seq<char>, Seq<char>)>) -> bool {
    forall|i: int, j: int| 0 <= i < j < v.len() ==> #[trigger] v[i].0 != #[trigger] v[j].0
}

impl Package {
    /// Each dependency is named once.
    pub open spec fn wf(&self) -> bool {
        pair_names_distinct(pairs_view(self.dependencies@))
    }

    /// A package of the given name at version 0.1.0, with no dependencies and the
    /// entry point `src/main.io`.
    pub fn new(name: &str) -> (r: Self)
        ensures
            r.wf(),
            r.name@ == name@,
            r.version@ == "0.1.0"@,
            r.dependencies@.len() == 0,
            r.entry_point@ == "src/main.io"@,
    {
        Package {
            name: to_owned_string(name),
            version: to_owned_string("0.1.0"),
            dependencies: Vec::new(),
            entry_point: to_owned_string("src/main.io"),
        }
    }

    /// Sets the version requirement of a dependency, adding the dependency if it is
    /// new.
    pub fn add_dependency(&mut self, name: &str, version: &str)
        ensures
            pairs_view(final(self).dependencies@) == insert_pair(pairs_view(old(self).dependencies@), name@, version@),
            old(self).wf() ==> final(self).wf(),
            final(self).name == old(self).name,
            final(self).version == old(self).version,
            final(self).entry_point == old(self).entry_point,
    {
        let ghost before = pairs_view(self.dependencies@);
        match find_pair(&self.dependencies, name) {
            Some(i) => {
                self.dependencies.set(i, (to_owned_string(name), to_owned_string(version)));
                proof {
                    assert(pairs_view(self.dependencies@) =~= before.update(i as int, (name@, version@)));
                    lemma_pair_index(before, name@);
                }
            },
            None => {
                self.dependencies.push((to_owned_string(name), to_owned_string(version)));
                proof {
                    assert(pairs_view(self.dependencies@) =~= before.push((name@, version@)));
                    lemma_pair_index(before, name@);
                }
            },
        }
    }

    /// Checks the package with the given findings: the first failing check
    /// decides the error.
    pub fn validate_checked(&self, checks: &PackageChecks) -> (r: Result<(), IoError>)
        ensures
            match validation_failure(
                pairs_view(self.dependencies@),
                checks.name_valid,
                checks.version_valid,
                checks.entry_point_exists,
                checks.dependencies_valid@,
            ) {
                None => r is Ok,
                Some(m) => r matches Err(e) && e.spec_kind() == ErrorKind::ValidationError && e.spec_message() == m,
            },
    {
        if !checks.name_valid {
            return Err(IoError::validation_error("Invalid package name"));
        }
        if !checks.version_valid {
            return Err(IoError::validation_error("Invalid version format"));
        }
        if !checks.entry_point_exists {
            return Err(IoError::validation_error("Entry point file not found"));
        }
        let ghost deps = pairs_view(self.dependencies@);
        let n = if self.dependencies.len() < checks.dependencies_valid.len() {
            self.dependencies.len()
        } else {
            checks.dependencies_valid.len()
        };
        let mut i: usize = 0;
        while i < n
            invariant
                checks.name_valid,
                checks.version_valid,
                checks.entry_point_exists,
                deps == pairs_view(self.dependencies@),
                n <= self.dependencies@.len(),
                n <= checks.dependencies_valid@.len(),
                n == self.dependencies@.len() || n == checks.dependencies_valid@.len(),
                i <= n,
                first_bad_dependency(deps, checks.dependencies_valid@, 0) == first_bad_dependency(
                    deps,
                    checks.dependencies_valid@,
                    i as nat,
                ),
            decreases n - i,
        {
            let (name_ok, version_ok) = checks.dependencies_valid[i];
            if !name_ok {
                let mut m = to_owned_string("Invalid dependency name: ");
                push_str(&mut m, self.dependencies[i].0.as_str());
                return Err(IoError::validation_error(m.as_str()));
            }
            if !version_ok {
                let mut m = to_owned_string("Invalid dependency version: ");
                push_str(&mut m, self.dependencies[i].1.as_str());
                return Err(IoError::validation_error(m.as_str()));
            }
            i = i + 1;
        }
        Ok(())
    }

    /// The findings of the checks of the name, the version and the dependencies,
    /// with whether the entry point exists as given.
    pub fn checks(&self, entry_point_exists: bool) -> (r: PackageChecks)
        ensures
            r.name_valid == valid_name(self.name@),
            r.version_valid == valid_version(self.version@),
            r.entry_point_exists == entry_point_exists,
            r.dependencies_valid@.len() == self.dependencies@.len(),
            forall|k: int| 0 <= k < self.dependencies@.len() ==> #[trigger] r.dependencies_valid@[k] == (
                valid_name(self.dependencies@[k].0@),
                valid_version(self.dependencies@[k].1@),
            ),
    {
        let mut deps: Vec<(bool, bool)> = Vec::new();
        let mut i: usize = 0;
        while i < self.dependencies.len()
            invariant
                i <= self.dependencies@.len(),
                deps@.len() == i,
                forall|k: int| 0 <= k < i ==> #[trigger] deps@[k] == (
                    valid_name(self.dependencies@[k].0@),
                    valid_version(self.dependencies@[k].1@),
                ),
            decreases self.dependencies.len() - i,
        {
            let a = is_valid_package_name(self.dependencies[i].0.as_str());
            let b = is_valid_version(self.dependencies[i].1.as_str());
            deps.push((a, b));
            i = i + 1;
        }
        PackageChecks {
            name_valid: is_valid_package_name(self.name.as_str()),
            version_valid: is_valid_version(self.version.as_str()),
            entry_point_exists,
            dependencies_valid: deps,
        }
    }

    /// Checks the name, the version, the entry point and each dependency, in that
    /// order; `entry_point_exists` tells whether the entry point's file exists.
    pub fn validate(&self, entry_point_exists: bool) -> (r: Result<(), IoError>)
        ensures
            ({
                let checks = Seq::new(
                    self.dependencies@.len(),
                    |k: int| (valid_name(self.dependencies@[k].0@), valid_version(self.dependencies@[k].1@)),
                );
                match validation_failure(
                    pairs_view(self.dependencies@),
                    valid_name(self.name@),
                    valid_version(self.version@),
                    entry_point_exists,
                    checks,
                ) {
                    None => r is Ok,
                    Some(m) => r matches Err(e) && e.spec_kind() == ErrorKind::ValidationError
                        && e.spec_message() == m,
                }
            }),
    {
        let checks = self.checks(entry_point_exists);
        proof {
            let expected = Seq::new(
                self.dependencies@.len(),
                |k: int| (valid_name(self.dependencies@[k].0@), valid_version(self.dependencies@[k].1@)),
            );
            assert(checks.dependencies_valid@ =~= expected);
        }
        self.validate_checked(&checks)
    }

    /// A copy of the package.
    pub fn duplicate(&self) -> (r: Self)
        ensures
            r.name@ == self.name@,
            r.version@ == self.version@,
            pairs_view(r.dependencies@) == pairs_view(self.dependencies@),
            r.entry_point@ == self.entry_point@,
    {
        Package {
            name: self.name.clone(),
            version: self.version.clone(),
            dependencies: copy_pairs(&self.dependencies),
            entry_point: self.entry_point.clone(),
        }
    }
}

/// A copy of (name, version) pairs.
pub fn copy_pairs(v: &Vec<(String, String)>) -> (r: Vec<(String, String)>)
    ensures
        pairs_view(r@) == pairs_view(v@),
{
    let mut out: Vec<(String, String)> = Vec::new();
    let mut i: usize = 0;
    while i < v.len()
        invariant
            i <= v@.len(),
            out@.len() == i,
            forall|k: int| 0 <= k < i ==> (#[trigger] out@[k]).0@ == v@[k].0@ && out@[k].1@ == v@[k].1@,
        decreases v.len() - i,
    {
        out.push((v[i].0.clone(), v[i].1.clone()));
        i = i + 1;
    }
    assert(pairs_view(out@) =~= pairs_view(v@));
    out
}


/// A package that resolution brought in, with the version it was asked for.
#[derive(Debug)]
pub struct ResolvedDependency {
    pub package: Package,
    pub version: String,
}

/// The packages brought in by resolution, each name once, in the order they
/// came.
#[derive(Debug)]
pub struct DependencyResolution {
    deps: Vec<(String, ResolvedDependency)>,
    max_depth: usize,
}

/// What resolution keeps of a package: its name, the version asked for, and the
/// package's own dependencies.
pub open spec fn resolved_view(d: (String, ResolvedDependency)) -> (Seq<char>, Seq<char>, Seq<(Seq<char>, Seq<char>)>) {
    (d.0@, d.1.version@, pairs_view(d.1.package.dependencies@))
}

/// The index of the resolved package with the name, or -1.
pub open spec fn resolved_index(v: Seq<(Seq<char>, Seq<char>, Seq<(Seq<char>, Seq<char>)>)>, name: Seq<char>) -> int
    decreases v.len(),
{
    if v.len() == 0 {
        -1
    } else if v.last().0 == name {
        v.len() - 1
    } else {
        resolved_index(v.drop_last(), name)
    }
}

/// Where the resolved package with the name stands.
pub proof fn lemma_resolved_index(v: Seq<(Seq<char>, Seq<char>, Seq<(Seq<char>, Seq<char>)>)>, name: Seq<char>)
    ensures
        -1 <= resolved_index(v, name) < v.len(),
        resolved_index(v, name) >= 0 ==> v[resolved_index(v, name)].0 == name,
        resolved_index(v, name) < 0 ==> forall|k: int| 0 <= k < v.len() ==> v[k].0 != name,
    decreases v.len(),
{
    if v.len() > 0 && v.last().0 != name {
        lemma_resolved_index(v.drop_last(), name);
        if resolved_index(v, name) < 0 {
            assert forall|k: int| 0 <= k < v.len() implies v[k].0 != name by {
                if k < v.len() - 1 {
                    assert(v.drop_last()[k] == v[k]);
                }
            }
        }
    }
}

/// What resolution keeps of a package: its name, the version asked for, and
/// its own dependencies.
pub type Resolved = (Seq<char>, Seq<char>, Seq<(Seq<char>, Seq<char>)>);

/// No name is resolved twice.
pub open spec fn resolved_names_distinct(d: Seq<Resolved>) -> bool {
    forall|i: int, j: int| 0 <= i < j < d.len() ==> #[trigger] d[i].0 != #[trigger] d[j].0
}

/// `d2` is `d` with entries added at the end.
pub open spec fn extends(d: Seq<Resolved>, d2: Seq<Resolved>) -> bool {
    d.len() <= d2.len() && d2.subrange(0, d.len() as int) == d
}

/// A name resolved in `d` is found at the same place in an extension of it
/// where names are distinct.
proof fn lemma_resolved_index_extends(d: Seq<Resolved>, d2: Seq<Resolved>, name: Seq<char>)
    requires
        extends(d, d2),
        resolved_names_distinct(d2),
        resolved_index(d, name) >= 0,
    ensures
        resolved_index(d2, name) == resolved_index(d, name),
{
    lemma_resolved_index(d, name);
    lemma_resolved_index(d2, name);
    let j = resolved_index(d, name);
    assert(d2[j] == d2.subrange(0, d.len() as int)[j]);
    let j2 = resolved_index(d2, name);
    if j2 != j {
        if j2 < j {
            assert(d2[j2].0 != d2[j].0);
        } else if j2 > j {
            assert(d2[j].0 != d2[j2].0);
        }
    }
}

/// How a walk over the resolved packages ends.
pub enum WalkOutcome {
    /// Every dependency reached is resolved, within the depth limit.
    Complete,
    /// A dependency reached is not resolved.
    Missing,
    /// The walk went past the depth limit.
    TooDeep,
}

/// Walking the dependencies `deps` from the `i`-th on, at `depth`, through the
/// resolved packages `d`, depth first: each must be resolved, and the walk goes
/// on into its own dependencies one level deeper; going past `limit` levels
/// ends it as too deep. A dependency cycle, or a chain of more than `limit`
/// levels, makes the walk too deep.
pub open spec fn walk(d: Seq<Resolved>, deps: Seq<(Seq<char>, Seq<char>)>, i: nat, depth: nat, limit: nat) -> WalkOutcome
    decreases limit + 1 - depth, deps.len() - i,
{
    if depth > limit {
        WalkOutcome::TooDeep
    } else if i >= deps.len() {
        WalkOutcome::Complete
    } else {
        let k = resolved_index(d, deps[i as int].0);
        if k < 0 {
            WalkOutcome::Missing
        } else {
            match walk(d, d[k].2, 0, depth + 1, limit) {
                WalkOutcome::Complete => walk(d, deps, i + 1, depth, limit),
                other => other,
            }
        }
    }
}

/// The walk completes.
pub open spec fn walk_ok(d: Seq<Resolved>, deps: Seq<(Seq<char>, Seq<char>)>, i: nat, depth: nat, limit: nat) -> bool {
    walk(d, deps, i, depth, limit) is Complete
}

/// The `k`-th dependency is resolved and its walk, one level deeper, succeeds.
pub open spec fn item_ok(d: Seq<Resolved>, deps: Seq<(Seq<char>, Seq<char>)>, k: int, depth: nat, limit: nat) -> bool {
    resolved_index(d, deps[k].0) >= 0 && walk_ok(d, d[resolved_index(d, deps[k].0)].2, 0, depth + 1, limit)
}

/// A walk that succeeds still does after more packages are resolved.
proof fn lemma_walk_extends(d: Seq<Resolved>, d2: Seq<Resolved>, deps: Seq<(Seq<char>, Seq<char>)>, i: nat, depth: nat, limit: nat)
    requires
        extends(d, d2),
        resolved_names_distinct(d2),
        walk_ok(d, deps, i, depth, limit),
    ensures
        walk_ok(d2, deps, i, depth, limit),
    decreases limit + 1 - depth, deps.len() - i,
{
    if depth <= limit && i < deps.len() {
        let k = resolved_index(d, deps[i as int].0);
        lemma_resolved_index(d, deps[i as int].0);
        lemma_resolved_index_extends(d, d2, deps[i as int].0);
        assert(d2[k] == d2.subrange(0, d.len() as int)[k]);
        lemma_walk_extends(d, d2, d[k].2, 0, depth + 1, limit);
        lemma_walk_extends(d, d2, deps, i + 1, depth, limit);
    }
}

/// With the first `j` dependencies walked successfully, the whole walk succeeds
/// exactly when the walk from the `j`-th does.
proof fn lemma_walk_items(d: Seq<Resolved>, deps: Seq<(Seq<char>, Seq<char>)>, j: nat, depth: nat, limit: nat)
    requires
        depth <= limit,
        j <= deps.len(),
        forall|k: int| 0 <= k < j ==> #[trigger] item_ok(d, deps, k, depth, limit),
    ensures
        walk(d, deps, 0, depth, limit) == walk(d, deps, j, depth, limit),
    decreases j,
{
    if j > 0 {
        assert(item_ok(d, deps, j - 1, depth, limit));
        lemma_walk_items(d, deps, (j - 1) as nat, depth, limit);
    }
}

/// `fetch` gave a package with these dependencies for this name and version.
pub open spec fn fetched_as<F: Fn(&str, &str) -> Result<Package, IoError>>(fetch: &F, e: Resolved) -> bool {
    exists|n: &str, v: &str, q: Package|
        n@ == e.0 && v@ == e.1 && pairs_view(q.dependencies@) == e.2 && #[trigger] fetch.ensures(
            (n, v),
            Ok::<Package, IoError>(q),
        )
}

/// The (name, version) pair is asked for by the root's dependencies or by
/// those of a resolved package.
pub open spec fn requested(root: Seq<(Seq<char>, Seq<char>)>, d: Seq<Resolved>, name: Seq<char>, version: Seq<char>) -> bool {
    root.contains((name, version)) || exists|t: int| 0 <= t < d.len() && #[trigger] d[t].2.contains((name, version))
}

/// Every resolved package is what `fetch` gave for a dependency's own name and
/// version requirement.
pub open spec fn all_sourced<F: Fn(&str, &str) -> Result<Package, IoError>>(fetch: &F, root: Seq<(Seq<char>, Seq<char>)>, d: Seq<Resolved>) -> bool {
    forall|t: int| 0 <= t < d.len() ==> fetched_as(fetch, #[trigger] d[t]) && requested(root, d, d[t].0, d[t].1)
}

/// `fetch` failed with the error for a (name, version) pair that was asked for.
pub open spec fn fetch_failed<F: Fn(&str, &str) -> Result<Package, IoError>>(
    fetch: &F,
    root: Seq<(Seq<char>, Seq<char>)>,
    d: Seq<Resolved>,
    e: IoError,
) -> bool {
    exists|n: &str, v: &str| requested(root, d, n@, v@) && #[trigger] fetch.ensures((n, v), Err::<Package, IoError>(e))
}

/// The dependency list is the root's or that of a resolved package.
pub open spec fn listed_in(root: Seq<(Seq<char>, Seq<char>)>, d: Seq<Resolved>, list: Seq<(Seq<char>, Seq<char>)>) -> bool {
    list == root || exists|t: int| 0 <= t < d.len() && #[trigger] d[t].2 == list
}

/// Resolving more packages keeps what was asked for and listed.
proof fn lemma_sourced_extends<F: Fn(&str, &str) -> Result<Package, IoError>>(
    fetch: &F,
    root: Seq<(Seq<char>, Seq<char>)>,
    d: Seq<Resolved>,
    d2: Seq<Resolved>,
    list: Seq<(Seq<char>, Seq<char>)>,
)
    requires
        extends(d, d2),
    ensures
        forall|t: int| 0 <= t < d.len() ==> #[trigger] d2[t] == d[t],
        listed_in(root, d, list) ==> listed_in(root, d2, list),
        forall|n: Seq<char>, v: Seq<char>| #[trigger] requested(root, d, n, v) ==> requested(root, d2, n, v),
{
    assert forall|t: int| 0 <= t < d.len() implies #[trigger] d2[t] == d[t] by {
        assert(d2[t] == d2.subrange(0, d.len() as int)[t]);
    }
    if listed_in(root, d, list) && list != root {
        let t = choose|t: int| 0 <= t < d.len() && #[trigger] d[t].2 == list;
        assert(d2[t] == d[t]);
    }
    assert forall|n: Seq<char>, v: Seq<char>| #[trigger] requested(root, d, n, v) implies requested(root, d2, n, v) by {
        if !root.contains((n, v)) {
            let t = choose|t: int| 0 <= t < d.len() && #[trigger] d[t].2.contains((n, v));
            assert(d2[t] == d[t]);
        }
    }
}

impl DependencyResolution {
    /// The packages brought in, in order.
    pub closed spec fn spec_deps(&self) -> Seq<(Seq<char>, Seq<char>, Seq<(Seq<char>, Seq<char>)>)> {
        self.deps@.map_values(|d: (String, ResolvedDependency)| resolved_view(d))
    }

    /// The packages brought in, whole, in the same order.
    pub closed spec fn spec_packages(&self) -> Seq<Package> {
        self.deps@.map_values(|d: (String, ResolvedDependency)| d.1.package)
    }

    /// How deep resolution may go.
    pub closed spec fn spec_max_depth(&self) -> usize {
        self.max_depth
    }

    /// No name is brought in twice.
    pub open spec fn wf(&self) -> bool {
        resolved_names_distinct(self.spec_deps())
    }

    /// An empty resolution that goes at most 100 levels deep.
    pub fn new() -> (r: Self)
        ensures
            r.wf(),
            r.spec_deps().len() == 0,
            r.spec_max_depth() == 100,
    {
        let r = DependencyResolution { deps: Vec::new(), max_depth: 100 };
        assert(r.spec_deps() =~= Seq::empty());
        r
    }

    /// How deep resolution may go.
    pub fn max_depth(&self) -> (r: usize)
        ensures
            r == self.spec_max_depth(),
    {
        self.max_depth
    }

    /// The number of packages brought in.
    pub fn len(&self) -> (r: usize)
        ensures
            r == self.spec_deps().len(),
    {
        self.deps.len()
    }

    fn find(&self, name: &str) -> (r: Option<usize>)
        ensures
            match r {
                Some(i) => i < self.deps@.len() && i as int == resolved_index(self.spec_deps(), name@),
                None => resolved_index(self.spec_deps(), name@) == -1,
            },
    {
        let ghost v = self.spec_deps();
        proof {
            assert(v.subrange(0, v.len() as int) =~= v);
        }
        let mut i: usize = self.deps.len();
        while i > 0
            invariant
                i <= self.deps@.len(),
                v == self.spec_deps(),
                resolved_index(v, name@) == resolved_index(v.subrange(0, i as int), name@),
            decreases i,
        {
            let ghost pre = v.subrange(0, i as int);
            if str_eq(self.deps[i - 1].0.as_str(), name) {
                proof {
                    assert(pre.last() == v[i - 1]);
                }
                return Some(i - 1);
            }
            proof {
                assert(pre.drop_last() =~= v.subrange(0, i - 1));
            }
            i = i - 1;
        }
        None
    }

    /// Whether a package of that name was brought in.
    pub fn contains(&self, name: &str) -> (r: bool)
        ensures
            r == (resolved_index(self.spec_deps(), name@) >= 0),
    {
        self.find(name).is_some()
    }

    /// The package of that name, if it was brought in.
    pub fn get(&self, name: &str) -> (r: Option<&Package>)
        ensures
            resolved_index(self.spec_deps(), name@) >= 0 ==> (r matches Some(p) && pairs_view(p.dependencies@)
                == self.spec_deps()[resolved_index(self.spec_deps(), name@)].2 && *p == self.spec_packages()[resolved_index(
                self.spec_deps(),
                name@,
            )]),
            resolved_index(self.spec_deps(), name@) < 0 ==> r is None,
    {
        match self.find(name) {
            Some(i) => Some(&self.deps[i].1.package),
            None => None,
        }
    }

    /// The package of that name: the one brought in already, or else the one
    /// `fetch` gives for the name and version, which is brought in under them.
    /// A failed fetch fails with its error and brings nothing in.
    pub fn add_dependency<F: Fn(&str, &str) -> Result<Package, IoError>>(&mut self, name: &str, version: &str, fetch: &F) -> (r: Result<&Package, IoError>)
        requires
            old(self).wf(),
            forall|n: &str, v: &str| #[trigger] fetch.requires((n, v)),
        ensures
            final(self).wf(),
            final(self).spec_max_depth() == old(self).spec_max_depth(),
            resolved_index(old(self).spec_deps(), name@) >= 0 ==> final(self).spec_deps() == old(self).spec_deps()
                && final(self).spec_packages() == old(self).spec_packages()
                && (r matches Ok(p) && pairs_view(p.dependencies@) == old(self).spec_deps()[resolved_index(
                old(self).spec_deps(),
                name@,
            )].2 && *p == old(self).spec_packages()[resolved_index(old(self).spec_deps(), name@)]),
            resolved_index(old(self).spec_deps(), name@) < 0 ==> match r {
                Ok(p) => fetch.ensures((name, version), Ok::<Package, IoError>(*p)) && final(self).spec_deps()
                    == old(self).spec_deps().push((name@, version@, pairs_view(p.dependencies@)))
                    && final(self).spec_packages() == old(self).spec_packages().push(*p),
                Err(e) => fetch.ensures((name, version), Err::<Package, IoError>(e)) && final(self).spec_deps()
                    == old(self).spec_deps() && final(self).spec_packages() == old(self).spec_packages(),
            },
    {
        match self.find(name) {
            Some(i) => {
                proof {
                    assert(self.spec_deps()[i as int] == resolved_view(self.deps@[i as int]));
                    assert(self.spec_packages()[i as int] == self.deps@[i as int].1.package);
                }
                Ok(&self.deps[i].1.package)
            },
            None => match fetch(name, version) {
                Ok(p) => {
                    self.store(name, version, p);
                    let n = self.deps.len();
                    proof {
                        assert(self.spec_deps()[n - 1] == resolved_view(self.deps@[n - 1]));
                        assert(self.spec_packages() =~= old(self).spec_packages().push(p));
                    }
                    Ok(&self.deps[n - 1].1.package)
                },
                Err(e) => Err(e),
            },
        }
    }

    /// Brings in a package under a name asked for at a version; a name already
    /// brought in keeps its package.
    fn store(&mut self, name: &str, version: &str, package: Package)
        requires
            old(self).wf(),
        ensures
            final(self).wf(),
            final(self).spec_max_depth() == old(self).spec_max_depth(),
            resolved_index(old(self).spec_deps(), name@) >= 0 ==> final(self).spec_deps() == old(self).spec_deps(),
            resolved_index(old(self).spec_deps(), name@) < 0 ==> final(self).spec_deps() == old(self).spec_deps().push(
                (name@, version@, pairs_view(package.dependencies@)),
            ),
            resolved_index(old(self).spec_deps(), name@) < 0 ==> final(self).deps@.len() > 0
                && final(self).deps@.last().1.package == package && final(self).deps@.drop_last() == old(self).deps@,
            resolved_index(old(self).spec_deps(), name@) >= 0 ==> final(self).deps@ == old(self).deps@,
    {
        if self.find(name).is_some() {
            return;
        }
        let ghost before = self.spec_deps();
        proof {
            lemma_resolved_index(before, name@);
        }
        let entry = (to_owned_string(name), ResolvedDependency { package, version: to_owned_string(version) });
        self.deps.push(entry);
        proof {
            assert(self.deps@.drop_last() =~= old(self).deps@);
            assert(self.spec_deps() =~= before.push((name@, version@, pairs_view(package.dependencies@))));
            let d = self.spec_deps();
            assert forall|i: int, j: int| 0 <= i < j < d.len() implies #[trigger] d[i].0 != #[trigger] d[j].0 by {
                if j == d.len() - 1 {
                    assert(d[i] == before[i]);
                } else {
                    assert(d[i] == before[i]);
                    assert(d[j] == before[j]);
                }
            }
        }
    }

    /// Checks that no package was brought in at two versions ("Version conflict
    /// for package {name}"); as each name is brought in once, this always holds.
    pub fn validate(&self) -> (r: Result<(), IoError>)
        requires
            self.wf(),
        ensures
            r is Ok,
    {
        let ghost d = self.spec_deps();
        let mut i: usize = 0;
        while i < self.deps.len()
            invariant
                i <= self.deps@.len(),
                d == self.spec_deps(),
                self.wf(),
            decreases self.deps.len() - i,
        {
            let mut j: usize = 0;
            while j < i
                invariant
                    j <= i < self.deps@.len(),
                    d == self.spec_deps(),
                    self.wf(),
                decreases i - j,
            {
                if str_eq(self.deps[i].0.as_str(), self.deps[j].0.as_str())
                    && !str_eq(self.deps[i].1.version.as_str(), self.deps[j].1.version.as_str()) {
                    proof {
                        assert(d[j as int].0 == self.deps@[j as int].0@);
                        assert(d[i as int].0 == self.deps@[i as int].0@);
                    }
                    let mut m = to_owned_string("Version conflict for package ");
                    push_str(&mut m, self.deps[i].0.as_str());
                    return Err(IoError::validation_error(m.as_str()));
                }
                j = j + 1;
            }
            i = i + 1;
        }
        Ok(())
    }
}


/// Appending to the resolved packages keeps a name that was resolved.
proof fn lemma_resolved_prefix(
    v: Seq<(Seq<char>, Seq<char>, Seq<(Seq<char>, Seq<char>)>)>,
    w: Seq<(Seq<char>, Seq<char>, Seq<(Seq<char>, Seq<char>)>)>,
    name: Seq<char>,
)
    requires
        v.len() <= w.len(),
        w.subrange(0, v.len() as int) == v,
        resolved_index(v, name) >= 0,
    ensures
        resolved_index(w, name) >= 0,
    decreases w.len(),
{
    if w.len() > v.len() && w.last().0 != name {
        assert(w.drop_last().subrange(0, v.len() as int) =~= w.subrange(0, v.len() as int));
        lemma_resolved_prefix(v, w.drop_last(), name);
    } else if w.len() == v.len() {
        assert(w =~= v);
    }
}

/// Every package resolved from the `s`-th on has each of its own dependencies
/// resolved too.
pub open spec fn closed_from(d: Seq<(Seq<char>, Seq<char>, Seq<(Seq<char>, Seq<char>)>)>, s: int) -> bool {
    forall|t: int, k: int|
        #![trigger d[t].2[k]]
        s <= t < d.len() && 0 <= k < d[t].2.len() ==> resolved_index(d, d[t].2[k].0) >= 0
}

/// Resolves the dependencies `deps` of a package at `depth`, and theirs in
/// turn, depth first: each is brought in with
/// [`DependencyResolution::add_dependency`] (fetched with `fetch` when its name
/// is new) and its own dependencies are resolved one level deeper; past the
/// depth limit, "Maximum dependency depth exceeded". `root` is the list of the
/// package resolution started from.
fn resolve_recursive<F: Fn(&str, &str) -> Result<Package, IoError>>(
    deps: &Vec<(String, String)>,
    resolution: &mut DependencyResolution,
    depth: usize,
    limit: usize,
    fetch: &F,
    Ghost(root): Ghost<Seq<(Seq<char>, Seq<char>)>>,
) -> (r: Result<(), IoError>)
    requires
        old(resolution).wf(),
        old(resolution).spec_max_depth() == limit,
        depth <= limit + 1,
        limit < usize::MAX,
        forall|n: &str, v: &str| #[trigger] fetch.requires((n, v)),
        listed_in(root, old(resolution).spec_deps(), pairs_view(deps@)),
        all_sourced(fetch, root, old(resolution).spec_deps()),
    ensures
        final(resolution).wf(),
        final(resolution).spec_max_depth() == limit,
        extends(old(resolution).spec_deps(), final(resolution).spec_deps()),
        all_sourced(fetch, root, final(resolution).spec_deps()),
        r is Ok ==> walk_ok(final(resolution).spec_deps(), pairs_view(deps@), 0, depth as nat, limit as nat),
        r is Ok ==> forall|k: int|
            0 <= k < deps@.len() ==> resolved_index(final(resolution).spec_deps(), (#[trigger] deps@[k]).0@) >= 0,
        r is Ok ==> closed_from(final(resolution).spec_deps(), old(resolution).spec_deps().len() as int),
        r matches Err(e) ==> (e.spec_kind() == ErrorKind::ValidationError && e.spec_message() == depth_exceeded()
            && walk(final(resolution).spec_deps(), pairs_view(deps@), 0, depth as nat, limit as nat) is TooDeep)
            || fetch_failed(fetch, root, final(resolution).spec_deps(), e),
        depth > limit ==> (r matches Err(e) && e.spec_kind() == ErrorKind::ValidationError && e.spec_message()
            == depth_exceeded()),
        deps@.len() == 0 && depth <= limit ==> r is Ok,
    decreases limit + 1 - depth,
{
    let ghost pv = pairs_view(deps@);
    if depth > limit {
        proof {
            assert(resolution.spec_deps().subrange(0, resolution.spec_deps().len() as int) =~= resolution.spec_deps());
        }
        return Err(IoError::validation_error("Maximum dependency depth exceeded"));
    }
    let ghost start = resolution.spec_deps();
    let mut i: usize = 0;
    proof {
        assert(resolution.spec_deps().subrange(0, start.len() as int) =~= start);
    }
    while i < deps.len()
        invariant
            i <= deps@.len(),
            depth <= limit,
            limit < usize::MAX,
            pv == pairs_view(deps@),
            resolution.wf(),
            resolution.spec_max_depth() == limit,
            start == old(resolution).spec_deps(),
            extends(start, resolution.spec_deps()),
            forall|n: &str, v: &str| #[trigger] fetch.requires((n, v)),
            listed_in(root, resolution.spec_deps(), pv),
            all_sourced(fetch, root, resolution.spec_deps()),
            forall|k: int| 0 <= k < i ==> #[trigger] item_ok(resolution.spec_deps(), pv, k, depth as nat, limit as nat),
            closed_from(resolution.spec_deps(), start.len() as int),
        decreases deps.len() - i,
    {
        let ghost before = resolution.spec_deps();
        proof {
            assert(pv[i as int] == (deps@[i as int].0@, deps@[i as int].1@));
            lemma_resolved_index(before, deps@[i as int].0@);
        }
        let child = match resolution.add_dependency(deps[i].0.as_str(), deps[i].1.as_str(), fetch) {
            Ok(p) => copy_pairs(&p.dependencies),
            Err(e) => {
                proof {
                    assert(resolution.spec_deps() == before);
                    assert(pv.contains((deps@[i as int].0@, deps@[i as int].1@)));
                    if pv != root {
                        let t = choose|t: int| 0 <= t < before.len() && #[trigger] before[t].2 == pv;
                        assert(before[t].2.contains((deps@[i as int].0@, deps@[i as int].1@)));
                    }
                    assert(requested(root, before, deps[i as int].0@, deps[i as int].1@));
                    assert(fetch_failed(fetch, root, before, e));
                }
                return Err(e);
            },
        };
        let ghost mid = resolution.spec_deps();
        let ghost idx = resolved_index(mid, deps@[i as int].0@);
        proof {
            lemma_resolved_index(mid, deps@[i as int].0@);
            assert(extends(before, mid)) by {
                assert(mid.subrange(0, before.len() as int) =~= before);
            }
            lemma_sourced_extends(fetch, root, before, mid, pv);
            assert(mid[idx].2 == pairs_view(child@));
            if mid.len() > before.len() {
                // A package fetched now: what fetch gave, for a pair of the list.
                assert(idx == before.len());
                assert(pv.contains((mid[idx].0, mid[idx].1)));
                if pv != root {
                    let t = choose|t: int| 0 <= t < before.len() && #[trigger] before[t].2 == pv;
                    assert(mid[t] == before[t]);
                }
                assert(requested(root, mid, mid[idx].0, mid[idx].1));
                assert forall|t: int| 0 <= t < mid.len() implies fetched_as(fetch, #[trigger] mid[t])
                    && requested(root, mid, mid[t].0, mid[t].1) by {
                    if t < before.len() {
                        assert(requested(root, before, before[t].0, before[t].1));
                    }
                }
            }
            assert(all_sourced(fetch, root, mid));
            assert(listed_in(root, mid, pairs_view(child@)));
            assert(mid.subrange(0, start.len() as int) =~= start);
        }
        match resolve_recursive(&child, resolution, depth + 1, limit, fetch, Ghost(root)) {
            Err(e) => {
                proof {
                    let now = resolution.spec_deps();
                    assert(now.subrange(0, start.len() as int) =~= start) by {
                        assert(now.subrange(0, start.len() as int) =~= now.subrange(0, mid.len() as int).subrange(0, start.len() as int));
                    }
                    if e.spec_kind() == ErrorKind::ValidationError && e.spec_message() == depth_exceeded()
                        && walk(now, pairs_view(child@), 0, (depth + 1) as nat, limit as nat) is TooDeep {
                        lemma_resolved_index_extends(mid, now, deps@[i as int].0@);
                        assert(now[idx] == now.subrange(0, mid.len() as int)[idx]);
                        assert forall|k: int| 0 <= k < i implies #[trigger] item_ok(now, pv, k, depth as nat, limit as nat) by {
                            assert(item_ok(before, pv, k, depth as nat, limit as nat));
                            assert(extends(before, now)) by {
                                assert(now.subrange(0, before.len() as int) =~= now.subrange(0, mid.len() as int).subrange(0, before.len() as int));
                            }
                            lemma_resolved_index_extends(before, now, pv[k].0);
                            let kk = resolved_index(before, pv[k].0);
                            lemma_resolved_index(before, pv[k].0);
                            assert(now[kk] == now.subrange(0, before.len() as int)[kk]);
                            lemma_walk_extends(before, now, before[kk].2, 0, (depth + 1) as nat, limit as nat);
                        }
                        lemma_walk_items(now, pv, i as nat, depth as nat, limit as nat);
                    }
                }
                return Err(e);
            },
            Ok(()) => {},
        }
        proof {
            let now = resolution.spec_deps();
            assert(extends(mid, now));
            assert(now.subrange(0, before.len() as int) =~= now.subrange(0, mid.len() as int).subrange(0, before.len() as int));
            assert(now.subrange(0, start.len() as int) =~= now.subrange(0, mid.len() as int).subrange(0, start.len() as int));
            lemma_sourced_extends(fetch, root, mid, now, pv);
            lemma_resolved_index_extends(mid, now, deps@[i as int].0@);
            assert(now[idx] == now.subrange(0, mid.len() as int)[idx]);
            assert forall|k: int| 0 <= k < i + 1 implies #[trigger] item_ok(now, pv, k, depth as nat, limit as nat) by {
                if k < i {
                    assert(item_ok(before, pv, k, depth as nat, limit as nat));
                    lemma_resolved_index_extends(before, now, pv[k].0);
                    let kk = resolved_index(before, pv[k].0);
                    lemma_resolved_index(before, pv[k].0);
                    assert(now[kk] == now.subrange(0, before.len() as int)[kk]);
                    lemma_walk_extends(before, now, before[kk].2, 0, (depth + 1) as nat, limit as nat);
                }
            }
            assert forall|t: int, k: int|
                #![trigger now[t].2[k]]
                start.len() <= t < now.len() && 0 <= k < now[t].2.len() implies resolved_index(now, now[t].2[k].0) >= 0 by {
                if t < before.len() {
                    assert(now[t] == now.subrange(0, before.len() as int)[t]);
                    assert(resolved_index(before, before[t].2[k].0) >= 0);
                    lemma_resolved_prefix(before, now, before[t].2[k].0);
                } else if t < mid.len() {
                    assert(now[t] == now.subrange(0, mid.len() as int)[t]);
                    assert(t == idx);
                    assert(pairs_view(child@)[k] == (child@[k].0@, child@[k].1@));
                    assert(resolved_index(now, child@[k].0@) >= 0);
                }
            }
        }
        i = i + 1;
    }
    proof {
        lemma_walk_items(resolution.spec_deps(), pv, i as nat, depth as nat, limit as nat);
        assert forall|k: int| 0 <= k < deps@.len() implies resolved_index(resolution.spec_deps(), (#[trigger] deps@[k]).0@) >= 0 by {
            assert(item_ok(resolution.spec_deps(), pv, k, depth as nat, limit as nat));
            assert(pv[k] == (deps@[k].0@, deps@[k].1@));
        }
    }
    Ok(())
}

impl Package {
    /// Resolves the dependencies of the package, and theirs in turn, depth
    /// first, at most 100 levels deep: each name is brought in once, with the
    /// package `fetch` gives for its name and version requirement; a dependency
    /// cycle or a chain deeper than the limit gives "Maximum dependency depth
    /// exceeded", and a failed fetch fails with its error. The resolution is
    /// then validated.
    pub fn resolve_dependencies<F: Fn(&str, &str) -> Result<Package, IoError>>(&self, fetch: &F) -> (r: Result<
        DependencyResolution,
        IoError,
    >)
        requires
            forall|n: &str, v: &str| #[trigger] fetch.requires((n, v)),
        ensures
            self.dependencies@.len() == 0 ==> r is Ok,
            r matches Ok(res) ==> res.wf() && res.spec_max_depth() == 100 && forall|k: int|
                0 <= k < self.dependencies@.len() ==> resolved_index(
                    res.spec_deps(),
                    (#[trigger] self.dependencies@[k]).0@,
                ) >= 0,
            r matches Ok(res) ==> closed_from(res.spec_deps(), 0),
            r matches Ok(res) ==> all_sourced(fetch, pairs_view(self.dependencies@), res.spec_deps()),
            r matches Ok(res) ==> walk_ok(res.spec_deps(), pairs_view(self.dependencies@), 0, 0, 100),
            r matches Err(e) ==> (e.spec_kind() == ErrorKind::ValidationError && e.spec_message() == depth_exceeded()
                && exists|d: Seq<Resolved>|
                resolved_names_distinct(d) && all_sourced(fetch, pairs_view(self.dependencies@), d) && walk(
                    d,
                    pairs_view(self.dependencies@),
                    0,
                    0,
                    100,
                ) is TooDeep) || exists|d: Seq<Resolved>|
                resolved_names_distinct(d) && all_sourced(fetch, pairs_view(self.dependencies@), d) && fetch_failed(
                    fetch,
                    pairs_view(self.dependencies@),
                    d,
                    e,
                ),
    {
        let mut resolution = DependencyResolution::new();
        let ghost root = pairs_view(self.dependencies@);
        match resolve_recursive(&self.dependencies, &mut resolution, 0, 100, fetch, Ghost(root)) {
            Err(e) => {
                return Err(e);
            },
            Ok(()) => {},
        }
        match resolution.validate() {
            Err(e) => Err(e),
            Ok(()) => Ok(resolution),
        }
    }
}

/// A package whose dependencies are being walked: its dependencies, the index of
/// the next one, and its depth.
struct Frame {
    deps: Vec<(String, String)>,
    next: usize,
    depth: usize,
}

/// What the resolver asks for after a step.
#[derive(Debug)]
pub enum ResolveStep {
    /// The package of this name is needed, at this version requirement; hand it
    /// to [`Resolver::fetched`].
    Fetch { name: String, version: String },
    /// Step again.
    Continue,
    /// Every dependency is resolved.
    Done,
    /// Resolution failed.
    Failed(IoError),
}

/// The depth-first walk over the dependencies of a package.
pub struct Resolver {
    frames: Vec<Frame>,
    max_depth: usize,
}

/// The abstract value of a frame.
spec fn frame_view(f: Frame) -> (Seq<(Seq<char>, Seq<char>)>, nat, nat) {
    (pairs_view(f.deps@), f.next as nat, f.depth as nat)
}

/// The message when resolution goes too deep.
pub open spec fn depth_exceeded() -> Seq<char> {
    "Maximum dependency depth exceeded"@
}

impl Resolver {
    /// The packages being walked, outermost first.
    pub closed spec fn spec_frames(&self) -> Seq<(Seq<(Seq<char>, Seq<char>)>, nat, nat)> {
        self.frames@.map_values(|f: Frame| frame_view(f))
    }

    /// How deep the walk may go.
    pub closed spec fn spec_max_depth(&self) -> nat {
        self.max_depth as nat
    }

    /// Frames are no deeper than one level past the limit, which leaves room to
    /// count.
    pub open spec fn wf(&self) -> bool {
        &&& self.spec_max_depth() < usize::MAX
        &&& forall|k: int| 0 <= k < self.spec_frames().len() ==> (#[trigger] self.spec_frames()[k]).2
            <= self.spec_max_depth() + 1
        &&& forall|k: int| 0 <= k < self.spec_frames().len() ==> (#[trigger] self.spec_frames()[k]).1
            <= self.spec_frames()[k].0.len()
    }

    /// A walk that starts at the dependencies of `root`, at depth 0.
    pub fn start(root: &Package, max_depth: usize) -> (r: Self)
        requires
            max_depth < usize::MAX,
        ensures
            r.wf(),
            r.spec_max_depth() == max_depth,
            r.spec_frames() == seq![(pairs_view(root.dependencies@), 0nat, 0nat)],
    {
        let mut frames: Vec<Frame> = Vec::new();
        frames.push(Frame { deps: copy_pairs(&root.dependencies), next: 0, depth: 0 });
        let r = Resolver { frames, max_depth };
        assert(r.spec_frames() =~= seq![(pairs_view(root.dependencies@), 0nat, 0nat)]);
        r
    }

    /// One step of the walk: a package deeper than the limit fails; a package whose
    /// dependencies are all walked is left; the next dependency is walked into when
    /// it is already resolved, and asked for otherwise.
    pub fn step(&mut self, resolution: &DependencyResolution) -> (r: ResolveStep)
        requires
            old(self).wf(),
        ensures
            final(self).wf(),
            final(self).spec_max_depth() == old(self).spec_max_depth(),
            ({
                let fs = old(self).spec_frames();
                if fs.len() == 0 {
                    r is Done && final(self).spec_frames() == fs
                } else {
                    let top = fs.last();
                    if top.2 > old(self).spec_max_depth() {
                        final(self).spec_frames() == fs && (r matches ResolveStep::Failed(e)
                            && e.spec_kind() == ErrorKind::ValidationError && e.spec_message() == depth_exceeded())
                    } else if top.1 >= top.0.len() {
                        r is Continue && final(self).spec_frames() == fs.drop_last()
                    } else {
                        let (name, version) = top.0[top.1 as int];
                        let k = resolved_index(resolution.spec_deps(), name);
                        if k >= 0 {
                            r is Continue && final(self).spec_frames() == fs.drop_last().push((top.0, top.1 + 1, top.2)).push(
                                (resolution.spec_deps()[k].2, 0nat, top.2 + 1),
                            )
                        } else {
                            final(self).spec_frames() == fs && (r matches ResolveStep::Fetch { name: n, version: v }
                                && n@ == name && v@ == version)
                        }
                    }
                }
            }),
    {
        let ghost fs = self.spec_frames();
        let n = self.frames.len();
        if n == 0 {
            return ResolveStep::Done;
        }
        let depth = self.frames[n - 1].depth;
        if depth > self.max_depth {
            return ResolveStep::Failed(IoError::validation_error("Maximum dependency depth exceeded"));
        }
        let next = self.frames[n - 1].next;
        if next >= self.frames[n - 1].deps.len() {
            let _ = self.frames.pop();
            proof {
                assert(self.spec_frames() =~= fs.drop_last());
            }
            return ResolveStep::Continue;
        }
        let name = self.frames[n - 1].deps[next].0.clone();
        let version = self.frames[n - 1].deps[next].1.clone();
        match resolution.get(name.as_str()) {
            Some(p) => {
                let child = Frame { deps: copy_pairs(&p.dependencies), next: 0, depth: depth + 1 };
                let mut top = self.frames.pop().unwrap();
                top.next = next + 1;
                self.frames.push(top);
                self.frames.push(child);
                proof {
                    assert(self.spec_frames() =~= fs.drop_last().push((fs.last().0, fs.last().1 + 1, fs.last().2)).push(
                        (resolution.spec_deps()[resolved_index(resolution.spec_deps(), name@)].2, 0nat, fs.last().2 + 1),
                    ));
                }
                ResolveStep::Continue
            },
            None => ResolveStep::Fetch { name, version },
        }
    }

    /// Takes the package the last step asked for: it is brought in under the
    /// asked name and version, and its dependencies are walked next.
    pub fn fetched(&mut self, resolution: &mut DependencyResolution, package: Package)
        requires
            old(self).wf(),
            old(resolution).wf(),
            old(self).spec_frames().len() > 0,
            old(self).spec_frames().last().2 <= old(self).spec_max_depth(),
            old(self).spec_frames().last().1 < old(self).spec_frames().last().0.len(),
        ensures
            final(self).wf(),
            final(resolution).wf(),
            final(self).spec_max_depth() == old(self).spec_max_depth(),
            ({
                let fs = old(self).spec_frames();
                let top = fs.last();
                let (name, version) = top.0[top.1 as int];
                &&& resolved_index(old(resolution).spec_deps(), name) >= 0 ==> final(resolution).spec_deps()
                    == old(resolution).spec_deps()
                &&& resolved_index(old(resolution).spec_deps(), name) < 0 ==> final(resolution).spec_deps()
                    == old(resolution).spec_deps().push((name, version, pairs_view(package.dependencies@)))
                &&& final(self).spec_frames() == fs.drop_last().push((top.0, top.1 + 1, top.2)).push(
                    (pairs_view(package.dependencies@), 0nat, top.2 + 1),
                )
            }),
    {
        let ghost fs = self.spec_frames();
        let n = self.frames.len();
        proof {
            assert(fs.last() == frame_view(self.frames@[n - 1]));
        }
        let next = self.frames[n - 1].next;
        let depth = self.frames[n - 1].depth;
        let dl = self.frames[n - 1].deps.len();
        proof {
            assert(pairs_view(self.frames@[n - 1].deps@).len() == self.frames@[n - 1].deps@.len());
            assert(next < dl);
        }
        let name = self.frames[n - 1].deps[next].0.clone();
        let version = self.frames[n - 1].deps[next].1.clone();
        let child = Frame { deps: copy_pairs(&package.dependencies), next: 0, depth: depth + 1 };
        resolution.store(name.as_str(), version.as_str(), package);
        let mut top = self.frames.pop().unwrap();
        top.next = next + 1;
        self.frames.push(top);
        self.frames.push(child);
        proof {
            assert(self.spec_frames() =~= fs.drop_last().push((fs.last().0, fs.last().1 + 1, fs.last().2)).push(
                (pairs_view(package.dependencies@), 0nat, fs.last().2 + 1),
            ));
        }
    }
}

} // verus!
