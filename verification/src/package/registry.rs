//! The package registry: the published versions of each package, the choice of
//! the best version for a requirement, and checksums of manifests.
use vstd::prelude::*;
use crate::error::{IoError, ErrorKind};
use crate::package::{
    Package, pairs_view, copy_pairs, valid_name, valid_version, is_valid_package_name,
    is_valid_version, depth_exceeded,
};
use crate::text::{push_str, push_char, to_owned_string, str_eq};

verus! {

/// A published version of a package: its version text, its dependencies and the
/// checksum of its manifest.
#[derive(Debug)]
pub struct PackageVersion {
    pub version: String,
    pub dependencies: Vec<(String, String)>,
    pub checksum: String,
}

/// The published packages, each name with its versions in the order they were
/// published.
#[derive(Debug)]
pub struct PackageRegistry {
    packages: Vec<(String, Vec<PackageVersion>)>,
    index_path: String,
}

/// Whether the text parses as a semantic version (`semver::Version::parse`).
pub uninterp spec fn version_parses(v: Seq<char>) -> bool;

/// The message of the error of `semver::VersionReq::parse` on the text, or `None`
/// when it parses.
pub uninterp spec fn req_parse_error(req: Seq<char>) -> Option<Seq<char>>;

/// Whether the version satisfies the requirement (`semver::VersionReq::matches`),
/// for texts that both parse.
pub uninterp spec fn req_matches(req: Seq<char>, version: Seq<char>) -> bool;

/// How two versions compare by the total order of `semver::Version` (`Ord`,
/// which after precedence also compares build metadata): -1, 0 or 1.
pub uninterp spec fn version_order(a: Seq<char>, b: Seq<char>) -> i8;

/// The lower-case hexadecimal SHA-256 digest of the bytes.
pub uninterp spec fn sha256_hex(data: Seq<u8>) -> Seq<char>;

/// Parses the text with `semver::Version::parse`; the contract names whether it
/// parses.
#[verifier::external_body]
fn semver_version_parses(v: &str) -> (r: bool)
    ensures
        r == version_parses(v@),
{
    semver::Version::parse(v).is_ok()
}

/// Parses the requirement with `semver::VersionReq::parse` and gives the error's
/// text; the contract names the result.
#[verifier::external_body]
fn semver_req_error(req: &str) -> (r: Option<String>)
    ensures
        match r {
            Some(s) => req_parse_error(req@) == Some(s@),
            None => req_parse_error(req@) is None,
        },
{
    match semver::VersionReq::parse(req) {
        Ok(_) => None,
        Err(e) => Some(e.to_string()),
    }
}

/// `semver::VersionReq::matches` on the parsed texts; the contract names the
/// result.
#[verifier::external_body]
fn semver_matches(req: &str, version: &str) -> (r: bool)
    requires
        req_parse_error(req@) is None,
        version_parses(version@),
    ensures
        r == req_matches(req@, version@),
{
    match (semver::VersionReq::parse(req), semver::Version::parse(version)) {
        (Ok(q), Ok(v)) => q.matches(&v),
        _ => false,
    }
}

/// `semver::Version::cmp` on the parsed texts, as -1, 0 or 1; the contract names
/// the result.
#[verifier::external_body]
fn semver_order(a: &str, b: &str) -> (r: i8)
    requires
        version_parses(a@),
        version_parses(b@),
    ensures
        r == version_order(a@, b@),
{
    match (semver::Version::parse(a), semver::Version::parse(b)) {
        (Ok(x), Ok(y)) => match x.cmp(&y) {
            std::cmp::Ordering::Less => -1,
            std::cmp::Ordering::Equal => 0,
            std::cmp::Ordering::Greater => 1,
        },
        _ => 0,
    }
}

/// The SHA-256 digest of the bytes (`sha2::Sha256::digest`) in lower-case
/// hexadecimal; a digest has 32 bytes, so the text has 64 characters.
#[verifier::external_body]
fn sha256_hex_of(data: &[u8]) -> (r: String)
    ensures
        r@ == sha256_hex(data@),
        r@.len() == 64,
{
    format!("{:x}", <sha2::Sha256 as sha2::Digest>::digest(data))
}

/// The checksum of the data: its SHA-256 digest in hexadecimal.
pub fn checksum(data: &[u8]) -> (r: String)
    ensures
        r@ == sha256_hex(data@),
        r@.len() == 64,
{
    sha256_hex_of(data)
}

/// Whether the data's checksum is the expected one; a mismatch is an error.
pub fn verify_checksum(data: &[u8], expected: &str) -> (r: Result<(), IoError>)
    ensures
        sha256_hex(data@) == expected@ ==> r is Ok,
        sha256_hex(data@) != expected@ ==> (r matches Err(e) && e.spec_kind() == ErrorKind::ValidationError
            && e.spec_message() == "Package checksum mismatch"@),
{
    let hash = checksum(data);
    if str_eq(hash.as_str(), expected) {
        Ok(())
    } else {
        Err(IoError::validation_error("Package checksum mismatch"))
    }
}

/// The manifest text a package's checksum is taken of: the name and the version
/// on lines of their own, then one `name=requirement` line per dependency.
pub open spec fn manifest_text(p: Package) -> Seq<char> {
    p.name@ + seq!['\n'] + p.version@ + seq!['\n'] + dependency_lines(pairs_view(p.dependencies@))
}

/// One `name=requirement` line per dependency.
pub open spec fn dependency_lines(v: Seq<(Seq<char>, Seq<char>)>) -> Seq<char>
    decreases v.len(),
{
    if v.len() == 0 {
        Seq::empty()
    } else {
        dependency_lines(v.drop_last()) + v.last().0 + seq!['='] + v.last().1 + seq!['\n']
    }
}

/// The manifest text of a package.
pub fn manifest(p: &Package) -> (r: String)
    ensures
        r@ == manifest_text(*p),
{
    let mut s = p.name.clone();
    push_char(&mut s, '\n');
    push_str(&mut s, p.version.as_str());
    push_char(&mut s, '\n');
    let ghost head = s@;
    let ghost deps = pairs_view(p.dependencies@);
    let mut i: usize = 0;
    while i < p.dependencies.len()
        invariant
            i <= p.dependencies@.len(),
            deps == pairs_view(p.dependencies@),
            head == p.name@ + seq!['\n'] + p.version@ + seq!['\n'],
            s@ == head + dependency_lines(deps.subrange(0, i as int)),
        decreases p.dependencies.len() - i,
    {
        push_str(&mut s, p.dependencies[i].0.as_str());
        push_char(&mut s, '=');
        push_str(&mut s, p.dependencies[i].1.as_str());
        push_char(&mut s, '\n');
        proof {
            assert(deps.subrange(0, i + 1).drop_last() =~= deps.subrange(0, i as int));
            assert(s@ =~= head + dependency_lines(deps.subrange(0, i + 1)));
        }
        i = i + 1;
    }
    proof {
        assert(deps.subrange(0, deps.len() as int) =~= deps);
    }
    s
}

/// The index of the best version for a requirement among `versions` from `i` on,
/// given the best so far: a later version that parses and satisfies the
/// requirement replaces the best unless the best is greater.
pub open spec fn best_from(versions: Seq<Seq<char>>, req: Seq<char>, i: nat, best: Option<int>) -> Option<int>
    decreases versions.len() - i,
{
    if i >= versions.len() {
        best
    } else if version_parses(versions[i as int]) && req_matches(req, versions[i as int]) {
        let next = match best {
            None => Some(i as int),
            Some(b) => if version_order(versions[b], versions[i as int]) == 1 { Some(b) } else { Some(i as int) },
        };
        best_from(versions, req, i + 1, next)
    } else {
        best_from(versions, req, i + 1, best)
    }
}

/// The version texts of published versions.
pub open spec fn version_texts(v: Seq<PackageVersion>) -> Seq<Seq<char>> {
    v.map_values(|pv: PackageVersion| pv.version@)
}

/// The index of the package with the name, or -1.
pub open spec fn package_index(v: Seq<(String, Vec<PackageVersion>)>, name: Seq<char>) -> int
    decreases v.len(),
{
    if v.len() == 0 {
        -1
    } else if v.last().0@ == name {
        v.len() - 1
    } else {
        package_index(v.drop_last(), name)
    }
}

/// Where the package with the name stands.
pub proof fn lemma_package_index(v: Seq<(String, Vec<PackageVersion>)>, name: Seq<char>)
    ensures
        -1 <= package_index(v, name) < v.len(),
        package_index(v, name) >= 0 ==> v[package_index(v, name)].0@ == name,
        package_index(v, name) < 0 ==> forall|k: int| 0 <= k < v.len() ==> (#[trigger] v[k]).0@ != name,
    decreases v.len(),
{
    if v.len() > 0 && v.last().0@ != name {
        lemma_package_index(v.drop_last(), name);
        if package_index(v, name) < 0 {
            assert forall|k: int| 0 <= k < v.len() implies (#[trigger] v[k]).0@ != name by {
                if k < v.len() - 1 {
                    assert(v.drop_last()[k] == v[k]);
                }
            }
        }
    }
}

/// The best version: the greatest published version that parses and satisfies
/// the requirement, the last of equals.
pub fn best_version_index(versions: &Vec<PackageVersion>, req: &str) -> (r: Option<usize>)
    requires
        req_parse_error(req@) is None,
    ensures
        match best_from(version_texts(versions@), req@, 0, None) {
            Some(b) => (r matches Some(x) && x as int == b) && 0 <= b < versions@.len() && version_parses(
                versions@[b].version@,
            ),
            None => r is None,
        },
{
    let ghost vt = version_texts(versions@);
    let mut best: Option<usize> = None;
    let mut i: usize = 0;
    while i < versions.len()
        invariant
            i <= versions@.len(),
            vt == version_texts(versions@),
            req_parse_error(req@) is None,
            match best {
                Some(b) => b < i && version_parses(vt[b as int]),
                None => true,
            },
            best_from(vt, req@, 0, None) == best_from(vt, req@, i as nat, match best {
                Some(b) => Some(b as int),
                None => None,
            }),
        decreases versions.len() - i,
    {
        let v = versions[i].version.as_str();
        if semver_version_parses(v) && semver_matches(req, v) {
            best = match best {
                None => Some(i),
                Some(b) => {
                    if semver_order(versions[b].version.as_str(), v) == 1 {
                        Some(b)
                    } else {
                        Some(i)
                    }
                },
            };
        }
        i = i + 1;
    }
    proof {
        match best {
            Some(b) => {},
            None => {},
        }
    }
    best
}

/// The message for a requirement that does not parse.
pub open spec fn invalid_requirement(m: Seq<char>) -> Seq<char> {
    "Invalid version requirement: "@ + m
}

/// The index of the best version for a requirement, as
/// [`best_version_index`] chooses it; a requirement that does not parse fails
/// with its parse error.
pub fn matching_version(versions: &Vec<PackageVersion>, version_req: &str) -> (r: Result<Option<usize>, IoError>)
    ensures
        match req_parse_error(version_req@) {
            Some(m) => r matches Err(e) && e.spec_kind() == ErrorKind::ValidationError
                && e.spec_message() == invalid_requirement(m),
            None => match best_from(version_texts(versions@), version_req@, 0, None) {
                Some(b) => r == Ok::<Option<usize>, IoError>(Some(b as usize)) && 0 <= b < versions@.len(),
                None => r == Ok::<Option<usize>, IoError>(None),
            },
        },
{
    match semver_req_error(version_req) {
        Some(e) => {
            let mut m = to_owned_string("Invalid version requirement: ");
            push_str(&mut m, e.as_str());
            Err(IoError::validation_error(m.as_str()))
        },
        None => Ok(best_version_index(versions, version_req)),
    }
}

impl PackageVersion {
    /// A copy of the published version.
    pub fn duplicate(&self) -> (r: Self)
        ensures
            r.version@ == self.version@,
            pairs_view(r.dependencies@) == pairs_view(self.dependencies@),
            r.checksum@ == self.checksum@,
    {
        PackageVersion {
            version: self.version.clone(),
            dependencies: copy_pairs(&self.dependencies),
            checksum: self.checksum.clone(),
        }
    }
}

impl PackageRegistry {
    /// The published packages.
    pub closed spec fn spec_packages(&self) -> Seq<(String, Vec<PackageVersion>)> {
        self.packages@
    }

    /// The directory of the registry's index.
    pub closed spec fn spec_index_path(&self) -> Seq<char> {
        self.index_path@
    }

    /// Each name is published under one entry.
    pub open spec fn wf(&self) -> bool {
        forall|i: int, j: int|
            0 <= i < j < self.spec_packages().len() ==> (#[trigger] self.spec_packages()[i]).0@
                != (#[trigger] self.spec_packages()[j]).0@
    }

    /// An empty registry whose index lives at the path.
    pub fn new(index_path: String) -> (r: Self)
        ensures
            r.wf(),
            r.spec_packages().len() == 0,
            r.spec_index_path() == index_path@,
    {
        PackageRegistry { packages: Vec::new(), index_path }
    }

    fn find(&self, name: &str) -> (r: Option<usize>)
        ensures
            match r {
                Some(i) => i < self.spec_packages().len() && i as int == package_index(self.spec_packages(), name@),
                None => package_index(self.spec_packages(), name@) == -1,
            },
    {
        let ghost v = self.spec_packages();
        proof {
            assert(v.subrange(0, v.len() as int) =~= v);
        }
        let mut i: usize = self.packages.len();
        while i > 0
            invariant
                i <= v.len(),
                v == self.spec_packages(),
                package_index(v, name@) == package_index(v.subrange(0, i as int), name@),
            decreases i,
        {
            let ghost pre = v.subrange(0, i as int);
            if str_eq(self.packages[i - 1].0.as_str(), name) {
                proof {
                    assert(pre.last() == v[i - 1]);
                }
                return Some(i - 1);
            }
            proof {
                assert(pre.drop_last() =~= v.subrange(0, i - 1));
            }
            i = i - 1;
        }
        None
    }

    /// The versions published under the name, if any.
    pub fn versions(&self, name: &str) -> (r: Option<&Vec<PackageVersion>>)
        ensures
            package_index(self.spec_packages(), name@) >= 0 ==> r == Some(
                &self.spec_packages()[package_index(self.spec_packages(), name@)].1,
            ),
            package_index(self.spec_packages(), name@) < 0 ==> r is None,
    {
        match self.find(name) {
            Some(i) => Some(&self.packages[i].1),
            None => None,
        }
    }

    /// Publishes a package: its name and version must be valid; its version,
    /// dependencies and the checksum of its manifest are added after the versions
    /// published under its name, or under a new entry for the name.
    pub fn publish_package(&mut self, package: &Package) -> (r: Result<(), IoError>)
        ensures
            old(self).wf() ==> final(self).wf(),
            final(self).spec_index_path() == old(self).spec_index_path(),
            !valid_name(package.name@) ==> final(self).spec_packages() == old(self).spec_packages() && (r matches Err(e)
                && e.spec_kind() == ErrorKind::ValidationError && e.spec_message() == "Invalid package name"@),
            valid_name(package.name@) && !valid_version(package.version@) ==> final(self).spec_packages()
                == old(self).spec_packages() && (r matches Err(e) && e.spec_kind() == ErrorKind::ValidationError
                && e.spec_message() == "Invalid version format"@),
            valid_name(package.name@) && valid_version(package.version@) ==> r is Ok && published(
                old(self).spec_packages(),
                final(self).spec_packages(),
                *package,
            ),
    {
        if !is_valid_package_name(package.name.as_str()) {
            return Err(IoError::validation_error("Invalid package name"));
        }
        if !is_valid_version(package.version.as_str()) {
            return Err(IoError::validation_error("Invalid version format"));
        }
        let text = manifest(package);
        let bytes = text.as_str().as_bytes();
        proof {
            assert(bytes@ == vstd::utf8::encode_utf8(manifest_text(*package)));
        }
        let sum = checksum(bytes);
        let pv = PackageVersion {
            version: package.version.clone(),
            dependencies: copy_pairs(&package.dependencies),
            checksum: sum,
        };
        let ghost old_packages = self.spec_packages();
        match self.find(package.name.as_str()) {
            Some(i) => {
                proof {
                    lemma_package_index(old_packages, package.name@);
                }
                let mut entry = (String::new(), Vec::new());
                std::mem::swap(&mut entry, &mut self.packages[i]);
                let ghost taken = entry;
                assert(taken == old_packages[i as int]);
                entry.1.push(pv);
                self.packages.set(i, entry);
                proof {
                    let after = self.spec_packages();
                    assert(after[i as int].1@.drop_last() =~= old_packages[i as int].1@);
                    assert(after.len() == old_packages.len());
                    assert forall|j: int| 0 <= j < old_packages.len() && j != i implies after[j] == old_packages[j] by {
                    }
                    assert forall|j: int| 0 <= j < after.len() implies (#[trigger] after[j]).0@ == old_packages[j].0@ by {
                    }
                }
            },
            None => {
                let mut versions: Vec<PackageVersion> = Vec::new();
                versions.push(pv);
                self.packages.push((package.name.clone(), versions));
                proof {
                    assert(self.spec_packages().drop_last() =~= old_packages);
                    lemma_package_index(old_packages, package.name@);
                    let after = self.spec_packages();
                    assert forall|j: int| 0 <= j < old_packages.len() implies (#[trigger] after[j]).0@ == old_packages[j].0@ by {
                        assert(after[j] == after.drop_last()[j]);
                    }
                }
            },
        }
        Ok(())
    }
}

impl PackageRegistry {
    /// The best published version of the package for the requirement: the
    /// greatest version that satisfies it, the last of equals.
    pub fn find_best_version(&self, name: &str, version_req: &str) -> (r: Result<&PackageVersion, IoError>)
        ensures
            r matches Ok(v) ==> version_parses(v.version@),
            match req_parse_error(version_req@) {
                Some(m) => r matches Err(e) && e.spec_kind() == ErrorKind::ValidationError
                    && e.spec_message() == "Invalid version requirement: "@ + m,
                None => {
                    let k = package_index(self.spec_packages(), name@);
                    if k < 0 {
                        r matches Err(e) && e.spec_kind() == ErrorKind::RuntimeError && e.spec_message() == "Not found: "@
                            + ("Package "@ + name@ + " not found"@)
                    } else {
                        let versions = self.spec_packages()[k].1@;
                        match best_from(version_texts(versions), version_req@, 0, None) {
                            Some(b) => r matches Ok(v) && *v == versions[b],
                            None => r matches Err(e) && e.spec_kind() == ErrorKind::RuntimeError && e.spec_message()
                                == "Not found: "@ + ("No matching version found for "@ + name@ + " @ "@ + version_req@),
                        }
                    }
                },
            },
    {
        match semver_req_error(version_req) {
            Some(e) => {
                let mut m = to_owned_string("Invalid version requirement: ");
                push_str(&mut m, e.as_str());
                return Err(IoError::validation_error(m.as_str()));
            },
            None => {},
        }
        let ghost k = package_index(self.spec_packages(), name@);
        let versions = match self.find(name) {
            Some(i) => {
                assert(self.packages@[i as int] == self.spec_packages()[k]);
                &self.packages[i].1
            },
            None => {
                let mut m = to_owned_string("Package ");
                push_str(&mut m, name);
                push_str(&mut m, " not found");
                return Err(IoError::not_found(m.as_str()));
            },
        };
        assert(versions@ == self.spec_packages()[k].1@);
        match best_version_index(versions, version_req) {
            Some(b) => {
                Ok(&versions[b])
            },
            None => {
                let mut m = to_owned_string("No matching version found for ");
                push_str(&mut m, name);
                push_str(&mut m, " @ ");
                push_str(&mut m, version_req);
                Err(IoError::not_found(m.as_str()))
            },
        }
    }

    /// The package published under the name at exactly the version, with the
    /// dependencies of the first such version and the default entry point.
    pub fn get_package(&self, name: &str, version: &str) -> (r: Option<Package>)
        ensures
            match published_version(self.spec_packages(), name@, version@) {
                Some(v) => r matches Some(p) && p.name@ == name@ && p.version@ == version@ && pairs_view(
                    p.dependencies@,
                ) == pairs_view(v.dependencies@) && p.entry_point@ == "src/main.io"@,
                None => r is None,
            },
    {
        let versions = match self.find(name) {
            Some(i) => &self.packages[i].1,
            None => return None,
        };
        let ghost vs = versions@;
        let mut i: usize = 0;
        while i < versions.len()
            invariant
                package_index(self.spec_packages(), name@) >= 0,
                vs == versions@,
                vs == self.spec_packages()[package_index(self.spec_packages(), name@)].1@,
                i <= versions@.len(),
                version_position(vs, version@, 0) == version_position(vs, version@, i as nat),
            decreases versions.len() - i,
        {
            if str_eq(versions[i].version.as_str(), version) {
                return Some(Package {
                    name: to_owned_string(name),
                    version: to_owned_string(version),
                    dependencies: copy_pairs(&versions[i].dependencies),
                    entry_point: to_owned_string("src/main.io"),
                });
            }
            i = i + 1;
        }
        None
    }
}

/// The index of the first version, from the `i`-th on, whose text is `v`.
pub open spec fn version_position(vs: Seq<PackageVersion>, v: Seq<char>, i: nat) -> Option<int>
    decreases vs.len() - i,
{
    if i >= vs.len() {
        None
    } else if vs[i as int].version@ == v {
        Some(i as int)
    } else {
        version_position(vs, v, i + 1)
    }
}

/// The first published version of the package `name` whose text is `version`.
pub open spec fn published_version(pk: Seq<(String, Vec<PackageVersion>)>, name: Seq<char>, version: Seq<char>) -> Option<
    PackageVersion,
> {
    let k = package_index(pk, name);
    if k < 0 {
        None
    } else {
        match version_position(pk[k].1@, version, 0) {
            Some(i) => Some(pk[k].1@[i]),
            None => None,
        }
    }
}

/// The registry after publishing the package: the new version, with the
/// package's dependencies and the checksum of its manifest, comes after the
/// versions of its name; the other packages are unchanged.
pub open spec fn published(before: Seq<(String, Vec<PackageVersion>)>, after: Seq<(String, Vec<PackageVersion>)>, p: Package) -> bool {
    let k = package_index(before, p.name@);
    let added_ok = |v: PackageVersion| v.version@ == p.version@ && pairs_view(v.dependencies@) == pairs_view(
        p.dependencies@,
    ) && v.checksum@ == sha256_hex(vstd::utf8::encode_utf8(manifest_text(p)));
    if k >= 0 {
        &&& after.len() == before.len()
        &&& forall|j: int| 0 <= j < before.len() && j != k ==> after[j] == before[j]
        &&& after[k].0@ == before[k].0@
        &&& after[k].1@.len() == before[k].1@.len() + 1
        &&& after[k].1@.drop_last() == before[k].1@
        &&& added_ok(after[k].1@.last())
    } else {
        &&& after.len() == before.len() + 1
        &&& after.drop_last() == before
        &&& after.last().0@ == p.name@
        &&& after.last().1@.len() == 1
        &&& added_ok(after.last().1@[0])
    }
}


/// The checksum of data is the one its verification expects.
pub proof fn law_checksum_verifies(data: Seq<u8>, sum: Seq<char>)
    requires
        sum == sha256_hex(data),
    ensures
        sha256_hex(data) == sum,
{
}


proof fn lemma_package_index_names(a: Seq<(String, Vec<PackageVersion>)>, b: Seq<(String, Vec<PackageVersion>)>, name: Seq<char>)
    requires
        a.len() == b.len(),
        forall|j: int| 0 <= j < a.len() ==> (#[trigger] a[j]).0@ == b[j].0@,
    ensures
        package_index(a, name) == package_index(b, name),
    decreases a.len(),
{
    if a.len() > 0 {
        lemma_package_index_names(a.drop_last(), b.drop_last(), name);
    }
}

proof fn lemma_version_position_push(s: Seq<PackageVersion>, x: PackageVersion, v: Seq<char>, i: nat)
    requires
        i <= s.len(),
        version_position(s, v, i) is None,
        x.version@ == v,
    ensures
        version_position(s.push(x), v, i) == Some(s.len() as int),
    decreases s.len() - i,
{
    if i < s.len() {
        assert(s.push(x)[i as int] == s[i as int]);
        lemma_version_position_push(s, x, v, i + 1);
    } else {
        assert(s.push(x)[i as int] == x);
    }
}

/// Publishing a version that is not yet published under the package's name
/// makes it the one found for that name and version, with the package's
/// dependencies.
pub proof fn law_published_version_is_found(
    before: Seq<(String, Vec<PackageVersion>)>,
    after: Seq<(String, Vec<PackageVersion>)>,
    p: Package,
)
    requires
        published(before, after, p),
        published_version(before, p.name@, p.version@) is None,
    ensures
        published_version(after, p.name@, p.version@) matches Some(v) && v.version@ == p.version@ && pairs_view(
            v.dependencies@,
        ) == pairs_view(p.dependencies@),
{
    let k = package_index(before, p.name@);
    lemma_package_index(before, p.name@);
    if k >= 0 {
        lemma_package_index_names(after, before, p.name@);
        let old_vs = before[k].1@;
        let new_vs = after[k].1@;
        assert(new_vs == old_vs.push(new_vs.last()));
        lemma_version_position_push(old_vs, new_vs.last(), p.version@, 0);
    } else {
        assert(after.drop_last() == before);
        lemma_package_index(after, p.name@);
        assert(package_index(after, p.name@) == after.len() - 1);
        let vs = after.last().1@;
        assert(vs.len() == 1);
        assert(version_position(vs, p.version@, 0) == Some(0int));
    }
}

/// What the registry's resolution keeps of a version: its text, its
/// dependencies and its checksum.
pub open spec fn version_view(v: PackageVersion) -> (Seq<char>, Seq<(Seq<char>, Seq<char>)>, Seq<char>) {
    (v.version@, pairs_view(v.dependencies@), v.checksum@)
}

/// The views of versions.
pub open spec fn versions_view(v: Seq<PackageVersion>) -> Seq<(Seq<char>, Seq<(Seq<char>, Seq<char>)>, Seq<char>)> {
    v.map_values(|p: PackageVersion| version_view(p))
}

/// The names and views of the versions chosen.
pub open spec fn chosen_view(c: Seq<(String, PackageVersion)>) -> Seq<(Seq<char>, (Seq<char>, Seq<(Seq<char>, Seq<char>)>, Seq<char>))> {
    c.map_values(|e: (String, PackageVersion)| (e.0@, version_view(e.1)))
}

/// The best published version for a requirement, or the error: as
/// [`PackageRegistry::find_best_version`] says.
pub open spec fn best_published(pk: Seq<(String, Vec<PackageVersion>)>, name: Seq<char>, req: Seq<char>) -> Result<
    (Seq<char>, Seq<(Seq<char>, Seq<char>)>, Seq<char>),
    (ErrorKind, Seq<char>),
> {
    match req_parse_error(req) {
        Some(m) => Err((ErrorKind::ValidationError, invalid_requirement(m))),
        None => {
            let k = package_index(pk, name);
            if k < 0 {
                Err((ErrorKind::RuntimeError, "Not found: "@ + ("Package "@ + name + " not found"@)))
            } else {
                match best_from(version_texts(pk[k].1@), req, 0, None) {
                    Some(b) => Ok(version_view(pk[k].1@[b])),
                    None => Err(
                        (ErrorKind::RuntimeError, "Not found: "@ + ("No matching version found for "@ + name + " @ "@ + req)),
                    ),
                }
            }
        },
    }
}

/// The dependencies of the package published under the name at the version (of
/// the first such version), none when there is none.
pub open spec fn published_dependencies(pk: Seq<(String, Vec<PackageVersion>)>, name: Seq<char>, version: Seq<char>) -> Seq<(Seq<char>, Seq<char>)> {
    match published_version(pk, name, version) {
        Some(v) => pairs_view(v.dependencies@),
        None => Seq::empty(),
    }
}

/// Resolving the requirements `deps` from the `i`-th on, at `depth`, through
/// the published packages, from the state `s`: the (name, requirement) pairs
/// seen so far and the versions chosen, in order. A pair seen before is
/// skipped; otherwise it is seen, its best version is chosen, and the
/// requirements of that version are resolved one level deeper. Past 100 levels,
/// "Maximum dependency depth exceeded"; the first error stops resolution.
pub open spec fn registry_walk(
    pk: Seq<(String, Vec<PackageVersion>)>,
    deps: Seq<(Seq<char>, Seq<char>)>,
    i: nat,
    depth: nat,
    s: (Seq<(Seq<char>, Seq<char>)>, Seq<(Seq<char>, (Seq<char>, Seq<(Seq<char>, Seq<char>)>, Seq<char>))>),
) -> Result<
    (Seq<(Seq<char>, Seq<char>)>, Seq<(Seq<char>, (Seq<char>, Seq<(Seq<char>, Seq<char>)>, Seq<char>))>),
    (ErrorKind, Seq<char>),
>
    decreases 101 - depth, deps.len() - i,
{
    if depth > 100 {
        Err((ErrorKind::ValidationError, depth_exceeded()))
    } else if i >= deps.len() {
        Ok(s)
    } else if s.0.contains(deps[i as int]) {
        registry_walk(pk, deps, i + 1, depth, s)
    } else {
        match best_published(pk, deps[i as int].0, deps[i as int].1) {
            Err(e) => Err(e),
            Ok(v) => {
                let s2 = (s.0.push(deps[i as int]), s.1.push((deps[i as int].0, v)));
                match registry_walk(pk, published_dependencies(pk, deps[i as int].0, v.0), 0, depth + 1, s2) {
                    Err(e) => Err(e),
                    Ok(s3) => registry_walk(pk, deps, i + 1, depth, s3),
                }
            },
        }
    }
}

/// The names among the first `n` chosen versions, in the order they first come.
pub open spec fn first_names(c: Seq<(Seq<char>, (Seq<char>, Seq<(Seq<char>, Seq<char>)>, Seq<char>))>, n: nat) -> Seq<Seq<char>>
    decreases n,
{
    if n == 0 || n > c.len() {
        Seq::empty()
    } else {
        let pre = first_names(c, (n - 1) as nat);
        if pre.contains(c[n - 1].0) {
            pre
        } else {
            pre.push(c[n - 1].0)
        }
    }
}

/// The greatest version chosen for the name among the chosen versions from the
/// `i`-th on, given the greatest so far; of equal versions the later one.
pub open spec fn highest_from(
    c: Seq<(Seq<char>, (Seq<char>, Seq<(Seq<char>, Seq<char>)>, Seq<char>))>,
    name: Seq<char>,
    i: nat,
    best: Option<(Seq<char>, Seq<(Seq<char>, Seq<char>)>, Seq<char>)>,
) -> Option<(Seq<char>, Seq<(Seq<char>, Seq<char>)>, Seq<char>)>
    decreases c.len() - i,
{
    if i >= c.len() {
        best
    } else if c[i as int].0 == name {
        let next = match best {
            None => Some(c[i as int].1),
            Some(b) => if version_order(b.0, c[i as int].1.0) == 1 { Some(b) } else { Some(c[i as int].1) },
        };
        highest_from(c, name, i + 1, next)
    } else {
        highest_from(c, name, i + 1, best)
    }
}

/// The resolved versions: for each name chosen, in the order names first come,
/// the greatest version chosen for it.
pub open spec fn resolved_versions(c: Seq<(Seq<char>, (Seq<char>, Seq<(Seq<char>, Seq<char>)>, Seq<char>))>) -> Seq<(Seq<char>, Seq<(Seq<char>, Seq<char>)>, Seq<char>)> {
    first_names(c, c.len()).map_values(|n: Seq<char>| highest_from(c, n, 0, None).unwrap())
}

/// Whether the pair is among the pairs.
fn contains_pair(v: &Vec<(String, String)>, name: &String, req: &String) -> (r: bool)
    ensures
        r == pairs_view(v@).contains((name@, req@)),
{
    let ghost pv = pairs_view(v@);
    let mut i: usize = 0;
    while i < v.len()
        invariant
            i <= v@.len(),
            pv == pairs_view(v@),
            forall|k: int| 0 <= k < i ==> pv[k] != (name@, req@),
        decreases v.len() - i,
    {
        assert(pv[i as int] == (v@[i as int].0@, v@[i as int].1@));
        if str_eq(v[i].0.as_str(), name.as_str()) && str_eq(v[i].1.as_str(), req.as_str()) {
            return true;
        }
        i = i + 1;
    }
    false
}

impl PackageRegistry {
    /// Resolves the requirements `deps` at `depth`, and those of each chosen
    /// version in turn, as [`registry_walk`] says.
    fn walk(
        &self,
        deps: &Vec<(String, String)>,
        depth: usize,
        visited: &mut Vec<(String, String)>,
        chosen: &mut Vec<(String, PackageVersion)>,
    ) -> (r: Result<(), IoError>)
        requires
            depth <= 101,
            forall|k: int| 0 <= k < old(chosen)@.len() ==> version_parses(#[trigger] old(chosen)@[k].1.version@),
        ensures
            forall|k: int| 0 <= k < final(chosen)@.len() ==> version_parses(#[trigger] final(chosen)@[k].1.version@),
            match registry_walk(
                self.spec_packages(),
                pairs_view(deps@),
                0,
                depth as nat,
                (pairs_view(old(visited)@), chosen_view(old(chosen)@)),
            ) {
                Ok(s) => r is Ok && pairs_view(final(visited)@) == s.0 && chosen_view(final(chosen)@) == s.1,
                Err(e) => r matches Err(x) && x.spec_kind() == e.0 && x.spec_message() == e.1,
            },
        decreases 101 - depth,
    {
        let ghost pk = self.spec_packages();
        let ghost pv = pairs_view(deps@);
        let ghost whole = registry_walk(pk, pv, 0, depth as nat, (pairs_view(visited@), chosen_view(chosen@)));
        if depth > 100 {
            return Err(IoError::validation_error("Maximum dependency depth exceeded"));
        }
        let mut i: usize = 0;
        while i < deps.len()
            invariant
                depth <= 100,
                i <= deps@.len(),
                pk == self.spec_packages(),
                pv == pairs_view(deps@),
                pv.len() == deps@.len(),
                whole == registry_walk(pk, pv, 0, depth as nat, (pairs_view(old(visited)@), chosen_view(old(chosen)@))),
                whole == registry_walk(pk, pv, i as nat, depth as nat, (pairs_view(visited@), chosen_view(chosen@))),
                forall|k: int| 0 <= k < chosen@.len() ==> version_parses(#[trigger] chosen@[k].1.version@),
            decreases deps.len() - i,
        {
            assert(pv[i as int] == (deps@[i as int].0@, deps@[i as int].1@));
            if contains_pair(visited, &deps[i].0, &deps[i].1) {
                i = i + 1;
            } else {
                let ghost s = (pairs_view(visited@), chosen_view(chosen@));
                let best = match self.find_best_version(deps[i].0.as_str(), deps[i].1.as_str()) {
                    Ok(v) => v.duplicate(),
                    Err(e) => {
                        return Err(e);
                    },
                };
                let children = match self.get_package(deps[i].0.as_str(), best.version.as_str()) {
                    Some(p) => p.dependencies,
                    None => Vec::new(),
                };
                visited.push((deps[i].0.clone(), deps[i].1.clone()));
                chosen.push((deps[i].0.clone(), best));
                proof {
                    assert(pairs_view(visited@) =~= s.0.push(pv[i as int]));
                    assert(chosen_view(chosen@) =~= s.1.push((pv[i as int].0, version_view(best))));
                    assert(pairs_view(children@) =~= published_dependencies(pk, pv[i as int].0, best.version@));
                }
                match self.walk(&children, depth + 1, visited, chosen) {
                    Err(e) => {
                        return Err(e);
                    },
                    Ok(()) => {},
                }
                i = i + 1;
            }
        }
        Ok(())
    }

    /// Resolves the dependencies of the package through the published ones,
    /// depth first: each (name, requirement) pair once, at the greatest
    /// published version that satisfies it, and then that version's own
    /// dependencies ("Maximum dependency depth exceeded" past 100 levels; a
    /// requirement that does not parse or a package or version not found fails
    /// with that error). Of the versions chosen for a name the greatest is
    /// kept; the result has one version per name, in the order names were first
    /// reached.
    pub fn resolve_dependencies(&self, package: &Package) -> (r: Result<Vec<PackageVersion>, IoError>)
        ensures
            match registry_walk(self.spec_packages(), pairs_view(package.dependencies@), 0, 0, (Seq::empty(), Seq::empty())) {
                Ok(s) => r matches Ok(v) && versions_view(v@) == resolved_versions(s.1),
                Err(e) => r matches Err(x) && x.spec_kind() == e.0 && x.spec_message() == e.1,
            },
    {
        let mut visited: Vec<(String, String)> = Vec::new();
        let mut chosen: Vec<(String, PackageVersion)> = Vec::new();
        proof {
            assert(pairs_view(visited@) =~= Seq::<(Seq<char>, Seq<char>)>::empty());
            assert(chosen_view(chosen@) =~= Seq::empty());
        }
        match self.walk(&package.dependencies, 0, &mut visited, &mut chosen) {
            Err(e) => {
                return Err(e);
            },
            Ok(()) => {},
        }
        Ok(highest_versions(&chosen))
    }
}

/// For each name among the chosen versions, in the order names first come, the
/// greatest version chosen for it.
fn highest_versions(chosen: &Vec<(String, PackageVersion)>) -> (r: Vec<PackageVersion>)
    requires
        forall|k: int| 0 <= k < chosen@.len() ==> version_parses(#[trigger] chosen@[k].1.version@),
    ensures
        versions_view(r@) == resolved_versions(chosen_view(chosen@)),
{
    let ghost c = chosen_view(chosen@);
    let mut names: Vec<String> = Vec::new();
    let mut out: Vec<PackageVersion> = Vec::new();
    let mut j: usize = 0;
    while j < chosen.len()
        invariant
            j <= chosen@.len(),
            c == chosen_view(chosen@),
            c.len() == chosen@.len(),
            forall|k: int| 0 <= k < chosen@.len() ==> version_parses(#[trigger] chosen@[k].1.version@),
            names@.map_values(|s: String| s@) == first_names(c, j as nat),
            versions_view(out@) == first_names(c, j as nat).map_values(|n: Seq<char>| highest_from(c, n, 0, None).unwrap()),
        decreases chosen.len() - j,
    {
        assert(c[j as int] == (chosen@[j as int].0@, version_view(chosen@[j as int].1)));
        let ghost pre = first_names(c, j as nat);
        let mut seen = false;
        let mut k: usize = 0;
        while k < names.len()
            invariant
                k <= names@.len(),
                j < chosen@.len(),
                names@.map_values(|s: String| s@) == pre,
                seen == exists|t: int| 0 <= t < k && pre[t] == chosen@[j as int].0@,
            decreases names.len() - k,
        {
            assert(pre[k as int] == names@[k as int]@);
            if str_eq(names[k].as_str(), chosen[j].0.as_str()) {
                seen = true;
            }
            k = k + 1;
        }
        proof {
            assert(seen == pre.contains(c[j as int].0));
        }
        if !seen {
            let best = highest_for(chosen, &chosen[j].0);
            let ghost out_before = versions_view(out@);
            names.push(chosen[j].0.clone());
            out.push(best);
            proof {
                assert(names@.map_values(|s: String| s@) =~= pre.push(c[j as int].0));
                assert(versions_view(out@) =~= out_before.push(version_view(best)));
                assert(version_view(best) == highest_from(c, c[j as int].0, 0, None).unwrap());
                assert(pre.push(c[j as int].0).map_values(|n: Seq<char>| highest_from(c, n, 0, None).unwrap())
                    =~= pre.map_values(|n: Seq<char>| highest_from(c, n, 0, None).unwrap()).push(
                    highest_from(c, c[j as int].0, 0, None).unwrap(),
                ));
            }
        }
        j = j + 1;
    }
    out
}

/// The greatest version chosen for the name; of equal versions the later one.
fn highest_for(chosen: &Vec<(String, PackageVersion)>, name: &String) -> (r: PackageVersion)
    requires
        forall|k: int| 0 <= k < chosen@.len() ==> version_parses(#[trigger] chosen@[k].1.version@),
        exists|k: int| 0 <= k < chosen@.len() && chosen@[k].0@ == name@,
    ensures
        highest_from(chosen_view(chosen@), name@, 0, None) == Some(version_view(r)),
{
    let ghost c = chosen_view(chosen@);
    let mut best: Option<usize> = None;
    let mut i: usize = 0;
    while i < chosen.len()
        invariant
            i <= chosen@.len(),
            c == chosen_view(chosen@),
            c.len() == chosen@.len(),
            forall|k: int| 0 <= k < chosen@.len() ==> version_parses(#[trigger] chosen@[k].1.version@),
            match best {
                Some(b) => b < i && chosen@[b as int].0@ == name@,
                None => forall|k: int| 0 <= k < i ==> chosen@[k].0@ != name@,
            },
            highest_from(c, name@, 0, None) == highest_from(c, name@, i as nat, match best {
                Some(b) => Some(c[b as int].1),
                None => None,
            }),
        decreases chosen.len() - i,
    {
        assert(c[i as int] == (chosen@[i as int].0@, version_view(chosen@[i as int].1)));
        if str_eq(chosen[i].0.as_str(), name.as_str()) {
            best = match best {
                None => Some(i),
                Some(b) => {
                    assert(c[b as int] == (chosen@[b as int].0@, version_view(chosen@[b as int].1)));
                    if semver_order(chosen[b].1.version.as_str(), chosen[i].1.version.as_str()) == 1 {
                        Some(b)
                    } else {
                        Some(i)
                    }
                },
            };
        }
        i = i + 1;
    }
    match best {
        Some(b) => {
            assert(c[b as int] == (chosen@[b as int].0@, version_view(chosen@[b as int].1)));
            chosen[b].1.duplicate()
        },
        None => {
            assert(false);
            chosen[0].1.duplicate()
        },
    }
}

} // verus!
