//! The package record: a projection of one package's attributes out of a
//! package database, together with the reconciliation steps that merge the
//! local-install view and the repository view of the same package.

use vstd::prelude::*;

use crate::reverse_deps::{ReverseDeps, ReverseDepsDatabase};

verus! {

/// A list of values belonging to one package attribute (licenses, groups,
/// dependency specifications, ...).
#[derive(Debug)]
pub struct PacList<T>(pub Vec<T>);

/// A dependency specification: a name, an optional version constraint, and a
/// `satisfier` slot that starts unset and is filled once closure resolution
/// matches the specification to a concrete package.
#[derive(Debug)]
pub struct DepInfo {
    pub dep_string: String,
    pub name: String,
    pub depmod: String,
    pub version: Option<String>,
    pub description: Option<String>,
    pub name_hash: u64,
    pub satisfier: Option<String>,
}

/// The record of one package: identity, sizes and dates, relationship lists,
/// install metadata, trust metadata, and two lazily filled fields (`key_id`
/// and `sync_with`).
#[derive(Debug)]
pub struct PackageInfo {
    pub repository: Option<String>,
    pub name: String,
    pub version: String,
    pub description: Option<String>,
    pub architecture: Option<String>,
    pub url: Option<String>,
    pub licenses: PacList<String>,
    pub groups: PacList<String>,
    pub provides: PacList<DepInfo>,
    pub depends_on: PacList<DepInfo>,
    pub optional_deps: PacList<DepInfo>,
    pub makedepends: PacList<DepInfo>,
    pub checkdepends: PacList<DepInfo>,
    pub conflicts_with: PacList<DepInfo>,
    pub replaces: PacList<DepInfo>,
    pub required_by: ReverseDeps,
    pub optional_for: ReverseDeps,
    pub required_by_make: ReverseDeps,
    pub required_by_check: ReverseDeps,
    pub download_size: i64,
    pub installed_size: i64,
    pub packager: Option<String>,
    pub build_date: i64,
    pub install_date: Option<i64>,
    pub install_reason: String,
    pub install_script: bool,
    pub md5_sum: Option<String>,
    pub sha_256_sum: Option<String>,
    pub signatures: Option<String>,
    pub key_id: Option<Vec<String>>,
    pub validated_by: String,
    pub sync_with: Option<Box<PackageInfo>>,
}

/// The character-level content of an optional string.
pub open spec fn opt_view(o: Option<String>) -> Option<Seq<char>> {
    match o {
        Option::None => Option::None,
        Option::Some(s) => Option::Some(s@),
    }
}

/// Whether two optional key-id lists hold the same strings.
pub open spec fn keyid_equiv(a: Option<Vec<String>>, b: Option<Vec<String>>) -> bool {
    match (a, b) {
        (Option::None, Option::None) => true,
        (Option::Some(x), Option::Some(y)) => x@ == y@,
        _ => false,
    }
}

/// Whether two records agree on every field, comparing list fields by their
/// contents; clones of a record satisfy this relation with their original.
pub open spec fn pkg_equiv(a: PackageInfo, b: PackageInfo) -> bool
    decreases a,
{
    &&& a.repository == b.repository
    &&& a.name == b.name
    &&& a.version == b.version
    &&& a.description == b.description
    &&& a.architecture == b.architecture
    &&& a.url == b.url
    &&& a.licenses.0@ == b.licenses.0@
    &&& a.groups.0@ == b.groups.0@
    &&& a.provides.0@ == b.provides.0@
    &&& a.depends_on.0@ == b.depends_on.0@
    &&& a.optional_deps.0@ == b.optional_deps.0@
    &&& a.makedepends.0@ == b.makedepends.0@
    &&& a.checkdepends.0@ == b.checkdepends.0@
    &&& a.conflicts_with.0@ == b.conflicts_with.0@
    &&& a.replaces.0@ == b.replaces.0@
    &&& a.required_by.0@ == b.required_by.0@
    &&& a.optional_for.0@ == b.optional_for.0@
    &&& a.required_by_make.0@ == b.required_by_make.0@
    &&& a.required_by_check.0@ == b.required_by_check.0@
    &&& a.download_size == b.download_size
    &&& a.installed_size == b.installed_size
    &&& a.packager == b.packager
    &&& a.build_date == b.build_date
    &&& a.install_date == b.install_date
    &&& a.install_reason == b.install_reason
    &&& a.install_script == b.install_script
    &&& a.md5_sum == b.md5_sum
    &&& a.sha_256_sum == b.sha_256_sum
    &&& a.signatures == b.signatures
    &&& a.validated_by == b.validated_by
    &&& keyid_equiv(a.key_id, b.key_id)
    &&& match (a.sync_with, b.sync_with) {
        (Option::None, Option::None) => true,
        (Option::Some(x), Option::Some(y)) => pkg_equiv(*x, *y),
        _ => false,
    }
}

/// Whether two records agree on every field other than the install metadata
/// (install date, install reason, install-script flag) and the companion slot.
pub open spec fn non_install_fields_eq(a: PackageInfo, b: PackageInfo) -> bool {
    &&& a.repository == b.repository
    &&& a.name == b.name
    &&& a.version == b.version
    &&& a.description == b.description
    &&& a.architecture == b.architecture
    &&& a.url == b.url
    &&& a.licenses == b.licenses
    &&& a.groups == b.groups
    &&& a.provides == b.provides
    &&& a.depends_on == b.depends_on
    &&& a.optional_deps == b.optional_deps
    &&& a.makedepends == b.makedepends
    &&& a.checkdepends == b.checkdepends
    &&& a.conflicts_with == b.conflicts_with
    &&& a.replaces == b.replaces
    &&& a.required_by == b.required_by
    &&& a.optional_for == b.optional_for
    &&& a.required_by_make == b.required_by_make
    &&& a.required_by_check == b.required_by_check
    &&& a.download_size == b.download_size
    &&& a.installed_size == b.installed_size
    &&& a.packager == b.packager
    &&& a.build_date == b.build_date
    &&& a.md5_sum == b.md5_sum
    &&& a.sha_256_sum == b.sha_256_sum
    &&& a.signatures == b.signatures
    &&& a.key_id == b.key_id
    &&& a.validated_by == b.validated_by
}

/// Whether two records agree on the install metadata: the fields known only
/// to the local database.
pub open spec fn install_fields_eq(a: PackageInfo, b: PackageInfo) -> bool {
    &&& a.install_date == b.install_date
    &&& a.install_reason == b.install_reason
    &&& a.install_script == b.install_script
}

impl Clone for DepInfo {
    /// A cloned dependency specification equals the original.
    fn clone(&self) -> (r: Self)
        ensures
            r == *self,
    {
        let r = DepInfo {
            dep_string: self.dep_string.clone(),
            name: self.name.clone(),
            depmod: self.depmod.clone(),
            version: clone_opt_string(&self.version),
            description: clone_opt_string(&self.description),
            name_hash: self.name_hash,
            satisfier: clone_opt_string(&self.satisfier),
        };
        r
    }
}

/// Clones an optional string; the result equals the input.
pub fn clone_opt_string(o: &Option<String>) -> (r: Option<String>)
    ensures
        r == *o,
{
    match o {
        Option::None => Option::None,
        Option::Some(s) => Option::Some(s.clone()),
    }
}

/// Whether two optional strings hold the same characters.
pub fn opt_str_eq(a: &Option<String>, b: &Option<String>) -> (r: bool)
    ensures
        r == (opt_view(*a) == opt_view(*b)),
{
    match (a, b) {
        (Option::None, Option::None) => true,
        (Option::Some(x), Option::Some(y)) => *x == *y,
        _ => false,
    }
}

/// Clones a vector of strings; the result holds the same strings.
pub fn clone_string_vec(v: &Vec<String>) -> (r: Vec<String>)
    ensures
        r@ == v@,
{
    let mut r: Vec<String> = Vec::new();
    let mut i: usize = 0;
    while i < v.len()
        invariant
            i <= v.len(),
            r@ =~= v@.take(i as int),
        decreases v.len() - i,
    {
        r.push(v[i].clone());
        i = i + 1;
    }
    proof {
        assert(r@ =~= v@);
    }
    r
}

/// Clones a vector of dependency specifications; the result holds the same
/// values.
pub fn clone_dep_vec(v: &Vec<DepInfo>) -> (r: Vec<DepInfo>)
    ensures
        r@ == v@,
{
    let mut r: Vec<DepInfo> = Vec::new();
    let mut i: usize = 0;
    while i < v.len()
        invariant
            i <= v.len(),
            r@ =~= v@.take(i as int),
        decreases v.len() - i,
    {
        r.push(v[i].clone());
        i = i + 1;
    }
    proof {
        assert(r@ =~= v@);
    }
    r
}

/// Clones an optional key-id list; the result holds the same strings.
pub fn clone_keyid(o: &Option<Vec<String>>) -> (r: Option<Vec<String>>)
    ensures
        keyid_equiv(*o, r),
{
    match o {
        Option::None => Option::None,
        Option::Some(v) => Option::Some(clone_string_vec(v)),
    }
}

impl Clone for PackageInfo {
    /// A cloned record agrees with the original on every field.
    fn clone(&self) -> (r: Self)
        ensures
            pkg_equiv(*self, r),
        decreases *self,
    {
        let sync_with: Option<Box<PackageInfo>> = match &self.sync_with {
            Option::None => Option::None,
            Option::Some(b) => Option::Some(Box::new((**b).clone())),
        };
        PackageInfo {
            repository: clone_opt_string(&self.repository),
            name: self.name.clone(),
            version: self.version.clone(),
            description: clone_opt_string(&self.description),
            architecture: clone_opt_string(&self.architecture),
            url: clone_opt_string(&self.url),
            licenses: PacList(clone_string_vec(&self.licenses.0)),
            groups: PacList(clone_string_vec(&self.groups.0)),
            provides: PacList(clone_dep_vec(&self.provides.0)),
            depends_on: PacList(clone_dep_vec(&self.depends_on.0)),
            optional_deps: PacList(clone_dep_vec(&self.optional_deps.0)),
            makedepends: PacList(clone_dep_vec(&self.makedepends.0)),
            checkdepends: PacList(clone_dep_vec(&self.checkdepends.0)),
            conflicts_with: PacList(clone_dep_vec(&self.conflicts_with.0)),
            replaces: PacList(clone_dep_vec(&self.replaces.0)),
            required_by: self.required_by.clone(),
            optional_for: self.optional_for.clone(),
            required_by_make: self.required_by_make.clone(),
            required_by_check: self.required_by_check.clone(),
            download_size: self.download_size,
            installed_size: self.installed_size,
            packager: clone_opt_string(&self.packager),
            build_date: self.build_date,
            install_date: self.install_date,
            install_reason: self.install_reason.clone(),
            install_script: self.install_script,
            md5_sum: clone_opt_string(&self.md5_sum),
            sha_256_sum: clone_opt_string(&self.sha_256_sum),
            signatures: clone_opt_string(&self.signatures),
            key_id: clone_keyid(&self.key_id),
            validated_by: self.validated_by.clone(),
            sync_with,
        }
    }
}

impl PackageInfo {
    /// Builds the record of one package as projected out of a database: every
    /// field is passed through unchanged, the lazily filled fields (`key_id`,
    /// the companion slot) start absent, and the reverse-dependency fields
    /// start empty.
    pub fn new(
        repository: Option<String>,
        name: String,
        version: String,
        description: Option<String>,
        architecture: Option<String>,
        url: Option<String>,
        licenses: PacList<String>,
        groups: PacList<String>,
        provides: PacList<DepInfo>,
        depends_on: PacList<DepInfo>,
        optional_deps: PacList<DepInfo>,
        makedepends: PacList<DepInfo>,
        checkdepends: PacList<DepInfo>,
        conflicts_with: PacList<DepInfo>,
        replaces: PacList<DepInfo>,
        download_size: i64,
        installed_size: i64,
        packager: Option<String>,
        build_date: i64,
        install_date: Option<i64>,
        install_reason: String,
        install_script: bool,
        md5_sum: Option<String>,
        sha_256_sum: Option<String>,
        signatures: Option<String>,
        validated_by: String,
    ) -> (r: Self)
        ensures
            r.repository == repository,
            r.name == name,
            r.version == version,
            r.description == description,
            r.architecture == architecture,
            r.url == url,
            r.licenses == licenses,
            r.groups == groups,
            r.provides == provides,
            r.depends_on == depends_on,
            r.optional_deps == optional_deps,
            r.makedepends == makedepends,
            r.checkdepends == checkdepends,
            r.conflicts_with == conflicts_with,
            r.replaces == replaces,
            r.required_by.0@.len() == 0,
            r.optional_for.0@.len() == 0,
            r.required_by_make.0@.len() == 0,
            r.required_by_check.0@.len() == 0,
            r.download_size == download_size,
            r.installed_size == installed_size,
            r.packager == packager,
            r.build_date == build_date,
            r.install_date == install_date,
            r.install_reason == install_reason,
            r.install_script == install_script,
            r.md5_sum == md5_sum,
            r.sha_256_sum == sha_256_sum,
            r.signatures == signatures,
            r.key_id is None,
            r.validated_by == validated_by,
            r.sync_with is None,
    {
        PackageInfo {
            repository,
            name,
            version,
            description,
            architecture,
            url,
            licenses,
            groups,
            provides,
            depends_on,
            optional_deps,
            makedepends,
            checkdepends,
            conflicts_with,
            replaces,
            required_by: ReverseDeps::new(),
            optional_for: ReverseDeps::new(),
            required_by_make: ReverseDeps::new(),
            required_by_check: ReverseDeps::new(),
            download_size,
            installed_size,
            packager,
            build_date,
            install_date,
            install_reason,
            install_script,
            md5_sum,
            sha_256_sum,
            signatures,
            key_id: Option::None,
            validated_by,
            sync_with: Option::None,
        }
    }

    /// Attaches sync-database information to a local package: the local record
    /// stays authoritative and the sync record only fills the companion slot.
    /// No field is overlaid.
    pub fn add_sync_info(self, sync_info: Self) -> (r: Self)
        ensures
            non_install_fields_eq(r, self),
            install_fields_eq(r, self),
            r.sync_with matches Some(c) && *c == sync_info,
    {
        let local_info = self;
        PackageInfo { sync_with: Option::Some(Box::new(sync_info)), ..local_info }
    }

    /// Attaches local-database information to a sync package: the sync record
    /// is authoritative (it carries the richer trust metadata) and the fields
    /// known only locally — install date, install reason, install-script flag
    /// — are overlaid from the local record, which fills the companion slot.
    pub fn add_local_info(self, local_info: Self) -> (r: Self)
        ensures
            non_install_fields_eq(r, self),
            install_fields_eq(r, local_info),
            r.sync_with matches Some(c) && *c == local_info,
    {
        let sync_info = self;
        let reason = local_info.install_reason.clone();
        PackageInfo {
            install_date: local_info.install_date,
            install_reason: reason,
            install_script: local_info.install_script,
            sync_with: Option::Some(Box::new(local_info)),
            ..sync_info
        }
    }

    /// Fills the four reverse-dependency fields from the prebuilt index,
    /// defaulting to the empty set for a package nothing depends on.
    pub fn add_reverse_deps(self, reverse_deps: &ReverseDepsDatabase) -> (r: Self)
        ensures
            r.repository == self.repository,
            r.name == self.name,
            r.version == self.version,
            r.description == self.description,
            r.architecture == self.architecture,
            r.url == self.url,
            r.licenses == self.licenses,
            r.groups == self.groups,
            r.provides == self.provides,
            r.depends_on == self.depends_on,
            r.optional_deps == self.optional_deps,
            r.makedepends == self.makedepends,
            r.checkdepends == self.checkdepends,
            r.conflicts_with == self.conflicts_with,
            r.replaces == self.replaces,
            r.download_size == self.download_size,
            r.installed_size == self.installed_size,
            r.packager == self.packager,
            r.build_date == self.build_date,
            r.install_date == self.install_date,
            r.install_reason == self.install_reason,
            r.install_script == self.install_script,
            r.md5_sum == self.md5_sum,
            r.sha_256_sum == self.sha_256_sum,
            r.signatures == self.signatures,
            r.key_id == self.key_id,
            r.validated_by == self.validated_by,
            r.sync_with == self.sync_with,
            r.required_by.0@ == reverse_deps.required_by.members(self.name@),
            r.optional_for.0@ == reverse_deps.optional_for.members(self.name@),
            r.required_by_make.0@ == reverse_deps.required_by_make.members(self.name@),
            r.required_by_check.0@ == reverse_deps.required_by_check.members(self.name@),
    {
        let required_by = reverse_deps.required_by.get_or_empty(&self.name);
        let optional_for = reverse_deps.optional_for.get_or_empty(&self.name);
        let required_by_make = reverse_deps.required_by_make.get_or_empty(&self.name);
        let required_by_check = reverse_deps.required_by_check.get_or_empty(&self.name);
        PackageInfo { required_by, optional_for, required_by_make, required_by_check, ..self }
    }

    /// Records the outcome of decoding this record's signature. The caller
    /// consults the crypto collaborator only when signature bytes are present
    /// and hands the outcome in; a missing signature leaves the record
    /// unchanged, a successful extraction stores the key ids, and any failure
    /// stores the single diagnostic string in their place — key-id decoding is
    /// best-effort enrichment, never fatal.
    pub fn decode_keyid(self, extraction: Option<Result<Vec<String>, String>>) -> (r: Self)
        requires
            self.signatures is Some <==> extraction is Some,
        ensures
            self.signatures is None ==> r == self,
            r.repository == self.repository,
            r.name == self.name,
            r.version == self.version,
            r.description == self.description,
            r.architecture == self.architecture,
            r.url == self.url,
            r.licenses == self.licenses,
            r.groups == self.groups,
            r.provides == self.provides,
            r.depends_on == self.depends_on,
            r.optional_deps == self.optional_deps,
            r.makedepends == self.makedepends,
            r.checkdepends == self.checkdepends,
            r.conflicts_with == self.conflicts_with,
            r.replaces == self.replaces,
            r.required_by == self.required_by,
            r.optional_for == self.optional_for,
            r.required_by_make == self.required_by_make,
            r.required_by_check == self.required_by_check,
            r.download_size == self.download_size,
            r.installed_size == self.installed_size,
            r.packager == self.packager,
            r.build_date == self.build_date,
            r.install_date == self.install_date,
            r.install_reason == self.install_reason,
            r.install_script == self.install_script,
            r.md5_sum == self.md5_sum,
            r.sha_256_sum == self.sha_256_sum,
            r.signatures == self.signatures,
            r.validated_by == self.validated_by,
            r.sync_with == self.sync_with,
            match extraction {
                Option::None => r.key_id == self.key_id,
                Option::Some(Result::Ok(ids)) => r.key_id == Some(ids),
                Option::Some(Result::Err(e)) => r.key_id matches Some(v) && v@ =~= seq![e],
            },
    {
        match extraction {
            Option::None => self,
            Option::Some(Result::Ok(ids)) => PackageInfo { key_id: Option::Some(ids), ..self },
            Option::Some(Result::Err(e)) => {
                let mut diag: Vec<String> = Vec::new();
                diag.push(e);
                PackageInfo { key_id: Option::Some(diag), ..self }
            },
        }
    }
}

} // verus!
