//! Query library for a package manager's databases: builds a
//! reverse-dependency index over a package universe, reconciles a package's
//! metadata between the local-install view and the repository view, and
//! computes the transitive dependency closure of a chosen package.

pub mod info;
pub mod recurse_deps;
pub mod reverse_deps;
pub mod siglevel;

use vstd::prelude::*;

verus! {

/// The character joining a package name and version into a `name=version` key.
pub open spec fn key_join() -> Seq<char> {
    seq!['=']
}

/// The `name=version` key that identifies a package within one closure
/// computation.
pub open spec fn key_spec(name: Seq<char>, version: Seq<char>) -> Seq<char> {
    name + key_join() + version
}

/// Builds the `name=version` key of a package.
pub fn make_key(name: &str, version: &str) -> (r: String)
    ensures
        r@ == key_spec(name@, version@),
{
    let mut s = String::from_str(name);
    s.append("=");
    s.append(version);
    proof {
        reveal_strlit("=");
        assert("="@ =~= key_join());
        assert(s@ =~= name@ + key_join() + version@);
    }
    s
}

/// Available filters for a package query: which database is queried, whether
/// only explicitly installed packages are shown, whether records are
/// enriched from the complementary database, and how dependency recursion
/// reports its findings.
pub struct PackageFilters {
    /// Query the sync databases; by default the local database of installed
    /// packages is queried.
    pub sync: bool,
    /// Query all packages, not only the explicitly installed.
    pub all: bool,
    /// Emit records from the queried database alone, skipping reconciliation
    /// with the complementary database.
    pub plain: bool,
    /// Recursively resolve the dependencies of the named package.
    pub recurse: Option<String>,
    /// Resolve optional dependencies as well while recursing.
    pub optional: bool,
    /// While recursing, report only the visited `name=version` keys.
    pub summary: bool,
}

/// The error of a query on one package.
#[derive(Clone, Copy, PartialEq, Eq, Structural, Debug)]
pub enum QueryError {
    /// The package was excluded by the explicitly-installed filter: a
    /// filtering decision, not a defect.
    NotExplicit,
    /// No package of the requested name exists in the searched databases.
    NotFound,
}

/// Whether a record carries the install reason of an explicitly installed
/// package.
pub open spec fn is_explicit(p: info::PackageInfo) -> bool {
    p.install_reason@ == "Explicit"@
}

/// Whether a local record and a sync record were built from the same
/// package: the packager and the version agree.
pub open spec fn same_origin(local: info::PackageInfo, sync: info::PackageInfo) -> bool {
    &&& info::opt_view(local.packager) == info::opt_view(sync.packager)
    &&& local.version@ == sync.version@
}

/// Whether two records agree on every field except the install metadata,
/// the reverse-dependency sets and the companion slot.
pub open spec fn core_fields_eq(a: info::PackageInfo, b: info::PackageInfo) -> bool {
    &&& a.repository == b.repository
    &&& a.name == b.name
    &&& a.version == b.version
    &&& a.description == b.description
    &&& a.architecture == b.architecture
    &&& a.url == b.url
    &&& a.licenses == b.licenses
    &&& a.groups == b.groups
    &&& a.provides == b.provides
    &&& a.depends_on == b.depends_on
    &&& a.optional_deps == b.optional_deps
    &&& a.makedepends == b.makedepends
    &&& a.checkdepends == b.checkdepends
    &&& a.conflicts_with == b.conflicts_with
    &&& a.replaces == b.replaces
    &&& a.download_size == b.download_size
    &&& a.installed_size == b.installed_size
    &&& a.packager == b.packager
    &&& a.build_date == b.build_date
    &&& a.md5_sum == b.md5_sum
    &&& a.sha_256_sum == b.sha_256_sum
    &&& a.signatures == b.signatures
    &&& a.key_id == b.key_id
    &&& a.validated_by == b.validated_by
}

/// Whether two records agree on the four reverse-dependency sets.
pub open spec fn rev_fields_eq(a: info::PackageInfo, b: info::PackageInfo) -> bool {
    &&& a.required_by == b.required_by
    &&& a.optional_for == b.optional_for
    &&& a.required_by_make == b.required_by_make
    &&& a.required_by_check == b.required_by_check
}

/// How one record is reconciled against the complementary database. With
/// `plain` set, or without a complementary record, the record passes through
/// unchanged. When a local and a sync record exist for the same name, one
/// policy applies whichever database was queried: if packager and version
/// both match, the sync record is the authoritative base — it carries the
/// richer trust metadata — and the fields known only locally (install date,
/// install reason, install-script flag) are overlaid from the local record,
/// which fills the companion slot; if either differs, the local record stays
/// authoritative and nothing is overlaid — the sync record only fills the
/// companion slot, surfacing the discrepancy.
pub open spec fn reconciled(
    f: PackageFilters,
    pkg: info::PackageInfo,
    comp: Option<info::PackageInfo>,
    x: info::PackageInfo,
) -> bool {
    match comp {
        Option::None => core_fields_eq(x, pkg) && info::install_fields_eq(x, pkg) && x.sync_with
            == pkg.sync_with,
        Option::Some(c) => {
            if f.plain {
                core_fields_eq(x, pkg) && info::install_fields_eq(x, pkg) && x.sync_with
                    == pkg.sync_with
            } else if f.sync {
                // `pkg` is the sync record, `c` the local one
                if same_origin(c, pkg) {
                    core_fields_eq(x, pkg) && info::install_fields_eq(x, c) && (x.sync_with
                        matches Some(b) && *b == c)
                } else {
                    core_fields_eq(x, c) && info::install_fields_eq(x, c) && (x.sync_with
                        matches Some(b) && *b == pkg)
                }
            } else if same_origin(pkg, c) {
                core_fields_eq(x, c) && info::install_fields_eq(x, pkg) && (x.sync_with
                    matches Some(b) && *b == pkg)
            } else {
                core_fields_eq(x, pkg) && info::install_fields_eq(x, pkg) && (x.sync_with
                    matches Some(b) && *b == c)
            }
        },
    }
}

impl PackageFilters {
    /// Whether this query reports explicitly installed packages only.
    pub open spec fn explicit_only(self) -> bool {
        self.recurse is None && !self.all
    }

    /// Enriches a record with the matching record of the complementary
    /// database, when one was found. The record of the sync database is
    /// preferred as the base when it matches the local one, since it carries
    /// the richer trust metadata; a mismatched sync record is only attached
    /// as the companion, whichever side was queried.
    pub fn enrich_pkg_info(
        &self,
        pkg_info: info::PackageInfo,
        complementary: Option<info::PackageInfo>,
    ) -> (r: info::PackageInfo)
        ensures
            reconciled(PackageFilters { plain: false, ..*self }, pkg_info, complementary, r),
            complementary is None ==> r == pkg_info,
            complementary matches Some(c) ==> rev_fields_eq(
                r,
                if self.sync {
                    if same_origin(c, pkg_info) {
                        pkg_info
                    } else {
                        c
                    }
                } else {
                    if same_origin(pkg_info, c) {
                        c
                    } else {
                        pkg_info
                    }
                },
            ),
    {
        let complementary_pkg = match complementary {
            Option::None => {
                return pkg_info;
            },
            Option::Some(c) => c,
        };
        let (local_info, sync_info) = if self.sync {
            (complementary_pkg, pkg_info)
        } else {
            (pkg_info, complementary_pkg)
        };
        if info::opt_str_eq(&local_info.packager, &sync_info.packager) && local_info.version
            == sync_info.version {
            sync_info.add_local_info(local_info)
        } else {
            local_info.add_sync_info(sync_info)
        }
    }

    /// Applies the filters to one record: a package outside the
    /// explicitly-installed filter is refused with `NotExplicit`; otherwise
    /// the record is reconciled against the complementary database (unless
    /// `plain`) and its reverse-dependency sets are attached from the index.
    pub fn generate_pkg_info(
        &self,
        pkg: info::PackageInfo,
        complementary: Option<info::PackageInfo>,
        reverse_deps: &reverse_deps::ReverseDepsDatabase,
    ) -> (r: Result<info::PackageInfo, QueryError>)
        ensures
            (self.explicit_only() && !is_explicit(pkg)) <==> (r matches Err(e) && e
                == QueryError::NotExplicit),
            r is Err ==> (r matches Err(e) && e == QueryError::NotExplicit),
            r matches Ok(out) ==> ({
                &&& reconciled(*self, pkg, complementary, out)
                &&& out.required_by.0@ == reverse_deps.required_by.members(out.name@)
                &&& out.optional_for.0@ == reverse_deps.optional_for.members(out.name@)
                &&& out.required_by_make.0@ == reverse_deps.required_by_make.members(out.name@)
                &&& out.required_by_check.0@ == reverse_deps.required_by_check.members(out.name@)
            }),
    {
        if self.recurse.is_none() && !self.all {
            let explicit_reason = String::from_str("Explicit");
            if !(pkg.install_reason == explicit_reason) {
                return Result::Err(QueryError::NotExplicit);
            }
        }
        let mut pkg_info = pkg;
        if !self.plain {
            pkg_info = self.enrich_pkg_info(pkg_info, complementary);
        }
        Result::Ok(pkg_info.add_reverse_deps(reverse_deps))
    }
}

/// Locates a package in the searched databases by its name: the first
/// record whose name matches, or `NotFound`.
pub fn find_in_databases<'a>(
    databases: &'a Vec<info::PackageInfo>,
    package_name: &String,
) -> (r: Result<&'a info::PackageInfo, QueryError>)
    ensures
        match recurse_deps::find_named(databases@, package_name@) {
            Option::None => r matches Err(e) && e == QueryError::NotFound,
            Option::Some(j) => r matches Ok(p) && *p == databases@[j],
        },
{
    match recurse_deps::find_by_name(databases, package_name) {
        Option::Some(i) => {
            proof {
                recurse_deps::lemma_find_named_props(databases@, package_name@, 0);
            }
            Result::Ok(&databases[i])
        },
        Option::None => Result::Err(QueryError::NotFound),
    }
}

/// A decoded output without its single trailing line break, if one ends it.
pub open spec fn chomp(s: Seq<char>) -> Seq<char> {
    if s.len() > 0 && s.last() == '\n' {
        s.drop_last()
    } else {
        s
    }
}

/// The lenient decoding of a byte string to characters.
pub uninterp spec fn lossy_of(bytes: Seq<u8>) -> Seq<char>;

/// Relies on String::from_utf8_lossy: the decoding — invalid sequences
/// replaced by the replacement character — depends on the bytes alone.
#[verifier::external_body]
fn decode_lossy(bytes: &Vec<u8>) -> (r: String)
    ensures
        r@ == lossy_of(bytes@),
{
    String::from_utf8_lossy(bytes.as_slice()).to_string()
}

/// Decodes the raw output of the configuration tool: the bytes are decoded
/// leniently and the single trailing line break, if any, is stripped.
pub fn decode_conf_output(bytes: &Vec<u8>) -> (r: String)
    ensures
        r@ == chomp(lossy_of(bytes@)),
{
    let s = decode_lossy(bytes);
    let n = s.as_str().unicode_len();
    if n > 0 && s.as_str().get_char(n - 1) == '\n' {
        let t = s.as_str().substring_char(0, n - 1);
        proof {
            assert(t@ =~= s@.drop_last());
        }
        String::from_str(t)
    } else {
        s
    }
}

/// Reconciling a local record with a matching sync record (same packager,
/// same version) yields the sync side as authoritative — every trust and
/// identity field comes from it — while the install fields come from the
/// local side, and the local record fills the companion slot: no field of
/// either source is lost.
pub proof fn lemma_reconcile_matching(
    f: PackageFilters,
    local: info::PackageInfo,
    sync: info::PackageInfo,
    x: info::PackageInfo,
)
    requires
        !f.sync,
        !f.plain,
        same_origin(local, sync),
        reconciled(f, local, Option::Some(sync), x),
    ensures
        x.md5_sum == sync.md5_sum,
        x.sha_256_sum == sync.sha_256_sum,
        x.signatures == sync.signatures,
        x.key_id == sync.key_id,
        x.validated_by == sync.validated_by,
        x.packager == sync.packager,
        x.version == sync.version,
        x.name == sync.name,
        x.depends_on == sync.depends_on,
        x.install_date == local.install_date,
        x.install_reason == local.install_reason,
        x.install_script == local.install_script,
        x.sync_with matches Some(b) && *b == local,
{
}

/// Reconciling a local record with a sync record of a differing packager or
/// version leaves the local record authoritative: no field is overlaid, and
/// the sync record is attached as the companion to surface the discrepancy.
pub proof fn lemma_reconcile_mismatch(
    f: PackageFilters,
    local: info::PackageInfo,
    sync: info::PackageInfo,
    x: info::PackageInfo,
)
    requires
        !f.sync,
        !f.plain,
        !same_origin(local, sync),
        reconciled(f, local, Option::Some(sync), x),
    ensures
        core_fields_eq(x, local),
        info::install_fields_eq(x, local),
        x.sync_with matches Some(b) && *b == sync,
{
}


/// The one reconciliation policy holds in the sync direction too: a queried
/// sync record against a local record of differing packager or version
/// yields the local record as authoritative, with the sync record only
/// filling the companion slot.
pub proof fn lemma_reconcile_mismatch_sync_query(
    f: PackageFilters,
    sync: info::PackageInfo,
    local: info::PackageInfo,
    x: info::PackageInfo,
)
    requires
        f.sync,
        !f.plain,
        !same_origin(local, sync),
        reconciled(f, sync, Option::Some(local), x),
    ensures
        core_fields_eq(x, local),
        info::install_fields_eq(x, local),
        x.sync_with matches Some(b) && *b == sync,
{
}

} // verus!
