//! The signature-checking level of a repository, and the parsing of the
//! fine-grained level lines that the package manager's configuration tool
//! prints. Each line stacks onto a default level; parsing a level always
//! clears the use-default marker, except that a blank line leaves the level
//! untouched.

use vstd::prelude::*;

verus! {

/// A signature-checking level: which signatures are demanded of packages and
/// of databases, and how far marginal or unknown trust is accepted. The
/// use-default marker says that no explicit level was configured yet.
#[derive(Clone, Copy, PartialEq, Eq, Structural, Debug)]
pub struct SigLevel {
    pub package: bool,
    pub package_optional: bool,
    pub package_marginal_ok: bool,
    pub package_unknown_ok: bool,
    pub database: bool,
    pub database_optional: bool,
    pub database_marginal_ok: bool,
    pub database_unknown_ok: bool,
    pub use_default: bool,
}

impl SigLevel {
    /// The level that says: use the defaults.
    pub fn use_default() -> (r: Self)
        ensures
            r == (SigLevel {
                package: false,
                package_optional: false,
                package_marginal_ok: false,
                package_unknown_ok: false,
                database: false,
                database_optional: false,
                database_marginal_ok: false,
                database_unknown_ok: false,
                use_default: true,
            }),
    {
        SigLevel {
            package: false,
            package_optional: false,
            package_marginal_ok: false,
            package_unknown_ok: false,
            database: false,
            database_optional: false,
            database_marginal_ok: false,
            database_unknown_ok: false,
            use_default: true,
        }
    }
}

/// The whitespace stripped around a level word: the Unicode white-space
/// characters, as std's `str::trim` removes them.
pub open spec fn is_ws(c: char) -> bool {
    ||| c == ' '
    ||| c == '\t'
    ||| c == '\n'
    ||| c == '\u{000B}'
    ||| c == '\u{000C}'
    ||| c == '\r'
    ||| c == '\u{0085}'
    ||| c == '\u{00A0}'
    ||| c == '\u{1680}'
    ||| ('\u{2000}' <= c && c <= '\u{200A}')
    ||| c == '\u{2028}'
    ||| c == '\u{2029}'
    ||| c == '\u{202F}'
    ||| c == '\u{205F}'
    ||| c == '\u{3000}'
}

/// The sequence without its leading whitespace.
pub open spec fn trim_start(s: Seq<char>) -> Seq<char>
    decreases s.len(),
{
    if s.len() > 0 && is_ws(s[0]) {
        trim_start(s.drop_first())
    } else {
        s
    }
}

/// The sequence without its trailing whitespace.
pub open spec fn trim_end(s: Seq<char>) -> Seq<char>
    decreases s.len(),
{
    if s.len() > 0 && is_ws(s.last()) {
        trim_end(s.drop_last())
    } else {
        s
    }
}

/// The sequence without surrounding whitespace.
pub open spec fn trim_spec(s: Seq<char>) -> Seq<char> {
    trim_end(trim_start(s))
}

/// If the first `k` characters are whitespace and the next one is not, the
/// leading trim drops exactly those `k`.
proof fn lemma_trim_start_at(s: Seq<char>, k: int)
    requires
        0 <= k <= s.len(),
        forall|j: int| 0 <= j < k ==> is_ws(s[j]),
        k == s.len() || !is_ws(s[k]),
    ensures
        trim_start(s) == s.subrange(k, s.len() as int),
    decreases k,
{
    if k == 0 {
        if s.len() == 0 || !is_ws(s[0]) {
            assert(trim_start(s) == s);
            assert(s =~= s.subrange(0, s.len() as int));
        }
    } else {
        assert(is_ws(s[0]));
        let t = s.drop_first();
        assert(forall|j: int| 0 <= j < k - 1 ==> is_ws(#[trigger] t[j]));
        lemma_trim_start_at(t, k - 1);
        assert(t.subrange(k - 1, t.len() as int) =~= s.subrange(k, s.len() as int));
    }
}

/// If everything from position `b` on is whitespace and the character before
/// `b` is not, the trailing trim keeps exactly the first `b`.
proof fn lemma_trim_end_at(s: Seq<char>, b: int)
    requires
        0 <= b <= s.len(),
        forall|j: int| b <= j < s.len() ==> is_ws(s[j]),
        b == 0 || !is_ws(s[b - 1]),
    ensures
        trim_end(s) == s.subrange(0, b),
    decreases s.len() - b,
{
    if b == s.len() {
        if s.len() == 0 || !is_ws(s.last()) {
            assert(trim_end(s) == s);
            assert(s =~= s.subrange(0, b));
        } else {
            assert(!is_ws(s[b - 1]));
            assert(is_ws(s.last()));
        }
    } else {
        assert(is_ws(s.last()));
        let t = s.drop_last();
        assert(forall|j: int| b <= j < t.len() ==> is_ws(#[trigger] t[j]));
        lemma_trim_end_at(t, b);
        assert(t.subrange(0, b) =~= s.subrange(0, b));
    }
}

/// Whether the character is stripped as blank.
fn is_ws_char(c: char) -> (r: bool)
    ensures
        r == is_ws(c),
{
    c == ' ' || c == '\t' || c == '\n' || c == '\u{000B}' || c == '\u{000C}' || c == '\r'
        || c == '\u{0085}' || c == '\u{00A0}' || c == '\u{1680}' || ('\u{2000}' <= c && c
        <= '\u{200A}') || c == '\u{2028}' || c == '\u{2029}' || c == '\u{202F}' || c
        == '\u{205F}' || c == '\u{3000}'
}

/// The line without surrounding whitespace.
fn trim_ws<'a>(s: &'a str) -> (r: &'a str)
    ensures
        r@ == trim_spec(s@),
{
    let n = s.unicode_len();
    let mut a: usize = 0;
    while a < n && is_ws_char(s.get_char(a))
        invariant
            0 <= a <= n,
            n == s@.len(),
            forall|j: int| 0 <= j < a ==> is_ws(s@[j]),
        decreases n - a,
    {
        a = a + 1;
    }
    let mut b: usize = n;
    while b > a && is_ws_char(s.get_char(b - 1))
        invariant
            a <= b <= n,
            n == s@.len(),
            forall|j: int| b <= j < n ==> is_ws(s@[j]),
        decreases b,
    {
        b = b - 1;
    }
    let r = s.substring_char(a, b);
    proof {
        lemma_trim_start_at(s@, a as int);
        let t = s@.subrange(a as int, s@.len() as int);
        assert(forall|j: int| b - a <= j < t.len() ==> is_ws(#[trigger] t[j]));
        lemma_trim_end_at(t, b - a);
        assert(t.subrange(0, b - a) =~= s@.subrange(a as int, b as int));
    }
    r
}

/// Whether a trimmed line is one of the level words the configuration tool
/// prints, or blank.
pub open spec fn recognized(line: Seq<char>) -> bool {
    let t = trim_spec(line);
    ||| t == "PackageNever"@
    ||| t == "PackageOptional"@
    ||| t == "PackageRequired"@
    ||| t == "PackageTrustedOnly"@
    ||| t == "PackageTrustAll"@
    ||| t == "DatabaseNever"@
    ||| t == "DatabaseOptional"@
    ||| t == "DatabaseRequired"@
    ||| t == "DatabaseTrustedOnly"@
    ||| t == "DatabaseTrustAll"@
    ||| t.len() == 0
}

/// What one level line does to the level built so far: each word sets or
/// clears its flags and clears the use-default marker; a blank line changes
/// nothing. An unrecognized line leaves the level unchanged here, but
/// `process_siglevel` refuses it.
pub open spec fn process_spec(default: SigLevel, line: Seq<char>) -> SigLevel {
    let t = trim_spec(line);
    if t == "PackageNever"@ {
        SigLevel { package: false, use_default: false, ..default }
    } else if t == "PackageOptional"@ {
        SigLevel { package: true, package_optional: true, use_default: false, ..default }
    } else if t == "PackageRequired"@ {
        SigLevel { package: true, package_optional: false, use_default: false, ..default }
    } else if t == "PackageTrustedOnly"@ {
        SigLevel {
            package_marginal_ok: false,
            package_unknown_ok: false,
            use_default: false,
            ..default
        }
    } else if t == "PackageTrustAll"@ {
        SigLevel {
            package_marginal_ok: true,
            package_unknown_ok: true,
            use_default: false,
            ..default
        }
    } else if t == "DatabaseNever"@ {
        SigLevel { database: false, use_default: false, ..default }
    } else if t == "DatabaseOptional"@ {
        SigLevel { database: true, database_optional: true, use_default: false, ..default }
    } else if t == "DatabaseRequired"@ {
        SigLevel { database: true, database_optional: false, use_default: false, ..default }
    } else if t == "DatabaseTrustedOnly"@ {
        SigLevel {
            database_marginal_ok: false,
            database_unknown_ok: false,
            use_default: false,
            ..default
        }
    } else if t == "DatabaseTrustAll"@ {
        SigLevel {
            database_marginal_ok: true,
            database_unknown_ok: true,
            use_default: false,
            ..default
        }
    } else {
        default
    }
}

/// Whether a trimmed line equals the given word.
fn line_is(t: &str, lit: &str) -> (r: bool)
    ensures
        r == (t@ == lit@),
{
    let a = String::from_str(t);
    let b = String::from_str(lit);
    a == b
}

/// Parses and stacks a single level line, as printed by the configuration
/// tool, onto the level built so far. Only the fine-grained words are
/// accepted; whitespace around the word is ignored, and a blank line leaves
/// the level untouched.
pub fn process_siglevel(default: SigLevel, siglevel: &str) -> (r: SigLevel)
    requires
        recognized(siglevel@),
    ensures
        r == process_spec(default, siglevel@),
{
    let t = trim_ws(siglevel);
    if line_is(t, "PackageNever") {
        SigLevel { package: false, use_default: false, ..default }
    } else if line_is(t, "PackageOptional") {
        SigLevel { package: true, package_optional: true, use_default: false, ..default }
    } else if line_is(t, "PackageRequired") {
        SigLevel { package: true, package_optional: false, use_default: false, ..default }
    } else if line_is(t, "PackageTrustedOnly") {
        SigLevel {
            package_marginal_ok: false,
            package_unknown_ok: false,
            use_default: false,
            ..default
        }
    } else if line_is(t, "PackageTrustAll") {
        SigLevel {
            package_marginal_ok: true,
            package_unknown_ok: true,
            use_default: false,
            ..default
        }
    } else if line_is(t, "DatabaseNever") {
        SigLevel { database: false, use_default: false, ..default }
    } else if line_is(t, "DatabaseOptional") {
        SigLevel { database: true, database_optional: true, use_default: false, ..default }
    } else if line_is(t, "DatabaseRequired") {
        SigLevel { database: true, database_optional: false, use_default: false, ..default }
    } else if line_is(t, "DatabaseTrustedOnly") {
        SigLevel {
            database_marginal_ok: false,
            database_unknown_ok: false,
            use_default: false,
            ..default
        }
    } else if line_is(t, "DatabaseTrustAll") {
        SigLevel {
            database_marginal_ok: true,
            database_unknown_ok: true,
            use_default: false,
            ..default
        }
    } else if t.unicode_len() == 0 {
        default
    } else {
        proof {
            assert(false);
        }
        default
    }
}

/// The position of the next line break at or after `i`, or the end.
pub open spec fn next_nl(s: Seq<char>, i: int) -> int
    decreases s.len() - i,
{
    if i < 0 || i >= s.len() {
        s.len() as int
    } else if s[i] == '\n' {
        i
    } else {
        next_nl(s, i + 1)
    }
}

/// The next line break is in range, marks a break, and nothing before it is
/// one.
proof fn lemma_next_nl_props(s: Seq<char>, i: int)
    requires
        0 <= i <= s.len(),
    ensures
        i <= next_nl(s, i) <= s.len(),
        next_nl(s, i) < s.len() ==> s[next_nl(s, i)] == '\n',
        forall|j: int| i <= j < next_nl(s, i) ==> s[j] != '\n',
    decreases s.len() - i,
{
    if i < s.len() && s[i] != '\n' {
        lemma_next_nl_props(s, i + 1);
    }
}

/// The level reached by stacking every line of `s` from position `i` on,
/// starting from `acc`. Lines are terminated by line breaks; there is no
/// empty line after a trailing break.
pub open spec fn fold_from(acc: SigLevel, s: Seq<char>, i: int) -> SigLevel
    decreases s.len() + 1 - i,
    via fold_from_decreases
{
    if i < 0 || i >= s.len() {
        acc
    } else {
        let j = next_nl(s, i);
        fold_from(process_spec(acc, s.subrange(i, j)), s, j + 1)
    }
}

#[via_fn]
proof fn fold_from_decreases(acc: SigLevel, s: Seq<char>, i: int) {
    if 0 <= i && i < s.len() {
        lemma_next_nl_props(s, i);
    }
}

/// Whether every line of `s` from position `i` on is recognized.
pub open spec fn lines_ok(s: Seq<char>, i: int) -> bool
    decreases s.len() + 1 - i,
    via lines_ok_decreases
{
    if i < 0 || i >= s.len() {
        true
    } else {
        let j = next_nl(s, i);
        recognized(s.subrange(i, j)) && lines_ok(s, j + 1)
    }
}

#[via_fn]
proof fn lines_ok_decreases(s: Seq<char>, i: int) {
    if 0 <= i && i < s.len() {
        lemma_next_nl_props(s, i);
    }
}

/// Stacks every line of a multi-line level listing onto the default, in
/// order. A trailing line break opens no extra blank line.
pub fn fold_siglevels(default: SigLevel, siglevels: String) -> (r: SigLevel)
    requires
        lines_ok(siglevels@, 0),
    ensures
        r == fold_from(default, siglevels@, 0),
{
    let s = siglevels.as_str();
    let n = s.unicode_len();
    let mut acc = default;
    let mut i: usize = 0;
    while i < n
        invariant
            0 <= i <= n,
            n == s@.len(),
            s@ == siglevels@,
            lines_ok(s@, i as int),
            fold_from(default, s@, 0) == fold_from(acc, s@, i as int),
        decreases n - i,
    {
        let ghost acc0 = acc;
        let mut j: usize = i;
        while j < n && s.get_char(j) != '\n'
            invariant
                i <= j <= n,
                n == s@.len(),
                forall|k: int| i <= k < j ==> s@[k] != '\n',
            decreases n - j,
        {
            j = j + 1;
        }
        proof {
            lemma_next_nl_props(s@, i as int);
            let nl = next_nl(s@, i as int);
            if nl < j {
                assert(s@[nl] != '\n');
            }
            if j < nl {
                assert(s@[j as int] != '\n');
            }
            assert(nl == j as int);
        }
        let segment = s.substring_char(i, j);
        acc = process_siglevel(acc, segment);
        proof {
            assert(segment@ == s@.subrange(i as int, j as int));
            assert(fold_from(acc0, s@, i as int) == fold_from(acc, s@, j as int + 1));
        }
        if j < n {
            i = j + 1;
        } else {
            proof {
                assert(fold_from(acc, s@, j as int + 1) == acc);
                assert(fold_from(acc, s@, n as int) == acc);
            }
            i = n;
        }
    }
    acc
}

} // verus!
