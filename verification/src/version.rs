use vstd::prelude::*;

verus! {

/// A parsed semantic version: the numeric triple plus the pre-release tag.
/// Build metadata is not retained; it never influences precedence here.
#[derive(Debug, Clone)]
pub struct Version {
    pub major: u64,
    pub minor: u64,
    pub patch: u64,
    pub pre: String,
}

/// Character-wise lexicographic "less than" on the tails of `a` and `b`
/// starting at position `i`.
pub open spec fn char_lex_lt_from(a: Seq<char>, b: Seq<char>, i: int) -> bool
    decreases b.len() - i,
{
    if i < 0 || i >= b.len() {
        false
    } else if i >= a.len() {
        true
    } else if a[i] != b[i] {
        (a[i] as int) < (b[i] as int)
    } else {
        char_lex_lt_from(a, b, i + 1)
    }
}

/// Character-wise lexicographic order on character sequences.
pub open spec fn char_lex_lt(a: Seq<char>, b: Seq<char>) -> bool {
    char_lex_lt_from(a, b, 0)
}

/// Order on pre-release tags: a pre-release sorts before the release
/// proper (an empty tag), and two non-empty tags compare
/// character-lexicographically.
pub open spec fn pre_lt(a: Seq<char>, b: Seq<char>) -> bool {
    if a.len() > 0 && b.len() == 0 {
        true
    } else if a.len() == 0 {
        false
    } else {
        char_lex_lt(a, b)
    }
}

/// The library's total order on versions: lexicographic on
/// (major, minor, patch), then by pre-release tag.
pub open spec fn spec_version_lt(a: Version, b: Version) -> bool {
    if a.major != b.major {
        a.major < b.major
    } else if a.minor != b.minor {
        a.minor < b.minor
    } else if a.patch != b.patch {
        a.patch < b.patch
    } else {
        pre_lt(a.pre@, b.pre@)
    }
}

/// Two versions are the same point in the order exactly when all four
/// components agree.
pub open spec fn spec_version_eq(a: Version, b: Version) -> bool {
    a.major == b.major && a.minor == b.minor && a.patch == b.patch && a.pre@ == b.pre@
}

proof fn lemma_char_lex_lt_from_trichotomy(a: Seq<char>, b: Seq<char>, i: int)
    requires
        0 <= i <= a.len(),
        0 <= i <= b.len(),
    ensures
        char_lex_lt_from(a, b, i) || char_lex_lt_from(b, a, i) || (a.len() == b.len()
            && forall|j: int| i <= j < a.len() ==> a[j] == b[j]),
    decreases a.len() - i,
{
    if i < a.len() && i < b.len() && a[i] == b[i] {
        lemma_char_lex_lt_from_trichotomy(a, b, i + 1);
    }
}

proof fn lemma_char_lex_lt_from_asymmetric(a: Seq<char>, b: Seq<char>, i: int)
    requires
        0 <= i,
        char_lex_lt_from(a, b, i),
    ensures
        !char_lex_lt_from(b, a, i),
    decreases b.len() - i,
{
    if i < a.len() && i < b.len() && a[i] == b[i] {
        lemma_char_lex_lt_from_asymmetric(a, b, i + 1);
    }
}

proof fn lemma_char_lex_lt_from_transitive(a: Seq<char>, b: Seq<char>, c: Seq<char>, i: int)
    requires
        0 <= i,
        char_lex_lt_from(a, b, i),
        char_lex_lt_from(b, c, i),
    ensures
        char_lex_lt_from(a, c, i),
    decreases c.len() - i,
{
    if i < a.len() && i < b.len() && i < c.len() && a[i] == b[i] && b[i] == c[i] {
        lemma_char_lex_lt_from_transitive(a, b, c, i + 1);
    }
}

/// The version order is total: any two versions are ordered one way, the
/// other way, or agree in all four components.
pub proof fn lemma_version_trichotomy(a: Version, b: Version)
    ensures
        spec_version_lt(a, b) || spec_version_lt(b, a) || spec_version_eq(a, b),
        !(spec_version_lt(a, b) && spec_version_lt(b, a)),
        spec_version_eq(a, b) ==> !spec_version_lt(a, b) && !spec_version_lt(b, a),
{
    lemma_char_lex_lt_from_trichotomy(a.pre@, b.pre@, 0);
    if !char_lex_lt(a.pre@, b.pre@) && !char_lex_lt(b.pre@, a.pre@) {
        assert(a.pre@ =~= b.pre@);
    }
    if char_lex_lt(a.pre@, b.pre@) {
        lemma_char_lex_lt_from_asymmetric(a.pre@, b.pre@, 0);
    }
}

/// The version order is transitive.
pub proof fn lemma_version_transitive(a: Version, b: Version, c: Version)
    requires
        spec_version_lt(a, b),
        spec_version_lt(b, c),
    ensures
        spec_version_lt(a, c),
{
    if a.major == b.major && b.major == c.major && a.minor == b.minor && b.minor == c.minor
        && a.patch == b.patch && b.patch == c.patch {
        if char_lex_lt(a.pre@, b.pre@) && char_lex_lt(b.pre@, c.pre@) {
            lemma_char_lex_lt_from_transitive(a.pre@, b.pre@, c.pre@, 0);
        }
    }
}

/// What `semver` reads out of a version string: major, minor, patch and
/// the pre-release tag, or nothing when the string is not a semantic
/// version.
pub uninterp spec fn semver_parse(s: Seq<char>) -> Option<(int, int, int, Seq<char>)>;

/// Relies on `semver::Version::parse`: the numeric components and the
/// pre-release tag of a semantic-version string; the result depends on
/// the string alone.
#[verifier::external_body]
pub(crate) fn parse_version(s: &str) -> (r: Option<Version>)
    ensures
        match r {
            Some(v) => semver_parse(s@) == Some(
                (v.major as int, v.minor as int, v.patch as int, v.pre@),
            ),
            None => semver_parse(s@) is None,
        },
{
    match semver::Version::parse(s) {
        Ok(v) => Some(
            Version {
                major: v.major,
                minor: v.minor,
                patch: v.patch,
                pre: v.pre.as_str().to_owned(),
            },
        ),
        Err(_) => None,
    }
}

/// Character-wise equality of two string slices.
pub fn str_eq(a: &str, b: &str) -> (r: bool)
    ensures
        r == (a@ == b@),
{
    let a_len = a.unicode_len();
    let b_len = b.unicode_len();
    if a_len != b_len {
        assert(a@ != b@);
        return false;
    }
    let mut i: usize = 0;
    while i < a_len
        invariant
            i <= a_len,
            a_len == a@.len(),
            a_len == b@.len(),
            forall|j: int| 0 <= j < i ==> a@[j] == b@[j],
        decreases a_len - i,
    {
        if a.get_char(i) != b.get_char(i) {
            return false;
        }
        i += 1;
    }
    assert(a@ =~= b@);
    true
}

/// Character-wise lexicographic comparison of two string slices.
pub fn str_lex_lt(a: &str, b: &str) -> (r: bool)
    ensures
        r == char_lex_lt(a@, b@),
{
    let a_len = a.unicode_len();
    let b_len = b.unicode_len();
    let mut i: usize = 0;
    loop
        invariant
            i <= a_len,
            i <= b_len,
            a_len == a@.len(),
            b_len == b@.len(),
            char_lex_lt(a@, b@) == char_lex_lt_from(a@, b@, i as int),
        decreases b_len - i,
    {
        if i >= b_len {
            return false;
        }
        if i >= a_len {
            return true;
        }
        let ca = a.get_char(i);
        let cb = b.get_char(i);
        if ca != cb {
            return (ca as u32) < (cb as u32);
        }
        i += 1;
    }
}

impl Version {
    /// A field-for-field copy, equal to the original.
    pub fn duplicate(&self) -> (r: Version)
        ensures
            r == *self,
    {
        Version { major: self.major, minor: self.minor, patch: self.patch, pre: self.pre.clone() }
    }

    /// A version with an empty pre-release tag is a full release.
    pub fn is_release(&self) -> (r: bool)
        ensures
            r == (self.pre@.len() == 0),
    {
        self.pre.as_str().unicode_len() == 0
    }

    /// Strict "precedes" in the library's version order.
    pub fn lt(&self, other: &Version) -> (r: bool)
        ensures
            r == spec_version_lt(*self, *other),
    {
        if self.major != other.major {
            self.major < other.major
        } else if self.minor != other.minor {
            self.minor < other.minor
        } else if self.patch != other.patch {
            self.patch < other.patch
        } else {
            let self_pre_len = self.pre.as_str().unicode_len();
            let other_pre_len = other.pre.as_str().unicode_len();
            if self_pre_len > 0 && other_pre_len == 0 {
                true
            } else if self_pre_len == 0 {
                false
            } else {
                str_lex_lt(self.pre.as_str(), other.pre.as_str())
            }
        }
    }

    /// Equality of all four components.
    pub fn same(&self, other: &Version) -> (r: bool)
        ensures
            r == spec_version_eq(*self, *other),
    {
        self.major == other.major && self.minor == other.minor && self.patch == other.patch
            && str_eq(self.pre.as_str(), other.pre.as_str())
    }
}

} // verus!
