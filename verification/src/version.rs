//! Semantic versions, release artifacts and the platforms that releases
//! are built for.

use crate::text::{decimal, push_decimal, str_eq, to_chars};
use vstd::prelude::*;
use vstd::string::*;

verus! {

/// Semantic version following SemVer 2.0.0.
#[derive(Debug, Clone, Copy, PartialEq, Eq, PartialOrd, Ord, Structural)]
pub struct SemanticVersion {
    /// Major version (breaking changes).
    pub major: u32,
    /// Minor version (feature additions).
    pub minor: u32,
    /// Patch version (bug fixes).
    pub patch: u32,
}

/// The code of a decimal digit's value, for a character that is one.
pub open spec fn digit_value(c: char) -> int {
    c as u32 - 48
}

/// Whether a character is a decimal digit.
pub open spec fn is_decimal_digit(c: char) -> bool {
    48 <= c as u32 <= 57
}

/// The number that a run of digits writes in base ten.
pub open spec fn number_of(digits: Seq<char>) -> nat
    decreases digits.len(),
{
    if digits.len() == 0 {
        0
    } else {
        (number_of(digits.drop_last()) * 10 + digit_value(digits.last())) as nat
    }
}

/// The unsigned 32-bit number that a text writes: an optional plus sign
/// and one digit or more, with a value that fits. Nothing else is a
/// number: no blanks, no minus sign, no empty text.
pub open spec fn u32_of(s: Seq<char>) -> Option<u32> {
    let digits = unsigned_part(s);
    if digits.len() > 0 && all_digits(digits) && number_of(digits) <= u32::MAX {
        Some(number_of(digits) as u32)
    } else {
        None
    }
}

/// A text without the plus sign at its start, if it has one.
pub open spec fn unsigned_part(s: Seq<char>) -> Seq<char> {
    if s.len() > 0 && s[0] == '+' {
        s.drop_first()
    } else {
        s
    }
}

/// Whether every character of a text is a decimal digit.
pub open spec fn all_digits(digits: Seq<char>) -> bool {
    forall|i: int| 0 <= i < digits.len() ==> is_decimal_digit(#[trigger] digits[i])
}

proof fn lemma_number_grows(digits: Seq<char>, n: int)
    requires
        0 <= n <= digits.len(),
        forall|i: int| 0 <= i < digits.len() ==> is_decimal_digit(#[trigger] digits[i]),
    ensures
        number_of(digits.take(n)) <= number_of(digits),
    decreases digits.len() - n,
{
    if n < digits.len() {
        lemma_number_grows(digits, n + 1);
        assert(digits.take(n + 1).drop_last() =~= digits.take(n));
        assert(digits.take(n + 1).last() == digits[n]);
    } else {
        assert(digits.take(n) =~= digits);
    }
}

/// The unsigned 32-bit number that the characters `s[from..to]` write.
pub fn parse_u32(s: &[char], from: usize, to: usize) -> (r: Option<u32>)
    requires
        from <= to <= s.len(),
    ensures
        r == u32_of(s@.subrange(from as int, to as int)),
{
    let ghost text = s@.subrange(from as int, to as int);
    let start: usize = if from < to && s[from] == '+' {
        from + 1
    } else {
        from
    };
    let ghost digits = s@.subrange(start as int, to as int);
    proof {
        if from < to && s[from as int] == '+' {
            assert(text[0] == '+');
            assert(text.drop_first() =~= digits);
        } else {
            if from < to {
                assert(text[0] == s[from as int]);
            }
            assert(text =~= digits);
        }
    }
    if start == to {
        return None;
    }
    let mut acc: u64 = 0;
    let mut i: usize = start;
    proof {
        assert(digits.take(0) =~= Seq::<char>::empty());
    }
    while i < to
        invariant
            start <= i <= to <= s.len(),
            from <= start,
            digits == s@.subrange(start as int, to as int),
            text == s@.subrange(from as int, to as int),
            digits == unsigned_part(text),
            forall|k: int| 0 <= k < i - start ==> is_decimal_digit(#[trigger] digits[k]),
            acc == number_of(digits.take(i - start)),
            acc <= u32::MAX,
        decreases to - i,
    {
        let c = s[i];
        let code = c as u32;
        proof {
            assert(digits[i - start] == c);
        }
        if code < 48 || code > 57 {
            proof {
                assert(!is_decimal_digit(digits[i - start]));
                assert(!all_digits(digits));
            }
            return None;
        }
        let next: u64 = acc * 10 + (code - 48) as u64;
        proof {
            assert(digits.take(i - start + 1).drop_last() =~= digits.take(i - start));
            assert(digits.take(i - start + 1).last() == c);
        }
        if next > u32::MAX as u64 {
            proof {
                // Every further character either is no digit or makes the
                // number larger still.
                if all_digits(digits) {
                    lemma_number_grows(digits, i - start + 1);
                    assert(number_of(digits.take(i - start + 1)) == next);
                    assert(number_of(digits) > u32::MAX);
                }
            }
            return None;
        }
        acc = next;
        i += 1;
    }
    proof {
        assert(digits.take(to - start) =~= digits);
    }
    Some(acc as u32)
}

/// The positions of the dots of a text.
pub open spec fn dots(s: Seq<char>, n: nat) -> Seq<int>
    decreases n,
{
    if n == 0 || n > s.len() {
        Seq::<int>::empty()
    } else if s[n - 1] == '.' {
        dots(s, (n - 1) as nat).push(n - 1)
    } else {
        dots(s, (n - 1) as nat)
    }
}

/// The message for a text that is not three parts separated by dots.
pub open spec fn format_message() -> Seq<char> {
    "Invalid version format, expected MAJOR.MINOR.PATCH"@
}

/// The version that a text writes: three unsigned numbers separated by
/// two dots; or the message that says what is wrong with the text, the
/// parts taken from left to right.
pub open spec fn version_of(s: Seq<char>) -> Result<SemanticVersion, Seq<char>> {
    let d = dots(s, s.len());
    if d.len() != 2 {
        Err(format_message())
    } else {
        match u32_of(s.subrange(0, d[0])) {
            None => Err("Major version must be a number"@),
            Some(major) => match u32_of(s.subrange(d[0] + 1, d[1])) {
                None => Err("Minor version must be a number"@),
                Some(minor) => match u32_of(s.subrange(d[1] + 1, s.len() as int)) {
                    None => Err("Patch version must be a number"@),
                    Some(patch) => Ok(SemanticVersion { major, minor, patch }),
                },
            },
        }
    }
}

/// The view of the result of reading a version.
pub open spec fn version_result(r: Result<SemanticVersion, String>) -> Result<
    SemanticVersion,
    Seq<char>,
> {
    match r {
        Ok(v) => Ok(v),
        Err(m) => Err(m@),
    }
}

proof fn lemma_dots_bounds(s: Seq<char>, n: nat)
    requires
        n <= s.len(),
    ensures
        forall|i: int|
            0 <= i < dots(s, n).len() ==> 0 <= #[trigger] dots(s, n)[i] < n && s[dots(s, n)[i]]
                == '.',
        forall|i: int, j: int|
            0 <= i < j < dots(s, n).len() ==> #[trigger] dots(s, n)[i] < #[trigger] dots(s, n)[j],
    decreases n,
{
    if n > 0 {
        lemma_dots_bounds(s, (n - 1) as nat);
        let prev = dots(s, (n - 1) as nat);
        let cur = dots(s, n);
        if s[n - 1] == '.' {
            assert(cur == prev.push(n - 1));
            assert forall|i: int| 0 <= i < cur.len() implies 0 <= #[trigger] cur[i] < n && s[cur[i]]
                == '.' by {
                if i < prev.len() {
                    assert(cur[i] == prev[i]);
                }
            }
            assert forall|i: int, j: int| 0 <= i < j < cur.len() implies #[trigger] cur[i]
                < #[trigger] cur[j] by {
                assert(cur[i] == prev[i]);
                if j < prev.len() {
                    assert(cur[j] == prev[j]);
                }
            }
        }
    }
}

impl SemanticVersion {
    /// The version written out: the three numbers separated by dots.
    pub open spec fn text(self) -> Seq<char> {
        decimal(self.major as nat) + "."@ + decimal(self.minor as nat) + "."@ + decimal(
            self.patch as nat,
        )
    }

    /// Whether this version is `minimum` or later.
    pub open spec fn at_least(self, minimum: SemanticVersion) -> bool {
        if self.major != minimum.major {
            self.major > minimum.major
        } else if self.minor != minimum.minor {
            self.minor > minimum.minor
        } else {
            self.patch >= minimum.patch
        }
    }

    /// Create a new semantic version.
    pub fn new(major: u32, minor: u32, patch: u32) -> (v: Self)
        ensures
            v == (SemanticVersion { major, minor, patch }),
    {
        SemanticVersion { major, minor, patch }
    }

    /// Parse semantic version from string (e.g., "0.1.0").
    pub fn parse(s: &str) -> (r: Result<Self, String>)
        ensures
            version_result(r) == version_of(s@),
    {
        let chars = to_chars(s);
        let mut found: Vec<usize> = Vec::new();
        let mut i: usize = 0;
        while i < chars.len()
            invariant
                i <= chars.len(),
                chars@ == s@,
                found.len() == dots(s@, i as nat).len(),
                forall|k: int| 0 <= k < found.len() ==> found@[k] as int == dots(s@, i as nat)[k],
            decreases chars.len() - i,
        {
            if chars[i] == '.' {
                found.push(i);
            }
            i += 1;
        }
        if found.len() != 2 {
            return Err(String::from_str("Invalid version format, expected MAJOR.MINOR.PATCH"));
        }
        proof {
            lemma_dots_bounds(s@, s@.len());
        }
        let first = found[0];
        let second = found[1];
        let major = match parse_u32(chars.as_slice(), 0, first) {
            Some(n) => n,
            None => {
                return Err(String::from_str("Major version must be a number"));
            },
        };
        let minor = match parse_u32(chars.as_slice(), first + 1, second) {
            Some(n) => n,
            None => {
                return Err(String::from_str("Minor version must be a number"));
            },
        };
        let patch = match parse_u32(chars.as_slice(), second + 1, chars.len()) {
            Some(n) => n,
            None => {
                return Err(String::from_str("Patch version must be a number"));
            },
        };
        Ok(SemanticVersion { major, minor, patch })
    }

    /// Check if this version is compatible with a minimum required
    /// version: if it is that version or a later one.
    pub fn is_compatible_with(&self, minimum: SemanticVersion) -> (b: bool)
        ensures
            b == self.at_least(minimum),
    {
        if self.major != minimum.major {
            return self.major > minimum.major;
        }
        if self.minor != minimum.minor {
            return self.minor > minimum.minor;
        }
        self.patch >= minimum.patch
    }

    /// Increment major version (reset minor and patch).
    pub fn bump_major(&mut self)
        requires
            old(self).major < u32::MAX,
        ensures
            *final(self) == (SemanticVersion { major: (old(self).major + 1) as u32, minor: 0, patch: 0 }),
    {
        self.major += 1;
        self.minor = 0;
        self.patch = 0;
    }

    /// Increment minor version (reset patch).
    pub fn bump_minor(&mut self)
        requires
            old(self).minor < u32::MAX,
        ensures
            *final(self) == (SemanticVersion {
                major: old(self).major,
                minor: (old(self).minor + 1) as u32,
                patch: 0,
            }),
    {
        self.minor += 1;
        self.patch = 0;
    }

    /// Increment patch version.
    pub fn bump_patch(&mut self)
        requires
            old(self).patch < u32::MAX,
        ensures
            *final(self) == (SemanticVersion {
                major: old(self).major,
                minor: old(self).minor,
                patch: (old(self).patch + 1) as u32,
            }),
    {
        self.patch += 1;
    }

    /// Appends the version, written out, to `out`.
    pub fn write_to(&self, out: &mut String)
        ensures
            final(out)@ == old(out)@ + self.text(),
    {
        push_decimal(out, self.major as u128);
        out.append(".");
        push_decimal(out, self.minor as u128);
        out.append(".");
        push_decimal(out, self.patch as u128);
        assert(out@ =~= old(out)@ + self.text());
    }

    /// The version written out.
    pub fn to_string(&self) -> (s: String)
        ensures
            s@ == self.text(),
    {
        let mut s = String::new();
        self.write_to(&mut s);
        assert(s@ =~= self.text());
        s
    }
}

/// The code of a character with capital ASCII letters made small.
pub open spec fn folded(c: char) -> u32 {
    if 65 <= c as u32 <= 90 {
        (c as u32 + 32) as u32
    } else {
        c as u32
    }
}

/// Whether two texts are the same but for the case of their ASCII
/// letters.
pub open spec fn same_ignoring_ascii_case(a: Seq<char>, b: Seq<char>) -> bool {
    a.len() == b.len() && forall|i: int| 0 <= i < a.len() ==> folded(#[trigger] a[i]) == folded(b[i])
}

fn fold(c: char) -> (r: u32)
    ensures
        r == folded(c),
{
    let code = c as u32;
    if 65 <= code && code <= 90 {
        code + 32
    } else {
        code
    }
}

/// Whether two strings are the same but for the case of their ASCII
/// letters.
pub fn eq_ignore_ascii_case(a: &str, b: &str) -> (r: bool)
    ensures
        r == same_ignoring_ascii_case(a@, b@),
{
    let x = to_chars(a);
    let y = to_chars(b);
    if x.len() != y.len() {
        return false;
    }
    let mut i: usize = 0;
    while i < x.len()
        invariant
            i <= x.len(),
            x.len() == y.len(),
            x@ == a@,
            y@ == b@,
            forall|k: int| 0 <= k < i ==> folded(#[trigger] x@[k]) == folded(y@[k]),
        decreases x.len() - i,
    {
        if fold(x[i]) != fold(y[i]) {
            assert(folded(x@[i as int]) != folded(y@[i as int]));
            return false;
        }
        i += 1;
    }
    true
}

/// Release artifact metadata.
#[derive(Debug, Clone)]
pub struct ReleaseArtifact {
    /// Semantic version of the release.
    pub version: SemanticVersion,
    /// Target platform (e.g., "linux-x86_64").
    pub target: String,
    /// SHA256 checksum of the binary.
    pub checksum: String,
    /// Whether this is a reproducible build.
    pub reproducible: bool,
}

impl ReleaseArtifact {
    /// The name of the artifact's file.
    pub open spec fn file_name(self) -> Seq<char> {
        "invar-"@ + self.version.text() + "-"@ + self.target@
    }

    /// The artifact written out.
    pub open spec fn text(self) -> Seq<char> {
        "invar "@ + self.version.text() + " ("@ + self.target@ + ") ["@ + self.checksum@ + "]"@
    }

    /// Create a new release artifact.
    pub fn new(version: SemanticVersion, target: String, checksum: String, reproducible: bool) -> (a:
        Self)
        ensures
            a.version == version,
            a.target == target,
            a.checksum == checksum,
            a.reproducible == reproducible,
    {
        ReleaseArtifact { version, target, checksum, reproducible }
    }

    /// Compute expected artifact filename.
    pub fn filename(&self) -> (s: String)
        ensures
            s@ == self.file_name(),
    {
        let mut s = String::from_str("invar-");
        self.version.write_to(&mut s);
        s.append("-");
        s.append(self.target.as_str());
        assert(s@ =~= self.file_name());
        s
    }

    /// Verify that artifact checksum matches expected value, whatever
    /// the case of its letters.
    pub fn verify_checksum(&self, actual_checksum: &str) -> (b: bool)
        ensures
            b == same_ignoring_ascii_case(self.checksum@, actual_checksum@),
    {
        eq_ignore_ascii_case(self.checksum.as_str(), actual_checksum)
    }

    /// The artifact written out.
    pub fn to_string(&self) -> (s: String)
        ensures
            s@ == self.text(),
    {
        let mut s = String::from_str("invar ");
        self.version.write_to(&mut s);
        s.append(" (");
        s.append(self.target.as_str());
        s.append(") [");
        s.append(self.checksum.as_str());
        s.append("]");
        assert(s@ =~= self.text());
        s
    }
}

/// Reproducible build configuration.
#[derive(Debug, Clone)]
pub struct ReproducibleBuildConfig {
    /// Enable LTO (Link Time Optimization).
    pub lto: bool,
    /// Optimization level (0-3).
    pub opt_level: u32,
    /// Strip debug symbols.
    pub strip: bool,
    /// Pin Rust version.
    pub rust_version: String,
}

impl ReproducibleBuildConfig {
    /// Create default reproducible build configuration.
    pub fn default_release() -> (c: Self)
        ensures
            c.lto,
            c.opt_level == 3,
            !c.strip,
            c.rust_version@ == "1.70.0"@,
    {
        ReproducibleBuildConfig {
            lto: true,
            opt_level: 3,
            strip: false,
            rust_version: String::from_str("1.70.0"),
        }
    }

    /// Verify that build environment matches configuration.
    pub fn verify_environment(&self, current_rust_version: &str) -> (r: Result<(), String>)
        ensures
            match r {
                Ok(_) => current_rust_version@ == self.rust_version@,
                Err(m) => current_rust_version@ != self.rust_version@ && m@
                    == "Rust version mismatch: expected "@ + self.rust_version@ + ", got "@
                    + current_rust_version@,
            },
    {
        if !str_eq(current_rust_version, self.rust_version.as_str()) {
            let mut m = String::from_str("Rust version mismatch: expected ");
            m.append(self.rust_version.as_str());
            m.append(", got ");
            m.append(current_rust_version);
            return Err(m);
        }
        Ok(())
    }
}

/// Supported platforms for binary releases.
#[derive(Debug, Clone, Copy, PartialEq, Eq, Structural)]
pub enum Platform {
    /// Linux x86_64.
    LinuxX86_64,
    /// Linux aarch64 (ARM64).
    LinuxAarch64,
    /// macOS x86_64 (Intel).
    MacOSX86_64,
    /// macOS aarch64 (Apple Silicon).
    MacOSAarch64,
    /// Windows x86_64.
    WindowsX86_64,
}

impl Platform {
    /// The target triple of the platform.
    pub open spec fn triple(self) -> Seq<char> {
        match self {
            Platform::LinuxX86_64 => "x86_64-unknown-linux-gnu"@,
            Platform::LinuxAarch64 => "aarch64-unknown-linux-gnu"@,
            Platform::MacOSX86_64 => "x86_64-apple-darwin"@,
            Platform::MacOSAarch64 => "aarch64-apple-darwin"@,
            Platform::WindowsX86_64 => "x86_64-pc-windows-msvc"@,
        }
    }

    /// The suffix of the platform's artifacts.
    pub open spec fn suffix(self) -> Seq<char> {
        match self {
            Platform::LinuxX86_64 => "linux-x86_64"@,
            Platform::LinuxAarch64 => "linux-aarch64"@,
            Platform::MacOSX86_64 => "darwin-x86_64"@,
            Platform::MacOSAarch64 => "darwin-aarch64"@,
            Platform::WindowsX86_64 => "windows-x86_64"@,
        }
    }

    /// Get the target triple for this platform.
    pub fn target_triple(&self) -> (s: &'static str)
        ensures
            s@ == self.triple(),
    {
        match self {
            Platform::LinuxX86_64 => "x86_64-unknown-linux-gnu",
            Platform::LinuxAarch64 => "aarch64-unknown-linux-gnu",
            Platform::MacOSX86_64 => "x86_64-apple-darwin",
            Platform::MacOSAarch64 => "aarch64-apple-darwin",
            Platform::WindowsX86_64 => "x86_64-pc-windows-msvc",
        }
    }

    /// Get the artifact filename suffix for this platform.
    pub fn artifact_suffix(&self) -> (s: &'static str)
        ensures
            s@ == self.suffix(),
    {
        match self {
            Platform::LinuxX86_64 => "linux-x86_64",
            Platform::LinuxAarch64 => "linux-aarch64",
            Platform::MacOSX86_64 => "darwin-x86_64",
            Platform::MacOSAarch64 => "darwin-aarch64",
            Platform::WindowsX86_64 => "windows-x86_64",
        }
    }

    /// The suffix of the platform's artifacts, as an owned string.
    pub fn to_string(&self) -> (s: String)
        ensures
            s@ == self.suffix(),
    {
        String::from_str(self.artifact_suffix())
    }

    /// Get all supported platforms.
    pub fn all() -> (v: Vec<Platform>)
        ensures
            v@ == seq![
                Platform::LinuxX86_64,
                Platform::LinuxAarch64,
                Platform::MacOSX86_64,
                Platform::MacOSAarch64,
                Platform::WindowsX86_64,
            ],
    {
        vec![
            Platform::LinuxX86_64,
            Platform::LinuxAarch64,
            Platform::MacOSX86_64,
            Platform::MacOSAarch64,
            Platform::WindowsX86_64,
        ]
    }
}

} // verus!
