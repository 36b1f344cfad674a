//! Release operations: where a workspace keeps its releases, whether it
//! is ready for one, and the manifest of a release.

use crate::version::{eq_ignore_ascii_case, same_ignoring_ascii_case};
use crate::version::{ReleaseArtifact, SemanticVersion};
use std::path::PathBuf;
use vstd::prelude::*;
use vstd::string::*;

verus! {

/// A path of the file system. The library carries paths; it does not
/// look inside them.
#[verifier::external_type_specification]
#[verifier::external_body]
pub struct ExPathBuf(PathBuf);

/// The path of `name` inside `root`: `Path::join`, which puts the
/// platform's separator between the two where one is needed.
#[verifier::external_body]
fn join_path(root: &PathBuf, name: &str) -> (r: PathBuf) {
    root.join(name)
}

/// Release operations manager.
pub struct ReleaseManager {
    /// Workspace root directory.
    pub workspace_root: PathBuf,
    /// Release output directory: `releases` inside the workspace root.
    pub release_dir: PathBuf,
}

/// The head of a manifest.
pub open spec fn manifest_head(version: SemanticVersion) -> Seq<char> {
    "# Invar Release "@ + version.text() + "\n\n"@ + "## Artifacts\n\n"@
}

/// The line of a manifest for one artifact.
pub open spec fn manifest_line(artifact: ReleaseArtifact) -> Seq<char> {
    "- "@ + artifact.file_name() + " ("@ + artifact.checksum@ + ")\n"@
}

/// The lines of a manifest for the first `n` artifacts.
pub open spec fn manifest_lines(artifacts: Seq<ReleaseArtifact>, n: nat) -> Seq<char>
    decreases n,
{
    if n == 0 || n > artifacts.len() {
        Seq::<char>::empty()
    } else {
        manifest_lines(artifacts, (n - 1) as nat) + manifest_line(artifacts[n - 1])
    }
}

/// The foot of every manifest: how to install and how to verify.
pub open spec fn manifest_foot() -> Seq<char> {
    "\n## Installation\n\n"@ + "```bash\n"@
        + "# Extract the appropriate archive for your platform:\n"@
        + "tar xzf invar-VERSION-PLATFORM.tar.gz\n"@ + "sudo mv invar /usr/local/bin/\n"@ + "```\n"@
        + "\n## Verification\n\n"@ + "Verify the checksum (replace CHECKSUM):\n"@ + "```bash\n"@
        + "sha256sum -c invar-CHECKSUM.txt\n"@ + "```\n"@
}

/// The manifest of a release.
pub open spec fn manifest_text(version: SemanticVersion, artifacts: Seq<ReleaseArtifact>) -> Seq<
    char,
> {
    manifest_head(version) + manifest_lines(artifacts, artifacts.len()) + manifest_foot()
}

fn push_foot(out: &mut String)
    ensures
        final(out)@ == old(out)@ + manifest_foot(),
{
    out.append("\n## Installation\n\n");
    out.append("```bash\n");
    out.append("# Extract the appropriate archive for your platform:\n");
    out.append("tar xzf invar-VERSION-PLATFORM.tar.gz\n");
    out.append("sudo mv invar /usr/local/bin/\n");
    out.append("```\n");
    out.append("\n## Verification\n\n");
    out.append("Verify the checksum (replace CHECKSUM):\n");
    out.append("```bash\n");
    out.append("sha256sum -c invar-CHECKSUM.txt\n");
    out.append("```\n");
    assert(out@ =~= old(out)@ + manifest_foot());
}

/// Whether a workspace is ready for a release: it must hold its lock
/// file and its manifest; the lock file is asked for first.
pub open spec fn readiness(lock_present: bool, manifest_present: bool) -> Result<(), Seq<char>> {
    if !lock_present {
        Err("Cargo.lock not committed (required for reproducible builds)"@)
    } else if !manifest_present {
        Err("Cargo.toml not found in workspace root"@)
    } else {
        Ok(())
    }
}

/// What is to be said of an artifact whose checksum was computed: nothing
/// if it is the expected one, whatever the case of its letters, else the
/// mismatch.
pub open spec fn checksum_verdict(expected: Seq<char>, computed: Seq<char>) -> Result<
    (),
    Seq<char>,
> {
    if same_ignoring_ascii_case(computed, expected) {
        Ok(())
    } else {
        Err("Checksum mismatch: expected "@ + expected + ", got "@ + computed)
    }
}

/// The view of a result that carries a message.
pub open spec fn message_result(r: Result<(), String>) -> Result<(), Seq<char>> {
    match r {
        Ok(_) => Ok(()),
        Err(m) => Err(m@),
    }
}

impl ReleaseManager {
    /// Create a new release manager.
    pub fn new(workspace_root: PathBuf) -> (m: Self)
        ensures
            m.workspace_root == workspace_root,
    {
        let release_dir = join_path(&workspace_root, "releases");
        ReleaseManager { workspace_root, release_dir }
    }

    /// Whether a workspace is ready for a release, given which of its
    /// files are there.
    pub fn release_readiness(lock_present: bool, manifest_present: bool) -> (r: Result<(), String>)
        ensures
            message_result(r) == readiness(lock_present, manifest_present),
    {
        if !lock_present {
            return Err(
                String::from_str("Cargo.lock not committed (required for reproducible builds)"),
            );
        }
        if !manifest_present {
            return Err(String::from_str("Cargo.toml not found in workspace root"));
        }
        Ok(())
    }

    /// Generate release manifest listing all artifacts.
    pub fn generate_manifest(&self, version: SemanticVersion, artifacts: &[ReleaseArtifact]) -> (s:
        String)
        ensures
            s@ == manifest_text(version, artifacts@),
    {
        let mut manifest = String::from_str("# Invar Release ");
        version.write_to(&mut manifest);
        manifest.append("\n\n");
        manifest.append("## Artifacts\n\n");
        assert(manifest@ =~= manifest_head(version) + manifest_lines(artifacts@, 0));
        let mut i: usize = 0;
        while i < artifacts.len()
            invariant
                i <= artifacts.len(),
                manifest@ == manifest_head(version) + manifest_lines(artifacts@, i as nat),
            decreases artifacts.len() - i,
        {
            let ghost before = manifest@;
            manifest.append("- ");
            let name = artifacts[i].filename();
            manifest.append(name.as_str());
            manifest.append(" (");
            manifest.append(artifacts[i].checksum.as_str());
            manifest.append(")\n");
            proof {
                assert(manifest@ =~= before + manifest_line(artifacts@[i as int]));
                assert(manifest@ =~= manifest_head(version) + manifest_lines(
                    artifacts@,
                    (i + 1) as nat,
                ));
            }
            i += 1;
        }
        push_foot(&mut manifest);
        manifest
    }

    /// What is to be said of an artifact whose checksum was computed.
    pub fn checksum_verdict(expected_checksum: &str, computed: &str) -> (r: Result<(), String>)
        ensures
            message_result(r) == checksum_verdict(expected_checksum@, computed@),
    {
        if !eq_ignore_ascii_case(computed, expected_checksum) {
            let mut m = String::from_str("Checksum mismatch: expected ");
            m.append(expected_checksum);
            m.append(", got ");
            m.append(computed);
            return Err(m);
        }
        Ok(())
    }
}

} // verus!
