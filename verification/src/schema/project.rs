//! Project metadata derived from a pane's working directory.

use vstd::prelude::*;
use crate::schema::pane_view::{clone_opt_str, clone_strings, opt_str};
use crate::time::Timestamp;

verus! {

/// The kind of project detected in a directory.
#[derive(Clone, Copy, PartialEq, Eq, Debug, Structural)]
pub enum ProjectKind {
    Rust,
    Node,
    Python,
    Mixed,
    Unknown,
}

/// A recently modified artifact directory.
pub struct ArtifactHint {
    pub path: String,
    pub updated_relative: String,
}

pub struct ArtifactHintModel {
    pub path: Seq<char>,
    pub updated_relative: Seq<char>,
}

impl View for ArtifactHint {
    type V = ArtifactHintModel;

    open spec fn view(&self) -> ArtifactHintModel {
        ArtifactHintModel { path: self.path@, updated_relative: self.updated_relative@ }
    }
}

impl Clone for ArtifactHint {
    fn clone(&self) -> (r: Self)
        ensures r == *self,
    {
        ArtifactHint { path: self.path.clone(), updated_relative: self.updated_relative.clone() }
    }
}

/// Clones a list of artifact hints.
pub fn clone_hints(v: &Vec<ArtifactHint>) -> (r: Vec<ArtifactHint>)
    ensures r@ == v@,
{
    let mut out: Vec<ArtifactHint> = Vec::new();
    let mut i: usize = 0;
    while i < v.len()
        invariant
            i <= v@.len(),
            out@ == v@.take(i as int),
        decreases v.len() - i,
    {
        out.push(v[i].clone());
        assert(out@ =~= v@.take(i + 1));
        i = i + 1;
    }
    assert(out@ =~= v@);
    out
}

/// Project metadata as clients see it.
pub struct ProjectView {
    pub kind: ProjectKind,
    pub name: Option<String>,
    pub purpose: Option<String>,
    pub stack_summary: Vec<String>,
    pub recent_artifacts: Vec<ArtifactHint>,
    pub scanned_at: Timestamp,
}

pub struct ProjectViewModel {
    pub kind: ProjectKind,
    pub name: Option<Seq<char>>,
    pub purpose: Option<Seq<char>>,
    pub stack_summary: Seq<Seq<char>>,
    pub recent_artifacts: Seq<ArtifactHintModel>,
    pub scanned_at: Timestamp,
}

impl View for ProjectView {
    type V = ProjectViewModel;

    open spec fn view(&self) -> ProjectViewModel {
        ProjectViewModel {
            kind: self.kind,
            name: opt_str(self.name),
            purpose: opt_str(self.purpose),
            stack_summary: self.stack_summary@.map_values(|s: String| s@),
            recent_artifacts: self.recent_artifacts@.map_values(|a: ArtifactHint| a@),
            scanned_at: self.scanned_at,
        }
    }
}

impl Clone for ProjectView {
    fn clone(&self) -> (r: Self)
        ensures r@ == self@,
    {
        let r = ProjectView {
            kind: self.kind,
            name: clone_opt_str(&self.name),
            purpose: clone_opt_str(&self.purpose),
            stack_summary: clone_strings(&self.stack_summary),
            recent_artifacts: clone_hints(&self.recent_artifacts),
            scanned_at: self.scanned_at,
        };
        assert(r@.stack_summary =~= self@.stack_summary);
        assert(r@.recent_artifacts =~= self@.recent_artifacts);
        r
    }
}

/// What the project collector emits for one directory.
pub struct ProjectProfile {
    pub cwd: String,
    pub kind: ProjectKind,
    pub name: Option<String>,
    pub purpose: Option<String>,
    pub stack_summary: Vec<String>,
    pub recent_artifacts: Vec<ArtifactHint>,
    pub scanned_at: Timestamp,
    pub cwd_mtime: Timestamp,
}

/// The public view of a profile: every field but `cwd` and `cwd_mtime`.
pub open spec fn profile_view(p: ProjectProfile) -> ProjectViewModel {
    ProjectViewModel {
        kind: p.kind,
        name: opt_str(p.name),
        purpose: opt_str(p.purpose),
        stack_summary: p.stack_summary@.map_values(|s: String| s@),
        recent_artifacts: p.recent_artifacts@.map_values(|a: ArtifactHint| a@),
        scanned_at: p.scanned_at,
    }
}

impl ProjectProfile {
    /// Converts into the public `ProjectView`.
    pub fn to_view(&self) -> (r: ProjectView)
        ensures r@ == profile_view(*self),
    {
        let r = ProjectView {
            kind: self.kind,
            name: clone_opt_str(&self.name),
            purpose: clone_opt_str(&self.purpose),
            stack_summary: clone_strings(&self.stack_summary),
            recent_artifacts: clone_hints(&self.recent_artifacts),
            scanned_at: self.scanned_at,
        };
        assert(r@.stack_summary =~= self.stack_summary@.map_values(|s: String| s@));
        assert(r@.recent_artifacts =~= self.recent_artifacts@.map_values(|a: ArtifactHint| a@));
        r
    }
}

} // verus!
