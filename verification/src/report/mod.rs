//! Machine-readable output: stable codes, events and findings, the documents
//! a run produces and the exit-code contract. Human text is never parsed by
//! anything; the codes are.

pub mod documents;
pub mod exit;
pub mod stamps;
pub mod time;

use vstd::prelude::*;

use crate::text;

verus! {

/// One verification or uninstall finding.
#[derive(Debug, Clone, PartialEq, Eq)]
pub struct Finding {
    pub code: &'static str,
    pub path: Option<String>,
    pub detail: Option<String>,
}

/// What a [`Finding`] says.
#[verifier::ext_equal]
pub struct FindingView {
    pub code: Seq<char>,
    pub path: Option<Seq<char>>,
    pub detail: Option<Seq<char>>,
}

impl View for Finding {
    type V = FindingView;

    open spec fn view(&self) -> FindingView {
        FindingView {
            code: self.code@,
            path: text::option_view(self.path),
            detail: text::option_view(self.detail),
        }
    }
}

/// A finding about the resource `path` names.
pub open spec fn finding(code: Seq<char>, path: Seq<char>) -> FindingView {
    FindingView { code, path: Some(path), detail: None }
}

impl Finding {
    /// A finding about a place in the file system.
    pub fn at(code: &'static str, path: &str) -> (r: Finding)
        ensures
            r.code == code,
            r@ == finding(code@, path@),
    {
        Finding { code, path: Some(text::owned(path)), detail: None }
    }

    /// A finding about a resource named by something other than a
    /// filesystem path: a registry key and value, a PATH entry.
    pub fn named(code: &'static str, name: &str) -> (r: Finding)
        ensures
            r.code == code,
            r@ == finding(code@, name@),
    {
        Finding { code, path: Some(text::owned(name)), detail: None }
    }

    /// A finding about the run as a whole.
    pub fn plain(code: &'static str, detail: &str) -> (r: Finding)
        ensures
            r.code == code,
            r@ == (FindingView { code: code@, path: None, detail: Some(detail@) }),
    {
        Finding { code, path: None, detail: Some(text::owned(detail)) }
    }

    /// A copy of the finding.
    pub fn copy(&self) -> (r: Finding)
        ensures
            r == *self,
    {
        Finding { code: self.code, path: self.path.clone(), detail: self.detail.clone() }
    }
}

}
