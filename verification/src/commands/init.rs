//! Sets a node up.
use crate::config::DEFAULT_CAPACITY;
use crate::text;
use vstd::prelude::*;
use vstd::string::*;

verus! {

/// A node that was set up.
#[derive(Debug)]
pub struct InitOutput {
    pub repo: String,
    pub node: String,
    pub github_login: String,
    pub capacity: u8,
}

/// The share of the machine that a node gets: what was given, else what it had, else the usual.
pub fn capacity(given: Option<u8>, existing: Option<u8>) -> (r: u8)
    ensures
        r == (match given {
            Some(c) => c,
            None => match existing {
                Some(c) => c,
                None => DEFAULT_CAPACITY,
            },
        }),
{
    match given {
        Some(c) => c,
        None => match existing {
            Some(c) => c,
            None => DEFAULT_CAPACITY,
        },
    }
}

impl InitOutput {
    /// The output as it is shown.
    pub fn text(&self) -> (r: String)
        ensures
            r@ == "Initialized polyresearch for "@ + self.repo@ + " as node `"@ + self.node@
                + "` (GitHub: "@ + self.github_login@ + "). Capacity: "@ + text::decimal(
                self.capacity as nat,
            ) + "% of total machine."@,
    {
        let mut r = "Initialized polyresearch for ".to_owned();
        r.append(self.repo.as_str());
        r.append(" as node `");
        r.append(self.node.as_str());
        r.append("` (GitHub: ");
        r.append(self.github_login.as_str());
        r.append("). Capacity: ");
        r.append(text::number(self.capacity as u64).as_str());
        r.append("% of total machine.");
        r
    }
}

/// What is said where issues could not be enabled on a repository.
pub fn issues_notice(error: &str, slug: &str) -> (r: String)
    ensures
        r@ == "Warning: could not enable Issues: "@ + error@
            + "\n  Enable them manually: gh api repos/"@ + slug@
            + " --method PATCH -F has_issues=true"@,
{
    let mut r = "Warning: could not enable Issues: ".to_owned();
    r.append(error);
    r.append("\n  Enable them manually: gh api repos/");
    r.append(slug);
    r.append(" --method PATCH -F has_issues=true");
    r
}

} // verus!
