//! Runtime policies: which packages are masked, which keywords are accepted and which
//! USE flags are in effect.
pub mod pkgmask;
pub mod keyword;
pub mod useflag;

use crate::error::Error;
use crate::package::PackageView;
use crate::policy::keyword::{EffectiveKeywords, keywords_accepted, testing_only};
use crate::policy::pkgmask::{PackageMasks, masked_by};
use crate::policy::useflag::{UsePolicy, available_flags, enabled_flags, eval_all};
use vstd::prelude::*;

verus! {

/// The policy in effect for packages: keywords, USE flags and masks.
#[derive(Debug)]
pub struct PackagePolicy {
    keywords: EffectiveKeywords,
    usepolicy: UsePolicy,
    pkgmasks: PackageMasks,
}

impl PackagePolicy {
    /// Combines the keyword, USE and mask policies.
    pub fn new(keywords: EffectiveKeywords, usepolicy: UsePolicy, pkgmasks: PackageMasks) -> (r: Self)
        ensures
            r.keywords() == keywords,
            r.use_policy() == usepolicy,
            r.masks() == pkgmasks,
    {
        PackagePolicy { keywords, usepolicy, pkgmasks }
    }

    /// The keyword policy.
    pub closed spec fn keywords(&self) -> EffectiveKeywords {
        self.keywords
    }

    /// The USE policy.
    pub closed spec fn use_policy(&self) -> UsePolicy {
        self.usepolicy
    }

    /// The masks.
    pub closed spec fn masks(&self) -> PackageMasks {
        self.pkgmasks
    }

    /// Returns whether `pkg` is a candidate: its keywords are accepted, it is not masked,
    /// and its USE state satisfies its `REQUIRED_USE`, evaluated with the stable masks and
    /// forces where a stable keyword is in use. An unavailable flag in `REQUIRED_USE` is
    /// an error.
    pub fn evaluate<P: PackageView>(&self, pkg: &P) -> (r: Result<bool, Error>)
        ensures
            ({
                let k = self.keywords();
                let ks = pkg.metadata_model().keywords;
                let acc = keywords_accepted(
                    k.accept(),
                    k.rules(),
                    pkg.cpv_model(),
                    pkg.repo_model(),
                    pkg.metadata_model().slot,
                    ks,
                );
                let stable = acc && !keywords_accepted(
                    k.accept(),
                    k.rules(),
                    pkg.cpv_model(),
                    pkg.repo_model(),
                    pkg.metadata_model().slot,
                    testing_only(ks),
                );
                let u = self.use_policy().model();
                let avail = available_flags(pkg.metadata_model().iuse, u.implicit);
                let on = enabled_flags(
                    avail,
                    u,
                    pkg.metadata_model().iuse,
                    pkg.cpv_model(),
                    pkg.repo_model(),
                    pkg.metadata_model().slot,
                    stable,
                );
                let masked = masked_by(
                    self.masks().masks(),
                    self.masks().unmasks(),
                    pkg.cpv_model(),
                    pkg.repo_model(),
                    pkg.metadata_model().slot,
                );
                match eval_all(pkg.metadata_model().required_use, avail, on) {
                    Ok(b) => r == Ok::<bool, Error>(acc && !masked && b),
                    Err(_) => r matches Err(e) && e.text() == "failed to evaluate required USE flags"@,
                }
            }),
    {
        let keyword = self.keywords.evaluate(pkg);
        let use_satisfied = match self.usepolicy.required_use_satisfied(pkg, keyword.stable_in_use) {
            Ok(b) => b,
            Err(_) => return Err(Error::new("failed to evaluate required USE flags")),
        };
        Ok(keyword.accepted && !self.pkgmasks.is_masked(pkg) && use_satisfied)
    }
}

} // verus!
