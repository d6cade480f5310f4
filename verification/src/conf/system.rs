//! Settings of the system that repository operations share.
use crate::ebuild::{path_join, push_path};
use vstd::prelude::*;

verus! {

/// Settings shared by repository operations.
#[derive(Debug, Clone)]
pub struct SysConf {
    /// Root of the configuration files, usually `/`.
    config_root: String,
    /// Maximum number of isolated ebuild requests that may run concurrently.
    ebuild_jobs: usize,
}

impl SysConf {
    /// The configuration root.
    pub closed spec fn root(&self) -> Seq<char> {
        self.config_root@
    }

    /// The maximum number of concurrent ebuild requests.
    pub closed spec fn jobs(&self) -> usize {
        self.ebuild_jobs
    }

    /// Settings with the configuration root `config_root` and one ebuild job.
    pub fn new(config_root: String) -> (r: Self)
        ensures
            r.root() == config_root@,
            r.jobs() == 1,
    {
        SysConf { config_root, ebuild_jobs: 1 }
    }

    /// Sets the number of concurrent ebuild requests, which must not be zero.
    pub fn with_ebuild_jobs(self, jobs: usize) -> (r: Self)
        requires
            jobs > 0,
        ensures
            r.root() == self.root(),
            r.jobs() == jobs,
    {
        SysConf { config_root: self.config_root, ebuild_jobs: jobs }
    }

    /// Returns the path of the user's Portage configuration, usually `/etc/portage`.
    pub fn portage_conf(&self) -> (r: String)
        ensures
            r@ == path_join(self.root(), "etc/portage"@),
    {
        let mut p = self.config_root.clone();
        push_path(&mut p, "etc/portage");
        p
    }

    /// Returns the path of the default Portage configuration, usually
    /// `/usr/share/portage/config`.
    pub fn default_portage_conf(&self) -> (r: String)
        ensures
            r@ == path_join(self.root(), "usr/share/portage/config"@),
    {
        let mut p = self.config_root.clone();
        push_path(&mut p, "usr/share/portage/config");
        p
    }

    /// Returns the maximum number of concurrent ebuild requests.
    pub fn ebuild_jobs(&self) -> (r: usize)
        ensures
            r == self.jobs(),
    {
        self.ebuild_jobs
    }
}

} // verus!
