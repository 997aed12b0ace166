//! Feature flags for the application, with graceful fallback to defaults when
//! the on-disk configuration is missing or partial.

use vstd::prelude::*;

verus! {

/// Feature flags for the application.
#[derive(Debug, Clone)]
pub struct FeatureFlags {
    pub rewrite_stash: bool,
}

impl Default for FeatureFlags {
    fn default() -> (r: Self)
        ensures
            r.rewrite_stash == false,
    {
        FeatureFlags { rewrite_stash: false }
    }
}

/// File-sourced version of `FeatureFlags` with all fields optional, so that a
/// partial or older configuration file degrades gracefully.
pub struct FileFeatureFlags {
    pub rewrite_stash: Option<bool>,
}

impl Default for FileFeatureFlags {
    fn default() -> (r: Self)
        ensures
            r.rewrite_stash is None,
    {
        FileFeatureFlags { rewrite_stash: None }
    }
}

impl FeatureFlags {
    /// Build `FeatureFlags` from file configuration.
    /// Falls back to defaults for any invalid or missing values.
    pub fn from_file_config(file_flags: Option<FileFeatureFlags>) -> (r: Self)
        ensures
            r.rewrite_stash == (match file_flags {
                Some(flags) => match flags.rewrite_stash {
                    Some(b) => b,
                    None => false,
                },
                None => false,
            }),
    {
        let file_flags = match file_flags {
            Some(flags) => flags,
            None => {
                return FeatureFlags::default();
            },
        };

        let defaults = FeatureFlags::default();

        FeatureFlags {
            rewrite_stash: match file_flags.rewrite_stash {
                Some(b) => b,
                None => defaults.rewrite_stash,
            },
        }
    }
}

} // verus!
