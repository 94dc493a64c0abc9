use vstd::prelude::*;

use crate::text::{copy_opt_string, opt_view};

verus! {

/// Winget settings.
#[derive(Debug, Clone, Copy, Default)]
pub struct WingetOptions {
    pub enable: bool,
    pub accept_agreement: bool,
    /// Pass `--silent` to winget (fully quiet installs).
    pub silent: bool,
    /// Pass `--disable-interactivity` to winget; ignored when `silent` is set.
    pub disable_interactivity: bool,
}

/// Chocolatey settings.
#[derive(Debug, Clone, Default)]
pub struct ChocoOptions {
    pub enable: bool,
    pub yes: bool,
    pub force: bool,
    pub ignore_dependencies: bool,
    pub allow_downgrade: bool,
    pub skip_power_shell: bool,
    pub params: Option<String>,
    pub pre: bool,
}

/// A scoop bucket, with the URL to add it from if it is not a known one.
#[derive(Debug, Clone)]
pub struct ScoopBucket {
    pub name: String,
    pub url: Option<String>,
}

pub struct ScoopBucketView {
    pub name: Seq<char>,
    pub url: Option<Seq<char>>,
}

impl View for ScoopBucket {
    type V = ScoopBucketView;

    open spec fn view(&self) -> ScoopBucketView {
        ScoopBucketView { name: self.name@, url: opt_view(self.url) }
    }
}

/// The views of a list of buckets.
pub open spec fn buckets_view(v: Seq<ScoopBucket>) -> Seq<ScoopBucketView> {
    v.map_values(|b: ScoopBucket| b@)
}

impl ScoopBucket {
    /// A bucket known to scoop by name alone.
    pub fn new(name: &str) -> (b: Self)
        ensures
            b.name@ == name@,
            b.url is None,
    {
        ScoopBucket { name: name.to_owned(), url: None }
    }

    /// A copy of the bucket.
    pub fn copy(&self) -> (r: Self)
        ensures
            r@ == self@,
    {
        ScoopBucket { name: self.name.clone(), url: copy_opt_string(&self.url) }
    }
}

/// Scoop settings.
#[derive(Debug, Clone)]
pub struct ScoopOptions {
    pub enable: bool,
    pub buckets: Vec<ScoopBucket>,
    pub global: bool,
    pub independent: bool,
    pub no_cache: bool,
    pub skip_hash_check: bool,
    pub arch: Option<String>,
}

/// The buckets scoop is configured with unless the config names others.
pub open spec fn default_bucket_names() -> Seq<Seq<char>> {
    seq![
        seq!['m', 'a', 'i', 'n'],
        seq!['e', 'x', 't', 'r', 'a', 's'],
        seq!['v', 'e', 'r', 's', 'i', 'o', 'n', 's'],
    ]
}

impl Default for ScoopOptions {
    /// Disabled, with the `main`, `extras` and `versions` buckets and no flags.
    fn default() -> (o: Self)
        ensures
            !o.enable && !o.global && !o.independent && !o.no_cache && !o.skip_hash_check,
            o.arch is None,
            o.buckets@.len() == 3,
            forall|i: int| 0 <= i < 3 ==> (#[trigger] o.buckets@[i]).name@ == default_bucket_names()[i]
                && o.buckets@[i].url is None,
    {
        let mut buckets: Vec<ScoopBucket> = Vec::new();
        proof {
            reveal_strlit("main");
            reveal_strlit("extras");
            reveal_strlit("versions");
        }
        buckets.push(ScoopBucket::new("main"));
        buckets.push(ScoopBucket::new("extras"));
        buckets.push(ScoopBucket::new("versions"));
        ScoopOptions {
            enable: false,
            buckets,
            global: false,
            independent: false,
            no_cache: false,
            skip_hash_check: false,
            arch: None,
        }
    }
}

/// All package-manager settings.
#[derive(Debug, Clone, Default)]
pub struct NTIXOptions {
    pub winget: WingetOptions,
    pub chocolatey: ChocoOptions,
    pub scoop: ScoopOptions,
}

} // verus!
