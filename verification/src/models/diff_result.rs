use vstd::prelude::*;

use crate::models::{
    config_file::{ConfigFileEntry, ConfigFileEntryView},
    options::{buckets_view, ScoopBucket, ScoopBucketView},
    package_spec::{specs_view, PackageSpec, PackageSpecView},
};

verus! {

/// What an apply would change, and what it found on the way.
#[derive(Debug, Clone)]
pub struct DiffResult {
    pub to_install: Vec<PackageSpec>,
    pub to_upgrade: Vec<PackageSpec>,
    pub to_skip: Vec<PackageSpec>,
    pub to_remove: Vec<PackageSpec>,
    pub to_adopt: Vec<PackageSpec>,
    /// Installed on the system but neither managed nor adopted.
    pub to_untracked: Vec<PackageSpec>,
    pub buckets_to_add: Vec<ScoopBucket>,
    pub buckets_to_remove: Vec<ScoopBucket>,
    pub warnings: Vec<String>,
    pub config_files_to_create: Vec<ConfigFileEntry>,
    pub config_files_to_update: Vec<ConfigFileEntry>,
    pub config_files_no_longer_managed: Vec<String>,
}

pub struct DiffResultView {
    pub to_install: Seq<PackageSpecView>,
    pub to_upgrade: Seq<PackageSpecView>,
    pub to_skip: Seq<PackageSpecView>,
    pub to_remove: Seq<PackageSpecView>,
    pub to_adopt: Seq<PackageSpecView>,
    pub to_untracked: Seq<PackageSpecView>,
    pub buckets_to_add: Seq<ScoopBucketView>,
    pub buckets_to_remove: Seq<ScoopBucketView>,
    pub warnings: Seq<Seq<char>>,
    pub config_files_to_create: Seq<ConfigFileEntryView>,
    pub config_files_to_update: Seq<ConfigFileEntryView>,
    pub config_files_no_longer_managed: Seq<Seq<char>>,
}

/// The views of a list of strings.
pub open spec fn strings_view(v: Seq<String>) -> Seq<Seq<char>> {
    v.map_values(|s: String| s@)
}

/// The views of a list of config-file entries.
pub open spec fn config_files_view(v: Seq<ConfigFileEntry>) -> Seq<ConfigFileEntryView> {
    v.map_values(|e: ConfigFileEntry| e@)
}

impl View for DiffResult {
    type V = DiffResultView;

    open spec fn view(&self) -> DiffResultView {
        DiffResultView {
            to_install: specs_view(self.to_install@),
            to_upgrade: specs_view(self.to_upgrade@),
            to_skip: specs_view(self.to_skip@),
            to_remove: specs_view(self.to_remove@),
            to_adopt: specs_view(self.to_adopt@),
            to_untracked: specs_view(self.to_untracked@),
            buckets_to_add: buckets_view(self.buckets_to_add@),
            buckets_to_remove: buckets_view(self.buckets_to_remove@),
            warnings: strings_view(self.warnings@),
            config_files_to_create: config_files_view(self.config_files_to_create@),
            config_files_to_update: config_files_view(self.config_files_to_update@),
            config_files_no_longer_managed: strings_view(self.config_files_no_longer_managed@),
        }
    }
}

/// A diff asks for work when it installs, upgrades, removes or adopts a
/// package, or adds or removes a bucket; skipped and untracked packages,
/// config files and warnings do not count.
pub open spec fn diff_has_work(d: DiffResultView) -> bool {
    ||| d.to_install.len() > 0
    ||| d.to_upgrade.len() > 0
    ||| d.to_remove.len() > 0
    ||| d.to_adopt.len() > 0
    ||| d.buckets_to_add.len() > 0
    ||| d.buckets_to_remove.len() > 0
}

/// The diff with every list empty.
pub open spec fn empty_diff() -> DiffResultView {
    DiffResultView {
        to_install: seq![],
        to_upgrade: seq![],
        to_skip: seq![],
        to_remove: seq![],
        to_adopt: seq![],
        to_untracked: seq![],
        buckets_to_add: seq![],
        buckets_to_remove: seq![],
        warnings: seq![],
        config_files_to_create: seq![],
        config_files_to_update: seq![],
        config_files_no_longer_managed: seq![],
    }
}

impl Default for DiffResult {
    /// The diff with every list empty.
    fn default() -> (d: Self)
        ensures
            d.to_install@.len() == 0 && d.to_upgrade@.len() == 0 && d.to_skip@.len() == 0,
            d.to_remove@.len() == 0 && d.to_adopt@.len() == 0 && d.to_untracked@.len() == 0,
            d.buckets_to_add@.len() == 0 && d.buckets_to_remove@.len() == 0,
            d.warnings@.len() == 0,
            d.config_files_to_create@.len() == 0 && d.config_files_to_update@.len() == 0,
            d.config_files_no_longer_managed@.len() == 0,
            d@ == empty_diff(),
    {
        let d = DiffResult {
            to_install: Vec::new(),
            to_upgrade: Vec::new(),
            to_skip: Vec::new(),
            to_remove: Vec::new(),
            to_adopt: Vec::new(),
            to_untracked: Vec::new(),
            buckets_to_add: Vec::new(),
            buckets_to_remove: Vec::new(),
            warnings: Vec::new(),
            config_files_to_create: Vec::new(),
            config_files_to_update: Vec::new(),
            config_files_no_longer_managed: Vec::new(),
        };
        assert(specs_view(d.to_install@) =~= Seq::<PackageSpecView>::empty());
        assert(specs_view(d.to_upgrade@) =~= Seq::<PackageSpecView>::empty());
        assert(specs_view(d.to_skip@) =~= Seq::<PackageSpecView>::empty());
        assert(specs_view(d.to_remove@) =~= Seq::<PackageSpecView>::empty());
        assert(specs_view(d.to_adopt@) =~= Seq::<PackageSpecView>::empty());
        assert(specs_view(d.to_untracked@) =~= Seq::<PackageSpecView>::empty());
        assert(buckets_view(d.buckets_to_add@) =~= Seq::<ScoopBucketView>::empty());
        assert(buckets_view(d.buckets_to_remove@) =~= Seq::<ScoopBucketView>::empty());
        assert(strings_view(d.warnings@) =~= Seq::<Seq<char>>::empty());
        assert(config_files_view(d.config_files_to_create@) =~= Seq::<ConfigFileEntryView>::empty());
        assert(config_files_view(d.config_files_to_update@) =~= Seq::<ConfigFileEntryView>::empty());
        assert(strings_view(d.config_files_no_longer_managed@) =~= Seq::<Seq<char>>::empty());
        d
    }
}

impl DiffResult {
    /// Whether the diff asks for no work (see `diff_has_work`).
    pub fn is_empty(&self) -> (b: bool)
        ensures
            b == !diff_has_work(self@),
    {
        self.to_install.len() == 0 && self.to_upgrade.len() == 0 && self.to_remove.len() == 0
            && self.to_adopt.len() == 0 && self.buckets_to_add.len() == 0
            && self.buckets_to_remove.len() == 0
    }
}

} // verus!
