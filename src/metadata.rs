//! The normalized component record that every ecosystem descriptor becomes.

use vstd::prelude::*;

verus! {

/// The runtime family a component targets.
#[derive(Debug, Clone, PartialEq, Eq, Hash)]
pub enum Platform {
    Forge,
    Fabric,
    NeoForge,
    Quilt,
    Unknown(String),
}

pub enum PlatformView {
    Forge,
    Fabric,
    NeoForge,
    Quilt,
    Unknown(Seq<char>),
}

impl View for Platform {
    type V = PlatformView;

    open spec fn view(&self) -> PlatformView {
        match self {
            Platform::Forge => PlatformView::Forge,
            Platform::Fabric => PlatformView::Fabric,
            Platform::NeoForge => PlatformView::NeoForge,
            Platform::Quilt => PlatformView::Quilt,
            Platform::Unknown(name) => PlatformView::Unknown(name@),
        }
    }
}

/// The ecosystems whose partitions go through dependency resolution.
pub open spec fn resolvable(p: PlatformView) -> bool {
    match p {
        PlatformView::Forge | PlatformView::Fabric | PlatformView::NeoForge => true,
        _ => false,
    }
}

impl Platform {
    /// Whether two tags name the same ecosystem.
    pub fn same_as(&self, other: &Platform) -> (r: bool)
        ensures
            r == (self@ == other@),
    {
        match (self, other) {
            (Platform::Forge, Platform::Forge) => true,
            (Platform::Fabric, Platform::Fabric) => true,
            (Platform::NeoForge, Platform::NeoForge) => true,
            (Platform::Quilt, Platform::Quilt) => true,
            (Platform::Unknown(a), Platform::Unknown(b)) => *a == *b,
            _ => false,
        }
    }

    /// Whether partitions of this ecosystem are resolved record by record.
    pub fn is_resolvable(&self) -> (r: bool)
        ensures
            r == resolvable(self@),
    {
        match self {
            Platform::Forge | Platform::Fabric | Platform::NeoForge => true,
            _ => false,
        }
    }

    pub fn duplicate(&self) -> (r: Platform)
        ensures
            r@ == self@,
    {
        match self {
            Platform::Forge => Platform::Forge,
            Platform::Fabric => Platform::Fabric,
            Platform::NeoForge => Platform::NeoForge,
            Platform::Quilt => Platform::Quilt,
            Platform::Unknown(name) => Platform::Unknown(name.clone()),
        }
    }
}

pub open spec fn texts_view(v: Seq<String>) -> Seq<Seq<char>> {
    v.map_values(|s: String| s@)
}

pub open spec fn opt_text_view(o: Option<String>) -> Option<Seq<char>> {
    match o {
        Some(s) => Some(s@),
        None => None,
    }
}

/// A copy of a list of texts.
pub fn copy_texts(v: &Vec<String>) -> (r: Vec<String>)
    ensures
        texts_view(r@) == texts_view(v@),
{
    let mut r: Vec<String> = Vec::new();
    let mut i: usize = 0;
    while i < v.len()
        invariant
            i <= v.len(),
            texts_view(r@) == texts_view(v@.subrange(0, i as int)),
        decreases v.len() - i,
    {
        let ghost prev = r@;
        r.push(v[i].clone());
        proof {
            assert(texts_view(r@) =~= texts_view(prev).push(v@[i as int]@));
            assert(texts_view(v@.subrange(0, i + 1)) =~= texts_view(v@.subrange(0, i as int)).push(
                v@[i as int]@,
            ));
        }
        i = i + 1;
    }
    proof {
        assert(v@.subrange(0, v.len() as int) =~= v@);
    }
    r
}

fn copy_opt_text(o: &Option<String>) -> (r: Option<String>)
    ensures
        opt_text_view(r) == opt_text_view(*o),
{
    match o {
        Some(s) => Some(s.clone()),
        None => None,
    }
}

/// The version requirement of a dependency: one range expression, or a list
/// of alternatives of which any one may match.
#[derive(Debug, Clone, PartialEq, Eq)]
pub enum DependencyVersionRange {
    Single(String),
    Multiple(Vec<String>),
}

pub enum RangeView {
    Single(Seq<char>),
    Multiple(Seq<Seq<char>>),
}

impl View for DependencyVersionRange {
    type V = RangeView;

    open spec fn view(&self) -> RangeView {
        match self {
            DependencyVersionRange::Single(s) => RangeView::Single(s@),
            DependencyVersionRange::Multiple(v) => RangeView::Multiple(texts_view(v@)),
        }
    }
}

impl DependencyVersionRange {
    pub fn duplicate(&self) -> (r: DependencyVersionRange)
        ensures
            r@ == self@,
    {
        match self {
            DependencyVersionRange::Single(s) => DependencyVersionRange::Single(s.clone()),
            DependencyVersionRange::Multiple(v) => DependencyVersionRange::Multiple(copy_texts(v)),
        }
    }
}

/// One dependency declaration of a record.
#[derive(Debug, Clone, PartialEq, Eq)]
pub struct ModDependency {
    pub mod_id: String,
    pub version_range: DependencyVersionRange,
    pub mandatory: bool,
}

pub struct DependencyView {
    pub mod_id: Seq<char>,
    pub version_range: RangeView,
    pub mandatory: bool,
}

impl View for ModDependency {
    type V = DependencyView;

    open spec fn view(&self) -> DependencyView {
        DependencyView {
            mod_id: self.mod_id@,
            version_range: self.version_range@,
            mandatory: self.mandatory,
        }
    }
}

pub open spec fn deps_view(v: Seq<ModDependency>) -> Seq<DependencyView> {
    v.map_values(|d: ModDependency| d@)
}

impl ModDependency {
    pub fn duplicate(&self) -> (r: ModDependency)
        ensures
            r@ == self@,
    {
        ModDependency {
            mod_id: self.mod_id.clone(),
            version_range: self.version_range.duplicate(),
            mandatory: self.mandatory,
        }
    }
}

/// A component record: identity, version text, descriptive fields, the file
/// it came from, its ecosystem and its dependency declarations in order.
#[derive(Debug, Clone, PartialEq, Eq)]
pub struct ModMetadata {
    pub mod_id: String,
    pub version: String,
    pub name: Option<String>,
    pub description: Option<String>,
    pub authors: Vec<String>,
    pub file_name: String,
    pub platform: Platform,
    pub dependencies: Vec<ModDependency>,
}

pub struct ModView {
    pub mod_id: Seq<char>,
    pub version: Seq<char>,
    pub name: Option<Seq<char>>,
    pub description: Option<Seq<char>>,
    pub authors: Seq<Seq<char>>,
    pub file_name: Seq<char>,
    pub platform: PlatformView,
    pub dependencies: Seq<DependencyView>,
}

impl View for ModMetadata {
    type V = ModView;

    open spec fn view(&self) -> ModView {
        ModView {
            mod_id: self.mod_id@,
            version: self.version@,
            name: opt_text_view(self.name),
            description: opt_text_view(self.description),
            authors: texts_view(self.authors@),
            file_name: self.file_name@,
            platform: self.platform@,
            dependencies: deps_view(self.dependencies@),
        }
    }
}

impl ModMetadata {
    /// A field-by-field copy of this record.
    pub fn duplicate(&self) -> (r: ModMetadata)
        ensures
            r@ == self@,
    {
        let mut deps: Vec<ModDependency> = Vec::new();
        let mut i: usize = 0;
        while i < self.dependencies.len()
            invariant
                i <= self.dependencies.len(),
                deps_view(deps@) == deps_view(self.dependencies@.subrange(0, i as int)),
            decreases self.dependencies.len() - i,
        {
            let ghost prev = deps@;
            let d = self.dependencies[i].duplicate();
            deps.push(d);
            proof {
                let all = self.dependencies@;
                assert(deps_view(deps@) =~= deps_view(prev).push(all[i as int]@));
                assert(deps_view(all.subrange(0, i + 1)) =~= deps_view(all.subrange(0, i as int)).push(
                    all[i as int]@,
                ));
            }
            i = i + 1;
        }
        proof {
            assert(self.dependencies@.subrange(0, self.dependencies.len() as int)
                =~= self.dependencies@);
        }
        ModMetadata {
            mod_id: self.mod_id.clone(),
            version: self.version.clone(),
            name: copy_opt_text(&self.name),
            description: copy_opt_text(&self.description),
            authors: copy_texts(&self.authors),
            file_name: self.file_name.clone(),
            platform: self.platform.duplicate(),
            dependencies: deps,
        }
    }
}

} // verus!
