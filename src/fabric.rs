//! The descriptor of the JSON-described ecosystem, and how it becomes a
//! record.

use crate::metadata::{
    copy_texts, deps_view, opt_text_view, texts_view, DependencyView, DependencyVersionRange,
    ModDependency, ModMetadata, ModView, Platform, PlatformView, RangeView,
};
use vstd::prelude::*;

verus! {

/// A dependency's requirement: one range or a list of alternatives.
#[derive(Debug, Clone, PartialEq, Eq)]
pub enum DependencyVersion {
    Single(String),
    Multiple(Vec<String>),
}

/// Contact links of a component or an author.
#[derive(Debug, Clone, PartialEq, Eq)]
pub struct Contact {
    pub homepage: Option<String>,
    pub sources: Option<String>,
    pub issues: Option<String>,
}

/// An author: a bare name, or a name with contact links.
#[derive(Debug, Clone, PartialEq, Eq)]
pub enum Author {
    Simple(String),
    Detailed { name: String, contact: Option<Contact> },
}

/// The descriptor document of one component. `depends` lists each
/// dependency id with its requirement, in the order the document yields them.
#[derive(Debug, Clone, PartialEq, Eq)]
pub struct FabricMod {
    pub schema_version: u32,
    pub id: String,
    pub version: String,
    pub name: Option<String>,
    pub description: Option<String>,
    pub authors: Option<Vec<Author>>,
    pub contact: Option<Contact>,
    pub license: Option<String>,
    pub icon: Option<String>,
    pub environment: Option<String>,
    pub depends: Option<Vec<(String, DependencyVersion)>>,
}

impl FabricMod {
    /// The dependency ids are distinct, as the keys of the document's
    /// dependency map are.
    pub open spec fn well_formed(&self) -> bool {
        match self.depends {
            Some(v) => forall|i: int, j: int|
                0 <= i < j < v@.len() ==> (#[trigger] v@[i]).0@ != (#[trigger] v@[j]).0@,
            None => true,
        }
    }

    /// Whether the dependency ids are distinct.
    pub fn is_well_formed(&self) -> (r: bool)
        ensures
            r == self.well_formed(),
    {
        match &self.depends {
            None => true,
            Some(v) => {
                let mut j: usize = 0;
                while j < v.len()
                    invariant
                        self.depends == Some(*v),
                        j <= v.len(),
                        forall|a: int, b: int|
                            0 <= a < b < j ==> (#[trigger] v@[a]).0@ != (#[trigger] v@[b]).0@,
                    decreases v.len() - j,
                {
                    let mut i: usize = 0;
                    while i < j
                        invariant
                            self.depends == Some(*v),
                            i <= j < v.len(),
                            forall|a: int| 0 <= a < i ==> (#[trigger] v@[a]).0@ != v@[j as int].0@,
                        decreases j - i,
                    {
                        if v[i].0 == v[j].0 {
                            proof {
                                let a = i as int;
                                let b = j as int;
                                assert(v@[a].0@ == v@[b].0@);
                                assert(0 <= a < b < v@.len());
                                assert(!(forall|x: int, y: int|
                                    0 <= x < y < v@.len() ==> (#[trigger] v@[x]).0@ != (#[trigger] v@[y]).0@));
                                assert(self.depends->Some_0 == *v);
                                assert(self.well_formed() == (forall|x: int, y: int|
                                    0 <= x < y < v@.len() ==> (#[trigger] v@[x]).0@ != (#[trigger] v@[y]).0@));
                            }
                            return false;
                        }
                        i = i + 1;
                    }
                    j = j + 1;
                }
                true
            },
        }
    }
}

pub open spec fn author_name(a: Author) -> Seq<char> {
    match a {
        Author::Simple(name) => name@,
        Author::Detailed { name, .. } => name@,
    }
}

/// The author names, in order; none when the list is absent.
pub open spec fn author_names(authors: Option<Vec<Author>>) -> Seq<Seq<char>> {
    match authors {
        Some(v) => v@.map_values(|a: Author| author_name(a)),
        None => Seq::<Seq<char>>::empty(),
    }
}

pub open spec fn requirement_view(v: DependencyVersion) -> RangeView {
    match v {
        DependencyVersion::Single(s) => RangeView::Single(s@),
        DependencyVersion::Multiple(alts) => RangeView::Multiple(texts_view(alts@)),
    }
}

/// Every declared dependency, mandatory, in declaration order.
pub open spec fn fabric_dependencies(json: FabricMod) -> Seq<DependencyView> {
    match json.depends {
        Some(v) => v@.map_values(
            |e: (String, DependencyVersion)|
                DependencyView { mod_id: e.0@, version_range: requirement_view(e.1), mandatory: true },
        ),
        None => Seq::<DependencyView>::empty(),
    }
}

/// The names of the authors, in order.
pub fn parse_authors(authors: &Option<Vec<Author>>) -> (r: Vec<String>)
    ensures
        texts_view(r@) == author_names(*authors),
{
    let mut names: Vec<String> = Vec::new();
    match authors {
        None => {
            proof {
                assert(texts_view(names@) =~= Seq::<Seq<char>>::empty());
            }
        },
        Some(list) => {
            let mut i: usize = 0;
            while i < list.len()
                invariant
                    i <= list.len(),
                    texts_view(names@) == list@.subrange(0, i as int).map_values(
                        |a: Author| author_name(a),
                    ),
                decreases list.len() - i,
            {
                let name = match &list[i] {
                    Author::Simple(name) => name.clone(),
                    Author::Detailed { name, .. } => name.clone(),
                };
                let ghost prev = names@;
                names.push(name);
                proof {
                    assert(texts_view(names@) =~= texts_view(prev).push(author_name(list@[i as int])));
                    assert(list@.subrange(0, i + 1).map_values(|a: Author| author_name(a))
                        =~= list@.subrange(0, i as int).map_values(|a: Author| author_name(a)).push(
                        author_name(list@[i as int]),
                    ));
                }
                i = i + 1;
            }
            proof {
                assert(list@.subrange(0, list.len() as int) =~= list@);
            }
        },
    }
    names
}

/// The dependency declarations of the document: all mandatory.
pub fn parse_fabric_dependencies(json: &FabricMod) -> (r: Vec<ModDependency>)
    requires
        json.well_formed(),
    ensures
        deps_view(r@) == fabric_dependencies(*json),
        forall|i: int, j: int|
            0 <= i < j < r@.len() ==> (#[trigger] r@[i]).mod_id@ != (#[trigger] r@[j]).mod_id@,
{
    let mut deps: Vec<ModDependency> = Vec::new();
    match &json.depends {
        None => {
            proof {
                assert(deps_view(deps@) =~= Seq::<DependencyView>::empty());
            }
        },
        Some(map) => {
            let ghost f = |e: (String, DependencyVersion)|
                DependencyView { mod_id: e.0@, version_range: requirement_view(e.1), mandatory: true };
            let mut i: usize = 0;
            while i < map.len()
                invariant
                    i <= map.len(),
                    f == (|e: (String, DependencyVersion)|
                        DependencyView { mod_id: e.0@, version_range: requirement_view(e.1), mandatory: true }),
                    deps_view(deps@) == map@.subrange(0, i as int).map_values(f),
                decreases map.len() - i,
            {
                let (id, requirement) = &map[i];
                let version_range = match requirement {
                    DependencyVersion::Single(s) => DependencyVersionRange::Single(s.clone()),
                    DependencyVersion::Multiple(v) => DependencyVersionRange::Multiple(copy_texts(v)),
                };
                let ghost prev = deps@;
                deps.push(ModDependency { mod_id: id.clone(), version_range, mandatory: true });
                proof {
                    assert(deps_view(deps@) =~= deps_view(prev).push(f(map@[i as int])));
                    assert(map@.subrange(0, i + 1).map_values(f) =~= map@.subrange(0, i as int).map_values(
                        f,
                    ).push(f(map@[i as int])));
                }
                i = i + 1;
            }
            proof {
                assert(map@.subrange(0, map.len() as int) =~= map@);
                assert forall|i: int, j: int| 0 <= i < j < deps@.len() implies (#[trigger] deps@[i]).mod_id@
                    != (#[trigger] deps@[j]).mod_id@ by {
                    assert(deps_view(deps@)[i] == f(map@[i]));
                    assert(deps_view(deps@)[j] == f(map@[j]));
                }
            }
        },
    }
    deps
}

/// The record of a document found in the file `file_name`.
pub open spec fn fabric_record(json: FabricMod, file_name: Seq<char>) -> ModView {
    ModView {
        mod_id: json.id@,
        version: json.version@,
        name: opt_text_view(json.name),
        description: opt_text_view(json.description),
        authors: author_names(json.authors),
        file_name: file_name,
        platform: PlatformView::Fabric,
        dependencies: fabric_dependencies(json),
    }
}

impl ModMetadata {
    /// The record of a document found in the file `file_name`.
    pub fn from_fabric_mod(json: &FabricMod, file_name: &String) -> (r: ModMetadata)
        requires
            json.well_formed(),
        ensures
            r@ == fabric_record(*json, file_name@),
            forall|i: int, j: int|
                0 <= i < j < r.dependencies@.len() ==> (#[trigger] r.dependencies@[i]).mod_id@
                    != (#[trigger] r.dependencies@[j]).mod_id@,
    {
        let name = match &json.name {
            Some(s) => Some(s.clone()),
            None => None,
        };
        let description = match &json.description {
            Some(s) => Some(s.clone()),
            None => None,
        };
        ModMetadata {
            mod_id: json.id.clone(),
            version: json.version.clone(),
            name,
            description,
            authors: parse_authors(&json.authors),
            file_name: file_name.clone(),
            platform: Platform::Fabric,
            dependencies: parse_fabric_dependencies(json),
        }
    }
}

} // verus!
