//! The descriptor of the first table-described ecosystem, and how it
//! becomes records.

use crate::manifest::{opt_str_view, resolve_entry_version, resolved_version, DescriptorError};
use crate::metadata::{
    copy_texts, deps_view, opt_text_view, texts_view, DependencyView, DependencyVersionRange,
    ModDependency, ModMetadata, ModView, Platform, PlatformView, RangeView,
};
use crate::text::{comma_pieces, kept_trimmed, split_list};
use vstd::prelude::*;

verus! {

/// The authors of an entry: one comma-separated text, or a list.
#[derive(Debug, Clone, PartialEq, Eq)]
pub enum Authors {
    String(String),
    Array(Vec<String>),
}

/// The author names: the trimmed, non-empty items of a comma-separated
/// text, or the list as it is.
pub open spec fn author_names(a: Option<Authors>) -> Seq<Seq<char>> {
    match a {
        Some(Authors::String(s)) => kept_trimmed(comma_pieces(s@)),
        Some(Authors::Array(v)) => texts_view(v@),
        None => Seq::<Seq<char>>::empty(),
    }
}

/// The names of the authors.
pub fn parse_authors(authors: &Option<Authors>) -> (r: Vec<String>)
    ensures
        texts_view(r@) == author_names(*authors),
{
    match authors {
        Some(Authors::String(s)) => split_list(s.as_str()),
        Some(Authors::Array(v)) => copy_texts(v),
        None => {
            let r: Vec<String> = Vec::new();
            proof {
                assert(texts_view(r@) =~= Seq::<Seq<char>>::empty());
            }
            r
        },
    }
}

/// One component entry of the descriptor.
#[derive(Debug, Clone, PartialEq, Eq)]
pub struct ModEntry {
    pub mod_id: String,
    pub namespace: Option<String>,
    pub version: String,
    pub display_name: Option<String>,
    pub description: Option<String>,
    pub logo_file: Option<String>,
    pub logo_blur: Option<bool>,
    pub update_json_url: Option<String>,
    pub credits: Option<String>,
    pub authors: Option<Authors>,
    pub display_url: Option<String>,
    pub display_test: Option<String>,
}

/// One dependency declaration.
#[derive(Debug, Clone, PartialEq, Eq)]
pub struct DependencyEntry {
    pub mod_id: String,
    pub mandatory: bool,
    pub version_range: String,
    pub ordering: String,
    pub side: String,
}

/// The dependency tables: one list, or one list per declaring entry (in the
/// order the document yields them).
#[derive(Debug, Clone, PartialEq, Eq)]
pub enum Dependencies {
    SingleMod(Vec<DependencyEntry>),
    MultiMod(Vec<(String, Vec<DependencyEntry>)>),
}

/// The descriptor document of one archive.
#[derive(Debug, Clone, PartialEq, Eq)]
pub struct ForgeMod {
    pub mod_loader: String,
    pub loader_version: String,
    pub license: Option<String>,
    pub issue_tracker_url: Option<String>,
    pub show_as_resource_pack: Option<bool>,
    pub client_side_only: Option<bool>,
    pub mods: Vec<ModEntry>,
    pub dependencies: Option<Dependencies>,
}

/// The lists of a table of lists, one after the other.
pub open spec fn flatten_tables(v: Seq<(String, Vec<DependencyEntry>)>) -> Seq<DependencyEntry>
    decreases v.len(),
{
    if v.len() == 0 {
        Seq::<DependencyEntry>::empty()
    } else {
        flatten_tables(v.drop_last()) + v.last().1@
    }
}

/// Every dependency entry of the document, in order.
pub open spec fn dependency_entries(deps: Option<Dependencies>) -> Seq<DependencyEntry> {
    match deps {
        None => Seq::<DependencyEntry>::empty(),
        Some(Dependencies::SingleMod(v)) => v@,
        Some(Dependencies::MultiMod(m)) => flatten_tables(m@),
    }
}

pub open spec fn entry_dependency(e: DependencyEntry) -> DependencyView {
    DependencyView {
        mod_id: e.mod_id@,
        version_range: RangeView::Single(e.version_range@),
        mandatory: e.mandatory,
    }
}

/// The declarations of the document, each with its single range.
pub open spec fn forge_dependencies(toml: ForgeMod) -> Seq<DependencyView> {
    dependency_entries(toml.dependencies).map_values(|e: DependencyEntry| entry_dependency(e))
}

fn push_entries(out: &mut Vec<ModDependency>, entries: &Vec<DependencyEntry>)
    ensures
        deps_view(final(out)@) == deps_view(old(out)@) + entries@.map_values(
            |e: DependencyEntry| entry_dependency(e),
        ),
{
    let ghost start = deps_view(out@);
    let mut i: usize = 0;
    proof {
        assert(start + entries@.subrange(0, 0).map_values(|e: DependencyEntry| entry_dependency(e))
            =~= start);
    }
    while i < entries.len()
        invariant
            i <= entries.len(),
            start == deps_view(old(out)@),
            deps_view(out@) == start + entries@.subrange(0, i as int).map_values(
                |e: DependencyEntry| entry_dependency(e),
            ),
        decreases entries.len() - i,
    {
        let e = &entries[i];
        let ghost prev = out@;
        out.push(
            ModDependency {
                mod_id: e.mod_id.clone(),
                version_range: DependencyVersionRange::Single(e.version_range.clone()),
                mandatory: e.mandatory,
            },
        );
        proof {
            assert(deps_view(out@) =~= deps_view(prev).push(entry_dependency(entries@[i as int])));
            assert(entries@.subrange(0, i + 1).map_values(|e: DependencyEntry| entry_dependency(e))
                =~= entries@.subrange(0, i as int).map_values(
                |e: DependencyEntry| entry_dependency(e),
            ).push(entry_dependency(entries@[i as int])));
        }
        i = i + 1;
    }
    proof {
        assert(entries@.subrange(0, entries.len() as int) =~= entries@);
    }
}

/// The dependency declarations of the document.
pub fn parse_forge_dependencies(toml: &ForgeMod) -> (r: Vec<ModDependency>)
    ensures
        deps_view(r@) == forge_dependencies(*toml),
{
    let mut out: Vec<ModDependency> = Vec::new();
    proof {
        assert(deps_view(out@) =~= Seq::<DependencyView>::empty());
    }
    match &toml.dependencies {
        None => {
            proof {
                assert(forge_dependencies(*toml) =~= Seq::<DependencyView>::empty());
            }
        },
        Some(Dependencies::SingleMod(v)) => {
            push_entries(&mut out, v);
            proof {
                assert(deps_view(out@) =~= forge_dependencies(*toml));
            }
        },
        Some(Dependencies::MultiMod(m)) => {
            let mut i: usize = 0;
            while i < m.len()
                invariant
                    i <= m.len(),
                    deps_view(out@) == flatten_tables(m@.subrange(0, i as int)).map_values(
                        |e: DependencyEntry| entry_dependency(e),
                    ),
                decreases m.len() - i,
            {
                let ghost prev = deps_view(out@);
                push_entries(&mut out, &m[i].1);
                proof {
                    assert(m@.subrange(0, i + 1).drop_last() =~= m@.subrange(0, i as int));
                    assert(flatten_tables(m@.subrange(0, i + 1)).map_values(
                        |e: DependencyEntry| entry_dependency(e),
                    ) =~= prev + m@[i as int].1@.map_values(|e: DependencyEntry| entry_dependency(e)));
                }
                i = i + 1;
            }
            proof {
                assert(m@.subrange(0, m.len() as int) =~= m@);
            }
        },
    }
    out
}

/// The record of entry `e` of `toml`, found in the file `file`, with the
/// archive's manifest text if any.
pub open spec fn forge_entry_record(
    toml: ForgeMod,
    e: ModEntry,
    file: Seq<char>,
    manifest: Option<Seq<char>>,
) -> Result<ModView, DescriptorError> {
    match resolved_version(e.version@, manifest) {
        Err(x) => Err(x),
        Ok(v) => Ok(
            ModView {
                mod_id: e.mod_id@,
                version: v,
                name: opt_text_view(e.display_name),
                description: opt_text_view(e.description),
                authors: author_names(e.authors),
                file_name: file,
                platform: PlatformView::Forge,
                dependencies: forge_dependencies(toml),
            },
        ),
    }
}

/// The records of the first `k` entries, or the first entry's error.
pub open spec fn forge_records_upto(
    toml: ForgeMod,
    file: Seq<char>,
    manifest: Option<Seq<char>>,
    k: int,
) -> Result<Seq<ModView>, DescriptorError>
    decreases k,
{
    if k <= 0 {
        Ok(Seq::<ModView>::empty())
    } else {
        match forge_records_upto(toml, file, manifest, k - 1) {
            Err(x) => Err(x),
            Ok(rs) => match forge_entry_record(toml, toml.mods@[k - 1], file, manifest) {
                Err(x) => Err(x),
                Ok(r) => Ok(rs.push(r)),
            },
        }
    }
}

pub proof fn lemma_forge_error_stays(
    toml: ForgeMod,
    file: Seq<char>,
    manifest: Option<Seq<char>>,
    k: int,
    k2: int,
)
    requires
        0 < k <= k2,
        forge_records_upto(toml, file, manifest, k) is Err,
    ensures
        forge_records_upto(toml, file, manifest, k2) == forge_records_upto(toml, file, manifest, k),
    decreases k2 - k,
{
    if k2 > k {
        lemma_forge_error_stays(toml, file, manifest, k, k2 - 1);
    }
}

pub open spec fn records_of(v: Seq<ModMetadata>) -> Seq<ModView> {
    v.map_values(|m: ModMetadata| m@)
}

/// The records of every entry of a document found in the file `file_name`,
/// with the archive's manifest text if any; the first entry whose version
/// cannot be resolved gives the error.
pub fn forge_records(toml: &ForgeMod, file_name: &String, manifest: Option<&str>) -> (r: Result<
    Vec<ModMetadata>,
    DescriptorError,
>)
    ensures
        match r {
            Ok(v) => forge_records_upto(*toml, file_name@, opt_str_view(manifest), toml.mods@.len() as int)
                == Ok::<Seq<ModView>, DescriptorError>(records_of(v@)),
            Err(e) => forge_records_upto(*toml, file_name@, opt_str_view(manifest), toml.mods@.len() as int)
                == Err::<Seq<ModView>, DescriptorError>(e),
        },
{
    let ghost mv = opt_str_view(manifest);
    let mut out: Vec<ModMetadata> = Vec::new();
    let mut i: usize = 0;
    proof {
        assert(records_of(out@) =~= Seq::<ModView>::empty());
    }
    while i < toml.mods.len()
        invariant
            i <= toml.mods@.len(),
            mv == opt_str_view(manifest),
            forge_records_upto(*toml, file_name@, mv, i as int) == Ok::<Seq<ModView>, DescriptorError>(
                records_of(out@),
            ),
        decreases toml.mods@.len() - i,
    {
        let entry = &toml.mods[i];
        let version = match resolve_entry_version(&entry.version, manifest) {
            Ok(v) => v,
            Err(e) => {
                proof {
                    lemma_forge_error_stays(*toml, file_name@, mv, i + 1, toml.mods@.len() as int);
                }
                return Err(e);
            },
        };
        let name = match &entry.display_name {
            Some(s) => Some(s.clone()),
            None => None,
        };
        let description = match &entry.description {
            Some(s) => Some(s.clone()),
            None => None,
        };
        let record = ModMetadata {
            mod_id: entry.mod_id.clone(),
            version,
            name,
            description,
            authors: parse_authors(&entry.authors),
            file_name: file_name.clone(),
            platform: Platform::Forge,
            dependencies: parse_forge_dependencies(toml),
        };
        let ghost prev = out@;
        out.push(record);
        proof {
            assert(records_of(out@) =~= records_of(prev).push(record@));
        }
        i = i + 1;
    }
    Ok(out)
}

} // verus!
