//! The descriptor of the second table-described ecosystem, and how it
//! becomes records.

use crate::forge::{author_names, parse_authors, records_of, Authors};
use crate::manifest::{opt_str_view, resolve_entry_version, resolved_version, DescriptorError};
use crate::metadata::{
    deps_view, opt_text_view, DependencyVersionRange, DependencyView, ModDependency, ModMetadata,
    ModView, Platform, PlatformView, RangeView,
};
use vstd::prelude::*;
use vstd::string::*;

verus! {

/// One component entry of the descriptor.
#[derive(Debug, Clone, PartialEq, Eq)]
pub struct ModEntry {
    pub mod_id: String,
    pub version: String,
    pub display_name: Option<String>,
    pub description: Option<String>,
    pub logo_file: Option<String>,
    pub logo_blur: Option<bool>,
    pub update_json_url: Option<String>,
    pub credits: Option<String>,
    pub authors: Option<Authors>,
    pub display_url: Option<String>,
    pub enum_extensions: Option<String>,
    pub feature_flags: Option<String>,
}

/// One dependency declaration. Its `dependency_type` is `required`,
/// `optional`, `incompatible` or `discouraged`.
#[derive(Debug, Clone, PartialEq, Eq)]
pub struct DependencyEntry {
    pub mod_id: String,
    pub dependency_type: String,
    pub reason: Option<String>,
    pub version_range: String,
    pub ordering: String,
    pub side: String,
}

/// The dependency tables: one list, or one list per declaring entry (in the
/// order the document yields them).
#[derive(Debug, Clone, PartialEq, Eq)]
pub enum Dependencies {
    SingleMod(Vec<DependencyEntry>),
    MultiMod(Vec<(String, Vec<DependencyEntry>)>),
}

/// The descriptor document of one archive.
#[derive(Debug, Clone, PartialEq, Eq)]
pub struct NeoForgeMod {
    pub mod_loader: String,
    pub loader_version: String,
    pub license: String,
    pub show_as_resource_pack: Option<bool>,
    pub show_as_data_pack: Option<bool>,
    pub services: Option<Vec<String>>,
    pub issue_tracker_url: Option<String>,
    pub mods: Vec<ModEntry>,
    pub dependencies: Option<Dependencies>,
}

/// The lists of a table of lists, one after the other.
pub open spec fn flatten_tables(v: Seq<(String, Vec<DependencyEntry>)>) -> Seq<DependencyEntry>
    decreases v.len(),
{
    if v.len() == 0 {
        Seq::<DependencyEntry>::empty()
    } else {
        flatten_tables(v.drop_last()) + v.last().1@
    }
}

/// Every dependency entry of the document, in order.
pub open spec fn dependency_entries(deps: Option<Dependencies>) -> Seq<DependencyEntry> {
    match deps {
        None => Seq::<DependencyEntry>::empty(),
        Some(Dependencies::SingleMod(v)) => v@,
        Some(Dependencies::MultiMod(m)) => flatten_tables(m@),
    }
}

/// A declaration is mandatory when its type is `required`.
pub open spec fn entry_dependency(e: DependencyEntry) -> DependencyView {
    DependencyView {
        mod_id: e.mod_id@,
        version_range: RangeView::Single(e.version_range@),
        mandatory: e.dependency_type@ == "required"@,
    }
}

/// The declarations of the document, each with its single range.
pub open spec fn neoforge_dependencies(toml: NeoForgeMod) -> Seq<DependencyView> {
    dependency_entries(toml.dependencies).map_values(|e: DependencyEntry| entry_dependency(e))
}

fn push_entries(out: &mut Vec<ModDependency>, entries: &Vec<DependencyEntry>)
    ensures
        deps_view(final(out)@) == deps_view(old(out)@) + entries@.map_values(
            |e: DependencyEntry| entry_dependency(e),
        ),
{
    let ghost start = deps_view(out@);
    let mut i: usize = 0;
    proof {
        assert(start + entries@.subrange(0, 0).map_values(|e: DependencyEntry| entry_dependency(e))
            =~= start);
    }
    while i < entries.len()
        invariant
            i <= entries.len(),
            start == deps_view(old(out)@),
            deps_view(out@) == start + entries@.subrange(0, i as int).map_values(
                |e: DependencyEntry| entry_dependency(e),
            ),
        decreases entries.len() - i,
    {
        let e = &entries[i];
        let ghost prev = out@;
        out.push(
            ModDependency {
                mod_id: e.mod_id.clone(),
                version_range: DependencyVersionRange::Single(e.version_range.clone()),
                mandatory: e.dependency_type == String::from_str("required"),
            },
        );
        proof {
            assert(deps_view(out@) =~= deps_view(prev).push(entry_dependency(entries@[i as int])));
            assert(entries@.subrange(0, i + 1).map_values(|e: DependencyEntry| entry_dependency(e))
                =~= entries@.subrange(0, i as int).map_values(
                |e: DependencyEntry| entry_dependency(e),
            ).push(entry_dependency(entries@[i as int])));
        }
        i = i + 1;
    }
    proof {
        assert(entries@.subrange(0, entries.len() as int) =~= entries@);
    }
}

/// The dependency declarations of the document.
pub fn parse_neoforge_dependencies(toml: &NeoForgeMod) -> (r: Vec<ModDependency>)
    ensures
        deps_view(r@) == neoforge_dependencies(*toml),
{
    let mut out: Vec<ModDependency> = Vec::new();
    proof {
        assert(deps_view(out@) =~= Seq::<DependencyView>::empty());
    }
    match &toml.dependencies {
        None => {
            proof {
                assert(neoforge_dependencies(*toml) =~= Seq::<DependencyView>::empty());
            }
        },
        Some(Dependencies::SingleMod(v)) => {
            push_entries(&mut out, v);
            proof {
                assert(deps_view(out@) =~= neoforge_dependencies(*toml));
            }
        },
        Some(Dependencies::MultiMod(m)) => {
            let mut i: usize = 0;
            while i < m.len()
                invariant
                    i <= m.len(),
                    deps_view(out@) == flatten_tables(m@.subrange(0, i as int)).map_values(
                        |e: DependencyEntry| entry_dependency(e),
                    ),
                decreases m.len() - i,
            {
                let ghost prev = deps_view(out@);
                push_entries(&mut out, &m[i].1);
                proof {
                    assert(m@.subrange(0, i + 1).drop_last() =~= m@.subrange(0, i as int));
                    assert(flatten_tables(m@.subrange(0, i + 1)).map_values(
                        |e: DependencyEntry| entry_dependency(e),
                    ) =~= prev + m@[i as int].1@.map_values(|e: DependencyEntry| entry_dependency(e)));
                }
                i = i + 1;
            }
            proof {
                assert(m@.subrange(0, m.len() as int) =~= m@);
            }
        },
    }
    out
}

/// The record of entry `e` of `toml`, found in the file `file`, with the
/// archive's manifest text if any.
pub open spec fn neoforge_entry_record(
    toml: NeoForgeMod,
    e: ModEntry,
    file: Seq<char>,
    manifest: Option<Seq<char>>,
) -> Result<ModView, DescriptorError> {
    match resolved_version(e.version@, manifest) {
        Err(x) => Err(x),
        Ok(v) => Ok(
            ModView {
                mod_id: e.mod_id@,
                version: v,
                name: opt_text_view(e.display_name),
                description: opt_text_view(e.description),
                authors: author_names(e.authors),
                file_name: file,
                platform: PlatformView::NeoForge,
                dependencies: neoforge_dependencies(toml),
            },
        ),
    }
}

/// The records of the first `k` entries, or the first entry's error.
pub open spec fn neoforge_records_upto(
    toml: NeoForgeMod,
    file: Seq<char>,
    manifest: Option<Seq<char>>,
    k: int,
) -> Result<Seq<ModView>, DescriptorError>
    decreases k,
{
    if k <= 0 {
        Ok(Seq::<ModView>::empty())
    } else {
        match neoforge_records_upto(toml, file, manifest, k - 1) {
            Err(x) => Err(x),
            Ok(rs) => match neoforge_entry_record(toml, toml.mods@[k - 1], file, manifest) {
                Err(x) => Err(x),
                Ok(r) => Ok(rs.push(r)),
            },
        }
    }
}

pub proof fn lemma_neoforge_error_stays(
    toml: NeoForgeMod,
    file: Seq<char>,
    manifest: Option<Seq<char>>,
    k: int,
    k2: int,
)
    requires
        0 < k <= k2,
        neoforge_records_upto(toml, file, manifest, k) is Err,
    ensures
        neoforge_records_upto(toml, file, manifest, k2) == neoforge_records_upto(toml, file, manifest, k),
    decreases k2 - k,
{
    if k2 > k {
        lemma_neoforge_error_stays(toml, file, manifest, k, k2 - 1);
    }
}

/// The records of every entry of a document found in the file `file_name`,
/// with the archive's manifest text if any; the first entry whose version
/// cannot be resolved gives the error.
pub fn neoforge_records(toml: &NeoForgeMod, file_name: &String, manifest: Option<&str>) -> (r: Result<
    Vec<ModMetadata>,
    DescriptorError,
>)
    ensures
        match r {
            Ok(v) => neoforge_records_upto(*toml, file_name@, opt_str_view(manifest), toml.mods@.len() as int)
                == Ok::<Seq<ModView>, DescriptorError>(records_of(v@)),
            Err(e) => neoforge_records_upto(*toml, file_name@, opt_str_view(manifest), toml.mods@.len() as int)
                == Err::<Seq<ModView>, DescriptorError>(e),
        },
{
    let ghost mv = opt_str_view(manifest);
    let mut out: Vec<ModMetadata> = Vec::new();
    let mut i: usize = 0;
    proof {
        assert(records_of(out@) =~= Seq::<ModView>::empty());
    }
    while i < toml.mods.len()
        invariant
            i <= toml.mods@.len(),
            mv == opt_str_view(manifest),
            neoforge_records_upto(*toml, file_name@, mv, i as int) == Ok::<Seq<ModView>, DescriptorError>(
                records_of(out@),
            ),
        decreases toml.mods@.len() - i,
    {
        let entry = &toml.mods[i];
        let version = match resolve_entry_version(&entry.version, manifest) {
            Ok(v) => v,
            Err(e) => {
                proof {
                    lemma_neoforge_error_stays(*toml, file_name@, mv, i + 1, toml.mods@.len() as int);
                }
                return Err(e);
            },
        };
        let name = match &entry.display_name {
            Some(s) => Some(s.clone()),
            None => None,
        };
        let description = match &entry.description {
            Some(s) => Some(s.clone()),
            None => None,
        };
        let record = ModMetadata {
            mod_id: entry.mod_id.clone(),
            version,
            name,
            description,
            authors: parse_authors(&entry.authors),
            file_name: file_name.clone(),
            platform: Platform::NeoForge,
            dependencies: parse_neoforge_dependencies(toml),
        };
        let ghost prev = out@;
        out.push(record);
        proof {
            assert(records_of(out@) =~= records_of(prev).push(record@));
        }
        i = i + 1;
    }
    Ok(out)
}

} // verus!
