use modcheck::fabric::{Author, Contact, DependencyVersion, FabricMod};
use modcheck::forge::{self as forge, Authors, ForgeMod};
use modcheck::manifest::{jar_version_from_manifest, needs_manifest, resolve_entry_version, DescriptorError};
use modcheck::metadata::{DependencyVersionRange, ModMetadata, Platform};
use modcheck::neoforge::{self as neoforge, NeoForgeMod};
use modcheck::text::split_list;

fn s(x: &str) -> String {
    x.to_string()
}

fn fabric_doc(depends: Vec<(String, DependencyVersion)>) -> FabricMod {
    FabricMod {
        schema_version: 1,
        id: s("my_mod"),
        version: s("1.0.0"),
        name: None,
        description: None,
        authors: None,
        contact: None,
        license: None,
        icon: None,
        environment: None,
        depends: Some(depends),
    }
}

#[test]
fn test_parse_fabric_mod_contents() {
    let mut json = fabric_doc(vec![
        (s("fabricloader"), DependencyVersion::Single(s(">=0.14.0"))),
        (s("minecraft"), DependencyVersion::Single(s("1.19.x"))),
    ]);
    json.name = Some(s("My Awesome Mod"));
    json.description = Some(s("This is a test mod."));
    json.authors = Some(vec![Author::Simple(s("Test Author"))]);
    json.contact = Some(Contact { homepage: Some(s("https://example.com")), sources: None, issues: None });
    json.license = Some(s("MIT"));
    json.environment = Some(s("*"));
    let file_name = s("fabric.mod.json");
    let metadata = ModMetadata::from_fabric_mod(&json, &file_name);
    assert_eq!(metadata.mod_id, "my_mod");
    assert_eq!(metadata.version, "1.0.0");
    assert_eq!(metadata.name, Some("My Awesome Mod".to_string()));
    assert_eq!(metadata.authors, vec!["Test Author".to_string()]);
    assert_eq!(metadata.dependencies.len(), 2);
    assert_eq!(metadata.file_name, "fabric.mod.json");
    assert_eq!(metadata.platform, Platform::Fabric);
    assert!(metadata.dependencies.iter().all(|d| d.mandatory));
}

#[test]
fn test_parse_fabric_mod_with_dependency_array() {
    let json = fabric_doc(vec![(
        s("minecraft"),
        DependencyVersion::Multiple(vec![s("1.16.2"), s("1.16.3"), s("1.16.4"), s("1.16.5")]),
    )]);
    let metadata = ModMetadata::from_fabric_mod(&json, &s("fabric.mod.json"));
    assert_eq!(metadata.dependencies.len(), 1);
    assert_eq!(metadata.dependencies[0].mod_id, "minecraft");
    match &metadata.dependencies[0].version_range {
        DependencyVersionRange::Multiple(v) => {
            assert_eq!(v, &vec!["1.16.2", "1.16.3", "1.16.4", "1.16.5"]);
        }
        _ => panic!("Expected Multiple variant"),
    }
}

#[test]
fn repeated_dependency_ids_are_not_well_formed() {
    let ok = fabric_doc(vec![
        (s("a"), DependencyVersion::Single(s("*"))),
        (s("b"), DependencyVersion::Single(s("*"))),
    ]);
    assert!(ok.is_well_formed());
    let twice = fabric_doc(vec![
        (s("a"), DependencyVersion::Single(s("*"))),
        (s("b"), DependencyVersion::Single(s("*"))),
        (s("a"), DependencyVersion::Single(s("1.0.0"))),
    ]);
    assert!(!twice.is_well_formed());
}

#[test]
fn detailed_authors_give_their_names() {
    let mut json = fabric_doc(vec![]);
    json.authors = Some(vec![
        Author::Detailed { name: s("Ann"), contact: None },
        Author::Simple(s("Bob")),
    ]);
    assert_eq!(modcheck::fabric::parse_authors(&json.authors), vec![s("Ann"), s("Bob")]);
    assert!(modcheck::fabric::parse_authors(&None).is_empty());
}

fn forge_entry(version: &str) -> forge::ModEntry {
    forge::ModEntry {
        mod_id: s("examplemod"),
        namespace: None,
        version: s(version),
        display_name: Some(s("Example Mod")),
        description: Some(s("Lets you craft dirt into diamonds.")),
        logo_file: Some(s("logo.png")),
        logo_blur: None,
        update_json_url: None,
        credits: Some(s("I'd like to thank my mother and father.")),
        authors: Some(Authors::String(s("Author"))),
        display_url: Some(s("https://minecraftforge.net")),
        display_test: Some(s("MATCH_VERSION")),
    }
}

fn forge_dep(id: &str, range: &str, mandatory: bool) -> forge::DependencyEntry {
    forge::DependencyEntry {
        mod_id: s(id),
        mandatory,
        version_range: s(range),
        ordering: s("NONE"),
        side: s("BOTH"),
    }
}

fn forge_doc(version: &str) -> ForgeMod {
    ForgeMod {
        mod_loader: s("javafml"),
        loader_version: s("[52,)"),
        license: Some(s("All Rights Reserved")),
        issue_tracker_url: None,
        show_as_resource_pack: Some(false),
        client_side_only: Some(false),
        mods: vec![forge_entry(version)],
        dependencies: Some(forge::Dependencies::MultiMod(vec![(
            s("examplemod"),
            vec![forge_dep("forge", "[52,)", true), forge_dep("minecraft", "[1.21.1,)", true)],
        )])),
    }
}

#[test]
fn forge_test_parse_forge_mod_contents() {
    let toml = forge_doc("1.0.0.0");
    let all_metadata = forge::forge_records(&toml, &s("test.toml"), None).unwrap();
    assert_eq!(all_metadata.len(), 1);
    let first_mod = &all_metadata[0];
    assert_eq!(first_mod.mod_id, "examplemod");
    assert_eq!(first_mod.version, "1.0.0.0");
    assert_eq!(first_mod.platform, Platform::Forge);
    assert_eq!(first_mod.authors, vec![s("Author")]);
    assert_eq!(first_mod.dependencies.len(), 2);
    assert_eq!(first_mod.dependencies[1].mod_id, "minecraft");
    assert_eq!(first_mod.dependencies[1].version_range, DependencyVersionRange::Single(s("[1.21.1,)")));
}

#[test]
fn forge_placeholder_version_comes_from_manifest() {
    let toml = forge_doc("${file.jarVersion}");
    let manifest = "Manifest-Version: 1.0\r\nImplementation-Version: 3.4.5\r\nBuilt-By: ci\r\n";
    let records = forge::forge_records(&toml, &s("a.jar"), Some(manifest)).unwrap();
    assert_eq!(records[0].version, "3.4.5");
    assert_eq!(forge::forge_records(&toml, &s("a.jar"), None), Err(DescriptorError::ManifestMissing));
    assert_eq!(
        forge::forge_records(&toml, &s("a.jar"), Some("Manifest-Version: 1.0\n")),
        Err(DescriptorError::VersionLineMissing)
    );
}

#[test]
fn manifest_version_lines() {
    assert_eq!(jar_version_from_manifest("Implementation-Version: 1.2.3"), Some(s("1.2.3")));
    assert_eq!(jar_version_from_manifest("A: b\nImplementation-Version: 1.2.3\n"), Some(s("1.2.3")));
    assert_eq!(jar_version_from_manifest("Implementation-Version:1.2.3"), Some(s("unknown")));
    assert_eq!(jar_version_from_manifest("Implementation-Version: 1: 2"), Some(s("1")));
    assert_eq!(jar_version_from_manifest("X-Implementation-Version: 9"), None);
    assert_eq!(jar_version_from_manifest(""), None);
    assert!(needs_manifest(&s("${file.jarVersion}")));
    assert!(!needs_manifest(&s("1.0.0")));
    assert_eq!(resolve_entry_version(&s("2.0.0"), None), Ok(s("2.0.0")));
}

#[test]
fn comma_separated_authors_are_trimmed() {
    assert_eq!(split_list(" Ann , Bob,, Cy "), vec![s("Ann"), s("Bob"), s("Cy")]);
    assert!(split_list("").is_empty());
    assert_eq!(
        forge::parse_authors(&Some(Authors::Array(vec![s("A, B")]))),
        vec![s("A, B")]
    );
}

fn neo_dep(id: &str, kind: &str) -> neoforge::DependencyEntry {
    neoforge::DependencyEntry {
        mod_id: s(id),
        dependency_type: s(kind),
        reason: None,
        version_range: s("[1.21]"),
        ordering: s("NONE"),
        side: s("BOTH"),
    }
}

fn neo_doc() -> NeoForgeMod {
    NeoForgeMod {
        mod_loader: s("javafml"),
        loader_version: s("[1,)"),
        license: s("${mod_license}"),
        show_as_resource_pack: None,
        show_as_data_pack: None,
        services: None,
        issue_tracker_url: Some(s("https://change.me.to.your.issue.tracker.example.invalid/")),
        mods: vec![neoforge::ModEntry {
            mod_id: s("examplemod"),
            version: s("1.8.2"),
            display_name: Some(s("Example Mod")),
            description: None,
            logo_file: Some(s("icon.png")),
            logo_blur: None,
            update_json_url: None,
            credits: None,
            authors: Some(Authors::String(s("Author"))),
            display_url: Some(s("https://minecraftforge.net")),
            enum_extensions: None,
            feature_flags: None,
        }],
        dependencies: Some(neoforge::Dependencies::MultiMod(vec![(
            s("examplemod"),
            vec![neo_dep("minecraft", "required"), neo_dep("neoforge", "optional")],
        )])),
    }
}

#[test]
fn neoforge_test_parse_forge_mod_contents() {
    let toml = neo_doc();
    let all_metadata = neoforge::neoforge_records(&toml, &s("test.toml"), None).unwrap();
    assert_eq!(all_metadata.len(), 1);
    let first_mod = &all_metadata[0];
    assert_eq!(first_mod.mod_id, "examplemod");
    assert_eq!(first_mod.version, "1.8.2");
    assert_eq!(first_mod.platform, Platform::NeoForge);
    assert!(first_mod.dependencies[0].mandatory);
    assert!(!first_mod.dependencies[1].mandatory);
}
