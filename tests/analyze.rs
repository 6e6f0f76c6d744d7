use modcheck::analyze::analyze_dependencies;
use modcheck::fault::{DependencyError, DependencyErrors};
use modcheck::metadata::{DependencyVersionRange, ModDependency, ModMetadata, Platform};
use modcheck::resolve::{is_reserved, resolve_dependencies};

fn rec(id: &str, version: &str, file: &str, platform: Platform, deps: Vec<ModDependency>) -> ModMetadata {
    ModMetadata {
        mod_id: id.to_string(),
        version: version.to_string(),
        name: None,
        description: None,
        authors: vec![],
        file_name: file.to_string(),
        platform,
        dependencies: deps,
    }
}

fn dep(id: &str, range: &str, mandatory: bool) -> ModDependency {
    ModDependency {
        mod_id: id.to_string(),
        version_range: DependencyVersionRange::Single(range.to_string()),
        mandatory,
    }
}

fn dep_any(id: &str, ranges: &[&str]) -> ModDependency {
    ModDependency {
        mod_id: id.to_string(),
        version_range: DependencyVersionRange::Multiple(ranges.iter().map(|r| r.to_string()).collect()),
        mandatory: true,
    }
}

fn faults(r: Result<Vec<ModMetadata>, DependencyErrors>) -> Vec<DependencyError> {
    match r {
        Ok(_) => panic!("expected faults"),
        Err(e) => e.0,
    }
}

fn ids(v: &[ModMetadata]) -> Vec<String> {
    v.iter().map(|m| m.mod_id.clone()).collect()
}

#[test]
fn three_cycle_reports_one_chain() {
    let mods = vec![
        rec("a", "1.0.0", "a.jar", Platform::Fabric, vec![dep("b", "*", true)]),
        rec("b", "1.0.0", "b.jar", Platform::Fabric, vec![dep("c", "*", true)]),
        rec("c", "1.0.0", "c.jar", Platform::Fabric, vec![dep("a", "*", true)]),
    ];
    let f = faults(analyze_dependencies(&mods));
    assert_eq!(
        f,
        vec![DependencyError::CircularDependency(vec![
            "a".to_string(),
            "b".to_string(),
            "c".to_string(),
            "a".to_string()
        ])]
    );
}

#[test]
fn self_dependency_is_a_cycle() {
    let mods = vec![rec("a", "1.0.0", "a.jar", Platform::Forge, vec![dep("a", "*", true)])];
    let f = faults(analyze_dependencies(&mods));
    assert_eq!(f, vec![DependencyError::CircularDependency(vec!["a".to_string(), "a".to_string()])]);
}

#[test]
fn reserved_ids_never_missing() {
    let reserved = ["minecraft", "forge", "fabricloader", "fabric-resource-loader-v0", "java", "neoforge"];
    let deps: Vec<ModDependency> = reserved.iter().map(|r| dep(r, ">=99.0.0", true)).collect();
    let mods = vec![rec("a", "1.0.0", "a.jar", Platform::Fabric, deps)];
    let ordered = analyze_dependencies(&mods).unwrap();
    assert_eq!(ids(&ordered), vec!["a".to_string()]);
    for r in reserved {
        assert!(is_reserved(&r.to_string()));
    }
    assert!(!is_reserved(&"minecraftx".to_string()));
}

#[test]
fn unsupported_partition_does_not_block_sibling() {
    let mods = vec![
        rec("q1", "1.0.0", "q1.jar", Platform::Quilt, vec![]),
        rec("f1", "1.0.0", "f1.jar", Platform::Fabric, vec![dep("f2", ">=1.0.0", true)]),
        rec("q2", "1.0.0", "q2.jar", Platform::Quilt, vec![dep("nothing", "*", true)]),
        rec("f2", "1.2.0", "f2.jar", Platform::Fabric, vec![]),
        rec("q3", "1.0.0", "q3.jar", Platform::Quilt, vec![]),
    ];
    let f = faults(analyze_dependencies(&mods));
    assert_eq!(
        f,
        vec![DependencyError::UnsupportedPlatform(
            Platform::Quilt,
            vec!["q1.jar".to_string(), "q2.jar".to_string(), "q3.jar".to_string()]
        )]
    );
    let fabric: Vec<&ModMetadata> = mods.iter().filter(|m| m.platform == Platform::Fabric).collect();
    let order = resolve_dependencies(fabric).unwrap();
    assert_eq!(order.iter().map(|m| m.mod_id.clone()).collect::<Vec<_>>(), vec!["f2", "f1"]);
}

#[test]
fn dependencies_come_first_in_the_order() {
    let mods = vec![
        rec("app", "1.0.0", "app.jar", Platform::Forge, vec![dep("lib", "[1.0.0,2.0.0)", true)]),
        rec("lib", "1.5.0", "lib.jar", Platform::Forge, vec![dep("core", "^0.3", false)]),
        rec("core", "0.3.1", "core.jar", Platform::Forge, vec![]),
        rec("other", "2.0.0", "other.jar", Platform::NeoForge, vec![]),
    ];
    let ordered = analyze_dependencies(&mods).unwrap();
    assert_eq!(ids(&ordered), vec!["core", "lib", "app", "other"]);
    assert_eq!(ordered[0], mods[2]);
}

#[test]
fn empty_batch_succeeds() {
    let ordered = analyze_dependencies(&[]).unwrap();
    assert!(ordered.is_empty());
}

#[test]
fn missing_mandatory_is_reported_and_optional_is_not() {
    let mods = vec![rec(
        "a",
        "1.0.0",
        "a.jar",
        Platform::Fabric,
        vec![dep("gone", "*", true), dep("maybe", "*", false)],
    )];
    let f = faults(analyze_dependencies(&mods));
    assert_eq!(
        f,
        vec![DependencyError::MissingDependency("a".to_string(), "a.jar".to_string(), "gone".to_string())]
    );
}

#[test]
fn conflict_is_reported_and_walk_continues_into_target() {
    let mods = vec![
        rec("a", "1.0.0", "a.jar", Platform::Fabric, vec![dep("b", "[2.0.0,)", true)]),
        rec("b", "1.0.0", "b.jar", Platform::Fabric, vec![dep("c", "*", true)]),
    ];
    let f = faults(analyze_dependencies(&mods));
    assert_eq!(
        f,
        vec![
            DependencyError::VersionConflict(
                "a.jar".to_string(),
                "b".to_string(),
                "[2.0.0,)".to_string(),
                "1.0.0".to_string(),
                "b.jar".to_string()
            ),
            DependencyError::MissingDependency("b".to_string(), "b.jar".to_string(), "c".to_string()),
        ]
    );
}

#[test]
fn present_optional_dependency_is_version_checked() {
    let mods = vec![
        rec("a", "1.0.0", "a.jar", Platform::Fabric, vec![dep("b", ">=3.0.0", false)]),
        rec("b", "1.0.0", "b.jar", Platform::Fabric, vec![]),
    ];
    let f = faults(analyze_dependencies(&mods));
    assert_eq!(f.len(), 1);
    assert!(matches!(f[0], DependencyError::VersionConflict(..)));
}

#[test]
fn invalid_target_version_is_reported() {
    let mods = vec![
        rec("a", "1.0.0", "a.jar", Platform::Fabric, vec![dep("b", "*", true)]),
        rec("b", "one", "b.jar", Platform::Fabric, vec![]),
    ];
    let f = faults(analyze_dependencies(&mods));
    assert_eq!(
        f,
        vec![DependencyError::InvalidVersionFormat("b".to_string(), "b.jar".to_string(), "one".to_string())]
    );
}

#[test]
fn invalid_alternative_is_reported_but_others_still_count() {
    let mods = vec![
        rec("a", "1.0.0", "a.jar", Platform::Fabric, vec![dep_any("b", &["not a range", "1.16.3"])]),
        rec("b", "1.16.3", "b.jar", Platform::Fabric, vec![]),
    ];
    let f = faults(analyze_dependencies(&mods));
    assert_eq!(
        f,
        vec![DependencyError::InvalidVersionFormat(
            "b".to_string(),
            "a.jar".to_string(),
            "not a range".to_string()
        )]
    );
}

#[test]
fn disjunctive_requirement_accepts_listed_version() {
    let mods = vec![
        rec("a", "1.0.0", "a.jar", Platform::Fabric, vec![dep_any("b", &["1.16.2", "1.16.3"])]),
        rec("b", "1.16.3", "b.jar", Platform::Fabric, vec![]),
    ];
    assert_eq!(ids(&analyze_dependencies(&mods).unwrap()), vec!["b", "a"]);
}

#[test]
fn disjunctive_requirement_rejects_unlisted_version() {
    let mods = vec![
        rec("a", "1.0.0", "a.jar", Platform::Fabric, vec![dep_any("lib", &["1.16.2", "1.16.3"])]),
        rec("lib", "1.17.0", "lib.jar", Platform::Fabric, vec![]),
    ];
    let f = faults(analyze_dependencies(&mods));
    assert_eq!(
        f,
        vec![DependencyError::VersionConflict(
            "a.jar".to_string(),
            "lib".to_string(),
            "1.16.2 || 1.16.3".to_string(),
            "1.17.0".to_string(),
            "lib.jar".to_string()
        )]
    );
}

#[test]
fn disjunction_without_match_is_one_conflict() {
    let mods = vec![
        rec("a", "1.0.0", "a.jar", Platform::Fabric, vec![dep_any("b", &["~1.16.2", "=1.16.3"])]),
        rec("b", "1.17.0", "b.jar", Platform::Fabric, vec![]),
    ];
    let f = faults(analyze_dependencies(&mods));
    assert_eq!(
        f,
        vec![DependencyError::VersionConflict(
            "a.jar".to_string(),
            "b".to_string(),
            "~1.16.2 || =1.16.3".to_string(),
            "1.17.0".to_string(),
            "b.jar".to_string()
        )]
    );
}

#[test]
fn ids_are_resolved_per_ecosystem() {
    let mods = vec![
        rec("a", "1.0.0", "a.jar", Platform::Forge, vec![dep("b", "*", true)]),
        rec("b", "1.0.0", "b.jar", Platform::Fabric, vec![]),
    ];
    let f = faults(analyze_dependencies(&mods));
    assert_eq!(
        f,
        vec![DependencyError::MissingDependency("a".to_string(), "a.jar".to_string(), "b".to_string())]
    );
}

#[test]
fn faults_come_partition_by_partition() {
    let mods = vec![
        rec("x", "1.0.0", "x.jar", Platform::Unknown("rift".to_string()), vec![]),
        rec("a", "1.0.0", "a.jar", Platform::Fabric, vec![dep("m", "*", true)]),
        rec("b", "1.0.0", "b.jar", Platform::Forge, vec![dep("n", "*", true)]),
    ];
    let f = faults(analyze_dependencies(&mods));
    assert_eq!(f.len(), 3);
    assert!(matches!(f[0], DependencyError::UnsupportedPlatform(Platform::Unknown(_), _)));
    assert_eq!(f[1], DependencyError::MissingDependency("a".to_string(), "a.jar".to_string(), "m".to_string()));
    assert_eq!(f[2], DependencyError::MissingDependency("b".to_string(), "b.jar".to_string(), "n".to_string()));
}

#[test]
fn report_renders_one_line_per_fault() {
    let report = DependencyErrors(vec![
        DependencyError::MissingDependency("a".to_string(), "a.jar".to_string(), "gone".to_string()),
        DependencyError::CircularDependency(vec!["a".to_string(), "b".to_string(), "a".to_string()]),
        DependencyError::InvalidVersionFormat("b".to_string(), "b.jar".to_string(), "x".to_string()),
    ]);
    assert_eq!(
        report.render(),
        "Missing dependency for a (a.jar): gone\nCircular dependency detected: a -> b -> a\nInvalid version format for b (b.jar): \"x\""
    );
}

#[test]
fn conflict_and_unsupported_render() {
    let conflict = DependencyError::VersionConflict(
        "a.jar".to_string(),
        "b".to_string(),
        ">=2".to_string(),
        "1.0.0".to_string(),
        "b.jar".to_string(),
    );
    assert_eq!(conflict.render(), "Version conflict for a.jar:\n    required b >=2, found 1.0.0 (b.jar) ");
    let unsupported = DependencyError::UnsupportedPlatform(
        Platform::Unknown("ri\"ft".to_string()),
        vec!["x.jar".to_string(), "y.jar".to_string()],
    );
    assert_eq!(unsupported.render(), "Unsupported platform: Unknown(\"ri\\\"ft\")\n [\"x.jar\", \"y.jar\"]");
    let quilt = DependencyError::UnsupportedPlatform(Platform::Quilt, vec![]);
    assert_eq!(quilt.render(), "Unsupported platform: Quilt\n []");
}

#[test]
fn two_runs_agree_and_order_dependencies_first() {
    let mods = vec![
        rec("e", "1.0.0", "e.jar", Platform::Fabric, vec![dep("d", "*", true), dep("b", "*", false)]),
        rec("d", "1.0.0", "d.jar", Platform::Fabric, vec![dep("c", "*", true), dep("minecraft", "*", true)]),
        rec("c", "1.0.0", "c.jar", Platform::Fabric, vec![dep("a", "*", true)]),
        rec("b", "1.0.0", "b.jar", Platform::Fabric, vec![dep("a", "*", true)]),
        rec("a", "1.0.0", "a.jar", Platform::Fabric, vec![]),
    ];
    let first = analyze_dependencies(&mods).unwrap();
    let second = analyze_dependencies(&mods).unwrap();
    assert_eq!(first, second);
    assert_eq!(ids(&first), vec!["a", "c", "d", "b", "e"]);
    for (x, m) in first.iter().enumerate() {
        for d in &m.dependencies {
            if let Some(y) = first.iter().position(|o| o.mod_id == d.mod_id) {
                assert!(y < x);
            }
        }
    }
}

#[test]
fn long_chain_terminates() {
    let n = 300;
    let mods: Vec<ModMetadata> = (0..n)
        .map(|i| {
            let deps = if i + 1 < n { vec![dep(&format!("m{}", i + 1), "*", true)] } else { vec![] };
            rec(&format!("m{}", i), "1.0.0", &format!("m{}.jar", i), Platform::Forge, deps)
        })
        .collect();
    let ordered = analyze_dependencies(&mods).unwrap();
    assert_eq!(ordered.len(), n);
    assert_eq!(ordered[0].mod_id, format!("m{}", n - 1));
    assert_eq!(ordered[n - 1].mod_id, "m0");
}

#[test]
fn cycles_of_several_lengths_each_reported_once() {
    let mods = vec![
        rec("a", "1.0.0", "a.jar", Platform::NeoForge, vec![dep("b", "*", true)]),
        rec("b", "1.0.0", "b.jar", Platform::NeoForge, vec![dep("a", "*", true)]),
        rec("s", "1.0.0", "s.jar", Platform::NeoForge, vec![dep("s", "*", true)]),
    ];
    let f = faults(analyze_dependencies(&mods));
    assert_eq!(
        f,
        vec![
            DependencyError::CircularDependency(vec!["a".to_string(), "b".to_string(), "a".to_string()]),
            DependencyError::CircularDependency(vec!["s".to_string(), "s".to_string()]),
        ]
    );
}

#[test]
fn duplicate_ids_resolve_to_the_last_record() {
    let mods = vec![
        rec("a", "1.0.0", "a.jar", Platform::Fabric, vec![dep("lib", ">=2.0.0", true)]),
        rec("lib", "1.0.0", "lib-old.jar", Platform::Fabric, vec![]),
        rec("lib", "2.1.0", "lib-new.jar", Platform::Fabric, vec![]),
    ];
    let ordered = analyze_dependencies(&mods).unwrap();
    assert_eq!(ordered.len(), 2);
    assert_eq!(ordered[0].file_name, "lib-new.jar");
    assert_eq!(ordered[1].mod_id, "a");
}
