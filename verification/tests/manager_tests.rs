use ini_pack_manager::paths::PathStyle;
use ini_pack_manager::archive::{
    extract_plan, import_base_name, pack_id_matches, read_zip_entries, zip_config_entry, zip_config_text,
    zip_include_text, ZipConfigError, ZipEntry, ZipIncludeError, zip_entry_target, zip_include_name,
};
use ini_pack_manager::components::{
    check_snapshot_preset, check_snapshot_schema, complete_component, component_from_snapshot,
    dependent_component_names, disable_component, enable_component,
    ensure_component_can_be_disabled, export_snapshot, find_component, find_repository_pack,
    normalize_component, remove_component, upsert_component, ComponentError, DisableError,
    SnapshotError,
};
use ini_pack_manager::config::ConfigError;
use ini_pack_manager::definition::{
    build_pack_definition, dependency_display_names, desc_file_location, option_default_bool,
    option_default_enum_index, option_default_int, DefinitionError, DescError,
};
use ini_pack_manager::instances::{
    add_instance, check_instance_input, check_update_input, confirm_add_instance, delete_instance,
    instance_preset_id_for_path, list_instances, preview_add_instance, update_instance,
    InstanceError,
};
use ini_pack_manager::model::{
    ComponentState, InstanceRecord, PackSelection, PresetSummary, RawPackConfig, RawPackData,
    RawPackMeta, RawPackOption, RawPackOptionGroup, RawPackRequirements, SelectionValue,
    TomlScalar, TomlValue,
};
use ini_pack_manager::paths::PathError;
use ini_pack_manager::presets::{
    detect_preset_overwrite_files, find_preset_by_id, is_preset_entry_file,
    list_presets_internal, preset_log, read_preset_summary, PresetError, PresetInfo,
};
use ini_pack_manager::remote::{
    catalog_lists, catalog_packages, catalog_request, normalize_sha256, package_summary,
    resolve_remote_url, sha256_hex, verify_download_sha256, CatalogError,
    RemotePackageEntry, RemoteRegistryPackList, UrlError,
};
use ini_pack_manager::requirements::{
    effective_component_config_id, normalized_pack_config_id, required_files,
    validate_pack_requirements, RequirementError,
};
use ini_pack_manager::versions::{
    current_app_version, package_incompatible_reason, parse_version_text,
    validate_min_app_version, VersionError,
};

fn strings(v: &[&str]) -> Vec<String> {
    v.iter().map(|s| s.to_string()).collect()
}

fn option(name: &str, ty: &str) -> RawPackOption {
    RawPackOption {
        name: name.to_string(),
        desc: String::new(),
        ui_name: String::new(),
        option_type: ty.to_string(),
        control: false,
        placeholders: vec![],
        true_results: vec![],
        false_results: vec![],
        min: None,
        max: None,
        value_outputs: vec![],
        values: vec![],
        results: vec![],
        default: None,
        extra: vec![],
        tag: String::new(),
    }
}

fn meta(name: &str, id: &str) -> RawPackMeta {
    RawPackMeta {
        name: name.to_string(),
        desc: "desc".to_string(),
        author: "me".to_string(),
        author_url: String::new(),
        desc_detail: String::new(),
        desc_file: String::new(),
        tag: "General".to_string(),
        dir: String::new(),
        id: id.to_string(),
        game: String::new(),
        version: 3,
        option_groups: vec![],
        includes: vec![],
    }
}

fn config(meta: RawPackMeta, options: Vec<RawPackOption>) -> RawPackConfig {
    RawPackConfig {
        config: meta,
        options,
        option_groups: vec![],
        data: RawPackData { rules: vec![], art: vec![], ai: vec![], theme: vec![], ui: vec![] },
        resources: vec![],
        exports: vec![],
        imports: vec![],
        requirements: RawPackRequirements { files: vec![], pack: vec![], min_version: None },
    }
}

fn component(id: &str, name: &str, config_id: &str, enabled: bool) -> ComponentState {
    ComponentState {
        id: id.to_string(),
        name: name.to_string(),
        desc: String::new(),
        author: String::new(),
        config_id: config_id.to_string(),
        version: 1,
        tag: String::new(),
        pack_path: format!("C:\\packs\\{name}"),
        enabled,
        has_options: false,
        settings: vec![PackSelection { name: "Opt".to_string(), value: SelectionValue::Bool(true) }],
    }
}

fn record(name: &str, preset: &str, path: &str) -> InstanceRecord {
    InstanceRecord { name: name.to_string(), preset_id: preset.to_string(), path: path.to_string() }
}

#[test]
fn option_defaults() {
    let mut o = option("Mode", "enum");
    o.values = strings(&["Slow", "Fast"]);
    o.default = Some(TomlValue::Array(vec![TomlScalar::Text("Fast".to_string())]));
    assert_eq!(option_default_enum_index(&o), Some(1));
    assert_eq!(option_default_bool(&o), None);
    o.default = Some(TomlValue::Scalar(TomlScalar::Integer(-4)));
    assert_eq!(option_default_enum_index(&o), Some(0));
    assert_eq!(option_default_int(&o), Some(-4));
    o.default = Some(TomlValue::Array(vec![]));
    assert_eq!(option_default_int(&o), None);
    o.default = Some(TomlValue::Scalar(TomlScalar::Bool(true)));
    assert_eq!(option_default_bool(&o), Some(true));
}

#[test]
fn description_file_checks() {
    assert_eq!(desc_file_location("  ", PathStyle::Windows).unwrap(), None);
    assert_eq!(desc_file_location(" docs\\Index.HTML ", PathStyle::Windows).unwrap(), Some("docs/Index.HTML".to_string()));
    assert_eq!(desc_file_location("page.htm", PathStyle::Windows).unwrap(), Some("page.htm".to_string()));
    assert!(matches!(desc_file_location("../x.html", PathStyle::Windows), Err(DescError::InvalidPath { .. })));
    assert!(matches!(desc_file_location("readme.txt", PathStyle::Windows), Err(DescError::NotHtml { .. })));
    assert!(matches!(desc_file_location(".html", PathStyle::Windows), Err(DescError::NotHtml { .. })));
}

#[test]
fn dependency_names_prefer_repository_names() {
    let repo = vec![("base".to_string(), "Base Pack".to_string()), ("x".to_string(), "Other".to_string())];
    let names = dependency_display_names(&strings(&[" BASE ", "other", "missing "]), &repo);
    assert_eq!(names, strings(&["Base Pack", "Other", "missing"]));
}

#[test]
fn pack_definition_is_built() {
    let mut flag = option("G.Flag", "BOOL");
    flag.tag = "G".to_string();
    flag.desc = "  ".to_string();
    let mut mode = option("G.Mode", "enum");
    mode.tag = "G".to_string();
    mode.placeholders = strings(&["$M$"]);
    mode.values = strings(&["a", "b"]);
    let mut c = config(meta("Pack", " id1 "), vec![flag, mode]);
    c.option_groups = vec![RawPackOptionGroup { name: " ".to_string(), desc: "d".to_string(), options: vec![], tag: "G".to_string() }];
    c.requirements.files = strings(&[" a.ini ", " "]);
    c.requirements.pack = strings(&["base"]);
    c.requirements.min_version = Some("  ".to_string());
    let repo = vec![("BASE".to_string(), "Base".to_string())];
    let d = build_pack_definition("\\\\?\\C:\\packs\\p", &c, Ok(Some("<p/>".to_string())), &repo, PathStyle::Windows).unwrap();
    assert_eq!(d.pack_path, "C:\\packs\\p");
    assert_eq!(d.config_id, "id1");
    assert_eq!(d.desc_html, Some("<p/>".to_string()));
    assert_eq!(d.options[0].option_type, "bool");
    assert_eq!(d.options[0].desc, "G.Flag");
    assert_eq!(d.options[1].enum_items, strings(&["a", "b"]));
    assert_eq!(d.options[1].placeholder, "$M$");
    assert_eq!(d.requirements.files, strings(&["a.ini"]));
    assert_eq!(d.requirements.min_version, None);
    assert_eq!(d.dependency_names, strings(&["Base"]));
    assert_eq!(d.option_groups[0].name, "G");
    assert_eq!(d.option_groups[0].options.len(), 2);
}

#[test]
fn pack_definition_refusals() {
    let mut ctl = option("C", "int");
    ctl.control = true;
    let c = config(meta("P", "p"), vec![ctl]);
    assert!(matches!(build_pack_definition("p", &c, Ok(None), &vec![], PathStyle::Windows), Err(DefinitionError::ControlType { .. })));
    let c = config(meta("P", "p"), vec![option("E", "enum")]);
    assert!(matches!(build_pack_definition("p", &c, Ok(None), &vec![], PathStyle::Windows), Err(DefinitionError::EnumWithoutValues { .. })));
    let mut e = option("E", "enum");
    e.values = strings(&["a"]);
    let c = config(meta("P", "p"), vec![e]);
    assert!(matches!(build_pack_definition("p", &c, Ok(None), &vec![], PathStyle::Windows), Err(DefinitionError::MissingPlaceholders { .. })));
    let c = config(meta("P", "p"), vec![]);
    let r = build_pack_definition("p", &c, Err(DescError::NotHtml { file: "x".to_string() }), &vec![], PathStyle::Windows);
    assert!(matches!(r, Err(DefinitionError::Desc(DescError::NotHtml { .. }))));
}

#[test]
fn versions_against_this_manager() {
    assert_eq!(current_app_version(), "0.1.0");
    let v = parse_version_text("1.2.3-beta.1+b5").unwrap();
    assert_eq!((v.major(), v.minor(), v.patch()), (1, 2, 3));
    assert_eq!(v.pre(), "beta.1");
    assert_eq!(v.build(), "b5");
    assert!(parse_version_text("1.2").is_err());
    let r = package_incompatible_reason(" 2.0.0 ").unwrap();
    assert_eq!(r.major(), 2);
    assert!(package_incompatible_reason("0.0.9").is_none());
    assert!(package_incompatible_reason("0.1.0").is_none());
    assert!(package_incompatible_reason("not a version").is_none());
    assert!(package_incompatible_reason("  ").is_none());
    let mut c = config(meta("P", "p"), vec![]);
    assert!(validate_min_app_version(&c).is_ok());
    c.requirements.min_version = Some(" 9.9.9 ".to_string());
    assert!(matches!(validate_min_app_version(&c), Err(VersionError::AppTooOld { .. })));
    c.requirements.min_version = Some("x.y".to_string());
    match validate_min_app_version(&c) {
        Err(VersionError::InvalidMinVersion { text, .. }) => assert_eq!(text, "x.y"),
        other => panic!("unexpected {:?}", other),
    }
}

#[test]
fn requirements_are_checked() {
    assert_eq!(normalized_pack_config_id("  MyPack "), "mypack");
    let mut c = config(meta("P", "p"), vec![]);
    c.config.game = " YR ".to_string();
    c.requirements.files = strings(&[" gamemd.exe ", "ra2md.csf"]);
    c.requirements.pack = strings(&["Base", "Extra"]);
    assert_eq!(required_files(&c), strings(&["gamemd.exe", "ra2md.csf"]));
    let comps = vec![
        component("1", "Base", "", true),
        component("2", "Extra", "extra", false),
        component("3", "Self", "extra", true),
    ];
    let parsed = vec![Some(("base".to_string(), "Base".to_string())), None, None];
    match validate_pack_requirements("yr", &c, &comps, &parsed, Some(" 3 "), &vec![true, false]) {
        Err(RequirementError::Missing { files, packs }) => {
            assert_eq!(files, strings(&["ra2md.csf"]));
            assert_eq!(packs, strings(&["Extra"]));
        }
        other => panic!("unexpected {:?}", other),
    }
    assert!(validate_pack_requirements("yr", &c, &comps, &parsed, None, &vec![true, true]).is_ok());
    match validate_pack_requirements("ra2", &c, &comps, &parsed, None, &vec![true, true]) {
        Err(RequirementError::GameMismatch { required, actual }) => {
            assert_eq!(required, "YR");
            assert_eq!(actual, "ra2");
        }
        other => panic!("unexpected {:?}", other),
    }
    let c0 = component("9", "X", "", true);
    assert_eq!(effective_component_config_id(&c0, &Some((" ".to_string(), "Named".to_string()))), "named");
    let mut c1 = component("9", "X", "", true);
    c1.pack_path = " ".to_string();
    assert_eq!(effective_component_config_id(&c1, &Some(("id".to_string(), "n".to_string()))), "");
}

#[test]
fn checksums() {
    assert_eq!(
        sha256_hex(b"abc"),
        "ba7816bf8f01cfea414140de5dae2223b00361a396177a9cb410ff61f20015ad"
    );
    assert_eq!(normalize_sha256(" sha256: ABcd "), "abcd");
    assert_eq!(normalize_sha256(" SHA256:AB "), "sha256:ab");
    assert!(verify_download_sha256(b"abc", "").is_ok());
    assert!(verify_download_sha256(
        b"abc",
        "sha256:BA7816BF8F01CFEA414140DE5DAE2223B00361A396177A9CB410FF61F20015AD"
    )
    .is_ok());
    let e = verify_download_sha256(b"abd", "ba7816bf").unwrap_err();
    assert_eq!(e.expected, "ba7816bf");
    assert_eq!(e.actual.len(), 64);
}

#[test]
fn remote_urls() {
    let base = "https://example.com/repo/index.toml";
    assert_eq!(resolve_remote_url(base, " lists/a.toml ").unwrap(), "https://example.com/repo/lists/a.toml");
    assert_eq!(resolve_remote_url(base, "https://cdn.example.org/p.zip").unwrap(), "https://cdn.example.org/p.zip");
    assert!(matches!(resolve_remote_url(base, "  "), Err(UrlError::EmptyPath)));
    assert!(matches!(resolve_remote_url("not a url", "a"), Err(UrlError::InvalidBase { .. })));
}

#[test]
fn remote_catalog() {
    assert!(matches!(catalog_request(" ", "yr"), Err(CatalogError::EmptyRegistry)));
    assert!(matches!(catalog_request("u", " "), Err(CatalogError::EmptyGame)));
    assert_eq!(catalog_request(" u ", " yr ").unwrap(), ("u".to_string(), "yr".to_string()));
    let lists = vec![
        RemoteRegistryPackList { game: "RA2".to_string(), index: strings(&["ra2.toml"]), name: "RA2".to_string(), desc: String::new() },
        RemoteRegistryPackList { game: " yr ".to_string(), index: strings(&["yr/a.toml", "yr/b.toml"]), name: " ".to_string(), desc: " first ".to_string() },
        RemoteRegistryPackList { game: "YR".to_string(), index: strings(&["c.toml"]), name: " Yuri ".to_string(), desc: "second".to_string() },
    ];
    let (name, desc, urls) = catalog_lists("https://x.org/r/index.toml", "yr", &lists).unwrap();
    assert_eq!(name, "Yuri");
    assert_eq!(desc, "first");
    assert_eq!(urls, strings(&["https://x.org/r/yr/a.toml", "https://x.org/r/yr/b.toml", "https://x.org/r/c.toml"]));
    let entry = RemotePackageEntry {
        id: " p ".to_string(),
        name: " Pack ".to_string(),
        author: String::new(),
        desc: String::new(),
        tag: " Unit ".to_string(),
        version: 2,
        url: "files/p.zip".to_string(),
        sha256: String::new(),
        min_version: "99.0.0".to_string(),
    };
    let resolved = catalog_packages("https://x.org/r/yr/a.toml", vec![entry]).unwrap();
    assert_eq!(resolved[0].url, "https://x.org/r/yr/files/p.zip");
    let s = package_summary(&resolved[0]);
    assert_eq!(s.id, "p");
    assert_eq!(s.name, "Pack");
    assert_eq!(s.tag, "Unit");
    assert_eq!(s.incompatible_reason.unwrap().major(), 99);
}

#[test]
fn presets() {
    let info = Some(PresetInfo { id: Some(" yr ".to_string()), name: Some("  ".to_string()) });
    let p = read_preset_summary(&info, "\\\\?\\C:\\presets\\yr", PathStyle::Windows).unwrap();
    assert_eq!((p.id.as_str(), p.name.as_str(), p.path.as_str()), ("yr", "yr", "C:\\presets\\yr"));
    assert_eq!(read_preset_summary(&None, "x", PathStyle::Windows).unwrap_err(), PresetError::MissingInfo);
    let no_id = Some(PresetInfo { id: Some(" ".to_string()), name: None });
    assert_eq!(read_preset_summary(&no_id, "x", PathStyle::Windows).unwrap_err(), PresetError::MissingId);
    assert!(is_preset_entry_file("ENTRY.toml"));
    assert!(!is_preset_entry_file("entry.toml.bak"));
    let ps = |id: &str, name: &str| PresetSummary { id: id.to_string(), name: name.to_string(), path: String::new() };
    let sorted = list_presets_internal(vec![Some(ps("b", "Yuri")), None, Some(ps("a", "RA2")), Some(ps("c", "Yuri"))]);
    let ids: Vec<&str> = sorted.iter().map(|p| p.id.as_str()).collect();
    assert_eq!(ids, vec!["a", "b", "c"]);
    assert_eq!(find_preset_by_id(&sorted, "c"), Some(2));
    assert_eq!(find_preset_by_id(&sorted, "C"), None);
    let files = detect_preset_overwrite_files(&strings(&["b\\x.ini", "a.ini", "c.ini"]), &vec![true, true, false]);
    assert_eq!(files, strings(&["a.ini", "b/x.ini"]));
    let log = preset_log(&ps("yr", "Yuri"), "I", "P", "W", &strings(&["s -> d (exists=true)"]));
    assert_eq!(
        log,
        "preset_id=yr\npreset_name=Yuri\ninstance_dir=I\npreset_dir=P\ncurrent_dir=W\ncopied_count=1\ncopied=s -> d (exists=true)\n"
    );
}

#[test]
fn instance_store() {
    assert_eq!(check_instance_input(" ", "p", "yr").unwrap_err(), InstanceError::EmptyName);
    assert_eq!(check_instance_input("n", "p", " ").unwrap_err(), InstanceError::NoPreset);
    assert_eq!(check_instance_input("n", " ", "yr").unwrap_err(), InstanceError::EmptyPath);
    assert_eq!(check_update_input("n", " ").unwrap_err(), InstanceError::EmptyPath);
    assert_eq!(confirm_add_instance(true, 0, None), Err(InstanceError::NeedsConfirmation));
    assert_eq!(confirm_add_instance(false, 2, Some(false)), Err(InstanceError::NeedsConfirmation));
    assert_eq!(confirm_add_instance(true, 2, Some(true)), Ok(()));
    assert_eq!(confirm_add_instance(false, 0, None), Ok(()));

    let list = vec![record("A", "yr", "C:\\a"), record("B", "ra2", "C:\\b")];
    let keys = strings(&["c:\\a", "c:\\b"]);
    assert_eq!(instance_preset_id_for_path(&list, &keys, "c:\\b"), "ra2");
    assert_eq!(instance_preset_id_for_path(&list, &keys, "c:\\z"), "");
    let preview = preview_add_instance(&list, &keys, "c:\\b", vec![]);
    assert!(preview.has_conflict && preview.has_duplicate_instance);
    assert_eq!(preview.duplicate_instance_name, Some("B".to_string()));
    let (added, stored) = add_instance(list.clone(), &keys, "c:\\b", record(" ", "yr", "C:\\b"), PathStyle::Windows);
    assert_eq!(added.name, "b");
    assert_eq!(stored.len(), 2);
    assert_eq!(stored[1].preset_id, "yr");
    let (_, stored) = add_instance(list.clone(), &keys, "c:\\c", record("C", "yr", "C:\\c"), PathStyle::Windows);
    assert_eq!(stored.len(), 3);

    let (updated, stored) = update_instance(list.clone(), &keys, "c:\\a", "c:\\new", "New".to_string(), "C:\\new".to_string(), PathStyle::Windows).unwrap();
    assert_eq!((updated.name.as_str(), updated.preset_id.as_str()), ("New", "yr"));
    assert_eq!(stored[0].path, "C:\\new");
    assert_eq!(
        update_instance(list.clone(), &keys, "c:\\a", "c:\\b", "N".to_string(), "C:\\b".to_string(), PathStyle::Windows).unwrap_err(),
        InstanceError::PathTaken
    );
    assert_eq!(
        update_instance(list.clone(), &keys, "c:\\z", "c:\\q", "N".to_string(), "C:\\q".to_string(), PathStyle::Windows).unwrap_err(),
        InstanceError::NotFound
    );
    let rest = delete_instance(list.clone(), &keys, "c:\\a").unwrap();
    assert_eq!(rest.len(), 1);
    assert_eq!(rest[0].name, "B");
    assert_eq!(delete_instance(list.clone(), &keys, "c:\\z").unwrap_err(), InstanceError::NotFound);
    let named = list_instances(vec![record("", "yr", "D:\\Games\\Mod\\")], PathStyle::Windows);
    assert_eq!(named[0].name, "Mod");
}

#[test]
fn delete_undoes_add() {
    let list = vec![record("A", "yr", "C:\\a"), record("B", "ra2", "C:\\b")];
    let keys = strings(&["c:\\a", "c:\\b"]);
    let (_, stored) = add_instance(list.clone(), &keys, "c:\\c", record("C", "yr", "C:\\c"), PathStyle::Windows);
    let stored_keys = strings(&["c:\\a", "c:\\b", "c:\\c"]);
    let back = delete_instance(stored, &stored_keys, "c:\\c").unwrap();
    assert_eq!(format!("{:?}", back), format!("{:?}", list));
}

#[test]
fn component_store() {
    let c = component(" ", " Name ", "", true);
    let n = normalize_component(c, "abc").unwrap();
    assert_eq!((n.id.as_str(), n.name.as_str()), ("abc", "Name"));
    assert_eq!(normalize_component(component("x", "  ", "", true), "g").unwrap_err(), ComponentError::EmptyName);
    let mut no_path = component("x", "N", "", true);
    no_path.pack_path = " ".to_string();
    assert_eq!(normalize_component(no_path, "g").unwrap_err(), ComponentError::EmptyPackPath);
    let cfg = config(meta("P", " pid "), vec![option("o", "bool")]);
    let done = complete_component(n, &cfg);
    assert_eq!(done.config_id, "pid");
    assert!(done.has_options);
    assert_eq!(done.version, 3);

    let list = vec![component("1", "A", "a", true), component("2", "B", "b", false)];
    let (saved, at) = upsert_component(list, component("2", "B2", "b", true));
    assert_eq!(at, 1);
    assert_eq!(saved[1].name, "B2");
    assert_eq!(find_component(&saved, "2"), Some(1));
    let (saved, at) = upsert_component(saved, component("3", "C", "c", true));
    assert_eq!(at, 2);
    assert_eq!(saved.len(), 3);
    let saved = disable_component(saved, 0);
    assert!(!saved[0].enabled);
    let mut blank = component("4", "D", " ", false);
    blank.config_id = " ".to_string();
    let (saved, at) = upsert_component(saved, blank);
    let saved = enable_component(saved, at, &cfg);
    assert!(saved[at].enabled);
    assert_eq!(saved[at].config_id, "pid");
    let saved = remove_component(saved, 0);
    assert_eq!(saved.len(), 3);
    assert_eq!(find_component(&saved, "1"), None);
}

#[test]
fn disable_then_enable_restores() {
    let cfg = config(meta("P", "other"), vec![]);
    let list = vec![component("1", "A", "a", true), component("2", "B", "b", true)];
    let back = enable_component(disable_component(list.clone(), 1), 1, &cfg);
    assert_eq!(back.len(), list.len());
    for (x, y) in back.iter().zip(list.iter()) {
        assert_eq!(format!("{:?}", x), format!("{:?}", y));
    }
}

#[test]
fn component_dependents() {
    let target = component("1", "Base", "base", true);
    let target_cfg = config(meta("Base Pack", "base"), vec![]);
    let mut needs = config(meta("User", "user"), vec![]);
    needs.requirements.pack = strings(&[" BASE PACK "]);
    let comps = vec![
        target.clone(),
        component("2", "User", "user", true),
        component("3", "Off", "off", false),
    ];
    let configs = vec![Ok(config(meta("Base Pack", "base"), vec![])), Ok(needs), Err("unread".to_string())];
    let names = dependent_component_names(&target, &target_cfg, &comps, &configs).unwrap();
    assert_eq!(names, strings(&["User"]));
    match ensure_component_can_be_disabled(&target, &target_cfg, &comps, &configs) {
        Err(DisableError::Dependents { names }) => assert_eq!(names, strings(&["User"])),
        other => panic!("unexpected {:?}", other),
    }
    let mut enabled_broken = comps.clone();
    enabled_broken[2].enabled = true;
    match dependent_component_names(&target, &target_cfg, &enabled_broken, &configs) {
        Err(m) => assert_eq!(m, "unread"),
        other => panic!("unexpected {:?}", other),
    }
}

#[test]
fn configuration_snapshot_round_trip() {
    let comps = vec![component("1", "A", "pa", true), component("2", "B", "", false)];
    let pack_ids = vec!["pa".to_string(), " PB ".to_string()];
    let snap = export_snapshot("yr".to_string(), &comps, &pack_ids);
    assert_eq!(snap.schema_version, 1);
    assert_eq!(snap.components[0].config_id, "pa");
    assert_eq!(snap.components[1].config_id, "PB");
    assert_eq!(snap.components[1].name, "B");
    assert!(check_snapshot_schema(1).is_ok());
    assert!(matches!(check_snapshot_schema(2), Err(SnapshotError::UnsupportedSchema { version: 2 })));
    assert!(check_snapshot_preset("YR", "yr").is_ok());
    assert!(matches!(check_snapshot_preset("yr", "ra2"), Err(SnapshotError::PresetMismatch { .. })));
    let repo = vec![None, Some(" PA ".to_string()), Some("pb".to_string())];
    assert_eq!(find_repository_pack(&repo, "pa"), Some(1));
    assert_eq!(find_repository_pack(&repo, "pz"), None);
    let cfg = config(meta("Pack A", "PA"), vec![]);
    let restored = component_from_snapshot(&snap.components[0], "id".to_string(), "R:\\pa".to_string(), &cfg);
    assert_eq!(restored.enabled, comps[0].enabled);
    assert_eq!(restored.settings.len(), 1);
    assert_eq!(restored.settings[0].name, "Opt");
    assert!(matches!(restored.settings[0].value, SelectionValue::Bool(true)));
    assert_eq!(restored.config_id, "PA");
    assert_eq!(restored.name, "Pack A");
}

#[test]
fn archives() {
    let entries = vec![
        entry("pack/", ""),
        entry("pack\\readme.txt", "r"),
        entry("pack\\Config.TOML", "c"),
        entry("other/config.toml", "o"),
    ];
    assert_eq!(zip_config_entry(&entries), Some((2, String::new())));
    let entries = vec![entry("root\\sub/config.toml", "")];
    assert_eq!(zip_config_entry(&entries), Some((0, "root/sub/".to_string())));
    assert_eq!(zip_config_entry(&vec![entry("a.ini", "")]), None);
    assert_eq!(zip_include_name("root/", "groups\\a.toml", PathStyle::Windows).unwrap(), "root/groups/a.toml");
    assert!(matches!(zip_include_name("root/", "../a.toml", PathStyle::Windows), Err(ConfigError::InvalidIncludePath { .. })));
    assert_eq!(zip_entry_target("root\\a\\b.ini", "root/", PathStyle::Windows).unwrap(), Some("a/b.ini".to_string()));
    assert_eq!(zip_entry_target("other/b.ini", "root/", PathStyle::Windows).unwrap(), None);
    assert_eq!(zip_entry_target("root/", "root/", PathStyle::Windows).unwrap(), None);
    assert_eq!(zip_entry_target("root/../x", "root/", PathStyle::Windows), Err(PathError::Illegal));
    assert_eq!(zip_entry_target("x.ini", "", PathStyle::Windows).unwrap(), Some("x.ini".to_string()));
    assert!(pack_id_matches(" Base ", "BASE"));
    assert!(!pack_id_matches("base", " base"));
    assert_eq!(import_base_name(&config(meta(" a:b ", ""), vec![])), "a_b");
}

fn entry(name: &str, text: &str) -> ZipEntry {
    ZipEntry { name: name.to_string(), is_dir: name.ends_with('/') || name.ends_with('\\'), data: text.as_bytes().to_vec() }
}

fn zipped(files: &[(&str, &[u8])]) -> Vec<u8> {
    let mut writer = zip::ZipWriter::new(std::io::Cursor::new(Vec::new()));
    let options = zip::write::SimpleFileOptions::default().compression_method(zip::CompressionMethod::Stored);
    for (name, data) in files {
        if name.ends_with('/') {
            writer.add_directory(name.to_string(), options).unwrap();
        } else {
            writer.start_file(name.to_string(), options).unwrap();
            std::io::Write::write_all(&mut writer, data).unwrap();
        }
    }
    writer.finish().unwrap().into_inner()
}

#[test]
fn zip_archives_are_read() {
    let bytes = zipped(&[("pack/", b""), ("pack/config.toml", b"[Config]\nName = \"P\"\n"), ("pack/groups/a.toml", b"[A]\n")]);
    let entries = read_zip_entries(&bytes).unwrap();
    assert_eq!(entries.len(), 3);
    assert_eq!(entries[0].name, "pack/");
    assert!(entries[0].is_dir);
    assert_eq!(entries[1].data, b"[Config]\nName = \"P\"\n".to_vec());
    assert!(read_zip_entries(b"not a zip").is_err());

    let found = zip_config_text(&entries).unwrap();
    assert_eq!((found.name.as_str(), found.prefix.as_str()), ("pack/config.toml", "pack/"));
    assert_eq!(found.text, "[Config]\nName = \"P\"\n");
    assert_eq!(zip_include_text(&entries, "pack/", "groups\\a.toml", PathStyle::Windows).unwrap(), "[A]\n");
    assert!(matches!(zip_include_text(&entries, "pack/", "../a.toml", PathStyle::Windows), Err(ZipIncludeError::InvalidPath { .. })));
    assert!(matches!(zip_include_text(&entries, "pack/", "b.toml", PathStyle::Windows), Err(ZipIncludeError::Missing { .. })));
    let bad = vec![ZipEntry { name: "config.toml".to_string(), is_dir: false, data: vec![0xff, 0xfe] }];
    assert!(matches!(zip_config_text(&bad), Err(ZipConfigError::NotText { .. })));
    assert!(matches!(zip_config_text(&vec![entry("a.ini", "")]), Err(ZipConfigError::NoConfig)));

    let plan = extract_plan(entries, "pack/", PathStyle::Windows);
    assert!(plan.stopped.is_none());
    let paths: Vec<&str> = plan.steps.iter().map(|s| s.path.as_str()).collect();
    assert_eq!(paths, vec!["config.toml", "groups/a.toml"]);
    assert_eq!(plan.steps[1].data, b"[A]\n".to_vec());
    let plan = extract_plan(vec![entry("p/a.ini", "a"), entry("p/../x", "x"), entry("p/b.ini", "b")], "p/", PathStyle::Windows);
    assert_eq!(plan.steps.len(), 1);
    assert!(matches!(plan.stopped, Some((PathError::Illegal, ref n)) if n == "../x"));
}
