use ini_pack_manager::paths::PathStyle;
use ini_pack_manager::config::{
    normalize_pack_tag, parse_option_group, parse_pack_config_with_includes,
    load_included_option_group, ConfigError, GroupInput,
};
use ini_pack_manager::model::{
    RawPackConfig, RawPackData, RawPackMeta, RawPackOption, RawPackOptionGroup,
    RawPackRequirements,
};

fn option(name: &str, ty: &str) -> RawPackOption {
    RawPackOption {
        name: name.to_string(),
        desc: String::new(),
        ui_name: String::new(),
        option_type: ty.to_string(),
        control: false,
        placeholders: vec![],
        true_results: vec![],
        false_results: vec![],
        min: None,
        max: None,
        value_outputs: vec![],
        values: vec![],
        results: vec![],
        default: None,
        extra: vec![],
        tag: String::new(),
    }
}

fn group(name: &str, options: Vec<RawPackOption>) -> RawPackOptionGroup {
    RawPackOptionGroup { name: name.to_string(), desc: String::new(), options, tag: String::new() }
}

fn meta(name: &str) -> RawPackMeta {
    RawPackMeta {
        name: name.to_string(),
        desc: String::new(),
        author: String::new(),
        author_url: String::new(),
        desc_detail: String::new(),
        desc_file: String::new(),
        tag: String::new(),
        dir: String::new(),
        id: String::new(),
        game: String::new(),
        version: 0,
        option_groups: vec![],
        includes: vec![],
    }
}

fn config(meta: RawPackMeta, options: Vec<RawPackOption>) -> RawPackConfig {
    RawPackConfig {
        config: meta,
        options,
        option_groups: vec![],
        data: RawPackData { rules: vec![], art: vec![], ai: vec![], theme: vec![], ui: vec![] },
        resources: vec![],
        exports: vec![],
        imports: vec![],
        requirements: RawPackRequirements { files: vec![], pack: vec![], min_version: None },
    }
}

fn ok_group(g: RawPackOptionGroup) -> GroupInput {
    GroupInput { has_include_key: false, decoded: Ok(g) }
}

#[test]
fn normalize_pack_tag_canonical_spelling() {
    assert_eq!(normalize_pack_tag("  tools ").unwrap(), "Tools");
    assert_eq!(normalize_pack_tag("MAJOR").unwrap(), "Major");
    assert_eq!(normalize_pack_tag("").unwrap(), "General");
    assert_eq!(normalize_pack_tag("   ").unwrap(), "General");
}

#[test]
fn normalize_pack_tag_unknown() {
    match normalize_pack_tag(" Weapons ") {
        Err(ConfigError::UnknownTag { tag }) => assert_eq!(tag, "Weapons"),
        other => panic!("unexpected {:?}", other),
    }
}

#[test]
fn normalize_pack_tag_twice_is_once() {
    let once = normalize_pack_tag(" feature").unwrap();
    let twice = normalize_pack_tag(&once).unwrap();
    assert_eq!(once, twice);
}

#[test]
fn option_group_renames_options() {
    let g = group("Adv", vec![option(" Level ", "int"), option("Mode", "enum")]);
    let parsed = parse_option_group("Advanced", &ok_group(g)).unwrap();
    assert_eq!(parsed.tag, "Advanced");
    assert_eq!(parsed.name, "Adv");
    assert_eq!(parsed.options[0].name, "Advanced.Level");
    assert_eq!(parsed.options[1].name, "Advanced.Mode");
    assert_eq!(parsed.options[1].tag, "Advanced");
    assert_eq!(parsed.options[1].option_type, "enum");
}

#[test]
fn option_group_errors() {
    let with_include = GroupInput { has_include_key: true, decoded: Ok(group("A", vec![option("x", "bool")])) };
    assert!(matches!(parse_option_group("A", &with_include), Err(ConfigError::GroupInclude)));
    let bad = GroupInput { has_include_key: false, decoded: Err("missing field".to_string()) };
    match parse_option_group("A", &bad) {
        Err(ConfigError::GroupDecode { tag, message }) => {
            assert_eq!(tag, "A");
            assert_eq!(message, "missing field");
        }
        other => panic!("unexpected {:?}", other),
    }
    let empty = ok_group(group("A", vec![]));
    assert!(matches!(parse_option_group("A", &empty), Err(ConfigError::GroupWithoutOptions { .. })));
    let blank = ok_group(group("A", vec![option("ok", "bool"), option("  ", "bool")]));
    match parse_option_group("A", &blank) {
        Err(ConfigError::EmptyOptionName { tag }) => assert_eq!(tag, "A"),
        other => panic!("unexpected {:?}", other),
    }
}

#[test]
fn wraps_legacy_options_in_general_group() {
    let c = config(meta("Legacy"), vec![option("Enabled", "bool")]);
    let parsed = parse_pack_config_with_includes(c, &vec![], &vec![], PathStyle::Windows).unwrap();
    assert_eq!(parsed.option_groups[0].tag, "General");
    assert_eq!(parsed.option_groups[0].options.len(), 1);
    assert_eq!(parsed.option_groups[0].options[0].tag, "General");
    assert_eq!(parsed.options[0].name, "Enabled");
    assert_eq!(parsed.config.tag, "General");
}

#[test]
fn parses_flat_option_groups_and_single_level_include() {
    let mut m = meta("Test");
    m.option_groups = vec!["General".to_string(), "Advanced".to_string()];
    m.includes = vec!["groups/advanced.toml".to_string()];
    let c = config(m, vec![]);
    let root = vec![
        ("Config".to_string(), GroupInput { has_include_key: false, decoded: Err("not a group".to_string()) }),
        ("General".to_string(), ok_group(group("General", vec![option("Enabled", "bool")]))),
    ];
    let included = vec![Ok(vec![(
        "Advanced".to_string(),
        ok_group(group("Advanced", vec![option("Level", "int")])),
    )])];
    let parsed = parse_pack_config_with_includes(c, &root, &included, PathStyle::Windows).unwrap();
    assert_eq!(parsed.option_groups.len(), 2);
    assert_eq!(parsed.options[0].name, "General.Enabled");
    assert_eq!(parsed.options[1].name, "Advanced.Level");
}

#[test]
fn groups_follow_declared_order() {
    let mut m = meta("Order");
    m.option_groups = vec!["B".to_string(), " A ".to_string()];
    let root = vec![
        ("A".to_string(), ok_group(group("a", vec![option("x", "bool")]))),
        ("B".to_string(), ok_group(group("b", vec![option("y", "bool")]))),
    ];
    let parsed = parse_pack_config_with_includes(config(m, vec![]), &root, &vec![], PathStyle::Windows).unwrap();
    assert_eq!(parsed.option_groups[0].tag, "B");
    assert_eq!(parsed.option_groups[1].tag, "A");
    assert_eq!(parsed.options[0].name, "B.y");
    assert_eq!(parsed.options[1].name, "A.x");
}

#[test]
fn config_refusals() {
    let mut m = meta("Mixed");
    m.option_groups = vec!["A".to_string()];
    let r = parse_pack_config_with_includes(config(m, vec![option("x", "bool")]), &vec![], &vec![], PathStyle::Windows);
    assert!(matches!(r, Err(ConfigError::MixedOptions)));

    let mut m = meta("Dup");
    m.option_groups = vec!["A".to_string(), "A".to_string()];
    let root = vec![("A".to_string(), ok_group(group("a", vec![option("x", "bool")])))];
    let r = parse_pack_config_with_includes(config(m, vec![]), &root, &vec![], PathStyle::Windows);
    assert!(matches!(r, Err(ConfigError::EmptyOrDuplicateGroupTag)));

    let mut m = meta("Missing");
    m.option_groups = vec!["A".to_string()];
    match parse_pack_config_with_includes(config(m, vec![]), &vec![], &vec![], PathStyle::Windows) {
        Err(ConfigError::DeclaredGroupMissing { tag }) => assert_eq!(tag, "A"),
        other => panic!("unexpected {:?}", other),
    }

    let mut m = meta("Tag");
    m.tag = "nope".to_string();
    let r = parse_pack_config_with_includes(config(m, vec![]), &vec![], &vec![], PathStyle::Windows);
    assert!(matches!(r, Err(ConfigError::UnknownTag { .. })));
}

#[test]
fn include_refusals() {
    let mut m = meta("Inc");
    m.option_groups = vec!["A".to_string()];
    m.includes = vec!["b.toml".to_string()];
    let included = vec![Ok(vec![("B".to_string(), ok_group(group("b", vec![option("x", "bool")])))])];
    match parse_pack_config_with_includes(config(m, vec![]), &vec![], &included, PathStyle::Windows) {
        Err(ConfigError::IncludedGroupUndeclared { tag }) => assert_eq!(tag, "B"),
        other => panic!("unexpected {:?}", other),
    }

    let mut m = meta("Twice");
    m.option_groups = vec!["A".to_string()];
    m.includes = vec!["a.toml".to_string()];
    let root = vec![("A".to_string(), ok_group(group("a", vec![option("x", "bool")])))];
    let included = vec![Ok(vec![("A".to_string(), ok_group(group("a", vec![option("y", "bool")])))])];
    let r = parse_pack_config_with_includes(config(m, vec![]), &root, &included, PathStyle::Windows);
    assert!(matches!(r, Err(ConfigError::GroupDefinedTwice)));
}

#[test]
fn include_loading_checks() {
    let doc = Ok(vec![]);
    assert!(matches!(
        load_included_option_group("../up.toml", &doc, PathStyle::Windows),
        Err(ConfigError::InvalidIncludePath { .. })
    ));
    assert!(matches!(
        load_included_option_group("a.toml", &Err("no such file".to_string()), PathStyle::Windows),
        Err(ConfigError::IncludeUnreadable { .. })
    ));
    assert!(matches!(
        load_included_option_group("a.toml", &Ok(vec![]), PathStyle::Windows),
        Err(ConfigError::IncludeNotSingleGroup { .. })
    ));
    let one = Ok(vec![("G".to_string(), ok_group(group("g", vec![option("x", "bool")])))]);
    let g = load_included_option_group("a.toml", &one, PathStyle::Windows).unwrap();
    assert_eq!(g.tag, "G");
    assert_eq!(g.options[0].name, "G.x");
}
