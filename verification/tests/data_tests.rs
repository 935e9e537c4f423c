use ini_pack_manager::paths::PathStyle;
use ini_pack_manager::apply::{
    apply_default_placeholders, apply_import_placeholders, apply_replacements, data_group_items,
    data_item_file_name, data_item_target, main_ini_file, pack_dir_placeholder, pack_output_base,
    prepare_data_file, resolve_import_placeholders, resolve_pack_exports, resource_file_path,
    DataEntryError, DataFileError, ImportCandidate, ImportError, ResourceError,
};
use ini_pack_manager::control::{
    apply_control_blocks, control_block_include, parse_control_option_name, parse_enum_control,
    ControlBlock, ControlError, ControlNameError, EnumDirectiveError,
};
use ini_pack_manager::main_ini::{ensure_include_entry, remove_include_entry};
use ini_pack_manager::model::{
    PackSelection, RawPackConfig, RawPackData, RawPackDataItem, RawPackMeta, RawPackOption,
    RawPackRequirements, RawPackResource, SelectionValue, TomlScalar, TomlValue,
};
use ini_pack_manager::replacements::{resolve_option_replacements, OptionError, Replacement};
use ini_pack_manager::value_expr::{parse_value_output, Expr, SyntaxErrorKind};
use ini_pack_manager::values::{
    bool_result_replacements, enum_option_sets, normalize_list_values, EnumSetError,
};

fn option(name: &str, ty: &str) -> RawPackOption {
    RawPackOption {
        name: name.to_string(),
        desc: String::new(),
        ui_name: String::new(),
        option_type: ty.to_string(),
        control: false,
        placeholders: vec![],
        true_results: vec![],
        false_results: vec![],
        min: None,
        max: None,
        value_outputs: vec![],
        values: vec![],
        results: vec![],
        default: None,
        extra: vec![],
        tag: String::new(),
    }
}

fn strings(v: &[&str]) -> Vec<String> {
    v.iter().map(|s| s.to_string()).collect()
}

fn meta(name: &str, id: &str, dir: &str) -> RawPackMeta {
    RawPackMeta {
        name: name.to_string(),
        desc: String::new(),
        author: String::new(),
        author_url: String::new(),
        desc_detail: String::new(),
        desc_file: String::new(),
        tag: String::new(),
        dir: dir.to_string(),
        id: id.to_string(),
        game: String::new(),
        version: 1,
        option_groups: vec![],
        includes: vec![],
    }
}

fn config(meta: RawPackMeta, options: Vec<RawPackOption>) -> RawPackConfig {
    RawPackConfig {
        config: meta,
        options,
        option_groups: vec![],
        data: RawPackData { rules: vec![], art: vec![], ai: vec![], theme: vec![], ui: vec![] },
        resources: vec![],
        exports: vec![],
        imports: vec![],
        requirements: RawPackRequirements { files: vec![], pack: vec![], min_version: None },
    }
}

fn sel(name: &str, value: SelectionValue) -> PackSelection {
    PackSelection { name: name.to_string(), value }
}

fn texts(reps: &[(String, Replacement)]) -> Vec<(String, String)> {
    reps.iter()
        .map(|(p, r)| match r {
            Replacement::Text(t) => (p.clone(), t.clone()),
            Replacement::Computed { value, index, .. } => (p.clone(), format!("computed {value} #{index}")),
        })
        .collect()
}

#[test]
fn include_entry_added_then_found() {
    let first = ensure_include_entry("[General]\nName=x\n", "Pack\\Dir\\rules.ini").unwrap();
    assert_eq!(first, "[General]\nName=x\n\n[#include]\n+=Pack/Dir/rules.ini\n");
    assert_eq!(ensure_include_entry(&first, "Pack/Dir/rules.ini"), None);
    assert_eq!(ensure_include_entry(&first, "PACK/dir/RULES.ini"), None);
}

#[test]
fn include_entry_goes_to_existing_section() {
    let content = "[#Include]\n+=a.ini\n[Other]\nk=v";
    let next = ensure_include_entry(content, "b.ini").unwrap();
    assert_eq!(next, "[#Include]\n+=a.ini\n+=b.ini\n[Other]\nk=v\n");
    assert_eq!(ensure_include_entry("", "x.ini").unwrap(), "[#include]\n+=x.ini\n");
}

#[test]
fn include_entry_removed() {
    let content = "[#include]\n+=Pack/a.ini\n  +=pack/A.ini  \n+=Pack/b.ini\n";
    assert_eq!(remove_include_entry(content, "Pack\\a.ini"), "[#include]\n+=Pack/b.ini\n");
    assert_eq!(remove_include_entry("+=x.ini", "x.ini"), "");
}

#[test]
fn control_directive_names() {
    assert_eq!(parse_control_option_name("#If $Opt", "#If").unwrap(), "Opt");
    assert_eq!(parse_control_option_name("#If Opt", "#If"), Err(ControlNameError::MissingDollar));
    assert_eq!(parse_control_option_name("#If $", "#If"), Err(ControlNameError::InvalidName));
    assert_eq!(parse_enum_control("#Enum $Mode:Fast").unwrap(), ("Mode".to_string(), "Fast".to_string()));
    assert_eq!(parse_enum_control("#Enum Mode:Fast"), Err(EnumDirectiveError::Syntax));
    assert_eq!(parse_enum_control("#Enum $Mode"), Err(EnumDirectiveError::Syntax));
    assert_eq!(parse_enum_control("#Enum $Mode:"), Err(EnumDirectiveError::Invalid));
    assert!(control_block_include(&None));
    assert!(!control_block_include(&Some(ControlBlock::Enum { keep: false })));
    assert!(control_block_include(&Some(ControlBlock::If { keep: true, has_else: true })));
}

fn control_options() -> Vec<RawPackOption> {
    let mut flag = option("Flag", "bool");
    flag.control = true;
    flag.default = Some(TomlValue::Scalar(TomlScalar::Bool(true)));
    let mut mode = option("Mode", "enum");
    mode.control = true;
    mode.values = strings(&["Slow", "Fast"]);
    mode.default = Some(TomlValue::Scalar(TomlScalar::Text("Fast".to_string())));
    vec![flag, mode]
}

#[test]
fn control_blocks_select_lines() {
    let content = "a\n#If $Flag\nb\n#Else\nc\n#EndIf\n#Enum $Mode:Slow\nslow\n#EndEnum\n#Enum $Mode:Fast\nfast\n#EndEnum\nd";
    let out = apply_control_blocks(content, &control_options(), &vec![]).unwrap();
    assert_eq!(out, "a\nb\nfast\nd");
    let sels = vec![sel("Flag", SelectionValue::Bool(false)), sel("Mode", SelectionValue::Int(0))];
    let out = apply_control_blocks(content, &control_options(), &sels).unwrap();
    assert_eq!(out, "a\nc\nslow\nd");
}

#[test]
fn control_blocks_without_directives_keep_the_file() {
    let content = "[Rules]\nSpeed=5\r\n; #if lower case is text\n";
    assert_eq!(apply_control_blocks(content, &vec![], &vec![]).unwrap(), content);
}

#[test]
fn control_block_errors() {
    let r = apply_control_blocks("#If $Flag\n#If $Flag\n", &control_options(), &vec![]);
    assert!(matches!(r, Err(ControlError::NestedBlock { line: 2 })));
    let r = apply_control_blocks("#Else\n", &control_options(), &vec![]);
    assert!(matches!(r, Err(ControlError::ElseOutsideIf { line: 1 })));
    let r = apply_control_blocks("#If $Flag\nx\n", &control_options(), &vec![]);
    assert!(matches!(r, Err(ControlError::Unclosed { is_if: true })));
    let r = apply_control_blocks("#If $Nope\n#EndIf\n", &control_options(), &vec![]);
    assert!(matches!(r, Err(ControlError::UnknownOption { line: 1, .. })));
    let r = apply_control_blocks("#If $Mode\n#EndIf\n", &control_options(), &vec![]);
    assert!(matches!(r, Err(ControlError::WrongType { line: 1, .. })));
    let sels = vec![sel("Mode", SelectionValue::Int(5))];
    let r = apply_control_blocks("#Enum $Mode:Fast\n#EndEnum\n", &control_options(), &sels);
    assert!(matches!(r, Err(ControlError::EnumIndexOutOfRange { line: 1, .. })));
    let r = apply_control_blocks("#EndEnum\n", &control_options(), &vec![]);
    assert!(matches!(r, Err(ControlError::EndEnumUnmatched { line: 1 })));
}

#[test]
fn list_values_are_split_and_trimmed() {
    let v = normalize_list_values(&strings(&["a, b", " ", "c,,d "]));
    assert_eq!(v, strings(&["a", "b", "c", "d"]));
}

#[test]
fn bool_results_fill_placeholders() {
    let ph = strings(&["$A$", "$B$"]);
    assert_eq!(bool_result_replacements(&ph, &vec![], "true").unwrap(), strings(&["true", "true"]));
    assert_eq!(bool_result_replacements(&ph, &strings(&["x"]), "true").unwrap(), strings(&["x", "x"]));
    assert_eq!(bool_result_replacements(&ph, &strings(&["x, y"]), "true").unwrap(), strings(&["x", "y"]));
    let e = bool_result_replacements(&ph, &strings(&["x,y,z"]), "true").unwrap_err();
    assert_eq!((e.results, e.placeholders), (3, 2));
}

#[test]
fn enum_sets_use_indexed_results() {
    let mut o = option("Mode", "enum");
    o.values = strings(&["Slow", "Fast"]);
    o.results = strings(&["1, 2"]);
    let sets = enum_option_sets(&o, 2).unwrap();
    assert_eq!(sets[0].results, strings(&["1, 2"]));
    assert_eq!(sets[1].results, strings(&["1, 2"]));
    assert_eq!(sets[1].values, strings(&["Slow", "Fast"]));
    o.extra = vec![("Results2".to_string(), TomlValue::Array(vec![TomlScalar::Text("a".to_string()), TomlScalar::Text("b".to_string())]))];
    assert!(matches!(enum_option_sets(&o, 2), Err(EnumSetError::MissingResults { index: 1 })));
    o.extra.push(("results1".to_string(), TomlValue::Scalar(TomlScalar::Text("p, q, r".to_string()))));
    assert!(matches!(
        enum_option_sets(&o, 2),
        Err(EnumSetError::ResultsCount { index: 1, results: 3, values: 2 })
    ));
}

#[test]
fn option_replacements_by_type() {
    let mut b = option("Flag", "Bool");
    b.placeholders = strings(&["$F$"]);
    b.true_results = strings(&["yes"]);
    let r = resolve_option_replacements(&b, &SelectionValue::Bool(true)).unwrap();
    assert_eq!(texts(&r), vec![("$F$".to_string(), "yes".to_string())]);
    let r = resolve_option_replacements(&b, &SelectionValue::Bool(false)).unwrap();
    assert_eq!(texts(&r), vec![("$F$".to_string(), "false".to_string())]);
    assert!(matches!(resolve_option_replacements(&b, &SelectionValue::Int(1)), Err(OptionError::NeedBool)));

    let mut i = option("Count", "int");
    i.placeholders = strings(&["$C$", "$D$"]);
    i.min = Some(-5);
    i.max = Some(10);
    i.value_outputs = strings(&["var * 2"]);
    let r = resolve_option_replacements(&i, &SelectionValue::Int(-3)).unwrap();
    assert_eq!(texts(&r), vec![
        ("$C$".to_string(), "computed -3 #0".to_string()),
        ("$D$".to_string(), "-3".to_string()),
    ]);
    assert!(matches!(resolve_option_replacements(&i, &SelectionValue::Int(11)), Err(OptionError::AboveMax { max: 10 })));
    assert!(matches!(resolve_option_replacements(&i, &SelectionValue::Int(-6)), Err(OptionError::BelowMin { min: -5 })));

    let mut e = option("Mode", "enum");
    e.placeholders = strings(&["$M$"]);
    e.values = strings(&["Slow", "Fast"]);
    e.results = strings(&["1", "2"]);
    let r = resolve_option_replacements(&e, &SelectionValue::Int(1)).unwrap();
    assert_eq!(texts(&r), vec![("$M$".to_string(), "2".to_string())]);
    let mut short = e.clone();
    short.results = strings(&["1,2"]);
    let r = resolve_option_replacements(&short, &SelectionValue::Int(1)).unwrap();
    assert_eq!(texts(&r), vec![("$M$".to_string(), "Fast".to_string())]);
    assert!(matches!(resolve_option_replacements(&e, &SelectionValue::Int(2)), Err(OptionError::EnumIndexOutOfRange)));
    assert!(matches!(resolve_option_replacements(&e, &SelectionValue::Int(-1)), Err(OptionError::NegativeEnumIndex)));

    let t = option("Name", "text");
    let mut t2 = t.clone();
    t2.placeholders = strings(&["$N$"]);
    assert!(matches!(resolve_option_replacements(&t, &SelectionValue::Int(1)), Err(OptionError::MissingPlaceholders)));
    match resolve_option_replacements(&t2, &SelectionValue::Int(1)) {
        Err(OptionError::UnsupportedType { lowered }) => assert_eq!(lowered, "text"),
        other => panic!("unexpected {:?}", other),
    }
}

#[test]
fn value_output_grammar() {
    assert!(matches!(parse_value_output("var"), Ok(Expr::Var)));
    assert!(matches!(parse_value_output(" (var + 2) * 3 "), Ok(Expr::Mul(_, _))));
    assert!(matches!(parse_value_output("-var / 4"), Ok(Expr::Div(_, _, 9))));
    let f = parse_value_output("var +").unwrap_err();
    assert_eq!(f.error.kind, SyntaxErrorKind::NeedNumber);
    assert_eq!(f.error.column, 6);
    let f = parse_value_output("(var").unwrap_err();
    assert_eq!(f.error.kind, SyntaxErrorKind::MissingParen);
    let f = parse_value_output("var 2").unwrap_err();
    assert_eq!(f.error.kind, SyntaxErrorKind::Trailing);
    assert_eq!(f.error.column, 5);
}

#[test]
fn pack_directories_and_placeholders() {
    let m = meta(" My Pack ", " mp ", " Mods\\Sub/ ");
    assert_eq!(pack_dir_placeholder(&m), "Pack/Mods/Sub");
    assert_eq!(pack_output_base("C:\\Game", &m), "C:\\Game/Pack/Mods/Sub");
    assert_eq!(pack_dir_placeholder(&meta("x", "y", "   ")), "Pack");
    let out = apply_default_placeholders("{Dir}|{Id}|{Name}|{Dir}".to_string(), &m);
    assert_eq!(out, "Pack/Mods/Sub|mp|My Pack|Pack/Mods/Sub");
    let imports = vec![("Base".to_string(), "Pack/Base".to_string()), ("N".to_string(), "7".to_string())];
    assert_eq!(apply_import_placeholders("{Base}/{N}/{X}".to_string(), &imports), "Pack/Base/7/{X}");
}

#[test]
fn data_entries_and_resources() {
    let item = RawPackDataItem { name: " rules.ini ".to_string(), file: "  ".to_string(), options: vec![], need_include: true };
    assert_eq!(data_item_file_name(&item).unwrap(), "rules.ini");
    let blank = RawPackDataItem { name: " ".to_string(), file: String::new(), options: vec![], need_include: true };
    assert!(matches!(data_item_file_name(&blank), Err(DataEntryError::MissingFile)));
    let m = meta("n", "i", "Sub");
    let item = RawPackDataItem { name: String::new(), file: "ini\\art.ini".to_string(), options: vec![], need_include: true };
    let t = data_item_target(&item, &m, PathStyle::Windows).unwrap();
    assert_eq!(t.file_name, "ini\\art.ini");
    assert_eq!(t.include_path, "Pack/Sub/ini/art.ini");
    let abs = RawPackDataItem { name: String::new(), file: "C:\\x.ini".to_string(), options: vec![], need_include: true };
    assert!(matches!(data_item_target(&abs, &m, PathStyle::Windows), Err(DataEntryError::OutsideInstance { .. })));
    assert_eq!(main_ini_file(0), "RulesMain.ini");
    assert_eq!(main_ini_file(4), "UIMain.ini");
    let c = config(m, vec![]);
    assert!(data_group_items(&c, 3).is_empty());
    let r = RawPackResource { file: " textures\\a.shp ".to_string(), dir: false };
    assert_eq!(resource_file_path(&r, PathStyle::Windows).unwrap(), "textures/a.shp");
    let r = RawPackResource { file: "  ".to_string(), dir: false };
    assert!(matches!(resource_file_path(&r, PathStyle::Windows), Err(ResourceError::MissingFile)));
    let r = RawPackResource { file: "../a".to_string(), dir: true };
    assert!(matches!(resource_file_path(&r, PathStyle::Windows), Err(ResourceError::IllegalPath { .. })));
}

#[test]
fn imports_resolve_against_enabled_packs() {
    let mut base = config(meta("Base Pack", "base", "BaseDir"), vec![]);
    base.exports = vec![("Path".to_string(), "{Dir}/x".to_string())];
    let exports = resolve_pack_exports(&base);
    assert_eq!(exports, vec![("Path".to_string(), "Pack/BaseDir/x".to_string())]);
    let cands = vec![
        ImportCandidate { enabled: false, same_pack: false, config: Err("skipped".to_string()) },
        ImportCandidate { enabled: true, same_pack: true, config: Err("skipped".to_string()) },
        ImportCandidate { enabled: true, same_pack: false, config: Ok(base) },
    ];
    let imports = vec![(" P ".to_string(), " BASE.path ".to_string())];
    let r = resolve_import_placeholders(&cands, &imports).unwrap();
    assert_eq!(r, vec![("P".to_string(), "Pack/BaseDir/x".to_string())]);
    let bad = vec![("P".to_string(), "nodot".to_string())];
    assert!(matches!(resolve_import_placeholders(&cands, &bad), Err(ImportError::Format { .. })));
    let missing = vec![("P".to_string(), "base.Other".to_string())];
    assert!(matches!(resolve_import_placeholders(&cands, &missing), Err(ImportError::ExportMissing { .. })));
    let none = vec![("P".to_string(), "other.Path".to_string())];
    assert!(matches!(resolve_import_placeholders(&cands, &none), Err(ImportError::PackMissing { .. })));
    let blank = vec![("P".to_string(), ".Path".to_string())];
    assert!(matches!(resolve_import_placeholders(&cands, &blank), Err(ImportError::Invalid { .. })));
}

#[test]
fn data_file_is_prepared_in_order() {
    let mut flag = option("Flag", "bool");
    flag.control = true;
    flag.default = Some(TomlValue::Scalar(TomlScalar::Bool(false)));
    let mut speed = option("Speed", "int");
    speed.placeholders = strings(&["$SPEED$"]);
    speed.default = Some(TomlValue::Array(vec![TomlScalar::Integer(4)]));
    let c = config(meta("N", "id", "D"), vec![flag, speed]);
    let content = "#If $Flag\nhidden\n#EndIf\nS=$SPEED$ in {Dir} {Imp}\n";
    let imports = vec![("Imp".to_string(), "I".to_string())];
    let names = strings(&["Flag", "Speed"]);
    let p = prepare_data_file(content, &c, &vec![], &imports, "f.ini", &names).unwrap();
    assert_eq!(p.content, "S=$SPEED$ in Pack/D I\n");
    assert!(p.stopped.is_none());
    assert_eq!(p.replacements.len(), 1);
    assert_eq!(texts(&p.replacements[0]), vec![("$SPEED$".to_string(), "4".to_string())]);
    let flat: Vec<(String, String)> = p.replacements.iter().flat_map(|r| texts(r)).collect();
    assert_eq!(apply_replacements(&p.content, &flat), "S=4 in Pack/D I\n");

    let sels = vec![PackSelection { name: "Speed".to_string(), value: SelectionValue::Int(9) }];
    let p = prepare_data_file(content, &c, &sels, &imports, "f.ini", &strings(&["Speed", "Nope", "Speed"])).unwrap();
    assert_eq!(p.replacements.len(), 1);
    assert!(matches!(p.stopped, Some(DataFileError::UnknownOption { .. })));

    let r = prepare_data_file("#If $Speed\n#EndIf\n", &c, &vec![], &imports, "f.ini", &names);
    assert!(matches!(r, Err(DataFileError::Control(_))));
}

#[test]
fn remove_undoes_ensure() {
    let content = "[General]\nName=x\n[#include]\n+=Pack/a.ini\n[Other]\nK=v\n";
    let added = ensure_include_entry(content, "Pack\\b.ini").unwrap();
    assert_eq!(added, "[General]\nName=x\n[#include]\n+=Pack/a.ini\n+=Pack/b.ini\n[Other]\nK=v\n");
    assert_eq!(remove_include_entry(&added, "Pack/b.ini"), content);
}

#[test]
fn ensure_keeps_earlier_lines() {
    let added = ensure_include_entry("A=1\r\nB=2", "x.ini").unwrap();
    assert_eq!(added, "A=1\nB=2\n\n[#include]\n+=x.ini\n");
    let lines: Vec<&str> = added.lines().collect();
    assert_eq!(&lines[..2], &["A=1", "B=2"]);
}

#[test]
fn removing_a_packs_entries_leaves_none() {
    let mut content = "[#include]\n+=Pack/Old/a.ini\n".to_string();
    for rel in ["Pack/P/a.ini", "Pack/P/b.ini"] {
        if let Some(next) = ensure_include_entry(&content, rel) {
            content = next;
        }
    }
    for rel in ["Pack/P/a.ini", "Pack/P/b.ini"] {
        content = remove_include_entry(&content, rel);
    }
    assert_eq!(content, "[#include]\n+=Pack/Old/a.ini\n");
}
