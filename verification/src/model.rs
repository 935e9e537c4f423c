use vstd::prelude::*;

verus! {

/// A TOML value that is not an array, as far as the pack logic reads it.
#[derive(Debug, Clone)]
pub enum TomlScalar {
    Bool(bool),
    Integer(i64),
    Text(String),
    /// A float, date, table or nested array.
    Other,
}

/// A TOML value as the pack logic reads it: a scalar, or an array of scalars.
#[derive(Debug, Clone)]
pub enum TomlValue {
    Scalar(TomlScalar),
    Array(Vec<TomlScalar>),
}

/// The mathematical value of a `TomlScalar`.
pub enum ScalarView {
    Bool(bool),
    Integer(i64),
    Text(Seq<char>),
    Other,
}

impl View for TomlScalar {
    type V = ScalarView;

    open spec fn view(&self) -> ScalarView {
        match self {
            TomlScalar::Bool(b) => ScalarView::Bool(*b),
            TomlScalar::Integer(i) => ScalarView::Integer(*i),
            TomlScalar::Text(t) => ScalarView::Text(t@),
            TomlScalar::Other => ScalarView::Other,
        }
    }
}

/// The mathematical value of a `TomlValue`.
pub enum TomlView {
    Scalar(ScalarView),
    Array(Seq<ScalarView>),
}

impl View for TomlValue {
    type V = TomlView;

    open spec fn view(&self) -> TomlView {
        match self {
            TomlValue::Scalar(s) => TomlView::Scalar(s@),
            TomlValue::Array(a) => TomlView::Array(a@.map_values(|x: TomlScalar| x@)),
        }
    }
}

/// A value selected for an option (a JSON value in the user interface).
#[derive(Debug, Clone)]
pub enum SelectionValue {
    Bool(bool),
    /// A number that fits in `i64`.
    Int(i64),
    Text(String),
    /// Null, a float, a number beyond `i64`, an array or an object.
    Other,
}

/// The mathematical value of a `SelectionValue`.
pub enum SelView {
    Bool(bool),
    Int(i64),
    Text(Seq<char>),
    Other,
}

impl View for SelectionValue {
    type V = SelView;

    open spec fn view(&self) -> SelView {
        match self {
            SelectionValue::Bool(b) => SelView::Bool(*b),
            SelectionValue::Int(i) => SelView::Int(*i),
            SelectionValue::Text(t) => SelView::Text(t@),
            SelectionValue::Other => SelView::Other,
        }
    }
}

/// One option selection: the option's full name and the chosen value.
#[derive(Debug, Clone)]
pub struct PackSelection {
    pub name: String,
    pub value: SelectionValue,
}

/// `[Config]` of a pack's `config.toml`.
#[derive(Debug, Clone)]
pub struct RawPackMeta {
    pub name: String,
    pub desc: String,
    pub author: String,
    pub author_url: String,
    pub desc_detail: String,
    pub desc_file: String,
    pub tag: String,
    pub dir: String,
    pub id: String,
    pub game: String,
    pub version: i64,
    pub option_groups: Vec<String>,
    pub includes: Vec<String>,
}

/// One configurable option of a pack.
#[derive(Debug, Clone)]
pub struct RawPackOption {
    pub name: String,
    pub desc: String,
    pub ui_name: String,
    pub option_type: String,
    pub control: bool,
    pub placeholders: Vec<String>,
    pub true_results: Vec<String>,
    pub false_results: Vec<String>,
    pub min: Option<i64>,
    pub max: Option<i64>,
    pub value_outputs: Vec<String>,
    pub values: Vec<String>,
    pub results: Vec<String>,
    pub default: Option<TomlValue>,
    /// The keys of the option table that no field above takes, in table order.
    pub extra: Vec<(String, TomlValue)>,
    pub tag: String,
}

/// The mathematical value of a `RawPackOption`: every field by its view.
pub struct OptionView {
    pub name: Seq<char>,
    pub desc: Seq<char>,
    pub ui_name: Seq<char>,
    pub option_type: Seq<char>,
    pub control: bool,
    pub placeholders: Seq<Seq<char>>,
    pub true_results: Seq<Seq<char>>,
    pub false_results: Seq<Seq<char>>,
    pub min: Option<i64>,
    pub max: Option<i64>,
    pub value_outputs: Seq<Seq<char>>,
    pub values: Seq<Seq<char>>,
    pub results: Seq<Seq<char>>,
    pub default: Option<TomlView>,
    pub extra: Seq<(Seq<char>, TomlView)>,
    pub tag: Seq<char>,
}

pub open spec fn default_view(d: Option<TomlValue>) -> Option<TomlView> {
    match d {
        Some(v) => Some(v@),
        None => None,
    }
}

pub open spec fn extra_view(e: Seq<(String, TomlValue)>) -> Seq<(Seq<char>, TomlView)> {
    e.map_values(|p: (String, TomlValue)| (p.0@, p.1@))
}

impl View for RawPackOption {
    type V = OptionView;

    open spec fn view(&self) -> OptionView {
        OptionView {
            name: self.name@,
            desc: self.desc@,
            ui_name: self.ui_name@,
            option_type: self.option_type@,
            control: self.control,
            placeholders: strs(self.placeholders@),
            true_results: strs(self.true_results@),
            false_results: strs(self.false_results@),
            min: self.min,
            max: self.max,
            value_outputs: strs(self.value_outputs@),
            values: strs(self.values@),
            results: strs(self.results@),
            default: default_view(self.default),
            extra: extra_view(self.extra@),
            tag: self.tag@,
        }
    }
}

/// The views of a list of options.
pub open spec fn option_views(v: Seq<RawPackOption>) -> Seq<OptionView> {
    v.map_values(|o: RawPackOption| o@)
}

/// A group of options (`OptionGroups`).
#[derive(Debug, Clone)]
pub struct RawPackOptionGroup {
    pub name: String,
    pub desc: String,
    pub options: Vec<RawPackOption>,
    pub tag: String,
}

/// The mathematical value of a `RawPackOptionGroup`.
pub struct GroupView {
    pub name: Seq<char>,
    pub desc: Seq<char>,
    pub options: Seq<OptionView>,
    pub tag: Seq<char>,
}

impl View for RawPackOptionGroup {
    type V = GroupView;

    open spec fn view(&self) -> GroupView {
        GroupView {
            name: self.name@,
            desc: self.desc@,
            options: option_views(self.options@),
            tag: self.tag@,
        }
    }
}

/// The views of a list of groups.
pub open spec fn group_views(v: Seq<RawPackOptionGroup>) -> Seq<GroupView> {
    v.map_values(|g: RawPackOptionGroup| g@)
}

/// One `[[Data.*]]` entry: a data file of the pack.
#[derive(Debug, Clone)]
pub struct RawPackDataItem {
    pub name: String,
    pub file: String,
    pub options: Vec<String>,
    pub need_include: bool,
}

/// `[Data]`: the data files of a pack, by main INI file.
#[derive(Debug, Clone)]
pub struct RawPackData {
    pub rules: Vec<RawPackDataItem>,
    pub art: Vec<RawPackDataItem>,
    pub ai: Vec<RawPackDataItem>,
    pub theme: Vec<RawPackDataItem>,
    pub ui: Vec<RawPackDataItem>,
}

/// One `[[Resource]]` entry.
#[derive(Debug, Clone)]
pub struct RawPackResource {
    pub file: String,
    pub dir: bool,
}

/// `[Requirements]`.
#[derive(Debug, Clone)]
pub struct RawPackRequirements {
    pub files: Vec<String>,
    pub pack: Vec<String>,
    pub min_version: Option<String>,
}

/// A pack's whole `config.toml`.
#[derive(Debug, Clone)]
pub struct RawPackConfig {
    pub config: RawPackMeta,
    pub options: Vec<RawPackOption>,
    pub option_groups: Vec<RawPackOptionGroup>,
    pub data: RawPackData,
    pub resources: Vec<RawPackResource>,
    /// `[Exports]`, in table order.
    pub exports: Vec<(String, String)>,
    /// `[Imports]`, in table order.
    pub imports: Vec<(String, String)>,
    pub requirements: RawPackRequirements,
}

/// The saved state of one component of an instance.
#[derive(Debug, Clone)]
pub struct ComponentState {
    pub id: String,
    pub name: String,
    pub desc: String,
    pub author: String,
    pub config_id: String,
    pub version: i64,
    pub tag: String,
    pub pack_path: String,
    pub enabled: bool,
    pub has_options: bool,
    pub settings: Vec<PackSelection>,
}

/// A registered game instance.
#[derive(Debug, Clone)]
pub struct InstanceRecord {
    pub name: String,
    pub preset_id: String,
    pub path: String,
}

/// The global settings.
#[derive(Debug, Clone)]
pub struct AppSettings {
    pub registry_url: String,
    pub local_repository_path: String,
}

/// A preset found in the presets directory.
#[derive(Debug, Clone)]
pub struct PresetSummary {
    pub id: String,
    pub name: String,
    pub path: String,
}

/// The names of the strings of a vector.
pub open spec fn strs(v: Seq<String>) -> Seq<Seq<char>> {
    v.map_values(|s: String| s@)
}

/// `NeedInclude` when a data entry leaves it out.
pub fn default_need_include() -> (b: bool)
    ensures
        b,
{
    true
}

} // verus!
