use vstd::prelude::*;
use crate::control::{first_item, position_of, type_bool, type_enum, value_position};
use crate::model::{RawPackConfig, RawPackOption, RawPackOptionGroup, TomlScalar, TomlValue, strs};
use crate::values::{
    EnumSetError, copy_strings, enum_option_sets, enum_sets_spec, list_values, option_placeholders,
    trimmed_nonempty,
};
use crate::paths::{display_path, safe_relative, safe_relative_path, simplify_for_display, PathStyle};
use crate::text::{
    chars_eq, chars_eq_ignore_case, chars_of, eq_ignore_case, lowercase_chars, slice_chars,
    string_of, trim, trim_chars, unicode_lowercase,
};

verus! {

// ----- option defaults ----------------------------------------------------

/// The first item of an option's default, where it has one.
pub open spec fn default_first(o: RawPackOption) -> Option<TomlScalar> {
    match o.default {
        Some(d) => first_item(d),
        None => None,
    }
}

fn default_first_exec(o: &RawPackOption) -> (r: Option<&TomlScalar>)
    ensures
        match r {
            Some(s) => default_first(*o) == Some(*s),
            None => default_first(*o) is None,
        },
{
    match &o.default {
        None => None,
        Some(TomlValue::Scalar(s)) => Some(s),
        Some(TomlValue::Array(items)) => {
            if items.len() > 0 {
                Some(&items[0])
            } else {
                None
            }
        },
    }
}

/// The default of a bool option: the first item of `Default` when it is a bool.
pub open spec fn default_bool_spec(o: RawPackOption) -> Option<bool> {
    match default_first(o) {
        Some(TomlScalar::Bool(b)) => Some(b),
        _ => None,
    }
}

/// The default of an int option: the first item of `Default` when it is an integer.
pub open spec fn default_int_spec(o: RawPackOption) -> Option<i64> {
    match default_first(o) {
        Some(TomlScalar::Integer(i)) => Some(i),
        _ => None,
    }
}

/// The default index of an enum option: an integer default (negative counts as
/// 0), or the first position of a string default among `Values`.
pub open spec fn default_enum_index_spec(o: RawPackOption) -> Option<usize> {
    match default_first(o) {
        Some(TomlScalar::Integer(i)) => Some((if i < 0 { 0 } else { i }) as usize),
        Some(TomlScalar::Text(t)) => match value_position(o.values@, t@) {
            Some(k) => Some(k as usize),
            None => None,
        },
        _ => None,
    }
}

/// `option_default_bool`.
pub fn option_default_bool(option: &RawPackOption) -> (r: Option<bool>)
    ensures
        r == default_bool_spec(*option),
{
    match default_first_exec(option) {
        Some(TomlScalar::Bool(b)) => Some(*b),
        _ => None,
    }
}

/// `option_default_int`.
pub fn option_default_int(option: &RawPackOption) -> (r: Option<i64>)
    ensures
        r == default_int_spec(*option),
{
    match default_first_exec(option) {
        Some(TomlScalar::Integer(i)) => Some(*i),
        _ => None,
    }
}

/// `option_default_enum_index`.
pub fn option_default_enum_index(option: &RawPackOption) -> (r: Option<usize>)
    ensures
        r == default_enum_index_spec(*option),
{
    match default_first_exec(option) {
        Some(TomlScalar::Integer(i)) => {
            let v: i64 = if *i < 0 {
                0
            } else {
                *i
            };
            Some(v as usize)
        },
        Some(TomlScalar::Text(t)) => {
            let c = chars_of(t.as_str());
            match position_of(&option.values, &c) {
                Some(k) => Some(k),
                None => None,
            }
        },
        _ => None,
    }
}

// ----- the description file -----------------------------------------------

/// Why a pack's `DescFile` was refused.
#[derive(Debug)]
pub enum DescError {
    /// The file is not a relative path inside the pack (the trimmed entry).
    InvalidPath { file: String },
    /// The file does not end in `.html` or `.htm` (the trimmed entry).
    NotHtml { file: String },
    /// The file could not be read (the trimmed entry, the reader's message).
    Unreadable { file: String, message: String },
}

/// The last index of `c` in `s`, if any.
pub open spec fn last_index(s: Seq<char>, c: char) -> Option<int>
    decreases s.len(),
{
    if s.len() == 0 {
        None
    } else if s.last() == c {
        Some(s.len() - 1)
    } else {
        last_index(s.drop_last(), c)
    }
}

/// The last segment of a `/`-separated path.
pub open spec fn file_name_of(p: Seq<char>) -> Seq<char> {
    match last_index(p, '/') {
        Some(k) => p.skip(k + 1),
        None => p,
    }
}

/// `Path::extension` of a file name: what follows its last `.`, unless the only
/// `.` is the first character or there is none.
pub open spec fn extension_of(name: Seq<char>) -> Option<Seq<char>> {
    match last_index(name, '.') {
        Some(k) => if k == 0 {
            None
        } else {
            Some(name.skip(k + 1))
        },
        None => None,
    }
}

pub open spec fn word_html() -> Seq<char> {
    seq!['h', 't', 'm', 'l']
}

pub open spec fn word_htm() -> Seq<char> {
    seq!['h', 't', 'm']
}

/// Where a pack's description page lies, relative to the pack: none for a blank
/// `DescFile`; the entry must be a safe relative path ending in `.html` or `.htm`
/// (any case).
pub open spec fn desc_location(desc_file: Seq<char>, style: PathStyle) -> Result<
    Option<Seq<char>>,
    DescFault,
> {
    let file = trim(desc_file);
    if file.len() == 0 {
        Ok(None)
    } else {
        match safe_relative(file, style) {
            None => Err(DescFault::InvalidPath(file)),
            Some(rel) => match extension_of(file_name_of(rel)) {
                Some(ext) => if eq_ignore_case(ext, word_html()) || eq_ignore_case(
                    ext,
                    word_htm(),
                ) {
                    Ok(Some(rel))
                } else {
                    Err(DescFault::NotHtml(file))
                },
                None => Err(DescFault::NotHtml(file)),
            },
        }
    }
}

/// The mathematical value of a `DescError`.
pub enum DescFault {
    InvalidPath(Seq<char>),
    NotHtml(Seq<char>),
    Unreadable(Seq<char>, Seq<char>),
}

impl View for DescError {
    type V = DescFault;

    open spec fn view(&self) -> DescFault {
        match self {
            DescError::InvalidPath { file } => DescFault::InvalidPath(file@),
            DescError::NotHtml { file } => DescFault::NotHtml(file@),
            DescError::Unreadable { file, message } => DescFault::Unreadable(file@, message@),
        }
    }
}

fn last_index_exec(s: &Vec<char>, c: char) -> (r: Option<usize>)
    ensures
        match r {
            Some(k) => last_index(s@, c) == Some(k as int) && k < s.len(),
            None => last_index(s@, c) is None,
        },
{
    let mut j: usize = s.len();
    assert(s@.take(s.len() as int) =~= s@);
    while j > 0
        invariant
            j <= s.len(),
            last_index(s@, c) == last_index(s@.take(j as int), c),
        decreases j,
    {
        assert(s@.take(j as int).drop_last() =~= s@.take(j - 1));
        if s[j - 1] == c {
            return Some(j - 1);
        }
        j = j - 1;
    }
    None
}

/// Checks a pack's `DescFile` entry and gives the page's path relative to the
/// pack (the caller reads the file).
pub fn desc_file_location(desc_file: &str, style: PathStyle) -> (r: Result<Option<String>, DescError>)
    ensures
        match r {
            Ok(Some(p)) => desc_location(desc_file@, style) == Ok::<
                Option<Seq<char>>,
                DescFault,
            >(Some(p@)),
            Ok(None) => desc_location(desc_file@, style) == Ok::<Option<Seq<char>>, DescFault>(None),
            Err(e) => desc_location(desc_file@, style) == Err::<Option<Seq<char>>, DescFault>(e@),
        },
{
    let raw = chars_of(desc_file);
    let file_chars = trim_chars(&raw);
    if file_chars.len() == 0 {
        return Ok(None);
    }
    let file = string_of(file_chars.as_slice());
    let rel = match safe_relative_path(file.as_str(), style) {
        Ok(p) => p,
        Err(_) => {
            return Err(DescError::InvalidPath { file });
        },
    };
    let rel_chars = chars_of(rel.as_str());
    let name = match last_index_exec(&rel_chars, '/') {
        Some(k) => slice_chars(&rel_chars, k + 1, rel_chars.len()),
        None => slice_chars(&rel_chars, 0, rel_chars.len()),
    };
    assert(name@ == file_name_of(rel@)) by {
        assert(rel_chars@.subrange(0, rel_chars@.len() as int) =~= rel_chars@);
    }
    let ext = match last_index_exec(&name, '.') {
        Some(k) => if k == 0 {
            None
        } else {
            Some(slice_chars(&name, k + 1, name.len()))
        },
        None => None,
    };
    match ext {
        Some(e) => {
            let html = vec!['h', 't', 'm', 'l'];
            let htm = vec!['h', 't', 'm'];
            assert(html@ == word_html());
            assert(htm@ == word_htm());
            if chars_eq_ignore_case(&e, &html) || chars_eq_ignore_case(&e, &htm) {
                Ok(Some(rel))
            } else {
                Err(DescError::NotHtml { file })
            }
        },
        None => Err(DescError::NotHtml { file }),
    }
}

// ----- dependency names ---------------------------------------------------

/// The first pack of the repository, from index `i` on, whose id or name equals
/// `name` up to ASCII case.
pub open spec fn repository_match(repo: Seq<(String, String)>, name: Seq<char>, i: nat) -> Option<
    int,
>
    decreases repo.len() - i,
{
    if i >= repo.len() {
        None
    } else if eq_ignore_case(repo[i as int].0@, name) || eq_ignore_case(repo[i as int].1@, name) {
        Some(i as int)
    } else {
        repository_match(repo, name, i + 1)
    }
}

/// How a required pack is shown: the name of the first repository pack whose id
/// or name matches the trimmed requirement, else the trimmed requirement.
pub open spec fn dependency_name(repo: Seq<(String, String)>, requirement: Seq<char>) -> Seq<char> {
    let name = trim(requirement);
    match repository_match(repo, name, 0) {
        Some(k) => repo[k].1@,
        None => name,
    }
}

/// The names under which required packs are shown (`dependency_display_names`),
/// given the `(Id, Name)` of each pack in the local repository, in directory order.
pub fn dependency_display_names(requirements: &Vec<String>, repository: &Vec<(String, String)>) -> (r:
    Vec<String>)
    ensures
        r@.len() == requirements@.len(),
        forall|k: int|
            0 <= k < r@.len() ==> (#[trigger] r@[k])@ == dependency_name(
                repository@,
                requirements@[k]@,
            ),
{
    let mut out: Vec<String> = Vec::new();
    let mut i: usize = 0;
    while i < requirements.len()
        invariant
            i <= requirements.len(),
            out@.len() == i,
            forall|k: int|
                0 <= k < i ==> (#[trigger] out@[k])@ == dependency_name(
                    repository@,
                    requirements@[k]@,
                ),
        decreases requirements.len() - i,
    {
        let raw = chars_of(requirements[i].as_str());
        let name = trim_chars(&raw);
        let mut j: usize = 0;
        let mut found: Option<usize> = None;
        while j < repository.len()
            invariant_except_break
                j <= repository.len(),
                found is None,
                repository_match(repository@, name@, 0) == repository_match(
                    repository@,
                    name@,
                    j as nat,
                ),
            ensures
                match found {
                    Some(k) => repository_match(repository@, name@, 0) == Some(k as int) && k
                        < repository@.len(),
                    None => repository_match(repository@, name@, 0) is None,
                },
            decreases repository.len() - j,
        {
            let id = chars_of(repository[j].0.as_str());
            let nm = chars_of(repository[j].1.as_str());
            if chars_eq_ignore_case(&id, &name) || chars_eq_ignore_case(&nm, &name) {
                found = Some(j);
                break;
            }
            j = j + 1;
        }
        let shown = match found {
            Some(k) => repository[k].1.clone(),
            None => string_of(name.as_slice()),
        };
        out.push(shown);
        i = i + 1;
    }
    out
}

// ----- the pack definition shown to the user ------------------------------

/// One option as shown to the user.
#[derive(Debug)]
pub struct PackOptionDefinition {
    pub name: String,
    pub tag: String,
    pub ui_name: String,
    pub desc: String,
    pub option_type: String,
    pub placeholder: String,
    pub default_bool: Option<bool>,
    pub default_int: Option<i64>,
    pub min: Option<i64>,
    pub max: Option<i64>,
    pub enum_items: Vec<String>,
    pub default_enum_index: Option<usize>,
}

/// The mathematical value of a `PackOptionDefinition`.
pub struct OptionDefView {
    pub name: Seq<char>,
    pub tag: Seq<char>,
    pub ui_name: Seq<char>,
    pub desc: Seq<char>,
    pub option_type: Seq<char>,
    pub placeholder: Seq<char>,
    pub default_bool: Option<bool>,
    pub default_int: Option<i64>,
    pub min: Option<i64>,
    pub max: Option<i64>,
    pub enum_items: Seq<Seq<char>>,
    pub default_enum_index: Option<usize>,
}

impl View for PackOptionDefinition {
    type V = OptionDefView;

    open spec fn view(&self) -> OptionDefView {
        OptionDefView {
            name: self.name@,
            tag: self.tag@,
            ui_name: self.ui_name@,
            desc: self.desc@,
            option_type: self.option_type@,
            placeholder: self.placeholder@,
            default_bool: self.default_bool,
            default_int: self.default_int,
            min: self.min,
            max: self.max,
            enum_items: strs(self.enum_items@),
            default_enum_index: self.default_enum_index,
        }
    }
}

pub open spec fn def_views(v: Seq<PackOptionDefinition>) -> Seq<OptionDefView> {
    v.map_values(|d: PackOptionDefinition| d@)
}

/// One option group as shown to the user.
#[derive(Debug)]
pub struct PackOptionGroupDefinition {
    pub tag: String,
    pub name: String,
    pub desc: String,
    pub options: Vec<PackOptionDefinition>,
}

/// The requirements of a pack as shown to the user.
#[derive(Debug)]
pub struct PackRequirementDefinition {
    pub files: Vec<String>,
    pub pack: Vec<String>,
    pub min_version: Option<String>,
}

/// A pack as shown to the user.
#[derive(Debug)]
pub struct PackDefinition {
    pub pack_path: String,
    pub name: String,
    pub desc: String,
    pub author: String,
    pub author_url: String,
    pub desc_detail: String,
    pub desc_html: Option<String>,
    pub tag: String,
    pub dir: String,
    pub config_id: String,
    pub version: i64,
    pub requirements: PackRequirementDefinition,
    pub dependency_names: Vec<String>,
    pub options: Vec<PackOptionDefinition>,
    pub option_groups: Vec<PackOptionGroupDefinition>,
}

/// Why a pack's definition could not be built.
#[derive(Debug)]
pub enum DefinitionError {
    /// A control option is neither `bool` nor `enum` (the option's name).
    ControlType { name: String },
    /// An `enum` option has no `Values` (the option's name).
    EnumWithoutValues { name: String },
    /// A non-control `enum` option has no placeholders (the option's name).
    MissingPlaceholders { name: String },
    /// The per-placeholder results of an `enum` option are refused (its name, why).
    EnumSet { name: String, error: EnumSetError },
    /// The description page is refused or unreadable.
    Desc(DescError),
}

/// The mathematical value of a `DefinitionError`.
pub enum DefFault {
    ControlType(Seq<char>),
    EnumWithoutValues(Seq<char>),
    MissingPlaceholders(Seq<char>),
    EnumSet(Seq<char>, EnumSetError),
    Desc(DescFault),
}

impl View for DefinitionError {
    type V = DefFault;

    open spec fn view(&self) -> DefFault {
        match self {
            DefinitionError::ControlType { name } => DefFault::ControlType(name@),
            DefinitionError::EnumWithoutValues { name } => DefFault::EnumWithoutValues(name@),
            DefinitionError::MissingPlaceholders { name } => DefFault::MissingPlaceholders(name@),
            DefinitionError::EnumSet { name, error } => DefFault::EnumSet(name@, *error),
            DefinitionError::Desc(e) => DefFault::Desc(e@),
        }
    }
}

/// How an option is shown, or why it is refused: its type is lower-cased; a
/// control option must be `bool` or `enum`; an `enum` option needs `Values`, and
/// when it is not a control option, placeholders and valid per-placeholder
/// results; a blank description shows the name.
pub open spec fn option_definition(o: RawPackOption) -> Result<OptionDefView, DefFault> {
    let ty = unicode_lowercase(o.option_type@);
    let is_enum = ty == type_enum();
    let count = list_values(strs(o.placeholders@)).len();
    if o.control && ty != type_bool() && !is_enum {
        Err(DefFault::ControlType(o.name@))
    } else if is_enum && o.values@.len() == 0 {
        Err(DefFault::EnumWithoutValues(o.name@))
    } else if is_enum && !o.control && count == 0 {
        Err(DefFault::MissingPlaceholders(o.name@))
    } else if is_enum && !o.control && enum_sets_spec(o, count) is Err {
        Err(DefFault::EnumSet(o.name@, enum_sets_spec(o, count)->Err_0))
    } else {
        Ok(
            OptionDefView {
                name: o.name@,
                tag: o.tag@,
                ui_name: o.ui_name@,
                desc: if trim(o.desc@).len() == 0 {
                    o.name@
                } else {
                    o.desc@
                },
                option_type: ty,
                placeholder: if o.placeholders@.len() > 0 {
                    o.placeholders@[0]@
                } else {
                    Seq::empty()
                },
                default_bool: default_bool_spec(o),
                default_int: default_int_spec(o),
                min: o.min,
                max: o.max,
                enum_items: if is_enum {
                    strs(o.values@)
                } else {
                    Seq::empty()
                },
                default_enum_index: default_enum_index_spec(o),
            },
        )
    }
}

/// The definitions of the first `i` options, or the first refusal.
pub open spec fn definitions_upto(opts: Seq<RawPackOption>, i: nat) -> Result<
    Seq<OptionDefView>,
    DefFault,
>
    decreases i,
{
    if i == 0 {
        Ok(Seq::empty())
    } else {
        match definitions_upto(opts, (i - 1) as nat) {
            Err(e) => Err(e),
            Ok(acc) => match option_definition(opts[i - 1]) {
                Err(e) => Err(e),
                Ok(d) => Ok(acc.push(d)),
            },
        }
    }
}

proof fn lemma_definitions_err(opts: Seq<RawPackOption>, i: nat, j: nat)
    requires
        i <= j,
        definitions_upto(opts, i) is Err,
    ensures
        definitions_upto(opts, j) == definitions_upto(opts, i),
    decreases j,
{
    if j > i {
        lemma_definitions_err(opts, i, (j - 1) as nat);
    }
}

fn copy_definition(d: &PackOptionDefinition) -> (r: PackOptionDefinition)
    ensures
        r@ == d@,
{
    PackOptionDefinition {
        name: d.name.clone(),
        tag: d.tag.clone(),
        ui_name: d.ui_name.clone(),
        desc: d.desc.clone(),
        option_type: d.option_type.clone(),
        placeholder: d.placeholder.clone(),
        default_bool: d.default_bool,
        default_int: d.default_int,
        min: d.min,
        max: d.max,
        enum_items: copy_strings(&d.enum_items),
        default_enum_index: d.default_enum_index,
    }
}

/// How one option is shown (the per-option part of `build_pack_definition`).
pub fn option_definition_of(option: &RawPackOption) -> (r: Result<
    PackOptionDefinition,
    DefinitionError,
>)
    ensures
        match r {
            Ok(d) => option_definition(*option) == Ok::<OptionDefView, DefFault>(d@),
            Err(e) => option_definition(*option) == Err::<OptionDefView, DefFault>(e@),
        },
{
    let ty_chars = lowercase_chars(&chars_of(option.option_type.as_str()));
    let bool_word = vec!['b', 'o', 'o', 'l'];
    let enum_word = vec!['e', 'n', 'u', 'm'];
    assert(bool_word@ == type_bool());
    assert(enum_word@ == type_enum());
    let is_bool = chars_eq(&ty_chars, &bool_word);
    let is_enum = chars_eq(&ty_chars, &enum_word);
    if option.control && !is_bool && !is_enum {
        return Err(DefinitionError::ControlType { name: option.name.clone() });
    }
    let desc_chars = chars_of(option.desc.as_str());
    let desc_trim = trim_chars(&desc_chars);
    let desc = if desc_trim.len() == 0 {
        option.name.clone()
    } else {
        option.desc.clone()
    };
    let default_bool = option_default_bool(option);
    let default_int = option_default_int(option);
    let default_enum_index = option_default_enum_index(option);
    let enum_items = if is_enum {
        if option.values.len() == 0 {
            return Err(DefinitionError::EnumWithoutValues { name: option.name.clone() });
        }
        if !option.control {
            let placeholders = option_placeholders(option);
            let count = placeholders.len();
            if count == 0 {
                return Err(DefinitionError::MissingPlaceholders { name: option.name.clone() });
            }
            match enum_option_sets(option, count) {
                Err(e) => {
                    return Err(DefinitionError::EnumSet { name: option.name.clone(), error: e });
                },
                Ok(_) => {},
            }
        }
        copy_strings(&option.values)
    } else {
        Vec::new()
    };
    let placeholder = if option.placeholders.len() > 0 {
        option.placeholders[0].clone()
    } else {
        String::new()
    };
    let d = PackOptionDefinition {
        name: option.name.clone(),
        tag: option.tag.clone(),
        ui_name: option.ui_name.clone(),
        desc,
        option_type: string_of(ty_chars.as_slice()),
        placeholder,
        default_bool,
        default_int,
        min: option.min,
        max: option.max,
        enum_items,
        default_enum_index,
    };
    assert(strs(d.enum_items@) =~= (if is_enum { strs(option.values@) } else { Seq::empty() }));
    Ok(d)
}

/// The mathematical value of a `PackOptionGroupDefinition`.
pub struct GroupDefView {
    pub tag: Seq<char>,
    pub name: Seq<char>,
    pub desc: Seq<char>,
    pub options: Seq<OptionDefView>,
}

impl View for PackOptionGroupDefinition {
    type V = GroupDefView;

    open spec fn view(&self) -> GroupDefView {
        GroupDefView {
            tag: self.tag@,
            name: self.name@,
            desc: self.desc@,
            options: def_views(self.options@),
        }
    }
}

/// How a group is shown: a blank name shows the tag; it lists, in order, the
/// shown options that carry its tag.
pub open spec fn group_definition(g: RawPackOptionGroup, defs: Seq<OptionDefView>) -> GroupDefView {
    GroupDefView {
        tag: g.tag@,
        name: if trim(g.name@).len() == 0 {
            g.tag@
        } else {
            g.name@
        },
        desc: g.desc@,
        options: defs.filter(|d: OptionDefView| d.tag == g.tag@),
    }
}

pub open spec fn opt_str(o: Option<String>) -> Option<Seq<char>> {
    match o {
        Some(s) => Some(s@),
        None => None,
    }
}

/// `MinVersion` trimmed, and dropped when blank.
pub open spec fn min_version_shown(m: Option<String>) -> Option<Seq<char>> {
    match m {
        Some(s) => if trim(s@).len() > 0 {
            Some(trim(s@))
        } else {
            None
        },
        None => None,
    }
}

/// Everything `build_pack_definition` shows of a pack once its options passed.
pub open spec fn definition_matches(
    pack_path: Seq<char>,
    c: RawPackConfig,
    desc_html: Option<String>,
    repo: Seq<(String, String)>,
    style: PathStyle,
    d: PackDefinition,
) -> bool {
    &&& definitions_upto(c.options@, c.options@.len()) == Ok::<Seq<OptionDefView>, DefFault>(
        def_views(d.options@),
    )
    &&& opt_str(d.desc_html) == opt_str(desc_html)
    &&& d.pack_path@ == display_path(pack_path, style)
    &&& d.name@ == c.config.name@
    &&& d.desc@ == c.config.desc@
    &&& d.author@ == c.config.author@
    &&& d.author_url@ == c.config.author_url@
    &&& d.desc_detail@ == c.config.desc_detail@
    &&& d.tag@ == c.config.tag@
    &&& d.dir@ == c.config.dir@
    &&& d.config_id@ == trim(c.config.id@)
    &&& d.version == c.config.version
    &&& strs(d.requirements.files@) == trimmed_nonempty(strs(c.requirements.files@))
    &&& strs(d.requirements.pack@) == trimmed_nonempty(strs(c.requirements.pack@))
    &&& opt_str(d.requirements.min_version) == min_version_shown(c.requirements.min_version)
    &&& d.dependency_names@.len() == c.requirements.pack@.len()
    &&& forall|k: int|
        0 <= k < d.dependency_names@.len() ==> (#[trigger] d.dependency_names@[k])@
            == dependency_name(repo, c.requirements.pack@[k]@)
    &&& d.option_groups@.len() == c.option_groups@.len()
    &&& forall|k: int|
        0 <= k < d.option_groups@.len() ==> (#[trigger] d.option_groups@[k])@ == group_definition(
            c.option_groups@[k],
            def_views(d.options@),
        )
}

fn trimmed_entries(v: &Vec<String>) -> (r: Vec<String>)
    ensures
        strs(r@) == trimmed_nonempty(strs(v@)),
{
    let ghost sv = strs(v@);
    let mut out: Vec<String> = Vec::new();
    let mut i: usize = 0;
    assert(sv.take(0) =~= Seq::<Seq<char>>::empty());
    while i < v.len()
        invariant
            i <= v.len(),
            sv == strs(v@),
            strs(out@) == trimmed_nonempty(sv.take(i as int)),
        decreases v.len() - i,
    {
        assert(sv.take(i + 1).drop_last() =~= sv.take(i as int));
        assert(sv.take(i + 1).last() == v@[i as int]@);
        let c = chars_of(v[i].as_str());
        let t = trim_chars(&c);
        if t.len() > 0 {
            let ghost before = strs(out@);
            out.push(string_of(t.as_slice()));
            assert(strs(out@) =~= before.push(t@));
        }
        i = i + 1;
    }
    assert(sv.take(v.len() as int) =~= sv);
    out
}

fn group_definition_of(g: &RawPackOptionGroup, defs: &Vec<PackOptionDefinition>) -> (r:
    PackOptionGroupDefinition)
    ensures
        r@ == group_definition(*g, def_views(defs@)),
{
    let ghost dv = def_views(defs@);
    let ghost pred = |d: OptionDefView| d.tag == g.tag@;
    let tag = chars_of(g.tag.as_str());
    let mut picked: Vec<PackOptionDefinition> = Vec::new();
    let mut i: usize = 0;
    assert(dv.take(0) =~= Seq::<OptionDefView>::empty());
    while i < defs.len()
        invariant
            i <= defs.len(),
            dv == def_views(defs@),
            tag@ == g.tag@,
            pred == (|d: OptionDefView| d.tag == g.tag@),
            def_views(picked@) == dv.take(i as int).filter(pred),
        decreases defs.len() - i,
    {
        let ghost prev = dv.take(i as int);
        assert(dv.take(i + 1).drop_last() =~= prev);
        assert(dv.take(i + 1).last() == defs@[i as int]@);
        reveal(Seq::filter);
        let dtag = chars_of(defs[i].tag.as_str());
        if chars_eq(&dtag, &tag) {
            let ghost before = def_views(picked@);
            picked.push(copy_definition(&defs[i]));
            assert(def_views(picked@) =~= before.push(defs@[i as int]@));
        }
        i = i + 1;
    }
    assert(dv.take(defs.len() as int) =~= dv);
    assert(pred =~= (|d: OptionDefView| d.tag == g.tag@));
    let name_chars = chars_of(g.name.as_str());
    let name_trim = trim_chars(&name_chars);
    let name = if name_trim.len() == 0 {
        g.tag.clone()
    } else {
        g.name.clone()
    };
    PackOptionGroupDefinition { tag: g.tag.clone(), name, desc: g.desc.clone(), options: picked }
}

/// Builds what the user is shown of a pack (`build_pack_definition`), given the
/// pack's path, its configuration, its description page (as read by the caller
/// from `desc_file_location`) and the `(Id, Name)` of each pack in the local
/// repository. Options are checked first, in order; then the description page.
pub fn build_pack_definition(
    pack_path: &str,
    config: &RawPackConfig,
    desc_html: Result<Option<String>, DescError>,
    repository: &Vec<(String, String)>,
    style: PathStyle,
) -> (r: Result<PackDefinition, DefinitionError>)
    ensures
        match r {
            Ok(d) => desc_html matches Ok(h) && definition_matches(
                pack_path@,
                *config,
                h,
                repository@,
                style,
                d,
            ),
            Err(e) => match definitions_upto(config.options@, config.options@.len()) {
                Err(f) => e@ == f,
                Ok(_) => desc_html matches Err(x) && e@ == DefFault::Desc(x@),
            },
        },
{
    let opts = &config.options;
    let mut defs: Vec<PackOptionDefinition> = Vec::new();
    let mut i: usize = 0;
    assert(def_views(defs@) =~= Seq::<OptionDefView>::empty());
    while i < opts.len()
        invariant
            i <= opts.len(),
            opts == &config.options,
            definitions_upto(opts@, i as nat) == Ok::<Seq<OptionDefView>, DefFault>(
                def_views(defs@),
            ),
        decreases opts.len() - i,
    {
        match option_definition_of(&opts[i]) {
            Err(e) => {
                proof {
                    lemma_definitions_err(opts@, (i + 1) as nat, opts@.len());
                }
                return Err(e);
            },
            Ok(d) => {
                let ghost before = def_views(defs@);
                defs.push(d);
                assert(def_views(defs@) =~= before.push(d@));
            },
        }
        i = i + 1;
    }
    let html = match desc_html {
        Ok(h) => h,
        Err(x) => {
            return Err(DefinitionError::Desc(x));
        },
    };
    let mut groups: Vec<PackOptionGroupDefinition> = Vec::new();
    let mut k: usize = 0;
    while k < config.option_groups.len()
        invariant
            k <= config.option_groups.len(),
            groups@.len() == k,
            forall|j: int|
                0 <= j < k ==> (#[trigger] groups@[j])@ == group_definition(
                    config.option_groups@[j],
                    def_views(defs@),
                ),
        decreases config.option_groups.len() - k,
    {
        groups.push(group_definition_of(&config.option_groups[k], &defs));
        k = k + 1;
    }
    let min_version = match &config.requirements.min_version {
        Some(m) => {
            let c = chars_of(m.as_str());
            let t = trim_chars(&c);
            if t.len() > 0 {
                Some(string_of(t.as_slice()))
            } else {
                None
            }
        },
        None => None,
    };
    let id_chars = chars_of(config.config.id.as_str());
    let id_trim = trim_chars(&id_chars);
    Ok(
        PackDefinition {
            pack_path: simplify_for_display(pack_path, style),
            name: config.config.name.clone(),
            desc: config.config.desc.clone(),
            author: config.config.author.clone(),
            author_url: config.config.author_url.clone(),
            desc_detail: config.config.desc_detail.clone(),
            desc_html: html,
            tag: config.config.tag.clone(),
            dir: config.config.dir.clone(),
            config_id: string_of(id_trim.as_slice()),
            version: config.config.version,
            requirements: PackRequirementDefinition {
                files: trimmed_entries(&config.requirements.files),
                pack: trimmed_entries(&config.requirements.pack),
                min_version,
            },
            dependency_names: dependency_display_names(&config.requirements.pack, repository),
            options: defs,
            option_groups: groups,
        },
    )
}

} // verus!
