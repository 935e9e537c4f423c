use vstd::prelude::*;
use crate::model::{
    GroupView, OptionView, RawPackConfig, RawPackMeta, group_views, RawPackOption, RawPackOptionGroup, ScalarView, TomlScalar, TomlValue, TomlView,
    default_view, extra_view, option_views, strs,
};
use crate::paths::{safe_relative, safe_relative_path, PathStyle};
use crate::text::{
    chars_eq_ignore_case, chars_of, concat_chars, eq_ignore_case, string_of, trim, trim_chars,
};

verus! {

/// Why a pack configuration was refused.
#[derive(Debug)]
pub enum ConfigError {
    /// `Config.Tag` names none of the repository's tags (the trimmed tag).
    UnknownTag { tag: String },
    /// An option group table holds an `Include` key.
    GroupInclude,
    /// An option group table did not decode (the group's tag, the decoder's message).
    GroupDecode { tag: String, message: String },
    /// An option group declares no options.
    GroupWithoutOptions { tag: String },
    /// An option of a group has an empty name.
    EmptyOptionName { tag: String },
    /// An `Include` entry is not a relative path inside the pack.
    InvalidIncludePath { path: String },
    /// An included file could not be read or parsed (the reader's message).
    IncludeUnreadable { path: String, message: String },
    /// An included file does not hold exactly one top-level table.
    IncludeNotSingleGroup { path: String },
    /// Legacy `[[Options]]` are mixed with `OptionGroups`.
    MixedOptions,
    /// `OptionGroups` holds an empty or repeated tag.
    EmptyOrDuplicateGroupTag,
    /// An included group's tag is not listed in `OptionGroups`.
    IncludedGroupUndeclared { tag: String },
    /// A group is defined both in the main file and in an include.
    GroupDefinedTwice,
    /// A tag listed in `OptionGroups` has no group (the tag as listed).
    DeclaredGroupMissing { tag: String },
}

/// The mathematical value of a `ConfigError`.
pub enum ConfigFault {
    UnknownTag(Seq<char>),
    GroupInclude,
    GroupDecode(Seq<char>, Seq<char>),
    GroupWithoutOptions(Seq<char>),
    EmptyOptionName(Seq<char>),
    InvalidIncludePath(Seq<char>),
    IncludeUnreadable(Seq<char>, Seq<char>),
    IncludeNotSingleGroup(Seq<char>),
    MixedOptions,
    EmptyOrDuplicateGroupTag,
    IncludedGroupUndeclared(Seq<char>),
    GroupDefinedTwice,
    DeclaredGroupMissing(Seq<char>),
}

impl View for ConfigError {
    type V = ConfigFault;

    open spec fn view(&self) -> ConfigFault {
        match self {
            ConfigError::UnknownTag { tag } => ConfigFault::UnknownTag(tag@),
            ConfigError::GroupInclude => ConfigFault::GroupInclude,
            ConfigError::GroupDecode { tag, message } => ConfigFault::GroupDecode(tag@, message@),
            ConfigError::GroupWithoutOptions { tag } => ConfigFault::GroupWithoutOptions(tag@),
            ConfigError::EmptyOptionName { tag } => ConfigFault::EmptyOptionName(tag@),
            ConfigError::InvalidIncludePath { path } => ConfigFault::InvalidIncludePath(path@),
            ConfigError::IncludeUnreadable { path, message } => ConfigFault::IncludeUnreadable(
                path@,
                message@,
            ),
            ConfigError::IncludeNotSingleGroup { path } => ConfigFault::IncludeNotSingleGroup(path@),
            ConfigError::MixedOptions => ConfigFault::MixedOptions,
            ConfigError::EmptyOrDuplicateGroupTag => ConfigFault::EmptyOrDuplicateGroupTag,
            ConfigError::IncludedGroupUndeclared { tag } => ConfigFault::IncludedGroupUndeclared(
                tag@,
            ),
            ConfigError::GroupDefinedTwice => ConfigFault::GroupDefinedTwice,
            ConfigError::DeclaredGroupMissing { tag } => ConfigFault::DeclaredGroupMissing(tag@),
        }
    }
}

/// The view of a group result.
pub open spec fn group_res(r: Result<RawPackOptionGroup, ConfigError>) -> Result<GroupView, ConfigFault> {
    match r {
        Ok(g) => Ok(g@),
        Err(e) => Err(e@),
    }
}

/// The tags a pack may carry, in the repository's order.
pub open spec fn pack_tags() -> Seq<Seq<char>> {
    seq![
        seq!['G', 'e', 'n', 'e', 'r', 'a', 'l'],
        seq!['B', 'a', 's', 'e'],
        seq!['T', 'o', 'o', 'l', 's'],
        seq!['U', 'n', 'i', 't'],
        seq!['F', 'e', 'a', 't', 'u', 'r', 'e'],
        seq!['M', 'o', 'd', 'i', 'f', 'i', 'e', 'r'],
        seq!['M', 'a', 'j', 'o', 'r'],
    ]
}

/// The tag every pack without one gets, and the group of legacy options.
pub open spec fn general_tag() -> Seq<char> {
    pack_tags()[0]
}

/// The first tag, from index `i` on, that equals `t` up to ASCII case.
pub open spec fn tag_match_from(t: Seq<char>, i: nat) -> Option<int>
    decreases 7 - i,
{
    if i >= 7 {
        None
    } else if eq_ignore_case(pack_tags()[i as int], t) {
        Some(i as int)
    } else {
        tag_match_from(t, i + 1)
    }
}

/// The canonical spelling of a pack's tag: `General` when it is blank, the
/// repository's spelling of the tag it equals up to ASCII case, else none.
pub open spec fn normalized_tag(raw: Seq<char>) -> Option<Seq<char>> {
    let t = trim(raw);
    if t.len() == 0 {
        Some(general_tag())
    } else {
        match tag_match_from(t, 0) {
            Some(i) => Some(pack_tags()[i]),
            None => None,
        }
    }
}

fn pack_tag_chars(i: usize) -> (r: Vec<char>)
    requires
        i < 7,
    ensures
        r@ == pack_tags()[i as int],
{
    let r = if i == 0 {
        vec!['G', 'e', 'n', 'e', 'r', 'a', 'l']
    } else if i == 1 {
        vec!['B', 'a', 's', 'e']
    } else if i == 2 {
        vec!['T', 'o', 'o', 'l', 's']
    } else if i == 3 {
        vec!['U', 'n', 'i', 't']
    } else if i == 4 {
        vec!['F', 'e', 'a', 't', 'u', 'r', 'e']
    } else if i == 5 {
        vec!['M', 'o', 'd', 'i', 'f', 'i', 'e', 'r']
    } else {
        vec!['M', 'a', 'j', 'o', 'r']
    };
    assert(r@ == pack_tags()[i as int]);
    r
}

/// `General` as a `String`.
pub fn general_tag_string() -> (r: String)
    ensures
        r@ == general_tag(),
{
    let c = pack_tag_chars(0);
    string_of(c.as_slice())
}

/// The canonical tag of a pack (`normalize_pack_tag`).
pub fn normalize_pack_tag(raw: &str) -> (r: Result<String, ConfigError>)
    ensures
        match r {
            Ok(t) => normalized_tag(raw@) == Some(t@),
            Err(e) => normalized_tag(raw@) is None && (e matches ConfigError::UnknownTag { tag }
                && tag@ == trim(raw@)),
        },
{
    let chars = chars_of(raw);
    let t = trim_chars(&chars);
    if t.len() == 0 {
        return Ok(general_tag_string());
    }
    let mut i: usize = 0;
    while i < 7
        invariant
            i <= 7,
            t@ == trim(raw@),
            t@.len() > 0,
            tag_match_from(t@, 0) == tag_match_from(t@, i as nat),
        decreases 7 - i,
    {
        let candidate = pack_tag_chars(i);
        if chars_eq_ignore_case(&candidate, &t) {
            return Ok(string_of(candidate.as_slice()));
        }
        i = i + 1;
    }
    Err(ConfigError::UnknownTag { tag: string_of(t.as_slice()) })
}

// ----- copies -------------------------------------------------------------

fn copy_scalar(s: &TomlScalar) -> (r: TomlScalar)
    ensures
        r@ == s@,
{
    match s {
        TomlScalar::Bool(b) => TomlScalar::Bool(*b),
        TomlScalar::Integer(i) => TomlScalar::Integer(*i),
        TomlScalar::Text(t) => TomlScalar::Text(t.clone()),
        TomlScalar::Other => TomlScalar::Other,
    }
}

fn copy_toml(v: &TomlValue) -> (r: TomlValue)
    ensures
        r@ == v@,
{
    match v {
        TomlValue::Scalar(s) => TomlValue::Scalar(copy_scalar(s)),
        TomlValue::Array(items) => {
            let mut out: Vec<TomlScalar> = Vec::new();
            let mut i: usize = 0;
            while i < items.len()
                invariant
                    i <= items.len(),
                    out@.len() == i,
                    forall|k: int| 0 <= k < i ==> (#[trigger] out@[k])@ == items@[k]@,
                decreases items.len() - i,
            {
                out.push(copy_scalar(&items[i]));
                i = i + 1;
            }
            assert(out@.map_values(|x: TomlScalar| x@) =~= items@.map_values(|x: TomlScalar| x@));
            TomlValue::Array(out)
        },
    }
}

fn copy_default(d: &Option<TomlValue>) -> (r: Option<TomlValue>)
    ensures
        default_view(r) == default_view(*d),
{
    match d {
        Some(v) => Some(copy_toml(v)),
        None => None,
    }
}

fn copy_strings_list(v: &Vec<String>) -> (r: Vec<String>)
    ensures
        strs(r@) == strs(v@),
{
    crate::values::copy_strings(v)
}

fn copy_extra(e: &Vec<(String, TomlValue)>) -> (r: Vec<(String, TomlValue)>)
    ensures
        extra_view(r@) == extra_view(e@),
{
    let mut out: Vec<(String, TomlValue)> = Vec::new();
    let mut i: usize = 0;
    while i < e.len()
        invariant
            i <= e.len(),
            out@.len() == i,
            forall|k: int|
                0 <= k < i ==> (#[trigger] out@[k]).0@ == e@[k].0@ && out@[k].1@ == e@[k].1@,
        decreases e.len() - i,
    {
        let k = e[i].0.clone();
        let v = copy_toml(&e[i].1);
        out.push((k, v));
        i = i + 1;
    }
    assert(extra_view(out@) =~= extra_view(e@));
    out
}

/// A copy of an option, field by field.
pub fn copy_option(o: &RawPackOption) -> (r: RawPackOption)
    ensures
        r@ == o@,
{
    RawPackOption {
        name: o.name.clone(),
        desc: o.desc.clone(),
        ui_name: o.ui_name.clone(),
        option_type: o.option_type.clone(),
        control: o.control,
        placeholders: copy_strings_list(&o.placeholders),
        true_results: copy_strings_list(&o.true_results),
        false_results: copy_strings_list(&o.false_results),
        min: o.min,
        max: o.max,
        value_outputs: copy_strings_list(&o.value_outputs),
        values: copy_strings_list(&o.values),
        results: copy_strings_list(&o.results),
        default: copy_default(&o.default),
        extra: copy_extra(&o.extra),
        tag: o.tag.clone(),
    }
}

/// A copy of a list of options.
pub fn copy_options(v: &Vec<RawPackOption>) -> (r: Vec<RawPackOption>)
    ensures
        option_views(r@) == option_views(v@),
{
    let mut out: Vec<RawPackOption> = Vec::new();
    let mut i: usize = 0;
    while i < v.len()
        invariant
            i <= v.len(),
            out@.len() == i,
            forall|k: int| 0 <= k < i ==> (#[trigger] out@[k])@ == v@[k]@,
        decreases v.len() - i,
    {
        out.push(copy_option(&v[i]));
        i = i + 1;
    }
    assert(option_views(out@) =~= option_views(v@));
    out
}

// ----- option groups ------------------------------------------------------

/// What the logic reads of one option-group table: whether it holds an
/// `Include` key, and the group decoded from it (or the decoder's message).
#[derive(Debug)]
pub struct GroupInput {
    pub has_include_key: bool,
    pub decoded: Result<RawPackOptionGroup, String>,
}

/// An option as it stands in group `tag`: its name becomes `tag.name` (the name
/// trimmed) and its tag becomes `tag`; every other field is kept.
pub open spec fn grouped_option(o: OptionView, tag: Seq<char>) -> OptionView {
    OptionView { name: tag + seq!['.'] + trim(o.name), tag: tag, ..o }
}

/// The views of a list of options once placed in group `tag`.
pub open spec fn grouped_options(v: Seq<OptionView>, tag: Seq<char>) -> Seq<OptionView> {
    v.map_values(|o: OptionView| grouped_option(o, tag))
}

/// Does some option of `v` have a blank name?
pub open spec fn has_blank_name(v: Seq<OptionView>) -> bool {
    exists|k: int| 0 <= k < v.len() && trim(#[trigger] v[k].name).len() == 0
}

/// The result of `parse_option_group` on a decoded group, when it succeeds.
pub open spec fn group_ok(d: RawPackOptionGroup, tag: Seq<char>, g: RawPackOptionGroup) -> bool {
    &&& g.name@ == d.name@
    &&& g.desc@ == d.desc@
    &&& g.tag@ == tag
    &&& option_views(g.options@) == grouped_options(option_views(d.options@), tag)
}

/// What `parse_option_group` gives for a group table under `tag`.
pub open spec fn group_result(tag: Seq<char>, input: GroupInput) -> Result<GroupView, ConfigFault> {
    if input.has_include_key {
        Err(ConfigFault::GroupInclude)
    } else {
        match input.decoded {
            Err(m) => Err(ConfigFault::GroupDecode(tag, m@)),
            Ok(d) => if d.options@.len() == 0 {
                Err(ConfigFault::GroupWithoutOptions(tag))
            } else if has_blank_name(option_views(d.options@)) {
                Err(ConfigFault::EmptyOptionName(tag))
            } else {
                Ok(
                    GroupView {
                        name: d.name@,
                        desc: d.desc@,
                        options: grouped_options(option_views(d.options@), tag),
                        tag: tag,
                    },
                )
            },
        }
    }
}

/// Does `parse_option_group` accept this input?
pub open spec fn group_accepted(input: GroupInput) -> bool {
    &&& !input.has_include_key
    &&& input.decoded is Ok
    &&& input.decoded->Ok_0.options@.len() > 0
    &&& !has_blank_name(option_views(input.decoded->Ok_0.options@))
}

/// Checks one option group and places its options in it (`parse_option_group`):
/// the table may not hold `Include`, must decode, must declare options, and no
/// option may have a blank name; each option is then renamed `tag.name` and
/// tagged `tag`.
pub fn parse_option_group(tag: &str, input: &GroupInput) -> (r: Result<RawPackOptionGroup, ConfigError>)
    ensures
        group_res(r) == group_result(tag@, *input),
        r is Ok <==> group_accepted(*input),
        r matches Ok(g) ==> group_ok(input.decoded->Ok_0, tag@, g),
        input.has_include_key ==> r matches Err(ConfigError::GroupInclude),
        !input.has_include_key && input.decoded is Err ==> (r matches Err(
            ConfigError::GroupDecode { tag: t, message },
        ) && t@ == tag@ && message@ == input.decoded->Err_0@),
        !input.has_include_key && input.decoded is Ok && input.decoded->Ok_0.options@.len() == 0
            ==> (r matches Err(ConfigError::GroupWithoutOptions { tag: t }) && t@ == tag@),
        !input.has_include_key && input.decoded is Ok && input.decoded->Ok_0.options@.len() > 0
            && has_blank_name(option_views(input.decoded->Ok_0.options@)) ==> (r matches Err(
            ConfigError::EmptyOptionName { tag: t },
        ) && t@ == tag@),
{
    let ghost inp = *input;
    let tag_chars = chars_of(tag);
    if input.has_include_key {
        return Err(ConfigError::GroupInclude);
    }
    let group = match &input.decoded {
        Ok(g) => g,
        Err(message) => {
            return Err(
                ConfigError::GroupDecode {
                    tag: string_of(tag_chars.as_slice()),
                    message: message.clone(),
                },
            );
        },
    };
    if group.options.len() == 0 {
        return Err(ConfigError::GroupWithoutOptions { tag: string_of(tag_chars.as_slice()) });
    }
    let options = copy_options(&group.options);
    let name = group.name.clone();
    let desc = group.desc.clone();
    let ghost orig = options@;
    let ghost views = option_views(orig);
    assert(views == option_views(group.options@));
    let mut rest = options;
    let mut out: Vec<RawPackOption> = Vec::new();
    let n = rest.len();
    let dot = vec!['.'];
    let prefix = concat_chars(&tag_chars, &dot);
    while rest.len() > 0
        invariant
            n == orig.len(),
            inp == *input,
            !inp.has_include_key,
            inp.decoded is Ok,
            option_views(inp.decoded->Ok_0.options@) == views,
            orig.len() > 0,
            rest@ == orig.subrange(n - rest.len(), n as int),
            out@.len() == n - rest.len(),
            views == option_views(orig),
            prefix@ == tag@ + seq!['.'],
            tag_chars@ == tag@,
            forall|k: int|
                0 <= k < out@.len() ==> (#[trigger] out@[k])@ == grouped_option(views[k], tag@),
            forall|k: int| 0 <= k < out@.len() ==> trim(#[trigger] views[k].name).len() > 0,
        decreases rest.len(),
    {
        let ghost i = n - rest.len();
        let mut o = rest.remove(0);
        assert(o == orig[i]);
        assert(views[i] == o@);
        let name_chars = chars_of(o.name.as_str());
        let trimmed = trim_chars(&name_chars);
        if trimmed.len() == 0 {
            assert(trim(views[i].name).len() == 0);
            assert(has_blank_name(views));
            return Err(ConfigError::EmptyOptionName { tag: string_of(tag_chars.as_slice()) });
        }
        let full = concat_chars(&prefix, &trimmed);
        let ghost before = o@;
        o.name = string_of(full.as_slice());
        o.tag = string_of(tag_chars.as_slice());
        assert(o@ == grouped_option(before, tag@));
        out.push(o);
        assert(rest@ =~= orig.subrange(n - rest.len(), n as int));
    }
    proof {
        assert(option_views(out@) =~= grouped_options(views, tag@));
        assert(!has_blank_name(views)) by {
            if has_blank_name(views) {
                let k = choose|k: int| 0 <= k < views.len() && trim(#[trigger] views[k].name).len() == 0;
                assert(trim(views[k].name).len() > 0);
            }
        }
    }
    assert(name@ == inp.decoded->Ok_0.name@);
    Ok(RawPackOptionGroup { name, desc, options: out, tag: string_of(tag_chars.as_slice()) })
}

// ----- included groups ----------------------------------------------------

/// The top-level entries of a parsed TOML document, each read as an option group.
pub type GroupTable = Vec<(String, GroupInput)>;

/// What loading one `Include` entry gives: the entry must be a relative path
/// inside the pack, the file must have been read and parsed, and it must hold
/// exactly one top-level table, which is then read as an option group.
pub open spec fn include_result(
    entry: Seq<char>,
    doc: Result<GroupTable, String>,
    style: PathStyle,
) -> Result<
    GroupView,
    ConfigFault,
> {
    if safe_relative(entry, style) is None {
        Err(ConfigFault::InvalidIncludePath(entry))
    } else {
        match doc {
            Err(m) => Err(ConfigFault::IncludeUnreadable(entry, m@)),
            Ok(t) => if t@.len() != 1 {
                Err(ConfigFault::IncludeNotSingleGroup(entry))
            } else {
                group_result(t@[0].0@, t@[0].1)
            },
        }
    }
}

/// Loads the option group of one `Include` entry (`load_included_option_group`),
/// given the entry and the parsed file, or the reader's message where the file
/// could not be read or parsed.
pub fn load_included_option_group(
    entry: &str,
    document: &Result<GroupTable, String>,
    style: PathStyle,
) -> (r: Result<
    RawPackOptionGroup,
    ConfigError,
>)
    ensures
        group_res(r) == include_result(entry@, *document, style),
{
    let entry_chars = chars_of(entry);
    match safe_relative_path(entry, style) {
        Err(_) => {
            return Err(ConfigError::InvalidIncludePath { path: string_of(entry_chars.as_slice()) });
        },
        Ok(_) => {},
    }
    match document {
        Err(m) => Err(
            ConfigError::IncludeUnreadable {
                path: string_of(entry_chars.as_slice()),
                message: m.clone(),
            },
        ),
        Ok(table) => {
            if table.len() != 1 {
                return Err(
                    ConfigError::IncludeNotSingleGroup { path: string_of(entry_chars.as_slice()) },
                );
            }
            parse_option_group(table[0].0.as_str(), &table[0].1)
        },
    }
}

// ----- assembling a configuration -----------------------------------------

/// The first group of `g`, from index `i` on, whose tag is `t`.
pub open spec fn group_position(g: Seq<GroupView>, t: Seq<char>, i: nat) -> Option<int>
    decreases g.len() - i,
{
    if i >= g.len() {
        None
    } else if g[i as int].tag == t {
        Some(i as int)
    } else {
        group_position(g, t, i + 1)
    }
}

/// The first entry of a document, from index `i` on, whose key is `t`.
pub open spec fn entry_position(root: Seq<(String, GroupInput)>, t: Seq<char>, i: nat) -> Option<int>
    decreases root.len() - i,
{
    if i >= root.len() {
        None
    } else if root[i as int].0@ == t {
        Some(i as int)
    } else {
        entry_position(root, t, i + 1)
    }
}

/// The groups defined in the main file for the first `i` declared tags: each
/// trimmed tag must be non-blank and not yet defined; where the main file has a
/// table under it, that table is read as a group.
pub open spec fn root_stage(tags: Seq<Seq<char>>, root: Seq<(String, GroupInput)>, i: nat) -> Result<
    Seq<GroupView>,
    ConfigFault,
>
    decreases i,
{
    if i == 0 {
        Ok(Seq::empty())
    } else {
        match root_stage(tags, root, (i - 1) as nat) {
            Err(e) => Err(e),
            Ok(acc) => {
                let t = trim(tags[i - 1]);
                if t.len() == 0 || group_position(acc, t, 0) is Some {
                    Err(ConfigFault::EmptyOrDuplicateGroupTag)
                } else {
                    match entry_position(root, t, 0) {
                        None => Ok(acc),
                        Some(j) => match group_result(t, root[j].1) {
                            Err(e) => Err(e),
                            Ok(g) => Ok(acc.push(g)),
                        },
                    }
                }
            },
        }
    }
}

/// The groups once the first `i` `Include` entries are loaded on top of `base`:
/// an included group's tag must be declared exactly as written, and no group
/// may be defined twice.
pub open spec fn include_stage(
    tags: Seq<Seq<char>>,
    entries: Seq<Seq<char>>,
    docs: Seq<Result<GroupTable, String>>,
    base: Seq<GroupView>,
    style: PathStyle,
    i: nat,
) -> Result<Seq<GroupView>, ConfigFault>
    decreases i,
{
    if i == 0 {
        Ok(base)
    } else {
        match include_stage(tags, entries, docs, base, style, (i - 1) as nat) {
            Err(e) => Err(e),
            Ok(acc) => match include_result(entries[i - 1], docs[i - 1], style) {
                Err(e) => Err(e),
                Ok(g) => if !tags.contains(g.tag) {
                    Err(ConfigFault::IncludedGroupUndeclared(g.tag))
                } else if group_position(acc, g.tag, 0) is Some {
                    Err(ConfigFault::GroupDefinedTwice)
                } else {
                    Ok(acc.push(g))
                },
            },
        }
    }
}

/// The groups in declared order, taking each out of `pool` by its trimmed tag,
/// and what is left of the pool.
pub open spec fn order_stage(tags: Seq<Seq<char>>, pool: Seq<GroupView>, i: nat) -> Result<
    (Seq<GroupView>, Seq<GroupView>),
    ConfigFault,
>
    decreases i,
{
    if i == 0 {
        Ok((Seq::empty(), pool))
    } else {
        match order_stage(tags, pool, (i - 1) as nat) {
            Err(e) => Err(e),
            Ok((out, rest)) => match group_position(rest, trim(tags[i - 1]), 0) {
                None => Err(ConfigFault::DeclaredGroupMissing(tags[i - 1])),
                Some(j) => Ok((out.push(rest[j]), rest.remove(j))),
            },
        }
    }
}

/// The options of all groups, group after group.
pub open spec fn flat_options(g: Seq<GroupView>) -> Seq<OptionView>
    decreases g.len(),
{
    if g.len() == 0 {
        Seq::empty()
    } else {
        flat_options(g.drop_last()) + g.last().options
    }
}

/// Legacy options, all tagged `General`.
pub open spec fn retagged(v: Seq<OptionView>) -> Seq<OptionView> {
    v.map_values(|o: OptionView| OptionView { tag: general_tag(), ..o })
}

/// The one group that holds legacy options.
pub open spec fn legacy_group(v: Seq<OptionView>) -> GroupView {
    GroupView { name: general_tag(), desc: Seq::empty(), options: retagged(v), tag: general_tag() }
}

/// The options and groups of an assembled configuration, or why it was refused
/// (`parse_pack_config_with_includes`): the tag is normalized; without
/// `OptionGroups` the legacy options form one `General` group; otherwise legacy
/// options are refused, groups come from the main file and from the `Include`
/// entries, and are then put in declared order.
pub open spec fn assembled(
    c: RawPackConfig,
    root: Seq<(String, GroupInput)>,
    docs: Seq<Result<GroupTable, String>>,
    style: PathStyle,
) -> Result<(Seq<OptionView>, Seq<GroupView>), ConfigFault> {
    let tags = strs(c.config.option_groups@);
    if normalized_tag(c.config.tag@) is None {
        Err(ConfigFault::UnknownTag(trim(c.config.tag@)))
    } else if tags.len() == 0 {
        let v = option_views(c.options@);
        Ok((retagged(v), seq![legacy_group(v)]))
    } else if c.options@.len() > 0 {
        Err(ConfigFault::MixedOptions)
    } else {
        match root_stage(tags, root, tags.len()) {
            Err(e) => Err(e),
            Ok(base) => {
                let entries = strs(c.config.includes@);
                match include_stage(tags, entries, docs, base, style, entries.len()) {
                    Err(e) => Err(e),
                    Ok(pool) => match order_stage(tags, pool, tags.len()) {
                        Err(e) => Err(e),
                        Ok((out, _)) => Ok((flat_options(out), out)),
                    },
                }
            },
        }
    }
}

/// The view of a list-of-groups result.
pub open spec fn groups_res(r: Result<Vec<RawPackOptionGroup>, ConfigError>) -> Result<
    Seq<GroupView>,
    ConfigFault,
> {
    match r {
        Ok(g) => Ok(group_views(g@)),
        Err(e) => Err(e@),
    }
}

fn find_group(pool: &Vec<RawPackOptionGroup>, t: &Vec<char>) -> (r: Option<usize>)
    ensures
        match r {
            Some(j) => group_position(group_views(pool@), t@, 0) == Some(j as int),
            None => group_position(group_views(pool@), t@, 0) is None,
        },
{
    let ghost gv = group_views(pool@);
    let mut i: usize = 0;
    while i < pool.len()
        invariant
            i <= pool.len(),
            gv == group_views(pool@),
            group_position(gv, t@, 0) == group_position(gv, t@, i as nat),
        decreases pool.len() - i,
    {
        let tag = chars_of(pool[i].tag.as_str());
        if crate::text::chars_eq(&tag, t) {
            return Some(i);
        }
        i = i + 1;
    }
    None
}

fn find_entry(root: &GroupTable, t: &Vec<char>) -> (r: Option<usize>)
    ensures
        match r {
            Some(j) => entry_position(root@, t@, 0) == Some(j as int) && j < root@.len(),
            None => entry_position(root@, t@, 0) is None,
        },
{
    let mut i: usize = 0;
    while i < root.len()
        invariant
            i <= root.len(),
            entry_position(root@, t@, 0) == entry_position(root@, t@, i as nat),
        decreases root.len() - i,
    {
        let key = chars_of(root[i].0.as_str());
        if crate::text::chars_eq(&key, t) {
            return Some(i);
        }
        i = i + 1;
    }
    None
}

proof fn lemma_group_position_bound(g: Seq<GroupView>, t: Seq<char>, i: nat)
    ensures
        group_position(g, t, i) matches Some(j) ==> i <= j < g.len() && g[j].tag == t,
    decreases g.len() - i,
{
    if i < g.len() && g[i as int].tag != t {
        lemma_group_position_bound(g, t, i + 1);
    }
}

proof fn lemma_entry_position_bound(root: Seq<(String, GroupInput)>, t: Seq<char>, i: nat)
    ensures
        entry_position(root, t, i) matches Some(j) ==> i <= j < root.len() && root[j].0@ == t,
    decreases root.len() - i,
{
    if i < root.len() && root[i as int].0@ != t {
        lemma_entry_position_bound(root, t, i + 1);
    }
}

proof fn lemma_root_stage_err(tags: Seq<Seq<char>>, root: Seq<(String, GroupInput)>, i: nat, j: nat)
    requires
        i <= j,
        root_stage(tags, root, i) is Err,
    ensures
        root_stage(tags, root, j) == root_stage(tags, root, i),
    decreases j,
{
    if j > i {
        lemma_root_stage_err(tags, root, i, (j - 1) as nat);
    }
}

/// The groups the main file defines for the declared tags.
fn root_groups(tags: &Vec<String>, root: &GroupTable) -> (r: Result<
    Vec<RawPackOptionGroup>,
    ConfigError,
>)
    ensures
        groups_res(r) == root_stage(strs(tags@), root@, tags@.len()),
{
    let ghost st = strs(tags@);
    let mut pool: Vec<RawPackOptionGroup> = Vec::new();
    let mut i: usize = 0;
    assert(group_views(pool@) =~= Seq::<GroupView>::empty());
    while i < tags.len()
        invariant
            i <= tags.len(),
            st == strs(tags@),
            root_stage(st, root@, i as nat) == Ok::<Seq<GroupView>, ConfigFault>(group_views(pool@)),
        decreases tags.len() - i,
    {
        let raw = chars_of(tags[i].as_str());
        let t = trim_chars(&raw);
        assert(t@ == trim(st[i as int]));
        if t.len() == 0 || find_group(&pool, &t).is_some() {
            proof {
                lemma_root_stage_err(st, root@, (i + 1) as nat, tags@.len());
            }
            return Err(ConfigError::EmptyOrDuplicateGroupTag);
        }
        assert(group_position(group_views(pool@), t@, 0) is None);
        match find_entry(root, &t) {
            None => {
                assert(root_stage(st, root@, (i + 1) as nat) == Ok::<Seq<GroupView>, ConfigFault>(
                    group_views(pool@),
                ));
            },
            Some(j) => {
                proof {
                    lemma_entry_position_bound(root@, t@, 0);
                }
                let key = string_of(t.as_slice());
                match parse_option_group(key.as_str(), &root[j].1) {
                    Err(e) => {
                        proof {
                            lemma_root_stage_err(st, root@, (i + 1) as nat, tags@.len());
                        }
                        return Err(e);
                    },
                    Ok(g) => {
                        let ghost before = group_views(pool@);
                        assert(group_result(t@, root@[j as int].1) == Ok::<GroupView, ConfigFault>(g@));
                        pool.push(g);
                        assert(group_views(pool@) =~= before.push(g@));
                    },
                }
            },
        }
        i = i + 1;
    }
    Ok(pool)
}

fn declared(tags: &Vec<String>, t: &Vec<char>) -> (r: bool)
    ensures
        r == strs(tags@).contains(t@),
{
    let ghost st = strs(tags@);
    let mut i: usize = 0;
    while i < tags.len()
        invariant
            i <= tags.len(),
            st == strs(tags@),
            forall|k: int| 0 <= k < i ==> st[k] != t@,
        decreases tags.len() - i,
    {
        let c = chars_of(tags[i].as_str());
        if crate::text::chars_eq(&c, t) {
            assert(st[i as int] == t@);
            return true;
        }
        i = i + 1;
    }
    false
}

proof fn lemma_include_stage_err(
    tags: Seq<Seq<char>>,
    entries: Seq<Seq<char>>,
    docs: Seq<Result<GroupTable, String>>,
    base: Seq<GroupView>,
    style: PathStyle,
    i: nat,
    j: nat,
)
    requires
        i <= j,
        include_stage(tags, entries, docs, base, style, i) is Err,
    ensures
        include_stage(tags, entries, docs, base, style, j) == include_stage(tags, entries, docs, base, style, i),
    decreases j,
{
    if j > i {
        lemma_include_stage_err(tags, entries, docs, base, style, i, (j - 1) as nat);
    }
}

/// The groups once every `Include` entry is loaded on top of `base`.
fn add_included_groups(
    tags: &Vec<String>,
    entries: &Vec<String>,
    docs: &Vec<Result<GroupTable, String>>,
    base: Vec<RawPackOptionGroup>,
    style: PathStyle,
) -> (r: Result<Vec<RawPackOptionGroup>, ConfigError>)
    requires
        docs@.len() == entries@.len(),
    ensures
        groups_res(r) == include_stage(
            strs(tags@),
            strs(entries@),
            docs@,
            group_views(base@),
            style,
            entries@.len(),
        ),
{
    let ghost st = strs(tags@);
    let ghost se = strs(entries@);
    let ghost b = group_views(base@);
    let mut pool = base;
    let mut i: usize = 0;
    while i < entries.len()
        invariant
            i <= entries.len() == docs@.len(),
            st == strs(tags@),
            se == strs(entries@),
            b == group_views(base@),
            include_stage(st, se, docs@, b, style, i as nat) == Ok::<Seq<GroupView>, ConfigFault>(
                group_views(pool@),
            ),
        decreases entries.len() - i,
    {
        let loaded = load_included_option_group(entries[i].as_str(), &docs[i], style);
        assert(se[i as int] == entries@[i as int]@);
        assert(group_res(loaded) == include_result(se[i as int], docs@[i as int], style));
        match loaded {
            Err(e) => {
                assert(include_stage(st, se, docs@, b, style, (i + 1) as nat) == Err::<Seq<GroupView>, ConfigFault>(e@));
                proof {
                    lemma_include_stage_err(st, se, docs@, b, style, (i + 1) as nat, entries@.len());
                }
                return Err(e);
            },
            Ok(g) => {
                let tag = chars_of(g.tag.as_str());
                if !declared(tags, &tag) {
                    let e = ConfigError::IncludedGroupUndeclared { tag: string_of(tag.as_slice()) };
                    assert(include_stage(st, se, docs@, b, style, (i + 1) as nat) == Err::<Seq<GroupView>, ConfigFault>(e@));
                    proof {
                        lemma_include_stage_err(st, se, docs@, b, style, (i + 1) as nat, entries@.len());
                    }
                    return Err(e);
                }
                if find_group(&pool, &tag).is_some() {
                    proof {
                        lemma_include_stage_err(st, se, docs@, b, style, (i + 1) as nat, entries@.len());
                    }
                    return Err(ConfigError::GroupDefinedTwice);
                }
                let ghost before = group_views(pool@);
                pool.push(g);
                assert(group_views(pool@) =~= before.push(g@));
            },
        }
        i = i + 1;
    }
    Ok(pool)
}

proof fn lemma_order_stage_err(tags: Seq<Seq<char>>, pool: Seq<GroupView>, i: nat, j: nat)
    requires
        i <= j,
        order_stage(tags, pool, i) is Err,
    ensures
        order_stage(tags, pool, j) == order_stage(tags, pool, i),
    decreases j,
{
    if j > i {
        lemma_order_stage_err(tags, pool, i, (j - 1) as nat);
    }
}

/// The groups in declared order, each taken out of the pool by its trimmed tag.
fn order_groups(tags: &Vec<String>, pool: Vec<RawPackOptionGroup>) -> (r: Result<
    Vec<RawPackOptionGroup>,
    ConfigError,
>)
    ensures
        match r {
            Ok(out) => order_stage(strs(tags@), group_views(pool@), tags@.len()) matches Ok((o, _))
                && o == group_views(out@),
            Err(e) => order_stage(strs(tags@), group_views(pool@), tags@.len()) == Err::<
                (Seq<GroupView>, Seq<GroupView>),
                ConfigFault,
            >(e@),
        },
{
    let ghost st = strs(tags@);
    let ghost p0 = group_views(pool@);
    let mut rest = pool;
    let mut out: Vec<RawPackOptionGroup> = Vec::new();
    let mut i: usize = 0;
    assert(group_views(out@) =~= Seq::<GroupView>::empty());
    while i < tags.len()
        invariant
            i <= tags.len(),
            st == strs(tags@),
            p0 == group_views(pool@),
            order_stage(st, p0, i as nat) == Ok::<(Seq<GroupView>, Seq<GroupView>), ConfigFault>(
                (group_views(out@), group_views(rest@)),
            ),
        decreases tags.len() - i,
    {
        let raw = chars_of(tags[i].as_str());
        let t = trim_chars(&raw);
        assert(t@ == trim(st[i as int]));
        match find_group(&rest, &t) {
            None => {
                let e = ConfigError::DeclaredGroupMissing { tag: tags[i].clone() };
                assert(order_stage(st, p0, (i + 1) as nat) == Err::<
                    (Seq<GroupView>, Seq<GroupView>),
                    ConfigFault,
                >(e@));
                proof {
                    lemma_order_stage_err(st, p0, (i + 1) as nat, tags@.len());
                }
                return Err(e);
            },
            Some(j) => {
                proof {
                    lemma_group_position_bound(group_views(rest@), t@, 0);
                }
                let ghost rv = group_views(rest@);
                let ghost ov = group_views(out@);
                let g = rest.remove(j);
                assert(g@ == rv[j as int]);
                assert(group_views(rest@) =~= rv.remove(j as int));
                out.push(g);
                assert(group_views(out@) =~= ov.push(g@));
            },
        }
        i = i + 1;
    }
    Ok(out)
}

/// The options of all groups, group after group.
fn flatten_options(groups: &Vec<RawPackOptionGroup>) -> (r: Vec<RawPackOption>)
    ensures
        option_views(r@) == flat_options(group_views(groups@)),
{
    let ghost gv = group_views(groups@);
    let mut out: Vec<RawPackOption> = Vec::new();
    let mut i: usize = 0;
    assert(option_views(out@) =~= flat_options(gv.take(0)));
    while i < groups.len()
        invariant
            i <= groups.len(),
            gv == group_views(groups@),
            option_views(out@) == flat_options(gv.take(i as int)),
        decreases groups.len() - i,
    {
        let ghost start = option_views(out@);
        let opts = &groups[i].options;
        let mut k: usize = 0;
        while k < opts.len()
            invariant
                k <= opts.len(),
                option_views(out@) == start + option_views(opts@).take(k as int),
            decreases opts.len() - k,
        {
            let ghost before = option_views(out@);
            out.push(copy_option(&opts[k]));
            assert(option_views(out@) =~= before.push(opts@[k as int]@));
            assert(option_views(opts@).take(k + 1) =~= option_views(opts@).take(k as int).push(
                opts@[k as int]@,
            ));
            k = k + 1;
        }
        assert(option_views(opts@).take(opts.len() as int) =~= option_views(opts@));
        assert(gv.take(i + 1).drop_last() =~= gv.take(i as int));
        assert(gv.take(i + 1).last() == gv[i as int]);
        i = i + 1;
    }
    assert(gv.take(groups.len() as int) =~= gv);
    out
}

/// Legacy options, all tagged `General`.
fn retag_general(options: Vec<RawPackOption>) -> (r: Vec<RawPackOption>)
    ensures
        option_views(r@) == retagged(option_views(options@)),
{
    let ghost orig = options@;
    let n = options.len();
    let mut rest = options;
    let mut out: Vec<RawPackOption> = Vec::new();
    while rest.len() > 0
        invariant
            n == orig.len(),
            rest@ == orig.subrange(n - rest.len(), n as int),
            out@.len() == n - rest.len(),
            forall|k: int|
                0 <= k < out@.len() ==> (#[trigger] out@[k])@ == (OptionView {
                    tag: general_tag(),
                    ..orig[k]@
                }),
        decreases rest.len(),
    {
        let ghost i = n - rest.len();
        let mut o = rest.remove(0);
        assert(o == orig[i]);
        o.tag = general_tag_string();
        out.push(o);
        assert(rest@ =~= orig.subrange(n - rest.len(), n as int));
    }
    assert(option_views(out@) =~= retagged(option_views(orig)));
    out
}

/// Assembles a pack configuration from what was decoded of its `config.toml`,
/// the document's top-level tables and the parsed `Include` files, one per
/// entry of `Config.Include`; included paths follow the rules of `style`.
pub fn parse_pack_config_with_includes(
    config: RawPackConfig,
    root: &GroupTable,
    included: &Vec<Result<GroupTable, String>>,
    style: PathStyle,
) -> (r: Result<RawPackConfig, ConfigError>)
    requires
        included@.len() == config.config.includes@.len(),
    ensures
        match r {
            Ok(c) => {
                &&& assembled(config, root@, included@, style) == Ok::<
                    (Seq<OptionView>, Seq<GroupView>),
                    ConfigFault,
                >((option_views(c.options@), group_views(c.option_groups@)))
                &&& normalized_tag(config.config.tag@) == Some(c.config.tag@)
                &&& c.config == (RawPackMeta { tag: c.config.tag, ..config.config })
                &&& c.data == config.data
                &&& c.resources == config.resources
                &&& c.exports == config.exports
                &&& c.imports == config.imports
                &&& c.requirements == config.requirements
            },
            Err(e) => assembled(config, root@, included@, style) == Err::<
                (Seq<OptionView>, Seq<GroupView>),
                ConfigFault,
            >(e@),
        },
{
    let ghost c0 = config;
    let RawPackConfig {
        config: meta,
        options,
        option_groups: _,
        data,
        resources,
        exports,
        imports,
        requirements,
    } = config;
    let mut meta = meta;
    let tag = match normalize_pack_tag(meta.tag.as_str()) {
        Ok(t) => t,
        Err(e) => {
            return Err(e);
        },
    };
    meta.tag = tag;
    assert(strs(meta.option_groups@) == strs(c0.config.option_groups@));
    if meta.option_groups.len() == 0 {
        let ghost v = option_views(options@);
        let retagged_options = retag_general(options);
        let group_options = copy_options(&retagged_options);
        let group = RawPackOptionGroup {
            name: general_tag_string(),
            desc: String::new(),
            options: group_options,
            tag: general_tag_string(),
        };
        assert(group@ == legacy_group(v));
        let groups = vec![group];
        assert(group_views(groups@) =~= seq![legacy_group(v)]);
        return Ok(
            RawPackConfig {
                config: meta,
                options: retagged_options,
                option_groups: groups,
                data,
                resources,
                exports,
                imports,
                requirements,
            },
        );
    }
    if options.len() > 0 {
        return Err(ConfigError::MixedOptions);
    }
    let base = match root_groups(&meta.option_groups, root) {
        Ok(b) => b,
        Err(e) => {
            return Err(e);
        },
    };
    let pool = match add_included_groups(&meta.option_groups, &meta.includes, included, base, style) {
        Ok(p) => p,
        Err(e) => {
            return Err(e);
        },
    };
    let ordered = match order_groups(&meta.option_groups, pool) {
        Ok(o) => o,
        Err(e) => {
            return Err(e);
        },
    };
    let flat = flatten_options(&ordered);
    Ok(
        RawPackConfig {
            config: meta,
            options: flat,
            option_groups: ordered,
            data,
            resources,
            exports,
            imports,
            requirements,
        },
    )
}

proof fn lemma_tag_matches_self(i: nat)
    requires
        i < 7,
    ensures
        tag_match_from(pack_tags()[i as int], 0) == Some(i as int),
{
    let t = pack_tags()[i as int];
    assert(pack_tags()[0] =~= seq!['G', 'e', 'n', 'e', 'r', 'a', 'l']);
    assert(pack_tags()[1] =~= seq!['B', 'a', 's', 'e']);
    assert(pack_tags()[2] =~= seq!['T', 'o', 'o', 'l', 's']);
    assert(pack_tags()[3] =~= seq!['U', 'n', 'i', 't']);
    assert(pack_tags()[4] =~= seq!['F', 'e', 'a', 't', 'u', 'r', 'e']);
    assert(pack_tags()[5] =~= seq!['M', 'o', 'd', 'i', 'f', 'i', 'e', 'r']);
    assert(pack_tags()[6] =~= seq!['M', 'a', 'j', 'o', 'r']);
    reveal_with_fuel(tag_match_from, 8);
    assert forall|j: int| 0 <= j < 7 && j != i implies !eq_ignore_case(pack_tags()[j], t) by {
        let a = crate::text::ascii_lower_seq(pack_tags()[j]);
        let b = crate::text::ascii_lower_seq(t);
        if a.len() == b.len() {
            assert(a[0] != b[0] || a[1] != b[1]);
        }
    }
    assert(eq_ignore_case(t, t));
}

proof fn lemma_tag_trimmed(i: nat)
    requires
        i < 7,
    ensures
        trim(pack_tags()[i as int]) == pack_tags()[i as int],
{
    let t = pack_tags()[i as int];
    assert(pack_tags()[0] =~= seq!['G', 'e', 'n', 'e', 'r', 'a', 'l']);
    assert(pack_tags()[1] =~= seq!['B', 'a', 's', 'e']);
    assert(pack_tags()[2] =~= seq!['T', 'o', 'o', 'l', 's']);
    assert(pack_tags()[3] =~= seq!['U', 'n', 'i', 't']);
    assert(pack_tags()[4] =~= seq!['F', 'e', 'a', 't', 'u', 'r', 'e']);
    assert(pack_tags()[5] =~= seq!['M', 'o', 'd', 'i', 'f', 'i', 'e', 'r']);
    assert(pack_tags()[6] =~= seq!['M', 'a', 'j', 'o', 'r']);
    assert(forall|k: int| 0 <= k < t.len() ==> !crate::text::is_ws(#[trigger] t[k]));
    crate::text::lemma_trim_unchanged(t);
}

proof fn lemma_tag_match_found(t: Seq<char>, i: nat)
    requires
        i <= 7,
    ensures
        tag_match_from(t, i) matches Some(k) ==> i <= k < 7 && eq_ignore_case(pack_tags()[k], t),
    decreases 7 - i,
{
    if i < 7 {
        lemma_tag_match_found(t, i + 1);
    }
}

/// A tag once normalized normalizes to itself: normalizing twice gives what
/// normalizing once gave.
pub proof fn law_tag_normalization_idempotent(raw: Seq<char>)
    requires
        normalized_tag(raw) is Some,
    ensures
        normalized_tag(normalized_tag(raw)->Some_0) == normalized_tag(raw),
{
    let t = trim(raw);
    let i: nat = if t.len() == 0 {
        0
    } else {
        lemma_tag_match_found(t, 0);
        tag_match_from(t, 0)->Some_0 as nat
    };
    assert(normalized_tag(raw) == Some(pack_tags()[i as int]));
    lemma_tag_trimmed(i);
    lemma_tag_matches_self(i);
    assert(pack_tags()[i as int].len() > 0);
}

} // verus!
