use vstd::prelude::*;
use crate::model::{PackSelection, RawPackOption, SelView, SelectionValue, TomlScalar, TomlValue};
use crate::text::{
    chars_eq, chars_eq_ignore_case, chars_of, contains_whitespace, eq_ignore_case, has_ws,
    concat_all, concat_chars, lemma_split_lines_incl, slice_chars, split_lines_incl, split_lines_inclusive, split_once,
    split_once_chars, starts_with, string_of, trim, trim_chars, views,
};

verus! {

/// An open control block while a data file is processed.
#[derive(Debug, Clone, Copy, PartialEq, Eq, Structural)]
pub enum ControlBlock {
    If { keep: bool, has_else: bool },
    Enum { keep: bool },
}

/// Why the option name after a directive is refused.
#[derive(Debug, Clone, Copy, PartialEq, Eq, Structural)]
pub enum ControlNameError {
    /// The text after the keyword does not start with `$`.
    MissingDollar,
    /// The name after `$` is empty or holds whitespace.
    InvalidName,
}

/// Why an `#Enum` directive is refused.
#[derive(Debug, Clone, Copy, PartialEq, Eq, Structural)]
pub enum EnumDirectiveError {
    /// Not of the form `$Name:Value`.
    Syntax,
    /// The name or the value is empty or holds whitespace.
    Invalid,
}

/// Why the control blocks of a data file cannot be applied.
/// `line` is the 1-based line number; names are those written in the file.
#[derive(Debug, Clone)]
#[allow(inconsistent_fields)]
pub enum ControlError {
    NestedBlock { line: usize },
    IfName { line: usize, kind: ControlNameError },
    UnknownOption { line: usize, name: String },
    NotControl { line: usize, name: String },
    WrongType { line: usize, name: String, wants_enum: bool },
    MissingValue { option: String },
    NeedBool { line: usize, name: String },
    ElseOutsideIf { line: usize },
    DuplicateElse { line: usize },
    EndIfUnmatched { line: usize },
    EnumDirective { line: usize, kind: EnumDirectiveError },
    NeedEnumValue { line: usize, name: String },
    EnumIndexOutOfRange { line: usize, name: String },
    EndEnumUnmatched { line: usize },
    /// The file ends inside a block (`#If` when `is_if`, else `#Enum`).
    Unclosed { is_if: bool },
}

/// The mathematical value of a `ControlError`.
#[allow(inconsistent_fields)]
pub enum ControlFault {
    NestedBlock { line: usize },
    IfName { line: usize, kind: ControlNameError },
    UnknownOption { line: usize, name: Seq<char> },
    NotControl { line: usize, name: Seq<char> },
    WrongType { line: usize, name: Seq<char>, wants_enum: bool },
    MissingValue { option: Seq<char> },
    NeedBool { line: usize, name: Seq<char> },
    ElseOutsideIf { line: usize },
    DuplicateElse { line: usize },
    EndIfUnmatched { line: usize },
    EnumDirective { line: usize, kind: EnumDirectiveError },
    NeedEnumValue { line: usize, name: Seq<char> },
    EnumIndexOutOfRange { line: usize, name: Seq<char> },
    EndEnumUnmatched { line: usize },
    Unclosed { is_if: bool },
}

impl View for ControlError {
    type V = ControlFault;

    open spec fn view(&self) -> ControlFault {
        match self {
            ControlError::NestedBlock { line } => ControlFault::NestedBlock { line: *line },
            ControlError::IfName { line, kind } => ControlFault::IfName { line: *line, kind: *kind },
            ControlError::UnknownOption { line, name } => ControlFault::UnknownOption {
                line: *line,
                name: name@,
            },
            ControlError::NotControl { line, name } => ControlFault::NotControl {
                line: *line,
                name: name@,
            },
            ControlError::WrongType { line, name, wants_enum } => ControlFault::WrongType {
                line: *line,
                name: name@,
                wants_enum: *wants_enum,
            },
            ControlError::MissingValue { option } => ControlFault::MissingValue { option: option@ },
            ControlError::NeedBool { line, name } => ControlFault::NeedBool {
                line: *line,
                name: name@,
            },
            ControlError::ElseOutsideIf { line } => ControlFault::ElseOutsideIf { line: *line },
            ControlError::DuplicateElse { line } => ControlFault::DuplicateElse { line: *line },
            ControlError::EndIfUnmatched { line } => ControlFault::EndIfUnmatched { line: *line },
            ControlError::EnumDirective { line, kind } => ControlFault::EnumDirective {
                line: *line,
                kind: *kind,
            },
            ControlError::NeedEnumValue { line, name } => ControlFault::NeedEnumValue {
                line: *line,
                name: name@,
            },
            ControlError::EnumIndexOutOfRange { line, name } => ControlFault::EnumIndexOutOfRange {
                line: *line,
                name: name@,
            },
            ControlError::EndEnumUnmatched { line } => ControlFault::EndEnumUnmatched {
                line: *line,
            },
            ControlError::Unclosed { is_if } => ControlFault::Unclosed { is_if: *is_if },
        }
    }
}

pub open spec fn kw_if() -> Seq<char> {
    seq!['#', 'I', 'f']
}

pub open spec fn kw_else() -> Seq<char> {
    seq!['#', 'E', 'l', 's', 'e']
}

pub open spec fn kw_end_if() -> Seq<char> {
    seq!['#', 'E', 'n', 'd', 'I', 'f']
}

pub open spec fn kw_enum() -> Seq<char> {
    seq!['#', 'E', 'n', 'u', 'm']
}

pub open spec fn kw_end_enum() -> Seq<char> {
    seq!['#', 'E', 'n', 'd', 'E', 'n', 'u', 'm']
}

pub open spec fn type_bool() -> Seq<char> {
    seq!['b', 'o', 'o', 'l']
}

pub open spec fn type_enum() -> Seq<char> {
    seq!['e', 'n', 'u', 'm']
}

/// The index of the option that a lookup by name finds: the last one with that name
/// (options are gathered into a map in order, so a later one replaces an earlier one).
pub open spec fn option_index(opts: Seq<RawPackOption>, name: Seq<char>) -> Option<int>
    decreases opts.len(),
{
    if opts.len() == 0 {
        None
    } else if opts.last().name@ == name {
        Some(opts.len() - 1)
    } else {
        option_index(opts.drop_last(), name)
    }
}

/// The index of the selection that a lookup by name finds: the last one with that name.
pub open spec fn selection_index(sels: Seq<PackSelection>, name: Seq<char>) -> Option<int>
    decreases sels.len(),
{
    if sels.len() == 0 {
        None
    } else if sels.last().name@ == name {
        Some(sels.len() - 1)
    } else {
        selection_index(sels.drop_last(), name)
    }
}

pub proof fn lemma_option_index_bounds(opts: Seq<RawPackOption>, name: Seq<char>)
    ensures
        option_index(opts, name) matches Some(i) ==> 0 <= i < opts.len() && opts[i].name@ == name,
    decreases opts.len(),
{
    if opts.len() > 0 {
        lemma_option_index_bounds(opts.drop_last(), name);
    }
}

pub proof fn lemma_selection_index_bounds(sels: Seq<PackSelection>, name: Seq<char>)
    ensures
        selection_index(sels, name) matches Some(i) ==> 0 <= i < sels.len() && sels[i].name@
            == name,
    decreases sels.len(),
{
    if sels.len() > 0 {
        lemma_selection_index_bounds(sels.drop_last(), name);
    }
}

/// Looks an option up by name (see `option_index`).
pub fn find_option(opts: &Vec<RawPackOption>, name: &Vec<char>) -> (r: Option<usize>)
    ensures
        match r {
            Some(i) => option_index(opts@, name@) == Some(i as int),
            None => option_index(opts@, name@) is None,
        },
{
    let mut i = opts.len();
    assert(opts@.take(i as int) =~= opts@);
    while i > 0
        invariant
            i <= opts.len(),
            option_index(opts@, name@) == option_index(opts@.take(i as int), name@),
        decreases i,
    {
        assert(opts@.take(i as int).drop_last() =~= opts@.take(i - 1));
        let n = chars_of(opts[i - 1].name.as_str());
        if chars_eq(&n, name) {
            return Some(i - 1);
        }
        i = i - 1;
    }
    None
}

/// Looks a selection up by name (see `selection_index`).
pub fn find_selection(sels: &Vec<PackSelection>, name: &Vec<char>) -> (r: Option<usize>)
    ensures
        match r {
            Some(i) => selection_index(sels@, name@) == Some(i as int),
            None => selection_index(sels@, name@) is None,
        },
{
    let mut i = sels.len();
    assert(sels@.take(i as int) =~= sels@);
    while i > 0
        invariant
            i <= sels.len(),
            selection_index(sels@, name@) == selection_index(sels@.take(i as int), name@),
        decreases i,
    {
        assert(sels@.take(i as int).drop_last() =~= sels@.take(i - 1));
        let n = chars_of(sels[i - 1].name.as_str());
        if chars_eq(&n, name) {
            return Some(i - 1);
        }
        i = i - 1;
    }
    None
}

/// The first item of a TOML value: the value itself, or the first element of an array.
pub open spec fn first_item(v: TomlValue) -> Option<TomlScalar> {
    match v {
        TomlValue::Scalar(s) => Some(s),
        TomlValue::Array(a) => if a@.len() > 0 {
            Some(a@[0])
        } else {
            None
        },
    }
}

/// A TOML default as a selection value: its first item when that is a bool, an
/// integer or a string.
pub open spec fn default_selection(v: TomlValue) -> Option<SelView> {
    match first_item(v) {
        Some(TomlScalar::Bool(b)) => Some(SelView::Bool(b)),
        Some(TomlScalar::Integer(i)) => Some(SelView::Int(i)),
        Some(TomlScalar::Text(t)) => Some(SelView::Text(t@)),
        _ => None,
    }
}

/// The value that governs a control option: the selection for it, else its default.
pub open spec fn control_value(opt: RawPackOption, sels: Seq<PackSelection>) -> Option<SelView> {
    match selection_index(sels, opt.name@) {
        Some(i) => Some(sels[i].value@),
        None => match opt.default {
            Some(d) => default_selection(d),
            None => None,
        },
    }
}

pub fn copy_string(s: &String) -> (r: String)
    ensures
        r@ == s@,
{
    s.clone()
}

pub fn copy_selection(v: &SelectionValue) -> (r: SelectionValue)
    ensures
        r@ == v@,
{
    match v {
        SelectionValue::Bool(b) => SelectionValue::Bool(*b),
        SelectionValue::Int(i) => SelectionValue::Int(*i),
        SelectionValue::Text(t) => SelectionValue::Text(copy_string(t)),
        SelectionValue::Other => SelectionValue::Other,
    }
}

/// `toml_default_to_json`: a default value as a selection.
pub fn toml_default_to_json(v: &TomlValue) -> (r: Option<SelectionValue>)
    ensures
        match r {
            Some(s) => default_selection(*v) == Some(s@),
            None => default_selection(*v) is None,
        },
{
    let first = match v {
        TomlValue::Scalar(s) => s,
        TomlValue::Array(a) => {
            if a.len() == 0 {
                return None;
            }
            &a[0]
        },
    };
    match first {
        TomlScalar::Bool(b) => Some(SelectionValue::Bool(*b)),
        TomlScalar::Integer(i) => Some(SelectionValue::Int(*i)),
        TomlScalar::Text(t) => Some(SelectionValue::Text(copy_string(t))),
        TomlScalar::Other => None,
    }
}

/// `control_selection`: the value that governs a control option, if any.
pub fn control_selection(option: &RawPackOption, selections: &Vec<PackSelection>) -> (r: Option<
    SelectionValue,
>)
    ensures
        match r {
            Some(v) => control_value(*option, selections@) == Some(v@),
            None => control_value(*option, selections@) is None,
        },
{
    let name = chars_of(option.name.as_str());
    match find_selection(selections, &name) {
        Some(i) => {
            proof {
                lemma_selection_index_bounds(selections@, name@);
            }
            Some(copy_selection(&selections[i].value))
        },
        None => match &option.default {
            Some(d) => toml_default_to_json(d),
            None => None,
        },
    }
}

/// Which control option a directive refers to, and what fails when it is not fit.
pub open spec fn require_spec(
    opts: Seq<RawPackOption>,
    name: Seq<char>,
    wants_enum: bool,
    line: usize,
) -> Result<int, ControlFault> {
    match option_index(opts, name) {
        None => Err(ControlFault::UnknownOption { line, name }),
        Some(i) => if !opts[i].control {
            Err(ControlFault::NotControl { line, name })
        } else if !eq_ignore_case(
            opts[i].option_type@,
            if wants_enum {
                type_enum()
            } else {
                type_bool()
            },
        ) {
            Err(ControlFault::WrongType { line, name, wants_enum })
        } else {
            Ok(i)
        },
    }
}

/// `require_control_option`: the control option of a directive, checked for
/// `Control = true` and the expected type (`bool` for `#If`, `enum` for `#Enum`).
pub fn require_control_option(
    options: &Vec<RawPackOption>,
    name: &Vec<char>,
    wants_enum: bool,
    line: usize,
) -> (r: Result<usize, ControlError>)
    ensures
        match r {
            Ok(i) => require_spec(options@, name@, wants_enum, line) == Ok::<int, ControlFault>(
                i as int,
            ),
            Err(e) => require_spec(options@, name@, wants_enum, line) == Err::<int, ControlFault>(
                e@,
            ),
        },
{
    proof {
        lemma_option_index_bounds(options@, name@);
    }
    match find_option(options, name) {
        None => Err(ControlError::UnknownOption { line, name: string_of(name.as_slice()) }),
        Some(i) => {
            if !options[i].control {
                return Err(ControlError::NotControl { line, name: string_of(name.as_slice()) });
            }
            let expected = if wants_enum {
                vec!['e', 'n', 'u', 'm']
            } else {
                vec!['b', 'o', 'o', 'l']
            };
            assert(expected@ == if wants_enum {
                type_enum()
            } else {
                type_bool()
            });
            let t = chars_of(options[i].option_type.as_str());
            if !chars_eq_ignore_case(&t, &expected) {
                return Err(
                    ControlError::WrongType { line, name: string_of(name.as_slice()), wants_enum },
                );
            }
            Ok(i)
        },
    }
}

/// `parse_control_option_name`: the option name after `keyword` in a directive line,
/// written `$Name`.
pub open spec fn option_name_spec(line: Seq<char>, keyword: Seq<char>) -> Result<
    Seq<char>,
    ControlNameError,
> {
    let value = trim(
        if keyword.is_prefix_of(line) {
            line.skip(keyword.len() as int)
        } else {
            Seq::<char>::empty()
        },
    );
    if value.len() > 0 && value[0] == '$' {
        let name = value.drop_first();
        if name.len() == 0 || has_ws(name) {
            Err(ControlNameError::InvalidName)
        } else {
            Ok(name)
        }
    } else {
        Err(ControlNameError::MissingDollar)
    }
}

pub fn parse_control_option_name(line: &str, keyword: &str) -> (r: Result<
    String,
    ControlNameError,
>)
    ensures
        match r {
            Ok(n) => option_name_spec(line@, keyword@) == Ok::<Seq<char>, ControlNameError>(n@),
            Err(e) => option_name_spec(line@, keyword@) == Err::<Seq<char>, ControlNameError>(e),
        },
{
    let l = chars_of(line);
    let k = chars_of(keyword);
    match parse_option_name_chars(&l, &k) {
        Ok(n) => Ok(string_of(n.as_slice())),
        Err(e) => Err(e),
    }
}

fn parse_option_name_chars(l: &Vec<char>, k: &Vec<char>) -> (r: Result<Vec<char>, ControlNameError>)
    ensures
        match r {
            Ok(n) => option_name_spec(l@, k@) == Ok::<Seq<char>, ControlNameError>(n@),
            Err(e) => option_name_spec(l@, k@) == Err::<Seq<char>, ControlNameError>(e),
        },
{
    let rest = if starts_with(l, k) {
        slice_chars(l, k.len(), l.len())
    } else {
        Vec::new()
    };
    assert(k@.is_prefix_of(l@) ==> rest@ =~= l@.skip(k@.len() as int));
    assert(!k@.is_prefix_of(l@) ==> rest@ =~= Seq::<char>::empty());
    let value = trim_chars(&rest);
    if value.len() > 0 && value[0] == '$' {
        let name = slice_chars(&value, 1, value.len());
        assert(name@ =~= value@.drop_first());
        if name.len() == 0 || contains_whitespace(&name) {
            Err(ControlNameError::InvalidName)
        } else {
            Ok(name)
        }
    } else {
        Err(ControlNameError::MissingDollar)
    }
}

/// `parse_enum_control`: the `$Name:Value` of an `#Enum` directive line.
pub open spec fn enum_directive_spec(line: Seq<char>) -> Result<
    (Seq<char>, Seq<char>),
    EnumDirectiveError,
> {
    let value = trim(
        if kw_enum().is_prefix_of(line) {
            line.skip(5)
        } else {
            Seq::<char>::empty()
        },
    );
    if value.len() > 0 && value[0] == '$' {
        match split_once(value.drop_first(), ':') {
            None => Err(EnumDirectiveError::Syntax),
            Some((name, v)) => if name.len() == 0 || v.len() == 0 || has_ws(name) || has_ws(v) {
                Err(EnumDirectiveError::Invalid)
            } else {
                Ok((name, v))
            },
        }
    } else {
        Err(EnumDirectiveError::Syntax)
    }
}

fn parse_enum_chars(l: &Vec<char>) -> (r: Result<(Vec<char>, Vec<char>), EnumDirectiveError>)
    ensures
        match r {
            Ok((n, v)) => enum_directive_spec(l@) == Ok::<(Seq<char>, Seq<char>), EnumDirectiveError>(
                (n@, v@),
            ),
            Err(e) => enum_directive_spec(l@) == Err::<(Seq<char>, Seq<char>), EnumDirectiveError>(
                e,
            ),
        },
{
    let k = vec!['#', 'E', 'n', 'u', 'm'];
    assert(k@ == kw_enum());
    let rest = if starts_with(l, &k) {
        slice_chars(l, 5, l.len())
    } else {
        Vec::new()
    };
    assert(kw_enum().is_prefix_of(l@) ==> rest@ =~= l@.skip(5));
    assert(!kw_enum().is_prefix_of(l@) ==> rest@ =~= Seq::<char>::empty());
    let value = trim_chars(&rest);
    if value.len() > 0 && value[0] == '$' {
        let body = slice_chars(&value, 1, value.len());
        assert(body@ =~= value@.drop_first());
        match split_once_chars(&body, ':') {
            None => Err(EnumDirectiveError::Syntax),
            Some((name, v)) => {
                if name.len() == 0 || v.len() == 0 || contains_whitespace(&name)
                    || contains_whitespace(&v) {
                    Err(EnumDirectiveError::Invalid)
                } else {
                    Ok((name, v))
                }
            },
        }
    } else {
        Err(EnumDirectiveError::Syntax)
    }
}

pub fn parse_enum_control(line: &str) -> (r: Result<(String, String), EnumDirectiveError>)
    ensures
        match r {
            Ok((n, v)) => enum_directive_spec(line@) == Ok::<
                (Seq<char>, Seq<char>),
                EnumDirectiveError,
            >((n@, v@)),
            Err(e) => enum_directive_spec(line@) == Err::<
                (Seq<char>, Seq<char>),
                EnumDirectiveError,
            >(e),
        },
{
    let l = chars_of(line);
    match parse_enum_chars(&l) {
        Ok((n, v)) => Ok((string_of(n.as_slice()), string_of(v.as_slice()))),
        Err(e) => Err(e),
    }
}

/// Whether a line outside any directive is kept: always outside a block, and inside
/// one only where the block includes it.
pub open spec fn block_includes(block: Option<ControlBlock>) -> bool {
    match block {
        None => true,
        Some(ControlBlock::If { keep, .. }) => keep,
        Some(ControlBlock::Enum { keep }) => keep,
    }
}

pub fn control_block_include(block: &Option<ControlBlock>) -> (r: bool)
    ensures
        r == block_includes(*block),
{
    match block {
        None => true,
        Some(ControlBlock::If { keep, .. }) => *keep,
        Some(ControlBlock::Enum { keep }) => *keep,
    }
}

/// The first index of `v` in `values`.
pub open spec fn value_position(values: Seq<String>, v: Seq<char>) -> Option<int>
    decreases values.len(),
{
    if values.len() == 0 {
        None
    } else {
        match value_position(values.drop_last(), v) {
            Some(i) => Some(i),
            None => if values.last()@ == v {
                Some(values.len() - 1)
            } else {
                None
            },
        }
    }
}

pub proof fn lemma_value_position(values: Seq<String>, v: Seq<char>)
    ensures
        value_position(values, v) matches Some(i) ==> 0 <= i < values.len() && values[i]@ == v
            && forall|k: int| 0 <= k < i ==> values[k]@ != v,
        value_position(values, v) is None ==> forall|k: int|
            0 <= k < values.len() ==> values[k]@ != v,
    decreases values.len(),
{
    if values.len() > 0 {
        let d = values.drop_last();
        lemma_value_position(d, v);
        assert(forall|k: int| 0 <= k < d.len() ==> d[k] == values[k]);
    }
}

/// The first index of `v` among `values`.
pub fn position_of(values: &Vec<String>, v: &Vec<char>) -> (r: Option<usize>)
    ensures
        match r {
            Some(i) => value_position(values@, v@) == Some(i as int),
            None => value_position(values@, v@) is None,
        },
{
    let mut i: usize = 0;
    assert(values@.take(0) =~= Seq::<String>::empty());
    while i < values.len()
        invariant
            i <= values.len(),
            value_position(values@.take(i as int), v@) is None,
        decreases values.len() - i,
    {
        assert(values@.take(i + 1).drop_last() =~= values@.take(i as int));
        let c = chars_of(values[i].as_str());
        if chars_eq(&c, v) {
            proof {
                lemma_value_position(values@, v@);
                lemma_value_position(values@.take(i as int), v@);
                assert(value_position(values@.take(i + 1), v@) == Some(i as int));
                lemma_value_position(values@.take(i + 1), v@);
                assert forall|k: int| 0 <= k < i implies values@[k]@ != v@ by {
                    assert(values@.take(i as int)[k] == values@[k]);
                }
            }
            return Some(i);
        }
        i = i + 1;
    }
    assert(values@.take(i as int) =~= values@);
    None
}

/// One line of a data file: the block state after it and whether the line is kept.
pub open spec fn step_spec(
    st: Option<ControlBlock>,
    piece: Seq<char>,
    line: usize,
    opts: Seq<RawPackOption>,
    sels: Seq<PackSelection>,
) -> Result<(Option<ControlBlock>, bool), ControlFault> {
    let t = trim(piece);
    if kw_if().is_prefix_of(t) {
        if st is Some {
            Err(ControlFault::NestedBlock { line })
        } else {
            match option_name_spec(t, kw_if()) {
                Err(kind) => Err(ControlFault::IfName { line, kind }),
                Ok(name) => match require_spec(opts, name, false, line) {
                    Err(f) => Err(f),
                    Ok(i) => match control_value(opts[i], sels) {
                        None => Err(ControlFault::MissingValue { option: opts[i].name@ }),
                        Some(SelView::Bool(b)) => Ok(
                            (Some(ControlBlock::If { keep: b, has_else: false }), false),
                        ),
                        Some(_) => Err(ControlFault::NeedBool { line, name }),
                    },
                },
            }
        }
    } else if t == kw_else() {
        match st {
            Some(ControlBlock::If { keep, has_else }) => if has_else {
                Err(ControlFault::DuplicateElse { line })
            } else {
                Ok((Some(ControlBlock::If { keep: !keep, has_else: true }), false))
            },
            _ => Err(ControlFault::ElseOutsideIf { line }),
        }
    } else if t == kw_end_if() {
        match st {
            Some(ControlBlock::If { .. }) => Ok((None, false)),
            _ => Err(ControlFault::EndIfUnmatched { line }),
        }
    } else if kw_enum().is_prefix_of(t) {
        if st is Some {
            Err(ControlFault::NestedBlock { line })
        } else {
            match enum_directive_spec(t) {
                Err(kind) => Err(ControlFault::EnumDirective { line, kind }),
                Ok((name, expected)) => match require_spec(opts, name, true, line) {
                    Err(f) => Err(f),
                    Ok(i) => match control_value(opts[i], sels) {
                        None => Err(ControlFault::MissingValue { option: opts[i].name@ }),
                        Some(v) => {
                            let idx: Option<int> = match v {
                                SelView::Int(n) => Some(n as int),
                                SelView::Text(s) => value_position(opts[i].values@, s),
                                _ => None,
                            };
                            match idx {
                                None => Err(ControlFault::NeedEnumValue { line, name }),
                                Some(k) => if k < 0 || k >= opts[i].values@.len() {
                                    Err(ControlFault::EnumIndexOutOfRange { line, name })
                                } else {
                                    Ok(
                                        (
                                            Some(
                                                ControlBlock::Enum {
                                                    keep: opts[i].values@[k]@ == expected,
                                                },
                                            ),
                                            false,
                                        ),
                                    )
                                },
                            }
                        },
                    },
                },
            }
        }
    } else if t == kw_end_enum() {
        match st {
            Some(ControlBlock::Enum { .. }) => Ok((None, false)),
            _ => Err(ControlFault::EndEnumUnmatched { line }),
        }
    } else {
        Ok((st, block_includes(st)))
    }
}

/// The block state and the kept text after the first lines of a file.
pub open spec fn run_spec(
    pieces: Seq<Seq<char>>,
    opts: Seq<RawPackOption>,
    sels: Seq<PackSelection>,
) -> Result<(Option<ControlBlock>, Seq<char>), ControlFault>
    decreases pieces.len(),
{
    if pieces.len() == 0 {
        Ok((None, Seq::<char>::empty()))
    } else {
        match run_spec(pieces.drop_last(), opts, sels) {
            Err(e) => Err(e),
            Ok((st, out)) => match step_spec(st, pieces.last(), pieces.len() as usize, opts, sels) {
                Err(e) => Err(e),
                Ok((st2, keep)) => Ok(
                    (
                        st2,
                        if keep {
                            out + pieces.last()
                        } else {
                            out
                        },
                    ),
                ),
            },
        }
    }
}

proof fn lemma_run_error_persists(
    p: Seq<Seq<char>>,
    i: int,
    opts: Seq<RawPackOption>,
    sels: Seq<PackSelection>,
)
    requires
        0 <= i <= p.len(),
        run_spec(p.take(i), opts, sels) is Err,
    ensures
        run_spec(p, opts, sels) == run_spec(p.take(i), opts, sels),
    decreases p.len() - i,
{
    if i < p.len() {
        assert(p.take(i + 1).drop_last() =~= p.take(i));
        lemma_run_error_persists(p, i + 1, opts, sels);
    } else {
        assert(p.take(i) =~= p);
    }
}

/// What `apply_control_blocks` gives for a data file.
pub open spec fn control_blocks_spec(
    content: Seq<char>,
    opts: Seq<RawPackOption>,
    sels: Seq<PackSelection>,
) -> Result<Seq<char>, ControlFault> {
    match run_spec(split_lines_incl(content), opts, sels) {
        Err(e) => Err(e),
        Ok((None, out)) => Ok(out),
        Ok((Some(b), _)) => Err(ControlFault::Unclosed { is_if: b is If }),
    }
}


/// One line of a data file (see `step_spec`).
pub fn control_step(
    st: Option<ControlBlock>,
    piece: &Vec<char>,
    line: usize,
    options: &Vec<RawPackOption>,
    selections: &Vec<PackSelection>,
) -> (r: Result<(Option<ControlBlock>, bool), ControlError>)
    ensures
        match r {
            Ok(v) => step_spec(st, piece@, line, options@, selections@) == Ok::<
                (Option<ControlBlock>, bool),
                ControlFault,
            >(v),
            Err(e) => step_spec(st, piece@, line, options@, selections@) == Err::<
                (Option<ControlBlock>, bool),
                ControlFault,
            >(e@),
        },
{
    let t = trim_chars(piece);
    let k_if = vec!['#', 'I', 'f'];
    let k_else = vec!['#', 'E', 'l', 's', 'e'];
    let k_end_if = vec!['#', 'E', 'n', 'd', 'I', 'f'];
    let k_enum = vec!['#', 'E', 'n', 'u', 'm'];
    let k_end_enum = vec!['#', 'E', 'n', 'd', 'E', 'n', 'u', 'm'];
    assert(k_if@ == kw_if());
    assert(k_else@ == kw_else());
    assert(k_end_if@ == kw_end_if());
    assert(k_enum@ == kw_enum());
    assert(k_end_enum@ == kw_end_enum());
    if starts_with(&t, &k_if) {
        if st.is_some() {
            return Err(ControlError::NestedBlock { line });
        }
        let name = match parse_option_name_chars(&t, &k_if) {
            Ok(n) => n,
            Err(kind) => {
                return Err(ControlError::IfName { line, kind });
            },
        };
        let i = match require_control_option(options, &name, false, line) {
            Ok(i) => i,
            Err(e) => {
                return Err(e);
            },
        };
        proof {
            lemma_option_index_bounds(options@, name@);
        }
        match control_selection(&options[i], selections) {
            None => Err(ControlError::MissingValue { option: copy_string(&options[i].name) }),
            Some(SelectionValue::Bool(b)) => Ok(
                (Some(ControlBlock::If { keep: b, has_else: false }), false),
            ),
            Some(_) => Err(ControlError::NeedBool { line, name: string_of(name.as_slice()) }),
        }
    } else if chars_eq(&t, &k_else) {
        match st {
            Some(ControlBlock::If { keep, has_else }) => {
                if has_else {
                    Err(ControlError::DuplicateElse { line })
                } else {
                    Ok((Some(ControlBlock::If { keep: !keep, has_else: true }), false))
                }
            },
            _ => Err(ControlError::ElseOutsideIf { line }),
        }
    } else if chars_eq(&t, &k_end_if) {
        match st {
            Some(ControlBlock::If { .. }) => Ok((None, false)),
            _ => Err(ControlError::EndIfUnmatched { line }),
        }
    } else if starts_with(&t, &k_enum) {
        if st.is_some() {
            return Err(ControlError::NestedBlock { line });
        }
        let (name, expected) = match parse_enum_chars(&t) {
            Ok(p) => p,
            Err(kind) => {
                return Err(ControlError::EnumDirective { line, kind });
            },
        };
        let i = match require_control_option(options, &name, true, line) {
            Ok(i) => i,
            Err(e) => {
                return Err(e);
            },
        };
        proof {
            lemma_option_index_bounds(options@, name@);
        }
        let opt = &options[i];
        let v = match control_selection(opt, selections) {
            None => {
                return Err(ControlError::MissingValue { option: copy_string(&opt.name) });
            },
            Some(v) => v,
        };
        let idx: usize = match v {
            SelectionValue::Int(n) => {
                if n < 0 || (n as u64) >= (opt.values.len() as u64) {
                    return Err(
                        ControlError::EnumIndexOutOfRange { line, name: string_of(name.as_slice()) },
                    );
                }
                n as usize
            },
            SelectionValue::Text(s) => {
                let sc = chars_of(s.as_str());
                match position_of(&opt.values, &sc) {
                    Some(k) => {
                        proof {
                            lemma_value_position(opt.values@, sc@);
                        }
                        k
                    },
                    None => {
                        return Err(
                            ControlError::NeedEnumValue { line, name: string_of(name.as_slice()) },
                        );
                    },
                }
            },
            _ => {
                return Err(ControlError::NeedEnumValue { line, name: string_of(name.as_slice()) });
            },
        };
        let chosen = chars_of(opt.values[idx].as_str());
        let keep = chars_eq(&chosen, &expected);
        Ok((Some(ControlBlock::Enum { keep }), false))
    } else if chars_eq(&t, &k_end_enum) {
        match st {
            Some(ControlBlock::Enum { .. }) => Ok((None, false)),
            _ => Err(ControlError::EndEnumUnmatched { line }),
        }
    } else {
        Ok((st, control_block_include(&st)))
    }
}

/// `apply_control_blocks`: keeps the lines of a data file that its `#If`/`#Else`/`#EndIf`
/// and `#Enum`/`#EndEnum` blocks select, and drops the directive lines.
pub fn apply_control_blocks(
    content: &str,
    options: &Vec<RawPackOption>,
    selections: &Vec<PackSelection>,
) -> (r: Result<String, ControlError>)
    ensures
        match r {
            Ok(out) => control_blocks_spec(content@, options@, selections@) == Ok::<
                Seq<char>,
                ControlFault,
            >(out@),
            Err(e) => control_blocks_spec(content@, options@, selections@) == Err::<
                Seq<char>,
                ControlFault,
            >(e@),
        },
{
    let chars = chars_of(content);
    let pieces = split_lines_inclusive(&chars);
    let mut out: Vec<char> = Vec::new();
    let mut st: Option<ControlBlock> = None;
    let mut i: usize = 0;
    assert(views(pieces@).take(0) =~= Seq::<Seq<char>>::empty());
    while i < pieces.len()
        invariant
            i <= pieces.len(),
            views(pieces@) == split_lines_incl(content@),
            run_spec(views(pieces@).take(i as int), options@, selections@) == Ok::<
                (Option<ControlBlock>, Seq<char>),
                ControlFault,
            >((st, out@)),
        decreases pieces.len() - i,
    {
        let ghost pre = views(pieces@).take(i as int);
        assert(views(pieces@).take(i + 1).drop_last() =~= pre);
        assert(views(pieces@).take(i + 1).last() == pieces@[i as int]@);
        match control_step(st, &pieces[i], i + 1, options, selections) {
            Err(e) => {
                proof {
                    lemma_run_error_persists(views(pieces@), i + 1, options@, selections@);
                }
                return Err(e);
            },
            Ok((next, keep)) => {
                if keep {
                    out = concat_chars(&out, &pieces[i]);
                }
                st = next;
            },
        }
        i = i + 1;
    }
    assert(views(pieces@).take(i as int) =~= views(pieces@));
    match st {
        Some(b) => Err(ControlError::Unclosed { is_if: matches!(b, ControlBlock::If { .. }) }),
        None => Ok(string_of(out.as_slice())),
    }
}


/// Is this line a control directive?
pub open spec fn is_directive(piece: Seq<char>) -> bool {
    let t = trim(piece);
    ||| kw_if().is_prefix_of(t)
    ||| t == kw_else()
    ||| t == kw_end_if()
    ||| kw_enum().is_prefix_of(t)
    ||| t == kw_end_enum()
}

proof fn lemma_run_plain(p: Seq<Seq<char>>, opts: Seq<RawPackOption>, sels: Seq<PackSelection>)
    requires
        forall|k: int| 0 <= k < p.len() ==> !is_directive(#[trigger] p[k]),
    ensures
        run_spec(p, opts, sels) == Ok::<(Option<ControlBlock>, Seq<char>), ControlFault>(
            (None, concat_all(p)),
        ),
    decreases p.len(),
{
    if p.len() > 0 {
        let d = p.drop_last();
        assert forall|k: int| 0 <= k < d.len() implies !is_directive(#[trigger] d[k]) by {
            assert(d[k] == p[k]);
        }
        lemma_run_plain(d, opts, sels);
        assert(!is_directive(p[p.len() - 1]));
    }
}

/// Law: a data file without directive lines comes out of `apply_control_blocks`
/// unchanged, whatever the options and selections.
pub proof fn law_plain_data_file_unchanged(
    content: Seq<char>,
    opts: Seq<RawPackOption>,
    sels: Seq<PackSelection>,
)
    requires
        forall|k: int|
            0 <= k < split_lines_incl(content).len() ==> !is_directive(
                #[trigger] split_lines_incl(content)[k],
            ),
    ensures
        control_blocks_spec(content, opts, sels) == Ok::<Seq<char>, ControlFault>(content),
{
    lemma_run_plain(split_lines_incl(content), opts, sels);
    lemma_split_lines_incl(content);
}

/// Law: the type of a control option is compared without regard to ASCII case.
/// A directive naming a control option is refused as having the wrong type
/// exactly when the option's type, ASCII lower-cased, is not `bool` (for `#If`)
/// or `enum` (for `#Enum`); `Bool`, `BOOL` and `bool` all serve `#If`.
pub proof fn law_control_type_ignores_case(
    opts: Seq<RawPackOption>,
    name: Seq<char>,
    wants_enum: bool,
    line: usize,
    i: int,
)
    requires
        option_index(opts, name) == Some(i),
        opts[i].control,
    ensures
        (require_spec(opts, name, wants_enum, line) matches Err(ControlFault::WrongType { .. }))
            <==> crate::text::ascii_lower_seq(opts[i].option_type@) != (if wants_enum {
            seq!['e', 'n', 'u', 'm']
        } else {
            seq!['b', 'o', 'o', 'l']
        }),
        crate::text::ascii_lower_seq(opts[i].option_type@) == (if wants_enum {
            seq!['e', 'n', 'u', 'm']
        } else {
            seq!['b', 'o', 'o', 'l']
        }) ==> require_spec(opts, name, wants_enum, line) == Ok::<int, ControlFault>(i),
{
    let w = if wants_enum {
        seq!['e', 'n', 'u', 'm']
    } else {
        seq!['b', 'o', 'o', 'l']
    };
    assert(crate::text::ascii_lower_seq(w) =~= w);
}

} // verus!
