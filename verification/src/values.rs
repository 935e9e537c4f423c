use vstd::prelude::*;
use crate::model::{RawPackOption, TomlScalar, TomlValue, strs};
use crate::text::{
    chars_eq_ignore_case, chars_of, concat_chars, eq_ignore_case, split_char, split_chars,
    string_of, trim, trim_chars, views,
};

verus! {

/// The non-empty trimmed pieces, in order.
pub open spec fn trimmed_nonempty(p: Seq<Seq<char>>) -> Seq<Seq<char>>
    decreases p.len(),
{
    if p.len() == 0 {
        Seq::<Seq<char>>::empty()
    } else {
        let r = trimmed_nonempty(p.drop_last());
        let t = trim(p.last());
        if t.len() > 0 {
            r.push(t)
        } else {
            r
        }
    }
}

/// `normalize_list_values`: every entry split at commas, each piece trimmed, the empty
/// pieces dropped, all in order.
pub open spec fn list_values(raw: Seq<Seq<char>>) -> Seq<Seq<char>>
    decreases raw.len(),
{
    if raw.len() == 0 {
        Seq::<Seq<char>>::empty()
    } else {
        list_values(raw.drop_last()) + trimmed_nonempty(split_char(raw.last(), ','))
    }
}

/// A copy of a list of strings.
pub fn copy_strings(v: &Vec<String>) -> (r: Vec<String>)
    ensures
        strs(r@) == strs(v@),
{
    let mut r: Vec<String> = Vec::new();
    let mut i: usize = 0;
    while i < v.len()
        invariant
            i <= v.len(),
            r@.len() == i,
            forall|k: int| 0 <= k < i ==> (#[trigger] r@[k])@ == v@[k]@,
        decreases v.len() - i,
    {
        let c = v[i].clone();
        r.push(c);
        i = i + 1;
    }
    assert(strs(r@) =~= strs(v@));
    r
}

/// `n` copies of a string.
pub fn repeat_string(s: &String, n: usize) -> (r: Vec<String>)
    ensures
        strs(r@) == Seq::new(n as nat, |k: int| s@),
{
    let mut r: Vec<String> = Vec::new();
    let mut i: usize = 0;
    while i < n
        invariant
            i <= n,
            r@.len() == i,
            forall|k: int| 0 <= k < i ==> (#[trigger] r@[k])@ == s@,
        decreases n - i,
    {
        r.push(s.clone());
        i = i + 1;
    }
    assert(strs(r@) =~= Seq::new(n as nat, |k: int| s@));
    r
}

fn push_trimmed_pieces(out: &mut Vec<String>, raw: &String)
    ensures
        strs(final(out)@) == strs(old(out)@) + trimmed_nonempty(split_char(raw@, ',')),
{
    let chars = chars_of(raw.as_str());
    let parts = split_chars(&chars, ',');
    let ghost start = strs(out@);
    let mut i: usize = 0;
    assert(views(parts@).take(0) =~= Seq::<Seq<char>>::empty());
    assert(start + trimmed_nonempty(Seq::<Seq<char>>::empty()) =~= start);
    while i < parts.len()
        invariant
            i <= parts.len(),
            views(parts@) == split_char(chars@, ','),
            chars@ == raw@,
            strs(out@) == start + trimmed_nonempty(views(parts@).take(i as int)),
        decreases parts.len() - i,
    {
        assert(views(parts@).take(i + 1).drop_last() =~= views(parts@).take(i as int));
        assert(views(parts@).take(i + 1).last() == parts@[i as int]@);
        let t = trim_chars(&parts[i]);
        let ghost before = out@;
        if t.len() > 0 {
            out.push(string_of(t.as_slice()));
            proof {
                lemma_strs_push(before, out@.last());
                assert(out@ == before.push(out@.last()));
                assert(trimmed_nonempty(views(parts@).take(i + 1)) == trimmed_nonempty(
                    views(parts@).take(i as int),
                ).push(t@));
            }
            assert(strs(out@) =~= start + trimmed_nonempty(views(parts@).take(i + 1)));
        }
        i = i + 1;
    }
    assert(views(parts@).take(i as int) =~= views(parts@));
}

pub proof fn lemma_strs_push(v: Seq<String>, x: String)
    ensures
        strs(v.push(x)) == strs(v).push(x@),
{
    assert(strs(v.push(x)) =~= strs(v).push(x@));
}

/// `normalize_list_values`.
pub fn normalize_list_values(raw_list: &Vec<String>) -> (r: Vec<String>)
    ensures
        strs(r@) == list_values(strs(raw_list@)),
{
    let mut out: Vec<String> = Vec::new();
    let mut i: usize = 0;
    assert(strs(raw_list@).take(0) =~= Seq::<Seq<char>>::empty());
    while i < raw_list.len()
        invariant
            i <= raw_list.len(),
            strs(out@) == list_values(strs(raw_list@).take(i as int)),
        decreases raw_list.len() - i,
    {
        assert(strs(raw_list@).take(i + 1).drop_last() =~= strs(raw_list@).take(i as int));
        assert(strs(raw_list@).take(i + 1).last() == raw_list@[i as int]@);
        push_trimmed_pieces(&mut out, &raw_list[i]);
        i = i + 1;
    }
    assert(strs(raw_list@).take(i as int) =~= strs(raw_list@));
    out
}

/// `option_placeholders`: the option's placeholders, normalized.
pub fn option_placeholders(option: &RawPackOption) -> (r: Vec<String>)
    ensures
        strs(r@) == list_values(strs(option.placeholders@)),
{
    normalize_list_values(&option.placeholders)
}

/// `option_value_outputs`: the option's value output expressions, normalized.
pub fn option_value_outputs(option: &RawPackOption) -> (r: Vec<String>)
    ensures
        strs(r@) == list_values(strs(option.value_outputs@)),
{
    normalize_list_values(&option.value_outputs)
}

/// A results list whose length matches neither one nor the placeholders.
#[derive(Debug, Clone, Copy, PartialEq, Eq, Structural)]
pub struct CountMismatch {
    pub results: usize,
    pub placeholders: usize,
}

/// `bool_result_replacements`: the replacement for each placeholder. No configured
/// result gives the default for each; one result is used for each; otherwise there must
/// be one result per placeholder.
pub open spec fn bool_results_spec(
    placeholder_count: nat,
    configured: Seq<Seq<char>>,
    default_result: Seq<char>,
) -> Result<Seq<Seq<char>>, (nat, nat)> {
    let results = list_values(configured);
    if results.len() == 0 {
        Ok(Seq::new(placeholder_count, |k: int| default_result))
    } else if results.len() == 1 {
        Ok(Seq::new(placeholder_count, |k: int| results[0]))
    } else if results.len() != placeholder_count {
        Err((results.len(), placeholder_count))
    } else {
        Ok(results)
    }
}

pub fn bool_result_replacements(
    placeholders: &Vec<String>,
    configured_results: &Vec<String>,
    default_result: &str,
) -> (r: Result<Vec<String>, CountMismatch>)
    ensures
        match r {
            Ok(v) => bool_results_spec(
                placeholders@.len(),
                strs(configured_results@),
                default_result@,
            ) == Ok::<Seq<Seq<char>>, (nat, nat)>(strs(v@)),
            Err(e) => bool_results_spec(
                placeholders@.len(),
                strs(configured_results@),
                default_result@,
            ) == Err::<Seq<Seq<char>>, (nat, nat)>(
                (e.results as nat, e.placeholders as nat),
            ),
        },
{
    let results = normalize_list_values(configured_results);
    if results.len() == 0 {
        let d = String::from_str(default_result);
        return Ok(repeat_string(&d, placeholders.len()));
    }
    if results.len() == 1 {
        return Ok(repeat_string(&results[0], placeholders.len()));
    }
    if results.len() != placeholders.len() {
        return Err(CountMismatch { results: results.len(), placeholders: placeholders.len() });
    }
    Ok(results)
}

/// The digit character of `d` (below ten).
pub open spec fn digit_char(d: nat) -> char {
    ((d + 48) as u8) as char
}

/// The decimal text of `n`.
pub open spec fn decimal(n: nat) -> Seq<char>
    decreases n,
{
    if n < 10 {
        seq![digit_char(n)]
    } else {
        decimal(n / 10).push(digit_char(n % 10))
    }
}

/// The decimal text of `n`.
pub fn decimal_chars(n: u64) -> (r: Vec<char>)
    ensures
        r@ == decimal(n as nat),
    decreases n,
{
    let d: u8 = (n % 10) as u8;
    let c = (d + 48) as char;
    if n < 10 {
        let mut v: Vec<char> = Vec::new();
        v.push(c);
        assert(v@ =~= seq![digit_char(n as nat)]);
        v
    } else {
        let mut v = decimal_chars(n / 10);
        v.push(c);
        v
    }
}

/// An extra field of an option that is not a string or a list of strings.
#[derive(Debug, Clone, Copy, PartialEq, Eq, Structural)]
pub struct NotStringList;

/// The index of the first extra field named `name`, ignoring ASCII case.
pub open spec fn extra_index(extra: Seq<(String, TomlValue)>, name: Seq<char>) -> Option<int>
    decreases extra.len(),
{
    if extra.len() == 0 {
        None
    } else {
        match extra_index(extra.drop_last(), name) {
            Some(i) => Some(i),
            None => if eq_ignore_case(extra.last().0@, name) {
                Some(extra.len() - 1)
            } else {
                None
            },
        }
    }
}

proof fn lemma_extra_index(extra: Seq<(String, TomlValue)>, name: Seq<char>)
    ensures
        extra_index(extra, name) matches Some(i) ==> 0 <= i < extra.len(),
    decreases extra.len(),
{
    if extra.len() > 0 {
        lemma_extra_index(extra.drop_last(), name);
    }
}

/// The strings of a field value: a string, or an array whose items all are strings.
pub open spec fn string_list(v: TomlValue) -> Option<Seq<Seq<char>>> {
    match v {
        TomlValue::Scalar(TomlScalar::Text(t)) => Some(seq![t@]),
        TomlValue::Scalar(_) => None,
        TomlValue::Array(items) => if forall|k: int|
            0 <= k < items@.len() ==> (#[trigger] items@[k]) is Text {
            Some(
                items@.map_values(
                    |x: TomlScalar| match x {
                        TomlScalar::Text(t) => t@,
                        _ => Seq::<char>::empty(),
                    },
                ),
            )
        } else {
            None
        },
    }
}

/// `enum_indexed_field`: the field `prefix` + `index` of the option (the first one whose
/// name matches ignoring ASCII case), as a normalized list.
pub open spec fn indexed_field_spec(opt: RawPackOption, prefix: Seq<char>, index: nat) -> Result<
    Option<Seq<Seq<char>>>,
    NotStringList,
> {
    match extra_index(opt.extra@, prefix + decimal(index)) {
        None => Ok(None),
        Some(i) => match string_list(opt.extra@[i].1) {
            None => Err(NotStringList),
            Some(l) => Ok(Some(list_values(l))),
        },
    }
}

fn string_list_exec(v: &TomlValue) -> (r: Option<Vec<String>>)
    ensures
        match r {
            Some(l) => string_list(*v) == Some(strs(l@)),
            None => string_list(*v) is None,
        },
{
    match v {
        TomlValue::Scalar(TomlScalar::Text(t)) => {
            let mut l: Vec<String> = Vec::new();
            l.push(t.clone());
            assert(strs(l@) =~= seq![t@]);
            Some(l)
        },
        TomlValue::Scalar(_) => None,
        TomlValue::Array(items) => {
            let mut l: Vec<String> = Vec::new();
            let mut i: usize = 0;
            while i < items.len()
                invariant
                    *v == TomlValue::Array(*items),
                    i <= items.len(),
                    l@.len() == i,
                    forall|k: int| 0 <= k < i ==> (#[trigger] items@[k]) is Text,
                    forall|k: int|
                        0 <= k < i ==> (#[trigger] l@[k])@ == match items@[k] {
                            TomlScalar::Text(t) => t@,
                            _ => Seq::<char>::empty(),
                        },
                decreases items.len() - i,
            {
                match &items[i] {
                    TomlScalar::Text(t) => {
                        l.push(t.clone());
                    },
                    _ => {
                        assert(!(items@[i as int] is Text));
                        return None;
                    },
                }
                i = i + 1;
            }
            let ghost m = items@.map_values(
                |x: TomlScalar| match x {
                    TomlScalar::Text(t) => t@,
                    _ => Seq::<char>::empty(),
                },
            );
            assert(strs(l@) =~= m);
            Some(l)
        },
    }
}

pub fn enum_indexed_field(option: &RawPackOption, prefix: &str, index: usize) -> (r: Result<
    Option<Vec<String>>,
    NotStringList,
>)
    ensures
        match r {
            Ok(Some(l)) => indexed_field_spec(*option, prefix@, index as nat) == Ok::<
                Option<Seq<Seq<char>>>,
                NotStringList,
            >(Some(strs(l@))),
            Ok(None) => indexed_field_spec(*option, prefix@, index as nat) == Ok::<
                Option<Seq<Seq<char>>>,
                NotStringList,
            >(None),
            Err(e) => indexed_field_spec(*option, prefix@, index as nat) == Err::<
                Option<Seq<Seq<char>>>,
                NotStringList,
            >(e),
        },
{
    let p = chars_of(prefix);
    let digits = decimal_chars(index as u64);
    let field = concat_chars(&p, &digits);
    let mut i: usize = 0;
    let mut found: Option<usize> = None;
    assert(option.extra@.take(0) =~= Seq::<(String, TomlValue)>::empty());
    while i < option.extra.len() && found.is_none()
        invariant
            i <= option.extra.len(),
            found is None ==> extra_index(option.extra@.take(i as int), field@) is None,
            found matches Some(k) ==> extra_index(option.extra@, field@) == Some(k as int),
        decreases option.extra.len() - i,
    {
        assert(option.extra@.take(i + 1).drop_last() =~= option.extra@.take(i as int));
        let key = chars_of(option.extra[i].0.as_str());
        if chars_eq_ignore_case(&key, &field) {
            found = Some(i);
            proof {
                assert(extra_index(option.extra@.take(i + 1), field@) == Some(i as int));
                lemma_extra_index_prefix(option.extra@, field@, i as int);
            }
        }
        i = i + 1;
    }
    if found.is_none() {
        assert(option.extra@.take(i as int) =~= option.extra@);
    }
    proof {
        lemma_extra_index(option.extra@, field@);
    }
    match found {
        None => Ok(None),
        Some(k) => match string_list_exec(&option.extra[k].1) {
            None => Err(NotStringList),
            Some(l) => Ok(Some(normalize_list_values(&l))),
        },
    }
}

proof fn lemma_extra_index_prefix(extra: Seq<(String, TomlValue)>, name: Seq<char>, i: int)
    requires
        0 <= i < extra.len(),
        extra_index(extra.take(i + 1), name) == Some(i),
    ensures
        extra_index(extra, name) == Some(i),
    decreases extra.len() - i,
{
    if i + 1 == extra.len() {
        assert(extra.take(i + 1) =~= extra);
    } else {
        lemma_extra_index_prefix_grow(extra, name, i, extra.len() as int);
        assert(extra.take(extra.len() as int) =~= extra);
    }
}

proof fn lemma_extra_index_prefix_grow(
    extra: Seq<(String, TomlValue)>,
    name: Seq<char>,
    i: int,
    j: int,
)
    requires
        0 <= i < j <= extra.len(),
        extra_index(extra.take(i + 1), name) == Some(i),
    ensures
        extra_index(extra.take(j), name) == Some(i),
    decreases j - i,
{
    if j > i + 1 {
        lemma_extra_index_prefix_grow(extra, name, i, j - 1);
        assert(extra.take(j).drop_last() =~= extra.take(j - 1));
    }
}

} // verus!

verus! {

/// The values and results that one placeholder of an enum option takes.
#[derive(Debug, Clone)]
pub struct EnumOptionSet {
    pub values: Vec<String>,
    pub results: Vec<String>,
}

/// Why the per-placeholder results of an enum option are refused.
#[derive(Debug, Clone, Copy, PartialEq, Eq, Structural)]
pub enum EnumSetError {
    /// `Results{index}` is neither a string nor a list of strings.
    Field { index: usize },
    /// Some `ResultsN` is given but `Results{index}` is not.
    MissingResults { index: usize },
    /// `Results{index}` has a different number of items than `Values`.
    ResultsCount { index: usize, results: usize, values: usize },
}

pub open spec fn results_prefix() -> Seq<char> {
    seq!['R', 'e', 's', 'u', 'l', 't', 's']
}

/// Scanning `Results1` .. `Results{count}` from `k`: is one of them given? An unreadable
/// field met first is an error.
pub open spec fn scan_indexed(opt: RawPackOption, k: nat, count: nat) -> Result<bool, usize>
    decreases count + 1 - k,
{
    if k == 0 || k > count {
        Ok(false)
    } else {
        match indexed_field_spec(opt, results_prefix(), k) {
            Err(_) => Err(k as usize),
            Ok(Some(_)) => Ok(true),
            Ok(None) => scan_indexed(opt, k + 1, count),
        }
    }
}

/// The results of `Results{k}` .. `Results{count}`, each checked against `Values`.
pub open spec fn indexed_sets(opt: RawPackOption, k: nat, count: nat) -> Result<
    Seq<Seq<Seq<char>>>,
    EnumSetError,
>
    decreases count + 1 - k,
{
    if k == 0 || k > count {
        Ok(Seq::<Seq<Seq<char>>>::empty())
    } else {
        match indexed_field_spec(opt, results_prefix(), k) {
            Err(_) => Err(EnumSetError::Field { index: k as usize }),
            Ok(None) => Err(EnumSetError::MissingResults { index: k as usize }),
            Ok(Some(r)) => if r.len() != opt.values@.len() {
                Err(
                    EnumSetError::ResultsCount {
                        index: k as usize,
                        results: r.len() as usize,
                        values: opt.values@.len() as usize,
                    },
                )
            } else {
                match indexed_sets(opt, k + 1, count) {
                    Ok(rest) => Ok(seq![r] + rest),
                    Err(e) => Err(e),
                }
            },
        }
    }
}

/// `enum_option_sets`: the results for each placeholder. Without any `ResultsN` field,
/// every placeholder takes `Results`; with one, each takes its own `ResultsN`.
pub open spec fn enum_sets_spec(opt: RawPackOption, count: nat) -> Result<
    Seq<Seq<Seq<char>>>,
    EnumSetError,
> {
    match scan_indexed(opt, 1, count) {
        Err(k) => Err(EnumSetError::Field { index: k }),
        Ok(false) => Ok(Seq::new(count, |i: int| strs(opt.results@))),
        Ok(true) => indexed_sets(opt, 1, count),
    }
}

pub open spec fn set_results(v: Seq<EnumOptionSet>) -> Seq<Seq<Seq<char>>> {
    v.map_values(|s: EnumOptionSet| strs(s.results@))
}

pub fn enum_option_sets(option: &RawPackOption, placeholder_count: usize) -> (r: Result<
    Vec<EnumOptionSet>,
    EnumSetError,
>)
    ensures
        match r {
            Ok(v) => {
                &&& enum_sets_spec(*option, placeholder_count as nat) == Ok::<
                    Seq<Seq<Seq<char>>>,
                    EnumSetError,
                >(set_results(v@))
                &&& forall|k: int|
                    0 <= k < v@.len() ==> strs((#[trigger] v@[k]).values@) == strs(option.values@)
            },
            Err(e) => enum_sets_spec(*option, placeholder_count as nat) == Err::<
                Seq<Seq<Seq<char>>>,
                EnumSetError,
            >(e),
        },
{
    let prefix = "Results";
    let mut uses_indexed = false;
    let mut index: usize = 0;
    assert(prefix@ == results_prefix()) by {
        reveal_strlit("Results");
    }
    while index < placeholder_count && !uses_indexed
        invariant
            index <= placeholder_count,
            prefix@ == results_prefix(),
            !uses_indexed ==> scan_indexed(*option, 1, placeholder_count as nat) == scan_indexed(
                *option,
                (index + 1) as nat,
                placeholder_count as nat,
            ),
            uses_indexed ==> scan_indexed(*option, 1, placeholder_count as nat) == Ok::<
                bool,
                usize,
            >(true),
        decreases placeholder_count - index,
    {
        let k = index + 1;
        match enum_indexed_field(option, prefix, k) {
            Err(_) => {
                return Err(EnumSetError::Field { index: k });
            },
            Ok(Some(_)) => {
                uses_indexed = true;
            },
            Ok(None) => {},
        }
        index = index + 1;
    }
    if !uses_indexed {
        let mut sets: Vec<EnumOptionSet> = Vec::new();
        let mut i: usize = 0;
        while i < placeholder_count
            invariant
                i <= placeholder_count,
                sets@.len() == i,
                forall|k: int|
                    0 <= k < i ==> strs((#[trigger] sets@[k]).values@) == strs(option.values@)
                        && strs(sets@[k].results@) == strs(option.results@),
            decreases placeholder_count - i,
        {
            sets.push(
                EnumOptionSet {
                    values: copy_strings(&option.values),
                    results: copy_strings(&option.results),
                },
            );
            i = i + 1;
        }
        assert(set_results(sets@) =~= Seq::new(
            placeholder_count as nat,
            |i: int| strs(option.results@),
        ));
        return Ok(sets);
    }
    let mut sets: Vec<EnumOptionSet> = Vec::new();
    let mut index: usize = 0;
    while index < placeholder_count
        invariant
            index <= placeholder_count,
            prefix@ == results_prefix(),
            scan_indexed(*option, 1, placeholder_count as nat) == Ok::<bool, usize>(true),
            forall|k: int|
                0 <= k < sets@.len() ==> strs((#[trigger] sets@[k]).values@) == strs(
                    option.values@,
                ),
            indexed_sets(*option, 1, placeholder_count as nat) == match indexed_sets(
                *option,
                (index + 1) as nat,
                placeholder_count as nat,
            ) {
                Ok(rest) => Ok(set_results(sets@) + rest),
                Err(e) => Err(e),
            },
        decreases placeholder_count - index,
    {
        let k = index + 1;
        let results = match enum_indexed_field(option, prefix, k) {
            Err(_) => {
                return Err(EnumSetError::Field { index: k });
            },
            Ok(None) => {
                return Err(EnumSetError::MissingResults { index: k });
            },
            Ok(Some(r)) => r,
        };
        if results.len() != option.values.len() {
            return Err(
                EnumSetError::ResultsCount {
                    index: k,
                    results: results.len(),
                    values: option.values.len(),
                },
            );
        }
        let ghost before = sets@;
        sets.push(EnumOptionSet { values: copy_strings(&option.values), results });
        assert(set_results(sets@) =~= set_results(before) + seq![strs(results@)]);
        proof {
            let r = strs(results@);
            assert(indexed_field_spec(*option, results_prefix(), k as nat) == Ok::<
                Option<Seq<Seq<char>>>,
                NotStringList,
            >(Some(r)));
            match indexed_sets(*option, (k + 1) as nat, placeholder_count as nat) {
                Ok(rest) => {
                    assert(indexed_sets(*option, k as nat, placeholder_count as nat) == Ok::<
                        Seq<Seq<Seq<char>>>,
                        EnumSetError,
                    >(seq![r] + rest));
                    assert(set_results(before) + (seq![r] + rest) =~= set_results(sets@) + rest);
                },
                Err(e) => {},
            }
        }
        index = index + 1;
    }
    assert(set_results(sets@) + Seq::<Seq<Seq<char>>>::empty() =~= set_results(sets@));
    Ok(sets)
}


proof fn lemma_indexed_sets_len(opt: RawPackOption, k: nat, count: nat)
    requires
        1 <= k <= count + 1,
    ensures
        indexed_sets(opt, k, count) matches Ok(r) ==> r.len() == count + 1 - k,
    decreases count + 1 - k,
{
    if k <= count {
        lemma_indexed_sets_len(opt, k + 1, count);
    }
}

/// The results of an enum option come one per placeholder.
pub proof fn lemma_enum_sets_len(opt: RawPackOption, count: nat)
    ensures
        enum_sets_spec(opt, count) matches Ok(r) ==> r.len() == count,
{
    lemma_indexed_sets_len(opt, 1, count);
}

} // verus!
