use vstd::prelude::*;
use vstd::utf8::encode_utf8;
use vstd::string::StringSliceAdditionalSpecFns;
use crate::model::{RawPackOption, SelView, SelectionValue, strs};
use crate::text::{chars_eq, chars_of, lowercase_chars, string_of, unicode_lowercase};
use crate::value_expr::{Division, Expr, ParseFailure, SyntaxError, parse_spec, parse_value_output};
use crate::values::{
    CountMismatch, EnumSetError, bool_result_replacements, bool_results_spec, decimal,
    decimal_chars, enum_option_sets, enum_sets_spec, list_values, option_placeholders,
    option_value_outputs, set_results,
};

verus! {

/// What a placeholder is replaced by: a text, or the value of a value output
/// expression evaluated with `var` set to `value` (computed in floating point by the
/// caller; `index` is the expression's position in `valueOutputs`).
#[derive(Debug)]
pub enum Replacement {
    Text(String),
    Computed { parsed: Result<Expr, ParseFailure>, value: i64, index: usize },
}

pub enum RepView {
    Text(Seq<char>),
    Computed {
        parsed: Result<Expr, (SyntaxError, Seq<Division>)>,
        value: i64,
        index: usize,
    },
}

impl View for Replacement {
    type V = RepView;

    open spec fn view(&self) -> RepView {
        match self {
            Replacement::Text(t) => RepView::Text(t@),
            Replacement::Computed { parsed, value, index } => RepView::Computed {
                parsed: match parsed {
                    Ok(e) => Ok(*e),
                    Err(f) => Err((f.error, f.divisions@)),
                },
                value: *value,
                index: *index,
            },
        }
    }
}

/// Why an option's placeholders cannot be resolved.
#[derive(Debug)]
pub enum OptionError {
    MissingPlaceholders,
    BoolValueOutputs,
    NeedBool,
    /// `TrueResult` (when `true_field`) or `FalseResult` does not fit the placeholders.
    BoolResults { true_field: bool, mismatch: CountMismatch },
    NeedInt,
    BelowMin { min: i64 },
    AboveMax { max: i64 },
    EnumValueOutputs,
    NeedEnumIndex,
    NegativeEnumIndex,
    EnumSets(EnumSetError),
    EnumIndexOutOfRange,
    /// The option type, lower-cased, is none of `bool`, `int`, `enum`.
    UnsupportedType { lowered: String },
}

pub enum OptionFault {
    MissingPlaceholders,
    BoolValueOutputs,
    NeedBool,
    BoolResults { true_field: bool, results: nat, placeholders: nat },
    NeedInt,
    BelowMin { min: i64 },
    AboveMax { max: i64 },
    EnumValueOutputs,
    NeedEnumIndex,
    NegativeEnumIndex,
    EnumSets(EnumSetError),
    EnumIndexOutOfRange,
    UnsupportedType { lowered: Seq<char> },
}

impl View for OptionError {
    type V = OptionFault;

    open spec fn view(&self) -> OptionFault {
        match self {
            OptionError::MissingPlaceholders => OptionFault::MissingPlaceholders,
            OptionError::BoolValueOutputs => OptionFault::BoolValueOutputs,
            OptionError::NeedBool => OptionFault::NeedBool,
            OptionError::BoolResults { true_field, mismatch } => OptionFault::BoolResults {
                true_field: *true_field,
                results: mismatch.results as nat,
                placeholders: mismatch.placeholders as nat,
            },
            OptionError::NeedInt => OptionFault::NeedInt,
            OptionError::BelowMin { min } => OptionFault::BelowMin { min: *min },
            OptionError::AboveMax { max } => OptionFault::AboveMax { max: *max },
            OptionError::EnumValueOutputs => OptionFault::EnumValueOutputs,
            OptionError::NeedEnumIndex => OptionFault::NeedEnumIndex,
            OptionError::NegativeEnumIndex => OptionFault::NegativeEnumIndex,
            OptionError::EnumSets(e) => OptionFault::EnumSets(*e),
            OptionError::EnumIndexOutOfRange => OptionFault::EnumIndexOutOfRange,
            OptionError::UnsupportedType { lowered } => OptionFault::UnsupportedType {
                lowered: lowered@,
            },
        }
    }
}

pub open spec fn word_bool() -> Seq<char> {
    seq!['b', 'o', 'o', 'l']
}

pub open spec fn word_int() -> Seq<char> {
    seq!['i', 'n', 't']
}

pub open spec fn word_enum() -> Seq<char> {
    seq!['e', 'n', 'u', 'm']
}

pub open spec fn word_true() -> Seq<char> {
    seq!['t', 'r', 'u', 'e']
}

pub open spec fn word_false() -> Seq<char> {
    seq!['f', 'a', 'l', 's', 'e']
}

/// The decimal text of a signed integer (`i64::to_string`).
pub open spec fn signed_decimal(v: i64) -> Seq<char> {
    if v < 0 {
        seq!['-'] + decimal((-v) as nat)
    } else {
        decimal(v as nat)
    }
}

pub fn signed_decimal_chars(v: i64) -> (r: Vec<char>)
    ensures
        r@ == signed_decimal(v),
{
    if v < 0 {
        let mag: u64 = (-(v as i128)) as u64;
        let digits = decimal_chars(mag);
        let mut out: Vec<char> = Vec::new();
        out.push('-');
        let mut i: usize = 0;
        while i < digits.len()
            invariant
                i <= digits.len(),
                out@ == seq!['-'] + digits@.take(i as int),
            decreases digits.len() - i,
        {
            out.push(digits[i]);
            i = i + 1;
            assert(out@ =~= seq!['-'] + digits@.take(i as int));
        }
        assert(digits@.take(i as int) =~= digits@);
        out
    } else {
        decimal_chars(v as u64)
    }
}

/// The replacements for the placeholders of an option, given its selected value.
pub open spec fn resolve_spec(opt: RawPackOption, sel: SelView) -> Result<
    Seq<(Seq<char>, RepView)>,
    OptionFault,
> {
    let ph = list_values(strs(opt.placeholders@));
    let outs = list_values(strs(opt.value_outputs@));
    let ty = unicode_lowercase(opt.option_type@);
    if ph.len() == 0 {
        Err(OptionFault::MissingPlaceholders)
    } else if ty == word_bool() {
        if outs.len() > 0 {
            Err(OptionFault::BoolValueOutputs)
        } else {
            match sel {
                SelView::Bool(b) => match bool_results_spec(
                    ph.len(),
                    strs(
                        if b {
                            opt.true_results@
                        } else {
                            opt.false_results@
                        },
                    ),
                    if b {
                        word_true()
                    } else {
                        word_false()
                    },
                ) {
                    Err((r, p)) => Err(
                        OptionFault::BoolResults { true_field: b, results: r, placeholders: p },
                    ),
                    Ok(reps) => Ok(Seq::new(ph.len(), |k: int| (ph[k], RepView::Text(reps[k])))),
                },
                _ => Err(OptionFault::NeedBool),
            }
        }
    } else if ty == word_int() {
        match sel {
            SelView::Int(v) => if opt.min is Some && v < opt.min->0 {
                Err(OptionFault::BelowMin { min: opt.min->0 })
            } else if opt.max is Some && v > opt.max->0 {
                Err(OptionFault::AboveMax { max: opt.max->0 })
            } else {
                Ok(
                    Seq::new(
                        ph.len(),
                        |k: int|
                            (
                                ph[k],
                                if k < outs.len() {
                                    RepView::Computed {
                                        parsed: parse_spec(encode_utf8(outs[k])),
                                        value: v,
                                        index: k as usize,
                                    }
                                } else {
                                    RepView::Text(signed_decimal(v))
                                },
                            ),
                    ),
                )
            },
            _ => Err(OptionFault::NeedInt),
        }
    } else if ty == word_enum() {
        if outs.len() > 0 {
            Err(OptionFault::EnumValueOutputs)
        } else {
            match sel {
                SelView::Int(n) => if n < 0 {
                    Err(OptionFault::NegativeEnumIndex)
                } else {
                    match enum_sets_spec(opt, ph.len()) {
                        Err(e) => Err(OptionFault::EnumSets(e)),
                        Ok(sets) => if n >= opt.values@.len() {
                            Err(OptionFault::EnumIndexOutOfRange)
                        } else {
                            Ok(
                                Seq::new(
                                    ph.len(),
                                    |k: int|
                                        (
                                            ph[k],
                                            RepView::Text(
                                                if n < sets[k].len() {
                                                    sets[k][n as int]
                                                } else {
                                                    opt.values@[n as int]@
                                                },
                                            ),
                                        ),
                                ),
                            )
                        },
                    }
                },
                _ => Err(OptionFault::NeedEnumIndex),
            }
        }
    } else {
        Err(OptionFault::UnsupportedType { lowered: ty })
    }
}

pub open spec fn pairs_view(v: Seq<(String, Replacement)>) -> Seq<(Seq<char>, RepView)> {
    v.map_values(|p: (String, Replacement)| (p.0@, p.1@))
}

/// `resolve_option_replacements`: the replacement for each placeholder of an option.
pub fn resolve_option_replacements(option: &RawPackOption, selection: &SelectionValue) -> (r:
    Result<Vec<(String, Replacement)>, OptionError>)
    ensures
        match r {
            Ok(v) => resolve_spec(*option, selection@) == Ok::<
                Seq<(Seq<char>, RepView)>,
                OptionFault,
            >(pairs_view(v@)),
            Err(e) => resolve_spec(*option, selection@) == Err::<
                Seq<(Seq<char>, RepView)>,
                OptionFault,
            >(e@),
        },
{
    let placeholders = option_placeholders(option);
    if placeholders.len() == 0 {
        return Err(OptionError::MissingPlaceholders);
    }
    let outputs = option_value_outputs(option);
    let ty_chars = chars_of(option.option_type.as_str());
    let ty = lowercase_chars(&ty_chars);
    let w_bool = vec!['b', 'o', 'o', 'l'];
    let w_int = vec!['i', 'n', 't'];
    let w_enum = vec!['e', 'n', 'u', 'm'];
    assert(w_bool@ == word_bool());
    assert(w_int@ == word_int());
    assert(w_enum@ == word_enum());
    let ghost ph = strs(placeholders@);
    if chars_eq(&ty, &w_bool) {
        if outputs.len() > 0 {
            return Err(OptionError::BoolValueOutputs);
        }
        let b = match selection {
            SelectionValue::Bool(b) => *b,
            _ => {
                return Err(OptionError::NeedBool);
            },
        };
        let default_word = if b {
            vec!['t', 'r', 'u', 'e']
        } else {
            vec!['f', 'a', 'l', 's', 'e']
        };
        assert(default_word@ == if b {
            word_true()
        } else {
            word_false()
        });
        let default_text = string_of(default_word.as_slice());
        let configured = if b {
            &option.true_results
        } else {
            &option.false_results
        };
        let reps = match bool_result_replacements(&placeholders, configured, default_text.as_str()) {
            Ok(v) => v,
            Err(mismatch) => {
                return Err(OptionError::BoolResults { true_field: b, mismatch });
            },
        };
        assert(strs(reps@).len() == reps@.len());
        assert(strs(reps@).len() == placeholders@.len());
        let mut out: Vec<(String, Replacement)> = Vec::new();
        let mut k: usize = 0;
        while k < placeholders.len()
            invariant
                k <= placeholders.len(),
                reps@.len() == placeholders@.len(),
                out@.len() == k,
                forall|j: int|
                    0 <= j < k ==> (#[trigger] out@[j]).0@ == placeholders@[j]@ && out@[j].1@
                        == RepView::Text(reps@[j]@),
            decreases placeholders.len() - k,
        {
            out.push((placeholders[k].clone(), Replacement::Text(reps[k].clone())));
            k = k + 1;
        }
        let ghost expected = Seq::new(
            ph.len(),
            |j: int| (ph[j], RepView::Text(strs(reps@)[j])),
        );
        assert(pairs_view(out@) =~= expected);
        return Ok(out);
    }
    if chars_eq(&ty, &w_int) {
        let v = match selection {
            SelectionValue::Int(v) => *v,
            _ => {
                return Err(OptionError::NeedInt);
            },
        };
        if let Some(m) = option.min {
            if v < m {
                return Err(OptionError::BelowMin { min: m });
            }
        }
        if let Some(m) = option.max {
            if v > m {
                return Err(OptionError::AboveMax { max: m });
            }
        }
        let text = string_of(signed_decimal_chars(v).as_slice());
        let mut out: Vec<(String, Replacement)> = Vec::new();
        let mut k: usize = 0;
        while k < placeholders.len()
            invariant
                k <= placeholders.len(),
                out@.len() == k,
                text@ == signed_decimal(v),
                forall|j: int|
                    0 <= j < k ==> (#[trigger] out@[j]).0@ == placeholders@[j]@ && out@[j].1@
                        == if j < outputs@.len() {
                        RepView::Computed {
                            parsed: parse_spec(encode_utf8(outputs@[j]@)),
                            value: v,
                            index: j as usize,
                        }
                    } else {
                        RepView::Text(signed_decimal(v))
                    },
            decreases placeholders.len() - k,
        {
            let rep = if k < outputs.len() {
                let parsed = parse_value_output(outputs[k].as_str());
                Replacement::Computed { parsed, value: v, index: k }
            } else {
                Replacement::Text(text.clone())
            };
            out.push((placeholders[k].clone(), rep));
            k = k + 1;
        }
        let ghost outs = strs(outputs@);
        let ghost expected = Seq::new(
            ph.len(),
            |j: int|
                (
                    ph[j],
                    if j < outs.len() {
                        RepView::Computed {
                            parsed: parse_spec(encode_utf8(outs[j])),
                            value: v,
                            index: j as usize,
                        }
                    } else {
                        RepView::Text(signed_decimal(v))
                    },
                ),
        );
        assert(pairs_view(out@) =~= expected);
        return Ok(out);
    }
    if chars_eq(&ty, &w_enum) {
        if outputs.len() > 0 {
            return Err(OptionError::EnumValueOutputs);
        }
        let n = match selection {
            SelectionValue::Int(n) => *n,
            _ => {
                return Err(OptionError::NeedEnumIndex);
            },
        };
        if n < 0 {
            return Err(OptionError::NegativeEnumIndex);
        }
        let sets = match enum_option_sets(option, placeholders.len()) {
            Ok(s) => s,
            Err(e) => {
                return Err(OptionError::EnumSets(e));
            },
        };
        if (n as u64) >= (option.values.len() as u64) {
            return Err(OptionError::EnumIndexOutOfRange);
        }
        let idx = n as usize;
        proof {
            crate::values::lemma_enum_sets_len(*option, placeholders@.len());
            assert(set_results(sets@).len() == placeholders@.len());
        }
        let mut out: Vec<(String, Replacement)> = Vec::new();
        let mut k: usize = 0;
        while k < placeholders.len()
            invariant
                k <= placeholders.len(),
                sets@.len() == placeholders@.len(),
                idx < option.values@.len(),
                forall|j: int|
                    0 <= j < sets@.len() ==> strs((#[trigger] sets@[j]).values@) == strs(
                        option.values@,
                    ),
                out@.len() == k,
                forall|j: int|
                    0 <= j < k ==> (#[trigger] out@[j]).0@ == placeholders@[j]@ && out@[j].1@
                        == RepView::Text(
                        if idx < sets@[j].results@.len() {
                            sets@[j].results@[idx as int]@
                        } else {
                            option.values@[idx as int]@
                        },
                    ),
            decreases placeholders.len() - k,
        {
            let set = &sets[k];
            let text = if idx < set.results.len() {
                set.results[idx].clone()
            } else {
                assert(strs(set.values@)[idx as int] == strs(option.values@)[idx as int]);
                set.values[idx].clone()
            };
            out.push((placeholders[k].clone(), Replacement::Text(text)));
            k = k + 1;
        }
        let ghost sr = set_results(sets@);
        let ghost expected = Seq::new(
            ph.len(),
            |j: int|
                (
                    ph[j],
                    RepView::Text(
                        if n < sr[j].len() {
                            sr[j][n as int]
                        } else {
                            option.values@[n as int]@
                        },
                    ),
                ),
        );
        assert(pairs_view(out@) =~= expected);
        return Ok(out);
    }
    Err(OptionError::UnsupportedType { lowered: string_of(ty.as_slice()) })
}

/// Law: a `bool` option's placeholders take the configured result of the
/// selected side: with one `TrueResult` (for true) or `FalseResult` (for false)
/// every placeholder gets it; with one per placeholder, each gets its own; with
/// none, each gets the text `true` or `false`.
pub proof fn law_bool_results_follow_selection(opt: RawPackOption, b: bool)
    requires
        unicode_lowercase(opt.option_type@) == seq!['b', 'o', 'o', 'l'],
        list_values(strs(opt.value_outputs@)).len() == 0,
        list_values(strs(opt.placeholders@)).len() > 0,
        ({
            let res = list_values(strs(if b { opt.true_results@ } else { opt.false_results@ }));
            res.len() <= 1 || res.len() == list_values(strs(opt.placeholders@)).len()
        }),
    ensures
        ({
            let ph = list_values(strs(opt.placeholders@));
            let res = list_values(strs(if b { opt.true_results@ } else { opt.false_results@ }));
            resolve_spec(opt, SelView::Bool(b)) matches Ok(reps) && reps.len() == ph.len() && (
            forall|k: int|
                0 <= k < ph.len() ==> #[trigger] reps[k] == (
                    ph[k],
                    RepView::Text(
                        if res.len() == 0 {
                            if b {
                                seq!['t', 'r', 'u', 'e']
                            } else {
                                seq!['f', 'a', 'l', 's', 'e']
                            }
                        } else if res.len() == 1 {
                            res[0]
                        } else {
                            res[k]
                        },
                    ),
                ))
        }),
{
    assert(word_bool() == seq!['b', 'o', 'o', 'l']);
    assert(word_true() == seq!['t', 'r', 'u', 'e']);
    assert(word_false() == seq!['f', 'a', 'l', 's', 'e']);
}

} // verus!
