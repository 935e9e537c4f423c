use vstd::prelude::*;
use crate::model::{PresetSummary, strs};
use crate::paths::{display_path, simplify_for_display, slashed, slashed_chars, PathStyle};
use crate::text::{chars_eq, chars_eq_ignore_case, chars_of, eq_ignore_case, string_of, trim, trim_chars};
use crate::values::{decimal, decimal_chars};

verus! {

// ----- ordering texts ---------------------------------------------------------

/// `<` on texts, as `String`'s `Ord` orders them (by code point, then length).
pub open spec fn text_less(a: Seq<char>, b: Seq<char>) -> bool
    decreases a.len(),
{
    if a.len() == 0 {
        b.len() > 0
    } else if b.len() == 0 {
        false
    } else if (a[0] as u32) < (b[0] as u32) {
        true
    } else if a[0] == b[0] {
        text_less(a.drop_first(), b.drop_first())
    } else {
        false
    }
}

/// `a < b` on texts.
pub fn chars_less(a: &Vec<char>, b: &Vec<char>) -> (r: bool)
    ensures
        r == text_less(a@, b@),
{
    let mut i: usize = 0;
    assert(a@.skip(0) =~= a@);
    assert(b@.skip(0) =~= b@);
    while i < a.len() && i < b.len() && a[i] == b[i]
        invariant
            i <= a.len(),
            i <= b.len(),
            text_less(a@, b@) == text_less(a@.skip(i as int), b@.skip(i as int)),
        decreases a.len() - i,
    {
        assert(a@.skip(i as int).drop_first() =~= a@.skip(i + 1));
        assert(b@.skip(i as int).drop_first() =~= b@.skip(i + 1));
        i = i + 1;
    }
    if i == a.len() {
        return i < b.len();
    }
    if i == b.len() {
        return false;
    }
    (a[i] as u32) < (b[i] as u32)
}

// ----- presets ------------------------------------------------------------------

/// What a preset's `entry.toml` holds under `[Info]`: its `id` and `name` where
/// they are strings.
#[derive(Debug)]
pub struct PresetInfo {
    pub id: Option<String>,
    pub name: Option<String>,
}

/// Why a preset directory is not a preset.
#[derive(Debug, Clone, Copy, PartialEq, Eq)]
pub enum PresetError {
    /// `entry.toml` has no `[Info]` table.
    MissingInfo,
    /// `[Info]` has no non-blank `id`.
    MissingId,
}

/// The summary of a preset: its trimmed id,
/// which must not be blank; its trimmed name, else its id; its directory as
/// shown to the user.
pub fn read_preset_summary(info: &Option<PresetInfo>, preset_dir: &str, style: PathStyle) -> (r: Result<
    PresetSummary,
    PresetError,
>)
    ensures
        match r {
            Ok(p) => info matches Some(i) && i.id matches Some(id) && trim(id@).len() > 0
                && p.id@ == trim(id@) && p.name@ == (match i.name {
                Some(n) => if trim(n@).len() > 0 {
                    trim(n@)
                } else {
                    trim(id@)
                },
                None => trim(id@),
            }) && p.path@ == display_path(preset_dir@, style),
            Err(PresetError::MissingInfo) => info is None,
            Err(PresetError::MissingId) => info matches Some(i) && match i.id {
                Some(id) => trim(id@).len() == 0,
                None => true,
            },
        },
{
    let i = match info {
        None => {
            return Err(PresetError::MissingInfo);
        },
        Some(i) => i,
    };
    let id = match &i.id {
        None => {
            return Err(PresetError::MissingId);
        },
        Some(s) => trim_chars(&chars_of(s.as_str())),
    };
    if id.len() == 0 {
        return Err(PresetError::MissingId);
    }
    let name = match &i.name {
        Some(n) => {
            let t = trim_chars(&chars_of(n.as_str()));
            if t.len() > 0 {
                t
            } else {
                crate::text::slice_chars(&id, 0, id.len())
            }
        },
        None => crate::text::slice_chars(&id, 0, id.len()),
    };
    assert(id@.subrange(0, id@.len() as int) =~= id@);
    Ok(
        PresetSummary {
            id: string_of(id.as_slice()),
            name: string_of(name.as_slice()),
            path: simplify_for_display(preset_dir, style),
        },
    )
}

pub open spec fn entry_file_name() -> Seq<char> {
    seq!['e', 'n', 't', 'r', 'y', '.', 't', 'o', 'm', 'l']
}

/// Is this file the preset's own `entry.toml` (any ASCII case), which is not
/// copied into instances?
pub fn is_preset_entry_file(file_name: &str) -> (r: bool)
    ensures
        r == eq_ignore_case(file_name@, entry_file_name()),
{
    let e = vec!['e', 'n', 't', 'r', 'y', '.', 't', 'o', 'm', 'l'];
    assert(e@ == entry_file_name());
    chars_eq_ignore_case(&chars_of(file_name), &e)
}

/// `s` with `x` placed after every element whose name is not above `x`'s.
pub open spec fn insert_by_name(s: Seq<PresetSummary>, x: PresetSummary) -> Seq<PresetSummary>
    decreases s.len(),
{
    if s.len() == 0 {
        seq![x]
    } else if text_less(x.name@, s.last().name@) {
        insert_by_name(s.drop_last(), x).push(s.last())
    } else {
        s.push(x)
    }
}

/// The presets in stable order of their names (`sort_by` on the names).
pub open spec fn sorted_by_name(s: Seq<PresetSummary>) -> Seq<PresetSummary>
    decreases s.len(),
{
    if s.len() == 0 {
        s
    } else {
        insert_by_name(sorted_by_name(s.drop_last()), s.last())
    }
}

fn insert_preset(v: &mut Vec<PresetSummary>, x: PresetSummary)
    ensures
        final(v)@ == insert_by_name(old(v)@, x),
{
    let ghost orig = v@;
    let xn = chars_of(x.name.as_str());
    let mut j: usize = v.len();
    assert(orig.take(v.len() as int) =~= orig);
    while j > 0
        invariant_except_break
            j <= v@.len(),
            v@ == orig,
            xn@ == x.name@,
            insert_by_name(orig, x) == insert_by_name(orig.take(j as int), x) + orig.skip(j as int),
        ensures
            j <= v@.len(),
            v@ == orig,
            insert_by_name(orig, x) == orig.take(j as int).push(x) + orig.skip(j as int),
        decreases j,
    {
        let ghost tj = orig.take(j as int);
        assert(tj.drop_last() =~= orig.take(j - 1));
        assert(tj.last() == orig[j - 1]);
        let prev = chars_of(v[j - 1].name.as_str());
        assert(prev@ == tj.last().name@);
        let lt = chars_less(&xn, &prev);
        assert(tj.len() > 0);
        assert(xn@ == x.name@);
        assert(lt == text_less(x.name@, tj.last().name@));
        if !lt {
            assert(insert_by_name(tj, x) == tj.push(x));
            break;
        }
        assert(insert_by_name(tj, x) == insert_by_name(tj.drop_last(), x).push(tj.last()));
        assert(orig.skip(j - 1) =~= seq![orig[j - 1]] + orig.skip(j as int));
        assert(insert_by_name(orig.take(j - 1), x).push(orig[j - 1]) + orig.skip(j as int)
            =~= insert_by_name(orig.take(j - 1), x) + orig.skip(j - 1));
        j = j - 1;
    }
    if j == 0 {
        assert(orig.take(0) =~= Seq::<PresetSummary>::empty());
    }
    v.insert(j, x);
    assert(v@ =~= orig.take(j as int).push(x) + orig.skip(j as int));
}

/// The presets sorted by name, equal names keeping their order
/// (`list_presets_internal`'s sort).
pub fn sort_presets_by_name(presets: Vec<PresetSummary>) -> (r: Vec<PresetSummary>)
    ensures
        r@ == sorted_by_name(presets@),
{
    let ghost orig = presets@;
    let n = presets.len();
    let mut rest = presets;
    let mut out: Vec<PresetSummary> = Vec::new();
    assert(orig.take(0) =~= Seq::<PresetSummary>::empty());
    assert(rest@ =~= orig.subrange(0, n as int));
    while rest.len() > 0
        invariant
            n == orig.len(),
            rest.len() <= n,
            rest@ == orig.subrange(n - rest.len(), n as int),
            out@ == sorted_by_name(orig.take(n - rest.len())),
        decreases rest.len(),
    {
        let ghost i = n - rest.len();
        let x = rest.remove(0);
        assert(x == orig[i]);
        assert(orig.take(i + 1).drop_last() =~= orig.take(i));
        insert_preset(&mut out, x);
        assert(rest@ =~= orig.subrange(n - rest.len(), n as int));
    }
    assert(orig.take(n as int) =~= orig);
    out
}

/// The first preset, from index `i` on, with exactly this id.
pub open spec fn preset_position(presets: Seq<PresetSummary>, id: Seq<char>, i: nat) -> Option<int>
    decreases presets.len() - i,
{
    if i >= presets.len() {
        None
    } else if presets[i as int].id@ == id {
        Some(i as int)
    } else {
        preset_position(presets, id, i + 1)
    }
}

/// The preset with this id, the first one found (`find_preset_by_id`); none
/// when no preset has it.
pub fn find_preset_by_id(presets: &Vec<PresetSummary>, preset_id: &str) -> (r: Option<usize>)
    ensures
        match r {
            Some(k) => preset_position(presets@, preset_id@, 0) == Some(k as int) && k
                < presets@.len(),
            None => preset_position(presets@, preset_id@, 0) is None,
        },
{
    let id = chars_of(preset_id);
    let mut i: usize = 0;
    while i < presets.len()
        invariant
            i <= presets.len(),
            id@ == preset_id@,
            preset_position(presets@, preset_id@, 0) == preset_position(
                presets@,
                preset_id@,
                i as nat,
            ),
        decreases presets.len() - i,
    {
        if chars_eq(&chars_of(presets[i].id.as_str()), &id) {
            return Some(i);
        }
        i = i + 1;
    }
    None
}

/// Insertion of a text into a sorted list, after the equal ones.
pub open spec fn insert_text(s: Seq<Seq<char>>, x: Seq<char>) -> Seq<Seq<char>>
    decreases s.len(),
{
    if s.len() == 0 {
        seq![x]
    } else if text_less(x, s.last()) {
        insert_text(s.drop_last(), x).push(s.last())
    } else {
        s.push(x)
    }
}

/// Texts in ascending order (`Vec::sort`).
pub open spec fn sorted_texts(s: Seq<Seq<char>>) -> Seq<Seq<char>>
    decreases s.len(),
{
    if s.len() == 0 {
        s
    } else {
        insert_text(sorted_texts(s.drop_last()), s.last())
    }
}

/// The files a preset would overwrite, in the order they were found: those
/// that already exist in the instance, with `/` separators.
pub open spec fn existing_files(rel_paths: Seq<Seq<char>>, exists: Seq<bool>) -> Seq<Seq<char>>
    decreases rel_paths.len(),
{
    if rel_paths.len() == 0 {
        Seq::empty()
    } else {
        let r = existing_files(rel_paths.drop_last(), exists.take(rel_paths.len() - 1));
        if exists[rel_paths.len() - 1] {
            r.push(slashed(rel_paths.last()))
        } else {
            r
        }
    }
}

fn insert_string(v: &mut Vec<String>, x: String)
    ensures
        strs(final(v)@) == insert_text(strs(old(v)@), x@),
{
    let ghost orig = strs(v@);
    let xn = chars_of(x.as_str());
    let mut j: usize = v.len();
    assert(orig.take(v.len() as int) =~= orig);
    while j > 0
        invariant_except_break
            j <= v@.len(),
            strs(v@) == orig,
            xn@ == x@,
            insert_text(orig, x@) == insert_text(orig.take(j as int), x@) + orig.skip(j as int),
        ensures
            j <= v@.len(),
            strs(v@) == orig,
            insert_text(orig, x@) == orig.take(j as int).push(x@) + orig.skip(j as int),
        decreases j,
    {
        let ghost tj = orig.take(j as int);
        assert(tj.drop_last() =~= orig.take(j - 1));
        assert(tj.last() == orig[j - 1]);
        let prev = chars_of(v[j - 1].as_str());
        assert(prev@ == tj.last());
        if !chars_less(&xn, &prev) {
            assert(insert_text(tj, x@) == tj.push(x@));
            break;
        }
        assert(insert_text(tj, x@) == insert_text(tj.drop_last(), x@).push(tj.last()));
        assert(orig.skip(j - 1) =~= seq![orig[j - 1]] + orig.skip(j as int));
        assert(insert_text(orig.take(j - 1), x@).push(orig[j - 1]) + orig.skip(j as int)
            =~= insert_text(orig.take(j - 1), x@) + orig.skip(j - 1));
        j = j - 1;
    }
    if j == 0 {
        assert(orig.take(0) =~= Seq::<Seq<char>>::empty());
    }
    let ghost xv = x@;
    v.insert(j, x);
    assert(strs(v@) =~= orig.take(j as int).push(xv) + orig.skip(j as int));
}

/// The files a preset would overwrite (`detect_preset_overwrite_files`): of the
/// preset's files, given relative to it, those that `exists` marks as present
/// in the instance, with `/` separators, sorted.
pub fn detect_preset_overwrite_files(rel_paths: &Vec<String>, exists: &Vec<bool>) -> (r: Vec<
    String,
>)
    requires
        exists@.len() == rel_paths@.len(),
    ensures
        strs(r@) == sorted_texts(existing_files(strs(rel_paths@), exists@)),
{
    let ghost rp = strs(rel_paths@);
    let mut out: Vec<String> = Vec::new();
    let mut i: usize = 0;
    assert(rp.take(0) =~= Seq::<Seq<char>>::empty());
    assert(strs(out@) =~= sorted_texts(existing_files(rp.take(0), exists@.take(0))));
    while i < rel_paths.len()
        invariant
            i <= rel_paths.len() == exists@.len(),
            rp == strs(rel_paths@),
            strs(out@) == sorted_texts(existing_files(rp.take(i as int), exists@.take(i as int))),
        decreases rel_paths.len() - i,
    {
        assert(rp.take(i + 1).drop_last() =~= rp.take(i as int));
        assert(exists@.take(i + 1).take(i as int) =~= exists@.take(i as int));
        let ghost e0 = existing_files(rp.take(i as int), exists@.take(i as int));
        if exists[i] {
            let s = slashed_chars(&chars_of(rel_paths[i].as_str()));
            assert(rp.take(i + 1).last() == rp[i as int]);
            assert(existing_files(rp.take(i + 1), exists@.take(i + 1)) == e0.push(slashed(rp[i as int])));
            assert(e0.push(slashed(rp[i as int])).drop_last() =~= e0);
            insert_string(&mut out, string_of(s.as_slice()));
        } else {
            assert(existing_files(rp.take(i + 1), exists@.take(i + 1)) == e0);
        }
        i = i + 1;
    }
    assert(rp.take(rel_paths.len() as int) =~= rp);
    assert(exists@.take(rel_paths.len() as int) =~= exists@);
    out
}

/// The lines of the log an applied preset leaves in the instance.
pub open spec fn preset_log_text(
    preset: PresetSummary,
    instance_dir: Seq<char>,
    preset_dir: Seq<char>,
    current_dir: Seq<char>,
    copied: Seq<Seq<char>>,
) -> Seq<char> {
    "preset_id="@ + preset.id@ + seq!['\n'] + "preset_name="@ + preset.name@ + seq!['\n']
        + "instance_dir="@ + instance_dir + seq!['\n'] + "preset_dir="@ + preset_dir + seq!['\n']
        + "current_dir="@ + current_dir + seq!['\n'] + "copied_count="@ + decimal(
        copied.len(),
    ) + seq!['\n'] + copied_lines(copied)
}

/// `copied=...` lines, one per copied file, each ending in a newline.
pub open spec fn copied_lines(copied: Seq<Seq<char>>) -> Seq<char>
    decreases copied.len(),
{
    if copied.len() == 0 {
        Seq::empty()
    } else {
        copied_lines(copied.drop_last()) + "copied="@ + copied.last() + seq!['\n']
    }
}

fn append(out: &mut Vec<char>, s: &str)
    ensures
        final(out)@ == old(out)@ + s@,
{
    let c = chars_of(s);
    let mut k: usize = 0;
    let ghost start = out@;
    while k < c.len()
        invariant
            k <= c.len(),
            c@ == s@,
            out@ == start + c@.take(k as int),
        decreases c.len() - k,
    {
        out.push(c[k]);
        k = k + 1;
        assert(c@.take(k as int) =~= c@.take(k - 1).push(c@[k - 1]));
    }
    assert(c@.take(c.len() as int) =~= c@);
}

/// The log an applied preset leaves in the instance:
/// the preset, the directories involved, and each copied file.
pub fn preset_log(
    preset: &PresetSummary,
    instance_dir: &str,
    preset_dir: &str,
    current_dir: &str,
    copied: &Vec<String>,
) -> (r: String)
    requires
        copied@.len() < u64::MAX,
    ensures
        r@ == preset_log_text(*preset, instance_dir@, preset_dir@, current_dir@, strs(copied@)),
{
    let mut out: Vec<char> = Vec::new();
    append(&mut out, "preset_id=");
    append(&mut out, preset.id.as_str());
    append(&mut out, "\n");
    append(&mut out, "preset_name=");
    append(&mut out, preset.name.as_str());
    append(&mut out, "\n");
    append(&mut out, "instance_dir=");
    append(&mut out, instance_dir);
    append(&mut out, "\n");
    append(&mut out, "preset_dir=");
    append(&mut out, preset_dir);
    append(&mut out, "\n");
    append(&mut out, "current_dir=");
    append(&mut out, current_dir);
    append(&mut out, "\n");
    append(&mut out, "copied_count=");
    let count = decimal_chars(copied.len() as u64);
    let count_text = string_of(count.as_slice());
    append(&mut out, count_text.as_str());
    append(&mut out, "\n");
    proof {
        reveal_strlit("\n");
    }
    let ghost head = out@;
    let ghost cs = strs(copied@);
    let mut i: usize = 0;
    assert(cs.take(0) =~= Seq::<Seq<char>>::empty());
    while i < copied.len()
        invariant
            i <= copied.len(),
            cs == strs(copied@),
            out@ == head + copied_lines(cs.take(i as int)),
        decreases copied.len() - i,
    {
        assert(cs.take(i + 1).drop_last() =~= cs.take(i as int));
        proof {
            reveal_strlit("\n");
        }
        append(&mut out, "copied=");
        append(&mut out, copied[i].as_str());
        append(&mut out, "\n");
        i = i + 1;
    }
    assert(cs.take(copied.len() as int) =~= cs);
    string_of(out.as_slice())
}

/// The presets that could be read, in the order found.
pub open spec fn readable_presets(found: Seq<Option<PresetSummary>>) -> Seq<PresetSummary>
    decreases found.len(),
{
    if found.len() == 0 {
        Seq::empty()
    } else {
        let r = readable_presets(found.drop_last());
        match found.last() {
            Some(p) => r.push(p),
            None => r,
        }
    }
}

/// The presets on offer (`list_presets_internal`): those that could be read,
/// sorted by name; `found` holds each preset directory's summary, none where it
/// is not a readable preset.
pub fn list_presets_internal(found: Vec<Option<PresetSummary>>) -> (r: Vec<PresetSummary>)
    ensures
        r@ == sorted_by_name(readable_presets(found@)),
{
    let ghost orig = found@;
    let n = found.len();
    let mut rest = found;
    let mut kept: Vec<PresetSummary> = Vec::new();
    assert(orig.take(0) =~= Seq::<Option<PresetSummary>>::empty());
    assert(rest@ =~= orig.subrange(0, n as int));
    while rest.len() > 0
        invariant
            n == orig.len(),
            rest.len() <= n,
            rest@ == orig.subrange(n - rest.len(), n as int),
            kept@ == readable_presets(orig.take(n - rest.len())),
        decreases rest.len(),
    {
        let ghost i = n - rest.len();
        let x = rest.remove(0);
        assert(x == orig[i]);
        assert(orig.take(i + 1).drop_last() =~= orig.take(i));
        match x {
            Some(p) => {
                kept.push(p);
            },
            None => {},
        }
        assert(rest@ =~= orig.subrange(n - rest.len(), n as int));
    }
    assert(orig.take(n as int) =~= orig);
    sort_presets_by_name(kept)
}

} // verus!
