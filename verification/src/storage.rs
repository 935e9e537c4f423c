use vstd::prelude::*;
use std::collections::hash_map::DefaultHasher;
use std::hash::Hasher;
use vstd::std_specs::hash::DefaultHasherAdditionalSpecFns;
use crate::model::{AppSettings, InstanceRecord};
use crate::paths::{display_path, has_drive, PathStyle, keeps_segment, simplify_for_display, slashed, slashed_chars};
use crate::text::{
    chars_eq, chars_of, concat_chars, lowercase_chars, slice_chars, split_char, split_chars,
    string_of, trim, trim_chars, unicode_lowercase, views, lemma_trim_idempotent,
    lemma_trim_unchanged, is_ws,
};

verus! {

// ----- path keys and ids ----------------------------------------------------

/// `/` or `\`.
pub open spec fn is_sep(c: char) -> bool {
    c == '/' || c == '\\'
}

/// The text without trailing `/` and `\`.
pub open spec fn trim_end_seps(s: Seq<char>) -> Seq<char>
    decreases s.len(),
{
    if s.len() > 0 && is_sep(s.last()) {
        trim_end_seps(s.drop_last())
    } else {
        s
    }
}

/// Every `/` turned into `\`.
pub open spec fn backslashed(s: Seq<char>) -> Seq<char> {
    s.map_values(|c: char| if c == '/' { '\\' } else { c })
}

/// The key under which a (canonical) path is compared, trailing separators
/// dropped: on Windows shown as the user sees it, `/` turned into `\` and
/// lower-cased; elsewhere `\` turned into `/`, case kept.
pub open spec fn path_key(canonical: Seq<char>, style: PathStyle) -> Seq<char> {
    match style {
        PathStyle::Windows => trim_end_seps(
            unicode_lowercase(backslashed(display_path(canonical, style))),
        ),
        PathStyle::Unix => trim_end_seps(slashed(canonical)),
    }
}

fn trim_end_seps_chars(s: &Vec<char>) -> (r: Vec<char>)
    ensures
        r@ == trim_end_seps(s@),
{
    let mut j: usize = s.len();
    assert(s@.take(s.len() as int) =~= s@);
    while j > 0 && (s[j - 1] == '/' || s[j - 1] == '\\')
        invariant
            j <= s.len(),
            trim_end_seps(s@) == trim_end_seps(s@.take(j as int)),
        decreases j,
    {
        assert(s@.take(j as int).drop_last() =~= s@.take(j - 1));
        j = j - 1;
    }
    slice_chars(s, 0, j)
}

/// The key of a path once the caller has canonicalized it.
pub fn normalize_path_key(canonical: &str, style: PathStyle) -> (r: String)
    ensures
        r@ == path_key(canonical@, style),
{
    if style == PathStyle::Unix {
        let c = chars_of(canonical);
        let s = slashed_chars(&c);
        let t = trim_end_seps_chars(&s);
        return string_of(t.as_slice());
    }
    let shown = simplify_for_display(canonical, style);
    let c = chars_of(shown.as_str());
    let mut b: Vec<char> = Vec::new();
    let mut i: usize = 0;
    while i < c.len()
        invariant
            i <= c.len(),
            b@ == backslashed(c@.take(i as int)),
        decreases c.len() - i,
    {
        let ch = c[i];
        b.push(if ch == '/' { '\\' } else { ch });
        i = i + 1;
        assert(backslashed(c@.take(i as int)) =~= backslashed(c@.take(i - 1)).push(
            if ch == '/' { '\\' } else { ch },
        ));
    }
    assert(c@.take(c.len() as int) =~= c@);
    let lower = lowercase_chars(&b);
    let t = trim_end_seps_chars(&lower);
    string_of(t.as_slice())
}

/// A key never ends with a separator.
proof fn lemma_trim_end_seps(s: Seq<char>)
    ensures
        trim_end_seps(s).len() > 0 ==> !is_sep(trim_end_seps(s).last()),
        trim_end_seps(s) == s.take(trim_end_seps(s).len() as int),
        trim_end_seps(s).len() <= s.len(),
    decreases s.len(),
{
    if s.len() > 0 && is_sep(s.last()) {
        lemma_trim_end_seps(s.drop_last());
        assert(s.drop_last().take(trim_end_seps(s).len() as int) =~= s.take(
            trim_end_seps(s).len() as int,
        ));
    } else {
        assert(s.take(s.len() as int) =~= s);
    }
}

/// Law: the key of a path is a function of the canonical path (paths that
/// canonicalize alike get one key), never ends with `/` or `\`, and elsewhere
/// than on Windows holds no `\`.
pub proof fn law_path_key_shape(a: Seq<char>, b: Seq<char>, style: PathStyle)
    ensures
        a == b ==> path_key(a, style) == path_key(b, style),
        path_key(a, style).len() > 0 ==> !is_sep(path_key(a, style).last()),
        style == PathStyle::Unix ==> forall|i: int|
            0 <= i < path_key(a, style).len() ==> path_key(a, style)[i] != '\\',
{
    match style {
        PathStyle::Windows => {
            lemma_trim_end_seps(unicode_lowercase(backslashed(display_path(a, style))));
        },
        PathStyle::Unix => {
            let s = slashed(a);
            lemma_trim_end_seps(s);
            let k = path_key(a, style);
            assert forall|i: int| 0 <= i < k.len() implies k[i] != '\\' by {
                assert(k[i] == s[i]);
            }
        },
    }
}

/// The key of an instance: the key of its (canonical) path (`instance_key`).
pub fn instance_key(canonical_instance_path: &str, style: PathStyle) -> (r: String)
    ensures
        r@ == path_key(canonical_instance_path@, style),
{
    normalize_path_key(canonical_instance_path, style)
}

/// A lower-case hexadecimal digit.
pub open spec fn hex_digit(d: nat) -> char {
    if d < 10 {
        ((d + 48) as u32) as char
    } else {
        ((d + 87) as u32) as char
    }
}

/// `n` in lower-case hexadecimal, without leading zeros (`{:x}`).
pub open spec fn hex(n: nat) -> Seq<char>
    decreases n,
{
    if n < 16 {
        seq![hex_digit(n)]
    } else {
        hex(n / 16).push(hex_digit(n % 16))
    }
}

/// `n` in lower-case hexadecimal.
pub fn hex_chars(n: u64) -> (r: Vec<char>)
    ensures
        r@ == hex(n as nat),
    decreases n,
{
    let d: u8 = (n % 16) as u8;
    let c = if d < 10 {
        (d + 48) as char
    } else {
        (d + 87) as char
    };
    assert(c == hex_digit((n % 16) as nat));
    if n < 16 {
        let mut v: Vec<char> = Vec::new();
        v.push(c);
        assert(v@ =~= seq![hex_digit(n as nat)]);
        v
    } else {
        let mut v = hex_chars(n / 16);
        v.push(c);
        v
    }
}

/// Name for the writes `<str as Hash>::hash` makes into a hasher: a sequence
/// of byte strings that depends on the text alone.
pub uninterp spec fn str_writes(s: Seq<char>) -> Seq<Seq<u8>>;

/// `<str as Hash>::hash` into a `DefaultHasher`. Trusted: the hasher's writes
/// are those it had, followed by `str_writes` of the text; which bytes those
/// are is left to the name.
#[verifier::external_body]
fn hash_text_into(s: &str, hasher: &mut DefaultHasher)
    ensures
        final(hasher)@ == old(hasher)@ + str_writes(s@),
{
    std::hash::Hash::hash(s, hasher)
}

/// The digest std's default hasher gives for a text: a hasher made by
/// `DefaultHasher::new` fed the text, then finished.
pub open spec fn text_digest(s: Seq<char>) -> u64 {
    DefaultHasher::spec_finish(str_writes(s))
}

/// The id of a component: the lower-case hexadecimal of std's default hash of
/// its pack's path key (`component_id`).
pub fn component_id(pack_path_key: &str) -> (r: String)
    ensures
        r@ == hex(text_digest(pack_path_key@) as nat),
{
    let mut hasher = DefaultHasher::new();
    hash_text_into(pack_path_key, &mut hasher);
    assert(hasher@ =~= str_writes(pack_path_key@));
    let n = hasher.finish();
    let c = hex_chars(n);
    string_of(c.as_slice())
}

// ----- names ----------------------------------------------------------------

/// `normalize_name`.
pub fn normalize_name(raw_name: &str) -> (r: String)
    ensures
        r@ == trim(raw_name@),
{
    let c = chars_of(raw_name);
    let t = trim_chars(&c);
    string_of(t.as_slice())
}

/// A path without its Windows prefix: a drive (`C:`) or, for `\\server\share`
/// and the other double-separator forms, the two segments that follow.
pub open spec fn after_prefix(n: Seq<char>) -> Seq<char> {
    if n.len() >= 2 && n[0] == '/' && n[1] == '/' {
        let pieces = split_char(n.skip(2), '/');
        if pieces.len() <= 2 {
            Seq::empty()
        } else {
            crate::text::join(pieces.skip(2), seq!['/'])
        }
    } else if has_drive(n) {
        n.skip(2)
    } else {
        n
    }
}

/// A path with its trailing separators dropped, as its segments are read: on
/// Windows `\` counts as `/` and the prefix is left out.
pub open spec fn name_base(p: Seq<char>, style: PathStyle) -> Seq<char> {
    match style {
        PathStyle::Windows => after_prefix(slashed(trim_end_seps(p))),
        PathStyle::Unix => trim_end_seps(p),
    }
}

/// `Path::file_name` of a path with its trailing separators dropped: its last
/// named segment, none when there is none or it is `..`.
pub open spec fn file_name_part(p: Seq<char>, style: PathStyle) -> Option<Seq<char>> {
    let segs = split_char(name_base(p, style), '/').filter(
        |x: Seq<char>| keeps_segment(x),
    );
    if segs.len() == 0 || segs.last() == seq!['.', '.'] {
        None
    } else {
        Some(segs.last())
    }
}

/// The name an instance falls back to: the last segment of its path, or the
/// whole path when that is blank.
pub open spec fn fallback_name(p: Seq<char>, style: PathStyle) -> Seq<char> {
    match file_name_part(p, style) {
        Some(n) => if trim(n).len() > 0 {
            n
        } else {
            p
        },
        None => p,
    }
}

fn last_segment(pieces: &Vec<Vec<char>>) -> (r: Option<Vec<char>>)
    ensures
        ({
            let segs = views(pieces@).filter(|x: Seq<char>| keeps_segment(x));
            match r {
                Some(s) => segs.len() > 0 && s@ == segs.last(),
                None => segs.len() == 0,
            }
        }),
{
    let ghost ps = views(pieces@);
    let ghost keep = |x: Seq<char>| keeps_segment(x);
    let mut last: Option<Vec<char>> = None;
    let mut i: usize = 0;
    assert(ps.take(0) =~= Seq::<Seq<char>>::empty());
    while i < pieces.len()
        invariant
            i <= pieces.len(),
            ps == views(pieces@),
            keep == (|x: Seq<char>| keeps_segment(x)),
            match last {
                Some(s) => ps.take(i as int).filter(keep).len() > 0 && s@ == ps.take(
                    i as int,
                ).filter(keep).last(),
                None => ps.take(i as int).filter(keep).len() == 0,
            },
        decreases pieces.len() - i,
    {
        assert(ps.take(i + 1).drop_last() =~= ps.take(i as int));
        reveal(Seq::filter);
        let p = &pieces[i];
        let dot = vec!['.'];
        assert(dot@ == seq!['.']);
        if p.len() > 0 && !chars_eq(p, &dot) {
            last = Some(slice_chars(p, 0, p.len()));
            assert(p@.subrange(0, p@.len() as int) =~= p@);
        }
        i = i + 1;
    }
    assert(ps.take(pieces.len() as int) =~= ps);
    assert(keep =~= (|x: Seq<char>| keeps_segment(x)));
    last
}

/// `fallback_name_from_path`.
pub fn fallback_name_from_path(path: &str, style: PathStyle) -> (r: String)
    ensures
        r@ == fallback_name(path@, style),
{
    let p = chars_of(path);
    let t = trim_end_seps_chars(&p);
    let n = slashed_chars(&t);
    let rest: Vec<char> = if style == PathStyle::Unix {
        t
    } else if n.len() >= 2 && n[0] == '/' && n[1] == '/' {
        let tail = slice_chars(&n, 2, n.len());
        assert(tail@ == n@.skip(2));
        let pieces = split_chars(&tail, '/');
        if pieces.len() <= 2 {
            Vec::new()
        } else {
            let mut kept: Vec<Vec<char>> = Vec::new();
            let mut k: usize = 2;
            while k < pieces.len()
                invariant
                    2 <= k <= pieces.len(),
                    views(kept@) == views(pieces@).subrange(2, k as int),
                decreases pieces.len() - k,
            {
                let c = slice_chars(&pieces[k], 0, pieces[k].len());
                assert(c@ =~= pieces@[k as int]@);
                let ghost before = views(kept@);
                kept.push(c);
                assert(views(kept@) =~= before.push(c@));
                assert(views(pieces@).subrange(2, k + 1) =~= views(pieces@).subrange(2, k as int).push(c@));
                k = k + 1;
            }
            assert(views(pieces@).subrange(2, pieces.len() as int) =~= views(pieces@).skip(2));
            let sep = vec!['/'];
            assert(sep@ == seq!['/']);
            crate::text::join_chars(&kept, &sep)
        }
    } else if n.len() >= 2 && (('a' <= n[0] && n[0] <= 'z') || ('A' <= n[0] && n[0] <= 'Z'))
        && n[1] == ':' {
        let tail = slice_chars(&n, 2, n.len());
        assert(tail@ == n@.skip(2));
        tail
    } else {
        n
    };
    assert(rest@ == name_base(path@, style));
    let pieces = split_chars(&rest, '/');
    match last_segment(&pieces) {
        Some(s) => {
            let dd = vec!['.', '.'];
            assert(dd@ == seq!['.', '.']);
            if chars_eq(&s, &dd) {
                return string_of(p.as_slice());
            }
            let st = trim_chars(&s);
            if st.len() > 0 {
                string_of(s.as_slice())
            } else {
                string_of(p.as_slice())
            }
        },
        None => string_of(p.as_slice()),
    }
}

/// `normalize_record_name`: the trimmed name, or the fallback of the path when
/// that is blank.
pub fn normalize_record_name(record: &mut InstanceRecord, style: PathStyle)
    ensures
        final(record).name@ == (if trim(old(record).name@).len() > 0 {
            trim(old(record).name@)
        } else {
            fallback_name(old(record).path@, style)
        }),
        final(record).path == old(record).path,
        final(record).preset_id == old(record).preset_id,
{
    let name = normalize_name(record.name.as_str());
    let nc = chars_of(name.as_str());
    if nc.len() > 0 {
        record.name = name;
    } else {
        record.name = fallback_name_from_path(record.path.as_str(), style);
    }
}

/// One character of a directory name made safe: `<>:"/\|?*` become `_`.
pub open spec fn safe_char(c: char) -> char {
    if c == '<' || c == '>' || c == ':' || c == '"' || c == '/' || c == '\\' || c == '|' || c
        == '?' || c == '*' {
        '_'
    } else {
        c
    }
}

/// The text without leading and trailing `.`.
pub open spec fn trim_dots(s: Seq<char>) -> Seq<char>
    decreases s.len(),
{
    if s.len() > 0 && s[0] == '.' {
        trim_dots(s.drop_first())
    } else if s.len() > 0 && s.last() == '.' {
        trim_dots(s.drop_last())
    } else {
        s
    }
}

pub open spec fn word_pack_dir() -> Seq<char> {
    seq!['P', 'a', 'c', 'k']
}

/// A component directory name made from a pack's name: trimmed, the characters
/// Windows refuses turned into `_`, dots trimmed from both ends, trimmed again;
/// `Pack` when nothing is left.
pub open spec fn sanitized(name: Seq<char>) -> Seq<char> {
    let s = trim(trim_dots(trim(name).map_values(|c: char| safe_char(c))));
    if s.len() == 0 {
        word_pack_dir()
    } else {
        s
    }
}

proof fn lemma_trim_dots_range(s: Seq<char>, i: int, j: int)
    requires
        0 <= i <= j <= s.len(),
        forall|k: int| 0 <= k < i ==> s[k] == '.',
        forall|k: int| j <= k < s.len() ==> s[k] == '.',
        i < j ==> s[i] != '.' && s[j - 1] != '.',
    ensures
        trim_dots(s) == s.subrange(i, j),
    decreases s.len(),
{
    if s.len() > 0 && s[0] == '.' {
        assert(i > 0 || j == 0);
        if i > 0 {
            lemma_trim_dots_range(s.drop_first(), i - 1, j - 1);
            assert(s.drop_first().subrange(i - 1, j - 1) =~= s.subrange(i, j));
        } else {
            lemma_trim_dots_range(s.drop_first(), 0, 0);
            assert(s.drop_first().subrange(0, 0) =~= s.subrange(0, 0));
        }
    } else if s.len() > 0 && s.last() == '.' {
        assert(j < s.len());
        lemma_trim_dots_range(s.drop_last(), i, j);
        assert(s.drop_last().subrange(i, j) =~= s.subrange(i, j));
    } else {
        if s.len() > 0 {
            assert(i == 0);
            assert(j == s.len());
        }
        assert(s.subrange(i, j) =~= s);
    }
}

/// `sanitize_component_dir_name`.
pub fn sanitize_component_dir_name(name: &str) -> (r: String)
    ensures
        r@ == sanitized(name@),
{
    let raw = chars_of(name);
    let t = trim_chars(&raw);
    let mut m: Vec<char> = Vec::new();
    let mut i: usize = 0;
    while i < t.len()
        invariant
            i <= t.len(),
            m@ == t@.take(i as int).map_values(|c: char| safe_char(c)),
        decreases t.len() - i,
    {
        let c = t[i];
        let d = if c == '<' || c == '>' || c == ':' || c == '"' || c == '/' || c == '\\' || c
            == '|' || c == '?' || c == '*' {
            '_'
        } else {
            c
        };
        m.push(d);
        i = i + 1;
        assert(t@.take(i as int).map_values(|c: char| safe_char(c)) =~= t@.take(i - 1).map_values(
            |c: char| safe_char(c),
        ).push(safe_char(c)));
    }
    assert(t@.take(t.len() as int) =~= t@);
    let mut a: usize = 0;
    while a < m.len() && m[a] == '.'
        invariant
            a <= m.len(),
            forall|k: int| 0 <= k < a ==> m@[k] == '.',
        decreases m.len() - a,
    {
        a = a + 1;
    }
    let mut b: usize = m.len();
    while b > a && m[b - 1] == '.'
        invariant
            a <= b <= m.len(),
            forall|k: int| b <= k < m.len() ==> m@[k] == '.',
        decreases b,
    {
        b = b - 1;
    }
    proof {
        lemma_trim_dots_range(m@, a as int, b as int);
    }
    let mid = slice_chars(&m, a, b);
    let s = trim_chars(&mid);
    if s.len() == 0 {
        let p = vec!['P', 'a', 'c', 'k'];
        assert(p@ == word_pack_dir());
        return string_of(p.as_slice());
    }
    string_of(s.as_slice())
}

/// The `attempt`-th name tried for a new component directory: the name itself,
/// then `name_2` up to `name_9999`; none after that.
pub open spec fn dir_candidate(stem: Seq<char>, attempt: nat) -> Option<Seq<char>> {
    if attempt == 0 {
        Some(stem)
    } else if attempt <= 9998 {
        Some(stem + seq!['_'] + crate::values::decimal(attempt + 1))
    } else {
        None
    }
}

/// A candidate name for a new component directory (`unique_component_dir`):
/// the caller tries them in order and takes the first that does not exist.
pub fn unique_component_dir(stem: &str, attempt: usize) -> (r: Option<String>)
    ensures
        match r {
            Some(n) => dir_candidate(stem@, attempt as nat) == Some(n@),
            None => dir_candidate(stem@, attempt as nat) is None,
        },
{
    let s = chars_of(stem);
    if attempt == 0 {
        return Some(string_of(s.as_slice()));
    }
    if attempt > 9998 {
        return None;
    }
    let u = vec!['_'];
    let digits = crate::values::decimal_chars((attempt + 1) as u64);
    let all = concat_chars(&concat_chars(&s, &u), &digits);
    assert(u@ == seq!['_']);
    Some(string_of(all.as_slice()))
}

// ----- where things are stored ---------------------------------------------

/// `a/b`.
pub open spec fn joined(a: Seq<char>, b: Seq<char>) -> Seq<char> {
    a + seq!['/'] + b
}

fn join_path(a: &str, b: &str) -> (r: String)
    ensures
        r@ == joined(a@, b@),
{
    let x = chars_of(a);
    let y = chars_of(b);
    let sep = vec!['/'];
    assert(sep@ == seq!['/']);
    let all = concat_chars(&concat_chars(&x, &sep), &y);
    string_of(all.as_slice())
}

pub open spec fn app_dir_name() -> Seq<char> {
    "IniPackManager"@
}

pub open spec fn instances_file() -> Seq<char> {
    "IniPackManager/config/data/instances.json"@
}

pub open spec fn components_file() -> Seq<char> {
    "IniPackManager/config/data/components.json"@
}

pub open spec fn settings_file() -> Seq<char> {
    "IniPackManager/config/data/settings.json"@
}

pub open spec fn remote_cache_file() -> Seq<char> {
    "IniPackManager/config/data/remote-index-cache.json"@
}

/// The parent of the local repository: the configured path when it is not
/// blank (trimmed), else `IniPackManager` in the user's home
/// (`local_repository_base_dir`).
pub fn local_repository_base_dir(settings: &AppSettings, home: &str) -> (r: String)
    ensures
        r@ == (if trim(settings.local_repository_path@).len() > 0 {
            trim(settings.local_repository_path@)
        } else {
            joined(home@, app_dir_name())
        }),
{
    let c = chars_of(settings.local_repository_path.as_str());
    let t = trim_chars(&c);
    if t.len() > 0 {
        return string_of(t.as_slice());
    }
    join_path(home, "IniPackManager")
}

/// `components` under the local repository's parent (`components_root_dir`).
pub fn components_root_dir(base: &str) -> (r: String)
    ensures
        r@ == joined(base@, "components"@),
{
    join_path(base, "components")
}

/// `repository` under the local repository's parent (`repository_root_dir`).
pub fn repository_root_dir(base: &str) -> (r: String)
    ensures
        r@ == joined(base@, "repository"@),
{
    join_path(base, "repository")
}

/// Where the instances are stored, under the user's home.
pub fn instance_store_path(home: &str) -> (r: String)
    ensures
        r@ == joined(home@, instances_file()),
{
    join_path(home, "IniPackManager/config/data/instances.json")
}

/// Where component states are stored (`component_state_store_path`).
pub fn component_state_store_path(home: &str) -> (r: String)
    ensures
        r@ == joined(home@, components_file()),
{
    join_path(home, "IniPackManager/config/data/components.json")
}

/// Where the global settings are stored (`app_settings_store_path`).
pub fn app_settings_store_path(home: &str) -> (r: String)
    ensures
        r@ == joined(home@, settings_file()),
{
    join_path(home, "IniPackManager/config/data/settings.json")
}

/// Where the remote index is cached (`remote_index_cache_path`).
pub fn remote_index_cache_path(home: &str) -> (r: String)
    ensures
        r@ == joined(home@, remote_cache_file()),
{
    join_path(home, "IniPackManager/config/data/remote-index-cache.json")
}

pub open spec fn presets_rel() -> Seq<char> {
    "config/preset"@
}

/// The places the presets directory is looked for, in order: under the working
/// directory, then under its parent.
pub fn preset_root_candidates(cwd: &str) -> (r: Vec<String>)
    ensures
        r@.len() == 2,
        r@[0]@ == joined(cwd@, presets_rel()),
        r@[1]@ == joined(joined(cwd@, ".."@), presets_rel()),
{
    let a = join_path(cwd, "config/preset");
    let up = join_path(cwd, "..");
    let b = join_path(up.as_str(), "config/preset");
    let mut v: Vec<String> = Vec::new();
    v.push(a);
    v.push(b);
    v
}

/// The presets directory (`presets_root_dir`): the first candidate that is an
/// existing directory, else the first candidate.
pub fn presets_root_dir(cwd: &str, candidate_is_dir: &Vec<bool>) -> (r: String)
    requires
        candidate_is_dir@.len() == 2,
    ensures
        r@ == (if !candidate_is_dir@[0] && candidate_is_dir@[1] {
            joined(joined(cwd@, ".."@), presets_rel())
        } else {
            joined(cwd@, presets_rel())
        }),
{
    let c = preset_root_candidates(cwd);
    if !candidate_is_dir[0] && candidate_is_dir[1] {
        c[1].clone()
    } else {
        c[0].clone()
    }
}

/// The registry used when none is configured.
pub open spec fn default_registry_url() -> Seq<char> {
    "https://raw.githubusercontent.com/MeccBai/IniPackRepo/master/index.toml"@
}

fn default_registry_string() -> (r: String)
    ensures
        r@ == default_registry_url(),
{
    let s = "https://raw.githubusercontent.com/MeccBai/IniPackRepo/master/index.toml";
    string_of(chars_of(s).as_slice())
}

/// `r` is the stored settings once loaded: a blank registry becomes the default
/// one; everything else is kept.
pub open spec fn loaded_settings(stored: AppSettings, r: AppSettings) -> bool {
    &&& r.registry_url@ == (if trim(stored.registry_url@).len() == 0 {
        default_registry_url()
    } else {
        stored.registry_url@
    })
    &&& r.local_repository_path == stored.local_repository_path
}

/// `r` is the settings as saved: both fields trimmed, a blank registry replaced by
/// the default one.
pub open spec fn saved_settings(settings: AppSettings, r: AppSettings) -> bool {
    &&& r.registry_url@ == (if trim(settings.registry_url@).len() == 0 {
        default_registry_url()
    } else {
        trim(settings.registry_url@)
    })
    &&& r.local_repository_path@ == trim(settings.local_repository_path@)
}

/// The settings in effect once loaded (`load_effective_app_settings`): a blank
/// registry becomes the default one; everything else is kept.
pub fn load_effective_app_settings(stored: AppSettings) -> (r: AppSettings)
    ensures
        loaded_settings(stored, r),
{
    let mut settings = stored;
    let c = chars_of(settings.registry_url.as_str());
    let t = trim_chars(&c);
    if t.len() == 0 {
        settings.registry_url = default_registry_string();
    }
    settings
}

/// The settings as saved (`save_effective_app_settings`): both fields trimmed,
/// a blank registry replaced by the default one.
pub fn save_effective_app_settings(settings: AppSettings) -> (r: AppSettings)
    ensures
        saved_settings(settings, r),
{
    let reg = chars_of(settings.registry_url.as_str());
    let reg_t = trim_chars(&reg);
    let local = chars_of(settings.local_repository_path.as_str());
    let local_t = trim_chars(&local);
    let registry_url = if reg_t.len() == 0 {
        default_registry_string()
    } else {
        string_of(reg_t.as_slice())
    };
    AppSettings { registry_url, local_repository_path: string_of(local_t.as_slice()) }
}

/// Law: settings loaded back after they were saved are the settings as saved.
pub proof fn law_load_after_save(settings: AppSettings, saved: AppSettings, loaded: AppSettings)
    requires
        saved_settings(settings, saved),
        loaded_settings(saved, loaded),
    ensures
        loaded.registry_url@ == saved.registry_url@,
        loaded.local_repository_path == saved.local_repository_path,
{
    lemma_trim_idempotent(settings.registry_url@);
    if trim(settings.registry_url@).len() == 0 {
        reveal_strlit("https://raw.githubusercontent.com/MeccBai/IniPackRepo/master/index.toml");
        let d = default_registry_url();
        assert(!is_ws(d[0]) && !is_ws(d.last()));
        lemma_trim_unchanged(d);
    }
}

} // verus!
