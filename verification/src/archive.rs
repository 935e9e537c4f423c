use vstd::prelude::*;
use crate::config::ConfigError;
use crate::model::RawPackConfig;
use crate::paths::{PathError, PathStyle, safe_relative, safe_relative_path, slashed, slashed_chars};
use crate::storage::sanitized;
use vstd::utf8::{decode_utf8, valid_utf8};
use crate::text::{
    chars_eq, chars_of, concat_chars, ends_with, eq_ignore_case, lowercase_chars, slice_chars, starts_with,
    string_of, trim, trim_chars, unicode_lowercase,
};

verus! {

pub open spec fn config_file_name() -> Seq<char> {
    seq!['c', 'o', 'n', 'f', 'i', 'g', '.', 't', 'o', 'm', 'l']
}

/// Is this archive entry a pack's configuration: a file whose name, `\` read as
/// `/` and lower-cased, ends in `config.toml`?
pub open spec fn is_config_entry(name: Seq<char>, is_dir: bool) -> bool {
    !is_dir && config_file_name().is_suffix_of(unicode_lowercase(slashed(name)))
}

/// The directory of the configuration inside the archive: the entry's name
/// (`\` read as `/`) without its final `config.toml`, or nothing when it does
/// not end in exactly `config.toml`.
pub open spec fn config_prefix(name: Seq<char>) -> Seq<char> {
    let n = slashed(name);
    if config_file_name().is_suffix_of(n) {
        n.take(n.len() - 11)
    } else {
        Seq::empty()
    }
}

// ----- reading an archive ---------------------------------------------------

/// One entry of a ZIP archive: its name as stored, whether it is a directory
/// (its name ends with `/` or `\`) and its uncompressed bytes.
pub struct ZipEntry {
    pub name: String,
    pub is_dir: bool,
    pub data: Vec<u8>,
}

pub open spec fn entry_view(e: ZipEntry) -> (Seq<char>, bool, Seq<u8>) {
    (e.name@, e.is_dir, e.data@)
}

pub open spec fn entries_view(v: Seq<ZipEntry>) -> Seq<(Seq<char>, bool, Seq<u8>)> {
    v.map_values(|e: ZipEntry| entry_view(e))
}

pub open spec fn zip_entries_view(r: Result<Vec<ZipEntry>, String>) -> Result<
    Seq<(Seq<char>, bool, Seq<u8>)>,
    Seq<char>,
> {
    match r {
        Ok(v) => Ok(entries_view(v@)),
        Err(m) => Err(m@),
    }
}

/// Name for what the `zip` crate reads from an archive's bytes: its entries in
/// archive order (each name once), or the text of the error.
pub uninterp spec fn zip_read(bytes: Seq<u8>) -> Result<Seq<(Seq<char>, bool, Seq<u8>)>, Seq<char>>;

/// Reads every entry of a ZIP archive held in memory with the `zip` crate:
/// `ZipArchive::new`, then `by_index`, `name`, `is_dir` and `read_to_end` for
/// each index below `len`. Trusted: the result is `zip_read` of the bytes, a
/// function of the bytes alone.
#[verifier::external_body]
pub fn read_zip_entries(bytes: &[u8]) -> (r: Result<Vec<ZipEntry>, String>)
    ensures
        zip_entries_view(r) == zip_read(bytes@),
{
    let mut archive = zip::ZipArchive::new(std::io::Cursor::new(bytes)).map_err(|e| e.to_string())?;
    let mut out = Vec::new();
    for i in 0..archive.len() {
        let mut file = archive.by_index(i).map_err(|e| e.to_string())?;
        let mut data = Vec::new();
        std::io::Read::read_to_end(&mut file, &mut data).map_err(|e| e.to_string())?;
        out.push(ZipEntry { name: file.name().to_string(), is_dir: file.is_dir(), data });
    }
    Ok(out)
}

/// `std::str::from_utf8`. Trusted: it succeeds exactly on valid UTF-8, and then
/// gives the text those bytes encode.
#[verifier::external_body]
fn utf8_text(bytes: &[u8]) -> (r: Option<String>)
    ensures
        r is Some <==> valid_utf8(bytes@),
        r matches Some(s) ==> s@ == decode_utf8(bytes@),
{
    std::str::from_utf8(bytes).ok().map(|s| s.to_string())
}

/// The first archive entry, from index `i` on, that is a configuration.
pub open spec fn config_entry_from(entries: Seq<ZipEntry>, i: nat) -> Option<int>
    decreases entries.len() - i,
{
    if i >= entries.len() {
        None
    } else if is_config_entry(entries[i as int].name@, entries[i as int].is_dir) {
        Some(i as int)
    } else {
        config_entry_from(entries, i + 1)
    }
}

/// Which entry of an archive holds the pack's configuration, and the directory
/// it lies in; `entries` are the archive's entries in archive order.
pub fn zip_config_entry(entries: &Vec<ZipEntry>) -> (r: Option<(usize, String)>)
    ensures
        match r {
            Some((k, prefix)) => config_entry_from(entries@, 0) == Some(k as int) && k
                < entries@.len() && prefix@ == config_prefix(entries@[k as int].name@),
            None => config_entry_from(entries@, 0) is None,
        },
{
    let suffix = vec!['c', 'o', 'n', 'f', 'i', 'g', '.', 't', 'o', 'm', 'l'];
    assert(suffix@ == config_file_name());
    let mut i: usize = 0;
    while i < entries.len()
        invariant
            i <= entries.len(),
            suffix@ == config_file_name(),
            config_entry_from(entries@, 0) == config_entry_from(entries@, i as nat),
        decreases entries.len() - i,
    {
        if !entries[i].is_dir {
            let n = slashed_chars(&chars_of(entries[i].name.as_str()));
            let lower = lowercase_chars(&n);
            if ends_with(&lower, &suffix) {
                let prefix = if ends_with(&n, &suffix) {
                    slice_chars(&n, 0, n.len() - 11)
                } else {
                    Vec::new()
                };
                return Some((i, string_of(prefix.as_slice())));
            }
        }
        i = i + 1;
    }
    None
}

/// The archive entry an `Include` of a zipped pack names: the configuration's
/// directory followed by the checked relative path.
pub fn zip_include_name(prefix: &str, entry: &str, style: PathStyle) -> (r: Result<
    String,
    ConfigError,
>)
    ensures
        match r {
            Ok(n) => safe_relative(entry@, style) matches Some(rel) && n@ == prefix@ + rel,
            Err(e) => safe_relative(entry@, style) is None && (e matches ConfigError::InvalidIncludePath {
                path,
            } && path@ == entry@),
        },
{
    match safe_relative_path(entry, style) {
        Err(_) => Err(ConfigError::InvalidIncludePath { path: string_of(chars_of(entry).as_slice()) }),
        Ok(rel) => {
            let all = concat_chars(&chars_of(prefix), &chars_of(rel.as_str()));
            Ok(string_of(all.as_slice()))
        },
    }
}

/// Where an archive entry is extracted: entries outside `strip_prefix` and blank
/// remainders are skipped; the rest must be safe relative paths.
pub open spec fn zip_target(name: Seq<char>, strip_prefix: Seq<char>, style: PathStyle) -> Result<
    Option<Seq<char>>,
    PathError,
> {
    let full = slashed(name);
    if strip_prefix.len() > 0 && !strip_prefix.is_prefix_of(full) {
        Ok(None)
    } else {
        let rel = full.skip(strip_prefix.len() as int);
        if trim(rel).len() == 0 {
            Ok(None)
        } else {
            match safe_relative(rel, style) {
                Some(p) => Ok(Some(p)),
                None => if crate::paths::illegal_path(rel, style) {
                    Err(PathError::Illegal)
                } else {
                    Err(PathError::Empty)
                },
            }
        }
    }
}

/// The path, relative to the target directory, that an archive entry is
/// extracted to, none when it is skipped.
pub fn zip_entry_target(name: &str, strip_prefix: &str, style: PathStyle) -> (r: Result<
    Option<String>,
    PathError,
>)
    ensures
        match r {
            Ok(Some(p)) => zip_target(name@, strip_prefix@, style) == Ok::<
                Option<Seq<char>>,
                PathError,
            >(Some(p@)),
            Ok(None) => zip_target(name@, strip_prefix@, style) == Ok::<Option<Seq<char>>, PathError>(
                None,
            ),
            Err(e) => zip_target(name@, strip_prefix@, style) == Err::<Option<Seq<char>>, PathError>(e),
        },
{
    let full = slashed_chars(&chars_of(name));
    let prefix = chars_of(strip_prefix);
    if prefix.len() > 0 && !starts_with(&full, &prefix) {
        return Ok(None);
    }
    if prefix.len() > full.len() {
        return Ok(None);
    }
    let rel = slice_chars(&full, prefix.len(), full.len());
    assert(rel@ == full@.skip(prefix@.len() as int));
    if trim_chars(&rel).len() == 0 {
        return Ok(None);
    }
    let rel_text = string_of(rel.as_slice());
    match safe_relative_path(rel_text.as_str(), style) {
        Ok(p) => Ok(Some(p)),
        Err(e) => Err(e),
    }
}

// ----- the texts of a zipped pack ------------------------------------------

/// The configuration of a zipped pack: the entry's name (`\` read as `/`), the
/// directory it lies in and its text.
pub struct ZipConfigText {
    pub name: String,
    pub prefix: String,
    pub text: String,
}

/// Why a zipped pack's configuration cannot be read.
#[derive(Debug)]
pub enum ZipConfigError {
    /// No entry is a `config.toml`.
    NoConfig,
    /// The configuration entry is not UTF-8 text (its name, `\` read as `/`).
    NotText { name: String },
}

/// Reads the configuration of a zipped pack: the first entry that is a
/// `config.toml` (`zip_config_entry`), decoded as UTF-8.
pub fn zip_config_text(entries: &Vec<ZipEntry>) -> (r: Result<ZipConfigText, ZipConfigError>)
    ensures
        match r {
            Ok(c) => config_entry_from(entries@, 0) matches Some(k) && valid_utf8(
                entries@[k].data@,
            ) && c.text@ == decode_utf8(entries@[k].data@) && c.name@ == slashed(
                entries@[k].name@,
            ) && c.prefix@ == config_prefix(entries@[k].name@),
            Err(ZipConfigError::NoConfig) => config_entry_from(entries@, 0) is None,
            Err(ZipConfigError::NotText { name }) => config_entry_from(entries@, 0) matches Some(k)
                && !valid_utf8(entries@[k].data@) && name@ == slashed(entries@[k].name@),
        },
{
    let (k, prefix) = match zip_config_entry(entries) {
        None => {
            return Err(ZipConfigError::NoConfig);
        },
        Some(found) => found,
    };
    let name = string_of(slashed_chars(&chars_of(entries[k].name.as_str())).as_slice());
    match utf8_text(entries[k].data.as_slice()) {
        None => Err(ZipConfigError::NotText { name }),
        Some(text) => Ok(ZipConfigText { name, prefix, text }),
    }
}

/// The first entry, from index `i` on, whose name is exactly `name`.
pub open spec fn entry_named(entries: Seq<ZipEntry>, name: Seq<char>, i: nat) -> Option<int>
    decreases entries.len() - i,
{
    if i >= entries.len() {
        None
    } else if entries[i as int].name@ == name {
        Some(i as int)
    } else {
        entry_named(entries, name, i + 1)
    }
}

/// Why an `Include` of a zipped pack cannot be read.
#[derive(Debug)]
pub enum ZipIncludeError {
    /// The entry is not a relative path inside the pack (as written).
    InvalidPath { path: String },
    /// No archive entry has the name the entry leads to.
    Missing { name: String },
    /// That archive entry is not UTF-8 text.
    NotText { name: String },
}

/// Reads the file an `Include` entry of a zipped pack names: the archive entry
/// called `prefix` followed by the checked relative path (`zip_include_name`),
/// looked up by exact name and decoded as UTF-8.
pub fn zip_include_text(
    entries: &Vec<ZipEntry>,
    prefix: &str,
    entry: &str,
    style: PathStyle,
) -> (r: Result<String, ZipIncludeError>)
    ensures
        match r {
            Ok(s) => {
                &&& safe_relative(entry@, style) is Some
                &&& entry_named(entries@, prefix@ + safe_relative(entry@, style)->0, 0) matches Some(
                    k,
                ) && (valid_utf8(entries@[k].data@) && s@ == decode_utf8(entries@[k].data@))
            },
            Err(ZipIncludeError::InvalidPath { path }) => safe_relative(entry@, style) is None
                && path@ == entry@,
            Err(ZipIncludeError::Missing { name }) => {
                &&& safe_relative(entry@, style) is Some
                &&& name@ == prefix@ + safe_relative(entry@, style)->0
                &&& entry_named(entries@, name@, 0) is None
            },
            Err(ZipIncludeError::NotText { name }) => {
                &&& safe_relative(entry@, style) is Some
                &&& name@ == prefix@ + safe_relative(entry@, style)->0
                &&& entry_named(entries@, name@, 0) matches Some(k) && !valid_utf8(
                    entries@[k].data@,
                )
            },
        },
{
    let name = match zip_include_name(prefix, entry, style) {
        Err(_) => {
            return Err(ZipIncludeError::InvalidPath { path: string_of(chars_of(entry).as_slice()) });
        },
        Ok(n) => n,
    };
    let target = chars_of(name.as_str());
    assert(safe_relative(entry@, style) is Some);
    let mut i: usize = 0;
    while i < entries.len()
        invariant
            i <= entries.len(),
            target@ == name@,
            safe_relative(entry@, style) is Some,
            name@ == prefix@ + safe_relative(entry@, style)->0,
            entry_named(entries@, name@, 0) == entry_named(entries@, name@, i as nat),
        decreases entries.len() - i,
    {
        if chars_eq(&chars_of(entries[i].name.as_str()), &target) {
            assert(entry_named(entries@, name@, i as nat) == Some(i as int));
            return match utf8_text(entries[i].data.as_slice()) {
                None => Err(ZipIncludeError::NotText { name }),
                Some(s) => Ok(s),
            };
        }
        i = i + 1;
    }
    Err(ZipIncludeError::Missing { name })
}

// ----- extracting an archive ------------------------------------------------

/// One thing to write when an archive is extracted: a directory or a file at
/// `path`, relative to the target directory.
pub struct ExtractStep {
    pub path: String,
    pub is_dir: bool,
    pub data: Vec<u8>,
}

/// What extracting an archive writes, in archive order, and the entry it stopped
/// at, if any: the reason and the entry's name past the prefix.
pub struct ExtractPlan {
    pub steps: Vec<ExtractStep>,
    pub stopped: Option<(PathError, String)>,
}

pub open spec fn step_view(s: ExtractStep) -> (Seq<char>, bool, Seq<u8>) {
    (s.path@, s.is_dir, s.data@)
}

pub open spec fn stop_view(o: Option<(PathError, String)>) -> Option<(PathError, Seq<char>)> {
    match o {
        Some((e, n)) => Some((e, n@)),
        None => None,
    }
}

/// The plan for the first `n` entries: each entry kept by `zip_target` gives a
/// step at its target; the first entry whose path is refused stops the plan.
pub open spec fn plan_upto(
    es: Seq<(Seq<char>, bool, Seq<u8>)>,
    prefix: Seq<char>,
    style: PathStyle,
    n: nat,
) -> (Seq<(Seq<char>, bool, Seq<u8>)>, Option<(PathError, Seq<char>)>)
    decreases n,
{
    if n == 0 || n > es.len() {
        (Seq::empty(), None)
    } else {
        let (steps, stop) = plan_upto(es, prefix, style, (n - 1) as nat);
        if stop is Some {
            (steps, stop)
        } else {
            let e = es[n - 1];
            match zip_target(e.0, prefix, style) {
                Ok(None) => (steps, None),
                Ok(Some(p)) => (steps.push((p, e.1, e.2)), None),
                Err(x) => (steps, Some((x, slashed(e.0).skip(prefix.len() as int)))),
            }
        }
    }
}

/// What extracting the archive's entries under `strip_prefix` writes: each entry
/// in archive order goes to `zip_entry_target` of its name; skipped entries give
/// nothing, and the first refused one stops the extraction.
pub fn extract_plan(entries: Vec<ZipEntry>, strip_prefix: &str, style: PathStyle) -> (r: ExtractPlan)
    ensures
        plan_upto(entries_view(entries@), strip_prefix@, style, entries@.len()) == (
            r.steps@.map_values(|s: ExtractStep| step_view(s)),
            stop_view(r.stopped),
        ),
{
    let ghost es = entries_view(entries@);
    let n = entries.len();
    let mut rest = entries;
    let mut steps: Vec<ExtractStep> = Vec::new();
    let ghost orig = rest@;
    while rest.len() > 0
        invariant
            n == orig.len(),
            orig == entries@,
            es == entries_view(orig),
            rest.len() <= n,
            rest@ == orig.subrange(n - rest.len(), n as int),
            plan_upto(es, strip_prefix@, style, (n - rest.len()) as nat) == (
                steps@.map_values(|s: ExtractStep| step_view(s)),
                None::<(PathError, Seq<char>)>,
            ),
        decreases rest.len(),
    {
        let ghost i = n - rest.len();
        let e = rest.remove(0);
        assert(rest@ =~= orig.subrange(n - rest.len(), n as int));
        assert(entry_view(e) == es[i]);
        let ghost before = steps@.map_values(|s: ExtractStep| step_view(s));
        match zip_entry_target(e.name.as_str(), strip_prefix, style) {
            Ok(None) => {},
            Ok(Some(p)) => {
                let step = ExtractStep { path: p, is_dir: e.is_dir, data: e.data };
                steps.push(step);
                assert(steps@.map_values(|s: ExtractStep| step_view(s)) =~= before.push(
                    step_view(step),
                ));
            },
            Err(x) => {
                let full = slashed_chars(&chars_of(e.name.as_str()));
                let prefix = chars_of(strip_prefix);
                assert(zip_target(e.name@, strip_prefix@, style) == Err::<Option<Seq<char>>, PathError>(x));
                assert(prefix@.len() <= full@.len());
                assert(plan_upto(es, strip_prefix@, style, (i + 1) as nat) == (
                    before,
                    Some((x, slashed(e.name@).skip(strip_prefix@.len() as int))),
                ));
                let shown = if prefix.len() <= full.len() {
                    slice_chars(&full, prefix.len(), full.len())
                } else {
                    Vec::new()
                };
                assert(shown@ =~= slashed(e.name@).skip(strip_prefix@.len() as int));
                let ghost k = (n - rest.len()) as nat;
                proof {
                    lemma_plan_stops(es, strip_prefix@, style, k, n as nat);
                }
                return ExtractPlan { steps, stopped: Some((x, string_of(shown.as_slice()))) };
            },
        }
    }
    assert(plan_upto(es, strip_prefix@, style, n as nat) == plan_upto(
        es,
        strip_prefix@,
        style,
        orig.len(),
    ));
    ExtractPlan { steps, stopped: None }
}

proof fn lemma_plan_stops(
    es: Seq<(Seq<char>, bool, Seq<u8>)>,
    prefix: Seq<char>,
    style: PathStyle,
    k: nat,
    m: nat,
)
    requires
        0 < k <= m <= es.len(),
        plan_upto(es, prefix, style, k).1 is Some,
    ensures
        plan_upto(es, prefix, style, m) == plan_upto(es, prefix, style, k),
    decreases m,
{
    if m > k {
        lemma_plan_stops(es, prefix, style, k, (m - 1) as nat);
    }
}

/// The directory name an imported pack gets: its
/// sanitized name. (The archive's file name would serve only when that is
/// blank, which sanitizing never leaves.)
pub fn import_base_name(config: &RawPackConfig) -> (r: String)
    ensures
        r@ == sanitized(config.config.name@),
{
    crate::storage::sanitize_component_dir_name(config.config.name.as_str())
}

/// Is a found pack the one with this id: its trimmed id equals it up to ASCII
/// case (how an imported pack and `find_repository_pack` recognise packs).
pub fn pack_id_matches(config_id: &str, wanted: &str) -> (r: bool)
    ensures
        r == eq_ignore_case(trim(config_id@), wanted@),
{
    crate::text::chars_eq_ignore_case(&trim_chars(&chars_of(config_id)), &chars_of(wanted))
}

} // verus!
