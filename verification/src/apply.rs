use vstd::prelude::*;
use crate::control::{
    ControlError, ControlFault, apply_control_blocks, control_blocks_spec, copy_selection,
    default_selection, find_option, find_selection, lemma_option_index_bounds,
    lemma_selection_index_bounds, option_index, selection_index, toml_default_to_json,
};
use crate::model::{
    PackSelection, RawPackConfig, RawPackDataItem, RawPackMeta, RawPackOption, RawPackResource,
    SelView, SelectionValue,
};
use crate::replacements::{
    OptionError, OptionFault, RepView, Replacement, pairs_view, resolve_option_replacements,
    resolve_spec,
};
use crate::main_ini::{entry_line, has_entry, law_removed_entries_stay_absent, removed_all};
use crate::paths::{has_drive, safe_relative, safe_relative_path, slashed, slashed_chars, PathStyle};
use crate::text::{
    ascii_lower_seq, chars_eq_ignore_case, eq_ignore_case, split_once, split_once_chars,
    chars_of, concat_chars, join, join_chars, lines_of, replace_all, replace_chars, split_char,
    split_chars, string_of, trim, trim_chars, views,
};

verus! {

// ----- the output directory of a pack -------------------------------------

/// A piece of `Dir` that names a directory: not blank.
pub open spec fn dir_piece(p: Seq<char>) -> bool {
    trim(p).len() > 0
}

/// The directories below `Pack` where a pack's files go: `Dir` trimmed, `\`
/// read as `/`, split at `/`, blank pieces dropped (each kept piece as written).
pub open spec fn dir_parts(dir: Seq<char>) -> Seq<Seq<char>> {
    split_char(slashed(trim(dir)), '/').filter(|p: Seq<char>| dir_piece(p))
}

pub open spec fn word_pack() -> Seq<char> {
    seq!['P', 'a', 'c', 'k']
}

/// The pack's output directory relative to the instance, `/`-separated:
/// `Pack` followed by the parts of `Dir`.
pub open spec fn pack_dir(meta_dir: Seq<char>) -> Seq<char> {
    join(seq![word_pack()] + dir_parts(meta_dir), seq!['/'])
}

/// The parts of a pack's `Dir` below `Pack`.
pub fn pack_dir_parts(meta: &RawPackMeta) -> (r: Vec<Vec<char>>)
    ensures
        views(r@) == dir_parts(meta.dir@),
{
    let raw = chars_of(meta.dir.as_str());
    let t = trim_chars(&raw);
    let n = slashed_chars(&t);
    let pieces = split_chars(&n, '/');
    let ghost ps = views(pieces@);
    let ghost keep = |p: Seq<char>| dir_piece(p);
    let mut kept: Vec<Vec<char>> = Vec::new();
    let mut i: usize = 0;
    assert(ps.take(0) =~= Seq::<Seq<char>>::empty());
    while i < pieces.len()
        invariant
            i <= pieces.len(),
            ps == views(pieces@),
            keep == (|p: Seq<char>| dir_piece(p)),
            views(kept@) == ps.take(i as int).filter(keep),
        decreases pieces.len() - i,
    {
        let ghost prev = ps.take(i as int);
        assert(ps.take(i + 1).drop_last() =~= prev);
        reveal(Seq::filter);
        let tp = trim_chars(&pieces[i]);
        if tp.len() > 0 {
            let copy = crate::text::slice_chars(&pieces[i], 0, pieces[i].len());
            assert(copy@ =~= pieces@[i as int]@);
            kept.push(copy);
            assert(views(kept@) =~= prev.filter(keep).push(ps[i as int]));
        } else {
            assert(views(kept@) =~= prev.filter(keep));
        }
        i = i + 1;
    }
    assert(ps.take(pieces.len() as int) =~= ps);
    assert(keep =~= (|p: Seq<char>| dir_piece(p)));
    kept
}

fn pack_dir_chars(meta: &RawPackMeta) -> (r: Vec<char>)
    ensures
        r@ == pack_dir(meta.dir@),
{
    let parts = pack_dir_parts(meta);
    let mut all: Vec<Vec<char>> = Vec::new();
    let head = vec!['P', 'a', 'c', 'k'];
    assert(head@ == word_pack());
    all.push(head);
    let mut i: usize = 0;
    while i < parts.len()
        invariant
            i <= parts.len(),
            views(all@) == seq![word_pack()] + views(parts@).take(i as int),
        decreases parts.len() - i,
    {
        let p = crate::text::slice_chars(&parts[i], 0, parts[i].len());
        assert(p@ =~= parts@[i as int]@);
        let ghost before = views(all@);
        all.push(p);
        assert(views(all@) =~= before.push(p@));
        assert(views(parts@).take(i + 1) =~= views(parts@).take(i as int).push(p@));
        i = i + 1;
    }
    assert(views(parts@).take(parts.len() as int) =~= views(parts@));
    let sep = vec!['/'];
    assert(sep@ == seq!['/']);
    join_chars(&all, &sep)
}

/// The `{Dir}` placeholder of a pack: its output directory relative to the
/// instance (`pack_dir_placeholder`).
pub fn pack_dir_placeholder(meta: &RawPackMeta) -> (r: String)
    ensures
        r@ == pack_dir(meta.dir@),
{
    let c = pack_dir_chars(meta);
    string_of(c.as_slice())
}

/// A pack's output directory under an instance (`pack_output_base`), joined
/// with `/`.
pub fn pack_output_base(instance_path: &str, meta: &RawPackMeta) -> (r: String)
    ensures
        r@ == instance_path@ + seq!['/'] + pack_dir(meta.dir@),
{
    let base = chars_of(instance_path);
    let sep = vec!['/'];
    let with_sep = concat_chars(&base, &sep);
    let dir = pack_dir_chars(meta);
    let all = concat_chars(&with_sep, &dir);
    string_of(all.as_slice())
}

// ----- placeholders -------------------------------------------------------

pub open spec fn ph_dir() -> Seq<char> {
    seq!['{', 'D', 'i', 'r', '}']
}

pub open spec fn ph_id() -> Seq<char> {
    seq!['{', 'I', 'd', '}']
}

pub open spec fn ph_name() -> Seq<char> {
    seq!['{', 'N', 'a', 'm', 'e', '}']
}

/// `{Dir}`, `{Id}` and `{Name}` replaced, in that order, by the pack's output
/// directory, its trimmed id and its trimmed name.
pub open spec fn default_placeholders(content: Seq<char>, meta: RawPackMeta) -> Seq<char> {
    replace_all(
        replace_all(replace_all(content, ph_dir(), pack_dir(meta.dir@)), ph_id(), trim(meta.id@)),
        ph_name(),
        trim(meta.name@),
    )
}

/// `apply_default_placeholders`.
pub fn apply_default_placeholders(content: String, pack_meta: &RawPackMeta) -> (r: String)
    ensures
        r@ == default_placeholders(content@, *pack_meta),
{
    let c = chars_of(content.as_str());
    let dir = pack_dir_chars(pack_meta);
    let id_raw = chars_of(pack_meta.id.as_str());
    let id = trim_chars(&id_raw);
    let name_raw = chars_of(pack_meta.name.as_str());
    let name = trim_chars(&name_raw);
    let p_dir = vec!['{', 'D', 'i', 'r', '}'];
    let p_id = vec!['{', 'I', 'd', '}'];
    let p_name = vec!['{', 'N', 'a', 'm', 'e', '}'];
    assert(p_dir@ == ph_dir());
    assert(p_id@ == ph_id());
    assert(p_name@ == ph_name());
    let a = replace_chars(&c, &p_dir, &dir);
    let b = replace_chars(&a, &p_id, &id);
    let d = replace_chars(&b, &p_name, &name);
    string_of(d.as_slice())
}

/// The exports of a pack, each value with its default placeholders applied
/// (`resolve_pack_exports`), in table order.
pub fn resolve_pack_exports(config: &RawPackConfig) -> (r: Vec<(String, String)>)
    ensures
        r@.len() == config.exports@.len(),
        forall|k: int|
            0 <= k < r@.len() ==> (#[trigger] r@[k]).0@ == config.exports@[k].0@ && r@[k].1@
                == default_placeholders(config.exports@[k].1@, config.config),
{
    let mut out: Vec<(String, String)> = Vec::new();
    let mut i: usize = 0;
    while i < config.exports.len()
        invariant
            i <= config.exports.len(),
            out@.len() == i,
            forall|k: int|
                0 <= k < i ==> (#[trigger] out@[k]).0@ == config.exports@[k].0@ && out@[k].1@
                    == default_placeholders(config.exports@[k].1@, config.config),
        decreases config.exports.len() - i,
    {
        let name = config.exports[i].0.clone();
        let value = apply_default_placeholders(config.exports[i].1.clone(), &config.config);
        out.push((name, value));
        i = i + 1;
    }
    out
}

/// `{alias}` for an import alias.
pub open spec fn braced(name: Seq<char>) -> Seq<char> {
    seq!['{'] + name + seq!['}']
}

/// Each `{alias}` replaced by its value, alias after alias.
pub open spec fn import_placeholders(content: Seq<char>, imports: Seq<(String, String)>) -> Seq<
    char,
>
    decreases imports.len(),
{
    if imports.len() == 0 {
        content
    } else {
        replace_all(
            import_placeholders(content, imports.drop_last()),
            braced(imports.last().0@),
            imports.last().1@,
        )
    }
}

/// `apply_import_placeholders`.
pub fn apply_import_placeholders(content: String, imports: &Vec<(String, String)>) -> (r: String)
    ensures
        r@ == import_placeholders(content@, imports@),
{
    let mut c = chars_of(content.as_str());
    let mut i: usize = 0;
    assert(imports@.take(0) =~= Seq::<(String, String)>::empty());
    while i < imports.len()
        invariant
            i <= imports.len(),
            c@ == import_placeholders(content@, imports@.take(i as int)),
        decreases imports.len() - i,
    {
        assert(imports@.take(i + 1).drop_last() =~= imports@.take(i as int));
        let open = vec!['{'];
        let close = vec!['}'];
        let name = chars_of(imports[i].0.as_str());
        let pat = concat_chars(&concat_chars(&open, &name), &close);
        assert(pat@ == braced(imports@[i as int].0@));
        let value = chars_of(imports[i].1.as_str());
        c = replace_chars(&c, &pat, &value);
        i = i + 1;
    }
    assert(imports@.take(imports.len() as int) =~= imports@);
    string_of(c.as_slice())
}

// ----- imports ------------------------------------------------------------

/// What the import logic reads of one component of the instance.
#[derive(Debug)]
pub struct ImportCandidate {
    pub enabled: bool,
    /// The component is the pack being applied.
    pub same_pack: bool,
    /// Its pack's configuration, or the reader's message.
    pub config: Result<RawPackConfig, String>,
}

/// Why an `[Imports]` entry cannot be resolved.
#[derive(Debug)]
pub enum ImportError {
    /// The reference is not of the form `pack.export` (the alias as written).
    Format { alias: String },
    /// The alias, pack or export is blank (the alias as written).
    Invalid { alias: String },
    /// An enabled component's pack could not be read (the reader's message).
    Unreadable { message: String },
    /// The matching pack does not export the name (both as written).
    ExportMissing { pack: String, export: String },
    /// No enabled component is the pack (as written).
    PackMissing { pack: String },
}

/// The mathematical value of an `ImportError`.
pub enum ImportFault {
    Format(Seq<char>),
    Invalid(Seq<char>),
    Unreadable(Seq<char>),
    ExportMissing(Seq<char>, Seq<char>),
    PackMissing(Seq<char>),
}

impl View for ImportError {
    type V = ImportFault;

    open spec fn view(&self) -> ImportFault {
        match self {
            ImportError::Format { alias } => ImportFault::Format(alias@),
            ImportError::Invalid { alias } => ImportFault::Invalid(alias@),
            ImportError::Unreadable { message } => ImportFault::Unreadable(message@),
            ImportError::ExportMissing { pack, export } => ImportFault::ExportMissing(
                pack@,
                export@,
            ),
            ImportError::PackMissing { pack } => ImportFault::PackMissing(pack@),
        }
    }
}

/// The first export, from index `j` on, whose name equals `name` up to ASCII case.
pub open spec fn export_position(exports: Seq<(String, String)>, name: Seq<char>, j: nat) -> Option<
    int,
>
    decreases exports.len() - j,
{
    if j >= exports.len() {
        None
    } else if eq_ignore_case(exports[j as int].0@, name) {
        Some(j as int)
    } else {
        export_position(exports, name, j + 1)
    }
}

/// The value of `pack.export`, looked up among the components from index `k`
/// on: the first enabled component, other than the pack being applied, whose
/// pack's trimmed id or name equals the trimmed pack up to ASCII case decides.
pub open spec fn import_lookup(
    cands: Seq<ImportCandidate>,
    pack: Seq<char>,
    export: Seq<char>,
    k: nat,
) -> Result<Seq<char>, ImportFault>
    decreases cands.len() - k,
{
    if k >= cands.len() {
        Err(ImportFault::PackMissing(pack))
    } else {
        let c = cands[k as int];
        if !c.enabled || c.same_pack {
            import_lookup(cands, pack, export, k + 1)
        } else {
            match c.config {
                Err(m) => Err(ImportFault::Unreadable(m@)),
                Ok(cfg) => if !(eq_ignore_case(trim(cfg.config.id@), trim(pack)) || eq_ignore_case(
                    trim(cfg.config.name@),
                    trim(pack),
                )) {
                    import_lookup(cands, pack, export, k + 1)
                } else {
                    match export_position(cfg.exports@, trim(export), 0) {
                        None => Err(ImportFault::ExportMissing(pack, export)),
                        Some(j) => Ok(default_placeholders(cfg.exports@[j].1@, cfg.config)),
                    }
                },
            }
        }
    }
}

/// The position of `key` among the resolved aliases.
pub open spec fn key_position(m: Seq<(Seq<char>, Seq<char>)>, key: Seq<char>) -> Option<int>
    decreases m.len(),
{
    if m.len() == 0 {
        None
    } else {
        match key_position(m.drop_last(), key) {
            Some(j) => Some(j),
            None => if m.last().0 == key {
                Some(m.len() - 1)
            } else {
                None
            },
        }
    }
}

/// A map insertion: a known key gets the new value in place; a new key is added.
pub open spec fn insert_pair(m: Seq<(Seq<char>, Seq<char>)>, key: Seq<char>, value: Seq<char>) -> Seq<
    (Seq<char>, Seq<char>),
> {
    match key_position(m, key) {
        Some(j) => m.update(j, (key, value)),
        None => m.push((key, value)),
    }
}

/// One `[Imports]` entry resolved: its trimmed alias and its value.
pub open spec fn import_entry(cands: Seq<ImportCandidate>, alias: Seq<char>, reference: Seq<char>) -> Result<
    (Seq<char>, Seq<char>),
    ImportFault,
> {
    match split_once(trim(reference), '.') {
        None => Err(ImportFault::Format(alias)),
        Some((pack, export)) => if trim(alias).len() == 0 || trim(pack).len() == 0 || trim(
            export,
        ).len() == 0 {
            Err(ImportFault::Invalid(alias))
        } else {
            match import_lookup(cands, pack, export, 0) {
                Err(e) => Err(e),
                Ok(v) => Ok((trim(alias), v)),
            }
        },
    }
}

/// The first `i` imports resolved, in table order, or the first refusal.
pub open spec fn imports_upto(
    cands: Seq<ImportCandidate>,
    imports: Seq<(String, String)>,
    i: nat,
) -> Result<Seq<(Seq<char>, Seq<char>)>, ImportFault>
    decreases i,
{
    if i == 0 {
        Ok(Seq::empty())
    } else {
        match imports_upto(cands, imports, (i - 1) as nat) {
            Err(e) => Err(e),
            Ok(m) => match import_entry(cands, imports[i - 1].0@, imports[i - 1].1@) {
                Err(e) => Err(e),
                Ok((k, v)) => Ok(insert_pair(m, k, v)),
            },
        }
    }
}

pub open spec fn pair_views(v: Seq<(String, String)>) -> Seq<(Seq<char>, Seq<char>)> {
    v.map_values(|p: (String, String)| (p.0@, p.1@))
}

proof fn lemma_imports_err(cands: Seq<ImportCandidate>, imports: Seq<(String, String)>, i: nat, j: nat)
    requires
        i <= j,
        imports_upto(cands, imports, i) is Err,
    ensures
        imports_upto(cands, imports, j) == imports_upto(cands, imports, i),
    decreases j,
{
    if j > i {
        lemma_imports_err(cands, imports, i, (j - 1) as nat);
    }
}

proof fn lemma_key_position(m: Seq<(Seq<char>, Seq<char>)>, key: Seq<char>)
    ensures
        key_position(m, key) matches Some(j) ==> 0 <= j < m.len() && m[j].0 == key,
    decreases m.len(),
{
    if m.len() > 0 {
        lemma_key_position(m.drop_last(), key);
    }
}

proof fn lemma_key_position_prefix(m: Seq<(Seq<char>, Seq<char>)>, key: Seq<char>, n: int)
    requires
        0 <= n <= m.len(),
        key_position(m.take(n), key) is Some,
    ensures
        key_position(m, key) == key_position(m.take(n), key),
    decreases m.len() - n,
{
    if n == m.len() {
        assert(m.take(n) =~= m);
    } else {
        assert(m.take(n + 1).drop_last() =~= m.take(n));
        lemma_key_position_prefix(m, key, n + 1);
    }
}

fn import_lookup_exec(cands: &Vec<ImportCandidate>, pack: &Vec<char>, export: &Vec<char>) -> (r:
    Result<String, ImportError>)
    ensures
        match r {
            Ok(v) => import_lookup(cands@, pack@, export@, 0) == Ok::<Seq<char>, ImportFault>(v@),
            Err(e) => import_lookup(cands@, pack@, export@, 0) == Err::<Seq<char>, ImportFault>(e@),
        },
{
    let pack_trim = trim_chars(pack);
    let export_trim = trim_chars(export);
    let mut k: usize = 0;
    while k < cands.len()
        invariant
            k <= cands.len(),
            pack_trim@ == trim(pack@),
            export_trim@ == trim(export@),
            import_lookup(cands@, pack@, export@, 0) == import_lookup(
                cands@,
                pack@,
                export@,
                k as nat,
            ),
        decreases cands.len() - k,
    {
        let c = &cands[k];
        if c.enabled && !c.same_pack {
            match &c.config {
                Err(m) => {
                    return Err(ImportError::Unreadable { message: m.clone() });
                },
                Ok(cfg) => {
                    let id_raw = chars_of(cfg.config.id.as_str());
                    let id = trim_chars(&id_raw);
                    let nm_raw = chars_of(cfg.config.name.as_str());
                    let nm = trim_chars(&nm_raw);
                    if chars_eq_ignore_case(&id, &pack_trim) || chars_eq_ignore_case(
                        &nm,
                        &pack_trim,
                    ) {
                        let exports = resolve_pack_exports(cfg);
                        let mut j: usize = 0;
                        while j < exports.len()
                            invariant
                                j <= exports.len() == cfg.exports@.len(),
                                k < cands@.len(),
                                cands@[k as int].enabled && !cands@[k as int].same_pack,
                                cands@[k as int].config == Ok::<RawPackConfig, String>(*cfg),
                                eq_ignore_case(trim(cfg.config.id@), trim(pack@)) || eq_ignore_case(
                                    trim(cfg.config.name@),
                                    trim(pack@),
                                ),
                                import_lookup(cands@, pack@, export@, 0) == import_lookup(
                                    cands@,
                                    pack@,
                                    export@,
                                    k as nat,
                                ),
                                export_trim@ == trim(export@),
                                forall|q: int|
                                    0 <= q < exports@.len() ==> (#[trigger] exports@[q]).0@
                                        == cfg.exports@[q].0@ && exports@[q].1@
                                        == default_placeholders(cfg.exports@[q].1@, cfg.config),
                                export_position(cfg.exports@, trim(export@), 0) == export_position(
                                    cfg.exports@,
                                    trim(export@),
                                    j as nat,
                                ),
                            decreases exports.len() - j,
                        {
                            let name = chars_of(exports[j].0.as_str());
                            if chars_eq_ignore_case(&name, &export_trim) {
                                return Ok(exports[j].1.clone());
                            }
                            j = j + 1;
                        }
                        return Err(
                            ImportError::ExportMissing {
                                pack: string_of(pack.as_slice()),
                                export: string_of(export.as_slice()),
                            },
                        );
                    }
                },
            }
        }
        k = k + 1;
    }
    Err(ImportError::PackMissing { pack: string_of(pack.as_slice()) })
}

/// Resolves a pack's `[Imports]` against the other enabled components of the
/// instance (`resolve_import_placeholders`): each entry `alias = "pack.export"`
/// gets the export's value, with that pack's default placeholders applied.
pub fn resolve_import_placeholders(
    candidates: &Vec<ImportCandidate>,
    imports: &Vec<(String, String)>,
) -> (r: Result<Vec<(String, String)>, ImportError>)
    ensures
        match r {
            Ok(v) => imports_upto(candidates@, imports@, imports@.len()) == Ok::<
                Seq<(Seq<char>, Seq<char>)>,
                ImportFault,
            >(pair_views(v@)),
            Err(e) => imports_upto(candidates@, imports@, imports@.len()) == Err::<
                Seq<(Seq<char>, Seq<char>)>,
                ImportFault,
            >(e@),
        },
{
    let mut out: Vec<(String, String)> = Vec::new();
    let mut i: usize = 0;
    assert(pair_views(out@) =~= Seq::<(Seq<char>, Seq<char>)>::empty());
    while i < imports.len()
        invariant
            i <= imports.len(),
            imports_upto(candidates@, imports@, i as nat) == Ok::<
                Seq<(Seq<char>, Seq<char>)>,
                ImportFault,
            >(pair_views(out@)),
        decreases imports.len() - i,
    {
        let alias = chars_of(imports[i].0.as_str());
        let reference = chars_of(imports[i].1.as_str());
        let r_trim = trim_chars(&reference);
        let entry: Result<(Vec<char>, String), ImportError> = match split_once_chars(&r_trim, '.') {
            None => Err(ImportError::Format { alias: string_of(alias.as_slice()) }),
            Some((pack, export)) => {
                let a_trim = trim_chars(&alias);
                let p_trim = trim_chars(&pack);
                let e_trim = trim_chars(&export);
                if a_trim.len() == 0 || p_trim.len() == 0 || e_trim.len() == 0 {
                    Err(ImportError::Invalid { alias: string_of(alias.as_slice()) })
                } else {
                    match import_lookup_exec(candidates, &pack, &export) {
                        Err(e) => Err(e),
                        Ok(v) => Ok((a_trim, v)),
                    }
                }
            },
        };
        match entry {
            Err(e) => {
                assert(import_entry(candidates@, imports@[i as int].0@, imports@[i as int].1@)
                    == Err::<(Seq<char>, Seq<char>), ImportFault>(e@));
                proof {
                    lemma_imports_err(candidates@, imports@, (i + 1) as nat, imports@.len());
                }
                return Err(e);
            },
            Ok((key, value)) => {
                assert(import_entry(candidates@, imports@[i as int].0@, imports@[i as int].1@)
                    == Ok::<(Seq<char>, Seq<char>), ImportFault>((key@, value@)));
                let ghost m = pair_views(out@);
                let mut found: Option<usize> = None;
                let mut j: usize = 0;
                assert(m.take(0) =~= Seq::<(Seq<char>, Seq<char>)>::empty());
                while j < out.len()
                    invariant_except_break
                        j <= out.len(),
                        found is None,
                        m == pair_views(out@),
                        key_position(m.take(j as int), key@) is None,
                    ensures
                        m == pair_views(out@),
                        match found {
                            Some(q) => key_position(m, key@) == Some(q as int),
                            None => key_position(m.take(out.len() as int), key@) is None,
                        },
                    decreases out.len() - j,
                {
                    assert(m.take(j + 1).drop_last() =~= m.take(j as int));
                    let k = chars_of(out[j].0.as_str());
                    if crate::text::chars_eq(&k, &key) {
                        found = Some(j);
                        proof {
                            lemma_key_position_prefix(m, key@, j + 1);
                        }
                        break;
                    }
                    j = j + 1;
                }
                proof {
                    if found is None {
                        assert(m.take(out.len() as int) =~= m);
                    }
                }
                match found {
                    Some(q) => {
                        proof {
                            lemma_key_position(m, key@);
                        }
                        out.set(q, (string_of(key.as_slice()), value));
                        assert(pair_views(out@) =~= insert_pair(m, key@, value@));
                    },
                    None => {
                        out.push((string_of(key.as_slice()), value));
                        assert(pair_views(out@) =~= insert_pair(m, key@, value@));
                    },
                }
            },
        }
        i = i + 1;
    }
    Ok(out)
}

// ----- a data file --------------------------------------------------------

/// Why a data file cannot be written.
#[derive(Debug)]
pub enum DataFileError {
    /// Its control blocks are refused.
    Control(ControlError),
    /// The data entry names an option the pack does not have (file, option).
    UnknownOption { file: String, option: String },
    /// The option has neither a selection nor a default.
    NoValue { option: String },
    /// The option's default is not a bool, an integer or a string.
    UnsupportedDefault { option: String },
    /// The option's value does not fit it.
    OptionValue { option: String, error: OptionError },
}

/// The mathematical value of a `DataFileError`.
pub enum DataFault {
    Control(ControlFault),
    UnknownOption(Seq<char>, Seq<char>),
    NoValue(Seq<char>),
    UnsupportedDefault(Seq<char>),
    OptionValue(Seq<char>, OptionFault),
}

impl View for DataFileError {
    type V = DataFault;

    open spec fn view(&self) -> DataFault {
        match self {
            DataFileError::Control(e) => DataFault::Control(e@),
            DataFileError::UnknownOption { file, option } => DataFault::UnknownOption(
                file@,
                option@,
            ),
            DataFileError::NoValue { option } => DataFault::NoValue(option@),
            DataFileError::UnsupportedDefault { option } => DataFault::UnsupportedDefault(option@),
            DataFileError::OptionValue { option, error } => DataFault::OptionValue(
                option@,
                error@,
            ),
        }
    }
}

/// The value that decides an option's replacements: its selection, else its
/// default (which must be a bool, an integer or a string).
pub open spec fn option_value(o: RawPackOption, sels: Seq<PackSelection>, name: Seq<char>) -> Result<
    SelView,
    DataFault,
> {
    match selection_index(sels, name) {
        Some(j) => Ok(sels[j].value@),
        None => match o.default {
            None => Err(DataFault::NoValue(name)),
            Some(d) => match default_selection(d) {
                None => Err(DataFault::UnsupportedDefault(name)),
                Some(v) => Ok(v),
            },
        },
    }
}

/// The replacements one option name of a data entry asks for: none for a
/// control option, else those of its value, or why there are none.
pub open spec fn option_step(
    opts: Seq<RawPackOption>,
    sels: Seq<PackSelection>,
    file: Seq<char>,
    name: Seq<char>,
) -> Option<Result<Seq<(Seq<char>, RepView)>, DataFault>> {
    match option_index(opts, name) {
        None => Some(Err(DataFault::UnknownOption(file, name))),
        Some(i) => if opts[i].control {
            None
        } else {
            match option_value(opts[i], sels, name) {
                Err(e) => Some(Err(e)),
                Ok(v) => match resolve_spec(opts[i], v) {
                    Err(f) => Some(Err(DataFault::OptionValue(name, f))),
                    Ok(reps) => Some(Ok(reps)),
                },
            }
        },
    }
}

/// The replacement lists of the first `i` option names, in order, up to the
/// first refusal, which ends the list.
pub open spec fn steps_upto(
    opts: Seq<RawPackOption>,
    sels: Seq<PackSelection>,
    file: Seq<char>,
    names: Seq<String>,
    i: nat,
) -> (Seq<Seq<(Seq<char>, RepView)>>, Option<DataFault>)
    decreases i,
{
    if i == 0 {
        (Seq::empty(), None)
    } else {
        let (acc, stop) = steps_upto(opts, sels, file, names, (i - 1) as nat);
        if stop is Some {
            (acc, stop)
        } else {
            match option_step(opts, sels, file, names[i - 1]@) {
                None => (acc, None),
                Some(Err(e)) => (acc, Some(e)),
                Some(Ok(reps)) => (acc.push(reps), None),
            }
        }
    }
}

/// A data file once its control blocks are applied and its `{Dir}`, `{Id}`,
/// `{Name}` and import placeholders are replaced, with the option replacements
/// still to make, in order, and what stopped them, if anything.
#[derive(Debug)]
pub struct PreparedDataFile {
    pub content: String,
    pub replacements: Vec<Vec<(String, Replacement)>>,
    pub stopped: Option<DataFileError>,
}

pub open spec fn rep_lists(v: Seq<Vec<(String, Replacement)>>) -> Seq<Seq<(Seq<char>, RepView)>> {
    v.map_values(|l: Vec<(String, Replacement)>| pairs_view(l@))
}

pub open spec fn opt_fault(o: Option<DataFileError>) -> Option<DataFault> {
    match o {
        Some(e) => Some(e@),
        None => None,
    }
}

/// What `prepare_data_file` gives.
pub open spec fn prepared(
    content: Seq<char>,
    c: RawPackConfig,
    sels: Seq<PackSelection>,
    imports: Seq<(String, String)>,
    file: Seq<char>,
    names: Seq<String>,
) -> Result<(Seq<char>, Seq<Seq<(Seq<char>, RepView)>>, Option<DataFault>), DataFault> {
    match control_blocks_spec(content, c.options@, sels) {
        Err(e) => Err(DataFault::Control(e)),
        Ok(kept) => {
            let text = import_placeholders(default_placeholders(kept, c.config), imports);
            let (reps, stop) = steps_upto(c.options@, sels, file, names, names.len());
            Ok((text, reps, stop))
        },
    }
}

proof fn lemma_steps_stop(
    opts: Seq<RawPackOption>,
    sels: Seq<PackSelection>,
    file: Seq<char>,
    names: Seq<String>,
    i: nat,
    j: nat,
)
    requires
        i <= j,
        steps_upto(opts, sels, file, names, i).1 is Some,
    ensures
        steps_upto(opts, sels, file, names, j) == steps_upto(opts, sels, file, names, i),
    decreases j,
{
    if j > i {
        lemma_steps_stop(opts, sels, file, names, i, (j - 1) as nat);
    }
}

fn option_step_exec(
    opts: &Vec<RawPackOption>,
    sels: &Vec<PackSelection>,
    file: &str,
    name: &String,
) -> (r: Option<Result<Vec<(String, Replacement)>, DataFileError>>)
    ensures
        match r {
            None => option_step(opts@, sels@, file@, name@) is None,
            Some(Ok(v)) => option_step(opts@, sels@, file@, name@) == Some(
                Ok::<Seq<(Seq<char>, RepView)>, DataFault>(pairs_view(v@)),
            ),
            Some(Err(e)) => option_step(opts@, sels@, file@, name@) == Some(
                Err::<Seq<(Seq<char>, RepView)>, DataFault>(e@),
            ),
        },
{
    let n = chars_of(name.as_str());
    let idx = match find_option(opts, &n) {
        None => {
            let f = string_of(chars_of(file).as_slice());
            return Some(Err(DataFileError::UnknownOption { file: f, option: name.clone() }));
        },
        Some(i) => i,
    };
    proof {
        lemma_option_index_bounds(opts@, n@);
    }
    let o = &opts[idx];
    if o.control {
        return None;
    }
    let value: SelectionValue = match find_selection(sels, &n) {
        Some(j) => {
            proof {
                lemma_selection_index_bounds(sels@, n@);
            }
            copy_selection(&sels[j].value)
        },
        None => match &o.default {
            None => {
                return Some(Err(DataFileError::NoValue { option: name.clone() }));
            },
            Some(d) => match toml_default_to_json(d) {
                None => {
                    return Some(Err(DataFileError::UnsupportedDefault { option: name.clone() }));
                },
                Some(v) => v,
            },
        },
    };
    assert(option_value(*o, sels@, name@) == Ok::<SelView, DataFault>(value@));
    match resolve_option_replacements(o, &value) {
        Err(error) => Some(Err(DataFileError::OptionValue { option: name.clone(), error })),
        Ok(reps) => Some(Ok(reps)),
    }
}

/// Prepares one data file of a pack :
/// applies its control blocks, its `{Dir}`/`{Id}`/`{Name}` placeholders and the
/// resolved imports, then lists the replacements that the entry's options ask
/// for, in order; the caller computes value outputs, stops at the first
/// refusal, and makes the replacements with `apply_replacements`.
pub fn prepare_data_file(
    content: &str,
    config: &RawPackConfig,
    selections: &Vec<PackSelection>,
    imports: &Vec<(String, String)>,
    file_name: &str,
    option_names: &Vec<String>,
) -> (r: Result<PreparedDataFile, DataFileError>)
    ensures
        match r {
            Ok(p) => prepared(
                content@,
                *config,
                selections@,
                imports@,
                file_name@,
                option_names@,
            ) == Ok::<(Seq<char>, Seq<Seq<(Seq<char>, RepView)>>, Option<DataFault>), DataFault>(
                (p.content@, rep_lists(p.replacements@), opt_fault(p.stopped)),
            ),
            Err(e) => prepared(
                content@,
                *config,
                selections@,
                imports@,
                file_name@,
                option_names@,
            ) == Err::<(Seq<char>, Seq<Seq<(Seq<char>, RepView)>>, Option<DataFault>), DataFault>(
                e@,
            ),
        },
{
    let kept = match apply_control_blocks(content, &config.options, selections) {
        Err(e) => {
            return Err(DataFileError::Control(e));
        },
        Ok(k) => k,
    };
    let with_defaults = apply_default_placeholders(kept, &config.config);
    let text = apply_import_placeholders(with_defaults, imports);
    let mut lists: Vec<Vec<(String, Replacement)>> = Vec::new();
    let mut stopped: Option<DataFileError> = None;
    let mut i: usize = 0;
    assert(rep_lists(lists@) =~= Seq::<Seq<(Seq<char>, RepView)>>::empty());
    while i < option_names.len()
        invariant_except_break
            i <= option_names.len(),
            stopped is None,
            steps_upto(config.options@, selections@, file_name@, option_names@, i as nat) == (
                rep_lists(lists@),
                None::<DataFault>,
            ),
        ensures
            steps_upto(
                config.options@,
                selections@,
                file_name@,
                option_names@,
                option_names@.len(),
            ) == (rep_lists(lists@), opt_fault(stopped)),
        decreases option_names.len() - i,
    {
        match option_step_exec(&config.options, selections, file_name, &option_names[i]) {
            None => {},
            Some(Ok(reps)) => {
                let ghost before = rep_lists(lists@);
                lists.push(reps);
                assert(rep_lists(lists@) =~= before.push(pairs_view(reps@)));
            },
            Some(Err(e)) => {
                stopped = Some(e);
                proof {
                    lemma_steps_stop(
                        config.options@,
                        selections@,
                        file_name@,
                        option_names@,
                        (i + 1) as nat,
                        option_names@.len(),
                    );
                }
                break;
            },
        }
        i = i + 1;
    }
    Ok(PreparedDataFile { content: text, replacements: lists, stopped })
}

/// The replacements made in order, each on the text the previous ones left.
pub open spec fn replaced(content: Seq<char>, reps: Seq<(Seq<char>, Seq<char>)>) -> Seq<char>
    decreases reps.len(),
{
    if reps.len() == 0 {
        content
    } else {
        replace_all(replaced(content, reps.drop_last()), reps.last().0, reps.last().1)
    }
}

/// Makes placeholder replacements in order (`str::replace` one after another).
pub fn apply_replacements(content: &str, replacements: &Vec<(String, String)>) -> (r: String)
    requires
        forall|k: int| 0 <= k < replacements@.len() ==> (#[trigger] replacements@[k]).0@.len() > 0,
    ensures
        r@ == replaced(content@, pair_views(replacements@)),
{
    let ghost pv = pair_views(replacements@);
    let mut c = chars_of(content);
    let mut i: usize = 0;
    assert(pv.take(0) =~= Seq::<(Seq<char>, Seq<char>)>::empty());
    while i < replacements.len()
        invariant
            i <= replacements.len(),
            pv == pair_views(replacements@),
            forall|k: int| 0 <= k < replacements@.len() ==> (#[trigger] replacements@[k]).0@.len() > 0,
            c@ == replaced(content@, pv.take(i as int)),
        decreases replacements.len() - i,
    {
        assert(pv.take(i + 1).drop_last() =~= pv.take(i as int));
        let pat = chars_of(replacements[i].0.as_str());
        let rep = chars_of(replacements[i].1.as_str());
        assert(replacements@[i as int].0@.len() > 0);
        c = replace_chars(&c, &pat, &rep);
        i = i + 1;
    }
    assert(pv.take(replacements.len() as int) =~= pv);
    string_of(c.as_slice())
}

// ----- data entries and resources -----------------------------------------

/// Why a data entry cannot be placed.
#[derive(Debug)]
pub enum DataEntryError {
    /// The entry has neither `File` nor `Name`.
    MissingFile,
    /// The file is an absolute path, outside the pack's directory (as trimmed).
    OutsideInstance { file: String },
}

/// The file of a data entry: its trimmed `File`, else its trimmed `Name`.
pub open spec fn data_file_name(item: RawPackDataItem) -> Option<Seq<char>> {
    let f = trim(item.file@);
    if f.len() > 0 {
        Some(f)
    } else if trim(item.name@).len() > 0 {
        Some(trim(item.name@))
    } else {
        None
    }
}

/// `data_item_file_name`.
pub fn data_item_file_name(item: &RawPackDataItem) -> (r: Result<String, DataEntryError>)
    ensures
        match r {
            Ok(f) => data_file_name(*item) == Some(f@),
            Err(e) => data_file_name(*item) is None && e is MissingFile,
        },
{
    let f_raw = chars_of(item.file.as_str());
    let f = trim_chars(&f_raw);
    if f.len() > 0 {
        return Ok(string_of(f.as_slice()));
    }
    let n_raw = chars_of(item.name.as_str());
    let n = trim_chars(&n_raw);
    if n.len() > 0 {
        return Ok(string_of(n.as_slice()));
    }
    Err(DataEntryError::MissingFile)
}

/// The main INI files that data entries are registered in, by data group
/// (`Rules`, `Art`, `Ai`, `Theme`, `Ui`).
pub open spec fn main_files() -> Seq<Seq<char>> {
    seq![
        seq!['R', 'u', 'l', 'e', 's', 'M', 'a', 'i', 'n', '.', 'i', 'n', 'i'],
        seq!['A', 'r', 't', 'M', 'a', 'i', 'n', '.', 'i', 'n', 'i'],
        seq!['A', 'i', 'M', 'a', 'i', 'n', '.', 'i', 'n', 'i'],
        seq!['T', 'h', 'e', 'm', 'e', 'M', 'a', 'i', 'n', '.', 'i', 'n', 'i'],
        seq!['U', 'I', 'M', 'a', 'i', 'n', '.', 'i', 'n', 'i'],
    ]
}

/// The main INI file of data group `group` (0 to 4: Rules, Art, Ai, Theme, Ui).
pub fn main_ini_file(group: usize) -> (r: String)
    requires
        group < 5,
    ensures
        r@ == main_files()[group as int],
{
    let c = if group == 0 {
        vec!['R', 'u', 'l', 'e', 's', 'M', 'a', 'i', 'n', '.', 'i', 'n', 'i']
    } else if group == 1 {
        vec!['A', 'r', 't', 'M', 'a', 'i', 'n', '.', 'i', 'n', 'i']
    } else if group == 2 {
        vec!['A', 'i', 'M', 'a', 'i', 'n', '.', 'i', 'n', 'i']
    } else if group == 3 {
        vec!['T', 'h', 'e', 'm', 'e', 'M', 'a', 'i', 'n', '.', 'i', 'n', 'i']
    } else {
        vec!['U', 'I', 'M', 'a', 'i', 'n', '.', 'i', 'n', 'i']
    };
    assert(c@ == main_files()[group as int]);
    string_of(c.as_slice())
}

/// The data entries of group `group`, in the order the groups are applied.
pub open spec fn group_items(c: RawPackConfig, group: int) -> Vec<RawPackDataItem> {
    if group == 0 {
        c.data.rules
    } else if group == 1 {
        c.data.art
    } else if group == 2 {
        c.data.ai
    } else if group == 3 {
        c.data.theme
    } else {
        c.data.ui
    }
}

/// The data entries of group `group`.
pub fn data_group_items(config: &RawPackConfig, group: usize) -> (r: &Vec<RawPackDataItem>)
    requires
        group < 5,
    ensures
        *r == group_items(*config, group as int),
{
    if group == 0 {
        &config.data.rules
    } else if group == 1 {
        &config.data.art
    } else if group == 2 {
        &config.data.ai
    } else if group == 3 {
        &config.data.theme
    } else {
        &config.data.ui
    }
}

/// Is the path absolute: on Windows a leading `/` or `\`, or a drive; elsewhere
/// a leading `/`?
pub open spec fn absolute_path(f: Seq<char>, style: PathStyle) -> bool {
    match style {
        PathStyle::Windows => {
            let n = slashed(f);
            (n.len() > 0 && n[0] == '/') || has_drive(n)
        },
        PathStyle::Unix => f.len() > 0 && f[0] == '/',
    }
}

/// Where a data entry's output file lies and how it is registered.
#[derive(Debug)]
pub struct DataTarget {
    /// The file, relative to the pack's output directory.
    pub file_name: String,
    /// The file relative to the instance, `/`-separated: what the main INI lists.
    pub include_path: String,
}

/// The output file of a data entry: its file under the pack's output directory,
/// and that path relative to the instance with `/` separators.
pub open spec fn data_target(item: RawPackDataItem, meta_dir: Seq<char>, style: PathStyle) -> Result<
    (Seq<char>, Seq<char>),
    bool,
> {
    match data_file_name(item) {
        None => Err(false),
        Some(f) => if absolute_path(f, style) {
            Err(true)
        } else {
            Ok((f, pack_dir(meta_dir) + seq!['/'] + slashed(f)))
        },
    }
}

/// Places one data entry: where its output file lies and how it is registered.
pub fn data_item_target(item: &RawPackDataItem, meta: &RawPackMeta, style: PathStyle) -> (r: Result<
    DataTarget,
    DataEntryError,
>)
    ensures
        match r {
            Ok(t) => data_target(*item, meta.dir@, style) == Ok::<(Seq<char>, Seq<char>), bool>(
                (t.file_name@, t.include_path@),
            ),
            Err(DataEntryError::MissingFile) => data_target(*item, meta.dir@, style) == Err::<
                (Seq<char>, Seq<char>),
                bool,
            >(false),
            Err(DataEntryError::OutsideInstance { file }) => data_target(*item, meta.dir@, style)
                == Err::<(Seq<char>, Seq<char>), bool>(true) && data_file_name(*item) == Some(
                file@,
            ),
        },
{
    let file = match data_item_file_name(item) {
        Err(e) => {
            return Err(e);
        },
        Ok(f) => f,
    };
    let fc = chars_of(file.as_str());
    let n = slashed_chars(&fc);
    let is_abs = if style == PathStyle::Windows {
        (n.len() > 0 && n[0] == '/') || (n.len() >= 2 && (('a' <= n[0] && n[0] <= 'z') || ('A'
            <= n[0] && n[0] <= 'Z')) && n[1] == ':')
    } else {
        fc.len() > 0 && fc[0] == '/'
    };
    if is_abs {
        return Err(DataEntryError::OutsideInstance { file });
    }
    let dir = pack_dir_chars(meta);
    let sep = vec!['/'];
    let p = concat_chars(&concat_chars(&dir, &sep), &n);
    assert(sep@ == seq!['/']);
    Ok(DataTarget { file_name: file, include_path: string_of(p.as_slice()) })
}

/// Why a resource entry is refused.
#[derive(Debug)]
pub enum ResourceError {
    /// The entry has no `File`.
    MissingFile,
    /// The file is not a relative path inside the pack (as trimmed).
    IllegalPath { file: String },
}

/// `resource_file_path`: the resource's file as a relative path inside the pack.
pub fn resource_file_path(resource: &RawPackResource, style: PathStyle) -> (r: Result<
    String,
    ResourceError,
>)
    ensures
        match r {
            Ok(p) => trim(resource.file@).len() > 0 && safe_relative(trim(resource.file@), style) == Some(
                p@,
            ),
            Err(ResourceError::MissingFile) => trim(resource.file@).len() == 0,
            Err(ResourceError::IllegalPath { file }) => trim(resource.file@).len() > 0 && file@
                == trim(resource.file@) && safe_relative(trim(resource.file@), style) is None,
        },
{
    let raw = chars_of(resource.file.as_str());
    let t = trim_chars(&raw);
    if t.len() == 0 {
        return Err(ResourceError::MissingFile);
    }
    let file = string_of(t.as_slice());
    match safe_relative_path(file.as_str(), style) {
        Ok(p) => Ok(p),
        Err(_) => Err(ResourceError::IllegalPath { file }),
    }
}

/// The paths a pack registers in a main INI file for these data entries, in
/// order: the include path of each entry that asks to be registered and whose
/// target is valid.
pub open spec fn include_paths(items: Seq<RawPackDataItem>, dir: Seq<char>, style: PathStyle) -> Seq<
    Seq<char>,
>
    decreases items.len(),
{
    if items.len() == 0 {
        Seq::empty()
    } else {
        let r = include_paths(items.drop_last(), dir, style);
        let it = items.last();
        match data_target(it, dir, style) {
            Ok((_, p)) => if it.need_include {
                r.push(p)
            } else {
                r
            },
            Err(_) => r,
        }
    }
}

/// The data entry registers path `p`: it asks to be registered and its target's
/// include path is `p`.
pub open spec fn entry_registers(item: RawPackDataItem, dir: Seq<char>, style: PathStyle, p: Seq<
    char,
>) -> bool {
    item.need_include && (data_target(item, dir, style) matches Ok((_, q)) && q == p)
}

/// Some data entry registers path `p`.
pub open spec fn some_entry_registers(
    items: Seq<RawPackDataItem>,
    dir: Seq<char>,
    style: PathStyle,
    p: Seq<char>,
) -> bool {
    exists|m: int| 0 <= m < items.len() && entry_registers(#[trigger] items[m], dir, style, p)
}

proof fn lemma_include_paths(items: Seq<RawPackDataItem>, dir: Seq<char>, style: PathStyle)
    ensures
        forall|k: int|
            0 <= k < include_paths(items, dir, style).len() ==> some_entry_registers(
                items,
                dir,
                style,
                #[trigger] include_paths(items, dir, style)[k],
            ),
    decreases items.len(),
{
    if items.len() > 0 {
        let d = items.drop_last();
        lemma_include_paths(d, dir, style);
        let r = include_paths(d, dir, style);
        let all = include_paths(items, dir, style);
        assert forall|k: int| 0 <= k < all.len() implies some_entry_registers(
            items,
            dir,
            style,
            #[trigger] all[k],
        ) by {
            if k < r.len() {
                assert(all[k] == r[k]);
                assert(some_entry_registers(d, dir, style, r[k]));
                let m = choose|m: int| 0 <= m < d.len() && entry_registers(#[trigger] d[m], dir, style, r[k]);
                assert(items[m] == d[m]);
            } else {
                let m = items.len() - 1;
                assert(items[m] == items.last());
                assert(entry_registers(items[m], dir, style, all[k]));
            }
        }
    }
}

/// Law: disabling a pack undoes what applying it registered: every path that
/// the pack's data entries of group `group` register (each an entry's include
/// path from `data_item_target`) is no longer registered once those paths are
/// removed from the main INI file, whatever the file held.
pub proof fn law_disable_removes_pack_entries(
    config: RawPackConfig,
    group: int,
    style: PathStyle,
    content: Seq<char>,
)
    ensures
        ({
            let items = group_items(config, group)@;
            let paths = include_paths(items, config.config.dir@, style);
            &&& forall|k: int|
                0 <= k < paths.len() ==> some_entry_registers(
                    items,
                    config.config.dir@,
                    style,
                    #[trigger] paths[k],
                )
            &&& forall|k: int|
                0 <= k < paths.len() ==> !has_entry(
                    lines_of(removed_all(content, paths)),
                    entry_line(#[trigger] paths[k]),
                )
        }),
{
    let items = group_items(config, group)@;
    lemma_include_paths(items, config.config.dir@, style);
    law_removed_entries_stay_absent(content, include_paths(items, config.config.dir@, style));
}

/// The candidate is an enabled component, other than the pack being applied,
/// whose readable pack has the trimmed id or the trimmed name `pack` (trimmed),
/// up to ASCII case.
pub open spec fn candidate_is_pack(c: ImportCandidate, pack: Seq<char>) -> bool {
    &&& c.enabled
    &&& !c.same_pack
    &&& c.config matches Ok(cfg) && (ascii_lower_seq(trim(cfg.config.id@)) == ascii_lower_seq(
        trim(pack),
    ) || ascii_lower_seq(trim(cfg.config.name@)) == ascii_lower_seq(trim(pack)))
}

/// Law: an import names a pack by its id or by its name. When some enabled
/// component other than the pack being applied is that pack (by id or by name),
/// the import is never refused as naming a missing pack; and when it is the only
/// enabled component other than the pack being applied, the import takes its
/// export's value (the first export of that name up to ASCII case, with the
/// `{Dir}`, `{Id}` and `{Name}` of its pack filled in), or is refused because it
/// does not export the name.
pub proof fn law_import_finds_pack_by_id_or_name(
    cands: Seq<ImportCandidate>,
    pack: Seq<char>,
    export: Seq<char>,
    m: int,
)
    requires
        0 <= m < cands.len(),
        candidate_is_pack(cands[m], pack),
    ensures
        !(import_lookup(cands, pack, export, 0) is Err && import_lookup(cands, pack, export, 0)->Err_0
            is PackMissing),
        (forall|k: int| 0 <= k < cands.len() && k != m ==> !(#[trigger] cands[k]).enabled
            || cands[k].same_pack) ==> {
            let cfg = cands[m].config->Ok_0;
            import_lookup(cands, pack, export, 0) == match export_position(
                cfg.exports@,
                trim(export),
                0,
            ) {
                None => Err(ImportFault::ExportMissing(pack, export)),
                Some(j) => Ok(default_placeholders(cfg.exports@[j].1@, cfg.config)),
            }
        },
{
    lemma_lookup_finds(cands, pack, export, m, 0);
}

proof fn lemma_lookup_finds(cands: Seq<ImportCandidate>, pack: Seq<char>, export: Seq<char>, m: int, k: nat)
    requires
        k <= m < cands.len(),
        candidate_is_pack(cands[m], pack),
    ensures
        !(import_lookup(cands, pack, export, k) is Err && import_lookup(cands, pack, export, k)->Err_0
            is PackMissing),
        (forall|j: int| k <= j < cands.len() && j != m ==> !(#[trigger] cands[j]).enabled
            || cands[j].same_pack) ==> {
            let cfg = cands[m].config->Ok_0;
            import_lookup(cands, pack, export, k) == match export_position(
                cfg.exports@,
                trim(export),
                0,
            ) {
                None => Err(ImportFault::ExportMissing(pack, export)),
                Some(j) => Ok(default_placeholders(cfg.exports@[j].1@, cfg.config)),
            }
        },
    decreases m - k,
{
    if k < m {
        lemma_lookup_finds(cands, pack, export, m, k + 1);
    }
}

} // verus!
