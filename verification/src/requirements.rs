use vstd::prelude::*;
use crate::model::{ComponentState, RawPackConfig, strs};
use crate::text::{
    ascii_lower_seq, chars_eq, str_is_empty, chars_eq_ignore_case, chars_of, eq_ignore_case, string_of,
    to_ascii_lower_chars, trim, trim_chars,
};
use crate::values::trimmed_nonempty;
use crate::versions::{VersionError, VersionFault, min_version_check, validate_min_app_version};

verus! {

/// A pack id as compared: trimmed and ASCII lower-cased.
pub open spec fn normalized_id(raw: Seq<char>) -> Seq<char> {
    ascii_lower_seq(trim(raw))
}

/// `normalized_pack_config_id`.
pub fn normalized_pack_config_id(raw_id: &str) -> (r: String)
    ensures
        r@ == normalized_id(raw_id@),
{
    let c = chars_of(raw_id);
    let t = trim_chars(&c);
    let l = to_ascii_lower_chars(&t);
    string_of(l.as_slice())
}

/// The id under which an enabled component counts as present: its own saved id,
/// else (when it has a pack path) the id of its pack's configuration, else that
/// configuration's name; `parsed` is the `(Id, Name)` of the pack's
/// configuration, none where it could not be read.
pub open spec fn effective_id(c: ComponentState, parsed: Option<(String, String)>) -> Seq<char> {
    let own = normalized_id(c.config_id@);
    if own.len() > 0 {
        own
    } else if trim(c.pack_path@).len() == 0 {
        Seq::empty()
    } else {
        match parsed {
            Some((id, name)) => if normalized_id(id@).len() > 0 {
                normalized_id(id@)
            } else {
                normalized_id(name@)
            },
            None => Seq::empty(),
        }
    }
}

/// `effective_component_config_id`, given what was read of the component's pack.
pub fn effective_component_config_id(
    component: &ComponentState,
    parsed: &Option<(String, String)>,
) -> (r: String)
    ensures
        r@ == effective_id(*component, *parsed),
{
    let own = normalized_pack_config_id(component.config_id.as_str());
    if !str_is_empty(own.as_str()) {
        return own;
    }
    let path = chars_of(component.pack_path.as_str());
    let path_trim = trim_chars(&path);
    if path_trim.len() == 0 {
        return String::new();
    }
    match parsed {
        Some((id, name)) => {
            let i = normalized_pack_config_id(id.as_str());
            if !str_is_empty(i.as_str()) {
                i
            } else {
                normalized_pack_config_id(name.as_str())
            }
        },
        None => String::new(),
    }
}

/// Does an enabled component, other than the one being checked, count as pack `id`?
pub open spec fn pack_present(
    components: Seq<ComponentState>,
    parsed: Seq<Option<(String, String)>>,
    current: Seq<char>,
    id: Seq<char>,
) -> bool {
    exists|k: int|
        0 <= k < components.len() && (#[trigger] components[k]).enabled && !(current.len() > 0
            && trim(components[k].id@) == current) && effective_id(components[k], parsed[k]) == id
            && id.len() > 0
}

/// The required files that are not present, in order.
pub open spec fn missing_files(files: Seq<Seq<char>>, present: Seq<bool>) -> Seq<Seq<char>>
    decreases files.len(),
{
    if files.len() == 0 {
        Seq::empty()
    } else {
        let r = missing_files(files.drop_last(), present.take(files.len() - 1));
        if present[files.len() - 1] {
            r
        } else {
            r.push(files.last())
        }
    }
}

/// The required packs that no other enabled component provides, in order.
pub open spec fn missing_packs(
    packs: Seq<Seq<char>>,
    components: Seq<ComponentState>,
    parsed: Seq<Option<(String, String)>>,
    current: Seq<char>,
) -> Seq<Seq<char>> {
    packs.filter(
        |p: Seq<char>|
            normalized_id(p).len() > 0 && !pack_present(components, parsed, current, normalized_id(p)),
    )
}

/// Why a pack's requirements refuse it.
#[derive(Debug)]
pub enum RequirementError {
    /// The manager's version check failed.
    Version(VersionError),
    /// The pack is made for another game (the required game, the instance's).
    GameMismatch { required: String, actual: String },
    /// Required files or packs are missing.
    Missing { files: Vec<String>, packs: Vec<String> },
}

/// The mathematical value of a `RequirementError`.
pub enum RequirementFault {
    Version(VersionFault),
    GameMismatch(Seq<char>, Seq<char>),
    Missing(Seq<Seq<char>>, Seq<Seq<char>>),
}

impl View for RequirementError {
    type V = RequirementFault;

    open spec fn view(&self) -> RequirementFault {
        match self {
            RequirementError::Version(e) => RequirementFault::Version(e@),
            RequirementError::GameMismatch { required, actual } => RequirementFault::GameMismatch(
                required@,
                actual@,
            ),
            RequirementError::Missing { files, packs } => RequirementFault::Missing(
                strs(files@),
                strs(packs@),
            ),
        }
    }
}

/// The files a pack requires: `Requirements.Files`, trimmed, blanks dropped.
pub open spec fn required_files_spec(c: RawPackConfig) -> Seq<Seq<char>> {
    trimmed_nonempty(strs(c.requirements.files@))
}

/// The packs a pack requires: `Requirements.Pack`, trimmed, blanks dropped.
pub open spec fn required_packs_spec(c: RawPackConfig) -> Seq<Seq<char>> {
    trimmed_nonempty(strs(c.requirements.pack@))
}

/// The outcome of `validate_pack_requirements`: the manager's version, then the
/// game (compared up to ASCII case, trimmed), then the files and packs.
pub open spec fn requirements_check(
    preset_id: Seq<char>,
    c: RawPackConfig,
    components: Seq<ComponentState>,
    parsed: Seq<Option<(String, String)>>,
    current: Seq<char>,
    present: Seq<bool>,
) -> Result<(), RequirementFault> {
    let game = trim(c.config.game@);
    match min_version_check(c.requirements.min_version) {
        Err(e) => Err(RequirementFault::Version(e)),
        Ok(()) => if game.len() > 0 && !eq_ignore_case(game, trim(preset_id)) {
            Err(RequirementFault::GameMismatch(game, trim(preset_id)))
        } else {
            let files = missing_files(required_files_spec(c), present);
            let packs = missing_packs(required_packs_spec(c), components, parsed, current);
            if files.len() == 0 && packs.len() == 0 {
                Ok(())
            } else {
                Err(RequirementFault::Missing(files, packs))
            }
        },
    }
}

/// The trimmed, non-blank entries of a list.
pub fn trimmed_entries_of(v: &Vec<String>) -> (r: Vec<String>)
    ensures
        strs(r@) == trimmed_nonempty(strs(v@)),
{
    let ghost sv = strs(v@);
    let mut out: Vec<String> = Vec::new();
    let mut i: usize = 0;
    assert(sv.take(0) =~= Seq::<Seq<char>>::empty());
    while i < v.len()
        invariant
            i <= v.len(),
            sv == strs(v@),
            strs(out@) == trimmed_nonempty(sv.take(i as int)),
        decreases v.len() - i,
    {
        assert(sv.take(i + 1).drop_last() =~= sv.take(i as int));
        assert(sv.take(i + 1).last() == v@[i as int]@);
        let c = chars_of(v[i].as_str());
        let t = trim_chars(&c);
        if t.len() > 0 {
            let ghost before = strs(out@);
            out.push(string_of(t.as_slice()));
            assert(strs(out@) =~= before.push(t@));
        }
        i = i + 1;
    }
    assert(sv.take(v.len() as int) =~= sv);
    out
}

/// The files a pack requires, in order; the caller checks which exist.
pub fn required_files(config: &RawPackConfig) -> (r: Vec<String>)
    ensures
        strs(r@) == required_files_spec(*config),
{
    trimmed_entries_of(&config.requirements.files)
}

proof fn lemma_missing_files_take(files: Seq<Seq<char>>, present: Seq<bool>, i: int)
    requires
        0 <= i < files.len(),
        files.len() == present.len(),
    ensures
        missing_files(files.take(i + 1), present.take(i + 1)) == if present[i] {
            missing_files(files.take(i), present.take(i))
        } else {
            missing_files(files.take(i), present.take(i)).push(files[i])
        },
{
    assert(files.take(i + 1).drop_last() =~= files.take(i));
    assert(present.take(i + 1).take(i) =~= present.take(i));
}

/// Is pack `id` provided by an enabled component other than `current`?
fn pack_present_exec(
    components: &Vec<ComponentState>,
    ids: &Vec<String>,
    current: &Vec<char>,
    id: &Vec<char>,
    Ghost(parsed): Ghost<Seq<Option<(String, String)>>>,
) -> (r: bool)
    requires
        ids@.len() == components@.len() == parsed.len(),
        forall|k: int|
            0 <= k < ids@.len() ==> (#[trigger] ids@[k])@ == effective_id(
                components@[k],
                parsed[k],
            ),
    ensures
        r == pack_present(components@, parsed, current@, id@),
{
    if id.len() == 0 {
        return false;
    }
    let mut k: usize = 0;
    while k < components.len()
        invariant
            k <= components.len(),
            ids@.len() == components@.len() == parsed.len(),
            id@.len() > 0,
            forall|j: int|
                0 <= j < ids@.len() ==> (#[trigger] ids@[j])@ == effective_id(
                    components@[j],
                    parsed[j],
                ),
            forall|j: int|
                0 <= j < k ==> !((#[trigger] components@[j]).enabled && !(current@.len() > 0
                    && trim(components@[j].id@) == current@) && effective_id(components@[j], parsed[j])
                    == id@),
        decreases components.len() - k,
    {
        let c = &components[k];
        if c.enabled {
            let cid = chars_of(c.id.as_str());
            let cid_trim = trim_chars(&cid);
            let skip = current.len() > 0 && chars_eq(&cid_trim, current);
            if !skip {
                let eid = chars_of(ids[k].as_str());
                if chars_eq(&eid, id) {
                    assert(components@[k as int].enabled);
                    return true;
                }
            }
        }
        k = k + 1;
    }
    false
}

/// Checks a pack's requirements before it is applied (`validate_pack_requirements`).
/// `parsed` holds, for each component, the `(Id, Name)` of its pack's
/// configuration (none where it could not be read), and `present` tells, for each
/// file of `required_files(config)`, whether it exists in the instance.
pub fn validate_pack_requirements(
    preset_id: &str,
    config: &RawPackConfig,
    components: &Vec<ComponentState>,
    parsed: &Vec<Option<(String, String)>>,
    current_component_id: Option<&str>,
    present: &Vec<bool>,
) -> (r: Result<(), RequirementError>)
    requires
        parsed@.len() == components@.len(),
        present@.len() == required_files_spec(*config).len(),
    ensures
        ({
            let current = match current_component_id {
                Some(c) => trim(c@),
                None => Seq::empty(),
            };
            match r {
                Ok(()) => requirements_check(
                    preset_id@,
                    *config,
                    components@,
                    parsed@,
                    current,
                    present@,
                ) == Ok::<(), RequirementFault>(()),
                Err(e) => requirements_check(
                    preset_id@,
                    *config,
                    components@,
                    parsed@,
                    current,
                    present@,
                ) == Err::<(), RequirementFault>(e@),
            }
        }),
{
    match validate_min_app_version(config) {
        Err(e) => {
            return Err(RequirementError::Version(e));
        },
        Ok(()) => {},
    }
    let game_chars = chars_of(config.config.game.as_str());
    let game = trim_chars(&game_chars);
    let preset_chars = chars_of(preset_id);
    let actual = trim_chars(&preset_chars);
    if game.len() > 0 && !chars_eq_ignore_case(&game, &actual) {
        return Err(
            RequirementError::GameMismatch {
                required: string_of(game.as_slice()),
                actual: string_of(actual.as_slice()),
            },
        );
    }
    let files = required_files(config);
    let ghost fs = strs(files@);
    let mut missing_f: Vec<String> = Vec::new();
    let mut i: usize = 0;
    assert(fs.take(0) =~= Seq::<Seq<char>>::empty());
    while i < files.len()
        invariant
            i <= files.len() == present@.len(),
            fs == strs(files@),
            strs(missing_f@) == missing_files(fs.take(i as int), present@.take(i as int)),
        decreases files.len() - i,
    {
        proof {
            lemma_missing_files_take(fs, present@, i as int);
        }
        if !present[i] {
            let ghost before = strs(missing_f@);
            missing_f.push(files[i].clone());
            assert(strs(missing_f@) =~= before.push(fs[i as int]));
        }
        i = i + 1;
    }
    assert(fs.take(files.len() as int) =~= fs);
    assert(present@.take(files.len() as int) =~= present@);
    let current: Vec<char> = match current_component_id {
        Some(c) => {
            let cc = chars_of(c);
            trim_chars(&cc)
        },
        None => Vec::new(),
    };
    let mut ids: Vec<String> = Vec::new();
    let mut k: usize = 0;
    while k < components.len()
        invariant
            k <= components.len() == parsed@.len(),
            ids@.len() == k,
            forall|j: int|
                0 <= j < k ==> (#[trigger] ids@[j])@ == effective_id(components@[j], parsed@[j]),
        decreases components.len() - k,
    {
        ids.push(effective_component_config_id(&components[k], &parsed[k]));
        k = k + 1;
    }
    let packs = trimmed_entries_of(&config.requirements.pack);
    let ghost ps = strs(packs@);
    let ghost pred = |p: Seq<char>|
        normalized_id(p).len() > 0 && !pack_present(components@, parsed@, current@, normalized_id(p));
    let mut missing_p: Vec<String> = Vec::new();
    let mut j: usize = 0;
    assert(ps.take(0) =~= Seq::<Seq<char>>::empty());
    while j < packs.len()
        invariant
            j <= packs.len(),
            ps == strs(packs@),
            ids@.len() == components@.len() == parsed@.len(),
            forall|q: int|
                0 <= q < ids@.len() ==> (#[trigger] ids@[q])@ == effective_id(
                    components@[q],
                    parsed@[q],
                ),
            pred == (|p: Seq<char>|
                normalized_id(p).len() > 0 && !pack_present(
                    components@,
                    parsed@,
                    current@,
                    normalized_id(p),
                )),
            strs(missing_p@) == ps.take(j as int).filter(pred),
        decreases packs.len() - j,
    {
        let ghost prev = ps.take(j as int);
        assert(ps.take(j + 1).drop_last() =~= prev);
        assert(ps.take(j + 1).last() == packs@[j as int]@);
        reveal(Seq::filter);
        let norm = normalized_pack_config_id(packs[j].as_str());
        let norm_chars = chars_of(norm.as_str());
        let keep = norm_chars.len() > 0 && !pack_present_exec(
            components,
            &ids,
            &current,
            &norm_chars,
            Ghost(parsed@),
        );
        if keep {
            let ghost before = strs(missing_p@);
            missing_p.push(packs[j].clone());
            assert(strs(missing_p@) =~= before.push(ps[j as int]));
        }
        j = j + 1;
    }
    assert(ps.take(packs.len() as int) =~= ps);
    assert(pred =~= (|p: Seq<char>|
        normalized_id(p).len() > 0 && !pack_present(components@, parsed@, current@, normalized_id(p))));
    if missing_f.len() == 0 && missing_p.len() == 0 {
        return Ok(());
    }
    Err(RequirementError::Missing { files: missing_f, packs: missing_p })
}

/// A pack that requires nothing (no minimum version, no game, no files, no
/// packs) passes the requirements check on any instance.
pub proof fn law_no_requirements_pass(
    preset_id: Seq<char>,
    c: RawPackConfig,
    components: Seq<ComponentState>,
    parsed: Seq<Option<(String, String)>>,
    current: Seq<char>,
    present: Seq<bool>,
)
    requires
        c.requirements.min_version is None,
        trim(c.config.game@).len() == 0,
        c.requirements.files@.len() == 0,
        c.requirements.pack@.len() == 0,
    ensures
        requirements_check(preset_id, c, components, parsed, current, present) == Ok::<
            (),
            RequirementFault,
        >(()),
{
    assert(strs(c.requirements.files@) =~= Seq::<Seq<char>>::empty());
    assert(strs(c.requirements.pack@) =~= Seq::<Seq<char>>::empty());
    let e = Seq::<Seq<char>>::empty();
    reveal(Seq::filter);
    assert(e.filter(
        |p: Seq<char>|
            normalized_id(p).len() > 0 && !pack_present(components, parsed, current, normalized_id(p)),
    ) =~= e);
}

} // verus!
