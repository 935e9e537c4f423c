use vstd::prelude::*;
use crate::control::copy_selection;
use crate::model::{ComponentState, PackSelection, RawPackConfig, SelView, strs};
use crate::requirements::{normalized_id, normalized_pack_config_id};
use crate::text::{ascii_lower_seq, chars_eq, chars_eq_ignore_case, chars_of, eq_ignore_case, string_of, trim, trim_chars};

verus! {

// ----- settings -------------------------------------------------------------

/// The settings of a component: each option's name and value.
pub open spec fn settings_view(v: Seq<PackSelection>) -> Seq<(Seq<char>, SelView)> {
    v.map_values(|s: PackSelection| (s.name@, s.value@))
}

/// A copy of a component's settings.
pub fn copy_settings(v: &Vec<PackSelection>) -> (r: Vec<PackSelection>)
    ensures
        settings_view(r@) == settings_view(v@),
{
    let mut out: Vec<PackSelection> = Vec::new();
    let mut i: usize = 0;
    while i < v.len()
        invariant
            i <= v.len(),
            out@.len() == i,
            forall|k: int|
                0 <= k < i ==> (#[trigger] out@[k]).name@ == v@[k].name@ && out@[k].value@
                    == v@[k].value@,
        decreases v.len() - i,
    {
        out.push(PackSelection { name: v[i].name.clone(), value: copy_selection(&v[i].value) });
        i = i + 1;
    }
    assert(settings_view(out@) =~= settings_view(v@));
    out
}

// ----- saving a component -----------------------------------------------------

/// Why a component cannot be saved or changed.
#[derive(Debug, Clone, Copy, PartialEq, Eq)]
pub enum ComponentError {
    /// The component's name is blank.
    EmptyName,
    /// The component's pack path is blank.
    EmptyPackPath,
    /// No component has the id.
    NotFound,
}

/// A component as it is saved:
/// a blank id becomes `generated_id` (the caller's `component_id` of its pack
/// path); name and description are trimmed; the name and the pack path must not
/// be blank.
pub fn normalize_component(component: ComponentState, generated_id: &str) -> (r: Result<
    ComponentState,
    ComponentError,
>)
    ensures
        match r {
            Ok(c) => trim(component.name@).len() > 0 && trim(component.pack_path@).len() > 0
                && c.id@ == (if trim(component.id@).len() == 0 {
                generated_id@
            } else {
                component.id@
            }) && c.name@ == trim(component.name@) && c.desc@ == trim(component.desc@) && c == (
            ComponentState { id: c.id, name: c.name, desc: c.desc, ..component }),
            Err(ComponentError::EmptyName) => trim(component.name@).len() == 0,
            Err(ComponentError::EmptyPackPath) => trim(component.name@).len() > 0 && trim(
                component.pack_path@,
            ).len() == 0,
            Err(_) => false,
        },
{
    let mut c = component;
    let id_trim = trim_chars(&chars_of(c.id.as_str()));
    if id_trim.len() == 0 {
        c.id = string_of(chars_of(generated_id).as_slice());
    }
    c.name = string_of(trim_chars(&chars_of(c.name.as_str())).as_slice());
    c.desc = string_of(trim_chars(&chars_of(c.desc.as_str())).as_slice());
    if chars_of(c.name.as_str()).len() == 0 {
        return Err(ComponentError::EmptyName);
    }
    if trim_chars(&chars_of(c.pack_path.as_str())).len() == 0 {
        return Err(ComponentError::EmptyPackPath);
    }
    Ok(c)
}

/// A component completed from its pack's configuration: whether the pack has
/// options, its configuration id when the component has none (trimmed), and the
/// pack's version.
pub fn complete_component(component: ComponentState, config: &RawPackConfig) -> (r: ComponentState)
    ensures
        r.has_options == (config.options@.len() > 0),
        r.config_id@ == (if trim(component.config_id@).len() == 0 {
            trim(config.config.id@)
        } else {
            component.config_id@
        }),
        r.version == config.config.version,
        r == (ComponentState {
            has_options: r.has_options,
            config_id: r.config_id,
            version: r.version,
            ..component
        }),
{
    let mut c = component;
    c.has_options = config.options.len() > 0;
    if trim_chars(&chars_of(c.config_id.as_str())).len() == 0 {
        c.config_id = string_of(trim_chars(&chars_of(config.config.id.as_str())).as_slice());
    }
    c.version = config.config.version;
    c
}

/// The first component, from index `i` on, with exactly this id.
pub open spec fn component_position(list: Seq<ComponentState>, id: Seq<char>, i: nat) -> Option<int>
    decreases list.len() - i,
{
    if i >= list.len() {
        None
    } else if list[i as int].id@ == id {
        Some(i as int)
    } else {
        component_position(list, id, i + 1)
    }
}

pub proof fn lemma_component_position(list: Seq<ComponentState>, id: Seq<char>, i: nat)
    ensures
        component_position(list, id, i) matches Some(k) ==> i <= k < list.len() && list[k].id@
            == id && forall|j: int| i <= j < k ==> list[j].id@ != id,
        component_position(list, id, i) is None ==> forall|j: int|
            i <= j < list.len() ==> list[j].id@ != id,
    decreases list.len() - i,
{
    if i < list.len() {
        lemma_component_position(list, id, i + 1);
    }
}

/// The position of the component with this id (first one found).
pub fn find_component(list: &Vec<ComponentState>, id: &str) -> (r: Option<usize>)
    ensures
        match r {
            Some(k) => component_position(list@, id@, 0) == Some(k as int) && k < list@.len(),
            None => component_position(list@, id@, 0) is None,
        },
{
    let target = chars_of(id);
    let mut i: usize = 0;
    while i < list.len()
        invariant
            i <= list.len(),
            target@ == id@,
            component_position(list@, id@, 0) == component_position(list@, id@, i as nat),
        decreases list.len() - i,
    {
        if chars_eq(&chars_of(list[i].id.as_str()), &target) {
            return Some(i);
        }
        i = i + 1;
    }
    None
}

/// The components of an instance once one is saved: it replaces the first
/// component with the same id, else it is appended; its position is given back with the list.
pub fn upsert_component(list: Vec<ComponentState>, component: ComponentState) -> (r: (
    Vec<ComponentState>,
    usize,
))
    ensures
        r.1 < r.0@.len(),
        r.0@[r.1 as int] == component,
        match component_position(list@, component.id@, 0) {
            Some(k) => r.1 == k && r.0@ == list@.update(k, component),
            None => r.1 == list@.len() && r.0@ == list@.push(component),
        },
{
    let mut l = list;
    match find_component(&l, component.id.as_str()) {
        Some(k) => {
            l.set(k, component);
            (l, k)
        },
        None => {
            let n = l.len();
            l.push(component);
            (l, n)
        },
    }
}

/// `r` is `list` with component `index` enabled: it takes its pack's
/// configuration id (trimmed) when it has none; nothing else changes.
pub open spec fn enabled_from(
    list: Seq<ComponentState>,
    index: int,
    config: RawPackConfig,
    r: Seq<ComponentState>,
) -> bool {
    &&& r.len() == list.len()
    &&& r[index].enabled
    &&& r[index].config_id@ == (if trim(list[index].config_id@).len() == 0 {
        trim(config.config.id@)
    } else {
        list[index].config_id@
    })
    &&& r[index] == (ComponentState { enabled: true, config_id: r[index].config_id, ..list[index] })
    &&& forall|j: int| 0 <= j < list.len() && j != index ==> r[j] == list[j]
}

/// The components once component `index` is enabled: it takes its pack's
/// configuration id (trimmed) when it has none.
pub fn enable_component(list: Vec<ComponentState>, index: usize, config: &RawPackConfig) -> (r: Vec<
    ComponentState,
>)
    requires
        index < list@.len(),
    ensures
        enabled_from(list@, index as int, *config, r@),
{
    let mut l = list;
    let mut c = l.remove(index);
    if trim_chars(&chars_of(c.config_id.as_str())).len() == 0 {
        c.config_id = string_of(trim_chars(&chars_of(config.config.id.as_str())).as_slice());
    }
    c.enabled = true;
    l.insert(index, c);
    l
}

/// The components once component `index` is disabled.
pub fn disable_component(list: Vec<ComponentState>, index: usize) -> (r: Vec<ComponentState>)
    requires
        index < list@.len(),
    ensures
        r@ == list@.update(index as int, ComponentState { enabled: false, ..list@[index as int] }),
{
    let mut l = list;
    let mut c = l.remove(index);
    c.enabled = false;
    l.insert(index, c);
    l
}

/// The components once component `index` is deleted.
pub fn remove_component(list: Vec<ComponentState>, index: usize) -> (r: Vec<ComponentState>)
    requires
        index < list@.len(),
    ensures
        r@ == list@.remove(index as int),
{
    let mut l = list;
    let _ = l.remove(index);
    l
}

// ----- dependents -------------------------------------------------------------

/// Does a pack's configuration require the pack known by `ids` (normalized)?
pub open spec fn requires_any(c: RawPackConfig, ids: Seq<Seq<char>>) -> bool {
    exists|k: int|
        0 <= k < c.requirements.pack@.len() && ids.contains(
            normalized_id(#[trigger] c.requirements.pack@[k]@),
        )
}

/// The ids a pack is known by: its normalized id and name, blanks left out.
pub open spec fn known_ids(c: RawPackConfig) -> Seq<Seq<char>> {
    seq![normalized_id(c.config.id@), normalized_id(c.config.name@)].filter(
        |x: Seq<char>| x.len() > 0,
    )
}

/// The names of the enabled components, other than the target, whose packs
/// require it, in order; or the first unreadable pack's message
/// (`dependent_component_names`).
pub open spec fn dependents_upto(
    target_id: Seq<char>,
    ids: Seq<Seq<char>>,
    components: Seq<ComponentState>,
    configs: Seq<Result<RawPackConfig, String>>,
    i: nat,
) -> Result<Seq<Seq<char>>, Seq<char>>
    decreases i,
{
    if i == 0 {
        Ok(Seq::empty())
    } else {
        match dependents_upto(target_id, ids, components, configs, (i - 1) as nat) {
            Err(m) => Err(m),
            Ok(acc) => {
                let c = components[i - 1];
                if !c.enabled || c.id@ == target_id {
                    Ok(acc)
                } else {
                    match configs[i - 1] {
                        Err(m) => Err(m@),
                        Ok(cfg) => if requires_any(cfg, ids) {
                            Ok(acc.push(c.name@))
                        } else {
                            Ok(acc)
                        },
                    }
                }
            },
        }
    }
}

proof fn lemma_dependents_err(
    target_id: Seq<char>,
    ids: Seq<Seq<char>>,
    components: Seq<ComponentState>,
    configs: Seq<Result<RawPackConfig, String>>,
    i: nat,
    j: nat,
)
    requires
        i <= j,
        dependents_upto(target_id, ids, components, configs, i) is Err,
    ensures
        dependents_upto(target_id, ids, components, configs, j) == dependents_upto(
            target_id,
            ids,
            components,
            configs,
            i,
        ),
    decreases j,
{
    if j > i {
        lemma_dependents_err(target_id, ids, components, configs, i, (j - 1) as nat);
    }
}

fn known_ids_exec(c: &RawPackConfig) -> (r: Vec<Vec<char>>)
    ensures
        crate::text::views(r@) == known_ids(*c),
{
    let a = chars_of(normalized_pack_config_id(c.config.id.as_str()).as_str());
    let b = chars_of(normalized_pack_config_id(c.config.name.as_str()).as_str());
    let ghost sa = a@;
    let ghost sb = b@;
    let ghost pred = |x: Seq<char>| x.len() > 0;
    let mut out: Vec<Vec<char>> = Vec::new();
    let la = a.len();
    let lb = b.len();
    if la > 0 {
        out.push(a);
    }
    if lb > 0 {
        out.push(b);
    }
    proof {
        let s = seq![sa, sb];
        reveal_with_fuel(Seq::filter, 3);
        assert(s.drop_last() =~= seq![sa]);
        assert(seq![sa].drop_last() =~= Seq::<Seq<char>>::empty());
        let e = Seq::<Seq<char>>::empty();
        assert(e.filter(pred) =~= e);
        assert(seq![sa].filter(pred) =~= (if sa.len() > 0 { seq![sa] } else { e }));
        assert(crate::text::views(out@) =~= s.filter(pred));
        assert(pred =~= (|x: Seq<char>| x.len() > 0));
    }
    out
}

fn requires_any_exec(c: &RawPackConfig, ids: &Vec<Vec<char>>) -> (r: bool)
    ensures
        r == requires_any(*c, crate::text::views(ids@)),
{
    let ghost iv = crate::text::views(ids@);
    let mut k: usize = 0;
    while k < c.requirements.pack.len()
        invariant
            k <= c.requirements.pack.len(),
            iv == crate::text::views(ids@),
            forall|q: int|
                0 <= q < k ==> !iv.contains(normalized_id(#[trigger] c.requirements.pack@[q]@)),
        decreases c.requirements.pack.len() - k,
    {
        let n = chars_of(normalized_pack_config_id(c.requirements.pack[k].as_str()).as_str());
        let mut j: usize = 0;
        while j < ids.len()
            invariant
                j <= ids.len(),
                k < c.requirements.pack@.len(),
                iv == crate::text::views(ids@),
                n@ == normalized_id(c.requirements.pack@[k as int]@),
                forall|q: int| 0 <= q < j ==> iv[q] != n@,
            decreases ids.len() - j,
        {
            if chars_eq(&ids[j], &n) {
                assert(iv[j as int] == n@);
                assert(iv.contains(normalized_id(c.requirements.pack@[k as int]@)));
                return true;
            }
            j = j + 1;
        }
        k = k + 1;
    }
    false
}

/// The names of the enabled components, other than `target`, whose packs
/// require the target's pack (`dependent_component_names`); `configs` holds
/// each component's pack configuration, or the reader's message.
pub fn dependent_component_names(
    target: &ComponentState,
    target_config: &RawPackConfig,
    components: &Vec<ComponentState>,
    configs: &Vec<Result<RawPackConfig, String>>,
) -> (r: Result<Vec<String>, String>)
    requires
        configs@.len() == components@.len(),
    ensures
        match r {
            Ok(v) => dependents_upto(
                target.id@,
                known_ids(*target_config),
                components@,
                configs@,
                components@.len(),
            ) == Ok::<Seq<Seq<char>>, Seq<char>>(strs(v@)),
            Err(m) => dependents_upto(
                target.id@,
                known_ids(*target_config),
                components@,
                configs@,
                components@.len(),
            ) == Err::<Seq<Seq<char>>, Seq<char>>(m@),
        },
{
    let ids = known_ids_exec(target_config);
    let ghost iv = known_ids(*target_config);
    let tid = chars_of(target.id.as_str());
    let mut out: Vec<String> = Vec::new();
    let mut i: usize = 0;
    assert(strs(out@) =~= Seq::<Seq<char>>::empty());
    while i < components.len()
        invariant
            i <= components.len() == configs@.len(),
            iv == crate::text::views(ids@),
            iv == known_ids(*target_config),
            tid@ == target.id@,
            dependents_upto(target.id@, iv, components@, configs@, i as nat) == Ok::<
                Seq<Seq<char>>,
                Seq<char>,
            >(strs(out@)),
        decreases components.len() - i,
    {
        let c = &components[i];
        if c.enabled && !chars_eq(&chars_of(c.id.as_str()), &tid) {
            match &configs[i] {
                Err(m) => {
                    assert(configs@[i as int] == Err::<RawPackConfig, String>(*m));
                    assert(dependents_upto(target.id@, iv, components@, configs@, (i + 1) as nat)
                        == Err::<Seq<Seq<char>>, Seq<char>>(m@));
                    proof {
                        lemma_dependents_err(
                            target.id@,
                            iv,
                            components@,
                            configs@,
                            (i + 1) as nat,
                            components@.len(),
                        );
                    }
                    return Err(m.clone());
                },
                Ok(cfg) => {
                    if requires_any_exec(cfg, &ids) {
                        let ghost before = strs(out@);
                        out.push(c.name.clone());
                        assert(strs(out@) =~= before.push(c.name@));
                    }
                },
            }
        }
        i = i + 1;
    }
    Ok(out)
}

/// Why a component may not be disabled.
#[derive(Debug)]
pub enum DisableError {
    /// A component's pack could not be read (the reader's message).
    Unreadable { message: String },
    /// Enabled components depend on it (their names).
    Dependents { names: Vec<String> },
}

/// Refuses to disable a component that other enabled components depend on
/// (`ensure_component_can_be_disabled`).
pub fn ensure_component_can_be_disabled(
    target: &ComponentState,
    target_config: &RawPackConfig,
    components: &Vec<ComponentState>,
    configs: &Vec<Result<RawPackConfig, String>>,
) -> (r: Result<(), DisableError>)
    requires
        configs@.len() == components@.len(),
    ensures
        match dependents_upto(
            target.id@,
            known_ids(*target_config),
            components@,
            configs@,
            components@.len(),
        ) {
            Err(m) => r matches Err(DisableError::Unreadable { message }) && message@ == m,
            Ok(names) => if names.len() == 0 {
                r is Ok
            } else {
                r matches Err(DisableError::Dependents { names: v }) && strs(v@) == names
            },
        },
{
    match dependent_component_names(target, target_config, components, configs) {
        Err(message) => Err(DisableError::Unreadable { message }),
        Ok(names) => {
            if names.len() == 0 {
                Ok(())
            } else {
                Err(DisableError::Dependents { names })
            }
        },
    }
}

// ----- configuration snapshots ------------------------------------------------

/// One component in a configuration snapshot.
#[derive(Debug)]
pub struct SnapshotComponent {
    pub config_id: String,
    pub name: String,
    pub version: i64,
    pub enabled: bool,
    pub settings: Vec<PackSelection>,
}

/// The configuration of an instance, as exported.
#[derive(Debug)]
pub struct ConfigurationSnapshot {
    pub schema_version: u32,
    pub preset_id: String,
    pub components: Vec<SnapshotComponent>,
}

/// What a snapshot keeps of a component whose pack has `Config.Id` `pack_id`:
/// that id, trimmed, and the component's name, version, state and settings.
pub open spec fn snapshot_matches(c: ComponentState, pack_id: Seq<char>, s: SnapshotComponent) -> bool {
    &&& s.config_id@ == trim(pack_id)
    &&& s.name@ == c.name@
    &&& s.version == c.version
    &&& s.enabled == c.enabled
    &&& settings_view(s.settings@) == settings_view(c.settings@)
}

/// The snapshot of an instance's configuration:
/// schema 1, the instance's preset and, in order, each component's pack
/// `Config.Id` (`pack_ids[k]` is that of component `k`'s pack), name, version,
/// state and settings.
pub fn export_snapshot(
    preset_id: String,
    components: &Vec<ComponentState>,
    pack_ids: &Vec<String>,
) -> (r: ConfigurationSnapshot)
    requires
        pack_ids@.len() == components@.len(),
    ensures
        r.schema_version == 1,
        r.preset_id == preset_id,
        r.components@.len() == components@.len(),
        forall|k: int|
            0 <= k < components@.len() ==> snapshot_matches(
                components@[k],
                pack_ids@[k]@,
                #[trigger] r.components@[k],
            ),
{
    let mut out: Vec<SnapshotComponent> = Vec::new();
    let mut i: usize = 0;
    while i < components.len()
        invariant
            i <= components.len(),
            pack_ids@.len() == components@.len(),
            out@.len() == i,
            forall|k: int|
                0 <= k < i ==> snapshot_matches(components@[k], pack_ids@[k]@, #[trigger] out@[k]),
        decreases components.len() - i,
    {
        let c = &components[i];
        out.push(
            SnapshotComponent {
                config_id: string_of(trim_chars(&chars_of(pack_ids[i].as_str())).as_slice()),
                name: c.name.clone(),
                version: c.version,
                enabled: c.enabled,
                settings: copy_settings(&c.settings),
            },
        );
        i = i + 1;
    }
    ConfigurationSnapshot { schema_version: 1, preset_id, components: out }
}

/// Why a snapshot cannot be imported.
#[derive(Debug)]
pub enum SnapshotError {
    /// The snapshot's schema is not 1.
    UnsupportedSchema { version: u32 },
    /// The snapshot was taken for another preset (the snapshot's, the instance's).
    PresetMismatch { snapshot: String, instance: String },
}

/// Only snapshots of schema 1 are read.
pub fn check_snapshot_schema(version: u32) -> (r: Result<(), SnapshotError>)
    ensures
        r is Ok <==> version == 1,
        r matches Err(SnapshotError::UnsupportedSchema { version: v }) ==> v == version,
        !(r matches Err(SnapshotError::PresetMismatch { .. })),
{
    if version != 1 {
        return Err(SnapshotError::UnsupportedSchema { version });
    }
    Ok(())
}

/// A snapshot fits an instance whose preset equals its own up to ASCII case.
pub fn check_snapshot_preset(snapshot_preset: &str, instance_preset: &str) -> (r: Result<
    (),
    SnapshotError,
>)
    ensures
        r is Ok <==> eq_ignore_case(snapshot_preset@, instance_preset@),
        r matches Err(SnapshotError::PresetMismatch { snapshot, instance }) ==> snapshot@
            == snapshot_preset@ && instance@ == instance_preset@,
        !(r matches Err(SnapshotError::UnsupportedSchema { .. })),
{
    let a = chars_of(snapshot_preset);
    let b = chars_of(instance_preset);
    if !chars_eq_ignore_case(&a, &b) {
        return Err(
            SnapshotError::PresetMismatch {
                snapshot: string_of(a.as_slice()),
                instance: string_of(b.as_slice()),
            },
        );
    }
    Ok(())
}

/// The first repository pack, from index `i` on, whose trimmed id equals
/// `config_id` up to ASCII case; `ids` holds each directory's pack id, none
/// where it is not a readable pack.
pub open spec fn repository_position(ids: Seq<Option<String>>, config_id: Seq<char>, i: nat) -> Option<
    int,
>
    decreases ids.len() - i,
{
    if i >= ids.len() {
        None
    } else if ids[i as int] matches Some(id) && eq_ignore_case(trim(id@), config_id) {
        Some(i as int)
    } else {
        repository_position(ids, config_id, i + 1)
    }
}

/// The repository pack with a configuration id (`find_repository_pack`).
pub fn find_repository_pack(ids: &Vec<Option<String>>, config_id: &str) -> (r: Option<usize>)
    ensures
        match r {
            Some(k) => repository_position(ids@, config_id@, 0) == Some(k as int) && k
                < ids@.len(),
            None => repository_position(ids@, config_id@, 0) is None,
        },
{
    let target = chars_of(config_id);
    let mut i: usize = 0;
    while i < ids.len()
        invariant
            i <= ids.len(),
            target@ == config_id@,
            repository_position(ids@, config_id@, 0) == repository_position(
                ids@,
                config_id@,
                i as nat,
            ),
        decreases ids.len() - i,
    {
        match &ids[i] {
            Some(id) => {
                if chars_eq_ignore_case(&trim_chars(&chars_of(id.as_str())), &target) {
                    return Some(i);
                }
            },
            None => {},
        }
        i = i + 1;
    }
    None
}

/// What a component restored from a snapshot holds.
pub open spec fn restored_matches(
    s: SnapshotComponent,
    id: Seq<char>,
    pack_path: Seq<char>,
    config: RawPackConfig,
    c: ComponentState,
) -> bool {
    &&& c.id@ == id
    &&& c.name@ == config.config.name@
    &&& c.desc@ == config.config.desc@
    &&& c.author@.len() == 0
    &&& c.config_id@ == config.config.id@
    &&& c.version == config.config.version
    &&& c.tag@.len() == 0
    &&& c.pack_path@ == pack_path
    &&& c.enabled == s.enabled
    &&& c.has_options == (config.options@.len() > 0)
    &&& settings_view(c.settings@) == settings_view(s.settings@)
}

/// A component restored from a snapshot: its
/// pack is the repository pack with its id, shown at `pack_path` and known by
/// `id` (the caller's `component_id` of that path); its state and settings are
/// the snapshot's.
pub fn component_from_snapshot(
    saved: &SnapshotComponent,
    id: String,
    pack_path: String,
    config: &RawPackConfig,
) -> (r: ComponentState)
    ensures
        restored_matches(*saved, id@, pack_path@, *config, r),
{
    ComponentState {
        id,
        name: config.config.name.clone(),
        desc: config.config.desc.clone(),
        author: String::new(),
        config_id: config.config.id.clone(),
        version: config.config.version,
        tag: String::new(),
        pack_path,
        enabled: saved.enabled,
        has_options: config.options.len() > 0,
        settings: copy_settings(&saved.settings),
    }
}

/// Exporting a component to a snapshot and importing it back: the snapshot
/// names the component's pack by its `Config.Id`; the restored component keeps
/// whether it is enabled and every setting, and takes the id, name and version
/// of the repository pack it is found by.
pub proof fn law_snapshot_round_trip(
    original: ComponentState,
    pack_id: Seq<char>,
    saved: SnapshotComponent,
    id: Seq<char>,
    pack_path: Seq<char>,
    config: RawPackConfig,
    restored: ComponentState,
)
    requires
        snapshot_matches(original, pack_id, saved),
        restored_matches(saved, id, pack_path, config, restored),
    ensures
        saved.config_id@ == trim(pack_id),
        restored.enabled == original.enabled,
        settings_view(restored.settings@) == settings_view(original.settings@),
        restored.config_id@ == config.config.id@,
        restored.version == config.config.version,
{
}

/// Disabling an enabled component and enabling it again gives the list back
/// (its configuration id as the same text), once the component has a
/// configuration id.
pub proof fn law_disable_then_enable_restores(
    list: Seq<ComponentState>,
    index: int,
    config: RawPackConfig,
    restored: Seq<ComponentState>,
)
    requires
        0 <= index < list.len(),
        list[index].enabled,
        trim(list[index].config_id@).len() > 0,
        enabled_from(
            list.update(index, ComponentState { enabled: false, ..list[index] }),
            index,
            config,
            restored,
        ),
    ensures
        restored.len() == list.len(),
        forall|j: int| 0 <= j < list.len() && j != index ==> restored[j] == list[j],
        restored[index] == (ComponentState { config_id: restored[index].config_id, ..list[index] }),
        restored[index].config_id@ == list[index].config_id@,
{
}

/// A saved component is the one the instance then lists under its id: after
/// `upsert_component`, looking its id up finds it, at the position given back.
pub proof fn law_saved_component_found(
    list: Seq<ComponentState>,
    component: ComponentState,
    saved: Seq<ComponentState>,
    index: int,
)
    requires
        0 <= index < saved.len(),
        saved[index] == component,
        match component_position(list, component.id@, 0) {
            Some(k) => index == k && saved == list.update(k, component),
            None => index == list.len() && saved == list.push(component),
        },
    ensures
        component_position(saved, component.id@, 0) == Some(index),
        saved[index] == component,
{
    lemma_component_position(list, component.id@, 0);
    lemma_component_position(saved, component.id@, 0);
    match component_position(list, component.id@, 0) {
        Some(k) => {
            assert forall|j: int| 0 <= j < k implies saved[j].id@ != component.id@ by {
                assert(saved[j] == list[j]);
            }
            lemma_position_is_first(saved, component.id@, k);
        },
        None => {
            assert forall|j: int| 0 <= j < list.len() implies saved[j].id@ != component.id@ by {
                assert(saved[j] == list[j]);
            }
            lemma_position_is_first(saved, component.id@, list.len() as int);
        },
    }
}

proof fn lemma_position_is_first(list: Seq<ComponentState>, id: Seq<char>, k: int)
    requires
        0 <= k < list.len(),
        list[k].id@ == id,
        forall|j: int| 0 <= j < k ==> list[j].id@ != id,
    ensures
        component_position(list, id, 0) == Some(k),
{
    lemma_position_from(list, id, 0, k);
}

proof fn lemma_position_from(list: Seq<ComponentState>, id: Seq<char>, i: nat, k: int)
    requires
        i <= k < list.len(),
        list[k].id@ == id,
        forall|j: int| i <= j < k ==> list[j].id@ != id,
    ensures
        component_position(list, id, i) == Some(k),
    decreases k - i,
{
    if i < k {
        lemma_position_from(list, id, i + 1, k);
    }
}

/// Law: a pack is known by its id and by its name. Every enabled component,
/// other than the target, whose pack requires the target by its id or by its
/// name (each compared trimmed and ASCII lower-cased, the target's not blank)
/// is among the target's dependents, so disabling the target is refused while
/// it is enabled.
pub proof fn law_dependents_include_requirers(
    target_id: Seq<char>,
    target_config: RawPackConfig,
    components: Seq<ComponentState>,
    configs: Seq<Result<RawPackConfig, String>>,
    m: int,
    r: int,
)
    requires
        configs.len() == components.len(),
        0 <= m < components.len(),
        components[m].enabled,
        components[m].id@ != target_id,
        configs[m] is Ok,
        0 <= r < configs[m]->Ok_0.requirements.pack@.len(),
        ({
            let req = ascii_lower_seq(trim(configs[m]->Ok_0.requirements.pack@[r]@));
            let id = ascii_lower_seq(trim(target_config.config.id@));
            let nm = ascii_lower_seq(trim(target_config.config.name@));
            (id.len() > 0 && req == id) || (nm.len() > 0 && req == nm)
        }),
    ensures
        dependents_upto(target_id, known_ids(target_config), components, configs, components.len())
            matches Ok(names) ==> names.contains(components[m].name@),
{
    let ids = known_ids(target_config);
    let id = normalized_id(target_config.config.id@);
    let nm = normalized_id(target_config.config.name@);
    reveal_with_fuel(Seq::filter, 3);
    let pair = seq![id, nm];
    assert(pair.drop_last().drop_last() =~= Seq::<Seq<char>>::empty());
    assert(pair.drop_last() =~= seq![id]);
    let cfg = configs[m]->Ok_0;
    let req = normalized_id(cfg.requirements.pack@[r]@);
    if id.len() > 0 && req == id {
        assert(ids.contains(id)) by {
            if nm.len() > 0 {
                assert(ids[0] == id);
            } else {
                assert(ids[0] == id);
            }
        }
    } else {
        assert(ids.contains(nm)) by {
            if id.len() > 0 {
                assert(ids[1] == nm);
            } else {
                assert(ids[0] == nm);
            }
        }
    }
    assert(requires_any(cfg, ids));
    lemma_dependents_keep(target_id, ids, components, configs, m, components.len());
}

proof fn lemma_dependents_keep(
    target_id: Seq<char>,
    ids: Seq<Seq<char>>,
    components: Seq<ComponentState>,
    configs: Seq<Result<RawPackConfig, String>>,
    m: int,
    i: nat,
)
    requires
        configs.len() == components.len(),
        0 <= m < i <= components.len(),
        components[m].enabled,
        components[m].id@ != target_id,
        configs[m] matches Ok(cfg) && requires_any(cfg, ids),
    ensures
        dependents_upto(target_id, ids, components, configs, i) matches Ok(names) ==> names.contains(
            components[m].name@,
        ),
    decreases i,
{
    if i > m + 1 {
        lemma_dependents_keep(target_id, ids, components, configs, m, (i - 1) as nat);
        match dependents_upto(target_id, ids, components, configs, (i - 1) as nat) {
            Ok(acc) => {
                if acc.contains(components[m].name@) {
                    let w = choose|w: int| 0 <= w < acc.len() && acc[w] == components[m].name@;
                    assert(acc.push(components[i - 1].name@)[w] == acc[w]);
                }
            },
            Err(_) => {},
        }
    } else {
        match dependents_upto(target_id, ids, components, configs, m as nat) {
            Ok(acc) => {
                assert(acc.push(components[m].name@)[acc.len() as int] == components[m].name@);
            },
            Err(_) => {},
        }
    }
}

} // verus!
