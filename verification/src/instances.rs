use vstd::prelude::*;
use crate::model::InstanceRecord;
use crate::storage::{fallback_name, normalize_record_name};
use crate::paths::PathStyle;
use crate::text::{chars_eq, chars_of, string_of, trim, trim_chars};

verus! {

/// Why an instance request is refused.
#[derive(Debug, Clone, Copy, PartialEq, Eq)]
pub enum InstanceError {
    /// The name is blank.
    EmptyName,
    /// No preset is chosen.
    NoPreset,
    /// The path is blank.
    EmptyPath,
    /// The path is registered already or the preset would overwrite files, and
    /// overwriting was not confirmed.
    NeedsConfirmation,
    /// No instance has the path.
    NotFound,
    /// Another instance has the new path.
    PathTaken,
}

/// The name, path and preset of a new instance, trimmed (the checks of
/// `add_instance` and `preview_add_instance`, in their order).
pub fn check_instance_input(name: &str, path: &str, preset_id: &str) -> (r: Result<
    (String, String, String),
    InstanceError,
>)
    ensures
        match r {
            Ok((n, p, s)) => n@ == trim(name@) && n@.len() > 0 && p@ == trim(path@) && p@.len() > 0
                && s@ == trim(preset_id@) && s@.len() > 0,
            Err(InstanceError::EmptyName) => trim(name@).len() == 0,
            Err(InstanceError::NoPreset) => trim(name@).len() > 0 && trim(preset_id@).len() == 0,
            Err(InstanceError::EmptyPath) => trim(name@).len() > 0 && trim(preset_id@).len() > 0
                && trim(path@).len() == 0,
            Err(_) => false,
        },
{
    let n = trim_chars(&chars_of(name));
    if n.len() == 0 {
        return Err(InstanceError::EmptyName);
    }
    let s = trim_chars(&chars_of(preset_id));
    if s.len() == 0 {
        return Err(InstanceError::NoPreset);
    }
    let p = trim_chars(&chars_of(path));
    if p.len() == 0 {
        return Err(InstanceError::EmptyPath);
    }
    Ok((string_of(n.as_slice()), string_of(p.as_slice()), string_of(s.as_slice())))
}

/// The name and path of an updated instance, trimmed (the checks of
/// `update_instance`, in their order).
pub fn check_update_input(name: &str, path: &str) -> (r: Result<(String, String), InstanceError>)
    ensures
        match r {
            Ok((n, p)) => n@ == trim(name@) && n@.len() > 0 && p@ == trim(path@) && p@.len() > 0,
            Err(InstanceError::EmptyName) => trim(name@).len() == 0,
            Err(InstanceError::EmptyPath) => trim(name@).len() > 0 && trim(path@).len() == 0,
            Err(_) => false,
        },
{
    let n = trim_chars(&chars_of(name));
    if n.len() == 0 {
        return Err(InstanceError::EmptyName);
    }
    let p = trim_chars(&chars_of(path));
    if p.len() == 0 {
        return Err(InstanceError::EmptyPath);
    }
    Ok((string_of(n.as_slice()), string_of(p.as_slice())))
}

/// The first index, from `i` on, whose key is `key`.
pub open spec fn key_index(keys: Seq<String>, key: Seq<char>, i: nat) -> Option<int>
    decreases keys.len() - i,
{
    if i >= keys.len() {
        None
    } else if keys[i as int]@ == key {
        Some(i as int)
    } else {
        key_index(keys, key, i + 1)
    }
}

pub proof fn lemma_key_index(keys: Seq<String>, key: Seq<char>, i: nat)
    ensures
        key_index(keys, key, i) matches Some(k) ==> i <= k < keys.len() && keys[k]@ == key
            && forall|j: int| i <= j < k ==> keys[j]@ != key,
        key_index(keys, key, i) is None ==> forall|j: int| i <= j < keys.len() ==> keys[j]@ != key,
    decreases keys.len() - i,
{
    if i < keys.len() {
        lemma_key_index(keys, key, i + 1);
    }
}

/// The first instance whose path key is `key`; `keys` holds the key of each
/// registered instance's path.
pub fn find_instance(keys: &Vec<String>, key: &str) -> (r: Option<usize>)
    ensures
        match r {
            Some(k) => key_index(keys@, key@, 0) == Some(k as int) && k < keys@.len(),
            None => key_index(keys@, key@, 0) is None,
        },
{
    let kc = chars_of(key);
    let mut i: usize = 0;
    while i < keys.len()
        invariant
            i <= keys.len(),
            kc@ == key@,
            key_index(keys@, key@, 0) == key_index(keys@, key@, i as nat),
        decreases keys.len() - i,
    {
        if chars_eq(&chars_of(keys[i].as_str()), &kc) {
            return Some(i);
        }
        i = i + 1;
    }
    None
}

/// The preset of the instance at a path key, blank when none is registered
/// there (`instance_preset_id_for_path`).
pub fn instance_preset_id_for_path(instances: &Vec<InstanceRecord>, keys: &Vec<String>, key: &str) -> (r:
    String)
    requires
        keys@.len() == instances@.len(),
    ensures
        r@ == (match key_index(keys@, key@, 0) {
            Some(k) => instances@[k].preset_id@,
            None => Seq::<char>::empty(),
        }),
{
    match find_instance(keys, key) {
        Some(k) => instances[k].preset_id.clone(),
        None => String::new(),
    }
}

/// The registered instances with their names normalized (`list_instances`).
pub fn list_instances(instances: Vec<InstanceRecord>, style: PathStyle) -> (r: Vec<InstanceRecord>)
    ensures
        r@.len() == instances@.len(),
        forall|k: int|
            0 <= k < r@.len() ==> (#[trigger] r@[k]).path == instances@[k].path
                && r@[k].preset_id == instances@[k].preset_id && r@[k].name@ == (if trim(
                instances@[k].name@,
            ).len() > 0 {
                trim(instances@[k].name@)
            } else {
                fallback_name(instances@[k].path@, style)
            }),
{
    let ghost orig = instances@;
    let n = instances.len();
    let mut rest = instances;
    let mut out: Vec<InstanceRecord> = Vec::new();
    while rest.len() > 0
        invariant
            n == orig.len(),
            rest.len() <= n,
            rest@ == orig.subrange(n - rest.len(), n as int),
            out@.len() == n - rest.len(),
            forall|k: int|
                0 <= k < out@.len() ==> (#[trigger] out@[k]).path == orig[k].path
                    && out@[k].preset_id == orig[k].preset_id && out@[k].name@ == (if trim(
                    orig[k].name@,
                ).len() > 0 {
                    trim(orig[k].name@)
                } else {
                    fallback_name(orig[k].path@, style)
                }),
        decreases rest.len(),
    {
        let ghost i = n - rest.len();
        let mut rec = rest.remove(0);
        assert(rec == orig[i]);
        normalize_record_name(&mut rec, style);
        out.push(rec);
        assert(rest@ =~= orig.subrange(n - rest.len(), n as int));
    }
    out
}

/// Whether adding may go on: a registered path or files the preset would
/// overwrite need `force_overwrite`.
pub fn confirm_add_instance(
    has_duplicate: bool,
    overwrite_count: usize,
    force_overwrite: Option<bool>,
) -> (r: Result<(), InstanceError>)
    ensures
        r is Ok <==> (!(has_duplicate || overwrite_count > 0) || force_overwrite == Some(true)),
        r matches Err(e) ==> e == InstanceError::NeedsConfirmation,
{
    let force = match force_overwrite {
        Some(b) => b,
        None => false,
    };
    if (has_duplicate || overwrite_count > 0) && !force {
        return Err(InstanceError::NeedsConfirmation);
    }
    Ok(())
}

/// What adding an instance would conflict with.
#[derive(Debug)]
pub struct AddInstanceConflictCheck {
    pub has_conflict: bool,
    pub has_duplicate_instance: bool,
    pub duplicate_instance_name: Option<String>,
    pub overwrite_files: Vec<String>,
}

/// The conflicts of a new instance (`preview_add_instance`): the first
/// instance registered at its path key, and the files the preset would
/// overwrite.
pub fn preview_add_instance(
    instances: &Vec<InstanceRecord>,
    keys: &Vec<String>,
    selected_key: &str,
    overwrite_files: Vec<String>,
) -> (r: AddInstanceConflictCheck)
    requires
        keys@.len() == instances@.len(),
    ensures
        r.has_duplicate_instance == (key_index(keys@, selected_key@, 0) is Some),
        r.has_conflict == (r.has_duplicate_instance || overwrite_files@.len() > 0),
        r.overwrite_files == overwrite_files,
        match key_index(keys@, selected_key@, 0) {
            Some(k) => r.duplicate_instance_name matches Some(n) && n@ == instances@[k].name@,
            None => r.duplicate_instance_name is None,
        },
{
    let dup = find_instance(keys, selected_key);
    let name = match dup {
        Some(k) => Some(instances[k].name.clone()),
        None => None,
    };
    let has_dup = dup.is_some();
    let has_conflict = has_dup || overwrite_files.len() > 0;
    AddInstanceConflictCheck {
        has_conflict,
        has_duplicate_instance: has_dup,
        duplicate_instance_name: name,
        overwrite_files,
    }
}

/// The store once a new instance is registered (`add_instance`): the record,
/// its name normalized, takes the place of the first instance at the same path
/// key, else it is appended.
pub fn add_instance(
    instances: Vec<InstanceRecord>,
    keys: &Vec<String>,
    selected_key: &str,
    record: InstanceRecord,
    style: PathStyle,
) -> (r: (InstanceRecord, Vec<InstanceRecord>))
    requires
        keys@.len() == instances@.len(),
    ensures
        r.0.path == record.path,
        r.0.preset_id == record.preset_id,
        r.0.name@ == (if trim(record.name@).len() > 0 {
            trim(record.name@)
        } else {
            fallback_name(record.path@, style)
        }),
        match key_index(keys@, selected_key@, 0) {
            Some(k) => r.1@ == instances@.update(k, r.0),
            None => r.1@ == instances@.push(r.0),
        },
{
    let mut rec = record;
    normalize_record_name(&mut rec, style);
    let mut list = instances;
    let copy = InstanceRecord {
        name: rec.name.clone(),
        preset_id: rec.preset_id.clone(),
        path: rec.path.clone(),
    };
    assert(copy.name == rec.name && copy.preset_id == rec.preset_id && copy.path == rec.path);
    match find_instance(keys, selected_key) {
        Some(k) => {
            list.set(k, copy);
        },
        None => {
            list.push(copy);
        },
    }
    (rec, list)
}

/// The store once an instance is updated (`update_instance`): the instance at
/// `original_key` gets the new name (normalized) and path and keeps its preset;
/// refused when no instance is at `original_key` or another one is at
/// `next_key`.
pub fn update_instance(
    instances: Vec<InstanceRecord>,
    keys: &Vec<String>,
    original_key: &str,
    next_key: &str,
    name: String,
    next_path: String,
    style: PathStyle,
) -> (r: Result<(InstanceRecord, Vec<InstanceRecord>), InstanceError>)
    requires
        keys@.len() == instances@.len(),
    ensures
        match key_index(keys@, original_key@, 0) {
            None => r == Err::<(InstanceRecord, Vec<InstanceRecord>), InstanceError>(
                InstanceError::NotFound,
            ),
            Some(t) => if exists|k: int| 0 <= k < keys@.len() && k != t && #[trigger] keys@[k]@
                == next_key@ {
                r == Err::<(InstanceRecord, Vec<InstanceRecord>), InstanceError>(
                    InstanceError::PathTaken,
                )
            } else {
                r matches Ok((rec, list)) && rec.path == next_path && rec.preset_id
                    == instances@[t].preset_id && rec.name@ == (if trim(name@).len() > 0 {
                    trim(name@)
                } else {
                    fallback_name(next_path@, style)
                }) && list@ == instances@.update(t, rec)
            },
        },
{
    let target = match find_instance(keys, original_key) {
        None => {
            return Err(InstanceError::NotFound);
        },
        Some(t) => t,
    };
    let nk = chars_of(next_key);
    let mut i: usize = 0;
    while i < keys.len()
        invariant
            i <= keys.len(),
            target < keys.len(),
            key_index(keys@, original_key@, 0) == Some(target as int),
            nk@ == next_key@,
            forall|k: int| 0 <= k < i && k != target ==> (#[trigger] keys@[k])@ != next_key@,
        decreases keys.len() - i,
    {
        if i != target && chars_eq(&chars_of(keys[i].as_str()), &nk) {
            assert(keys@[i as int]@ == next_key@);
            return Err(InstanceError::PathTaken);
        }
        i = i + 1;
    }
    let mut rec = InstanceRecord {
        name,
        preset_id: instances[target].preset_id.clone(),
        path: next_path,
    };
    normalize_record_name(&mut rec, style);
    let copy = InstanceRecord {
        name: rec.name.clone(),
        preset_id: rec.preset_id.clone(),
        path: rec.path.clone(),
    };
    let mut list = instances;
    list.set(target, copy);
    Ok((rec, list))
}

/// The instances not at path key `key`, in order.
pub open spec fn without_key(instances: Seq<InstanceRecord>, keys: Seq<String>, key: Seq<char>) -> Seq<
    InstanceRecord,
>
    decreases instances.len(),
{
    if instances.len() == 0 {
        Seq::empty()
    } else {
        let r = without_key(instances.drop_last(), keys.take(instances.len() - 1), key);
        if keys[instances.len() - 1]@ == key {
            r
        } else {
            r.push(instances.last())
        }
    }
}

/// The store once the instance at a path key is forgotten (`delete_instance`):
/// every instance at that key is dropped; refused when there is none.
pub fn delete_instance(instances: Vec<InstanceRecord>, keys: &Vec<String>, key: &str) -> (r: Result<
    Vec<InstanceRecord>,
    InstanceError,
>)
    requires
        keys@.len() == instances@.len(),
    ensures
        match r {
            Ok(v) => v@ == without_key(instances@, keys@, key@) && v@.len() < instances@.len(),
            Err(e) => e == InstanceError::NotFound && without_key(instances@, keys@, key@).len()
                == instances@.len(),
        },
{
    let ghost orig = instances@;
    let n = instances.len();
    let kc = chars_of(key);
    let mut rest = instances;
    let mut out: Vec<InstanceRecord> = Vec::new();
    assert(orig.take(0) =~= Seq::<InstanceRecord>::empty());
    assert(rest@ =~= orig.subrange(0, n as int));
    while rest.len() > 0
        invariant
            n == orig.len() == keys@.len(),
            rest.len() <= n,
            kc@ == key@,
            rest@ == orig.subrange(n - rest.len(), n as int),
            out@ == without_key(orig.take(n - rest.len()), keys@.take(n - rest.len()), key@),
            out@.len() <= n - rest.len(),
        decreases rest.len(),
    {
        let ghost i = n - rest.len();
        let i_exec = n - rest.len();
        let rec = rest.remove(0);
        assert(rec == orig[i]);
        assert(orig.take(i + 1).drop_last() =~= orig.take(i));
        assert(keys@.take(i + 1).take(i) =~= keys@.take(i));
        assert(orig.take(i + 1).last() == orig[i]);
        if !chars_eq(&chars_of(keys[i_exec].as_str()), &kc) {
            out.push(rec);
        }
        assert(rest@ =~= orig.subrange(n - rest.len(), n as int));
    }
    assert(orig.take(n as int) =~= orig);
    assert(keys@.take(n as int) =~= keys@);
    if out.len() == n {
        return Err(InstanceError::NotFound);
    }
    Ok(out)
}

/// A newly added instance is found at its path key: once `add_instance` has put
/// the record at the first position with that key (or at the end), and the key
/// list is updated the same way, looking the key up finds the record.
pub proof fn law_added_instance_found(
    instances: Seq<InstanceRecord>,
    keys: Seq<String>,
    key: String,
    record: InstanceRecord,
    stored: Seq<InstanceRecord>,
    stored_keys: Seq<String>,
)
    requires
        keys.len() == instances.len(),
        match key_index(keys, key@, 0) {
            Some(k) => stored == instances.update(k, record) && stored_keys == keys,
            None => stored == instances.push(record) && stored_keys == keys.push(key),
        },
    ensures
        key_index(stored_keys, key@, 0) matches Some(j) && stored[j] == record,
{
    lemma_key_index(keys, key@, 0);
    match key_index(keys, key@, 0) {
        Some(k) => {},
        None => {
            lemma_key_index_from(stored_keys, key@, 0, keys.len() as int);
        },
    }
}

/// Deleting an instance that was just added at a new path key gives the store
/// back as it was before.
pub proof fn law_delete_undoes_add(
    instances: Seq<InstanceRecord>,
    keys: Seq<String>,
    key: String,
    record: InstanceRecord,
)
    requires
        keys.len() == instances.len(),
        key_index(keys, key@, 0) is None,
    ensures
        without_key(instances.push(record), keys.push(key), key@) == instances,
{
    lemma_key_index(keys, key@, 0);
    assert(keys.push(key).take(instances.len() as int) =~= keys);
    assert(instances.push(record).drop_last() =~= instances);
    lemma_without_absent_key(instances, keys, key@);
}

proof fn lemma_without_absent_key(instances: Seq<InstanceRecord>, keys: Seq<String>, key: Seq<char>)
    requires
        keys.len() == instances.len(),
        forall|j: int| 0 <= j < keys.len() ==> keys[j]@ != key,
    ensures
        without_key(instances, keys, key) == instances,
    decreases instances.len(),
{
    if instances.len() > 0 {
        let n = instances.len() - 1;
        assert(keys[n as int]@ != key);
        lemma_without_absent_key(instances.drop_last(), keys.take(n as int), key);
        assert(instances.drop_last().push(instances.last()) =~= instances);
    }
}

proof fn lemma_key_index_from(keys: Seq<String>, key: Seq<char>, i: nat, k: int)
    requires
        i <= k < keys.len(),
        keys[k]@ == key,
        forall|j: int| i <= j < k ==> keys[j]@ != key,
    ensures
        key_index(keys, key, i) == Some(k),
    decreases k - i,
{
    if i < k {
        lemma_key_index_from(keys, key, i + 1, k);
    }
}

} // verus!
