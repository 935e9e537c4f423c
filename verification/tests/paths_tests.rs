use std::collections::hash_map::DefaultHasher;
use std::hash::{Hash, Hasher};
use ini_pack_manager::paths::PathStyle;
use ini_pack_manager::model::{AppSettings, InstanceRecord};
use ini_pack_manager::paths::{
    safe_relative_path, simplify_for_display, validate_instance_game_dir, GameDirError, PathError,
};
use ini_pack_manager::storage::{
    app_settings_store_path, component_id, component_state_store_path, components_root_dir,
    fallback_name_from_path, hex_chars, instance_key, instance_store_path,
    load_effective_app_settings, local_repository_base_dir, normalize_name, normalize_path_key,
    normalize_record_name, preset_root_candidates, presets_root_dir, remote_index_cache_path,
    repository_root_dir, sanitize_component_dir_name, save_effective_app_settings,
    unique_component_dir,
};

#[test]
fn safe_relative_path_accepts_relative_paths() {
    assert_eq!(safe_relative_path("a/b.ini", PathStyle::Windows).unwrap(), "a/b.ini");
    assert_eq!(safe_relative_path("a\\b\\c.ini", PathStyle::Windows).unwrap(), "a/b/c.ini");
    assert_eq!(safe_relative_path("./a//b/./c", PathStyle::Windows).unwrap(), "a/b/c");
    assert_eq!(safe_relative_path("a/b/", PathStyle::Windows).unwrap(), "a/b");
}

#[test]
fn safe_relative_path_refuses_escapes() {
    assert_eq!(safe_relative_path("../x", PathStyle::Windows), Err(PathError::Illegal));
    assert_eq!(safe_relative_path("a/../../x", PathStyle::Windows), Err(PathError::Illegal));
    assert_eq!(safe_relative_path("/etc/passwd", PathStyle::Windows), Err(PathError::Illegal));
    assert_eq!(safe_relative_path("\\windows", PathStyle::Windows), Err(PathError::Illegal));
    assert_eq!(safe_relative_path("C:\\game", PathStyle::Windows), Err(PathError::Illegal));
    assert_eq!(safe_relative_path("c:x", PathStyle::Windows), Err(PathError::Illegal));
    assert_eq!(safe_relative_path("", PathStyle::Windows), Err(PathError::Empty));
    assert_eq!(safe_relative_path("./.", PathStyle::Windows), Err(PathError::Empty));
}

#[test]
fn display_paths_drop_verbatim_prefixes() {
    assert_eq!(simplify_for_display("\\\\?\\C:\\Games\\RA2", PathStyle::Windows), "C:\\Games\\RA2");
    assert_eq!(simplify_for_display("\\\\?\\UNC\\server\\share\\x", PathStyle::Windows), "\\\\server\\share\\x");
    assert_eq!(simplify_for_display("D:\\plain", PathStyle::Windows), "D:\\plain");
}

#[test]
fn game_directory_checks() {
    assert_eq!(validate_instance_game_dir(false, false, false, false), Err(GameDirError::Missing));
    assert_eq!(validate_instance_game_dir(true, false, true, true), Err(GameDirError::NotDirectory));
    assert_eq!(validate_instance_game_dir(true, true, false, false), Err(GameDirError::NoGame));
    assert_eq!(validate_instance_game_dir(true, true, false, true), Ok(()));
}

#[test]
fn path_keys_are_windows_keys() {
    assert_eq!(normalize_path_key("\\\\?\\C:\\Games\\RA2\\", PathStyle::Windows), "c:\\games\\ra2");
    assert_eq!(normalize_path_key("C:/Games/Yuri/", PathStyle::Windows), "c:\\games\\yuri");
    assert_eq!(instance_key("D:\\A", PathStyle::Windows), "d:\\a");
}

#[test]
fn hex_is_lower_case_without_leading_zeros() {
    let h: String = hex_chars(0).into_iter().collect();
    assert_eq!(h, "0");
    let h: String = hex_chars(255).into_iter().collect();
    assert_eq!(h, "ff");
    let h: String = hex_chars(0x1a2b3c).into_iter().collect();
    assert_eq!(h, "1a2b3c");
    let h: String = hex_chars(u64::MAX).into_iter().collect();
    assert_eq!(h, "ffffffffffffffff");
}

#[test]
fn component_ids_are_stable_hex() {
    let a = component_id("c:\\packs\\one");
    let b = component_id("c:\\packs\\one");
    let c = component_id("c:\\packs\\two");
    assert_eq!(a, b);
    assert_ne!(a, c);
    assert!(!a.is_empty());
    assert!(a.chars().all(|ch| ch.is_ascii_hexdigit() && !ch.is_ascii_uppercase()));
}

#[test]
fn instance_names_fall_back_to_the_folder() {
    assert_eq!(normalize_name("  Main  "), "Main");
    assert_eq!(fallback_name_from_path("C:\\Games\\RA2\\", PathStyle::Windows), "RA2");
    assert_eq!(fallback_name_from_path("C:/Games/Yuri", PathStyle::Windows), "Yuri");
    assert_eq!(fallback_name_from_path("C:\\", PathStyle::Windows), "C:\\");
    assert_eq!(fallback_name_from_path("\\\\server\\share", PathStyle::Windows), "\\\\server\\share");
    assert_eq!(fallback_name_from_path("a/..", PathStyle::Windows), "a/..");
    let mut r = InstanceRecord { name: "   ".to_string(), preset_id: "yr".to_string(), path: "D:\\Games\\Mod".to_string() };
    normalize_record_name(&mut r, PathStyle::Windows);
    assert_eq!(r.name, "Mod");
    let mut r = InstanceRecord { name: " Main ".to_string(), preset_id: "yr".to_string(), path: "D:\\x".to_string() };
    normalize_record_name(&mut r, PathStyle::Windows);
    assert_eq!(r.name, "Main");
}

#[test]
fn component_directory_names_are_sanitized() {
    assert_eq!(sanitize_component_dir_name(" My:Pack? "), "My_Pack_");
    assert_eq!(sanitize_component_dir_name("..hidden.."), "hidden");
    assert_eq!(sanitize_component_dir_name(" ... "), "Pack");
    assert_eq!(sanitize_component_dir_name("a/b\\c"), "a_b_c");
}

#[test]
fn unique_directory_candidates() {
    assert_eq!(unique_component_dir("Pack", 0).unwrap(), "Pack");
    assert_eq!(unique_component_dir("Pack", 1).unwrap(), "Pack_2");
    assert_eq!(unique_component_dir("Pack", 9998).unwrap(), "Pack_9999");
    assert!(unique_component_dir("Pack", 9999).is_none());
}

#[test]
fn storage_locations() {
    let s = AppSettings { registry_url: String::new(), local_repository_path: "  ".to_string() };
    assert_eq!(local_repository_base_dir(&s, "/home/u"), "/home/u/IniPackManager");
    let s = AppSettings { registry_url: String::new(), local_repository_path: " D:\\Repo ".to_string() };
    assert_eq!(local_repository_base_dir(&s, "/home/u"), "D:\\Repo");
    assert_eq!(components_root_dir("B"), "B/components");
    assert_eq!(repository_root_dir("B"), "B/repository");
    assert_eq!(instance_store_path("H"), "H/IniPackManager/config/data/instances.json");
    assert_eq!(component_state_store_path("H"), "H/IniPackManager/config/data/components.json");
    assert_eq!(app_settings_store_path("H"), "H/IniPackManager/config/data/settings.json");
    assert_eq!(remote_index_cache_path("H"), "H/IniPackManager/config/data/remote-index-cache.json");
    let c = preset_root_candidates("W");
    assert_eq!(c, vec!["W/config/preset".to_string(), "W/../config/preset".to_string()]);
    assert_eq!(presets_root_dir("W", &vec![false, true]), "W/../config/preset");
    assert_eq!(presets_root_dir("W", &vec![true, true]), "W/config/preset");
    assert_eq!(presets_root_dir("W", &vec![false, false]), "W/config/preset");
}

#[test]
fn effective_settings() {
    let loaded = load_effective_app_settings(AppSettings {
        registry_url: "  ".to_string(),
        local_repository_path: " keep ".to_string(),
    });
    assert_eq!(
        loaded.registry_url,
        "https://raw.githubusercontent.com/MeccBai/IniPackRepo/master/index.toml"
    );
    assert_eq!(loaded.local_repository_path, " keep ");
    let loaded = load_effective_app_settings(AppSettings {
        registry_url: " https://x/index.toml ".to_string(),
        local_repository_path: String::new(),
    });
    assert_eq!(loaded.registry_url, " https://x/index.toml ");
    let saved = save_effective_app_settings(AppSettings {
        registry_url: " https://x/index.toml ".to_string(),
        local_repository_path: " D:\\Repo ".to_string(),
    });
    assert_eq!(saved.registry_url, "https://x/index.toml");
    assert_eq!(saved.local_repository_path, "D:\\Repo");
    let saved = save_effective_app_settings(AppSettings {
        registry_url: String::new(),
        local_repository_path: String::new(),
    });
    assert_eq!(
        saved.registry_url,
        "https://raw.githubusercontent.com/MeccBai/IniPackRepo/master/index.toml"
    );
}

#[test]
fn component_ids_are_the_default_hash_in_hex() {
    let key = "c:\\packs\\one";
    let mut hasher = DefaultHasher::new();
    key.hash(&mut hasher);
    assert_eq!(component_id(key), format!("{:x}", hasher.finish()));
}

#[test]
fn unix_path_rules() {
    assert_eq!(safe_relative_path("C:\\game", PathStyle::Unix).unwrap(), "C:/game");
    assert_eq!(safe_relative_path("/etc/passwd", PathStyle::Unix), Err(PathError::Illegal));
    assert_eq!(safe_relative_path("a/../b", PathStyle::Unix), Err(PathError::Illegal));
    assert_eq!(simplify_for_display("\\\\?\\C:\\x", PathStyle::Unix), "\\\\?\\C:\\x");
    assert_eq!(normalize_path_key("/home/User/Games/RA2/", PathStyle::Unix), "/home/User/Games/RA2");
    assert_eq!(instance_key("/home/a\\b", PathStyle::Unix), "/home/a/b");
    assert_eq!(fallback_name_from_path("/home/u/Mod/", PathStyle::Unix), "Mod");
    assert_eq!(fallback_name_from_path("C:\\Games\\RA2", PathStyle::Unix), "C:\\Games\\RA2");
}

#[test]
fn settings_load_back_as_saved() {
    for (url, local) in [(" https://x/i.toml ", " D:\\Repo "), ("", ""), ("  ", "keep")] {
        let saved = save_effective_app_settings(AppSettings {
            registry_url: url.to_string(),
            local_repository_path: local.to_string(),
        });
        let loaded = load_effective_app_settings(saved.clone());
        assert_eq!(loaded.registry_url, saved.registry_url);
        assert_eq!(loaded.local_repository_path, saved.local_repository_path);
    }
}

#[test]
fn path_keys_end_without_separator() {
    assert_eq!(normalize_path_key("C:\\Games\\\\//", PathStyle::Windows), "c:\\games");
    assert_eq!(normalize_path_key("/srv/x\\/", PathStyle::Unix), "/srv/x");
}

#[test]
fn ascii_lower_casing() {
    let lowered = ini_pack_manager::text::lowercase_chars(&"BoOL-Enum_1".chars().collect());
    assert_eq!(lowered.into_iter().collect::<String>(), "bool-enum_1");
}
