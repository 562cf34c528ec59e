use assay::lua_vm::{blocked_globals, global_modules_dir, module_candidates};

#[test]
fn a_module_maps_to_two_candidate_files() {
    assert_eq!(
        module_candidates("assay.net.http"),
        Ok(("net/http.lua".to_string(), "net/http/init.lua".to_string()))
    );
    assert_eq!(module_candidates("json"), Err("not an assay.* module: json".to_string()));
}

#[test]
fn the_global_module_directory_falls_back_in_order() {
    assert_eq!(global_modules_dir(Some("/m"), Some("/e"), Some("/h")), "/m");
    assert_eq!(global_modules_dir(None, Some("/e"), Some("/h")), "/e");
    assert_eq!(global_modules_dir(None, None, Some("/h")), "/h/.assay/modules");
    assert_eq!(global_modules_dir(None, None, None), "");
}

#[test]
fn blocked_globals_are_split_into_segments() {
    assert_eq!(
        blocked_globals("dofile, os.execute,,debug..getinfo, ."),
        vec![
            vec!["dofile".to_string()],
            vec!["os".to_string(), "execute".to_string()],
            vec!["debug".to_string(), "getinfo".to_string()],
        ]
    );
    assert!(blocked_globals("").is_empty());
}
