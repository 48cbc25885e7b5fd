use eli_lib::dependency::RuntimeEnvironment;
use eli_lib::config::{
    boolean_config, homepage_decision, normalize_homepage, validate_resolution, ConfigChange,
};
use eli_lib::error::ErrorKind;
use eli_lib::hook::{
    add, call, is_supported_script, list, order_scripts, remove, validate_portable_file_name,
    validate_script_name, CallOptions, CallPolicy, HookScript, HookStage, DEFAULT_DICTIONARY,
};

#[test]
fn default_options_use_sync_and_the_requested_runtime_dictionary() {
    let options = CallOptions::default();

    assert_eq!(options.policy, CallPolicy::Sync);
    assert_eq!(options.dictionary, DEFAULT_DICTIONARY);
}

#[test]
fn rejects_out_of_window_and_invalid_values() {
    assert_eq!(
        eli_lib::config::set("Edgeless_Beta_Ofial_4.1.0_2", "Developer", "true").unwrap_err().kind(),
        ErrorKind::Unsupported
    );
    assert!(validate_resolution("w1920 h1080 b24 f60").is_err());
    assert_eq!(normalize_homepage("example.com/path").unwrap(), "http://example.com/path");
    assert!(normalize_homepage("http://example.com:80:90/path").is_err());
    assert!(normalize_homepage("http://EXAMPLE.COM").is_err());
    assert_eq!(
        normalize_homepage("http://foo_bar.example.com").unwrap(),
        "http://foo_bar.example.com"
    );
}

#[test]
fn homepage_keeps_an_explicit_scheme() {
    assert_eq!(normalize_homepage("https://example.com").unwrap(), "https://example.com");
    assert_eq!(normalize_homepage("  ").unwrap_err().kind(), ErrorKind::InvalidInput);
}

#[test]
fn sets_a_boolean_marker_inside_its_version_window() {
    match eli_lib::config::set("Edgeless_Beta_3.2.0", "Developer", "true") {
        Ok(ConfigChange::SetMarker { key, enabled }) => {
            assert_eq!(key, "Developer");
            assert!(enabled);
        }
        other => panic!("unexpected {other:?}"),
    }
    assert!(boolean_config("NoSuchKey").is_none());
    assert_eq!(eli_lib::config::set("Edgeless_Beta_4.1.0", "NoSuchKey", "true").unwrap_err().kind(), ErrorKind::InvalidInput);
}

#[test]
fn accepts_documented_hook_stages_and_portable_script_names() {
    for stage in HookStage::all() {
        assert_eq!(HookStage::try_from(stage.as_str()).unwrap(), stage);
    }
    validate_script_name("初始化.cmd").unwrap();
    validate_script_name("preset.WCS").unwrap();
}

#[test]
fn rejects_unknown_hook_stages_and_unsupported_scripts() {
    for name in ["customStage", "ONEXIT", "../onExit", r"parent\onExit", "parent/onExit", "onExit:"] {
        assert_eq!(HookStage::try_from(name).unwrap_err().kind(), ErrorKind::InvalidInput);
    }
    assert_eq!(validate_script_name("readme.txt").unwrap_err().kind(), ErrorKind::InvalidInput);
}

#[test]
fn rejects_windows_reserved_device_names() {
    for name in ["CON", "nul.txt", "COM1.cmd", "lpt9.wcs"] {
        assert_eq!(
            validate_portable_file_name(name, "test name").unwrap_err().kind(),
            ErrorKind::InvalidInput
        );
    }
    validate_portable_file_name("COM10.cmd", "test name").unwrap();
}

#[test]
fn adding_and_removing_name_the_script() {
    let stage = HookStage::all()[0];
    let target = add(stage, Some("setup.cmd")).unwrap();
    assert_eq!(target.stage, stage);
    assert_eq!(target.script, "setup.cmd");
    assert_eq!(add(stage, None).unwrap_err().kind(), ErrorKind::InvalidInput);
    assert_eq!(remove(stage, "notes.txt").unwrap_err().kind(), ErrorKind::InvalidInput);
}

#[test]
fn calls_scripts_in_order_and_knows_which_runners_are_needed() {
    let stage = HookStage::all()[0];
    let plan = call(
        stage,
        &CallOptions::default(),
        RuntimeEnvironment::WindowsPE,
        vec!["b.wcs".to_owned(), "a.cmd".to_owned()],
    )
    .unwrap();
    assert_eq!(plan.scripts, vec!["a.cmd".to_owned(), "b.wcs".to_owned()]);
    assert!(plan.needs_cmd);
    assert!(plan.needs_pecmd);
    assert_eq!(
        call(stage, &CallOptions::default(), RuntimeEnvironment::Other, Vec::new()).unwrap_err().kind(),
        ErrorKind::Unsupported
    );
    assert_eq!(order_scripts(vec!["b".to_owned(), "a".to_owned()]), vec!["a".to_owned(), "b".to_owned()]);
}

#[test]
fn the_home_page_follows_what_the_pattern_said() {
    assert_eq!(homepage_decision("Disable", None).unwrap(), "Disable");
    assert_eq!(homepage_decision("example.com", Some(true)).unwrap(), "http://example.com");
    assert_eq!(homepage_decision("https://example.com", Some(true)).unwrap(), "https://example.com");
    assert_eq!(homepage_decision("example.com", Some(false)).unwrap_err().kind(), ErrorKind::InvalidInput);
    assert_eq!(homepage_decision("example.com", None).unwrap_err().kind(), ErrorKind::Other);
}

#[test]
fn names_the_documented_stages_when_a_stage_is_unknown() {
    assert_eq!(
        HookStage::try_from("onBoot").unwrap_err().to_string(),
        "unknown hook stage \"onBoot\"; expected one of: onDiskFound, beforeLocalBoost, beforePluginLoading, onDesktopShown, onBootFinished, onExit"
    );
    assert_eq!(
        validate_script_name("run.bat").unwrap_err().to_string(),
        "hook scripts must use the .cmd or .wcs extension"
    );
    assert_eq!(
        validate_script_name("a/run.cmd").unwrap_err().to_string(),
        "hook script name must be a portable file name without path separators"
    );
}

#[test]
fn refused_config_requests_say_why() {
    let error = eli_lib::config::set("Edgeless_Beta_Ofial_4.1.0_2", "Developer", "true").unwrap_err();
    assert!(error.to_string().starts_with("config key Developer is unavailable on Edgeless 4.1.0; supported versions are > "));
    assert_eq!(
        eli_lib::config::set("Edgeless_Beta_4.1.0", "NoSuchKey", "true").unwrap_err().to_string(),
        "unknown config key \"NoSuchKey\"; run `eli config list` to see supported keys"
    );
    assert_eq!(
        eli_lib::config::set("Edgeless_Beta_4.1.0", "wallpaper", "a.png").unwrap_err().to_string(),
        "wallpaper must be an existing .jpg file: a.png"
    );
    assert_eq!(
        eli_lib::config::set("Edgeless_Beta_4.1.0", "homepage", "http://EXAMPLE.COM").unwrap_err().to_string(),
        "homepage must be Disable or a valid HTTP(S) URL"
    );
    assert_eq!(
        eli_lib::config::set("Edgeless_Beta_4.0.2", "homepage", "example.com").unwrap_err().to_string(),
        "config key homepage is unavailable on Edgeless 4.0.2; supported versions are > 4.0.2"
    );
    assert_eq!(
        eli_lib::config::set("not a version\r\n", "homepage", "example.com").unwrap_err().to_string(),
        "invalid Edgeless version identifier \"not a version\""
    );
    assert_eq!(
        validate_resolution("w1920 h1080 b24 f60").unwrap_err().to_string(),
        "resolution must be DisableAutoSuit or `w<width> h<height> b<16|32> f<30|60>` using a supported resolution"
    );
    assert_eq!(
        validate_resolution("1920x1080").unwrap_err().to_string(),
        "resolution must use the format `w<width> h<height> b<bit> f<fps>` with positive integer values"
    );
}

fn found(hook_directory: &str, script: &str) -> Option<HookScript> {
    let hook = HookStage::try_from(hook_directory).ok()?;
    let path = format!("Hooks/{hook_directory}/{script}");
    if !is_supported_script(&path) {
        return None;
    }
    Some(HookScript { hook, script: script.to_owned(), path })
}

#[test]
fn lists_supported_scripts_in_stable_hook_and_file_order() {
    let entries = [
        ("onExit", "b.wcs"),
        ("onExit", "a.CMD"),
        ("onExit", "notes.txt"),
        ("beforePluginLoading", "first.cmd"),
        ("customStage", "ignored.cmd"),
    ];
    let listed = list(entries.iter().filter_map(|(hook, script)| found(hook, script)).collect());
    assert_eq!(listed.len(), 3);
    assert_eq!(listed[0].hook, HookStage::BeforePluginLoading);
    assert_eq!(listed[1].script, "a.CMD");
    assert_eq!(listed[2].script, "b.wcs");
    assert_eq!(listed[2].path, "Hooks/onExit/b.wcs");
}

#[test]
fn lists_stages_by_their_lower_case_names() {
    let scripts: Vec<HookScript> = HookStage::all()
        .iter()
        .map(|hook| HookScript { hook: *hook, script: "x.cmd".to_owned(), path: "x.cmd".to_owned() })
        .collect();
    let names: Vec<&str> = list(scripts).iter().map(|s| s.hook.as_str()).collect();
    assert_eq!(
        names,
        vec!["beforeLocalBoost", "beforePluginLoading", "onBootFinished", "onDesktopShown", "onDiskFound", "onExit"]
    );
    assert!(list(Vec::new()).is_empty());
}

#[test]
fn calls_hooks_only_in_windows_pe() {
    let stage = HookStage::all()[0];
    let error = call(stage, &CallOptions::default(), RuntimeEnvironment::WindowsNormal, vec!["a.cmd".to_owned()])
        .unwrap_err();
    assert_eq!(error.kind(), ErrorKind::Unsupported);
    assert_eq!(error.to_string(), "hook calling is only implemented for Windows PE");
}
