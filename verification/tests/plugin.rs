use eli_lib::plugin_load::{is_load_candidate, load_worker_count};
use eli_lib::path::{sort_keyed, sort_paths};
use eli_lib::error::ErrorKind;
use eli_lib::plugin::{
    delete, find, list, outdate, parse, set_attribute, store, AttributeChange, PluginAttribute,
};
use eli_lib::plugin_load::{
    decide_load, finish_load, hotload_script_name, lines_to_contents, load, manifest_file_name, merge_lines,
    next_counter, plan_load, plugin_name, unique_nonempty_lines, IndexedResult, LoadDecision,
    LoadOptions, LoadResult, LoadStatus, LoadSummary, LocalBoostHandling,
};
use eli_lib::dependency::RuntimeEnvironment;
use eli_lib::error::EliError;

#[test]
fn pads_an_attribute_to_the_requested_display_width() {
    assert_eq!(PluginAttribute::Normal.padded(16), "Normal          ");
}

#[test]
fn names_each_attribute() {
    assert_eq!(PluginAttribute::Frozen.to_string(), "Frozen");
    assert_eq!(PluginAttribute::from_path("a_1_b.7zl"), Some(PluginAttribute::LocalBoost));
    assert_eq!(PluginAttribute::from_path("a_1_b.zip"), None);
    assert_eq!(PluginAttribute::LocalBoost.padded(2), "LocalBoost");
}

#[test]
fn parses_a_package_file_name() {
    let plugin = parse("C:\\Resource\\Chrome_120.0_Google（bot）.7z").unwrap();
    assert_eq!(plugin.name, "Chrome");
    assert_eq!(plugin.version, "120.0");
    assert_eq!(plugin.author, "Google");
    assert_eq!(plugin.attribute, PluginAttribute::Normal);
    assert!(plugin.automatically_built);
    let plugin = parse("Tool_Name_1.0_Someone.7zf").unwrap();
    assert_eq!(plugin.name, "Tool_Name");
    assert_eq!(parse("noversion.7z").unwrap_err().kind(), ErrorKind::InvalidData);
}

#[test]
fn lists_plugin_metadata_in_path_order() {
    let plugins = list(vec!["b_1_x.7z".to_owned(), "a_2_y.7zf".to_owned()]).unwrap();
    assert_eq!(plugins[0].name, "a");
    assert_eq!(plugins[1].name, "b");
    assert_eq!(list(vec!["bad.7z".to_owned()]).unwrap_err().kind(), ErrorKind::InvalidData);
}

#[test]
fn finds_and_deletes_by_file_name_or_stem() {
    let paths = vec!["R/a_1_x.7z".to_owned(), "R/b_1_x.7zf".to_owned()];
    assert_eq!(find("b_1_x", &paths, "R").unwrap(), 1);
    assert_eq!(find("a_1_x.7z", &paths, "R").unwrap(), 0);
    let missing = find("c_1_x", &paths, "R").unwrap_err();
    assert_eq!(missing.kind(), ErrorKind::NotFound);
    assert_eq!(missing.to_string(), "plugin package was not found in R: c_1_x");
    let path = delete("../a_1_x.7z", &paths, "R").unwrap_err();
    assert_eq!(path.kind(), ErrorKind::InvalidInput);
    assert_eq!(path.to_string(), "plugin must be a file name or file stem, not a path");
}

#[test]
fn attributes_change_by_extension() {
    match set_attribute("R/a_1_x.7z", PluginAttribute::Frozen) {
        AttributeChange::Rename { from, to } => {
            assert_eq!(from, "R/a_1_x.7z");
            assert_eq!(to, "R/a_1_x.7zf");
        }
        other => panic!("unexpected {other:?}"),
    }
    assert!(matches!(set_attribute("R/a_1_x.7zf", PluginAttribute::Frozen), AttributeChange::Keep(_)));
    let plan = outdate("R/a_1_x.7z");
    assert_eq!(plan.frozen, "R/a_1_x.7zf");
    assert!(plan.rename);
    assert_eq!(plan.destination_name, "a_1_x.7zf");
}

#[test]
fn stores_only_plugin_packages() {
    assert_eq!(store("dir/a_1_x.7z", true).unwrap(), "a_1_x.7z");
    assert_eq!(store("dir/a.txt", true).unwrap_err().kind(), ErrorKind::InvalidData);
    assert_eq!(store("dir/a_1_x.7z", false).unwrap_err().kind(), ErrorKind::InvalidInput);
}

#[test]
fn accepts_arbitrary_extensions_and_extensionless_names() {
    assert_eq!(plugin_name("tool.custom").unwrap(), "tool");
    assert_eq!(plugin_name("tool").unwrap(), "tool");
}

#[test]
fn local_boost_packages_can_be_skipped_or_delegated() {
    let files = vec!["a_1_x.7z".to_owned(), "b_1_x.7zl".to_owned()];
    let ignore = plan_load(&files, LocalBoostHandling::Ignore);
    assert_eq!(ignore, vec![LoadDecision::Run, LoadDecision::Skip]);
    let delegate = plan_load(&files, LocalBoostHandling::Load);
    assert_eq!(delegate, vec![LoadDecision::Run, LoadDecision::Run]);
}

#[test]
fn packages_with_the_same_stem_are_rejected_without_loading_either() {
    let files = vec!["Tool_1_x.7z".to_owned(), "tool_1_x.7zf".to_owned()];
    let decisions = plan_load(&files, LocalBoostHandling::Ignore);
    assert_eq!(decisions, vec![LoadDecision::Conflict, LoadDecision::Conflict]);
}

#[test]
fn loading_needs_windows_and_at_least_one_job() {
    let files = vec!["a_1_x.7z".to_owned()];
    assert_eq!(
        load(RuntimeEnvironment::WindowsNormal, &files, LoadOptions::default()).unwrap_err().kind(),
        ErrorKind::Unsupported
    );
    assert_eq!(LoadOptions::default().jobs, 2);
}

#[test]
fn results_come_back_in_input_order_and_are_counted() {
    let summary = finish_load(vec![
        IndexedResult {
            index: 1,
            result: LoadResult {
                path: "b".to_owned(),
                result: Err(EliError::new(ErrorKind::Other, "failed".to_owned())),
            },
        },
        IndexedResult {
            index: 0,
            result: LoadResult { path: "a".to_owned(), result: Ok(LoadStatus::Loaded) },
        },
        IndexedResult {
            index: 2,
            result: LoadResult { path: "c".to_owned(), result: Ok(LoadStatus::SkippedLocalBoost) },
        },
    ]);
    let paths: Vec<&str> = summary.results.iter().map(|r| r.path.as_str()).collect();
    assert_eq!(paths, vec!["a", "b", "c"]);
    assert_eq!(summary.succeeded(), 1);
    assert_eq!(summary.failed(), 1);
    assert_eq!(summary.skipped(), 1);
    assert!(!summary.is_success());
    assert!(LoadSummary { results: Vec::new() }.is_success());
}

#[test]
fn manifest_update_cleans_existing_duplicates_and_empty_lines() {
    let lines = unique_nonempty_lines("a.txt\r\n\r\nA.TXT\nb.txt\n");
    assert_eq!(lines, vec!["a.txt".to_owned(), "b.txt".to_owned()]);
    let merged = merge_lines(lines, &vec!["B.TXT".to_owned(), "c.txt".to_owned()]);
    assert_eq!(lines_to_contents(&merged), "a.txt\nb.txt\nc.txt\n");
}

#[test]
fn counters_and_script_names() {
    assert_eq!(next_counter(None).unwrap(), 1);
    assert_eq!(next_counter(Some(" 41 \r\n")).unwrap(), 42);
    assert_eq!(next_counter(Some("x")).unwrap_err().kind(), ErrorKind::InvalidData);
    assert_eq!(hotload_script_name("setup", 3, "cmd"), "setup_hotload_3.cmd");
    assert_eq!(manifest_file_name("tool"), "tool.txt");
}

#[test]
fn expands_only_loadable_packages_and_bounds_the_workers() {
    assert!(is_load_candidate("dir/a_1_x.7z"));
    assert!(is_load_candidate("dir/a_1_x.7ZL"));
    assert!(!is_load_candidate("dir/a_1_x.7zf"));
    assert!(!is_load_candidate("dir/readme"));
    assert_eq!(load_worker_count(2, 5), 2);
    assert_eq!(load_worker_count(8, 3), 3);
}

#[test]
fn keyed_sorting_keeps_equal_keys_in_order() {
    let sorted = sort_keyed(vec![
        (vec![2], "b".to_owned()),
        (vec![1, 5], "a2".to_owned()),
        (vec![1], "a1".to_owned()),
        (vec![2], "b2".to_owned()),
    ]);
    let names: Vec<&str> = sorted.iter().map(|p| p.1.as_str()).collect();
    assert_eq!(names, vec!["a1", "a2", "b", "b2"]);
    assert_eq!(
        sort_paths(vec!["/b".to_owned(), "/a/c".to_owned(), "/a".to_owned()]),
        vec!["/a".to_owned(), "/a/c".to_owned(), "/b".to_owned()]
    );
}

#[test]
fn a_changed_attribute_reads_back_with_the_same_stem() {
    for (source, attribute) in [
        ("R/a_1_x.7z", PluginAttribute::LocalBoost),
        ("R\\b_2_y（bot）.7ZL", PluginAttribute::Normal),
        ("c_3_z.7zf", PluginAttribute::LocalBoost),
    ] {
        match set_attribute(source, attribute) {
            AttributeChange::Rename { to, .. } => {
                assert_eq!(PluginAttribute::from_path(&to), Some(attribute));
                assert_eq!(parse(&to).unwrap().name, parse(source).unwrap().name);
            }
            AttributeChange::Keep(_) => panic!("the attribute differs"),
        }
    }
}

#[test]
fn inputs_with_one_folded_name_conflict() {
    let files = vec!["a/Tool_1_x.7z".to_owned(), "b/tool_2_y.7zl".to_owned(), "c/other_1_z.7z".to_owned(), "d/../..7z".to_owned()];
    let keys = vec![Some("tool_1_x".to_owned()), Some("tool_1_x".to_owned()), Some("other_1_z".to_owned()), None];
    assert_eq!(
        decide_load(&files, LocalBoostHandling::Load, &keys),
        vec![LoadDecision::Conflict, LoadDecision::Conflict, LoadDecision::Run, LoadDecision::BadName]
    );
    let keys = vec![Some("tool_1_x".to_owned()), None, Some("other_1_z".to_owned()), None];
    assert_eq!(
        decide_load(&files, LocalBoostHandling::Ignore, &keys),
        vec![LoadDecision::Run, LoadDecision::Skip, LoadDecision::Run, LoadDecision::BadName]
    );
}

#[test]
fn rejects_an_ambiguous_stem_across_attribute_variants() {
    let paths = vec!["R/plugin_1.0_author.7z".to_owned(), "R/plugin_1.0_author.7zf".to_owned()];
    let error = find("plugin_1.0_author", &paths, "R").unwrap_err();
    assert_eq!(error.kind(), ErrorKind::InvalidInput);
    assert_eq!(error.to_string(), "plugin name is ambiguous: plugin_1.0_author.7z, plugin_1.0_author.7zf");
    assert_eq!(find("plugin_1.0_author.7zf", &paths, "R").unwrap(), 1);
}

#[test]
fn parse_errors_name_the_package() {
    assert_eq!(parse("R/bad.zip").unwrap_err().to_string(), "unsupported plugin package extension: R/bad.zip");
    assert_eq!(
        parse("R/bad.7z").unwrap_err().to_string(),
        "plugin package name must use <NAME>_<VERSION>_<AUTHOR>[（bot）]: R/bad.7z"
    );
}

#[test]
fn reports_the_first_package_in_path_order_that_does_not_parse() {
    let error = list(vec!["z_bad.7z".to_owned(), "a_1_x.7z".to_owned(), "m_bad.7z".to_owned()]).unwrap_err();
    assert_eq!(error.kind(), ErrorKind::InvalidData);
    assert_eq!(error.to_string(), "plugin package name must use <NAME>_<VERSION>_<AUTHOR>[（bot）]: m_bad.7z");
}

#[test]
fn loads_only_in_windows_pe() {
    let files = vec!["a_1_x.7z".to_owned()];
    for environment in [RuntimeEnvironment::Other, RuntimeEnvironment::WindowsNormal] {
        let error = load(environment, &files, LoadOptions::default()).unwrap_err();
        assert_eq!(error.kind(), ErrorKind::Unsupported);
        assert_eq!(error.to_string(), "plugin loading is only implemented for Windows PE");
    }
    assert_eq!(load(RuntimeEnvironment::WindowsPE, &files, LoadOptions::default()).unwrap().len(), 1);
}
