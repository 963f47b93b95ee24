use scoggle_gen::{
    build_sublime_project, get_prod_and_test_sources, PathObject, ProdSource, ProjectType,
    TestSource,
};

#[test]
fn each_module_yields_one_production_and_one_test_root() {
    let pt = ProjectType(vec!["/repo/modA".to_string(), "/repo/modB".to_string()]);
    let (prods, tests) = get_prod_and_test_sources("/repo", &pt);
    assert_eq!(
        prods,
        vec![
            ProdSource("/modA/src/main/scala".to_string()),
            ProdSource("/modB/src/main/scala".to_string())
        ]
    );
    assert_eq!(
        tests,
        vec![
            TestSource("/modA/src/test/scala".to_string()),
            TestSource("/modB/src/test/scala".to_string())
        ]
    );
}

#[test]
fn source_root_lists_match_the_module_list_in_length_and_order() {
    let pt = ProjectType(vec![
        "/w/a".to_string(),
        "/w/b".to_string(),
        "/w/c".to_string(),
    ]);
    let (prods, tests) = get_prod_and_test_sources("/w", &pt);
    assert_eq!(prods.len(), 3);
    assert_eq!(tests.len(), 3);
    for (i, name) in ["/a", "/b", "/c"].iter().enumerate() {
        assert_eq!(prods[i].0, format!("{}/src/main/scala", name));
        assert_eq!(tests[i].0, format!("{}/src/test/scala", name));
    }
}

#[test]
fn relativization_removes_every_occurrence_of_the_working_directory() {
    let pt = ProjectType(vec!["/a/x/a/y".to_string()]);
    let (prods, tests) = get_prod_and_test_sources("/a", &pt);
    assert_eq!(prods[0].0, "/x/y/src/main/scala");
    assert_eq!(tests[0].0, "/x/y/src/test/scala");
}

#[test]
fn an_empty_working_directory_changes_no_path() {
    let pt = ProjectType(vec!["/repo/modA".to_string()]);
    let (prods, _) = get_prod_and_test_sources("", &pt);
    assert_eq!(prods[0].0, "/repo/modA/src/main/scala");
}

#[test]
fn assembling_twice_yields_identical_descriptors() {
    let pt = ProjectType(vec!["/repo/modA".to_string(), "/repo/modB".to_string()]);
    let (prods_a, tests_a) = get_prod_and_test_sources("/repo", &pt);
    let (prods_b, tests_b) = get_prod_and_test_sources("/repo", &pt);
    let first = build_sublime_project(prods_a, tests_a);
    let second = build_sublime_project(prods_b, tests_b);
    assert_eq!(first, second);
}

#[test]
fn the_descriptor_holds_the_fixed_folder_and_suffixes() {
    let pt = ProjectType(vec!["/repo/modA".to_string()]);
    let (prods, tests) = get_prod_and_test_sources("/repo", &pt);
    let project = build_sublime_project(prods, tests);
    assert_eq!(
        project.folders,
        vec![PathObject { path: ".".to_string() }]
    );
    assert_eq!(
        project.settings.scoggle.test_suffixes,
        vec![
            "Spec.scala".to_string(),
            "Suite.scala".to_string(),
            "Test.scala".to_string()
        ]
    );
    assert_eq!(
        project.settings.scoggle.production_srcs,
        vec!["/modA/src/main/scala".to_string()]
    );
    assert_eq!(
        project.settings.scoggle.test_srcs,
        vec!["/modA/src/test/scala".to_string()]
    );
}
