//! The project assembler: deriving each module's production and test source
//! roots from its base directory, and building the project descriptor.

use vstd::prelude::*;

use crate::model::{PathObject, ProdSource, ScoggleObject, SettingsObject, SublimeProject, TestSource};
use crate::text::remove_all;
use crate::text::remove_all_str;

verus! {

/// A module's path relative to the working directory: every occurrence of the
/// working directory's text is removed — a plain text replacement, not a
/// path-prefix operation.
pub open spec fn relative_path(cd: Seq<char>, p: Seq<char>) -> Seq<char> {
    remove_all(p, cd)
}

/// The production source root a module's base directory yields.
pub open spec fn prod_source_of(cd: Seq<char>, p: Seq<char>) -> Seq<char> {
    relative_path(cd, p) + "/src/main/scala"@
}

/// The test source root a module's base directory yields.
pub open spec fn test_source_of(cd: Seq<char>, p: Seq<char>) -> Seq<char> {
    relative_path(cd, p) + "/src/test/scala"@
}

/// The production source roots of a module list, in module order.
pub open spec fn prod_sources_spec(cd: Seq<char>, modules: Seq<Seq<char>>) -> Seq<Seq<char>> {
    modules.map_values(|p: Seq<char>| prod_source_of(cd, p))
}

/// The test source roots of a module list, in module order.
pub open spec fn test_sources_spec(cd: Seq<char>, modules: Seq<Seq<char>>) -> Seq<Seq<char>> {
    modules.map_values(|p: Seq<char>| test_source_of(cd, p))
}

/// The views of a module list held as owned strings.
pub open spec fn module_views(pt: crate::model::ProjectType) -> Seq<Seq<char>> {
    crate::text::str_views(pt.0@)
}

/// One production and one test source root per module, in module order.
pub fn get_prod_and_test_sources(current_directory: &str, project_type: &crate::model::ProjectType)
    -> (r: (Vec<ProdSource>, Vec<TestSource>))
    ensures
        r.0@.map_values(|s: ProdSource| s.0@) == prod_sources_spec(
            current_directory@,
            module_views(*project_type),
        ),
        r.1@.map_values(|s: TestSource| s.0@) == test_sources_spec(
            current_directory@,
            module_views(*project_type),
        ),
{
    let mut prods: Vec<ProdSource> = Vec::new();
    let mut tests: Vec<TestSource> = Vec::new();
    let n = project_type.0.len();
    let mut i: usize = 0;
    while i < n
        invariant
            0 <= i <= n,
            n == project_type.0@.len(),
            prods@.len() == i,
            tests@.len() == i,
            forall|k: int|
                0 <= k < i ==> (#[trigger] prods@[k]).0@ == prod_source_of(
                    current_directory@,
                    project_type.0@[k]@,
                ),
            forall|k: int|
                0 <= k < i ==> (#[trigger] tests@[k]).0@ == test_source_of(
                    current_directory@,
                    project_type.0@[k]@,
                ),
        decreases n - i,
    {
        let module: &String = &project_type.0[i];
        let rel = remove_all_str(module.as_str(), current_directory);
        let prod = rel.clone().concat("/src/main/scala");
        let test = rel.concat("/src/test/scala");
        prods.push(ProdSource(prod));
        tests.push(TestSource(test));
        i = i + 1;
    }
    proof {
        assert(prods@.map_values(|s: ProdSource| s.0@) =~~= prod_sources_spec(
            current_directory@,
            module_views(*project_type),
        ));
        assert(tests@.map_values(|s: TestSource| s.0@) =~~= test_sources_spec(
            current_directory@,
            module_views(*project_type),
        ));
    }
    (prods, tests)
}

/// The paths of a descriptor's workspace folders.
pub open spec fn folder_paths(sp: SublimeProject) -> Seq<Seq<char>> {
    sp.folders@.map_values(|f: PathObject| f.path@)
}

/// The views of a descriptor's production source roots.
pub open spec fn production_src_views(sp: SublimeProject) -> Seq<Seq<char>> {
    sp.settings.scoggle.production_srcs@.map_values(|s: String| s@)
}

/// The views of a descriptor's test source roots.
pub open spec fn test_src_views(sp: SublimeProject) -> Seq<Seq<char>> {
    sp.settings.scoggle.test_srcs@.map_values(|s: String| s@)
}

/// The views of a descriptor's test-file suffix patterns.
pub open spec fn test_suffix_views(sp: SublimeProject) -> Seq<Seq<char>> {
    sp.settings.scoggle.test_suffixes@.map_values(|s: String| s@)
}

/// Everything the emitted document reads out of a descriptor.
pub open spec fn descriptor_view(sp: SublimeProject) -> (
    Seq<Seq<char>>,
    Seq<Seq<char>>,
    Seq<Seq<char>>,
    Seq<Seq<char>>,
) {
    (folder_paths(sp), production_src_views(sp), test_src_views(sp), test_suffix_views(sp))
}

/// The descriptor assembled from a working directory and a module list: the
/// sole workspace folder `"."`, the two source root lists in module order,
/// and the three fixed test-file suffixes.
pub open spec fn descriptor_matches(
    cd: Seq<char>,
    modules: Seq<Seq<char>>,
    sp: SublimeProject,
) -> bool {
    &&& folder_paths(sp) == seq!["."@]
    &&& production_src_views(sp) == prod_sources_spec(cd, modules)
    &&& test_src_views(sp) == test_sources_spec(cd, modules)
    &&& test_suffix_views(sp) == seq!["Spec.scala"@, "Suite.scala"@, "Test.scala"@]
}

/// The descriptor over the given source roots: one workspace folder `"."`,
/// the given roots in their order, the fixed test-file suffixes.
pub fn build_sublime_project(prod_sources: Vec<ProdSource>, test_sources: Vec<TestSource>) -> (r:
    SublimeProject)
    ensures
        folder_paths(r) == seq!["."@],
        production_src_views(r) == prod_sources@.map_values(|s: ProdSource| s.0@),
        test_src_views(r) == test_sources@.map_values(|s: TestSource| s.0@),
        test_suffix_views(r) == seq!["Spec.scala"@, "Suite.scala"@, "Test.scala"@],
{
    let mut production_srcs: Vec<String> = Vec::new();
    let np = prod_sources.len();
    let mut i: usize = 0;
    while i < np
        invariant
            0 <= i <= np,
            np == prod_sources@.len(),
            production_srcs@.len() == i,
            forall|k: int|
                0 <= k < i ==> (#[trigger] production_srcs@[k])@ == prod_sources@[k].0@,
        decreases np - i,
    {
        let src: &ProdSource = &prod_sources[i];
        production_srcs.push(src.0.clone());
        i = i + 1;
    }
    let mut test_srcs: Vec<String> = Vec::new();
    let nt = test_sources.len();
    let mut j: usize = 0;
    while j < nt
        invariant
            0 <= j <= nt,
            nt == test_sources@.len(),
            test_srcs@.len() == j,
            forall|k: int| 0 <= k < j ==> (#[trigger] test_srcs@[k])@ == test_sources@[k].0@,
        decreases nt - j,
    {
        let src: &TestSource = &test_sources[j];
        test_srcs.push(src.0.clone());
        j = j + 1;
    }
    let mut test_suffixes: Vec<String> = Vec::new();
    test_suffixes.push(String::from_str("Spec.scala"));
    test_suffixes.push(String::from_str("Suite.scala"));
    test_suffixes.push(String::from_str("Test.scala"));
    let mut folders: Vec<PathObject> = Vec::new();
    folders.push(PathObject { path: String::from_str(".") });
    let r = SublimeProject {
        folders,
        settings: SettingsObject {
            scoggle: ScoggleObject { production_srcs, test_srcs, test_suffixes },
        },
    };
    proof {
        assert(folder_paths(r) =~~= seq!["."@]);
        assert(production_src_views(r) =~~= prod_sources@.map_values(|s: ProdSource| s.0@));
        assert(test_src_views(r) =~~= test_sources@.map_values(|s: TestSource| s.0@));
        assert(test_suffix_views(r) =~~= seq!["Spec.scala"@, "Suite.scala"@, "Test.scala"@]);
    }
    r
}

/// Assembling keeps one production and one test source root per module, in
/// the module list's order, each derived from the module at the same index.
pub proof fn lemma_assembler_round_trip(cd: Seq<char>, modules: Seq<Seq<char>>)
    ensures
        prod_sources_spec(cd, modules).len() == modules.len(),
        test_sources_spec(cd, modules).len() == modules.len(),
        forall|i: int|
            0 <= i < modules.len() ==> #[trigger] prod_sources_spec(cd, modules)[i]
                == prod_source_of(cd, modules[i]) && #[trigger] test_sources_spec(cd, modules)[i]
                == test_source_of(cd, modules[i]),
{
}

/// The assembler has no hidden state: two descriptors assembled from the same
/// working directory and the same module list read back identically.
pub proof fn lemma_assembler_deterministic(
    cd: Seq<char>,
    modules: Seq<Seq<char>>,
    first: SublimeProject,
    second: SublimeProject,
)
    requires
        descriptor_matches(cd, modules, first),
        descriptor_matches(cd, modules, second),
    ensures
        descriptor_view(first) == descriptor_view(second),
{
}

} // verus!
