use scoggle_gen::{get_project_name, sublime_project_file_name, ProjectName};

#[test]
fn a_known_directory_name_is_used_as_is() {
    let name = get_project_name(&ProjectName::ProjectDir("myproj".to_string()));
    assert_eq!(name, "myproj");
}

#[test]
fn the_fallback_name_is_the_prefix_and_a_fresh_identifier() {
    let name = get_project_name(&ProjectName::Random());
    assert_eq!(name.chars().count(), 48);
    assert!(name.starts_with("scoggle-gen-"));
    let identifier: Vec<char> = name.chars().skip(12).collect();
    for (i, c) in identifier.iter().enumerate() {
        if i == 8 || i == 13 || i == 18 || i == 23 {
            assert_eq!(*c, '-');
        } else {
            assert!(c.is_ascii_hexdigit() && !c.is_ascii_uppercase());
        }
    }
}

#[test]
fn the_output_file_carries_the_fixed_extension() {
    assert_eq!(
        sublime_project_file_name("myproj"),
        "myproj.sublime-project"
    );
    assert_eq!(sublime_project_file_name(""), ".sublime-project");
}
