use ginger_releaser::references::{
    file_type, update_py, update_toml, FileType, OutputType,
};
use ginger_releaser::version::{Channel, Version};

fn beta() -> Version {
    Version { channel: Channel::Beta, major: 1, minor: 2, patch: 3, revision: 4 }
}

#[test]
fn file_types_follow_the_extension() {
    assert_eq!(file_type("src/__init__.py"), FileType::Py);
    assert_eq!(file_type("pyproject.toml"), FileType::Toml);
    assert_eq!(file_type("web/package.json"), FileType::Json);
    assert_eq!(file_type("dir.json/Makefile"), FileType::Unknown);
    assert_eq!(file_type(".py"), FileType::Unknown);
    assert_eq!(file_type("notes.txt"), FileType::Unknown);
    assert_eq!(file_type("archive.tar.py"), FileType::Py);
}

#[test]
fn python_assignment_becomes_tuple() {
    let mut contents = String::from("VERSION = (0, 0, 1, \"nightly\", 0)\nOTHER = 1\n");
    let r = update_py(&mut contents, &beta(), &"VERSION".to_string(), &OutputType::Tuple);
    let expected = "VERSION = (1, 2, 3, \"beta\", 4)\nOTHER = 1\n";
    assert_eq!(r, Ok(expected.to_string()));
    assert_eq!(contents, expected);
}

#[test]
fn python_assignment_becomes_string() {
    let mut contents = String::from("x = 1\n__version__ = '0.1'\n");
    let r = update_py(&mut contents, &beta(), &"__version__".to_string(), &OutputType::String);
    assert_eq!(r, Ok("x = 1\n__version__ = \"1.2.3-beta.4\"\n".to_string()));
}

#[test]
fn variable_name_is_matched_literally() {
    let mut contents = String::from("axb = 1\na.b = 2\n");
    let r = update_py(&mut contents, &beta(), &"a.b".to_string(), &OutputType::String);
    assert_eq!(r, Ok("axb = 1\na.b = \"1.2.3-beta.4\"\n".to_string()));
}

#[test]
fn toml_string_assignment_is_rewritten() {
    let mut contents = String::from("[package]\nversion = \"0.0.1\"\nedition = \"2021\"\n");
    let v = Version { channel: Channel::Final, major: 3, minor: 0, patch: 0, revision: 0 };
    let r = update_toml(&mut contents, &v, &"version".to_string());
    assert_eq!(r, Ok("[package]\nversion = \"3.0.0\"\nedition = \"2021\"\n".to_string()));
}

#[test]
fn toml_non_string_assignment_is_left_alone() {
    let mut contents = String::from("version = 3\n");
    let r = update_toml(&mut contents, &beta(), &"version".to_string());
    assert_eq!(r, Ok("version = 3\n".to_string()));
}
