use ginger_releaser::release::{release_commit_message, summarize_description};
use ginger_releaser::version::{Channel, Version};

#[test]
fn commit_message_names_the_version() {
    let v = Version { channel: Channel::Beta, major: 1, minor: 2, patch: 0, revision: 3 };
    assert_eq!(release_commit_message(&v, "notes"), "chore: version bump to 1.2.0-beta.3\n\n notes");
    let f = Version { channel: Channel::Final, major: 2, minor: 0, patch: 0, revision: 0 };
    assert_eq!(release_commit_message(&f, ""), "chore: version bump to 2.0.0\n\n ");
}

#[test]
fn empty_description_is_skipped() {
    assert_eq!(summarize_description(""), "<skipped>");
}

#[test]
fn short_description_is_echoed_whole() {
    assert_eq!(summarize_description("short"), "short");
    assert_eq!(summarize_description("exactly twenty chars"), "exactly twenty chars");
}

#[test]
fn long_description_is_cut_to_seventeen_characters() {
    assert_eq!(summarize_description("exactly twenty-one ch"), "exactly twenty-on...");
    assert_eq!(summarize_description("ééééééééééééééééééééé"), "ééééééééééééééééé...");
}
