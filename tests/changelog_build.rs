use ginger_releaser::changelog::{
    build_changelog, format_entry, group_commit_entries, render_changelog, sort_tags, tag_ranges,
    unreleased_range, Commit, CommitRange, Tag, TagCommits,
};
use ginger_releaser::text::first_word_of;
use ginger_releaser::version::{Channel, Version};

const URL: &str = "https://git.example/repo/commit/";

fn tag(name: &str, commit_id: &str, timestamp: i64) -> Tag {
    Tag { name: name.to_string(), commit_id: commit_id.to_string(), timestamp }
}

fn commit(id: &str, author: &str, message: &str) -> Commit {
    Commit { id: id.to_string(), author: author.to_string(), message: message.to_string() }
}

fn next_version() -> Version {
    Version { channel: Channel::Final, major: 0, minor: 3, patch: 0, revision: 0 }
}

fn two_tag_history() -> (Vec<TagCommits>, Vec<Commit>) {
    let sorted = sort_tags(vec![
        tag("v0.1.0", "bbbbbbbbbbbb", 86_400),
        tag("v0.2.0", "dddddddddddd", 172_800),
    ]);
    let a = commit("aaaaaaaaaaaa", "Ann", "feat: first");
    let b = commit("bbbbbbbbbbbb", "Bob", "fix: second");
    let c = commit("cccccccccccc", "Cat", "feat: third");
    let d = commit("dddddddddddd", "Dan", "feat: fourth");
    let e = commit("eeeeeeeeeeee", "Eve", "chore: fifth");
    let tags = vec![
        TagCommits { tag: sorted[0].clone(), commits: vec![d, c] },
        TagCommits { tag: sorted[1].clone(), commits: vec![b, a] },
    ];
    (tags, vec![e])
}

#[test]
fn tags_are_sorted_by_version_not_by_input_order() {
    let sorted = sort_tags(vec![
        tag("v0.1.0", "b", 300),
        tag("1.0.0-beta.2", "x", 100),
        tag("v0.2.0", "d", 200),
        tag("1.0.0", "y", 50),
        tag("1.0.0-beta.10", "z", 10),
    ]);
    let names: Vec<&str> = sorted.iter().map(|t| t.name.as_str()).collect();
    assert_eq!(names, vec!["1.0.0-beta.10", "1.0.0-beta.2", "1.0.0", "v0.2.0", "v0.1.0"]);
}

#[test]
fn tags_of_equal_rank_keep_their_order() {
    let sorted = sort_tags(vec![tag("1.0.0", "a", 1), tag("v2.0.0", "b", 2), tag("01.0.0", "c", 3)]);
    let names: Vec<&str> = sorted.iter().map(|t| t.name.as_str()).collect();
    assert_eq!(names, vec!["1.0.0", "01.0.0", "v2.0.0"]);
}

#[test]
fn ranges_stop_at_the_next_lower_tag() {
    let sorted = sort_tags(vec![tag("v0.1.0", "B", 1), tag("v0.2.0", "D", 2)]);
    let ranges = tag_ranges(&sorted);
    assert_eq!(
        ranges,
        vec![
            CommitRange { head: "D".to_string(), base: Some("B".to_string()) },
            CommitRange { head: "B".to_string(), base: None },
        ]
    );
    assert_eq!(
        unreleased_range(&sorted, "E"),
        CommitRange { head: "E".to_string(), base: Some("D".to_string()) }
    );
    assert_eq!(unreleased_range(&vec![], "E"), CommitRange { head: "E".to_string(), base: None });
}

#[test]
fn commits_are_grouped_per_release_newest_first() {
    let (tags, unreleased) = two_tag_history();
    let log = build_changelog(&next_version(), 0, URL, &tags, &unreleased);
    let text = render_changelog(&log);
    let expected = [
        "## 0.3.0 - 1970-01-01\n",
        "chore:\n",
        " - [eeeeeeeeee](https://git.example/repo/commit/eeeeeeeeeeee) (Eve) chore: fifth\n",
        "## v0.2.0 - 1970-01-03\n",
        "feat:\n",
        " - [dddddddddd](https://git.example/repo/commit/dddddddddddd) (Dan) feat: fourth\n",
        " - [cccccccccc](https://git.example/repo/commit/cccccccccccc) (Cat) feat: third\n",
        "## v0.1.0 - 1970-01-02\n",
        "fix:\n",
        " - [bbbbbbbbbb](https://git.example/repo/commit/bbbbbbbbbbbb) (Bob) fix: second\n",
        "feat:\n",
        " - [aaaaaaaaaa](https://git.example/repo/commit/aaaaaaaaaaaa) (Ann) feat: first\n",
    ]
    .concat();
    assert_eq!(text, expected);
    let v2 = text.find("## v0.2.0").unwrap();
    let v1 = text.find("## v0.1.0").unwrap();
    assert!(v2 < v1);
}

#[test]
fn no_release_in_progress_without_new_commits() {
    let (tags, _) = two_tag_history();
    let log = build_changelog(&next_version(), 0, URL, &tags, &vec![]);
    assert_eq!(log.releases.len(), 2);
    assert_eq!(log.releases[0].key, "v0.2.0");
}

#[test]
fn fix_message_gives_fix_section_and_bullet() {
    let c = commit("0123456789abcdef", "Ada", "fix: correct overflow");
    assert_eq!(first_word_of(&c.message), "fix:");
    let entry = format_entry(URL, &c);
    assert_eq!(
        entry,
        " - [0123456789](https://git.example/repo/commit/0123456789abcdef) (Ada) fix: correct overflow\n"
    );
    assert!(entry.contains("0123456789"));
    assert!(!entry.contains("0123456789a]"));
    assert!(entry.contains("Ada"));
    let sections = group_commit_entries(URL, &vec![c]);
    assert_eq!(sections.len(), 1);
    assert_eq!(sections[0].key, "fix:");
    assert_eq!(sections[0].entries, vec![entry]);
}

#[test]
fn short_commit_id_is_kept_whole() {
    let entry = format_entry("u/", &commit("abc", "Al", "x"));
    assert_eq!(entry, " - [abc](u/abc) (Al) x\n");
}

#[test]
fn multiline_messages_are_indented() {
    let entry = format_entry("u/", &commit("abc", "Al", "feat: a\nbody\n"));
    assert_eq!(entry, " - [abc](u/abc) (Al) feat: a\n\tbody\n\t\n");
}

#[test]
fn section_key_is_first_word_after_white_space() {
    assert_eq!(first_word_of("  \tfeat:\tadd"), "feat:");
    assert_eq!(first_word_of("docs"), "docs");
    assert_eq!(first_word_of(" \n "), "");
    assert_eq!(first_word_of(""), "");
    assert_eq!(first_word_of("\u{3000}fix:\u{a0}x"), "fix:");
}

#[test]
fn sections_keep_insertion_order() {
    let commits = vec![
        commit("1111111111", "A", "feat: one"),
        commit("2222222222", "B", "fix: two"),
        commit("3333333333", "C", "feat: three"),
        commit("4444444444", "D", ""),
    ];
    let sections = group_commit_entries("", &commits);
    let keys: Vec<&str> = sections.iter().map(|s| s.key.as_str()).collect();
    assert_eq!(keys, vec!["feat:", "fix:", ""]);
    assert_eq!(sections[0].entries.len(), 2);
    assert!(sections[0].entries[1].contains("feat: three"));
}

#[test]
fn generating_twice_gives_identical_text() {
    let (tags, unreleased) = two_tag_history();
    let first = render_changelog(&build_changelog(&next_version(), 1_700_000_000, URL, &tags, &unreleased));
    let (tags, unreleased) = two_tag_history();
    let second = render_changelog(&build_changelog(&next_version(), 1_700_000_000, URL, &tags, &unreleased));
    assert_eq!(first, second);
    assert!(first.starts_with("## 0.3.0 - 2023-11-14\n"));
}

#[test]
fn tag_dates_come_from_commit_time() {
    let tags = vec![TagCommits { tag: tag("1.0.0", "c", 951_782_400), commits: vec![] }];
    let log = build_changelog(&next_version(), 0, URL, &tags, &vec![]);
    assert_eq!(render_changelog(&log), "## 1.0.0 - 2000-02-29\n");
}

fn names_in_release_order(tags: Vec<Tag>) -> Vec<String> {
    sort_tags(tags).into_iter().map(|t| t.name).collect()
}

#[test]
fn prerelease_channels_rank_above_final_of_same_numbers() {
    let names = names_in_release_order(vec![
        tag("1.0.0", "a", 1),
        tag("1.0.0-nightly.0", "b", 2),
        tag("1.0.0-beta.2", "c", 3),
    ]);
    assert_eq!(names, vec!["1.0.0-beta.2", "1.0.0-nightly.0", "1.0.0"]);
}

#[test]
fn release_order_ignores_listing_order_and_dates() {
    let listed = [
        ("1.9.9", 500),
        ("1.10.0", 100),
        ("1.2.3", 600),
        ("1.2.3-alpha.7", 50),
        ("1.2.3-beta.1", 900),
        ("1.2.3-nightly.0", 10),
    ];
    let expected =
        vec!["1.10.0", "1.9.9", "1.2.3-beta.1", "1.2.3-alpha.7", "1.2.3-nightly.0", "1.2.3"];
    let forward: Vec<Tag> = listed.iter().map(|(n, t)| tag(n, n, *t)).collect();
    let backward: Vec<Tag> = listed.iter().rev().map(|(n, t)| tag(n, n, 1_000 - *t)).collect();
    assert_eq!(names_in_release_order(forward), expected);
    assert_eq!(names_in_release_order(backward), expected);
}
