use ginger_releaser::bump::{bump_channel, bump_version, BumpError, BumpType};
use ginger_releaser::version::{Channel, Version};

fn v(channel: Channel, major: u32, minor: u32, patch: u32, revision: u32) -> Version {
    Version { channel, major, minor, patch, revision }
}

#[test]
fn major_bump_resets_lower_counters_and_keeps_channel() {
    let mut x = v(Channel::Alpha, 1, 2, 3, 4);
    assert_eq!(bump_version(BumpType::Major, &mut x), Ok(()));
    assert_eq!(x, v(Channel::Alpha, 2, 0, 0, 0));
}

#[test]
fn minor_bump_resets_patch_and_revision() {
    let mut x = v(Channel::Final, 1, 2, 3, 0);
    assert_eq!(bump_version(BumpType::Minor, &mut x), Ok(()));
    assert_eq!(x, v(Channel::Final, 1, 3, 0, 0));
}

#[test]
fn patch_bump_resets_revision() {
    let mut x = v(Channel::Beta, 1, 2, 3, 4);
    assert_eq!(bump_version(BumpType::Patch, &mut x), Ok(()));
    assert_eq!(x, v(Channel::Beta, 1, 2, 4, 0));
}

#[test]
fn revision_bump_on_prerelease() {
    let mut x = v(Channel::Nightly, 1, 2, 3, 4);
    assert_eq!(bump_version(BumpType::Revision, &mut x), Ok(()));
    assert_eq!(x, v(Channel::Nightly, 1, 2, 3, 5));
}

#[test]
fn revision_bump_on_final_is_locked() {
    let mut x = v(Channel::Final, 1, 2, 3, 0);
    assert_eq!(bump_version(BumpType::Revision, &mut x), Err(BumpError::ChannelLocked));
    assert_eq!(x, v(Channel::Final, 1, 2, 3, 0));
}

#[test]
fn channel_advance_on_final_is_locked() {
    let mut x = v(Channel::Final, 3, 1, 0, 0);
    assert_eq!(bump_channel(&mut x), Err(BumpError::ChannelLocked));
    assert_eq!(x, v(Channel::Final, 3, 1, 0, 0));
}

#[test]
fn channel_advances_three_times_to_final() {
    let mut x = v(Channel::Nightly, 1, 2, 3, 0);
    assert_eq!(bump_channel(&mut x), Ok(()));
    assert_eq!(x, v(Channel::Alpha, 1, 2, 3, 0));
    assert_eq!(bump_channel(&mut x), Ok(()));
    assert_eq!(x, v(Channel::Beta, 1, 2, 3, 0));
    assert_eq!(bump_channel(&mut x), Ok(()));
    assert_eq!(x, v(Channel::Final, 2, 0, 0, 0));
}

#[test]
fn channel_advance_keeps_numbers_before_final() {
    let mut x = v(Channel::Alpha, 4, 5, 6, 7);
    assert_eq!(bump_channel(&mut x), Ok(()));
    assert_eq!(x, v(Channel::Beta, 4, 5, 6, 7));
}
