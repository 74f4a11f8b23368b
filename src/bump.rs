//! The bump operations that advance a version, and the channel state
//! machine `Nightly -> Alpha -> Beta -> Final`.

use vstd::prelude::*;

use crate::version::{is_canonical, Channel, Version};

verus! {

/// A numeric bump. Each one leaves the channel as it is.
#[derive(Clone, Copy, Debug, PartialEq, Eq, Structural)]
pub enum BumpType {
    Major,
    Minor,
    Patch,
    Revision,
}

/// Why a bump was refused.
#[derive(Clone, Copy, Debug, PartialEq, Eq, Structural)]
pub enum BumpError {
    /// The version is `Final`: neither its revision nor its channel can be
    /// advanced; a major, minor or patch bump is needed instead.
    ChannelLocked,
}

/// Whether the bump is refused: a revision bump on a `Final` version.
pub open spec fn bump_locked(v: Version, t: BumpType) -> bool {
    t == BumpType::Revision && v.channel == Channel::Final
}

/// Whether the counter that the bump increments is below its maximum.
pub open spec fn bump_fits(v: Version, t: BumpType) -> bool {
    match t {
        BumpType::Major => v.major < u32::MAX,
        BumpType::Minor => v.minor < u32::MAX,
        BumpType::Patch => v.patch < u32::MAX,
        BumpType::Revision => v.revision < u32::MAX,
    }
}

/// The version after an accepted numeric bump: the bumped counter goes up
/// by one and every lower counter goes back to 0.
pub open spec fn bumped(v: Version, t: BumpType) -> Version {
    match t {
        BumpType::Major => Version {
            major: (v.major + 1) as u32,
            minor: 0,
            patch: 0,
            revision: 0,
            ..v
        },
        BumpType::Minor => Version { minor: (v.minor + 1) as u32, patch: 0, revision: 0, ..v },
        BumpType::Patch => Version { patch: (v.patch + 1) as u32, revision: 0, ..v },
        BumpType::Revision => Version { revision: (v.revision + 1) as u32, ..v },
    }
}

/// Whether the channel advance fits: crossing from `Beta` into `Final`
/// increments the major number.
pub open spec fn advance_fits(v: Version) -> bool {
    v.channel == Channel::Beta ==> v.major < u32::MAX
}

/// The version after advancing a non-`Final` channel. `Beta -> Final` also
/// mints a new release number: major goes up by one, the rest to 0.
pub open spec fn advanced(v: Version) -> Version {
    match v.channel {
        Channel::Nightly => Version { channel: Channel::Alpha, ..v },
        Channel::Alpha => Version { channel: Channel::Beta, ..v },
        _ => Version {
            channel: Channel::Final,
            major: (v.major + 1) as u32,
            minor: 0,
            patch: 0,
            revision: 0,
        },
    }
}

/// Applies a numeric bump to `version`. A revision bump on a `Final`
/// version fails with `ChannelLocked` and leaves the version unchanged.
pub fn bump_version(bump_type: BumpType, version: &mut Version) -> (r: Result<(), BumpError>)
    requires
        !bump_locked(*old(version), bump_type) ==> bump_fits(*old(version), bump_type),
    ensures
        bump_locked(*old(version), bump_type) ==> r == Err::<(), BumpError>(BumpError::ChannelLocked)
            && *final(version) == *old(version),
        !bump_locked(*old(version), bump_type) ==> r == Ok::<(), BumpError>(()) && *final(version)
            == bumped(*old(version), bump_type),
{
    match bump_type {
        BumpType::Major => {
            version.major = version.major + 1;
            version.minor = 0;
            version.patch = 0;
            version.revision = 0;
        },
        BumpType::Minor => {
            version.minor = version.minor + 1;
            version.patch = 0;
            version.revision = 0;
        },
        BumpType::Patch => {
            version.patch = version.patch + 1;
            version.revision = 0;
        },
        BumpType::Revision => {
            if version.channel == Channel::Final {
                return Err(BumpError::ChannelLocked);
            }
            version.revision = version.revision + 1;
        },
    }
    Ok(())
}

/// Advances the channel of `version`: `Nightly -> Alpha -> Beta -> Final`.
/// A `Final` version fails with `ChannelLocked` and stays unchanged.
pub fn bump_channel(version: &mut Version) -> (r: Result<(), BumpError>)
    requires
        advance_fits(*old(version)),
    ensures
        old(version).channel == Channel::Final ==> r == Err::<(), BumpError>(
            BumpError::ChannelLocked,
        ) && *final(version) == *old(version),
        old(version).channel != Channel::Final ==> r == Ok::<(), BumpError>(()) && *final(version)
            == advanced(*old(version)),
{
    match version.channel {
        Channel::Nightly => {
            version.channel = Channel::Alpha;
        },
        Channel::Alpha => {
            version.channel = Channel::Beta;
        },
        Channel::Beta => {
            version.channel = Channel::Final;
            version.major = version.major + 1;
            version.minor = 0;
            version.patch = 0;
            version.revision = 0;
        },
        Channel::Final => {
            return Err(BumpError::ChannelLocked);
        },
    }
    Ok(())
}

/// Numeric bumps never change the channel, and a channel advance never
/// changes major, minor or patch, except `Beta -> Final`, which increments
/// major and sets minor, patch and revision to 0.
pub proof fn lemma_bumps_are_orthogonal(v: Version, t: BumpType)
    ensures
        bumped(v, t).channel == v.channel,
        v.channel == Channel::Nightly || v.channel == Channel::Alpha ==> advanced(v).major
            == v.major && advanced(v).minor == v.minor && advanced(v).patch == v.patch,
        v.channel == Channel::Beta && advance_fits(v) ==> advanced(v).major == v.major + 1
            && advanced(v).minor == 0 && advanced(v).patch == 0 && advanced(v).revision == 0,
{
}

/// Accepted bumps keep a version canonical: a `Final` version never gains
/// a revision.
pub proof fn lemma_bumps_keep_canonical(v: Version, t: BumpType)
    requires
        is_canonical(v),
    ensures
        !bump_locked(v, t) ==> is_canonical(bumped(v, t)),
        v.channel != Channel::Final ==> is_canonical(advanced(v)),
{
}

} // verus!
