//! The basic vocabulary of the competition: the two challenge tracks, the
//! three week kinds, and the button interaction identifiers.

use vstd::prelude::*;

verus! {

/// Which challenge track a submission, prompt or week record belongs to.
#[derive(Copy, Clone, Debug, PartialEq, Eq, Structural)]
pub enum Challenge {
    Glyph,
    Ambigram,
}

/// The wire value of a challenge, as stored in the tables and carried in
/// interaction payloads.
pub open spec fn challenge_raw(c: Challenge) -> u8 {
    match c {
        Challenge::Glyph => 0,
        Challenge::Ambigram => 1,
    }
}

/// The fixed path at which the announcement image for a challenge is
/// generated.
pub open spec fn announcement_image_path_spec(c: Challenge) -> Seq<char> {
    match c {
        Challenge::Glyph => "./weekly_challenges/glyph_announcement.png"@,
        Challenge::Ambigram => "./weekly_challenges/ambigram_announcement.png"@,
    }
}

impl Challenge {
    pub fn raw(self) -> (r: u8)
        ensures
            r == challenge_raw(self),
    {
        match self {
            Challenge::Glyph => 0,
            Challenge::Ambigram => 1,
        }
    }

    /// Decode a stored challenge value; anything but the two known values
    /// is rejected.
    pub fn from_raw(i: i64) -> (r: Option<Challenge>)
        ensures
            r == (if i == 0 {
                Some(Challenge::Glyph)
            } else if i == 1 {
                Some(Challenge::Ambigram)
            } else {
                None::<Challenge>
            }),
    {
        if i == 0 {
            Some(Challenge::Glyph)
        } else if i == 1 {
            Some(Challenge::Ambigram)
        } else {
            None
        }
    }

    pub fn announcement_image_path(self) -> (r: String)
        ensures
            r@ == announcement_image_path_spec(self),
    {
        match self {
            Challenge::Glyph => "./weekly_challenges/glyph_announcement.png".to_owned(),
            Challenge::Ambigram => "./weekly_challenges/ambigram_announcement.png".to_owned(),
        }
    }
}

/// The kind of a week, controlling which rollout actions fire.
#[derive(Copy, Clone, Debug, PartialEq, Eq, Structural)]
pub enum Week {
    Regular,
    Special,
    Extended,
}

/// The wire value of a week kind, as stored in the week records.
pub open spec fn week_raw(w: Week) -> u8 {
    match w {
        Week::Regular => 0,
        Week::Special => 1,
        Week::Extended => 2,
    }
}

impl Week {
    pub fn raw(self) -> (r: u8)
        ensures
            r == week_raw(self),
    {
        match self {
            Week::Regular => 0,
            Week::Special => 1,
            Week::Extended => 2,
        }
    }

    /// Decode a stored week kind; anything but the three known values is
    /// rejected.
    pub fn from_raw(i: i64) -> (r: Option<Week>)
        ensures
            r == (if i == 0 {
                Some(Week::Regular)
            } else if i == 1 {
                Some(Week::Special)
            } else if i == 2 {
                Some(Week::Extended)
            } else {
                None::<Week>
            }),
    {
        if i == 0 {
            Some(Week::Regular)
        } else if i == 1 {
            Some(Week::Special)
        } else if i == 2 {
            Some(Week::Extended)
        } else {
            None
        }
    }
}

/// The identifier of a button interaction, carried as the first field of an
/// interaction payload.
#[derive(Copy, Clone, Debug, PartialEq, Eq, Structural)]
pub enum InteractionID {
    ConfirmAnnouncement,
    CancelAnnouncement,
}

/// The wire value of an interaction identifier.
pub open spec fn interaction_raw(i: InteractionID) -> u8 {
    match i {
        InteractionID::ConfirmAnnouncement => 0,
        InteractionID::CancelAnnouncement => 1,
    }
}

impl InteractionID {
    pub fn raw(self) -> (r: u8)
        ensures
            r == interaction_raw(self),
    {
        match self {
            InteractionID::ConfirmAnnouncement => 0,
            InteractionID::CancelAnnouncement => 1,
        }
    }

    /// Decode an interaction identifier; unknown values are rejected.
    pub fn from_raw(i: u64) -> (r: Option<InteractionID>)
        ensures
            r == (if i == 0 {
                Some(InteractionID::ConfirmAnnouncement)
            } else if i == 1 {
                Some(InteractionID::CancelAnnouncement)
            } else {
                None::<InteractionID>
            }),
    {
        if i == 0 {
            Some(InteractionID::ConfirmAnnouncement)
        } else if i == 1 {
            Some(InteractionID::CancelAnnouncement)
        } else {
            None
        }
    }
}

/// How an operation of the core can fail.
///
/// Validation covers malformed user input, Conflict a duplicate key where
/// one is forbidden, NotFound a lookup that required a row to exist, and
/// Storage an exhausted resource of the store itself.
#[derive(Copy, Clone, Debug, PartialEq, Eq, Structural)]
pub enum Error {
    Validation,
    Conflict,
    NotFound,
    Storage,
}

impl Error {
    /// A short human-readable description, for the collaborator layer to
    /// show to the invoking user.
    pub fn message(self) -> (r: &'static str)
        ensures
            r@ == (match self {
                Error::Validation => "invalid input"@,
                Error::Conflict => "already exists"@,
                Error::NotFound => "not found"@,
                Error::Storage => "storage fault"@,
            }),
    {
        match self {
            Error::Validation => "invalid input",
            Error::Conflict => "already exists",
            Error::NotFound => "not found",
            Error::Storage => "storage fault",
        }
    }
}

} // verus!
