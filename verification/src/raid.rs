//! The data model: one sighting (a raid tweet plus an optional boss image)
//! and the derived, per-identifier boss summary.
//!
//! Timestamps are plain integers (seconds since the Unix epoch): the
//! embedding layer converts its calendar type at the boundary. Likewise the
//! boss level is parsed out of the identifier by an external collaborator and
//! handed in as a plain optional number.

use vstd::prelude::*;

verus! {

/// Seconds since the Unix epoch, as the embedding layer's calendar type
/// reports them.
pub type DateTime = i64;

/// Numeric level parsed from a boss identifier; 0 is the sentinel for "could
/// not be parsed".
pub type BossLevel = u32;

pub type BossName = String;

pub type BossImageUrl = String;

/// The level a new boss entry gets when the identifier parser found none.
pub const DEFAULT_BOSS_LEVEL: BossLevel = 0;

/// Detected language of a sighting's text (a closed set).
#[derive(Clone, Copy, Debug, PartialEq, Eq, Structural)]
pub enum Language {
    English,
    Japanese,
}

/// One observed sighting: the tweet that reported a boss. Immutable once
/// constructed.
#[derive(Clone, Debug, PartialEq)]
pub struct RaidTweet {
    pub boss_name: BossName,
    pub user: String,
    pub user_image: Option<String>,
    pub text: Option<String>,
    pub created_at: DateTime,
    pub language: Language,
}

/// Mathematical value of a `RaidTweet`: every string taken as its character
/// sequence.
#[verifier::ext_equal]
pub ghost struct TweetView {
    pub boss_name: Seq<char>,
    pub user: Seq<char>,
    pub user_image: Option<Seq<char>>,
    pub text: Option<Seq<char>>,
    pub created_at: DateTime,
    pub language: Language,
}

impl DeepView for RaidTweet {
    type V = TweetView;

    open spec fn deep_view(&self) -> TweetView {
        TweetView {
            boss_name: self.boss_name.deep_view(),
            user: self.user.deep_view(),
            user_image: self.user_image.deep_view(),
            text: self.text.deep_view(),
            created_at: self.created_at,
            language: self.language,
        }
    }
}

/// A sighting as the upstream collaborator delivers it: the tweet, plus the
/// image attached to it, if any.
#[derive(Clone, Debug, PartialEq)]
pub struct RaidInfo {
    pub tweet: RaidTweet,
    pub image: Option<BossImageUrl>,
}

/// Mathematical value of a `RaidInfo`.
#[verifier::ext_equal]
pub ghost struct InfoView {
    pub tweet: TweetView,
    pub image: Option<Seq<char>>,
}

impl DeepView for RaidInfo {
    type V = InfoView;

    open spec fn deep_view(&self) -> InfoView {
        InfoView { tweet: self.tweet.deep_view(), image: self.image.deep_view() }
    }
}

/// What the parsing collaborator extracts from one upstream message, borrowed
/// from the message's text.
#[derive(Debug, PartialEq)]
pub struct Raid<'a> {
    pub id: &'a str,
    pub user: &'a str,
    pub user_image: Option<&'a str>,
    pub boss: &'a str,
    pub text: Option<&'a str>,
    pub timestamp: DateTime,
}

/// A parsed raid together with the image attached to its message, if any.
#[derive(Debug, PartialEq)]
pub struct RaidWithBossImage<'a> {
    pub raid: Raid<'a>,
    pub image: Option<&'a str>,
}

/// The derived summary of all sightings sharing one boss identifier.
#[derive(Debug, PartialEq)]
pub struct RaidBoss {
    pub name: BossName,
    pub level: BossLevel,
    pub image: Option<BossImageUrl>,
    pub language: Language,
}

/// Mathematical value of a `RaidBoss`.
#[verifier::ext_equal]
pub ghost struct BossView {
    pub name: Seq<char>,
    pub level: BossLevel,
    pub image: Option<Seq<char>>,
    pub language: Language,
}

impl DeepView for RaidBoss {
    type V = BossView;

    open spec fn deep_view(&self) -> BossView {
        BossView {
            name: self.name.deep_view(),
            level: self.level,
            image: self.image.deep_view(),
            language: self.language,
        }
    }
}

impl Clone for RaidBoss {
    fn clone(&self) -> (r: Self)
        ensures
            r.deep_view() == self.deep_view(),
    {
        RaidBoss {
            name: self.name.clone(),
            level: self.level,
            image: match &self.image {
                Some(url) => Some(url.clone()),
                None => None,
            },
            language: self.language,
        }
    }
}

} // verus!
