//! Badges: structured blocks lifted out of a message's text.

use vstd::prelude::*;

use crate::text::opt_text;

verus! {

#[derive(Debug, Clone, Copy, PartialEq, Eq, Structural)]
pub enum BadgeIcon {
    ChatRoundLine,
}

#[derive(Debug, Clone, PartialEq, Eq)]
pub struct BadgeDetail {
    pub location: String,
    pub tag: Option<String>,
    pub body: String,
}

#[derive(Debug, Clone, PartialEq, Eq)]
pub struct MessageBadge {
    pub icon: BadgeIcon,
    pub label: String,
    pub details: Vec<BadgeDetail>,
}

/// What a [`BadgeDetail`] says.
#[verifier::ext_equal]
pub struct Detail {
    pub location: Seq<char>,
    pub tag: Option<Seq<char>>,
    pub body: Seq<char>,
}

impl View for BadgeDetail {
    type V = Detail;

    open spec fn view(&self) -> Detail {
        Detail { location: self.location@, tag: opt_text(self.tag), body: self.body@ }
    }
}

/// What a list of badge details says.
pub open spec fn details_view(v: Seq<BadgeDetail>) -> Seq<Detail> {
    v.map_values(|d: BadgeDetail| d@)
}

} // verus!
