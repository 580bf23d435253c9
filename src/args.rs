//! The settings that select channels and drive a run.
use vstd::prelude::*;
use crate::channel::ChannelKind;

verus! {

/// Paths, as the caller gives them.
#[verifier::external_type_specification]
#[verifier::external_body]
pub struct ExPathBuf(std::path::PathBuf);

/// Which kinds of channel take part in the edit.
#[derive(Debug, Clone, Copy)]
pub struct ChannelFilterArgs {
    /// Text channels.
    pub text: bool,
    /// Voice channels.
    pub voice: bool,
    /// Forum channels.
    pub forum: bool,
    /// Stage channels.
    pub stage: bool,
    /// News channels.
    pub news: bool,
    /// Categories.
    pub category: bool,
    /// Every kind of channel.
    pub all: bool,
}

impl Default for ChannelFilterArgs {
    fn default() -> (r: Self)
        ensures
            !r.text && !r.voice && !r.forum && !r.stage && !r.news && !r.category && !r.all,
    {
        ChannelFilterArgs {
            text: false,
            voice: false,
            forum: false,
            stage: false,
            news: false,
            category: false,
            all: false,
        }
    }
}

impl ChannelFilterArgs {
    /// Whether channels of `kind` take part.
    pub open spec fn lets_through(&self, kind: ChannelKind) -> bool {
        self.all || match kind {
            ChannelKind::Text => self.text,
            ChannelKind::Voice => self.voice,
            ChannelKind::Category => self.category,
            ChannelKind::News => self.news,
            ChannelKind::Forum => self.forum,
            ChannelKind::Stage => self.stage,
            ChannelKind::Other => false,
        }
    }

    /// Whether no kind at all was chosen.
    pub fn none(&self) -> (r: bool)
        ensures
            r == (!self.text && !self.voice && !self.forum && !self.stage && !self.news
                && !self.category && !self.all),
    {
        !self.text && !self.voice && !self.forum && !self.stage && !self.news && !self.category
            && !self.all
    }

    /// Whether channels of `kind` take part.
    pub fn admits(&self, kind: ChannelKind) -> (r: bool)
        ensures
            r == self.lets_through(kind),
    {
        if self.all {
            return true;
        }
        match kind {
            ChannelKind::Text => self.text,
            ChannelKind::Voice => self.voice,
            ChannelKind::Category => self.category,
            ChannelKind::News => self.news,
            ChannelKind::Forum => self.forum,
            ChannelKind::Stage => self.stage,
            ChannelKind::Other => false,
        }
    }
}

/// How to reach the guild: a bot token and a guild id, each optional here.
#[derive(Debug)]
pub struct ConnectionArgs {
    /// The bot token.
    pub token: Option<String>,
    /// The guild id.
    pub guild_id: Option<u64>,
}

/// How changes are confirmed.
#[derive(Debug, Clone, Copy)]
pub struct ApplyArgs {
    /// Apply without asking.
    pub yes: bool,
}

/// Where the document comes from and goes to.
#[derive(Debug)]
pub enum IOMode {
    /// Read an edited document from a file, or from standard input.
    Input(Option<std::path::PathBuf>),
    /// Write the document to a file, or to standard output.
    Output(Option<std::path::PathBuf>),
    /// Edit the document in the text editor.
    Editor,
}

} // verus!
