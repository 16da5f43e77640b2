//! The state of a connection.

use imap_codec::fragmentizer::Fragmentizer;
use imap_codec::imap_types;
use imap_codec::imap_types::flag::{Flag, FlagPerm};
use imap_codec::imap_types::mailbox::Mailbox;
use imap_codec::imap_types::response::Capability;
use vstd::prelude::*;

use crate::command::{generate_tag, is_tag_text, new_tag_generator, tag_text};
use crate::framing::{framing, new_fragmentizer, Framing};

verus! {

/// How large a message of the server may be, in bytes: 50 MiB.
pub const MAX_MESSAGE_SIZE: u32 = 52_428_800;

/// The mailbox that is open, if any.
#[derive(Debug)]
pub enum ImapCurrentMailboxState {
    NotSelected,
    Selected(Mailbox<'static>),
    SelectedReadOnly(Mailbox<'static>),
}

impl Default for ImapCurrentMailboxState {
    fn default() -> (state: Self)
        ensures
            state is NotSelected,
    {
        ImapCurrentMailboxState::NotSelected
    }
}

/// What is known of a connection.
#[derive(Debug)]
pub struct ImapContext {
    pub tag_generator: imap_types::core::TagGenerator,
    pub fragmentizer: Fragmentizer,
    pub capability: Vec<Capability<'static>>,
    pub authenticated: bool,
    pub mailbox: ImapCurrentMailboxState,
    pub flags: Vec<Flag<'static>>,
    pub permanent_flags: Vec<FlagPerm<'static>>,
}

impl ImapContext {
    /// A connection on which nothing was exchanged yet.
    pub open spec fn is_fresh(self) -> bool {
        &&& framing(self.fragmentizer) == Framing::empty(MAX_MESSAGE_SIZE)
        &&& self.capability@.len() == 0
        &&& !self.authenticated
        &&& self.mailbox is NotSelected
        &&& self.flags@.len() == 0
        &&& self.permanent_flags@.len() == 0
    }

    /// A connection on which nothing was exchanged yet.
    pub fn new() -> (context: Self)
        ensures
            context.is_fresh(),
            !context.authenticated,
            context.mailbox is NotSelected,
            context.capability@.len() == 0,
            context.flags@.len() == 0,
            context.permanent_flags@.len() == 0,
            framing(context.fragmentizer).unparsed.len() == 0,
            framing(context.fragmentizer).message.len() == 0,
            framing(context.fragmentizer).limit == Some(52_428_800u32),
    {
        ImapContext {
            tag_generator: new_tag_generator(),
            fragmentizer: new_fragmentizer(MAX_MESSAGE_SIZE),
            capability: Vec::new(),
            authenticated: false,
            mailbox: ImapCurrentMailboxState::NotSelected,
            flags: Vec::new(),
            permanent_flags: Vec::new(),
        }
    }

    /// A tag for the next command. Nothing but the tag generator changes.
    pub fn generate_tag(&mut self) -> (tag: imap_types::core::Tag<'static>)
        ensures
            is_tag_text(tag_text(tag)),
            *final(self) == (ImapContext {
                tag_generator: final(self).tag_generator,
                ..*old(self)
            }),
    {
        generate_tag(&mut self.tag_generator)
    }
}

impl Default for ImapContext {
    fn default() -> (context: Self)
        ensures
            context.is_fresh(),
    {
        Self::new()
    }
}

} // verus!
