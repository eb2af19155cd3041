//! Verified core of the NorthMail email client: folder classification,
//! message metadata, IMAP response parsing, outgoing-message assembly and
//! the text logic behind the mail views.
use vstd::prelude::*;

pub mod bodystructure;
pub mod compose;
pub mod compose_session;
pub mod context_menu;
pub mod dates;
pub mod dragdrop;
pub mod error;
pub mod folder;
pub mod html_text;
pub mod imap_commands;
pub mod imap_envelope;
pub mod imap_fetch;
pub mod imap_list;
pub mod imap_response;
pub mod links;
pub mod listing;
pub mod main_window;
pub mod message;
pub mod oauth2;
pub mod outgoing;
pub mod recipients;
pub mod sidebar;
pub mod smtp;
pub mod text;

verus! {

} // verus!
