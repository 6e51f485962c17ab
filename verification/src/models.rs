//! The records of a chat export, as the library reads them: message files and group
//! descriptions of the export's `Groups` directory.

use vstd::prelude::*;

verus! {

/// The author of a message.
#[derive(Debug)]
pub struct GoogleCreator {
    pub name: String,
    pub email: Option<String>,
    pub user_type: String,
}

/// A file attached to a message: the name it was sent under and its name in the export.
#[derive(Debug)]
pub struct GoogleAttachment {
    pub original_name: String,
    pub export_name: String,
}

/// One message of a group.
#[derive(Debug)]
pub struct GoogleMessage {
    pub creator: GoogleCreator,
    pub created_date: String,
    pub text: Option<String>,
    pub topic_id: Option<String>,
    pub message_id: String,
    pub attached_files: Option<Vec<GoogleAttachment>>,
}

/// The content of a group's `messages.json`.
#[derive(Debug)]
pub struct GoogleMessagesFile {
    pub messages: Vec<GoogleMessage>,
}

/// A member listed in a group's `group_info.json`.
#[derive(Debug)]
pub struct GoogleMember {
    pub name: String,
    pub email: Option<String>,
    pub user_type: String,
}

/// The content of a group's `group_info.json`.
#[derive(Debug)]
pub struct GoogleGroupInfo {
    pub name: Option<String>,
    pub members: Vec<GoogleMember>,
}

/// The view of an optional string.
pub open spec fn opt_text(o: Option<String>) -> Option<Seq<char>> {
    match o {
        Some(s) => Some(s@),
        None => None,
    }
}

/// A copy of an optional string.
pub fn copy_opt(o: &Option<String>) -> (r: Option<String>)
    ensures
        opt_text(r) == opt_text(*o),
{
    match o {
        Some(s) => Some(s.clone()),
        None => None,
    }
}

impl GoogleAttachment {
    /// The attachment's two names, as text.
    pub open spec fn names(self) -> (Seq<char>, Seq<char>) {
        (self.original_name@, self.export_name@)
    }

    /// A copy of the attachment.
    pub fn copy(&self) -> (r: GoogleAttachment)
        ensures
            r.names() == self.names(),
    {
        GoogleAttachment {
            original_name: self.original_name.clone(),
            export_name: self.export_name.clone(),
        }
    }
}

} // verus!
