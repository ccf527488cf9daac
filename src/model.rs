use vstd::prelude::*;
use crate::error::MessagingError;
use crate::principal::{principal_views, Principal};

verus! {

/// The kind of a message.
#[derive(Clone, Copy, Debug, PartialEq, Eq, Structural)]
pub enum MessageType {
    Text,
    Image,
    File,
    Audio,
    Video,
    System,
}

/// The kind of a conversation.
#[derive(Clone, Copy, Debug, PartialEq, Eq, Structural)]
pub enum ConversationType {
    DirectMessage,
    GroupChat,
    SessionChat,
}

/// The kind of a registered public key.
#[derive(Clone, Copy, Debug, PartialEq, Eq, Structural)]
pub enum KeyType {
    RSA2048,
    ECDSA,
    Ed25519,
}

/// What an encryption key protects.
#[derive(Clone, Copy, Debug, PartialEq, Eq, Structural)]
pub enum EncryptionPurpose {
    MessageContent,
    Attachment,
    MedicalRecord,
    SessionData,
}

/// The text of an optional string.
pub open spec fn opt_text(o: Option<String>) -> Option<Seq<char>> {
    match o {
        Some(s) => Some(s@),
        None => None,
    }
}

fn copy_opt_text(o: &Option<String>) -> (r: Option<String>)
    ensures
        opt_text(r) == opt_text(*o),
{
    match o {
        Some(s) => Some(s.clone()),
        None => None,
    }
}

/// A file attached to a message; `encrypted_data` holds its stored form.
#[derive(Debug)]
pub struct Attachment {
    pub id: String,
    pub filename: String,
    pub content_type: String,
    pub size: u64,
    pub encrypted_data: String,
}

/// The contents of an attachment.
pub struct AttachmentView {
    pub id: Seq<char>,
    pub filename: Seq<char>,
    pub content_type: Seq<char>,
    pub size: u64,
    pub encrypted_data: Seq<char>,
}

impl View for Attachment {
    type V = AttachmentView;

    open spec fn view(&self) -> AttachmentView {
        AttachmentView {
            id: self.id@,
            filename: self.filename@,
            content_type: self.content_type@,
            size: self.size,
            encrypted_data: self.encrypted_data@,
        }
    }
}

/// The contents of each attachment, in order.
pub open spec fn attachment_views(s: Seq<Attachment>) -> Seq<AttachmentView> {
    s.map_values(|a: Attachment| a@)
}

impl Attachment {
    /// A copy of this attachment.
    pub fn duplicate(&self) -> (r: Attachment)
        ensures
            r@ == self@,
    {
        Attachment {
            id: self.id.clone(),
            filename: self.filename.clone(),
            content_type: self.content_type.clone(),
            size: self.size,
            encrypted_data: self.encrypted_data.clone(),
        }
    }
}

/// Copies a list of attachments.
pub fn duplicate_attachments(s: &Vec<Attachment>) -> (r: Vec<Attachment>)
    ensures
        attachment_views(r@) == attachment_views(s@),
{
    let mut out: Vec<Attachment> = Vec::new();
    let mut i: usize = 0;
    while i < s.len()
        invariant
            i <= s@.len(),
            attachment_views(out@) == attachment_views(s@.take(i as int)),
        decreases s.len() - i,
    {
        let a = s[i].duplicate();
        let ghost prev = out@;
        out.push(a);
        assert(attachment_views(out@) =~= attachment_views(prev).push(a@));
        assert(s@.take(i + 1) =~= s@.take(i as int).push(s@[i as int]));
        assert(attachment_views(s@.take(i + 1)) =~= attachment_views(s@.take(i as int)).push(s@[i as int]@));
        i = i + 1;
    }
    assert(s@.take(s.len() as int) =~= s@);
    out
}

/// A message. `content` holds the stored form of the text.
#[derive(Debug)]
pub struct Message {
    pub id: u64,
    pub conversation_id: String,
    pub sender_id: Principal,
    pub recipient_id: Principal,
    pub content: String,
    pub message_type: MessageType,
    pub timestamp: u64,
    pub is_read: bool,
    pub is_deleted: bool,
    pub reply_to: Option<u64>,
    pub attachments: Vec<Attachment>,
}

/// The contents of a message.
pub struct MessageView {
    pub id: u64,
    pub conversation_id: Seq<char>,
    pub sender_id: Seq<u8>,
    pub recipient_id: Seq<u8>,
    pub content: Seq<char>,
    pub message_type: MessageType,
    pub timestamp: u64,
    pub is_read: bool,
    pub is_deleted: bool,
    pub reply_to: Option<u64>,
    pub attachments: Seq<AttachmentView>,
}

impl View for Message {
    type V = MessageView;

    open spec fn view(&self) -> MessageView {
        MessageView {
            id: self.id,
            conversation_id: self.conversation_id@,
            sender_id: self.sender_id@,
            recipient_id: self.recipient_id@,
            content: self.content@,
            message_type: self.message_type,
            timestamp: self.timestamp,
            is_read: self.is_read,
            is_deleted: self.is_deleted,
            reply_to: self.reply_to,
            attachments: attachment_views(self.attachments@),
        }
    }
}

impl Message {
    /// A copy of this message.
    pub fn duplicate(&self) -> (r: Message)
        ensures
            r@ == self@,
    {
        Message {
            id: self.id,
            conversation_id: self.conversation_id.clone(),
            sender_id: self.sender_id.duplicate(),
            recipient_id: self.recipient_id.duplicate(),
            content: self.content.clone(),
            message_type: self.message_type,
            timestamp: self.timestamp,
            is_read: self.is_read,
            is_deleted: self.is_deleted,
            reply_to: self.reply_to,
            attachments: duplicate_attachments(&self.attachments),
        }
    }
}

/// Descriptive data of a conversation.
#[derive(Debug)]
pub struct ConversationMetadata {
    pub title: Option<String>,
    pub description: Option<String>,
    pub session_id: Option<String>,
    pub encryption_key_id: String,
}

/// The contents of conversation metadata.
pub struct MetadataView {
    pub title: Option<Seq<char>>,
    pub description: Option<Seq<char>>,
    pub session_id: Option<Seq<char>>,
    pub encryption_key_id: Seq<char>,
}

impl View for ConversationMetadata {
    type V = MetadataView;

    open spec fn view(&self) -> MetadataView {
        MetadataView {
            title: opt_text(self.title),
            description: opt_text(self.description),
            session_id: opt_text(self.session_id),
            encryption_key_id: self.encryption_key_id@,
        }
    }
}

impl ConversationMetadata {
    /// A copy of this metadata.
    pub fn duplicate(&self) -> (r: ConversationMetadata)
        ensures
            r@ == self@,
    {
        ConversationMetadata {
            title: copy_opt_text(&self.title),
            description: copy_opt_text(&self.description),
            session_id: copy_opt_text(&self.session_id),
            encryption_key_id: self.encryption_key_id.clone(),
        }
    }
}

/// A conversation among a fixed set of participants.
#[derive(Debug)]
pub struct Conversation {
    pub id: String,
    pub participants: Vec<Principal>,
    pub conversation_type: ConversationType,
    pub created_at: u64,
    pub updated_at: u64,
    pub last_message_id: Option<u64>,
    pub is_archived: bool,
    pub metadata: ConversationMetadata,
}

/// The contents of a conversation.
pub struct ConversationView {
    pub id: Seq<char>,
    pub participants: Seq<Seq<u8>>,
    pub conversation_type: ConversationType,
    pub created_at: u64,
    pub updated_at: u64,
    pub last_message_id: Option<u64>,
    pub is_archived: bool,
    pub metadata: MetadataView,
}

impl View for Conversation {
    type V = ConversationView;

    open spec fn view(&self) -> ConversationView {
        ConversationView {
            id: self.id@,
            participants: principal_views(self.participants@),
            conversation_type: self.conversation_type,
            created_at: self.created_at,
            updated_at: self.updated_at,
            last_message_id: self.last_message_id,
            is_archived: self.is_archived,
            metadata: self.metadata@,
        }
    }
}

/// Copies a list of principals.
pub fn duplicate_principals(s: &Vec<Principal>) -> (r: Vec<Principal>)
    ensures
        principal_views(r@) == principal_views(s@),
{
    let mut out: Vec<Principal> = Vec::new();
    let mut i: usize = 0;
    while i < s.len()
        invariant
            i <= s@.len(),
            principal_views(out@) == principal_views(s@.take(i as int)),
        decreases s.len() - i,
    {
        let p = s[i].duplicate();
        let ghost prev = out@;
        out.push(p);
        assert(principal_views(out@) =~= principal_views(prev).push(p@));
        assert(s@.take(i + 1) =~= s@.take(i as int).push(s@[i as int]));
        assert(principal_views(s@.take(i + 1)) =~= principal_views(s@.take(i as int)).push(s@[i as int]@));
        i = i + 1;
    }
    assert(s@.take(s.len() as int) =~= s@);
    out
}

impl Conversation {
    /// A copy of this conversation.
    pub fn duplicate(&self) -> (r: Conversation)
        ensures
            r@ == self@,
    {
        Conversation {
            id: self.id.clone(),
            participants: duplicate_principals(&self.participants),
            conversation_type: self.conversation_type,
            created_at: self.created_at,
            updated_at: self.updated_at,
            last_message_id: self.last_message_id,
            is_archived: self.is_archived,
            metadata: self.metadata.duplicate(),
        }
    }
}

/// A registered public key.
#[derive(Debug)]
pub struct UserKey {
    pub user_id: Principal,
    pub public_key: String,
    pub key_type: KeyType,
    pub created_at: u64,
    pub is_active: bool,
}

/// The contents of a registered key.
pub struct UserKeyView {
    pub user_id: Seq<u8>,
    pub public_key: Seq<char>,
    pub key_type: KeyType,
    pub created_at: u64,
    pub is_active: bool,
}

impl View for UserKey {
    type V = UserKeyView;

    open spec fn view(&self) -> UserKeyView {
        UserKeyView {
            user_id: self.user_id@,
            public_key: self.public_key@,
            key_type: self.key_type,
            created_at: self.created_at,
            is_active: self.is_active,
        }
    }
}

impl UserKey {
    /// A copy of this key record.
    pub fn duplicate(&self) -> (r: UserKey)
        ensures
            r@ == self@,
    {
        UserKey {
            user_id: self.user_id.duplicate(),
            public_key: self.public_key.clone(),
            key_type: self.key_type,
            created_at: self.created_at,
            is_active: self.is_active,
        }
    }
}

/// Key material generated for a conversation.
#[derive(Debug)]
pub struct PHIEncryptionKey {
    pub key_id: String,
    pub key_data: Vec<u8>,
    pub created_at: u64,
    pub is_active: bool,
    pub purpose: EncryptionPurpose,
}

/// The outcome of sending a message.
#[derive(Debug)]
pub struct MessageResult {
    pub success: bool,
    pub message: Option<Message>,
    pub error: Option<MessagingError>,
}

/// The outcome of creating a conversation.
#[derive(Debug)]
pub struct ConversationResult {
    pub success: bool,
    pub conversation: Option<Conversation>,
    pub error: Option<MessagingError>,
}

} // verus!
