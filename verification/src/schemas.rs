//! The documents, the requests about them, and the kinds they come in.
use vstd::prelude::*;

use crate::json::Json;
use crate::text::same;
use crate::text::texts;

verus! {

/// The four kinds of government document.
#[derive(Clone, Copy, Debug, PartialEq, Eq, Structural)]
pub enum DocType {
    External,
    Internal,
    Order,
    Announcement,
}

impl DocType {
    /// The Thai name of the kind, under which it is written and stored.
    pub open spec fn thai(self) -> Seq<char> {
        match self {
            DocType::External => "ภายนอก"@,
            DocType::Internal => "ภายใน"@,
            DocType::Order => "คำสั่ง"@,
            DocType::Announcement => "ประกาศ"@,
        }
    }

    /// Whether documents of the kind are letters, with a recipient.
    pub open spec fn is_letter(self) -> bool {
        self == DocType::External || self == DocType::Internal
    }

    /// The Thai name of the kind.
    pub fn as_thai(&self) -> (r: &'static str)
        ensures
            r@ == self.thai(),
    {
        match self {
            DocType::External => "ภายนอก",
            DocType::Internal => "ภายใน",
            DocType::Order => "คำสั่ง",
            DocType::Announcement => "ประกาศ",
        }
    }

    /// The kind with the Thai name `name`.
    pub fn from_thai(name: &str) -> (r: Option<DocType>)
        ensures
            match r {
                Some(d) => d.thai() == name@,
                None => forall|d: DocType| d.thai() != name@,
            },
    {
        if same(name, "ภายนอก") {
            return Some(DocType::External);
        }
        if same(name, "ภายใน") {
            return Some(DocType::Internal);
        }
        if same(name, "คำสั่ง") {
            return Some(DocType::Order);
        }
        if same(name, "ประกาศ") {
            return Some(DocType::Announcement);
        }
        None
    }

    /// Whether documents of the kind are letters.
    pub fn has_recipient(&self) -> (r: bool)
        ensures
            r == self.is_letter(),
    {
        match self {
            DocType::External => true,
            DocType::Internal => true,
            _ => false,
        }
    }
}

/// Different kinds have different names, so that a name tells the kind.
pub proof fn law_thai_names_differ(a: DocType, b: DocType)
    ensures
        a.thai() == b.thai() <==> a == b,
{
    reveal_strlit("ภายนอก");
    reveal_strlit("ภายใน");
    reveal_strlit("คำสั่ง");
    reveal_strlit("ประกาศ");
    let external = "ภายนอก"@;
    let internal = "ภายใน"@;
    let order = "คำสั่ง"@;
    let announcement = "ประกาศ"@;
    assert(external.len() == 6);
    assert(internal.len() == 5);
    assert(order.len() == 6);
    assert(announcement.len() == 6);
    assert(external[0] != order[0]);
    assert(external[0] != announcement[0]);
    assert(order[0] != announcement[0]);
}

/// The standing of the recipient of a letter.
#[derive(Clone, Copy, Debug, PartialEq, Eq, Structural)]
pub enum RecipientClass {
    GeneralPublic,
    JuniorOfficial,
    SeniorOfficial,
    Executive,
    Monk,
    Royal,
}

impl Default for RecipientClass {
    fn default() -> (r: RecipientClass)
        ensures
            r == RecipientClass::GeneralPublic,
    {
        RecipientClass::GeneralPublic
    }
}

/// A letter to another agency or to the public.
#[derive(Debug)]
pub struct ExternalDoc {
    pub doc_type: DocType,
    pub number: String,
    pub agency: String,
    pub date: String,
    pub subject: String,
    pub recipient: String,
    pub salutation: String,
    pub reference: Vec<String>,
    pub enclosure: Vec<String>,
    pub body: Vec<String>,
    pub closing: String,
    pub signer_name: String,
    pub signer_position: String,
}

/// A memorandum inside an agency.
#[derive(Debug)]
pub struct InternalDoc {
    pub doc_type: DocType,
    pub agency: String,
    pub reference_number: String,
    pub date: String,
    pub subject: String,
    pub recipient: String,
    pub salutation: String,
    pub body: Vec<String>,
    pub closing: String,
    pub signer_name: String,
    pub signer_position: String,
}

/// An order.
#[derive(Debug)]
pub struct OrderDoc {
    pub doc_type: DocType,
    pub number: String,
    pub title: String,
    pub body: Vec<String>,
    pub date: String,
    pub signer_name: String,
    pub signer_position: String,
}

/// An announcement.
#[derive(Debug)]
pub struct AnnouncementDoc {
    pub doc_type: DocType,
    pub number: String,
    pub title: String,
    pub body: Vec<String>,
    pub date: String,
    pub signer_name: String,
    pub signer_position: String,
}

/// A document of any kind.
#[derive(Debug)]
pub enum GovDoc {
    External(ExternalDoc),
    Internal(InternalDoc),
    Order(OrderDoc),
    Announcement(AnnouncementDoc),
}

/// What a document to be generated is to say.
#[derive(Debug)]
pub struct DocRequest {
    pub doc_type: DocType,
    pub subject: String,
    pub purpose: String,
    pub recipient_name: String,
    pub recipient_class: RecipientClass,
    pub recipient_agency: String,
    pub sender_name: String,
    pub sender_position: String,
    pub additional_context: String,
    pub use_critic: Option<bool>,
}

impl DocRequest {
    /// The request for a document of a kind that says nothing else.
    pub fn new(doc_type: DocType) -> (r: DocRequest)
        ensures
            r.doc_type == doc_type,
            r.subject@ == Seq::<char>::empty(),
            r.purpose@ == Seq::<char>::empty(),
            r.recipient_name@ == Seq::<char>::empty(),
            r.recipient_class == RecipientClass::GeneralPublic,
            r.recipient_agency@ == Seq::<char>::empty(),
            r.sender_name@ == Seq::<char>::empty(),
            r.sender_position@ == Seq::<char>::empty(),
            r.additional_context@ == Seq::<char>::empty(),
            r.use_critic is None,
    {
        DocRequest {
            doc_type,
            subject: String::new(),
            purpose: String::new(),
            recipient_name: String::new(),
            recipient_class: RecipientClass::default(),
            recipient_agency: String::new(),
            sender_name: String::new(),
            sender_position: String::new(),
            additional_context: String::new(),
            use_critic: None,
        }
    }
}

/// What the critic says about a draft.
#[derive(Debug)]
pub struct CriticReview {
    pub passed: bool,
    pub issues: Vec<String>,
    pub suggestions: Vec<String>,
}

/// A request to edit fields of a document.
#[derive(Debug)]
pub struct EditRequest {
    pub doc_type: DocType,
    pub doc_data: Json,
    pub edit_instructions: String,
    pub target_fields: Vec<String>,
}

/// The fields that an edit changes when the request names none.
pub fn default_target_fields() -> (r: Vec<String>)
    ensures
        texts(r@) == seq!["body"@],
{
    let mut fields: Vec<String> = Vec::new();
    fields.push("body".to_owned());
    assert(texts(fields@) =~= seq!["body"@]);
    fields
}

/// A request to render a document.
#[derive(Debug)]
pub struct RenderRequest {
    pub doc_type: DocType,
    pub doc_data: Json,
    pub template_id: Option<i64>,
}

} // verus!
