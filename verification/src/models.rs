//! The ledger's records as plain values: listing categories, author and
//! institution kinds, and the stored form of a listing version. Timestamps
//! are nanoseconds since the Unix epoch (UTC), identifiers are the 128-bit
//! values of their UUIDs.

use vstd::prelude::*;

verus! {

/// Nanoseconds since 1970-01-01T00:00:00Z.
pub type Timestamp = i128;

/// The kind of opportunity a listing offers.
#[derive(Debug, Clone, Copy, PartialEq, Eq, Structural)]
pub enum Category {
    Scholarship,
    Grant,
    Subsidy,
    Job,
    Training,
}

impl Category {
    /// The name stored in the database and used on the wire.
    pub fn as_str(&self) -> (name: &'static str)
        ensures
            name@ == match self {
                Category::Scholarship => "scholarship"@,
                Category::Grant => "grant"@,
                Category::Subsidy => "subsidy"@,
                Category::Job => "job"@,
                Category::Training => "training"@,
            },
    {
        match self {
            Category::Scholarship => "scholarship",
            Category::Grant => "grant",
            Category::Subsidy => "subsidy",
            Category::Job => "job",
            Category::Training => "training",
        }
    }
}

/// Who authored a version.
#[derive(Debug, Clone, Copy, PartialEq, Eq, Structural)]
pub enum AuthorType {
    Institution,
    User,
}

impl AuthorType {
    /// The name stored in the database and used on the wire.
    pub fn as_str(&self) -> (name: &'static str)
        ensures
            name@ == match self {
                AuthorType::Institution => "institution"@,
                AuthorType::User => "user"@,
            },
    {
        match self {
            AuthorType::Institution => "institution",
            AuthorType::User => "user",
        }
    }
}

/// The kind of an onboarded institution.
#[derive(Debug, Clone, Copy, PartialEq, Eq, Structural)]
pub enum InstitutionCategory {
    Govt,
    University,
    Ngo,
}

impl InstitutionCategory {
    /// The name stored in the database and used on the wire.
    pub fn as_str(&self) -> (name: &'static str)
        ensures
            name@ == match self {
                InstitutionCategory::Govt => "govt"@,
                InstitutionCategory::University => "university"@,
                InstitutionCategory::Ngo => "ngo"@,
            },
    {
        match self {
            InstitutionCategory::Govt => "govt",
            InstitutionCategory::University => "university",
            InstitutionCategory::Ngo => "ngo",
        }
    }
}

/// A request to onboard an institution. `public_key` is a hex Ed25519
/// public key; when it is absent a key pair is generated and its private
/// half returned once, never stored.
pub struct CreateInstitutionRequest {
    pub name: String,
    pub category: InstitutionCategory,
    pub public_key: Option<String>,
}

/// The versioned payload of a listing: exactly what gets canonicalized
/// and hashed.
#[derive(Debug, Clone)]
pub struct ListingContent {
    pub title: String,
    pub description: String,
    pub eligibility: String,
    pub deadline: Timestamp,
    pub application_url: String,
    pub contact: String,
}

/// One stored version of a listing. Rows are never updated or deleted:
/// an edit is a new row whose `prev_version_hash` is the previous row's
/// `content_hash`.
#[derive(Debug, Clone)]
pub struct ListingVersionRow {
    pub id: u128,
    pub listing_id: u128,
    pub version_number: i32,
    pub title: String,
    pub description: String,
    pub eligibility: String,
    pub deadline: Timestamp,
    pub application_url: String,
    pub contact: String,
    pub content_hash: String,
    pub prev_version_hash: Option<String>,
    pub author_type: String,
    pub author_id: u128,
    pub signature: Option<String>,
    pub shard_id: Option<i32>,
    pub created_at: Timestamp,
}

impl ListingVersionRow {
    /// The version's content, copied out of the row.
    pub fn content(&self) -> (content: ListingContent)
        ensures
            content.title@ == self.title@,
            content.description@ == self.description@,
            content.eligibility@ == self.eligibility@,
            content.deadline == self.deadline,
            content.application_url@ == self.application_url@,
            content.contact@ == self.contact@,
    {
        ListingContent {
            title: self.title.clone(),
            description: self.description.clone(),
            eligibility: self.eligibility.clone(),
            deadline: self.deadline,
            application_url: self.application_url.clone(),
            contact: self.contact.clone(),
        }
    }
}

} // verus!
