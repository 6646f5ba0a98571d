//! The data that flows through the pipeline, and the errors of its stages.

use crate::front_matter::{FrontMatter, Pair};
use crate::text::texts_of;
use vstd::prelude::*;
use vstd::string::StringExecFns;

verus! {

/// The format of a document's body.
#[derive(Clone, Copy, Debug, PartialEq, Eq, Structural)]
pub enum ContentKind {
    Markdown,
}

/// One source document after parsing.
#[derive(Clone, Debug)]
pub struct RawPost {
    pub front_matter: FrontMatter,
    pub body: String,
    pub og_path: String,
    pub kind: ContentKind,
}

/// A calendar date.
#[derive(Clone, Copy, Debug, PartialEq, Eq, Structural)]
pub struct Date {
    pub year: i32,
    pub month: u32,
    pub day: u32,
}

/// Validated, typed front matter.
#[derive(Clone, Debug)]
pub struct Metadata {
    pub title: String,
    pub description: String,
    pub date: Date,
    pub tags: Vec<String>,
    pub extras: FrontMatter,
}

/// What a page is written from: its route, its metadata and its text.
#[derive(Clone, Debug)]
pub struct PostOutput {
    pub route: String,
    pub metadata: Metadata,
    pub rendered_content: String,
}

/// Site-wide settings.
#[derive(Clone, Debug)]
pub struct SiteConfig {
    pub title: String,
    pub description: String,
}

/// A `Metadata` as it is seen in contracts. The extras are the entries of
/// the mapping in the order in which it keeps them.
pub struct MetadataView {
    pub title: Seq<char>,
    pub description: Seq<char>,
    pub date: Date,
    pub tags: Seq<Seq<char>>,
    pub extras: Seq<Pair>,
}

impl View for Metadata {
    type V = MetadataView;

    open spec fn view(&self) -> MetadataView {
        MetadataView {
            title: self.title@,
            description: self.description@,
            date: self.date,
            tags: texts_of(self.tags@),
            extras: self.extras.pairs(),
        }
    }
}

/// A `PostOutput` as it is seen in contracts.
pub struct PostOutputView {
    pub route: Seq<char>,
    pub metadata: MetadataView,
    pub rendered_content: Seq<char>,
}

impl View for PostOutput {
    type V = PostOutputView;

    open spec fn view(&self) -> PostOutputView {
        PostOutputView {
            route: self.route@,
            metadata: self.metadata@,
            rendered_content: self.rendered_content@,
        }
    }
}

/// Why a document could not be parsed.
#[derive(Clone, Copy, Debug, PartialEq, Eq, Structural)]
pub enum ParseError {
    /// The text is empty, or its first line is no delimiter line.
    NoFrontMatter,
}

impl ParseError {
    /// The text of this error for a reader.
    pub open spec fn message_text(self) -> Seq<char> {
        "No front matter found"@
    }

    /// The text of this error for a reader.
    pub fn message(&self) -> (s: String)
        ensures
            s@ == self.message_text(),
    {
        String::from_str("No front matter found")
    }
}

/// A field that every document's front matter must hold.
#[derive(Clone, Copy, Debug, PartialEq, Eq, Structural)]
pub enum RequiredField {
    Title,
    Description,
    Date,
    Tags,
}

impl RequiredField {
    /// The key under which the field stands in the front matter.
    pub open spec fn key(self) -> Seq<char> {
        match self {
            RequiredField::Title => "title"@,
            RequiredField::Description => "description"@,
            RequiredField::Date => "date"@,
            RequiredField::Tags => "tags"@,
        }
    }

    /// The key under which the field stands in the front matter.
    pub fn name(&self) -> (s: &'static str)
        ensures
            s@ == self.key(),
    {
        match self {
            RequiredField::Title => "title",
            RequiredField::Description => "description",
            RequiredField::Date => "date",
            RequiredField::Tags => "tags",
        }
    }

    /// What a reader is told when the field is missing.
    pub open spec fn complaint(self) -> Seq<char> {
        match self {
            RequiredField::Title => "Title is required"@,
            RequiredField::Description => "Description is required"@,
            RequiredField::Date => "Date is required"@,
            RequiredField::Tags => "Tags are required"@,
        }
    }
}

/// Why no metadata could be made of a front matter.
#[derive(Debug)]
pub enum MetadataError {
    /// The front matter has no value for this field.
    MissingField(RequiredField),
    /// The value of `date` is no date; the text says why.
    InvalidDate(String),
}

/// A `MetadataError` as it is seen in contracts.
pub enum MetadataErrorView {
    MissingField(RequiredField),
    InvalidDate(Seq<char>),
}

impl View for MetadataError {
    type V = MetadataErrorView;

    open spec fn view(&self) -> MetadataErrorView {
        match self {
            MetadataError::MissingField(field) => MetadataErrorView::MissingField(*field),
            MetadataError::InvalidDate(reason) => MetadataErrorView::InvalidDate(reason@),
        }
    }
}

impl MetadataErrorView {
    /// The text of this error for a reader.
    pub open spec fn message_text(self) -> Seq<char> {
        match self {
            MetadataErrorView::MissingField(field) => field.complaint(),
            MetadataErrorView::InvalidDate(reason) => "Invalid date format: "@ + reason
                + ". Expected YYYY-MM-DD"@,
        }
    }
}

impl MetadataError {
    /// The text of this error for a reader.
    pub fn message(&self) -> (s: String)
        ensures
            s@ == self@.message_text(),
    {
        match self {
            MetadataError::MissingField(RequiredField::Title) => String::from_str(
                "Title is required",
            ),
            MetadataError::MissingField(RequiredField::Description) => String::from_str(
                "Description is required",
            ),
            MetadataError::MissingField(RequiredField::Date) => String::from_str(
                "Date is required",
            ),
            MetadataError::MissingField(RequiredField::Tags) => String::from_str(
                "Tags are required",
            ),
            MetadataError::InvalidDate(reason) => {
                let mut s = String::from_str("Invalid date format: ");
                s.append(reason.as_str());
                s.append(". Expected YYYY-MM-DD");
                s
            },
        }
    }
}

} // verus!
