//! Catalog records, their fallback category, icons and display rows.

use vstd::prelude::*;
use crate::text::{lower_of, lowercase, same_text};

verus! {

/// One record of the catalog. `name` identifies the program within a
/// session; every other field is optional.
#[derive(Clone, Debug)]
pub struct ProgramEntry {
    pub name: String,
    pub category: Option<String>,
    pub download_url: Option<String>,
    pub silent_switches: Option<String>,
    pub vendor: Option<String>,
    pub version: Option<String>,
    pub size: Option<String>,
}

/// The catalog document: the ordered program records.
#[derive(Clone, Debug)]
pub struct SoftwareCatalog {
    pub software: Vec<ProgramEntry>,
}

/// The category that records without one fall under.
pub open spec fn other_category() -> Seq<char> {
    "Other"@
}

/// The text of an optional field, or `placeholder` where it is absent.
pub open spec fn text_or(field: Option<String>, placeholder: Seq<char>) -> Seq<char> {
    match field {
        Some(t) => t@,
        None => placeholder,
    }
}

impl ProgramEntry {
    /// A record with a name and nothing else.
    pub fn named(name: &str) -> (r: ProgramEntry)
        ensures
            r.name@ == name@,
            r.category is None,
            r.download_url is None,
            r.silent_switches is None,
            r.vendor is None,
            r.version is None,
            r.size is None,
    {
        ProgramEntry {
            name: name.to_owned(),
            category: None,
            download_url: None,
            silent_switches: None,
            vendor: None,
            version: None,
            size: None,
        }
    }

    /// The category the record is classified under: its own, or "Other".
    pub open spec fn category_of(self) -> Seq<char> {
        text_or(self.category, other_category())
    }

    /// The category the record is classified under: its own, or "Other".
    pub fn category_name(&self) -> (r: &str)
        ensures
            r@ == self.category_of(),
    {
        match &self.category {
            Some(c) => c.as_str(),
            None => "Other",
        }
    }

    /// The row that the program list shows for this record.
    pub fn row(&self) -> (r: ProgramRow)
        ensures
            r.shows(*self),
    {
        ProgramRow {
            name: self.name.clone(),
            version: field_or(&self.version, "Latest"),
            size: field_or(&self.size, "Unknown"),
            status: "Ready".to_owned(),
            vendor: field_or(&self.vendor, "Unknown"),
        }
    }
}

/// The display columns of one program-list row.
#[derive(Clone, Debug)]
pub struct ProgramRow {
    pub name: String,
    pub version: String,
    pub size: String,
    pub status: String,
    pub vendor: String,
}

impl ProgramRow {
    /// The row shows the record: its name, its version or "Latest", its
    /// size or "Unknown", the status "Ready", its vendor or "Unknown".
    pub open spec fn shows(self, e: ProgramEntry) -> bool {
        &&& self.name@ == e.name@
        &&& self.version@ == text_or(e.version, "Latest"@)
        &&& self.size@ == text_or(e.size, "Unknown"@)
        &&& self.status@ == "Ready"@
        &&& self.vendor@ == text_or(e.vendor, "Unknown"@)
    }
}

/// The text of an optional field, or `placeholder` where it is absent.
pub fn field_or(field: &Option<String>, placeholder: &str) -> (r: String)
    ensures
        r@ == text_or(*field, placeholder@),
{
    match field {
        Some(t) => t.clone(),
        None => placeholder.to_owned(),
    }
}

/// The icon for a category name that is already in lower case.
pub open spec fn icon_for_lowered(l: Seq<char>) -> Seq<char> {
    if l == "browsers"@ {
        "\u{1F310}"@
    } else if l == "development"@ || l == "development ides"@ {
        "\u{1F4BB}"@
    } else if l == "security"@ || l == "privacy & security"@ {
        "\u{1F512}"@
    } else if l == "media"@ {
        "\u{1F3AC}"@
    } else if l == "productivity"@ {
        "\u{1F4CA}"@
    } else if l == "system"@ || l == "utilities"@ {
        "\u{2699}"@
    } else if l == "gaming"@ {
        "\u{1F3AE}"@
    } else if l == "network"@ {
        "\u{1F4E1}"@
    } else if l == "communication"@ {
        "\u{1F4AC}"@
    } else {
        "\u{1F4C1}"@
    }
}

/// The icon for a category name that is already in lower case.
pub fn icon_for_lowered_name(l: &str) -> (r: &'static str)
    ensures
        r@ == icon_for_lowered(l@),
{
    if same_text(l, "browsers") {
        "\u{1F310}"
    } else if same_text(l, "development") || same_text(l, "development ides") {
        "\u{1F4BB}"
    } else if same_text(l, "security") || same_text(l, "privacy & security") {
        "\u{1F512}"
    } else if same_text(l, "media") {
        "\u{1F3AC}"
    } else if same_text(l, "productivity") {
        "\u{1F4CA}"
    } else if same_text(l, "system") || same_text(l, "utilities") {
        "\u{2699}"
    } else if same_text(l, "gaming") {
        "\u{1F3AE}"
    } else if same_text(l, "network") {
        "\u{1F4E1}"
    } else if same_text(l, "communication") {
        "\u{1F4AC}"
    } else {
        "\u{1F4C1}"
    }
}

/// The icon of a category: looked up by the lower-case form of its name.
pub open spec fn category_icon_of(category: Seq<char>) -> Seq<char> {
    icon_for_lowered(lower_of(category))
}

/// The icon of a category, matched without regard to case.
pub fn category_icon(category: &str) -> (r: &'static str)
    ensures
        r@ == category_icon_of(category@),
{
    let l = lowercase(category);
    icon_for_lowered_name(l.as_str())
}

} // verus!
