//! What is asked of the user when a project is set up.

use vstd::prelude::*;
use crate::model::json::{member_text, push_member, push_quoted, push_text, quote};
use crate::utils::text::string_of;

verus! {

/// The licenses that a new project can choose from.
#[derive(Debug, Clone, Copy, PartialEq, Eq, Structural)]
pub enum License {
    MIT,
    Apache2,
    BSD3,
    BSD2,
    GPL,
    LGPL,
    MPL,
    CDDL,
    Unlicense,
    Other,
}

/// The full name of a license.
pub open spec fn license_name(license: License) -> Seq<char> {
    match license {
        License::MIT => "MIT License"@,
        License::Apache2 => "Apache License 2.0"@,
        License::BSD3 => "BSD 3-Clause \"New\" or \"Revised\" License"@,
        License::BSD2 => "BSD 2-Clause \"Simplified\" or \"FreeBSD\" License"@,
        License::GPL => "GNU General Public License (GPL)"@,
        License::LGPL => "GNU Library or \"Lesser\" General Public License (LGPL)"@,
        License::MPL => "Mozilla Public License 2.0"@,
        License::CDDL => "Common Development and Distribution License"@,
        License::Unlicense => "The Unlicense"@,
        License::Other => "Other"@,
    }
}

/// The short name under which a license is written down.
pub open spec fn license_tag(license: License) -> Seq<char> {
    match license {
        License::MIT => "MIT"@,
        License::Apache2 => "Apache2"@,
        License::BSD3 => "BSD3"@,
        License::BSD2 => "BSD2"@,
        License::GPL => "GPL"@,
        License::LGPL => "LGPL"@,
        License::MPL => "MPL"@,
        License::CDDL => "CDDL"@,
        License::Unlicense => "Unlicense"@,
        License::Other => "Other"@,
    }
}

/// The license that stands at `index` in the order of declaration.
pub open spec fn license_at(index: int) -> Option<License> {
    if index == 0 {
        Some(License::MIT)
    } else if index == 1 {
        Some(License::Apache2)
    } else if index == 2 {
        Some(License::BSD3)
    } else if index == 3 {
        Some(License::BSD2)
    } else if index == 4 {
        Some(License::GPL)
    } else if index == 5 {
        Some(License::LGPL)
    } else if index == 6 {
        Some(License::MPL)
    } else if index == 7 {
        Some(License::CDDL)
    } else if index == 8 {
        Some(License::Unlicense)
    } else if index == 9 {
        Some(License::Other)
    } else {
        None
    }
}

/// The licenses that are offered for choice, in the order in which they
/// are shown. The last line repeats the three-clause BSD license.
pub open spec fn offered_licenses() -> Seq<License> {
    seq![
        License::MIT,
        License::Apache2,
        License::BSD3,
        License::BSD2,
        License::GPL,
        License::LGPL,
        License::MPL,
        License::CDDL,
        License::Unlicense,
        License::BSD3,
    ]
}

impl License {
    /// The full name of this license.
    pub fn to_string(&self) -> (name: String)
        ensures
            name@ == license_name(*self),
    {
        match self {
            License::MIT => String::from_str("MIT License"),
            License::Apache2 => String::from_str("Apache License 2.0"),
            License::BSD3 => String::from_str("BSD 3-Clause \"New\" or \"Revised\" License"),
            License::BSD2 => String::from_str(
                "BSD 2-Clause \"Simplified\" or \"FreeBSD\" License",
            ),
            License::GPL => String::from_str("GNU General Public License (GPL)"),
            License::LGPL => String::from_str(
                "GNU Library or \"Lesser\" General Public License (LGPL)",
            ),
            License::MPL => String::from_str("Mozilla Public License 2.0"),
            License::CDDL => String::from_str("Common Development and Distribution License"),
            License::Unlicense => String::from_str("The Unlicense"),
            License::Other => String::from_str("Other"),
        }
    }

    /// The short name under which this license is written down.
    pub fn tag(&self) -> (name: String)
        ensures
            name@ == license_tag(*self),
    {
        match self {
            License::MIT => String::from_str("MIT"),
            License::Apache2 => String::from_str("Apache2"),
            License::BSD3 => String::from_str("BSD3"),
            License::BSD2 => String::from_str("BSD2"),
            License::GPL => String::from_str("GPL"),
            License::LGPL => String::from_str("LGPL"),
            License::MPL => String::from_str("MPL"),
            License::CDDL => String::from_str("CDDL"),
            License::Unlicense => String::from_str("Unlicense"),
            License::Other => String::from_str("Other"),
        }
    }

    /// The names of the licenses that are offered for choice.
    pub fn options() -> (names: Vec<String>)
        ensures
            names@.len() == offered_licenses().len(),
            forall|i: int|
                0 <= i < names@.len() ==> #[trigger] names@[i]@ == license_name(
                    offered_licenses()[i],
                ),
    {
        let mut names: Vec<String> = Vec::new();
        names.push(License::MIT.to_string());
        names.push(License::Apache2.to_string());
        names.push(License::BSD3.to_string());
        names.push(License::BSD2.to_string());
        names.push(License::GPL.to_string());
        names.push(License::LGPL.to_string());
        names.push(License::MPL.to_string());
        names.push(License::CDDL.to_string());
        names.push(License::Unlicense.to_string());
        names.push(License::BSD3.to_string());
        names
    }

    /// The license that stands at `index` in the order of declaration.
    pub fn from_index(index: usize) -> (license: Option<License>)
        ensures
            license == license_at(index as int),
    {
        match index {
            0 => Some(License::MIT),
            1 => Some(License::Apache2),
            2 => Some(License::BSD3),
            3 => Some(License::BSD2),
            4 => Some(License::GPL),
            5 => Some(License::LGPL),
            6 => Some(License::MPL),
            7 => Some(License::CDDL),
            8 => Some(License::Unlicense),
            9 => Some(License::Other),
            _ => None,
        }
    }
}

impl Default for License {
    fn default() -> (license: License)
        ensures
            license == License::MIT,
    {
        License::MIT
    }
}

/// The answers that describe a new project.
#[derive(Debug, Clone)]
pub struct InitData {
    pub name: String,
    pub version: String,
    pub description: Option<String>,
    pub main: String,
    pub repository: Option<String>,
    pub author: Option<String>,
    pub license: License,
    pub private: Option<bool>,
}

/// A member that is written only where a value is there, with the
/// separator in front of it.
pub open spec fn optional_member_text(field: Seq<char>, value: Option<String>) -> Seq<char> {
    match value {
        Some(value) => ",\n  "@ + member_text(field, value@),
        None => Seq::<char>::empty(),
    }
}

/// A yes or no that is written only where it is there, with the separator
/// in front of it.
pub open spec fn optional_flag_text(field: Seq<char>, value: Option<bool>) -> Seq<char> {
    match value {
        Some(flag) => ",\n  "@ + quote(field) + ": "@ + if flag {
            "true"@
        } else {
            "false"@
        },
        None => Seq::<char>::empty(),
    }
}

/// The answers as a JSON object, indented by two spaces. An answer that
/// was not given is left out.
pub open spec fn init_data_text(data: InitData) -> Seq<char> {
    "{\n  "@ + member_text("name"@, data.name@) + ",\n  "@ + member_text(
        "version"@,
        data.version@,
    ) + optional_member_text("description"@, data.description) + ",\n  "@ + member_text(
        "main"@,
        data.main@,
    ) + optional_member_text("repository"@, data.repository) + optional_member_text(
        "author"@,
        data.author,
    ) + ",\n  "@ + member_text("license"@, license_tag(data.license)) + optional_flag_text(
        "private"@,
        data.private,
    ) + "\n}"@
}

/// Appends a member to `out` if its value is there.
fn push_optional_member(out: &mut Vec<char>, field: &str, value: &Option<String>)
    ensures
        final(out)@ == old(out)@ + optional_member_text(field@, *value),
{
    match value {
        Some(text) => {
            push_text(out, ",\n  ");
            push_member(out, field, text.as_str());
            assert(out@ =~= old(out)@ + optional_member_text(field@, *value));
        },
        None => {
            assert(out@ =~= old(out)@ + optional_member_text(field@, *value));
        },
    }
}

/// Appends a yes or no to `out` if it is there.
fn push_optional_flag(out: &mut Vec<char>, field: &str, value: Option<bool>)
    ensures
        final(out)@ == old(out)@ + optional_flag_text(field@, value),
{
    match value {
        Some(flag) => {
            push_text(out, ",\n  ");
            push_quoted(out, field);
            push_text(out, ": ");
            if flag {
                push_text(out, "true");
            } else {
                push_text(out, "false");
            }
            assert(out@ =~= old(out)@ + optional_flag_text(field@, value));
        },
        None => {
            assert(out@ =~= old(out)@ + optional_flag_text(field@, value));
        },
    }
}

impl InitData {
    /// The answers as a JSON object, indented by two spaces.
    pub fn dump(&self) -> (text: String)
        ensures
            text@ == init_data_text(*self),
    {
        let mut out: Vec<char> = Vec::new();
        push_text(&mut out, "{\n  ");
        push_member(&mut out, "name", self.name.as_str());
        push_text(&mut out, ",\n  ");
        push_member(&mut out, "version", self.version.as_str());
        push_optional_member(&mut out, "description", &self.description);
        push_text(&mut out, ",\n  ");
        push_member(&mut out, "main", self.main.as_str());
        push_optional_member(&mut out, "repository", &self.repository);
        push_optional_member(&mut out, "author", &self.author);
        push_text(&mut out, ",\n  ");
        let tag = self.license.tag();
        push_member(&mut out, "license", tag.as_str());
        push_optional_flag(&mut out, "private", self.private);
        push_text(&mut out, "\n}");
        assert(out@ =~= init_data_text(*self));
        string_of(&out)
    }
}

} // verus!
