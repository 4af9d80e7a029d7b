//! Writing the frequency table out as text.

use vstd::prelude::*;
use crate::ordered::{stats_entries, Stats, StatsEntries};

verus! {

/// The text formats in which a table can be written.
#[derive(Debug, Clone, Copy, PartialEq, Eq)]
pub enum Format {
    /// Blocks of `key: value` lines, nested by indentation.
    Yaml,
    /// Nested objects, pretty-printed.
    Json,
}

impl Default for Format {
    /// The format that is used where none is asked for.
    fn default() -> (format: Format)
        ensures
            format == Format::Yaml,
    {
        Format::Yaml
    }
}

/// Why a table could not be written, with the serialiser's own message.
#[derive(Debug, Clone, PartialEq, Eq)]
pub enum ReportError {
    /// The YAML serialiser refused the table.
    Yaml(String),
    /// The JSON serialiser refused the table.
    Json(String),
}

impl ReportError {
    /// The format that could not be written.
    pub open spec fn format(self) -> Format {
        match self {
            ReportError::Yaml(_) => Format::Yaml,
            ReportError::Json(_) => Format::Json,
        }
    }

    /// The serialiser's message.
    pub open spec fn text(self) -> Seq<char> {
        match self {
            ReportError::Yaml(message) => message@,
            ReportError::Json(message) => message@,
        }
    }

    /// The serialiser's message.
    pub fn message(&self) -> (message: &str)
        ensures
            message@ == self.text(),
    {
        match self {
            ReportError::Yaml(message) => message.as_str(),
            ReportError::Json(message) => message.as_str(),
        }
    }
}

/// The error of `serde_yaml`; it is passed on unread.
#[verifier::external_type_specification]
#[verifier::external_body]
pub struct ExYamlError(serde_yaml::Error);

/// The error of `serde_json`; it is passed on unread.
#[verifier::external_type_specification]
#[verifier::external_body]
pub struct ExJsonError(serde_json::Error);

/// What `serde_yaml::to_string` gives for a table with the given entries: the YAML document
/// that it writes, or `None` where it refuses the table.
pub uninterp spec fn yaml_text(
    stats: Seq<(Seq<char>, Seq<(Seq<char>, Seq<(Seq<char>, nat)>)>)>,
) -> Option<Seq<char>>;

/// What `serde_json::to_string_pretty` gives for a table with the given entries: the JSON
/// document that it writes, or `None` where it refuses the table.
pub uninterp spec fn json_text(
    stats: Seq<(Seq<char>, Seq<(Seq<char>, Seq<(Seq<char>, nat)>)>)>,
) -> Option<Seq<char>>;

/// `serde_yaml::to_string` writes a map into a buffer in memory as one YAML document, entry
/// after entry in the map's order. Whether it succeeds and what it writes depend on the entries
/// alone.
#[verifier::external_body]
fn to_yaml(stats: &Stats) -> (outcome: Result<String, serde_yaml::Error>)
    ensures
        match outcome {
            Ok(text) => yaml_text(stats_entries(*stats)) == Some(text@),
            Err(_) => yaml_text(stats_entries(*stats)) is None,
        },
{
    serde_yaml::to_string(stats)
}

/// `serde_json::to_string_pretty` writes a map into a buffer in memory as one indented JSON
/// object, entry after entry in the map's order. Whether it succeeds and what it writes depend
/// on the entries alone.
#[verifier::external_body]
fn to_json(stats: &Stats) -> (outcome: Result<String, serde_json::Error>)
    ensures
        match outcome {
            Ok(text) => json_text(stats_entries(*stats)) == Some(text@),
            Err(_) => json_text(stats_entries(*stats)) is None,
        },
{
    serde_json::to_string_pretty(stats)
}

/// The text of a table in the given format, or `None` where the format's serialiser refuses the
/// table.
pub open spec fn rendered(stats: StatsEntries, format: Format) -> Option<Seq<char>> {
    match format {
        Format::Yaml => yaml_text(stats),
        Format::Json => json_text(stats),
    }
}

/// What the outcome of the YAML serialiser means for the report: its text, or a
/// `ReportError::Yaml` with the message that the serialiser's error displays.
pub fn yaml_report(outcome: Result<String, serde_yaml::Error>) -> (report: Result<
    String,
    ReportError,
>)
    ensures
        match outcome {
            Ok(text) => report == Ok::<String, ReportError>(text),
            Err(error) => report matches Err(ReportError::Yaml(message))
                && vstd::string::to_string_from_display_ensures::<serde_yaml::Error>(
                &error,
                message,
            ),
        },
{
    match outcome {
        Ok(text) => Ok(text),
        Err(error) => Err(ReportError::Yaml(error.to_string())),
    }
}

/// What the outcome of the JSON serialiser means for the report: its text, or a
/// `ReportError::Json` with the message that the serialiser's error displays.
pub fn json_report(outcome: Result<String, serde_json::Error>) -> (report: Result<
    String,
    ReportError,
>)
    ensures
        match outcome {
            Ok(text) => report == Ok::<String, ReportError>(text),
            Err(error) => report matches Err(ReportError::Json(message))
                && vstd::string::to_string_from_display_ensures::<serde_json::Error>(
                &error,
                message,
            ),
        },
{
    match outcome {
        Ok(text) => Ok(text),
        Err(error) => Err(ReportError::Json(error.to_string())),
    }
}

/// Writes the table out in the given format.
///
/// The table is written exactly where the serialiser of the format accepts its entries, and the
/// text is then the one that the serialiser gives for them. Where it refuses them, the error
/// names the format and carries the serialiser's message.
pub fn render(stats: &Stats, format: Format) -> (report: Result<String, ReportError>)
    ensures
        match rendered(stats_entries(*stats), format) {
            Some(text) => report matches Ok(written) && written@ == text,
            None => report matches Err(error) && error.format() == format,
        },
{
    match format {
        Format::Yaml => yaml_report(to_yaml(stats)),
        Format::Json => json_report(to_json(stats)),
    }
}

} // verus!
